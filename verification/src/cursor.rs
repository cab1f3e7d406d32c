//! A position in a sequence of token trees.

use vstd::prelude::*;
use vstd::slice::slice_subrange;
use vstd::string::StringExecFns;
use crate::token::{copy_stream, lemma_stream_view, stream_view, Delimiter, Span, Token, TokenTree};

verus! {

/// The span that an error at the front of `tokens` points at: that of the
/// first token, or `end` where none is left.
pub open spec fn front_span(tokens: Seq<TokenTree>, end: Span) -> Span {
    if tokens.len() > 0 {
        tokens[0].span()
    } else {
        end
    }
}

/// The span of the first of `tokens`, where there is one.
pub open spec fn front(tokens: Seq<TokenTree>) -> Option<Span> {
    if tokens.len() > 0 {
        Some(tokens[0].span())
    } else {
        None
    }
}

/// The value of a part of a token sequence is that part of its value.
pub proof fn lemma_stream_view_subrange(tokens: Seq<Token>, from: int, to: int)
    requires
        0 <= from <= to <= tokens.len(),
    ensures
        stream_view(tokens.subrange(from, to)) == stream_view(tokens).subrange(from, to),
{
    lemma_stream_view(tokens);
    lemma_stream_view(tokens.subrange(from, to));
    assert(stream_view(tokens.subrange(from, to)) =~= stream_view(tokens).subrange(from, to));
}

/// A cursor over borrowed tokens: the tokens not yet read, and the span to
/// report where they run out.
pub struct Cursor<'a> {
    tokens: &'a [Token],
    pos: usize,
    end: Span,
}

impl<'a> Cursor<'a> {
    #[verifier::type_invariant]
    spec fn in_bounds(self) -> bool {
        self.pos <= self.tokens@.len()
    }

    /// The tokens that are still to be read.
    pub closed spec fn rest(self) -> Seq<TokenTree> {
        stream_view(self.tokens@).skip(self.pos as int)
    }

    /// The span that stands for the end of the input.
    pub closed spec fn end(self) -> Span {
        self.end
    }

    /// A cursor at the start of `tokens`, with `end` as the place to report
    /// when they run out.
    pub fn new(tokens: &'a [Token], end: Span) -> (cursor: Cursor<'a>)
        ensures
            cursor.rest() == stream_view(tokens@),
            cursor.end() == end,
    {
        assert(stream_view(tokens@).skip(0) =~= stream_view(tokens@));
        Cursor { tokens, pos: 0, end }
    }

    /// Whether every token has been read.
    pub fn is_empty(&self) -> (b: bool)
        ensures
            b == (self.rest().len() == 0),
    {
        proof {
            use_type_invariant(self);
            lemma_stream_view(self.tokens@);
        }
        self.pos == self.tokens.len()
    }

    /// How many tokens are still to be read.
    pub fn len(&self) -> (n: usize)
        ensures
            n == self.rest().len(),
    {
        proof {
            use_type_invariant(self);
            lemma_stream_view(self.tokens@);
        }
        self.tokens.len() - self.pos
    }

    /// The span of the next token, or the end span.
    pub fn span(&self) -> (s: Span)
        ensures
            s == front_span(self.rest(), self.end()),
    {
        proof {
            use_type_invariant(self);
            lemma_stream_view(self.tokens@);
        }
        if self.pos < self.tokens.len() {
            self.tokens[self.pos].span()
        } else {
            self.end
        }
    }

    /// The next token, without reading it.
    pub fn peek(&self) -> (next: Option<&'a Token>)
        ensures
            match next {
                Some(t) => self.rest().len() > 0 && t@ == self.rest()[0],
                None => self.rest().len() == 0,
            },
    {
        proof {
            use_type_invariant(self);
            lemma_stream_view(self.tokens@);
        }
        if self.pos < self.tokens.len() {
            Some(&self.tokens[self.pos])
        } else {
            None
        }
    }

    /// Whether the next token is the punctuation character `c`.
    pub fn peek_punct(&self, c: char) -> (b: bool)
        ensures
            b == (self.rest().len() > 0 && self.rest()[0].is_punct(c)),
    {
        match self.peek() {
            Some(Token::Punct { ch, .. }) => *ch == c,
            _ => false,
        }
    }

    /// Whether the next token is the word `word`.
    pub fn peek_word(&self, word: &str) -> (b: bool)
        ensures
            b == (self.rest().len() > 0 && self.rest()[0].is_word(word@)),
    {
        match self.peek() {
            Some(Token::Ident { name, .. }) => *name == String::from_str(word),
            _ => false,
        }
    }

    /// Whether the next token is a group enclosed by `d`.
    pub fn peek_group(&self, d: Delimiter) -> (b: bool)
        ensures
            b == (self.rest().len() > 0 && self.rest()[0].is_group(d)),
    {
        match self.peek() {
            Some(Token::Group { delimiter, .. }) => *delimiter == d,
            _ => false,
        }
    }

    /// The tokens that are still to be read, borrowed.
    pub fn remaining(&self) -> (tokens: &'a [Token])
        ensures
            stream_view(tokens@) == self.rest(),
    {
        proof {
            use_type_invariant(self);
            lemma_stream_view_subrange(
                self.tokens@,
                self.pos as int,
                self.tokens@.len() as int,
            );
            lemma_stream_view(self.tokens@);
        }
        slice_subrange(self.tokens, self.pos, self.tokens.len())
    }

    /// Reads `n` tokens without looking at them.
    pub fn advance(&mut self, n: usize)
        requires
            n <= old(self).rest().len(),
        ensures
            final(self).rest() == old(self).rest().skip(n as int),
            final(self).end() == old(self).end(),
    {
        proof {
            use_type_invariant(&*self);
            lemma_stream_view(self.tokens@);
            assert(self.rest().len() == self.tokens@.len() - self.pos);
        }
        let total = self.tokens.len();
        assert(self.pos + n <= total);
        self.pos = self.pos + n;
        assert(self.rest() =~= old(self).rest().skip(n as int));
    }

    /// Reads `n` tokens and returns copies of them.
    pub fn take(&mut self, n: usize) -> (taken: Vec<Token>)
        requires
            n <= old(self).rest().len(),
        ensures
            stream_view(taken@) == old(self).rest().take(n as int),
            final(self).rest() == old(self).rest().skip(n as int),
            final(self).end() == old(self).end(),
    {
        proof {
            use_type_invariant(&*self);
            lemma_stream_view(self.tokens@);
            assert(self.rest().len() == self.tokens@.len() - self.pos);
            lemma_stream_view_subrange(self.tokens@, self.pos as int, self.pos + n);
        }
        let total = self.tokens.len();
        assert(self.pos + n <= total);
        let taken = copy_stream(slice_subrange(self.tokens, self.pos, self.pos + n));
        self.pos = self.pos + n;
        assert(self.rest() =~= old(self).rest().skip(n as int));
        assert(stream_view(taken@) =~= old(self).rest().take(n as int));
        taken
    }

    /// Reads the next token if it is a group enclosed by `d`, and returns a
    /// cursor over what the group holds; the group's span is that cursor's
    /// end. Reads nothing otherwise.
    pub fn open_group(&mut self, d: Delimiter) -> (inner: Option<Cursor<'a>>)
        ensures
            final(self).end() == old(self).end(),
            match inner {
                Some(content) => {
                    &&& old(self).rest().len() > 0
                    &&& old(self).rest()[0].is_group(d)
                    &&& content.rest() == old(self).rest()[0].stream()
                    &&& content.end() == old(self).rest()[0].span()
                    &&& final(self).rest() == old(self).rest().skip(1)
                },
                None => {
                    &&& !(old(self).rest().len() > 0 && old(self).rest()[0].is_group(d))
                    &&& final(self).rest() == old(self).rest()
                },
            },
    {
        match self.peek() {
            Some(Token::Group { delimiter, stream, span }) => {
                if *delimiter == d {
                    let content = Cursor::new(stream.as_slice(), *span);
                    self.advance(1);
                    Some(content)
                } else {
                    None
                }
            },
            _ => None,
        }
    }
}

} // verus!
