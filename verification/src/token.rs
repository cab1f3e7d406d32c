//! Token trees: the plain data that every grammar in this crate reads.

use vstd::prelude::*;
use vstd::string::{StrSliceExecFns, StringExecFns};

verus! {

/// A region of the source, as a half-open range of offsets. What the offsets
/// count is for whoever makes the tokens to say: bytes of the text, or the
/// tokens themselves.
#[derive(Clone, Copy, Debug, PartialEq, Eq, Structural)]
pub struct Span {
    pub lo: usize,
    pub hi: usize,
}

/// The bracket kind that encloses a group of tokens.
#[derive(Clone, Copy, Debug, PartialEq, Eq, Structural)]
pub enum Delimiter {
    /// `( ... )`
    Parenthesis,
    /// `{ ... }`
    Brace,
    /// `[ ... ]`
    Bracket,
    /// An invisible group, as macro expansion leaves behind.
    Invisible,
}

/// One token tree, as the grammars see it: the mathematical value of a
/// [`Token`].
pub enum TokenTree {
    Ident { name: Seq<char>, span: Span },
    Punct { ch: char, joint: bool, span: Span },
    Literal { text: Seq<char>, span: Span },
    Group { delimiter: Delimiter, stream: Seq<TokenTree>, span: Span },
}

/// One token tree.
#[derive(Debug)]
pub enum Token {
    /// A word: an identifier or a keyword.
    Ident { name: String, span: Span },
    /// One punctuation character; `joint` when the next token follows it
    /// without a space, as the `+` of `+=` does.
    Punct { ch: char, joint: bool, span: Span },
    /// A literal, kept as it was written.
    Literal { text: String, span: Span },
    /// A bracketed sequence of token trees.
    Group { delimiter: Delimiter, stream: Vec<Token>, span: Span },
}

impl Delimiter {
    /// The text that opens a group of this kind that holds `inner` tokens.
    /// An invisible group has no bracket of its own. Where it holds several
    /// tokens it is rendered in parentheses, so that they stay together;
    /// where it holds one or none, as what it holds.
    pub open spec fn opening(self, inner: nat) -> Seq<char> {
        match self {
            Delimiter::Parenthesis => seq!['('],
            Delimiter::Brace => seq!['{'],
            Delimiter::Bracket => seq!['['],
            Delimiter::Invisible => if inner > 1 {
                seq!['(']
            } else {
                seq![]
            },
        }
    }

    /// The text that closes a group of this kind that holds `inner` tokens.
    pub open spec fn closing(self, inner: nat) -> Seq<char> {
        match self {
            Delimiter::Parenthesis => seq![')'],
            Delimiter::Brace => seq!['}'],
            Delimiter::Bracket => seq![']'],
            Delimiter::Invisible => if inner > 1 {
                seq![')']
            } else {
                seq![]
            },
        }
    }
}

impl TokenTree {
    /// Where the token stands in the source.
    pub open spec fn span(self) -> Span {
        match self {
            TokenTree::Ident { span, .. } => span,
            TokenTree::Punct { span, .. } => span,
            TokenTree::Literal { span, .. } => span,
            TokenTree::Group { span, .. } => span,
        }
    }

    /// Whether the token is the punctuation character `c`.
    pub open spec fn is_punct(self, c: char) -> bool {
        self matches TokenTree::Punct { ch, .. } && ch == c
    }

    /// Whether the token is a group enclosed by `d`.
    pub open spec fn is_group(self, d: Delimiter) -> bool {
        self matches TokenTree::Group { delimiter, .. } && delimiter == d
    }

    /// Whether the token is the word `word`.
    pub open spec fn is_word(self, word: Seq<char>) -> bool {
        self matches TokenTree::Ident { name, .. } && name == word
    }

    /// The tokens inside a group; none for any other token.
    pub open spec fn stream(self) -> Seq<TokenTree> {
        match self {
            TokenTree::Group { stream, .. } => stream,
            _ => Seq::empty(),
        }
    }
}

/// Whether `c` is a digit.
pub open spec fn is_digit(c: char) -> bool {
    '0' <= c && c <= '9'
}

/// Whether `c` may stand in a word: a letter, a digit, an underscore, or a
/// character beyond the first 128.
pub open spec fn is_word_char(c: char) -> bool {
    c == '_' || ('a' <= c && c <= 'z') || ('A' <= c && c <= 'Z') || is_digit(c) || c as u32 >= 128
}

/// Whether `c` is a punctuation character that a token can be.
pub open spec fn is_punct_char(c: char) -> bool {
    c == '!' || c == '#' || c == '$' || c == '%' || c == '&' || c == '\'' || c == '*' || c == '+'
        || c == ',' || c == '-' || c == '.' || c == '/' || c == ':' || c == ';' || c == '<' || c
        == '=' || c == '>' || c == '?' || c == '@' || c == '^' || c == '|' || c == '~'
}

/// Whether `name` is written as a word is: word characters only, the first
/// of them no digit, with or without `r#` in front.
pub open spec fn is_word_text(name: Seq<char>) -> bool {
    let from: int = if name.len() >= 2 && name[0] == 'r' && name[1] == '#' {
        2
    } else {
        0
    };
    &&& from < name.len()
    &&& !is_digit(name[from])
    &&& forall|i: int| from <= i < name.len() ==> is_word_char(#[trigger] name[i])
}

/// Whether `text` begins as a literal does: with a digit, with a quote, or
/// with one of the prefixes `b`, `c`, `r`, `br`, `cr` and a quote (or,
/// behind an `r`, a `#`).
pub open spec fn is_literal_text(text: Seq<char>) -> bool {
    let n = text.len();
    n > 0 && {
        ||| is_digit(text[0])
        ||| text[0] == '"'
        ||| text[0] == '\''
        ||| (n > 1 && text[0] == 'r' && (text[1] == '"' || text[1] == '#'))
        ||| (n > 1 && (text[0] == 'b' || text[0] == 'c') && text[1] == '"')
        ||| (n > 1 && text[0] == 'b' && text[1] == '\'')
        ||| (n > 2 && (text[0] == 'b' || text[0] == 'c') && text[1] == 'r' && (text[2] == '"'
            || text[2] == '#'))
    }
}

impl TokenTree {
    /// Whether the token is written as a token of its kind is, and so are
    /// the tokens inside it: no word that begins as a literal does, no
    /// literal that begins as a word does, no punctuation that is none.
    pub open spec fn well_formed(self) -> bool
        decreases self,
    {
        match self {
            TokenTree::Ident { name, .. } => is_word_text(name),
            TokenTree::Punct { ch, .. } => is_punct_char(ch),
            TokenTree::Literal { text, .. } => is_literal_text(text),
            TokenTree::Group { stream, .. } => well_formed_upto(stream, stream.len()),
        }
    }
}

/// Whether the first `n` tokens of `tokens` are well formed.
pub open spec fn well_formed_upto(tokens: Seq<TokenTree>, n: nat) -> bool
    decreases tokens, n,
{
    if n == 0 || n > tokens.len() {
        true
    } else {
        well_formed_upto(tokens, (n - 1) as nat) && tokens[n - 1].well_formed()
    }
}

/// Whether all of `tokens` are well formed.
pub open spec fn well_formed(tokens: Seq<TokenTree>) -> bool {
    well_formed_upto(tokens, tokens.len())
}

/// The values of the first `n` tokens of `tokens`.
pub open spec fn view_upto(tokens: Seq<Token>, n: nat) -> Seq<TokenTree>
    decreases tokens, n,
{
    if n == 0 || n > tokens.len() {
        Seq::empty()
    } else {
        view_upto(tokens, (n - 1) as nat).push(tokens[n - 1]@)
    }
}

/// The values of `tokens`, token by token.
pub open spec fn stream_view(tokens: Seq<Token>) -> Seq<TokenTree> {
    view_upto(tokens, tokens.len())
}

impl View for Token {
    type V = TokenTree;

    open spec fn view(&self) -> TokenTree
        decreases self,
    {
        match self {
            Token::Ident { name, span } => TokenTree::Ident { name: name@, span: *span },
            Token::Punct { ch, joint, span } => TokenTree::Punct {
                ch: *ch,
                joint: *joint,
                span: *span,
            },
            Token::Literal { text, span } => TokenTree::Literal { text: text@, span: *span },
            Token::Group { delimiter, stream, span } => TokenTree::Group {
                delimiter: *delimiter,
                stream: view_upto(stream@, stream@.len()),
                span: *span,
            },
        }
    }
}

/// `view_upto` lists the values of the first `n` tokens in order.
pub proof fn lemma_view_upto(tokens: Seq<Token>, n: nat)
    requires
        n <= tokens.len(),
    ensures
        view_upto(tokens, n).len() == n,
        forall|i: int| 0 <= i < n ==> (#[trigger] view_upto(tokens, n)[i]) == tokens[i]@,
    decreases n,
{
    if n > 0 {
        lemma_view_upto(tokens, (n - 1) as nat);
        assert(view_upto(tokens, n) == view_upto(tokens, (n - 1) as nat).push(tokens[n - 1]@));
    } else {
        assert(view_upto(tokens, n) == Seq::<TokenTree>::empty());
    }
}

/// The value of a token sequence has the value of each token at its place.
pub proof fn lemma_stream_view(tokens: Seq<Token>)
    ensures
        stream_view(tokens).len() == tokens.len(),
        forall|i: int| 0 <= i < tokens.len() ==> (#[trigger] stream_view(tokens)[i]) == tokens[i]@,
{
    lemma_view_upto(tokens, tokens.len());
}

/// The source text of one token, followed by the space that parts it from the
/// next one (a joint punctuation character has none).
pub open spec fn token_text(t: TokenTree) -> Seq<char>
    decreases t,
{
    match t {
        TokenTree::Ident { name, .. } => name.push(' '),
        TokenTree::Punct { ch, joint, .. } => if joint {
            seq![ch]
        } else {
            seq![ch, ' ']
        },
        TokenTree::Literal { text, .. } => text.push(' '),
        TokenTree::Group { delimiter, stream, .. } => (delimiter.opening(stream.len())
            + stream_text(stream, stream.len()) + delimiter.closing(stream.len())).push(' '),
    }
}

/// The source text of the first `n` tokens of `tokens`.
pub open spec fn stream_text(tokens: Seq<TokenTree>, n: nat) -> Seq<char>
    decreases tokens, n,
{
    if n == 0 || n > tokens.len() {
        Seq::empty()
    } else {
        stream_text(tokens, (n - 1) as nat) + token_text(tokens[n - 1])
    }
}

/// The source text of `tokens`: what a lexer reads the same tokens from.
pub open spec fn render(tokens: Seq<TokenTree>) -> Seq<char> {
    stream_text(tokens, tokens.len())
}

/// Appends one character to `out`, by `String::push`.
#[verifier::external_body]
fn push_char(out: &mut String, c: char)
    ensures
        final(out)@ == old(out)@.push(c),
{
    out.push(c);
}

impl Delimiter {
    /// Appends the opening bracket of a group of `inner` tokens to `out`.
    fn write_opening(self, inner: usize, out: &mut String)
        ensures
            final(out)@ == old(out)@ + self.opening(inner as nat),
    {
        match self {
            Delimiter::Parenthesis => push_char(out, '('),
            Delimiter::Brace => push_char(out, '{'),
            Delimiter::Bracket => push_char(out, '['),
            Delimiter::Invisible => if inner > 1 {
                push_char(out, '(')
            },
        }
        assert(final(out)@ =~= old(out)@ + self.opening(inner as nat));
    }

    /// Appends the closing bracket of a group of `inner` tokens to `out`.
    fn write_closing(self, inner: usize, out: &mut String)
        ensures
            final(out)@ == old(out)@ + self.closing(inner as nat),
    {
        match self {
            Delimiter::Parenthesis => push_char(out, ')'),
            Delimiter::Brace => push_char(out, '}'),
            Delimiter::Bracket => push_char(out, ']'),
            Delimiter::Invisible => if inner > 1 {
                push_char(out, ')')
            },
        }
        assert(final(out)@ =~= old(out)@ + self.closing(inner as nat));
    }
}

impl Token {
    /// Where the token stands in the source.
    pub fn span(&self) -> (s: Span)
        ensures
            s == self@.span(),
    {
        match self {
            Token::Ident { span, .. } => *span,
            Token::Punct { span, .. } => *span,
            Token::Literal { span, .. } => *span,
            Token::Group { span, .. } => *span,
        }
    }

    /// Appends the source text of the token to `out`.
    pub fn write(&self, out: &mut String)
        ensures
            final(out)@ == old(out)@ + token_text(self@),
        decreases *self,
    {
        match self {
            Token::Ident { name, .. } => {
                out.append(name.as_str());
                push_char(out, ' ');
            },
            Token::Punct { ch, joint, .. } => {
                push_char(out, *ch);
                if !*joint {
                    push_char(out, ' ');
                }
            },
            Token::Literal { text, .. } => {
                out.append(text.as_str());
                push_char(out, ' ');
            },
            Token::Group { delimiter, stream, .. } => {
                proof {
                    lemma_stream_view(stream@);
                }
                delimiter.write_opening(stream.len(), out);
                write_stream(stream.as_slice(), out);
                delimiter.write_closing(stream.len(), out);
                push_char(out, ' ');
            },
        }
        assert(out@ =~= old(out)@ + token_text(self@));
    }

    /// A copy of the token, groups and all.
    fn duplicate(&self) -> (copy: Token)
        ensures
            copy@ == self@,
        decreases *self,
    {
        match self {
            Token::Ident { name, span } => Token::Ident { name: name.clone(), span: *span },
            Token::Punct { ch, joint, span } => Token::Punct {
                ch: *ch,
                joint: *joint,
                span: *span,
            },
            Token::Literal { text, span } => Token::Literal { text: text.clone(), span: *span },
            Token::Group { delimiter, stream, span } => Token::Group {
                delimiter: *delimiter,
                stream: copy_stream(stream.as_slice()),
                span: *span,
            },
        }
    }
}

/// Whether `c` may stand in a word.
fn word_char(c: char) -> (b: bool)
    ensures
        b == is_word_char(c),
{
    c == '_' || ('a' <= c && c <= 'z') || ('A' <= c && c <= 'Z') || ('0' <= c && c <= '9') || c as u32
        >= 128
}

/// Whether `c` is a digit.
fn digit(c: char) -> (b: bool)
    ensures
        b == is_digit(c),
{
    '0' <= c && c <= '9'
}

/// Whether `c` is a punctuation character that a token can be.
fn punct_char(c: char) -> (b: bool)
    ensures
        b == is_punct_char(c),
{
    c == '!' || c == '#' || c == '$' || c == '%' || c == '&' || c == '\'' || c == '*' || c == '+'
        || c == ',' || c == '-' || c == '.' || c == '/' || c == ':' || c == ';' || c == '<' || c
        == '=' || c == '>' || c == '?' || c == '@' || c == '^' || c == '|' || c == '~'
}

/// Whether `name` is written as a word is.
fn word_text(name: &str) -> (b: bool)
    ensures
        b == is_word_text(name@),
{
    let n = name.unicode_len();
    let from: usize = if n >= 2 && name.get_char(0) == 'r' && name.get_char(1) == '#' {
        2
    } else {
        0
    };
    if from >= n || digit(name.get_char(from)) {
        return false;
    }
    let mut i: usize = from;
    while i < n
        invariant
            n == name@.len(),
            from <= i <= n,
            from == (if n >= 2 && name@[0] == 'r' && name@[1] == '#' {
                2int
            } else {
                0int
            }),
            !is_digit(name@[from as int]),
            forall|k: int| from <= k < i ==> is_word_char(#[trigger] name@[k]),
        decreases n - i,
    {
        if !word_char(name.get_char(i)) {
            return false;
        }
        i += 1;
    }
    true
}

/// Whether `text` begins as a literal does.
fn literal_text(text: &str) -> (b: bool)
    ensures
        b == is_literal_text(text@),
{
    let n = text.unicode_len();
    if n == 0 {
        return false;
    }
    let first = text.get_char(0);
    if digit(first) || first == '"' || first == '\'' {
        return true;
    }
    if n == 1 {
        return false;
    }
    let second = text.get_char(1);
    if first == 'r' {
        return second == '"' || second == '#';
    }
    if first == 'b' || first == 'c' {
        if second == '"' || (first == 'b' && second == '\'') {
            return true;
        }
        if second == 'r' && n > 2 {
            let third = text.get_char(2);
            return third == '"' || third == '#';
        }
    }
    false
}

impl Token {
    /// Whether the token is well formed, and so are the tokens inside it.
    pub fn is_well_formed(&self) -> (b: bool)
        ensures
            b == self@.well_formed(),
        decreases *self,
    {
        match self {
            Token::Ident { name, .. } => word_text(name.as_str()),
            Token::Punct { ch, .. } => punct_char(*ch),
            Token::Literal { text, .. } => literal_text(text.as_str()),
            Token::Group { stream, .. } => are_well_formed(stream.as_slice()),
        }
    }
}

/// Whether all of `tokens` are well formed.
pub fn are_well_formed(tokens: &[Token]) -> (b: bool)
    ensures
        b == well_formed(stream_view(tokens@)),
    decreases tokens@,
{
    proof {
        lemma_stream_view(tokens@);
    }
    let mut i: usize = 0;
    while i < tokens.len()
        invariant
            i <= tokens.len(),
            stream_view(tokens@).len() == tokens.len(),
            forall|k: int| 0 <= k < tokens.len() ==> (#[trigger] stream_view(tokens@)[k]) == tokens[k]@,
            well_formed_upto(stream_view(tokens@), i as nat),
        decreases tokens.len() - i,
    {
        if !tokens[i].is_well_formed() {
            proof {
                lemma_not_well_formed(stream_view(tokens@), i as int, tokens.len() as nat);
            }
            return false;
        }
        i += 1;
        assert(well_formed_upto(stream_view(tokens@), i as nat) == (well_formed_upto(
            stream_view(tokens@),
            (i - 1) as nat,
        ) && stream_view(tokens@)[i - 1].well_formed()));
    }
    true
}

/// One token that is not well formed spoils all that hold it.
pub proof fn lemma_not_well_formed(tokens: Seq<TokenTree>, i: int, n: nat)
    requires
        0 <= i < n <= tokens.len(),
        !tokens[i].well_formed(),
    ensures
        !well_formed_upto(tokens, n),
    decreases n,
{
    if i < n - 1 {
        lemma_not_well_formed(tokens, i, (n - 1) as nat);
    }
}

impl Clone for Token {
    /// A copy of the token, groups and all.
    fn clone(&self) -> (copy: Token)
        ensures
            copy@ == self@,
    {
        self.duplicate()
    }
}

/// Appends the source text of `tokens` to `out`.
pub fn write_stream(tokens: &[Token], out: &mut String)
    ensures
        final(out)@ == old(out)@ + render(stream_view(tokens@)),
    decreases tokens@,
{
    proof {
        lemma_stream_view(tokens@);
    }
    let mut i: usize = 0;
    assert(out@ =~= old(out)@ + stream_text(stream_view(tokens@), 0));
    while i < tokens.len()
        invariant
            i <= tokens.len(),
            stream_view(tokens@).len() == tokens.len(),
            forall|k: int| 0 <= k < tokens.len() ==> (#[trigger] stream_view(tokens@)[k]) == tokens[k]@,
            out@ == old(out)@ + stream_text(stream_view(tokens@), i as nat),
        decreases tokens.len() - i,
    {
        tokens[i].write(out);
        i += 1;
        assert(stream_text(stream_view(tokens@), i as nat) == stream_text(
            stream_view(tokens@),
            (i - 1) as nat,
        ) + token_text(stream_view(tokens@)[i - 1]));
        assert(out@ =~= old(out)@ + stream_text(stream_view(tokens@), i as nat));
    }
}

/// The source text of `tokens` as a string.
pub fn render_tokens(tokens: &[Token]) -> (text: String)
    ensures
        text@ == render(stream_view(tokens@)),
{
    let mut text = String::new();
    write_stream(tokens, &mut text);
    assert(text@ =~= render(stream_view(tokens@)));
    text
}

/// A copy of `tokens`.
pub fn copy_stream(tokens: &[Token]) -> (copy: Vec<Token>)
    ensures
        stream_view(copy@) == stream_view(tokens@),
    decreases tokens@,
{
    let mut copy: Vec<Token> = Vec::new();
    let mut i: usize = 0;
    while i < tokens.len()
        invariant
            i <= tokens.len(),
            copy@.len() == i,
            forall|k: int| 0 <= k < i ==> (#[trigger] copy@[k])@ == tokens@[k]@,
        decreases tokens.len() - i,
    {
        let t = tokens[i].duplicate();
        copy.push(t);
        i += 1;
    }
    proof {
        lemma_stream_view(tokens@);
        lemma_stream_view(copy@);
    }
    assert(stream_view(copy@) =~= stream_view(tokens@));
    copy
}

/// Appends copies of `tokens` to `out`.
pub fn extend_stream(out: &mut Vec<Token>, tokens: &[Token])
    ensures
        stream_view(final(out)@) == stream_view(old(out)@) + stream_view(tokens@),
{
    let mut i: usize = 0;
    while i < tokens.len()
        invariant
            i <= tokens.len(),
            out@.len() == old(out)@.len() + i,
            forall|k: int| 0 <= k < old(out)@.len() ==> (#[trigger] out@[k]) == old(out)@[k],
            forall|k: int|
                old(out)@.len() <= k < out@.len() ==> (#[trigger] out@[k])@ == tokens@[k - old(
                    out,
                )@.len()]@,
        decreases tokens.len() - i,
    {
        let t = tokens[i].duplicate();
        out.push(t);
        i += 1;
    }
    proof {
        lemma_stream_view(tokens@);
        lemma_stream_view(old(out)@);
        lemma_stream_view(out@);
    }
    assert(stream_view(out@) =~= stream_view(old(out)@) + stream_view(tokens@));
}

} // verus!
