//! The payload grammars that are left to `syn`: literals, expressions, types
//! and identifiers. Each reads a prefix of the tokens in front of it. How
//! long that prefix is, `syn` says when it is asked; nothing is known of its
//! answer beforehand, and what is done with it is proved for every answer.

use vstd::prelude::*;
use vstd::slice::slice_subrange;
use syn::parse::Parser;
use crate::cursor::{front, lemma_stream_view_subrange, Cursor};
use crate::error::{ErrorKind, Failure, Fault, ParseError};
use crate::parse::{follows, outcome, Parse, ToTokens};
use crate::token::{
    are_well_formed, extend_stream, lemma_stream_view, render_tokens, stream_view, well_formed, Token,
    TokenTree,
};

verus! {

/// The value of a reading: its message as a sequence of characters.
pub open spec fn reading_view(reading: Result<(usize, usize), String>) -> Result<
    (usize, usize),
    Seq<char>,
> {
    match reading {
        Ok(counts) => Ok(counts),
        Err(message) => Err(message@),
    }
}

/// Has `syn` read one literal from the start of `source`: the text is lexed
/// and `syn::Lit` parsed from its front (`Parser::parse_str` on
/// `ParseBuffer::parse`). The result is the number of token trees that the
/// lexer found and the number that the literal left unread, or the text of
/// the error. Nothing is claimed of it: which lexer reads the text is for
/// the process to say.
#[verifier::external_body]
fn read_lit(source: &str) -> (reading: Result<(usize, usize), String>) {
    let reader = |input: syn::parse::ParseStream| -> syn::Result<(usize, usize)> {
        let total = input.cursor().token_stream().into_iter().count();
        input.parse::<syn::Lit>()?;
        let rest = input.parse::<proc_macro2::TokenStream>()?.into_iter().count();
        Ok((total, rest))
    };
    reader.parse_str(source).map_err(|e| e.to_string())
}

/// As `read_lit`, with `syn::Expr` as the grammar.
#[verifier::external_body]
fn read_expr(source: &str) -> (reading: Result<(usize, usize), String>) {
    let reader = |input: syn::parse::ParseStream| -> syn::Result<(usize, usize)> {
        let total = input.cursor().token_stream().into_iter().count();
        input.parse::<syn::Expr>()?;
        let rest = input.parse::<proc_macro2::TokenStream>()?.into_iter().count();
        Ok((total, rest))
    };
    reader.parse_str(source).map_err(|e| e.to_string())
}

/// As `read_lit`, with `syn::Type` as the grammar.
#[verifier::external_body]
fn read_type(source: &str) -> (reading: Result<(usize, usize), String>) {
    let reader = |input: syn::parse::ParseStream| -> syn::Result<(usize, usize)> {
        let total = input.cursor().token_stream().into_iter().count();
        input.parse::<syn::Type>()?;
        let rest = input.parse::<proc_macro2::TokenStream>()?.into_iter().count();
        Ok((total, rest))
    };
    reader.parse_str(source).map_err(|e| e.to_string())
}

/// As `read_lit`, with `syn::Ident` as the grammar.
#[verifier::external_body]
fn read_ident(source: &str) -> (reading: Result<(usize, usize), String>) {
    let reader = |input: syn::parse::ParseStream| -> syn::Result<(usize, usize)> {
        let total = input.cursor().token_stream().into_iter().count();
        input.parse::<syn::Ident>()?;
        let rest = input.parse::<proc_macro2::TokenStream>()?.into_iter().count();
        Ok((total, rest))
    };
    reader.parse_str(source).map_err(|e| e.to_string())
}

/// The tokens that a delegated grammar is shown: all of them but a comma
/// that ends the input. Such a comma parts or ends a list and never belongs
/// to a value, so no value reads differently for it.
pub open spec fn shown(tokens: Seq<TokenTree>) -> Seq<TokenTree> {
    if tokens.len() > 0 && tokens.last().is_punct(',') {
        tokens.drop_last()
    } else {
        tokens
    }
}

/// The tokens of `tokens` that a delegated grammar is shown.
pub fn shown_tokens<'a>(tokens: &'a [Token]) -> (visible: &'a [Token])
    ensures
        stream_view(visible@) == shown(stream_view(tokens@)),
{
    proof {
        lemma_stream_view(tokens@);
    }
    let n = tokens.len();
    let comma = n > 0 && match &tokens[n - 1] {
        Token::Punct { ch, .. } => *ch == ',',
        _ => false,
    };
    if comma {
        proof {
            lemma_stream_view_subrange(tokens@, 0, n - 1);
        }
        let visible = slice_subrange(tokens, 0, n - 1);
        assert(stream_view(tokens@).drop_last() =~= stream_view(tokens@).subrange(0, n - 1));
        visible
    } else {
        tokens
    }
}

/// How many of `available` tokens a reading takes. A reading counts only
/// where the outside lexer found exactly the `available` tokens in the text
/// and left fewer of them than it found: a value has at least one token.
pub open spec fn reading_taken(
    reading: Result<(usize, usize), Seq<char>>,
    available: nat,
) -> Option<nat> {
    match reading {
        Ok(counts) => if counts.0 == available && counts.1 < counts.0 {
            Some((counts.0 - counts.1) as nat)
        } else {
            None
        },
        Err(_) => None,
    }
}

/// The message for tokens whose text the outside lexer reads as other
/// tokens than they are, or of which the outside grammar takes none.
pub open spec fn unreadable_tokens() -> Seq<char> {
    "the tokens do not read back as they stand"@
}

/// The message of a malformed item: the outside grammar's own where it
/// rejected the text, and that of unreadable tokens otherwise.
pub open spec fn reading_message(reading: Result<(usize, usize), Seq<char>>) -> Seq<char> {
    match reading {
        Ok(_) => unreadable_tokens(),
        Err(message) => message,
    }
}

/// What a delegated grammar makes of `tokens` when `reading` is what it is
/// told of the text of those that it is shown: the tokens that the reading
/// takes, or a malformed item at the front, with nothing read. Tokens that
/// are not well formed are malformed whatever the reading: their text would
/// be that of other tokens.
pub open spec fn delegated(
    tokens: Seq<TokenTree>,
    reading: Result<(usize, usize), Seq<char>>,
) -> Result<(Seq<TokenTree>, nat), Fault> {
    if !well_formed(shown(tokens)) {
        Err(
            Fault {
                kind: ErrorKind::MalformedItem,
                at: front(tokens),
                message: unreadable_tokens(),
                read: 0,
            },
        )
    } else {
        match reading_taken(reading, shown(tokens).len()) {
            Some(n) => Ok((tokens.take(n as int), n)),
            None => Err(
                Fault {
                    kind: ErrorKind::MalformedItem,
                    at: front(tokens),
                    message: reading_message(reading),
                    read: 0,
                },
            ),
        }
    }
}

/// The value of what `accept_reading` returns.
pub open spec fn taken_outcome(r: Result<Vec<Token>, ParseError>) -> Result<
    Seq<TokenTree>,
    Failure,
> {
    match r {
        Ok(taken) => Ok(stream_view(taken@)),
        Err(e) => Err(e@),
    }
}

/// Applies a reading of the text of the tokens shown to the cursor: reads
/// and copies the tokens that the reading takes, or reports a malformed item
/// at the front and reads nothing.
pub fn accept_reading<'a>(cursor: &mut Cursor<'a>, reading: Result<(usize, usize), String>) -> (r:
    Result<Vec<Token>, ParseError>)
    ensures
        final(cursor).end() == old(cursor).end(),
        follows(
            delegated(old(cursor).rest(), reading_view(reading)),
            old(cursor).rest(),
            old(cursor).end(),
            taken_outcome(r),
            final(cursor).rest(),
        ),
{
    assert(cursor.rest().skip(0) =~= cursor.rest());
    let visible = shown_tokens(cursor.remaining());
    proof {
        lemma_stream_view(visible@);
    }
    if !are_well_formed(visible) {
        return Err(
            ParseError::new(
                ErrorKind::MalformedItem,
                cursor.span(),
                "the tokens do not read back as they stand".to_string(),
            ),
        );
    }
    let visible = visible.len();
    match reading {
        Ok((total, rest)) => {
            if total == visible && rest < total {
                Ok(cursor.take(total - rest))
            } else {
                Err(
                    ParseError::new(
                        ErrorKind::MalformedItem,
                        cursor.span(),
                        "the tokens do not read back as they stand".to_string(),
                    ),
                )
            }
        },
        Err(message) => Err(ParseError::new(ErrorKind::MalformedItem, cursor.span(), message)),
    }
}

/// A grammar that is left to the outside: it reads what `delegated` states.
pub trait Delegated: Parse<Answers = Result<(usize, usize), Seq<char>>> + View<
    V = Seq<TokenTree>,
> {
    /// The grammar is `delegated`.
    proof fn grammar_is_delegated(tokens: Seq<TokenTree>, reading: Result<(usize, usize), Seq<char>>)
        ensures
            Self::grammar(tokens, reading) == delegated(tokens, reading),
    ;
}

/// A literal: the tokens that the grammar of literals read as one.
#[derive(Clone, Debug)]
pub struct Lit {
    pub tokens: Vec<Token>,
}

/// An expression: the tokens that the grammar of expressions read as one.
#[derive(Clone, Debug)]
pub struct Expr {
    pub tokens: Vec<Token>,
}

/// A type: the tokens that the grammar of types read as one.
#[derive(Clone, Debug)]
pub struct Type {
    pub tokens: Vec<Token>,
}

/// An identifier that is no reserved word: the tokens that the grammar of
/// identifiers read as one.
#[derive(Clone, Debug)]
pub struct Ident {
    pub tokens: Vec<Token>,
}

impl View for Lit {
    type V = Seq<TokenTree>;

    open spec fn view(&self) -> Seq<TokenTree> {
        stream_view(self.tokens@)
    }
}

impl View for Expr {
    type V = Seq<TokenTree>;

    open spec fn view(&self) -> Seq<TokenTree> {
        stream_view(self.tokens@)
    }
}

impl View for Type {
    type V = Seq<TokenTree>;

    open spec fn view(&self) -> Seq<TokenTree> {
        stream_view(self.tokens@)
    }
}

impl View for Ident {
    type V = Seq<TokenTree>;

    open spec fn view(&self) -> Seq<TokenTree> {
        stream_view(self.tokens@)
    }
}

impl Parse for Lit {
    type Answers = Result<(usize, usize), Seq<char>>;

    open spec fn grammar(tokens: Seq<TokenTree>, answers: Result<(usize, usize), Seq<char>>) -> Result<
        (Seq<TokenTree>, nat),
        Fault,
    > {
        delegated(tokens, answers)
    }

    proof fn grammar_in_bounds(tokens: Seq<TokenTree>, answers: Result<(usize, usize), Seq<char>>) {
    }

    fn parse<'a>(cursor: &mut Cursor<'a>) -> (r: Result<Self, ParseError>) {
        let visible = shown_tokens(cursor.remaining());
        let reading = if are_well_formed(visible) {
            read_lit(render_tokens(visible).as_str())
        } else {
            Err(String::new())
        };
        let r = match accept_reading(cursor, reading) {
            Ok(tokens) => Ok(Lit { tokens }),
            Err(e) => Err(e),
        };
        assert(follows(
            Self::grammar(old(cursor).rest(), reading_view(reading)),
            old(cursor).rest(),
            old(cursor).end(),
            outcome(r),
            cursor.rest(),
        ));
        r
    }
}

impl Delegated for Lit {
    proof fn grammar_is_delegated(tokens: Seq<TokenTree>, reading: Result<(usize, usize), Seq<char>>) {
    }
}

impl ToTokens for Lit {
    open spec fn emitted(&self) -> Seq<TokenTree> {
        self@
    }

    proof fn emits_what_was_read(
        &self,
        tokens: Seq<TokenTree>,
        answers: Result<(usize, usize), Seq<char>>,
    ) {
    }

    fn to_tokens(&self, out: &mut Vec<Token>) {
        extend_stream(out, self.tokens.as_slice());
    }
}

impl Parse for Expr {
    type Answers = Result<(usize, usize), Seq<char>>;

    open spec fn grammar(tokens: Seq<TokenTree>, answers: Result<(usize, usize), Seq<char>>) -> Result<
        (Seq<TokenTree>, nat),
        Fault,
    > {
        delegated(tokens, answers)
    }

    proof fn grammar_in_bounds(tokens: Seq<TokenTree>, answers: Result<(usize, usize), Seq<char>>) {
    }

    fn parse<'a>(cursor: &mut Cursor<'a>) -> (r: Result<Self, ParseError>) {
        let visible = shown_tokens(cursor.remaining());
        let reading = if are_well_formed(visible) {
            read_expr(render_tokens(visible).as_str())
        } else {
            Err(String::new())
        };
        let r = match accept_reading(cursor, reading) {
            Ok(tokens) => Ok(Expr { tokens }),
            Err(e) => Err(e),
        };
        assert(follows(
            Self::grammar(old(cursor).rest(), reading_view(reading)),
            old(cursor).rest(),
            old(cursor).end(),
            outcome(r),
            cursor.rest(),
        ));
        r
    }
}

impl Delegated for Expr {
    proof fn grammar_is_delegated(tokens: Seq<TokenTree>, reading: Result<(usize, usize), Seq<char>>) {
    }
}

impl ToTokens for Expr {
    open spec fn emitted(&self) -> Seq<TokenTree> {
        self@
    }

    proof fn emits_what_was_read(
        &self,
        tokens: Seq<TokenTree>,
        answers: Result<(usize, usize), Seq<char>>,
    ) {
    }

    fn to_tokens(&self, out: &mut Vec<Token>) {
        extend_stream(out, self.tokens.as_slice());
    }
}

impl Parse for Type {
    type Answers = Result<(usize, usize), Seq<char>>;

    open spec fn grammar(tokens: Seq<TokenTree>, answers: Result<(usize, usize), Seq<char>>) -> Result<
        (Seq<TokenTree>, nat),
        Fault,
    > {
        delegated(tokens, answers)
    }

    proof fn grammar_in_bounds(tokens: Seq<TokenTree>, answers: Result<(usize, usize), Seq<char>>) {
    }

    fn parse<'a>(cursor: &mut Cursor<'a>) -> (r: Result<Self, ParseError>) {
        let visible = shown_tokens(cursor.remaining());
        let reading = if are_well_formed(visible) {
            read_type(render_tokens(visible).as_str())
        } else {
            Err(String::new())
        };
        let r = match accept_reading(cursor, reading) {
            Ok(tokens) => Ok(Type { tokens }),
            Err(e) => Err(e),
        };
        assert(follows(
            Self::grammar(old(cursor).rest(), reading_view(reading)),
            old(cursor).rest(),
            old(cursor).end(),
            outcome(r),
            cursor.rest(),
        ));
        r
    }
}

impl Delegated for Type {
    proof fn grammar_is_delegated(tokens: Seq<TokenTree>, reading: Result<(usize, usize), Seq<char>>) {
    }
}

impl ToTokens for Type {
    open spec fn emitted(&self) -> Seq<TokenTree> {
        self@
    }

    proof fn emits_what_was_read(
        &self,
        tokens: Seq<TokenTree>,
        answers: Result<(usize, usize), Seq<char>>,
    ) {
    }

    fn to_tokens(&self, out: &mut Vec<Token>) {
        extend_stream(out, self.tokens.as_slice());
    }
}

impl Parse for Ident {
    type Answers = Result<(usize, usize), Seq<char>>;

    open spec fn grammar(tokens: Seq<TokenTree>, answers: Result<(usize, usize), Seq<char>>) -> Result<
        (Seq<TokenTree>, nat),
        Fault,
    > {
        delegated(tokens, answers)
    }

    proof fn grammar_in_bounds(tokens: Seq<TokenTree>, answers: Result<(usize, usize), Seq<char>>) {
    }

    fn parse<'a>(cursor: &mut Cursor<'a>) -> (r: Result<Self, ParseError>) {
        let visible = shown_tokens(cursor.remaining());
        let reading = if are_well_formed(visible) {
            read_ident(render_tokens(visible).as_str())
        } else {
            Err(String::new())
        };
        let r = match accept_reading(cursor, reading) {
            Ok(tokens) => Ok(Ident { tokens }),
            Err(e) => Err(e),
        };
        assert(follows(
            Self::grammar(old(cursor).rest(), reading_view(reading)),
            old(cursor).rest(),
            old(cursor).end(),
            outcome(r),
            cursor.rest(),
        ));
        r
    }
}

impl Delegated for Ident {
    proof fn grammar_is_delegated(tokens: Seq<TokenTree>, reading: Result<(usize, usize), Seq<char>>) {
    }
}

impl ToTokens for Ident {
    open spec fn emitted(&self) -> Seq<TokenTree> {
        self@
    }

    proof fn emits_what_was_read(
        &self,
        tokens: Seq<TokenTree>,
        answers: Result<(usize, usize), Seq<char>>,
    ) {
    }

    fn to_tokens(&self, out: &mut Vec<Token>) {
        extend_stream(out, self.tokens.as_slice());
    }
}

} // verus!
