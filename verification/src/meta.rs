//! The keyword-led nodes of the attribute grammar: a bare keyword, a keyword
//! with one value, a keyword with a list, and a keyword with a list in either
//! of two bracket kinds.

use vstd::prelude::*;
use vstd::string::StringExecFns;
use crate::cursor::{front, Cursor};
use crate::error::{unexpected_token, ErrorKind, Failure, Fault, ParseError};
use crate::parse::{
    finish, follows, list_grammar, list_outcome, outcome, parse_terminated, views, whole,
    whole_outcome, Parse, ToTokens,
};
use crate::token::{lemma_stream_view, stream_view, Delimiter, Span, Token, TokenTree};

verus! {

/// The value of a [`Keyword`].
pub struct KeywordView {
    pub name: Seq<char>,
    pub span: Span,
}

/// The value of a keyword-led node: the keyword and what follows it.
pub struct Keyed<P> {
    pub ident: KeywordView,
    pub payload: P,
}

/// The value of an [`Enclosure`].
#[allow(inconsistent_fields)]
pub enum EnclosureView<P, B> {
    Paren { fields: Seq<P> },
    Brace { fields: Seq<B> },
}

/// The identifier that leads a node, and where it stands in the source.
#[derive(Clone, Debug)]
pub struct Keyword {
    pub name: String,
    pub span: Span,
}

/// A keyword that stands alone.
#[derive(Clone, Debug)]
pub struct MetaVoid {
    pub ident: Keyword,
}

/// A keyword with one value: `word(value)` or `word = value`.
#[derive(Clone, Debug)]
pub struct MetaValue<V> {
    pub ident: Keyword,
    pub value: V,
}

/// A keyword with a parenthesised list: `word(item, item, ...)`.
#[derive(Clone, Debug)]
pub struct MetaList<I> {
    pub ident: Keyword,
    pub fields: Vec<I>,
}

/// The list of an enclosed-list node, by the bracket kind that held it.
#[derive(Clone, Debug)]
#[allow(inconsistent_fields)]
pub enum Enclosure<P, B> {
    Paren { fields: Vec<P> },
    Brace { fields: Vec<B> },
}

/// A keyword with a list in parentheses or in braces, each with its own item
/// grammar.
#[derive(Clone, Debug)]
pub struct MetaEnclosedList<P, B> {
    pub ident: Keyword,
    pub list: Enclosure<P, B>,
}

/// A parenthesised list with no keyword in front of it, for where an outer
/// grammar has read the keyword already.
#[derive(Clone, Debug)]
pub struct MetaAttrList<I>(pub Vec<I>);

impl View for Keyword {
    type V = KeywordView;

    open spec fn view(&self) -> KeywordView {
        KeywordView { name: self.name@, span: self.span }
    }
}

impl View for MetaVoid {
    type V = KeywordView;

    open spec fn view(&self) -> KeywordView {
        self.ident@
    }
}

impl<V: View> View for MetaValue<V> {
    type V = Keyed<V::V>;

    open spec fn view(&self) -> Keyed<V::V> {
        Keyed { ident: self.ident@, payload: self.value@ }
    }
}

impl<I: View> View for MetaList<I> {
    type V = Keyed<Seq<I::V>>;

    open spec fn view(&self) -> Keyed<Seq<I::V>> {
        Keyed { ident: self.ident@, payload: views(self.fields@) }
    }
}

impl<P: View, B: View> View for Enclosure<P, B> {
    type V = EnclosureView<P::V, B::V>;

    open spec fn view(&self) -> EnclosureView<P::V, B::V> {
        match self {
            Enclosure::Paren { fields } => EnclosureView::Paren { fields: views(fields@) },
            Enclosure::Brace { fields } => EnclosureView::Brace { fields: views(fields@) },
        }
    }
}

impl<P: View, B: View> View for MetaEnclosedList<P, B> {
    type V = Keyed<EnclosureView<P::V, B::V>>;

    open spec fn view(&self) -> Keyed<EnclosureView<P::V, B::V>> {
        Keyed { ident: self.ident@, payload: self.list@ }
    }
}

impl<I: View> View for MetaAttrList<I> {
    type V = Seq<I::V>;

    open spec fn view(&self) -> Seq<I::V> {
        views(self.0@)
    }
}

/// The message for a token that is not the keyword `word`.
pub open spec fn expected_keyword(word: Seq<char>) -> Seq<char> {
    "expected `"@ + word + "`"@
}

/// The message for the keyword `word` with neither `(` nor `=` behind it.
pub open spec fn expected_value(word: Seq<char>) -> Seq<char> {
    "expected `(` or `=` after `"@ + word + "`"@
}

/// The message for a missing list in parentheses; `context` says after what.
pub open spec fn expected_parens(context: Seq<char>) -> Seq<char> {
    "expected parentheses"@ + context
}

/// The message for the keyword `word` with neither of the two bracket kinds
/// behind it.
pub open spec fn expected_enclosure(word: Seq<char>) -> Seq<char> {
    "expected parentheses or curly braces after `"@ + word + "`"@
}

/// The words that say which keyword a list was expected after.
pub open spec fn after_keyword(word: Seq<char>) -> Seq<char> {
    " after `"@ + word + "`"@
}

/// What the grammar of the bare keyword `word` makes of `tokens`: the first
/// token where that token is the identifier `word`, a keyword mismatch at
/// the front otherwise, with nothing read.
pub open spec fn keyword_grammar(word: Seq<char>, tokens: Seq<TokenTree>) -> Result<
    (KeywordView, nat),
    Fault,
> {
    if tokens.len() > 0 && tokens[0].is_word(word) {
        Ok((KeywordView { name: word, span: tokens[0].span() }, 1))
    } else {
        Err(
            Fault {
                kind: ErrorKind::KeywordMismatch,
                at: front(tokens),
                message: expected_keyword(word),
                read: 0,
            },
        )
    }
}

/// A payload behind its keyword: `payload` is what a grammar makes of the
/// tokens behind the first one, which is the keyword `ident`.
pub open spec fn keyed<P>(ident: KeywordView, payload: Result<(P, nat), Fault>) -> Result<
    (Keyed<P>, nat),
    Fault,
> {
    match payload {
        Ok(read) => Ok((Keyed { ident, payload: read.0 }, read.1 + 1)),
        Err(f) => Err(f.after(1)),
    }
}

/// What the grammar of a value makes of the tokens behind the keyword. A
/// parenthesised group must hold the value and nothing else; behind `=` the
/// value reads as far as its own grammar goes; anything else is a missing
/// payload, and is not read. A fault inside the parentheses leaves the
/// cursor behind them.
pub open spec fn value_payload<V: Parse>(
    word: Seq<char>,
    after: Seq<TokenTree>,
    answers: V::Answers,
) -> Result<(V::V, nat), Fault> {
    if after.len() > 0 && after[0].is_group(Delimiter::Parenthesis) {
        let inner = after[0].stream();
        match V::grammar(inner, answers) {
            Err(f) => Err(f.inside(after[0].span(), 1)),
            Ok(read) => if read.1 < inner.len() {
                Err(
                    Fault {
                        kind: ErrorKind::UnexpectedToken,
                        at: Some(inner[read.1 as int].span()),
                        message: unexpected_token(),
                        read: 1,
                    },
                )
            } else {
                Ok((read.0, 1))
            },
        }
    } else if after.len() > 0 && after[0].is_punct('=') {
        match V::grammar(after.skip(1), answers) {
            Err(f) => Err(f.after(1)),
            Ok(read) => Ok((read.0, read.1 + 1)),
        }
    } else {
        Err(
            Fault {
                kind: ErrorKind::MissingPayload,
                at: front(after),
                message: expected_value(word),
                read: 0,
            },
        )
    }
}

/// The kind of failure where a parenthesised list should stand at the front
/// of `after` and does not: the wrong delimiter where `=` or another group
/// stands there, a missing payload otherwise.
pub open spec fn list_fault(after: Seq<TokenTree>) -> ErrorKind {
    if after.len() > 0 && (after[0].is_punct('=') || after[0] is Group) {
        ErrorKind::WrongDelimiter
    } else {
        ErrorKind::MissingPayload
    }
}

/// What the grammar of a parenthesised list makes of the tokens in front of
/// it: the items of the group that stands first, read to the group's end.
/// Where no such group stands there, nothing is read, and `context` ends the
/// message. A fault inside the parentheses leaves the cursor behind them.
pub open spec fn list_payload<I: Parse>(
    after: Seq<TokenTree>,
    context: Seq<char>,
    answers: Seq<I::Answers>,
) -> Result<(Seq<I::V>, nat), Fault> {
    if after.len() > 0 && after[0].is_group(Delimiter::Parenthesis) {
        match list_grammar::<I>(after[0].stream(), answers) {
            Ok(read) => Ok((read.0, 1)),
            Err(f) => Err(f.inside(after[0].span(), 1)),
        }
    } else {
        Err(
            Fault {
                kind: list_fault(after),
                at: front(after),
                message: expected_parens(context),
                read: 0,
            },
        )
    }
}

/// What the grammar of an enclosed list makes of the tokens behind the
/// keyword: the first token decides. A parenthesised group is a list of `P`,
/// a braced group a list of `B`; anything else fits neither and is not read.
pub open spec fn enclosed_payload<P: Parse, B: Parse>(
    word: Seq<char>,
    after: Seq<TokenTree>,
    in_parens: Seq<P::Answers>,
    in_braces: Seq<B::Answers>,
) -> Result<(EnclosureView<P::V, B::V>, nat), Fault> {
    if after.len() > 0 && after[0].is_group(Delimiter::Parenthesis) {
        match list_grammar::<P>(after[0].stream(), in_parens) {
            Ok(read) => Ok((EnclosureView::Paren { fields: read.0 }, 1)),
            Err(f) => Err(f.inside(after[0].span(), 1)),
        }
    } else if after.len() > 0 && after[0].is_group(Delimiter::Brace) {
        match list_grammar::<B>(after[0].stream(), in_braces) {
            Ok(read) => Ok((EnclosureView::Brace { fields: read.0 }, 1)),
            Err(f) => Err(f.inside(after[0].span(), 1)),
        }
    } else {
        Err(
            Fault {
                kind: ErrorKind::AmbiguousBracket,
                at: front(after),
                message: expected_enclosure(word),
                read: 0,
            },
        )
    }
}

/// What the grammar `word(value)` or `word = value` makes of `tokens`.
pub open spec fn value_grammar<V: Parse>(
    word: Seq<char>,
    tokens: Seq<TokenTree>,
    answers: V::Answers,
) -> Result<(Keyed<V::V>, nat), Fault> {
    match keyword_grammar(word, tokens) {
        Err(f) => Err(f),
        Ok(k) => keyed(k.0, value_payload::<V>(word, tokens.skip(1), answers)),
    }
}

/// What the grammar `word(item, item, ...)` makes of `tokens`.
pub open spec fn keyword_list_grammar<I: Parse>(
    word: Seq<char>,
    tokens: Seq<TokenTree>,
    answers: Seq<I::Answers>,
) -> Result<(Keyed<Seq<I::V>>, nat), Fault> {
    match keyword_grammar(word, tokens) {
        Err(f) => Err(f),
        Ok(k) => keyed(k.0, list_payload::<I>(tokens.skip(1), after_keyword(word), answers)),
    }
}

/// What the grammar `word(item, ...)` or `word { item, ... }` makes of
/// `tokens`.
pub open spec fn enclosed_grammar<P: Parse, B: Parse>(
    word: Seq<char>,
    tokens: Seq<TokenTree>,
    in_parens: Seq<P::Answers>,
    in_braces: Seq<B::Answers>,
) -> Result<(Keyed<EnclosureView<P::V, B::V>>, nat), Fault> {
    match keyword_grammar(word, tokens) {
        Err(f) => Err(f),
        Ok(k) => keyed(k.0, enclosed_payload::<P, B>(word, tokens.skip(1), in_parens, in_braces)),
    }
}

/// The value grammar reads no more tokens than there are.
pub proof fn lemma_value_in_bounds<V: Parse>(
    word: Seq<char>,
    tokens: Seq<TokenTree>,
    answers: V::Answers,
)
    ensures
        match value_grammar::<V>(word, tokens, answers) {
            Ok(read) => read.1 <= tokens.len(),
            Err(fault) => fault.read <= tokens.len(),
        },
{
    let after = tokens.skip(1);
    if after.len() > 0 && after[0].is_punct('=') {
        V::grammar_in_bounds(after.skip(1), answers);
    }
}

/// Every node that a keyword leads can say where that keyword stands.
pub trait KeywordToken {
    /// The keyword that leads the node.
    spec fn keyword(&self) -> KeywordView;

    /// The span of the keyword, whatever follows it.
    fn keyword_span(&self) -> (s: Span)
        ensures
            s == self.keyword().span,
    ;
}

impl Keyword {
    /// Reads the keyword `word`: one identifier token of that name. Nothing
    /// is read where another token stands there.
    pub fn parse<'a>(cursor: &mut Cursor<'a>, word: &str) -> (r: Result<Keyword, ParseError>)
        ensures
            final(cursor).end() == old(cursor).end(),
            follows(
                keyword_grammar(word@, old(cursor).rest()),
                old(cursor).rest(),
                old(cursor).end(),
                outcome(r),
                final(cursor).rest(),
            ),
    {
        assert(cursor.rest().skip(0) =~= cursor.rest());
        if cursor.peek_word(word) {
            let span = cursor.span();
            cursor.advance(1);
            return Ok(Keyword { name: String::from_str(word), span });
        }
        let mut message = String::from_str("expected `");
        message.append(word);
        message.append("`");
        Err(ParseError::new(ErrorKind::KeywordMismatch, cursor.span(), message))
    }
}

impl MetaVoid {
    /// Reads the bare keyword `word`, which is exactly one token.
    pub fn parse<'a>(cursor: &mut Cursor<'a>, word: &str) -> (r: Result<MetaVoid, ParseError>)
        ensures
            final(cursor).end() == old(cursor).end(),
            follows(
                keyword_grammar(word@, old(cursor).rest()),
                old(cursor).rest(),
                old(cursor).end(),
                outcome(r),
                final(cursor).rest(),
            ),
    {
        match Keyword::parse(cursor, word) {
            Ok(ident) => Ok(MetaVoid { ident }),
            Err(e) => Err(e),
        }
    }

    /// Reads `tokens` as the bare keyword `word` and nothing else.
    pub fn parse_all(tokens: &[Token], end: Span, word: &str) -> (r: Result<MetaVoid, ParseError>)
        ensures
            outcome(r) == whole_outcome(
                whole(keyword_grammar(word@, stream_view(tokens@)), stream_view(tokens@)),
                end,
            ),
    {
        let mut cursor = Cursor::new(tokens, end);
        let r = MetaVoid::parse(&mut cursor, word);
        proof {
            if r is Ok && cursor.rest().len() > 0 {
                assert(cursor.rest()[0] == stream_view(tokens@)[1]);
            }
        }
        finish(&cursor, r)
    }
}

impl From<MetaVoid> for () {
    /// Gives the node up: a bare keyword carries nothing but its presence.
    fn from(node: MetaVoid) -> (unit: ()) {
    }
}

impl vstd::std_specs::convert::FromSpecImpl<MetaVoid> for () {
    open spec fn obeys_from_spec() -> bool {
        true
    }

    open spec fn from_spec(node: MetaVoid) -> () {
        ()
    }
}

impl KeywordToken for MetaVoid {
    open spec fn keyword(&self) -> KeywordView {
        self.ident@
    }

    fn keyword_span(&self) -> (s: Span) {
        self.ident.span
    }
}

impl<V: Parse> MetaValue<V> {
    /// Reads `word(value)` or `word = value`. Both spellings give the same
    /// node.
    pub fn parse<'a>(cursor: &mut Cursor<'a>, word: &str) -> (r: Result<Self, ParseError>)
        ensures
            final(cursor).end() == old(cursor).end(),
            exists|answers: V::Answers|
                follows(
                    #[trigger] value_grammar::<V>(word@, old(cursor).rest(), answers),
                    old(cursor).rest(),
                    old(cursor).end(),
                    outcome(r),
                    final(cursor).rest(),
                ),
    {
        let ghost all = cursor.rest();
        let ghost end = cursor.end();
        let ghost any: V::Answers = arbitrary();
        let ident = match Keyword::parse(cursor, word) {
            Ok(ident) => ident,
            Err(e) => {
                assert(follows(
                    value_grammar::<V>(word@, all, any),
                    all,
                    end,
                    outcome::<Self>(Err(e)),
                    cursor.rest(),
                ));
                return Err(e);
            },
        };
        let ghost after = cursor.rest();
        match cursor.open_group(Delimiter::Parenthesis) {
            Some(content) => {
                let mut content = content;
                let ghost inner = content.rest();
                let value = V::parse(&mut content);
                let ghost told = choose|a: V::Answers|
                    follows(
                        #[trigger] V::grammar(inner, a),
                        inner,
                        content.end(),
                        outcome(value),
                        content.rest(),
                    );
                proof {
                    V::grammar_in_bounds(inner, told);
                    assert(cursor.rest() =~= all.skip(2));
                }
                let r = match value {
                    Ok(value) => {
                        if content.is_empty() {
                            Ok(MetaValue { ident, value })
                        } else {
                            assert(content.rest()[0] == inner[(V::grammar(inner, told)->Ok_0).1 as int]);
                            Err(ParseError::unexpected(content.span()))
                        }
                    },
                    Err(e) => Err(e),
                };
                assert(follows(
                    value_grammar::<V>(word@, all, told),
                    all,
                    end,
                    outcome(r),
                    cursor.rest(),
                ));
                r
            },
            None => {
                if cursor.peek_punct('=') {
                    cursor.advance(1);
                    let ghost payload = cursor.rest();
                    let value = V::parse(cursor);
                    let ghost told = choose|a: V::Answers|
                        follows(
                            #[trigger] V::grammar(payload, a),
                            payload,
                            end,
                            outcome(value),
                            cursor.rest(),
                        );
                    proof {
                        V::grammar_in_bounds(payload, told);
                        assert(payload =~= after.skip(1));
                        match V::grammar(payload, told) {
                            Ok(read) => {
                                assert(cursor.rest() =~= all.skip(read.1 as int + 2));
                            },
                            Err(fault) => {
                                assert(cursor.rest() =~= all.skip(fault.read as int + 2));
                            },
                        }
                    }
                    let r = match value {
                        Ok(value) => Ok(MetaValue { ident, value }),
                        Err(e) => Err(e),
                    };
                    assert(follows(
                        value_grammar::<V>(word@, all, told),
                        all,
                        end,
                        outcome(r),
                        cursor.rest(),
                    ));
                    r
                } else {
                    let mut message = String::from_str("expected `(` or `=` after `");
                    message.append(word);
                    message.append("`");
                    let e = ParseError::new(ErrorKind::MissingPayload, cursor.span(), message);
                    assert(follows(
                        value_grammar::<V>(word@, all, any),
                        all,
                        end,
                        outcome::<Self>(Err(e)),
                        cursor.rest(),
                    ));
                    Err(e)
                }
            },
        }
    }

    /// Reads `tokens` as `word(value)` or `word = value` and nothing else.
    pub fn parse_all(tokens: &[Token], end: Span, word: &str) -> (r: Result<Self, ParseError>)
        ensures
            exists|answers: V::Answers|
                outcome(r) == whole_outcome(
                    whole(
                        #[trigger] value_grammar::<V>(word@, stream_view(tokens@), answers),
                        stream_view(tokens@),
                    ),
                    end,
                ),
    {
        let mut cursor = Cursor::new(tokens, end);
        let ghost all = cursor.rest();
        let r = Self::parse(&mut cursor, word);
        let ghost told = choose|a: V::Answers|
            follows(#[trigger] value_grammar::<V>(word@, all, a), all, end, outcome(r), cursor.rest());
        proof {
            lemma_value_in_bounds::<V>(word@, all, told);
            if r is Ok && cursor.rest().len() > 0 {
                assert(cursor.rest()[0] == all[(value_grammar::<V>(word@, all, told)->Ok_0).1 as int]);
            }
        }
        let r = finish(&cursor, r);
        assert(outcome(r) == whole_outcome(whole(value_grammar::<V>(word@, all, told), all), end));
        r
    }
}

impl<V: ToTokens> MetaValue<V> {
    /// Appends the tokens of the value to `out`. The keyword and what stood
    /// between it and the value are left out, so that the value can stand in
    /// generated code as it is.
    pub fn to_tokens(&self, out: &mut Vec<Token>)
        ensures
            stream_view(final(out)@) == stream_view(old(out)@) + self.value.emitted(),
    {
        self.value.to_tokens(out);
    }

    /// The tokens of the value alone, without the keyword.
    pub fn into_token_stream(self) -> (tokens: Vec<Token>)
        ensures
            stream_view(tokens@) == self.value.emitted(),
    {
        let mut tokens: Vec<Token> = Vec::new();
        proof {
            lemma_stream_view(tokens@);
        }
        assert(stream_view(tokens@) =~= Seq::<TokenTree>::empty());
        self.value.to_tokens(&mut tokens);
        assert(Seq::<TokenTree>::empty() + self.value.emitted() =~= self.value.emitted());
        tokens
    }
}

impl<V: ToTokens> From<MetaValue<V>> for Vec<Token> {
    /// The tokens of the value alone, without the keyword.
    fn from(node: MetaValue<V>) -> (tokens: Vec<Token>)
        ensures
            stream_view(tokens@) == node.value.emitted(),
    {
        node.into_token_stream()
    }
}

impl<V: ToTokens> vstd::std_specs::convert::FromSpecImpl<MetaValue<V>> for Vec<Token> {
    // No vector can be named in a specification, only its value: what `from`
    // returns is stated on `from` itself.
    open spec fn obeys_from_spec() -> bool {
        false
    }

    open spec fn from_spec(node: MetaValue<V>) -> Vec<Token> {
        arbitrary()
    }
}

impl<V> KeywordToken for MetaValue<V> {
    open spec fn keyword(&self) -> KeywordView {
        self.ident@
    }

    fn keyword_span(&self) -> (s: Span) {
        self.ident.span
    }
}

/// The error for a cursor at whose front a parenthesised list should stand
/// and does not.
fn list_error<'a>(cursor: &Cursor<'a>, context: &str) -> (e: ParseError)
    ensures
        e@ == (Failure {
            kind: list_fault(cursor.rest()),
            span: crate::cursor::front_span(cursor.rest(), cursor.end()),
            message: expected_parens(context@),
        }),
{
    let wrong = match cursor.peek() {
        Some(Token::Punct { ch, .. }) => *ch == '=',
        Some(Token::Group { .. }) => true,
        _ => false,
    };
    let mut message = String::from_str("expected parentheses");
    message.append(context);
    if wrong {
        ParseError::new(ErrorKind::WrongDelimiter, cursor.span(), message)
    } else {
        ParseError::new(ErrorKind::MissingPayload, cursor.span(), message)
    }
}

/// Reads a parenthesised list from the front of `cursor`, as `list_payload`
/// states it.
fn parse_parens<'a, I: Parse>(cursor: &mut Cursor<'a>, context: &str) -> (r: Result<
    Vec<I>,
    ParseError,
>)
    ensures
        final(cursor).end() == old(cursor).end(),
        exists|answers: Seq<I::Answers>|
            follows(
                #[trigger] list_payload::<I>(old(cursor).rest(), context@, answers),
                old(cursor).rest(),
                old(cursor).end(),
                list_outcome(r),
                final(cursor).rest(),
            ),
{
    let ghost after = cursor.rest();
    let ghost end = cursor.end();
    assert(after.skip(0) =~= after);
    match cursor.open_group(Delimiter::Parenthesis) {
        Some(content) => {
            let mut content = content;
            let ghost inner = content.rest();
            let r = parse_terminated::<I>(&mut content);
            let ghost told = choose|a: Seq<I::Answers>|
                follows(
                    #[trigger] list_grammar::<I>(inner, a),
                    inner,
                    content.end(),
                    list_outcome(r),
                    content.rest(),
                );
            assert(follows(
                list_payload::<I>(after, context@, told),
                after,
                end,
                list_outcome(r),
                cursor.rest(),
            ));
            r
        },
        None => {
            let e = list_error(cursor, context);
            assert(follows(
                list_payload::<I>(after, context@, Seq::empty()),
                after,
                end,
                list_outcome::<I>(Err(e)),
                cursor.rest(),
            ));
            Err(e)
        },
    }
}

impl<I: Parse> MetaList<I> {
    /// Reads `word(item, item, ...)`: the list may be empty, and a comma may
    /// follow its last item.
    pub fn parse<'a>(cursor: &mut Cursor<'a>, word: &str) -> (r: Result<Self, ParseError>)
        ensures
            final(cursor).end() == old(cursor).end(),
            exists|answers: Seq<I::Answers>|
                follows(
                    #[trigger] keyword_list_grammar::<I>(word@, old(cursor).rest(), answers),
                    old(cursor).rest(),
                    old(cursor).end(),
                    outcome(r),
                    final(cursor).rest(),
                ),
    {
        let ghost all = cursor.rest();
        let ghost end = cursor.end();
        let ident = match Keyword::parse(cursor, word) {
            Ok(ident) => ident,
            Err(e) => {
                assert(follows(
                    keyword_list_grammar::<I>(word@, all, Seq::empty()),
                    all,
                    end,
                    outcome::<Self>(Err(e)),
                    cursor.rest(),
                ));
                return Err(e);
            },
        };
        let ghost after = cursor.rest();
        let mut context = String::from_str(" after `");
        context.append(word);
        context.append("`");
        let fields = parse_parens::<I>(cursor, context.as_str());
        let ghost told = choose|a: Seq<I::Answers>|
            follows(
                #[trigger] list_payload::<I>(after, context@, a),
                after,
                end,
                list_outcome(fields),
                cursor.rest(),
            );
        proof {
            match list_payload::<I>(after, context@, told) {
                Ok(read) => {
                    assert(cursor.rest() =~= all.skip(read.1 as int + 1));
                },
                Err(fault) => {
                    assert(cursor.rest() =~= all.skip(fault.read as int + 1));
                },
            }
        }
        let r = match fields {
            Ok(fields) => Ok(MetaList { ident, fields }),
            Err(e) => Err(e),
        };
        assert(follows(keyword_list_grammar::<I>(word@, all, told), all, end, outcome(r), cursor.rest()));
        r
    }

    /// Reads `tokens` as `word(item, item, ...)` and nothing else.
    pub fn parse_all(tokens: &[Token], end: Span, word: &str) -> (r: Result<Self, ParseError>)
        ensures
            exists|answers: Seq<I::Answers>|
                outcome(r) == whole_outcome(
                    whole(
                        #[trigger] keyword_list_grammar::<I>(word@, stream_view(tokens@), answers),
                        stream_view(tokens@),
                    ),
                    end,
                ),
    {
        let mut cursor = Cursor::new(tokens, end);
        let ghost all = cursor.rest();
        let r = Self::parse(&mut cursor, word);
        let ghost told = choose|a: Seq<I::Answers>|
            follows(
                #[trigger] keyword_list_grammar::<I>(word@, all, a),
                all,
                end,
                outcome(r),
                cursor.rest(),
            );
        proof {
            if r is Ok && cursor.rest().len() > 0 {
                assert(cursor.rest()[0] == all[2]);
            }
        }
        let r = finish(&cursor, r);
        assert(outcome(r) == whole_outcome(
            whole(keyword_list_grammar::<I>(word@, all, told), all),
            end,
        ));
        r
    }
}

impl<I> KeywordToken for MetaList<I> {
    open spec fn keyword(&self) -> KeywordView {
        self.ident@
    }

    fn keyword_span(&self) -> (s: Span) {
        self.ident.span
    }
}

impl<P: Parse, B: Parse> MetaEnclosedList<P, B> {
    /// Reads `word(item, ...)` or `word { item, ... }`. The token behind the
    /// keyword decides which, and nothing is read again: a list in
    /// parentheses holds items of `P`, one in braces items of `B`. Where
    /// neither bracket kind follows, the cursor stays behind the keyword.
    pub fn parse<'a>(cursor: &mut Cursor<'a>, word: &str) -> (r: Result<Self, ParseError>)
        ensures
            final(cursor).end() == old(cursor).end(),
            exists|in_parens: Seq<P::Answers>, in_braces: Seq<B::Answers>|
                follows(
                    #[trigger] enclosed_grammar::<P, B>(
                        word@,
                        old(cursor).rest(),
                        in_parens,
                        in_braces,
                    ),
                    old(cursor).rest(),
                    old(cursor).end(),
                    outcome(r),
                    final(cursor).rest(),
                ),
    {
        let ghost all = cursor.rest();
        let ghost end = cursor.end();
        let ghost no_p = Seq::<P::Answers>::empty();
        let ghost no_b = Seq::<B::Answers>::empty();
        let ident = match Keyword::parse(cursor, word) {
            Ok(ident) => ident,
            Err(e) => {
                assert(follows(
                    enclosed_grammar::<P, B>(word@, all, no_p, no_b),
                    all,
                    end,
                    outcome::<Self>(Err(e)),
                    cursor.rest(),
                ));
                return Err(e);
            },
        };
        let ghost after = cursor.rest();
        match cursor.open_group(Delimiter::Parenthesis) {
            Some(content) => {
                let mut content = content;
                let ghost inner = content.rest();
                let fields = parse_terminated::<P>(&mut content);
                let ghost told = choose|a: Seq<P::Answers>|
                    follows(
                        #[trigger] list_grammar::<P>(inner, a),
                        inner,
                        content.end(),
                        list_outcome(fields),
                        content.rest(),
                    );
                assert(cursor.rest() =~= all.skip(2));
                let r = match fields {
                    Ok(fields) => Ok(MetaEnclosedList { ident, list: Enclosure::Paren { fields } }),
                    Err(e) => Err(e),
                };
                assert(follows(
                    enclosed_grammar::<P, B>(word@, all, told, no_b),
                    all,
                    end,
                    outcome(r),
                    cursor.rest(),
                ));
                r
            },
            None => match cursor.open_group(Delimiter::Brace) {
                Some(content) => {
                    let mut content = content;
                    let ghost inner = content.rest();
                    let fields = parse_terminated::<B>(&mut content);
                    let ghost told = choose|a: Seq<B::Answers>|
                        follows(
                            #[trigger] list_grammar::<B>(inner, a),
                            inner,
                            content.end(),
                            list_outcome(fields),
                            content.rest(),
                        );
                    assert(cursor.rest() =~= all.skip(2));
                    let r = match fields {
                        Ok(fields) => Ok(
                            MetaEnclosedList { ident, list: Enclosure::Brace { fields } },
                        ),
                        Err(e) => Err(e),
                    };
                    assert(follows(
                        enclosed_grammar::<P, B>(word@, all, no_p, told),
                        all,
                        end,
                        outcome(r),
                        cursor.rest(),
                    ));
                    r
                },
                None => {
                    let mut message = String::from_str(
                        "expected parentheses or curly braces after `",
                    );
                    message.append(word);
                    message.append("`");
                    let e = ParseError::new(ErrorKind::AmbiguousBracket, cursor.span(), message);
                    assert(follows(
                        enclosed_grammar::<P, B>(word@, all, no_p, no_b),
                        all,
                        end,
                        outcome::<Self>(Err(e)),
                        cursor.rest(),
                    ));
                    Err(e)
                },
            },
        }
    }

    /// Reads `tokens` as `word(item, ...)` or `word { item, ... }` and
    /// nothing else.
    pub fn parse_all(tokens: &[Token], end: Span, word: &str) -> (r: Result<Self, ParseError>)
        ensures
            exists|in_parens: Seq<P::Answers>, in_braces: Seq<B::Answers>|
                outcome(r) == whole_outcome(
                    whole(
                        #[trigger] enclosed_grammar::<P, B>(
                            word@,
                            stream_view(tokens@),
                            in_parens,
                            in_braces,
                        ),
                        stream_view(tokens@),
                    ),
                    end,
                ),
    {
        let mut cursor = Cursor::new(tokens, end);
        let ghost all = cursor.rest();
        let r = Self::parse(&mut cursor, word);
        let ghost told = choose|in_parens: Seq<P::Answers>, in_braces: Seq<B::Answers>|
            follows(
                #[trigger] enclosed_grammar::<P, B>(word@, all, in_parens, in_braces),
                all,
                end,
                outcome(r),
                cursor.rest(),
            );
        proof {
            if r is Ok && cursor.rest().len() > 0 {
                assert(cursor.rest()[0] == all[2]);
            }
        }
        let r = finish(&cursor, r);
        assert(outcome(r) == whole_outcome(
            whole(enclosed_grammar::<P, B>(word@, all, told.0, told.1), all),
            end,
        ));
        r
    }
}

impl<P, B> KeywordToken for MetaEnclosedList<P, B> {
    open spec fn keyword(&self) -> KeywordView {
        self.ident@
    }

    fn keyword_span(&self) -> (s: Span) {
        self.ident.span
    }
}

impl<I: Parse> Parse for MetaAttrList<I> {
    type Answers = Seq<I::Answers>;

    open spec fn grammar(tokens: Seq<TokenTree>, answers: Seq<I::Answers>) -> Result<
        (Seq<I::V>, nat),
        Fault,
    > {
        list_payload::<I>(tokens, Seq::empty(), answers)
    }

    proof fn grammar_in_bounds(tokens: Seq<TokenTree>, answers: Seq<I::Answers>) {
    }

    /// Reads `(item, item, ...)`.
    fn parse<'a>(cursor: &mut Cursor<'a>) -> (r: Result<Self, ParseError>) {
        proof {
            reveal_strlit("");
            assert(""@ =~= Seq::<char>::empty());
        }
        let fields = parse_parens::<I>(cursor, "");
        let ghost told = choose|a: Seq<I::Answers>|
            follows(
                #[trigger] list_payload::<I>(old(cursor).rest(), ""@, a),
                old(cursor).rest(),
                old(cursor).end(),
                list_outcome(fields),
                cursor.rest(),
            );
        let r = match fields {
            Ok(fields) => Ok(MetaAttrList(fields)),
            Err(e) => Err(e),
        };
        assert(follows(
            Self::grammar(old(cursor).rest(), told),
            old(cursor).rest(),
            old(cursor).end(),
            outcome(r),
            cursor.rest(),
        ));
        r
    }
}

impl<I> MetaAttrList<I> {
    /// An iterator over the items, in the order in which they were read.
    pub fn into_iter(self) -> (items: std::vec::IntoIter<I>)
        ensures
            items == vstd::std_specs::vec::spec_into_iter(self.0),
            vstd::std_specs::iter::IteratorSpec::remaining(&items) == self.0@,
    {
        broadcast use vstd::std_specs::vec::axiom_spec_into_iter;

        self.0.into_iter()
    }
}

} // verus!
