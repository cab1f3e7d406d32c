//! What holds of the grammars, whatever the payload grammars are and
//! whatever they are told from outside.

use vstd::prelude::*;
use crate::error::{ErrorKind, Fault};
use crate::field::{defaulted_name_grammar, typed_name_grammar, IdentTypeMaybeDefaultView};
use crate::meta::{
    after_keyword, enclosed_grammar, expected_enclosure, expected_parens, keyword_list_grammar,
    value_grammar, EnclosureView, Keyed, KeywordToken, KeywordView, MetaAttrList,
    MetaEnclosedList, MetaList, MetaValue,
};
use crate::parse::{list_grammar, Parse, ToTokens};
use crate::payload::{delegated, shown, Delegated, Expr};
use crate::token::{render, well_formed_upto, Delimiter, Span, TokenTree};

verus! {

/// The position that a value node reports for its keyword is that of the
/// first token read, whether the value stood in parentheses or behind `=`.
pub proof fn law_value_keyword_position<V: Parse>(
    node: MetaValue<V>,
    word: Seq<char>,
    tokens: Seq<TokenTree>,
    answers: V::Answers,
)
    requires
        value_grammar::<V>(word, tokens, answers) matches Ok(read) && node@ == read.0,
    ensures
        tokens.len() > 0,
        tokens[0].is_word(word),
        node.keyword().span == tokens[0].span(),
{
}

/// The position that a list node reports for its keyword is that of the
/// first token read.
pub proof fn law_list_keyword_position<I: Parse>(
    node: MetaList<I>,
    word: Seq<char>,
    tokens: Seq<TokenTree>,
    answers: Seq<I::Answers>,
)
    requires
        keyword_list_grammar::<I>(word, tokens, answers) matches Ok(read) && node@ == read.0,
    ensures
        tokens.len() > 0,
        tokens[0].is_word(word),
        node.keyword().span == tokens[0].span(),
{
}

/// The position that an enclosed-list node reports for its keyword is that
/// of the first token read, whichever bracket kind followed.
pub proof fn law_enclosed_keyword_position<P: Parse, B: Parse>(
    node: MetaEnclosedList<P, B>,
    word: Seq<char>,
    tokens: Seq<TokenTree>,
    in_parens: Seq<P::Answers>,
    in_braces: Seq<B::Answers>,
)
    requires
        enclosed_grammar::<P, B>(word, tokens, in_parens, in_braces) matches Ok(read) && node@
            == read.0,
    ensures
        tokens.len() > 0,
        tokens[0].is_word(word),
        node.keyword().span == tokens[0].span(),
{
}

/// `word(payload)` and `word = payload` read as the same node: where the
/// value grammar reads all of `payload`, both spellings are accepted, with
/// the same keyword and the same value.
pub proof fn law_syntax_equivalence<V: Parse>(
    word: Seq<char>,
    keyword: TokenTree,
    group: TokenTree,
    assign: TokenTree,
    payload: Seq<TokenTree>,
    answers: V::Answers,
)
    requires
        keyword.is_word(word),
        group.is_group(Delimiter::Parenthesis),
        group.stream() == payload,
        assign.is_punct('='),
        V::grammar(payload, answers) matches Ok(read) && read.1 == payload.len(),
    ensures
        value_grammar::<V>(word, seq![keyword, group], answers) matches Ok(in_parens)
            && value_grammar::<V>(word, seq![keyword, assign] + payload, answers) matches Ok(
            assigned,
        ) && in_parens.0 == assigned.0 && in_parens.0.ident == (KeywordView {
            name: word,
            span: keyword.span(),
        }),
{
    let a = seq![keyword, group];
    let b = seq![keyword, assign] + payload;
    assert(a.skip(1)[0] == group);
    assert(b.skip(1)[0] == assign);
    assert(b.skip(1).skip(1) =~= payload);
}

/// The token without its position, and without those of the tokens inside
/// it.
pub open spec fn unspanned(t: TokenTree) -> TokenTree
    decreases t,
{
    let nowhere = Span { lo: 0, hi: 0 };
    match t {
        TokenTree::Ident { name, .. } => TokenTree::Ident { name, span: nowhere },
        TokenTree::Punct { ch, joint, .. } => TokenTree::Punct { ch, joint, span: nowhere },
        TokenTree::Literal { text, .. } => TokenTree::Literal { text, span: nowhere },
        TokenTree::Group { delimiter, stream, .. } => TokenTree::Group {
            delimiter,
            stream: unspanned_upto(stream, stream.len()),
            span: nowhere,
        },
    }
}

/// The first `n` of `tokens` without their positions.
pub open spec fn unspanned_upto(tokens: Seq<TokenTree>, n: nat) -> Seq<TokenTree>
    decreases tokens, n,
{
    if n == 0 || n > tokens.len() {
        Seq::empty()
    } else {
        unspanned_upto(tokens, (n - 1) as nat).push(unspanned(tokens[n - 1]))
    }
}

/// The tokens without their positions.
pub open spec fn unspanned_stream(tokens: Seq<TokenTree>) -> Seq<TokenTree> {
    unspanned_upto(tokens, tokens.len())
}

/// Taking positions away keeps each token at its place.
pub proof fn lemma_unspanned(tokens: Seq<TokenTree>, n: nat)
    requires
        n <= tokens.len(),
    ensures
        unspanned_upto(tokens, n).len() == n,
        forall|i: int| 0 <= i < n ==> (#[trigger] unspanned_upto(tokens, n)[i]) == unspanned(tokens[i]),
    decreases n,
{
    if n > 0 {
        lemma_unspanned(tokens, (n - 1) as nat);
        assert(unspanned_upto(tokens, n) == unspanned_upto(tokens, (n - 1) as nat).push(
            unspanned(tokens[n - 1]),
        ));
    } else {
        assert(unspanned_upto(tokens, n) == Seq::<TokenTree>::empty());
    }
}

/// Whether a token is well formed does not depend on where it stands.
pub proof fn lemma_well_formed_anywhere(t: TokenTree)
    ensures
        unspanned(t).well_formed() == t.well_formed(),
    decreases t,
{
    match t {
        TokenTree::Group { stream, .. } => {
            lemma_unspanned(stream, stream.len());
            lemma_all_well_formed_anywhere(stream, stream.len());
        },
        _ => {},
    }
}

/// Whether tokens are well formed does not depend on where they stand.
pub proof fn lemma_all_well_formed_anywhere(tokens: Seq<TokenTree>, n: nat)
    requires
        n <= tokens.len(),
    ensures
        well_formed_upto(unspanned_stream(tokens), n) == well_formed_upto(tokens, n),
    decreases tokens, n,
{
    lemma_unspanned(tokens, tokens.len());
    if n > 0 {
        lemma_all_well_formed_anywhere(tokens, (n - 1) as nat);
        lemma_well_formed_anywhere(tokens[n - 1]);
        assert(unspanned_stream(tokens)[n - 1] == unspanned(tokens[n - 1]));
    }
}

/// A value reads the same wherever it stands: of two token sequences that
/// differ in positions only, a delegated grammar that is told the same makes
/// the same, but for positions.
pub proof fn law_position_is_not_read(
    here: Seq<TokenTree>,
    there: Seq<TokenTree>,
    reading: Result<(usize, usize), Seq<char>>,
)
    requires
        unspanned_stream(here) == unspanned_stream(there),
    ensures
        match delegated(here, reading) {
            Ok(read) => delegated(there, reading) matches Ok(other) && other.1 == read.1
                && unspanned_stream(other.0) == unspanned_stream(read.0),
            Err(fault) => delegated(there, reading) matches Err(other) && other.kind == fault.kind
                && other.message == fault.message && other.read == fault.read,
        },
{
    lemma_unspanned(here, here.len());
    lemma_unspanned(there, there.len());
    assert(here.len() == there.len());
    if here.len() > 0 {
        let last = here.len() - 1;
        assert(unspanned_stream(here)[last] == unspanned(here[last]));
        assert(unspanned_stream(there)[last] == unspanned(there[last]));
        assert(here.last().is_punct(',') == there.last().is_punct(','));
    }
    let seen = shown(here);
    let seen_there = shown(there);
    lemma_unspanned(seen, seen.len());
    lemma_unspanned(seen_there, seen_there.len());
    assert forall|i: int| 0 <= i < seen.len() implies unspanned_stream(seen)[i] == unspanned_stream(
        seen_there,
    )[i] by {
        assert(unspanned_stream(here)[i] == unspanned(here[i]));
        assert(unspanned_stream(there)[i] == unspanned(there[i]));
    }
    assert(unspanned_stream(seen) =~= unspanned_stream(seen_there));
    lemma_all_well_formed_anywhere(seen, seen.len());
    lemma_all_well_formed_anywhere(seen_there, seen_there.len());
    match delegated(here, reading) {
        Ok(read) => {
            let n = read.1;
            lemma_unspanned(here.take(n as int), n);
            lemma_unspanned(there.take(n as int), n);
            assert forall|i: int| 0 <= i < n implies unspanned_stream(there.take(n as int))[i]
                == unspanned_stream(here.take(n as int))[i] by {
                assert(unspanned_stream(here)[i] == unspanned(here[i]));
                assert(unspanned_stream(there)[i] == unspanned(there[i]));
            }
            assert(unspanned_stream(there.take(n as int)) =~= unspanned_stream(here.take(n as int)));
        },
        Err(_) => {},
    }
}

/// `word(value)` and `word = value` read as the same node but for positions,
/// wherever the two stand in the source, for every grammar that is left to
/// the outside: the names of the keywords are equal, and so are the values
/// once positions are taken away.
pub proof fn law_syntax_equivalence_modulo_span<V: Delegated>(
    word: Seq<char>,
    keyword: TokenTree,
    group: TokenTree,
    other_keyword: TokenTree,
    assign: TokenTree,
    payload: Seq<TokenTree>,
    reading: Result<(usize, usize), Seq<char>>,
)
    requires
        keyword.is_word(word),
        other_keyword.is_word(word),
        group.is_group(Delimiter::Parenthesis),
        assign.is_punct('='),
        unspanned_stream(group.stream()) == unspanned_stream(payload),
        V::grammar(payload, reading) matches Ok(read) && read.1 == payload.len(),
    ensures
        value_grammar::<V>(word, seq![keyword, group], reading) matches Ok(in_parens)
            && value_grammar::<V>(
            word,
            seq![other_keyword, assign] + payload,
            reading,
        ) matches Ok(assigned) && in_parens.0.ident.name == assigned.0.ident.name
            && unspanned_stream(in_parens.0.payload) == unspanned_stream(assigned.0.payload),
{
    V::grammar_is_delegated(payload, reading);
    V::grammar_is_delegated(group.stream(), reading);
    let a = seq![keyword, group];
    let b = seq![other_keyword, assign] + payload;
    assert(a.skip(1)[0] == group);
    assert(b.skip(1)[0] == assign);
    assert(b.skip(1).skip(1) =~= payload);
    lemma_unspanned(group.stream(), group.stream().len());
    lemma_unspanned(payload, payload.len());
    law_position_is_not_read(payload, group.stream(), reading);
}

/// The tokens that a value grammar reads as the value, behind the keyword:
/// all that the parentheses hold, or what the value's grammar reads behind
/// `=`.
pub open spec fn value_tokens<V: Parse>(after: Seq<TokenTree>, answers: V::Answers) -> Seq<
    TokenTree,
> {
    if after.len() > 0 && after[0].is_group(Delimiter::Parenthesis) {
        after[0].stream()
    } else {
        match V::grammar(after.skip(1), answers) {
            Ok(read) => after.skip(1).take(read.1 as int),
            Err(_) => Seq::empty(),
        }
    }
}

/// A value node gives back exactly the tokens that were read as its value,
/// not the keyword, nor the parentheses or the `=`; so what it gives back
/// prints as those tokens do.
pub proof fn law_reemission<V: ToTokens>(
    node: MetaValue<V>,
    word: Seq<char>,
    tokens: Seq<TokenTree>,
    answers: V::Answers,
)
    requires
        value_grammar::<V>(word, tokens, answers) matches Ok(read) && node@ == read.0,
    ensures
        node.value.emitted() == value_tokens::<V>(tokens.skip(1), answers),
        render(node.value.emitted()) == render(value_tokens::<V>(tokens.skip(1), answers)),
{
    let after = tokens.skip(1);
    if after.len() > 0 && after[0].is_group(Delimiter::Parenthesis) {
        let inner = after[0].stream();
        V::grammar_in_bounds(inner, answers);
        node.value.emits_what_was_read(inner, answers);
        assert(inner.take(inner.len() as int) =~= inner);
    } else {
        node.value.emits_what_was_read(after.skip(1), answers);
    }
}

/// `word()` is a list of no items, whatever the item grammar.
pub proof fn law_empty_list<I: Parse>(
    word: Seq<char>,
    keyword: TokenTree,
    group: TokenTree,
    answers: Seq<I::Answers>,
)
    requires
        keyword.is_word(word),
        group.is_group(Delimiter::Parenthesis),
        group.stream().len() == 0,
    ensures
        keyword_list_grammar::<I>(word, seq![keyword, group], answers) == Ok::<
            (Keyed<Seq<I::V>>, nat),
            Fault,
        >(
            (
                Keyed {
                    ident: KeywordView { name: word, span: keyword.span() },
                    payload: Seq::empty(),
                },
                2,
            ),
        ),
{
    assert(seq![keyword, group].skip(1)[0] == group);
}

/// `word()` and `word {}` are enclosed lists of no items, each of its own
/// bracket kind.
pub proof fn law_empty_enclosed_list<P: Parse, B: Parse>(
    word: Seq<char>,
    keyword: TokenTree,
    group: TokenTree,
    in_parens: Seq<P::Answers>,
    in_braces: Seq<B::Answers>,
)
    requires
        keyword.is_word(word),
        group.is_group(Delimiter::Parenthesis) || group.is_group(Delimiter::Brace),
        group.stream().len() == 0,
    ensures
        enclosed_grammar::<P, B>(word, seq![keyword, group], in_parens, in_braces) == Ok::<
            (Keyed<EnclosureView<P::V, B::V>>, nat),
            Fault,
        >(
            (
                Keyed {
                    ident: KeywordView { name: word, span: keyword.span() },
                    payload: if group.is_group(Delimiter::Parenthesis) {
                        EnclosureView::Paren { fields: Seq::empty() }
                    } else {
                        EnclosureView::Brace { fields: Seq::empty() }
                    },
                },
                2,
            ),
        ),
{
    assert(seq![keyword, group].skip(1)[0] == group);
}

/// `()` is a plain attribute list of no items.
pub proof fn law_empty_attr_list<I: Parse>(group: TokenTree, answers: Seq<I::Answers>)
    requires
        group.is_group(Delimiter::Parenthesis),
        group.stream().len() == 0,
    ensures
        MetaAttrList::<I>::grammar(seq![group], answers) == Ok::<(Seq<I::V>, nat), Fault>(
            (Seq::empty(), 1),
        ),
{
}

/// The bracket kind behind the keyword alone decides how an enclosed list is
/// read: parentheses give the first variant with the items of the first
/// grammar, braces the second variant with the items of the second, and any
/// other group is rejected as neither, with the cursor behind the keyword.
pub proof fn law_bracket_disambiguation<P: Parse, B: Parse>(
    word: Seq<char>,
    keyword: TokenTree,
    group: TokenTree,
    in_parens: Seq<P::Answers>,
    in_braces: Seq<B::Answers>,
)
    requires
        keyword.is_word(word),
        group is Group,
    ensures
        ({
            let ident = KeywordView { name: word, span: keyword.span() };
            let stated = enclosed_grammar::<P, B>(word, seq![keyword, group], in_parens, in_braces);
            &&& group.is_group(Delimiter::Parenthesis) ==> match list_grammar::<P>(
                group.stream(),
                in_parens,
            ) {
                Ok(read) => stated == Ok::<(Keyed<EnclosureView<P::V, B::V>>, nat), Fault>(
                    (Keyed { ident, payload: EnclosureView::Paren { fields: read.0 } }, 2),
                ),
                Err(fault) => stated == Err::<(Keyed<EnclosureView<P::V, B::V>>, nat), Fault>(
                    fault.inside(group.span(), 2),
                ),
            }
            &&& group.is_group(Delimiter::Brace) ==> match list_grammar::<B>(
                group.stream(),
                in_braces,
            ) {
                Ok(read) => stated == Ok::<(Keyed<EnclosureView<P::V, B::V>>, nat), Fault>(
                    (Keyed { ident, payload: EnclosureView::Brace { fields: read.0 } }, 2),
                ),
                Err(fault) => stated == Err::<(Keyed<EnclosureView<P::V, B::V>>, nat), Fault>(
                    fault.inside(group.span(), 2),
                ),
            }
            &&& !group.is_group(Delimiter::Parenthesis) && !group.is_group(Delimiter::Brace)
                ==> stated == Err::<(Keyed<EnclosureView<P::V, B::V>>, nat), Fault>(
                Fault {
                    kind: ErrorKind::AmbiguousBracket,
                    at: Some(group.span()),
                    message: expected_enclosure(word),
                    read: 1,
                },
            )
        }),
{
    assert(seq![keyword, group].skip(1)[0] == group);
}

/// A list grammar does not take `=` for its parentheses: `word = ...` is
/// rejected with the wrong delimiter, at the `=`, whatever follows it, and
/// the `=` is not read.
pub proof fn law_list_rejects_assignment<I: Parse>(
    word: Seq<char>,
    keyword: TokenTree,
    assign: TokenTree,
    rest: Seq<TokenTree>,
    answers: Seq<I::Answers>,
)
    requires
        keyword.is_word(word),
        assign.is_punct('='),
    ensures
        keyword_list_grammar::<I>(word, seq![keyword, assign] + rest, answers) == Err::<
            (Keyed<Seq<I::V>>, nat),
            Fault,
        >(
            Fault {
                kind: ErrorKind::WrongDelimiter,
                at: Some(assign.span()),
                message: expected_parens(after_keyword(word)),
                read: 1,
            },
        ),
{
    assert((seq![keyword, assign] + rest).skip(1)[0] == assign);
}

/// Whether a value grammar takes `word(...)` is for the value's own grammar
/// to say: the node is accepted exactly where that grammar reads all that
/// the parentheses hold.
pub proof fn law_value_in_parens<V: Parse>(
    word: Seq<char>,
    keyword: TokenTree,
    group: TokenTree,
    answers: V::Answers,
)
    requires
        keyword.is_word(word),
        group.is_group(Delimiter::Parenthesis),
    ensures
        value_grammar::<V>(word, seq![keyword, group], answers) is Ok <==> (V::grammar(
            group.stream(),
            answers,
        ) matches Ok(read) && read.1 == group.stream().len()),
        V::grammar(group.stream(), answers) matches Err(fault) ==> value_grammar::<V>(
            word,
            seq![keyword, group],
            answers,
        ) == Err::<(Keyed<V::V>, nat), Fault>(fault.inside(group.span(), 2)),
{
    assert(seq![keyword, group].skip(1)[0] == group);
    V::grammar_in_bounds(group.stream(), answers);
}

/// A list is read to its end: where the list grammar accepts, it has read
/// every token, and where it does not, no more than there are.
pub proof fn law_list_reads_everything<I: Parse>(tokens: Seq<TokenTree>, answers: Seq<I::Answers>)
    ensures
        match list_grammar::<I>(tokens, answers) {
            Ok(read) => read.1 == tokens.len(),
            Err(fault) => fault.read <= tokens.len(),
        },
    decreases tokens.len(),
{
    if tokens.len() > 0 {
        I::grammar_in_bounds(tokens, answers[0]);
        match I::grammar(tokens, answers[0]) {
            Ok(read) => {
                if read.1 < tokens.len() && tokens[read.1 as int].is_punct(',') {
                    law_list_reads_everything::<I>(tokens.skip(read.1 as int + 1), answers.skip(1));
                }
            },
            Err(_) => {},
        }
    }
}

/// Whether the list grammar reads a comma as the last token of `tokens`,
/// behind the last item.
pub open spec fn ends_in_comma<I: Parse>(tokens: Seq<TokenTree>, answers: Seq<I::Answers>) -> bool
    decreases tokens.len(),
{
    if tokens.len() == 0 {
        false
    } else {
        match I::grammar(tokens, answers[0]) {
            Err(_) => false,
            Ok(read) => if read.1 >= tokens.len() || !tokens[read.1 as int].is_punct(',') {
                false
            } else if read.1 + 1 == tokens.len() {
                true
            } else {
                ends_in_comma::<I>(tokens.skip(read.1 as int + 1), answers.skip(1))
            },
        }
    }
}

/// Whether each item of the list in `tokens` reads the same when `extra`
/// follows the last token: `answers` is what the items are told without it,
/// `longer` what they are told with it.
pub open spec fn items_unmoved<I: Parse>(
    tokens: Seq<TokenTree>,
    answers: Seq<I::Answers>,
    extra: TokenTree,
    longer: Seq<I::Answers>,
) -> bool
    decreases tokens.len(),
{
    if tokens.len() == 0 {
        true
    } else {
        &&& I::grammar(tokens.push(extra), longer[0]) == I::grammar(tokens, answers[0])
        &&& match I::grammar(tokens, answers[0]) {
            Err(_) => true,
            Ok(read) => read.1 < tokens.len() && tokens[read.1 as int].is_punct(',')
                ==> items_unmoved::<I>(
                tokens.skip(read.1 as int + 1),
                answers.skip(1),
                extra,
                longer.skip(1),
            ),
        }
    }
}

/// A comma behind the last item changes nothing: a list that is accepted
/// without one holds the same items with one, as long as no item reads
/// differently for the comma that follows.
pub proof fn law_trailing_comma<I: Parse>(
    tokens: Seq<TokenTree>,
    answers: Seq<I::Answers>,
    comma: TokenTree,
    longer: Seq<I::Answers>,
)
    requires
        comma.is_punct(','),
        tokens.len() > 0,
        list_grammar::<I>(tokens, answers) is Ok,
        !ends_in_comma::<I>(tokens, answers),
        items_unmoved::<I>(tokens, answers, comma, longer),
    ensures
        list_grammar::<I>(tokens, answers) matches Ok(without) && list_grammar::<I>(
            tokens.push(comma),
            longer,
        ) matches Ok(with) && with.0 == without.0 && with.1 == without.1 + 1,
    decreases tokens.len(),
{
    let extended = tokens.push(comma);
    let read = I::grammar(tokens, answers[0])->Ok_0;
    I::grammar_in_bounds(tokens, answers[0]);
    assert(I::grammar(extended, longer[0]) == I::grammar(tokens, answers[0]));
    if read.1 >= tokens.len() {
        let behind = extended.skip(read.1 as int + 1);
        assert(extended[read.1 as int] == comma);
        assert(behind.len() == 0);
        assert(list_grammar::<I>(behind, longer.skip(1)) == Ok::<(Seq<I::V>, nat), Fault>(
            (Seq::empty(), 0),
        ));
        assert(seq![read.0] + Seq::<I::V>::empty() =~= seq![read.0]);
    } else {
        let rest = tokens.skip(read.1 as int + 1);
        assert(extended[read.1 as int] == tokens[read.1 as int]);
        assert(tokens[read.1 as int].is_punct(','));
        assert(extended.skip(read.1 as int + 1) =~= rest.push(comma));
        assert(rest.len() > 0);
        assert(list_grammar::<I>(rest, answers.skip(1)) is Ok);
        law_trailing_comma::<I>(rest, answers.skip(1), comma, longer.skip(1));
    }
}

/// A comma that ends the input is not shown to a grammar that is left to
/// the outside: no item of such a grammar reads differently for it, whatever
/// it is told.
pub proof fn law_values_unmoved<V: Delegated>(
    tokens: Seq<TokenTree>,
    answers: Seq<Result<(usize, usize), Seq<char>>>,
    comma: TokenTree,
)
    requires
        comma.is_punct(','),
        tokens.len() > 0 ==> !tokens.last().is_punct(','),
    ensures
        items_unmoved::<V>(tokens, answers, comma, answers),
        !ends_in_comma::<V>(tokens, answers),
    decreases tokens.len(),
{
    if tokens.len() > 0 {
        assert(tokens.push(comma).drop_last() =~= tokens);
        assert(shown(tokens.push(comma)) == tokens);
        assert(shown(tokens) == tokens);
        V::grammar_is_delegated(tokens, answers[0]);
        V::grammar_is_delegated(tokens.push(comma), answers[0]);
        match V::grammar(tokens, answers[0]) {
            Ok(read) => {
                assert(tokens.push(comma).take(read.1 as int) =~= tokens.take(read.1 as int));
                if read.1 < tokens.len() && tokens[read.1 as int].is_punct(',') {
                    let rest = tokens.skip(read.1 as int + 1);
                    if rest.len() > 0 {
                        assert(rest.last() == tokens.last());
                    }
                    law_values_unmoved::<V>(rest, answers.skip(1), comma);
                }
            },
            Err(_) => {},
        }
    }
}

/// A comma behind the last item of a list of literals, expressions, types or
/// identifiers changes nothing: told the same, the list holds the same items
/// with it as without.
pub proof fn law_trailing_comma_of_values<V: Delegated>(
    tokens: Seq<TokenTree>,
    answers: Seq<Result<(usize, usize), Seq<char>>>,
    comma: TokenTree,
)
    requires
        comma.is_punct(','),
        tokens.len() > 0,
        !tokens.last().is_punct(','),
        list_grammar::<V>(tokens, answers) is Ok,
    ensures
        list_grammar::<V>(tokens, answers) matches Ok(without) && list_grammar::<V>(
            tokens.push(comma),
            answers,
        ) matches Ok(with) && with.0 == without.0,
{
    law_values_unmoved::<V>(tokens, answers, comma);
    law_trailing_comma::<V>(tokens, answers, comma, answers);
}

/// The default of a typed name is there exactly where `=` follows the type.
/// Without `=` the typed name is accepted as it is, with no default; with
/// `=` the expression behind it decides: its value is the default, and its
/// fault is the fault of the whole, so that `=` with nothing behind it is
/// rejected wherever the expression grammar rejects nothing.
pub proof fn law_optional_default(
    tokens: Seq<TokenTree>,
    name: Result<(usize, usize), Seq<char>>,
    ty: Result<(usize, usize), Seq<char>>,
    value: Result<(usize, usize), Seq<char>>,
)
    requires
        typed_name_grammar(tokens, name, ty) is Ok,
    ensures
        ({
            let field = typed_name_grammar(tokens, name, ty)->Ok_0;
            let after = tokens.skip(field.1 as int);
            let stated = defaulted_name_grammar(tokens, name, ty, value);
            if after.len() > 0 && after[0].is_punct('=') {
                match Expr::grammar(after.skip(1), value) {
                    Ok(read) => stated == Ok::<(IdentTypeMaybeDefaultView, nat), Fault>(
                        (
                            IdentTypeMaybeDefaultView {
                                ident: field.0.ident,
                                ty: field.0.ty,
                                default: Some(read.0),
                            },
                            field.1 + 1 + read.1,
                        ),
                    ),
                    Err(fault) => stated == Err::<(IdentTypeMaybeDefaultView, nat), Fault>(
                        fault.after(field.1 + 1),
                    ),
                }
            } else {
                stated == Ok::<(IdentTypeMaybeDefaultView, nat), Fault>(
                    (
                        IdentTypeMaybeDefaultView {
                            ident: field.0.ident,
                            ty: field.0.ty,
                            default: None,
                        },
                        field.1,
                    ),
                )
            }
        }),
{
}

/// A default must follow its `=`: a typed name with `=` as the last token
/// is rejected as a malformed item where the input ends, whatever the
/// expression grammar is told.
pub proof fn law_dangling_default(
    tokens: Seq<TokenTree>,
    name: Result<(usize, usize), Seq<char>>,
    ty: Result<(usize, usize), Seq<char>>,
    value: Result<(usize, usize), Seq<char>>,
)
    requires
        typed_name_grammar(tokens, name, ty) matches Ok(field) && field.1 + 1 == tokens.len()
            && tokens[field.1 as int].is_punct('='),
    ensures
        defaulted_name_grammar(tokens, name, ty, value) matches Err(fault) && fault.kind
            == ErrorKind::MalformedItem && fault.at.is_none() && fault.read == tokens.len(),
{
    let field = typed_name_grammar(tokens, name, ty)->Ok_0;
    let after = tokens.skip(field.1 as int);
    assert(after[0] == tokens[field.1 as int]);
    assert(after.skip(1).len() == 0);
}

/// A value needs at least one token: `word()` and `word =` with nothing
/// behind it are rejected, whatever the value's grammar is told, where that
/// grammar is left to the outside.
pub proof fn law_value_is_not_empty<V: Delegated>(
    word: Seq<char>,
    keyword: TokenTree,
    marker: TokenTree,
    reading: Result<(usize, usize), Seq<char>>,
)
    requires
        keyword.is_word(word),
        marker.is_punct('=') || (marker.is_group(Delimiter::Parenthesis) && marker.stream().len()
            == 0),
    ensures
        value_grammar::<V>(word, seq![keyword, marker], reading) matches Err(fault) && fault.kind
            == ErrorKind::MalformedItem && fault.read == 2,
{
    let tokens = seq![keyword, marker];
    V::grammar_is_delegated(marker.stream(), reading);
    V::grammar_is_delegated(tokens.skip(1).skip(1), reading);
    assert(tokens.skip(1)[0] == marker);
    assert(tokens.skip(1).skip(1).len() == 0);
}

} // verus!
