//! Keywords as types, so that a keyword-led node is a grammar of its own and
//! can stand wherever a grammar is asked for: as the item of a list, or as
//! what a whole input is read as.

use core::marker::PhantomData;
use vstd::prelude::*;
use crate::cursor::Cursor;
use crate::error::{Fault, ParseError};
use crate::meta::{
    enclosed_grammar, keyword_grammar, keyword_list_grammar, lemma_value_in_bounds, value_grammar,
    EnclosureView, Keyed, KeywordView, MetaEnclosedList, MetaList, MetaValue, MetaVoid,
};
use crate::parse::{follows, outcome, Parse};
use crate::token::TokenTree;

verus! {

/// A keyword as a type. What `name` returns is the word that is looked for;
/// nothing is known of it before it is asked.
pub trait KeywordName {
    /// The word of the keyword.
    fn name() -> &'static str;
}

/// A keyword-led node whose keyword is that of the type `K`.
#[derive(Debug)]
pub struct Named<K, N> {
    pub node: N,
    pub keyword: PhantomData<K>,
}

impl<K, N: View> View for Named<K, N> {
    type V = N::V;

    open spec fn view(&self) -> N::V {
        self.node@
    }
}

impl<K: KeywordName> Parse for Named<K, MetaVoid> {
    /// The word that the keyword type gave.
    type Answers = Seq<char>;

    open spec fn grammar(tokens: Seq<TokenTree>, answers: Seq<char>) -> Result<
        (KeywordView, nat),
        Fault,
    > {
        keyword_grammar(answers, tokens)
    }

    proof fn grammar_in_bounds(tokens: Seq<TokenTree>, answers: Seq<char>) {
    }

    /// Reads the bare keyword of `K`.
    fn parse<'a>(cursor: &mut Cursor<'a>) -> (r: Result<Self, ParseError>) {
        let word = K::name();
        let r = match MetaVoid::parse(cursor, word) {
            Ok(node) => Ok(Named { node, keyword: PhantomData }),
            Err(e) => Err(e),
        };
        assert(follows(
            Self::grammar(old(cursor).rest(), word@),
            old(cursor).rest(),
            old(cursor).end(),
            outcome(r),
            cursor.rest(),
        ));
        r
    }
}

impl<K: KeywordName, V: Parse> Parse for Named<K, MetaValue<V>> {
    /// The word that the keyword type gave, and what the value is told.
    type Answers = (Seq<char>, V::Answers);

    open spec fn grammar(tokens: Seq<TokenTree>, answers: (Seq<char>, V::Answers)) -> Result<
        (Keyed<V::V>, nat),
        Fault,
    > {
        value_grammar::<V>(answers.0, tokens, answers.1)
    }

    proof fn grammar_in_bounds(tokens: Seq<TokenTree>, answers: (Seq<char>, V::Answers)) {
        lemma_value_in_bounds::<V>(answers.0, tokens, answers.1);
    }

    /// Reads the keyword of `K` with one value.
    fn parse<'a>(cursor: &mut Cursor<'a>) -> (r: Result<Self, ParseError>) {
        let word = K::name();
        let node = MetaValue::<V>::parse(cursor, word);
        let ghost told = choose|a: V::Answers|
            follows(
                #[trigger] value_grammar::<V>(word@, old(cursor).rest(), a),
                old(cursor).rest(),
                old(cursor).end(),
                outcome(node),
                cursor.rest(),
            );
        let r = match node {
            Ok(node) => Ok(Named { node, keyword: PhantomData }),
            Err(e) => Err(e),
        };
        assert(follows(
            Self::grammar(old(cursor).rest(), (word@, told)),
            old(cursor).rest(),
            old(cursor).end(),
            outcome(r),
            cursor.rest(),
        ));
        r
    }
}

impl<K: KeywordName, I: Parse> Parse for Named<K, MetaList<I>> {
    /// The word that the keyword type gave, and what the items are told.
    type Answers = (Seq<char>, Seq<I::Answers>);

    open spec fn grammar(tokens: Seq<TokenTree>, answers: (Seq<char>, Seq<I::Answers>)) -> Result<
        (Keyed<Seq<I::V>>, nat),
        Fault,
    > {
        keyword_list_grammar::<I>(answers.0, tokens, answers.1)
    }

    proof fn grammar_in_bounds(tokens: Seq<TokenTree>, answers: (Seq<char>, Seq<I::Answers>)) {
    }

    /// Reads the keyword of `K` with a list.
    fn parse<'a>(cursor: &mut Cursor<'a>) -> (r: Result<Self, ParseError>) {
        let word = K::name();
        let node = MetaList::<I>::parse(cursor, word);
        let ghost told = choose|a: Seq<I::Answers>|
            follows(
                #[trigger] keyword_list_grammar::<I>(word@, old(cursor).rest(), a),
                old(cursor).rest(),
                old(cursor).end(),
                outcome(node),
                cursor.rest(),
            );
        let r = match node {
            Ok(node) => Ok(Named { node, keyword: PhantomData }),
            Err(e) => Err(e),
        };
        assert(follows(
            Self::grammar(old(cursor).rest(), (word@, told)),
            old(cursor).rest(),
            old(cursor).end(),
            outcome(r),
            cursor.rest(),
        ));
        r
    }
}

impl<K: KeywordName, P: Parse, B: Parse> Parse for Named<K, MetaEnclosedList<P, B>> {
    /// The word that the keyword type gave, and what the items of either
    /// bracket kind are told.
    type Answers = (Seq<char>, Seq<P::Answers>, Seq<B::Answers>);

    open spec fn grammar(
        tokens: Seq<TokenTree>,
        answers: (Seq<char>, Seq<P::Answers>, Seq<B::Answers>),
    ) -> Result<(Keyed<EnclosureView<P::V, B::V>>, nat), Fault> {
        enclosed_grammar::<P, B>(answers.0, tokens, answers.1, answers.2)
    }

    proof fn grammar_in_bounds(
        tokens: Seq<TokenTree>,
        answers: (Seq<char>, Seq<P::Answers>, Seq<B::Answers>),
    ) {
    }

    /// Reads the keyword of `K` with a list in parentheses or in braces.
    fn parse<'a>(cursor: &mut Cursor<'a>) -> (r: Result<Self, ParseError>) {
        let word = K::name();
        let node = MetaEnclosedList::<P, B>::parse(cursor, word);
        let ghost told = choose|in_parens: Seq<P::Answers>, in_braces: Seq<B::Answers>|
            follows(
                #[trigger] enclosed_grammar::<P, B>(
                    word@,
                    old(cursor).rest(),
                    in_parens,
                    in_braces,
                ),
                old(cursor).rest(),
                old(cursor).end(),
                outcome(node),
                cursor.rest(),
            );
        let r = match node {
            Ok(node) => Ok(Named { node, keyword: PhantomData }),
            Err(e) => Err(e),
        };
        assert(follows(
            Self::grammar(old(cursor).rest(), (word@, told.0, told.1)),
            old(cursor).rest(),
            old(cursor).end(),
            outcome(r),
            cursor.rest(),
        ));
        r
    }
}

} // verus!
