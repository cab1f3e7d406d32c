//! Typed names: `name: Type`, with or without a default value behind `=`.

use vstd::prelude::*;
use crate::cursor::{front, Cursor};
use crate::error::{ErrorKind, Fault, ParseError};
use crate::parse::{follows, outcome, Parse};
use crate::payload::{Expr, Ident, Type};
use crate::token::TokenTree;

verus! {

/// The value of an [`IdentPatType`].
pub struct IdentPatTypeView {
    pub ident: Seq<TokenTree>,
    pub ty: Seq<TokenTree>,
}

/// The value of an [`IdentTypeMaybeDefault`].
pub struct IdentTypeMaybeDefaultView {
    pub ident: Seq<TokenTree>,
    pub ty: Seq<TokenTree>,
    pub default: Option<Seq<TokenTree>>,
}

/// A name with its type: `name: Type`. The left-hand side is a bare
/// identifier, never a pattern.
#[derive(Clone, Debug)]
pub struct IdentPatType {
    pub ident: Ident,
    pub ty: Type,
}

/// A name with its type and, behind `=`, an optional default value:
/// `name: Type` or `name: Type = expr`.
#[derive(Clone, Debug)]
pub struct IdentTypeMaybeDefault {
    pub ident: Ident,
    pub ty: Type,
    pub default: Option<Expr>,
}

impl View for IdentPatType {
    type V = IdentPatTypeView;

    open spec fn view(&self) -> IdentPatTypeView {
        IdentPatTypeView { ident: self.ident@, ty: self.ty@ }
    }
}

impl View for IdentTypeMaybeDefault {
    type V = IdentTypeMaybeDefaultView;

    open spec fn view(&self) -> IdentTypeMaybeDefaultView {
        IdentTypeMaybeDefaultView {
            ident: self.ident@,
            ty: self.ty@,
            default: match self.default {
                Some(e) => Some(e@),
                None => None,
            },
        }
    }
}

/// The message for a name that no colon follows.
pub open spec fn expected_colon() -> Seq<char> {
    "expected `:` and a type"@
}

/// What the grammar `name: Type` makes of `tokens`, when the identifier is
/// told `name` and the type `ty`: an identifier, then a colon (a missing
/// payload where none stands there), then a type. A failure of the
/// identifier or of the type is reported as it is.
pub open spec fn typed_name_grammar(
    tokens: Seq<TokenTree>,
    name: Result<(usize, usize), Seq<char>>,
    ty: Result<(usize, usize), Seq<char>>,
) -> Result<(IdentPatTypeView, nat), Fault> {
    match Ident::grammar(tokens, name) {
        Err(f) => Err(f),
        Ok(ident) => {
            let after = tokens.skip(ident.1 as int);
            if !(after.len() > 0 && after[0].is_punct(':')) {
                Err(
                    Fault {
                        kind: ErrorKind::MissingPayload,
                        at: front(after),
                        message: expected_colon(),
                        read: ident.1,
                    },
                )
            } else {
                match Type::grammar(after.skip(1), ty) {
                    Err(f) => Err(f.after(ident.1 + 1)),
                    Ok(read) => Ok(
                        (IdentPatTypeView { ident: ident.0, ty: read.0 }, ident.1 + 1 + read.1),
                    ),
                }
            }
        },
    }
}

/// What the grammar `name: Type` or `name: Type = expr` makes of `tokens`:
/// a typed name, and a default exactly where `=` follows it; the expression
/// behind `=`, which is told `value`, must then read.
pub open spec fn defaulted_name_grammar(
    tokens: Seq<TokenTree>,
    name: Result<(usize, usize), Seq<char>>,
    ty: Result<(usize, usize), Seq<char>>,
    value: Result<(usize, usize), Seq<char>>,
) -> Result<(IdentTypeMaybeDefaultView, nat), Fault> {
    match typed_name_grammar(tokens, name, ty) {
        Err(f) => Err(f),
        Ok(field) => {
            let after = tokens.skip(field.1 as int);
            if after.len() > 0 && after[0].is_punct('=') {
                match Expr::grammar(after.skip(1), value) {
                    Err(f) => Err(f.after(field.1 + 1)),
                    Ok(read) => Ok(
                        (
                            IdentTypeMaybeDefaultView {
                                ident: field.0.ident,
                                ty: field.0.ty,
                                default: Some(read.0),
                            },
                            field.1 + 1 + read.1,
                        ),
                    ),
                }
            } else {
                Ok(
                    (
                        IdentTypeMaybeDefaultView {
                            ident: field.0.ident,
                            ty: field.0.ty,
                            default: None,
                        },
                        field.1,
                    ),
                )
            }
        },
    }
}

impl Parse for IdentPatType {
    type Answers = (Result<(usize, usize), Seq<char>>, Result<(usize, usize), Seq<char>>);

    open spec fn grammar(
        tokens: Seq<TokenTree>,
        answers: (Result<(usize, usize), Seq<char>>, Result<(usize, usize), Seq<char>>),
    ) -> Result<(IdentPatTypeView, nat), Fault> {
        typed_name_grammar(tokens, answers.0, answers.1)
    }

    proof fn grammar_in_bounds(
        tokens: Seq<TokenTree>,
        answers: (Result<(usize, usize), Seq<char>>, Result<(usize, usize), Seq<char>>),
    ) {
    }

    /// Reads `name: Type`.
    fn parse<'a>(cursor: &mut Cursor<'a>) -> (r: Result<Self, ParseError>) {
        let ghost tokens = cursor.rest();
        let ghost end = cursor.end();
        let ghost none: Result<(usize, usize), Seq<char>> = Err(Seq::empty());
        let ident = Ident::parse(cursor);
        let ghost name = choose|a: Result<(usize, usize), Seq<char>>|
            follows(#[trigger] Ident::grammar(tokens, a), tokens, end, outcome(ident), cursor.rest());
        let ident = match ident {
            Ok(ident) => ident,
            Err(e) => {
                assert(follows(
                    Self::grammar(tokens, (name, none)),
                    tokens,
                    end,
                    outcome::<Self>(Err(e)),
                    cursor.rest(),
                ));
                return Err(e);
            },
        };
        let ghost taken = (Ident::grammar(tokens, name)->Ok_0).1;
        if !cursor.peek_punct(':') {
            let e = ParseError::new(
                ErrorKind::MissingPayload,
                cursor.span(),
                "expected `:` and a type".to_string(),
            );
            assert(follows(
                Self::grammar(tokens, (name, none)),
                tokens,
                end,
                outcome::<Self>(Err(e)),
                cursor.rest(),
            ));
            return Err(e);
        }
        cursor.advance(1);
        let ghost behind = cursor.rest();
        assert(behind =~= tokens.skip(taken as int).skip(1));
        let ty = Type::parse(cursor);
        let ghost told = choose|a: Result<(usize, usize), Seq<char>>|
            follows(#[trigger] Type::grammar(behind, a), behind, end, outcome(ty), cursor.rest());
        proof {
            match Type::grammar(behind, told) {
                Ok(read) => {
                    assert(cursor.rest() =~= tokens.skip((taken + 1 + read.1) as int));
                },
                Err(fault) => {
                    assert(cursor.rest() =~= tokens.skip((fault.read + taken + 1) as int));
                },
            }
        }
        let r = match ty {
            Ok(ty) => Ok(IdentPatType { ident, ty }),
            Err(e) => Err(e),
        };
        assert(follows(Self::grammar(tokens, (name, told)), tokens, end, outcome(r), cursor.rest()));
        r
    }
}

impl Parse for IdentTypeMaybeDefault {
    type Answers = (
        Result<(usize, usize), Seq<char>>,
        Result<(usize, usize), Seq<char>>,
        Result<(usize, usize), Seq<char>>,
    );

    open spec fn grammar(
        tokens: Seq<TokenTree>,
        answers: (
            Result<(usize, usize), Seq<char>>,
            Result<(usize, usize), Seq<char>>,
            Result<(usize, usize), Seq<char>>,
        ),
    ) -> Result<(IdentTypeMaybeDefaultView, nat), Fault> {
        defaulted_name_grammar(tokens, answers.0, answers.1, answers.2)
    }

    proof fn grammar_in_bounds(
        tokens: Seq<TokenTree>,
        answers: (
            Result<(usize, usize), Seq<char>>,
            Result<(usize, usize), Seq<char>>,
            Result<(usize, usize), Seq<char>>,
        ),
    ) {
    }

    /// Reads `name: Type` or `name: Type = expr`.
    fn parse<'a>(cursor: &mut Cursor<'a>) -> (r: Result<Self, ParseError>) {
        let ghost tokens = cursor.rest();
        let ghost end = cursor.end();
        let ghost none: Result<(usize, usize), Seq<char>> = Err(Seq::empty());
        let field = IdentPatType::parse(cursor);
        let ghost names = choose|
            a: (Result<(usize, usize), Seq<char>>, Result<(usize, usize), Seq<char>>),
        |
            follows(
                #[trigger] IdentPatType::grammar(tokens, a),
                tokens,
                end,
                outcome(field),
                cursor.rest(),
            );
        let field = match field {
            Ok(field) => field,
            Err(e) => {
                assert(follows(
                    Self::grammar(tokens, (names.0, names.1, none)),
                    tokens,
                    end,
                    outcome::<Self>(Err(e)),
                    cursor.rest(),
                ));
                return Err(e);
            },
        };
        let ghost taken = (IdentPatType::grammar(tokens, names)->Ok_0).1;
        if cursor.peek_punct('=') {
            cursor.advance(1);
            let ghost behind = cursor.rest();
            assert(behind =~= tokens.skip(taken as int).skip(1));
            let value = Expr::parse(cursor);
            let ghost told = choose|a: Result<(usize, usize), Seq<char>>|
                follows(
                    #[trigger] Expr::grammar(behind, a),
                    behind,
                    end,
                    outcome(value),
                    cursor.rest(),
                );
            proof {
                match Expr::grammar(behind, told) {
                    Ok(read) => {
                        assert(cursor.rest() =~= tokens.skip((taken + 1 + read.1) as int));
                    },
                    Err(fault) => {
                        assert(cursor.rest() =~= tokens.skip((fault.read + taken + 1) as int));
                    },
                }
            }
            let r = match value {
                Ok(value) => Ok(
                    IdentTypeMaybeDefault { ident: field.ident, ty: field.ty, default: Some(value) },
                ),
                Err(e) => Err(e),
            };
            assert(follows(
                Self::grammar(tokens, (names.0, names.1, told)),
                tokens,
                end,
                outcome(r),
                cursor.rest(),
            ));
            r
        } else {
            let r = Ok(IdentTypeMaybeDefault { ident: field.ident, ty: field.ty, default: None });
            assert(follows(
                Self::grammar(tokens, (names.0, names.1, none)),
                tokens,
                end,
                outcome::<Self>(r),
                cursor.rest(),
            ));
            r
        }
    }
}

} // verus!
