//! The capability that every payload and item grammar offers, and the list
//! combinator that is generic over it.

use vstd::prelude::*;
use crate::cursor::Cursor;
use crate::error::{unexpected_token, ErrorKind, Failure, Fault, ParseError};
use crate::token::{stream_view, Span, Token, TokenTree};

verus! {

/// A grammar that reads one node from the front of a cursor.
///
/// A grammar may ask outside this crate how far a value reaches. What it is
/// told is its `Answers`; given them, what it reads is a function of the
/// tokens.
pub trait Parse: Sized + View {
    /// What the grammar is told from outside while it reads one node.
    type Answers;

    /// What the grammar makes of `tokens` when it is told `answers`: the
    /// value of the node and the number of tokens that it reads, or the fault
    /// that it finds.
    spec fn grammar(tokens: Seq<TokenTree>, answers: Self::Answers) -> Result<
        (Self::V, nat),
        Fault,
    >;

    /// The grammar reads no more tokens than there are, whether it accepts
    /// or not.
    proof fn grammar_in_bounds(tokens: Seq<TokenTree>, answers: Self::Answers)
        ensures
            match Self::grammar(tokens, answers) {
                Ok(read) => read.1 <= tokens.len(),
                Err(fault) => fault.read <= tokens.len(),
            },
    ;

    /// Reads one node from the front of `cursor`. Whatever the grammar was
    /// told, the result is what the grammar makes of the tokens: on success
    /// the cursor stands behind the tokens read; on failure it stands where
    /// the parser gave up, and the error points at the fault, or at the
    /// cursor's end where the tokens ran out.
    fn parse<'a>(cursor: &mut Cursor<'a>) -> (r: Result<Self, ParseError>)
        ensures
            final(cursor).end() == old(cursor).end(),
            exists|answers: Self::Answers|
                follows(
                    #[trigger] Self::grammar(old(cursor).rest(), answers),
                    old(cursor).rest(),
                    old(cursor).end(),
                    outcome(r),
                    final(cursor).rest(),
                ),
    ;
}

/// A node that can give back the tokens of its payload.
pub trait ToTokens: Parse {
    /// The tokens that the node gives back.
    spec fn emitted(&self) -> Seq<TokenTree>;

    /// A node gives back the tokens that its grammar read to build it.
    proof fn emits_what_was_read(&self, tokens: Seq<TokenTree>, answers: Self::Answers)
        requires
            Self::grammar(tokens, answers) matches Ok(read) && read.0 == self@,
        ensures
            Self::grammar(tokens, answers) matches Ok(read) && self.emitted() == tokens.take(
                read.1 as int,
            ),
    ;

    /// Appends the node's tokens to `out`.
    fn to_tokens(&self, out: &mut Vec<Token>)
        ensures
            stream_view(final(out)@) == stream_view(old(out)@) + self.emitted(),
    ;
}

/// The value of a parser's result.
pub open spec fn outcome<T: View>(r: Result<T, ParseError>) -> Result<T::V, Failure> {
    match r {
        Ok(node) => Ok(node@),
        Err(e) => Err(e@),
    }
}

/// The values of `items`, item by item.
pub open spec fn views<I: View>(items: Seq<I>) -> Seq<I::V> {
    items.map_values(|i: I| i@)
}

/// The value of a list parser's result.
pub open spec fn list_outcome<I: View>(r: Result<Vec<I>, ParseError>) -> Result<
    Seq<I::V>,
    Failure,
> {
    match r {
        Ok(items) => Ok(views(items@)),
        Err(e) => Err(e@),
    }
}

/// Whether a parser did what a grammar states. `stated` is what the grammar
/// makes of the tokens `before` the call, in an input that ends at `end`;
/// `result` is the value of what the parser returned, and `after` are the
/// tokens left behind it. On success the value is the stated one and the
/// stated number of tokens is read; on failure the error is the stated fault
/// and the cursor stands where the fault says.
pub open spec fn follows<V>(
    stated: Result<(V, nat), Fault>,
    before: Seq<TokenTree>,
    end: Span,
    result: Result<V, Failure>,
    after: Seq<TokenTree>,
) -> bool {
    match stated {
        Ok(read) => result == Ok::<V, Failure>(read.0) && after == before.skip(read.1 as int),
        Err(fault) => result == Err::<V, Failure>(fault.within(end)) && after == before.skip(
            fault.read as int,
        ),
    }
}

/// The message for a token that stands where a comma belongs.
pub open spec fn expected_comma() -> Seq<char> {
    "expected `,`"@
}

/// A list that continues: `more` is what the list grammar makes of the
/// tokens behind the `n` tokens that were read as `done`.
pub open spec fn resume<V>(done: Seq<V>, n: nat, more: Result<(Seq<V>, nat), Fault>) -> Result<
    (Seq<V>, nat),
    Fault,
> {
    match more {
        Ok(rest) => Ok((done + rest.0, rest.1 + n)),
        Err(f) => Err(f.after(n)),
    }
}

/// What the list grammar makes of `tokens`, which it reads to their end:
/// zero or more items of `I`, each but the last followed by a comma, the last
/// with or without one. The items are told `answers` in turn. The result
/// holds the items in the order read; the first item that fails, or the
/// first token that stands where a comma belongs, is the fault.
pub open spec fn list_grammar<I: Parse>(tokens: Seq<TokenTree>, answers: Seq<I::Answers>) -> Result<
    (Seq<I::V>, nat),
    Fault,
>
    decreases tokens.len(),
{
    if tokens.len() == 0 {
        Ok((Seq::empty(), 0))
    } else {
        match I::grammar(tokens, answers[0]) {
            Err(f) => Err(f),
            Ok(read) => if read.1 >= tokens.len() {
                Ok((seq![read.0], read.1))
            } else if !tokens[read.1 as int].is_punct(',') {
                Err(
                    Fault {
                        kind: ErrorKind::UnexpectedToken,
                        at: Some(tokens[read.1 as int].span()),
                        message: expected_comma(),
                        read: read.1,
                    },
                )
            } else {
                resume(
                    seq![read.0],
                    read.1 + 1,
                    list_grammar::<I>(tokens.skip(read.1 as int + 1), answers.skip(1)),
                )
            },
        }
    }
}

/// One more item and its comma in front of a list: the step that the list
/// grammar takes.
proof fn lemma_list_step<I: Parse>(
    tokens: Seq<TokenTree>,
    answer: I::Answers,
    more: Seq<I::Answers>,
)
    requires
        tokens.len() > 0,
        I::grammar(tokens, answer) matches Ok(read) && read.1 < tokens.len()
            && tokens[read.1 as int].is_punct(','),
    ensures
        I::grammar(tokens, answer) matches Ok(read) && list_grammar::<I>(
            tokens,
            seq![answer] + more,
        ) == resume(
            seq![read.0],
            read.1 + 1,
            list_grammar::<I>(tokens.skip(read.1 as int + 1), more),
        ),
{
    let answers = seq![answer] + more;
    assert(answers[0] == answer);
    assert(answers.skip(1) =~= more);
}

/// Reads a comma-separated list of `I` from `cursor`, to its end. A comma
/// behind the last item is accepted, and so is an empty list.
pub fn parse_terminated<'a, I: Parse>(cursor: &mut Cursor<'a>) -> (r: Result<Vec<I>, ParseError>)
    ensures
        final(cursor).end() == old(cursor).end(),
        exists|answers: Seq<I::Answers>|
            follows(
                #[trigger] list_grammar::<I>(old(cursor).rest(), answers),
                old(cursor).rest(),
                old(cursor).end(),
                list_outcome(r),
                final(cursor).rest(),
            ),
{
    let mut items: Vec<I> = Vec::new();
    let ghost whole = cursor.rest();
    let ghost end = cursor.end();
    let ghost given: Seq<I::Answers> = Seq::empty();
    let ghost pos: nat = 0;
    assert(views(items@) =~= Seq::<I::V>::empty());
    assert(whole.skip(0) =~= whole);
    assert forall|more: Seq<I::Answers>|
        list_grammar::<I>(whole, given + more) == resume(
            views(items@),
            pos,
            #[trigger] list_grammar::<I>(whole.skip(pos as int), more),
        ) by {
        assert(given + more =~= more);
        match list_grammar::<I>(whole, more) {
            Ok(rest) => {
                assert(views(items@) + rest.0 =~= rest.0);
            },
            Err(_) => {},
        }
    }
    while !cursor.is_empty()
        invariant
            whole == old(cursor).rest(),
            end == old(cursor).end(),
            cursor.end() == end,
            pos <= whole.len(),
            cursor.rest() == whole.skip(pos as int),
            forall|more: Seq<I::Answers>|
                list_grammar::<I>(whole, given + more) == resume(
                    views(items@),
                    pos,
                    #[trigger] list_grammar::<I>(whole.skip(pos as int), more),
                ),
        decreases cursor.rest().len(),
    {
        let ghost before = cursor.rest();
        let ghost done = views(items@);
        let r = I::parse(cursor);
        let ghost answer = choose|a: I::Answers|
            follows(#[trigger] I::grammar(before, a), before, end, outcome(r), cursor.rest());
        proof {
            I::grammar_in_bounds(before, answer);
        }
        let item = match r {
            Ok(item) => item,
            Err(e) => {
                proof {
                    let fault = I::grammar(before, answer)->Err_0;
                    let last = seq![answer];
                    assert(last[0] == answer);
                    assert(list_grammar::<I>(before, last) == Err::<(Seq<I::V>, nat), Fault>(fault));
                    assert(cursor.rest() =~= whole.skip((fault.read + pos) as int));
                    assert(follows(
                        list_grammar::<I>(whole, given + last),
                        whole,
                        end,
                        list_outcome::<I>(Err(e)),
                        cursor.rest(),
                    ));
                }
                return Err(e);
            },
        };
        let ghost read = I::grammar(before, answer)->Ok_0;
        items.push(item);
        assert(views(items@) =~= done + seq![read.0]);
        if !cursor.is_empty() {
            assert(cursor.rest()[0] == before[read.1 as int]);
            if !cursor.peek_punct(',') {
                let e = ParseError::new(
                    ErrorKind::UnexpectedToken,
                    cursor.span(),
                    "expected `,`".to_string(),
                );
                proof {
                    let last = seq![answer];
                    assert(last[0] == answer);
                    assert(cursor.rest() =~= whole.skip((read.1 + pos) as int));
                    assert(list_grammar::<I>(before, last) == Err::<(Seq<I::V>, nat), Fault>(
                        Fault {
                            kind: ErrorKind::UnexpectedToken,
                            at: Some(before[read.1 as int].span()),
                            message: expected_comma(),
                            read: read.1,
                        },
                    ));
                    assert(list_grammar::<I>(whole, given + last) == resume(
                        done,
                        pos,
                        list_grammar::<I>(whole.skip(pos as int), last),
                    ));
                    assert(follows(
                        list_grammar::<I>(whole, given + last),
                        whole,
                        end,
                        list_outcome::<I>(Err(e)),
                        cursor.rest(),
                    ));
                }
                return Err(e);
            }
            cursor.advance(1);
            proof {
                let next = pos + read.1 + 1;
                assert(cursor.rest() =~= whole.skip(next as int));
                assert(before.skip(read.1 as int + 1) =~= whole.skip(next as int));
                assert forall|more: Seq<I::Answers>|
                    list_grammar::<I>(whole, given.push(answer) + more) == resume(
                        views(items@),
                        next,
                        #[trigger] list_grammar::<I>(whole.skip(next as int), more),
                    ) by {
                    lemma_list_step::<I>(before, answer, more);
                    let longer = seq![answer] + more;
                    assert(given.push(answer) + more =~= given + longer);
                    assert(list_grammar::<I>(before, longer) == resume(
                        seq![read.0],
                        read.1 + 1,
                        list_grammar::<I>(whole.skip(next as int), more),
                    ));
                    assert(list_grammar::<I>(whole, given + longer) == resume(
                        done,
                        pos,
                        list_grammar::<I>(whole.skip(pos as int), longer),
                    ));
                    match list_grammar::<I>(whole.skip(next as int), more) {
                        Ok(rest) => {
                            assert((done + seq![read.0]) + rest.0 =~= done + (seq![read.0] + rest.0));
                        },
                        Err(_) => {},
                    }
                }
                given = given.push(answer);
                pos = next;
            }
        } else {
            proof {
                let next = pos + read.1;
                assert(whole.skip(next as int) =~= Seq::<TokenTree>::empty());
                assert forall|more: Seq<I::Answers>|
                    list_grammar::<I>(whole, given.push(answer) + more) == resume(
                        views(items@),
                        next,
                        #[trigger] list_grammar::<I>(whole.skip(next as int), more),
                    ) by {
                    let last = seq![answer] + more;
                    assert(last[0] == answer);
                    assert(given.push(answer) + more =~= given + last);
                    assert((done + seq![read.0]) + Seq::<I::V>::empty() =~= done + seq![read.0]);
                    assert(list_grammar::<I>(before, last) == Ok::<(Seq<I::V>, nat), Fault>(
                        (seq![read.0], read.1),
                    ));
                    assert(list_grammar::<I>(whole, given + last) == resume(
                        done,
                        pos,
                        list_grammar::<I>(whole.skip(pos as int), last),
                    ));
                    assert(list_grammar::<I>(whole.skip(next as int), more) == Ok::<
                        (Seq<I::V>, nat),
                        Fault,
                    >((Seq::empty(), 0)));
                }
                given = given.push(answer);
                pos = next;
            }
        }
    }
    proof {
        let none = Seq::<I::Answers>::empty();
        assert(given + none =~= given);
        assert(views(items@) + Seq::<I::V>::empty() =~= views(items@));
        assert(list_grammar::<I>(whole.skip(pos as int), none) == Ok::<(Seq<I::V>, nat), Fault>(
            (Seq::empty(), 0),
        ));
        assert(list_grammar::<I>(whole, given + none) == resume(
            views(items@),
            pos,
            list_grammar::<I>(whole.skip(pos as int), none),
        ));
        assert(follows(
            list_grammar::<I>(whole, given),
            whole,
            end,
            list_outcome::<I>(Ok(items)),
            cursor.rest(),
        ));
    }
    Ok(items)
}

/// What a grammar makes of `tokens` where it must read all of them: what it
/// states, unless it leaves a token unread; that token is then the fault.
pub open spec fn whole<V>(stated: Result<(V, nat), Fault>, tokens: Seq<TokenTree>) -> Result<
    (V, nat),
    Fault,
> {
    match stated {
        Err(f) => Err(f),
        Ok(read) => if read.1 < tokens.len() {
            Err(
                Fault {
                    kind: ErrorKind::UnexpectedToken,
                    at: Some(tokens[read.1 as int].span()),
                    message: unexpected_token(),
                    read: read.1,
                },
            )
        } else {
            Ok(read)
        },
    }
}

/// The value that a whole-input parser returns for what a grammar states of
/// all the tokens, in an input that ends at `end`.
pub open spec fn whole_outcome<V>(stated: Result<(V, nat), Fault>, end: Span) -> Result<V, Failure> {
    match stated {
        Ok(read) => Ok(read.0),
        Err(fault) => Err(fault.within(end)),
    }
}

/// Accepts the result of a parser only if it left no token unread.
pub fn finish<'a, T: View>(cursor: &Cursor<'a>, r: Result<T, ParseError>) -> (all: Result<
    T,
    ParseError,
>)
    ensures
        match r {
            Ok(node) => if cursor.rest().len() > 0 {
                outcome(all) == Err::<T::V, Failure>(
                    Failure {
                        kind: ErrorKind::UnexpectedToken,
                        span: cursor.rest()[0].span(),
                        message: unexpected_token(),
                    },
                )
            } else {
                all == Ok::<T, ParseError>(node)
            },
            Err(e) => all == Err::<T, ParseError>(e),
        },
{
    match r {
        Ok(node) => if cursor.is_empty() {
            Ok(node)
        } else {
            Err(ParseError::unexpected(cursor.span()))
        },
        Err(e) => Err(e),
    }
}

/// Reads one node of `T` from `tokens` and accepts it only if no token is
/// left. An error where the tokens run out points at `end`.
pub fn parse2<T: Parse>(tokens: &[Token], end: Span) -> (r: Result<T, ParseError>)
    ensures
        exists|answers: T::Answers|
            outcome(r) == whole_outcome(
                whole(#[trigger] T::grammar(stream_view(tokens@), answers), stream_view(tokens@)),
                end,
            ),
{
    let mut cursor = Cursor::new(tokens, end);
    let ghost all = cursor.rest();
    let r = T::parse(&mut cursor);
    let ghost answer = choose|a: T::Answers|
        follows(#[trigger] T::grammar(all, a), all, end, outcome(r), cursor.rest());
    proof {
        T::grammar_in_bounds(all, answer);
        if r is Ok && cursor.rest().len() > 0 {
            assert(cursor.rest()[0] == all[(T::grammar(all, answer)->Ok_0).1 as int]);
        }
    }
    let r = finish(&cursor, r);
    assert(outcome(r) == whole_outcome(whole(T::grammar(all, answer), all), end));
    r
}

} // verus!
