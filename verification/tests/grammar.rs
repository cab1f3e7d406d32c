use std::str::FromStr;

use attr_meta::error::{ErrorKind, ParseError};
use attr_meta::field::{IdentPatType, IdentTypeMaybeDefault};
use attr_meta::meta::{
    Enclosure, KeywordToken, MetaAttrList, MetaEnclosedList, MetaList, MetaValue, MetaVoid,
};
use attr_meta::parse::parse2;
use attr_meta::payload::Lit;
use attr_meta::token::{render_tokens, Delimiter, Span, Token};

type MetaValueTest = MetaValue<Lit>;
type MetaListTest = MetaList<Lit>;
type MetaAttrListTest = MetaAttrList<Lit>;
type MetaEnclosedListTest = MetaEnclosedList<Lit, Lit>;

const END: Span = Span { lo: 1000, hi: 1000 };

/// The tokens of `stream` with their byte ranges in `source`, which starts
/// at `*at` with the text that the stream was lexed from.
fn tokens_of(stream: proc_macro2::TokenStream, source: &str, at: &mut usize) -> Vec<Token> {
    let mut out = Vec::new();
    for tree in stream {
        *at += source[*at..].len() - source[*at..].trim_start().len();
        let lo = *at;
        out.push(match tree {
            proc_macro2::TokenTree::Ident(ident) => {
                let name = ident.to_string();
                *at += name.len();
                Token::Ident { name, span: Span { lo, hi: *at } }
            }
            proc_macro2::TokenTree::Punct(punct) => {
                *at += punct.as_char().len_utf8();
                Token::Punct {
                    ch: punct.as_char(),
                    joint: punct.spacing() == proc_macro2::Spacing::Joint,
                    span: Span { lo, hi: *at },
                }
            }
            proc_macro2::TokenTree::Literal(literal) => {
                let text = literal.to_string();
                *at += text.len();
                Token::Literal { text, span: Span { lo, hi: *at } }
            }
            proc_macro2::TokenTree::Group(group) => {
                *at += 1;
                let stream = tokens_of(group.stream(), source, at);
                *at += source[*at..].len() - source[*at..].trim_start().len() + 1;
                Token::Group {
                    delimiter: match group.delimiter() {
                        proc_macro2::Delimiter::Parenthesis => Delimiter::Parenthesis,
                        proc_macro2::Delimiter::Brace => Delimiter::Brace,
                        proc_macro2::Delimiter::Bracket => Delimiter::Bracket,
                        proc_macro2::Delimiter::None => Delimiter::Invisible,
                    },
                    span: Span { lo, hi: *at },
                    stream,
                }
            }
        });
    }
    out
}

fn lex(source: &str) -> Vec<Token> {
    tokens_of(proc_macro2::TokenStream::from_str(source).unwrap(), source, &mut 0)
}

fn printed(tokens: &[Token]) -> String {
    proc_macro2::TokenStream::from_str(&render_tokens(tokens)).unwrap().to_string()
}

fn value(source: &str) -> Result<MetaValueTest, ParseError> {
    MetaValueTest::parse_all(&lex(source), END, "test")
}

fn list(source: &str) -> Result<MetaListTest, ParseError> {
    MetaListTest::parse_all(&lex(source), END, "test_list")
}

fn enclosed(source: &str) -> Result<MetaEnclosedListTest, ParseError> {
    MetaEnclosedListTest::parse_all(&lex(source), END, "test_enclosed_list")
}

fn texts(items: &[Lit]) -> Vec<String> {
    items.iter().map(|item| printed(&item.tokens)).collect()
}

#[test]
fn meta_keyword() {
    let node = MetaVoid::parse_all(&lex("test"), END, "test").unwrap();
    assert_eq!(node.ident.name, "test");
    assert_eq!(node.keyword_span(), Span { lo: 0, hi: 4 });
    <()>::from(node);
}

#[test]
fn meta_value_assign() {
    let node = value("test = 3u8").unwrap();
    assert_eq!(printed(&node.value.tokens), "3u8");
}

#[test]
fn meta_value_paren() {
    let node = value("test(b\"TEST\")").unwrap();
    assert_eq!(printed(&node.value.tokens), "b\"TEST\"");
}

#[test]
fn meta_value_missing_keyword() {
    let error = value("= 3u8").unwrap_err();
    assert_eq!(error.kind(), ErrorKind::KeywordMismatch);
    assert_eq!(error.span(), Span { lo: 0, hi: 1 });
    assert_eq!(error.to_string(), "expected `test`");
}

#[test]
fn meta_value_missing_value() {
    let error = value("test").unwrap_err();
    assert_eq!(error.kind(), ErrorKind::MissingPayload);
    assert_eq!(error.span(), END);
}

#[test]
fn meta_value_wrong_keyword() {
    let error = value("wrong = 3u8").unwrap_err();
    assert_eq!(error.kind(), ErrorKind::KeywordMismatch);
    assert_eq!(error.span(), Span { lo: 0, hi: 5 });
}

#[test]
fn meta_value_wrong_value_type() {
    let error = value("test = u8").unwrap_err();
    assert_eq!(error.kind(), ErrorKind::MalformedItem);
    assert_eq!(error.span(), Span { lo: 7, hi: 9 });
}

#[test]
fn meta_value_confused_as_list() {
    let error = value("test(3u8, 3u8)").unwrap_err();
    assert_eq!(error.kind(), ErrorKind::UnexpectedToken);
    assert_eq!(error.span(), Span { lo: 8, hi: 9 });
}

#[test]
fn meta_value_into_tokenstream() {
    let expected = lex("0u8");
    let node = value("test = 0u8").unwrap();
    assert_eq!(printed(&expected), printed(&Vec::<Token>::from(node)));
}

#[test]
fn meta_value_to_tokens() {
    let expected = lex("0u8");
    let node = value("test = 0u8").unwrap();
    let mut actual = Vec::new();
    node.to_tokens(&mut actual);
    assert_eq!(printed(&expected), printed(&actual));
}

#[test]
fn meta_value_keyword_token() {
    let keyword = lex("test");
    let node = value("test = 0u8").unwrap();
    assert_eq!(format!("{:?}", keyword[0].span()), format!("{:?}", node.keyword_span()));
}

#[test]
fn meta_list() {
    let node = list("test_list(3u8, 3u8)").unwrap();
    assert_eq!(texts(&node.fields), vec!["3u8", "3u8"]);
}

#[test]
fn meta_list_empty() {
    let node = list("test_list()").unwrap();
    assert_eq!(node.fields.len(), 0);
}

#[test]
fn meta_list_missing_keyword() {
    let error = list("(3u8, 3u8)").unwrap_err();
    assert_eq!(error.kind(), ErrorKind::KeywordMismatch);
}

#[test]
fn meta_list_missing_value() {
    let error = list("test_list").unwrap_err();
    assert_eq!(error.kind(), ErrorKind::MissingPayload);
    assert_eq!(error.span(), END);
}

#[test]
fn meta_list_wrong_delimiter() {
    let error = list("test_list = (3u8, 3u8)").unwrap_err();
    assert_eq!(error.kind(), ErrorKind::WrongDelimiter);
    assert_eq!(error.span(), Span { lo: 10, hi: 11 });
}

#[test]
fn meta_list_wrong_keyword() {
    let error = list("wrong").unwrap_err();
    assert_eq!(error.kind(), ErrorKind::KeywordMismatch);
}

#[test]
fn meta_list_wrong_item_type() {
    let error = list("test_list(i32)").unwrap_err();
    assert_eq!(error.kind(), ErrorKind::MalformedItem);
    assert_eq!(error.span(), Span { lo: 10, hi: 13 });
}

#[test]
fn meta_enclosed_list_paren() {
    let node = enclosed("test_enclosed_list(3u8, 3u8)").unwrap();
    match node.list {
        Enclosure::Paren { fields } => assert_eq!(texts(&fields), vec!["3u8", "3u8"]),
        Enclosure::Brace { .. } => panic!("parentheses were read as braces"),
    }
}

#[test]
fn meta_enclosed_list_paren_empty() {
    let node = enclosed("test_enclosed_list()").unwrap();
    assert!(matches!(node.list, Enclosure::Paren { ref fields } if fields.is_empty()));
}

#[test]
fn meta_enclosed_list_brace() {
    let node = enclosed("test_enclosed_list { 3u8, 3u8 }").unwrap();
    match node.list {
        Enclosure::Brace { fields } => assert_eq!(texts(&fields), vec!["3u8", "3u8"]),
        Enclosure::Paren { .. } => panic!("braces were read as parentheses"),
    }
}

#[test]
fn meta_enclosed_list_brace_empty() {
    let node = enclosed("test_enclosed_list {}").unwrap();
    assert!(matches!(node.list, Enclosure::Brace { ref fields } if fields.is_empty()));
}

#[test]
fn meta_enclosed_list_wrong_keyword() {
    let error = enclosed("wrong").unwrap_err();
    assert_eq!(error.kind(), ErrorKind::KeywordMismatch);
}

#[test]
fn meta_enclosed_list_wrong_delimiter() {
    let error = enclosed("test_enclosed_list = (3u8, 3u8)").unwrap_err();
    assert_eq!(error.kind(), ErrorKind::AmbiguousBracket);
    assert_eq!(error.span(), Span { lo: 19, hi: 20 });
}

#[test]
fn meta_enclosed_list_wrong_bracket_kind() {
    let error = enclosed("test_enclosed_list []").unwrap_err();
    assert_eq!(error.kind(), ErrorKind::AmbiguousBracket);
    assert_eq!(
        error.to_string(),
        "expected parentheses or curly braces after `test_enclosed_list`"
    );
}

#[test]
fn meta_enclosed_list_wrong_item_type() {
    let error = enclosed("test_enclosed_list(i32)").unwrap_err();
    assert_eq!(error.kind(), ErrorKind::MalformedItem);
}

#[test]
fn meta_list_keyword_token() {
    let keyword = lex("test_list");
    let node = list("test_list(0u8, 0u8)").unwrap();
    assert_eq!(format!("{:?}", keyword[0].span()), format!("{:?}", node.keyword_span()));
}

#[test]
fn ident_type_default() {
    let node = parse2::<IdentTypeMaybeDefault>(&lex("foo: u8 = 1"), END).unwrap();
    assert_eq!(printed(&node.ident.tokens), "foo");
    assert_eq!(printed(&node.ty.tokens), "u8");
    assert_eq!(printed(&node.default.unwrap().tokens), "1");
}

#[test]
fn ident_type_no_default() {
    let node = parse2::<IdentTypeMaybeDefault>(&lex("foo: u8"), END).unwrap();
    assert_eq!(printed(&node.ident.tokens), "foo");
    assert_eq!(printed(&node.ty.tokens), "u8");
    assert!(node.default.is_none());
}

#[test]
fn ident_type_missing_type() {
    let error = parse2::<IdentTypeMaybeDefault>(&lex("foo:"), END).unwrap_err();
    assert_eq!(error.kind(), ErrorKind::MalformedItem);
    assert_eq!(error.span(), END);
}

#[test]
fn ident_type_missing_colon() {
    let error = parse2::<IdentTypeMaybeDefault>(&lex("foo u8"), END).unwrap_err();
    assert_eq!(error.kind(), ErrorKind::MissingPayload);
    assert_eq!(error.span(), Span { lo: 4, hi: 6 });
}

#[test]
fn ident_type_missing_ident() {
    let error = parse2::<IdentTypeMaybeDefault>(&lex(":u8"), END).unwrap_err();
    assert_eq!(error.kind(), ErrorKind::MalformedItem);
    assert_eq!(error.span(), Span { lo: 0, hi: 1 });
}

#[test]
fn ident_pat_type() {
    let node = parse2::<IdentPatType>(&lex("foo: u8"), END).unwrap();
    assert_eq!(printed(&node.ident.tokens), "foo");
    assert_eq!(printed(&node.ty.tokens), "u8");
}

#[test]
fn ident_pat_type_missing_ident() {
    let error = parse2::<IdentPatType>(&lex(": 3u8"), END).unwrap_err();
    assert_eq!(error.kind(), ErrorKind::MalformedItem);
}

#[test]
fn ident_pat_type_missing_ty() {
    let error = parse2::<IdentPatType>(&lex("foo:"), END).unwrap_err();
    assert_eq!(error.kind(), ErrorKind::MalformedItem);
}

#[test]
fn ident_pat_type_wrong_ty_type() {
    let error = parse2::<IdentPatType>(&lex("foo: 3u8"), END).unwrap_err();
    assert_eq!(error.kind(), ErrorKind::MalformedItem);
    assert_eq!(error.span(), Span { lo: 5, hi: 8 });
}

#[test]
fn meta_attr_list() {
    let node = parse2::<MetaAttrListTest>(&lex("(1u8, 2u8, 3u8)"), END).unwrap();
    assert_eq!(texts(&node.0), vec!["1u8", "2u8", "3u8"]);
}

#[test]
fn meta_attr_list_empty() {
    let node = parse2::<MetaAttrListTest>(&lex("()"), END).unwrap();
    assert!(node.0.is_empty());
}

#[test]
fn meta_attr_list_wrong_type() {
    let error = parse2::<MetaAttrListTest>(&lex("(i32)"), END).unwrap_err();
    assert_eq!(error.kind(), ErrorKind::MalformedItem);
}

#[test]
fn meta_attr_list_confused_as_list() {
    let error = parse2::<MetaAttrListTest>(&lex("wrong(i32)"), END).unwrap_err();
    assert_eq!(error.kind(), ErrorKind::MissingPayload);
    assert_eq!(error.span(), Span { lo: 0, hi: 5 });
}

#[test]
fn meta_attr_list_into_iter() {
    let expected = [
        proc_macro2::Literal::u8_suffixed(1).to_string(),
        proc_macro2::Literal::u8_suffixed(2).to_string(),
        proc_macro2::Literal::u8_suffixed(3).to_string(),
    ];
    let node = parse2::<MetaAttrListTest>(&lex("(1u8, 2u8, 3u8)"), END).unwrap();
    assert_eq!(expected, texts(&node.into_iter().collect::<Vec<_>>())[..]);
}
