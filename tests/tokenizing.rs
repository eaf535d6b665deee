use typeparse::error::ParseError;
use typeparse::token::{Token, TokenDir, TokenKind};
use typeparse::tokenizing::tokenize;

fn pairs(src: &str) -> Vec<(String, TokenKind)> {
    tokenize(src.to_string())
        .unwrap()
        .into_iter()
        .map(|t: Token| {
            let k = t.get_kind();
            (t.get_text(), k)
        })
        .collect()
}

fn p(text: &str, kind: TokenKind) -> (String, TokenKind) {
    (text.to_string(), kind)
}

#[test]
fn tokenizing_unit_tests() {
    println!("{:?}", tokenize("123/test/".to_string()));
    println!("{:?}", tokenize("$List: @ -> @ = A ~> Nil . + Cons A * List A;".to_string()));
    println!("{:?}", tokenize("123#*this is comment*#/this is string literal/".to_string()));
    println!("{:?}", tokenize("".to_string()));
    println!("{:?}", tokenize("true * false".to_string()))
}

#[test]
fn literal_after_integer() {
    assert_eq!(
        pairs("123/test/"),
        vec![p("123", TokenKind::Int), p("test", TokenKind::StringLiteral)]
    );
}

#[test]
fn declaration_symbols() {
    assert_eq!(
        pairs("$List: @ -> @ = A ~> Nil . + Cons A * List A;"),
        vec![
            p("$", TokenKind::Let),
            p("List", TokenKind::Name),
            p(":", TokenKind::Type),
            p("@", TokenKind::Universe),
            p("->", TokenKind::Function),
            p("@", TokenKind::Universe),
            p("=", TokenKind::Eq),
            p("A", TokenKind::Name),
            p("~>", TokenKind::Lambda),
            p("Nil", TokenKind::Name),
            p(".", TokenKind::Top),
            p("+", TokenKind::Sum),
            p("Cons", TokenKind::Name),
            p("A", TokenKind::Name),
            p("*", TokenKind::Prod),
            p("List", TokenKind::Name),
            p("A", TokenKind::Name),
            p(";", TokenKind::LetEnd),
        ]
    );
}

#[test]
fn comment_becomes_space() {
    assert_eq!(
        pairs("123#*this is comment*#/this is string literal/"),
        vec![p("123", TokenKind::Int), p("this is string literal", TokenKind::StringLiteral)]
    );
    assert_eq!(pairs("a#*x*#b"), vec![p("a", TokenKind::Name), p("b", TokenKind::Name)]);
}

#[test]
fn empty_text_has_no_tokens() {
    assert_eq!(pairs(""), vec![]);
    assert_eq!(pairs(" \t\n "), vec![]);
}

#[test]
fn words_and_operator() {
    assert_eq!(
        pairs("true * false"),
        vec![p("true", TokenKind::Name), p("*", TokenKind::Prod), p("false", TokenKind::Name)]
    );
}

#[test]
fn symbols_split_words() {
    assert_eq!(
        pairs("f(x)->[y]{z}|w,v!'"),
        vec![
            p("f", TokenKind::Name),
            p("(", TokenKind::OpenBracket),
            p("x", TokenKind::Name),
            p(")", TokenKind::CloseBracket),
            p("->", TokenKind::Function),
            p("[", TokenKind::OpenSquear),
            p("y", TokenKind::Name),
            p("]", TokenKind::CloseSquear),
            p("{", TokenKind::OpenCurly),
            p("z", TokenKind::Name),
            p("}", TokenKind::CloseCurly),
            p("|", TokenKind::Cases),
            p("w", TokenKind::Name),
            p(",", TokenKind::Tuple),
            p("v", TokenKind::Name),
            p("!", TokenKind::Bottom),
            p("'", TokenKind::Name),
        ]
    );
}

#[test]
fn keywords_and_integers() {
    assert_eq!(
        pairs("load lib -5 2147483647 2147483648 -2147483648 12a a-b"),
        vec![
            p("load", TokenKind::Load),
            p("lib", TokenKind::Name),
            p("-5", TokenKind::Int),
            p("2147483647", TokenKind::Int),
            p("2147483648", TokenKind::Name),
            p("-2147483648", TokenKind::Int),
            p("12a", TokenKind::Name),
            p("a-b", TokenKind::Name),
        ]
    );
    let first = pairs("include x")[0].clone();
    assert_eq!(first.1, TokenKind::Include);
}

#[test]
fn string_literal_keeps_text_verbatim() {
    assert_eq!(
        pairs("/ a * b /x//"),
        vec![
            p(" a * b ", TokenKind::StringLiteral),
            p("x", TokenKind::Name),
            p("", TokenKind::StringLiteral)
        ]
    );
}

#[test]
fn odd_delimiters_are_unterminated() {
    assert_eq!(tokenize("a /b".to_string()), Err(ParseError::UnterminatedString));
    assert_eq!(tokenize("/a/ /b/ /".to_string()), Err(ParseError::UnterminatedString));
}

#[test]
fn unbalanced_comments_are_malformed() {
    assert_eq!(tokenize("a #* b".to_string()), Err(ParseError::MalformedComment));
    assert_eq!(tokenize("a *# b".to_string()), Err(ParseError::MalformedComment));
    assert_eq!(tokenize("#* a #* b *#".to_string()), Err(ParseError::MalformedComment));
}

#[test]
fn kind_tables() {
    assert_eq!(TokenKind::Prod.get_prior(), 8);
    assert_eq!(TokenKind::Prod.get_weight(), 7);
    assert_eq!(TokenKind::Lambda.nary_operation(), 2);
    assert_eq!(TokenKind::OpenBracket.nary_operation(), -1);
    assert_eq!(TokenKind::Eq.get_prior(), -1);
    assert_eq!(TokenKind::OpenBracket.next_step(), Some(TokenKind::CloseBracket));
    assert_eq!(TokenKind::Sum.next_step(), None);
    assert!(TokenKind::Name.allow_in_type());
    assert!(!TokenKind::Int.allow_in_type());
    assert!(TokenKind::Int.allow_in_value());
    assert!(!TokenKind::Load.allow_in_value());
    assert!(TokenKind::is_applicate(TokenKind::Name, TokenKind::OpenBracket) == false);
    assert!(TokenKind::is_applicate(TokenKind::OpenBracket, TokenKind::CloseBracket));
}

#[test]
fn relation_between_kinds() {
    assert_eq!(TokenKind::OpenBracket.compare(TokenKind::CloseBracket), Ok(TokenDir::Pair));
    assert_eq!(TokenKind::Prod.compare(TokenKind::Prod), Ok(TokenDir::Down));
    assert_eq!(TokenKind::Function.compare(TokenKind::Function), Ok(TokenDir::Stay));
    assert_eq!(TokenKind::Sum.compare(TokenKind::Name), Ok(TokenDir::Forward));
    assert_eq!(TokenKind::CloseBracket.compare(TokenKind::Name), Err(ParseError::Precedence));
    assert_eq!(TokenKind::Sum.compare(TokenKind::Eq), Err(ParseError::Precedence));
}
