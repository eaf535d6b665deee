use typeparse::error::ParseError;
use typeparse::parsing::{parse_type, parse_value, preparse};
use typeparse::token::{Token, TokenKind};
use typeparse::token_tree::{TokenTree, TreeBuilder};
use typeparse::tokenizing::tokenize;

fn shape(t: &TokenTree) -> String {
    let text = t.get_val().clone().get_text();
    if t.get_children().is_empty() {
        text
    } else {
        let kids: Vec<String> = t.get_children().iter().map(shape).collect();
        format!("({} {})", text, kids.join(" "))
    }
}

fn type_tree(src: &str) -> TokenTree {
    let mut builder = TreeBuilder::new();
    let mut tokens = tokenize(src.to_string()).unwrap();
    tokens.reverse();
    parse_type(&mut builder, tokens).unwrap();
    builder.build()
}

fn type_error(src: &str) -> ParseError {
    let mut builder = TreeBuilder::new();
    let mut tokens = tokenize(src.to_string()).unwrap();
    tokens.reverse();
    parse_type(&mut builder, tokens).unwrap_err()
}

#[test]
fn parsing_unit_tests() {
    let mut builder = TreeBuilder::new();
    let mut tokens = tokenize("(d + a * c) * b + a * c * d -> b + d * c".to_string()).unwrap();
    tokens.reverse();
    assert!(parse_type(&mut builder, tokens).is_ok());
    println!("{}", builder.render());

    let mut builder = TreeBuilder::new();
    let mut tokens = tokenize("A (a * c)".to_string()).unwrap();
    tokens.reverse();
    assert!(parse_type(&mut builder, tokens).is_ok());
    println!("{}", builder.render());

    let mut builder = TreeBuilder::new();
    let mut tokens = tokenize("a -> b -> c".to_string()).unwrap();
    tokens.reverse();
    assert!(parse_type(&mut builder, tokens).is_ok());
    println!("{}", builder.render());

    let mut builder = TreeBuilder::new();
    let mut tokens = tokenize("a * b * c".to_string()).unwrap();
    tokens.reverse();
    assert!(parse_type(&mut builder, tokens).is_ok());
    println!("{}", builder.render());

    let mut builder = TreeBuilder::new();
    let mut tokens = tokenize("(A B C) + C".to_string()).unwrap();
    tokens.reverse();
    assert!(parse_type(&mut builder, tokens).is_ok());
    println!("{}", builder.render());

    let mut builder = TreeBuilder::new();
    let mut tokens = tokenize("A B (A + C)".to_string()).unwrap();
    tokens.reverse();
    assert!(parse_type(&mut builder, tokens).is_ok());
    println!("{}", builder.render());
}

#[test]
fn mixed_precedence_shape() {
    assert_eq!(
        shape(&type_tree("(d + a * c) * b + a * c * d -> b + d * c")),
        "(-> (+ (* (+ d (* a c)) b) (* (* a c) d)) (+ b (* d c)))"
    );
    assert_eq!(shape(&type_tree("A (a * c)")), "(<- A (* a c))");
}

#[test]
fn product_is_left_associative() {
    assert_eq!(shape(&type_tree("a * b * c")), "(* (* a b) c)");
}

#[test]
fn arrow_is_right_associative() {
    assert_eq!(shape(&type_tree("a -> b -> c")), "(-> a (-> b c))");
}

#[test]
fn juxtaposition_is_application() {
    assert_eq!(shape(&type_tree("A B (A + C)")), "(<- (<- A B) (+ A C))");
}

#[test]
fn brackets_are_transparent() {
    let alone = type_tree("A B C");
    let nested = type_tree("(A B C) + C");
    assert_eq!(nested.get_val().get_kind(), TokenKind::Sum);
    assert_eq!(shape(&nested.get_children()[0]), shape(&alone));
    assert_eq!(shape(&nested), "(+ (<- (<- A B) C) C)");
}

#[test]
fn lone_atoms_are_leaves() {
    let t = type_tree("  Nat  ");
    assert_eq!(shape(&t), "Nat");
    assert_eq!(t.get_val().get_kind(), TokenKind::Name);
    for src in ["42", "/hello world/", "x"] {
        let mut builder = TreeBuilder::new();
        let mut tokens = tokenize(src.to_string()).unwrap();
        tokens.reverse();
        parse_value(&mut builder, tokens).unwrap();
        let t = builder.build();
        assert!(t.get_children().is_empty());
    }
}

#[test]
fn application_insertion_is_idempotent() {
    let mut tokens = tokenize("f x (g y) @ . !".to_string()).unwrap();
    tokens.reverse();
    let once = preparse(tokens);
    let twice = preparse(once.clone());
    assert_eq!(once, twice);
    let kinds: Vec<TokenKind> = once.iter().map(|t| t.get_kind()).collect();
    assert_eq!(kinds.iter().filter(|k| **k == TokenKind::Application).count(), 6);
}

#[test]
fn preparse_inserts_between_leaves_only() {
    let tokens = vec![
        Token::new("a".to_string(), TokenKind::Name),
        Token::new("b".to_string(), TokenKind::Name),
        Token::new("*".to_string(), TokenKind::Prod),
        Token::new("c".to_string(), TokenKind::Name),
    ];
    let out = preparse(tokens);
    let texts: Vec<String> = out.into_iter().map(|t| t.get_text()).collect();
    assert_eq!(texts, vec!["a", "<-", "b", "*", "c"]);
}

#[test]
fn type_grammar_refuses_tuple() {
    let mut builder = TreeBuilder::new();
    let mut tokens = tokenize("a , b".to_string()).unwrap();
    tokens.reverse();
    assert_eq!(parse_type(&mut builder, tokens), Err(ParseError::GrammarMembership));
    let mut builder = TreeBuilder::new();
    let mut tokens = tokenize("a , b".to_string()).unwrap();
    tokens.reverse();
    assert!(parse_value(&mut builder, tokens).is_ok());
    assert_eq!(shape(&builder.build()), "(, a b)");
}

#[test]
fn value_grammar_refuses_declarations() {
    let mut builder = TreeBuilder::new();
    let mut tokens = tokenize("a = b".to_string()).unwrap();
    tokens.reverse();
    assert_eq!(parse_value(&mut builder, tokens), Err(ParseError::GrammarMembership));
}

#[test]
fn incomparable_tokens_are_refused() {
    assert_eq!(type_error(") a"), ParseError::Precedence);
}

#[test]
fn open_bracket_left_over_is_unexpected() {
    assert_eq!(type_error("( a"), ParseError::UnexpectedToken);
}

#[test]
fn missing_operand_is_arity_error() {
    assert_eq!(type_error("a *"), ParseError::Arity);
    assert_eq!(type_error(""), ParseError::Arity);
}

#[test]
fn render_draws_indented_tree() {
    let mut builder = TreeBuilder::new();
    let mut tokens = tokenize("a * b".to_string()).unwrap();
    tokens.reverse();
    parse_type(&mut builder, tokens).unwrap();
    assert_eq!(builder.render(), "`- *\n   |- a\n   `- b\n");
}

#[test]
fn builder_context_operations() {
    let mut b = TreeBuilder::new();
    b.push(Token::new(":".to_string(), TokenKind::Type));
    b.push_one(Token::new("x".to_string(), TokenKind::Name));
    b.push(Token::new("=".to_string(), TokenKind::Eq));
    assert_eq!(b.get(1).get_kind(), TokenKind::Eq);
    assert_eq!(b.get(2).get_kind(), TokenKind::Type);
    b.pop();
    b.pop();
    b.pop();
    assert_eq!(b.get(1).get_kind(), TokenKind::Type);
    let b = b.pipe_push_one(Token::new("y".to_string(), TokenKind::Name));
    assert_eq!(shape(&b.build()), "(: x = y)");
    let b = TreeBuilder::new()
        .pipe_push(Token::new("*".to_string(), TokenKind::Prod))
        .pipe_push_one(Token::new("p".to_string(), TokenKind::Name))
        .pipe_pop();
    assert_eq!(b.render(), "`- *\n   `- p\n");
}

#[test]
fn token_tree_collects_children() {
    let mut t = TokenTree::new(Token::new("+".to_string(), TokenKind::Sum));
    t.add_child(TokenTree::new(Token::new("a".to_string(), TokenKind::Name)));
    t.add_child(TokenTree::new(Token::new("b".to_string(), TokenKind::Name)));
    assert_eq!(shape(&t), "(+ a b)");
}
