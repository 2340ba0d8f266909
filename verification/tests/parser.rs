use toylisp::lexer::Token;
use toylisp::parser::{parse, parse_number, Node};

fn sym(s: &str) -> Token {
    Token::Symbol(s.to_string())
}

fn num(s: &str) -> Token {
    Token::Number(s.to_string())
}

fn nsym(s: &str) -> Node {
    Node::Symbol(s.to_string())
}

#[test]
fn a_call_parses_to_a_list() {
    let tokens = vec![Token::OpenParen, sym("+"), num("1"), num("2"), Token::CloseParen];
    assert_eq!(
        parse(&tokens),
        Ok(Node::List(vec![nsym("+"), Node::IntLiteral(1), Node::IntLiteral(2)]))
    );
}

#[test]
fn the_empty_list_parses_to_a_list_without_members() {
    let tokens = vec![Token::OpenParen, Token::CloseParen];
    assert_eq!(parse(&tokens), Ok(Node::List(vec![])));
}

#[test]
fn nesting_is_kept() {
    let tokens = vec![
        Token::OpenParen,
        sym("a"),
        Token::OpenParen,
        sym("b"),
        Token::OpenParen,
        Token::CloseParen,
        num("7"),
        Token::CloseParen,
        sym("c"),
        Token::CloseParen,
    ];
    assert_eq!(
        parse(&tokens),
        Ok(Node::List(vec![
            nsym("a"),
            Node::List(vec![nsym("b"), Node::List(vec![]), Node::IntLiteral(7)]),
            nsym("c"),
        ]))
    );
}

#[test]
fn no_tokens_are_an_unexpected_end() {
    assert_eq!(parse(&[]), Err("unexpected end of input".to_string()));
}

#[test]
fn a_list_without_its_closing_parenthesis_runs_out_of_tokens() {
    let tokens = vec![Token::OpenParen, sym("a")];
    assert_eq!(parse(&tokens), Err("unexpected end of input".to_string()));
    let tokens = vec![Token::OpenParen, Token::OpenParen, Token::CloseParen];
    assert_eq!(parse(&tokens), Err("unexpected end of input".to_string()));
}

#[test]
fn an_atom_is_a_form_by_itself() {
    assert_eq!(parse(&[sym("x")]), Ok(nsym("x")));
    assert_eq!(parse(&[num("42")]), Ok(Node::IntLiteral(42)));
}

#[test]
fn tokens_after_the_first_form_are_ignored() {
    let tokens = vec![sym("x"), Token::CloseParen, num("bad")];
    assert_eq!(parse(&tokens), Ok(nsym("x")));
    let tokens = vec![Token::OpenParen, Token::CloseParen, Token::OpenParen];
    assert_eq!(parse(&tokens), Ok(Node::List(vec![])));
}

#[test]
fn other_tokens_make_nothing() {
    assert_eq!(parse(&[Token::CloseParen]), Ok(Node::Nothing));
    assert_eq!(parse(&[Token::Nil]), Ok(Node::Nothing));
    assert_eq!(parse(&[Token::String("s".to_string())]), Ok(Node::Nothing));
    let tokens = vec![Token::OpenParen, Token::String("s".to_string()), Token::CloseParen];
    assert_eq!(parse(&tokens), Ok(Node::List(vec![Node::Nothing])));
}

#[test]
fn nil_markers_inside_a_list_are_skipped() {
    let tokens = vec![Token::OpenParen, Token::Nil, sym("a"), Token::Nil, Token::CloseParen];
    assert_eq!(parse(&tokens), Ok(Node::List(vec![nsym("a")])));
}

#[test]
fn integers_come_before_floats() {
    assert_eq!(parse_number("3"), Ok(Node::IntLiteral(3)));
    assert_eq!(parse_number("3.0"), Ok(Node::FloatLiteral("3.0".to_string())));
    assert_eq!(parse_number("-17"), Ok(Node::IntLiteral(-17)));
    assert_eq!(parse_number("+17"), Ok(Node::IntLiteral(17)));
    assert_eq!(parse_number("007"), Ok(Node::IntLiteral(7)));
    assert_eq!(parse_number("9223372036854775807"), Ok(Node::IntLiteral(i64::MAX)));
    assert_eq!(parse_number("-9223372036854775808"), Ok(Node::IntLiteral(i64::MIN)));
}

#[test]
fn an_integer_that_does_not_fit_is_a_float() {
    assert_eq!(
        parse_number("9223372036854775808"),
        Ok(Node::FloatLiteral("9223372036854775808".to_string()))
    );
    assert_eq!(
        parse_number("-9223372036854775809"),
        Ok(Node::FloatLiteral("-9223372036854775809".to_string()))
    );
}

#[test]
fn float_literals_keep_their_text() {
    for text in ["1.5", "1e10", "1.5E-3", ".5", "5.", "inf", "-Infinity", "NaN", "1.e2"] {
        let node = parse_number(text).unwrap();
        assert_eq!(node, Node::FloatLiteral(text.to_string()));
        if let Node::FloatLiteral(t) = node {
            assert!(t.parse::<f64>().is_ok());
        }
    }
}

#[test]
fn a_text_that_is_no_number_is_reported() {
    assert_eq!(parse_number("1e"), Err("couldn't parse number: 1e".to_string()));
    assert_eq!(parse_number("7u"), Err("couldn't parse number: 7u".to_string()));
    assert_eq!(parse_number(""), Err("couldn't parse number: ".to_string()));
    assert_eq!(parse_number("1.2.3"), Err("couldn't parse number: 1.2.3".to_string()));
    let tokens = vec![Token::OpenParen, sym("+"), num("1-2"), Token::CloseParen];
    assert_eq!(parse(&tokens), Err("couldn't parse number: 1-2".to_string()));
}

#[test]
fn nodes_are_written_with_their_tags() {
    assert_eq!(Node::Nothing.to_string(), "Nothing");
    assert_eq!(Node::IntLiteral(-5).to_string(), "IntLiteral(-5)");
    assert_eq!(Node::IntLiteral(i64::MIN).to_string(), "IntLiteral(-9223372036854775808)");
    assert_eq!(Node::BoolLiteral(true).to_string(), "BoolLiteral(true)");
    assert_eq!(Node::BoolLiteral(false).to_string(), "BoolLiteral(false)");
    assert_eq!(Node::FloatLiteral("2.5".to_string()).to_string(), "FloatLiteral(2.5)");
    assert_eq!(Node::StringLiteral("hi".to_string()).to_string(), "StringLiteral(hi)");
    assert_eq!(nsym("x").to_string(), "Symbol(x)");
    assert_eq!(Node::List(vec![]).to_string(), "List([])");
    assert_eq!(
        Node::List(vec![nsym("+"), Node::IntLiteral(1), Node::List(vec![Node::IntLiteral(20)])])
            .to_string(),
        "List([Symbol(+), IntLiteral(1), List([IntLiteral(20)])])"
    );
    assert_eq!(Node::Funcall(vec![nsym("f")]).to_string(), "Funcall([Symbol(f)])");
}
