use toylisp::lexer::{Lexer, State, Token};

fn scan(text: &str) -> Result<Vec<Token>, String> {
    let mut lexer = Lexer::new(text);
    lexer.scan().map(|tokens| tokens.to_vec())
}

fn sym(s: &str) -> Token {
    Token::Symbol(s.to_string())
}

fn num(s: &str) -> Token {
    Token::Number(s.to_string())
}

#[test]
fn a_call_lexes_to_its_tokens() {
    assert_eq!(
        scan("(+ 1 2)").unwrap(),
        vec![Token::OpenParen, sym("+"), num("1"), num("2"), Token::CloseParen]
    );
}

#[test]
fn nested_lists_keep_their_parentheses() {
    assert_eq!(
        scan("(def a (+ x 12))").unwrap(),
        vec![
            Token::OpenParen,
            sym("def"),
            sym("a"),
            Token::OpenParen,
            sym("+"),
            sym("x"),
            num("12"),
            Token::CloseParen,
            Token::CloseParen,
        ]
    );
}

#[test]
fn whitespace_alone_lexes_to_nothing() {
    assert_eq!(scan("").unwrap(), vec![]);
    assert_eq!(scan(" \t\r\n\x1f ").unwrap(), vec![]);
}

#[test]
fn comments_alone_lex_to_nothing() {
    assert_eq!(scan("; comment\n").unwrap(), vec![]);
    assert_eq!(scan("; one\n  ; two \"quoted\" (x)\n\t").unwrap(), vec![]);
    assert_eq!(scan("; never ended").unwrap(), vec![]);
}

#[test]
fn a_comment_ends_at_the_newline() {
    assert_eq!(
        scan("(a ; rest of line )\n b)").unwrap(),
        vec![Token::OpenParen, sym("a"), sym("b"), Token::CloseParen]
    );
}

#[test]
fn a_comment_flushes_the_word_before_it() {
    assert_eq!(scan("abc;x\n").unwrap(), vec![sym("abc")]);
    assert_eq!(scan("12;x\n").unwrap(), vec![num("12")]);
}

#[test]
fn a_word_at_the_end_of_input_is_not_emitted() {
    assert_eq!(scan("abc").unwrap(), vec![]);
    assert_eq!(scan("(a b").unwrap(), vec![Token::OpenParen, sym("a")]);
    assert_eq!(scan("42").unwrap(), vec![]);
}

#[test]
fn a_quote_followed_by_anything_is_not_implemented() {
    assert_eq!(scan("\"a\"").unwrap_err(), "scan_string not implemented");
    assert_eq!(scan("(def x \"s\")").unwrap_err(), "scan_string not implemented");
    assert_eq!(scan("abc\" ").unwrap_err(), "scan_string not implemented");
    assert_eq!(scan("12\"x").unwrap_err(), "scan_string not implemented");
}

#[test]
fn a_quote_as_the_last_character_is_never_looked_at_again() {
    assert_eq!(scan("\"").unwrap(), vec![]);
    assert_eq!(scan("abc\"").unwrap(), vec![sym("abc")]);
}

#[test]
fn an_illegal_character_names_state_character_and_code_point() {
    assert_eq!(scan("#").unwrap_err(), "invalid input in normal state: # (23)");
    assert_eq!(scan("(a b) {").unwrap_err(), "invalid input in normal state: { (7b)");
    assert_eq!(scan("ab#").unwrap_err(), "invalid input in symbol state: # (23)");
    assert_eq!(scan("12x").unwrap_err(), "invalid input in number state: x (78)");
    assert_eq!(scan("\u{e9}").unwrap_err(), "invalid input in normal state: \u{e9} (e9)");
    assert_eq!(scan("a\u{1f600}").unwrap_err(), "invalid input in symbol state: \u{1f600} (1f600)");
    assert_eq!(scan("\0").unwrap_err(), "invalid input in normal state: \0 (0)");
}

#[test]
fn the_first_illegal_character_wins() {
    assert_eq!(scan("(a # \"x\" }").unwrap_err(), "invalid input in normal state: # (23)");
}

#[test]
fn symbols_take_punctuation_and_digits() {
    assert_eq!(scan("a1 ").unwrap(), vec![sym("a1")]);
    assert_eq!(scan("+. ").unwrap(), vec![sym("+.")]);
    assert_eq!(scan("-5 ").unwrap(), vec![sym("-5")]);
    assert_eq!(scan("[x] ").unwrap(), vec![sym("[x]")]);
    assert_eq!(scan("a'b ").unwrap(), vec![sym("a'b")]);
    assert_eq!(scan("'q ").unwrap(), vec![sym("'q")]);
    assert_eq!(scan("&|^$!:?*/ ").unwrap(), vec![sym("&|^$!:?*/")]);
}

#[test]
fn numbers_take_signs_exponents_suffixes_and_the_point() {
    assert_eq!(scan("1.5e+10 ").unwrap(), vec![num("1.5e+10")]);
    assert_eq!(scan("7u 8i 9f 1E-2 ").unwrap(), vec![num("7u"), num("8i"), num("9f"), num("1E-2")]);
}

#[test]
fn a_parenthesis_ends_a_word_and_returns_to_the_normal_state() {
    assert_eq!(
        scan("(a)1 ").unwrap(),
        vec![Token::OpenParen, sym("a"), Token::CloseParen, num("1")]
    );
    assert_eq!(
        scan("(1)x ").unwrap(),
        vec![Token::OpenParen, num("1"), Token::CloseParen, sym("x")]
    );
    assert_eq!(
        scan("a(b)").unwrap(),
        vec![sym("a"), Token::OpenParen, sym("b"), Token::CloseParen]
    );
}

#[test]
fn the_empty_list_is_two_tokens() {
    assert_eq!(scan("()").unwrap(), vec![Token::OpenParen, Token::CloseParen]);
}

#[test]
fn a_new_lexer_is_in_the_normal_state_with_nothing_read() {
    let lexer = Lexer::new("(a)");
    assert_eq!(lexer.state(), State::Normal);
    assert_eq!(lexer.word(), "");
    assert!(lexer.tokens().is_empty());
}

#[test]
fn the_normal_state_starts_words_and_emits_parentheses() {
    let mut lexer = Lexer::new("");
    assert_eq!(lexer.scan_normal('('), Ok(Token::OpenParen));
    assert_eq!(lexer.state(), State::Normal);
    assert_eq!(lexer.scan_normal(' '), Ok(Token::Nil));
    assert_eq!(lexer.scan_normal('a'), Ok(Token::Nil));
    assert_eq!(lexer.state(), State::Symbol);
    assert_eq!(lexer.word(), "a");

    let mut lexer = Lexer::new("");
    assert_eq!(lexer.scan_normal('7'), Ok(Token::Nil));
    assert_eq!(lexer.state(), State::Number);
    assert_eq!(lexer.word(), "7");

    let mut lexer = Lexer::new("");
    assert_eq!(lexer.scan_normal(';'), Ok(Token::Nil));
    assert_eq!(lexer.state(), State::Comment);

    let mut lexer = Lexer::new("");
    assert_eq!(lexer.scan_normal('"'), Ok(Token::Nil));
    assert_eq!(lexer.state(), State::String);

    let mut lexer = Lexer::new("");
    assert_eq!(
        lexer.scan_normal('%'),
        Err("invalid input in normal state: % (25)".to_string())
    );
    assert_eq!(lexer.state(), State::Normal);
}

#[test]
fn the_symbol_state_accumulates_and_flushes() {
    let mut lexer = Lexer::new("");
    lexer.scan_normal('a').unwrap();
    assert_eq!(lexer.scan_symbol('b'), Ok(Token::Nil));
    assert_eq!(lexer.scan_symbol('9'), Ok(Token::Nil));
    assert_eq!(lexer.word(), "ab9");
    assert_eq!(lexer.scan_symbol(')'), Ok(Token::CloseParen));
    assert_eq!(lexer.word(), "");
    assert_eq!(lexer.state(), State::Normal);
    assert_eq!(lexer.tokens().to_vec(), vec![sym("ab9")]);
}

#[test]
fn the_number_state_accumulates_and_flushes() {
    let mut lexer = Lexer::new("");
    lexer.scan_normal('1').unwrap();
    assert_eq!(lexer.scan_number('.'), Ok(Token::Nil));
    assert_eq!(lexer.scan_number('5'), Ok(Token::Nil));
    assert_eq!(lexer.word(), "1.5");
    assert_eq!(lexer.scan_number(' '), Ok(Token::Nil));
    assert_eq!(lexer.state(), State::Normal);
    assert_eq!(lexer.tokens().to_vec(), vec![num("1.5")]);
    lexer.scan_normal('2').unwrap();
    assert_eq!(
        lexer.scan_number('x'),
        Err("invalid input in number state: x (78)".to_string())
    );
    assert_eq!(lexer.word(), "2");
}

#[test]
fn the_comment_state_ends_only_at_a_newline() {
    let mut lexer = Lexer::new("");
    lexer.scan_normal(';').unwrap();
    assert_eq!(lexer.scan_comment('x'), Ok(Token::Nil));
    assert_eq!(lexer.scan_comment('"'), Ok(Token::Nil));
    assert_eq!(lexer.state(), State::Comment);
    assert_eq!(lexer.scan_comment('\n'), Ok(Token::Nil));
    assert_eq!(lexer.state(), State::Normal);
}

#[test]
fn the_string_and_escape_states_refuse_everything() {
    let mut lexer = Lexer::new("");
    assert_eq!(lexer.scan_string('a'), Err("scan_string not implemented".to_string()));
    assert_eq!(lexer.scan_escape('a'), Err("scan_escape not implemented".to_string()));
}

#[test]
fn push_token_emits_the_word_once() {
    let mut lexer = Lexer::new("");
    lexer.push_token();
    assert!(lexer.tokens().is_empty());
    lexer.scan_normal('x').unwrap();
    lexer.scan_symbol('y').unwrap();
    lexer.push_token();
    assert_eq!(lexer.tokens().to_vec(), vec![sym("xy")]);
    assert_eq!(lexer.word(), "");
    lexer.push_token();
    assert_eq!(lexer.tokens().to_vec(), vec![sym("xy")]);
}

#[test]
fn scanning_again_reads_the_input_again() {
    let mut lexer = Lexer::new("(a) ");
    assert_eq!(lexer.scan().unwrap().len(), 3);
    assert_eq!(lexer.scan().unwrap().len(), 6);
}
