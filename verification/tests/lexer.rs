use frontend::lexer::{tokenize, Lexer};
use frontend::token::{lookup_ident, Token, TokenType};

fn kinds_and_texts(input: &str) -> Vec<(TokenType, String)> {
    tokenize(input.to_string()).into_iter().map(|t| (t.typo, t.literal)).collect()
}

fn tok(kind: TokenType, text: &str) -> (TokenType, String) {
    (kind, text.to_string())
}

#[test]
fn lex() {
    let input = r#"+,"#;

    let l = input.to_string();
    let mut lexer = Lexer::new(l);
    let tokens = vec![(TokenType::Plus, "+"), (TokenType::Comma, ",")];

    for (expected_type, expected_literal) in &tokens {
        let tok = lexer.next_token();
        assert_eq!(tok.typo, *expected_type, "{}", expected_literal);
        assert_eq!(tok.literal, *expected_literal);
    }
}

#[test]
fn plus_comma_then_end_of_input() {
    assert_eq!(
        kinds_and_texts("+,"),
        vec![tok(TokenType::Plus, "+"), tok(TokenType::Comma, ","), tok(TokenType::EOF, "\0")]
    );
}

#[test]
fn punctuation_follows_the_table() {
    assert_eq!(
        kinds_and_texts("+(){},;"),
        vec![
            tok(TokenType::Plus, "+"),
            tok(TokenType::Lparen, "("),
            tok(TokenType::Rparen, ")"),
            tok(TokenType::Lbrace, "{"),
            tok(TokenType::Rbrace, "}"),
            tok(TokenType::Comma, ","),
            tok(TokenType::SemiColon, ";"),
            tok(TokenType::EOF, "\0"),
        ]
    );
}

#[test]
fn punctuation_only_input_ends_with_one_end_of_input_token() {
    let tokens = tokenize(";;++".to_string());
    assert_eq!(tokens.len(), 5);
    let ends = tokens.iter().filter(|t| t.typo == TokenType::EOF).count();
    assert_eq!(ends, 1);
    assert_eq!(tokens[4].typo, TokenType::EOF);
}

#[test]
fn end_of_input_is_returned_again_and_again() {
    let mut lexer = Lexer::new("+".to_string());
    assert_eq!(lexer.next_token(), Token::new(TokenType::Plus, "+".to_string()));
    for _ in 0..4 {
        assert_eq!(lexer.next_token(), Token::new(TokenType::EOF, "\0".to_string()));
    }
}

#[test]
fn empty_input_is_end_of_input() {
    assert_eq!(kinds_and_texts(""), vec![tok(TokenType::EOF, "\0")]);
    assert_eq!(kinds_and_texts(" \t\r\n"), vec![tok(TokenType::EOF, "\0")]);
}

#[test]
fn identifier_run_is_one_token() {
    assert_eq!(
        kinds_and_texts("foobar"),
        vec![tok(TokenType::Ident, "foobar"), tok(TokenType::EOF, "\0")]
    );
}

#[test]
fn identifier_may_hold_digits_and_underscores() {
    assert_eq!(
        kinds_and_texts("_x1_y2 Z"),
        vec![
            tok(TokenType::Ident, "_x1_y2"),
            tok(TokenType::Ident, "Z"),
            tok(TokenType::EOF, "\0"),
        ]
    );
}

#[test]
fn digits_then_letters_are_two_tokens() {
    assert_eq!(
        kinds_and_texts("12ab"),
        vec![tok(TokenType::Int, "12"), tok(TokenType::Ident, "ab"), tok(TokenType::EOF, "\0")]
    );
}

#[test]
fn digit_run_is_one_token() {
    assert_eq!(
        kinds_and_texts("838383"),
        vec![tok(TokenType::Int, "838383"), tok(TokenType::EOF, "\0")]
    );
}

#[test]
fn keywords_are_resolved() {
    assert_eq!(
        kinds_and_texts("let fn lets fnx le"),
        vec![
            tok(TokenType::Let, "let"),
            tok(TokenType::Function, "fn"),
            tok(TokenType::Ident, "lets"),
            tok(TokenType::Ident, "fnx"),
            tok(TokenType::Ident, "le"),
            tok(TokenType::EOF, "\0"),
        ]
    );
}

#[test]
fn keyword_table_lookup() {
    assert_eq!(lookup_ident(&"let".to_string()), TokenType::Let);
    assert_eq!(lookup_ident(&"fn".to_string()), TokenType::Function);
    assert_eq!(lookup_ident(&"Let".to_string()), TokenType::Ident);
    assert_eq!(lookup_ident(&"".to_string()), TokenType::Ident);
}

#[test]
fn assign_and_equal_are_told_apart() {
    assert_eq!(
        kinds_and_texts("= == === = ="),
        vec![
            tok(TokenType::Assign, "="),
            tok(TokenType::Equal, "=="),
            tok(TokenType::Equal, "=="),
            tok(TokenType::Assign, "="),
            tok(TokenType::Assign, "="),
            tok(TokenType::Assign, "="),
            tok(TokenType::EOF, "\0"),
        ]
    );
}

#[test]
fn not_equal_and_lone_bang() {
    assert_eq!(
        kinds_and_texts("!= ! !=="),
        vec![
            tok(TokenType::NotEq, "!="),
            tok(TokenType::Illegal, "!"),
            tok(TokenType::NotEq, "!="),
            tok(TokenType::Assign, "="),
            tok(TokenType::EOF, "\0"),
        ]
    );
}

#[test]
fn unknown_characters_are_illegal_tokens() {
    assert_eq!(
        kinds_and_texts("@ a#b \u{e9}"),
        vec![
            tok(TokenType::Illegal, "@"),
            tok(TokenType::Ident, "a"),
            tok(TokenType::Illegal, "#"),
            tok(TokenType::Ident, "b"),
            tok(TokenType::Illegal, "\u{e9}"),
            tok(TokenType::EOF, "\0"),
        ]
    );
}

#[test]
fn whitespace_separates_and_is_dropped() {
    assert_eq!(
        kinds_and_texts(" \tlet\r\n x\n=\t5 ;  "),
        vec![
            tok(TokenType::Let, "let"),
            tok(TokenType::Ident, "x"),
            tok(TokenType::Assign, "="),
            tok(TokenType::Int, "5"),
            tok(TokenType::SemiColon, ";"),
            tok(TokenType::EOF, "\0"),
        ]
    );
}

#[test]
fn function_shaped_text() {
    assert_eq!(
        kinds_and_texts("fn(x, y) { x + y }"),
        vec![
            tok(TokenType::Function, "fn"),
            tok(TokenType::Lparen, "("),
            tok(TokenType::Ident, "x"),
            tok(TokenType::Comma, ","),
            tok(TokenType::Ident, "y"),
            tok(TokenType::Rparen, ")"),
            tok(TokenType::Lbrace, "{"),
            tok(TokenType::Ident, "x"),
            tok(TokenType::Plus, "+"),
            tok(TokenType::Ident, "y"),
            tok(TokenType::Rbrace, "}"),
            tok(TokenType::EOF, "\0"),
        ]
    );
}

#[test]
fn nul_in_the_text_is_an_end_of_input_token() {
    assert_eq!(
        kinds_and_texts("a\0b"),
        vec![tok(TokenType::Ident, "a"), tok(TokenType::EOF, "\0")]
    );
    let mut lexer = Lexer::new("a\0b".to_string());
    assert_eq!(lexer.next_token().typo, TokenType::Ident);
    assert_eq!(lexer.next_token().typo, TokenType::EOF);
    assert_eq!(lexer.next_token(), Token::new(TokenType::Ident, "b".to_string()));
    assert_eq!(lexer.next_token().typo, TokenType::EOF);
    assert_eq!(lexer.next_token().typo, TokenType::EOF);
}

#[test]
fn token_clone_and_equality() {
    let a = Token::new(TokenType::Ident, "x".to_string());
    let b = a.clone();
    assert_eq!(a, b);
    assert_ne!(a, Token::new(TokenType::Ident, "y".to_string()));
    assert_ne!(a, Token::new(TokenType::Int, "x".to_string()));
    assert_eq!(b.typo, TokenType::Ident);
    assert_eq!(b.literal, "x");
}
