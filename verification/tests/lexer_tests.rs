use expr_lexer::lexical_analyzer::Lexer;
use expr_lexer::token::{LexError, Token};

#[test]
fn test_empty_token() {
    let text = String::from("");
    let mut lexer = Lexer::new(&text);
    assert_eq!(lexer.get_next_token().unwrap(), Token::EOF);
}

#[test]
fn test_integer_token() {
    let text = String::from("2137");
    let mut lexer = Lexer::new(&text);
    assert_eq!(lexer.get_next_token().unwrap(), Token::INTEGER(2137));
}

#[test]
fn test_non_integer_token() {
    let text = String::from("+");
    let mut lexer = Lexer::new(&text);
    assert_eq!(lexer.get_next_token().unwrap(), Token::PLUS);
}

#[test]
fn test_token_does_not_exist() {
    let text = String::from("&");
    let mut lexer = Lexer::new(&text);
    assert_eq!(lexer.get_next_token(), Err(LexError::InvalidCharacter));
}

fn tokens_of(text: &str) -> Vec<Token> {
    let owned = String::from(text);
    let mut lexer = Lexer::new(&owned);
    let mut tokens = Vec::new();
    loop {
        let token = lexer.get_next_token().unwrap();
        tokens.push(token);
        if token == Token::EOF {
            return tokens;
        }
    }
}

#[test]
fn test_expression_sequence() {
    assert_eq!(
        tokens_of("12 + 34 * (5 - 6)"),
        vec![
            Token::INTEGER(12),
            Token::PLUS,
            Token::INTEGER(34),
            Token::MUL,
            Token::LPAREN,
            Token::INTEGER(5),
            Token::MINUS,
            Token::INTEGER(6),
            Token::RPAREN,
            Token::EOF,
        ]
    );
}

#[test]
fn test_leading_zeros_and_pow() {
    assert_eq!(
        tokens_of("007^2"),
        vec![Token::INTEGER(7), Token::POW, Token::INTEGER(2), Token::EOF]
    );
}

#[test]
fn test_each_symbol_then_eof() {
    let cases = [
        ("+", Token::PLUS),
        ("-", Token::MINUS),
        ("*", Token::MUL),
        ("/", Token::DIV),
        ("^", Token::POW),
        ("(", Token::LPAREN),
        (")", Token::RPAREN),
    ];
    for (text, expected) in cases {
        assert_eq!(tokens_of(text), vec![expected, Token::EOF]);
    }
}

#[test]
fn test_whitespace_only_inputs() {
    for text in ["", " ", " \t\r\n", "\u{b}\u{c}", "\u{85}\u{a0}", "    "] {
        let owned = String::from(text);
        let mut lexer = Lexer::new(&owned);
        assert_eq!(lexer.get_next_token(), Ok(Token::EOF));
        assert_eq!(lexer.get_next_token(), Ok(Token::EOF));
    }
}

#[test]
fn test_eof_is_idempotent() {
    let text = String::from("1+2");
    let mut lexer = Lexer::new(&text);
    assert_eq!(lexer.get_next_token(), Ok(Token::INTEGER(1)));
    assert_eq!(lexer.get_next_token(), Ok(Token::PLUS));
    assert_eq!(lexer.get_next_token(), Ok(Token::INTEGER(2)));
    for _ in 0..5 {
        assert_eq!(lexer.get_next_token(), Ok(Token::EOF));
    }
}

#[test]
fn test_invalid_characters_fail() {
    for text in ["&", "a", "%", "=", "!", ".", "\u{e9}", "\u{2000}"] {
        let owned = String::from(text);
        let mut lexer = Lexer::new(&owned);
        assert_eq!(lexer.get_next_token(), Err(LexError::InvalidCharacter));
    }
}

#[test]
fn test_invalid_character_is_not_consumed() {
    let text = String::from("1 & 2");
    let mut lexer = Lexer::new(&text);
    assert_eq!(lexer.get_next_token(), Ok(Token::INTEGER(1)));
    assert_eq!(lexer.get_next_token(), Err(LexError::InvalidCharacter));
    assert_eq!(lexer.get_next_token(), Err(LexError::InvalidCharacter));
}

#[test]
fn test_integer_at_i32_max() {
    assert_eq!(
        tokens_of("2147483647"),
        vec![Token::INTEGER(2147483647), Token::EOF]
    );
}

#[test]
fn test_integer_overflow() {
    for text in ["2147483648", "99999999999999999999"] {
        let owned = String::from(text);
        let mut lexer = Lexer::new(&owned);
        assert_eq!(lexer.get_next_token(), Err(LexError::NumericOverflow));
    }
}

#[test]
fn test_overflow_consumes_whole_run() {
    let text = String::from("99999999999+1");
    let mut lexer = Lexer::new(&text);
    assert_eq!(lexer.get_next_token(), Err(LexError::NumericOverflow));
    assert_eq!(lexer.get_next_token(), Ok(Token::PLUS));
    assert_eq!(lexer.get_next_token(), Ok(Token::INTEGER(1)));
    assert_eq!(lexer.get_next_token(), Ok(Token::EOF));
}

#[test]
fn test_minus_then_integer() {
    assert_eq!(
        tokens_of("-5"),
        vec![Token::MINUS, Token::INTEGER(5), Token::EOF]
    );
}

#[test]
fn test_adjacent_runs_split_by_symbols() {
    assert_eq!(
        tokens_of("1+20/300"),
        vec![
            Token::INTEGER(1),
            Token::PLUS,
            Token::INTEGER(20),
            Token::DIV,
            Token::INTEGER(300),
            Token::EOF,
        ]
    );
}

#[test]
fn test_zero_token() {
    assert_eq!(tokens_of("0"), vec![Token::INTEGER(0), Token::EOF]);
}
