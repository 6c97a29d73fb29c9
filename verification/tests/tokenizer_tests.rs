use lutc::tokenizer::{tokenize, LexicalError, Token};

fn ok_tokens(src: &str) -> Vec<Token> {
    tokenize(src.to_string()).expect("tokenization should succeed")
}

#[test]
fn number_single() {
    assert_eq!(
        ok_tokens("123"),
        vec![Token::Number("123".to_string()), Token::EOF]
    );
}

#[test]
fn number_decimal() {
    assert_eq!(
        ok_tokens("12.5"),
        vec![Token::Number("12.5".to_string()), Token::EOF]
    );
}

#[test]
fn number_trailing_dot() {
    assert_eq!(
        ok_tokens("5."),
        vec![Token::Number("5.".to_string()), Token::EOF]
    );
}

#[test]
fn number_second_dot_is_fatal() {
    assert_eq!(
        tokenize("1.2.3".to_string()),
        Err(LexicalError::MalformedNumber)
    );
}

#[test]
fn whitespace_only_is_end_of_input() {
    assert_eq!(ok_tokens(" \t\r\n  "), vec![Token::EOF]);
}

#[test]
fn empty_input_is_end_of_input() {
    assert_eq!(ok_tokens(""), vec![Token::EOF]);
}

#[test]
fn shift_right_is_one_token() {
    assert_eq!(
        ok_tokens(">>"),
        vec![Token::BinaryOperator(">>".to_string()), Token::EOF]
    );
}

#[test]
fn shift_left_is_one_token() {
    assert_eq!(
        ok_tokens("<<"),
        vec![Token::BinaryOperator("<<".to_string()), Token::EOF]
    );
}

#[test]
fn lone_greater_than_fails_to_resolve() {
    assert_eq!(tokenize(">".to_string()), Err(LexicalError::UnknownSymbol));
}

#[test]
fn lone_less_than_fails_to_resolve() {
    assert_eq!(tokenize("<1".to_string()), Err(LexicalError::UnknownSymbol));
}

#[test]
fn escaped_quote_does_not_end_string() {
    assert_eq!(
        ok_tokens("\"a\\\"b\""),
        vec![Token::Str("a\\\"b".to_string()), Token::EOF]
    );
}

#[test]
fn plain_string_literal() {
    assert_eq!(
        ok_tokens("\"hello there\""),
        vec![Token::Str("hello there".to_string()), Token::EOF]
    );
}

#[test]
fn unterminated_string_is_fatal() {
    assert_eq!(
        tokenize("\"abc".to_string()),
        Err(LexicalError::UnterminatedString)
    );
}

#[test]
fn char_literal() {
    assert_eq!(
        ok_tokens("'a'"),
        vec![Token::Char("a".to_string()), Token::EOF]
    );
}

#[test]
fn char_literal_escape_pair() {
    assert_eq!(
        ok_tokens("'\\n'"),
        vec![Token::Char("\\n".to_string()), Token::EOF]
    );
}

#[test]
fn empty_char_literal_is_fatal() {
    assert_eq!(tokenize("''".to_string()), Err(LexicalError::MalformedChar));
}

#[test]
fn overlong_char_literal_is_fatal() {
    assert_eq!(
        tokenize("'ab'".to_string()),
        Err(LexicalError::MalformedChar)
    );
}

#[test]
fn unterminated_char_literal_is_fatal() {
    assert_eq!(
        tokenize("'a".to_string()),
        Err(LexicalError::UnterminatedChar)
    );
}

#[test]
fn keyword_let_is_mutable_declaration() {
    assert_eq!(
        ok_tokens("let"),
        vec![Token::VarDeclaration(false), Token::EOF]
    );
}

#[test]
fn keyword_const_is_constant_declaration() {
    assert_eq!(
        ok_tokens("const"),
        vec![Token::VarDeclaration(true), Token::EOF]
    );
}

#[test]
fn function_keyword_spellings() {
    for kw in ["fn", "fun", "func", "function"] {
        assert_eq!(
            ok_tokens(kw),
            vec![Token::FunctionDeclaration, Token::EOF],
            "spelling {kw}"
        );
    }
}

#[test]
fn function_keyword_matches_inside_word() {
    assert_eq!(ok_tokens("funny"), vec![Token::FunctionDeclaration, Token::EOF]);
}

#[test]
fn plain_identifier() {
    assert_eq!(
        ok_tokens("hello_2"),
        vec![Token::Ident("hello_2".to_string()), Token::EOF]
    );
}

#[test]
fn expression_tokens() {
    assert_eq!(
        ok_tokens("1+2*3"),
        vec![
            Token::Number("1".to_string()),
            Token::MathOperator('+'),
            Token::Number("2".to_string()),
            Token::MathOperator('*'),
            Token::Number("3".to_string()),
            Token::EOF,
        ]
    );
}

#[test]
fn parens_braces_dot() {
    assert_eq!(
        ok_tokens("(){}."),
        vec![
            Token::OpenParen,
            Token::ClosedParen,
            Token::OpenBrace,
            Token::ClosedBrace,
            Token::Dot,
            Token::EOF,
        ]
    );
}

#[test]
fn bitwise_operators() {
    assert_eq!(
        ok_tokens("~ ^ & |"),
        vec![
            Token::BinaryOperator("~".to_string()),
            Token::BinaryOperator("^".to_string()),
            Token::BinaryOperator("&".to_string()),
            Token::BinaryOperator("|".to_string()),
            Token::EOF,
        ]
    );
}

#[test]
fn unresolved_punctuation_is_fatal() {
    assert_eq!(tokenize(",".to_string()), Err(LexicalError::UnknownSymbol));
}

#[test]
fn unhandled_characters_are_skipped() {
    assert_eq!(ok_tokens("\u{1}\u{7}"), vec![Token::EOF]);
}

#[test]
fn token_tag_names() {
    assert_eq!(Token::Number("1".to_string()).to_str(), "Number");
    assert_eq!(Token::MathOperator('+').to_str(), "Math");
    assert_eq!(Token::BinaryOperator(">>".to_string()).to_str(), "Binary");
    assert_eq!(Token::Ident("x".to_string()).to_str(), "Ident");
    assert_eq!(Token::VarDeclaration(false).to_str(), "Var");
    assert_eq!(Token::FunctionDeclaration.to_str(), "Function");
    assert_eq!(Token::Str("s".to_string()).to_str(), "String");
    assert_eq!(Token::Char("c".to_string()).to_str(), "Char");
    assert_eq!(Token::OpenParen.to_str(), "(");
    assert_eq!(Token::ClosedParen.to_str(), ")");
    assert_eq!(Token::OpenBrace.to_str(), "{");
    assert_eq!(Token::ClosedBrace.to_str(), "}");
    assert_eq!(Token::Dot.to_str(), ".");
    assert_eq!(Token::EOF.to_str(), "EOF");
}
