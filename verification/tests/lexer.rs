use minilisp::error::LexError;
use minilisp::lexer::Lexer;
use minilisp::token::Token;

fn tokens(text: &[u8]) -> Result<Vec<Token>, LexError> {
    let mut lexer = Lexer::new(text);
    let mut found = Vec::new();
    while let Some(token) = lexer.make_token()? {
        found.push(token);
    }
    Ok(found)
}

#[test]
fn every_kind_of_token_is_read() {
    assert_eq!(
        tokens(b"( ) [ ] : @ \"two words\" plus 42"),
        Ok(vec![
            Token::LeftParen,
            Token::RightParen,
            Token::LeftSquare,
            Token::RightSquare,
            Token::Colon,
            Token::At,
            Token::StringLit(b"two words".to_vec()),
            Token::Ident(b"plus".to_vec()),
            Token::Number(42),
        ])
    );
}

#[test]
fn tokens_need_no_blank_between_them() {
    assert_eq!(
        tokens(b"(:f@x[1\"s\"])"),
        Ok(vec![
            Token::LeftParen,
            Token::Colon,
            Token::Ident(b"f".to_vec()),
            Token::At,
            Token::Ident(b"x".to_vec()),
            Token::LeftSquare,
            Token::Number(1),
            Token::StringLit(b"s".to_vec()),
            Token::RightSquare,
            Token::RightParen,
        ])
    );
}

#[test]
fn spaces_tabs_and_line_feeds_are_skipped() {
    assert_eq!(
        tokens(b" \t\n a \n\t b\n"),
        Ok(vec![Token::Ident(b"a".to_vec()), Token::Ident(b"b".to_vec())])
    );
}

#[test]
fn the_end_of_the_input_is_no_token() {
    let mut lexer = Lexer::new(b"");
    assert_eq!(lexer.make_token(), Ok(None));
    assert_eq!(lexer.position(), 0);
    let mut lexer = Lexer::new(b"x  \n");
    assert_eq!(lexer.make_token(), Ok(Some(Token::Ident(b"x".to_vec()))));
    assert_eq!(lexer.position(), 1);
    assert_eq!(lexer.make_token(), Ok(None));
    assert_eq!(lexer.position(), 4);
    assert_eq!(lexer.make_token(), Ok(None));
    assert_eq!(lexer.position(), 4);
}

#[test]
fn the_lexer_stands_behind_each_token() {
    let mut lexer = Lexer::new(b"  (ab \"c\" 007)");
    assert_eq!(lexer.position(), 0);
    assert_eq!(lexer.make_token(), Ok(Some(Token::LeftParen)));
    assert_eq!(lexer.position(), 3);
    assert_eq!(lexer.make_token(), Ok(Some(Token::Ident(b"ab".to_vec()))));
    assert_eq!(lexer.position(), 5);
    assert_eq!(lexer.make_token(), Ok(Some(Token::StringLit(b"c".to_vec()))));
    assert_eq!(lexer.position(), 9);
    assert_eq!(lexer.make_token(), Ok(Some(Token::Number(7))));
    assert_eq!(lexer.position(), 13);
    assert_eq!(lexer.make_token(), Ok(Some(Token::RightParen)));
    assert_eq!(lexer.position(), 14);
}

#[test]
fn a_number_is_the_longest_run_of_digits() {
    assert_eq!(
        tokens(b"12ab 3"),
        Ok(vec![Token::Number(12), Token::Ident(b"ab".to_vec()), Token::Number(3)])
    );
    assert_eq!(tokens(b"0"), Ok(vec![Token::Number(0)]));
    assert_eq!(tokens(b"0000123"), Ok(vec![Token::Number(123)]));
}

#[test]
fn an_identifier_is_a_letter_and_the_longest_run_of_letters_and_digits() {
    assert_eq!(tokens(b"ab12"), Ok(vec![Token::Ident(b"ab12".to_vec())]));
    assert_eq!(tokens(b"Zz9"), Ok(vec![Token::Ident(b"Zz9".to_vec())]));
    assert_eq!(tokens(b"x"), Ok(vec![Token::Ident(b"x".to_vec())]));
}

#[test]
fn a_string_holds_its_bytes_as_they_are() {
    assert_eq!(tokens(b"\"\""), Ok(vec![Token::StringLit(Vec::new())]));
    assert_eq!(tokens(b"\"a\\n(b) #\""), Ok(vec![Token::StringLit(b"a\\n(b) #".to_vec())]));
    assert_eq!(tokens(b"\"\xff\n\""), Ok(vec![Token::StringLit(b"\xff\n".to_vec())]));
    assert_eq!(
        tokens(b"\"a\"\"b\""),
        Ok(vec![Token::StringLit(b"a".to_vec()), Token::StringLit(b"b".to_vec())])
    );
}

#[test]
fn a_byte_that_starts_no_token_is_refused() {
    assert_eq!(tokens(b"#"), Err(LexError::UnexpectedByte));
    assert_eq!(tokens(b"-5"), Err(LexError::UnexpectedByte));
    assert_eq!(tokens(b"a_b"), Err(LexError::UnexpectedByte));
    assert_eq!(tokens(b"a\rb"), Err(LexError::UnexpectedByte));
    assert_eq!(tokens(b"\xc3\xa9"), Err(LexError::UnexpectedByte));
    let mut lexer = Lexer::new(b"ab  +c");
    assert_eq!(lexer.make_token(), Ok(Some(Token::Ident(b"ab".to_vec()))));
    assert_eq!(lexer.make_token(), Err(LexError::UnexpectedByte));
    assert_eq!(lexer.position(), 4);
    assert_eq!(lexer.make_token(), Err(LexError::UnexpectedByte));
}

#[test]
fn a_string_without_its_closing_quote_is_refused() {
    assert_eq!(tokens(b"\""), Err(LexError::UnterminatedString));
    assert_eq!(tokens(b"(f \"abc)"), Err(LexError::UnterminatedString));
    let mut lexer = Lexer::new(b" \"abc");
    assert_eq!(lexer.make_token(), Err(LexError::UnterminatedString));
    assert_eq!(lexer.position(), 1);
}

#[test]
fn a_number_beyond_the_integer_type_is_no_token() {
    assert_eq!(tokens(b"2147483647"), Ok(vec![Token::Number(2147483647)]));
    assert_eq!(tokens(b"2147483648"), Err(LexError::NumberTooLarge));
    assert_eq!(tokens(b"99999999999999999999999999"), Err(LexError::NumberTooLarge));
    assert_eq!(tokens(b"00000000000000000000000002147483647"), Ok(vec![Token::Number(2147483647)]));
    let mut lexer = Lexer::new(b"  4294967296 1");
    assert_eq!(lexer.make_token(), Err(LexError::NumberTooLarge));
    assert_eq!(lexer.position(), 2);
}
