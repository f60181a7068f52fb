use arithmetic::lexer::{classify_char, to_digit, CharClass, LexError, Lexer, LexerResult, Token};

fn chars(text: &str) -> Vec<char> {
    text.chars().collect()
}

#[test]
fn read_integer_works_on_empty() {
    let mut lexer = Lexer::new(vec![]);
    let received = lexer.read_integer(5);
    assert_eq!(5, received);
}

#[test]
fn read_integer_works_on_nonempty() {
    let mut lexer = Lexer::new(vec!['6', '7']);
    let received = lexer.read_integer(5);
    assert_eq!(567, received);
}

#[test]
fn read_all_tokens() {
    let it = vec!['1', '2', '3',
                  '+', ' ',
                  '-', ' ', ' ',
                  '4',
                  '*',
                  '/',
                  '(',
                  ')',
                  '5'];
    let expected = vec![Token::Integer(123),
                        Token::Plus,
                        Token::Minus,
                        Token::Integer(4),
                        Token::Times,
                        Token::Div,
                        Token::LeftParen,
                        Token::RightParen,
                        Token::Integer(5)];
    let mut lexer = Lexer::new(it);

    for token in expected {
        assert_eq!(LexerResult::Token(token), lexer.next_token());
    }
    assert_eq!(LexerResult::OutOfTokens, lexer.next_token());
}

#[test]
fn read_tokens_bad_character() {
    let mut lexer = Lexer::new(vec!['+', 'f', '-']);
    assert_eq!(LexerResult::Token(Token::Plus), lexer.next_token());
    assert_eq!(LexerResult::UnknownCharacter('f'), lexer.next_token());
    assert_eq!(LexerResult::Token(Token::Minus), lexer.next_token());
    assert_eq!(LexerResult::OutOfTokens, lexer.next_token());
}

#[test]
fn full_tokenization_is_ok() {
    let it = vec!['1', '2', '3',
                  '+', ' ',
                  '-', ' ', ' ',
                  '4',
                  '*',
                  '/',
                  '(',
                  ')',
                  '5'];
    let expected = vec![Token::Integer(123),
                        Token::Plus,
                        Token::Minus,
                        Token::Integer(4),
                        Token::Times,
                        Token::Div,
                        Token::LeftParen,
                        Token::RightParen,
                        Token::Integer(5)];
    assert_eq!(Result::Ok(expected),
               Lexer::tokenize(it));
}

#[test]
fn tokenizes_a_whole_expression() {
    let expected = vec![Token::Integer(123),
                        Token::Plus,
                        Token::Integer(4),
                        Token::Minus,
                        Token::LeftParen,
                        Token::Integer(5),
                        Token::Times,
                        Token::Integer(6),
                        Token::RightParen,
                        Token::Div,
                        Token::Integer(7)];
    assert_eq!(Ok(expected), Lexer::tokenize(chars("123+4-(5*6)/7")));
}

#[test]
fn empty_text_has_no_tokens() {
    assert_eq!(Ok(vec![]), Lexer::tokenize(vec![]));
}

#[test]
fn whitespace_alone_has_no_tokens() {
    assert_eq!(Ok(vec![]), Lexer::tokenize(chars(" \t\r\n \u{a0}\u{2003}")));
}

#[test]
fn whitespace_separates_numbers() {
    assert_eq!(Ok(vec![Token::Integer(1), Token::Integer(2)]),
               Lexer::tokenize(chars("1 2")));
    assert_eq!(Ok(vec![Token::Integer(12)]), Lexer::tokenize(chars("12")));
    assert_eq!(Ok(vec![Token::Integer(1), Token::Integer(2)]),
               Lexer::tokenize(chars("1\n2")));
}

#[test]
fn unknown_character_is_reported() {
    assert_eq!(Err(LexError::UnknownCharacter('f')), Lexer::tokenize(chars("+f-")));
    assert_eq!(Err(LexError::UnknownCharacter('x')), Lexer::tokenize(chars("12x")));
    assert_eq!(Err(LexError::UnknownCharacter('_')), Lexer::tokenize(chars(" _ ")));
}

#[test]
fn first_unknown_character_wins() {
    assert_eq!(Err(LexError::UnknownCharacter('a')), Lexer::tokenize(chars("1 + a * b")));
}

#[test]
fn only_ascii_digits_are_digits() {
    // ARABIC-INDIC DIGIT ONE is a digit to Unicode and none here.
    assert_eq!(Err(LexError::UnknownCharacter('\u{661}')), Lexer::tokenize(chars("\u{661}")));
    assert_eq!(None, to_digit('\u{661}'));
    assert_eq!(None, to_digit('a'));
    assert_eq!(None, to_digit('/'));
    assert_eq!(None, to_digit(':'));
    assert_eq!(Some(0), to_digit('0'));
    assert_eq!(Some(7), to_digit('7'));
    assert_eq!(Some(9), to_digit('9'));
}

#[test]
fn number_ends_before_the_first_other_character() {
    let mut lexer = Lexer::new(chars("67+8"));
    assert_eq!(567, lexer.read_integer(5));
    assert_eq!(Some('+'), lexer.next_char());
    assert_eq!(Some('8'), lexer.next_char());
    assert_eq!(None, lexer.next_char());
}

#[test]
fn largest_literal_is_kept() {
    assert_eq!(Ok(vec![Token::Integer(4294967295)]), Lexer::tokenize(chars("4294967295")));
}

#[test]
fn literal_wraps_at_32_bits() {
    assert_eq!(Ok(vec![Token::Integer(0)]), Lexer::tokenize(chars("4294967296")));
    assert_eq!(Ok(vec![Token::Integer(4)]), Lexer::tokenize(chars("4294967300")));
    // 99999999999 = 23 * 2^32 + 1215752191
    assert_eq!(Ok(vec![Token::Integer(1215752191)]), Lexer::tokenize(chars("99999999999")));
}

#[test]
fn leading_zeros_are_read() {
    assert_eq!(Ok(vec![Token::Integer(7)]), Lexer::tokenize(chars("007")));
}

#[test]
fn out_of_tokens_repeats() {
    let mut lexer = Lexer::new(chars("  "));
    assert_eq!(LexerResult::OutOfTokens, lexer.next_token());
    assert_eq!(LexerResult::OutOfTokens, lexer.next_token());
}

#[test]
fn characters_are_classified() {
    assert_eq!(CharClass::Symbol(Token::Plus), classify_char('+', false));
    assert_eq!(CharClass::Symbol(Token::Minus), classify_char('-', false));
    assert_eq!(CharClass::Symbol(Token::Times), classify_char('*', false));
    assert_eq!(CharClass::Symbol(Token::Div), classify_char('/', false));
    assert_eq!(CharClass::Symbol(Token::LeftParen), classify_char('(', false));
    assert_eq!(CharClass::Symbol(Token::RightParen), classify_char(')', false));
    assert_eq!(CharClass::Digit(0), classify_char('0', false));
    assert_eq!(CharClass::Digit(9), classify_char('9', false));
    assert_eq!(CharClass::Whitespace, classify_char(' ', true));
    assert_eq!(CharClass::Unknown, classify_char('f', false));
    assert_eq!(CharClass::Unknown, classify_char('.', false));
}
