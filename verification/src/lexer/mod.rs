//! Lexical analysis: characters to tokens.

use crate::common::text::{decimal_nat, push_decimal};
use crate::common::PushbackIterator;
use vstd::prelude::*;

verus! {

/// An indivisible lexical unit.
#[derive(Debug, Clone, Copy, PartialEq, Eq, Hash, Structural)]
pub enum Token {
    Integer(u32),
    Plus,
    Minus,
    Times,
    Div,
    LeftParen,
    RightParen,
}

/// Why a text could not be split into tokens.
#[derive(Debug, Clone, Copy, PartialEq, Eq, Structural)]
pub enum LexError {
    /// The character is neither whitespace, nor a digit, nor an operator or
    /// parenthesis.
    UnknownCharacter(char),
}

/// The outcome of reading one token.
#[derive(Debug, Clone, Copy, PartialEq, Eq, Structural)]
pub enum LexerResult {
    Token(Token),
    UnknownCharacter(char),
    OutOfTokens,
}

/// Whether `c` has the Unicode property `White_Space`, as
/// `char::is_whitespace` of the standard library reports it.
pub uninterp spec fn is_whitespace(c: char) -> bool;

/// The token that a single operator or parenthesis character stands for.
pub open spec fn symbol(c: char) -> Option<Token> {
    if c == '+' {
        Some(Token::Plus)
    } else if c == '-' {
        Some(Token::Minus)
    } else if c == '*' {
        Some(Token::Times)
    } else if c == '/' {
        Some(Token::Div)
    } else if c == '(' {
        Some(Token::LeftParen)
    } else if c == ')' {
        Some(Token::RightParen)
    } else {
        None
    }
}

/// The value of a decimal digit, for the characters `0` to `9`.
pub open spec fn digit_value(c: char) -> Option<u32> {
    if '0' <= c && c <= '9' {
        Some((c as u32 - '0' as u32) as u32)
    } else {
        None
    }
}

/// One step of reading a decimal number: `value * 10 + digit`, reduced
/// modulo 2^32.
pub open spec fn accumulate(value: u32, digit: u32) -> u32 {
    ((value * 10 + digit) % 0x1_0000_0000) as u32
}

/// Reads the digits at the front of `s` into `value`. Gives the number read
/// and the characters after its last digit.
pub open spec fn scan_integer(value: u32, s: Seq<char>) -> (u32, Seq<char>)
    decreases s.len(),
{
    if s.len() > 0 && digit_value(s[0]) is Some {
        scan_integer(accumulate(value, digit_value(s[0])->0), s.skip(1))
    } else {
        (value, s)
    }
}

/// What one character means to the lexer.
#[derive(Debug, Clone, Copy, PartialEq, Eq, Structural)]
pub enum CharClass {
    /// An operator or a parenthesis: a token by itself.
    Symbol(Token),
    /// A decimal digit, with its value: the start of a number.
    Digit(u32),
    /// Whitespace, which stands between tokens.
    Whitespace,
    /// Anything else.
    Unknown,
}

/// The class of `c`, where `whitespace` says whether `c` is whitespace.
/// Operators, parentheses and digits are told by the character alone.
pub open spec fn classify(c: char, whitespace: bool) -> CharClass {
    if symbol(c) is Some {
        CharClass::Symbol(symbol(c)->0)
    } else if digit_value(c) is Some {
        CharClass::Digit(digit_value(c)->0)
    } else if whitespace {
        CharClass::Whitespace
    } else {
        CharClass::Unknown
    }
}

/// Reads one token from the front of `s`. Gives the outcome and the
/// characters that are left.
///
/// Operators and parentheses are single characters, whitespace before a
/// token is skipped, and a digit starts a number that runs as far as digits
/// follow. An unknown character is consumed and reported.
pub open spec fn next_token(s: Seq<char>) -> (LexerResult, Seq<char>)
    decreases s.len(),
{
    if s.len() == 0 {
        (LexerResult::OutOfTokens, s)
    } else {
        match classify(s[0], is_whitespace(s[0])) {
            CharClass::Symbol(token) => (LexerResult::Token(token), s.skip(1)),
            CharClass::Digit(digit) => {
                let (value, rest) = scan_integer(digit, s.skip(1));
                (LexerResult::Token(Token::Integer(value)), rest)
            },
            CharClass::Whitespace => next_token(s.skip(1)),
            CharClass::Unknown => (LexerResult::UnknownCharacter(s[0]), s.skip(1)),
        }
    }
}

/// `tokens` put in front of the tokens of a successful `rest`; a failure
/// stays as it is.
pub open spec fn prefixed(tokens: Seq<Token>, rest: Result<Seq<Token>, LexError>) -> Result<
    Seq<Token>,
    LexError,
> {
    match rest {
        Ok(more) => Ok(tokens + more),
        Err(error) => Err(error),
    }
}

/// The tokens of the text `s`, or the first unknown character in it.
pub open spec fn tokens_of(s: Seq<char>) -> Result<Seq<Token>, LexError>
    decreases s.len(),
    via tokens_of_terminates
{
    match next_token(s) {
        (LexerResult::Token(token), rest) => prefixed(seq![token], tokens_of(rest)),
        (LexerResult::UnknownCharacter(c), _) => Err(LexError::UnknownCharacter(c)),
        (LexerResult::OutOfTokens, _) => Ok(Seq::empty()),
    }
}

#[via_fn]
proof fn tokens_of_terminates(s: Seq<char>) {
    lemma_next_token_consumes(s);
}

/// Reading a number leaves a suffix of the text.
pub proof fn lemma_scan_integer_suffix(value: u32, s: Seq<char>)
    ensures
        scan_integer(value, s).1.len() <= s.len(),
        scan_integer(value, s).1 == s.skip(s.len() - scan_integer(value, s).1.len()),
        scan_integer(value, s).1.len() > 0 ==> digit_value(scan_integer(value, s).1[0]) is None,
    decreases s.len(),
{
    if s.len() > 0 && digit_value(s[0]) is Some {
        let tail = s.skip(1);
        let next = accumulate(value, digit_value(s[0])->0);
        lemma_scan_integer_suffix(next, tail);
        let rest = scan_integer(next, tail).1;
        assert(tail.skip(tail.len() - rest.len()) =~= s.skip(s.len() - rest.len()));
    } else {
        assert(s.skip(0) =~= s);
    }
}

/// Reading a token leaves a suffix of the text, and a shorter one unless the
/// text ran out.
pub proof fn lemma_next_token_consumes(s: Seq<char>)
    ensures
        next_token(s).1.len() <= s.len(),
        next_token(s).1 == s.skip(s.len() - next_token(s).1.len()),
        !(next_token(s).0 is OutOfTokens) ==> next_token(s).1.len() < s.len(),
        next_token(s).0 is OutOfTokens ==> next_token(s).1.len() == 0,
    decreases s.len(),
{
    if s.len() == 0 {
        assert(s.skip(0) =~= s);
    } else {
        let tail = s.skip(1);
        match classify(s[0], is_whitespace(s[0])) {
            CharClass::Symbol(_) => {},
            CharClass::Digit(digit) => {
                lemma_scan_integer_suffix(digit, tail);
                let rest = scan_integer(digit, tail).1;
                assert(tail.skip(tail.len() - rest.len()) =~= s.skip(s.len() - rest.len()));
            },
            CharClass::Whitespace => {
                lemma_next_token_consumes(tail);
                let rest = next_token(tail).1;
                assert(tail.skip(tail.len() - rest.len()) =~= s.skip(s.len() - rest.len()));
            },
            CharClass::Unknown => {},
        }
    }
}

/// Whether the lexer knows what to do with `c`: it is an operator, a
/// parenthesis, a digit or whitespace.
pub open spec fn known(c: char) -> bool {
    !(classify(c, is_whitespace(c)) is Unknown)
}

/// Every character that reading a number takes is a digit.
pub proof fn lemma_scan_integer_takes_digits(value: u32, s: Seq<char>)
    ensures
        forall|i: int|
            0 <= i < s.len() - scan_integer(value, s).1.len() ==> digit_value(#[trigger] s[i])
                is Some,
    decreases s.len(),
{
    if s.len() > 0 && digit_value(s[0]) is Some {
        let tail = s.skip(1);
        let next = accumulate(value, digit_value(s[0])->0);
        lemma_scan_integer_takes_digits(next, tail);
        lemma_scan_integer_suffix(next, tail);
        assert forall|i: int| 0 <= i < s.len() - scan_integer(value, s).1.len() implies digit_value(
            #[trigger] s[i],
        ) is Some by {
            if i > 0 {
                assert(s[i] == tail[i - 1]);
            }
        }
    }
}

/// Reading a token takes known characters only, but for an unknown
/// character that it reports: that one is the last character taken.
pub proof fn lemma_next_token_takes_known(s: Seq<char>)
    ensures
        ({
            let taken = s.len() - next_token(s).1.len();
            match next_token(s).0 {
                LexerResult::UnknownCharacter(c) => {
                    &&& 1 <= taken <= s.len()
                    &&& s[taken - 1] == c
                    &&& !known(c)
                    &&& forall|i: int| 0 <= i < taken - 1 ==> known(#[trigger] s[i])
                },
                _ => forall|i: int| 0 <= i < taken ==> known(#[trigger] s[i]),
            }
        }),
    decreases s.len(),
{
    lemma_next_token_consumes(s);
    if s.len() > 0 {
        let tail = s.skip(1);
        match classify(s[0], is_whitespace(s[0])) {
            CharClass::Symbol(_) => {},
            CharClass::Digit(digit) => {
                lemma_scan_integer_takes_digits(digit, tail);
                let taken = s.len() - next_token(s).1.len();
                assert forall|i: int| 0 <= i < taken implies known(#[trigger] s[i]) by {
                    if i > 0 {
                        assert(s[i] == tail[i - 1]);
                    }
                }
            },
            CharClass::Whitespace => {
                lemma_next_token_takes_known(tail);
                lemma_next_token_consumes(tail);
                let taken = s.len() - next_token(s).1.len();
                assert forall|i: int|
                    0 <= i < taken && !(i == taken - 1 && next_token(s).0
                        is UnknownCharacter) implies known(#[trigger] s[i]) by {
                    if i > 0 {
                        assert(s[i] == tail[i - 1]);
                    }
                }
                if next_token(s).0 is UnknownCharacter {
                    assert(s[taken - 1] == tail[taken - 2]);
                }
            },
            CharClass::Unknown => {},
        }
    }
}

/// A text has tokens exactly if each of its characters is known.
/// Otherwise the error names the first character that is not.
pub proof fn lemma_tokens_of_known_text(s: Seq<char>)
    ensures
        tokens_of(s) is Ok <==> forall|i: int| 0 <= i < s.len() ==> known(#[trigger] s[i]),
        tokens_of(s) is Err ==> exists|k: int|
            {
                &&& 0 <= k < s.len()
                &&& tokens_of(s) == Err::<Seq<Token>, LexError>(
                    LexError::UnknownCharacter(#[trigger] s[k]),
                )
                &&& !known(s[k])
                &&& forall|i: int| 0 <= i < k ==> known(#[trigger] s[i])
            },
    decreases s.len(),
{
    lemma_next_token_consumes(s);
    lemma_next_token_takes_known(s);
    let rest = next_token(s).1;
    let taken = s.len() - rest.len();
    match next_token(s).0 {
        LexerResult::Token(_) => {
            lemma_tokens_of_known_text(rest);
            assert forall|i: int| 0 <= i < rest.len() implies #[trigger] rest[i] == s[taken + i] by {}
            if tokens_of(rest) is Ok {
                assert forall|i: int| 0 <= i < s.len() implies known(#[trigger] s[i]) by {
                    if i >= taken {
                        assert(s[i] == rest[i - taken]);
                    }
                }
            } else {
                let k = choose|k: int|
                    {
                        &&& 0 <= k < rest.len()
                        &&& tokens_of(rest) == Err::<Seq<Token>, LexError>(
                            LexError::UnknownCharacter(#[trigger] rest[k]),
                        )
                        &&& !known(rest[k])
                        &&& forall|i: int| 0 <= i < k ==> known(#[trigger] rest[i])
                    };
                assert(s[taken + k] == rest[k]);
                assert forall|i: int| 0 <= i < taken + k implies known(#[trigger] s[i]) by {
                    if i >= taken {
                        assert(s[i] == rest[i - taken]);
                    }
                }
            }
        },
        LexerResult::UnknownCharacter(c) => {
            assert(s[taken - 1] == c);
        },
        LexerResult::OutOfTokens => {},
    }
}

/// A text has at most as many tokens as characters.
pub proof fn lemma_tokens_of_length(s: Seq<char>)
    ensures
        tokens_of(s) is Ok ==> tokens_of(s)->Ok_0.len() <= s.len(),
    decreases s.len(),
{
    lemma_next_token_consumes(s);
    if next_token(s).0 is Token {
        lemma_tokens_of_length(next_token(s).1);
    }
}

/// The standard library's `char::is_whitespace`: reports whether `c` has
/// the Unicode property `White_Space`. The result depends on `c` alone and
/// is known here only by its name, `is_whitespace`.
#[verifier::external_body]
fn char_is_whitespace(c: char) -> (result: bool)
    ensures
        result == is_whitespace(c),
{
    c.is_whitespace()
}

/// The value of `c` as a decimal digit, if it is one.
pub fn to_digit(c: char) -> (result: Option<u32>)
    ensures
        result == digit_value(c),
{
    if c >= '0' && c <= '9' {
        Some(c as u32 - '0' as u32)
    } else {
        None
    }
}

/// The class of `c`, given in `whitespace` whether it is whitespace.
pub fn classify_char(c: char, whitespace: bool) -> (result: CharClass)
    ensures
        result == classify(c, whitespace),
{
    match c {
        '+' => CharClass::Symbol(Token::Plus),
        '-' => CharClass::Symbol(Token::Minus),
        '*' => CharClass::Symbol(Token::Times),
        '/' => CharClass::Symbol(Token::Div),
        '(' => CharClass::Symbol(Token::LeftParen),
        ')' => CharClass::Symbol(Token::RightParen),
        other => match to_digit(other) {
            Some(d) => CharClass::Digit(d),
            None => if whitespace {
                CharClass::Whitespace
            } else {
                CharClass::Unknown
            },
        },
    }
}

/// A reader of tokens from a text.
pub struct Lexer {
    around: PushbackIterator<char>,
}

impl View for Lexer {
    type V = Seq<char>;

    /// The characters that were not read yet.
    closed spec fn view(&self) -> Seq<char> {
        self.around@
    }
}

impl Lexer {
    /// Splits the text `input` into its tokens, or reports the first
    /// character that belongs to none.
    pub fn tokenize(input: Vec<char>) -> (result: Result<Vec<Token>, LexError>)
        ensures
            match result {
                Ok(tokens) => tokens_of(input@) == Ok::<Seq<Token>, LexError>(tokens@),
                Err(error) => tokens_of(input@) == Err::<Seq<Token>, LexError>(error),
            },
    {
        let ghost text = input@;
        let mut lexer = Lexer::new(input);
        let mut tokens: Vec<Token> = Vec::new();

        loop
            invariant
                text == input@,
                tokens_of(text) == prefixed(tokens@, tokens_of(lexer@)),
            decreases lexer@.len(),
        {
            proof {
                lemma_next_token_consumes(lexer@);
            }
            let ghost before = tokens@;
            match lexer.next_token() {
                LexerResult::Token(token) => {
                    tokens.push(token);
                    proof {
                        let rest = tokens_of(lexer@);
                        if let Ok(more) = rest {
                            assert(before + (seq![token] + more) =~= tokens@ + more);
                        }
                    }
                },
                LexerResult::UnknownCharacter(c) => {
                    return Err(LexError::UnknownCharacter(c));
                },
                LexerResult::OutOfTokens => {
                    assert(tokens@ + Seq::<Token>::empty() =~= tokens@);
                    return Ok(tokens);
                },
            }
        }
    }

    /// A lexer that has all of `input` before it.
    pub fn new(input: Vec<char>) -> (result: Lexer)
        ensures
            result@ == input@,
    {
        Lexer { around: PushbackIterator::new(input) }
    }

    /// Takes the next character, if any is left.
    pub fn next_char(&mut self) -> (result: Option<char>)
        ensures
            old(self)@.len() == 0 ==> result is None && final(self)@ == old(self)@,
            old(self)@.len() > 0 ==> result == Some(old(self)@[0]) && final(self)@ == old(
                self,
            )@.skip(1),
    {
        self.around.next()
    }

    /// Reads the rest of a decimal number whose digits so far have the
    /// value `start_digit`. Stops before the first character that is no
    /// digit, which stays unread. The value wraps modulo 2^32.
    pub fn read_integer(&mut self, start_digit: u32) -> (result: u32)
        ensures
            result == scan_integer(start_digit, old(self)@).0,
            final(self)@ == scan_integer(start_digit, old(self)@).1,
    {
        let ghost text = self@;
        let mut result: u32 = start_digit;

        loop
            invariant
                text == old(self)@,
                scan_integer(result, self@) == scan_integer(start_digit, text),
            decreases self@.len(),
        {
            let ghost before = self@;
            match self.next_char() {
                Some(c) => {
                    match to_digit(c) {
                        Some(d) => {
                            result = result.wrapping_mul(10).wrapping_add(d);
                        },
                        None => {
                            self.around.push(c);
                            assert(self@ =~= before);
                            return result;
                        },
                    }
                },
                None => {
                    return result;
                },
            }
        }
    }

    /// Reads the next token, skipping whitespace before it.
    pub fn next_token(&mut self) -> (result: LexerResult)
        ensures
            result == next_token(old(self)@).0,
            final(self)@ == next_token(old(self)@).1,
    {
        let ghost text = self@;
        loop
            invariant
                text == old(self)@,
                next_token(self@) == next_token(text),
            decreases self@.len(),
        {
            match self.next_char() {
                Some(c) => {
                    let whitespace = char_is_whitespace(c);
                    match classify_char(c, whitespace) {
                        CharClass::Symbol(token) => return LexerResult::Token(token),
                        CharClass::Digit(d) => return LexerResult::Token(
                            Token::Integer(self.read_integer(d)),
                        ),
                        CharClass::Whitespace => {},
                        CharClass::Unknown => return LexerResult::UnknownCharacter(c),
                    }
                },
                None => return LexerResult::OutOfTokens,
            }
        }
    }
}

/// A token written out: its name, and for an integer its value in
/// parentheses after it.
pub open spec fn token_text(token: Token) -> Seq<char> {
    match token {
        Token::Integer(value) => "Integer("@ + decimal_nat(value as nat) + ")"@,
        Token::Plus => "Plus"@,
        Token::Minus => "Minus"@,
        Token::Times => "Times"@,
        Token::Div => "Div"@,
        Token::LeftParen => "LeftParen"@,
        Token::RightParen => "RightParen"@,
    }
}

/// The message of a lexical error.
pub open spec fn lex_error_text(error: LexError) -> Seq<char> {
    match error {
        LexError::UnknownCharacter(c) => "Unknown character: "@.push(c),
    }
}

/// Appends `token`, written out, to `text`.
pub fn push_token(text: &mut String, token: &Token)
    ensures
        final(text)@ == old(text)@ + token_text(*token),
{
    match token {
        Token::Integer(value) => {
            text.append("Integer(");
            push_decimal(text, *value as u64);
            text.append(")");
            assert(text@ =~= old(text)@ + token_text(*token));
        },
        Token::Plus => text.append("Plus"),
        Token::Minus => text.append("Minus"),
        Token::Times => text.append("Times"),
        Token::Div => text.append("Div"),
        Token::LeftParen => text.append("LeftParen"),
        Token::RightParen => text.append("RightParen"),
    }
}

impl Token {
    /// The token written out, as in `Integer(12)` or `Plus`.
    pub fn to_string(&self) -> (result: String)
        ensures
            result@ == token_text(*self),
    {
        let mut text = String::new();
        push_token(&mut text, self);
        assert(text@ =~= token_text(*self));
        text
    }
}

impl LexError {
    /// The message of the error.
    pub fn to_string(&self) -> (result: String)
        ensures
            result@ == lex_error_text(*self),
    {
        match self {
            LexError::UnknownCharacter(c) => {
                let mut text = String::from_str("Unknown character: ");
                text.push(*c);
                text
            },
        }
    }
}

} // verus!
