//! The lexer.
//!
//! The lexer reads the source text one token at a time. What the next token
//! is, and how many characters it spans, is a function of the text that is
//! left and of nothing else: [`next_token`]. The executable [`Lexer`] computes
//! that function.
//!
//! A `-` directly in front of a digit is part of the number that follows: the
//! text `a -5` is an identifier and the literal `-5`, and `a - 5` is an
//! identifier, a minus sign and the literal `5`.
//!
//! A string literal stands between two double quotes and holds every
//! character between them as it is: there is no escape, and so no string
//! with a double quote in it.

use crate::symbol_table::Type;
use vstd::prelude::*;

verus! {

/// Whether `c` is alphabetic, as `char::is_alphabetic` tells.
pub uninterp spec fn is_alphabetic(c: char) -> bool;

/// Whether `c` is alphabetic or numeric, as `char::is_alphanumeric` tells.
pub uninterp spec fn is_alphanumeric(c: char) -> bool;

/// Whether `c` is white space, as `char::is_whitespace` tells.
pub uninterp spec fn is_whitespace(c: char) -> bool;

/// `char::is_alphabetic` decides by the character alone; its answer is given
/// the name [`is_alphabetic`] and nothing more is claimed of it.
pub assume_specification[ char::is_alphabetic ](c: char) -> (b: bool)
    ensures
        b == is_alphabetic(c),
;

/// `char::is_alphanumeric` decides by the character alone; its answer is
/// given the name [`is_alphanumeric`] and nothing more is claimed of it.
pub assume_specification[ char::is_alphanumeric ](c: char) -> (b: bool)
    ensures
        b == is_alphanumeric(c),
;

/// `char::is_whitespace` decides by the character alone; its answer is given
/// the name [`is_whitespace`] and nothing more is claimed of it.
pub assume_specification[ char::is_whitespace ](c: char) -> (b: bool)
    ensures
        b == is_whitespace(c),
;

/// `String::push` appends the character to the end of the string.
pub assume_specification[ std::string::String::push ](s: &mut std::string::String, c: char)
    ensures
        final(s)@ == old(s)@.push(c),
;

/// A token.
#[derive(Debug, PartialEq)]
pub enum Token {
    Class,
    Func,
    Var,
    Identifier(String),
    Number(i64),
    /// A floating-point literal, as its text: an optional `-`, digits, `.`,
    /// digits.
    Float(String),
    /// A string literal: the characters between its quotes.
    StringLiteral(String),
    /// One of the type names `int`, `float`, `string`, `bool`.
    Type(Type),
    If,
    Else,
    Assign,
    Equal,
    Plus,
    Minus,
    Multiply,
    Divide,
    LParen,
    RParen,
    LBrace,
    RBrace,
    Comma,
    Then,
    End,
    Ret,
    Loop,
    For,
    While,
    Boolean(bool),
    LessThan,
    GreaterThan,
    /// The end of the text.
    EOF,
}

/// The mathematical model of a [`Token`].
pub enum TokenView {
    Class,
    Func,
    Var,
    Identifier(Seq<char>),
    Number(i64),
    Float(Seq<char>),
    StringLiteral(Seq<char>),
    Type(Type),
    If,
    Else,
    Assign,
    Equal,
    Plus,
    Minus,
    Multiply,
    Divide,
    LParen,
    RParen,
    LBrace,
    RBrace,
    Comma,
    Then,
    End,
    Ret,
    Loop,
    For,
    While,
    Boolean(bool),
    LessThan,
    GreaterThan,
    EOF,
}

impl View for Token {
    type V = TokenView;

    open spec fn view(&self) -> TokenView {
        match self {
            Token::Class => TokenView::Class,
            Token::Func => TokenView::Func,
            Token::Var => TokenView::Var,
            Token::Identifier(name) => TokenView::Identifier(name@),
            Token::Number(n) => TokenView::Number(*n),
            Token::Float(text) => TokenView::Float(text@),
            Token::StringLiteral(text) => TokenView::StringLiteral(text@),
            Token::Type(t) => TokenView::Type(*t),
            Token::If => TokenView::If,
            Token::Else => TokenView::Else,
            Token::Assign => TokenView::Assign,
            Token::Equal => TokenView::Equal,
            Token::Plus => TokenView::Plus,
            Token::Minus => TokenView::Minus,
            Token::Multiply => TokenView::Multiply,
            Token::Divide => TokenView::Divide,
            Token::LParen => TokenView::LParen,
            Token::RParen => TokenView::RParen,
            Token::LBrace => TokenView::LBrace,
            Token::RBrace => TokenView::RBrace,
            Token::Comma => TokenView::Comma,
            Token::Then => TokenView::Then,
            Token::End => TokenView::End,
            Token::Ret => TokenView::Ret,
            Token::Loop => TokenView::Loop,
            Token::For => TokenView::For,
            Token::While => TokenView::While,
            Token::Boolean(b) => TokenView::Boolean(*b),
            Token::LessThan => TokenView::LessThan,
            Token::GreaterThan => TokenView::GreaterThan,
            Token::EOF => TokenView::EOF,
        }
    }
}

impl Clone for Token {
    fn clone(&self) -> (r: Self)
        ensures
            r@ == self@,
    {
        match self {
            Token::Class => Token::Class,
            Token::Func => Token::Func,
            Token::Var => Token::Var,
            Token::Identifier(text) => Token::Identifier(text.clone()),
            Token::Number(value) => Token::Number(*value),
            Token::Float(text) => Token::Float(text.clone()),
            Token::StringLiteral(text) => Token::StringLiteral(text.clone()),
            Token::Type(value) => Token::Type(*value),
            Token::If => Token::If,
            Token::Else => Token::Else,
            Token::Assign => Token::Assign,
            Token::Equal => Token::Equal,
            Token::Plus => Token::Plus,
            Token::Minus => Token::Minus,
            Token::Multiply => Token::Multiply,
            Token::Divide => Token::Divide,
            Token::LParen => Token::LParen,
            Token::RParen => Token::RParen,
            Token::LBrace => Token::LBrace,
            Token::RBrace => Token::RBrace,
            Token::Comma => Token::Comma,
            Token::Then => Token::Then,
            Token::End => Token::End,
            Token::Ret => Token::Ret,
            Token::Loop => Token::Loop,
            Token::For => Token::For,
            Token::While => Token::While,
            Token::Boolean(value) => Token::Boolean(*value),
            Token::LessThan => Token::LessThan,
            Token::GreaterThan => Token::GreaterThan,
            Token::EOF => Token::EOF,
        }
    }
}

/// The sort of a token: the token without what it holds.
#[derive(Debug, PartialEq, Eq, Clone, Copy, Structural)]
pub enum TokenKind {
    Class,
    Func,
    Var,
    Identifier,
    Number,
    Float,
    StringLiteral,
    Type,
    If,
    Else,
    Assign,
    Equal,
    Plus,
    Minus,
    Multiply,
    Divide,
    LParen,
    RParen,
    LBrace,
    RBrace,
    Comma,
    Then,
    End,
    Ret,
    Loop,
    For,
    While,
    Boolean,
    LessThan,
    GreaterThan,
    EOF,
}

/// The sort of the token `token`.
pub open spec fn kind_of(token: TokenView) -> TokenKind {
    match token {
        TokenView::Class => TokenKind::Class,
        TokenView::Func => TokenKind::Func,
        TokenView::Var => TokenKind::Var,
        TokenView::Identifier(_) => TokenKind::Identifier,
        TokenView::Number(_) => TokenKind::Number,
        TokenView::Float(_) => TokenKind::Float,
        TokenView::StringLiteral(_) => TokenKind::StringLiteral,
        TokenView::Type(_) => TokenKind::Type,
        TokenView::If => TokenKind::If,
        TokenView::Else => TokenKind::Else,
        TokenView::Assign => TokenKind::Assign,
        TokenView::Equal => TokenKind::Equal,
        TokenView::Plus => TokenKind::Plus,
        TokenView::Minus => TokenKind::Minus,
        TokenView::Multiply => TokenKind::Multiply,
        TokenView::Divide => TokenKind::Divide,
        TokenView::LParen => TokenKind::LParen,
        TokenView::RParen => TokenKind::RParen,
        TokenView::LBrace => TokenKind::LBrace,
        TokenView::RBrace => TokenKind::RBrace,
        TokenView::Comma => TokenKind::Comma,
        TokenView::Then => TokenKind::Then,
        TokenView::End => TokenKind::End,
        TokenView::Ret => TokenKind::Ret,
        TokenView::Loop => TokenKind::Loop,
        TokenView::For => TokenKind::For,
        TokenView::While => TokenKind::While,
        TokenView::Boolean(_) => TokenKind::Boolean,
        TokenView::LessThan => TokenKind::LessThan,
        TokenView::GreaterThan => TokenKind::GreaterThan,
        TokenView::EOF => TokenKind::EOF,
    }
}

impl Token {
    /// The sort of this token.
    pub fn kind(&self) -> (kind: TokenKind)
        ensures
            kind == kind_of(self@),
    {
        match self {
            Token::Class => TokenKind::Class,
            Token::Func => TokenKind::Func,
            Token::Var => TokenKind::Var,
            Token::Identifier(_) => TokenKind::Identifier,
            Token::Number(_) => TokenKind::Number,
            Token::Float(_) => TokenKind::Float,
            Token::StringLiteral(_) => TokenKind::StringLiteral,
            Token::Type(_) => TokenKind::Type,
            Token::If => TokenKind::If,
            Token::Else => TokenKind::Else,
            Token::Assign => TokenKind::Assign,
            Token::Equal => TokenKind::Equal,
            Token::Plus => TokenKind::Plus,
            Token::Minus => TokenKind::Minus,
            Token::Multiply => TokenKind::Multiply,
            Token::Divide => TokenKind::Divide,
            Token::LParen => TokenKind::LParen,
            Token::RParen => TokenKind::RParen,
            Token::LBrace => TokenKind::LBrace,
            Token::RBrace => TokenKind::RBrace,
            Token::Comma => TokenKind::Comma,
            Token::Then => TokenKind::Then,
            Token::End => TokenKind::End,
            Token::Ret => TokenKind::Ret,
            Token::Loop => TokenKind::Loop,
            Token::For => TokenKind::For,
            Token::While => TokenKind::While,
            Token::Boolean(_) => TokenKind::Boolean,
            Token::LessThan => TokenKind::LessThan,
            Token::GreaterThan => TokenKind::GreaterThan,
            Token::EOF => TokenKind::EOF,
        }
    }
}

/// Why the text could not be read.
#[derive(Debug, PartialEq, Eq, Clone, Copy, Structural)]
pub enum LexError {
    /// No token starts with this character.
    UnrecognizedCharacter(char),
    /// An integer literal does not fit in 64 bits.
    IntegerOutOfRange,
    /// A string literal is not closed before the text ends.
    UnterminatedString,
}

/// A token together with the number of characters of the text that it spans.
pub struct Lexeme {
    pub token: TokenView,
    pub length: nat,
}

/// Whether `c` is one of the ten decimal digits.
pub open spec fn is_digit(c: char) -> bool {
    '0' <= c <= '9'
}

/// Whether `c` may stand inside an identifier.
pub open spec fn is_word_char(c: char) -> bool {
    is_alphanumeric(c) || c == '_'
}

/// The length of the longest prefix of `text` of which every character
/// satisfies `class`.
pub open spec fn run_length(text: Seq<char>, class: spec_fn(char) -> bool) -> nat
    decreases text.len(),
{
    if text.len() > 0 && class(text[0]) {
        1 + run_length(text.drop_first(), class)
    } else {
        0
    }
}

/// The number that the decimal digits `digits` write.
pub open spec fn decimal_value(digits: Seq<char>) -> int
    decreases digits.len(),
{
    if digits.len() == 0 {
        0
    } else {
        decimal_value(digits.drop_last()) * 10 + (digits.last() as int - '0' as int)
    }
}

/// The token that the word `word` is: a keyword, a boolean, a type name or,
/// failing these, an identifier.
pub open spec fn word_token(word: Seq<char>) -> TokenView {
    if word == seq!['c', 'l', 'a', 's', 's'] {
        TokenView::Class
    } else if word == seq!['f', 'u', 'n', 'c'] {
        TokenView::Func
    } else if word == seq!['v', 'a', 'r'] {
        TokenView::Var
    } else if word == seq!['t', 'h', 'e', 'n'] {
        TokenView::Then
    } else if word == seq!['e', 'n', 'd'] {
        TokenView::End
    } else if word == seq!['r', 'e', 't'] {
        TokenView::Ret
    } else if word == seq!['f', 'o', 'r'] {
        TokenView::For
    } else if word == seq!['w', 'h', 'i', 'l', 'e'] {
        TokenView::While
    } else if word == seq!['l', 'o', 'o', 'p'] {
        TokenView::Loop
    } else if word == seq!['t', 'r', 'u', 'e'] {
        TokenView::Boolean(true)
    } else if word == seq!['f', 'a', 'l', 's', 'e'] {
        TokenView::Boolean(false)
    } else if word == seq!['i', 'f'] {
        TokenView::If
    } else if word == seq!['e', 'l', 's', 'e'] {
        TokenView::Else
    } else if word == seq!['i', 'n', 't'] {
        TokenView::Type(Type::Int)
    } else if word == seq!['f', 'l', 'o', 'a', 't'] {
        TokenView::Type(Type::Float)
    } else if word == seq!['s', 't', 'r', 'i', 'n', 'g'] {
        TokenView::Type(Type::String)
    } else if word == seq!['b', 'o', 'o', 'l'] {
        TokenView::Type(Type::Bool)
    } else {
        TokenView::Identifier(word)
    }
}

/// The token that the single character `c` is, if it is one.
pub open spec fn punctuation(c: char) -> Option<TokenView> {
    if c == '+' {
        Some(TokenView::Plus)
    } else if c == '*' {
        Some(TokenView::Multiply)
    } else if c == '/' {
        Some(TokenView::Divide)
    } else if c == '(' {
        Some(TokenView::LParen)
    } else if c == ')' {
        Some(TokenView::RParen)
    } else if c == '{' {
        Some(TokenView::LBrace)
    } else if c == '}' {
        Some(TokenView::RBrace)
    } else if c == ',' {
        Some(TokenView::Comma)
    } else if c == '<' {
        Some(TokenView::LessThan)
    } else if c == '>' {
        Some(TokenView::GreaterThan)
    } else {
        None
    }
}

/// Whether the digits of `text` that end before `whole` are followed by a
/// fraction: a `.` and at least one digit.
pub open spec fn has_fraction(text: Seq<char>, whole: int) -> bool {
    whole + 1 < text.len() && text[whole] == '.' && is_digit(text[whole + 1])
}

/// The floating-point literal at the start of `text` whose fraction starts
/// at `whole`: it runs through the digits after the `.`, and the token holds
/// its text.
pub open spec fn float_lexeme(text: Seq<char>, whole: int) -> Lexeme {
    let length = whole + 1 + run_length(text.skip(whole + 1), |c: char| is_digit(c));
    Lexeme { token: TokenView::Float(text.take(length)), length: length as nat }
}

/// The integer literal at the start of `text` whose digits stand from `sign`
/// up to `whole`, negative where `sign` is not zero. It must fit in 64 bits.
pub open spec fn integer_lexeme(text: Seq<char>, sign: int, whole: int) -> Result<
    Lexeme,
    LexError,
> {
    let magnitude = decimal_value(text.subrange(sign, whole));
    let value = if sign == 0 {
        magnitude
    } else {
        -magnitude
    };
    if i64::MIN <= value <= i64::MAX {
        Ok(Lexeme { token: TokenView::Number(value as i64), length: whole as nat })
    } else {
        Err(LexError::IntegerOutOfRange)
    }
}

/// The number at the start of `text`, whose first `sign` characters, none or
/// one, are its minus sign and whose next character is a digit.
///
/// The digits run as far as they go. If a `.` and one more digit follow, the
/// number is a floating-point literal. Otherwise it is an integer.
pub open spec fn scan_number(text: Seq<char>, sign: nat) -> Result<Lexeme, LexError> {
    let whole = (sign + run_length(text.skip(sign as int), |c: char| is_digit(c))) as int;
    if has_fraction(text, whole) {
        Ok(float_lexeme(text, whole))
    } else {
        integer_lexeme(text, sign as int, whole)
    }
}

/// The string literal at the start of `text`, whose first character is a
/// double quote: it runs to the next double quote, and the token holds what
/// stands between the two.
pub open spec fn scan_string(text: Seq<char>) -> Result<Lexeme, LexError> {
    let inside = run_length(text.drop_first(), |c: char| c != '"') as int;
    if inside + 1 < text.len() {
        Ok(
            Lexeme {
                token: TokenView::StringLiteral(text.subrange(1, inside + 1)),
                length: (inside + 2) as nat,
            },
        )
    } else {
        Err(LexError::UnterminatedString)
    }
}

/// The token at the very start of `text`, where no white space is skipped.
pub open spec fn scan(text: Seq<char>) -> Result<Lexeme, LexError> {
    if text.len() == 0 {
        Ok(Lexeme { token: TokenView::EOF, length: 0 })
    } else {
        let c = text[0];
        if is_alphabetic(c) {
            let length = (1 + run_length(text.drop_first(), |c: char| is_word_char(c))) as int;
            Ok(Lexeme { token: word_token(text.take(length)), length: length as nat })
        } else if c == '-' {
            if text.len() > 1 && is_digit(text[1]) {
                scan_number(text, 1)
            } else {
                Ok(Lexeme { token: TokenView::Minus, length: 1 })
            }
        } else if is_digit(c) {
            scan_number(text, 0)
        } else if c == '=' {
            if text.len() > 1 && text[1] == '=' {
                Ok(Lexeme { token: TokenView::Equal, length: 2 })
            } else {
                Ok(Lexeme { token: TokenView::Assign, length: 1 })
            }
        } else if c == '"' {
            scan_string(text)
        } else {
            match punctuation(c) {
                Some(token) => Ok(Lexeme { token, length: 1 }),
                None => Err(LexError::UnrecognizedCharacter(c)),
            }
        }
    }
}

/// The next token of `text` and the number of characters up to its end, the
/// white space in front of it included.
pub open spec fn next_token(text: Seq<char>) -> Result<Lexeme, LexError> {
    let blank = run_length(text, |c: char| is_whitespace(c));
    match scan(text.skip(blank as int)) {
        Ok(lexeme) => Ok(Lexeme { token: lexeme.token, length: blank + lexeme.length }),
        Err(e) => Err(e),
    }
}

/// All the tokens of `text` in order, the end marker left out.
///
/// The list ends at the end marker. It would also end at a token that spans
/// nothing or more than the text, which makes the definition well-founded;
/// by [`lemma_token_span`] there is no such token.
pub open spec fn tokens_of(text: Seq<char>) -> Result<Seq<TokenView>, LexError>
    decreases text.len(),
{
    match next_token(text) {
        Ok(lexeme) => if lexeme.token == TokenView::EOF || lexeme.length == 0 || lexeme.length
            > text.len() {
            Ok(Seq::empty())
        } else {
            match tokens_of(text.skip(lexeme.length as int)) {
                Ok(rest) => Ok(seq![lexeme.token] + rest),
                Err(e) => Err(e),
            }
        },
        Err(e) => Err(e),
    }
}

/// A run is no longer than the text, every character of it is of the class,
/// and the character after it, if there is one, is not.
pub proof fn lemma_run_length(text: Seq<char>, class: spec_fn(char) -> bool)
    ensures
        run_length(text, class) <= text.len(),
        forall|i: int| 0 <= i < run_length(text, class) ==> class(#[trigger] text[i]),
        run_length(text, class) < text.len() ==> !class(text[run_length(text, class) as int]),
    decreases text.len(),
{
    if text.len() > 0 && class(text[0]) {
        let rest = text.drop_first();
        lemma_run_length(rest, class);
        assert forall|i: int| 0 <= i < run_length(text, class) implies class(#[trigger] text[i]) by {
            if i > 0 {
                assert(text[i] == rest[i - 1]);
            }
        }
        if run_length(text, class) < text.len() {
            assert(text[run_length(text, class) as int] == rest[run_length(rest, class) as int]);
        }
    }
}

/// The run of a class is the only prefix that consists of the class and is
/// followed by the end of the text or by a character outside the class.
pub proof fn lemma_run_length_is(text: Seq<char>, class: spec_fn(char) -> bool, n: nat)
    requires
        n <= text.len(),
        forall|i: int| 0 <= i < n ==> class(#[trigger] text[i]),
        n < text.len() ==> !class(text[n as int]),
    ensures
        run_length(text, class) == n,
    decreases n,
{
    if n > 0 {
        let rest = text.drop_first();
        assert(class(text[0]));
        assert forall|i: int| 0 <= i < n - 1 implies class(#[trigger] rest[i]) by {
            assert(rest[i] == text[i + 1]);
        }
        if n - 1 < rest.len() {
            assert(rest[n - 1] == text[n as int]);
        }
        lemma_run_length_is(rest, class, (n - 1) as nat);
    }
}

/// A token lies within the text, and every token but the end marker spans at
/// least one character.
pub proof fn lemma_token_span(text: Seq<char>)
    ensures
        match next_token(text) {
            Ok(lexeme) => lexeme.length <= text.len() && (lexeme.token != TokenView::EOF
                ==> lexeme.length > 0),
            Err(_) => true,
        },
{
    let blank = run_length(text, |c: char| is_whitespace(c));
    lemma_run_length(text, |c: char| is_whitespace(c));
    let rest = text.skip(blank as int);
    if rest.len() > 0 {
        let c = rest[0];
        if is_alphabetic(c) {
            lemma_run_length(rest.drop_first(), |c: char| is_word_char(c));
            let length = (1 + run_length(rest.drop_first(), |c: char| is_word_char(c))) as int;
            lemma_word_token_is_not_end(rest.take(length));
        } else if c == '-' && rest.len() > 1 && is_digit(rest[1]) {
            lemma_number_span(rest, 1);
        } else if c != '-' && is_digit(c) {
            lemma_number_span(rest, 0);
        }
    }
}

proof fn lemma_word_token_is_not_end(word: Seq<char>)
    ensures
        word_token(word) != TokenView::EOF,
{
}

proof fn lemma_number_span(text: Seq<char>, sign: nat)
    requires
        sign <= 1,
        sign < text.len(),
        is_digit(text[sign as int]),
    ensures
        match scan_number(text, sign) {
            Ok(lexeme) => 0 < lexeme.length <= text.len() && lexeme.token != TokenView::EOF,
            Err(_) => true,
        },
{
    let digits = text.skip(sign as int);
    lemma_run_length(digits, |c: char| is_digit(c));
    assert(digits[0] == text[sign as int]);
    let whole = (sign + run_length(digits, |c: char| is_digit(c))) as int;
    if whole + 1 < text.len() {
        lemma_run_length(text.skip(whole + 1), |c: char| is_digit(c));
    }
}

/// The value of a digit is at most nine, and a number does not shrink when
/// digits are written behind it.
proof fn lemma_decimal_value_grows(digits: Seq<char>, n: int)
    requires
        0 <= n <= digits.len(),
        forall|i: int| 0 <= i < digits.len() ==> is_digit(#[trigger] digits[i]),
    ensures
        0 <= decimal_value(digits.take(n)) <= decimal_value(digits),
    decreases digits.len() - n,
{
    lemma_decimal_value_is_natural(digits.take(n));
    if n < digits.len() {
        lemma_decimal_value_grows(digits, n + 1);
        assert(digits.take(n + 1).drop_last() =~= digits.take(n));
        lemma_decimal_value_is_natural(digits.take(n));
    } else {
        assert(digits.take(n) =~= digits);
    }
}

proof fn lemma_decimal_value_is_natural(digits: Seq<char>)
    requires
        forall|i: int| 0 <= i < digits.len() ==> is_digit(#[trigger] digits[i]),
    ensures
        0 <= decimal_value(digits),
    decreases digits.len(),
{
    if digits.len() > 0 {
        lemma_decimal_value_is_natural(digits.drop_last());
    }
}

/// The lexer: the source text and how far it has been read.
pub struct Lexer {
    source: Vec<char>,
    position: usize,
}

impl View for Lexer {
    type V = Seq<char>;

    /// The text that is still to be read.
    closed spec fn view(&self) -> Seq<char> {
        self.source@.skip(self.position as int)
    }
}

impl Lexer {
    #[verifier::type_invariant]
    closed spec fn in_bounds(self) -> bool {
        self.position <= self.source.len()
    }

    /// A lexer at the start of `source`.
    pub fn new(source: &str) -> (lexer: Self)
        ensures
            lexer@ == source@,
    {
        let mut chars: Vec<char> = Vec::new();
        for c in it: source.chars()
            invariant
                chars@ == it.seq().take(it.index()),
                it.seq() == source@,
        {
            chars.push(c);
        }
        let lexer = Lexer { source: chars, position: 0 };
        assert(lexer@ =~= source@);
        lexer
    }

    /// The end of the run of white space that starts at `from`.
    fn blank_end(&self, from: usize) -> (to: usize)
        requires
            from <= self.source.len(),
        ensures
            from <= to <= self.source.len(),
            to - from == run_length(self.source@.skip(from as int), |c: char| is_whitespace(c)),
    {
        let mut to = from;
        while to < self.source.len() && self.source[to].is_whitespace()
            invariant
                from <= to <= self.source.len(),
                forall|i: int| from <= i < to ==> is_whitespace(#[trigger] self.source[i]),
            decreases self.source.len() - to,
        {
            to += 1;
        }
        proof {
            lemma_run_length_is(
                self.source@.skip(from as int),
                |c: char| is_whitespace(c),
                (to - from) as nat,
            );
        }
        to
    }

    /// The end of the run of identifier characters that starts at `from`.
    fn word_end(&self, from: usize) -> (to: usize)
        requires
            from <= self.source.len(),
        ensures
            from <= to <= self.source.len(),
            to - from == run_length(self.source@.skip(from as int), |c: char| is_word_char(c)),
    {
        let mut to = from;
        while to < self.source.len() && (self.source[to].is_alphanumeric() || self.source[to] == '_')
            invariant
                from <= to <= self.source.len(),
                forall|i: int| from <= i < to ==> is_word_char(#[trigger] self.source[i]),
            decreases self.source.len() - to,
        {
            to += 1;
        }
        proof {
            lemma_run_length_is(
                self.source@.skip(from as int),
                |c: char| is_word_char(c),
                (to - from) as nat,
            );
        }
        to
    }

    /// The end of the run of digits that starts at `from`.
    fn digits_end(&self, from: usize) -> (to: usize)
        requires
            from <= self.source.len(),
        ensures
            from <= to <= self.source.len(),
            to - from == run_length(self.source@.skip(from as int), |c: char| is_digit(c)),
            forall|i: int| from <= i < to ==> is_digit(#[trigger] self.source[i]),
    {
        let mut to = from;
        while to < self.source.len() && self.source[to] >= '0' && self.source[to] <= '9'
            invariant
                from <= to <= self.source.len(),
                forall|i: int| from <= i < to ==> is_digit(#[trigger] self.source[i]),
            decreases self.source.len() - to,
        {
            to += 1;
        }
        proof {
            lemma_run_length_is(
                self.source@.skip(from as int),
                |c: char| is_digit(c),
                (to - from) as nat,
            );
        }
        to
    }

    /// The characters from `from` up to `to`, as a string.
    fn text(&self, from: usize, to: usize) -> (text: String)
        requires
            from <= to <= self.source.len(),
        ensures
            text@ == self.source@.subrange(from as int, to as int),
    {
        let mut text = String::new();
        let mut i = from;
        while i < to
            invariant
                from <= i <= to <= self.source.len(),
                text@ == self.source@.subrange(from as int, i as int),
            decreases to - i,
        {
            text.push(self.source[i]);
            assert(self.source@.subrange(from as int, i + 1) =~= self.source@.subrange(
                from as int,
                i as int,
            ).push(self.source[i as int]));
            i += 1;
        }
        text
    }

    /// Whether the characters from `from` up to `to` are exactly `word`.
    fn spells<const N: usize>(&self, from: usize, to: usize, word: &[char; N]) -> (b: bool)
        requires
            from <= to <= self.source.len(),
        ensures
            b == (self.source@.subrange(from as int, to as int) == word@),
    {
        if to - from != N {
            assert(word@.len() == N);
            return false;
        }
        let mut i: usize = 0;
        while i < N
            invariant
                i <= N,
                to - from == N,
                from <= to <= self.source.len(),
                forall|j: int| 0 <= j < i ==> self.source[from + j] == word[j],
            decreases N - i,
        {
            if self.source[from + i] != word[i] {
                assert(self.source@.subrange(from as int, to as int)[i as int] != word@[i as int]);
                return false;
            }
            i += 1;
        }
        assert(self.source@.subrange(from as int, to as int) =~= word@);
        true
    }

    /// The integer that the digits from `from` up to `to` write, negated where
    /// `negative` says so, if it fits in 64 bits.
    fn integer(&self, from: usize, to: usize, negative: bool) -> (r: Option<i64>)
        requires
            from <= to <= self.source.len(),
            forall|i: int| from <= i < to ==> is_digit(#[trigger] self.source[i]),
        ensures
            ({
                let magnitude = decimal_value(self.source@.subrange(from as int, to as int));
                let value = if negative {
                    -magnitude
                } else {
                    magnitude
                };
                match r {
                    Some(n) => n == value,
                    None => !(i64::MIN <= value <= i64::MAX),
                }
            }),
    {
        let ghost digits = self.source@.subrange(from as int, to as int);
        let mut below: i64 = 0;
        let mut i = from;
        assert(digits.take(0) =~= Seq::<char>::empty());
        while i < to
            invariant
                from <= i <= to <= self.source.len(),
                digits == self.source@.subrange(from as int, to as int),
                forall|j: int| 0 <= j < digits.len() ==> is_digit(#[trigger] digits[j]),
                below == -decimal_value(digits.take(i - from)),
            decreases to - i,
        {
            let c = self.source[i];
            assert(is_digit(digits[i - from]));
            let digit = (c as u32 - '0' as u32) as i64;
            proof {
                assert(digits.take(i - from + 1).drop_last() =~= digits.take(i - from));
                assert(digits.take(i - from + 1).last() == c);
                lemma_decimal_value_grows(digits, i - from + 1);
            }
            let next = match below.checked_mul(10) {
                Some(tenfold) => tenfold.checked_sub(digit),
                None => None,
            };
            match next {
                Some(n) => {
                    below = n;
                },
                None => {
                    return None;
                },
            }
            i += 1;
        }
        assert(digits.take(to - from) =~= digits);
        if negative {
            Some(below)
        } else if below == i64::MIN {
            None
        } else {
            Some(-below)
        }
    }

    /// The keyword, boolean or type name that the characters from `from` up
    /// to `to` spell, if they spell one.
    fn keyword(&self, from: usize, to: usize) -> (r: Option<Token>)
        requires
            from <= to <= self.source.len(),
        ensures
            ({
                let token = word_token(self.source@.subrange(from as int, to as int));
                match r {
                    Some(found) => found@ == token,
                    None => token is Identifier,
                }
            }),
    {
        let ghost word = self.source@.subrange(from as int, to as int);
        if self.spells(from, to, &['c', 'l', 'a', 's', 's']) {
            assert(word =~= seq!['c', 'l', 'a', 's', 's']);
            Some(Token::Class)
        } else if self.spells(from, to, &['f', 'u', 'n', 'c']) {
            assert(word =~= seq!['f', 'u', 'n', 'c']);
            Some(Token::Func)
        } else if self.spells(from, to, &['v', 'a', 'r']) {
            assert(word =~= seq!['v', 'a', 'r']);
            Some(Token::Var)
        } else if self.spells(from, to, &['t', 'h', 'e', 'n']) {
            assert(word =~= seq!['t', 'h', 'e', 'n']);
            Some(Token::Then)
        } else if self.spells(from, to, &['e', 'n', 'd']) {
            assert(word =~= seq!['e', 'n', 'd']);
            Some(Token::End)
        } else if self.spells(from, to, &['r', 'e', 't']) {
            assert(word =~= seq!['r', 'e', 't']);
            Some(Token::Ret)
        } else if self.spells(from, to, &['f', 'o', 'r']) {
            assert(word =~= seq!['f', 'o', 'r']);
            Some(Token::For)
        } else if self.spells(from, to, &['w', 'h', 'i', 'l', 'e']) {
            assert(word =~= seq!['w', 'h', 'i', 'l', 'e']);
            Some(Token::While)
        } else if self.spells(from, to, &['l', 'o', 'o', 'p']) {
            assert(word =~= seq!['l', 'o', 'o', 'p']);
            Some(Token::Loop)
        } else if self.spells(from, to, &['t', 'r', 'u', 'e']) {
            assert(word =~= seq!['t', 'r', 'u', 'e']);
            Some(Token::Boolean(true))
        } else if self.spells(from, to, &['f', 'a', 'l', 's', 'e']) {
            assert(word =~= seq!['f', 'a', 'l', 's', 'e']);
            Some(Token::Boolean(false))
        } else if self.spells(from, to, &['i', 'f']) {
            assert(word =~= seq!['i', 'f']);
            Some(Token::If)
        } else if self.spells(from, to, &['e', 'l', 's', 'e']) {
            assert(word =~= seq!['e', 'l', 's', 'e']);
            Some(Token::Else)
        } else if self.spells(from, to, &['i', 'n', 't']) {
            assert(word =~= seq!['i', 'n', 't']);
            Some(Token::Type(Type::Int))
        } else if self.spells(from, to, &['f', 'l', 'o', 'a', 't']) {
            assert(word =~= seq!['f', 'l', 'o', 'a', 't']);
            Some(Token::Type(Type::Float))
        } else if self.spells(from, to, &['s', 't', 'r', 'i', 'n', 'g']) {
            assert(word =~= seq!['s', 't', 'r', 'i', 'n', 'g']);
            Some(Token::Type(Type::String))
        } else if self.spells(from, to, &['b', 'o', 'o', 'l']) {
            assert(word =~= seq!['b', 'o', 'o', 'l']);
            Some(Token::Type(Type::Bool))
        } else {
            None
        }
    }

    /// Reads the word that starts at `from`: its first character and the
    /// identifier characters that follow. Returns the token and where it ends.
    fn read_identifier(&self, from: usize) -> (r: (Token, usize))
        requires
            from < self.source.len(),
        ensures
            ({
                let text = self.source@.skip(from as int);
                let length = (1 + run_length(text.drop_first(), |c: char| is_word_char(c))) as int;
                &&& r.1 == from + length
                &&& r.1 <= self.source.len()
                &&& r.0@ == word_token(text.take(length))
            }),
    {
        let to = self.word_end(from + 1);
        proof {
            let text = self.source@.skip(from as int);
            assert(self.source@.skip(from + 1) =~= text.drop_first());
            assert(self.source@.subrange(from as int, to as int) =~= text.take(to - from));
        }
        match self.keyword(from, to) {
            Some(token) => (token, to),
            None => (Token::Identifier(self.text(from, to)), to),
        }
    }

    /// Reads the floating-point literal that starts at `from` and whose `.`
    /// stands at `whole`. Returns the token and where it ends.
    fn read_float(&self, from: usize, whole: usize) -> (r: (Token, usize))
        requires
            from <= whole,
            whole + 1 < self.source.len(),
        ensures
            r.0@ == float_lexeme(self.source@.skip(from as int), whole - from).token,
            r.1 == from + float_lexeme(self.source@.skip(from as int), whole - from).length,
            r.1 <= self.source.len(),
    {
        let to = self.digits_end(whole + 1);
        let literal = self.text(from, to);
        proof {
            let text = self.source@.skip(from as int);
            assert(text.skip(whole - from + 1) =~= self.source@.skip(whole + 1));
            assert(text.take(to - from) =~= self.source@.subrange(from as int, to as int));
        }
        (Token::Float(literal), to)
    }

    /// Reads the integer literal that starts at `from`, with its digits from
    /// `from + sign` up to `whole`. Returns the token and where it ends.
    fn read_integer(&self, from: usize, sign: usize, whole: usize) -> (r: Result<
        (Token, usize),
        LexError,
    >)
        requires
            sign <= 1,
            from + sign <= whole <= self.source.len(),
            forall|i: int| from + sign <= i < whole ==> is_digit(#[trigger] self.source[i]),
        ensures
            match integer_lexeme(self.source@.skip(from as int), sign as int, whole - from) {
                Ok(lexeme) => r is Ok && r->Ok_0.0@ == lexeme.token && r->Ok_0.1 == from
                    + lexeme.length,
                Err(e) => r == Err::<(Token, usize), LexError>(e),
            },
    {
        proof {
            let text = self.source@.skip(from as int);
            assert(text.subrange(sign as int, whole - from) =~= self.source@.subrange(
                from + sign,
                whole as int,
            ));
        }
        match self.integer(from + sign, whole, sign == 1) {
            Some(n) => Ok((Token::Number(n), whole)),
            None => Err(LexError::IntegerOutOfRange),
        }
    }

    /// Reads the number that starts at `from`, whose first `sign` characters,
    /// none or one, are its minus sign. Returns the token and where it ends.
    fn read_number(&self, from: usize, sign: usize) -> (r: Result<(Token, usize), LexError>)
        requires
            sign <= 1,
            from + sign < self.source.len(),
            is_digit(self.source[from + sign]),
        ensures
            match scan_number(self.source@.skip(from as int), sign as nat) {
                Ok(lexeme) => r is Ok && r->Ok_0.0@ == lexeme.token && r->Ok_0.1 == from
                    + lexeme.length && r->Ok_0.1 <= self.source.len(),
                Err(e) => r == Err::<(Token, usize), LexError>(e),
            },
    {
        let whole = self.digits_end(from + sign);
        proof {
            let text = self.source@.skip(from as int);
            assert(text.skip(sign as int) =~= self.source@.skip(from + sign));
            assert(whole < self.source.len() ==> text[whole - from] == self.source[whole as int]);
            assert(whole + 1 < self.source.len() ==> text[whole - from + 1] == self.source[whole
                + 1]);
        }
        if whole < self.source.len() - 1 && self.source[whole] == '.' && self.source[whole + 1]
            >= '0' && self.source[whole + 1] <= '9' {
            Ok(self.read_float(from, whole))
        } else {
            self.read_integer(from, sign, whole)
        }
    }

    /// The place of the first double quote at or behind `from`, or the end
    /// of the text where there is none.
    fn quote_from(&self, from: usize) -> (to: usize)
        requires
            from <= self.source.len(),
        ensures
            from <= to <= self.source.len(),
            to - from == run_length(self.source@.skip(from as int), |c: char| c != '"'),
    {
        let mut to = from;
        while to < self.source.len() && self.source[to] != '"'
            invariant
                from <= to <= self.source.len(),
                forall|i: int| from <= i < to ==> #[trigger] self.source[i] != '"',
            decreases self.source.len() - to,
        {
            to += 1;
        }
        proof {
            lemma_run_length_is(
                self.source@.skip(from as int),
                |c: char| c != '"',
                (to - from) as nat,
            );
        }
        to
    }

    /// Reads the string literal whose opening quote stands at `from`.
    /// Returns the token and where it ends.
    fn read_string(&self, from: usize) -> (r: Result<(Token, usize), LexError>)
        requires
            from < self.source.len(),
        ensures
            match scan_string(self.source@.skip(from as int)) {
                Ok(lexeme) => r is Ok && r->Ok_0.0@ == lexeme.token && r->Ok_0.1 == from
                    + lexeme.length && r->Ok_0.1 <= self.source.len(),
                Err(e) => r == Err::<(Token, usize), LexError>(e),
            },
    {
        let closing = self.quote_from(from + 1);
        proof {
            let text = self.source@.skip(from as int);
            assert(text.drop_first() =~= self.source@.skip(from + 1));
            assert(text.subrange(1, closing - from) =~= self.source@.subrange(
                from + 1,
                closing as int,
            ));
        }
        if closing < self.source.len() {
            Ok((Token::StringLiteral(self.text(from + 1, closing)), closing + 1))
        } else {
            Err(LexError::UnterminatedString)
        }
    }

    /// The token that the single character `c` is, if it is one.
    fn read_punctuation(c: char) -> (r: Option<Token>)
        ensures
            match punctuation(c) {
                Some(token) => r is Some && r->0@ == token,
                None => r is None,
            },
    {
        if c == '+' {
            Some(Token::Plus)
        } else if c == '*' {
            Some(Token::Multiply)
        } else if c == '/' {
            Some(Token::Divide)
        } else if c == '(' {
            Some(Token::LParen)
        } else if c == ')' {
            Some(Token::RParen)
        } else if c == '{' {
            Some(Token::LBrace)
        } else if c == '}' {
            Some(Token::RBrace)
        } else if c == ',' {
            Some(Token::Comma)
        } else if c == '<' {
            Some(Token::LessThan)
        } else if c == '>' {
            Some(Token::GreaterThan)
        } else {
            None
        }
    }

    /// Reads the token that starts at `from`, where no white space is
    /// skipped. Returns the token and where it ends.
    fn read_token(&self, from: usize) -> (r: Result<(Token, usize), LexError>)
        requires
            from <= self.source.len(),
        ensures
            match scan(self.source@.skip(from as int)) {
                Ok(lexeme) => r is Ok && r->Ok_0.0@ == lexeme.token && r->Ok_0.1 == from
                    + lexeme.length && r->Ok_0.1 <= self.source.len(),
                Err(e) => r == Err::<(Token, usize), LexError>(e),
            },
    {
        let ghost text = self.source@.skip(from as int);
        if from >= self.source.len() {
            return Ok((Token::EOF, from));
        }
        let c = self.source[from];
        assert(c == text[0]);
        assert(from + 1 < self.source.len() ==> self.source[from + 1] == text[1]);
        if c.is_alphabetic() {
            Ok(self.read_identifier(from))
        } else if c == '-' {
            if from + 1 < self.source.len() && self.source[from + 1] >= '0' && self.source[from
                + 1] <= '9' {
                self.read_number(from, 1)
            } else {
                Ok((Token::Minus, from + 1))
            }
        } else if c >= '0' && c <= '9' {
            self.read_number(from, 0)
        } else if c == '=' {
            if from + 1 < self.source.len() && self.source[from + 1] == '=' {
                Ok((Token::Equal, from + 2))
            } else {
                Ok((Token::Assign, from + 1))
            }
        } else if c == '"' {
            self.read_string(from)
        } else {
            match Self::read_punctuation(c) {
                Some(token) => Ok((token, from + 1)),
                None => Err(LexError::UnrecognizedCharacter(c)),
            }
        }
    }

    /// Reads the next token and moves the reading position behind it. At the
    /// end of the text the token is [`Token::EOF`], again and again. Where the
    /// text does not start with a token the lexer stays where it is.
    pub fn get_next_token(&mut self) -> (r: Result<Token, LexError>)
        ensures
            match next_token(old(self)@) {
                Ok(lexeme) => r is Ok && r->Ok_0@ == lexeme.token && lexeme.length <= old(self)@.len()
                    && final(self)@ == old(self)@.skip(lexeme.length as int),
                Err(e) => r == Err::<Token, LexError>(e) && final(self)@ == old(self)@,
            },
    {
        proof {
            use_type_invariant(&*self);
        }
        let from = self.blank_end(self.position);
        assert(self.source@.skip(from as int) =~= old(self)@.skip(from - self.position));
        match self.read_token(from) {
            Ok((token, to)) => {
                assert(self.source@.skip(to as int) =~= old(self)@.skip(to - self.position));
                self.position = to;
                Ok(token)
            },
            Err(e) => Err(e),
        }
    }
}

/// Reads all the tokens of `source`, the end marker left out.
pub fn tokenize(source: &str) -> (r: Result<Vec<Token>, LexError>)
    ensures
        match tokens_of(source@) {
            Ok(tokens) => r is Ok && r->Ok_0@.map_values(|token: Token| token@) == tokens,
            Err(e) => r == Err::<Vec<Token>, LexError>(e),
        },
{
    let mut lexer = Lexer::new(source);
    let mut tokens: Vec<Token> = Vec::new();
    assert(tokens@.map_values(|token: Token| token@) =~= Seq::<TokenView>::empty());
    loop
        invariant
            tokens_of(source@) == with_tokens(
                tokens@.map_values(|token: Token| token@),
                tokens_of(lexer@),
            ),
        decreases lexer@.len(),
    {
        let ghost before = lexer@;
        let ghost found = tokens@.map_values(|token: Token| token@);
        proof {
            lemma_token_span(before);
        }
        match lexer.get_next_token() {
            Ok(Token::EOF) => {
                assert(found + Seq::<TokenView>::empty() =~= found);
                return Ok(tokens);
            },
            Ok(token) => {
                tokens.push(token);
                proof {
                    assert(tokens@.map_values(|token: Token| token@) =~= found.push(token@));
                    let rest = tokens_of(lexer@);
                    if rest is Ok {
                        assert(found + (seq![token@] + rest->Ok_0) =~= found.push(token@)
                            + rest->Ok_0);
                    }
                }
            },
            Err(e) => {
                return Err(e);
            },
        }
    }
}

/// `tokens` in front of the tokens of `rest`.
pub open spec fn with_tokens(tokens: Seq<TokenView>, rest: Result<Seq<TokenView>, LexError>) -> Result<
    Seq<TokenView>,
    LexError,
> {
    match rest {
        Ok(more) => Ok(tokens + more),
        Err(e) => Err(e),
    }
}

/// The tokens that a lexer yields are determined by the text that it has
/// still to read. Two lexers with the same text ahead of them, whatever each
/// has read before, yield the same next token, leave the same text behind it,
/// and so yield the same tokens to the end.
pub proof fn lemma_tokens_depend_on_remaining_text(first: Lexer, second: Lexer)
    requires
        first@ == second@,
    ensures
        next_token(first@) == next_token(second@),
        tokens_of(first@) == tokens_of(second@),
{
}

impl TokenKind {
    /// The sort of token, in words.
    pub open spec fn spec_name(self) -> Seq<char> {
        match self {
            TokenKind::Class => "'class'"@,
            TokenKind::Func => "'func'"@,
            TokenKind::Var => "'var'"@,
            TokenKind::Identifier => "an identifier"@,
            TokenKind::Number => "an integer"@,
            TokenKind::Float => "a floating-point number"@,
            TokenKind::StringLiteral => "a string"@,
            TokenKind::Type => "a type name"@,
            TokenKind::If => "'if'"@,
            TokenKind::Else => "'else'"@,
            TokenKind::Assign => "'='"@,
            TokenKind::Equal => "'=='"@,
            TokenKind::Plus => "'+'"@,
            TokenKind::Minus => "'-'"@,
            TokenKind::Multiply => "'*'"@,
            TokenKind::Divide => "'/'"@,
            TokenKind::LParen => "'('"@,
            TokenKind::RParen => "')'"@,
            TokenKind::LBrace => "'{'"@,
            TokenKind::RBrace => "'}'"@,
            TokenKind::Comma => "','"@,
            TokenKind::Then => "'then'"@,
            TokenKind::End => "'end'"@,
            TokenKind::Ret => "'ret'"@,
            TokenKind::Loop => "'loop'"@,
            TokenKind::For => "'for'"@,
            TokenKind::While => "'while'"@,
            TokenKind::Boolean => "a boolean"@,
            TokenKind::LessThan => "'<'"@,
            TokenKind::GreaterThan => "'>'"@,
            TokenKind::EOF => "the end of the text"@,
        }
    }

    /// The sort of token, in words.
    pub fn name(&self) -> (text: &'static str)
        ensures
            text@ == self.spec_name(),
    {
        match self {
            TokenKind::Class => "'class'",
            TokenKind::Func => "'func'",
            TokenKind::Var => "'var'",
            TokenKind::Identifier => "an identifier",
            TokenKind::Number => "an integer",
            TokenKind::Float => "a floating-point number",
            TokenKind::StringLiteral => "a string",
            TokenKind::Type => "a type name",
            TokenKind::If => "'if'",
            TokenKind::Else => "'else'",
            TokenKind::Assign => "'='",
            TokenKind::Equal => "'=='",
            TokenKind::Plus => "'+'",
            TokenKind::Minus => "'-'",
            TokenKind::Multiply => "'*'",
            TokenKind::Divide => "'/'",
            TokenKind::LParen => "'('",
            TokenKind::RParen => "')'",
            TokenKind::LBrace => "'{'",
            TokenKind::RBrace => "'}'",
            TokenKind::Comma => "','",
            TokenKind::Then => "'then'",
            TokenKind::End => "'end'",
            TokenKind::Ret => "'ret'",
            TokenKind::Loop => "'loop'",
            TokenKind::For => "'for'",
            TokenKind::While => "'while'",
            TokenKind::Boolean => "a boolean",
            TokenKind::LessThan => "'<'",
            TokenKind::GreaterThan => "'>'",
            TokenKind::EOF => "the end of the text",
        }
    }
}

impl LexError {
    /// What went wrong, in words.
    pub open spec fn spec_message(self) -> Seq<char> {
        match self {
            LexError::UnrecognizedCharacter(c) => "unrecognized character: "@.push(c),
            LexError::IntegerOutOfRange => "integer literal out of range"@,
            LexError::UnterminatedString => "string literal is not closed"@,
        }
    }

    /// What went wrong, in words.
    pub fn message(&self) -> (text: String)
        ensures
            text@ == self.spec_message(),
    {
        match self {
            LexError::UnrecognizedCharacter(c) => {
                let mut text = "unrecognized character: ".to_owned();
                text.push(*c);
                text
            },
            LexError::IntegerOutOfRange => "integer literal out of range".to_owned(),
            LexError::UnterminatedString => "string literal is not closed".to_owned(),
        }
    }
}

} // verus!
