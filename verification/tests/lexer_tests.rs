use neutron::lexer::tokenize;
use neutron::lexer::LexError;
use neutron::lexer::Lexer;
use neutron::lexer::Token;
use neutron::lexer::TokenKind;
use neutron::symbol_table::Type;

fn lex(input: &str) -> Vec<Token> {
    let mut lexer = Lexer::new(input);
    let mut tokens = Vec::new();
    loop {
        let token = lexer.get_next_token().unwrap();
        if token == Token::EOF {
            break;
        }
        tokens.push(token);
    }
    tokens
}

fn float_token(text: &str) -> Token {
    Token::Float(text.to_string())
}

#[test]
fn test_simple_tokens() {
    let source_code = "class MyClass then var x end";
    let mut lexer = Lexer::new(source_code);

    assert_eq!(lexer.get_next_token(), Ok(Token::Class));
    assert_eq!(
        lexer.get_next_token(),
        Ok(Token::Identifier("MyClass".to_string()))
    );
    assert_eq!(lexer.get_next_token(), Ok(Token::Then));
    assert_eq!(lexer.get_next_token(), Ok(Token::Var));
    assert_eq!(lexer.get_next_token(), Ok(Token::Identifier("x".to_string())));
    assert_eq!(lexer.get_next_token(), Ok(Token::End));
    assert_eq!(lexer.get_next_token(), Ok(Token::EOF));
}

#[test]
fn test_class_token() {
    assert_eq!(lex("class"), vec![Token::Class]);
}

#[test]
fn test_identifier_token() {
    assert_eq!(lex("my_var"), vec![Token::Identifier("my_var".to_string())]);
}

#[test]
fn test_number_token() {
    assert_eq!(lex("123"), vec![Token::Number(123)]);
}

#[test]
fn test_float_token() {
    let tokens = lex("3.14");
    assert_eq!(tokens, vec![float_token("3.14")]);
    match &tokens[0] {
        Token::Float(text) => assert_eq!(text.parse::<f64>().unwrap(), 3.14),
        _ => panic!("Expected a Float"),
    }
}

#[test]
fn test_multiple_tokens() {
    assert_eq!(
        lex("class MyClass var x = 10"),
        vec![
            Token::Class,
            Token::Identifier("MyClass".to_string()),
            Token::Var,
            Token::Identifier("x".to_string()),
            Token::Assign,
            Token::Number(10)
        ]
    );
}

#[test]
fn test_skip_whitespace() {
    assert_eq!(
        lex("class    my_var 123"),
        vec![
            Token::Class,
            Token::Identifier("my_var".to_string()),
            Token::Number(123)
        ]
    );
}

#[test]
fn test_negative_integer() {
    assert_eq!(lex("-42"), vec![Token::Number(-42)]);
}

#[test]
fn test_negative_float() {
    let tokens = lex("-3.14");
    assert_eq!(tokens, vec![float_token("-3.14")]);
    match &tokens[0] {
        Token::Float(text) => assert_eq!(text.parse::<f64>().unwrap(), -3.14),
        _ => panic!("Expected a Float"),
    }
}

#[test]
fn test_subtraction_vs_negative_number() {
    assert_eq!(
        lex("10 - 5 -3"),
        vec![
            Token::Number(10),
            Token::Minus,
            Token::Number(5),
            Token::Number(-3)
        ]
    );
}

#[test]
fn test_mixed_negative_and_subtraction() {
    assert_eq!(
        lex("-5 - -3"),
        vec![Token::Number(-5), Token::Minus, Token::Number(-3)]
    );
}

#[test]
fn a_minus_before_a_digit_belongs_to_the_number() {
    assert_eq!(
        lex("a -5"),
        vec![Token::Identifier("a".to_string()), Token::Number(-5)]
    );
    assert_eq!(
        lex("a - 5"),
        vec![
            Token::Identifier("a".to_string()),
            Token::Minus,
            Token::Number(5)
        ]
    );
    assert_eq!(
        lex("a-5"),
        vec![Token::Identifier("a".to_string()), Token::Number(-5)]
    );
    assert_eq!(
        lex("a - b"),
        vec![
            Token::Identifier("a".to_string()),
            Token::Minus,
            Token::Identifier("b".to_string())
        ]
    );
    assert_eq!(lex("-"), vec![Token::Minus]);
    assert_eq!(lex("--1"), vec![Token::Minus, Token::Number(-1)]);
}

#[test]
fn every_keyword_has_its_token() {
    assert_eq!(
        lex("class func var then end ret if else for while loop"),
        vec![
            Token::Class,
            Token::Func,
            Token::Var,
            Token::Then,
            Token::End,
            Token::Ret,
            Token::If,
            Token::Else,
            Token::For,
            Token::While,
            Token::Loop
        ]
    );
    assert_eq!(
        lex("true false"),
        vec![Token::Boolean(true), Token::Boolean(false)]
    );
    assert_eq!(
        lex("int float string bool"),
        vec![
            Token::Type(Type::Int),
            Token::Type(Type::Float),
            Token::Type(Type::String),
            Token::Type(Type::Bool)
        ]
    );
}

#[test]
fn a_word_that_only_starts_like_a_keyword_is_an_identifier() {
    assert_eq!(
        lex("classes iff end_ Int whil e"),
        vec![
            Token::Identifier("classes".to_string()),
            Token::Identifier("iff".to_string()),
            Token::Identifier("end_".to_string()),
            Token::Identifier("Int".to_string()),
            Token::Identifier("whil".to_string()),
            Token::Identifier("e".to_string())
        ]
    );
}

#[test]
fn identifiers_take_letters_digits_and_underscores() {
    assert_eq!(
        lex("x1 a_b_2 caf\u{e9} \u{3b1}\u{3b2}"),
        vec![
            Token::Identifier("x1".to_string()),
            Token::Identifier("a_b_2".to_string()),
            Token::Identifier("caf\u{e9}".to_string()),
            Token::Identifier("\u{3b1}\u{3b2}".to_string())
        ]
    );
    assert_eq!(
        lex("1abc"),
        vec![Token::Number(1), Token::Identifier("abc".to_string())]
    );
}

#[test]
fn an_underscore_does_not_start_a_token() {
    let mut lexer = Lexer::new("_x");
    assert_eq!(
        lexer.get_next_token(),
        Err(LexError::UnrecognizedCharacter('_'))
    );
}

#[test]
fn operators_and_punctuation() {
    assert_eq!(
        lex("= == < > + - * / ( ) { } ,"),
        vec![
            Token::Assign,
            Token::Equal,
            Token::LessThan,
            Token::GreaterThan,
            Token::Plus,
            Token::Minus,
            Token::Multiply,
            Token::Divide,
            Token::LParen,
            Token::RParen,
            Token::LBrace,
            Token::RBrace,
            Token::Comma
        ]
    );
    assert_eq!(
        lex("==="),
        vec![Token::Equal, Token::Assign]
    );
    assert_eq!(lex("=="), vec![Token::Equal]);
    assert_eq!(lex("= ="), vec![Token::Assign, Token::Assign]);
}

#[test]
fn white_space_of_every_sort_is_skipped() {
    assert_eq!(
        lex(" \t\r\n x \u{a0}\u{2003} 1 \n"),
        vec![Token::Identifier("x".to_string()), Token::Number(1)]
    );
    assert_eq!(lex(""), vec![]);
    assert_eq!(lex("   \n\t "), vec![]);
}

#[test]
fn the_end_marker_comes_again_and_again() {
    let mut lexer = Lexer::new("x ");
    assert_eq!(lexer.get_next_token(), Ok(Token::Identifier("x".to_string())));
    assert_eq!(lexer.get_next_token(), Ok(Token::EOF));
    assert_eq!(lexer.get_next_token(), Ok(Token::EOF));
    assert_eq!(lexer.get_next_token(), Ok(Token::EOF));
}

#[test]
fn a_fraction_needs_a_digit_behind_the_point() {
    assert_eq!(lex("1.5"), vec![float_token("1.5")]);
    assert_eq!(
        lex("0.25 10.0 -0.5"),
        vec![float_token("0.25"), float_token("10.0"), float_token("-0.5")]
    );
    assert_eq!(
        lex("2.5e3"),
        vec![float_token("2.5"), Token::Identifier("e3".to_string())]
    );

    let mut lexer = Lexer::new("3.");
    assert_eq!(lexer.get_next_token(), Ok(Token::Number(3)));
    assert_eq!(
        lexer.get_next_token(),
        Err(LexError::UnrecognizedCharacter('.'))
    );

    let mut lexer = Lexer::new("3.x");
    assert_eq!(lexer.get_next_token(), Ok(Token::Number(3)));
    assert_eq!(
        lexer.get_next_token(),
        Err(LexError::UnrecognizedCharacter('.'))
    );

    let mut lexer = Lexer::new("1.5.25");
    assert_eq!(lexer.get_next_token(), Ok(float_token("1.5")));
    assert_eq!(
        lexer.get_next_token(),
        Err(LexError::UnrecognizedCharacter('.'))
    );
}

#[test]
fn a_float_keeps_every_digit_of_its_text() {
    let text = "123456789012345678901234567890.000000000000000000001";
    assert_eq!(lex(text), vec![float_token(text)]);
    assert_eq!(lex("007.50"), vec![float_token("007.50")]);
}

#[test]
fn integers_fill_the_whole_range_and_no_more() {
    assert_eq!(lex("0"), vec![Token::Number(0)]);
    assert_eq!(lex("-0"), vec![Token::Number(0)]);
    assert_eq!(lex("007"), vec![Token::Number(7)]);
    assert_eq!(lex("9223372036854775807"), vec![Token::Number(i64::MAX)]);
    assert_eq!(lex("-9223372036854775808"), vec![Token::Number(i64::MIN)]);
    assert_eq!(lex("-9223372036854775807"), vec![Token::Number(-i64::MAX)]);
    assert_eq!(
        lex("0000000000000000000000009223372036854775807"),
        vec![Token::Number(i64::MAX)]
    );

    let mut lexer = Lexer::new("9223372036854775808");
    assert_eq!(lexer.get_next_token(), Err(LexError::IntegerOutOfRange));
    let mut lexer = Lexer::new("-9223372036854775809");
    assert_eq!(lexer.get_next_token(), Err(LexError::IntegerOutOfRange));
    let mut lexer = Lexer::new("99999999999999999999999999");
    assert_eq!(lexer.get_next_token(), Err(LexError::IntegerOutOfRange));
    let mut lexer = Lexer::new("18446744073709551616");
    assert_eq!(lexer.get_next_token(), Err(LexError::IntegerOutOfRange));
}

#[test]
fn an_unrecognized_character_is_an_error() {
    for (text, c) in [("!", '!'), (";", ';'), (".5", '.'), ("#", '#'), ("[", '['), ("'a'", '\'')] {
        let mut lexer = Lexer::new(text);
        assert_eq!(
            lexer.get_next_token(),
            Err(LexError::UnrecognizedCharacter(c))
        );
    }
    let mut lexer = Lexer::new("x = 1 ? 2");
    assert_eq!(lexer.get_next_token(), Ok(Token::Identifier("x".to_string())));
    assert_eq!(lexer.get_next_token(), Ok(Token::Assign));
    assert_eq!(lexer.get_next_token(), Ok(Token::Number(1)));
    assert_eq!(
        lexer.get_next_token(),
        Err(LexError::UnrecognizedCharacter('?'))
    );
}

#[test]
fn after_an_error_the_lexer_stays_where_it_was() {
    let mut lexer = Lexer::new("a   $ b");
    assert_eq!(lexer.get_next_token(), Ok(Token::Identifier("a".to_string())));
    assert_eq!(
        lexer.get_next_token(),
        Err(LexError::UnrecognizedCharacter('$'))
    );
    assert_eq!(
        lexer.get_next_token(),
        Err(LexError::UnrecognizedCharacter('$'))
    );
}

#[test]
fn tokenize_reads_the_whole_text() {
    assert_eq!(
        tokenize("func run() then ret 2 + 3 * 4 end"),
        Ok(vec![
            Token::Func,
            Token::Identifier("run".to_string()),
            Token::LParen,
            Token::RParen,
            Token::Then,
            Token::Ret,
            Token::Number(2),
            Token::Plus,
            Token::Number(3),
            Token::Multiply,
            Token::Number(4),
            Token::End
        ])
    );
    assert_eq!(tokenize(""), Ok(vec![]));
    assert_eq!(
        tokenize("x = 1 @"),
        Err(LexError::UnrecognizedCharacter('@'))
    );
    assert_eq!(
        tokenize("x = 99999999999999999999"),
        Err(LexError::IntegerOutOfRange)
    );
}

#[test]
fn lexing_the_same_text_again_gives_the_same_tokens() {
    let text = "class A then var x int x = -5 - 3.25 while x < 10 then x = x + 1 end end";
    let first = tokenize(text);
    let second = tokenize(text);
    assert!(first.is_ok());
    assert_eq!(first, second);
    assert_eq!(first.unwrap(), lex(text));
}

#[test]
fn the_tokens_ahead_do_not_depend_on_what_was_read() {
    let mut first = Lexer::new("var x int x = 1 + 2");
    first.get_next_token().unwrap();
    first.get_next_token().unwrap();
    first.get_next_token().unwrap();
    let mut second = Lexer::new("if y then x = 1 + 2");
    second.get_next_token().unwrap();
    second.get_next_token().unwrap();
    second.get_next_token().unwrap();
    let mut fresh = Lexer::new(" x = 1 + 2");
    loop {
        let expected = fresh.get_next_token();
        assert_eq!(first.get_next_token(), expected);
        assert_eq!(second.get_next_token(), expected);
        if expected == Ok(Token::EOF) {
            break;
        }
    }
}

#[test]
fn the_sort_of_a_token_forgets_what_it_holds() {
    assert_eq!(Token::Identifier("x".to_string()).kind(), TokenKind::Identifier);
    assert_eq!(Token::Number(7).kind(), TokenKind::Number);
    assert_eq!(Token::Number(-7).kind(), TokenKind::Number);
    assert_eq!(float_token("1.0").kind(), TokenKind::Float);
    assert_eq!(Token::StringLiteral("s".to_string()).kind(), TokenKind::StringLiteral);
    assert_eq!(Token::Type(Type::Bool).kind(), TokenKind::Type);
    assert_eq!(Token::Boolean(true).kind(), TokenKind::Boolean);
    assert_eq!(Token::Equal.kind(), TokenKind::Equal);
    assert_eq!(Token::Assign.kind(), TokenKind::Assign);
    assert_eq!(Token::EOF.kind(), TokenKind::EOF);
}

#[test]
fn a_string_literal_holds_what_stands_between_its_quotes() {
    assert_eq!(lex("\"hi\""), vec![Token::StringLiteral("hi".to_string())]);
    assert_eq!(lex("\"\""), vec![Token::StringLiteral("".to_string())]);
    assert_eq!(
        lex("\"two words\" \"1 + 2\""),
        vec![
            Token::StringLiteral("two words".to_string()),
            Token::StringLiteral("1 + 2".to_string())
        ]
    );
    assert_eq!(
        lex("x = \"if then \n end \\ $\" y"),
        vec![
            Token::Identifier("x".to_string()),
            Token::Assign,
            Token::StringLiteral("if then \n end \\ $".to_string()),
            Token::Identifier("y".to_string())
        ]
    );
    assert_eq!(
        lex("\"a\"\"b\""),
        vec![
            Token::StringLiteral("a".to_string()),
            Token::StringLiteral("b".to_string())
        ]
    );
    assert_eq!(
        lex("\"caf\u{e9}\""),
        vec![Token::StringLiteral("caf\u{e9}".to_string())]
    );
}

#[test]
fn a_string_literal_must_be_closed() {
    for text in ["\"", "\"abc", "x = \"abc def", "\"a\" \"b"] {
        let mut lexer = Lexer::new(text);
        let result = loop {
            match lexer.get_next_token() {
                Ok(Token::EOF) => break Ok(()),
                Ok(_) => {}
                Err(e) => break Err(e),
            }
        };
        assert_eq!(result, Err(LexError::UnterminatedString));
    }
    assert_eq!(tokenize("\"open"), Err(LexError::UnterminatedString));
}
