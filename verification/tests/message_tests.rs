use neutron::frontend::compile;
use neutron::frontend::CompileError;
use neutron::float::FloatRequest;
use neutron::interpreter::Interrupt;
use neutron::interpreter::RuntimeError;
use neutron::lexer::LexError;
use neutron::lexer::TokenKind;
use neutron::parser::Expectation;
use neutron::parser::ParseError;
use neutron::semantic::SemanticError;
use neutron::symbol_table::DeclarationError;
use neutron::symbol_table::Type;

#[test]
fn types_are_named_as_programs_write_them() {
    assert_eq!(Type::Int.name(), "int");
    assert_eq!(Type::Float.name(), "float");
    assert_eq!(Type::String.name(), "string");
    assert_eq!(Type::Bool.name(), "bool");
}

#[test]
fn every_sort_of_token_has_a_name() {
    let names = [
        (TokenKind::Class, "'class'"),
        (TokenKind::Func, "'func'"),
        (TokenKind::Var, "'var'"),
        (TokenKind::Identifier, "an identifier"),
        (TokenKind::Number, "an integer"),
        (TokenKind::Float, "a floating-point number"),
        (TokenKind::StringLiteral, "a string"),
        (TokenKind::Type, "a type name"),
        (TokenKind::If, "'if'"),
        (TokenKind::Else, "'else'"),
        (TokenKind::Assign, "'='"),
        (TokenKind::Equal, "'=='"),
        (TokenKind::Plus, "'+'"),
        (TokenKind::Minus, "'-'"),
        (TokenKind::Multiply, "'*'"),
        (TokenKind::Divide, "'/'"),
        (TokenKind::LParen, "'('"),
        (TokenKind::RParen, "')'"),
        (TokenKind::LBrace, "'{'"),
        (TokenKind::RBrace, "'}'"),
        (TokenKind::Comma, "','"),
        (TokenKind::Then, "'then'"),
        (TokenKind::End, "'end'"),
        (TokenKind::Ret, "'ret'"),
        (TokenKind::Loop, "'loop'"),
        (TokenKind::For, "'for'"),
        (TokenKind::While, "'while'"),
        (TokenKind::Boolean, "a boolean"),
        (TokenKind::LessThan, "'<'"),
        (TokenKind::GreaterThan, "'>'"),
        (TokenKind::EOF, "the end of the text"),
    ];
    for (kind, name) in names {
        assert_eq!(kind.name(), name);
        assert_eq!(Expectation::Token(kind).name(), name);
    }
    assert_eq!(Expectation::Statement.name(), "a statement");
    assert_eq!(Expectation::Expression.name(), "an expression");
}

#[test]
fn lexical_messages() {
    assert_eq!(
        LexError::UnrecognizedCharacter('$').message(),
        "unrecognized character: $"
    );
    assert_eq!(
        LexError::UnrecognizedCharacter('\u{e9}').message(),
        "unrecognized character: \u{e9}"
    );
    assert_eq!(LexError::IntegerOutOfRange.message(), "integer literal out of range");
    assert_eq!(LexError::UnterminatedString.message(), "string literal is not closed");
}

#[test]
fn declaration_messages() {
    assert_eq!(
        DeclarationError::DuplicateVariable.message(),
        "variable is already declared in the current scope"
    );
    assert_eq!(
        DeclarationError::DuplicateFunction.message(),
        "function is already declared"
    );
}

#[test]
fn syntax_messages() {
    assert_eq!(
        ParseError::Lexical(LexError::IntegerOutOfRange).message(),
        "integer literal out of range"
    );
    assert_eq!(
        ParseError::UnexpectedToken {
            found: TokenKind::End,
            expected: Expectation::Token(TokenKind::Type)
        }
        .message(),
        "unexpected token: 'end', expected a type name"
    );
    assert_eq!(
        ParseError::UnexpectedToken {
            found: TokenKind::EOF,
            expected: Expectation::Statement
        }
        .message(),
        "unexpected token: the end of the text, expected a statement"
    );
    assert_eq!(
        ParseError::UnexpectedToken {
            found: TokenKind::Comma,
            expected: Expectation::Expression
        }
        .message(),
        "unexpected token: ',', expected an expression"
    );
    assert_eq!(
        ParseError::Declaration(DeclarationError::DuplicateVariable).message(),
        "variable is already declared in the current scope"
    );
}

#[test]
fn semantic_messages() {
    assert_eq!(
        SemanticError::Declaration(DeclarationError::DuplicateFunction).message(),
        "function is already declared"
    );
    assert_eq!(SemanticError::UndeclaredVariable.message(), "variable is not declared");
    assert_eq!(
        SemanticError::AssignmentMismatch { expected: Type::Int, found: Type::String }.message(),
        "type mismatch in assignment: expected int, got string"
    );
    assert_eq!(
        SemanticError::OperandMismatch { left: Type::Float, right: Type::Int }.message(),
        "type mismatch between operands: float and int"
    );
    assert_eq!(
        SemanticError::NonBooleanCondition { found: Type::Int }.message(),
        "condition must be bool, got int"
    );
    assert_eq!(
        SemanticError::InvalidForBound.message(),
        "a bound of a 'for' loop must be an integer literal or a variable"
    );
    assert_eq!(
        SemanticError::NonIntegerBound.message(),
        "the bounds of a 'for' loop must be integers"
    );
    assert_eq!(SemanticError::UnsupportedExpression.message(), "expression has no type");
}

#[test]
fn runtime_messages() {
    let messages = [
        (RuntimeError::UndefinedVariable, "undefined variable"),
        (RuntimeError::UndefinedFunction, "function not found"),
        (RuntimeError::ArityMismatch, "wrong number of arguments"),
        (RuntimeError::UnsupportedOperands, "unsupported operands"),
        (RuntimeError::NonBooleanCondition, "condition must be a boolean"),
        (RuntimeError::NonIntegerRange, "the bounds of a 'for' loop must be integers"),
        (RuntimeError::DivisionByZero, "division by zero"),
        (RuntimeError::ArithmeticOverflow, "integer overflow"),
        (RuntimeError::StepLimitExceeded, "budget used up"),
    ];
    for (error, message) in messages {
        assert_eq!(error.message(), message);
        assert_eq!(
            Interrupt::Fault(error).message(),
            format!("runtime error: {}", message)
        );
    }
    assert_eq!(
        Interrupt::NeedsFloat(FloatRequest::Literal("1.5".to_string())).message(),
        "a floating-point result is needed"
    );
}

#[test]
fn a_failed_compilation_names_its_stage() {
    assert_eq!(
        compile("x = 1 #").unwrap_err().message(),
        "lexical error: unrecognized character: #"
    );
    assert_eq!(
        compile("var x").unwrap_err().message(),
        "syntax error: unexpected token: the end of the text, expected a type name"
    );
    assert_eq!(
        compile("var x int x = \"hi\"").unwrap_err().message(),
        "semantic error: type mismatch in assignment: expected int, got string"
    );
    assert_eq!(
        compile("var x string x = \"hi").unwrap_err().message(),
        "lexical error: string literal is not closed"
    );
    assert_eq!(
        compile("var x int x = true").unwrap_err().message(),
        "semantic error: type mismatch in assignment: expected int, got bool"
    );
    assert_eq!(
        CompileError::Semantic(SemanticError::UndeclaredVariable).message(),
        "semantic error: variable is not declared"
    );
}
