use neutron::ast::ASTNode;
use neutron::frontend::compile;
use neutron::frontend::CompileError;
use neutron::interpreter::Interpreter;
use neutron::interpreter::Value;
use neutron::lexer::LexError;
use neutron::lexer::TokenKind;
use neutron::parser::Expectation;
use neutron::parser::ParseError;
use neutron::semantic::SemanticError;
use neutron::symbol_table::Type;

#[test]
fn a_valid_program_passes_all_three_stages() {
    let (program, table) = compile(
        "class Counter then
            var count int
            func bump(by) then
                count = count + by
            end
         end
         var done bool
         done = 1 < 2",
    )
    .unwrap();
    match &program {
        ASTNode::Program(nodes) => assert_eq!(nodes.len(), 3),
        _ => panic!("Expected a Program ASTNode"),
    }
    assert_eq!(table.get_variable_type("count"), Some(Type::Int));
    assert_eq!(table.get_variable_type("done"), Some(Type::Bool));
    assert_eq!(table.get_variable_type("by"), None);
    assert_eq!(table.function_params("bump").unwrap(), &vec!["by".to_string()]);
    assert_eq!(table.depth(), 1);
}

#[test]
fn the_empty_text_is_a_valid_program() {
    let (program, table) = compile("").unwrap();
    assert_eq!(program, ASTNode::Program(vec![]));
    assert_eq!(table.depth(), 1);
}

#[test]
fn each_stage_fails_on_its_own() {
    assert!(matches!(
        compile("var x int x = 1 $"),
        Err(CompileError::Lexical(LexError::UnrecognizedCharacter('$')))
    ));
    assert!(matches!(
        compile("var x int x = "),
        Err(CompileError::Syntax(ParseError::UnexpectedToken {
            found: TokenKind::EOF,
            expected: Expectation::Expression
        }))
    ));
    assert!(matches!(
        compile("var x int x = true"),
        Err(CompileError::Semantic(SemanticError::AssignmentMismatch {
            expected: Type::Int,
            found: Type::Bool
        }))
    ));
    assert!(matches!(
        compile("x = 1"),
        Err(CompileError::Semantic(SemanticError::UndeclaredVariable))
    ));
}

#[test]
fn the_text_is_read_to_its_end_before_it_is_parsed() {
    // The token that does not fit comes first, the bad character later:
    // the lexer is heard first.
    assert!(matches!(
        compile("var x y ?"),
        Err(CompileError::Lexical(LexError::UnrecognizedCharacter('?')))
    ));
    assert!(matches!(
        compile("x = true 99999999999999999999"),
        Err(CompileError::Lexical(LexError::IntegerOutOfRange))
    ));
}

#[test]
fn a_program_that_passes_may_still_fail_when_it_runs() {
    let (program, _) = compile(
        "func half(n) then
            ret n / 0
         end
         func run() then
            ret half(4)
         end",
    )
    .unwrap();
    assert!(Interpreter::new().interpret(&program).is_err());
}

#[test]
fn from_text_to_value() {
    let (program, _) = compile(
        "var limit int
         limit = 10
         func run() then
            var sum int
            sum = 0
            for i = 0 limit
                sum = sum + i
            end
            ret sum
         end",
    )
    .unwrap();
    assert_eq!(Interpreter::new().interpret(&program), Ok(Value::Int(45)));
}

#[test]
fn assigning_twice_passes_and_the_last_value_stays() {
    let (program, _) = compile("var x int x = 5 x = 6").unwrap();
    let mut interpreter = Interpreter::new();
    assert_eq!(interpreter.interpret(&program), Ok(Value::Void));
    assert_eq!(interpreter.variable("x"), Some(&Value::Int(6)));
}

#[test]
fn a_string_for_an_int_is_a_type_mismatch() {
    assert!(matches!(
        compile("var x int x = \"hi\""),
        Err(CompileError::Semantic(SemanticError::AssignmentMismatch {
            expected: Type::Int,
            found: Type::String
        }))
    ));
    assert!(compile("var x string x = \"hi\"").is_ok());
}

#[test]
fn strings_compare_by_equality() {
    let (program, _) = compile(
        "var same bool
         same = \"abc\" == \"abc\"
         func run() then
            if \"a\" == \"b\" then ret 0 end
            if same then ret 1 end
            ret 2
         end",
    )
    .unwrap();
    assert_eq!(Interpreter::new().interpret(&program), Ok(Value::Int(1)));
}
