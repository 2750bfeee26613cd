use neutron::ast::ASTNode;
use neutron::lexer::LexError;
use neutron::lexer::Lexer;
use neutron::lexer::TokenKind;
use neutron::parser::Expectation;
use neutron::parser::ParseError;
use neutron::parser::Parser;
use neutron::symbol_table::DeclarationError;
use neutron::symbol_table::Type;

fn parse(input: &str) -> Result<ASTNode, ParseError> {
    let lexer = Lexer::new(input);
    let mut parser = Parser::new(lexer)?;
    parser.parse_program()
}

fn statements(input: &str) -> Vec<ASTNode> {
    match parse(input) {
        Ok(ASTNode::Program(nodes)) => nodes,
        other => panic!("Expected a Program ASTNode, got {:?}", other),
    }
}

fn expression(input: &str) -> ASTNode {
    let mut nodes = statements(&format!("x = {}", input));
    assert_eq!(nodes.len(), 1);
    match nodes.remove(0) {
        ASTNode::Assignment { variable, expression } => {
            assert_eq!(variable, "x");
            *expression
        }
        _ => panic!("Expected an Assignment"),
    }
}

fn unexpected(found: TokenKind, expected: Expectation) -> ParseError {
    ParseError::UnexpectedToken { found, expected }
}

fn wanted(found: TokenKind, expected: TokenKind) -> ParseError {
    ParseError::UnexpectedToken { found, expected: Expectation::Token(expected) }
}

fn num(value: i64) -> ASTNode {
    ASTNode::Number(value)
}

fn ident(name: &str) -> ASTNode {
    ASTNode::Identifier(name.to_string())
}

fn arith(left: ASTNode, operator: &str, right: ASTNode) -> ASTNode {
    ASTNode::Arithmetic {
        left: Box::new(left),
        operator: operator.to_string(),
        right: Box::new(right),
    }
}

fn compare(left: ASTNode, operator: &str, right: ASTNode) -> ASTNode {
    ASTNode::Comparison {
        left: Box::new(left),
        operator: operator.to_string(),
        right: Box::new(right),
    }
}

fn assign(name: &str, expression: ASTNode) -> ASTNode {
    ASTNode::Assignment { variable: name.to_string(), expression: Box::new(expression) }
}

fn var(name: &str, var_type: Type) -> ASTNode {
    ASTNode::VariableDeclaration { name: name.to_string(), var_type }
}

fn call(name: &str, args: Vec<ASTNode>) -> ASTNode {
    ASTNode::FunctionCall { name: name.to_string(), args }
}

#[test]
fn test_parse_simple_class() {
    let source_code = "
        class MyClass then
            var x
            func myFunc then
                x = 42
            end
        end
    ";

    // A declaration names its type: `var x` with `func` behind it is refused.
    assert_eq!(parse(source_code), Err(wanted(TokenKind::Func, TokenKind::Type)));

    let source_code = "
        class MyClass then
            var x int
            func myFunc() then
                x = 42
            end
        end
    ";
    let ast = parse(source_code).unwrap();

    match ast {
        ASTNode::Program(nodes) => {
            assert!(nodes
                .iter()
                .any(|node| matches!(node, ASTNode::ClassDeclaration { name, .. } if name == "MyClass")));

            for node in nodes {
                if let ASTNode::ClassDeclaration { members, .. } = node {
                    assert!(members.iter().any(
                        |member| matches!(member, ASTNode::VariableDeclaration { name, .. } if name == "x")
                    ));
                    assert!(members.iter().any(
                        |member| matches!(member, ASTNode::FunctionDeclaration { name, .. } if name == "myFunc")
                    ));
                }
            }
        }
        _ => panic!("Le programme n'est pas au format attendu."),
    }
}

#[test]
fn test_parse_program() {
    let input = "class MyClass then var x end";
    assert_eq!(parse(input), Err(wanted(TokenKind::End, TokenKind::Type)));

    let input = "class MyClass then var x int end";
    let ast = parse(input).unwrap();

    match ast {
        ASTNode::Program(nodes) => {
            assert_eq!(nodes.len(), 1);
            match &nodes[0] {
                ASTNode::ClassDeclaration { name, members } => {
                    assert_eq!(name, "MyClass");
                    assert_eq!(members.len(), 1);
                }
                _ => panic!("Expected a ClassDeclaration"),
            }
        }
        _ => panic!("Expected a Program ASTNode"),
    }
}

#[test]
fn test_parse_class_declaration() {
    let input = "class MyClass then var x end";
    assert_eq!(parse(input), Err(wanted(TokenKind::End, TokenKind::Type)));

    let input = "class MyClass then var x int end";
    let ast = parse(input).unwrap();

    match ast {
        ASTNode::Program(nodes) => {
            assert_eq!(nodes.len(), 1);
            match &nodes[0] {
                ASTNode::ClassDeclaration { name, members } => {
                    assert_eq!(name, "MyClass");
                    assert_eq!(members.len(), 1);
                    match &members[0] {
                        ASTNode::VariableDeclaration { name, var_type } => {
                            assert_eq!(name, "x");
                            assert_eq!(*var_type, Type::Int);
                        }
                        _ => panic!("Expected a VariableDeclaration"),
                    }
                }
                _ => panic!("Expected a ClassDeclaration"),
            }
        }
        _ => panic!("Expected a Program ASTNode"),
    }
}

#[test]
fn test_parse_function_declaration() {
    let input = "func myFunc(a, b) then var x end";
    assert_eq!(parse(input), Err(wanted(TokenKind::End, TokenKind::Type)));

    let input = "func myFunc(a, b) then var x bool end";
    let ast = parse(input).unwrap();

    match ast {
        ASTNode::Program(nodes) => {
            assert_eq!(nodes.len(), 1);
            match &nodes[0] {
                ASTNode::FunctionDeclaration { name, params, body } => {
                    assert_eq!(name, "myFunc");
                    assert_eq!(params.len(), 2);
                    assert_eq!(params[0], "a");
                    assert_eq!(params[1], "b");
                    assert_eq!(body.len(), 1);
                    match &body[0] {
                        ASTNode::VariableDeclaration { name, var_type } => {
                            assert_eq!(name, "x");
                            assert_eq!(*var_type, Type::Bool);
                        }
                        _ => panic!("Expected a VariableDeclaration"),
                    }
                }
                _ => panic!("Expected a FunctionDeclaration"),
            }
        }
        _ => panic!("Expected a Program ASTNode"),
    }
}

#[test]
fn test_parse_variable_declaration() {
    let input = "var x";
    assert_eq!(parse(input), Err(wanted(TokenKind::EOF, TokenKind::Type)));

    let input = "var x string";
    let ast = parse(input).unwrap();

    match ast {
        ASTNode::Program(nodes) => {
            assert_eq!(nodes.len(), 1);
            match &nodes[0] {
                ASTNode::VariableDeclaration { name, var_type } => {
                    assert_eq!(name, "x");
                    assert_eq!(*var_type, Type::String);
                }
                _ => panic!("Expected a VariableDeclaration"),
            }
        }
        _ => panic!("Expected a Program ASTNode"),
    }
}

#[test]
fn test_parse_assignment() {
    let input = "x = 5";
    let lexer = Lexer::new(input);
    let mut parser = Parser::new(lexer).unwrap();
    let ast = parser.parse_program().unwrap();

    match ast {
        ASTNode::Program(nodes) => {
            assert_eq!(nodes.len(), 1);
            match &nodes[0] {
                ASTNode::Assignment { variable, expression } => {
                    assert_eq!(variable, "x");
                    match **expression {
                        ASTNode::Number(value) => {
                            assert_eq!(value, 5);
                        }
                        _ => panic!("Expected a Number in the expression"),
                    }
                }
                _ => panic!("Expected an Assignment"),
            }
        }
        _ => panic!("Expected a Program ASTNode"),
    }
}

#[test]
fn test_parse_binary_operations() {
    let input = "x = 3 + 4 * 2";
    let lexer = Lexer::new(input);
    let mut parser = Parser::new(lexer).unwrap();
    let ast = parser.parse_program().unwrap();

    match ast {
        ASTNode::Program(nodes) => {
            assert_eq!(nodes.len(), 1);
            match &nodes[0] {
                ASTNode::Assignment { variable, expression } => {
                    assert_eq!(variable, "x");
                    match **expression {
                        ASTNode::Arithmetic { ref operator, ref left, ref right } => {
                            assert_eq!(operator, "+");
                            match **left {
                                ASTNode::Number(value) => assert_eq!(value, 3),
                                _ => panic!("Expected a Number on the left side"),
                            }
                            match **right {
                                ASTNode::Arithmetic { ref operator, ref left, ref right } => {
                                    assert_eq!(operator, "*");
                                    match **left {
                                        ASTNode::Number(value) => assert_eq!(value, 4),
                                        _ => panic!("Expected a Number on the left side"),
                                    }
                                    match **right {
                                        ASTNode::Number(value) => assert_eq!(value, 2),
                                        _ => panic!("Expected a Number on the right side"),
                                    }
                                }
                                _ => panic!("Expected a BinaryOperation on the right side"),
                            }
                        }
                        _ => panic!("Expected a BinaryOperation"),
                    }
                }
                _ => panic!("Expected an Assignment"),
            }
        }
        _ => panic!("Expected a Program ASTNode"),
    }
}

#[test]
fn an_empty_text_is_an_empty_program() {
    assert_eq!(parse(""), Ok(ASTNode::Program(vec![])));
    assert_eq!(parse("  \n\t "), Ok(ASTNode::Program(vec![])));
}

#[test]
fn multiplication_binds_tighter_than_addition() {
    assert_eq!(
        expression("2 + 3 * 4"),
        arith(num(2), "+", arith(num(3), "*", num(4)))
    );
    assert_eq!(
        expression("2 * 3 + 4"),
        arith(arith(num(2), "*", num(3)), "+", num(4))
    );
    assert_eq!(
        expression("8 / 4 - 1"),
        arith(arith(num(8), "/", num(4)), "-", num(1))
    );
}

#[test]
fn operators_group_to_the_left() {
    assert_eq!(
        expression("1 - 2 - 3"),
        arith(arith(num(1), "-", num(2)), "-", num(3))
    );
    assert_eq!(
        expression("8 / 4 / 2"),
        arith(arith(num(8), "/", num(4)), "/", num(2))
    );
    assert_eq!(
        expression("1 + 2 - 3 + 4"),
        arith(arith(arith(num(1), "+", num(2)), "-", num(3)), "+", num(4))
    );
}

#[test]
fn comparisons_stand_above_sums() {
    assert_eq!(
        expression("a < b + 1"),
        compare(ident("a"), "<", arith(ident("b"), "+", num(1)))
    );
    assert_eq!(
        expression("a + 1 > b * 2"),
        compare(arith(ident("a"), "+", num(1)), ">", arith(ident("b"), "*", num(2)))
    );
    assert_eq!(expression("a == b"), compare(ident("a"), "==", ident("b")));
    assert_eq!(
        expression("a < b == c"),
        compare(compare(ident("a"), "<", ident("b")), "==", ident("c"))
    );
    assert_eq!(
        expression("a == b + 1 < c"),
        compare(
            compare(ident("a"), "==", arith(ident("b"), "+", num(1))),
            "<",
            ident("c")
        )
    );
}

#[test]
fn parentheses_group_and_leave_no_node() {
    assert_eq!(
        expression("(2 + 3) * 4"),
        arith(arith(num(2), "+", num(3)), "*", num(4))
    );
    assert_eq!(expression("((7))"), num(7));
    assert_eq!(
        expression("1 - (2 - 3)"),
        arith(num(1), "-", arith(num(2), "-", num(3)))
    );
    assert_eq!(
        expression("(a < b) == (c > d)"),
        compare(
            compare(ident("a"), "<", ident("b")),
            "==",
            compare(ident("c"), ">", ident("d"))
        )
    );
}

#[test]
fn literals_of_every_kind() {
    assert_eq!(expression("42"), num(42));
    assert_eq!(expression("-42"), num(-42));
    assert_eq!(expression("true"), ASTNode::Boolean(true));
    assert_eq!(expression("false"), ASTNode::Boolean(false));
    assert_eq!(expression("3.25"), ASTNode::Float("3.25".to_string()));
    assert_eq!(expression("-0.5"), ASTNode::Float("-0.5".to_string()));
    assert_eq!(expression("name"), ident("name"));
    assert_eq!(expression("\"hi\""), ASTNode::StringLiteral("hi".to_string()));
    assert_eq!(expression("\"\""), ASTNode::StringLiteral("".to_string()));
    assert_eq!(
        expression("\"a\" == \"b\""),
        compare(
            ASTNode::StringLiteral("a".to_string()),
            "==",
            ASTNode::StringLiteral("b".to_string())
        )
    );
}

#[test]
fn a_minus_glued_to_a_digit_is_no_operator() {
    assert_eq!(expression("a - 5"), arith(ident("a"), "-", num(5)));
    assert_eq!(
        parse("x = a -5"),
        Err(unexpected(TokenKind::Number, Expectation::Statement))
    );
    assert_eq!(expression("a - -5"), arith(ident("a"), "-", num(-5)));
}

#[test]
fn calls_take_arguments_with_or_without_commas() {
    assert_eq!(expression("f()"), call("f", vec![]));
    assert_eq!(expression("f(1)"), call("f", vec![num(1)]));
    assert_eq!(expression("f(1, 2, 3)"), call("f", vec![num(1), num(2), num(3)]));
    assert_eq!(expression("f(1 2 3)"), call("f", vec![num(1), num(2), num(3)]));
    assert_eq!(expression("f(1, 2,)"), call("f", vec![num(1), num(2)]));
    assert_eq!(
        expression("f(a + 1, g(b), (c))"),
        call(
            "f",
            vec![arith(ident("a"), "+", num(1)), call("g", vec![ident("b")]), ident("c")]
        )
    );
    assert_eq!(
        expression("f(1) + g(2) * 3"),
        arith(call("f", vec![num(1)]), "+", arith(call("g", vec![num(2)]), "*", num(3)))
    );
    assert_eq!(
        parse("x = f(,1)"),
        Err(unexpected(TokenKind::Comma, Expectation::Expression))
    );
    assert_eq!(
        parse("x = f(1"),
        Err(unexpected(TokenKind::EOF, Expectation::Expression))
    );
    assert_eq!(
        parse("x = f(1,, 2)"),
        Err(unexpected(TokenKind::Comma, Expectation::Expression))
    );
}

#[test]
fn an_expression_needs_a_primary() {
    assert_eq!(parse("x ="), Err(unexpected(TokenKind::EOF, Expectation::Expression)));
    assert_eq!(parse("x = +"), Err(unexpected(TokenKind::Plus, Expectation::Expression)));
    assert_eq!(parse("x = 1 +"), Err(unexpected(TokenKind::EOF, Expectation::Expression)));
    assert_eq!(parse("x = 1 * end"), Err(unexpected(TokenKind::End, Expectation::Expression)));
    assert_eq!(parse("x = (1 + 2"), Err(wanted(TokenKind::EOF, TokenKind::RParen)));
    assert_eq!(parse("x = (1 + 2 3)"), Err(wanted(TokenKind::Number, TokenKind::RParen)));
    assert_eq!(parse("x = {"), Err(unexpected(TokenKind::LBrace, Expectation::Expression)));
    assert_eq!(parse("x = int"), Err(unexpected(TokenKind::Type, Expectation::Expression)));
}

#[test]
fn a_statement_is_told_by_its_first_token() {
    for (text, found) in [
        ("5", TokenKind::Number),
        ("1.5", TokenKind::Float),
        ("\"text\"", TokenKind::StringLiteral),
        ("true", TokenKind::Boolean),
        ("end", TokenKind::End),
        ("else", TokenKind::Else),
        ("then", TokenKind::Then),
        ("loop", TokenKind::Loop),
        ("int", TokenKind::Type),
        ("(", TokenKind::LParen),
        (")", TokenKind::RParen),
        ("{", TokenKind::LBrace),
        ("}", TokenKind::RBrace),
        ("=", TokenKind::Assign),
        ("==", TokenKind::Equal),
        ("+", TokenKind::Plus),
        ("-", TokenKind::Minus),
        ("*", TokenKind::Multiply),
        ("/", TokenKind::Divide),
        (",", TokenKind::Comma),
        ("<", TokenKind::LessThan),
        (">", TokenKind::GreaterThan),
    ] {
        assert_eq!(parse(text), Err(unexpected(found, Expectation::Statement)));
    }
}

#[test]
fn an_identifier_starts_an_assignment() {
    assert_eq!(parse("f()"), Err(wanted(TokenKind::LParen, TokenKind::Assign)));
    assert_eq!(parse("x"), Err(wanted(TokenKind::EOF, TokenKind::Assign)));
    assert_eq!(parse("x == 1"), Err(wanted(TokenKind::Equal, TokenKind::Assign)));
    assert_eq!(
        statements("x = 1 y = x + 1"),
        vec![assign("x", num(1)), assign("y", arith(ident("x"), "+", num(1)))]
    );
}

#[test]
fn declarations_name_one_of_the_four_types() {
    assert_eq!(
        statements("var a int var b float var c string var d bool"),
        vec![
            var("a", Type::Int),
            var("b", Type::Float),
            var("c", Type::String),
            var("d", Type::Bool)
        ]
    );
    assert_eq!(parse("var"), Err(wanted(TokenKind::EOF, TokenKind::Identifier)));
    assert_eq!(parse("var int"), Err(wanted(TokenKind::Type, TokenKind::Identifier)));
    assert_eq!(parse("var x y"), Err(wanted(TokenKind::Identifier, TokenKind::Type)));
    assert_eq!(parse("var x = 1"), Err(wanted(TokenKind::Assign, TokenKind::Type)));
}

#[test]
fn the_parser_refuses_a_second_declaration_in_its_scope() {
    assert_eq!(
        parse("var x int var x int"),
        Err(ParseError::Declaration(DeclarationError::DuplicateVariable))
    );
    assert_eq!(
        parse("var x int var x bool"),
        Err(ParseError::Declaration(DeclarationError::DuplicateVariable))
    );
    // The parser opens no scope for a function or a class.
    assert_eq!(
        parse("func f() then var x int end func g() then var x int end"),
        Err(ParseError::Declaration(DeclarationError::DuplicateVariable))
    );
    assert_eq!(
        parse("var x int class A then var x int end"),
        Err(ParseError::Declaration(DeclarationError::DuplicateVariable))
    );
    assert_eq!(
        parse("if true then var x int else var x int end"),
        Err(ParseError::Declaration(DeclarationError::DuplicateVariable))
    );
}

#[test]
fn the_parser_opens_a_scope_for_each_loop() {
    assert!(parse("var x int while true then var x int end").is_ok());
    assert!(parse("while true then var x int end var x int").is_ok());
    assert!(parse("while true then var x int end while true then var x int end").is_ok());
    assert!(parse("for i = 0 5 var x int end for i = 0 5 var x int end").is_ok());
    assert!(parse("var i int for i = 0 5 end").is_ok());
    assert_eq!(
        parse("while true then var x int var x int end"),
        Err(ParseError::Declaration(DeclarationError::DuplicateVariable))
    );
    assert_eq!(
        parse("for i = 0 5 var i int end"),
        Err(ParseError::Declaration(DeclarationError::DuplicateVariable))
    );
    assert!(parse("for i = 0 5 end var i int").is_ok());
}

#[test]
fn a_class_is_a_name_around_statements() {
    assert_eq!(
        statements("class A then end"),
        vec![ASTNode::ClassDeclaration { name: "A".to_string(), members: vec![] }]
    );
    assert_eq!(
        statements("class A then var x int func f() then ret x end end"),
        vec![ASTNode::ClassDeclaration {
            name: "A".to_string(),
            members: vec![
                var("x", Type::Int),
                ASTNode::FunctionDeclaration {
                    name: "f".to_string(),
                    params: vec![],
                    body: vec![ASTNode::Ret { expression: Box::new(ident("x")) }],
                },
            ],
        }]
    );
    assert_eq!(parse("class"), Err(wanted(TokenKind::EOF, TokenKind::Identifier)));
    assert_eq!(parse("class then"), Err(wanted(TokenKind::Then, TokenKind::Identifier)));
    assert_eq!(parse("class A end"), Err(wanted(TokenKind::End, TokenKind::Then)));
    assert_eq!(
        parse("class A then"),
        Err(unexpected(TokenKind::EOF, Expectation::Statement))
    );
    assert_eq!(
        parse("class A then else end"),
        Err(unexpected(TokenKind::Else, Expectation::Statement))
    );
}

#[test]
fn a_function_lists_its_parameters() {
    let function = |params: Vec<&str>| {
        vec![ASTNode::FunctionDeclaration {
            name: "f".to_string(),
            params: params.into_iter().map(|p| p.to_string()).collect(),
            body: vec![],
        }]
    };
    assert_eq!(statements("func f() then end"), function(vec![]));
    assert_eq!(statements("func f(a) then end"), function(vec!["a"]));
    assert_eq!(statements("func f(a, b, c) then end"), function(vec!["a", "b", "c"]));
    assert_eq!(statements("func f(a b) then end"), function(vec!["a", "b"]));
    assert_eq!(statements("func f(,a,,b,) then end"), function(vec!["a", "b"]));
    assert_eq!(statements("func f(a, a) then end"), function(vec!["a", "a"]));
    assert_eq!(parse("func f(1) then end"), Err(wanted(TokenKind::Number, TokenKind::RParen)));
    assert_eq!(parse("func f(a"), Err(wanted(TokenKind::EOF, TokenKind::RParen)));
    assert_eq!(parse("func f(a int) then end"), Err(wanted(TokenKind::Type, TokenKind::RParen)));
    assert_eq!(parse("func f then end"), Err(wanted(TokenKind::Then, TokenKind::LParen)));
    assert_eq!(parse("func () then end"), Err(wanted(TokenKind::LParen, TokenKind::Identifier)));
    assert_eq!(parse("func f() end"), Err(wanted(TokenKind::End, TokenKind::Then)));
    assert_eq!(
        parse("func f() then x = 1"),
        Err(unexpected(TokenKind::EOF, Expectation::Statement))
    );
}

#[test]
fn ret_returns_an_expression() {
    assert_eq!(
        statements("func run() then ret 2 + 3 * 4 end"),
        vec![ASTNode::FunctionDeclaration {
            name: "run".to_string(),
            params: vec![],
            body: vec![ASTNode::Ret {
                expression: Box::new(arith(num(2), "+", arith(num(3), "*", num(4)))),
            }],
        }]
    );
    assert_eq!(
        statements("ret f(1)"),
        vec![ASTNode::Ret { expression: Box::new(call("f", vec![num(1)])) }]
    );
    assert_eq!(parse("ret"), Err(unexpected(TokenKind::EOF, Expectation::Expression)));
    assert_eq!(parse("ret end"), Err(unexpected(TokenKind::End, Expectation::Expression)));
}

#[test]
fn an_if_has_a_then_block_and_maybe_an_else_block() {
    assert_eq!(
        statements("if a < b then x = 1 end"),
        vec![ASTNode::IfElse {
            condition: Box::new(compare(ident("a"), "<", ident("b"))),
            then_block: vec![assign("x", num(1))],
            else_block: None,
        }]
    );
    assert_eq!(
        statements("if true then x = 1 y = 2 else x = 3 end"),
        vec![ASTNode::IfElse {
            condition: Box::new(ASTNode::Boolean(true)),
            then_block: vec![assign("x", num(1)), assign("y", num(2))],
            else_block: Some(vec![assign("x", num(3))]),
        }]
    );
    assert_eq!(
        statements("if true then else end"),
        vec![ASTNode::IfElse {
            condition: Box::new(ASTNode::Boolean(true)),
            then_block: vec![],
            else_block: Some(vec![]),
        }]
    );
    assert_eq!(
        statements("if a then if b then x = 1 else x = 2 end else x = 3 end"),
        vec![ASTNode::IfElse {
            condition: Box::new(ident("a")),
            then_block: vec![ASTNode::IfElse {
                condition: Box::new(ident("b")),
                then_block: vec![assign("x", num(1))],
                else_block: Some(vec![assign("x", num(2))]),
            }],
            else_block: Some(vec![assign("x", num(3))]),
        }]
    );
    assert_eq!(parse("if true x = 1 end"), Err(wanted(TokenKind::Identifier, TokenKind::Then)));
    assert_eq!(
        parse("if true then x = 1"),
        Err(unexpected(TokenKind::EOF, Expectation::Statement))
    );
    assert_eq!(
        parse("if true then else x = 1 else x = 2 end"),
        Err(wanted(TokenKind::Else, TokenKind::End))
    );
    assert_eq!(parse("if then end"), Err(unexpected(TokenKind::Then, Expectation::Expression)));
}

#[test]
fn a_while_has_a_condition_and_a_body() {
    assert_eq!(
        statements("while x < 10 then x = x + 1 end"),
        vec![ASTNode::WhileLoop {
            condition: Box::new(compare(ident("x"), "<", num(10))),
            body: vec![assign("x", arith(ident("x"), "+", num(1)))],
        }]
    );
    assert_eq!(
        statements("while true then ret 1 end"),
        vec![ASTNode::WhileLoop {
            condition: Box::new(ASTNode::Boolean(true)),
            body: vec![ASTNode::Ret { expression: Box::new(num(1)) }],
        }]
    );
    assert_eq!(parse("while true end"), Err(wanted(TokenKind::End, TokenKind::Then)));
    assert_eq!(
        parse("while true then"),
        Err(unexpected(TokenKind::EOF, Expectation::Statement))
    );
    assert_eq!(
        parse("while true then else end"),
        Err(unexpected(TokenKind::Else, Expectation::Statement))
    );
}

#[test]
fn a_for_has_a_variable_two_bounds_and_a_body() {
    assert_eq!(
        statements("for i = 0 5 end"),
        vec![ASTNode::ForLoop {
            variable: "i".to_string(),
            start: Box::new(num(0)),
            end: Box::new(num(5)),
            body: vec![],
        }]
    );
    assert_eq!(
        statements("for i = a n + 1 x = x + i end"),
        vec![ASTNode::ForLoop {
            variable: "i".to_string(),
            start: Box::new(ident("a")),
            end: Box::new(arith(ident("n"), "+", num(1))),
            body: vec![assign("x", arith(ident("x"), "+", ident("i")))],
        }]
    );
    assert_eq!(
        statements("for i = 1 -1 end"),
        vec![ASTNode::ForLoop {
            variable: "i".to_string(),
            start: Box::new(num(1)),
            end: Box::new(num(-1)),
            body: vec![],
        }]
    );
    assert_eq!(
        parse("for i = 0 5 then end"),
        Err(unexpected(TokenKind::Then, Expectation::Statement))
    );
    assert_eq!(parse("for = 0 5 end"), Err(wanted(TokenKind::Assign, TokenKind::Identifier)));
    assert_eq!(parse("for i 0 5 end"), Err(wanted(TokenKind::Number, TokenKind::Assign)));
    assert_eq!(
        parse("for i = 0 end"),
        Err(unexpected(TokenKind::End, Expectation::Expression))
    );
    assert_eq!(
        parse("for i = 0 5"),
        Err(unexpected(TokenKind::EOF, Expectation::Statement))
    );
}

#[test]
fn a_character_that_starts_no_token_ends_parsing() {
    assert_eq!(
        parse("x = 'hi'"),
        Err(ParseError::Lexical(LexError::UnrecognizedCharacter('\'')))
    );
    assert_eq!(
        parse("x = \"hi"),
        Err(ParseError::Lexical(LexError::UnterminatedString))
    );
    assert_eq!(
        parse("?"),
        Err(ParseError::Lexical(LexError::UnrecognizedCharacter('?')))
    );
    assert_eq!(
        parse("x = 1 ; y = 2"),
        Err(ParseError::Lexical(LexError::UnrecognizedCharacter(';')))
    );
    assert_eq!(
        parse("x = 9223372036854775808"),
        Err(ParseError::Lexical(LexError::IntegerOutOfRange))
    );
    let lexer = Lexer::new("@");
    assert!(matches!(
        Parser::new(lexer),
        Err(ParseError::Lexical(LexError::UnrecognizedCharacter('@')))
    ));
}

#[test]
fn an_error_is_found_where_the_parser_reads_not_before() {
    // The bad character stands behind the token that does not fit.
    assert_eq!(parse("var x y ?"), Err(wanted(TokenKind::Identifier, TokenKind::Type)));
    // One token is read ahead.
    assert_eq!(
        parse("x = 1 ?"),
        Err(ParseError::Lexical(LexError::UnrecognizedCharacter('?')))
    );
}

#[test]
fn braces_are_tokens_that_the_grammar_does_not_use() {
    assert_eq!(
        parse("func f() { }"),
        Err(wanted(TokenKind::LBrace, TokenKind::Then))
    );
}

#[test]
fn parsing_the_same_text_again_gives_the_same_tree() {
    let text = "class A then func f(a, b) then if a < b then ret a else ret b end end end";
    let first = parse(text);
    assert!(first.is_ok());
    assert_eq!(first, parse(text));
}
