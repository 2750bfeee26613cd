use neutron::ast::ASTNode;
use neutron::semantic::analyze;
use neutron::semantic::get_expression_type;
use neutron::semantic::SemanticError;
use neutron::symbol_table::DeclarationError;
use neutron::symbol_table::SymbolTable;
use neutron::symbol_table::Type;

fn var(name: &str, var_type: Type) -> ASTNode {
    ASTNode::VariableDeclaration { name: name.to_string(), var_type }
}

fn assign(name: &str, expression: ASTNode) -> ASTNode {
    ASTNode::Assignment { variable: name.to_string(), expression: Box::new(expression) }
}

fn ident(name: &str) -> ASTNode {
    ASTNode::Identifier(name.to_string())
}

fn text(value: &str) -> ASTNode {
    ASTNode::StringLiteral(value.to_string())
}

fn float(value: &str) -> ASTNode {
    ASTNode::Float(value.to_string())
}

fn arith(left: ASTNode, operator: &str, right: ASTNode) -> ASTNode {
    ASTNode::Arithmetic {
        left: Box::new(left),
        operator: operator.to_string(),
        right: Box::new(right),
    }
}

fn compare(left: ASTNode, operator: &str, right: ASTNode) -> ASTNode {
    ASTNode::Comparison {
        left: Box::new(left),
        operator: operator.to_string(),
        right: Box::new(right),
    }
}

fn check(nodes: Vec<ASTNode>) -> Result<(), SemanticError> {
    let mut symbol_table = SymbolTable::new();
    analyze(&ASTNode::Program(nodes), &mut symbol_table)
}

fn literal_of(var_type: Type) -> ASTNode {
    match var_type {
        Type::Int => ASTNode::Number(1),
        Type::Float => float("1.5"),
        Type::String => text("s"),
        Type::Bool => ASTNode::Boolean(true),
    }
}

#[test]
fn test_variable_declaration() {
    let program = ASTNode::Program(vec![ASTNode::VariableDeclaration {
        name: "x".to_string(),
        var_type: Type::Int,
    }]);

    let mut symbol_table = SymbolTable::new();

    analyze(&program, &mut symbol_table).unwrap();

    assert!(symbol_table.contains_variable("x"));
}

#[test]
fn test_undeclared_variable() {
    let program = ASTNode::Program(vec![ASTNode::Assignment {
        variable: "y".to_string(),
        expression: Box::new(ASTNode::Number(42)),
    }]);

    let mut symbol_table = SymbolTable::new();

    assert_eq!(
        analyze(&program, &mut symbol_table),
        Err(SemanticError::UndeclaredVariable)
    );
}

#[test]
fn assigning_twice_with_the_declared_type_passes() {
    assert_eq!(
        check(vec![
            var("x", Type::Int),
            assign("x", ASTNode::Number(5)),
            assign("x", ASTNode::Number(6)),
        ]),
        Ok(())
    );
}

#[test]
fn assigning_a_string_to_an_int_is_a_mismatch() {
    assert_eq!(
        check(vec![var("x", Type::Int), assign("x", text("hi"))]),
        Err(SemanticError::AssignmentMismatch { expected: Type::Int, found: Type::String })
    );
}

#[test]
fn an_assignment_passes_exactly_when_the_types_are_equal() {
    let types = [Type::Int, Type::Float, Type::String, Type::Bool];
    for declared in types {
        for assigned in types {
            let result = check(vec![var("x", declared), assign("x", literal_of(assigned))]);
            if declared == assigned {
                assert_eq!(result, Ok(()));
            } else {
                assert_eq!(
                    result,
                    Err(SemanticError::AssignmentMismatch { expected: declared, found: assigned })
                );
            }
        }
    }
}

#[test]
fn int_and_float_are_never_compatible() {
    assert_eq!(
        check(vec![var("x", Type::Float), assign("x", ASTNode::Number(1))]),
        Err(SemanticError::AssignmentMismatch { expected: Type::Float, found: Type::Int })
    );
    assert_eq!(
        check(vec![
            var("x", Type::Float),
            assign("x", arith(float("1.0"), "+", ASTNode::Number(1))),
        ]),
        Err(SemanticError::OperandMismatch { left: Type::Float, right: Type::Int })
    );
}

#[test]
fn the_type_of_an_expression() {
    let mut table = SymbolTable::new();
    table.declare_variable("n", Type::Int).unwrap();
    table.declare_variable("f", Type::Float).unwrap();
    table.declare_variable("s", Type::String).unwrap();
    table.declare_variable("b", Type::Bool).unwrap();

    assert_eq!(get_expression_type(&ASTNode::Number(3), &table), Ok(Type::Int));
    assert_eq!(get_expression_type(&float("3.5"), &table), Ok(Type::Float));
    assert_eq!(get_expression_type(&ASTNode::Boolean(false), &table), Ok(Type::Bool));
    assert_eq!(get_expression_type(&text("x"), &table), Ok(Type::String));
    assert_eq!(get_expression_type(&ident("n"), &table), Ok(Type::Int));
    assert_eq!(get_expression_type(&ident("s"), &table), Ok(Type::String));
    assert_eq!(
        get_expression_type(&ident("missing"), &table),
        Err(SemanticError::UndeclaredVariable)
    );
    assert_eq!(
        get_expression_type(&arith(ident("n"), "+", ASTNode::Number(1)), &table),
        Ok(Type::Int)
    );
    assert_eq!(
        get_expression_type(&arith(ident("f"), "*", float("2.0")), &table),
        Ok(Type::Float)
    );
    assert_eq!(
        get_expression_type(&arith(ident("s"), "+", ident("s")), &table),
        Ok(Type::String)
    );
    assert_eq!(
        get_expression_type(&compare(ident("n"), "<", ASTNode::Number(1)), &table),
        Ok(Type::Bool)
    );
    assert_eq!(
        get_expression_type(&compare(ident("b"), "==", ident("b")), &table),
        Ok(Type::Bool)
    );
    assert_eq!(
        get_expression_type(&compare(ident("n"), "<", ident("f")), &table),
        Err(SemanticError::OperandMismatch { left: Type::Int, right: Type::Float })
    );
    assert_eq!(
        get_expression_type(&arith(ident("b"), "+", ident("s")), &table),
        Err(SemanticError::OperandMismatch { left: Type::Bool, right: Type::String })
    );
    assert_eq!(
        get_expression_type(
            &arith(
                arith(ident("n"), "+", ident("n")),
                "*",
                compare(ident("n"), "<", ident("n"))
            ),
            &table
        ),
        Err(SemanticError::OperandMismatch { left: Type::Int, right: Type::Bool })
    );
}

#[test]
fn the_left_operand_fails_first() {
    let table = SymbolTable::new();
    assert_eq!(
        get_expression_type(
            &arith(ident("missing"), "+", arith(ASTNode::Number(1), "+", text("s"))),
            &table
        ),
        Err(SemanticError::UndeclaredVariable)
    );
    assert_eq!(
        get_expression_type(
            &arith(arith(ASTNode::Number(1), "+", text("s")), "+", ident("missing")),
            &table
        ),
        Err(SemanticError::OperandMismatch { left: Type::Int, right: Type::String })
    );
}

#[test]
fn a_call_has_no_static_type() {
    let call = ASTNode::FunctionCall { name: "f".to_string(), args: vec![] };
    let table = SymbolTable::new();
    assert_eq!(
        get_expression_type(&call, &table),
        Err(SemanticError::UnsupportedExpression)
    );
    assert_eq!(
        check(vec![
            var("x", Type::Int),
            assign("x", ASTNode::FunctionCall { name: "f".to_string(), args: vec![] }),
        ]),
        Err(SemanticError::UnsupportedExpression)
    );
    assert_eq!(
        get_expression_type(&var("x", Type::Int), &table),
        Err(SemanticError::UnsupportedExpression)
    );
}

#[test]
fn a_variable_is_declared_once_in_a_scope() {
    assert_eq!(
        check(vec![var("x", Type::Int), var("x", Type::Int)]),
        Err(SemanticError::Declaration(DeclarationError::DuplicateVariable))
    );
}

#[test]
fn a_function_is_declared_once() {
    let function = |name: &str| ASTNode::FunctionDeclaration {
        name: name.to_string(),
        params: vec![],
        body: vec![],
    };
    assert_eq!(check(vec![function("f"), function("g")]), Ok(()));
    assert_eq!(
        check(vec![function("f"), function("f")]),
        Err(SemanticError::Declaration(DeclarationError::DuplicateFunction))
    );
    assert_eq!(
        check(vec![ASTNode::ClassDeclaration {
            name: "A".to_string(),
            members: vec![function("f"), function("f")],
        }]),
        Err(SemanticError::Declaration(DeclarationError::DuplicateFunction))
    );
}

#[test]
fn parameters_are_ints_in_the_body() {
    let function = |body: Vec<ASTNode>| ASTNode::FunctionDeclaration {
        name: "f".to_string(),
        params: vec!["a".to_string(), "b".to_string()],
        body,
    };
    assert_eq!(
        check(vec![function(vec![
            var("sum", Type::Int),
            assign("sum", arith(ident("a"), "+", ident("b"))),
        ])]),
        Ok(())
    );
    assert_eq!(
        check(vec![function(vec![var("s", Type::String), assign("s", ident("a"))])]),
        Err(SemanticError::AssignmentMismatch { expected: Type::String, found: Type::Int })
    );
    assert_eq!(
        check(vec![function(vec![assign("a", ASTNode::Boolean(true))])]),
        Err(SemanticError::AssignmentMismatch { expected: Type::Int, found: Type::Bool })
    );
}

#[test]
fn a_parameter_named_twice_is_a_duplicate() {
    assert_eq!(
        check(vec![ASTNode::FunctionDeclaration {
            name: "f".to_string(),
            params: vec!["a".to_string(), "a".to_string()],
            body: vec![],
        }]),
        Err(SemanticError::Declaration(DeclarationError::DuplicateVariable))
    );
}

#[test]
fn what_a_function_declares_stays_in_the_function() {
    let mut table = SymbolTable::new();
    let program = ASTNode::Program(vec![
        var("g", Type::Bool),
        ASTNode::FunctionDeclaration {
            name: "f".to_string(),
            params: vec!["p".to_string()],
            body: vec![
                var("local", Type::Int),
                var("g", Type::Int),
                assign("g", ident("p")),
            ],
        },
        assign("g", ASTNode::Boolean(false)),
    ]);
    assert_eq!(analyze(&program, &mut table), Ok(()));
    assert_eq!(table.depth(), 1);
    assert_eq!(table.get_variable_type("g"), Some(Type::Bool));
    assert_eq!(table.get_variable_type("local"), None);
    assert_eq!(table.get_variable_type("p"), None);
    assert_eq!(table.function_params("f").unwrap(), &vec!["p".to_string()]);

    assert_eq!(
        check(vec![
            ASTNode::FunctionDeclaration {
                name: "f".to_string(),
                params: vec![],
                body: vec![var("local", Type::Int)],
            },
            assign("local", ASTNode::Number(1)),
        ]),
        Err(SemanticError::UndeclaredVariable)
    );
}

#[test]
fn a_function_body_sees_the_variables_around_it() {
    assert_eq!(
        check(vec![
            var("total", Type::Int),
            ASTNode::FunctionDeclaration {
                name: "f".to_string(),
                params: vec!["n".to_string()],
                body: vec![assign("total", arith(ident("total"), "+", ident("n")))],
            },
        ]),
        Ok(())
    );
}

#[test]
fn conditions_are_booleans() {
    let if_on = |condition: ASTNode| ASTNode::IfElse {
        condition: Box::new(condition),
        then_block: vec![],
        else_block: None,
    };
    let while_on =
        |condition: ASTNode| ASTNode::WhileLoop { condition: Box::new(condition), body: vec![] };
    assert_eq!(check(vec![if_on(ASTNode::Boolean(true))]), Ok(()));
    assert_eq!(
        check(vec![if_on(compare(ASTNode::Number(1), "<", ASTNode::Number(2)))]),
        Ok(())
    );
    assert_eq!(
        check(vec![if_on(ASTNode::Number(1))]),
        Err(SemanticError::NonBooleanCondition { found: Type::Int })
    );
    assert_eq!(
        check(vec![while_on(text("yes"))]),
        Err(SemanticError::NonBooleanCondition { found: Type::String })
    );
    assert_eq!(
        check(vec![while_on(float("1.0"))]),
        Err(SemanticError::NonBooleanCondition { found: Type::Float })
    );
    assert_eq!(check(vec![while_on(ASTNode::Boolean(false))]), Ok(()));
    assert_eq!(
        check(vec![while_on(ident("missing"))]),
        Err(SemanticError::UndeclaredVariable)
    );
    assert_eq!(
        check(vec![if_on(compare(ASTNode::Number(1), "<", text("2")))]),
        Err(SemanticError::OperandMismatch { left: Type::Int, right: Type::String })
    );
}

#[test]
fn both_blocks_of_an_if_are_checked() {
    let if_with = |then_block: Vec<ASTNode>, else_block: Option<Vec<ASTNode>>| ASTNode::IfElse {
        condition: Box::new(ASTNode::Boolean(true)),
        then_block,
        else_block,
    };
    assert_eq!(
        check(vec![
            var("x", Type::Int),
            if_with(
                vec![assign("x", ASTNode::Number(1))],
                Some(vec![assign("x", ASTNode::Number(2))])
            ),
        ]),
        Ok(())
    );
    assert_eq!(
        check(vec![
            var("x", Type::Int),
            if_with(vec![assign("x", text("no"))], None),
        ]),
        Err(SemanticError::AssignmentMismatch { expected: Type::Int, found: Type::String })
    );
    assert_eq!(
        check(vec![
            var("x", Type::Int),
            if_with(vec![], Some(vec![assign("y", ASTNode::Number(2))])),
        ]),
        Err(SemanticError::UndeclaredVariable)
    );
}

fn for_loop(variable: &str, start: ASTNode, end: ASTNode, body: Vec<ASTNode>) -> ASTNode {
    ASTNode::ForLoop {
        variable: variable.to_string(),
        start: Box::new(start),
        end: Box::new(end),
        body,
    }
}

#[test]
fn the_bounds_of_a_for_loop_are_integers() {
    assert_eq!(
        check(vec![for_loop("i", ASTNode::Number(0), ASTNode::Number(5), vec![])]),
        Ok(())
    );
    assert_eq!(
        check(vec![
            var("n", Type::Int),
            for_loop("i", ASTNode::Number(0), ident("n"), vec![]),
        ]),
        Ok(())
    );
    assert_eq!(
        check(vec![
            var("f", Type::Float),
            for_loop("i", ASTNode::Number(0), ident("f"), vec![]),
        ]),
        Err(SemanticError::NonIntegerBound)
    );
    assert_eq!(
        check(vec![
            var("b", Type::Bool),
            for_loop("i", ident("b"), ASTNode::Number(3), vec![]),
        ]),
        Err(SemanticError::NonIntegerBound)
    );
    assert_eq!(
        check(vec![for_loop("i", ASTNode::Number(0), ident("n"), vec![])]),
        Err(SemanticError::UndeclaredVariable)
    );
    assert_eq!(
        check(vec![for_loop(
            "i",
            ASTNode::Number(0),
            arith(ASTNode::Number(1), "+", ASTNode::Number(2)),
            vec![]
        )]),
        Err(SemanticError::InvalidForBound)
    );
    assert_eq!(
        check(vec![for_loop("i", float("0.0"), ASTNode::Number(2), vec![])]),
        Err(SemanticError::InvalidForBound)
    );
    assert_eq!(
        check(vec![for_loop("i", text("a"), ident("missing"), vec![])]),
        Err(SemanticError::InvalidForBound)
    );
}

#[test]
fn the_loop_variable_is_an_int_inside_the_loop_only() {
    assert_eq!(
        check(vec![
            var("sum", Type::Int),
            for_loop(
                "i",
                ASTNode::Number(0),
                ASTNode::Number(5),
                vec![assign("sum", arith(ident("sum"), "+", ident("i")))]
            ),
        ]),
        Ok(())
    );
    assert_eq!(
        check(vec![
            for_loop("i", ASTNode::Number(0), ASTNode::Number(5), vec![]),
            for_loop("i", ASTNode::Number(0), ASTNode::Number(5), vec![]),
        ]),
        Ok(())
    );
    assert_eq!(
        check(vec![
            for_loop("i", ASTNode::Number(0), ASTNode::Number(5), vec![]),
            assign("i", ASTNode::Number(1)),
        ]),
        Err(SemanticError::UndeclaredVariable)
    );
    assert_eq!(
        check(vec![
            var("i", Type::String),
            for_loop(
                "i",
                ASTNode::Number(0),
                ASTNode::Number(5),
                vec![assign("i", ASTNode::Number(1))]
            ),
            assign("i", text("still a string")),
        ]),
        Ok(())
    );
    assert_eq!(
        check(vec![for_loop(
            "i",
            ASTNode::Number(0),
            ASTNode::Number(5),
            vec![var("i", Type::Int)]
        )]),
        Err(SemanticError::Declaration(DeclarationError::DuplicateVariable))
    );
}

#[test]
fn the_body_of_a_while_has_its_own_scope() {
    let while_with = |body: Vec<ASTNode>| ASTNode::WhileLoop {
        condition: Box::new(ASTNode::Boolean(true)),
        body,
    };
    assert_eq!(
        check(vec![
            var("x", Type::Int),
            while_with(vec![var("t", Type::Int), assign("t", ident("x")), assign("x", ident("t"))]),
            var("t", Type::Bool),
        ]),
        Ok(())
    );
    assert_eq!(
        check(vec![while_with(vec![var("t", Type::Int)]), assign("t", ASTNode::Number(1))]),
        Err(SemanticError::UndeclaredVariable)
    );
}

#[test]
fn an_operator_node_checks_its_operands_first() {
    assert_eq!(
        check(vec![arith(ASTNode::Number(1), "+", ASTNode::Number(2))]),
        Ok(())
    );
    assert_eq!(
        check(vec![compare(ASTNode::Number(1), "<", text("2"))]),
        Err(SemanticError::OperandMismatch { left: Type::Int, right: Type::String })
    );
    assert_eq!(
        check(vec![arith(
            ident("missing"),
            "+",
            arith(ASTNode::Number(1), "+", text("s"))
        )]),
        Err(SemanticError::OperandMismatch { left: Type::Int, right: Type::String })
    );
}

#[test]
fn what_is_returned_is_not_checked() {
    assert_eq!(
        check(vec![ASTNode::FunctionDeclaration {
            name: "run".to_string(),
            params: vec![],
            body: vec![ASTNode::Ret { expression: Box::new(ident("anything")) }],
        }]),
        Ok(())
    );
    assert_eq!(
        check(vec![ASTNode::FunctionDeclaration {
            name: "run".to_string(),
            params: vec![],
            body: vec![ASTNode::Ret {
                expression: Box::new(ASTNode::FunctionCall {
                    name: "nowhere".to_string(),
                    args: vec![ASTNode::Number(1), text("two")],
                }),
            }],
        }]),
        Ok(())
    );
}

#[test]
fn the_first_broken_rule_ends_the_analysis() {
    let mut table = SymbolTable::new();
    let program = ASTNode::Program(vec![
        var("a", Type::Int),
        assign("a", text("one")),
        var("b", Type::Int),
        assign("missing", ASTNode::Number(1)),
    ]);
    assert_eq!(
        analyze(&program, &mut table),
        Err(SemanticError::AssignmentMismatch { expected: Type::Int, found: Type::String })
    );
    assert_eq!(table.get_variable_type("b"), None);
}

#[test]
fn an_analysis_that_fails_leaves_the_table_as_it_was() {
    let mut table = SymbolTable::new();
    table.declare_variable("kept", Type::Bool).unwrap();
    table.declare_function("f", vec!["p".to_string()]).unwrap();
    let program = ASTNode::Program(vec![
        var("a", Type::Int),
        ASTNode::FunctionDeclaration {
            name: "g".to_string(),
            params: vec!["n".to_string()],
            body: vec![var("local", Type::Int), assign("local", text("no"))],
        },
    ]);
    assert_eq!(
        analyze(&program, &mut table),
        Err(SemanticError::AssignmentMismatch { expected: Type::Int, found: Type::String })
    );
    assert_eq!(table.depth(), 1);
    assert_eq!(table.get_variable_type("kept"), Some(Type::Bool));
    assert_eq!(table.get_variable_type("a"), None);
    assert_eq!(table.get_variable_type("local"), None);
    assert_eq!(table.get_variable_type("n"), None);
    assert!(table.function_params("g").is_none());
    assert_eq!(table.function_params("f").unwrap(), &vec!["p".to_string()]);
    assert_eq!(table.declare_variable("a", Type::Float), Ok(()));
}
