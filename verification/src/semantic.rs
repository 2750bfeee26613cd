//! The semantic analyzer.
//!
//! One pass over the finished tree checks that every variable is declared
//! before it is used and that types agree: the two operands of an operator
//! have the same type, an assignment gives a variable a value of its declared
//! type, a condition is a boolean and the bounds of a `for` loop are integers.
//! No type is converted to another. The first rule that is broken ends the
//! analysis.
//!
//! What is checked, and which table of symbols is left, is defined by the
//! specification functions [`check`] and [`expression_type`]. The executable
//! [`analyze`] and [`get_expression_type`] compute them.

use crate::ast::{clone_names, view_nodes, ASTNode, Ast};
use crate::symbol_table::{declare, resolve, DeclarationError, Scope, SymbolTable, SymbolTableView, Type};
use vstd::prelude::*;

verus! {

/// Why a program was refused.
#[derive(Debug, PartialEq, Eq, Clone, Copy, Structural)]
pub enum SemanticError {
    /// A variable or a function is declared twice.
    Declaration(DeclarationError),
    /// A variable is used that no open scope declares.
    UndeclaredVariable,
    /// A variable declared as `expected` is assigned a value of type `found`.
    AssignmentMismatch { expected: Type, found: Type },
    /// The operands of an operator have the types `left` and `right`, which
    /// differ.
    OperandMismatch { left: Type, right: Type },
    /// The condition of an `if` or a `while` has the type `found`, not `Bool`.
    NonBooleanCondition { found: Type },
    /// A bound of a `for` loop is neither an integer literal nor an
    /// identifier.
    InvalidForBound,
    /// A bound of a `for` loop is a variable that is not an integer.
    NonIntegerBound,
    /// A type is asked of a node that has none: a call, or a statement.
    UnsupportedExpression,
}

/// The one type of two operands, given what was found for the left and for
/// the right one: the first failure, or a mismatch where the types differ.
pub open spec fn same_type(
    left: Result<Type, SemanticError>,
    right: Result<Type, SemanticError>,
) -> Result<Type, SemanticError> {
    match left {
        Ok(left_type) => match right {
            Ok(right_type) => if left_type == right_type {
                Ok(left_type)
            } else {
                Err(SemanticError::OperandMismatch { left: left_type, right: right_type })
            },
            Err(e) => Err(e),
        },
        Err(e) => Err(e),
    }
}

/// The static type of the expression `expression` where the open scopes are
/// `scopes`.
///
/// A literal has the type of its kind and an identifier the type it is
/// declared with. The operands of an arithmetic or comparison operator must
/// have one and the same type, which is the type of an arithmetic node; a
/// comparison is a `Bool`. No other node has a type.
pub open spec fn expression_type(expression: Ast, scopes: Seq<Scope>) -> Result<Type, SemanticError>
    decreases expression,
{
    match expression {
        Ast::Number(_) => Ok(Type::Int),
        Ast::Float(_) => Ok(Type::Float),
        Ast::Boolean(_) => Ok(Type::Bool),
        Ast::StringLiteral(_) => Ok(Type::String),
        Ast::Identifier(name) => match resolve(scopes, name) {
            Some(found) => Ok(found),
            None => Err(SemanticError::UndeclaredVariable),
        },
        Ast::Arithmetic { left, operator, right } => same_type(
            expression_type(*left, scopes),
            expression_type(*right, scopes),
        ),
        Ast::Comparison { left, operator, right } => match same_type(
            expression_type(*left, scopes),
            expression_type(*right, scopes),
        ) {
            Ok(_) => Ok(Type::Bool),
            Err(e) => Err(e),
        },
        _ => Err(SemanticError::UnsupportedExpression),
    }
}

/// The type of a bound of a `for` loop: `Int` for an integer literal, the
/// declared type for an identifier. Nothing else can be a bound.
pub open spec fn bound_type(bound: Ast, scopes: Seq<Scope>) -> Result<Type, SemanticError> {
    match bound {
        Ast::Number(_) => Ok(Type::Int),
        Ast::Identifier(name) => match resolve(scopes, name) {
            Some(found) => Ok(found),
            None => Err(SemanticError::UndeclaredVariable),
        },
        _ => Err(SemanticError::InvalidForBound),
    }
}

/// Checks that `condition` is a boolean.
pub open spec fn check_condition(condition: Ast, scopes: Seq<Scope>) -> Result<(), SemanticError> {
    match expression_type(condition, scopes) {
        Ok(Type::Bool) => Ok(()),
        Ok(found) => Err(SemanticError::NonBooleanCondition { found }),
        Err(e) => Err(e),
    }
}

/// Checks that `left` and `right` have a type, and the same one.
pub open spec fn operands_agree(left: Ast, right: Ast, scopes: Seq<Scope>) -> Result<
    (),
    SemanticError,
> {
    match same_type(expression_type(left, scopes), expression_type(right, scopes)) {
        Ok(_) => Ok(()),
        Err(e) => Err(e),
    }
}

/// The table after each of `params` is declared as an `Int`, in order, in the
/// innermost scope.
pub open spec fn declare_parameters(table: SymbolTableView, params: Seq<Seq<char>>) -> Result<
    SymbolTableView,
    SemanticError,
>
    decreases params.len(),
{
    if params.len() == 0 {
        Ok(table)
    } else {
        match table.declare_variable(params[0], Type::Int) {
            Ok(next) => declare_parameters(next, params.drop_first()),
            Err(e) => Err(SemanticError::Declaration(e)),
        }
    }
}

/// The table with the innermost scope closed, where the check inside it
/// succeeded.
pub open spec fn leave(inside: Result<SymbolTableView, SemanticError>) -> Result<
    SymbolTableView,
    SemanticError,
> {
    match inside {
        Ok(table) => Ok(table.exit_scope()),
        Err(e) => Err(e),
    }
}

/// Checks the node `node` against the table `table` and gives the table that
/// it leaves, or the first rule that is broken.
///
/// * A program and a class check their statements in order.
/// * A function is declared, and its body is checked in a scope of its own
///   in which every parameter is an `Int`.
/// * A variable is declared in the innermost scope.
/// * An assignment needs a declared variable and an expression of the
///   variable's type.
/// * An arithmetic or comparison node checks its operands and needs them to
///   be of one type.
/// * `if` and `while` need a boolean condition. The body of a `while` is
///   checked in a scope of its own, the blocks of an `if` in the scope around
///   it.
/// * `for` needs integer bounds. Its body is checked in a scope of its own
///   in which the loop variable is an `Int`.
/// * Every other node passes.
pub open spec fn check(node: Ast, table: SymbolTableView) -> Result<SymbolTableView, SemanticError>
    decreases node,
{
    match node {
        Ast::Program(nodes) => check_all(nodes, table),
        Ast::ClassDeclaration { name, members } => check_all(members, table),
        Ast::FunctionDeclaration { name, params, body } => match table.declare_function(
            name,
            params,
        ) {
            Ok(declared) => match declare_parameters(declared.enter_scope(), params) {
                Ok(inside) => leave(check_all(body, inside)),
                Err(e) => Err(e),
            },
            Err(e) => Err(SemanticError::Declaration(e)),
        },
        Ast::VariableDeclaration { name, var_type } => match table.declare_variable(name, var_type) {
            Ok(declared) => Ok(declared),
            Err(e) => Err(SemanticError::Declaration(e)),
        },
        Ast::Assignment { variable, expression } => match resolve(table.scopes, variable) {
            Some(expected) => match expression_type(*expression, table.scopes) {
                Ok(found) => if found == expected {
                    Ok(table)
                } else {
                    Err(SemanticError::AssignmentMismatch { expected, found })
                },
                Err(e) => Err(e),
            },
            None => Err(SemanticError::UndeclaredVariable),
        },
        Ast::Arithmetic { left, operator, right } => match check(*left, table) {
            Ok(after_left) => match check(*right, after_left) {
                Ok(after) => match operands_agree(*left, *right, after.scopes) {
                    Ok(()) => Ok(after),
                    Err(e) => Err(e),
                },
                Err(e) => Err(e),
            },
            Err(e) => Err(e),
        },
        Ast::Comparison { left, operator, right } => match check(*left, table) {
            Ok(after_left) => match check(*right, after_left) {
                Ok(after) => match operands_agree(*left, *right, after.scopes) {
                    Ok(()) => Ok(after),
                    Err(e) => Err(e),
                },
                Err(e) => Err(e),
            },
            Err(e) => Err(e),
        },
        Ast::WhileLoop { condition, body } => match check_condition(*condition, table.scopes) {
            Ok(()) => leave(check_all(body, table.enter_scope())),
            Err(e) => Err(e),
        },
        Ast::IfElse { condition, then_block, else_block } => match check_condition(
            *condition,
            table.scopes,
        ) {
            Ok(()) => match check_all(then_block, table) {
                Ok(after) => match else_block {
                    Some(block) => check_all(block, after),
                    None => Ok(after),
                },
                Err(e) => Err(e),
            },
            Err(e) => Err(e),
        },
        Ast::ForLoop { variable, start, end, body } => match bound_type(*start, table.scopes) {
            Ok(start_type) => match bound_type(*end, table.scopes) {
                Ok(end_type) => if start_type == Type::Int && end_type == Type::Int {
                    let inside = table.enter_scope();
                    leave(
                        check_all(
                            body,
                            SymbolTableView {
                                scopes: declare(inside.scopes, variable, Type::Int),
                                ..inside
                            },
                        ),
                    )
                } else {
                    Err(SemanticError::NonIntegerBound)
                },
                Err(e) => Err(e),
            },
            Err(e) => Err(e),
        },
        _ => Ok(table),
    }
}

/// Checks each of `nodes` in order, each against the table that the one
/// before it left.
pub open spec fn check_all(nodes: Seq<Ast>, table: SymbolTableView) -> Result<
    SymbolTableView,
    SemanticError,
>
    decreases nodes,
{
    if nodes.len() == 0 {
        Ok(table)
    } else {
        match check(nodes[0], table) {
            Ok(after) => check_all(nodes.drop_first(), after),
            Err(e) => Err(e),
        }
    }
}

/// The static type of `expr` under the declarations of `symbol_table`.
pub fn get_expression_type(expr: &ASTNode, symbol_table: &SymbolTable) -> (r: Result<
    Type,
    SemanticError,
>)
    requires
        symbol_table.wf(),
    ensures
        r == expression_type(expr@, symbol_table@.scopes),
    decreases expr,
{
    match expr {
        ASTNode::Number(_) => Ok(Type::Int),
        ASTNode::Float(_) => Ok(Type::Float),
        ASTNode::Boolean(_) => Ok(Type::Bool),
        ASTNode::StringLiteral(_) => Ok(Type::String),
        ASTNode::Identifier(name) => match symbol_table.lookup(name) {
            Some(found) => Ok(found),
            None => Err(SemanticError::UndeclaredVariable),
        },
        ASTNode::Arithmetic { left, operator: _, right } => {
            let left_type = get_expression_type(left, symbol_table);
            let right_type = get_expression_type(right, symbol_table);
            common_type(left_type, right_type)
        },
        ASTNode::Comparison { left, operator: _, right } => {
            let left_type = get_expression_type(left, symbol_table);
            let right_type = get_expression_type(right, symbol_table);
            match common_type(left_type, right_type) {
                Ok(_) => Ok(Type::Bool),
                Err(e) => Err(e),
            }
        },
        _ => Err(SemanticError::UnsupportedExpression),
    }
}

/// The one type of two operands, given what was found for each.
fn common_type(left: Result<Type, SemanticError>, right: Result<Type, SemanticError>) -> (r: Result<
    Type,
    SemanticError,
>)
    ensures
        r == same_type(left, right),
{
    match left {
        Ok(left_type) => match right {
            Ok(right_type) => if left_type == right_type {
                Ok(left_type)
            } else {
                Err(SemanticError::OperandMismatch { left: left_type, right: right_type })
            },
            Err(e) => Err(e),
        },
        Err(e) => Err(e),
    }
}

/// The type of a bound of a `for` loop.
fn get_bound_type(bound: &ASTNode, symbol_table: &SymbolTable) -> (r: Result<Type, SemanticError>)
    requires
        symbol_table.wf(),
    ensures
        r == bound_type(bound@, symbol_table@.scopes),
{
    match bound {
        ASTNode::Number(_) => Ok(Type::Int),
        ASTNode::Identifier(name) => match symbol_table.lookup(name) {
            Some(found) => Ok(found),
            None => Err(SemanticError::UndeclaredVariable),
        },
        _ => Err(SemanticError::InvalidForBound),
    }
}

/// Checks that `condition` is a boolean.
fn analyze_condition(condition: &ASTNode, symbol_table: &SymbolTable) -> (r: Result<
    (),
    SemanticError,
>)
    requires
        symbol_table.wf(),
    ensures
        r == check_condition(condition@, symbol_table@.scopes),
{
    match get_expression_type(condition, symbol_table) {
        Ok(Type::Bool) => Ok(()),
        Ok(found) => Err(SemanticError::NonBooleanCondition { found }),
        Err(e) => Err(e),
    }
}

/// Declares each of `params` as an `Int` in the innermost scope.
fn analyze_parameters(params: &Vec<String>, symbol_table: &mut SymbolTable) -> (r: Result<
    (),
    SemanticError,
>)
    requires
        old(symbol_table).wf(),
        old(symbol_table)@.scopes.len() > 0,
    ensures
        final(symbol_table).wf(),
        match declare_parameters(old(symbol_table)@, params.deep_view()) {
            Ok(table) => r is Ok && final(symbol_table)@ == table && table.scopes.len() == old(
                symbol_table,
            )@.scopes.len(),
            Err(e) => r == Err::<(), SemanticError>(e),
        },
{
    let ghost all = params.deep_view();
    let mut i: usize = 0;
    assert(all.skip(0) =~= all);
    while i < params.len()
        invariant
            i <= params.len(),
            all == params.deep_view(),
            symbol_table.wf(),
            symbol_table@.scopes.len() == old(symbol_table)@.scopes.len(),
            symbol_table@.scopes.len() > 0,
            declare_parameters(old(symbol_table)@, all) == declare_parameters(
                symbol_table@,
                all.skip(i as int),
            ),
        decreases params.len() - i,
    {
        assert(all.skip(i as int).drop_first() =~= all.skip(i + 1));
        assert(all.skip(i as int)[0] == params[i as int]@);
        match symbol_table.declare(params[i].clone(), Type::Int) {
            Ok(()) => {},
            Err(e) => {
                return Err(SemanticError::Declaration(e));
            },
        }
        i += 1;
    }
    Ok(())
}

/// Checks each of `nodes` in order.
fn analyze_all(nodes: &Vec<ASTNode>, symbol_table: &mut SymbolTable) -> (r: Result<
    (),
    SemanticError,
>)
    requires
        old(symbol_table).wf(),
        old(symbol_table)@.scopes.len() > 0,
    ensures
        final(symbol_table).wf(),
        match check_all(view_nodes(nodes@), old(symbol_table)@) {
            Ok(table) => r is Ok && final(symbol_table)@ == table && table.scopes.len() == old(
                symbol_table,
            )@.scopes.len(),
            Err(e) => r == Err::<(), SemanticError>(e),
        },
    decreases nodes, 0nat,
{
    let ghost all = view_nodes(nodes@);
    let mut i: usize = 0;
    assert(all.skip(0) =~= all);
    while i < nodes.len()
        invariant
            i <= nodes.len(),
            all == view_nodes(nodes@),
            symbol_table.wf(),
            symbol_table@.scopes.len() == old(symbol_table)@.scopes.len(),
            symbol_table@.scopes.len() > 0,
            check_all(all, old(symbol_table)@) == check_all(all.skip(i as int), symbol_table@),
        decreases nodes.len() - i,
    {
        assert(all.skip(i as int).drop_first() =~= all.skip(i + 1));
        assert(all.skip(i as int)[0] == nodes[i as int]@);
        match analyze_node(&nodes[i], symbol_table) {
            Ok(()) => {},
            Err(e) => {
                return Err(e);
            },
        }
        i += 1;
    }
    Ok(())
}

/// Checks the body of a function or of a loop, which stands in the scope
/// that was opened for it, and closes that scope.
fn analyze_body(body: &Vec<ASTNode>, symbol_table: &mut SymbolTable) -> (r: Result<
    (),
    SemanticError,
>)
    requires
        old(symbol_table).wf(),
        old(symbol_table)@.scopes.len() > 1,
    ensures
        final(symbol_table).wf(),
        match leave(check_all(view_nodes(body@), old(symbol_table)@)) {
            Ok(table) => r is Ok && final(symbol_table)@ == table && table.scopes.len() + 1 == old(
                symbol_table,
            )@.scopes.len(),
            Err(e) => r == Err::<(), SemanticError>(e),
        },
    decreases body, 1nat,
{
    match analyze_all(body, symbol_table) {
        Ok(()) => {
            symbol_table.exit_scope();
            Ok(())
        },
        Err(e) => Err(e),
    }
}

/// Checks `ast` against `symbol_table`, which it fills with what `ast`
/// declares, up to the first rule that is broken.
fn analyze_node(ast: &ASTNode, symbol_table: &mut SymbolTable) -> (r: Result<(), SemanticError>)
    requires
        old(symbol_table).wf(),
        old(symbol_table)@.scopes.len() > 0,
    ensures
        final(symbol_table).wf(),
        match check(ast@, old(symbol_table)@) {
            Ok(table) => r is Ok && final(symbol_table)@ == table && table.scopes.len() == old(
                symbol_table,
            )@.scopes.len(),
            Err(e) => r == Err::<(), SemanticError>(e),
        },
    decreases ast, 1nat,
{
    match ast {
        ASTNode::Program(nodes) => analyze_all(nodes, symbol_table),
        ASTNode::ClassDeclaration { name: _, members } => analyze_all(members, symbol_table),
        ASTNode::FunctionDeclaration { .. } => analyze_function(ast, symbol_table),
        ASTNode::VariableDeclaration { name, var_type } => {
            match symbol_table.declare(name.clone(), *var_type) {
                Ok(()) => Ok(()),
                Err(e) => Err(SemanticError::Declaration(e)),
            }
        },
        ASTNode::Assignment { variable, expression } => {
            match symbol_table.lookup(variable) {
                Some(expected) => match get_expression_type(expression, symbol_table) {
                    Ok(found) => if found == expected {
                        Ok(())
                    } else {
                        Err(SemanticError::AssignmentMismatch { expected, found })
                    },
                    Err(e) => Err(e),
                },
                None => Err(SemanticError::UndeclaredVariable),
            }
        },
        ASTNode::Arithmetic { .. } => analyze_operands(ast, symbol_table),
        ASTNode::Comparison { .. } => analyze_operands(ast, symbol_table),
        ASTNode::WhileLoop { .. } => analyze_while(ast, symbol_table),
        ASTNode::IfElse { .. } => analyze_if(ast, symbol_table),
        ASTNode::ForLoop { .. } => analyze_for(ast, symbol_table),
        _ => Ok(()),
    }
}

/// Checks a function declaration.
fn analyze_function(ast: &ASTNode, symbol_table: &mut SymbolTable) -> (r: Result<(), SemanticError>)
    requires
        old(symbol_table).wf(),
        old(symbol_table)@.scopes.len() > 0,
        ast is FunctionDeclaration,
    ensures
        final(symbol_table).wf(),
        match check(ast@, old(symbol_table)@) {
            Ok(table) => r is Ok && final(symbol_table)@ == table && table.scopes.len() == old(
                symbol_table,
            )@.scopes.len(),
            Err(e) => r == Err::<(), SemanticError>(e),
        },
    decreases ast, 0nat,
{
    match ast {
        ASTNode::FunctionDeclaration { name, params, body } => {
            match symbol_table.declare_function(name.as_str(), clone_names(params)) {
                Ok(()) => {},
                Err(e) => {
                    return Err(SemanticError::Declaration(e));
                },
            }
            symbol_table.enter_scope();
            match analyze_parameters(params, symbol_table) {
                Ok(()) => {},
                Err(e) => {
                    return Err(e);
                },
            }
            analyze_body(body, symbol_table)
        },
        _ => Ok(()),
    }
}

/// Checks an arithmetic or comparison node: its operands, the left one
/// first, and then that they have one type.
fn analyze_operands(ast: &ASTNode, symbol_table: &mut SymbolTable) -> (r: Result<(), SemanticError>)
    requires
        old(symbol_table).wf(),
        old(symbol_table)@.scopes.len() > 0,
        ast is Arithmetic || ast is Comparison,
    ensures
        final(symbol_table).wf(),
        match check(ast@, old(symbol_table)@) {
            Ok(table) => r is Ok && final(symbol_table)@ == table && table.scopes.len() == old(
                symbol_table,
            )@.scopes.len(),
            Err(e) => r == Err::<(), SemanticError>(e),
        },
    decreases ast, 0nat,
{
    let (left, right) = match ast {
        ASTNode::Arithmetic { left, operator: _, right } => (left, right),
        ASTNode::Comparison { left, operator: _, right } => (left, right),
        _ => {
            return Ok(());
        },
    };
    match analyze_node(left, symbol_table) {
        Ok(()) => {},
        Err(e) => {
            return Err(e);
        },
    }
    match analyze_node(right, symbol_table) {
        Ok(()) => {},
        Err(e) => {
            return Err(e);
        },
    }
    let left_type = get_expression_type(left, symbol_table);
    let right_type = get_expression_type(right, symbol_table);
    match common_type(left_type, right_type) {
        Ok(_) => Ok(()),
        Err(e) => Err(e),
    }
}

/// Checks a `while` loop.
fn analyze_while(ast: &ASTNode, symbol_table: &mut SymbolTable) -> (r: Result<(), SemanticError>)
    requires
        old(symbol_table).wf(),
        old(symbol_table)@.scopes.len() > 0,
        ast is WhileLoop,
    ensures
        final(symbol_table).wf(),
        match check(ast@, old(symbol_table)@) {
            Ok(table) => r is Ok && final(symbol_table)@ == table && table.scopes.len() == old(
                symbol_table,
            )@.scopes.len(),
            Err(e) => r == Err::<(), SemanticError>(e),
        },
    decreases ast, 0nat,
{
    match ast {
        ASTNode::WhileLoop { condition, body } => {
            match analyze_condition(condition, symbol_table) {
                Ok(()) => {},
                Err(e) => {
                    return Err(e);
                },
            }
            symbol_table.enter_scope();
            analyze_body(body, symbol_table)
        },
        _ => Ok(()),
    }
}

/// Checks an `if`.
fn analyze_if(ast: &ASTNode, symbol_table: &mut SymbolTable) -> (r: Result<(), SemanticError>)
    requires
        old(symbol_table).wf(),
        old(symbol_table)@.scopes.len() > 0,
        ast is IfElse,
    ensures
        final(symbol_table).wf(),
        match check(ast@, old(symbol_table)@) {
            Ok(table) => r is Ok && final(symbol_table)@ == table && table.scopes.len() == old(
                symbol_table,
            )@.scopes.len(),
            Err(e) => r == Err::<(), SemanticError>(e),
        },
    decreases ast, 0nat,
{
    match ast {
        ASTNode::IfElse { condition, then_block, else_block } => {
            match analyze_condition(condition, symbol_table) {
                Ok(()) => {},
                Err(e) => {
                    return Err(e);
                },
            }
            match analyze_all(then_block, symbol_table) {
                Ok(()) => {},
                Err(e) => {
                    return Err(e);
                },
            }
            match else_block {
                Some(block) => analyze_all(block, symbol_table),
                None => Ok(()),
            }
        },
        _ => Ok(()),
    }
}

/// Checks a `for` loop.
fn analyze_for(ast: &ASTNode, symbol_table: &mut SymbolTable) -> (r: Result<(), SemanticError>)
    requires
        old(symbol_table).wf(),
        old(symbol_table)@.scopes.len() > 0,
        ast is ForLoop,
    ensures
        final(symbol_table).wf(),
        match check(ast@, old(symbol_table)@) {
            Ok(table) => r is Ok && final(symbol_table)@ == table && table.scopes.len() == old(
                symbol_table,
            )@.scopes.len(),
            Err(e) => r == Err::<(), SemanticError>(e),
        },
    decreases ast, 0nat,
{
    match ast {
        ASTNode::ForLoop { variable, start, end, body } => {
            let start_type = match get_bound_type(start, symbol_table) {
                Ok(found) => found,
                Err(e) => {
                    return Err(e);
                },
            };
            let end_type = match get_bound_type(end, symbol_table) {
                Ok(found) => found,
                Err(e) => {
                    return Err(e);
                },
            };
            if start_type != Type::Int || end_type != Type::Int {
                return Err(SemanticError::NonIntegerBound);
            }
            symbol_table.enter_scope();
            let declared = symbol_table.declare(variable.clone(), Type::Int);
            assert(declared is Ok);
            analyze_body(body, symbol_table)
        },
        _ => Ok(()),
    }
}

/// Checks `ast` against `symbol_table` and fills the table with what `ast`
/// declares. The analysis passes as a whole or fails as a whole: it stops at
/// the first rule that is broken, and the table is then as it was before.
/// The table must have a scope open.
pub fn analyze(ast: &ASTNode, symbol_table: &mut SymbolTable) -> (r: Result<(), SemanticError>)
    requires
        old(symbol_table).wf(),
        old(symbol_table)@.scopes.len() > 0,
    ensures
        final(symbol_table).wf(),
        match check(ast@, old(symbol_table)@) {
            Ok(table) => r is Ok && final(symbol_table)@ == table,
            Err(e) => r == Err::<(), SemanticError>(e) && final(symbol_table)@ == old(
                symbol_table,
            )@,
        },
{
    let saved = symbol_table.clone();
    match analyze_node(ast, symbol_table) {
        Ok(()) => Ok(()),
        Err(e) => {
            *symbol_table = saved;
            Err(e)
        },
    }
}

/// A declaration fixes the type of what may be assigned. Right after a
/// declaration `var name var_type` that passed, an assignment to `name`
/// passes if and only if its expression has a type and that type is exactly
/// `var_type`. An expression of another type is refused as a mismatch, and
/// neither outcome changes the table.
pub proof fn lemma_assignment_after_declaration(
    name: Seq<char>,
    var_type: Type,
    expression: Ast,
    table: SymbolTableView,
)
    requires
        table.scopes.len() > 0,
        check(Ast::VariableDeclaration { name, var_type }, table) is Ok,
    ensures
        ({
            let declared = check(Ast::VariableDeclaration { name, var_type }, table)->Ok_0;
            let assigned = check(
                Ast::Assignment { variable: name, expression: Box::new(expression) },
                declared,
            );
            match expression_type(expression, declared.scopes) {
                Ok(found) => if found == var_type {
                    assigned == Ok::<SymbolTableView, SemanticError>(declared)
                } else {
                    assigned == Err::<SymbolTableView, SemanticError>(
                        SemanticError::AssignmentMismatch { expected: var_type, found },
                    )
                },
                Err(e) => assigned == Err::<SymbolTableView, SemanticError>(e),
            }
        }),
{
    let declared = check(Ast::VariableDeclaration { name, var_type }, table)->Ok_0;
    assert(declared.scopes.last().contains_key(name));
    assert(resolve(declared.scopes, name) == Some(var_type));
}

impl SemanticError {
    /// What went wrong, in words.
    pub open spec fn spec_message(self) -> Seq<char> {
        match self {
            SemanticError::Declaration(e) => e.spec_message(),
            SemanticError::UndeclaredVariable => "variable is not declared"@,
            SemanticError::AssignmentMismatch { expected, found } =>
                "type mismatch in assignment: expected "@ + expected.spec_name() + ", got "@
                + found.spec_name(),
            SemanticError::OperandMismatch { left, right } => "type mismatch between operands: "@
                + left.spec_name() + " and "@ + right.spec_name(),
            SemanticError::NonBooleanCondition { found } => "condition must be bool, got "@
                + found.spec_name(),
            SemanticError::InvalidForBound =>
                "a bound of a 'for' loop must be an integer literal or a variable"@,
            SemanticError::NonIntegerBound => "the bounds of a 'for' loop must be integers"@,
            SemanticError::UnsupportedExpression => "expression has no type"@,
        }
    }

    /// What went wrong, in words.
    pub fn message(&self) -> (text: String)
        ensures
            text@ == self.spec_message(),
    {
        match self {
            SemanticError::Declaration(e) => e.message().to_owned(),
            SemanticError::UndeclaredVariable => "variable is not declared".to_owned(),
            SemanticError::AssignmentMismatch { expected, found } => {
                let mut text = "type mismatch in assignment: expected ".to_owned();
                text.append(expected.name());
                text.append(", got ");
                text.append(found.name());
                text
            },
            SemanticError::OperandMismatch { left, right } => {
                let mut text = "type mismatch between operands: ".to_owned();
                text.append(left.name());
                text.append(" and ");
                text.append(right.name());
                text
            },
            SemanticError::NonBooleanCondition { found } => {
                let mut text = "condition must be bool, got ".to_owned();
                text.append(found.name());
                text
            },
            SemanticError::InvalidForBound =>
                "a bound of a 'for' loop must be an integer literal or a variable".to_owned(),
            SemanticError::NonIntegerBound =>
                "the bounds of a 'for' loop must be integers".to_owned(),
            SemanticError::UnsupportedExpression => "expression has no type".to_owned(),
        }
    }
}

} // verus!
