//! The syntax tree.
//!
//! A program is a tree of [`ASTNode`]s, each owning its children. The
//! mathematical model of a tree is its view, an [`Ast`]: the same tree with
//! every name as a sequence of characters and every list of children as a
//! sequence. The contracts of the parser, the analyzer and the interpreter are
//! stated over `Ast`.

use crate::symbol_table::Type;
use vstd::prelude::*;

verus! {

/// A node of the syntax tree.
#[derive(Debug, PartialEq)]
pub enum ASTNode {
    /// The whole program: its top-level statements in order.
    Program(Vec<ASTNode>),
    /// A class: a name around member statements.
    ClassDeclaration { name: String, members: Vec<ASTNode> },
    /// A function: its name, its parameter names in order, its body.
    FunctionDeclaration { name: String, params: Vec<String>, body: Vec<ASTNode> },
    /// `var name type`.
    VariableDeclaration { name: String, var_type: Type },
    /// `variable = expression`.
    Assignment { variable: String, expression: Box<ASTNode> },
    /// An integer literal.
    Number(i64),
    /// A floating-point literal, kept as its text: an optional `-`, digits,
    /// `.`, digits.
    Float(String),
    /// A string literal.
    StringLiteral(String),
    /// `true` or `false`.
    Boolean(bool),
    /// A reference to a variable.
    Identifier(String),
    /// A call of the function `name` on `args`.
    FunctionCall { name: String, args: Vec<ASTNode> },
    /// `left operator right`, where `operator` is one of `+ - * /`.
    Arithmetic { left: Box<ASTNode>, operator: String, right: Box<ASTNode> },
    /// `left operator right`, where `operator` is one of `< > ==`.
    Comparison { left: Box<ASTNode>, operator: String, right: Box<ASTNode> },
    /// `if condition then then_block [else else_block] end`.
    IfElse { condition: Box<ASTNode>, then_block: Vec<ASTNode>, else_block: Option<Vec<ASTNode>> },
    /// `ret expression`.
    Ret { expression: Box<ASTNode> },
    /// `for variable = start end body end`: `variable` runs from `start` up to,
    /// but not including, `end`.
    ForLoop { variable: String, start: Box<ASTNode>, end: Box<ASTNode>, body: Vec<ASTNode> },
    /// `while condition then body end`.
    WhileLoop { condition: Box<ASTNode>, body: Vec<ASTNode> },
}

/// The mathematical model of an [`ASTNode`].
pub enum Ast {
    Program(Seq<Ast>),
    ClassDeclaration { name: Seq<char>, members: Seq<Ast> },
    FunctionDeclaration { name: Seq<char>, params: Seq<Seq<char>>, body: Seq<Ast> },
    VariableDeclaration { name: Seq<char>, var_type: Type },
    Assignment { variable: Seq<char>, expression: Box<Ast> },
    Number(i64),
    Float(Seq<char>),
    StringLiteral(Seq<char>),
    Boolean(bool),
    Identifier(Seq<char>),
    FunctionCall { name: Seq<char>, args: Seq<Ast> },
    Arithmetic { left: Box<Ast>, operator: Seq<char>, right: Box<Ast> },
    Comparison { left: Box<Ast>, operator: Seq<char>, right: Box<Ast> },
    IfElse { condition: Box<Ast>, then_block: Seq<Ast>, else_block: Option<Seq<Ast>> },
    Ret { expression: Box<Ast> },
    ForLoop { variable: Seq<char>, start: Box<Ast>, end: Box<Ast>, body: Seq<Ast> },
    WhileLoop { condition: Box<Ast>, body: Seq<Ast> },
}

/// The models of a list of nodes, in order.
pub open spec fn view_nodes(nodes: Seq<ASTNode>) -> Seq<Ast>
    decreases nodes,
{
    Seq::new(
        nodes.len(),
        |i: int|
            if 0 <= i < nodes.len() {
                node_view(nodes[i])
            } else {
                Ast::Boolean(false)
            },
    )
}

/// The model of one node.
pub open spec fn node_view(node: ASTNode) -> Ast
    decreases node,
{
    match node {
        ASTNode::Program(nodes) => Ast::Program(view_nodes(nodes@)),
        ASTNode::ClassDeclaration { name, members } => Ast::ClassDeclaration {
            name: name@,
            members: view_nodes(members@),
        },
        ASTNode::FunctionDeclaration { name, params, body } => Ast::FunctionDeclaration {
            name: name@,
            params: params.deep_view(),
            body: view_nodes(body@),
        },
        ASTNode::VariableDeclaration { name, var_type } => Ast::VariableDeclaration {
            name: name@,
            var_type: var_type,
        },
        ASTNode::Assignment { variable, expression } => Ast::Assignment {
            variable: variable@,
            expression: Box::new(node_view(*expression)),
        },
        ASTNode::Number(n) => Ast::Number(n),
        ASTNode::Float(text) => Ast::Float(text@),
        ASTNode::StringLiteral(text) => Ast::StringLiteral(text@),
        ASTNode::Boolean(b) => Ast::Boolean(b),
        ASTNode::Identifier(name) => Ast::Identifier(name@),
        ASTNode::FunctionCall { name, args } => Ast::FunctionCall {
            name: name@,
            args: view_nodes(args@),
        },
        ASTNode::Arithmetic { left, operator, right } => Ast::Arithmetic {
            left: Box::new(node_view(*left)),
            operator: operator@,
            right: Box::new(node_view(*right)),
        },
        ASTNode::Comparison { left, operator, right } => Ast::Comparison {
            left: Box::new(node_view(*left)),
            operator: operator@,
            right: Box::new(node_view(*right)),
        },
        ASTNode::IfElse { condition, then_block, else_block } => Ast::IfElse {
            condition: Box::new(node_view(*condition)),
            then_block: view_nodes(then_block@),
            else_block: match else_block {
                Some(block) => Some(view_nodes(block@)),
                None => None,
            },
        },
        ASTNode::Ret { expression } => Ast::Ret { expression: Box::new(node_view(*expression)) },
        ASTNode::ForLoop { variable, start, end, body } => Ast::ForLoop {
            variable: variable@,
            start: Box::new(node_view(*start)),
            end: Box::new(node_view(*end)),
            body: view_nodes(body@),
        },
        ASTNode::WhileLoop { condition, body } => Ast::WhileLoop {
            condition: Box::new(node_view(*condition)),
            body: view_nodes(body@),
        },
    }
}

impl View for ASTNode {
    type V = Ast;

    open spec fn view(&self) -> Ast {
        node_view(*self)
    }
}

/// A copy of `names`.
pub fn clone_names(names: &Vec<String>) -> (r: Vec<String>)
    ensures
        r.deep_view() == names.deep_view(),
{
    let mut r: Vec<String> = Vec::new();
    let mut i: usize = 0;
    while i < names.len()
        invariant
            i <= names.len(),
            r.len() == i,
            forall|j: int| 0 <= j < i ==> r[j]@ == names[j]@,
        decreases names.len() - i,
    {
        r.push(names[i].clone());
        i += 1;
    }
    assert(r.deep_view() =~= names.deep_view());
    r
}

/// A copy of `nodes`, each node copied by [`ASTNode::clone`].
pub fn clone_nodes(nodes: &Vec<ASTNode>) -> (r: Vec<ASTNode>)
    ensures
        view_nodes(r@) == view_nodes(nodes@),
    decreases nodes,
{
    let mut r: Vec<ASTNode> = Vec::new();
    let mut i: usize = 0;
    while i < nodes.len()
        invariant
            i <= nodes.len(),
            r.len() == i,
            forall|j: int| 0 <= j < i ==> r[j]@ == nodes[j]@,
        decreases nodes.len() - i,
    {
        r.push(nodes[i].clone());
        i += 1;
    }
    assert(view_nodes(r@) =~= view_nodes(nodes@));
    r
}

impl Clone for ASTNode {
    /// A deep copy: a tree with the same model.
    fn clone(&self) -> (r: Self)
        ensures
            r@ == self@,
        decreases self,
    {
        match self {
            ASTNode::Program(nodes) => ASTNode::Program(clone_nodes(nodes)),
            ASTNode::ClassDeclaration { name, members } => ASTNode::ClassDeclaration {
                name: name.clone(),
                members: clone_nodes(members),
            },
            ASTNode::FunctionDeclaration { name, params, body } => ASTNode::FunctionDeclaration {
                name: name.clone(),
                params: clone_names(params),
                body: clone_nodes(body),
            },
            ASTNode::VariableDeclaration { name, var_type } => ASTNode::VariableDeclaration {
                name: name.clone(),
                var_type: *var_type,
            },
            ASTNode::Assignment { variable, expression } => ASTNode::Assignment {
                variable: variable.clone(),
                expression: Box::new((&**expression).clone()),
            },
            ASTNode::Number(n) => ASTNode::Number(*n),
            ASTNode::Float(text) => ASTNode::Float(text.clone()),
            ASTNode::StringLiteral(text) => ASTNode::StringLiteral(text.clone()),
            ASTNode::Boolean(b) => ASTNode::Boolean(*b),
            ASTNode::Identifier(name) => ASTNode::Identifier(name.clone()),
            ASTNode::FunctionCall { name, args } => ASTNode::FunctionCall {
                name: name.clone(),
                args: clone_nodes(args),
            },
            ASTNode::Arithmetic { left, operator, right } => ASTNode::Arithmetic {
                left: Box::new((&**left).clone()),
                operator: operator.clone(),
                right: Box::new((&**right).clone()),
            },
            ASTNode::Comparison { left, operator, right } => ASTNode::Comparison {
                left: Box::new((&**left).clone()),
                operator: operator.clone(),
                right: Box::new((&**right).clone()),
            },
            ASTNode::IfElse { condition, then_block, else_block } => ASTNode::IfElse {
                condition: Box::new((&**condition).clone()),
                then_block: clone_nodes(then_block),
                else_block: match else_block {
                    Some(block) => Some(clone_nodes(block)),
                    None => None,
                },
            },
            ASTNode::Ret { expression } => ASTNode::Ret {
                expression: Box::new((&**expression).clone()),
            },
            ASTNode::ForLoop { variable, start, end, body } => ASTNode::ForLoop {
                variable: variable.clone(),
                start: Box::new((&**start).clone()),
                end: Box::new((&**end).clone()),
                body: clone_nodes(body),
            },
            ASTNode::WhileLoop { condition, body } => ASTNode::WhileLoop {
                condition: Box::new((&**condition).clone()),
                body: clone_nodes(body),
            },
        }
    }
}

} // verus!
