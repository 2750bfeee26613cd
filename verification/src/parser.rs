//! The parser.
//!
//! The parser reads tokens from the lexer one at a time, looks at no more
//! than the current one, and builds the syntax tree by recursive descent.
//! The first token that does not fit the grammar ends parsing.
//!
//! The grammar is defined by the specification functions of this module over
//! a [`ParserView`]: the text that the lexer has still to read, the current
//! token, and the parser's own table of scopes. The executable [`Parser`]
//! computes them.
//!
//! The table is there to refuse a variable that is declared twice in what the
//! parser takes for one scope. The parser opens a scope for the body of each
//! loop and for nothing else, and it never looks a name up. What a program
//! may declare and use is decided by the semantic analysis, with a table of
//! its own.

use crate::ast::{view_nodes, ASTNode, Ast};
use crate::lexer::{
    kind_of, lemma_token_span, next_token, LexError, Lexer, Token, TokenKind, TokenView,
};
use crate::symbol_table::{declare, DeclarationError, SymbolTable, SymbolTableView, Type};
use vstd::prelude::*;

verus! {

/// What the parser was looking for when it met a token that does not fit.
#[derive(Debug, PartialEq, Eq, Clone, Copy, Structural)]
pub enum Expectation {
    /// A token of this sort.
    Token(TokenKind),
    /// The first token of a statement.
    Statement,
    /// The first token of an expression.
    Expression,
}

/// Why the text could not be parsed.
#[derive(Debug, PartialEq, Eq, Clone, Copy, Structural)]
pub enum ParseError {
    /// The lexer could not read the next token.
    Lexical(LexError),
    /// A token of the sort `found` stands where `expected` was looked for.
    UnexpectedToken { found: TokenKind, expected: Expectation },
    /// A variable is declared twice in one scope.
    Declaration(DeclarationError),
}

/// The mathematical content of a [`Parser`].
pub struct ParserView {
    /// The text that the lexer has still to read, behind the current token.
    pub rest: Seq<char>,
    /// The current token.
    pub current: TokenView,
    /// The parser's table of scopes.
    pub table: SymbolTableView,
}

/// The result of a parsing step: what was parsed and the parser behind it.
pub type Parsed<T> = Result<(T, ParserView), ParseError>;

/// The failure to find `expected` at the token `found`.
pub open spec fn unexpected(found: TokenView, expected: Expectation) -> ParseError {
    ParseError::UnexpectedToken { found: kind_of(found), expected }
}

impl ParserView {
    /// The parser at the start of `text`, if its first token can be read.
    pub open spec fn start(text: Seq<char>) -> Result<ParserView, ParseError> {
        match next_token(text) {
            Ok(lexeme) => Ok(
                ParserView {
                    rest: text.skip(lexeme.length as int),
                    current: lexeme.token,
                    table: SymbolTableView::initial(),
                },
            ),
            Err(e) => Err(ParseError::Lexical(e)),
        }
    }

    /// How much is left to parse: the characters still to read, and one more
    /// while the current token is not the end marker. Every step that takes
    /// a token makes it smaller.
    pub open spec fn measure(self) -> nat {
        if self.current == TokenView::EOF {
            self.rest.len()
        } else {
            self.rest.len() + 1
        }
    }

    /// The parser with the next token as the current one.
    pub open spec fn advance(self) -> Result<ParserView, ParseError> {
        match next_token(self.rest) {
            Ok(lexeme) => Ok(
                ParserView {
                    rest: self.rest.skip(lexeme.length as int),
                    current: lexeme.token,
                    table: self.table,
                },
            ),
            Err(e) => Err(ParseError::Lexical(e)),
        }
    }

    /// The parser behind the current token, which must be of the sort `kind`.
    pub open spec fn expect(self, kind: TokenKind) -> Result<ParserView, ParseError> {
        if kind_of(self.current) == kind {
            self.advance()
        } else {
            Err(unexpected(self.current, Expectation::Token(kind)))
        }
    }

    /// The name that the current token holds, which must be an identifier,
    /// and the parser behind it.
    pub open spec fn expect_identifier(self) -> Parsed<Seq<char>> {
        match self.current {
            TokenView::Identifier(name) => match self.advance() {
                Ok(next) => Ok((name, next)),
                Err(e) => Err(e),
            },
            _ => Err(unexpected(self.current, Expectation::Token(TokenKind::Identifier))),
        }
    }

    /// The parser behind the current token if that is a comma, and the parser
    /// itself otherwise.
    pub open spec fn skip_comma(self) -> Result<ParserView, ParseError> {
        if self.current == TokenView::Comma {
            self.advance()
        } else {
            Ok(self)
        }
    }

    /// The parser with the table `table`.
    pub open spec fn with_table(self, table: SymbolTableView) -> ParserView {
        ParserView { table, ..self }
    }
}

/// Taking a token leaves less to parse, and taking the end marker does not
/// leave more.
pub proof fn lemma_advance(p: ParserView)
    ensures
        match p.advance() {
            Ok(next) => next.measure() <= p.measure() && (p.current != TokenView::EOF
                ==> next.measure() < p.measure()) && next.table == p.table,
            Err(_) => true,
        },
{
    lemma_token_span(p.rest);
}

/// The node that the binary operator of the sort `operator` makes of its two
/// operands: a comparison for `<`, `>` and `==`, an arithmetic node for `+`,
/// `-`, `*` and `/`.
pub open spec fn binary_node(operator: TokenKind, left: Ast, right: Ast) -> Ast {
    match operator {
        TokenKind::LessThan => Ast::Comparison {
            left: Box::new(left),
            operator: seq!['<'],
            right: Box::new(right),
        },
        TokenKind::GreaterThan => Ast::Comparison {
            left: Box::new(left),
            operator: seq!['>'],
            right: Box::new(right),
        },
        TokenKind::Equal => Ast::Comparison {
            left: Box::new(left),
            operator: seq!['=', '='],
            right: Box::new(right),
        },
        TokenKind::Plus => Ast::Arithmetic {
            left: Box::new(left),
            operator: seq!['+'],
            right: Box::new(right),
        },
        TokenKind::Minus => Ast::Arithmetic {
            left: Box::new(left),
            operator: seq!['-'],
            right: Box::new(right),
        },
        TokenKind::Multiply => Ast::Arithmetic {
            left: Box::new(left),
            operator: seq!['*'],
            right: Box::new(right),
        },
        _ => Ast::Arithmetic { left: Box::new(left), operator: seq!['/'], right: Box::new(right) },
    }
}

/// Whether a token of the sort `kind` continues an expression: a comparison
/// or additive operator.
pub open spec fn continues_expression(kind: TokenKind) -> bool {
    kind == TokenKind::LessThan || kind == TokenKind::GreaterThan || kind == TokenKind::Equal
        || kind == TokenKind::Plus || kind == TokenKind::Minus
}

/// Whether a token of the sort `kind` continues a term: `+` or `-`.
pub open spec fn continues_term(kind: TokenKind) -> bool {
    kind == TokenKind::Plus || kind == TokenKind::Minus
}

/// Whether a token of the sort `kind` continues a factor: `*` or `/`.
pub open spec fn continues_factor(kind: TokenKind) -> bool {
    kind == TokenKind::Multiply || kind == TokenKind::Divide
}

/// An expression: a term, and then as long as a comparison or additive
/// operator follows, that operator and one more term, grouped to the left.
///
/// Here and in the functions below, a test that a step has left less to
/// parse stands in front of each step that depends on an earlier one. It
/// makes the definition well-founded and it never fails: every step takes at
/// least one token, by [`lemma_expression_advances`] and
/// [`lemma_statement_advances`].
pub open spec fn parse_expression(p: ParserView) -> Parsed<Ast>
    decreases p.measure(), 3nat,
{
    match parse_term(p) {
        Ok((left, next)) => if next.measure() < p.measure() {
            expression_tail(left, next)
        } else {
            arbitrary()
        },
        Err(e) => Err(e),
    }
}

/// The rest of an expression whose operands so far make up `left`.
pub open spec fn expression_tail(left: Ast, p: ParserView) -> Parsed<Ast>
    decreases p.measure(), 0nat,
{
    if continues_expression(kind_of(p.current)) {
        match p.advance() {
            Ok(behind) => {
                proof {
                    lemma_advance(p);
                }
                match parse_term(behind) {
                    Ok((right, next)) => if next.measure() < p.measure() {
                        expression_tail(binary_node(kind_of(p.current), left, right), next)
                    } else {
                        arbitrary()
                    },
                    Err(e) => Err(e),
                }
            },
            Err(e) => Err(e),
        }
    } else {
        Ok((left, p))
    }
}

/// A term: a factor, and then as long as `+` or `-` follows, that operator
/// and one more factor, grouped to the left.
pub open spec fn parse_term(p: ParserView) -> Parsed<Ast>
    decreases p.measure(), 2nat,
{
    match parse_factor(p) {
        Ok((left, next)) => if next.measure() < p.measure() {
            term_tail(left, next)
        } else {
            arbitrary()
        },
        Err(e) => Err(e),
    }
}

/// The rest of a term whose operands so far make up `left`.
pub open spec fn term_tail(left: Ast, p: ParserView) -> Parsed<Ast>
    decreases p.measure(), 0nat,
{
    if continues_term(kind_of(p.current)) {
        match p.advance() {
            Ok(behind) => {
                proof {
                    lemma_advance(p);
                }
                match parse_factor(behind) {
                    Ok((right, next)) => if next.measure() < p.measure() {
                        term_tail(binary_node(kind_of(p.current), left, right), next)
                    } else {
                        arbitrary()
                    },
                    Err(e) => Err(e),
                }
            },
            Err(e) => Err(e),
        }
    } else {
        Ok((left, p))
    }
}

/// A factor: a primary, and then as long as `*` or `/` follows, that
/// operator and one more primary, grouped to the left.
pub open spec fn parse_factor(p: ParserView) -> Parsed<Ast>
    decreases p.measure(), 1nat,
{
    match parse_primary(p) {
        Ok((left, next)) => if next.measure() < p.measure() {
            factor_tail(left, next)
        } else {
            arbitrary()
        },
        Err(e) => Err(e),
    }
}

/// The rest of a factor whose operands so far make up `left`.
pub open spec fn factor_tail(left: Ast, p: ParserView) -> Parsed<Ast>
    decreases p.measure(), 0nat,
{
    if continues_factor(kind_of(p.current)) {
        match p.advance() {
            Ok(behind) => {
                proof {
                    lemma_advance(p);
                }
                match parse_primary(behind) {
                    Ok((right, next)) => if next.measure() < p.measure() {
                        factor_tail(binary_node(kind_of(p.current), left, right), next)
                    } else {
                        arbitrary()
                    },
                    Err(e) => Err(e),
                }
            },
            Err(e) => Err(e),
        }
    } else {
        Ok((left, p))
    }
}

/// A primary: a literal, an identifier, a call (an identifier with
/// arguments in parentheses directly behind it) or an expression in
/// parentheses, which stands for itself.
pub open spec fn parse_primary(p: ParserView) -> Parsed<Ast>
    decreases p.measure(), 0nat,
{
    match p.current {
        TokenView::StringLiteral(text) => match p.advance() {
            Ok(next) => Ok((Ast::StringLiteral(text), next)),
            Err(e) => Err(e),
        },
        TokenView::Number(value) => match p.advance() {
            Ok(next) => Ok((Ast::Number(value), next)),
            Err(e) => Err(e),
        },
        TokenView::Boolean(value) => match p.advance() {
            Ok(next) => Ok((Ast::Boolean(value), next)),
            Err(e) => Err(e),
        },
        TokenView::Float(text) => match p.advance() {
            Ok(next) => Ok((Ast::Float(text), next)),
            Err(e) => Err(e),
        },
        TokenView::Identifier(name) => match p.advance() {
            Ok(behind) => if behind.current == TokenView::LParen {
                match behind.advance() {
                    Ok(inside) => {
                        proof {
                            lemma_advance(p);
                            lemma_advance(behind);
                        }
                        match parse_arguments(inside) {
                            Ok((args, closing)) => match closing.expect(TokenKind::RParen) {
                                Ok(next) => Ok((Ast::FunctionCall { name, args }, next)),
                                Err(e) => Err(e),
                            },
                            Err(e) => Err(e),
                        }
                    },
                    Err(e) => Err(e),
                }
            } else {
                Ok((Ast::Identifier(name), behind))
            },
            Err(e) => Err(e),
        },
        TokenView::LParen => match p.advance() {
            Ok(inside) => {
                proof {
                    lemma_advance(p);
                }
                match parse_expression(inside) {
                    Ok((expression, closing)) => match closing.expect(TokenKind::RParen) {
                        Ok(next) => Ok((expression, next)),
                        Err(e) => Err(e),
                    },
                    Err(e) => Err(e),
                }
            },
            Err(e) => Err(e),
        },
        _ => Err(unexpected(p.current, Expectation::Expression)),
    }
}

/// The arguments of a call, up to the closing parenthesis: expressions, each
/// with or without a comma behind it.
pub open spec fn parse_arguments(p: ParserView) -> Parsed<Seq<Ast>>
    decreases p.measure(), 4nat,
{
    if p.current == TokenView::RParen {
        Ok((Seq::empty(), p))
    } else {
        match parse_expression(p) {
            Ok((argument, behind)) => match behind.skip_comma() {
                Ok(next) => if next.measure() < p.measure() {
                    match parse_arguments(next) {
                        Ok((more, last)) => Ok((seq![argument] + more, last)),
                        Err(e) => Err(e),
                    }
                } else {
                    arbitrary()
                },
                Err(e) => Err(e),
            },
            Err(e) => Err(e),
        }
    }
}

/// Where a list of statements ends.
#[derive(Debug, PartialEq, Eq, Clone, Copy, Structural)]
pub enum BlockEnd {
    /// At `end`.
    End,
    /// At `else` or `end`.
    ElseOrEnd,
    /// At the end of the text.
    EndOfInput,
}

/// Whether a list of statements that ends as `end` says ends at a token of
/// the sort `kind`.
pub open spec fn ends_block(end: BlockEnd, kind: TokenKind) -> bool {
    match end {
        BlockEnd::End => kind == TokenKind::End,
        BlockEnd::ElseOrEnd => kind == TokenKind::Else || kind == TokenKind::End,
        BlockEnd::EndOfInput => kind == TokenKind::EOF,
    }
}

/// The parameter names of a function, up to the closing parenthesis:
/// identifiers, with commas between or around them that count for nothing.
pub open spec fn parse_parameters(p: ParserView) -> Parsed<Seq<Seq<char>>>
    decreases p.measure(),
{
    match p.current {
        TokenView::RParen => Ok((Seq::empty(), p)),
        TokenView::Identifier(name) => match p.advance() {
            Ok(behind) => match behind.skip_comma() {
                Ok(next) => {
                    proof {
                        lemma_advance(p);
                        lemma_advance(behind);
                    }
                    match parse_parameters(next) {
                        Ok((more, last)) => Ok((seq![name] + more, last)),
                        Err(e) => Err(e),
                    }
                },
                Err(e) => Err(e),
            },
            Err(e) => Err(e),
        },
        TokenView::Comma => match p.advance() {
            Ok(next) => {
                proof {
                    lemma_advance(p);
                }
                parse_parameters(next)
            },
            Err(e) => Err(e),
        },
        _ => Err(unexpected(p.current, Expectation::Token(TokenKind::RParen))),
    }
}

/// `var name type`. The variable is entered in the parser's table, which
/// refuses it if the innermost scope has it already.
pub open spec fn parse_variable_declaration(p: ParserView) -> Parsed<Ast> {
    match p.expect(TokenKind::Var) {
        Ok(behind) => match behind.expect_identifier() {
            Ok((name, at_type)) => match at_type.current {
                TokenView::Type(var_type) => match at_type.advance() {
                    Ok(next) => match next.table.declare_variable(name, var_type) {
                        Ok(table) => Ok(
                            (Ast::VariableDeclaration { name, var_type }, next.with_table(table)),
                        ),
                        Err(e) => Err(ParseError::Declaration(e)),
                    },
                    Err(e) => Err(e),
                },
                _ => Err(unexpected(at_type.current, Expectation::Token(TokenKind::Type))),
            },
            Err(e) => Err(e),
        },
        Err(e) => Err(e),
    }
}

/// `name = expression`.
pub open spec fn parse_assignment(p: ParserView) -> Parsed<Ast> {
    match p.expect_identifier() {
        Ok((variable, behind)) => match behind.expect(TokenKind::Assign) {
            Ok(at_expression) => match parse_expression(at_expression) {
                Ok((expression, next)) => Ok(
                    (Ast::Assignment { variable, expression: Box::new(expression) }, next),
                ),
                Err(e) => Err(e),
            },
            Err(e) => Err(e),
        },
        Err(e) => Err(e),
    }
}

/// `ret expression`.
pub open spec fn parse_ret(p: ParserView) -> Parsed<Ast> {
    match p.expect(TokenKind::Ret) {
        Ok(behind) => match parse_expression(behind) {
            Ok((expression, next)) => Ok((Ast::Ret { expression: Box::new(expression) }, next)),
            Err(e) => Err(e),
        },
        Err(e) => Err(e),
    }
}

/// A statement, told by its first token: a class, a function, a variable
/// declaration, a loop, an assignment, an `if` or a `ret`.
pub open spec fn parse_statement(p: ParserView) -> Parsed<Ast>
    decreases p.measure(), 1nat,
{
    match kind_of(p.current) {
        TokenKind::Class => parse_class_declaration(p),
        TokenKind::Func => parse_function_declaration(p),
        TokenKind::Var => parse_variable_declaration(p),
        TokenKind::While => parse_while_loop(p),
        TokenKind::For => parse_for_loop(p),
        TokenKind::Identifier => parse_assignment(p),
        TokenKind::If => parse_if_else(p),
        TokenKind::Ret => parse_ret(p),
        _ => Err(unexpected(p.current, Expectation::Statement)),
    }
}

/// The statements up to the token at which the list ends, which is left as
/// the current one.
pub open spec fn parse_statements(p: ParserView, end: BlockEnd) -> Parsed<Seq<Ast>>
    decreases p.measure(), 2nat,
{
    if ends_block(end, kind_of(p.current)) {
        Ok((Seq::empty(), p))
    } else {
        match parse_statement(p) {
            Ok((statement, next)) => if next.measure() < p.measure() {
                match parse_statements(next, end) {
                    Ok((more, last)) => Ok((seq![statement] + more, last)),
                    Err(e) => Err(e),
                }
            } else {
                arbitrary()
            },
            Err(e) => Err(e),
        }
    }
}

/// The head of a class, `class name then`: the name.
pub open spec fn class_header(p: ParserView) -> Parsed<Seq<char>> {
    match p.expect(TokenKind::Class) {
        Ok(behind) => match behind.expect_identifier() {
            Ok((name, at_then)) => match at_then.expect(TokenKind::Then) {
                Ok(inside) => Ok((name, inside)),
                Err(e) => Err(e),
            },
            Err(e) => Err(e),
        },
        Err(e) => Err(e),
    }
}

/// The opening of a function, `func name (`: the name.
pub open spec fn function_name(p: ParserView) -> Parsed<Seq<char>> {
    match p.expect(TokenKind::Func) {
        Ok(behind) => match behind.expect_identifier() {
            Ok((name, at_paren)) => match at_paren.expect(TokenKind::LParen) {
                Ok(at_params) => Ok((name, at_params)),
                Err(e) => Err(e),
            },
            Err(e) => Err(e),
        },
        Err(e) => Err(e),
    }
}

/// The head of a function, `func name ( parameters ) then`: the name and the
/// parameter names.
pub open spec fn function_header(p: ParserView) -> Parsed<(Seq<char>, Seq<Seq<char>>)> {
    match function_name(p) {
        Ok((name, at_params)) => match parse_parameters(at_params) {
            Ok((params, closing)) => match closing.expect(TokenKind::RParen) {
                Ok(at_then) => match at_then.expect(TokenKind::Then) {
                    Ok(inside) => Ok(((name, params), inside)),
                    Err(e) => Err(e),
                },
                Err(e) => Err(e),
            },
            Err(e) => Err(e),
        },
        Err(e) => Err(e),
    }
}

/// The head of an `if` or a `while`, `keyword condition then`: the
/// condition.
pub open spec fn condition_header(p: ParserView, keyword: TokenKind) -> Parsed<Ast> {
    match p.expect(keyword) {
        Ok(behind) => match parse_expression(behind) {
            Ok((condition, at_then)) => match at_then.expect(TokenKind::Then) {
                Ok(inside) => Ok((condition, inside)),
                Err(e) => Err(e),
            },
            Err(e) => Err(e),
        },
        Err(e) => Err(e),
    }
}

/// The opening of a `for` loop, `for variable =`: the variable. A scope is
/// opened behind `for`, and the variable is entered in it as an `Int`.
pub open spec fn for_variable(p: ParserView) -> Parsed<Seq<char>> {
    match p.expect(TokenKind::For) {
        Ok(behind) => match behind.with_table(behind.table.enter_scope()).expect_identifier() {
            Ok((variable, at_assign)) => match at_assign.with_table(
                SymbolTableView {
                    scopes: declare(at_assign.table.scopes, variable, Type::Int),
                    ..at_assign.table
                },
            ).expect(TokenKind::Assign) {
                Ok(at_start) => Ok((variable, at_start)),
                Err(e) => Err(e),
            },
            Err(e) => Err(e),
        },
        Err(e) => Err(e),
    }
}

/// The head of a `for` loop, `for variable = start end`: the variable and
/// the two bounds.
pub open spec fn for_header(p: ParserView) -> Parsed<(Seq<char>, Ast, Ast)> {
    match for_variable(p) {
        Ok((variable, at_start)) => match parse_expression(at_start) {
            Ok((start, at_limit)) => match parse_expression(at_limit) {
                Ok((end, inside)) => Ok(((variable, start, end), inside)),
                Err(e) => Err(e),
            },
            Err(e) => Err(e),
        },
        Err(e) => Err(e),
    }
}

/// The statements up to `end`, and the `end` taken.
pub open spec fn parse_body(p: ParserView) -> Parsed<Seq<Ast>>
    decreases p.measure(), 3nat,
{
    match parse_statements(p, BlockEnd::End) {
        Ok((nodes, at_end)) => match at_end.expect(TokenKind::End) {
            Ok(next) => Ok((nodes, next)),
            Err(e) => Err(e),
        },
        Err(e) => Err(e),
    }
}

/// What follows the first block of an `if`: `else` and a second block, or
/// nothing.
pub open spec fn parse_else(p: ParserView) -> Parsed<Option<Seq<Ast>>>
    decreases p.measure(), 3nat,
{
    if p.current == TokenView::Else {
        match p.advance() {
            Ok(inside) => {
                proof {
                    lemma_advance(p);
                }
                match parse_statements(inside, BlockEnd::ElseOrEnd) {
                    Ok((nodes, next)) => Ok((Some(nodes), next)),
                    Err(e) => Err(e),
                }
            },
            Err(e) => Err(e),
        }
    } else {
        Ok((None, p))
    }
}

/// `class name then members end`.
pub open spec fn parse_class_declaration(p: ParserView) -> Parsed<Ast>
    decreases p.measure(), 0nat,
{
    match class_header(p) {
        Ok((name, inside)) => if inside.measure() < p.measure() {
            match parse_body(inside) {
                Ok((members, next)) => Ok((Ast::ClassDeclaration { name, members }, next)),
                Err(e) => Err(e),
            }
        } else {
            arbitrary()
        },
        Err(e) => Err(e),
    }
}

/// `func name ( parameters ) then body end`.
pub open spec fn parse_function_declaration(p: ParserView) -> Parsed<Ast>
    decreases p.measure(), 0nat,
{
    match function_header(p) {
        Ok(((name, params), inside)) => if inside.measure() < p.measure() {
            match parse_body(inside) {
                Ok((body, next)) => Ok((Ast::FunctionDeclaration { name, params, body }, next)),
                Err(e) => Err(e),
            }
        } else {
            arbitrary()
        },
        Err(e) => Err(e),
    }
}

/// `if condition then statements [else statements] end`.
pub open spec fn parse_if_else(p: ParserView) -> Parsed<Ast>
    decreases p.measure(), 0nat,
{
    match condition_header(p, TokenKind::If) {
        Ok((condition, inside)) => if inside.measure() < p.measure() {
            match parse_statements(inside, BlockEnd::ElseOrEnd) {
                Ok((then_block, at_else)) => if at_else.measure() < p.measure() {
                    match parse_else(at_else) {
                        Ok((else_block, at_end)) => match at_end.expect(TokenKind::End) {
                            Ok(next) => Ok(
                                (
                                    Ast::IfElse {
                                        condition: Box::new(condition),
                                        then_block,
                                        else_block,
                                    },
                                    next,
                                ),
                            ),
                            Err(e) => Err(e),
                        },
                        Err(e) => Err(e),
                    }
                } else {
                    arbitrary()
                },
                Err(e) => Err(e),
            }
        } else {
            arbitrary()
        },
        Err(e) => Err(e),
    }
}

/// `while condition then body end`. The body stands in a scope of its own.
pub open spec fn parse_while_loop(p: ParserView) -> Parsed<Ast>
    decreases p.measure(), 0nat,
{
    match condition_header(p, TokenKind::While) {
        Ok((condition, inside)) => if inside.measure() < p.measure() {
            match parse_body(inside.with_table(inside.table.enter_scope())) {
                Ok((body, next)) => Ok(
                    (
                        Ast::WhileLoop { condition: Box::new(condition), body },
                        next.with_table(next.table.exit_scope()),
                    ),
                ),
                Err(e) => Err(e),
            }
        } else {
            arbitrary()
        },
        Err(e) => Err(e),
    }
}

/// `for variable = start end body end`. The loop stands in a scope of its
/// own, in which the loop variable is an `Int`.
pub open spec fn parse_for_loop(p: ParserView) -> Parsed<Ast>
    decreases p.measure(), 0nat,
{
    match for_header(p) {
        Ok(((variable, start, end), inside)) => if inside.measure() < p.measure() {
            match parse_body(inside) {
                Ok((body, next)) => Ok(
                    (
                        Ast::ForLoop {
                            variable,
                            start: Box::new(start),
                            end: Box::new(end),
                            body,
                        },
                        next.with_table(next.table.exit_scope()),
                    ),
                ),
                Err(e) => Err(e),
            }
        } else {
            arbitrary()
        },
        Err(e) => Err(e),
    }
}

/// A program: statements up to the end of the text.
pub open spec fn parse_program(p: ParserView) -> Parsed<Ast> {
    match parse_statements(p, BlockEnd::EndOfInput) {
        Ok((nodes, next)) => Ok((Ast::Program(nodes), next)),
        Err(e) => Err(e),
    }
}

/// Taking a token of a given sort leaves less to parse, and keeps the table.
pub proof fn lemma_expect(p: ParserView, kind: TokenKind)
    ensures
        match p.expect(kind) {
            Ok(next) => next.measure() <= p.measure() && (p.current != TokenView::EOF
                ==> next.measure() < p.measure()) && next.table == p.table,
            Err(_) => true,
        },
        match p.expect_identifier() {
            Ok((_, next)) => next.measure() < p.measure() && next.table == p.table,
            Err(_) => true,
        },
        match p.skip_comma() {
            Ok(next) => next.measure() <= p.measure() && next.table == p.table,
            Err(_) => true,
        },
{
    lemma_advance(p);
}

/// An expression that is parsed takes at least one token and leaves the
/// table as it is. The tests that the definitions of the grammar make before
/// each dependent step therefore never fail in a parse that succeeds.
pub proof fn lemma_expression_advances(p: ParserView)
    ensures
        match parse_expression(p) {
            Ok((_, next)) => next.measure() < p.measure() && next.table == p.table,
            Err(_) => true,
        },
    decreases p.measure(), 3nat,
{
    lemma_term_advances(p);
    match parse_term(p) {
        Ok((left, next)) => {
            lemma_expression_tail_advances(left, next);
        },
        Err(_) => {},
    }
}

proof fn lemma_expression_tail_advances(left: Ast, p: ParserView)
    ensures
        match expression_tail(left, p) {
            Ok((_, next)) => next.measure() <= p.measure() && next.table == p.table,
            Err(_) => true,
        },
    decreases p.measure(), 0nat,
{
    if continues_expression(kind_of(p.current)) {
        lemma_advance(p);
        match p.advance() {
            Ok(behind) => {
                lemma_term_advances(behind);
                match parse_term(behind) {
                    Ok((right, next)) => {
                        lemma_expression_tail_advances(
                            binary_node(kind_of(p.current), left, right),
                            next,
                        );
                    },
                    Err(_) => {},
                }
            },
            Err(_) => {},
        }
    }
}

proof fn lemma_term_advances(p: ParserView)
    ensures
        match parse_term(p) {
            Ok((_, next)) => next.measure() < p.measure() && next.table == p.table,
            Err(_) => true,
        },
    decreases p.measure(), 2nat,
{
    lemma_factor_advances(p);
    match parse_factor(p) {
        Ok((left, next)) => {
            lemma_term_tail_advances(left, next);
        },
        Err(_) => {},
    }
}

proof fn lemma_term_tail_advances(left: Ast, p: ParserView)
    ensures
        match term_tail(left, p) {
            Ok((_, next)) => next.measure() <= p.measure() && next.table == p.table,
            Err(_) => true,
        },
    decreases p.measure(), 0nat,
{
    if continues_term(kind_of(p.current)) {
        lemma_advance(p);
        match p.advance() {
            Ok(behind) => {
                lemma_factor_advances(behind);
                match parse_factor(behind) {
                    Ok((right, next)) => {
                        lemma_term_tail_advances(
                            binary_node(kind_of(p.current), left, right),
                            next,
                        );
                    },
                    Err(_) => {},
                }
            },
            Err(_) => {},
        }
    }
}

proof fn lemma_factor_advances(p: ParserView)
    ensures
        match parse_factor(p) {
            Ok((_, next)) => next.measure() < p.measure() && next.table == p.table,
            Err(_) => true,
        },
    decreases p.measure(), 1nat,
{
    lemma_primary_advances(p);
    match parse_primary(p) {
        Ok((left, next)) => {
            lemma_factor_tail_advances(left, next);
        },
        Err(_) => {},
    }
}

proof fn lemma_factor_tail_advances(left: Ast, p: ParserView)
    ensures
        match factor_tail(left, p) {
            Ok((_, next)) => next.measure() <= p.measure() && next.table == p.table,
            Err(_) => true,
        },
    decreases p.measure(), 0nat,
{
    if continues_factor(kind_of(p.current)) {
        lemma_advance(p);
        match p.advance() {
            Ok(behind) => {
                lemma_primary_advances(behind);
                match parse_primary(behind) {
                    Ok((right, next)) => {
                        lemma_factor_tail_advances(
                            binary_node(kind_of(p.current), left, right),
                            next,
                        );
                    },
                    Err(_) => {},
                }
            },
            Err(_) => {},
        }
    }
}

proof fn lemma_primary_advances(p: ParserView)
    ensures
        match parse_primary(p) {
            Ok((_, next)) => next.measure() < p.measure() && next.table == p.table,
            Err(_) => true,
        },
    decreases p.measure(), 0nat,
{
    lemma_advance(p);
    match p.current {
        TokenView::Identifier(_) => match p.advance() {
            Ok(behind) => if behind.current == TokenView::LParen {
                lemma_advance(behind);
                match behind.advance() {
                    Ok(inside) => {
                        lemma_arguments_advance(inside);
                        match parse_arguments(inside) {
                            Ok((_, closing)) => {
                                lemma_expect(closing, TokenKind::RParen);
                            },
                            Err(_) => {},
                        }
                    },
                    Err(_) => {},
                }
            },
            Err(_) => {},
        },
        TokenView::LParen => match p.advance() {
            Ok(inside) => {
                lemma_expression_advances(inside);
                match parse_expression(inside) {
                    Ok((_, closing)) => {
                        lemma_expect(closing, TokenKind::RParen);
                    },
                    Err(_) => {},
                }
            },
            Err(_) => {},
        },
        _ => {},
    }
}

proof fn lemma_arguments_advance(p: ParserView)
    ensures
        match parse_arguments(p) {
            Ok((_, next)) => next.measure() <= p.measure() && next.table == p.table,
            Err(_) => true,
        },
    decreases p.measure(), 4nat,
{
    if p.current != TokenView::RParen {
        lemma_expression_advances(p);
        match parse_expression(p) {
            Ok((_, behind)) => {
                lemma_expect(behind, TokenKind::Comma);
                match behind.skip_comma() {
                    Ok(next) => {
                        lemma_arguments_advance(next);
                    },
                    Err(_) => {},
                }
            },
            Err(_) => {},
        }
    }
}

proof fn lemma_parameters_advance(p: ParserView)
    ensures
        match parse_parameters(p) {
            Ok((_, next)) => next.measure() <= p.measure() && next.table == p.table,
            Err(_) => true,
        },
    decreases p.measure(),
{
    lemma_advance(p);
    match p.current {
        TokenView::Identifier(_) => match p.advance() {
            Ok(behind) => {
                lemma_expect(behind, TokenKind::Comma);
                match behind.skip_comma() {
                    Ok(next) => {
                        lemma_parameters_advance(next);
                    },
                    Err(_) => {},
                }
            },
            Err(_) => {},
        },
        TokenView::Comma => match p.advance() {
            Ok(next) => {
                lemma_parameters_advance(next);
            },
            Err(_) => {},
        },
        _ => {},
    }
}

proof fn lemma_class_header_advances(p: ParserView)
    ensures
        match class_header(p) {
            Ok((_, next)) => next.measure() < p.measure(),
            Err(_) => true,
        },
{
    lemma_expect(p, TokenKind::Class);
    match p.expect(TokenKind::Class) {
        Ok(behind) => {
            lemma_expect(behind, TokenKind::Identifier);
            match behind.expect_identifier() {
                Ok((_, at_then)) => {
                    lemma_expect(at_then, TokenKind::Then);
                },
                Err(_) => {},
            }
        },
        Err(_) => {},
    }
}

proof fn lemma_function_name_advances(p: ParserView)
    ensures
        match function_name(p) {
            Ok((_, next)) => next.measure() < p.measure(),
            Err(_) => true,
        },
{
    lemma_expect(p, TokenKind::Func);
    match p.expect(TokenKind::Func) {
        Ok(behind) => {
            lemma_expect(behind, TokenKind::Identifier);
            match behind.expect_identifier() {
                Ok((_, at_paren)) => {
                    lemma_expect(at_paren, TokenKind::LParen);
                },
                Err(_) => {},
            }
        },
        Err(_) => {},
    }
}

proof fn lemma_function_header_advances(p: ParserView)
    ensures
        match function_header(p) {
            Ok((_, next)) => next.measure() < p.measure(),
            Err(_) => true,
        },
{
    lemma_function_name_advances(p);
    match function_name(p) {
        Ok((_, at_params)) => {
            lemma_parameters_advance(at_params);
            match parse_parameters(at_params) {
                Ok((_, closing)) => {
                    lemma_expect(closing, TokenKind::RParen);
                    match closing.expect(TokenKind::RParen) {
                        Ok(at_then) => {
                            lemma_expect(at_then, TokenKind::Then);
                        },
                        Err(_) => {},
                    }
                },
                Err(_) => {},
            }
        },
        Err(_) => {},
    }
}

proof fn lemma_condition_header_advances(p: ParserView, keyword: TokenKind)
    ensures
        match condition_header(p, keyword) {
            Ok((_, next)) => next.measure() < p.measure(),
            Err(_) => true,
        },
{
    lemma_expect(p, keyword);
    match p.expect(keyword) {
        Ok(behind) => {
            lemma_expression_advances(behind);
            match parse_expression(behind) {
                Ok((_, at_then)) => {
                    lemma_expect(at_then, TokenKind::Then);
                },
                Err(_) => {},
            }
        },
        Err(_) => {},
    }
}

proof fn lemma_for_variable_advances(p: ParserView)
    ensures
        match for_variable(p) {
            Ok((_, next)) => next.measure() < p.measure(),
            Err(_) => true,
        },
{
    lemma_expect(p, TokenKind::For);
    match p.expect(TokenKind::For) {
        Ok(behind) => {
            let scoped = behind.with_table(behind.table.enter_scope());
            lemma_expect(scoped, TokenKind::Identifier);
            match scoped.expect_identifier() {
                Ok((variable, at_assign)) => {
                    let declared = at_assign.with_table(
                        SymbolTableView {
                            scopes: declare(at_assign.table.scopes, variable, Type::Int),
                            ..at_assign.table
                        },
                    );
                    lemma_expect(declared, TokenKind::Assign);
                },
                Err(_) => {},
            }
        },
        Err(_) => {},
    }
}

proof fn lemma_for_header_advances(p: ParserView)
    ensures
        match for_header(p) {
            Ok((_, next)) => next.measure() < p.measure(),
            Err(_) => true,
        },
{
    lemma_for_variable_advances(p);
    match for_variable(p) {
        Ok((_, at_start)) => {
            lemma_expression_advances(at_start);
            match parse_expression(at_start) {
                Ok((_, at_limit)) => {
                    lemma_expression_advances(at_limit);
                },
                Err(_) => {},
            }
        },
        Err(_) => {},
    }
}

/// A statement that is parsed takes at least one token. The tests that the
/// definitions of the grammar make before each dependent step therefore
/// never fail in a parse that succeeds.
pub proof fn lemma_statement_advances(p: ParserView)
    ensures
        match parse_statement(p) {
            Ok((_, next)) => next.measure() < p.measure(),
            Err(_) => true,
        },
    decreases p.measure(), 1nat,
{
    match kind_of(p.current) {
        TokenKind::Class => {
            lemma_class_header_advances(p);
            match class_header(p) {
                Ok((_, inside)) => {
                    lemma_body_advances(inside);
                },
                Err(_) => {},
            }
        },
        TokenKind::Func => {
            lemma_function_header_advances(p);
            match function_header(p) {
                Ok((_, inside)) => {
                    lemma_body_advances(inside);
                },
                Err(_) => {},
            }
        },
        TokenKind::Var => {
            lemma_expect(p, TokenKind::Var);
            match p.expect(TokenKind::Var) {
                Ok(behind) => {
                    lemma_expect(behind, TokenKind::Identifier);
                    match behind.expect_identifier() {
                        Ok((_, at_type)) => {
                            lemma_advance(at_type);
                        },
                        Err(_) => {},
                    }
                },
                Err(_) => {},
            }
        },
        TokenKind::While => {
            lemma_condition_header_advances(p, TokenKind::While);
            match condition_header(p, TokenKind::While) {
                Ok((_, inside)) => {
                    lemma_body_advances(inside.with_table(inside.table.enter_scope()));
                },
                Err(_) => {},
            }
        },
        TokenKind::For => {
            lemma_for_header_advances(p);
            match for_header(p) {
                Ok((_, inside)) => {
                    lemma_body_advances(inside);
                },
                Err(_) => {},
            }
        },
        TokenKind::Identifier => {
            lemma_expect(p, TokenKind::Identifier);
            match p.expect_identifier() {
                Ok((_, behind)) => {
                    lemma_expect(behind, TokenKind::Assign);
                    match behind.expect(TokenKind::Assign) {
                        Ok(at_expression) => {
                            lemma_expression_advances(at_expression);
                        },
                        Err(_) => {},
                    }
                },
                Err(_) => {},
            }
        },
        TokenKind::If => {
            lemma_condition_header_advances(p, TokenKind::If);
            match condition_header(p, TokenKind::If) {
                Ok((_, inside)) => {
                    lemma_statements_advance(inside, BlockEnd::ElseOrEnd);
                    match parse_statements(inside, BlockEnd::ElseOrEnd) {
                        Ok((_, at_else)) => {
                            lemma_else_advances(at_else);
                            match parse_else(at_else) {
                                Ok((_, at_end)) => {
                                    lemma_expect(at_end, TokenKind::End);
                                },
                                Err(_) => {},
                            }
                        },
                        Err(_) => {},
                    }
                },
                Err(_) => {},
            }
        },
        TokenKind::Ret => {
            lemma_expect(p, TokenKind::Ret);
            match p.expect(TokenKind::Ret) {
                Ok(behind) => {
                    lemma_expression_advances(behind);
                },
                Err(_) => {},
            }
        },
        _ => {},
    }
}

proof fn lemma_body_advances(p: ParserView)
    ensures
        match parse_body(p) {
            Ok((_, next)) => next.measure() <= p.measure(),
            Err(_) => true,
        },
    decreases p.measure(), 3nat,
{
    lemma_statements_advance(p, BlockEnd::End);
    match parse_statements(p, BlockEnd::End) {
        Ok((_, at_end)) => {
            lemma_expect(at_end, TokenKind::End);
        },
        Err(_) => {},
    }
}

proof fn lemma_else_advances(p: ParserView)
    ensures
        match parse_else(p) {
            Ok((_, next)) => next.measure() <= p.measure(),
            Err(_) => true,
        },
    decreases p.measure(), 3nat,
{
    if p.current == TokenView::Else {
        lemma_advance(p);
        match p.advance() {
            Ok(inside) => {
                lemma_statements_advance(inside, BlockEnd::ElseOrEnd);
            },
            Err(_) => {},
        }
    }
}

proof fn lemma_statements_advance(p: ParserView, end: BlockEnd)
    ensures
        match parse_statements(p, end) {
            Ok((_, next)) => next.measure() <= p.measure(),
            Err(_) => true,
        },
    decreases p.measure(), 2nat,
{
    if !ends_block(end, kind_of(p.current)) {
        lemma_statement_advances(p);
        match parse_statement(p) {
            Ok((_, next)) => {
                lemma_statements_advance(next, end);
            },
            Err(_) => {},
        }
    }
}

/// Whether the executable result `result`, with the parser `after` that it
/// left, is what `expected` says of a step that started at `before`: the same
/// tree and parser, or the same failure. A step that succeeds has taken at
/// least one token and left as many scopes open as it found.
pub open spec fn yields(
    result: Result<ASTNode, ParseError>,
    after: ParserView,
    before: ParserView,
    expected: Parsed<Ast>,
) -> bool {
    match expected {
        Ok((node, next)) => {
            &&& result is Ok
            &&& result->Ok_0@ == node
            &&& after == next
            &&& next.measure() < before.measure()
            &&& next.table.scopes.len() == before.table.scopes.len()
        },
        Err(e) => result is Err && result->Err_0 == e,
    }
}

/// [`yields`] for a step that parses a list, which may be empty and take no
/// token.
pub open spec fn yields_all(
    result: Result<Vec<ASTNode>, ParseError>,
    after: ParserView,
    before: ParserView,
    expected: Parsed<Seq<Ast>>,
) -> bool {
    match expected {
        Ok((nodes, next)) => {
            &&& result is Ok
            &&& view_nodes(result->Ok_0@) == nodes
            &&& after == next
            &&& next.measure() <= before.measure()
            &&& next.table.scopes.len() == before.table.scopes.len()
        },
        Err(e) => result is Err && result->Err_0 == e,
    }
}

/// `nodes` in front of the nodes of `rest`.
pub open spec fn with_nodes(nodes: Seq<Ast>, rest: Parsed<Seq<Ast>>) -> Parsed<Seq<Ast>> {
    match rest {
        Ok((more, next)) => Ok((nodes + more, next)),
        Err(e) => Err(e),
    }
}

/// `names` in front of the names of `rest`.
pub open spec fn with_names(names: Seq<Seq<char>>, rest: Parsed<Seq<Seq<char>>>) -> Parsed<
    Seq<Seq<char>>,
> {
    match rest {
        Ok((more, next)) => Ok((names + more, next)),
        Err(e) => Err(e),
    }
}

/// The symbol of a binary operator as a string.
fn symbol(first: char, second: Option<char>) -> (text: String)
    ensures
        text@ == match second {
            Some(c) => seq![first, c],
            None => seq![first],
        },
{
    let mut text = String::new();
    text.push(first);
    match second {
        Some(c) => {
            text.push(c);
            assert(text@ =~= seq![first, c]);
        },
        None => {
            assert(text@ =~= seq![first]);
        },
    }
    text
}

/// The node that the binary operator of the sort `operator` makes of `left`
/// and `right`.
fn make_binary(operator: TokenKind, left: ASTNode, right: ASTNode) -> (node: ASTNode)
    ensures
        node@ == binary_node(operator, left@, right@),
{
    let left = Box::new(left);
    let right = Box::new(right);
    match operator {
        TokenKind::LessThan => ASTNode::Comparison { left, operator: symbol('<', None), right },
        TokenKind::GreaterThan => ASTNode::Comparison { left, operator: symbol('>', None), right },
        TokenKind::Equal => ASTNode::Comparison { left, operator: symbol('=', Some('=')), right },
        TokenKind::Plus => ASTNode::Arithmetic { left, operator: symbol('+', None), right },
        TokenKind::Minus => ASTNode::Arithmetic { left, operator: symbol('-', None), right },
        TokenKind::Multiply => ASTNode::Arithmetic { left, operator: symbol('*', None), right },
        _ => ASTNode::Arithmetic { left, operator: symbol('/', None), right },
    }
}

/// Whether a token of the sort `kind` continues an expression.
fn is_expression_operator(kind: TokenKind) -> (b: bool)
    ensures
        b == continues_expression(kind),
{
    kind == TokenKind::LessThan || kind == TokenKind::GreaterThan || kind == TokenKind::Equal
        || kind == TokenKind::Plus || kind == TokenKind::Minus
}

/// Whether a token of the sort `kind` continues a term.
fn is_term_operator(kind: TokenKind) -> (b: bool)
    ensures
        b == continues_term(kind),
{
    kind == TokenKind::Plus || kind == TokenKind::Minus
}

/// Whether a token of the sort `kind` continues a factor.
fn is_factor_operator(kind: TokenKind) -> (b: bool)
    ensures
        b == continues_factor(kind),
{
    kind == TokenKind::Multiply || kind == TokenKind::Divide
}

/// Whether a list of statements that ends as `end` says ends at a token of
/// the sort `kind`.
fn is_block_end(end: BlockEnd, kind: TokenKind) -> (b: bool)
    ensures
        b == ends_block(end, kind),
{
    match end {
        BlockEnd::End => kind == TokenKind::End,
        BlockEnd::ElseOrEnd => kind == TokenKind::Else || kind == TokenKind::End,
        BlockEnd::EndOfInput => kind == TokenKind::EOF,
    }
}

/// The parser: the lexer it reads from, the current token, and its table of
/// scopes.
pub struct Parser {
    lexer: Lexer,
    current_token: Token,
    symbol_table: SymbolTable,
}

impl View for Parser {
    type V = ParserView;

    closed spec fn view(&self) -> ParserView {
        ParserView {
            rest: self.lexer@,
            current: self.current_token@,
            table: self.symbol_table@,
        }
    }
}

impl Parser {
    /// Well-formedness of the representation: the table is well-formed and
    /// has a scope open. Every constructor establishes it and every method
    /// preserves it.
    pub closed spec fn wf(self) -> bool {
        &&& self.symbol_table.wf()
        &&& self.symbol_table@.scopes.len() > 0
    }

    /// A parser on the text of `lexer`, with the first token read.
    pub fn new(lexer: Lexer) -> (r: Result<Parser, ParseError>)
        ensures
            match ParserView::start(lexer@) {
                Ok(start) => r is Ok && r->Ok_0@ == start && r->Ok_0.wf(),
                Err(e) => r is Err && r->Err_0 == e,
            },
    {
        let mut lexer = lexer;
        match lexer.get_next_token() {
            Ok(current_token) => Ok(
                Parser { lexer, current_token, symbol_table: SymbolTable::new() },
            ),
            Err(e) => Err(ParseError::Lexical(e)),
        }
    }

    /// Makes the next token the current one.
    fn advance(&mut self) -> (r: Result<(), ParseError>)
        requires
            old(self).wf(),
        ensures
            final(self).wf(),
            match old(self)@.advance() {
                Ok(next) => r is Ok && final(self)@ == next,
                Err(e) => r is Err && r->Err_0 == e,
            },
    {
        match self.lexer.get_next_token() {
            Ok(token) => {
                self.current_token = token;
                Ok(())
            },
            Err(e) => Err(ParseError::Lexical(e)),
        }
    }

    /// Takes the current token, which must be of the sort `kind`.
    fn consume_token(&mut self, kind: TokenKind) -> (r: Result<(), ParseError>)
        requires
            old(self).wf(),
        ensures
            final(self).wf(),
            match old(self)@.expect(kind) {
                Ok(next) => r is Ok && final(self)@ == next,
                Err(e) => r is Err && r->Err_0 == e,
            },
    {
        let found = self.current_token.kind();
        if found == kind {
            self.advance()
        } else {
            Err(ParseError::UnexpectedToken { found, expected: Expectation::Token(kind) })
        }
    }

    /// Takes the current token, which must be an identifier, and returns its
    /// name.
    fn consume_identifier(&mut self) -> (r: Result<String, ParseError>)
        requires
            old(self).wf(),
        ensures
            final(self).wf(),
            match old(self)@.expect_identifier() {
                Ok((name, next)) => r is Ok && r->Ok_0@ == name && final(self)@ == next,
                Err(e) => r is Err && r->Err_0 == e,
            },
    {
        let name = match &self.current_token {
            Token::Identifier(name) => name.clone(),
            _ => {
                return Err(
                    ParseError::UnexpectedToken {
                        found: self.current_token.kind(),
                        expected: Expectation::Token(TokenKind::Identifier),
                    },
                );
            },
        };
        match self.advance() {
            Ok(()) => Ok(name),
            Err(e) => Err(e),
        }
    }

    /// Takes the current token if it is a comma.
    fn skip_comma(&mut self) -> (r: Result<(), ParseError>)
        requires
            old(self).wf(),
        ensures
            final(self).wf(),
            match old(self)@.skip_comma() {
                Ok(next) => r is Ok && final(self)@ == next,
                Err(e) => r is Err && r->Err_0 == e,
            },
    {
        if self.current_token.kind() == TokenKind::Comma {
            self.advance()
        } else {
            Ok(())
        }
    }

    /// Parses the whole text and returns the program. The parser is left at
    /// the end of the text.
    pub fn parse_program(&mut self) -> (r: Result<ASTNode, ParseError>)
        requires
            old(self).wf(),
        ensures
            final(self).wf(),
            match parse_program(old(self)@) {
                Ok((program, next)) => r is Ok && r->Ok_0@ == program && final(self)@ == next,
                Err(e) => r is Err && r->Err_0 == e,
            },
    {
        match self.parse_statements(BlockEnd::EndOfInput) {
            Ok(nodes) => Ok(ASTNode::Program(nodes)),
            Err(e) => Err(e),
        }
    }

    /// Parses the statements up to the token at which the list ends.
    fn parse_statements(&mut self, end: BlockEnd) -> (r: Result<Vec<ASTNode>, ParseError>)
        requires
            old(self).wf(),
        ensures
            final(self).wf(),
            yields_all(r, final(self)@, old(self)@, parse_statements(old(self)@, end)),
        decreases old(self)@.measure(), 2nat,
    {
        let mut nodes: Vec<ASTNode> = Vec::new();
        assert(view_nodes(nodes@) =~= Seq::<Ast>::empty());
        loop
            invariant
                self.wf(),
                self@.measure() <= old(self)@.measure(),
                self@.table.scopes.len() == old(self)@.table.scopes.len(),
                parse_statements(old(self)@, end) == with_nodes(
                    view_nodes(nodes@),
                    parse_statements(self@, end),
                ),
            decreases self@.measure(),
        {
            if is_block_end(end, self.current_token.kind()) {
                assert(view_nodes(nodes@) + Seq::<Ast>::empty() =~= view_nodes(nodes@));
                return Ok(nodes);
            }
            let ghost before = self@;
            let ghost found = view_nodes(nodes@);
            match self.parse_statement() {
                Ok(node) => {
                    nodes.push(node);
                    proof {
                        assert(view_nodes(nodes@) =~= found.push(node@));
                        let rest = parse_statements(self@, end);
                        if rest is Ok {
                            assert(found + (seq![node@] + rest->Ok_0.0) =~= found.push(node@)
                                + rest->Ok_0.0);
                        }
                    }
                },
                Err(e) => {
                    return Err(e);
                },
            }
        }
    }

    /// Parses one statement, told by its first token.
    fn parse_statement(&mut self) -> (r: Result<ASTNode, ParseError>)
        requires
            old(self).wf(),
        ensures
            final(self).wf(),
            yields(r, final(self)@, old(self)@, parse_statement(old(self)@)),
        decreases old(self)@.measure(), 1nat,
    {
        match self.current_token.kind() {
            TokenKind::Class => self.parse_class_declaration(),
            TokenKind::Func => self.parse_function_declaration(),
            TokenKind::Var => self.parse_variable_declaration(),
            TokenKind::While => self.parse_while_loop(),
            TokenKind::For => self.parse_for_loop(),
            TokenKind::Identifier => self.parse_assignment(),
            TokenKind::If => self.parse_if_else(),
            TokenKind::Ret => self.parse_ret(),
            found => Err(ParseError::UnexpectedToken { found, expected: Expectation::Statement }),
        }
    }

    /// Parses the head of a class, `class name then`.
    fn class_header(&mut self) -> (r: Result<String, ParseError>)
        requires
            old(self).wf(),
        ensures
            final(self).wf(),
            match class_header(old(self)@) {
                Ok((name, next)) => {
                    &&& r is Ok
                    &&& r->Ok_0@ == name
                    &&& final(self)@ == next
                    &&& next.measure() < old(self)@.measure()
                    &&& next.table == old(self)@.table
                },
                Err(e) => r is Err && r->Err_0 == e,
            },
    {
        proof {
            lemma_advance(self@);
        }
        match self.consume_token(TokenKind::Class) {
            Ok(()) => {},
            Err(e) => {
                return Err(e);
            },
        }
        proof {
            lemma_advance(self@);
        }
        let name = match self.consume_identifier() {
            Ok(name) => name,
            Err(e) => {
                return Err(e);
            },
        };
        proof {
            lemma_advance(self@);
        }
        match self.consume_token(TokenKind::Then) {
            Ok(()) => Ok(name),
            Err(e) => Err(e),
        }
    }

    /// Parses the statements up to `end` and takes the `end`.
    fn parse_body(&mut self) -> (r: Result<Vec<ASTNode>, ParseError>)
        requires
            old(self).wf(),
        ensures
            final(self).wf(),
            yields_all(r, final(self)@, old(self)@, parse_body(old(self)@)),
        decreases old(self)@.measure(), 3nat,
    {
        let nodes = match self.parse_statements(BlockEnd::End) {
            Ok(nodes) => nodes,
            Err(e) => {
                return Err(e);
            },
        };
        proof {
            lemma_advance(self@);
        }
        match self.consume_token(TokenKind::End) {
            Ok(()) => Ok(nodes),
            Err(e) => Err(e),
        }
    }

    /// Parses `class name then members end`.
    fn parse_class_declaration(&mut self) -> (r: Result<ASTNode, ParseError>)
        requires
            old(self).wf(),
        ensures
            final(self).wf(),
            yields(r, final(self)@, old(self)@, parse_class_declaration(old(self)@)),
        decreases old(self)@.measure(), 0nat,
    {
        let name = match self.class_header() {
            Ok(name) => name,
            Err(e) => {
                return Err(e);
            },
        };
        match self.parse_body() {
            Ok(members) => Ok(ASTNode::ClassDeclaration { name, members }),
            Err(e) => Err(e),
        }
    }

    /// Parses the parameter names of a function, up to the closing
    /// parenthesis.
    fn parse_parameters(&mut self) -> (r: Result<Vec<String>, ParseError>)
        requires
            old(self).wf(),
        ensures
            final(self).wf(),
            match parse_parameters(old(self)@) {
                Ok((params, next)) => {
                    &&& r is Ok
                    &&& r->Ok_0.deep_view() == params
                    &&& final(self)@ == next
                    &&& next.measure() <= old(self)@.measure()
                    &&& next.table == old(self)@.table
                },
                Err(e) => r is Err && r->Err_0 == e,
            },
    {
        let mut params: Vec<String> = Vec::new();
        assert(params.deep_view() =~= Seq::<Seq<char>>::empty());
        loop
            invariant
                self.wf(),
                self@.measure() <= old(self)@.measure(),
                self@.table == old(self)@.table,
                parse_parameters(old(self)@) == with_names(
                    params.deep_view(),
                    parse_parameters(self@),
                ),
            decreases self@.measure(),
        {
            let ghost found = params.deep_view();
            proof {
                lemma_advance(self@);
            }
            match self.current_token.kind() {
                TokenKind::RParen => {
                    assert(found + Seq::<Seq<char>>::empty() =~= found);
                    return Ok(params);
                },
                TokenKind::Identifier => {
                    let name = match self.consume_identifier() {
                        Ok(name) => name,
                        Err(e) => {
                            return Err(e);
                        },
                    };
                    proof {
                        lemma_advance(self@);
                    }
                    match self.skip_comma() {
                        Ok(()) => {},
                        Err(e) => {
                            return Err(e);
                        },
                    }
                    params.push(name);
                    proof {
                        assert(params.deep_view() =~= found.push(name@));
                        let rest = parse_parameters(self@);
                        if rest is Ok {
                            assert(found + (seq![name@] + rest->Ok_0.0) =~= found.push(name@)
                                + rest->Ok_0.0);
                        }
                    }
                },
                TokenKind::Comma => {
                    match self.advance() {
                        Ok(()) => {},
                        Err(e) => {
                            return Err(e);
                        },
                    }
                },
                found => {
                    return Err(
                        ParseError::UnexpectedToken {
                            found,
                            expected: Expectation::Token(TokenKind::RParen),
                        },
                    );
                },
            }
        }
    }

    /// Parses the opening of a function, `func name (`.
    fn function_name(&mut self) -> (r: Result<String, ParseError>)
        requires
            old(self).wf(),
        ensures
            final(self).wf(),
            match function_name(old(self)@) {
                Ok((name, next)) => {
                    &&& r is Ok
                    &&& r->Ok_0@ == name
                    &&& final(self)@ == next
                    &&& next.measure() < old(self)@.measure()
                    &&& next.table == old(self)@.table
                },
                Err(e) => r is Err && r->Err_0 == e,
            },
    {
        proof {
            lemma_advance(self@);
        }
        match self.consume_token(TokenKind::Func) {
            Ok(()) => {},
            Err(e) => {
                return Err(e);
            },
        }
        proof {
            lemma_advance(self@);
        }
        let name = match self.consume_identifier() {
            Ok(name) => name,
            Err(e) => {
                return Err(e);
            },
        };
        proof {
            lemma_advance(self@);
        }
        match self.consume_token(TokenKind::LParen) {
            Ok(()) => Ok(name),
            Err(e) => Err(e),
        }
    }

    /// Parses the head of a function, `func name ( parameters ) then`.
    fn function_header(&mut self) -> (r: Result<(String, Vec<String>), ParseError>)
        requires
            old(self).wf(),
        ensures
            final(self).wf(),
            match function_header(old(self)@) {
                Ok(((name, params), next)) => {
                    &&& r is Ok
                    &&& r->Ok_0.0@ == name
                    &&& r->Ok_0.1.deep_view() == params
                    &&& final(self)@ == next
                    &&& next.measure() < old(self)@.measure()
                    &&& next.table == old(self)@.table
                },
                Err(e) => r is Err && r->Err_0 == e,
            },
    {
        let name = match self.function_name() {
            Ok(name) => name,
            Err(e) => {
                return Err(e);
            },
        };
        let params = match self.parse_parameters() {
            Ok(params) => params,
            Err(e) => {
                return Err(e);
            },
        };
        proof {
            lemma_advance(self@);
        }
        match self.consume_token(TokenKind::RParen) {
            Ok(()) => {},
            Err(e) => {
                return Err(e);
            },
        }
        proof {
            lemma_advance(self@);
        }
        match self.consume_token(TokenKind::Then) {
            Ok(()) => Ok((name, params)),
            Err(e) => Err(e),
        }
    }

    /// Parses `func name ( parameters ) then body end`.
    fn parse_function_declaration(&mut self) -> (r: Result<ASTNode, ParseError>)
        requires
            old(self).wf(),
        ensures
            final(self).wf(),
            yields(r, final(self)@, old(self)@, parse_function_declaration(old(self)@)),
        decreases old(self)@.measure(), 0nat,
    {
        let (name, params) = match self.function_header() {
            Ok(header) => header,
            Err(e) => {
                return Err(e);
            },
        };
        match self.parse_body() {
            Ok(body) => Ok(ASTNode::FunctionDeclaration { name, params, body }),
            Err(e) => Err(e),
        }
    }

    /// Parses `var name type` and enters the variable in the parser's table.
    fn parse_variable_declaration(&mut self) -> (r: Result<ASTNode, ParseError>)
        requires
            old(self).wf(),
        ensures
            final(self).wf(),
            yields(r, final(self)@, old(self)@, parse_variable_declaration(old(self)@)),
    {
        proof {
            lemma_advance(self@);
        }
        match self.consume_token(TokenKind::Var) {
            Ok(()) => {},
            Err(e) => {
                return Err(e);
            },
        }
        proof {
            lemma_advance(self@);
        }
        let name = match self.consume_identifier() {
            Ok(name) => name,
            Err(e) => {
                return Err(e);
            },
        };
        let var_type = match &self.current_token {
            Token::Type(var_type) => *var_type,
            _ => {
                return Err(
                    ParseError::UnexpectedToken {
                        found: self.current_token.kind(),
                        expected: Expectation::Token(TokenKind::Type),
                    },
                );
            },
        };
        proof {
            lemma_advance(self@);
        }
        match self.advance() {
            Ok(()) => {},
            Err(e) => {
                return Err(e);
            },
        }
        match self.symbol_table.declare(name.clone(), var_type) {
            Ok(()) => Ok(ASTNode::VariableDeclaration { name, var_type }),
            Err(e) => Err(ParseError::Declaration(e)),
        }
    }

    /// Parses `name = expression`.
    fn parse_assignment(&mut self) -> (r: Result<ASTNode, ParseError>)
        requires
            old(self).wf(),
        ensures
            final(self).wf(),
            yields(r, final(self)@, old(self)@, parse_assignment(old(self)@)),
    {
        proof {
            lemma_advance(self@);
        }
        let variable = match self.consume_identifier() {
            Ok(name) => name,
            Err(e) => {
                return Err(e);
            },
        };
        proof {
            lemma_advance(self@);
        }
        match self.consume_token(TokenKind::Assign) {
            Ok(()) => {},
            Err(e) => {
                return Err(e);
            },
        }
        match self.parse_expression() {
            Ok(expression) => Ok(
                ASTNode::Assignment { variable, expression: Box::new(expression) },
            ),
            Err(e) => Err(e),
        }
    }

    /// Parses an expression: terms joined by comparison and additive operators.
    fn parse_expression(&mut self) -> (r: Result<ASTNode, ParseError>)
        requires
            old(self).wf(),
        ensures
            final(self).wf(),
            yields(r, final(self)@, old(self)@, parse_expression(old(self)@)),
        decreases old(self)@.measure(), 3nat,
    {
        let mut node = match self.parse_term() {
            Ok(node) => node,
            Err(e) => {
                return Err(e);
            },
        };
        loop
            invariant
                self.wf(),
                self@.measure() < old(self)@.measure(),
                self@.table.scopes.len() == old(self)@.table.scopes.len(),
                parse_expression(old(self)@) == expression_tail(node@, self@),
            decreases self@.measure(),
        {
            let operator = self.current_token.kind();
            if !is_expression_operator(operator) {
                return Ok(node);
            }
            proof {
                lemma_advance(self@);
            }
            match self.advance() {
                Ok(()) => {},
                Err(e) => {
                    return Err(e);
                },
            }
            let right = match self.parse_term() {
                Ok(right) => right,
                Err(e) => {
                    return Err(e);
                },
            };
            node = make_binary(operator, node, right);
        }
    }

    /// Parses a term: factors joined by `+` and `-`.
    fn parse_term(&mut self) -> (r: Result<ASTNode, ParseError>)
        requires
            old(self).wf(),
        ensures
            final(self).wf(),
            yields(r, final(self)@, old(self)@, parse_term(old(self)@)),
        decreases old(self)@.measure(), 2nat,
    {
        let mut node = match self.parse_factor() {
            Ok(node) => node,
            Err(e) => {
                return Err(e);
            },
        };
        loop
            invariant
                self.wf(),
                self@.measure() < old(self)@.measure(),
                self@.table.scopes.len() == old(self)@.table.scopes.len(),
                parse_term(old(self)@) == term_tail(node@, self@),
            decreases self@.measure(),
        {
            let operator = self.current_token.kind();
            if !is_term_operator(operator) {
                return Ok(node);
            }
            proof {
                lemma_advance(self@);
            }
            match self.advance() {
                Ok(()) => {},
                Err(e) => {
                    return Err(e);
                },
            }
            let right = match self.parse_factor() {
                Ok(right) => right,
                Err(e) => {
                    return Err(e);
                },
            };
            node = make_binary(operator, node, right);
        }
    }

    /// Parses a factor: primaries joined by `*` and `/`.
    fn parse_factor(&mut self) -> (r: Result<ASTNode, ParseError>)
        requires
            old(self).wf(),
        ensures
            final(self).wf(),
            yields(r, final(self)@, old(self)@, parse_factor(old(self)@)),
        decreases old(self)@.measure(), 1nat,
    {
        let mut node = match self.parse_primary() {
            Ok(node) => node,
            Err(e) => {
                return Err(e);
            },
        };
        loop
            invariant
                self.wf(),
                self@.measure() < old(self)@.measure(),
                self@.table.scopes.len() == old(self)@.table.scopes.len(),
                parse_factor(old(self)@) == factor_tail(node@, self@),
            decreases self@.measure(),
        {
            let operator = self.current_token.kind();
            if !is_factor_operator(operator) {
                return Ok(node);
            }
            proof {
                lemma_advance(self@);
            }
            match self.advance() {
                Ok(()) => {},
                Err(e) => {
                    return Err(e);
                },
            }
            let right = match self.parse_primary() {
                Ok(right) => right,
                Err(e) => {
                    return Err(e);
                },
            };
            node = make_binary(operator, node, right);
        }
    }

    /// Parses a primary: a literal, an identifier, a call or an expression in
    /// parentheses.
    fn parse_primary(&mut self) -> (r: Result<ASTNode, ParseError>)
        requires
            old(self).wf(),
        ensures
            final(self).wf(),
            yields(r, final(self)@, old(self)@, parse_primary(old(self)@)),
        decreases old(self)@.measure(), 0nat,
    {
        proof {
            lemma_advance(self@);
        }
        match &self.current_token {
            Token::StringLiteral(text) => {
                let text = text.clone();
                match self.advance() {
                    Ok(()) => Ok(ASTNode::StringLiteral(text)),
                    Err(e) => Err(e),
                }
            },
            Token::Number(value) => {
                let value = *value;
                match self.advance() {
                    Ok(()) => Ok(ASTNode::Number(value)),
                    Err(e) => Err(e),
                }
            },
            Token::Boolean(value) => {
                let value = *value;
                match self.advance() {
                    Ok(()) => Ok(ASTNode::Boolean(value)),
                    Err(e) => Err(e),
                }
            },
            Token::Float(text) => {
                let text = text.clone();
                match self.advance() {
                    Ok(()) => Ok(ASTNode::Float(text)),
                    Err(e) => Err(e),
                }
            },
            Token::Identifier(name) => {
                let name = name.clone();
                match self.advance() {
                    Ok(()) => {},
                    Err(e) => {
                        return Err(e);
                    },
                }
                if self.current_token.kind() == TokenKind::LParen {
                    self.parse_call(name, Ghost(old(self)@))
                } else {
                    Ok(ASTNode::Identifier(name))
                }
            },
            Token::LParen => {
                match self.advance() {
                    Ok(()) => {},
                    Err(e) => {
                        return Err(e);
                    },
                }
                let expression = match self.parse_expression() {
                    Ok(expression) => expression,
                    Err(e) => {
                        return Err(e);
                    },
                };
                proof {
                    lemma_advance(self@);
                }
                match self.consume_token(TokenKind::RParen) {
                    Ok(()) => Ok(expression),
                    Err(e) => Err(e),
                }
            },
            _ => Err(
                ParseError::UnexpectedToken {
                    found: self.current_token.kind(),
                    expected: Expectation::Expression,
                },
            ),
        }
    }

    /// Parses the arguments of a call of `name`, from the opening parenthesis
    /// on. `start` is the parser at the identifier.
    fn parse_call(&mut self, name: String, Ghost(start): Ghost<ParserView>) -> (r: Result<
        ASTNode,
        ParseError,
    >)
        requires
            old(self).wf(),
            start.current == TokenView::Identifier(name@),
            start.advance() == Ok::<ParserView, ParseError>(old(self)@),
            old(self)@.current == TokenView::LParen,
        ensures
            final(self).wf(),
            yields(r, final(self)@, start, parse_primary(start)),
        decreases old(self)@.measure(), 0nat,
    {
        proof {
            lemma_advance(start);
            lemma_advance(self@);
        }
        match self.advance() {
            Ok(()) => {},
            Err(e) => {
                return Err(e);
            },
        }
        let args = match self.parse_arguments() {
            Ok(args) => args,
            Err(e) => {
                return Err(e);
            },
        };
        proof {
            lemma_advance(self@);
        }
        match self.consume_token(TokenKind::RParen) {
            Ok(()) => Ok(ASTNode::FunctionCall { name, args }),
            Err(e) => Err(e),
        }
    }

    /// Parses the arguments of a call, up to the closing parenthesis.
    fn parse_arguments(&mut self) -> (r: Result<Vec<ASTNode>, ParseError>)
        requires
            old(self).wf(),
        ensures
            final(self).wf(),
            yields_all(r, final(self)@, old(self)@, parse_arguments(old(self)@)),
        decreases old(self)@.measure(), 4nat,
    {
        let mut nodes: Vec<ASTNode> = Vec::new();
        assert(view_nodes(nodes@) =~= Seq::<Ast>::empty());
        loop
            invariant
                self.wf(),
                self@.measure() <= old(self)@.measure(),
                self@.table.scopes.len() == old(self)@.table.scopes.len(),
                parse_arguments(old(self)@) == with_nodes(
                    view_nodes(nodes@),
                    parse_arguments(self@),
                ),
            decreases self@.measure(),
        {
            if self.current_token.kind() == TokenKind::RParen {
                assert(view_nodes(nodes@) + Seq::<Ast>::empty() =~= view_nodes(nodes@));
                return Ok(nodes);
            }
            let ghost found = view_nodes(nodes@);
            let node = match self.parse_expression() {
                Ok(node) => node,
                Err(e) => {
                    return Err(e);
                },
            };
            proof {
                lemma_advance(self@);
            }
            match self.skip_comma() {
                Ok(()) => {},
                Err(e) => {
                    return Err(e);
                },
            }
            nodes.push(node);
            proof {
                assert(view_nodes(nodes@) =~= found.push(node@));
                let rest = parse_arguments(self@);
                if rest is Ok {
                    assert(found + (seq![node@] + rest->Ok_0.0) =~= found.push(node@)
                        + rest->Ok_0.0);
                }
            }
        }
    }

    /// Parses the head of an `if` or a `while`, `keyword condition then`.
    fn condition_header(&mut self, keyword: TokenKind) -> (r: Result<ASTNode, ParseError>)
        requires
            old(self).wf(),
        ensures
            final(self).wf(),
            match condition_header(old(self)@, keyword) {
                Ok((condition, next)) => {
                    &&& r is Ok
                    &&& r->Ok_0@ == condition
                    &&& final(self)@ == next
                    &&& next.measure() < old(self)@.measure()
                    &&& next.table.scopes.len() == old(self)@.table.scopes.len()
                },
                Err(e) => r is Err && r->Err_0 == e,
            },
    {
        proof {
            lemma_advance(self@);
        }
        match self.consume_token(keyword) {
            Ok(()) => {},
            Err(e) => {
                return Err(e);
            },
        }
        let condition = match self.parse_expression() {
            Ok(condition) => condition,
            Err(e) => {
                return Err(e);
            },
        };
        proof {
            lemma_advance(self@);
        }
        match self.consume_token(TokenKind::Then) {
            Ok(()) => Ok(condition),
            Err(e) => Err(e),
        }
    }

    /// Parses what follows the first block of an `if`: `else` and a second
    /// block, or nothing.
    fn parse_else(&mut self) -> (r: Result<Option<Vec<ASTNode>>, ParseError>)
        requires
            old(self).wf(),
        ensures
            final(self).wf(),
            match parse_else(old(self)@) {
                Ok((block, next)) => {
                    &&& r is Ok
                    &&& match block {
                        Some(nodes) => r->Ok_0 is Some && view_nodes(r->Ok_0->0@) == nodes,
                        None => r->Ok_0 is None,
                    }
                    &&& final(self)@ == next
                    &&& next.measure() <= old(self)@.measure()
                    &&& next.table.scopes.len() == old(self)@.table.scopes.len()
                },
                Err(e) => r is Err && r->Err_0 == e,
            },
        decreases old(self)@.measure(), 3nat,
    {
        if self.current_token.kind() == TokenKind::Else {
            proof {
                lemma_advance(self@);
            }
            match self.advance() {
                Ok(()) => {},
                Err(e) => {
                    return Err(e);
                },
            }
            match self.parse_block() {
                Ok(block) => Ok(Some(block)),
                Err(e) => Err(e),
            }
        } else {
            Ok(None)
        }
    }

    /// Parses `if condition then statements [else statements] end`.
    fn parse_if_else(&mut self) -> (r: Result<ASTNode, ParseError>)
        requires
            old(self).wf(),
        ensures
            final(self).wf(),
            yields(r, final(self)@, old(self)@, parse_if_else(old(self)@)),
        decreases old(self)@.measure(), 0nat,
    {
        let condition = match self.condition_header(TokenKind::If) {
            Ok(condition) => condition,
            Err(e) => {
                return Err(e);
            },
        };
        let then_block = match self.parse_block() {
            Ok(block) => block,
            Err(e) => {
                return Err(e);
            },
        };
        let else_block = match self.parse_else() {
            Ok(block) => block,
            Err(e) => {
                return Err(e);
            },
        };
        proof {
            lemma_advance(self@);
        }
        match self.consume_token(TokenKind::End) {
            Ok(()) => Ok(
                ASTNode::IfElse { condition: Box::new(condition), then_block, else_block },
            ),
            Err(e) => Err(e),
        }
    }

    /// Parses the statements of a block, up to `else` or `end`.
    fn parse_block(&mut self) -> (r: Result<Vec<ASTNode>, ParseError>)
        requires
            old(self).wf(),
        ensures
            final(self).wf(),
            yields_all(
                r,
                final(self)@,
                old(self)@,
                parse_statements(old(self)@, BlockEnd::ElseOrEnd),
            ),
        decreases old(self)@.measure(), 3nat,
    {
        self.parse_statements(BlockEnd::ElseOrEnd)
    }

    /// Parses `ret expression`.
    fn parse_ret(&mut self) -> (r: Result<ASTNode, ParseError>)
        requires
            old(self).wf(),
        ensures
            final(self).wf(),
            yields(r, final(self)@, old(self)@, parse_ret(old(self)@)),
    {
        proof {
            lemma_advance(self@);
        }
        match self.consume_token(TokenKind::Ret) {
            Ok(()) => {},
            Err(e) => {
                return Err(e);
            },
        }
        match self.parse_expression() {
            Ok(expression) => Ok(ASTNode::Ret { expression: Box::new(expression) }),
            Err(e) => Err(e),
        }
    }

    /// Parses `while condition then body end`.
    fn parse_while_loop(&mut self) -> (r: Result<ASTNode, ParseError>)
        requires
            old(self).wf(),
        ensures
            final(self).wf(),
            yields(r, final(self)@, old(self)@, parse_while_loop(old(self)@)),
        decreases old(self)@.measure(), 0nat,
    {
        let condition = match self.condition_header(TokenKind::While) {
            Ok(condition) => condition,
            Err(e) => {
                return Err(e);
            },
        };
        self.symbol_table.enter_scope();
        let body = match self.parse_body() {
            Ok(body) => body,
            Err(e) => {
                return Err(e);
            },
        };
        self.symbol_table.exit_scope();
        Ok(ASTNode::WhileLoop { condition: Box::new(condition), body })
    }

    /// Parses the opening of a `for` loop, `for variable =`, opens the scope
    /// of the loop and enters the variable in it.
    fn for_variable(&mut self) -> (r: Result<String, ParseError>)
        requires
            old(self).wf(),
        ensures
            final(self).wf(),
            match for_variable(old(self)@) {
                Ok((variable, next)) => {
                    &&& r is Ok
                    &&& r->Ok_0@ == variable
                    &&& final(self)@ == next
                    &&& next.measure() < old(self)@.measure()
                    &&& next.table.scopes.len() == old(self)@.table.scopes.len() + 1
                },
                Err(e) => r is Err && r->Err_0 == e,
            },
    {
        proof {
            lemma_advance(self@);
        }
        match self.consume_token(TokenKind::For) {
            Ok(()) => {},
            Err(e) => {
                return Err(e);
            },
        }
        self.symbol_table.enter_scope();
        proof {
            lemma_advance(self@);
        }
        let variable = match self.consume_identifier() {
            Ok(name) => name,
            Err(e) => {
                return Err(e);
            },
        };
        let declared = self.symbol_table.declare(variable.clone(), Type::Int);
        assert(declared is Ok);
        proof {
            lemma_advance(self@);
        }
        match self.consume_token(TokenKind::Assign) {
            Ok(()) => Ok(variable),
            Err(e) => Err(e),
        }
    }

    /// Parses the head of a `for` loop, `for variable = start end`.
    fn for_header(&mut self) -> (r: Result<(String, ASTNode, ASTNode), ParseError>)
        requires
            old(self).wf(),
        ensures
            final(self).wf(),
            match for_header(old(self)@) {
                Ok(((variable, start, end), next)) => {
                    &&& r is Ok
                    &&& r->Ok_0.0@ == variable
                    &&& r->Ok_0.1@ == start
                    &&& r->Ok_0.2@ == end
                    &&& final(self)@ == next
                    &&& next.measure() < old(self)@.measure()
                    &&& next.table.scopes.len() == old(self)@.table.scopes.len() + 1
                },
                Err(e) => r is Err && r->Err_0 == e,
            },
    {
        let variable = match self.for_variable() {
            Ok(variable) => variable,
            Err(e) => {
                return Err(e);
            },
        };
        let start = match self.parse_expression() {
            Ok(start) => start,
            Err(e) => {
                return Err(e);
            },
        };
        let end = match self.parse_expression() {
            Ok(end) => end,
            Err(e) => {
                return Err(e);
            },
        };
        Ok((variable, start, end))
    }

    /// Parses `for variable = start end body end`.
    fn parse_for_loop(&mut self) -> (r: Result<ASTNode, ParseError>)
        requires
            old(self).wf(),
        ensures
            final(self).wf(),
            yields(r, final(self)@, old(self)@, parse_for_loop(old(self)@)),
        decreases old(self)@.measure(), 0nat,
    {
        let (variable, start, end) = match self.for_header() {
            Ok(header) => header,
            Err(e) => {
                return Err(e);
            },
        };
        let body = match self.parse_body() {
            Ok(body) => body,
            Err(e) => {
                return Err(e);
            },
        };
        self.symbol_table.exit_scope();
        Ok(ASTNode::ForLoop { variable, start: Box::new(start), end: Box::new(end), body })
    }
}

impl Expectation {
    /// What was looked for, in words.
    pub open spec fn spec_name(self) -> Seq<char> {
        match self {
            Expectation::Token(kind) => kind.spec_name(),
            Expectation::Statement => "a statement"@,
            Expectation::Expression => "an expression"@,
        }
    }

    /// What was looked for, in words.
    pub fn name(&self) -> (text: &'static str)
        ensures
            text@ == self.spec_name(),
    {
        match self {
            Expectation::Token(kind) => kind.name(),
            Expectation::Statement => "a statement",
            Expectation::Expression => "an expression",
        }
    }
}

impl ParseError {
    /// What went wrong, in words.
    pub open spec fn spec_message(self) -> Seq<char> {
        match self {
            ParseError::Lexical(e) => e.spec_message(),
            ParseError::UnexpectedToken { found, expected } => "unexpected token: "@
                + found.spec_name() + ", expected "@ + expected.spec_name(),
            ParseError::Declaration(e) => e.spec_message(),
        }
    }

    /// What went wrong, in words.
    pub fn message(&self) -> (text: String)
        ensures
            text@ == self.spec_message(),
    {
        match self {
            ParseError::Lexical(e) => e.message(),
            ParseError::UnexpectedToken { found, expected } => {
                let mut text = "unexpected token: ".to_owned();
                text.append(found.name());
                text.append(", expected ");
                text.append(expected.name());
                text
            },
            ParseError::Declaration(e) => e.message().to_owned(),
        }
    }
}

} // verus!
