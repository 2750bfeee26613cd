//! The front end: from source text to a checked program.
//!
//! The three stages run one after the other, and the first failure of any of
//! them ends the run: the text is read to its end by the lexer, parsed into a
//! program, and the program is analyzed against a fresh table of symbols.

use crate::ast::{ASTNode, Ast};
use crate::lexer::{tokenize, tokens_of, LexError, Lexer};
use crate::parser::{parse_program, ParseError, Parser, ParserView};
use crate::semantic::{analyze, check, SemanticError};
use crate::symbol_table::{SymbolTable, SymbolTableView};
use vstd::prelude::*;

verus! {

/// Why a source text is not a valid program, by the stage that refused it.
#[derive(Debug, PartialEq, Eq, Clone, Copy, Structural)]
pub enum CompileError {
    /// The text does not consist of tokens.
    Lexical(LexError),
    /// The tokens do not make a program.
    Syntax(ParseError),
    /// The program breaks a rule of declaration or type.
    Semantic(SemanticError),
}

/// The program that the text `text` is and the table of what it declares, or
/// the failure of the first stage that refuses it.
pub open spec fn front_end(text: Seq<char>) -> Result<(Ast, SymbolTableView), CompileError> {
    match tokens_of(text) {
        Ok(_) => match ParserView::start(text) {
            Ok(start) => match parse_program(start) {
                Ok((program, _)) => match check(program, SymbolTableView::initial()) {
                    Ok(table) => Ok((program, table)),
                    Err(e) => Err(CompileError::Semantic(e)),
                },
                Err(e) => Err(CompileError::Syntax(e)),
            },
            Err(e) => Err(CompileError::Syntax(e)),
        },
        Err(e) => Err(CompileError::Lexical(e)),
    }
}

/// Reads, parses and analyzes `source`. Returns the program and the table
/// of what it declares.
pub fn compile(source: &str) -> (r: Result<(ASTNode, SymbolTable), CompileError>)
    ensures
        match front_end(source@) {
            Ok((program, table)) => r is Ok && r->Ok_0.0@ == program && r->Ok_0.1@ == table
                && r->Ok_0.1.wf(),
            Err(e) => r is Err && r->Err_0 == e,
        },
{
    match tokenize(source) {
        Ok(_) => {},
        Err(e) => {
            return Err(CompileError::Lexical(e));
        },
    }
    let mut parser = match Parser::new(Lexer::new(source)) {
        Ok(parser) => parser,
        Err(e) => {
            return Err(CompileError::Syntax(e));
        },
    };
    let program = match parser.parse_program() {
        Ok(program) => program,
        Err(e) => {
            return Err(CompileError::Syntax(e));
        },
    };
    let mut table = SymbolTable::new();
    match analyze(&program, &mut table) {
        Ok(()) => Ok((program, table)),
        Err(e) => Err(CompileError::Semantic(e)),
    }
}

impl CompileError {
    /// What went wrong, in words: the stage and its failure.
    pub open spec fn spec_message(self) -> Seq<char> {
        match self {
            CompileError::Lexical(e) => "lexical error: "@ + e.spec_message(),
            CompileError::Syntax(e) => "syntax error: "@ + e.spec_message(),
            CompileError::Semantic(e) => "semantic error: "@ + e.spec_message(),
        }
    }

    /// What went wrong, in words: the stage and its failure.
    pub fn message(&self) -> (text: String)
        ensures
            text@ == self.spec_message(),
    {
        match self {
            CompileError::Lexical(e) => {
                let mut text = "lexical error: ".to_owned();
                text.append(e.message().as_str());
                text
            },
            CompileError::Syntax(e) => {
                let mut text = "syntax error: ".to_owned();
                text.append(e.message().as_str());
                text
            },
            CompileError::Semantic(e) => {
                let mut text = "semantic error: ".to_owned();
                text.append(e.message().as_str());
                text
            },
        }
    }
}

} // verus!
