//! The query subsystem: lexer, surface parser, and evaluator.
use vstd::prelude::*;

pub mod ast;
pub mod canonical;
pub mod escaping;
pub mod evaluator;
pub mod grammar;
pub mod index;
pub mod lexer;
pub mod number;
pub mod number_laws;
pub mod numeral;
pub mod order;
pub mod surface;
pub mod ui_lexer;
pub mod value;

verus! {

/// A query that cannot be compiled: why, and at which character.
#[derive(Debug)]
pub struct QueryError {
    pub message: String,
    pub position: usize,
}

/// A query error in mathematical form.
pub struct QueryFault {
    pub position: int,
    pub message: Seq<char>,
}

impl View for QueryError {
    type V = QueryFault;

    open spec fn view(&self) -> QueryFault {
        QueryFault { position: self.position as int, message: self.message@ }
    }
}

impl QueryError {
    pub fn new(position: usize, message: String) -> (e: QueryError)
        ensures
            e.position == position,
            e.message == message,
            e@ == qfault(position as int, message@),
    {
        QueryError { message, position }
    }

    /// As `new`, for a message that is a string slice.
    pub fn at(position: usize, message: &str) -> (e: QueryError)
        ensures
            e@ == qfault(position as int, message@),
    {
        QueryError { message: message.to_string(), position }
    }
}

/// Compiles the text of a query.
pub fn compile(source: &str) -> (r: Result<ast::Ast, QueryError>)
    ensures
        surface::lower::outcome(r) == surface::compiled(source@, Seq::empty()),
{
    surface::compile(source)
}

pub open spec fn qfault(position: int, message: Seq<char>) -> QueryFault {
    QueryFault { position, message }
}

} // verus!
