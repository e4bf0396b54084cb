//! The engine's error type.
use vstd::prelude::*;

use crate::text::{decimal, decimal_text};

verus! {

/// What can go wrong while a document is opened.
#[derive(Debug)]
pub enum EngineError {
    Io(String),
    Parse { pos: usize, message: String },
    Empty,
}

/// A parse failure in mathematical form: a byte position and a message.
pub struct Fault {
    pub pos: int,
    pub message: Seq<char>,
}

impl EngineError {
    /// `self` reports exactly the failure `f`.
    pub open spec fn is_fault(self, f: Fault) -> bool {
        match self {
            EngineError::Parse { pos, message } => pos == f.pos && message@ == f.message,
            _ => false,
        }
    }

    /// The human-readable rendering of the error.
    pub open spec fn text(self) -> Seq<char> {
        match self {
            EngineError::Io(m) => "I/O error: "@ + m@,
            EngineError::Parse { pos, message } => "Parse error at byte "@ + decimal_text(pos as nat)
                + ": "@ + message@,
            EngineError::Empty => "Empty document"@,
        }
    }

    /// A parse failure at byte `pos`.
    pub fn parse(pos: usize, message: &str) -> (e: EngineError)
        ensures
            e matches EngineError::Parse { pos: p, message: m } && p == pos && m@ == message@,
    {
        EngineError::Parse { pos, message: message.to_string() }
    }

    /// Renders the error for display.
    pub fn message(&self) -> (out: String)
        ensures
            out@ == self.text(),
    {
        match self {
            EngineError::Io(m) => {
                let mut out = "I/O error: ".to_string();
                out.append(m.as_str());
                out
            },
            EngineError::Parse { pos, message } => {
                let mut out = "Parse error at byte ".to_string();
                out.append(decimal(*pos as u64).as_str());
                out.append(": ");
                out.append(message.as_str());
                out
            },
            EngineError::Empty => "Empty document".to_string(),
        }
    }
}

} // verus!
