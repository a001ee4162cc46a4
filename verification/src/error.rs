use vstd::prelude::*;
use crate::text::{concat, lit};

verus! {

/// Errors reported by the tokenizer, parser, linter, registry and configuration reader.
#[derive(Debug, Clone, PartialEq, Eq)]
pub enum IshError {
    ConfigError(String),
    ParseError(String),
    ExecutionError(String),
    IoError(String),
    Unknown,
}

impl IshError {
    /// The message carried by the error, as characters.
    pub open spec fn message(self) -> Seq<char> {
        match self {
            IshError::ConfigError(m) => m@,
            IshError::ParseError(m) => m@,
            IshError::ExecutionError(m) => m@,
            IshError::IoError(m) => m@,
            IshError::Unknown => Seq::empty(),
        }
    }

    /// How the error is written out for the user: its kind, then its message.
    pub open spec fn described(self) -> Seq<char> {
        match self {
            IshError::ConfigError(m) => "Configuration Error: "@ + m@,
            IshError::ParseError(m) => "Parse Error: "@ + m@,
            IshError::ExecutionError(m) => "Execution Error: "@ + m@,
            IshError::IoError(m) => "IO Error: "@ + m@,
            IshError::Unknown => "Unknown error occurred"@,
        }
    }

    /// The error written out for the user (see `described`).
    pub fn describe(&self) -> (s: String)
        ensures
            s@ == self.described(),
    {
        match self {
            IshError::ConfigError(m) => concat(lit("Configuration Error: "), m.as_str()),
            IshError::ParseError(m) => concat(lit("Parse Error: "), m.as_str()),
            IshError::ExecutionError(m) => concat(lit("Execution Error: "), m.as_str()),
            IshError::IoError(m) => concat(lit("IO Error: "), m.as_str()),
            IshError::Unknown => lit("Unknown error occurred"),
        }
    }
}

} // verus!
