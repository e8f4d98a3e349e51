//! The protocol-level error type shared by the command layer.
use vstd::prelude::*;

use crate::extension::ServerExtensionParseError;
use crate::statement::StatementParseError;

verus! {

/// A failure while driving the SMTP protocol.
#[derive(Debug, Clone, PartialEq, Eq)]
pub enum SMTPError {
    /// A command line no handler accepts.
    InvalidCommand(String),
    /// A reply line or reply that does not parse.
    InvalidStatement(StatementParseError),
    /// An extension line that does not parse.
    InvalidExtension(ServerExtensionParseError),
    /// A reply whose shape the command does not accept.
    InvalidResponse(&'static str),
}

impl SMTPError {
    /// The reply code a server answers with for this error: 502 for a
    /// command it does not implement, otherwise no code.
    pub open spec fn spec_error_code(&self) -> u16 {
        match self {
            SMTPError::InvalidCommand(_) => 502,
            _ => 0,
        }
    }

    /// Computes [`SMTPError::spec_error_code`].
    pub fn get_error_code(&self) -> (r: u16)
        ensures
            r == self.spec_error_code(),
    {
        match self {
            SMTPError::InvalidCommand(_) => 502,
            _ => 0,
        }
    }
}

} // verus!
