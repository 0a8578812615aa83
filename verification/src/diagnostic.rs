//! Diagnostics: the severity levels a diagnostic can carry.

use vstd::prelude::*;
use crate::error::Error;

verus! {

/// The severity of a diagnostic.
#[derive(Clone, Copy, Debug, PartialEq, Eq, Structural)]
pub enum DiagnosticSeverity {
    /// A hard error.
    Error,
    /// A warning.
    Warning,
    /// A note attached to another diagnostic.
    Note,
    /// A remark.
    Remark,
}

/// The numeric encoding of a severity.
pub open spec fn severity_code(s: DiagnosticSeverity) -> u32 {
    match s {
        DiagnosticSeverity::Error => 0,
        DiagnosticSeverity::Warning => 1,
        DiagnosticSeverity::Note => 2,
        DiagnosticSeverity::Remark => 3,
    }
}

impl DiagnosticSeverity {
    /// Decodes a severity from its numeric encoding; an unknown code
    /// is reported rather than mapped to a default.
    pub fn from_code(code: u32) -> (r: Result<DiagnosticSeverity, Error>)
        ensures
            match r {
                Ok(s) => severity_code(s) == code,
                Err(e) => {
                    &&& code > 3
                    &&& e == Error::UnknownDiagnosticSeverity(code)
                },
            },
    {
        match code {
            0 => Ok(DiagnosticSeverity::Error),
            1 => Ok(DiagnosticSeverity::Warning),
            2 => Ok(DiagnosticSeverity::Note),
            3 => Ok(DiagnosticSeverity::Remark),
            _ => Err(Error::UnknownDiagnosticSeverity(code)),
        }
    }

    /// The numeric encoding of the severity.
    pub fn code(&self) -> (r: u32)
        ensures
            r == severity_code(*self),
    {
        match self {
            DiagnosticSeverity::Error => 0,
            DiagnosticSeverity::Warning => 1,
            DiagnosticSeverity::Note => 2,
            DiagnosticSeverity::Remark => 3,
        }
    }
}

} // verus!
