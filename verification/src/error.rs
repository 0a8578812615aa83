//! The closed error taxonomy shared by every fallible entry point.

use vstd::prelude::*;
use crate::text::{dec_seq, dec_u64_string};

verus! {

/// An error raised by the library.
///
/// Every fallible accessor returns one of these values; none of the
/// verified functions panic on ordinary misuse such as a bad index or a
/// missing name.
#[derive(Debug, PartialEq, Eq)]
pub enum Error {
    /// An attribute lookup or coercion found the wrong payload kind.
    AttributeExpected(&'static str, String),
    /// A named attribute is absent.
    AttributeNotFound(String),
    /// Textual attribute syntax is invalid.
    AttributeParse(String),
    /// A value used where a block argument was required was an
    /// operation result.
    BlockArgumentExpected(String),
    /// A container-typed attribute's element did not match the expected
    /// element kind.
    ElementExpected { kind: &'static str, value: String },
    /// The single materializing builder call failed.
    OperationBuild,
    /// A named operand accessor missed.
    OperandNotFound(&'static str),
    /// An indexed accessor was given an out-of-range index.
    PositionOutOfBounds { name: &'static str, value: String, index: usize },
    /// Textual pass-pipeline syntax is invalid; the payload carries the
    /// diagnostic text.
    ParsePassPipeline(String),
    /// A named result accessor missed.
    ResultNotFound(&'static str),
    /// Pipeline execution failed.
    RunPass,
    /// A diagnostic severity code was not recognized.
    UnknownDiagnosticSeverity(u32),
    /// A string was not valid UTF-8 at a boundary that requires text;
    /// the payload is the number of bytes that were valid.
    Utf8 { valid_up_to: usize },
}

/// The human-readable message of an error.
pub open spec fn error_message(e: Error) -> Seq<char> {
    match e {
        Error::AttributeExpected(kind, attribute) =>
            kind@ + " attribute expected: "@ + attribute@,
        Error::AttributeNotFound(name) =>
            "attribute "@ + name@ + " not found"@,
        Error::AttributeParse(string) =>
            "failed to parse attribute: "@ + string@,
        Error::BlockArgumentExpected(value) =>
            "block argument expected: "@ + value@,
        Error::ElementExpected { kind, value } =>
            "element of "@ + kind@ + " type expected: "@ + value@,
        Error::OperationBuild =>
            "operation build failed"@,
        Error::OperandNotFound(name) =>
            "operand "@ + name@ + " not found"@,
        Error::PositionOutOfBounds { name, value, index } =>
            name@ + " position "@ + dec_seq(index as nat) + " out of bounds: "@ + value@,
        Error::ParsePassPipeline(message) =>
            "failed to parse pass pipeline:\n"@ + message@,
        Error::ResultNotFound(name) =>
            "result "@ + name@ + " not found"@,
        Error::RunPass =>
            "failed to run pass"@,
        Error::UnknownDiagnosticSeverity(severity) =>
            "unknown diagnostic severity: "@ + dec_seq(severity as nat),
        Error::Utf8 { valid_up_to } =>
            "invalid utf-8 after "@ + dec_seq(valid_up_to as nat) + " bytes"@,
    }
}

impl Error {
    /// Renders the error as a human-readable message.
    pub fn message(&self) -> (r: String)
        ensures
            r@ == error_message(*self),
    {
        match self {
            Error::AttributeExpected(kind, attribute) => {
                let mut s = String::from_str(kind);
                s.append(" attribute expected: ");
                s.append(attribute.as_str());
                s
            },
            Error::AttributeNotFound(name) => {
                let mut s = String::from_str("attribute ");
                s.append(name.as_str());
                s.append(" not found");
                s
            },
            Error::AttributeParse(string) => {
                let mut s = String::from_str("failed to parse attribute: ");
                s.append(string.as_str());
                s
            },
            Error::BlockArgumentExpected(value) => {
                let mut s = String::from_str("block argument expected: ");
                s.append(value.as_str());
                s
            },
            Error::ElementExpected { kind, value } => {
                let mut s = String::from_str("element of ");
                s.append(kind);
                s.append(" type expected: ");
                s.append(value.as_str());
                s
            },
            Error::OperationBuild => String::from_str("operation build failed"),
            Error::OperandNotFound(name) => {
                let mut s = String::from_str("operand ");
                s.append(name);
                s.append(" not found");
                s
            },
            Error::PositionOutOfBounds { name, value, index } => {
                let mut s = String::from_str(name);
                s.append(" position ");
                s.append(dec_u64_string(*index as u64).as_str());
                s.append(" out of bounds: ");
                s.append(value.as_str());
                s
            },
            Error::ParsePassPipeline(message) => {
                let mut s = String::from_str("failed to parse pass pipeline:\n");
                s.append(message.as_str());
                s
            },
            Error::ResultNotFound(name) => {
                let mut s = String::from_str("result ");
                s.append(name);
                s.append(" not found");
                s
            },
            Error::RunPass => String::from_str("failed to run pass"),
            Error::UnknownDiagnosticSeverity(severity) => {
                let mut s = String::from_str("unknown diagnostic severity: ");
                s.append(dec_u64_string(*severity as u64).as_str());
                s
            },
            Error::Utf8 { valid_up_to } => {
                let mut s = String::from_str("invalid utf-8 after ");
                s.append(dec_u64_string(*valid_up_to as u64).as_str());
                s.append(" bytes");
                s
            },
        }
    }
}

} // verus!
