//! Dialects: named namespaces of operation, attribute and type kinds.

pub mod llvm;
