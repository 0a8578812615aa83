//! A safe, verified model of an MLIR-style intermediate-representation
//! builder: contexts, operations, regions, blocks, values, attributes,
//! types, an operation builder, a tree walk, and a pass manager.

pub mod context;
pub mod diagnostic;
pub mod dialect;
pub mod error;
pub mod ir;
pub mod logical_result;
pub mod ods;
pub mod pass;
pub mod text;
