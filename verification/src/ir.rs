//! IR objects: types, attributes, values, operations, regions, blocks.

pub mod attribute;
pub mod builder;
pub mod identifier;
pub mod block;
pub mod operation;
pub mod region;
pub mod syntax;
pub mod location;
pub mod module;
pub mod walk;
pub mod ty;
pub mod value;
