//! Values: block arguments and operation results.

use vstd::prelude::*;
use crate::error::Error;
use crate::ir::ty::Type;
use crate::text::{chars_to_string, dec_seq, push_str_chars, write_dec_u64};

verus! {

/// An SSA value: either a formal argument of a block or a result of an
/// operation.
///
/// A value is a view into the block or operation that produces it,
/// identified by that producer's identity and a position; it is never
/// owned independently.
#[derive(Clone, Copy, Debug, PartialEq, Eq, Structural)]
pub enum Value {
    /// The formal argument at `index` of the block with identity
    /// `block`.
    BlockArgument { block: u64, index: usize, ty: Type },
    /// The result at `index` of the operation with identity
    /// `operation`.
    OperationResult { operation: u64, index: usize, ty: Type },
}

/// The type of a value.
pub open spec fn value_ty(v: Value) -> Type {
    match v {
        Value::BlockArgument { ty, .. } => ty,
        Value::OperationResult { ty, .. } => ty,
    }
}

/// The diagnostic text of a value.
pub open spec fn value_text(v: Value) -> Seq<char> {
    match v {
        Value::BlockArgument { block, index, ty: _ } =>
            "argument "@ + dec_seq(index as nat) + " of block "@ + dec_seq(block as nat),
        Value::OperationResult { operation, index, ty: _ } =>
            "result "@ + dec_seq(index as nat) + " of operation "@ + dec_seq(operation as nat),
    }
}

impl Value {
    /// The type of the value.
    pub fn ty(&self) -> (r: Type)
        ensures
            r == value_ty(*self),
    {
        match self {
            Value::BlockArgument { ty, .. } => *ty,
            Value::OperationResult { ty, .. } => *ty,
        }
    }

    /// True when the value is a block argument.
    pub fn is_block_argument(&self) -> (r: bool)
        ensures
            r == (self is BlockArgument),
    {
        match self {
            Value::BlockArgument { .. } => true,
            Value::OperationResult { .. } => false,
        }
    }

    /// True when the value is an operation result.
    pub fn is_operation_result(&self) -> (r: bool)
        ensures
            r == (self is OperationResult),
    {
        !self.is_block_argument()
    }

    /// Renders the diagnostic text of the value.
    pub fn to_text(&self) -> (r: String)
        ensures
            r@ == value_text(*self),
    {
        let mut buf: Vec<char> = Vec::new();
        match self {
            Value::BlockArgument { block, index, ty: _ } => {
                push_str_chars(&mut buf, "argument ");
                write_dec_u64(&mut buf, *index as u64);
                push_str_chars(&mut buf, " of block ");
                write_dec_u64(&mut buf, *block);
            },
            Value::OperationResult { operation, index, ty: _ } => {
                push_str_chars(&mut buf, "result ");
                write_dec_u64(&mut buf, *index as u64);
                push_str_chars(&mut buf, " of operation ");
                write_dec_u64(&mut buf, *operation);
            },
        }
        assert(buf@ =~= value_text(*self));
        chars_to_string(&buf)
    }
}

/// A block argument: a value known to come from a block.
#[derive(Clone, Copy, Debug, PartialEq, Eq, Structural)]
pub struct Argument {
    /// The underlying value; always a block argument.
    pub value: Value,
}

impl Argument {
    /// Coerces a value into a block argument, or reports that an
    /// operation result was given instead.
    pub fn try_from(value: Value) -> (r: Result<Argument, Error>)
        ensures
            match r {
                Ok(a) => value is BlockArgument && a.value == value,
                Err(e) => {
                    &&& value is OperationResult
                    &&& e matches Error::BlockArgumentExpected(s) && s@ == value_text(value)
                },
            },
    {
        if value.is_block_argument() {
            Ok(Argument { value })
        } else {
            Err(Error::BlockArgumentExpected(value.to_text()))
        }
    }

    /// The position of the argument among its block's arguments.
    pub fn argument_number(&self) -> (r: usize)
        requires
            self.value is BlockArgument,
        ensures
            r == self.value->BlockArgument_index,
    {
        match &self.value {
            Value::BlockArgument { index, .. } => *index,
            Value::OperationResult { .. } => 0,
        }
    }

    /// The identity of the owning block.
    pub fn owner_id(&self) -> (r: u64)
        requires
            self.value is BlockArgument,
        ensures
            r == self.value->BlockArgument_block,
    {
        match &self.value {
            Value::BlockArgument { block, .. } => *block,
            Value::OperationResult { .. } => 0,
        }
    }

    /// The type of the argument.
    pub fn ty(&self) -> (r: Type)
        ensures
            r == value_ty(self.value),
    {
        self.value.ty()
    }
}

} // verus!
