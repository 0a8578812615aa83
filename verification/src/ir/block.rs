//! Blocks: ordered sequences of operations with formal arguments.

use vstd::prelude::*;
use crate::context::{can_allocate, context_wf, Context};
use crate::error::Error;
use crate::ir::location::Location;
use crate::ir::operation::{op_node_count, op_wf, Operation};
use crate::ir::ty::Type;
use crate::ir::value::{Argument, Value};
use crate::text::{chars_to_string, dec_seq, push_str_chars, write_dec_u64};

verus! {

/// A block: an ordered list of operations plus formal arguments, owned
/// exclusively by its region.
#[derive(Debug)]
pub struct Block {
    /// The block's identity within its context.
    pub id: u64,
    /// The formal arguments: a type and a source location each.
    pub arguments: Vec<(Type, Location)>,
    /// The operations, in order.
    pub operations: Vec<Operation>,
}

/// The number of operation nodes inside a block.
pub open spec fn block_node_count(b: Block) -> nat
    decreases b,
{
    ops_node_count(b.operations@)
}

pub open spec fn ops_node_count(ops: Seq<Operation>) -> nat
    decreases ops,
{
    if ops.len() == 0 {
        0
    } else {
        op_node_count(ops[0]) + ops_node_count(ops.drop_first())
    }
}

/// Well-formedness of a block: all its operations are well formed.
pub open spec fn block_wf(b: Block) -> bool
    decreases b,
{
    ops_wf(b.operations@)
}

pub open spec fn ops_wf(ops: Seq<Operation>) -> bool
    decreases ops,
{
    if ops.len() == 0 {
        true
    } else {
        op_wf(ops[0]) && ops_wf(ops.drop_first())
    }
}

/// The diagnostic text of a block.
pub open spec fn block_text(b: Block) -> Seq<char> {
    "block "@ + dec_seq(b.id as nat)
}

pub proof fn lemma_ops_node_count_push(ops: Seq<Operation>, op: Operation)
    ensures
        ops_node_count(ops.push(op)) == ops_node_count(ops) + op_node_count(op),
        ops_wf(ops.push(op)) <==> ops_wf(ops) && op_wf(op),
    decreases ops,
{
    reveal_with_fuel(ops_node_count, 2);
    reveal_with_fuel(ops_wf, 2);
    if ops.len() == 0 {
        assert(ops.push(op).drop_first() =~= Seq::<Operation>::empty());
        assert(ops.push(op)[0] == op);
    } else {
        lemma_ops_node_count_push(ops.drop_first(), op);
        assert(ops.push(op).drop_first() =~= ops.drop_first().push(op));
        assert(ops.push(op)[0] == ops[0]);
    }
}

pub proof fn lemma_ops_node_count_insert(ops: Seq<Operation>, k: int, op: Operation)
    requires
        0 <= k <= ops.len(),
    ensures
        ops_node_count(ops.insert(k, op)) == ops_node_count(ops) + op_node_count(op),
        ops_wf(ops.insert(k, op)) <==> ops_wf(ops) && op_wf(op),
    decreases ops.len(),
{
    reveal_with_fuel(ops_node_count, 2);
    reveal_with_fuel(ops_wf, 2);
    if k == 0 {
        assert(ops.insert(0, op).drop_first() =~= ops);
        assert(ops.insert(0, op)[0] == op);
    } else {
        lemma_ops_node_count_insert(ops.drop_first(), k - 1, op);
        assert(ops.insert(k, op).drop_first() =~= ops.drop_first().insert(k - 1, op));
        assert(ops.insert(k, op)[0] == ops[0]);
    }
}

pub proof fn lemma_ops_node_count_remove(ops: Seq<Operation>, k: int)
    requires
        0 <= k < ops.len(),
    ensures
        ops_node_count(ops.remove(k)) + op_node_count(ops[k]) == ops_node_count(ops),
        ops_wf(ops) ==> ops_wf(ops.remove(k)) && op_wf(ops[k]),
    decreases ops.len(),
{
    reveal_with_fuel(ops_node_count, 2);
    reveal_with_fuel(ops_wf, 2);
    if k == 0 {
        assert(ops.remove(0) =~= ops.drop_first());
    } else {
        lemma_ops_node_count_remove(ops.drop_first(), k - 1);
        assert(ops.remove(k).drop_first() =~= ops.drop_first().remove(k - 1));
        assert(ops.remove(k)[0] == ops[0]);
        assert(ops.drop_first()[k - 1] == ops[k]);
    }
}

/// The ownership law behind block destruction: a block holding
/// region-free operations accounts for exactly one node per
/// operation, so destroying it releases exactly as many operations as
/// were inserted.
pub proof fn lemma_block_count_of_plain_ops(ops: Seq<Operation>)
    requires
        forall|k: int| 0 <= k < ops.len() ==> op_node_count(#[trigger] ops[k]) == 1,
    ensures
        ops_node_count(ops) == ops.len(),
    decreases ops,
{
    reveal_with_fuel(ops_node_count, 2);
    if ops.len() > 0 {
        assert(forall|k: int| 0 <= k < ops.len() - 1
            ==> #[trigger] ops.drop_first()[k] == ops[k + 1]);
        lemma_block_count_of_plain_ops(ops.drop_first());
    }
}

impl Block {
    /// Creates a block with the given argument signature, drawing a
    /// fresh identity from the context.
    pub fn new(context: &mut Context, arguments: Vec<(Type, Location)>) -> (r: Block)
        requires
            context_wf(*old(context)),
            can_allocate(*old(context), 1),
        ensures
            context_wf(*final(context)),
            r.id == old(context).next_id,
            final(context).next_id == old(context).next_id + 1,
            final(context).allocated_operations == old(context).allocated_operations,
            final(context).dialects == old(context).dialects,
            final(context).allow_unregistered == old(context).allow_unregistered,
            final(context).strings == old(context).strings,
            r.arguments == arguments,
            r.operations@.len() == 0,
            block_wf(r),
            block_node_count(r) == 0,
    {
        let id = context.next_id;
        context.next_id = context.next_id + 1;
        Block { id, arguments, operations: Vec::new() }
    }

    /// The number of formal arguments.
    pub fn argument_count(&self) -> (r: usize)
        ensures
            r == self.arguments@.len(),
    {
        self.arguments.len()
    }

    /// The argument at a position, or a position-out-of-bounds error.
    pub fn argument(&self, index: usize) -> (r: Result<Argument, Error>)
        ensures
            match r {
                Ok(a) => {
                    &&& index < self.arguments@.len()
                    &&& a.value == (Value::BlockArgument {
                        block: self.id,
                        index,
                        ty: self.arguments@[index as int].0,
                    })
                },
                Err(e) => {
                    &&& index >= self.arguments@.len()
                    &&& e matches Error::PositionOutOfBounds { name, value, index: k }
                        && name@ == "block argument"@ && value@ == block_text(*self)
                        && k == index
                },
            },
    {
        if index < self.arguments.len() {
            Ok(Argument {
                value: Value::BlockArgument {
                    block: self.id,
                    index,
                    ty: self.arguments[index].0,
                },
            })
        } else {
            Err(Error::PositionOutOfBounds {
                name: "block argument",
                value: self.to_text(),
                index,
            })
        }
    }

    /// Adds one formal argument and returns its value.
    pub fn add_argument(&mut self, ty: Type, location: Location) -> (r: Argument)
        ensures
            final(self).arguments@ == old(self).arguments@.push((ty, location)),
            final(self).id == old(self).id,
            final(self).operations == old(self).operations,
            r.value == (Value::BlockArgument {
                block: old(self).id,
                index: old(self).arguments@.len() as usize,
                ty,
            }),
    {
        let index = self.arguments.len();
        self.arguments.push((ty, location));
        Argument {
            value: Value::BlockArgument { block: self.id, index, ty },
        }
    }

    /// The number of operations currently in the block.
    pub fn operation_count(&self) -> (r: usize)
        ensures
            r == self.operations@.len(),
    {
        self.operations.len()
    }

    /// Appends an operation, taking ownership of it; returns its
    /// position.
    pub fn append_operation(&mut self, operation: Operation) -> (r: usize)
        ensures
            final(self).operations@ == old(self).operations@.push(operation),
            final(self).id == old(self).id,
            final(self).arguments == old(self).arguments,
            r == old(self).operations@.len(),
            block_node_count(*final(self))
                == block_node_count(*old(self)) + op_node_count(operation),
            block_wf(*final(self)) <==> block_wf(*old(self)) && op_wf(operation),
    {
        let r = self.operations.len();
        proof {
            lemma_ops_node_count_push(self.operations@, operation);
        }
        self.operations.push(operation);
        r
    }

    /// Inserts an operation at a position, taking ownership of it.
    pub fn insert_operation(&mut self, index: usize, operation: Operation)
        requires
            index <= old(self).operations@.len(),
        ensures
            final(self).operations@ == old(self).operations@.insert(index as int, operation),
            final(self).id == old(self).id,
            final(self).arguments == old(self).arguments,
            block_node_count(*final(self))
                == block_node_count(*old(self)) + op_node_count(operation),
            block_wf(*final(self)) <==> block_wf(*old(self)) && op_wf(operation),
    {
        proof {
            lemma_ops_node_count_insert(self.operations@, index as int, operation);
        }
        self.operations.insert(index, operation);
    }

    /// The first operation, if any.
    pub fn first_operation(&self) -> (r: Option<&Operation>)
        ensures
            match r {
                Some(op) => self.operations@.len() > 0 && *op == self.operations@[0],
                None => self.operations@.len() == 0,
            },
    {
        if self.operations.len() > 0 {
            Some(&self.operations[0])
        } else {
            None
        }
    }

    /// The operation at a position, or a position-out-of-bounds error.
    pub fn operation(&self, index: usize) -> (r: Result<&Operation, Error>)
        ensures
            match r {
                Ok(op) => index < self.operations@.len()
                    && *op == self.operations@[index as int],
                Err(e) => {
                    &&& index >= self.operations@.len()
                    &&& e matches Error::PositionOutOfBounds { name, value, index: k }
                        && name@ == "operation"@ && value@ == block_text(*self) && k == index
                },
            },
    {
        if index < self.operations.len() {
            Ok(&self.operations[index])
        } else {
            Err(Error::PositionOutOfBounds {
                name: "operation",
                value: self.to_text(),
                index,
            })
        }
    }

    /// The operation after the one at `index`, in block order.
    pub fn next_in_block(&self, index: usize) -> (r: Option<&Operation>)
        ensures
            match r {
                Some(op) => index + 1 < self.operations@.len()
                    && *op == self.operations@[index + 1],
                None => index + 1 >= self.operations@.len(),
            },
    {
        if index < self.operations.len() && self.operations.len() - index >= 2 {
            Some(&self.operations[index + 1])
        } else {
            None
        }
    }

    /// Detaches and returns the operation at a position without
    /// destroying it; the following operations move up by one.
    pub fn remove_operation(&mut self, index: usize) -> (r: Result<Operation, Error>)
        ensures
            match r {
                Ok(op) => {
                    &&& index < old(self).operations@.len()
                    &&& op == old(self).operations@[index as int]
                    &&& final(self).operations@ == old(self).operations@.remove(index as int)
                    &&& final(self).id == old(self).id
                    &&& final(self).arguments == old(self).arguments
                    &&& block_node_count(*final(self)) + op_node_count(op)
                        == block_node_count(*old(self))
                    &&& block_wf(*old(self)) ==> block_wf(*final(self)) && op_wf(op)
                },
                Err(e) => {
                    &&& index >= old(self).operations@.len()
                    &&& *final(self) == *old(self)
                    &&& e matches Error::PositionOutOfBounds { name, value, index: k }
                        && name@ == "operation"@ && value@ == block_text(*old(self))
                        && k == index
                },
            },
    {
        if index < self.operations.len() {
            proof {
                lemma_ops_node_count_remove(self.operations@, index as int);
            }
            Ok(self.operations.remove(index))
        } else {
            Err(Error::PositionOutOfBounds {
                name: "operation",
                value: self.to_text(),
                index,
            })
        }
    }

    /// Renders the diagnostic text of the block.
    pub fn to_text(&self) -> (r: String)
        ensures
            r@ == block_text(*self),
    {
        let mut buf: Vec<char> = Vec::new();
        push_str_chars(&mut buf, "block ");
        write_dec_u64(&mut buf, self.id);
        assert(buf@ =~= block_text(*self));
        chars_to_string(&buf)
    }
}

} // verus!
