//! Modules: the root operation of an IR tree.

use vstd::prelude::*;
use crate::context::{can_allocate, context_wf, Context};
use crate::ir::block::Block;
use crate::ir::location::Location;
use crate::ir::operation::{op_node_count, op_wf, Operation};
use crate::ir::region::Region;

verus! {

/// A module: an operation named `builtin.module` holding one region
/// with one block, the module body.
pub struct Module {
    /// The underlying operation.
    pub operation: Operation,
}

/// A module is well formed when its operation holds exactly one
/// region with exactly one block.
pub open spec fn module_wf(m: Module) -> bool {
    &&& op_wf(m.operation)
    &&& m.operation.name@ == "builtin.module"@
    &&& m.operation.regions@.len() == 1
    &&& m.operation.regions@[0].blocks@.len() == 1
}

impl Module {
    /// Creates an empty module at a location; one operation node and
    /// one block identity are allocated.
    pub fn new(context: &mut Context, location: Location) -> (r: Module)
        requires
            context_wf(*old(context)),
            can_allocate(*old(context), 2),
        ensures
            context_wf(*final(context)),
            module_wf(r),
            r.operation.location == location,
            r.operation.regions@[0].blocks@[0].operations@.len() == 0,
            op_node_count(r.operation) == 1,
            final(context).allocated_operations == old(context).allocated_operations + 1,
            final(context).next_id == old(context).next_id + 2,
            final(context).dialects == old(context).dialects,
            final(context).allow_unregistered == old(context).allow_unregistered,
            final(context).strings == old(context).strings,
    {
        let body = Block::new(context, Vec::new());
        let mut region = Region::new();
        region.append_block(body);
        let mut regions: Vec<Region> = Vec::new();
        regions.push(region);
        let id = context.next_id;
        context.next_id = context.next_id + 1;
        context.allocated_operations = context.allocated_operations + 1;
        let operation = Operation {
            id,
            name: String::from_str("builtin.module"),
            attributes: Vec::new(),
            operands: Vec::new(),
            results: Vec::new(),
            regions,
            successors: Vec::new(),
            location,
        };
        proof {
            assert(operation.regions@.len() == 1);
            assert(crate::ir::operation::regions_node_count(operation.regions@)
                == 0) by {
                reveal_with_fuel(crate::ir::operation::regions_node_count, 3);
                assert(operation.regions@.drop_first() =~= Seq::<Region>::empty());
            }
            assert(crate::ir::operation::regions_wf_all(operation.regions@)) by {
                reveal_with_fuel(crate::ir::operation::regions_wf_all, 3);
                assert(operation.regions@.drop_first() =~= Seq::<Region>::empty());
            }
        }
        Module { operation }
    }

    /// The module as an operation.
    pub fn as_operation(&self) -> (r: &Operation)
        ensures
            r == &self.operation,
    {
        &self.operation
    }

    /// The module body: its single block, read-only.
    pub fn body(&self) -> (r: &Block)
        requires
            module_wf(*self),
        ensures
            *r == self.operation.regions@[0].blocks@[0],
    {
        &self.operation.regions[0].blocks[0]
    }

    /// The module body, for insertion and removal of operations.
    pub fn body_mut(&mut self) -> (r: &mut Block)
        requires
            module_wf(*old(self)),
        ensures
            *r == old(self).operation.regions@[0].blocks@[0],
            final(self).operation == (Operation {
                regions: final(self).operation.regions,
                ..old(self).operation
            }),
            final(self).operation.regions@.len() == 1,
            final(self).operation.regions@[0].blocks@.len() == 1,
            final(self).operation.regions@[0].blocks@[0] == *final(r),
    {
        &mut self.operation.regions[0].blocks[0]
    }
}

} // verus!
