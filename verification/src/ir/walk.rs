//! The generic tree walk: pre- or post-order traversal under caller
//! control of pruning and termination.
//!
//! A walk borrows the tree read-only for its whole duration, so no
//! callback can restructure the tree under the traversal cursor;
//! mutation happens between walks, through the exclusive references
//! the blocks and operations hand out.

use vstd::prelude::*;
use crate::ir::block::Block;
use crate::ir::operation::Operation;
use crate::ir::region::Region;

verus! {

/// The order in which an operation tree is traversed.
#[derive(Clone, Copy, Debug, PartialEq, Eq, Structural)]
pub enum WalkOrder {
    /// Visit the operation before its nested regions.
    PreOrder,
    /// Visit the operation after its nested regions.
    PostOrder,
}

/// The control signal returned by the walk callback.
#[derive(Clone, Copy, Debug, PartialEq, Eq, Structural)]
pub enum WalkResult {
    /// Continue into this operation's nested regions, then to its
    /// siblings.
    Advance,
    /// Abort the entire walk immediately; no further callbacks run.
    Interrupt,
    /// Do not descend into this operation's nested regions, but keep
    /// walking siblings. Meaningful only in pre-order.
    Skip,
}

/// A walk callback: visits one operation at a time and steers the
/// traversal.
///
/// The decision may depend on the visited operation's name and on the
/// callback's initial state, but visiting must not change later
/// decisions; that is what makes the traversal order predictable.
pub trait WalkCallback: Sized {
    /// The control signal the callback returns for an operation name.
    spec fn decision(&self, name: Seq<char>) -> WalkResult;

    /// The names of the operations visited so far, in visit order.
    spec fn visited(&self) -> Seq<Seq<char>>;

    /// Visits one operation.
    fn visit(&mut self, operation: &Operation) -> (r: WalkResult)
        ensures
            r == old(self).decision(operation.name@),
            final(self).visited() == old(self).visited().push(operation.name@),
            forall|n: Seq<char>| #[trigger] final(self).decision(n) == old(self).decision(n),
    ;
}

/// Two callback states that steer identically.
pub open spec fn decisions_eq<V: WalkCallback>(a: V, b: V) -> bool {
    forall|n: Seq<char>| #[trigger] a.decision(n) == b.decision(n)
}

// ---------------------------------------------------------------------------
// The visit order, as a function of the tree and the steering
// ---------------------------------------------------------------------------

/// Pre-order walk of one operation: the names visited and whether the
/// walk was interrupted.
pub open spec fn walk_pre<V: WalkCallback>(v: V, op: Operation) -> (Seq<Seq<char>>, bool)
    decreases op, 0int,
{
    let d = v.decision(op.name@);
    if d is Interrupt {
        (seq![op.name@], true)
    } else if d is Skip {
        (seq![op.name@], false)
    } else {
        let (rest, stop) = walk_pre_regions(v, op.regions@);
        (seq![op.name@] + rest, stop)
    }
}

pub open spec fn walk_pre_regions<V: WalkCallback>(v: V, regions: Seq<Region>)
    -> (Seq<Seq<char>>, bool)
    decreases regions, 0int,
{
    if regions.len() == 0 {
        (Seq::empty(), false)
    } else {
        let (first, stop) = walk_pre_blocks(v, regions[0].blocks@);
        if stop {
            (first, true)
        } else {
            let (rest, stop2) = walk_pre_regions(v, regions.drop_first());
            (first + rest, stop2)
        }
    }
}

pub open spec fn walk_pre_blocks<V: WalkCallback>(v: V, blocks: Seq<Block>)
    -> (Seq<Seq<char>>, bool)
    decreases blocks, 0int,
{
    if blocks.len() == 0 {
        (Seq::empty(), false)
    } else {
        let (first, stop) = walk_pre_ops(v, blocks[0].operations@);
        if stop {
            (first, true)
        } else {
            let (rest, stop2) = walk_pre_blocks(v, blocks.drop_first());
            (first + rest, stop2)
        }
    }
}

pub open spec fn walk_pre_ops<V: WalkCallback>(v: V, ops: Seq<Operation>)
    -> (Seq<Seq<char>>, bool)
    decreases ops, 1int,
{
    if ops.len() == 0 {
        (Seq::empty(), false)
    } else {
        let (first, stop) = walk_pre(v, ops[0]);
        if stop {
            (first, true)
        } else {
            let (rest, stop2) = walk_pre_ops(v, ops.drop_first());
            (first + rest, stop2)
        }
    }
}

/// Post-order walk of one operation: nested contents first, then the
/// node itself. A `Skip` returned in post-order steers nothing, since
/// the descent has already finished when the callback runs.
pub open spec fn walk_post<V: WalkCallback>(v: V, op: Operation) -> (Seq<Seq<char>>, bool)
    decreases op, 0int,
{
    let (inner, stop) = walk_post_regions(v, op.regions@);
    if stop {
        (inner, true)
    } else {
        (inner + seq![op.name@], v.decision(op.name@) is Interrupt)
    }
}

pub open spec fn walk_post_regions<V: WalkCallback>(v: V, regions: Seq<Region>)
    -> (Seq<Seq<char>>, bool)
    decreases regions, 0int,
{
    if regions.len() == 0 {
        (Seq::empty(), false)
    } else {
        let (first, stop) = walk_post_blocks(v, regions[0].blocks@);
        if stop {
            (first, true)
        } else {
            let (rest, stop2) = walk_post_regions(v, regions.drop_first());
            (first + rest, stop2)
        }
    }
}

pub open spec fn walk_post_blocks<V: WalkCallback>(v: V, blocks: Seq<Block>)
    -> (Seq<Seq<char>>, bool)
    decreases blocks, 0int,
{
    if blocks.len() == 0 {
        (Seq::empty(), false)
    } else {
        let (first, stop) = walk_post_ops(v, blocks[0].operations@);
        if stop {
            (first, true)
        } else {
            let (rest, stop2) = walk_post_blocks(v, blocks.drop_first());
            (first + rest, stop2)
        }
    }
}

pub open spec fn walk_post_ops<V: WalkCallback>(v: V, ops: Seq<Operation>)
    -> (Seq<Seq<char>>, bool)
    decreases ops, 1int,
{
    if ops.len() == 0 {
        (Seq::empty(), false)
    } else {
        let (first, stop) = walk_post(v, ops[0]);
        if stop {
            (first, true)
        } else {
            let (rest, stop2) = walk_post_ops(v, ops.drop_first());
            (first + rest, stop2)
        }
    }
}

// ---------------------------------------------------------------------------
// The traversal engine
// ---------------------------------------------------------------------------

impl Operation {
    /// Walks this operation and all operations nested in it, in the
    /// given order. The callback is invoked once per visited
    /// operation; its signal steers the traversal. Returns whether the
    /// walk was interrupted.
    pub fn walk<V: WalkCallback>(&self, order: WalkOrder, callback: &mut V) -> (r: bool)
        ensures
            match order {
                WalkOrder::PreOrder => {
                    &&& final(callback).visited()
                        == old(callback).visited() + walk_pre(*old(callback), *self).0
                    &&& r == walk_pre(*old(callback), *self).1
                },
                WalkOrder::PostOrder => {
                    &&& final(callback).visited()
                        == old(callback).visited() + walk_post(*old(callback), *self).0
                    &&& r == walk_post(*old(callback), *self).1
                },
            },
            decisions_eq(*final(callback), *old(callback)),
    {
        match order {
            WalkOrder::PreOrder => walk_op_pre(callback, self, Ghost(*callback)),
            WalkOrder::PostOrder => walk_op_post(callback, self, Ghost(*callback)),
        }
    }
}

fn walk_op_pre<V: WalkCallback>(cb: &mut V, op: &Operation, Ghost(v0): Ghost<V>) -> (r: bool)
    requires
        decisions_eq(*old(cb), v0),
    ensures
        final(cb).visited() == old(cb).visited() + walk_pre(v0, *op).0,
        r == walk_pre(v0, *op).1,
        decisions_eq(*final(cb), v0),
    decreases *op, 0int,
{
    let d = cb.visit(op);
    match d {
        WalkResult::Interrupt => {
            assert(final(cb).visited() =~= old(cb).visited() + walk_pre(v0, *op).0);
            true
        },
        WalkResult::Skip => {
            assert(final(cb).visited() =~= old(cb).visited() + walk_pre(v0, *op).0);
            false
        },
        WalkResult::Advance => {
            proof {
                assert(decreases_to!(*op => op.regions));
            }
            let stop = walk_regions_pre(cb, &op.regions, 0, Ghost(v0));
            proof {
                assert(op.regions@.subrange(0, op.regions@.len() as int) =~= op.regions@);
                assert(final(cb).visited() =~= old(cb).visited() + walk_pre(v0, *op).0);
            }
            stop
        },
    }
}

fn walk_regions_pre<V: WalkCallback>(
    cb: &mut V,
    regions: &Vec<Region>,
    i: usize,
    Ghost(v0): Ghost<V>,
) -> (r: bool)
    requires
        i <= regions@.len(),
        decisions_eq(*old(cb), v0),
    ensures
        final(cb).visited() == old(cb).visited()
            + walk_pre_regions(v0, regions@.subrange(i as int, regions@.len() as int)).0,
        r == walk_pre_regions(v0, regions@.subrange(i as int, regions@.len() as int)).1,
        decisions_eq(*final(cb), v0),
    decreases regions, regions@.len() - i,
{
    let ghost tail = regions@.subrange(i as int, regions@.len() as int);
    if i == regions.len() {
        assert(tail =~= Seq::<Region>::empty());
        assert(final(cb).visited() =~= old(cb).visited());
        assert(final(cb).visited() =~= old(cb).visited() + walk_pre_regions(v0, tail).0);
        false
    } else {
        proof {
            broadcast use vstd::std_specs::vec::axiom_vec_index_decreases;
            assert(decreases_to!(regions => regions@[i as int]));
            assert(decreases_to!(regions@[i as int] => regions@[i as int].blocks));
            assert(tail[0] == regions@[i as int]);
            assert(tail.drop_first() =~= regions@.subrange(i + 1, regions@.len() as int));
        }
        let stop = walk_blocks_pre(cb, &regions[i].blocks, 0, Ghost(v0));
        proof {
            assert(regions@[i as int].blocks@.subrange(
                0, regions@[i as int].blocks@.len() as int)
                =~= regions@[i as int].blocks@);
        }
        if stop {
            assert(final(cb).visited() =~= old(cb).visited() + walk_pre_regions(v0, tail).0);
            true
        } else {
            let stop2 = walk_regions_pre(cb, regions, i + 1, Ghost(v0));
            assert(final(cb).visited() =~= old(cb).visited() + walk_pre_regions(v0, tail).0);
            stop2
        }
    }
}

fn walk_blocks_pre<V: WalkCallback>(
    cb: &mut V,
    blocks: &Vec<Block>,
    i: usize,
    Ghost(v0): Ghost<V>,
) -> (r: bool)
    requires
        i <= blocks@.len(),
        decisions_eq(*old(cb), v0),
    ensures
        final(cb).visited() == old(cb).visited()
            + walk_pre_blocks(v0, blocks@.subrange(i as int, blocks@.len() as int)).0,
        r == walk_pre_blocks(v0, blocks@.subrange(i as int, blocks@.len() as int)).1,
        decisions_eq(*final(cb), v0),
    decreases blocks, blocks@.len() - i,
{
    let ghost tail = blocks@.subrange(i as int, blocks@.len() as int);
    if i == blocks.len() {
        assert(tail =~= Seq::<Block>::empty());
        assert(final(cb).visited() =~= old(cb).visited() + walk_pre_blocks(v0, tail).0);
        false
    } else {
        proof {
            broadcast use vstd::std_specs::vec::axiom_vec_index_decreases;
            assert(decreases_to!(blocks => blocks@[i as int]));
            assert(decreases_to!(blocks@[i as int] => blocks@[i as int].operations));
            assert(tail[0] == blocks@[i as int]);
            assert(tail.drop_first() =~= blocks@.subrange(i + 1, blocks@.len() as int));
        }
        let stop = walk_ops_pre(cb, &blocks[i].operations, 0, Ghost(v0));
        proof {
            assert(blocks@[i as int].operations@.subrange(
                0, blocks@[i as int].operations@.len() as int)
                =~= blocks@[i as int].operations@);
        }
        if stop {
            assert(final(cb).visited() =~= old(cb).visited() + walk_pre_blocks(v0, tail).0);
            true
        } else {
            let stop2 = walk_blocks_pre(cb, blocks, i + 1, Ghost(v0));
            assert(final(cb).visited() =~= old(cb).visited() + walk_pre_blocks(v0, tail).0);
            stop2
        }
    }
}

fn walk_ops_pre<V: WalkCallback>(
    cb: &mut V,
    ops: &Vec<Operation>,
    i: usize,
    Ghost(v0): Ghost<V>,
) -> (r: bool)
    requires
        i <= ops@.len(),
        decisions_eq(*old(cb), v0),
    ensures
        final(cb).visited() == old(cb).visited()
            + walk_pre_ops(v0, ops@.subrange(i as int, ops@.len() as int)).0,
        r == walk_pre_ops(v0, ops@.subrange(i as int, ops@.len() as int)).1,
        decisions_eq(*final(cb), v0),
    decreases ops, ops@.len() - i,
{
    let ghost tail = ops@.subrange(i as int, ops@.len() as int);
    if i == ops.len() {
        assert(tail =~= Seq::<Operation>::empty());
        assert(final(cb).visited() =~= old(cb).visited() + walk_pre_ops(v0, tail).0);
        false
    } else {
        proof {
            broadcast use vstd::std_specs::vec::axiom_vec_index_decreases;
            assert(decreases_to!(ops => ops@[i as int]));
            assert(tail[0] == ops@[i as int]);
            assert(tail.drop_first() =~= ops@.subrange(i + 1, ops@.len() as int));
        }
        let stop = walk_op_pre(cb, &ops[i], Ghost(v0));
        if stop {
            assert(final(cb).visited() =~= old(cb).visited() + walk_pre_ops(v0, tail).0);
            true
        } else {
            let stop2 = walk_ops_pre(cb, ops, i + 1, Ghost(v0));
            assert(final(cb).visited() =~= old(cb).visited() + walk_pre_ops(v0, tail).0);
            stop2
        }
    }
}

fn walk_op_post<V: WalkCallback>(cb: &mut V, op: &Operation, Ghost(v0): Ghost<V>) -> (r: bool)
    requires
        decisions_eq(*old(cb), v0),
    ensures
        final(cb).visited() == old(cb).visited() + walk_post(v0, *op).0,
        r == walk_post(v0, *op).1,
        decisions_eq(*final(cb), v0),
    decreases *op, 0int,
{
    proof {
        assert(decreases_to!(*op => op.regions));
    }
    let stop = walk_regions_post(cb, &op.regions, 0, Ghost(v0));
    proof {
        assert(op.regions@.subrange(0, op.regions@.len() as int) =~= op.regions@);
    }
    if stop {
        assert(final(cb).visited() =~= old(cb).visited() + walk_post(v0, *op).0);
        true
    } else {
        let d = cb.visit(op);
        assert(final(cb).visited() =~= old(cb).visited() + walk_post(v0, *op).0);
        match d {
            WalkResult::Interrupt => true,
            _ => false,
        }
    }
}

fn walk_regions_post<V: WalkCallback>(
    cb: &mut V,
    regions: &Vec<Region>,
    i: usize,
    Ghost(v0): Ghost<V>,
) -> (r: bool)
    requires
        i <= regions@.len(),
        decisions_eq(*old(cb), v0),
    ensures
        final(cb).visited() == old(cb).visited()
            + walk_post_regions(v0, regions@.subrange(i as int, regions@.len() as int)).0,
        r == walk_post_regions(v0, regions@.subrange(i as int, regions@.len() as int)).1,
        decisions_eq(*final(cb), v0),
    decreases regions, regions@.len() - i,
{
    let ghost tail = regions@.subrange(i as int, regions@.len() as int);
    if i == regions.len() {
        assert(tail =~= Seq::<Region>::empty());
        assert(final(cb).visited() =~= old(cb).visited() + walk_post_regions(v0, tail).0);
        false
    } else {
        proof {
            broadcast use vstd::std_specs::vec::axiom_vec_index_decreases;
            assert(decreases_to!(regions => regions@[i as int]));
            assert(decreases_to!(regions@[i as int] => regions@[i as int].blocks));
            assert(tail[0] == regions@[i as int]);
            assert(tail.drop_first() =~= regions@.subrange(i + 1, regions@.len() as int));
        }
        let stop = walk_blocks_post(cb, &regions[i].blocks, 0, Ghost(v0));
        proof {
            assert(regions@[i as int].blocks@.subrange(
                0, regions@[i as int].blocks@.len() as int)
                =~= regions@[i as int].blocks@);
        }
        if stop {
            assert(final(cb).visited() =~= old(cb).visited()
                + walk_post_regions(v0, tail).0);
            true
        } else {
            let stop2 = walk_regions_post(cb, regions, i + 1, Ghost(v0));
            assert(final(cb).visited() =~= old(cb).visited()
                + walk_post_regions(v0, tail).0);
            stop2
        }
    }
}

fn walk_blocks_post<V: WalkCallback>(
    cb: &mut V,
    blocks: &Vec<Block>,
    i: usize,
    Ghost(v0): Ghost<V>,
) -> (r: bool)
    requires
        i <= blocks@.len(),
        decisions_eq(*old(cb), v0),
    ensures
        final(cb).visited() == old(cb).visited()
            + walk_post_blocks(v0, blocks@.subrange(i as int, blocks@.len() as int)).0,
        r == walk_post_blocks(v0, blocks@.subrange(i as int, blocks@.len() as int)).1,
        decisions_eq(*final(cb), v0),
    decreases blocks, blocks@.len() - i,
{
    let ghost tail = blocks@.subrange(i as int, blocks@.len() as int);
    if i == blocks.len() {
        assert(tail =~= Seq::<Block>::empty());
        assert(final(cb).visited() =~= old(cb).visited() + walk_post_blocks(v0, tail).0);
        false
    } else {
        proof {
            broadcast use vstd::std_specs::vec::axiom_vec_index_decreases;
            assert(decreases_to!(blocks => blocks@[i as int]));
            assert(decreases_to!(blocks@[i as int] => blocks@[i as int].operations));
            assert(tail[0] == blocks@[i as int]);
            assert(tail.drop_first() =~= blocks@.subrange(i + 1, blocks@.len() as int));
        }
        let stop = walk_ops_post(cb, &blocks[i].operations, 0, Ghost(v0));
        proof {
            assert(blocks@[i as int].operations@.subrange(
                0, blocks@[i as int].operations@.len() as int)
                =~= blocks@[i as int].operations@);
        }
        if stop {
            assert(final(cb).visited() =~= old(cb).visited() + walk_post_blocks(v0, tail).0);
            true
        } else {
            let stop2 = walk_blocks_post(cb, blocks, i + 1, Ghost(v0));
            assert(final(cb).visited() =~= old(cb).visited() + walk_post_blocks(v0, tail).0);
            stop2
        }
    }
}

fn walk_ops_post<V: WalkCallback>(
    cb: &mut V,
    ops: &Vec<Operation>,
    i: usize,
    Ghost(v0): Ghost<V>,
) -> (r: bool)
    requires
        i <= ops@.len(),
        decisions_eq(*old(cb), v0),
    ensures
        final(cb).visited() == old(cb).visited()
            + walk_post_ops(v0, ops@.subrange(i as int, ops@.len() as int)).0,
        r == walk_post_ops(v0, ops@.subrange(i as int, ops@.len() as int)).1,
        decisions_eq(*final(cb), v0),
    decreases ops, ops@.len() - i,
{
    let ghost tail = ops@.subrange(i as int, ops@.len() as int);
    if i == ops.len() {
        assert(tail =~= Seq::<Operation>::empty());
        assert(final(cb).visited() =~= old(cb).visited() + walk_post_ops(v0, tail).0);
        false
    } else {
        proof {
            broadcast use vstd::std_specs::vec::axiom_vec_index_decreases;
            assert(decreases_to!(ops => ops@[i as int]));
            assert(tail[0] == ops@[i as int]);
            assert(tail.drop_first() =~= ops@.subrange(i + 1, ops@.len() as int));
        }
        let stop = walk_op_post(cb, &ops[i], Ghost(v0));
        if stop {
            assert(final(cb).visited() =~= old(cb).visited() + walk_post_ops(v0, tail).0);
            true
        } else {
            let stop2 = walk_ops_post(cb, ops, i + 1, Ghost(v0));
            assert(final(cb).visited() =~= old(cb).visited() + walk_post_ops(v0, tail).0);
            stop2
        }
    }
}

// ---------------------------------------------------------------------------
// Ready-made callbacks
// ---------------------------------------------------------------------------

/// A callback that always advances and records every visited name.
pub struct NameCollector {
    /// The recorded names, in visit order.
    pub names: Vec<String>,
}

impl NameCollector {
    /// Creates a collector with nothing recorded.
    pub fn new() -> (r: NameCollector)
        ensures
            r.names@.len() == 0,
            r.visited().len() == 0,
    {
        let r = NameCollector { names: Vec::new() };
        assert(r.visited() =~= Seq::<Seq<char>>::empty());
        r
    }
}

impl WalkCallback for NameCollector {
    open spec fn decision(&self, name: Seq<char>) -> WalkResult {
        WalkResult::Advance
    }

    open spec fn visited(&self) -> Seq<Seq<char>> {
        self.names@.map_values(|s: String| s@)
    }

    fn visit(&mut self, operation: &Operation) -> (r: WalkResult)
        ensures
            r == old(self).decision(operation.name@),
            final(self).visited() == old(self).visited().push(operation.name@),
            forall|n: Seq<char>| #[trigger] final(self).decision(n) == old(self).decision(n),
    {
        self.names.push(operation.name.clone());
        assert(final(self).visited() =~= old(self).visited().push(operation.name@));
        WalkResult::Advance
    }
}

/// A callback that records names and interrupts right after visiting
/// an operation with the given name.
pub struct InterruptAfter {
    /// The name to interrupt at.
    pub target: String,
    /// The recorded names, in visit order.
    pub names: Vec<String>,
}

impl InterruptAfter {
    /// Creates a callback that interrupts after the given name.
    pub fn new(target: String) -> (r: InterruptAfter)
        ensures
            r.target@ == target@,
            r.visited().len() == 0,
    {
        let r = InterruptAfter { target, names: Vec::new() };
        assert(r.visited() =~= Seq::<Seq<char>>::empty());
        r
    }
}

impl WalkCallback for InterruptAfter {
    open spec fn decision(&self, name: Seq<char>) -> WalkResult {
        if name == self.target@ {
            WalkResult::Interrupt
        } else {
            WalkResult::Advance
        }
    }

    open spec fn visited(&self) -> Seq<Seq<char>> {
        self.names@.map_values(|s: String| s@)
    }

    fn visit(&mut self, operation: &Operation) -> (r: WalkResult)
        ensures
            r == old(self).decision(operation.name@),
            final(self).visited() == old(self).visited().push(operation.name@),
            forall|n: Seq<char>| #[trigger] final(self).decision(n) == old(self).decision(n),
    {
        self.names.push(operation.name.clone());
        assert(final(self).visited() =~= old(self).visited().push(operation.name@));
        if crate::text::str_eq(operation.name.as_str(), self.target.as_str()) {
            WalkResult::Interrupt
        } else {
            WalkResult::Advance
        }
    }
}

/// A callback that records names and never descends.
pub struct SkipAll {
    /// The recorded names, in visit order.
    pub names: Vec<String>,
}

impl SkipAll {
    /// Creates a callback that never descends.
    pub fn new() -> (r: SkipAll)
        ensures
            r.visited().len() == 0,
    {
        let r = SkipAll { names: Vec::new() };
        assert(r.visited() =~= Seq::<Seq<char>>::empty());
        r
    }
}

impl WalkCallback for SkipAll {
    open spec fn decision(&self, name: Seq<char>) -> WalkResult {
        WalkResult::Skip
    }

    open spec fn visited(&self) -> Seq<Seq<char>> {
        self.names@.map_values(|s: String| s@)
    }

    fn visit(&mut self, operation: &Operation) -> (r: WalkResult)
        ensures
            r == old(self).decision(operation.name@),
            final(self).visited() == old(self).visited().push(operation.name@),
            forall|n: Seq<char>| #[trigger] final(self).decision(n) == old(self).decision(n),
    {
        self.names.push(operation.name.clone());
        assert(final(self).visited() =~= old(self).visited().push(operation.name@));
        WalkResult::Skip
    }
}

} // verus!

verus! {

// ---------------------------------------------------------------------------
// Every node is visited exactly once
// ---------------------------------------------------------------------------

/// A callback that always advances.
pub open spec fn always_advances<V: WalkCallback>(v: V) -> bool {
    forall|n: Seq<char>| #[trigger] v.decision(n) == WalkResult::Advance
}

/// Under a callback that always advances, a pre-order walk is never
/// interrupted and visits exactly one name per operation node of the
/// tree: every node is visited exactly once.
pub proof fn lemma_walk_pre_visits_every_node(v: impl WalkCallback, op: Operation)
    requires
        always_advances(v),
    ensures
        walk_pre(v, op).0.len() == crate::ir::operation::op_node_count(op),
        !walk_pre(v, op).1,
    decreases op, 0int,
{
    lemma_walk_pre_regions_nodes(v, op.regions@);
}

proof fn lemma_walk_pre_regions_nodes(v: impl WalkCallback, regions: Seq<Region>)
    requires
        always_advances(v),
    ensures
        walk_pre_regions(v, regions).0.len()
            == crate::ir::operation::regions_node_count(regions),
        !walk_pre_regions(v, regions).1,
    decreases regions, 0int,
{
    if regions.len() > 0 {
        lemma_walk_pre_blocks_nodes(v, regions[0].blocks@);
        lemma_walk_pre_regions_nodes(v, regions.drop_first());
        assert(crate::ir::region::region_node_count(regions[0])
            == crate::ir::region::blocks_node_count(regions[0].blocks@));
        assert(walk_pre_regions(v, regions).0
            == walk_pre_blocks(v, regions[0].blocks@).0
                + walk_pre_regions(v, regions.drop_first()).0);
    }
}

proof fn lemma_walk_pre_blocks_nodes(v: impl WalkCallback, blocks: Seq<Block>)
    requires
        always_advances(v),
    ensures
        walk_pre_blocks(v, blocks).0.len()
            == crate::ir::region::blocks_node_count(blocks),
        !walk_pre_blocks(v, blocks).1,
    decreases blocks, 0int,
{
    if blocks.len() > 0 {
        lemma_walk_pre_ops_nodes(v, blocks[0].operations@);
        lemma_walk_pre_blocks_nodes(v, blocks.drop_first());
        assert(crate::ir::block::block_node_count(blocks[0])
            == crate::ir::block::ops_node_count(blocks[0].operations@));
        assert(walk_pre_blocks(v, blocks).0
            == walk_pre_ops(v, blocks[0].operations@).0
                + walk_pre_blocks(v, blocks.drop_first()).0);
    }
}

proof fn lemma_walk_pre_ops_nodes(v: impl WalkCallback, ops: Seq<Operation>)
    requires
        always_advances(v),
    ensures
        walk_pre_ops(v, ops).0.len() == crate::ir::block::ops_node_count(ops),
        !walk_pre_ops(v, ops).1,
    decreases ops, 1int,
{
    if ops.len() > 0 {
        lemma_walk_pre_visits_every_node(v, ops[0]);
        lemma_walk_pre_ops_nodes(v, ops.drop_first());
    }
}

/// The same law for a post-order walk: every node is visited exactly
/// once.
pub proof fn lemma_walk_post_visits_every_node(v: impl WalkCallback, op: Operation)
    requires
        always_advances(v),
    ensures
        walk_post(v, op).0.len() == crate::ir::operation::op_node_count(op),
        !walk_post(v, op).1,
    decreases op, 0int,
{
    lemma_walk_post_regions_nodes(v, op.regions@);
}

proof fn lemma_walk_post_regions_nodes(v: impl WalkCallback, regions: Seq<Region>)
    requires
        always_advances(v),
    ensures
        walk_post_regions(v, regions).0.len()
            == crate::ir::operation::regions_node_count(regions),
        !walk_post_regions(v, regions).1,
    decreases regions, 0int,
{
    if regions.len() > 0 {
        lemma_walk_post_blocks_nodes(v, regions[0].blocks@);
        lemma_walk_post_regions_nodes(v, regions.drop_first());
        assert(crate::ir::region::region_node_count(regions[0])
            == crate::ir::region::blocks_node_count(regions[0].blocks@));
        assert(walk_post_regions(v, regions).0
            == walk_post_blocks(v, regions[0].blocks@).0
                + walk_post_regions(v, regions.drop_first()).0);
    }
}

proof fn lemma_walk_post_blocks_nodes(v: impl WalkCallback, blocks: Seq<Block>)
    requires
        always_advances(v),
    ensures
        walk_post_blocks(v, blocks).0.len()
            == crate::ir::region::blocks_node_count(blocks),
        !walk_post_blocks(v, blocks).1,
    decreases blocks, 0int,
{
    if blocks.len() > 0 {
        lemma_walk_post_ops_nodes(v, blocks[0].operations@);
        lemma_walk_post_blocks_nodes(v, blocks.drop_first());
        assert(crate::ir::block::block_node_count(blocks[0])
            == crate::ir::block::ops_node_count(blocks[0].operations@));
        assert(walk_post_blocks(v, blocks).0
            == walk_post_ops(v, blocks[0].operations@).0
                + walk_post_blocks(v, blocks.drop_first()).0);
    }
}

proof fn lemma_walk_post_ops_nodes(v: impl WalkCallback, ops: Seq<Operation>)
    requires
        always_advances(v),
    ensures
        walk_post_ops(v, ops).0.len() == crate::ir::block::ops_node_count(ops),
        !walk_post_ops(v, ops).1,
    decreases ops, 1int,
{
    if ops.len() > 0 {
        lemma_walk_post_visits_every_node(v, ops[0]);
        lemma_walk_post_ops_nodes(v, ops.drop_first());
    }
}

} // verus!
