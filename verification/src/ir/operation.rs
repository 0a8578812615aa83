//! Operations: the nodes of the IR tree.

use vstd::prelude::*;
use crate::context::{Context, context_wf};
use crate::error::Error;
use crate::ir::attribute::{attr_text, Attribute};
use crate::ir::location::Location;
use crate::ir::region::{region_node_count, region_wf, Region};
use crate::ir::ty::{type_text, Type};
use crate::ir::value::{value_ty, Value};
use crate::text::{chars_to_string, dec_seq, push_str_chars, write_dec_u64};

verus! {

/// One IR node: a named instruction with operands, results,
/// attributes, successors and nested regions.
///
/// An operation is owned by its creator until it is inserted into a
/// block; afterwards the block owns it. Every accessor that takes an
/// index reports a position-out-of-bounds error instead of panicking.
#[derive(Debug)]
pub struct Operation {
    /// The operation's identity within its context.
    pub id: u64,
    /// The full operation name, `namespace.mnemonic`.
    pub name: String,
    /// The named attributes; names are unique.
    pub attributes: Vec<(String, Attribute)>,
    /// The operand values, in order.
    pub operands: Vec<Value>,
    /// The result types, in order.
    pub results: Vec<Type>,
    /// The nested regions, in order; owned by this operation.
    pub regions: Vec<Region>,
    /// The successor blocks, by identity.
    pub successors: Vec<u64>,
    /// The source location.
    pub location: Location,
}

/// The number of operation nodes in the tree rooted at an operation,
/// the root included.
pub open spec fn op_node_count(op: Operation) -> nat
    decreases op,
{
    1 + regions_node_count(op.regions@)
}

pub open spec fn regions_node_count(regions: Seq<Region>) -> nat
    decreases regions,
{
    if regions.len() == 0 {
        0
    } else {
        region_node_count(regions[0]) + regions_node_count(regions.drop_first())
    }
}

/// The named attributes read as a map: the value at the first pair
/// whose name matches, if any.
pub open spec fn attrs_find(attrs: Seq<(String, Attribute)>, name: Seq<char>) -> Option<Attribute>
    decreases attrs,
{
    if attrs.len() == 0 {
        None
    } else if attrs[0].0@ == name {
        Some(attrs[0].1)
    } else {
        attrs_find(attrs.drop_first(), name)
    }
}

/// Attribute names are unique within an operation.
pub open spec fn attr_keys_unique(attrs: Seq<(String, Attribute)>) -> bool {
    forall|i: int, j: int| 0 <= i < j < attrs.len() ==> attrs[i].0@ != attrs[j].0@
}

/// Well-formedness of an operation: unique attribute names, and all
/// nested regions well formed.
pub open spec fn op_wf(op: Operation) -> bool
    decreases op,
{
    &&& attr_keys_unique(op.attributes@)
    &&& regions_wf_all(op.regions@)
}

pub open spec fn regions_wf_all(regions: Seq<Region>) -> bool
    decreases regions,
{
    if regions.len() == 0 {
        true
    } else {
        region_wf(regions[0]) && regions_wf_all(regions.drop_first())
    }
}

pub proof fn lemma_regions_node_count_push(regions: Seq<Region>, r: Region)
    ensures
        regions_node_count(regions.push(r))
            == regions_node_count(regions) + region_node_count(r),
        regions_wf_all(regions.push(r)) <==> regions_wf_all(regions) && region_wf(r),
    decreases regions,
{
    reveal_with_fuel(regions_node_count, 2);
    reveal_with_fuel(regions_wf_all, 2);
    if regions.len() == 0 {
        assert(regions.push(r).drop_first() =~= Seq::<Region>::empty());
        assert(regions.push(r)[0] == r);
    } else {
        lemma_regions_node_count_push(regions.drop_first(), r);
        assert(regions.push(r).drop_first() =~= regions.drop_first().push(r));
        assert(regions.push(r)[0] == regions[0]);
    }
}

// ---------------------------------------------------------------------------
// The generic textual snapshot
// ---------------------------------------------------------------------------

/// The positional operand placeholders `%0, %1, ...` up to `k`.
pub open spec fn percents_text(k: nat) -> Seq<char>
    decreases k,
{
    if k == 0 {
        Seq::empty()
    } else if k == 1 {
        seq!['%', '0']
    } else {
        percents_text((k - 1) as nat) + ", "@ + seq!['%'] + dec_seq((k - 1) as nat)
    }
}

/// The comma-separated texts of a list of types.
pub open spec fn types_text(ts: Seq<Type>) -> Seq<char>
    decreases ts.len(),
{
    if ts.len() == 0 {
        Seq::empty()
    } else if ts.len() == 1 {
        type_text(ts[0])
    } else {
        types_text(ts.drop_last()) + ", "@ + type_text(ts.last())
    }
}

/// The types of a list of values.
pub open spec fn values_types(vs: Seq<Value>) -> Seq<Type> {
    vs.map_values(|v: Value| value_ty(v))
}

/// The comma-separated `name = value` texts of the attribute pairs.
pub open spec fn attr_pairs_text(attrs: Seq<(String, Attribute)>) -> Seq<char>
    decreases attrs.len(),
{
    if attrs.len() == 0 {
        Seq::empty()
    } else if attrs.len() == 1 {
        attrs[0].0@ + " = "@ + attr_text(attrs[0].1@)
    } else {
        attr_pairs_text(attrs.drop_last()) + ", "@ + attrs.last().0@ + " = "@
            + attr_text(attrs.last().1@)
    }
}

/// The generic textual snapshot of an operation: its name, positional
/// operand placeholders, attributes, and operand and result types.
/// Nested regions are elided.
pub open spec fn op_text(op: Operation) -> Seq<char> {
    seq!['"'] + op.name@ + seq!['"', '('] + percents_text(op.operands@.len()) + seq![')']
        + (if op.attributes@.len() == 0 {
            Seq::<char>::empty()
        } else {
            " {"@ + attr_pairs_text(op.attributes@) + seq!['}']
        })
        + " : ("@ + types_text(values_types(op.operands@)) + ") -> ("@
        + types_text(op.results@) + seq![')', '\n']
}

impl Operation {
    /// The operation's full name.
    pub fn name(&self) -> (r: &String)
        ensures
            r@ == self.name@,
    {
        &self.name
    }

    /// The number of operands.
    pub fn operand_count(&self) -> (r: usize)
        ensures
            r == self.operands@.len(),
    {
        self.operands.len()
    }

    /// The operand at a position, or a position-out-of-bounds error.
    pub fn operand(&self, index: usize) -> (r: Result<Value, Error>)
        ensures
            match r {
                Ok(v) => index < self.operands@.len() && v == self.operands@[index as int],
                Err(e) => {
                    &&& index >= self.operands@.len()
                    &&& e matches Error::PositionOutOfBounds { name, value, index: k }
                        && name@ == "operation operand"@ && value@ == op_text(*self)
                        && k == index
                },
            },
    {
        if index < self.operands.len() {
            Ok(self.operands[index])
        } else {
            Err(Error::PositionOutOfBounds {
                name: "operation operand",
                value: self.to_text(),
                index,
            })
        }
    }

    /// The operands from `start` up to `end`, or the
    /// position-out-of-bounds error of the first index past the end.
    pub fn operands_range(&self, start: usize, end: usize) -> (r: Result<Vec<Value>, Error>)
        requires
            start <= end,
        ensures
            match r {
                Ok(vs) => end <= self.operands@.len()
                    && vs@ == self.operands@.subrange(start as int, end as int),
                Err(e) => {
                    &&& end > self.operands@.len()
                    &&& e matches Error::PositionOutOfBounds { name, value, index: k }
                        && name@ == "operation operand"@ && value@ == op_text(*self)
                        && k >= self.operands@.len()
                },
            },
    {
        let mut out: Vec<Value> = Vec::new();
        let mut i: usize = start;
        while i < end
            invariant
                start <= i,
                i <= end,
                i <= self.operands@.len() || i == start,
                out@.len() == i - start,
                forall|k: int| 0 <= k < out@.len()
                    ==> #[trigger] out@[k] == self.operands@[start + k],
            decreases end - i,
        {
            match self.operand(i) {
                Ok(v) => out.push(v),
                Err(e) => {
                    return Err(e);
                },
            }
            i = i + 1;
        }
        if end <= self.operands.len() {
            proof {
                assert(out@ =~= self.operands@.subrange(start as int, end as int));
            }
            Ok(out)
        } else {
            // an empty range past the end still reports the bound
            self.operand(end - 1).map(|_v| out)
        }
    }

    /// The number of results.
    pub fn result_count(&self) -> (r: usize)
        ensures
            r == self.results@.len(),
    {
        self.results.len()
    }

    /// The result value at a position, or a position-out-of-bounds
    /// error.
    pub fn result(&self, index: usize) -> (r: Result<Value, Error>)
        ensures
            match r {
                Ok(v) => {
                    &&& index < self.results@.len()
                    &&& v == (Value::OperationResult {
                        operation: self.id,
                        index,
                        ty: self.results@[index as int],
                    })
                },
                Err(e) => {
                    &&& index >= self.results@.len()
                    &&& e matches Error::PositionOutOfBounds { name, value, index: k }
                        && name@ == "operation result"@ && value@ == op_text(*self)
                        && k == index
                },
            },
    {
        if index < self.results.len() {
            Ok(Value::OperationResult {
                operation: self.id,
                index,
                ty: self.results[index],
            })
        } else {
            Err(Error::PositionOutOfBounds {
                name: "operation result",
                value: self.to_text(),
                index,
            })
        }
    }

    /// The number of nested regions.
    pub fn region_count(&self) -> (r: usize)
        ensures
            r == self.regions@.len(),
    {
        self.regions.len()
    }

    /// The region at a position, or a position-out-of-bounds error.
    pub fn region(&self, index: usize) -> (r: Result<&Region, Error>)
        ensures
            match r {
                Ok(rr) => index < self.regions@.len() && *rr == self.regions@[index as int],
                Err(e) => {
                    &&& index >= self.regions@.len()
                    &&& e matches Error::PositionOutOfBounds { name, value, index: k }
                        && name@ == "region"@ && value@ == op_text(*self) && k == index
                },
            },
    {
        if index < self.regions.len() {
            Ok(&self.regions[index])
        } else {
            Err(Error::PositionOutOfBounds {
                name: "region",
                value: self.to_text(),
                index,
            })
        }
    }

    /// The number of successors.
    pub fn successor_count(&self) -> (r: usize)
        ensures
            r == self.successors@.len(),
    {
        self.successors.len()
    }

    /// The successor block identity at a position, or a
    /// position-out-of-bounds error.
    pub fn successor(&self, index: usize) -> (r: Result<u64, Error>)
        ensures
            match r {
                Ok(b) => index < self.successors@.len() && b == self.successors@[index as int],
                Err(e) => {
                    &&& index >= self.successors@.len()
                    &&& e matches Error::PositionOutOfBounds { name, value, index: k }
                        && name@ == "successor"@ && value@ == op_text(*self) && k == index
                },
            },
    {
        if index < self.successors.len() {
            Ok(self.successors[index])
        } else {
            Err(Error::PositionOutOfBounds {
                name: "successor",
                value: self.to_text(),
                index,
            })
        }
    }

    /// The number of attributes.
    pub fn attribute_count(&self) -> (r: usize)
        ensures
            r == self.attributes@.len(),
    {
        self.attributes.len()
    }

    /// The attribute pair at a position, or a position-out-of-bounds
    /// error.
    pub fn attribute_at(&self, index: usize) -> (r: Result<(&String, &Attribute), Error>)
        ensures
            match r {
                Ok((n, a)) => {
                    &&& index < self.attributes@.len()
                    &&& *n == self.attributes@[index as int].0
                    &&& *a == self.attributes@[index as int].1
                },
                Err(e) => {
                    &&& index >= self.attributes@.len()
                    &&& e matches Error::PositionOutOfBounds { name, value, index: k }
                        && name@ == "attribute"@ && value@ == op_text(*self) && k == index
                },
            },
    {
        if index < self.attributes.len() {
            let pair = &self.attributes[index];
            Ok((&pair.0, &pair.1))
        } else {
            Err(Error::PositionOutOfBounds {
                name: "attribute",
                value: self.to_text(),
                index,
            })
        }
    }

    /// The attribute with the given name, or an attribute-not-found
    /// error.
    pub fn attribute(&self, name: &str) -> (r: Result<&Attribute, Error>)
        ensures
            match r {
                Ok(a) => attrs_find(self.attributes@, name@) == Some(*a),
                Err(e) => {
                    &&& attrs_find(self.attributes@, name@) is None
                    &&& e matches Error::AttributeNotFound(n) && n@ == name@
                },
            },
    {
        let mut i: usize = 0;
        while i < self.attributes.len()
            invariant
                i <= self.attributes@.len(),
                forall|k: int| 0 <= k < i ==> #[trigger] self.attributes@[k].0@ != name@,
            decreases self.attributes@.len() - i,
        {
            if crate::text::str_eq(self.attributes[i].0.as_str(), name) {
                proof {
                    lemma_attrs_find_at(self.attributes@, name@, i as int);
                }
                return Ok(&self.attributes[i].1);
            }
            i = i + 1;
        }
        proof {
            lemma_attrs_find_none(self.attributes@, name@);
        }
        Err(Error::AttributeNotFound(name.to_owned()))
    }

    /// Whether an attribute with the given name is present.
    pub fn has_attribute(&self, name: &str) -> (r: bool)
        ensures
            r == (attrs_find(self.attributes@, name@) is Some),
    {
        match self.attribute(name) {
            Ok(_) => true,
            Err(_) => false,
        }
    }

    /// Sets the attribute with the given name; an existing value under
    /// the same name is replaced, so the last write wins.
    pub fn set_attribute(&mut self, name: &str, attribute: Attribute)
        requires
            op_wf(*old(self)),
        ensures
            op_wf(*final(self)),
            attrs_find(final(self).attributes@, name@) == Some(attribute),
            forall|other: Seq<char>| other != name@
                ==> #[trigger] attrs_find(final(self).attributes@, other)
                    == attrs_find(old(self).attributes@, other),
            final(self).id == old(self).id,
            final(self).name == old(self).name,
            final(self).operands == old(self).operands,
            final(self).results == old(self).results,
            final(self).regions == old(self).regions,
            final(self).successors == old(self).successors,
            final(self).location == old(self).location,
    {
        let ghost before = self.attributes@;
        let mut i: usize = 0;
        while i < self.attributes.len()
            invariant
                *self == *old(self),
                before == self.attributes@,
                op_wf(*self),
                i <= self.attributes@.len(),
                forall|k: int| 0 <= k < i ==> #[trigger] self.attributes@[k].0@ != name@,
            decreases self.attributes@.len() - i,
        {
            if crate::text::str_eq(self.attributes[i].0.as_str(), name) {
                self.attributes[i].1 = attribute;
                proof {
                    assert(final(self).attributes@[i as int].0@ == name@);
                    assert(final(self).attributes@[i as int].1 == attribute);
                    assert(attr_keys_unique(final(self).attributes@)) by {
                        assert(forall|p: int| 0 <= p < before.len() && p != i
                            ==> #[trigger] final(self).attributes@[p] == before[p]);
                    }
                    lemma_attrs_find_at(final(self).attributes@, name@, i as int);
                    assert forall|other: Seq<char>| other != name@
                        implies #[trigger] attrs_find(final(self).attributes@, other)
                            == attrs_find(before, other) by {
                        lemma_attrs_find_update(before, final(self).attributes@, i as int, other);
                    }
                }
                return;
            }
            i = i + 1;
        }
        let pair = (name.to_owned(), attribute);
        self.attributes.push(pair);
        proof {
            let after = final(self).attributes@;
            assert(after[before.len() as int].0@ == name@);
            assert(attr_keys_unique(after)) by {
                assert(forall|p: int| 0 <= p < before.len()
                    ==> #[trigger] after[p] == before[p]);
            }
            lemma_attrs_find_at(after, name@, before.len() as int);
            assert forall|other: Seq<char>| other != name@
                implies #[trigger] attrs_find(after, other) == attrs_find(before, other) by {
                lemma_attrs_find_push_other(before, after.last(), other);
                assert(after =~= before.push(after.last()));
            }
        }
    }

    /// Removes the attribute with the given name; a second removal of
    /// the same name reports that the attribute was not found.
    pub fn remove_attribute(&mut self, name: &str) -> (r: Result<(), Error>)
        requires
            op_wf(*old(self)),
        ensures
            op_wf(*final(self)),
            match r {
                Ok(()) => {
                    &&& attrs_find(old(self).attributes@, name@) is Some
                    &&& attrs_find(final(self).attributes@, name@) is None
                    &&& forall|other: Seq<char>| other != name@
                        ==> #[trigger] attrs_find(final(self).attributes@, other)
                            == attrs_find(old(self).attributes@, other)
                },
                Err(e) => {
                    &&& attrs_find(old(self).attributes@, name@) is None
                    &&& *final(self) == *old(self)
                    &&& e matches Error::AttributeNotFound(n) && n@ == name@
                },
            },
            final(self).id == old(self).id,
            final(self).name == old(self).name,
            final(self).operands == old(self).operands,
            final(self).results == old(self).results,
            final(self).regions == old(self).regions,
            final(self).successors == old(self).successors,
            final(self).location == old(self).location,
    {
        let ghost before = self.attributes@;
        let mut i: usize = 0;
        while i < self.attributes.len()
            invariant
                *self == *old(self),
                before == self.attributes@,
                op_wf(*self),
                i <= self.attributes@.len(),
                forall|k: int| 0 <= k < i ==> #[trigger] self.attributes@[k].0@ != name@,
            decreases self.attributes@.len() - i,
        {
            if crate::text::str_eq(self.attributes[i].0.as_str(), name) {
                proof {
                    lemma_attrs_find_at(before, name@, i as int);
                }
                let _removed = self.attributes.remove(i);
                proof {
                    let after = final(self).attributes@;
                    assert(after =~= before.remove(i as int));
                    assert(attr_keys_unique(after)) by {
                        assert(forall|p: int| 0 <= p < after.len()
                            ==> #[trigger] after[p]
                                == (if p < i { before[p] } else { before[p + 1] }));
                    }
                    lemma_attrs_find_remove(before, i as int, name@);
                    assert forall|other: Seq<char>| other != name@
                        implies #[trigger] attrs_find(after, other)
                            == attrs_find(before, other) by {
                        lemma_attrs_find_remove_other(before, i as int, other);
                    }
                }
                return Ok(());
            }
            i = i + 1;
        }
        proof {
            lemma_attrs_find_none(self.attributes@, name@);
        }
        Err(Error::AttributeNotFound(name.to_owned()))
    }

    /// Renders the generic textual snapshot of the operation.
    pub fn to_text(&self) -> (r: String)
        ensures
            r@ == op_text(*self),
    {
        let mut buf: Vec<char> = Vec::new();
        write_op_text(&mut buf, self);
        assert(buf@ =~= op_text(*self));
        chars_to_string(&buf)
    }
}

// ---------------------------------------------------------------------------
// Lemmas on the attribute map
// ---------------------------------------------------------------------------

/// When names are unique and the pair at `i` matches, the find stops
/// there.
pub proof fn lemma_attrs_find_at(attrs: Seq<(String, Attribute)>, name: Seq<char>, i: int)
    requires
        0 <= i < attrs.len(),
        attrs[i].0@ == name,
        forall|k: int| 0 <= k < i ==> #[trigger] attrs[k].0@ != name,
    ensures
        attrs_find(attrs, name) == Some(attrs[i].1),
    decreases attrs,
{
    if i > 0 {
        assert(attrs.drop_first()[i - 1] == attrs[i]);
        assert(forall|k: int| 0 <= k < i - 1
            ==> #[trigger] attrs.drop_first()[k] == attrs[k + 1]);
        lemma_attrs_find_at(attrs.drop_first(), name, i - 1);
    }
}

/// When no pair matches, the find misses.
pub proof fn lemma_attrs_find_none(attrs: Seq<(String, Attribute)>, name: Seq<char>)
    requires
        forall|k: int| 0 <= k < attrs.len() ==> #[trigger] attrs[k].0@ != name,
    ensures
        attrs_find(attrs, name) is None,
    decreases attrs,
{
    if attrs.len() > 0 {
        assert(forall|k: int| 0 <= k < attrs.len() - 1
            ==> #[trigger] attrs.drop_first()[k] == attrs[k + 1]);
        lemma_attrs_find_none(attrs.drop_first(), name);
    }
}

/// Replacing the value at one position changes the find only for that
/// position's name.
pub proof fn lemma_attrs_find_update(
    before: Seq<(String, Attribute)>,
    after: Seq<(String, Attribute)>,
    i: int,
    other: Seq<char>,
)
    requires
        0 <= i < before.len(),
        after.len() == before.len(),
        forall|p: int| 0 <= p < before.len() && p != i ==> #[trigger] after[p] == before[p],
        after[i].0@ == before[i].0@,
        other != before[i].0@,
    ensures
        attrs_find(after, other) == attrs_find(before, other),
    decreases before,
{
    if before.len() > 0 {
        if i == 0 {
            assert(after.drop_first() =~= before.drop_first());
        } else {
            assert(after[0] == before[0]);
            if after[0].0@ != other {
                assert(forall|p: int| 0 <= p < before.len() - 1 && p != i - 1
                    ==> #[trigger] after.drop_first()[p] == before.drop_first()[p]);
                assert(after.drop_first()[i - 1] == after[i]);
                assert(before.drop_first()[i - 1] == before[i]);
                lemma_attrs_find_update(before.drop_first(), after.drop_first(), i - 1, other);
            }
        }
    }
}

/// Appending a pair leaves every other name's find unchanged.
pub proof fn lemma_attrs_find_push_other(
    attrs: Seq<(String, Attribute)>,
    pair: (String, Attribute),
    other: Seq<char>,
)
    requires
        other != pair.0@,
    ensures
        attrs_find(attrs.push(pair), other) == attrs_find(attrs, other),
    decreases attrs,
{
    reveal_with_fuel(attrs_find, 2);
    if attrs.len() == 0 {
        assert(attrs.push(pair)[0] == pair);
        assert(attrs.push(pair).drop_first() =~= Seq::<(String, Attribute)>::empty());
    } else {
        assert(attrs.push(pair)[0] == attrs[0]);
        assert(attrs.push(pair).drop_first() =~= attrs.drop_first().push(pair));
        lemma_attrs_find_push_other(attrs.drop_first(), pair, other);
    }
}

/// After removing the only pair of a name, the find misses that name.
proof fn lemma_attrs_find_remove(attrs: Seq<(String, Attribute)>, i: int, name: Seq<char>)
    requires
        0 <= i < attrs.len(),
        attrs[i].0@ == name,
        attr_keys_unique(attrs),
    ensures
        attrs_find(attrs.remove(i), name) is None,
{
    let after = attrs.remove(i);
    assert forall|k: int| 0 <= k < after.len() implies #[trigger] after[k].0@ != name by {
        if k < i {
            assert(after[k] == attrs[k]);
        } else {
            assert(after[k] == attrs[k + 1]);
        }
    }
    lemma_attrs_find_none(after, name);
}

/// Removing one pair leaves every other name's find unchanged.
proof fn lemma_attrs_find_remove_other(attrs: Seq<(String, Attribute)>, i: int, other: Seq<char>)
    requires
        0 <= i < attrs.len(),
        other != attrs[i].0@,
    ensures
        attrs_find(attrs.remove(i), other) == attrs_find(attrs, other),
    decreases attrs,
{
    if i == 0 {
        assert(attrs.remove(0) =~= attrs.drop_first());
    } else {
        assert(attrs.remove(i)[0] == attrs[0]);
        if attrs[0].0@ != other {
            assert(attrs.remove(i).drop_first() =~= attrs.drop_first().remove(i - 1));
            assert(attrs.drop_first()[i - 1] == attrs[i]);
            lemma_attrs_find_remove_other(attrs.drop_first(), i - 1, other);
        }
    }
}

// ---------------------------------------------------------------------------
// Destruction against the context's allocation counter
// ---------------------------------------------------------------------------

/// Releases a detached operation and everything nested inside it; the
/// context's allocation counter drops by the number of nodes released.
pub fn destroy_operation(context: &mut Context, operation: Operation)
    requires
        context_wf(*old(context)),
        op_node_count(operation) <= old(context).allocated_operations,
    ensures
        context_wf(*final(context)),
        final(context).allocated_operations
            == old(context).allocated_operations - op_node_count(operation),
        final(context).next_id == old(context).next_id,
        final(context).dialects == old(context).dialects,
        final(context).allow_unregistered == old(context).allow_unregistered,
        final(context).strings == old(context).strings,
{
    let n = count_op_nodes(&operation);
    context.allocated_operations = context.allocated_operations - n;
}

/// Releases a block and every operation inside it; the context's
/// allocation counter drops by the number of nodes released.
pub fn destroy_block(context: &mut Context, block: crate::ir::block::Block)
    requires
        context_wf(*old(context)),
        crate::ir::block::block_node_count(block) <= old(context).allocated_operations,
    ensures
        context_wf(*final(context)),
        final(context).allocated_operations
            == old(context).allocated_operations
                - crate::ir::block::block_node_count(block),
        final(context).next_id == old(context).next_id,
        final(context).dialects == old(context).dialects,
        final(context).allow_unregistered == old(context).allow_unregistered,
        final(context).strings == old(context).strings,
{
    let n = count_block_nodes(&block);
    context.allocated_operations = context.allocated_operations - n;
}

/// Releases a detached region and every operation inside it.
pub fn destroy_region(context: &mut Context, region: Region)
    requires
        context_wf(*old(context)),
        region_node_count(region) <= old(context).allocated_operations,
    ensures
        context_wf(*final(context)),
        final(context).allocated_operations
            == old(context).allocated_operations - region_node_count(region),
        final(context).next_id == old(context).next_id,
        final(context).dialects == old(context).dialects,
        final(context).allow_unregistered == old(context).allow_unregistered,
        final(context).strings == old(context).strings,
{
    let n = count_region_nodes(&region);
    context.allocated_operations = context.allocated_operations - n;
}

/// Counts the operation nodes in a tree.
pub fn count_op_nodes(operation: &Operation) -> (r: u64)
    requires
        op_node_count(*operation) <= u64::MAX,
    ensures
        r == op_node_count(*operation),
    decreases operation,
{
    let mut total: u64 = 1;
    let mut i: usize = 0;
    while i < operation.regions.len()
        invariant
            op_node_count(*operation) <= u64::MAX,
            i <= operation.regions@.len(),
            total == 1 + regions_node_count(operation.regions@.take(i as int)),
            total <= op_node_count(*operation),
        decreases operation.regions@.len() - i,
    {
        proof {
            broadcast use vstd::std_specs::vec::axiom_vec_index_decreases;
            assert(decreases_to!(*operation => operation.regions));
            assert(decreases_to!(operation.regions => operation.regions@[i as int]));
            lemma_regions_count_elem(operation.regions@, i as int);
            lemma_regions_count_prefix(operation.regions@, operation.regions@.len() as int);
            assert(operation.regions@.take(operation.regions@.len() as int)
                =~= operation.regions@);
        }
        let n = count_region_nodes(&operation.regions[i]);
        proof {
            lemma_regions_count_take(operation.regions@, i as int);
            lemma_regions_count_prefix(operation.regions@, i + 1);
        }
        total = total + n;
        i = i + 1;
    }
    proof {
        assert(operation.regions@.take(operation.regions@.len() as int)
            =~= operation.regions@);
    }
    total
}

/// Counts the operation nodes in a region.
pub fn count_region_nodes(region: &Region) -> (r: u64)
    requires
        region_node_count(*region) <= u64::MAX,
    ensures
        r == region_node_count(*region),
    decreases region,
{
    let mut total: u64 = 0;
    let mut i: usize = 0;
    while i < region.blocks.len()
        invariant
            region_node_count(*region) <= u64::MAX,
            i <= region.blocks@.len(),
            total == crate::ir::region::blocks_node_count(region.blocks@.take(i as int)),
            total <= region_node_count(*region),
        decreases region.blocks@.len() - i,
    {
        proof {
            broadcast use vstd::std_specs::vec::axiom_vec_index_decreases;
            assert(decreases_to!(*region => region.blocks));
            assert(decreases_to!(region.blocks => region.blocks@[i as int]));
            lemma_blocks_count_elem(region.blocks@, i as int);
        }
        let n = count_block_nodes(&region.blocks[i]);
        proof {
            lemma_blocks_count_take(region.blocks@, i as int);
            lemma_blocks_count_prefix(region.blocks@, i + 1);
        }
        total = total + n;
        i = i + 1;
    }
    proof {
        assert(region.blocks@.take(region.blocks@.len() as int) =~= region.blocks@);
    }
    total
}

/// Counts the operation nodes in a block.
pub fn count_block_nodes(block: &crate::ir::block::Block) -> (r: u64)
    requires
        crate::ir::block::block_node_count(*block) <= u64::MAX,
    ensures
        r == crate::ir::block::block_node_count(*block),
    decreases block,
{
    let mut total: u64 = 0;
    let mut i: usize = 0;
    while i < block.operations.len()
        invariant
            crate::ir::block::block_node_count(*block) <= u64::MAX,
            i <= block.operations@.len(),
            total == crate::ir::block::ops_node_count(block.operations@.take(i as int)),
            total <= crate::ir::block::block_node_count(*block),
        decreases block.operations@.len() - i,
    {
        proof {
            broadcast use vstd::std_specs::vec::axiom_vec_index_decreases;
            assert(decreases_to!(*block => block.operations));
            assert(decreases_to!(block.operations => block.operations@[i as int]));
            lemma_ops_count_elem(block.operations@, i as int);
        }
        let n = count_op_nodes(&block.operations[i]);
        proof {
            lemma_ops_count_take(block.operations@, i as int);
            lemma_ops_count_prefix(block.operations@, i + 1);
        }
        total = total + n;
        i = i + 1;
    }
    proof {
        assert(block.operations@.take(block.operations@.len() as int)
            =~= block.operations@);
    }
    total
}

pub proof fn lemma_regions_count_elem(regions: Seq<Region>, i: int)
    requires
        0 <= i < regions.len(),
    ensures
        region_node_count(regions[i]) <= regions_node_count(regions),
    decreases regions.len(),
{
    reveal_with_fuel(regions_node_count, 2);
    if i > 0 {
        lemma_regions_count_elem(regions.drop_first(), i - 1);
        assert(regions.drop_first()[i - 1] == regions[i]);
    }
}

proof fn lemma_blocks_count_elem(blocks: Seq<crate::ir::block::Block>, i: int)
    requires
        0 <= i < blocks.len(),
    ensures
        crate::ir::block::block_node_count(blocks[i])
            <= crate::ir::region::blocks_node_count(blocks),
    decreases blocks.len(),
{
    reveal_with_fuel(crate::ir::region::blocks_node_count, 2);
    if i > 0 {
        lemma_blocks_count_elem(blocks.drop_first(), i - 1);
        assert(blocks.drop_first()[i - 1] == blocks[i]);
    }
}

proof fn lemma_ops_count_elem(ops: Seq<Operation>, i: int)
    requires
        0 <= i < ops.len(),
    ensures
        op_node_count(ops[i]) <= crate::ir::block::ops_node_count(ops),
    decreases ops.len(),
{
    reveal_with_fuel(crate::ir::block::ops_node_count, 2);
    if i > 0 {
        lemma_ops_count_elem(ops.drop_first(), i - 1);
        assert(ops.drop_first()[i - 1] == ops[i]);
    }
}

pub proof fn lemma_regions_count_take(regions: Seq<Region>, i: int)
    requires
        0 <= i < regions.len(),
    ensures
        regions_node_count(regions.take(i + 1))
            == regions_node_count(regions.take(i)) + region_node_count(regions[i]),
    decreases regions.len(),
{
    reveal_with_fuel(regions_node_count, 3);
    if i == 0 {
        assert(regions.take(1) =~= seq![regions[0]]);
        assert(seq![regions[0]].drop_first() =~= Seq::<Region>::empty());
        assert(regions.take(0) =~= Seq::<Region>::empty());
    } else {
        lemma_regions_count_take(regions.drop_first(), i - 1);
        assert(regions.take(i + 1).drop_first() =~= regions.drop_first().take(i));
        assert(regions.take(i).drop_first() =~= regions.drop_first().take(i - 1));
        assert(regions.take(i + 1)[0] == regions[0]);
        assert(regions.take(i)[0] == regions[0]);
        assert(regions.drop_first()[i - 1] == regions[i]);
    }
}

pub proof fn lemma_regions_count_prefix(regions: Seq<Region>, i: int)
    requires
        0 <= i <= regions.len(),
    ensures
        regions_node_count(regions.take(i)) <= regions_node_count(regions),
    decreases regions.len() - i,
{
    if i < regions.len() {
        lemma_regions_count_take(regions, i);
        lemma_regions_count_prefix(regions, i + 1);
    } else {
        assert(regions.take(i) =~= regions);
    }
}

proof fn lemma_blocks_count_take(blocks: Seq<crate::ir::block::Block>, i: int)
    requires
        0 <= i < blocks.len(),
    ensures
        crate::ir::region::blocks_node_count(blocks.take(i + 1))
            == crate::ir::region::blocks_node_count(blocks.take(i))
                + crate::ir::block::block_node_count(blocks[i]),
    decreases blocks.len(),
{
    reveal_with_fuel(crate::ir::region::blocks_node_count, 3);
    if i == 0 {
        assert(blocks.take(1) =~= seq![blocks[0]]);
        assert(seq![blocks[0]].drop_first() =~= Seq::<crate::ir::block::Block>::empty());
        assert(blocks.take(0) =~= Seq::<crate::ir::block::Block>::empty());
    } else {
        lemma_blocks_count_take(blocks.drop_first(), i - 1);
        assert(blocks.take(i + 1).drop_first() =~= blocks.drop_first().take(i));
        assert(blocks.take(i).drop_first() =~= blocks.drop_first().take(i - 1));
        assert(blocks.take(i + 1)[0] == blocks[0]);
        assert(blocks.take(i)[0] == blocks[0]);
        assert(blocks.drop_first()[i - 1] == blocks[i]);
    }
}

proof fn lemma_blocks_count_prefix(blocks: Seq<crate::ir::block::Block>, i: int)
    requires
        0 <= i <= blocks.len(),
    ensures
        crate::ir::region::blocks_node_count(blocks.take(i))
            <= crate::ir::region::blocks_node_count(blocks),
    decreases blocks.len() - i,
{
    if i < blocks.len() {
        lemma_blocks_count_take(blocks, i);
        lemma_blocks_count_prefix(blocks, i + 1);
    } else {
        assert(blocks.take(i) =~= blocks);
    }
}

proof fn lemma_ops_count_take(ops: Seq<Operation>, i: int)
    requires
        0 <= i < ops.len(),
    ensures
        crate::ir::block::ops_node_count(ops.take(i + 1))
            == crate::ir::block::ops_node_count(ops.take(i)) + op_node_count(ops[i]),
    decreases ops.len(),
{
    reveal_with_fuel(crate::ir::block::ops_node_count, 3);
    if i == 0 {
        assert(ops.take(1) =~= seq![ops[0]]);
        assert(seq![ops[0]].drop_first() =~= Seq::<Operation>::empty());
        assert(ops.take(0) =~= Seq::<Operation>::empty());
    } else {
        lemma_ops_count_take(ops.drop_first(), i - 1);
        assert(ops.take(i + 1).drop_first() =~= ops.drop_first().take(i));
        assert(ops.take(i).drop_first() =~= ops.drop_first().take(i - 1));
        assert(ops.take(i + 1)[0] == ops[0]);
        assert(ops.take(i)[0] == ops[0]);
        assert(ops.drop_first()[i - 1] == ops[i]);
    }
}

proof fn lemma_ops_count_prefix(ops: Seq<Operation>, i: int)
    requires
        0 <= i <= ops.len(),
    ensures
        crate::ir::block::ops_node_count(ops.take(i))
            <= crate::ir::block::ops_node_count(ops),
    decreases ops.len() - i,
{
    if i < ops.len() {
        lemma_ops_count_take(ops, i);
        lemma_ops_count_prefix(ops, i + 1);
    } else {
        assert(ops.take(i) =~= ops);
    }
}

// ---------------------------------------------------------------------------
// Structural verification
// ---------------------------------------------------------------------------

/// Whether every operation in the tree carries a name that may be
/// built in the context: its dialect is loaded, or unregistered
/// dialects are allowed.
pub open spec fn op_verified(ctx: Context, op: Operation) -> bool
    decreases op,
{
    &&& crate::context::name_buildable(ctx, op.name@)
    &&& regions_verified(ctx, op.regions@)
}

pub open spec fn regions_verified(ctx: Context, regions: Seq<Region>) -> bool
    decreases regions,
{
    if regions.len() == 0 {
        true
    } else {
        region_verified(ctx, regions[0]) && regions_verified(ctx, regions.drop_first())
    }
}

pub open spec fn region_verified(ctx: Context, r: Region) -> bool
    decreases r,
{
    blocks_verified(ctx, r.blocks@)
}

pub open spec fn blocks_verified(ctx: Context, blocks: Seq<crate::ir::block::Block>) -> bool
    decreases blocks,
{
    if blocks.len() == 0 {
        true
    } else {
        block_verified(ctx, blocks[0]) && blocks_verified(ctx, blocks.drop_first())
    }
}

pub open spec fn block_verified(ctx: Context, b: crate::ir::block::Block) -> bool
    decreases b,
{
    ops_verified(ctx, b.operations@)
}

pub open spec fn ops_verified(ctx: Context, ops: Seq<Operation>) -> bool
    decreases ops,
{
    if ops.len() == 0 {
        true
    } else {
        op_verified(ctx, ops[0]) && ops_verified(ctx, ops.drop_first())
    }
}

proof fn lemma_regions_verified_take(ctx: Context, regions: Seq<Region>, i: int)
    requires
        0 <= i < regions.len(),
    ensures
        regions_verified(ctx, regions.take(i + 1))
            <==> regions_verified(ctx, regions.take(i)) && region_verified(ctx, regions[i]),
    decreases regions.len(),
{
    reveal_with_fuel(regions_verified, 3);
    if i == 0 {
        assert(regions.take(1) =~= seq![regions[0]]);
        assert(seq![regions[0]].drop_first() =~= Seq::<Region>::empty());
        assert(regions.take(0) =~= Seq::<Region>::empty());
    } else {
        lemma_regions_verified_take(ctx, regions.drop_first(), i - 1);
        assert(regions.take(i + 1).drop_first() =~= regions.drop_first().take(i));
        assert(regions.take(i).drop_first() =~= regions.drop_first().take(i - 1));
        assert(regions.take(i + 1)[0] == regions[0]);
        assert(regions.take(i)[0] == regions[0]);
        assert(regions.drop_first()[i - 1] == regions[i]);
    }
}

proof fn lemma_blocks_verified_take(ctx: Context, blocks: Seq<crate::ir::block::Block>, i: int)
    requires
        0 <= i < blocks.len(),
    ensures
        blocks_verified(ctx, blocks.take(i + 1))
            <==> blocks_verified(ctx, blocks.take(i)) && block_verified(ctx, blocks[i]),
    decreases blocks.len(),
{
    reveal_with_fuel(blocks_verified, 3);
    if i == 0 {
        assert(blocks.take(1) =~= seq![blocks[0]]);
        assert(seq![blocks[0]].drop_first() =~= Seq::<crate::ir::block::Block>::empty());
        assert(blocks.take(0) =~= Seq::<crate::ir::block::Block>::empty());
    } else {
        lemma_blocks_verified_take(ctx, blocks.drop_first(), i - 1);
        assert(blocks.take(i + 1).drop_first() =~= blocks.drop_first().take(i));
        assert(blocks.take(i).drop_first() =~= blocks.drop_first().take(i - 1));
        assert(blocks.take(i + 1)[0] == blocks[0]);
        assert(blocks.take(i)[0] == blocks[0]);
        assert(blocks.drop_first()[i - 1] == blocks[i]);
    }
}

proof fn lemma_ops_verified_take(ctx: Context, ops: Seq<Operation>, i: int)
    requires
        0 <= i < ops.len(),
    ensures
        ops_verified(ctx, ops.take(i + 1))
            <==> ops_verified(ctx, ops.take(i)) && op_verified(ctx, ops[i]),
    decreases ops.len(),
{
    reveal_with_fuel(ops_verified, 3);
    if i == 0 {
        assert(ops.take(1) =~= seq![ops[0]]);
        assert(seq![ops[0]].drop_first() =~= Seq::<Operation>::empty());
        assert(ops.take(0) =~= Seq::<Operation>::empty());
    } else {
        lemma_ops_verified_take(ctx, ops.drop_first(), i - 1);
        assert(ops.take(i + 1).drop_first() =~= ops.drop_first().take(i));
        assert(ops.take(i).drop_first() =~= ops.drop_first().take(i - 1));
        assert(ops.take(i + 1)[0] == ops[0]);
        assert(ops.take(i)[0] == ops[0]);
        assert(ops.drop_first()[i - 1] == ops[i]);
    }
}

impl Operation {
    /// Verifies the operation tree: every operation's dialect must be
    /// available in the context.
    pub fn verify(&self, context: &Context) -> (r: bool)
        ensures
            r == op_verified(*context, *self),
        decreases self,
    {
        if !context.allows_name(self.name.as_str()) {
            return false;
        }
        let mut i: usize = 0;
        while i < self.regions.len()
            invariant
                i <= self.regions@.len(),
                regions_verified(*context, self.regions@.take(i as int)),
            decreases self.regions@.len() - i,
        {
            proof {
                broadcast use vstd::std_specs::vec::axiom_vec_index_decreases;
                assert(decreases_to!(*self => self.regions));
                assert(decreases_to!(self.regions => self.regions@[i as int]));
            }
            if !verify_region(context, &self.regions[i]) {
                proof {
                    lemma_regions_not_verified(*context, self.regions@, i as int);
                }
                return false;
            }
            proof {
                lemma_regions_verified_take(*context, self.regions@, i as int);
            }
            i = i + 1;
        }
        proof {
            assert(self.regions@.take(self.regions@.len() as int) =~= self.regions@);
        }
        true
    }
}

proof fn lemma_regions_not_verified(ctx: Context, regions: Seq<Region>, i: int)
    requires
        0 <= i < regions.len(),
        !region_verified(ctx, regions[i]),
    ensures
        !regions_verified(ctx, regions),
    decreases regions.len(),
{
    reveal_with_fuel(regions_verified, 2);
    if i > 0 {
        lemma_regions_not_verified(ctx, regions.drop_first(), i - 1);
        assert(regions.drop_first()[i - 1] == regions[i]);
    }
}

proof fn lemma_blocks_not_verified(ctx: Context, blocks: Seq<crate::ir::block::Block>, i: int)
    requires
        0 <= i < blocks.len(),
        !block_verified(ctx, blocks[i]),
    ensures
        !blocks_verified(ctx, blocks),
    decreases blocks.len(),
{
    reveal_with_fuel(blocks_verified, 2);
    if i > 0 {
        lemma_blocks_not_verified(ctx, blocks.drop_first(), i - 1);
        assert(blocks.drop_first()[i - 1] == blocks[i]);
    }
}

proof fn lemma_ops_not_verified(ctx: Context, ops: Seq<Operation>, i: int)
    requires
        0 <= i < ops.len(),
        !op_verified(ctx, ops[i]),
    ensures
        !ops_verified(ctx, ops),
    decreases ops.len(),
{
    reveal_with_fuel(ops_verified, 2);
    if i > 0 {
        lemma_ops_not_verified(ctx, ops.drop_first(), i - 1);
        assert(ops.drop_first()[i - 1] == ops[i]);
    }
}

fn verify_region(context: &Context, region: &Region) -> (r: bool)
    ensures
        r == region_verified(*context, *region),
    decreases region,
{
    let mut i: usize = 0;
    while i < region.blocks.len()
        invariant
            i <= region.blocks@.len(),
            blocks_verified(*context, region.blocks@.take(i as int)),
        decreases region.blocks@.len() - i,
    {
        proof {
            broadcast use vstd::std_specs::vec::axiom_vec_index_decreases;
            assert(decreases_to!(*region => region.blocks));
            assert(decreases_to!(region.blocks => region.blocks@[i as int]));
        }
        if !verify_block(context, &region.blocks[i]) {
            proof {
                lemma_blocks_not_verified(*context, region.blocks@, i as int);
            }
            return false;
        }
        proof {
            lemma_blocks_verified_take(*context, region.blocks@, i as int);
        }
        i = i + 1;
    }
    proof {
        assert(region.blocks@.take(region.blocks@.len() as int) =~= region.blocks@);
    }
    true
}

fn verify_block(context: &Context, block: &crate::ir::block::Block) -> (r: bool)
    ensures
        r == block_verified(*context, *block),
    decreases block,
{
    let mut i: usize = 0;
    while i < block.operations.len()
        invariant
            i <= block.operations@.len(),
            ops_verified(*context, block.operations@.take(i as int)),
        decreases block.operations@.len() - i,
    {
        proof {
            broadcast use vstd::std_specs::vec::axiom_vec_index_decreases;
            assert(decreases_to!(*block => block.operations));
            assert(decreases_to!(block.operations => block.operations@[i as int]));
        }
        if !block.operations[i].verify(context) {
            proof {
                lemma_ops_not_verified(*context, block.operations@, i as int);
            }
            return false;
        }
        proof {
            lemma_ops_verified_take(*context, block.operations@, i as int);
        }
        i = i + 1;
    }
    proof {
        assert(block.operations@.take(block.operations@.len() as int) =~= block.operations@);
    }
    true
}

// ---------------------------------------------------------------------------
// The executable snapshot writer
// ---------------------------------------------------------------------------

/// Appends the operand placeholders `%0, %1, ...` to a buffer.
fn write_percents(out: &mut Vec<char>, k: usize)
    ensures
        final(out)@ == old(out)@ + percents_text(k as nat),
{
    proof {
        crate::ir::syntax::lit_facts();
    }
    let mut i: usize = 0;
    while i < k
        invariant
            i <= k,
            out@ == old(out)@ + percents_text(i as nat),
        decreases k - i,
    {
        if i > 0 {
            push_str_chars(out, ", ");
        }
        out.push('%');
        write_dec_u64(out, i as u64);
        proof {
            crate::ir::syntax::lit_facts();
            if i == 0 {
                assert(dec_seq(0) =~= seq!['0']);
                assert(out@ =~= old(out)@ + percents_text((i + 1) as nat));
            } else {
                assert(out@ =~= old(out)@ + percents_text((i + 1) as nat));
            }
        }
        i = i + 1;
    }
}

/// Appends the comma-separated texts of a list of types to a buffer.
fn write_types_list(out: &mut Vec<char>, ts: &Vec<Type>)
    ensures
        final(out)@ == old(out)@ + types_text(ts@),
{
    let mut i: usize = 0;
    while i < ts.len()
        invariant
            i <= ts@.len(),
            out@ == old(out)@ + types_text(ts@.take(i as int)),
        decreases ts@.len() - i,
    {
        if i > 0 {
            push_str_chars(out, ", ");
        }
        let t = ts[i];
        crate::ir::syntax::write_type(out, &t);
        proof {
            crate::ir::syntax::lit_facts();
            assert(ts@.take(i + 1).drop_last() =~= ts@.take(i as int));
            assert(ts@.take(i + 1).last() == ts@[i as int]);
            assert(out@ =~= old(out)@ + types_text(ts@.take(i + 1)));
        }
        i = i + 1;
    }
    proof {
        assert(ts@.take(ts@.len() as int) =~= ts@);
    }
}

/// Appends the comma-separated `name = value` attribute texts to a
/// buffer.
fn write_attr_pairs(out: &mut Vec<char>, attrs: &Vec<(String, Attribute)>)
    ensures
        final(out)@ == old(out)@ + attr_pairs_text(attrs@),
{
    proof {
        reveal_strlit(" = ");
        assert(" = "@ =~= seq![' ', '=', ' ']);
    }
    let mut i: usize = 0;
    while i < attrs.len()
        invariant
            i <= attrs@.len(),
            out@ == old(out)@ + attr_pairs_text(attrs@.take(i as int)),
        decreases attrs@.len() - i,
    {
        if i > 0 {
            push_str_chars(out, ", ");
        }
        push_str_chars(out, attrs[i].0.as_str());
        push_str_chars(out, " = ");
        crate::ir::syntax::write_attr(out, &attrs[i].1);
        proof {
            crate::ir::syntax::lit_facts();
            reveal_strlit(" = ");
            assert(" = "@ =~= seq![' ', '=', ' ']);
            assert(attrs@.take(i + 1).drop_last() =~= attrs@.take(i as int));
            assert(attrs@.take(i + 1).last() == attrs@[i as int]);
            assert(out@ =~= old(out)@ + attr_pairs_text(attrs@.take(i + 1)));
        }
        i = i + 1;
    }
    proof {
        assert(attrs@.take(attrs@.len() as int) =~= attrs@);
    }
}

/// The types of an operation's operands, in order.
fn operand_types(op: &Operation) -> (r: Vec<Type>)
    ensures
        r@ == values_types(op.operands@),
{
    let mut out: Vec<Type> = Vec::new();
    let mut i: usize = 0;
    while i < op.operands.len()
        invariant
            i <= op.operands@.len(),
            out@.len() == i,
            forall|k: int| 0 <= k < i
                ==> #[trigger] out@[k] == value_ty(op.operands@[k]),
        decreases op.operands@.len() - i,
    {
        out.push(op.operands[i].ty());
        i = i + 1;
    }
    proof {
        assert(out@ =~= values_types(op.operands@));
    }
    out
}

/// Appends the generic textual snapshot of an operation to a buffer.
#[verifier::rlimit(100)]
#[verifier::spinoff_prover]
fn write_op_text(out: &mut Vec<char>, op: &Operation)
    ensures
        final(out)@ == old(out)@ + op_text(*op),
{
    proof {
        reveal_strlit(" {");
        reveal_strlit(" : (");
        reveal_strlit(") -> (");
        assert(" {"@ =~= seq![' ', '{']);
        assert(" : ("@ =~= seq![' ', ':', ' ', '(']);
        assert(") -> ("@ =~= seq![')', ' ', '-', '>', ' ', '(']);
    }
    out.push('"');
    push_str_chars(out, op.name.as_str());
    out.push('"');
    out.push('(');
    write_percents(out, op.operands.len());
    out.push(')');
    if op.attributes.len() > 0 {
        push_str_chars(out, " {");
        write_attr_pairs(out, &op.attributes);
        out.push('}');
    }
    push_str_chars(out, " : (");
    let otys = operand_types(op);
    write_types_list(out, &otys);
    push_str_chars(out, ") -> (");
    write_types_list(out, &op.results);
    out.push(')');
    out.push('\n');
    assert(final(out)@ =~= old(out)@ + op_text(*op));
}

} // verus!

verus! {

/// Flags controlling how an operation is printed.
#[derive(Debug, Clone, Copy, PartialEq, Eq, Structural)]
pub struct OperationPrintingFlags {
    /// Elide element attributes larger than this many elements.
    pub elide_larger_than: u64,
    /// Whether elision is on.
    pub elide_enabled: bool,
    /// Print debug information after the operation.
    pub debug_info: bool,
    /// Print debug information in its pretty form.
    pub debug_info_pretty: bool,
    /// Always use the generic operation form.
    pub generic_form: bool,
    /// Number values locally to the printed operation.
    pub local_scope: bool,
}

impl OperationPrintingFlags {
    /// Default flags: nothing elided, no debug information, pretty
    /// form, global scope.
    pub fn new() -> (r: OperationPrintingFlags)
        ensures
            r == (OperationPrintingFlags {
                elide_larger_than: 0,
                elide_enabled: false,
                debug_info: false,
                debug_info_pretty: false,
                generic_form: false,
                local_scope: false,
            }),
    {
        OperationPrintingFlags {
            elide_larger_than: 0,
            elide_enabled: false,
            debug_info: false,
            debug_info_pretty: false,
            generic_form: false,
            local_scope: false,
        }
    }

    /// Elides element attributes larger than the given size.
    pub fn elide_large_elements_attributes(self, size: u64) -> (r: OperationPrintingFlags)
        ensures
            r == (OperationPrintingFlags {
                elide_larger_than: size,
                elide_enabled: true,
                ..self
            }),
    {
        OperationPrintingFlags { elide_larger_than: size, elide_enabled: true, ..self }
    }

    /// Enables debug information, optionally in its pretty form.
    pub fn enable_debug_info(self, enabled: bool, pretty: bool) -> (r: OperationPrintingFlags)
        ensures
            r == (OperationPrintingFlags {
                debug_info: enabled,
                debug_info_pretty: pretty,
                ..self
            }),
    {
        OperationPrintingFlags { debug_info: enabled, debug_info_pretty: pretty, ..self }
    }

    /// Always prints the generic operation form.
    pub fn print_generic_operation_form(self) -> (r: OperationPrintingFlags)
        ensures
            r == (OperationPrintingFlags { generic_form: true, ..self }),
    {
        OperationPrintingFlags { generic_form: true, ..self }
    }

    /// Numbers values locally to the printed operation.
    pub fn use_local_scope(self) -> (r: OperationPrintingFlags)
        ensures
            r == (OperationPrintingFlags { local_scope: true, ..self }),
    {
        OperationPrintingFlags { local_scope: true, ..self }
    }
}

/// The debug text of a location.
pub open spec fn location_text(loc: Location) -> Seq<char> {
    match loc {
        Location::Unknown => "unknown"@,
        Location::Named { name } => "name "@ + dec_seq(name as nat),
        Location::FileLineCol { filename, line, column } =>
            "file "@ + dec_seq(filename as nat) + seq![':'] + dec_seq(line as nat)
                + seq![':'] + dec_seq(column as nat),
    }
}

/// The snapshot of an operation under printing flags: the generic
/// form without the final line break, followed by the location as
/// debug information when asked for.
pub open spec fn op_text_with_flags(op: Operation, flags: OperationPrintingFlags) -> Seq<char> {
    op_text(op).drop_last() + (if flags.debug_info {
        " ["@ + location_text(op.location) + seq![']']
    } else {
        Seq::<char>::empty()
    })
}

impl Operation {
    /// Renders the operation under printing flags.
    pub fn to_string_with_flags(&self, flags: OperationPrintingFlags)
        -> (r: Result<String, Error>)
        ensures
            r matches Ok(s) && s@ == op_text_with_flags(*self, flags),
    {
        let mut buf: Vec<char> = Vec::new();
        write_op_text(&mut buf, self);
        let _trailing = buf.pop();
        proof {
            assert(buf@ =~= op_text(*self).drop_last());
        }
        if flags.debug_info {
            proof {
                reveal_strlit(" [");
                assert(" ["@ =~= seq![' ', '[']);
                reveal_strlit("unknown");
                reveal_strlit("name ");
                reveal_strlit("file ");
            }
            push_str_chars(&mut buf, " [");
            match &self.location {
                Location::Unknown => push_str_chars(&mut buf, "unknown"),
                Location::Named { name } => {
                    push_str_chars(&mut buf, "name ");
                    write_dec_u64(&mut buf, *name);
                },
                Location::FileLineCol { filename, line, column } => {
                    push_str_chars(&mut buf, "file ");
                    write_dec_u64(&mut buf, *filename);
                    buf.push(':');
                    write_dec_u64(&mut buf, *line);
                    buf.push(':');
                    write_dec_u64(&mut buf, *column);
                },
            }
            buf.push(']');
            assert(buf@ =~= op_text_with_flags(*self, flags));
        } else {
            assert(buf@ =~= op_text_with_flags(*self, flags));
        }
        Ok(chars_to_string(&buf))
    }
}

} // verus!
