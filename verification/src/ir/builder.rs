//! The staged, fallible operation builder.

use vstd::prelude::*;
use crate::context::{can_allocate, context_wf, name_buildable, Context};
use crate::error::Error;
use crate::ir::attribute::Attribute;
use crate::ir::identifier::Identifier;
use crate::ir::location::Location;
use crate::ir::operation::{
    attr_keys_unique, attrs_find, lemma_attrs_find_at, op_node_count,
    op_wf, regions_node_count, regions_wf_all, lemma_regions_count_take, lemma_regions_count_prefix,
    lemma_regions_node_count_push, Operation,
};
use crate::ir::region::{region_node_count, region_wf, Region};
use crate::ir::ty::Type;
use crate::ir::value::{value_ty, Value};

verus! {

/// A staged constructor for one operation.
///
/// Mutators accumulate operands, result types, regions, successors and
/// attributes; `build` performs the single materializing step. On
/// failure everything the builder owned is released, so no allocation
/// leaks and no partial state is observable.
pub struct OperationBuilder {
    /// The operation name to materialize.
    pub name: String,
    /// The source location.
    pub location: Location,
    /// The accumulated operands.
    pub operands: Vec<Value>,
    /// The accumulated result types.
    pub results: Vec<Type>,
    /// The accumulated regions; owned by the builder.
    pub regions: Vec<Region>,
    /// The accumulated successor block identities.
    pub successors: Vec<u64>,
    /// The accumulated attributes; names unique, last write wins.
    pub attributes: Vec<(String, Attribute)>,
    /// Whether result types are inferred from the operands instead of
    /// being supplied.
    pub infer_results: bool,
}

/// The builder's internal invariant: unique attribute names and
/// well-formed accumulated regions.
pub open spec fn builder_wf(b: OperationBuilder) -> bool {
    &&& attr_keys_unique(b.attributes@)
    &&& regions_wf_all(b.regions@)
}

/// Whether `build` succeeds: the name's dialect must be available and
/// inference must not collide with supplied result types.
pub open spec fn build_succeeds(ctx: Context, b: OperationBuilder) -> bool {
    &&& name_buildable(ctx, b.name@)
    &&& (b.infer_results ==> b.results@.len() == 0)
}

/// The result types of the built operation: the supplied types, or the
/// operand types under inference.
pub open spec fn built_results(b: OperationBuilder) -> Seq<Type> {
    if b.infer_results {
        b.operands@.map_values(|v: Value| value_ty(v))
    } else {
        b.results@
    }
}

impl OperationBuilder {
    /// Starts a build for an operation with the given name.
    pub fn new(name: &str, location: Location) -> (r: OperationBuilder)
        ensures
            r.name@ == name@,
            r.location == location,
            r.operands@.len() == 0,
            r.results@.len() == 0,
            r.regions@.len() == 0,
            r.successors@.len() == 0,
            r.attributes@.len() == 0,
            !r.infer_results,
            builder_wf(r),
            regions_node_count(r.regions@) == 0,
    {
        OperationBuilder {
            name: name.to_owned(),
            location,
            operands: Vec::new(),
            results: Vec::new(),
            regions: Vec::new(),
            successors: Vec::new(),
            attributes: Vec::new(),
            infer_results: false,
        }
    }

    /// Adds operands.
    pub fn add_operands(self, operands: &[Value]) -> (r: OperationBuilder)
        ensures
            r == (OperationBuilder { operands: r.operands, ..self }),
            r.operands@ == self.operands@ + operands@,
    {
        let mut me = self;
        let mut i: usize = 0;
        while i < operands.len()
            invariant
                i <= operands@.len(),
                me == (OperationBuilder { operands: me.operands, ..self }),
                me.operands@ == self.operands@ + operands@.take(i as int),
            decreases operands@.len() - i,
        {
            me.operands.push(operands[i]);
            assert(me.operands@ =~= self.operands@ + operands@.take(i + 1));
            i = i + 1;
        }
        assert(me.operands@ =~= self.operands@ + operands@);
        me
    }

    /// Adds result types.
    pub fn add_results(self, results: &[Type]) -> (r: OperationBuilder)
        ensures
            r == (OperationBuilder { results: r.results, ..self }),
            r.results@ == self.results@ + results@,
    {
        let mut me = self;
        let mut i: usize = 0;
        while i < results.len()
            invariant
                i <= results@.len(),
                me == (OperationBuilder { results: me.results, ..self }),
                me.results@ == self.results@ + results@.take(i as int),
            decreases results@.len() - i,
        {
            me.results.push(results[i]);
            assert(me.results@ =~= self.results@ + results@.take(i + 1));
            i = i + 1;
        }
        assert(me.results@ =~= self.results@ + results@);
        me
    }

    /// Adds regions, taking ownership of each.
    pub fn add_regions(self, regions: Vec<Region>) -> (r: OperationBuilder)
        ensures
            r == (OperationBuilder { regions: r.regions, ..self }),
            r.regions@ == self.regions@ + regions@,
            regions_node_count(r.regions@)
                == regions_node_count(self.regions@) + regions_node_count(regions@),
            regions_wf_all(r.regions@)
                <==> regions_wf_all(self.regions@) && regions_wf_all(regions@),
    {
        let mut me = self;
        let mut items = regions;
        let ghost given = regions@;
        let glen = items.len();
        proof {
            assert(given.len() == glen);
        }
        let mut i: usize = 0;
        while items.len() > 0
            invariant
                i <= given.len(),
                given.len() <= usize::MAX,
                items@ == given.subrange(i as int, given.len() as int),
                me == (OperationBuilder { regions: me.regions, ..self }),
                me.regions@ == self.regions@ + given.take(i as int),
                regions_node_count(me.regions@) == regions_node_count(self.regions@)
                    + regions_node_count(given.take(i as int)),
                regions_wf_all(me.regions@) <==> regions_wf_all(self.regions@)
                    && regions_wf_all(given.take(i as int)),
            decreases items@.len(),
        {
            let next = items.remove(0);
            proof {
                assert(next == given[i as int]);
                assert(items@ =~= given.subrange(i + 1, given.len() as int));
                lemma_regions_node_count_push(me.regions@, next);
                lemma_regions_node_count_push(given.take(i as int), next);
                assert(given.take(i + 1) =~= given.take(i as int).push(next));
            }
            me.regions.push(next);
            proof {
                assert(me.regions@ =~= self.regions@ + given.take(i + 1));
            }
            i = i + 1;
        }
        proof {
            assert(i == given.len());
            assert(given.take(given.len() as int) =~= given);
        }
        me
    }

    /// Adds successor block identities.
    pub fn add_successors(self, successors: &[u64]) -> (r: OperationBuilder)
        ensures
            r == (OperationBuilder { successors: r.successors, ..self }),
            r.successors@ == self.successors@ + successors@,
    {
        let mut me = self;
        let mut i: usize = 0;
        while i < successors.len()
            invariant
                i <= successors@.len(),
                me == (OperationBuilder { successors: me.successors, ..self }),
                me.successors@ == self.successors@ + successors@.take(i as int),
            decreases successors@.len() - i,
        {
            me.successors.push(successors[i]);
            assert(me.successors@ =~= self.successors@ + successors@.take(i + 1));
            i = i + 1;
        }
        assert(me.successors@ =~= self.successors@ + successors@);
        me
    }

    /// Adds one named attribute; an earlier value under the same name
    /// is replaced, so the last write wins.
    pub fn add_attribute(self, name: &Identifier, attribute: Attribute) -> (r: OperationBuilder)
        requires
            builder_wf(self),
        ensures
            r == (OperationBuilder { attributes: r.attributes, ..self }),
            builder_wf(r),
            attrs_find(r.attributes@, name.text@) == Some(attribute),
            forall|other: Seq<char>| other != name.text@
                ==> #[trigger] attrs_find(r.attributes@, other)
                    == attrs_find(self.attributes@, other),
    {
        let mut me = self;
        upsert_attribute(&mut me.attributes, name.as_str(), attribute);
        me
    }

    /// Adds named attributes in order; for each pair the last write
    /// wins.
    pub fn add_attributes(self, attributes: &[(Identifier, Attribute)]) -> (r: OperationBuilder)
        requires
            builder_wf(self),
        ensures
            r == (OperationBuilder { attributes: r.attributes, ..self }),
            builder_wf(r),
            attributes@.len() == 0 ==> r.attributes@ == self.attributes@,
            attributes@.len() > 0 ==> forall|k: int| 0 <= k < attributes@.len()
                && (forall|m: int| k < m < attributes@.len()
                    ==> attributes@[m].0.text@ != #[trigger] attributes@[k].0.text@)
                ==> attrs_find(r.attributes@, attributes@[k].0.text@) is Some
                    && attrs_find(r.attributes@, attributes@[k].0.text@)->Some_0@
                        == attributes@[k].1@,
    {
        let mut me = self;
        let mut i: usize = 0;
        while i < attributes.len()
            invariant
                i <= attributes@.len(),
                me == (OperationBuilder { attributes: me.attributes, ..self }),
                builder_wf(me),
                i == 0 ==> me.attributes@ == self.attributes@,
                forall|k: int| 0 <= k < i
                    && (forall|m: int| k < m < i
                        ==> attributes@[m].0.text@ != #[trigger] attributes@[k].0.text@)
                    ==> attrs_find(me.attributes@, attributes@[k].0.text@) is Some
                        && attrs_find(me.attributes@, attributes@[k].0.text@)->Some_0@
                            == attributes@[k].1@,
            decreases attributes@.len() - i,
        {
            let pair = &attributes[i];
            upsert_attribute(&mut me.attributes, pair.0.as_str(), pair.1.clone());
            i = i + 1;
        }
        me
    }

    /// Asks the build to derive result types from the operands instead
    /// of taking supplied ones.
    pub fn enable_result_type_inference(self) -> (r: OperationBuilder)
        ensures
            r == (OperationBuilder { infer_results: true, ..self }),
    {
        OperationBuilder { infer_results: true, ..self }
    }

    /// Performs the single materializing step.
    ///
    /// On success one operation node is allocated and every
    /// accumulated piece is transferred into it. On failure every
    /// accumulated piece is released, so the context shows no net
    /// increase of allocated operations.
    pub fn build(self, context: &mut Context) -> (r: Result<Operation, Error>)
        requires
            context_wf(*old(context)),
            can_allocate(*old(context), 1),
            builder_wf(self),
            regions_node_count(self.regions@) <= old(context).allocated_operations,
        ensures
            context_wf(*final(context)),
            final(context).dialects == old(context).dialects,
            final(context).allow_unregistered == old(context).allow_unregistered,
            final(context).strings == old(context).strings,
            build_succeeds(*old(context), self) <==> r is Ok,
            match r {
                Ok(op) => {
                    &&& op.id == old(context).next_id
                    &&& op.name@ == self.name@
                    &&& op.attributes == self.attributes
                    &&& op.operands == self.operands
                    &&& op.results@ == built_results(self)
                    &&& op.regions == self.regions
                    &&& op.successors == self.successors
                    &&& op.location == self.location
                    &&& op_wf(op)
                    &&& op_node_count(op) == 1 + regions_node_count(self.regions@)
                    &&& final(context).allocated_operations
                        == old(context).allocated_operations + 1
                    &&& final(context).next_id == old(context).next_id + 1
                },
                Err(e) => {
                    &&& e == Error::OperationBuild
                    &&& final(context).allocated_operations
                        == old(context).allocated_operations
                            - regions_node_count(self.regions@)
                    &&& final(context).next_id == old(context).next_id
                },
            },
    {
        let allowed = context.allows_name(self.name.as_str());
        let inference_ok = !self.infer_results || self.results.len() == 0;
        if allowed && inference_ok {
            let id = context.next_id;
            context.next_id = context.next_id + 1;
            context.allocated_operations = context.allocated_operations + 1;
            let results = if self.infer_results {
                let mut tys: Vec<Type> = Vec::new();
                let mut i: usize = 0;
                while i < self.operands.len()
                    invariant
                        i <= self.operands@.len(),
                        tys@.len() == i,
                        forall|k: int| 0 <= k < i
                            ==> #[trigger] tys@[k] == value_ty(self.operands@[k]),
                    decreases self.operands@.len() - i,
                {
                    tys.push(self.operands[i].ty());
                    i = i + 1;
                }
                proof {
                    assert(tys@ =~= self.operands@.map_values(|v: Value| value_ty(v)));
                }
                tys
            } else {
                self.results
            };
            let op = Operation {
                id,
                name: self.name,
                attributes: self.attributes,
                operands: self.operands,
                results,
                regions: self.regions,
                successors: self.successors,
                location: self.location,
            };
            Ok(op)
        } else {
            // release everything the builder owned, so nothing leaks
            let mut regions = self.regions;
            let ghost given = regions@;
            proof {
                assert(given.take(given.len() as int) =~= given);
            }
            while regions.len() > 0
                invariant
                    context_wf(*context),
                    regions@.len() <= given.len(),
                    regions@ == given.take(regions@.len() as int),
                    regions_node_count(given) <= old(context).allocated_operations,
                    context.allocated_operations == old(context).allocated_operations
                        - regions_node_count(given)
                        + regions_node_count(given.take(regions@.len() as int)),
                    context.next_id == old(context).next_id,
                    context.dialects == old(context).dialects,
                    context.allow_unregistered == old(context).allow_unregistered,
                    context.strings == old(context).strings,
                decreases regions@.len(),
            {
                let ghost k = regions@.len() - 1;
                proof {
                    lemma_regions_count_take(given, k);
                    lemma_regions_count_prefix(given, k + 1);
                    assert(given.take(k + 1).drop_last() =~= given.take(k));
                    assert(given.take(k + 1).last() == given[k]);
                }
                let last = regions.pop().unwrap();
                proof {
                    assert(last == given[k]);
                    assert(regions@ =~= given.take(k));
                    lemma_regions_count_prefix(given, k);
                }
                crate::ir::operation::destroy_region(context, last);
            }
            proof {
                assert(given.take(0int) =~= Seq::<Region>::empty());
            }
            Err(Error::OperationBuild)
        }
    }
}

/// Inserts a named attribute into a unique-keyed list; an existing
/// value under the same name is replaced.
fn upsert_attribute(attrs: &mut Vec<(String, Attribute)>, name: &str, attribute: Attribute)
    requires
        attr_keys_unique(old(attrs)@),
    ensures
        attr_keys_unique(final(attrs)@),
        attrs_find(final(attrs)@, name@) is Some
            && attrs_find(final(attrs)@, name@)->Some_0 == attribute,
        forall|other: Seq<char>| other != name@
            ==> #[trigger] attrs_find(final(attrs)@, other) == attrs_find(old(attrs)@, other),
{
    let ghost before = attrs@;
    let mut found: Option<usize> = None;
    let mut i: usize = 0;
    while i < attrs.len() && found.is_none()
        invariant
            before == attrs@,
            attr_keys_unique(attrs@),
            i <= attrs@.len(),
            match found {
                Some(k) => k < attrs@.len() && attrs@[k as int].0@ == name@
                    && (forall|p: int| 0 <= p < k ==> #[trigger] attrs@[p].0@ != name@),
                None => forall|p: int| 0 <= p < i ==> #[trigger] attrs@[p].0@ != name@,
            },
        decreases attrs@.len() - i, (if found is None { 1int } else { 0int }),
    {
        if crate::text::str_eq(attrs[i].0.as_str(), name) {
            found = Some(i);
        } else {
            i = i + 1;
        }
    }
    match found {
        Some(k) => {
            attrs[k].1 = attribute;
            proof {
                assert(final(attrs)@[k as int].0@ == name@);
                assert(final(attrs)@[k as int].1 == attribute);
                assert(attr_keys_unique(final(attrs)@)) by {
                    assert(forall|p: int| 0 <= p < before.len() && p != k
                        ==> #[trigger] final(attrs)@[p] == before[p]);
                }
                lemma_attrs_find_at(final(attrs)@, name@, k as int);
                assert forall|other: Seq<char>| other != name@
                    implies #[trigger] attrs_find(final(attrs)@, other)
                        == attrs_find(before, other) by {
                    crate::ir::operation::lemma_attrs_find_update(
                        before, final(attrs)@, k as int, other);
                }
            }
        },
        None => {
            proof {
                assert(forall|p: int| 0 <= p < attrs@.len()
                    ==> #[trigger] attrs@[p].0@ != name@);
            }
            let pair = (name.to_owned(), attribute);
            attrs.push(pair);
            proof {
                assert(final(attrs)@[before.len() as int].0@ == name@);
                assert(attr_keys_unique(final(attrs)@)) by {
                    assert(forall|p: int| 0 <= p < before.len()
                        ==> #[trigger] final(attrs)@[p] == before[p]);
                }
                lemma_attrs_find_at(final(attrs)@, name@, before.len() as int);
                assert forall|other: Seq<char>| other != name@
                    implies #[trigger] attrs_find(final(attrs)@, other)
                        == attrs_find(before, other) by {
                    crate::ir::operation::lemma_attrs_find_push_other(
                        before, final(attrs)@.last(), other);
                    assert(final(attrs)@ =~= before.push(final(attrs)@.last()));
                }
            }
        },
    }
}

} // verus!
