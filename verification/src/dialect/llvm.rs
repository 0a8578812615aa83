//! The `llvm` dialect: constructors that assemble its operations from
//! fixed shapes.

use vstd::prelude::*;
use crate::context::{can_allocate, context_wf, name_buildable, Context};
use crate::ir::attribute::{attrv_wf, is_opaque_char, AttrV, Attribute};
use crate::ir::builder::{build_succeeds, builder_wf, OperationBuilder};
use crate::ir::identifier::Identifier;
use crate::ir::location::Location;
use crate::ir::operation::{attrs_find, op_wf, regions_node_count, Operation};
use crate::ir::region::{region_node_count, region_wf, Region};
use crate::ir::ty::{type_text, type_wf, Type};
use crate::ir::value::Value;
use crate::text::{chars_to_string, push_str_chars};

verus! {

/// The linkage of an `llvm` global value.
#[derive(Debug, Clone, Copy, PartialEq, Eq, Structural)]
pub enum Linkage {
    Private,
    Internal,
    AvailableExternally,
    LinkOnce,
    Weak,
    Common,
    Appending,
    External,
}

/// The textual name of a linkage.
pub open spec fn linkage_name(linkage: Linkage) -> Seq<char> {
    match linkage {
        Linkage::Private => "private"@,
        Linkage::Internal => "internal"@,
        Linkage::AvailableExternally => "available_externally"@,
        Linkage::LinkOnce => "link_once"@,
        Linkage::Weak => "weak"@,
        Linkage::Common => "common"@,
        Linkage::Appending => "appending"@,
        Linkage::External => "external"@,
    }
}

/// The linkage attribute value: the dialect attribute
/// `#llvm.linkage<...>` carried textually.
pub open spec fn linkage_attr(linkage: Linkage) -> AttrV {
    AttrV::Opaque { text: "#llvm.linkage<"@ + linkage_name(linkage) + seq!['>'] }
}

/// Creates an `llvm` linkage attribute.
pub fn linkage(_context: &Context, link: Linkage) -> (r: Attribute)
    ensures
        r@ == linkage_attr(link),
        attrv_wf(r@),
{
    let mut buf: Vec<char> = Vec::new();
    push_str_chars(&mut buf, "#llvm.linkage<");
    match link {
        Linkage::Private => push_str_chars(&mut buf, "private"),
        Linkage::Internal => push_str_chars(&mut buf, "internal"),
        Linkage::AvailableExternally => push_str_chars(&mut buf, "available_externally"),
        Linkage::LinkOnce => push_str_chars(&mut buf, "link_once"),
        Linkage::Weak => push_str_chars(&mut buf, "weak"),
        Linkage::Common => push_str_chars(&mut buf, "common"),
        Linkage::Appending => push_str_chars(&mut buf, "appending"),
        Linkage::External => push_str_chars(&mut buf, "external"),
    }
    buf.push('>');
    let text = chars_to_string(&buf);
    let r = Attribute::Opaque { text };
    proof {
        assert(r@->text =~= "#llvm.linkage<"@ + linkage_name(link) + seq!['>']);
        lemma_linkage_attr_wf(link);
    }
    r
}

proof fn lemma_linkage_attr_wf(linkage: Linkage)
    ensures
        attrv_wf(linkage_attr(linkage)),
{
    reveal_strlit("#llvm.linkage<");
    reveal_strlit("private");
    reveal_strlit("internal");
    reveal_strlit("available_externally");
    reveal_strlit("link_once");
    reveal_strlit("weak");
    reveal_strlit("common");
    reveal_strlit("appending");
    reveal_strlit("external");
    let t = linkage_attr(linkage)->text;
    assert(t[0] == '#');
    assert forall|i: int| 1 <= i < t.len() implies is_opaque_char(#[trigger] t[i]) by {
        if i < "#llvm.linkage<"@.len() {
            assert(t[i] == "#llvm.linkage<"@[i]);
        } else if i < "#llvm.linkage<"@.len() + linkage_name(linkage).len() {
            assert(t[i] == linkage_name(linkage)[i - "#llvm.linkage<"@.len()]);
        } else {
            assert(t[i] == '>');
        }
    }
}

/// An `llvm` float comparison predicate.
#[derive(Debug, Clone, Copy, PartialEq, Eq, Hash, Structural)]
pub enum FCmpPredicate {
    /// Always false.
    False,
    /// Ordered and equal.
    Oeq,
    /// Ordered and greater than.
    Ogt,
    /// Ordered and greater than or equal.
    Oge,
    /// Ordered and less than.
    Olt,
    /// Ordered and less than or equal.
    Ole,
    /// Ordered and not equal.
    One,
    /// Ordered: no not-a-number operand.
    Ord,
    /// Unordered or equal.
    Ueq,
    /// Unordered or greater than.
    Ugt,
    /// Unordered or greater than or equal.
    Uge,
    /// Unordered or less than.
    Ult,
    /// Unordered or less than or equal.
    Ule,
    /// Unordered or not equal.
    Une,
    /// Unordered: some not-a-number operand.
    Uno,
    /// Always true.
    True,
}

/// The numeric encoding of a float predicate.
pub open spec fn fcmp_value(p: FCmpPredicate) -> int {
    match p {
        FCmpPredicate::False => 0,
        FCmpPredicate::Oeq => 1,
        FCmpPredicate::Ogt => 2,
        FCmpPredicate::Oge => 3,
        FCmpPredicate::Olt => 4,
        FCmpPredicate::Ole => 5,
        FCmpPredicate::One => 6,
        FCmpPredicate::Ord => 7,
        FCmpPredicate::Ueq => 8,
        FCmpPredicate::Ugt => 9,
        FCmpPredicate::Uge => 10,
        FCmpPredicate::Ult => 11,
        FCmpPredicate::Ule => 12,
        FCmpPredicate::Une => 13,
        FCmpPredicate::Uno => 14,
        FCmpPredicate::True => 15,
    }
}

impl FCmpPredicate {
    /// The numeric encoding of the predicate.
    pub fn value(&self) -> (r: i64)
        ensures
            r == fcmp_value(*self),
    {
        match self {
            FCmpPredicate::False => 0,
            FCmpPredicate::Oeq => 1,
            FCmpPredicate::Ogt => 2,
            FCmpPredicate::Oge => 3,
            FCmpPredicate::Olt => 4,
            FCmpPredicate::Ole => 5,
            FCmpPredicate::One => 6,
            FCmpPredicate::Ord => 7,
            FCmpPredicate::Ueq => 8,
            FCmpPredicate::Ugt => 9,
            FCmpPredicate::Uge => 10,
            FCmpPredicate::Ult => 11,
            FCmpPredicate::Ule => 12,
            FCmpPredicate::Une => 13,
            FCmpPredicate::Uno => 14,
            FCmpPredicate::True => 15,
        }
    }
}

/// An `llvm` integer comparison predicate.
#[derive(Debug, Clone, Copy, PartialEq, Eq, Hash, Structural)]
pub enum ICmpPredicate {
    /// Equal.
    Eq,
    /// Not equal.
    Ne,
    /// Signed less than.
    Slt,
    /// Signed less than or equal.
    Sle,
    /// Signed greater than.
    Sgt,
    /// Signed greater than or equal.
    Sge,
    /// Unsigned less than.
    Ult,
    /// Unsigned less than or equal.
    Ule,
    /// Unsigned greater than.
    Ugt,
    /// Unsigned greater than or equal.
    Uge,
}

/// The numeric encoding of an integer predicate.
pub open spec fn icmp_value(p: ICmpPredicate) -> int {
    match p {
        ICmpPredicate::Eq => 0,
        ICmpPredicate::Ne => 1,
        ICmpPredicate::Slt => 2,
        ICmpPredicate::Sle => 3,
        ICmpPredicate::Sgt => 4,
        ICmpPredicate::Sge => 5,
        ICmpPredicate::Ult => 6,
        ICmpPredicate::Ule => 7,
        ICmpPredicate::Ugt => 8,
        ICmpPredicate::Uge => 9,
    }
}

impl ICmpPredicate {
    /// The numeric encoding of the predicate.
    pub fn value(&self) -> (r: i64)
        ensures
            r == icmp_value(*self),
    {
        match self {
            ICmpPredicate::Eq => 0,
            ICmpPredicate::Ne => 1,
            ICmpPredicate::Slt => 2,
            ICmpPredicate::Sle => 3,
            ICmpPredicate::Sgt => 4,
            ICmpPredicate::Sge => 5,
            ICmpPredicate::Ult => 6,
            ICmpPredicate::Ule => 7,
            ICmpPredicate::Ugt => 8,
            ICmpPredicate::Uge => 9,
        }
    }
}

/// The initial value of an `llvm` global.
pub enum GlobalValue {
    /// A global variable with an initial value.
    Value(Attribute),
    /// A global constant with an initial value.
    Constant(Attribute),
    /// A global with an initializer body.
    Complex(Region),
}

/// Options for an `llvm` global variable.
#[derive(Debug, Default)]
pub struct GlobalVariableOptions {
    /// The address space, when not the default.
    pub addr_space: Option<i32>,
    /// The alignment, when not the default.
    pub alignment: Option<i64>,
    /// The linkage, when not internal.
    pub linkage: Option<Linkage>,
}

impl GlobalVariableOptions {
    /// Default options: nothing overridden.
    pub fn new() -> (r: GlobalVariableOptions)
        ensures
            r.addr_space is None,
            r.alignment is None,
            r.linkage is None,
    {
        GlobalVariableOptions { addr_space: None, alignment: None, linkage: None }
    }

    /// Overrides the address space.
    pub fn addr_space(self, addr_space: i32) -> (r: GlobalVariableOptions)
        ensures
            r == (GlobalVariableOptions { addr_space: Some(addr_space), ..self }),
    {
        GlobalVariableOptions { addr_space: Some(addr_space), ..self }
    }

    /// Overrides the alignment.
    pub fn alignment(self, alignment: i64) -> (r: GlobalVariableOptions)
        ensures
            r == (GlobalVariableOptions { alignment: Some(alignment), ..self }),
    {
        GlobalVariableOptions { alignment: Some(alignment), ..self }
    }

    /// Overrides the linkage.
    pub fn linkage(self, linkage: Linkage) -> (r: GlobalVariableOptions)
        ensures
            r == (GlobalVariableOptions { linkage: Some(linkage), ..self }),
    {
        GlobalVariableOptions { linkage: Some(linkage), ..self }
    }
}

/// The dialect attribute carrying a type, `#type<...>`, textually.
pub open spec fn type_attr(t: Type) -> AttrV {
    AttrV::Opaque { text: "#type<"@ + type_text(t) + seq!['>'] }
}

/// Creates an attribute that carries a type.
pub fn type_attribute(t: Type) -> (r: Attribute)
    requires
        type_wf(t),
    ensures
        r@ == type_attr(t),
        attrv_wf(r@),
{
    let mut buf: Vec<char> = Vec::new();
    push_str_chars(&mut buf, "#type<");
    crate::ir::syntax::write_type(&mut buf, &t);
    buf.push('>');
    let text = chars_to_string(&buf);
    let r = Attribute::Opaque { text };
    proof {
        reveal_strlit("#type<");
        let tt = type_attr(t)->text;
        assert(r@->text =~= tt);
        crate::ir::syntax::lemma_type_text_alnum(t);
        assert(tt[0] == '#');
        assert forall|i: int| 1 <= i < tt.len() implies is_opaque_char(#[trigger] tt[i]) by {
            if i < "#type<"@.len() {
                assert(tt[i] == "#type<"@[i]);
            } else if i < "#type<"@.len() + type_text(t).len() {
                assert(tt[i] == type_text(t)[i - "#type<"@.len()]);
            } else {
                assert(tt[i] == '>');
            }
        }
    }
    r
}

/// Materializes a builder whose success conditions hold.
fn build_checked(builder: OperationBuilder, context: &mut Context) -> (r: Operation)
    requires
        context_wf(*old(context)),
        can_allocate(*old(context), 1),
        builder_wf(builder),
        regions_node_count(builder.regions@) <= old(context).allocated_operations,
        build_succeeds(*old(context), builder),
    ensures
        context_wf(*final(context)),
        r.id == old(context).next_id,
        r.name@ == builder.name@,
        r.attributes == builder.attributes,
        r.operands == builder.operands,
        r.results@ == crate::ir::builder::built_results(builder),
        r.regions == builder.regions,
        r.successors == builder.successors,
        r.location == builder.location,
        op_wf(r),
        final(context).allocated_operations == old(context).allocated_operations + 1,
        final(context).next_id == old(context).next_id + 1,
        final(context).dialects == old(context).dialects,
        final(context).allow_unregistered == old(context).allow_unregistered,
        final(context).strings == old(context).strings,
{
    match builder.build(context) {
        Ok(op) => op,
        Err(_) => {
            proof {
                assert(false);
            }
            Operation {
                id: 0,
                name: String::new(),
                attributes: Vec::new(),
                operands: Vec::new(),
                results: Vec::new(),
                regions: Vec::new(),
                successors: Vec::new(),
                location: Location::Unknown,
            }
        },
    }
}

/// Creates an `llvm.icmp` operation comparing two values; its result
/// is a one-bit integer.
pub fn icmp(
    context: &mut Context,
    predicate: ICmpPredicate,
    lhs: Value,
    rhs: Value,
    location: Location,
) -> (r: Operation)
    requires
        context_wf(*old(context)),
        can_allocate(*old(context), 1),
        name_buildable(*old(context), "llvm.icmp"@),
    ensures
        context_wf(*final(context)),
        r.name@ == "llvm.icmp"@,
        r.operands@ == seq![lhs, rhs],
        r.results@ == seq![Type::Integer { width: 1 }],
        attrs_find(r.attributes@, "predicate"@) matches Some(a)
            && a@ == (AttrV::Integer { value: icmp_value(predicate), ty: Type::Integer {
                width: 64 } }),
        op_wf(r),
        final(context).allocated_operations == old(context).allocated_operations + 1,
        final(context).next_id == old(context).next_id + 1,
        final(context).dialects == old(context).dialects,
        final(context).allow_unregistered == old(context).allow_unregistered,
{
    let key = Identifier::new(context, "predicate");
    let value = Attribute::Integer { value: predicate.value(), ty: Type::Integer { width: 64 } };
    let operands_list = [lhs, rhs];
    let results_list = [Type::Integer { width: 1 }];
    let builder = OperationBuilder::new("llvm.icmp", location)
        .add_attribute(&key, value)
        .add_operands(&operands_list)
        .add_results(&results_list);
    let r = build_checked(builder, context);
    proof {
        assert(r.operands@ =~= seq![lhs, rhs]);
        assert(r.results@ =~= seq![Type::Integer { width: 1 }]);
    }
    r
}

/// Creates an `llvm.func` operation holding a body region.
pub fn func(
    context: &mut Context,
    sym_name: Attribute,
    function_type: Attribute,
    body: Region,
    location: Location,
) -> (r: Operation)
    requires
        context_wf(*old(context)),
        can_allocate(*old(context), 1),
        name_buildable(*old(context), "llvm.func"@),
        region_wf(body),
        region_node_count(body) <= old(context).allocated_operations,
    ensures
        context_wf(*final(context)),
        r.name@ == "llvm.func"@,
        attrs_find(r.attributes@, "sym_name"@) == Some(sym_name),
        attrs_find(r.attributes@, "function_type"@) == Some(function_type),
        r.regions@.len() == 1 && r.regions@[0] == body,
        op_wf(r),
        final(context).allocated_operations == old(context).allocated_operations + 1,
        final(context).next_id == old(context).next_id + 1,
{
    proof {
        reveal_strlit("sym_name");
        reveal_strlit("function_type");
        assert("sym_name"@ != "function_type"@) by {
            assert("sym_name"@.len() == 8 && "function_type"@.len() == 13);
        }
    }
    let key_name = Identifier::new(context, "sym_name");
    let key_type = Identifier::new(context, "function_type");
    let ghost sym_snapshot = sym_name@;
    let mut regions_list: Vec<Region> = Vec::new();
    regions_list.push(body);
    proof {
        assert(crate::ir::operation::regions_wf_all(regions_list@)
            && regions_node_count(regions_list@) == region_node_count(body)) by {
            reveal_with_fuel(crate::ir::operation::regions_wf_all, 2);
            reveal_with_fuel(regions_node_count, 2);
            assert(regions_list@.drop_first() =~= Seq::<Region>::empty());
        }
    }
    let builder = OperationBuilder::new("llvm.func", location)
        .add_attribute(&key_name, sym_name)
        .add_attribute(&key_type, function_type);
    let builder = builder.add_regions(regions_list);
    let r = build_checked(builder, context);
    proof {
        assert(r.regions@[0] == body);
    }
    r
}

/// Creates an `llvm.call` operation calling a named function.
pub fn call(
    context: &mut Context,
    callee: Attribute,
    arguments: &[Value],
    results: &[Type],
    location: Location,
) -> (r: Operation)
    requires
        context_wf(*old(context)),
        can_allocate(*old(context), 1),
        name_buildable(*old(context), "llvm.call"@),
    ensures
        context_wf(*final(context)),
        r.name@ == "llvm.call"@,
        attrs_find(r.attributes@, "callee"@) == Some(callee),
        r.operands@ == arguments@,
        r.results@ == results@,
        op_wf(r),
        final(context).allocated_operations == old(context).allocated_operations + 1,
        final(context).next_id == old(context).next_id + 1,
{
    let key = Identifier::new(context, "callee");
    let builder = OperationBuilder::new("llvm.call", location)
        .add_attribute(&key, callee)
        .add_operands(arguments)
        .add_results(results);
    let r = build_checked(builder, context);
    proof {
        assert(r.operands@ =~= arguments@);
        assert(r.results@ =~= results@);
    }
    r
}

/// Creates an `llvm.call` operation calling through a function
/// pointer value.
pub fn indirect_call(
    context: &mut Context,
    callee: Value,
    arguments: &[Value],
    results: &[Type],
    location: Location,
) -> (r: Operation)
    requires
        context_wf(*old(context)),
        can_allocate(*old(context), 1),
        name_buildable(*old(context), "llvm.call"@),
    ensures
        context_wf(*final(context)),
        r.name@ == "llvm.call"@,
        r.operands@ == seq![callee] + arguments@,
        r.results@ == results@,
        r.attributes@.len() == 0,
        op_wf(r),
        final(context).allocated_operations == old(context).allocated_operations + 1,
        final(context).next_id == old(context).next_id + 1,
{
    let first = [callee];
    let builder = OperationBuilder::new("llvm.call", location)
        .add_operands(&first)
        .add_operands(arguments)
        .add_results(results);
    let r = build_checked(builder, context);
    proof {
        assert(r.operands@ =~= seq![callee] + arguments@);
        assert(r.results@ =~= results@);
    }
    r
}

/// Creates an `llvm.return` operation, with or without a value.
pub fn ret(context: &mut Context, value: Option<Value>, location: Location) -> (r: Operation)
    requires
        context_wf(*old(context)),
        can_allocate(*old(context), 1),
        name_buildable(*old(context), "llvm.return"@),
    ensures
        context_wf(*final(context)),
        r.name@ == "llvm.return"@,
        match value {
            Some(v) => r.operands@ == seq![v],
            None => r.operands@.len() == 0,
        },
        r.results@.len() == 0,
        op_wf(r),
        final(context).allocated_operations == old(context).allocated_operations + 1,
        final(context).next_id == old(context).next_id + 1,
{
    let builder = OperationBuilder::new("llvm.return", location);
    let builder = match value {
        Some(v) => {
            let operands_list = [v];
            let b = builder.add_operands(&operands_list);
            proof {
                assert(b.operands@ =~= seq![v]);
            }
            b
        },
        None => builder,
    };
    build_checked(builder, context)
}

/// Creates an `llvm.unreachable` operation.
pub fn unreachable_op(context: &mut Context, location: Location) -> (r: Operation)
    requires
        context_wf(*old(context)),
        can_allocate(*old(context), 1),
        name_buildable(*old(context), "llvm.unreachable"@),
    ensures
        context_wf(*final(context)),
        r.name@ == "llvm.unreachable"@,
        r.operands@.len() == 0 && r.results@.len() == 0 && r.regions@.len() == 0,
        op_wf(r),
        final(context).allocated_operations == old(context).allocated_operations + 1,
        final(context).next_id == old(context).next_id + 1,
{
    build_checked(OperationBuilder::new("llvm.unreachable", location), context)
}

/// Creates an `llvm.mlir.zero` operation producing a zero value.
pub fn zero(context: &mut Context, result_type: Type, location: Location) -> (r: Operation)
    requires
        context_wf(*old(context)),
        can_allocate(*old(context), 1),
        name_buildable(*old(context), "llvm.mlir.zero"@),
    ensures
        context_wf(*final(context)),
        r.name@ == "llvm.mlir.zero"@,
        r.results@ == seq![result_type],
        op_wf(r),
        final(context).allocated_operations == old(context).allocated_operations + 1,
        final(context).next_id == old(context).next_id + 1,
{
    let results_list = [result_type];
    let r = build_checked(
        OperationBuilder::new("llvm.mlir.zero", location).add_results(&results_list),
        context,
    );
    proof {
        assert(r.results@ =~= seq![result_type]);
    }
    r
}

/// Creates an `llvm.mlir.undef` operation producing an undefined
/// value.
pub fn undef(context: &mut Context, result_type: Type, location: Location) -> (r: Operation)
    requires
        context_wf(*old(context)),
        can_allocate(*old(context), 1),
        name_buildable(*old(context), "llvm.mlir.undef"@),
    ensures
        context_wf(*final(context)),
        r.name@ == "llvm.mlir.undef"@,
        r.results@ == seq![result_type],
        op_wf(r),
        final(context).allocated_operations == old(context).allocated_operations + 1,
        final(context).next_id == old(context).next_id + 1,
{
    let results_list = [result_type];
    let r = build_checked(
        OperationBuilder::new("llvm.mlir.undef", location).add_results(&results_list),
        context,
    );
    proof {
        assert(r.results@ =~= seq![result_type]);
    }
    r
}

/// Creates an `llvm.mlir.poison` operation producing a poison value.
pub fn poison(context: &mut Context, result_type: Type, location: Location) -> (r: Operation)
    requires
        context_wf(*old(context)),
        can_allocate(*old(context), 1),
        name_buildable(*old(context), "llvm.mlir.poison"@),
    ensures
        context_wf(*final(context)),
        r.name@ == "llvm.mlir.poison"@,
        r.results@ == seq![result_type],
        op_wf(r),
        final(context).allocated_operations == old(context).allocated_operations + 1,
        final(context).next_id == old(context).next_id + 1,
{
    let results_list = [result_type];
    let r = build_checked(
        OperationBuilder::new("llvm.mlir.poison", location).add_results(&results_list),
        context,
    );
    proof {
        assert(r.results@ =~= seq![result_type]);
    }
    r
}

/// Creates an `llvm.bitcast` operation.
pub fn bitcast(
    context: &mut Context,
    argument: Value,
    result_type: Type,
    location: Location,
) -> (r: Operation)
    requires
        context_wf(*old(context)),
        can_allocate(*old(context), 1),
        name_buildable(*old(context), "llvm.bitcast"@),
    ensures
        context_wf(*final(context)),
        r.name@ == "llvm.bitcast"@,
        r.operands@ == seq![argument],
        r.results@ == seq![result_type],
        op_wf(r),
        final(context).allocated_operations == old(context).allocated_operations + 1,
        final(context).next_id == old(context).next_id + 1,
{
    let operands_list = [argument];
    let results_list = [result_type];
    let r = build_checked(
        OperationBuilder::new("llvm.bitcast", location)
            .add_operands(&operands_list)
            .add_results(&results_list),
        context,
    );
    proof {
        assert(r.operands@ =~= seq![argument]);
        assert(r.results@ =~= seq![result_type]);
    }
    r
}

/// Creates an `llvm.zext` operation zero-extending a value.
pub fn zext(
    context: &mut Context,
    value: Value,
    result_type: Type,
    location: Location,
) -> (r: Operation)
    requires
        context_wf(*old(context)),
        can_allocate(*old(context), 1),
        name_buildable(*old(context), "llvm.zext"@),
    ensures
        context_wf(*final(context)),
        r.name@ == "llvm.zext"@,
        r.operands@ == seq![value],
        r.results@ == seq![result_type],
        op_wf(r),
        final(context).allocated_operations == old(context).allocated_operations + 1,
        final(context).next_id == old(context).next_id + 1,
{
    let operands_list = [value];
    let results_list = [result_type];
    let r = build_checked(
        OperationBuilder::new("llvm.zext", location)
            .add_operands(&operands_list)
            .add_results(&results_list),
        context,
    );
    proof {
        assert(r.operands@ =~= seq![value]);
        assert(r.results@ =~= seq![result_type]);
    }
    r
}

/// Creates an `llvm.mlir.constant` operation.
pub fn constant(
    context: &mut Context,
    value: Attribute,
    result_type: Type,
    location: Location,
) -> (r: Operation)
    requires
        context_wf(*old(context)),
        can_allocate(*old(context), 1),
        name_buildable(*old(context), "llvm.mlir.constant"@),
    ensures
        context_wf(*final(context)),
        r.name@ == "llvm.mlir.constant"@,
        attrs_find(r.attributes@, "value"@) == Some(value),
        r.results@ == seq![result_type],
        op_wf(r),
        final(context).allocated_operations == old(context).allocated_operations + 1,
        final(context).next_id == old(context).next_id + 1,
{
    let key = Identifier::new(context, "value");
    let results_list = [result_type];
    let r = build_checked(
        OperationBuilder::new("llvm.mlir.constant", location)
            .add_attribute(&key, value)
            .add_results(&results_list),
        context,
    );
    proof {
        assert(r.results@ =~= seq![result_type]);
    }
    r
}

/// Creates an `llvm.mlir.addressof` operation taking the address of a
/// global by name.
pub fn addressof(
    context: &mut Context,
    global_name: Attribute,
    ptr_type: Type,
    location: Location,
) -> (r: Operation)
    requires
        context_wf(*old(context)),
        can_allocate(*old(context), 1),
        name_buildable(*old(context), "llvm.mlir.addressof"@),
    ensures
        context_wf(*final(context)),
        r.name@ == "llvm.mlir.addressof"@,
        attrs_find(r.attributes@, "global_name"@) == Some(global_name),
        r.results@ == seq![ptr_type],
        op_wf(r),
        final(context).allocated_operations == old(context).allocated_operations + 1,
        final(context).next_id == old(context).next_id + 1,
{
    let key = Identifier::new(context, "global_name");
    let results_list = [ptr_type];
    let r = build_checked(
        OperationBuilder::new("llvm.mlir.addressof", location)
            .add_attribute(&key, global_name)
            .add_results(&results_list),
        context,
    );
    proof {
        assert(r.results@ =~= seq![ptr_type]);
    }
    r
}

} // verus!

verus! {

/// Creates an `llvm.mlir.global` operation declaring a global
/// variable: its symbol name, type, linkage, address space and
/// alignment become attributes, and its initializer becomes either a
/// `value` attribute (with a `constant` marker for constants) or the
/// operation's single region.
#[verifier::rlimit(100)]
pub fn global_variable(
    context: &mut Context,
    name: &str,
    value: GlobalValue,
    global_type: Type,
    options: GlobalVariableOptions,
    location: Location,
) -> (r: Operation)
    requires
        context_wf(*old(context)),
        can_allocate(*old(context), 1),
        name_buildable(*old(context), "llvm.mlir.global"@),
        type_wf(global_type),
        value matches GlobalValue::Complex(region)
            ==> region_wf(region)
                && region_node_count(region) <= old(context).allocated_operations,
    ensures
        context_wf(*final(context)),
        r.name@ == "llvm.mlir.global"@,
        attrs_find(r.attributes@, "sym_name"@) matches Some(a)
            && a@ == (AttrV::Str { value: name@ }),
        attrs_find(r.attributes@, "global_type"@) matches Some(a)
            && a@ == type_attr(global_type),
        attrs_find(r.attributes@, "linkage"@) matches Some(a)
            && a@ == linkage_attr(match options.linkage {
                Some(l) => l,
                None => Linkage::Internal,
            }),
        attrs_find(r.attributes@, "addr_space"@) matches Some(a)
            && a@ == (AttrV::Integer {
                value: match options.addr_space { Some(s) => s as int, None => 0 },
                ty: Type::Integer { width: 32 },
            }),
        attrs_find(r.attributes@, "alignment"@) matches Some(a)
            && a@ == (AttrV::Integer {
                value: match options.alignment { Some(a2) => a2 as int, None => 1 },
                ty: Type::Integer { width: 64 },
            }),
        match value {
            GlobalValue::Value(init) => {
                &&& attrs_find(r.attributes@, "value"@) == Some(init)
                &&& attrs_find(r.attributes@, "constant"@) is None
                &&& r.regions@.len() == 1 && r.regions@[0].blocks@.len() == 0
            },
            GlobalValue::Constant(init) => {
                &&& attrs_find(r.attributes@, "value"@) == Some(init)
                &&& attrs_find(r.attributes@, "constant"@) == Some(Attribute::Unit)
                &&& r.regions@.len() == 1 && r.regions@[0].blocks@.len() == 0
            },
            GlobalValue::Complex(region) => {
                &&& attrs_find(r.attributes@, "value"@) is None
                &&& attrs_find(r.attributes@, "constant"@) is None
                &&& r.regions@.len() == 1 && r.regions@[0] == region
            },
        },
        op_wf(r),
        final(context).allocated_operations == old(context).allocated_operations + 1,
        final(context).next_id == old(context).next_id + 1,
        final(context).dialects == old(context).dialects,
        final(context).allow_unregistered == old(context).allow_unregistered,
{
    proof {
        reveal_strlit("sym_name");
        reveal_strlit("global_type");
        reveal_strlit("linkage");
        reveal_strlit("addr_space");
        reveal_strlit("alignment");
        reveal_strlit("value");
        reveal_strlit("constant");
        assert("sym_name"@.len() == 8 && "global_type"@.len() == 11 && "linkage"@.len() == 7
            && "addr_space"@.len() == 10 && "alignment"@.len() == 9 && "value"@.len() == 5
            && "constant"@.len() == 8);
        assert("sym_name"@[0] == 's' && "constant"@[0] == 'c');
    }
    let key_sym = Identifier::new(context, "sym_name");
    let key_ty = Identifier::new(context, "global_type");
    let key_link = Identifier::new(context, "linkage");
    let key_space = Identifier::new(context, "addr_space");
    let key_align = Identifier::new(context, "alignment");
    let name_attr = Attribute::Str { value: name.to_owned() };
    let type_at = type_attribute(global_type);
    let link = match &options.linkage {
        Some(l) => *l,
        None => Linkage::Internal,
    };
    let link_attr = linkage(context, link);
    let space: i32 = match &options.addr_space {
        Some(s) => *s,
        None => 0,
    };
    let space_attr = Attribute::Integer {
        value: space as i64,
        ty: Type::Integer { width: 32 },
    };
    let align: i64 = match &options.alignment {
        Some(a) => *a,
        None => 1,
    };
    let align_attr = Attribute::Integer { value: align, ty: Type::Integer { width: 64 } };
    let builder = OperationBuilder::new("llvm.mlir.global", location)
        .add_attribute(&key_sym, name_attr)
        .add_attribute(&key_ty, type_at)
        .add_attribute(&key_link, link_attr)
        .add_attribute(&key_space, space_attr)
        .add_attribute(&key_align, align_attr);
    let builder = match value {
        GlobalValue::Value(init) => {
            let key_value = Identifier::new(context, "value");
            let b = builder.add_attribute(&key_value, init);
            let mut regions_list: Vec<Region> = Vec::new();
            regions_list.push(Region::new());
            proof {
                lemma_one_region(regions_list@);
            }
            b.add_regions(regions_list)
        },
        GlobalValue::Constant(init) => {
            let key_value = Identifier::new(context, "value");
            let key_const = Identifier::new(context, "constant");
            let b = builder
                .add_attribute(&key_value, init)
                .add_attribute(&key_const, Attribute::Unit);
            let mut regions_list: Vec<Region> = Vec::new();
            regions_list.push(Region::new());
            proof {
                lemma_one_region(regions_list@);
            }
            b.add_regions(regions_list)
        },
        GlobalValue::Complex(region) => {
            let mut regions_list: Vec<Region> = Vec::new();
            regions_list.push(region);
            proof {
                lemma_one_region(regions_list@);
            }
            builder.add_regions(regions_list)
        },
    };
    let r = build_checked(builder, context);
    proof {
        assert(r.regions@.len() == 1);
    }
    r
}

/// A single-region list counts and verifies as its one region.
proof fn lemma_one_region(regions: Seq<Region>)
    requires
        regions.len() == 1,
    ensures
        regions_node_count(regions) == region_node_count(regions[0]),
        crate::ir::operation::regions_wf_all(regions) <==> region_wf(regions[0]),
{
    reveal_with_fuel(regions_node_count, 2);
    reveal_with_fuel(crate::ir::operation::regions_wf_all, 2);
    assert(regions.drop_first() =~= Seq::<Region>::empty());
}

} // verus!
