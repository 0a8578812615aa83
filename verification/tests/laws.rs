//! Scenario tests for the library's stated behaviors: allocation
//! accounting, indexing bounds, attribute-map semantics, detachment,
//! walk order, pipeline formatting, and builder atomicity.

use melior::context::Context;
use melior::error::Error;
use melior::ir::attribute::Attribute;
use melior::ir::block::Block;
use melior::ir::builder::OperationBuilder;
use melior::ir::location::Location;
use melior::ir::operation::{destroy_block, destroy_operation, Operation};
use melior::ir::region::Region;
use melior::ir::ty::Type;
use melior::ir::value::{Argument, Value};
use melior::ir::walk::{InterruptAfter, NameCollector, SkipAll, WalkOrder};
use melior::pass::{parse_pass_pipeline, OperationPassManager, Pass, PassManager};

fn unregistered_context() -> Context {
    let mut context = Context::new();
    context.set_allow_unregistered_dialects(true);
    context
}

fn simple_op(context: &mut Context, name: &str) -> Operation {
    OperationBuilder::new(name, Location::unknown(context))
        .build(context)
        .unwrap()
}

// ---------------------------------------------------------------------------
// Ownership: inserting operations into a block and destroying it
// releases exactly what was allocated
// ---------------------------------------------------------------------------

#[test]
fn block_destruction_releases_all_operations() {
    let mut context = unregistered_context();
    assert_eq!(context.allocated_operations, 0);

    let mut block = Block::new(&mut context, Vec::new());
    for _ in 0..5 {
        let operation = simple_op(&mut context, "foo");
        block.append_operation(operation);
    }
    assert_eq!(context.allocated_operations, 5);

    destroy_block(&mut context, block);
    assert_eq!(context.allocated_operations, 0);
}

#[test]
fn nested_destruction_releases_all_operations() {
    let mut context = unregistered_context();

    let mut inner_block = Block::new(&mut context, Vec::new());
    inner_block.append_operation(simple_op(&mut context, "leaf"));
    let mut region = Region::new();
    region.append_block(inner_block);
    let mut regions = Vec::new();
    regions.push(region);
    let parent = OperationBuilder::new("parent", Location::unknown(&context))
        .add_regions(regions)
        .build(&mut context)
        .unwrap();
    assert_eq!(context.allocated_operations, 2);

    destroy_operation(&mut context, parent);
    assert_eq!(context.allocated_operations, 0);
}

// ---------------------------------------------------------------------------
// Indexing bounds: in-range succeeds, out-of-range fails
// ---------------------------------------------------------------------------

#[test]
fn operand_indexing_bounds() {
    let mut context = unregistered_context();
    let location = Location::unknown(&context);
    let block = Block::new(&mut context, vec![(Type::Index, location)]);
    let argument: Value = block.argument(0).unwrap().value;

    let operation = OperationBuilder::new("foo", Location::unknown(&context))
        .add_operands(&[argument, argument])
        .build(&mut context)
        .unwrap();

    assert_eq!(operation.operand_count(), 2);
    assert!(operation.operand(0).is_ok());
    assert!(operation.operand(1).is_ok());
    let error = operation.operand(2).unwrap_err();
    assert!(matches!(
        error,
        Error::PositionOutOfBounds { name: "operation operand", index: 2, .. }
    ));
}

#[test]
fn result_region_successor_attribute_bounds() {
    let mut context = unregistered_context();
    let operation = OperationBuilder::new("foo", Location::unknown(&context))
        .add_results(&[Type::Index])
        .build(&mut context)
        .unwrap();

    assert!(operation.result(0).is_ok());
    assert!(matches!(
        operation.result(1).unwrap_err(),
        Error::PositionOutOfBounds { name: "operation result", index: 1, .. }
    ));
    assert!(matches!(
        operation.region(0).unwrap_err(),
        Error::PositionOutOfBounds { name: "region", index: 0, .. }
    ));
    assert!(matches!(
        operation.successor(0).unwrap_err(),
        Error::PositionOutOfBounds { name: "successor", index: 0, .. }
    ));
    assert!(matches!(
        operation.attribute_at(0).unwrap_err(),
        Error::PositionOutOfBounds { name: "attribute", index: 0, .. }
    ));
}

#[test]
fn block_argument_bounds() {
    let mut context = unregistered_context();
    let location = Location::unknown(&context);
    let block = Block::new(&mut context, vec![(Type::Index, location)]);
    assert!(block.argument(0).is_ok());
    assert!(matches!(
        block.argument(1).unwrap_err(),
        Error::PositionOutOfBounds { name: "block argument", index: 1, .. }
    ));
}

// ---------------------------------------------------------------------------
// Attribute map semantics: get after set, last write wins, removal
// succeeds once
// ---------------------------------------------------------------------------

#[test]
fn attribute_map_semantics() {
    let mut context = unregistered_context();
    let mut operation = simple_op(&mut context, "foo");

    let a = Attribute::Integer { value: 1, ty: Type::Index };
    let b = Attribute::Integer { value: 2, ty: Type::Index };

    operation.set_attribute("n", a.clone());
    assert_eq!(operation.attribute("n"), Ok(&a));

    operation.set_attribute("n", b.clone());
    assert_eq!(operation.attribute("n"), Ok(&b));

    assert_eq!(operation.remove_attribute("n"), Ok(()));
    assert_eq!(
        operation.remove_attribute("n"),
        Err(Error::AttributeNotFound("n".to_string()))
    );
    assert_eq!(
        operation.attribute("n"),
        Err(Error::AttributeNotFound("n".to_string()))
    );
}

// ---------------------------------------------------------------------------
// Detachment: removing the first operation advances the block
// ---------------------------------------------------------------------------

#[test]
fn detachment_advances_first_operation() {
    let mut context = unregistered_context();
    let mut block = Block::new(&mut context, Vec::new());
    block.append_operation(simple_op(&mut context, "first"));
    block.append_operation(simple_op(&mut context, "second"));

    let removed = block.remove_operation(0).unwrap();
    assert_eq!(removed.name().as_str(), "first");
    assert_eq!(block.operation_count(), 1);
    assert_eq!(block.first_operation().unwrap().name().as_str(), "second");

    // the removed operation is detached: it stands in no block, and
    // releasing it keeps the accounting exact
    assert_eq!(context.allocated_operations, 2);
    destroy_operation(&mut context, removed);
    assert_eq!(context.allocated_operations, 1);
}

// ---------------------------------------------------------------------------
// Walk order
// ---------------------------------------------------------------------------

fn family_tree(context: &mut Context) -> Operation {
    let mut block = Block::new(context, Vec::new());
    block.append_operation(simple_op(context, "child1"));
    block.append_operation(simple_op(context, "child2"));
    let mut region = Region::new();
    region.append_block(block);
    let mut regions = Vec::new();
    regions.push(region);
    OperationBuilder::new("parent", Location::unknown(context))
        .add_regions(regions)
        .build(context)
        .unwrap()
}

#[test]
fn walk_pre_order_advance() {
    let mut context = unregistered_context();
    let parent = family_tree(&mut context);

    let mut collector = NameCollector::new();
    let interrupted = parent.walk(WalkOrder::PreOrder, &mut collector);
    assert!(!interrupted);
    let names: Vec<&str> = collector.names.iter().map(|s| s.as_str()).collect();
    assert_eq!(names, vec!["parent", "child1", "child2"]);
}

#[test]
fn walk_pre_order_interrupt() {
    let mut context = unregistered_context();
    let parent = family_tree(&mut context);

    let mut callback = InterruptAfter::new("child1".to_string());
    let interrupted = parent.walk(WalkOrder::PreOrder, &mut callback);
    assert!(interrupted);
    let names: Vec<&str> = callback.names.iter().map(|s| s.as_str()).collect();
    assert_eq!(names, vec!["parent", "child1"]);
}

#[test]
fn walk_pre_order_skip() {
    let mut context = unregistered_context();
    let parent = family_tree(&mut context);

    let mut callback = SkipAll::new();
    let interrupted = parent.walk(WalkOrder::PreOrder, &mut callback);
    assert!(!interrupted);
    let names: Vec<&str> = callback.names.iter().map(|s| s.as_str()).collect();
    assert_eq!(names, vec!["parent"]);
}

#[test]
fn walk_post_order_advance() {
    let mut context = unregistered_context();

    // grandparent { parent { child } }
    let child = simple_op(&mut context, "child");
    let mut inner_block = Block::new(&mut context, Vec::new());
    inner_block.append_operation(child);
    let mut inner_region = Region::new();
    inner_region.append_block(inner_block);
    let mut inner_regions = Vec::new();
    inner_regions.push(inner_region);
    let parent = OperationBuilder::new("parent", Location::unknown(&context))
        .add_regions(inner_regions)
        .build(&mut context)
        .unwrap();
    let mut outer_block = Block::new(&mut context, Vec::new());
    outer_block.append_operation(parent);
    let mut outer_region = Region::new();
    outer_region.append_block(outer_block);
    let mut outer_regions = Vec::new();
    outer_regions.push(outer_region);
    let grandparent = OperationBuilder::new("grandparent", Location::unknown(&context))
        .add_regions(outer_regions)
        .build(&mut context)
        .unwrap();

    let mut collector = NameCollector::new();
    let interrupted = grandparent.walk(WalkOrder::PostOrder, &mut collector);
    assert!(!interrupted);
    let names: Vec<&str> = collector.names.iter().map(|s| s.as_str()).collect();
    assert_eq!(names, vec!["child", "parent", "grandparent"]);
}

// ---------------------------------------------------------------------------
// Pipeline formatting: print, parse, print again is identical
// ---------------------------------------------------------------------------

#[test]
fn pipeline_format_idempotent() {
    let context = Context::new();
    let mut manager = PassManager::new(&context);
    let mut inner = OperationPassManager::new("func.func").unwrap();
    inner.add_pass(Pass::new("print-op-stats{json=false}").unwrap());
    inner.add_pass(Pass::new("canonicalize").unwrap());
    manager.add_nested(inner);
    manager.add_pass(Pass::new("symbol-dce").unwrap());

    let first = manager.as_operation_pass_manager().to_text();
    let mut reparsed = OperationPassManager::new("any").unwrap();
    parse_pass_pipeline(&mut reparsed, first.as_str()).unwrap();
    let second = reparsed.to_text();
    assert_eq!(first, second);

    let mut reparsed_again = OperationPassManager::new("any").unwrap();
    parse_pass_pipeline(&mut reparsed_again, second.as_str()).unwrap();
    assert_eq!(reparsed_again.to_text(), second);
}

#[test]
fn pipeline_parse_rejects_malformed_text() {
    let mut scope = OperationPassManager::new("any").unwrap();
    let error = parse_pass_pipeline(&mut scope, "func.func(").unwrap_err();
    assert!(matches!(error, Error::ParsePassPipeline(_)));
    assert_eq!(scope.to_text(), "any()");
}

// ---------------------------------------------------------------------------
// Builder atomicity: a failed build releases everything
// ---------------------------------------------------------------------------

#[test]
fn failed_build_shows_no_net_allocation() {
    let mut context = Context::new();
    context.set_allow_unregistered_dialects(true);
    assert_eq!(context.allocated_operations, 0);

    // assemble pieces: a region holding an already-built operation
    let mut block = Block::new(&mut context, Vec::new());
    block.append_operation(simple_op(&mut context, "piece"));
    let mut region = Region::new();
    region.append_block(block);
    assert_eq!(context.allocated_operations, 1);

    // the build fails: its dialect is not available once unregistered
    // dialects are forbidden again
    context.set_allow_unregistered_dialects(false);
    let mut regions = Vec::new();
    regions.push(region);
    let result = OperationBuilder::new("foo.bar", Location::unknown(&context))
        .add_regions(regions)
        .build(&mut context);
    assert_eq!(result.unwrap_err(), Error::OperationBuild);

    // no net increase: everything handed to the builder was released
    assert_eq!(context.allocated_operations, 0);
}

#[test]
fn build_succeeds_exactly_when_dialect_available() {
    let mut context = Context::new();
    let denied = OperationBuilder::new("math.sin", Location::unknown(&context))
        .build(&mut context);
    assert_eq!(denied.unwrap_err(), Error::OperationBuild);

    context.load_dialect("math");
    let allowed = OperationBuilder::new("math.sin", Location::unknown(&context))
        .build(&mut context);
    assert_eq!(allowed.unwrap().name().as_str(), "math.sin");

    let other = OperationBuilder::new("arith.addi", Location::unknown(&context))
        .build(&mut context);
    assert_eq!(other.unwrap_err(), Error::OperationBuild);
}

#[test]
fn result_type_inference_takes_operand_types() {
    let mut context = unregistered_context();
    let location = Location::unknown(&context);
    let block = Block::new(
        &mut context,
        vec![(Type::Integer { width: 32 }, location), (Type::Float64, location)],
    );
    let first: Value = block.argument(0).unwrap().value;
    let second: Value = block.argument(1).unwrap().value;

    let operation = OperationBuilder::new("foo", Location::unknown(&context))
        .add_operands(&[first, second])
        .enable_result_type_inference()
        .build(&mut context)
        .unwrap();
    assert_eq!(operation.result_count(), 2);
    assert_eq!(operation.result(0).unwrap().ty(), Type::Integer { width: 32 });
    assert_eq!(operation.result(1).unwrap().ty(), Type::Float64);

    // inference collides with supplied result types
    let collision = OperationBuilder::new("foo", Location::unknown(&context))
        .add_results(&[Type::Index])
        .enable_result_type_inference()
        .build(&mut context);
    assert_eq!(collision.unwrap_err(), Error::OperationBuild);
}

// ---------------------------------------------------------------------------
// Values and arguments
// ---------------------------------------------------------------------------

#[test]
fn block_argument_expected_on_operation_result() {
    let mut context = unregistered_context();
    let operation = OperationBuilder::new("foo", Location::unknown(&context))
        .add_results(&[Type::Index])
        .build(&mut context)
        .unwrap();
    let result = operation.result(0).unwrap();

    let error = Argument::try_from(result).unwrap_err();
    assert!(matches!(error, Error::BlockArgumentExpected(_)));

    let location = Location::unknown(&context);
    let block = Block::new(&mut context, vec![(Type::Index, location)]);
    let argument = block.argument(0).unwrap();
    assert!(Argument::try_from(argument.value).is_ok());
}

#[test]
fn next_in_block_follows_attachment_order() {
    let mut context = unregistered_context();
    let mut block = Block::new(&mut context, Vec::new());
    block.append_operation(simple_op(&mut context, "first"));
    block.append_operation(simple_op(&mut context, "second"));

    assert_eq!(block.next_in_block(0).unwrap().name().as_str(), "second");
    assert!(block.next_in_block(1).is_none());

    block.insert_operation(1, simple_op(&mut context, "middle"));
    assert_eq!(block.next_in_block(0).unwrap().name().as_str(), "middle");
    assert_eq!(block.next_in_block(1).unwrap().name().as_str(), "second");
}

#[test]
fn identifiers_compare_by_content() {
    let mut context = Context::new();
    let first = melior::ir::identifier::Identifier::new(&mut context, "foo");
    let second = melior::ir::identifier::Identifier::new(&mut context, "foo");
    let third = melior::ir::identifier::Identifier::new(&mut context, "bar");
    assert!(first == second);
    assert!(first != third);
}

#[test]
fn distinct_attributes_have_distinct_identities() {
    let mut context = Context::new();
    let inner = Attribute::Unit;
    let first = melior::ir::attribute::DisctinctAttribute::new(&mut context, &inner);
    let second = melior::ir::attribute::DisctinctAttribute::new(&mut context, &inner);
    assert_ne!(first.id, second.id);
    assert_eq!(first.attribute(), second.attribute());
}

#[test]
fn counting_nodes_matches_structure() {
    let mut context = unregistered_context();
    let parent = family_tree(&mut context);
    assert_eq!(melior::ir::operation::count_op_nodes(&parent), 3);
    assert!(parent.verify(&context));

    let mut strict = Context::new();
    assert!(!parent.verify(&strict));
    strict.load_dialect("foo");
    assert!(!parent.verify(&strict));
}
