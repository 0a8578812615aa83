//! Tests of the public interface: construction, accessors, printing,
//! interning, and the pass manager.

use melior::context::Context;
use melior::error::Error;
use melior::ir::attribute::{Attribute, DisctinctAttribute, FlatSymbolRefAttribute};
use melior::ir::builder::OperationBuilder;
use melior::ir::identifier::Identifier;
use melior::ir::location::Location;
use melior::ir::module::Module;
use melior::ir::operation::OperationPrintingFlags;
use melior::ir::ty::Type;
use melior::logical_result::LogicalResult;
use melior::pass::{parse_pass_pipeline, OperationPassManager, Pass, PassManager};

#[test]
fn value() {
    let mut context = Context::new();
    let bool_attr = Attribute::Boolean { value: true };
    let value = DisctinctAttribute::new(&mut context, &bool_attr);
    let _value: &Attribute = value.attribute();
}

#[test]
fn operation_new() {
    let mut context = Context::new();
    context.set_allow_unregistered_dialects(true);
    OperationBuilder::new("foo", Location::unknown(&context))
        .build(&mut context)
        .unwrap();
}

#[test]
fn name() {
    let mut context = Context::new();
    context.set_allow_unregistered_dialects(true);

    let operation = OperationBuilder::new("foo", Location::unknown(&context))
        .build(&mut context)
        .unwrap();
    let identifier = Identifier::new(&mut context, "foo");
    assert_eq!(operation.name().as_str(), identifier.as_str());
}

#[test]
fn result_error() {
    let mut context = Context::new();
    context.set_allow_unregistered_dialects(true);
    assert_eq!(
        OperationBuilder::new("foo", Location::unknown(&context))
            .build(&mut context)
            .unwrap()
            .result(0)
            .unwrap_err(),
        Error::PositionOutOfBounds {
            name: "operation result",
            value: "\"foo\"() : () -> ()\n".to_string(),
            index: 0
        }
    );
}

#[test]
fn region_none() {
    let mut context = Context::new();
    context.set_allow_unregistered_dialects(true);
    assert_eq!(
        OperationBuilder::new("foo", Location::unknown(&context))
            .build(&mut context)
            .unwrap()
            .region(0)
            .unwrap_err(),
        Error::PositionOutOfBounds {
            name: "region",
            value: "\"foo\"() : () -> ()\n".to_string(),
            index: 0
        }
    );
}

#[test]
fn attribute() {
    let mut context = Context::new();
    context.set_allow_unregistered_dialects(true);

    let foo = Identifier::new(&mut context, "foo");
    let mut operation = OperationBuilder::new("foo", Location::unknown(&context))
        .add_attribute(
            &foo,
            Attribute::Str {
                value: "bar".to_string(),
            },
        )
        .build(&mut context)
        .unwrap();
    assert!(operation.has_attribute("foo"));
    assert_eq!(
        operation.attribute("foo").map(|a| a.to_text()),
        Ok("\"bar\"".to_string())
    );
    assert!(operation.remove_attribute("foo").is_ok());
    assert!(operation.remove_attribute("foo").is_err());
    operation.set_attribute(
        "foo",
        Attribute::Str {
            value: "foo".to_string(),
        },
    );
    assert_eq!(
        operation.attribute("foo").map(|a| a.to_text()),
        Ok("\"foo\"".to_string())
    );
}

#[test]
fn display() {
    let mut context = Context::new();
    context.set_allow_unregistered_dialects(true);

    assert_eq!(
        OperationBuilder::new("foo", Location::unknown(&context))
            .build(&mut context)
            .unwrap()
            .to_text(),
        "\"foo\"() : () -> ()\n"
    );
}

#[test]
fn to_string_with_flags() {
    let mut context = Context::new();
    context.set_allow_unregistered_dialects(true);

    assert_eq!(
        OperationBuilder::new("foo", Location::unknown(&context))
            .build(&mut context)
            .unwrap()
            .to_string_with_flags(
                OperationPrintingFlags::new()
                    .elide_large_elements_attributes(100)
                    .enable_debug_info(true, true)
                    .print_generic_operation_form()
                    .use_local_scope()
            ),
        Ok("\"foo\"() : () -> () [unknown]".to_string())
    );
}

#[test]
fn flat_symbol_ref_new() {
    let context = Context::new();
    let attribute = FlatSymbolRefAttribute::new(&context, "foo");

    assert_eq!(attribute.value(), "foo");
}

#[test]
fn success() {
    assert!(LogicalResult::success().is_success());
}

#[test]
fn failure() {
    assert!(LogicalResult::failure().is_failure());
}

#[test]
fn manager_new() {
    let context = Context::new();

    PassManager::new(&context);
}

#[test]
fn add_pass() {
    let context = Context::new();

    PassManager::new(&context).add_pass(Pass::new("convert-func-to-llvm").unwrap());
}

#[test]
fn enable_verifier() {
    let context = Context::new();

    PassManager::new(&context).enable_verifier(true);
}

#[test]
fn run() {
    let mut context = Context::new();
    context.load_dialect("builtin");
    let manager = {
        let mut manager = PassManager::new(&context);
        manager.add_pass(Pass::new("convert-func-to-llvm").unwrap());
        manager
    };

    let location = Location::unknown(&context);
    let mut module = Module::new(&mut context, location);
    manager.run(&context, &mut module).unwrap();
}

#[test]
fn print_pass_pipeline() {
    let context = Context::new();
    let mut manager = PassManager::new(&context);
    let mut function_manager = OperationPassManager::new("func.func").unwrap();

    function_manager.add_pass(Pass::new("print-op-stats{json=false}").unwrap());
    let function_text = function_manager.to_text();
    manager.add_nested(function_manager);

    assert_eq!(
        manager.as_operation_pass_manager().to_text(),
        "any(func.func(print-op-stats{json=false}))"
    );
    assert_eq!(function_text, "func.func(print-op-stats{json=false})");
}

#[test]
fn parse_pass_pipeline_() {
    let context = Context::new();
    let manager = PassManager::new(&context);
    let mut pipeline = manager.as_operation_pass_manager().to_text();
    assert_eq!(pipeline, "any()");

    let mut scope = OperationPassManager::new("any").unwrap();
    assert_eq!(
        parse_pass_pipeline(
            &mut scope,
            "builtin.module(func.func(print-op-stats{json=false}),\
            func.func(print-op-stats{json=false}))"
        ),
        Ok(())
    );

    pipeline = scope.to_text();
    assert_eq!(
        pipeline,
        "builtin.module(func.func(print-op-stats{json=false}),\
        func.func(print-op-stats{json=false}))"
    );
}

#[test]
fn equal() {
    let mut context = Context::new();

    assert_eq!(context.intern("foo"), context.intern("foo"));
}

#[test]
fn equal_str() {
    let mut context = Context::new();

    let index = context.intern("foo");
    assert_eq!(context.interned(index).as_str(), "foo");
}

#[test]
fn not_equal() {
    let mut context = Context::new();

    assert_ne!(context.intern("foo"), context.intern("bar"));
}

#[test]
fn context_new() {
    Context::new();
}

#[test]
fn argument_number() {
    let mut context = Context::new();
    let index_type = Type::parse(&context, "index").unwrap();
    let location = Location::unknown(&context);
    let block = melior::ir::block::Block::new(&mut context, vec![(index_type, location)]);

    assert_eq!(block.argument(0).unwrap().argument_number(), 0);
}

#[test]
fn owner() {
    let mut context = Context::new();
    let index_type = Type::parse(&context, "index").unwrap();
    let location = Location::unknown(&context);
    let block = melior::ir::block::Block::new(&mut context, vec![(index_type, location)]);

    assert_eq!(block.argument(0).unwrap().owner_id(), block.id);
}

#[test]
fn type_new() {
    let context = Context::new();
    Type::parse(&context, "f32").unwrap();
}

#[test]
fn operation_state_new() {
    let mut context = Context::new();
    context.set_allow_unregistered_dialects(true);
    let bar = Identifier::new(&mut context, "bar");
    let state = OperationBuilder::new("foo", Location::unknown(&context))
        .add_attribute(&bar, Attribute::parse(&context, "unit").unwrap());

    state.build(&mut context).unwrap();
}

#[test]
fn operands_range() {
    let mut context = Context::new();
    context.set_allow_unregistered_dialects(true);

    let location = Location::unknown(&context);
    let index_type = Type::parse(&context, "index").unwrap();
    let block = melior::ir::block::Block::new(&mut context, vec![(index_type, location)]);
    let argument = block.argument(0).unwrap().value;

    let operands = [argument, argument, argument];
    let operation = OperationBuilder::new("foo", Location::unknown(&context))
        .add_operands(&operands)
        .build(&mut context)
        .unwrap();

    assert_eq!(
        operation.operands_range(1, operation.operand_count()),
        Ok(vec![argument, argument])
    );
}
