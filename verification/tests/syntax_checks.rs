//! Tests for the canonical textual forms: round trips for every
//! attribute and type kind, strictness of the reader, error messages,
//! and the dialect and definition-model helpers.

use melior::context::Context;
use melior::dialect::llvm;
use melior::error::Error;
use melior::ir::attribute::{Attribute, FloatAttribute};
use melior::ir::location::Location;
use melior::ir::module::Module;
use melior::ir::ty::Type;
use melior::ods::{DialectInput, Trait, VariadicKind};
use melior::diagnostic::DiagnosticSeverity;
use melior::pass::{Pass, PassManager};

fn round_trip_attribute(context: &Context, text: &str) {
    let parsed = Attribute::parse(context, text).unwrap();
    assert_eq!(parsed.to_text(), text);
    let reparsed = Attribute::parse(context, parsed.to_text().as_str()).unwrap();
    assert_eq!(reparsed, parsed);
}

#[test]
fn attribute_round_trip_every_kind() {
    let context = Context::new();
    round_trip_attribute(&context, "unit");
    round_trip_attribute(&context, "true");
    round_trip_attribute(&context, "false");
    round_trip_attribute(&context, "0 : index");
    round_trip_attribute(&context, "42 : i32");
    round_trip_attribute(&context, "-7 : i64");
    round_trip_attribute(&context, "-9223372036854775808 : i64");
    round_trip_attribute(&context, "0x3ff0000000000000 : f64");
    round_trip_attribute(&context, "0x0000000000000000 : bf16");
    round_trip_attribute(&context, "\"foo\"");
    round_trip_attribute(&context, "\"\"");
    round_trip_attribute(&context, "@main");
    round_trip_attribute(&context, "#llvm.linkage<private>");
    round_trip_attribute(&context, "[]");
    round_trip_attribute(&context, "[unit, true, 3 : i8, [@x, \"y\"]]");
}

#[test]
fn attribute_print_then_parse_is_identity() {
    let context = Context::new();
    let value = Attribute::Array {
        elements: vec![
            Attribute::Integer { value: -5, ty: Type::Integer { width: 16 } },
            Attribute::Float { bits: 0x4128000000000000, ty: Type::Float32 },
            Attribute::Str { value: "hello world".to_string() },
            Attribute::FlatSymbolRef { symbol: "sym.bol$x".to_string() },
            Attribute::Unit,
        ],
    };
    let text = value.to_text();
    let parsed = Attribute::parse(&context, text.as_str()).unwrap();
    assert_eq!(parsed, value);
}

#[test]
fn attribute_parse_rejects_non_canonical_text() {
    let context = Context::new();
    for text in [
        "",
        "tru",
        "01 : i32",
        "-0 : i32",
        "5 : f32",
        "5: i32",
        "5 : i0",
        "0x12 : f32",
        "\"unterminated",
        "@",
        "[unit,true]",
        "[unit, ]",
        "unit extra",
        "9223372036854775808 : i64",
    ] {
        let error = Attribute::parse(&context, text).unwrap_err();
        match error {
            Error::AttributeParse(t) => assert_eq!(t, text),
            other => panic!("unexpected error: {:?}", other),
        }
    }
}

#[test]
fn type_round_trip_every_kind() {
    let context = Context::new();
    for text in ["index", "i1", "i32", "i64", "bf16", "f16", "f32", "f64"] {
        let parsed = Type::parse(&context, text).unwrap();
        assert_eq!(parsed.to_text(), text);
    }
    assert_eq!(
        Type::parse(&context, "i32").unwrap(),
        Type::Integer { width: 32 }
    );
    assert!(Type::parse(&context, "i032").is_err());
    assert!(Type::parse(&context, "f128").is_err());
    assert!(Type::parse(&context, "").is_err());
}

#[test]
fn error_messages_render_all_variants() {
    let cases: Vec<(Error, &str)> = vec![
        (
            Error::AttributeExpected("float", "unit".to_string()),
            "float attribute expected: unit",
        ),
        (
            Error::AttributeNotFound("foo".to_string()),
            "attribute foo not found",
        ),
        (
            Error::AttributeParse("?".to_string()),
            "failed to parse attribute: ?",
        ),
        (
            Error::BlockArgumentExpected("result 0 of operation 3".to_string()),
            "block argument expected: result 0 of operation 3",
        ),
        (
            Error::ElementExpected { kind: "integer", value: "unit".to_string() },
            "element of integer type expected: unit",
        ),
        (Error::OperationBuild, "operation build failed"),
        (Error::OperandNotFound("lhs"), "operand lhs not found"),
        (
            Error::PositionOutOfBounds {
                name: "region",
                value: "\"foo\"() : () -> ()\n".to_string(),
                index: 12,
            },
            "region position 12 out of bounds: \"foo\"() : () -> ()\n",
        ),
        (
            Error::ParsePassPipeline("bad".to_string()),
            "failed to parse pass pipeline:\nbad",
        ),
        (Error::ResultNotFound("out"), "result out not found"),
        (Error::RunPass, "failed to run pass"),
        (
            Error::UnknownDiagnosticSeverity(7),
            "unknown diagnostic severity: 7",
        ),
        (
            Error::Utf8 { valid_up_to: 3 },
            "invalid utf-8 after 3 bytes",
        ),
    ];
    for (error, expected) in cases {
        assert_eq!(error.message(), expected);
    }
}

#[test]
fn float_attribute_coercion() {
    let context = Context::new();
    let float = FloatAttribute::from_bits(&context, 0x3ff0000000000000, Type::Float64);
    let attribute = float.into_attribute();
    assert_eq!(attribute.to_text(), "0x3ff0000000000000 : f64");

    let back = FloatAttribute::try_from(attribute).unwrap();
    assert_eq!(back.bits, 0x3ff0000000000000);

    let error = FloatAttribute::try_from(Attribute::Unit).unwrap_err();
    assert_eq!(error, Error::AttributeExpected("float", "unit".to_string()));
}

#[test]
fn module_body_holds_operations() {
    let mut context = Context::new();
    context.set_allow_unregistered_dialects(true);
    let location = Location::unknown(&context);
    let mut module = Module::new(&mut context, location);
    assert_eq!(module.body().operation_count(), 0);

    let operation = melior::ir::builder::OperationBuilder::new(
        "foo",
        Location::unknown(&context),
    )
    .build(&mut context)
    .unwrap();
    module.body_mut().insert_operation(0, operation);
    assert_eq!(module.body().operation_count(), 1);

    assert!(module.as_operation().verify(&context));
}

#[test]
fn run_fails_on_unverified_module() {
    let mut context = Context::new();
    context.set_allow_unregistered_dialects(true);
    let location = Location::unknown(&context);
    let mut module = Module::new(&mut context, location);
    let operation = melior::ir::builder::OperationBuilder::new(
        "foo.bar",
        Location::unknown(&context),
    )
    .build(&mut context)
    .unwrap();
    module.body_mut().insert_operation(0, operation);

    // with no dialect loaded and unregistered ones forbidden, the
    // verifier rejects the module and the run fails
    context.set_allow_unregistered_dialects(false);
    let manager = PassManager::new(&context);
    assert_eq!(manager.run(&context, &mut module), Err(Error::RunPass));

    let mut silent = PassManager::new(&context);
    silent.enable_verifier(false);
    assert_eq!(silent.run(&context, &mut module), Ok(()));
}

#[test]
fn pass_names_are_validated() {
    assert!(Pass::new("print-op-stats{json=false}").is_ok());
    assert!(Pass::new("").is_err());
    assert!(Pass::new("bad pass").is_err());
}

#[test]
fn llvm_constructors_assemble_operations() {
    let mut context = Context::new();
    context.load_dialect("llvm");
    let location = Location::unknown(&context);

    let zero = llvm::zero(&mut context, Type::Integer { width: 64 }, location);
    assert_eq!(zero.name().as_str(), "llvm.mlir.zero");
    let lhs = zero.result(0).unwrap();

    let compared = llvm::icmp(&mut context, llvm::ICmpPredicate::Ult, lhs, lhs, location);
    assert_eq!(compared.name().as_str(), "llvm.icmp");
    assert_eq!(
        compared.attribute("predicate").unwrap(),
        &Attribute::Integer { value: 6, ty: Type::Integer { width: 64 } }
    );
    assert_eq!(compared.result(0).unwrap().ty(), Type::Integer { width: 1 });

    let linkage_attr = llvm::linkage(&context, llvm::Linkage::External);
    assert_eq!(linkage_attr.to_text(), "#llvm.linkage<external>");
    assert_eq!(llvm::FCmpPredicate::True.value(), 15);

    let global = llvm::global_variable(
        &mut context,
        "counter",
        llvm::GlobalValue::Constant(Attribute::Integer {
            value: 1,
            ty: Type::Integer { width: 64 },
        }),
        Type::Integer { width: 64 },
        llvm::GlobalVariableOptions::new()
            .addr_space(1)
            .alignment(8)
            .linkage(llvm::Linkage::External),
        location,
    );
    assert_eq!(global.name().as_str(), "llvm.mlir.global");
    assert_eq!(
        global.attribute("sym_name").unwrap(),
        &Attribute::Str { value: "counter".to_string() }
    );
    assert_eq!(global.attribute("constant").unwrap(), &Attribute::Unit);
    assert_eq!(
        global.attribute("alignment").unwrap(),
        &Attribute::Integer { value: 8, ty: Type::Integer { width: 64 } }
    );
    assert!(global.attribute("missing").is_err());

    let returned = llvm::ret(&mut context, Some(lhs), location);
    assert_eq!(returned.name().as_str(), "llvm.return");
    assert_eq!(returned.operand_count(), 1);
}

#[test]
fn definition_model_helpers() {
    let input = DialectInput::new(
        "llvm".to_string(),
        vec!["include".to_string()],
        vec!["ops.td".to_string()],
        Vec::new(),
    );
    assert_eq!(input.name(), "llvm");
    assert_eq!(input.include_directories().len(), 1);
    assert_eq!(input.files().len(), 1);
    assert_eq!(input.directories().len(), 0);

    assert!(matches!(
        VariadicKind::new(0, false, false),
        VariadicKind::Simple { variable_length_seen: false }
    ));
    assert!(matches!(
        VariadicKind::new(3, true, false),
        VariadicKind::SameSize { variable_length_count: 3, .. }
    ));
    assert!(matches!(
        VariadicKind::new(3, false, true),
        VariadicKind::AttributeSized
    ));

    let native = Trait::new_native("mlir::OpTrait::IsTerminator".to_string(), false);
    assert!(native.has_name("mlir::OpTrait::IsTerminator"));
    assert!(!native.has_name("other"));
    assert!(!Trait::new_predicate().has_name("anything"));
}

#[test]
fn integer_elements_coercion() {
    let array = Attribute::Array {
        elements: vec![
            Attribute::Integer { value: 4, ty: Type::Integer { width: 8 } },
            Attribute::Integer { value: -2, ty: Type::Index },
        ],
    };
    assert_eq!(array.integer_elements(), Ok(vec![4, -2]));

    let mixed = Attribute::Array {
        elements: vec![
            Attribute::Integer { value: 4, ty: Type::Integer { width: 8 } },
            Attribute::Unit,
        ],
    };
    assert_eq!(
        mixed.integer_elements(),
        Err(Error::ElementExpected { kind: "integer", value: "unit".to_string() })
    );
}

#[test]
fn diagnostic_severity_codes() {
    assert_eq!(DiagnosticSeverity::from_code(0), Ok(DiagnosticSeverity::Error));
    assert_eq!(DiagnosticSeverity::from_code(3), Ok(DiagnosticSeverity::Remark));
    assert_eq!(DiagnosticSeverity::Warning.code(), 1);
    assert_eq!(
        DiagnosticSeverity::from_code(7),
        Err(Error::UnknownDiagnosticSeverity(7))
    );
}
