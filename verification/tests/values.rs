//! Tests of canonical values: construction, ordering and the canonical
//! textual form.

use tla_instrumentation::TlaConstantAssignment;
use tla_instrumentation::TlaValue;
use tla_instrumentation::ToTla;
use tla_instrumentation::VarAssignment;

#[test]
fn round_trip_canonical_syntax() {
    // a representative of each native container kind, encoded and
    // rendered, reproduces the documented canonical syntax exactly
    let set = TlaValue::set_of(vec![
        2_u64.to_tla_value(),
        1_u64.to_tla_value(),
        2_u64.to_tla_value(),
    ]);
    assert_eq!(set.to_tla_string(), "{1, 2}");

    let record = TlaValue::record_of(vec![
        ("beta".to_string(), 2_u64.to_tla_value()),
        ("alpha".to_string(), 1_u64.to_tla_value()),
    ]);
    assert_eq!(record.to_tla_string(), "[alpha |-> 1, beta |-> 2]");

    let function = TlaValue::function_of(vec![
        ("k2".to_tla_value(), 2_u64.to_tla_value()),
        ("k1".to_tla_value(), 1_u64.to_tla_value()),
    ]);
    assert_eq!(function.to_tla_string(), "\"k1\" :> 1 @@ \"k2\" :> 2");

    let sequence = vec![10_u64, 20_u64].to_tla_value();
    assert_eq!(sequence.to_tla_string(), "<<10, 20>>");

    assert_eq!("hi".to_tla_value().to_tla_string(), "\"hi\"");
    assert_eq!(TlaValue::Constant("NULL".to_string()).to_tla_string(), "NULL");
    assert_eq!(true.to_tla_value().to_tla_string(), "TRUE");
    assert_eq!(false.to_tla_value().to_tla_string(), "FALSE");
    assert_eq!(1234567890_u64.to_tla_value().to_tla_string(), "1234567890");
    assert_eq!(0_u64.to_tla_value().to_tla_string(), "0");
    assert_eq!(7_u32.to_tla_value().to_tla_string(), "7");

    let variant = TlaValue::Variant {
        tag: "Ok".to_string(),
        value: Box::new(3_u64.to_tla_value()),
    };
    assert_eq!(variant.to_tla_string(), "Variant(\"Ok\", 3)");
}

#[test]
fn nested_containers_render_recursively() {
    let inner = TlaValue::set_of(vec!["b".to_tla_value(), "a".to_tla_value()]);
    let outer = TlaValue::Sequence(vec![inner, TlaValue::SetOf(vec![])]);
    assert_eq!(outer.to_tla_string(), "<<{\"a\", \"b\"}, {}>>");
    let empty_function = TlaValue::function_of(vec![]);
    assert_eq!(empty_function.to_tla_string(), "");
}

#[test]
fn set_of_orders_by_variant_tag_then_recursively() {
    // the structural order ranks variants before comparing contents
    let mixed = TlaValue::set_of(vec![
        5_u64.to_tla_value(),
        true.to_tla_value(),
        "a".to_tla_value(),
        TlaValue::Constant("C".to_string()),
        TlaValue::Sequence(vec![]),
    ]);
    assert_eq!(mixed.to_tla_string(), "{<<>>, \"a\", C, TRUE, 5}");

    let bools = TlaValue::set_of(vec![true.to_tla_value(), false.to_tla_value()]);
    assert_eq!(bools.to_tla_string(), "{FALSE, TRUE}");

    let strings = TlaValue::set_of(vec![
        "pear".to_tla_value(),
        "apple".to_tla_value(),
        "peach".to_tla_value(),
    ]);
    assert_eq!(strings.to_tla_string(), "{\"apple\", \"peach\", \"pear\"}");
}

#[test]
fn function_of_later_pairs_win() {
    let function = TlaValue::function_of(vec![
        ("k".to_tla_value(), 1_u64.to_tla_value()),
        ("k".to_tla_value(), 2_u64.to_tla_value()),
    ]);
    assert_eq!(function.to_tla_string(), "\"k\" :> 2");
}

#[test]
fn constants_to_map_renders_each_value() {
    let mut constants = VarAssignment::new();
    constants.push("limit", 10_u64.to_tla_value());
    constants.push("owner", "root".to_tla_value());
    let assignment = TlaConstantAssignment { constants };
    let map = assignment.to_map();
    assert_eq!(
        map,
        vec![
            ("limit".to_string(), "10".to_string()),
            ("owner".to_string(), "\"root\"".to_string()),
        ]
    );
}

#[test]
fn principal_encodes_as_its_text() {
    let principal = candid::Principal::anonymous();
    let value = principal.to_tla_value();
    assert_eq!(value, TlaValue::Literal("2vxsx-fae".to_string()));
    assert_eq!(value.to_tla_string(), "\"2vxsx-fae\"");
}
