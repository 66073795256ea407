//! Tests of variable assignments, labels and the resolver.

use tla_instrumentation::tla_state::resolve_locals;
use tla_instrumentation::Destination;
use tla_instrumentation::GlobalState;
use tla_instrumentation::Label;
use tla_instrumentation::TlaError;
use tla_instrumentation::TlaValue;
use tla_instrumentation::ToTla;
use tla_instrumentation::VarAssignment;

fn assignment(pairs: &[(&str, TlaValue)]) -> VarAssignment {
    let mut a = VarAssignment::new();
    for (name, value) in pairs {
        a.push(name, value.clone());
    }
    a
}

#[test]
fn test_resolve_local_variable() {
    let test_assignment = assignment(&[
        ("foo", TlaValue::Literal("bar".to_string())),
        ("baz", TlaValue::Literal("qux".to_string())),
    ]);

    let process_id = "pid";
    let expected_assignment = assignment(&[
        (
            "foo",
            TlaValue::Function(vec![(
                TlaValue::Literal(process_id.to_string()),
                TlaValue::Literal("bar".to_string()),
            )]),
        ),
        (
            "baz",
            TlaValue::Function(vec![(
                TlaValue::Literal(process_id.to_string()),
                TlaValue::Literal("qux".to_string()),
            )]),
        ),
    ]);

    assert_eq!(resolve_locals(test_assignment, process_id), expected_assignment);
}

#[test]
fn merge_disjoint_is_commutative() {
    let a = assignment(&[("alpha", 1_u64.to_tla_value()), ("gamma", 3_u64.to_tla_value())]);
    let b = assignment(&[("beta", 2_u64.to_tla_value())]);
    let ab = a.merge(b.clone()).expect("disjoint merge");
    let ba = b.merge(a).expect("disjoint merge");
    assert_eq!(ab, ba);
    assert_eq!(ab.0.len(), 3);
    assert_eq!(ab.0[0].0, "alpha");
    assert_eq!(ab.0[1].0, "beta");
    assert_eq!(ab.0[2].0, "gamma");
}

#[test]
fn merge_overlap_fails_with_duplicate_variable() {
    let a = assignment(&[("x", 1_u64.to_tla_value()), ("y", 2_u64.to_tla_value())]);
    let b = assignment(&[("y", 3_u64.to_tla_value()), ("z", 4_u64.to_tla_value())]);
    match a.merge(b) {
        Err(TlaError::DuplicateVariable { keys }) => {
            assert_eq!(keys, vec!["y".to_string()]);
        }
        other => panic!("expected DuplicateVariable, got {:?}", other),
    }
}

#[test]
fn push_overwrites_in_place() {
    let mut a = VarAssignment::new();
    a.push("v", 1_u64.to_tla_value());
    a.push("v", 2_u64.to_tla_value());
    assert_eq!(a.0.len(), 1);
    assert_eq!(a.0[0].1, TlaValue::Int(2));
}

#[test]
fn update_later_pairs_win() {
    let mut a = VarAssignment::new();
    a.update(vec![
        ("v".to_string(), 1_u64.to_tla_value()),
        ("w".to_string(), 2_u64.to_tla_value()),
        ("v".to_string(), 3_u64.to_tla_value()),
    ]);
    assert_eq!(a.0.len(), 2);
    assert_eq!(a.0[0], ("v".to_string(), TlaValue::Int(3)));
    assert_eq!(a.0[1], ("w".to_string(), TlaValue::Int(2)));
}

#[test]
fn extend_overwrites_existing_bindings() {
    let mut a = assignment(&[("v", 1_u64.to_tla_value())]);
    let b = assignment(&[("v", 9_u64.to_tla_value()), ("w", 2_u64.to_tla_value())]);
    a.extend(b);
    assert_eq!(a.0.len(), 2);
    assert_eq!(a.0[0].1, TlaValue::Int(9));
}

#[test]
fn label_merge_is_associative_textually() {
    let l1 = Label::new("a");
    let l2 = Label::new("bb");
    let l3 = Label::new("c");
    let left = l1.merge(&l2).merge(&l3);
    let right = l1.merge(&l2.merge(&l3));
    assert_eq!(left.0, right.0);
    assert_eq!(left.0, "a_bb_c");
}

#[test]
fn global_state_add_and_get() {
    let mut g = GlobalState::new();
    assert_eq!(g.get("counter"), None);
    g.add("counter", 7_u64.to_tla_value());
    assert_eq!(g.get("counter"), Some(&TlaValue::Int(7)));
    g.add("counter", 8_u64.to_tla_value());
    assert_eq!(g.get("counter"), Some(&TlaValue::Int(8)));
}

#[test]
fn destination_keeps_its_name() {
    let d = Destination::new("othercan");
    assert_eq!(d.0, "othercan");
}
