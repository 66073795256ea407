//! Tests of the step engine: the stage machine, the call stack and the
//! records it produces. Each instrumented method is replayed as the
//! sequence of engine operations its instrumentation emits.

use tla_instrumentation::log_fn_call;
use tla_instrumentation::log_fn_return;
use tla_instrumentation::log_locals;
use tla_instrumentation::log_method_call;
use tla_instrumentation::log_method_return;
use tla_instrumentation::log_tla_request;
use tla_instrumentation::log_tla_response;
use tla_instrumentation::ContextHandle;
use tla_instrumentation::Destination;
use tla_instrumentation::GlobalState;
use tla_instrumentation::Label;
use tla_instrumentation::ResolvedStatePair;
use tla_instrumentation::StageAction;
use tla_instrumentation::StageKind;
use tla_instrumentation::TlaError;
use tla_instrumentation::TlaValue;
use tla_instrumentation::ToTla;
use tla_instrumentation::Update;
use tla_instrumentation::VarAssignment;

const PID: &str = "My_F_PID";
const CAN_NAME: &str = "mycan";

fn my_f_desc() -> Update {
    Update {
        default_start_locals: VarAssignment::new(),
        default_end_locals: VarAssignment::new(),
        start_label: Label::new("Start_Label"),
        end_label: Label::new("End_Label"),
        process_id: PID.to_string(),
        canister_name: CAN_NAME.to_string(),
    }
}

fn globals_of(value: u64) -> GlobalState {
    let mut state = GlobalState::new();
    state.add("global", value.to_tla_value());
    state
}

fn pid_function(value: u64) -> TlaValue {
    TlaValue::Function(vec![(TlaValue::Literal(PID.to_string()), value.to_tla_value())])
}

#[test]
fn basic_test() {
    let mut global: u64 = 0;
    let mut pairs: Vec<ResolvedStatePair> = Vec::new();

    // the body of the instrumented function `my_f`
    let mut state = log_method_call(my_f_desc(), globals_of(global));
    log_locals(&mut state, vec![("x".to_string(), 1_u64.to_tla_value())]).unwrap();
    global = 1;
    pairs.push(
        log_tla_request(
            &mut state,
            Destination::new("othercan"),
            2_u64.to_tla_value(),
            globals_of(global),
        )
        .unwrap(),
    );
    log_tla_response(
        &mut state,
        Destination::new("othercan"),
        3_u64.to_tla_value(),
        globals_of(global),
    )
    .unwrap();
    global = 2;
    pairs.push(log_method_return(&mut state, globals_of(global)).unwrap());

    println!("----------------");
    println!("State pairs:");
    for pair in pairs.iter() {
        println!("{:?}", pair.start);
        println!("{:?}", pair.end);
    }
    println!("----------------");
    assert_eq!(pairs.len(), 2);
    let first = &pairs[0];
    assert_eq!(first.start.get("global"), Some(&0_u64.to_tla_value()));
    assert_eq!(first.end.get("global"), Some(&1_u64.to_tla_value()));
    assert_eq!(first.end.get("x"), Some(pid_function(1)).as_ref());
    assert_eq!(
        first.end.get(format!("{}_to_{}", CAN_NAME, "othercan").as_str()),
        Some(&TlaValue::Sequence(vec![2_u64.to_tla_value()]))
    );
    let second = &pairs[1];
    assert_eq!(second.start.get("global"), Some(&1_u64.to_tla_value()));
    assert_eq!(second.start.get("x"), Some(&pid_function(1)));
    assert_eq!(
        second.start.get(format!("{}_to_{}", "othercan", CAN_NAME).as_str()),
        Some(&TlaValue::SetOf(vec![3_u64.to_tla_value()]))
    );
    assert_eq!(second.end.get("global"), Some(&2_u64.to_tla_value()));
}

#[test]
fn async_async_test() {
    // the instrumented async function's body only awaits an inner
    // future; no locals, no messages
    let global: u64 = 0;
    let mut pairs: Vec<ResolvedStatePair> = Vec::new();
    let mut state = log_method_call(my_f_desc(), globals_of(global));
    pairs.push(log_method_return(&mut state, globals_of(global)).unwrap());

    println!("----------------");
    println!("State pairs:");
    for pair in pairs.iter() {
        println!("{:?}", pair.start);
        println!("{:?}", pair.end);
    }
    println!("----------------");
    assert_eq!(pairs.len(), 1);
    let first = &pairs[0];
    assert_eq!(first.start.get("global"), Some(&0_u64.to_tla_value()));
    assert_eq!(first.end.get("global"), Some(&0_u64.to_tla_value()));
}

#[test]
fn basic_async_test() {
    async_async_test();
}

#[test]
fn struct_test() {
    struct StructCanister {
        counter: u64,
    }
    fn canister_globals(c: &StructCanister) -> GlobalState {
        let mut state = GlobalState::new();
        state.add("counter", c.counter.to_tla_value());
        state
    }
    fn method_desc() -> Update {
        Update {
            default_start_locals: VarAssignment::new().add("my_local", 0_u64.to_tla_value()),
            default_end_locals: VarAssignment::new(),
            start_label: Label::new("Start_Label"),
            end_label: Label::new("End_Label"),
            process_id: PID.to_string(),
            canister_name: CAN_NAME.to_string(),
        }
    }

    let mut canister = StructCanister { counter: 0 };
    let mut pairs: Vec<ResolvedStatePair> = Vec::new();

    // the body of the instrumented method `my_method`
    let mut state = log_method_call(method_desc(), canister_globals(&canister));
    canister.counter += 1;
    let mut my_local: u64 = canister.counter;
    log_locals(&mut state, vec![("my_local".to_string(), my_local.to_tla_value())]).unwrap();
    // call_maker sends a request and receives the response
    pairs.push(
        log_tla_request(
            &mut state,
            Destination::new("othercan"),
            2_u64.to_tla_value(),
            canister_globals(&canister),
        )
        .unwrap(),
    );
    log_tla_response(
        &mut state,
        Destination::new("othercan"),
        3_u64.to_tla_value(),
        canister_globals(&canister),
    )
    .unwrap();
    canister.counter += 1;
    my_local = canister.counter;
    log_locals(&mut state, vec![("my_local".to_string(), my_local.to_tla_value())]).unwrap();
    pairs.push(log_method_return(&mut state, canister_globals(&canister)).unwrap());

    println!("----------------");
    println!("State pairs:");
    for pair in pairs.iter() {
        println!("{:?}", pair.start);
        println!("{:?}", pair.end);
    }
    println!("----------------");
    assert_eq!(pairs.len(), 2);
    let first = &pairs[0];
    assert_eq!(first.start.get("counter"), Some(&0_u64.to_tla_value()));
    assert_eq!(first.end.get("counter"), Some(&1_u64.to_tla_value()));

    assert_eq!(first.start.get("my_local"), Some(pid_function(0)).as_ref());
    assert_eq!(first.end.get("my_local"), Some(pid_function(1)).as_ref());

    assert_eq!(
        first.end.get(format!("{}_to_{}", CAN_NAME, "othercan").as_str()),
        Some(&TlaValue::Sequence(vec![2_u64.to_tla_value()]))
    );

    let second = &pairs[1];

    assert_eq!(second.start.get("counter"), Some(&1_u64.to_tla_value()));
    assert_eq!(second.end.get("counter"), Some(&2_u64.to_tla_value()));

    assert_eq!(second.start.get("my_local"), Some(pid_function(1)).as_ref());
    assert_eq!(second.end.get("my_local"), Some(pid_function(2)).as_ref());

    assert_eq!(
        second.start.get(format!("{}_to_{}", "othercan", CAN_NAME).as_str()),
        Some(&TlaValue::SetOf(vec![3_u64.to_tla_value()]))
    );
}

fn scenario_desc() -> Update {
    Update {
        default_start_locals: VarAssignment::new(),
        default_end_locals: VarAssignment::new(),
        start_label: Label::new("Start"),
        end_label: Label::new("End"),
        process_id: "pid".to_string(),
        canister_name: "A".to_string(),
    }
}

#[test]
fn scenario_send_without_reply() {
    // one step of process "A": log local x = 1, send "m" to "B", end
    // with no reply pending
    let mut trace: Vec<ResolvedStatePair> = Vec::new();
    let mut state = log_method_call(scenario_desc(), GlobalState::new());
    log_locals(&mut state, vec![("x".to_string(), 1_u64.to_tla_value())]).unwrap();
    trace.push(
        log_tla_request(
            &mut state,
            Destination::new("B"),
            "m".to_tla_value(),
            GlobalState::new(),
        )
        .unwrap(),
    );
    // the step then ends with no reply pending: the end fails loudly
    // and contributes no pair
    assert!(matches!(
        log_method_return(&mut state, GlobalState::new()),
        Err(TlaError::StageViolation { .. })
    ));
    assert_eq!(trace.len(), 1);
    let pair = &trace[0];
    assert_eq!(pair.start.get("x"), None);
    assert_eq!(
        pair.end.get("x"),
        Some(&TlaValue::Function(vec![(
            TlaValue::Literal("pid".to_string()),
            1_u64.to_tla_value()
        )]))
    );
    assert_eq!(
        pair.end.get("A_to_B"),
        Some(&TlaValue::Sequence(vec!["m".to_tla_value()]))
    );
    assert_eq!(pair.end.get("A_to_B").unwrap().to_tla_string(), "<<\"m\">>");
}

#[test]
fn scenario_send_then_reply() {
    // after the send, the step receives reply "r" from "B" before
    // finishing; the second pair's start state holds the response
    // buffer as a set
    let mut trace: Vec<ResolvedStatePair> = Vec::new();
    let mut state = log_method_call(scenario_desc(), GlobalState::new());
    log_locals(&mut state, vec![("x".to_string(), 1_u64.to_tla_value())]).unwrap();
    trace.push(
        log_tla_request(
            &mut state,
            Destination::new("B"),
            "m".to_tla_value(),
            GlobalState::new(),
        )
        .unwrap(),
    );
    log_tla_response(&mut state, Destination::new("B"), "r".to_tla_value(), GlobalState::new())
        .unwrap();
    trace.push(log_method_return(&mut state, GlobalState::new()).unwrap());
    assert_eq!(trace.len(), 2);
    let second = &trace[1];
    assert_eq!(
        second.start.get("B_to_A"),
        Some(&TlaValue::SetOf(vec!["r".to_tla_value()]))
    );
    assert_eq!(second.start.get("B_to_A").unwrap().to_tla_string(), "{\"r\"}");
}

#[test]
fn scenario_inner_frame_locals() {
    // an inner call logs a local inside a nested frame; after the
    // return, the composite state includes that local merged with the
    // outer frame's locals, under the outer label alone
    let mut state = log_method_call(scenario_desc(), GlobalState::new());
    log_locals(&mut state, vec![("outer".to_string(), 1_u64.to_tla_value())]).unwrap();
    let before = state.context.get_state();
    log_fn_call(&mut state);
    log_locals(&mut state, vec![("inner".to_string(), 2_u64.to_tla_value())]).unwrap();
    log_fn_return(&mut state).unwrap();
    let after = state.context.get_state();
    assert_eq!(after.label.0, before.label.0);
    assert_eq!(after.label.0, "Start");
    assert_eq!(
        after.locals.0,
        vec![
            ("inner".to_string(), TlaValue::Int(2)),
            ("outer".to_string(), TlaValue::Int(1)),
        ]
    );
}

#[test]
fn call_and_return_leave_composite_unchanged() {
    let mut state = log_method_call(scenario_desc(), GlobalState::new());
    log_locals(&mut state, vec![("v".to_string(), 5_u64.to_tla_value())]).unwrap();
    let before = state.context.get_state();
    log_fn_call(&mut state);
    log_fn_return(&mut state).unwrap();
    let after = state.context.get_state();
    assert_eq!(before.locals, after.locals);
    assert_eq!(before.label.0, after.label.0);
}

#[test]
fn duplicate_local_is_rejected() {
    let mut state = log_method_call(scenario_desc(), GlobalState::new());
    log_locals(&mut state, vec![("x".to_string(), 1_u64.to_tla_value())]).unwrap();
    match log_locals(&mut state, vec![("x".to_string(), 2_u64.to_tla_value())]) {
        Err(TlaError::DuplicateVariable { keys }) => assert_eq!(keys, vec!["x".to_string()]),
        other => panic!("expected DuplicateVariable, got {:?}", other),
    }
}

#[test]
fn receive_without_send_is_a_stage_violation() {
    let mut state = log_method_call(scenario_desc(), GlobalState::new());
    match log_tla_response(
        &mut state,
        Destination::new("B"),
        "r".to_tla_value(),
        GlobalState::new(),
    ) {
        Err(TlaError::StageViolation { attempted, actual }) => {
            assert_eq!(attempted, StageAction::Receive);
            assert_eq!(actual, StageKind::Running);
        }
        other => panic!("expected StageViolation, got {:?}", other),
    }
}

#[test]
fn second_send_without_receive_is_a_stage_violation() {
    let mut state = log_method_call(scenario_desc(), GlobalState::new());
    log_tla_request(&mut state, Destination::new("B"), "m".to_tla_value(), GlobalState::new())
        .unwrap();
    match log_tla_request(
        &mut state,
        Destination::new("B"),
        "m2".to_tla_value(),
        GlobalState::new(),
    ) {
        Err(TlaError::StageViolation { attempted, actual }) => {
            assert_eq!(attempted, StageAction::Send);
            assert_eq!(actual, StageKind::AwaitingReply);
        }
        other => panic!("expected StageViolation, got {:?}", other),
    }
}

#[test]
fn ending_mid_exchange_is_a_stage_violation() {
    let mut state = log_method_call(scenario_desc(), GlobalState::new());
    log_tla_request(&mut state, Destination::new("B"), "m".to_tla_value(), GlobalState::new())
        .unwrap();
    match log_method_return(&mut state, GlobalState::new()) {
        Err(TlaError::StageViolation { attempted, actual }) => {
            assert_eq!(attempted, StageAction::EndStep);
            assert_eq!(actual, StageKind::AwaitingReply);
        }
        other => panic!("expected StageViolation, got {:?}", other),
    }
}

#[test]
fn returning_past_the_stack_underflows() {
    let mut state = log_method_call(scenario_desc(), GlobalState::new());
    // the stack holds only the step's own frame; pop it, then once more
    log_fn_return(&mut state).unwrap();
    match log_fn_return(&mut state) {
        Err(TlaError::StackUnderflow) => {}
        other => panic!("expected StackUnderflow, got {:?}", other),
    }
}

#[test]
fn handle_rejects_operations_outside_a_step() {
    let mut handle = ContextHandle::idle();
    match handle.log_locals(vec![("x".to_string(), 1_u64.to_tla_value())]) {
        Err(TlaError::UninitializedContext) => {}
        other => panic!("expected UninitializedContext, got {:?}", other),
    }
    let mut handle = ContextHandle::begin_step(scenario_desc(), GlobalState::new());
    handle.log_locals(vec![("x".to_string(), 1_u64.to_tla_value())]).unwrap();
    let pair = handle.end_step(GlobalState::new()).unwrap();
    assert!(pair.end.get("x").is_some());
    match handle.end_step(GlobalState::new()) {
        Err(TlaError::UninitializedContext) => {}
        other => panic!("expected UninitializedContext, got {:?}", other),
    }
}

#[test]
fn handle_tracks_calls_and_messages() {
    let mut handle = ContextHandle::begin_step(scenario_desc(), GlobalState::new());
    handle.enter_call().unwrap();
    handle.log_locals(vec![("y".to_string(), 4_u64.to_tla_value())]).unwrap();
    handle.exit_call().unwrap();
    let first = handle
        .send_message(Destination::new("B"), "m".to_tla_value(), GlobalState::new())
        .unwrap();
    assert_eq!(
        first.end.get("A_to_B"),
        Some(&TlaValue::Sequence(vec!["m".to_tla_value()]))
    );
    handle
        .receive_message(Destination::new("B"), "r".to_tla_value(), GlobalState::new())
        .unwrap();
    let mut final_globals = GlobalState::new();
    final_globals.add("g", 1_u64.to_tla_value());
    let last = handle.end_step(final_globals).unwrap();
    assert_eq!(last.end.get("g"), Some(&1_u64.to_tla_value()));
    assert_eq!(
        last.start.get("B_to_A"),
        Some(&TlaValue::SetOf(vec!["r".to_tla_value()]))
    );
}

#[test]
fn idle_handle_rejects_every_operation() {
    let mut handle = ContextHandle::idle();
    assert!(matches!(handle.enter_call(), Err(TlaError::UninitializedContext)));
    assert!(matches!(handle.exit_call(), Err(TlaError::UninitializedContext)));
    assert!(matches!(
        handle.log_globals(GlobalState::new()),
        Err(TlaError::UninitializedContext)
    ));
    assert!(matches!(
        handle.send_message(Destination::new("B"), 1_u64.to_tla_value(), GlobalState::new()),
        Err(TlaError::UninitializedContext)
    ));
    assert!(matches!(
        handle.receive_message(Destination::new("B"), 1_u64.to_tla_value(), GlobalState::new()),
        Err(TlaError::UninitializedContext)
    ));
    assert!(matches!(
        handle.end_step(GlobalState::new()),
        Err(TlaError::UninitializedContext)
    ));
}

#[test]
fn default_end_local_collision_fails_the_step_end() {
    let update = Update {
        default_start_locals: VarAssignment::new(),
        default_end_locals: VarAssignment::new().add("x", 0_u64.to_tla_value()),
        start_label: Label::new("Start"),
        end_label: Label::new("End"),
        process_id: "pid".to_string(),
        canister_name: "A".to_string(),
    };
    let mut state = log_method_call(update, GlobalState::new());
    log_locals(&mut state, vec![("x".to_string(), 1_u64.to_tla_value())]).unwrap();
    match log_method_return(&mut state, GlobalState::new()) {
        Err(TlaError::DuplicateVariable { keys }) => assert_eq!(keys, vec!["x".to_string()]),
        other => panic!("expected DuplicateVariable, got {:?}", other),
    }
}

#[test]
fn global_and_resolved_local_collision_fails_resolution() {
    // a logged global named like a local collides once the local is
    // rewritten into the flat record
    let mut state = log_method_call(scenario_desc(), GlobalState::new());
    log_locals(&mut state, vec![("x".to_string(), 1_u64.to_tla_value())]).unwrap();
    let mut global = GlobalState::new();
    global.add("x", 9_u64.to_tla_value());
    match log_method_return(&mut state, global) {
        Err(TlaError::DuplicateVariable { keys }) => assert_eq!(keys, vec!["x".to_string()]),
        other => panic!("expected DuplicateVariable, got {:?}", other),
    }
}
