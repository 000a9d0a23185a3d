use soroban_debugger::debugger::breakpoint::{BreakpointManager, BreakpointSpec};
use soroban_debugger::debugger::engine::{
    AdvanceOutcome, BackendEvent, Control, DebuggerEngine, PauseReason,
};
use soroban_debugger::debugger::state::{DebugState, RunMode};
use soroban_debugger::debugger::stepper::{Directive, HookKind, Stepper};
use soroban_debugger::error::DebuggerError;
use soroban_debugger::inspector::storage::StorageInspector;
use soroban_debugger::trace::step::{Budget, StepPayload};

fn enter(name: &str) -> BackendEvent {
    BackendEvent::Observed(StepPayload::FunctionEntry { function: name.to_string() })
}

fn exit(name: &str) -> BackendEvent {
    BackendEvent::Observed(StepPayload::FunctionExit {
        function: name.to_string(),
        value: None,
        budget: None,
    })
}

fn returned(result: &str) -> BackendEvent {
    BackendEvent::Returned { result: result.to_string(), budget: Budget { cpu: 10, memory: 20 } }
}

fn breakpoints(names: &[&str]) -> BreakpointManager {
    let mut manager = BreakpointManager::new();
    for name in names {
        manager.add(BreakpointSpec::at_function(name.to_string()));
    }
    manager
}

fn stack_of(engine: &DebuggerEngine) -> Vec<String> {
    engine.call_stack().get_stack().to_vec()
}

fn chain() -> Vec<BackendEvent> {
    vec![
        enter("A"),
        enter("B"),
        enter("C"),
        exit("C"),
        exit("B"),
        exit("A"),
        returned("done"),
    ]
}

#[test]
fn step_over_at_entry_of_b_pauses_when_b_returns() {
    let events = chain();
    let mut engine = DebuggerEngine::start(breakpoints(&["B"]), StorageInspector::new());
    let (outcome, next) = engine.advance(Directive::Continue, &events, 0).unwrap();
    assert_eq!(
        outcome,
        AdvanceOutcome::Paused(PauseReason::Breakpoint(BreakpointSpec::at_function(
            "B".to_string()
        )))
    );
    assert_eq!(next, 2);
    assert_eq!(stack_of(&engine), vec!["A".to_string(), "B".to_string()]);
    assert_eq!(engine.state().step_count(), 0);

    let (outcome, next) = engine.advance(Directive::StepOver, &events, next).unwrap();
    assert_eq!(outcome, AdvanceOutcome::Paused(PauseReason::StepComplete));
    // The exit of B is event number 4: the entry and exit of C were passed.
    assert_eq!(next, 5);
    assert_eq!(stack_of(&engine), vec!["A".to_string()]);
    assert_eq!(engine.state().current_function(), Some("A"));
    assert_eq!(engine.state().step_count(), 1);
    assert_eq!(engine.mode(), RunMode::Paused);

    let (outcome, next) = engine.advance(Directive::Continue, &events, next).unwrap();
    assert_eq!(outcome, AdvanceOutcome::Completed("done".to_string()));
    assert_eq!(next, 7);
    assert_eq!(engine.mode(), RunMode::Completed);
}

#[test]
fn step_into_pauses_at_the_very_next_hook() {
    let events = chain();
    let mut engine = DebuggerEngine::start(BreakpointManager::new(), StorageInspector::new());
    let mut next = 0;
    let mut seen = Vec::new();
    for _ in 0..6 {
        let (outcome, after) = engine.advance(Directive::StepInto, &events, next).unwrap();
        assert_eq!(outcome, AdvanceOutcome::Paused(PauseReason::StepComplete));
        assert_eq!(after, next + 1);
        seen.push(engine.call_stack().depth());
        next = after;
    }
    assert_eq!(seen, vec![1, 2, 3, 2, 1, 0]);
    assert_eq!(engine.state().step_count(), 6);
    let (outcome, _) = engine.advance(Directive::StepInto, &events, next).unwrap();
    assert_eq!(outcome, AdvanceOutcome::Completed("done".to_string()));
}

#[test]
fn step_out_pauses_at_the_next_exit_below_the_starting_depth() {
    let events = chain();
    let mut engine = DebuggerEngine::start(breakpoints(&["C"]), StorageInspector::new());
    let (outcome, next) = engine.advance(Directive::Continue, &events, 0).unwrap();
    assert!(matches!(outcome, AdvanceOutcome::Paused(PauseReason::Breakpoint(_))));
    assert_eq!(next, 3);
    // Paused at the entry of C, the session stands in B at depth 2: the
    // exit of C returns to depth 2, the exit of B to depth 1.
    let (outcome, next) = engine.advance(Directive::StepOut, &events, next).unwrap();
    assert_eq!(outcome, AdvanceOutcome::Paused(PauseReason::StepComplete));
    assert_eq!(next, 5);
    assert_eq!(stack_of(&engine), vec!["A".to_string()]);
}

#[test]
fn step_over_from_the_start_runs_the_whole_call() {
    let events = chain();
    let mut engine = DebuggerEngine::start(BreakpointManager::new(), StorageInspector::new());
    let (outcome, next) = engine.advance(Directive::StepOver, &events, 0).unwrap();
    assert_eq!(outcome, AdvanceOutcome::Paused(PauseReason::StepComplete));
    assert_eq!(next, 6);
    assert_eq!(engine.call_stack().depth(), 0);
}

#[test]
fn breakpoint_on_b_pauses_on_every_call_of_b_and_on_no_other() {
    let mut events = Vec::new();
    let calls = ["A", "B", "C", "B", "B", "D", "A", "B"];
    for name in calls {
        events.push(enter(name));
        events.push(exit(name));
    }
    events.push(returned("ok"));
    let mut engine = DebuggerEngine::start(breakpoints(&["B"]), StorageInspector::new());
    let mut next = 0;
    let mut pauses = Vec::new();
    loop {
        let (outcome, after) = engine.advance(Directive::Continue, &events, next).unwrap();
        match outcome {
            AdvanceOutcome::Paused(PauseReason::Breakpoint(spec)) => {
                assert_eq!(spec.function, "B");
                assert_eq!(engine.state().current_function(), Some("B"));
                pauses.push(after - 1);
            }
            AdvanceOutcome::Completed(result) => {
                assert_eq!(result, "ok");
                break;
            }
            other => panic!("unexpected outcome {:?}", other),
        }
        next = after;
    }
    // The entries of B are the events 2, 6, 8 and 14.
    assert_eq!(pauses, vec![2, 6, 8, 14]);
    assert_eq!(engine.state().step_count(), 0);
}

#[test]
fn disabled_breakpoint_never_pauses() {
    let mut manager = BreakpointManager::new();
    manager.add(BreakpointSpec {
        function: "B".to_string(),
        offset: None,
        enabled: false,
        hit_count: None,
    });
    let mut engine = DebuggerEngine::start(manager, StorageInspector::new());
    let (outcome, _) = engine.advance(Directive::Continue, &chain(), 0).unwrap();
    assert_eq!(outcome, AdvanceOutcome::Completed("done".to_string()));
}

#[test]
fn offset_breakpoint_pauses_at_its_block_only() {
    let mut manager = BreakpointManager::new();
    manager.add(BreakpointSpec::at_offset("A".to_string(), 12));
    let events = vec![
        enter("A"),
        BackendEvent::Block { function: "A".to_string(), offset: 4 },
        BackendEvent::Block { function: "B".to_string(), offset: 12 },
        BackendEvent::Block { function: "A".to_string(), offset: 12 },
        exit("A"),
        returned(""),
    ];
    let mut engine = DebuggerEngine::start(manager, StorageInspector::new());
    let (outcome, next) = engine.advance(Directive::Continue, &events, 0).unwrap();
    assert_eq!(
        outcome,
        AdvanceOutcome::Paused(PauseReason::Breakpoint(BreakpointSpec::at_offset(
            "A".to_string(),
            12
        )))
    );
    assert_eq!(next, 4);
}

#[test]
fn increment_scenario_pauses_at_breakpoint_then_completes() {
    let mut storage = StorageInspector::new();
    storage.set("count".to_string(), "0".to_string());
    let events = vec![
        enter("increment"),
        BackendEvent::Observed(StepPayload::StorageWrite {
            key: "count".to_string(),
            value: "1".to_string(),
        }),
        exit("increment"),
        returned("1"),
    ];
    let mut engine = DebuggerEngine::start(breakpoints(&["increment"]), storage);
    assert_eq!(engine.mode(), RunMode::Paused);
    let (outcome, next) = engine.advance(Directive::Continue, &events, 0).unwrap();
    assert_eq!(
        outcome,
        AdvanceOutcome::Paused(PauseReason::Breakpoint(BreakpointSpec::at_function(
            "increment".to_string()
        )))
    );
    assert_eq!(engine.state().step_count(), 0);
    assert_eq!(engine.storage().get("count"), Some(&"0".to_string()));

    let (outcome, _) = engine.advance(Directive::Continue, &events, next).unwrap();
    assert_eq!(outcome, AdvanceOutcome::Completed("1".to_string()));
    assert_eq!(engine.storage().keys(), &vec!["count".to_string()]);
    assert_eq!(engine.storage().get_all().len(), 1);
    assert_eq!(engine.storage().get("count"), Some(&"1".to_string()));
    assert_eq!(engine.mode(), RunMode::Completed);

    let trace = engine.into_trace().unwrap();
    assert_eq!(trace.len(), 3);
    assert_eq!(trace.steps()[0].seq, 0);
    assert_eq!(trace.steps()[2].seq, 2);
    assert_eq!(trace.summary().functions_visited, vec!["increment".to_string()]);
    assert_eq!(trace.summary().final_budget, Budget { cpu: 10, memory: 20 });
    assert_eq!(trace.summary().fault, None);
}

#[test]
fn directive_in_terminal_state_is_rejected_without_side_effects() {
    let events = chain();
    let mut engine = DebuggerEngine::start(BreakpointManager::new(), StorageInspector::new());
    let (outcome, _) = engine.advance(Directive::Continue, &events, 0).unwrap();
    assert_eq!(outcome, AdvanceOutcome::Completed("done".to_string()));
    assert_eq!(engine.direct(Directive::Continue), Err(DebuggerError::InvalidSessionState));
    assert_eq!(
        engine.advance(Directive::StepInto, &events, 0),
        Err(DebuggerError::InvalidSessionState)
    );
    assert_eq!(engine.mode(), RunMode::Completed);
    assert_eq!(engine.state().step_count(), 0);
    assert_eq!(engine.handle_event(enter("A")), Err(DebuggerError::InvalidSessionState));
    assert_eq!(engine.call_stack().depth(), 0);
}

#[test]
fn event_while_paused_is_rejected() {
    let mut engine = DebuggerEngine::start(BreakpointManager::new(), StorageInspector::new());
    assert_eq!(engine.handle_event(enter("A")), Err(DebuggerError::InvalidSessionState));
    assert_eq!(engine.direct(Directive::Continue), Ok(()));
    assert_eq!(engine.mode(), RunMode::Running);
    assert_eq!(engine.handle_event(enter("A")), Ok(Control::Resume));
}

#[test]
fn backend_fault_stops_the_session_and_seals_the_trace() {
    let events = vec![
        enter("A"),
        BackendEvent::Faulted {
            error: DebuggerError::BudgetExceeded,
            budget: Budget { cpu: 100, memory: 5 },
        },
        exit("A"),
    ];
    let mut engine = DebuggerEngine::start(BreakpointManager::new(), StorageInspector::new());
    let (outcome, next) = engine.advance(Directive::Continue, &events, 0).unwrap();
    assert_eq!(outcome, AdvanceOutcome::Faulted(DebuggerError::BudgetExceeded));
    assert_eq!(next, 2);
    assert_eq!(engine.mode(), RunMode::Stopped);
    let trace = engine.into_trace().unwrap();
    assert_eq!(trace.len(), 1);
    assert_eq!(trace.summary().fault, Some(DebuggerError::BudgetExceeded));
    assert_eq!(trace.summary().final_budget, Budget { cpu: 100, memory: 5 });
}

#[test]
fn exit_without_entry_is_reported() {
    let mut engine = DebuggerEngine::start(BreakpointManager::new(), StorageInspector::new());
    let (outcome, next) = engine.advance(Directive::Continue, &vec![exit("A")], 0).unwrap();
    assert_eq!(
        outcome,
        AdvanceOutcome::Faulted(DebuggerError::ExecutionTrap {
            message: "function exit without a matching entry".to_string()
        })
    );
    assert_eq!(next, 1);
    assert_eq!(engine.mode(), RunMode::Stopped);

    let mut engine = DebuggerEngine::start(BreakpointManager::new(), StorageInspector::new());
    let (outcome, _) =
        engine.advance(Directive::Continue, &vec![enter("A"), exit("B")], 0).unwrap();
    assert!(matches!(outcome, AdvanceOutcome::Faulted(DebuggerError::ExecutionTrap { .. })));
}

#[test]
fn abort_stops_a_paused_session() {
    let events = chain();
    let mut engine = DebuggerEngine::start(breakpoints(&["B"]), StorageInspector::new());
    let _ = engine.advance(Directive::Continue, &events, 0).unwrap();
    engine.abort();
    assert_eq!(engine.mode(), RunMode::Stopped);
    assert_eq!(engine.direct(Directive::Continue), Err(DebuggerError::InvalidSessionState));
    let trace = engine.into_trace().unwrap();
    assert_eq!(trace.len(), 2);
    assert_eq!(trace.summary().fault, None);
}

#[test]
fn events_used_up_leave_the_session_running() {
    let mut engine = DebuggerEngine::start(BreakpointManager::new(), StorageInspector::new());
    let (outcome, next) = engine.advance(Directive::Continue, &vec![enter("A")], 0).unwrap();
    assert_eq!(outcome, AdvanceOutcome::Pending);
    assert_eq!(next, 1);
    assert_eq!(engine.mode(), RunMode::Running);
    assert!(engine.into_trace().is_none());
}

#[test]
fn stepper_boundaries() {
    let mut stepper = Stepper::new();
    assert_eq!(stepper.directive(), Directive::Continue);
    assert!(!stepper.boundary_reached(HookKind::Entry, 1));
    assert!(!stepper.boundary_reached(HookKind::Exit, 0));
    stepper.begin(Directive::StepInto, 3);
    assert!(stepper.boundary_reached(HookKind::Entry, 4));
    assert!(stepper.boundary_reached(HookKind::Exit, 2));
    stepper.begin(Directive::StepOver, 3);
    assert_eq!(stepper.base_depth(), 3);
    assert!(!stepper.boundary_reached(HookKind::Entry, 3));
    assert!(stepper.boundary_reached(HookKind::Exit, 3));
    assert!(!stepper.boundary_reached(HookKind::Exit, 4));
    assert!(!stepper.boundary_reached(HookKind::Exit, 2));
    stepper.begin(Directive::StepOut, 3);
    assert!(!stepper.boundary_reached(HookKind::Exit, 3));
    assert!(stepper.boundary_reached(HookKind::Exit, 2));
    assert!(!stepper.boundary_reached(HookKind::Entry, 2));
    assert_eq!(Stepper::default(), Stepper::new());
}

#[test]
fn debug_state_counts_and_resets() {
    let mut state = DebugState::new();
    assert_eq!(state.current_function(), None);
    assert_eq!(state.step_count(), 0);
    assert_eq!(state.run_mode(), RunMode::Running);
    state.set_current_function("transfer".to_string());
    state.increment_step();
    state.increment_step();
    state.set_run_mode(RunMode::Paused);
    assert_eq!(state.current_function(), Some("transfer"));
    assert_eq!(state.step_count(), 2);
    assert_eq!(state.run_mode(), RunMode::Paused);
    assert!(!state.run_mode().terminal());
    assert!(RunMode::Stopped.terminal());
    assert!(RunMode::Completed.terminal());
    state.reset();
    assert_eq!(state.current_function(), None);
    assert_eq!(state.step_count(), 0);
    assert_eq!(state.run_mode(), RunMode::Running);
    assert_eq!(DebugState::default().step_count(), 0);
}

#[test]
fn breakpoint_manager_add_remove_matches() {
    let mut manager = BreakpointManager::new();
    assert!(manager.add(BreakpointSpec::at_function("f".to_string())));
    assert!(manager.add(BreakpointSpec::at_offset("f".to_string(), 8)));
    assert!(manager.add(BreakpointSpec::at_function("g".to_string())));
    assert_eq!(manager.len(), 3);
    assert_eq!(manager.matches("f", None), Some(&BreakpointSpec::at_function("f".to_string())));
    assert_eq!(
        manager.matches("f", Some(8)),
        Some(&BreakpointSpec::at_offset("f".to_string(), 8))
    );
    assert_eq!(manager.matches("f", Some(9)), None);
    assert_eq!(manager.matches("F", None), None);
    assert_eq!(manager.matches("fg", None), None);
    assert_eq!(manager.matches("h", None), None);

    // Adding the same target again replaces the attributes in place.
    let disabled = BreakpointSpec {
        function: "f".to_string(),
        offset: None,
        enabled: false,
        hit_count: Some(3),
    };
    assert!(!manager.add(disabled.clone()));
    assert_eq!(manager.len(), 3);
    assert_eq!(manager.list()[0], disabled);
    assert_eq!(manager.matches("f", None), None);

    assert!(manager.remove(&BreakpointSpec::at_function("f".to_string())));
    assert!(!manager.remove(&BreakpointSpec::at_function("f".to_string())));
    assert_eq!(manager.len(), 2);
    assert_eq!(manager.matches("g", None), Some(&BreakpointSpec::at_function("g".to_string())));
    assert_eq!(BreakpointManager::default().len(), 0);
}

#[test]
fn unresolved_breakpoints_are_listed() {
    let manager = breakpoints(&["run", "missing", "stop", "gone"]);
    let functions = vec!["stop".to_string(), "run".to_string()];
    assert_eq!(manager.unresolved(&functions), vec!["missing".to_string(), "gone".to_string()]);
    assert_eq!(manager.unresolved(&Vec::new()).len(), 4);
    assert_eq!(
        manager.resolve(&functions),
        vec![
            DebuggerError::BreakpointResolutionFailure { function: "missing".to_string() },
            DebuggerError::BreakpointResolutionFailure { function: "gone".to_string() },
        ]
    );
    assert!(manager.resolve(&vec!["gone".to_string(), "missing".to_string(), "run".to_string(), "stop".to_string()]).is_empty());
    assert!(!DebuggerError::BreakpointResolutionFailure { function: "gone".to_string() }.fatal());
    assert!(DebuggerError::InvalidSessionState.fatal());
}

#[test]
fn breakpoints_change_between_advances_only() {
    let events = vec![enter("A"), exit("A"), enter("B"), exit("B"), returned("ok")];
    let mut engine = DebuggerEngine::start(breakpoints(&["A"]), StorageInspector::new());
    assert_eq!(engine.add_breakpoint(BreakpointSpec::at_function("B".to_string())), Ok(true));
    assert_eq!(engine.add_breakpoint(BreakpointSpec::at_function("B".to_string())), Ok(false));
    assert_eq!(engine.breakpoints().len(), 2);
    let (outcome, next) = engine.advance(Directive::Continue, &events, 0).unwrap();
    assert!(matches!(outcome, AdvanceOutcome::Paused(PauseReason::Breakpoint(_))));
    assert_eq!(next, 1);
    // Paused at A: the breakpoint on B is taken away before B is called.
    assert_eq!(engine.remove_breakpoint(&BreakpointSpec::at_function("B".to_string())), Ok(true));
    assert_eq!(engine.remove_breakpoint(&BreakpointSpec::at_function("B".to_string())), Ok(false));
    let (outcome, _) = engine.advance(Directive::Continue, &events, next).unwrap();
    assert_eq!(outcome, AdvanceOutcome::Completed("ok".to_string()));

    // While the backend executes, the set is not changed.
    let mut engine = DebuggerEngine::start(BreakpointManager::new(), StorageInspector::new());
    assert_eq!(engine.direct(Directive::Continue), Ok(()));
    assert_eq!(
        engine.add_breakpoint(BreakpointSpec::at_function("A".to_string())),
        Err(DebuggerError::InvalidSessionState)
    );
    assert_eq!(
        engine.remove_breakpoint(&BreakpointSpec::at_function("A".to_string())),
        Err(DebuggerError::InvalidSessionState)
    );
    assert_eq!(engine.breakpoints().len(), 0);
}

#[test]
fn faults_in_words() {
    assert_eq!(
        DebuggerError::MalformedModule { message: "bad magic".to_string(), offset: 12 }.message(),
        "malformed module: bad magic (at offset 12)"
    );
    assert_eq!(
        DebuggerError::UnsupportedConstruct { reason: "no functions".to_string() }.message(),
        "unsupported construct: no functions"
    );
    assert_eq!(DebuggerError::InvalidSessionState.message(), "invalid session state");
    assert_eq!(DebuggerError::BudgetExceeded.message(), "resource budget exceeded");
    assert_eq!(
        DebuggerError::ExecutionTrap { message: "unreachable".to_string() }.message(),
        "execution trap: unreachable"
    );
    assert_eq!(
        DebuggerError::BreakpointResolutionFailure { function: "gone".to_string() }.message(),
        "breakpoint on a function that is not exported: gone"
    );
    let fault = DebuggerError::BudgetExceeded;
    assert_eq!(fault.duplicate(), fault);
}
