//! The session state machine: what the debugger decides at each callback
//! of the execution backend.
//!
//! The backend executes the instrumented module and blocks at every hook
//! until the driver tells it to resume. The engine is the decision in
//! between: it takes the event that the backend reports, updates the
//! session, and says whether the backend resumes or the session pauses.

use crate::debugger::breakpoint::{
    has_target, hit, with_breakpoint, without_breakpoint, BreakpointManager, BreakpointSpec,
    BreakpointView,
};
use crate::debugger::state::{DebugState, RunMode};
use crate::debugger::stepper::{step_boundary, Directive, HookKind, Stepper};
use crate::error::{DebuggerError, ErrorView};
use crate::inspector::stack::CallStackInspector;
use crate::inspector::storage::StorageInspector;
use crate::text::str_eq;
use crate::trace::step::{
    Budget, ExecutionTrace, PayloadView, StepPayload, TraceRecorder,
};
use vstd::prelude::*;
use vstd::string::*;

verus! {

/// What the execution backend reports to the driver.
#[derive(Debug, Clone, PartialEq, Eq)]
pub enum BackendEvent {
    /// Something to record: a hook at a function's entry or exit, a storage
    /// mutation, an emitted event, or a budget sample.
    Observed(StepPayload),
    /// A hook at a block boundary inside a function.
    Block { function: String, offset: u64 },
    /// The entry function returned normally.
    Returned { result: String, budget: Budget },
    /// The backend gave up: the budget is exceeded or the module trapped.
    Faulted { error: DebuggerError, budget: Budget },
}

/// An event as a plain value.
pub enum EventView {
    Observed(PayloadView),
    Block { function: Seq<char>, offset: u64 },
    Returned { result: Seq<char>, budget: Budget },
    Faulted { error: ErrorView, budget: Budget },
}

impl View for BackendEvent {
    type V = EventView;

    open spec fn view(&self) -> EventView {
        match *self {
            BackendEvent::Observed(payload) => EventView::Observed(payload@),
            BackendEvent::Block { function, offset } => EventView::Block {
                function: function@,
                offset,
            },
            BackendEvent::Returned { result, budget } => EventView::Returned {
                result: result@,
                budget,
            },
            BackendEvent::Faulted { error, budget } => EventView::Faulted { error: error@, budget },
        }
    }
}

impl BackendEvent {
    /// A copy of the event.
    pub fn duplicate(&self) -> (copy: Self)
        ensures
            copy@ == self@,
    {
        match self {
            BackendEvent::Observed(payload) => BackendEvent::Observed(payload.duplicate()),
            BackendEvent::Block { function, offset } => BackendEvent::Block {
                function: function.clone(),
                offset: *offset,
            },
            BackendEvent::Returned { result, budget } => BackendEvent::Returned {
                result: result.clone(),
                budget: *budget,
            },
            BackendEvent::Faulted { error, budget } => BackendEvent::Faulted {
                error: error.duplicate(),
                budget: *budget,
            },
        }
    }
}

/// The events as plain values.
pub open spec fn event_views(events: Seq<BackendEvent>) -> Seq<EventView> {
    Seq::new(events.len(), |i: int| events[i]@)
}

/// Why a session paused.
#[derive(Debug, Clone, PartialEq, Eq)]
pub enum PauseReason {
    /// A hook hit this breakpoint.
    Breakpoint(BreakpointSpec),
    /// The step that the directive began is complete.
    StepComplete,
}

/// A pause reason as a plain value.
pub enum PauseView {
    Breakpoint(BreakpointView),
    StepComplete,
}

impl View for PauseReason {
    type V = PauseView;

    open spec fn view(&self) -> PauseView {
        match *self {
            PauseReason::Breakpoint(spec) => PauseView::Breakpoint(spec@),
            PauseReason::StepComplete => PauseView::StepComplete,
        }
    }
}

/// What the driver does after an event.
#[derive(Debug, Clone, PartialEq, Eq)]
pub enum Control {
    /// Let the backend resume at once; the operator sees no pause.
    Resume,
    /// Keep the backend suspended and return to the caller.
    Pause(PauseReason),
    /// The session completed with this result.
    Completed(String),
    /// The session stopped on this fault.
    Faulted(DebuggerError),
}

/// A control decision as a plain value.
pub enum ControlView {
    Resume,
    Pause(PauseView),
    Completed(Seq<char>),
    Faulted(ErrorView),
}

impl View for Control {
    type V = ControlView;

    open spec fn view(&self) -> ControlView {
        match *self {
            Control::Resume => ControlView::Resume,
            Control::Pause(reason) => ControlView::Pause(reason@),
            Control::Completed(result) => ControlView::Completed(result@),
            Control::Faulted(error) => ControlView::Faulted(error@),
        }
    }
}

/// How an advance of the session ended.
#[derive(Debug, Clone, PartialEq, Eq)]
pub enum AdvanceOutcome {
    /// The session paused.
    Paused(PauseReason),
    /// The entry function returned this result.
    Completed(String),
    /// The session stopped on this fault.
    Faulted(DebuggerError),
    /// The events at hand are used up and the session is still running.
    Pending,
}

/// An outcome as a plain value.
pub enum OutcomeView {
    Paused(PauseView),
    Completed(Seq<char>),
    Faulted(ErrorView),
    Pending,
}

impl View for AdvanceOutcome {
    type V = OutcomeView;

    open spec fn view(&self) -> OutcomeView {
        match *self {
            AdvanceOutcome::Paused(reason) => OutcomeView::Paused(reason@),
            AdvanceOutcome::Completed(result) => OutcomeView::Completed(result@),
            AdvanceOutcome::Faulted(error) => OutcomeView::Faulted(error@),
            AdvanceOutcome::Pending => OutcomeView::Pending,
        }
    }
}

/// The fault reported where an exit hook does not match the call stack.
pub open spec fn stack_fault() -> ErrorView {
    ErrorView::ExecutionTrap { message: "function exit without a matching entry"@ }
}

/// A session as a plain value.
pub struct EngineModel {
    /// Where the session stands.
    pub mode: RunMode,
    /// The call stack, outermost frame first.
    pub stack: Seq<Seq<char>>,
    /// The function being executed.
    pub current_function: Option<Seq<char>>,
    /// The number of steps completed.
    pub step_count: nat,
    /// The active directive.
    pub directive: Directive,
    /// The depth at which the active step began.
    pub base_depth: nat,
    /// Whether the session is paused at the entry of the innermost frame.
    pub at_entry: bool,
    /// The breakpoints.
    pub breakpoints: Seq<BreakpointView>,
    /// The snapshot of storage.
    pub storage: Map<Seq<char>, Seq<char>>,
    /// The steps recorded so far.
    pub trace: Seq<PayloadView>,
    /// The resources consumed when the session ended.
    pub final_budget: Budget,
    /// The fault that stopped the session.
    pub fault: Option<ErrorView>,
}

impl EngineModel {
    /// The trace after an attempt to record `payload`.
    pub open spec fn recorded(self, payload: PayloadView) -> Seq<PayloadView> {
        if self.trace.len() < u64::MAX {
            self.trace.push(payload)
        } else {
            self.trace
        }
    }

    /// The step count after one more step.
    pub open spec fn counted(self) -> nat {
        if self.step_count < usize::MAX {
            self.step_count + 1
        } else {
            self.step_count
        }
    }

    /// The depth at which a step begins now. A session paused at the entry
    /// of a function stands at the call, in the caller's frame.
    pub open spec fn settled_depth(self) -> nat {
        if self.mode is Paused && self.at_entry && self.stack.len() > 0 {
            (self.stack.len() - 1) as nat
        } else {
            self.stack.len()
        }
    }

    /// The session after the hook at the entry of `function`, and the
    /// decision: the frame is pushed; the session pauses if a breakpoint is
    /// hit, or if the entry ends the active step.
    pub open spec fn enter(self, function: Seq<char>) -> (EngineModel, ControlView) {
        let entered = EngineModel {
            stack: self.stack.push(function),
            current_function: Some(function),
            trace: self.recorded(PayloadView::FunctionEntry { function }),
            ..self
        };
        match hit(self.breakpoints, function, None) {
            Some(spec) => (
                EngineModel { mode: RunMode::Paused, at_entry: true, ..entered },
                ControlView::Pause(PauseView::Breakpoint(spec)),
            ),
            None => if step_boundary(
                self.directive,
                self.base_depth,
                HookKind::Entry,
                entered.stack.len(),
            ) {
                (
                    EngineModel {
                        mode: RunMode::Paused,
                        at_entry: true,
                        step_count: self.counted(),
                        ..entered
                    },
                    ControlView::Pause(PauseView::StepComplete),
                )
            } else {
                (entered, ControlView::Resume)
            },
        }
    }

    /// The session after the hook at the exit of the innermost frame, and
    /// the decision: the frame is popped; the session pauses if the exit
    /// ends the active step. An exit that does not name the innermost frame
    /// stops the session with a fault.
    pub open spec fn exit(self, payload: PayloadView) -> (EngineModel, ControlView)
        recommends
            payload is FunctionExit,
    {
        let function = payload->FunctionExit_function;
        if self.stack.len() == 0 || self.stack.last() != function {
            (
                EngineModel { mode: RunMode::Stopped, fault: Some(stack_fault()), ..self },
                ControlView::Faulted(stack_fault()),
            )
        } else {
            let left = EngineModel {
                stack: self.stack.drop_last(),
                current_function: if self.stack.len() > 1 {
                    Some(self.stack[self.stack.len() - 2])
                } else {
                    self.current_function
                },
                trace: self.recorded(payload),
                at_entry: false,
                ..self
            };
            if step_boundary(self.directive, self.base_depth, HookKind::Exit, left.stack.len()) {
                (
                    EngineModel { mode: RunMode::Paused, step_count: self.counted(), ..left },
                    ControlView::Pause(PauseView::StepComplete),
                )
            } else {
                (left, ControlView::Resume)
            }
        }
    }

    /// The session after an observation, and the decision.
    pub open spec fn observe(self, payload: PayloadView) -> (EngineModel, ControlView) {
        match payload {
            PayloadView::FunctionEntry { function } => self.enter(function),
            PayloadView::FunctionExit { .. } => self.exit(payload),
            PayloadView::StorageWrite { key, value } => (
                EngineModel {
                    storage: self.storage.insert(key, value),
                    trace: self.recorded(payload),
                    ..self
                },
                ControlView::Resume,
            ),
            _ => (EngineModel { trace: self.recorded(payload), ..self }, ControlView::Resume),
        }
    }

    /// The session after an event of the backend, and the decision. Only a
    /// running session takes events; in any other mode the event is
    /// rejected and nothing changes.
    pub open spec fn handle(self, event: EventView) -> (EngineModel, Result<ControlView, ErrorView>) {
        if !(self.mode is Running) {
            (self, Err(ErrorView::InvalidSessionState))
        } else {
            match event {
                EventView::Observed(payload) => {
                    let (next, control) = self.observe(payload);
                    (next, Ok(control))
                },
                EventView::Block { function, offset } => match hit(
                    self.breakpoints,
                    function,
                    Some(offset),
                ) {
                    Some(spec) => (
                        EngineModel { mode: RunMode::Paused, at_entry: false, ..self },
                        Ok(ControlView::Pause(PauseView::Breakpoint(spec))),
                    ),
                    None => (self, Ok(ControlView::Resume)),
                },
                EventView::Returned { result, budget } => (
                    EngineModel { mode: RunMode::Completed, final_budget: budget, ..self },
                    Ok(ControlView::Completed(result)),
                ),
                EventView::Faulted { error, budget } => (
                    EngineModel {
                        mode: RunMode::Stopped,
                        final_budget: budget,
                        fault: Some(error),
                        ..self
                    },
                    Ok(ControlView::Faulted(error)),
                ),
            }
        }
    }

    /// The session after a directive. A session that has ended rejects it
    /// and does not change; otherwise the directive becomes active at the
    /// depth where the session stands, and the session runs.
    pub open spec fn direct(self, directive: Directive) -> Result<EngineModel, ErrorView> {
        if self.mode.is_terminal() {
            Err(ErrorView::InvalidSessionState)
        } else {
            Ok(
                EngineModel {
                    mode: RunMode::Running,
                    directive,
                    base_depth: self.settled_depth(),
                    at_entry: false,
                    ..self
                },
            )
        }
    }

    /// The session after an abort between two advances: a session that has
    /// not ended is stopped; one that has ended does not change.
    pub open spec fn abort(self) -> EngineModel {
        if self.mode.is_terminal() {
            self
        } else {
            EngineModel { mode: RunMode::Stopped, at_entry: false, ..self }
        }
    }
}

/// Runs a session over the events from position `from`: every event is
/// handled in turn until one pauses or ends the session, or the events are
/// used up. Gives the session afterwards, how the run ended, and the
/// position of the first event not taken.
pub open spec fn run(m: EngineModel, events: Seq<EventView>, from: int) -> (
    EngineModel,
    OutcomeView,
    int,
)
    decreases events.len() - from,
{
    if from < 0 || from >= events.len() {
        (m, OutcomeView::Pending, from)
    } else {
        let (next, decision) = m.handle(events[from]);
        match decision {
            Ok(ControlView::Resume) => run(next, events, from + 1),
            Ok(ControlView::Pause(reason)) => (next, OutcomeView::Paused(reason), from + 1),
            Ok(ControlView::Completed(result)) => (next, OutcomeView::Completed(result), from + 1),
            Ok(ControlView::Faulted(error)) => (next, OutcomeView::Faulted(error), from + 1),
            Err(error) => (next, OutcomeView::Faulted(error), from),
        }
    }
}

/// The view of an optional fault.
pub open spec fn fault_view(fault: Option<DebuggerError>) -> Option<ErrorView> {
    match fault {
        Some(error) => Some(error@),
        None => None,
    }
}

/// A debugging session: its state, call stack, storage snapshot,
/// breakpoints, stepping policy and trace.
pub struct DebuggerEngine {
    state: DebugState,
    stack: CallStackInspector,
    storage: StorageInspector,
    breakpoints: BreakpointManager,
    stepper: Stepper,
    recorder: TraceRecorder,
    at_entry: bool,
    final_budget: Budget,
    fault: Option<DebuggerError>,
}

impl View for DebuggerEngine {
    type V = EngineModel;

    closed spec fn view(&self) -> EngineModel {
        EngineModel {
            mode: self.state.spec_run_mode(),
            stack: self.stack.frames(),
            current_function: self.state.spec_current_function(),
            step_count: self.state.spec_step_count(),
            directive: self.stepper.spec_directive(),
            base_depth: self.stepper.spec_base_depth(),
            at_entry: self.at_entry,
            breakpoints: self.breakpoints@,
            storage: self.storage@,
            trace: self.recorder@,
            final_budget: self.final_budget,
            fault: fault_view(self.fault),
        }
    }
}

impl DebuggerEngine {
    /// The invariant of a session: its parts are well formed, and the trace
    /// is sealed exactly when the session has ended.
    pub closed spec fn well_formed(&self) -> bool {
        &&& self.storage.well_formed()
        &&& self.breakpoints.well_formed()
        &&& self.recorder.well_formed()
        &&& self.recorder.is_sealed() == self.state.spec_run_mode().is_terminal()
    }

    /// Starts a session with the given breakpoints and initial storage. The
    /// session is paused before the first hook and awaits a directive.
    pub fn start(breakpoints: BreakpointManager, initial_storage: StorageInspector) -> (engine: Self)
        requires
            breakpoints.well_formed(),
            initial_storage.well_formed(),
        ensures
            engine.well_formed(),
            engine@ == (EngineModel {
                mode: RunMode::Paused,
                stack: Seq::empty(),
                current_function: None,
                step_count: 0,
                directive: Directive::Continue,
                base_depth: 0,
                at_entry: false,
                breakpoints: breakpoints@,
                storage: initial_storage@,
                trace: Seq::empty(),
                final_budget: Budget { cpu: 0, memory: 0 },
                fault: None,
            }),
    {
        let mut state = DebugState::new();
        state.set_run_mode(RunMode::Paused);
        DebuggerEngine {
            state,
            stack: CallStackInspector::new(),
            storage: initial_storage,
            breakpoints,
            stepper: Stepper::new(),
            recorder: TraceRecorder::new(),
            at_entry: false,
            final_budget: Budget { cpu: 0, memory: 0 },
            fault: None,
        }
    }

    /// The state of the session.
    pub fn state(&self) -> (state: &DebugState)
        ensures
            state.spec_run_mode() == self@.mode,
            state.spec_current_function() == self@.current_function,
            state.spec_step_count() == self@.step_count,
    {
        &self.state
    }

    /// The call stack of the session.
    pub fn call_stack(&self) -> (stack: &CallStackInspector)
        ensures
            stack.frames() == self@.stack,
    {
        &self.stack
    }

    /// The storage snapshot of the session.
    pub fn storage(&self) -> (storage: &StorageInspector)
        requires
            self.well_formed(),
        ensures
            storage.well_formed(),
            storage@ == self@.storage,
    {
        &self.storage
    }

    /// The breakpoints of the session.
    pub fn breakpoints(&self) -> (breakpoints: &BreakpointManager)
        requires
            self.well_formed(),
        ensures
            breakpoints.well_formed(),
            breakpoints@ == self@.breakpoints,
    {
        &self.breakpoints
    }

    /// The mode of the session.
    pub fn mode(&self) -> (mode: RunMode)
        ensures
            mode == self@.mode,
    {
        self.state.run_mode()
    }

    /// Adds a breakpoint between two advances, as `BreakpointManager::add`
    /// does, and returns whether its target is new. While the backend is
    /// executing the set of breakpoints is not changed: a running session
    /// rejects the call with `InvalidSessionState`.
    pub fn add_breakpoint(&mut self, spec: BreakpointSpec) -> (r: Result<bool, DebuggerError>)
        requires
            old(self).well_formed(),
        ensures
            final(self).well_formed(),
            match r {
                Ok(added) => !(old(self)@.mode is Running) && final(self)@ == (EngineModel {
                    breakpoints: with_breakpoint(old(self)@.breakpoints, spec@),
                    ..old(self)@
                }) && added == !has_target(old(self)@.breakpoints, spec@.function, spec@.offset),
                Err(e) => old(self)@.mode is Running && e@ == ErrorView::InvalidSessionState
                    && final(self)@ == old(self)@,
            },
    {
        match self.state.run_mode() {
            RunMode::Running => Err(DebuggerError::InvalidSessionState),
            _ => Ok(self.breakpoints.add(spec)),
        }
    }

    /// Removes a breakpoint between two advances, as
    /// `BreakpointManager::remove` does, and returns whether there was one
    /// with the target of `spec`. A running session rejects the call with
    /// `InvalidSessionState`.
    pub fn remove_breakpoint(&mut self, spec: &BreakpointSpec) -> (r: Result<bool, DebuggerError>)
        requires
            old(self).well_formed(),
        ensures
            final(self).well_formed(),
            match r {
                Ok(removed) => !(old(self)@.mode is Running) && final(self)@ == (EngineModel {
                    breakpoints: without_breakpoint(
                        old(self)@.breakpoints,
                        spec@.function,
                        spec@.offset,
                    ),
                    ..old(self)@
                }) && removed == has_target(old(self)@.breakpoints, spec@.function, spec@.offset),
                Err(e) => old(self)@.mode is Running && e@ == ErrorView::InvalidSessionState
                    && final(self)@ == old(self)@,
            },
    {
        match self.state.run_mode() {
            RunMode::Running => Err(DebuggerError::InvalidSessionState),
            _ => Ok(self.breakpoints.remove(spec)),
        }
    }

    /// Issues a directive. A session that has ended rejects it with
    /// `InvalidSessionState` and does not change.
    pub fn direct(&mut self, directive: Directive) -> (r: Result<(), DebuggerError>)
        requires
            old(self).well_formed(),
        ensures
            final(self).well_formed(),
            match r {
                Ok(()) => old(self)@.direct(directive) == Ok::<EngineModel, ErrorView>(final(self)@),
                Err(e) => old(self)@.direct(directive) == Err::<EngineModel, ErrorView>(e@)
                    && final(self)@ == old(self)@,
            },
    {
        let mode = self.state.run_mode();
        if mode.terminal() {
            return Err(DebuggerError::InvalidSessionState);
        }
        let depth = self.stack.depth();
        let paused = match mode {
            RunMode::Paused => true,
            _ => false,
        };
        let base = if paused && self.at_entry && depth > 0 {
            depth - 1
        } else {
            depth
        };
        self.stepper.begin(directive, base);
        self.state.set_run_mode(RunMode::Running);
        self.at_entry = false;
        Ok(())
    }

    /// Aborts the session between two advances: a session that has not
    /// ended is stopped and its trace sealed.
    pub fn abort(&mut self)
        requires
            old(self).well_formed(),
        ensures
            final(self).well_formed(),
            final(self)@ == old(self)@.abort(),
    {
        if !self.state.run_mode().terminal() {
            self.state.set_run_mode(RunMode::Stopped);
            self.at_entry = false;
            self.recorder.close();
        }
    }

    /// Counts one more completed step.
    fn count_step(&mut self)
        ensures
            final(self).state.spec_step_count() == old(self)@.counted(),
            final(self).state.spec_run_mode() == old(self).state.spec_run_mode(),
            final(self).state.spec_current_function() == old(self).state.spec_current_function(),
            final(self).stack == old(self).stack,
            final(self).storage == old(self).storage,
            final(self).breakpoints == old(self).breakpoints,
            final(self).stepper == old(self).stepper,
            final(self).recorder == old(self).recorder,
            final(self).at_entry == old(self).at_entry,
            final(self).final_budget == old(self).final_budget,
            final(self).fault == old(self).fault,
    {
        if self.state.step_count() < usize::MAX {
            self.state.increment_step();
        }
    }

    /// Takes the hook at the entry of `function`.
    fn on_entry(&mut self, function: String) -> (control: Control)
        requires
            old(self).well_formed(),
            old(self)@.mode is Running,
        ensures
            final(self).well_formed(),
            (final(self)@, control@) == old(self)@.enter(function@),
    {
        let ghost before = self@;
        self.stack.push(function.clone());
        self.state.set_current_function(function.clone());
        let hit = match self.breakpoints.matches(function.as_str(), None) {
            Some(spec) => Some(spec.duplicate()),
            None => None,
        };
        let depth = self.stack.depth();
        let recorded = self.recorder.record(StepPayload::FunctionEntry { function });
        match hit {
            Some(spec) => {
                self.state.set_run_mode(RunMode::Paused);
                self.at_entry = true;
                Control::Pause(PauseReason::Breakpoint(spec))
            },
            None => {
                if self.stepper.boundary_reached(HookKind::Entry, depth) {
                    self.state.set_run_mode(RunMode::Paused);
                    self.at_entry = true;
                    self.count_step();
                    Control::Pause(PauseReason::StepComplete)
                } else {
                    Control::Resume
                }
            },
        }
    }

    /// Takes the hook at the exit of a function.
    fn on_exit(&mut self, payload: StepPayload) -> (control: Control)
        requires
            old(self).well_formed(),
            old(self)@.mode is Running,
            payload is FunctionExit,
        ensures
            final(self).well_formed(),
            (final(self)@, control@) == old(self)@.exit(payload@),
    {
        let consistent = match (&payload, self.stack.peek()) {
            (StepPayload::FunctionExit { function, .. }, Some(top)) => str_eq(
                top,
                function.as_str(),
            ),
            _ => false,
        };
        if !consistent {
            let error = DebuggerError::ExecutionTrap {
                message: String::from_str("function exit without a matching entry"),
            };
            self.state.set_run_mode(RunMode::Stopped);
            self.fault = Some(error.duplicate());
            self.recorder.close();
            return Control::Faulted(error);
        }
        let popped = self.stack.pop();
        match self.stack.peek() {
            Some(caller) => {
                self.state.set_current_function(String::from_str(caller));
            },
            None => {},
        }
        self.at_entry = false;
        let depth = self.stack.depth();
        let recorded = self.recorder.record(payload);
        if self.stepper.boundary_reached(HookKind::Exit, depth) {
            self.state.set_run_mode(RunMode::Paused);
            self.count_step();
            Control::Pause(PauseReason::StepComplete)
        } else {
            Control::Resume
        }
    }

    /// Takes an event of the backend and decides what the driver does
    /// next. Only a running session takes events: in any other mode the
    /// event is rejected with `InvalidSessionState` and nothing changes.
    pub fn handle_event(&mut self, event: BackendEvent) -> (r: Result<Control, DebuggerError>)
        requires
            old(self).well_formed(),
        ensures
            final(self).well_formed(),
            match r {
                Ok(control) => old(self)@.handle(event@) == (
                    final(self)@,
                    Ok::<ControlView, ErrorView>(control@),
                ),
                Err(e) => old(self)@.handle(event@) == (
                    final(self)@,
                    Err::<ControlView, ErrorView>(e@),
                ),
            },
    {
        match self.state.run_mode() {
            RunMode::Running => {},
            _ => {
                return Err(DebuggerError::InvalidSessionState);
            },
        }
        match event {
            BackendEvent::Observed(payload) => {
                match payload {
                    StepPayload::FunctionEntry { function } => Ok(self.on_entry(function)),
                    StepPayload::FunctionExit { .. } => Ok(self.on_exit(payload)),
                    StepPayload::StorageWrite { key, value } => {
                        self.storage.set(key.clone(), value.clone());
                        let recorded = self.recorder.record(
                            StepPayload::StorageWrite { key, value },
                        );
                        Ok(Control::Resume)
                    },
                    other => {
                        let recorded = self.recorder.record(other);
                        Ok(Control::Resume)
                    },
                }
            },
            BackendEvent::Block { function, offset } => {
                let hit = match self.breakpoints.matches(function.as_str(), Some(offset)) {
                    Some(spec) => Some(spec.duplicate()),
                    None => None,
                };
                match hit {
                    Some(spec) => {
                        self.state.set_run_mode(RunMode::Paused);
                        self.at_entry = false;
                        Ok(Control::Pause(PauseReason::Breakpoint(spec)))
                    },
                    None => Ok(Control::Resume),
                }
            },
            BackendEvent::Returned { result, budget } => {
                self.state.set_run_mode(RunMode::Completed);
                self.final_budget = budget;
                self.recorder.close();
                Ok(Control::Completed(result))
            },
            BackendEvent::Faulted { error, budget } => {
                self.state.set_run_mode(RunMode::Stopped);
                self.final_budget = budget;
                self.fault = Some(error.duplicate());
                self.recorder.close();
                Ok(Control::Faulted(error))
            },
        }
    }

    /// Issues a directive and drives the session over the events that the
    /// backend reports, from position `from`, until the session pauses or
    /// ends or the events are used up. Returns how the advance ended and
    /// the position of the first event not taken. A session that has ended
    /// rejects the directive with `InvalidSessionState` and does not change.
    pub fn advance(&mut self, directive: Directive, events: &Vec<BackendEvent>, from: usize) -> (r:
        Result<(AdvanceOutcome, usize), DebuggerError>)
        requires
            old(self).well_formed(),
        ensures
            final(self).well_formed(),
            match r {
                Ok((outcome, next)) => old(self)@.direct(directive) is Ok && run(
                    old(self)@.direct(directive)->Ok_0,
                    event_views(events@),
                    from as int,
                ) == (final(self)@, outcome@, next as int),
                Err(e) => e@ == ErrorView::InvalidSessionState && old(self)@.direct(directive) is Err
                    && final(self)@ == old(self)@,
            },
    {
        match self.direct(directive) {
            Err(e) => {
                return Err(e);
            },
            Ok(()) => {},
        }
        let ghost started = self@;
        let ghost views = event_views(events@);
        let mut i: usize = from;
        while i < events.len()
            invariant
                from <= i,
                old(self)@.direct(directive) == Ok::<EngineModel, ErrorView>(started),
                self.well_formed(),
                self@.mode is Running,
                views == event_views(events@),
                run(started, views, from as int) == run(self@, views, i as int),
            decreases events.len() - i,
        {
            let ghost before = self@;
            assert(views[i as int] == events@[i as int]@);
            let decision = self.handle_event(events[i].duplicate());
            i += 1;
            match decision {
                Ok(Control::Resume) => {},
                Ok(Control::Pause(reason)) => {
                    return Ok((AdvanceOutcome::Paused(reason), i));
                },
                Ok(Control::Completed(result)) => {
                    return Ok((AdvanceOutcome::Completed(result), i));
                },
                Ok(Control::Faulted(error)) => {
                    return Ok((AdvanceOutcome::Faulted(error), i));
                },
                Err(error) => {
                    return Ok((AdvanceOutcome::Faulted(error), (i - 1) as usize));
                },
            }
        }
        Ok((AdvanceOutcome::Pending, i))
    }

    /// Ends the use of the session and hands out its trace: the sealed
    /// trace where the session has ended, `None` where it has not.
    pub fn into_trace(self) -> (trace: Option<ExecutionTrace>)
        requires
            self.well_formed(),
        ensures
            match trace {
                Some(t) => self@.mode.is_terminal() && t.well_formed() && t@ == self@.trace
                    && t.spec_summary().final_budget == self@.final_budget && fault_view(
                    t.spec_summary().fault,
                ) == self@.fault,
                None => !self@.mode.is_terminal(),
            },
    {
        if self.state.run_mode().terminal() {
            Some(self.recorder.seal(self.final_budget, self.fault))
        } else {
            None
        }
    }
}

} // verus!
