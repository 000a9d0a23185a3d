//! What holds of every session: when breakpoints pause it, and where a
//! step over a call ends.

use crate::debugger::breakpoint::{hit, BreakpointView};
use crate::debugger::engine::{run, ControlView, EngineModel, EventView, OutcomeView, PauseView};
use crate::debugger::stepper::Directive;
use crate::trace::step::PayloadView;
use vstd::prelude::*;

verus! {

/// Whether the events from `from` up to `to` all happen inside the
/// innermost frame of `stack` or deeper: they are observations or block
/// hooks, every exit names the frame it leaves, and no exit leaves a
/// frame at depth `floor` or above it.
pub open spec fn inside_call(
    stack: Seq<Seq<char>>,
    events: Seq<EventView>,
    from: int,
    to: int,
    floor: nat,
) -> bool
    decreases to - from,
{
    if from >= to {
        true
    } else {
        match events[from] {
            EventView::Observed(PayloadView::FunctionEntry { function }) => inside_call(
                stack.push(function),
                events,
                from + 1,
                to,
                floor,
            ),
            EventView::Observed(PayloadView::FunctionExit { function, .. }) => stack.len() > floor
                && stack.last() == function && inside_call(
                stack.drop_last(),
                events,
                from + 1,
                to,
                floor,
            ),
            EventView::Observed(_) => inside_call(stack, events, from + 1, to, floor),
            EventView::Block { .. } => inside_call(stack, events, from + 1, to, floor),
            _ => false,
        }
    }
}

/// The call stack after the entries and exits among the events from `from`
/// up to `to`.
pub open spec fn stack_after(stack: Seq<Seq<char>>, events: Seq<EventView>, from: int, to: int) -> Seq<
    Seq<char>,
>
    decreases to - from,
{
    if from >= to {
        stack
    } else {
        match events[from] {
            EventView::Observed(PayloadView::FunctionEntry { function }) => stack_after(
                stack.push(function),
                events,
                from + 1,
                to,
            ),
            EventView::Observed(PayloadView::FunctionExit { .. }) => stack_after(
                stack.drop_last(),
                events,
                from + 1,
                to,
            ),
            _ => stack_after(stack, events, from + 1, to),
        }
    }
}

/// Whether no hook can hit a breakpoint of `specs`.
pub open spec fn none_enabled(specs: Seq<BreakpointView>) -> bool {
    forall|i: int| 0 <= i < specs.len() ==> !(#[trigger] specs[i]).enabled
}

/// Without an enabled breakpoint no hook is a hit.
pub proof fn lemma_none_enabled_never_hit(
    specs: Seq<BreakpointView>,
    function: Seq<char>,
    offset: Option<u64>,
)
    requires
        none_enabled(specs),
    ensures
        hit(specs, function, offset) is None,
{
}

/// A breakpoint pauses the session at every entry that hits it, whatever
/// the directive; while the session continues, nothing else pauses it at
/// an entry. The breakpoint reported names the function entered.
pub proof fn lemma_breakpoint_exactness(m: EngineModel, function: Seq<char>)
    requires
        m.mode is Running,
    ensures
        (exists|i: int|
            0 <= i < m.breakpoints.len() && (#[trigger] m.breakpoints[i]).hit_by(function, None))
            ==> m.enter(function).0.mode is Paused && (m.enter(function).1 matches ControlView::Pause(
            PauseView::Breakpoint(spec),
        ) && spec.function == function && spec.offset is None && spec.enabled),
        m.directive is Continue && !(exists|i: int|
            0 <= i < m.breakpoints.len() && (#[trigger] m.breakpoints[i]).hit_by(function, None))
            ==> m.enter(function).1 is Resume && m.enter(function).0.mode is Running,
{
    if exists|i: int|
        0 <= i < m.breakpoints.len() && (#[trigger] m.breakpoints[i]).hit_by(function, None) {
        let i = choose|i: int|
            0 <= i < m.breakpoints.len() && (#[trigger] m.breakpoints[i]).hit_by(function, None);
        assert(m.breakpoints[i].hit_by(function, None));
    }
}

/// With one enabled breakpoint, at the entry of `target`, a continuing
/// session pauses at the entry of a function if and only if the function
/// is `target`: at every call of it, and at no call of another function.
pub proof fn lemma_single_breakpoint(m: EngineModel, target: Seq<char>, function: Seq<char>)
    requires
        m.mode is Running,
        m.directive is Continue,
        m.breakpoints.len() == 1,
        m.breakpoints[0].function == target,
        m.breakpoints[0].offset is None,
        m.breakpoints[0].enabled,
    ensures
        m.enter(function).1 is Pause <==> function == target,
        function == target ==> m.enter(function).1 == ControlView::Pause(
            PauseView::Breakpoint(m.breakpoints[0]),
        ),
        function != target ==> m.enter(function).1 is Resume,
{
    if function == target {
        assert(m.breakpoints[0].hit_by(function, None));
        let i = choose|i: int|
            0 <= i < m.breakpoints.len() && (#[trigger] m.breakpoints[i]).hit_by(function, None);
        assert(i == 0);
    }
}

/// Whether no exit that leaves the stack at `floor` frames or more ends
/// the step that `directive` began at depth `base`.
pub open spec fn passes_over(directive: Directive, base: nat, floor: nat) -> bool {
    match directive {
        Directive::Continue => true,
        Directive::StepOver => floor > base,
        Directive::StepOut => floor >= base,
        Directive::StepInto => false,
    }
}

/// Handling events inside a call never pauses a session whose step does
/// not end there: the run goes on with the event after them.
proof fn lemma_run_inside_call(
    m: EngineModel,
    events: Seq<EventView>,
    from: int,
    to: int,
    floor: nat,
)
    requires
        m.mode is Running,
        passes_over(m.directive, m.base_depth, floor),
        none_enabled(m.breakpoints),
        0 <= from <= to <= events.len(),
        inside_call(m.stack, events, from, to, floor),
    ensures
        ({
            let after = run_through(m, events, from, to);
            &&& run(m, events, from) == run(after, events, to)
            &&& after.mode is Running
            &&& after.directive == m.directive
            &&& after.base_depth == m.base_depth
            &&& after.breakpoints == m.breakpoints
            &&& after.step_count == m.step_count
            &&& after.stack == stack_after(m.stack, events, from, to)
        }),
    decreases to - from,
{
    if from < to {
        let (next, decision) = m.handle(events[from]);
        match events[from] {
            EventView::Observed(PayloadView::FunctionEntry { function }) => {
                lemma_none_enabled_never_hit(m.breakpoints, function, None);
            },
            EventView::Block { function, offset } => {
                lemma_none_enabled_never_hit(m.breakpoints, function, Some(offset));
            },
            _ => {},
        }
        assert(decision == Ok::<ControlView, crate::error::ErrorView>(ControlView::Resume));
        lemma_run_inside_call(next, events, from + 1, to, floor);
    }
}

/// The session after handling the events from `from` up to `to`.
pub open spec fn run_through(m: EngineModel, events: Seq<EventView>, from: int, to: int) -> EngineModel
    decreases to - from,
{
    if from >= to {
        m
    } else {
        run_through(m.handle(events[from]).0, events, from + 1, to)
    }
}

/// Stepping over a call ends when the call returns, never inside it.
///
/// The session `paused` stands at the entry of the function on top of its
/// stack, and no breakpoint is enabled. Let the events from `from` up to
/// `end` happen inside that call, with every deeper call returned, and let
/// the event at `end` be the exit of the call. Then the advance with
/// `StepOver` takes all these events, pauses at the exit with
/// `StepComplete`, and leaves the stack as it was before the call: at the
/// depth of the caller.
pub proof fn lemma_step_over_ends_at_return(
    paused: EngineModel,
    events: Seq<EventView>,
    from: int,
    end: int,
)
    requires
        paused.mode is Paused,
        paused.at_entry,
        paused.stack.len() > 0,
        none_enabled(paused.breakpoints),
        0 <= from <= end < events.len(),
        inside_call(paused.stack, events, from, end, paused.stack.len()),
        stack_after(paused.stack, events, from, end) == paused.stack,
        (events[end] matches EventView::Observed(PayloadView::FunctionExit { function, .. })
            && function == paused.stack.last()),
    ensures
        paused.direct(Directive::StepOver) is Ok,
        ({
            let (after, outcome, next) = run(
                paused.direct(Directive::StepOver)->Ok_0,
                events,
                from,
            );
            &&& outcome == OutcomeView::Paused(PauseView::StepComplete)
            &&& next == end + 1
            &&& after.mode is Paused
            &&& after.stack == paused.stack.drop_last()
            &&& after.step_count == paused.counted()
        }),
{
    let m = paused.direct(Directive::StepOver)->Ok_0;
    assert(m.base_depth + 1 == paused.stack.len());
    lemma_run_inside_call(m, events, from, end, paused.stack.len());
    let inner = run_through(m, events, from, end);
    assert(run(m, events, from) == run(inner, events, end));
    assert(inner.stack == paused.stack);
    let (last, decision) = inner.handle(events[end]);
    assert(decision == Ok::<ControlView, crate::error::ErrorView>(
        ControlView::Pause(PauseView::StepComplete),
    ));
}

/// Stepping out ends when the function returns in which the session
/// stands, not before.
///
/// The session `session` has not ended, its stack is not empty, it does
/// not stand at an entry, and no breakpoint is enabled. Let the events
/// from `from` up to `end` happen in the innermost frame or deeper, with
/// every deeper call returned, and let the event at `end` be the exit of
/// the innermost frame. Then the advance with `StepOut` takes all these
/// events and pauses at that exit with `StepComplete`.
pub proof fn lemma_step_out_ends_at_return(
    session: EngineModel,
    events: Seq<EventView>,
    from: int,
    end: int,
)
    requires
        !session.mode.is_terminal(),
        !session.at_entry,
        session.stack.len() > 0,
        none_enabled(session.breakpoints),
        0 <= from <= end < events.len(),
        inside_call(session.stack, events, from, end, session.stack.len()),
        stack_after(session.stack, events, from, end) == session.stack,
        (events[end] matches EventView::Observed(PayloadView::FunctionExit { function, .. })
            && function == session.stack.last()),
    ensures
        session.direct(Directive::StepOut) is Ok,
        ({
            let (after, outcome, next) = run(
                session.direct(Directive::StepOut)->Ok_0,
                events,
                from,
            );
            &&& outcome == OutcomeView::Paused(PauseView::StepComplete)
            &&& next == end + 1
            &&& after.mode is Paused
            &&& after.stack == session.stack.drop_last()
            &&& after.step_count == session.counted()
        }),
{
    let m = session.direct(Directive::StepOut)->Ok_0;
    assert(m.base_depth == session.stack.len());
    lemma_run_inside_call(m, events, from, end, session.stack.len());
    let inner = run_through(m, events, from, end);
    assert(run(m, events, from) == run(inner, events, end));
    let (last, decision) = inner.handle(events[end]);
    assert(decision == Ok::<ControlView, crate::error::ErrorView>(
        ControlView::Pause(PauseView::StepComplete),
    ));
}

/// Stepping into ends at the very next hook at a function's entry or
/// exit, whatever the depth: the session pauses there, with the step
/// complete or at a breakpoint that the entry hits.
pub proof fn lemma_step_into_ends_at_next_hook(m: EngineModel, payload: PayloadView)
    requires
        m.mode is Running,
        m.directive is StepInto,
        payload is FunctionEntry || (payload is FunctionExit && m.stack.len() > 0
            && m.stack.last() == payload->FunctionExit_function),
    ensures
        m.observe(payload).1 is Pause,
        m.observe(payload).0.mode is Paused,
        payload is FunctionExit ==> m.observe(payload).1 == ControlView::Pause(
            PauseView::StepComplete,
        ),
{
}

/// While the session continues and no breakpoint is enabled, nothing
/// pauses it: it takes every event up to the return of the entry function
/// and completes with the result that the backend reports.
pub proof fn lemma_continue_runs_to_completion(
    session: EngineModel,
    events: Seq<EventView>,
    from: int,
    end: int,
)
    requires
        !session.mode.is_terminal(),
        none_enabled(session.breakpoints),
        0 <= from <= end < events.len(),
        inside_call(session.stack, events, from, end, 0),
        events[end] is Returned,
    ensures
        session.direct(Directive::Continue) is Ok,
        ({
            let (after, outcome, next) = run(
                session.direct(Directive::Continue)->Ok_0,
                events,
                from,
            );
            &&& outcome == OutcomeView::Completed(events[end]->Returned_result)
            &&& next == end + 1
            &&& after.mode is Completed
            &&& after.step_count == session.step_count
        }),
{
    let m = session.direct(Directive::Continue)->Ok_0;
    lemma_run_inside_call(m, events, from, end, 0);
    let inner = run_through(m, events, from, end);
    assert(run(m, events, from) == run(inner, events, end));
}

/// The transitions of a session.
///
/// A running session takes every event, and the decision says where the
/// session goes: it stays running exactly when the backend resumes, is
/// paused exactly when the decision is a pause, completed exactly when the
/// entry function returned, and stopped exactly on a fault. A session that
/// is not running rejects the event and does not change.
pub proof fn lemma_event_transitions(m: EngineModel, event: EventView)
    ensures
        m.mode is Running ==> m.handle(event).1 is Ok,
        m.mode is Running ==> (m.handle(event).1->Ok_0 is Resume <==> m.handle(event).0.mode
            is Running),
        m.mode is Running ==> (m.handle(event).1->Ok_0 is Pause <==> m.handle(event).0.mode
            is Paused),
        m.mode is Running ==> (m.handle(event).1->Ok_0 is Completed <==> m.handle(event).0.mode
            is Completed),
        m.mode is Running ==> (m.handle(event).1->Ok_0 is Faulted <==> m.handle(event).0.mode
            is Stopped),
        !(m.mode is Running) ==> m.handle(event) == (
            m,
            Err::<ControlView, crate::error::ErrorView>(crate::error::ErrorView::InvalidSessionState),
        ),
{
}

/// A directive sets a session running unless the session has ended; a
/// session that has ended rejects every directive, and an abort leaves it
/// as it is.
pub proof fn lemma_directive_transitions(m: EngineModel, directive: Directive)
    ensures
        m.mode.is_terminal() ==> m.direct(directive) == Err::<
            EngineModel,
            crate::error::ErrorView,
        >(crate::error::ErrorView::InvalidSessionState) && m.abort() == m,
        !m.mode.is_terminal() ==> m.direct(directive) is Ok && m.direct(directive)->Ok_0.mode
            is Running && m.direct(directive)->Ok_0.directive == directive && m.abort().mode
            is Stopped,
        m.direct(directive) is Ok ==> m.direct(directive)->Ok_0.stack == m.stack && m.direct(
            directive,
        )->Ok_0.step_count == m.step_count && m.direct(directive)->Ok_0.trace == m.trace,
{
}

/// No event takes a step back: the step count never decreases, and it
/// grows by at most one.
pub proof fn lemma_step_count_grows(m: EngineModel, event: EventView)
    ensures
        m.step_count <= m.handle(event).0.step_count <= m.step_count + 1,
{
}

/// The depth of the call stack is the number of entries less the number of
/// exits: an entry adds a frame, an exit that the session accepts removes
/// one, and no other event changes the stack. An exit that names no frame
/// on top of the stack is reported as a fault.
pub proof fn lemma_stack_follows_hooks(m: EngineModel, event: EventView)
    requires
        m.mode is Running,
    ensures
        (event matches EventView::Observed(PayloadView::FunctionEntry { function })
            ==> m.handle(event).0.stack == m.stack.push(function)),
        (event matches EventView::Observed(PayloadView::FunctionExit { function, .. }) ==> (
        if m.stack.len() > 0 && m.stack.last() == function {
            m.handle(event).0.stack == m.stack.drop_last()
        } else {
            m.handle(event).1->Ok_0 is Faulted && m.handle(event).0.stack == m.stack
        })),
        !(event matches EventView::Observed(p) && (p is FunctionEntry || p is FunctionExit))
            ==> m.handle(event).0.stack == m.stack,
{
}

/// The current function is unknown only before the first entry: an entry
/// makes the function entered the current one, and no event and no
/// directive makes a known current function unknown again.
pub proof fn lemma_current_function_stays(m: EngineModel, event: EventView, directive: Directive)
    ensures
        m.current_function is Some ==> m.handle(event).0.current_function is Some,
        m.current_function is Some && m.direct(directive) is Ok ==> m.direct(
            directive,
        )->Ok_0.current_function == m.current_function,
        m.mode is Running ==> (event matches EventView::Observed(
            PayloadView::FunctionEntry { function },
        ) ==> m.handle(event).0.current_function == Some(function)),
{
}

/// Steps are recorded in the order of the events: an event leaves the
/// trace as it is or adds the step that it reports at the end.
pub proof fn lemma_trace_grows_in_order(m: EngineModel, event: EventView)
    ensures
        m.handle(event).0.trace == m.trace || (event matches EventView::Observed(payload)
            && m.handle(event).0.trace == m.trace.push(payload)),
{
}

} // verus!
