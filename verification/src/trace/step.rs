//! The trace model: recorded steps, and the sealed trace of one session.

use crate::error::DebuggerError;
use crate::text::{option_view, str_eq, string_views};
use vstd::prelude::*;
use vstd::string::*;

verus! {

/// Resource units: compute and memory.
#[derive(Debug, Clone, Copy, PartialEq, Eq, Structural)]
pub struct Budget {
    pub cpu: u64,
    pub memory: u64,
}

/// What kind of event a step records.
#[derive(Debug, Clone, Copy, PartialEq, Eq, Structural)]
pub enum StepKind {
    FunctionEntry,
    FunctionExit,
    StorageWrite,
    EventEmitted,
    BudgetSample,
}

/// What a step records.
#[allow(inconsistent_fields)]
#[derive(Debug, Clone, PartialEq, Eq)]
pub enum StepPayload {
    /// A function was entered.
    FunctionEntry { function: String },
    /// A function was left, with its return value and the resources it had
    /// consumed, where the backend reported them.
    FunctionExit { function: String, value: Option<String>, budget: Option<Budget> },
    /// A storage key was written.
    StorageWrite { key: String, value: String },
    /// The contract emitted an event.
    EventEmitted { event: String },
    /// The backend reported the resources that a function consumed.
    BudgetSample { function: String, budget: Budget },
}

/// A payload as a plain value.
#[allow(inconsistent_fields)]
pub enum PayloadView {
    FunctionEntry { function: Seq<char> },
    FunctionExit { function: Seq<char>, value: Option<Seq<char>>, budget: Option<Budget> },
    StorageWrite { key: Seq<char>, value: Seq<char> },
    EventEmitted { event: Seq<char> },
    BudgetSample { function: Seq<char>, budget: Budget },
}

/// What two steps must agree in to be aligned: their kind and, for entries,
/// exits and budget samples, the function; for storage writes, the key.
pub struct StepKey {
    pub kind: StepKind,
    pub name: Seq<char>,
}

impl View for StepPayload {
    type V = PayloadView;

    open spec fn view(&self) -> PayloadView {
        match *self {
            StepPayload::FunctionEntry { function } => PayloadView::FunctionEntry {
                function: function@,
            },
            StepPayload::FunctionExit { function, value, budget } => PayloadView::FunctionExit {
                function: function@,
                value: option_view(value),
                budget,
            },
            StepPayload::StorageWrite { key, value } => PayloadView::StorageWrite {
                key: key@,
                value: value@,
            },
            StepPayload::EventEmitted { event } => PayloadView::EventEmitted { event: event@ },
            StepPayload::BudgetSample { function, budget } => PayloadView::BudgetSample {
                function: function@,
                budget,
            },
        }
    }
}

impl PayloadView {
    /// The kind of the step.
    pub open spec fn kind(self) -> StepKind {
        match self {
            PayloadView::FunctionEntry { .. } => StepKind::FunctionEntry,
            PayloadView::FunctionExit { .. } => StepKind::FunctionExit,
            PayloadView::StorageWrite { .. } => StepKind::StorageWrite,
            PayloadView::EventEmitted { .. } => StepKind::EventEmitted,
            PayloadView::BudgetSample { .. } => StepKind::BudgetSample,
        }
    }

    /// The key by which the step is aligned with a step of another trace.
    pub open spec fn key(self) -> StepKey {
        match self {
            PayloadView::FunctionEntry { function } => StepKey {
                kind: StepKind::FunctionEntry,
                name: function,
            },
            PayloadView::FunctionExit { function, .. } => StepKey {
                kind: StepKind::FunctionExit,
                name: function,
            },
            PayloadView::StorageWrite { key, .. } => StepKey {
                kind: StepKind::StorageWrite,
                name: key,
            },
            PayloadView::EventEmitted { .. } => StepKey {
                kind: StepKind::EventEmitted,
                name: Seq::empty(),
            },
            PayloadView::BudgetSample { function, .. } => StepKey {
                kind: StepKind::BudgetSample,
                name: function,
            },
        }
    }
}

/// Whether two optional strings hold the same characters.
pub fn option_str_eq(a: &Option<String>, b: &Option<String>) -> (same: bool)
    ensures
        same == (option_view(*a) == option_view(*b)),
{
    match (a, b) {
        (Some(x), Some(y)) => str_eq(x.as_str(), y.as_str()),
        (None, None) => true,
        _ => false,
    }
}

/// A copy of an optional string.
pub fn clone_option(text: &Option<String>) -> (copy: Option<String>)
    ensures
        option_view(copy) == option_view(*text),
        copy == *text,
{
    match text {
        Some(t) => Some(t.clone()),
        None => None,
    }
}

impl StepPayload {
    /// The kind of the step.
    pub fn kind(&self) -> (kind: StepKind)
        ensures
            kind == self@.kind(),
    {
        match self {
            StepPayload::FunctionEntry { .. } => StepKind::FunctionEntry,
            StepPayload::FunctionExit { .. } => StepKind::FunctionExit,
            StepPayload::StorageWrite { .. } => StepKind::StorageWrite,
            StepPayload::EventEmitted { .. } => StepKind::EventEmitted,
            StepPayload::BudgetSample { .. } => StepKind::BudgetSample,
        }
    }

    /// Whether the two steps have the same alignment key.
    pub fn same_key(&self, other: &StepPayload) -> (same: bool)
        ensures
            same == (self@.key() == other@.key()),
    {
        match (self, other) {
            (
                StepPayload::FunctionEntry { function: a },
                StepPayload::FunctionEntry { function: b },
            ) => str_eq(a.as_str(), b.as_str()),
            (
                StepPayload::FunctionExit { function: a, .. },
                StepPayload::FunctionExit { function: b, .. },
            ) => str_eq(a.as_str(), b.as_str()),
            (StepPayload::StorageWrite { key: a, .. }, StepPayload::StorageWrite { key: b, .. }) => str_eq(
                a.as_str(),
                b.as_str(),
            ),
            (StepPayload::EventEmitted { .. }, StepPayload::EventEmitted { .. }) => true,
            (
                StepPayload::BudgetSample { function: a, .. },
                StepPayload::BudgetSample { function: b, .. },
            ) => str_eq(a.as_str(), b.as_str()),
            _ => false,
        }
    }

    /// A copy of the payload.
    pub fn duplicate(&self) -> (copy: Self)
        ensures
            copy@ == self@,
            copy == *self,
    {
        match self {
            StepPayload::FunctionEntry { function } => StepPayload::FunctionEntry {
                function: function.clone(),
            },
            StepPayload::FunctionExit { function, value, budget } => StepPayload::FunctionExit {
                function: function.clone(),
                value: clone_option(value),
                budget: *budget,
            },
            StepPayload::StorageWrite { key, value } => StepPayload::StorageWrite {
                key: key.clone(),
                value: value.clone(),
            },
            StepPayload::EventEmitted { event } => StepPayload::EventEmitted { event: event.clone() },
            StepPayload::BudgetSample { function, budget } => StepPayload::BudgetSample {
                function: function.clone(),
                budget: *budget,
            },
        }
    }
}

/// One recorded event of a session.
#[derive(Debug, Clone, PartialEq, Eq)]
pub struct ExecutionStep {
    /// The position of the step in its trace, counted from zero.
    pub seq: u64,
    /// What the step records.
    pub payload: StepPayload,
}

/// The payloads as plain values.
pub open spec fn payload_list(payloads: Seq<StepPayload>) -> Seq<PayloadView> {
    Seq::new(payloads.len(), |i: int| payloads[i]@)
}

/// The payloads of `steps` as plain values, in order.
pub open spec fn payload_views(steps: Seq<ExecutionStep>) -> Seq<PayloadView> {
    Seq::new(steps.len(), |i: int| steps[i].payload@)
}

/// Whether each step carries its position as its sequence number.
pub open spec fn numbered(steps: Seq<ExecutionStep>) -> bool {
    forall|i: int| 0 <= i < steps.len() ==> (#[trigger] steps[i]).seq == i
}

/// The functions entered in `steps`, each once, in the order of their
/// first entry.
pub open spec fn functions_visited(steps: Seq<PayloadView>) -> Seq<Seq<char>>
    decreases steps.len(),
{
    if steps.len() == 0 {
        Seq::empty()
    } else {
        let before = functions_visited(steps.drop_last());
        match steps.last() {
            PayloadView::FunctionEntry { function } => if before.contains(function) {
                before
            } else {
                before.push(function)
            },
            _ => before,
        }
    }
}

/// How the session that a trace records ended, with its totals.
#[derive(Debug, Clone, PartialEq, Eq)]
pub struct TraceSummary {
    /// The resources consumed when the trace was sealed.
    pub final_budget: Budget,
    /// The functions entered, each once, in the order of their first entry.
    pub functions_visited: Vec<String>,
    /// The fault that ended the session, or `None` where it completed or
    /// was aborted.
    pub fault: Option<DebuggerError>,
}

/// The sealed, ordered record of one session's observable events. A trace
/// is made once and only read afterwards.
#[derive(Debug, Clone, PartialEq, Eq)]
pub struct ExecutionTrace {
    steps: Vec<ExecutionStep>,
    summary: TraceSummary,
}

impl View for ExecutionTrace {
    type V = Seq<PayloadView>;

    closed spec fn view(&self) -> Seq<PayloadView> {
        payload_views(self.steps@)
    }
}

impl ExecutionTrace {
    /// The invariant of a trace: each step carries its position, and the
    /// summary lists the functions that the steps enter.
    pub closed spec fn well_formed(&self) -> bool {
        &&& numbered(self.steps@)
        &&& self.steps@.len() <= u64::MAX
        &&& string_views(self.summary.functions_visited@) == functions_visited(self@)
    }

    /// The steps of the trace.
    pub closed spec fn spec_steps(&self) -> Seq<ExecutionStep> {
        self.steps@
    }

    /// The summary of the trace.
    pub closed spec fn spec_summary(&self) -> TraceSummary {
        self.summary
    }

    /// What the invariant says, for those who hold a trace.
    pub proof fn lemma_well_formed(&self)
        requires
            self.well_formed(),
        ensures
            numbered(self.spec_steps()),
            self@ == payload_views(self.spec_steps()),
            string_views(self.spec_summary().functions_visited@) == functions_visited(self@),
    {
    }

    /// Makes a trace of the events `payloads`, numbered in their order,
    /// with the resources consumed at the end and the fault that ended the
    /// session, if one did.
    pub fn from_payloads(payloads: Vec<StepPayload>, final_budget: Budget, fault: Option<
        DebuggerError,
    >) -> (trace: Self)
        ensures
            trace.well_formed(),
            trace@ == payload_list(payloads@),
            trace.spec_summary().final_budget == final_budget,
            trace.spec_summary().fault == fault,
    {
        let mut recorder = TraceRecorder::new();
        let mut payloads = payloads;
        let ghost all = payload_list(payloads@);
        let mut i: usize = 0;
        let n = payloads.len();
        while i < n
            invariant
                i <= n,
                n == payloads.len(),
                recorder.well_formed(),
                !recorder.is_sealed(),
                all.len() == n,
                forall|j: int| i <= j < n ==> payloads@[j]@ == all[j],
                recorder@ == all.take(i as int),
            decreases n - i,
        {
            let payload = payloads[i].duplicate();
            let ghost before = recorder@;
            let recorded = recorder.record(payload);
            assert(recorder@ =~= all.take(i + 1));
            i += 1;
        }
        assert(all.take(n as int) == all);
        recorder.seal(final_budget, fault)
    }

    /// The steps of the trace, in order.
    pub fn steps(&self) -> (steps: &Vec<ExecutionStep>)
        ensures
            steps@ == self.spec_steps(),
            payload_views(steps@) == self@,
    {
        &self.steps
    }

    /// The number of steps.
    pub fn len(&self) -> (n: usize)
        ensures
            n == self@.len(),
    {
        self.steps.len()
    }

    /// The summary of the trace.
    pub fn summary(&self) -> (summary: &TraceSummary)
        ensures
            *summary == self.spec_summary(),
    {
        &self.summary
    }
}

/// Captures the ordered log of a session while it runs. Steps are numbered
/// in the order in which they are recorded; sealing ends the recording.
pub struct TraceRecorder {
    steps: Vec<ExecutionStep>,
    visited: Vec<String>,
    sealed: bool,
}

impl View for TraceRecorder {
    type V = Seq<PayloadView>;

    closed spec fn view(&self) -> Seq<PayloadView> {
        payload_views(self.steps@)
    }
}

impl TraceRecorder {
    /// The invariant of the recorder: each step carries its position, and
    /// the functions entered so far are known.
    pub closed spec fn well_formed(&self) -> bool {
        &&& numbered(self.steps@)
        &&& self.steps@.len() <= u64::MAX
        &&& string_views(self.visited@) == functions_visited(self@)
    }

    /// Whether the recording has ended.
    pub closed spec fn is_sealed(&self) -> bool {
        self.sealed
    }

    /// Starts an empty recording.
    pub fn new() -> (recorder: Self)
        ensures
            recorder.well_formed(),
            !recorder.is_sealed(),
            recorder@ == Seq::<PayloadView>::empty(),
    {
        let recorder = TraceRecorder { steps: Vec::new(), visited: Vec::new(), sealed: false };
        assert(recorder@ =~= Seq::<PayloadView>::empty());
        assert(string_views(recorder.visited@) =~= functions_visited(
            recorder@,
        ));
        recorder
    }

    /// The number of steps recorded.
    pub fn len(&self) -> (n: usize)
        ensures
            n == self@.len(),
    {
        self.steps.len()
    }

    /// Whether the recording has ended.
    pub fn sealed(&self) -> (sealed: bool)
        ensures
            sealed == self.is_sealed(),
    {
        self.sealed
    }

    /// Appends a step with the next sequence number. A sealed recording
    /// takes no step. Returns whether the step was recorded.
    pub fn record(&mut self, payload: StepPayload) -> (recorded: bool)
        requires
            old(self).well_formed(),
        ensures
            final(self).well_formed(),
            final(self).is_sealed() == old(self).is_sealed(),
            recorded == (!old(self).is_sealed() && old(self)@.len() < u64::MAX),
            recorded ==> final(self)@ == old(self)@.push(payload@),
            !recorded ==> final(self)@ == old(self)@,
    {
        if self.sealed || self.steps.len() as u64 == u64::MAX {
            return false;
        }
        let ghost before = self@;
        let ghost visited_before = string_views(self.visited@);
        if let StepPayload::FunctionEntry { function } = &payload {
            let mut known = false;
            let mut i: usize = 0;
            while i < self.visited.len()
                invariant
                    i <= self.visited.len(),
                    known == exists|k: int|
                        0 <= k < i && #[trigger] self.visited@[k]@ == function@,
                decreases self.visited.len() - i,
            {
                if str_eq(self.visited[i].as_str(), function.as_str()) {
                    known = true;
                }
                i += 1;
            }
            proof {
                if known {
                    let k = choose|k: int|
                        0 <= k < self.visited@.len() && #[trigger] self.visited@[k]@ == function@;
                    assert(visited_before[k] == function@);
                } else {
                    assert forall|k: int| 0 <= k < visited_before.len() implies visited_before[k]
                        != function@ by {
                        assert(self.visited@[k]@ == visited_before[k]);
                    }
                }
                assert(known == visited_before.contains(function@));
            }
            if !known {
                self.visited.push(function.clone());
                assert(string_views(self.visited@) =~= visited_before.push(
                    function@,
                ));
            }
        }
        let seq = self.steps.len() as u64;
        let ghost view = payload@;
        self.steps.push(ExecutionStep { seq, payload });
        proof {
            assert(self@ =~= before.push(view));
            assert(self@.drop_last() =~= before);
        }
        true
    }

    /// Ends the recording: no further step is taken.
    pub fn close(&mut self)
        requires
            old(self).well_formed(),
        ensures
            final(self).well_formed(),
            final(self).is_sealed(),
            final(self)@ == old(self)@,
    {
        self.sealed = true;
    }

    /// Ends the recording and hands out the trace, with the resources
    /// consumed at the end and the fault that ended the session, if one did.
    pub fn seal(self, final_budget: Budget, fault: Option<DebuggerError>) -> (trace: ExecutionTrace)
        requires
            self.well_formed(),
        ensures
            trace.well_formed(),
            trace@ == self@,
            trace.spec_summary().final_budget == final_budget,
            trace.spec_summary().fault == fault,
    {
        ExecutionTrace {
            steps: self.steps,
            summary: TraceSummary { final_budget, functions_visited: self.visited, fault },
        }
    }
}

} // verus!
