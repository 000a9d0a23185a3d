//! The shape in which a trace is persisted: each step as a flat record of
//! optional fields, as a stored document holds it.

use crate::error::DebuggerError;
use crate::text::{option_view, str_eq};
use crate::trace::step::{
    clone_option, Budget, ExecutionStep, ExecutionTrace, PayloadView, StepPayload,
    TraceRecorder,
};
use vstd::prelude::*;
use vstd::string::*;

verus! {

/// One step as a stored document holds it: its number, the name of its
/// kind, and the fields that the kind uses.
#[derive(Debug, Clone, PartialEq, Eq)]
pub struct StepRecord {
    pub seq: u64,
    pub kind: String,
    pub function: Option<String>,
    pub key: Option<String>,
    pub value: Option<String>,
    pub event: Option<String>,
    pub budget: Option<Budget>,
}

/// A record as a plain value.
pub struct RecordView {
    pub seq: u64,
    pub kind: Seq<char>,
    pub function: Option<Seq<char>>,
    pub key: Option<Seq<char>>,
    pub value: Option<Seq<char>>,
    pub event: Option<Seq<char>>,
    pub budget: Option<Budget>,
}

impl View for StepRecord {
    type V = RecordView;

    open spec fn view(&self) -> RecordView {
        RecordView {
            seq: self.seq,
            kind: self.kind@,
            function: option_view(self.function),
            key: option_view(self.key),
            value: option_view(self.value),
            event: option_view(self.event),
            budget: self.budget,
        }
    }
}

/// Why a record is no step of a trace.
#[derive(Debug, Clone, Copy, PartialEq, Eq, Structural)]
pub enum RecordFault {
    /// The kind is none of the five kinds of steps.
    UnknownKind,
    /// A field that the kind needs is absent.
    MissingField,
    /// The record does not carry its position as its number.
    OutOfOrder,
}

/// The record of a step with the number `seq`: the name of its kind, and
/// the fields that it carries.
pub open spec fn record_of(payload: PayloadView, seq: u64) -> RecordView {
    let blank = RecordView {
        seq,
        kind: Seq::empty(),
        function: None,
        key: None,
        value: None,
        event: None,
        budget: None,
    };
    match payload {
        PayloadView::FunctionEntry { function } => RecordView {
            kind: "FunctionEntry"@,
            function: Some(function),
            ..blank
        },
        PayloadView::FunctionExit { function, value, budget } => RecordView {
            kind: "FunctionExit"@,
            function: Some(function),
            value,
            budget,
            ..blank
        },
        PayloadView::StorageWrite { key, value } => RecordView {
            kind: "StorageWrite"@,
            key: Some(key),
            value: Some(value),
            ..blank
        },
        PayloadView::EventEmitted { event } => RecordView {
            kind: "EventEmitted"@,
            event: Some(event),
            ..blank
        },
        PayloadView::BudgetSample { function, budget } => RecordView {
            kind: "BudgetSample"@,
            function: Some(function),
            budget: Some(budget),
            ..blank
        },
    }
}

/// The step that a record stands for: the kind decides which fields are
/// read, and a field that the kind needs has to be there. Fields that the
/// kind does not use are passed over.
pub open spec fn payload_of(record: RecordView) -> Result<PayloadView, RecordFault> {
    if record.kind == "FunctionEntry"@ {
        match record.function {
            Some(function) => Ok(PayloadView::FunctionEntry { function }),
            None => Err(RecordFault::MissingField),
        }
    } else if record.kind == "FunctionExit"@ {
        match record.function {
            Some(function) => Ok(
                PayloadView::FunctionExit { function, value: record.value, budget: record.budget },
            ),
            None => Err(RecordFault::MissingField),
        }
    } else if record.kind == "StorageWrite"@ {
        match (record.key, record.value) {
            (Some(key), Some(value)) => Ok(PayloadView::StorageWrite { key, value }),
            _ => Err(RecordFault::MissingField),
        }
    } else if record.kind == "EventEmitted"@ {
        match record.event {
            Some(event) => Ok(PayloadView::EventEmitted { event }),
            None => Err(RecordFault::MissingField),
        }
    } else if record.kind == "BudgetSample"@ {
        match (record.function, record.budget) {
            (Some(function), Some(budget)) => Ok(PayloadView::BudgetSample { function, budget }),
            _ => Err(RecordFault::MissingField),
        }
    } else {
        Err(RecordFault::UnknownKind)
    }
}

/// The steps that the first `n` records stand for, or the fault of the
/// first record that is no step or does not carry its position.
pub open spec fn payloads_of(records: Seq<RecordView>, n: int) -> Result<
    Seq<PayloadView>,
    RecordFault,
>
    decreases n,
{
    if n <= 0 {
        Ok(Seq::empty())
    } else {
        match payloads_of(records, n - 1) {
            Err(fault) => Err(fault),
            Ok(payloads) => if records[n - 1].seq != n - 1 {
                Err(RecordFault::OutOfOrder)
            } else {
                match payload_of(records[n - 1]) {
                    Err(fault) => Err(fault),
                    Ok(payload) => Ok(payloads.push(payload)),
                }
            },
        }
    }
}

/// The records as plain values.
pub open spec fn record_views(records: Seq<StepRecord>) -> Seq<RecordView> {
    Seq::new(records.len(), |i: int| records[i]@)
}

/// The names of the five kinds differ from each other.
proof fn lemma_kind_names()
    ensures
        "FunctionEntry"@ != "FunctionExit"@,
        "FunctionEntry"@ != "StorageWrite"@,
        "FunctionEntry"@ != "EventEmitted"@,
        "FunctionEntry"@ != "BudgetSample"@,
        "FunctionExit"@ != "StorageWrite"@,
        "FunctionExit"@ != "EventEmitted"@,
        "FunctionExit"@ != "BudgetSample"@,
        "StorageWrite"@ != "EventEmitted"@,
        "StorageWrite"@ != "BudgetSample"@,
        "EventEmitted"@ != "BudgetSample"@,
{
    reveal_strlit("FunctionEntry");
    reveal_strlit("FunctionExit");
    reveal_strlit("StorageWrite");
    reveal_strlit("EventEmitted");
    reveal_strlit("BudgetSample");
    assert("FunctionEntry"@[0] == 'F' && "StorageWrite"@[0] == 'S' && "EventEmitted"@[0] == 'E'
        && "BudgetSample"@[0] == 'B' && "FunctionExit"@[0] == 'F');
    assert("FunctionEntry"@.len() == 13 && "FunctionExit"@.len() == 12);
}

/// A step that is written as a record and read again is the same step.
pub proof fn lemma_record_round_trip(payload: PayloadView, seq: u64)
    ensures
        payload_of(record_of(payload, seq)) == Ok::<PayloadView, RecordFault>(payload),
        record_of(payload, seq).seq == seq,
{
    lemma_kind_names();
}

/// Writes a step as a record.
pub fn to_record(step: &ExecutionStep) -> (record: StepRecord)
    ensures
        record@ == record_of(step.payload@, step.seq),
{
    let seq = step.seq;
    match &step.payload {
        StepPayload::FunctionEntry { function } => StepRecord {
            seq,
            kind: String::from_str("FunctionEntry"),
            function: Some(function.clone()),
            key: None,
            value: None,
            event: None,
            budget: None,
        },
        StepPayload::FunctionExit { function, value, budget } => StepRecord {
            seq,
            kind: String::from_str("FunctionExit"),
            function: Some(function.clone()),
            key: None,
            value: clone_option(value),
            event: None,
            budget: *budget,
        },
        StepPayload::StorageWrite { key, value } => StepRecord {
            seq,
            kind: String::from_str("StorageWrite"),
            function: None,
            key: Some(key.clone()),
            value: Some(value.clone()),
            event: None,
            budget: None,
        },
        StepPayload::EventEmitted { event } => StepRecord {
            seq,
            kind: String::from_str("EventEmitted"),
            function: None,
            key: None,
            value: None,
            event: Some(event.clone()),
            budget: None,
        },
        StepPayload::BudgetSample { function, budget } => StepRecord {
            seq,
            kind: String::from_str("BudgetSample"),
            function: Some(function.clone()),
            key: None,
            value: None,
            event: None,
            budget: Some(*budget),
        },
    }
}

/// Reads the step that a record stands for.
pub fn from_record(record: &StepRecord) -> (r: Result<StepPayload, RecordFault>)
    ensures
        match r {
            Ok(payload) => payload_of(record@) == Ok::<PayloadView, RecordFault>(payload@),
            Err(fault) => payload_of(record@) == Err::<PayloadView, RecordFault>(fault),
        },
{
    let kind = record.kind.as_str();
    if str_eq(kind, "FunctionEntry") {
        match &record.function {
            Some(function) => Ok(StepPayload::FunctionEntry { function: function.clone() }),
            None => Err(RecordFault::MissingField),
        }
    } else if str_eq(kind, "FunctionExit") {
        match &record.function {
            Some(function) => Ok(
                StepPayload::FunctionExit {
                    function: function.clone(),
                    value: clone_option(&record.value),
                    budget: record.budget,
                },
            ),
            None => Err(RecordFault::MissingField),
        }
    } else if str_eq(kind, "StorageWrite") {
        match (&record.key, &record.value) {
            (Some(key), Some(value)) => Ok(
                StepPayload::StorageWrite { key: key.clone(), value: value.clone() },
            ),
            _ => Err(RecordFault::MissingField),
        }
    } else if str_eq(kind, "EventEmitted") {
        match &record.event {
            Some(event) => Ok(StepPayload::EventEmitted { event: event.clone() }),
            None => Err(RecordFault::MissingField),
        }
    } else if str_eq(kind, "BudgetSample") {
        match (&record.function, record.budget) {
            (Some(function), Some(budget)) => Ok(
                StepPayload::BudgetSample { function: function.clone(), budget },
            ),
            _ => Err(RecordFault::MissingField),
        }
    } else {
        Err(RecordFault::UnknownKind)
    }
}

/// The records of the steps of a trace, in order.
pub fn trace_records(trace: &ExecutionTrace) -> (records: Vec<StepRecord>)
    requires
        trace.well_formed(),
    ensures
        records@.len() == trace@.len(),
        forall|i: int|
            0 <= i < records@.len() ==> (#[trigger] records@[i])@ == record_of(trace@[i], i as u64),
{
    proof {
        trace.lemma_well_formed();
    }
    let steps = trace.steps();
    let mut records: Vec<StepRecord> = Vec::new();
    let mut i: usize = 0;
    while i < steps.len()
        invariant
            i <= steps.len(),
            steps@ == trace.spec_steps(),
            crate::trace::step::numbered(steps@),
            trace@ == crate::trace::step::payload_views(steps@),
            records@.len() == i,
            forall|k: int|
                0 <= k < i ==> (#[trigger] records@[k])@ == record_of(trace@[k], k as u64),
        decreases steps.len() - i,
    {
        assert(steps@[i as int].seq == i);
        records.push(to_record(&steps[i]));
        i += 1;
    }
    records
}

/// Where the first records are no steps, neither are all.
proof fn lemma_payloads_of_err(records: Seq<RecordView>, k: int, n: int)
    requires
        0 <= k <= n,
        payloads_of(records, k) is Err,
    ensures
        payloads_of(records, n) == payloads_of(records, k),
    decreases n - k,
{
    if k < n {
        lemma_payloads_of_err(records, k, n - 1);
    }
}

/// Makes a trace of stored records, with the resources consumed at the
/// end and the fault that ended the session, if one did. Fails on the
/// first record that is no step or does not carry its position.
pub fn trace_from_records(records: &Vec<StepRecord>, final_budget: Budget, fault: Option<
    DebuggerError,
>) -> (r: Result<ExecutionTrace, RecordFault>)
    ensures
        match r {
            Ok(trace) => trace.well_formed() && payloads_of(
                record_views(records@),
                records@.len() as int,
            ) == Ok::<Seq<PayloadView>, RecordFault>(trace@) && trace.spec_summary().final_budget
                == final_budget && trace.spec_summary().fault == fault,
            Err(e) => payloads_of(record_views(records@), records@.len() as int) == Err::<
                Seq<PayloadView>,
                RecordFault,
            >(e),
        },
{
    let ghost views = record_views(records@);
    let mut recorder = TraceRecorder::new();
    let mut i: usize = 0;
    while i < records.len()
        invariant
            i <= records.len(),
            views == record_views(records@),
            recorder.well_formed(),
            !recorder.is_sealed(),
            payloads_of(views, i as int) == Ok::<Seq<PayloadView>, RecordFault>(recorder@),
            recorder@.len() == i,
        decreases records.len() - i,
    {
        assert(views[i as int] == records@[i as int]@);
        if records[i].seq != i as u64 {
            proof {
                lemma_payloads_of_err(views, i + 1, records@.len() as int);
            }
            return Err(RecordFault::OutOfOrder);
        }
        match from_record(&records[i]) {
            Err(fault) => {
                proof {
                    lemma_payloads_of_err(views, i + 1, records@.len() as int);
                }
                return Err(fault);
            },
            Ok(payload) => {
                let recorded = recorder.record(payload);
            },
        }
        i += 1;
    }
    Ok(recorder.seal(final_budget, fault))
}

} // verus!
