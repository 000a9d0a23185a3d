//! Traces of execution: the model, the recorder, and the comparator.

pub mod comparator;
pub mod record;
pub mod step;

pub use comparator::{compare, ComparisonReport, DivergenceKind, ReportEntry, Verdict};
pub use record::{from_record, to_record, trace_from_records, trace_records, StepRecord};
pub use step::{
    Budget, ExecutionStep, ExecutionTrace, StepKind, StepPayload, TraceRecorder, TraceSummary,
};
