use soroban_debugger::error::DebuggerError;
use soroban_debugger::trace::record::{
    from_record, to_record, trace_from_records, trace_records, RecordFault, StepRecord,
};
use soroban_debugger::trace::step::{Budget, ExecutionStep, ExecutionTrace, StepPayload};

fn blank(seq: u64, kind: &str) -> StepRecord {
    StepRecord {
        seq,
        kind: kind.to_string(),
        function: None,
        key: None,
        value: None,
        event: None,
        budget: None,
    }
}

fn all_kinds() -> Vec<StepPayload> {
    vec![
        StepPayload::FunctionEntry { function: "f".to_string() },
        StepPayload::StorageWrite { key: "k".to_string(), value: "v".to_string() },
        StepPayload::EventEmitted { event: "e".to_string() },
        StepPayload::BudgetSample {
            function: "f".to_string(),
            budget: Budget { cpu: 3, memory: 4 },
        },
        StepPayload::FunctionExit {
            function: "f".to_string(),
            value: Some("r".to_string()),
            budget: Some(Budget { cpu: 5, memory: 6 }),
        },
        StepPayload::FunctionExit { function: "g".to_string(), value: None, budget: None },
    ]
}

#[test]
fn record_names_the_kind_and_carries_its_fields() {
    let step = ExecutionStep {
        seq: 7,
        payload: StepPayload::StorageWrite { key: "count".to_string(), value: "1".to_string() },
    };
    assert_eq!(
        to_record(&step),
        StepRecord {
            key: Some("count".to_string()),
            value: Some("1".to_string()),
            ..blank(7, "StorageWrite")
        }
    );
    let step = ExecutionStep {
        seq: 0,
        payload: StepPayload::BudgetSample {
            function: "f".to_string(),
            budget: Budget { cpu: 1, memory: 2 },
        },
    };
    assert_eq!(
        to_record(&step),
        StepRecord {
            function: Some("f".to_string()),
            budget: Some(Budget { cpu: 1, memory: 2 }),
            ..blank(0, "BudgetSample")
        }
    );
}

#[test]
fn every_step_survives_writing_and_reading() {
    for (seq, payload) in all_kinds().into_iter().enumerate() {
        let step = ExecutionStep { seq: seq as u64, payload: payload.clone() };
        let record = to_record(&step);
        assert_eq!(record.seq, seq as u64);
        assert_eq!(from_record(&record), Ok(payload));
    }
}

#[test]
fn trace_survives_writing_and_reading() {
    let fault = Some(DebuggerError::ExecutionTrap { message: "unreachable".to_string() });
    let trace =
        ExecutionTrace::from_payloads(all_kinds(), Budget { cpu: 9, memory: 8 }, fault.clone());
    let records = trace_records(&trace);
    assert_eq!(records.len(), 6);
    let again = trace_from_records(&records, Budget { cpu: 9, memory: 8 }, fault).unwrap();
    assert_eq!(again, trace);
}

#[test]
fn record_without_a_needed_field_is_rejected() {
    assert_eq!(from_record(&blank(0, "FunctionEntry")), Err(RecordFault::MissingField));
    assert_eq!(from_record(&blank(0, "FunctionExit")), Err(RecordFault::MissingField));
    assert_eq!(from_record(&blank(0, "EventEmitted")), Err(RecordFault::MissingField));
    let only_key = StepRecord { key: Some("k".to_string()), ..blank(0, "StorageWrite") };
    assert_eq!(from_record(&only_key), Err(RecordFault::MissingField));
    let no_budget = StepRecord { function: Some("f".to_string()), ..blank(0, "BudgetSample") };
    assert_eq!(from_record(&no_budget), Err(RecordFault::MissingField));
}

#[test]
fn record_of_unknown_kind_is_rejected() {
    let record = StepRecord { function: Some("f".to_string()), ..blank(0, "functionentry") };
    assert_eq!(from_record(&record), Err(RecordFault::UnknownKind));
    assert_eq!(from_record(&blank(0, "")), Err(RecordFault::UnknownKind));
}

#[test]
fn records_out_of_order_are_rejected() {
    let entry =
        |seq| StepRecord { function: Some("f".to_string()), ..blank(seq, "FunctionEntry") };
    let budget = Budget { cpu: 0, memory: 0 };
    assert!(trace_from_records(&vec![entry(0), entry(1)], budget, None).is_ok());
    assert_eq!(
        trace_from_records(&vec![entry(0), entry(2)], budget, None),
        Err(RecordFault::OutOfOrder)
    );
    assert_eq!(
        trace_from_records(&vec![entry(1)], budget, None),
        Err(RecordFault::OutOfOrder)
    );
    // The first fault in the order of the records is reported.
    assert_eq!(
        trace_from_records(&vec![blank(0, "Nothing"), entry(5)], budget, None),
        Err(RecordFault::UnknownKind)
    );
    assert_eq!(trace_from_records(&Vec::new(), budget, None).unwrap().len(), 0);
}
