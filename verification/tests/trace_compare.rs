use soroban_debugger::trace::comparator::{
    compare, divergence_of, DivergenceKind, ReportEntry, Verdict,
};
use soroban_debugger::trace::step::{
    Budget, ExecutionTrace, StepKind, StepPayload, TraceRecorder,
};

fn entry(name: &str) -> StepPayload {
    StepPayload::FunctionEntry { function: name.to_string() }
}

fn exit(name: &str, value: Option<&str>, cpu: Option<u64>) -> StepPayload {
    StepPayload::FunctionExit {
        function: name.to_string(),
        value: value.map(|v| v.to_string()),
        budget: cpu.map(|cpu| Budget { cpu, memory: 0 }),
    }
}

fn write(key: &str, value: &str) -> StepPayload {
    StepPayload::StorageWrite { key: key.to_string(), value: value.to_string() }
}

fn event(text: &str) -> StepPayload {
    StepPayload::EventEmitted { event: text.to_string() }
}

fn sample(name: &str, cpu: u64, memory: u64) -> StepPayload {
    StepPayload::BudgetSample { function: name.to_string(), budget: Budget { cpu, memory } }
}

fn trace(payloads: Vec<StepPayload>) -> ExecutionTrace {
    ExecutionTrace::from_payloads(payloads, Budget { cpu: 0, memory: 0 }, None)
}

fn increment_trace(value: &str) -> ExecutionTrace {
    trace(vec![
        entry("increment"),
        write("count", value),
        event("incremented"),
        sample("increment", 40, 8),
        exit("increment", Some("ok"), Some(40)),
    ])
}

#[test]
fn trace_compared_with_itself_is_identical() {
    let t = increment_trace("1");
    let report = compare(&t, &t);
    assert_eq!(report.verdict(), Verdict::Identical);
    assert_eq!(report.divergence_count(), 0);
    let expected: Vec<ReportEntry> =
        (0..5).map(|i| ReportEntry::Match { index_a: i, index_b: i }).collect();
    assert_eq!(report.entries(), &expected);
    let empty = trace(Vec::new());
    let report = compare(&empty, &empty);
    assert_eq!(report.verdict(), Verdict::Identical);
    assert!(report.entries().is_empty());
}

#[test]
fn one_changed_storage_value_is_incompatible_with_one_divergence() {
    let report = compare(&increment_trace("1"), &increment_trace("2"));
    assert_eq!(report.verdict(), Verdict::Incompatible);
    assert_eq!(report.divergence_count(), 1);
    assert_eq!(
        report.entries(),
        &vec![
            ReportEntry::Match { index_a: 0, index_b: 0 },
            ReportEntry::Divergence {
                index_a: 1,
                index_b: 1,
                kind: DivergenceKind::StorageValue,
                detail: "1 -> 2".to_string(),
            },
            ReportEntry::Match { index_a: 2, index_b: 2 },
            ReportEntry::Match { index_a: 3, index_b: 3 },
            ReportEntry::Match { index_a: 4, index_b: 4 },
        ]
    );
}

#[test]
fn upgrade_that_changes_a_return_value_is_incompatible() {
    let old = trace(vec![entry("balance"), exit("balance", Some("100"), Some(7))]);
    let new = trace(vec![entry("balance"), exit("balance", Some("101"), Some(7))]);
    let report = compare(&old, &new);
    assert_eq!(report.verdict(), Verdict::Incompatible);
    assert_eq!(
        report.entries()[1],
        ReportEntry::Divergence {
            index_a: 1,
            index_b: 1,
            kind: DivergenceKind::ReturnOutcome,
            detail: "100 -> 101".to_string(),
        }
    );
    assert_eq!(report.divergence_count(), 1);
}

#[test]
fn different_resource_usage_only_is_compatible_with_differences() {
    let a = trace(vec![entry("f"), sample("f", 10, 2), exit("f", Some("x"), Some(10))]);
    let b = trace(vec![entry("f"), sample("f", 12, 2), exit("f", Some("x"), None)]);
    let report = compare(&a, &b);
    assert_eq!(report.verdict(), Verdict::CompatibleWithDifferences);
    assert_eq!(
        report.entries(),
        &vec![
            ReportEntry::Match { index_a: 0, index_b: 0 },
            ReportEntry::Divergence {
                index_a: 1,
                index_b: 1,
                kind: DivergenceKind::ResourceUsage,
                detail: "cpu=10 memory=2 -> cpu=12 memory=2".to_string(),
            },
            ReportEntry::Divergence {
                index_a: 2,
                index_b: 2,
                kind: DivergenceKind::ResourceUsage,
                detail: "cpu=10 memory=0 -> (none)".to_string(),
            },
        ]
    );
}

#[test]
fn different_events_are_compatible_with_differences() {
    let a = trace(vec![event("minted 5")]);
    let b = trace(vec![event("minted 6")]);
    let report = compare(&a, &b);
    assert_eq!(report.verdict(), Verdict::CompatibleWithDifferences);
    assert_eq!(
        report.entries(),
        &vec![ReportEntry::Divergence {
            index_a: 0,
            index_b: 0,
            kind: DivergenceKind::EventData,
            detail: "minted 5 -> minted 6".to_string(),
        }]
    );
}

#[test]
fn steps_of_one_trace_only_are_set_aside() {
    let a = trace(vec![entry("f"), write("k", "1"), exit("f", None, None)]);
    let b = trace(vec![entry("f"), entry("g"), exit("g", None, None), exit("f", None, None)]);
    let report = compare(&a, &b);
    assert_eq!(report.verdict(), Verdict::CompatibleWithDifferences);
    assert_eq!(report.divergence_count(), 0);
    assert_eq!(
        report.entries(),
        &vec![
            ReportEntry::Match { index_a: 0, index_b: 0 },
            ReportEntry::OnlyInA { index_a: 1 },
            ReportEntry::OnlyInB { index_b: 1 },
            ReportEntry::OnlyInB { index_b: 2 },
            ReportEntry::Match { index_a: 2, index_b: 3 },
        ]
    );
}

#[test]
fn alignment_follows_the_longest_common_subsequence() {
    // Keys of a: x y z w; keys of b: y z x w. The longest common
    // subsequence is y z w: x of a and x of b are not aligned.
    let a = trace(vec![write("x", "1"), write("y", "1"), write("z", "1"), write("w", "1")]);
    let b = trace(vec![write("y", "1"), write("z", "2"), write("x", "1"), write("w", "1")]);
    let report = compare(&a, &b);
    assert_eq!(
        report.entries(),
        &vec![
            ReportEntry::OnlyInA { index_a: 0 },
            ReportEntry::Match { index_a: 1, index_b: 0 },
            ReportEntry::Divergence {
                index_a: 2,
                index_b: 1,
                kind: DivergenceKind::StorageValue,
                detail: "1 -> 2".to_string(),
            },
            ReportEntry::OnlyInB { index_b: 2 },
            ReportEntry::Match { index_a: 3, index_b: 3 },
        ]
    );
    assert_eq!(report.verdict(), Verdict::Incompatible);
}

#[test]
fn comparison_with_an_empty_trace() {
    let a = trace(vec![entry("f"), exit("f", None, None)]);
    let empty = trace(Vec::new());
    let report = compare(&a, &empty);
    assert_eq!(
        report.entries(),
        &vec![ReportEntry::OnlyInA { index_a: 0 }, ReportEntry::OnlyInA { index_a: 1 }]
    );
    assert_eq!(report.verdict(), Verdict::CompatibleWithDifferences);
    let report = compare(&empty, &a);
    assert_eq!(
        report.entries(),
        &vec![ReportEntry::OnlyInB { index_b: 0 }, ReportEntry::OnlyInB { index_b: 1 }]
    );
}

#[test]
fn divergence_of_same_key_steps() {
    assert_eq!(divergence_of(&write("k", "1"), &write("k", "1")), None);
    assert_eq!(
        divergence_of(&write("k", "1"), &write("k", "2")),
        Some(DivergenceKind::StorageValue)
    );
    // A changed return value outranks changed resources.
    assert_eq!(
        divergence_of(&exit("f", Some("a"), Some(1)), &exit("f", Some("b"), Some(2))),
        Some(DivergenceKind::ReturnOutcome)
    );
    assert_eq!(
        divergence_of(&exit("f", None, Some(1)), &exit("f", None, Some(2))),
        Some(DivergenceKind::ResourceUsage)
    );
    assert_eq!(divergence_of(&entry("f"), &entry("f")), None);
    assert!(DivergenceKind::StorageValue.breaking());
    assert!(DivergenceKind::ReturnOutcome.breaking());
    assert!(!DivergenceKind::ResourceUsage.breaking());
    assert!(!DivergenceKind::EventData.breaking());
}

#[test]
fn recorder_numbers_steps_in_order_and_stops_when_sealed() {
    let mut recorder = TraceRecorder::new();
    assert!(recorder.record(entry("f")));
    assert!(recorder.record(entry("g")));
    assert!(recorder.record(entry("f")));
    assert_eq!(recorder.len(), 3);
    assert!(!recorder.sealed());
    recorder.close();
    assert!(recorder.sealed());
    assert!(!recorder.record(entry("h")));
    assert_eq!(recorder.len(), 3);
    let trace = recorder.seal(Budget { cpu: 9, memory: 1 }, None);
    let seqs: Vec<u64> = trace.steps().iter().map(|s| s.seq).collect();
    assert_eq!(seqs, vec![0, 1, 2]);
    assert_eq!(trace.summary().functions_visited, vec!["f".to_string(), "g".to_string()]);
    assert_eq!(trace.summary().final_budget, Budget { cpu: 9, memory: 1 });
    assert_eq!(trace.steps()[1].payload.kind(), StepKind::FunctionEntry);
    assert!(entry("f").same_key(&entry("f")));
    assert!(!entry("f").same_key(&exit("f", None, None)));
    assert!(write("k", "1").same_key(&write("k", "2")));
    assert!(event("a").same_key(&event("b")));
}

fn generated(seed: u64, length: usize) -> Vec<StepPayload> {
    let mut state = seed;
    let mut steps = Vec::new();
    for _ in 0..length {
        state = state.wrapping_mul(6364136223846793005).wrapping_add(1442695040888963407);
        let name = ["f", "g", "h"][((state >> 33) % 3) as usize];
        let value = ["0", "1"][((state >> 40) % 2) as usize];
        steps.push(match (state >> 50) % 5 {
            0 => entry(name),
            1 => exit(name, Some(value), None),
            2 => write(name, value),
            3 => event(value),
            _ => sample(name, (state >> 20) % 4, 0),
        });
    }
    steps
}

#[test]
fn every_step_is_told_once_and_in_order() {
    for seed in 0..40u64 {
        let a = generated(seed, (seed % 9) as usize);
        let b = generated(seed * 7 + 3, ((seed / 3) % 11) as usize);
        let report = compare(&trace(a.clone()), &trace(b.clone()));
        let mut next_a = 0;
        let mut next_b = 0;
        let mut pairs = 0;
        for entry in report.entries() {
            match entry {
                ReportEntry::Match { index_a, index_b } => {
                    assert_eq!((*index_a, *index_b), (next_a, next_b));
                    assert!(a[next_a].same_key(&b[next_b]));
                    assert_eq!(divergence_of(&a[next_a], &b[next_b]), None);
                    next_a += 1;
                    next_b += 1;
                    pairs += 1;
                }
                ReportEntry::Divergence { index_a, index_b, kind, .. } => {
                    assert_eq!((*index_a, *index_b), (next_a, next_b));
                    assert!(a[next_a].same_key(&b[next_b]));
                    assert_eq!(divergence_of(&a[next_a], &b[next_b]), Some(*kind));
                    next_a += 1;
                    next_b += 1;
                    pairs += 1;
                }
                ReportEntry::OnlyInA { index_a } => {
                    assert_eq!(*index_a, next_a);
                    next_a += 1;
                }
                ReportEntry::OnlyInB { index_b } => {
                    assert_eq!(*index_b, next_b);
                    next_b += 1;
                }
            }
        }
        assert_eq!((next_a, next_b), (a.len(), b.len()));
        // As many pairs as the longest common subsequence of the keys has.
        let mut table = vec![vec![0usize; b.len() + 1]; a.len() + 1];
        for i in (0..a.len()).rev() {
            for j in (0..b.len()).rev() {
                table[i][j] = if a[i].same_key(&b[j]) {
                    1 + table[i + 1][j + 1]
                } else {
                    table[i + 1][j].max(table[i][j + 1])
                };
            }
        }
        assert_eq!(pairs, table[0][0]);
        // Comparing a trace with itself is the identity.
        assert_eq!(compare(&trace(a.clone()), &trace(a)).verdict(), Verdict::Identical);
    }
}
