use soroban_debugger::analyzer::{analyze, FunctionUsage, Suggestion, HOT_SPOT_PERCENT};
use soroban_debugger::text::decimal;
use soroban_debugger::trace::step::{Budget, ExecutionTrace, StepPayload};

fn sample(name: &str, cpu: u64, memory: u64) -> StepPayload {
    StepPayload::BudgetSample { function: name.to_string(), budget: Budget { cpu, memory } }
}

fn run(payloads: Vec<StepPayload>) -> ExecutionTrace {
    ExecutionTrace::from_payloads(payloads, Budget { cpu: 0, memory: 0 }, None)
}

#[test]
fn usage_is_aggregated_and_ranked() {
    let traces = vec![
        run(vec![
            StepPayload::FunctionEntry { function: "transfer".to_string() },
            sample("helper", 10, 4),
            sample("transfer", 60, 100),
            sample("helper", 15, 2),
        ]),
        run(vec![sample("transfer", 70, 90), sample("log", 5, 1), sample("helper", 40, 3)]),
    ];
    let report = analyze(&traces);
    assert_eq!(report.total, Budget { cpu: 200, memory: 200 });
    assert_eq!(
        report.usage,
        vec![
            FunctionUsage {
                function: "transfer".to_string(),
                calls: 2,
                cpu: 130,
                memory: 190,
                peak_cpu: 70,
                peak_memory: 100,
            },
            FunctionUsage {
                function: "helper".to_string(),
                calls: 3,
                cpu: 65,
                memory: 9,
                peak_cpu: 40,
                peak_memory: 4,
            },
            FunctionUsage {
                function: "log".to_string(),
                calls: 1,
                cpu: 5,
                memory: 1,
                peak_cpu: 5,
                peak_memory: 1,
            },
        ]
    );
    assert_eq!(
        report.suggestions,
        vec![
            Suggestion {
                function: "transfer".to_string(),
                percent: 65,
                calls: 2,
                message: "function transfer consumes 65% of the total budget across 2 calls \
                          — consider reducing storage reads in transfer"
                    .to_string(),
            },
            Suggestion {
                function: "helper".to_string(),
                percent: 32,
                calls: 3,
                message: "function helper consumes 32% of the total budget across 3 calls \
                          — consider reducing storage reads in helper"
                    .to_string(),
            },
        ]
    );
}

#[test]
fn share_below_the_threshold_gets_no_suggestion() {
    assert_eq!(HOT_SPOT_PERCENT, 20);
    // 19 of 100 is below the threshold, 20 of 100 reaches it.
    let report = analyze(&vec![run(vec![sample("a", 19, 0), sample("b", 81, 0)])]);
    let names: Vec<&str> = report.suggestions.iter().map(|s| s.function.as_str()).collect();
    assert_eq!(names, vec!["b"]);
    let report = analyze(&vec![run(vec![sample("a", 20, 0), sample("b", 80, 0)])]);
    let names: Vec<&str> = report.suggestions.iter().map(|s| s.function.as_str()).collect();
    assert_eq!(names, vec!["b", "a"]);
    assert_eq!(report.suggestions[1].percent, 20);
}

#[test]
fn equal_consumers_keep_their_order() {
    let report =
        analyze(&vec![run(vec![sample("x", 5, 0), sample("y", 5, 0), sample("z", 9, 0)])]);
    let names: Vec<&str> = report.usage.iter().map(|u| u.function.as_str()).collect();
    assert_eq!(names, vec!["z", "x", "y"]);
}

#[test]
fn analysis_without_samples_is_empty() {
    let report = analyze(&Vec::new());
    assert_eq!(report.total, Budget { cpu: 0, memory: 0 });
    assert!(report.usage.is_empty());
    assert!(report.suggestions.is_empty());
    let report = analyze(&vec![run(vec![sample("idle", 0, 0)])]);
    assert_eq!(report.usage.len(), 1);
    assert!(report.suggestions.is_empty());
}

#[test]
fn sums_are_held_at_the_maximum() {
    let report =
        analyze(&vec![run(vec![sample("big", u64::MAX, 1), sample("big", 5, u64::MAX)])]);
    assert_eq!(report.total, Budget { cpu: u64::MAX, memory: u64::MAX });
    assert_eq!(report.usage[0].cpu, u64::MAX);
    assert_eq!(report.usage[0].memory, u64::MAX);
    assert_eq!(report.usage[0].peak_cpu, u64::MAX);
    assert_eq!(report.suggestions[0].percent, 100);
}

#[test]
fn analysis_is_deterministic() {
    let traces = vec![run(vec![sample("a", 3, 1), sample("b", 7, 2), sample("a", 4, 1)])];
    assert_eq!(analyze(&traces), analyze(&traces));
}

#[test]
fn decimal_writes_numerals() {
    assert_eq!(decimal(0), "0");
    assert_eq!(decimal(7), "7");
    assert_eq!(decimal(10), "10");
    assert_eq!(decimal(12345), "12345");
    assert_eq!(decimal(u64::MAX), "18446744073709551615");
}
