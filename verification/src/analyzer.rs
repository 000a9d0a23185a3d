//! The budget analyzer: which functions consume the resource budget, and
//! what to do about the largest consumers.
//!
//! The analyzer reads sealed traces and nothing else. Each budget sample of
//! a trace is counted towards the function it names; the functions are
//! ranked by the compute units they consumed; a function that consumed a
//! fifth of the total or more gets a suggestion.

use crate::text::{decimal, decimal_digits, str_eq};
use crate::trace::step::{payload_views, Budget, ExecutionTrace, PayloadView, StepPayload};
use vstd::prelude::*;
use vstd::string::*;

verus! {

/// The share of the total compute units, in percent, from which a function
/// gets a suggestion.
pub const HOT_SPOT_PERCENT: u64 = 20;

/// What one function consumed over the traces analyzed. Sums that exceed
/// `u64::MAX` are held at `u64::MAX`.
#[derive(Debug, Clone, PartialEq, Eq)]
pub struct FunctionUsage {
    /// The function.
    pub function: String,
    /// The number of budget samples that name the function, one for each
    /// call that the backend reported on.
    pub calls: u64,
    /// The compute units of all its samples.
    pub cpu: u64,
    /// The memory units of all its samples.
    pub memory: u64,
    /// The most compute units that one sample reports.
    pub peak_cpu: u64,
    /// The most memory units that one sample reports.
    pub peak_memory: u64,
}

/// A usage as a plain value.
pub struct UsageView {
    pub function: Seq<char>,
    pub calls: u64,
    pub cpu: u64,
    pub memory: u64,
    pub peak_cpu: u64,
    pub peak_memory: u64,
}

impl View for FunctionUsage {
    type V = UsageView;

    open spec fn view(&self) -> UsageView {
        UsageView {
            function: self.function@,
            calls: self.calls,
            cpu: self.cpu,
            memory: self.memory,
            peak_cpu: self.peak_cpu,
            peak_memory: self.peak_memory,
        }
    }
}

impl FunctionUsage {
    /// A copy of the usage.
    pub fn duplicate(&self) -> (copy: Self)
        ensures
            copy@ == self@,
    {
        FunctionUsage {
            function: self.function.clone(),
            calls: self.calls,
            cpu: self.cpu,
            memory: self.memory,
            peak_cpu: self.peak_cpu,
            peak_memory: self.peak_memory,
        }
    }
}

/// A hint at what to optimize.
#[derive(Debug, Clone, PartialEq, Eq)]
pub struct Suggestion {
    /// The function that the suggestion is about.
    pub function: String,
    /// Its share of the total compute units, in percent, rounded down.
    pub percent: u64,
    /// The number of calls over which it consumed them.
    pub calls: u64,
    /// The suggestion in words.
    pub message: String,
}

/// A suggestion as a plain value.
pub struct SuggestionView {
    pub function: Seq<char>,
    pub percent: u64,
    pub calls: u64,
    pub message: Seq<char>,
}

impl View for Suggestion {
    type V = SuggestionView;

    open spec fn view(&self) -> SuggestionView {
        SuggestionView {
            function: self.function@,
            percent: self.percent,
            calls: self.calls,
            message: self.message@,
        }
    }
}

/// The result of an analysis.
#[derive(Debug, Clone, PartialEq, Eq)]
pub struct OptimizationReport {
    /// The compute and memory units of all samples.
    pub total: Budget,
    /// The usage of each function, the largest consumer of compute units
    /// first.
    pub usage: Vec<FunctionUsage>,
    /// The suggestions, in the order of the usage.
    pub suggestions: Vec<Suggestion>,
}

/// The usages as plain values.
pub open spec fn usage_views(usage: Seq<FunctionUsage>) -> Seq<UsageView> {
    Seq::new(usage.len(), |i: int| usage[i]@)
}

/// The suggestions as plain values.
pub open spec fn suggestion_views(suggestions: Seq<Suggestion>) -> Seq<SuggestionView> {
    Seq::new(suggestions.len(), |i: int| suggestions[i]@)
}

/// The sum of two amounts, held at `u64::MAX`.
pub open spec fn capped_sum(a: u64, b: u64) -> u64 {
    if a + b > u64::MAX {
        u64::MAX
    } else {
        (a + b) as u64
    }
}

/// The larger of two amounts.
pub open spec fn larger(a: u64, b: u64) -> u64 {
    if a >= b {
        a
    } else {
        b
    }
}

/// The first position from `from` at which `usage` holds `function`, or
/// the length of `usage` where there is none.
pub open spec fn usage_position(usage: Seq<UsageView>, function: Seq<char>, from: int) -> int
    decreases usage.len() - from,
{
    if from < 0 || from >= usage.len() {
        usage.len() as int
    } else if usage[from].function == function {
        from
    } else {
        usage_position(usage, function, from + 1)
    }
}

/// A usage with one more sample counted.
pub open spec fn with_budget(usage: UsageView, budget: Budget) -> UsageView {
    UsageView {
        function: usage.function,
        calls: capped_sum(usage.calls, 1),
        cpu: capped_sum(usage.cpu, budget.cpu),
        memory: capped_sum(usage.memory, budget.memory),
        peak_cpu: larger(usage.peak_cpu, budget.cpu),
        peak_memory: larger(usage.peak_memory, budget.memory),
    }
}

/// The usage of a function of which nothing was sampled yet.
pub open spec fn unused(function: Seq<char>) -> UsageView {
    UsageView { function, calls: 0, cpu: 0, memory: 0, peak_cpu: 0, peak_memory: 0 }
}

/// The usages after one more sample: the sample is counted towards its
/// function, which is added after the others if it is new.
pub open spec fn with_sample(usage: Seq<UsageView>, function: Seq<char>, budget: Budget) -> Seq<
    UsageView,
> {
    let at = usage_position(usage, function, 0);
    if at < usage.len() {
        usage.update(at, with_budget(usage[at], budget))
    } else {
        usage.push(with_budget(unused(function), budget))
    }
}

/// The usages after the budget samples among `steps`, starting from
/// `usage`. Functions stand in the order of their first sample.
pub open spec fn usage_after(usage: Seq<UsageView>, steps: Seq<PayloadView>) -> Seq<UsageView>
    decreases steps.len(),
{
    if steps.len() == 0 {
        usage
    } else {
        let before = usage_after(usage, steps.drop_last());
        match steps.last() {
            PayloadView::BudgetSample { function, budget } => with_sample(before, function, budget),
            _ => before,
        }
    }
}

/// The total after the budget samples among `steps`, starting from
/// `total`.
pub open spec fn total_after(total: Budget, steps: Seq<PayloadView>) -> Budget
    decreases steps.len(),
{
    if steps.len() == 0 {
        total
    } else {
        let before = total_after(total, steps.drop_last());
        match steps.last() {
            PayloadView::BudgetSample { budget, .. } => Budget {
                cpu: capped_sum(before.cpu, budget.cpu),
                memory: capped_sum(before.memory, budget.memory),
            },
            _ => before,
        }
    }
}

/// The usages after the budget samples of all `traces`, in their order.
pub open spec fn usage_of(traces: Seq<Seq<PayloadView>>) -> Seq<UsageView>
    decreases traces.len(),
{
    if traces.len() == 0 {
        Seq::empty()
    } else {
        usage_after(usage_of(traces.drop_last()), traces.last())
    }
}

/// The total of the budget samples of all `traces`.
pub open spec fn total_of(traces: Seq<Seq<PayloadView>>) -> Budget
    decreases traces.len(),
{
    if traces.len() == 0 {
        Budget { cpu: 0, memory: 0 }
    } else {
        total_after(total_of(traces.drop_last()), traces.last())
    }
}

/// The first position from `from` at which `ranked` holds a usage of less
/// than `cpu` compute units, or the length of `ranked`.
pub open spec fn rank_position(ranked: Seq<UsageView>, cpu: u64, from: int) -> int
    decreases ranked.len() - from,
{
    if from < 0 || from >= ranked.len() {
        ranked.len() as int
    } else if ranked[from].cpu < cpu {
        from
    } else {
        rank_position(ranked, cpu, from + 1)
    }
}

/// The usages ranked by compute units, the largest first; among equals the
/// one that came first stays first.
pub open spec fn ranked(usage: Seq<UsageView>) -> Seq<UsageView>
    decreases usage.len(),
{
    if usage.len() == 0 {
        Seq::empty()
    } else {
        let before = ranked(usage.drop_last());
        before.insert(rank_position(before, usage.last().cpu, 0), usage.last())
    }
}

/// The share of `cpu` in `total`, in percent, rounded down; zero where the
/// total is zero.
pub open spec fn share(cpu: u64, total: u64) -> int {
    if total == 0 {
        0
    } else {
        (cpu * 100) / (total as int)
    }
}

/// The words of a suggestion.
pub open spec fn suggestion_text(function: Seq<char>, percent: u64, calls: u64) -> Seq<char> {
    "function "@ + function + " consumes "@ + decimal_digits(percent as nat)
        + "% of the total budget across "@ + decimal_digits(calls as nat)
        + " calls — consider reducing storage reads in "@ + function
}

/// The suggestions for the usages `usage` out of a total of `total`
/// compute units: one for each function whose share reaches
/// `HOT_SPOT_PERCENT`, in the order of the usages.
pub open spec fn suggestions_for(usage: Seq<UsageView>, total: u64) -> Seq<SuggestionView>
    decreases usage.len(),
{
    if usage.len() == 0 {
        Seq::empty()
    } else {
        let before = suggestions_for(usage.drop_last(), total);
        let last = usage.last();
        let percent = share(last.cpu, total);
        if HOT_SPOT_PERCENT <= percent <= u64::MAX {
            before.push(
                SuggestionView {
                    function: last.function,
                    percent: percent as u64,
                    calls: last.calls,
                    message: suggestion_text(last.function, percent as u64, last.calls),
                },
            )
        } else {
            before
        }
    }
}

/// The ranked usages are in order: none consumed more compute units than
/// one before it.
pub proof fn lemma_ranked_in_order(usage: Seq<UsageView>)
    ensures
        ranked(usage).len() == usage.len(),
        forall|i: int, j: int|
            0 <= i <= j < ranked(usage).len() ==> ranked(usage)[i].cpu >= ranked(usage)[j].cpu,
    decreases usage.len(),
{
    if usage.len() > 0 {
        lemma_ranked_in_order(usage.drop_last());
        let before = ranked(usage.drop_last());
        let cpu = usage.last().cpu;
        lemma_rank_position(before, cpu, 0);
        let at = rank_position(before, cpu, 0);
        let after = before.insert(at, usage.last());
        assert forall|i: int, j: int| 0 <= i <= j < after.len() implies after[i].cpu
            >= after[j].cpu by {
            if i < at && j > at {
                assert(after[i] == before[i]);
                assert(after[j] == before[j - 1]);
            } else if i < at && j < at {
                assert(after[i] == before[i]);
                assert(after[j] == before[j]);
            } else if i > at {
                assert(after[i] == before[i - 1]);
                assert(after[j] == before[j - 1]);
            } else if i == at && j > at {
                assert(after[j] == before[j - 1]);
                assert(before[at].cpu >= before[j - 1].cpu);
            } else if i < at && j == at {
                assert(after[i] == before[i]);
            }
        }
    }
}

/// Before the rank position no usage consumed less than `cpu`; at it, one
/// did.
proof fn lemma_rank_position(ranked: Seq<UsageView>, cpu: u64, from: int)
    requires
        0 <= from <= ranked.len(),
    ensures
        from <= rank_position(ranked, cpu, from) <= ranked.len(),
        forall|k: int| from <= k < rank_position(ranked, cpu, from) ==> ranked[k].cpu >= cpu,
        rank_position(ranked, cpu, from) < ranked.len() ==> ranked[rank_position(
            ranked,
            cpu,
            from,
        )].cpu < cpu,
    decreases ranked.len() - from,
{
    if from < ranked.len() && ranked[from].cpu >= cpu {
        lemma_rank_position(ranked, cpu, from + 1);
    }
}

/// Ranking keeps every usage, each as often as it occurs.
pub proof fn lemma_ranked_keeps_all(usage: Seq<UsageView>)
    ensures
        ranked(usage).to_multiset() == usage.to_multiset(),
    decreases usage.len(),
{
    broadcast use vstd::seq_lib::to_multiset_insert, vstd::seq_lib::to_multiset_build;

    if usage.len() > 0 {
        lemma_ranked_keeps_all(usage.drop_last());
        lemma_ranked_in_order(usage.drop_last());
        let before = ranked(usage.drop_last());
        lemma_rank_position(before, usage.last().cpu, 0);
        let at = rank_position(before, usage.last().cpu, 0);
        assert(before.insert(at, usage.last()).to_multiset() == before.to_multiset().insert(
            usage.last(),
        ));
        assert(usage.drop_last().push(usage.last()) == usage);
        assert(usage.to_multiset() == usage.drop_last().to_multiset().insert(usage.last()));
    } else {
        assert(ranked(usage) == usage);
    }
}

/// The sum of two amounts, held at `u64::MAX`.
fn add_capped(a: u64, b: u64) -> (sum: u64)
    ensures
        sum == capped_sum(a, b),
{
    if a > u64::MAX - b {
        u64::MAX
    } else {
        a + b
    }
}

/// Counts one sample towards its function.
fn count_sample(usage: &mut Vec<FunctionUsage>, function: &String, budget: &Budget)
    ensures
        usage_views(final(usage)@) == with_sample(usage_views(old(usage)@), function@, *budget),
{
    let ghost before = usage_views(usage@);
    let mut i: usize = 0;
    while i < usage.len()
        invariant
            i <= usage.len(),
            before == usage_views(usage@),
            before == usage_views(old(usage)@),
            usage_position(before, function@, 0) == usage_position(before, function@, i as int),
        decreases usage.len() - i,
    {
        assert(before[i as int] == usage@[i as int]@);
        if str_eq(usage[i].function.as_str(), function.as_str()) {
            let updated = FunctionUsage {
                function: usage[i].function.clone(),
                calls: add_capped(usage[i].calls, 1),
                cpu: add_capped(usage[i].cpu, budget.cpu),
                memory: add_capped(usage[i].memory, budget.memory),
                peak_cpu: if usage[i].peak_cpu >= budget.cpu {
                    usage[i].peak_cpu
                } else {
                    budget.cpu
                },
                peak_memory: if usage[i].peak_memory >= budget.memory {
                    usage[i].peak_memory
                } else {
                    budget.memory
                },
            };
            assert(usage_position(before, function@, i as int) == i);
            usage.set(i, updated);
            assert(usage_views(usage@) =~= before.update(
                i as int,
                with_budget(before[i as int], *budget),
            ));
            return ;
        }
        i += 1;
    }
    assert(usage_position(before, function@, i as int) == before.len());
    usage.push(
        FunctionUsage {
            function: function.clone(),
            calls: 1,
            cpu: budget.cpu,
            memory: budget.memory,
            peak_cpu: budget.cpu,
            peak_memory: budget.memory,
        },
    );
    assert(usage_views(usage@) =~= before.push(with_budget(unused(function@), *budget)));
}

/// Ranks the usages by compute units, the largest first.
fn rank(usage: &Vec<FunctionUsage>) -> (result: Vec<FunctionUsage>)
    ensures
        usage_views(result@) == ranked(usage_views(usage@)),
{
    let ghost views = usage_views(usage@);
    let mut result: Vec<FunctionUsage> = Vec::new();
    let mut i: usize = 0;
    assert(usage_views(result@) =~= ranked(views.take(0)));
    while i < usage.len()
        invariant
            i <= usage.len(),
            views == usage_views(usage@),
            usage_views(result@) == ranked(views.take(i as int)),
            result@.len() == i,
        decreases usage.len() - i,
    {
        let ghost before = usage_views(result@);
        proof {
            assert(views.take(i + 1).drop_last() == views.take(i as int));
            assert(views.take(i + 1).last() == usage@[i as int]@);
        }
        let cpu = usage[i].cpu;
        let mut at: usize = 0;
        while at < result.len() && result[at].cpu >= cpu
            invariant
                at <= result.len(),
                before == usage_views(result@),
                rank_position(before, cpu, 0) == rank_position(before, cpu, at as int),
            decreases result.len() - at,
        {
            assert(before[at as int] == result@[at as int]@);
            at += 1;
        }
        proof {
            if at < result.len() {
                assert(before[at as int] == result@[at as int]@);
            }
            assert(rank_position(before, cpu, 0) == at);
        }
        result.insert(at, usage[i].duplicate());
        assert(usage_views(result@) =~= before.insert(at as int, usage@[i as int]@));
        i += 1;
    }
    proof {
        assert(views.take(i as int) == views);
    }
    result
}

/// The share of `cpu` in `total`, in percent, rounded down and held at
/// `u64::MAX`.
fn percent_of(cpu: u64, total: u64) -> (percent: Option<u64>)
    ensures
        match percent {
            Some(p) => p == share(cpu, total),
            None => share(cpu, total) > u64::MAX,
        },
{
    if total == 0 {
        return Some(0);
    }
    let scaled: u128 = (cpu as u128) * 100;
    let quotient: u128 = scaled / (total as u128);
    if quotient > u64::MAX as u128 {
        None
    } else {
        Some(quotient as u64)
    }
}

/// Writes the suggestions for the ranked usages.
fn suggest(usage: &Vec<FunctionUsage>, total: u64) -> (suggestions: Vec<Suggestion>)
    ensures
        suggestion_views(suggestions@) == suggestions_for(usage_views(usage@), total),
{
    let ghost views = usage_views(usage@);
    let mut suggestions: Vec<Suggestion> = Vec::new();
    let mut i: usize = 0;
    assert(suggestion_views(suggestions@) =~= suggestions_for(views.take(0), total));
    while i < usage.len()
        invariant
            i <= usage.len(),
            views == usage_views(usage@),
            suggestion_views(suggestions@) == suggestions_for(views.take(i as int), total),
        decreases usage.len() - i,
    {
        let ghost before = suggestion_views(suggestions@);
        proof {
            assert(views.take(i + 1).drop_last() == views.take(i as int));
            assert(views.take(i + 1).last() == usage@[i as int]@);
        }
        match percent_of(usage[i].cpu, total) {
            Some(percent) => {
                if percent >= HOT_SPOT_PERCENT {
                    let function = usage[i].function.clone();
                    let calls = usage[i].calls;
                    let mut message = String::from_str("function ");
                    message.append(function.as_str());
                    message.append(" consumes ");
                    message.append(decimal(percent).as_str());
                    message.append("% of the total budget across ");
                    message.append(decimal(calls).as_str());
                    message.append(" calls — consider reducing storage reads in ");
                    message.append(function.as_str());
                    let suggestion = Suggestion { function, percent, calls, message };
                    let ghost view = suggestion@;
                    suggestions.push(suggestion);
                    assert(suggestion_views(suggestions@) =~= before.push(view));
                }
            },
            None => {},
        }
        i += 1;
    }
    proof {
        assert(views.take(i as int) == views);
    }
    suggestions
}

/// The views of the traces, in order.
pub open spec fn trace_views(traces: Seq<ExecutionTrace>) -> Seq<Seq<PayloadView>> {
    Seq::new(traces.len(), |i: int| traces[i]@)
}

/// Analyzes the resource usage that the traces record, one trace for each
/// run of the target function.
///
/// The report holds the total of all budget samples, the usage of each
/// function ranked by compute units, and a suggestion for each function
/// whose share of the total compute units reaches `HOT_SPOT_PERCENT`.
/// The traces are only read.
pub fn analyze(traces: &Vec<ExecutionTrace>) -> (report: OptimizationReport)
    ensures
        report.total == total_of(trace_views(traces@)),
        usage_views(report.usage@) == ranked(usage_of(trace_views(traces@))),
        suggestion_views(report.suggestions@) == suggestions_for(
            usage_views(report.usage@),
            report.total.cpu,
        ),
{
    let ghost all = trace_views(traces@);
    let mut usage: Vec<FunctionUsage> = Vec::new();
    let mut total = Budget { cpu: 0, memory: 0 };
    let mut t: usize = 0;
    assert(usage_views(usage@) =~= usage_of(all.take(0)));
    while t < traces.len()
        invariant
            t <= traces.len(),
            all == trace_views(traces@),
            usage_views(usage@) == usage_of(all.take(t as int)),
            total == total_of(all.take(t as int)),
        decreases traces.len() - t,
    {
        let steps = traces[t].steps();
        let ghost views = traces@[t as int]@;
        let ghost usage_before = usage_views(usage@);
        let ghost total_before = total;
        proof {
            assert(all.take(t + 1).drop_last() == all.take(t as int));
            assert(all.take(t + 1).last() == views);
        }
        let mut i: usize = 0;
        while i < steps.len()
            invariant
                i <= steps.len(),
                views == payload_views(steps@),
                usage_views(usage@) == usage_after(usage_before, views.take(i as int)),
                total == total_after(total_before, views.take(i as int)),
            decreases steps.len() - i,
        {
            proof {
                assert(views.take(i + 1).drop_last() == views.take(i as int));
                assert(views.take(i + 1).last() == steps@[i as int].payload@);
            }
            if let StepPayload::BudgetSample { function, budget } = &steps[i].payload {
                count_sample(&mut usage, function, budget);
                total = Budget {
                    cpu: add_capped(total.cpu, budget.cpu),
                    memory: add_capped(total.memory, budget.memory),
                };
            }
            i += 1;
        }
        proof {
            assert(views.take(i as int) == views);
        }
        t += 1;
    }
    proof {
        assert(all.take(t as int) == all);
    }
    let ranked_usage = rank(&usage);
    let suggestions = suggest(&ranked_usage, total.cpu);
    OptimizationReport { total, usage: ranked_usage, suggestions }
}

} // verus!
