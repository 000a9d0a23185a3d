//! The structural diff of two traces.
//!
//! The steps of the two traces are aligned along a longest common
//! subsequence of their keys. Steps that are aligned and agree are a match;
//! aligned steps that differ in what they carry are a divergence; the other
//! steps belong to one trace only.

use crate::text::{decimal, decimal_digits, str_eq};
use crate::trace::step::{
    option_str_eq, payload_views, Budget, ExecutionStep, ExecutionTrace, PayloadView,
    StepPayload,
};
use vstd::prelude::*;
use vstd::string::*;

verus! {

/// What two aligned steps differ in.
#[derive(Debug, Clone, Copy, PartialEq, Eq, Structural)]
pub enum DivergenceKind {
    /// The same storage key was written with different values.
    StorageValue,
    /// The same function returned different values.
    ReturnOutcome,
    /// The same function consumed different resources.
    ResourceUsage,
    /// Different events were emitted at the same place.
    EventData,
}

impl DivergenceKind {
    /// Whether a divergence of this kind makes two traces incompatible: it
    /// touches a storage value or the observable outcome of a function.
    pub open spec fn is_breaking(self) -> bool {
        self is StorageValue || self is ReturnOutcome
    }

    /// Whether a divergence of this kind makes two traces incompatible.
    pub fn breaking(&self) -> (breaking: bool)
        ensures
            breaking == self.is_breaking(),
    {
        match self {
            DivergenceKind::StorageValue | DivergenceKind::ReturnOutcome => true,
            _ => false,
        }
    }
}

/// The top-level result of a comparison.
#[derive(Debug, Clone, Copy, PartialEq, Eq, Structural)]
pub enum Verdict {
    /// Every step of either trace is matched by an equal step of the other.
    Identical,
    /// The traces differ, but in no storage value and in no outcome of a
    /// function.
    CompatibleWithDifferences,
    /// Some divergence touches a storage value or the outcome of a function.
    Incompatible,
}

/// One entry of a comparison: a pair of aligned steps, or a step that only
/// one trace has. Steps are named by their position in their trace.
#[derive(Debug, Clone, PartialEq, Eq)]
pub enum ReportEntry {
    Match { index_a: usize, index_b: usize },
    Divergence { index_a: usize, index_b: usize, kind: DivergenceKind, detail: String },
    OnlyInA { index_a: usize },
    OnlyInB { index_b: usize },
}

/// An entry as a plain value.
pub enum EntryView {
    Match { index_a: int, index_b: int },
    Divergence { index_a: int, index_b: int, kind: DivergenceKind, detail: Seq<char> },
    OnlyInA { index_a: int },
    OnlyInB { index_b: int },
}

impl View for ReportEntry {
    type V = EntryView;

    open spec fn view(&self) -> EntryView {
        match *self {
            ReportEntry::Match { index_a, index_b } => EntryView::Match {
                index_a: index_a as int,
                index_b: index_b as int,
            },
            ReportEntry::Divergence { index_a, index_b, kind, detail } => EntryView::Divergence {
                index_a: index_a as int,
                index_b: index_b as int,
                kind,
                detail: detail@,
            },
            ReportEntry::OnlyInA { index_a } => EntryView::OnlyInA { index_a: index_a as int },
            ReportEntry::OnlyInB { index_b } => EntryView::OnlyInB { index_b: index_b as int },
        }
    }
}

/// The entries as plain values.
pub open spec fn entry_views(entries: Seq<ReportEntry>) -> Seq<EntryView> {
    Seq::new(entries.len(), |i: int| entries[i]@)
}

/// What two steps with the same key differ in, or `None` where they agree.
/// An exit that differs in its return value diverges in outcome, whatever
/// its resources.
pub open spec fn divergence(x: PayloadView, y: PayloadView) -> Option<DivergenceKind> {
    match (x, y) {
        (
            PayloadView::StorageWrite { value: v, .. },
            PayloadView::StorageWrite { value: w, .. },
        ) => if v == w {
            None
        } else {
            Some(DivergenceKind::StorageValue)
        },
        (
            PayloadView::FunctionExit { value: v, budget: c, .. },
            PayloadView::FunctionExit { value: w, budget: d, .. },
        ) => if v != w {
            Some(DivergenceKind::ReturnOutcome)
        } else if c != d {
            Some(DivergenceKind::ResourceUsage)
        } else {
            None
        },
        (PayloadView::EventEmitted { event: v }, PayloadView::EventEmitted { event: w }) => if v
            == w {
            None
        } else {
            Some(DivergenceKind::EventData)
        },
        (
            PayloadView::BudgetSample { budget: c, .. },
            PayloadView::BudgetSample { budget: d, .. },
        ) => if c == d {
            None
        } else {
            Some(DivergenceKind::ResourceUsage)
        },
        _ => None,
    }
}

/// The text that stands for resource units.
pub open spec fn budget_text(budget: Budget) -> Seq<char> {
    "cpu="@ + decimal_digits(budget.cpu as nat) + " memory="@ + decimal_digits(
        budget.memory as nat,
    )
}

/// The text that stands for what a step carries, as far as a divergence of
/// `kind` concerns it.
pub open spec fn carried_text(step: PayloadView, kind: DivergenceKind) -> Seq<char> {
    match step {
        PayloadView::StorageWrite { value, .. } => value,
        PayloadView::EventEmitted { event } => event,
        PayloadView::BudgetSample { budget, .. } => budget_text(budget),
        PayloadView::FunctionExit { value, budget, .. } => if kind is ReturnOutcome {
            match value {
                Some(v) => v,
                None => "(none)"@,
            }
        } else {
            match budget {
                Some(b) => budget_text(b),
                None => "(none)"@,
            }
        },
        PayloadView::FunctionEntry { function } => function,
    }
}

/// The detail of a divergence: what the step of the first trace carries,
/// an arrow, and what the step of the second carries.
pub open spec fn detail_text(x: PayloadView, y: PayloadView, kind: DivergenceKind) -> Seq<char> {
    carried_text(x, kind) + " -> "@ + carried_text(y, kind)
}

/// The length of a longest common subsequence, by key, of the steps of `a`
/// from position `i` and the steps of `b` from position `j`.
pub open spec fn lcs_len(a: Seq<PayloadView>, b: Seq<PayloadView>, i: int, j: int) -> nat
    decreases a.len() - i + b.len() - j,
{
    if i < 0 || j < 0 || i >= a.len() || j >= b.len() {
        0
    } else if a[i].key() == b[j].key() {
        1 + lcs_len(a, b, i + 1, j + 1)
    } else if lcs_len(a, b, i + 1, j) >= lcs_len(a, b, i, j + 1) {
        lcs_len(a, b, i + 1, j)
    } else {
        lcs_len(a, b, i, j + 1)
    }
}

/// The entry for the aligned steps number `i` of `a` and number `j` of `b`.
pub open spec fn pair_entry(a: Seq<PayloadView>, b: Seq<PayloadView>, i: int, j: int) -> EntryView {
    match divergence(a[i], b[j]) {
        None => EntryView::Match { index_a: i, index_b: j },
        Some(kind) => EntryView::Divergence {
            index_a: i,
            index_b: j,
            kind,
            detail: detail_text(a[i], b[j], kind),
        },
    }
}

/// The alignment of the steps of `a` from position `i` with the steps of
/// `b` from position `j`. Steps with equal keys at the two positions are
/// aligned; otherwise the step is set aside whose omission leaves the
/// longer common subsequence, that of `a` on a tie.
pub open spec fn alignment(a: Seq<PayloadView>, b: Seq<PayloadView>, i: int, j: int) -> Seq<
    EntryView,
>
    decreases a.len() - i + b.len() - j,
{
    if i < 0 || j < 0 || i > a.len() || j > b.len() || (i == a.len() && j == b.len()) {
        Seq::empty()
    } else if i == a.len() {
        seq![EntryView::OnlyInB { index_b: j }] + alignment(a, b, i, j + 1)
    } else if j == b.len() {
        seq![EntryView::OnlyInA { index_a: i }] + alignment(a, b, i + 1, j)
    } else if a[i].key() == b[j].key() {
        seq![pair_entry(a, b, i, j)] + alignment(a, b, i + 1, j + 1)
    } else if lcs_len(a, b, i + 1, j) >= lcs_len(a, b, i, j + 1) {
        seq![EntryView::OnlyInA { index_a: i }] + alignment(a, b, i + 1, j)
    } else {
        seq![EntryView::OnlyInB { index_b: j }] + alignment(a, b, i, j + 1)
    }
}

/// Whether some entry is a divergence that touches a storage value or the
/// outcome of a function.
pub open spec fn has_breaking(entries: Seq<EntryView>) -> bool {
    exists|k: int|
        0 <= k < entries.len() && (#[trigger] entries[k]) is Divergence
            && entries[k]->Divergence_kind.is_breaking()
}

/// Whether every entry is a match.
pub open spec fn all_match(entries: Seq<EntryView>) -> bool {
    forall|k: int| 0 <= k < entries.len() ==> (#[trigger] entries[k]) is Match
}

/// The verdict on the entries of a comparison: `Incompatible` if and only
/// if some divergence is breaking; `Identical` if and only if there is no
/// divergence and no step on one side only.
pub open spec fn verdict_of(entries: Seq<EntryView>) -> Verdict {
    if has_breaking(entries) {
        Verdict::Incompatible
    } else if all_match(entries) {
        Verdict::Identical
    } else {
        Verdict::CompatibleWithDifferences
    }
}

/// The result of comparing two traces. It is produced once and only read
/// afterwards.
#[derive(Debug, Clone, PartialEq, Eq)]
pub struct ComparisonReport {
    entries: Vec<ReportEntry>,
    verdict: Verdict,
}

impl ComparisonReport {
    /// The entries of the report as plain values, in the order of the
    /// steps they name.
    pub closed spec fn spec_entries(&self) -> Seq<EntryView> {
        entry_views(self.entries@)
    }

    /// The verdict of the report.
    pub closed spec fn spec_verdict(&self) -> Verdict {
        self.verdict
    }

    /// The entries of the report.
    pub fn entries(&self) -> (entries: &Vec<ReportEntry>)
        ensures
            entry_views(entries@) == self.spec_entries(),
    {
        &self.entries
    }

    /// The verdict of the report.
    pub fn verdict(&self) -> (verdict: Verdict)
        ensures
            verdict == self.spec_verdict(),
    {
        self.verdict
    }

    /// The number of divergences among the entries.
    pub fn divergence_count(&self) -> (count: usize)
        ensures
            count == self.spec_entries().filter(|e: EntryView| e is Divergence).len(),
    {
        let mut count: usize = 0;
        let mut k: usize = 0;
        let ghost views = self.spec_entries();
        while k < self.entries.len()
            invariant
                k <= self.entries.len(),
                views == entry_views(self.entries@),
                count == views.take(k as int).filter(|e: EntryView| e is Divergence).len(),
                count <= k,
            decreases self.entries.len() - k,
        {
            proof {
                assert(views.take(k + 1).drop_last() == views.take(k as int));
                reveal(Seq::filter);
            }
            if let ReportEntry::Divergence { .. } = &self.entries[k] {
                count += 1;
            }
            k += 1;
        }
        proof {
            assert(views.take(k as int) == views);
        }
        count
    }
}

/// The common subsequence from `i`, `j` is no longer than what is left of
/// either trace.
pub proof fn lemma_lcs_bound(a: Seq<PayloadView>, b: Seq<PayloadView>, i: int, j: int)
    requires
        0 <= i <= a.len(),
        0 <= j <= b.len(),
    ensures
        lcs_len(a, b, i, j) <= a.len() - i,
        lcs_len(a, b, i, j) <= b.len() - j,
    decreases a.len() - i + b.len() - j,
{
    if i < a.len() && j < b.len() {
        lemma_lcs_bound(a, b, i + 1, j + 1);
        lemma_lcs_bound(a, b, i + 1, j);
        lemma_lcs_bound(a, b, i, j + 1);
    }
}

/// A step does not diverge from itself.
pub proof fn lemma_no_divergence_from_itself(x: PayloadView)
    ensures
        divergence(x, x) is None,
{
}

/// The entries that align two traces of `n` steps step by step from
/// position `i`, where the steps at `p` diverge by `kind` with `detail` and
/// the others match. With `p` outside the traces every entry is a match.
pub open spec fn stepwise_entries(
    n: int,
    i: int,
    p: int,
    kind: DivergenceKind,
    detail: Seq<char>,
) -> Seq<EntryView> {
    Seq::new(
        (n - i) as nat,
        |k: int|
            if i + k == p {
                EntryView::Divergence { index_a: p, index_b: p, kind, detail }
            } else {
                EntryView::Match { index_a: i + k, index_b: i + k }
            },
    )
}

/// Two traces with the same keys at every position are aligned step by
/// step.
proof fn lemma_stepwise_alignment(
    a: Seq<PayloadView>,
    b: Seq<PayloadView>,
    i: int,
    p: int,
    kind: DivergenceKind,
)
    requires
        a.len() == b.len(),
        0 <= i <= a.len(),
        forall|k: int| 0 <= k < a.len() ==> (#[trigger] a[k]).key() == b[k].key(),
        forall|k: int| 0 <= k < a.len() && k != p ==> divergence(#[trigger] a[k], b[k]) is None,
        0 <= p < a.len() ==> divergence(a[p], b[p]) == Some(kind),
    ensures
        alignment(a, b, i, i) == stepwise_entries(
            a.len() as int,
            i,
            p,
            kind,
            detail_text(a[p], b[p], kind),
        ),
    decreases a.len() - i,
{
    let n = a.len() as int;
    let expected = stepwise_entries(n, i, p, kind, detail_text(a[p], b[p], kind));
    if i < n {
        lemma_stepwise_alignment(a, b, i + 1, p, kind);
        let rest = stepwise_entries(n, i + 1, p, kind, detail_text(a[p], b[p], kind));
        assert(a[i].key() == b[i].key());
        assert(alignment(a, b, i, i) == seq![pair_entry(a, b, i, i)] + rest);
        if i != p {
            assert(divergence(a[i], b[i]) is None);
        }
        assert(seq![pair_entry(a, b, i, i)] + rest =~= expected);
    } else {
        assert(alignment(a, b, i, i) =~= expected);
    }
}

/// Comparing a trace with itself: every step is matched with itself, no
/// entry is a divergence, and the verdict is `Identical`.
pub proof fn lemma_compare_with_itself(t: Seq<PayloadView>)
    ensures
        alignment(t, t, 0, 0).len() == t.len(),
        forall|k: int|
            0 <= k < t.len() ==> #[trigger] alignment(t, t, 0, 0)[k] == (EntryView::Match {
                index_a: k,
                index_b: k,
            }),
        verdict_of(alignment(t, t, 0, 0)) == Verdict::Identical,
{
    assert forall|k: int| 0 <= k < t.len() implies divergence(#[trigger] t[k], t[k]) is None by {
        lemma_no_divergence_from_itself(t[k]);
    }
    lemma_stepwise_alignment(t, t, 0, -1, DivergenceKind::StorageValue);
    let entries = alignment(t, t, 0, 0);
    assert forall|k: int| 0 <= k < entries.len() implies (#[trigger] entries[k]) is Match by {}
    assert(!has_breaking(entries));
}

/// Comparing two traces that differ only in the value written under one
/// storage key at step `p`: the entry for step `p` is a divergence in a
/// storage value, every other entry is a match, and the verdict is
/// `Incompatible`.
pub proof fn lemma_compare_one_storage_value(a: Seq<PayloadView>, b: Seq<PayloadView>, p: int)
    requires
        a.len() == b.len(),
        0 <= p < a.len(),
        forall|k: int| 0 <= k < a.len() && k != p ==> #[trigger] a[k] == b[k],
        a[p] is StorageWrite,
        b[p] is StorageWrite,
        a[p]->StorageWrite_key == b[p]->StorageWrite_key,
        a[p]->StorageWrite_value != b[p]->StorageWrite_value,
    ensures
        alignment(a, b, 0, 0).len() == a.len(),
        forall|k: int|
            0 <= k < a.len() && k != p ==> #[trigger] alignment(a, b, 0, 0)[k] == (
            EntryView::Match { index_a: k, index_b: k }),
        alignment(a, b, 0, 0)[p] == (EntryView::Divergence {
            index_a: p,
            index_b: p,
            kind: DivergenceKind::StorageValue,
            detail: detail_text(a[p], b[p], DivergenceKind::StorageValue),
        }),
        verdict_of(alignment(a, b, 0, 0)) == Verdict::Incompatible,
{
    assert forall|k: int| 0 <= k < a.len() implies (#[trigger] a[k]).key() == b[k].key() by {
        if k != p {
            assert(a[k] == b[k]);
        }
    }
    assert forall|k: int| 0 <= k < a.len() && k != p implies divergence(#[trigger] a[k], b[k]) is None by {
        assert(a[k] == b[k]);
        lemma_no_divergence_from_itself(a[k]);
    }
    lemma_stepwise_alignment(a, b, 0, p, DivergenceKind::StorageValue);
    let entries = alignment(a, b, 0, 0);
    assert(entries[p] is Divergence && entries[p]->Divergence_kind.is_breaking());
}

/// Comparing two traces that differ only in the value that one function
/// returns at its exit, step `p`, whatever resources the two exits used:
/// the entry for step `p` is a divergence in the outcome of the return,
/// every other entry is a match, and the verdict is `Incompatible`.
pub proof fn lemma_compare_one_return_value(a: Seq<PayloadView>, b: Seq<PayloadView>, p: int)
    requires
        a.len() == b.len(),
        0 <= p < a.len(),
        forall|k: int| 0 <= k < a.len() && k != p ==> #[trigger] a[k] == b[k],
        a[p] is FunctionExit,
        b[p] is FunctionExit,
        a[p]->FunctionExit_function == b[p]->FunctionExit_function,
        a[p]->FunctionExit_value != b[p]->FunctionExit_value,
    ensures
        alignment(a, b, 0, 0).len() == a.len(),
        forall|k: int|
            0 <= k < a.len() && k != p ==> #[trigger] alignment(a, b, 0, 0)[k] == (
            EntryView::Match { index_a: k, index_b: k }),
        alignment(a, b, 0, 0)[p] == (EntryView::Divergence {
            index_a: p,
            index_b: p,
            kind: DivergenceKind::ReturnOutcome,
            detail: detail_text(a[p], b[p], DivergenceKind::ReturnOutcome),
        }),
        verdict_of(alignment(a, b, 0, 0)) == Verdict::Incompatible,
{
    assert forall|k: int| 0 <= k < a.len() implies (#[trigger] a[k]).key() == b[k].key() by {
        if k != p {
            assert(a[k] == b[k]);
        }
    }
    assert forall|k: int| 0 <= k < a.len() && k != p implies divergence(#[trigger] a[k], b[k]) is None by {
        assert(a[k] == b[k]);
        lemma_no_divergence_from_itself(a[k]);
    }
    lemma_stepwise_alignment(a, b, 0, p, DivergenceKind::ReturnOutcome);
    let entries = alignment(a, b, 0, 0);
    assert(entries[p] is Divergence && entries[p]->Divergence_kind.is_breaking());
}

/// The position in the first trace that an entry names, if it names one.
pub open spec fn position_a(entry: EntryView) -> Option<int> {
    match entry {
        EntryView::Match { index_a, .. } => Some(index_a),
        EntryView::Divergence { index_a, .. } => Some(index_a),
        EntryView::OnlyInA { index_a } => Some(index_a),
        EntryView::OnlyInB { .. } => None,
    }
}

/// The position in the second trace that an entry names, if it names one.
pub open spec fn position_b(entry: EntryView) -> Option<int> {
    match entry {
        EntryView::Match { index_b, .. } => Some(index_b),
        EntryView::Divergence { index_b, .. } => Some(index_b),
        EntryView::OnlyInB { index_b } => Some(index_b),
        EntryView::OnlyInA { .. } => None,
    }
}

/// The number of entries among the first `k` that name a position in the
/// first trace.
pub open spec fn count_a(entries: Seq<EntryView>, k: int) -> int
    decreases k,
{
    if k <= 0 {
        0
    } else {
        count_a(entries, k - 1) + if position_a(entries[k - 1]) is Some {
            1int
        } else {
            0int
        }
    }
}

/// The number of entries among the first `k` that name a position in the
/// second trace.
pub open spec fn count_b(entries: Seq<EntryView>, k: int) -> int
    decreases k,
{
    if k <= 0 {
        0
    } else {
        count_b(entries, k - 1) + if position_b(entries[k - 1]) is Some {
            1int
        } else {
            0int
        }
    }
}

/// The number of entries among the first `k` that pair two steps.
pub open spec fn count_pairs(entries: Seq<EntryView>, k: int) -> int
    decreases k,
{
    if k <= 0 {
        0
    } else {
        count_pairs(entries, k - 1) + if entries[k - 1] is Match || entries[k - 1] is Divergence {
            1int
        } else {
            0int
        }
    }
}

/// Whether the entries `entries` tell every step from position `i` of `a`
/// and from position `j` of `b` exactly once and in order: the entry
/// number `k` names, in each trace, the position after those that the
/// entries before it name. A pair has steps with the same key, and is a
/// match exactly where the steps do not diverge.
pub open spec fn is_alignment(
    a: Seq<PayloadView>,
    b: Seq<PayloadView>,
    i: int,
    j: int,
    entries: Seq<EntryView>,
) -> bool {
    &&& count_a(entries, entries.len() as int) == a.len() - i
    &&& count_b(entries, entries.len() as int) == b.len() - j
    &&& forall|k: int|
        0 <= k < entries.len() ==> (position_a(#[trigger] entries[k]) matches Some(p) ==> p == i
            + count_a(entries, k))
    &&& forall|k: int|
        0 <= k < entries.len() ==> (position_b(#[trigger] entries[k]) matches Some(q) ==> q == j
            + count_b(entries, k))
    &&& forall|k: int|
        0 <= k < entries.len() ==> match #[trigger] entries[k] {
            EntryView::Match { index_a, index_b } => a[index_a].key() == b[index_b].key()
                && divergence(a[index_a], b[index_b]) is None,
            EntryView::Divergence { index_a, index_b, kind, detail } => a[index_a].key()
                == b[index_b].key() && divergence(a[index_a], b[index_b]) == Some(kind) && detail
                == detail_text(a[index_a], b[index_b], kind),
            _ => true,
        }
}

/// Counting over entries behind a first entry.
proof fn lemma_counts_shift(first: EntryView, rest: Seq<EntryView>, k: int)
    requires
        0 <= k <= rest.len(),
    ensures
        count_a(seq![first] + rest, k + 1) == count_a(rest, k) + if position_a(first) is Some {
            1int
        } else {
            0int
        },
        count_b(seq![first] + rest, k + 1) == count_b(rest, k) + if position_b(first) is Some {
            1int
        } else {
            0int
        },
        count_pairs(seq![first] + rest, k + 1) == count_pairs(rest, k) + if first is Match
            || first is Divergence {
            1int
        } else {
            0int
        },
    decreases k,
{
    let all = seq![first] + rest;
    if k > 0 {
        lemma_counts_shift(first, rest, k - 1);
        assert(all[k] == rest[k - 1]);
    } else {
        assert(all[0] == first);
        assert(count_a(all, 0) == 0);
        assert(count_b(all, 0) == 0);
        assert(count_pairs(all, 0) == 0);
    }
}

/// The comparator's alignment tells every step of either trace exactly
/// once and in order, pairs only steps with the same key, and pairs as
/// many steps as a longest common subsequence of the keys has.
pub proof fn lemma_alignment_is_alignment(a: Seq<PayloadView>, b: Seq<PayloadView>, i: int, j: int)
    requires
        0 <= i <= a.len(),
        0 <= j <= b.len(),
    ensures
        is_alignment(a, b, i, j, alignment(a, b, i, j)),
        count_pairs(alignment(a, b, i, j), alignment(a, b, i, j).len() as int) == lcs_len(
            a,
            b,
            i,
            j,
        ),
    decreases a.len() - i + b.len() - j,
{
    let entries = alignment(a, b, i, j);
    if i == a.len() && j == b.len() {
        assert(entries =~= Seq::<EntryView>::empty());
    } else {
        let (first, ni, nj) = if i == a.len() {
            (EntryView::OnlyInB { index_b: j }, i, j + 1)
        } else if j == b.len() {
            (EntryView::OnlyInA { index_a: i }, i + 1, j)
        } else if a[i].key() == b[j].key() {
            (pair_entry(a, b, i, j), i + 1, j + 1)
        } else if lcs_len(a, b, i + 1, j) >= lcs_len(a, b, i, j + 1) {
            (EntryView::OnlyInA { index_a: i }, i + 1, j)
        } else {
            (EntryView::OnlyInB { index_b: j }, i, j + 1)
        };
        let rest = alignment(a, b, ni, nj);
        lemma_alignment_is_alignment(a, b, ni, nj);
        assert(entries == seq![first] + rest);
        lemma_counts_shift(first, rest, rest.len() as int);
        assert forall|k: int| 0 <= k < entries.len() implies (position_a(
            #[trigger] entries[k],
        ) matches Some(p) ==> p == i + count_a(entries, k)) by {
            if k > 0 {
                lemma_counts_shift(first, rest, k - 1);
                assert(entries[k] == rest[k - 1]);
            }
        }
        assert forall|k: int| 0 <= k < entries.len() implies (position_b(
            #[trigger] entries[k],
        ) matches Some(q) ==> q == j + count_b(entries, k)) by {
            if k > 0 {
                lemma_counts_shift(first, rest, k - 1);
                assert(entries[k] == rest[k - 1]);
            }
        }
        assert forall|k: int| 0 <= k < entries.len() implies match #[trigger] entries[k] {
            EntryView::Match { index_a, index_b } => a[index_a].key() == b[index_b].key()
                && divergence(a[index_a], b[index_b]) is None,
            EntryView::Divergence { index_a, index_b, kind, detail } => a[index_a].key()
                == b[index_b].key() && divergence(a[index_a], b[index_b]) == Some(kind) && detail
                == detail_text(a[index_a], b[index_b], kind),
            _ => true,
        } by {
            if k > 0 {
                assert(entries[k] == rest[k - 1]);
            }
        }
        if i == a.len() || j == b.len() {
            assert(lcs_len(a, b, i, j) == 0);
            assert(lcs_len(a, b, ni, nj) == 0);
        }
    }
}

/// A common subsequence of the keys of `a` from position `i` and of `b`
/// from position `j`: as many positions in `a` as in `b`, rising in both,
/// with the same key at positions of the same rank.
pub open spec fn is_common(
    a: Seq<PayloadView>,
    b: Seq<PayloadView>,
    i: int,
    j: int,
    in_a: Seq<int>,
    in_b: Seq<int>,
) -> bool {
    &&& in_a.len() == in_b.len()
    &&& forall|t: int| 0 <= t < in_a.len() ==> i <= #[trigger] in_a[t] < a.len()
    &&& forall|t: int| 0 <= t < in_b.len() ==> j <= #[trigger] in_b[t] < b.len()
    &&& forall|s: int, t: int| 0 <= s < t < in_a.len() ==> #[trigger] in_a[s] < #[trigger] in_a[t]
    &&& forall|s: int, t: int| 0 <= s < t < in_b.len() ==> #[trigger] in_b[s] < #[trigger] in_b[t]
    &&& forall|t: int| 0 <= t < in_a.len() ==> a[#[trigger] in_a[t]].key() == b[in_b[t]].key()
}

/// The common subsequence from a later position is no longer.
pub proof fn lemma_lcs_monotone(a: Seq<PayloadView>, b: Seq<PayloadView>, i: int, j: int)
    requires
        0 <= i <= a.len(),
        0 <= j <= b.len(),
    ensures
        i < a.len() ==> lcs_len(a, b, i + 1, j) <= lcs_len(a, b, i, j),
        j < b.len() ==> lcs_len(a, b, i, j + 1) <= lcs_len(a, b, i, j),
        i < a.len() && j < b.len() ==> lcs_len(a, b, i + 1, j + 1) <= lcs_len(a, b, i, j),
        i < a.len() && j < b.len() ==> lcs_len(a, b, i, j) <= 1 + lcs_len(a, b, i + 1, j + 1),
    decreases a.len() - i + b.len() - j,
{
    if i < a.len() && j < b.len() {
        lemma_lcs_monotone(a, b, i + 1, j);
        lemma_lcs_monotone(a, b, i, j + 1);
        lemma_lcs_monotone(a, b, i + 1, j + 1);
    } else if i < a.len() {
        assert(lcs_len(a, b, i + 1, j) == 0);
    } else if j < b.len() {
        assert(lcs_len(a, b, i, j + 1) == 0);
    }
}

/// No common subsequence is longer than `lcs_len` says.
pub proof fn lemma_lcs_is_longest(
    a: Seq<PayloadView>,
    b: Seq<PayloadView>,
    i: int,
    j: int,
    in_a: Seq<int>,
    in_b: Seq<int>,
)
    requires
        0 <= i <= a.len(),
        0 <= j <= b.len(),
        is_common(a, b, i, j, in_a, in_b),
    ensures
        in_a.len() <= lcs_len(a, b, i, j),
    decreases a.len() - i + b.len() - j,
{
    if in_a.len() > 0 {
        let p = in_a[0];
        let q = in_b[0];
        assert(i < a.len() && j < b.len());
        lemma_lcs_monotone(a, b, i, j);
        if p > i {
            assert(is_common(a, b, i + 1, j, in_a, in_b));
            lemma_lcs_is_longest(a, b, i + 1, j, in_a, in_b);
        } else if q > j {
            assert(is_common(a, b, i, j + 1, in_a, in_b));
            lemma_lcs_is_longest(a, b, i, j + 1, in_a, in_b);
        } else {
            let rest_a = in_a.subrange(1, in_a.len() as int);
            let rest_b = in_b.subrange(1, in_b.len() as int);
            assert forall|t: int| 0 <= t < rest_a.len() implies i + 1 <= #[trigger] rest_a[t]
                < a.len() by {
                assert(rest_a[t] == in_a[t + 1]);
                assert(in_a[0] < in_a[t + 1]);
            }
            assert forall|t: int| 0 <= t < rest_b.len() implies j + 1 <= #[trigger] rest_b[t]
                < b.len() by {
                assert(rest_b[t] == in_b[t + 1]);
                assert(in_b[0] < in_b[t + 1]);
            }
            assert forall|s: int, t: int| 0 <= s < t < rest_a.len() implies #[trigger] rest_a[s]
                < #[trigger] rest_a[t] by {
                assert(in_a[s + 1] < in_a[t + 1]);
            }
            assert forall|s: int, t: int| 0 <= s < t < rest_b.len() implies #[trigger] rest_b[s]
                < #[trigger] rest_b[t] by {
                assert(in_b[s + 1] < in_b[t + 1]);
            }
            assert forall|t: int| 0 <= t < rest_a.len() implies a[#[trigger] rest_a[t]].key()
                == b[rest_b[t]].key() by {
                assert(rest_a[t] == in_a[t + 1]);
                assert(rest_b[t] == in_b[t + 1]);
            }
            assert(is_common(a, b, i + 1, j + 1, rest_a, rest_b));
            lemma_lcs_is_longest(a, b, i + 1, j + 1, rest_a, rest_b);
            assert(a[i].key() == b[j].key());
        }
    }
}

/// What two steps with the same key differ in, or `None` where they agree.
pub fn divergence_of(x: &StepPayload, y: &StepPayload) -> (kind: Option<DivergenceKind>)
    ensures
        kind == divergence(x@, y@),
{
    match (x, y) {
        (StepPayload::StorageWrite { value: v, .. }, StepPayload::StorageWrite { value: w, .. }) => {
            if str_eq(v.as_str(), w.as_str()) {
                None
            } else {
                Some(DivergenceKind::StorageValue)
            }
        },
        (
            StepPayload::FunctionExit { value: v, budget: c, .. },
            StepPayload::FunctionExit { value: w, budget: d, .. },
        ) => {
            if !option_str_eq(v, w) {
                Some(DivergenceKind::ReturnOutcome)
            } else if !same_budget(c, d) {
                Some(DivergenceKind::ResourceUsage)
            } else {
                None
            }
        },
        (StepPayload::EventEmitted { event: v }, StepPayload::EventEmitted { event: w }) => {
            if str_eq(v.as_str(), w.as_str()) {
                None
            } else {
                Some(DivergenceKind::EventData)
            }
        },
        (
            StepPayload::BudgetSample { budget: c, .. },
            StepPayload::BudgetSample { budget: d, .. },
        ) => {
            if c.cpu == d.cpu && c.memory == d.memory {
                None
            } else {
                Some(DivergenceKind::ResourceUsage)
            }
        },
        _ => None,
    }
}

/// Whether two optional budgets are the same.
fn same_budget(c: &Option<Budget>, d: &Option<Budget>) -> (same: bool)
    ensures
        same == (*c == *d),
{
    match (c, d) {
        (Some(x), Some(y)) => x.cpu == y.cpu && x.memory == y.memory,
        (None, None) => true,
        _ => false,
    }
}

/// Writes resource units as text.
fn render_budget(budget: &Budget) -> (text: String)
    ensures
        text@ == budget_text(*budget),
{
    let mut text = String::from_str("cpu=");
    text.append(decimal(budget.cpu).as_str());
    text.append(" memory=");
    text.append(decimal(budget.memory).as_str());
    text
}

/// Writes what a step carries, as far as a divergence of `kind` concerns it.
fn render_carried(step: &StepPayload, kind: DivergenceKind) -> (text: String)
    ensures
        text@ == carried_text(step@, kind),
{
    match step {
        StepPayload::StorageWrite { value, .. } => value.clone(),
        StepPayload::EventEmitted { event } => event.clone(),
        StepPayload::BudgetSample { budget, .. } => render_budget(budget),
        StepPayload::FunctionExit { value, budget, .. } => {
            match kind {
                DivergenceKind::ReturnOutcome => match value {
                    Some(v) => v.clone(),
                    None => String::from_str("(none)"),
                },
                _ => match budget {
                    Some(b) => render_budget(b),
                    None => String::from_str("(none)"),
                },
            }
        },
        StepPayload::FunctionEntry { function } => function.clone(),
    }
}

/// A row of `width` zeros.
fn zero_row(width: usize) -> (row: Vec<usize>)
    ensures
        row@.len() == width,
        forall|j: int| 0 <= j < width ==> row@[j] == 0,
{
    let mut row: Vec<usize> = Vec::new();
    let mut j: usize = 0;
    while j < width
        invariant
            j <= width,
            row@.len() == j,
            forall|k: int| 0 <= k < j ==> row@[k] == 0,
        decreases width - j,
    {
        row.push(0);
        j += 1;
    }
    row
}

/// Whether `rows` holds, last row first, the lengths of the longest common
/// subsequences from every pair of positions in the rows it has.
spec fn is_table(rows: Seq<Vec<usize>>, a: Seq<PayloadView>, b: Seq<PayloadView>) -> bool {
    &&& rows.len() <= a.len()
    &&& forall|r: int| 0 <= r < rows.len() ==> (#[trigger] rows[r])@.len() == b.len()
    &&& forall|r: int, c: int|
        0 <= r < rows.len() && 0 <= c < b.len() ==> #[trigger] rows[r]@[c] == lcs_len(
            a,
            b,
            a.len() - 1 - r,
            c,
        )
}

/// Reads the table at `i`, `j`; positions past the end of a trace hold zero.
fn table_at(
    rows: &Vec<Vec<usize>>,
    i: usize,
    j: usize,
    Ghost(a): Ghost<Seq<PayloadView>>,
    Ghost(b): Ghost<Seq<PayloadView>>,
) -> (len: usize)
    requires
        is_table(rows@, a, b),
        rows@.len() == a.len(),
    ensures
        len == lcs_len(a, b, i as int, j as int),
{
    if i < rows.len() {
        let r = rows.len() - 1 - i;
        if j < rows[r].len() {
            return rows[r][j];
        }
    }
    0
}

/// Fills the table of the lengths of the longest common subsequences.
fn lcs_table(a: &Vec<ExecutionStep>, b: &Vec<ExecutionStep>) -> (rows: Vec<Vec<usize>>)
    ensures
        is_table(rows@, payload_views(a@), payload_views(b@)),
        rows@.len() == a.len(),
{
    let n = a.len();
    let m = b.len();
    let ghost va = payload_views(a@);
    let ghost vb = payload_views(b@);
    let mut rows: Vec<Vec<usize>> = Vec::new();
    let mut i: usize = n;
    while i > 0
        invariant
            n == a.len(),
            m == b.len(),
            va == payload_views(a@),
            vb == payload_views(b@),
            i <= n,
            rows@.len() == n - i,
            is_table(rows@, va, vb),
        decreases i,
    {
        i -= 1;
        let mut row = zero_row(m);
        let mut j: usize = m;
        while j > 0
            invariant
                n == a.len(),
                m == b.len(),
                va == payload_views(a@),
                vb == payload_views(b@),
                i < n,
                j <= m,
                row@.len() == m,
                rows@.len() == n - 1 - i,
                is_table(rows@, va, vb),
                forall|k: int| j <= k < m ==> row@[k] == lcs_len(va, vb, i as int, k),
            decreases j,
        {
            j -= 1;
            let held = rows.len();
            proof {
                assert(va[i as int] == a@[i as int].payload@);
                assert(vb[j as int] == b@[j as int].payload@);
            }
            let value = if a[i].payload.same_key(&b[j].payload) {
                let diagonal = if held > 0 && j + 1 < m {
                    rows[held - 1][j + 1]
                } else {
                    0
                };
                proof {
                    lemma_lcs_bound(va, vb, i + 1, j + 1);
                }
                1 + diagonal
            } else {
                let down = if held > 0 {
                    rows[held - 1][j]
                } else {
                    0
                };
                let right = if j + 1 < m {
                    row[j + 1]
                } else {
                    0
                };
                if down >= right {
                    down
                } else {
                    right
                }
            };
            proof {
                if held > 0 {
                    assert(n - 1 - (held - 1) == i + 1);
                    if j + 1 < m {
                        assert(rows@[held - 1]@[j + 1] == lcs_len(va, vb, i + 1, j + 1));
                    }
                    assert(rows@[held - 1]@[j as int] == lcs_len(va, vb, i + 1, j as int));
                }
                if held == 0 {
                    assert(lcs_len(va, vb, i + 1, j + 1) == 0);
                    assert(lcs_len(va, vb, i + 1, j as int) == 0);
                }
                if j + 1 >= m {
                    assert(lcs_len(va, vb, i + 1, j + 1) == 0);
                    assert(lcs_len(va, vb, i as int, j + 1) == 0);
                }
                assert(value == lcs_len(va, vb, i as int, j as int));
            }
            row.set(j, value);
        }
        let ghost before = rows@;
        rows.push(row);
        proof {
            assert forall|r: int| 0 <= r < rows@.len() implies (#[trigger] rows@[r])@.len()
                == m by {
                if r < before.len() {
                    assert(rows@[r] == before[r]);
                }
            }
            assert forall|r: int, c: int| 0 <= r < rows@.len() && 0 <= c < m implies #[trigger] rows@[r]@[c]
                == lcs_len(va, vb, n - 1 - r, c) by {
                if r < before.len() {
                    assert(rows@[r] == before[r]);
                }
            }
        }
    }
    rows
}

/// The verdict on `entries`.
fn judge(entries: &Vec<ReportEntry>) -> (verdict: Verdict)
    ensures
        verdict == verdict_of(entry_views(entries@)),
{
    let ghost views = entry_views(entries@);
    let mut breaking = false;
    let mut matching = true;
    let mut k: usize = 0;
    while k < entries.len()
        invariant
            k <= entries.len(),
            views == entry_views(entries@),
            breaking == has_breaking(views.take(k as int)),
            matching == all_match(views.take(k as int)),
        decreases entries.len() - k,
    {
        let ghost head = views.take(k as int);
        let ghost next = views.take(k + 1);
        proof {
            assert(next[k as int] == views[k as int]);
            assert forall|q: int| 0 <= q < k implies head[q] == next[q] by {}
        }
        match &entries[k] {
            ReportEntry::Match { .. } => {
                proof {
                    if has_breaking(next) {
                        let q = choose|q: int|
                            0 <= q < next.len() && (#[trigger] next[q]) is Divergence
                                && next[q]->Divergence_kind.is_breaking();
                        assert(head[q] is Divergence);
                    }
                    if has_breaking(head) {
                        let q = choose|q: int|
                            0 <= q < head.len() && (#[trigger] head[q]) is Divergence
                                && head[q]->Divergence_kind.is_breaking();
                        assert(next[q] is Divergence);
                    }
                    if all_match(head) {
                        assert forall|q: int| 0 <= q < next.len() implies (#[trigger] next[q]) is Match by {
                            if q < k {
                                assert(head[q] is Match);
                            }
                        }
                    }
                    if all_match(next) {
                        assert forall|q: int| 0 <= q < head.len() implies (#[trigger] head[q]) is Match by {
                            assert(next[q] is Match);
                        }
                    }
                }
            },
            ReportEntry::Divergence { kind, .. } => {
                let is_breaking = kind.breaking();
                proof {
                    assert(!(next[k as int] is Match));
                    if has_breaking(next) {
                        let q = choose|q: int|
                            0 <= q < next.len() && (#[trigger] next[q]) is Divergence
                                && next[q]->Divergence_kind.is_breaking();
                        if q < k {
                            assert(head[q] is Divergence);
                        }
                    }
                    if has_breaking(head) {
                        let q = choose|q: int|
                            0 <= q < head.len() && (#[trigger] head[q]) is Divergence
                                && head[q]->Divergence_kind.is_breaking();
                        assert(next[q] is Divergence);
                    }
                    if is_breaking {
                        assert(next[k as int] is Divergence);
                    }
                }
                if is_breaking {
                    breaking = true;
                }
                matching = false;
            },
            _ => {
                proof {
                    assert(!(next[k as int] is Match));
                    assert(!(next[k as int] is Divergence));
                    if has_breaking(next) {
                        let q = choose|q: int|
                            0 <= q < next.len() && (#[trigger] next[q]) is Divergence
                                && next[q]->Divergence_kind.is_breaking();
                        assert(head[q] is Divergence);
                    }
                    if has_breaking(head) {
                        let q = choose|q: int|
                            0 <= q < head.len() && (#[trigger] head[q]) is Divergence
                                && head[q]->Divergence_kind.is_breaking();
                        assert(next[q] is Divergence);
                    }
                }
                matching = false;
            },
        }
        k += 1;
    }
    proof {
        assert(views.take(k as int) == views);
    }
    if breaking {
        Verdict::Incompatible
    } else if matching {
        Verdict::Identical
    } else {
        Verdict::CompatibleWithDifferences
    }
}

/// Compares two traces.
///
/// The entries of the report are the alignment of the two step sequences
/// along a longest common subsequence of their keys; the verdict follows
/// from the entries.
pub fn compare(trace_a: &ExecutionTrace, trace_b: &ExecutionTrace) -> (report: ComparisonReport)
    ensures
        report.spec_entries() == alignment(trace_a@, trace_b@, 0, 0),
        report.spec_verdict() == verdict_of(report.spec_entries()),
{
    let a = trace_a.steps();
    let b = trace_b.steps();
    let n = a.len();
    let m = b.len();
    let ghost va = trace_a@;
    let ghost vb = trace_b@;
    let rows = lcs_table(a, b);
    let mut entries: Vec<ReportEntry> = Vec::new();
    let mut i: usize = 0;
    let mut j: usize = 0;
    while i < n || j < m
        invariant
            n == a.len(),
            m == b.len(),
            va == payload_views(a@),
            vb == payload_views(b@),
            i <= n,
            j <= m,
            is_table(rows@, va, vb),
            rows@.len() == n,
            entry_views(entries@) + alignment(va, vb, i as int, j as int) == alignment(va, vb, 0, 0),
        decreases (n - i) + (m - j),
    {
        let ghost before = entry_views(entries@);
        let ghost rest = alignment(va, vb, i as int, j as int);
        proof {
            if i < n {
                assert(va[i as int] == a@[i as int].payload@);
            }
            if j < m {
                assert(vb[j as int] == b@[j as int].payload@);
            }
        }
        if i >= n {
            entries.push(ReportEntry::OnlyInB { index_b: j });
            j += 1;
        } else if j >= m {
            entries.push(ReportEntry::OnlyInA { index_a: i });
            i += 1;
        } else if a[i].payload.same_key(&b[j].payload) {
            match divergence_of(&a[i].payload, &b[j].payload) {
                None => {
                    entries.push(ReportEntry::Match { index_a: i, index_b: j });
                },
                Some(kind) => {
                    let mut detail = render_carried(&a[i].payload, kind);
                    detail.append(" -> ");
                    detail.append(render_carried(&b[j].payload, kind).as_str());
                    entries.push(ReportEntry::Divergence { index_a: i, index_b: j, kind, detail });
                },
            }
            i += 1;
            j += 1;
        } else {
            let down = table_at(&rows, i + 1, j, Ghost(va), Ghost(vb));
            let right = table_at(&rows, i, j + 1, Ghost(va), Ghost(vb));
            if down >= right {
                entries.push(ReportEntry::OnlyInA { index_a: i });
                i += 1;
            } else {
                entries.push(ReportEntry::OnlyInB { index_b: j });
                j += 1;
            }
        }
        proof {
            let after = entry_views(entries@);
            let tail = alignment(va, vb, i as int, j as int);
            assert(after =~= before.push(after.last()));
            assert(rest =~= seq![after.last()] + tail);
            assert(after + tail =~= before + rest);
        }
    }
    proof {
        assert(alignment(va, vb, n as int, m as int) =~= Seq::<EntryView>::empty());
        assert(entry_views(entries@) + Seq::<EntryView>::empty() =~= entry_views(entries@));
    }
    let verdict = judge(&entries);
    ComparisonReport { entries, verdict }
}

} // verus!
