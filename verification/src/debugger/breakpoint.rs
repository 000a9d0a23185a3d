//! The set of breakpoints and the test whether a hook is a hit.

use crate::error::{DebuggerError, ErrorView};
use crate::text::{str_eq, string_views};
use vstd::prelude::*;
use vstd::string::*;

verus! {

/// A breakpoint. Its identity is its target: the function it names and,
/// for an offset breakpoint, the offset within that function. The other
/// fields are attributes.
#[derive(Debug, Clone, PartialEq, Eq)]
pub struct BreakpointSpec {
    /// The function that the breakpoint names; matched exactly.
    pub function: String,
    /// The offset within the function, or `None` for the function's entry.
    pub offset: Option<u64>,
    /// A disabled breakpoint never matches.
    pub enabled: bool,
    /// A hit count that the operator attached; carried, not interpreted.
    pub hit_count: Option<u32>,
}

/// A breakpoint as a plain value.
pub struct BreakpointView {
    pub function: Seq<char>,
    pub offset: Option<u64>,
    pub enabled: bool,
    pub hit_count: Option<u32>,
}

impl View for BreakpointSpec {
    type V = BreakpointView;

    open spec fn view(&self) -> BreakpointView {
        BreakpointView {
            function: self.function@,
            offset: self.offset,
            enabled: self.enabled,
            hit_count: self.hit_count,
        }
    }
}

impl BreakpointView {
    /// Whether the breakpoint has the target `function`, `offset`.
    pub open spec fn targets(self, function: Seq<char>, offset: Option<u64>) -> bool {
        self.function == function && self.offset == offset
    }

    /// Whether a hook at `function`, `offset` hits the breakpoint.
    pub open spec fn hit_by(self, function: Seq<char>, offset: Option<u64>) -> bool {
        self.enabled && self.targets(function, offset)
    }
}

impl BreakpointSpec {
    /// An enabled breakpoint at the entry of `function`.
    pub fn at_function(function: String) -> (spec: Self)
        ensures
            spec@ == (BreakpointView {
                function: function@,
                offset: None,
                enabled: true,
                hit_count: None,
            }),
    {
        BreakpointSpec { function, offset: None, enabled: true, hit_count: None }
    }

    /// An enabled breakpoint at `offset` within `function`.
    pub fn at_offset(function: String, offset: u64) -> (spec: Self)
        ensures
            spec@ == (BreakpointView {
                function: function@,
                offset: Some(offset),
                enabled: true,
                hit_count: None,
            }),
    {
        BreakpointSpec { function, offset: Some(offset), enabled: true, hit_count: None }
    }

    /// Whether the breakpoint has the target `function`, `offset`.
    pub fn has_target(&self, function: &str, offset: Option<u64>) -> (same: bool)
        ensures
            same == self@.targets(function@, offset),
    {
        let same_offset = match (self.offset, offset) {
            (Some(a), Some(b)) => a == b,
            (None, None) => true,
            _ => false,
        };
        same_offset && str_eq(self.function.as_str(), function)
    }

    /// A copy of the breakpoint.
    pub fn duplicate(&self) -> (copy: Self)
        ensures
            copy@ == self@,
    {
        BreakpointSpec {
            function: self.function.clone(),
            offset: self.offset,
            enabled: self.enabled,
            hit_count: self.hit_count,
        }
    }
}

/// The breakpoints as plain values.
pub open spec fn breakpoint_views(specs: Seq<BreakpointSpec>) -> Seq<BreakpointView> {
    Seq::new(specs.len(), |i: int| specs[i]@)
}

/// Whether no two of `specs` have the same target.
pub open spec fn distinct_targets(specs: Seq<BreakpointView>) -> bool {
    forall|i: int, j: int|
        0 <= i < specs.len() && 0 <= j < specs.len() && (#[trigger] specs[i]).targets(
            (#[trigger] specs[j]).function,
            specs[j].offset,
        ) ==> i == j
}

/// Whether some breakpoint of `specs` has the target `function`, `offset`.
pub open spec fn has_target(
    specs: Seq<BreakpointView>,
    function: Seq<char>,
    offset: Option<u64>,
) -> bool {
    exists|i: int| 0 <= i < specs.len() && (#[trigger] specs[i]).targets(function, offset)
}

/// The first position from `from` at which `specs` holds a breakpoint with
/// the target `function`, `offset`, or the length of `specs` where there
/// is none.
pub open spec fn target_position(
    specs: Seq<BreakpointView>,
    function: Seq<char>,
    offset: Option<u64>,
    from: int,
) -> int
    decreases specs.len() - from,
{
    if from < 0 || from >= specs.len() {
        specs.len() as int
    } else if specs[from].targets(function, offset) {
        from
    } else {
        target_position(specs, function, offset, from + 1)
    }
}

/// The set after `spec` is added: `spec` takes the place of the breakpoint
/// with its target, or comes after the others where its target is new.
pub open spec fn with_breakpoint(specs: Seq<BreakpointView>, spec: BreakpointView) -> Seq<
    BreakpointView,
> {
    let at = target_position(specs, spec.function, spec.offset, 0);
    if at < specs.len() {
        specs.update(at, spec)
    } else {
        specs.push(spec)
    }
}

/// The set without the breakpoint that has the target `function`,
/// `offset`.
pub open spec fn without_breakpoint(
    specs: Seq<BreakpointView>,
    function: Seq<char>,
    offset: Option<u64>,
) -> Seq<BreakpointView> {
    let at = target_position(specs, function, offset, 0);
    if at < specs.len() {
        specs.remove(at)
    } else {
        specs
    }
}

/// The target position is that of a breakpoint with the target, and the
/// length where no breakpoint has it.
pub proof fn lemma_target_position(
    specs: Seq<BreakpointView>,
    function: Seq<char>,
    offset: Option<u64>,
    from: int,
)
    requires
        0 <= from <= specs.len(),
    ensures
        from <= target_position(specs, function, offset, from) <= specs.len(),
        target_position(specs, function, offset, from) < specs.len() ==> specs[target_position(
            specs,
            function,
            offset,
            from,
        )].targets(function, offset),
        forall|j: int|
            from <= j < target_position(specs, function, offset, from) ==> !(#[trigger] specs[j]).targets(
                function,
                offset,
            ),
        from == 0 ==> (target_position(specs, function, offset, from) < specs.len()
            <==> has_target(specs, function, offset)),
    decreases specs.len() - from,
{
    if from < specs.len() && !specs[from].targets(function, offset) {
        lemma_target_position(specs, function, offset, from + 1);
    }
    if from == 0 && has_target(specs, function, offset) {
        let i = choose|i: int| 0 <= i < specs.len() && (#[trigger] specs[i]).targets(function, offset);
        if target_position(specs, function, offset, 0) >= specs.len() {
            assert(!specs[i].targets(function, offset));
        }
    }
}

/// The breakpoint of `specs` that a hook at `function`, `offset` hits, if
/// there is one. Targets are distinct, so there is at most one.
pub open spec fn hit(specs: Seq<BreakpointView>, function: Seq<char>, offset: Option<u64>) -> Option<
    BreakpointView,
> {
    if exists|i: int| 0 <= i < specs.len() && (#[trigger] specs[i]).hit_by(function, offset) {
        Some(specs[choose|i: int| 0 <= i < specs.len() && (#[trigger] specs[i]).hit_by(function, offset)])
    } else {
        None
    }
}

/// Owns the set of breakpoints and resolves whether a hook is a hit.
pub struct BreakpointManager {
    specs: Vec<BreakpointSpec>,
}

impl View for BreakpointManager {
    type V = Seq<BreakpointView>;

    closed spec fn view(&self) -> Seq<BreakpointView> {
        breakpoint_views(self.specs@)
    }
}

impl BreakpointManager {
    /// The invariant of the set: no two breakpoints have the same target.
    pub open spec fn well_formed(&self) -> bool {
        distinct_targets(self@)
    }

    /// Creates an empty set.
    pub fn new() -> (manager: Self)
        ensures
            manager.well_formed(),
            manager@.len() == 0,
    {
        BreakpointManager { specs: Vec::new() }
    }

    /// The number of breakpoints.
    pub fn len(&self) -> (n: usize)
        ensures
            n == self@.len(),
    {
        self.specs.len()
    }

    /// The breakpoints, in the order in which their targets were first
    /// added.
    pub fn list(&self) -> (specs: &Vec<BreakpointSpec>)
        ensures
            breakpoint_views(specs@) == self@,
    {
        &self.specs
    }

    /// The position of the breakpoint with the target `function`, `offset`.
    fn position(&self, function: &str, offset: Option<u64>) -> (at: Option<usize>)
        ensures
            match at {
                Some(i) => i < self@.len() && self@[i as int].targets(function@, offset) && i
                    == target_position(self@, function@, offset, 0),
                None => !has_target(self@, function@, offset) && target_position(
                    self@,
                    function@,
                    offset,
                    0,
                ) == self@.len(),
            },
    {
        let mut i: usize = 0;
        while i < self.specs.len()
            invariant
                i <= self.specs.len(),
                forall|j: int| 0 <= j < i ==> !(#[trigger] self@[j]).targets(function@, offset),
                target_position(self@, function@, offset, 0) == target_position(
                    self@,
                    function@,
                    offset,
                    i as int,
                ),
            decreases self.specs.len() - i,
        {
            if self.specs[i].has_target(function, offset) {
                return Some(i);
            }
            i += 1;
        }
        None
    }

    /// Adds a breakpoint. Where the set holds one with the same target,
    /// `spec` takes its place; otherwise `spec` is added after the others.
    /// Returns whether the target is new.
    pub fn add(&mut self, spec: BreakpointSpec) -> (added: bool)
        requires
            old(self).well_formed(),
        ensures
            final(self).well_formed(),
            final(self)@ == with_breakpoint(old(self)@, spec@),
            added == !has_target(old(self)@, spec@.function, spec@.offset),
    {
        let ghost before = self@;
        let ghost new = spec@;
        match self.position(spec.function.as_str(), spec.offset) {
            Some(i) => {
                self.specs.set(i, spec);
                assert(self@ =~= before.update(i as int, new));
                assert forall|a: int, b: int|
                    0 <= a < self@.len() && 0 <= b < self@.len() && (#[trigger] self@[a]).targets(
                        (#[trigger] self@[b]).function,
                        self@[b].offset,
                    ) implies a == b by {
                    assert(before[a].targets(before[b].function, before[b].offset));
                }
                false
            },
            None => {
                self.specs.push(spec);
                assert(self@ =~= before.push(new));
                assert forall|a: int, b: int|
                    0 <= a < self@.len() && 0 <= b < self@.len() && (#[trigger] self@[a]).targets(
                        (#[trigger] self@[b]).function,
                        self@[b].offset,
                    ) implies a == b by {
                    if a < before.len() && b < before.len() {
                        assert(before[a].targets(before[b].function, before[b].offset));
                    } else if a < before.len() {
                        assert(before[a].targets(new.function, new.offset));
                    } else if b < before.len() {
                        assert(before[b].targets(new.function, new.offset));
                    }
                }
                true
            },
        }
    }

    /// Removes the breakpoint that has the target of `spec`, whatever its
    /// attributes. Returns whether there was one.
    pub fn remove(&mut self, spec: &BreakpointSpec) -> (removed: bool)
        requires
            old(self).well_formed(),
        ensures
            final(self).well_formed(),
            final(self)@ == without_breakpoint(old(self)@, spec@.function, spec@.offset),
            removed == has_target(old(self)@, spec@.function, spec@.offset),
            !has_target(final(self)@, spec@.function, spec@.offset),
    {
        let ghost before = self@;
        match self.position(spec.function.as_str(), spec.offset) {
            Some(i) => {
                self.specs.remove(i);
                assert(self@ =~= before.remove(i as int));
                assert forall|a: int, b: int|
                    0 <= a < self@.len() && 0 <= b < self@.len() && (#[trigger] self@[a]).targets(
                        (#[trigger] self@[b]).function,
                        self@[b].offset,
                    ) implies a == b by {
                    let a0 = if a < i { a } else { a + 1 };
                    let b0 = if b < i { b } else { b + 1 };
                    assert(before[a0].targets(before[b0].function, before[b0].offset));
                }
                assert forall|a: int| 0 <= a < self@.len() implies !(#[trigger] self@[a]).targets(
                    spec@.function,
                    spec@.offset,
                ) by {
                    let a0 = if a < i { a } else { a + 1 };
                    assert(before[a0].targets(before[i as int].function, before[i as int].offset)
                        ==> a0 == i);
                }
                true
            },
            None => false,
        }
    }

    /// Resolves whether a hook at `function`, `offset` is a hit: returns
    /// the enabled breakpoint with exactly that target, or `None` where
    /// there is none. `offset` is `None` at a function's entry.
    pub fn matches(&self, function: &str, offset: Option<u64>) -> (found: Option<&BreakpointSpec>)
        requires
            self.well_formed(),
        ensures
            match found {
                Some(spec) => hit(self@, function@, offset) == Some(spec@),
                None => hit(self@, function@, offset) is None,
            },
            found is Some <==> exists|i: int|
                0 <= i < self@.len() && (#[trigger] self@[i]).hit_by(function@, offset),
    {
        match self.position(function, offset) {
            Some(i) => {
                if self.specs[i].enabled {
                    proof {
                        assert(self@[i as int].hit_by(function@, offset));
                        let j = choose|j: int|
                            0 <= j < self@.len() && (#[trigger] self@[j]).hit_by(function@, offset);
                        assert(self@[j].targets(self@[i as int].function, self@[i as int].offset));
                    }
                    Some(&self.specs[i])
                } else {
                    proof {
                        assert forall|j: int| 0 <= j < self@.len() implies !(#[trigger] self@[j]).hit_by(
                            function@,
                            offset,
                        ) by {
                            if self@[j].hit_by(function@, offset) {
                                assert(self@[j].targets(
                                    self@[i as int].function,
                                    self@[i as int].offset,
                                ));
                            }
                        }
                    }
                    None
                }
            },
            None => None,
        }
    }

    /// The functions that breakpoints name and `functions` lacks, one for
    /// each such breakpoint, in the order of the breakpoints. Such a
    /// breakpoint is never hit; the caller reports it as a warning.
    pub fn unresolved(&self, functions: &Vec<String>) -> (missing: Vec<String>)
        ensures
            string_views(missing@) == unresolved_names(
                self@,
                string_views(functions@),
            ),
    {
        let mut missing: Vec<String> = Vec::new();
        let ghost names = string_views(functions@);
        let mut i: usize = 0;
        while i < self.specs.len()
            invariant
                i <= self.specs.len(),
                names == string_views(functions@),
                string_views(missing@) == unresolved_names(
                    self@.take(i as int),
                    names,
                ),
            decreases self.specs.len() - i,
        {
            let mut known = false;
            let mut j: usize = 0;
            while j < functions.len()
                invariant
                    j <= functions.len(),
                    i < self.specs.len(),
                    names == string_views(functions@),
                    known == exists|k: int| 0 <= k < j && #[trigger] names[k] == self@[i as int].function,
                decreases functions.len() - j,
            {
                if str_eq(functions[j].as_str(), self.specs[i].function.as_str()) {
                    assert(names[j as int] == self@[i as int].function);
                    known = true;
                }
                j += 1;
            }
            proof {
                assert(self@.take(i + 1).drop_last() == self@.take(i as int));
                assert(known == names.contains(self@[i as int].function));
            }
            if !known {
                let ghost before = string_views(missing@);
                missing.push(self.specs[i].function.clone());
                assert(string_views(missing@) =~= before.push(
                    self@[i as int].function,
                ));
            }
            i += 1;
        }
        proof {
            assert(self@.take(i as int) == self@);
        }
        missing
    }
}

/// The warnings for breakpoints that name the functions `names`, none of
/// which the module has.
pub open spec fn resolution_failures(names: Seq<Seq<char>>) -> Seq<ErrorView> {
    Seq::new(
        names.len(),
        |i: int| ErrorView::BreakpointResolutionFailure { function: names[i] },
    )
}

/// The faults as plain values.
pub open spec fn error_views(errors: Seq<DebuggerError>) -> Seq<ErrorView> {
    Seq::new(errors.len(), |i: int| errors[i]@)
}

/// The functions that the breakpoints `specs` name and `functions` lacks.
pub open spec fn unresolved_names(specs: Seq<BreakpointView>, functions: Seq<Seq<char>>) -> Seq<
    Seq<char>,
>
    decreases specs.len(),
{
    if specs.len() == 0 {
        Seq::empty()
    } else if functions.contains(specs.last().function) {
        unresolved_names(specs.drop_last(), functions)
    } else {
        unresolved_names(specs.drop_last(), functions).push(specs.last().function)
    }
}

impl BreakpointManager {
    /// Resolves the breakpoints against the functions of a module: returns
    /// a `BreakpointResolutionFailure` for each breakpoint that names a
    /// function which `functions` lacks, in the order of the breakpoints.
    /// The failures are warnings: the set is left as it is.
    pub fn resolve(&self, functions: &Vec<String>) -> (warnings: Vec<DebuggerError>)
        ensures
            error_views(warnings@) == resolution_failures(
                unresolved_names(self@, string_views(functions@)),
            ),
    {
        let missing = self.unresolved(functions);
        let ghost names = string_views(missing@);
        let mut warnings: Vec<DebuggerError> = Vec::new();
        let mut i: usize = 0;
        while i < missing.len()
            invariant
                i <= missing.len(),
                names == string_views(missing@),
                error_views(warnings@) == resolution_failures(names.take(i as int)),
            decreases missing.len() - i,
        {
            let ghost before = error_views(warnings@);
            let warning = DebuggerError::BreakpointResolutionFailure {
                function: missing[i].clone(),
            };
            let ghost view = warning@;
            warnings.push(warning);
            proof {
                assert(names[i as int] == missing@[i as int]@);
                assert(error_views(warnings@) =~= before.push(view));
                assert(resolution_failures(names.take(i + 1)) =~= resolution_failures(
                    names.take(i as int),
                ).push(view));
            }
            i += 1;
        }
        assert(names.take(i as int) == names);
        warnings
    }
}

impl Default for BreakpointManager {
    fn default() -> (manager: Self)
        ensures
            manager.well_formed(),
            manager@.len() == 0,
    {
        Self::new()
    }
}

} // verus!
