//! The stepping policy: which hook ends the step that a directive began.

use vstd::prelude::*;

verus! {

/// The stepping command that the operator chose.
#[derive(Debug, Clone, Copy, PartialEq, Eq, Structural)]
pub enum Directive {
    /// Run until a breakpoint is hit.
    Continue,
    /// Stop at the very next entry or exit.
    StepInto,
    /// Stop at the next exit that returns to the depth at which stepping
    /// began.
    StepOver,
    /// Stop at the next exit that returns below the depth at which stepping
    /// began.
    StepOut,
}

/// The kind of a hook that the instrumented module calls.
#[derive(Debug, Clone, Copy, PartialEq, Eq, Structural)]
pub enum HookKind {
    Entry,
    Exit,
}

/// Whether a hook of kind `hook`, after which the call stack has depth
/// `depth_after`, ends the step that `directive` began at depth `base`.
pub open spec fn step_boundary(directive: Directive, base: nat, hook: HookKind, depth_after: nat) -> bool {
    match directive {
        Directive::Continue => false,
        Directive::StepInto => true,
        Directive::StepOver => hook is Exit && depth_after == base,
        Directive::StepOut => hook is Exit && depth_after < base,
    }
}

/// Holds the active directive and the depth at which stepping began.
#[derive(Debug, Clone, Copy, PartialEq, Eq)]
pub struct Stepper {
    directive: Directive,
    base_depth: usize,
}

impl Stepper {
    /// The active directive.
    pub closed spec fn spec_directive(&self) -> Directive {
        self.directive
    }

    /// The depth of the call stack at which stepping began.
    pub closed spec fn spec_base_depth(&self) -> nat {
        self.base_depth as nat
    }

    /// A stepper that lets execution continue.
    pub fn new() -> (stepper: Self)
        ensures
            stepper.spec_directive() == Directive::Continue,
            stepper.spec_base_depth() == 0,
    {
        Stepper { directive: Directive::Continue, base_depth: 0 }
    }

    /// Begins a step: `directive` becomes active at depth `depth`.
    pub fn begin(&mut self, directive: Directive, depth: usize)
        ensures
            final(self).spec_directive() == directive,
            final(self).spec_base_depth() == depth,
    {
        self.directive = directive;
        self.base_depth = depth;
    }

    /// The active directive.
    pub fn directive(&self) -> (directive: Directive)
        ensures
            directive == self.spec_directive(),
    {
        self.directive
    }

    /// The depth of the call stack at which stepping began.
    pub fn base_depth(&self) -> (depth: usize)
        ensures
            depth == self.spec_base_depth(),
    {
        self.base_depth
    }

    /// Whether a hook of kind `hook`, after which the call stack has depth
    /// `depth_after`, ends the active step.
    pub fn boundary_reached(&self, hook: HookKind, depth_after: usize) -> (reached: bool)
        ensures
            reached == step_boundary(
                self.spec_directive(),
                self.spec_base_depth(),
                hook,
                depth_after as nat,
            ),
    {
        match self.directive {
            Directive::Continue => false,
            Directive::StepInto => true,
            Directive::StepOver => match hook {
                HookKind::Exit => depth_after == self.base_depth,
                HookKind::Entry => false,
            },
            Directive::StepOut => match hook {
                HookKind::Exit => depth_after < self.base_depth,
                HookKind::Entry => false,
            },
        }
    }
}

impl Default for Stepper {
    fn default() -> (stepper: Self)
        ensures
            stepper.spec_directive() == Directive::Continue,
            stepper.spec_base_depth() == 0,
    {
        Self::new()
    }
}

} // verus!
