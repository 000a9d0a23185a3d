//! The state of a debugging session that inspectors and the stepper read.

use vstd::prelude::*;

verus! {

/// Where a session stands.
#[derive(Debug, Clone, Copy, PartialEq, Eq, Structural)]
pub enum RunMode {
    /// The backend is executing; no pause is pending.
    Running,
    /// The backend is suspended and awaits a directive.
    Paused,
    /// The session was ended by a fault or an abort.
    Stopped,
    /// The entry function returned normally.
    Completed,
}

impl RunMode {
    /// `Stopped` and `Completed` are terminal: no directive is accepted there.
    pub open spec fn is_terminal(self) -> bool {
        self is Stopped || self is Completed
    }

    /// Whether no directive is accepted in this mode.
    pub fn terminal(&self) -> (t: bool)
        ensures
            t == self.is_terminal(),
    {
        match self {
            RunMode::Stopped | RunMode::Completed => true,
            _ => false,
        }
    }
}

/// Represents the current state of the debugger.
#[derive(Debug, Clone)]
pub struct DebugState {
    current_function: Option<String>,
    step_count: usize,
    run_mode: RunMode,
}

impl DebugState {
    /// The function being executed, if one was entered since the state was
    /// created or last reset.
    pub closed spec fn spec_current_function(&self) -> Option<Seq<char>> {
        match self.current_function {
            Some(name) => Some(name@),
            None => None,
        }
    }

    /// The number of steps taken so far.
    pub closed spec fn spec_step_count(&self) -> nat {
        self.step_count as nat
    }

    /// Where the session stands.
    pub closed spec fn spec_run_mode(&self) -> RunMode {
        self.run_mode
    }

    /// Creates a new debug state: no current function, no step taken, the
    /// session running.
    pub fn new() -> (state: Self)
        ensures
            state.spec_current_function() is None,
            state.spec_step_count() == 0,
            state.spec_run_mode() == RunMode::Running,
    {
        Self { current_function: None, step_count: 0, run_mode: RunMode::Running }
    }

    /// Sets the current function being executed.
    pub fn set_current_function(&mut self, function: String)
        ensures
            final(self).spec_current_function() == Some(function@),
            final(self).spec_step_count() == old(self).spec_step_count(),
            final(self).spec_run_mode() == old(self).spec_run_mode(),
    {
        self.current_function = Some(function);
    }

    /// Gets the current function.
    pub fn current_function(&self) -> (function: Option<&str>)
        ensures
            match function {
                Some(name) => self.spec_current_function() == Some(name@),
                None => self.spec_current_function() is None,
            },
    {
        match &self.current_function {
            Some(name) => Some(name.as_str()),
            None => None,
        }
    }

    /// Increments the step count. The count never decreases but by `reset`.
    pub fn increment_step(&mut self)
        requires
            old(self).spec_step_count() < usize::MAX,
        ensures
            final(self).spec_step_count() == old(self).spec_step_count() + 1,
            final(self).spec_current_function() == old(self).spec_current_function(),
            final(self).spec_run_mode() == old(self).spec_run_mode(),
    {
        self.step_count += 1;
    }

    /// Gets the current step count.
    pub fn step_count(&self) -> (count: usize)
        ensures
            count == self.spec_step_count(),
    {
        self.step_count
    }

    /// Gets the run mode.
    pub fn run_mode(&self) -> (mode: RunMode)
        ensures
            mode == self.spec_run_mode(),
    {
        self.run_mode
    }

    /// Sets the run mode.
    pub fn set_run_mode(&mut self, mode: RunMode)
        ensures
            final(self).spec_run_mode() == mode,
            final(self).spec_current_function() == old(self).spec_current_function(),
            final(self).spec_step_count() == old(self).spec_step_count(),
    {
        self.run_mode = mode;
    }

    /// Resets the state to that of a new session.
    pub fn reset(&mut self)
        ensures
            final(self).spec_current_function() is None,
            final(self).spec_step_count() == 0,
            final(self).spec_run_mode() == RunMode::Running,
    {
        self.current_function = None;
        self.step_count = 0;
        self.run_mode = RunMode::Running;
    }
}

impl Default for DebugState {
    fn default() -> (state: Self)
        ensures
            state.spec_current_function() is None,
            state.spec_step_count() == 0,
            state.spec_run_mode() == RunMode::Running,
    {
        Self::new()
    }
}

} // verus!
