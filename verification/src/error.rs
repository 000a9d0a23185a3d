//! The faults that the engine reports.

use crate::text::{decimal, decimal_digits};
use vstd::prelude::*;
use vstd::string::*;

verus! {

/// A fault reported by the instrumentation-and-control engine.
#[derive(Debug, Clone, PartialEq, Eq)]
pub enum DebuggerError {
    /// The input bytes fail structural validation as a module. `message` and
    /// `offset` say what the parser objected to, and where.
    MalformedModule { message: String, offset: u64 },
    /// Instrumentation cannot locate a required rewrite point, or meets a
    /// construct that it does not rewrite.
    UnsupportedConstruct { reason: String },
    /// The session is in no state for the call: a directive was issued
    /// after the session ended, an event arrived while it was not running,
    /// or the breakpoints were to change while it was.
    InvalidSessionState,
    /// The execution backend ran out of its resource budget.
    BudgetExceeded,
    /// The execution backend reported a trap.
    ExecutionTrap { message: String },
    /// A breakpoint names a function that the module does not export.
    BreakpointResolutionFailure { function: String },
}

/// A fault as a plain value.
pub enum ErrorView {
    MalformedModule { message: Seq<char>, offset: u64 },
    UnsupportedConstruct { reason: Seq<char> },
    InvalidSessionState,
    BudgetExceeded,
    ExecutionTrap { message: Seq<char> },
    BreakpointResolutionFailure { function: Seq<char> },
}

impl ErrorView {
    /// The fault in words.
    pub open spec fn text(self) -> Seq<char> {
        match self {
            ErrorView::MalformedModule { message, offset } => "malformed module: "@ + message
                + " (at offset "@ + decimal_digits(offset as nat) + ")"@,
            ErrorView::UnsupportedConstruct { reason } => "unsupported construct: "@ + reason,
            ErrorView::InvalidSessionState => "invalid session state"@,
            ErrorView::BudgetExceeded => "resource budget exceeded"@,
            ErrorView::ExecutionTrap { message } => "execution trap: "@ + message,
            ErrorView::BreakpointResolutionFailure { function } => "breakpoint on a function that is not exported: "@
                + function,
        }
    }
}

impl View for DebuggerError {
    type V = ErrorView;

    open spec fn view(&self) -> ErrorView {
        match *self {
            DebuggerError::MalformedModule { message, offset } => ErrorView::MalformedModule {
                message: message@,
                offset,
            },
            DebuggerError::UnsupportedConstruct { reason } => ErrorView::UnsupportedConstruct {
                reason: reason@,
            },
            DebuggerError::InvalidSessionState => ErrorView::InvalidSessionState,
            DebuggerError::BudgetExceeded => ErrorView::BudgetExceeded,
            DebuggerError::ExecutionTrap { message } => ErrorView::ExecutionTrap {
                message: message@,
            },
            DebuggerError::BreakpointResolutionFailure { function } => ErrorView::BreakpointResolutionFailure {
                function: function@,
            },
        }
    }
}

impl DebuggerError {
    /// A copy of the fault.
    pub fn duplicate(&self) -> (copy: Self)
        ensures
            copy@ == self@,
            copy == *self,
    {
        match self {
            DebuggerError::MalformedModule { message, offset } => DebuggerError::MalformedModule {
                message: message.clone(),
                offset: *offset,
            },
            DebuggerError::UnsupportedConstruct { reason } => DebuggerError::UnsupportedConstruct {
                reason: reason.clone(),
            },
            DebuggerError::InvalidSessionState => DebuggerError::InvalidSessionState,
            DebuggerError::BudgetExceeded => DebuggerError::BudgetExceeded,
            DebuggerError::ExecutionTrap { message } => DebuggerError::ExecutionTrap {
                message: message.clone(),
            },
            DebuggerError::BreakpointResolutionFailure { function } => DebuggerError::BreakpointResolutionFailure {
                function: function.clone(),
            },
        }
    }

    /// The fault in words.
    pub fn message(&self) -> (text: String)
        ensures
            text@ == self@.text(),
    {
        match self {
            DebuggerError::MalformedModule { message, offset } => {
                let mut text = String::from_str("malformed module: ");
                text.append(message.as_str());
                text.append(" (at offset ");
                text.append(decimal(*offset).as_str());
                text.append(")");
                text
            },
            DebuggerError::UnsupportedConstruct { reason } => {
                let mut text = String::from_str("unsupported construct: ");
                text.append(reason.as_str());
                text
            },
            DebuggerError::InvalidSessionState => String::from_str("invalid session state"),
            DebuggerError::BudgetExceeded => String::from_str("resource budget exceeded"),
            DebuggerError::ExecutionTrap { message } => {
                let mut text = String::from_str("execution trap: ");
                text.append(message.as_str());
                text
            },
            DebuggerError::BreakpointResolutionFailure { function } => {
                let mut text = String::from_str("breakpoint on a function that is not exported: ");
                text.append(function.as_str());
                text
            },
        }
    }

    /// Whether the fault ends the work on the module or session it concerns.
    /// Only an unresolved breakpoint is a warning.
    pub open spec fn is_fatal(self) -> bool {
        !(self is BreakpointResolutionFailure)
    }

    /// Whether the fault ends the work on the module or session it concerns.
    pub fn fatal(&self) -> (fatal: bool)
        ensures
            fatal == self.is_fatal(),
    {
        match self {
            DebuggerError::BreakpointResolutionFailure { .. } => false,
            _ => true,
        }
    }
}

} // verus!
