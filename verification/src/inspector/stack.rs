//! The call stack of the session, as the hooks report it.

use vstd::prelude::*;
use vstd::string::*;

verus! {

/// Tracks the call stack: a function is pushed on entry and popped on exit.
pub struct CallStackInspector {
    stack: Vec<String>,
}

/// The indentation of the frame at depth `depth`: two spaces per level.
pub open spec fn frame_indent(depth: nat) -> Seq<char>
    decreases depth,
{
    if depth == 0 {
        Seq::empty()
    } else {
        frame_indent((depth - 1) as nat) + "  "@
    }
}

/// The line that shows frame number `i` of the stack `names`: its
/// indentation, a marker (an arrow for the innermost frame), and its name.
pub open spec fn frame_line(names: Seq<Seq<char>>, i: int) -> Seq<char> {
    frame_indent(i as nat) + (if i == names.len() - 1 {
        "→ "@
    } else {
        "└─ "@
    }) + names[i]
}

/// The lines that show the stack `names`: a heading, then one line for each
/// frame, outermost first. An empty stack is a single line.
pub open spec fn stack_lines(names: Seq<Seq<char>>) -> Seq<Seq<char>> {
    if names.len() == 0 {
        seq!["Call Stack: (empty)"@]
    } else {
        seq!["Call Stack:"@] + Seq::new(names.len(), |i: int| frame_line(names, i))
    }
}

impl CallStackInspector {
    /// The names of the functions on the stack, outermost first.
    pub closed spec fn frames(&self) -> Seq<Seq<char>> {
        Seq::new(self.stack@.len(), |i: int| self.stack@[i]@)
    }

    /// Creates an empty call stack.
    pub fn new() -> (inspector: Self)
        ensures
            inspector.frames() == Seq::<Seq<char>>::empty(),
    {
        Self { stack: Vec::new() }
    }

    /// Pushes a function onto the call stack.
    pub fn push(&mut self, function: String)
        ensures
            final(self).frames() == old(self).frames().push(function@),
    {
        self.stack.push(function);
        assert(self.frames() =~= old(self).frames().push(function@));
    }

    /// Pops a function from the call stack: the innermost frame, or `None`
    /// where the stack is empty, which the caller has to report.
    pub fn pop(&mut self) -> (function: Option<String>)
        ensures
            match function {
                Some(name) => old(self).frames().len() > 0 && name@ == old(self).frames().last()
                    && final(self).frames() == old(self).frames().drop_last(),
                None => old(self).frames().len() == 0 && final(self).frames() == old(
                    self,
                ).frames(),
            },
    {
        let function = self.stack.pop();
        assert(function is Some ==> self.frames() =~= old(self).frames().drop_last());
        function
    }

    /// Gets the current call stack, outermost frame first.
    pub fn get_stack(&self) -> (stack: &[String])
        ensures
            stack@.len() == self.frames().len(),
            forall|i: int| 0 <= i < stack@.len() ==> stack@[i]@ == self.frames()[i],
    {
        self.stack.as_slice()
    }

    /// The innermost frame, or `None` where the stack is empty.
    pub fn peek(&self) -> (function: Option<&str>)
        ensures
            match function {
                Some(name) => self.frames().len() > 0 && name@ == self.frames().last(),
                None => self.frames().len() == 0,
            },
    {
        if self.stack.len() == 0 {
            None
        } else {
            Some(self.stack[self.stack.len() - 1].as_str())
        }
    }

    /// The number of frames on the stack.
    pub fn depth(&self) -> (depth: usize)
        ensures
            depth == self.frames().len(),
    {
        self.stack.len()
    }

    /// Displays the call stack: returns the text to show, line by line, for
    /// the caller to print.
    pub fn display(&self) -> (lines: Vec<String>)
        ensures
            lines@.len() == stack_lines(self.frames()).len(),
            forall|i: int| 0 <= i < lines@.len() ==> lines@[i]@ == stack_lines(self.frames())[i],
    {
        let mut lines: Vec<String> = Vec::new();
        if self.stack.is_empty() {
            lines.push(String::from_str("Call Stack: (empty)"));
            return lines;
        }
        lines.push(String::from_str("Call Stack:"));
        let mut indent = String::new();
        let mut i: usize = 0;
        while i < self.stack.len()
            invariant
                i <= self.stack.len(),
                self.stack.len() > 0,
                indent@ == frame_indent(i as nat),
                lines@.len() == i + 1,
                lines@[0]@ == "Call Stack:"@,
                forall|j: int| 0 <= j < i ==> lines@[j + 1]@ == frame_line(self.frames(), j),
            decreases self.stack.len() - i,
        {
            let mut line = indent.clone();
            if i == self.stack.len() - 1 {
                line.append("→ ");
            } else {
                line.append("└─ ");
            }
            line.append(self.stack[i].as_str());
            lines.push(line);
            indent.append("  ");
            i += 1;
        }
        lines
    }

    /// Clears the call stack.
    pub fn clear(&mut self)
        ensures
            final(self).frames() == Seq::<Seq<char>>::empty(),
    {
        self.stack.clear();
    }
}

impl Default for CallStackInspector {
    fn default() -> (inspector: Self)
        ensures
            inspector.frames() == Seq::<Seq<char>>::empty(),
    {
        Self::new()
    }
}

} // verus!
