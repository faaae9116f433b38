//! The diagnostics reporter: a flag that records whether an error was
//! reported, and the lines that the reports make up.
//!
//! The reporter writes nothing itself. It keeps the lines until the caller
//! takes them out, to send them wherever errors go.

use crate::text::{decimal, push_decimal};
use vstd::prelude::*;
use vstd::string::StringExecFns;

verus! {

/// The state of the reporter.
#[derive(Debug)]
pub struct State {
    has_error: bool,
    output: Vec<String>,
}

/// What a `State` stands for.
pub struct StateView {
    /// Whether an error was reported since the flag was last cleared.
    pub has_error: bool,
    /// The lines reported and not yet taken out, oldest first.
    pub output: Seq<Seq<char>>,
}

impl View for State {
    type V = StateView;

    closed spec fn view(&self) -> StateView {
        StateView { has_error: self.has_error, output: self.output.deep_view() }
    }
}

/// The line of a report: `[line N] Error WHERE: MESSAGE`.
pub open spec fn report_line(line: nat, location: Seq<char>, message: Seq<char>) -> Seq<char> {
    seq!['[', 'l', 'i', 'n', 'e', ' '] + decimal(line) + seq![
        ']',
        ' ',
        'E',
        'r',
        'r',
        'o',
        'r',
        ' ',
    ] + location + seq![':', ' '] + message
}

impl State {
    /// Whether an error was reported since the flag was last cleared.
    pub fn has_error(&self) -> (flag: bool)
        ensures
            flag == self@.has_error,
    {
        self.has_error
    }

    /// Clears the flag. The lines not yet taken out stay.
    pub fn reset(&mut self)
        ensures
            !final(self)@.has_error,
            final(self)@.output == old(self)@.output,
    {
        self.has_error = false;
    }

    /// Takes out the lines reported so far, oldest first. The flag stays.
    pub fn take_output(&mut self) -> (lines: Vec<String>)
        ensures
            lines.deep_view() == old(self)@.output,
            final(self)@.output == Seq::<Seq<char>>::empty(),
            final(self)@.has_error == old(self)@.has_error,
    {
        let mut lines: Vec<String> = Vec::new();
        std::mem::swap(&mut self.output, &mut lines);
        lines
    }
}

/// A reporter that has seen no error and holds no line.
pub fn state() -> (fresh: State)
    ensures
        !fresh@.has_error,
        fresh@.output == Seq::<Seq<char>>::empty(),
{
    State { has_error: false, output: Vec::new() }
}

/// Reports `message` for `line`, with no further location.
pub fn error(state: &mut State, line: usize, message: &str)
    ensures
        final(state)@.has_error,
        final(state)@.output == old(state)@.output.push(
            report_line(line as nat, Seq::empty(), message@),
        ),
{
    proof {
        reveal_strlit("");
    }
    report(state, line, "", message);
}

/// Reports `message` for `line` at `location`: sets the flag and adds the
/// line of the report to the output.
pub fn report(state: &mut State, line: usize, location: &str, message: &str)
    ensures
        final(state)@.has_error,
        final(state)@.output == old(state)@.output.push(
            report_line(line as nat, location@, message@),
        ),
{
    let mut text = String::from_str("[line ");
    push_decimal(&mut text, line);
    text.append("] Error ");
    text.append(location);
    text.append(": ");
    text.append(message);
    proof {
        reveal_strlit("[line ");
        reveal_strlit("] Error ");
        reveal_strlit(": ");
        assert(text@ =~= report_line(line as nat, location@, message@));
    }
    state.output.push(text);
    state.has_error = true;
}

} // verus!
