pub mod parser;
pub mod renderer;

use vstd::prelude::*;

use crate::game::command::{Command, CommandView};
use crate::text::{chars_vec, trim_text, trimmed};
use parser::{command_result, parse_command};

verus! {

/// The code of a character in ASCII lower case: `A` to `Z` count as `a` to `z`, anything
/// else as itself.
pub open spec fn ascii_lower(c: char) -> int {
    if 'A' <= c && c <= 'Z' {
        (c as u32) + 32
    } else {
        c as u32 as int
    }
}

/// Whether two texts are equal once ASCII letters are compared without case, as
/// `str::eq_ignore_ascii_case` compares them.
pub open spec fn same_ignoring_ascii_case(a: Seq<char>, b: Seq<char>) -> bool {
    a.len() == b.len() && forall|i: int| 0 <= i < a.len() ==> ascii_lower(#[trigger] a[i]) == ascii_lower(b[i])
}

/// Whether two texts are equal once ASCII letters are compared without case.
pub fn eq_ignoring_ascii_case(a: &str, b: &str) -> (same: bool)
    ensures
        same == same_ignoring_ascii_case(a@, b@),
{
    let x = chars_vec(a);
    let y = chars_vec(b);
    if x.len() != y.len() {
        return false;
    }
    let n = x.len();
    for i in 0..n
        invariant
            n == x@.len(),
            n == y@.len(),
            x@ == a@,
            y@ == b@,
            forall|k: int| 0 <= k < i ==> ascii_lower(#[trigger] a@[k]) == ascii_lower(b@[k]),
    {
        let c = x[i];
        let d = y[i];
        let lc: u32 = if 'A' <= c && c <= 'Z' {
            c as u32 + 32
        } else {
            c as u32
        };
        let ld: u32 = if 'A' <= d && d <= 'Z' {
            d as u32 + 32
        } else {
            d as u32
        };
        if lc != ld {
            return false;
        }
    }
    true
}

/// The view of what a typed line asks for.
pub enum LineActionView {
    Quit,
    Run(CommandView),
    Report(Seq<char>),
}

/// What a line the player typed asks for: to stop playing, a command to run, or a message
/// explaining why the line could not be read.
#[derive(Debug, Clone, PartialEq, Eq)]
pub enum LineAction {
    Quit,
    Run(Command),
    Report(String),
}

impl View for LineAction {
    type V = LineActionView;

    open spec fn view(&self) -> LineActionView {
        match self {
            LineAction::Quit => LineActionView::Quit,
            LineAction::Run(c) => LineActionView::Run(c@),
            LineAction::Report(m) => LineActionView::Report(m@),
        }
    }
}

/// What a typed line asks for: once trimmed, `quit` or `exit` in any ASCII case stops; any
/// other line is read as a command, or reported with why it cannot be read.
pub open spec fn line_action(line: Seq<char>) -> LineActionView {
    let input = trimmed(line);
    if same_ignoring_ascii_case(input, "quit"@) || same_ignoring_ascii_case(input, "exit"@) {
        LineActionView::Quit
    } else {
        match command_result(input) {
            Ok(c) => LineActionView::Run(c),
            Err(e) => LineActionView::Report(e),
        }
    }
}

/// Decides what a typed line asks for.
pub fn interpret_line(line: &str) -> (action: LineAction)
    ensures
        action@ == line_action(line@),
{
    let input = trim_text(line);
    if eq_ignoring_ascii_case(input.as_str(), "quit") || eq_ignoring_ascii_case(
        input.as_str(),
        "exit",
    ) {
        return LineAction::Quit;
    }
    match parse_command(input.as_str()) {
        Ok(command) => LineAction::Run(command),
        Err(message) => LineAction::Report(message),
    }
}

} // verus!
