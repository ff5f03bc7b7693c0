//! The command line: what a line calls for.
use vstd::prelude::*;
use crate::text::{ascii_lower, same, to_lower, trim, trimmed};

verus! {

/// Words with which a user agrees to go on.
pub open spec fn agrees(s: Seq<char>) -> bool {
    let t = ascii_lower(trimmed(s));
    t == "继续"@ || t == "是"@ || t == "好"@ || t == "好的"@ || t == "ok"@ || t == "continue"@ || t
        == "yes"@ || t == "y"@ || t == "1"@
}

pub fn is_affirmative(s: &str) -> (r: bool)
    ensures
        r == agrees(s@),
{
    let t = to_lower(trim(s).as_str());
    let t = t.as_str();
    same(t, "继续") || same(t, "是") || same(t, "好") || same(t, "好的") || same(t, "ok") || same(
        t,
        "continue",
    ) || same(t, "yes") || same(t, "y") || same(t, "1")
}

/// What a line calls for.
#[derive(Clone, Copy, Debug, PartialEq, Eq, Structural)]
pub enum Line {
    Quit,
    Skip,
    Talk,
}

pub fn read_line(line: &str) -> (r: Line)
    ensures
        r == if trimmed(line@) == "/quit"@ {
            Line::Quit
        } else if trimmed(line@).len() == 0 {
            Line::Skip
        } else {
            Line::Talk
        },
{
    let t = trim(line);
    if same(t.as_str(), "/quit") {
        Line::Quit
    } else if t.as_str().is_empty() {
        Line::Skip
    } else {
        Line::Talk
    }
}

} // verus!
