//! Server-sent events.
use vstd::prelude::*;
use crate::text::{
    after_prefix, join, joined, line_pieces, split_lines, strip_prefix, trim, trim_end_by,
    trim_end_matches, trim_start_by, trim_start_matches, trimmed, views, CharClass,
};

verus! {

/// The type and the data parts that lines name: the last `event:` line gives the type, each
/// `data:` line one part.
pub open spec fn event_fields(lines: Seq<Seq<char>>) -> (Seq<char>, Seq<Seq<char>>)
    decreases lines.len(),
{
    if lines.len() == 0 {
        (Seq::empty(), Seq::empty())
    } else {
        let (kind, parts) = event_fields(lines.drop_last());
        let line = trim_end_by(lines.last(), CharClass::LineEnd);
        match (after_prefix(line, "event:"@), after_prefix(line, "data:"@)) {
            (Some(rest), _) => (trimmed(rest), parts),
            (None, Some(rest)) => (kind, parts.push(trim_start_by(rest, CharClass::Just(' ')))),
            (None, None) => (kind, parts),
        }
    }
}

/// The type and the data of one event. The data parts are joined by line ends.
pub open spec fn sse_event(block: Seq<char>) -> (Seq<char>, Seq<char>) {
    let (kind, parts) = event_fields(line_pieces(block));
    (kind, joined(parts, "\n"@))
}

/// Reads one event: its type, which is empty where no line names it, and its data.
pub fn parse_sse_event(block: &str) -> (r: (String, String))
    ensures
        (r.0@, r.1@) == sse_event(block@),
{
    let lines = split_lines(block);
    let ghost all = line_pieces(block@);
    let mut kind = String::new();
    let mut parts: Vec<String> = Vec::new();
    let mut i: usize = 0;
    proof {
        assert(kind@ =~= Seq::empty());
        assert(views(parts@) =~= Seq::empty());
    }
    while i < lines.len()
        invariant
            i <= lines@.len(),
            views(lines@) == all,
            (kind@, views(parts@)) == event_fields(all.take(i as int)),
        decreases lines@.len() - i,
    {
        assert(all.take(i + 1).drop_last() =~= all.take(i as int));
        assert(lines@[i as int]@ == all[i as int]);
        let line = trim_end_matches(lines[i].as_str(), CharClass::LineEnd);
        if let Some(rest) = strip_prefix(line.as_str(), "event:") {
            kind = trim(rest.as_str());
        } else if let Some(rest) = strip_prefix(line.as_str(), "data:") {
            let ghost before = parts@;
            let part = trim_start_matches(rest.as_str(), CharClass::Just(' '));
            parts.push(part);
            assert(views(parts@) =~= views(before).push(part@));
        }
        i += 1;
    }
    assert(all.take(all.len() as int) =~= all);
    (kind, join(&parts, "\n"))
}

} // verus!
