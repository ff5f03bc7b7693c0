//! How the HTML of a text is made up of the HTML of its parts.
use vstd::prelude::*;
use crate::markdown::{
    blocks_html, code_block, escaped, html, inline_from, lemma_escaped_add, lemma_escaped_same,
    line_end, line_html, opens_fence,
};
use crate::text::{
    ends_with, is_piece, lemma_end_run_len, lemma_one_piece, lemma_pieces_add,
    lemma_run_len, line_pieces, replaced, run_len, starts_with, trim_end_by, CharClass,
};

verus! {

// ---------- line by line ----------

/// What is known after some lines: the HTML so far, what closes the code block that is open, and
/// the code in it.
spec fn after_lines(lines: Seq<Seq<char>>) -> (Seq<char>, Option<Seq<char>>, Seq<char>)
    decreases lines.len(),
{
    if lines.len() == 0 {
        (Seq::empty(), None, Seq::empty())
    } else {
        let (out, fence, code) = after_lines(lines.drop_last());
        let piece = lines.last();
        let line = trim_end_by(piece, CharClass::LineEnd);
        match fence {
            Some(f) => if starts_with(line, f) {
                (out + (code_block(code) + line_end(piece)), None, Seq::empty())
            } else {
                (out, fence, code + piece)
            },
            None => if opens_fence(line) {
                (out, Some(line.take(3)), Seq::empty())
            } else {
                (out + (line_html(line) + line_end(piece)), None, Seq::empty())
            },
        }
    }
}

/// Code blocks are closed by three backticks or three tildes.
pub open spec fn is_fence(f: Seq<char>) -> bool {
    f == "```"@ || f == "~~~"@
}

proof fn lemma_fence(lines: Seq<Seq<char>>)
    ensures
        after_lines(lines).1 matches Some(f) ==> is_fence(f),
    decreases lines.len(),
{
    if lines.len() > 0 {
        lemma_fence(lines.drop_last());
        reveal_strlit("```");
        reveal_strlit("~~~");
    }
}

proof fn lemma_after_lines(lines: Seq<Seq<char>>, k: int)
    requires
        0 <= k <= lines.len(),
    ensures
        ({
            let (out, fence, code) = after_lines(lines.take(k));
            &&& out + blocks_html(lines, k, fence, code) == blocks_html(lines, 0, None, Seq::empty())
            &&& fence is None ==> code == Seq::<char>::empty()
        }),
    decreases k,
{
    let whole = blocks_html(lines, 0, None, Seq::empty());
    if k == 0 {
        assert(lines.take(0) =~= Seq::empty());
        assert(Seq::<char>::empty() + whole =~= whole);
    } else {
        lemma_after_lines(lines, k - 1);
        assert(lines.take(k).drop_last() =~= lines.take(k - 1));
        assert(lines.take(k).last() == lines[k - 1]);
        let (out, fence, code) = after_lines(lines.take(k - 1));
        let (out1, fence1, code1) = after_lines(lines.take(k));
        assert(out1 + blocks_html(lines, k, fence1, code1) =~= out + blocks_html(
            lines,
            k - 1,
            fence,
            code,
        ));
    }
}

/// The HTML of lines, by what is known after them.
proof fn lemma_blocks_after(lines: Seq<Seq<char>>)
    ensures
        ({
            let (out, fence, code) = after_lines(lines);
            blocks_html(lines, 0, None, Seq::empty()) == match fence {
                Some(_) => out + code_block(code),
                None => out,
            }
        }),
{
    lemma_after_lines(lines, lines.len() as int);
    assert(lines.take(lines.len() as int) =~= lines);
    let (out, fence, code) = after_lines(lines);
    assert(out + Seq::<char>::empty() =~= out);
}

proof fn lemma_blocks_shift(x: Seq<Seq<char>>, y: Seq<Seq<char>>, j: int, fence: Option<Seq<char>>, code: Seq<char>)
    requires
        0 <= j <= y.len(),
    ensures
        blocks_html(x + y, x.len() + j, fence, code) == blocks_html(y, j, fence, code),
    decreases y.len() - j,
{
    if j < y.len() {
        let piece = y[j];
        let line = trim_end_by(piece, CharClass::LineEnd);
        assert((x + y)[x.len() + j] == piece);
        lemma_blocks_shift(x, y, j + 1, None, Seq::empty());
        lemma_blocks_shift(x, y, j + 1, fence, code + piece);
        lemma_blocks_shift(x, y, j + 1, Some(line.take(3)), Seq::empty());
    }
}

// ---------- a line end behind a text ----------

/// What a line end behind a text does to its last line.
proof fn lemma_pieces_newline(s: Seq<char>)
    ensures
        s.len() == 0 || s.last() == '\n' ==> line_pieces(s + "\n"@) == line_pieces(s).push("\n"@),
        s.len() > 0 && s.last() != '\n' ==> line_pieces(s).len() > 0 && line_pieces(s + "\n"@)
            == line_pieces(s).drop_last().push(line_pieces(s).last() + "\n"@),
    decreases s.len(),
{
    reveal_strlit("\n");
    assert(is_piece("\n"@));
    lemma_one_piece("\n"@);
    if s.len() == 0 {
        assert(s + "\n"@ =~= "\n"@);
        assert(line_pieces(s).push("\n"@) =~= seq!["\n"@]);
    } else if s.last() == '\n' {
        lemma_pieces_add(s, "\n"@);
        assert(line_pieces(s) + seq!["\n"@] =~= line_pieces(s).push("\n"@));
    } else {
        let n = run_len(s, CharClass::Just('\n'), false) as int;
        lemma_run_len(s, CharClass::Just('\n'), false);
        if n >= s.len() {
            assert(is_piece(s + "\n"@));
            lemma_one_piece(s + "\n"@);
            assert(line_pieces(s).drop_last().push(s + "\n"@) =~= seq![s + "\n"@]);
        } else {
            let first = s.take(n + 1);
            let rest = s.skip(n + 1);
            assert(rest.len() > 0 && rest.last() == s.last());
            lemma_pieces_newline(rest);
            assert(s + "\n"@ =~= first + (rest + "\n"@));
            lemma_pieces_add(first, rest + "\n"@);
            assert(is_piece(first)) by {
                assert forall|j: int| 0 <= j < first.len() - 1 implies #[trigger] first[j] != '\n' by {
                    assert(first[j] == s[j]);
                }
            }
            lemma_one_piece(first);
            let pieces = line_pieces(s);
            assert(pieces =~= seq![first] + line_pieces(rest));
            assert(line_pieces(s + "\n"@) =~= pieces.drop_last().push(pieces.last() + "\n"@));
        }
    }
}

proof fn lemma_trim_newline(s: Seq<char>)
    ensures
        trim_end_by(s + "\n"@, CharClass::LineEnd) == trim_end_by(s, CharClass::LineEnd),
{
    reveal_strlit("\n");
    assert((s + "\n"@).drop_last() =~= s);
    assert((s + "\n"@).last() == '\n');
    lemma_end_run_len(s, CharClass::LineEnd);
    assert(trim_end_by(s + "\n"@, CharClass::LineEnd) =~= trim_end_by(s, CharClass::LineEnd));
}

pub proof fn lemma_ends_newline(s: Seq<char>)
    ensures
        line_end(s + "\n"@) == "\n"@,
        s.len() > 0 && s.last() != '\n' ==> line_end(s) == Seq::<char>::empty(),
        line_end(Seq::empty()) == Seq::<char>::empty(),
{
    reveal_strlit("\n");
    let t = s + "\n"@;
    assert(t.skip(t.len() - 1) =~= "\n"@);
    if s.len() > 0 && ends_with(s, "\n"@) {
        assert(s.skip(s.len() - 1)[0] == s.last());
    }
}

/// What is known after a text and after the text with a line end behind it.
proof fn lemma_after_newline(s: Seq<char>)
    ensures
        ({
            let (out, fence, code) = after_lines(line_pieces(s));
            let (out1, fence1, code1) = after_lines(line_pieces(s + "\n"@));
            &&& fence1 == fence
            &&& match fence {
                Some(_) => out1 == out && code_block(code1) == code_block(code),
                None => out1 == out + "\n"@,
            }
        }),
{
    reveal_strlit("\n");
    reveal_strlit("```");
    reveal_strlit("~~~");
    lemma_pieces_newline(s);
    let p = line_pieces(s);
    let q = line_pieces(s + "\n"@);
    let (out, fence, code) = after_lines(p);
    lemma_fence(p);
    lemma_trim_newline(Seq::empty());
    assert(Seq::<char>::empty() + "\n"@ =~= "\n"@);
    assert(trim_end_by(Seq::<char>::empty(), CharClass::LineEnd) =~= Seq::empty());
    lemma_ends_newline(Seq::empty());
    if s.len() == 0 || s.last() == '\n' {
        assert(q.drop_last() =~= p);
        assert(q.last() == "\n"@);
        lemma_trim_newline(code);
        lemma_line_empty();
        assert(Seq::<char>::empty() + "\n"@ =~= "\n"@);
    } else {
        let l = p.last();
        let front = p.drop_last();
        assert(q.drop_last() =~= front);
        assert(q.last() == l + "\n"@);
        lemma_trim_newline(l);
        lemma_last_piece(s);
        lemma_ends_newline(l);
        let (out0, fence0, code0) = after_lines(front);
        lemma_trim_newline(code0 + l);
        assert(code0 + (l + "\n"@) =~= code0 + l + "\n"@);
        let line = trim_end_by(l, CharClass::LineEnd);
        assert(out0 + (line_html(line) + "\n"@) =~= out0 + (line_html(line) + Seq::<char>::empty())
            + "\n"@);
        assert(out0 + (code_block(code0) + "\n"@) =~= out0 + (code_block(code0) + Seq::<char>::empty())
            + "\n"@);
    }
}

proof fn lemma_line_empty()
    ensures
        line_html(Seq::empty()) == Seq::<char>::empty(),
        !opens_fence(Seq::empty()),
{
    reveal_strlit("- ");
    reveal_strlit("* ");
    reveal_strlit("```");
    reveal_strlit("~~~");
    assert(line_html(Seq::empty()) =~= inline_from(Seq::empty(), 0));
}

proof fn lemma_last_piece(s: Seq<char>)
    requires
        s.len() > 0,
    ensures
        line_pieces(s).len() > 0,
        line_pieces(s).last().len() > 0,
        line_pieces(s).last().last() == s.last(),
    decreases s.len(),
{
    let n = run_len(s, CharClass::Just('\n'), false) as int;
    lemma_run_len(s, CharClass::Just('\n'), false);
    if n < s.len() {
        let rest = s.skip(n + 1);
        if rest.len() > 0 {
            lemma_last_piece(rest);
        } else {
            assert(line_pieces(rest) =~= Seq::empty());
            assert(line_pieces(s) =~= seq![s.take(n + 1)]);
            assert(s.take(n + 1) =~= s);
        }
    }
}

// ---------- lines before and after escaping ----------

proof fn lemma_replaced_lacks(s: Seq<char>, c: char, with: Seq<char>, d: char)
    requires
        !s.contains(d),
        !with.contains(d),
        with.len() > 0,
    ensures
        !replaced(s, c, with).contains(d),
        s.len() > 0 ==> replaced(s, c, with).len() > 0,
    decreases s.len(),
{
    let all = replaced(s, c, with);
    if s.len() > 0 {
        let front = s.drop_last();
        assert(!front.contains(d)) by {
            if front.contains(d) {
                let j = choose|j: int| 0 <= j < front.len() && front[j] == d;
                assert(s[j] == d);
            }
        }
        lemma_replaced_lacks(front, c, with, d);
        let head = replaced(front, c, with);
        assert(s[s.len() - 1] != d);
        if all.contains(d) {
            let i = choose|i: int| 0 <= i < all.len() && all[i] == d;
            if i < head.len() {
                assert(head[i] == d);
            } else if s.last() == c {
                assert(with[i - head.len()] == d);
            }
        }
    }
}

pub proof fn lemma_escaped_lacks(s: Seq<char>)
    requires
        !s.contains('\n'),
    ensures
        !escaped(s).contains('\n'),
        s.len() > 0 ==> escaped(s).len() > 0,
{
    reveal_strlit("&amp;");
    reveal_strlit("&lt;");
    reveal_strlit("&gt;");
    let a = replaced(s, '&', "&amp;"@);
    let b = replaced(a, '<', "&lt;"@);
    lemma_replaced_lacks(s, '&', "&amp;"@, '\n');
    lemma_replaced_lacks(a, '<', "&lt;"@, '\n');
    lemma_replaced_lacks(b, '>', "&gt;"@, '\n');
}

/// A text is escaped line by line.
pub proof fn lemma_escaped_pieces(s: Seq<char>)
    ensures
        line_pieces(escaped(s)) == line_pieces(s).map_values(|p: Seq<char>| escaped(p)),
    decreases s.len(),
{
    let f = |p: Seq<char>| escaped(p);
    if s.len() == 0 {
        lemma_escaped_same(s);
        assert(line_pieces(s).map_values(f) =~= Seq::empty());
    } else {
        let n = run_len(s, CharClass::Just('\n'), false) as int;
        lemma_run_len(s, CharClass::Just('\n'), false);
        let body = s.take(n);
        assert(!body.contains('\n')) by {
            if body.contains('\n') {
                let j = choose|j: int| 0 <= j < body.len() && body[j] == '\n';
                assert(s[j] == '\n');
            }
        }
        lemma_escaped_lacks(body);
        let safe = escaped(body);
        assert forall|j: int| 0 <= j < safe.len() implies #[trigger] safe[j] != '\n' by {
            if safe[j] == '\n' {
                assert(safe.contains('\n'));
            }
        }
        if n >= s.len() {
            assert(body =~= s);
            lemma_one_piece(safe);
            assert(line_pieces(s).map_values(f) =~= seq![safe]);
        } else {
            let end = seq!['\n'];
            let first = s.take(n + 1);
            let rest = s.skip(n + 1);
            assert(first =~= body + end);
            assert(s =~= first + rest);
            lemma_escaped_add(body, end);
            lemma_escaped_same(end);
            lemma_escaped_add(first, rest);
            lemma_one_piece(safe + end);
            lemma_pieces_add(safe + end, escaped(rest));
            lemma_escaped_pieces(rest);
            assert(line_pieces(s).map_values(f) =~= seq![safe + end] + line_pieces(rest).map_values(f));
        }
    }
}

proof fn lemma_escaped_one(c: char)
    ensures
        c == '&' || c == '<' || c == '>' ==> escaped(seq![c]).len() > 0 && escaped(seq![c])[0] == '&',
        c != '&' && c != '<' && c != '>' ==> escaped(seq![c]) == seq![c],
{
    let one = seq![c];
    assert(one.drop_last() =~= Seq::empty());
    reveal_strlit("&amp;");
    reveal_strlit("&lt;");
    reveal_strlit("&gt;");
    if c != '&' && c != '<' && c != '>' {
        lemma_escaped_same(one);
    } else {
        reveal_with_fuel(replaced, 6);
        lemma_first_kept("&amp;"@, '<', "&lt;"@);
        lemma_first_kept(replaced("&amp;"@, '<', "&lt;"@), '>', "&gt;"@);
        lemma_first_kept("&lt;"@, '>', "&gt;"@);
        assert(replaced(one, '&', "&amp;"@) =~= if c == '&' {
            "&amp;"@
        } else {
            one
        });
        assert(replaced(one, '<', "&lt;"@) =~= if c == '<' {
            "&lt;"@
        } else {
            one
        });
        assert(replaced(one, '>', "&gt;"@) =~= if c == '>' {
            "&gt;"@
        } else {
            one
        });
    }
}

proof fn lemma_first_kept(s: Seq<char>, c: char, with: Seq<char>)
    requires
        s.len() > 0,
        s[0] != c,
    ensures
        replaced(s, c, with).len() > 0,
        replaced(s, c, with)[0] == s[0],
    decreases s.len(),
{
    if s.len() > 1 {
        lemma_first_kept(s.drop_last(), c, with);
    } else {
        assert(s.drop_last() =~= Seq::empty());
        reveal_with_fuel(replaced, 2);
    }
}

/// Escaping neither makes nor hides a start without characters that are escaped.
proof fn lemma_escaped_prefix(s: Seq<char>, p: Seq<char>)
    requires
        !p.contains('&') && !p.contains('<') && !p.contains('>'),
    ensures
        starts_with(escaped(s), p) == starts_with(s, p),
    decreases p.len(),
{
    if p.len() == 0 {
        assert(s.take(0) =~= p);
        assert(escaped(s).take(0) =~= p);
    } else if s.len() == 0 {
        lemma_escaped_same(s);
    } else {
        let c = s[0];
        let rest = s.skip(1);
        let tail = p.skip(1);
        assert(s =~= seq![c] + rest);
        lemma_escaped_one(c);
        lemma_escaped_add(seq![c], rest);
        assert(p.contains(p[0]));
        let safe = escaped(s);
        if c == '&' || c == '<' || c == '>' {
            assert(safe[0] == '&');
            if starts_with(safe, p) {
                assert(safe.take(p.len() as int)[0] == safe[0]);
            }
            if starts_with(s, p) {
                assert(s.take(p.len() as int)[0] == s[0]);
            }
        } else {
            assert forall|d: char| tail.contains(d) implies p.contains(d) by {
                let j = choose|j: int| 0 <= j < tail.len() && tail[j] == d;
                assert(p[j + 1] == d);
            }
            lemma_escaped_prefix(rest, tail);
            assert(safe.skip(1) =~= escaped(rest));
            lemma_prefix_step(safe, p);
            lemma_prefix_step(s, p);
        }
    }
}

proof fn lemma_prefix_step(s: Seq<char>, p: Seq<char>)
    requires
        s.len() > 0,
        p.len() > 0,
    ensures
        starts_with(s, p) == (s[0] == p[0] && starts_with(s.skip(1), p.skip(1))),
{
    if starts_with(s, p) {
        assert(s.take(p.len() as int)[0] == s[0]);
        assert(s.skip(1).take(p.len() - 1) =~= p.skip(1)) by {
            assert forall|i: int| 0 <= i < p.len() - 1 implies s.skip(1).take(p.len() - 1)[i] == p.skip(1)[i] by {
                assert(s.take(p.len() as int)[i + 1] == p[i + 1]);
            }
        }
    }
    if s[0] == p[0] && starts_with(s.skip(1), p.skip(1)) {
        assert forall|i: int| 0 <= i < p.len() implies s.take(p.len() as int)[i] == p[i] by {
            if i > 0 {
                assert(s.skip(1).take(p.len() - 1)[i - 1] == p.skip(1)[i - 1]);
            }
        }
        assert(s.take(p.len() as int) =~= p);
    }
}

/// Taking the line end off a line neither makes nor hides a fence.
proof fn lemma_trim_prefix(s: Seq<char>, p: Seq<char>)
    requires
        p.len() > 0,
        p.last() != '\n' && p.last() != '\r',
    ensures
        starts_with(trim_end_by(s, CharClass::LineEnd), p) == starts_with(s, p),
{
    lemma_end_run_len(s, CharClass::LineEnd);
    let t = trim_end_by(s, CharClass::LineEnd);
    let n = p.len() as int;
    if starts_with(s, p) {
        assert(s.take(n)[n - 1] == s[n - 1]);
        assert(n <= t.len());
        assert(t.take(n) =~= s.take(n));
    }
    if starts_with(t, p) {
        assert(t.take(n) =~= s.take(n));
    }
}

/// Whether a line is a fence can be told before it is escaped and with its line end on.
pub proof fn lemma_fence_line(line: Seq<char>)
    ensures
        ({
            let safe = trim_end_by(escaped(line), CharClass::LineEnd);
            &&& forall|f: Seq<char>| is_fence(f) ==> #[trigger] starts_with(safe, f) == starts_with(line, f)
            &&& opens_fence(safe) == opens_fence(line)
            &&& opens_fence(line) ==> safe.take(3) == line.take(3)
        }),
{
    reveal_strlit("```");
    reveal_strlit("~~~");
    lemma_escaped_prefix(line, "```"@);
    lemma_escaped_prefix(line, "~~~"@);
    lemma_trim_prefix(escaped(line), "```"@);
    lemma_trim_prefix(escaped(line), "~~~"@);
}

// ---------- the laws ----------

/// What closes the code block that is open after these lines. A line that starts with a fence opens
/// a block, and the next line that starts with the same fence closes it.
pub open spec fn open_fence(lines: Seq<Seq<char>>) -> Option<Seq<char>>
    decreases lines.len(),
{
    if lines.len() == 0 {
        None
    } else {
        let line = lines.last();
        match open_fence(lines.drop_last()) {
            Some(f) => if starts_with(line, f) {
                None
            } else {
                Some(f)
            },
            None => if opens_fence(line) {
                Some(line.take(3))
            } else {
                None
            },
        }
    }
}

proof fn lemma_open_fence(lines: Seq<Seq<char>>)
    ensures
        after_lines(lines.map_values(|p: Seq<char>| escaped(p))).1 == open_fence(lines),
    decreases lines.len(),
{
    let f = |p: Seq<char>| escaped(p);
    let safe = lines.map_values(f);
    if lines.len() > 0 {
        let front = lines.drop_last();
        lemma_open_fence(front);
        assert(safe.drop_last() =~= front.map_values(f));
        assert(safe.last() == escaped(lines.last()));
        lemma_fence(safe.drop_last());
        lemma_fence_line(lines.last());
    }
}

/// What is known after a text without fences.
proof fn lemma_no_fence(lines: Seq<Seq<char>>)
    requires
        forall|k: int| 0 <= k < lines.len() ==> !opens_fence(#[trigger] lines[k]),
    ensures
        open_fence(lines) is None,
    decreases lines.len(),
{
    if lines.len() > 0 {
        let front = lines.drop_last();
        assert forall|k: int| 0 <= k < front.len() implies !opens_fence(#[trigger] front[k]) by {
            assert(front[k] == lines[k]);
        }
        lemma_no_fence(front);
        assert(lines[lines.len() - 1] == lines.last());
    }
}

/// The HTML of a text behind another one, on lines of its own, with no code block open between
/// them, is that of the two with a line end between them.
pub proof fn parts_are_converted_by_themselves(a: Seq<char>, b: Seq<char>)
    requires
        open_fence(line_pieces(a)) is None,
    ensures
        html(a + "\n"@ + b) == html(a) + "\n"@ + html(b),
{
    reveal_strlit("\n");
    let safe = escaped(a);
    let whole = escaped(a + "\n"@ + b);
    lemma_escaped_add(a + "\n"@, b);
    lemma_escaped_add(a, "\n"@);
    lemma_escaped_same("\n"@);
    assert(whole == safe + "\n"@ + escaped(b));
    let x = line_pieces(safe + "\n"@);
    let y = line_pieces(escaped(b));
    lemma_pieces_add(safe + "\n"@, escaped(b));
    lemma_escaped_pieces(a);
    lemma_open_fence(line_pieces(a));
    lemma_after_newline(safe);
    lemma_after_lines(x + y, x.len() as int);
    assert((x + y).take(x.len() as int) =~= x);
    lemma_blocks_shift(x, y, 0, None, Seq::empty());
    lemma_blocks_after(line_pieces(safe));
}

/// A text none of whose lines opens a code block is converted by itself, and so is what follows on
/// lines of its own.
pub proof fn lines_without_fences_are_converted_by_themselves(a: Seq<char>, b: Seq<char>)
    requires
        forall|k: int| 0 <= k < line_pieces(a).len() ==> !opens_fence(#[trigger] line_pieces(a)[k]),
    ensures
        html(a + "\n"@ + b) == html(a) + "\n"@ + html(b),
{
    lemma_no_fence(line_pieces(a));
    parts_are_converted_by_themselves(a, b);
}

/// A code block that is still open at the end of a text reads as one that is closed there, and
/// nothing of it is lost.
#[verifier::spinoff_prover]
#[verifier::rlimit(60)]
pub proof fn open_code_is_closed_at_the_end(md: Seq<char>, fence: Seq<char>)
    requires
        open_fence(line_pieces(md)) == Some(fence),
    ensures
        html(md + "\n"@ + fence) == html(md),
{
    reveal_strlit("\n");
    reveal_strlit("```");
    reveal_strlit("~~~");
    let safe = escaped(md);
    lemma_escaped_pieces(md);
    lemma_open_fence(line_pieces(md));
    lemma_fence(line_pieces(safe));
    assert(is_fence(fence));
    lemma_escaped_add(md + "\n"@, fence);
    lemma_escaped_add(md, "\n"@);
    lemma_escaped_same("\n"@);
    lemma_escaped_same(fence);
    let x = line_pieces(safe + "\n"@);
    let y = seq![fence];
    lemma_pieces_add(safe + "\n"@, fence);
    lemma_one_piece(fence);
    lemma_after_newline(safe);
    let (out, _, code) = after_lines(x);
    lemma_after_lines(x + y, x.len() as int);
    assert((x + y).take(x.len() as int) =~= x);
    lemma_blocks_shift(x, y, 0, Some(fence), code);
    lemma_ends_newline(fence);
    assert(trim_end_by(fence, CharClass::LineEnd) =~= fence);
    assert(fence.take(3) =~= fence);
    assert(blocks_html(y, 1, None, Seq::empty()) =~= Seq::empty());
    assert(blocks_html(y, 0, Some(fence), code) =~= code_block(code));
    lemma_blocks_after(line_pieces(safe));
}

} // verus!
