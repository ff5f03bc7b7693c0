//! Laws of the conversion of Markdown: each mark gives its tag, and the text within is kept.
use vstd::prelude::*;
use crate::laws::streams::one_line;
use crate::laws::texts::{ends_are_taken_off, prefixes_come_off, replacing_is_piecewise};
use crate::markdown::joining::{
    is_fence, lemma_ends_newline, lemma_escaped_lacks, lemma_escaped_pieces, lemma_fence_line,
};
use crate::markdown::{
    blocks_html, code_block, escaped, glued, header_text, html, inline_from, lemma_escaped_add,
    lemma_glued_front, lemma_mark_at, lemma_pieces, line_end, line_html, mark_at,
    number_mark, single_from, Mark,
};
use crate::text::{
    find_from, is_digit, is_piece, is_white_space, is_word_char, lemma_find_from, lemma_one_piece,
    lemma_pieces_add, lemma_run_is, line_pieces, occurs_at, replaced, run_len, starts_with, trim_end_by,
    CharClass,
};

verus! {

// ---------- escaping ----------

/// What stands for a character in HTML.
pub open spec fn safe(c: char) -> Seq<char> {
    if c == '&' {
        "&amp;"@
    } else if c == '<' {
        "&lt;"@
    } else if c == '>' {
        "&gt;"@
    } else {
        seq![c]
    }
}

proof fn lemma_replaced_one(c: char, x: char, with: Seq<char>)
    ensures
        replaced(seq![x], c, with) == if x == c {
            with
        } else {
            seq![x]
        },
{
    let none = Seq::<char>::empty();
    replacing_is_piecewise(none, x, none, c, with);
    assert(none + seq![x] + none =~= seq![x]);
    let r = if x == c {
        with
    } else {
        seq![x]
    };
    assert(none + r + none =~= r);
}

proof fn lemma_safe(c: char)
    ensures
        escaped(seq![c]) == safe(c),
{
    reveal_strlit("&amp;");
    reveal_strlit("&lt;");
    reveal_strlit("&gt;");
    lemma_replaced_one('&', c, "&amp;"@);
    let one = replaced(seq![c], '&', "&amp;"@);
    if c == '&' {
        crate::text::lemma_not_replaced(one, '<', "&lt;"@);
        crate::text::lemma_not_replaced(one, '>', "&gt;"@);
    } else {
        lemma_replaced_one('<', c, "&lt;"@);
        if c == '<' {
            crate::text::lemma_not_replaced("&lt;"@, '>', "&gt;"@);
        } else {
            lemma_replaced_one('>', c, "&gt;"@);
        }
    }
}

/// A text is escaped character by character, each in its place.
pub proof fn escaping_goes_by_characters(a: Seq<char>, c: char, b: Seq<char>)
    ensures
        escaped(a + seq![c] + b) == escaped(a) + safe(c) + escaped(b),
        escaped(Seq::empty()) == Seq::<char>::empty(),
{
    lemma_escaped_add(a + seq![c], b);
    lemma_escaped_add(a, seq![c]);
    lemma_safe(c);
}

proof fn lemma_escaped_ends(s: Seq<char>)
    requires
        s.len() > 0,
    ensures
        escaped(s).len() > 0,
        escaped(s)[0] == safe(s[0])[0],
        escaped(s).last() == safe(s.last()).last(),
        safe(s[0])[0] == s[0] || safe(s[0])[0] == '&',
        safe(s.last()).last() == s.last() || safe(s.last()).last() == ';',
{
    reveal_strlit("&amp;");
    reveal_strlit("&lt;");
    reveal_strlit("&gt;");
    let none = Seq::<char>::empty();
    escaping_goes_by_characters(none, s[0], s.skip(1));
    assert(none + seq![s[0]] + s.skip(1) =~= s);
    escaping_goes_by_characters(s.drop_last(), s.last(), none);
    assert(s.drop_last() + seq![s.last()] + none =~= s);
}

// ---------- lines ----------

/// A line that is no fence is converted by itself: it is escaped, and its marks are put in tags.
pub proof fn lines_are_converted(line: Seq<char>)
    requires
        one_line(line),
        line.len() > 0,
        line.last() != '\r',
        !starts_with(line, "```"@) && !starts_with(line, "~~~"@),
    ensures
        html(line) == line_html(escaped(line)),
        html(line + seq!['\r']) == html(line),
        html(Seq::empty()) == Seq::<char>::empty(),
{
    lemma_line_converted(line, Seq::empty());
    lemma_line_converted(line, seq!['\r']);
    assert(line + Seq::<char>::empty() =~= line);
    escaping_goes_by_characters(Seq::empty(), ' ', Seq::empty());
    assert(line_pieces(Seq::empty()) =~= Seq::empty());
}

#[verifier::spinoff_prover]
#[verifier::rlimit(50)]
proof fn lemma_line_converted(line: Seq<char>, end: Seq<char>)
    requires
        one_line(line),
        line.len() > 0,
        line.last() != '\r',
        !starts_with(line, "```"@) && !starts_with(line, "~~~"@),
        end.len() == 0 || end == seq!['\r'],
    ensures
        html(line + end) == line_html(escaped(line)),
{
    let core = escaped(line);
    let whole = line + end;
    let s = escaped(whole);
    let none = Seq::<char>::empty();
    lemma_escaped_add(line, end);
    if end.len() > 0 {
        lemma_safe('\r');
    } else {
        assert(end =~= none);
        escaping_goes_by_characters(none, ' ', none);
    }
    assert(s == core + end);
    assert(!whole.contains('\n')) by {
        if whole.contains('\n') {
            let j = choose|j: int| 0 <= j < whole.len() && whole[j] == '\n';
            if j < line.len() {
                assert(line[j] != '\n');
            } else {
                assert(whole[j] == end[j - line.len()]);
            }
        }
    }
    lemma_escaped_lacks(whole);
    lemma_escaped_ends(line);
    assert forall|j: int| 0 <= j < s.len() implies #[trigger] s[j] != '\n' by {
        if s[j] == '\n' {
            assert(s.contains('\n'));
        }
    }
    assert(is_piece(s));
    lemma_one_piece(s);
    assert forall|i: int| 0 <= i < end.len() implies CharClass::LineEnd.has(#[trigger] end[i]) by {}
    ends_are_taken_off(core, end, CharClass::LineEnd);
    lemma_fence_line(line);
    ends_are_taken_off(core, none, CharClass::LineEnd);
    assert(core + none =~= core);
    lemma_ends_newline(s);
    let lines = line_pieces(s);
    assert(lines[0] == s);
    assert(blocks_html(lines, 1, None, Seq::empty()) =~= none);
    assert(html(whole) =~= line_html(core));
}

/// So many `#`.
pub open spec fn hashes(k: nat) -> Seq<char> {
    Seq::new(k, |i: int| '#')
}

proof fn lemma_hashes(k: nat, rest: Seq<char>)
    requires
        rest.len() == 0 || rest[0] != '#',
    ensures
        run_len(hashes(k) + rest, CharClass::Just('#'), true) == k,
{
    let s = hashes(k) + rest;
    assert forall|i: int| 0 <= i < k implies CharClass::Just('#').has(#[trigger] s[i]) == true by {}
    if rest.len() > 0 {
        assert(s[k as int] == rest[0]);
    }
    lemma_run_is(s, CharClass::Just('#'), true, k);
}

/// A heading of any level, from one to six, is bold, with all its text.
pub proof fn headings_are_bold(k: nat, t: Seq<char>)
    requires
        1 <= k <= 6,
        one_line(t),
        t.len() > 0 ==> !is_white_space(t[0]) && t.last() != '\r',
    ensures
        html(hashes(k) + seq![' '] + t) == "<b>"@ + escaped(t) + "</b>"@,
        html(hashes(k)) == "<b>"@ + "</b>"@,
{
    let none = Seq::<char>::empty();
    spaced_headings_are_bold(k, seq![' '], t);
    lemma_no_fence_start(hashes(k));
    lines_are_converted(hashes(k));
    lemma_escaped_hashes(k);
    lemma_hashes(k, none);
    assert(hashes(k) + none =~= hashes(k));
    assert("<b>"@ + none + "</b>"@ =~= "<b>"@ + "</b>"@);
}

/// However much white space stands behind the signs of a heading, its text is the same.
#[verifier::spinoff_prover]
#[verifier::rlimit(50)]
pub proof fn spaced_headings_are_bold(k: nat, gap: Seq<char>, t: Seq<char>)
    requires
        1 <= k <= 6,
        gap.len() > 0 && gap[0] == ' ',
        forall|i: int| 0 <= i < gap.len() ==> is_white_space(#[trigger] gap[i]),
        one_line(gap) && one_line(t),
        t.len() == 0 ==> gap.last() != '\r',
        t.len() > 0 ==> !is_white_space(t[0]) && t.last() != '\r',
    ensures
        html(hashes(k) + gap + t) == "<b>"@ + escaped(t) + "</b>"@,
{
    let none = Seq::<char>::empty();
    let line = hashes(k) + gap + t;
    lemma_no_fence_start(line);
    assert(one_line(line)) by {
        assert forall|i: int| 0 <= i < line.len() implies #[trigger] line[i] != '\n' by {
            if k <= i < k + gap.len() {
                assert(line[i] == gap[i - k]);
            } else if i >= k {
                assert(line[i] == t[i - k - gap.len()]);
            }
        }
    }
    assert(line.last() != '\r') by {
        if t.len() > 0 {
            assert(line.last() == t.last());
        } else {
            assert(line.last() == gap.last());
        }
    }
    lines_are_converted(line);
    lemma_escaped_hashes(k);
    lemma_escaped_gap(gap);
    let e = escaped(t);
    lemma_escaped_add(hashes(k) + gap, t);
    lemma_escaped_add(hashes(k), gap);
    let s = hashes(k) + gap + e;
    assert(s =~= hashes(k) + (gap + e));
    assert((gap + e)[0] == ' ');
    lemma_hashes(k, gap + e);
    assert(s[k as int] == ' ');
    assert(s.skip(k as int) =~= gap + e);
    if t.len() > 0 {
        lemma_escaped_ends(t);
        assert(!is_white_space(e[0]));
    } else {
        assert(t =~= none);
        escaping_goes_by_characters(none, ' ', none);
    }
    assert forall|i: int| 0 <= i < gap.len() implies CharClass::Blank.has(#[trigger] gap[i]) by {}
    ends_are_taken_off(e, gap, CharClass::Blank);
    assert(header_text(s) == Some(e));
}

proof fn lemma_escaped_gap(gap: Seq<char>)
    requires
        forall|i: int| 0 <= i < gap.len() ==> is_white_space(#[trigger] gap[i]),
    ensures
        escaped(gap) == gap,
{
    if gap.contains('&') || gap.contains('<') || gap.contains('>') {
        let j = choose|j: int| 0 <= j < gap.len() && (gap[j] == '&' || gap[j] == '<' || gap[j] == '>');
        assert(is_white_space(gap[j]));
    }
    crate::markdown::lemma_escaped_same(gap);
}

proof fn lemma_no_fence_start(line: Seq<char>)
    requires
        line.len() > 0,
        line[0] != '`' && line[0] != '~',
    ensures
        !starts_with(line, "```"@) && !starts_with(line, "~~~"@),
{
    reveal_strlit("```");
    reveal_strlit("~~~");
    if starts_with(line, "```"@) {
        assert(line.take(3)[0] == line[0]);
    }
    if starts_with(line, "~~~"@) {
        assert(line.take(3)[0] == line[0]);
    }
}

proof fn lemma_escaped_hashes(k: nat)
    ensures
        escaped(hashes(k)) == hashes(k),
{
    let h = hashes(k);
    if h.contains('&') || h.contains('<') || h.contains('>') {
        let j = choose|j: int| 0 <= j < h.len() && (h[j] == '&' || h[j] == '<' || h[j] == '>');
        assert(h[j] == '#');
    }
    crate::markdown::lemma_escaped_same(h);
}

/// What is no heading: more than six signs, or none, or no space behind them.
pub proof fn other_lines_are_no_headings(k: nat, rest: Seq<char>)
    requires
        rest.len() == 0 || rest[0] != '#',
    ensures
        k > 6 || k == 0 ==> header_text(hashes(k) + rest) is None,
        rest.len() > 0 && rest[0] != ' ' ==> header_text(hashes(k) + rest) is None,
{
    lemma_hashes(k, rest);
    let s = hashes(k) + rest;
    if rest.len() > 0 {
        assert(s[k as int] == rest[0]);
    }
}

/// The mark of a list item is kept, and what follows is converted.
pub proof fn list_items_keep_their_mark(s: Seq<char>, digits: Seq<char>)
    requires
        digits.len() > 0,
        forall|i: int| 0 <= i < digits.len() ==> is_digit(#[trigger] digits[i]),
    ensures
        line_html("- "@ + s) == "- "@ + inline_from(s, 0),
        line_html("* "@ + s) == "* "@ + inline_from(s, 0),
        line_html(digits + ". "@ + s) == digits + ". "@ + inline_from(s, 0),
        line_html(digits + "."@) == digits + "."@,
{
    reveal_strlit("- ");
    reveal_strlit("* ");
    reveal_strlit(". ");
    reveal_strlit(".");
    lemma_hashes(0, "- "@ + s);
    lemma_hashes(0, "* "@ + s);
    let none = Seq::<char>::empty();
    assert(hashes(0) =~= none);
    assert(none + ("- "@ + s) =~= "- "@ + s);
    assert(none + ("* "@ + s) =~= "* "@ + s);
    prefixes_come_off("- "@, s);
    prefixes_come_off("* "@, s);
    assert(("- "@ + s).skip(2) =~= s && ("- "@ + s).take(2) =~= "- "@);
    assert(("* "@ + s).skip(2) =~= s && ("* "@ + s).take(2) =~= "* "@);
    lemma_numbered(digits, ". "@ + s);
    assert(digits + (". "@ + s) =~= digits + ". "@ + s);
    prefixes_come_off(". "@, s);
    let a = digits + ". "@ + s;
    let n = digits.len() as int;
    assert(number_mark(a) == Some(n + 2));
    assert(a.skip(n + 2) =~= s);
    assert(a.take(n + 2) =~= digits + ". "@);
    lemma_numbered(digits, "."@);
    let b = digits + "."@;
    assert(!starts_with("."@, ". "@));
    assert(number_mark(b) == Some(n + 1));
    assert(b.take(n + 1) =~= b);
    assert(b.skip(n + 1) =~= none);
    assert(inline_from(none, 0) =~= none);
    assert(b + none =~= b);
}

/// A line that is neither a heading nor a list item is converted as it stands.
pub proof fn other_lines_have_no_mark(s: Seq<char>)
    requires
        s.len() > 0 ==> s[0] != '#' && !is_digit(s[0]),
        s.len() > 1 ==> !((s[0] == '-' || s[0] == '*') && s[1] == ' '),
    ensures
        line_html(s) == inline_from(s, 0),
{
    reveal_strlit("- ");
    reveal_strlit("* ");
    assert(run_len(s, CharClass::Just('#'), true) == 0);
    assert(run_len(s, CharClass::Digit, true) == 0);
    if starts_with(s, "- "@) || starts_with(s, "* "@) {
        assert(s.take(2)[0] == s[0]);
        assert(s.take(2)[1] == s[1]);
    }
}

/// Digits without a dot and a space behind them are no mark.
pub proof fn numbers_alone_are_no_mark(digits: Seq<char>, rest: Seq<char>)
    requires
        digits.len() > 0,
        forall|i: int| 0 <= i < digits.len() ==> is_digit(#[trigger] digits[i]),
        rest.len() > 0 ==> !is_digit(rest[0]),
        rest.len() > 1 ==> !(rest[0] == '.' && rest[1] == ' '),
        rest.len() == 1 ==> rest[0] != '.',
    ensures
        line_html(digits + rest) == inline_from(digits + rest, 0),
{
    reveal_strlit("- ");
    reveal_strlit("* ");
    reveal_strlit(". ");
    reveal_strlit(".");
    let s = digits + rest;
    assert forall|i: int| 0 <= i < digits.len() implies CharClass::Digit.has(#[trigger] s[i]) == true by {
        assert(s[i] == digits[i]);
    }
    if rest.len() > 0 {
        assert(s[digits.len() as int] == rest[0]);
    }
    lemma_run_is(s, CharClass::Digit, true, digits.len());
    assert(s.skip(digits.len() as int) =~= rest);
    assert(s[0] == digits[0] && is_digit(digits[0]));
    assert(run_len(s, CharClass::Just('#'), true) == 0);
    if starts_with(s, "- "@) || starts_with(s, "* "@) {
        assert(s.take(2)[0] == s[0]);
    }
    if starts_with(rest, ". "@) {
        assert(rest.take(2)[0] == rest[0]);
        assert(rest.take(2)[1] == rest[1]);
    }
}

proof fn lemma_numbered(digits: Seq<char>, rest: Seq<char>)
    requires
        digits.len() > 0,
        forall|i: int| 0 <= i < digits.len() ==> is_digit(#[trigger] digits[i]),
        rest.len() > 0,
        rest[0] == '.',
    ensures
        run_len(digits + rest, CharClass::Digit, true) == digits.len(),
        (digits + rest).skip(digits.len() as int) == rest,
        header_text(digits + rest) is None,
        !starts_with(digits + rest, "- "@) && !starts_with(digits + rest, "* "@),
{
    let s = digits + rest;
    assert forall|i: int| 0 <= i < digits.len() implies CharClass::Digit.has(#[trigger] s[i]) == true by {
        assert(s[i] == digits[i]);
    }
    assert(s[digits.len() as int] == '.');
    lemma_run_is(s, CharClass::Digit, true, digits.len());
    assert(s.skip(digits.len() as int) =~= rest);
    assert(s[0] == digits[0] && is_digit(digits[0]));
    assert(run_len(s, CharClass::Just('#'), true) == 0);
    reveal_strlit("- ");
    reveal_strlit("* ");
    if starts_with(s, "- "@) || starts_with(s, "* "@) {
        assert(s.take(2)[0] == s[0]);
    }
}

// ---------- marks ----------

proof fn lemma_first_at(s: Seq<char>, p: Seq<char>, from: int, e: int)
    requires
        0 <= from <= e,
        occurs_at(s, p, e),
        forall|j: int| from <= j < e ==> !#[trigger] occurs_at(s, p, j),
    ensures
        find_from(s, p, from) == Some(e),
{
    lemma_find_from(s, p, from);
}

/// What stands between two backticks is code, as it is.
pub proof fn code_is_kept(s: Seq<char>, i: int, e: int)
    requires
        0 <= i < e < s.len(),
        s[i] == '`' && s[e] == '`',
        forall|j: int| i < j < e ==> #[trigger] s[j] != '`',
    ensures
        inline_from(s, i) == "<code>"@ + s.subrange(i + 1, e) + "</code>"@ + inline_from(s, e + 1),
{
    reveal_strlit("`");
    assert(s.subrange(e, e + 1) =~= "`"@);
    assert forall|j: int| i + 1 <= j < e implies !#[trigger] occurs_at(s, "`"@, j) by {
        if occurs_at(s, "`"@, j) {
            assert(s.subrange(j, j + 1)[0] == s[j]);
        }
    }
    assert(occurs_at(s, "`"@, e));
    lemma_first_at(s, "`"@, i + 1, e);
    lemma_mark_at(s, i);
}

/// Whether two of `c` stand at `i`.
pub open spec fn two_at(s: Seq<char>, c: char, i: int) -> bool {
    0 <= i && i + 1 < s.len() && s[i] == c && s[i + 1] == c
}

proof fn lemma_two_at(s: Seq<char>, c: char, i: int)
    ensures
        occurs_at(s, seq![c, c], i) == two_at(s, c, i),
{
    if two_at(s, c, i) {
        assert(s.subrange(i, i + 2) =~= seq![c, c]);
    }
    if occurs_at(s, seq![c, c], i) {
        assert(s.subrange(i, i + 2)[0] == s[i]);
        assert(s.subrange(i, i + 2)[1] == s[i + 1]);
    }
}

proof fn lemma_first_two(s: Seq<char>, c: char, from: int, e: int)
    requires
        0 <= from <= e,
        two_at(s, c, e),
        forall|j: int| from <= j < e ==> !#[trigger] two_at(s, c, j),
    ensures
        find_from(s, seq![c, c], from) == Some(e),
{
    let p = seq![c, c];
    lemma_two_at(s, c, e);
    assert forall|j: int| from <= j < e implies !#[trigger] occurs_at(s, p, j) by {
        lemma_two_at(s, c, j);
        assert(!two_at(s, c, j));
    }
    lemma_first_at(s, p, from, e);
}

/// What stands between two double marks is bold, or struck out, and kept as it is.
pub proof fn doubled_marks_give_their_tag(s: Seq<char>, i: int, e: int)
    requires
        two_at(s, s[i], i),
        i + 2 <= e,
        two_at(s, s[i], e),
        forall|j: int| i + 2 <= j < e ==> !#[trigger] two_at(s, s[i], j),
    ensures
        s[i] == '*' || s[i] == '_' ==> inline_from(s, i) == "<b>"@ + s.subrange(i + 2, e) + "</b>"@
            + inline_from(s, e + 2),
        s[i] == '~' ==> inline_from(s, i) == "<s>"@ + s.subrange(i + 2, e) + "</s>"@ + inline_from(s, e + 2),
{
    reveal_strlit("**");
    reveal_strlit("__");
    reveal_strlit("~~");
    assert("**"@ =~= seq!['*', '*']);
    assert("__"@ =~= seq!['_', '_']);
    assert("~~"@ =~= seq!['~', '~']);
    lemma_first_two(s, s[i], i + 2, e);
    lemma_mark_at(s, i);
}

/// Whether a single mark at `e` closes: something other than white space stands before it, the same
/// mark does not follow, and it does not stand within a word.
pub open spec fn closes(s: Seq<char>, c: char, e: int) -> bool {
    &&& 0 < e < s.len()
    &&& s[e] == c
    &&& e + 1 < s.len() ==> s[e + 1] != c
    &&& !is_white_space(s[e - 1])
    &&& !(e + 1 < s.len() && is_word_char(s[e - 1]) && is_word_char(s[e + 1]))
}

proof fn lemma_single_closes(s: Seq<char>, c: char, i: int)
    requires
        0 <= i,
    ensures
        single_from(s, c, i) matches Some(e) ==> i <= e && closes(s, c, e),
    decreases s.len() - i,
{
    if i < s.len() {
        lemma_single_closes(s, c, i + 1);
        if i + 1 < s.len() {
            lemma_single_closes(s, c, i + 2);
        }
    }
}

proof fn lemma_single_reaches(s: Seq<char>, c: char, i: int, e: int)
    requires
        0 <= i <= e < s.len(),
        forall|j: int| i <= j < e ==> #[trigger] s[j] != c,
        closes(s, c, e),
    ensures
        single_from(s, c, i) == Some(e),
    decreases e - i,
{
    if i < e {
        lemma_single_reaches(s, c, i + 1, e);
    }
}

/// Whether a single mark at `i` opens: it is not doubled, white space does not follow, and no letter
/// or number stands before it.
pub open spec fn opens(s: Seq<char>, i: int) -> bool {
    &&& 0 <= i && i + 1 < s.len()
    &&& s[i] == '*' || s[i] == '_'
    &&& s[i + 1] != s[i]
    &&& !is_white_space(s[i + 1])
    &&& i == 0 || !is_word_char(s[i - 1])
}

/// What stands between two single marks is italic, and kept as it is. Italic text always ends at a
/// mark that closes.
pub proof fn single_marks_give_their_tag(s: Seq<char>, i: int, e: int)
    requires
        opens(s, i),
    ensures
        i < e && closes(s, s[i], e) && (forall|j: int| i < j < e ==> #[trigger] s[j] != s[i]) ==> inline_from(
            s,
            i,
        ) == "<i>"@ + s.subrange(i + 1, e) + "</i>"@ + inline_from(s, e + 1),
        (forall|j: int| i < j < s.len() ==> !#[trigger] closes(s, s[i], j)) ==> inline_from(s, i)
            == seq![s[i]] + inline_from(s, i + 1),
        mark_at(s, i) matches Mark::Italic(at) ==> i < at && closes(s, s[i], at),
        single_from(s, s[i], i + 1) matches Some(at) ==> inline_from(s, i) == "<i>"@ + s.subrange(i + 1, at)
            + "</i>"@ + inline_from(s, at + 1),
        single_from(s, s[i], i + 1) is None ==> inline_from(s, i) == seq![s[i]] + inline_from(s, i + 1),
{
    lemma_mark_at(s, i);
    lemma_single_closes(s, s[i], i + 1);
    if i < e && closes(s, s[i], e) && (forall|j: int| i < j < e ==> #[trigger] s[j] != s[i]) {
        lemma_single_reaches(s, s[i], i + 1, e);
    }
}

/// A mark that does not close is passed over together with the character behind it.
pub proof fn marks_that_do_not_close_are_passed_over(s: Seq<char>, c: char, i: int)
    requires
        0 <= i < s.len(),
    ensures
        s[i] != c ==> single_from(s, c, i) == single_from(s, c, i + 1),
        s[i] == c && !closes(s, c, i) ==> single_from(s, c, i) == single_from(s, c, i + 2),
        closes(s, c, i) ==> single_from(s, c, i) == Some(i),
        single_from(s, c, s.len() as int) is None,
{
}

/// A text in brackets with an address in parentheses right behind it is a link; the text is
/// converted, the address is kept. An address with a quote makes no link.
pub proof fn links_give_their_tag(s: Seq<char>, i: int, b: int, p: int)
    requires
        0 <= i < b && b + 1 < p < s.len(),
        s[i] == '[' && s[b] == ']' && s[b + 1] == '(' && s[p] == ')',
        forall|j: int| i < j < b ==> #[trigger] s[j] != ']',
        forall|j: int| b + 1 < j < p ==> #[trigger] s[j] != ')',
    ensures
        (forall|j: int| b + 1 < j < p ==> #[trigger] s[j] != '"') ==> inline_from(s, i) == "<a href=\""@
            + s.subrange(b + 2, p) + "\">"@ + inline_from(s.subrange(i + 1, b), 0) + "</a>"@ + inline_from(
            s,
            p + 1,
        ),
        (exists|j: int| b + 1 < j < p && #[trigger] s[j] == '"') ==> inline_from(s, i) == seq!['[']
            + inline_from(s, i + 1),
{
    reveal_strlit("]");
    reveal_strlit(")");
    assert(s.subrange(b, b + 1) =~= "]"@);
    assert(s.subrange(p, p + 1) =~= ")"@);
    assert(occurs_at(s, "]"@, b));
    assert(occurs_at(s, ")"@, p));
    assert forall|j: int| i + 1 <= j < b implies !#[trigger] occurs_at(s, "]"@, j) by {
        if occurs_at(s, "]"@, j) {
            assert(s.subrange(j, j + 1)[0] == s[j]);
        }
    }
    assert forall|j: int| b + 2 <= j < p implies !#[trigger] occurs_at(s, ")"@, j) by {
        if occurs_at(s, ")"@, j) {
            assert(s.subrange(j, j + 1)[0] == s[j]);
        }
    }
    lemma_first_at(s, "]"@, i + 1, b);
    lemma_first_at(s, ")"@, b + 2, p);
    lemma_mark_at(s, i);
    let url = s.subrange(b + 2, p);
    if url.contains('"') {
        let k = choose|k: int| 0 <= k < url.len() && url[k] == '"';
        assert(s[b + 2 + k] == '"');
    }
    if exists|j: int| b + 1 < j < p && #[trigger] s[j] == '"' {
        let j = choose|j: int| b + 1 < j < p && #[trigger] s[j] == '"';
        assert(url[j - b - 2] == '"');
        assert(url.contains('"'));
    }
}

/// Brackets without an address in parentheses right behind them make no link.
pub proof fn brackets_alone_are_kept(s: Seq<char>, i: int, b: int)
    requires
        0 <= i < b < s.len(),
        s[i] == '[' && s[b] == ']',
        forall|j: int| i < j < b ==> #[trigger] s[j] != ']',
        b + 1 < s.len() && s[b + 1] == '(' ==> forall|j: int| b + 1 < j < s.len() ==> #[trigger] s[j] != ')',
    ensures
        inline_from(s, i) == seq!['['] + inline_from(s, i + 1),
{
    reveal_strlit("]");
    reveal_strlit(")");
    assert(s.subrange(b, b + 1) =~= "]"@);
    assert(occurs_at(s, "]"@, b));
    assert forall|j: int| i + 1 <= j < b implies !#[trigger] occurs_at(s, "]"@, j) by {
        if occurs_at(s, "]"@, j) {
            assert(s.subrange(j, j + 1)[0] == s[j]);
        }
    }
    lemma_first_at(s, "]"@, i + 1, b);
    lemma_mark_at(s, i);
    if b + 1 < s.len() && s[b + 1] == '(' {
        lemma_find_from(s, ")"@, b + 2);
        if let Some(p) = find_from(s, ")"@, b + 2) {
            assert(s.subrange(p, p + 1)[0] == s[p]);
        }
    }
}

/// Any other character is kept: one that is no mark, and a mark that nothing closes.
pub proof fn other_characters_are_kept(s: Seq<char>, i: int)
    requires
        0 <= i < s.len(),
    ensures
        s[i] != '`' && s[i] != '*' && s[i] != '_' && s[i] != '~' && s[i] != '[' ==> inline_from(s, i) == seq![s[i]]
            + inline_from(s, i + 1),
        s[i] == '`' && (forall|j: int| i < j < s.len() ==> #[trigger] s[j] != '`') ==> inline_from(s, i)
            == seq!['`'] + inline_from(s, i + 1),
        s[i] == '~' && !two_at(s, '~', i) ==> inline_from(s, i) == seq!['~'] + inline_from(s, i + 1),
        s[i] == '~' && (forall|j: int| i + 2 <= j < s.len() ==> !#[trigger] two_at(s, '~', j)) ==> inline_from(
            s,
            i,
        ) == seq!['~'] + inline_from(s, i + 1),
        (s[i] == '*' || s[i] == '_') && !opens(s, i) && (forall|j: int|
            i + 2 <= j < s.len() ==> !#[trigger] two_at(s, s[i], j)) ==> inline_from(s, i) == seq![s[i]]
            + inline_from(s, i + 1),
        (s[i] == '*' || s[i] == '_') && !opens(s, i) && !two_at(s, s[i], i) ==> inline_from(s, i) == seq![s[i]]
            + inline_from(s, i + 1),
        s[i] == '[' && (forall|j: int| i < j < s.len() ==> #[trigger] s[j] != ']') ==> inline_from(s, i)
            == seq!['['] + inline_from(s, i + 1),
        inline_from(s, s.len() as int) == Seq::<char>::empty(),
{
    reveal_strlit("`");
    reveal_strlit("**");
    reveal_strlit("__");
    reveal_strlit("~~");
    reveal_strlit("]");
    assert("**"@ =~= seq!['*', '*']);
    assert("__"@ =~= seq!['_', '_']);
    assert("~~"@ =~= seq!['~', '~']);
    lemma_mark_at(s, i);
    lemma_find_from(s, "`"@, i + 1);
    lemma_find_from(s, "]"@, i + 1);
    lemma_find_from(s, seq![s[i], s[i]], i + 2);
    if let Some(e) = find_from(s, "`"@, i + 1) {
        assert(s.subrange(e, e + 1)[0] == s[e]);
    }
    if let Some(e) = find_from(s, "]"@, i + 1) {
        assert(s.subrange(e, e + 1)[0] == s[e]);
    }
    if let Some(e) = find_from(s, seq![s[i], s[i]], i + 2) {
        lemma_two_at(s, s[i], e);
    }
}

// ---------- code blocks ----------

proof fn lemma_inside(lines: Seq<Seq<char>>, i: int, k: int, f: Seq<char>, code: Seq<char>)
    requires
        0 <= i <= k < lines.len(),
        forall|j: int| i <= j < k ==> !starts_with(trim_end_by(#[trigger] lines[j], CharClass::LineEnd), f),
        starts_with(trim_end_by(lines[k], CharClass::LineEnd), f),
    ensures
        blocks_html(lines, i, Some(f), code) == code_block(code + glued(lines.subrange(i, k), 0)) + line_end(
            lines[k],
        ) + blocks_html(lines, k + 1, None, Seq::empty()),
    decreases k - i,
{
    if i == k {
        assert(code + glued(lines.subrange(i, k), 0) =~= code);
    } else {
        lemma_inside(lines, i + 1, k, f, code + lines[i]);
        let rest = lines.subrange(i + 1, k);
        assert(lines.subrange(i, k) =~= seq![lines[i]] + rest);
        lemma_glued_front(lines[i], rest, 0);
        assert(code + lines[i] + glued(rest, 0) =~= code + (lines[i] + glued(rest, 0)));
    }
}

/// A code block between two fences of either kind holds its text, escaped and otherwise as it is, but
/// for line ends at its end; what stands behind either fence on its line is dropped.
#[verifier::spinoff_prover]
#[verifier::rlimit(50)]
pub proof fn code_blocks_are_kept(f: Seq<char>, lang: Seq<char>, body: Seq<char>, ends: Seq<char>, tail: Seq<char>)
    requires
        f == "```"@ || f == "~~~"@,
        one_line(lang) && one_line(tail),
        body.len() > 0 ==> body.last() != '\n' && body.last() != '\r',
        forall|i: int| 0 <= i < ends.len() ==> (#[trigger] ends[i] == '\n' || ends[i] == '\r'),
        ends.len() > 0 && ends.last() == '\n',
        forall|k: int|
            0 <= k < line_pieces(body + ends).len() ==> !starts_with(#[trigger] line_pieces(body + ends)[k], f),
    ensures
        html(f + lang + seq!['\n'] + (body + ends) + (f + tail)) == "<pre><code>"@ + escaped(body) + "</code></pre>"@,
{
    let nl = seq!['\n'];
    let none = Seq::<char>::empty();
    let first = f + lang + nl;
    let code = body + ends;
    let last = f + tail;
    let md = first + code + last;
    lemma_escaped_add(first + code, last);
    lemma_escaped_add(first, code);
    lemma_escaped_add(f, tail);
    lemma_escaped_fence(f);
    lemma_safe('\n');
    lemma_escaped_add(body, ends);
    lemma_escaped_add(f + lang, nl);
    lemma_escaped_ends_alone(ends);
    let inner = escaped(code);
    let top = escaped(first);
    let bottom = escaped(last);
    assert(inner == escaped(body) + ends);
    assert(top == escaped(f + lang) + nl);
    // The lines.
    assert(one_line(f + lang));
    assert(one_line(last));
    lemma_top_piece(f + lang);
    lemma_top_piece(last);
    lemma_one_piece(top);
    assert(is_piece(bottom)) by {
        assert forall|j: int| 0 <= j < bottom.len() - 1 implies #[trigger] bottom[j] != '\n' by {
            assert((bottom + nl)[j] == bottom[j]);
        }
    }
    lemma_one_piece(bottom);
    assert(escaped(md) == top + inner + bottom);
    assert((top + inner).last() == '\n');
    lemma_pieces_add(top + inner, bottom);
    lemma_pieces_add(top, inner);
    let mid = line_pieces(inner);
    let lines = line_pieces(escaped(md));
    assert(lines =~= seq![top] + mid + seq![bottom]);
    let k = mid.len() as int + 1;
    assert(lines.subrange(1, k) =~= mid);
    assert(lines[k] == bottom);
    assert(lines[0] == top);
    // The fence opens with the first line and closes with the last.
    assert(is_fence(f));
    lemma_fence_line(first);
    assert(first.take(3) =~= f);
    assert(starts_with(first, f));
    lemma_fence_line(last);
    prefixes_come_off(f, tail);
    assert(starts_with(trim_end_by(bottom, CharClass::LineEnd), f));
    lemma_escaped_pieces(code);
    assert forall|j: int| 1 <= j < k implies !starts_with(trim_end_by(#[trigger] lines[j], CharClass::LineEnd), f) by {
        assert(lines[j] == mid[j - 1]);
        let p = line_pieces(code)[j - 1];
        assert(mid[j - 1] == escaped(p));
        lemma_fence_line(p);
        assert(!starts_with(p, f));
    }
    lemma_inside(lines, 1, k, f, none);
    lemma_pieces(inner);
    assert(none + inner =~= inner);
    assert(bottom.last() != '\n') by {
        assert((bottom + nl)[bottom.len() - 1] == bottom.last());
    }
    lemma_ends_newline(bottom);
    assert(blocks_html(lines, k + 1, None, Seq::empty()) =~= none);
    assert(html(md) =~= code_block(inner));
    // The code is what stands between.
    if body.len() > 0 {
        lemma_escaped_ends(body);
    } else {
        assert(body =~= none);
        escaping_goes_by_characters(none, ' ', none);
    }
    assert forall|i: int| 0 <= i < ends.len() implies CharClass::LineEnd.has(#[trigger] ends[i]) by {}
    ends_are_taken_off(escaped(body), ends, CharClass::LineEnd);
}

proof fn lemma_escaped_ends_alone(ends: Seq<char>)
    requires
        forall|i: int| 0 <= i < ends.len() ==> (#[trigger] ends[i] == '\n' || ends[i] == '\r'),
    ensures
        escaped(ends) == ends,
{
    if ends.contains('&') || ends.contains('<') || ends.contains('>') {
        let j = choose|j: int| 0 <= j < ends.len() && (ends[j] == '&' || ends[j] == '<' || ends[j] == '>');
        assert(ends[j] == '\n' || ends[j] == '\r');
    }
    crate::markdown::lemma_escaped_same(ends);
}

proof fn lemma_escaped_fence(f: Seq<char>)
    requires
        f == "```"@ || f == "~~~"@,
    ensures
        escaped(f) == f,
        is_piece(f),
        f.len() == 3 && f.last() != '\n' && f.last() != '\r',
        one_line(f),
{
    reveal_strlit("```");
    reveal_strlit("~~~");
    crate::markdown::lemma_escaped_same(f);
}

proof fn lemma_top_piece(s: Seq<char>)
    requires
        one_line(s),
    ensures
        is_piece(escaped(s) + seq!['\n']),
{
    assert(!s.contains('\n')) by {
        if s.contains('\n') {
            let j = choose|j: int| 0 <= j < s.len() && s[j] == '\n';
            assert(s[j] != '\n');
        }
    }
    lemma_escaped_lacks(s);
    let e = escaped(s);
    let p = e + seq!['\n'];
    assert forall|j: int| 0 <= j < p.len() - 1 implies #[trigger] p[j] != '\n' by {
        if p[j] == '\n' {
            assert(e[j] == '\n');
            assert(e.contains('\n'));
        }
    }
}

} // verus!
