//! Markdown to the subset of HTML that Telegram renders.
//!
//! Covered: fenced code, inline code, bold, italic, strikethrough, headers, list items, links.
//! Everything else is kept as it is. The whole text is escaped first, so that the tags put in
//! afterwards are the only ones there are.
use vstd::prelude::*;
use crate::text::{
    chars_of, end_run_len, ends_with, find_chars, find_from, has_prefix, has_suffix,
    is_piece, is_white_space, is_word_char, lemma_end_run_len, lemma_find_from,
    lemma_not_replaced, lemma_one_piece, lemma_pieces_add, lemma_run_len, line_pieces, opt_view,
    replace_char, replaced, run_end, run_len, same, split_lines, starts_with, string_of,
    strip_prefix, take_chars, trim_end_by, trim_end_matches, trim_start_by, trim_start_matches,
    views, CharClass,
};

pub mod joining;

verus! {

// ---------- marks within a line ----------

/// Whether the character at `i` stands within a word.
pub open spec fn in_word(s: Seq<char>, i: int) -> bool {
    0 < i && i + 1 < s.len() && is_word_char(s[i - 1]) && is_word_char(s[i + 1])
}

/// The first `c` at or after `i` that may close an emphasis: no other `c` follows it, no white
/// space precedes it, and it does not stand within a word. One that may not is skipped together
/// with the character after it.
pub open spec fn single_from(s: Seq<char>, c: char, i: int) -> Option<int>
    decreases s.len() + 1 - i,
{
    if i < 0 || i >= s.len() {
        None
    } else if s[i] != c {
        single_from(s, c, i + 1)
    } else if !(i + 1 < s.len() && s[i + 1] == c) && i > 0 && !is_white_space(s[i - 1]) && !in_word(
        s,
        i,
    ) {
        Some(i)
    } else {
        single_from(s, c, i + 2)
    }
}

/// What starts at a position of a line. Each kind carries where its closing mark stands.
pub enum Mark {
    Code(int),
    Bold(int),
    Italic(int),
    Strike(int),
    /// The closing bracket and the closing parenthesis.
    Link(int, int),
    Plain,
}

/// Whether the character at `i` and the next are both `c`.
pub open spec fn doubled(s: Seq<char>, i: int, c: char) -> bool {
    s[i] == c && i + 1 < s.len() && s[i + 1] == c
}

/// Whether a single `c` at `i` may open an emphasis: no letter or number precedes it, and
/// something other than white space or `c` follows it.
pub open spec fn opens_single(s: Seq<char>, i: int, c: char) -> bool {
    &&& s[i] == c
    &&& i + 1 < s.len()
    &&& s[i + 1] != c
    &&& !is_white_space(s[i + 1])
    &&& i == 0 || !is_word_char(s[i - 1])
}

pub open spec fn mark_at(s: Seq<char>, i: int) -> Mark {
    let c = s[i];
    if c == '`' && find_from(s, "`"@, i + 1) is Some {
        Mark::Code(find_from(s, "`"@, i + 1)->0)
    } else if doubled(s, i, '*') && find_from(s, "**"@, i + 2) is Some {
        Mark::Bold(find_from(s, "**"@, i + 2)->0)
    } else if doubled(s, i, '_') && find_from(s, "__"@, i + 2) is Some {
        Mark::Bold(find_from(s, "__"@, i + 2)->0)
    } else if (opens_single(s, i, '*') || opens_single(s, i, '_')) && single_from(s, c, i + 1) is Some {
        Mark::Italic(single_from(s, c, i + 1)->0)
    } else if doubled(s, i, '~') && find_from(s, "~~"@, i + 2) is Some {
        Mark::Strike(find_from(s, "~~"@, i + 2)->0)
    } else if c == '[' {
        link_at(s, i)
    } else {
        Mark::Plain
    }
}

/// A link `[text](url)`: the first closing bracket, a parenthesis right behind it, and the first
/// closing parenthesis after that. An address with a quote in it cannot be put into a tag, and
/// makes no link.
pub open spec fn link_at(s: Seq<char>, i: int) -> Mark {
    match find_from(s, "]"@, i + 1) {
        Some(b) => if b + 1 < s.len() && s[b + 1] == '(' {
            match find_from(s, ")"@, b + 2) {
                Some(p) => if s.subrange(b + 2, p).contains('"') {
                    Mark::Plain
                } else {
                    Mark::Link(b, p)
                },
                None => Mark::Plain,
            }
        } else {
            Mark::Plain
        },
        None => Mark::Plain,
    }
}

/// The HTML of a line from position `i` on.
pub open spec fn inline_from(s: Seq<char>, i: int) -> Seq<char>
    decreases s.len(), s.len() - i,
{
    if i < 0 || i >= s.len() {
        Seq::empty()
    } else {
        proof {
            lemma_mark_at(s, i);
        }
        match mark_at(s, i) {
            Mark::Code(e) => "<code>"@ + s.subrange(i + 1, e) + "</code>"@ + inline_from(s, e + 1),
            Mark::Bold(e) => "<b>"@ + s.subrange(i + 2, e) + "</b>"@ + inline_from(s, e + 2),
            Mark::Italic(e) => "<i>"@ + s.subrange(i + 1, e) + "</i>"@ + inline_from(s, e + 1),
            Mark::Strike(e) => "<s>"@ + s.subrange(i + 2, e) + "</s>"@ + inline_from(s, e + 2),
            Mark::Link(b, p) => "<a href=\""@ + s.subrange(b + 2, p) + "\">"@ + inline_from(
                s.subrange(i + 1, b),
                0,
            ) + "</a>"@ + inline_from(s, p + 1),
            Mark::Plain => seq![s[i]] + inline_from(s, i + 1),
        }
    }
}

pub proof fn lemma_single_from(s: Seq<char>, c: char, i: int)
    requires
        0 <= i,
    ensures
        single_from(s, c, i) matches Some(e) ==> i <= e < s.len() && s[e] == c,
    decreases s.len() - i,
{
    if i < s.len() {
        lemma_single_from(s, c, i + 1);
        if i + 1 < s.len() {
            lemma_single_from(s, c, i + 2);
        }
    }
}

/// A mark closes after it opens, within the line.
pub proof fn lemma_mark_at(s: Seq<char>, i: int)
    requires
        0 <= i < s.len(),
    ensures
        match mark_at(s, i) {
            Mark::Code(e) => i < e < s.len(),
            Mark::Bold(e) => i + 2 <= e && e + 2 <= s.len(),
            Mark::Italic(e) => i < e < s.len(),
            Mark::Strike(e) => i + 2 <= e && e + 2 <= s.len(),
            Mark::Link(b, p) => i < b && b + 2 <= p < s.len(),
            Mark::Plain => true,
        },
{
    reveal_strlit("`");
    reveal_strlit("**");
    reveal_strlit("__");
    reveal_strlit("~~");
    reveal_strlit("]");
    reveal_strlit(")");
    lemma_find_from(s, "`"@, i + 1);
    lemma_find_from(s, "**"@, i + 2);
    lemma_find_from(s, "__"@, i + 2);
    lemma_find_from(s, "~~"@, i + 2);
    lemma_single_from(s, s[i], i + 1);
    lemma_find_from(s, "]"@, i + 1);
    if let Some(b) = find_from(s, "]"@, i + 1) {
        lemma_find_from(s, ")"@, b + 2);
    }
}

/// The first occurrence of `marker` at or after `from`. There is none of an empty marker.
pub fn find_marker(chars: &Vec<char>, from: usize, marker: &str) -> (r: Option<usize>)
    ensures
        match r {
            Some(k) => marker@.len() > 0 && find_from(chars@, marker@, from as int) == Some(k as int),
            None => marker@.len() == 0 || find_from(chars@, marker@, from as int) is None,
        },
{
    let m = chars_of(marker);
    if m.len() == 0 {
        None
    } else {
        find_chars(chars, &m, from)
    }
}

/// [`single_from`].
pub fn find_single(chars: &Vec<char>, from: usize, ch: char) -> (r: Option<usize>)
    ensures
        match r {
            Some(k) => single_from(chars@, ch, from as int) == Some(k as int),
            None => single_from(chars@, ch, from as int) is None,
        },
{
    let n: usize = chars.len();
    let mut i: usize = from;
    while i < n
        invariant
            n == chars@.len(),
            single_from(chars@, ch, from as int) == single_from(chars@, ch, i as int),
        decreases n - i,
    {
        if chars[i] == ch {
            let next_is_same = i < n - 1 && chars[i + 1] == ch;
            let prev_not_blank = i > 0 && !chars[i - 1].is_whitespace();
            let inside = i > 0 && i < n - 1 && chars[i - 1].is_alphanumeric()
                && chars[i + 1].is_alphanumeric();
            if !next_is_same && prev_not_blank && !inside {
                return Some(i);
            }
            if i >= n - 1 {
                assert(single_from(chars@, ch, i + 2) is None);
                return None;
            }
            i += 2;
        } else {
            i += 1;
        }
    }
    None
}

/// A [`Mark`] with machine positions.
enum Found {
    Code(usize),
    Bold(usize),
    Italic(usize),
    Strike(usize),
    Link(usize, usize),
    Plain,
}

impl Found {
    spec fn mark(self) -> Mark {
        match self {
            Found::Code(e) => Mark::Code(e as int),
            Found::Bold(e) => Mark::Bold(e as int),
            Found::Italic(e) => Mark::Italic(e as int),
            Found::Strike(e) => Mark::Strike(e as int),
            Found::Link(b, p) => Mark::Link(b as int, p as int),
            Found::Plain => Mark::Plain,
        }
    }
}

fn holds(chars: &Vec<char>, from: usize, to: usize, c: char) -> (r: bool)
    requires
        from <= to <= chars@.len(),
    ensures
        r == chars@.subrange(from as int, to as int).contains(c),
{
    let ghost part = chars@.subrange(from as int, to as int);
    let mut i: usize = from;
    while i < to
        invariant
            from <= i <= to <= chars@.len(),
            part == chars@.subrange(from as int, to as int),
            forall|k: int| 0 <= k < i - from ==> part[k] != c,
        decreases to - i,
    {
        assert(part[i - from] == chars@[i as int]);
        if chars[i] == c {
            return true;
        }
        i += 1;
    }
    false
}

fn find_link(chars: &Vec<char>, i: usize) -> (r: Found)
    requires
        i < chars@.len(),
    ensures
        r.mark() == link_at(chars@, i as int),
{
    proof {
        reveal_strlit("]");
        reveal_strlit(")");
        lemma_find_from(chars@, "]"@, i + 1);
    }
    let n: usize = chars.len();
    match find_marker(chars, i + 1, "]") {
        Some(b) => {
            if b < n - 1 && chars[b + 1] == '(' {
                match find_marker(chars, b + 2, ")") {
                    Some(p) => {
                        proof {
                            lemma_find_from(chars@, ")"@, b + 2);
                        }
                        if holds(chars, b + 2, p, '"') {
                            Found::Plain
                        } else {
                            Found::Link(b, p)
                        }
                    },
                    None => Found::Plain,
                }
            } else {
                Found::Plain
            }
        },
        None => Found::Plain,
    }
}

fn find_mark(chars: &Vec<char>, i: usize) -> (r: Found)
    requires
        i < chars@.len(),
    ensures
        r.mark() == mark_at(chars@, i as int),
{
    proof {
        reveal_strlit("`");
        reveal_strlit("**");
        reveal_strlit("__");
        reveal_strlit("~~");
    }
    let n: usize = chars.len();
    let c = chars[i];
    if c == '`' {
        if let Some(end) = find_marker(chars, i + 1, "`") {
            return Found::Code(end);
        }
    }
    let twice = i + 1 < n && chars[i + 1] == c;
    if c == '*' && twice {
        if let Some(end) = find_marker(chars, i + 2, "**") {
            return Found::Bold(end);
        }
    }
    if c == '_' && twice {
        if let Some(end) = find_marker(chars, i + 2, "__") {
            return Found::Bold(end);
        }
    }
    if (c == '*' || c == '_') && i + 1 < n && !twice {
        let left_ok = i == 0 || !chars[i - 1].is_alphanumeric();
        let right_ok = !chars[i + 1].is_whitespace();
        if left_ok && right_ok {
            if let Some(end) = find_single(chars, i + 1, c) {
                return Found::Italic(end);
            }
        }
    }
    if c == '~' && twice {
        if let Some(end) = find_marker(chars, i + 2, "~~") {
            return Found::Strike(end);
        }
    }
    if c == '[' {
        find_link(chars, i)
    } else {
        Found::Plain
    }
}

/// Puts the tags for the marks within a line. The line is escaped already.
pub fn convert_inline(s: &str) -> (r: String)
    ensures
        r@ == inline_from(s@, 0),
    decreases s@.len(),
{
    let chars = chars_of(s);
    let n: usize = chars.len();
    let mut out = String::new();
    let mut i: usize = 0;
    assert(out@ + inline_from(chars@, 0) =~= inline_from(chars@, 0));
    while i < n
        invariant
            n == chars@.len(),
            chars@ == s@,
            out@ + inline_from(chars@, i as int) == inline_from(s@, 0),
        decreases n - i,
    {
        let ghost before = out@;
        let ghost at = i as int;
        let ghost rest = inline_from(chars@, at);
        proof {
            lemma_mark_at(chars@, at);
        }
        match find_mark(&chars, i) {
            Found::Code(end) => {
                push_run(&mut out, "<code>", &chars, i + 1, end, "</code>");
                i = end + 1;
            },
            Found::Bold(end) => {
                push_run(&mut out, "<b>", &chars, i + 2, end, "</b>");
                i = end + 2;
            },
            Found::Italic(end) => {
                push_run(&mut out, "<i>", &chars, i + 1, end, "</i>");
                i = end + 1;
            },
            Found::Strike(end) => {
                push_run(&mut out, "<s>", &chars, i + 2, end, "</s>");
                i = end + 2;
            },
            Found::Link(bracket, paren) => {
                let text = string_of(&chars, i + 1, bracket);
                let inner = convert_inline(text.as_str());
                push_run(&mut out, "<a href=\"", &chars, bracket + 2, paren, "\">");
                out.append(inner.as_str());
                out.append("</a>");
                i = paren + 1;
            },
            Found::Plain => {
                out.push(chars[i]);
                i += 1;
            },
        }
        assert(out@ + inline_from(chars@, i as int) =~= before + rest);
    }
    assert(out@ + inline_from(chars@, i as int) =~= out@);
    out
}

fn push_run(out: &mut String, open: &str, chars: &Vec<char>, from: usize, to: usize, close: &str)
    requires
        from <= to <= chars@.len(),
    ensures
        final(out)@ == old(out)@ + (open@ + chars@.subrange(from as int, to as int) + close@),
{
    out.append(open);
    out.append(string_of(chars, from, to).as_str());
    out.append(close);
    assert(out@ =~= old(out)@ + (open@ + chars@.subrange(from as int, to as int) + close@));
}

// ---------- lines ----------

/// The text of a header: up to six `#` at the start, then a space or nothing.
pub open spec fn header_text(s: Seq<char>) -> Option<Seq<char>> {
    let hashes = run_len(s, CharClass::Just('#'), true) as int;
    if hashes == 0 || hashes > 6 {
        None
    } else if s.len() == hashes {
        Some(Seq::empty())
    } else if s[hashes] == ' ' {
        Some(trim_start_by(s.skip(hashes), CharClass::Blank))
    } else {
        None
    }
}

/// How long the mark of a numbered list item is: digits, a dot and a space, or digits and a dot
/// that end the line.
pub open spec fn number_mark(s: Seq<char>) -> Option<int> {
    let digits = run_len(s, CharClass::Digit, true) as int;
    if digits == 0 {
        None
    } else if starts_with(s.skip(digits), ". "@) {
        Some(digits + 2)
    } else if s.skip(digits) == "."@ {
        Some(digits + 1)
    } else {
        None
    }
}

/// The HTML of a line outside of code blocks.
pub open spec fn line_html(s: Seq<char>) -> Seq<char> {
    if header_text(s) is Some {
        "<b>"@ + header_text(s)->0 + "</b>"@
    } else if starts_with(s, "- "@) || starts_with(s, "* "@) {
        s.take(2) + inline_from(s.skip(2), 0)
    } else if number_mark(s) is Some {
        s.take(number_mark(s)->0) + inline_from(s.skip(number_mark(s)->0), 0)
    } else {
        inline_from(s, 0)
    }
}

pub proof fn lemma_number_mark(s: Seq<char>)
    ensures
        number_mark(s) matches Some(k) ==> 0 < k <= s.len(),
{
    reveal_strlit(". ");
    reveal_strlit(".");
    lemma_run_len(s, CharClass::Digit, true);
}

/// [`header_text`].
pub fn strip_atx_header(s: &str) -> (r: Option<String>)
    ensures
        match r {
            Some(t) => header_text(s@) == Some(t@),
            None => header_text(s@) is None,
        },
{
    let v = chars_of(s);
    assert(v@.skip(0) =~= v@);
    let hashes: usize = run_end(&v, 0, CharClass::Just('#'), true);
    if hashes == 0 || hashes > 6 {
        return None;
    }
    if v.len() == hashes {
        let none = String::new();
        assert(none@ =~= Seq::empty());
        return Some(none);
    }
    if v[hashes] == ' ' {
        let rest = string_of(&v, hashes, v.len());
        assert(rest@ =~= s@.skip(hashes as int));
        Some(trim_start_matches(rest.as_str(), CharClass::Blank))
    } else {
        None
    }
}

/// What follows the mark of a numbered list item.
pub fn strip_ordered_item(s: &str) -> (r: Option<String>)
    ensures
        match r {
            Some(t) => number_mark(s@) is Some && t@ == s@.skip(number_mark(s@)->0),
            None => number_mark(s@) is None,
        },
{
    let v = chars_of(s);
    assert(v@.skip(0) =~= v@);
    proof {
        lemma_number_mark(s@);
        reveal_strlit(". ");
        reveal_strlit(".");
    }
    let digits: usize = run_end(&v, 0, CharClass::Digit, true);
    if digits == 0 {
        return None;
    }
    let rest = string_of(&v, digits, v.len());
    assert(rest@ =~= s@.skip(digits as int));
    if let Some(after) = strip_prefix(rest.as_str(), ". ") {
        assert(after@ =~= s@.skip(digits + 2));
        Some(after)
    } else if same(rest.as_str(), ".") {
        let none = String::new();
        assert(none@ =~= s@.skip(digits + 1));
        Some(none)
    } else {
        None
    }
}

/// [`line_html`].
pub fn convert_inline_line(line: &str) -> (r: String)
    ensures
        r@ == line_html(line@),
{
    let v = chars_of(line);
    proof {
        lemma_number_mark(line@);
        reveal_strlit("- ");
        reveal_strlit("* ");
    }
    if let Some(rest) = strip_atx_header(line) {
        let mut out = "<b>".to_owned();
        out.append(rest.as_str());
        out.append("</b>");
        out
    } else if has_prefix(line, "- ") || has_prefix(line, "* ") {
        let mut out = string_of(&v, 0, 2);
        let rest = string_of(&v, 2, v.len());
        assert(out@ =~= line@.take(2));
        assert(rest@ =~= line@.skip(2));
        out.append(convert_inline(rest.as_str()).as_str());
        out
    } else if let Some(rest) = strip_ordered_item(line) {
        let mark: usize = v.len() - chars_of(rest.as_str()).len();
        let mut out = string_of(&v, 0, mark);
        assert(out@ =~= line@.take(mark as int));
        out.append(convert_inline(rest.as_str()).as_str());
        out
    } else {
        convert_inline(line)
    }
}

// ---------- blocks ----------

pub open spec fn escaped(s: Seq<char>) -> Seq<char> {
    replaced(replaced(replaced(s, '&', "&amp;"@), '<', "&lt;"@), '>', "&gt;"@)
}

pub open spec fn opens_fence(line: Seq<char>) -> bool {
    starts_with(line, "```"@) || starts_with(line, "~~~"@)
}

pub open spec fn code_block(code: Seq<char>) -> Seq<char> {
    "<pre><code>"@ + trim_end_by(code, CharClass::LineEnd) + "</code></pre>"@
}

/// The line end that a piece of text carries.
pub open spec fn line_end(piece: Seq<char>) -> Seq<char> {
    if ends_with(piece, "\n"@) {
        "\n"@
    } else {
        Seq::empty()
    }
}

/// The HTML of the lines from `i` on. Within a code block `fence` holds what closes it, and `code`
/// the lines read so far.
pub open spec fn blocks_html(
    lines: Seq<Seq<char>>,
    i: int,
    fence: Option<Seq<char>>,
    code: Seq<char>,
) -> Seq<char>
    decreases lines.len() - i,
{
    if i < 0 || i >= lines.len() {
        match fence {
            Some(_) => code_block(code),
            None => Seq::empty(),
        }
    } else {
        let line = trim_end_by(lines[i], CharClass::LineEnd);
        match fence {
            Some(f) => if starts_with(line, f) {
                code_block(code) + line_end(lines[i]) + blocks_html(lines, i + 1, None, Seq::empty())
            } else {
                blocks_html(lines, i + 1, fence, code + lines[i])
            },
            None => if opens_fence(line) {
                blocks_html(lines, i + 1, Some(line.take(3)), Seq::empty())
            } else {
                line_html(line) + line_end(lines[i]) + blocks_html(lines, i + 1, None, Seq::empty())
            },
        }
    }
}

/// The HTML of a Markdown text.
pub open spec fn html(md: Seq<char>) -> Seq<char> {
    blocks_html(line_pieces(escaped(md)), 0, None, Seq::empty())
}

fn push_code(out: &mut String, code: &str)
    ensures
        final(out)@ == old(out)@ + code_block(code@),
{
    out.append("<pre><code>");
    out.append(trim_end_matches(code, CharClass::LineEnd).as_str());
    out.append("</code></pre>");
    assert(out@ =~= old(out)@ + code_block(code@));
}

/// Turns common Markdown into the HTML that Telegram accepts.
pub fn md_to_tg_html(md: &str) -> (r: String)
    ensures
        r@ == html(md@),
{
    let mut text = replace_char(md, '&', "&amp;");
    text = replace_char(text.as_str(), '<', "&lt;");
    text = replace_char(text.as_str(), '>', "&gt;");
    let lines = split_lines(text.as_str());
    let ghost all = line_pieces(escaped(md@));
    let mut out = String::new();
    let mut fence: Option<String> = None;
    let mut code = String::new();
    let mut i: usize = 0;
    proof {
        assert(code@ =~= Seq::empty());
        assert(out@ + blocks_html(all, 0, None, Seq::empty()) =~= html(md@));
    }
    while i < lines.len()
        invariant
            i <= lines@.len(),
            views(lines@) == all,
            fence is None ==> code@ == Seq::<char>::empty(),
            out@ + blocks_html(all, i as int, opt_view(fence), code@) == html(md@),
        decreases lines@.len() - i,
    {
        let piece = lines[i].as_str();
        assert(piece@ == all[i as int]);
        let line = trim_end_matches(piece, CharClass::LineEnd);
        let ends = has_suffix(piece, "\n");
        let ghost before = out@;
        let ghost rest = blocks_html(all, i as int, opt_view(fence), code@);
        match fence {
            Some(f) => {
                if has_prefix(line.as_str(), f.as_str()) {
                    push_code(&mut out, code.as_str());
                    if ends {
                        out.append("\n");
                    }
                    fence = None;
                    code = String::new();
                    assert(code@ =~= Seq::empty());
                    assert(out@ + blocks_html(all, i + 1, opt_view(fence), code@) =~= before + rest);
                } else {
                    code.append(piece);
                    fence = Some(f);
                    assert(blocks_html(all, i + 1, opt_view(fence), code@) == rest);
                }
            },
            None => {
                if has_prefix(line.as_str(), "```") || has_prefix(line.as_str(), "~~~") {
                    proof {
                        reveal_strlit("```");
                        reveal_strlit("~~~");
                    }
                    fence = Some(take_chars(line.as_str(), 3));
                    assert(opt_view(fence) == Some(line@.take(3)));
                    assert(blocks_html(all, i + 1, opt_view(fence), code@) == rest);
                } else {
                    out.append(convert_inline_line(line.as_str()).as_str());
                    if ends {
                        out.append("\n");
                    }
                    fence = None;
                    assert(out@ + blocks_html(all, i + 1, opt_view(fence), code@) =~= before + rest);
                }
            },
        }
        i += 1;
        assert(out@ + blocks_html(all, i as int, opt_view(fence), code@) =~= before + rest);
    }
    if fence.is_some() {
        push_code(&mut out, code.as_str());
    } else {
        assert(out@ =~= html(md@));
    }
    out
}

// ---------- laws ----------

/// A character that no rule of the conversion looks at.
pub open spec fn is_ordinary(c: char) -> bool {
    c != '&' && c != '<' && c != '>' && c != '`' && c != '*' && c != '_' && c != '~' && c != '['
        && c != '#' && c != '\r'
}

pub open spec fn all_ordinary(s: Seq<char>) -> bool {
    forall|i: int| 0 <= i < s.len() ==> is_ordinary(#[trigger] s[i])
}

proof fn lemma_inline_plain(s: Seq<char>, i: int)
    requires
        all_ordinary(s),
        0 <= i <= s.len(),
    ensures
        inline_from(s, i) == s.skip(i),
    decreases s.len() - i,
{
    if i < s.len() {
        lemma_inline_plain(s, i + 1);
        assert(is_ordinary(s[i]));
        assert(seq![s[i]] + s.skip(i + 1) =~= s.skip(i));
    } else {
        assert(s.skip(i) =~= Seq::empty());
    }
}

proof fn lemma_line_plain(s: Seq<char>)
    requires
        all_ordinary(s),
    ensures
        line_html(s) == s,
{
    lemma_number_mark(s);
    assert(run_len(s, CharClass::Just('#'), true) == 0) by {
        if s.len() > 0 {
            assert(is_ordinary(s[0]));
        }
    }
    assert(s.skip(0) =~= s);
    lemma_inline_plain(s, 0);
    reveal_strlit("- ");
    reveal_strlit("* ");
    if starts_with(s, "- "@) || starts_with(s, "* "@) {
        assert(all_ordinary(s.skip(2)));
        lemma_inline_plain(s.skip(2), 0);
        assert(s.take(2) + s.skip(2).skip(0) =~= s);
    } else if number_mark(s) is Some {
        let k = number_mark(s)->0;
        assert(all_ordinary(s.skip(k)));
        lemma_inline_plain(s.skip(k), 0);
        assert(s.take(k) + s.skip(k).skip(0) =~= s);
    }
}

/// The text of the pieces from `i` on.
pub open spec fn glued(pieces: Seq<Seq<char>>, i: int) -> Seq<char>
    decreases pieces.len() - i,
{
    if i < 0 || i >= pieces.len() {
        Seq::empty()
    } else {
        pieces[i] + glued(pieces, i + 1)
    }
}

pub proof fn lemma_glued_front(piece: Seq<char>, pieces: Seq<Seq<char>>, i: int)
    requires
        0 <= i <= pieces.len(),
    ensures
        glued(seq![piece] + pieces, i + 1) == glued(pieces, i),
    decreases pieces.len() - i,
{
    if i < pieces.len() {
        lemma_glued_front(piece, pieces, i + 1);
        assert((seq![piece] + pieces)[i + 1] == pieces[i]);
    }
}

/// The pieces of a text make up the text.
pub proof fn lemma_pieces(s: Seq<char>)
    ensures
        glued(line_pieces(s), 0) == s,
        forall|k: int| 0 <= k < line_pieces(s).len() ==> is_piece(#[trigger] line_pieces(s)[k]),
        forall|k: int, j: int|
            0 <= k < line_pieces(s).len() && 0 <= j < line_pieces(s)[k].len() ==> s.contains(
                #[trigger] line_pieces(s)[k][j],
            ),
    decreases s.len(),
{
    let all = line_pieces(s);
    if s.len() > 0 {
        let n = run_len(s, CharClass::Just('\n'), false) as int;
        lemma_run_len(s, CharClass::Just('\n'), false);
        if n >= s.len() {
            reveal_with_fuel(glued, 2);
            assert(glued(all, 0) =~= s);
            assert forall|k: int, j: int| 0 <= k < all.len() && 0 <= j < all[k].len() implies s.contains(
                #[trigger] all[k][j],
            ) by {
                assert(all[k][j] == s[j]);
            }
        } else {
            let rest = s.skip(n + 1);
            lemma_pieces(rest);
            lemma_glued_front(s.take(n + 1), line_pieces(rest), 0);
            assert(all =~= seq![s.take(n + 1)] + line_pieces(rest));
            assert(glued(all, 0) =~= s.take(n + 1) + rest);
            assert(s.take(n + 1) + rest =~= s);
            assert forall|k: int| 0 <= k < all.len() implies is_piece(#[trigger] all[k]) by {
                if k > 0 {
                    assert(all[k] == line_pieces(rest)[k - 1]);
                } else {
                    assert forall|j: int| 0 <= j < n implies #[trigger] all[0][j] != '\n' by {
                        assert(s[j] == all[0][j]);
                    }
                }
            }
            assert forall|k: int, j: int| 0 <= k < all.len() && 0 <= j < all[k].len() implies s.contains(
                #[trigger] all[k][j],
            ) by {
                if k > 0 {
                    assert(all[k] == line_pieces(rest)[k - 1]);
                    let c = line_pieces(rest)[k - 1][j];
                    let m = choose|m: int| 0 <= m < rest.len() && rest[m] == c;
                    assert(s[n + 1 + m] == c);
                } else {
                    assert(all[k][j] == s[j]);
                }
            }
        }
    }
}

/// Trimming the line end of a piece and putting it back changes nothing, without carriage returns.
proof fn lemma_trim_piece(p: Seq<char>)
    requires
        is_piece(p),
        !p.contains('\r'),
    ensures
        trim_end_by(p, CharClass::LineEnd) + line_end(p) == p,
{
    reveal_strlit("\n");
    let n = p.len() as int;
    assert(p[n - 1] != '\r');
    if n > 1 {
        assert(p[n - 2] != '\r');
    }
    let front = p.drop_last();
    if p.last() == '\n' {
        assert(end_run_len(front, CharClass::LineEnd) == 0) by {
            if n > 1 {
                assert(front.last() == p[n - 2]);
            }
        }
        assert(p.skip(n - 1) =~= "\n"@);
        assert(p.take(n - 1) + "\n"@ =~= p);
    } else {
        assert(!ends_with(p, "\n"@)) by {
            if ends_with(p, "\n"@) {
                assert(p.skip(n - 1)[0] == p[n - 1]);
            }
        }
        assert(p.take(n) + Seq::<char>::empty() =~= p);
    }
}

proof fn lemma_blocks_plain(lines: Seq<Seq<char>>, i: int)
    requires
        0 <= i <= lines.len(),
        forall|k: int| 0 <= k < lines.len() ==> is_piece(#[trigger] lines[k]) && all_ordinary(lines[k]),
    ensures
        blocks_html(lines, i, None, Seq::empty()) == glued(lines, i),
    decreases lines.len() - i,
{
    if i < lines.len() {
        let p = lines[i];
        let line = trim_end_by(p, CharClass::LineEnd);
        lemma_blocks_plain(lines, i + 1);
        assert(!p.contains('\r')) by {
            if p.contains('\r') {
                let j = choose|j: int| 0 <= j < p.len() && p[j] == '\r';
                assert(is_ordinary(p[j]));
            }
        }
        lemma_trim_piece(p);
        lemma_end_run_len(p, CharClass::LineEnd);
        assert(all_ordinary(line)) by {
            assert forall|j: int| 0 <= j < line.len() implies is_ordinary(#[trigger] line[j]) by {
                assert(is_ordinary(p[j]));
            }
        }
        lemma_line_plain(line);
        reveal_strlit("```");
        reveal_strlit("~~~");
        if opens_fence(line) {
            assert(is_ordinary(line[0]));
            assert(line.take(3)[0] == line[0]);
        }
    }
}

/// Text without any of the marks and without the characters that HTML reserves comes through
/// unchanged, list items included.
pub proof fn ordinary_text_is_kept(md: Seq<char>)
    requires
        all_ordinary(md),
    ensures
        html(md) == md,
{
    assert forall|c: char| !is_ordinary(c) implies !md.contains(c) by {
        if md.contains(c) {
            let j = choose|j: int| 0 <= j < md.len() && md[j] == c;
            assert(is_ordinary(md[j]));
        }
    }
    lemma_not_replaced(md, '&', "&amp;"@);
    lemma_not_replaced(md, '<', "&lt;"@);
    lemma_not_replaced(md, '>', "&gt;"@);
    let lines = line_pieces(md);
    lemma_pieces(md);
    assert forall|k: int| 0 <= k < lines.len() implies is_piece(#[trigger] lines[k]) && all_ordinary(
        lines[k],
    ) by {
        assert forall|j: int| 0 <= j < lines[k].len() implies is_ordinary(#[trigger] lines[k][j]) by {
            let c = lines[k][j];
            let m = choose|m: int| 0 <= m < md.len() && md[m] == c;
            assert(is_ordinary(md[m]));
        }
    }
    lemma_blocks_plain(lines, 0);
}

/// Whether some line of the code would close a block of backticks.
pub open spec fn has_fence(code: Seq<char>) -> bool {
    exists|k: int|
        0 <= k < line_pieces(code).len() && starts_with(
            trim_end_by(#[trigger] line_pieces(code)[k], CharClass::LineEnd),
            "```"@,
        )
}

proof fn lemma_inside_code(lines: Seq<Seq<char>>, i: int, k: int, code: Seq<char>)
    requires
        0 <= i <= k < lines.len(),
        forall|j: int|
            i <= j < k ==> !starts_with(
                trim_end_by(#[trigger] lines[j], CharClass::LineEnd),
                "```"@,
            ),
        starts_with(trim_end_by(lines[k], CharClass::LineEnd), "```"@),
    ensures
        blocks_html(lines, i, Some("```"@), code) == code_block(code + glued(lines.subrange(i, k), 0))
            + line_end(lines[k]) + blocks_html(lines, k + 1, None, Seq::empty()),
    decreases k - i,
{
    if i == k {
        assert(code + glued(lines.subrange(i, k), 0) =~= code);
    } else {
        lemma_inside_code(lines, i + 1, k, code + lines[i]);
        let rest = lines.subrange(i + 1, k);
        assert(lines.subrange(i, k) =~= seq![lines[i]] + rest);
        lemma_glued_front(lines[i], rest, 0);
        assert(code + lines[i] + glued(rest, 0) =~= code + (lines[i] + glued(rest, 0)));
    }
}

/// What stands in a fenced block is escaped and otherwise verbatim, whatever marks are in it.
pub proof fn fenced_code_is_verbatim(code: Seq<char>)
    requires
        code.len() > 0,
        code.last() == '\n',
        !has_fence(escaped(code)),
    ensures
        html("```\n"@ + code + "```"@) == code_block(escaped(code)),
{
    reveal_strlit("```\n");
    reveal_strlit("```");
    reveal_strlit("~~~");
    reveal_strlit("\n");
    let md = "```\n"@ + code + "```"@;
    let inner = escaped(code);
    lemma_escaped_add("```\n"@ + code, "```"@);
    lemma_escaped_add("```\n"@, code);
    lemma_escaped_same("```\n"@);
    lemma_escaped_same("```"@);
    lemma_escaped_last(code);
    let first = "```\n"@ + inner;
    lemma_pieces_add(first, "```"@);
    lemma_pieces_add("```\n"@, inner);
    lemma_one_piece("```"@);
    lemma_one_piece("```\n"@);
    let mid = line_pieces(inner);
    let lines = line_pieces(escaped(md));
    assert(lines =~= seq!["```\n"@] + mid + seq!["```"@]);
    let k = mid.len() as int + 1;
    assert(lines.subrange(1, k) =~= mid);
    assert(lines[k] == "```"@);
    assert(lines[0] == "```\n"@);
    assert(trim_end_by("```\n"@, CharClass::LineEnd) =~= "```"@) by {
        assert("```\n"@.drop_last() =~= "```"@);
        reveal_with_fuel(end_run_len, 2);
    }
    assert(trim_end_by("```"@, CharClass::LineEnd) =~= "```"@);
    assert("```"@.take(3) =~= "```"@);
    assert forall|j: int| 1 <= j < k implies !starts_with(
        trim_end_by(#[trigger] lines[j], CharClass::LineEnd),
        "```"@,
    ) by {
        assert(lines[j] == mid[j - 1]);
    }
    lemma_inside_code(lines, 1, k, Seq::empty());
    lemma_pieces(inner);
    assert(Seq::<char>::empty() + inner =~= inner);
    assert(!ends_with("```"@, "\n"@)) by {
        if ends_with("```"@, "\n"@) {
            assert("```"@.skip(2)[0] == "```"@[2]);
        }
    }
    assert(blocks_html(lines, k + 1, None, Seq::empty()) =~= Seq::empty());
    assert(html(md) =~= code_block(inner));
}

proof fn lemma_replaced_add(a: Seq<char>, b: Seq<char>, c: char, with: Seq<char>)
    ensures
        replaced(a + b, c, with) == replaced(a, c, with) + replaced(b, c, with),
    decreases b.len(),
{
    if b.len() == 0 {
        assert(a + b =~= a);
        assert(replaced(a, c, with) + Seq::<char>::empty() =~= replaced(a, c, with));
    } else {
        assert((a + b).drop_last() =~= a + b.drop_last());
        lemma_replaced_add(a, b.drop_last(), c, with);
        assert(replaced(a + b, c, with) =~= replaced(a, c, with) + replaced(b, c, with));
    }
}

pub proof fn lemma_escaped_add(a: Seq<char>, b: Seq<char>)
    ensures
        escaped(a + b) == escaped(a) + escaped(b),
{
    lemma_replaced_add(a, b, '&', "&amp;"@);
    let (a1, b1) = (replaced(a, '&', "&amp;"@), replaced(b, '&', "&amp;"@));
    lemma_replaced_add(a1, b1, '<', "&lt;"@);
    lemma_replaced_add(replaced(a1, '<', "&lt;"@), replaced(b1, '<', "&lt;"@), '>', "&gt;"@);
}

pub proof fn lemma_escaped_same(s: Seq<char>)
    requires
        !s.contains('&') && !s.contains('<') && !s.contains('>'),
    ensures
        escaped(s) == s,
{
    lemma_not_replaced(s, '&', "&amp;"@);
    lemma_not_replaced(s, '<', "&lt;"@);
    lemma_not_replaced(s, '>', "&gt;"@);
}

proof fn lemma_escaped_last(s: Seq<char>)
    requires
        s.len() > 0,
        s.last() == '\n',
    ensures
        escaped(s).len() > 0,
        escaped(s).last() == '\n',
{
    let end = seq![s.last()];
    assert(s.drop_last() + end =~= s);
    lemma_escaped_add(s.drop_last(), end);
    lemma_escaped_same(end);
}

} // verus!
