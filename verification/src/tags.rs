//! How a reader takes HTML text, and that what [`crate::markdown`] makes reads well.
use vstd::prelude::*;
use crate::markdown::{
    blocks_html, code_block, escaped, header_text, html, inline_from, lemma_mark_at,
    lemma_number_mark, lemma_single_from, line_end, line_html, mark_at, number_mark, Mark,
};
use crate::text::{
    end_run_len, is_ascii_letter, lemma_end_run_len, lemma_find_from, lemma_run_len, line_pieces,
    replaced, run_len, starts_with, trim_end_by, CharClass,
};

verus! {

/// Where a reader stands with respect to the references `&amp;`, `&lt;` and `&gt;`.
pub enum Ref {
    Outside,
    /// After an ampersand and these letters.
    Inside(Seq<char>),
    Bad,
}

pub open spec fn ref_step(r: Ref, c: char) -> Ref {
    match r {
        Ref::Outside => if c == '&' {
            Ref::Inside(Seq::empty())
        } else {
            Ref::Outside
        },
        Ref::Inside(name) => if c == ';' {
            if name == "amp"@ || name == "lt"@ || name == "gt"@ {
                Ref::Outside
            } else {
                Ref::Bad
            }
        } else if is_ascii_letter(c) {
            Ref::Inside(name.push(c))
        } else {
            Ref::Bad
        },
        Ref::Bad => Ref::Bad,
    }
}

pub open spec fn ref_run(s: Seq<char>, r: Ref) -> Ref
    decreases s.len(),
{
    if s.len() == 0 {
        r
    } else {
        ref_step(ref_run(s.drop_last(), r), s.last())
    }
}

/// A reader of HTML: the tags that stand open, the inside of the tag being read, the reference
/// being read in the text between tags, and whether a tag was out of place.
pub struct Reader {
    pub open: Seq<Seq<char>>,
    pub tag: Option<Seq<char>>,
    pub text: Ref,
    pub broken: bool,
}

pub open spec fn fresh() -> Reader {
    between(Seq::empty(), Ref::Outside)
}

pub open spec fn between(open: Seq<Seq<char>>, text: Ref) -> Reader {
    Reader { open, tag: None, text, broken: false }
}

pub open spec fn is_plain_tag(t: Seq<char>) -> bool {
    t == "b"@ || t == "i"@ || t == "s"@ || t == "code"@ || t == "pre"@
}

/// The tag that opens a link: its address stands in quotes, holds none, and has only complete
/// references in it.
pub open spec fn is_link_tag(t: Seq<char>) -> bool {
    &&& t.len() > 8
    &&& starts_with(t, "a href=\""@)
    &&& t.last() == '"'
    &&& forall|i: int| 8 <= i < t.len() - 1 ==> #[trigger] t[i] != '"'
    &&& ref_run(t.subrange(8, t.len() - 1), Ref::Outside) == Ref::Outside
}

/// What reading the end of the tag `t` does. Only the known tags may open, and only the tag that
/// was opened last may close.
pub open spec fn end_tag(st: Reader, t: Seq<char>) -> Reader {
    if is_plain_tag(t) {
        Reader { open: st.open.push(t), tag: None, ..st }
    } else if is_link_tag(t) {
        Reader { open: st.open.push("a"@), tag: None, ..st }
    } else if st.open.len() > 0 && t == seq!['/'] + st.open.last() {
        Reader { open: st.open.drop_last(), tag: None, ..st }
    } else {
        Reader { broken: true, ..st }
    }
}

pub open spec fn step(st: Reader, c: char) -> Reader {
    if st.broken {
        st
    } else {
        match st.tag {
            Some(t) => if c == '>' {
                end_tag(st, t)
            } else if c == '<' {
                Reader { broken: true, ..st }
            } else {
                Reader { tag: Some(t.push(c)), ..st }
            },
            None => if c == '<' && st.text is Outside {
                Reader { tag: Some(Seq::empty()), ..st }
            } else if c == '<' || c == '>' {
                Reader { broken: true, ..st }
            } else {
                Reader { text: ref_step(st.text, c), ..st }
            },
        }
    }
}

pub open spec fn run(s: Seq<char>, st: Reader) -> Reader
    decreases s.len(),
{
    if s.len() == 0 {
        st
    } else {
        step(run(s.drop_last(), st), s.last())
    }
}

/// Text that a reader takes without anything left open or out of place.
pub open spec fn reads_well(s: Seq<char>) -> bool {
    run(s, fresh()) == fresh()
}

// ---------- reading in parts ----------

proof fn lemma_run_add(a: Seq<char>, b: Seq<char>, st: Reader)
    ensures
        run(a + b, st) == run(b, run(a, st)),
    decreases b.len(),
{
    if b.len() == 0 {
        assert(a + b =~= a);
    } else {
        assert((a + b).drop_last() =~= a + b.drop_last());
        lemma_run_add(a, b.drop_last(), st);
    }
}

proof fn lemma_ref_add(a: Seq<char>, b: Seq<char>, r: Ref)
    ensures
        ref_run(a + b, r) == ref_run(b, ref_run(a, r)),
    decreases b.len(),
{
    if b.len() == 0 {
        assert(a + b =~= a);
    } else {
        assert((a + b).drop_last() =~= a + b.drop_last());
        lemma_ref_add(a, b.drop_last(), r);
    }
}

pub open spec fn no_angle(s: Seq<char>) -> bool {
    forall|i: int| 0 <= i < s.len() ==> s[i] != '<' && #[trigger] s[i] != '>'
}

/// Escaped text: no angle brackets, and every ampersand begins a reference that is complete.
pub open spec fn is_text(s: Seq<char>) -> bool {
    no_angle(s) && ref_run(s, Ref::Outside) == Ref::Outside
}

proof fn lemma_run_text(s: Seq<char>, open: Seq<Seq<char>>, r: Ref)
    requires
        no_angle(s),
    ensures
        run(s, between(open, r)) == between(open, ref_run(s, r)),
    decreases s.len(),
{
    if s.len() > 0 {
        assert(no_angle(s.drop_last()));
        lemma_run_text(s.drop_last(), open, r);
        assert(s.last() == s[s.len() - 1]);
    }
}

/// Reading `<` and the inside of a tag.
proof fn lemma_run_tag_open(name: Seq<char>, st: Reader)
    requires
        no_angle(name),
        st == between(st.open, Ref::Outside),
    ensures
        run(seq!['<'] + name, st) == (Reader { tag: Some(name), ..st }),
    decreases name.len(),
{
    if name.len() == 0 {
        assert(seq!['<'] + name =~= seq!['<']);
        assert(seq!['<'].drop_last() =~= Seq::empty());
        reveal_with_fuel(run, 2);
        assert(name =~= Seq::empty());
    } else {
        assert(no_angle(name.drop_last()));
        lemma_run_tag_open(name.drop_last(), st);
        assert((seq!['<'] + name).drop_last() =~= seq!['<'] + name.drop_last());
        assert(name.drop_last().push(name.last()) =~= name);
        assert(name.last() == name[name.len() - 1]);
    }
}

/// Reading a whole tag.
proof fn lemma_run_tag(whole: Seq<char>, name: Seq<char>, st: Reader)
    requires
        no_angle(name),
        st == between(st.open, Ref::Outside),
        whole == seq!['<'] + name + seq!['>'],
    ensures
        run(whole, st) == end_tag(Reader { tag: Some(name), ..st }, name),
{
    lemma_run_tag_open(name, st);
    assert(whole.drop_last() =~= seq!['<'] + name);
}

/// Reading text between a tag and the tag that closes it.
proof fn lemma_run_pair(open: Seq<char>, name: Seq<char>, close: Seq<char>, inner: Seq<char>, stack: Seq<Seq<char>>)
    requires
        is_plain_tag(name),
        open == seq!['<'] + name + seq!['>'],
        close == seq!['<'] + (seq!['/'] + name) + seq!['>'],
        no_angle(name),
        run(inner, between(stack.push(name), Ref::Outside)) == between(stack.push(name), Ref::Outside),
    ensures
        run(open + inner + close, between(stack, Ref::Outside)) == between(stack, Ref::Outside),
{
    let st = between(stack, Ref::Outside);
    let inside = between(stack.push(name), Ref::Outside);
    lemma_run_tag(open, name, st);
    lemma_run_add(open, inner, st);
    lemma_run_add(open + inner, close, st);
    assert(no_angle(seq!['/'] + name));
    lemma_run_tag(close, seq!['/'] + name, inside);
    assert(stack.push(name).drop_last() =~= stack);
    reveal_strlit("b");
    reveal_strlit("i");
    reveal_strlit("s");
    reveal_strlit("code");
    reveal_strlit("pre");
    reveal_strlit("a href=\"");
    let t = seq!['/'] + name;
    assert(t[0] == '/');
    assert(!is_plain_tag(t));
    assert(!starts_with(t, "a href=\""@)) by {
        if starts_with(t, "a href=\""@) {
            assert(t.take(8)[0] == t[0]);
        }
    }
}

// ---------- where text may be cut ----------

/// Whether no reference is open before position `i`.
spec fn bound(s: Seq<char>, i: int) -> bool {
    0 <= i <= s.len() && ref_run(s.take(i), Ref::Outside) == Ref::Outside
}

spec fn is_cut(c: char) -> bool {
    !is_ascii_letter(c) && c != ';'
}

proof fn lemma_ref_bad(s: Seq<char>)
    ensures
        ref_run(s, Ref::Bad) == Ref::Bad,
    decreases s.len(),
{
    if s.len() > 0 {
        lemma_ref_bad(s.drop_last());
    }
}

proof fn lemma_ref_first(s: Seq<char>, r: Ref)
    requires
        s.len() > 0,
    ensures
        ref_run(s, r) == ref_run(s.skip(1), ref_step(r, s[0])),
{
    let one = seq![s[0]];
    assert(s =~= one + s.skip(1));
    lemma_ref_add(one, s.skip(1), r);
    assert(one.drop_last() =~= Seq::empty());
    reveal_with_fuel(ref_run, 2);
}

/// Text may be cut before anything that is no part of a reference.
proof fn lemma_bound(s: Seq<char>, i: int)
    requires
        is_text(s),
        0 <= i <= s.len(),
        i == 0 || i == s.len() || is_cut(s[i]),
    ensures
        bound(s, i),
{
    let r = ref_run(s.take(i), Ref::Outside);
    assert(s =~= s.take(i) + s.skip(i));
    lemma_ref_add(s.take(i), s.skip(i), Ref::Outside);
    if 0 < i < s.len() {
        lemma_ref_first(s.skip(i), r);
        lemma_ref_bad(s.skip(i).skip(1));
        lemma_ref_bad(s.skip(i));
    } else if i == s.len() {
        assert(s.take(i) =~= s);
    }
}

proof fn lemma_bound_next(s: Seq<char>, i: int)
    requires
        bound(s, i),
        i < s.len(),
        s[i] != '&',
    ensures
        bound(s, i + 1),
{
    assert(s.take(i + 1).drop_last() =~= s.take(i));
}

proof fn lemma_middle(s: Seq<char>, i: int, j: int)
    requires
        is_text(s),
        bound(s, i),
        bound(s, j),
        i <= j,
    ensures
        is_text(s.subrange(i, j)),
{
    assert(s.take(j) =~= s.take(i) + s.subrange(i, j));
    lemma_ref_add(s.take(i), s.subrange(i, j), Ref::Outside);
    assert forall|k: int| 0 <= k < s.subrange(i, j).len() implies s.subrange(i, j)[k] != '<'
        && #[trigger] s.subrange(i, j)[k] != '>' by {
        assert(s.subrange(i, j)[k] == s[i + k]);
    }
}

// ---------- marks within a line ----------

/// Reading a link with text that reads well inside of it.
proof fn lemma_run_link(url: Seq<char>, inner: Seq<char>, stack: Seq<Seq<char>>)
    requires
        is_text(url),
        !url.contains('"'),
        run(inner, between(stack.push("a"@), Ref::Outside)) == between(stack.push("a"@), Ref::Outside),
    ensures
        run("<a href=\""@ + url + "\">"@ + inner + "</a>"@, between(stack, Ref::Outside)) == between(
            stack,
            Ref::Outside,
        ),
{
    let st = between(stack, Ref::Outside);
    let inside = between(stack.push("a"@), Ref::Outside);
    reveal_strlit("<a href=\"");
    reveal_strlit("\">");
    reveal_strlit("</a>");
    reveal_strlit("a href=\"");
    reveal_strlit("a");
    reveal_strlit("b");
    reveal_strlit("i");
    reveal_strlit("s");
    reveal_strlit("code");
    reveal_strlit("pre");
    let name = "a href=\""@ + url + seq!['"'];
    let open = "<a href=\""@ + url + "\">"@;
    assert(open =~= seq!['<'] + name + seq!['>']);
    assert(no_angle(name));
    lemma_run_tag(open, name, st);
    assert(name.take(8) =~= "a href=\""@);
    assert(name.subrange(8, name.len() - 1) =~= url);
    assert forall|i: int| 8 <= i < name.len() - 1 implies #[trigger] name[i] != '"' by {
        assert(name[i] == url[i - 8]);
    }
    assert(is_link_tag(name));
    assert(run(open, st) == inside);
    let close = seq!['/'] + "a"@;
    assert("</a>"@ =~= seq!['<'] + close + seq!['>']);
    assert(no_angle(close));
    lemma_run_tag("</a>"@, close, inside);
    assert(stack.push("a"@).drop_last() =~= stack);
    assert(close[0] == '/');
    lemma_run_add(open, inner, st);
    lemma_run_add(open + inner, "</a>"@, st);
}

/// Reading text within one of the plain tags.
proof fn lemma_run_marked(inner: Seq<char>, stack: Seq<Seq<char>>)
    requires
        is_text(inner),
    ensures
        ({
            let st = between(stack, Ref::Outside);
            &&& run("<b>"@ + inner + "</b>"@, st) == st
            &&& run("<i>"@ + inner + "</i>"@, st) == st
            &&& run("<s>"@ + inner + "</s>"@, st) == st
            &&& run("<code>"@ + inner + "</code>"@, st) == st
        }),
{
    reveal_strlit("b");
    reveal_strlit("<b>");
    reveal_strlit("</b>");
    reveal_strlit("i");
    reveal_strlit("<i>");
    reveal_strlit("</i>");
    reveal_strlit("s");
    reveal_strlit("<s>");
    reveal_strlit("</s>");
    reveal_strlit("code");
    reveal_strlit("<code>");
    reveal_strlit("</code>");
    lemma_run_text(inner, stack.push("b"@), Ref::Outside);
    lemma_run_text(inner, stack.push("i"@), Ref::Outside);
    lemma_run_text(inner, stack.push("s"@), Ref::Outside);
    lemma_run_text(inner, stack.push("code"@), Ref::Outside);
    assert("<b>"@ =~= seq!['<'] + "b"@ + seq!['>']);
    assert("</b>"@ =~= seq!['<'] + (seq!['/'] + "b"@) + seq!['>']);
    lemma_run_pair("<b>"@, "b"@, "</b>"@, inner, stack);
    assert("<i>"@ =~= seq!['<'] + "i"@ + seq!['>']);
    assert("</i>"@ =~= seq!['<'] + (seq!['/'] + "i"@) + seq!['>']);
    lemma_run_pair("<i>"@, "i"@, "</i>"@, inner, stack);
    assert("<s>"@ =~= seq!['<'] + "s"@ + seq!['>']);
    assert("</s>"@ =~= seq!['<'] + (seq!['/'] + "s"@) + seq!['>']);
    lemma_run_pair("<s>"@, "s"@, "</s>"@, inner, stack);
    assert("<code>"@ =~= seq!['<'] + "code"@ + seq!['>']);
    assert("</code>"@ =~= seq!['<'] + (seq!['/'] + "code"@) + seq!['>']);
    lemma_run_pair("<code>"@, "code"@, "</code>"@, inner, stack);
}

/// A mark stands where text may be cut, and so does what closes it.
proof fn lemma_mark_bounds(s: Seq<char>, i: int)
    requires
        is_text(s),
        0 <= i < s.len(),
        !(mark_at(s, i) is Plain),
    ensures
        bound(s, i),
        match mark_at(s, i) {
            Mark::Code(e) => bound(s, i + 1) && bound(s, e) && bound(s, e + 1),
            Mark::Bold(e) => bound(s, i + 2) && bound(s, e) && bound(s, e + 2),
            Mark::Italic(e) => bound(s, i + 1) && bound(s, e) && bound(s, e + 1),
            Mark::Strike(e) => bound(s, i + 2) && bound(s, e) && bound(s, e + 2),
            Mark::Link(b, p) => bound(s, i + 1) && bound(s, b) && bound(s, b + 2) && bound(s, p)
                && bound(s, p + 1),
            Mark::Plain => true,
        },
{
    lemma_mark_at(s, i);
    lemma_bound(s, i);
    lemma_bound_next(s, i);
    reveal_strlit("`");
    reveal_strlit("**");
    reveal_strlit("__");
    reveal_strlit("~~");
    reveal_strlit("]");
    reveal_strlit(")");
    match mark_at(s, i) {
        Mark::Code(e) => {
            lemma_find_from(s, "`"@, i + 1);
            assert(s.subrange(e, e + 1)[0] == s[e]);
            lemma_bound(s, e);
            lemma_bound_next(s, e);
        },
        Mark::Bold(e) => {
            lemma_find_from(s, "**"@, i + 2);
            lemma_find_from(s, "__"@, i + 2);
            assert(s.subrange(e, e + 2)[0] == s[e]);
            assert(s.subrange(e, e + 2)[1] == s[e + 1]);
            lemma_bound_next(s, i + 1);
            lemma_bound(s, e);
            lemma_bound_next(s, e);
            lemma_bound_next(s, e + 1);
        },
        Mark::Italic(e) => {
            lemma_single_from(s, s[i], i + 1);
            lemma_bound(s, e);
            lemma_bound_next(s, e);
        },
        Mark::Strike(e) => {
            lemma_find_from(s, "~~"@, i + 2);
            assert(s.subrange(e, e + 2)[0] == s[e]);
            assert(s.subrange(e, e + 2)[1] == s[e + 1]);
            lemma_bound_next(s, i + 1);
            lemma_bound(s, e);
            lemma_bound_next(s, e);
            lemma_bound_next(s, e + 1);
        },
        Mark::Link(b, p) => {
            lemma_find_from(s, "]"@, i + 1);
            lemma_find_from(s, ")"@, b + 2);
            assert(s.subrange(b, b + 1)[0] == s[b]);
            assert(s.subrange(p, p + 1)[0] == s[p]);
            lemma_bound(s, b);
            lemma_bound_next(s, b);
            lemma_bound_next(s, b + 1);
            lemma_bound(s, p);
            lemma_bound_next(s, p);
        },
        Mark::Plain => {},
    }
}

/// The HTML of a line is read as the line itself, whatever tags stand open.
proof fn lemma_run_inline(s: Seq<char>, i: int, stack: Seq<Seq<char>>)
    requires
        is_text(s),
        0 <= i <= s.len(),
    ensures
        run(inline_from(s, i), between(stack, ref_run(s.take(i), Ref::Outside))) == between(
            stack,
            Ref::Outside,
        ),
    decreases s.len(), s.len() - i,
{
    let r = ref_run(s.take(i), Ref::Outside);
    let st = between(stack, Ref::Outside);
    if i == s.len() {
        assert(s.take(i) =~= s);
    } else {
        lemma_mark_at(s, i);
        let m = mark_at(s, i);
        if m is Plain {
            let one = seq![s[i]];
            assert(s.take(i + 1).drop_last() =~= s.take(i));
            lemma_run_inline(s, i + 1, stack);
            lemma_run_add(one, inline_from(s, i + 1), between(stack, r));
            assert(no_angle(one));
            lemma_run_text(one, stack, r);
            assert(one.drop_last() =~= Seq::empty());
            reveal_with_fuel(ref_run, 2);
        } else {
            lemma_mark_bounds(s, i);
            let (inner, from, to) = match m {
                Mark::Code(e) => (s.subrange(i + 1, e), e + 1, e),
                Mark::Bold(e) => (s.subrange(i + 2, e), e + 2, e),
                Mark::Italic(e) => (s.subrange(i + 1, e), e + 1, e),
                Mark::Strike(e) => (s.subrange(i + 2, e), e + 2, e),
                Mark::Link(b, p) => (s.subrange(i + 1, b), p + 1, b),
                Mark::Plain => (s, i, i),
            };
            match m {
                Mark::Code(e) | Mark::Italic(e) => lemma_middle(s, i + 1, e),
                Mark::Bold(e) | Mark::Strike(e) => lemma_middle(s, i + 2, e),
                Mark::Link(b, p) => {
                    lemma_middle(s, i + 1, b);
                    lemma_middle(s, b + 2, p);
                    lemma_run_inline(inner, 0, stack.push("a"@));
                    assert(inner.take(0) =~= Seq::empty());
                    lemma_run_link(s.subrange(b + 2, p), inline_from(inner, 0), stack);
                },
                Mark::Plain => {},
            }
            lemma_run_marked(inner, stack);
            lemma_run_inline(s, from, stack);
            let rest = inline_from(s, from);
            match m {
                Mark::Code(_) => lemma_run_add("<code>"@ + inner + "</code>"@, rest, st),
                Mark::Bold(_) => lemma_run_add("<b>"@ + inner + "</b>"@, rest, st),
                Mark::Italic(_) => lemma_run_add("<i>"@ + inner + "</i>"@, rest, st),
                Mark::Strike(_) => lemma_run_add("<s>"@ + inner + "</s>"@, rest, st),
                Mark::Link(b, p) => lemma_run_add(
                    "<a href=\""@ + s.subrange(b + 2, p) + "\">"@ + inline_from(inner, 0) + "</a>"@,
                    rest,
                    st,
                ),
                Mark::Plain => {},
            }
        }
    }
}

// ---------- lines and blocks ----------

proof fn lemma_bound_prefix(s: Seq<char>, k: int)
    requires
        0 <= k <= s.len(),
        forall|j: int| 0 <= j < k ==> #[trigger] s[j] != '&',
    ensures
        bound(s, k),
    decreases k,
{
    if k == 0 {
        assert(s.take(0) =~= Seq::empty());
    } else {
        lemma_bound_prefix(s, k - 1);
        lemma_bound_next(s, k - 1);
    }
}

proof fn lemma_text_add(a: Seq<char>, b: Seq<char>)
    requires
        is_text(a),
        is_text(b),
    ensures
        is_text(a + b),
{
    lemma_ref_add(a, b, Ref::Outside);
}

proof fn lemma_tail(s: Seq<char>, k: int)
    requires
        is_text(s),
        bound(s, k),
    ensures
        is_text(s.take(k)),
        is_text(s.skip(k)),
{
    lemma_bound(s, 0);
    lemma_bound(s, s.len() as int);
    lemma_middle(s, 0, k);
    lemma_middle(s, k, s.len() as int);
    assert(s.subrange(0, k) =~= s.take(k));
    assert(s.subrange(k, s.len() as int) =~= s.skip(k));
}

proof fn lemma_run_line(s: Seq<char>)
    requires
        is_text(s),
    ensures
        run(line_html(s), fresh()) == fresh(),
{
    let hashes = run_len(s, CharClass::Just('#'), true) as int;
    lemma_run_len(s, CharClass::Just('#'), true);
    reveal_strlit("- ");
    reveal_strlit("* ");
    reveal_strlit(". ");
    reveal_strlit(".");
    assert(s.take(0) =~= Seq::empty());
    if header_text(s) is Some {
        lemma_bound_prefix(s, hashes);
        lemma_tail(s, hashes);
        let rest = s.skip(hashes);
        lemma_run_len(rest, CharClass::Blank, true);
        let blanks = run_len(rest, CharClass::Blank, true) as int;
        lemma_bound_prefix(rest, blanks);
        lemma_tail(rest, blanks);
        assert(is_text(Seq::empty()));
        lemma_run_marked(header_text(s)->0, Seq::empty());
    } else if starts_with(s, "- "@) || starts_with(s, "* "@) {
        assert(s[0] == s.take(2)[0] && s[1] == s.take(2)[1]);
        lemma_bound_prefix(s, 2);
        lemma_run_split(s, 2);
    } else if number_mark(s) is Some {
        let k = number_mark(s)->0;
        let digits = run_len(s, CharClass::Digit, true) as int;
        lemma_number_mark(s);
        lemma_run_len(s, CharClass::Digit, true);
        let rest = s.skip(digits);
        if starts_with(rest, ". "@) {
            assert(rest.take(2)[0] == s[digits] && rest.take(2)[1] == s[digits + 1]);
        } else {
            assert(rest[0] == s[digits]);
        }
        lemma_bound_prefix(s, k);
        lemma_run_split(s, k);
    } else {
        lemma_run_inline(s, 0, Seq::empty());
    }
}

/// A line whose mark is kept.
proof fn lemma_run_split(s: Seq<char>, k: int)
    requires
        is_text(s),
        bound(s, k),
    ensures
        run(s.take(k) + inline_from(s.skip(k), 0), fresh()) == fresh(),
{
    lemma_tail(s, k);
    lemma_run_text(s.take(k), Seq::empty(), Ref::Outside);
    assert(s.skip(k).take(0) =~= Seq::empty());
    lemma_run_inline(s.skip(k), 0, Seq::empty());
    lemma_run_add(s.take(k), inline_from(s.skip(k), 0), fresh());
}

proof fn lemma_trim_text(s: Seq<char>)
    requires
        is_text(s),
    ensures
        is_text(trim_end_by(s, CharClass::LineEnd)),
{
    let k = s.len() - end_run_len(s, CharClass::LineEnd);
    lemma_end_run_len(s, CharClass::LineEnd);
    lemma_bound(s, k);
    lemma_tail(s, k);
}

proof fn lemma_pieces_text(s: Seq<char>)
    requires
        is_text(s),
    ensures
        forall|k: int| 0 <= k < line_pieces(s).len() ==> is_text(#[trigger] line_pieces(s)[k]),
    decreases s.len(),
{
    if s.len() > 0 {
        let n = run_len(s, CharClass::Just('\n'), false) as int;
        lemma_run_len(s, CharClass::Just('\n'), false);
        if n < s.len() {
            lemma_bound(s, n);
            lemma_bound_next(s, n);
            lemma_tail(s, n + 1);
            let rest = s.skip(n + 1);
            lemma_pieces_text(rest);
            assert forall|k: int| 0 <= k < line_pieces(s).len() implies is_text(
                #[trigger] line_pieces(s)[k],
            ) by {
                if k > 0 {
                    assert(line_pieces(s)[k] == line_pieces(rest)[k - 1]);
                }
            }
        }
    }
}

proof fn lemma_run_code(code: Seq<char>)
    requires
        is_text(code),
    ensures
        run(code_block(code), fresh()) == fresh(),
{
    let inner = trim_end_by(code, CharClass::LineEnd);
    lemma_trim_text(code);
    reveal_strlit("pre");
    reveal_strlit("<code>");
    reveal_strlit("</code>");
    reveal_strlit("<pre>");
    reveal_strlit("</pre>");
    reveal_strlit("<pre><code>");
    reveal_strlit("</code></pre>");
    lemma_run_marked(inner, seq!["pre"@]);
    assert(Seq::empty().push("pre"@) =~= seq!["pre"@]);
    let middle = "<code>"@ + inner + "</code>"@;
    assert("<pre>"@ =~= seq!['<'] + "pre"@ + seq!['>']);
    assert("</pre>"@ =~= seq!['<'] + (seq!['/'] + "pre"@) + seq!['>']);
    lemma_run_pair("<pre>"@, "pre"@, "</pre>"@, middle, Seq::empty());
    assert("<pre><code>"@ =~= "<pre>"@ + "<code>"@);
    assert("</code></pre>"@ =~= "</code>"@ + "</pre>"@);
    assert(code_block(code) =~= "<pre>"@ + middle + "</pre>"@);
}

proof fn lemma_run_blocks(lines: Seq<Seq<char>>, i: int, fence: Option<Seq<char>>, code: Seq<char>)
    requires
        0 <= i <= lines.len(),
        forall|k: int| 0 <= k < lines.len() ==> is_text(#[trigger] lines[k]),
        is_text(code),
    ensures
        run(blocks_html(lines, i, fence, code), fresh()) == fresh(),
    decreases lines.len() - i,
{
    lemma_run_code(code);
    if i < lines.len() {
        let line = trim_end_by(lines[i], CharClass::LineEnd);
        lemma_trim_text(lines[i]);
        lemma_text_add(code, lines[i]);
        lemma_run_line(line);
        reveal_strlit("\n");
        let end = line_end(lines[i]);
        assert(no_angle(end));
        assert(ref_run(end, Ref::Outside) == Ref::Outside) by {
            assert("\n"@.drop_last() =~= Seq::empty());
            reveal_with_fuel(ref_run, 2);
        }
        lemma_run_text(end, Seq::empty(), Ref::Outside);
        assert(is_text(Seq::empty()));
        lemma_run_blocks(lines, i + 1, None, Seq::empty());
        let rest = blocks_html(lines, i + 1, None, Seq::empty());
        lemma_run_add(code_block(code), end, fresh());
        lemma_run_add(code_block(code) + end, rest, fresh());
        lemma_run_add(line_html(line), end, fresh());
        lemma_run_add(line_html(line) + end, rest, fresh());
        lemma_run_blocks(lines, i + 1, fence, code + lines[i]);
        lemma_run_blocks(lines, i + 1, Some(line.take(3)), Seq::empty());
    }
}

// ---------- escaping ----------

proof fn lemma_refs()
    ensures
        ref_run("&amp;"@, Ref::Outside) == Ref::Outside,
        ref_run("&lt;"@, Ref::Outside) == Ref::Outside,
        ref_run("&gt;"@, Ref::Outside) == Ref::Outside,
        no_angle("&amp;"@),
        no_angle("&lt;"@),
        no_angle("&gt;"@),
{
    reveal_strlit("&amp;");
    reveal_strlit("&lt;");
    reveal_strlit("&gt;");
    reveal_strlit("amp");
    reveal_strlit("lt");
    reveal_strlit("gt");
    reveal_with_fuel(ref_run, 6);
    assert("&amp;"@ =~= seq!['&', 'a', 'm', 'p', ';']);
    assert("&lt;"@ =~= seq!['&', 'l', 't', ';']);
    assert("&gt;"@ =~= seq!['&', 'g', 't', ';']);
    assert(Seq::<char>::empty().push('a').push('m').push('p') =~= "amp"@);
    assert(Seq::<char>::empty().push('l').push('t') =~= "lt"@);
    assert(Seq::<char>::empty().push('g').push('t') =~= "gt"@);
}

proof fn lemma_escape_amp(s: Seq<char>)
    ensures
        ref_run(replaced(s, '&', "&amp;"@), Ref::Outside) == Ref::Outside,
    decreases s.len(),
{
    if s.len() > 0 {
        lemma_escape_amp(s.drop_last());
        lemma_refs();
        let head = replaced(s.drop_last(), '&', "&amp;"@);
        lemma_ref_add(head, "&amp;"@, Ref::Outside);
        lemma_ref_add(head, seq![s.last()], Ref::Outside);
        assert(seq![s.last()].drop_last() =~= Seq::empty());
        reveal_with_fuel(ref_run, 2);
    }
}

/// Replacing a bracket by a reference keeps the references whole.
proof fn lemma_escape_angle(s: Seq<char>, c: char, with: Seq<char>)
    requires
        c == '<' || c == '>',
        ref_run(with, Ref::Outside) == Ref::Outside,
        no_angle(with),
        ref_run(s, Ref::Outside) != Ref::Bad,
    ensures
        ref_run(replaced(s, c, with), Ref::Outside) == ref_run(s, Ref::Outside),
        forall|i: int|
            0 <= i < replaced(s, c, with).len() ==> #[trigger] replaced(s, c, with)[i] != c && (
            replaced(s, c, with)[i] == '<' || replaced(s, c, with)[i] == '>' ==> s.contains(
                replaced(s, c, with)[i],
            )),
    decreases s.len(),
{
    if s.len() > 0 {
        let front = s.drop_last();
        lemma_escape_angle(front, c, with);
        let head = replaced(front, c, with);
        lemma_ref_add(head, with, Ref::Outside);
        lemma_ref_add(head, seq![s.last()], Ref::Outside);
        assert(seq![s.last()].drop_last() =~= Seq::empty());
        reveal_with_fuel(ref_run, 2);
        let all = replaced(s, c, with);
        assert forall|i: int| 0 <= i < all.len() implies #[trigger] all[i] != c && (all[i] == '<'
            || all[i] == '>' ==> s.contains(all[i])) by {
            if i < head.len() {
                assert(all[i] == head[i]);
                if head[i] == '<' || head[i] == '>' {
                    let j = choose|j: int| 0 <= j < front.len() && front[j] == head[i];
                    assert(s[j] == all[i]);
                }
            } else if s.last() == c {
                assert(all[i] == with[i - head.len()]);
            } else {
                assert(all[i] == s[s.len() - 1]);
            }
        }
    }
}

proof fn lemma_escaped_text(md: Seq<char>)
    ensures
        is_text(escaped(md)),
{
    let a = replaced(md, '&', "&amp;"@);
    let b = replaced(a, '<', "&lt;"@);
    lemma_refs();
    lemma_escape_amp(md);
    lemma_escape_angle(a, '<', "&lt;"@);
    lemma_escape_angle(b, '>', "&gt;"@);
}

/// Whatever the Markdown, the HTML made of it reads well: there is no angle bracket but those of
/// the tags for bold, italic, struck-out, preformatted and code text and for links, each tag is
/// closed and the tags nest, and an ampersand, between the tags and in the address of a link, only
/// begins one of the three references. The address of a link holds no quote.
pub proof fn html_reads_well(md: Seq<char>)
    ensures
        reads_well(html(md)),
{
    lemma_escaped_text(md);
    lemma_pieces_text(escaped(md));
    assert(is_text(Seq::empty()));
    lemma_run_blocks(line_pieces(escaped(md)), 0, None, Seq::empty());
}

} // verus!
