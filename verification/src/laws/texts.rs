//! Laws of text: trimming, searching, cutting, joining, replacing, numbers and order.
use vstd::prelude::*;
use crate::text::{
    after_prefix, ascending, ascii_lower, contains, end_run_len, ends_with, find_from, first_chars, i64_of,
    int_text, is_digit, is_white_space, joined, lemma_end_run_is, lemma_end_run_len, lemma_find_from,
    lemma_nat_text, lemma_precedes_not_self, lemma_run_is, lemma_run_len, line_pieces, nat_text, occurs_at,
    precedes, replaced, run_len, split_at_first, starts_with, trim_end_by, trim_start_by, trimmed, words,
    CharClass,
};
use crate::tools::skill::{all_blank, lemma_trim_around};

verus! {

/// Trimming takes the white space around a text away, all of it, and nothing else.
pub proof fn trimming_keeps_the_core(before: Seq<char>, core: Seq<char>, after: Seq<char>)
    requires
        forall|i: int| 0 <= i < before.len() ==> is_white_space(#[trigger] before[i]),
        forall|i: int| 0 <= i < after.len() ==> is_white_space(#[trigger] after[i]),
        core.len() > 0 ==> !is_white_space(core[0]) && !is_white_space(core.last()),
    ensures
        trimmed(before + core + after) == core,
{
    assert(all_blank(before));
    assert(all_blank(after));
    lemma_trim_around(before, core, after);
}

/// Every text is a trimmed text with white space around it.
pub proof fn trimming_takes_white_space_only(s: Seq<char>)
    ensures
        exists|before: Seq<char>, after: Seq<char>|
            #![trigger before + trimmed(s) + after]
            s == before + trimmed(s) + after && all_blank(before) && all_blank(after),
        trimmed(s).len() > 0 ==> !is_white_space(trimmed(s)[0]) && !is_white_space(trimmed(s).last()),
{
    let k = CharClass::Blank;
    lemma_run_len(s, k, true);
    let a = run_len(s, k, true) as int;
    let rest = s.skip(a);
    lemma_end_run_len(rest, k);
    let n = rest.len() - end_run_len(rest, k);
    let (before, core, after) = (s.take(a), rest.take(n), rest.skip(n));
    assert(s =~= before + core + after);
    assert(core == trimmed(s));
    if core.len() > 0 {
        assert(core[0] == s[a]);
        assert(core.last() == rest[n - 1]);
    }
    assert(all_blank(before));
    assert forall|i: int| 0 <= i < after.len() implies is_white_space(#[trigger] after[i]) by {
        assert(after[i] == rest[n + i]);
        assert(k.has(rest[n + i]));
    }
    assert(s == before + trimmed(s) + after);
}

/// Taking characters off an end takes all of them and no other.
pub proof fn ends_are_taken_off(core: Seq<char>, run: Seq<char>, k: CharClass)
    requires
        forall|i: int| 0 <= i < run.len() ==> k.has(#[trigger] run[i]),
    ensures
        core.len() == 0 || !k.has(core[0]) ==> trim_start_by(run + core, k) == core,
        core.len() == 0 || !k.has(core.last()) ==> trim_end_by(core + run, k) == core,
{
    let s = run + core;
    if core.len() == 0 || !k.has(core[0]) {
        assert forall|i: int| 0 <= i < run.len() implies k.has(#[trigger] s[i]) == true by {
            assert(s[i] == run[i]);
        }
        if core.len() > 0 {
            assert(s[run.len() as int] == core[0]);
        }
        lemma_run_is(s, k, true, run.len());
        assert(s.skip(run.len() as int) =~= core);
    }
    let t = core + run;
    if core.len() == 0 || !k.has(core.last()) {
        assert forall|i: int| t.len() - run.len() <= i < t.len() implies k.has(#[trigger] t[i]) by {
            assert(t[i] == run[i - core.len()]);
        }
        if core.len() > 0 {
            assert(t[t.len() - 1 - run.len()] == core.last());
        }
        lemma_end_run_is(t, k, run.len());
        assert(t.take(t.len() - run.len()) =~= core);
    }
}

/// A text starts with what was put in front of it, and what follows is the rest.
pub proof fn prefixes_come_off(p: Seq<char>, rest: Seq<char>)
    ensures
        starts_with(p + rest, p),
        after_prefix(p + rest, p) == Some(rest),
        ends_with(rest + p, p),
{
    assert((p + rest).take(p.len() as int) =~= p);
    assert((p + rest).skip(p.len() as int) =~= rest);
    assert((rest + p).skip(rest.len() as int) =~= p);
}

/// A text that starts or ends with another, or contains it, is that other with something around it.
pub proof fn parts_are_there(s: Seq<char>, p: Seq<char>)
    ensures
        starts_with(s, p) ==> s == p + s.skip(p.len() as int),
        after_prefix(s, p) matches Some(rest) ==> s == p + rest,
        after_prefix(s, p) is None ==> forall|rest: Seq<char>| s != #[trigger] (p + rest),
        ends_with(s, p) ==> s == s.take(s.len() - p.len()) + p,
        contains(s, p) <==> exists|a: Seq<char>, b: Seq<char>| s == #[trigger] (a + p + b),
{
    if starts_with(s, p) {
        assert(s =~= s.take(p.len() as int) + s.skip(p.len() as int));
    } else {
        assert forall|rest: Seq<char>| s != #[trigger] (p + rest) by {
            if s == p + rest {
                prefixes_come_off(p, rest);
            }
        }
    }
    if ends_with(s, p) {
        assert(s =~= s.take(s.len() - p.len()) + s.skip(s.len() - p.len()));
    }
    if contains(s, p) {
        let i = choose|i: int| #[trigger] occurs_at(s, p, i);
        let (a, b) = (s.take(i), s.skip(i + p.len()));
        assert(s =~= a + s.subrange(i, i + p.len()) + b);
        assert(s == a + p + b);
    }
    if exists|a: Seq<char>, b: Seq<char>| s == #[trigger] (a + p + b) {
        let (a, b) = choose|a: Seq<char>, b: Seq<char>| s == #[trigger] (a + p + b);
        assert(s.subrange(a.len() as int, (a.len() + p.len()) as int) =~= p);
        assert(occurs_at(s, p, a.len() as int));
    }
}

/// A search finds the first place: the text stands there and nowhere between the start and there.
pub proof fn searches_find_the_first_place(s: Seq<char>, p: Seq<char>, from: int)
    requires
        0 <= from,
    ensures
        match find_from(s, p, from) {
            Some(k) => {
                &&& from <= k
                &&& k + p.len() <= s.len()
                &&& s.subrange(k, k + p.len()) == p
                &&& forall|j: int| from <= j < k ==> #[trigger] s.subrange(j, j + p.len()) != p
            },
            None => forall|j: int|
                from <= j && j + p.len() <= s.len() ==> #[trigger] s.subrange(j, j + p.len()) != p,
        },
{
    lemma_find_from(s, p, from);
    match find_from(s, p, from) {
        Some(k) => {
            assert forall|j: int| from <= j < k implies #[trigger] s.subrange(j, j + p.len()) != p by {
                assert(!occurs_at(s, p, j));
            }
        },
        None => {
            assert forall|j: int| from <= j && j + p.len() <= s.len() implies #[trigger] s.subrange(
                j,
                j + p.len(),
            ) != p by {
                assert(!occurs_at(s, p, j));
            }
        },
    }
}

/// The first characters of a text are as many as asked for, or all, and the rest makes up the text.
pub proof fn first_chars_are_a_start(s: Seq<char>, n: nat)
    ensures
        first_chars(s, n).len() == if s.len() < n {
            s.len()
        } else {
            n
        },
        s == first_chars(s, n) + s.skip(first_chars(s, n).len() as int),
{
    assert(s =~= first_chars(s, n) + s.skip(first_chars(s, n).len() as int));
}

/// Parts are joined in their order, with the separator between each two of them.
pub proof fn joining_is_piecewise(a: Seq<Seq<char>>, b: Seq<Seq<char>>, sep: Seq<char>)
    requires
        a.len() > 0,
        b.len() > 0,
    ensures
        joined(a + b, sep) == joined(a, sep) + sep + joined(b, sep),
        joined(seq![a[0]], sep) == a[0],
        joined(Seq::empty(), sep) == Seq::<char>::empty(),
    decreases b.len(),
{
    assert((a + b).drop_last() =~= a + b.drop_last());
    if b.len() == 1 {
        assert(a + b.drop_last() =~= a);
        assert((a + b).last() == b[0]);
    } else {
        joining_is_piecewise(a, b.drop_last(), sep);
        assert(joined(a + b, sep) =~= joined(a, sep) + sep + joined(b, sep));
    }
}

/// A character is replaced wherever it stands, and no other is touched.
pub proof fn replacing_is_piecewise(a: Seq<char>, x: char, b: Seq<char>, c: char, with: Seq<char>)
    ensures
        replaced(a + seq![x] + b, c, with) == replaced(a, c, with) + (if x == c {
            with
        } else {
            seq![x]
        }) + replaced(b, c, with),
        replaced(Seq::empty(), c, with) == Seq::<char>::empty(),
    decreases b.len(),
{
    let s = a + seq![x] + b;
    if b.len() == 0 {
        assert(s.drop_last() =~= a);
        assert(s.last() == x);
        assert(replaced(s, c, with) =~= replaced(a, c, with) + (if x == c {
            with
        } else {
            seq![x]
        }) + replaced(b, c, with));
    } else {
        replacing_is_piecewise(a, x, b.drop_last(), c, with);
        assert(s.drop_last() =~= a + seq![x] + b.drop_last());
        assert(s.last() == b.last());
        assert(replaced(s, c, with) =~= replaced(a, c, with) + (if x == c {
            with
        } else {
            seq![x]
        }) + replaced(b, c, with));
    }
}

/// The words of a text are what stands between its white space, in their order.
pub proof fn words_stand_between_white_space(blank: Seq<char>, word: Seq<char>, rest: Seq<char>)
    requires
        forall|i: int| 0 <= i < blank.len() ==> is_white_space(#[trigger] blank[i]),
        forall|i: int| 0 <= i < word.len() ==> !is_white_space(#[trigger] word[i]),
        word.len() > 0,
        rest.len() == 0 || is_white_space(rest[0]),
    ensures
        words(blank + word + rest) == seq![word] + words(rest),
        words(blank) == Seq::<Seq<char>>::empty(),
{
    let k = CharClass::Blank;
    let s = blank + word + rest;
    assert(s =~= blank + (word + rest));
    assert(!k.has((word + rest)[0])) by {
        assert((word + rest)[0] == word[0]);
    }
    assert forall|i: int| 0 <= i < blank.len() implies k.has(#[trigger] blank[i]) by {}
    ends_are_taken_off(word + rest, blank, k);
    let t = word + rest;
    assert forall|i: int| 0 <= i < word.len() implies k.has(#[trigger] t[i]) == false by {
        assert(t[i] == word[i]);
    }
    if rest.len() > 0 {
        assert(t[word.len() as int] == rest[0]);
    }
    lemma_run_is(t, k, false, word.len());
    assert(t.take(word.len() as int) =~= word);
    assert(t.skip(word.len() as int) =~= rest);
    ends_are_taken_off(Seq::empty(), blank, k);
    assert(blank + Seq::<char>::empty() =~= blank);
}

/// A text is cut in two at the first character of a class, which itself is dropped.
pub proof fn texts_are_cut_at_the_first(a: Seq<char>, c: char, b: Seq<char>, k: CharClass)
    requires
        forall|i: int| 0 <= i < a.len() ==> !k.has(#[trigger] a[i]),
    ensures
        k.has(c) ==> split_at_first(a + seq![c] + b, k) == Some((a, b)),
        split_at_first(a, k) is None,
{
    if k.has(c) {
        let s = a + seq![c] + b;
        assert forall|i: int| 0 <= i < a.len() implies k.has(#[trigger] s[i]) == false by {
            assert(s[i] == a[i]);
        }
        assert(s[a.len() as int] == c);
        lemma_run_is(s, k, false, a.len());
        assert(s.take(a.len() as int) =~= a);
        assert(s.skip(a.len() as int + 1) =~= b);
    }
    assert forall|i: int| 0 <= i < a.len() implies k.has(#[trigger] a[i]) == false by {}
    lemma_run_is(a, k, false, a.len());
}

/// Lower case keeps every character but the capitals of ASCII.
pub proof fn lower_case_keeps_the_rest(s: Seq<char>, i: int)
    requires
        0 <= i < s.len(),
    ensures
        ascii_lower(s).len() == s.len(),
        !('A' <= s[i] && s[i] <= 'Z') ==> ascii_lower(s)[i] == s[i],
        'A' <= s[i] && s[i] <= 'Z' ==> ascii_lower(s)[i] as u32 == s[i] as u32 + 32,
{
}

/// The classes of characters.
pub proof fn classes_have_their_characters(c: char, x: char)
    ensures
        CharClass::Blank.has(c) == is_white_space(c),
        CharClass::LineEnd.has(c) == (c == '\n' || c == '\r'),
        CharClass::Digit.has(c) == (0x30 <= c as u32 <= 0x39),
        CharClass::Just(x).has(c) == (c == x),
        is_white_space(' ') && is_white_space('\n') && is_white_space('\t') && is_white_space('\r'),
{
}

/// A number is written digit by digit, with a sign where it is below zero.
pub proof fn numbers_are_written_in_decimal(n: nat, d: nat)
    requires
        d < 10,
    ensures
        nat_text(d) == seq![seq!['0', '1', '2', '3', '4', '5', '6', '7', '8', '9'][d as int]],
        n > 0 ==> nat_text(n * 10 + d) == nat_text(n) + nat_text(d),
        int_text(n as int) == nat_text(n),
        n > 0 ==> int_text(-(n as int)) == seq!['-'] + nat_text(n),
{
    assert(nat_text(d) =~= seq![seq!['0', '1', '2', '3', '4', '5', '6', '7', '8', '9'][d as int]]);
    if n > 0 {
        let m = n * 10 + d;
        assert(m / 10 == n && m % 10 == d);
        assert(nat_text(m) =~= nat_text(n) + nat_text(d));
    }
}

/// A number is read back from its digits, with either sign or none; a text with anything else in it is
/// no number, and neither is one that is too large.
pub proof fn numbers_are_read(digits: Seq<char>, n: nat, other: Seq<char>, k: int)
    requires
        digits == nat_text(n),
        0 <= k < other.len(),
        !(0x30 <= other[k] as u32 <= 0x39),
        k > 0 || (other[0] != '+' && other[0] != '-') || other.len() == 1,
    ensures
        n <= i64::MAX ==> i64_of(digits) == Some(n as i64) && i64_of(seq!['+'] + digits) == Some(n as i64),
        n <= i64::MAX ==> i64_of(seq!['-'] + digits) == Some((-(n as int)) as i64),
        n > i64::MAX ==> i64_of(digits) is None,
        i64_of(other) is None,
        i64_of(Seq::empty()) is None,
{
    lemma_nat_text(n);
    assert((seq!['+'] + digits).drop_first() =~= digits);
    assert((seq!['-'] + digits).drop_first() =~= digits);
    assert(is_digit(digits[0]));
    assert(!is_digit(other[k]));
    if other[0] == '+' || other[0] == '-' {
        if k > 0 {
            assert(other.drop_first()[k - 1] == other[k]);
        } else {
            assert(other.drop_first().len() == 0);
        }
    }
}

/// Texts are ordered by the first character in which they differ; a start of a text stands before it.
pub proof fn texts_are_ordered_by_the_first_difference(p: Seq<char>, x: char, a: Seq<char>, y: char, b: Seq<char>)
    requires
        x != y,
    ensures
        precedes(p + seq![x] + a, p + seq![y] + b) == (x < y),
        precedes(p, p + seq![x] + a),
        !precedes(p + seq![x] + a, p),
        !precedes(p, p),
    decreases p.len(),
{
    let (s, t) = (p + seq![x] + a, p + seq![y] + b);
    if p.len() == 0 {
        assert(s[0] == x && t[0] == y);
    } else {
        let q = p.drop_first();
        texts_are_ordered_by_the_first_difference(q, x, a, y, b);
        assert(s.drop_first() =~= q + seq![x] + a);
        assert(t.drop_first() =~= q + seq![y] + b);
        assert(s[0] == p[0] && t[0] == p[0]);
    }
    lemma_precedes_not_self(p);
}

/// In an ordered list each text stands before those behind it, and none is there twice.
pub proof fn ordered_lists_are_in_order(v: Seq<Seq<char>>, i: int, j: int)
    requires
        ascending(v),
        0 <= i < j < v.len(),
    ensures
        precedes(v[i], v[j]),
        v[i] != v[j],
{
    lemma_precedes_not_self(v[i]);
}

/// A text is cut behind each line end, and nothing of it is lost.
pub proof fn lines_are_cut_behind_their_end(line: Seq<char>, rest: Seq<char>)
    requires
        forall|i: int| 0 <= i < line.len() ==> #[trigger] line[i] != '\n',
    ensures
        line_pieces(line + seq!['\n'] + rest) == seq![line + seq!['\n']] + line_pieces(rest),
        line.len() > 0 ==> line_pieces(line) == seq![line],
        line_pieces(Seq::empty()) == Seq::<Seq<char>>::empty(),
{
    let k = CharClass::Just('\n');
    let s = line + seq!['\n'] + rest;
    assert forall|i: int| 0 <= i < line.len() implies k.has(#[trigger] s[i]) == false by {
        assert(s[i] == line[i]);
    }
    assert(s[line.len() as int] == '\n');
    lemma_run_is(s, k, false, line.len());
    assert(s.take(line.len() as int + 1) =~= line + seq!['\n']);
    assert(s.skip(line.len() as int + 1) =~= rest);
    if line.len() > 0 {
        assert forall|i: int| 0 <= i < line.len() implies k.has(#[trigger] line[i]) == false by {}
        lemma_run_is(line, k, false, line.len());
    }
}

} // verus!
