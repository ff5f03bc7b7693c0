//! Strings as sequences of characters: trimming, searching, splitting, joining, numbers.
use vstd::prelude::*;

verus! {

// ---------- characters ----------

/// The characters with the Unicode property White_Space.
pub open spec fn is_white_space(c: char) -> bool {
    let u = c as u32;
    ||| 0x9 <= u <= 0xd
    ||| u == 0x20
    ||| u == 0x85
    ||| u == 0xa0
    ||| u == 0x1680
    ||| 0x2000 <= u <= 0x200a
    ||| u == 0x2028
    ||| u == 0x2029
    ||| u == 0x202f
    ||| u == 0x205f
    ||| u == 0x3000
}

/// The control characters, Unicode's general category Cc.
pub open spec fn is_control_char(c: char) -> bool {
    let u = c as u32;
    u <= 0x1f || 0x7f <= u <= 0x9f
}

pub open spec fn is_ascii_letter(c: char) -> bool {
    ('a' <= c && c <= 'z') || ('A' <= c && c <= 'Z')
}

pub open spec fn is_digit(c: char) -> bool {
    '0' <= c && c <= '9'
}

/// Whether the standard library counts a character as a letter or a number.
pub uninterp spec fn is_letter_or_number(c: char) -> bool;

/// `char::is_whitespace` tells the property White_Space.
pub assume_specification[ char::is_whitespace ](c: char) -> (r: bool)
    ensures
        r == is_white_space(c),
;

/// `char::is_control` tells the general category Cc.
pub assume_specification[ char::is_control ](c: char) -> (r: bool)
    ensures
        r == is_control_char(c),
;

/// `char::is_alphanumeric` rests on Unicode's tables; within ASCII it holds of the letters and
/// the digits and of nothing else.
pub assume_specification[ char::is_alphanumeric ](c: char) -> (r: bool)
    ensures
        r == is_letter_or_number(c),
        (c as u32) < 0x80 ==> (r <==> is_ascii_letter(c) || is_digit(c)),
;

/// Whether a character may be part of a word: a letter or a number.
pub open spec fn is_word_char(c: char) -> bool {
    if (c as u32) < 0x80 {
        is_ascii_letter(c) || is_digit(c)
    } else {
        is_letter_or_number(c)
    }
}

/// `String::push` appends one character.
pub assume_specification[ String::push ](s: &mut String, c: char)
    ensures
        final(s)@ == old(s)@.push(c),
;

/// A class of characters to trim by or to split at.
#[derive(Clone, Copy)]
pub enum CharClass {
    /// White space.
    Blank,
    /// Carriage return and line feed.
    LineEnd,
    /// The digits 0 to 9.
    Digit,
    /// One character.
    Just(char),
}

impl CharClass {
    pub open spec fn has(self, c: char) -> bool {
        match self {
            CharClass::Blank => is_white_space(c),
            CharClass::LineEnd => c == '\n' || c == '\r',
            CharClass::Digit => is_digit(c),
            CharClass::Just(x) => c == x,
        }
    }

    pub fn test(self, c: char) -> (r: bool)
        ensures
            r == self.has(c),
    {
        match self {
            CharClass::Blank => c.is_whitespace(),
            CharClass::LineEnd => c == '\n' || c == '\r',
            CharClass::Digit => '0' <= c && c <= '9',
            CharClass::Just(x) => c == x,
        }
    }
}

// ---------- strings and their characters ----------

/// What a list of strings holds.
pub open spec fn views(v: Seq<String>) -> Seq<Seq<char>> {
    v.map_values(|s: String| s@)
}

pub open spec fn opt_view(s: Option<String>) -> Option<Seq<char>> {
    match s {
        Some(t) => Some(t@),
        None => None,
    }
}

pub fn chars_of(s: &str) -> (v: Vec<char>)
    ensures
        v@ == s@,
{
    let mut v: Vec<char> = Vec::new();
    for c in it: s.chars()
        invariant
            v@ == it.seq().take(it.index() as int),
            it.seq() == s@,
    {
        v.push(c);
    }
    v
}

/// The string of the characters from `from` up to `to`.
pub fn string_of(v: &Vec<char>, from: usize, to: usize) -> (s: String)
    requires
        from <= to <= v@.len(),
    ensures
        s@ == v@.subrange(from as int, to as int),
{
    let mut s = String::new();
    let mut i: usize = from;
    while i < to
        invariant
            from <= i <= to <= v@.len(),
            s@ == v@.subrange(from as int, i as int),
        decreases to - i,
    {
        s.push(v[i]);
        i += 1;
    }
    s
}

/// How many bytes a text has.
pub open spec fn byte_count(s: Seq<char>) -> nat {
    vstd::utf8::encode_utf8(s).len()
}

pub fn byte_len(s: &str) -> (r: usize)
    ensures
        r == byte_count(s@),
{
    s.as_bytes().len()
}

pub fn same(a: &str, b: &str) -> (r: bool)
    ensures
        r == (a@ == b@),
{
    a.to_owned() == b.to_owned()
}

pub fn copy_strings(v: &Vec<String>) -> (r: Vec<String>)
    ensures
        views(r@) == views(v@),
{
    let mut r: Vec<String> = Vec::new();
    let mut i: usize = 0;
    while i < v.len()
        invariant
            i <= v@.len(),
            views(r@) == views(v@).take(i as int),
        decreases v@.len() - i,
    {
        let ghost before = r@;
        r.push(v[i].clone());
        assert(views(r@) =~= views(before).push(v@[i as int]@));
        i += 1;
    }
    assert(views(v@).take(v@.len() as int) =~= views(v@));
    r
}

// ---------- runs at the ends ----------

/// How many of the first characters are in the class, or, with `inside` false, outside of it.
pub open spec fn run_len(s: Seq<char>, k: CharClass, inside: bool) -> nat
    decreases s.len(),
{
    if s.len() > 0 && k.has(s[0]) == inside {
        1 + run_len(s.drop_first(), k, inside)
    } else {
        0
    }
}

/// How many of the last characters are in the class.
pub open spec fn end_run_len(s: Seq<char>, k: CharClass) -> nat
    decreases s.len(),
{
    if s.len() > 0 && k.has(s.last()) {
        1 + end_run_len(s.drop_last(), k)
    } else {
        0
    }
}

pub open spec fn trim_start_by(s: Seq<char>, k: CharClass) -> Seq<char> {
    s.skip(run_len(s, k, true) as int)
}

pub open spec fn trim_end_by(s: Seq<char>, k: CharClass) -> Seq<char> {
    s.take(s.len() - end_run_len(s, k))
}

/// The string without white space at either end.
pub open spec fn trimmed(s: Seq<char>) -> Seq<char> {
    trim_end_by(trim_start_by(s, CharClass::Blank), CharClass::Blank)
}

pub proof fn lemma_run_len(s: Seq<char>, k: CharClass, inside: bool)
    ensures
        run_len(s, k, inside) <= s.len(),
        forall|i: int| 0 <= i < run_len(s, k, inside) ==> k.has(#[trigger] s[i]) == inside,
        run_len(s, k, inside) < s.len() ==> k.has(s[run_len(s, k, inside) as int]) != inside,
    decreases s.len(),
{
    if s.len() > 0 && k.has(s[0]) == inside {
        let rest = s.drop_first();
        lemma_run_len(rest, k, inside);
        assert forall|i: int| 0 <= i < run_len(s, k, inside) implies k.has(#[trigger] s[i]) == inside by {
            if i > 0 {
                assert(rest[i - 1] == s[i]);
            }
        }
        if run_len(s, k, inside) < s.len() {
            assert(rest[run_len(rest, k, inside) as int] == s[run_len(s, k, inside) as int]);
        }
    }
}

/// A run of that length is the run.
pub proof fn lemma_run_is(s: Seq<char>, k: CharClass, inside: bool, n: nat)
    requires
        n <= s.len(),
        forall|i: int| 0 <= i < n ==> k.has(#[trigger] s[i]) == inside,
        n < s.len() ==> k.has(s[n as int]) != inside,
    ensures
        run_len(s, k, inside) == n,
{
    lemma_run_len(s, k, inside);
    let m = run_len(s, k, inside);
    if m < n {
        assert(k.has(s[m as int]) == inside);
    }
    if n < m {
        assert(k.has(s[n as int]) == inside);
    }
}

pub proof fn lemma_end_run_len(s: Seq<char>, k: CharClass)
    ensures
        end_run_len(s, k) <= s.len(),
        forall|i: int| s.len() - end_run_len(s, k) <= i < s.len() ==> k.has(#[trigger] s[i]),
        end_run_len(s, k) < s.len() ==> !k.has(s[s.len() - 1 - end_run_len(s, k)]),
    decreases s.len(),
{
    if s.len() > 0 && k.has(s.last()) {
        let front = s.drop_last();
        lemma_end_run_len(front, k);
        assert forall|i: int| s.len() - end_run_len(s, k) <= i < s.len() implies k.has(#[trigger] s[i]) by {
            if i < front.len() {
                assert(front[i] == s[i]);
            }
        }
    }
}

pub proof fn lemma_end_run_is(s: Seq<char>, k: CharClass, n: nat)
    requires
        n <= s.len(),
        forall|i: int| s.len() - n <= i < s.len() ==> k.has(#[trigger] s[i]),
        n < s.len() ==> !k.has(s[s.len() - 1 - n]),
    ensures
        end_run_len(s, k) == n,
{
    lemma_end_run_len(s, k);
    let m = end_run_len(s, k);
    if m < n {
        assert(k.has(s[s.len() - 1 - m]));
    }
    if n < m {
        assert(k.has(s[s.len() - 1 - n]));
    }
}

/// Where the run that starts at `from` ends.
pub fn run_end(v: &Vec<char>, from: usize, k: CharClass, inside: bool) -> (to: usize)
    requires
        from <= v@.len(),
    ensures
        from <= to <= v@.len(),
        to - from == run_len(v@.skip(from as int), k, inside),
        forall|i: int| from <= i < to ==> k.has(#[trigger] v@[i]) == inside,
        to < v@.len() ==> k.has(v@[to as int]) != inside,
{
    let mut i: usize = from;
    while i < v.len() && k.test(v[i]) == inside
        invariant
            from <= i <= v@.len(),
            forall|j: int| from <= j < i ==> k.has(#[trigger] v@[j]) == inside,
        decreases v@.len() - i,
    {
        i += 1;
    }
    proof {
        let rest = v@.skip(from as int);
        assert forall|j: int| 0 <= j < i - from implies k.has(#[trigger] rest[j]) == inside by {
            assert(rest[j] == v@[j + from]);
        }
        lemma_run_is(rest, k, inside, (i - from) as nat);
    }
    i
}

/// Where the run of the class that ends at `to`, but does not reach before `from`, starts.
pub fn run_start(v: &Vec<char>, from: usize, to: usize, k: CharClass) -> (at: usize)
    requires
        from <= to <= v@.len(),
    ensures
        from <= at <= to,
        v@.subrange(from as int, at as int) == trim_end_by(v@.subrange(from as int, to as int), k),
{
    let mut i: usize = to;
    while i > from && k.test(v[i - 1])
        invariant
            from <= i <= to <= v@.len(),
            forall|j: int| i <= j < to ==> k.has(#[trigger] v@[j]),
        decreases i,
    {
        i -= 1;
    }
    proof {
        let part = v@.subrange(from as int, to as int);
        let n = (to - i) as nat;
        assert forall|j: int| part.len() - n <= j < part.len() implies k.has(#[trigger] part[j]) by {
            assert(part[j] == v@[j + from]);
        }
        lemma_end_run_is(part, k, n);
        assert(v@.subrange(from as int, i as int) =~= part.take(part.len() - n));
    }
    i
}

pub fn trim_start_matches(s: &str, k: CharClass) -> (r: String)
    ensures
        r@ == trim_start_by(s@, k),
{
    let v = chars_of(s);
    assert(v@.skip(0) =~= v@);
    let from = run_end(&v, 0, k, true);
    assert(v@.subrange(from as int, v@.len() as int) =~= v@.skip(from as int));
    string_of(&v, from, v.len())
}

pub fn trim_end_matches(s: &str, k: CharClass) -> (r: String)
    ensures
        r@ == trim_end_by(s@, k),
{
    let v = chars_of(s);
    assert(v@.subrange(0, v@.len() as int) =~= v@);
    let to = run_start(&v, 0, v.len(), k);
    string_of(&v, 0, to)
}

pub fn trim(s: &str) -> (r: String)
    ensures
        r@ == trimmed(s@),
{
    let v = chars_of(s);
    assert(v@.skip(0) =~= v@);
    let from = run_end(&v, 0, CharClass::Blank, true);
    assert(v@.subrange(from as int, v@.len() as int) =~= v@.skip(from as int));
    let to = run_start(&v, from, v.len(), CharClass::Blank);
    string_of(&v, from, to)
}

// ---------- prefixes, suffixes, search ----------

pub open spec fn starts_with(s: Seq<char>, p: Seq<char>) -> bool {
    p.len() <= s.len() && s.take(p.len() as int) == p
}

pub open spec fn ends_with(s: Seq<char>, p: Seq<char>) -> bool {
    p.len() <= s.len() && s.skip(s.len() - p.len()) == p
}

/// What follows the prefix, where there is that prefix.
pub open spec fn after_prefix(s: Seq<char>, p: Seq<char>) -> Option<Seq<char>> {
    if starts_with(s, p) {
        Some(s.skip(p.len() as int))
    } else {
        None
    }
}

pub open spec fn occurs_at(s: Seq<char>, p: Seq<char>, i: int) -> bool {
    0 <= i && i + p.len() <= s.len() && s.subrange(i, i + p.len()) == p
}

pub open spec fn contains(s: Seq<char>, p: Seq<char>) -> bool {
    exists|i: int| #[trigger] occurs_at(s, p, i)
}

/// The first position at or after `i` at which `p` occurs.
pub open spec fn find_from(s: Seq<char>, p: Seq<char>, i: int) -> Option<int>
    decreases s.len() + 1 - i,
{
    if i < 0 || i + p.len() > s.len() {
        None
    } else if occurs_at(s, p, i) {
        Some(i)
    } else {
        find_from(s, p, i + 1)
    }
}

pub open spec fn find(s: Seq<char>, p: Seq<char>) -> Option<int> {
    find_from(s, p, 0)
}

pub proof fn lemma_find_from(s: Seq<char>, p: Seq<char>, i: int)
    requires
        0 <= i,
    ensures
        match find_from(s, p, i) {
            Some(k) => i <= k && occurs_at(s, p, k) && forall|j: int|
                i <= j < k ==> !#[trigger] occurs_at(s, p, j),
            None => forall|j: int| i <= j ==> !#[trigger] occurs_at(s, p, j),
        },
    decreases s.len() + 1 - i,
{
    if i + p.len() <= s.len() && !occurs_at(s, p, i) {
        lemma_find_from(s, p, i + 1);
    }
}

fn match_at(v: &Vec<char>, p: &Vec<char>, i: usize) -> (r: bool)
    requires
        i + p@.len() <= v@.len(),
    ensures
        r == occurs_at(v@, p@, i as int),
{
    let n: usize = v.len();
    let mut k: usize = 0;
    while k < p.len()
        invariant
            k <= p@.len(),
            i + p@.len() <= v@.len(),
            n == v@.len(),
            forall|j: int| 0 <= j < k ==> v@[i + j] == #[trigger] p@[j],
        decreases p@.len() - k,
    {
        if v[i + k] != p[k] {
            assert(v@.subrange(i as int, i + p@.len())[k as int] != p@[k as int]);
            return false;
        }
        k += 1;
    }
    assert(v@.subrange(i as int, i + p@.len()) =~= p@);
    true
}

/// [`find_from`] on characters.
pub fn find_chars(v: &Vec<char>, p: &Vec<char>, from: usize) -> (r: Option<usize>)
    ensures
        match r {
            Some(k) => find_from(v@, p@, from as int) == Some(k as int) && k + p@.len() <= v@.len(),
            None => find_from(v@, p@, from as int) is None,
        },
{
    let mut i: usize = from;
    while p.len() <= v.len() && i <= v.len() - p.len()
        invariant
            find_from(v@, p@, from as int) == find_from(v@, p@, i as int),
        decreases v@.len() + 1 - i,
    {
        if match_at(v, p, i) {
            return Some(i);
        }
        if i == v.len() - p.len() {
            assert(find_from(v@, p@, i + 1) is None);
            return None;
        }
        i += 1;
    }
    None
}

pub fn has_prefix(s: &str, p: &str) -> (r: bool)
    ensures
        r == starts_with(s@, p@),
{
    let v = chars_of(s);
    let q = chars_of(p);
    assert(q@.len() <= v@.len() ==> v@.subrange(0, q@.len() as int) =~= v@.take(q@.len() as int));
    q.len() <= v.len() && match_at(&v, &q, 0)
}

pub fn has_suffix(s: &str, p: &str) -> (r: bool)
    ensures
        r == ends_with(s@, p@),
{
    let v = chars_of(s);
    let q = chars_of(p);
    if q.len() > v.len() {
        return false;
    }
    let at: usize = v.len() - q.len();
    assert(v@.subrange(at as int, at + q@.len()) =~= v@.skip(v@.len() - q@.len()));
    match_at(&v, &q, at)
}

pub fn strip_prefix(s: &str, p: &str) -> (r: Option<String>)
    ensures
        match r {
            Some(t) => after_prefix(s@, p@) == Some(t@),
            None => after_prefix(s@, p@) is None,
        },
{
    if !has_prefix(s, p) {
        return None;
    }
    let v = chars_of(s);
    let q = chars_of(p);
    assert(v@.subrange(q@.len() as int, v@.len() as int) =~= v@.skip(q@.len() as int));
    Some(string_of(&v, q.len(), v.len()))
}

pub fn has_part(s: &str, p: &str) -> (r: bool)
    ensures
        r == contains(s@, p@),
{
    let v = chars_of(s);
    let q = chars_of(p);
    proof {
        lemma_find_from(v@, q@, 0);
    }
    match find_chars(&v, &q, 0) {
        Some(k) => {
            assert(occurs_at(s@, p@, k as int));
            true
        },
        None => {
            assert forall|i: int| !#[trigger] occurs_at(s@, p@, i) by {
                if i < 0 {
                }
            }
            false
        },
    }
}

// ---------- parts ----------

/// The first `n` characters, or all where there are fewer.
pub open spec fn first_chars(s: Seq<char>, n: nat) -> Seq<char> {
    if s.len() <= n {
        s
    } else {
        s.take(n as int)
    }
}

pub fn take_chars(s: &str, n: usize) -> (r: String)
    ensures
        r@ == first_chars(s@, n as nat),
{
    let v = chars_of(s);
    if v.len() <= n {
        assert(v@.subrange(0, v@.len() as int) =~= v@);
        string_of(&v, 0, v.len())
    } else {
        string_of(&v, 0, n)
    }
}

/// The parts in turn with `sep` between them.
pub open spec fn joined(parts: Seq<Seq<char>>, sep: Seq<char>) -> Seq<char>
    decreases parts.len(),
{
    if parts.len() == 0 {
        Seq::empty()
    } else if parts.len() == 1 {
        parts[0]
    } else {
        joined(parts.drop_last(), sep) + sep + parts.last()
    }
}

pub fn join(parts: &Vec<String>, sep: &str) -> (r: String)
    ensures
        r@ == joined(views(parts@), sep@),
{
    let mut r = String::new();
    let ghost all = views(parts@);
    let mut i: usize = 0;
    while i < parts.len()
        invariant
            i <= parts@.len(),
            all == views(parts@),
            r@ == joined(all.take(i as int), sep@),
        decreases parts@.len() - i,
    {
        if i > 0 {
            r.append(sep);
        }
        r.append(parts[i].as_str());
        assert(all.take(i + 1).drop_last() =~= all.take(i as int));
        assert(i > 0 ==> r@ == joined(all.take(i as int), sep@) + sep@ + all[i as int]);
        assert(i == 0 ==> r@ =~= all[0]);
        i += 1;
    }
    assert(all.take(all.len() as int) =~= all);
    r
}

/// The pieces of a text, each reaching to the end of its line.
pub open spec fn line_pieces(s: Seq<char>) -> Seq<Seq<char>>
    decreases s.len(),
{
    if s.len() == 0 {
        Seq::empty()
    } else {
        let n = run_len(s, CharClass::Just('\n'), false) as int;
        if n >= s.len() {
            seq![s]
        } else {
            seq![s.take(n + 1)] + line_pieces(s.skip(n + 1))
        }
    }
}

pub fn split_lines(s: &str) -> (r: Vec<String>)
    ensures
        views(r@) == line_pieces(s@),
{
    let v = chars_of(s);
    let mut r: Vec<String> = Vec::new();
    let mut from: usize = 0;
    assert(v@.skip(0) =~= v@);
    assert(views(r@) + line_pieces(v@) =~= line_pieces(v@));
    while from < v.len()
        invariant
            from <= v@.len(),
            views(r@) + line_pieces(v@.skip(from as int)) == line_pieces(v@),
        decreases v@.len() - from,
    {
        let ghost rest = v@.skip(from as int);
        let end = run_end(&v, from, CharClass::Just('\n'), false);
        let to: usize = if end < v.len() {
            end + 1
        } else {
            end
        };
        let ghost before = views(r@);
        let piece = string_of(&v, from, to);
        proof {
            assert(piece@ =~= rest.take(to - from));
            assert(v@.skip(to as int) =~= rest.skip(to - from));
            if end == v@.len() {
                assert(piece@ =~= rest);
                assert(line_pieces(v@.skip(to as int)) =~= Seq::empty());
            }
        }
        r.push(piece);
        assert(views(r@) =~= before.push(piece@));
        assert(views(r@) + line_pieces(v@.skip(to as int)) =~= before + line_pieces(rest));
        from = to;
    }
    assert(line_pieces(v@.skip(from as int)) =~= Seq::empty());
    assert(views(r@) + line_pieces(v@.skip(from as int)) =~= views(r@));
    r
}

/// A piece is a part of a line, and ends the line only at its own end.
pub open spec fn is_piece(p: Seq<char>) -> bool {
    p.len() > 0 && forall|j: int| 0 <= j < p.len() - 1 ==> #[trigger] p[j] != '\n'
}

/// Behind the end of a line, a text is cut as it is by itself.
pub proof fn lemma_pieces_add(a: Seq<char>, b: Seq<char>)
    requires
        a.len() > 0,
        a.last() == '\n',
    ensures
        line_pieces(a + b) == line_pieces(a) + line_pieces(b),
    decreases a.len(),
{
    let n = run_len(a, CharClass::Just('\n'), false);
    lemma_run_len(a, CharClass::Just('\n'), false);
    assert(n < a.len()) by {
        if n == a.len() {
            assert(a[a.len() - 1] != '\n');
        }
    }
    let s = a + b;
    assert forall|i: int| 0 <= i < n implies CharClass::Just('\n').has(#[trigger] s[i]) == false by {
        assert(s[i] == a[i]);
    }
    assert(s[n as int] == a[n as int]);
    lemma_run_is(s, CharClass::Just('\n'), false, n);
    let m = n + 1;
    let rest = a.skip(m as int);
    assert(s.take(m as int) =~= a.take(m as int));
    assert(s.skip(m as int) =~= rest + b);
    if rest.len() > 0 {
        assert(rest.last() == a.last());
        lemma_pieces_add(rest, b);
        assert(line_pieces(s) =~= line_pieces(a) + line_pieces(b));
    } else {
        assert(rest + b =~= b);
        assert(line_pieces(rest) =~= Seq::empty());
        assert(line_pieces(s) =~= line_pieces(a) + line_pieces(b));
    }
}

/// A piece is not cut.
pub proof fn lemma_one_piece(p: Seq<char>)
    requires
        is_piece(p),
    ensures
        line_pieces(p) == seq![p],
{
    let n = run_len(p, CharClass::Just('\n'), false);
    lemma_run_len(p, CharClass::Just('\n'), false);
    if n < p.len() {
        assert(n == p.len() - 1) by {
            if n < p.len() - 1 {
                assert(p[n as int] != '\n');
            }
        }
        assert(p.take(n as int + 1) =~= p);
        assert(p.skip(n as int + 1) =~= Seq::empty());
        assert(line_pieces(p.skip(n as int + 1)) =~= Seq::empty());
        assert(line_pieces(p) =~= seq![p.take(n as int + 1)] + line_pieces(p.skip(n as int + 1)));
        assert(line_pieces(p) =~= seq![p]);
    }
}

/// The longest pieces of a text that hold no white space.
pub open spec fn words(s: Seq<char>) -> Seq<Seq<char>>
    decreases s.len(),
{
    let t = trim_start_by(s, CharClass::Blank);
    if t.len() == 0 {
        Seq::empty()
    } else {
        proof {
            lemma_run_len(s, CharClass::Blank, true);
            lemma_run_len(t, CharClass::Blank, false);
        }
        let n = run_len(t, CharClass::Blank, false);
        seq![t.take(n as int)] + words(t.skip(n as int))
    }
}

pub fn split_words(s: &str) -> (r: Vec<String>)
    ensures
        views(r@) == words(s@),
{
    let v = chars_of(s);
    let mut r: Vec<String> = Vec::new();
    let mut from: usize = 0;
    assert(v@.skip(0) =~= v@);
    assert(views(r@) + words(v@) =~= words(v@));
    loop
        invariant
            from <= v@.len(),
            views(r@) + words(v@.skip(from as int)) == words(v@),
        ensures
            views(r@) == words(v@),
        decreases v@.len() - from,
    {
        let ghost rest = v@.skip(from as int);
        let start = run_end(&v, from, CharClass::Blank, true);
        let ghost t = trim_start_by(rest, CharClass::Blank);
        assert(t =~= v@.skip(start as int));
        if start == v.len() {
            assert(words(rest) =~= Seq::empty());
            assert(views(r@) + words(rest) =~= views(r@));
            break ;
        }
        let end = run_end(&v, start, CharClass::Blank, false);
        let ghost before = views(r@);
        let word = string_of(&v, start, end);
        r.push(word);
        proof {
            assert(word@ =~= t.take(end - start));
            assert(v@.skip(end as int) =~= t.skip(end - start));
            assert(views(r@) =~= before.push(word@));
            lemma_run_len(t, CharClass::Blank, false);
            assert(end > start);
            assert(words(rest) == seq![word@] + words(v@.skip(end as int)));
            assert(views(r@) + words(v@.skip(end as int)) =~= before + words(rest));
        }
        from = end;
    }
    r
}

/// What stands before and after the first character of the class.
pub open spec fn split_at_first(s: Seq<char>, k: CharClass) -> Option<(Seq<char>, Seq<char>)> {
    let n = run_len(s, k, false) as int;
    if n >= s.len() {
        None
    } else {
        Some((s.take(n), s.skip(n + 1)))
    }
}

pub fn split_once(s: &str, k: CharClass) -> (r: Option<(String, String)>)
    ensures
        match r {
            Some((a, b)) => split_at_first(s@, k) == Some((a@, b@)),
            None => split_at_first(s@, k) is None,
        },
{
    let v = chars_of(s);
    assert(v@.skip(0) =~= v@);
    let n = run_end(&v, 0, k, false);
    if n == v.len() {
        None
    } else {
        assert(v@.subrange(0, n as int) =~= v@.take(n as int));
        assert(v@.subrange(n + 1, v@.len() as int) =~= v@.skip(n + 1));
        Some((string_of(&v, 0, n), string_of(&v, n + 1, v.len())))
    }
}

// ---------- one character for another ----------

pub open spec fn lower_char(c: char) -> char {
    if 'A' <= c && c <= 'Z' {
        (c as u32 + 32) as char
    } else {
        c
    }
}

/// The text with the letters A to Z in lower case.
pub open spec fn ascii_lower(s: Seq<char>) -> Seq<char> {
    s.map_values(|c: char| lower_char(c))
}

pub fn to_lower(s: &str) -> (r: String)
    ensures
        r@ == ascii_lower(s@),
{
    let v = chars_of(s);
    let mut r = String::new();
    let mut i: usize = 0;
    while i < v.len()
        invariant
            i <= v@.len(),
            r@ == ascii_lower(v@).take(i as int),
        decreases v@.len() - i,
    {
        let c = v[i];
        if 'A' <= c && c <= 'Z' {
            r.push(((c as u8) + 32) as char);
        } else {
            r.push(c);
        }
        i += 1;
    }
    assert(ascii_lower(v@).take(v@.len() as int) =~= ascii_lower(v@));
    r
}

/// The text with every `c` replaced by `with`.
pub open spec fn replaced(s: Seq<char>, c: char, with: Seq<char>) -> Seq<char>
    decreases s.len(),
{
    if s.len() == 0 {
        Seq::empty()
    } else {
        replaced(s.drop_last(), c, with) + if s.last() == c {
            with
        } else {
            seq![s.last()]
        }
    }
}

pub fn replace_char(s: &str, c: char, with: &str) -> (r: String)
    ensures
        r@ == replaced(s@, c, with@),
{
    let v = chars_of(s);
    let mut r = String::new();
    let mut i: usize = 0;
    while i < v.len()
        invariant
            i <= v@.len(),
            r@ == replaced(v@.take(i as int), c, with@),
        decreases v@.len() - i,
    {
        assert(v@.take(i + 1).drop_last() =~= v@.take(i as int));
        let ghost before = r@;
        if v[i] == c {
            r.append(with);
        } else {
            r.push(v[i]);
            assert(r@ =~= before + seq![v@[i as int]]);
        }
        i += 1;
    }
    assert(v@.take(v@.len() as int) =~= v@);
    r
}

pub proof fn lemma_not_replaced(s: Seq<char>, c: char, with: Seq<char>)
    requires
        !s.contains(c),
    ensures
        replaced(s, c, with) == s,
    decreases s.len(),
{
    if s.len() > 0 {
        assert(s[s.len() - 1] != c);
        assert forall|i: int| 0 <= i < s.drop_last().len() implies s.drop_last()[i] != c by {
            assert(s[i] != c);
        }
        lemma_not_replaced(s.drop_last(), c, with);
        assert(s.drop_last() + seq![s.last()] =~= s);
    }
}

// ---------- numbers ----------

pub open spec fn digit_char(d: int) -> char {
    (48 + d) as char
}

/// A natural number in decimal.
pub open spec fn nat_text(n: nat) -> Seq<char>
    decreases n,
{
    if n < 10 {
        seq![digit_char(n as int)]
    } else {
        nat_text(n / 10).push(digit_char(n as int % 10))
    }
}

/// An integer in decimal, with a sign where it is below zero.
pub open spec fn int_text(i: int) -> Seq<char> {
    if i < 0 {
        seq!['-'] + nat_text((-i) as nat)
    } else {
        nat_text(i as nat)
    }
}

/// The value of a run of digits.
pub open spec fn digits_value(s: Seq<char>) -> nat
    decreases s.len(),
{
    if s.len() == 0 {
        0
    } else {
        digits_value(s.drop_last()) * 10 + (s.last() as u32 - 48) as nat
    }
}

pub open spec fn all_digits(s: Seq<char>) -> bool {
    forall|i: int| 0 <= i < s.len() ==> is_digit(#[trigger] s[i])
}

/// The integer that a text writes: digits, at least one, after at most one sign.
pub open spec fn int_of(s: Seq<char>) -> Option<int> {
    let signed = s.len() > 0 && (s[0] == '+' || s[0] == '-');
    let digits = if signed {
        s.drop_first()
    } else {
        s
    };
    if digits.len() == 0 || !all_digits(digits) {
        None
    } else if signed && s[0] == '-' {
        Some(-(digits_value(digits) as int))
    } else {
        Some(digits_value(digits) as int)
    }
}

/// The integer that a text writes, where it is of the range of `i64`.
pub open spec fn i64_of(s: Seq<char>) -> Option<i64> {
    match int_of(s) {
        Some(i) => if i64::MIN <= i <= i64::MAX {
            Some(i as i64)
        } else {
            None
        },
        None => None,
    }
}

fn digit(d: u64) -> (c: char)
    requires
        d < 10,
    ensures
        c == digit_char(d as int),
{
    (48u8 + (d as u8)) as char
}

pub fn u64_text(n: u64) -> (r: String)
    ensures
        r@ == nat_text(n as nat),
    decreases n,
{
    if n < 10 {
        let mut r = String::new();
        r.push(digit(n));
        assert(r@ =~= seq![digit_char(n as int)]);
        r
    } else {
        let mut r = u64_text(n / 10);
        r.push(digit(n % 10));
        r
    }
}

pub fn i64_text(i: i64) -> (r: String)
    ensures
        r@ == int_text(i as int),
{
    if i < 0 {
        let mut r = String::new();
        r.push('-');
        assert(r@ =~= seq!['-']);
        let size: u64 = (-(i + 1)) as u64 + 1;
        r.append(u64_text(size).as_str());
        r
    } else {
        u64_text(i as u64)
    }
}

pub fn parse_i64(s: &str) -> (r: Option<i64>)
    ensures
        r == i64_of(s@),
{
    let v = chars_of(s);
    let signed = v.len() > 0 && (v[0] == '+' || v[0] == '-');
    let from: usize = if signed {
        1
    } else {
        0
    };
    let ghost digits = v@.skip(from as int);
    assert(digits =~= if signed {
        v@.drop_first()
    } else {
        v@
    });
    if from == v.len() {
        return None;
    }
    let mut value: u64 = 0;
    let mut huge: bool = false;
    let mut i: usize = from;
    while i < v.len()
        invariant
            from <= i <= v@.len(),
            v@ == s@,
            digits == v@.skip(from as int),
            signed == (v@.len() > 0 && (v@[0] == '+' || v@[0] == '-')),
            digits == if signed {
                v@.drop_first()
            } else {
                v@
            },
            forall|j: int| 0 <= j < i - from ==> is_digit(#[trigger] digits[j]),
            huge ==> digits_value(digits.take(i - from)) > 0x8000_0000_0000_0000,
            !huge ==> digits_value(digits.take(i - from)) == value,
            value <= 0x8000_0000_0000_0000,
        decreases v@.len() - i,
    {
        let c = v[i];
        assert(digits[i - from] == c);
        if !('0' <= c && c <= '9') {
            assert(!is_digit(digits[i - from]));
            return None;
        }
        proof {
            let k = i - from;
            assert(digits.take(k + 1).drop_last() =~= digits.take(k));
            assert(digits.take(k + 1).last() == c);
        }
        let d: u64 = ((c as u8) - 48) as u64;
        if !huge {
            if value > 0x0ccc_cccc_cccc_cccc || value * 10 + d > 0x8000_0000_0000_0000 {
                huge = true;
            } else {
                value = value * 10 + d;
            }
        }
        i += 1;
    }
    assert(digits.take(digits.len() as int) =~= digits);
    assert(all_digits(digits));
    if huge {
        return None;
    }
    if signed && v[0] == '-' {
        if value == 0x8000_0000_0000_0000 {
            Some(i64::MIN)
        } else {
            Some(-(value as i64))
        }
    } else if value == 0x8000_0000_0000_0000 {
        None
    } else {
        Some(value as i64)
    }
}

pub proof fn lemma_nat_text(n: nat)
    ensures
        nat_text(n).len() > 0,
        all_digits(nat_text(n)),
        digits_value(nat_text(n)) == n,
    decreases n,
{
    if n >= 10 {
        lemma_nat_text(n / 10);
        assert(nat_text(n).drop_last() =~= nat_text(n / 10));
    } else {
        assert(nat_text(n).drop_last() =~= Seq::empty());
        reveal_with_fuel(digits_value, 2);
    }
}

/// Reading back a written number gives the number.
pub proof fn number_text_reads_back(i: i64)
    ensures
        i64_of(int_text(i as int)) == Some(i),
{
    let s = int_text(i as int);
    if i < 0 {
        lemma_nat_text((-i) as nat);
        assert(s.drop_first() =~= nat_text((-i) as nat));
    } else {
        lemma_nat_text(i as nat);
        assert(is_digit(s[0]));
    }
}

// ---------- order ----------

/// Whether `a` stands before `b` in dictionary order, by the characters' code points.
pub open spec fn precedes(a: Seq<char>, b: Seq<char>) -> bool
    decreases a.len(),
{
    if b.len() == 0 {
        false
    } else if a.len() == 0 {
        true
    } else if a[0] == b[0] {
        precedes(a.drop_first(), b.drop_first())
    } else {
        a[0] < b[0]
    }
}

/// Whether each string stands before all that follow it; no two are then equal.
pub open spec fn ascending(v: Seq<Seq<char>>) -> bool {
    forall|i: int, j: int| 0 <= i < j < v.len() ==> precedes(#[trigger] v[i], #[trigger] v[j])
}

pub proof fn lemma_precedes_not_self(a: Seq<char>)
    ensures
        !precedes(a, a),
    decreases a.len(),
{
    if a.len() > 0 {
        lemma_precedes_not_self(a.drop_first());
    }
}

pub proof fn lemma_precedes_transitive(a: Seq<char>, b: Seq<char>, c: Seq<char>)
    requires
        precedes(a, b),
        precedes(b, c),
    ensures
        precedes(a, c),
    decreases a.len(),
{
    if a.len() > 0 && b.len() > 0 && c.len() > 0 && a[0] == b[0] && b[0] == c[0] {
        lemma_precedes_transitive(a.drop_first(), b.drop_first(), c.drop_first());
    }
}

pub proof fn lemma_precedes_total(a: Seq<char>, b: Seq<char>)
    ensures
        a == b || precedes(a, b) || precedes(b, a),
    decreases a.len(),
{
    if a.len() == 0 {
        if b.len() == 0 {
            assert(a =~= b);
        }
    } else if b.len() > 0 && a[0] == b[0] {
        lemma_precedes_total(a.drop_first(), b.drop_first());
        if a.drop_first() == b.drop_first() {
            assert(a =~= seq![a[0]] + a.drop_first());
            assert(b =~= seq![b[0]] + b.drop_first());
        }
    }
}

fn stands_before(a: &str, b: &str) -> (r: bool)
    ensures
        r == precedes(a@, b@),
{
    let v = chars_of(a);
    let w = chars_of(b);
    let mut i: usize = 0;
    assert(v@.skip(0) =~= v@);
    assert(w@.skip(0) =~= w@);
    while i < v.len() && i < w.len()
        invariant
            i <= v@.len(),
            i <= w@.len(),
            v@ == a@,
            w@ == b@,
            precedes(v@, w@) == precedes(v@.skip(i as int), w@.skip(i as int)),
        decreases v@.len() - i,
    {
        assert(v@.skip(i as int).drop_first() =~= v@.skip(i + 1));
        assert(w@.skip(i as int).drop_first() =~= w@.skip(i + 1));
        if v[i] != w[i] {
            return v[i] < w[i];
        }
        i += 1;
    }
    i < w.len()
}

/// The strings of a list in order, each once.
pub fn sort_unique(v: &Vec<String>) -> (r: Vec<String>)
    ensures
        ascending(views(r@)),
        forall|x: Seq<char>| views(r@).contains(x) <==> views(v@).contains(x),
{
    let mut r: Vec<String> = Vec::new();
    let mut i: usize = 0;
    assert(views(v@).take(0) =~= Seq::empty());
    while i < v.len()
        invariant
            i <= v@.len(),
            ascending(views(r@)),
            forall|x: Seq<char>| views(r@).contains(x) <==> views(v@).take(i as int).contains(x),
        decreases v@.len() - i,
    {
        let ghost old_r = views(r@);
        let ghost x = v@[i as int]@;
        insert_sorted(&mut r, &v[i]);
        proof {
            let before = views(v@).take(i as int);
            let after = views(v@).take(i + 1);
            assert(after =~= before.push(x));
            assert forall|y: Seq<char>| views(r@).contains(y) <==> after.contains(y) by {
                if after.contains(y) && y != x {
                    let k = choose|k: int| 0 <= k < after.len() && after[k] == y;
                    assert(before[k] == y);
                }
                if before.contains(y) {
                    let k = choose|k: int| 0 <= k < before.len() && before[k] == y;
                    assert(after[k] == y);
                }
                assert(after[i as int] == x);
            }
        }
        i += 1;
    }
    assert(views(v@).take(v@.len() as int) =~= views(v@));
    r
}

fn insert_sorted(r: &mut Vec<String>, s: &String)
    requires
        ascending(views(old(r)@)),
    ensures
        ascending(views(final(r)@)),
        forall|y: Seq<char>| views(final(r)@).contains(y) <==> views(old(r)@).contains(y) || y == s@,
{
    let ghost was = views(r@);
    let mut k: usize = 0;
    while k < r.len() && stands_before(r[k].as_str(), s.as_str())
        invariant
            k <= r@.len(),
            *r == *old(r),
            forall|j: int| 0 <= j < k ==> precedes(#[trigger] views(r@)[j], s@),
        decreases r@.len() - k,
    {
        assert(views(r@)[k as int] == r@[k as int]@);
        k += 1;
    }
    if k < r.len() && same(r[k].as_str(), s.as_str()) {
        assert(was[k as int] == s@);
        return ;
    }
    proof {
        if k < r@.len() {
            assert(was[k as int] == r@[k as int]@);
            lemma_precedes_total(was[k as int], s@);
        }
        assert forall|j: int| k <= j < was.len() implies precedes(s@, #[trigger] was[j]) by {
            if j > k {
                lemma_precedes_transitive(s@, was[k as int], was[j]);
            }
        }
    }
    r.insert(k, s.clone());
    proof {
        let now = views(r@);
        assert(now =~= was.insert(k as int, s@));
        assert forall|y: Seq<char>| now.contains(y) <==> was.contains(y) || y == s@ by {
            if now.contains(y) {
                let j = choose|j: int| 0 <= j < now.len() && now[j] == y;
                if j < k {
                    assert(was[j] == y);
                } else if j > k {
                    assert(was[j - 1] == y);
                }
            }
            if was.contains(y) {
                let j = choose|j: int| 0 <= j < was.len() && was[j] == y;
                if j < k {
                    assert(now[j] == y);
                } else {
                    assert(now[j + 1] == y);
                }
            }
            assert(now[k as int] == s@);
        }
    }
}

} // verus!
