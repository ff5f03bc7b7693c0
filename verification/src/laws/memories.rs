//! Laws of kept statements: no character to be searched for is lost, and none is made up.
use vstd::prelude::*;
use crate::laws::texts::trimming_keeps_the_core;
use crate::memory::{
    in_quotes, index_text, model_named, no_such_model, phrase, query_text, search_for, tokens, LocalModel,
};
use crate::text::{ascii_lower, is_white_space, joined};

verus! {

/// The signs that have a meaning in a query.
pub open spec fn is_sign(c: char) -> bool {
    c == '"' || c == '*' || c == '(' || c == ')' || c == ':' || c == '^' || c == '-' || c == '+' || c == '|'
}

/// Whether the index takes a character in: it is not white space, not a control character and not a
/// sign.
pub open spec fn is_taken_in(c: char) -> bool {
    &&& !is_white_space(c)
    &&& 0x1f < c as u32
    &&& !(0x7f <= c as u32 <= 0x9f)
    &&& !is_sign(c)
}

/// The characters of a text that the index takes in, in their order.
pub open spec fn kept(s: Seq<char>) -> Seq<char>
    decreases s.len(),
{
    if s.len() == 0 {
        Seq::empty()
    } else if is_taken_in(s[0]) {
        seq![s[0]] + kept(s.skip(1))
    } else {
        kept(s.skip(1))
    }
}

/// Keeping goes part by part.
proof fn lemma_kept_push(s: Seq<char>, c: char)
    ensures
        kept(s.push(c)) == if is_taken_in(c) {
            kept(s).push(c)
        } else {
            kept(s)
        },
    decreases s.len(),
{
    let t = s.push(c);
    if s.len() == 0 {
        assert(t.skip(1) =~= Seq::empty());
        assert(kept(t.skip(1)) =~= Seq::empty());
        assert(kept(t) =~= if is_taken_in(c) {
            kept(s).push(c)
        } else {
            kept(s)
        });
    } else {
        assert(t.skip(1) =~= s.skip(1).push(c));
        lemma_kept_push(s.skip(1), c);
        assert(kept(t) =~= if is_taken_in(c) {
            kept(s).push(c)
        } else {
            kept(s)
        });
    }
}

/// Each character that the index takes in is found by itself, in the order of the text; no other is.
pub proof fn characters_are_taken_one_by_one(s: Seq<char>)
    ensures
        tokens(s).len() == kept(s).len(),
        forall|k: int| 0 <= k < kept(s).len() ==> #[trigger] tokens(s)[k] == seq![kept(s)[k]],
    decreases s.len(),
{
    if s.len() > 0 {
        let front = s.drop_last();
        characters_are_taken_one_by_one(front);
        assert(s =~= front.push(s.last()));
        lemma_kept_push(front, s.last());
        assert forall|k: int| 0 <= k < kept(s).len() implies #[trigger] tokens(s)[k] == seq![kept(s)[k]] by {
            if k < kept(front).len() {
                assert(tokens(s)[k] == tokens(front)[k]);
            }
        }
    }
}

/// The pieces of a joined text, where all have the length `n` and one space stands between them.
proof fn lemma_places(parts: Seq<Seq<char>>, n: nat, k: int, i: int)
    requires
        forall|j: int| 0 <= j < parts.len() ==> (#[trigger] parts[j]).len() == n,
        0 <= k < parts.len(),
        0 < n,
        0 <= i <= n,
        i == n ==> k + 1 < parts.len(),
    ensures
        joined(parts, " "@).len() == parts.len() * (n + 1) - 1,
        0 <= k * (n + 1) + i < joined(parts, " "@).len(),
        joined(parts, " "@)[k * (n + 1) + i] == if i < n {
            parts[k][i]
        } else {
            ' '
        },
    decreases parts.len(),
{
    reveal_strlit(" ");
    let front = parts.drop_last();
    let all = joined(parts, " "@);
    let m = front.len() as int;
    assert((m + 1) * (n + 1) == m * (n + 1) + n + 1) by (nonlinear_arith);
    assert(parts.last() == parts[m]);
    if m > 0 {
        assert forall|j: int| 0 <= j < front.len() implies (#[trigger] front[j]).len() == n by {
            assert(front[j] == parts[j]);
        }
        lemma_places(front, n, 0, 0);
        assert(all == joined(front, " "@) + " "@ + parts.last());
        if k < m {
            assert(k * (n + 1) + i < m * (n + 1)) by (nonlinear_arith)
                requires
                    k < m,
                    i <= n,
                    0 <= k,
            ;
            assert(0 <= k * (n + 1)) by (nonlinear_arith)
                requires
                    k >= 0,
                    n >= 0,
            ;
            if i < n || k + 1 < m {
                lemma_places(front, n, k, i);
                assert(front[k] == parts[k]);
            } else {
                assert(k == m - 1);
                assert(k * (n + 1) + n == m * (n + 1) - 1) by (nonlinear_arith)
                    requires
                        k == m - 1,
                ;
            }
        } else {
            assert(k == m);
            assert(0 <= m * (n + 1)) by (nonlinear_arith)
                requires
                    m >= 0,
                    n >= 0,
            ;
        }
    } else {
        assert(k == 0);
        assert(all == parts[0]);
    }
}

/// The index holds the characters of a text that it takes in, all of them and in their order, with
/// one space between each two.
pub proof fn the_index_holds_each_character(s: Seq<char>, k: int)
    requires
        0 <= k < kept(s).len(),
    ensures
        index_text(s).len() == 2 * kept(s).len() - 1,
        index_text(s)[2 * k] == kept(s)[k],
        k + 1 < kept(s).len() ==> index_text(s)[2 * k + 1] == ' ',
{
    characters_are_taken_one_by_one(s);
    let parts = tokens(s);
    assert forall|j: int| 0 <= j < parts.len() implies (#[trigger] parts[j]).len() == 1 by {
        assert(parts[j] == seq![kept(s)[j]]);
    }
    lemma_places(parts, 1, k, 0);
    assert(parts.len() * (1 + 1) == 2 * parts.len()) by (nonlinear_arith);
    assert(k * (1 + 1) == 2 * k) by (nonlinear_arith);
    assert(parts[k] == seq![kept(s)[k]]);
    if k + 1 < kept(s).len() {
        lemma_places(parts, 1, k, 1);
    }
}

/// A query has one phrase for each character that the index takes in, in the order of the text, with
/// one space between each two, and nothing else.
pub proof fn queries_ask_for_each_character(s: Seq<char>, k: int)
    requires
        0 <= k < kept(s).len(),
    ensures
        query_text(s).len() == 4 * kept(s).len() - 1,
        query_text(s)[4 * k] == '"',
        query_text(s)[4 * k + 1] == kept(s)[k],
        query_text(s)[4 * k + 2] == '"',
        k + 1 < kept(s).len() ==> query_text(s)[4 * k + 3] == ' ',
{
    characters_are_taken_one_by_one(s);
    reveal_strlit("\"");
    let parts = tokens(s).map_values(|t: Seq<char>| phrase(t));
    assert forall|j: int| 0 <= j < parts.len() implies (#[trigger] parts[j]).len() == 3 by {
        assert(tokens(s)[j] == seq![kept(s)[j]]);
    }
    assert(tokens(s)[k] == seq![kept(s)[k]]);
    assert(parts[k] =~= seq!['"', kept(s)[k], '"']);
    assert(parts.len() * (3 + 1) == 4 * parts.len()) by (nonlinear_arith);
    assert(k * (3 + 1) == 4 * k) by (nonlinear_arith);
    lemma_places(parts, 3, k, 0);
    lemma_places(parts, 3, k, 1);
    lemma_places(parts, 3, k, 2);
    if k + 1 < kept(s).len() {
        lemma_places(parts, 3, k, 3);
    }
}

/// The characters of a query that stand within quotes, one after the other.
pub open spec fn quoted(q: Seq<char>) -> Seq<char>
    decreases q.len(),
{
    if q.len() == 0 {
        Seq::empty()
    } else if q.last() != '"' && in_quotes(q.drop_last()) {
        quoted(q.drop_last()).push(q.last())
    } else {
        quoted(q.drop_last())
    }
}

/// Whether the phrase at `k` of a query with `n` phrases asks for `c`.
spec fn asks_at(q: Seq<char>, k: int, c: char, n: nat) -> bool {
    &&& q[4 * k] == '"'
    &&& q[4 * k + 1] == c
    &&& q[4 * k + 2] == '"'
    &&& k + 1 < n ==> q[4 * k + 3] == ' '
}

#[verifier::spinoff_prover]
#[verifier::rlimit(50)]
proof fn lemma_quoted(q: Seq<char>, chars: Seq<char>, n: nat)
    requires
        n <= chars.len(),
        n > 0 ==> q.len() >= 4 * n - 1,
        forall|k: int| 0 <= k < chars.len() ==> #[trigger] chars[k] != '"',
        forall|k: int| 0 <= k < n ==> asks_at(q, k, #[trigger] chars[k], n),
    ensures
        n > 0 ==> !in_quotes(q.take(4 * n - 1)) && quoted(q.take(4 * n - 1)) == chars.take(n as int),
    decreases n,
{
    if n > 0 {
        let m = (n - 1) as nat;
        let i = 4 * m as int;
        let c = chars[m as int];
        assert(asks_at(q, m as int, c, n));
        assert forall|k: int| 0 <= k < m implies asks_at(q, k, #[trigger] chars[k], m) by {
            assert(asks_at(q, k, chars[k], n));
        }
        lemma_quoted(q, chars, m);
        let start = q.take(i);
        if m > 0 {
            assert(asks_at(q, m - 1, chars[m - 1], n));
            assert(q[4 * (m - 1) + 3] == ' ');
            assert(start.drop_last() =~= q.take(i - 1));
            assert(start.last() == ' ');
            assert(in_quotes(start) == in_quotes(q.take(i - 1)));
        } else {
            assert(start =~= Seq::empty());
            assert(chars.take(0) =~= Seq::empty());
        }
        assert(!in_quotes(start));
        assert(quoted(start) == chars.take(m as int));
        assert(q.take(i + 1).drop_last() =~= start);
        assert(q.take(i + 1).last() == '"');
        assert(in_quotes(q.take(i + 1)));
        assert(quoted(q.take(i + 1)) == quoted(start));
        assert(c != '"');
        assert(q.take(i + 2).drop_last() =~= q.take(i + 1));
        assert(q.take(i + 2).last() == c);
        assert(in_quotes(q.take(i + 2)));
        assert(quoted(q.take(i + 2)) == chars.take(m as int).push(c));
        assert(q.take(i + 3).drop_last() =~= q.take(i + 2));
        assert(q.take(i + 3).last() == '"');
        assert(quoted(q.take(i + 3)) == quoted(q.take(i + 2)));
        assert(i + 3 == 4 * n - 1);
        assert(chars.take(n as int) =~= chars.take(m as int).push(c));
    }
}

proof fn lemma_kept_are_no_quotes(s: Seq<char>)
    ensures
        forall|k: int| 0 <= k < kept(s).len() ==> #[trigger] kept(s)[k] != '"',
    decreases s.len(),
{
    if s.len() > 0 {
        lemma_kept_are_no_quotes(s.skip(1));
        assert forall|k: int| 0 <= k < kept(s).len() implies #[trigger] kept(s)[k] != '"' by {
            let rest = kept(s.skip(1));
            if is_taken_in(s[0]) {
                assert(kept(s) == seq![s[0]] + rest);
                if k > 0 {
                    assert(kept(s)[k] == rest[k - 1]);
                } else {
                    assert(kept(s)[k] == s[0]);
                }
            } else {
                assert(kept(s)[k] == rest[k]);
            }
        }
    }
}

/// What stands within the quotes of a query, read from the left to the right, is each character of
/// the text that the index takes in: none is left out and none is added.
pub proof fn quotes_hold_what_is_searched(s: Seq<char>)
    ensures
        quoted(query_text(s)) == kept(s),
{
    let n = kept(s).len();
    if n == 0 {
        characters_are_taken_one_by_one(s);
        assert(joined(tokens(s).map_values(|t: Seq<char>| phrase(t)), " "@) =~= Seq::<char>::empty());
        assert(kept(s) =~= Seq::empty());
    } else {
        let q = query_text(s);
        lemma_kept_are_no_quotes(s);
        queries_ask_for_each_character(s, 0);
        assert forall|k: int| 0 <= k < n implies asks_at(q, k, #[trigger] kept(s)[k], n) by {
            queries_ask_for_each_character(s, k);
        }
        lemma_quoted(q, kept(s), n);
        assert(q.take(4 * n - 1) =~= q);
        assert(kept(s).take(n as int) =~= kept(s));
    }
}

/// A query with a character to search for is searched for, any other asks for the latest
/// statements; either asks for as many as are wanted.
pub proof fn searches_are_for_what_is_asked(query: Seq<char>, top_k: usize)
    requires
        top_k <= i64::MAX,
    ensures
        kept(query).len() == 0 ==> search_for(query, top_k) is Latest && search_for(query, top_k)->Latest_0
            == top_k,
        kept(query).len() > 0 ==> search_for(query, top_k) is Matching && search_for(
            query,
            top_k,
        )->Matching_1 == top_k && quoted(search_for(query, top_k)->Matching_0) == kept(query),
{
    characters_are_taken_one_by_one(query);
    quotes_hold_what_is_searched(query);
}

/// Two texts one behind the other are searched for as both.
pub proof fn searches_add_up(a: Seq<char>, b: Seq<char>)
    ensures
        quoted(query_text(a + b)) == quoted(query_text(a)) + quoted(query_text(b)),
    decreases b.len(),
{
    quotes_hold_what_is_searched(a);
    quotes_hold_what_is_searched(b);
    quotes_hold_what_is_searched(a + b);
    if b.len() == 0 {
        assert(a + b =~= a);
        assert(kept(a) + kept(b) =~= kept(a));
    } else {
        let front = b.drop_last();
        searches_add_up(a, front);
        quotes_hold_what_is_searched(front);
        quotes_hold_what_is_searched(a + front);
        assert(a + b =~= (a + front).push(b.last()));
        assert(b =~= front.push(b.last()));
        lemma_kept_push(a + front, b.last());
        lemma_kept_push(front, b.last());
        assert(kept(a + b) =~= kept(a) + kept(b));
    }
}

/// A model is named whatever white space stands around its name and whatever the case; no other name
/// is one, and an unknown name is told as it was read.
#[verifier::spinoff_prover]
#[verifier::rlimit(50)]
pub proof fn models_go_by_their_names(before: Seq<char>, core: Seq<char>, after: Seq<char>)
    requires
        forall|i: int| 0 <= i < before.len() ==> is_white_space(#[trigger] before[i]),
        forall|i: int| 0 <= i < after.len() ==> is_white_space(#[trigger] after[i]),
        core.len() > 0 ==> !is_white_space(core[0]) && !is_white_space(core.last()),
    ensures
        ({
            let n = ascii_lower(core);
            let m = model_named(before + core + after);
            &&& m == Some(LocalModel::BgeSmallZh) <==> n.len() == 0 || n == "bge-small-zh-v1.5"@ || n
                == "bge-small-zh"@
            &&& m == Some(LocalModel::BgeLargeZh) <==> n == "bge-large-zh-v1.5"@ || n == "bge-large-zh"@
            &&& m == Some(LocalModel::BgeSmallEn) <==> n == "bge-small-en-v1.5"@ || n == "bge-small-en"@
            &&& m == Some(LocalModel::BgeBaseEn) <==> n == "bge-base-en-v1.5"@ || n == "bge-base-en"@
            &&& m == Some(LocalModel::E5Small) <==> n == "multilingual-e5-small"@
            &&& m == Some(LocalModel::E5Base) <==> n == "multilingual-e5-base"@
            &&& m == Some(LocalModel::E5Large) <==> n == "multilingual-e5-large"@
            &&& m == Some(LocalModel::BgeM3) <==> n == "bge-m3"@ || n == "bgem3"@
            &&& no_such_model(before + core + after).len() > n.len() + 20
            &&& no_such_model(before + core + after).subrange(21, 21 + n.len() as int) == n
        }),
{
    trimming_keeps_the_core(before, core, after);
    let n = ascii_lower(core);
    reveal_strlit("");
    reveal_strlit("bge-small-zh-v1.5");
    reveal_strlit("bge-small-zh");
    reveal_strlit("bge-large-zh-v1.5");
    reveal_strlit("bge-large-zh");
    reveal_strlit("bge-small-en-v1.5");
    reveal_strlit("bge-small-en");
    reveal_strlit("bge-base-en-v1.5");
    reveal_strlit("bge-base-en");
    reveal_strlit("multilingual-e5-small");
    reveal_strlit("multilingual-e5-base");
    reveal_strlit("multilingual-e5-large");
    reveal_strlit("bge-m3");
    reveal_strlit("bgem3");
    reveal_strlit("未知 embeddings.model '");
    assert("bge-small-zh-v1.5"@[4] == 's' && "bge-small-zh-v1.5"@[10] == 'z');
    assert("bge-large-zh-v1.5"@[4] == 'l' && "bge-large-zh-v1.5"@[10] == 'z');
    assert("bge-small-en-v1.5"@[4] == 's' && "bge-small-en-v1.5"@[10] == 'e');
    assert("bge-small-zh"@[4] == 's' && "bge-small-zh"@[10] == 'z');
    assert("bge-large-zh"@[4] == 'l' && "bge-large-zh"@[10] == 'z');
    assert("bge-small-en"@[4] == 's' && "bge-small-en"@[10] == 'e');
    assert("multilingual-e5-small"@[16] == 's');
    assert("multilingual-e5-large"@[16] == 'l');
    if n.len() == 0 {
        assert(n =~= ""@);
    }
    assert("未知 embeddings.model '"@.len() == 21);
    assert(no_such_model(before + core + after).subrange(21, 21 + n.len() as int) =~= n);
}

} // verus!
