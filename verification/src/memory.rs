//! What is remembered: the messages of a conversation, and statements kept across conversations.
use vstd::prelude::*;
use crate::llm::{message_views, Message, MessageView};
use crate::text::{
    ascii_lower, chars_of, is_control_char, is_white_space, join, joined, same, string_of, to_lower,
    trim, trimmed, views,
};

verus! {

/// A conversation: the system message, then what has been said.
pub struct History {
    msgs: Vec<Message>,
}

impl View for History {
    type V = Seq<MessageView>;

    closed spec fn view(&self) -> Seq<MessageView> {
        message_views(self.msgs@)
    }
}

impl History {
    pub fn new(system: String) -> (r: History)
        ensures
            r@ == seq![MessageView::said("system"@, system@)],
    {
        let mut msgs: Vec<Message> = Vec::new();
        msgs.push(Message::system(system.as_str()));
        assert(message_views(msgs@) =~= seq![MessageView::said("system"@, system@)]);
        History { msgs }
    }

    pub fn add(&mut self, m: Message)
        ensures
            final(self)@ == old(self)@.push(m@),
    {
        let ghost before = self.msgs@;
        self.msgs.push(m);
        assert(message_views(self.msgs@) =~= message_views(before).push(m@));
    }

    pub fn all(&self) -> (r: &Vec<Message>)
        ensures
            message_views(r@) == self@,
    {
        &self.msgs
    }
}

// ---------- statements kept across conversations ----------

/// A character that the index takes in. White space, control characters and the signs that the
/// query language gives a meaning are left out.
pub open spec fn is_indexed(c: char) -> bool {
    !is_white_space(c) && !is_control_char(c) && c != '"' && c != '*' && c != '(' && c != ')' && c
        != ':' && c != '^' && c != '-' && c != '+' && c != '|'
}

/// The characters of a text that the index takes in, each by itself.
pub open spec fn tokens(s: Seq<char>) -> Seq<Seq<char>>
    decreases s.len(),
{
    if s.len() == 0 {
        Seq::empty()
    } else if is_indexed(s.last()) {
        tokens(s.drop_last()).push(seq![s.last()])
    } else {
        tokens(s.drop_last())
    }
}

/// A text as the index holds it: its characters with spaces between them, so that each is found
/// by itself.
pub open spec fn index_text(s: Seq<char>) -> Seq<char> {
    joined(tokens(s), " "@)
}

fn split_tokens(s: &str) -> (r: Vec<String>)
    ensures
        views(r@) == tokens(s@),
{
    let v = chars_of(s);
    let mut parts: Vec<String> = Vec::new();
    let mut i: usize = 0;
    assert(views(parts@) =~= tokens(v@.take(0)));
    while i < v.len()
        invariant
            i <= v@.len(),
            views(parts@) == tokens(v@.take(i as int)),
        decreases v@.len() - i,
    {
        assert(v@.take(i + 1).drop_last() =~= v@.take(i as int));
        let c = v[i];
        let skipped = c == '"' || c == '*' || c == '(' || c == ')' || c == ':' || c == '^' || c == '-'
            || c == '+' || c == '|';
        if !c.is_whitespace() && !c.is_control() && !skipped {
            let ghost before = parts@;
            let one = string_of(&v, i, i + 1);
            assert(one@ =~= seq![c]);
            parts.push(one);
            assert(views(parts@) =~= views(before).push(one@));
        }
        i += 1;
    }
    assert(v@.take(v@.len() as int) =~= v@);
    parts
}

/// [`index_text`].
pub fn char_split(s: &str) -> (r: String)
    ensures
        r@ == index_text(s@),
{
    join(&split_tokens(s), " ")
}

/// A character as a phrase of the query language, which gives nothing within quotes a meaning.
pub open spec fn phrase(token: Seq<char>) -> Seq<char> {
    "\""@ + token + "\""@
}

/// The query that asks for all characters of a text: each as a phrase of its own.
pub open spec fn query_text(s: Seq<char>) -> Seq<char> {
    joined(tokens(s).map_values(|t: Seq<char>| phrase(t)), " "@)
}

/// A search for kept statements.
pub enum Search {
    /// The latest ones, at most so many.
    Latest(i64),
    /// Those that match, the best first, at most so many.
    Matching(String, i64),
}

pub enum SearchView {
    Latest(i64),
    Matching(Seq<char>, i64),
}

impl View for Search {
    type V = SearchView;

    open spec fn view(&self) -> SearchView {
        match self {
            Search::Latest(n) => SearchView::Latest(*n),
            Search::Matching(q, n) => SearchView::Matching(q@, *n),
        }
    }
}

/// What is searched for a query: the statements that match it, or, where it has no character to
/// search for, the latest.
pub open spec fn search_for(query: Seq<char>, top_k: usize) -> SearchView {
    if tokens(query).len() == 0 {
        SearchView::Latest(top_k as i64)
    } else {
        SearchView::Matching(query_text(query), top_k as i64)
    }
}

pub fn recall(query: &str, top_k: usize) -> (r: Search)
    ensures
        r@ == search_for(query@, top_k),
{
    let parts = split_tokens(query);
    let n: usize = parts.len();
    let ghost all = tokens(query@).map_values(|t: Seq<char>| phrase(t));
    let mut phrases: Vec<String> = Vec::new();
    let mut i: usize = 0;
    assert(views(parts@).len() == n);
    assert(views(phrases@) =~= all.take(0));
    while i < n
        invariant
            i <= n,
            n == parts@.len(),
            views(parts@) == tokens(query@),
            all == tokens(query@).map_values(|t: Seq<char>| phrase(t)),
            views(phrases@) == all.take(i as int),
        decreases n - i,
    {
        let mut p = "\"".to_owned();
        p.append(parts[i].as_str());
        p.append("\"");
        let ghost before = phrases@;
        phrases.push(p);
        proof {
            assert(views(parts@)[i as int] == parts@[i as int]@);
            assert(all[i as int] == p@);
            assert(views(phrases@) =~= views(before).push(p@));
            assert(all.take(i + 1) =~= all.take(i as int).push(p@));
        }
        i += 1;
    }
    assert(all.take(all.len() as int) =~= all);
    if n == 0 {
        Search::Latest(top_k as i64)
    } else {
        Search::Matching(join(&phrases, " "), top_k as i64)
    }
}

/// A statement as it is stored: its index text, itself, and when it was made.
pub struct Row {
    pub indexed: String,
    pub raw: String,
    pub created_at: String,
}

/// The layout of the store that this library keeps.
pub const SCHEMA_VERSION: u32 = 3;

/// What brings a store of an earlier layout up to date: statements to take over, whether the
/// earlier table is dropped, and the version to note. There is nothing to do for a store that is
/// up to date.
pub struct Migration {
    pub rows: Vec<Row>,
    pub drops_old: bool,
    pub version: u32,
}

pub open spec fn taken_over(row: Row, old: (String, String)) -> bool {
    row.indexed@ == index_text(old.0@) && row.raw@ == old.0@ && row.created_at@ == old.1@
}

/// Plans the migration of a store of layout `current`. `old` holds the statements of the earlier
/// table with their dates, where there is such a table.
pub fn migrate(current: u32, old: Option<&Vec<(String, String)>>) -> (r: Option<Migration>)
    ensures
        r is Some == (current < SCHEMA_VERSION),
        r matches Some(m) ==> {
            &&& m.version == SCHEMA_VERSION
            &&& m.drops_old == old is Some
            &&& m.rows@.len() == match old {
                Some(o) => o@.len(),
                None => 0,
            }
            &&& forall|i: int| 0 <= i < m.rows@.len() ==> taken_over(#[trigger] m.rows@[i], old->0@[i])
        },
{
    if current >= SCHEMA_VERSION {
        return None;
    }
    let mut rows: Vec<Row> = Vec::new();
    if let Some(o) = old {
        let mut i: usize = 0;
        while i < o.len()
            invariant
                i <= o@.len(),
                rows@.len() == i,
                forall|k: int| 0 <= k < i ==> taken_over(#[trigger] rows@[k], o@[k]),
            decreases o@.len() - i,
        {
            let text = o[i].0.clone();
            rows.push(
                Row {
                    indexed: char_split(text.as_str()),
                    raw: text,
                    created_at: o[i].1.clone(),
                },
            );
            i += 1;
        }
    }
    Some(Migration { rows, drops_old: old.is_some(), version: SCHEMA_VERSION })
}

/// How to reach a service for embeddings.
#[derive(Clone, Debug)]
pub struct EmbedConfig {
    pub api_base: String,
    pub api_key: String,
    pub model: String,
}

/// The models that run on this machine.
#[derive(Clone, Copy, Debug, PartialEq, Eq, Structural)]
pub enum LocalModel {
    BgeSmallZh,
    BgeLargeZh,
    BgeSmallEn,
    BgeBaseEn,
    E5Small,
    E5Base,
    E5Large,
    BgeM3,
}

pub open spec fn model_named(name: Seq<char>) -> Option<LocalModel> {
    let n = ascii_lower(trimmed(name));
    if n == ""@ || n == "bge-small-zh-v1.5"@ || n == "bge-small-zh"@ {
        Some(LocalModel::BgeSmallZh)
    } else if n == "bge-large-zh-v1.5"@ || n == "bge-large-zh"@ {
        Some(LocalModel::BgeLargeZh)
    } else if n == "bge-small-en-v1.5"@ || n == "bge-small-en"@ {
        Some(LocalModel::BgeSmallEn)
    } else if n == "bge-base-en-v1.5"@ || n == "bge-base-en"@ {
        Some(LocalModel::BgeBaseEn)
    } else if n == "multilingual-e5-small"@ {
        Some(LocalModel::E5Small)
    } else if n == "multilingual-e5-base"@ {
        Some(LocalModel::E5Base)
    } else if n == "multilingual-e5-large"@ {
        Some(LocalModel::E5Large)
    } else if n == "bge-m3"@ || n == "bgem3"@ {
        Some(LocalModel::BgeM3)
    } else {
        None
    }
}

pub open spec fn no_such_model(name: Seq<char>) -> Seq<char> {
    "未知 embeddings.model '"@ + ascii_lower(trimmed(name))
        + "'；可用：bge-small-zh-v1.5 | bge-large-zh-v1.5 | bge-small-en-v1.5 | bge-base-en-v1.5 | multilingual-e5-small | multilingual-e5-base | multilingual-e5-large | bge-m3"@
}

/// The model of that name, whatever the case; the words of the error where there is none.
pub fn pick_model(name: &str) -> (r: Result<LocalModel, String>)
    ensures
        match r {
            Ok(m) => model_named(name@) == Some(m),
            Err(e) => model_named(name@) is None && e@ == no_such_model(name@),
        },
{
    let lower = to_lower(trim(name).as_str());
    let n = lower.as_str();
    if same(n, "") || same(n, "bge-small-zh-v1.5") || same(n, "bge-small-zh") {
        Ok(LocalModel::BgeSmallZh)
    } else if same(n, "bge-large-zh-v1.5") || same(n, "bge-large-zh") {
        Ok(LocalModel::BgeLargeZh)
    } else if same(n, "bge-small-en-v1.5") || same(n, "bge-small-en") {
        Ok(LocalModel::BgeSmallEn)
    } else if same(n, "bge-base-en-v1.5") || same(n, "bge-base-en") {
        Ok(LocalModel::BgeBaseEn)
    } else if same(n, "multilingual-e5-small") {
        Ok(LocalModel::E5Small)
    } else if same(n, "multilingual-e5-base") {
        Ok(LocalModel::E5Base)
    } else if same(n, "multilingual-e5-large") {
        Ok(LocalModel::E5Large)
    } else if same(n, "bge-m3") || same(n, "bgem3") {
        Ok(LocalModel::BgeM3)
    } else {
        let mut e = "未知 embeddings.model '".to_owned();
        e.append(n);
        e.append(
            "'；可用：bge-small-zh-v1.5 | bge-large-zh-v1.5 | bge-small-en-v1.5 | bge-base-en-v1.5 | multilingual-e5-small | multilingual-e5-base | multilingual-e5-large | bge-m3",
        );
        Err(e)
    }
}

// ---------- laws ----------

proof fn lemma_tokens_add(a: Seq<char>, b: Seq<char>)
    ensures
        tokens(a + b) == tokens(a) + tokens(b),
    decreases b.len(),
{
    if b.len() == 0 {
        assert(a + b =~= a);
        assert(tokens(a) + tokens(b) =~= tokens(a));
    } else {
        assert((a + b).drop_last() =~= a + b.drop_last());
        lemma_tokens_add(a, b.drop_last());
        assert(tokens(a + b) =~= tokens(a) + tokens(b));
    }
}

proof fn lemma_tokens_one(c: char)
    ensures
        tokens(seq![c]) == if is_indexed(c) {
            seq![seq![c]]
        } else {
            Seq::empty()
        },
{
    assert(seq![c].drop_last() =~= Seq::empty());
    reveal_with_fuel(tokens, 2);
    assert(tokens(seq![c]) =~= if is_indexed(c) {
        seq![seq![c]]
    } else {
        Seq::empty()
    });
}

proof fn lemma_tokens_indexed(s: Seq<char>, k: int)
    requires
        0 <= k < tokens(s).len(),
    ensures
        tokens(s)[k].len() == 1 && is_indexed(tokens(s)[k][0]),
    decreases s.len(),
{
    if k < tokens(s.drop_last()).len() {
        lemma_tokens_indexed(s.drop_last(), k);
    }
}

proof fn lemma_joined_tokens(parts: Seq<Seq<char>>)
    requires
        forall|k: int| 0 <= k < parts.len() ==> (#[trigger] parts[k]).len() == 1 && is_indexed(parts[k][0]),
    ensures
        tokens(joined(parts, " "@)) == parts,
    decreases parts.len(),
{
    reveal_strlit(" ");
    if parts.len() > 0 {
        let front = parts.drop_last();
        assert forall|k: int| 0 <= k < front.len() implies (#[trigger] front[k]).len() == 1 && is_indexed(
            front[k][0],
        ) by {
            assert(front[k] == parts[k]);
        }
        lemma_joined_tokens(front);
        let last = parts.last();
        assert(last == parts[parts.len() - 1]);
        assert(last =~= seq![last[0]]);
        lemma_tokens_one(last[0]);
        lemma_tokens_one(' ');
        assert(" "@ =~= seq![' ']);
        if parts.len() > 1 {
            lemma_tokens_add(joined(front, " "@), " "@);
            lemma_tokens_add(joined(front, " "@) + " "@, last);
            assert(tokens(joined(parts, " "@)) =~= front + Seq::<Seq<char>>::empty() + seq![last]);
        }
        assert(front.push(last) =~= parts);
        assert(tokens(joined(parts, " "@)) =~= parts);
    } else {
        assert(tokens(joined(parts, " "@)) =~= parts);
    }
}

/// The index text of a text finds the same characters as the text: what is written to the index
/// and what is searched in it are cut in the same way, and cutting twice changes nothing.
pub proof fn index_text_is_stable(s: Seq<char>)
    ensures
        tokens(index_text(s)) == tokens(s),
        index_text(index_text(s)) == index_text(s),
{
    assert forall|k: int| 0 <= k < tokens(s).len() implies (#[trigger] tokens(s)[k]).len() == 1
        && is_indexed(tokens(s)[k][0]) by {
        lemma_tokens_indexed(s, k);
    }
    lemma_joined_tokens(tokens(s));
}

/// Whatever stands in a text stands in the index too, character by character: a text that
/// contains a query holds all characters that are searched for it, in their order.
pub proof fn contained_text_is_found(text: Seq<char>, before: Seq<char>, query: Seq<char>, after: Seq<char>)
    requires
        text == before + query + after,
    ensures
        tokens(text) == tokens(before) + tokens(query) + tokens(after),
{
    lemma_tokens_add(before, query);
    lemma_tokens_add(before + query, after);
}

/// The index text holds the characters that the index takes in and the spaces between them, and
/// nothing else.
pub proof fn index_text_is_plain(s: Seq<char>, i: int)
    requires
        0 <= i < index_text(s).len(),
    ensures
        index_text(s)[i] == ' ' || is_indexed(index_text(s)[i]),
{
    assert forall|k: int| 0 <= k < tokens(s).len() implies (#[trigger] tokens(s)[k]).len() == 1
        && is_indexed(tokens(s)[k][0]) by {
        lemma_tokens_indexed(s, k);
    }
    lemma_joined_plain(tokens(s), i);
}

proof fn lemma_joined_plain(parts: Seq<Seq<char>>, i: int)
    requires
        forall|k: int| 0 <= k < parts.len() ==> (#[trigger] parts[k]).len() == 1 && is_indexed(parts[k][0]),
        0 <= i < joined(parts, " "@).len(),
    ensures
        joined(parts, " "@)[i] == ' ' || is_indexed(joined(parts, " "@)[i]),
    decreases parts.len(),
{
    reveal_strlit(" ");
    let front = parts.drop_last();
    let last = parts.last();
    assert(last == parts[parts.len() - 1]);
    assert forall|k: int| 0 <= k < front.len() implies (#[trigger] front[k]).len() == 1 && is_indexed(
        front[k][0],
    ) by {
        assert(front[k] == parts[k]);
    }
    if parts.len() > 1 && i < joined(front, " "@).len() {
        lemma_joined_plain(front, i);
    }
}

/// Whether a quote stands open at the end of a query.
pub open spec fn in_quotes(q: Seq<char>) -> bool
    decreases q.len(),
{
    if q.len() == 0 {
        false
    } else if q.last() == '"' {
        !in_quotes(q.drop_last())
    } else {
        in_quotes(q.drop_last())
    }
}

/// Whether a query is made of phrases alone: outside of the quotes there are only spaces, within
/// them only characters that the index takes in, and each quote is closed.
pub open spec fn only_phrases(q: Seq<char>) -> bool {
    &&& !in_quotes(q)
    &&& forall|i: int|
        0 <= i < q.len() && #[trigger] q[i] != '"' ==> if in_quotes(q.take(i)) {
            is_indexed(q[i])
        } else {
            q[i] == ' '
        }
}

#[verifier::spinoff_prover]
#[verifier::rlimit(60)]
proof fn lemma_only_phrases_push(q: Seq<char>, token: Seq<char>, spaced: Seq<char>)
    requires
        only_phrases(q),
        token.len() == 1 && is_indexed(token[0]),
        spaced == q + " "@ || spaced == q,
    ensures
        only_phrases(spaced + phrase(token)),
{
    reveal_strlit(" ");
    reveal_strlit("\"");
    let c = token[0];
    let r = spaced + phrase(token);
    let n = spaced.len() as int;
    assert(r.len() == n + 3);
    assert(only_phrases(spaced)) by {
        if spaced != q {
            assert(spaced.drop_last() =~= q);
            assert forall|i: int| 0 <= i < spaced.len() && #[trigger] spaced[i] != '"' implies if in_quotes(
                spaced.take(i),
            ) {
                is_indexed(spaced[i])
            } else {
                spaced[i] == ' '
            } by {
                if i < q.len() {
                    assert(spaced.take(i) =~= q.take(i));
                    assert(spaced[i] == q[i]);
                } else {
                    assert(spaced.take(i) =~= q);
                }
            }
        }
    }
    assert(r[n] == '"' && r[n + 1] == c && r[n + 2] == '"');
    assert(r.take(n) =~= spaced);
    assert(r.take(n + 1).drop_last() =~= spaced);
    assert(r.take(n + 1).last() == '"');
    assert(in_quotes(r.take(n + 1)));
    assert(r.take(n + 2).drop_last() =~= r.take(n + 1));
    assert(r.take(n + 2).last() == c);
    assert(in_quotes(r.take(n + 2)));
    assert(r.drop_last() =~= r.take(n + 2));
    assert forall|i: int| 0 <= i < r.len() && #[trigger] r[i] != '"' implies if in_quotes(r.take(i)) {
        is_indexed(r[i])
    } else {
        r[i] == ' '
    } by {
        if i < n {
            assert(r.take(i) =~= spaced.take(i));
            assert(r[i] == spaced[i]);
        }
    }
}

proof fn lemma_only_phrases(parts: Seq<Seq<char>>)
    requires
        forall|k: int| 0 <= k < parts.len() ==> (#[trigger] parts[k]).len() == 1 && is_indexed(parts[k][0]),
    ensures
        only_phrases(joined(parts.map_values(|t: Seq<char>| phrase(t)), " "@)),
    decreases parts.len(),
{
    let phrases = parts.map_values(|t: Seq<char>| phrase(t));
    if parts.len() > 0 {
        let front = parts.drop_last();
        assert forall|k: int| 0 <= k < front.len() implies (#[trigger] front[k]).len() == 1 && is_indexed(
            front[k][0],
        ) by {
            assert(front[k] == parts[k]);
        }
        lemma_only_phrases(front);
        assert(phrases.drop_last() =~= front.map_values(|t: Seq<char>| phrase(t)));
        assert(parts.last() == parts[parts.len() - 1]);
        let q = joined(phrases.drop_last(), " "@);
        if parts.len() > 1 {
            lemma_only_phrases_push(q, parts.last(), q + " "@);
        } else {
            lemma_only_phrases_push(q, parts.last(), q);
            assert(q + phrase(parts.last()) =~= phrase(parts.last()));
        }
    }
}

/// Whatever the user says, the search made of it is well formed and has no operators: it is made
/// of phrases alone.
pub proof fn queries_are_only_phrases(s: Seq<char>)
    ensures
        only_phrases(query_text(s)),
{
    assert forall|k: int| 0 <= k < tokens(s).len() implies (#[trigger] tokens(s)[k]).len() == 1
        && is_indexed(tokens(s)[k][0]) by {
        lemma_tokens_indexed(s, k);
    }
    lemma_only_phrases(tokens(s));
}

} // verus!
