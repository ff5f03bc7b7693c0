//! Replies that come in one piece, and lists of models.
use vstd::prelude::*;
use crate::json::{items_view, lemma_items_view, Json, JsonView};
use crate::text::{ascending, same, sort_unique, views};

verus! {

/// The texts of the parts, one after the other.
pub open spec fn parts_text(parts: Seq<JsonView>) -> Seq<char>
    decreases parts.len(),
{
    if parts.len() == 0 {
        Seq::empty()
    } else {
        parts_text(parts.drop_last()) + match parts.last().text_at("text"@) {
            Some(t) => t,
            None => Seq::empty(),
        }
    }
}

/// The texts of the message items, one after the other. Other items are passed over.
pub open spec fn items_text(items: Seq<JsonView>) -> Seq<char>
    decreases items.len(),
{
    if items.len() == 0 {
        Seq::empty()
    } else {
        items_text(items.drop_last()) + if items.last().text_at("type"@) == Some("message"@) {
            match items.last().array_at("content"@) {
                Some(parts) => parts_text(parts),
                None => Seq::empty(),
            }
        } else {
            Seq::empty()
        }
    }
}

/// The text of a reply in the Responses protocol.
pub open spec fn responses_text(v: JsonView) -> Seq<char> {
    match v.array_at("output"@) {
        Some(items) => items_text(items),
        None => Seq::empty(),
    }
}

fn push_parts(out: &mut String, parts: &Vec<Json>)
    ensures
        final(out)@ == old(out)@ + parts_text(items_view(parts@)),
{
    let ghost all = items_view(parts@);
    let ghost before = out@;
    let mut i: usize = 0;
    proof {
        lemma_items_view(parts@);
        assert(before + parts_text(all.take(0)) =~= before);
    }
    while i < parts.len()
        invariant
            i <= parts@.len(),
            all == items_view(parts@),
            all.len() == parts@.len(),
            out@ == before + parts_text(all.take(i as int)),
        decreases parts@.len() - i,
    {
        proof {
            lemma_items_view(parts@);
            assert(all.take(i + 1).drop_last() =~= all.take(i as int));
        }
        if let Some(t) = parts[i].text_at("text") {
            out.append(t);
        }
        i += 1;
        assert(out@ =~= before + parts_text(all.take(i as int)));
    }
    assert(all.take(all.len() as int) =~= all);
}

/// Collects the text of a reply in the Responses protocol.
pub fn extract_responses_text(v: &Json) -> (r: String)
    ensures
        r@ == responses_text(v@),
{
    let mut out = String::new();
    if let Some(items) = v.array_at("output") {
        let ghost all = items_view(items@);
        let mut i: usize = 0;
        proof {
            lemma_items_view(items@);
            assert(out@ =~= items_text(all.take(0)));
        }
        while i < items.len()
            invariant
                i <= items@.len(),
                all == items_view(items@),
                all.len() == items@.len(),
                out@ == items_text(all.take(i as int)),
            decreases items@.len() - i,
        {
            proof {
                lemma_items_view(items@);
                assert(all.take(i + 1).drop_last() =~= all.take(i as int));
            }
            let is_message = match items[i].text_at("type") {
                Some(t) => same(t, "message"),
                None => false,
            };
            if is_message {
                if let Some(parts) = items[i].array_at("content") {
                    push_parts(&mut out, parts);
                }
            }
            i += 1;
            assert(out@ =~= items_text(all.take(i as int)));
        }
        assert(all.take(all.len() as int) =~= all);
    } else {
        assert(out@ =~= Seq::empty());
    }
    out
}

/// The text of a reply in the Chat Completions protocol: that of the first choice.
pub open spec fn completion_text(v: JsonView) -> Seq<char> {
    let choice = match v.get("choices"@) {
        Some(c) => c.at(0),
        None => None,
    };
    let message = match choice {
        Some(c) => c.get("message"@),
        None => None,
    };
    let content = match message {
        Some(m) => m.text_at("content"@),
        None => None,
    };
    match content {
        Some(t) => t,
        None => Seq::empty(),
    }
}

/// [`completion_text`].
pub fn extract_completion_text(v: &Json) -> (r: String)
    ensures
        r@ == completion_text(v@),
{
    if let Some(choices) = v.get("choices") {
        if let Some(choice) = choices.at(0) {
            if let Some(message) = choice.get("message") {
                if let Some(t) = message.text_at("content") {
                    return t.to_owned();
                }
            }
        }
    }
    let none = String::new();
    assert(none@ =~= Seq::empty());
    none
}

// ---------- models ----------

/// The ids in a list of models, in the order listed.
pub open spec fn listed_ids(models: Seq<JsonView>) -> Seq<Seq<char>>
    decreases models.len(),
{
    if models.len() == 0 {
        Seq::empty()
    } else {
        match models.last().text_at("id"@) {
            Some(id) => listed_ids(models.drop_last()).push(id),
            None => listed_ids(models.drop_last()),
        }
    }
}

pub open spec fn model_ids(v: JsonView) -> Seq<Seq<char>> {
    match v.array_at("data"@) {
        Some(models) => listed_ids(models),
        None => Seq::empty(),
    }
}

/// The ids of the models in a reply to a request for them, each once and in ascending order.
pub fn list_models(v: &Json) -> (r: Vec<String>)
    ensures
        ascending(views(r@)),
        forall|id: Seq<char>| views(r@).contains(id) <==> model_ids(v@).contains(id),
{
    let mut ids: Vec<String> = Vec::new();
    assert(views(ids@) =~= Seq::empty());
    if let Some(models) = v.array_at("data") {
        let ghost all = items_view(models@);
        let mut i: usize = 0;
        proof {
            lemma_items_view(models@);
            assert(views(ids@) =~= listed_ids(all.take(0)));
        }
        while i < models.len()
            invariant
                i <= models@.len(),
                all == items_view(models@),
                all.len() == models@.len(),
                views(ids@) == listed_ids(all.take(i as int)),
            decreases models@.len() - i,
        {
            proof {
                lemma_items_view(models@);
                assert(all.take(i + 1).drop_last() =~= all.take(i as int));
            }
            let ghost before = ids@;
            if let Some(id) = models[i].text_at("id") {
                let id = id.to_owned();
                ids.push(id);
                assert(views(ids@) =~= views(before).push(id@));
            }
            i += 1;
        }
        assert(all.take(all.len() as int) =~= all);
    }
    sort_unique(&ids)
}

/// Why no list of models could be had.
pub open spec fn models_failure(status: Seq<char>, text: Seq<char>) -> Seq<char> {
    "获取模型列表失败 ["@ + status + "]: "@ + text
}

pub fn models_error(status: &str, text: &str) -> (r: String)
    ensures
        r@ == models_failure(status@, text@),
{
    let mut r = "获取模型列表失败 [".to_owned();
    r.append(status);
    r.append("]: ");
    r.append(text);
    r
}

} // verus!
