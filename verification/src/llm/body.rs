//! The bodies of requests to the model.
use vstd::prelude::*;
use crate::json::{items_view, Json, JsonView};
use crate::llm::stream::or_empty;
use crate::llm::{
    call_views, message_views, CallView, LlmConfig, Message, MessageView, ToolCall,
};
use crate::text::same;

verus! {

pub open spec fn str_json(s: Seq<char>) -> JsonView {
    JsonView::Str(s)
}

pub proof fn lemma_items_push(items: Seq<Json>, j: Json)
    ensures
        items_view(items.push(j)) == items_view(items).push(j@),
{
    assert(items.push(j).drop_last() =~= items);
}

/// A copy of JSON values.
pub fn copy_items(items: &Vec<Json>) -> (r: Vec<Json>)
    ensures
        items_view(r@) == items_view(items@),
{
    let mut r: Vec<Json> = Vec::new();
    let mut i: usize = 0;
    while i < items.len()
        invariant
            i <= items@.len(),
            items_view(r@) == items_view(items@.take(i as int)),
        decreases items@.len() - i,
    {
        let item = items[i].duplicate();
        proof {
            lemma_items_push(r@, item);
            assert(items@.take(i + 1).drop_last() =~= items@.take(i as int));
        }
        r.push(item);
        i += 1;
    }
    assert(items@.take(items@.len() as int) =~= items@);
    r
}

// ---------- tools ----------

/// What the model is told of a tool.
pub struct ToolInfo {
    pub name: String,
    pub description: String,
    pub parameters: Json,
}

#[verifier::ext_equal]
pub struct ToolView {
    pub name: Seq<char>,
    pub description: Seq<char>,
    pub parameters: JsonView,
}

impl View for ToolInfo {
    type V = ToolView;

    open spec fn view(&self) -> ToolView {
        ToolView {
            name: self.name@,
            description: self.description@,
            parameters: self.parameters@,
        }
    }
}

impl ToolInfo {
    pub fn duplicate(&self) -> (r: ToolInfo)
        ensures
            r@ == self@,
    {
        ToolInfo {
            name: self.name.clone(),
            description: self.description.clone(),
            parameters: self.parameters.duplicate(),
        }
    }
}

pub open spec fn tool_schema(t: ToolInfo) -> JsonView {
    JsonView::Object(
        map![
            "type"@ => str_json("function"@),
            "function"@ => JsonView::Object(map![
                "name"@ => str_json(t.name@),
                "description"@ => str_json(t.description@),
                "parameters"@ => t.parameters@,
            ]),
        ],
    )
}

pub open spec fn tools_schema(tools: Seq<ToolInfo>) -> Seq<JsonView> {
    tools.map_values(|t: ToolInfo| tool_schema(t))
}

/// The tools as a request lists them, in the order given.
pub fn build_tools_schema(tools: &Vec<ToolInfo>) -> (r: Vec<Json>)
    ensures
        items_view(r@) == tools_schema(tools@),
{
    let mut r: Vec<Json> = Vec::new();
    let mut i: usize = 0;
    assert(items_view(r@) =~= tools_schema(tools@.take(0)));
    while i < tools.len()
        invariant
            i <= tools@.len(),
            items_view(r@) == tools_schema(tools@.take(i as int)),
        decreases tools@.len() - i,
    {
        let t = &tools[i];
        let function = Json::object().with("name", Json::text(t.name.as_str())).with(
            "description",
            Json::text(t.description.as_str()),
        ).with("parameters", t.parameters.duplicate());
        let item = Json::object().with("type", Json::text("function")).with("function", function);
        proof {
            lemma_items_push(r@, item);
            assert(item@ == tool_schema(*t));
            assert(tools_schema(tools@.take(i + 1)) =~= tools_schema(tools@.take(i as int)).push(
                tool_schema(*t),
            ));
        }
        r.push(item);
        i += 1;
    }
    assert(tools@.take(tools@.len() as int) =~= tools@);
    r
}

// ---------- Chat Completions ----------

pub open spec fn call_json(c: CallView) -> JsonView {
    JsonView::Object(
        map![
            "id"@ => str_json(c.id),
            "type"@ => str_json(c.kind),
            "function"@ => JsonView::Object(map![
                "name"@ => str_json(c.name),
                "arguments"@ => str_json(c.arguments),
            ]),
        ],
    )
}

pub open spec fn calls_json(calls: Seq<CallView>) -> Seq<JsonView> {
    calls.map_values(|c: CallView| call_json(c))
}

/// The fields of a message. What it does not have is left out.
pub open spec fn message_fields(m: MessageView) -> Map<Seq<char>, JsonView> {
    let f0 = map!["role"@ => str_json(m.role)];
    let f1 = match m.content {
        Some(c) => f0.insert("content"@, str_json(c)),
        None => f0,
    };
    let f2 = match m.tool_calls {
        Some(c) => f1.insert("tool_calls"@, JsonView::Array(calls_json(c))),
        None => f1,
    };
    let f3 = match m.tool_call_id {
        Some(c) => f2.insert("tool_call_id"@, str_json(c)),
        None => f2,
    };
    match m.name {
        Some(c) => f3.insert("name"@, str_json(c)),
        None => f3,
    }
}

pub open spec fn message_json(m: MessageView) -> JsonView {
    JsonView::Object(message_fields(m))
}

/// A message that asks for what stands before it to be cached.
pub open spec fn cached_message_json(m: MessageView) -> JsonView {
    JsonView::Object(
        message_fields(m).insert(
            "cache_control"@,
            JsonView::Object(map!["type"@ => str_json("ephemeral"@)]),
        ),
    )
}

/// The messages; with `cached`, a system message at the start is marked for caching.
pub open spec fn messages_json(messages: Seq<MessageView>, cached: bool) -> Seq<JsonView> {
    Seq::new(
        messages.len(),
        |i: int|
            if cached && i == 0 && messages[i].role == "system"@ {
                cached_message_json(messages[i])
            } else {
                message_json(messages[i])
            },
    )
}

pub open spec fn completions_body(
    model: Seq<char>,
    messages: Seq<MessageView>,
    tools: Seq<JsonView>,
    cached: bool,
    stream: bool,
) -> JsonView {
    let body = map![
        "model"@ => str_json(model),
        "messages"@ => JsonView::Array(messages_json(messages, cached)),
        "tools"@ => JsonView::Array(tools),
        "stream"@ => JsonView::Bool(stream),
    ];
    JsonView::Object(
        if stream {
            body.insert(
                "stream_options"@,
                JsonView::Object(map!["include_usage"@ => JsonView::Bool(false)]),
            )
        } else {
            body
        },
    )
}

fn calls_to_json(calls: &Vec<ToolCall>) -> (r: Json)
    ensures
        r@ == JsonView::Array(calls_json(call_views(calls@))),
{
    let ghost all = call_views(calls@);
    let mut items: Vec<Json> = Vec::new();
    let mut i: usize = 0;
    assert(items_view(items@) =~= calls_json(all.take(0)));
    while i < calls.len()
        invariant
            i <= calls@.len(),
            all == call_views(calls@),
            items_view(items@) == calls_json(all.take(i as int)),
        decreases calls@.len() - i,
    {
        let c = &calls[i];
        let function = Json::object().with("name", Json::text(c.function.name.as_str())).with(
            "arguments",
            Json::text(c.function.arguments.as_str()),
        );
        let item = Json::object().with("id", Json::text(c.id.as_str())).with(
            "type",
            Json::text(c.kind.as_str()),
        ).with("function", function);
        proof {
            lemma_items_push(items@, item);
            assert(all[i as int] == c@);
            assert(item@ == call_json(c@));
            assert(calls_json(all.take(i + 1)) =~= calls_json(all.take(i as int)).push(call_json(c@)));
        }
        items.push(item);
        i += 1;
    }
    assert(all.take(all.len() as int) =~= all);
    Json::Array(items)
}

/// A message as the Chat Completions protocol writes it.
pub fn message_to_json(m: &Message) -> (r: Json)
    ensures
        r@ == message_json(m@),
{
    let mut r = Json::object().with("role", Json::text(m.role.as_str()));
    if let Some(c) = &m.content {
        r = r.with("content", Json::text(c.as_str()));
    }
    if let Some(c) = &m.tool_calls {
        r = r.with("tool_calls", calls_to_json(c));
    }
    if let Some(c) = &m.tool_call_id {
        r = r.with("tool_call_id", Json::text(c.as_str()));
    }
    if let Some(c) = &m.name {
        r = r.with("name", Json::text(c.as_str()));
    }
    r
}

fn messages_to_json(messages: &Vec<Message>, cached: bool) -> (r: Vec<Json>)
    ensures
        items_view(r@) == messages_json(message_views(messages@), cached),
{
    let ghost all = message_views(messages@);
    let mut r: Vec<Json> = Vec::new();
    let mut i: usize = 0;
    assert(items_view(r@) =~= messages_json(all.take(0), cached));
    while i < messages.len()
        invariant
            i <= messages@.len(),
            all == message_views(messages@),
            items_view(r@) == messages_json(all.take(i as int), cached),
        decreases messages@.len() - i,
    {
        let m = &messages[i];
        let mut item = message_to_json(m);
        if cached && i == 0 && same(m.role.as_str(), "system") {
            item = item.with(
                "cache_control",
                Json::object().with("type", Json::text("ephemeral")),
            );
        }
        proof {
            lemma_items_push(r@, item);
            assert(all[i as int] == m@);
            assert(messages_json(all.take(i + 1), cached) =~= messages_json(
                all.take(i as int),
                cached,
            ).push(item@));
        }
        r.push(item);
        i += 1;
    }
    assert(all.take(all.len() as int) =~= all);
    r
}

/// The messages as a JSON array, a system message at the start marked for caching.
pub fn annotate_system_cache_control(messages: &Vec<Message>) -> (r: Json)
    ensures
        r@ == JsonView::Array(messages_json(message_views(messages@), true)),
{
    Json::Array(messages_to_json(messages, true))
}

/// The body of a Chat Completions request.
pub fn build_chat_completions_body(
    cfg: &LlmConfig,
    messages: &Vec<Message>,
    tools: &Vec<Json>,
    stream: bool,
) -> (r: Json)
    ensures
        r@ == completions_body(
            cfg.model@,
            message_views(messages@),
            items_view(tools@),
            cfg.prompt_cache_control,
            stream,
        ),
{
    let messages_value = if cfg.prompt_cache_control {
        annotate_system_cache_control(messages)
    } else {
        Json::Array(messages_to_json(messages, false))
    };
    let body = Json::object().with("model", Json::text(cfg.model.as_str())).with(
        "messages",
        messages_value,
    ).with("tools", Json::Array(copy_items(tools))).with("stream", Json::Bool(stream));
    if stream {
        body.with("stream_options", Json::object().with("include_usage", Json::Bool(false)))
    } else {
        body
    }
}

// ---------- Responses ----------

pub open spec fn text_part(kind: Seq<char>, text: Seq<char>) -> JsonView {
    JsonView::Object(map!["type"@ => str_json(kind), "text"@ => str_json(text)])
}

pub open spec fn content_parts(m: MessageView) -> Seq<JsonView> {
    seq![
        text_part(
            if m.role == "assistant"@ {
                "output_text"@
            } else {
                "input_text"@
            },
            or_empty(m.content),
        ),
    ]
}

pub open spec fn message_item(role: Seq<char>, parts: Seq<JsonView>) -> JsonView {
    JsonView::Object(
        map![
            "type"@ => str_json("message"@),
            "role"@ => str_json(role),
            "content"@ => JsonView::Array(parts),
        ],
    )
}

pub open spec fn call_item(c: CallView) -> JsonView {
    JsonView::Object(
        map![
            "type"@ => str_json("function_call"@),
            "call_id"@ => str_json(c.id),
            "name"@ => str_json(c.name),
            "arguments"@ => str_json(c.arguments),
        ],
    )
}

pub open spec fn output_item(m: MessageView) -> JsonView {
    JsonView::Object(
        map![
            "type"@ => str_json("function_call_output"@),
            "call_id"@ => str_json(or_empty(m.tool_call_id)),
            "output"@ => str_json(or_empty(m.content)),
        ],
    )
}

/// The input items of one message: what a tool gave back is an output item, the calls of the
/// assistant are an item each behind its text, anything else is a message.
pub open spec fn input_items(m: MessageView) -> Seq<JsonView> {
    if m.role == "assistant"@ {
        let said = match m.content {
            Some(c) => if c.len() > 0 {
                seq![message_item("assistant"@, content_parts(m))]
            } else {
                Seq::empty()
            },
            None => Seq::empty(),
        };
        said + match m.tool_calls {
            Some(calls) => calls.map_values(|c: CallView| call_item(c)),
            None => Seq::empty(),
        }
    } else if m.role == "tool"@ {
        seq![output_item(m)]
    } else {
        seq![message_item(m.role, content_parts(m))]
    }
}

pub open spec fn input_of(messages: Seq<MessageView>) -> Seq<JsonView>
    decreases messages.len(),
{
    if messages.len() == 0 {
        Seq::empty()
    } else {
        input_of(messages.drop_last()) + input_items(messages.last())
    }
}

/// The body of a Responses request. An empty list of tools is left out.
pub open spec fn responses_body(
    model: Seq<char>,
    messages: Seq<MessageView>,
    tools: Seq<JsonView>,
    stream: bool,
) -> JsonView {
    let body = map![
        "model"@ => str_json(model),
        "input"@ => JsonView::Array(input_of(messages)),
        "stream"@ => JsonView::Bool(stream),
    ];
    JsonView::Object(
        if tools.len() > 0 {
            body.insert("tools"@, JsonView::Array(tools))
        } else {
            body
        },
    )
}

/// The text of a message as content parts.
pub fn message_content_parts(m: &Message) -> (r: Vec<Json>)
    ensures
        items_view(r@) == content_parts(m@),
{
    let text = match &m.content {
        Some(c) => c.as_str(),
        None => "",
    };
    let kind = if same(m.role.as_str(), "assistant") {
        "output_text"
    } else {
        "input_text"
    };
    let mut r: Vec<Json> = Vec::new();
    let part = Json::object().with("type", Json::text(kind)).with("text", Json::text(text));
    proof {
        lemma_items_push(r@, part);
    }
    r.push(part);
    assert(items_view(r@) =~= content_parts(m@));
    r
}

fn message_to_item(role: &str, parts: Vec<Json>) -> (r: Json)
    ensures
        r@ == message_item(role@, items_view(parts@)),
{
    Json::object().with("type", Json::text("message")).with("role", Json::text(role)).with(
        "content",
        Json::Array(parts),
    )
}

fn push_calls(input: &mut Vec<Json>, calls: &Vec<ToolCall>)
    ensures
        items_view(final(input)@) == items_view(old(input)@) + call_views(calls@).map_values(
            |c: CallView| call_item(c),
        ),
{
    let ghost before = items_view(input@);
    let ghost added = call_views(calls@).map_values(|c: CallView| call_item(c));
    let mut i: usize = 0;
    assert(before + added.take(0) =~= before);
    while i < calls.len()
        invariant
            i <= calls@.len(),
            added == call_views(calls@).map_values(|c: CallView| call_item(c)),
            items_view(input@) == before + added.take(i as int),
        decreases calls@.len() - i,
    {
        let c = &calls[i];
        let item = Json::object().with("type", Json::text("function_call")).with(
            "call_id",
            Json::text(c.id.as_str()),
        ).with("name", Json::text(c.function.name.as_str())).with(
            "arguments",
            Json::text(c.function.arguments.as_str()),
        );
        proof {
            lemma_items_push(input@, item);
            assert(item@ == call_item(c@));
            assert(call_views(calls@)[i as int] == c@);
            assert(added[i as int] == item@);
            assert((before + added.take(i as int)).push(item@) =~= before + added.take(i + 1));
        }
        input.push(item);
        i += 1;
    }
    assert(added.take(added.len() as int) =~= added);
}

fn push_input(input: &mut Vec<Json>, m: &Message)
    ensures
        items_view(final(input)@) == items_view(old(input)@) + input_items(m@),
{
    let ghost before = items_view(input@);
    if same(m.role.as_str(), "assistant") {
        if let Some(c) = &m.content {
            if !c.as_str().is_empty() {
                let item = message_to_item("assistant", message_content_parts(m));
                proof {
                    lemma_items_push(input@, item);
                }
                input.push(item);
            }
        }
        if let Some(calls) = &m.tool_calls {
            push_calls(input, calls);
        }
    } else if same(m.role.as_str(), "tool") {
        let id = match &m.tool_call_id {
            Some(c) => c.as_str(),
            None => "",
        };
        let output = match &m.content {
            Some(c) => c.as_str(),
            None => "",
        };
        let item = Json::object().with("type", Json::text("function_call_output")).with(
            "call_id",
            Json::text(id),
        ).with("output", Json::text(output));
        proof {
            lemma_items_push(input@, item);
        }
        input.push(item);
    } else {
        let item = message_to_item(m.role.as_str(), message_content_parts(m));
        proof {
            lemma_items_push(input@, item);
        }
        input.push(item);
    }
    assert(items_view(input@) =~= before + input_items(m@));
}

/// The body of a Responses request.
pub fn build_responses_body(
    cfg: &LlmConfig,
    messages: &Vec<Message>,
    tools: &Vec<Json>,
    stream: bool,
) -> (r: Json)
    ensures
        r@ == responses_body(
            cfg.model@,
            message_views(messages@),
            items_view(tools@),
            stream,
        ),
{
    let ghost all = message_views(messages@);
    let mut input: Vec<Json> = Vec::new();
    let mut i: usize = 0;
    assert(items_view(input@) =~= input_of(all.take(0)));
    while i < messages.len()
        invariant
            i <= messages@.len(),
            all == message_views(messages@),
            items_view(input@) == input_of(all.take(i as int)),
        decreases messages@.len() - i,
    {
        assert(all.take(i + 1).drop_last() =~= all.take(i as int));
        assert(all[i as int] == messages@[i as int]@);
        push_input(&mut input, &messages[i]);
        i += 1;
    }
    assert(all.take(all.len() as int) =~= all);
    let body = Json::object().with("model", Json::text(cfg.model.as_str())).with(
        "input",
        Json::Array(input),
    ).with("stream", Json::Bool(stream));
    proof {
        crate::json::lemma_items_view(tools@);
    }
    if tools.len() > 0 {
        body.with("tools", Json::Array(copy_items(tools)))
    } else {
        body
    }
}

/// Messages added to a conversation leave the items of what was said before unchanged, and in
/// front.
pub proof fn earlier_items_stay(before: Seq<MessageView>, added: Seq<MessageView>)
    ensures
        input_of(before + added) == input_of(before) + input_of(added),
    decreases added.len(),
{
    if added.len() == 0 {
        assert(before + added =~= before);
        assert(input_of(before) + Seq::<JsonView>::empty() =~= input_of(before));
    } else {
        assert((before + added).drop_last() =~= before + added.drop_last());
        earlier_items_stay(before, added.drop_last());
        assert(input_of(before + added) =~= input_of(before) + input_of(added));
    }
}

} // verus!
