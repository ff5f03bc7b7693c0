//! Talking to a language model: messages, request bodies, replies as they stream in, and the
//! choice between the two protocols.
use vstd::prelude::*;
use crate::text::opt_view;

pub mod body;
pub mod protocol;
pub mod reply;
pub mod sse;
pub mod stream;

verus! {

#[derive(Clone, Debug)]
pub struct FunctionCall {
    pub name: String,
    pub arguments: String,
}

/// A call that the model asks for. On the wire `kind` is the field `type`.
#[derive(Clone, Debug)]
pub struct ToolCall {
    pub id: String,
    pub kind: String,
    pub function: FunctionCall,
}

#[verifier::ext_equal]
pub struct CallView {
    pub id: Seq<char>,
    pub kind: Seq<char>,
    pub name: Seq<char>,
    pub arguments: Seq<char>,
}

impl View for ToolCall {
    type V = CallView;

    open spec fn view(&self) -> CallView {
        CallView {
            id: self.id@,
            kind: self.kind@,
            name: self.function.name@,
            arguments: self.function.arguments@,
        }
    }
}

pub open spec fn call_views(calls: Seq<ToolCall>) -> Seq<CallView> {
    calls.map_values(|c: ToolCall| c@)
}

impl ToolCall {
    pub fn duplicate(&self) -> (r: ToolCall)
        ensures
            r@ == self@,
    {
        ToolCall {
            id: self.id.clone(),
            kind: self.kind.clone(),
            function: FunctionCall {
                name: self.function.name.clone(),
                arguments: self.function.arguments.clone(),
            },
        }
    }
}

pub fn copy_calls(calls: &Vec<ToolCall>) -> (r: Vec<ToolCall>)
    ensures
        call_views(r@) == call_views(calls@),
{
    let mut r: Vec<ToolCall> = Vec::new();
    let mut i: usize = 0;
    while i < calls.len()
        invariant
            i <= calls@.len(),
            r@.len() == i,
            forall|k: int| 0 <= k < i ==> (#[trigger] r@[k])@ == calls@[k]@,
        decreases calls@.len() - i,
    {
        r.push(calls[i].duplicate());
        i += 1;
    }
    assert(call_views(r@) =~= call_views(calls@));
    r
}

/// One message of a conversation.
#[derive(Clone, Debug)]
pub struct Message {
    pub role: String,
    pub content: Option<String>,
    pub tool_calls: Option<Vec<ToolCall>>,
    pub tool_call_id: Option<String>,
    pub name: Option<String>,
}

#[verifier::ext_equal]
pub struct MessageView {
    pub role: Seq<char>,
    pub content: Option<Seq<char>>,
    pub tool_calls: Option<Seq<CallView>>,
    pub tool_call_id: Option<Seq<char>>,
    pub name: Option<Seq<char>>,
}

impl View for Message {
    type V = MessageView;

    open spec fn view(&self) -> MessageView {
        MessageView {
            role: self.role@,
            content: opt_view(self.content),
            tool_calls: match self.tool_calls {
                Some(c) => Some(call_views(c@)),
                None => None,
            },
            tool_call_id: opt_view(self.tool_call_id),
            name: opt_view(self.name),
        }
    }
}

pub open spec fn message_views(messages: Seq<Message>) -> Seq<MessageView> {
    messages.map_values(|m: Message| m@)
}

impl MessageView {
    /// A message with a role and text, and nothing else.
    pub open spec fn said(role: Seq<char>, text: Seq<char>) -> MessageView {
        MessageView {
            role,
            content: Some(text),
            tool_calls: None,
            tool_call_id: None,
            name: None,
        }
    }

    /// What a tool gave back for the call `id`.
    pub open spec fn result_of(id: Seq<char>, name: Seq<char>, text: Seq<char>) -> MessageView {
        MessageView {
            role: "tool"@,
            content: Some(text),
            tool_calls: None,
            tool_call_id: Some(id),
            name: Some(name),
        }
    }

    /// The calls that the model asked for.
    pub open spec fn asked(calls: Seq<CallView>) -> MessageView {
        MessageView {
            role: "assistant"@,
            content: None,
            tool_calls: Some(calls),
            tool_call_id: None,
            name: None,
        }
    }
}

fn copy_text(s: &Option<String>) -> (r: Option<String>)
    ensures
        opt_view(r) == opt_view(*s),
{
    match s {
        Some(t) => Some(t.clone()),
        None => None,
    }
}

impl Default for Message {
    fn default() -> (r: Message)
        ensures
            r@.role.len() == 0,
            r@.content is None,
            r@.tool_calls is None,
            r@.tool_call_id is None,
            r@.name is None,
    {
        Message {
            role: String::new(),
            content: None,
            tool_calls: None,
            tool_call_id: None,
            name: None,
        }
    }
}

impl Message {
    fn said(role: &str, text: &str) -> (r: Message)
        ensures
            r@ == MessageView::said(role@, text@),
    {
        Message {
            role: role.to_owned(),
            content: Some(text.to_owned()),
            tool_calls: None,
            tool_call_id: None,
            name: None,
        }
    }

    pub fn system(s: &str) -> (r: Message)
        ensures
            r@ == MessageView::said("system"@, s@),
    {
        Message::said("system", s)
    }

    pub fn user(s: &str) -> (r: Message)
        ensures
            r@ == MessageView::said("user"@, s@),
    {
        Message::said("user", s)
    }

    pub fn assistant(s: &str) -> (r: Message)
        ensures
            r@ == MessageView::said("assistant"@, s@),
    {
        Message::said("assistant", s)
    }

    pub fn tool_result(id: &str, name: &str, content: String) -> (r: Message)
        ensures
            r@ == MessageView::result_of(id@, name@, content@),
    {
        Message {
            role: "tool".to_owned(),
            content: Some(content),
            tool_calls: None,
            tool_call_id: Some(id.to_owned()),
            name: Some(name.to_owned()),
        }
    }

    pub fn asking(calls: Vec<ToolCall>) -> (r: Message)
        ensures
            r@ == MessageView::asked(call_views(calls@)),
    {
        Message {
            role: "assistant".to_owned(),
            content: None,
            tool_calls: Some(calls),
            tool_call_id: None,
            name: None,
        }
    }

    pub fn duplicate(&self) -> (r: Message)
        ensures
            r@ == self@,
    {
        let calls = match &self.tool_calls {
            Some(c) => Some(copy_calls(c)),
            None => None,
        };
        Message {
            role: self.role.clone(),
            content: copy_text(&self.content),
            tool_calls: calls,
            tool_call_id: copy_text(&self.tool_call_id),
            name: copy_text(&self.name),
        }
    }
}

/// What one reply of the model brings, in order.
#[derive(Clone, Debug)]
pub enum Delta {
    /// A piece of text.
    Text(String),
    /// The reply is over and asks for these calls.
    ToolCalls(Vec<ToolCall>),
    /// The reply is over.
    Final,
    /// The reply was cut off by the length limit; it should be continued.
    Truncated,
}

#[verifier::ext_equal]
pub enum DeltaView {
    Text(Seq<char>),
    ToolCalls(Seq<CallView>),
    Final,
    Truncated,
}

impl View for Delta {
    type V = DeltaView;

    open spec fn view(&self) -> DeltaView {
        match self {
            Delta::Text(t) => DeltaView::Text(t@),
            Delta::ToolCalls(calls) => DeltaView::ToolCalls(call_views(calls@)),
            Delta::Final => DeltaView::Final,
            Delta::Truncated => DeltaView::Truncated,
        }
    }
}

pub open spec fn delta_views(deltas: Seq<Delta>) -> Seq<DeltaView> {
    deltas.map_values(|d: Delta| d@)
}

/// Where the model is and how to ask it.
#[derive(Clone, Debug)]
pub struct LlmConfig {
    pub api_base: String,
    pub api_key: String,
    pub model: String,
    /// Whether the first system message is marked for prompt caching.
    pub prompt_cache_control: bool,
}

} // verus!
