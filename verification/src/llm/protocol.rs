//! The choice between the two protocols.
//!
//! The Responses protocol is tried first. An endpoint that does not know it is remembered, and
//! spoken to in Chat Completions from then on.
use vstd::prelude::*;
use crate::json::{items_view, Json, JsonView};
use crate::llm::body::{
    build_chat_completions_body, build_responses_body, completions_body, responses_body,
};
use crate::llm::{message_views, LlmConfig, Message, MessageView};

verus! {

#[derive(Clone, Copy, Debug, PartialEq, Eq, Structural)]
pub enum ApiType {
    ChatCompletions,
    Responses,
}

/// What is known of the endpoint: nothing, or that it needs another protocol than Responses.
#[derive(Clone, Copy, Debug, PartialEq, Eq, Structural)]
pub struct Fallback {
    pub found: Option<ApiType>,
}

pub fn new_fallback() -> (r: Fallback)
    ensures
        r.found is None,
{
    Fallback { found: None }
}

/// Statuses that say that the path, the method or the model is not there: not found, bad request,
/// method not allowed. Trouble with the key, the rate or the server is not among them.
pub open spec fn is_unsupported(status: u16) -> bool {
    status == 404 || status == 400 || status == 405
}

pub fn should_fallback(status: u16) -> (r: bool)
    ensures
        r == is_unsupported(status),
{
    status == 404 || status == 400 || status == 405
}

pub open spec fn is_success(status: u16) -> bool {
    200 <= status < 300
}

/// What to do with an answer.
#[derive(Clone, Copy, Debug, PartialEq, Eq, Structural)]
pub enum Verdict {
    /// The body is the reply.
    Read,
    /// Ask again, in the Chat Completions protocol.
    Retry,
    /// Report the failure.
    Fail,
}

/// The protocol to ask in.
pub open spec fn protocol(known: Fallback) -> ApiType {
    match known.found {
        Some(_) => ApiType::ChatCompletions,
        None => ApiType::Responses,
    }
}

/// What an answer with this status to a request in this protocol means.
pub open spec fn verdict(asked: ApiType, status: u16) -> Verdict {
    if is_success(status) {
        Verdict::Read
    } else if asked == ApiType::Responses && is_unsupported(status) {
        Verdict::Retry
    } else {
        Verdict::Fail
    }
}

/// What is known of the endpoint after the answer.
pub open spec fn learned(known: Fallback, asked: ApiType, status: u16) -> Fallback {
    if verdict(asked, status) == Verdict::Retry {
        Fallback { found: Some(ApiType::ChatCompletions) }
    } else {
        known
    }
}

/// A request: the path below the base address, and the body.
pub struct Request {
    pub api: ApiType,
    pub url: String,
    pub body: Json,
}

pub open spec fn endpoint(base: Seq<char>, api: ApiType) -> Seq<char> {
    base + match api {
        ApiType::ChatCompletions => "/chat/completions"@,
        ApiType::Responses => "/responses"@,
    }
}

pub open spec fn body_for(
    api: ApiType,
    cfg: LlmConfig,
    messages: Seq<MessageView>,
    tools: Seq<JsonView>,
    stream: bool,
) -> JsonView {
    match api {
        ApiType::ChatCompletions => completions_body(
            cfg.model@,
            messages,
            tools,
            cfg.prompt_cache_control,
            stream,
        ),
        ApiType::Responses => responses_body(cfg.model@, messages, tools, stream),
    }
}

/// The request that asks the model to go on from these messages.
pub fn request(
    known: &Fallback,
    cfg: &LlmConfig,
    messages: &Vec<Message>,
    tools: &Vec<Json>,
    stream: bool,
) -> (r: Request)
    ensures
        r.api == protocol(*known),
        r.url@ == endpoint(cfg.api_base@, r.api),
        r.body@ == body_for(
            r.api,
            *cfg,
            message_views(messages@),
            items_view(tools@),
            stream,
        ),
{
    let mut url = cfg.api_base.clone();
    match known.found {
        Some(_) => {
            url.append("/chat/completions");
            let body = build_chat_completions_body(cfg, messages, tools, stream);
            Request { api: ApiType::ChatCompletions, url, body }
        },
        None => {
            url.append("/responses");
            let body = build_responses_body(cfg, messages, tools, stream);
            Request { api: ApiType::Responses, url, body }
        },
    }
}

impl Fallback {
    /// Takes in the status of an answer, and says what to do with it.
    pub fn on_status(&mut self, asked: ApiType, status: u16) -> (r: Verdict)
        ensures
            r == verdict(asked, status),
            *final(self) == learned(*old(self), asked, status),
    {
        if 200 <= status && status < 300 {
            return Verdict::Read;
        }
        match asked {
            ApiType::Responses => {
                if should_fallback(status) {
                    self.found = Some(ApiType::ChatCompletions);
                    return Verdict::Retry;
                }
            },
            ApiType::ChatCompletions => {},
        }
        Verdict::Fail
    }
}

pub open spec fn request_failure(stream: bool, status: Seq<char>, text: Seq<char>) -> Seq<char> {
    (if stream {
        "LLM 流式请求失败 ["@
    } else {
        "LLM 非流式请求失败 ["@
    }) + status + "]: "@ + text
}

/// The report of an answer that failed.
pub fn request_error(stream: bool, status: &str, text: &str) -> (r: String)
    ensures
        r@ == request_failure(stream, status@, text@),
{
    let mut r = if stream {
        "LLM 流式请求失败 [".to_owned()
    } else {
        "LLM 非流式请求失败 [".to_owned()
    };
    r.append(status);
    r.append("]: ");
    r.append(text);
    r
}

// ---------- laws ----------

/// An endpoint that once turned out not to know Responses is never asked in it again, whatever
/// answers come.
pub proof fn fallback_is_remembered(known: Fallback, asked: ApiType, status: u16, later: u16)
    ensures
        verdict(asked, status) == Verdict::Retry ==> protocol(learned(known, asked, status))
            == ApiType::ChatCompletions,
        protocol(known) == ApiType::ChatCompletions ==> protocol(learned(known, asked, later))
            == ApiType::ChatCompletions,
{
}

/// A request is sent again at most once: what answers the second one is read or reported.
pub proof fn at_most_one_retry(known: Fallback, status: u16, second: u16)
    requires
        verdict(protocol(known), status) == Verdict::Retry,
    ensures
        verdict(protocol(learned(known, protocol(known), status)), second) != Verdict::Retry,
{
}

/// An answer that Responses gives, good or bad, is learned nothing from, unless it says that the
/// endpoint does not support it.
pub proof fn other_failures_keep_the_protocol(known: Fallback, asked: ApiType, status: u16)
    requires
        !is_unsupported(status),
    ensures
        learned(known, asked, status) == known,
{
}

} // verus!
