//! Tools of other servers, over the Model Context Protocol: what is asked, and how answers are
//! read.
use vstd::prelude::*;
use vstd::utf8::valid_utf8;
use crate::json::{json_render, json_text, Json, JsonView, NumberView};
use crate::config::McpServerConfig;
use crate::llm::body::{str_json, ToolInfo, ToolView};
use crate::llm::stream::{
    chunk_text, lemma_chunk_add, lemma_find_extend, lemma_find_skip, text_of_chunk,
};
use crate::text::{
    after_prefix, ascii_lower, chars_of, contains, find, find_chars, has_part, join, joined,
    lemma_find_from, nat_text, opt_view, same, string_of, strip_prefix, to_lower, trim_end_by,
    trim_end_matches, u64_text, views, CharClass,
};
use crate::tools::{
    lemma_names_differ, lemma_tool_at, names_differ, register, tool_at, tool_views, with_tool,
};

verus! {

pub const PROTOCOL_VERSION: &'static str = "2025-06-18";

/// A tool that a server offers.
pub struct RemoteTool {
    pub name: String,
    pub description: String,
    /// The JSON schema of its arguments.
    pub input_schema: Json,
}

// ---------- what is asked ----------

pub open spec fn request_body(id: u64, method: Seq<char>, params: JsonView) -> JsonView {
    JsonView::Object(
        map![
            "jsonrpc"@ => str_json("2.0"@),
            "id"@ => JsonView::Number(NumberView::Unsigned(id)),
            "method"@ => str_json(method),
            "params"@ => params,
        ],
    )
}

pub open spec fn notify_body(method: Seq<char>, params: JsonView) -> JsonView {
    JsonView::Object(
        map![
            "jsonrpc"@ => str_json("2.0"@),
            "method"@ => str_json(method),
            "params"@ => params,
        ],
    )
}

/// The parameters with which a session is opened.
pub open spec fn initialize_params() -> JsonView {
    JsonView::Object(
        map![
            "protocolVersion"@ => str_json(PROTOCOL_VERSION@),
            "capabilities"@ => JsonView::Object(Map::empty()),
            "clientInfo"@ => JsonView::Object(map![
                "name"@ => str_json("applepi"@),
                "version"@ => str_json("0.1.0"@),
            ]),
        ],
    )
}

pub open spec fn call_params(name: Seq<char>, arguments: JsonView) -> JsonView {
    JsonView::Object(map!["name"@ => str_json(name), "arguments"@ => arguments])
}

/// A client of one server: where it is, what goes with each request, the session the server gave,
/// and the number of the next request.
pub struct McpClient {
    pub url: String,
    pub headers: Vec<(String, String)>,
    pub session_id: Option<String>,
    pub next_id: u64,
}

pub open spec fn header_views(headers: Seq<(String, String)>) -> Seq<(Seq<char>, Seq<char>)> {
    headers.map_values(|h: (String, String)| (h.0@, h.1@))
}

/// The headers of a request: what can be read and what is sent, those of the configuration, and
/// the session where there is one.
pub open spec fn sent_headers(own: Seq<(Seq<char>, Seq<char>)>, session: Option<Seq<char>>) -> Seq<
    (Seq<char>, Seq<char>),
> {
    seq![
        ("Accept"@, "application/json, text/event-stream"@),
        ("Content-Type"@, "application/json"@),
    ] + own + match session {
        Some(s) => seq![("Mcp-Session-Id"@, s)],
        None => Seq::empty(),
    }
}

/// The number of the request after request `n`.
pub open spec fn next_number(n: u64) -> u64 {
    if n == u64::MAX {
        0
    } else {
        (n + 1) as u64
    }
}

impl McpClient {
    pub fn new(url: String, headers: Vec<(String, String)>) -> (r: McpClient)
        ensures
            r.url == url,
            r.headers == headers,
            r.session_id is None,
            r.next_id == 1,
    {
        McpClient { url, headers, session_id: None, next_id: 1 }
    }

    /// Makes a request, and gives its number.
    pub fn request(&mut self, method: &str, params: Json) -> (r: (u64, Json))
        ensures
            r.0 == old(self).next_id,
            r.1@ == request_body(r.0, method@, params@),
            final(self).next_id == next_number(old(self).next_id),
            final(self).url == old(self).url,
            final(self).headers == old(self).headers,
            final(self).session_id == old(self).session_id,
    {
        let id: u64 = self.next_id;
        self.next_id = id.wrapping_add(1);
        let body = Json::object().with("jsonrpc", Json::text("2.0")).with("id", Json::unsigned(id)).with(
            "method",
            Json::text(method),
        ).with("params", params);
        (id, body)
    }

    /// Makes a notification, which has no number and is not answered.
    pub fn notify(&self, method: &str, params: Json) -> (r: Json)
        ensures
            r@ == notify_body(method@, params@),
    {
        Json::object().with("jsonrpc", Json::text("2.0")).with("method", Json::text(method)).with(
            "params",
            params,
        )
    }

    /// The request that opens a session.
    pub fn initialize(&mut self) -> (r: (u64, Json))
        ensures
            r.0 == old(self).next_id,
            r.1@ == request_body(r.0, "initialize"@, initialize_params()),
            final(self).next_id == next_number(old(self).next_id),
            final(self).session_id == old(self).session_id,
            final(self).headers == old(self).headers,
            final(self).url == old(self).url,
    {
        let info = Json::object().with("name", Json::text("applepi")).with(
            "version",
            Json::text("0.1.0"),
        );
        let params = Json::object().with("protocolVersion", Json::text(PROTOCOL_VERSION)).with(
            "capabilities",
            Json::object(),
        ).with("clientInfo", info);
        self.request("initialize", params)
    }

    /// What is sent once the session is open.
    pub fn initialized(&self) -> (r: Json)
        ensures
            r@ == notify_body("notifications/initialized"@, JsonView::Object(Map::empty())),
    {
        self.notify("notifications/initialized", Json::object())
    }

    /// The request for the tools of the server.
    pub fn list_tools(&mut self) -> (r: (u64, Json))
        ensures
            r.0 == old(self).next_id,
            r.1@ == request_body(r.0, "tools/list"@, JsonView::Object(Map::empty())),
            final(self).next_id == next_number(old(self).next_id),
            final(self).session_id == old(self).session_id,
            final(self).headers == old(self).headers,
            final(self).url == old(self).url,
    {
        self.request("tools/list", Json::object())
    }

    /// The request that runs a tool.
    pub fn call_tool(&mut self, name: &str, arguments: Json) -> (r: (u64, Json))
        ensures
            r.0 == old(self).next_id,
            r.1@ == request_body(r.0, "tools/call"@, call_params(name@, arguments@)),
            final(self).next_id == next_number(old(self).next_id),
            final(self).session_id == old(self).session_id,
            final(self).headers == old(self).headers,
            final(self).url == old(self).url,
    {
        let params = Json::object().with("name", Json::text(name)).with("arguments", arguments);
        self.request("tools/call", params)
    }

    /// [`sent_headers`].
    pub fn request_headers(&self) -> (r: Vec<(String, String)>)
        ensures
            header_views(r@) == sent_headers(header_views(self.headers@), opt_view(self.session_id)),
    {
        let mut r: Vec<(String, String)> = Vec::new();
        r.push(("Accept".to_owned(), "application/json, text/event-stream".to_owned()));
        r.push(("Content-Type".to_owned(), "application/json".to_owned()));
        let ghost own = header_views(self.headers@);
        let ghost first = header_views(r@);
        let mut i: usize = 0;
        assert(first =~= seq![
            ("Accept"@, "application/json, text/event-stream"@),
            ("Content-Type"@, "application/json"@),
        ]);
        assert(header_views(r@) =~= first + own.take(0));
        while i < self.headers.len()
            invariant
                i <= self.headers@.len(),
                own == header_views(self.headers@),
                header_views(r@) == first + own.take(i as int),
            decreases self.headers@.len() - i,
        {
            let ghost before = r@;
            let h = (self.headers[i].0.clone(), self.headers[i].1.clone());
            r.push(h);
            assert(own[i as int] == (h.0@, h.1@));
            assert(header_views(r@) =~= header_views(before).push((h.0@, h.1@)));
            i += 1;
            assert(header_views(r@) =~= first + own.take(i as int));
        }
        assert(own.take(own.len() as int) =~= own);
        let ghost before = r@;
        if let Some(s) = &self.session_id {
            let h = ("Mcp-Session-Id".to_owned(), s.clone());
            r.push(h);
            assert(header_views(r@) =~= header_views(before).push((h.0@, h.1@)));
        }
        assert(header_views(r@) =~= sent_headers(own, opt_view(self.session_id)));
        r
    }

    /// Takes in the session that an answer names. One that names none leaves it as it is.
    pub fn note_session(&mut self, session: Option<&str>)
        ensures
            opt_view(final(self).session_id) == match session {
                Some(s) => Some(s@),
                None => opt_view(old(self).session_id),
            },
            final(self).url == old(self).url,
            final(self).headers == old(self).headers,
            final(self).next_id == old(self).next_id,
    {
        if let Some(s) = session {
            self.session_id = Some(s.to_owned());
        }
    }
}

// ---------- how answers are read ----------

/// Whether an answer of this content type comes as a stream of events. The type is ASCII text.
pub fn is_event_stream(content_type: &str) -> (r: bool)
    ensures
        r == contains(ascii_lower(content_type@), "text/event-stream"@),
{
    has_part(to_lower(content_type).as_str(), "text/event-stream")
}

/// What has been read of a stream: the data of the event being read, and the answer once it is
/// there.
#[verifier::ext_equal]
pub struct ReaderView {
    pub data: Seq<char>,
    pub found: Option<JsonView>,
}

/// The message in the data of an event, where it answers the request `target`.
pub open spec fn answer_in(data: Seq<char>, target: u64) -> Option<JsonView> {
    match json_text(data) {
        Some(v) => if v.uint_at("id"@) == Some(target) {
            Some(v)
        } else {
            None
        },
        None => None,
    }
}

/// A `data:` line may have one space behind the colon.
pub open spec fn data_of(rest: Seq<char>) -> Seq<char> {
    match after_prefix(rest, " "@) {
        Some(d) => d,
        None => rest,
    }
}

/// What one line does: an empty line ends an event, a `data:` line adds to it, any other line is
/// passed over.
pub open spec fn on_line(st: ReaderView, target: u64, line: Seq<char>) -> ReaderView {
    let t = trim_end_by(line, CharClass::LineEnd);
    if t.len() == 0 {
        if st.data.len() == 0 {
            st
        } else {
            match answer_in(st.data, target) {
                Some(v) => ReaderView { found: Some(v), ..st },
                None => ReaderView { data: ""@, ..st },
            }
        }
    } else {
        match after_prefix(t, "data:"@) {
            Some(rest) => ReaderView {
                data: if st.data.len() == 0 {
                    data_of(rest)
                } else {
                    st.data + "\n"@ + data_of(rest)
                },
                ..st
            },
            None => st,
        }
    }
}

/// Reading on in `buf`, line by line, until the answer is there or no whole line is left.
pub open spec fn read_lines(st: ReaderView, target: u64, buf: Seq<char>) -> (ReaderView, Seq<char>)
    decreases buf.len(),
{
    if st.found is Some {
        (st, buf)
    } else {
        match find(buf, "\n"@) {
            Some(i) => if 0 <= i < buf.len() {
                read_lines(on_line(st, target, buf.take(i + 1)), target, buf.skip(i + 1))
            } else {
                (st, buf)
            },
            None => (st, buf),
        }
    }
}

/// What a chunk of bytes does. Once the answer is there, nothing more is read.
pub open spec fn fed(st: ReaderView, target: u64, buf: Seq<char>, bytes: Seq<u8>) -> (
    ReaderView,
    Seq<char>,
) {
    if st.found is Some {
        (st, buf)
    } else {
        read_lines(st, target, buf + chunk_text(bytes))
    }
}

/// Reads a stream of events for the answer to one request.
pub struct AnswerReader {
    pub target: u64,
    pub buf: String,
    pub data: String,
    pub found: Option<Json>,
}

pub open spec fn opt_json(j: Option<Json>) -> Option<JsonView> {
    match j {
        Some(j) => Some(j@),
        None => None,
    }
}

impl View for AnswerReader {
    type V = ReaderView;

    open spec fn view(&self) -> ReaderView {
        ReaderView { data: self.data@, found: opt_json(self.found) }
    }
}

pub open spec fn not_found(target: u64) -> Seq<char> {
    "SSE 流结束，未找到 id="@ + nat_text(target as nat) + " 的响应"@
}

/// The message, where it answers the request `target`.
pub fn as_answer(v: Json, target: u64) -> (r: Option<Json>)
    ensures
        opt_json(r) == if v@.uint_at("id"@) == Some(target) {
            Some(v@)
        } else {
            None
        },
{
    match v.u64_at("id") {
        Some(id) => if id == target {
            Some(v)
        } else {
            None
        },
        None => None,
    }
}

fn read_answer(data: &str, target: u64) -> (r: Option<Json>)
    ensures
        opt_json(r) == answer_in(data@, target),
{
    match Json::parse(data) {
        Some(v) => as_answer(v, target),
        None => None,
    }
}

impl AnswerReader {
    pub fn new(target: u64) -> (r: AnswerReader)
        ensures
            r.target == target,
            r.buf@.len() == 0,
            r@ == (ReaderView { data: ""@, found: None }),
    {
        AnswerReader { target, buf: String::new(), data: "".to_owned(), found: None }
    }

    fn take_line(&mut self, line: &str)
        requires
            old(self).found is None,
        ensures
            final(self)@ == on_line(old(self)@, old(self).target, line@),
            final(self).target == old(self).target,
            final(self).buf == old(self).buf,
    {
        let t = trim_end_matches(line, CharClass::LineEnd);
        if t.as_str().is_empty() {
            if !self.data.as_str().is_empty() {
                match read_answer(self.data.as_str(), self.target) {
                    Some(v) => {
                        self.found = Some(v);
                    },
                    None => {
                        self.data = "".to_owned();
                    },
                }
            }
            return;
        }
        if let Some(rest) = strip_prefix(t.as_str(), "data:") {
            let d = match strip_prefix(rest.as_str(), " ") {
                Some(d) => d,
                None => rest,
            };
            if self.data.as_str().is_empty() {
                self.data = d;
            } else {
                self.data.append("\n");
                self.data.append(d.as_str());
            }
        }
    }

    /// Takes in one chunk of bytes.
    pub fn feed(&mut self, bytes: &[u8])
        ensures
            (final(self)@, final(self).buf@) == fed(
                old(self)@,
                old(self).target,
                old(self).buf@,
                bytes@,
            ),
            final(self).target == old(self).target,
    {
        if self.found.is_some() {
            return;
        }
        let text = text_of_chunk(bytes);
        self.buf.append(text.as_str());
        let v = chars_of(self.buf.as_str());
        let newline = chars_of("\n");
        let n: usize = v.len();
        let mut from: usize = 0;
        let ghost goal = read_lines(self@, self.target, v@);
        let ghost target = self.target;
        proof {
            reveal_strlit("\n");
            assert(v@.skip(0) =~= v@);
        }
        while self.found.is_none()
            invariant
                from <= n,
                n == v@.len(),
                newline@ == "\n"@,
                "\n"@.len() == 1,
                self.target == target,
                goal == read_lines(self@, target, v@.skip(from as int)),
            ensures
                read_lines(self@, target, v@.skip(from as int)) == (self@, v@.skip(from as int)),
            decreases n - from,
        {
            let ghost buf = v@.skip(from as int);
            proof {
                lemma_find_skip(v@, "\n"@, from as int);
            }
            match find_chars(&v, &newline, from) {
                Some(i) => {
                    let line = string_of(&v, from, i + 1);
                    assert(line@ =~= buf.take(i - from + 1));
                    assert(v@.skip(i + 1) =~= buf.skip(i - from + 1));
                    self.take_line(line.as_str());
                    from = i + 1;
                },
                None => {
                    break;
                },
            }
        }
        self.buf = string_of(&v, from, n);
        assert(self.buf@ =~= v@.skip(from as int));
    }

    /// The answer, once the stream is over or the answer is there. Data that no empty line ended
    /// counts too.
    pub fn read_sse_until_id(self) -> (r: Result<Json, String>)
        ensures
            match r {
                Ok(v) => (match self@.found {
                    Some(f) => Some(f),
                    None => if self@.data.len() == 0 {
                        None
                    } else {
                        answer_in(self@.data, self.target)
                    },
                }) == Some(v@),
                Err(e) => self@.found is None && (self@.data.len() == 0 || answer_in(
                    self@.data,
                    self.target,
                ) is None) && e@ == not_found(self.target),
            },
    {
        match self.found {
            Some(v) => Ok(v),
            None => {
                if !self.data.as_str().is_empty() {
                    if let Some(v) = read_answer(self.data.as_str(), self.target) {
                        return Ok(v);
                    }
                }
                let mut e = "SSE 流结束，未找到 id=".to_owned();
                e.append(u64_text(self.target).as_str());
                e.append(" 的响应");
                Err(e)
            },
        }
    }
}

/// What a message that answers a request brings: its result, or the words of an error.
pub open spec fn answered(msg: JsonView) -> Result<JsonView, Seq<char>> {
    match msg.get("error"@) {
        Some(e) => Err("MCP error: "@ + json_render(e)),
        None => match msg.get("result"@) {
            Some(r) => Ok(r),
            None => Err("MCP 响应缺少 result 字段: "@ + json_render(msg)),
        },
    }
}

/// [`answered`].
pub fn read_result(msg: &Json) -> (r: Result<Json, String>)
    ensures
        match r {
            Ok(v) => answered(msg@) == Ok::<JsonView, Seq<char>>(v@),
            Err(e) => answered(msg@) == Err::<JsonView, Seq<char>>(e@),
        },
{
    if let Some(e) = msg.get("error") {
        let mut t = "MCP error: ".to_owned();
        t.append(e.render().as_str());
        return Err(t);
    }
    match msg.get("result") {
        Some(r) => Ok(r.duplicate()),
        None => {
            let mut t = "MCP 响应缺少 result 字段: ".to_owned();
            t.append(msg.render().as_str());
            Err(t)
        },
    }
}

pub open spec fn failed_text(notification: bool, status: Seq<char>, text: Seq<char>) -> Seq<char> {
    (if notification {
        "MCP notify 失败 ["@
    } else {
        "MCP 请求失败 ["@
    }) + status + "]: "@ + text
}

/// What is said of an answer with a bad status.
pub fn status_error(notification: bool, status: &str, text: &str) -> (r: String)
    ensures
        r@ == failed_text(notification, status@, text@),
{
    let mut r = if notification {
        "MCP notify 失败 [".to_owned()
    } else {
        "MCP 请求失败 [".to_owned()
    };
    r.append(status);
    r.append("]: ");
    r.append(text);
    r
}

/// A part of what a tool gives back.
pub struct Content {
    pub kind: String,
    pub text: String,
}

/// The texts among the parts, in their order.
pub open spec fn content_texts(parts: Seq<Content>) -> Seq<Seq<char>>
    decreases parts.len(),
{
    if parts.len() == 0 {
        Seq::empty()
    } else if parts.last().kind@ == "text"@ {
        content_texts(parts.drop_last()).push(parts.last().text@)
    } else {
        content_texts(parts.drop_last())
    }
}

/// What a tool gives back: its texts, line by line, as its result or as the words of an error.
pub fn tool_output(parts: &Vec<Content>, is_error: bool) -> (r: Result<String, String>)
    ensures
        match r {
            Ok(t) => !is_error && t@ == joined(content_texts(parts@), "\n"@),
            Err(e) => is_error && e@ == "MCP 工具返回错误: "@ + joined(
                content_texts(parts@),
                "\n"@,
            ),
        },
{
    let mut texts: Vec<String> = Vec::new();
    let mut i: usize = 0;
    assert(views(texts@) =~= content_texts(parts@.take(0)));
    while i < parts.len()
        invariant
            i <= parts@.len(),
            views(texts@) == content_texts(parts@.take(i as int)),
        decreases parts@.len() - i,
    {
        assert(parts@.take(i + 1).drop_last() =~= parts@.take(i as int));
        let ghost before = texts@;
        if same(parts[i].kind.as_str(), "text") {
            let t = parts[i].text.clone();
            texts.push(t);
            assert(views(texts@) =~= views(before).push(t@));
        }
        i += 1;
    }
    assert(parts@.take(parts@.len() as int) =~= parts@);
    let out = join(&texts, "\n");
    if is_error {
        let mut e = "MCP 工具返回错误: ".to_owned();
        e.append(out.as_str());
        Err(e)
    } else {
        Ok(out)
    }
}

// ---------- laws ----------

proof fn lemma_read_lines_add(st: ReaderView, target: u64, x: Seq<char>, y: Seq<char>)
    ensures
        ({
            let (st1, rest1) = read_lines(st, target, x);
            read_lines(st, target, x + y) == read_lines(st1, target, rest1 + y)
        }),
    decreases x.len(),
{
    reveal_strlit("\n");
    lemma_find_from(x, "\n"@, 0);
    if st.found is None && find(x, "\n"@) is Some {
        let i = find(x, "\n"@)->0;
        lemma_find_extend(x, y, "\n"@, 0);
        assert((x + y).take(i + 1) =~= x.take(i + 1));
        assert((x + y).skip(i + 1) =~= x.skip(i + 1) + y);
        lemma_read_lines_add(on_line(st, target, x.take(i + 1)), target, x.skip(i + 1), y);
    }
}

/// How the bytes of a stream are cut into chunks makes no difference to the answer found in it, as
/// long as no character is cut apart.
pub proof fn answer_chunks_may_be_cut(
    st: ReaderView,
    target: u64,
    buf: Seq<char>,
    a: Seq<u8>,
    b: Seq<u8>,
)
    requires
        valid_utf8(a),
        valid_utf8(b),
    ensures
        ({
            let (st1, rest1) = fed(st, target, buf, a);
            fed(st, target, buf, a + b).0 == fed(st1, target, rest1, b).0
        }),
{
    lemma_chunk_add(a, b);
    lemma_read_lines_add(st, target, buf + chunk_text(a), chunk_text(b));
    assert(buf + (chunk_text(a) + chunk_text(b)) =~= buf + chunk_text(a) + chunk_text(b));
}

/// An answer that is found is the answer to the request that was asked.
pub proof fn found_answers_match(st: ReaderView, target: u64, buf: Seq<char>, bytes: Seq<u8>)
    requires
        st.found is Some ==> st.found->0.uint_at("id"@) == Some(target),
    ensures
        fed(st, target, buf, bytes).0.found matches Some(v) ==> v.uint_at("id"@) == Some(target),
{
    lemma_found(st, target, buf + chunk_text(bytes));
}

proof fn lemma_found(st: ReaderView, target: u64, buf: Seq<char>)
    requires
        st.found is Some ==> st.found->0.uint_at("id"@) == Some(target),
    ensures
        read_lines(st, target, buf).0.found matches Some(v) ==> v.uint_at("id"@) == Some(target),
    decreases buf.len(),
{
    if st.found is None {
        if let Some(i) = find(buf, "\n"@) {
            if 0 <= i < buf.len() {
                lemma_found(on_line(st, target, buf.take(i + 1)), target, buf.skip(i + 1));
            }
        }
    }
}

// ---------- the tools of all servers ----------

/// What connecting to each server gave: its tools, or the words of the error.
pub open spec fn gotten(got: Seq<Result<Vec<ToolInfo>, String>>) -> Seq<Option<Seq<ToolView>>> {
    got.map_values(
        |g: Result<Vec<ToolInfo>, String>|
            match g {
                Ok(tools) => Some(tool_views(tools@)),
                Err(_) => None,
            },
    )
}

/// What server `i` offers: its tools where it is switched on and could be reached, else nothing.
pub open spec fn offer(
    servers: Seq<McpServerConfig>,
    got: Seq<Option<Seq<ToolView>>>,
    i: int,
) -> Seq<ToolView> {
    if 0 <= i < servers.len() && i < got.len() && servers[i].enabled {
        match got[i] {
            Some(tools) => tools,
            None => Seq::empty(),
        }
    } else {
        Seq::empty()
    }
}

/// What the first `n` servers offer, one after the other.
pub open spec fn offers(
    servers: Seq<McpServerConfig>,
    got: Seq<Option<Seq<ToolView>>>,
    n: nat,
) -> Seq<ToolView>
    decreases n,
{
    if n == 0 {
        Seq::empty()
    } else {
        offers(servers, got, (n - 1) as nat) + offer(servers, got, n - 1)
    }
}

/// The set that tools make up when they are put into it in turn.
pub open spec fn collected(tools: Seq<ToolView>) -> Seq<ToolView>
    decreases tools.len(),
{
    if tools.len() == 0 {
        Seq::empty()
    } else {
        with_tool(collected(tools.drop_last()), tools.last())
    }
}

/// The tools of all servers that are switched on. A server that could not be reached is passed
/// over, and of tools of the same name the last is kept.
pub fn merge_servers(servers: &Vec<McpServerConfig>, got: &Vec<Result<Vec<ToolInfo>, String>>) -> (r:
    Vec<ToolInfo>)
    ensures
        tool_views(r@) == collected(offers(servers@, gotten(got@), servers@.len())),
        names_differ(tool_views(r@)),
{
    let ghost all = gotten(got@);
    let mut r: Vec<ToolInfo> = Vec::new();
    let mut i: usize = 0;
    assert(tool_views(r@) =~= Seq::empty());
    while i < servers.len()
        invariant
            i <= servers@.len(),
            all == gotten(got@),
            tool_views(r@) == collected(offers(servers@, all, i as nat)),
            names_differ(tool_views(r@)),
        decreases servers@.len() - i,
    {
        let ghost before = offers(servers@, all, i as nat);
        let ghost next = offer(servers@, all, i as int);
        assert(offers(servers@, all, (i + 1) as nat) == before + next);
        assert(before + Seq::<ToolView>::empty() =~= before);
        if servers[i].enabled && i < got.len() {
            if let Ok(tools) = &got[i] {
                assert(next == tool_views(tools@));
                let mut k: usize = 0;
                assert(next.take(0) =~= Seq::empty());
                while k < tools.len()
                    invariant
                        k <= tools@.len(),
                        next == tool_views(tools@),
                        tool_views(r@) == collected(before + next.take(k as int)),
                        names_differ(tool_views(r@)),
                    decreases tools@.len() - k,
                {
                    let tool = tools[k].duplicate();
                    proof {
                        let longer = before + next.take(k + 1);
                        assert(longer.drop_last() =~= before + next.take(k as int));
                        assert(longer.last() == tool@);
                    }
                    register(&mut r, tool);
                    k += 1;
                }
                assert(next.take(next.len() as int) =~= next);
            }
        }
        i += 1;
    }
    r
}

/// Which server the tool of that name is from.
pub fn server_of(
    servers: &Vec<McpServerConfig>,
    got: &Vec<Result<Vec<ToolInfo>, String>>,
    name: &str,
) -> (r: Option<usize>)
    ensures
        match r {
            Some(i) => i < servers@.len() && tool_at(offer(servers@, gotten(got@), i as int), name@, 0) is Some
                && forall|k: int|
                i < k < servers@.len() ==> tool_at(
                    #[trigger] offer(servers@, gotten(got@), k),
                    name@,
                    0,
                ) is None,
            None => forall|k: int|
                0 <= k < servers@.len() ==> tool_at(
                    #[trigger] offer(servers@, gotten(got@), k),
                    name@,
                    0,
                ) is None,
        },
{
    let ghost all = gotten(got@);
    let mut i: usize = servers.len();
    while i > 0
        invariant
            i <= servers@.len(),
            all == gotten(got@),
            forall|k: int|
                i <= k < servers@.len() ==> tool_at(#[trigger] offer(servers@, all, k), name@, 0) is None,
        decreases i,
    {
        i -= 1;
        if servers[i].enabled && i < got.len() {
            if let Ok(tools) = &got[i] {
                assert(offer(servers@, all, i as int) == tool_views(tools@));
                if crate::tools::find_tool(tools, name).is_some() {
                    return Some(i);
                }
            }
        }
    }
    None
}

proof fn lemma_collected(tools: Seq<ToolView>)
    ensures
        names_differ(collected(tools)),
        forall|j: int|
            0 <= j < tools.len() ==> tool_at(collected(tools), #[trigger] tools[j].name, 0) is Some,
        forall|i: int|
            0 <= i < collected(tools).len() ==> is_last_of_name(tools, #[trigger] collected(tools)[i]),
    decreases tools.len(),
{
    if tools.len() > 0 {
        let front = tools.drop_last();
        let last = tools.last();
        let before = collected(front);
        let after = collected(tools);
        lemma_collected(front);
        lemma_names_differ(before, last);
        lemma_tool_at(before, last.name, 0);
        lemma_tool_at(after, last.name, 0);
        assert forall|j: int| 0 <= j < tools.len() implies tool_at(after, #[trigger] tools[j].name, 0) is Some by {
            lemma_tool_at(after, tools[j].name, 0);
            if tools[j].name == last.name {
                match tool_at(before, last.name, 0) {
                    Some(k) => assert(after[k].name == last.name),
                    None => assert(after[before.len() as int].name == last.name),
                }
            } else {
                assert(front[j] == tools[j]);
                lemma_tool_at(before, front[j].name, 0);
                let k = tool_at(before, front[j].name, 0)->0;
                assert(after[k] == before[k]);
            }
        }
        assert forall|i: int| 0 <= i < after.len() implies is_last_of_name(tools, #[trigger] after[i]) by {
            let end = tools.len() - 1;
            if after[i].name == last.name {
                assert(after[i] == last) by {
                    match tool_at(before, last.name, 0) {
                        Some(k) => {
                            if i != k {
                                assert(before[i].name == last.name && before[k].name == last.name);
                            }
                        },
                        None => {
                            if i < before.len() {
                                assert(before[i].name != last.name);
                            }
                        },
                    }
                }
                assert(tools[end] == after[i]);
            } else {
                assert(after[i] == before[i]);
                let j = choose|j: int|
                    0 <= j < front.len() && #[trigger] front[j] == before[i] && forall|k: int|
                        j < k < front.len() ==> (#[trigger] front[k]).name != before[i].name;
                assert(tools[j] == after[i]);
                assert forall|k: int| j < k < tools.len() implies (#[trigger] tools[k]).name != after[i].name by {
                    if k < front.len() {
                        assert(front[k] == tools[k]);
                    }
                }
            }
        }
    }
}

/// Whether `t` is the last of the tools with its name.
pub open spec fn is_last_of_name(tools: Seq<ToolView>, t: ToolView) -> bool {
    exists|j: int|
        0 <= j < tools.len() && #[trigger] tools[j] == t && forall|k: int|
            j < k < tools.len() ==> (#[trigger] tools[k]).name != t.name
}

/// The set of all tools has the names of the tools that are offered, each once, and under each name
/// the tool that is offered last.
pub proof fn last_tool_of_a_name_is_kept(
    servers: Seq<McpServerConfig>,
    got: Seq<Option<Seq<ToolView>>>,
)
    ensures
        ({
            let offered = offers(servers, got, servers.len());
            let kept = collected(offered);
            &&& names_differ(kept)
            &&& forall|j: int|
                0 <= j < offered.len() ==> tool_at(kept, #[trigger] offered[j].name, 0) is Some
            &&& forall|i: int| 0 <= i < kept.len() ==> is_last_of_name(offered, #[trigger] kept[i])
        }),
{
    lemma_collected(offers(servers, got, servers.len()));
}

proof fn lemma_offers_same(
    servers: Seq<McpServerConfig>,
    got: Seq<Option<Seq<ToolView>>>,
    other: Seq<Option<Seq<ToolView>>>,
    n: nat,
)
    requires
        forall|i: int| 0 <= i < n ==> #[trigger] offer(servers, got, i) == offer(servers, other, i),
    ensures
        offers(servers, got, n) == offers(servers, other, n),
    decreases n,
{
    if n > 0 {
        lemma_offers_same(servers, got, other, (n - 1) as nat);
    }
}

/// A server that cannot be reached takes nothing from the others: the set is the same as if that
/// server had no tools.
pub proof fn failures_stay_with_their_server(
    servers: Seq<McpServerConfig>,
    got: Seq<Option<Seq<ToolView>>>,
    failed: int,
)
    requires
        0 <= failed < got.len(),
        got[failed] is None,
    ensures
        collected(offers(servers, got, servers.len())) == collected(
            offers(servers, got.update(failed, Some(Seq::empty())), servers.len()),
        ),
{
    let other = got.update(failed, Some(Seq::empty()));
    assert forall|i: int| 0 <= i < servers.len() implies #[trigger] offer(servers, got, i) == offer(
        servers,
        other,
        i,
    ) by {}
    lemma_offers_same(servers, got, other, servers.len());
}

} // verus!
