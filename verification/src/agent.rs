//! The agent: it asks the model, runs the tools the model asks for, and goes on until the model
//! has answered.
use vstd::prelude::*;
use crate::json::{items_view, json_read, json_text, lemma_items_view, Json, JsonView};
use crate::llm::body::ToolInfo;
use crate::text::{
    ascending, chars_of, contains, ends_with, has_prefix, has_suffix, join, joined,
    run_end, run_len, same, sort_unique, split_words, starts_with, string_of, trim, trimmed, views,
    words, CharClass,
};

pub mod turn;

verus! {

// ---------- replies that are kept back ----------

/// A reply that is marked, at its start or its end, as not meant for the user.
pub open spec fn silent(s: Seq<char>) -> bool {
    starts_with(trimmed(s), "[SILENT]"@) || ends_with(trimmed(s), "[SILENT]"@)
}

pub fn is_silent(s: &str) -> (r: bool)
    ensures
        r == silent(s@),
{
    let t = trim(s);
    has_prefix(t.as_str(), "[SILENT]") || has_suffix(t.as_str(), "[SILENT]")
}

// ---------- statements worth keeping ----------

/// What the model is told when it is to draw statements out of an exchange.
pub const EXTRACT_PROMPT: &'static str = "你是一个记忆抽取器。分析下面这轮对话（用户输入 + 助手答复），提取值得长期记住的信息。\n\n值得记的：\n- 用户偏好、习惯、个人背景（如「用户偏好 Rust」「用户在用 applepi 项目」）\n- 重要事实、约定、决策结论（如「项目部署在 example.com」）\n- 任务的关键结果（如「已把搜索换成 FTS5」）\n\n不要记的：寒暄、一次性指令、过程性琐碎细节、常识、本次对话中已显而易见的临时信息。\n\n输出格式：严格的 JSON 字符串数组，每条是一个可独立理解、带主语的陈述句。不要输出数组以外的任何文字（不要 markdown 围栏、不要解释）。\n示例：[\"用户喜欢用 Rust 写后端\", \"用户的项目 applepi 部署在 example.com\"]\n无值得记的内容时输出：[]";

/// From the first opening bracket to the last closing one.
pub open spec fn bracketed(s: Seq<char>) -> Option<Seq<char>> {
    let from = run_len(s, CharClass::Just('['), false) as int;
    let to = last_at(s, ']');
    if from < s.len() && from < to {
        Some(s.subrange(from, to + 1))
    } else {
        None
    }
}

/// The last position of `c`, or -1 where there is none.
pub open spec fn last_at(s: Seq<char>, c: char) -> int
    decreases s.len(),
{
    if s.len() == 0 {
        -1
    } else if s.last() == c {
        s.len() - 1
    } else {
        last_at(s.drop_last(), c)
    }
}

/// The strings among the items, trimmed, without those that are blank.
pub open spec fn statements(items: Seq<JsonView>) -> Seq<Seq<char>>
    decreases items.len(),
{
    if items.len() == 0 {
        Seq::empty()
    } else {
        match items.last().text() {
            Some(t) => if trimmed(t).len() > 0 {
                statements(items.drop_last()).push(trimmed(t))
            } else {
                statements(items.drop_last())
            },
            None => statements(items.drop_last()),
        }
    }
}

/// The statements in what the model drew out of an exchange. Anything but an array of JSON between
/// the brackets counts as none.
pub open spec fn extracted(raw: Seq<char>) -> Seq<Seq<char>> {
    match bracketed(trimmed(raw)) {
        Some(array) => match json_text(array) {
            Some(v) => statements_of(v),
            None => Seq::empty(),
        },
        None => Seq::empty(),
    }
}

pub open spec fn statements_of(v: JsonView) -> Seq<Seq<char>> {
    match v.array() {
        Some(items) => statements(items),
        None => Seq::empty(),
    }
}

fn find_last(v: &Vec<char>, c: char) -> (r: Option<usize>)
    ensures
        match r {
            Some(i) => last_at(v@, c) == i && i < v@.len(),
            None => last_at(v@, c) == -1,
        },
{
    let mut n: usize = v.len();
    assert(v@.take(n as int) =~= v@);
    while n > 0
        invariant
            n <= v@.len(),
            last_at(v@, c) == last_at(v@.take(n as int), c),
        decreases n,
    {
        assert(v@.take(n as int).drop_last() =~= v@.take(n - 1));
        if v[n - 1] == c {
            return Some(n - 1);
        }
        n -= 1;
    }
    None
}

/// [`bracketed`].
pub fn bracketed_part(s: &str) -> (r: Option<String>)
    ensures
        match r {
            Some(t) => bracketed(s@) == Some(t@),
            None => bracketed(s@) is None,
        },
{
    let v = chars_of(s);
    assert(v@.skip(0) =~= v@);
    let from: usize = run_end(&v, 0, CharClass::Just('['), false);
    match find_last(&v, ']') {
        Some(to) => {
            if from < v.len() && from < to {
                Some(string_of(&v, from, to + 1))
            } else {
                None
            }
        },
        None => None,
    }
}

/// [`statements_of`].
pub fn statements_in(v: &Json) -> (r: Vec<String>)
    ensures
        views(r@) == statements_of(v@),
{
    let mut r: Vec<String> = Vec::new();
    assert(views(r@) =~= Seq::empty());
    if let Some(items) = v.as_array() {
        let ghost all = items_view(items@);
        let mut i: usize = 0;
        proof {
            lemma_items_view(items@);
            assert(statements(all.take(0)) =~= Seq::empty());
        }
        while i < items.len()
            invariant
                i <= items@.len(),
                all == items_view(items@),
                all.len() == items@.len(),
                views(r@) == statements(all.take(i as int)),
            decreases items@.len() - i,
        {
            proof {
                lemma_items_view(items@);
                assert(all.take(i + 1).drop_last() =~= all.take(i as int));
            }
            if let Some(t) = items[i].as_text() {
                let t = trim(t);
                if !t.as_str().is_empty() {
                    let ghost before = r@;
                    r.push(t);
                    assert(views(r@) =~= views(before).push(t@));
                }
            }
            i += 1;
        }
        assert(all.take(all.len() as int) =~= all);
    }
    r
}

/// Reads what the model drew out of an exchange. Text around the array is passed over, so are
/// items that are no string or blank; what cannot be read gives nothing.
pub fn parse_extract_output(raw: &str) -> (r: Vec<String>)
    ensures
        views(r@) == extracted(raw@),
{
    let t = trim(raw);
    if let Some(array) = bracketed_part(t.as_str()) {
        if let Some(v) = Json::parse(array.as_str()) {
            return statements_in(&v);
        }
    }
    let none: Vec<String> = Vec::new();
    assert(views(none@) =~= Seq::empty());
    none
}

/// What is drawn out of an exchange is never blank and never has white space at its ends.
pub proof fn statements_are_trimmed(raw: Seq<char>, k: int)
    requires
        0 <= k < extracted(raw).len(),
    ensures
        extracted(raw)[k].len() > 0,
        exists|t: Seq<char>| extracted(raw)[k] == #[trigger] trimmed(t),
{
    let items = json_text(bracketed(trimmed(raw))->0)->0.array()->0;
    lemma_statements(items, k);
}

proof fn lemma_statements(items: Seq<JsonView>, k: int)
    requires
        0 <= k < statements(items).len(),
    ensures
        statements(items)[k].len() > 0,
        exists|t: Seq<char>| statements(items)[k] == #[trigger] trimmed(t),
    decreases items.len(),
{
    if k < statements(items.drop_last()).len() {
        lemma_statements(items.drop_last(), k);
    }
}

// ---------- tools of other servers ----------

pub open spec fn is_mcp(name: Seq<char>) -> bool {
    starts_with(name, "mcp__"@)
}

/// The description of the first tool of that name, from position `i` on.
pub open spec fn description_of(tools: Seq<ToolInfo>, name: Seq<char>, i: int) -> Seq<char>
    decreases tools.len() - i,
{
    if i < 0 || i >= tools.len() {
        ""@
    } else if tools[i].name@ == name {
        tools[i].description@
    } else {
        description_of(tools, name, i + 1)
    }
}

/// A tool in the list: its name, and its description on one line where it has one.
pub open spec fn tool_line(name: Seq<char>, description: Seq<char>) -> Seq<char> {
    "- `"@ + name + if trimmed(description).len() == 0 {
        "`"@
    } else {
        "`："@ + joined(words(trimmed(description)), " "@)
    }
}

pub open spec fn tool_lines(names: Seq<Seq<char>>, tools: Seq<ToolInfo>) -> Seq<Seq<char>> {
    names.map_values(|n: Seq<char>| tool_line(n, description_of(tools, n, 0)))
}

/// Whether these are the names of the tools of other servers, each once and in order.
pub open spec fn are_mcp_names(names: Seq<Seq<char>>, tools: Seq<ToolInfo>) -> bool {
    &&& ascending(names)
    &&& forall|n: Seq<char>| #[trigger]
        names.contains(n) <==> is_mcp(n) && exists|i: int|
            0 <= i < tools.len() && #[trigger] tools[i].name@ == n
}

pub open spec fn mcp_summary(names: Seq<Seq<char>>, tools: Seq<ToolInfo>) -> Seq<char> {
    if names.len() == 0 {
        ""@
    } else {
        "\n\n## MCP 工具（可用清单 + 使用准则）\n以下是以 `mcp__` 开头的外部能力工具（联网、浏览器、数据库等），按各自描述提供能力：\n\n"@
            + joined(tool_lines(names, tools), "\n"@)
            + "\n\n**通用准则**：当用户的请求落在某个工具的能力范围内时，主动调用它——不要凭自身记忆回答需要实时/外部数据的问题（如最新资讯、网页内容、外部系统数据），也不要反问「要不要用某工具」。按工具描述判断是否匹配即可。"@
    }
}

fn find_description(tools: &Vec<ToolInfo>, name: &str) -> (r: String)
    ensures
        r@ == description_of(tools@, name@, 0),
{
    let mut i: usize = 0;
    while i < tools.len()
        invariant
            i <= tools@.len(),
            description_of(tools@, name@, 0) == description_of(tools@, name@, i as int),
        decreases tools@.len() - i,
    {
        if same(tools[i].name.as_str(), name) {
            return tools[i].description.clone();
        }
        i += 1;
    }
    "".to_owned()
}

fn write_tool_line(name: &str, description: &str) -> (r: String)
    ensures
        r@ == tool_line(name@, description@),
{
    let mut r = "- `".to_owned();
    r.append(name);
    let t = trim(description);
    if t.as_str().is_empty() {
        r.append("`");
    } else {
        r.append("`：");
        r.append(join(&split_words(t.as_str()), " ").as_str());
    }
    assert(r@ =~= tool_line(name@, description@));
    r
}

/// The list of the tools of other servers and the rules for using them, which go behind the
/// system message. Empty where there are no such tools.
pub fn build_mcp_summary(tools: &Vec<ToolInfo>) -> (r: String)
    ensures
        exists|names: Seq<Seq<char>>|
            are_mcp_names(names, tools@) && r@ == #[trigger] mcp_summary(names, tools@),
{
    let mut found: Vec<String> = Vec::new();
    let mut i: usize = 0;
    while i < tools.len()
        invariant
            i <= tools@.len(),
            forall|n: Seq<char>| #[trigger]
                views(found@).contains(n) <==> is_mcp(n) && exists|k: int|
                    0 <= k < i && #[trigger] tools@[k].name@ == n,
        decreases tools@.len() - i,
    {
        let ghost before = found@;
        if has_prefix(tools[i].name.as_str(), "mcp__") {
            let name = tools[i].name.clone();
            found.push(name);
            proof {
                assert(views(found@) =~= views(before).push(name@));
                assert forall|n: Seq<char>| #[trigger] views(found@).contains(n) <==> is_mcp(n) && exists|
                    k: int,
                | 0 <= k < i + 1 && #[trigger] tools@[k].name@ == n by {
                    if views(found@).contains(n) {
                        if n == name@ {
                            assert(tools@[i as int].name@ == n);
                        } else {
                            let j = choose|j: int| 0 <= j < views(found@).len() && views(found@)[j] == n;
                            assert(views(before)[j] == n);
                            assert(views(before).contains(n));
                        }
                    }
                    if is_mcp(n) && exists|k: int| 0 <= k < i + 1 && #[trigger] tools@[k].name@ == n {
                        let k = choose|k: int| 0 <= k < i + 1 && #[trigger] tools@[k].name@ == n;
                        if k == i {
                            assert(views(found@)[before.len() as int] == n);
                        } else {
                            assert(views(before).contains(n));
                            let j = choose|j: int| 0 <= j < views(before).len() && views(before)[j] == n;
                            assert(views(found@)[j] == n);
                        }
                    }
                }
            }
        }
        i += 1;
    }
    let names = sort_unique(&found);
    let ghost all = views(names@);
    assert(are_mcp_names(all, tools@)) by {
        assert forall|n: Seq<char>| #[trigger] all.contains(n) <==> is_mcp(n) && exists|k: int|
            0 <= k < tools@.len() && #[trigger] tools@[k].name@ == n by {
            assert(views(found@).contains(n) <==> all.contains(n));
        }
    }
    if names.len() == 0 {
        let r = "".to_owned();
        assert(r@ == mcp_summary(all, tools@));
        return r;
    }
    let mut lines: Vec<String> = Vec::new();
    let mut k: usize = 0;
    assert(views(lines@) =~= tool_lines(all, tools@).take(0));
    while k < names.len()
        invariant
            k <= names@.len(),
            all == views(names@),
            views(lines@) == tool_lines(all, tools@).take(k as int),
        decreases names@.len() - k,
    {
        let name = names[k].as_str();
        let line = write_tool_line(name, find_description(tools, name).as_str());
        let ghost before = lines@;
        lines.push(line);
        proof {
            assert(all[k as int] == name@);
            assert(views(lines@) =~= views(before).push(line@));
            assert(views(lines@) =~= tool_lines(all, tools@).take(k + 1));
        }
        k += 1;
    }
    assert(tool_lines(all, tools@).take(all.len() as int) =~= tool_lines(all, tools@));
    let mut r = "\n\n## MCP 工具（可用清单 + 使用准则）\n以下是以 `mcp__` 开头的外部能力工具（联网、浏览器、数据库等），按各自描述提供能力：\n\n".to_owned();
    r.append(join(&lines, "\n").as_str());
    r.append("\n\n**通用准则**：当用户的请求落在某个工具的能力范围内时，主动调用它——不要凭自身记忆回答需要实时/外部数据的问题（如最新资讯、网页内容、外部系统数据），也不要反问「要不要用某工具」。按工具描述判断是否匹配即可。");
    assert(r@ == mcp_summary(all, tools@));
    r
}

// ---------- running a tool ----------

/// The arguments of a call: an empty object where the text is blank, else what the text holds.
pub open spec fn call_arguments(text: Seq<char>) -> Result<JsonView, Seq<char>> {
    if trimmed(text).len() == 0 {
        Ok(JsonView::Object(Map::empty()))
    } else {
        json_read(text)
    }
}

/// What is handed to the tool that a call names, or why nothing is.
pub open spec fn dispatched(known: bool, name: Seq<char>, arguments: Seq<char>) -> Result<JsonView, Seq<char>> {
    if !known {
        Err("未知工具: "@ + name)
    } else {
        call_arguments(arguments)
    }
}

/// Prepares a call: the arguments for the tool, or the words of the error. `known` says whether
/// there is a tool of that name.
pub fn dispatch(known: bool, name: &str, arguments: &str) -> (r: Result<Json, String>)
    ensures
        match r {
            Ok(v) => dispatched(known, name@, arguments@) == Ok::<JsonView, Seq<char>>(v@),
            Err(e) => dispatched(known, name@, arguments@) == Err::<JsonView, Seq<char>>(e@),
        },
{
    if !known {
        let mut e = "未知工具: ".to_owned();
        e.append(name);
        return Err(e);
    }
    if trim(arguments).as_str().is_empty() {
        return Ok(Json::object());
    }
    Json::read(arguments)
}

} // verus!
