//! A tool that keeps a statement across conversations.
use vstd::prelude::*;
use crate::json::{Json, JsonView};
use crate::llm::body::ToolInfo;
use crate::text::{chars_of, first_chars, nat_text, take_chars, trim, trimmed, u64_text};
use crate::tools::{
    arg, arg_schema, get_text, object, object_schema, result_view, str_views, text_arg,
};

verus! {

/// How many characters of a statement are kept.
pub const MAX_CHARS: usize = 2000;

pub struct WriteMemoryTool;

/// What the model is told of the tool.
pub const DESCRIPTION: &'static str = "把一条信息写入长期记忆库（跨会话保留，按相关性自动召回）。用于记住用户的偏好、重要事实、约定、任务结论等需要长期记住的内容。不要写入琐碎或一次性的对话信息。内容建议是一句完整、可独立理解的话（检索时按字面召回）。";

/// The statement to keep: trimmed, and the start of a long one. A blank one is turned down.
pub open spec fn statement(args: JsonView) -> Result<Seq<char>, Seq<char>> {
    match text_arg(args, "content"@) {
        Ok(t) => if trimmed(t).len() == 0 {
            Err("content 不能为空"@)
        } else {
            Ok(first_chars(trimmed(t), MAX_CHARS as nat))
        },
        Err(e) => Err(e),
    }
}

pub open spec fn kept_text(kept: Seq<char>) -> Seq<char> {
    "已写入长期记忆（"@ + nat_text(kept.len()) + " 字符）"@
}

impl WriteMemoryTool {
    pub fn name(&self) -> (r: &'static str)
        ensures
            r@ == "write_memory"@,
    {
        "write_memory"
    }

    pub fn description(&self) -> (r: &'static str)
        ensures
            r@ == DESCRIPTION@,
    {
        DESCRIPTION
    }

    pub open spec fn schema() -> JsonView {
        object_schema(
            map!["content"@ => arg_schema("string"@, "要记住的内容（一句完整、可独立理解的话）"@)],
            seq!["content"@],
        )
    }

    pub fn parameters(&self) -> (r: Json)
        ensures
            r@ == WriteMemoryTool::schema(),
    {
        let required = vec!["content"];
        assert(str_views(required@) =~= seq!["content"@]);
        object(
            Json::object().with("content", arg("string", "要记住的内容（一句完整、可独立理解的话）")),
            &required,
        )
    }

    pub fn info(&self) -> (r: ToolInfo)
        ensures
            r.name@ == "write_memory"@,
            r.description@ == DESCRIPTION@,
            r.parameters@ == WriteMemoryTool::schema(),
    {
        ToolInfo {
            name: self.name().to_owned(),
            description: self.description().to_owned(),
            parameters: self.parameters(),
        }
    }

    /// [`statement`].
    pub fn content(&self, args: &Json) -> (r: Result<String, String>)
        ensures
            result_view(r) == statement(args@),
    {
        let t = match get_text(args, "content") {
            Ok(t) => t,
            Err(e) => return Err(e),
        };
        let t = trim(t.as_str());
        if t.as_str().is_empty() {
            return Err("content 不能为空".to_owned());
        }
        Ok(take_chars(t.as_str(), MAX_CHARS))
    }

    /// What is given back once the statement is kept.
    pub fn run(&self, kept: &str) -> (r: String)
        ensures
            r@ == kept_text(kept@),
    {
        let mut t = "已写入长期记忆（".to_owned();
        t.append(u64_text(chars_of(kept).len() as u64).as_str());
        t.append(" 字符）");
        t
    }
}

} // verus!
