//! A tool that reads a file.
use vstd::prelude::*;
use crate::json::{Json, JsonView};
use crate::llm::body::ToolInfo;
use crate::text::{chars_of, first_chars, take_chars};
use crate::tools::{
    arg, arg_schema, get_text, object, object_schema, result_view, str_views, text_arg,
};

verus! {

/// What the model is told of the tool.
pub const DESCRIPTION: &'static str = "读取本地 UTF-8 文本文件内容，最多返回前 5000 字符。";

/// How many characters of a file are shown.
pub const SHOWN_CHARS: usize = 5000;

pub struct ReadFile;

pub open spec fn shown(content: Seq<char>) -> Seq<char> {
    if content.len() > SHOWN_CHARS {
        first_chars(content, SHOWN_CHARS as nat) + "...(截断)"@
    } else {
        content
    }
}

impl ReadFile {
    pub fn name(&self) -> (r: &'static str)
        ensures
            r@ == "read_file"@,
    {
        "read_file"
    }

    pub fn description(&self) -> (r: &'static str)
        ensures
            r@ == DESCRIPTION@,
    {
        DESCRIPTION
    }

    pub open spec fn schema() -> JsonView {
        object_schema(map!["path"@ => arg_schema("string"@, "文件绝对或相对路径"@)], seq!["path"@])
    }

    pub fn parameters(&self) -> (r: Json)
        ensures
            r@ == ReadFile::schema(),
    {
        let required = vec!["path"];
        assert(str_views(required@) =~= seq!["path"@]);
        object(Json::object().with("path", arg("string", "文件绝对或相对路径")), &required)
    }

    pub fn info(&self) -> (r: ToolInfo)
        ensures
            r.name@ == "read_file"@,
            r.description@ == DESCRIPTION@,
            r.parameters@ == ReadFile::schema(),
    {
        ToolInfo {
            name: self.name().to_owned(),
            description: self.description().to_owned(),
            parameters: self.parameters(),
        }
    }

    /// Which file to read.
    pub fn path(&self, args: &Json) -> (r: Result<String, String>)
        ensures
            result_view(r) == text_arg(args@, "path"@),
    {
        get_text(args, "path")
    }

    /// What is given back of what was read: the start of a long text, with a mark behind it.
    pub fn run(&self, read: Result<String, String>) -> (r: Result<String, String>)
        ensures
            result_view(r) == match read {
                Ok(t) => Ok(shown(t@)),
                Err(e) => Err("读取失败: "@ + e@),
            },
    {
        match read {
            Ok(t) => {
                if chars_of(t.as_str()).len() > SHOWN_CHARS {
                    let mut start = take_chars(t.as_str(), SHOWN_CHARS);
                    start.append("...(截断)");
                    Ok(start)
                } else {
                    Ok(t)
                }
            },
            Err(e) => {
                let mut msg = "读取失败: ".to_owned();
                msg.append(e.as_str());
                Err(msg)
            },
        }
    }
}

} // verus!
