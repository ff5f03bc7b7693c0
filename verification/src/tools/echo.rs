//! A tool that gives back what it is given.
use vstd::prelude::*;
use crate::json::{Json, JsonView};
use crate::llm::body::ToolInfo;
use crate::llm::stream::or_empty;
use crate::tools::{arg, arg_schema, object, object_schema, str_views};

verus! {

/// What the model is told of the tool.
pub const DESCRIPTION: &'static str = "原样返回输入文本。用于测试。";

pub struct Echo;

impl Echo {
    pub fn name(&self) -> (r: &'static str)
        ensures
            r@ == "echo"@,
    {
        "echo"
    }

    pub fn description(&self) -> (r: &'static str)
        ensures
            r@ == DESCRIPTION@,
    {
        DESCRIPTION
    }

    pub open spec fn schema() -> JsonView {
        object_schema(map!["text"@ => arg_schema("string"@, "要回显的内容"@)], seq!["text"@])
    }

    pub fn parameters(&self) -> (r: Json)
        ensures
            r@ == Echo::schema(),
    {
        let required = vec!["text"];
        assert(str_views(required@) =~= seq!["text"@]);
        object(Json::object().with("text", arg("string", "要回显的内容")), &required)
    }

    pub fn info(&self) -> (r: ToolInfo)
        ensures
            r.name@ == "echo"@,
            r.description@ == DESCRIPTION@,
            r.parameters@ == Echo::schema(),
    {
        ToolInfo {
            name: self.name().to_owned(),
            description: self.description().to_owned(),
            parameters: self.parameters(),
        }
    }

    /// The text given, or nothing.
    pub fn run(&self, args: &Json) -> (r: String)
        ensures
            r@ == or_empty(args@.text_at("text"@)),
    {
        match args.text_at("text") {
            Some(t) => t.to_owned(),
            None => "".to_owned(),
        }
    }
}

} // verus!
