//! The tools that the model may ask for. Each says what it is, takes its arguments apart, and
//! words what it gives back; whoever runs it does the work in between.
use vstd::prelude::*;
use crate::json::{items_view, Json, JsonView};
use crate::llm::body::{lemma_items_push, str_json, ToolInfo, ToolView};
use crate::text::same;

pub mod cron;
pub mod echo;
pub mod fs;
pub mod memory;
pub mod shell;
pub mod skill;

verus! {

// ---------- arguments ----------

pub open spec fn missing(key: Seq<char>) -> Seq<char> {
    "缺少 "@ + key + " 参数"@
}

/// The string argument under `key`, or what is said where it is missing.
pub open spec fn text_arg(args: JsonView, key: Seq<char>) -> Result<Seq<char>, Seq<char>> {
    match args.text_at(key) {
        Some(t) => Ok(t),
        None => Err(missing(key)),
    }
}

/// The integer argument under `key`, or what is said where it is missing.
pub open spec fn int_arg(args: JsonView, key: Seq<char>) -> Result<i64, Seq<char>> {
    match args.sint_at(key) {
        Some(n) => Ok(n),
        None => Err(missing(key)),
    }
}

/// A result by its view.
pub open spec fn result_view(r: Result<String, String>) -> Result<Seq<char>, Seq<char>> {
    match r {
        Ok(t) => Ok(t@),
        Err(e) => Err(e@),
    }
}

pub fn missing_arg(key: &str) -> (r: String)
    ensures
        r@ == missing(key@),
{
    let mut e = "缺少 ".to_owned();
    e.append(key);
    e.append(" 参数");
    e
}

pub fn get_text(args: &Json, key: &str) -> (r: Result<String, String>)
    ensures
        result_view(r) == text_arg(args@, key@),
{
    match args.text_at(key) {
        Some(t) => Ok(t.to_owned()),
        None => Err(missing_arg(key)),
    }
}

pub fn get_int(args: &Json, key: &str) -> (r: Result<i64, String>)
    ensures
        match r {
            Ok(n) => int_arg(args@, key@) == Ok::<i64, Seq<char>>(n),
            Err(e) => int_arg(args@, key@) == Err::<i64, Seq<char>>(e@),
        },
{
    match args.i64_at(key) {
        Some(n) => Ok(n),
        None => Err(missing_arg(key)),
    }
}

// ---------- what a tool says of its arguments ----------

/// The schema of one argument.
pub open spec fn arg_schema(kind: Seq<char>, description: Seq<char>) -> JsonView {
    JsonView::Object(map!["type"@ => str_json(kind), "description"@ => str_json(description)])
}

/// The schema of an object with these fields, of which some have to be there.
pub open spec fn object_schema(fields: Map<Seq<char>, JsonView>, required: Seq<Seq<char>>) -> JsonView {
    JsonView::Object(
        map![
            "type"@ => str_json("object"@),
            "properties"@ => JsonView::Object(fields),
            "required"@ => JsonView::Array(required.map_values(|k: Seq<char>| str_json(k))),
        ],
    )
}

pub fn arg(kind: &str, description: &str) -> (r: Json)
    ensures
        r@ == arg_schema(kind@, description@),
{
    Json::object().with("type", Json::text(kind)).with("description", Json::text(description))
}

pub open spec fn str_views(v: Seq<&str>) -> Seq<Seq<char>> {
    v.map_values(|s: &str| s@)
}

/// An array of strings.
pub fn text_array(names: &Vec<&str>) -> (r: Json)
    ensures
        r@ == JsonView::Array(str_views(names@).map_values(|k: Seq<char>| str_json(k))),
{
    let ghost all = str_views(names@).map_values(|k: Seq<char>| str_json(k));
    let mut items: Vec<Json> = Vec::new();
    let mut i: usize = 0;
    assert(items_view(items@) =~= all.take(0));
    while i < names.len()
        invariant
            i <= names@.len(),
            all == str_views(names@).map_values(|k: Seq<char>| str_json(k)),
            items_view(items@) == all.take(i as int),
        decreases names@.len() - i,
    {
        let item = Json::text(names[i]);
        proof {
            lemma_items_push(items@, item);
            assert(all[i as int] == item@);
            assert(all.take(i + 1) =~= all.take(i as int).push(item@));
        }
        items.push(item);
        i += 1;
    }
    assert(all.take(all.len() as int) =~= all);
    Json::Array(items)
}

pub fn object(fields: Json, required: &Vec<&str>) -> (r: Json)
    requires
        fields@ is Object,
    ensures
        r@ == object_schema(fields@->Object_0, str_views(required@)),
{
    Json::object().with("type", Json::text("object")).with("properties", fields).with(
        "required",
        text_array(required),
    )
}

// ---------- the set of tools ----------

pub open spec fn tool_views(tools: Seq<ToolInfo>) -> Seq<ToolView> {
    tools.map_values(|t: ToolInfo| t@)
}

/// Where the first tool of that name stands, from `i` on.
pub open spec fn tool_at(tools: Seq<ToolView>, name: Seq<char>, i: int) -> Option<int>
    decreases tools.len() - i,
{
    if i < 0 || i >= tools.len() {
        None
    } else if tools[i].name == name {
        Some(i)
    } else {
        tool_at(tools, name, i + 1)
    }
}

/// Whether no two tools of the set share a name.
pub open spec fn names_differ(tools: Seq<ToolView>) -> bool {
    forall|i: int, j: int|
        0 <= i < j < tools.len() ==> (#[trigger] tools[i]).name != (#[trigger] tools[j]).name
}

/// The set with a tool put into it: in the place of the one of the same name, or at the end.
pub open spec fn with_tool(tools: Seq<ToolView>, t: ToolView) -> Seq<ToolView> {
    match tool_at(tools, t.name, 0) {
        Some(i) => tools.update(i, t),
        None => tools.push(t),
    }
}

pub proof fn lemma_tool_at(tools: Seq<ToolView>, name: Seq<char>, i: int)
    requires
        0 <= i,
    ensures
        match tool_at(tools, name, i) {
            Some(k) => i <= k < tools.len() && tools[k].name == name,
            None => forall|k: int| i <= k < tools.len() ==> (#[trigger] tools[k]).name != name,
        },
    decreases tools.len() - i,
{
    if i < tools.len() {
        lemma_tool_at(tools, name, i + 1);
    }
}

/// Putting a tool into a set keeps its names apart.
pub proof fn lemma_names_differ(tools: Seq<ToolView>, t: ToolView)
    requires
        names_differ(tools),
    ensures
        names_differ(with_tool(tools, t)),
{
    lemma_tool_at(tools, t.name, 0);
    let after = with_tool(tools, t);
    assert forall|i: int, j: int| 0 <= i < j < after.len() implies (#[trigger] after[i]).name != (
    #[trigger] after[j]).name by {
        if j < tools.len() {
            assert(tools[i].name != tools[j].name);
        } else {
            assert(tools[i].name != t.name);
        }
    }
}

/// Where the tool of that name stands.
pub fn find_tool(tools: &Vec<ToolInfo>, name: &str) -> (r: Option<usize>)
    ensures
        match r {
            Some(i) => tool_at(tool_views(tools@), name@, 0) == Some(i as int) && i < tools@.len(),
            None => tool_at(tool_views(tools@), name@, 0) is None,
        },
{
    let ghost all = tool_views(tools@);
    let mut i: usize = 0;
    while i < tools.len()
        invariant
            i <= tools@.len(),
            all == tool_views(tools@),
            tool_at(all, name@, 0) == tool_at(all, name@, i as int),
        decreases tools@.len() - i,
    {
        assert(all[i as int] == tools@[i as int]@);
        if same(tools[i].name.as_str(), name) {
            return Some(i);
        }
        i += 1;
    }
    None
}

/// Puts a tool into the set. It takes the place of one of the same name; the result says whether
/// there was one.
pub fn register(tools: &mut Vec<ToolInfo>, tool: ToolInfo) -> (r: bool)
    ensures
        tool_views(final(tools)@) == with_tool(tool_views(old(tools)@), tool@),
        r == tool_at(tool_views(old(tools)@), tool@.name, 0) is Some,
        names_differ(tool_views(old(tools)@)) ==> names_differ(tool_views(final(tools)@)),
{
    let ghost before = tool_views(tools@);
    let ghost t = tool@;
    proof {
        if names_differ(before) {
            lemma_names_differ(before, t);
        }
    }
    match find_tool(tools, tool.name.as_str()) {
        Some(i) => {
            tools.set(i, tool);
            assert(tool_views(tools@) =~= before.update(i as int, t));
            true
        },
        None => {
            tools.push(tool);
            assert(tool_views(tools@) =~= before.push(t));
            false
        },
    }
}

/// Whether a tool is described by this.
pub open spec fn is_info(t: ToolInfo, name: Seq<char>, description: Seq<char>, schema: JsonView) -> bool {
    t.name@ == name && t.description@ == description && t.parameters@ == schema
}

/// The tools that are always there.
pub fn default_tools() -> (r: Vec<ToolInfo>)
    ensures
        r@.len() == 4,
        is_info(r@[0], "echo"@, echo::DESCRIPTION@, echo::Echo::schema()),
        is_info(r@[1], "read_file"@, fs::DESCRIPTION@, fs::ReadFile::schema()),
        is_info(
            r@[2],
            "skill_create"@,
            skill::CREATE_DESCRIPTION@,
            skill::SkillCreateTool::schema(),
        ),
        is_info(r@[3], "skill_use"@, skill::USE_DESCRIPTION@, skill::SkillUseTool::schema()),
        names_differ(tool_views(r@)),
{
    let mut r: Vec<ToolInfo> = Vec::new();
    r.push(echo::Echo.info());
    r.push(fs::ReadFile.info());
    r.push(skill::SkillCreateTool.info());
    r.push(skill::SkillUseTool.info());
    proof {
        reveal_strlit("echo");
        reveal_strlit("read_file");
        reveal_strlit("skill_create");
        reveal_strlit("skill_use");
        assert(r@[0].name@ == "echo"@ && r@[1].name@ == "read_file"@ && r@[2].name@
            == "skill_create"@ && r@[3].name@ == "skill_use"@);
        assert("skill_create"@.len() != "skill_use"@.len());
        assert("read_file"@[0] != "skill_use"@[0]);
    }
    r
}

} // verus!
