//! The configuration, the persona and the list of skills.
use vstd::prelude::*;
use crate::llm::LlmConfig;
use crate::memory::EmbedConfig;
use crate::text::{
    after_prefix, chars_of, copy_strings, find, find_chars, line_pieces, opt_view, split_lines,
    string_of, strip_prefix, trim, trim_end_by, trim_end_matches, trim_start_by,
    trim_start_matches, trimmed, views, CharClass,
};

verus! {

pub struct Config {
    pub llm: LlmSection,
    pub embeddings: EmbeddingsSection,
    pub memory: MemorySection,
    pub telegram: TelegramSection,
    /// Servers whose tools are taken over.
    pub mcp_servers: Vec<McpServerConfig>,
    /// Jobs that run at set times, in the bot only.
    pub cron: CronSection,
    pub shell: ShellSection,
}

#[derive(Clone, Debug)]
pub struct LlmSection {
    pub api_base: String,
    pub model: String,
    /// Where it is blank, the environment is asked.
    pub api_key: String,
    /// Whether the system message is marked for prompt caching.
    pub prompt_cache_control: bool,
}

#[derive(Clone, Debug)]
pub struct EmbeddingsSection {
    pub model: String,
    /// Where it is left empty, that of the language model counts.
    pub api_base: Option<String>,
}

#[derive(Clone, Debug)]
pub struct MemorySection {
    pub enabled: bool,
    pub db_path: String,
    pub top_k: usize,
}

#[derive(Clone, Debug)]
pub struct TelegramSection {
    /// Where it is empty, the environment is asked.
    pub bot_token: String,
}

/// A server whose tools are taken over.
#[derive(Clone, Debug)]
pub struct McpServerConfig {
    pub name: String,
    pub url: String,
    /// Further headers of each request.
    pub headers: Vec<(String, String)>,
    pub enabled: bool,
}

#[derive(Clone, Debug)]
pub struct CronSection {
    pub enabled: bool,
    pub db_path: String,
    /// Jobs that are stored at the first start.
    pub jobs: Vec<CronJob>,
}

/// A job of the configuration.
#[derive(Clone, Debug)]
pub struct CronJob {
    pub name: String,
    /// A cron expression, in Beijing time.
    pub schedule: String,
    pub prompt: String,
    pub chat_id: i64,
    pub enabled: bool,
}

#[derive(Clone, Debug)]
pub struct ShellSection {
    pub enabled: bool,
    /// Where it is not empty, a command has to start with one of these.
    pub allow: Vec<String>,
    /// A command that holds one of these is turned down. Where it is empty, the built-in list
    /// counts.
    pub deny: Vec<String>,
    /// How many seconds a command may take.
    pub timeout: u64,
    /// Where commands run; where it is left empty, in the current directory.
    pub workdir: Option<String>,
}

pub fn default_true() -> (r: bool)
    ensures
        r,
{
    true
}

pub fn default_memory_db() -> (r: String)
    ensures
        r@ == "data/applepi.db"@,
{
    "data/applepi.db".to_owned()
}

pub fn default_cron_db() -> (r: String)
    ensures
        r@ == "data/cron.db"@,
{
    "data/cron.db".to_owned()
}

pub fn default_timeout() -> (r: u64)
    ensures
        r == 30,
{
    30
}

/// What no command may hold, unless the configuration has a list of its own.
pub open spec fn denied_by_default() -> Seq<Seq<char>> {
    seq![
        "rm -rf"@,
        "sudo "@,
        " >/"@,
        " >>/"@,
        "mkfs"@,
        "dd if="@,
        ":(){"@,
        "chmod 777"@,
        "reboot"@,
        "shutdown"@,
        "halt"@,
        ":(){:|:&};:"@,
    ]
}

pub fn default_deny() -> (r: Vec<String>)
    ensures
        views(r@) == denied_by_default(),
{
    let r = vec![
        "rm -rf".to_owned(),
        "sudo ".to_owned(),
        " >/".to_owned(),
        " >>/".to_owned(),
        "mkfs".to_owned(),
        "dd if=".to_owned(),
        ":(){".to_owned(),
        "chmod 777".to_owned(),
        "reboot".to_owned(),
        "shutdown".to_owned(),
        "halt".to_owned(),
        ":(){:|:&};:".to_owned(),
    ];
    assert(views(r@) =~= denied_by_default());
    r
}

impl Default for EmbeddingsSection {
    fn default() -> (r: EmbeddingsSection)
        ensures
            r.model@ == ""@,
            r.api_base is None,
    {
        EmbeddingsSection { model: "".to_owned(), api_base: None }
    }
}

impl Default for MemorySection {
    fn default() -> (r: MemorySection)
        ensures
            !r.enabled,
            r.db_path@ == "data/applepi.db"@,
            r.top_k == 0,
    {
        MemorySection { enabled: false, db_path: default_memory_db(), top_k: 0 }
    }
}

impl Default for TelegramSection {
    fn default() -> (r: TelegramSection)
        ensures
            r.bot_token@ == ""@,
    {
        TelegramSection { bot_token: "".to_owned() }
    }
}

impl Default for CronSection {
    fn default() -> (r: CronSection)
        ensures
            !r.enabled,
            r.db_path@ == "data/cron.db"@,
            r.jobs@.len() == 0,
    {
        CronSection { enabled: false, db_path: default_cron_db(), jobs: Vec::new() }
    }
}

impl Default for ShellSection {
    fn default() -> (r: ShellSection)
        ensures
            !r.enabled,
            r.allow@.len() == 0,
            r.deny@.len() == 0,
            r.timeout == 30,
            r.workdir is None,
    {
        ShellSection {
            enabled: false,
            allow: Vec::new(),
            deny: Vec::new(),
            timeout: default_timeout(),
            workdir: None,
        }
    }
}

impl MemorySection {
    /// How many statements are looked up: `default` where the configuration says zero.
    pub fn top_k_or(&self, default: usize) -> (r: usize)
        ensures
            r == if self.top_k == 0 {
                default
            } else {
                self.top_k
            },
    {
        if self.top_k == 0 {
            default
        } else {
            self.top_k
        }
    }
}

impl ShellSection {
    /// What no command may hold.
    pub open spec fn denied(self) -> Seq<Seq<char>> {
        if self.deny@.len() == 0 {
            denied_by_default()
        } else {
            views(self.deny@)
        }
    }

    pub fn effective_deny(&self) -> (r: Vec<String>)
        ensures
            views(r@) == self.denied(),
    {
        if self.deny.len() == 0 {
            default_deny()
        } else {
            copy_strings(&self.deny)
        }
    }
}

/// What is said where no key is to be found.
pub const NO_API_KEY: &'static str = "未找到 API key：请在 config.yaml 的 llm.api_key 填写，或设置环境变量 OPENAI_API_KEY / API_KEY";

/// A setting that may be left empty: one without a character counts as missing.
pub open spec fn filled(setting: Option<Seq<char>>) -> Option<Seq<char>> {
    match setting {
        Some(t) => if t.len() > 0 {
            Some(t)
        } else {
            None
        },
        None => None,
    }
}

pub(crate) fn take_filled(setting: &Option<String>) -> (r: Option<String>)
    ensures
        opt_view(r) == filled(opt_view(*setting)),
{
    match setting {
        Some(t) => if t.as_str().is_empty() {
            None
        } else {
            Some(t.clone())
        },
        None => None,
    }
}

impl Config {
    /// The key that counts: that of the configuration unless it is blank, else that under
    /// `OPENAI_API_KEY`, else that under `API_KEY`.
    pub open spec fn key(self, openai: Option<Seq<char>>, other: Option<Seq<char>>) -> Option<Seq<char>> {
        if trimmed(self.llm.api_key@).len() > 0 {
            Some(trimmed(self.llm.api_key@))
        } else {
            match openai {
                Some(k) => Some(k),
                None => other,
            }
        }
    }

    /// [`Config::key`], from what the environment has under `OPENAI_API_KEY` and `API_KEY`; an
    /// error where there is none.
    pub fn resolve_api_key(&self, openai: Option<String>, other: Option<String>) -> (r: Result<
        String,
        String,
    >)
        ensures
            match r {
                Ok(k) => self.key(opt_view(openai), opt_view(other)) == Some(k@),
                Err(e) => self.key(opt_view(openai), opt_view(other)) is None && e@ == NO_API_KEY@,
            },
    {
        let own = trim(self.llm.api_key.as_str());
        if !own.as_str().is_empty() {
            return Ok(own);
        }
        match openai {
            Some(k) => Ok(k),
            None => match other {
                Some(k) => Ok(k),
                None => Err(NO_API_KEY.to_owned()),
            },
        }
    }

    pub fn llm_config(&self, api_key: String) -> (r: LlmConfig)
        ensures
            r.api_base@ == self.llm.api_base@,
            r.api_key@ == api_key@,
            r.model@ == self.llm.model@,
            r.prompt_cache_control == self.llm.prompt_cache_control,
    {
        LlmConfig {
            api_base: self.llm.api_base.clone(),
            api_key,
            model: self.llm.model.clone(),
            prompt_cache_control: self.llm.prompt_cache_control,
        }
    }

    pub fn embeddings_config(&self, api_key: String) -> (r: EmbedConfig)
        ensures
            r.api_base@ == match filled(opt_view(self.embeddings.api_base)) {
                Some(b) => b,
                None => self.llm.api_base@,
            },
            r.api_key@ == api_key@,
            r.model@ == self.embeddings.model@,
    {
        let api_base = match take_filled(&self.embeddings.api_base) {
            Some(b) => b,
            None => self.llm.api_base.clone(),
        };
        EmbedConfig { api_base, api_key, model: self.embeddings.model.clone() }
    }
}

// ---------- persona ----------

/// The persona in the text of its file.
pub fn load_persona(raw: &str) -> (r: String)
    ensures
        r@ == trimmed(raw@),
{
    trim(raw)
}

pub open spec fn persona_failure(path: Seq<char>, e: Seq<char>) -> Seq<char> {
    "读取人设文件 "@ + path + " 失败: "@ + e
        + "\n请在项目根目录创建 AGENTS.md 描述助手人设。"@
}

/// What is said where the file of the persona cannot be read.
pub fn persona_error(path: &str, e: &str) -> (r: String)
    ensures
        r@ == persona_failure(path@, e@),
{
    let mut r = "读取人设文件 ".to_owned();
    r.append(path);
    r.append(" 失败: ");
    r.append(e);
    r.append("\n请在项目根目录创建 AGENTS.md 描述助手人设。");
    r
}

// ---------- skills ----------

/// A value without white space and quotes around it.
pub open spec fn unquoted(s: Seq<char>) -> Seq<char> {
    trim_end_by(trim_start_by(trimmed(s), CharClass::Just('"')), CharClass::Just('"'))
}

/// The name and the description that the lines give. Of several, the last counts.
pub open spec fn header_fields(lines: Seq<Seq<char>>) -> (Seq<char>, Seq<char>)
    decreases lines.len(),
{
    if lines.len() == 0 {
        (""@, ""@)
    } else {
        let (name, description) = header_fields(lines.drop_last());
        let line = trimmed(lines.last());
        match (after_prefix(line, "name:"@), after_prefix(line, "description:"@)) {
            (Some(v), _) => (unquoted(v), description),
            (None, Some(v)) => (name, unquoted(v)),
            (None, None) => (name, description),
        }
    }
}

/// What stands between the lines of dashes at the start of a file.
pub open spec fn header_part(content: Seq<char>) -> Option<Seq<char>> {
    match after_prefix(trim_start_by(content, CharClass::Blank), "---"@) {
        Some(rest) => match find(rest, "\n---"@) {
            Some(end) => Some(rest.take(end)),
            None => None,
        },
        None => None,
    }
}

/// The name and the description of a skill, as its file gives them.
pub open spec fn skill_header(content: Seq<char>) -> Option<(Seq<char>, Seq<char>)> {
    match header_part(content) {
        Some(part) => Some(header_fields(line_pieces(part))),
        None => None,
    }
}

fn unquote(s: &str) -> (r: String)
    ensures
        r@ == unquoted(s@),
{
    let t = trim(s);
    let t = trim_start_matches(t.as_str(), CharClass::Just('"'));
    trim_end_matches(t.as_str(), CharClass::Just('"'))
}

/// [`skill_header`].
pub fn parse_frontmatter(content: &str) -> (r: Option<(String, String)>)
    ensures
        match r {
            Some(p) => skill_header(content@) == Some((p.0@, p.1@)),
            None => skill_header(content@) is None,
        },
{
    let start = trim_start_matches(content, CharClass::Blank);
    let rest = match strip_prefix(start.as_str(), "---") {
        Some(rest) => rest,
        None => return None,
    };
    let v = chars_of(rest.as_str());
    let dashes = chars_of("\n---");
    let end: usize = match find_chars(&v, &dashes, 0) {
        Some(end) => end,
        None => return None,
    };
    let part = string_of(&v, 0, end);
    assert(part@ =~= rest@.take(end as int));
    let lines = split_lines(part.as_str());
    let ghost all = line_pieces(part@);
    let mut name = "".to_owned();
    let mut description = "".to_owned();
    let mut i: usize = 0;
    assert(all.take(0) =~= Seq::empty());
    while i < lines.len()
        invariant
            i <= lines@.len(),
            views(lines@) == all,
            (name@, description@) == header_fields(all.take(i as int)),
        decreases lines@.len() - i,
    {
        assert(all.take(i + 1).drop_last() =~= all.take(i as int));
        assert(lines@[i as int]@ == all[i as int]);
        let line = trim(lines[i].as_str());
        if let Some(v) = strip_prefix(line.as_str(), "name:") {
            name = unquote(v.as_str());
        } else if let Some(v) = strip_prefix(line.as_str(), "description:") {
            description = unquote(v.as_str());
        }
        i += 1;
    }
    assert(all.take(all.len() as int) =~= all);
    Some((name, description))
}

/// The name and the description of the skill in a directory. A skill without a name has that of
/// its directory; a file without a header is no skill.
pub open spec fn skill_entry(directory: Seq<char>, content: Seq<char>) -> Option<(Seq<char>, Seq<char>)> {
    match skill_header(content) {
        Some((name, description)) => Some(
            (
                if name.len() == 0 {
                    directory
                } else {
                    name
                },
                description,
            ),
        ),
        None => None,
    }
}

pub fn read_skill(directory: &str, content: &str) -> (r: Option<(String, String)>)
    ensures
        match r {
            Some(p) => skill_entry(directory@, content@) == Some((p.0@, p.1@)),
            None => skill_entry(directory@, content@) is None,
        },
{
    match parse_frontmatter(content) {
        Some((name, description)) => {
            if name.as_str().is_empty() {
                Some((directory.to_owned(), description))
            } else {
                Some((name, description))
            }
        },
        None => None,
    }
}

/// The skills of directories, in their order.
pub open spec fn skill_entries(files: Seq<(String, String)>) -> Seq<(Seq<char>, Seq<char>)>
    decreases files.len(),
{
    if files.len() == 0 {
        Seq::empty()
    } else {
        match skill_entry(files.last().0@, files.last().1@) {
            Some(e) => skill_entries(files.drop_last()).push(e),
            None => skill_entries(files.drop_last()),
        }
    }
}

pub open spec fn skill_lines(entries: Seq<(Seq<char>, Seq<char>)>) -> Seq<char>
    decreases entries.len(),
{
    if entries.len() == 0 {
        Seq::empty()
    } else {
        skill_lines(entries.drop_last()) + "- "@ + entries.last().0 + ": "@ + entries.last().1
            + "\n"@
    }
}

/// The list of skills that goes behind the persona. Empty where there are none.
pub open spec fn skills_summary(entries: Seq<(Seq<char>, Seq<char>)>) -> Seq<char> {
    if entries.len() == 0 {
        ""@
    } else {
        "\n\n## 可用技能\n"@ + skill_lines(entries)
            + "用 skill_use(\"技能名\") 运行技能；用 skill_create 创建新技能。"@
    }
}

/// The list of the skills whose files these are, each with the name of its directory.
pub fn load_skills_summary(files: &Vec<(String, String)>) -> (r: String)
    ensures
        r@ == skills_summary(skill_entries(files@)),
{
    let mut lines = String::new();
    let mut any = false;
    let mut i: usize = 0;
    proof {
        assert(files@.take(0) =~= Seq::empty());
        assert(lines@ =~= skill_lines(skill_entries(files@.take(0))));
    }
    while i < files.len()
        invariant
            i <= files@.len(),
            lines@ == skill_lines(skill_entries(files@.take(i as int))),
            any == (skill_entries(files@.take(i as int)).len() > 0),
        decreases files@.len() - i,
    {
        assert(files@.take(i + 1).drop_last() =~= files@.take(i as int));
        let ghost before = skill_entries(files@.take(i as int));
        if let Some((name, description)) = read_skill(files[i].0.as_str(), files[i].1.as_str()) {
            any = true;
            lines.append("- ");
            lines.append(name.as_str());
            lines.append(": ");
            lines.append(description.as_str());
            lines.append("\n");
            assert(before.push((name@, description@)).drop_last() =~= before);
        }
        i += 1;
    }
    assert(files@.take(files@.len() as int) =~= files@);
    if !any {
        return "".to_owned();
    }
    let mut out = "\n\n## 可用技能\n".to_owned();
    out.append(lines.as_str());
    out.append("用 skill_use(\"技能名\") 运行技能；用 skill_create 创建新技能。");
    out
}

} // verus!
