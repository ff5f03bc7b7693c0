use applepi::config::{
    default_deny, load_persona, load_skills_summary, parse_frontmatter, persona_error, read_skill,
    Config, CronSection, EmbeddingsSection, LlmSection, MemorySection, ShellSection,
    TelegramSection, NO_API_KEY,
};

fn config() -> Config {
    Config {
        llm: LlmSection {
            api_base: "base".into(),
            model: "m".into(),
            api_key: " key ".into(),
            prompt_cache_control: true,
        },
        embeddings: EmbeddingsSection::default(),
        memory: MemorySection::default(),
        telegram: TelegramSection::default(),
        mcp_servers: vec![],
        cron: CronSection::default(),
        shell: ShellSection::default(),
    }
}

#[test]
fn defaults_are_as_documented() {
    let c = config();
    assert!(!c.memory.enabled);
    assert_eq!(c.memory.db_path, "data/applepi.db");
    assert_eq!(c.memory.top_k_or(3), 3);
    assert_eq!(MemorySection { top_k: 9, ..MemorySection::default() }.top_k_or(3), 9);
    assert_eq!(c.telegram.bot_token, "");
    assert!(!c.cron.enabled);
    assert_eq!(c.cron.db_path, "data/cron.db");
    assert!(c.cron.jobs.is_empty());
    assert!(!c.shell.enabled);
    assert_eq!(c.shell.timeout, 30);
    assert!(c.shell.workdir.is_none());
}

#[test]
fn the_own_list_replaces_the_built_in_one() {
    let mut s = ShellSection::default();
    assert_eq!(s.effective_deny(), default_deny());
    assert_eq!(default_deny().len(), 12);
    assert_eq!(default_deny()[0], "rm -rf");
    s.deny = vec!["x".into()];
    assert_eq!(s.effective_deny(), vec!["x"]);
}

#[test]
fn the_key_is_looked_for_in_order() {
    let mut c = config();
    assert_eq!(c.resolve_api_key(Some("o".into()), None), Ok("key".to_string()));
    c.llm.api_key = "  ".into();
    assert_eq!(c.resolve_api_key(Some("o".into()), Some("a".into())), Ok("o".to_string()));
    assert_eq!(c.resolve_api_key(None, Some("a".into())), Ok("a".to_string()));
    assert_eq!(c.resolve_api_key(None, None), Err(NO_API_KEY.to_string()));
}

#[test]
fn the_parts_of_the_configuration_are_handed_on() {
    let mut c = config();
    let l = c.llm_config("k".into());
    assert_eq!((l.api_base.as_str(), l.api_key.as_str(), l.model.as_str()), ("base", "k", "m"));
    assert!(l.prompt_cache_control);
    assert_eq!(c.embeddings_config("k".into()).api_base, "base");
    c.embeddings.api_base = Some("".into());
    assert_eq!(c.embeddings_config("k".into()).api_base, "base");
    c.embeddings.api_base = Some("e".into());
    c.embeddings.model = "em".into();
    let e = c.embeddings_config("k".into());
    assert_eq!((e.api_base.as_str(), e.api_key.as_str(), e.model.as_str()), ("e", "k", "em"));
}

#[test]
fn the_persona_is_trimmed() {
    assert_eq!(load_persona("\n 你是助手 \n"), "你是助手");
    assert_eq!(
        persona_error("AGENTS.md", "none"),
        "读取人设文件 AGENTS.md 失败: none\n请在项目根目录创建 AGENTS.md 描述助手人设。"
    );
}

#[test]
fn headers_of_skills_are_read() {
    let text = "\n---\nname: \"a\"\ndescription: does: things\nname: b \nother: x\n---\nbody";
    assert_eq!(parse_frontmatter(text), Some(("b".to_string(), "does: things".to_string())));
    assert_eq!(parse_frontmatter("---\nname: a\n"), None);
    assert_eq!(parse_frontmatter("name: a"), None);
    assert_eq!(parse_frontmatter("---\n---"), Some(("".to_string(), "".to_string())));
    assert_eq!(read_skill("dir", "---\ndescription: d\n---"), Some(("dir".into(), "d".into())));
}

#[test]
fn skills_are_listed() {
    assert_eq!(load_skills_summary(&vec![]), "");
    assert_eq!(load_skills_summary(&vec![("d".into(), "nothing".into())]), "");
    let files = vec![
        ("one".to_string(), "---\nname: a\ndescription: x\n---\n".to_string()),
        ("bad".to_string(), "".to_string()),
        ("two".to_string(), "---\ndescription: y\n---\n".to_string()),
    ];
    assert_eq!(
        load_skills_summary(&files),
        "\n\n## 可用技能\n- a: x\n- two: y\n用 skill_use(\"技能名\") 运行技能；用 skill_create 创建新技能。"
    );
}
