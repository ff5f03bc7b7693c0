use applepi::json::Json;
use applepi::llm::Message;
use applepi::memory::{
    char_split, migrate, pick_model, recall, History, LocalModel, Search, SCHEMA_VERSION,
};
use applepi::tools::memory::WriteMemoryTool;
use rusqlite::Connection;

fn search(query: &str, top_k: usize) -> String {
    match recall(query, top_k) {
        Search::Latest(n) => format!("latest/{n}"),
        Search::Matching(q, n) => format!("{q}/{n}"),
    }
}

#[test]
fn a_history_starts_with_the_system_message_and_grows() {
    let mut h = History::new("s".into());
    h.add(Message::user("u"));
    let all = h.all();
    assert_eq!(all.len(), 2);
    assert_eq!(all[0].role, "system");
    assert_eq!(all[0].content.as_deref(), Some("s"));
    assert_eq!(all[1].content.as_deref(), Some("u"));
}

#[test]
fn texts_are_cut_into_characters() {
    assert_eq!(char_split("苹果派很好吃"), "苹 果 派 很 好 吃");
    assert_eq!(char_split("a b\t\"c*\"(d):^-+|\u{7}"), "a b c d");
    assert_eq!(char_split(""), "");
    let once = char_split("苹果 Pie!");
    assert_eq!(char_split(&once), once);
}

#[test]
fn a_query_without_characters_gives_the_latest() {
    assert_eq!(search("苹果", 3), "\"苹\" \"果\"/3");
    assert_eq!(search("a,b", 3), "\"a\" \",\" \"b\"/3");
    assert_eq!(search(" -*", 3), "latest/3");
    assert_eq!(search("", 0), "latest/0");
}

#[test]
fn earlier_stores_are_brought_up_to_date() {
    assert!(migrate(SCHEMA_VERSION, None).is_none());
    assert!(migrate(4, None).is_none());
    let m = migrate(2, Some(&vec![("苹果".to_string(), "2024".to_string())])).unwrap();
    assert_eq!(m.version, 3);
    assert!(m.drops_old);
    assert_eq!(m.rows.len(), 1);
    assert_eq!(m.rows[0].indexed, "苹 果");
    assert_eq!(m.rows[0].raw, "苹果");
    assert_eq!(m.rows[0].created_at, "2024");
    let m = migrate(0, None).unwrap();
    assert!(!m.drops_old);
    assert!(m.rows.is_empty());
}

#[test]
fn models_are_picked_by_name() {
    assert_eq!(pick_model(" "), Ok(LocalModel::BgeSmallZh));
    assert_eq!(pick_model("BGE-small-zh"), Ok(LocalModel::BgeSmallZh));
    assert_eq!(pick_model("bge-large-zh-v1.5"), Ok(LocalModel::BgeLargeZh));
    assert_eq!(pick_model("bge-small-en"), Ok(LocalModel::BgeSmallEn));
    assert_eq!(pick_model("bge-base-en"), Ok(LocalModel::BgeBaseEn));
    assert_eq!(pick_model("multilingual-e5-small"), Ok(LocalModel::E5Small));
    assert_eq!(pick_model("multilingual-e5-base"), Ok(LocalModel::E5Base));
    assert_eq!(pick_model("multilingual-e5-large"), Ok(LocalModel::E5Large));
    assert_eq!(pick_model("bgem3"), Ok(LocalModel::BgeM3));
    let e = pick_model("GPT").unwrap_err();
    assert!(e.starts_with("未知 embeddings.model 'gpt'；可用：bge-small-zh-v1.5 | "));
    assert!(e.ends_with(" | bge-m3"));
}

fn store() -> Connection {
    let store = Connection::open_in_memory().unwrap();
    store
        .execute_batch(
            "CREATE VIRTUAL TABLE memories_fts USING fts5(text_indexed, text_raw UNINDEXED, \
             created_at UNINDEXED, tokenize = 'unicode61 remove_diacritics 2');",
        )
        .unwrap();
    store
}

fn keep(store: &Connection, text: &str) {
    store
        .execute(
            "INSERT INTO memories_fts (text_indexed, text_raw, created_at) VALUES (?1, ?2, datetime('now'))",
            (char_split(text), text),
        )
        .unwrap();
}

fn found(store: &Connection, query: &str, top_k: usize) -> Vec<String> {
    let Search::Matching(query, limit) = recall(query, top_k) else {
        panic!("there is something to search for")
    };
    let mut statement = store
        .prepare(
            "SELECT text_raw FROM memories_fts WHERE memories_fts MATCH ?1 \
             ORDER BY bm25(memories_fts) ASC LIMIT ?2",
        )
        .unwrap();
    let rows = statement.query_map((query, limit), |row| row.get::<_, String>(0)).unwrap();
    rows.map(|r| r.unwrap()).collect()
}

#[test]
fn a_statement_is_found_by_itself() {
    let store = store();
    let texts = [
        "a,b",
        "用户的邮箱是 x@example.com，电话 123-456。",
        "NOT this AND that OR NEAR(x)",
        "what? {a}: [b] 'c' \"d\" ; e/f\\g & h % $ # = ! ~ ` < >",
        "x",
    ];
    for t in texts {
        keep(&store, t);
    }
    for t in texts {
        let hits = found(&store, t, texts.len());
        assert!(hits.iter().any(|h| h == t), "{t}");
        assert!(hits.len() <= texts.len());
    }
    assert!(found(&store, "苹果", 5).is_empty());
}

#[test]
fn write_memory_then_recall() {
    let store = store();
    let tool = WriteMemoryTool;

    let args = Json::parse(r#"{ "content": "用户喜欢用 Rust 写后端服务" }"#).unwrap();
    let content = tool.content(&args).unwrap();
    keep(&store, &content);
    let result = tool.run(&content);
    assert!(result.contains("已写入长期记忆"));
    assert_eq!(result, "已写入长期记忆（16 字符）");

    let hits = found(&store, "Rust 后端", 5);
    assert!(hits.iter().any(|h| h.contains("Rust")));

    let err = tool.content(&Json::parse(r#"{ "content": "   " }"#).unwrap());
    assert!(err.is_err());
    assert_eq!(err.unwrap_err(), "content 不能为空");
}
