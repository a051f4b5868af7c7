use localai::cordis::Loader;
use localai::llm::compress::{parse_audit, parse_score};
use localai::llm::HistoryEntry;
use localai::plugins::memory::{
    evict, factory, merge_critical, trim, ChatSnapshot, DirFacts, MemoryOptions, MemoryService,
    Persist, PersistOptions, ResolvedDir,
};

fn test_memory() -> MemoryService {
    MemoryService::new(
        &MemoryOptions {
            enabled: true,
            history_turns: 10,
            trigger_turns: 100,
            ..MemoryOptions::default()
        },
        None,
    )
}

fn texts(v: &[&str]) -> Vec<String> {
    v.iter().map(|s| s.to_string()).collect()
}

#[test]
fn background_scoring_writes_entry_score_and_critical() {
    let mut svc = test_memory();
    let (seq, req) = svc.record_user("以后都用中文回答", "12:00:00", "m");
    let req = req.unwrap();
    assert!(req.messages[0].content.contains("对话评分器"));
    let s = parse_score(r#"{"score": 5, "critical": "约束:始终用中文"}"#).unwrap();
    svc.apply_score(seq, s);
    let scored = svc.history.iter().find(|e| e.role == "user").map(|e| e.score).unwrap_or(0);
    assert_eq!(scored, 5);
    assert!(svc.critical.iter().any(|c| c.contains("用中文")), "S 级关键记忆应入库");
    let again = parse_score(r#"{"score": 5, "critical": "约束:始终用中文"}"#).unwrap();
    svc.apply_score(seq, again);
    assert_eq!(svc.critical.len(), 1);
}

#[test]
fn audit_applies_scores_memory_and_evicts() {
    let mut svc = test_memory();
    svc.settings.trigger_turns = 1;
    svc.settings.grace_turns = 0;
    let (seq, _) = svc.record_user("你好", "t", "m");
    svc.apply_score(seq, parse_score(r#"{"score": 1}"#).unwrap());
    svc.record_assistant("回复", "t");
    let start = svc.audit_if_needed("m").unwrap();
    assert!(start.request.messages[0].content.contains("上下文压缩器"));
    assert!(!start.reaudit);
    let outcome = parse_audit(
        r#"{"scores":[{"seq":1,"score":1},{"seq":2,"score":4}],
                   "critical":["约束X"],
                   "memory":"早期事实摘要",
                   "dropped_seqs":[1]}"#,
    )
    .unwrap();
    svc.apply_audit(outcome, start.reaudit);
    assert!(!svc.history.is_empty());
    assert!(!svc.history.iter().any(|e| e.seq == 1), "seq=1 应被驱逐");
    assert_eq!(svc.memory.as_deref(), Some("早期事实摘要"));
    assert!(svc.critical.iter().any(|c| c.contains("约束X")));
    assert_eq!(svc.history[0].score, 4);
}

#[test]
fn evict_honors_grace_window_and_dropped() {
    let mk = |seq: u64| HistoryEntry::user(format!("m{seq}"), seq, "t".to_string());
    let entries = vec![mk(1), mk(2), mk(3), mk(4)];
    let kept = evict(&entries, &vec![1, 3], 2);
    let seqs: Vec<u64> = kept.iter().map(|e| e.seq).collect();
    assert_eq!(seqs, vec![2, 3, 4], "seq1 被驱逐,seq3 受临时窗口保护");
    let kept0 = evict(&entries, &vec![1, 3], 0);
    let seqs0: Vec<u64> = kept0.iter().map(|e| e.seq).collect();
    assert_eq!(seqs0, vec![2, 4]);
}

#[test]
fn merge_critical_dedups_and_reaudits() {
    let old = vec!["约束A".to_string(), "约束B".to_string()];
    let new = vec!["约束B".to_string(), "约束C".to_string()];
    let merged = merge_critical(&old, &new, 8, false);
    assert_eq!(merged, vec!["约束A", "约束B", "约束C"]);
    let re = merge_critical(&old, &new, 8, true);
    assert_eq!(re, vec!["约束B", "约束C"]);
    let cap = merge_critical(&old, &new, 2, false);
    assert_eq!(cap.len(), 2);
}

fn line(e: &HistoryEntry) -> String {
    let mut m = serde_json::Map::new();
    m.insert("role".to_string(), serde_json::Value::from(e.role.as_str()));
    m.insert("content".to_string(), serde_json::Value::from(e.content.as_str()));
    m.insert("score".to_string(), serde_json::Value::from(e.score));
    m.insert("seq".to_string(), serde_json::Value::from(e.seq));
    m.insert("ts".to_string(), serde_json::Value::from(e.ts.as_str()));
    serde_json::to_string(&serde_json::Value::Object(m)).unwrap()
}

#[test]
fn persist_roundtrip_and_resume() {
    let entry = HistoryEntry::user("你好".to_string(), 1, "12:00:00".to_string());
    let mut archive = Persist::append_conversation(&vec![line(&entry)]);
    archive.push_str(&Persist::append_session_marker("12:00:01"));
    assert_eq!(archive.lines().count(), 2, "档案应为 JSONL 追加");
    assert!(archive.contains("你好") && archive.contains("session"));
    let snap = ChatSnapshot {
        seq: 5,
        history: vec![entry.clone()],
        critical: vec!["约束X".to_string()],
        memory: Some("记忆".to_string()),
        since_audit: 2,
    };
    let loaded = MemoryService::new(&MemoryOptions::default(), Some(snap)).snapshot();
    assert_eq!(loaded.seq, 5);
    assert_eq!(loaded.history.len(), 1);
    assert_eq!(loaded.critical, vec!["约束X"]);
    assert_eq!(loaded.memory.as_deref(), Some("记忆"));
    assert_eq!(loaded.since_audit, 2);
    assert!(serde_json::from_str::<serde_json::Value>("{broken").is_err());
    assert!(MemoryService::new(&MemoryOptions::default(), None).history.is_empty());
}

fn dir(r: ResolvedDir) -> String {
    match r {
        ResolvedDir::Whole(d) => d,
        ResolvedDir::Below(a, b) => format!("{a}/{b}"),
    }
}

#[test]
fn resolve_dir_defaults_to_exe_home_and_absolute() {
    let facts = DirFacts {
        program: Some("/opt/localai".to_string()),
        current: Some("/work".to_string()),
        home: Some("/home/u".to_string()),
        profile: None,
    };
    let d = dir(Persist::resolve_dir(&None, &facts));
    assert!(d.starts_with('/'), "{d:?}");
    assert_eq!(dir(Persist::resolve_dir(&Some("default".to_string()), &facts)), d);
    assert_eq!(dir(Persist::resolve_dir(&Some(String::new()), &facts)), d);
    let home = dir(Persist::resolve_dir(&Some("~".to_string()), &facts));
    assert!(home.starts_with('/'), "{home:?}");
    assert_eq!(home, "/home/u");
    assert_eq!(dir(Persist::resolve_dir(&Some("~//a/b".to_string()), &facts)), "/home/u/a/b");
    let abs = dir(Persist::resolve_dir(&Some("/tmp/localai-ctx".to_string()), &facts));
    assert_eq!(abs, "/tmp/localai-ctx");
    let bare = DirFacts { program: None, current: None, home: None, profile: None };
    assert_eq!(dir(Persist::resolve_dir(&None, &bare)), ".");
    assert_eq!(dir(Persist::resolve_dir(&Some("~".to_string()), &bare)), ".");
}

#[test]
fn reset_session_clears_context_and_keeps_seq() {
    let mut svc = test_memory();
    svc.settings.compressor = None;
    svc.record_user("第一轮", "t", "m");
    svc.record_assistant("回复", "t");
    assert!(svc.audit_if_needed("m").is_none());
    svc.persist();
    let seq_before = svc.seq;
    assert!(svc.seq > 1);
    let kept = svc.reset_session().unwrap();
    assert!(kept.history.is_empty());
    assert!(svc.history.is_empty());
    assert!(svc.critical.is_empty());
    assert!(svc.seq >= seq_before, "seq 继续递增");
    let archive = Persist::append_session_marker("12:00:00");
    assert!(archive.contains("session"), "reset 应写入会话分隔");
    assert_eq!(archive, "{\"session\": \"12:00:00\"}\n");
}

#[test]
fn entries_are_archived_once_even_across_sessions() {
    let mut svc = test_memory();
    svc.record_user("a", "t", "m");
    svc.record_assistant("b", "t");
    let first = svc.persist().unwrap();
    assert_eq!(first.entries.iter().map(|e| e.seq).collect::<Vec<_>>(), vec![1, 2]);
    assert!(svc.persist().unwrap().entries.is_empty());
    let mut next = MemoryService::new(&MemoryOptions::default(), Some(svc.snapshot()));
    assert!(next.persist().unwrap().entries.is_empty());
    next.record_user("c", "t", "m");
    let more = next.persist().unwrap();
    assert_eq!(more.entries.iter().map(|e| e.seq).collect::<Vec<_>>(), vec![3]);
}

#[test]
fn answers_take_the_score_of_the_question() {
    let mut svc = test_memory();
    let (seq, _) = svc.record_user("q", "t", "m");
    svc.apply_score(seq, parse_score(r#"{"score": 4}"#).unwrap());
    svc.record_assistant("a", "t");
    assert_eq!(svc.history[1].score, 4);
    svc.record_user("unscored", "t", "m");
    svc.record_assistant("a2", "t");
    assert_eq!(svc.history[3].score, 3);
    svc.record_tool_result("out", "t");
    assert_eq!((svc.history[4].role.as_str(), svc.history[4].score), ("user", 3));
    let mut alone = test_memory();
    alone.record_assistant("a", "t");
    assert_eq!(alone.history[0].score, 3);
}

#[test]
fn audits_are_due_after_some_turns() {
    let mut svc = test_memory();
    svc.settings.trigger_turns = 3;
    assert!(svc.audit_if_needed("m").is_none());
    assert!(svc.audit_if_needed("m").is_none());
    svc.critical = texts(&["1", "2", "3", "4", "5", "6"]);
    let start = svc.audit_if_needed("m").unwrap();
    assert!(start.reaudit);
    assert_eq!(svc.since_audit, 0);
    assert!(start.request.messages.last().unwrap().content.contains("- 6"));
    svc.apply_audit(
        parse_audit(r#"{"critical":["新"],"memory":""}"#).unwrap(),
        start.reaudit,
    );
    assert_eq!(svc.critical, vec!["新"]);
    assert_eq!(svc.memory.as_deref(), Some(""));
}

#[test]
fn the_context_is_told_in_order() {
    let mut svc = test_memory();
    svc.record_user("q", "t", "m");
    assert_eq!(svc.build_context("base").len(), 2);
    svc.critical = texts(&["a", "b"]);
    svc.memory = Some("记".to_string());
    let told: Vec<(String, String)> =
        svc.build_context("base").into_iter().map(|m| (m.role, m.content)).collect();
    let want: Vec<(String, String)> = [
        ("system", "base"),
        ("system", "[关键记忆]\na\nb"),
        ("system", "[次级记忆]\n记"),
        ("user", "q"),
    ]
    .iter()
    .map(|(r, c)| (r.to_string(), c.to_string()))
    .collect();
    assert_eq!(told, want);
}

#[test]
fn the_history_keeps_the_last_turns() {
    let mk = |seq: u64| HistoryEntry::user("m".to_string(), seq, "t".to_string());
    let mut h = vec![mk(1), mk(2), mk(3), mk(4), mk(5)];
    trim(&mut h, 2);
    assert_eq!(h.iter().map(|e| e.seq).collect::<Vec<_>>(), vec![2, 3, 4, 5]);
    trim(&mut h, usize::MAX);
    assert_eq!(h.len(), 4);
    trim(&mut h, 0);
    assert!(h.is_empty());
}

#[test]
fn switched_off_it_keeps_nothing() {
    let mut svc = MemoryService::new(
        &MemoryOptions {
            enabled: false,
            persist: PersistOptions { dir: None },
            ..MemoryOptions::default()
        },
        Some(ChatSnapshot {
            seq: 9,
            history: Vec::new(),
            critical: texts(&["x"]),
            memory: None,
            since_audit: 0,
        }),
    );
    assert_eq!(svc.seq, 1);
    assert!(svc.critical.is_empty());
    assert!(svc.record_user("a", "t", "m").1.is_none());
    assert!(svc.audit_if_needed("m").is_none());
    assert!(svc.persist().is_none());
    assert!(svc.reset_session().is_none());
}

#[test]
fn the_command_for_a_new_session() {
    let mut l = Loader::new(vec![factory()]);
    assert!(l.load("memory", None, Ok(MemoryOptions::default())).is_ok());
    assert!(l.root().run_command("new").is_some());
    assert!(l.root().has_service::<MemoryService>());
    l.unload("memory").unwrap();
    assert!(l.root().run_command("new").is_none());
    let off = MemoryOptions { enabled: false, ..MemoryOptions::default() };
    assert!(l.load("memory", None, Ok(off)).is_ok());
    assert!(!l.root().has_service::<MemoryService>());
    assert_eq!(Persist::temp_name(Some("context.json"), 5), ".context.json.tmp-5");
    assert_eq!(Persist::temp_name(None, 5), ".ctx.tmp-5");
}

#[test]
fn the_history_stays_orderly() {
    let mut svc = test_memory();
    svc.settings.history_turns = 2;
    svc.settings.grace_turns = 1;
    for i in 0..3 {
        svc.record_user(&format!("q{i}"), "t", "m");
        svc.record_assistant("a", "t");
    }
    let seqs = |s: &MemoryService| s.history().iter().map(|e| e.seq).collect::<Vec<_>>();
    assert_eq!(seqs(&svc), vec![3, 4, 5, 6]);
    svc.apply_score(4, parse_score(r#"{"score": 9}"#).unwrap());
    svc.apply_audit(
        parse_audit(
            r#"{"scores":[{"seq":3,"score":2}],"critical":[],"memory":"","dropped_seqs":[4,6]}"#,
        )
        .unwrap(),
        false,
    );
    assert_eq!(seqs(&svc), vec![3, 5, 6], "最后一条受临时窗口保护");
    assert!(svc.history().iter().all(|e| e.score <= 5));
    assert_eq!(svc.critical_items(), Vec::<String>::new());
    assert_eq!(svc.memory_text().as_deref(), Some(""));
}

#[test]
fn numbers_are_never_used_twice() {
    let mut svc = test_memory();
    let mut used = Vec::new();
    for round in 0..3 {
        used.push(svc.record_user("问", "t", "m").0);
        svc.record_assistant("答", "t");
        svc.record_tool_result("工具", "t");
        used.extend(svc.history.iter().map(|e| e.seq).skip(1));
        if round == 1 {
            svc.persist();
        }
        assert!(used.iter().all(|n| *n < svc.seq));
        svc.reset_session();
        let told: Vec<String> = svc.build_context("b").into_iter().map(|m| m.content).collect();
        assert_eq!(told, vec!["b"]);
    }
    assert_eq!(used, vec![1, 2, 3, 4, 5, 6, 7, 8, 9]);
    assert_eq!((svc.seq, svc.saved), (10, 6));
}
