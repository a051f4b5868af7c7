use localai::json::Json;
use localai::llm::compress::{
    audit_of, audit_system, parse_audit, parse_score, score_of, score_system,
};
use localai::llm::{now_ts, Compressor, HistoryEntry};

#[test]
fn parse_score_handles_json_and_garbage() {
    let ok = parse_score(r#"{"score": 5, "critical": "约束:始终用中文"}"#).unwrap();
    assert_eq!(ok.score, 5);
    assert_eq!(ok.critical.as_deref(), Some("约束:始终用中文"));
    let noisy = parse_score("好的\n```json\n{\"score\": 1}\n```").unwrap();
    assert_eq!(noisy.score, 1);
    assert!(noisy.critical.is_none());
    assert!(parse_score("完全没有 JSON").is_err());
    assert_eq!(parse_score("x").err().unwrap(), "评分输出无 JSON: x");
}

#[test]
fn parse_audit_handles_lists_and_clamps() {
    let a = parse_audit(
        r#"{"scores":[{"seq":1,"score":5},{"seq":2,"score":9}],
               "critical":["约束A"],
               "memory":"摘要",
               "dropped_seqs":[3,7]}"#,
    )
    .unwrap();
    assert_eq!(a.scores, vec![(1, 5), (2, 5)], "分数应 clamp 到 1~5");
    assert_eq!(a.critical, vec!["约束A"]);
    assert_eq!(a.memory, "摘要");
    assert_eq!(a.dropped_seqs, vec![3, 7]);
    let empty = parse_audit(r#"{"scores":[]}"#).unwrap();
    assert!(empty.critical.is_empty() && empty.memory.is_empty());
    assert_eq!(parse_audit("?").err().unwrap(), "审计输出无 JSON: ?");
}

#[test]
fn templates_embed_rubric_and_params() {
    assert!(score_system().contains("往低打"));
    let a = audit_system(500, 8, false);
    assert!(a.contains("500 字") && a.contains("8 条"));
    assert!(!a.contains("重审"));
    let b = audit_system(500, 8, true);
    assert!(b.contains("待重审的旧关键记忆清单"));
}

#[test]
fn scores_are_read_from_a_tree() {
    let s = score_of(&Json::parse(r#"{"score": 0, "critical": "  "}"#).unwrap());
    assert_eq!(s.score, 1);
    assert!(s.critical.is_none());
    let none = score_of(&Json::parse(r#"{"score": "5", "critical": " x "}"#).unwrap());
    assert_eq!(none.score, 3);
    assert_eq!(none.critical.as_deref(), Some("x"));
    let a = audit_of(
        &Json::parse(
            r#"{"scores":[{"score":2},{"seq":4}],"critical":[" a ","",7],"memory":" m ","dropped_seqs":[1,"2",3]}"#,
        )
        .unwrap(),
    );
    assert_eq!(a.scores, vec![(0, 2), (4, 3)]);
    assert_eq!(a.critical, vec!["a"]);
    assert_eq!(a.memory, "m");
    assert_eq!(a.dropped_seqs, vec![1, 3]);
}

#[test]
fn entries_carry_their_roles_and_scores() {
    let u = HistoryEntry::user("a".to_string(), 1, "t".to_string());
    assert_eq!((u.role.as_str(), u.score, u.seq), ("user", 0, 1));
    let t = HistoryEntry::tool_result("b".to_string(), 2, "t".to_string());
    assert_eq!((t.role.as_str(), t.score), ("user", 3));
    let a = HistoryEntry::assistant("c".to_string(), 3, "t".to_string()).with_score(9);
    assert_eq!((a.role.as_str(), a.score), ("assistant", 5));
    assert_eq!(u.with_score(4).score, 4);
}

#[test]
fn requests_for_scores_and_audits() {
    let c = Compressor::new(500, 8);
    let e = HistoryEntry::assistant("答".to_string(), 7, "t".to_string());
    let s = c.score_entry(&e, "m");
    assert_eq!(s.messages.len(), 2);
    assert_eq!(s.messages[1].role, "assistant");
    assert_eq!(s.messages[1].content, "答");
    assert_eq!((s.max_tokens, s.json, s.enable_thinking), (200, true, false));
    let a = c.audit(&vec![e], &vec!["旧".to_string(), "约".to_string()], "m");
    assert_eq!(a.messages.len(), 3);
    assert_eq!(a.messages[1].content, "<seq=7> [assistant]\n答");
    assert_eq!(a.messages[2].content, "待重审的旧关键记忆清单:\n- 旧\n- 约");
    assert_eq!(a.max_tokens, 500);
    let plain = c.audit(&Vec::new(), &Vec::new(), "m");
    assert_eq!(plain.messages.len(), 1);
    assert_eq!(plain.messages[0].content, audit_system(500, 8, false));
}

#[test]
fn the_time_of_day() {
    assert_eq!(now_ts(0), "00:00:00");
    assert_eq!(now_ts(86_399), "23:59:59");
    assert_eq!(now_ts(90_061), "01:01:01");
}
