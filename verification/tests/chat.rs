use localai::cordis::{Loader, Service};
use localai::llm::client::{ChatResponse, ChatUsage};
use localai::plugins::memory::{MemoryOptions, MemoryService};
use localai::plugins::chat::{
    command_reply, default_turns, factory, ChatOptions, ChatService, Outgoing, CHAT_SYSTEM,
};

fn test_svc() -> ChatService {
    ChatService {
        history: vec![],
        enable_thinking: false,
        history_turns: 2,
        current: None,
        cancelled: vec![],
    }
}

fn response(content: &str) -> ChatResponse {
    ChatResponse {
        content: content.to_string(),
        finish_reason: String::new(),
        usage: ChatUsage {
            total_time: None,
            cached_tokens: None,
            prompt_tokens: None,
            completion_tokens: None,
            model_load_duration: None,
        },
        latency_ms: 0,
    }
}

#[test]
fn cancel_current_only_when_busy() {
    let mut svc = test_svc();
    assert!(!svc.cancel_current(), "空闲时不应有调用可中断");
    assert!(!svc.is_busy());
    let token = 7;
    svc.submit(token, "m");
    assert!(svc.is_busy(), "有调用时应标记 busy");
    assert!(svc.cancel_current(), "有调用时应能中断");
    assert!(!svc.is_busy(), "中断后令牌被取出,应回到空闲");
    assert!(svc.is_cancelled(token), "取消标志应置位(粘性)");
    assert!(!svc.cancel_current());
}

fn status(o: &Outgoing) -> &str {
    match o {
        Outgoing::Status(s) => s,
        Outgoing::Reply(_, _) => panic!("应为状态"),
    }
}

#[test]
fn cancelled_replies_are_dropped() {
    let mut svc = test_svc();
    assert_eq!(svc.submit(1, "m"), "[chat] 已提交,调用 m ...");
    svc.cancel_current();
    let out = svc.finish(1, "问", Some(Ok("答".to_string())), "1s");
    assert_eq!(out.len(), 1);
    assert_eq!(status(&out[0]), "[chat] 已取消");
    svc.submit(2, "m");
    svc.cancel_current();
    assert_eq!(svc.finish(2, "问", None, "1s").len(), 1);
}

#[test]
fn replies_and_errors_are_sent_out() {
    let mut svc = test_svc();
    svc.submit(1, "m");
    let out = svc.finish(1, "问", Some(Ok("答".to_string())), "1.5s");
    assert_eq!(status(&out[0]), "[chat] 回复完成 (1.5s)");
    assert!(matches!(&out[1], Outgoing::Reply(t, u) if t == "答" && u == "问"));
    assert!(!svc.is_busy());
    svc.submit(2, "m");
    svc.submit(3, "m");
    let failed = svc.finish(2, "问", Some(Err("HTTP 500".to_string())), "1s");
    assert_eq!(status(&failed[0]), "[chat] 错误: HTTP 500");
    assert!(svc.is_busy(), "新调用不应被旧调用清空");
}

#[test]
fn the_system_prompt_is_kept() {
    let mut svc = ChatService::new(&ChatOptions {
        model: None,
        enable_thinking: true,
        history_turns: 1,
    });
    let first = svc.ask("一", "m");
    assert_eq!(first.messages.len(), 2);
    assert_eq!(first.messages[0].content, CHAT_SYSTEM);
    assert_eq!((first.max_tokens, first.json, first.enable_thinking), (900, false, true));
    assert_eq!(svc.answered(Ok(response("答"))).unwrap(), "答");
    let second = svc.ask("二", "m");
    let said: Vec<&str> = second.messages.iter().map(|m| m.content.as_str()).collect();
    assert_eq!(said, vec![CHAT_SYSTEM, "答", "二"]);
    assert_eq!(second.messages[0].role, "system");
    assert_eq!(svc.answered(Err("x".to_string())).err().unwrap(), "x");
    assert_eq!(svc.history.len(), 3);
}

#[test]
fn old_turns_are_dropped() {
    let mut svc = ChatService::new(&ChatOptions {
        model: None,
        enable_thinking: false,
        history_turns: 2,
    });
    for (q, a) in [("一", "甲"), ("二", "乙"), ("三", "丙")] {
        let asked = svc.ask(q, "m");
        assert!(asked.messages.len() <= 5);
        assert_eq!(asked.messages[0].content, CHAT_SYSTEM);
        assert_eq!(asked.messages.last().unwrap().content, q);
        svc.answered(Ok(response(a))).unwrap();
    }
    let last = svc.ask("四", "m");
    let said: Vec<&str> = last.messages.iter().map(|m| m.content.as_str()).collect();
    assert_eq!(said, vec![CHAT_SYSTEM, "乙", "三", "丙", "四"]);
}

#[test]
fn options_have_defaults() {
    let o = ChatOptions::default();
    assert!(o.model.is_none() && !o.enable_thinking);
    assert_eq!(o.history_turns, 0);
    assert_eq!(default_turns(), 6);
    let mut svc = ChatService::new(&o);
    assert_eq!(svc.ask("只有这句", "m").messages.len(), 2);
    svc.answered(Ok(response("答"))).unwrap();
    let second = svc.ask("再来", "m");
    let said: Vec<&str> = second.messages.iter().map(|m| m.content.as_str()).collect();
    assert_eq!(said, vec![CHAT_SYSTEM, "再来"]);
}

#[test]
fn the_command_answers_at_once() {
    assert_eq!(command_reply(Ok("答".to_string())), "答");
    assert_eq!(command_reply(Err("网络".to_string())), "错误: 网络");
}

#[test]
fn the_plugin_registers_and_reverts() {
    let mut l = Loader::new(vec![factory()]);
    assert!(l.load("chat", None, Err("坏选项".to_string())).is_err());
    assert!(l.load("chat", None, Ok(ChatOptions::default())).is_ok());
    assert!(l.root().run_command("/chat 你好").is_some());
    assert!(l.root().has_service::<ChatService>());
    assert_eq!(ChatService::service_name_static(), "chat");
    l.unload("chat").unwrap();
    assert!(l.root().run_command("chat x").is_none());
    assert!(!l.root().has_service::<ChatService>());
}

#[test]
fn the_memory_stands_in_for_the_history() {
    let chat = test_svc();
    let mut memory = MemoryService::new(
        &MemoryOptions { trigger_turns: 1, ..MemoryOptions::default() },
        None,
    );
    memory.critical.push("用中文".to_string());
    let q = chat.ask_from_memory(&mut memory, "你好", "12:00:00", "m");
    assert_eq!(q.seq, 1);
    assert!(q.score.unwrap().messages[0].content.contains("对话评分器"));
    let told: Vec<&str> = q.request.messages.iter().map(|m| m.content.as_str()).collect();
    assert_eq!(told, vec![CHAT_SYSTEM, "[关键记忆]\n用中文", "你好"]);
    assert_eq!((q.request.max_tokens, q.request.json), (900, false));
    let (answer, audit) =
        chat.answered_from_memory(&mut memory, Ok(response("答")), "12:00:01", "m");
    assert_eq!(answer.unwrap(), "答");
    assert!(audit.unwrap().request.messages[0].content.contains("上下文压缩器"));
    assert_eq!(memory.history().len(), 2);
    assert_eq!((memory.history()[1].role.as_str(), memory.history()[1].score), ("assistant", 3));
    assert!(chat.history.is_empty());
    let (answer, audit) =
        chat.answered_from_memory(&mut memory, Err("断网".to_string()), "12:00:02", "m");
    assert_eq!(answer.err().unwrap(), "断网");
    assert!(audit.is_none());
    assert_eq!(memory.history().len(), 2);
}
