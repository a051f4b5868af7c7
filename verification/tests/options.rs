use localai::llm::{LlmClient, LlmConfig};
use localai::plugins::chat::{ChatOptions, CHAT_SYSTEM};
use localai::plugins::memory::{ChatSnapshot, MemoryOptions};
use localai::plugins::microtask::MicroOptions;
use localai::plugins::tools::ToolsOptions;
use localai::plugins::BuiltinOptions;

fn client() -> LlmClient {
    LlmClient::new(LlmConfig {
        base_url: "http://x".to_string(),
        api_key: "k".to_string(),
        model: "base".to_string(),
        timeout_secs: 5,
        max_concurrent: 2,
    })
}

fn broken() -> BuiltinOptions {
    BuiltinOptions {
        memory: Err("m".to_string()),
        chat: Err("c".to_string()),
        microtask: Err("t".to_string()),
        tools: Err("r".to_string()),
    }
}

#[test]
fn options_make_the_services() {
    let options = BuiltinOptions {
        memory: Ok(MemoryOptions { history_turns: 3, ..MemoryOptions::default() }),
        chat: Ok(ChatOptions {
            model: Some("talk".to_string()),
            enable_thinking: true,
            history_turns: 4,
        }),
        microtask: Ok(MicroOptions { model: None, max_retries: 7 }),
        tools: Ok(ToolsOptions { run_timeout_secs: Some(2) }),
    };
    let mut c = client();
    let last = ChatSnapshot {
        seq: 9,
        history: vec![],
        critical: vec!["关键".to_string()],
        memory: None,
        since_audit: 1,
    };
    let memory = options.memory_service(Some(last)).unwrap();
    assert_eq!((memory.seq, memory.saved, memory.settings.history_turns), (9, 8, 3));
    assert_eq!(memory.critical, vec!["关键"]);
    assert_eq!(options.micro_service(&mut c).unwrap().engine.max_retries, 7);
    assert_eq!(c.model(), "base");
    let chat = options.chat_service(&mut c).unwrap();
    assert_eq!(c.model(), "talk");
    assert_eq!((chat.enable_thinking, chat.history_turns), (true, 4));
    assert_eq!(chat.history[0].content, CHAT_SYSTEM);
    assert_eq!(options.run_timeout(), Some(2_000_000_000));
}

#[test]
fn options_that_mean_nothing_make_none() {
    let mut c = client();
    assert!(broken().memory_service(None).is_none());
    assert!(broken().chat_service(&mut c).is_none());
    assert!(broken().micro_service(&mut c).is_none());
    assert_eq!(broken().run_timeout(), None);
    assert_eq!(c.model(), "base");
    let off = BuiltinOptions {
        memory: Ok(MemoryOptions { enabled: false, ..MemoryOptions::default() }),
        ..broken()
    };
    assert!(off.memory_service(None).is_none());
}
