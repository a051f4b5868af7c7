use localai::json::Json;
use localai::llm::client::{
    chat_response, failure_message, read_response, request_body, HttpFailure, Semaphore,
};
use localai::llm::{ChatMessage, ChatRequest, LlmClient, LlmConfig};

fn config(timeout_secs: u64, max_concurrent: usize) -> LlmConfig {
    LlmConfig {
        base_url: "http://x".to_string(),
        api_key: "k".to_string(),
        model: "Qwen3.6-35b".to_string(),
        timeout_secs,
        max_concurrent,
    }
}

fn request(json: bool, enable_thinking: bool) -> ChatRequest {
    ChatRequest {
        model: "m".to_string(),
        messages: vec![ChatMessage { role: "user".to_string(), content: "hi".to_string() }],
        max_tokens: 10,
        json,
        enable_thinking,
    }
}

#[test]
fn model_override_takes_precedence() {
    let mut c = LlmClient::new(config(5, 2));
    assert_eq!(c.model(), "Qwen3.6-35b");
    c.set_model("Qwen3.5-27b".to_string());
    assert_eq!(c.model(), "Qwen3.5-27b");
    assert_eq!(c.default_model(), "Qwen3.6-35b");
    assert_eq!(c.base_url(), "http://x");
}

#[test]
fn request_body_shapes() {
    let body = request_body(&request(true, false));
    assert_eq!(body.field_str("model").as_deref(), Some("m"));
    assert_eq!(
        body.field("response_format").unwrap().field_str("type").as_deref(),
        Some("json_object")
    );
    assert_eq!(body.field_u64("max_tokens"), Some(10));
    assert!(matches!(body.field("stream"), Some(Json::Bool(false))));
    let m = body.field("messages").unwrap().item(0).unwrap();
    assert_eq!(m.field_str("role").as_deref(), Some("user"));
    assert_eq!(m.field_str("content").as_deref(), Some("hi"));
    let kwargs = body.field("chat_template_kwargs").unwrap();
    assert!(matches!(kwargs.field("enable_thinking"), Some(Json::Bool(false))));
    let plain = request_body(&request(false, true));
    assert!(plain.field("response_format").is_none());
    assert!(plain.field("chat_template_kwargs").is_none());
}

#[test]
fn calls_go_to_the_completions_of_the_server() {
    let mut cfg = config(1, 0);
    cfg.base_url = "http://h:1//".to_string();
    let c = LlmClient::new(cfg);
    let call = c.chat(&request(false, false));
    assert_eq!(call.url, "http://h:1/v1/chat/completions");
    assert_eq!(call.authorization, "Bearer k");
    assert_eq!(call.body.field_str("model").as_deref(), Some("m"));
    assert_eq!(c.timeout_secs(), 5);
    assert_eq!(c.permits.free, 1);
    assert_eq!(LlmClient::new(config(120, 6)).timeout_secs(), 120);
    assert_eq!(LlmClient::new(config(120, 6)).permits.free, 6);
}

#[test]
fn replies_are_read() {
    let r = read_response(
        r#"{"choices":[{"message":{"content":"你好"},"finish_reason":"stop"}],
            "usage":{"total_time":1.5,"prompt_tokens":3,"completion_tokens":4294967297,
                     "prompt_tokens_details":{"cached_tokens":2}}}"#,
        9,
    )
    .unwrap();
    assert_eq!(r.content, "你好");
    assert_eq!(r.finish_reason, "stop");
    assert_eq!(r.usage.total_time.as_deref(), Some("1.5"));
    assert_eq!(r.usage.prompt_tokens, Some(3));
    assert_eq!(r.usage.completion_tokens, Some(1));
    assert_eq!(r.usage.cached_tokens, Some(2));
    assert_eq!(r.usage.model_load_duration, None);
    assert_eq!(r.latency_ms, 9);
    let empty = chat_response(&Json::parse("{}").unwrap(), 0);
    assert_eq!((empty.content.as_str(), empty.finish_reason.as_str()), ("", ""));
    assert!(read_response("{broken", 0)
        .err()
        .unwrap()
        .starts_with("解析响应失败: Failed to read JSON: "));
}

#[test]
fn failures_have_messages() {
    let m = |f: HttpFailure| failure_message(&f, "http://x");
    assert!(m(HttpFailure::Status(401)).starts_with("401: API key 无效"));
    assert_eq!(m(HttpFailure::Status(403)), "403: 无权限");
    assert_eq!(m(HttpFailure::Status(404)), "404: 端点不存在(确认 http://x 是 OpenAI 兼容服务)");
    assert_eq!(m(HttpFailure::Status(500)), "HTTP 500");
    assert_eq!(
        m(HttpFailure::Transport("refused".to_string())),
        "网络错误(无法连接 http://x): refused"
    );
}

#[test]
fn permits_are_counted() {
    let mut s = Semaphore::new(2);
    assert!(s.acquire());
    assert!(s.acquire());
    assert!(!s.acquire());
    s.release();
    assert!(s.acquire());
    s.release();
    s.release();
    assert_eq!(s.free, 2);
}

#[test]
fn json_trees_keep_what_was_written() {
    let j = Json::parse(r#"{"b":[true,null,-1.5e3,18446744073709551615],"a":"x"}"#).unwrap();
    let b = j.field("b").unwrap();
    assert_eq!(b.items().len(), 4);
    assert!(matches!(b.item(0), Some(Json::Bool(true))));
    assert!(matches!(b.item(1), Some(Json::Null)));
    assert_eq!(b.item(2).unwrap().as_u64(), None);
    assert_eq!(b.item(2).unwrap().as_notation().as_deref(), Some("-1500.0"));
    assert_eq!(b.item(3).unwrap().as_u64(), Some(u64::MAX));
    assert!(b.item(4).is_none());
    assert_eq!(j.field_str("a").as_deref(), Some("x"));
    assert!(j.field("c").is_none());
    assert!(Json::parse("").is_err());
}

#[test]
fn options_choose_the_model() {
    let mut c = LlmClient::new(config(1, 1));
    c.choose_model(&None);
    assert_eq!(c.model(), c.default_model());
    c.choose_model(&Some("x".to_string()));
    assert_eq!(c.model(), "x");
    c.choose_model(&None);
    assert_eq!(c.model(), "x");
}

#[test]
fn no_more_calls_run_than_there_are_permits() {
    let mut s = Semaphore::new(2);
    let mut running = 0;
    for ask in [true, true, true, false, true, true, false, false] {
        if ask {
            if s.acquire() {
                running += 1;
            }
        } else if running > 0 {
            s.release();
            running -= 1;
        }
        assert!(running <= 2);
        assert_eq!(s.free + running, 2);
    }
}
