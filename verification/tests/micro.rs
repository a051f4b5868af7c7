use localai::llm::client::{ChatResponse, ChatUsage};
use localai::llm::micro::{candidates, MicroStep};
use localai::llm::{extract_json, MicroEngine, MicroTask};

fn response(content: &str) -> ChatResponse {
    ChatResponse {
        content: content.to_string(),
        finish_reason: "stop".to_string(),
        usage: ChatUsage {
            total_time: None,
            cached_tokens: None,
            prompt_tokens: None,
            completion_tokens: None,
            model_load_duration: None,
        },
        latency_ms: 7,
    }
}

fn task() -> MicroTask {
    MicroTask {
        name: "classify",
        system: "s".to_string(),
        input: "i".to_string(),
        max_tokens: 60,
    }
}

#[test]
fn extract_json_plain() {
    let v = extract_json(r#"{"intent": "question"}"#).unwrap();
    assert_eq!(v.field_str("intent").as_deref(), Some("question"));
}

#[test]
fn extract_json_fenced() {
    let v = extract_json("```json\n{\"intent\": \"command\"}\n```").unwrap();
    assert_eq!(v.field_str("intent").as_deref(), Some("command"));
}

#[test]
fn extract_json_noisy() {
    let v = extract_json("好的,结果如下:{\"tags\": [\"a\", \"b\"]} 完毕").unwrap();
    assert_eq!(v.field("tags").unwrap().item(0).unwrap().as_str().as_deref(), Some("a"));
}

#[test]
fn extract_json_garbage() {
    assert!(extract_json("完全没有 json").is_none());
}

#[test]
fn what_may_be_the_json_of_an_answer() {
    assert_eq!(candidates("  x "), vec!["x"]);
    assert_eq!(candidates("```json [1] ```"), vec!["```json [1] ```", "[1]"]);
    assert_eq!(candidates("a {b} c }d"), vec!["a {b} c }d", "{b} c }"]);
    assert_eq!(candidates("} {"), vec!["} {"]);
    assert_eq!(candidates("```json{}```"), vec!["```json{}```", "{}", "{}"]);
}

#[test]
fn a_call_is_tried_again_until_none_is_left() {
    let engine = MicroEngine::new(1);
    let t = task();
    match engine.call(&t, 0, Ok(response("没有")), "1s") {
        MicroStep::Retry(n) => assert_eq!(n, 1),
        _ => panic!("应重试"),
    }
    match engine.call(&t, 1, Ok(response("没有")), "2s") {
        MicroStep::Failed(m) => {
            assert_eq!(m, "task=classify 耗时=2s: JSON 解析失败(尝试 2/2): 没有")
        }
        _ => panic!("应失败"),
    }
    match engine.call(&t, 1, Err("403: 无权限".to_string()), "2s") {
        MicroStep::Failed(m) => assert_eq!(m, "task=classify 耗时=2s: 403: 无权限"),
        _ => panic!("应失败"),
    }
    match engine.call(&t, 1, Ok(response("{\"a\": 1}")), "2s") {
        MicroStep::Done(o) => {
            assert_eq!(o.task, "classify");
            assert_eq!(o.retries, 1);
            assert_eq!(o.latency_ms, 7);
            assert_eq!(o.text, "{\"a\": 1}");
            assert_eq!(o.json.unwrap().field_u64("a"), Some(1));
        }
        _ => panic!("应完成"),
    }
}

#[test]
fn long_answers_are_clipped_in_the_message() {
    let engine = MicroEngine::new(0);
    let long: String = "字".repeat(200);
    match engine.call(&task(), 0, Ok(response(&long)), "1s") {
        MicroStep::Failed(m) => assert_eq!(m.chars().filter(|c| *c == '字').count(), 120),
        _ => panic!("应失败"),
    }
}

#[test]
fn the_request_of_a_micro_call_holds_no_history() {
    let r = MicroEngine::new(2).request(&task(), "m");
    assert_eq!(r.messages.len(), 2);
    assert_eq!((r.messages[0].role.as_str(), r.messages[0].content.as_str()), ("system", "s"));
    assert_eq!((r.messages[1].role.as_str(), r.messages[1].content.as_str()), ("user", "i"));
    assert_eq!((r.max_tokens, r.json, r.enable_thinking), (60, true, false));
}
