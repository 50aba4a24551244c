use tucknotes::commands::ollama::{apply_engine_settings, normalize_base_url, LlmEngineSettings};
use tucknotes::errors::AppError;
use tucknotes::models::settings::{AppSettings, LlmProvider};
use tucknotes::services::ollama::{
    after_rejection, build_request_body, compute_num_ctx, estimate_tokens, finish_reply, model_infos,
    normalize_base_url as normalized_service_url, parse_error_body, take_line, unreachable_error,
    AttemptAction, ChatChunk, ChatRequestParams, ChunkMessage, ChunkToolCall, Delta, StreamOutcome, TagDetails,
    TagModel,
};
use tucknotes::services::chat_messages::normalize_messages;
use tucknotes::services::summarization::InferenceEvent;

#[test]
fn normalize_base_url_strips_trailing_slash_and_whitespace() {
    assert_eq!(
        normalize_base_url(" http://localhost:11434/ ").unwrap(),
        "http://localhost:11434"
    );
}

#[test]
fn normalize_base_url_rejects_empty_and_schemeless() {
    assert!(normalize_base_url("   ").is_err());
    assert!(normalize_base_url("localhost:11434").is_err());
    assert!(normalize_base_url("https://my-host:11434").is_ok());
}

#[test]
fn num_ctx_buckets_floor_and_growth() {
    // Small prompts get the floor (which satisfies MIN_TOOL_CHAT_CTX).
    assert_eq!(compute_num_ctx(100, 1024), 16384);
    assert_eq!(compute_num_ctx(10_000, 4096), 16384);
    // Growing prompts bump buckets.
    assert_eq!(compute_num_ctx(20_000, 4096), 32768);
    assert_eq!(compute_num_ctx(50_000, 4096), 65536);
    // Beyond the largest bucket, clamp (truncation is logged at runtime).
    assert_eq!(compute_num_ctx(500_000, 4096), 65536);
}

#[test]
fn estimate_tokens_rounds_up() {
    assert_eq!(estimate_tokens(""), 0);
    assert_eq!(estimate_tokens("abcd"), 2); // 4 / 3.5 → 2
}

#[test]
fn estimate_tokens_exact_multiples_and_bytes() {
    assert_eq!(estimate_tokens("1234567"), 2);
    assert_eq!(estimate_tokens("12345678"), 3);
    // Counted in UTF-8 bytes: "é" is two bytes.
    assert_eq!(estimate_tokens("éé"), 2);
}

#[test]
fn num_ctx_ignores_negative_budget() {
    assert_eq!(compute_num_ctx(0, -5), 16384);
    assert_eq!(compute_num_ctx(14_300, 0), 16384);
    assert_eq!(compute_num_ctx(14_600, 0), 32768);
}

#[test]
fn service_url_normalisation_keeps_scheme_less_input() {
    assert_eq!(normalized_service_url("  localhost:11434///  "), "localhost:11434");
}

#[test]
fn schemeless_error_message() {
    match normalize_base_url("ftp://x") {
        Err(AppError::ConfigError(m)) => {
            assert_eq!(m, "Ollama base URL must start with http:// or https://")
        }
        _ => panic!("expected ConfigError"),
    }
    match normalize_base_url(" / ") {
        Err(AppError::ConfigError(m)) => assert_eq!(m, "Ollama base URL can't be empty"),
        _ => panic!("expected ConfigError"),
    }
}

#[test]
fn unreachable_error_names_the_server() {
    match unreachable_error("http://127.0.0.1:1") {
        AppError::OllamaUnavailable(m) => assert_eq!(
            m,
            "Can't reach Ollama at http://127.0.0.1:1. Start Ollama, or switch the summarization engine in Settings."
        ),
        _ => panic!("expected OllamaUnavailable"),
    }
}

#[test]
fn rejection_ladder_drops_think_then_tools() {
    match after_rejection(400, "400 Bad Request", "\"m\" does not support THINKING", "m", true, true) {
        AttemptAction::Retry { include_think, include_tools } => {
            assert!(!include_think);
            assert!(include_tools);
        }
        _ => panic!("expected a retry without think"),
    }
    match after_rejection(400, "400 Bad Request", "\"m\" does not support tools", "m", false, true) {
        AttemptAction::Retry { include_think, include_tools } => {
            assert!(!include_think);
            assert!(!include_tools);
        }
        _ => panic!("expected a retry without tools"),
    }
    match after_rejection(400, "400 Bad Request", "bad tools", "m", false, false) {
        AttemptAction::Fail(AppError::SummarizationFailed(m)) => {
            assert_eq!(m, "Ollama error (400 Bad Request): bad tools")
        }
        _ => panic!("expected a failure"),
    }
}

#[test]
fn missing_model_maps_to_invalid_model_message() {
    match after_rejection(404, "404 Not Found", "model \"ghost\" not found", "ghost", true, false) {
        AttemptAction::Fail(AppError::InvalidModel(m)) => assert_eq!(
            m,
            "Ollama can't find model \"ghost\" — pick another model in Settings. (model \"ghost\" not found)"
        ),
        _ => panic!("expected InvalidModel"),
    }
}

#[test]
fn error_body_prefers_error_member() {
    assert_eq!(parse_error_body(r#"{"error":"runner crashed"}"#), "runner crashed");
    assert_eq!(parse_error_body("  plain text \n"), "plain text");
    assert_eq!(parse_error_body(r#"{"error":5}"#), r#"{"error":5}"#);
}

#[test]
fn stream_lines_are_split_on_newlines() {
    let mut buf = b"{\"a\":1}\n{\"b\"".to_vec();
    assert_eq!(take_line(&mut buf), Some(b"{\"a\":1}".to_vec()));
    assert_eq!(buf, b"{\"b\"".to_vec());
    assert_eq!(take_line(&mut buf), None);
    assert_eq!(buf, b"{\"b\"".to_vec());
}

fn content_chunk(content: &str) -> ChatChunk {
    ChatChunk {
        message: Some(ChunkMessage {
            content: Some(content.to_string()),
            thinking: None,
            tool_calls: Vec::new(),
        }),
        done: false,
        done_reason: None,
        prompt_eval_count: None,
        eval_count: None,
        error: None,
    }
}

#[test]
fn chunks_accumulate_content_and_counts() {
    let mut outcome = StreamOutcome::new(16384);
    let (deltas, done) = outcome.apply_chunk(content_chunk("Hello ")).ok().unwrap();
    assert!(!done);
    assert!(matches!(&deltas[..], [Delta::Content(t)] if t == "Hello "));
    outcome.apply_chunk(content_chunk("world")).ok().unwrap();
    let last = ChatChunk {
        message: None,
        done: true,
        done_reason: Some("stop".to_string()),
        prompt_eval_count: Some(12),
        eval_count: Some(2),
        error: None,
    };
    let (deltas, done) = outcome.apply_chunk(last).ok().unwrap();
    assert!(done);
    assert!(deltas.is_empty());
    assert_eq!(outcome.content, "Hello world");
    assert_eq!(outcome.prompt_eval_count, 12);
    assert_eq!(outcome.eval_count, 2);
}

#[test]
fn thinking_field_is_a_thinking_delta_not_content() {
    let mut outcome = StreamOutcome::new(16384);
    let chunk = ChatChunk {
        message: Some(ChunkMessage {
            content: None,
            thinking: Some("hmm".to_string()),
            tool_calls: Vec::new(),
        }),
        done: false,
        done_reason: None,
        prompt_eval_count: None,
        eval_count: None,
        error: None,
    };
    let (deltas, _) = outcome.apply_chunk(chunk).ok().unwrap();
    assert!(matches!(&deltas[..], [Delta::Thinking(t)] if t == "hmm"));
    assert_eq!(outcome.content, "");
}

#[test]
fn error_line_fails_the_turn() {
    let mut outcome = StreamOutcome::new(16384);
    let chunk = ChatChunk {
        message: None,
        done: false,
        done_reason: None,
        prompt_eval_count: None,
        eval_count: None,
        error: Some("runner crashed".to_string()),
    };
    match outcome.apply_chunk(chunk) {
        Err(AppError::SummarizationFailed(m)) => assert_eq!(m, "Ollama error: runner crashed"),
        _ => panic!("expected a failure"),
    }
}

#[test]
fn structured_calls_are_numbered_and_preferred() {
    let mut outcome = StreamOutcome::new(16384);
    let chunk = ChatChunk {
        message: Some(ChunkMessage {
            content: Some(String::new()),
            thinking: None,
            tool_calls: vec![
                ChunkToolCall {
                    name: "search_meetings".to_string(),
                    arguments: Some("{\"query\":\"roadmap\"}".to_string()),
                },
                ChunkToolCall { name: "get_time".to_string(), arguments: None },
            ],
        }),
        done: false,
        done_reason: None,
        prompt_eval_count: None,
        eval_count: None,
        error: None,
    };
    let (deltas, _) = outcome.apply_chunk(chunk).ok().unwrap();
    assert!(deltas.is_empty());
    let (turn, events) = finish_reply(outcome);
    assert_eq!(turn.tool_calls.len(), 2);
    assert_eq!(turn.tool_calls[0].id, "call_0");
    assert_eq!(turn.tool_calls[1].id, "call_1");
    assert_eq!(turn.tool_calls[1].arguments, "{}");
    assert_eq!(turn.max_tokens, 16384);
    assert!(matches!(&events[0], InferenceEvent::ToolCallStart { name, .. } if name == "search_meetings"));
    assert_eq!(events.len(), 6);
}

#[test]
fn inline_calls_are_recovered_when_none_are_structured() {
    let mut outcome = StreamOutcome::new(16384);
    outcome
        .apply_chunk(content_chunk(
            "<tool_call>{\"name\":\"search_meetings\",\"arguments\":{\"query\":\"q3\"}}</tool_call>",
        ))
        .ok()
        .unwrap();
    let (turn, _) = finish_reply(outcome);
    assert_eq!(turn.tool_calls.len(), 1);
    assert_eq!(turn.tool_calls[0].name, "search_meetings");
}

#[test]
fn model_listing_fills_missing_details() {
    let tags = vec![
        TagModel {
            name: "qwen3:4b".to_string(),
            size: 2_600_000_000,
            details: Some(TagDetails {
                parameter_size: Some("4.0B".to_string()),
                quantization_level: Some("Q4_K_M".to_string()),
                family: Some("qwen3".to_string()),
            }),
        },
        TagModel { name: "llama3.2:latest".to_string(), size: 2_000_000_000, details: None },
    ];
    let models = model_infos(tags);
    assert_eq!(models.len(), 2);
    assert_eq!(models[0].name, "qwen3:4b");
    assert_eq!(models[0].parameter_size.as_deref(), Some("4.0B"));
    assert_eq!(models[1].quantization, None);
}

#[test]
fn engine_settings_are_normalised_and_trimmed() {
    let mut settings = AppSettings::default();
    let engine = LlmEngineSettings {
        provider: LlmProvider::Ollama,
        ollama_base_url: " http://box:11434/ ".to_string(),
        ollama_model: Some("  qwen3:4b ".to_string()),
    };
    assert!(apply_engine_settings(&mut settings, engine).is_ok());
    assert_eq!(settings.llm_provider, LlmProvider::Ollama);
    assert_eq!(settings.ollama.base_url, "http://box:11434");
    assert_eq!(settings.ollama.model.as_deref(), Some("qwen3:4b"));

    let blank = LlmEngineSettings {
        provider: LlmProvider::BuiltIn,
        ollama_base_url: "http://box:11434".to_string(),
        ollama_model: Some("   ".to_string()),
    };
    assert!(apply_engine_settings(&mut settings, blank).is_ok());
    assert_eq!(settings.ollama.model, None);

    let bad = LlmEngineSettings {
        provider: LlmProvider::BuiltIn,
        ollama_base_url: "box".to_string(),
        ollama_model: None,
    };
    assert!(apply_engine_settings(&mut settings, bad).is_err());
    assert_eq!(settings.llm_provider, LlmProvider::BuiltIn);
    assert_eq!(settings.ollama.base_url, "http://box:11434");
}

#[test]
fn normalize_messages_maps_tool_plumbing() {
    let messages = r#"[
        {"role": "system", "content": "sys"},
        {"role": "assistant", "content": null, "tool_calls": [
            {"id": "call_0", "type": "function", "function": {"name": "search_meetings", "arguments": "{\"query\":\"x\"}"}}
        ]},
        {"role": "tool", "tool_call_id": "call_0", "content": "hits"}
    ]"#;

    let normalized: serde_json::Value =
        serde_json::from_str(&normalize_messages(messages).ok().unwrap()).unwrap();
    let arr = normalized.as_array().unwrap();

    let assistant = &arr[1];
    assert_eq!(assistant["content"], "");
    let tc = &assistant["tool_calls"][0];
    assert!(tc.get("id").is_none());
    assert!(tc.get("type").is_none());
    assert_eq!(tc["function"]["arguments"]["query"], "x");

    let tool = &arr[2];
    assert!(tool.get("tool_call_id").is_none());
    assert_eq!(tool["tool_name"], "search_meetings");
}

#[test]
fn normalize_messages_rejects_non_arrays_and_bad_json() {
    match normalize_messages("{\"role\":\"user\"}") {
        Err(AppError::SummarizationFailed(m)) => assert_eq!(m, "Messages JSON must be an array"),
        _ => panic!("expected a refusal"),
    }
    match normalize_messages("[{") {
        Err(AppError::SummarizationFailed(m)) => assert!(m.starts_with("Invalid messages JSON: ")),
        _ => panic!("expected a refusal"),
    }
    let kept: serde_json::Value = serde_json::from_str(
        &normalize_messages(r#"[{"role":"tool","tool_call_id":"unknown","content":"x"}, 5]"#)
            .ok()
            .unwrap(),
    )
    .unwrap();
    assert!(kept[0].get("tool_name").is_none());
    assert!(kept[0].get("tool_call_id").is_none());
    assert_eq!(kept[1], 5);
    // Arguments that are not JSON become an empty object.
    let bad_args: serde_json::Value = serde_json::from_str(
        &normalize_messages(
            r#"[{"role":"assistant","tool_calls":[{"id":"c","function":{"name":"f","arguments":"oops"}}]}]"#,
        )
        .ok()
        .unwrap(),
    )
    .unwrap();
    let args = &bad_args[0]["tool_calls"][0]["function"]["arguments"];
    assert!(args.is_object());
    assert_eq!(args.as_object().unwrap().len(), 0);
}

fn request(tools_json: Option<&str>, messages_json: &str) -> ChatRequestParams {
    ChatRequestParams {
        base_url: "http://localhost:11434".to_string(),
        model: "qwen3:8b".to_string(),
        messages_json: messages_json.to_string(),
        tools_json: tools_json.map(|t| t.to_string()),
        max_tokens: 100,
        stop: Some(vec!["</s>".to_string()]),
        keep_alive: Some("30m".to_string()),
    }
}

#[test]
fn request_body_carries_options_think_and_keep_alive() {
    let p = request(None, r#"[{"role":"user","content":"hi"}]"#);
    let body = build_request_body(&p, 16384, true, false).unwrap();
    let got: serde_json::Value = serde_json::from_str(&body).unwrap();
    let want: serde_json::Value = serde_json::from_str(
        r#"{"model":"qwen3:8b","messages":[{"role":"user","content":"hi"}],"stream":true,
            "options":{"num_ctx":16384,"num_predict":100,"temperature":0.0,"stop":["</s>"]},
            "think":false,"keep_alive":"30m"}"#,
    )
    .unwrap();
    assert_eq!(got, want);
}

#[test]
fn request_body_includes_tools_only_when_asked() {
    let tools = r#"[{"type":"function","function":{"name":"f"}}]"#;
    let p = request(Some(tools), r#"[]"#);
    let with: serde_json::Value =
        serde_json::from_str(&build_request_body(&p, 32768, false, true).unwrap()).unwrap();
    assert_eq!(with["tools"], serde_json::from_str::<serde_json::Value>(tools).unwrap());
    assert!(with.get("think").is_none());
    assert_eq!(with["options"]["num_ctx"], 32768);
    let without: serde_json::Value =
        serde_json::from_str(&build_request_body(&p, 32768, false, false).unwrap()).unwrap();
    assert!(without.get("tools").is_none());
}

#[test]
fn request_body_refuses_bad_tools_and_bad_messages() {
    let p = request(Some("not json"), "[]");
    match build_request_body(&p, 16384, true, true) {
        Err(AppError::SummarizationFailed(m)) => assert!(m.starts_with("Invalid tools JSON: ")),
        other => panic!("unexpected {:?}", other.map(|_| ())),
    }
    assert!(build_request_body(&p, 16384, true, false).is_ok());
    let q = request(None, "{oops");
    match build_request_body(&q, 16384, true, false) {
        Err(AppError::SummarizationFailed(m)) => assert!(m.starts_with("Invalid messages JSON: ")),
        other => panic!("unexpected {:?}", other.map(|_| ())),
    }
}
