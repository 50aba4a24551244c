use tucknotes::services::summarization::{strip_think_tags, InferenceEvent, StreamFilter, ThinkFilter};
use tucknotes::services::tool_calls::extract_tool_calls;

#[test]
fn extract_tool_calls_handles_object_arguments() {
    let text = r#"<tool_call>{"name": "search_meetings", "arguments": {"query": "budget"}}</tool_call>"#;
    let calls = extract_tool_calls(text);
    assert_eq!(calls.len(), 1);
    assert_eq!(calls[0].name, "search_meetings");
    // Object arguments are re-serialized to a JSON string.
    let parsed: serde_json::Value = serde_json::from_str(&calls[0].arguments).unwrap();
    assert_eq!(parsed["query"], "budget");
}

#[test]
fn extract_tool_calls_handles_string_arguments() {
    let text = r#"<tool_call>{"name": "search_meetings", "arguments": "{\"query\": \"x\"}"}</tool_call>"#;
    let calls = extract_tool_calls(text);
    assert_eq!(calls.len(), 1);
    let parsed: serde_json::Value = serde_json::from_str(&calls[0].arguments).unwrap();
    assert_eq!(parsed["query"], "x");
}

#[test]
fn extract_tool_calls_handles_multiple_blocks() {
    let text = r#"Pre.<tool_call>{"name":"a","arguments":{"q":1}}</tool_call> mid <tool_call>{"name":"b","arguments":{}}</tool_call>post"#;
    let calls = extract_tool_calls(text);
    assert_eq!(calls.len(), 2);
    assert_eq!(calls[0].name, "a");
    assert_eq!(calls[1].name, "b");
    assert_ne!(calls[0].id, calls[1].id);
}

#[test]
fn extract_tool_calls_skips_malformed_body() {
    let text = r#"<tool_call>not json</tool_call><tool_call>{"name":"ok","arguments":{}}</tool_call>"#;
    let calls = extract_tool_calls(text);
    assert_eq!(calls.len(), 1);
    assert_eq!(calls[0].name, "ok");
}

#[test]
fn extract_tool_calls_skips_missing_name() {
    let text = r#"<tool_call>{"arguments":{}}</tool_call>"#;
    assert!(extract_tool_calls(text).is_empty());
}

#[test]
fn extract_tool_calls_no_blocks_returns_empty() {
    assert!(extract_tool_calls("just a plain reply").is_empty());
}

#[test]
fn extract_tool_calls_handles_unterminated_block() {
    // An unclosed block should stop iteration rather than crash.
    let text = r#"<tool_call>{"name":"oops"#;
    assert!(extract_tool_calls(text).is_empty());
}

#[test]
fn extract_tool_calls_handles_xml_hermes_format() {
    // The exact shape the local Qwen3.5 build emits.
    let text = "<tool_call>\n<function=search_meetings>\n<parameter=query>\nproduct bundles\n</parameter>\n<parameter=limit>\n5\n</parameter>\n</function>\n</tool_call>";
    let calls = extract_tool_calls(text);
    assert_eq!(calls.len(), 1);
    assert_eq!(calls[0].name, "search_meetings");
    let args: serde_json::Value = serde_json::from_str(&calls[0].arguments).unwrap();
    assert_eq!(args["query"], "product bundles");
    // limit was emitted as `5` -> typed as JSON number.
    assert_eq!(args["limit"], 5);
}

#[test]
fn extract_tool_calls_xml_form_strings_are_strings() {
    let text = "<tool_call><function=search_meetings><parameter=query>hello world</parameter></function></tool_call>";
    let calls = extract_tool_calls(text);
    assert_eq!(calls.len(), 1);
    let args: serde_json::Value = serde_json::from_str(&calls[0].arguments).unwrap();
    assert_eq!(args["query"], "hello world");
    assert!(args["query"].is_string());
}

#[test]
fn extract_tool_calls_xml_form_missing_function_skipped() {
    let text = "<tool_call>no function tag here</tool_call>";
    assert!(extract_tool_calls(text).is_empty());
}

// --- Gemma-style fenced-code-block tool calls ---------------------------

#[test]
fn extract_tool_calls_gemma_tool_code_python_call() {
    // Gemma 3 documented format: a ```tool_code fenced block containing a
    // Python call wrapped in `print(...)`.
    let text = "Sure, let me check.\n```tool_code\nprint(search_meetings(query=\"product bundles\"))\n```";
    let calls = extract_tool_calls(text);
    assert_eq!(calls.len(), 1);
    assert_eq!(calls[0].name, "search_meetings");
    let args: serde_json::Value = serde_json::from_str(&calls[0].arguments).unwrap();
    assert_eq!(args["query"], "product bundles");
}

#[test]
fn extract_tool_calls_gemma_with_module_prefix() {
    let text = "```tool_code\nprint(default_api.search_meetings(query=\"foo\", limit=5))\n```";
    let calls = extract_tool_calls(text);
    assert_eq!(calls.len(), 1);
    // Module prefix is dropped — the dispatcher only knows by short name.
    assert_eq!(calls[0].name, "search_meetings");
    let args: serde_json::Value = serde_json::from_str(&calls[0].arguments).unwrap();
    assert_eq!(args["query"], "foo");
    assert_eq!(args["limit"], 5);
}

#[test]
fn extract_tool_calls_gemma_bare_call_no_print_wrapper() {
    let text = "```tool_code\nsearch_meetings(query=\"foo\")\n```";
    let calls = extract_tool_calls(text);
    assert_eq!(calls.len(), 1);
    assert_eq!(calls[0].name, "search_meetings");
}

#[test]
fn extract_tool_calls_gemma_single_quotes() {
    let text = "```tool_code\nprint(search_meetings(query='product bundles'))\n```";
    let calls = extract_tool_calls(text);
    assert_eq!(calls.len(), 1);
    let args: serde_json::Value = serde_json::from_str(&calls[0].arguments).unwrap();
    assert_eq!(args["query"], "product bundles");
}

#[test]
fn extract_tool_calls_fenced_json_block() {
    // Some models emit a ```json fence with the OpenAI shape.
    let text = "```json\n{\"name\":\"search_meetings\",\"arguments\":{\"query\":\"foo\"}}\n```";
    let calls = extract_tool_calls(text);
    assert_eq!(calls.len(), 1);
    assert_eq!(calls[0].name, "search_meetings");
}

#[test]
fn extract_tool_calls_fenced_json_with_parameters_key() {
    // Gemma docs use `parameters` instead of `arguments` in some samples.
    let text = "```json\n{\"name\":\"search_meetings\",\"parameters\":{\"query\":\"foo\"}}\n```";
    let calls = extract_tool_calls(text);
    assert_eq!(calls.len(), 1);
    let args: serde_json::Value = serde_json::from_str(&calls[0].arguments).unwrap();
    assert_eq!(args["query"], "foo");
}

#[test]
fn extract_tool_calls_ignores_unrelated_fences() {
    // A ```rust or ```text fence must not be treated as a tool call.
    let text = "```rust\nfn main() {}\n``` and ```text\nhello\n```";
    assert!(extract_tool_calls(text).is_empty());
}

#[test]
fn extract_tool_calls_handles_multiple_fenced_calls() {
    let text = "```tool_code\nprint(search_meetings(query=\"a\"))\n```\nthen\n```tool_code\nprint(search_meetings(query=\"b\"))\n```";
    let calls = extract_tool_calls(text);
    assert_eq!(calls.len(), 2);
    let a0: serde_json::Value = serde_json::from_str(&calls[0].arguments).unwrap();
    let a1: serde_json::Value = serde_json::from_str(&calls[1].arguments).unwrap();
    assert_eq!(a0["query"], "a");
    assert_eq!(a1["query"], "b");
}

// --- Gemma `<|tool_call>...<tool_call|>` format ------------------------

#[test]
fn extract_tool_calls_gemma_native_format() {
    // Verbatim from the user's terminal output.
    let text = "<|tool_call>call:search_meetings{query:<|\"|>status of product bundles<|\"|>}<tool_call|>";
    let calls = extract_tool_calls(text);
    assert_eq!(calls.len(), 1);
    assert_eq!(calls[0].name, "search_meetings");
    let args: serde_json::Value = serde_json::from_str(&calls[0].arguments).unwrap();
    assert_eq!(args["query"], "status of product bundles");
}

#[test]
fn extract_tool_calls_gemma_native_multiple_args() {
    let text = "<|tool_call>call:search_meetings{query:<|\"|>foo<|\"|>, limit:5}<tool_call|>";
    let calls = extract_tool_calls(text);
    assert_eq!(calls.len(), 1);
    let args: serde_json::Value = serde_json::from_str(&calls[0].arguments).unwrap();
    assert_eq!(args["query"], "foo");
    assert_eq!(args["limit"], 5);
}

#[test]
fn extract_tool_calls_gemma_with_comma_inside_string() {
    let text = "<|tool_call>call:search_meetings{query:<|\"|>foo, bar<|\"|>}<tool_call|>";
    let calls = extract_tool_calls(text);
    assert_eq!(calls.len(), 1);
    let args: serde_json::Value = serde_json::from_str(&calls[0].arguments).unwrap();
    assert_eq!(args["query"], "foo, bar");
}

#[test]
fn extract_tool_calls_gemma_only_first_when_repeated() {
    // The model sometimes emits the same call twice (hallucinating a
    // re-call). Both should be returned; the caller can dedupe if it cares.
    let text = "<|tool_call>call:search_meetings{query:<|\"|>x<|\"|>}<tool_call|> blah <|tool_call>call:search_meetings{query:<|\"|>x<|\"|>}<tool_call|>";
    let calls = extract_tool_calls(text);
    assert_eq!(calls.len(), 2);
}

// --- StreamFilter for Gemma blocks -------------------------------------

#[test]
fn filter_suppresses_gemma_tool_call_block() {
    let (c, _) = collapsed(&run_filter(&[
        "Sure!<|tool_call>call:search_meetings{query:<|\"|>x<|\"|>}<tool_call|>",
    ]));
    assert_eq!(c, "Sure!");
}

#[test]
fn filter_suppresses_gemma_tool_response_block() {
    let (c, _) = collapsed(&run_filter(&[
        "ok<|tool_response>thought The user asked X. I should...<channel|>after",
    ]));
    assert_eq!(c, "okafter");
}

#[test]
fn filter_suppresses_gemma_blocks_split_across_pieces() {
    let (c, _) = collapsed(&run_filter(&[
        "Sure!<|tool",
        "_call>call:search_meetings{query:<|\"|>x<|",
        "\"|>}<tool_call|>",
    ]));
    assert_eq!(c, "Sure!");
}

// --- LFM2 `<|tool_call_start|>[...]<|tool_call_end|>` format ------------

#[test]
fn extract_tool_calls_lfm2_single_call() {
    let text = "<|tool_call_start|>[get_weather(city=\"Paris\")]<|tool_call_end|>";
    let calls = extract_tool_calls(text);
    assert_eq!(calls.len(), 1);
    assert_eq!(calls[0].name, "get_weather");
    let args: serde_json::Value = serde_json::from_str(&calls[0].arguments).unwrap();
    assert_eq!(args["city"], "Paris");
}

#[test]
fn extract_tool_calls_lfm2_multiple_calls() {
    let text =
        "<|tool_call_start|>[search_meetings(query=\"x\", limit=5), get_time()]<|tool_call_end|>";
    let calls = extract_tool_calls(text);
    assert_eq!(calls.len(), 2);
    assert_eq!(calls[0].name, "search_meetings");
    let args0: serde_json::Value = serde_json::from_str(&calls[0].arguments).unwrap();
    assert_eq!(args0["query"], "x");
    assert_eq!(args0["limit"], 5);
    assert_eq!(calls[1].name, "get_time");
}

#[test]
fn extract_tool_calls_lfm2_comma_inside_string() {
    let text = "<|tool_call_start|>[search_meetings(query=\"foo, bar\")]<|tool_call_end|>";
    let calls = extract_tool_calls(text);
    assert_eq!(calls.len(), 1);
    let args: serde_json::Value = serde_json::from_str(&calls[0].arguments).unwrap();
    assert_eq!(args["query"], "foo, bar");
}

#[test]
fn filter_suppresses_lfm2_tool_call_block() {
    let (c, _) = collapsed(&run_filter(&[
        "Sure!<|tool_call_start|>[get_weather(city=\"Paris\")]<|tool_call_end|>",
    ]));
    assert_eq!(c, "Sure!");
}

#[test]
fn filter_suppresses_lfm2_block_split_across_pieces() {
    let (c, _) = collapsed(&run_filter(&[
        "Sure!<|tool_call",
        "_start|>[get_weather(city=\"Paris\")]<|tool_call",
        "_end|>",
    ]));
    assert_eq!(c, "Sure!");
}

#[test]
fn extract_tool_calls_python_call_with_comma_in_string() {
    let text = "```tool_code\nprint(search_meetings(query=\"foo, bar\", limit=3))\n```";
    let calls = extract_tool_calls(text);
    assert_eq!(calls.len(), 1);
    let args: serde_json::Value = serde_json::from_str(&calls[0].arguments).unwrap();
    assert_eq!(args["query"], "foo, bar");
    assert_eq!(args["limit"], 3);
}

#[derive(Debug, PartialEq, Eq)]
enum Captured {
    Content(String, bool),
}

fn run_filter(pieces: &[&str]) -> Vec<Captured> {
    let mut filter = StreamFilter::new();
    let mut out = Vec::new();
    let mut collect = |events: Vec<InferenceEvent>| {
        for e in events {
            if let InferenceEvent::ContentToken { text, is_thinking } = e {
                out.push(Captured::Content(text, is_thinking));
            }
        }
    };
    for p in pieces {
        collect(filter.push(p));
    }
    collect(filter.flush());
    out
}

fn collapsed(events: &[Captured]) -> (String, String) {
    let mut content = String::new();
    let mut think = String::new();
    for e in events {
        match e {
            Captured::Content(t, true) => think.push_str(t),
            Captured::Content(t, false) => content.push_str(t),
        }
    }
    (content, think)
}

#[test]
fn filter_plain_text_passes_through() {
    let (c, t) = collapsed(&run_filter(&["hello", " ", "world"]));
    assert_eq!(c, "hello world");
    assert_eq!(t, "");
}

#[test]
fn filter_strips_think_block_emits_as_thinking() {
    let (c, t) = collapsed(&run_filter(&["before<think>reasoning</think>after"]));
    assert_eq!(c, "beforeafter");
    assert_eq!(t, "reasoning");
}

#[test]
fn filter_strips_tool_call_block_entirely() {
    let (c, t) = collapsed(&run_filter(&[
        "Sure!<tool_call>{\"name\":\"search_meetings\"}</tool_call>",
    ]));
    assert_eq!(c, "Sure!");
    assert_eq!(t, "");
}

#[test]
fn filter_handles_tag_split_across_pieces() {
    let (c, t) = collapsed(&run_filter(&[
        "before<th", "ink>reason", "ing</thi", "nk>after",
    ]));
    assert_eq!(c, "beforeafter");
    assert_eq!(t, "reasoning");
}

#[test]
fn filter_handles_tool_call_split_across_pieces() {
    let (c, _) = collapsed(&run_filter(&[
        "Let me search.<tool_", "call>{\"query\":\"foo\"}</tool", "_call>",
    ]));
    assert_eq!(c, "Let me search.");
}

#[test]
fn filter_emits_partial_content_on_flush() {
    // Bare '<' is held in buffer until flush in case it starts a tag.
    let (c, _) = collapsed(&run_filter(&["x < y"]));
    assert_eq!(c, "x < y");
}

#[test]
fn filter_handles_back_to_back_blocks() {
    let (c, t) = collapsed(&run_filter(&[
        "<think>a</think><tool_call>{}</tool_call>answer",
    ]));
    assert_eq!(c, "answer");
    assert_eq!(t, "a");
}

#[test]
fn strips_empty_think_tags() {
    assert_eq!(strip_think_tags("<think></think>hello"), "hello");
}

#[test]
fn strips_think_tags_with_content() {
    assert_eq!(
        strip_think_tags("<think>some reasoning</think>answer"),
        "answer"
    );
}

#[test]
fn strips_multiple_think_blocks() {
    assert_eq!(
        strip_think_tags("<think>a</think>one<think>b</think>two"),
        "onetwo"
    );
}

#[test]
fn no_think_tags_unchanged() {
    assert_eq!(strip_think_tags("just text"), "just text");
}

#[test]
fn unclosed_think_tag_drops_rest() {
    assert_eq!(strip_think_tags("before<think>oops"), "before");
}

fn tagged_chars(events: &[Captured]) -> Vec<(char, bool)> {
    let mut out = Vec::new();
    for e in events {
        let Captured::Content(t, th) = e;
        for c in t.chars() {
            out.push((c, *th));
        }
    }
    out
}

#[test]
fn filter_output_does_not_depend_on_where_the_stream_is_cut() {
    let whole = "a<b <think>plan</think>Hi<tool_call>{\"x\":1}</tool_call> ok<|tool_response>r<channel|>end <";
    let expected = tagged_chars(&run_filter(&[whole]));
    let bounds: Vec<usize> = whole.char_indices().map(|(i, _)| i).collect();
    for &cut in bounds.iter() {
        let got = tagged_chars(&run_filter(&[&whole[..cut], &whole[cut..]]));
        assert_eq!(got, expected, "cut at {}", cut);
    }
    let (c, t) = collapsed(&run_filter(&[whole]));
    assert_eq!(c, "a<b Hi okend <");
    assert_eq!(t, "plan");
}

fn run_think_filter(pieces: &[&str]) -> String {
    let mut f = ThinkFilter::new();
    let mut out = String::new();
    for p in pieces {
        for t in f.push(p) {
            out.push_str(&t);
        }
    }
    if let Some(t) = f.finish() {
        out.push_str(&t);
    }
    out
}

#[test]
fn think_filter_hides_think_blocks_wherever_the_stream_is_cut() {
    let whole = "<think>plan a < b</think>Answer: 1 < 2<think>more</think> done";
    let expected = run_think_filter(&[whole]);
    assert_eq!(expected, "Answer: 1 < 2 done");
    let bounds: Vec<usize> = whole.char_indices().map(|(i, _)| i).collect();
    for &cut in bounds.iter() {
        assert_eq!(run_think_filter(&[&whole[..cut], &whole[cut..]]), expected, "cut at {}", cut);
    }
}

#[test]
fn extract_tool_calls_gemma_non_ascii_value() {
    let text = "<|tool_call>call:f{q:<|\"|>café<|\"|>, n:2}<tool_call|>";
    let calls = extract_tool_calls(text);
    assert_eq!(calls.len(), 1);
    assert_eq!(calls[0].id, "call_0");
    assert_eq!(calls[0].name, "f");
    let args: serde_json::Value = serde_json::from_str(&calls[0].arguments).unwrap();
    assert_eq!(args["q"], "café");
    assert_eq!(args["n"], 2);
    let only: serde_json::Value =
        serde_json::from_str(&extract_tool_calls("<|tool_call>call:f{q:<|\"|>café<|\"|>}<tool_call|>")[0].arguments)
            .unwrap();
    assert_eq!(only.to_string(), r#"{"q":"café"}"#);
}

#[test]
fn filters_agree_on_every_cut_into_three_pieces() {
    let whole = "x<think>a</think>b<tool_call>{}</tool_call>c<thi";
    let expected = tagged_chars(&run_filter(&[whole]));
    let think_expected = run_think_filter(&[whole]);
    let bounds: Vec<usize> = whole.char_indices().map(|(i, _)| i).chain([whole.len()]).collect();
    for &i in bounds.iter() {
        for &j in bounds.iter().filter(|&&j| j >= i) {
            let pieces = [&whole[..i], &whole[i..j], &whole[j..]];
            assert_eq!(tagged_chars(&run_filter(&pieces)), expected, "cuts {} {}", i, j);
            assert_eq!(run_think_filter(&pieces), think_expected, "cuts {} {}", i, j);
        }
    }
}
