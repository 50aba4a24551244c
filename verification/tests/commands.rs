use tucknotes::services::summarization::TurnOutcome;
use tucknotes::commands::chatbot::{
    chat_system_content, failed_tool_content, tool_error_content, initial_messages, messages_json,
    should_run_turn, strip_marks, search_reply, tool_calls_message, tool_request,
    tool_result_message, tools_json, after_turn, TurnStep, ChatMessage, ToolRequest, CHAT_SYSTEM_PROMPT, TOOLS_JSON,
};
use tucknotes::commands::meetings::check_deletable;
use tucknotes::commands::recording::{
    check_pause, check_resume, check_start, final_transcript_events, preview_transcript_events,
    recording_state_event, resume_target, sort_by_time, source_label, total_recorded_ms,
    BatchSource, CaptureStatus,
};
use tucknotes::commands::summarization::{
    combine_title, forget_default_template, summary_transcript, QueueStart, SummarizationQueue,
};
use tucknotes::errors::AppError;
use tucknotes::models::audio::{AudioSource, TranscriptEvent};
use tucknotes::models::settings::AppSettings;
use tucknotes::services::database::{transcript_text, MeetingRow, SearchHit, SegmentRow};
use tucknotes::services::tool_calls::ToolCallSpec;
use tucknotes::services::transcription::TimestampedSegment;

fn segment(source: &str, text: &str) -> SegmentRow {
    SegmentRow {
        id: 1,
        meeting_id: "m".into(),
        text: text.into(),
        source: source.into(),
        timestamp_ms: 0,
        prompt: None,
        created_at: 0,
    }
}

fn meeting(title: Option<&str>) -> MeetingRow {
    MeetingRow {
        id: "m".into(),
        title: title.map(|t| t.to_string()),
        created_at: 0,
        ended_at: None,
        duration_ms: None,
    }
}

#[test]
fn transcript_labels_speakers() {
    let segs = vec![segment("system", "hello"), segment("microphone", "hi there")];
    assert_eq!(transcript_text(&segs), "Speaker: hello\nYou: hi there");
    assert_eq!(transcript_text(&[]), "");
}

#[test]
fn system_content_includes_open_meeting_transcript() {
    let segs = vec![segment("system", "budget is final")];
    let with_title = chat_system_content(Some(&meeting(Some("Q3 sync"))), &segs);
    assert_eq!(
        with_title,
        format!("{CHAT_SYSTEM_PROMPT}\n\nActive meeting: Q3 sync\n\nTranscript:\nSpeaker: budget is final")
    );
    let untitled = chat_system_content(Some(&meeting(None)), &segs);
    assert!(untitled.contains("Active meeting: Untitled"));
    assert_eq!(chat_system_content(Some(&meeting(Some("x"))), &[]), CHAT_SYSTEM_PROMPT);
    assert_eq!(chat_system_content(None, &segs), CHAT_SYSTEM_PROMPT);
}

#[test]
fn history_keeps_user_and_assistant_messages() {
    let history = vec![
        ChatMessage { role: "user".into(), text: "q".into() },
        ChatMessage { role: "system".into(), text: "ignored".into() },
        ChatMessage { role: "assistant".into(), text: "a".into() },
    ];
    let msgs = initial_messages("sys", &history);
    assert_eq!(msgs.len(), 3);
    let v: serde_json::Value = serde_json::from_str(&messages_json(&msgs)).unwrap();
    assert_eq!(v[0]["role"], "system");
    assert_eq!(v[0]["content"], "sys");
    assert_eq!(v[1]["role"], "user");
    assert_eq!(v[2]["role"], "assistant");
    assert_eq!(v[2]["content"], "a");
}

#[test]
fn tool_call_messages_round_trip() {
    let calls = vec![ToolCallSpec {
        id: "call_0".into(),
        name: "search_meetings".into(),
        arguments: "{\"query\":\"x\"}".into(),
    }];
    let m: serde_json::Value = serde_json::from_str(&tool_calls_message(&calls)).unwrap();
    assert_eq!(m["role"], "assistant");
    assert!(m["content"].is_null());
    assert_eq!(m["tool_calls"][0]["id"], "call_0");
    assert_eq!(m["tool_calls"][0]["type"], "function");
    assert_eq!(m["tool_calls"][0]["function"]["arguments"], "{\"query\":\"x\"}");
    let r: serde_json::Value = serde_json::from_str(&tool_result_message("call_0", "hits")).unwrap();
    assert_eq!(r["role"], "tool");
    assert_eq!(r["tool_call_id"], "call_0");
    assert_eq!(r["content"], "hits");
}

#[test]
fn tool_loop_is_capped_and_stops_on_interrupt() {
    assert!(should_run_turn(0, true));
    assert!(should_run_turn(2, false));
    assert!(!should_run_turn(1, true));
    assert!(!should_run_turn(3, false));
}

#[test]
fn search_request_reads_query_and_clamps_limit() {
    let call = |args: &str| ToolCallSpec {
        id: "call_0".into(),
        name: "search_meetings".into(),
        arguments: args.into(),
    };
    match tool_request(&call("{\"query\":\"roadmap\",\"limit\":50}")) {
        ToolRequest::Search { query, limit } => {
            assert_eq!(query, "roadmap");
            assert_eq!(limit, 20);
        }
        _ => panic!("expected a search"),
    }
    match tool_request(&call("not json")) {
        ToolRequest::Search { query, limit } => {
            assert_eq!(query, "");
            assert_eq!(limit, 8);
        }
        _ => panic!("expected a search"),
    }
    match tool_request(&call("{\"limit\":0}")) {
        ToolRequest::Search { limit, .. } => assert_eq!(limit, 1),
        _ => panic!("expected a search"),
    }
    let other = ToolCallSpec { id: "c".into(), name: "get_time".into(), arguments: "{}".into() };
    match tool_request(&other) {
        ToolRequest::Unknown { content } => {
            let v: serde_json::Value = serde_json::from_str(&content).unwrap();
            assert_eq!(v["error"], "Unknown tool: get_time");
        }
        _ => panic!("expected an unknown tool"),
    }
}

#[test]
fn search_reply_strips_highlighting() {
    assert_eq!(strip_marks("a <mark>b</mark> c"), "a b c");
    assert_eq!(strip_marks("<mark><mark>x"), "x");
    let hits = vec![SearchHit {
        meeting_id: "m1".into(),
        meeting_title: None,
        meeting_created_at: -5,
        kind: "summary".into(),
        snippet: "the <mark>budget</mark>".into(),
    }];
    let v: serde_json::Value = serde_json::from_str(&search_reply("budget", &hits)).unwrap();
    assert_eq!(v["query"], "budget");
    assert_eq!(v["hits"][0]["snippet"], "the budget");
    assert!(v["hits"][0]["meeting_title"].is_null());
    assert_eq!(v["hits"][0]["meeting_created_at"], -5);
    let e: serde_json::Value =
        serde_json::from_str(&failed_tool_content(&AppError::DatabaseError("locked".into()))).unwrap();
    assert_eq!(e["error"], "Database error: locked");
}

#[test]
fn tools_definition_is_json() {
    let v: serde_json::Value = serde_json::from_str(TOOLS_JSON).unwrap();
    assert_eq!(v[0]["function"]["name"], "search_meetings");
    assert_eq!(v[0]["function"]["parameters"]["properties"]["limit"]["maximum"], 20);
}

#[test]
fn queue_starts_then_queues_and_refuses_duplicates() {
    let mut q = SummarizationQueue::new();
    assert_eq!(q.request("a".into()).ok(), Some(QueueStart::Started));
    assert_eq!(q.request("b".into()).ok(), Some(QueueStart::Queued));
    match q.request("a".into()) {
        Err(AppError::SummarizationFailed(m)) => {
            assert_eq!(m, "This meeting is already being summarized or queued")
        }
        _ => panic!("expected a refusal"),
    }
    assert!(q.request("b".into()).is_err());
    assert_eq!(q.active.as_deref(), Some("a"));
    assert_eq!(q.pending, vec!["b".to_string()]);
}

#[test]
fn preempted_summary_resumes_first() {
    let mut q = SummarizationQueue::new();
    q.request("a".into()).ok();
    q.request("b".into()).ok();
    q.preempt();
    assert_eq!(q.active, None);
    assert_eq!(q.pending, vec!["a".to_string(), "b".to_string()]);
    assert_eq!(q.start_next().as_deref(), Some("a"));
    assert_eq!(q.active.as_deref(), Some("a"));
    q.finish();
    assert_eq!(q.start_next().as_deref(), Some("b"));
    q.finish();
    assert_eq!(q.start_next(), None);
}

#[test]
fn empty_transcript_is_not_summarized() {
    assert!(matches!(summary_transcript(&[]), Err(AppError::SummarizationFailed(m)) if m == "No transcript to summarize"));
    assert_eq!(summary_transcript(&[segment("microphone", "hi")]).ok().unwrap(), "You: hi");
}

#[test]
fn generated_title_is_appended_to_real_titles() {
    assert_eq!(combine_title(Some("  Standup "), "Roadmap"), "Standup — Roadmap");
    assert_eq!(combine_title(Some("Recording"), "Roadmap"), "Roadmap");
    assert_eq!(combine_title(Some("  "), "Roadmap"), "Roadmap");
    assert_eq!(combine_title(None, "Roadmap"), "Roadmap");
}

#[test]
fn deleting_default_template_clears_it() {
    let mut s = AppSettings { default_template: Some("mine".into()), ..Default::default() };
    assert!(!forget_default_template(&mut s, "other"));
    assert_eq!(s.default_template.as_deref(), Some("mine"));
    assert!(forget_default_template(&mut s, "mine"));
    assert_eq!(s.default_template, None);
}

#[test]
fn meeting_being_recorded_cannot_be_deleted() {
    assert!(check_deletable(Some("m1"), "m1").is_err());
    assert!(check_deletable(Some("m1"), "m2").is_ok());
    assert!(check_deletable(None, "m1").is_ok());
}

fn status(capturing: bool, finalizing: bool, has_clock: bool) -> CaptureStatus {
    CaptureStatus { capturing, finalizing, has_clock }
}

#[test]
fn recorder_start_rules() {
    assert!(matches!(check_start(false, status(false, false, true)), Err(AppError::PermissionDenied(_))));
    assert!(matches!(check_start(true, status(false, true, true)), Err(AppError::CaptureFailed(m)) if m.starts_with("Still saving")));
    assert!(matches!(check_start(true, status(true, false, true)), Err(AppError::CaptureFailed(m)) if m == "Already recording"));
    assert!(check_start(true, status(false, false, false)).is_ok());
    assert_eq!(resume_target(Some(String::new())), None);
    assert_eq!(resume_target(Some("m1".into())).as_deref(), Some("m1"));
    assert_eq!(source_label(AudioSource::SystemAudio), "system");
    assert_eq!(source_label(AudioSource::Microphone), "microphone");
}

#[test]
fn recorder_pause_and_resume_rules() {
    assert!(check_pause(status(true, true, true)).is_err());
    assert_eq!(check_pause(status(false, false, true)).ok(), Some(false));
    assert_eq!(check_pause(status(true, false, true)).ok(), Some(true));
    assert!(matches!(check_resume(status(true, false, true), Some("m".into())), Ok(None)));
    assert!(matches!(check_resume(status(false, false, true), None), Err(AppError::CaptureFailed(m)) if m == "No meeting to resume"));
    assert!(matches!(check_resume(status(false, false, false), Some("m".into())), Err(AppError::CaptureFailed(m)) if m == "Missing session clock"));
    assert!(matches!(check_resume(status(false, false, true), Some("m".into())), Ok(Some(m)) if m == "m"));
    let ev = recording_state_event(status(false, false, true), Some("m".into()), 42);
    assert!(ev.paused && !ev.recording);
    assert_eq!(ev.elapsed_secs, 42);
    assert!(!recording_state_event(status(false, true, true), Some("m".into()), 0).paused);
}

#[test]
fn recorded_time_saturates() {
    assert_eq!(total_recorded_ms(1_000, 500), 1_500);
    assert_eq!(total_recorded_ms(i64::MAX - 1, 10), i64::MAX);
}

fn seg(text: &str, start_cs: i64) -> TimestampedSegment {
    TimestampedSegment { text: text.into(), start_cs, end_cs: start_cs + 100 }
}

#[test]
fn final_events_interleave_sources_by_time() {
    let items = vec![
        BatchSource { label: "system".into(), timestamp_ms: 1_000 },
        BatchSource { label: "microphone".into(), timestamp_ms: 1_500 },
    ];
    let lists = vec![vec![seg("a", 0), seg("c", 200)], vec![seg("b", 10), seg("d", 150)]];
    let (events, context) = final_transcript_events(&items, &lists);
    let order: Vec<(&str, u64)> = events.iter().map(|e| (e.text.as_str(), e.timestamp_ms)).collect();
    assert_eq!(order, vec![("a", 1_000), ("b", 1_600), ("c", 3_000), ("d", 3_000)]);
    assert!(events.iter().all(|e| !e.is_provisional));
    assert_eq!(context, vec![
        ("system".to_string(), "a c".to_string()),
        ("microphone".to_string(), "b d".to_string()),
    ]);
}

#[test]
fn preview_events_join_each_buffer() {
    let items = vec![
        BatchSource { label: "system".into(), timestamp_ms: 7 },
        BatchSource { label: "microphone".into(), timestamp_ms: 9 },
    ];
    let lists = vec![vec![seg("hello", 0), seg("there", 5)], vec![]];
    let events = preview_transcript_events(&items, &lists);
    assert_eq!(events.len(), 1);
    assert_eq!(events[0].text, "hello there");
    assert_eq!(events[0].source, "system");
    assert_eq!(events[0].timestamp_ms, 7);
    assert!(events[0].is_provisional);
}

#[test]
fn sorting_by_time_is_stable() {
    let ev = |t: &str, ms: u64| TranscriptEvent {
        text: t.into(),
        source: "s".into(),
        timestamp_ms: ms,
        is_provisional: false,
    };
    let sorted = sort_by_time(vec![ev("x", 5), ev("y", 1), ev("z", 5), ev("w", 0)]);
    let texts: Vec<&str> = sorted.iter().map(|e| e.text.as_str()).collect();
    assert_eq!(texts, vec!["w", "y", "x", "z"]);
}

#[test]
fn tools_schema_offers_the_search_tool() {
    let t = tools_json();
    assert_eq!(t, TOOLS_JSON);
    let v: serde_json::Value = serde_json::from_str(&t).unwrap();
    assert_eq!(v[0]["type"], "function");
    assert_eq!(v[0]["function"]["name"], "search_meetings");
    assert_eq!(v[0]["function"]["parameters"]["properties"]["limit"]["maximum"], 20);
    assert_eq!(v[0]["function"]["parameters"]["required"][0], "query");
}

#[test]
fn tool_loop_decisions_after_a_turn() {
    let outcome = |calls: Vec<ToolCallSpec>| TurnOutcome {
        tool_calls: calls,
        prompt_tokens: 10,
        completion_tokens: 5,
        max_tokens: 4096,
    };
    assert!(matches!(after_turn(Ok(outcome(vec![]))), TurnStep::Complete));
    assert!(matches!(after_turn(Err(AppError::Interrupted)), TurnStep::Complete));
    match after_turn(Err(AppError::SummarizationFailed("boom".to_string()))) {
        TurnStep::Fail(AppError::SummarizationFailed(m)) => assert_eq!(m, "boom"),
        _ => panic!("expected a failure"),
    }
    let call = ToolCallSpec {
        id: "call_0".to_string(),
        name: "search_meetings".to_string(),
        arguments: "{\"query\":\"budget\"}".to_string(),
    };
    match after_turn(Ok(outcome(vec![call]))) {
        TurnStep::RunTools(calls) => {
            assert_eq!(calls.len(), 1);
            assert_eq!(calls[0].name, "search_meetings");
        }
        _ => panic!("expected tool calls"),
    }
}

#[test]
fn error_content_escapes_as_json() {
    let c = tool_error_content("a\"b\\c\nd\u{1}e\u{7f}é");
    assert_eq!(c, "{\"error\":\"a\\\"b\\\\c\\nd\\u0001e\u{7f}é\"}");
    let v: serde_json::Value = serde_json::from_str(&c).unwrap();
    assert_eq!(v["error"], "a\"b\\c\nd\u{1}e\u{7f}é");
}
