//! Whole streamed turns, from the bytes of the event stream to what is sent
//! on.
use chat_bridge::chunk::{
    ChatApiError, ChatApiErrorDetail, ChatChoice, ChatDelta, ChatDeltaFn, ChatDeltaToolCall,
    ChatStreamChunk, ChatUsage,
};
use chat_bridge::error::{ApiError, TransportError, UNAUTHORIZED};
use chat_bridge::protocol::{
    ContentItem, MessagePhase, ResponseEvent, ResponseItem, TokenUsage,
};
use chat_bridge::session::{stops_after, try_parse_chat_error, ChatSession, SsePoll};
use eventsource_stream::Eventsource;
use futures::executor::block_on;
use futures::StreamExt;
use serde_json::Value;

type Sends = Vec<Result<ResponseEvent, ApiError>>;

fn text(value: &Value, key: &str) -> Option<String> {
    value.get(key).and_then(Value::as_str).map(str::to_string)
}

fn number(value: &Value, key: &str) -> i64 {
    value.get(key).and_then(Value::as_i64).unwrap_or_default()
}

fn present<'a>(value: &'a Value, key: &str) -> Option<&'a Value> {
    value.get(key).filter(|inner| !inner.is_null())
}

fn tool_call(value: &Value) -> ChatDeltaToolCall {
    ChatDeltaToolCall {
        index: value["index"].as_u64().unwrap() as usize,
        id: text(value, "id"),
        function: present(value, "function").map(|function| ChatDeltaFn {
            name: text(function, "name"),
            arguments: text(function, "arguments"),
        }),
    }
}

fn choice(value: &Value) -> ChatChoice {
    let delta = &value["delta"];
    ChatChoice {
        delta: ChatDelta {
            role: text(delta, "role"),
            content: text(delta, "content"),
            tool_calls: present(delta, "tool_calls")
                .map(|calls| calls.as_array().unwrap().iter().map(tool_call).collect()),
            reasoning_content: text(delta, "reasoning_content"),
        },
        finish_reason: text(value, "finish_reason"),
        index: present(value, "index").map(|index| index.as_u64().unwrap() as usize),
    }
}

fn chunk(value: &Value) -> ChatStreamChunk {
    ChatStreamChunk {
        choices: match present(value, "choices") {
            Some(choices) => choices.as_array().unwrap().iter().map(choice).collect(),
            None => Vec::new(),
        },
        usage: present(value, "usage").map(|usage| ChatUsage {
            prompt_tokens: number(usage, "prompt_tokens"),
            completion_tokens: number(usage, "completion_tokens"),
            total_tokens: number(usage, "total_tokens"),
        }),
        id: text(value, "id"),
        model: text(value, "model"),
    }
}

fn error_object(value: &Value) -> ChatApiError {
    ChatApiError {
        error: present(value, "error").map(|detail| ChatApiErrorDetail {
            code: text(detail, "code"),
            message: text(detail, "message"),
            error_type: text(detail, "type"),
        }),
    }
}

fn event(data: &str) -> SsePoll {
    let parsed: Option<Value> =
        serde_json::from_str(data).ok().filter(|value: &Value| value.is_object());
    SsePoll::Event {
        data: data.to_string(),
        error: parsed.as_ref().map(error_object),
        chunk: parsed.as_ref().map(chunk),
    }
}

fn run_polls(polls: Vec<SsePoll>) -> Sends {
    let mut session = ChatSession::new();
    let mut sent = Vec::new();
    for poll in polls {
        assert!(poll.is_countable());
        let step = session.advance(poll);
        for send in step.sends {
            let stops = stops_after(&send, true);
            sent.push(send);
            if stops {
                assert!(step.done);
                return sent;
            }
        }
        if step.done {
            return sent;
        }
    }
    sent
}

fn run_chat_sse(chunks: Vec<&str>) -> Sends {
    let mut body = String::new();
    for chunk in chunks {
        body.push_str(&format!("data: {chunk}\n\n"));
    }
    let bytes = vec![Ok::<Vec<u8>, std::io::Error>(body.into_bytes())];
    let mut stream = futures::stream::iter(bytes).eventsource();
    let mut polls = Vec::new();
    while let Some(sse) = block_on(stream.next()) {
        polls.push(event(&sse.unwrap().data));
    }
    polls.push(SsePoll::Closed);
    run_polls(polls)
}

fn delta(text: &str) -> Result<ResponseEvent, ApiError> {
    Ok(ResponseEvent::OutputTextDelta(text.to_string()))
}

fn thought(text: &str) -> Result<ResponseEvent, ApiError> {
    Ok(ResponseEvent::ReasoningSummaryDelta { delta: text.to_string(), summary_index: 0 })
}

fn call_piece(id: &str, fragment: &str) -> Result<ResponseEvent, ApiError> {
    Ok(ResponseEvent::ToolCallInputDelta {
        item_id: id.to_string(),
        call_id: Some(id.to_string()),
        delta: fragment.to_string(),
    })
}

fn message(id: &str, text: &str, phase: MessagePhase) -> Result<ResponseEvent, ApiError> {
    Ok(ResponseEvent::OutputItemDone(ResponseItem::Message {
        id: Some(id.to_string()),
        role: "assistant".to_string(),
        content: vec![ContentItem::OutputText { text: text.to_string() }],
        phase: Some(phase),
        internal_chat_message_metadata_passthrough: None,
    }))
}

fn reasoning(id: &str, text: &str) -> Result<ResponseEvent, ApiError> {
    Ok(ResponseEvent::OutputItemDone(ResponseItem::Reasoning {
        id: Some(id.to_string()),
        summary: vec![],
        content: None,
        encrypted_content: Some(text.to_string()),
        internal_chat_message_metadata_passthrough: None,
    }))
}

fn call(id: &str, name: &str, arguments: &str) -> Result<ResponseEvent, ApiError> {
    Ok(ResponseEvent::OutputItemDone(ResponseItem::FunctionCall {
        id: Some(id.to_string()),
        name: name.to_string(),
        namespace: None,
        arguments: arguments.to_string(),
        call_id: id.to_string(),
        internal_chat_message_metadata_passthrough: None,
    }))
}

fn completed(
    id: &str,
    tokens: Option<(i64, i64, i64)>,
    end_turn: bool,
) -> Result<ResponseEvent, ApiError> {
    Ok(ResponseEvent::Completed {
        response_id: id.to_string(),
        token_usage: tokens.map(|(input_tokens, output_tokens, total_tokens)| TokenUsage {
            input_tokens,
            cached_input_tokens: 0,
            output_tokens,
            reasoning_output_tokens: 0,
            total_tokens,
        }),
        end_turn: Some(end_turn),
    })
}

fn failure(message: &str) -> Result<ResponseEvent, ApiError> {
    Err(ApiError::Stream(message.to_string()))
}

#[test]
fn parses_text_stream() {
    let chunk1 = r#"{
        "id": "chatcmpl-1",
        "model": "deepseek-v4-flash",
        "choices": [{
            "index": 0,
            "delta": { "role": "assistant", "content": "Hello" },
            "finish_reason": null
        }]
    }"#
    .replace('\n', "");
    let chunk2 = r#"{
        "id": "chatcmpl-1",
        "choices": [{
            "index": 0,
            "delta": { "content": " world" },
            "finish_reason": null
        }]
    }"#
    .replace('\n', "");
    let chunk3 = r#"{
        "id": "chatcmpl-1",
        "choices": [{
            "index": 0,
            "delta": {},
            "finish_reason": "stop"
        }],
        "usage": { "prompt_tokens": 10, "completion_tokens": 2, "total_tokens": 12 }
    }"#
    .replace('\n', "");

    let events = run_chat_sse(vec![&chunk1, &chunk2, &chunk3]);

    assert!(matches!(events[0], Ok(ResponseEvent::Created)));
    assert!(matches!(&events[1], Ok(ResponseEvent::OutputTextDelta(d)) if d == "Hello"));
    assert!(matches!(&events[2], Ok(ResponseEvent::OutputTextDelta(d)) if d == " world"));
    assert!(matches!(&events[3], Ok(ResponseEvent::OutputItemDone(ResponseItem::Message { .. }))));
    assert!(matches!(&events[4], Ok(ResponseEvent::Completed { .. })));
    assert_eq!(
        events,
        vec![
            Ok(ResponseEvent::Created),
            delta("Hello"),
            delta(" world"),
            message("msg_1", "Hello world", MessagePhase::FinalAnswer),
            completed("chatcmpl-1", Some((10, 2, 12)), true),
        ]
    );
}

#[test]
fn parses_reasoning_stream() {
    let chunk1 = r#"{
        "id": "chatcmpl-1",
        "model": "deepseek-v4-pro",
        "choices": [{
            "index": 0,
            "delta": { "role": "assistant", "reasoning_content": "Thinking step 1..." },
            "finish_reason": null
        }]
    }"#
    .replace('\n', "");
    let chunk2 = r#"{
        "id": "chatcmpl-1",
        "choices": [{
            "index": 0,
            "delta": { "content": "Answer text" },
            "finish_reason": null
        }]
    }"#
    .replace('\n', "");
    let chunk3 = r#"{
        "id": "chatcmpl-1",
        "choices": [{
            "index": 0,
            "delta": {},
            "finish_reason": "stop"
        }],
        "usage": { "prompt_tokens": 20, "completion_tokens": 5, "total_tokens": 25 }
    }"#
    .replace('\n', "");

    let events = run_chat_sse(vec![&chunk1, &chunk2, &chunk3]);

    assert!(matches!(events[0], Ok(ResponseEvent::Created)));
    assert!(matches!(
        &events[1],
        Ok(ResponseEvent::ReasoningSummaryDelta { delta, .. }) if delta == "Thinking step 1..."
    ));
    assert!(matches!(&events[2], Ok(ResponseEvent::OutputTextDelta(d)) if d == "Answer text"));
    assert!(matches!(
        &events[3],
        Ok(ResponseEvent::OutputItemDone(ResponseItem::Reasoning { .. }))
    ));
    assert!(matches!(&events[4], Ok(ResponseEvent::OutputItemDone(ResponseItem::Message { .. }))));
    assert!(matches!(&events[5], Ok(ResponseEvent::Completed { end_turn: Some(true), .. })));
    assert_eq!(
        events,
        vec![
            Ok(ResponseEvent::Created),
            thought("Thinking step 1..."),
            delta("Answer text"),
            reasoning("msg_1", "Thinking step 1..."),
            message("msg_2", "Answer text", MessagePhase::FinalAnswer),
            completed("chatcmpl-1", Some((20, 5, 25)), true),
        ]
    );
}

#[test]
fn parses_tool_call_stream() {
    let chunk1 = r#"{
        "id": "chatcmpl-2",
        "model": "deepseek-v4-flash",
        "choices": [{
            "index": 0,
            "delta": {
                "role": "assistant",
                "content": null,
                "tool_calls": [{
                    "index": 0,
                    "id": "call_1",
                    "function": { "name": "read_file", "arguments": "{\"path\"" }
                }]
            },
            "finish_reason": null
        }]
    }"#
    .replace('\n', "");
    let chunk2 = r#"{
        "id": "chatcmpl-2",
        "choices": [{
            "index": 0,
            "delta": {
                "tool_calls": [{
                    "index": 0,
                    "function": { "arguments": ": \"/etc/hosts\"}" }
                }]
            },
            "finish_reason": null
        }]
    }"#
    .replace('\n', "");
    let chunk3 = r#"{
        "id": "chatcmpl-2",
        "choices": [{
            "index": 0,
            "delta": {},
            "finish_reason": "tool_calls"
        }],
        "usage": { "prompt_tokens": 15, "completion_tokens": 8, "total_tokens": 23 }
    }"#
    .replace('\n', "");

    let events = run_chat_sse(vec![&chunk1, &chunk2, &chunk3]);

    assert!(matches!(events[0], Ok(ResponseEvent::Created)));
    assert!(matches!(&events[1], Ok(ResponseEvent::ToolCallInputDelta { .. })));
    assert!(matches!(&events[2], Ok(ResponseEvent::ToolCallInputDelta { .. })));
    assert!(matches!(
        &events[3],
        Ok(ResponseEvent::OutputItemDone(ResponseItem::FunctionCall { name, .. }))
            if name == "read_file"
    ));
    assert!(matches!(&events[4], Ok(ResponseEvent::Completed { end_turn: Some(false), .. })));
    assert_eq!(
        events,
        vec![
            Ok(ResponseEvent::Created),
            call_piece("call_1", "{\"path\""),
            call_piece("call_1", ": \"/etc/hosts\"}"),
            call("call_1", "read_file", "{\"path\": \"/etc/hosts\"}"),
            completed("chatcmpl-2", Some((15, 8, 23)), false),
        ]
    );
}

#[test]
fn error_on_done_before_complete() {
    let chunk1 = r#"{
        "id": "chatcmpl-1",
        "model": "deepseek-v4-flash",
        "choices": [{
            "index": 0,
            "delta": { "role": "assistant", "content": "Hello" },
            "finish_reason": null
        }]
    }"#
    .replace('\n', "");

    let events = run_chat_sse(vec![&chunk1, "[DONE]"]);

    assert!(matches!(events[0], Ok(ResponseEvent::Created)));
    assert!(matches!(&events[1], Ok(ResponseEvent::OutputTextDelta(d)) if d == "Hello"));
    assert!(events[2].is_err());
    assert_eq!(
        events,
        vec![
            Ok(ResponseEvent::Created),
            delta("Hello"),
            failure("stream ended without completion"),
        ]
    );
}

#[test]
fn handles_context_window_error() {
    let error_chunk = r#"{
        "error": {
            "code": "context_length_exceeded",
            "message": "Token limit exceeded"
        }
    }"#
    .replace('\n', "");

    let events = run_chat_sse(vec![&error_chunk]);

    assert_eq!(events.len(), 1);
    match &events[0] {
        Err(ApiError::ContextWindowExceeded) => {}
        other => panic!("Expected ContextWindowExceeded, got {other:?}"),
    }
}

const HELLO: &str = r#"{"id":"r1","choices":[{"delta":{"content":"Hello"}}]}"#;
const STOP: &str = r#"{"choices":[{"delta":{},"finish_reason":"stop"}]}"#;

#[test]
fn end_signal_before_any_chunk_is_an_error() {
    let failed = || vec![failure("stream ended without completion")];
    assert_eq!(run_chat_sse(vec!["[DONE]"]), failed());
    assert_eq!(run_polls(vec![event(" \u{2003}[DONE]\t\r\n")]), failed());
}

#[test]
fn end_signal_may_be_surrounded_by_white_space_only() {
    assert_eq!(
        run_polls(vec![event(HELLO), event("\u{a0}[DONE]\u{3000}"), SsePoll::Closed]),
        vec![
            Ok(ResponseEvent::Created),
            delta("Hello"),
            failure("stream ended without completion"),
        ]
    );
    assert_eq!(
        run_polls(vec![event(HELLO), event("[DONE] ."), SsePoll::Closed]),
        vec![
            Ok(ResponseEvent::Created),
            delta("Hello"),
            failure("stream closed before completion"),
        ]
    );
}

#[test]
fn end_signal_outweighs_a_reported_error() {
    let error = r#"{"error":{"code":"insufficient_quota"}}"#;
    assert_eq!(
        run_chat_sse(vec![error, "[DONE]"]),
        vec![failure("stream ended without completion")]
    );
    assert_eq!(
        run_chat_sse(vec![HELLO, error, "[DONE]"]),
        vec![
            Ok(ResponseEvent::Created),
            delta("Hello"),
            failure("stream ended without completion"),
        ]
    );
}

#[test]
fn closed_stream_is_an_error() {
    assert_eq!(run_chat_sse(vec![]), vec![failure("stream closed before completion")]);
    assert_eq!(
        run_chat_sse(vec![HELLO]),
        vec![
            Ok(ResponseEvent::Created),
            delta("Hello"),
            failure("stream closed before completion"),
        ]
    );
}

#[test]
fn silence_and_failure_are_errors() {
    let quota = r#"{"error":{"code":"insufficient_quota"}}"#;
    assert_eq!(
        run_polls(vec![event(quota), SsePoll::TimedOut]),
        vec![failure("idle timeout waiting for SSE")]
    );
    assert_eq!(
        run_polls(vec![event(quota), SsePoll::Failed("broken pipe".to_string())]),
        vec![failure("broken pipe")]
    );
}

#[test]
fn the_last_error_is_reported() {
    let first = r#"{"error":{"code":"server_error"}}"#;
    let second = r#"{"error":{"code":"insufficient_quota"}}"#;
    let unknown = r#"{"error":{"code":"no_such_code","message":"what"},"choices":[]}"#;
    assert_eq!(run_chat_sse(vec![first, second]), vec![Err(ApiError::QuotaExceeded)]);
    assert_eq!(run_chat_sse(vec![second, first]), vec![Err(ApiError::ServerOverloaded)]);
    assert_eq!(
        run_chat_sse(vec![first, HELLO]),
        vec![Ok(ResponseEvent::Created), delta("Hello"), Err(ApiError::ServerOverloaded)]
    );
    // An error whose code is not known is reported too, and its object is
    // never read as a chunk.
    assert_eq!(run_chat_sse(vec![first, unknown]), vec![failure("what")]);
    assert_eq!(
        run_chat_sse(vec![r#"{"error":null}"#]),
        vec![Ok(ResponseEvent::Created), failure("stream closed before completion")]
    );
}

#[test]
fn an_error_does_not_keep_a_turn_from_completing() {
    assert_eq!(
        run_chat_sse(vec![r#"{"error":{"code":"server_error"}}"#, HELLO, STOP]),
        vec![
            Ok(ResponseEvent::Created),
            delta("Hello"),
            message("msg_1", "Hello", MessagePhase::FinalAnswer),
            completed("r1", None, true),
        ]
    );
}

#[test]
fn unreadable_data_is_passed_over() {
    assert_eq!(run_chat_sse(vec!["not json", HELLO, "<>", STOP]), run_chat_sse(vec![HELLO, STOP]));
}

#[test]
fn nothing_follows_completion() {
    let complete = run_chat_sse(vec![HELLO, STOP]);
    assert_eq!(run_chat_sse(vec![HELLO, STOP, HELLO, STOP, "[DONE]"]), complete);
    let both = r#"{"choices":[
        {"delta":{"content":" a"},"finish_reason":"stop"},
        {"delta":{"content":" b"},"finish_reason":"stop"}]}"#
        .replace('\n', "");
    assert_eq!(
        run_chat_sse(vec![HELLO, &both]),
        vec![
            Ok(ResponseEvent::Created),
            delta("Hello"),
            delta(" a"),
            message("msg_1", "Hello a", MessagePhase::FinalAnswer),
            completed("r1", None, true),
        ]
    );
}

#[test]
fn a_response_without_a_name_gets_one() {
    let chunk = r#"{"choices":[{"delta":{"content":"x"},"finish_reason":"length"}]}"#;
    assert_eq!(
        run_chat_sse(vec![chunk]),
        vec![
            Ok(ResponseEvent::Created),
            delta("x"),
            message("msg_1", "x", MessagePhase::FinalAnswer),
            completed("chat_resp", None, true),
        ]
    );
}

#[test]
fn later_chunks_do_not_rename_the_response() {
    let renamed = r#"{"id":"r2","choices":[{"delta":{},"finish_reason":"stop"}]}"#;
    assert_eq!(
        run_chat_sse(vec![HELLO, renamed]).pop(),
        Some(completed("r1", None, true))
    );
}

#[test]
fn a_cut_off_reply_keeps_its_reasoning_back() {
    let chunk = r#"{"id":"r1","choices":[{"delta":{"reasoning_content":"hm","content":"par"},
        "finish_reason":"length"}],"usage":{"prompt_tokens":1}}"#
        .replace('\n', "");
    assert_eq!(
        run_chat_sse(vec![&chunk]),
        vec![
            Ok(ResponseEvent::Created),
            thought("hm"),
            delta("par"),
            message("msg_1", "par", MessagePhase::FinalAnswer),
            completed("r1", Some((1, 0, 0)), true),
        ]
    );
}

#[test]
fn an_empty_reply_has_no_message() {
    assert_eq!(
        run_chat_sse(vec![STOP]),
        vec![Ok(ResponseEvent::Created), completed("chat_resp", None, true)]
    );
    let cut = r#"{"choices":[{"delta":{"content":"","reasoning_content":""},"finish_reason":"length"}]}"#;
    assert_eq!(
        run_chat_sse(vec![cut]),
        vec![Ok(ResponseEvent::Created), completed("chat_resp", None, true)]
    );
}

#[test]
fn an_unknown_finish_reason_changes_nothing() {
    let odd = r#"{"choices":[{"delta":{"content":"!"},"finish_reason":"content_filter"}]}"#;
    assert_eq!(
        run_chat_sse(vec![HELLO, odd, STOP]),
        vec![
            Ok(ResponseEvent::Created),
            delta("Hello"),
            delta("!"),
            message("msg_1", "Hello!", MessagePhase::FinalAnswer),
            completed("r1", None, true),
        ]
    );
}

#[test]
fn tool_calls_interleave_and_leave_gaps() {
    let pieces = r#"{"id":"r1","choices":[{"delta":{"reasoning_content":"why","content":"note",
        "tool_calls":[
            {"index":2,"id":"c2","function":{"name":"late","arguments":"{"}},
            {"index":0,"id":"old","function":{"name":"first"}},
            {"index":2,"function":{"arguments":"}"}},
            {"index":0,"id":"c0"}]}}]}"#
        .replace('\n', "");
    let end = r#"{"choices":[{"delta":{},"finish_reason":"tool_calls"}]}"#;
    assert_eq!(
        run_chat_sse(vec![&pieces, end]),
        vec![
            Ok(ResponseEvent::Created),
            thought("why"),
            call_piece("c2", "{"),
            call_piece("old", ""),
            call_piece("c2", "}"),
            call_piece("c0", ""),
            delta("note"),
            reasoning("msg_1", "why"),
            message("msg_2", "note", MessagePhase::Commentary),
            call("c0", "first", ""),
            call("", "", ""),
            call("c2", "late", "{}"),
            completed("r1", None, false),
        ]
    );
}

#[test]
fn calls_are_not_handed_out_where_the_model_stopped() {
    let piece = r#"{"id":"r1","choices":[{"delta":{"tool_calls":[{"index":0,"id":"c"}]},
        "finish_reason":"stop"}]}"#
        .replace('\n', "");
    assert_eq!(
        run_chat_sse(vec![&piece]),
        vec![Ok(ResponseEvent::Created), call_piece("c", ""), completed("r1", None, true)]
    );
}

fn error_for(code: Option<&str>, message: Option<&str>) -> Option<ApiError> {
    try_parse_chat_error(Some(ChatApiError {
        error: Some(ChatApiErrorDetail {
            code: code.map(str::to_string),
            message: message.map(str::to_string),
            error_type: Some("server_error".to_string()),
        }),
    }))
}

#[test]
fn error_codes_are_told_apart() {
    assert_eq!(
        error_for(Some("context_length_exceeded"), None),
        Some(ApiError::ContextWindowExceeded)
    );
    assert_eq!(error_for(Some("insufficient_quota"), None), Some(ApiError::QuotaExceeded));
    for code in ["invalid_api_key", "invalid_authentication"] {
        assert_eq!(
            error_for(Some(code), Some("no")),
            Some(ApiError::Transport(TransportError::Http {
                status: UNAUTHORIZED,
                url: None,
                headers: None,
                body: Some("no".to_string()),
            }))
        );
    }
    assert_eq!(UNAUTHORIZED, http::StatusCode::UNAUTHORIZED.as_u16());
    assert_eq!(
        error_for(Some("rate_limit_exceeded"), Some("slow down")),
        Some(ApiError::Retryable { message: "slow down".to_string(), delay: None })
    );
    assert_eq!(
        error_for(Some("rate_limit_exceeded"), None),
        Some(ApiError::Retryable { message: String::new(), delay: None })
    );
    for code in ["server_error", "internal_error"] {
        assert_eq!(error_for(Some(code), None), Some(ApiError::ServerOverloaded));
    }
    let stream = |message: &str| Some(ApiError::Stream(message.to_string()));
    assert_eq!(error_for(Some("something_else"), Some("m")), stream("m"));
    assert_eq!(error_for(Some("Server_error"), None), stream(""));
    assert_eq!(error_for(Some(""), Some("empty")), stream("empty"));
    assert_eq!(error_for(None, Some("what")), stream("what"));
    assert_eq!(error_for(None, None), stream(""));
    assert_eq!(try_parse_chat_error(Some(ChatApiError { error: None })), None);
    assert_eq!(try_parse_chat_error(None), None);
}

#[test]
fn sending_stops_where_nobody_listens() {
    assert!(!stops_after(&Ok(ResponseEvent::Created), false));
    assert!(!stops_after(&Ok(ResponseEvent::Created), true));
    assert!(!stops_after(&delta("a"), true));
    assert!(stops_after(&delta("a"), false));
    assert!(!stops_after(&call("c", "f", ""), true));
    assert!(stops_after(&completed("r", None, true), true));
    assert!(stops_after(&completed("r", None, true), false));
    assert!(stops_after(&failure("x"), true));
    assert!(stops_after(&failure("x"), false));
}

#[test]
fn an_index_beyond_any_length_is_not_countable() {
    let reported = || ChatApiError {
        error: Some(ChatApiErrorDetail { code: None, message: None, error_type: None }),
    };
    let piece_of = |data: &str, error, index| SsePoll::Event {
        data: data.to_string(),
        error,
        chunk: Some(ChatStreamChunk {
            choices: vec![ChatChoice {
                delta: ChatDelta {
                    role: None,
                    content: None,
                    tool_calls: Some(vec![
                        ChatDeltaToolCall { index: 0, id: None, function: None },
                        ChatDeltaToolCall { index, id: None, function: None },
                    ]),
                    reasoning_content: None,
                },
                finish_reason: None,
                index: None,
            }],
            usage: None,
            id: None,
            model: None,
        }),
    };
    let piece = |index| piece_of("", None, index);
    assert!(piece(1).is_countable());
    assert!(!piece(usize::MAX).is_countable());
    // What never reaches the converter need not be counted.
    assert!(piece_of("", Some(reported()), usize::MAX).is_countable());
    assert!(piece_of(" [DONE]", None, usize::MAX).is_countable());
    assert!(!piece_of("", Some(ChatApiError { error: None }), usize::MAX).is_countable());
    assert!(SsePoll::Closed.is_countable());
    assert!(SsePoll::TimedOut.is_countable());
    assert!(event("[DONE]").is_countable());
}

#[test]
fn data_is_read_as_a_chunk_unless_it_ends_or_fails() {
    assert!(event(HELLO).reads_chunk());
    assert!(event("not json").reads_chunk());
    assert!(event(r#"{"error":null}"#).reads_chunk());
    assert!(!event(r#"{"error":{}}"#).reads_chunk());
    assert!(!event("\t[DONE] ").reads_chunk());
    assert!(!SsePoll::Closed.reads_chunk());
    assert!(!SsePoll::TimedOut.reads_chunk());
    assert!(!SsePoll::Failed(String::new()).reads_chunk());
}

#[test]
fn text_comes_before_the_calls() {
    let chunk = r#"{"id":"r","choices":[{"delta":{"content":"T","tool_calls":[
        {"index":0,"id":"a","function":{"name":"f","arguments":"{}"}}]},
        "finish_reason":"tool_calls"}]}"#
        .replace('\n', "");
    assert_eq!(
        run_chat_sse(vec![&chunk]),
        vec![
            Ok(ResponseEvent::Created),
            call_piece("a", "{}"),
            delta("T"),
            message("msg_1", "T", MessagePhase::Commentary),
            call("a", "f", "{}"),
            completed("r", None, false),
        ]
    );
}
