//! The converter on its own, across more than one completion.
use chat_bridge::chunk::{
    ChatChoice, ChatDelta, ChatDeltaFn, ChatDeltaToolCall, ChatStreamChunk, ChatUsage,
};
use chat_bridge::converter::{known_reason, map_usage, ChatStreamConverter};
use chat_bridge::protocol::{
    ContentItem, MessagePhase, ResponseEvent, ResponseItem, TokenUsage,
};

fn converter() -> ChatStreamConverter {
    ChatStreamConverter::new("resp".to_string(), "model".to_string())
}

fn owned(text: &str) -> Option<String> {
    if text.is_empty() {
        None
    } else {
        Some(text.to_string())
    }
}

fn chunk(reasoning: &str, content: &str, finish: &str) -> ChatStreamChunk {
    ChatStreamChunk {
        choices: vec![choice(reasoning, content, finish)],
        usage: None,
        id: None,
        model: None,
    }
}

fn choice(reasoning: &str, content: &str, finish: &str) -> ChatChoice {
    ChatChoice {
        delta: ChatDelta {
            role: None,
            content: owned(content),
            tool_calls: None,
            reasoning_content: owned(reasoning),
        },
        finish_reason: owned(finish),
        index: Some(0),
    }
}

fn streamed_text(events: &[ResponseEvent]) -> String {
    let mut text = String::new();
    for event in events {
        if let ResponseEvent::OutputTextDelta(piece) = event {
            text.push_str(piece);
        }
    }
    text
}

fn message_text(events: &[ResponseEvent]) -> String {
    let mut text = String::new();
    for event in events {
        if let ResponseEvent::OutputItemDone(ResponseItem::Message { content, .. }) = event {
            for part in content {
                if let ContentItem::OutputText { text: piece } = part {
                    text.push_str(piece);
                }
            }
        }
    }
    text
}

fn ids(events: &[ResponseEvent]) -> Vec<String> {
    let mut found = Vec::new();
    for event in events {
        match event {
            ResponseEvent::OutputItemDone(ResponseItem::Message { id: Some(id), .. })
            | ResponseEvent::OutputItemDone(ResponseItem::Reasoning { id: Some(id), .. }) => {
                found.push(id.clone());
            }
            _ => {}
        }
    }
    found
}

#[test]
fn items_are_numbered_from_one() {
    let mut converter = converter();
    for n in 1..=12 {
        assert_eq!(converter.next_item_id(), format!("msg_{n}"));
    }
}

#[test]
fn numbering_goes_on_across_completions() {
    let mut converter = converter();
    let mut events = converter.process(chunk("a", "b", "stop"));
    events.extend(converter.process(chunk("", "c", "length")));
    events.extend(converter.process(chunk("d", "e", "tool_calls")));
    assert_eq!(ids(&events), vec!["msg_1", "msg_2", "msg_3", "msg_4", "msg_5"]);
}

#[test]
fn text_is_neither_lost_nor_repeated() {
    let mut converter = converter();
    let mut events = Vec::new();
    for (content, finish) in
        [("one ", ""), ("", "weird"), ("two ", "length"), ("three ", ""), ("four", "stop")]
    {
        events.extend(converter.process(chunk("", content, finish)));
    }
    assert_eq!(streamed_text(&events), "one two three four");
    assert_eq!(message_text(&events), "one two three four");
}

#[test]
fn reasoning_waits_through_a_cut_off() {
    let mut converter = converter();
    assert_eq!(
        converter.process(chunk("think ", "", "length")),
        vec![
            ResponseEvent::ReasoningSummaryDelta { delta: "think ".to_string(), summary_index: 0 },
            ResponseEvent::Completed {
                response_id: "resp".to_string(),
                token_usage: None,
                end_turn: Some(true),
            },
        ]
    );
    let events = converter.process(chunk("more", "", "stop"));
    assert_eq!(
        events[1],
        ResponseEvent::OutputItemDone(ResponseItem::Reasoning {
            id: Some("msg_1".to_string()),
            summary: vec![],
            content: None,
            encrypted_content: Some("think more".to_string()),
            internal_chat_message_metadata_passthrough: None,
        })
    );
}

#[test]
fn a_stop_behind_a_cut_off_reports_an_empty_message() {
    // Text has begun, and a cut-off does not take that back.
    let mut converter = converter();
    converter.process(chunk("", "text", "length"));
    let events = converter.process(chunk("", "", "stop"));
    assert_eq!(
        events[0],
        ResponseEvent::OutputItemDone(ResponseItem::Message {
            id: Some("msg_2".to_string()),
            role: "assistant".to_string(),
            content: vec![ContentItem::OutputText { text: String::new() }],
            phase: Some(MessagePhase::FinalAnswer),
            internal_chat_message_metadata_passthrough: None,
        })
    );
    assert_eq!(events.len(), 2);
    assert_eq!(converter.process(chunk("", "", "stop")).len(), 1);
}

#[test]
fn calls_survive_until_they_are_asked_for() {
    let mut converter = converter();
    let mut piece = chunk("", "", "stop");
    piece.choices[0].delta.tool_calls = Some(vec![ChatDeltaToolCall {
        index: 1,
        id: Some("c".to_string()),
        function: Some(ChatDeltaFn {
            name: Some("f".to_string()),
            arguments: Some("{}".to_string()),
        }),
    }]);
    converter.process(piece);
    let events = converter.process(chunk("", "", "tool_calls"));
    let mut names = Vec::new();
    for event in &events {
        if let ResponseEvent::OutputItemDone(ResponseItem::FunctionCall {
            name, arguments, ..
        }) = event
        {
            names.push((name.clone(), arguments.clone()));
        }
    }
    assert_eq!(
        names,
        vec![(String::new(), String::new()), ("f".to_string(), "{}".to_string())]
    );
    // They were handed out, so they are gone.
    assert_eq!(converter.process(chunk("", "", "tool_calls")).len(), 1);
}

#[test]
fn every_choice_of_a_chunk_counts() {
    let mut converter = converter();
    let events = converter.process(ChatStreamChunk {
        choices: vec![choice("", "a", ""), choice("", "b", ""), choice("", "c", "stop")],
        usage: Some(ChatUsage { prompt_tokens: 1, completion_tokens: 2, total_tokens: 3 }),
        id: None,
        model: None,
    });
    assert_eq!(streamed_text(&events), "abc");
    assert_eq!(message_text(&events), "abc");
    assert_eq!(
        events.last(),
        Some(&ResponseEvent::Completed {
            response_id: "resp".to_string(),
            token_usage: Some(TokenUsage {
                input_tokens: 1,
                cached_input_tokens: 0,
                output_tokens: 2,
                reasoning_output_tokens: 0,
                total_tokens: 3,
            }),
            end_turn: Some(true),
        })
    );
    let nothing = ChatStreamChunk { choices: vec![], usage: None, id: None, model: None };
    assert_eq!(converter.process(nothing), vec![]);
}

#[test]
fn usage_is_mapped() {
    let usage =
        ChatUsage { prompt_tokens: 10, completion_tokens: -2, total_tokens: i64::MAX };
    assert_eq!(
        map_usage(&usage),
        TokenUsage {
            input_tokens: 10,
            cached_input_tokens: 0,
            output_tokens: -2,
            reasoning_output_tokens: 0,
            total_tokens: i64::MAX,
        }
    );
}

#[test]
fn reasons_are_told_apart() {
    for reason in ["stop", "tool_calls", "length"] {
        assert!(known_reason(&reason.to_string()));
        assert_eq!(converter().process(chunk("", "", reason)).len(), 1);
    }
    for reason in ["content_filter", "Stop", "stop "] {
        assert!(!known_reason(&reason.to_string()));
        assert_eq!(converter().process(chunk("", "", reason)).len(), 0);
    }
}
