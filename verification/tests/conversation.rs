//! Requests, from the Responses API to the Chat Completions API.
use chat_bridge::chunk::{ChatChoice, ChatDelta, ChatDeltaFn, ChatDeltaToolCall, ChatStreamChunk};
use chat_bridge::convert::{flatten_content, from_responses_request};
use chat_bridge::converter::ChatStreamConverter;
use chat_bridge::protocol::{
    ContentItem, FunctionCallOutputPayload, ImageDetail, MessagePhase, ResponseEvent,
    ResponseItem, ResponsesApiRequest,
};
use chat_bridge::request::{
    ChatCompletionRequest, ChatContent, ChatImageUrl, ChatMessage, ChatMultimodalPart, ChatTool,
    ChatToolCall, ChatToolCallFunction, ChatToolFunction, StreamOptions, Thinking,
};
use serde_json::Value;

fn request(instructions: &str, input: Vec<ResponseItem>) -> ResponsesApiRequest {
    ResponsesApiRequest {
        model: "deepseek-v4-pro".to_string(),
        instructions: instructions.to_string(),
        input,
        tools: None,
        tool_choice: "auto".to_string(),
    }
}

fn messages(instructions: &str, input: Vec<ResponseItem>) -> Vec<ChatMessage> {
    from_responses_request(&request(instructions, input)).messages
}

fn said(role: &str, text: &str) -> ResponseItem {
    ResponseItem::Message {
        id: None,
        role: role.to_string(),
        content: vec![ContentItem::InputText { text: text.to_string() }],
        phase: Some(MessagePhase::Commentary),
        internal_chat_message_metadata_passthrough: None,
    }
}

fn reasoned(text: Option<&str>) -> ResponseItem {
    ResponseItem::Reasoning {
        id: None,
        summary: vec!["summary".to_string()],
        content: Some(vec!["content".to_string()]),
        encrypted_content: text.map(str::to_string),
        internal_chat_message_metadata_passthrough: None,
    }
}

fn called(id: &str) -> ResponseItem {
    ResponseItem::FunctionCall {
        id: Some("item".to_string()),
        name: "read".to_string(),
        namespace: Some("ns".to_string()),
        arguments: "{}".to_string(),
        call_id: id.to_string(),
        internal_chat_message_metadata_passthrough: None,
    }
}

fn custom(id: &str) -> ResponseItem {
    ResponseItem::CustomToolCall {
        call_id: id.to_string(),
        name: "patch".to_string(),
        input: "*** Begin".to_string(),
    }
}

fn answered(id: &str, text: Option<&str>) -> ResponseItem {
    ResponseItem::FunctionCallOutput {
        call_id: id.to_string(),
        output: FunctionCallOutputPayload { text: text.map(str::to_string) },
    }
}

fn chat(role: &str, text: &str, reasoning: Option<&str>) -> ChatMessage {
    ChatMessage {
        role: role.to_string(),
        content: ChatContent::Text(text.to_string()),
        tool_calls: None,
        tool_call_id: None,
        reasoning_content: reasoning.map(str::to_string),
    }
}

fn chat_answer(id: &str, text: &str) -> ChatMessage {
    ChatMessage { tool_call_id: Some(id.to_string()), ..chat("tool", text, None) }
}

fn chat_calls(text: &str, calls: Vec<ChatToolCall>, reasoning: Option<&str>) -> ChatMessage {
    ChatMessage { tool_calls: Some(calls), ..chat("assistant", text, reasoning) }
}

fn chat_call(id: &str, name: &str, arguments: &str) -> ChatToolCall {
    ChatToolCall {
        id: id.to_string(),
        kind: "function".to_string(),
        function: ChatToolCallFunction {
            name: name.to_string(),
            arguments: arguments.to_string(),
        },
    }
}

#[test]
fn an_empty_request_has_no_messages() {
    assert_eq!(
        from_responses_request(&request("", vec![])),
        ChatCompletionRequest {
            model: "deepseek-v4-pro".to_string(),
            messages: vec![],
            tools: None,
            tool_choice: "auto".to_string(),
            stream: true,
            stream_options: Some(StreamOptions { include_usage: true }),
            max_tokens: None,
            thinking: Some(Thinking { kind: "enabled".to_string() }),
        }
    );
}

#[test]
fn instructions_lead() {
    assert_eq!(
        messages("be brief", vec![said("user", "hi")]),
        vec![chat("system", "be brief", None), chat("user", "hi", None)]
    );
    assert_eq!(messages("", vec![said("user", "hi")]), vec![chat("user", "hi", None)]);
}

#[test]
fn a_call_joins_the_assistant_before_it() {
    assert_eq!(
        messages(
            "",
            vec![
                said("assistant", "let me see"),
                reasoned(Some("because")),
                called("a"),
                custom("b"),
                answered("a", Some("ok")),
                answered("b", None),
            ]
        ),
        vec![
            chat_calls(
                "let me see",
                vec![chat_call("a", "read", "{}"), chat_call("b", "patch", "*** Begin")],
                Some("because")
            ),
            chat_answer("a", "ok"),
            chat_answer("b", ""),
        ]
    );
}

#[test]
fn a_call_without_an_assistant_makes_one() {
    assert_eq!(
        messages("", vec![said("user", "go"), custom("a"), called("b")]),
        vec![
            chat("user", "go", None),
            chat_calls(
                "",
                vec![chat_call("a", "patch", "*** Begin"), chat_call("b", "read", "{}")],
                None
            ),
        ]
    );
    assert_eq!(
        messages("sys", vec![reasoned(Some("r")), called("b")]),
        vec![
            chat("system", "sys", None),
            chat_calls("", vec![chat_call("b", "read", "{}")], Some("r")),
        ]
    );
    // An answer stands between two calls, so the second makes a message of
    // its own.
    assert_eq!(
        messages("", vec![called("a"), answered("a", Some("1")), called("b")]),
        vec![
            chat_calls("", vec![chat_call("a", "read", "{}")], None),
            chat_answer("a", "1"),
            chat_calls("", vec![chat_call("b", "read", "{}")], None),
        ]
    );
}

#[test]
fn reasoning_goes_with_what_comes_next() {
    assert_eq!(
        messages("", vec![reasoned(Some("r")), said("assistant", "a"), said("assistant", "b")]),
        vec![chat("assistant", "a", Some("r")), chat("assistant", "b", None)]
    );
    // The latest reasoning wins, reasoning without content is passed over,
    // and only the assistant takes it.
    assert_eq!(
        messages(
            "",
            vec![
                reasoned(Some("r")),
                reasoned(Some("s")),
                reasoned(None),
                said("user", "u"),
                said("assistant", "a"),
            ]
        ),
        vec![chat("user", "u", None), chat("assistant", "a", Some("s"))]
    );
    assert_eq!(
        messages("", vec![reasoned(Some("r")), said("user", "u"), called("c")]),
        vec![
            chat("user", "u", None),
            chat_calls("", vec![chat_call("c", "read", "{}")], Some("r")),
        ]
    );
    // An answer does not take it.
    assert_eq!(
        messages("", vec![reasoned(Some("r")), answered("x", None), said("assistant", "a")]),
        vec![chat_answer("x", ""), chat("assistant", "a", Some("r"))]
    );
    // Reasoning that nothing follows is not sent.
    assert_eq!(messages("", vec![reasoned(Some("r"))]), vec![]);
    // A call keeps the reasoning of the message that it joins.
    assert_eq!(
        messages("", vec![reasoned(Some("r")), said("assistant", "a"), called("c")]),
        vec![chat_calls("a", vec![chat_call("c", "read", "{}")], Some("r"))]
    );
}

#[test]
fn either_kind_of_answer_is_given() {
    let output = ResponseItem::CustomToolCallOutput {
        call_id: "c".to_string(),
        output: FunctionCallOutputPayload { text: Some("done".to_string()) },
    };
    assert_eq!(messages("", vec![output]), vec![chat_answer("c", "done")]);
}

#[test]
fn other_items_are_passed_over() {
    let with = vec![said("user", "a"), ResponseItem::Other, called("c"), ResponseItem::Other];
    let without = vec![said("user", "a"), called("c")];
    assert_eq!(messages("i", with), messages("i", without));
}

#[test]
fn the_past_is_kept() {
    let past = || vec![said("user", "a"), said("assistant", "b")];
    let mut longer = past();
    longer.extend(vec![called("c"), answered("c", None), said("user", "d")]);
    let before = messages("i", past());
    let after = messages("i", longer);
    assert_eq!(before[..2], after[..2]);
    assert_eq!(before[2].content, after[2].content);
    assert_eq!(after[2].tool_calls, Some(vec![chat_call("c", "read", "{}")]));
    assert_eq!(after.len(), 5);
}

fn image(url: &str, detail: Option<ImageDetail>) -> ContentItem {
    ContentItem::InputImage { image_url: url.to_string(), detail }
}

fn image_part(url: &str, detail: Option<&str>) -> ChatMultimodalPart {
    ChatMultimodalPart {
        kind: "image_url".to_string(),
        text: None,
        image_url: Some(ChatImageUrl {
            url: url.to_string(),
            detail: detail.map(str::to_string),
        }),
    }
}

#[test]
fn texts_are_joined_by_lines() {
    assert_eq!(flatten_content(&[]), ChatContent::Text(String::new()));
    assert_eq!(
        flatten_content(&[
            ContentItem::InputText { text: "a".to_string() },
            ContentItem::OutputText { text: String::new() },
            ContentItem::OutputText { text: "b".to_string() },
        ]),
        ChatContent::Text("a\n\nb".to_string())
    );
}

#[test]
fn images_come_before_the_text() {
    assert_eq!(
        flatten_content(&[
            ContentItem::InputText { text: "look".to_string() },
            image("u1", Some(ImageDetail::Auto)),
            ContentItem::InputText { text: "here".to_string() },
            image("u2", Some(ImageDetail::Low)),
            image("u3", Some(ImageDetail::High)),
            image("u4", Some(ImageDetail::Original)),
            image("u5", None),
        ]),
        ChatContent::Multimodal(vec![
            image_part("u1", Some("Auto")),
            image_part("u2", Some("Low")),
            image_part("u3", Some("High")),
            image_part("u4", Some("Original")),
            image_part("u5", None),
            ChatMultimodalPart {
                kind: "text".to_string(),
                text: Some("look\nhere".to_string()),
                image_url: None,
            },
        ])
    );
    assert_eq!(
        flatten_content(&[image("u", None)]),
        ChatContent::Multimodal(vec![image_part("u", None)])
    );
    for detail in [ImageDetail::Auto, ImageDetail::Low, ImageDetail::High, ImageDetail::Original] {
        assert_eq!(
            flatten_content(&[image("u", Some(detail))]),
            ChatContent::Multimodal(vec![image_part("u", Some(&format!("{detail:?}")))])
        );
    }
}

fn parsed(text: &str) -> Value {
    serde_json::from_str(text).unwrap()
}

fn tool(name: &str, description: &str, parameters: Value) -> ChatTool {
    ChatTool {
        kind: "function".to_string(),
        function: ChatToolFunction {
            name: name.to_string(),
            description: description.to_string(),
            parameters,
        },
    }
}

#[test]
fn tools_are_nested() {
    let parameters = r#"{"type":"object","properties":{"path":{"type":"string"}}}"#;
    let mut req = request("", vec![]);
    req.tools = Some(vec![
        parsed(&format!(
            r#"{{"type":"function","name":"read","description":"Reads.","parameters":{parameters}}}"#
        )),
        parsed(r#"{"type":"web_search"}"#),
        parsed(r#"{"name":1,"description":["x"],"parameters":null}"#),
        parsed(r#"["name"]"#),
        parsed(r#""name""#),
    ]);
    req.tool_choice = "required".to_string();
    let chat = from_responses_request(&req);
    assert_eq!(
        chat.tools,
        Some(vec![
            tool("read", "Reads.", parsed(parameters)),
            tool("", "", Value::Null),
            tool("", "", Value::Null),
            tool("", "", Value::Null),
            tool("", "", Value::Null),
        ])
    );
    assert_eq!(chat.tool_choice, "required");
    req.tools = Some(vec![]);
    assert_eq!(from_responses_request(&req).tools, Some(vec![]));
}

fn items(events: Vec<ResponseEvent>) -> Vec<ResponseItem> {
    let mut found = Vec::new();
    for event in events {
        if let ResponseEvent::OutputItemDone(item) = event {
            found.push(item);
        }
    }
    found
}

fn turn(content: &str, calls: Vec<ChatDeltaToolCall>, finish: &str) -> Vec<ResponseItem> {
    let mut converter = ChatStreamConverter::new("r".to_string(), "m".to_string());
    items(converter.process(ChatStreamChunk {
        choices: vec![ChatChoice {
            delta: ChatDelta {
                role: None,
                content: Some(content.to_string()),
                tool_calls: Some(calls),
                reasoning_content: Some("why".to_string()),
            },
            finish_reason: Some(finish.to_string()),
            index: None,
        }],
        usage: None,
        id: None,
        model: None,
    }))
}

#[test]
fn an_answer_is_sent_back_as_it_came() {
    let mut input = vec![said("user", "q")];
    input.extend(turn("a", vec![], "stop"));
    assert_eq!(
        messages("", input),
        vec![chat("user", "q", None), chat("assistant", "a", Some("why"))]
    );
}

#[test]
fn calls_are_sent_back_as_they_came() {
    let piece = |index, id: &str| ChatDeltaToolCall {
        index,
        id: Some(id.to_string()),
        function: Some(ChatDeltaFn {
            name: Some("f".to_string()),
            arguments: Some("{}".to_string()),
        }),
    };
    let mut input = vec![said("user", "q")];
    input.extend(turn("note", vec![piece(1, "b"), piece(0, "a")], "tool_calls"));
    assert_eq!(
        messages("", input),
        vec![
            chat("user", "q", None),
            chat_calls(
                "note",
                vec![chat_call("a", "f", "{}"), chat_call("b", "f", "{}")],
                Some("why")
            ),
        ]
    );
}

#[test]
fn calls_join_what_was_said_last() {
    let piece = ChatDeltaToolCall { index: 0, id: Some("a".to_string()), function: None };
    let mut input = vec![said("assistant", "so far"), called("x")];
    input.extend(turn("", vec![piece], "tool_calls"));
    assert_eq!(
        messages("", input),
        vec![chat_calls(
            "so far",
            vec![chat_call("x", "read", "{}"), chat_call("a", "", "")],
            Some("why")
        )]
    );
}

#[test]
fn reasoning_without_words_waits() {
    let mut input = turn("", vec![], "stop");
    assert_eq!(input.len(), 1);
    input.push(said("user", "go on"));
    input.push(said("assistant", "yes"));
    assert_eq!(
        messages("", input),
        vec![chat("user", "go on", None), chat("assistant", "yes", Some("why"))]
    );
}

#[test]
fn a_custom_call_is_a_function_call() {
    let function = ResponseItem::FunctionCall {
        id: None,
        name: "patch".to_string(),
        namespace: None,
        arguments: "*** Begin".to_string(),
        call_id: "c".to_string(),
        internal_chat_message_metadata_passthrough: None,
    };
    let around = |call| vec![said("user", "u"), call, answered("c", None)];
    assert_eq!(messages("i", around(custom("c"))), messages("i", around(function)));
}
