//! The HTTP call: its headers, and what is read from the answer's.
use chat_bridge::call::{
    encode_failure, prepare_call, subagent_header, ChatOptions, Compression, SessionSource,
};
use chat_bridge::convert::from_responses_request;
use chat_bridge::error::ApiError;
use chat_bridge::headers::{extend_headers, insert_header, upstream_request_id};
use chat_bridge::protocol::ResponsesApiRequest;
use http::{HeaderMap, HeaderName, HeaderValue};
use std::sync::{Arc, OnceLock};

fn request() -> ResponsesApiRequest {
    ResponsesApiRequest {
        model: "m".to_string(),
        instructions: "i".to_string(),
        input: vec![],
        tools: None,
        tool_choice: "auto".to_string(),
    }
}

fn headers(entries: &[(&'static str, &str)]) -> HeaderMap {
    let mut map = HeaderMap::new();
    for (name, value) in entries {
        map.append(*name, HeaderValue::from_str(value).unwrap());
    }
    map
}

#[test]
fn a_call_is_posted_to_the_chat_endpoint() {
    let call = prepare_call(&request(), ChatOptions::default(), HeaderMap::new()).unwrap();
    assert_eq!(ChatOptions::default().compression, Compression::Off);
    assert!(ChatOptions::default().turn_state.is_none());
    assert_eq!(call.method, http::Method::POST.as_str());
    assert_eq!(call.path, "chat/completions");
    assert_eq!(call.headers, HeaderMap::new());
    assert_eq!(call.body, from_responses_request(&request()));
}

#[test]
fn headers_are_put_together() {
    let options = ChatOptions {
        session_id: Some("s".to_string()),
        thread_id: Some("t".to_string()),
        session_source: Some(SessionSource::SubAgent("planner".to_string())),
        extra_headers: headers(&[
            ("x-extra", "1"),
            ("x-extra", "2"),
            ("session_id", "old"),
            ("x-openai-subagent", "old"),
            ("x-client-request-id", "old"),
            ("x-client-request-id", "older"),
        ]),
        compression: Compression::Zstd,
        turn_state: Some(Arc::new(OnceLock::from("state".to_string()))),
    };
    let session = headers(&[("session_id", "s"), ("thread_id", "t"), ("thread_id", "u")]);
    let call = prepare_call(&request(), options, session).unwrap();
    assert_eq!(
        call.headers,
        headers(&[
            ("x-extra", "1"),
            ("x-extra", "2"),
            ("session_id", "s"),
            ("thread_id", "t"),
            ("thread_id", "u"),
            ("x-client-request-id", "t"),
            ("x-openai-subagent", "planner"),
        ])
    );
}

#[test]
fn session_headers_win_over_the_thread() {
    let options = ChatOptions { thread_id: Some("t".to_string()), ..ChatOptions::default() };
    let session = headers(&[("x-client-request-id", "s")]);
    let call = prepare_call(&request(), options, session).unwrap();
    assert_eq!(call.headers, headers(&[("x-client-request-id", "s")]));
}

#[test]
fn a_value_that_no_header_holds_is_left_out() {
    let options = ChatOptions {
        thread_id: Some("a\nb".to_string()),
        session_source: Some(SessionSource::SubAgent("\u{7f}".to_string())),
        extra_headers: headers(&[("x-client-request-id", "kept")]),
        ..ChatOptions::default()
    };
    let call = prepare_call(&request(), options, HeaderMap::new()).unwrap();
    assert_eq!(call.headers, headers(&[("x-client-request-id", "kept")]));
}

#[test]
fn a_header_is_inserted_as_bytes() {
    let mut map = headers(&[("x-id", "1"), ("x-id", "2")]);
    insert_header(&mut map, "x-id", "caf\u{e9}\t!");
    assert_eq!(map.len(), 1);
    assert_eq!(map["x-id"].as_bytes(), "caf\u{e9}\t!".as_bytes());
    insert_header(&mut map, "x-id", "");
    assert_eq!(map["x-id"].as_bytes(), b"");
    insert_header(&mut map, "x-id", "\0");
    assert_eq!(map["x-id"].as_bytes(), b"");
}

#[test]
fn only_sub_agents_are_labelled() {
    assert_eq!(subagent_header(&None), None);
    assert_eq!(subagent_header(&Some(SessionSource::Other)), None);
    assert_eq!(
        subagent_header(&Some(SessionSource::SubAgent("compact".to_string()))),
        Some("compact".to_string())
    );
}

fn many(prefix: &str, count: usize) -> HeaderMap {
    let mut map = HeaderMap::new();
    for n in 0..count {
        let name = HeaderName::from_bytes(format!("{prefix}-{n}").as_bytes()).unwrap();
        map.insert(name, HeaderValue::from_static("a"));
    }
    map
}

fn labelled(extra_headers: HeaderMap) -> ChatOptions {
    ChatOptions {
        thread_id: Some("t".to_string()),
        session_source: Some(SessionSource::SubAgent("s".to_string())),
        extra_headers,
        ..ChatOptions::default()
    }
}

#[test]
fn many_headers_fit() {
    for count in [0, 100, 6550, 6560, 12_288, 20_000] {
        let session = headers(&[("session_id", "s"), ("session_id", "r")]);
        let call = prepare_call(&request(), labelled(many("x", count)), session).unwrap();
        assert_eq!(call.headers.keys_len(), count + 3);
        assert_eq!(call.headers.get_all("session_id").iter().count(), 2);
    }
    let call = prepare_call(&request(), labelled(many("x", 9000)), many("y", 9000)).unwrap();
    assert_eq!(call.headers.keys_len(), 18_002);
}

#[test]
fn a_full_header_map_takes_in_no_more() {
    let full = 24_576;
    assert!(prepare_call(&request(), labelled(many("x", full)), HeaderMap::new()).is_none());
    let session = || headers(&[("session_id", "s")]);
    let unlabelled = |count| ChatOptions {
        extra_headers: many("x", count),
        ..ChatOptions::default()
    };
    assert!(prepare_call(&request(), unlabelled(full), HeaderMap::new()).is_some());
    assert!(prepare_call(&request(), unlabelled(full), session()).is_none());
    assert!(prepare_call(&request(), unlabelled(full - 1), session()).is_some());
    assert!(prepare_call(&request(), labelled(many("x", full - 2)), session()).is_none());
    assert!(prepare_call(&request(), labelled(many("x", full - 3)), session()).is_some());
}

#[test]
fn an_insertion_says_whether_it_was_made() {
    let mut map = many("x", 24_575);
    assert!(insert_header(&mut map, "x-last", "1"));
    assert!(!insert_header(&mut map, "x-more", "2"));
    assert!(insert_header(&mut map, "x-more", "\n"));
    assert_eq!(map.keys_len(), 24_576);
    assert_eq!(map["x-last"].as_bytes(), b"1");
}

#[test]
fn a_map_takes_in_another() {
    let mut map = headers(&[("a", "1"), ("a", "2"), ("b", "3")]);
    let more = headers(&[("c", "4"), ("a", "5"), ("c", "6"), ("c", "7")]);
    assert!(extend_headers(&mut map, more));
    assert_eq!(map, headers(&[("a", "5"), ("b", "3"), ("c", "4"), ("c", "6"), ("c", "7")]));
    let mut extended = headers(&[("a", "1"), ("a", "2"), ("b", "3")]);
    extended.extend(headers(&[("c", "4"), ("a", "5"), ("c", "6"), ("c", "7")]));
    assert_eq!(map, extended);
    assert!(extend_headers(&mut map, HeaderMap::new()));
    assert_eq!(map, extended);
}

#[test]
fn the_request_is_known_by_its_header() {
    assert_eq!(upstream_request_id(&HeaderMap::new()), None);
    assert_eq!(
        upstream_request_id(&headers(&[("x-request-id", "req 1\t"), ("x-request-id", "req 2")])),
        Some("req 1\t".to_string())
    );
    assert_eq!(upstream_request_id(&headers(&[("x-request-ids", "req 1")])), None);
    assert_eq!(upstream_request_id(&headers(&[("x-request-id", "caf\u{e9}")])), None);
    assert_eq!(upstream_request_id(&headers(&[("x-request-id", "")])), Some(String::new()));
}

#[test]
fn a_header_is_read_back() {
    let mut map = HeaderMap::new();
    insert_header(&mut map, "x-request-id", " ~ visible\tvalue ~ ");
    assert_eq!(upstream_request_id(&map), Some(" ~ visible\tvalue ~ ".to_string()));
}

#[test]
fn an_encoding_failure_is_named() {
    assert_eq!(
        encode_failure("too deep"),
        ApiError::Stream("failed to encode chat request: too deep".to_string())
    );
}
