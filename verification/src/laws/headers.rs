//! Which headers a call has in the end.
use crate::call::{
    asks_for, call_headers, encode_error, headers_fit, subagent_of, ChatOptions, PreparedCall,
    SessionSource,
};
use crate::convert::chat_request;
use crate::error::ApiErrorView;
use crate::headers::{
    ascii_text, header_entries, header_text, is_header_value, is_visible, request_id_in,
    with_header,
};
use crate::protocol::ResponsesApiRequestView;
use http::HeaderMap;
use vstd::prelude::*;
use vstd::set_lib::lemma_len_union;
use vstd::utf8::{encode_utf8, is_ascii_chars, is_ascii_chars_encode_utf8};

verus! {

/// What the caller adds under a name that the call does not set itself is
/// sent as it is.
pub proof fn law_extra_headers_are_kept(
    extra: Map<Seq<char>, Seq<Seq<u8>>>,
    thread_id: Option<Seq<char>>,
    session: Map<Seq<char>, Seq<Seq<u8>>>,
    subagent: Option<Seq<char>>,
    name: Seq<char>,
)
    requires
        name != "x-client-request-id"@,
        name != "x-openai-subagent"@,
        !session.contains_key(name),
    ensures
        call_headers(extra, thread_id, session, subagent).contains_key(name)
            == extra.contains_key(name),
        extra.contains_key(name) ==> call_headers(extra, thread_id, session, subagent)[name]
            == extra[name],
{
}

/// The headers that name the session win over those that the caller adds and
/// over the one that names the thread.
pub proof fn law_session_headers_win(
    extra: Map<Seq<char>, Seq<Seq<u8>>>,
    thread_id: Option<Seq<char>>,
    session: Map<Seq<char>, Seq<Seq<u8>>>,
    subagent: Option<Seq<char>>,
    name: Seq<char>,
)
    requires
        session.contains_key(name),
        name != "x-openai-subagent"@,
    ensures
        call_headers(extra, thread_id, session, subagent).contains_key(name),
        call_headers(extra, thread_id, session, subagent)[name] == session[name],
{
}

/// The label of the sub-agent wins over everything else, where a header can
/// hold it.
pub proof fn law_the_subagent_is_named(
    extra: Map<Seq<char>, Seq<Seq<u8>>>,
    thread_id: Option<Seq<char>>,
    session: Map<Seq<char>, Seq<Seq<u8>>>,
    label: Seq<char>,
)
    requires
        is_header_value(encode_utf8(label)),
    ensures
        call_headers(extra, thread_id, session, Some(label)).contains_key("x-openai-subagent"@),
        call_headers(extra, thread_id, session, Some(label))["x-openai-subagent"@] == seq![
            encode_utf8(label),
        ],
{
}

/// The thread is sent as the client's name for the request, where a header
/// can hold it and the session does not name the request itself.
pub proof fn law_the_thread_names_the_request(
    extra: Map<Seq<char>, Seq<Seq<u8>>>,
    thread_id: Seq<char>,
    session: Map<Seq<char>, Seq<Seq<u8>>>,
    subagent: Option<Seq<char>>,
)
    requires
        is_header_value(encode_utf8(thread_id)),
        !session.contains_key("x-client-request-id"@),
    ensures
        call_headers(extra, Some(thread_id), session, subagent).contains_key(
            "x-client-request-id"@,
        ),
        call_headers(extra, Some(thread_id), session, subagent)["x-client-request-id"@] == seq![
            encode_utf8(thread_id),
        ],
{
    reveal_strlit("x-client-request-id");
    reveal_strlit("x-openai-subagent");
    assert("x-client-request-id"@.len() != "x-openai-subagent"@.len());
}

/// Text that is put under a name and is all visible ASCII, spaces and tabs is
/// read back as it was.
pub proof fn law_a_header_is_read_back(
    entries: Map<Seq<char>, Seq<Seq<u8>>>,
    name: Seq<char>,
    value: Seq<char>,
)
    requires
        forall|i: int|
            0 <= i < value.len() ==> ' ' <= #[trigger] value[i] <= '~' || value[i] == '\t',
    ensures
        header_text(with_header(entries, name, value), name) == Some(value),
{
    let bytes = encode_utf8(value);
    assert(is_ascii_chars(value));
    is_ascii_chars_encode_utf8(value);
    assert forall|i: int| 0 <= i < bytes.len() implies (32 <= #[trigger] bytes[i] < 127
        || bytes[i] == 9) && bytes[i] as char == value[i] by {
        assert(value[i] as u8 == bytes[i]);
    }
    assert(is_header_value(bytes) && is_visible(bytes));
    assert(ascii_text(bytes) =~= value);
}

/// Whether a header value can hold these bytes: no control character but the
/// tab.
pub open spec fn storable(bytes: Seq<u8>) -> bool {
    forall|i: int|
        0 <= i < bytes.len() ==> (#[trigger] bytes[i] >= 32 || bytes[i] == 9) && bytes[i] != 127
}

/// What a call has under each name in the end: the label of the sub-agent,
/// the headers of the session, the thread and what the caller adds, in this
/// order of precedence. A label or a thread that a header cannot hold counts
/// for nothing.
pub proof fn law_each_header_has_one_origin(
    extra: Map<Seq<char>, Seq<Seq<u8>>>,
    thread_id: Option<Seq<char>>,
    session: Map<Seq<char>, Seq<Seq<u8>>>,
    subagent: Option<Seq<char>>,
    name: Seq<char>,
)
    ensures
        ({
            let all = call_headers(extra, thread_id, session, subagent);
            if name == "x-openai-subagent"@ && subagent is Some && storable(
                encode_utf8(subagent->0),
            ) {
                all.contains_key(name) && all[name] == seq![encode_utf8(subagent->0)]
            } else if session.contains_key(name) {
                all.contains_key(name) && all[name] == session[name]
            } else if name == "x-client-request-id"@ && thread_id is Some && storable(
                encode_utf8(thread_id->0),
            ) {
                all.contains_key(name) && all[name] == seq![encode_utf8(thread_id->0)]
            } else if extra.contains_key(name) {
                all.contains_key(name) && all[name] == extra[name]
            } else {
                !all.contains_key(name)
            }
        }),
{
    reveal_strlit("x-client-request-id");
    reveal_strlit("x-openai-subagent");
    assert("x-client-request-id"@.len() != "x-openai-subagent"@.len());
    if let Some(label) = subagent {
        lemma_storable(encode_utf8(label));
    }
    if let Some(id) = thread_id {
        lemma_storable(encode_utf8(id));
    }
}

proof fn lemma_storable(bytes: Seq<u8>)
    ensures
        storable(bytes) == is_header_value(bytes),
{
    if storable(bytes) {
        assert forall|i: int| 0 <= i < bytes.len() implies (#[trigger] bytes[i] >= 32 && bytes[i]
            != 127) || bytes[i] == 9 by {}
    }
    if is_header_value(bytes) {
        assert forall|i: int| 0 <= i < bytes.len() implies (#[trigger] bytes[i] >= 32 || bytes[i]
            == 9) && bytes[i] != 127 by {}
    }
}

/// The first value under a name is read as it is, byte for character, where
/// all of it is visible ASCII, spaces and tabs; otherwise, and where there is
/// none, nothing is read.
pub proof fn law_a_visible_header_is_read_as_it_is(
    entries: Map<Seq<char>, Seq<Seq<u8>>>,
    name: Seq<char>,
)
    ensures
        ({
            let bytes = entries[name][0];
            let visible = forall|i: int|
                0 <= i < bytes.len() ==> (32 <= #[trigger] bytes[i] < 127 || bytes[i] == 9);
            let text = header_text(entries, name);
            &&& text is Some <==> entries.contains_key(name) && visible
            &&& text is Some ==> text->0.len() == bytes.len() && forall|i: int|
                0 <= i < bytes.len() ==> #[trigger] text->0[i] as int == bytes[i] as int
        }),
{
    let bytes = entries[name][0];
    if entries.contains_key(name) && is_visible(bytes) {
        assert forall|i: int| 0 <= i < bytes.len() implies #[trigger] ascii_text(bytes)[i] as int
            == bytes[i] as int by {
            assert(32 <= bytes[i] < 127 || bytes[i] == 9);
        }
    }
}

/// Only a sub-agent has a label, and it is the one it was given.
pub proof fn law_sub_agents_are_labelled(source: Option<SessionSource>)
    ensures
        match source {
            Some(SessionSource::SubAgent(label)) => subagent_of(source) == Some(label@),
            _ => subagent_of(source) is None,
        },
{
}

/// Up to several thousand names, the headers of a call are sure to fit.
pub proof fn law_ordinary_headers_fit(options: ChatOptions, session_headers: HeaderMap)
    requires
        header_entries(options.extra_headers).dom().finite(),
        header_entries(session_headers).dom().finite(),
        header_entries(options.extra_headers).dom().len() + header_entries(
            session_headers,
        ).dom().len() < 6553,
    ensures
        headers_fit(options, session_headers),
{
    let extra = header_entries(options.extra_headers).dom();
    let session = header_entries(session_headers).dom();
    lemma_len_union(extra, session);
}

/// A call is posted to the chat endpoint, and its body and its headers are
/// those that are wanted.
pub proof fn law_a_call_is_posted(
    call: PreparedCall,
    request: ResponsesApiRequestView,
    headers: Map<Seq<char>, Seq<Seq<u8>>>,
)
    requires
        asks_for(call, request, headers),
    ensures
        call.method@ == "POST"@,
        call.path@ == "chat/completions"@,
        header_entries(call.headers) == headers,
        call.body.deep_view().messages == chat_request(request).messages,
        call.body.deep_view().tools == chat_request(request).tools,
        call.body.deep_view() == chat_request(request),
{
}

/// Why a body could not be encoded is told word for word, behind what failed.
pub proof fn law_an_encoding_failure_is_told(detail: Seq<char>)
    ensures
        encode_error(detail) == ApiErrorView::Stream("failed to encode chat request: "@ + detail),
{
}

/// The request is known by the header that names it, and by no other: two
/// answers with the same values under it name the same request.
pub proof fn law_the_request_is_known_by_one_header(
    entries: Map<Seq<char>, Seq<Seq<u8>>>,
    other: Map<Seq<char>, Seq<Seq<u8>>>,
)
    requires
        entries.contains_key("x-request-id"@) == other.contains_key("x-request-id"@),
        entries.contains_key("x-request-id"@) ==> entries["x-request-id"@]
            == other["x-request-id"@],
    ensures
        request_id_in(entries) == request_id_in(other),
        !entries.contains_key("x-request-id"@) ==> request_id_in(entries) is None,
        request_id_in(entries) == header_text(entries, "x-request-id"@),
{
}

} // verus!
