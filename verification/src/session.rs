//! One streamed turn, from its first poll to its last: what to send on for
//! each thing that the stream brings, and when to stop.
use crate::chunk::{
    ChatApiError, ChatApiErrorDetailView, ChatApiErrorView, ChatChoiceView, ChatStreamChunk,
    ChatStreamChunkView, ChatUsage,
};
use crate::converter::{
    lemma_calls_keep_counter, lemma_choices_advance_counter, ChatStreamConverter, ConverterView,
};
use crate::error::{ApiError, ApiErrorView, TransportError, TransportErrorView, UNAUTHORIZED};
use crate::protocol::{ResponseEvent, ResponseEventView};
use crate::text::{holds_token, is_token, same_text};
use vstd::prelude::*;

verus! {

/// What one poll of the event stream brought.
#[derive(Debug)]
pub enum SsePoll {
    /// An event with its data: the error object and the chunk that the data
    /// parses as, where it parses as one.
    Event { data: String, error: Option<ChatApiError>, chunk: Option<ChatStreamChunk> },
    /// The stream failed, with this message.
    Failed(String),
    /// The stream ended.
    Closed,
    /// Nothing came for too long.
    TimedOut,
}

/// An [`SsePoll`] as a mathematical value.
#[verifier::ext_equal]
pub enum SsePollView {
    Event {
        data: Seq<char>,
        error: Option<ChatApiErrorView>,
        chunk: Option<ChatStreamChunkView>,
    },
    Failed(Seq<char>),
    Closed,
    TimedOut,
}

/// What a step of a session asks for: send these on, then go on polling or
/// stop.
#[derive(Debug)]
pub struct SessionStep {
    pub sends: Vec<Result<ResponseEvent, ApiError>>,
    pub done: bool,
}

/// What is sent on, as a mathematical value.
pub type SendView = Result<ResponseEventView, ApiErrorView>;

/// A [`SessionStep`] as a mathematical value.
#[verifier::ext_equal]
pub struct SessionStepView {
    pub sends: Seq<SendView>,
    pub done: bool,
}

/// A [`ChatSession`] as a mathematical value.
#[verifier::ext_equal]
pub struct SessionView {
    pub converter: Option<ConverterView>,
    pub response_error: Option<ApiErrorView>,
}

/// One item that is sent on, as a mathematical value.
pub open spec fn send_view(send: Result<ResponseEvent, ApiError>) -> SendView {
    match send {
        Ok(event) => Ok(event.deep_view()),
        Err(error) => Err(error.deep_view()),
    }
}

impl DeepView for SsePoll {
    type V = SsePollView;

    open spec fn deep_view(&self) -> SsePollView {
        match *self {
            SsePoll::Event { data, error, chunk } => SsePollView::Event {
                data: data@,
                error: error.deep_view(),
                chunk: chunk.deep_view(),
            },
            SsePoll::Failed(message) => SsePollView::Failed(message@),
            SsePoll::Closed => SsePollView::Closed,
            SsePoll::TimedOut => SsePollView::TimedOut,
        }
    }
}

impl DeepView for SessionStep {
    type V = SessionStepView;

    open spec fn deep_view(&self) -> SessionStepView {
        SessionStepView {
            sends: self.sends@.map_values(|send: Result<ResponseEvent, ApiError>| send_view(send)),
            done: self.done,
        }
    }
}

/// The error that the server reports, by its code. One whose code is missing
/// or not known is a failure of the stream, with the server's message.
pub open spec fn reported_error(detail: ChatApiErrorDetailView) -> ApiErrorView {
    let message = match detail.message {
        Some(message) => message,
        None => Seq::empty(),
    };
    match detail.code {
        Some(code) => if code == "context_length_exceeded"@ {
            ApiErrorView::ContextWindowExceeded
        } else if code == "insufficient_quota"@ {
            ApiErrorView::QuotaExceeded
        } else if code == "invalid_api_key"@ || code == "invalid_authentication"@ {
            ApiErrorView::Transport(
                TransportErrorView::Http {
                    status: UNAUTHORIZED,
                    url: None,
                    headers: None,
                    body: detail.message,
                },
            )
        } else if code == "rate_limit_exceeded"@ {
            ApiErrorView::Retryable { message, delay: None }
        } else if code == "server_error"@ || code == "internal_error"@ {
            ApiErrorView::ServerOverloaded
        } else {
            ApiErrorView::Stream(message)
        },
        None => ApiErrorView::Stream(message),
    }
}

/// The error that an object reports, where it reports one.
pub open spec fn chat_error(parsed: Option<ChatApiErrorView>) -> Option<ApiErrorView> {
    match parsed {
        Some(ChatApiErrorView { error: Some(detail) }) => Some(reported_error(detail)),
        _ => None,
    }
}

/// The error that an object reports, by its code, where it reports one.
/// `parsed` is what the data of an event parses as, where it parses as such
/// an object.
pub fn try_parse_chat_error(parsed: Option<ChatApiError>) -> (error: Option<ApiError>)
    ensures
        error.deep_view() == chat_error(parsed.deep_view()),
{
    let detail = match parsed {
        Some(object) => match object.error {
            Some(detail) => detail,
            None => return None,
        },
        None => return None,
    };
    let code = match detail.code {
        Some(code) => code,
        None => return Some(ApiError::Stream(text_or_empty(detail.message))),
    };
    if same_text(&code, "context_length_exceeded") {
        Some(ApiError::ContextWindowExceeded)
    } else if same_text(&code, "insufficient_quota") {
        Some(ApiError::QuotaExceeded)
    } else if same_text(&code, "invalid_api_key") || same_text(&code, "invalid_authentication") {
        Some(
            ApiError::Transport(
                TransportError::Http {
                    status: UNAUTHORIZED,
                    url: None,
                    headers: None,
                    body: detail.message,
                },
            ),
        )
    } else if same_text(&code, "rate_limit_exceeded") {
        Some(ApiError::Retryable { message: text_or_empty(detail.message), delay: None })
    } else if same_text(&code, "server_error") || same_text(&code, "internal_error") {
        Some(ApiError::ServerOverloaded)
    } else {
        Some(ApiError::Stream(text_or_empty(detail.message)))
    }
}

/// The text, and an empty one where there is none.
fn text_or_empty(text: Option<String>) -> (owned: String)
    ensures
        owned@ == match text.deep_view() {
            Some(text) => text,
            None => Seq::empty(),
        },
{
    match text {
        Some(text) => text,
        None => String::new(),
    }
}

/// The events up to the first report of completion, which is among them.
pub open spec fn until_completed(events: Seq<ResponseEventView>) -> Seq<ResponseEventView>
    decreases events.len(),
{
    if events.len() == 0 {
        Seq::empty()
    } else if events.first() is Completed {
        seq![events.first()]
    } else {
        seq![events.first()] + until_completed(events.drop_first())
    }
}

/// Whether one of the events reports completion.
pub open spec fn has_completed(events: Seq<ResponseEventView>) -> bool {
    exists|i: int| 0 <= i < events.len() && events[i] is Completed
}

/// Events, each to be sent on as it is.
pub open spec fn as_sends(events: Seq<ResponseEventView>) -> Seq<SendView> {
    events.map_values(|event: ResponseEventView| SendView::Ok(event))
}

/// A failure of the stream, to be sent on.
pub open spec fn stream_failure(message: Seq<char>) -> SendView {
    Err(ApiErrorView::Stream(message))
}

impl SsePollView {
    /// Whether the poll brought data that is to be read as a chunk: it is
    /// neither the end signal nor does it report an error.
    pub open spec fn reads_chunk(self) -> bool {
        match self {
            SsePollView::Event { data, error, .. } => !is_token(data, "[DONE]"@) && chat_error(
                error,
            ) is None,
            _ => false,
        }
    }

    /// The chunk that the poll hands to the converter.
    pub open spec fn chunk_in(self) -> Option<ChatStreamChunkView> {
        match self {
            SsePollView::Event { chunk, .. } => if self.reads_chunk() {
                chunk
            } else {
                None
            },
            _ => None,
        }
    }

    /// Whether the chunk that the poll hands to the converter, if any, stays
    /// within what lengths and item numbers can count.
    pub open spec fn countable(self) -> bool {
        match self.chunk_in() {
            Some(chunk) => 2 * chunk.choices.len() <= u64::MAX && chunk.indexable(),
            None => true,
        }
    }
}

impl SessionView {
    /// A session before its first poll.
    pub open spec fn start() -> SessionView {
        SessionView { converter: None, response_error: None }
    }

    /// Whether the session can still go on: no item has been numbered, as
    /// items are handed out only with the report of completion.
    pub open spec fn is_open(self) -> bool {
        match self.converter {
            Some(converter) => converter.item_id_counter == 0,
            None => true,
        }
    }

    /// The session stops, with these sends.
    pub open spec fn stop(self, sends: Seq<SendView>) -> (SessionView, SessionStepView) {
        (self, SessionStepView { sends, done: true })
    }

    /// The converter that takes in `chunk`: the one at work, or a new one
    /// that bears the names that the chunk gives.
    pub open spec fn converter_for(self, chunk: ChatStreamChunkView) -> ConverterView {
        match self.converter {
            Some(converter) => converter,
            None => ConverterView::fresh(
                match chunk.id {
                    Some(id) => id,
                    None => "chat_resp"@,
                },
                match chunk.model {
                    Some(model) => model,
                    None => Seq::empty(),
                },
            ),
        }
    }

    /// A chunk: the first one is preceded by a report that the turn was
    /// created, and nothing follows the report of completion.
    pub open spec fn after_chunk(self, chunk: ChatStreamChunkView) -> (
        SessionView,
        SessionStepView,
    ) {
        let created: Seq<SendView> = if self.converter is None {
            seq![Ok(ResponseEventView::Created)]
        } else {
            Seq::empty()
        };
        let (converter, events) = self.converter_for(chunk).after_chunk(chunk);
        (
            SessionView { converter: Some(converter), ..self },
            SessionStepView {
                sends: created + as_sends(until_completed(events)),
                done: has_completed(events),
            },
        )
    }

    /// An event: the end signal, which comes too early; an error, which is
    /// kept; a chunk; or data that is none of these and is passed over.
    pub open spec fn after_event(
        self,
        data: Seq<char>,
        error: Option<ChatApiErrorView>,
        chunk: Option<ChatStreamChunkView>,
    ) -> (SessionView, SessionStepView) {
        if is_token(data, "[DONE]"@) {
            self.stop(seq![stream_failure("stream ended without completion"@)])
        } else if chat_error(error) is Some {
            (
                SessionView { response_error: chat_error(error), ..self },
                SessionStepView { sends: Seq::empty(), done: false },
            )
        } else {
            match chunk {
                Some(chunk) => self.after_chunk(chunk),
                None => (self, SessionStepView { sends: Seq::empty(), done: false }),
            }
        }
    }

    /// What a poll brought: the session that it leaves, and the step that it
    /// asks for.
    pub open spec fn after_poll(self, poll: SsePollView) -> (SessionView, SessionStepView) {
        match poll {
            SsePollView::Event { data, error, chunk } => self.after_event(data, error, chunk),
            SsePollView::Failed(message) => self.stop(seq![stream_failure(message)]),
            SsePollView::Closed => SessionView { response_error: None, ..self }.stop(
                seq![
                    match self.response_error {
                        Some(error) => SendView::Err(error),
                        None => stream_failure("stream closed before completion"@),
                    },
                ],
            ),
            SsePollView::TimedOut => self.stop(
                seq![stream_failure("idle timeout waiting for SSE"@)],
            ),
        }
    }
}

/// One streamed turn: the converter, once the first chunk has come, and the
/// last error that the server reported.
#[derive(Debug)]
pub struct ChatSession {
    converter: Option<ChatStreamConverter>,
    response_error: Option<ApiError>,
}

impl DeepView for ChatSession {
    type V = SessionView;

    closed spec fn deep_view(&self) -> SessionView {
        SessionView {
            converter: self.converter.deep_view(),
            response_error: self.response_error.deep_view(),
        }
    }
}

/// Whether the data of an event is the signal that the stream ends.
fn is_end_signal(data: &String) -> (found: bool)
    ensures
        found == is_token(data@, "[DONE]"@),
{
    proof {
        reveal_strlit("[DONE]");
    }
    holds_token(data.as_str(), "[DONE]")
}

impl SsePoll {
    /// Whether the poll brought data that is to be read as a chunk: it is
    /// neither the end signal nor does it report an error.
    pub fn reads_chunk(&self) -> (reads: bool)
        ensures
            reads == self.deep_view().reads_chunk(),
    {
        match self {
            SsePoll::Event { data, error, .. } => {
                let reported = match error {
                    Some(object) => object.error.is_some(),
                    None => false,
                };
                !reported && !is_end_signal(data)
            },
            _ => false,
        }
    }

    /// Whether the chunk that the poll hands to the converter, if any, stays
    /// within what lengths and item numbers can count.
    pub fn is_countable(&self) -> (countable: bool)
        ensures
            countable == self.deep_view().countable(),
    {
        if !self.reads_chunk() {
            return true;
        }
        if let SsePoll::Event { chunk: Some(chunk), .. } = self {
            let ghost view = chunk.deep_view();
            if chunk.choices.len() as u64 > u64::MAX / 2 {
                return false;
            }
            let mut i: usize = 0;
            while i < chunk.choices.len()
                invariant
                    i <= chunk.choices.len(),
                    view == chunk.deep_view(),
                    forall|k: int, j: int|
                        #![trigger view.choices[k].delta.calls()[j]]
                        0 <= k < i && 0 <= j < view.choices[k].delta.calls().len()
                            ==> view.choices[k].delta.calls()[j].index < usize::MAX,
                    self.deep_view().chunk_in() == Some(view),
                decreases chunk.choices.len() - i,
            {
                assert(view.choices[i as int] == chunk.choices[i as int].deep_view());
                if let Some(calls) = &chunk.choices[i].delta.tool_calls {
                    let mut j: usize = 0;
                    while j < calls.len()
                        invariant
                            i < view.choices.len(),
                            j <= calls.len(),
                            view.choices[i as int].delta.calls() == calls.deep_view(),
                            forall|k: int|
                                0 <= k < j ==> (#[trigger] view.choices[i as int].delta.calls()[k])
                                    .index < usize::MAX,
                            self.deep_view().chunk_in() == Some(view),
                        decreases calls.len() - j,
                    {
                        assert(view.choices[i as int].delta.calls()[j as int]
                            == calls[j as int].deep_view());
                        if calls[j].index == usize::MAX {
                            return false;
                        }
                        j += 1;
                    }
                }
                i += 1;
            }
        }
        true
    }
}

/// Whether a session stops once `send` was sent on, or was lost.
pub open spec fn stops(send: SendView, delivered: bool) -> bool {
    match send {
        Err(_) => true,
        Ok(ResponseEventView::Completed { .. }) => true,
        Ok(ResponseEventView::Created) => false,
        Ok(_) => !delivered,
    }
}

/// Whether the session stops once `send` was sent on, or once sending it
/// failed: an error and the report of completion end it; the report of
/// creation never does; anything else ends it where nobody receives it.
pub fn stops_after(send: &Result<ResponseEvent, ApiError>, delivered: bool) -> (stops: bool)
    ensures
        stops == match send_view(*send) {
            Err(_) => true,
            Ok(ResponseEventView::Completed { .. }) => true,
            Ok(ResponseEventView::Created) => false,
            Ok(_) => !delivered,
        },
        stops == self::stops(send_view(*send), delivered),
{
    match send {
        Err(_) => true,
        Ok(event) => match event {
            ResponseEvent::Completed { .. } => true,
            ResponseEvent::Created => false,
            _ => !delivered,
        },
    }
}

/// A step that sends on one failure of the stream and stops.
fn failed_step(message: String) -> (step: SessionStep)
    ensures
        step.deep_view() == (SessionStepView {
            sends: seq![stream_failure(message@)],
            done: true,
        }),
{
    let step = SessionStep { sends: vec![Err(ApiError::Stream(message))], done: true };
    assert(step.deep_view().sends =~= seq![stream_failure(message@)]);
    step
}

/// A step that sends nothing on and does not stop.
fn silent_step() -> (step: SessionStep)
    ensures
        step.deep_view() == (SessionStepView { sends: Seq::empty(), done: false }),
{
    let step = SessionStep { sends: Vec::new(), done: false };
    assert(step.deep_view().sends =~= Seq::empty());
    step
}

impl ChatSession {
    /// A session before its first poll.
    pub fn new() -> (session: ChatSession)
        ensures
            session.deep_view() == SessionView::start(),
    {
        ChatSession { converter: None, response_error: None }
    }

    /// Takes in a chunk.
    fn take_chunk(&mut self, chunk: ChatStreamChunk) -> (step: SessionStep)
        requires
            old(self).deep_view().is_open(),
            2 * chunk.deep_view().choices.len() <= u64::MAX,
            chunk.deep_view().indexable(),
        ensures
            (final(self).deep_view(), step.deep_view()) == old(self).deep_view().after_chunk(
                chunk.deep_view(),
            ),
    {
        let ghost before = self.deep_view();
        let ghost view = chunk.deep_view();
        let mut sends: Vec<Result<ResponseEvent, ApiError>> = Vec::new();
        let mut converter = match self.converter.take() {
            Some(converter) => converter,
            None => {
                let response_id = match &chunk.id {
                    Some(id) => id.clone(),
                    None => "chat_resp".to_string(),
                };
                let model = match &chunk.model {
                    Some(model) => model.clone(),
                    None => String::new(),
                };
                sends.push(Ok(ResponseEvent::Created));
                ChatStreamConverter::new(response_id, model)
            },
        };
        assert(converter.deep_view() == before.converter_for(view));
        proof {
            lemma_choices_advance_counter(converter.deep_view(), view.choices, view.usage);
        }
        let events = converter.process(chunk);
        self.converter = Some(converter);
        let ghost all = events.deep_view();
        let ghost created = sends@.map_values(
            |send: Result<ResponseEvent, ApiError>| send_view(send),
        );
        assert(before.converter is None ==> created =~= seq![
            SendView::Ok(ResponseEventView::Created),
        ]);
        assert(before.converter is Some ==> created =~= Seq::empty());
        let mut done = false;
        assert(all.take(0) =~= Seq::empty());
        assert(as_sends(Seq::<ResponseEventView>::empty()) =~= Seq::empty());
        for event in it: events
            invariant
                it.seq() == events@,
                all == events.deep_view(),
                done == has_completed(all.take(it.index() as int)),
                sends@.map_values(|send: Result<ResponseEvent, ApiError>| send_view(send))
                    == created + as_sends(until_completed(all.take(it.index() as int))),
        {
            let ghost seen = all.take(it.index() as int);
            let ghost sent = sends@.map_values(
                |send: Result<ResponseEvent, ApiError>| send_view(send),
            );
            assert(event.deep_view() == all[it.index() as int]);
            assert(all.take(it.index() + 1) =~= seen.push(event.deep_view()));
            proof {
                lemma_until_completed_push(seen, event.deep_view());
            }
            if !done {
                done = match &event {
                    ResponseEvent::Completed { .. } => true,
                    _ => false,
                };
                sends.push(Ok(event));
                assert(sends@.map_values(|send: Result<ResponseEvent, ApiError>| send_view(send))
                    =~= sent.push(Ok(event.deep_view())));
                assert(as_sends(seen.push(event.deep_view())) =~= as_sends(seen).push(
                    Ok(event.deep_view()),
                ));
            }
        }
        assert(all.take(all.len() as int) =~= all);
        SessionStep { sends, done }
    }

    /// Takes in what a poll brought, and says what to send on and whether to
    /// stop. Not to be called once a step has said to stop.
    pub fn advance(&mut self, poll: SsePoll) -> (step: SessionStep)
        requires
            old(self).deep_view().is_open(),
            poll.deep_view().countable(),
        ensures
            (final(self).deep_view(), step.deep_view()) == old(self).deep_view().after_poll(
                poll.deep_view(),
            ),
            !step.done ==> final(self).deep_view().is_open(),
    {
        proof {
            lemma_open_until_done(self.deep_view(), poll.deep_view());
        }
        match poll {
            SsePoll::Event { data, error, chunk } => {
                if is_end_signal(&data) {
                    return failed_step("stream ended without completion".to_string());
                }
                let error = try_parse_chat_error(error);
                if error.is_some() {
                    self.response_error = error;
                    return silent_step();
                }
                match chunk {
                    Some(chunk) => self.take_chunk(chunk),
                    None => silent_step(),
                }
            },
            SsePoll::Failed(message) => failed_step(message),
            SsePoll::Closed => match self.response_error.take() {
                Some(error) => {
                    let step = SessionStep { sends: vec![Err(error)], done: true };
                    assert(step.deep_view().sends =~= seq![SendView::Err(error.deep_view())]);
                    step
                },
                None => failed_step("stream closed before completion".to_string()),
            },
            SsePoll::TimedOut => failed_step("idle timeout waiting for SSE".to_string()),
        }
    }
}

/// Behind a report of completion nothing is added; before one, everything
/// is.
pub proof fn lemma_until_completed_push(events: Seq<ResponseEventView>, event: ResponseEventView)
    ensures
        has_completed(events.push(event)) <==> has_completed(events) || event is Completed,
        has_completed(events) ==> until_completed(events.push(event)) == until_completed(events),
        !has_completed(events) ==> until_completed(events) == events,
        !has_completed(events) ==> until_completed(events.push(event)) == events.push(event),
    decreases events.len(),
{
    let longer = events.push(event);
    assert(longer.last() == event);
    assert(forall|i: int| 0 <= i < events.len() ==> events[i] == longer[i]);
    if events.len() == 0 {
        assert(longer.drop_first() =~= Seq::empty());
        assert(until_completed(longer.drop_first()) =~= Seq::empty());
        assert(until_completed(longer) =~= longer);
    } else {
        let rest = events.drop_first();
        assert(longer.drop_first() =~= rest.push(event));
        assert(longer.first() == events.first());
        lemma_until_completed_push(rest, event);
        if !(events.first() is Completed) {
            assert(has_completed(events) ==> has_completed(rest)) by {
                if has_completed(events) {
                    let i = choose|i: int| 0 <= i < events.len() && events[i] is Completed;
                    assert(rest[i - 1] is Completed);
                }
            }
            assert(has_completed(rest) ==> has_completed(events)) by {
                if has_completed(rest) {
                    let i = choose|i: int| 0 <= i < rest.len() && rest[i] is Completed;
                    assert(events[i + 1] is Completed);
                }
            }
            assert(!has_completed(events) ==> until_completed(events) =~= events);
            assert(!has_completed(events) ==> until_completed(longer) =~= longer);
        }
    }
}

/// Items are numbered only together with a report of completion.
proof fn lemma_choices_number_on_completion(
    state: ConverterView,
    choices: Seq<ChatChoiceView>,
    usage: Option<ChatUsage>,
)
    ensures
        !has_completed(state.after_choices(choices, usage).1)
            ==> state.after_choices(choices, usage).0.item_id_counter == state.item_id_counter,
    decreases choices.len(),
{
    if choices.len() > 0 {
        let (before, events) = state.after_choices(choices.drop_last(), usage);
        let choice = choices.last();
        let (reasoned, reasoning) = before.after_reasoning(choice.delta.reasoning());
        let (called, calls) = reasoned.after_calls(choice.delta.calls());
        let (spoken, text) = called.after_text(choice.delta.text());
        let (finished, end) = spoken.after_finish(choice.finish_reason, usage);
        let all = events + (reasoning + calls + text + end);
        lemma_choices_number_on_completion(state, choices.drop_last(), usage);
        lemma_calls_keep_counter(reasoned, choice.delta.calls());
        if has_completed(events) {
            let i = choose|i: int| 0 <= i < events.len() && events[i] is Completed;
            assert(all[i] is Completed);
        }
        if finished.item_id_counter != spoken.item_id_counter {
            assert(end.last() is Completed);
            assert(all.last() == end.last());
        }
    }
}

/// A step that does not stop leaves the session open.
pub proof fn lemma_open_until_done(session: SessionView, poll: SsePollView)
    requires
        session.is_open(),
    ensures
        !session.after_poll(poll).1.done ==> session.after_poll(poll).0.is_open(),
{
    if let SsePollView::Event { chunk: Some(chunk), .. } = poll {
        lemma_choices_number_on_completion(
            session.converter_for(chunk),
            chunk.choices,
            chunk.usage,
        );
    }
}

} // verus!
