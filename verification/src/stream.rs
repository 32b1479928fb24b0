//! Folding the event stream of a streamed agent run into its outcome.
//!
//! The transport delivers events one by one; the caller hands each to
//! [`RunStream::on_event`], performs the returned [`StreamAction`] (showing
//! text or a progress note), and finally asks [`RunStream::finish`] for the
//! result of the run.
use vstd::prelude::*;

use crate::text::{all_ws, concat, concat3, is_blank, opt_view, owned, str_eq};

verus! {

/// One event of a streamed run, with the fields the console reads from it.
pub enum StreamEvent {
    /// A piece of generated text.
    TokenDelta { delta: Option<String> },
    /// A tool call started.
    ToolStart { tool: Option<String>, tool_id: Option<String> },
    /// A tool call ended.
    ToolEnd { tool_id: Option<String>, status: Option<String> },
    /// The complete message of the run.
    Message { content: Option<String> },
    /// An error reported by the runtime.
    Error { msg: Option<String> },
    /// The end of the run, with the ticks it used.
    RunEnd { use_ticks: Option<i64> },
    /// Any other event; it is ignored.
    Other,
}

/// What the caller does after an event.
pub enum StreamAction {
    /// Nothing to show.
    Nothing,
    /// Show generated text.
    Text(String),
    /// Show a progress note.
    Note(String),
}

/// Model of a [`StreamAction`].
pub enum Emit {
    Nothing,
    Text(Seq<char>),
    Note(Seq<char>),
}

impl StreamAction {
    pub open spec fn emit(&self) -> Emit {
        match self {
            StreamAction::Nothing => Emit::Nothing,
            StreamAction::Text(s) => Emit::Text(s@),
            StreamAction::Note(s) => Emit::Note(s@),
        }
    }
}

/// Model of the fold state.
pub struct StreamState {
    /// The last non-empty complete message.
    pub final_content: Option<Seq<char>>,
    /// All non-empty text pieces, concatenated.
    pub text: Seq<char>,
    /// The first error message.
    pub error: Option<Seq<char>>,
    /// The ticks of the last run-end event.
    pub tokens: Option<u64>,
    /// Tool ids and names, in the order the tools started.
    pub tools: Seq<(Seq<char>, Seq<char>)>,
}

/// The state before any event.
pub open spec fn initial_state() -> StreamState {
    StreamState {
        final_content: None,
        text: Seq::empty(),
        error: None,
        tokens: None,
        tools: Seq::empty(),
    }
}

/// The name most recently recorded for tool id `id`.
pub open spec fn tool_lookup(tools: Seq<(Seq<char>, Seq<char>)>, id: Seq<char>) -> Option<
    Seq<char>,
>
    decreases tools.len(),
{
    if tools.len() == 0 {
        None
    } else if tools.last().0 == id {
        Some(tools.last().1)
    } else {
        tool_lookup(tools.drop_last(), id)
    }
}

/// The name shown when tool `id` ends.
pub open spec fn ended_tool_name(tools: Seq<(Seq<char>, Seq<char>)>, id: Seq<char>) -> Seq<char> {
    match tool_lookup(tools, id) {
        Some(n) => n,
        None => if id.len() == 0 {
            "tool"@
        } else {
            id
        },
    }
}

/// The state after event `e`.
pub open spec fn step(s: StreamState, e: StreamEvent) -> StreamState {
    match e {
        StreamEvent::TokenDelta { delta } => match delta {
            Some(d) => if d@.len() > 0 {
                StreamState { text: s.text + d@, ..s }
            } else {
                s
            },
            None => s,
        },
        StreamEvent::ToolStart { tool, tool_id } => match tool_id {
            Some(id) => StreamState {
                tools: s.tools.push(
                    (
                        id@,
                        match tool {
                            Some(t) => t@,
                            None => "tool"@,
                        },
                    ),
                ),
                ..s
            },
            None => s,
        },
        StreamEvent::Message { content } => match content {
            Some(c) => if c@.len() > 0 {
                StreamState { final_content: Some(c@), ..s }
            } else {
                s
            },
            None => s,
        },
        StreamEvent::Error { msg } => match msg {
            Some(m) => if s.error is None {
                StreamState { error: Some(m@), ..s }
            } else {
                s
            },
            None => s,
        },
        StreamEvent::RunEnd { use_ticks } => StreamState {
            tokens: match use_ticks {
                Some(t) => Some(t as u64),
                None => None,
            },
            ..s
        },
        _ => s,
    }
}

/// What is shown after event `e` in state `s`.
pub open spec fn emitted(s: StreamState, e: StreamEvent) -> Emit {
    match e {
        StreamEvent::TokenDelta { delta } => match delta {
            Some(d) => if d@.len() > 0 {
                Emit::Text(d@)
            } else {
                Emit::Nothing
            },
            None => Emit::Nothing,
        },
        StreamEvent::ToolStart { tool, tool_id } => Emit::Note(
            "tool: "@ + match tool {
                Some(t) => t@,
                None => "tool"@,
            },
        ),
        StreamEvent::ToolEnd { tool_id, status } => {
            let id = match tool_id {
                Some(i) => i@,
                None => Seq::empty(),
            };
            let ok = match status {
                Some(st) => st@ == "ok"@,
                None => false,
            };
            Emit::Note(
                "tool: "@ + ended_tool_name(s.tools, id) + if ok {
                    " ok"@
                } else {
                    " failed"@
                },
            )
        },
        StreamEvent::Error { msg } => match msg {
            Some(m) => Emit::Note("error: "@ + m@),
            None => Emit::Nothing,
        },
        _ => Emit::Nothing,
    }
}

/// The state after all of `events`, in order.
pub open spec fn fold(events: Seq<StreamEvent>) -> StreamState
    decreases events.len(),
{
    if events.len() == 0 {
        initial_state()
    } else {
        step(fold(events.drop_last()), events.last())
    }
}

/// Result of a streamed run that succeeded.
pub struct StreamResult {
    pub session_id: String,
    pub response: String,
    pub tokens_used: Option<u64>,
}

/// Why a streamed run failed.
pub enum StreamError {
    /// The runtime reported an error; the first message.
    Failed(String),
    /// The run produced no text.
    EmptyResult,
}

/// The response text of a run: the last complete message, else the streamed text.
pub open spec fn response_of(s: StreamState) -> Seq<char> {
    match s.final_content {
        Some(c) => c,
        None => s.text,
    }
}

/// How a run in state `s` ends: `Ok(response)` or the error.
pub open spec fn outcome(s: StreamState) -> Result<Seq<char>, Option<Seq<char>>> {
    match s.error {
        Some(m) => Err(Some(m)),
        None => if all_ws(response_of(s)) {
            Err(None)
        } else {
            Ok(response_of(s))
        },
    }
}

impl StreamError {
    /// The error text that the console reports.
    pub fn message(&self) -> (r: String)
        ensures
            r@ == match self {
                StreamError::Failed(m) => m@,
                StreamError::EmptyResult => "agent.run_stream: empty result"@,
            },
    {
        match self {
            StreamError::Failed(m) => m.clone(),
            StreamError::EmptyResult => owned("agent.run_stream: empty result"),
        }
    }
}

/// The fold over the events of one streamed run.
pub struct RunStream {
    final_content: Option<String>,
    text: String,
    error: Option<String>,
    tokens: Option<u64>,
    // Tool names by tool id, in the order the tools started. Lookups search
    // from the end, so the latest start of an id names it.
    tools: Vec<(String, String)>,
}

impl View for RunStream {
    type V = StreamState;

    closed spec fn view(&self) -> StreamState {
        StreamState {
            final_content: opt_view(self.final_content),
            text: self.text@,
            error: opt_view(self.error),
            tokens: self.tokens,
            tools: self.tools@.map_values(|p: (String, String)| (p.0@, p.1@)),
        }
    }
}

impl RunStream {
    /// A fold that has seen no event.
    pub fn new() -> (r: RunStream)
        ensures
            r@ == initial_state(),
    {
        let r = RunStream {
            final_content: None,
            text: String::new(),
            error: None,
            tokens: None,
            tools: Vec::new(),
        };
        assert(r@.tools =~= Seq::<(Seq<char>, Seq<char>)>::empty());
        r
    }

    /// The name to show for the tool `id` that ends.
    fn ended_name(&self, id: &str) -> (r: String)
        ensures
            r@ == ended_tool_name(self@.tools, id@),
    {
        let ghost tv = self@.tools;
        let mut j = self.tools.len();
        assert(tv.take(j as int) =~= tv);
        while j > 0
            invariant
                j <= self.tools.len(),
                tv == self@.tools,
                tool_lookup(tv.take(j as int), id@) == tool_lookup(tv, id@),
            decreases j,
        {
            assert(tv.take(j as int).drop_last() =~= tv.take(j - 1));
            assert(tv.take(j as int).last() == tv[j - 1]);
            if str_eq(self.tools[j - 1].0.as_str(), id) {
                return self.tools[j - 1].1.clone();
            }
            j = j - 1;
        }
        assert(tv.take(0).len() == 0);
        if id.is_empty() {
            owned("tool")
        } else {
            owned(id)
        }
    }

    /// Takes in one event; returns what to show for it.
    pub fn on_event(&mut self, ev: StreamEvent) -> (a: StreamAction)
        ensures
            final(self)@ == step(old(self)@, ev),
            a.emit() == emitted(old(self)@, ev),
    {
        match ev {
            StreamEvent::TokenDelta { delta } => match delta {
                Some(d) => if d.as_str().is_empty() {
                    StreamAction::Nothing
                } else {
                    crate::text::push_str(&mut self.text, d.as_str());
                    StreamAction::Text(d)
                },
                None => StreamAction::Nothing,
            },
            StreamEvent::ToolStart { tool, tool_id } => {
                let name = match tool {
                    Some(t) => t,
                    None => owned("tool"),
                };
                let note = concat("tool: ", name.as_str());
                match tool_id {
                    Some(id) => {
                        let ghost before = self.tools@;
                        self.tools.push((id, name));
                        proof {
                            assert(self.tools@.map_values(|p: (String, String)| (p.0@, p.1@))
                                =~= before.map_values(|p: (String, String)| (p.0@, p.1@)).push(
                                (id@, name@),
                            ));
                        }
                    },
                    None => {},
                }
                StreamAction::Note(note)
            },
            StreamEvent::ToolEnd { tool_id, status } => {
                let id = match tool_id {
                    Some(i) => i,
                    None => String::new(),
                };
                let name = self.ended_name(id.as_str());
                let ok = match &status {
                    Some(st) => str_eq(st.as_str(), "ok"),
                    None => false,
                };
                let note = if ok {
                    concat3("tool: ", name.as_str(), " ok")
                } else {
                    concat3("tool: ", name.as_str(), " failed")
                };
                StreamAction::Note(note)
            },
            StreamEvent::Message { content } => {
                match content {
                    Some(c) => if !c.as_str().is_empty() {
                        self.final_content = Some(c);
                    },
                    None => {},
                }
                StreamAction::Nothing
            },
            StreamEvent::Error { msg } => match msg {
                Some(m) => {
                    let note = concat("error: ", m.as_str());
                    if self.error.is_none() {
                        self.error = Some(m);
                    }
                    StreamAction::Note(note)
                },
                None => StreamAction::Nothing,
            },
            StreamEvent::RunEnd { use_ticks } => {
                self.tokens = match use_ticks {
                    Some(t) => Some(t as u64),
                    None => None,
                };
                StreamAction::Nothing
            },
            StreamEvent::Other => StreamAction::Nothing,
        }
    }

    /// The result of the run, for session `session_id`.
    pub fn finish(self, session_id: &str) -> (r: Result<StreamResult, StreamError>)
        ensures
            match outcome(self@) {
                Ok(resp) => r matches Ok(res) && res.response@ == resp && res.session_id@
                    == session_id@ && res.tokens_used == self@.tokens,
                Err(Some(m)) => r matches Err(StreamError::Failed(e)) && e@ == m,
                Err(None) => r matches Err(StreamError::EmptyResult),
            },
    {
        if let Some(m) = self.error {
            return Err(StreamError::Failed(m));
        }
        let response = match self.final_content {
            Some(c) => c,
            None => self.text,
        };
        if is_blank(response.as_str()) {
            return Err(StreamError::EmptyResult);
        }
        Ok(StreamResult { session_id: owned(session_id), response, tokens_used: self.tokens })
    }
}

// ---------------------------------------------------------------------------
// Laws of the fold
// ---------------------------------------------------------------------------

/// The text of event `e` if it is a non-empty text piece.
pub open spec fn delta_text(e: StreamEvent) -> Seq<char> {
    match e {
        StreamEvent::TokenDelta { delta: Some(d) } => d@,
        _ => Seq::empty(),
    }
}

/// All text pieces of `events`, concatenated in order.
pub open spec fn all_deltas(events: Seq<StreamEvent>) -> Seq<char>
    decreases events.len(),
{
    if events.len() == 0 {
        Seq::empty()
    } else {
        all_deltas(events.drop_last()) + delta_text(events.last())
    }
}

/// The message of the first error event of `events` that carries one.
pub open spec fn first_error(events: Seq<StreamEvent>) -> Option<Seq<char>>
    decreases events.len(),
{
    if events.len() == 0 {
        None
    } else {
        match events[0] {
            StreamEvent::Error { msg: Some(m) } => Some(m@),
            _ => first_error(events.drop_first()),
        }
    }
}

/// The content of the last non-empty complete message of `events`.
pub open spec fn last_message(events: Seq<StreamEvent>) -> Option<Seq<char>>
    decreases events.len(),
{
    if events.len() == 0 {
        None
    } else {
        match events.last() {
            StreamEvent::Message { content: Some(c) } => if c@.len() > 0 {
                Some(c@)
            } else {
                last_message(events.drop_last())
            },
            _ => last_message(events.drop_last()),
        }
    }
}

/// The ticks of the last run-end event of `events`.
pub open spec fn last_ticks(events: Seq<StreamEvent>) -> Option<u64>
    decreases events.len(),
{
    if events.len() == 0 {
        None
    } else {
        match events.last() {
            StreamEvent::RunEnd { use_ticks } => match use_ticks {
                Some(t) => Some(t as u64),
                None => None,
            },
            _ => last_ticks(events.drop_last()),
        }
    }
}

/// The name given by the last tool start of `events` with id `id`.
pub open spec fn last_started_name(events: Seq<StreamEvent>, id: Seq<char>) -> Option<Seq<char>>
    decreases events.len(),
{
    if events.len() == 0 {
        None
    } else {
        match events.last() {
            StreamEvent::ToolStart { tool, tool_id: Some(i) } => if i@ == id {
                Some(
                    match tool {
                        Some(t) => t@,
                        None => "tool"@,
                    },
                )
            } else {
                last_started_name(events.drop_last(), id)
            },
            _ => last_started_name(events.drop_last(), id),
        }
    }
}

proof fn lemma_first_error_snoc(events: Seq<StreamEvent>)
    requires
        events.len() > 0,
    ensures
        first_error(events) == match first_error(events.drop_last()) {
            Some(m) => Some(m),
            None => match events.last() {
                StreamEvent::Error { msg: Some(m) } => Some(m@),
                _ => None,
            },
        },
    decreases events.len(),
{
    if events.len() > 1 {
        let rest = events.drop_first();
        lemma_first_error_snoc(rest);
        assert(rest.drop_last() =~= events.drop_last().drop_first());
        assert(events.drop_last()[0] == events[0]);
        assert(rest.last() == events.last());
        assert(first_error(events.drop_last()) == match events[0] {
            StreamEvent::Error { msg: Some(m) } => Some(m@),
            _ => first_error(rest.drop_last()),
        });
    } else {
        assert(events.drop_first().len() == 0);
        assert(first_error(events.drop_first()) is None);
        assert(events.drop_last().len() == 0);
        assert(first_error(events.drop_last()) is None);
        assert(events.last() == events[0]);
    }
}

/// The streamed text is every non-empty text piece, concatenated in the order received.
pub proof fn law_text_concatenates_deltas(events: Seq<StreamEvent>)
    ensures
        fold(events).text == all_deltas(events),
    decreases events.len(),
{
    if events.len() > 0 {
        law_text_concatenates_deltas(events.drop_last());
        match events.last() {
            StreamEvent::TokenDelta { delta: Some(d) } => {
                if d@.len() == 0 {
                    assert(fold(events).text =~= all_deltas(events));
                }
            },
            _ => {
                assert(all_deltas(events) =~= all_deltas(events.drop_last()));
            },
        }
    }
}

/// The error kept is the message of the first error event; later errors do not replace it.
pub proof fn law_first_error_kept(events: Seq<StreamEvent>)
    ensures
        fold(events).error == first_error(events),
    decreases events.len(),
{
    if events.len() > 0 {
        law_first_error_kept(events.drop_last());
        lemma_first_error_snoc(events);
    }
}

/// The final content is the last non-empty complete message.
pub proof fn law_last_message_kept(events: Seq<StreamEvent>)
    ensures
        fold(events).final_content == last_message(events),
    decreases events.len(),
{
    if events.len() > 0 {
        law_last_message_kept(events.drop_last());
    }
}

/// The ticks reported are those of the last run-end event.
pub proof fn law_ticks_from_last_run_end(events: Seq<StreamEvent>)
    ensures
        fold(events).tokens == last_ticks(events),
    decreases events.len(),
{
    if events.len() > 0 {
        law_ticks_from_last_run_end(events.drop_last());
    }
}

/// A tool that ends is named as the last tool start with the same id named it.
pub proof fn law_tool_named_by_last_start(events: Seq<StreamEvent>, id: Seq<char>)
    ensures
        tool_lookup(fold(events).tools, id) == last_started_name(events, id),
    decreases events.len(),
{
    if events.len() > 0 {
        law_tool_named_by_last_start(events.drop_last(), id);
        let s = fold(events.drop_last());
        match events.last() {
            StreamEvent::ToolStart { tool, tool_id: Some(i) } => {
                assert(fold(events).tools.drop_last() =~= s.tools);
            },
            _ => {},
        }
    }
}

/// A run with an error event fails with the first error message, whatever else it streamed.
pub proof fn law_error_fails_run(events: Seq<StreamEvent>)
    requires
        first_error(events) is Some,
    ensures
        outcome(fold(events)) == Err::<Seq<char>, Option<Seq<char>>>(first_error(events)),
{
    law_first_error_kept(events);
}

/// Without errors, a run succeeds exactly when its response has a non-blank
/// character, and its response is the last complete message or else the streamed text.
pub proof fn law_response_without_error(events: Seq<StreamEvent>)
    requires
        first_error(events) is None,
    ensures
        ({
            let resp = match last_message(events) {
                Some(c) => c,
                None => all_deltas(events),
            };
            outcome(fold(events)) == if all_ws(resp) {
                Err::<Seq<char>, Option<Seq<char>>>(None)
            } else {
                Ok(resp)
            }
        }),
{
    law_first_error_kept(events);
    law_last_message_kept(events);
    law_text_concatenates_deltas(events);
}

/// The text shown while `events` streamed in: every `Text` action, in order.
pub open spec fn shown_text(events: Seq<StreamEvent>) -> Seq<char>
    decreases events.len(),
{
    if events.len() == 0 {
        Seq::empty()
    } else {
        shown_text(events.drop_last()) + match emitted(fold(events.drop_last()), events.last()) {
            Emit::Text(t) => t,
            _ => Seq::empty(),
        }
    }
}

/// What was shown as text during a run is exactly the text the run kept.
pub proof fn law_shown_text_is_kept_text(events: Seq<StreamEvent>)
    ensures
        shown_text(events) == fold(events).text,
    decreases events.len(),
{
    if events.len() > 0 {
        law_shown_text_is_kept_text(events.drop_last());
        let prev = events.drop_last();
        match events.last() {
            StreamEvent::TokenDelta { delta: Some(d) } => {
                if d@.len() == 0 {
                    assert(shown_text(events) =~= shown_text(prev));
                }
            },
            StreamEvent::ToolStart { .. } => {
                assert(shown_text(events) =~= shown_text(prev));
            },
            StreamEvent::ToolEnd { .. } => {
                assert(shown_text(events) =~= shown_text(prev));
            },
            StreamEvent::Error { msg } => {
                assert(shown_text(events) =~= shown_text(prev));
            },
            _ => {
                assert(shown_text(events) =~= shown_text(prev));
            },
        }
    }
}

/// A tool start is always shown as `tool: ` and the tool's name (`tool` when
/// the event names none), whether or not it carries a tool id; the id only
/// records the name for the tool's end.
pub proof fn law_tool_start_always_noted(
    s: StreamState,
    tool: Option<String>,
    tool_id: Option<String>,
    other_id: Option<String>,
)
    ensures
        emitted(s, StreamEvent::ToolStart { tool, tool_id }) == Emit::Note(
            "tool: "@ + match tool {
                Some(t) => t@,
                None => "tool"@,
            },
        ),
        emitted(s, StreamEvent::ToolStart { tool, tool_id }) == emitted(
            s,
            StreamEvent::ToolStart { tool, tool_id: other_id },
        ),
{
}

} // verus!
