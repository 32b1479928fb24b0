use agentrt_console::stream::{RunStream, StreamAction, StreamError, StreamEvent};

fn s(x: &str) -> Option<String> {
    Some(x.to_string())
}

fn note(a: StreamAction) -> String {
    match a {
        StreamAction::Note(n) => n,
        _ => panic!("expected a note"),
    }
}

#[test]
fn deltas_are_concatenated_and_shown() {
    let mut st = RunStream::new();
    match st.on_event(StreamEvent::TokenDelta { delta: s("Hel") }) {
        StreamAction::Text(t) => assert_eq!(t, "Hel"),
        _ => panic!("expected text"),
    }
    assert!(matches!(st.on_event(StreamEvent::TokenDelta { delta: s("") }), StreamAction::Nothing));
    assert!(matches!(st.on_event(StreamEvent::TokenDelta { delta: None }), StreamAction::Nothing));
    st.on_event(StreamEvent::TokenDelta { delta: s("lo") });
    st.on_event(StreamEvent::RunEnd { use_ticks: Some(42) });
    let r = st.finish("sess_1").ok().unwrap();
    assert_eq!(r.response, "Hello");
    assert_eq!(r.session_id, "sess_1");
    assert_eq!(r.tokens_used, Some(42));
}

#[test]
fn final_message_wins_over_streamed_text() {
    let mut st = RunStream::new();
    st.on_event(StreamEvent::TokenDelta { delta: s("partial") });
    st.on_event(StreamEvent::Message { content: s("first") });
    st.on_event(StreamEvent::Message { content: s("complete answer") });
    st.on_event(StreamEvent::Message { content: s("") });
    let r = st.finish("sess_x").ok().unwrap();
    assert_eq!(r.response, "complete answer");
    assert_eq!(r.tokens_used, None);
}

#[test]
fn tool_notes_use_recorded_names() {
    let mut st = RunStream::new();
    assert_eq!(note(st.on_event(StreamEvent::ToolStart { tool: s("search"), tool_id: s("t1") })), "tool: search");
    assert_eq!(note(st.on_event(StreamEvent::ToolStart { tool: None, tool_id: s("t2") })), "tool: tool");
    assert_eq!(note(st.on_event(StreamEvent::ToolEnd { tool_id: s("t1"), status: s("ok") })), "tool: search ok");
    assert_eq!(note(st.on_event(StreamEvent::ToolEnd { tool_id: s("t2"), status: s("error") })), "tool: tool failed");
    assert_eq!(note(st.on_event(StreamEvent::ToolEnd { tool_id: s("t9"), status: None })), "tool: t9 failed");
    assert_eq!(note(st.on_event(StreamEvent::ToolEnd { tool_id: None, status: s("ok") })), "tool: tool ok");
    // A later start with the same id renames the tool.
    st.on_event(StreamEvent::ToolStart { tool: s("fetch"), tool_id: s("t1") });
    assert_eq!(note(st.on_event(StreamEvent::ToolEnd { tool_id: s("t1"), status: s("ok") })), "tool: fetch ok");
}

#[test]
fn first_error_fails_the_run() {
    let mut st = RunStream::new();
    st.on_event(StreamEvent::TokenDelta { delta: s("some text") });
    assert_eq!(note(st.on_event(StreamEvent::Error { msg: s("quota exceeded") })), "error: quota exceeded");
    assert_eq!(note(st.on_event(StreamEvent::Error { msg: s("second") })), "error: second");
    assert!(matches!(st.on_event(StreamEvent::Error { msg: None }), StreamAction::Nothing));
    match st.finish("sess_e") {
        Err(e) => {
            assert!(matches!(e, StreamError::Failed(ref m) if m == "quota exceeded"));
            assert_eq!(e.message(), "quota exceeded");
        }
        Ok(_) => panic!("the run should fail"),
    }
}

#[test]
fn blank_result_is_an_error() {
    let mut st = RunStream::new();
    st.on_event(StreamEvent::TokenDelta { delta: s("  \n\t") });
    st.on_event(StreamEvent::Other);
    match st.finish("sess_b") {
        Err(e) => {
            assert!(matches!(e, StreamError::EmptyResult));
            assert_eq!(e.message(), "agent.run_stream: empty result");
        }
        Ok(_) => panic!("a blank run should fail"),
    }
    assert!(matches!(RunStream::new().finish("x"), Err(StreamError::EmptyResult)));
}

#[test]
fn negative_ticks_wrap_and_last_run_end_counts() {
    let mut st = RunStream::new();
    st.on_event(StreamEvent::Message { content: s("done") });
    st.on_event(StreamEvent::RunEnd { use_ticks: Some(7) });
    st.on_event(StreamEvent::RunEnd { use_ticks: Some(-1) });
    assert_eq!(st.finish("s").ok().unwrap().tokens_used, Some(u64::MAX));
    let mut st = RunStream::new();
    st.on_event(StreamEvent::Message { content: s("done") });
    st.on_event(StreamEvent::RunEnd { use_ticks: Some(7) });
    st.on_event(StreamEvent::RunEnd { use_ticks: None });
    assert_eq!(st.finish("s").ok().unwrap().tokens_used, None);
}
