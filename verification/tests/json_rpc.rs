use agentrt_console::gateway::{
    agent_run_params, agent_stream_params, empty_params, llm_test_params, market_install_params,
    market_publish_params, market_search_params, probe_reply, rpc_reply, rpc_request,
};
use agentrt_console::json::{member, member_str, member_u64, JsonValue};

type J = JsonValue<i32>;

/// Compact JSON text of a value, members in their stored order.
fn render(v: &J) -> String {
    match v {
        JsonValue::Null => "null".to_string(),
        JsonValue::Bool(b) => b.to_string(),
        JsonValue::UInt(n) => n.to_string(),
        JsonValue::Num(n) => format!("~{n}"),
        JsonValue::Str(s) => format!("\"{s}\""),
        JsonValue::Array(xs) => format!("[{}]", xs.iter().map(render).collect::<Vec<_>>().join(",")),
        JsonValue::Object(ms) => format!(
            "{{{}}}",
            ms.iter().map(|(k, v)| format!("\"{k}\":{}", render(v))).collect::<Vec<_>>().join(",")
        ),
    }
}

fn s(x: &str) -> J {
    JsonValue::Str(x.to_string())
}

fn obj(ms: Vec<(&str, J)>) -> J {
    JsonValue::Object(ms.into_iter().map(|(k, v)| (k.to_string(), v)).collect())
}

#[test]
fn request_envelope_is_json_rpc_2() {
    let r = rpc_request("llm.list_models", empty_params::<i32>());
    assert_eq!(r.jsonrpc, "2.0");
    assert_eq!(r.id, 0);
    assert_eq!(r.method, "llm.list_models");
    assert_eq!(render(&r.params), "{}");
    assert_eq!(render(&r.into_json()), r#"{"jsonrpc":"2.0","id":0,"method":"llm.list_models","params":{}}"#);
}

#[test]
fn error_member_wins_over_result() {
    let reply = obj(vec![("result", s("fine")), ("error", obj(vec![("code", JsonValue::Num(-32601)), ("message", s("no such method"))]))]);
    match rpc_reply("x.y", reply) {
        Err(m) => assert_eq!(m, "x.y: no such method"),
        Ok(_) => panic!("an error reply must fail"),
    }
}

#[test]
fn error_without_text_message_is_unknown() {
    for err in [JsonValue::Null, obj(vec![("message", JsonValue::UInt(7))]), obj(vec![])] {
        match rpc_reply("info.system", obj(vec![("error", err)])) {
            Err(m) => assert_eq!(m, "info.system: unknown error"),
            Ok(_) => panic!("an error reply must fail"),
        }
    }
}

#[test]
fn result_or_null() {
    let ok = rpc_reply("a", obj(vec![("jsonrpc", s("2.0")), ("result", obj(vec![("n", JsonValue::UInt(3))]))]));
    assert_eq!(render(&ok.ok().unwrap()), r#"{"n":3}"#);
    let none = rpc_reply("a", obj(vec![("jsonrpc", s("2.0"))]));
    assert!(matches!(none, Ok(JsonValue::Null)));
    let not_object = rpc_reply("a", JsonValue::Array(vec![s("result")]));
    assert!(matches!(not_object, Ok(JsonValue::Null)));
}

#[test]
fn run_parameters() {
    let p = agent_run_params::<i32>("hi", "agents/main.agent.yaml", Some("large-2"), Some(""), None);
    assert_eq!(render(&p), r#"{"prompt":"hi","agent_file":"agents/main.agent.yaml","model":"large-2"}"#);
    let history = JsonValue::Array(vec![obj(vec![("role", s("user")), ("content", s("earlier"))])]);
    let p = agent_run_params("hi", "a.yaml", None, Some("sess_1"), Some(history));
    assert_eq!(
        render(&p),
        r#"{"prompt":"hi","agent_file":"a.yaml","session_id":"sess_1","messages":[{"role":"user","content":"earlier"}]}"#
    );
    let p = agent_stream_params::<i32>("hi", "a.yaml", Some(""), "sess_2");
    assert_eq!(render(&p), r#"{"prompt":"hi","agent_file":"a.yaml","session_id":"sess_2"}"#);
    let p = agent_stream_params::<i32>("hi", "a.yaml", Some("m"), "sess_2");
    assert_eq!(render(&p), r#"{"prompt":"hi","agent_file":"a.yaml","session_id":"sess_2","model":"m"}"#);
}

#[test]
fn probe_and_market_parameters() {
    assert_eq!(render(&llm_test_params::<i32>(None)), r#"{"messages":[{"role":"user","content":"ping"}]}"#);
    assert_eq!(render(&llm_test_params::<i32>(Some(""))), r#"{"messages":[{"role":"user","content":"ping"}]}"#);
    assert_eq!(
        render(&llm_test_params::<i32>(Some("small"))),
        r#"{"messages":[{"role":"user","content":"ping"}],"model":"small"}"#
    );
    assert_eq!(render(&market_search_params::<i32>("web")), r#"{"keyword":"web","offset":0,"limit":20}"#);
    assert_eq!(render(&market_install_params::<i32>("a1", "1.0")), r#"{"agent_id":"a1","version":"1.0"}"#);
    assert_eq!(render(&market_publish_params::<i32>("a1", "1.0")), r#"{"agent":{"agent_id":"a1","version":"1.0"}}"#);
}

#[test]
fn probe_reply_reads_counts_and_first_choice() {
    let result = obj(vec![
        ("model", s("small")),
        ("choices", JsonValue::Array(vec![obj(vec![("content", s("pong"))]), obj(vec![("content", s("other"))])])),
        ("prompt_tokens", JsonValue::UInt(5)),
        ("completion_tokens", JsonValue::Num(-1)),
        ("cost_usd", JsonValue::Num(0)),
    ]);
    let p = probe_reply(&result);
    assert_eq!(p.model.as_deref(), Some("small"));
    assert_eq!(p.content, "pong");
    assert_eq!((p.prompt_tokens, p.completion_tokens, p.total_tokens), (5, 0, 0));

    let keyed = obj(vec![("model", JsonValue::UInt(1)), ("choices", obj(vec![("0", obj(vec![("content", s("zero"))]))]))]);
    let p = probe_reply(&keyed);
    assert_eq!(p.model, None);
    assert_eq!(p.content, "zero");

    let empty = obj(vec![("choices", JsonValue::Array(vec![]))]);
    assert_eq!(probe_reply(&empty).content, "");
    assert_eq!(probe_reply(&J::Null).content, "");
}

#[test]
fn member_lookup_takes_the_first_match() {
    let v = obj(vec![("a", JsonValue::UInt(1)), ("a", JsonValue::UInt(2)), ("b", s("x"))]);
    assert!(matches!(member(&v, "a"), Some(JsonValue::UInt(1))));
    assert!(member(&v, "c").is_none());
    assert!(member(&s("a"), "a").is_none());
    assert_eq!(member_str(&v, "b").as_deref(), Some("x"));
    assert_eq!(member_str(&v, "a"), None);
    assert_eq!(member_u64(&v, "a"), Some(1));
    assert_eq!(member_u64(&v, "b"), None);
}
