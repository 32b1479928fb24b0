//! The gateway protocol: endpoints, JSON-RPC 2.0 requests and replies, the
//! parameters of each call and what the console reads from a reply.
//!
//! The transport itself (HTTP, the JSON text, the event stream) is the
//! caller's: it sends the request value built here and hands back the reply
//! value it received.
use vstd::prelude::*;

use crate::json::{
    json_of, lemma_array_content, lemma_object_content, member, member_str, member_u64,
    members_of, object_get, object_get_str, object_get_u64, push_member, string_value, Json,
    JsonValue,
};
use crate::text::opt_view;
use crate::text::{concat, concat3, owned, push_str};

verus! {

/// `s` without its trailing `/` characters.
pub open spec fn strip_trailing_slashes(s: Seq<char>) -> Seq<char>
    decreases s.len(),
{
    if s.len() > 0 && s.last() == '/' {
        strip_trailing_slashes(s.drop_last())
    } else {
        s
    }
}

/// The base URL of the gateway: `base` without trailing slashes.
pub fn normalize_base_url(base: &str) -> (r: String)
    ensures
        r@ == strip_trailing_slashes(base@),
{
    let cs = crate::text::chars_of(base);
    let mut n = cs.len();
    assert(cs@.take(n as int) =~= cs@);
    while n > 0 && cs[n - 1] == '/'
        invariant
            n <= cs.len(),
            cs@ == base@,
            strip_trailing_slashes(cs@.take(n as int)) == strip_trailing_slashes(base@),
        decreases n,
    {
        assert(cs@.take(n as int).drop_last() =~= cs@.take(n - 1));
        n = n - 1;
    }
    proof {
        if n > 0 {
            assert(cs@.take(n as int).last() == cs@[n - 1]);
        }
    }
    crate::text::string_from(&cs, 0, n)
}

/// The endpoint that takes JSON-RPC calls.
pub fn rpc_url(base: &str) -> (r: String)
    ensures
        r@ == base@ + "/"@,
{
    concat(base, "/")
}

/// The endpoint that answers health checks.
pub fn health_url(base: &str) -> (r: String)
    ensures
        r@ == base@ + "/health"@,
{
    concat(base, "/health")
}

/// The user agent of the console at `version`.
pub fn user_agent(version: &str) -> (r: String)
    ensures
        r@ == "agentrt-console/"@ + version@,
{
    concat("agentrt-console/", version)
}

/// The failure of JSON-RPC call `method` whose reply holds an error object,
/// with the error's message if it is a string.
pub fn rpc_error_message(method: &str, message: Option<&str>) -> (r: String)
    ensures
        r@ == method@ + ": "@ + match message {
            Some(m) => m@,
            None => "unknown error"@,
        },
{
    match message {
        Some(m) => concat3(method, ": ", m),
        None => concat3(method, ": ", "unknown error"),
    }
}

/// The message when the gateway at `url` does not answer its health check.
pub fn unreachable_message(url: &str) -> (r: String)
    ensures
        r@ == "Cannot connect to AgentRT gateway at "@ + url@ + ". Is it running?"@,
{
    concat3("Cannot connect to AgentRT gateway at ", url, ". Is it running?")
}

/// An optional text that is sent only when it is present and not empty.
pub open spec fn sent_text(o: Option<Seq<char>>) -> Option<Seq<char>> {
    match o {
        Some(t) => if t.len() > 0 {
            Some(t)
        } else {
            None
        },
        None => None,
    }
}

pub open spec fn opt_str_view(o: Option<&str>) -> Option<Seq<char>> {
    match o {
        Some(s) => Some(s@),
        None => None,
    }
}

/// The value of an optional request field: present and not empty, or left out.
pub fn optional_field(o: Option<&str>) -> (r: Option<String>)
    ensures
        opt_view(r) == sent_text(opt_str_view(o)),
{
    match o {
        Some(t) => if t.is_empty() {
            None
        } else {
            Some(owned(t))
        },
        None => None,
    }
}

/// The member `key: value` for an optional text `value`, as a sequence: one
/// member where the text is present and not empty, none otherwise.
pub open spec fn optional_member<N>(key: Seq<char>, value: Option<Seq<char>>) -> Seq<
    (Seq<char>, Json<N>),
> {
    match sent_text(value) {
        Some(v) => seq![(key, Json::Str(v))],
        None => Seq::empty(),
    }
}

fn push_optional<N>(ms: &mut Vec<(String, JsonValue<N>)>, key: &str, o: Option<&str>)
    ensures
        members_of(final(ms)@) == members_of(old(ms)@) + optional_member::<N>(
            key@,
            opt_str_view(o),
        ),
{
    let ghost before = members_of(ms@);
    match optional_field(o) {
        Some(t) => {
            push_member(ms, key, string_value(t.as_str()));
            assert(members_of(ms@) =~= before + optional_member::<N>(key@, opt_str_view(o)));
        },
        None => {
            assert(members_of(ms@) =~= before + optional_member::<N>(key@, opt_str_view(o)));
        },
    }
}

/// The parameters of an `agent.run` call: prompt and agent file, the model
/// and the session id where each is given and not empty, then the earlier
/// messages where they are given.
pub fn agent_run_params<N>(
    prompt: &str,
    agent_file: &str,
    model: Option<&str>,
    session_id: Option<&str>,
    messages: Option<JsonValue<N>>,
) -> (r: JsonValue<N>)
    ensures
        json_of(r) == Json::Object(
            seq![("prompt"@, Json::<N>::Str(prompt@)), ("agent_file"@, Json::Str(agent_file@))]
                + optional_member("model"@, opt_str_view(model)) + optional_member(
                "session_id"@,
                opt_str_view(session_id),
            ) + match messages {
                Some(m) => seq![("messages"@, json_of(m))],
                None => Seq::empty(),
            },
        ),
{
    let mut ms: Vec<(String, JsonValue<N>)> = Vec::new();
    push_member(&mut ms, "prompt", string_value(prompt));
    push_member(&mut ms, "agent_file", string_value(agent_file));
    let ghost base = members_of(ms@);
    assert(base =~= seq![("prompt"@, Json::<N>::Str(prompt@)), ("agent_file"@, Json::Str(agent_file@))]);
    push_optional(&mut ms, "model", model);
    push_optional(&mut ms, "session_id", session_id);
    let ghost mid = members_of(ms@);
    let ghost tail = match messages {
        Some(ref m) => seq![("messages"@, json_of(*m))],
        None => Seq::<(Seq<char>, Json<N>)>::empty(),
    };
    match messages {
        Some(m) => push_member(&mut ms, "messages", m),
        None => {},
    }
    assert(members_of(ms@) =~= mid + tail);
    proof {
        lemma_object_content(ms);
    }
    JsonValue::Object(ms)
}

/// The parameters of a streamed run: prompt, agent file and session id, then
/// the model where it is given and not empty.
pub fn agent_stream_params<N>(
    prompt: &str,
    agent_file: &str,
    model: Option<&str>,
    session_id: &str,
) -> (r: JsonValue<N>)
    ensures
        json_of(r) == Json::Object(
            seq![
                ("prompt"@, Json::<N>::Str(prompt@)),
                ("agent_file"@, Json::Str(agent_file@)),
                ("session_id"@, Json::Str(session_id@)),
            ] + optional_member("model"@, opt_str_view(model)),
        ),
{
    let mut ms: Vec<(String, JsonValue<N>)> = Vec::new();
    push_member(&mut ms, "prompt", string_value(prompt));
    push_member(&mut ms, "agent_file", string_value(agent_file));
    push_member(&mut ms, "session_id", string_value(session_id));
    assert(members_of(ms@) =~= seq![
        ("prompt"@, Json::<N>::Str(prompt@)),
        ("agent_file"@, Json::Str(agent_file@)),
        ("session_id"@, Json::Str(session_id@)),
    ]);
    push_optional(&mut ms, "model", model);
    proof {
        lemma_object_content(ms);
    }
    JsonValue::Object(ms)
}

/// The parameters of a call that takes none: an empty object.
pub fn empty_params<N>() -> (r: JsonValue<N>)
    ensures
        json_of(r) == Json::<N>::Object(Seq::empty()),
{
    let ms: Vec<(String, JsonValue<N>)> = Vec::new();
    proof {
        lemma_object_content(ms);
        assert(members_of(ms@) =~= Seq::empty());
    }
    JsonValue::Object(ms)
}

/// The message of the connectivity probe: one user message, `ping`.
pub open spec fn ping_message<N>() -> Json<N> {
    Json::Object(seq![("role"@, Json::Str("user"@)), ("content"@, Json::Str("ping"@))])
}

/// The parameters of the `llm.complete` probe: the `ping` message, then the
/// model where it is given and not empty.
pub fn llm_test_params<N>(model: Option<&str>) -> (r: JsonValue<N>)
    ensures
        json_of(r) == Json::Object(
            seq![("messages"@, Json::Array(seq![ping_message::<N>()]))] + optional_member(
                "model"@,
                opt_str_view(model),
            ),
        ),
{
    let mut msg: Vec<(String, JsonValue<N>)> = Vec::new();
    push_member(&mut msg, "role", string_value("user"));
    push_member(&mut msg, "content", string_value("ping"));
    assert(members_of(msg@) =~= seq![("role"@, Json::<N>::Str("user"@)), ("content"@, Json::Str("ping"@))]);
    proof {
        lemma_object_content(msg);
    }
    let mut list: Vec<JsonValue<N>> = Vec::new();
    list.push(JsonValue::Object(msg));
    proof {
        lemma_array_content(list);
        assert(list@.map_values(|x: JsonValue<N>| json_of(x)) =~= seq![ping_message::<N>()]);
    }
    let mut ms: Vec<(String, JsonValue<N>)> = Vec::new();
    push_member(&mut ms, "messages", JsonValue::Array(list));
    assert(members_of(ms@) =~= seq![("messages"@, Json::Array(seq![ping_message::<N>()]))]);
    push_optional(&mut ms, "model", model);
    proof {
        lemma_object_content(ms);
    }
    JsonValue::Object(ms)
}

/// The parameters of a market search for `keyword`: the first page of 20.
pub fn market_search_params<N>(keyword: &str) -> (r: JsonValue<N>)
    ensures
        json_of(r) == Json::Object(
            seq![
                ("keyword"@, Json::<N>::Str(keyword@)),
                ("offset"@, Json::UInt(0)),
                ("limit"@, Json::UInt(20)),
            ],
        ),
{
    let mut ms: Vec<(String, JsonValue<N>)> = Vec::new();
    push_member(&mut ms, "keyword", string_value(keyword));
    push_member(&mut ms, "offset", JsonValue::UInt(0));
    push_member(&mut ms, "limit", JsonValue::UInt(20));
    assert(members_of(ms@) =~= seq![
        ("keyword"@, Json::<N>::Str(keyword@)),
        ("offset"@, Json::UInt(0)),
        ("limit"@, Json::UInt(20)),
    ]);
    proof {
        lemma_object_content(ms);
    }
    JsonValue::Object(ms)
}

/// The object naming an agent and its version.
pub open spec fn agent_version<N>(agent_id: Seq<char>, version: Seq<char>) -> Json<N> {
    Json::Object(seq![("agent_id"@, Json::Str(agent_id)), ("version"@, Json::Str(version))])
}

fn agent_version_value<N>(agent_id: &str, version: &str) -> (r: JsonValue<N>)
    ensures
        json_of(r) == agent_version::<N>(agent_id@, version@),
{
    let mut ms: Vec<(String, JsonValue<N>)> = Vec::new();
    push_member(&mut ms, "agent_id", string_value(agent_id));
    push_member(&mut ms, "version", string_value(version));
    assert(members_of(ms@) =~= seq![
        ("agent_id"@, Json::<N>::Str(agent_id@)),
        ("version"@, Json::Str(version@)),
    ]);
    proof {
        lemma_object_content(ms);
    }
    JsonValue::Object(ms)
}

/// The parameters of a market install: the agent and the version wanted.
pub fn market_install_params<N>(agent_id: &str, version: &str) -> (r: JsonValue<N>)
    ensures
        json_of(r) == agent_version::<N>(agent_id@, version@),
{
    agent_version_value(agent_id, version)
}

/// The parameters of a market publish: the agent and version, under `agent`.
pub fn market_publish_params<N>(agent_id: &str, version: &str) -> (r: JsonValue<N>)
    ensures
        json_of(r) == Json::Object(seq![("agent"@, agent_version::<N>(agent_id@, version@))]),
{
    let mut ms: Vec<(String, JsonValue<N>)> = Vec::new();
    push_member(&mut ms, "agent", agent_version_value(agent_id, version));
    assert(members_of(ms@) =~= seq![("agent"@, agent_version::<N>(agent_id@, version@))]);
    proof {
        lemma_object_content(ms);
    }
    JsonValue::Object(ms)
}

/// A JSON-RPC 2.0 request.
pub struct RpcRequest<N> {
    pub jsonrpc: String,
    pub id: u64,
    pub method: String,
    pub params: JsonValue<N>,
}

/// The request calling `method` with `params`: protocol version `2.0`, id 0.
pub fn rpc_request<N>(method: &str, params: JsonValue<N>) -> (r: RpcRequest<N>)
    ensures
        r.jsonrpc@ == "2.0"@,
        r.id == 0,
        r.method@ == method@,
        r.params == params,
{
    RpcRequest { jsonrpc: owned("2.0"), id: 0, method: owned(method), params }
}

impl<N> RpcRequest<N> {
    /// The request as the JSON object that is sent.
    pub fn into_json(self) -> (r: JsonValue<N>)
        ensures
            json_of(r) == Json::Object(
                seq![
                    ("jsonrpc"@, Json::<N>::Str(self.jsonrpc@)),
                    ("id"@, Json::UInt(self.id)),
                    ("method"@, Json::Str(self.method@)),
                    ("params"@, json_of(self.params)),
                ],
            ),
    {
        let ghost p = json_of(self.params);
        let ghost j = self.jsonrpc@;
        let ghost m = self.method@;
        let mut ms: Vec<(String, JsonValue<N>)> = Vec::new();
        push_member(&mut ms, "jsonrpc", JsonValue::Str(self.jsonrpc));
        push_member(&mut ms, "id", JsonValue::UInt(self.id));
        push_member(&mut ms, "method", JsonValue::Str(self.method));
        push_member(&mut ms, "params", self.params);
        assert(members_of(ms@) =~= seq![
            ("jsonrpc"@, Json::<N>::Str(j)),
            ("id"@, Json::UInt(self.id)),
            ("method"@, Json::Str(m)),
            ("params"@, p),
        ]);
        proof {
            lemma_object_content(ms);
        }
        JsonValue::Object(ms)
    }
}

/// What the reply to JSON-RPC call `method` means: an `error` member, whatever
/// else the reply holds, fails the call with the error's message (or
/// `unknown error` where it has no string message); otherwise the call gives
/// the `result` member, or null where there is none.
pub fn rpc_reply<N>(method: &str, reply: JsonValue<N>) -> (r: Result<JsonValue<N>, String>)
    ensures
        match object_get(reply, "error"@) {
            Some(e) => r matches Err(m) && m@ == method@ + ": "@ + match object_get_str(
                e,
                "message"@,
            ) {
                Some(s) => s,
                None => "unknown error"@,
            },
            None => r matches Ok(v) && v == match object_get(reply, "result"@) {
                Some(x) => x,
                None => JsonValue::Null,
            },
        },
{
    match member(&reply, "error") {
        Some(e) => {
            let msg = member_str(e, "message");
            let text = match &msg {
                Some(m) => Some(m.as_str()),
                None => None,
            };
            return Err(rpc_error_message(method, text));
        },
        None => {},
    }
    match reply {
        JsonValue::Object(ms) => {
            let mut ms = ms;
            match crate::json::find_member(&ms, "result") {
                Some(i) => {
                    let (_, v) = ms.remove(i);
                    Ok(v)
                },
                None => Ok(JsonValue::Null),
            }
        },
        _ => Ok(JsonValue::Null),
    }
}

/// The node at `/choices/0` of a completion result: the first element of the
/// `choices` array, or the member `0` of a `choices` object.
pub open spec fn first_choice<N>(result: JsonValue<N>) -> Option<JsonValue<N>> {
    match object_get(result, "choices"@) {
        Some(JsonValue::Array(xs)) => if xs@.len() > 0 {
            Some(xs@[0])
        } else {
            None
        },
        Some(c) => object_get(c, "0"@),
        None => None,
    }
}

/// The text at `/choices/0/content` of a completion result, or empty text.
pub open spec fn probe_content<N>(result: JsonValue<N>) -> Seq<char> {
    match first_choice(result) {
        Some(c) => match object_get_str(c, "content"@) {
            Some(s) => s,
            None => Seq::empty(),
        },
        None => Seq::empty(),
    }
}

/// The count under `key` of a completion result, 0 where it is missing or
/// not an integer within `u64`.
pub open spec fn count_or_zero<N>(result: JsonValue<N>, key: Seq<char>) -> u64 {
    match object_get_u64(result, key) {
        Some(n) => n,
        None => 0,
    }
}

/// What the console reads from the result of its `llm.complete` probe.
pub struct ProbeReply {
    pub model: Option<String>,
    pub content: String,
    pub prompt_tokens: u64,
    pub completion_tokens: u64,
    pub total_tokens: u64,
}

fn choice_content<N>(result: &JsonValue<N>) -> (r: String)
    ensures
        r@ == probe_content(*result),
{
    let first: Option<&JsonValue<N>> = match member(result, "choices") {
        Some(c) => match c {
            JsonValue::Array(xs) => if xs.len() > 0 {
                Some(&xs[0])
            } else {
                None
            },
            _ => member(c, "0"),
        },
        None => None,
    };
    match first {
        Some(c) => match member_str(c, "content") {
            Some(s) => s,
            None => String::new(),
        },
        None => String::new(),
    }
}

fn count_value<N>(result: &JsonValue<N>, key: &str) -> (r: u64)
    ensures
        r == count_or_zero(*result, key@),
{
    match member_u64(result, key) {
        Some(n) => n,
        None => 0,
    }
}

/// Reads the probe's result: the model that answered where it is a string,
/// the answer text, and the token counts, each 0 where it is missing.
pub fn probe_reply<N>(result: &JsonValue<N>) -> (r: ProbeReply)
    ensures
        opt_view(r.model) == object_get_str(*result, "model"@),
        r.content@ == probe_content(*result),
        r.prompt_tokens == count_or_zero(*result, "prompt_tokens"@),
        r.completion_tokens == count_or_zero(*result, "completion_tokens"@),
        r.total_tokens == count_or_zero(*result, "total_tokens"@),
{
    ProbeReply {
        model: member_str(result, "model"),
        content: choice_content(result),
        prompt_tokens: count_value(result, "prompt_tokens"),
        completion_tokens: count_value(result, "completion_tokens"),
        total_tokens: count_value(result, "total_tokens"),
    }
}

/// The answer of the gateway's health endpoint.
pub struct HealthResponse {
    pub status: String,
    pub version: Option<String>,
}

impl HealthResponse {
    /// The line that reports a healthy gateway: its status and version.
    pub fn summary(&self) -> (r: String)
        ensures
            r@ == "Gateway: "@ + self.status@ + " (v"@ + match self.version {
                Some(v) => v@,
                None => "unknown"@,
            } + ")"@,
    {
        let mut r = owned("Gateway: ");
        push_str(&mut r, self.status.as_str());
        push_str(&mut r, " (v");
        match &self.version {
            Some(v) => push_str(&mut r, v.as_str()),
            None => push_str(&mut r, "unknown"),
        }
        push_str(&mut r, ")");
        r
    }
}

proof fn lemma_strip_no_trailing(s: Seq<char>)
    ensures
        ({
            let t = strip_trailing_slashes(s);
            t.len() == 0 || t.last() != '/'
        }),
    decreases s.len(),
{
    if s.len() > 0 && s.last() == '/' {
        lemma_strip_no_trailing(s.drop_last());
    }
}

/// A normalized base URL has no trailing slash, and normalizing it again
/// changes nothing.
pub proof fn law_base_url_normal_form(s: Seq<char>)
    ensures
        ({
            let t = strip_trailing_slashes(s);
            &&& t.len() == 0 || t.last() != '/'
            &&& strip_trailing_slashes(t) == t
        }),
{
    lemma_strip_no_trailing(s);
}

} // verus!
