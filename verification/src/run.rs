//! Running an agent: session ids, the interactive prompt, the run summary.
use vstd::prelude::*;

use crate::text::{
    decimal, eq_ascii_ci, eq_ignore_ascii_case, has_prefix, hex_lower, lemma_hex_lower_injective, owned,
    push_decimal, push_hex, push_str, trim, trimmed,
};

verus! {

/// The session id made from a time of `ms` milliseconds since the Unix epoch.
pub open spec fn session_id_text(ms: nat) -> Seq<char> {
    "sess_cli_"@ + hex_lower(ms)
}

/// The standard library's wall-clock time, carried through opaque.
#[verifier::external_type_specification]
#[verifier::external_body]
pub struct ExSystemTime(std::time::SystemTime);

/// `SystemTime::now`: the current time. Nothing is promised of it.
#[verifier::external_body]
fn system_time_now() -> std::time::SystemTime {
    std::time::SystemTime::now()
}

/// `SystemTime::duration_since(UNIX_EPOCH)`: the time elapsed since the Unix
/// epoch, or `None` when `t` lies before it. Nothing is promised of the value.
#[verifier::external_body]
fn elapsed_since_epoch(t: &std::time::SystemTime) -> Option<std::time::Duration> {
    t.duration_since(std::time::UNIX_EPOCH).ok()
}

/// `Duration::as_millis`: the whole milliseconds in `d`. `Duration` is opaque
/// here, so nothing is promised of the value.
#[verifier::external_body]
fn duration_millis(d: &std::time::Duration) -> u128 {
    d.as_millis()
}

/// Reads the clock: milliseconds since the Unix epoch, or `None` when the
/// clock stands before the epoch.
fn clock_millis() -> Option<u128> {
    let now = system_time_now();
    match elapsed_since_epoch(&now) {
        Some(d) => Some(duration_millis(&d)),
        None => None,
    }
}

/// The time a clock reading stands for: a clock before the epoch counts as 0.
pub open spec fn reading_millis(reading: Option<u128>) -> nat {
    match reading {
        Some(ms) => ms as nat,
        None => 0,
    }
}

/// The session id for time `ms`: `sess_cli_` and `ms` in lower-case hexadecimal.
pub fn session_id_at(ms: u128) -> (r: String)
    ensures
        r@ == session_id_text(ms as nat),
{
    let mut r = owned("sess_cli_");
    push_hex(&mut r, ms);
    r
}

/// The session id for a clock reading: `None` (a clock before the epoch)
/// counts as 0 milliseconds.
pub fn session_id_from_clock(reading: Option<u128>) -> (r: String)
    ensures
        r@ == session_id_text(reading_millis(reading)),
{
    let ms: u128 = match reading {
        Some(ms) => ms,
        None => 0,
    };
    session_id_at(ms)
}

/// A new session id from the current time. Which reading the clock gives is
/// not known here; whatever it gives, the id is the one for that reading.
pub fn new_session_id() -> (r: String)
    ensures
        exists|reading: Option<u128>| r@ == session_id_text(reading_millis(reading)),
{
    let reading = clock_millis();
    let r = session_id_from_clock(reading);
    assert(r@ == session_id_text(reading_millis(reading)));
    r
}

/// Every session id the console makes carries the `sess_` prefix that the
/// engine requires of caller-supplied ids.
pub proof fn law_session_id_prefix(ms: nat)
    ensures
        has_prefix(session_id_text(ms), "sess_"@),
{
    reveal_strlit("sess_cli_");
    reveal_strlit("sess_");
    assert(session_id_text(ms).subrange(0, 5) =~= "sess_"@);
}

/// Distinct clock readings give distinct session ids: the id depends on the
/// milliseconds alone, and on all of them.
pub proof fn law_distinct_millis_distinct_ids(a: nat, b: nat)
    requires
        a != b,
    ensures
        session_id_text(a) != session_id_text(b),
{
    if session_id_text(a) == session_id_text(b) {
        let p = "sess_cli_"@;
        assert(session_id_text(a).skip(p.len() as int) =~= hex_lower(a));
        assert(session_id_text(b).skip(p.len() as int) =~= hex_lower(b));
        lemma_hex_lower_injective(a, b);
    }
}

/// What the interactive loop does with a line typed by the user.
pub enum InputAction {
    /// The line is blank: ask again.
    Skip,
    /// The user asked to leave.
    Exit,
    /// Send this prompt.
    Send(String),
}

/// What the interactive loop does with `line`.
pub open spec fn input_action_of(line: Seq<char>) -> Option<Option<Seq<char>>> {
    let t = trim(line);
    if t.len() == 0 {
        None
    } else if eq_ascii_ci(t, "exit"@) || eq_ascii_ci(t, "quit"@) {
        Some(None)
    } else {
        Some(Some(t))
    }
}

/// Classifies a typed line: blank lines are skipped, `exit` and `quit` in any
/// ASCII case end the session, anything else is sent trimmed.
pub fn classify_input(line: &str) -> (r: InputAction)
    ensures
        match input_action_of(line@) {
            None => r is Skip,
            Some(None) => r is Exit,
            Some(Some(t)) => r matches InputAction::Send(p) && p@ == t,
        },
{
    let t = trimmed(line);
    if t.as_str().is_empty() {
        InputAction::Skip
    } else if eq_ignore_ascii_case(t.as_str(), "exit") || eq_ignore_ascii_case(t.as_str(), "quit") {
        InputAction::Exit
    } else {
        InputAction::Send(t)
    }
}

/// The summary line of a run: tokens if known, cost if known (as already
/// formatted), and the session, separated by ` | `.
pub open spec fn run_meta_text(
    tokens: Option<u64>,
    cost: Option<Seq<char>>,
    session_id: Seq<char>,
) -> Seq<char> {
    let t = match tokens {
        Some(n) => "Tokens: "@ + decimal(n as nat) + " | "@,
        None => Seq::empty(),
    };
    let c = match cost {
        Some(x) => "Cost: $"@ + x + " | "@,
        None => Seq::empty(),
    };
    t + c + "Session: "@ + session_id
}

/// The summary line of a run.
pub fn run_meta(tokens: Option<u64>, cost: Option<&str>, session_id: &str) -> (r: String)
    ensures
        r@ == run_meta_text(
            tokens,
            match cost {
                Some(c) => Some(c@),
                None => None,
            },
            session_id@,
        ),
{
    let mut r = String::new();
    match tokens {
        Some(n) => {
            push_str(&mut r, "Tokens: ");
            push_decimal(&mut r, n);
            push_str(&mut r, " | ");
        },
        None => {},
    }
    match cost {
        Some(c) => {
            push_str(&mut r, "Cost: $");
            push_str(&mut r, c);
            push_str(&mut r, " | ");
        },
        None => {},
    }
    push_str(&mut r, "Session: ");
    push_str(&mut r, session_id);
    r
}

/// The run summary always ends with the session; a known cost stands right
/// before it, whether or not the tokens are known; known tokens open the line.
pub proof fn law_run_meta_parts(tokens: Option<u64>, cost: Option<Seq<char>>, session_id: Seq<char>)
    ensures
        ({
            let t = run_meta_text(tokens, cost, session_id);
            let tail = match cost {
                Some(c) => "Cost: $"@ + c + " | Session: "@ + session_id,
                None => "Session: "@ + session_id,
            };
            &&& t.len() >= tail.len()
            &&& t.skip(t.len() - tail.len()) == tail
            &&& tokens matches Some(n) ==> t.take(("Tokens: "@ + decimal(n as nat) + " | "@).len() as int)
                == "Tokens: "@ + decimal(n as nat) + " | "@
            &&& tokens is None && cost is None ==> t == "Session: "@ + session_id
        }),
{
    let t = run_meta_text(tokens, cost, session_id);
    let a = match tokens {
        Some(n) => "Tokens: "@ + decimal(n as nat) + " | "@,
        None => Seq::empty(),
    };
    let tail = match cost {
        Some(c) => "Cost: $"@ + c + " | Session: "@ + session_id,
        None => "Session: "@ + session_id,
    };
    reveal_strlit("Cost: $");
    reveal_strlit(" | ");
    reveal_strlit("Session: ");
    reveal_strlit(" | Session: ");
    assert(t =~= a + tail);
    assert(t.skip(t.len() - tail.len()) =~= tail);
    assert(t.take(a.len() as int) =~= a);
}

} // verus!
