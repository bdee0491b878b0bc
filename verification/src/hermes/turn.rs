//! One request's real life cycle in Hermes:
//!
//! 1. `session.create {title}` answers `{session_id, ...}`;
//! 2. `prompt.submit {session_id, text}` answers an object: the turn began;
//! 3. a `message.complete` event on the same socket carries
//!    `payload.status`: `complete`, `error` or `interrupted`.
//!
//! Cancelling before the turn began is `session.interrupt {session_id}`.
//! The completion event may reach the socket before the reply to
//! `prompt.submit`; such an event is kept and ends the turn once the ledger
//! has been told it began.
//! This module is the one place that knows these names; the ledger only sees
//! an [`Outcome`]. The socket work is the caller's: it performs each action
//! [`turn_step`] returns and hands back what happened.
use vstd::prelude::*;

use crate::error::CoreError;
use crate::hermes::rpc::{event_payload, event_payload_spec, short_spec, short_text};
use crate::json::{json_get, json_member, json_wf, lemma_member_wf, Json};

verus! {

/// Creates a session.
pub const SESSION_CREATE: &'static str = "session.create";

/// Submits the prompt of a turn.
pub const PROMPT_SUBMIT: &'static str = "prompt.submit";

/// Interrupts a running turn.
pub const SESSION_INTERRUPT: &'static str = "session.interrupt";

/// The event that ends a turn.
pub const MESSAGE_COMPLETE: &'static str = "message.complete";

/// The longest a turn may run, in seconds; past it the job ends as a
/// timeout instead of running forever.
pub const TURN_TIMEOUT_SECS: u64 = 20 * 60;

/// The result of a turn as Hermes reported it: the only shape that reaches
/// the job ledger.
#[derive(Debug, Clone, PartialEq, Eq)]
pub enum Outcome {
    Completed,
    /// Hermes's short error text and the class it declared explicitly.
    Failed { code: &'static str, message: String },
    Cancelled,
}

impl Outcome {
    /// A failure that declared no error class (an old or broken reply).
    pub fn failed(message: String) -> (o: Outcome)
        ensures
            o matches Outcome::Failed { code, message: m } && code@ == "hermes_failed"@ && m
                == message,
    {
        Outcome::Failed { code: "hermes_failed", message }
    }
}

/// The error class of a failed turn, from the explicit
/// `error_surface.layer`; no guessing from the error text.
pub open spec fn failure_code_spec(payload: Json) -> Seq<char> {
    let layer = match json_get(payload, "error_surface"@) {
        Some(s) => json_get(s, "layer"@),
        None => None,
    };
    match layer {
        Some(Json::Str(l)) => if l@ == "billing"@ {
            "provider_billing"@
        } else if l@ == "auth"@ {
            "provider_auth"@
        } else if l@ == "provider"@ {
            "provider_failed"@
        } else if l@ == "endpoint"@ {
            "provider_endpoint"@
        } else if l@ == "streaming"@ {
            "provider_streaming"@
        } else if l@ == "disk"@ {
            "host_disk_full"@
        } else {
            "hermes_failed"@
        },
        _ => "hermes_failed"@,
    }
}

/// The error class of a failed turn.
pub fn failure_code(payload: &Json) -> (c: &'static str)
    requires
        json_wf(*payload),
    ensures
        c@ == failure_code_spec(*payload),
{
    proof {
        reveal_strlit("error_surface");
        reveal_strlit("layer");
    }
    let surface = match json_member(payload, "error_surface") {
        Some(s) => s,
        None => {
            return "hermes_failed";
        },
    };
    proof {
        let es = payload->Object_0;
        let k = choose|k: int| 0 <= k < es@.len() && es@[k].0@ == "error_surface"@;
        assert(json_wf(es@[k].1));
    }
    match json_member(surface, "layer") {
        Some(Json::Str(l)) => {
            let v = crate::text::chars_of(l.as_str());
            if crate::vault::note::eq_str(&v, "billing") {
                "provider_billing"
            } else if crate::vault::note::eq_str(&v, "auth") {
                "provider_auth"
            } else if crate::vault::note::eq_str(&v, "provider") {
                "provider_failed"
            } else if crate::vault::note::eq_str(&v, "endpoint") {
                "provider_endpoint"
            } else if crate::vault::note::eq_str(&v, "streaming") {
                "provider_streaming"
            } else if crate::vault::note::eq_str(&v, "disk") {
                "host_disk_full"
            } else {
                "hermes_failed"
            }
        },
        _ => "hermes_failed",
    }
}

/// The outcome a `message.complete` payload reports. An unknown status is
/// not made up into one: it is a malformed reply.
pub open spec fn outcome_ok(payload: Json, r: Result<Outcome, CoreError>) -> bool {
    match json_get(payload, "status"@) {
        Some(Json::Str(s)) => if s@ == "complete"@ {
            r == Ok::<Outcome, CoreError>(Outcome::Completed)
        } else if s@ == "interrupted"@ {
            r == Ok::<Outcome, CoreError>(Outcome::Cancelled)
        } else if s@ == "error"@ {
            r matches Ok(Outcome::Failed { code, message }) && code@ == failure_code_spec(payload)
                && message@ == short_spec(json_get(payload, "text"@), "Hermes işi tamamlayamadı."@)
        } else {
            r == Err::<Outcome, CoreError>(CoreError::HermesMalformed)
        },
        _ => r == Err::<Outcome, CoreError>(CoreError::HermesMalformed),
    }
}

/// Reads the outcome of a turn from its `message.complete` payload.
pub fn outcome_of(payload: &Json) -> (r: Result<Outcome, CoreError>)
    requires
        json_wf(*payload),
    ensures
        outcome_ok(*payload, r),
{
    proof {
        reveal_strlit("status");
        reveal_strlit("text");
    }
    match json_member(payload, "status") {
        Some(Json::Str(s)) => {
            let v = crate::text::chars_of(s.as_str());
            if crate::vault::note::eq_str(&v, "complete") {
                Ok(Outcome::Completed)
            } else if crate::vault::note::eq_str(&v, "interrupted") {
                Ok(Outcome::Cancelled)
            } else if crate::vault::note::eq_str(&v, "error") {
                Ok(
                    Outcome::Failed {
                        code: failure_code(payload),
                        message: short_text(json_member(payload, "text"), "Hermes işi tamamlayamadı."),
                    },
                )
            } else {
                Err(CoreError::HermesMalformed)
            }
        },
        _ => Err(CoreError::HermesMalformed),
    }
}

// ---------------------------------------------------------------------------
// The turn as a sequence of steps
// ---------------------------------------------------------------------------

/// Where a turn stands.
#[derive(Debug)]
pub enum TurnState {
    /// `session.create` was sent; the prompt waits.
    Creating { prompt: String },
    /// `prompt.submit` was sent for this session. `early` holds the outcome
    /// of a completion event that arrived before the reply.
    Submitting { session_id: String, early: Option<Result<Outcome, CoreError>> },
    /// Hermes accepted the prompt; the ledger is being told.
    Starting { session_id: String, early: Option<Result<Outcome, CoreError>> },
    /// The turn runs; its completion event is awaited.
    Waiting { session_id: String },
    /// The turn is over.
    Finished,
}

/// What happened since the last action.
#[derive(Debug)]
pub enum TurnEvent {
    /// The reply to the last call.
    Reply(Json),
    /// A frame that arrived while the last call waited for its reply, and
    /// was not that reply (reported before the reply itself).
    Noticed(Json),
    /// Whether the ledger still wanted the job when Hermes accepted it.
    Started(bool),
    /// The `message.complete` payload of the session.
    Completion(Json),
    /// The socket failed (unreachable, timeout, refusal).
    Failed(CoreError),
}

/// What to do next.
#[derive(Debug)]
pub enum TurnAction {
    /// Make a JSON-RPC call and report its reply.
    Call { method: &'static str, params: Json },
    /// Tell the ledger the turn began for this session, and report whether
    /// the job is still wanted.
    Started { session_id: String },
    /// Wait (at most the turn timeout) for the session's completion event.
    AwaitCompletion { session_id: String },
    /// Interrupt the session (its reply does not matter), then finish with
    /// `Cancelled`.
    Interrupt { params: Json },
    /// The turn's result.
    Finish(Result<Outcome, CoreError>),
    /// Nothing to do: hand over the next event already at hand.
    Resume,
}

/// `{key: value}` with one string member.
pub open spec fn single_str(j: Json, key: Seq<char>, value: Seq<char>) -> bool {
    &&& j matches Json::Object(es)
    &&& j->Object_0@.len() == 1
    &&& j->Object_0@[0].0@ == key
    &&& j->Object_0@[0].1 matches Json::Str(v)
    &&& j->Object_0@[0].1->Str_0@ == value
}

fn single(key: &str, value: String) -> (j: Json)
    ensures
        single_str(j, key@, value@),
{
    Json::Object(vec![(String::from_str(key), Json::Str(value))])
}

/// The session id a `session.create` reply carries, non-empty.
pub open spec fn session_id_spec(reply: Json) -> Option<Seq<char>> {
    match json_get(reply, "session_id"@) {
        Some(Json::Str(s)) => if s@.len() > 0 {
            Some(s@)
        } else {
            None
        },
        _ => None,
    }
}

fn session_id_of(reply: &Json) -> (r: Option<String>)
    requires
        json_wf(*reply),
    ensures
        match r {
            Some(s) => session_id_spec(*reply) == Some(s@),
            None => session_id_spec(*reply) is None,
        },
{
    proof {
        reveal_strlit("session_id");
    }
    match json_member(reply, "session_id") {
        Some(Json::Str(s)) => {
            if crate::text::chars_of(s.as_str()).len() > 0 {
                Some(s.clone())
            } else {
                None
            }
        },
        _ => None,
    }
}

/// Starts a turn: create the session.
pub fn turn_begin(title: &str, prompt: String) -> (r: (TurnState, TurnAction))
    ensures
        r.0 == (TurnState::Creating { prompt }),
        r.1 matches TurnAction::Call { method, params } && method@ == "session.create"@
            && single_str(params, "title"@, title@),
{
    proof {
        reveal_strlit("session.create");
    }
    (
        TurnState::Creating { prompt },
        TurnAction::Call { method: SESSION_CREATE, params: single("title", String::from_str(title)) },
    )
}

/// The state after `session.create` answered with `id`.
pub open spec fn submitting_ok(s: TurnState, id: Seq<char>) -> bool {
    &&& s matches TurnState::Submitting { session_id, early }
    &&& s->Submitting_session_id@ == id
    &&& s->Submitting_early is None
}

/// What a frame seen while `prompt.submit` waits does to the early outcome:
/// the first completion event of the session is kept, with its outcome.
pub open spec fn early_ok(
    early: Option<Result<Outcome, CoreError>>,
    id: Seq<char>,
    frame: Json,
    next: Option<Result<Outcome, CoreError>>,
) -> bool {
    match early {
        Some(o) => next == Some(o),
        None => match event_payload_spec(frame, id, "message.complete"@) {
            Some(p) => next is Some && outcome_ok(p, next->0),
            None => next is None,
        },
    }
}

/// `prompt.submit {session_id, text}`.
pub open spec fn submit_call_ok(a: TurnAction, id: Seq<char>, prompt: Seq<char>) -> bool {
    &&& a matches TurnAction::Call { method, params }
    &&& a->Call_method@ == "prompt.submit"@
    &&& a->Call_params matches Json::Object(es)
    &&& a->Call_params->Object_0@.len() == 2
    &&& a->Call_params->Object_0@[0].0@ == "session_id"@
    &&& a->Call_params->Object_0@[0].1 == Json::Str(a->Call_params->Object_0@[0].1->Str_0)
    &&& a->Call_params->Object_0@[0].1->Str_0@ == id
    &&& a->Call_params->Object_0@[1].0@ == "text"@
    &&& a->Call_params->Object_0@[1].1 == Json::Str(a->Call_params->Object_0@[1].1->Str_0)
    &&& a->Call_params->Object_0@[1].1->Str_0@ == prompt
}

/// `session.interrupt {session_id}` before finishing as cancelled.
pub open spec fn interrupt_ok(a: TurnAction, id: Seq<char>) -> bool {
    &&& a matches TurnAction::Interrupt { params }
    &&& single_str(a->Interrupt_params, "session_id"@, id)
}

/// The turn finishes with the outcome its payload reports.
pub open spec fn finish_ok(a: TurnAction, payload: Json) -> bool {
    &&& a matches TurnAction::Finish(o)
    &&& outcome_ok(payload, a->Finish_0)
}

/// One step of a turn: what the state and what just happened give.
pub open spec fn turn_step_ok(state: TurnState, event: TurnEvent, r: (TurnState, TurnAction)) -> bool {
    match event {
        TurnEvent::Failed(e) => r.0 == TurnState::Finished && r.1 == TurnAction::Finish(Err(e)),
        TurnEvent::Noticed(f) => r.1 == TurnAction::Resume && match state {
            TurnState::Submitting { session_id, early } => {
                &&& r.0 matches TurnState::Submitting { session_id: s2, early: e2 }
                &&& r.0->Submitting_session_id == session_id
                &&& early_ok(early, session_id@, f, r.0->Submitting_early)
            },
            _ => r.0 == state,
        },
        _ => match state {
            TurnState::Creating { prompt } => match event {
                TurnEvent::Reply(v) => match session_id_spec(v) {
                    Some(id) => submitting_ok(r.0, id) && submit_call_ok(r.1, id, prompt@),
                    None => r.0 == TurnState::Finished && r.1 == TurnAction::Finish(
                        Err(CoreError::HermesMalformed),
                    ),
                },
                _ => r.0 == TurnState::Finished && r.1 == TurnAction::Finish(
                    Err(CoreError::HermesMalformed),
                ),
            },
            TurnState::Submitting { session_id, early } => match event {
                TurnEvent::Reply(v) => if v is Object {
                    r.0 == (TurnState::Starting { session_id, early }) && r.1 == (
                    TurnAction::Started { session_id })
                } else {
                    r.0 == TurnState::Finished && r.1 == TurnAction::Finish(
                        Err(CoreError::HermesMalformed),
                    )
                },
                _ => r.0 == TurnState::Finished && r.1 == TurnAction::Finish(
                    Err(CoreError::HermesMalformed),
                ),
            },
            TurnState::Starting { session_id, early } => match event {
                TurnEvent::Started(true) => match early {
                    Some(o) => r.0 == TurnState::Finished && r.1 == TurnAction::Finish(o),
                    None => r.0 == (TurnState::Waiting { session_id }) && r.1 == (
                    TurnAction::AwaitCompletion { session_id }),
                },
                TurnEvent::Started(false) => r.0 == TurnState::Finished && interrupt_ok(
                    r.1,
                    session_id@,
                ),
                _ => r.0 == TurnState::Finished && r.1 == TurnAction::Finish(
                    Err(CoreError::HermesMalformed),
                ),
            },
            TurnState::Waiting { session_id } => match event {
                TurnEvent::Completion(p) => r.0 == TurnState::Finished && finish_ok(r.1, p),
                _ => r.0 == TurnState::Finished && r.1 == TurnAction::Finish(
                    Err(CoreError::HermesMalformed),
                ),
            },
            TurnState::Finished => r.0 == TurnState::Finished && r.1 == TurnAction::Finish(
                Err(CoreError::HermesMalformed),
            ),
        },
    }
}

/// JSON read from Hermes is well formed.
pub open spec fn event_wf(e: TurnEvent) -> bool {
    match e {
        TurnEvent::Reply(v) => json_wf(v),
        TurnEvent::Noticed(v) => json_wf(v),
        TurnEvent::Completion(v) => json_wf(v),
        _ => true,
    }
}

/// A frame seen while a call waited: while `prompt.submit` waits, the
/// session's first completion event is kept; otherwise nothing changes.
fn noticed(state: TurnState, frame: &Json) -> (r: TurnState)
    requires
        json_wf(*frame),
    ensures
        match state {
            TurnState::Submitting { session_id, early } => {
                &&& r matches TurnState::Submitting { session_id: s2, early: e2 }
                &&& r->Submitting_session_id == session_id
                &&& early_ok(early, session_id@, *frame, r->Submitting_early)
            },
            _ => r == state,
        },
{
    proof {
        reveal_strlit("message.complete");
        reveal_strlit("params");
        reveal_strlit("payload");
    }
    match state {
        TurnState::Submitting { session_id, early } => {
            let early = match early {
                Some(o) => Some(o),
                None => match event_payload(frame, session_id.as_str(), MESSAGE_COMPLETE) {
                    Some(p) => {
                        proof {
                            lemma_member_wf(*frame, "params"@);
                            lemma_member_wf(json_get(*frame, "params"@)->0, "payload"@);
                        }
                        Some(outcome_of(p))
                    },
                    None => None,
                },
            };
            TurnState::Submitting { session_id, early }
        },
        other => other,
    }
}

/// Advances a turn by one event.
pub fn turn_step(state: TurnState, event: TurnEvent) -> (r: (TurnState, TurnAction))
    requires
        event_wf(event),
    ensures
        turn_step_ok(state, event, r),
{
    proof {
        reveal_strlit("prompt.submit");
        reveal_strlit("session_id");
        reveal_strlit("text");
    }
    let malformed = (TurnState::Finished, TurnAction::Finish(Err(CoreError::HermesMalformed)));
    if let TurnEvent::Failed(e) = event {
        return (TurnState::Finished, TurnAction::Finish(Err(e)));
    }
    if let TurnEvent::Noticed(f) = event {
        return (noticed(state, &f), TurnAction::Resume);
    }
    match state {
        TurnState::Creating { prompt } => match event {
            TurnEvent::Reply(v) => match session_id_of(&v) {
                Some(id) => {
                    let params = Json::Object(
                        vec![
                            (String::from_str("session_id"), Json::Str(id.clone())),
                            (String::from_str("text"), Json::Str(prompt)),
                        ],
                    );
                    (
                        TurnState::Submitting { session_id: id, early: None },
                        TurnAction::Call { method: PROMPT_SUBMIT, params },
                    )
                },
                None => malformed,
            },
            _ => malformed,
        },
        TurnState::Submitting { session_id, early } => match event {
            TurnEvent::Reply(v) => match v {
                Json::Object(_) => {
                    let s2 = session_id.clone();
                    (TurnState::Starting { session_id, early }, TurnAction::Started { session_id: s2 })
                },
                _ => malformed,
            },
            _ => malformed,
        },
        TurnState::Starting { session_id, early } => match event {
            TurnEvent::Started(true) => match early {
                Some(o) => (TurnState::Finished, TurnAction::Finish(o)),
                None => {
                    let s2 = session_id.clone();
                    (TurnState::Waiting { session_id }, TurnAction::AwaitCompletion { session_id: s2 })
                },
            },
            TurnEvent::Started(false) => (
                TurnState::Finished,
                TurnAction::Interrupt { params: single("session_id", session_id) },
            ),
            _ => malformed,
        },
        TurnState::Waiting { session_id: _ } => match event {
            TurnEvent::Completion(p) => (TurnState::Finished, TurnAction::Finish(outcome_of(&p))),
            _ => malformed,
        },
        TurnState::Finished => malformed,
    }
}

} // verus!
