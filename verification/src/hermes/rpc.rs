//! JSON-RPC over Hermes's WebSocket: the connection URL, the request frame,
//! call ids, and how each frame read back is judged. Opening the socket,
//! sending and reading frames is the caller's part; this module decides.
use vstd::prelude::*;

use crate::error::CoreError;
use crate::json::{get, json_get, json_wf, keys_unique, obj_get, Json};
use crate::text::{chars_of, dec, lines, push_char, push_dec, push_str, trim};
use vstd::string::StringSliceAdditionalSpecFns;

verus! {

/// The most frames read while waiting for one reply: a misbehaving server
/// cannot keep the caller forever.
pub const MAX_FRAMES: usize = 64;

/// The longest error message kept from Hermes, in characters.
pub const MESSAGE_CHARS: usize = 200;

/// A byte that stays as it is in a query parameter.
pub open spec fn unreserved(b: u8) -> bool {
    (65 <= b && b <= 90) || (97 <= b && b <= 122) || (48 <= b && b <= 57) || b == 45 || b == 46
        || b == 95 || b == 126
}

/// An upper-case hexadecimal digit.
pub open spec fn hex_upper(d: nat) -> char {
    if d < 10 {
        (48 + d) as char
    } else {
        (55 + d) as char
    }
}

/// Percent-encoding of bytes: unreserved bytes as they are, every other
/// byte as `%XX`.
pub open spec fn percent_encode(bytes: Seq<u8>) -> Seq<char>
    decreases bytes.len(),
{
    if bytes.len() == 0 {
        Seq::empty()
    } else {
        let b = bytes.last();
        percent_encode(bytes.drop_last()) + if unreserved(b) {
            seq![b as char]
        } else {
            seq!['%', hex_upper((b / 16) as nat), hex_upper((b % 16) as nat)]
        }
    }
}

fn hex_upper_exec(d: u8) -> (c: char)
    requires
        d < 16,
    ensures
        c == hex_upper(d as nat),
{
    if d < 10 {
        (48u8 + d) as char
    } else {
        (55u8 + d) as char
    }
}

/// Percent-encodes a value for a query parameter. Nothing is assumed of
/// the token's alphabet: only `A-Z a-z 0-9 - . _ ~` stay as they are.
pub fn urlencode(value: &str) -> (s: String)
    ensures
        s@ == percent_encode(value.spec_bytes()),
{
    let bytes = value.as_bytes();
    let mut out = String::new();
    let mut i: usize = 0;
    while i < bytes.len()
        invariant
            i <= bytes@.len(),
            out@ == percent_encode(bytes@.subrange(0, i as int)),
        decreases bytes@.len() - i,
    {
        let b = bytes[i];
        assert(bytes@.subrange(0, i + 1).drop_last() =~= bytes@.subrange(0, i as int));
        if (65 <= b && b <= 90) || (97 <= b && b <= 122) || (48 <= b && b <= 57) || b == 45 || b
            == 46 || b == 95 || b == 126 {
            push_char(&mut out, b as char);
        } else {
            push_char(&mut out, '%');
            push_char(&mut out, hex_upper_exec(b / 16));
            push_char(&mut out, hex_upper_exec(b % 16));
        }
        i += 1;
        assert(out@ =~= percent_encode(bytes@.subrange(0, i as int)));
    }
    assert(bytes@.subrange(0, bytes@.len() as int) =~= bytes@);
    out
}

/// The socket URL for a port and token.
pub fn socket_url(port: u16, token: &str) -> (s: String)
    ensures
        s@ == "ws://127.0.0.1:"@ + dec(port as nat) + "/api/ws?token="@ + percent_encode(
            token.spec_bytes(),
        ),
{
    let mut s = String::from_str("ws://127.0.0.1:");
    push_dec(&mut s, port as u64);
    push_str(&mut s, "/api/ws?token=");
    let t = urlencode(token);
    push_str(&mut s, t.as_str());
    s
}

/// Call ids, unique within one counter: `a1`, `a2`, ...
#[derive(Debug)]
pub struct RequestIds {
    pub next: u64,
}

impl RequestIds {
    /// A counter that starts at `a1`.
    pub fn new() -> (r: RequestIds)
        ensures
            r.next == 1,
    {
        RequestIds { next: 1 }
    }

    /// The next call id.
    pub fn next_id(&mut self) -> (id: String)
        requires
            old(self).next < u64::MAX,
        ensures
            id@ == seq!['a'] + dec(old(self).next as nat),
            final(self).next == old(self).next + 1,
    {
        let mut s = String::new();
        push_char(&mut s, 'a');
        push_dec(&mut s, self.next);
        self.next = self.next + 1;
        s
    }
}

/// Decimal notation tells numbers apart.
pub proof fn lemma_dec_injective(n: nat, m: nat)
    requires
        dec(n) == dec(m),
    ensures
        n == m,
    decreases n,
{
    if n < 10 && m >= 10 {
        assert(dec(m).len() >= 2) by {
            lemma_dec_nonempty(m / 10);
        }
    } else if n >= 10 && m < 10 {
        assert(dec(n).len() >= 2) by {
            lemma_dec_nonempty(n / 10);
        }
    } else if n >= 10 && m >= 10 {
        assert(dec(n).drop_last() =~= dec(n / 10));
        assert(dec(m).drop_last() =~= dec(m / 10));
        lemma_dec_injective(n / 10, m / 10);
        assert(dec(n) == dec(n / 10).push(crate::text::digit_char(n % 10)));
        assert(dec(m) == dec(m / 10).push(crate::text::digit_char(m % 10)));
        assert(dec(n).last() == crate::text::digit_char(n % 10));
        assert(dec(m).last() == crate::text::digit_char(m % 10));
        lemma_digit_injective(n % 10, m % 10);
    } else {
        assert(dec(n) == seq![crate::text::digit_char(n)]);
        assert(dec(m) == seq![crate::text::digit_char(m)]);
        assert(dec(n)[0] == crate::text::digit_char(n));
        assert(dec(m)[0] == crate::text::digit_char(m));
        lemma_digit_injective(n, m);
    }
}

proof fn lemma_digit_injective(a: nat, b: nat)
    requires
        a < 10,
        b < 10,
        crate::text::digit_char(a) == crate::text::digit_char(b),
    ensures
        a == b,
{
    assert(crate::text::digit_char(a) as u32 == 48 + a);
    assert(crate::text::digit_char(b) as u32 == 48 + b);
}

proof fn lemma_dec_nonempty(n: nat)
    ensures
        dec(n).len() >= 1,
    decreases n,
{
    if n >= 10 {
        lemma_dec_nonempty(n / 10);
    }
}

/// Two ids from one counter are never equal: a later call always gets a
/// different id.
pub proof fn lemma_ids_unique(a: nat, b: nat)
    requires
        a != b,
    ensures
        seq!['a'] + dec(a) != seq!['a'] + dec(b),
{
    if seq!['a'] + dec(a) == seq!['a'] + dec(b) {
        assert((seq!['a'] + dec(a)).subrange(1, (seq!['a'] + dec(a)).len() as int) =~= dec(a));
        assert((seq!['a'] + dec(b)).subrange(1, (seq!['a'] + dec(b)).len() as int) =~= dec(b));
        lemma_dec_injective(a, b);
    }
}

// ---------------------------------------------------------------------------
// Frames
// ---------------------------------------------------------------------------

/// A frame read from the socket: a text frame (with its JSON when it
/// parsed), a close frame, or anything else (ping, pong, binary).
#[derive(Debug)]
pub enum Frame {
    Text(Option<Json>),
    Close,
    Other,
}

/// What a frame means for a pending call.
#[derive(Debug)]
pub enum FrameStep {
    /// Not ours (an event, another call, a broken or control frame): keep
    /// reading.
    Skip,
    /// The reply to our call.
    Reply(Result<Json, CoreError>),
}

/// At most `n` first characters.
pub open spec fn prefix_chars(s: Seq<char>, n: nat) -> Seq<char> {
    if s.len() <= n {
        s
    } else {
        s.subrange(0, n as int)
    }
}

/// The short message of a JSON-RPC error: its `message` (or a default),
/// cut to 200 characters. The error's `data`, which may hold a stack
/// trace, is never read.
pub open spec fn rejected_message(e: Json) -> Seq<char> {
    prefix_chars(
        match json_get(e, "message"@) {
            Some(Json::Str(m)) => m@,
            _ => "Hermes isteği reddetti"@,
        },
        200,
    )
}

/// A frame carries the reply to call `id`: a JSON object whose `id` is
/// that string.
pub open spec fn is_reply_to(v: Json, id: Seq<char>) -> bool {
    json_get(v, "id"@) matches Some(Json::Str(s)) && s@ == id
}

/// The step a frame gives for call `id`.
pub open spec fn frame_step_ok(f: Frame, id: Seq<char>, step: FrameStep) -> bool {
    match f {
        Frame::Close => step == FrameStep::Reply(Err(CoreError::HermesUnreachable)),
        Frame::Other => step == FrameStep::Skip,
        Frame::Text(None) => step == FrameStep::Skip,
        Frame::Text(Some(v)) => if !is_reply_to(v, id) {
            step == FrameStep::Skip
        } else {
            match json_get(v, "error"@) {
                Some(e) => step matches FrameStep::Reply(Err(CoreError::HermesRejected(m)))
                    && m@ == rejected_message(e),
                None => step == FrameStep::Reply(
                    Ok(
                        match json_get(v, "result"@) {
                            Some(r) => r,
                            None => Json::Null,
                        },
                    ),
                ),
            }
        },
    }
}

fn string_prefix(s: &str, n: usize) -> (r: String)
    ensures
        r@ == prefix_chars(s@, n as nat),
{
    let v = chars_of(s);
    if v.len() <= n {
        crate::text::string_of(&v)
    } else {
        crate::text::string_of_range(&v, 0, n)
    }
}

/// The payload of a Hermes event frame
/// `{"method": "event", "params": {"type": .., "session_id": .., "payload": ..}}`
/// when the frame announces `event` for `session_id`; `None` for any other
/// frame (replies, other sessions, other events).
pub open spec fn event_payload_spec(frame: Json, session_id: Seq<char>, event: Seq<char>) -> Option<Json> {
    if json_get(frame, "method"@) matches Some(Json::Str(m)) && m@ == "event"@ {
        match json_get(frame, "params"@) {
            Some(p) => if json_get(p, "type"@) matches Some(Json::Str(t)) && t@ == event {
                if json_get(p, "session_id"@) matches Some(Json::Str(s)) && s@ == session_id {
                    json_get(p, "payload"@)
                } else {
                    None
                }
            } else {
                None
            },
            None => None,
        }
    } else {
        None
    }
}

/// Picks the payload of the awaited event out of a frame.
pub fn event_payload<'a>(frame: &'a Json, session_id: &str, event: &str) -> (r: Option<&'a Json>)
    requires
        json_wf(*frame),
    ensures
        match r {
            Some(p) => event_payload_spec(*frame, session_id@, event@) == Some(*p),
            None => event_payload_spec(*frame, session_id@, event@) is None,
        },
{
    proof {
        reveal_strlit("method");
        reveal_strlit("event");
        reveal_strlit("params");
        reveal_strlit("type");
        reveal_strlit("session_id");
        reveal_strlit("payload");
    }
    let is_event = match crate::json::json_member(frame, "method") {
        Some(Json::Str(m)) => crate::text::same_text(m.as_str(), "event"),
        _ => false,
    };
    if !is_event {
        return None;
    }
    let p = match crate::json::json_member(frame, "params") {
        Some(p) => p,
        None => {
            return None;
        },
    };
    proof {
        crate::json::lemma_member_wf(*frame, "params"@);
    }
    let same_type = match crate::json::json_member(p, "type") {
        Some(Json::Str(t)) => crate::text::same_text(t.as_str(), event),
        _ => false,
    };
    if !same_type {
        return None;
    }
    let same_session = match crate::json::json_member(p, "session_id") {
        Some(Json::Str(s)) => crate::text::same_text(s.as_str(), session_id),
        _ => false,
    };
    if !same_session {
        return None;
    }
    crate::json::json_member(p, "payload")
}

/// Judges one frame read while waiting for the reply to call `request_id`.
pub fn frame_step(frame: Frame, request_id: &str) -> (step: FrameStep)
    requires
        frame matches Frame::Text(Some(v)) ==> json_wf(v),
    ensures
        frame_step_ok(frame, request_id@, step),
{
    let v = match frame {
        Frame::Close => {
            return FrameStep::Reply(Err(CoreError::HermesUnreachable));
        },
        Frame::Other => {
            return FrameStep::Skip;
        },
        Frame::Text(None) => {
            return FrameStep::Skip;
        },
        Frame::Text(Some(v)) => v,
    };
    let ghost v0 = v;
    proof {
        reveal_strlit("id");
        reveal_strlit("error");
        reveal_strlit("message");
        reveal_strlit("result");
    }
    let ours = match crate::json::json_member(&v, "id") {
        Some(Json::Str(s)) => crate::text::same_text(s.as_str(), request_id),
        _ => false,
    };
    if !ours {
        return FrameStep::Skip;
    }
    match crate::json::json_member(&v, "error") {
        Some(e) => {
            proof {
                assert(json_wf(*e)) by {
                    let es0 = v0->Object_0;
                    let k = choose|k: int| 0 <= k < es0@.len() && es0@[k].0@ == "error"@;
                    assert(json_wf(es0@[k].1));
                }
            }
            let es = match e {
                Json::Object(es) => es,
                _ => {
                    return FrameStep::Reply(
                        Err(CoreError::HermesRejected(string_prefix("Hermes isteği reddetti", 200))),
                    );
                },
            };
            let m = match get(es, "message") {
                Some(Json::Str(m)) => string_prefix(m.as_str(), 200),
                _ => string_prefix("Hermes isteği reddetti", 200),
            };
            return FrameStep::Reply(Err(CoreError::HermesRejected(m)));
        },
        None => {},
    }
    let result = match v {
        Json::Object(mut es) => match crate::json::find_key(&es, "result") {
            Some(k) => {
                let ghost es0 = es@;
                proof {
                    let p = choose|p: int| 0 <= p < es0.len() && es0[p].0@ == "result"@;
                    assert(p == k as int);
                }
                let (_, r) = es.remove(k);
                assert(r == es0[k as int].1);
                r
            },
            None => Json::Null,
        },
        _ => Json::Null,
    };
    FrameStep::Reply(Ok(result))
}

/// The request frame of a call, as a JSON object.
pub open spec fn request_spec(id: Seq<char>, method: Seq<char>, params: Json, r: Json) -> bool {
    &&& r matches Json::Object(es)
    &&& r->Object_0@.len() == 4
    &&& r->Object_0@[0].0@ == "jsonrpc"@
    &&& r->Object_0@[0].1 == Json::Str(r->Object_0@[0].1->Str_0) && r->Object_0@[0].1->Str_0@ == "2.0"@
    &&& r->Object_0@[1].0@ == "id"@
    &&& r->Object_0@[1].1 == Json::Str(r->Object_0@[1].1->Str_0) && r->Object_0@[1].1->Str_0@ == id
    &&& r->Object_0@[2].0@ == "method"@
    &&& r->Object_0@[2].1 == Json::Str(r->Object_0@[2].1->Str_0) && r->Object_0@[2].1->Str_0@ == method
    &&& r->Object_0@[3].0@ == "params"@
    &&& r->Object_0@[3].1 == params
}

/// The JSON-RPC 2.0 request for a call.
pub fn rpc_request(id: &str, method: &str, params: Json) -> (r: Json)
    ensures
        request_spec(id@, method@, params, r),
{
    let es = vec![
        (String::from_str("jsonrpc"), Json::Str(String::from_str("2.0"))),
        (String::from_str("id"), Json::Str(String::from_str(id))),
        (String::from_str("method"), Json::Str(String::from_str(method))),
        (String::from_str("params"), params),
    ];
    Json::Object(es)
}

/// The first line of a Hermes text, trimmed and cut to 200 characters;
/// the fallback when there is no such text.
pub open spec fn short_spec(v: Option<Json>, fallback: Seq<char>) -> Seq<char> {
    match v {
        Some(Json::Str(s)) => {
            let ls = lines(s@);
            let first = if ls.len() > 0 {
                trim(ls[0])
            } else {
                Seq::empty()
            };
            if first.len() == 0 {
                fallback
            } else {
                prefix_chars(first, 200)
            }
        },
        _ => fallback,
    }
}

/// A one-line message from a Hermes text field.
pub fn short_text(value: Option<&Json>, fallback: &str) -> (s: String)
    ensures
        s@ == short_spec(
            match value {
                Some(j) => Some(*j),
                None => None,
            },
            fallback@,
        ),
{
    match value {
        Some(Json::Str(t)) => {
            let ls = crate::text::lines_v(&chars_of(t.as_str()));
            let first = if ls.len() > 0 {
                assert(crate::text::views(ls@)[0] == ls@[0]@);
                crate::text::trim_v(&ls[0])
            } else {
                Vec::new()
            };
            if first.len() == 0 {
                String::from_str(fallback)
            } else if first.len() <= 200 {
                crate::text::string_of(&first)
            } else {
                crate::text::string_of_range(&first, 0, 200)
            }
        },
        _ => String::from_str(fallback),
    }
}

} // verus!
