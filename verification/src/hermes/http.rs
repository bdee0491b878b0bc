//! The little HTTP that health polling needs: the request text, and how a
//! response is cut into head and body and reduced to the JSON text it
//! carries. Connecting, sending and reading (at most `MAX_RESPONSE` bytes)
//! is the caller's part.
use vstd::prelude::*;

use crate::text::{
    chars_of, find, find_v, has_prefix, lead_ws, push_str, starts_with_v, string_of_range,
    trim_start,
};

verus! {

/// The most bytes read from a response: a misbehaving server cannot fill
/// memory.
pub const MAX_RESPONSE: u64 = 512 * 1024;

/// Head and body of a response, split at the first empty line.
pub open spec fn split_http_spec(text: Seq<char>) -> Option<(Seq<char>, Seq<char>)> {
    match find(text, "\r\n\r\n"@) {
        Some(i) => Some((text.subrange(0, i), text.subrange(i + 4, text.len() as int))),
        None => None,
    }
}

/// Splits a response into head and body.
pub fn split_http(text: &str) -> (r: Option<(String, String)>)
    ensures
        match r {
            Some((h, b)) => split_http_spec(text@) == Some((h@, b@)),
            None => split_http_spec(text@) is None,
        },
{
    let v = chars_of(text);
    let sep = vec!['\r', '\n', '\r', '\n'];
    proof {
        reveal_strlit("\r\n\r\n");
    }
    assert(sep@ =~= "\r\n\r\n"@);
    match find_v(&v, &sep) {
        Some(i) => {
            proof {
                crate::vault::links::lemma_find_bounds(v@, sep@, 0);
            }
            Some((string_of_range(&v, 0, i), string_of_range(&v, i + 4, v.len())))
        },
        None => None,
    }
}

/// A `200` status line on HTTP/1.1 or HTTP/1.0.
pub open spec fn status_ok_spec(head: Seq<char>) -> bool {
    has_prefix(head, "HTTP/1.1 200"@) || has_prefix(head, "HTTP/1.0 200"@)
}

/// Index of the first `{` or `[`.
pub open spec fn first_open(s: Seq<char>, i: int) -> Option<int>
    decreases s.len() - i,
{
    if i < 0 || i >= s.len() {
        None
    } else if s[i] == '{' || s[i] == '[' {
        Some(i)
    } else {
        first_open(s, i + 1)
    }
}

/// Index of the last `c` before `j`.
pub open spec fn last_of(s: Seq<char>, c: char, j: int) -> Option<int>
    decreases j,
{
    if j <= 0 || j > s.len() {
        None
    } else if s[j - 1] == c {
        Some(j - 1)
    } else {
        last_of(s, c, j - 1)
    }
}

/// The JSON text in a body: from the first `{` or `[` to the last matching
/// closer. Chunk sizes and trailers around it fall away; nothing stricter
/// is attempted, since Hermes evolves on its own.
pub open spec fn json_span_spec(body: Seq<char>) -> Option<Seq<char>> {
    let c = trim_start(body);
    match first_open(c, 0) {
        None => None,
        Some(st) => {
            let close = if c[st] == '{' {
                '}'
            } else {
                ']'
            };
            match last_of(c, close, c.len() as int) {
                None => None,
                Some(en) => if en < st {
                    None
                } else {
                    Some(c.subrange(st, en + 1))
                },
            }
        },
    }
}

/// The JSON text of a body, for a JSON parser.
pub fn json_span(body: &str) -> (r: Option<String>)
    ensures
        match r {
            Some(s) => json_span_spec(body@) == Some(s@),
            None => json_span_spec(body@) is None,
        },
{
    let c = crate::text::trim_start_v(&chars_of(body));
    let mut st: usize = 0;
    while st < c.len() && c[st] != '{' && c[st] != '['
        invariant
            st <= c.len(),
            first_open(c@, 0) == first_open(c@, st as int),
        decreases c.len() - st,
    {
        st += 1;
    }
    if st == c.len() {
        return None;
    }
    let close = if c[st] == '{' {
        '}'
    } else {
        ']'
    };
    let mut en: usize = c.len();
    while en > 0 && c[en - 1] != close
        invariant
            en <= c.len(),
            last_of(c@, close, c@.len() as int) == last_of(c@, close, en as int),
        decreases en,
    {
        en -= 1;
    }
    if en == 0 {
        return None;
    }
    if en - 1 < st {
        return None;
    }
    Some(string_of_range(&c, st, en))
}

/// The JSON text a `200` response carries; `None` for any other status or
/// a body without JSON. A refusal (401/403) is a setting, not a failure.
pub open spec fn response_json_spec(response: Seq<char>) -> Option<Seq<char>> {
    match split_http_spec(response) {
        None => None,
        Some((head, body)) => if status_ok_spec(head) {
            json_span_spec(body)
        } else {
            None
        },
    }
}

/// The JSON text of an HTTP response.
pub fn response_json(response: &str) -> (r: Option<String>)
    ensures
        match r {
            Some(s) => response_json_spec(response@) == Some(s@),
            None => response_json_spec(response@) is None,
        },
{
    let (head, body) = match split_http(response) {
        Some(p) => p,
        None => {
            return None;
        },
    };
    let h = chars_of(head.as_str());
    let ok11 = chars_of("HTTP/1.1 200");
    let ok10 = chars_of("HTTP/1.0 200");
    if !starts_with_v(&h, &ok11) && !starts_with_v(&h, &ok10) {
        return None;
    }
    json_span(body.as_str())
}

/// The request for `GET <path>` with the session token when there is one.
/// No `Origin` is sent: a request with one came from a browser.
pub open spec fn request_spec(path: Seq<char>, authority: Seq<char>, token: Option<Seq<char>>) -> Seq<char> {
    "GET "@ + path + " HTTP/1.1\r\nHost: "@ + authority
        + "\r\nAccept: application/json\r\nConnection: close\r\n"@ + (match token {
        Some(t) => "X-Hermes-Session-Token"@ + ": "@ + t + "\r\n"@,
        None => Seq::empty(),
    }) + "\r\n"@
}

/// The text of a `GET` request to Hermes.
pub fn request_text(path: &str, authority: &str, token: Option<&str>) -> (s: String)
    ensures
        s@ == request_spec(
            path@,
            authority@,
            match token {
                Some(t) => Some(t@),
                None => None,
            },
        ),
{
    let mut s = String::from_str("GET ");
    push_str(&mut s, path);
    push_str(&mut s, " HTTP/1.1\r\nHost: ");
    push_str(&mut s, authority);
    push_str(&mut s, "\r\nAccept: application/json\r\nConnection: close\r\n");
    let ghost head = s@;
    if let Some(t) = token {
        push_str(&mut s, crate::hermes::contract::SESSION_HEADER);
        push_str(&mut s, ": ");
        push_str(&mut s, t);
        push_str(&mut s, "\r\n");
    }
    push_str(&mut s, "\r\n");
    proof {
        reveal_strlit("X-Hermes-Session-Token");
    }
    assert(s@ =~= request_spec(
        path@,
        authority@,
        match token {
            Some(t) => Some(t@),
            None => None,
        },
    ));
    s
}

} // verus!
