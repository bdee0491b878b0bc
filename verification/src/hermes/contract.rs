//! The contract with Hermes as it actually is: the loopback endpoint, the
//! session header, the allowlist of actions the application may ask for,
//! and how a request is framed as a session title and prompt text.
use vstd::prelude::*;

use crate::hermes::capabilities::{FILE_OUTPUT, RUN_SUBMIT};
use crate::text::{chars_of, dec, push_dec, push_str, str_views, trim, trim_v};

verus! {

/// The port `hermes serve` listens on by default.
pub const DEFAULT_PORT: u16 = 9119;

/// The header that carries the session token.
pub const SESSION_HEADER: &'static str = "X-Hermes-Session-Token";

/// Where Hermes listens. Only the loopback address is ever used.
#[derive(Debug, Clone, Copy)]
pub struct Endpoint {
    pub port: u16,
}

/// Digits only.
pub open spec fn all_digits(s: Seq<char>) -> bool {
    forall|i: int| 0 <= i < s.len() ==> '0' <= #[trigger] s[i] && s[i] <= '9'
}

/// The value of a decimal digit string.
pub open spec fn dec_value(s: Seq<char>) -> nat
    decreases s.len(),
{
    if s.len() == 0 {
        0
    } else {
        dec_value(s.drop_last()) * 10 + ((s.last() as u32) - 48) as nat
    }
}

/// What `str::parse::<u16>` accepts: an optional `+`, at least one digit,
/// nothing else, and a value that fits.
pub open spec fn u16_text(s: Seq<char>) -> Option<u16> {
    let d = if s.len() > 0 && s[0] == '+' {
        s.subrange(1, s.len() as int)
    } else {
        s
    };
    if d.len() > 0 && all_digits(d) && dec_value(d) <= u16::MAX {
        Some(dec_value(d) as u16)
    } else {
        None
    }
}

/// The port a setting gives: the parsed value, or the default when it is
/// absent or not a port number.
pub open spec fn port_spec(setting: Option<Seq<char>>) -> u16 {
    match setting {
        Some(s) => match u16_text(s) {
            Some(p) => p,
            None => DEFAULT_PORT,
        },
        None => DEFAULT_PORT,
    }
}

/// Parses a port number as `str::parse::<u16>` does.
pub fn parse_port(s: &str) -> (r: Option<u16>)
    ensures
        r == u16_text(s@),
{
    let v = chars_of(s);
    let start: usize = if v.len() > 0 && v[0] == '+' {
        1
    } else {
        0
    };
    let ghost d = if v@.len() > 0 && v@[0] == '+' {
        v@.subrange(1, v@.len() as int)
    } else {
        v@
    };
    if start >= v.len() {
        return None;
    }
    assert(d == v@.subrange(start as int, v@.len() as int));
    let mut value: u32 = 0;
    let mut i = start;
    while i < v.len()
        invariant
            start <= i <= v.len(),
            start < v.len(),
            v@ == s@,
            start <= 1,
            (start == 1) == (v@.len() > 0 && v@[0] == '+'),
            d == (if v@.len() > 0 && v@[0] == '+' {
                v@.subrange(1, v@.len() as int)
            } else {
                v@
            }),
            d == v@.subrange(start as int, v@.len() as int),
            all_digits(v@.subrange(start as int, i as int)),
            value as nat == dec_value(v@.subrange(start as int, i as int)),
            value <= 65535,
        decreases v.len() - i,
    {
        let c = v[i];
        if !('0' <= c && c <= '9') {
            proof {
                assert(d[i - start] == c);
                assert(!all_digits(d));
            }
            return None;
        }
        assert(v@.subrange(start as int, i + 1).drop_last() =~= v@.subrange(start as int, i as int));
        let next = value * 10 + ((c as u32) - 48);
        if next > 65535 {
            proof {
                if all_digits(d) {
                    lemma_dec_value_grows(d, (i + 1 - start) as int);
                    assert(d.subrange(0, (i + 1 - start) as int) =~= v@.subrange(start as int, i + 1));
                }
            }
            return None;
        }
        value = next;
        i += 1;
        proof {
            assert forall|k: int| 0 <= k < v@.subrange(start as int, i as int).len() implies '0'
                <= #[trigger] v@.subrange(start as int, i as int)[k] && v@.subrange(
                start as int,
                i as int,
            )[k] <= '9' by {
                if k < i - 1 - start {
                    assert(v@.subrange(start as int, i as int)[k] == v@.subrange(
                        start as int,
                        i - 1,
                    )[k]);
                }
            }
        }
    }
    assert(v@.subrange(start as int, v@.len() as int) =~= d);
    Some(value as u16)
}

proof fn lemma_dec_value_grows(d: Seq<char>, k: int)
    requires
        0 <= k <= d.len(),
        all_digits(d),
    ensures
        dec_value(d) >= dec_value(d.subrange(0, k)),
    decreases d.len() - k,
{
    if k < d.len() {
        lemma_dec_value_grows(d, k + 1);
        assert(d.subrange(0, k + 1).drop_last() =~= d.subrange(0, k));
        assert('0' <= d[k] && d[k] <= '9');
    } else {
        assert(d.subrange(0, k) =~= d);
    }
}

impl Endpoint {
    /// The endpoint for a port setting (`ARKELES_HERMES_PORT`): the default
    /// port when the setting is absent or not a port number.
    pub fn from_setting(setting: Option<&str>) -> (e: Endpoint)
        ensures
            e.port == port_spec(
                match setting {
                    Some(s) => Some(s@),
                    None => None,
                },
            ),
    {
        let port = match setting {
            Some(s) => match parse_port(s) {
                Some(p) => p,
                None => DEFAULT_PORT,
            },
            None => DEFAULT_PORT,
        };
        Endpoint { port }
    }

    /// `127.0.0.1:<port>`.
    pub fn http_authority(&self) -> (s: String)
        ensures
            s@ == "127.0.0.1:"@ + dec(self.port as nat),
    {
        let mut s = String::from_str("127.0.0.1:");
        push_dec(&mut s, self.port as u64);
        s
    }
}

/// A token as read from its file or the environment: trimmed, and absent
/// when blank.
pub fn token_from_text(text: &str) -> (t: Option<String>)
    ensures
        match t {
            Some(s) => s@ == trim(text@) && trim(text@).len() > 0,
            None => trim(text@).len() == 0,
        },
{
    let v = trim_v(&chars_of(text));
    if v.len() == 0 {
        None
    } else {
        Some(crate::text::string_of(&v))
    }
}

// ---------------------------------------------------------------------------
// The action allowlist
// ---------------------------------------------------------------------------

/// An action the application may ask Hermes for.
#[derive(Debug, Clone)]
pub struct ActionDef {
    /// The canonical action name.
    pub id: &'static str,
    /// The label shown to the user.
    pub label: &'static str,
    /// The semantic capabilities Hermes must have declared.
    pub required_capabilities: Vec<&'static str>,
}

/// The allowlist as plain values: `(id, label, required capabilities)`.
pub open spec fn action_registry() -> Seq<(Seq<char>, Seq<char>, Seq<Seq<char>>)> {
    seq![
        ("task.execute"@, "Hermes'e görev ver"@, seq!["run.submit"@]),
        ("note.create"@, "Yeni not oluştur"@, seq!["run.submit"@, "file.output"@]),
        ("report.create"@, "Rapor oluştur"@, seq!["run.submit"@, "file.output"@]),
        ("analysis.create"@, "Analiz iste"@, seq!["run.submit"@]),
    ]
}

/// The plain views of actions.
pub open spec fn action_views(acts: Seq<ActionDef>) -> Seq<(Seq<char>, Seq<char>, Seq<Seq<char>>)> {
    acts.map_values(|a: ActionDef| action_view(a))
}

/// The plain view of an action.
pub open spec fn action_view(a: ActionDef) -> (Seq<char>, Seq<char>, Seq<Seq<char>>) {
    (a.id@, a.label@, str_views(a.required_capabilities@))
}

fn action(id: &'static str, label: &'static str, required: Vec<&'static str>) -> (a: ActionDef)
    ensures
        a.id == id,
        a.label == label,
        a.required_capabilities@ == required@,
{
    ActionDef { id, label, required_capabilities: required }
}

/// The allowlist, fixed at build time. A name that is not on it never
/// reaches Hermes.
pub fn actions() -> (acts: Vec<ActionDef>)
    ensures
        action_views(acts@) =~= action_registry(),
{
    let acts = vec![
        action("task.execute", "Hermes'e görev ver", vec![RUN_SUBMIT]),
        action("note.create", "Yeni not oluştur", vec![RUN_SUBMIT, FILE_OUTPUT]),
        action("report.create", "Rapor oluştur", vec![RUN_SUBMIT, FILE_OUTPUT]),
        action("analysis.create", "Analiz iste", vec![RUN_SUBMIT]),
    ];
    proof {
        reveal_strlit("run.submit");
        reveal_strlit("file.output");
        let vs = action_views(acts@);
        assert forall|i: int| 0 <= i < 4 implies #[trigger] vs[i] == action_registry()[i] by {
            assert(str_views(acts@[i].required_capabilities@) =~= action_registry()[i].2);
        }
    }
    acts
}

/// The position of an action id in the allowlist.
pub open spec fn action_index(id: Seq<char>) -> Option<int> {
    if exists|i: int| 0 <= i < 4 && action_registry()[i].0 == id {
        Some(choose|i: int| 0 <= i < 4 && action_registry()[i].0 == id)
    } else {
        None
    }
}

/// Finds an action on the allowlist by its exact id.
pub fn find_action(id: &str) -> (r: Option<ActionDef>)
    ensures
        match r {
            Some(a) => action_index(id@) matches Some(i) && action_view(a) == action_registry()[i],
            None => action_index(id@) is None,
        },
{
    let acts = actions();
    assert(acts@.len() == 4) by {
        assert(action_views(acts@).len() == acts@.len());
    }
    let mut k: usize = 0;
    while k < acts.len()
        invariant
            k <= acts.len(),
            acts@.len() == 4,
            action_views(acts@) == action_registry(),
            forall|j: int| 0 <= j < k ==> action_registry()[j].0 != id@,
        decreases acts.len() - k,
    {
        assert(action_view(acts@[k as int]) == action_registry()[k as int]);
        if crate::text::same_text(acts[k].id, id) {
            proof {
                lemma_action_ids_distinct();
                let i = choose|i: int| 0 <= i < 4 && action_registry()[i].0 == id@;
                assert(i == k);
            }
            return Some(acts[k].clone_def());
        }
        k += 1;
    }
    None
}

/// The action ids are pairwise distinct.
pub proof fn lemma_action_ids_distinct()
    ensures
        forall|i: int, j: int|
            0 <= i < 4 && 0 <= j < 4 && i != j ==> #[trigger] action_registry()[i].0
                != #[trigger] action_registry()[j].0,
{
    reveal_strlit("task.execute");
    reveal_strlit("note.create");
    reveal_strlit("report.create");
    reveal_strlit("analysis.create");
    assert("task.execute"@[0] != "note.create"@[0]);
    assert("task.execute"@[0] != "report.create"@[0]);
    assert("task.execute"@[0] != "analysis.create"@[0]);
    assert("note.create"@[0] != "report.create"@[0]);
    assert("note.create"@[0] != "analysis.create"@[0]);
    assert("report.create"@[0] != "analysis.create"@[0]);
}

impl ActionDef {
    /// A copy of the definition.
    pub fn clone_def(&self) -> (a: ActionDef)
        ensures
            a.id == self.id,
            a.label == self.label,
            a.required_capabilities@ == self.required_capabilities@,
    {
        let mut req: Vec<&'static str> = Vec::new();
        let mut i: usize = 0;
        while i < self.required_capabilities.len()
            invariant
                i <= self.required_capabilities.len(),
                req@ == self.required_capabilities@.subrange(0, i as int),
            decreases self.required_capabilities.len() - i,
        {
            req.push(self.required_capabilities[i]);
            i += 1;
            assert(req@ =~= self.required_capabilities@.subrange(0, i as int));
        }
        assert(self.required_capabilities@.subrange(0, i as int) =~= self.required_capabilities@);
        ActionDef { id: self.id, label: self.label, required_capabilities: req }
    }
}

// ---------------------------------------------------------------------------
// Request text
// ---------------------------------------------------------------------------

/// `ARKELÉS · <label>` or `ARKELÉS · <label> · <workspace>`.
pub open spec fn session_title_spec(label: Seq<char>, workspace: Option<Seq<char>>) -> Seq<char> {
    match workspace {
        Some(w) => "ARKELÉS · "@ + label + " · "@ + w,
        None => "ARKELÉS · "@ + label,
    }
}

/// The prompt: a header naming the action, the workspace line when there
/// is one, an empty line, then the user's text trimmed. The text travels as
/// plain text; it is never spliced into a command.
pub open spec fn prompt_spec(label: Seq<char>, workspace: Option<Seq<char>>, input: Seq<char>) -> Seq<char> {
    "[ARKELÉS isteği — "@ + label + "]\n"@ + (match workspace {
        Some(w) => "Çalışma alanı: "@ + w + "\n"@,
        None => Seq::empty(),
    }) + "\n"@ + trim(input)
}

/// The optional view of an optional slice.
pub open spec fn opt_str(o: Option<&str>) -> Option<Seq<char>> {
    match o {
        Some(s) => Some(s@),
        None => None,
    }
}

/// The Hermes session title for an action.
pub fn session_title(action: &ActionDef, workspace: Option<&str>) -> (s: String)
    ensures
        s@ == session_title_spec(action.label@, opt_str(workspace)),
{
    let mut s = String::from_str("ARKELÉS · ");
    push_str(&mut s, action.label);
    if let Some(w) = workspace {
        push_str(&mut s, " · ");
        push_str(&mut s, w);
    }
    s
}

/// The prompt text Hermes receives for an action.
pub fn prompt_for(action: &ActionDef, workspace: Option<&str>, input: &str) -> (s: String)
    ensures
        s@ == prompt_spec(action.label@, opt_str(workspace), input@),
{
    let mut s = String::from_str("[ARKELÉS isteği — ");
    push_str(&mut s, action.label);
    push_str(&mut s, "]\n");
    let ghost head = s@;
    if let Some(w) = workspace {
        push_str(&mut s, "Çalışma alanı: ");
        push_str(&mut s, w);
        push_str(&mut s, "\n");
    }
    let ghost mid = s@;
    push_str(&mut s, "\n");
    let t = trim_v(&chars_of(input));
    crate::text::push_all(&mut s, &t);
    assert(s@ =~= prompt_spec(action.label@, opt_str(workspace), input@));
    s
}

} // verus!
