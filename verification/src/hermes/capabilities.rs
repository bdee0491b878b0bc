//! Hermes's own declarations mapped to the application's semantic
//! capabilities. Nothing is inferred from health or reachability: every
//! capability comes from an explicit declaration (status features, gateway
//! flags, enabled and configured toolsets, enabled skills).
use vstd::prelude::*;

use crate::json::{json_get, json_member, json_wf, Json};
use crate::text::{chars_of, push_str, str_views, string_of, string_views, trim, trim_v};
use crate::vault::links::holds;

verus! {

/// Submitting work.
pub const RUN_SUBMIT: &'static str = "run.submit";

/// Producing files.
pub const FILE_OUTPUT: &'static str = "file.output";

/// Searching past sessions.
pub const SESSION_SEARCH: &'static str = "session.search";

/// Using ready-made skills.
pub const SKILLS_USE: &'static str = "skills.use";

/// A semantic capability and the declarations it was derived from.
#[derive(Debug, Clone)]
pub struct HermesCapability {
    pub id: String,
    pub label: String,
    pub sources: Vec<String>,
}

/// An enabled and configured toolset and the tools it declares.
#[derive(Debug, Clone)]
pub struct Toolset {
    pub name: String,
    pub tools: Vec<String>,
}

/// What Hermes declared, as plain names.
#[derive(Debug, Clone)]
pub struct HermesCapabilitySnapshot {
    pub features: Vec<String>,
    pub gateway_flags: Vec<String>,
    pub toolsets: Vec<Toolset>,
    pub enabled_skills: Vec<String>,
}

/// The semantic capabilities derived from a snapshot.
#[derive(Debug, Clone)]
pub struct ArkelesSemanticCapabilities {
    pub items: Vec<HermesCapability>,
}

// ---------------------------------------------------------------------------
// Reading declarations
// ---------------------------------------------------------------------------

/// The non-blank strings of a list, trimmed; other items are skipped.
pub open spec fn valid_strings(items: Seq<Json>) -> Seq<Seq<char>>
    decreases items.len(),
{
    if items.len() == 0 {
        Seq::empty()
    } else {
        let p = valid_strings(items.drop_last());
        match items.last() {
            Json::Str(s) => if trim(s@).len() > 0 {
                p.push(trim(s@))
            } else {
                p
            },
            _ => p,
        }
    }
}

/// The names of the flags that are exactly `true`, trimmed, blank ones
/// skipped.
pub open spec fn true_flags(es: Seq<(String, Json)>) -> Seq<Seq<char>>
    decreases es.len(),
{
    if es.len() == 0 {
        Seq::empty()
    } else {
        let p = true_flags(es.drop_last());
        let (name, v) = es.last();
        if v == Json::Bool(true) && trim(name@).len() > 0 {
            p.push(trim(name@))
        } else {
            p
        }
    }
}

/// Features a status payload declares: its `capabilities` list and its
/// `features` flags that are `true`.
pub open spec fn features_spec(status: Option<Json>) -> Seq<Seq<char>> {
    match status {
        None => Seq::empty(),
        Some(j) => (match json_get(j, "capabilities"@) {
            Some(Json::Array(l)) => valid_strings(l@),
            _ => Seq::empty(),
        }) + (match json_get(j, "features"@) {
            Some(Json::Object(es)) => true_flags(es@),
            _ => Seq::empty(),
        }),
    }
}

/// The gateway flags that are `true`.
pub open spec fn gateway_spec(flags: Option<Json>) -> Seq<Seq<char>> {
    match flags {
        Some(Json::Object(es)) => true_flags(es@),
        _ => Seq::empty(),
    }
}

/// A payload's list: the value itself when it is a list, or its `data` list.
pub open spec fn payload_array(v: Option<Json>) -> Option<Seq<Json>> {
    match v {
        Some(Json::Array(l)) => Some(l@),
        Some(j) => match json_get(j, "data"@) {
            Some(Json::Array(l)) => Some(l@),
            _ => None,
        },
        None => None,
    }
}

/// A toolset entry that is explicitly enabled and configured, has a
/// non-blank name and a list of tools.
pub open spec fn toolset_of(item: Json) -> Option<(Seq<char>, Seq<Seq<char>>)> {
    if json_get(item, "enabled"@) != Some(Json::Bool(true)) || json_get(item, "configured"@)
        != Some(Json::Bool(true)) {
        None
    } else {
        match json_get(item, "name"@) {
            Some(Json::Str(n)) => if trim(n@).len() == 0 {
                None
            } else {
                match json_get(item, "tools"@) {
                    Some(Json::Array(ts)) => Some((trim(n@), valid_strings(ts@))),
                    _ => None,
                }
            },
            _ => None,
        }
    }
}

/// The usable toolsets of a list, in order.
pub open spec fn toolsets_from(items: Seq<Json>) -> Seq<(Seq<char>, Seq<Seq<char>>)>
    decreases items.len(),
{
    if items.len() == 0 {
        Seq::empty()
    } else {
        let p = toolsets_from(items.drop_last());
        match toolset_of(items.last()) {
            Some(t) => p.push(t),
            None => p,
        }
    }
}

/// The toolsets a payload declares.
pub open spec fn toolsets_spec(v: Option<Json>) -> Seq<(Seq<char>, Seq<Seq<char>>)> {
    match payload_array(v) {
        Some(l) => toolsets_from(l),
        None => Seq::empty(),
    }
}

/// The name of a skill entry that is explicitly enabled.
pub open spec fn skill_of(item: Json) -> Option<Seq<char>> {
    if json_get(item, "enabled"@) == Some(Json::Bool(true)) {
        match json_get(item, "name"@) {
            Some(Json::Str(n)) => if trim(n@).len() > 0 {
                Some(trim(n@))
            } else {
                None
            },
            _ => None,
        }
    } else {
        None
    }
}

/// The enabled skills of a list, in order.
pub open spec fn skills_from(items: Seq<Json>) -> Seq<Seq<char>>
    decreases items.len(),
{
    if items.len() == 0 {
        Seq::empty()
    } else {
        let p = skills_from(items.drop_last());
        match skill_of(items.last()) {
            Some(s) => p.push(s),
            None => p,
        }
    }
}

/// The enabled skills a payload declares.
pub open spec fn skills_spec(v: Option<Json>) -> Seq<Seq<char>> {
    match payload_array(v) {
        Some(l) => skills_from(l),
        None => Seq::empty(),
    }
}

/// The view of an optional reference.
pub open spec fn opt_json(v: Option<&Json>) -> Option<Json> {
    match v {
        Some(j) => Some(*j),
        None => None,
    }
}

/// Every object in the optional value has unique keys.
pub open spec fn opt_wf(v: Option<&Json>) -> bool {
    match v {
        Some(j) => json_wf(*j),
        None => true,
    }
}

/// The plain view of toolsets.
pub open spec fn toolset_views(ts: Seq<Toolset>) -> Seq<(Seq<char>, Seq<Seq<char>>)> {
    ts.map_values(|t: Toolset| (t.name@, string_views(t.tools@)))
}

fn valid_strings_exec(items: &Vec<Json>) -> (r: Vec<String>)
    ensures
        string_views(r@) == valid_strings(items@),
{
    let mut out: Vec<String> = Vec::new();
    let mut i: usize = 0;
    while i < items.len()
        invariant
            i <= items.len(),
            string_views(out@) == valid_strings(items@.subrange(0, i as int)),
        decreases items.len() - i,
    {
        assert(items@.subrange(0, i + 1).drop_last() =~= items@.subrange(0, i as int));
        match &items[i] {
            Json::Str(s) => {
                let t = trim_v(&chars_of(s.as_str()));
                if t.len() > 0 {
                    out.push(string_of(&t));
                    assert(string_views(out@) =~= valid_strings(items@.subrange(0, i as int)).push(t@));
                }
            },
            _ => {},
        }
        i += 1;
    }
    assert(items@.subrange(0, items@.len() as int) =~= items@);
    out
}

fn true_flags_exec(es: &Vec<(String, Json)>) -> (r: Vec<String>)
    ensures
        string_views(r@) == true_flags(es@),
{
    let mut out: Vec<String> = Vec::new();
    let mut i: usize = 0;
    while i < es.len()
        invariant
            i <= es.len(),
            string_views(out@) == true_flags(es@.subrange(0, i as int)),
        decreases es.len() - i,
    {
        assert(es@.subrange(0, i + 1).drop_last() =~= es@.subrange(0, i as int));
        let on = match &es[i].1 {
            Json::Bool(b) => *b,
            _ => false,
        };
        let t = trim_v(&chars_of(es[i].0.as_str()));
        if on && t.len() > 0 {
            out.push(string_of(&t));
            assert(string_views(out@) =~= true_flags(es@.subrange(0, i as int)).push(t@));
        }
        i += 1;
    }
    assert(es@.subrange(0, es@.len() as int) =~= es@);
    out
}

fn declared_features(status: Option<&Json>) -> (r: Vec<String>)
    requires
        opt_wf(status),
    ensures
        string_views(r@) == features_spec(opt_json(status)),
{
    let j = match status {
        Some(j) => j,
        None => {
            let e: Vec<String> = Vec::new();
            assert(string_views(e@) =~= Seq::<Seq<char>>::empty());
            return e;
        },
    };
    proof {
        reveal_strlit("capabilities");
        reveal_strlit("features");
    }
    let mut out = match json_member(j, "capabilities") {
        Some(Json::Array(l)) => valid_strings_exec(l),
        _ => {
            let e: Vec<String> = Vec::new();
            assert(string_views(e@) =~= Seq::<Seq<char>>::empty());
            e
        },
    };
    let mut more = match json_member(j, "features") {
        Some(Json::Object(es)) => true_flags_exec(es),
        _ => {
            let e: Vec<String> = Vec::new();
            assert(string_views(e@) =~= Seq::<Seq<char>>::empty());
            e
        },
    };
    let ghost a = string_views(out@);
    let ghost b = string_views(more@);
    out.append(&mut more);
    assert(string_views(out@) =~= a + b);
    out
}

fn declared_true_flags(flags: Option<&Json>) -> (r: Vec<String>)
    ensures
        string_views(r@) == gateway_spec(opt_json(flags)),
{
    match flags {
        Some(Json::Object(es)) => true_flags_exec(es),
        _ => {
            let e: Vec<String> = Vec::new();
            assert(string_views(e@) =~= Seq::<Seq<char>>::empty());
            e
        },
    }
}

fn payload_array_exec(v: Option<&Json>) -> (r: Option<&Vec<Json>>)
    requires
        opt_wf(v),
    ensures
        match r {
            Some(l) => payload_array(opt_json(v)) == Some(l@) && forall|i: int|
                0 <= i < l@.len() ==> json_wf(#[trigger] l@[i]),
            None => payload_array(opt_json(v)) is None,
        },
{
    match v {
        Some(Json::Array(l)) => Some(l),
        Some(j) => {
            proof {
                reveal_strlit("data");
            }
            match json_member(j, "data") {
                Some(Json::Array(l)) => {
                    proof {
                        let es = j->Object_0;
                        let m = choose|m: int| 0 <= m < es@.len() && es@[m].0@ == "data"@;
                        assert(json_wf(es@[m].1));
                    }
                    Some(l)
                },
                _ => None,
            }
        },
        None => None,
    }
}

fn is_true(v: Option<&Json>) -> (b: bool)
    ensures
        b == (opt_json(v) == Some(Json::Bool(true))),
{
    match v {
        Some(Json::Bool(b)) => *b,
        _ => false,
    }
}

fn toolset_exec(item: &Json) -> (r: Option<Toolset>)
    requires
        json_wf(*item),
    ensures
        match r {
            Some(t) => toolset_of(*item) == Some((t.name@, string_views(t.tools@))),
            None => toolset_of(*item) is None,
        },
{
    proof {
        reveal_strlit("enabled");
        reveal_strlit("configured");
        reveal_strlit("name");
        reveal_strlit("tools");
    }
    if !is_true(json_member(item, "enabled")) || !is_true(json_member(item, "configured")) {
        return None;
    }
    let name = match json_member(item, "name") {
        Some(Json::Str(n)) => trim_v(&chars_of(n.as_str())),
        _ => {
            return None;
        },
    };
    if name.len() == 0 {
        return None;
    }
    match json_member(item, "tools") {
        Some(Json::Array(ts)) => Some(Toolset { name: string_of(&name), tools: valid_strings_exec(ts) }),
        _ => None,
    }
}

fn declared_toolsets(v: Option<&Json>) -> (r: Vec<Toolset>)
    requires
        opt_wf(v),
    ensures
        toolset_views(r@) == toolsets_spec(opt_json(v)),
{
    let mut out: Vec<Toolset> = Vec::new();
    let items = match payload_array_exec(v) {
        Some(l) => l,
        None => {
            assert(toolset_views(out@) =~= Seq::<(Seq<char>, Seq<Seq<char>>)>::empty());
            return out;
        },
    };
    let mut i: usize = 0;
    while i < items.len()
        invariant
            i <= items.len(),
            forall|k: int| 0 <= k < items@.len() ==> json_wf(#[trigger] items@[k]),
            toolset_views(out@) == toolsets_from(items@.subrange(0, i as int)),
        decreases items.len() - i,
    {
        assert(items@.subrange(0, i + 1).drop_last() =~= items@.subrange(0, i as int));
        assert(json_wf(items@[i as int]));
        match toolset_exec(&items[i]) {
            Some(t) => {
                let ghost tv = (t.name@, string_views(t.tools@));
                out.push(t);
                assert(toolset_views(out@) =~= toolsets_from(items@.subrange(0, i as int)).push(tv));
            },
            None => {},
        }
        i += 1;
    }
    assert(items@.subrange(0, items@.len() as int) =~= items@);
    out
}

fn declared_enabled_skills(v: Option<&Json>) -> (r: Vec<String>)
    requires
        opt_wf(v),
    ensures
        string_views(r@) == skills_spec(opt_json(v)),
{
    let mut out: Vec<String> = Vec::new();
    let items = match payload_array_exec(v) {
        Some(l) => l,
        None => {
            assert(string_views(out@) =~= Seq::<Seq<char>>::empty());
            return out;
        },
    };
    proof {
        reveal_strlit("enabled");
        reveal_strlit("name");
    }
    let mut i: usize = 0;
    while i < items.len()
        invariant
            i <= items.len(),
            forall|k: int| 0 <= k < items@.len() ==> json_wf(#[trigger] items@[k]),
            string_views(out@) == skills_from(items@.subrange(0, i as int)),
        decreases items.len() - i,
    {
        assert(items@.subrange(0, i + 1).drop_last() =~= items@.subrange(0, i as int));
        assert(json_wf(items@[i as int]));
        let item = &items[i];
        if is_true(json_member(item, "enabled")) {
            match json_member(item, "name") {
                Some(Json::Str(n)) => {
                    let t = trim_v(&chars_of(n.as_str()));
                    if t.len() > 0 {
                        out.push(string_of(&t));
                        assert(string_views(out@) =~= skills_from(items@.subrange(0, i as int)).push(t@));
                    }
                },
                _ => {},
            }
        }
        i += 1;
    }
    assert(items@.subrange(0, items@.len() as int) =~= items@);
    out
}

impl HermesCapabilitySnapshot {
    /// The declarations of a status payload, the gateway flags, the toolset
    /// list and the skill list. Anything malformed declares nothing.
    pub fn from_values(
        status: Option<&Json>,
        gateway_flags: Option<&Json>,
        toolsets: Option<&Json>,
        skills: Option<&Json>,
    ) -> (s: Self)
        requires
            opt_wf(status),
            opt_wf(toolsets),
            opt_wf(skills),
        ensures
            string_views(s.features@) == features_spec(opt_json(status)),
            string_views(s.gateway_flags@) == gateway_spec(opt_json(gateway_flags)),
            toolset_views(s.toolsets@) == toolsets_spec(opt_json(toolsets)),
            string_views(s.enabled_skills@) == skills_spec(opt_json(skills)),
    {
        HermesCapabilitySnapshot {
            features: declared_features(status),
            gateway_flags: declared_true_flags(gateway_flags),
            toolsets: declared_toolsets(toolsets),
            enabled_skills: declared_enabled_skills(skills),
        }
    }
}

// ---------------------------------------------------------------------------
// Mapping to semantic capabilities
// ---------------------------------------------------------------------------

/// A source name for a feature when it is declared.
pub open spec fn source_if(declared: Seq<Seq<char>>, name: Seq<char>, prefix: Seq<char>) -> Seq<Seq<char>> {
    if declared.contains(name) {
        seq![prefix + name]
    } else {
        Seq::empty()
    }
}

/// The declarations that show Hermes accepts submitted work.
pub open spec fn run_sources_spec(features: Seq<Seq<char>>, flags: Seq<Seq<char>>) -> Seq<Seq<char>> {
    source_if(features, "run_submission"@, "capabilities."@) + source_if(
        features,
        "session_chat"@,
        "capabilities."@,
    ) + source_if(features, "session_chat_streaming"@, "capabilities."@) + source_if(
        flags,
        "per_session_exclusive_submit"@,
        "gateway.capabilities."@,
    )
}

/// The tools of the first toolset with this name, from index `i`.
pub open spec fn find_toolset(ts: Seq<(Seq<char>, Seq<Seq<char>>)>, name: Seq<char>, i: int) -> Option<Seq<Seq<char>>>
    decreases ts.len() - i,
{
    if i < 0 || i >= ts.len() {
        None
    } else if ts[i].0 == name {
        Some(ts[i].1)
    } else {
        find_toolset(ts, name, i + 1)
    }
}

/// `toolsets.<name>.<tool>` for each accepted tool the toolset declares, in
/// the order of `accepted`.
pub open spec fn accepted_sources(accepted: Seq<Seq<char>>, tools: Seq<Seq<char>>, name: Seq<char>) -> Seq<Seq<char>>
    decreases accepted.len(),
{
    if accepted.len() == 0 {
        Seq::empty()
    } else {
        let p = accepted_sources(accepted.drop_last(), tools, name);
        if tools.contains(accepted.last()) {
            p.push("toolsets."@ + name + "."@ + accepted.last())
        } else {
            p
        }
    }
}

/// The declarations of accepted tools in a named toolset.
pub open spec fn tool_sources_spec(ts: Seq<(Seq<char>, Seq<Seq<char>>)>, name: Seq<char>, accepted: Seq<Seq<char>>) -> Seq<Seq<char>> {
    match find_toolset(ts, name, 0) {
        None => Seq::empty(),
        Some(tools) => accepted_sources(accepted, tools, name),
    }
}

/// A capability is listed only when something declares it.
pub open spec fn push_if(
    items: Seq<(Seq<char>, Seq<char>, Seq<Seq<char>>)>,
    id: Seq<char>,
    label: Seq<char>,
    sources: Seq<Seq<char>>,
) -> Seq<(Seq<char>, Seq<char>, Seq<Seq<char>>)> {
    if sources.len() == 0 {
        items
    } else {
        items.push((id, label, sources))
    }
}

/// The semantic capabilities of a snapshot, in their fixed order, each with
/// the declarations behind it. Skills need both the skills toolset and at
/// least one enabled skill.
pub open spec fn semantic_spec(
    features: Seq<Seq<char>>,
    flags: Seq<Seq<char>>,
    ts: Seq<(Seq<char>, Seq<Seq<char>>)>,
    skills: Seq<Seq<char>>,
) -> Seq<(Seq<char>, Seq<char>, Seq<Seq<char>>)> {
    let i1 = push_if(
        Seq::empty(),
        "run.submit"@,
        "Görev çalıştırabilir"@,
        run_sources_spec(features, flags),
    );
    let i2 = push_if(
        i1,
        "file.output"@,
        "Dosya çıktısı üretebilir"@,
        tool_sources_spec(ts, "file"@, seq!["write_file"@, "patch"@]),
    );
    let i3 = push_if(
        i2,
        "session.search"@,
        "Geçmiş konuşmaları arayabilir"@,
        tool_sources_spec(ts, "session_search"@, seq!["session_search"@]),
    );
    let skill_tools = tool_sources_spec(ts, "skills"@, seq!["skills_list"@, "skill_view"@, "skill_manage"@]);
    let sk = if skills.len() == 0 || skill_tools.len() == 0 {
        Seq::empty()
    } else {
        skill_tools.push("skills.enabled"@)
    };
    push_if(i3, "skills.use"@, "Hazır becerileri kullanabilir"@, sk)
}

/// The plain view of capabilities.
pub open spec fn capability_views(items: Seq<HermesCapability>) -> Seq<(Seq<char>, Seq<char>, Seq<Seq<char>>)> {
    items.map_values(|c: HermesCapability| (c.id@, c.label@, string_views(c.sources@)))
}

/// A capability with this id is listed.
pub open spec fn has_id(items: Seq<(Seq<char>, Seq<char>, Seq<Seq<char>>)>, id: Seq<char>) -> bool {
    exists|k: int| 0 <= k < items.len() && items[k].0 == id
}

/// Every required id is among the capabilities.
pub open spec fn supports_spec(items: Seq<(Seq<char>, Seq<char>, Seq<Seq<char>>)>, required: Seq<Seq<char>>) -> bool {
    forall|r: int| 0 <= r < required.len() ==> has_id(items, #[trigger] required[r])
}

fn text2(a: &str, b: &str) -> (s: String)
    ensures
        s@ == a@ + b@,
{
    let mut s = String::from_str(a);
    push_str(&mut s, b);
    s
}

fn source_if_exec(declared: &Vec<String>, name: &str, prefix: &str) -> (r: Vec<String>)
    ensures
        string_views(r@) == source_if(string_views(declared@), name@, prefix@),
{
    let n = chars_of(name);
    let mut out: Vec<String> = Vec::new();
    if holds(declared, &n) {
        out.push(text2(prefix, name));
        assert(string_views(out@) =~= seq![prefix@ + name@]);
    } else {
        assert(string_views(out@) =~= Seq::<Seq<char>>::empty());
    }
    out
}

fn run_sources(features: &Vec<String>, flags: &Vec<String>) -> (r: Vec<String>)
    ensures
        string_views(r@) == run_sources_spec(string_views(features@), string_views(flags@)),
{
    let mut out = source_if_exec(features, "run_submission", "capabilities.");
    let mut b = source_if_exec(features, "session_chat", "capabilities.");
    let mut c = source_if_exec(features, "session_chat_streaming", "capabilities.");
    let mut d = source_if_exec(flags, "per_session_exclusive_submit", "gateway.capabilities.");
    let ghost (va, vb, vc, vd) = (string_views(out@), string_views(b@), string_views(c@), string_views(d@));
    out.append(&mut b);
    out.append(&mut c);
    out.append(&mut d);
    assert(string_views(out@) =~= va + vb + vc + vd);
    out
}

fn tool_sources(toolsets: &Vec<Toolset>, name: &str, accepted: &Vec<&'static str>) -> (r: Vec<String>)
    ensures
        string_views(r@) == tool_sources_spec(
            toolset_views(toolsets@),
            name@,
            str_views(accepted@),
        ),
{
    let nv = chars_of(name);
    let mut k: usize = 0;
    while k < toolsets.len() && !crate::text::same_text(toolsets[k].name.as_str(), name)
        invariant
            k <= toolsets.len(),
            find_toolset(toolset_views(toolsets@), name@, 0) == find_toolset(
                toolset_views(toolsets@),
                name@,
                k as int,
            ),
        decreases toolsets.len() - k,
    {
        k += 1;
    }
    let mut out: Vec<String> = Vec::new();
    if k == toolsets.len() {
        assert(string_views(out@) =~= Seq::<Seq<char>>::empty());
        return out;
    }
    let ts = &toolsets[k];
    let ghost acc = str_views(accepted@);
    let mut i: usize = 0;
    while i < accepted.len()
        invariant
            i <= accepted.len(),
            acc == str_views(accepted@),
            string_views(out@) == accepted_sources(
                acc.subrange(0, i as int),
                string_views(ts.tools@),
                name@,
            ),
        decreases accepted.len() - i,
    {
        assert(acc.subrange(0, i + 1).drop_last() =~= acc.subrange(0, i as int));
        assert(acc[i as int] == accepted@[i as int]@);
        let tool = chars_of(accepted[i]);
        if holds(&ts.tools, &tool) {
            let mut src = text2("toolsets.", name);
            push_str(&mut src, ".");
            push_str(&mut src, accepted[i]);
            out.push(src);
            assert(string_views(out@) =~= accepted_sources(
                acc.subrange(0, i as int),
                string_views(ts.tools@),
                name@,
            ).push("toolsets."@ + name@ + "."@ + acc[i as int]));
        }
        i += 1;
    }
    assert(acc.subrange(0, acc.len() as int) =~= acc);
    out
}

fn push_if_exec(items: &mut Vec<HermesCapability>, id: &str, label: &str, sources: Vec<String>)
    ensures
        capability_views(final(items)@) == push_if(
            capability_views(old(items)@),
            id@,
            label@,
            string_views(sources@),
        ),
{
    if sources.len() == 0 {
        return;
    }
    let c = HermesCapability { id: String::from_str(id), label: String::from_str(label), sources };
    let ghost cv = (c.id@, c.label@, string_views(c.sources@));
    items.push(c);
    assert(capability_views(items@) =~= capability_views(old(items)@).push(cv));
}

impl ArkelesSemanticCapabilities {
    /// The semantic capabilities a snapshot declares.
    pub fn from_snapshot(snapshot: &HermesCapabilitySnapshot) -> (c: Self)
        ensures
            capability_views(c.items@) == semantic_spec(
                string_views(snapshot.features@),
                string_views(snapshot.gateway_flags@),
                toolset_views(snapshot.toolsets@),
                string_views(snapshot.enabled_skills@),
            ),
    {
        let mut items: Vec<HermesCapability> = Vec::new();
        assert(capability_views(items@) =~= Seq::<(Seq<char>, Seq<char>, Seq<Seq<char>>)>::empty());
        push_if_exec(
            &mut items,
            RUN_SUBMIT,
            "Görev çalıştırabilir",
            run_sources(&snapshot.features, &snapshot.gateway_flags),
        );
        let file_tools = vec!["write_file", "patch"];
        assert(str_views(file_tools@) =~= seq!["write_file"@, "patch"@]);
        push_if_exec(
            &mut items,
            FILE_OUTPUT,
            "Dosya çıktısı üretebilir",
            tool_sources(&snapshot.toolsets, "file", &file_tools),
        );
        let search_tools = vec!["session_search"];
        assert(str_views(search_tools@) =~= seq!["session_search"@]);
        push_if_exec(
            &mut items,
            SESSION_SEARCH,
            "Geçmiş konuşmaları arayabilir",
            tool_sources(&snapshot.toolsets, "session_search", &search_tools),
        );
        let skill_tools = vec!["skills_list", "skill_view", "skill_manage"];
        assert(str_views(skill_tools@) =~= seq![
            "skills_list"@,
            "skill_view"@,
            "skill_manage"@,
        ]);
        let mut skill_sources = tool_sources(&snapshot.toolsets, "skills", &skill_tools);
        if snapshot.enabled_skills.len() == 0 || skill_sources.len() == 0 {
            skill_sources = Vec::new();
            assert(string_views(skill_sources@) =~= Seq::<Seq<char>>::empty());
        } else {
            let ghost before = string_views(skill_sources@);
            skill_sources.push(String::from_str("skills.enabled"));
            assert(string_views(skill_sources@) =~= before.push("skills.enabled"@));
        }
        push_if_exec(&mut items, SKILLS_USE, "Hazır becerileri kullanabilir", skill_sources);
        proof {
            reveal_strlit("run.submit");
            reveal_strlit("file.output");
            reveal_strlit("session.search");
            reveal_strlit("skills.use");
        }
        ArkelesSemanticCapabilities { items }
    }

    /// Whether every required capability is declared.
    pub fn supports(&self, required: &[&str]) -> (b: bool)
        ensures
            b == supports_spec(capability_views(self.items@), str_views(required@)),
    {
        let ghost items = capability_views(self.items@);
        let ghost req = str_views(required@);
        let mut r: usize = 0;
        while r < required.len()
            invariant
                r <= required.len(),
                items == capability_views(self.items@),
                req == str_views(required@),
                req.len() == required@.len(),
                forall|q: int| 0 <= q < r ==> has_id(items, #[trigger] req[q]),
            decreases required.len() - r,
        {
            assert(req[r as int] == required@[r as int]@);
            if !self.has_capability(required[r]) {
                assert(!supports_spec(items, req)) by {
                    if supports_spec(items, req) {
                        assert(has_id(items, req[r as int]));
                    }
                }
                return false;
            }
            r += 1;
        }
        true
    }

    fn has_capability(&self, id: &str) -> (b: bool)
        ensures
            b == has_id(capability_views(self.items@), id@),
    {
        let ghost items = capability_views(self.items@);
        let mut k: usize = 0;
        while k < self.items.len()
            invariant
                k <= self.items.len(),
                items == capability_views(self.items@),
                forall|j: int| 0 <= j < k ==> #[trigger] items[j].0 != id@,
            decreases self.items.len() - k,
        {
            assert(items[k as int].0 == self.items@[k as int].id@);
            if crate::text::same_text(self.items[k].id.as_str(), id) {
                return true;
            }
            k += 1;
        }
        false
    }
}


/// Capabilities as listed: each with declarations behind it, no id twice.
pub open spec fn caps_ok(items: Seq<(Seq<char>, Seq<char>, Seq<Seq<char>>)>) -> bool {
    &&& forall|k: int| 0 <= k < items.len() ==> (#[trigger] items[k]).2.len() > 0
    &&& forall|a: int, b: int| 0 <= a < b < items.len() ==> #[trigger] items[a].0 != #[trigger] items[b].0
}

proof fn lemma_push_if_ok(
    items: Seq<(Seq<char>, Seq<char>, Seq<Seq<char>>)>,
    id: Seq<char>,
    label: Seq<char>,
    sources: Seq<Seq<char>>,
)
    requires
        caps_ok(items),
        !has_id(items, id),
    ensures
        caps_ok(push_if(items, id, label, sources)),
        forall|x: Seq<char>|
            #[trigger] has_id(push_if(items, id, label, sources), x) <==> has_id(items, x) || (x == id
                && sources.len() > 0),
{
    if sources.len() > 0 {
        let t = items.push((id, label, sources));
        assert forall|a: int, b: int| 0 <= a < b < t.len() implies #[trigger] t[a].0 != #[trigger] t[b].0 by {
            assert(t[a] == items[a]);
            if b < items.len() {
                assert(t[b] == items[b]);
            } else {
                assert(items[a].0 != id);
            }
        }
        assert forall|k: int| 0 <= k < t.len() implies (#[trigger] t[k]).2.len() > 0 by {
            if k < items.len() {
                assert(t[k] == items[k]);
            }
        }
        assert forall|x: Seq<char>| #[trigger] has_id(t, x) <==> has_id(items, x) || x == id by {
            if has_id(items, x) {
                let k = choose|k: int| 0 <= k < items.len() && items[k].0 == x;
                assert(t[k] == items[k]);
            }
            if x == id {
                assert(t[items.len() as int].0 == id);
            }
            if has_id(t, x) && x != id {
                let k = choose|k: int| 0 <= k < t.len() && t[k].0 == x;
                assert(k < items.len());
                assert(t[k] == items[k]);
            }
        }
    }
}

/// Law: the semantic capabilities have declarations behind each of them
/// and no id twice; `run.submit` is listed exactly when the features or the
/// gateway declare submission, `file.output` and `session.search` exactly
/// when their toolsets declare an accepted tool, and `skills.use` exactly
/// when the skills toolset declares an accepted tool and a skill is enabled.
pub proof fn lemma_capabilities_declared(
    features: Seq<Seq<char>>,
    flags: Seq<Seq<char>>,
    ts: Seq<(Seq<char>, Seq<Seq<char>>)>,
    skills: Seq<Seq<char>>,
)
    ensures
        caps_ok(semantic_spec(features, flags, ts, skills)),
        has_id(semantic_spec(features, flags, ts, skills), "run.submit"@) <==> run_sources_spec(
            features,
            flags,
        ).len() > 0,
        has_id(semantic_spec(features, flags, ts, skills), "file.output"@) <==> tool_sources_spec(
            ts,
            "file"@,
            seq!["write_file"@, "patch"@],
        ).len() > 0,
        has_id(semantic_spec(features, flags, ts, skills), "session.search"@) <==> tool_sources_spec(
            ts,
            "session_search"@,
            seq!["session_search"@],
        ).len() > 0,
        has_id(semantic_spec(features, flags, ts, skills), "skills.use"@) <==> skills.len() > 0
            && tool_sources_spec(ts, "skills"@, seq!["skills_list"@, "skill_view"@, "skill_manage"@]).len()
            > 0,
{
    reveal_strlit("run.submit");
    reveal_strlit("file.output");
    reveal_strlit("session.search");
    reveal_strlit("skills.use");
    let (r_id, f_id, s_id, k_id) = ("run.submit"@, "file.output"@, "session.search"@, "skills.use"@);
    assert(r_id.len() == 10 && f_id.len() == 11 && s_id.len() == 14 && k_id.len() == 10);
    assert(r_id != k_id) by {
        assert(r_id[0] != k_id[0]);
    }
    let e = Seq::<(Seq<char>, Seq<char>, Seq<Seq<char>>)>::empty();
    assert(!has_id(e, r_id) && !has_id(e, f_id) && !has_id(e, s_id) && !has_id(e, k_id));
    let rs = run_sources_spec(features, flags);
    let fo = tool_sources_spec(ts, "file"@, seq!["write_file"@, "patch"@]);
    let ss = tool_sources_spec(ts, "session_search"@, seq!["session_search"@]);
    let st = tool_sources_spec(ts, "skills"@, seq!["skills_list"@, "skill_view"@, "skill_manage"@]);
    let sk = if skills.len() == 0 || st.len() == 0 {
        Seq::empty()
    } else {
        st.push("skills.enabled"@)
    };
    lemma_push_if_ok(e, r_id, "Görev çalıştırabilir"@, rs);
    let i1 = push_if(e, r_id, "Görev çalıştırabilir"@, rs);
    assert(has_id(i1, f_id) == has_id(e, f_id));
    assert(has_id(i1, s_id) == has_id(e, s_id));
    assert(has_id(i1, k_id) == has_id(e, k_id));
    lemma_push_if_ok(i1, f_id, "Dosya çıktısı üretebilir"@, fo);
    let i2 = push_if(i1, f_id, "Dosya çıktısı üretebilir"@, fo);
    assert(has_id(i2, r_id) == has_id(i1, r_id));
    assert(has_id(i2, s_id) == has_id(i1, s_id));
    assert(has_id(i2, k_id) == has_id(i1, k_id));
    lemma_push_if_ok(i2, s_id, "Geçmiş konuşmaları arayabilir"@, ss);
    let i3 = push_if(i2, s_id, "Geçmiş konuşmaları arayabilir"@, ss);
    assert(has_id(i3, r_id) == has_id(i2, r_id));
    assert(has_id(i3, f_id) == has_id(i2, f_id));
    assert(has_id(i3, k_id) == has_id(i2, k_id));
    lemma_push_if_ok(i3, k_id, "Hazır becerileri kullanabilir"@, sk);
    let i4 = push_if(i3, k_id, "Hazır becerileri kullanabilir"@, sk);
    assert(has_id(i4, r_id) == has_id(i3, r_id));
    assert(has_id(i4, f_id) == has_id(i3, f_id));
    assert(has_id(i4, s_id) == has_id(i3, s_id));
    assert(i4 == semantic_spec(features, flags, ts, skills));
}

} // verus!
