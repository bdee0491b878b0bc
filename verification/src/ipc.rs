//! The decisions behind the interface's commands: which writes a target
//! allows, how a task move becomes a line move, which semantic actions are
//! offered, and the small records the commands answer with. The interface
//! sends names and narrow parameters only; targets are read from the index.
use vstd::prelude::*;

use crate::error::CoreError;
use crate::hermes::contract::{action_registry, action_view, actions, ActionDef};
use crate::index::{TaskTarget, WriteTarget, SCHEMA_VERSION};
use crate::text::{str_views, string_views};
use crate::types::HermesHealth;

verus! {

/// The new version of a written note, so the next write carries the right
/// guard.
#[derive(Debug, Clone)]
pub struct MutationResult {
    pub new_hash: String,
    /// The note the change was applied to.
    pub note_id: String,
}

/// The inbox quick capture appends to, and whether it exists; without it
/// quick capture is not shown.
#[derive(Debug, Clone)]
pub struct InboxStatus {
    /// Relative to the vault root.
    pub path: String,
    pub exists: bool,
}

/// The index as the interface sees it.
#[derive(Debug, Clone)]
pub struct IndexStatus {
    pub ready: bool,
    pub schema_version: i64,
    pub rebuilding: bool,
}

/// The index status for a stored schema version: ready when it is the
/// current one.
pub fn index_status(version: i64) -> (s: IndexStatus)
    ensures
        s.ready == (version == SCHEMA_VERSION),
        s.schema_version == version,
        !s.rebuilding,
{
    IndexStatus { ready: version == SCHEMA_VERSION, schema_version: version, rebuilding: false }
}

/// Only a managed note takes mechanical writes; any other is read-only.
pub fn require_managed(target: &WriteTarget) -> (r: Result<(), CoreError>)
    ensures
        target.managed ==> r is Ok,
        !target.managed ==> r == Err::<(), CoreError>(CoreError::NoteUnmanaged),
{
    if !target.managed {
        return Err(CoreError::NoteUnmanaged);
    }
    Ok(())
}

/// A task moves to the place of another task of the same note: the pair of
/// lines `(from, to)`. Moving between notes is a structural decision and is
/// refused.
pub fn plan_task_move(moving: &TaskTarget, target: &TaskTarget) -> (r: Result<(u32, u32), CoreError>)
    ensures
        moving.note.source_path@ == target.note.source_path@ ==> r == Ok::<(u32, u32), CoreError>(
            (moving.line_number, target.line_number),
        ),
        moving.note.source_path@ != target.note.source_path@ ==> r == Err::<(u32, u32), CoreError>(
            CoreError::TargetMismatch,
        ),
{
    if !crate::text::same_text(moving.note.source_path.as_str(), target.note.source_path.as_str()) {
        return Err(CoreError::TargetMismatch);
    }
    Ok((moving.line_number, target.line_number))
}

/// An action the interface may offer.
#[derive(Debug, Clone)]
pub struct AvailableAction {
    pub id: String,
    pub label: String,
    pub required_capabilities: Vec<String>,
}

/// Every required capability is among the declared ones.
pub open spec fn all_declared(required: Seq<Seq<char>>, declared: Seq<Seq<char>>) -> bool {
    forall|i: int| 0 <= i < required.len() ==> declared.contains(#[trigger] required[i])
}

/// The allowlisted actions whose capabilities Hermes declared, in
/// allowlist order; none when Hermes is unreachable.
pub open spec fn offered(health_reachable: bool, declared: Seq<Seq<char>>) -> Seq<(Seq<char>, Seq<char>, Seq<Seq<char>>)> {
    if !health_reachable {
        Seq::empty()
    } else {
        action_registry().filter(|a: (Seq<char>, Seq<char>, Seq<Seq<char>>)| all_declared(a.2, declared))
    }
}

/// The plain view of offered actions.
pub open spec fn available_views(v: Seq<AvailableAction>) -> Seq<(Seq<char>, Seq<char>, Seq<Seq<char>>)> {
    v.map_values(|a: AvailableAction| (a.id@, a.label@, string_views(a.required_capabilities@)))
}

/// Nothing Hermes did not declare is ever offered: every offered action is
/// on the allowlist and each capability it needs was declared; when Hermes
/// is unreachable nothing is offered.
pub proof fn lemma_offered_only_declared(reachable: bool, declared: Seq<Seq<char>>, k: int)
    requires
        0 <= k < offered(reachable, declared).len(),
    ensures
        reachable,
        action_registry().contains(offered(reachable, declared)[k]),
        all_declared(offered(reachable, declared)[k].2, declared),
{
    let f = |a: (Seq<char>, Seq<char>, Seq<Seq<char>>)| all_declared(a.2, declared);
    let o = offered(reachable, declared);
    assert(o == action_registry().filter(f));
    action_registry().filter_lemma(f);
    assert(o.contains(o[k]));
    action_registry().lemma_filter_contains_rev(f, o[k]);
}

fn declares_all(required: &Vec<&'static str>, declared: &Vec<String>) -> (b: bool)
    ensures
        b == all_declared(str_views(required@), string_views(declared@)),
{
    let mut i: usize = 0;
    while i < required.len()
        invariant
            i <= required.len(),
            forall|k: int| 0 <= k < i ==> string_views(declared@).contains(#[trigger] str_views(required@)[k]),
        decreases required.len() - i,
    {
        let r = crate::text::chars_of(required[i]);
        assert(str_views(required@)[i as int] == required@[i as int]@);
        if !crate::vault::links::holds(declared, &r) {
            return false;
        }
        i += 1;
    }
    true
}

fn strings_of(v: &Vec<&'static str>) -> (r: Vec<String>)
    ensures
        string_views(r@) == str_views(v@),
{
    let mut out: Vec<String> = Vec::new();
    let mut i: usize = 0;
    while i < v.len()
        invariant
            i <= v.len(),
            string_views(out@) == str_views(v@).subrange(0, i as int),
        decreases v.len() - i,
    {
        let ghost before = string_views(out@);
        let x = String::from_str(v[i]);
        out.push(x);
        assert(str_views(v@)[i as int] == v@[i as int]@);
        assert(string_views(out@) =~= before.push(v@[i as int]@));
        i += 1;
        assert(string_views(out@) =~= str_views(v@).subrange(0, i as int));
    }
    assert(str_views(v@).subrange(0, i as int) =~= str_views(v@));
    out
}

/// The semantic actions to offer: the allowlist intersected with what
/// Hermes declared. An empty result is a calm state.
pub fn available_actions(health: &HermesHealth) -> (r: Vec<AvailableAction>)
    ensures
        available_views(r@) == offered(health.reachable, string_views(health.capabilities@)),
{
    let mut out: Vec<AvailableAction> = Vec::new();
    if !health.reachable {
        assert(available_views(out@) =~= Seq::<(Seq<char>, Seq<char>, Seq<Seq<char>>)>::empty());
        return out;
    }
    let acts = actions();
    let ghost reg = action_registry();
    let ghost f = |a: (Seq<char>, Seq<char>, Seq<Seq<char>>)| all_declared(a.2, string_views(health.capabilities@));
    assert(acts@.len() == 4) by {
        assert(crate::hermes::contract::action_views(acts@).len() == acts@.len());
    }
    let mut i: usize = 0;
    while i < acts.len()
        invariant
            i <= acts.len(),
            acts@.len() == 4,
            reg == action_registry(),
            crate::hermes::contract::action_views(acts@) == reg,
            f == (|a: (Seq<char>, Seq<char>, Seq<Seq<char>>)| all_declared(a.2, string_views(health.capabilities@))),
            available_views(out@) == reg.subrange(0, i as int).filter(f),
        decreases acts.len() - i,
    {
        proof {
            let a = reg.subrange(0, i as int);
            assert(reg.subrange(0, i + 1) =~= a.push(reg[i as int]));
            reveal(Seq::filter);
            assert(a.push(reg[i as int]).drop_last() =~= a);
            assert(action_view(acts@[i as int]) == reg[i as int]);
        }
        let a = &acts[i];
        if declares_all(&a.required_capabilities, &health.capabilities) {
            let item = AvailableAction {
                id: String::from_str(a.id),
                label: String::from_str(a.label),
                required_capabilities: strings_of(&a.required_capabilities),
            };
            let ghost iv = (item.id@, item.label@, string_views(item.required_capabilities@));
            out.push(item);
            assert(available_views(out@) =~= reg.subrange(0, i as int).filter(f).push(iv));
        } else {
            assert(available_views(out@) =~= reg.subrange(0, i + 1).filter(f));
        }
        i += 1;
    }
    assert(reg.subrange(0, 4) =~= reg);
    out
}

} // verus!
