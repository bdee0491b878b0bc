//! Hermes's health as the interface sees it. Being unreachable is a valid
//! answer, never an error; capabilities come only from what Hermes declared.
use vstd::prelude::*;

use crate::hermes::capabilities::{
    capability_views, features_spec, opt_json, opt_wf, semantic_spec, ArkelesSemanticCapabilities,
    HermesCapabilitySnapshot,
};
use crate::json::{json_get, json_member, Json};
use crate::text::string_views;
use crate::types::HermesHealth;

verus! {

/// The ids of capabilities.
pub open spec fn cap_ids(items: Seq<(Seq<char>, Seq<char>, Seq<Seq<char>>)>) -> Seq<Seq<char>> {
    items.map_values(|c: (Seq<char>, Seq<char>, Seq<Seq<char>>)| c.0)
}

/// The ids of the semantic capabilities a status payload declares.
pub open spec fn status_capabilities(status: Option<Json>) -> Seq<Seq<char>> {
    cap_ids(semantic_spec(features_spec(status), Seq::empty(), Seq::empty(), Seq::empty()))
}

/// Health from the answers of `GET /api/health` and `GET /api/status`
/// (`None` when a request failed). Without a health answer Hermes is
/// unreachable; with one it is reachable, with the version it names, and
/// with the capabilities its status declares (none when the status could
/// not be read, e.g. without a valid token).
pub fn health(answer: Option<&Json>, status: Option<&Json>) -> (h: HermesHealth)
    requires
        opt_wf(answer),
        opt_wf(status),
    ensures
        h.reachable == answer.is_some(),
        match answer {
            None => h.version is None && h.capabilities@.len() == 0,
            Some(j) => {
                &&& h.version matches Some(v) ==> json_get(*j, "version"@) == Some(
                    Json::Str(v),
                )
                &&& h.version is None ==> !(json_get(*j, "version"@) matches Some(Json::Str(_)))
                &&& string_views(h.capabilities@) == status_capabilities(opt_json(status))
            },
        },
{
    let j = match answer {
        Some(j) => j,
        None => {
            return HermesHealth::unreachable();
        },
    };
    proof {
        reveal_strlit("version");
    }
    let version = match json_member(j, "version") {
        Some(Json::Str(v)) => Some(v.clone()),
        _ => None,
    };
    let snapshot = HermesCapabilitySnapshot::from_values(status, None, None, None);
    let semantic = ArkelesSemanticCapabilities::from_snapshot(&snapshot);
    let mut capabilities: Vec<String> = Vec::new();
    let mut i: usize = 0;
    while i < semantic.items.len()
        invariant
            i <= semantic.items.len(),
            string_views(capabilities@) == cap_ids(capability_views(semantic.items@).subrange(
                0,
                i as int,
            )),
        decreases semantic.items.len() - i,
    {
        let ghost before = string_views(capabilities@);
        let id = semantic.items[i].id.clone();
        capabilities.push(id);
        proof {
            let cv = capability_views(semantic.items@);
            assert(cv[i as int].0 == semantic.items@[i as int].id@);
            assert(string_views(capabilities@) =~= before.push(id@));
            assert(cap_ids(cv.subrange(0, i + 1)) =~= cap_ids(cv.subrange(0, i as int)).push(
                cv[i as int].0,
            ));
            assert(string_views(capabilities@) =~= cap_ids(cv.subrange(0, i + 1)));
        }
        i += 1;
    }
    proof {
        let cv = capability_views(semantic.items@);
        assert(cv.subrange(0, cv.len() as int) =~= cv);
        assert(string_views(snapshot.gateway_flags@) =~= Seq::<Seq<char>>::empty());
    }
    HermesHealth { reachable: true, version, capabilities }
}

} // verus!
