use arkeles::hermes::capabilities::{
    ArkelesSemanticCapabilities, HermesCapabilitySnapshot, FILE_OUTPUT, RUN_SUBMIT, SESSION_SEARCH,
    SKILLS_USE,
};
use arkeles::hermes::client::health;
use arkeles::hermes::contract::find_action;
use arkeles::ipc::available_actions;
use arkeles::json::Json;
use arkeles::types::HermesHealth;

fn s(v: &str) -> Json {
    Json::Str(v.to_string())
}

fn b(v: bool) -> Json {
    Json::Bool(v)
}

fn arr(items: Vec<Json>) -> Json {
    Json::Array(items)
}

fn obj(entries: Vec<(&str, Json)>) -> Json {
    Json::Object(entries.into_iter().map(|(k, v)| (k.to_string(), v)).collect())
}

fn mapped(
    status: Option<&Json>,
    flags: Option<&Json>,
    toolsets: Option<&Json>,
    skills: Option<&Json>,
) -> ArkelesSemanticCapabilities {
    ArkelesSemanticCapabilities::from_snapshot(&HermesCapabilitySnapshot::from_values(
        status, flags, toolsets, skills,
    ))
}

#[test]
fn explicit_run_capability_semantik_aksiyonu_acar() {
    let status = obj(vec![("features", obj(vec![("run_submission", b(true))]))]);
    let semantic = mapped(Some(&status), None, None, None);
    let action = find_action("task.execute").unwrap();

    assert!(semantic.supports(&action.required_capabilities));
    assert_eq!(semantic.items[0].label, "Görev çalıştırabilir");
    assert_eq!(semantic.items[0].sources, ["capabilities.run_submission"]);
}

#[test]
fn canli_gateway_submit_bayragi_run_yetenegine_eslenir() {
    let flags = obj(vec![("per_session_exclusive_submit", b(true))]);
    let semantic = mapped(None, Some(&flags), None, None);

    assert!(semantic.supports(&[RUN_SUBMIT]));
    assert_eq!(semantic.items[0].sources, ["gateway.capabilities.per_session_exclusive_submit"]);
}

#[test]
fn health_var_capability_yoksa_guvenli_kapali() {
    let status = obj(vec![
        ("gateway", obj(vec![("running", b(true))])),
        ("components", obj(vec![("agent", obj(vec![("status", s("ok"))]))])),
    ]);
    assert!(mapped(Some(&status), None, None, None).items.is_empty());
}

#[test]
fn bozuk_capability_payloadlari_guvenli_kapali() {
    let status = obj(vec![
        ("capabilities", s("run_submission")),
        ("features", arr(vec![s("run_submission")])),
    ]);
    let flags = arr(vec![s("per_session_exclusive_submit")]);
    let toolsets = obj(vec![("data", obj(vec![("name", s("file"))]))]);
    let skills = obj(vec![("data", s("skill"))]);

    assert!(mapped(Some(&status), Some(&flags), Some(&toolsets), Some(&skills)).items.is_empty());
}

#[test]
fn explicit_toolset_mapping_dogru_ve_kapali_toolset_acmaz() {
    let toolsets = arr(vec![
        obj(vec![
            ("name", s("file")),
            ("enabled", b(true)),
            ("configured", b(true)),
            ("tools", arr(vec![s("read_file"), s("write_file"), s("patch")])),
        ]),
        obj(vec![
            ("name", s("session_search")),
            ("enabled", b(true)),
            ("configured", b(true)),
            ("tools", arr(vec![s("session_search")])),
        ]),
        obj(vec![
            ("name", s("skills")),
            ("enabled", b(false)),
            ("configured", b(true)),
            ("tools", arr(vec![s("skills_list")])),
        ]),
    ]);
    let semantic = mapped(None, None, Some(&toolsets), None);

    assert!(semantic.supports(&[FILE_OUTPUT, SESSION_SEARCH]));
    assert!(!semantic.supports(&[SKILLS_USE]));
    let file = semantic.items.iter().find(|item| item.id == FILE_OUTPUT).unwrap();
    assert_eq!(file.sources, ["toolsets.file.write_file", "toolsets.file.patch"]);
}

#[test]
fn note_ve_rapor_icin_run_ve_file_birlikte_gerekir() {
    let status = obj(vec![("features", obj(vec![("run_submission", b(true))]))]);
    let without_file = mapped(Some(&status), None, None, None);
    let note = find_action("note.create").unwrap();
    let report = find_action("report.create").unwrap();
    assert!(!without_file.supports(&note.required_capabilities));
    assert!(!without_file.supports(&report.required_capabilities));

    let toolsets = obj(vec![(
        "data",
        arr(vec![obj(vec![
            ("name", s("file")),
            ("enabled", b(true)),
            ("configured", b(true)),
            ("tools", arr(vec![s("write_file")])),
        ])]),
    )]);
    let with_file = mapped(Some(&status), None, Some(&toolsets), None);
    assert!(with_file.supports(&note.required_capabilities));
    assert!(with_file.supports(&report.required_capabilities));
}

#[test]
fn skill_yetenegi_toolset_ve_acik_skill_birlikteyken_var() {
    let toolsets = arr(vec![obj(vec![
        ("name", s("skills")),
        ("enabled", b(true)),
        ("configured", b(true)),
        ("tools", arr(vec![s("skills_list"), s("skill_view")])),
    ])]);
    let skills = arr(vec![obj(vec![("name", s("research")), ("enabled", b(true))])]);
    let semantic = mapped(None, None, Some(&toolsets), Some(&skills));
    assert!(semantic.supports(&[SKILLS_USE]));
    let skill = semantic.items.iter().find(|item| item.id == SKILLS_USE).unwrap();
    assert_eq!(
        skill.sources,
        ["toolsets.skills.skills_list", "toolsets.skills.skill_view", "skills.enabled"]
    );
}

#[test]
fn acik_skill_yoksa_skill_yetenegi_yok() {
    let toolsets = arr(vec![obj(vec![
        ("name", s("skills")),
        ("enabled", b(true)),
        ("configured", b(true)),
        ("tools", arr(vec![s("skills_list")])),
    ])]);
    let skills = arr(vec![obj(vec![("name", s("research")), ("enabled", b(false))])]);
    assert!(!mapped(None, None, Some(&toolsets), Some(&skills)).supports(&[SKILLS_USE]));
}

#[test]
fn saglik_yaniti_yoksa_ulasilamaz() {
    let h = health(None, None);
    assert!(!h.reachable);
    assert!(h.version.is_none());
    assert!(h.capabilities.is_empty());
}

#[test]
fn saglik_surum_ve_yetenekleri_tasir() {
    let answer = obj(vec![("version", s("0.21.0"))]);
    let status = obj(vec![("capabilities", arr(vec![s("run_submission"), s(" ")]))]);
    let h = health(Some(&answer), Some(&status));
    assert!(h.reachable);
    assert_eq!(h.version.as_deref(), Some("0.21.0"));
    assert_eq!(h.capabilities, vec!["run.submit".to_string()]);

    let h = health(Some(&obj(vec![])), None);
    assert!(h.reachable);
    assert!(h.version.is_none());
    assert!(h.capabilities.is_empty());
}

#[test]
fn sunulan_aksiyonlar_ilan_edilenlerle_sinirli() {
    assert!(available_actions(&HermesHealth::unreachable()).is_empty());
    let h = HermesHealth {
        reachable: true,
        version: None,
        capabilities: vec!["run.submit".to_string()],
    };
    let ids: Vec<String> = available_actions(&h).into_iter().map(|a| a.id).collect();
    assert_eq!(ids, vec!["task.execute".to_string(), "analysis.create".to_string()]);

    let h = HermesHealth {
        reachable: true,
        version: None,
        capabilities: vec!["file.output".to_string(), "run.submit".to_string()],
    };
    assert_eq!(available_actions(&h).len(), 4);
    let h = HermesHealth { reachable: false, ..h };
    assert!(available_actions(&h).is_empty());
}

#[test]
fn skills_toolseti_yoksa_acik_skill_yetmez() {
    let skills = arr(vec![obj(vec![("name", s("research")), ("enabled", b(true))])]);
    assert!(!mapped(None, None, None, Some(&skills)).supports(&[SKILLS_USE]));
}

#[test]
fn her_yetenek_bir_kez_ve_kaynakli_listelenir() {
    let status = obj(vec![("features", obj(vec![("run_submission", b(true))]))]);
    let toolsets = arr(vec![
        obj(vec![("name", s("file")), ("enabled", b(true)), ("configured", b(true)), ("tools", arr(vec![s("write_file"), s("patch")]))]),
        obj(vec![("name", s("session_search")), ("enabled", b(true)), ("configured", b(true)), ("tools", arr(vec![s("session_search")]))]),
        obj(vec![("name", s("skills")), ("enabled", b(true)), ("configured", b(true)), ("tools", arr(vec![s("skills_list")]))]),
    ]);
    let skills = arr(vec![obj(vec![("name", s("research")), ("enabled", b(true))])]);
    let semantic = mapped(Some(&status), None, Some(&toolsets), Some(&skills));
    let ids: Vec<&str> = semantic.items.iter().map(|i| i.id.as_str()).collect();
    assert_eq!(ids, vec![RUN_SUBMIT, FILE_OUTPUT, SESSION_SEARCH, SKILLS_USE]);
    assert!(semantic.items.iter().all(|i| !i.sources.is_empty()));
}
