use arkeles::error::CoreError;
use arkeles::index::{fts_query, link_stem, missing_paths, note_rows, TaskTarget, WriteTarget, SCHEMA_VERSION};
use arkeles::ipc::{index_status, plan_task_move, require_managed};
use arkeles::json::Json;
use arkeles::vault::note::{NoteKind, ParsedNote, ParsedTask, TaskStatus};
use arkeles::index::plan_scan;
use arkeles::vault::reader::{entry_action, EntryAction, EntryKind};
use arkeles::watcher::is_relevant;
use arkeles::AppState;
use arkeles::config::{Config, ConfigData};

fn target(path: &str, line: u32) -> TaskTarget {
    TaskTarget {
        note: WriteTarget { source_path: path.into(), managed: true, content_hash: "h".into() },
        line_number: line,
        title: "görev".into(),
        status: "open".into(),
    }
}

#[test]
fn ayni_nottaki_gorevler_satir_planina_donusur() {
    assert_eq!(plan_task_move(&target("a.md", 7), &target("a.md", 9)).unwrap(), (7, 9));
    assert_eq!(plan_task_move(&target("a.md", 9), &target("a.md", 7)).unwrap(), (9, 7));
}

#[test]
fn notlar_arasi_tasima_reddedilir() {
    let err = plan_task_move(&target("a.md", 3), &target("b.md", 3)).unwrap_err();
    assert_eq!(err.code(), "target_mismatch");
}

#[test]
fn yonetilmeyen_not_salt_okunur() {
    let mut t = target("a.md", 1).note;
    assert!(require_managed(&t).is_ok());
    t.managed = false;
    assert_eq!(require_managed(&t).unwrap_err(), CoreError::NoteUnmanaged);
    assert_eq!(CoreError::NoteUnmanaged.code(), "note_unmanaged");
}

#[test]
fn index_durumu_surume_bagli() {
    let s = index_status(SCHEMA_VERSION);
    assert!(s.ready);
    assert!(!s.rebuilding);
    assert!(!index_status(1).ready);
    assert_eq!(index_status(0).schema_version, 0);
}

#[test]
fn arama_sorgusu_operatorleri_metin_yapar() {
    assert_eq!(fts_query("  ").as_deref(), None);
    assert_eq!(fts_query(" bütçe ").as_deref(), Some("\"bütçe\"*"));
    assert_eq!(fts_query("a\"b OR c").as_deref(), Some("\"a b OR c\"*"));
}

#[test]
fn baglanti_koku_dosya_adindan() {
    assert_eq!(link_stem("WIF/Haftalık.md"), "Haftalık");
    assert_eq!(link_stem("kök.md.md"), "kök");
    assert_eq!(link_stem("a/b/c"), "c");
    assert_eq!(link_stem("a/"), "");
}

#[test]
fn kasadan_cikan_notlar_bulunur() {
    let indexed = vec!["a.md".to_string(), "b.md".to_string(), "c.md".to_string()];
    let seen = vec!["c.md".to_string(), "a.md".to_string()];
    assert_eq!(missing_paths(&indexed, &seen), vec!["b.md".to_string()]);
    assert!(missing_paths(&indexed, &indexed).is_empty());
}

#[test]
fn not_satirlari_turetilir() {
    let note = ParsedNote {
        id: "01ARZ3NDEKTSV4RRFFQ69G5FAV".into(),
        managed: true,
        title: "t".into(),
        source_path: "WIF/t.md".into(),
        frontmatter: vec![
            ("due".to_string(), Json::Str("2026-10-01".into())),
            ("created".to_string(), Json::Str("2026-09-01".into())),
        ],
        tasks: vec![
            ParsedTask { line_number: 3, title: "a".into(), status: TaskStatus::Open, due: None },
            ParsedTask {
                line_number: 4,
                title: "b".into(),
                status: TaskStatus::Done,
                due: Some("2026-09-20".into()),
            },
        ],
        links: vec!["Bütçe".into()],
        body: String::new(),
        content_hash: "h".into(),
        modified_at: "m".into(),
        workspace: Some("wif".into()),
        kind: NoteKind::Note,
        event_date: None,
    };
    let rows = note_rows(&note);
    assert_eq!(rows.created_at.as_deref(), Some("2026-09-01"));
    assert_eq!(rows.tasks.len(), 2);
    assert_eq!(rows.tasks[0].id, "01ARZ3NDEKTSV4RRFFQ69G5FAV#3");
    assert_eq!(rows.tasks[0].status, "open");
    assert_eq!(rows.tasks[0].due.as_deref(), Some("2026-10-01"));
    assert_eq!(rows.tasks[1].status, "done");
    assert_eq!(rows.tasks[1].due.as_deref(), Some("2026-09-20"));
    assert_eq!(rows.tasks[1].workspace.as_deref(), Some("wif"));
    assert_eq!(rows.links, vec!["Bütçe".to_string()]);
}

#[test]
fn yalniz_markdown_ve_artefakt_olmayan_yollar() {
    assert!(is_relevant("/Users/a/Vault/WIF/plan.md"));
    assert!(is_relevant("/Users/a/Vault/plan.MD"));
    assert!(is_relevant("notlar/./a.md"));
    assert!(!is_relevant("/Users/a/Vault/.obsidian/workspace.md"));
    assert!(!is_relevant("/Users/a/Vault/.trash/eski.md"));
    assert!(!is_relevant("/Users/a/Vault/plan.md.icloud"));
    assert!(!is_relevant("/Users/a/Vault/resim.png"));
    assert!(!is_relevant("/Users/a/Vault/.md"));
    assert!(!is_relevant("./a.md"));
    assert!(!is_relevant("/Users/a/Vault/~$rapor.md"));
    assert!(!is_relevant("/Users/a/Vault/plan (Ali's conflicted copy).md"));
}

#[test]
fn yeniden_kurulum_bayragi() {
    let mut s = AppState::new(Config::new(ConfigData::default()));
    assert!(!s.is_rebuilding());
    s.set_rebuilding(true);
    assert!(s.is_rebuilding());
    s.set_rebuilding(false);
    assert!(!s.is_rebuilding());
}

fn row(p: &str, h: &str) -> (String, String) {
    (p.to_string(), h.to_string())
}

#[test]
fn scan_skips_unchanged_and_writes_new_or_changed() {
    let indexed = vec![row("a.md", "h1"), row("b.md", "h2"), row("gone.md", "h9")];
    let read = vec![
        Some(row("a.md", "h1")), // unchanged
        None,                    // unreadable
        Some(row("b.md", "h3")), // changed
        Some(row("c.md", "h4")), // new
    ];
    let plan = plan_scan(&indexed, &read);
    assert_eq!(plan.upsert, vec![2, 3]);
    assert_eq!(plan.seen, vec!["a.md".to_string(), "b.md".to_string(), "c.md".to_string()]);
    assert_eq!(plan.report.scanned, 4);
    assert_eq!(plan.report.reindexed, 2);
    assert_eq!(plan.report.unchanged, 1);
    assert_eq!(plan.report.unreadable, 1);
    assert_eq!(plan.report.removed, 0);
    let indexed_paths: Vec<String> = indexed.iter().map(|r| r.0.clone()).collect();
    assert_eq!(missing_paths(&indexed_paths, &plan.seen), vec!["gone.md".to_string()]);
}

#[test]
fn second_scan_of_same_vault_writes_nothing() {
    let read = vec![Some(row("a.md", "h1")), Some(row("b.md", "h2"))];
    let indexed = vec![row("b.md", "h2"), row("a.md", "h1")];
    let plan = plan_scan(&indexed, &read);
    assert!(plan.upsert.is_empty());
    assert_eq!(plan.report.unchanged, 2);
    // a first scan writes everything
    let first = plan_scan(&Vec::new(), &read);
    assert_eq!(first.upsert, vec![0, 1]);
}

#[test]
fn walk_keeps_markdown_and_skips_artefacts() {
    assert_eq!(entry_action("not.md", EntryKind::File), EntryAction::Collect);
    assert_eq!(entry_action("NOT.MD", EntryKind::File), EntryAction::Collect);
    assert_eq!(entry_action("resim.png", EntryKind::File), EntryAction::Skip);
    assert_eq!(entry_action("md", EntryKind::File), EntryAction::Skip);
    assert_eq!(entry_action("not.md.icloud", EntryKind::File), EntryAction::Skip);
    assert_eq!(entry_action("~$rapor.md", EntryKind::File), EntryAction::Skip);
    assert_eq!(entry_action("a (conflicted copy).md", EntryKind::File), EntryAction::Skip);
    assert_eq!(entry_action("Projeler", EntryKind::Dir), EntryAction::Descend);
    assert_eq!(entry_action(".obsidian", EntryKind::Dir), EntryAction::Skip);
    assert_eq!(entry_action(".git", EntryKind::Dir), EntryAction::Skip);
    assert_eq!(entry_action("bag.md", EntryKind::Other), EntryAction::Skip);
}
