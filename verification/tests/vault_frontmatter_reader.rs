use arkeles::json::{Json, Yaml, YamlNumber};
use arkeles::vault::frontmatter::{frame, frontmatter_map, string_field};
use arkeles::vault::note::{NoteKind, ParsedNote, TaskStatus};
use arkeles::vault::reader::{
    build_note, derive_title, derive_workspace, hash, is_sync_artifact, note_of_file, truncate_on_char_boundary,
    MAX_BODY_BYTES,
};

fn to_yaml(v: serde_yaml::Value) -> Yaml {
    match v {
        serde_yaml::Value::Null => Yaml::Null,
        serde_yaml::Value::Bool(b) => Yaml::Bool(b),
        serde_yaml::Value::Number(n) => Yaml::Number(YamlNumber {
            as_i64: n.as_i64(),
            float_json: n
                .as_f64()
                .and_then(serde_json::Number::from_f64)
                .map(|x| x.to_string()),
            text: n.to_string(),
        }),
        serde_yaml::Value::String(s) => Yaml::Str(s),
        serde_yaml::Value::Sequence(items) => Yaml::List(items.into_iter().map(to_yaml).collect()),
        serde_yaml::Value::Mapping(m) => {
            Yaml::Mapping(m.into_iter().map(|(k, v)| (to_yaml(k), to_yaml(v))).collect())
        }
        serde_yaml::Value::Tagged(t) => Yaml::Tagged(Box::new(to_yaml(t.value))),
    }
}

fn parse_yaml(text: &str) -> Option<Yaml> {
    serde_yaml::from_str::<serde_yaml::Value>(text).ok().map(to_yaml)
}

/// The frontmatter map and body of a note, as the reader takes them.
fn split(content: &str) -> (Vec<(String, Json)>, String) {
    let f = frame(content);
    let parsed = f.yaml.as_deref().and_then(parse_yaml);
    let fm = frontmatter_map(f.yaml.as_deref().unwrap_or(""), parsed.as_ref());
    (fm, f.body)
}

fn member<'a>(fm: &'a [(String, Json)], key: &str) -> Option<&'a Json> {
    fm.iter().find(|(k, _)| k == key).map(|(_, v)| v)
}

fn note_of(path: &str, content: &str) -> ParsedNote {
    let f = frame(content);
    let parsed = f.yaml.as_deref().and_then(parse_yaml);
    let stem = path.rsplit('/').next().map(|n| n.trim_end_matches(".md").to_string());
    build_note(content.as_bytes(), parsed.as_ref(), path, stem, 0)
}

#[test]
fn frontmatter_yoksa_hepsi_govdedir() {
    let (fm, body) = split("# Başlık\n\nmetin");
    assert!(fm.is_empty());
    assert_eq!(body, "# Başlık\n\nmetin");
}

#[test]
fn basit_frontmatter_okunur() {
    let (fm, body) = split("---\narkeles_id: 01ARZ3NDEKTSV4RRFFQ69G5FAV\nworkspace: WIF\n---\ngövde");
    assert_eq!(string_field(&fm, "arkeles_id").unwrap(), "01ARZ3NDEKTSV4RRFFQ69G5FAV");
    assert_eq!(string_field(&fm, "workspace").unwrap(), "WIF");
    assert_eq!(body, "gövde");
}

#[test]
fn bom_atlanir() {
    let (fm, _) = split("\u{feff}---\nworkspace: GEN\n---\nx");
    assert_eq!(string_field(&fm, "workspace").unwrap(), "GEN");
}

#[test]
fn crlf_satir_sonu_desteklenir() {
    let (fm, body) = split("---\r\nworkspace: TüGA\r\n---\r\ngövde\r\n");
    assert_eq!(string_field(&fm, "workspace").unwrap(), "TüGA");
    assert_eq!(body, "gövde\r\n");
}

#[test]
fn bozuk_yaml_bosaltir_ama_govdeyi_korur() {
    let (fm, body) = split("---\nfoo: [unclosed\n  bar: : :\n---\ngerçek gövde");
    assert!(fm.is_empty());
    assert_eq!(body, "gerçek gövde");
}

#[test]
fn kapanis_citi_yoksa_frontmatter_sayilmaz() {
    let content = "---\nworkspace: WIF\ngövde devam";
    let (fm, body) = split(content);
    assert!(fm.is_empty());
    assert_eq!(body, content);
}

#[test]
fn bos_frontmatter_sorun_degil() {
    let (fm, body) = split("---\n---\ngövde");
    assert!(fm.is_empty());
    assert_eq!(body, "gövde");
}

#[test]
fn bos_dosya_panik_yapmaz() {
    let (fm, body) = split("");
    assert!(fm.is_empty());
    assert_eq!(body, "");
}

#[test]
fn liste_ve_nested_deger_json_olur() {
    let (fm, _) = split("---\ntags:\n  - a\n  - b\nmeta:\n  k: v\n---\n");
    match member(&fm, "tags") {
        Some(Json::Array(items)) => {
            assert_eq!(items.len(), 2);
            assert!(matches!(&items[0], Json::Str(s) if s == "a"));
            assert!(matches!(&items[1], Json::Str(s) if s == "b"));
        }
        other => panic!("liste bekleniyordu: {other:?}"),
    }
    match member(&fm, "meta") {
        Some(Json::Object(es)) => {
            assert!(matches!(member(es, "k"), Some(Json::Str(s)) if s == "v"));
        }
        other => panic!("nesne bekleniyordu: {other:?}"),
    }
}

#[test]
fn govde_icindeki_uc_tire_frontmatter_sanilmaz() {
    let (fm, body) = split("# Başlık\n\n---\n\nayraç");
    assert!(fm.is_empty());
    assert!(body.contains("ayraç"));
}

#[test]
fn emoji_iceren_frontmatter_bozulmaz() {
    let (fm, _) = split("---\nworkspace: \"Merci 🌱\"\n---\nx");
    assert_eq!(string_field(&fm, "workspace").unwrap(), "Merci 🌱");
}

#[test]
fn sayi_ve_mantiksal_alanlar_dizge_okunur() {
    let (fm, _) = split("---\nsayi: 42\nkesir: 1.5\nbayrak: true\nbos: \"   \"\n---\n");
    assert_eq!(string_field(&fm, "sayi").unwrap(), "42");
    assert_eq!(string_field(&fm, "kesir").unwrap(), "1.5");
    assert_eq!(string_field(&fm, "bayrak").unwrap(), "true");
    assert_eq!(string_field(&fm, "bos"), None);
    assert_eq!(string_field(&fm, "yok"), None);
}

#[test]
fn icloud_placeholder_filtrelenir() {
    assert!(is_sync_artifact(".not.md.icloud"));
    assert!(is_sync_artifact("plan.md.icloud"));
}

#[test]
fn gizli_dosyalar_filtrelenir() {
    assert!(is_sync_artifact(".DS_Store"));
    assert!(is_sync_artifact(".obsidian"));
}

#[test]
fn office_gecici_dosyalari_filtrelenir() {
    assert!(is_sync_artifact("~$rapor.docx"));
}

#[test]
fn dropbox_cakisma_kopyalari_filtrelenir() {
    assert!(is_sync_artifact("plan (Ali's conflicted copy 2026-09-11).md"));
}

#[test]
fn normal_notlar_gecer() {
    assert!(!is_sync_artifact("plan.md"));
    assert!(!is_sync_artifact("WIF — Haftalık Ekip Notu.md"));
    assert!(!is_sync_artifact("2026-09-11.md"));
}

#[test]
fn senkron_kopyasi_dosya_2_filtrelenir() {
    assert!(is_sync_artifact("plan 2.md"));
    assert!(is_sync_artifact("WIF Notu 12.md"));
    assert!(!is_sync_artifact("Sprint2.md"));
    assert!(!is_sync_artifact("plan .md"));
}

#[test]
fn hash_kararli_ve_icerige_duyarli() {
    assert_eq!(hash(b"abc"), hash(b"abc"));
    assert_ne!(hash(b"abc"), hash(b"abd"));
    assert_eq!(hash(b"abc").len(), 32);
}

#[test]
fn hash_sha256_onekinin_onaltiligi() {
    assert_eq!(hash(b"abc"), "ba7816bf8f01cfea414140de5dae2223");
    assert_eq!(hash(b""), "e3b0c44298fc1c149afbf4c8996fb924");
}

#[test]
fn kirpma_utf8_sinirini_bozmaz() {
    let s = "🌱";
    assert_eq!(truncate_on_char_boundary(s, 2), "");
    assert_eq!(truncate_on_char_boundary(s, 4), "🌱");
}

#[test]
fn kirpma_bayt_sinirina_uyar() {
    assert_eq!(truncate_on_char_boundary("aöb", 2), "a");
    assert_eq!(truncate_on_char_boundary("aöb", 3), "aö");
    assert_eq!(truncate_on_char_boundary("abc", 10), "abc");
    assert_eq!(MAX_BODY_BYTES, 1024 * 1024);
}

#[test]
fn baslik_sirasi() {
    let (fm, _) = split("---\ntitle: \"  Başlık  \"\n---\n");
    let empty: Vec<(String, Json)> = Vec::new();
    assert_eq!(derive_title(&fm, "# H1", Some("dosya".into())), "Başlık");
    assert_eq!(derive_title(&empty, "metin\n  #  Büyük başlık \n", Some("dosya".into())), "Büyük başlık");
    assert_eq!(derive_title(&empty, "#etiket\n#\n", Some("dosya".into())), "dosya");
    assert_eq!(derive_title(&empty, "", None), "Adsız");
}

#[test]
fn calisma_alani_yalniz_tek_seviye_klasorden() {
    let empty: Vec<(String, Json)> = Vec::new();
    assert_eq!(derive_workspace(&empty, "WIF/plan.md").as_deref(), Some("WIF"));
    assert_eq!(derive_workspace(&empty, "plan.md"), None);
    let (fm, _) = split("---\nworkspace: GEN\n---\n");
    assert_eq!(derive_workspace(&fm, "WIF/plan.md").as_deref(), Some("GEN"));
}

#[test]
fn yonetilen_not_eksiksiz_okunur() {
    let content = "---\narkeles_id: 01ARZ3NDEKTSV4RRFFQ69G5FAV\nworkspace: WIF\narkeles_type: meeting\ndate: 2026-09-11\n---\n# Haftalık\n\n- [ ] rapor 📅 2026-09-12\n[[Bütçe]] ve [[Bütçe|tekrar]]\n";
    let n = note_of("WIF/haftalik.md", content);
    assert_eq!(n.id, "01ARZ3NDEKTSV4RRFFQ69G5FAV");
    assert!(n.managed);
    assert_eq!(n.title, "Haftalık");
    assert_eq!(n.workspace.as_deref(), Some("wif"));
    assert_eq!(n.kind, NoteKind::Meeting);
    assert_eq!(n.event_date.as_deref(), Some("2026-09-11"));
    assert_eq!(n.links, vec!["Bütçe".to_string()]);
    assert_eq!(n.tasks.len(), 1);
    assert_eq!(n.tasks[0].line_number, 9);
    assert_eq!(n.tasks[0].title, "rapor");
    assert_eq!(n.tasks[0].status, TaskStatus::Open);
    assert_eq!(n.tasks[0].due.as_deref(), Some("2026-09-12"));
    assert_eq!(n.content_hash, hash(content.as_bytes()));
    assert_eq!(n.modified_at, "1970-01-01T00:00:00Z");
    assert_eq!(n.source_path, "WIF/haftalik.md");
}

#[test]
fn yonetilmeyen_not_gecici_kimlik_alir() {
    let n = note_of("Notlar/okuma.md", "# Okuma\n");
    assert!(!n.managed);
    assert!(n.id.starts_with("path:"));
    assert_eq!(n.title, "Okuma");
    assert_eq!(n.workspace, None, "tanınmayan klasör hiçbir kuruma düşmez");
    assert_eq!(n.kind, NoteKind::Note);
    assert!(n.event_date.is_none());

    let n = note_of("okuma.md", "---\narkeles_id: kisa\n---\nmetin\n");
    assert!(!n.managed);
    assert_eq!(n.title, "okuma");
}

#[test]
fn buyuk_govde_kirpilir_gorevler_dosya_satiriyla() {
    let filler = "a".repeat(MAX_BODY_BYTES + 10);
    let content = format!("- [x] ilk\n{filler}");
    let n = note_of("x.md", &content);
    assert_eq!(n.body.len(), MAX_BODY_BYTES);
    assert_eq!(n.tasks.len(), 1);
    assert_eq!(n.tasks[0].status, TaskStatus::Done);
    assert_eq!(n.tasks[0].line_number, 1);
}

#[test]
fn bozuk_utf8_not_yine_okunur() {
    let bytes = b"# Ba\xffslik\n- [ ] g\xc3\n".to_vec();
    let n = build_note(&bytes, None, "b.md", None, 86_400);
    assert_eq!(n.title, "Ba\u{fffd}slik");
    assert_eq!(n.tasks.len(), 1);
    assert_eq!(n.modified_at, "1970-01-02T00:00:00Z");
}

#[test]
fn dosya_notu_satir_siniri_icinde_kurulur() {
    let n = note_of_file("# Başlık\n- [ ] iş\n".as_bytes(), None, "a.md", None, 0).expect("not");
    assert_eq!(n.title, "Başlık");
    assert_eq!(n.tasks[0].line_number, 2);
}
