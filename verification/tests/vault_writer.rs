use arkeles::json::{Yaml, YamlNumber};
use arkeles::vault::frontmatter::frame;
use arkeles::vault::note::TaskStatus;
use arkeles::vault::reader::hash;
use arkeles::vault::writer::{
    append_to_inbox, capture_line, check_field_key, check_source_path, check_tag, move_line,
    quote_if_needed, rewrite_checkbox, set_frontmatter_field, set_task_status, toggle_tag, verify,
    write_result, FieldValue, WriteGuard,
};

fn guard(content: &str) -> WriteGuard {
    WriteGuard { expected_hash: hash(content.as_bytes()), expected_mtime_ms: Some(0) }
}

fn task(content: &str, line: u32, title: &str, status: TaskStatus) -> Result<String, arkeles::error::CoreError> {
    set_task_status(Some(content.as_bytes()), &guard(content), line, title, status)
}

fn field(content: &str, key: &str, value: Option<FieldValue>) -> Result<String, arkeles::error::CoreError> {
    set_frontmatter_field(Some(content.as_bytes()), &guard(content), key, value)
}

fn to_yaml(v: serde_yaml::Value) -> Yaml {
    match v {
        serde_yaml::Value::Null => Yaml::Null,
        serde_yaml::Value::Bool(b) => Yaml::Bool(b),
        serde_yaml::Value::Number(n) => Yaml::Number(YamlNumber {
            as_i64: n.as_i64(),
            float_json: n.as_f64().and_then(serde_json::Number::from_f64).map(|x| x.to_string()),
            text: n.to_string(),
        }),
        serde_yaml::Value::String(s) => Yaml::Str(s),
        serde_yaml::Value::Sequence(items) => Yaml::List(items.into_iter().map(to_yaml).collect()),
        serde_yaml::Value::Mapping(m) => {
            Yaml::Mapping(m.into_iter().map(|(k, v)| (to_yaml(k), to_yaml(v))).collect())
        }
        serde_yaml::Value::Tagged(t) => Yaml::Tagged(Box::new(to_yaml(t.value))),
    }
}

/// Toggles a tag the way the command does: the frontmatter of the bytes
/// read is parsed, then the library decides. `None` leaves the file alone.
fn tag(content: &str, t: &str, add: bool) -> Option<String> {
    let f = frame(content);
    let parsed = f
        .yaml
        .as_deref()
        .and_then(|y| serde_yaml::from_str::<serde_yaml::Value>(y).ok())
        .map(to_yaml);
    toggle_tag(Some(content.as_bytes()), parsed.as_ref(), &guard(content), t, add).unwrap()
}

// --- task state -------------------------------------------------------------

#[test]
fn checkbox_acik_kapali_olur() {
    let content = "# Başlık\n\n- [ ] görev bir\n- [ ] görev iki\n";
    let after = task(content, 3, "görev bir", TaskStatus::Done).expect("yazma başarılı olmalı");
    assert_eq!(after, "# Başlık\n\n- [x] görev bir\n- [ ] görev iki\n");
    let result = write_result(&after, 5);
    assert!(!result.new_hash.is_empty());
    assert_eq!(result.new_mtime_ms, 5);
}

#[test]
fn checkbox_kapali_acik_olur() {
    assert_eq!(task("- [x] bitti\n", 1, "bitti", TaskStatus::Open).unwrap(), "- [ ] bitti\n");
}

#[test]
fn buyuk_x_de_acilir() {
    assert_eq!(task("- [X] bitti\n", 1, "bitti", TaskStatus::Open).unwrap(), "- [ ] bitti\n");
}

#[test]
fn yalniz_hedef_satir_degisir_gerisi_bayt_bayt_korunur() {
    let original = "---\narkeles_id: 01ARZ3NDEKTSV4RRFFQ69G5FAV\n---\n# Başlık\n\n- [ ] bir\n\ttab\n- [ ] iki\n\nSon satır, sonu yok";
    let after = task(original, 8, "iki", TaskStatus::Done).unwrap();
    assert_eq!(after, original.replace("- [ ] iki", "- [x] iki"));
    assert!(after.ends_with("Son satır, sonu yok"), "eksik satır sonu korunmalı");
}

#[test]
fn vade_isareti_ve_girinti_korunur() {
    let content = "    - [ ]   rapor 📅 2026-09-11 #etiket\n";
    assert_eq!(
        task(content, 1, "rapor", TaskStatus::Done).unwrap(),
        "    - [x]   rapor 📅 2026-09-11 #etiket\n"
    );
}

#[test]
fn crlf_satir_sonlari_korunur() {
    let content = "# H\r\n\r\n- [ ] görev\r\n- [ ] diğer\r\n";
    assert_eq!(
        task(content, 3, "görev", TaskStatus::Done).unwrap(),
        "# H\r\n\r\n- [x] görev\r\n- [ ] diğer\r\n"
    );
}

#[test]
fn bom_korunur() {
    let mut bytes = vec![0xEF, 0xBB, 0xBF];
    bytes.extend_from_slice("- [ ] görev\n".as_bytes());
    let g = WriteGuard { expected_hash: hash(&bytes), expected_mtime_ms: None };
    let after = set_task_status(Some(&bytes), &g, 1, "görev", TaskStatus::Done).unwrap();
    assert_eq!(&after.as_bytes()[..3], &[0xEF, 0xBB, 0xBF], "BOM korunmalı");
    assert!(after.contains("- [x] görev"));
}

#[test]
fn turkce_ve_emoji_basliklar() {
    let content = "- [ ] Öğrenciyiz için içerik 🌱 hazırla\n";
    assert_eq!(
        task(content, 1, "Öğrenciyiz için içerik 🌱 hazırla", TaskStatus::Done).unwrap(),
        "- [x] Öğrenciyiz için içerik 🌱 hazırla\n"
    );
}

#[test]
fn baslik_uyusmazsa_yazilmaz() {
    let err = task("- [ ] gerçek görev\n", 1, "BAŞKA BAŞLIK", TaskStatus::Done)
        .expect_err("uyuşmayan başlık reddedilmeli");
    assert_eq!(err.code(), "target_mismatch");
}

#[test]
fn checkbox_olmayan_satira_yazilmaz() {
    let err = task("# Sadece başlık\n", 1, "Sadece başlık", TaskStatus::Done)
        .expect_err("checkbox olmayan satır reddedilmeli");
    assert_eq!(err.code(), "target_mismatch");
}

#[test]
fn olmayan_satir_reddedilir() {
    let err = task("- [ ] tek satır\n", 99, "tek satır", TaskStatus::Done)
        .expect_err("aralık dışı satır reddedilmeli");
    assert_eq!(err.code(), "target_mismatch");
    assert_eq!(task("- [ ] tek satır\n", 0, "tek satır", TaskStatus::Done).unwrap_err().code(), "target_mismatch");
}

#[test]
fn ara_durum_isaretlenince_x_kaldirilinca_bosluk_olur() {
    assert_eq!(task("- [/] sürüyor\n", 1, "sürüyor", TaskStatus::Done).unwrap(), "- [x] sürüyor\n");
    assert_eq!(task("* [>] bekliyor\n", 1, "bekliyor", TaskStatus::Deferred).unwrap(), "* [ ] bekliyor\n");
    assert_eq!(rewrite_checkbox("+  [-] iptal", "iptal", TaskStatus::Done).as_deref(), Some("+  [x] iptal"));
    assert_eq!(rewrite_checkbox("- [?] soru", "soru", TaskStatus::Done), None);
}

#[test]
fn isaretle_ve_geri_al_ayni_satiri_verir() {
    let line = "  - [ ] geri al 📅 2026-01-01";
    let done = rewrite_checkbox(line, "geri al", TaskStatus::Done).unwrap();
    assert_eq!(rewrite_checkbox(&done, "geri al", TaskStatus::Open).as_deref(), Some(line));
}

// --- conflicts and paths ------------------------------------------------------

#[test]
fn baska_surec_degistirmisse_cakisma() {
    let g = guard("- [ ] görev\n");
    let now = "- [ ] görev\nEklenen satır\n";
    let err = set_task_status(Some(now.as_bytes()), &g, 1, "görev", TaskStatus::Done)
        .expect_err("çakışma dönmeli");
    assert_eq!(err.code(), "conflict");
}

#[test]
fn mtime_ayni_hash_farkliysa_cakisma() {
    let g = WriteGuard { expected_hash: hash("- [ ] görev\n".as_bytes()), expected_mtime_ms: Some(42) };
    let err = set_task_status(Some("- [ ] BAŞKA içerik\n".as_bytes()), &g, 1, "görev", TaskStatus::Done)
        .expect_err("hash farkı çakışma vermeli");
    assert_eq!(err.code(), "conflict");
}

#[test]
fn dosya_silinmisse_cakisma() {
    let err = set_task_status(None, &guard("- [ ] görev\n"), 1, "görev", TaskStatus::Done)
        .expect_err("silinen dosya çakışma vermeli");
    assert_eq!(err.code(), "conflict");
}

#[test]
fn vault_disina_yazma_reddedilir() {
    for hostile in ["../kacis.md", "/etc/passwd", "", "alt/../../kacis.md", "a/.."] {
        let err = check_source_path(hostile).expect_err("vault dışı yol reddedilmeli");
        assert_eq!(err.code(), "path_outside_vault", "{hostile}");
    }
    assert!(check_source_path("alt/a.md").is_ok());
    assert!(check_source_path("a..b/c.md").is_ok());
}

#[test]
fn dogrulama_icerigi_cozumler() {
    let content = "çözümlenmiş\n";
    assert_eq!(verify(Some(content.as_bytes()), &guard(content)).unwrap(), content);
}

// --- frontmatter ----------------------------------------------------------------

#[test]
fn frontmatter_mevcut_key_guncellenir() {
    let content = "---\nworkspace: WIF\nstatus: açık\n---\n# Gövde\nmetin\n";
    assert_eq!(
        field(content, "status", Some(FieldValue::Text("kapandı".into()))).unwrap(),
        "---\nworkspace: WIF\nstatus: kapandı\n---\n# Gövde\nmetin\n"
    );
}

#[test]
fn frontmatter_yeni_key_eklenir_sira_bozulmaz() {
    assert_eq!(
        field("---\nworkspace: WIF\n---\ngövde\n", "durum", Some(FieldValue::Text("aktif".into()))).unwrap(),
        "---\nworkspace: WIF\ndurum: aktif\n---\ngövde\n"
    );
}

#[test]
fn frontmatter_govdeye_dokunmaz() {
    let body = "# Başlık\n\n- [ ] görev\n\n```yaml\nworkspace: TUZAK\n```\n";
    let content = format!("---\nworkspace: WIF\n---\n{body}");
    let after = field(&content, "workspace", Some(FieldValue::Text("GEN".into()))).unwrap();
    assert!(after.starts_with("---\nworkspace: GEN\n---\n"));
    assert!(after.ends_with(body), "gövde bayt bayt korunmalı");
}

#[test]
fn frontmatter_tipleri() {
    let mut c = "---\nx: 1\n---\ngövde\n".to_string();
    c = field(&c, "b", Some(FieldValue::Bool(true))).unwrap();
    c = field(&c, "n", Some(FieldValue::Number("42".into()))).unwrap();
    c = field(&c, "f", Some(FieldValue::Number("1.5".into()))).unwrap();
    c = field(&c, "l", Some(FieldValue::List(vec!["a".into(), "b".into()]))).unwrap();
    assert!(c.contains("b: true"), "{c}");
    assert!(c.contains("n: 42"), "{c}");
    assert!(c.contains("f: 1.5"), "{c}");
    assert!(c.contains("l:\n  - a\n  - b"), "{c}");
}

#[test]
fn frontmatter_liste_key_guncellenince_eski_blok_silinir() {
    assert_eq!(
        field(
            "---\ntags:\n  - eski1\n  - eski2\nworkspace: WIF\n---\ngövde\n",
            "tags",
            Some(FieldValue::List(vec!["yeni".into()]))
        )
        .unwrap(),
        "---\ntags:\n  - yeni\nworkspace: WIF\n---\ngövde\n"
    );
}

#[test]
fn frontmatter_key_kaldirilir() {
    assert_eq!(field("---\na: 1\nb: 2\n---\ngövde\n", "a", None).unwrap(), "---\nb: 2\n---\ngövde\n");
}

#[test]
fn frontmatter_yoksa_reddedilir() {
    let err = field("# Sadece gövde\n", "x", Some(FieldValue::Text("y".into())))
        .expect_err("frontmatter yoksa reddedilmeli");
    assert_eq!(err.code(), "no_frontmatter");
}

#[test]
fn arkeles_id_yazmak_reddedilir() {
    let content = "---\narkeles_id: 01ARZ3NDEKTSV4RRFFQ69G5FAV\n---\ngövde\n";
    let err = field(content, "arkeles_id", Some(FieldValue::Text("01ARZ3NDEKTSV4RRFFQ69G5FB1".into())))
        .expect_err("arkeles_id yazımı reddedilmeli");
    assert_eq!(err.code(), "semantic_refused");
}

#[test]
fn gecersiz_anahtar_reddedilir() {
    for key in ["", "  ", "a:b", "a\nb", "a\rb"] {
        assert_eq!(check_field_key(key).unwrap_err().code(), "target_mismatch", "{key:?}");
    }
    assert!(check_field_key("durum").is_ok());
}

#[test]
fn frontmatter_crlf_korunur() {
    assert_eq!(
        field("---\r\nworkspace: WIF\r\n---\r\ngövde\r\n", "workspace", Some(FieldValue::Text("GEN".into())))
            .unwrap(),
        "---\r\nworkspace: GEN\r\n---\r\ngövde\r\n"
    );
}

#[test]
fn bozuk_yaml_yazilabilir_ama_bozmadan() {
    let after = field(
        "---\nfoo: [unclosed\nworkspace: WIF\n---\ngövde\n",
        "workspace",
        Some(FieldValue::Text("GEN".into())),
    )
    .unwrap();
    assert!(after.contains("foo: [unclosed"), "bozuk satıra dokunulmamalı");
    assert!(after.contains("workspace: GEN"));
}

#[test]
fn yaml_ozel_degerler_tirnaklanir() {
    let mut c = "---\nx: 1\n---\ngövde\n".to_string();
    for (value, expect) in [
        ("true", "\"true\""),
        ("123", "\"123\""),
        ("- tire", "\"- tire\""),
        ("iki: nokta", "\"iki: nokta\""),
        ("normal metin", "normal metin"),
    ] {
        c = field(&c, "v", Some(FieldValue::Text(value.into()))).unwrap();
        assert!(c.contains(&format!("v: {expect}")), "{value} → {c}");
    }
}

#[test]
fn tirnaklama_kurallari() {
    assert_eq!(quote_if_needed(""), "\"\"");
    assert_eq!(quote_if_needed("a\"b\\c"), "a\"b\\c");
    assert_eq!(quote_if_needed("#a\"b\\c"), "\"#a\\\"b\\\\c\"");
    assert_eq!(quote_if_needed("1e5"), "\"1e5\"");
    assert_eq!(quote_if_needed(".5"), "\".5\"");
    assert_eq!(quote_if_needed("-inf"), "\"-inf\"");
    assert_eq!(quote_if_needed("NaN"), "\"NaN\"");
    assert_eq!(quote_if_needed("1e"), "1e");
    assert_eq!(quote_if_needed("1.2.3"), "1.2.3");
    assert_eq!(quote_if_needed("OFF"), "\"OFF\"");
    assert_eq!(quote_if_needed("~"), "\"~\"");
    assert_eq!(quote_if_needed("sonu:"), "\"sonu:\"");
    assert_eq!(quote_if_needed(" boşluk"), "\" boşluk\"");
    assert_eq!(quote_if_needed("Öğrenciyiz 🌱"), "Öğrenciyiz 🌱");
}

#[test]
fn buyuk_not_yazilabilir() {
    let filler = "Uzun bir satır, tekrar tekrar.\n".repeat(40_000);
    let content = format!("---\nworkspace: WIF\n---\n{filler}- [ ] görev\n");
    let line = 4 + filler.lines().count() as u32;
    let after = task(&content, line, "görev", TaskStatus::Done).expect("büyük notta yazma çalışmalı");
    assert!(after.contains("- [x] görev"));
}

// --- tags -------------------------------------------------------------------------

#[test]
fn etiket_eklenir_ve_cikarilir() {
    let content = "---\nworkspace: WIF\n---\ngövde\n";
    let added = tag(content, "acil", true).unwrap();
    assert!(added.contains("tags:\n  - acil"), "{added}");

    let removed = tag(&added, "acil", false).unwrap();
    assert!(!removed.contains("acil"), "{removed}");
    assert!(!removed.contains("tags:"), "boş liste yerine anahtar kalkmalı: {removed}");
    assert_eq!(removed, content);
}

#[test]
fn ayni_etiket_iki_kez_eklenmez_ve_dosyaya_dokunulmaz() {
    assert_eq!(tag("---\ntags:\n  - acil\n---\ngövde\n", "acil", true), None);
    assert_eq!(tag("---\ntags:\n  - acil\n---\ngövde\n", "yok", false), None);
}

#[test]
fn tek_dizge_tags_bicimi_desteklenir() {
    let after = tag("---\ntags: mevcut\n---\ngövde\n", "yeni", true).unwrap();
    assert!(after.contains("- mevcut"), "{after}");
    assert!(after.contains("- yeni"), "{after}");
}

#[test]
fn etiket_kontrolu() {
    assert_eq!(check_tag("  acil ").unwrap(), "acil");
    assert_eq!(check_tag("   ").unwrap_err().code(), "target_mismatch");
    assert_eq!(check_tag("a\nb").unwrap_err().code(), "target_mismatch");
    let err = toggle_tag(None, None, &guard(""), "acil", true).unwrap_err();
    assert_eq!(err.code(), "conflict");
}

// --- line order ---------------------------------------------------------------------

#[test]
fn satir_tasinir() {
    let c = "bir\niki\nüç\n";
    assert_eq!(move_line(Some(c.as_bytes()), &guard(c), 1, 3).unwrap().as_deref(), Some("iki\nüç\nbir\n"));
    assert_eq!(move_line(Some(c.as_bytes()), &guard(c), 3, 1).unwrap().as_deref(), Some("üç\nbir\niki\n"));
    assert_eq!(move_line(Some(c.as_bytes()), &guard(c), 2, 2).unwrap(), None);
}

#[test]
fn satir_sonu_olmayan_satir_tasinmaz() {
    let original = "bir\niki";
    let err = move_line(Some(original.as_bytes()), &guard(original), 2, 1).expect_err("son satır taşınmamalı");
    assert_eq!(err.code(), "target_mismatch");
    assert_eq!(move_line(Some(original.as_bytes()), &guard(original), 1, 3).unwrap_err().code(), "target_mismatch");
}

// --- quick capture --------------------------------------------------------------------

#[test]
fn hizli_yakalama_ham_satir_ekler() {
    assert_eq!(
        append_to_inbox(Some("önceki satır\n".as_bytes()), "aklıma gelen şey").unwrap(),
        "önceki satır\naklıma gelen şey\n"
    );
}

#[test]
fn hizli_yakalama_dosya_yoksa_olusturmaz() {
    let err = append_to_inbox(None, "metin").expect_err("dosya yoksa reddedilmeli");
    assert_eq!(err.code(), "inbox_missing");
}

#[test]
fn hizli_yakalama_cok_satirli_metni_tek_satira_indirir() {
    assert_eq!(
        append_to_inbox(Some(b""), "birinci\n\nikinci\nüçüncü").unwrap(),
        "birinci ikinci üçüncü\n"
    );
    assert_eq!(capture_line("  a \r\n  b  ").unwrap(), "a b");
}

#[test]
fn hizli_yakalama_satir_sonu_bicimini_korur() {
    assert_eq!(append_to_inbox(Some("önceki\r\n".as_bytes()), "yeni").unwrap(), "önceki\r\nyeni\r\n");
}

#[test]
fn hizli_yakalama_eksik_satir_sonunu_tamamlar() {
    assert_eq!(append_to_inbox(Some("sonu yok".as_bytes()), "yeni").unwrap(), "sonu yok\nyeni\n");
}

#[test]
fn hizli_yakalama_bos_metni_reddeder() {
    assert!(append_to_inbox(Some(b"x\n"), "   ").is_err());
    assert_eq!(append_to_inbox(None, "  ").unwrap_err().code(), "target_mismatch");
}

#[test]
fn hizli_yakalama_turkce_ve_emoji() {
    assert_eq!(
        append_to_inbox(Some(b""), "Öğrenciyiz için fikir 🌱").unwrap(),
        "Öğrenciyiz için fikir 🌱\n"
    );
}

// --- hash cycle -------------------------------------------------------------------------

#[test]
fn yazma_sonrasi_hash_degisir_ayni_yazma_tekrarinda_ise_ayni_kalir() {
    let content = "- [ ] görev\n";
    let before = hash(content.as_bytes());
    let c1 = task(content, 1, "görev", TaskStatus::Done).unwrap();
    let r1 = write_result(&c1, 0);
    assert_ne!(r1.new_hash, before, "yazma hash'i değiştirmeli");
    assert_eq!(r1.new_hash, hash(c1.as_bytes()));
    let c2 = task(&c1, 1, "görev", TaskStatus::Done).unwrap();
    assert_eq!(write_result(&c2, 0).new_hash, r1.new_hash, "aynı içerik aynı hash");
}

#[test]
fn ayni_durumu_yeniden_yazmak_degistirmez() {
    for (content, line, title, status) in [
        ("- [/] sürüyor\r\n- [ ] öteki", 1, "sürüyor", TaskStatus::Done),
        ("\u{feff}  * [-] iptal 📅 2026-01-02", 1, "iptal", TaskStatus::Open),
        ("a\n+ [x] bitti\n", 2, "bitti", TaskStatus::Done),
    ] {
        let once = task(content, line, title, status).unwrap();
        let twice = task(&once, line, title, status).unwrap();
        assert_eq!(twice, once);
        assert_eq!(hash(twice.as_bytes()), hash(once.as_bytes()));
    }
}
