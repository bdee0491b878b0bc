use arkeles::hermes::contract::{
    actions, find_action, parse_port, prompt_for, session_title, token_from_text, Endpoint,
    DEFAULT_PORT,
};
use arkeles::hermes::http::{json_span, request_text, response_json, split_http, MAX_RESPONSE};
use arkeles::hermes::rpc::{socket_url, urlencode, RequestIds};

#[test]
fn aksiyon_allowlist_disi_reddedilir() {
    assert!(find_action("task.execute").is_some());
    assert!(find_action("rm -rf /").is_none());
    assert!(find_action("shell.exec").is_none());
    assert!(find_action("").is_none());
    assert!(find_action("task.execute; drop table").is_none());
}

#[test]
fn aksiyon_kimlikleri_tekil() {
    let acts = actions();
    let mut ids: Vec<&str> = acts.iter().map(|a| a.id).collect();
    let count = ids.len();
    ids.sort();
    ids.dedup();
    assert_eq!(ids.len(), count);
}

#[test]
fn istem_aksiyonu_alani_ve_metni_tasir() {
    let action = find_action("report.create").unwrap();
    let prompt = prompt_for(&action, Some("wif"), "  Haftalık bütçe  ");
    assert!(prompt.starts_with("[ARKELÉS isteği — Rapor oluştur]"));
    assert!(prompt.contains("Çalışma alanı: wif"));
    assert!(prompt.ends_with("Haftalık bütçe"));
    assert_eq!(session_title(&action, None), "ARKELÉS · Rapor oluştur");
}

#[test]
fn istem_metni_tam_bicim() {
    let action = find_action("task.execute").unwrap();
    assert_eq!(
        prompt_for(&action, Some("gen"), " ekip toplantısı \n"),
        "[ARKELÉS isteği — Hermes'e görev ver]\nÇalışma alanı: gen\n\nekip toplantısı"
    );
    assert_eq!(
        prompt_for(&action, None, "x"),
        "[ARKELÉS isteği — Hermes'e görev ver]\n\nx"
    );
    assert_eq!(session_title(&action, Some("gen")), "ARKELÉS · Hermes'e görev ver · gen");
}

#[test]
fn aksiyon_yetenekleri_tanimli() {
    let note = find_action("note.create").unwrap();
    assert_eq!(note.label, "Yeni not oluştur");
    assert_eq!(note.required_capabilities, vec!["run.submit", "file.output"]);
    let analysis = find_action("analysis.create").unwrap();
    assert_eq!(analysis.required_capabilities, vec!["run.submit"]);
}

#[test]
fn uc_nokta_yalniz_loopback() {
    assert_eq!(Endpoint { port: 9119 }.http_authority(), "127.0.0.1:9119");
    assert_eq!(Endpoint::from_setting(None).port, DEFAULT_PORT);
    assert_eq!(Endpoint::from_setting(Some("8080")).port, 8080);
    assert_eq!(Endpoint::from_setting(Some("+81")).port, 81);
    assert_eq!(Endpoint::from_setting(Some("70000")).port, DEFAULT_PORT);
    assert_eq!(Endpoint::from_setting(Some(" 80")).port, DEFAULT_PORT);
    assert_eq!(Endpoint::from_setting(Some("")).port, DEFAULT_PORT);
    assert_eq!(parse_port("65535"), Some(65535));
    assert_eq!(parse_port("65536"), None);
    assert_eq!(parse_port("-1"), None);
    assert_eq!(parse_port("+"), None);
}

#[test]
fn token_kirpilir_bos_token_yoktur() {
    assert_eq!(token_from_text("  abc123\n").as_deref(), Some("abc123"));
    assert_eq!(token_from_text(" \n\t "), None);
}

#[test]
fn http_basligi_ve_govdesi_ayrilir() {
    let (head, body) = split_http("HTTP/1.1 200 OK\r\nX: 1\r\n\r\n{\"a\":1}").unwrap();
    assert!(head.starts_with("HTTP/1.1 200"));
    assert_eq!(body, "{\"a\":1}");
}

#[test]
fn nesne_govdesi_ayristirilir() {
    let text = json_span(r#"{"ok":true}"#).unwrap();
    let v: serde_json::Value = serde_json::from_str(&text).unwrap();
    assert_eq!(v["ok"], serde_json::Value::Bool(true));
}

#[test]
fn dizi_govdesi_ayristirilir() {
    let text = json_span(r#"[{"id":"a"}]"#).unwrap();
    let v: serde_json::Value = serde_json::from_str(&text).unwrap();
    assert_eq!(v[0]["id"], serde_json::Value::String("a".into()));
}

#[test]
fn chunked_govde_temizlenir() {
    let text = json_span("1a\r\n{\"ok\":true}\r\n0\r\n\r\n").unwrap();
    let v: serde_json::Value = serde_json::from_str(&text).unwrap();
    assert_eq!(v["ok"], serde_json::Value::Bool(true));
}

#[test]
fn bozuk_govde_none_doner() {
    let parse = |body: &str| {
        json_span(body).and_then(|t| serde_json::from_str::<serde_json::Value>(&t).ok())
    };
    assert!(parse("").is_none());
    assert!(parse("{bozuk").is_none());
    assert!(parse("düz metin").is_none());
    assert!(parse("}{").is_none());
}

#[test]
fn cok_buyuk_govde_siniri_sabit() {
    assert_eq!(MAX_RESPONSE, 512 * 1024);
}

#[test]
fn yalniz_200_yaniti_govde_verir() {
    assert_eq!(
        response_json("HTTP/1.1 200 OK\r\n\r\n{\"version\":\"0.21\"}").as_deref(),
        Some("{\"version\":\"0.21\"}")
    );
    assert_eq!(response_json("HTTP/1.0 200 OK\r\n\r\n[1]").as_deref(), Some("[1]"));
    assert_eq!(response_json("HTTP/1.1 401 Unauthorized\r\n\r\n{\"e\":1}"), None);
    assert_eq!(response_json("HTTP/1.1 200 OK\r\n{\"a\":1}"), None);
}

#[test]
fn istek_metni_origin_tasimaz() {
    let r = request_text("/api/status", "127.0.0.1:9119", Some("t0k"));
    assert_eq!(
        r,
        "GET /api/status HTTP/1.1\r\nHost: 127.0.0.1:9119\r\nAccept: application/json\r\nConnection: close\r\nX-Hermes-Session-Token: t0k\r\n\r\n"
    );
    assert!(!r.contains("Origin"));
    let r = request_text("/api/health", "127.0.0.1:9119", None);
    assert!(r.ends_with("Connection: close\r\n\r\n"));
}

#[test]
fn urlencode_ozel_karakterleri_kacirir() {
    assert_eq!(urlencode("abc-123_x.y~z"), "abc-123_x.y~z");
    assert_eq!(urlencode("a b"), "a%20b");
    assert_eq!(urlencode("a&b=c"), "a%26b%3Dc");
    assert_eq!(urlencode("x?y#z"), "x%3Fy%23z");
}

#[test]
fn urlencode_cok_baytli_karakter() {
    assert_eq!(urlencode("ş"), "%C5%9F");
    assert_eq!(socket_url(9119, "a b"), "ws://127.0.0.1:9119/api/ws?token=a%20b");
}

#[test]
fn cagri_kimlikleri_tekil_ve_onekli() {
    let mut ids = RequestIds::new();
    let a = ids.next_id();
    let b = ids.next_id();
    assert_ne!(a, b);
    assert!(a.starts_with('a'));
    assert_eq!(a, "a1");
    assert_eq!(b, "a2");
}
