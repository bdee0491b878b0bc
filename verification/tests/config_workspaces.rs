use arkeles::config::workspaces::{normalize, resolve, workspaces};
use arkeles::config::{Config, ConfigData, DEFAULT_INBOX};

#[test]
fn yedi_calisma_alani_tanimli() {
    assert_eq!(workspaces().len(), 7);
}

#[test]
fn sprint_5_yedi_alan_da_aktif() {
    let ws = workspaces();
    let active: Vec<&str> = ws.iter().filter(|w| w.active).map(|w| w.id).collect();
    assert_eq!(active, vec!["wif", "gen", "tuga", "burkon", "merci", "kepder", "ogrenciyiz"]);
}

#[test]
fn kimlikler_tekil() {
    let ws = workspaces();
    let mut ids: Vec<&str> = ws.iter().map(|w| w.id).collect();
    ids.sort();
    let count = ids.len();
    ids.dedup();
    assert_eq!(ids.len(), count);
}

#[test]
#[allow(non_snake_case)]
fn ascii_I_harfi_turkce_kuralla_bozulmaz() {
    assert_eq!(resolve("WIF"), Some("wif"), "ASCII 'I' → 'i' olmalı, 'ı' değil");
    assert_eq!(normalize("WIF"), "wif");
    assert_eq!(normalize("KEPDER"), "kepder");
    assert_eq!(resolve("KEPDER"), Some("kepder"));
}

#[test]
#[allow(non_snake_case)]
fn buyuk_I_noktali_i_ye_donusur() {
    assert_eq!(normalize("İ"), "i");
    assert_eq!(normalize("İSTANBUL").chars().count(), 8);
}

#[test]
fn buyuk_kucuk_harf_farki_eleniyor() {
    assert_eq!(resolve("WIF"), Some("wif"));
    assert_eq!(resolve("wif"), Some("wif"));
    assert_eq!(resolve("  Wif  "), Some("wif"));
    assert_eq!(resolve("GEN"), Some("gen"));
}

#[test]
fn turkce_karakterli_kurumlar() {
    assert_eq!(resolve("TüGA"), Some("tuga"));
    assert_eq!(resolve("tuga"), Some("tuga"));
    assert_eq!(resolve("Öğrenciyiz.biz.tr"), Some("ogrenciyiz"));
    assert_eq!(resolve("ogrenciyiz"), Some("ogrenciyiz"));
}

#[test]
fn taninmayan_deger_yanlis_kuruma_dusmez() {
    assert_eq!(resolve("bilinmeyen"), None);
    assert_eq!(resolve(""), None);
    assert_eq!(resolve("   "), None);
    assert_eq!(resolve("wi"), None);
    assert_eq!(resolve("wiff"), None);
    assert_eq!(resolve("WIF Projesi"), None);
}

#[test]
fn takma_adlar_kanonik_kimlige_duser() {
    assert_eq!(resolve("TÜGA"), Some("tuga"));
    assert_eq!(resolve("öğrenciyiz"), Some("ogrenciyiz"));
    assert_eq!(resolve("ÖĞRENCİYİZ.BİZ.TR"), Some("ogrenciyiz"));
    assert_eq!(resolve("Burkon"), Some("burkon"));
}

#[test]
fn gelen_kutusu_varsayilani_ve_yapilandirilmis_yol() {
    let c = Config::new(ConfigData::default());
    assert_eq!(c.inbox_path(), DEFAULT_INBOX);
    assert_eq!(c.inbox_path(), "Gelen Kutusu.md");
    assert_eq!(c.vault_path(), None);

    let mut c = Config::new(ConfigData {
        vault_path: None,
        inbox_path: Some("Inbox/akış.md".to_string()),
    });
    assert_eq!(c.inbox_path(), "Inbox/akış.md");
    c.set_vault_path("/Users/a/Vault".to_string());
    assert_eq!(c.vault_path().as_deref(), Some("/Users/a/Vault"));
    assert_eq!(c.inbox_path(), "Inbox/akış.md");
}
