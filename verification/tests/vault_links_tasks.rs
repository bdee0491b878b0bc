use arkeles::vault::links::parse;
use arkeles::vault::note::TaskStatus;
use arkeles::vault::tasks;

#[test]
fn basit_baglanti() {
    assert_eq!(parse("bkz [[WIF Notu]] devam"), vec!["WIF Notu"]);
}

#[test]
fn takma_adli_baglanti_hedefi_verir() {
    assert_eq!(parse("[[WIF Notu|haftalık]]"), vec!["WIF Notu"]);
}

#[test]
fn baslik_capasi_temizlenir() {
    assert_eq!(parse("[[WIF Notu#Kararlar]]"), vec!["WIF Notu"]);
}

#[test]
fn capa_ve_takma_ad_birlikte() {
    assert_eq!(parse("[[WIF Notu#Kararlar|kararlar]]"), vec!["WIF Notu"]);
}

#[test]
fn gomme_de_iliskidir() {
    assert_eq!(parse("![[Şema.png]]"), vec!["Şema.png"]);
}

#[test]
fn ayni_satirda_birden_fazla() {
    assert_eq!(parse("[[A]] ve [[B]]"), vec!["A", "B"]);
}

#[test]
fn tekrarlar_temizlenir_sira_korunur() {
    assert_eq!(parse("[[B]] [[A]] [[B]]"), vec!["B", "A"]);
}

#[test]
fn kod_blogundaki_baglanti_sayilmaz() {
    let body = "[[Gerçek]]\n```\n[[Örnek]]\n```\n[[Gerçek2]]";
    assert_eq!(parse(body), vec!["Gerçek", "Gerçek2"]);
}

#[test]
fn kapanmayan_baglanti_yok_sayilir() {
    assert!(parse("[[yarım").is_empty());
}

#[test]
fn bos_baglanti_yok_sayilir() {
    assert!(parse("[[]] [[  ]]").is_empty());
}

#[test]
fn turkce_ve_emoji_hedefler() {
    assert_eq!(parse("[[Öğrenciyiz 🌱 planı]]"), vec!["Öğrenciyiz 🌱 planı"]);
}

#[test]
fn bos_govde() {
    assert!(parse("").is_empty());
}

#[test]
fn tilde_cit_de_kod_blogudur() {
    assert_eq!(parse("~~~\n[[İçeride]]\n~~~\n[[Dışarıda]]"), vec!["Dışarıda"]);
}

fn titles(body: &str) -> Vec<String> {
    tasks::parse(body, 0).into_iter().map(|t| t.title).collect()
}

#[test]
fn acik_ve_bitmis_gorev() {
    let tasks = tasks::parse("- [ ] açık\n- [x] bitti\n", 0);
    assert_eq!(tasks.len(), 2);
    assert_eq!(tasks[0].status, TaskStatus::Open);
    assert_eq!(tasks[1].status, TaskStatus::Done);
}

#[test]
fn buyuk_x_de_bitmis_sayilir() {
    let tasks = tasks::parse("- [X] bitti\n", 0);
    assert_eq!(tasks[0].status, TaskStatus::Done);
}

#[test]
fn yildiz_ve_arti_madde_isaretleri() {
    assert_eq!(titles("* [ ] a\n+ [ ] b\n"), vec!["a", "b"]);
}

#[test]
fn girintili_alt_gorevler_sayilir() {
    assert_eq!(titles("- [ ] üst\n    - [ ] alt\n"), vec!["üst", "alt"]);
}

#[test]
fn satir_numarasi_dosyaya_gore_1_tabanli() {
    let tasks = tasks::parse("boş\n- [ ] görev\n", 4);
    assert_eq!(tasks[0].line_number, 6);
}

#[test]
fn kod_blogundaki_checkbox_gorev_degildir() {
    let body = "- [ ] gerçek\n```md\n- [ ] örnek\n```\n- [ ] gerçek2\n";
    assert_eq!(titles(body), vec!["gerçek", "gerçek2"]);
}

#[test]
fn obsidian_tasks_vade_isareti() {
    let tasks = tasks::parse("- [ ] rapor 📅 2026-09-11\n", 0);
    assert_eq!(tasks[0].due.as_deref(), Some("2026-09-11"));
    assert_eq!(tasks[0].title, "rapor");
}

#[test]
fn dataview_vade_alani() {
    let tasks = tasks::parse("- [ ] rapor due:: 2026-10-02\n", 0);
    assert_eq!(tasks[0].due.as_deref(), Some("2026-10-02"));
    assert_eq!(tasks[0].title, "rapor");
}

#[test]
fn vade_yoksa_none() {
    let tasks = tasks::parse("- [ ] rapor\n", 0);
    assert!(tasks[0].due.is_none());
}

#[test]
fn bos_baslikli_checkbox_atlanir() {
    assert!(tasks::parse("- [ ]\n- [ ]   \n", 0).is_empty());
}

#[test]
fn checkbox_olmayan_madde_atlanir() {
    assert!(tasks::parse("- normal madde\n* başka\n", 0).is_empty());
}

#[test]
fn emoji_ve_turkce_baslik_bozulmaz() {
    let tasks = tasks::parse("- [ ] Öğrenciyiz için içerik 🌱 hazırla\n", 0);
    assert_eq!(tasks[0].title, "Öğrenciyiz için içerik 🌱 hazırla");
}

#[test]
fn crlf_satirlar() {
    let tasks = tasks::parse("- [ ] a\r\n- [x] b\r\n", 0);
    assert_eq!(tasks.len(), 2);
    assert_eq!(tasks[0].title, "a");
}

#[test]
fn bos_govde_panik_yapmaz() {
    assert!(tasks::parse("", 0).is_empty());
}

#[test]
fn baslik_temizligi_vade_isaretlerini_atar() {
    assert_eq!(tasks::title_from_rest("  rapor 📅 2026-09-11 #etiket "), "rapor");
    assert_eq!(tasks::title_from_rest(" bütçe due:: 2026-01-01"), "bütçe");
}

#[test]
fn durum_isaretleri_ve_adlari() {
    assert_eq!(TaskStatus::from_marker('/'), Some(TaskStatus::InProgress));
    assert_eq!(TaskStatus::from_marker('<'), Some(TaskStatus::Deferred));
    assert_eq!(TaskStatus::from_marker('-'), Some(TaskStatus::Cancelled));
    assert_eq!(TaskStatus::from_marker('!'), None);
    assert_eq!(TaskStatus::InProgress.as_str(), "in_progress");
}

#[test]
fn obsidian_isaretleri_gorev_durumudur() {
    let found = tasks::parse("- [/] sürüyor\n- [-] iptal\n- [!] bilinmeyen\n- [>] ertelendi\n", 0);
    assert_eq!(found.len(), 3);
    assert_eq!(found[0].status, TaskStatus::InProgress);
    assert_eq!(found[0].title, "sürüyor");
    assert_eq!(found[0].line_number, 1);
    assert_eq!(found[1].status, TaskStatus::Cancelled);
    assert_eq!(found[1].line_number, 2);
    assert_eq!(found[2].status, TaskStatus::from_marker('>').unwrap());
    assert_eq!(found[2].line_number, 4);
}

#[test]
fn temiz_baslik_yeniden_temizlenince_degismez() {
    for raw in ["  rapor 📅 2026-09-11 #etiket ", " bütçe due:: 2026-01-01", "\t düz başlık \n", "📅 2026-01-01"] {
        let once = tasks::title_from_rest(raw);
        assert_eq!(tasks::title_from_rest(&once), once);
    }
}

#[test]
fn satir_sayisi_sinirda_kabul_edilir() {
    let found = tasks::parse("- [ ] son", u32::MAX - 1);
    assert_eq!(found[0].line_number, u32::MAX);
}

#[test]
fn hedefler_kirpilmis_ve_tekrarsizdir() {
    assert_eq!(parse("[[ A # b | c ]] [[ | x]] [[#h]] [[A]]\n[[ A ]]"), vec!["A"]);
}

#[test]
fn gorevler_satir_sirasiyla_gelir() {
    let body = "- [ ] bir\n```\n- [ ] örnek\n```\n\n* [x] iki\n- [ ]   \n+ [>] üç\n";
    let found = tasks::parse(body, 3);
    let numbers: Vec<u32> = found.iter().map(|t| t.line_number).collect();
    assert_eq!(numbers, vec![4, 9, 11]);
    assert!(found.iter().all(|t| !t.title.is_empty()));
}
