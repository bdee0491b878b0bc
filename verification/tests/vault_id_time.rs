use arkeles::vault::id::{is_valid_ulid, transient_id};
use arkeles::vault::time::{today_iso, unix_to_date, unix_to_iso};

#[test]
fn gecerli_ulid_kabul_edilir() {
    assert!(is_valid_ulid("01ARZ3NDEKTSV4RRFFQ69G5FAV"));
    assert!(is_valid_ulid("01JQ8XKZ00000000000000000A"));
}

#[test]
fn yanlis_uzunluk_reddedilir() {
    assert!(!is_valid_ulid(""));
    assert!(!is_valid_ulid("01ARZ3NDEKTSV4RRFFQ69G5FA")); // 25
    assert!(!is_valid_ulid("01ARZ3NDEKTSV4RRFFQ69G5FAVX")); // 27
}

#[test]
fn crockford_disi_harf_reddedilir() {
    assert!(!is_valid_ulid("01ARZ3NDEKTSV4RRFFQ69G5FAI"));
    assert!(!is_valid_ulid("01ARZ3NDEKTSV4RRFFQ69G5FAL"));
    assert!(!is_valid_ulid("01ARZ3NDEKTSV4RRFFQ69G5FAO"));
    assert!(!is_valid_ulid("01ARZ3NDEKTSV4RRFFQ69G5FAU"));
}

#[test]
fn gecici_kimlik_kararlidir() {
    let a = transient_id("Notlar/okuma listesi.md");
    let b = transient_id("Notlar/okuma listesi.md");
    assert_eq!(a, b);
}

#[test]
fn gecici_kimlik_ulid_ile_karismaz() {
    let id = transient_id("a.md");
    assert!(id.starts_with("path:"));
    assert!(!is_valid_ulid(&id));
}

#[test]
fn gecici_kimlik_fnv1a_degerini_tasir() {
    // FNV-1a of the empty input is the offset basis; of "a" a known constant.
    assert_eq!(transient_id(""), "path:14695981039346656037");
    assert_eq!(transient_id("a"), "path:12638187200555641996");
}

#[test]
fn unix_sifir_epoch() {
    assert_eq!(unix_to_iso(0), "1970-01-01T00:00:00Z");
}

#[test]
fn bilinen_damga() {
    assert_eq!(unix_to_iso(1_789_084_800), "2026-09-11T00:00:00Z");
}

#[test]
fn sicrama_gunu_dogru() {
    assert_eq!(unix_to_iso(1_709_164_800), "2024-02-29T00:00:00Z");
}

#[test]
fn saat_dakika_saniye() {
    assert_eq!(unix_to_iso(1_789_084_800 + 3661), "2026-09-11T01:01:01Z");
}

#[test]
fn iso_sozluksel_sirasi_kronolojiktir() {
    let a = unix_to_iso(1_709_164_800);
    let b = unix_to_iso(1_789_084_800);
    assert!(a < b);
}

#[test]
fn today_iso_bicimi_dogru() {
    let t = today_iso();
    assert_eq!(t.len(), 10);
    assert_eq!(t.as_bytes()[4], b'-');
    assert_eq!(t.as_bytes()[7], b'-');
}

#[test]
fn yil_sonu_ve_uzak_gelecek() {
    assert_eq!(unix_to_iso(946_684_799), "1999-12-31T23:59:59Z");
    assert_eq!(unix_to_iso(4_102_444_800), "2100-01-01T00:00:00Z");
}

#[test]
fn timestamps_sort_as_times_across_days_and_within_a_day() {
    let pairs: [(u64, u64); 6] = [
        (0, 1),
        (59, 60),
        (3599, 3600),
        (86_399, 86_400),
        (951_782_399, 951_782_400), // 2000-02-28 -> 2000-02-29
        (253_402_300_798, 253_402_300_799),
    ];
    for (a, b) in pairs {
        assert!(unix_to_iso(a) < unix_to_iso(b), "{a} < {b}");
    }
    assert_eq!(unix_to_iso(253_402_300_799), "9999-12-31T23:59:59Z");
}

#[test]
fn zaman_damgasi_tarihiyle_baslar() {
    assert_eq!(unix_to_date(0), "1970-01-01");
    assert_eq!(unix_to_date(1_757_548_800), "2025-09-11");
    for secs in [0u64, 86_399, 951_782_400, 1_757_590_245, 253_402_300_799] {
        let stamp = unix_to_iso(secs);
        assert_eq!(stamp.chars().count(), 20);
        assert_eq!(&stamp[..10], unix_to_date(secs));
    }
    assert_eq!(unix_to_iso(253_402_300_799), "9999-12-31T23:59:59Z");
    assert_eq!(today_iso().len(), 10);
}
