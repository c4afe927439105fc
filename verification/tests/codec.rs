use opal::codec::{decode_catalog, encode_catalog, reads_back, same_catalog};
use opal::error::SyncError;
use opal::shortcut::ShortcutRecord;

fn record(order: &str, app_id: u32, app_name: &str, exe: &str, tags: &[&str]) -> ShortcutRecord {
    ShortcutRecord {
        order: order.to_string(),
        app_id,
        app_name: app_name.to_string(),
        exe: exe.to_string(),
        start_dir: "C:\\Games".to_string(),
        icon: String::new(),
        shortcut_path: String::new(),
        launch_options: "-windowed".to_string(),
        is_hidden: false,
        allow_desktop_config: true,
        allow_overlay: true,
        open_vr: 0,
        dev_kit: 0,
        dev_kit_game_id: String::new(),
        dev_kit_override_app_id: 0,
        last_play_time: 0,
        tags: tags.iter().map(|t| t.to_string()).collect(),
    }
}

fn text_field(out: &mut Vec<u8>, name: &str, value: &str) {
    out.push(1);
    out.extend_from_slice(name.as_bytes());
    out.push(0);
    out.extend_from_slice(value.as_bytes());
    out.push(0);
}

fn number_field(out: &mut Vec<u8>, name: &str, value: u32) {
    out.push(2);
    out.extend_from_slice(name.as_bytes());
    out.push(0);
    out.extend_from_slice(&value.to_le_bytes());
}

fn flag_field(out: &mut Vec<u8>, name: &str, value: bool) {
    out.push(2);
    out.extend_from_slice(name.as_bytes());
    out.push(0);
    out.extend_from_slice(&[1, 0, 0, if value { 1 } else { 0 }]);
}

/// The bytes of one record at `position`, written out field by field.
fn record_bytes(position: usize, r: &ShortcutRecord) -> Vec<u8> {
    let mut out = vec![0];
    out.extend_from_slice(position.to_string().as_bytes());
    out.push(0);
    number_field(&mut out, "appid", r.app_id);
    text_field(&mut out, "AppName", &r.app_name);
    text_field(&mut out, "Exe", &r.exe);
    text_field(&mut out, "StartDir", &r.start_dir);
    text_field(&mut out, "icon", &r.icon);
    text_field(&mut out, "ShortcutPath", &r.shortcut_path);
    text_field(&mut out, "LaunchOptions", &r.launch_options);
    number_field(&mut out, "IsHidden", if r.is_hidden { 1 } else { 0 });
    flag_field(&mut out, "AllowDesktopConfig", r.allow_desktop_config);
    flag_field(&mut out, "AllowOverlay", r.allow_overlay);
    number_field(&mut out, "openvr", r.open_vr);
    number_field(&mut out, "Devkit", r.dev_kit);
    text_field(&mut out, "DevkitGameID", &r.dev_kit_game_id);
    number_field(&mut out, "DevkitOverrideAppID", r.dev_kit_override_app_id);
    number_field(&mut out, "LastPlayTime", r.last_play_time);
    out.push(0);
    out.extend_from_slice(b"tags");
    out.push(0);
    for (i, tag) in r.tags.iter().enumerate() {
        out.push(1);
        out.extend_from_slice(i.to_string().as_bytes());
        out.push(0);
        out.extend_from_slice(tag.as_bytes());
        out.push(0);
    }
    out.push(8);
    out.push(8);
    out
}

fn catalog_bytes(records: &[ShortcutRecord]) -> Vec<u8> {
    let mut out = vec![0];
    out.extend_from_slice(b"shortcuts");
    out.push(0);
    for (i, r) in records.iter().enumerate() {
        out.extend_from_slice(&record_bytes(i, r));
    }
    out.push(8);
    out.push(8);
    out
}

fn two_records() -> Vec<ShortcutRecord> {
    vec![
        record("0", 2242049997, "Celeste", "C:\\Games\\celeste.exe", &["Installed", "Ready to play"]),
        record("1", 3104084746, "Alpha", "/usr/bin/game", &[]),
    ]
}

#[test]
fn no_bytes_decode_to_an_empty_catalog() {
    assert_eq!(decode_catalog(&[]), Ok(Vec::new()));
}

#[test]
fn empty_catalog_is_header_and_two_closing_marks() {
    let bytes = encode_catalog(&Vec::new());
    let mut expected = vec![0u8];
    expected.extend_from_slice(b"shortcuts");
    expected.extend_from_slice(&[0, 8, 8]);
    assert_eq!(bytes, expected);
    assert_eq!(decode_catalog(&bytes), Ok(Vec::new()));
}

#[test]
fn encode_writes_each_field_with_its_type_tag() {
    let records = two_records();
    assert_eq!(encode_catalog(&records), catalog_bytes(&records));
}

#[test]
fn encode_writes_the_identity_little_endian() {
    let records = vec![record("0", 0x85a2f7cd, "Celeste", "x", &[])];
    let bytes = encode_catalog(&records);
    let key = b"\x02appid\x00";
    let at = bytes.windows(key.len()).position(|w| w == key).unwrap() + key.len();
    assert_eq!(&bytes[at..at + 4], &[0xcd, 0xf7, 0xa2, 0x85]);
}

#[test]
fn encode_numbers_records_by_position_whatever_their_order_says() {
    let mut records = two_records();
    let plain = encode_catalog(&records);
    records[0].order = "41".to_string();
    records[1].order = "not a number".to_string();
    assert_eq!(encode_catalog(&records), plain);
}

#[test]
fn decode_reads_back_what_encode_wrote() {
    let records = two_records();
    assert_eq!(decode_catalog(&encode_catalog(&records)), Ok(records));
}

#[test]
fn decode_reads_back_carried_fields() {
    let mut r = record("0", 2242049997, "Celeste", "C:\\Games\\celeste.exe", &["a", "b", "a"]);
    r.icon = "C:\\icons\\celeste.png".to_string();
    r.shortcut_path = "C:\\links\\celeste.lnk".to_string();
    r.allow_desktop_config = false;
    r.allow_overlay = false;
    r.open_vr = 2;
    r.dev_kit = 3;
    r.dev_kit_game_id = "kit".to_string();
    r.dev_kit_override_app_id = 70000;
    r.last_play_time = 1700000000;
    let records = vec![r];
    assert_eq!(decode_catalog(&encode_catalog(&records)), Ok(records));
}

#[test]
fn numbers_that_begin_with_byte_one_are_not_read_back() {
    // The reader takes a first byte of 1 in a number for the marker of a
    // three-byte value, so a set hidden flag and an identity that ends in 01
    // come back changed. Flags that are written with the marker are kept.
    let mut hidden = record("0", 2242049997, "Celeste", "x", &[]);
    hidden.is_hidden = true;
    let back = decode_catalog(&encode_catalog(&vec![hidden])).unwrap();
    assert!(!back[0].is_hidden);
    let odd = record("0", 0x8000_0001, "Celeste", "x", &[]);
    let back = decode_catalog(&encode_catalog(&vec![odd])).unwrap();
    assert_eq!(back[0].app_id, 0x8000_0000);
    let mut flags = record("0", 2242049997, "Celeste", "x", &[]);
    flags.allow_desktop_config = true;
    flags.allow_overlay = false;
    let back = decode_catalog(&encode_catalog(&vec![flags.clone()])).unwrap();
    assert_eq!(back, vec![flags]);
}

#[test]
fn decode_reads_a_catalog_written_by_hand() {
    let records = two_records();
    assert_eq!(decode_catalog(&catalog_bytes(&records)), Ok(records));
}

#[test]
fn decode_keeps_the_order_key_of_the_file() {
    // Children are keyed by their order in the file, which need not be sorted.
    let a = record("5", 2242049997, "Celeste", "x", &[]);
    let mut bytes = vec![0u8];
    bytes.extend_from_slice(b"shortcuts");
    bytes.push(0);
    bytes.extend_from_slice(&record_bytes(5, &a));
    bytes.extend_from_slice(&[8, 8]);
    assert_eq!(decode_catalog(&bytes), Ok(vec![a]));
}

#[test]
fn decode_ignores_fields_it_does_not_know() {
    let r = record("0", 2242049997, "Celeste", "x", &[]);
    let mut one = record_bytes(0, &r);
    // An unknown text field and an unknown number field right after the order key.
    let mut extra = Vec::new();
    text_field(&mut extra, "FlatpakAppID", "com.example");
    number_field(&mut extra, "SortAs", 9);
    let at = 3;
    one.splice(at..at, extra);
    let mut bytes = vec![0u8];
    bytes.extend_from_slice(b"shortcuts");
    bytes.push(0);
    bytes.extend_from_slice(&one);
    bytes.extend_from_slice(&[8, 8]);
    assert_eq!(decode_catalog(&bytes), Ok(vec![r]));
}

#[test]
fn decode_does_not_reject_a_repeated_identity() {
    let a = record("0", 2242049997, "Celeste", "x", &[]);
    let b = record("1", 2242049997, "Celeste again", "y", &[]);
    let records = vec![a, b];
    assert_eq!(decode_catalog(&encode_catalog(&records)), Ok(records));
}

#[test]
fn decode_rejects_bytes_that_are_no_catalog() {
    assert!(matches!(decode_catalog(b"not a catalog"), Err(SyncError::Format(_))));
    assert!(matches!(decode_catalog(&[0]), Err(SyncError::Format(_))));
    assert!(matches!(decode_catalog(&[8, 8]), Err(SyncError::Format(_))));
}

#[test]
fn decode_rejects_a_record_that_is_opened_and_never_closed() {
    let mut bytes = vec![0u8];
    bytes.extend_from_slice(b"shortcuts");
    bytes.push(0);
    bytes.extend_from_slice(&[0, b'0', 0]);
    assert!(matches!(decode_catalog(&bytes), Err(SyncError::Format(_))));
}

#[test]
fn decode_rejects_every_cut_inside_a_record() {
    let bytes = encode_catalog(&two_records());
    let header = 1 + "shortcuts".len() + 1;
    let first = record_bytes(0, &two_records()[0]).len();
    // Cuts that end inside the second record leave it opened and unclosed.
    for cut in (header + first + 1)..(bytes.len() - 3) {
        assert!(
            matches!(decode_catalog(&bytes[..cut]), Err(SyncError::Format(_))),
            "cut at {}",
            cut
        );
    }
}

#[test]
fn decode_rejects_text_that_is_not_utf8() {
    let r = record("0", 2242049997, "Celeste", "x", &[]);
    let mut bytes = catalog_bytes(&[r]);
    let key = b"\x01AppName\x00";
    let at = bytes.windows(key.len()).position(|w| w == key).unwrap() + key.len();
    bytes[at] = 0xff;
    assert!(matches!(decode_catalog(&bytes), Err(SyncError::Format(_))));
}

#[test]
fn format_error_carries_the_parsers_report() {
    match decode_catalog(b"not a catalog") {
        Err(e) => assert!(!e.message().is_empty()),
        Ok(_) => panic!("bytes that are no catalog were accepted"),
    }
}

#[test]
fn catalog_of_plain_records_reads_back() {
    assert!(reads_back(&Vec::new()));
    assert!(reads_back(&two_records()));
}

#[test]
fn catalog_with_a_wrong_order_does_not_read_back() {
    let mut records = two_records();
    records[1].order = "7".to_string();
    assert!(!reads_back(&records));
}

#[test]
fn catalog_with_a_set_hidden_flag_does_not_read_back() {
    let mut records = two_records();
    records[0].is_hidden = true;
    assert!(!reads_back(&records));
}

#[test]
fn catalog_with_a_text_that_holds_a_zero_byte_does_not_read_back() {
    let mut records = two_records();
    records[0].launch_options = "a\0b".to_string();
    assert!(!reads_back(&records));
}

#[test]
fn same_catalog_compares_length_order_and_fields() {
    let a = two_records();
    let mut b = two_records();
    assert!(same_catalog(&a, &b));
    assert!(same_catalog(&Vec::new(), &Vec::new()));
    b.swap(0, 1);
    assert!(!same_catalog(&a, &b));
    b.swap(0, 1);
    b[1].tags.push("x".to_string());
    assert!(!same_catalog(&a, &b));
    b.truncate(1);
    assert!(!same_catalog(&a, &b));
    assert!(!same_catalog(&b, &a));
}
