use runling_bank::bank::{Key, Section, Value};
use runling_bank::signature::{
    bytes_precede, compute_signature, signature_message, signature_text, sort_by_name,
};

fn key(name: &str, text: &str) -> Key {
    Key { name: name.to_string(), value: Value { string: text.to_string() } }
}

fn section(name: &str, keys: Vec<Key>) -> Section {
    Section { name: name.to_string(), keys }
}

fn bank_sections() -> Vec<Section> {
    vec![
        section(
            "unit",
            vec![
                key("01", "/Uni.I^uVUgUsr::M3I~IeI0"),
                key("03", " Xox{Vlj4a_qwtCD,-novP3p"),
                key("info", "/#Y=hp-AJb"),
            ],
        ),
        section(
            "account",
            vec![
                key("camera", ":T5db7"),
                key(
                    "info",
                    "Yp%55toeLRL4qIf)IMZI|QV5(s5$B?s@U2K)*BE{~m6mDXG3%EXE6;p8!)A}FO}.+!j[",
                ),
            ],
        ),
    ]
}

#[test]
fn bytes_are_put_in_lexicographic_order() {
    assert!(bytes_precede(b"a", b"b"));
    assert!(!bytes_precede(b"b", b"a"));
    assert!(!bytes_precede(b"a", b"a"));
    assert!(bytes_precede(b"", b"a"));
    assert!(!bytes_precede(b"a", b""));
    assert!(!bytes_precede(b"", b""));
    assert!(bytes_precede(b"ab", b"abc"));
    assert!(!bytes_precede(b"abc", b"ab"));
    assert!(bytes_precede(b"abc", b"abd"));
    assert!(bytes_precede(b"Z", b"a"));
    assert!(bytes_precede(b"10", b"9"));
    assert!(bytes_precede("z".as_bytes(), "\u{e9}".as_bytes()));
}

#[test]
fn sort_puts_names_in_ascending_order_and_keeps_ties() {
    let keys = vec![
        key("info", "1"),
        key("03", "2"),
        key("camera", "3"),
        key("03", "4"),
        key("01", "5"),
        key("", "6"),
        key("Info", "7"),
    ];
    let sorted: Vec<(String, String)> = sort_by_name(&keys)
        .iter()
        .map(|k| (k.name.clone(), k.value.string.clone()))
        .collect();
    let expected: Vec<(String, String)> =
        [("", "6"), ("01", "5"), ("03", "2"), ("03", "4"), ("Info", "7"), ("camera", "3"), ("info", "1")]
            .iter()
            .map(|(n, t)| (n.to_string(), t.to_string()))
            .collect();
    assert_eq!(sorted, expected);
    let none: Vec<Key> = Vec::new();
    assert!(sort_by_name(&none).is_empty());
}

#[test]
fn sort_agrees_with_the_order_of_strings() {
    let names = ["unit", "account", "b", "a", "ab", "", "B", "10", "9", "\u{e9}", "z", "a"];
    let sections: Vec<Section> = names.iter().map(|n| section(n, Vec::new())).collect();
    let sorted: Vec<String> = sort_by_name(&sections).iter().map(|s| s.name.clone()).collect();
    let mut expected: Vec<String> = names.iter().map(|n| n.to_string()).collect();
    expected.sort();
    assert_eq!(sorted, expected);
}

#[test]
fn message_starts_with_the_handles_and_the_bank_name() {
    assert_eq!(signature_message(0, &[]), b"1-S2-1-4170731-S2-1-0RunlingRun004".to_vec());
    assert_eq!(signature_message(7, &[]), b"1-S2-1-4170731-S2-1-7RunlingRun004".to_vec());
    assert_eq!(signature_message(10, &[]), b"1-S2-1-4170731-S2-1-10RunlingRun004".to_vec());
    assert_eq!(
        signature_message(1234567890, &[]),
        b"1-S2-1-4170731-S2-1-1234567890RunlingRun004".to_vec()
    );
    assert_eq!(
        signature_message(usize::MAX, &[]),
        format!("1-S2-1-4170731-S2-1-{}RunlingRun004", usize::MAX).into_bytes()
    );
}

#[test]
fn message_lists_sections_and_entries_in_order_of_their_names() {
    let sections =
        vec![section("b", vec![key("y", "2"), key("x", "1")]), section("a", Vec::new())];
    assert_eq!(
        signature_message(7, &sections),
        b"1-S2-1-4170731-S2-1-7RunlingRun004abxValuestring1yValuestring2".to_vec()
    );
    assert_eq!(
        signature_message(1234567, &bank_sections()),
        b"1-S2-1-4170731-S2-1-1234567RunlingRun004accountcameraValuestring:T5db7infoValuestringYp%55toeLRL4qIf)IMZI|QV5(s5$B?s@U2K)*BE{~m6mDXG3%EXE6;p8!)A}FO}.+!j[unit01Valuestring/Uni.I^uVUgUsr::M3I~IeI003Valuestring Xox{Vlj4a_qwtCD,-novP3pinfoValuestring/#Y=hp-AJb"
            .to_vec()
    );
}

#[test]
fn stamp_is_the_digest_in_upper_case_hexadecimal() {
    assert_eq!(signature_text(&[]), "");
    assert_eq!(signature_text(&[0x00, 0x0f, 0xa0, 0xff, 0x5b]), "000FA0FF5B");
    assert_eq!(signature_text(&[0xde, 0xad, 0xbe, 0xef]), "DEADBEEF");
}

#[test]
fn stamp_of_known_sections() {
    assert_eq!(compute_signature(0, &[]), "AB2384172528FE532981D6199053DCFB5E79181C");
    let sections =
        vec![section("b", vec![key("y", "2"), key("x", "1")]), section("a", Vec::new())];
    assert_eq!(compute_signature(7, &sections), "5B0274F8779367555BB1CDC63900117DEA4DA1E7");
    assert_eq!(
        compute_signature(1234567, &bank_sections()),
        "198E0CA2737582AAC70B1994F5DC8506D8A7767B"
    );
}

#[test]
fn stamp_ignores_the_order_of_sections_and_entries() {
    let stamp = compute_signature(1234567, &bank_sections());
    let mut sections = bank_sections();
    sections.reverse();
    assert_eq!(compute_signature(1234567, &sections), stamp);
    let mut sections = bank_sections();
    sections[0].keys.reverse();
    assert_eq!(compute_signature(1234567, &sections), stamp);
    let mut sections = bank_sections();
    sections[0].keys.rotate_left(1);
    sections[1].keys.swap(0, 1);
    sections.swap(0, 1);
    assert_eq!(compute_signature(1234567, &sections), stamp);
}

#[test]
fn stamp_changes_with_a_text_a_name_or_the_handle() {
    let sections =
        vec![section("b", vec![key("y", "2"), key("x", "1")]), section("a", Vec::new())];
    let stamp = compute_signature(7, &sections);
    let changed =
        vec![section("b", vec![key("y", "2"), key("x", "3")]), section("a", Vec::new())];
    assert_eq!(compute_signature(7, &changed), "D21054887139A9796BBFD7E31AAA2E96756A5FC4");
    assert_ne!(compute_signature(7, &changed), stamp);
    let renamed =
        vec![section("b", vec![key("y", "2"), key("w", "1")]), section("a", Vec::new())];
    assert_ne!(compute_signature(7, &renamed), stamp);
    assert_ne!(compute_signature(8, &sections), stamp);

    let stamp = compute_signature(1234567, &bank_sections());
    for s in 0..2 {
        for k in 0..bank_sections()[s].keys.len() {
            let mut sections = bank_sections();
            sections[s].keys[k].value.string.push('0');
            assert_ne!(compute_signature(1234567, &sections), stamp);
        }
    }
}
