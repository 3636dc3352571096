use revercce::keys::{
    agreement_key, agreement_slot, agreements_url, articulation_key, articulation_slot,
    articulation_url, decimal_text, institutions_url, majors_url,
};

#[test]
fn decimal_text_writes_integers() {
    assert_eq!(decimal_text(0), "0");
    assert_eq!(decimal_text(7), "7");
    assert_eq!(decimal_text(10), "10");
    assert_eq!(decimal_text(1234567890), "1234567890");
    assert_eq!(decimal_text(-1), "-1");
    assert_eq!(decimal_text(-908), "-908");
    assert_eq!(decimal_text(i64::MAX), "9223372036854775807");
    assert_eq!(decimal_text(i64::MIN), "-9223372036854775808");
}

#[test]
fn decimal_text_agrees_with_the_standard_library() {
    let mut n: i64 = 1;
    for _ in 0..62 {
        assert_eq!(decimal_text(n), n.to_string());
        assert_eq!(decimal_text(-n), (-n).to_string());
        assert_eq!(decimal_text(n - 1), (n - 1).to_string());
        n *= 2;
    }
    for n in -1100..1100 {
        assert_eq!(decimal_text(n), n.to_string());
    }
}

#[test]
fn agreement_key_joins_the_three_ids() {
    assert_eq!(agreement_key(79, 113, 74), "79-113-74");
    assert_eq!(agreement_key(0, 0, 0), "0-0-0");
    assert_eq!(agreement_key(1, -2, 3), "1--2-3");
}

#[test]
fn agreement_key_is_the_same_in_every_run() {
    assert_eq!(agreement_key(7, 120, 75), agreement_key(7, 120, 75));
    assert_ne!(agreement_key(7, 120, 75), agreement_key(7, 12, 75));
    assert_ne!(agreement_key(71, 20, 75), agreement_key(7, 120, 75));
}

#[test]
fn articulation_key_replaces_path_separators() {
    assert_eq!(articulation_key("74/113/to/79/Major/abc-def"), "74-113-to-79-Major-abc-def");
    assert_eq!(articulation_key("a\\b/c"), "a-b-c");
    assert_eq!(articulation_key("//\\\\"), "----");
    assert_eq!(articulation_key("plain"), "plain");
    assert_eq!(articulation_key(""), "");
}

#[test]
fn articulation_key_keeps_other_characters() {
    assert_eq!(articulation_key("a.b:c d|e?f*g"), "a.b:c d|e?f*g");
    assert_eq!(articulation_key("\u{e9}t\u{e9}/\u{65e5}\u{672c}"), "\u{e9}t\u{e9}-\u{65e5}\u{672c}");
    assert_eq!(articulation_key("\u{2215}\u{ff0f}"), "\u{2215}\u{ff0f}");
}

#[test]
fn slot_names_wrap_the_key() {
    assert_eq!(agreement_slot("79-113-74"), "Ag-79-113-74.json");
    assert_eq!(articulation_slot("74-113-to-79"), "Art-74-113-to-79.json");
    assert_eq!(agreement_slot(""), "Ag-.json");
}

#[test]
fn addresses_are_those_of_the_service() {
    assert_eq!(institutions_url(), "https://assist.org/api/institutions");
    assert_eq!(agreements_url(79), "https://assist.org/api/institutions/79/agreements");
    assert_eq!(
        majors_url(79, 113, 74),
        "https://assist.org/api/agreements?receivingInstitutionId=79&sendingInstitutionId=113&academicYearId=74&categoryCode=major"
    );
    assert_eq!(
        articulation_url("74/113/to/79/Major/x"),
        "https://assist.org/api/articulation/Agreements?key=74/113/to/79/Major/x"
    );
}
