use colorls::entry::strlen;

#[test]
fn for_normal_string() {
    assert_eq!(6, strlen(&".local".to_string()))
}

#[test]
fn for_string_with_icons() {
    assert_eq!(7, strlen(&"\u{f115}.local".to_string()))
}

#[test]
fn for_string_with_weird_stuff() {
    assert_eq!(7, strlen(&"a\u{310}.local".to_string()))
}

#[test]
fn for_string_with_icons_via_code() {
    assert_eq!(7, strlen(&format!("{}.local", "\u{f115}")))
}

#[test]
fn combining_accent_counts_once() {
    assert_eq!(1, strlen(&"e\u{301}".to_string()));
    assert_eq!(2, "e\u{301}".chars().count());
}

#[test]
fn empty_string_has_no_width() {
    assert_eq!(0, strlen(&String::new()));
}
