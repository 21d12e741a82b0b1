use monaxide::settings::{
    parse_checked_bool, parse_u32_value, Adult, Settings, Unicode, YmdWeeks,
};

#[test]
fn load_splits_lines_on_equals() {
    let s = Settings::load(b"BBS_TITLE=My board\nBBS_LINE_NUMBER=16\njunk line\n".to_vec());
    assert_eq!(Some(&b"My board".to_vec()), s.get(b"BBS_TITLE"));
    assert_eq!(Some(&b"16".to_vec()), s.get(b"BBS_LINE_NUMBER"));
    assert_eq!(None, s.get(b"junk line"));
    assert_eq!(None, s.get(b"MISSING"));
    assert_eq!(b"BBS_TITLE=My board\nBBS_LINE_NUMBER=16\njunk line\n".as_slice(), s.as_bytes().as_slice());
}

#[test]
fn last_line_without_newline_counts() {
    let s = Settings::load(b"A=1\nB=2".to_vec());
    assert_eq!(Some(&b"2".to_vec()), s.get(b"B"));
}

#[test]
fn repeated_key_last_wins() {
    let s = Settings::load(b"K=first\nK=second\n".to_vec());
    assert_eq!(Some(&b"second".to_vec()), s.get(b"K"));
}

#[test]
fn empty_settings() {
    let s = Settings::empty();
    assert!(s.as_bytes().is_empty());
    assert_eq!(None, s.get(b"ANY"));
}

#[test]
fn checked_bool_values() {
    assert_eq!(Some(true), parse_checked_bool(b"checked"));
    assert_eq!(Some(false), parse_checked_bool(b""));
    assert_eq!(None, parse_checked_bool(b"yes"));
}

#[test]
fn numeric_values() {
    assert_eq!(Some(16), parse_u32_value(b"16"));
    assert_eq!(Some(0), parse_u32_value(b"0"));
    assert_eq!(None, parse_u32_value(b""));
    assert_eq!(None, parse_u32_value(b"16x"));
    assert_eq!(None, parse_u32_value(b"4294967296"));
    assert_eq!(Some(4294967295), parse_u32_value(b"4294967295"));
}

#[test]
fn adult_and_unicode_values() {
    assert_eq!(Some(true), Adult::from_raw(b"1"));
    assert_eq!(Some(false), Adult::from_raw(b"0"));
    assert_eq!(None, Adult::from_raw(b"2"));
    assert_eq!(None, Adult::from_raw(b""));
    assert_eq!(Some(true), Unicode::from_raw(b"pass"));
    assert_eq!(Some(false), Unicode::from_raw(b"change"));
    assert_eq!(None, Unicode::from_raw(b"other"));
}

#[test]
fn ymd_weeks_wants_all_seven() {
    let v = YmdWeeks::from_raw(b"Sun/Mon/Tue/Wed/Thu/Fri/Sat").unwrap();
    assert_eq!(7, v.len());
    assert_eq!(b"Sun".to_vec(), v[0]);
    assert_eq!(b"Sat".to_vec(), v[6]);
    // a partial override is ignored whole
    assert!(YmdWeeks::from_raw(b"Sun/Mon/Tue").is_none());
    // extra parts beyond the seventh are ignored
    let w = YmdWeeks::from_raw(b"a/b/c/d/e/f/g/h").unwrap();
    assert_eq!(b"g".to_vec(), w[6]);
}
