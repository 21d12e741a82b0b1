use monaxide::validator::{is_alphanum, is_digit, AlphaNum, Dat, Digits, Escaped};

#[test]
fn alphanum_accepts_names() {
    assert!(AlphaNum::from_form_value(b"news4vip").is_ok());
    assert!(AlphaNum::from_form_value(b"A1z9").is_ok());
    assert!(AlphaNum::from_form_value(b"").is_err());
    assert!(AlphaNum::from_form_value(b"with space").is_err());
    assert!(AlphaNum::from_form_value(b"dots.too").is_err());
    let a = AlphaNum::from_form_value(b"Board7").unwrap();
    assert_eq!(b"Board7".as_slice(), a.as_str().as_slice());
}

#[test]
fn digits_keep_their_raw_form() {
    let d = Digits::from_form_value(b"007").unwrap();
    assert_eq!(7, d.number);
    assert_eq!(b"007".as_slice(), d.as_str().as_slice());
    assert!(Digits::from_form_value(b"").is_err());
    assert!(Digits::from_form_value(b"12a").is_err());
    assert!(Digits::from_form_value(b"+12").is_err());
    // u64::MAX parses, one more does not
    assert_eq!(u64::MAX, Digits::from_form_value(b"18446744073709551615").unwrap().number);
    assert!(Digits::from_form_value(b"18446744073709551616").is_err());
    let n = Digits::from_number(1577901845);
    assert_eq!(b"1577901845".as_slice(), n.as_str().as_slice());
}

#[test]
fn escaped_decodes_then_escapes() {
    assert_eq!(b"A".to_vec(), Escaped::from_form_value(b"%41").value);
    assert_eq!(b"plain".to_vec(), Escaped::from_form_value(b"plain").value);
    // the three legacy escapes, applied to percent-decoded bytes
    assert_eq!(b"&lt;b&gt;".to_vec(), Escaped::from_form_value(b"%3Cb%3e").value);
    assert_eq!(b"&quot;q&quot;".to_vec(), Escaped::from_form_value(b"\"q\"").value);
    // a percent without two hex digits passes through
    assert_eq!(b"50% off".to_vec(), Escaped::from_form_value(b"50% off").value);
    assert_eq!(b"%".to_vec(), Escaped::from_form_value(b"%").value);
}

#[test]
fn dat_param_names_a_topic_file() {
    assert_eq!(123, Dat::from_param(b"123.dat").unwrap().0);
    assert!(Dat::from_param(b"x.dat").is_err());
    assert!(Dat::from_param(b"123.txt").is_err());
    assert!(Dat::from_param(b".dat").is_err());
    assert!(Dat::from_param(b"dat").is_err());
}

#[test]
fn byte_classes() {
    assert!(is_alphanum(b'a') && is_alphanum(b'Z') && is_alphanum(b'0'));
    assert!(!is_alphanum(b'-') && !is_alphanum(b' '));
    assert!(is_digit(b'5') && !is_digit(b'a'));
}
