use monaxide::cacheable::{respond_to, CacheResponse, Metadata, Mtime, RequestHeaders};

fn no_headers() -> RequestHeaders {
    RequestHeaders { if_none_match: Vec::new(), if_modified_since: None, range: Vec::new() }
}

fn meta_at(sec: i64) -> Metadata {
    Metadata::new(1, Mtime { sec, nsec: 0 })
}

#[test]
fn etag_has_the_legacy_shape() {
    let m = meta_at(100);
    // the derivation masks with `(hash | 0b111111) & 63`, so every inner
    // character is the last base-64 character
    assert_eq!(b"\"///////////\"".as_slice(), m.etag.as_slice());
    assert_eq!(13, m.etag.len());
    assert_eq!(29, m.modified.len());
}

#[test]
fn modified_is_the_rfc822_line() {
    let m = meta_at(0);
    assert_eq!(b"Thu, 01 Jan 1970 00:00:00 GMT".as_slice(), m.modified.as_slice());
    let m2 = meta_at(784111777);
    assert_eq!(b"Sun, 06 Nov 1994 08:49:37 GMT".as_slice(), m2.modified.as_slice());
}

#[test]
fn default_metadata_is_a_sentinel() {
    let m = Metadata::default();
    assert_eq!(i64::MIN, m.mtime.sec);
    assert_eq!(13, m.etag.len());
    assert_eq!(vec![b' '; 29], m.modified);
}

#[test]
fn if_none_match_short_circuits() {
    let m = meta_at(1000);
    let mut h = no_headers();
    h.if_none_match.push(m.etag.clone());
    let r = respond_to(b"body", &m, &h);
    assert!(matches!(r, CacheResponse::NotModified));
}

#[test]
fn if_none_match_mismatch_serves_the_body() {
    let m = meta_at(1000);
    let mut h = no_headers();
    h.if_none_match.push(b"\"Vabc1234567\"".to_vec());
    match respond_to(b"body", &m, &h) {
        CacheResponse::Full(b) => assert_eq!(b"body".to_vec(), b),
        _ => panic!("expected the full body"),
    }
}

#[test]
fn if_modified_since_before_mtime_is_not_modified() {
    // Sun, 06 Nov 1994 08:49:37 GMT = 784111777
    let m = meta_at(784111778);
    let mut h = no_headers();
    h.if_modified_since = Some(b"Sun, 06 Nov 1994 08:49:37 GMT".to_vec());
    assert!(matches!(respond_to(b"x", &m, &h), CacheResponse::NotModified));
    // an artifact modified before the header's date is served
    let m2 = meta_at(784111777);
    let mut h2 = no_headers();
    h2.if_modified_since = Some(b"Sun, 06 Nov 1994 08:49:37 GMT".to_vec());
    assert!(matches!(respond_to(b"x", &m2, &h2), CacheResponse::Full(_)));
    // an unparseable date is ignored
    let mut h3 = no_headers();
    h3.if_modified_since = Some(b"yesterday-ish".to_vec());
    assert!(matches!(respond_to(b"x", &m, &h3), CacheResponse::Full(_)));
}

#[test]
fn range_reply() {
    let m = meta_at(5);
    let mut h = no_headers();
    h.range.push(b"bytes=3-5".to_vec());
    match respond_to(b"0123456789", &m, &h) {
        CacheResponse::Partial(b) => {
            assert_eq!(b"345".to_vec(), b);
            assert_eq!(3, b.len());
        },
        _ => panic!("expected a partial reply"),
    }
    assert_eq!(13, m.etag.len());
    assert_eq!(29, m.modified.len());
}

#[test]
fn open_ended_range_reply() {
    let m = meta_at(5);
    let mut h = no_headers();
    h.range.push(b"bytes=7-".to_vec());
    match respond_to(b"0123456789", &m, &h) {
        CacheResponse::Partial(b) => assert_eq!(b"789".to_vec(), b),
        _ => panic!("expected a partial reply"),
    }
}

#[test]
fn unsatisfiable_ranges() {
    let m = meta_at(5);
    let body = b"0123456789";
    for bad in [
        b"bytes=5-2".as_slice(),   // end before start
        b"bytes=3-10".as_slice(),  // end past the body
        b"bytes=10-".as_slice(),   // start past the body
        b"bytes=".as_slice(),      // no specifier
        b"bytes=3".as_slice(),     // no dash
        b"lines=3-5".as_slice(),   // wrong unit
        b"bytes=a-b".as_slice(),   // not digits
    ] {
        let mut h = no_headers();
        h.range.push(bad.to_vec());
        assert!(
            matches!(respond_to(body, &m, &h), CacheResponse::NotSatisfiable),
            "{:?} should be refused",
            String::from_utf8_lossy(bad)
        );
    }
    // more than one Range header is refused
    let mut h = no_headers();
    h.range.push(b"bytes=1-2".to_vec());
    h.range.push(b"bytes=3-4".to_vec());
    assert!(matches!(respond_to(body, &m, &h), CacheResponse::NotSatisfiable));
}

#[test]
fn no_conditions_serves_the_whole_body() {
    let m = meta_at(5);
    match respond_to(b"abc", &m, &no_headers()) {
        CacheResponse::Full(b) => assert_eq!(b"abc".to_vec(), b),
        _ => panic!("expected the full body"),
    }
}
