use monaxide::topic::Topic;
use monaxide::topics::Topics;

fn topics_with(entries: &[(u64, &[u8], usize)]) -> Topics {
    let mut t = Topics::build().finish();
    for &(id, title, pc) in entries {
        assert!(t.insert(Topic::new(id, title.to_vec(), pc)).is_none());
    }
    t
}

#[test]
fn subject_after_three_inserts() {
    let mut t = topics_with(&[
        (1700000001, b"Hello", 0),
        (1700000002, b"World", 0),
        (1700000003, b"!", 5),
    ]);
    let c = t.subject_txt();
    assert_eq!(
        b"1700000003.dat<>! (5)\n1700000002.dat<>World (0)\n1700000001.dat<>Hello (0)\n".as_slice(),
        c.body().as_slice(),
    );
}

#[test]
fn two_reads_see_equal_bytes_and_validators() {
    let mut t = topics_with(&[(10, b"a", 1), (11, b"b", 2)]);
    let (body1, etag1, modified1, mtime1) = {
        let c = t.subject_txt();
        (c.body.clone(), c.metadata.etag.clone(), c.metadata.modified.clone(), c.metadata.mtime)
    };
    let c2 = t.subject_txt();
    assert_eq!(body1, c2.body);
    assert_eq!(etag1, c2.metadata.etag);
    assert_eq!(modified1, c2.metadata.modified);
    assert_eq!(mtime1, c2.metadata.mtime);
}

#[test]
fn mutation_invalidates_and_regenerates() {
    let mut t = topics_with(&[(1, b"one", 0)]);
    assert_eq!(b"1.dat<>one (0)\n".as_slice(), t.subject_txt().body().as_slice());
    // an insert replaces the slot with an empty placeholder...
    assert!(t.insert(Topic::new(2, b"two".to_vec(), 0)).is_none());
    assert!(!t.fresh);
    assert!(t.subject_txt.body().is_empty());
    // ...and the next read regenerates from the map
    assert_eq!(
        b"2.dat<>two (0)\n1.dat<>one (0)\n".as_slice(),
        t.subject_txt().body().as_slice(),
    );
    // removal invalidates too
    assert!(t.remove(2).is_some());
    assert!(!t.fresh);
    assert_eq!(b"1.dat<>one (0)\n".as_slice(), t.subject_txt().body().as_slice());
    // a rejected duplicate insert leaves the artifact untouched
    let before = t.subject_txt().body.clone();
    assert!(t.insert(Topic::new(1, b"again".to_vec(), 9)).is_some());
    assert!(t.fresh);
    assert_eq!(before.as_slice(), t.subject_txt().body.as_slice());
}

#[test]
fn increment_bumps_the_published_count() {
    let mut t = topics_with(&[(5, b"thread", 3)]);
    assert_eq!(b"5.dat<>thread (3)\n".as_slice(), t.subject_txt().body().as_slice());
    t.increment_post_count(5);
    assert!(!t.fresh);
    assert_eq!(b"5.dat<>thread (4)\n".as_slice(), t.subject_txt().body().as_slice());
    assert_eq!(4, t.get(5).unwrap().post_count());
}
