use monaxide::bbs::Bbs;
use monaxide::board::Board;
use monaxide::middleware::{DateTime, Jst, Middleware, Middlewares, Request};
use monaxide::post::Post;
use monaxide::settings::Settings;
use monaxide::topic::Topic;
use monaxide::validator::{AlphaNum, Digits, Escaped};

fn named_board(id: &[u8]) -> Board {
    Board::build(id.to_vec(), Settings::empty()).finish()
}

#[test]
fn board_lookup_is_case_insensitive() {
    let bbs = Bbs::from_boards(
        b".".to_vec(),
        vec![named_board(b"News"), named_board(b"tech")],
    );
    assert_eq!(b"News".as_slice(), bbs.board(b"NEWS").unwrap().id().as_slice());
    assert_eq!(b"News".as_slice(), bbs.board(b"news").unwrap().id().as_slice());
    assert_eq!(b"tech".as_slice(), bbs.board(b"Tech").unwrap().id().as_slice());
    assert!(bbs.board(b"nosuch").is_none());
}

#[test]
fn colliding_names_keep_the_first_board() {
    let mut first = named_board(b"News");
    first.topics.insert(Topic::new(1, b"marker".to_vec(), 0));
    let bbs = Bbs::from_boards(b".".to_vec(), vec![first, named_board(b"news")]);
    assert_eq!(1, bbs.boards.len());
    assert_eq!(b"News".as_slice(), bbs.board(b"news").unwrap().id().as_slice());
    assert!(bbs.board(b"news").unwrap().topic(1).is_some());
}

#[test]
fn rebuilding_from_the_same_snapshot_is_idempotent() {
    let dat = b"a<>b<>c<>d<>Title\nx<>y<>z<> w <>\n";
    let build = || {
        let mut b = Board::build(b"x".to_vec(), Settings::empty());
        b.topic(9, Topic::load(9, dat));
        Bbs::from_boards(b".".to_vec(), vec![b.finish()])
    };
    let mut one = build();
    let mut two = build();
    assert_eq!(one.boards.len(), two.boards.len());
    assert_eq!(one.boards[0].id, two.boards[0].id);
    let t1 = one.boards[0].topic(9).unwrap();
    let t2 = two.boards[0].topic(9).unwrap();
    assert_eq!(t1.title, t2.title);
    assert_eq!(t1.post_count, t2.post_count);
    assert_eq!(
        one.boards[0].subject_txt().body,
        two.boards[0].subject_txt().body,
    );
}

#[test]
fn pipeline_decorates_the_datetime_line() {
    let mut mws = Middlewares::new();
    mws.attach(Middleware::DateTime(DateTime::with_utc()));
    mws.attach(Middleware::Id);
    let settings = Settings::empty();
    let req = Request::new(
        AlphaNum::from_form_value(b"b").unwrap(),
        Digits::from_form_value(b"1").unwrap(),
        None,
        None,
    );
    let mut post = Post::new(b"n".to_vec(), b"m".to_vec(), b"body".to_vec(), None);
    // 1994-11-06 08:49:37 UTC, a Sunday; no remote address, ids forced by
    // default, so the line ends in the unknown-id marker
    assert!(mws.apply_at(&mut post, &req, &settings, 784111777, 120_000_000).is_ok());
    assert_eq!(
        b"1994/11/06(\x93\xFA) 08:49:37.12 ID:???".as_slice(),
        post.datetime().as_slice(),
    );
}

#[test]
fn pipeline_appends_a_session_id_for_a_known_remote() {
    let mut mws = Middlewares::new();
    mws.attach(Middleware::DateTime(DateTime::with_utc()));
    mws.attach(Middleware::Id);
    let settings = Settings::empty();
    let req = Request::new(
        AlphaNum::from_form_value(b"b").unwrap(),
        Digits::from_form_value(b"1").unwrap(),
        Some(b"192.0.2.7".to_vec()),
        None,
    );
    let mut post = Post::new(b"n".to_vec(), b"m".to_vec(), b"body".to_vec(), None);
    assert!(mws.apply_at(&mut post, &req, &settings, 784111777, 0).is_ok());
    let dt = post.datetime().clone();
    // "... ID:" followed by eight hash characters and the suffix
    let marker = b" ID:";
    let pos = dt.windows(4).position(|w| w == marker).expect("an id is appended");
    assert_eq!(dt.len(), pos + 4 + 9);
    // the same remote yields the same id; a different remote yields another
    let mut post2 = Post::new(b"n".to_vec(), b"m".to_vec(), b"body".to_vec(), None);
    assert!(mws.apply_at(&mut post2, &req, &settings, 784111777, 0).is_ok());
    assert_eq!(dt, *post2.datetime());
}

#[test]
fn cap_suppresses_id_generation() {
    let mut mws = Middlewares::new();
    mws.attach(Middleware::Cap);
    mws.attach(Middleware::Id);
    // ids are off for this board, so a capped post gets no marker at all
    let settings = Settings::load(b"BBS_FORCE_ID=\n".to_vec());
    let req = Request::new(
        AlphaNum::from_form_value(b"b").unwrap(),
        Digits::from_form_value(b"1").unwrap(),
        Some(b"192.0.2.7".to_vec()),
        None,
    );
    let mut post = Post::new(b"n".to_vec(), b"m".to_vec(), b"body".to_vec(), None);
    assert!(mws.apply_at(&mut post, &req, &settings, 784111777, 0).is_ok());
    assert!(post.datetime().is_empty());
}

#[test]
fn leap_centiseconds_roll_into_the_next_second() {
    let mut mws = Middlewares::new();
    mws.attach(Middleware::DateTime(DateTime::with_utc()));
    let settings = Settings::empty();
    let req = Request::new(
        AlphaNum::from_form_value(b"b").unwrap(),
        Digits::from_form_value(b"1").unwrap(),
        None,
        None,
    );
    let mut post = Post::new(b"n".to_vec(), b"m".to_vec(), b"body".to_vec(), None);
    // nanoseconds past one billion represent a leap second: 1.23e9 ns is 123
    // centiseconds, printed as second + 1 and .23
    assert!(mws.apply_at(&mut post, &req, &settings, 784111777, 1_230_000_000).is_ok());
    assert_eq!(
        b"1994/11/06(\x93\xFA) 08:49:38.23".as_slice(),
        post.datetime().as_slice(),
    );
}

#[test]
fn jst_offset() {
    assert_eq!(32400, Jst::offset_sec());
    assert_eq!(32400, DateTime::with_jst().offset_sec);
    assert_eq!(0, DateTime::with_utc().offset_sec);
    assert_eq!(-3600, DateTime::new(-3600).offset_sec);
}
