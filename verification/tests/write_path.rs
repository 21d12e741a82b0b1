use monaxide::bbs::{dat_path, post_location, success_body, Bbs, BbsForm};
use monaxide::board::Board;
use monaxide::middleware::{DateTime, Middleware};
use monaxide::settings::Settings;
use monaxide::validator::{AlphaNum, Digits, Escaped};

// 2020/01/02 03:04:05 JST is 2020/01/01 18:04:05 UTC.
const POST_SEC: i64 = 1577901845;
const POST_NS: u32 = 600_000_000; // .60 centiseconds

fn board_b() -> Board {
    let settings = Settings::load(b"BBS_YMD_WEEKS=Sun/Mon/Tue/Wed/Thu/Fri/Sat\n".to_vec());
    Board::build(b"b".to_vec(), settings).finish()
}

fn form(key: Option<&[u8]>, subject: Option<&[u8]>) -> BbsForm {
    BbsForm {
        bbs: AlphaNum::from_form_value(b"b").unwrap(),
        key: key.map(|k| Digits::from_form_value(k).unwrap()),
        subject: subject.map(Escaped::from_form_value),
        FROM: Escaped::from_form_value(b"n"),
        mail: Escaped::from_form_value(b"m"),
        MESSAGE: Escaped::from_form_value(b"hi"),
    }
}

#[test]
fn write_path_end_to_end() {
    let mut bbs = Bbs::from_boards(b"ws".to_vec(), vec![board_b()]);
    bbs.attach(Middleware::DateTime(DateTime::with_jst()));

    let p = bbs.prepare_post(form(None, Some(b"T")), None, POST_SEC, POST_NS).unwrap();
    assert!(p.created);
    assert_eq!(1577901845, p.key);
    assert_eq!(b"1577901845".to_vec(), p.key_raw);
    assert_eq!(
        b"n<>m<>2020/01/02(Thu) 03:04:05.60<> hi <>T\n".to_vec(),
        p.line,
    );
    assert_eq!(
        b"ws/b/dat/1577901845.dat".to_vec(),
        dat_path(b"ws", b"b", p.key),
    );

    // the caller appends the line to the file and flushes, then commits
    bbs.commit_post(p.board_index, p.key);
    let body = bbs.boards[p.board_index].subject_txt().body;
    assert_eq!(b"1577901845.dat<>T (1)\n".to_vec(), body);

    assert_eq!(b"read.cgi/b/1577901845/".to_vec(), post_location(b"b", &p.key_raw));
    assert_eq!(
        vec![
            0x8F, 0x91, 0x82, 0xAB, 0x8D, 0x9E, 0x82, 0xDD, 0x82, 0xDC, 0x82, 0xB5, 0x82, 0xBD,
            0x81, 0x42,
        ],
        success_body(),
    );
}

#[test]
fn replying_to_an_existing_thread() {
    let mut bbs = Bbs::from_boards(b"ws".to_vec(), vec![board_b()]);
    bbs.attach(Middleware::DateTime(DateTime::with_jst()));
    let first = bbs.prepare_post(form(None, Some(b"T")), None, POST_SEC, POST_NS).unwrap();
    bbs.commit_post(first.board_index, first.key);

    let reply = bbs
        .prepare_post(form(Some(b"1577901845"), None), None, POST_SEC + 60, POST_NS)
        .unwrap();
    assert!(!reply.created);
    assert_eq!(first.key, reply.key);
    // a reply line carries no title field
    assert_eq!(b"n<>m<>2020/01/02(Thu) 03:05:05.60<> hi <>\n".to_vec(), reply.line);
    bbs.commit_post(reply.board_index, reply.key);
    let body = bbs.boards[reply.board_index].subject_txt().body;
    assert_eq!(b"1577901845.dat<>T (2)\n".to_vec(), body);
}

#[test]
fn write_path_errors() {
    let mut bbs = Bbs::from_boards(b"ws".to_vec(), vec![board_b()]);
    bbs.attach(Middleware::DateTime(DateTime::with_jst()));

    let mut missing_board = form(None, Some(b"T"));
    missing_board.bbs = AlphaNum::from_form_value(b"nosuch").unwrap();
    assert_eq!(
        b"Board not found".to_vec(),
        bbs.prepare_post(missing_board, None, POST_SEC, POST_NS).unwrap_err(),
    );

    assert_eq!(
        b"Thread not found".to_vec(),
        bbs.prepare_post(form(Some(b"42"), None), None, POST_SEC, POST_NS).unwrap_err(),
    );

    assert_eq!(
        b"Either `key` or `subject` parameter is required".to_vec(),
        bbs.prepare_post(form(None, None), None, POST_SEC, POST_NS).unwrap_err(),
    );
}

#[test]
fn colliding_creation_seconds_bump_the_key() {
    let mut bbs = Bbs::from_boards(b"ws".to_vec(), vec![board_b()]);
    let a = bbs.prepare_post(form(None, Some(b"one")), None, POST_SEC, POST_NS).unwrap();
    bbs.commit_post(a.board_index, a.key);
    let b = bbs.prepare_post(form(None, Some(b"two")), None, POST_SEC, POST_NS).unwrap();
    assert_eq!(a.key + 1, b.key);
}
