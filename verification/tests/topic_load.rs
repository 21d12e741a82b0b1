use monaxide::post::Post;
use monaxide::topic::Topic;

#[test]
fn load() {
    // http://rio2016.5ch.net/test/read.cgi/dejima/1351397527/
    let t = Topic::load(
        1351397527,
        b"maji<>sage<>2012/10/28(Sun) 13:12:07.97 ID:nXycV/Aa0<>('A') ...<>('A')\n\
          maji<>sage<>2012/10/28(Sun) 15:15:21.32 ID:nXycV/Aa0<>('A' ) ...<>\n\
          !softbank221044009121.bbtec.net<>sage<>2012/10/29(Mon) 17:44:00.15 ID:dJX3cXbx0<>a\n",
    );
    assert_eq!(b"('A')", t.title.as_slice());
    assert_eq!(3, t.post_count);
    assert_eq!(1351397527, t.id());
}

#[test]
fn load_body_first_variant() {
    // A newline before the fourth separator: no title, lines still counted.
    let t = Topic::load(7, b"hello\nworld\n");
    assert!(t.title().is_empty());
    assert_eq!(2, t.post_count());
}

#[test]
fn load_empty_file() {
    let t = Topic::load(7, b"");
    assert!(t.title().is_empty());
    assert_eq!(0, t.post_count());
}

#[test]
fn load_unterminated_first_line() {
    // Four separators but no newline: the title runs to the end of the file,
    // and no line is complete.
    let t = Topic::load(7, b"n<>m<>d<>b<>the title");
    assert_eq!(b"the title", t.title.as_slice());
    assert_eq!(0, t.post_count());
}

#[test]
fn dat_line_round_trip() {
    // A topic loaded back from a serialized first line reproduces its title
    // and counts the one line.
    let post = Post::new(
        b"name".to_vec(),
        b"mail".to_vec(),
        b"body text".to_vec(),
        Some(b"A title (1)".to_vec()),
    );
    let mut line = post.dat_line();
    assert_eq!(b"name<>mail<><> body text <>A title (1)\n".as_slice(), line.as_slice());
    // two replies follow
    line.extend_from_slice(b"n2<>m2<>d2<> hi <>\n");
    line.extend_from_slice(b"n3<>m3<>d3<> ho <>\n");
    let t = Topic::load(1, line.as_slice());
    assert_eq!(b"A title (1)", t.title.as_slice());
    assert_eq!(3, t.post_count());
}

#[test]
fn load_twice_is_idempotent() {
    let bytes = b"a<>b<>c<>d<>Title\nx<>y<>z<> w <>\n";
    let t1 = Topic::load(42, bytes);
    let t2 = Topic::load(42, bytes);
    assert_eq!(t1.title, t2.title);
    assert_eq!(t1.post_count, t2.post_count);
    assert_eq!(t1.id, t2.id);
}
