use terrapin::banner::{exchange_banners, LOCAL_BANNER};
use terrapin::connection::Connection;
use terrapin::error::ProtocolError;

#[test]
fn banner_is_the_first_identification_line() {
    let mut conn = Connection::new(b"SSH-2.0-OpenSSH_9.0\r\nrest".to_vec());
    assert_eq!(exchange_banners(&mut conn), Ok("SSH-2.0-OpenSSH_9.0".to_string()));
    assert_eq!(conn.remaining(), b"rest");
}

#[test]
fn lines_before_the_banner_are_passed_over() {
    let stream = b"# welcome\r\n\r\nnotice: SSH-2.0 is spoken here\nSSH-2.0-first\r\nSSH-2.0-second\r\n";
    let mut conn = Connection::new(stream.to_vec());
    assert_eq!(exchange_banners(&mut conn), Ok("SSH-2.0-first".to_string()));
    assert_eq!(conn.remaining(), b"SSH-2.0-second\r\n");
}

#[test]
fn both_versions_are_recognised() {
    let mut conn = Connection::new(b"SSH-1.99-old\n".to_vec());
    assert_eq!(exchange_banners(&mut conn), Ok("SSH-1.99-old".to_string()));
    let mut conn = Connection::new(b"SSH-1.5-older\nSSH-2.0-new\n".to_vec());
    assert_eq!(exchange_banners(&mut conn), Ok("SSH-2.0-new".to_string()));
    // nothing but the beginning is looked at
    let mut conn = Connection::new(b"SSH-2.0\n".to_vec());
    assert_eq!(exchange_banners(&mut conn), Ok("SSH-2.0".to_string()));
    let mut conn = Connection::new(b"SSH-2.01 whatever this is\n".to_vec());
    assert_eq!(exchange_banners(&mut conn), Ok("SSH-2.01 whatever this is".to_string()));
    let mut conn = Connection::new(b"ssh-2.0-lower\n SSH-2.0-indented\n".to_vec());
    assert_eq!(exchange_banners(&mut conn), Err(ProtocolError::Truncated));
}

#[test]
fn banner_loses_the_white_space_at_its_end() {
    let mut conn = Connection::new(b"SSH-2.0-x y \t \r\n".to_vec());
    assert_eq!(exchange_banners(&mut conn), Ok("SSH-2.0-x y".to_string()));
    let mut conn = Connection::new("SSH-2.0-x\u{a0}\u{2003}\n".as_bytes().to_vec());
    assert_eq!(exchange_banners(&mut conn), Ok("SSH-2.0-x".to_string()));
    let mut conn = Connection::new("SSH-2.0-\u{e9}\u{1f600}\r\n".as_bytes().to_vec());
    assert_eq!(exchange_banners(&mut conn), Ok("SSH-2.0-\u{e9}\u{1f600}".to_string()));
}

#[test]
fn scanner_identifies_itself_first() {
    assert_eq!(LOCAL_BANNER, "SSH-2.0-TerrapinVulnerabilityScanner\r\n");
    let mut conn = Connection::new(b"SSH-2.0-peer\r\n".to_vec());
    assert!(conn.written().is_empty());
    assert!(exchange_banners(&mut conn).is_ok());
    assert_eq!(conn.written(), b"SSH-2.0-TerrapinVulnerabilityScanner\r\n");
    // also where the peer never answers
    let mut conn = Connection::new(Vec::new());
    assert_eq!(exchange_banners(&mut conn), Err(ProtocolError::Truncated));
    assert_eq!(conn.written(), b"SSH-2.0-TerrapinVulnerabilityScanner\r\n");
}

#[test]
fn stream_without_a_banner_is_truncated() {
    for stream in [&b""[..], b"hello\r\n", b"hello\r\nworld", b"SSH-2.0-unfinished", b"\n\n\n"] {
        let mut conn = Connection::new(stream.to_vec());
        assert_eq!(exchange_banners(&mut conn), Err(ProtocolError::Truncated), "{:?}", stream);
        assert_eq!(conn.remaining(), stream);
    }
}

#[test]
fn line_that_is_no_text_is_refused() {
    let mut conn = Connection::new(vec![0xff, 0xfe, b'\n', b'S', b'S', b'H', b'-', b'2', b'.', b'0', b'\n']);
    assert_eq!(exchange_banners(&mut conn), Err(ProtocolError::Encoding));
    assert_eq!(conn.remaining().len(), 11);
    let mut conn = Connection::new(b"SSH-2.0-\xc3\n".to_vec());
    assert_eq!(exchange_banners(&mut conn), Err(ProtocolError::Encoding));
    // bytes behind the banner's line are not looked at
    let mut conn = Connection::new(b"SSH-2.0-ok\n\xff\xff".to_vec());
    assert_eq!(exchange_banners(&mut conn), Ok("SSH-2.0-ok".to_string()));
    assert_eq!(conn.remaining(), b"\xff\xff");
}
