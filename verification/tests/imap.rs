use meli::imap::capability_list;
use meli::imap::next_line;
use meli::imap::parse_response_line;
use meli::imap::response_complete;
use meli::imap::send_literal;
use meli::imap::send_raw;
use meli::imap::ImapAction;
use meli::imap::ImapConnection;
use meli::imap::ImapResponse;
use meli::imap::ImapStream;

#[test]
fn imap_reconnect_replays_login() {
    // From a disconnected state, one NOOP costs the whole login
    // sequence: M0 STARTTLS, the TLS upgrade, M1 LOGIN, then M2 NOOP,
    // and the returned tag id is 2.
    let mut conn = ImapConnection::new_connection(
        b"mail.example.com".to_vec(),
        b"user".to_vec(),
        b"pass".to_vec(),
        false,
    );
    let (actions, tag) = conn.send_command(b"NOOP");
    assert_eq!(tag, 2);
    assert_eq!(actions.len(), 4);
    assert_eq!(actions[0], ImapAction::Send(b"M0 STARTTLS\r\n".to_vec()));
    assert_eq!(actions[1], ImapAction::StartTls);
    assert_eq!(actions[2], ImapAction::Send(b"M1 LOGIN \"user\" \"pass\"\r\n".to_vec()));
    assert_eq!(actions[3], ImapAction::Send(b"M2 NOOP\r\n".to_vec()));
    // the session is now live: the next command is a single send
    let (actions, tag) = conn.send_command(b"CAPABILITY");
    assert_eq!(tag, 3);
    assert_eq!(actions.len(), 1);
    assert_eq!(actions[0], ImapAction::Send(b"M3 CAPABILITY\r\n".to_vec()));
}

#[test]
fn imap_tags_are_gapless() {
    let mut st = ImapStream::new();
    for expected in 0usize..5 {
        let (line, tag) = st.send_command(b"NOOP");
        assert_eq!(tag, expected);
        let want = format!("M{} NOOP\r\n", expected).into_bytes();
        assert_eq!(line, want);
    }
}

#[test]
fn imap_response_classification() {
    assert_eq!(parse_response_line(b"* 23 EXISTS"), ImapResponse::Exists(23));
    assert_eq!(parse_response_line(b"* 5 RECENT"), ImapResponse::Recent(5));
    assert_eq!(parse_response_line(b"* 44 EXPUNGE"), ImapResponse::Expunge(44));
    assert_eq!(parse_response_line(b"* 7 FETCH (FLAGS (\\Seen))"), ImapResponse::Fetch(7));
    assert_eq!(parse_response_line(b"M3 OK done"), ImapResponse::TaggedOk(3));
    assert_eq!(parse_response_line(b"M4 NO nope"), ImapResponse::TaggedNo(4));
    assert_eq!(parse_response_line(b"M5 BAD syntax"), ImapResponse::TaggedBad(5));
    assert_eq!(parse_response_line(b"+ go ahead"), ImapResponse::Continuation);
    assert_eq!(parse_response_line(b"* BYE closing"), ImapResponse::Bye);
    assert_eq!(parse_response_line(b"* CAPABILITY IMAP4rev1 IDLE"), ImapResponse::Capability(13));
    assert_eq!(parse_response_line(b"* OK ready"), ImapResponse::Other);
}

#[test]
fn imap_response_completion() {
    // complete when the last full line starts with the awaited tag
    assert!(response_complete(b"* 1 EXISTS\r\nM2 OK done\r\n", b"M2 "));
    assert!(!response_complete(b"* 1 EXISTS\r\nM2 OK do", b"M2 "));
    assert!(!response_complete(b"* 1 EXISTS\r\n", b"M2 "));
    assert!(response_complete(b"+ \r\n", b"+ "));
    assert!(response_complete(b"anything\r\n", b""));
}

#[test]
fn imap_literal_framing() {
    assert_eq!(send_literal(b"abc"), b"abc\r\n\r\n".to_vec());
    assert_eq!(send_literal(b"abc\r\n"), b"abc\r\n\r\n".to_vec());
    assert_eq!(send_raw(b"DONE"), b"DONE\r\n".to_vec());
}

#[test]
fn imap_blocking_line_iterator() {
    let buf = b"* 1 EXISTS\r\n* 2 RECENT\r\n* 3 EXP".to_vec();
    let (line, used) = next_line(&buf).unwrap();
    assert_eq!(line, b"* 1 EXISTS\r\n".to_vec());
    assert_eq!(used, 12);
    let rest = buf[used..].to_vec();
    let (line, used) = next_line(&rest).unwrap();
    assert_eq!(line, b"* 2 RECENT\r\n".to_vec());
    let tail = rest[used..].to_vec();
    assert!(next_line(&tail).is_none());
}

#[test]
fn imap_capability_extraction() {
    // the names of a CAPABILITY line replace the stored set
    let caps = capability_list(b"* CAPABILITY IMAP4rev1 IDLE  CONDSTORE").unwrap();
    assert_eq!(
        caps,
        vec![b"IMAP4rev1".to_vec(), b"IDLE".to_vec(), b"CONDSTORE".to_vec()]
    );
    assert!(capability_list(b"* 3 EXISTS").is_none());
    let mut conn = meli::imap::ImapConnection::new_connection(
        b"mail.example.com".to_vec(),
        b"user".to_vec(),
        b"pass".to_vec(),
        false,
    );
    let caps2 = capability_list(b"* CAPABILITY IMAP4rev1 UIDPLUS").unwrap();
    conn.set_capabilities(caps2);
    assert_eq!(conn.capabilities.len(), 2);
    assert_eq!(conn.capabilities[1], b"UIDPLUS".to_vec());
}
