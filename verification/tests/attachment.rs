use meli::attachment_types::contains_sub;
use meli::attachment_types::Charset;
use meli::attachment_types::ContentDispositionKind;
use meli::attachment_types::ContentTransferEncoding;
use meli::attachment_types::ContentType;
use meli::attachment_types::MultipartType;
use meli::attachment_types::Text;

#[test]
fn charset_labels() {
    assert_eq!(Charset::from_bytes(b"utf-8"), Charset::UTF8);
    assert_eq!(Charset::from_bytes(b"UTF8"), Charset::UTF8);
    assert_eq!(Charset::from_bytes(b"  us-ascii "), Charset::Ascii);
    assert_eq!(Charset::from_bytes(b"ISO-8859-7"), Charset::ISO8859_7);
    assert_eq!(Charset::from_bytes(b"windows-1253"), Charset::Windows1253);
    assert_eq!(Charset::from_bytes(b"gb-2312"), Charset::GB2312);
    assert_eq!(Charset::from_bytes(b"Big5"), Charset::BIG5);
    assert_eq!(Charset::from_bytes(b"iso-2022-jp"), Charset::ISO2022JP);
    // unknown labels fall back to ASCII
    assert_eq!(Charset::from_bytes(b"ebcdic"), Charset::Ascii);
    assert_eq!(Charset::as_label(&Charset::UTF16), "utf-16");
}

#[test]
fn multipart_and_encodings() {
    assert_eq!(MultipartType::from_bytes(b"MIXED"), MultipartType::Mixed);
    assert_eq!(MultipartType::from_bytes(b"signed"), MultipartType::Signed);
    assert_eq!(MultipartType::from_bytes(b"whatever"), MultipartType::Mixed);
    assert_eq!(ContentTransferEncoding::from_bytes(b"BASE64"), ContentTransferEncoding::Base64);
    assert_eq!(ContentTransferEncoding::from_bytes(b"7bit"), ContentTransferEncoding::_7Bit);
    assert_eq!(
        ContentTransferEncoding::from_bytes(b"Quoted-Printable"),
        ContentTransferEncoding::QuotedPrintable
    );
    assert_eq!(
        ContentTransferEncoding::from_bytes(b"X-Custom"),
        ContentTransferEncoding::Other { tag: b"x-custom".to_vec() }
    );
}

#[test]
fn content_type_queries() {
    let t = ContentType::Text { kind: Text::Html, parameters: Vec::new(), charset: Charset::UTF8 };
    assert!(t.is_text());
    assert!(t.is_text_html());
    let o = ContentType::OctetStream { name: Some(b"file.bin".to_vec()) };
    assert!(!o.is_text());
    assert_eq!(o.name(), Some(&b"file.bin".to_vec()));
    let m = ContentType::Multipart {
        boundary: b"X".to_vec(),
        kind: MultipartType::Mixed,
        parts: Vec::new(),
    };
    assert_eq!(m.parts().unwrap().len(), 0);
    assert!(ContentDispositionKind::Inline.is_inline());
    assert!(ContentDispositionKind::Attachment.is_attachment());
}

#[test]
fn boundary_is_fresh_and_short() {
    // The generated boundary never occurs in any part and respects the
    // length and trailing-character rules.
    let parts: Vec<Vec<u8>> = vec![
        b"hello world".to_vec(),
        b"bzz_bzz__bzz__ is even in this one".to_vec(),
        vec![0u8; 1024],
    ];
    let b = ContentType::make_boundary(&parts).unwrap();
    assert!(b.len() <= 70);
    assert!(b.starts_with(b"bzz_bzz__bzz__"));
    assert!(!b.last().unwrap().is_ascii_whitespace());
    for p in &parts {
        assert!(!contains_sub(p, &b));
    }
}

#[test]
fn substring_search() {
    assert!(contains_sub(b"hello world", b"lo wo"));
    assert!(!contains_sub(b"hello world", b"low"));
    assert!(contains_sub(b"abc", b""));
    assert!(!contains_sub(b"", b"a"));
}
