use meli::backend::RefreshEventKind;
use meli::maildir::encode_flags;
use meli::maildir::envelope_hash;
use meli::maildir::fnv1a;
use meli::maildir::parse_flags;
use meli::maildir::Flag;
use meli::maildir::MaildirOp;
use meli::maildir::FLAG_DRAFT;
use meli::maildir::FLAG_FLAGGED;
use meli::maildir::FLAG_SEEN;
use meli::maildir::FLAG_TRASHED;

#[test]
fn flag_round_trip_concrete() {
    for bits in 0u8..64u8 {
        let letters = encode_flags(Flag { bits });
        let back = parse_flags(&letters).expect("encoded letters must parse");
        assert_eq!(back.bits, bits);
    }
}

#[test]
fn flag_letters_sorted() {
    let letters = encode_flags(Flag { bits: FLAG_SEEN | FLAG_DRAFT | FLAG_TRASHED });
    assert_eq!(letters, b"DST".to_vec());
    let letters = encode_flags(Flag { bits: FLAG_FLAGGED | FLAG_SEEN });
    assert_eq!(letters, b"FS".to_vec());
}

#[test]
fn flag_parse_rejects_unknown_letter() {
    assert!(parse_flags(b"SX").is_none());
    assert_eq!(parse_flags(b"").unwrap().bits, 0);
}

#[test]
fn maildir_flag_toggle_rename() {
    // Toggling Seen off a seen message renames it to the bare suffix
    // and announces the identity change.
    let mut op = MaildirOp::new(b"1234.abc.host:2,S".to_vec());
    assert_eq!(op.fetch_flags().bits, FLAG_SEEN);
    let size = 999u64;
    let old_hash = envelope_hash(b"1234.abc.host:2,S", size);
    let new_hash = envelope_hash(b"1234.abc.host:2,", size);
    let ev = op.set_flag(Flag { bits: FLAG_SEEN }, size, 7).unwrap();
    assert_eq!(op.path, b"1234.abc.host:2,".to_vec());
    assert_eq!(ev.folder, 7);
    assert_eq!(ev.kind, RefreshEventKind::Rename(old_hash, new_hash));
    assert_ne!(old_hash, new_hash);
}

#[test]
fn maildir_flag_toggle_on() {
    let mut op = MaildirOp::new(b"99.xyz.host:2,".to_vec());
    assert_eq!(op.fetch_flags().bits, 0);
    op.set_flag(Flag { bits: FLAG_SEEN }, 10, 0).unwrap();
    assert_eq!(op.path, b"99.xyz.host:2,S".to_vec());
}

#[test]
fn maildir_set_flag_needs_marker() {
    let mut op = MaildirOp::new(b"no-marker-here".to_vec());
    assert!(op.set_flag(Flag { bits: FLAG_SEEN }, 1, 0).is_err());
    assert_eq!(op.path, b"no-marker-here".to_vec());
}

#[test]
fn fnv_known_values() {
    // FNV-1a 64-bit test vectors.
    assert_eq!(fnv1a(b""), 0xcbf29ce484222325);
    assert_eq!(fnv1a(b"a"), 0xaf63dc4c8601ec8c);
    assert_eq!(fnv1a(b"foobar"), 0x85944171f73967e8);
}
