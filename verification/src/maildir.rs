//! Maildir naming rules: the `:2,<FLAGS>` filename suffix that encodes
//! message flags, the stable envelope hash derived from a file's base name
//! and size, and the rename computed by a flag change.

use vstd::prelude::*;

use crate::backend::RefreshEvent;
use crate::backend::RefreshEventKind;
use crate::error::MeliError;

verus! {

/// Message flag bits. Only the six low bits have a maildir letter;
/// `RECENT` exists on other backends and never reaches a filename.
pub const FLAG_DRAFT: u8 = 1;

pub const FLAG_FLAGGED: u8 = 2;

pub const FLAG_PASSED: u8 = 4;

pub const FLAG_REPLIED: u8 = 8;

pub const FLAG_SEEN: u8 = 16;

pub const FLAG_TRASHED: u8 = 32;

pub const FLAG_RECENT: u8 = 64;

/// A set of message flags, as a bitset over the `FLAG_*` bits.
#[derive(Clone, Copy, Debug, PartialEq, Eq, Structural)]
pub struct Flag {
    pub bits: u8,
}

impl Flag {
    /// The empty flag set.
    pub fn empty() -> (r: Flag)
        ensures
            r.bits == 0,
    {
        Flag { bits: 0 }
    }

    /// Whether every bit of `other` is set in `self`.
    pub fn contains(&self, other: Flag) -> (r: bool)
        ensures
            r == (self.bits & other.bits == other.bits),
    {
        self.bits & other.bits == other.bits
    }

    /// Flip the bits of `other` in `self`.
    pub fn toggle(&mut self, other: Flag)
        ensures
            final(self).bits == (old(self).bits ^ other.bits),
    {
        self.bits = self.bits ^ other.bits;
    }
}

/// The bit a maildir flag letter stands for, or 0 for any other byte.
pub open spec fn spec_flag_bit(b: u8) -> u8 {
    if b == 68u8 {
        FLAG_DRAFT
    } else if b == 70u8 {
        FLAG_FLAGGED
    } else if b == 80u8 {
        FLAG_PASSED
    } else if b == 82u8 {
        FLAG_REPLIED
    } else if b == 83u8 {
        FLAG_SEEN
    } else if b == 84u8 {
        FLAG_TRASHED
    } else {
        0
    }
}

/// The flag set a maildir suffix denotes, or `None` if a byte is not a
/// flag letter.
pub open spec fn spec_parse_flags(s: Seq<u8>) -> Option<u8>
    decreases s.len(),
{
    if s.len() == 0 {
        Some(0u8)
    } else if spec_flag_bit(s[0]) == 0 {
        None
    } else {
        match spec_parse_flags(s.subrange(1, s.len() as int)) {
            Some(rest) => Some(spec_flag_bit(s[0]) | rest),
            None => None,
        }
    }
}

/// The maildir letters of a flag set, in their lexicographic order
/// `D F P R S T`.
pub open spec fn spec_encode_flags(bits: u8) -> Seq<u8> {
    (if bits & FLAG_DRAFT != 0 {
        seq![68u8]
    } else {
        Seq::<u8>::empty()
    }) + (if bits & FLAG_FLAGGED != 0 {
        seq![70u8]
    } else {
        Seq::<u8>::empty()
    }) + (if bits & FLAG_PASSED != 0 {
        seq![80u8]
    } else {
        Seq::<u8>::empty()
    }) + (if bits & FLAG_REPLIED != 0 {
        seq![82u8]
    } else {
        Seq::<u8>::empty()
    }) + (if bits & FLAG_SEEN != 0 {
        seq![83u8]
    } else {
        Seq::<u8>::empty()
    }) + (if bits & FLAG_TRASHED != 0 {
        seq![84u8]
    } else {
        Seq::<u8>::empty()
    })
}

/// The bit a maildir flag letter stands for, or 0 for any other byte.
pub fn flag_bit(b: u8) -> (r: u8)
    ensures
        r == spec_flag_bit(b),
{
    if b == 68u8 {
        FLAG_DRAFT
    } else if b == 70u8 {
        FLAG_FLAGGED
    } else if b == 80u8 {
        FLAG_PASSED
    } else if b == 82u8 {
        FLAG_REPLIED
    } else if b == 83u8 {
        FLAG_SEEN
    } else if b == 84u8 {
        FLAG_TRASHED
    } else {
        0
    }
}

/// Splitting a suffix in two splits its flag set: the whole parses
/// exactly when both halves do, and then to the union of their bits.
pub proof fn lemma_parse_flags_concat(s1: Seq<u8>, s2: Seq<u8>)
    ensures
        spec_parse_flags(s1 + s2) == match (spec_parse_flags(s1), spec_parse_flags(s2)) {
            (Some(a), Some(b)) => Some(a | b),
            _ => None::<u8>,
        },
    decreases s1.len(),
{
    if s1.len() == 0 {
        assert(s1 + s2 =~= s2);
        if spec_parse_flags(s2) is Some {
            let b = spec_parse_flags(s2)->Some_0;
            assert(0u8 | b == b) by (bit_vector);
        }
    } else {
        assert((s1 + s2).subrange(1, (s1 + s2).len() as int) =~= s1.subrange(1, s1.len() as int)
            + s2);
        lemma_parse_flags_concat(s1.subrange(1, s1.len() as int), s2);
        if spec_flag_bit(s1[0]) != 0 {
            let t1 = spec_parse_flags(s1.subrange(1, s1.len() as int));
            if t1 is Some && spec_parse_flags(s2) is Some {
                let x = spec_flag_bit(s1[0]);
                let a = t1->Some_0;
                let b = spec_parse_flags(s2)->Some_0;
                assert(x | (a | b) == (x | a) | b) by (bit_vector);
            }
        }
    }
}

/// Parse a maildir flag suffix (the letters after `:2,`).
#[verifier::loop_isolation(false)]
pub fn parse_flags(s: &[u8]) -> (r: Option<Flag>)
    ensures
        match r {
            Some(f) => spec_parse_flags(s@) == Some(f.bits),
            None => spec_parse_flags(s@) is None,
        },
{
    let mut bits: u8 = 0;
    let mut i: usize = s.len();
    while i > 0
        invariant
            i <= s.len(),
            spec_parse_flags(s@.subrange(i as int, s@.len() as int)) == Some(bits),
        decreases i,
    {
        let b = s[i - 1];
        let bit = flag_bit(b);
        proof {
            assert(s@.subrange(i - 1, s@.len() as int).subrange(
                1,
                s@.len() - (i - 1),
            ) =~= s@.subrange(i as int, s@.len() as int));
        }
        if bit == 0 {
            proof {
                assert(s@ =~= s@.subrange(0, i - 1) + s@.subrange(i - 1, s@.len() as int));
                lemma_parse_flags_concat(
                    s@.subrange(0, i - 1),
                    s@.subrange(i - 1, s@.len() as int),
                );
            }
            return None;
        }
        bits = bit | bits;
        i = i - 1;
    }
    proof {
        assert(s@.subrange(0, s@.len() as int) =~= s@);
    }
    Some(Flag { bits })
}

/// Write the `D F P R S T` letters of a flag set, sorted.
pub fn encode_flags(f: Flag) -> (r: Vec<u8>)
    ensures
        r@ == spec_encode_flags(f.bits),
{
    let mut r: Vec<u8> = Vec::new();
    if f.bits & FLAG_DRAFT != 0 {
        r.push(68u8);
    }
    if f.bits & FLAG_FLAGGED != 0 {
        r.push(70u8);
    }
    if f.bits & FLAG_PASSED != 0 {
        r.push(80u8);
    }
    if f.bits & FLAG_REPLIED != 0 {
        r.push(82u8);
    }
    if f.bits & FLAG_SEEN != 0 {
        r.push(83u8);
    }
    if f.bits & FLAG_TRASHED != 0 {
        r.push(84u8);
    }
    proof {
        assert(r@ =~= spec_encode_flags(f.bits));
    }
    r
}

/// Maildir flag round-trip: decoding an encoded flag set gives the set
/// back, for every set of the six letters the format can carry.
pub proof fn lemma_flag_round_trip(bits: u8)
    requires
        bits & 0x3f == bits,
    ensures
        spec_parse_flags(spec_encode_flags(bits)) == Some(bits),
{
    let cd = if bits & FLAG_DRAFT != 0 {
        seq![68u8]
    } else {
        Seq::<u8>::empty()
    };
    let cf = if bits & FLAG_FLAGGED != 0 {
        seq![70u8]
    } else {
        Seq::<u8>::empty()
    };
    let cp = if bits & FLAG_PASSED != 0 {
        seq![80u8]
    } else {
        Seq::<u8>::empty()
    };
    let cr = if bits & FLAG_REPLIED != 0 {
        seq![82u8]
    } else {
        Seq::<u8>::empty()
    };
    let cs = if bits & FLAG_SEEN != 0 {
        seq![83u8]
    } else {
        Seq::<u8>::empty()
    };
    let ct = if bits & FLAG_TRASHED != 0 {
        seq![84u8]
    } else {
        Seq::<u8>::empty()
    };
    lemma_parse_flags_letter(68u8);
    lemma_parse_flags_letter(70u8);
    lemma_parse_flags_letter(80u8);
    lemma_parse_flags_letter(82u8);
    lemma_parse_flags_letter(83u8);
    lemma_parse_flags_letter(84u8);
    lemma_parse_flags_concat(cs, ct);
    lemma_parse_flags_concat(cr, cs + ct);
    lemma_parse_flags_concat(cp, cr + (cs + ct));
    lemma_parse_flags_concat(cf, cp + (cr + (cs + ct)));
    lemma_parse_flags_concat(cd, cf + (cp + (cr + (cs + ct))));
    assert(spec_encode_flags(bits) =~= cd + (cf + (cp + (cr + (cs + ct)))));
    let d: u8 = if bits & FLAG_DRAFT != 0 {
        FLAG_DRAFT
    } else {
        0
    };
    let f: u8 = if bits & FLAG_FLAGGED != 0 {
        FLAG_FLAGGED
    } else {
        0
    };
    let p: u8 = if bits & FLAG_PASSED != 0 {
        FLAG_PASSED
    } else {
        0
    };
    let rr: u8 = if bits & FLAG_REPLIED != 0 {
        FLAG_REPLIED
    } else {
        0
    };
    let s: u8 = if bits & FLAG_SEEN != 0 {
        FLAG_SEEN
    } else {
        0
    };
    let t: u8 = if bits & FLAG_TRASHED != 0 {
        FLAG_TRASHED
    } else {
        0
    };
    assert(spec_parse_flags(cs + ct) == Some(s | t));
    assert(spec_parse_flags(cr + (cs + ct)) == Some(rr | (s | t)));
    assert(spec_parse_flags(cp + (cr + (cs + ct))) == Some(p | (rr | (s | t))));
    assert(spec_parse_flags(cf + (cp + (cr + (cs + ct)))) == Some(f | (p | (rr | (s | t)))));
    assert(spec_parse_flags(spec_encode_flags(bits)) == Some(d | (f | (p | (rr | (s | t))))));
    assert(d | (f | (p | (rr | (s | t)))) == bits) by (bit_vector)
        requires
            bits & 0x3f == bits,
            d == (if bits & 1u8 != 0 {
                1u8
            } else {
                0u8
            }),
            f == (if bits & 2u8 != 0 {
                2u8
            } else {
                0u8
            }),
            p == (if bits & 4u8 != 0 {
                4u8
            } else {
                0u8
            }),
            rr == (if bits & 8u8 != 0 {
                8u8
            } else {
                0u8
            }),
            s == (if bits & 16u8 != 0 {
                16u8
            } else {
                0u8
            }),
            t == (if bits & 32u8 != 0 {
                32u8
            } else {
                0u8
            }),
    ;
}

/// A single flag letter parses to its own bit.
proof fn lemma_parse_flags_letter(b: u8)
    requires
        spec_flag_bit(b) != 0,
    ensures
        spec_parse_flags(seq![b]) == Some(spec_flag_bit(b)),
{
    let s = seq![b];
    assert(s.len() == 1);
    assert(s[0] == b);
    assert(s.subrange(1, 1) =~= Seq::<u8>::empty());
    assert(spec_parse_flags(Seq::<u8>::empty()) == Some(0u8));
    let x = spec_flag_bit(b);
    assert(x | 0u8 == x) by (bit_vector);
    assert(spec_parse_flags(s) == Some(spec_flag_bit(b) | 0u8));
}

/// First value of the FNV-1a 64-bit hash.
pub const FNV_OFFSET: u64 = 0xcbf2_9ce4_8422_2325;

/// Multiplier of the FNV-1a 64-bit hash.
pub const FNV_PRIME: u64 = 0x100_0000_01b3;

/// One FNV-1a step: fold one byte into the running hash.
pub open spec fn spec_fnv1a_mix(h: u64, b: u8) -> u64 {
    vstd::wrapping::u64_specs::wrapping_mul(h ^ (b as u64), FNV_PRIME)
}

/// The FNV-1a 64-bit hash of a byte sequence.
pub open spec fn spec_fnv1a(s: Seq<u8>) -> u64
    decreases s.len(),
{
    if s.len() == 0 {
        FNV_OFFSET
    } else {
        spec_fnv1a_mix(spec_fnv1a(s.drop_last()), s.last())
    }
}

/// The FNV-1a 64-bit hash, as the backends use it for stable keys.
#[verifier::loop_isolation(false)]
pub fn fnv1a(s: &[u8]) -> (r: u64)
    ensures
        r == spec_fnv1a(s@),
{
    let mut h: u64 = FNV_OFFSET;
    let mut i: usize = 0;
    while i < s.len()
        invariant
            i <= s.len(),
            h == spec_fnv1a(s@.subrange(0, i as int)),
        decreases s.len() - i,
    {
        h = (h ^ (s[i] as u64)).wrapping_mul(FNV_PRIME);
        proof {
            assert(s@.subrange(0, (i + 1) as int).drop_last() =~= s@.subrange(0, i as int));
            assert(s@.subrange(0, (i + 1) as int).last() == s@[i as int]);
        }
        i = i + 1;
    }
    proof {
        assert(s@.subrange(0, s@.len() as int) =~= s@);
    }
    h
}

/// A file size, spelled as eight little-endian bytes.
pub open spec fn spec_size_bytes(size: u64) -> Seq<u8> {
    seq![
        (size % 256) as u8,
        ((size / 256) % 256) as u8,
        ((size / 0x10000) % 256) as u8,
        ((size / 0x1000000) % 256) as u8,
        ((size / 0x100000000) % 256) as u8,
        ((size / 0x10000000000) % 256) as u8,
        ((size / 0x1000000000000) % 256) as u8,
        ((size / 0x100000000000000) % 256) as u8,
    ]
}

/// A file size, spelled as eight little-endian bytes.
pub fn size_bytes(size: u64) -> (r: Vec<u8>)
    ensures
        r@ == spec_size_bytes(size),
{
    let mut r: Vec<u8> = Vec::new();
    r.push((size % 256) as u8);
    r.push(((size / 256) % 256) as u8);
    r.push(((size / 0x10000) % 256) as u8);
    r.push(((size / 0x1000000) % 256) as u8);
    r.push(((size / 0x100000000) % 256) as u8);
    r.push(((size / 0x10000000000) % 256) as u8);
    r.push(((size / 0x1000000000000) % 256) as u8);
    r.push(((size / 0x100000000000000) % 256) as u8);
    proof {
        assert(r@ =~= spec_size_bytes(size));
    }
    r
}

/// The stable key of a maildir message: the hash of its file name
/// (flag suffix included, so a flag edit changes the key) followed by
/// the file size.
pub open spec fn spec_envelope_hash(name: Seq<u8>, size: u64) -> u64 {
    spec_fnv1a(name + spec_size_bytes(size))
}

/// The stable key of a maildir message.
#[verifier::loop_isolation(false)]
pub fn envelope_hash(name: &[u8], size: u64) -> (r: u64)
    ensures
        r == spec_envelope_hash(name@, size),
{
    let mut v: Vec<u8> = Vec::new();
    let mut i: usize = 0;
    while i < name.len()
        invariant
            i <= name.len(),
            v@ == name@.subrange(0, i as int),
        decreases name.len() - i,
    {
        v.push(name[i]);
        proof {
            assert(v@ =~= name@.subrange(0, (i + 1) as int));
        }
        i = i + 1;
    }
    let mut sz = size_bytes(size);
    v.append(&mut sz);
    proof {
        assert(name@.subrange(0, name@.len() as int) =~= name@);
    }
    fnv1a(v.as_slice())
}

/// Position of the last `:2,` flag marker at or before `from`.
pub open spec fn spec_rfind_sep_from(s: Seq<u8>, i: int) -> Option<int>
    decreases i + 1,
{
    if i < 0 {
        None
    } else if i + 3 <= s.len() && s[i] == 58 && s[i + 1] == 50 && s[i + 2] == 44 {
        Some(i)
    } else {
        spec_rfind_sep_from(s, i - 1)
    }
}

/// Position of the last `:2,` flag marker in a file name.
pub open spec fn spec_rfind_sep(s: Seq<u8>) -> Option<int> {
    spec_rfind_sep_from(s, s.len() - 3)
}

/// Find the last `:2,` flag marker in a file name.
pub fn rfind_flags_sep(s: &[u8]) -> (r: Option<usize>)
    ensures
        match r {
            Some(i) => spec_rfind_sep(s@) == Some(i as int),
            None => spec_rfind_sep(s@) is None,
        },
{
    if s.len() < 3 {
        proof {
            lemma_rfind_sep_none(s@, s@.len() - 3);
        }
        return None;
    }
    let mut i: usize = s.len() - 2;
    while i > 0
        invariant
            i <= s.len() - 2,
            s.len() >= 3,
            spec_rfind_sep(s@) == spec_rfind_sep_from(s@, i - 1),
        decreases i,
    {
        if s[i - 1] == 58 && s[i] == 50 && s[i + 1] == 44 {
            return Some(i - 1);
        }
        i = i - 1;
    }
    None
}

/// `spec_rfind_sep_from` is `None` whenever its start lies before 0.
proof fn lemma_rfind_sep_none(s: Seq<u8>, i: int)
    requires
        i < 0,
    ensures
        spec_rfind_sep_from(s, i) is None,
{
}

/// A found flag marker lies in bounds and holds the `:2,` bytes.
proof fn lemma_rfind_sep_props(s: Seq<u8>, from: int)
    ensures
        spec_rfind_sep_from(s, from) matches Some(i) ==> 0 <= i && i + 3 <= s.len() && s[i] == 58
            && s[i + 1] == 50 && s[i + 2] == 44,
    decreases from + 1,
{
    if from >= 0 {
        lemma_rfind_sep_props(s, from - 1);
    }
}

/// The flag set a maildir file name carries: the letters after the last
/// `:2,` marker, or the empty set when there is no marker.
pub open spec fn spec_path_flags(p: Seq<u8>) -> Option<u8> {
    match spec_rfind_sep(p) {
        None => Some(0u8),
        Some(i) => spec_parse_flags(p.subrange(i + 3, p.len() as int)),
    }
}

/// The maildir file name that carries flag set `bits`: everything up to
/// and including the last `:2,` marker, then the sorted flag letters.
pub open spec fn spec_set_flag_path(p: Seq<u8>, bits: u8) -> Seq<u8>
    recommends
        spec_rfind_sep(p) is Some,
{
    p.subrange(0, spec_rfind_sep(p)->Some_0 + 3) + spec_encode_flags(bits)
}

/// A single-message maildir operation: it remembers the current path of
/// the message file; reading the bytes behind it is the host's part.
#[derive(Clone, Debug)]
pub struct MaildirOp {
    pub path: Vec<u8>,
}

impl MaildirOp {
    /// A fresh operation for the file at `path`.
    pub fn new(path: Vec<u8>) -> (r: Self)
        ensures
            r.path == path,
    {
        MaildirOp { path }
    }

    /// The flags the current file name carries.
    pub fn fetch_flags(&self) -> (r: Flag)
        requires
            spec_path_flags(self.path@) is Some,
        ensures
            spec_path_flags(self.path@) == Some(r.bits),
    {
        proof {
            lemma_rfind_sep_props(self.path@, self.path@.len() - 3);
        }
        let n = self.path.len();
        match rfind_flags_sep(self.path.as_slice()) {
            None => Flag::empty(),
            Some(i) => {
                let sub = slice_range(self.path.as_slice(), i + 3, n);
                match parse_flags(sub) {
                    Some(f) => f,
                    None => Flag::empty(),  // unreachable under the precondition
                }
            },
        }
    }

    /// Toggle `f` in the file's flags: compute the new name this message
    /// must be renamed to, update the stored path, and report the
    /// `Rename` event the change implies. The caller performs the actual
    /// same-directory rename, which is atomic on POSIX.
    ///
    /// Fails, leaving the path unchanged, exactly when the file name has
    /// no `:2,` marker or carries a letter outside `D F P R S T`.
    pub fn set_flag(&mut self, f: Flag, size: u64, folder: u64) -> (r: Result<
        RefreshEvent,
        MeliError,
    >)
        ensures
            match r {
                Ok(ev) => {
                    &&& spec_rfind_sep(old(self).path@) is Some
                    &&& spec_path_flags(old(self).path@) matches Some(oldbits) && {
                        &&& final(self).path@ == spec_set_flag_path(
                            old(self).path@,
                            oldbits ^ f.bits,
                        )
                        &&& ev.folder == folder
                        &&& ev.kind == RefreshEventKind::Rename(
                            spec_envelope_hash(old(self).path@, size),
                            spec_envelope_hash(final(self).path@, size),
                        )
                    }
                },
                Err(e) => {
                    &&& final(self).path == old(self).path
                    &&& e == MeliError::Invalid
                    &&& (spec_rfind_sep(old(self).path@) is None || spec_path_flags(
                        old(self).path@,
                    ) is None)
                },
            },
    {
        proof {
            lemma_rfind_sep_props(self.path@, self.path@.len() - 3);
        }
        let sep = match rfind_flags_sep(self.path.as_slice()) {
            None => {
                return Err(MeliError::Invalid);
            },
            Some(i) => i,
        };
        let n = self.path.len();
        let suffix = slice_range(self.path.as_slice(), sep + 3, n);
        let mut flags = match parse_flags(suffix) {
            None => {
                return Err(MeliError::Invalid);
            },
            Some(fl) => fl,
        };
        let old_hash = envelope_hash(self.path.as_slice(), size);
        flags.toggle(f);
        let mut letters = encode_flags(flags);
        let mut new_path: Vec<u8> = Vec::new();
        let mut i: usize = 0;
        while i < sep + 3
        invariant
            sep + 3 <= self.path.len(),
            i <= sep + 3,
            new_path@ == self.path@.subrange(0, i as int),
        decreases sep + 3 - i,
        {
            new_path.push(self.path[i]);
            proof {
                assert(new_path@ =~= self.path@.subrange(0, (i + 1) as int));
            }
            i = i + 1;
        }
        new_path.append(&mut letters);
        let new_hash = envelope_hash(new_path.as_slice(), size);
        self.path = new_path;
        Ok(RefreshEvent { folder, kind: RefreshEventKind::Rename(old_hash, new_hash) })
    }
}

/// Borrow `s[from..to]`.
fn slice_range<'a>(s: &'a [u8], from: usize, to: usize) -> (r: &'a [u8])
    requires
        from <= to <= s@.len(),
    ensures
        r@ == s@.subrange(from as int, to as int),
{
    let r = &s[from..to];
    r
}

} // verus!
