//! The MIME attachment model: content types, character sets, transfer
//! encodings, dispositions, and the multipart boundary generator.

use vstd::prelude::*;

use crate::error::MeliError;

verus! {

/// Case-insensitive byte equality.
pub open spec fn spec_eq_ci(a: Seq<u8>, b: Seq<u8>) -> bool {
    a.len() == b.len() && (forall|i: int|
        0 <= i < a.len() ==> crate::sieve_lex::spec_lower(#[trigger] a[i])
            == crate::sieve_lex::spec_lower(b[i]))
}

/// Case-insensitive byte equality.
#[verifier::loop_isolation(false)]
pub fn eq_ci(a: &[u8], b: &[u8]) -> (r: bool)
    ensures
        r == spec_eq_ci(a@, b@),
{
    if a.len() != b.len() {
        return false;
    }
    let n = a.len();
    let mut i: usize = 0;
    while i < n
        invariant
            i <= n,
            n == a@.len() == b@.len(),
            forall|j: int|
                0 <= j < i ==> crate::sieve_lex::spec_lower(#[trigger] a@[j])
                    == crate::sieve_lex::spec_lower(b@[j]),
        decreases n - i,
    {
        if crate::sieve_lex::lower(a[i]) != crate::sieve_lex::lower(b[i]) {
            return false;
        }
        i = i + 1;
    }
    true
}

/// The byte range that remains when whitespace is trimmed off both
/// ends.
pub open spec fn spec_trimmed(s: Seq<u8>) -> Seq<u8> {
    let a = crate::sieve_lex::spec_skip_ws(s, 0);
    let b = spec_trim_end(s, s.len() as int);
    if a <= b {
        s.subrange(a, b)
    } else {
        Seq::empty()
    }
}

/// End of the sequence with trailing whitespace removed.
pub open spec fn spec_trim_end(s: Seq<u8>, e: int) -> int
    decreases e,
{
    if 0 < e <= s.len() && crate::sieve_lex::is_ws(s[e - 1]) {
        spec_trim_end(s, e - 1)
    } else {
        e
    }
}

/// Trim whitespace off both ends.
#[verifier::loop_isolation(false)]
pub fn trim_bytes(s: &[u8]) -> (r: Vec<u8>)
    ensures
        r@ == spec_trimmed(s@),
{
    let n = s.len();
    let mut a: usize = 0;
    while a < n && (s[a] == 32 || s[a] == 9 || s[a] == 10 || s[a] == 13)
        invariant
            a <= n,
            crate::sieve_lex::spec_skip_ws(s@, 0) == crate::sieve_lex::spec_skip_ws(s@, a as int),
        decreases n - a,
    {
        a = a + 1;
    }
    proof {
        assert(crate::sieve_lex::spec_skip_ws(s@, a as int) == a as int);
    }
    let mut b: usize = n;
    while b > 0 && (s[b - 1] == 32 || s[b - 1] == 9 || s[b - 1] == 10 || s[b - 1] == 13)
        invariant
            b <= n,
            spec_trim_end(s@, s@.len() as int) == spec_trim_end(s@, b as int),
        decreases b,
    {
        b = b - 1;
    }
    proof {
        assert(spec_trim_end(s@, b as int) == b as int);
    }
    if a > b {
        let r: Vec<u8> = Vec::new();
        proof {
            assert(r@ =~= spec_trimmed(s@));
        }
        return r;
    }
    let mut r: Vec<u8> = Vec::new();
    let mut k = a;
    while k < b
        invariant
            a <= k <= b <= n,
            r@ == s@.subrange(a as int, k as int),
        decreases b - k,
    {
        r.push(s[k]);
        proof {
            assert(r@ =~= s@.subrange(a as int, (k + 1) as int));
        }
        k = k + 1;
    }
    proof {
        assert(r@ =~= spec_trimmed(s@));
    }
    r
}

/// A recognized character set; anything unknown falls back to ASCII
/// with lossy replacement.
#[derive(Clone, Copy, Debug, PartialEq, Eq, Structural)]
pub enum Charset {
    Ascii,
    UTF8,
    UTF16,
    ISO8859_1,
    ISO8859_2,
    ISO8859_7,
    ISO8859_15,
    Windows1250,
    Windows1251,
    Windows1252,
    Windows1253,
    GBK,
    GB2312,
    BIG5,
    ISO2022JP,
}

/// The charset a (trimmed, case-folded) label denotes.
pub open spec fn spec_charset_from(s: Seq<u8>) -> Charset {
    let t = spec_trimmed(s);
    if spec_eq_ci(t, seq![117u8, 115u8, 45u8, 97u8, 115u8, 99u8, 105u8, 105u8]) || spec_eq_ci(t, seq![97u8, 115u8, 99u8, 105u8, 105u8]) {
        Charset::Ascii
    } else if spec_eq_ci(t, seq![117u8, 116u8, 102u8, 45u8, 56u8]) || spec_eq_ci(t, seq![117u8, 116u8, 102u8, 56u8]) {
        Charset::UTF8
    } else if spec_eq_ci(t, seq![117u8, 116u8, 102u8, 45u8, 49u8, 54u8]) || spec_eq_ci(t, seq![117u8, 116u8, 102u8, 49u8, 54u8]) {
        Charset::UTF16
    } else if spec_eq_ci(t, seq![105u8, 115u8, 111u8, 45u8, 56u8, 56u8, 53u8, 57u8, 45u8, 49u8]) || spec_eq_ci(t, seq![105u8, 115u8, 111u8, 56u8, 56u8, 53u8, 57u8, 45u8, 49u8]) {
        Charset::ISO8859_1
    } else if spec_eq_ci(t, seq![105u8, 115u8, 111u8, 45u8, 56u8, 56u8, 53u8, 57u8, 45u8, 50u8]) || spec_eq_ci(t, seq![105u8, 115u8, 111u8, 56u8, 56u8, 53u8, 57u8, 45u8, 50u8]) {
        Charset::ISO8859_2
    } else if spec_eq_ci(t, seq![105u8, 115u8, 111u8, 45u8, 56u8, 56u8, 53u8, 57u8, 45u8, 55u8]) || spec_eq_ci(t, seq![105u8, 115u8, 111u8, 56u8, 56u8, 53u8, 57u8, 45u8, 55u8]) {
        Charset::ISO8859_7
    } else if spec_eq_ci(t, seq![105u8, 115u8, 111u8, 45u8, 56u8, 56u8, 53u8, 57u8, 45u8, 49u8, 53u8]) || spec_eq_ci(t, seq![105u8, 115u8, 111u8, 56u8, 56u8, 53u8, 57u8, 45u8, 49u8, 53u8]) {
        Charset::ISO8859_15
    } else if spec_eq_ci(t, seq![119u8, 105u8, 110u8, 100u8, 111u8, 119u8, 115u8, 45u8, 49u8, 50u8, 53u8, 48u8]) || spec_eq_ci(t, seq![119u8, 105u8, 110u8, 100u8, 111u8, 119u8, 115u8, 49u8, 50u8, 53u8, 48u8]) {
        Charset::Windows1250
    } else if spec_eq_ci(t, seq![119u8, 105u8, 110u8, 100u8, 111u8, 119u8, 115u8, 45u8, 49u8, 50u8, 53u8, 49u8]) || spec_eq_ci(t, seq![119u8, 105u8, 110u8, 100u8, 111u8, 119u8, 115u8, 49u8, 50u8, 53u8, 49u8]) {
        Charset::Windows1251
    } else if spec_eq_ci(t, seq![119u8, 105u8, 110u8, 100u8, 111u8, 119u8, 115u8, 45u8, 49u8, 50u8, 53u8, 50u8]) || spec_eq_ci(t, seq![119u8, 105u8, 110u8, 100u8, 111u8, 119u8, 115u8, 49u8, 50u8, 53u8, 50u8]) {
        Charset::Windows1252
    } else if spec_eq_ci(t, seq![119u8, 105u8, 110u8, 100u8, 111u8, 119u8, 115u8, 45u8, 49u8, 50u8, 53u8, 51u8]) || spec_eq_ci(t, seq![119u8, 105u8, 110u8, 100u8, 111u8, 119u8, 115u8, 49u8, 50u8, 53u8, 51u8]) {
        Charset::Windows1253
    } else if spec_eq_ci(t, seq![103u8, 98u8, 107u8]) {
        Charset::GBK
    } else if spec_eq_ci(t, seq![103u8, 98u8, 50u8, 51u8, 49u8, 50u8]) || spec_eq_ci(t, seq![103u8, 98u8, 45u8, 50u8, 51u8, 49u8, 50u8]) {
        Charset::GB2312
    } else if spec_eq_ci(t, seq![98u8, 105u8, 103u8, 53u8]) {
        Charset::BIG5
    } else if spec_eq_ci(t, seq![105u8, 115u8, 111u8, 45u8, 50u8, 48u8, 50u8, 50u8, 45u8, 106u8, 112u8]) {
        Charset::ISO2022JP
    } else {
        Charset::Ascii
    }
}

impl Charset {
    /// Recognize a charset label, as a `charset=` parameter spells it.
    #[verifier::rlimit(100)]
    pub fn from_bytes(b: &[u8]) -> (r: Charset)
        ensures
            r == spec_charset_from(b@),
    {
        let t = trim_bytes(b);
        let ts = t.as_slice();
        let m_ascii_0 = {
            let lit: Vec<u8> = vec![117u8, 115u8, 45u8, 97u8, 115u8, 99u8, 105u8, 105u8];
            proof {
                assert(lit@ =~= seq![117u8, 115u8, 45u8, 97u8, 115u8, 99u8, 105u8, 105u8]);
            }
            eq_ci(ts, lit.as_slice())
        };
        let m_ascii_1 = {
            let lit: Vec<u8> = vec![97u8, 115u8, 99u8, 105u8, 105u8];
            proof {
                assert(lit@ =~= seq![97u8, 115u8, 99u8, 105u8, 105u8]);
            }
            eq_ci(ts, lit.as_slice())
        };
        let m_utf8_0 = {
            let lit: Vec<u8> = vec![117u8, 116u8, 102u8, 45u8, 56u8];
            proof {
                assert(lit@ =~= seq![117u8, 116u8, 102u8, 45u8, 56u8]);
            }
            eq_ci(ts, lit.as_slice())
        };
        let m_utf8_1 = {
            let lit: Vec<u8> = vec![117u8, 116u8, 102u8, 56u8];
            proof {
                assert(lit@ =~= seq![117u8, 116u8, 102u8, 56u8]);
            }
            eq_ci(ts, lit.as_slice())
        };
        let m_utf16_0 = {
            let lit: Vec<u8> = vec![117u8, 116u8, 102u8, 45u8, 49u8, 54u8];
            proof {
                assert(lit@ =~= seq![117u8, 116u8, 102u8, 45u8, 49u8, 54u8]);
            }
            eq_ci(ts, lit.as_slice())
        };
        let m_utf16_1 = {
            let lit: Vec<u8> = vec![117u8, 116u8, 102u8, 49u8, 54u8];
            proof {
                assert(lit@ =~= seq![117u8, 116u8, 102u8, 49u8, 54u8]);
            }
            eq_ci(ts, lit.as_slice())
        };
        let m_iso8859_1_0 = {
            let lit: Vec<u8> = vec![105u8, 115u8, 111u8, 45u8, 56u8, 56u8, 53u8, 57u8, 45u8, 49u8];
            proof {
                assert(lit@ =~= seq![105u8, 115u8, 111u8, 45u8, 56u8, 56u8, 53u8, 57u8, 45u8, 49u8]);
            }
            eq_ci(ts, lit.as_slice())
        };
        let m_iso8859_1_1 = {
            let lit: Vec<u8> = vec![105u8, 115u8, 111u8, 56u8, 56u8, 53u8, 57u8, 45u8, 49u8];
            proof {
                assert(lit@ =~= seq![105u8, 115u8, 111u8, 56u8, 56u8, 53u8, 57u8, 45u8, 49u8]);
            }
            eq_ci(ts, lit.as_slice())
        };
        let m_iso8859_2_0 = {
            let lit: Vec<u8> = vec![105u8, 115u8, 111u8, 45u8, 56u8, 56u8, 53u8, 57u8, 45u8, 50u8];
            proof {
                assert(lit@ =~= seq![105u8, 115u8, 111u8, 45u8, 56u8, 56u8, 53u8, 57u8, 45u8, 50u8]);
            }
            eq_ci(ts, lit.as_slice())
        };
        let m_iso8859_2_1 = {
            let lit: Vec<u8> = vec![105u8, 115u8, 111u8, 56u8, 56u8, 53u8, 57u8, 45u8, 50u8];
            proof {
                assert(lit@ =~= seq![105u8, 115u8, 111u8, 56u8, 56u8, 53u8, 57u8, 45u8, 50u8]);
            }
            eq_ci(ts, lit.as_slice())
        };
        let m_iso8859_7_0 = {
            let lit: Vec<u8> = vec![105u8, 115u8, 111u8, 45u8, 56u8, 56u8, 53u8, 57u8, 45u8, 55u8];
            proof {
                assert(lit@ =~= seq![105u8, 115u8, 111u8, 45u8, 56u8, 56u8, 53u8, 57u8, 45u8, 55u8]);
            }
            eq_ci(ts, lit.as_slice())
        };
        let m_iso8859_7_1 = {
            let lit: Vec<u8> = vec![105u8, 115u8, 111u8, 56u8, 56u8, 53u8, 57u8, 45u8, 55u8];
            proof {
                assert(lit@ =~= seq![105u8, 115u8, 111u8, 56u8, 56u8, 53u8, 57u8, 45u8, 55u8]);
            }
            eq_ci(ts, lit.as_slice())
        };
        let m_iso8859_15_0 = {
            let lit: Vec<u8> = vec![105u8, 115u8, 111u8, 45u8, 56u8, 56u8, 53u8, 57u8, 45u8, 49u8, 53u8];
            proof {
                assert(lit@ =~= seq![105u8, 115u8, 111u8, 45u8, 56u8, 56u8, 53u8, 57u8, 45u8, 49u8, 53u8]);
            }
            eq_ci(ts, lit.as_slice())
        };
        let m_iso8859_15_1 = {
            let lit: Vec<u8> = vec![105u8, 115u8, 111u8, 56u8, 56u8, 53u8, 57u8, 45u8, 49u8, 53u8];
            proof {
                assert(lit@ =~= seq![105u8, 115u8, 111u8, 56u8, 56u8, 53u8, 57u8, 45u8, 49u8, 53u8]);
            }
            eq_ci(ts, lit.as_slice())
        };
        let m_windows1250_0 = {
            let lit: Vec<u8> = vec![119u8, 105u8, 110u8, 100u8, 111u8, 119u8, 115u8, 45u8, 49u8, 50u8, 53u8, 48u8];
            proof {
                assert(lit@ =~= seq![119u8, 105u8, 110u8, 100u8, 111u8, 119u8, 115u8, 45u8, 49u8, 50u8, 53u8, 48u8]);
            }
            eq_ci(ts, lit.as_slice())
        };
        let m_windows1250_1 = {
            let lit: Vec<u8> = vec![119u8, 105u8, 110u8, 100u8, 111u8, 119u8, 115u8, 49u8, 50u8, 53u8, 48u8];
            proof {
                assert(lit@ =~= seq![119u8, 105u8, 110u8, 100u8, 111u8, 119u8, 115u8, 49u8, 50u8, 53u8, 48u8]);
            }
            eq_ci(ts, lit.as_slice())
        };
        let m_windows1251_0 = {
            let lit: Vec<u8> = vec![119u8, 105u8, 110u8, 100u8, 111u8, 119u8, 115u8, 45u8, 49u8, 50u8, 53u8, 49u8];
            proof {
                assert(lit@ =~= seq![119u8, 105u8, 110u8, 100u8, 111u8, 119u8, 115u8, 45u8, 49u8, 50u8, 53u8, 49u8]);
            }
            eq_ci(ts, lit.as_slice())
        };
        let m_windows1251_1 = {
            let lit: Vec<u8> = vec![119u8, 105u8, 110u8, 100u8, 111u8, 119u8, 115u8, 49u8, 50u8, 53u8, 49u8];
            proof {
                assert(lit@ =~= seq![119u8, 105u8, 110u8, 100u8, 111u8, 119u8, 115u8, 49u8, 50u8, 53u8, 49u8]);
            }
            eq_ci(ts, lit.as_slice())
        };
        let m_windows1252_0 = {
            let lit: Vec<u8> = vec![119u8, 105u8, 110u8, 100u8, 111u8, 119u8, 115u8, 45u8, 49u8, 50u8, 53u8, 50u8];
            proof {
                assert(lit@ =~= seq![119u8, 105u8, 110u8, 100u8, 111u8, 119u8, 115u8, 45u8, 49u8, 50u8, 53u8, 50u8]);
            }
            eq_ci(ts, lit.as_slice())
        };
        let m_windows1252_1 = {
            let lit: Vec<u8> = vec![119u8, 105u8, 110u8, 100u8, 111u8, 119u8, 115u8, 49u8, 50u8, 53u8, 50u8];
            proof {
                assert(lit@ =~= seq![119u8, 105u8, 110u8, 100u8, 111u8, 119u8, 115u8, 49u8, 50u8, 53u8, 50u8]);
            }
            eq_ci(ts, lit.as_slice())
        };
        let m_windows1253_0 = {
            let lit: Vec<u8> = vec![119u8, 105u8, 110u8, 100u8, 111u8, 119u8, 115u8, 45u8, 49u8, 50u8, 53u8, 51u8];
            proof {
                assert(lit@ =~= seq![119u8, 105u8, 110u8, 100u8, 111u8, 119u8, 115u8, 45u8, 49u8, 50u8, 53u8, 51u8]);
            }
            eq_ci(ts, lit.as_slice())
        };
        let m_windows1253_1 = {
            let lit: Vec<u8> = vec![119u8, 105u8, 110u8, 100u8, 111u8, 119u8, 115u8, 49u8, 50u8, 53u8, 51u8];
            proof {
                assert(lit@ =~= seq![119u8, 105u8, 110u8, 100u8, 111u8, 119u8, 115u8, 49u8, 50u8, 53u8, 51u8]);
            }
            eq_ci(ts, lit.as_slice())
        };
        let m_gbk_0 = {
            let lit: Vec<u8> = vec![103u8, 98u8, 107u8];
            proof {
                assert(lit@ =~= seq![103u8, 98u8, 107u8]);
            }
            eq_ci(ts, lit.as_slice())
        };
        let m_gb2312_0 = {
            let lit: Vec<u8> = vec![103u8, 98u8, 50u8, 51u8, 49u8, 50u8];
            proof {
                assert(lit@ =~= seq![103u8, 98u8, 50u8, 51u8, 49u8, 50u8]);
            }
            eq_ci(ts, lit.as_slice())
        };
        let m_gb2312_1 = {
            let lit: Vec<u8> = vec![103u8, 98u8, 45u8, 50u8, 51u8, 49u8, 50u8];
            proof {
                assert(lit@ =~= seq![103u8, 98u8, 45u8, 50u8, 51u8, 49u8, 50u8]);
            }
            eq_ci(ts, lit.as_slice())
        };
        let m_big5_0 = {
            let lit: Vec<u8> = vec![98u8, 105u8, 103u8, 53u8];
            proof {
                assert(lit@ =~= seq![98u8, 105u8, 103u8, 53u8]);
            }
            eq_ci(ts, lit.as_slice())
        };
        let m_iso2022jp_0 = {
            let lit: Vec<u8> = vec![105u8, 115u8, 111u8, 45u8, 50u8, 48u8, 50u8, 50u8, 45u8, 106u8, 112u8];
            proof {
                assert(lit@ =~= seq![105u8, 115u8, 111u8, 45u8, 50u8, 48u8, 50u8, 50u8, 45u8, 106u8, 112u8]);
            }
            eq_ci(ts, lit.as_slice())
        };
        if m_ascii_0 || m_ascii_1 {
            Charset::Ascii
        } else if m_utf8_0 || m_utf8_1 {
            Charset::UTF8
        } else if m_utf16_0 || m_utf16_1 {
            Charset::UTF16
        } else if m_iso8859_1_0 || m_iso8859_1_1 {
            Charset::ISO8859_1
        } else if m_iso8859_2_0 || m_iso8859_2_1 {
            Charset::ISO8859_2
        } else if m_iso8859_7_0 || m_iso8859_7_1 {
            Charset::ISO8859_7
        } else if m_iso8859_15_0 || m_iso8859_15_1 {
            Charset::ISO8859_15
        } else if m_windows1250_0 || m_windows1250_1 {
            Charset::Windows1250
        } else if m_windows1251_0 || m_windows1251_1 {
            Charset::Windows1251
        } else if m_windows1252_0 || m_windows1252_1 {
            Charset::Windows1252
        } else if m_windows1253_0 || m_windows1253_1 {
            Charset::Windows1253
        } else if m_gbk_0 {
            Charset::GBK
        } else if m_gb2312_0 || m_gb2312_1 {
            Charset::GB2312
        } else if m_big5_0 {
            Charset::BIG5
        } else if m_iso2022jp_0 {
            Charset::ISO2022JP
        } else {
            Charset::Ascii
        }
    }
}

impl Charset {
    /// The canonical label of the charset.
    pub fn as_label(&self) -> (r: &'static str)
        ensures
            r@ == spec_charset_label(*self),
    {
        match self {
            Charset::Ascii => "us-ascii",
            Charset::UTF8 => "utf-8",
            Charset::UTF16 => "utf-16",
            Charset::ISO8859_1 => "iso-8859-1",
            Charset::ISO8859_2 => "iso-8859-2",
            Charset::ISO8859_7 => "iso-8859-7",
            Charset::ISO8859_15 => "iso-8859-15",
            Charset::Windows1250 => "windows-1250",
            Charset::Windows1251 => "windows-1251",
            Charset::Windows1252 => "windows-1252",
            Charset::Windows1253 => "windows-1253",
            Charset::GBK => "GBK",
            Charset::GB2312 => "gb2312",
            Charset::BIG5 => "BIG5",
            Charset::ISO2022JP => "ISO-2022-JP",
        }
    }
}

/// The canonical label of each charset.
pub open spec fn spec_charset_label(c: Charset) -> Seq<char> {
    match c {
        Charset::Ascii => "us-ascii"@,
        Charset::UTF8 => "utf-8"@,
        Charset::UTF16 => "utf-16"@,
        Charset::ISO8859_1 => "iso-8859-1"@,
        Charset::ISO8859_2 => "iso-8859-2"@,
        Charset::ISO8859_7 => "iso-8859-7"@,
        Charset::ISO8859_15 => "iso-8859-15"@,
        Charset::Windows1250 => "windows-1250"@,
        Charset::Windows1251 => "windows-1251"@,
        Charset::Windows1252 => "windows-1252"@,
        Charset::Windows1253 => "windows-1253"@,
        Charset::GBK => "GBK"@,
        Charset::GB2312 => "gb2312"@,
        Charset::BIG5 => "BIG5"@,
        Charset::ISO2022JP => "ISO-2022-JP"@,
    }
}

impl Default for Charset {
    /// The default charset is UTF-8.
    fn default() -> (r: Charset)
        ensures
            r == Charset::UTF8,
    {
        Charset::UTF8
    }
}


/// The kind of a multipart container.
#[derive(Clone, Copy, Debug, PartialEq, Eq, Structural)]
pub enum MultipartType {
    Alternative,
    Digest,
    Mixed,
    Related,
    Signed,
}

/// The multipart kind a subtype label denotes; unknown labels count as
/// `mixed`.
pub open spec fn spec_multipart_from(s: Seq<u8>) -> MultipartType {
    if spec_eq_ci(s, seq![109u8, 105u8, 120u8, 101u8, 100u8]) {
        MultipartType::Mixed
    } else if spec_eq_ci(
        s,
        seq![97u8, 108u8, 116u8, 101u8, 114u8, 110u8, 97u8, 116u8, 105u8, 118u8, 101u8],
    ) {
        MultipartType::Alternative
    } else if spec_eq_ci(s, seq![100u8, 105u8, 103u8, 101u8, 115u8, 116u8]) {
        MultipartType::Digest
    } else if spec_eq_ci(s, seq![115u8, 105u8, 103u8, 110u8, 101u8, 100u8]) {
        MultipartType::Signed
    } else if spec_eq_ci(s, seq![114u8, 101u8, 108u8, 97u8, 116u8, 101u8, 100u8]) {
        MultipartType::Related
    } else {
        MultipartType::Mixed
    }
}

impl MultipartType {
    /// Recognize a multipart subtype label.
    pub fn from_bytes(val: &[u8]) -> (r: MultipartType)
        ensures
            r == spec_multipart_from(val@),
    {
        let l_mixed: Vec<u8> = vec![109u8, 105u8, 120u8, 101u8, 100u8];
        let l_alt: Vec<u8> = vec![
            97u8,
            108u8,
            116u8,
            101u8,
            114u8,
            110u8,
            97u8,
            116u8,
            105u8,
            118u8,
            101u8,
        ];
        let l_digest: Vec<u8> = vec![100u8, 105u8, 103u8, 101u8, 115u8, 116u8];
        let l_signed: Vec<u8> = vec![115u8, 105u8, 103u8, 110u8, 101u8, 100u8];
        let l_related: Vec<u8> = vec![114u8, 101u8, 108u8, 97u8, 116u8, 101u8, 100u8];
        proof {
            assert(l_mixed@ =~= seq![109u8, 105u8, 120u8, 101u8, 100u8]);
            assert(l_alt@ =~= seq![
                97u8,
                108u8,
                116u8,
                101u8,
                114u8,
                110u8,
                97u8,
                116u8,
                105u8,
                118u8,
                101u8,
            ]);
            assert(l_digest@ =~= seq![100u8, 105u8, 103u8, 101u8, 115u8, 116u8]);
            assert(l_signed@ =~= seq![115u8, 105u8, 103u8, 110u8, 101u8, 100u8]);
            assert(l_related@ =~= seq![114u8, 101u8, 108u8, 97u8, 116u8, 101u8, 100u8]);
        }
        if eq_ci(val, l_mixed.as_slice()) {
            MultipartType::Mixed
        } else if eq_ci(val, l_alt.as_slice()) {
            MultipartType::Alternative
        } else if eq_ci(val, l_digest.as_slice()) {
            MultipartType::Digest
        } else if eq_ci(val, l_signed.as_slice()) {
            MultipartType::Signed
        } else if eq_ci(val, l_related.as_slice()) {
            MultipartType::Related
        } else {
            MultipartType::Mixed
        }
    }
}

impl Default for MultipartType {
    /// The default multipart kind is `mixed`.
    fn default() -> (r: MultipartType)
        ensures
            r == MultipartType::Mixed,
    {
        MultipartType::Mixed
    }
}

/// The kind of a `text/*` part.
#[derive(Debug, PartialEq, Eq)]
pub enum Text {
    Plain,
    Html,
    Rfc822,
    Other { tag: Vec<u8> },
}

impl Text {
    /// Whether this is `text/html`.
    pub fn is_html(&self) -> (r: bool)
        ensures
            r == (self matches Text::Html),
    {
        match self {
            Text::Html => true,
            _ => false,
        }
    }
}

/// How a part's bytes are put on the wire.
#[derive(Debug, PartialEq, Eq)]
pub enum ContentTransferEncoding {
    _8Bit,
    _7Bit,
    Base64,
    QuotedPrintable,
    Other { tag: Vec<u8> },
}

/// Lower-case every byte.
pub open spec fn spec_lower_bytes(s: Seq<u8>) -> Seq<u8> {
    Seq::new(s.len(), |i: int| crate::sieve_lex::spec_lower(s[i]))
}

/// Lower-case every byte.
#[verifier::loop_isolation(false)]
pub fn lower_bytes(s: &[u8]) -> (r: Vec<u8>)
    ensures
        r@ == spec_lower_bytes(s@),
{
    let n = s.len();
    let mut r: Vec<u8> = Vec::new();
    let mut i: usize = 0;
    while i < n
        invariant
            i <= n,
            r@ == spec_lower_bytes(s@).subrange(0, i as int),
        decreases n - i,
    {
        r.push(crate::sieve_lex::lower(s[i]));
        proof {
            assert(r@ =~= spec_lower_bytes(s@).subrange(0, (i + 1) as int));
        }
        i = i + 1;
    }
    proof {
        assert(r@ =~= spec_lower_bytes(s@));
    }
    r
}

impl ContentTransferEncoding {
    /// Recognize a `Content-Transfer-Encoding` value; anything unknown
    /// is kept, lower-cased, as its own tag.
    pub fn from_bytes(val: &[u8]) -> (r: ContentTransferEncoding)
        ensures
            ({
                if spec_eq_ci(val@, seq![98u8, 97u8, 115u8, 101u8, 54u8, 52u8]) {
                    r matches ContentTransferEncoding::Base64
                } else if spec_eq_ci(val@, seq![55u8, 98u8, 105u8, 116u8]) {
                    r matches ContentTransferEncoding::_7Bit
                } else if spec_eq_ci(val@, seq![56u8, 98u8, 105u8, 116u8]) {
                    r matches ContentTransferEncoding::_8Bit
                } else if spec_eq_ci(
                    val@,
                    seq![
                        113u8,
                        117u8,
                        111u8,
                        116u8,
                        101u8,
                        100u8,
                        45u8,
                        112u8,
                        114u8,
                        105u8,
                        110u8,
                        116u8,
                        97u8,
                        98u8,
                        108u8,
                        101u8,
                    ],
                ) {
                    r matches ContentTransferEncoding::QuotedPrintable
                } else {
                    r matches ContentTransferEncoding::Other { tag } && tag@ == spec_lower_bytes(
                        val@,
                    )
                }
            }),
    {
        let l_b64: Vec<u8> = vec![98u8, 97u8, 115u8, 101u8, 54u8, 52u8];
        let l_7bit: Vec<u8> = vec![55u8, 98u8, 105u8, 116u8];
        let l_8bit: Vec<u8> = vec![56u8, 98u8, 105u8, 116u8];
        let l_qp: Vec<u8> = vec![
            113u8,
            117u8,
            111u8,
            116u8,
            101u8,
            100u8,
            45u8,
            112u8,
            114u8,
            105u8,
            110u8,
            116u8,
            97u8,
            98u8,
            108u8,
            101u8,
        ];
        proof {
            assert(l_b64@ =~= seq![98u8, 97u8, 115u8, 101u8, 54u8, 52u8]);
            assert(l_7bit@ =~= seq![55u8, 98u8, 105u8, 116u8]);
            assert(l_8bit@ =~= seq![56u8, 98u8, 105u8, 116u8]);
            assert(l_qp@ =~= seq![
                113u8,
                117u8,
                111u8,
                116u8,
                101u8,
                100u8,
                45u8,
                112u8,
                114u8,
                105u8,
                110u8,
                116u8,
                97u8,
                98u8,
                108u8,
                101u8,
            ]);
        }
        if eq_ci(val, l_b64.as_slice()) {
            ContentTransferEncoding::Base64
        } else if eq_ci(val, l_7bit.as_slice()) {
            ContentTransferEncoding::_7Bit
        } else if eq_ci(val, l_8bit.as_slice()) {
            ContentTransferEncoding::_8Bit
        } else if eq_ci(val, l_qp.as_slice()) {
            ContentTransferEncoding::QuotedPrintable
        } else {
            ContentTransferEncoding::Other { tag: lower_bytes(val) }
        }
    }
}

impl Default for ContentTransferEncoding {
    /// The default transfer encoding is 8-bit.
    fn default() -> (r: ContentTransferEncoding)
        ensures
            r matches ContentTransferEncoding::_8Bit,
    {
        ContentTransferEncoding::_8Bit
    }
}

/// One named parameter of a content type.
#[derive(Debug, PartialEq, Eq)]
pub struct Parameter {
    pub name: Vec<u8>,
    pub value: Vec<u8>,
}

/// One MIME part: its content type, its transfer encoding, and the
/// byte range it spans in the enclosing buffer. Children of a
/// multipart span ranges strictly inside their parent's.
#[derive(Debug, PartialEq, Eq)]
pub struct Attachment {
    pub content_type: ContentType,
    pub content_transfer_encoding: ContentTransferEncoding,
    pub start: usize,
    pub end: usize,
}

/// The type of one MIME part.
#[derive(Debug, PartialEq, Eq)]
pub enum ContentType {
    Text { kind: Text, parameters: Vec<Parameter>, charset: Charset },
    Multipart { boundary: Vec<u8>, kind: MultipartType, parts: Vec<Attachment> },
    MessageRfc822,
    PGPSignature,
    Other { tag: Vec<u8>, name: Option<Vec<u8>> },
    OctetStream { name: Option<Vec<u8>> },
}

impl ContentType {
    /// Whether this is a `text/*` part.
    pub fn is_text(&self) -> (r: bool)
        ensures
            r == (self matches ContentType::Text { .. }),
    {
        match self {
            ContentType::Text { .. } => true,
            _ => false,
        }
    }

    /// Whether this is a `text/html` part.
    pub fn is_text_html(&self) -> (r: bool)
        ensures
            r == (self matches ContentType::Text { kind: Text::Html, .. }),
    {
        match self {
            ContentType::Text { kind: Text::Html, .. } => true,
            _ => false,
        }
    }

    /// The attached file name, where the type carries one.
    pub fn name(&self) -> (r: Option<&Vec<u8>>)
        ensures
            match self {
                ContentType::Other { name, .. } => match name {
                    Some(n) => r matches Some(rn) && rn == n,
                    None => r is None,
                },
                ContentType::OctetStream { name } => match name {
                    Some(n) => r matches Some(rn) && rn == n,
                    None => r is None,
                },
                _ => r is None,
            },
    {
        match self {
            ContentType::Other { name, .. } => name.as_ref(),
            ContentType::OctetStream { name } => name.as_ref(),
            _ => None,
        }
    }

    /// The children of a multipart.
    pub fn parts(&self) -> (r: Option<&Vec<Attachment>>)
        ensures
            match self {
                ContentType::Multipart { parts, .. } => r matches Some(p) && p == parts,
                _ => r is None,
            },
    {
        match self {
            ContentType::Multipart { parts, .. } => Some(parts),
            _ => None,
        }
    }
}

impl Default for ContentType {
    /// The default content type is `text/plain` in UTF-8.
    fn default() -> (r: ContentType)
        ensures
            r matches ContentType::Text { kind: Text::Plain, parameters, charset }
                && parameters@.len() == 0 && charset == Charset::UTF8,
    {
        ContentType::Text { kind: Text::Plain, parameters: Vec::new(), charset: Charset::UTF8 }
    }
}

/// How a part asks to be presented.
#[derive(Clone, Copy, Debug, PartialEq, Eq, Structural)]
pub enum ContentDispositionKind {
    Inline,
    Attachment,
}

impl ContentDispositionKind {
    /// Whether the part is meant to show inline.
    pub fn is_inline(&self) -> (r: bool)
        ensures
            r == (self matches ContentDispositionKind::Inline),
    {
        match self {
            ContentDispositionKind::Inline => true,
            _ => false,
        }
    }

    /// Whether the part is meant as an attachment.
    pub fn is_attachment(&self) -> (r: bool)
        ensures
            r == (self matches ContentDispositionKind::Attachment),
    {
        match self {
            ContentDispositionKind::Attachment => true,
            _ => false,
        }
    }
}

impl Default for ContentDispositionKind {
    /// The default disposition is inline.
    fn default() -> (r: ContentDispositionKind)
        ensures
            r == ContentDispositionKind::Inline,
    {
        ContentDispositionKind::Inline
    }
}

/// A part's `Content-Disposition` header, decomposed.
#[derive(Debug, PartialEq, Eq)]
pub struct ContentDisposition {
    pub kind: ContentDispositionKind,
    pub filename: Option<Vec<u8>>,
    pub creation_date: Option<Vec<u8>>,
    pub modification_date: Option<Vec<u8>>,
    pub read_date: Option<Vec<u8>>,
    pub size: Option<Vec<u8>>,
    pub parameter: Vec<Vec<u8>>,
}

/// Whether `needle` occurs as a contiguous run inside `hay`.
pub open spec fn spec_contains_sub(hay: Seq<u8>, needle: Seq<u8>) -> bool {
    exists|i: int|
        0 <= i && i + needle.len() <= hay.len() && #[trigger] hay.subrange(i, i + needle.len())
            == needle
}

/// Whether `needle` stands at position `i` of `hay`.
#[verifier::loop_isolation(false)]
fn needle_at(hay: &[u8], i: usize, needle: &[u8]) -> (r: bool)
    requires
        i + needle@.len() <= hay@.len(),
    ensures
        r == (hay@.subrange(i as int, i + needle@.len()) == needle@),
{
    let nh = hay.len();
    let nn = needle.len();
    let mut k: usize = 0;
    while k < nn
        invariant
            k <= nn,
            i + nn <= nh,
            nh == hay@.len(),
            forall|j: int| 0 <= j < k ==> hay@[i + j] == #[trigger] needle@[j],
        decreases nn - k,
    {
        if hay[i + k] != needle[k] {
            proof {
                assert(hay@.subrange(i as int, i + needle@.len())[k as int] != needle@[k as int]);
            }
            return false;
        }
        k = k + 1;
    }
    proof {
        assert(hay@.subrange(i as int, i + needle@.len()) =~= needle@);
    }
    true
}

/// Whether `needle` occurs as a contiguous run inside `hay`.
#[verifier::loop_isolation(false)]
pub fn contains_sub(hay: &[u8], needle: &[u8]) -> (r: bool)
    ensures
        r == spec_contains_sub(hay@, needle@),
{
    let nn = needle.len();
    let nh = hay.len();
    if nn == 0 {
        proof {
            assert(hay@.subrange(0, 0 + needle@.len() as int) =~= needle@);
            assert(spec_contains_sub(hay@, needle@));
        }
        return true;
    }
    if nn > nh {
        proof {
            assert(!spec_contains_sub(hay@, needle@));
        }
        return false;
    }
    let mut i: usize = 0;
    while i <= nh - nn
        invariant
            i <= nh - nn + 1,
            1 <= nn <= nh,
            forall|j: int|
                0 <= j < i ==> #[trigger] hay@.subrange(j, j + needle@.len()) != needle@,
        decreases nh - nn - i + 1,
    {
        if needle_at(hay, i, needle) {
            return true;
        }
        i = i + 1;
    }
    proof {
        assert(!spec_contains_sub(hay@, needle@));
    }
    false
}

/// The fixed marker every generated boundary starts with.
pub open spec fn spec_boundary_marker() -> Seq<u8> {
    seq![98u8, 122u8, 122u8, 95u8, 98u8, 122u8, 122u8, 95u8, 95u8, 98u8, 122u8, 122u8, 95u8, 95u8]
}

/// Relies on `uuid::Uuid::new_v4` and its simple form: a fresh random
/// identifier rendered as exactly 32 lowercase hexadecimal characters.
/// Nothing is assumed about which identifier comes back.
#[verifier::external_body]
fn gen_boundary() -> (r: Vec<u8>)
    ensures
        r@.len() == 32,
        forall|i: int| 0 <= i < r@.len() ==> (48 <= #[trigger] r@[i] <= 57 || 97 <= r@[i] <= 102),
{
    uuid::Uuid::new_v4().simple().to_string().into_bytes()
}

impl ContentType {
    /// Produce a multipart boundary: the fixed marker followed by fresh
    /// randomness, at most 70 bytes, not ending in whitespace, and
    /// occurring as a substring in none of the given part bodies.
    /// After 4096 collisions in a row the attempt is given up.
    #[verifier::loop_isolation(false)]
    pub fn make_boundary(parts: &Vec<Vec<u8>>) -> (r: Result<Vec<u8>, MeliError>)
        ensures
            match r {
                Ok(b) => {
                    &&& 1 <= b@.len() <= 70
                    &&& b@.subrange(0, spec_boundary_marker().len() as int)
                        == spec_boundary_marker()
                    &&& !crate::sieve_lex::is_ws(b@[b@.len() - 1])
                    &&& forall|i: int|
                        0 <= i < parts@.len() ==> !spec_contains_sub(
                            #[trigger] parts@[i]@,
                            b@,
                        )
                },
                Err(e) => e == MeliError::Invalid,
            },
    {
        let mut attempts: usize = 4096;
        while attempts > 0
            invariant
                attempts <= 4096,
            decreases attempts,
        {
            let mut cand: Vec<u8> = vec![
                98u8,
                122u8,
                122u8,
                95u8,
                98u8,
                122u8,
                122u8,
                95u8,
                95u8,
                98u8,
                122u8,
                122u8,
                95u8,
                95u8,
            ];
            proof {
                assert(cand@ =~= spec_boundary_marker());
            }
            let mut rand = gen_boundary();
            let ghost gmark = cand@;
            let ghost grand = rand@;
            cand.append(&mut rand);
            proof {
                assert(cand@ == gmark + grand);
                assert(cand@.subrange(0, spec_boundary_marker().len() as int)
                    =~= spec_boundary_marker());
            }
            let n = parts.len();
            let mut i: usize = 0;
            let mut clash = false;
            while i < n && !clash
                invariant
                    i <= n,
                    n == parts@.len(),
                    !clash ==> forall|j: int|
                        0 <= j < i ==> !spec_contains_sub((#[trigger] parts@[j])@, cand@),
                decreases n - i,
            {
                if contains_sub(parts[i].as_slice(), cand.as_slice()) {
                    clash = true;
                    break ;
                }
                i = i + 1;
            }
            if !clash {
                return Ok(cand);
            }
            attempts = attempts - 1;
        }
        Err(MeliError::Invalid)
    }
}

} // verus!
