//! Lexical layer of the sieve parser: whitespace and comment trivia,
//! case-insensitive tokens, and the bounds facts about them.

use vstd::prelude::*;

verus! {

/// Sieve whitespace: space, tab, carriage return, line feed.
pub open spec fn is_ws(b: u8) -> bool {
    b == 32 || b == 9 || b == 10 || b == 13
}

/// An ASCII decimal digit.
pub open spec fn is_digit(b: u8) -> bool {
    48 <= b <= 57
}

/// ASCII lower-casing of one byte.
pub open spec fn spec_lower(b: u8) -> u8 {
    if 65 <= b <= 90 {
        (b + 32) as u8
    } else {
        b
    }
}

/// ASCII lower-casing of one byte.
pub fn lower(b: u8) -> (r: u8)
    ensures
        r == spec_lower(b),
{
    if 65 <= b && b <= 90 {
        b + 32
    } else {
        b
    }
}

/// First position at or after `pos` that holds no whitespace.
pub open spec fn spec_skip_ws(s: Seq<u8>, pos: int) -> int
    decreases s.len() - pos,
{
    if 0 <= pos < s.len() && is_ws(s[pos]) {
        spec_skip_ws(s, pos + 1)
    } else {
        pos
    }
}

/// End of a `#` comment opened before `pos`: one past its line feed, or
/// the end of the input.
pub open spec fn spec_line_comment_end(s: Seq<u8>, pos: int) -> int
    decreases s.len() - pos,
{
    if !(0 <= pos < s.len()) {
        s.len() as int
    } else if s[pos] == 10 {
        pos + 1
    } else {
        spec_line_comment_end(s, pos + 1)
    }
}

/// End of a `/*` comment whose body starts at `pos`: one past the
/// closing `*/`, or the end of the input.
pub open spec fn spec_block_comment_end(s: Seq<u8>, pos: int) -> int
    decreases s.len() - pos,
{
    if !(0 <= pos && pos + 2 <= s.len()) {
        s.len() as int
    } else if s[pos] == 42 && s[pos + 1] == 47 {
        pos + 2
    } else {
        spec_block_comment_end(s, pos + 1)
    }
}

/// One trivia round: skip whitespace, then one comment if one starts.
pub open spec fn spec_eat_step(s: Seq<u8>, pos: int) -> int {
    let p = spec_skip_ws(s, pos);
    if 0 <= p < s.len() && s[p] == 35 {
        spec_line_comment_end(s, p + 1)
    } else if 0 <= p && p + 2 <= s.len() && s[p] == 47 && s[p + 1] == 42 {
        spec_block_comment_end(s, p + 2)
    } else {
        p
    }
}

/// Position after all whitespace and comments that start at `pos`.
pub open spec fn spec_eat(s: Seq<u8>, pos: int) -> int
    decreases s.len() - pos,
{
    let q = spec_eat_step(s, pos);
    if pos < q && q <= s.len() {
        spec_eat(s, q)
    } else {
        q
    }
}

pub broadcast proof fn lemma_skip_ws_bounds(s: Seq<u8>, pos: int)
    requires
        0 <= pos <= s.len(),
    ensures
        pos <= #[trigger] spec_skip_ws(s, pos) <= s.len(),
    decreases s.len() - pos,
{
    if 0 <= pos < s.len() && is_ws(s[pos]) {
        lemma_skip_ws_bounds(s, pos + 1);
    }
}

pub broadcast proof fn lemma_line_comment_end_bounds(s: Seq<u8>, pos: int)
    requires
        0 <= pos <= s.len(),
    ensures
        pos <= #[trigger] spec_line_comment_end(s, pos) <= s.len(),
    decreases s.len() - pos,
{
    if 0 <= pos < s.len() && s[pos] != 10 {
        lemma_line_comment_end_bounds(s, pos + 1);
    }
}

pub broadcast proof fn lemma_block_comment_end_bounds(s: Seq<u8>, pos: int)
    requires
        0 <= pos <= s.len(),
    ensures
        pos <= #[trigger] spec_block_comment_end(s, pos) <= s.len(),
    decreases s.len() - pos,
{
    if 0 <= pos && pos + 2 <= s.len() && !(s[pos] == 42 && s[pos + 1] == 47) {
        lemma_block_comment_end_bounds(s, pos + 1);
    }
}

pub broadcast proof fn lemma_eat_step_bounds(s: Seq<u8>, pos: int)
    requires
        0 <= pos <= s.len(),
    ensures
        pos <= #[trigger] spec_eat_step(s, pos) <= s.len(),
{
    lemma_skip_ws_bounds(s, pos);
    let p = spec_skip_ws(s, pos);
    if 0 <= p < s.len() && s[p] == 35 {
        lemma_line_comment_end_bounds(s, p + 1);
    } else if 0 <= p && p + 2 <= s.len() && s[p] == 47 && s[p + 1] == 42 {
        lemma_block_comment_end_bounds(s, p + 2);
    }
}

pub broadcast proof fn lemma_eat_bounds(s: Seq<u8>, pos: int)
    requires
        0 <= pos <= s.len(),
    ensures
        pos <= #[trigger] spec_eat(s, pos) <= s.len(),
    decreases s.len() - pos,
{
    lemma_eat_step_bounds(s, pos);
    let q = spec_eat_step(s, pos);
    if pos < q && q <= s.len() {
        lemma_eat_bounds(s, q);
    }
}

/// One trivia round: skip whitespace, then one comment if one starts.
#[verifier::loop_isolation(false)]
pub fn eat_inner(s: &[u8], pos: usize) -> (r: usize)
    requires
        pos <= s@.len(),
    ensures
        r as int == spec_eat_step(s@, pos as int),
        pos <= r <= s@.len(),
{
    let n = s.len();
    let mut p = pos;
    while p < n && (s[p] == 32 || s[p] == 9 || s[p] == 10 || s[p] == 13)
        invariant
            pos <= p <= n,
            n == s@.len(),
            spec_skip_ws(s@, pos as int) == spec_skip_ws(s@, p as int),
        decreases n - p,
    {
        p = p + 1;
    }
    if p < n && s[p] == 35 {
        let mut q = p + 1;
        while q < n && s[q] != 10
            invariant
                p + 1 <= q <= n,
                n == s@.len(),
                spec_line_comment_end(s@, (p + 1) as int) == spec_line_comment_end(s@, q as int),
            decreases n - q,
        {
            q = q + 1;
        }
        if q < n {
            q + 1
        } else {
            q
        }
    } else if n - p >= 2 && s[p] == 47 && s[p + 1] == 42 {
        let mut q = p + 2;
        while n - q >= 2 && !(s[q] == 42 && s[q + 1] == 47)
            invariant
                p + 2 <= q <= n,
                n == s@.len(),
                spec_block_comment_end(s@, (p + 2) as int) == spec_block_comment_end(s@, q as int),
            decreases n - q,
        {
            q = q + 1;
        }
        if n - q >= 2 {
            q + 2
        } else {
            n
        }
    } else {
        p
    }
}

/// Skip all whitespace and comments from `pos`.
#[verifier::loop_isolation(false)]
pub fn eat(s: &[u8], pos: usize) -> (r: usize)
    requires
        pos <= s@.len(),
    ensures
        r as int == spec_eat(s@, pos as int),
        pos <= r <= s@.len(),
{
    let n = s.len();
    let mut p = pos;
    loop
        invariant
            pos <= p <= n,
            n == s@.len(),
            spec_eat(s@, pos as int) == spec_eat(s@, p as int),
        decreases n - p,
    {
        let q = eat_inner(s, p);
        if q == p {
            proof {
                assert(spec_eat(s@, p as int) == p as int);
            }
            return p;
        }
        p = q;
    }
}

/// A case-insensitive literal at `pos`, exactly.
pub open spec fn spec_match_ci(s: Seq<u8>, pos: int, lit: Seq<u8>) -> bool {
    &&& 0 <= pos
    &&& pos + lit.len() <= s.len()
    &&& forall|k: int| 0 <= k < lit.len() ==> spec_lower(s[pos + k]) == spec_lower(#[trigger] lit[k])
}

/// A token: leading trivia, the literal (case-insensitive), trailing
/// trivia. Yields the position after the trailing trivia.
pub open spec fn spec_token(s: Seq<u8>, pos: int, lit: Seq<u8>) -> Option<int> {
    let p = spec_eat(s, pos);
    if spec_match_ci(s, p, lit) {
        Some(spec_eat(s, p + lit.len()))
    } else {
        None
    }
}

/// Match one token, consuming trivia on both sides.
#[verifier::loop_isolation(false)]
pub fn token(s: &[u8], pos: usize, lit: &[u8]) -> (r: Option<usize>)
    requires
        pos <= s@.len(),
        1 <= lit@.len(),
    ensures
        match r {
            Some(p) => spec_token(s@, pos as int, lit@) == Some(p as int) && pos < p <= s@.len(),
            None => spec_token(s@, pos as int, lit@) is None,
        },
{
    let n = s.len();
    let ll = lit.len();
    let p = eat(s, pos);
    if n - p < ll {
        proof {
            assert(!spec_match_ci(s@, p as int, lit@));
        }
        return None;
    }
    let mut k: usize = 0;
    while k < ll
        invariant
            0 <= k <= ll,
            ll == lit@.len(),
            n == s@.len(),
            p + ll <= n,
            forall|j: int| 0 <= j < k ==> spec_lower(s@[p + j]) == spec_lower(#[trigger] lit@[j]),
        decreases ll - k,
    {
        if lower(s[p + k]) != lower(lit[k]) {
            proof {
                assert(!spec_match_ci(s@, p as int, lit@));
            }
            return None;
        }
        k = k + 1;
    }
    proof {
        assert(spec_match_ci(s@, p as int, lit@));
    }
    let r = eat(s, p + ll);
    Some(r)
}

/// The unescaped body of a quoted string starting at `pos` (just after
/// the opening quote), with the position of the closing quote. `\"` and
/// `\\` stand for one character; a CRLF pair may stand inside; NUL, a
/// bare CR or LF, or a missing closing quote fail.
pub open spec fn spec_quoted_text(s: Seq<u8>, pos: int) -> Option<(Seq<u8>, int)>
    decreases s.len() - pos,
{
    if !(0 <= pos < s.len()) {
        None
    } else if s[pos] == 34 {
        Some((Seq::empty(), pos))
    } else if s[pos] == 92 {
        if pos + 1 < s.len() && (s[pos + 1] == 34 || s[pos + 1] == 92) {
            match spec_quoted_text(s, pos + 2) {
                Some((c, e)) => Some((seq![s[pos + 1]] + c, e)),
                None => None,
            }
        } else {
            None
        }
    } else if s[pos] == 0 || s[pos] == 10 {
        None
    } else if s[pos] == 13 {
        if pos + 1 < s.len() && s[pos + 1] == 10 {
            match spec_quoted_text(s, pos + 2) {
                Some((c, e)) => Some((seq![13u8, 10u8] + c, e)),
                None => None,
            }
        } else {
            None
        }
    } else {
        match spec_quoted_text(s, pos + 1) {
            Some((c, e)) => Some((seq![s[pos]] + c, e)),
            None => None,
        }
    }
}

/// The closing-quote position lies in bounds and holds a quote.
pub broadcast proof fn lemma_quoted_text_bounds(s: Seq<u8>, pos: int)
    ensures
        #[trigger] spec_quoted_text(s, pos) matches Some((c, e)) ==> pos <= e < s.len() && s[e]
            == 34,
    decreases s.len() - pos,
{
    if 0 <= pos < s.len() {
        if s[pos] == 92 || s[pos] == 13 {
            if pos + 2 <= s.len() {
                lemma_quoted_text_bounds(s, pos + 2);
            }
        } else {
            lemma_quoted_text_bounds(s, pos + 1);
        }
    }
}

/// A quoted string with its surrounding trivia: the unescaped body and
/// the position after the closing quote and trailing trivia.
pub open spec fn spec_string(s: Seq<u8>, pos: int) -> Option<(Seq<u8>, int)> {
    let p = spec_eat(s, pos);
    if 0 <= p < s.len() && s[p] == 34 {
        match spec_quoted_text(s, p + 1) {
            Some((c, e)) => if e < s.len() && s[e] == 34 {
                Some((c, spec_eat(s, e + 1)))
            } else {
                None
            },
            None => None,
        }
    } else {
        None
    }
}

/// Parse a quoted string.
#[verifier::loop_isolation(false)]
pub fn string(s: &[u8], pos: usize) -> (r: Option<(Vec<u8>, usize)>)
    requires
        pos <= s@.len(),
    ensures
        match r {
            Some((v, p)) => spec_string(s@, pos as int) == Some((v@, p as int)) && pos < p
                <= s@.len(),
            None => spec_string(s@, pos as int) is None,
        },
{
    let n = s.len();
    let p0 = eat(s, pos);
    if p0 >= n || s[p0] != 34 {
        return None;
    }
    let mut cur = p0 + 1;
    let mut acc: Vec<u8> = Vec::new();
    loop
        invariant
            p0 + 1 <= cur <= n,
            match spec_quoted_text(s@, cur as int) {
                Some((c, e)) => spec_quoted_text(s@, (p0 + 1) as int) == Some((acc@ + c, e)),
                None => spec_quoted_text(s@, (p0 + 1) as int) is None,
            },
        decreases n - cur,
    {
        if cur >= n {
            return None;
        }
        let b = s[cur];
        if b == 34 {
            proof {
                assert(spec_quoted_text(s@, cur as int) == Some((Seq::<u8>::empty(), cur as int)));
                assert(acc@ + Seq::<u8>::empty() =~= acc@);
                lemma_eat_bounds(s@, (cur + 1) as int);
            }
            let pend = eat(s, cur + 1);
            return Some((acc, pend));
        } else if b == 92 {
            if cur + 1 < n && (s[cur + 1] == 34 || s[cur + 1] == 92) {
                let c2 = s[cur + 1];
                acc.push(c2);
                proof {
                    match spec_quoted_text(s@, (cur + 2) as int) {
                        Some((c, e)) => {
                            assert(acc@ + c =~= acc@.subrange(0, acc@.len() - 1) + (seq![c2] + c));
                        },
                        None => {},
                    }
                }
                cur = cur + 2;
            } else {
                return None;
            }
        } else if b == 0 || b == 10 {
            return None;
        } else if b == 13 {
            if cur + 1 < n && s[cur + 1] == 10 {
                acc.push(13);
                acc.push(10);
                proof {
                    match spec_quoted_text(s@, (cur + 2) as int) {
                        Some((c, e)) => {
                            assert(acc@ + c =~= acc@.subrange(0, acc@.len() - 2) + (seq![
                                13u8,
                                10u8,
                            ] + c));
                        },
                        None => {},
                    }
                }
                cur = cur + 2;
            } else {
                return None;
            }
        } else {
            acc.push(b);
            proof {
                match spec_quoted_text(s@, (cur + 1) as int) {
                    Some((c, e)) => {
                        assert(acc@ + c =~= acc@.subrange(0, acc@.len() - 1) + (seq![b] + c));
                    },
                    None => {},
                }
            }
            cur = cur + 1;
        }
    }
}

/// First position at or after `pos` that holds no decimal digit.
pub open spec fn spec_digits_end(s: Seq<u8>, pos: int) -> int
    decreases s.len() - pos,
{
    if 0 <= pos < s.len() && is_digit(s[pos]) {
        spec_digits_end(s, pos + 1)
    } else {
        pos
    }
}

pub broadcast proof fn lemma_digits_end_bounds(s: Seq<u8>, pos: int)
    requires
        0 <= pos <= s.len(),
    ensures
        pos <= #[trigger] spec_digits_end(s, pos) <= s.len(),
    decreases s.len() - pos,
{
    if 0 <= pos < s.len() && is_digit(s[pos]) {
        lemma_digits_end_bounds(s, pos + 1);
    }
}

/// Value of the decimal digits in `s[from..to]`.
pub open spec fn spec_dec_val(s: Seq<u8>, from: int, to: int) -> int
    decreases to - from,
{
    if from >= to {
        0
    } else {
        spec_dec_val(s, from, to - 1) * 10 + (s[to - 1] - 48)
    }
}

/// The multiplier a quantifier letter after the digits stands for, with
/// the position after it: `K` a thousand, `M` a million, `G` a billion.
pub open spec fn spec_quantifier(s: Seq<u8>, e: int) -> (int, int) {
    if 0 <= e < s.len() && spec_lower(s[e]) == 107 {
        (1000, e + 1)
    } else if 0 <= e < s.len() && spec_lower(s[e]) == 109 {
        (1000000, e + 1)
    } else if 0 <= e < s.len() && spec_lower(s[e]) == 103 {
        (1000000000, e + 1)
    } else {
        (1, e)
    }
}

/// A decimal number with an optional `K`/`M`/`G` multiplier; fails when
/// no digit stands at the position or the value does not fit in 64 bits.
pub open spec fn spec_number(s: Seq<u8>, pos: int) -> Option<(u64, int)> {
    let p = spec_eat(s, pos);
    let e = spec_digits_end(s, p);
    if e == p {
        None
    } else {
        let v = spec_dec_val(s, p, e);
        let me = spec_quantifier(s, e);
        if v * me.0 <= u64::MAX {
            Some(((v * me.0) as u64, spec_eat(s, me.1)))
        } else {
            None
        }
    }
}

/// Digit values are nonnegative and grow as digits are appended.
pub proof fn lemma_dec_val_mono(s: Seq<u8>, from: int, mid: int, to: int)
    requires
        from <= mid <= to,
        forall|k: int| from <= k < to ==> is_digit(#[trigger] s[k]),
    ensures
        0 <= spec_dec_val(s, from, mid) <= spec_dec_val(s, from, to),
    decreases to - mid,
{
    if mid == to {
        lemma_dec_val_nonneg(s, from, to);
    } else {
        lemma_dec_val_mono(s, from, mid, to - 1);
        lemma_dec_val_nonneg(s, from, to - 1);
    }
}

/// Digit values are nonnegative.
proof fn lemma_dec_val_nonneg(s: Seq<u8>, from: int, to: int)
    requires
        forall|k: int| from <= k < to ==> is_digit(#[trigger] s[k]),
    ensures
        0 <= spec_dec_val(s, from, to),
    decreases to - from,
{
    if from < to {
        lemma_dec_val_nonneg(s, from, to - 1);
    }
}

/// Every byte before the digit run's end is a digit.
pub proof fn lemma_digits_end_digits(s: Seq<u8>, pos: int)
    ensures
        forall|k: int|
            pos <= k < spec_digits_end(s, pos) ==> is_digit(#[trigger] s[k]) && 0 <= k < s.len(),
    decreases s.len() - pos,
{
    if 0 <= pos < s.len() && is_digit(s[pos]) {
        lemma_digits_end_digits(s, pos + 1);
    }
}

/// Parse a number with an optional size quantifier.
#[verifier::loop_isolation(false)]
pub fn number(s: &[u8], pos: usize) -> (r: Option<(u64, usize)>)
    requires
        pos <= s@.len(),
    ensures
        match r {
            Some((v, p)) => spec_number(s@, pos as int) == Some((v, p as int)) && pos < p
                <= s@.len(),
            None => spec_number(s@, pos as int) is None,
        },
{
    let n = s.len();
    let p = eat(s, pos);
    proof {
        lemma_digits_end_digits(s@, p as int);
        lemma_digits_end_bounds(s@, p as int);
    }
    let ghost gend = spec_digits_end(s@, p as int);
    let mut cur = p;
    let mut val: u64 = 0;
    if !(cur < n && 48 <= s[cur] && s[cur] <= 57) {
        return None;
    }
    while cur < n && 48 <= s[cur] && s[cur] <= 57
        invariant
            p <= cur <= n,
            cur <= gend,
            spec_digits_end(s@, cur as int) == gend,
            val == spec_dec_val(s@, p as int, cur as int),
        decreases n - cur,
    {
        let d = s[cur] - 48;
        proof {
            lemma_digits_end_bounds(s@, cur as int + 1);
            assert(spec_digits_end(s@, cur as int) == spec_digits_end(s@, cur as int + 1));
        }
        if val > (u64::MAX - d as u64) / 10 {
            proof {
                lemma_dec_val_mono(s@, p as int, cur as int + 1, gend);
                let me = spec_quantifier(s@, gend);
                let v = spec_dec_val(s@, p as int, gend);
                assert(v * me.0 > u64::MAX) by (nonlinear_arith)
                    requires
                        me.0 >= 1,
                        v > u64::MAX,
                ;
            }
            return None;
        }
        val = val * 10 + d as u64;
        cur = cur + 1;
    }
    proof {
        assert(cur as int == gend);
    }
    let mut mult: u64 = 1;
    let mut e2 = cur;
    if cur < n {
        let c = lower(s[cur]);
        if c == 107 {
            mult = 1000;
            e2 = cur + 1;
        } else if c == 109 {
            mult = 1000000;
            e2 = cur + 1;
        } else if c == 103 {
            mult = 1000000000;
            e2 = cur + 1;
        }
    }
    if mult > 1 && val > u64::MAX / mult {
        proof {
            let v = spec_dec_val(s@, p as int, cur as int);
            assert(v * mult > u64::MAX) by (nonlinear_arith)
                requires
                    v == val as int,
                    val > u64::MAX / mult,
                    mult == 1000 || mult == 1000000 || mult == 1000000000,
            ;
        }
        return None;
    }
    proof {
        let v = spec_dec_val(s@, p as int, cur as int);
        assert(v * mult <= u64::MAX && v * mult == (val * mult) as int) by (nonlinear_arith)
            requires
                v == val as int,
                0 <= val <= u64::MAX,
                mult == 1 || (mult >= 2 && val <= u64::MAX / mult),
                mult == 1 || mult == 1000 || mult == 1000000 || mult == 1000000000,
        ;
    }
    let out = val * mult;
    let pend = eat(s, e2);
    Some((out, pend))
}

/// Bytes of `stop`.
pub open spec fn spec_kw_stop() -> Seq<u8> {
    seq![115u8, 116u8, 111u8, 112u8]
}

/// Bytes of `stop`.
pub fn kw_stop() -> (r: Vec<u8>)
    ensures
        r@ == spec_kw_stop(),
{
    let v: Vec<u8> = vec![115u8, 116u8, 111u8, 112u8];
    proof {
        assert(v@ =~= spec_kw_stop());
    }
    v
}

/// Bytes of `keep`.
pub open spec fn spec_kw_keep() -> Seq<u8> {
    seq![107u8, 101u8, 101u8, 112u8]
}

/// Bytes of `keep`.
pub fn kw_keep() -> (r: Vec<u8>)
    ensures
        r@ == spec_kw_keep(),
{
    let v: Vec<u8> = vec![107u8, 101u8, 101u8, 112u8];
    proof {
        assert(v@ =~= spec_kw_keep());
    }
    v
}

/// Bytes of `discard`.
pub open spec fn spec_kw_discard() -> Seq<u8> {
    seq![100u8, 105u8, 115u8, 99u8, 97u8, 114u8, 100u8]
}

/// Bytes of `discard`.
pub fn kw_discard() -> (r: Vec<u8>)
    ensures
        r@ == spec_kw_discard(),
{
    let v: Vec<u8> = vec![100u8, 105u8, 115u8, 99u8, 97u8, 114u8, 100u8];
    proof {
        assert(v@ =~= spec_kw_discard());
    }
    v
}

/// Bytes of `if`.
pub open spec fn spec_kw_if() -> Seq<u8> {
    seq![105u8, 102u8]
}

/// Bytes of `if`.
pub fn kw_if() -> (r: Vec<u8>)
    ensures
        r@ == spec_kw_if(),
{
    let v: Vec<u8> = vec![105u8, 102u8];
    proof {
        assert(v@ =~= spec_kw_if());
    }
    v
}

/// Bytes of `elsif`.
pub open spec fn spec_kw_elsif() -> Seq<u8> {
    seq![101u8, 108u8, 115u8, 105u8, 102u8]
}

/// Bytes of `elsif`.
pub fn kw_elsif() -> (r: Vec<u8>)
    ensures
        r@ == spec_kw_elsif(),
{
    let v: Vec<u8> = vec![101u8, 108u8, 115u8, 105u8, 102u8];
    proof {
        assert(v@ =~= spec_kw_elsif());
    }
    v
}

/// Bytes of `else`.
pub open spec fn spec_kw_else() -> Seq<u8> {
    seq![101u8, 108u8, 115u8, 101u8]
}

/// Bytes of `else`.
pub fn kw_else() -> (r: Vec<u8>)
    ensures
        r@ == spec_kw_else(),
{
    let v: Vec<u8> = vec![101u8, 108u8, 115u8, 101u8];
    proof {
        assert(v@ =~= spec_kw_else());
    }
    v
}

/// Bytes of `header`.
pub open spec fn spec_kw_header() -> Seq<u8> {
    seq![104u8, 101u8, 97u8, 100u8, 101u8, 114u8]
}

/// Bytes of `header`.
pub fn kw_header() -> (r: Vec<u8>)
    ensures
        r@ == spec_kw_header(),
{
    let v: Vec<u8> = vec![104u8, 101u8, 97u8, 100u8, 101u8, 114u8];
    proof {
        assert(v@ =~= spec_kw_header());
    }
    v
}

/// Bytes of `address`.
pub open spec fn spec_kw_address() -> Seq<u8> {
    seq![97u8, 100u8, 100u8, 114u8, 101u8, 115u8, 115u8]
}

/// Bytes of `address`.
pub fn kw_address() -> (r: Vec<u8>)
    ensures
        r@ == spec_kw_address(),
{
    let v: Vec<u8> = vec![97u8, 100u8, 100u8, 114u8, 101u8, 115u8, 115u8];
    proof {
        assert(v@ =~= spec_kw_address());
    }
    v
}

/// Bytes of `exists`.
pub open spec fn spec_kw_exists() -> Seq<u8> {
    seq![101u8, 120u8, 105u8, 115u8, 116u8, 115u8]
}

/// Bytes of `exists`.
pub fn kw_exists() -> (r: Vec<u8>)
    ensures
        r@ == spec_kw_exists(),
{
    let v: Vec<u8> = vec![101u8, 120u8, 105u8, 115u8, 116u8, 115u8];
    proof {
        assert(v@ =~= spec_kw_exists());
    }
    v
}

/// Bytes of `size`.
pub open spec fn spec_kw_size() -> Seq<u8> {
    seq![115u8, 105u8, 122u8, 101u8]
}

/// Bytes of `size`.
pub fn kw_size() -> (r: Vec<u8>)
    ensures
        r@ == spec_kw_size(),
{
    let v: Vec<u8> = vec![115u8, 105u8, 122u8, 101u8];
    proof {
        assert(v@ =~= spec_kw_size());
    }
    v
}

/// Bytes of `not`.
pub open spec fn spec_kw_not() -> Seq<u8> {
    seq![110u8, 111u8, 116u8]
}

/// Bytes of `not`.
pub fn kw_not() -> (r: Vec<u8>)
    ensures
        r@ == spec_kw_not(),
{
    let v: Vec<u8> = vec![110u8, 111u8, 116u8];
    proof {
        assert(v@ =~= spec_kw_not());
    }
    v
}

/// Bytes of `allof`.
pub open spec fn spec_kw_allof() -> Seq<u8> {
    seq![97u8, 108u8, 108u8, 111u8, 102u8]
}

/// Bytes of `allof`.
pub fn kw_allof() -> (r: Vec<u8>)
    ensures
        r@ == spec_kw_allof(),
{
    let v: Vec<u8> = vec![97u8, 108u8, 108u8, 111u8, 102u8];
    proof {
        assert(v@ =~= spec_kw_allof());
    }
    v
}

/// Bytes of `anyof`.
pub open spec fn spec_kw_anyof() -> Seq<u8> {
    seq![97u8, 110u8, 121u8, 111u8, 102u8]
}

/// Bytes of `anyof`.
pub fn kw_anyof() -> (r: Vec<u8>)
    ensures
        r@ == spec_kw_anyof(),
{
    let v: Vec<u8> = vec![97u8, 110u8, 121u8, 111u8, 102u8];
    proof {
        assert(v@ =~= spec_kw_anyof());
    }
    v
}

/// Bytes of `true`.
pub open spec fn spec_kw_true() -> Seq<u8> {
    seq![116u8, 114u8, 117u8, 101u8]
}

/// Bytes of `true`.
pub fn kw_true() -> (r: Vec<u8>)
    ensures
        r@ == spec_kw_true(),
{
    let v: Vec<u8> = vec![116u8, 114u8, 117u8, 101u8];
    proof {
        assert(v@ =~= spec_kw_true());
    }
    v
}

/// Bytes of `false`.
pub open spec fn spec_kw_false() -> Seq<u8> {
    seq![102u8, 97u8, 108u8, 115u8, 101u8]
}

/// Bytes of `false`.
pub fn kw_false() -> (r: Vec<u8>)
    ensures
        r@ == spec_kw_false(),
{
    let v: Vec<u8> = vec![102u8, 97u8, 108u8, 115u8, 101u8];
    proof {
        assert(v@ =~= spec_kw_false());
    }
    v
}

/// Bytes of `:over`.
pub open spec fn spec_kw_over() -> Seq<u8> {
    seq![58u8, 111u8, 118u8, 101u8, 114u8]
}

/// Bytes of `:over`.
pub fn kw_over() -> (r: Vec<u8>)
    ensures
        r@ == spec_kw_over(),
{
    let v: Vec<u8> = vec![58u8, 111u8, 118u8, 101u8, 114u8];
    proof {
        assert(v@ =~= spec_kw_over());
    }
    v
}

/// Bytes of `:under`.
pub open spec fn spec_kw_under() -> Seq<u8> {
    seq![58u8, 117u8, 110u8, 100u8, 101u8, 114u8]
}

/// Bytes of `:under`.
pub fn kw_under() -> (r: Vec<u8>)
    ensures
        r@ == spec_kw_under(),
{
    let v: Vec<u8> = vec![58u8, 117u8, 110u8, 100u8, 101u8, 114u8];
    proof {
        assert(v@ =~= spec_kw_under());
    }
    v
}

/// Bytes of `:comparator`.
pub open spec fn spec_kw_comparator() -> Seq<u8> {
    seq![58u8, 99u8, 111u8, 109u8, 112u8, 97u8, 114u8, 97u8, 116u8, 111u8, 114u8]
}

/// Bytes of `:comparator`.
pub fn kw_comparator() -> (r: Vec<u8>)
    ensures
        r@ == spec_kw_comparator(),
{
    let v: Vec<u8> = vec![58u8, 99u8, 111u8, 109u8, 112u8, 97u8, 114u8, 97u8, 116u8, 111u8, 114u8];
    proof {
        assert(v@ =~= spec_kw_comparator());
    }
    v
}

/// Bytes of `:is`.
pub open spec fn spec_kw_is() -> Seq<u8> {
    seq![58u8, 105u8, 115u8]
}

/// Bytes of `:is`.
pub fn kw_is() -> (r: Vec<u8>)
    ensures
        r@ == spec_kw_is(),
{
    let v: Vec<u8> = vec![58u8, 105u8, 115u8];
    proof {
        assert(v@ =~= spec_kw_is());
    }
    v
}

/// Bytes of `:contains`.
pub open spec fn spec_kw_contains() -> Seq<u8> {
    seq![58u8, 99u8, 111u8, 110u8, 116u8, 97u8, 105u8, 110u8, 115u8]
}

/// Bytes of `:contains`.
pub fn kw_contains() -> (r: Vec<u8>)
    ensures
        r@ == spec_kw_contains(),
{
    let v: Vec<u8> = vec![58u8, 99u8, 111u8, 110u8, 116u8, 97u8, 105u8, 110u8, 115u8];
    proof {
        assert(v@ =~= spec_kw_contains());
    }
    v
}

/// Bytes of `:matches`.
pub open spec fn spec_kw_matches() -> Seq<u8> {
    seq![58u8, 109u8, 97u8, 116u8, 99u8, 104u8, 101u8, 115u8]
}

/// Bytes of `:matches`.
pub fn kw_matches() -> (r: Vec<u8>)
    ensures
        r@ == spec_kw_matches(),
{
    let v: Vec<u8> = vec![58u8, 109u8, 97u8, 116u8, 99u8, 104u8, 101u8, 115u8];
    proof {
        assert(v@ =~= spec_kw_matches());
    }
    v
}

/// Bytes of `:localpart`.
pub open spec fn spec_kw_localpart() -> Seq<u8> {
    seq![58u8, 108u8, 111u8, 99u8, 97u8, 108u8, 112u8, 97u8, 114u8, 116u8]
}

/// Bytes of `:localpart`.
pub fn kw_localpart() -> (r: Vec<u8>)
    ensures
        r@ == spec_kw_localpart(),
{
    let v: Vec<u8> = vec![58u8, 108u8, 111u8, 99u8, 97u8, 108u8, 112u8, 97u8, 114u8, 116u8];
    proof {
        assert(v@ =~= spec_kw_localpart());
    }
    v
}

/// Bytes of `:domain`.
pub open spec fn spec_kw_domain() -> Seq<u8> {
    seq![58u8, 100u8, 111u8, 109u8, 97u8, 105u8, 110u8]
}

/// Bytes of `:domain`.
pub fn kw_domain() -> (r: Vec<u8>)
    ensures
        r@ == spec_kw_domain(),
{
    let v: Vec<u8> = vec![58u8, 100u8, 111u8, 109u8, 97u8, 105u8, 110u8];
    proof {
        assert(v@ =~= spec_kw_domain());
    }
    v
}

/// Bytes of `:all`.
pub open spec fn spec_kw_all() -> Seq<u8> {
    seq![58u8, 97u8, 108u8, 108u8]
}

/// Bytes of `:all`.
pub fn kw_all() -> (r: Vec<u8>)
    ensures
        r@ == spec_kw_all(),
{
    let v: Vec<u8> = vec![58u8, 97u8, 108u8, 108u8];
    proof {
        assert(v@ =~= spec_kw_all());
    }
    v
}

/// Bytes of `i;octet`.
pub open spec fn spec_kw_i_octet() -> Seq<u8> {
    seq![105u8, 59u8, 111u8, 99u8, 116u8, 101u8, 116u8]
}

/// Bytes of `i;octet`.
pub fn kw_i_octet() -> (r: Vec<u8>)
    ensures
        r@ == spec_kw_i_octet(),
{
    let v: Vec<u8> = vec![105u8, 59u8, 111u8, 99u8, 116u8, 101u8, 116u8];
    proof {
        assert(v@ =~= spec_kw_i_octet());
    }
    v
}

/// Bytes of `i;ascii-casemap`.
pub open spec fn spec_kw_i_casemap() -> Seq<u8> {
    seq![105u8, 59u8, 97u8, 115u8, 99u8, 105u8, 105u8, 45u8, 99u8, 97u8, 115u8, 101u8, 109u8, 97u8, 112u8]
}

/// Bytes of `i;ascii-casemap`.
pub fn kw_i_casemap() -> (r: Vec<u8>)
    ensures
        r@ == spec_kw_i_casemap(),
{
    let v: Vec<u8> = vec![105u8, 59u8, 97u8, 115u8, 99u8, 105u8, 105u8, 45u8, 99u8, 97u8, 115u8, 101u8, 109u8, 97u8, 112u8];
    proof {
        assert(v@ =~= spec_kw_i_casemap());
    }
    v
}

/// Bytes of `[`.
pub open spec fn spec_kw_lbracket() -> Seq<u8> {
    seq![91u8]
}

/// Bytes of `[`.
pub fn kw_lbracket() -> (r: Vec<u8>)
    ensures
        r@ == spec_kw_lbracket(),
{
    let v: Vec<u8> = vec![91u8];
    proof {
        assert(v@ =~= spec_kw_lbracket());
    }
    v
}

/// Bytes of `]`.
pub open spec fn spec_kw_rbracket() -> Seq<u8> {
    seq![93u8]
}

/// Bytes of `]`.
pub fn kw_rbracket() -> (r: Vec<u8>)
    ensures
        r@ == spec_kw_rbracket(),
{
    let v: Vec<u8> = vec![93u8];
    proof {
        assert(v@ =~= spec_kw_rbracket());
    }
    v
}

/// Bytes of `(`.
pub open spec fn spec_kw_lparen() -> Seq<u8> {
    seq![40u8]
}

/// Bytes of `(`.
pub fn kw_lparen() -> (r: Vec<u8>)
    ensures
        r@ == spec_kw_lparen(),
{
    let v: Vec<u8> = vec![40u8];
    proof {
        assert(v@ =~= spec_kw_lparen());
    }
    v
}

/// Bytes of `)`.
pub open spec fn spec_kw_rparen() -> Seq<u8> {
    seq![41u8]
}

/// Bytes of `)`.
pub fn kw_rparen() -> (r: Vec<u8>)
    ensures
        r@ == spec_kw_rparen(),
{
    let v: Vec<u8> = vec![41u8];
    proof {
        assert(v@ =~= spec_kw_rparen());
    }
    v
}

/// Bytes of `{`.
pub open spec fn spec_kw_lbrace() -> Seq<u8> {
    seq![123u8]
}

/// Bytes of `{`.
pub fn kw_lbrace() -> (r: Vec<u8>)
    ensures
        r@ == spec_kw_lbrace(),
{
    let v: Vec<u8> = vec![123u8];
    proof {
        assert(v@ =~= spec_kw_lbrace());
    }
    v
}

/// Bytes of `}`.
pub open spec fn spec_kw_rbrace() -> Seq<u8> {
    seq![125u8]
}

/// Bytes of `}`.
pub fn kw_rbrace() -> (r: Vec<u8>)
    ensures
        r@ == spec_kw_rbrace(),
{
    let v: Vec<u8> = vec![125u8];
    proof {
        assert(v@ =~= spec_kw_rbrace());
    }
    v
}

/// Bytes of `,`.
pub open spec fn spec_kw_comma() -> Seq<u8> {
    seq![44u8]
}

/// Bytes of `,`.
pub fn kw_comma() -> (r: Vec<u8>)
    ensures
        r@ == spec_kw_comma(),
{
    let v: Vec<u8> = vec![44u8];
    proof {
        assert(v@ =~= spec_kw_comma());
    }
    v
}

/// Bytes of `;`.
pub open spec fn spec_kw_semicolon() -> Seq<u8> {
    seq![59u8]
}

/// Bytes of `;`.
pub fn kw_semicolon() -> (r: Vec<u8>)
    ensures
        r@ == spec_kw_semicolon(),
{
    let v: Vec<u8> = vec![59u8];
    proof {
        assert(v@ =~= spec_kw_semicolon());
    }
    v
}

} // verus!
