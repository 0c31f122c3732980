//! The canonical writer for sieve scripts: one space between tokens,
//! bracketed string lists, no comments. Re-parsing what it writes gives
//! the same rules back; `lemma_sieve_print_parse` proves that.

use vstd::prelude::*;

use crate::imap::dec_digits;
use crate::imap::spec_dec_digits;
use crate::sieve::spec_addr_perm;
use crate::sieve::spec_address_type;
use crate::sieve::spec_header_perm;
use crate::sieve::spec_comparator;
use crate::sieve::spec_match_type;
use crate::sieve::rel_cond;
use crate::sieve::rel_rule;
use crate::sieve::rel_rules;
use crate::sieve::AddressOperator;
use crate::sieve::CharacterOperator;
use crate::sieve::ConditionRule;
use crate::sieve::IntegerOperator;
use crate::sieve::MatchOperator;
use crate::sieve::Rule;
use crate::sieve::RuleBlock;
use crate::sieve::SpecCondition;
use crate::sieve::SpecRule;

verus! {

/// A string body with `"` and `\` escaped.
pub open spec fn spec_escape(v: Seq<u8>) -> Seq<u8>
    decreases v.len(),
{
    if v.len() == 0 {
        Seq::empty()
    } else if v[0] == 34 || v[0] == 92 {
        seq![92u8, v[0]] + spec_escape(v.subrange(1, v.len() as int))
    } else {
        seq![v[0]] + spec_escape(v.subrange(1, v.len() as int))
    }
}

/// A quoted string.
pub open spec fn spec_print_string(v: Seq<u8>) -> Seq<u8> {
    seq![34u8] + spec_escape(v) + seq![34u8]
}

/// A bracketed string list: `["a", "b"]`.
pub open spec fn spec_print_strings_tail(l: Seq<Seq<u8>>) -> Seq<u8>
    decreases l,
{
    if l.len() == 0 {
        Seq::empty()
    } else {
        seq![44u8, 32u8] + spec_print_string(l[0]) + spec_print_strings_tail(
            l.subrange(1, l.len() as int),
        )
    }
}

pub open spec fn spec_print_strings(l: Seq<Seq<u8>>) -> Seq<u8> {
    if l.len() == 0 {
        seq![91u8, 93u8]
    } else {
        seq![91u8] + spec_print_string(l[0]) + spec_print_strings_tail(
            l.subrange(1, l.len() as int),
        ) + seq![93u8]
    }
}

/// The comparator qualifier with its trailing space, when one is
/// given.
pub open spec fn spec_print_comparator(c: Option<CharacterOperator>) -> Seq<u8> {
    match c {
        None => Seq::empty(),
        Some(CharacterOperator::Octet) => crate::sieve_lex::spec_kw_comparator() + seq![32u8]
            + spec_print_string(crate::sieve_lex::spec_kw_i_octet()) + seq![32u8],
        Some(CharacterOperator::AsciiCasemap) => crate::sieve_lex::spec_kw_comparator() + seq![
            32u8,
        ] + spec_print_string(crate::sieve_lex::spec_kw_i_casemap()) + seq![32u8],
    }
}

/// The match-type qualifier with its trailing space, when one is
/// given; the relational forms have no source syntax and print as
/// nothing.
pub open spec fn spec_print_match(m: Option<MatchOperator>) -> Seq<u8> {
    match m {
        Some(MatchOperator::Is) => crate::sieve_lex::spec_kw_is() + seq![32u8],
        Some(MatchOperator::Contains) => crate::sieve_lex::spec_kw_contains() + seq![32u8],
        Some(MatchOperator::Matches) => crate::sieve_lex::spec_kw_matches() + seq![32u8],
        _ => Seq::empty(),
    }
}

/// The address-part qualifier with its trailing space, when one is
/// given.
pub open spec fn spec_print_addr_part(a: Option<AddressOperator>) -> Seq<u8> {
    match a {
        None => Seq::empty(),
        Some(AddressOperator::Localpart) => crate::sieve_lex::spec_kw_localpart() + seq![32u8],
        Some(AddressOperator::Domain) => crate::sieve_lex::spec_kw_domain() + seq![32u8],
        Some(AddressOperator::All) => crate::sieve_lex::spec_kw_all() + seq![32u8],
    }
}

/// One test in canonical form.
pub open spec fn spec_print_cond(c: SpecCondition) -> Seq<u8>
    decreases c, 1nat,
{
    match c {
        SpecCondition::Literal(b) => if b {
            crate::sieve_lex::spec_kw_true()
        } else {
            crate::sieve_lex::spec_kw_false()
        },
        SpecCondition::Exists(l) => crate::sieve_lex::spec_kw_exists() + seq![32u8]
            + spec_print_strings(l),
        SpecCondition::Size { operator, limit } => crate::sieve_lex::spec_kw_size() + seq![32u8]
            + (if operator is Over {
            crate::sieve_lex::spec_kw_over()
        } else {
            crate::sieve_lex::spec_kw_under()
        }) + seq![32u8] + spec_dec_digits(limit as int),
        SpecCondition::Not(inner) => crate::sieve_lex::spec_kw_not() + seq![32u8] + (if inner.len()
            == 1 {
            spec_print_cond(inner[0])
        } else {
            Seq::empty()
        }),
        SpecCondition::Header { comparator, match_operator, header_names, key_list } => crate::sieve_lex::spec_kw_header()
            + seq![32u8] + spec_print_comparator(comparator) + spec_print_match(match_operator)
            + spec_print_strings(header_names) + seq![32u8] + spec_print_strings(key_list),
        SpecCondition::Address {
            comparator,
            address_part,
            match_type,
            header_list,
            key_list,
        } => crate::sieve_lex::spec_kw_address() + seq![32u8] + spec_print_match(match_type)
            + spec_print_comparator(comparator) + spec_print_addr_part(address_part)
            + spec_print_strings(header_list) + seq![32u8] + spec_print_strings(key_list),
        SpecCondition::AllOf(l) => crate::sieve_lex::spec_kw_allof() + seq![32u8, 40u8]
            + spec_print_cond_list(l) + seq![41u8],
        SpecCondition::AnyOf(l) => crate::sieve_lex::spec_kw_anyof() + seq![32u8, 40u8]
            + spec_print_cond_list(l) + seq![41u8],
    }
}

/// A comma-separated test list body.
pub open spec fn spec_print_cond_list(l: Seq<SpecCondition>) -> Seq<u8>
    decreases l, 2nat,
{
    if l.len() == 0 {
        Seq::empty()
    } else {
        spec_print_cond(l[0]) + spec_print_cond_tail(l.subrange(1, l.len() as int))
    }
}

pub open spec fn spec_print_cond_tail(l: Seq<SpecCondition>) -> Seq<u8>
    decreases l, 3nat,
{
    if l.len() == 0 {
        Seq::empty()
    } else {
        seq![44u8, 32u8] + spec_print_cond(l[0]) + spec_print_cond_tail(
            l.subrange(1, l.len() as int),
        )
    }
}

/// One rule in canonical form. A `Block` has no top-level source
/// syntax and prints as its body's block form.
pub open spec fn spec_print_rule(r: SpecRule) -> Seq<u8>
    decreases r, 1nat,
{
    match r {
        SpecRule::Stop => crate::sieve_lex::spec_kw_stop() + crate::sieve_lex::spec_kw_semicolon(),
        SpecRule::Keep => crate::sieve_lex::spec_kw_keep() + crate::sieve_lex::spec_kw_semicolon(),
        SpecRule::Discard => crate::sieve_lex::spec_kw_discard()
            + crate::sieve_lex::spec_kw_semicolon(),
        SpecRule::Block(rs) => spec_print_block(rs),
        SpecRule::If { condition, elsif, else_ } => crate::sieve_lex::spec_kw_if() + seq![32u8]
            + spec_print_cond(condition.0) + seq![32u8] + spec_print_block(condition.1) + (match elsif {
            None => Seq::empty(),
            Some(e) => seq![32u8] + crate::sieve_lex::spec_kw_elsif() + seq![32u8]
                + spec_print_cond(e.0) + seq![32u8] + spec_print_block(e.1),
        }) + (match else_ {
            None => Seq::empty(),
            Some(b) => seq![32u8] + crate::sieve_lex::spec_kw_else() + seq![32u8]
                + spec_print_block(b),
        }),
    }
}

/// A block in canonical form: `{ rule rule }`.
pub open spec fn spec_print_block(rs: Seq<SpecRule>) -> Seq<u8>
    decreases rs, 4nat,
{
    seq![123u8, 32u8] + spec_print_rules(rs) + seq![125u8]
}

/// A rule list in canonical form: every rule followed by one space.
pub open spec fn spec_print_rules(rs: Seq<SpecRule>) -> Seq<u8>
    decreases rs, 3nat,
{
    if rs.len() == 0 {
        Seq::empty()
    } else {
        spec_print_rule(rs[0]) + seq![32u8] + spec_print_rules(rs.subrange(1, rs.len() as int))
    }
}

/// A byte that neither is whitespace nor can open a comment: trivia
/// skipping stops right there.
pub open spec fn halts_eat(s: Seq<u8>, p: int) -> bool {
    p == s.len() || (0 <= p < s.len() && !crate::sieve_lex::is_ws(s[p]) && s[p] != 35 && !(s[p]
        == 47 && p + 1 < s.len() && s[p + 1] == 42))
}

/// Trivia skipping is the identity where `halts_eat` holds.
pub proof fn lemma_eat_halt(s: Seq<u8>, p: int)
    requires
        halts_eat(s, p),
    ensures
        crate::sieve_lex::spec_eat(s, p) == p,
{
    assert(crate::sieve_lex::spec_skip_ws(s, p) == p);
    assert(crate::sieve_lex::spec_eat_step(s, p) == p);
}

/// Trivia skipping consumes one space and halts after it.
pub proof fn lemma_eat_space(s: Seq<u8>, p: int)
    requires
        0 <= p < s.len(),
        s[p] == 32,
        halts_eat(s, p + 1),
    ensures
        crate::sieve_lex::spec_eat(s, p) == p + 1,
{
    assert(crate::sieve_lex::spec_skip_ws(s, p + 1) == p + 1);
    assert(crate::sieve_lex::spec_skip_ws(s, p) == p + 1);
    assert(crate::sieve_lex::spec_eat_step(s, p) == p + 1);
    assert(crate::sieve_lex::spec_eat_step(s, p + 1) == p + 1);
    assert(crate::sieve_lex::spec_eat(s, p + 1) == p + 1);
}

/// Trivia skipping from `p`: one space or nothing, then it halts.
pub open spec fn sep_at(s: Seq<u8>, p: int) -> bool {
    halts_eat(s, p) || (0 <= p < s.len() && s[p] == 32 && halts_eat(s, p + 1))
}

/// The position trivia skipping reaches from a separator.
pub open spec fn sep_end(s: Seq<u8>, p: int) -> int {
    if halts_eat(s, p) {
        p
    } else {
        p + 1
    }
}

pub proof fn lemma_eat_sep(s: Seq<u8>, p: int)
    requires
        sep_at(s, p),
    ensures
        crate::sieve_lex::spec_eat(s, p) == sep_end(s, p),
        halts_eat(s, sep_end(s, p)),
{
    if halts_eat(s, p) {
        lemma_eat_halt(s, p);
    } else {
        lemma_eat_space(s, p);
    }
}

/// A literal of lowercase letters, digits and punctuation out of the
/// grammar's token alphabet: case-insensitive matching against it is
/// plain matching.
pub open spec fn tok_lit(lit: Seq<u8>) -> bool {
    forall|k: int| 0 <= k < lit.len() ==> crate::sieve_lex::spec_lower(#[trigger] lit[k]) == lit[k]
}

/// A token parse succeeds exactly on its literal: the text carries the
/// literal at `p`, and a separator follows.
pub proof fn lemma_token_hit(s: Seq<u8>, p: int, lit: Seq<u8>)
    requires
        halts_eat(s, p),
        tok_lit(lit),
        0 <= p,
        p + lit.len() <= s.len(),
        s.subrange(p, p + lit.len()) == lit,
        sep_at(s, p + lit.len()),
    ensures
        crate::sieve_lex::spec_token(s, p, lit) == Some(sep_end(s, p + lit.len())),
        halts_eat(s, sep_end(s, p + lit.len())),
{
    lemma_eat_halt(s, p);
    assert forall|k: int| 0 <= k < lit.len() implies crate::sieve_lex::spec_lower(s[p + k])
        == crate::sieve_lex::spec_lower(#[trigger] lit[k]) by {
        assert(s.subrange(p, p + lit.len())[k] == lit[k]);
    }
    assert(crate::sieve_lex::spec_match_ci(s, p, lit));
    lemma_eat_sep(s, p + lit.len());
}

/// A token parse fails where the text differs from the literal at some
/// position, even case-insensitively.
pub proof fn lemma_token_miss(s: Seq<u8>, p: int, lit: Seq<u8>, at: int)
    requires
        halts_eat(s, p),
        0 <= at < lit.len(),
        p + at < s.len() ==> crate::sieve_lex::spec_lower(s[p + at]) != crate::sieve_lex::spec_lower(
            lit[at],
        ),
    ensures
        crate::sieve_lex::spec_token(s, p, lit) is None,
{
    lemma_eat_halt(s, p);
    if p + lit.len() <= s.len() {
        assert(!crate::sieve_lex::spec_match_ci(s, p, lit));
    } else {
        assert(!crate::sieve_lex::spec_match_ci(s, p, lit));
    }
}

/// The printed fragment `lit` stands verbatim at `p`.
pub open spec fn lit_at(s: Seq<u8>, p: int, lit: Seq<u8>) -> bool {
    0 <= p && p + lit.len() <= s.len() && s.subrange(p, p + lit.len()) == lit
}

/// Splitting a fragment hypothesis at a concatenation.
pub proof fn lemma_lit_at_split(s: Seq<u8>, p: int, a: Seq<u8>, b: Seq<u8>)
    requires
        lit_at(s, p, a + b),
    ensures
        lit_at(s, p, a),
        lit_at(s, p + a.len(), b),
{
    assert(s.subrange(p, p + a.len()) =~= a) by {
        assert(forall|k: int|
            0 <= k < a.len() ==> s.subrange(p, p + (a + b).len())[k] == (a + b)[k]);
    }
    assert forall|k: int| 0 <= k < b.len() implies s.subrange(
        p + a.len(),
        p + a.len() + b.len(),
    )[k] == b[k] by {
        assert(s.subrange(p + a.len(), p + a.len() + b.len())[k] == s[p + a.len() + k]);
        assert(s[p + a.len() + k] == s.subrange(p, p + (a + b).len())[a.len() + k]);
        assert((a + b)[a.len() + k] == b[k]);
    }
    assert(s.subrange(p + a.len(), p + a.len() + b.len()) =~= b);
}

/// Bytes of a fragment are read off the text.
pub proof fn lemma_lit_at_index(s: Seq<u8>, p: int, lit: Seq<u8>, k: int)
    requires
        lit_at(s, p, lit),
        0 <= k < lit.len(),
    ensures
        s[p + k] == lit[k],
{
    assert(s.subrange(p, p + lit.len())[k] == lit[k]);
}

/// A string the writer can carry: no NUL, and carriage return and
/// line feed only as a CRLF pair.
pub open spec fn wf_string(v: Seq<u8>) -> bool {
    forall|i: int|
        0 <= i < v.len() ==> (#[trigger] v[i]) != 0 && (v[i] == 13 ==> i + 1 < v.len() && v[i + 1]
            == 10) && (v[i] == 10 ==> i > 0 && v[i - 1] == 13)
}

/// An escaped, closed string body re-parses to the body.
pub proof fn lemma_quoted_rt(s: Seq<u8>, p: int, v: Seq<u8>)
    requires
        wf_string(v),
        lit_at(s, p, spec_escape(v) + seq![34u8]),
    ensures
        crate::sieve_lex::spec_quoted_text(s, p) == Some((v, p + spec_escape(v).len())),
    decreases v.len(),
{
    if v.len() == 0 {
        assert(spec_escape(v) =~= Seq::<u8>::empty());
        lemma_lit_at_index(s, p, spec_escape(v) + seq![34u8], 0);
        assert(s[p] == 34);
    } else {
        let tail = v.subrange(1, v.len() as int);
        assert(v[0] != 0 && (v[0] == 10 ==> false));
        if v[0] == 34 || v[0] == 92 {
            assert(spec_escape(v) == seq![92u8, v[0]] + spec_escape(tail));
            assert(spec_escape(v) + seq![34u8] =~= seq![92u8, v[0]] + (spec_escape(tail) + seq![
                34u8,
            ]));
            lemma_lit_at_split(s, p, seq![92u8, v[0]], spec_escape(tail) + seq![34u8]);
            lemma_lit_at_index(s, p, seq![92u8, v[0]], 0);
            lemma_lit_at_index(s, p, seq![92u8, v[0]], 1);
            assert(wf_string(tail)) by {
                assert(forall|i: int| 0 <= i < tail.len() ==> tail[i] == #[trigger] v[i + 1]);
            }
            lemma_quoted_rt(s, p + 2, tail);
            assert(seq![v[0]] + tail =~= v);
        } else if v[0] == 13 {
            assert(v[1] == 10);
            let tail2 = v.subrange(2, v.len() as int);
            assert(spec_escape(v) == seq![13u8] + spec_escape(v.subrange(1, v.len() as int)));
            assert(v.subrange(1, v.len() as int)[0] == 10);
            assert(spec_escape(v.subrange(1, v.len() as int)) == seq![10u8] + spec_escape(
                v.subrange(1, v.len() as int).subrange(
                    1,
                    v.subrange(1, v.len() as int).len() as int,
                ),
            ));
            assert(v.subrange(1, v.len() as int).subrange(
                1,
                v.subrange(1, v.len() as int).len() as int,
            ) =~= tail2);
            assert(spec_escape(v) + seq![34u8] =~= seq![13u8, 10u8] + (spec_escape(tail2) + seq![
                34u8,
            ]));
            lemma_lit_at_split(s, p, seq![13u8, 10u8], spec_escape(tail2) + seq![34u8]);
            lemma_lit_at_index(s, p, seq![13u8, 10u8], 0);
            lemma_lit_at_index(s, p, seq![13u8, 10u8], 1);
            assert(wf_string(tail2)) by {
                assert(forall|i: int| 0 <= i < tail2.len() ==> tail2[i] == #[trigger] v[i + 2]);
            }
            lemma_quoted_rt(s, p + 2, tail2);
            assert(seq![13u8, 10u8] + tail2 =~= v);
        } else {
            assert(spec_escape(v) == seq![v[0]] + spec_escape(tail));
            assert(spec_escape(v) + seq![34u8] =~= seq![v[0]] + (spec_escape(tail) + seq![34u8]));
            lemma_lit_at_split(s, p, seq![v[0]], spec_escape(tail) + seq![34u8]);
            lemma_lit_at_index(s, p, seq![v[0]], 0);
            assert(s[p] == v[0]);
            assert(wf_string(tail)) by {
                assert(forall|i: int| 0 <= i < tail.len() ==> tail[i] == #[trigger] v[i + 1]);
            }
            lemma_quoted_rt(s, p + 1, tail);
            assert(seq![v[0]] + tail =~= v);
        }
    }
}

/// A printed string re-parses to its body.
pub proof fn lemma_string_rt(s: Seq<u8>, p: int, v: Seq<u8>)
    requires
        wf_string(v),
        lit_at(s, p, spec_print_string(v)),
        sep_at(s, p + spec_print_string(v).len()),
    ensures
        ({
            let e = sep_end(s, p + spec_print_string(v).len());
            &&& crate::sieve_lex::spec_string(s, p) == Some((v, e))
            &&& halts_eat(s, e)
            &&& p < e <= s.len()
        }),
{
    let pr = spec_print_string(v);
    lemma_lit_at_index(s, p, pr, 0);
    assert(s[p] == 34);
    lemma_eat_halt(s, p);
    assert(pr =~= seq![34u8] + (spec_escape(v) + seq![34u8]));
    lemma_lit_at_split(s, p, seq![34u8], spec_escape(v) + seq![34u8]);
    lemma_quoted_rt(s, p + 1, v);
    let q = p + 1 + spec_escape(v).len();
    lemma_lit_at_index(s, p + 1, spec_escape(v) + seq![34u8], spec_escape(v).len() as int);
    assert(s[q] == 34);
    lemma_eat_sep(s, q + 1);
}

/// No digit and no size quantifier letter stands at `q`: a number
/// parse stops there.
pub open spec fn after_number_ok(s: Seq<u8>, q: int) -> bool {
    q == s.len() || (0 <= q < s.len() && !crate::sieve_lex::is_digit(s[q])
        && crate::sieve_lex::spec_lower(s[q]) != 107 && crate::sieve_lex::spec_lower(s[q]) != 109
        && crate::sieve_lex::spec_lower(s[q]) != 103)
}

/// Decimal renderings are nonempty strings of digits.
pub proof fn lemma_dec_digits_digits(n: int)
    requires
        n >= 0,
    ensures
        spec_dec_digits(n).len() >= 1,
        forall|k: int|
            0 <= k < spec_dec_digits(n).len() ==> crate::sieve_lex::is_digit(
                #[trigger] spec_dec_digits(n)[k],
            ),
    decreases n,
{
    if n >= 10 {
        lemma_dec_digits_digits(n / 10);
        assert(forall|k: int|
            0 <= k < spec_dec_digits(n / 10).len() ==> spec_dec_digits(n)[k]
                == #[trigger] spec_dec_digits(n / 10)[k]);
    }
}

/// The digit run of a printed number ends exactly at its end.
pub proof fn lemma_digits_end_lit(s: Seq<u8>, p: int, d: Seq<u8>)
    requires
        lit_at(s, p, d),
        forall|k: int| 0 <= k < d.len() ==> crate::sieve_lex::is_digit(#[trigger] d[k]),
        p + d.len() == s.len() || !crate::sieve_lex::is_digit(s[p + d.len()]),
    ensures
        crate::sieve_lex::spec_digits_end(s, p) == p + d.len(),
    decreases d.len(),
{
    if d.len() == 0 {
    } else {
        lemma_lit_at_index(s, p, d, 0);
        assert(d =~= seq![d[0]] + d.subrange(1, d.len() as int));
        lemma_lit_at_split(s, p, seq![d[0]], d.subrange(1, d.len() as int));
        assert(forall|k: int|
            0 <= k < d.len() - 1 ==> crate::sieve_lex::is_digit(
                #[trigger] d.subrange(1, d.len() as int)[k],
            ));
        lemma_digits_end_lit(s, p + 1, d.subrange(1, d.len() as int));
    }
}

/// Re-reading a decimal rendering gives the number back.
pub proof fn lemma_dec_val_inverse(s: Seq<u8>, p: int, n: int)
    requires
        0 <= n,
        lit_at(s, p, spec_dec_digits(n)),
    ensures
        crate::sieve_lex::spec_dec_val(s, p, p + spec_dec_digits(n).len()) == n,
    decreases n,
{
    let d = spec_dec_digits(n);
    if n < 10 {
        lemma_lit_at_index(s, p, d, 0);
        assert(crate::sieve_lex::spec_dec_val(s, p, p + 1) == crate::sieve_lex::spec_dec_val(
            s,
            p,
            p,
        ) * 10 + (s[p] - 48));
    } else {
        let dh = spec_dec_digits(n / 10);
        assert(d == dh + seq![(48 + n % 10) as u8]);
        lemma_lit_at_split(s, p, dh, seq![(48 + n % 10) as u8]);
        lemma_dec_val_inverse(s, p, n / 10);
        lemma_lit_at_index(s, p + dh.len(), seq![(48 + n % 10) as u8], 0);
        assert(s[p + d.len() - 1] == (48 + n % 10) as u8);
        assert(crate::sieve_lex::spec_dec_val(s, p, p + d.len()) == crate::sieve_lex::spec_dec_val(
            s,
            p,
            p + d.len() - 1,
        ) * 10 + (s[p + d.len() - 1] - 48));
    }
}

/// A printed number re-parses to its value.
pub proof fn lemma_number_rt(s: Seq<u8>, p: int, n: u64)
    requires
        lit_at(s, p, spec_dec_digits(n as int)),
        after_number_ok(s, p + spec_dec_digits(n as int).len()),
        sep_at(s, p + spec_dec_digits(n as int).len()),
    ensures
        ({
            let e = sep_end(s, p + spec_dec_digits(n as int).len());
            &&& crate::sieve_lex::spec_number(s, p) == Some((n, e))
            &&& halts_eat(s, e)
        }),
{
    let d = spec_dec_digits(n as int);
    lemma_dec_digits_digits(n as int);
    lemma_lit_at_index(s, p, d, 0);
    lemma_eat_halt(s, p);
    lemma_digits_end_lit(s, p, d);
    lemma_dec_val_inverse(s, p, n as int);
    let e0 = p + d.len();
    assert(crate::sieve_lex::spec_quantifier(s, e0) == (1int, e0));
    lemma_eat_sep(s, e0);
}

/// A printed `:comparator` qualifier re-parses to its operator.
pub proof fn lemma_comparator_rt(s: Seq<u8>, p: int, op: CharacterOperator)
    requires
        ({
            let name = if op is Octet {
                crate::sieve_lex::spec_kw_i_octet()
            } else {
                crate::sieve_lex::spec_kw_i_casemap()
            };
            let frag = crate::sieve_lex::spec_kw_comparator() + seq![32u8] + spec_print_string(
                name,
            );
            &&& lit_at(s, p, frag)
            &&& sep_at(s, p + frag.len())
        }),
    ensures
        ({
            let name = if op is Octet {
                crate::sieve_lex::spec_kw_i_octet()
            } else {
                crate::sieve_lex::spec_kw_i_casemap()
            };
            let frag = crate::sieve_lex::spec_kw_comparator() + seq![32u8] + spec_print_string(
                name,
            );
            let e = sep_end(s, p + frag.len());
            &&& spec_comparator(s, p) == Some((op, e))
            &&& halts_eat(s, e)
        }),
{
    let kw = crate::sieve_lex::spec_kw_comparator();
    let name = if op is Octet {
        crate::sieve_lex::spec_kw_i_octet()
    } else {
        crate::sieve_lex::spec_kw_i_casemap()
    };
    let frag = kw + seq![32u8] + spec_print_string(name);
    assert(frag =~= kw + (seq![32u8] + spec_print_string(name)));
    lemma_lit_at_split(s, p, kw, seq![32u8] + spec_print_string(name));
    lemma_lit_at_split(s, p + kw.len(), seq![32u8], spec_print_string(name));
    lemma_lit_at_index(s, p, kw, 0);
    lemma_eat_halt(s, p);
    lemma_lit_at_index(s, p + kw.len(), seq![32u8], 0);
    lemma_lit_at_index(s, p + kw.len() + 1, spec_print_string(name), 0);
    assert(tok_lit(kw));
    lemma_token_hit(s, p, kw);
    let q = p + kw.len() + 1;
    assert(sep_end(s, p + kw.len()) == q);
    assert(wf_string(name));
    lemma_string_rt(s, q, name);
    assert(name != crate::sieve_lex::spec_kw_i_octet() || op is Octet);
    if !(op is Octet) {
        assert(crate::sieve_lex::spec_kw_i_casemap() != crate::sieve_lex::spec_kw_i_octet()) by {
            assert(crate::sieve_lex::spec_kw_i_casemap().len() == 15);
            assert(crate::sieve_lex::spec_kw_i_octet().len() == 7);
        }
    }
}

/// A printed match-type qualifier re-parses to its operator.
pub proof fn lemma_match_type_rt(s: Seq<u8>, p: int, m: MatchOperator)
    requires
        m is Is || m is Contains || m is Matches,
        ({
            let kw = spec_match_kw(m);
            lit_at(s, p, kw) && sep_at(s, p + kw.len())
        }),
    ensures
        ({
            let kw = spec_match_kw(m);
            let e = sep_end(s, p + kw.len());
            &&& spec_match_type(s, p) == Some((m, e))
            &&& halts_eat(s, e)
        }),
{
    let kw = spec_match_kw(m);
    lemma_lit_at_index(s, p, kw, 0);
    lemma_eat_halt(s, p);
    if m is Is {
        lemma_token_hit(s, p, crate::sieve_lex::spec_kw_is());
    } else if m is Contains {
        lemma_lit_at_index(s, p, kw, 1);
        lemma_token_miss(s, p, crate::sieve_lex::spec_kw_is(), 1);
        lemma_token_hit(s, p, crate::sieve_lex::spec_kw_contains());
    } else {
        lemma_lit_at_index(s, p, kw, 1);
        lemma_token_miss(s, p, crate::sieve_lex::spec_kw_is(), 1);
        lemma_lit_at_index(s, p, kw, 2);
        lemma_token_miss(s, p, crate::sieve_lex::spec_kw_contains(), 2);
        lemma_token_hit(s, p, crate::sieve_lex::spec_kw_matches());
    }
}

/// The keyword a match type prints as.
pub open spec fn spec_match_kw(m: MatchOperator) -> Seq<u8> {
    match m {
        MatchOperator::Is => crate::sieve_lex::spec_kw_is(),
        MatchOperator::Contains => crate::sieve_lex::spec_kw_contains(),
        MatchOperator::Matches => crate::sieve_lex::spec_kw_matches(),
        _ => Seq::empty(),
    }
}

/// The keyword an address part prints as.
pub open spec fn spec_addr_kw(a: AddressOperator) -> Seq<u8> {
    match a {
        AddressOperator::Localpart => crate::sieve_lex::spec_kw_localpart(),
        AddressOperator::Domain => crate::sieve_lex::spec_kw_domain(),
        AddressOperator::All => crate::sieve_lex::spec_kw_all(),
    }
}

/// A printed address-part qualifier re-parses to its operator.
pub proof fn lemma_addr_type_rt(s: Seq<u8>, p: int, a: AddressOperator)
    requires
        ({
            let kw = spec_addr_kw(a);
            lit_at(s, p, kw) && sep_at(s, p + kw.len())
        }),
    ensures
        ({
            let kw = spec_addr_kw(a);
            let e = sep_end(s, p + kw.len());
            &&& spec_address_type(s, p) == Some((a, e))
            &&& halts_eat(s, e)
        }),
{
    let kw = spec_addr_kw(a);
    lemma_lit_at_index(s, p, kw, 0);
    lemma_eat_halt(s, p);
    if a is Localpart {
        lemma_token_hit(s, p, crate::sieve_lex::spec_kw_localpart());
    } else if a is Domain {
        lemma_lit_at_index(s, p, kw, 1);
        lemma_token_miss(s, p, crate::sieve_lex::spec_kw_localpart(), 1);
        lemma_token_hit(s, p, crate::sieve_lex::spec_kw_domain());
    } else {
        lemma_lit_at_index(s, p, kw, 1);
        lemma_token_miss(s, p, crate::sieve_lex::spec_kw_localpart(), 1);
        lemma_lit_at_index(s, p, kw, 2);
        lemma_token_miss(s, p, crate::sieve_lex::spec_kw_domain(), 2);
        lemma_token_hit(s, p, crate::sieve_lex::spec_kw_all());
    }
}

/// Every string in a list is one the writer can carry.
pub open spec fn wf_strings(l: Seq<Seq<u8>>) -> bool {
    forall|i: int| 0 <= i < l.len() ==> wf_string(#[trigger] l[i])
}

/// No match-type qualifier starts where no colon stands.
pub proof fn lemma_match_type_none(s: Seq<u8>, p: int)
    requires
        halts_eat(s, p),
        p == s.len() || (0 <= p < s.len() && s[p] != 58),
    ensures
        spec_match_type(s, p) is None,
{
    lemma_token_miss(s, p, crate::sieve_lex::spec_kw_is(), 0);
    lemma_token_miss(s, p, crate::sieve_lex::spec_kw_contains(), 0);
    lemma_token_miss(s, p, crate::sieve_lex::spec_kw_matches(), 0);
}

/// No comparator qualifier starts where no colon stands.
pub proof fn lemma_comparator_none(s: Seq<u8>, p: int)
    requires
        halts_eat(s, p),
        p == s.len() || (0 <= p < s.len() && s[p] != 58),
    ensures
        spec_comparator(s, p) is None,
{
    lemma_token_miss(s, p, crate::sieve_lex::spec_kw_comparator(), 0);
}

/// No address-part qualifier starts where no colon stands.
pub proof fn lemma_addr_type_none(s: Seq<u8>, p: int)
    requires
        halts_eat(s, p),
        p == s.len() || (0 <= p < s.len() && s[p] != 58),
    ensures
        spec_address_type(s, p) is None,
{
    lemma_token_miss(s, p, crate::sieve_lex::spec_kw_localpart(), 0);
    lemma_token_miss(s, p, crate::sieve_lex::spec_kw_domain(), 0);
    lemma_token_miss(s, p, crate::sieve_lex::spec_kw_all(), 0);
}

/// A printed string-list tail re-parses to its items; a closing
/// bracket follows it.
pub proof fn lemma_strings_tail_rt(s: Seq<u8>, p: int, l: Seq<Seq<u8>>)
    requires
        wf_strings(l),
        lit_at(s, p, spec_print_strings_tail(l)),
        p + spec_print_strings_tail(l).len() < s.len(),
        s[p + spec_print_strings_tail(l).len()] == 93,
    ensures
        crate::sieve::spec_string_items_more(s, p) == Some(
            (l, p + spec_print_strings_tail(l).len()),
        ),
        halts_eat(s, p + spec_print_strings_tail(l).len()),
    decreases l.len(),
{
    let pr = spec_print_strings_tail(l);
    if l.len() == 0 {
        assert(pr =~= Seq::<u8>::empty());
        lemma_token_miss(s, p, crate::sieve_lex::spec_kw_comma(), 0);
    } else {
        let tail = l.subrange(1, l.len() as int);
        let ps0 = spec_print_string(l[0]);
        assert(pr =~= seq![44u8, 32u8] + (ps0 + spec_print_strings_tail(tail)));
        lemma_lit_at_split(s, p, seq![44u8, 32u8], ps0 + spec_print_strings_tail(tail));
        lemma_lit_at_split(s, p + 2, ps0, spec_print_strings_tail(tail));
        lemma_lit_at_index(s, p, seq![44u8, 32u8], 0);
        lemma_lit_at_index(s, p, seq![44u8, 32u8], 1);
        lemma_lit_at_index(s, p + 2, ps0, 0);
        lemma_eat_halt(s, p);
        assert(seq![44u8] =~= crate::sieve_lex::spec_kw_comma());
        assert(pr =~= seq![44u8] + (seq![32u8] + ps0 + spec_print_strings_tail(tail)));
        lemma_lit_at_split(s, p, seq![44u8], seq![32u8] + ps0 + spec_print_strings_tail(tail));
        lemma_token_hit(s, p, crate::sieve_lex::spec_kw_comma());
        assert(sep_end(s, p + 1) == p + 2);
        let q = p + 2;
        // the byte after the string is a comma or the closing bracket
        let e0 = q + ps0.len();
        if tail.len() == 0 {
            assert(spec_print_strings_tail(tail) =~= Seq::<u8>::empty());
            assert(s[e0] == 93);
        } else {
            lemma_lit_at_index(s, e0, spec_print_strings_tail(tail), 0);
            assert(s[e0] == 44);
        }
        assert(wf_string(l[0]));
        lemma_string_rt(s, q, l[0]);
        assert(sep_end(s, e0) == e0);
        assert(wf_strings(tail)) by {
            assert(forall|i: int| 0 <= i < tail.len() ==> tail[i] == #[trigger] l[i + 1]);
        }
        lemma_strings_tail_rt(s, e0, tail);
        assert(seq![l[0]] + tail =~= l);
    }
}

/// A printed string list re-parses to its items.
pub proof fn lemma_strings_rt(s: Seq<u8>, p: int, l: Seq<Seq<u8>>)
    requires
        wf_strings(l),
        lit_at(s, p, spec_print_strings(l)),
        sep_at(s, p + spec_print_strings(l).len()),
    ensures
        ({
            let e = sep_end(s, p + spec_print_strings(l).len());
            &&& crate::sieve::spec_string_list(s, p) == Some((l, e))
            &&& halts_eat(s, e)
            &&& p < e <= s.len()
        }),
{
    let pr = spec_print_strings(l);
    lemma_lit_at_index(s, p, pr, 0);
    assert(s[p] == 91);
    lemma_eat_halt(s, p);
    assert(seq![91u8] =~= crate::sieve_lex::spec_kw_lbracket());
    if l.len() == 0 {
        assert(pr =~= seq![91u8] + seq![93u8]);
        lemma_lit_at_split(s, p, seq![91u8], seq![93u8]);
        lemma_lit_at_index(s, p + 1, seq![93u8], 0);
        assert(s[p + 1] == 93);
        lemma_token_hit(s, p, crate::sieve_lex::spec_kw_lbracket());
        assert(sep_end(s, p + 1) == p + 1);
        // no string starts at the closing bracket
        lemma_eat_halt(s, p + 1);
        assert(crate::sieve_lex::spec_string(s, p + 1) is None);
        assert(crate::sieve::spec_string_items(s, p + 1) == Some(
            (Seq::<Seq<u8>>::empty(), p + 1),
        ));
        assert(seq![93u8] =~= crate::sieve_lex::spec_kw_rbracket());
        lemma_token_hit(s, p + 1, crate::sieve_lex::spec_kw_rbracket());
    } else {
        let ps0 = spec_print_string(l[0]);
        let tail = l.subrange(1, l.len() as int);
        let tl = spec_print_strings_tail(tail);
        assert(pr =~= seq![91u8] + (ps0 + tl + seq![93u8]));
        lemma_lit_at_split(s, p, seq![91u8], ps0 + tl + seq![93u8]);
        assert(ps0 + tl + seq![93u8] =~= ps0 + (tl + seq![93u8]));
        lemma_lit_at_split(s, p + 1, ps0, tl + seq![93u8]);
        lemma_lit_at_split(s, p + 1 + ps0.len(), tl, seq![93u8]);
        lemma_lit_at_index(s, p + 1, ps0, 0);
        lemma_token_hit(s, p, crate::sieve_lex::spec_kw_lbracket());
        assert(sep_end(s, p + 1) == p + 1);
        let e0 = p + 1 + ps0.len();
        let eb = e0 + tl.len();
        lemma_lit_at_index(s, eb, seq![93u8], 0);
        assert(s[eb] == 93);
        if tail.len() == 0 {
            assert(tl =~= Seq::<u8>::empty());
            assert(s[e0] == 93);
        } else {
            lemma_lit_at_index(s, e0, tl, 0);
            assert(s[e0] == 44);
        }
        assert(wf_string(l[0]));
        lemma_string_rt(s, p + 1, l[0]);
        assert(sep_end(s, e0) == e0);
        assert(wf_strings(tail)) by {
            assert(forall|i: int| 0 <= i < tail.len() ==> tail[i] == #[trigger] l[i + 1]);
        }
        lemma_strings_tail_rt(s, e0, tail);
        assert(seq![l[0]] + tail =~= l);
        assert(crate::sieve::spec_string_items(s, p + 1) == Some((l, eb)));
        assert(seq![93u8] =~= crate::sieve_lex::spec_kw_rbracket());
        lemma_token_hit(s, eb, crate::sieve_lex::spec_kw_rbracket());
    }
}

/// Only `Is`, `Contains` and `Matches` have source syntax.
pub open spec fn wf_match(m: Option<MatchOperator>) -> bool {
    match m {
        Some(MatchOperator::Count(_)) => false,
        Some(MatchOperator::Value(_)) => false,
        _ => true,
    }
}

/// Where the text spells `:comparator`, no match type parses.
proof fn lemma_match_none_at_comp(s: Seq<u8>, p: int)
    requires
        halts_eat(s, p),
        lit_at(s, p, crate::sieve_lex::spec_kw_comparator()),
    ensures
        spec_match_type(s, p) is None,
{
    let kw = crate::sieve_lex::spec_kw_comparator();
    lemma_lit_at_index(s, p, kw, 1);
    lemma_lit_at_index(s, p, kw, 3);
    lemma_token_miss(s, p, crate::sieve_lex::spec_kw_is(), 1);
    lemma_token_miss(s, p, crate::sieve_lex::spec_kw_contains(), 3);
    lemma_token_miss(s, p, crate::sieve_lex::spec_kw_matches(), 1);
}

/// Where the text spells an address part, neither a match type nor a
/// comparator parses.
proof fn lemma_quals_none_at_addr(s: Seq<u8>, p: int, a: AddressOperator)
    requires
        halts_eat(s, p),
        lit_at(s, p, spec_addr_kw(a)),
    ensures
        spec_match_type(s, p) is None,
        spec_comparator(s, p) is None,
{
    let kw = spec_addr_kw(a);
    lemma_lit_at_index(s, p, kw, 1);
    lemma_token_miss(s, p, crate::sieve_lex::spec_kw_is(), 1);
    lemma_token_miss(s, p, crate::sieve_lex::spec_kw_contains(), 1);
    lemma_token_miss(s, p, crate::sieve_lex::spec_kw_matches(), 1);
    lemma_token_miss(s, p, crate::sieve_lex::spec_kw_comparator(), 1);
}

/// Where the text spells a match type, no comparator parses.
proof fn lemma_comparator_none_at_match(s: Seq<u8>, p: int, m: MatchOperator)
    requires
        m is Is || m is Contains || m is Matches,
        halts_eat(s, p),
        lit_at(s, p, spec_match_kw(m)),
    ensures
        spec_comparator(s, p) is None,
{
    let kw = spec_match_kw(m);
    if m is Contains {
        lemma_lit_at_index(s, p, kw, 3);
        lemma_token_miss(s, p, crate::sieve_lex::spec_kw_comparator(), 3);
    } else {
        lemma_lit_at_index(s, p, kw, 1);
        lemma_token_miss(s, p, crate::sieve_lex::spec_kw_comparator(), 1);
    }
}

/// The printed `header` qualifiers re-parse to the same two options.
pub proof fn lemma_header_quals_rt(
    s: Seq<u8>,
    p: int,
    c: Option<CharacterOperator>,
    m: Option<MatchOperator>,
)
    requires
        wf_match(m),
        halts_eat(s, p),
        lit_at(s, p, spec_print_comparator(c) + spec_print_match(m)),
        ({
            let e = p + spec_print_comparator(c).len() + spec_print_match(m).len();
            e < s.len() && (s[e] == 91 || s[e] == 34)
        }),
    ensures
        ({
            let e = p + spec_print_comparator(c).len() + spec_print_match(m).len();
            spec_header_perm(s, p, None, None) == ((c, m), e)
        }),
{
    let qc = spec_print_comparator(c);
    let qm = spec_print_match(m);
    let e = p + qc.len() + qm.len();
    lemma_lit_at_split(s, p, qc, qm);
    let e1 = p + qc.len();
    // the comparator fragment, or nothing
    match c {
        None => {
            assert(qc =~= Seq::<u8>::empty());
        },
        Some(cv) => {
            let name = if cv is Octet {
                crate::sieve_lex::spec_kw_i_octet()
            } else {
                crate::sieve_lex::spec_kw_i_casemap()
            };
            let frag = crate::sieve_lex::spec_kw_comparator() + seq![32u8] + spec_print_string(
                name,
            );
            assert(qc == frag + seq![32u8]);
            assert(qc + qm =~= frag + (seq![32u8] + qm));
            lemma_lit_at_split(s, p, frag, seq![32u8] + qm);
            lemma_lit_at_index(s, p + frag.len(), seq![32u8] + qm, 0);
            if m is Some {
                lemma_lit_at_index(s, e1, qm, 0);
            }
            lemma_comparator_rt(s, p, cv);
            assert(sep_end(s, p + frag.len()) == e1);
        },
    }
    // the match fragment, or nothing, at its own start
    match m {
        None => {
            assert(qm =~= Seq::<u8>::empty());
            lemma_match_type_none(s, e1);
        },
        Some(mv) => {
            let kwm = spec_match_kw(mv);
            assert(qm == kwm + seq![32u8]);
            lemma_lit_at_split(s, e1, kwm, seq![32u8]);
            lemma_lit_at_index(s, e1 + kwm.len(), seq![32u8], 0);
            lemma_match_type_rt(s, e1, mv);
            assert(sep_end(s, e1 + kwm.len()) == e);
            if c is None {
                lemma_comparator_none_at_match(s, e1, mv);
            }
        },
    }
    // nothing more parses at the string list
    lemma_comparator_none(s, e);
    lemma_match_type_none(s, e);
    // now walk the permutation, innermost state first
    assert(spec_header_perm(s, e, c, m) == ((c, m), e));
    if m is Some {
        assert(spec_header_perm(s, e1, c, None) == ((c, m), e));
    }
    if c is Some {
        assert(spec_header_perm(s, p, None, None) == ((c, m), e));
    } else {
        assert(e1 == p);
        assert(spec_header_perm(s, p, None, None) == ((c, m), e));
    }
}

/// The printed `address` qualifiers re-parse to the same three
/// options.
#[verifier::rlimit(100)]
#[verifier::spinoff_prover]
pub proof fn lemma_addr_quals_rt(
    s: Seq<u8>,
    p: int,
    m: Option<MatchOperator>,
    c: Option<CharacterOperator>,
    a: Option<AddressOperator>,
)
    requires
        wf_match(m),
        halts_eat(s, p),
        lit_at(
            s,
            p,
            spec_print_match(m) + spec_print_comparator(c) + spec_print_addr_part(a),
        ),
        ({
            let e = p + spec_print_match(m).len() + spec_print_comparator(c).len()
                + spec_print_addr_part(a).len();
            e < s.len() && (s[e] == 91 || s[e] == 34)
        }),
    ensures
        ({
            let e = p + spec_print_match(m).len() + spec_print_comparator(c).len()
                + spec_print_addr_part(a).len();
            spec_addr_perm(s, p, None, None, None) == ((m, c, a), e)
        }),
{
    let qm = spec_print_match(m);
    let qc = spec_print_comparator(c);
    let qa = spec_print_addr_part(a);
    let e = p + qm.len() + qc.len() + qa.len();
    assert(qm + qc + qa =~= qm + (qc + qa));
    lemma_lit_at_split(s, p, qm, qc + qa);
    lemma_lit_at_split(s, p + qm.len(), qc, qa);
    let p1 = p + qm.len();
    let p2 = p1 + qc.len();
    // the match fragment, or nothing
    match m {
        None => {
            assert(qm =~= Seq::<u8>::empty());
        },
        Some(mv) => {
            let kwm = spec_match_kw(mv);
            assert(qm == kwm + seq![32u8]);
            lemma_lit_at_split(s, p, kwm, seq![32u8]);
            lemma_lit_at_index(s, p + kwm.len(), seq![32u8], 0);
            if qc.len() > 0 {
                lemma_lit_at_index(s, p1, qc, 0);
            } else if qa.len() > 0 {
                lemma_lit_at_index(s, p2, qa, 0);
            }
            lemma_match_type_rt(s, p, mv);
            assert(sep_end(s, p + kwm.len()) == p1);
        },
    }
    // the comparator fragment, or nothing
    match c {
        None => {
            assert(qc =~= Seq::<u8>::empty());
        },
        Some(cv) => {
            let name = if cv is Octet {
                crate::sieve_lex::spec_kw_i_octet()
            } else {
                crate::sieve_lex::spec_kw_i_casemap()
            };
            let frag = crate::sieve_lex::spec_kw_comparator() + seq![32u8] + spec_print_string(
                name,
            );
            assert(qc == frag + seq![32u8]);
            assert(qc + qa =~= frag + (seq![32u8] + qa));
            lemma_lit_at_split(s, p1, frag, seq![32u8] + qa);
            lemma_lit_at_index(s, p1 + frag.len(), seq![32u8] + qa, 0);
            if qa.len() > 0 {
                lemma_lit_at_index(s, p2, qa, 0);
            }
            lemma_comparator_rt(s, p1, cv);
            assert(sep_end(s, p1 + frag.len()) == p2);
            if m is None {
                assert(frag =~= crate::sieve_lex::spec_kw_comparator() + (seq![32u8]
                    + spec_print_string(name)));
                lemma_lit_at_split(
                    s,
                    p1,
                    crate::sieve_lex::spec_kw_comparator(),
                    seq![32u8] + spec_print_string(name),
                );
                lemma_match_none_at_comp(s, p1);
            }
        },
    }
    // the address-part fragment, or nothing
    match a {
        None => {
            assert(qa =~= Seq::<u8>::empty());
        },
        Some(av) => {
            let kwa = spec_addr_kw(av);
            assert(qa == kwa + seq![32u8]);
            lemma_lit_at_split(s, p2, kwa, seq![32u8]);
            lemma_lit_at_index(s, p2 + kwa.len(), seq![32u8], 0);
            lemma_addr_type_rt(s, p2, av);
            assert(sep_end(s, p2 + kwa.len()) == e);
            lemma_quals_none_at_addr(s, p2, av);
        },
    }
    // nothing more parses at the string list
    lemma_match_type_none(s, e);
    lemma_comparator_none(s, e);
    lemma_addr_type_none(s, e);
    // now walk the permutation, innermost state first
    assert(spec_addr_perm(s, e, m, c, a) == ((m, c, a), e));
    if a is Some {
        assert(spec_addr_perm(s, p2, m, c, None) == ((m, c, a), e));
    } else {
        assert(p2 == e);
    }
    if c is Some {
        assert(spec_addr_perm(s, p1, m, None, None) == ((m, c, a), e));
    } else {
        assert(p1 == p2);
        assert(spec_addr_perm(s, p1, m, None, None) == ((m, c, a), e));
    }
    if m is Some {
        assert(spec_addr_perm(s, p, None, None, None) == ((m, c, a), e));
    } else {
        assert(p == p1);
    }
}

/// A test the writer can carry: qualifiers with source syntax, lists
/// of carryable strings, and negation of exactly one test.
pub open spec fn wf_cond(c: SpecCondition) -> bool
    decreases c, 0nat,
{
    match c {
        SpecCondition::Literal(_) => true,
        SpecCondition::Exists(l) => wf_strings(l),
        SpecCondition::Size { .. } => true,
        SpecCondition::Not(i) => i.len() == 1 && wf_cond(i[0]),
        SpecCondition::Header { comparator, match_operator, header_names, key_list } => wf_match(
            match_operator,
        ) && wf_strings(header_names) && wf_strings(key_list),
        SpecCondition::Address {
            comparator,
            address_part,
            match_type,
            header_list,
            key_list,
        } => wf_match(match_type) && wf_strings(header_list) && wf_strings(key_list),
        SpecCondition::AllOf(l) => wf_conds(l),
        SpecCondition::AnyOf(l) => wf_conds(l),
    }
}

/// Every test of a list is carryable.
pub open spec fn wf_conds(l: Seq<SpecCondition>) -> bool
    decreases l, 1nat,
{
    forall|i: int| 0 <= i < l.len() ==> wf_cond(#[trigger] l[i])
}

/// What may follow a printed test: a comma or closing parenthesis of a
/// test list, or the space before the block it guards.
pub open spec fn cond_follow(s: Seq<u8>, q: int) -> bool {
    0 <= q < s.len() && (s[q] == 44 || s[q] == 41 || (s[q] == 32 && q + 1 < s.len() && s[q + 1]
        == 123))
}

/// No test parses at a closing parenthesis.
proof fn lemma_test_none(s: Seq<u8>, p: int)
    requires
        halts_eat(s, p),
        0 <= p < s.len(),
        s[p] == 41,
    ensures
        crate::sieve::spec_test(s, p) is None,
{
    lemma_token_miss(s, p, crate::sieve_lex::spec_kw_true(), 0);
    lemma_token_miss(s, p, crate::sieve_lex::spec_kw_false(), 0);
    lemma_token_miss(s, p, crate::sieve_lex::spec_kw_exists(), 0);
    lemma_token_miss(s, p, crate::sieve_lex::spec_kw_size(), 0);
    lemma_token_miss(s, p, crate::sieve_lex::spec_kw_not(), 0);
    lemma_token_miss(s, p, crate::sieve_lex::spec_kw_header(), 0);
    lemma_token_miss(s, p, crate::sieve_lex::spec_kw_address(), 0);
    lemma_token_miss(s, p, crate::sieve_lex::spec_kw_allof(), 0);
    lemma_token_miss(s, p, crate::sieve_lex::spec_kw_anyof(), 0);
}


/// Two printed string lists, a space apart, re-parse in sequence.
#[verifier::rlimit(100)]
#[verifier::spinoff_prover]
proof fn lemma_two_lists_rt(s: Seq<u8>, p2: int, ns_l: Seq<Seq<u8>>, ks_l: Seq<Seq<u8>>)
    requires
        wf_strings(ns_l),
        wf_strings(ks_l),
        halts_eat(s, p2),
        lit_at(
            s,
            p2,
            spec_print_strings(ns_l) + seq![32u8] + spec_print_strings(ks_l),
        ),
        cond_follow(
            s,
            p2 + spec_print_strings(ns_l).len() + 1 + spec_print_strings(ks_l).len(),
        ),
    ensures
        ({
            let ns = spec_print_strings(ns_l);
            let ks = spec_print_strings(ks_l);
            let p4 = p2 + ns.len() + 1;
            let e = sep_end(s, p4 + ks.len());
            &&& crate::sieve::spec_string_list(s, p2) == Some((ns_l, p4))
            &&& crate::sieve::spec_string_list(s, p4) == Some((ks_l, e))
            &&& halts_eat(s, e)
            &&& p2 < e <= s.len()
        }),
{
    let ns = spec_print_strings(ns_l);
    let ks = spec_print_strings(ks_l);
    assert(ns + seq![32u8] + ks =~= ns + (seq![32u8] + ks));
    lemma_lit_at_split(s, p2, ns, seq![32u8] + ks);
    let p3 = p2 + ns.len();
    lemma_lit_at_split(s, p3, seq![32u8], ks);
    lemma_lit_at_index(s, p3, seq![32u8], 0);
    let p4 = p3 + 1;
    lemma_lit_at_index(s, p4, ks, 0);
    lemma_strings_rt(s, p2, ns_l);
    assert(sep_end(s, p3) == p4);
    lemma_eat_sep(s, p4 + ks.len());
    lemma_strings_rt(s, p4, ks_l);
}

/// A printed parenthesized test list re-parses to its items.
#[verifier::rlimit(100)]
#[verifier::spinoff_prover]
proof fn lemma_parens_list_rt(s: Seq<u8>, popen: int, l: Seq<SpecCondition>)
    requires
        wf_conds(l),
        halts_eat(s, popen),
        lit_at(s, popen, seq![40u8] + spec_print_cond_list(l) + seq![41u8]),
        sep_at(s, popen + 1 + spec_print_cond_list(l).len() + 1),
    ensures
        ({
            let body = spec_print_cond_list(l);
            let e = sep_end(s, popen + 1 + body.len() + 1);
            &&& crate::sieve::spec_test_list(s, popen) == Some((l, e))
            &&& halts_eat(s, e)
            &&& popen < e <= s.len()
        }),
    decreases l, 4nat,
{
    let body = spec_print_cond_list(l);
    assert(seq![40u8] + body + seq![41u8] =~= seq![40u8] + (body + seq![41u8]));
    lemma_lit_at_split(s, popen, seq![40u8], body + seq![41u8]);
    let pl = popen + 1;
    lemma_lit_at_split(s, pl, body, seq![41u8]);
    lemma_lit_at_index(s, popen, seq![40u8], 0);
    lemma_lit_at_index(s, pl + body.len(), seq![41u8], 0);
    if body.len() > 0 {
        lemma_lit_at_index(s, pl, body, 0);
    }
    assert(s.subrange(popen, popen + 1) =~= seq![40u8]);
    assert(seq![40u8] =~= crate::sieve_lex::spec_kw_lparen());
    lemma_token_hit(s, popen, crate::sieve_lex::spec_kw_lparen());
    assert(sep_end(s, popen + 1) == pl);
    lemma_cond_list_rt(s, pl, l);
    assert(seq![41u8] =~= crate::sieve_lex::spec_kw_rparen());
    assert(s.subrange(pl + body.len(), pl + body.len() + 1) =~= seq![41u8]);
    lemma_token_hit(s, pl + body.len(), crate::sieve_lex::spec_kw_rparen());
}

/// A printed test re-parses to itself.
#[verifier::rlimit(100)]
#[verifier::spinoff_prover]
/// A printed test re-parses to itself.
pub proof fn lemma_cond_rt(s: Seq<u8>, p: int, c: SpecCondition)
    requires
        wf_cond(c),
        lit_at(s, p, spec_print_cond(c)),
        cond_follow(s, p + spec_print_cond(c).len()),
    ensures
        ({
            let e = sep_end(s, p + spec_print_cond(c).len());
            &&& crate::sieve::spec_test(s, p) == Some((c, e))
            &&& halts_eat(s, e)
            &&& p < e <= s.len()
        }),
    decreases c, 2nat,
{
    match c {
        SpecCondition::Literal(_) => {
            lemma_cond_rt_arm_literal(s, p, c);
        },
        SpecCondition::Exists(_) => {
            lemma_cond_rt_arm_exists(s, p, c);
        },
        SpecCondition::Size { .. } => {
            lemma_cond_rt_arm_size(s, p, c);
        },
        SpecCondition::Not(_) => {
            lemma_cond_rt_arm_not(s, p, c);
        },
        SpecCondition::Header { .. } => {
            lemma_cond_rt_arm_headerd(s, p, c);
        },
        SpecCondition::Address { .. } => {
            lemma_cond_rt_arm_addressd(s, p, c);
        },
        SpecCondition::AllOf(_) => {
            lemma_cond_rt_arm_allof(s, p, c);
        },
        SpecCondition::AnyOf(_) => {
            lemma_cond_rt_arm_anyof(s, p, c);
        },
    }
}


/// One case of the test round trip.
#[verifier::rlimit(100)]
#[verifier::spinoff_prover]
proof fn lemma_cond_rt_arm_literal(s: Seq<u8>, p: int, c: SpecCondition)
    requires
        c matches SpecCondition::Literal(_),
        wf_cond(c),
        lit_at(s, p, spec_print_cond(c)),
        cond_follow(s, p + spec_print_cond(c).len()),
    ensures
        ({
            let e = sep_end(s, p + spec_print_cond(c).len());
            &&& crate::sieve::spec_test(s, p) == Some((c, e))
            &&& halts_eat(s, e)
            &&& p < e <= s.len()
        }),
    decreases c, 1nat,
{
    let pr = spec_print_cond(c);
    let q = p + pr.len();
    lemma_lit_at_index(s, p, pr, 0);
    lemma_eat_halt(s, p);
    lemma_eat_sep(s, q);
    match c {
        SpecCondition::Literal(b) => {

            if b {
                lemma_token_hit(s, p, crate::sieve_lex::spec_kw_true());
            } else {
                lemma_lit_at_index(s, p, pr, 1);
                lemma_token_miss(s, p, crate::sieve_lex::spec_kw_true(), 0);
                lemma_token_hit(s, p, crate::sieve_lex::spec_kw_false());
            }
        },
        _ => {},
    }
}

/// One case of the test round trip.
#[verifier::rlimit(100)]
#[verifier::spinoff_prover]
proof fn lemma_cond_rt_arm_exists(s: Seq<u8>, p: int, c: SpecCondition)
    requires
        c matches SpecCondition::Exists(_),
        wf_cond(c),
        lit_at(s, p, spec_print_cond(c)),
        cond_follow(s, p + spec_print_cond(c).len()),
    ensures
        ({
            let e = sep_end(s, p + spec_print_cond(c).len());
            &&& crate::sieve::spec_test(s, p) == Some((c, e))
            &&& halts_eat(s, e)
            &&& p < e <= s.len()
        }),
    decreases c, 1nat,
{
    let pr = spec_print_cond(c);
    let q = p + pr.len();
    lemma_lit_at_index(s, p, pr, 0);
    lemma_eat_halt(s, p);
    lemma_eat_sep(s, q);
    match c {
        SpecCondition::Exists(l) => {

            lemma_token_miss(s, p, crate::sieve_lex::spec_kw_true(), 0);
            lemma_token_miss(s, p, crate::sieve_lex::spec_kw_false(), 0);
            let kw = crate::sieve_lex::spec_kw_exists();
            let ls = spec_print_strings(l);
            assert(pr =~= kw + (seq![32u8] + ls));
            lemma_lit_at_split(s, p, kw, seq![32u8] + ls);
            lemma_lit_at_split(s, p + kw.len(), seq![32u8], ls);
            lemma_lit_at_index(s, p + kw.len(), seq![32u8], 0);
            lemma_lit_at_index(s, p + kw.len() + 1, ls, 0);
            lemma_token_hit(s, p, kw);
            assert(sep_end(s, p + kw.len()) == p + kw.len() + 1);
            lemma_strings_rt(s, p + kw.len() + 1, l);
        },
        _ => {},
    }
}

/// One case of the test round trip.
#[verifier::rlimit(100)]
#[verifier::spinoff_prover]
proof fn lemma_cond_rt_arm_size(s: Seq<u8>, p: int, c: SpecCondition)
    requires
        c matches SpecCondition::Size { .. },
        wf_cond(c),
        lit_at(s, p, spec_print_cond(c)),
        cond_follow(s, p + spec_print_cond(c).len()),
    ensures
        ({
            let e = sep_end(s, p + spec_print_cond(c).len());
            &&& crate::sieve::spec_test(s, p) == Some((c, e))
            &&& halts_eat(s, e)
            &&& p < e <= s.len()
        }),
    decreases c, 1nat,
{
    let pr = spec_print_cond(c);
    let q = p + pr.len();
    lemma_lit_at_index(s, p, pr, 0);
    lemma_eat_halt(s, p);
    lemma_eat_sep(s, q);
    match c {
        SpecCondition::Size { operator, limit } => {

            lemma_token_miss(s, p, crate::sieve_lex::spec_kw_true(), 0);
            lemma_token_miss(s, p, crate::sieve_lex::spec_kw_false(), 0);
            lemma_token_miss(s, p, crate::sieve_lex::spec_kw_exists(), 0);
            let kw = crate::sieve_lex::spec_kw_size();
            let kwop = if operator is Over {
                crate::sieve_lex::spec_kw_over()
            } else {
                crate::sieve_lex::spec_kw_under()
            };
            let dd = spec_dec_digits(limit as int);
            assert(pr =~= kw + (seq![32u8] + (kwop + (seq![32u8] + dd))));
            lemma_lit_at_split(s, p, kw, seq![32u8] + (kwop + (seq![32u8] + dd)));
            lemma_lit_at_split(s, p + kw.len(), seq![32u8], kwop + (seq![32u8] + dd));
            lemma_lit_at_index(s, p + kw.len(), seq![32u8], 0);
            let p1 = p + kw.len() + 1;
            lemma_lit_at_split(s, p1, kwop, seq![32u8] + dd);
            lemma_lit_at_index(s, p1, kwop, 0);
            lemma_lit_at_split(s, p1 + kwop.len(), seq![32u8], dd);
            lemma_lit_at_index(s, p1 + kwop.len(), seq![32u8], 0);
            let p2 = p1 + kwop.len() + 1;
            lemma_dec_digits_digits(limit as int);
            lemma_lit_at_index(s, p2, dd, 0);
            lemma_token_hit(s, p, kw);
            assert(sep_end(s, p + kw.len()) == p1);
            if operator is Over {
                lemma_token_hit(s, p1, crate::sieve_lex::spec_kw_over());
            } else {
                lemma_lit_at_index(s, p1, kwop, 1);
                lemma_token_miss(s, p1, crate::sieve_lex::spec_kw_over(), 1);
                lemma_token_hit(s, p1, crate::sieve_lex::spec_kw_under());
            }
            assert(sep_end(s, p1 + kwop.len()) == p2);
            assert(after_number_ok(s, p2 + dd.len()));
            lemma_number_rt(s, p2, limit);
        },
        _ => {},
    }
}

/// One case of the test round trip.
#[verifier::rlimit(100)]
#[verifier::spinoff_prover]
proof fn lemma_cond_rt_arm_not(s: Seq<u8>, p: int, c: SpecCondition)
    requires
        c matches SpecCondition::Not(_),
        wf_cond(c),
        lit_at(s, p, spec_print_cond(c)),
        cond_follow(s, p + spec_print_cond(c).len()),
    ensures
        ({
            let e = sep_end(s, p + spec_print_cond(c).len());
            &&& crate::sieve::spec_test(s, p) == Some((c, e))
            &&& halts_eat(s, e)
            &&& p < e <= s.len()
        }),
    decreases c, 1nat,
{
    let pr = spec_print_cond(c);
    let q = p + pr.len();
    lemma_lit_at_index(s, p, pr, 0);
    lemma_eat_halt(s, p);
    lemma_eat_sep(s, q);
    match c {
        SpecCondition::Not(inner) => {

            lemma_token_miss(s, p, crate::sieve_lex::spec_kw_true(), 0);
            lemma_token_miss(s, p, crate::sieve_lex::spec_kw_false(), 0);
            lemma_token_miss(s, p, crate::sieve_lex::spec_kw_exists(), 0);
            lemma_token_miss(s, p, crate::sieve_lex::spec_kw_size(), 0);
            let kw = crate::sieve_lex::spec_kw_not();
            let ip = spec_print_cond(inner[0]);
            assert(pr =~= kw + (seq![32u8] + ip));
            lemma_lit_at_split(s, p, kw, seq![32u8] + ip);
            lemma_lit_at_split(s, p + kw.len(), seq![32u8], ip);
            lemma_lit_at_index(s, p + kw.len(), seq![32u8], 0);
            lemma_lit_at_index(s, p + kw.len() + 1, ip, 0);
            lemma_token_hit(s, p, kw);
            assert(sep_end(s, p + kw.len()) == p + kw.len() + 1);
            lemma_cond_rt(s, p + kw.len() + 1, inner[0]);
            assert(seq![inner[0]] =~= inner);
        },
        _ => {},
    }
}

/// One case of the test round trip.
#[verifier::rlimit(100)]
#[verifier::spinoff_prover]
proof fn lemma_cond_rt_arm_headerd(s: Seq<u8>, p: int, c: SpecCondition)
    requires
        c matches SpecCondition::Header { .. },
        wf_cond(c),
        lit_at(s, p, spec_print_cond(c)),
        cond_follow(s, p + spec_print_cond(c).len()),
    ensures
        ({
            let e = sep_end(s, p + spec_print_cond(c).len());
            &&& crate::sieve::spec_test(s, p) == Some((c, e))
            &&& halts_eat(s, e)
            &&& p < e <= s.len()
        }),
    decreases c, 1nat,
{
    let pr = spec_print_cond(c);
    let q = p + pr.len();
    lemma_lit_at_index(s, p, pr, 0);
    lemma_eat_halt(s, p);
    lemma_eat_sep(s, q);
    match c {
        SpecCondition::Header { .. } => {

            lemma_token_miss(s, p, crate::sieve_lex::spec_kw_true(), 0);
            lemma_token_miss(s, p, crate::sieve_lex::spec_kw_false(), 0);
            lemma_token_miss(s, p, crate::sieve_lex::spec_kw_exists(), 0);
            lemma_token_miss(s, p, crate::sieve_lex::spec_kw_size(), 0);
            lemma_token_miss(s, p, crate::sieve_lex::spec_kw_not(), 0);
            lemma_cond_rt_header(s, p, c);
        },
        _ => {},
    }
}

/// One case of the test round trip.
#[verifier::rlimit(100)]
#[verifier::spinoff_prover]
proof fn lemma_cond_rt_arm_addressd(s: Seq<u8>, p: int, c: SpecCondition)
    requires
        c matches SpecCondition::Address { .. },
        wf_cond(c),
        lit_at(s, p, spec_print_cond(c)),
        cond_follow(s, p + spec_print_cond(c).len()),
    ensures
        ({
            let e = sep_end(s, p + spec_print_cond(c).len());
            &&& crate::sieve::spec_test(s, p) == Some((c, e))
            &&& halts_eat(s, e)
            &&& p < e <= s.len()
        }),
    decreases c, 1nat,
{
    let pr = spec_print_cond(c);
    let q = p + pr.len();
    lemma_lit_at_index(s, p, pr, 0);
    lemma_eat_halt(s, p);
    lemma_eat_sep(s, q);
    match c {
        SpecCondition::Address { .. } => {

            lemma_token_miss(s, p, crate::sieve_lex::spec_kw_true(), 0);
            lemma_token_miss(s, p, crate::sieve_lex::spec_kw_false(), 0);
            lemma_token_miss(s, p, crate::sieve_lex::spec_kw_exists(), 0);
            lemma_token_miss(s, p, crate::sieve_lex::spec_kw_size(), 0);
            lemma_token_miss(s, p, crate::sieve_lex::spec_kw_not(), 0);
            lemma_token_miss(s, p, crate::sieve_lex::spec_kw_header(), 0);
            lemma_cond_rt_address(s, p, c);
        },
        _ => {},
    }
}

/// One case of the test round trip.
#[verifier::rlimit(100)]
#[verifier::spinoff_prover]
proof fn lemma_cond_rt_arm_allof(s: Seq<u8>, p: int, c: SpecCondition)
    requires
        c matches SpecCondition::AllOf(_),
        wf_cond(c),
        lit_at(s, p, spec_print_cond(c)),
        cond_follow(s, p + spec_print_cond(c).len()),
    ensures
        ({
            let e = sep_end(s, p + spec_print_cond(c).len());
            &&& crate::sieve::spec_test(s, p) == Some((c, e))
            &&& halts_eat(s, e)
            &&& p < e <= s.len()
        }),
    decreases c, 1nat,
{
    let pr = spec_print_cond(c);
    let q = p + pr.len();
    lemma_lit_at_index(s, p, pr, 0);
    lemma_eat_halt(s, p);
    lemma_eat_sep(s, q);
    match c {
        SpecCondition::AllOf(l) => {

            lemma_token_miss(s, p, crate::sieve_lex::spec_kw_true(), 0);
            lemma_token_miss(s, p, crate::sieve_lex::spec_kw_false(), 0);
            lemma_token_miss(s, p, crate::sieve_lex::spec_kw_exists(), 0);
            lemma_token_miss(s, p, crate::sieve_lex::spec_kw_size(), 0);
            lemma_token_miss(s, p, crate::sieve_lex::spec_kw_not(), 0);
            lemma_token_miss(s, p, crate::sieve_lex::spec_kw_header(), 0);
            lemma_lit_at_index(s, p, pr, 1);
            lemma_token_miss(s, p, crate::sieve_lex::spec_kw_address(), 1);
            let kw = crate::sieve_lex::spec_kw_allof();
            let body = spec_print_cond_list(l);
            assert(pr =~= kw + (seq![32u8] + (seq![40u8] + body + seq![41u8])));
            lemma_lit_at_split(s, p, kw, seq![32u8] + (seq![40u8] + body + seq![41u8]));
            lemma_lit_at_split(s, p + kw.len(), seq![32u8], seq![40u8] + body + seq![41u8]);
            lemma_lit_at_index(s, p + kw.len(), seq![32u8], 0);
            let popen = p + kw.len() + 1;
            lemma_lit_at_index(s, popen, seq![40u8] + body + seq![41u8], 0);
            lemma_token_hit(s, p, kw);
            assert(sep_end(s, p + kw.len()) == popen);
            lemma_parens_list_rt(s, popen, l);
        },
        _ => {},
    }
}

/// One case of the test round trip.
#[verifier::rlimit(100)]
#[verifier::spinoff_prover]
proof fn lemma_cond_rt_arm_anyof(s: Seq<u8>, p: int, c: SpecCondition)
    requires
        c matches SpecCondition::AnyOf(_),
        wf_cond(c),
        lit_at(s, p, spec_print_cond(c)),
        cond_follow(s, p + spec_print_cond(c).len()),
    ensures
        ({
            let e = sep_end(s, p + spec_print_cond(c).len());
            &&& crate::sieve::spec_test(s, p) == Some((c, e))
            &&& halts_eat(s, e)
            &&& p < e <= s.len()
        }),
    decreases c, 1nat,
{
    let pr = spec_print_cond(c);
    let q = p + pr.len();
    lemma_lit_at_index(s, p, pr, 0);
    lemma_eat_halt(s, p);
    lemma_eat_sep(s, q);
    match c {
        SpecCondition::AnyOf(l) => {

            lemma_token_miss(s, p, crate::sieve_lex::spec_kw_true(), 0);
            lemma_token_miss(s, p, crate::sieve_lex::spec_kw_false(), 0);
            lemma_token_miss(s, p, crate::sieve_lex::spec_kw_exists(), 0);
            lemma_token_miss(s, p, crate::sieve_lex::spec_kw_size(), 0);
            lemma_token_miss(s, p, crate::sieve_lex::spec_kw_not(), 0);
            lemma_token_miss(s, p, crate::sieve_lex::spec_kw_header(), 0);
            lemma_lit_at_index(s, p, pr, 1);
            lemma_token_miss(s, p, crate::sieve_lex::spec_kw_address(), 1);
            lemma_lit_at_index(s, p, pr, 2);
            lemma_token_miss(s, p, crate::sieve_lex::spec_kw_allof(), 1);
            let kw = crate::sieve_lex::spec_kw_anyof();
            let body = spec_print_cond_list(l);
            assert(pr =~= kw + (seq![32u8] + (seq![40u8] + body + seq![41u8])));
            lemma_lit_at_split(s, p, kw, seq![32u8] + (seq![40u8] + body + seq![41u8]));
            lemma_lit_at_split(s, p + kw.len(), seq![32u8], seq![40u8] + body + seq![41u8]);
            lemma_lit_at_index(s, p + kw.len(), seq![32u8], 0);
            let popen = p + kw.len() + 1;
            lemma_lit_at_index(s, popen, seq![40u8] + body + seq![41u8], 0);
            lemma_token_hit(s, p, kw);
            assert(sep_end(s, p + kw.len()) == popen);
            lemma_parens_list_rt(s, popen, l);
        },
        _ => {},
    }
}

/// A printed test-list body re-parses to its items; a closing
/// parenthesis follows.
#[verifier::rlimit(60)]
#[verifier::spinoff_prover]
pub proof fn lemma_cond_list_rt(s: Seq<u8>, p: int, l: Seq<SpecCondition>)
    requires
        wf_conds(l),
        lit_at(s, p, spec_print_cond_list(l)),
        p + spec_print_cond_list(l).len() < s.len(),
        s[p + spec_print_cond_list(l).len()] == 41,
        halts_eat(s, p),
    ensures
        crate::sieve::spec_test_items(s, p) == Some((l, p + spec_print_cond_list(l).len())),
        halts_eat(s, p + spec_print_cond_list(l).len()),
    decreases l, 1nat,
{
    let pr = spec_print_cond_list(l);
    if l.len() == 0 {
        assert(pr =~= Seq::<u8>::empty());
        lemma_test_none(s, p);
    } else {
        let tail = l.subrange(1, l.len() as int);
        let p0 = spec_print_cond(l[0]);
        let pt = spec_print_cond_tail(tail);
        assert(pr =~= p0 + pt);
        lemma_lit_at_split(s, p, p0, pt);
        let q = p + p0.len();
        if tail.len() == 0 {
            assert(pt =~= Seq::<u8>::empty());
            assert(s[q] == 41);
        } else {
            lemma_lit_at_index(s, q, pt, 0);
            assert(s[q] == 44);
        }
        assert(wf_cond(l[0]));
        lemma_cond_rt(s, p, l[0]);
        assert(sep_end(s, q) == q);
        assert(wf_conds(tail)) by {
            assert(forall|i: int| 0 <= i < tail.len() ==> tail[i] == #[trigger] l[i + 1]);
        }
        lemma_cond_tail_rt(s, q, tail);
        assert(seq![l[0]] + tail =~= l);
    }
}

/// The later items of a printed test list re-parse to themselves.
#[verifier::rlimit(100)]
#[verifier::spinoff_prover]
pub proof fn lemma_cond_tail_rt(s: Seq<u8>, p: int, l: Seq<SpecCondition>)
    requires
        wf_conds(l),
        lit_at(s, p, spec_print_cond_tail(l)),
        p + spec_print_cond_tail(l).len() < s.len(),
        s[p + spec_print_cond_tail(l).len()] == 41,
        halts_eat(s, p),
    ensures
        crate::sieve::spec_test_items_more(s, p) == Some((l, p + spec_print_cond_tail(l).len())),
        halts_eat(s, p + spec_print_cond_tail(l).len()),
    decreases l, 2nat,
{
    let pr = spec_print_cond_tail(l);
    if l.len() == 0 {
        assert(pr =~= Seq::<u8>::empty());
        lemma_token_miss(s, p, crate::sieve_lex::spec_kw_comma(), 0);
    } else {
        let tail = l.subrange(1, l.len() as int);
        let p0 = spec_print_cond(l[0]);
        let pt = spec_print_cond_tail(tail);
        assert(pr =~= seq![44u8, 32u8] + (p0 + pt));
        lemma_lit_at_split(s, p, seq![44u8, 32u8], p0 + pt);
        lemma_lit_at_split(s, p + 2, p0, pt);
        lemma_lit_at_index(s, p, seq![44u8, 32u8], 0);
        lemma_lit_at_index(s, p, seq![44u8, 32u8], 1);
        lemma_lit_at_index(s, p + 2, p0, 0);
        lemma_eat_halt(s, p);
        assert(seq![44u8] =~= crate::sieve_lex::spec_kw_comma());
        assert(pr =~= seq![44u8] + (seq![32u8] + p0 + pt));
        lemma_lit_at_split(s, p, seq![44u8], seq![32u8] + p0 + pt);
        lemma_token_hit(s, p, crate::sieve_lex::spec_kw_comma());
        assert(sep_end(s, p + 1) == p + 2);
        let q = p + 2 + p0.len();
        if tail.len() == 0 {
            assert(pt =~= Seq::<u8>::empty());
            assert(s[q] == 41);
        } else {
            lemma_lit_at_index(s, q, pt, 0);
            assert(s[q] == 44);
        }
        assert(wf_cond(l[0]));
        lemma_cond_rt(s, p + 2, l[0]);
        assert(sep_end(s, q) == q);
        assert(wf_conds(tail)) by {
            assert(forall|i: int| 0 <= i < tail.len() ==> tail[i] == #[trigger] l[i + 1]);
        }
        lemma_cond_tail_rt(s, q, tail);
        assert(seq![l[0]] + tail =~= l);
    }
}


/// The `header` case of the test round trip.
#[verifier::rlimit(100)]
#[verifier::spinoff_prover]
proof fn lemma_cond_rt_header(s: Seq<u8>, p: int, c: SpecCondition)
    requires
        c matches SpecCondition::Header { .. },
        wf_cond(c),
        lit_at(s, p, spec_print_cond(c)),
        cond_follow(s, p + spec_print_cond(c).len()),
        halts_eat(s, p),
    ensures
        ({
            let e = sep_end(s, p + spec_print_cond(c).len());
            &&& crate::sieve::spec_header(s, p) == Some((c, e))
            &&& halts_eat(s, e)
            &&& p < e <= s.len()
        }),
    decreases c, 0nat,
{
    let pr = spec_print_cond(c);
    let q = p + pr.len();
    lemma_lit_at_index(s, p, pr, 0);
    lemma_eat_halt(s, p);
    lemma_eat_sep(s, q);
    match c {
        SpecCondition::Header { comparator, match_operator, header_names, key_list } => {

            lemma_token_miss(s, p, crate::sieve_lex::spec_kw_true(), 0);
            lemma_token_miss(s, p, crate::sieve_lex::spec_kw_false(), 0);
            lemma_token_miss(s, p, crate::sieve_lex::spec_kw_exists(), 0);
            lemma_token_miss(s, p, crate::sieve_lex::spec_kw_size(), 0);
            lemma_token_miss(s, p, crate::sieve_lex::spec_kw_not(), 0);
            let kw = crate::sieve_lex::spec_kw_header();
            let quals = spec_print_comparator(comparator) + spec_print_match(match_operator);
            let ns = spec_print_strings(header_names);
            let ks = spec_print_strings(key_list);
            assert(pr =~= kw + (seq![32u8] + (quals + (ns + seq![32u8] + ks))));
            lemma_lit_at_split(s, p, kw, seq![32u8] + (quals + (ns + seq![32u8] + ks)));
            lemma_lit_at_split(s, p + kw.len(), seq![32u8], quals + (ns + seq![32u8] + ks));
            lemma_lit_at_index(s, p + kw.len(), seq![32u8], 0);
            let p1 = p + kw.len() + 1;
            lemma_lit_at_split(s, p1, quals, ns + seq![32u8] + ks);
            let p2 = p1 + quals.len();
            lemma_lit_at_index(s, p2, ns + seq![32u8] + ks, 0);
            if quals.len() > 0 {
                lemma_lit_at_index(s, p1, quals, 0);
            }
            lemma_token_hit(s, p, kw);
            assert(sep_end(s, p + kw.len()) == p1);
            lemma_header_quals_rt(s, p1, comparator, match_operator);
            lemma_two_lists_rt(s, p2, header_names, key_list);
        },
        _ => {},
    }
}

/// The `address` case of the test round trip.
#[verifier::rlimit(100)]
#[verifier::spinoff_prover]
proof fn lemma_cond_rt_address(s: Seq<u8>, p: int, c: SpecCondition)
    requires
        c matches SpecCondition::Address { .. },
        wf_cond(c),
        lit_at(s, p, spec_print_cond(c)),
        cond_follow(s, p + spec_print_cond(c).len()),
        halts_eat(s, p),
    ensures
        ({
            let e = sep_end(s, p + spec_print_cond(c).len());
            &&& crate::sieve::spec_address(s, p) == Some((c, e))
            &&& halts_eat(s, e)
            &&& p < e <= s.len()
        }),
    decreases c, 0nat,
{
    let pr = spec_print_cond(c);
    let q = p + pr.len();
    lemma_lit_at_index(s, p, pr, 0);
    lemma_eat_halt(s, p);
    lemma_eat_sep(s, q);
    match c {
        SpecCondition::Address { comparator, address_part, match_type, header_list, key_list } => {

            lemma_token_miss(s, p, crate::sieve_lex::spec_kw_true(), 0);
            lemma_token_miss(s, p, crate::sieve_lex::spec_kw_false(), 0);
            lemma_token_miss(s, p, crate::sieve_lex::spec_kw_exists(), 0);
            lemma_token_miss(s, p, crate::sieve_lex::spec_kw_size(), 0);
            lemma_token_miss(s, p, crate::sieve_lex::spec_kw_not(), 0);
            lemma_token_miss(s, p, crate::sieve_lex::spec_kw_header(), 0);
            let kw = crate::sieve_lex::spec_kw_address();
            let quals = spec_print_match(match_type) + spec_print_comparator(comparator)
                + spec_print_addr_part(address_part);
            let ns = spec_print_strings(header_list);
            let ks = spec_print_strings(key_list);
            assert(pr =~= kw + (seq![32u8] + (quals + (ns + seq![32u8] + ks))));
            lemma_lit_at_split(s, p, kw, seq![32u8] + (quals + (ns + seq![32u8] + ks)));
            lemma_lit_at_split(s, p + kw.len(), seq![32u8], quals + (ns + seq![32u8] + ks));
            lemma_lit_at_index(s, p + kw.len(), seq![32u8], 0);
            let p1 = p + kw.len() + 1;
            lemma_lit_at_split(s, p1, quals, ns + seq![32u8] + ks);
            let p2 = p1 + quals.len();
            lemma_lit_at_index(s, p2, ns + seq![32u8] + ks, 0);
            if quals.len() > 0 {
                lemma_lit_at_index(s, p1, quals, 0);
            }
            lemma_token_hit(s, p, kw);
            assert(sep_end(s, p + kw.len()) == p1);
            lemma_addr_quals_rt(s, p1, match_type, comparator, address_part);
            lemma_two_lists_rt(s, p2, header_list, key_list);
        },
        _ => {},
    }
}

/// A rule the writer can carry: no bare block, and carryable tests
/// and bodies throughout.
pub open spec fn wf_rule(r: SpecRule) -> bool
    decreases r, 0nat,
{
    match r {
        SpecRule::Stop => true,
        SpecRule::Keep => true,
        SpecRule::Discard => true,
        SpecRule::Block(_) => false,
        SpecRule::If { condition, elsif, else_ } => {
            &&& wf_cond(condition.0)
            &&& wf_rules(condition.1)
            &&& match elsif {
                None => true,
                Some(e) => wf_cond(e.0) && wf_rules(e.1),
            }
            &&& match else_ {
                None => true,
                Some(b) => wf_rules(b),
            }
        },
    }
}

/// Every rule of a list is carryable.
pub open spec fn wf_rules(rs: Seq<SpecRule>) -> bool
    decreases rs, 1nat,
{
    forall|i: int| 0 <= i < rs.len() ==> wf_rule(#[trigger] rs[i])
}

/// What may stand after a rule list: the end of the input or the
/// closing brace of its block.
pub open spec fn rules_stop(s: Seq<u8>, q: int) -> bool {
    q == s.len() || (0 <= q < s.len() && s[q] == 125)
}

/// What may stand where one printed rule ends: the end, a closing
/// brace, or the first letter of the next rule.
pub open spec fn rule_follow(s: Seq<u8>, q: int) -> bool {
    q == s.len() || (0 <= q < s.len() && (s[q] == 125 || s[q] == 115 || s[q] == 107 || s[q] == 100
        || s[q] == 105))
}

/// No rule parses at the end of the input or at a closing brace.
proof fn lemma_rule_none(s: Seq<u8>, p: int)
    requires
        halts_eat(s, p),
        rules_stop(s, p),
    ensures
        crate::sieve::spec_rule(s, p) is None,
{
    lemma_token_miss(s, p, crate::sieve_lex::spec_kw_stop(), 0);
    lemma_token_miss(s, p, crate::sieve_lex::spec_kw_keep(), 0);
    lemma_token_miss(s, p, crate::sieve_lex::spec_kw_discard(), 0);
    lemma_token_miss(s, p, crate::sieve_lex::spec_kw_if(), 0);
}

/// A printed action rule (`stop;`, `keep;`, `discard;`) re-parses.
#[verifier::rlimit(100)]
#[verifier::spinoff_prover]
proof fn lemma_rule_rt_action(s: Seq<u8>, p: int, r: SpecRule)
    requires
        r is Stop || r is Keep || r is Discard,
        lit_at(s, p, spec_print_rule(r)),
        sep_at(s, p + spec_print_rule(r).len()),
    ensures
        ({
            let e = sep_end(s, p + spec_print_rule(r).len());
            &&& crate::sieve::spec_rule(s, p) == Some((r, e))
            &&& halts_eat(s, e)
            &&& p < e <= s.len()
        }),
    decreases r, 3nat,
{
    let pr = spec_print_rule(r);
    lemma_lit_at_index(s, p, pr, 0);
    lemma_eat_halt(s, p);
    let kw = if r is Stop {
        crate::sieve_lex::spec_kw_stop()
    } else if r is Keep {
        crate::sieve_lex::spec_kw_keep()
    } else {
        crate::sieve_lex::spec_kw_discard()
    };
    assert(pr =~= kw + crate::sieve_lex::spec_kw_semicolon());
    lemma_lit_at_split(s, p, kw, crate::sieve_lex::spec_kw_semicolon());
    lemma_lit_at_index(s, p + kw.len(), crate::sieve_lex::spec_kw_semicolon(), 0);
    if r is Keep {
        lemma_token_miss(s, p, crate::sieve_lex::spec_kw_stop(), 0);
    }
    if r is Discard {
        lemma_token_miss(s, p, crate::sieve_lex::spec_kw_stop(), 0);
        lemma_token_miss(s, p, crate::sieve_lex::spec_kw_keep(), 0);
    }
    lemma_token_hit(s, p, kw);
    assert(sep_end(s, p + kw.len()) == p + kw.len());
    lemma_token_hit(s, p + kw.len(), crate::sieve_lex::spec_kw_semicolon());
}

/// The bare part of a printed `if` rule: everything except the
/// optional `else` arm.
pub open spec fn spec_print_if_bare(r: SpecRule) -> Seq<u8> {
    match r {
        SpecRule::If { condition, elsif, else_ } => crate::sieve_lex::spec_kw_if() + seq![32u8]
            + spec_print_cond(condition.0) + seq![32u8] + spec_print_block(condition.1) + (match elsif {
            None => Seq::<u8>::empty(),
            Some(e) => seq![32u8] + crate::sieve_lex::spec_kw_elsif() + seq![32u8]
                + spec_print_cond(e.0) + seq![32u8] + spec_print_block(e.1),
        }),
        _ => Seq::empty(),
    }
}

/// What may stand after a printed bare `if`: the next rule or block
/// end, or the `else` keyword one space away.
pub open spec fn after_bare(s: Seq<u8>, q: int) -> bool {
    rule_follow(s, q) || (0 <= q && q + crate::sieve_lex::spec_kw_else().len() <= s.len() && lit_at(
        s,
        q,
        crate::sieve_lex::spec_kw_else(),
    ))
}

/// The head of a printed `if`: the keyword, the guarding test, and
/// its block, re-parsed piece by piece.
#[verifier::rlimit(100)]
#[verifier::spinoff_prover]
proof fn lemma_if_head_rt(s: Seq<u8>, p: int, r: SpecRule)
    requires
        r is If,
        wf_rule(r),
        ({
            let kw = crate::sieve_lex::spec_kw_if();
            let pc = spec_print_cond((r->If_condition).0);
            let pb = spec_print_block((r->If_condition).1);
            &&& lit_at(s, p, kw + seq![32u8] + pc + seq![32u8] + pb)
            &&& sep_at(s, p + kw.len() + 1 + pc.len() + 1 + pb.len())
        }),
    ensures
        ({
            let kw = crate::sieve_lex::spec_kw_if();
            let pc = spec_print_cond((r->If_condition).0);
            let pb = spec_print_block((r->If_condition).1);
            let p1 = p + kw.len() + 1;
            let p3 = p1 + pc.len() + 1;
            let p4 = p3 + pb.len();
            let e = sep_end(s, p4);
            &&& crate::sieve_lex::spec_token(s, p, kw) == Some(p1)
            &&& crate::sieve::spec_test(s, p1) == Some(((r->If_condition).0, p3))
            &&& crate::sieve::spec_block(s, p3) == Some(((r->If_condition).1, e))
            &&& halts_eat(s, e)
            &&& p < e <= s.len()
        }),
    decreases r, 0nat,
{
    let kw = crate::sieve_lex::spec_kw_if();
    let pc = spec_print_cond((r->If_condition).0);
    let pb = spec_print_block((r->If_condition).1);
    let whole = kw + seq![32u8] + pc + seq![32u8] + pb;
    lemma_lit_at_index(s, p, whole, 0);
    lemma_eat_halt(s, p);
    assert(whole =~= kw + (seq![32u8] + (pc + (seq![32u8] + pb))));
    lemma_lit_at_split(s, p, kw, seq![32u8] + (pc + (seq![32u8] + pb)));
    lemma_lit_at_split(s, p + kw.len(), seq![32u8], pc + (seq![32u8] + pb));
    lemma_lit_at_index(s, p + kw.len(), seq![32u8], 0);
    let p1 = p + kw.len() + 1;
    lemma_lit_at_split(s, p1, pc, seq![32u8] + pb);
    let p2 = p1 + pc.len();
    lemma_lit_at_split(s, p2, seq![32u8], pb);
    lemma_lit_at_index(s, p2, seq![32u8], 0);
    let p3 = p2 + 1;
    lemma_lit_at_index(s, p1, pc, 0);
    lemma_lit_at_index(s, p3, pb, 0);
    lemma_token_hit(s, p, kw);
    assert(sep_end(s, p + kw.len()) == p1);
    assert(cond_follow(s, p2)) by {
        assert(s[p2] == 32 && s[p2 + 1] == 123);
    }
    lemma_cond_rt(s, p1, (r->If_condition).0);
    assert(sep_end(s, p2) == p3);
    lemma_block_rt(s, p3, (r->If_condition).1);
}

/// A printed bare `if` re-parses to the rule without its `else` arm.
#[verifier::rlimit(100)]
#[verifier::spinoff_prover]
proof fn lemma_if_bare_rt_none(s: Seq<u8>, p: int, r: SpecRule)
    requires
        r matches SpecRule::If { elsif: None, .. },
        wf_rule(r),
        lit_at(s, p, spec_print_if_bare(r)),
        sep_at(s, p + spec_print_if_bare(r).len()),
        after_bare(s, sep_end(s, p + spec_print_if_bare(r).len())),
    ensures
        ({
            let e = sep_end(s, p + spec_print_if_bare(r).len());
            &&& (r matches SpecRule::If { condition, elsif, else_ }
                && crate::sieve::spec_if_bare(s, p) == Some(
                (SpecRule::If { condition, elsif, else_: None }, e),
            ))
            &&& halts_eat(s, e)
            &&& p < e <= s.len()
        }),
    decreases r, 1nat,
{
    let pr = spec_print_if_bare(r);
    match r {
        SpecRule::If { condition, elsif: None, else_ } => {
            let kw = crate::sieve_lex::spec_kw_if();
            let pc = spec_print_cond(condition.0);
            let pb = spec_print_block(condition.1);
            assert(pr =~= kw + seq![32u8] + pc + seq![32u8] + pb);
            let p4 = p + pr.len();
            lemma_if_head_rt(s, p, r);
            let p5 = sep_end(s, p4);
            // no elsif follows: the token misses at what comes next
            if rule_follow(s, p5) {
                lemma_token_miss(s, p5, crate::sieve_lex::spec_kw_elsif(), 0);
            } else {
                lemma_lit_at_index(s, p5, crate::sieve_lex::spec_kw_else(), 3);
                lemma_token_miss(s, p5, crate::sieve_lex::spec_kw_elsif(), 3);
            }
        },
        _ => {},
    }
}

/// A printed bare `if` with an `elsif` arm re-parses whole.
#[verifier::rlimit(100)]
#[verifier::spinoff_prover]
proof fn lemma_if_bare_rt_some(s: Seq<u8>, p: int, r: SpecRule)
    requires
        r matches SpecRule::If { elsif: Some(_), .. },
        wf_rule(r),
        lit_at(s, p, spec_print_if_bare(r)),
        sep_at(s, p + spec_print_if_bare(r).len()),
        after_bare(s, sep_end(s, p + spec_print_if_bare(r).len())),
    ensures
        ({
            let e = sep_end(s, p + spec_print_if_bare(r).len());
            &&& (r matches SpecRule::If { condition, elsif, else_ }
                && crate::sieve::spec_if_bare(s, p) == Some(
                (SpecRule::If { condition, elsif, else_: None }, e),
            ))
            &&& halts_eat(s, e)
            &&& p < e <= s.len()
        }),
    decreases r, 1nat,
{
    let pr = spec_print_if_bare(r);
    match r {
        SpecRule::If { condition, elsif: Some(earm), else_ } => {
            let kw = crate::sieve_lex::spec_kw_if();
            let pc = spec_print_cond(condition.0);
            let pb = spec_print_block(condition.1);
            let head = kw + seq![32u8] + pc + seq![32u8] + pb;
            let kwei = crate::sieve_lex::spec_kw_elsif();
            let parm = kwei + seq![32u8] + spec_print_cond(earm.0) + seq![32u8]
                + spec_print_block(earm.1);
            assert(pr =~= head + (seq![32u8] + parm));
            lemma_lit_at_split(s, p, head, seq![32u8] + parm);
            let p4 = p + head.len();
            lemma_lit_at_split(s, p4, seq![32u8], parm);
            lemma_lit_at_index(s, p4, seq![32u8], 0);
            let p5 = p4 + 1;
            lemma_lit_at_index(s, p5, parm, 0);
            assert(s[p4] == 32 && s[p5] == 101);
            lemma_eat_sep(s, p4);
            assert(sep_end(s, p4) == p5);
            lemma_if_head_rt(s, p, r);
            lemma_elsif_arm_rt(s, p5, r);
        },
        _ => {},
    }
}

/// A printed bare `if` re-parses to the rule without its `else` arm.
proof fn lemma_if_bare_rt(s: Seq<u8>, p: int, r: SpecRule)
    requires
        r is If,
        wf_rule(r),
        lit_at(s, p, spec_print_if_bare(r)),
        sep_at(s, p + spec_print_if_bare(r).len()),
        after_bare(s, sep_end(s, p + spec_print_if_bare(r).len())),
    ensures
        ({
            let e = sep_end(s, p + spec_print_if_bare(r).len());
            &&& (r matches SpecRule::If { condition, elsif, else_ }
                && crate::sieve::spec_if_bare(s, p) == Some(
                (SpecRule::If { condition, elsif, else_: None }, e),
            ))
            &&& halts_eat(s, e)
            &&& p < e <= s.len()
        }),
    decreases r, 2nat,
{
    match r {
        SpecRule::If { elsif: None, .. } => {
            lemma_if_bare_rt_none(s, p, r);
        },
        _ => {
            lemma_if_bare_rt_some(s, p, r);
        },
    }
}

/// A printed `if` rule re-parses, optional arms included.
#[verifier::rlimit(100)]
#[verifier::spinoff_prover]
proof fn lemma_rule_rt_if_noelse(s: Seq<u8>, p: int, r: SpecRule)
    requires
        r matches SpecRule::If { else_: None, .. },
        wf_rule(r),
        lit_at(s, p, spec_print_rule(r)),
        sep_at(s, p + spec_print_rule(r).len()),
        rule_follow(s, sep_end(s, p + spec_print_rule(r).len())),
    ensures
        ({
            let e = sep_end(s, p + spec_print_rule(r).len());
            &&& crate::sieve::spec_rule(s, p) == Some((r, e))
            &&& halts_eat(s, e)
            &&& p < e <= s.len()
        }),
    decreases r, 4nat,
{
    let pr = spec_print_rule(r);
    lemma_lit_at_index(s, p, pr, 0);
    lemma_eat_halt(s, p);
    lemma_eat_sep(s, p + pr.len());
    match r {
        SpecRule::If { condition, elsif, else_ } => {
            let bare = spec_print_if_bare(r);
            let pelse = match else_ {
                None => Seq::<u8>::empty(),
                Some(b) => seq![32u8] + crate::sieve_lex::spec_kw_else() + seq![32u8]
                    + spec_print_block(b),
            };
            assert(pr =~= bare + pelse);
            lemma_lit_at_split(s, p, bare, pelse);
            let p4 = p + bare.len();
            let p5 = sep_end(s, p4);
            match else_ {
                None => {
                    assert(pelse =~= Seq::<u8>::empty());
                },
                Some(b) => {
                    lemma_lit_at_index(s, p4, pelse, 0);
                    lemma_lit_at_index(s, p4, pelse, 1);
                    assert(pelse =~= seq![32u8] + (crate::sieve_lex::spec_kw_else() + (seq![
                        32u8,
                    ] + spec_print_block(b))));
                    lemma_lit_at_split(s, p4, seq![32u8], crate::sieve_lex::spec_kw_else() + (seq![
                        32u8,
                    ] + spec_print_block(b)));
                    lemma_lit_at_split(
                        s,
                        p4 + 1,
                        crate::sieve_lex::spec_kw_else(),
                        seq![32u8] + spec_print_block(b),
                    );
                    assert(s[p4] == 32);
                },
            }
            lemma_eat_sep(s, p4);
            assert(after_bare(s, sep_end(s, p4)));
            lemma_if_bare_rt(s, p, r);
            match else_ {
                None => {
                    assert(p5 == sep_end(s, p + pr.len()));
                    lemma_token_miss(s, p5, crate::sieve_lex::spec_kw_else(), 0);
                },
                Some(b) => {
                    assert(p5 == p4 + 1);
                    let kwe = crate::sieve_lex::spec_kw_else();
                    assert(pelse =~= seq![32u8] + (kwe + (seq![32u8] + spec_print_block(b))));
                    lemma_lit_at_split(s, p4, seq![32u8], kwe + (seq![32u8] + spec_print_block(
                        b,
                    )));
                    lemma_lit_at_split(s, p5, kwe, seq![32u8] + spec_print_block(b));
                    lemma_lit_at_split(s, p5 + kwe.len(), seq![32u8], spec_print_block(b));
                    lemma_lit_at_index(s, p5 + kwe.len(), seq![32u8], 0);
                    let p6 = p5 + kwe.len() + 1;
                    lemma_lit_at_index(s, p6, spec_print_block(b), 0);
                    lemma_token_hit(s, p5, kwe);
                    assert(sep_end(s, p5 + kwe.len()) == p6);
                    lemma_block_rt(s, p6, b);
                    assert(crate::sieve::spec_with_else(
                        SpecRule::If { condition, elsif, else_: None },
                        b,
                    ) == r);
                },
            }
            lemma_token_miss(s, p, crate::sieve_lex::spec_kw_stop(), 0);
            lemma_token_miss(s, p, crate::sieve_lex::spec_kw_keep(), 0);
            lemma_token_miss(s, p, crate::sieve_lex::spec_kw_discard(), 0);
        },
        _ => {},
    }
}


/// A printed `if` with an `else` arm re-parses at the `if` level.
#[verifier::rlimit(100)]
#[verifier::spinoff_prover]
proof fn lemma_if_rt_else(s: Seq<u8>, p: int, r: SpecRule)
    requires
        r matches SpecRule::If { else_: Some(_), .. },
        wf_rule(r),
        lit_at(s, p, spec_print_rule(r)),
        sep_at(s, p + spec_print_rule(r).len()),
        rule_follow(s, sep_end(s, p + spec_print_rule(r).len())),
    ensures
        ({
            let e = sep_end(s, p + spec_print_rule(r).len());
            &&& crate::sieve::spec_if(s, p) == Some((r, e))
            &&& halts_eat(s, e)
            &&& p < e <= s.len()
        }),
    decreases r, 3nat,
{
    let pr = spec_print_rule(r);
    lemma_lit_at_index(s, p, pr, 0);
    lemma_eat_halt(s, p);
    lemma_eat_sep(s, p + pr.len());
    match r {
        SpecRule::If { condition, elsif, else_: Some(b) } => {
            let bare = spec_print_if_bare(r);
            let kwe = crate::sieve_lex::spec_kw_else();
            let pelse = seq![32u8] + kwe + seq![32u8] + spec_print_block(b);
            assert(pr =~= bare + pelse);
            lemma_lit_at_split(s, p, bare, pelse);
            let p4 = p + bare.len();
            lemma_lit_at_index(s, p4, pelse, 0);
            assert(pelse =~= seq![32u8] + (kwe + seq![32u8] + spec_print_block(b)));
            lemma_lit_at_split(s, p4, seq![32u8], kwe + seq![32u8] + spec_print_block(b));
            assert(s[p4] == 32);
            let p5 = p4 + 1;
            assert(kwe + seq![32u8] + spec_print_block(b) =~= kwe + (seq![32u8]
                + spec_print_block(b)));
            lemma_lit_at_split(s, p5, kwe, seq![32u8] + spec_print_block(b));
            lemma_lit_at_index(s, p5, kwe, 0);
            assert(s[p5] == 101);
            lemma_eat_sep(s, p4);
            assert(sep_end(s, p4) == p5);
            assert(after_bare(s, p5));
            lemma_if_bare_rt(s, p, r);
            lemma_else_arm_rt(s, p5, r);
            assert(crate::sieve::spec_with_else(
                SpecRule::If { condition, elsif, else_: None },
                b,
            ) == r);
        },
        _ => {},
    }
}

/// A printed `if` rule with an `else` arm re-parses.
#[verifier::rlimit(100)]
#[verifier::spinoff_prover]
proof fn lemma_rule_rt_if_else(s: Seq<u8>, p: int, r: SpecRule)
    requires
        r matches SpecRule::If { else_: Some(_), .. },
        wf_rule(r),
        lit_at(s, p, spec_print_rule(r)),
        sep_at(s, p + spec_print_rule(r).len()),
        rule_follow(s, sep_end(s, p + spec_print_rule(r).len())),
    ensures
        ({
            let e = sep_end(s, p + spec_print_rule(r).len());
            &&& crate::sieve::spec_rule(s, p) == Some((r, e))
            &&& halts_eat(s, e)
            &&& p < e <= s.len()
        }),
    decreases r, 4nat,
{
    let pr = spec_print_rule(r);
    lemma_lit_at_index(s, p, pr, 0);
    lemma_eat_halt(s, p);
    lemma_if_rt_else(s, p, r);
    lemma_token_miss(s, p, crate::sieve_lex::spec_kw_stop(), 0);
    lemma_token_miss(s, p, crate::sieve_lex::spec_kw_keep(), 0);
    lemma_token_miss(s, p, crate::sieve_lex::spec_kw_discard(), 0);
}


/// A printed `if` rule re-parses, optional arms included.
proof fn lemma_rule_rt_if(s: Seq<u8>, p: int, r: SpecRule)
    requires
        r is If,
        wf_rule(r),
        lit_at(s, p, spec_print_rule(r)),
        sep_at(s, p + spec_print_rule(r).len()),
        rule_follow(s, sep_end(s, p + spec_print_rule(r).len())),
    ensures
        ({
            let e = sep_end(s, p + spec_print_rule(r).len());
            &&& crate::sieve::spec_rule(s, p) == Some((r, e))
            &&& halts_eat(s, e)
            &&& p < e <= s.len()
        }),
    decreases r, 5nat,
{
    match r {
        SpecRule::If { else_: None, .. } => {
            lemma_rule_rt_if_noelse(s, p, r);
        },
        _ => {
            lemma_rule_rt_if_else(s, p, r);
        },
    }
}

/// A printed rule re-parses to itself.
pub proof fn lemma_rule_rt(s: Seq<u8>, p: int, r: SpecRule)
    requires
        wf_rule(r),
        lit_at(s, p, spec_print_rule(r)),
        sep_at(s, p + spec_print_rule(r).len()),
        rule_follow(s, sep_end(s, p + spec_print_rule(r).len())),
    ensures
        ({
            let e = sep_end(s, p + spec_print_rule(r).len());
            &&& crate::sieve::spec_rule(s, p) == Some((r, e))
            &&& halts_eat(s, e)
            &&& p < e <= s.len()
        }),
    decreases r, 6nat,
{
    if r is If {
        lemma_rule_rt_if(s, p, r);
    } else {
        lemma_rule_rt_action(s, p, r);
    }
}

/// A printed rule list re-parses to itself, stopping at the end of the
/// input or at the closing brace of its block.
#[verifier::rlimit(100)]
#[verifier::spinoff_prover]
pub proof fn lemma_rules_rt(s: Seq<u8>, p: int, rs: Seq<SpecRule>)
    requires
        wf_rules(rs),
        halts_eat(s, p),
        lit_at(s, p, spec_print_rules(rs)),
        rules_stop(s, p + spec_print_rules(rs).len()),
    ensures
        crate::sieve::spec_rules(s, p) == (rs, p + spec_print_rules(rs).len()),
        halts_eat(s, p + spec_print_rules(rs).len()),
    decreases rs, 7nat,
{
    let pr = spec_print_rules(rs);
    if rs.len() == 0 {
        assert(pr =~= Seq::<u8>::empty());
        lemma_rule_none(s, p);
    } else {
        let tail = rs.subrange(1, rs.len() as int);
        let p0 = spec_print_rule(rs[0]);
        let pt = spec_print_rules(tail);
        assert(pr =~= p0 + (seq![32u8] + pt));
        lemma_lit_at_split(s, p, p0, seq![32u8] + pt);
        lemma_lit_at_split(s, p + p0.len(), seq![32u8], pt);
        lemma_lit_at_index(s, p + p0.len(), seq![32u8], 0);
        let q = p + p0.len() + 1;
        if pt.len() > 0 {
            lemma_lit_at_index(s, q, pt, 0);
            assert(spec_print_rules(tail)[0] == spec_print_rule(tail[0])[0] || pt.len() == 0) by {
                assert(pt =~= spec_print_rule(tail[0]) + (seq![32u8] + spec_print_rules(
                    tail.subrange(1, tail.len() as int),
                )));
                lemma_print_rule_first(tail[0]);
            }
        }
        assert(wf_rule(rs[0]));
        assert(rule_follow(s, sep_end(s, p + p0.len()))) by {
            assert(sep_end(s, p + p0.len()) == q);
            if pt.len() > 0 {
                lemma_print_rule_first(tail[0]);
                assert(pt[0] == spec_print_rule(tail[0])[0]);
            }
        }
        lemma_rule_rt(s, p, rs[0]);
        assert(sep_end(s, p + p0.len()) == q);
        assert(wf_rules(tail)) by {
            assert(forall|i: int| 0 <= i < tail.len() ==> tail[i] == #[trigger] rs[i + 1]);
        }
        lemma_rules_rt(s, q, tail);
        assert(seq![rs[0]] + tail =~= rs);
    }
}

/// A printed rule starts with one of the four rule keywords' first
/// letters.
proof fn lemma_print_rule_first(r: SpecRule)
    requires
        wf_rule(r),
    ensures
        spec_print_rule(r).len() > 0,
        spec_print_rule(r)[0] == 115 || spec_print_rule(r)[0] == 107 || spec_print_rule(r)[0]
            == 100 || spec_print_rule(r)[0] == 105,
{
}

/// A printed block re-parses to its rules.
#[verifier::rlimit(100)]
#[verifier::spinoff_prover]
pub proof fn lemma_block_rt(s: Seq<u8>, p: int, rs: Seq<SpecRule>)
    requires
        wf_rules(rs),
        lit_at(s, p, spec_print_block(rs)),
        sep_at(s, p + spec_print_block(rs).len()),
    ensures
        ({
            let e = sep_end(s, p + spec_print_block(rs).len());
            &&& crate::sieve::spec_block(s, p) == Some((rs, e))
            &&& halts_eat(s, e)
            &&& p < e <= s.len()
        }),
    decreases rs, 8nat,
{
    let body = spec_print_rules(rs);
    let pr = spec_print_block(rs);
    assert(pr =~= seq![123u8] + (seq![32u8] + (body + seq![125u8])));
    lemma_lit_at_split(s, p, seq![123u8], seq![32u8] + (body + seq![125u8]));
    lemma_lit_at_split(s, p + 1, seq![32u8], body + seq![125u8]);
    lemma_lit_at_index(s, p, seq![123u8], 0);
    lemma_lit_at_index(s, p + 1, seq![32u8], 0);
    let p2 = p + 2;
    lemma_lit_at_split(s, p2, body, seq![125u8]);
    lemma_lit_at_index(s, p2 + body.len(), seq![125u8], 0);
    lemma_eat_halt(s, p);
    assert(seq![123u8] =~= crate::sieve_lex::spec_kw_lbrace());
    assert(s.subrange(p, p + 1) =~= seq![123u8]);
    if body.len() > 0 {
        lemma_lit_at_index(s, p2, body, 0);
    }
    lemma_token_hit(s, p, crate::sieve_lex::spec_kw_lbrace());
    assert(sep_end(s, p + 1) == p2);
    lemma_rules_rt(s, p2, rs);
    assert(seq![125u8] =~= crate::sieve_lex::spec_kw_rbrace());
    assert(s.subrange(p2 + body.len(), p2 + body.len() + 1) =~= seq![125u8]);
    lemma_token_hit(s, p2 + body.len(), crate::sieve_lex::spec_kw_rbrace());
}

/// What a sieve writer prints, a sieve parser reads back: re-parsing a
/// printed rule list gives exactly the same rules, consuming the whole
/// text.
pub proof fn lemma_sieve_print_parse(rs: Seq<SpecRule>)
    requires
        wf_rules(rs),
    ensures
        crate::sieve::spec_parse_sieve(spec_print_rules(rs), 0) == (
            rs,
            spec_print_rules(rs).len() as int,
        ),
{
    let s = spec_print_rules(rs);
    assert(s.subrange(0, s.len() as int) =~= s);
    if rs.len() == 0 {
        assert(s =~= Seq::<u8>::empty());
        assert(crate::sieve_lex::spec_eat(s, 0) == 0);
        lemma_rule_none(s, 0);
    } else {
        assert(s =~= spec_print_rule(rs[0]) + (seq![32u8] + spec_print_rules(
            rs.subrange(1, rs.len() as int),
        )));
        lemma_print_rule_first(rs[0]);
        assert(s[0] == (spec_print_rule(rs[0]) + (seq![32u8] + spec_print_rules(
            rs.subrange(1, rs.len() as int),
        )))[0]);
        lemma_eat_halt(s, 0);
        lemma_rules_rt(s, 0, rs);
    }
}

/// The `elsif` arm of a printed `if` re-parses piece by piece.
#[verifier::rlimit(100)]
#[verifier::spinoff_prover]
proof fn lemma_elsif_arm_rt(s: Seq<u8>, q: int, r: SpecRule)
    requires
        r matches SpecRule::If { elsif: Some(_), .. },
        wf_rule(r),
        ({
            let earm = (r->If_elsif)->Some_0;
            let kwei = crate::sieve_lex::spec_kw_elsif();
            let pec = spec_print_cond(earm.0);
            let peb = spec_print_block(earm.1);
            &&& halts_eat(s, q)
            &&& lit_at(s, q, kwei + seq![32u8] + pec + seq![32u8] + peb)
            &&& sep_at(s, q + kwei.len() + 1 + pec.len() + 1 + peb.len())
        }),
    ensures
        ({
            let earm = (r->If_elsif)->Some_0;
            let kwei = crate::sieve_lex::spec_kw_elsif();
            let pec = spec_print_cond(earm.0);
            let peb = spec_print_block(earm.1);
            let p6 = q + kwei.len() + 1;
            let p7 = p6 + pec.len();
            let p8 = p7 + 1;
            let p9 = p8 + peb.len();
            let e = sep_end(s, p9);
            &&& crate::sieve_lex::spec_token(s, q, kwei) == Some(p6)
            &&& crate::sieve::spec_test(s, p6) == Some((earm.0, p8))
            &&& crate::sieve::spec_block(s, p8) == Some((earm.1, e))
            &&& halts_eat(s, e)
            &&& q < e <= s.len()
        }),
    decreases r, 0nat,
{
    let earm = (r->If_elsif)->Some_0;
    let kwei = crate::sieve_lex::spec_kw_elsif();
    let pec = spec_print_cond(earm.0);
    let peb = spec_print_block(earm.1);
    let whole = kwei + seq![32u8] + pec + seq![32u8] + peb;
    assert(whole =~= kwei + (seq![32u8] + (pec + (seq![32u8] + peb))));
    lemma_lit_at_split(s, q, kwei, seq![32u8] + (pec + (seq![32u8] + peb)));
    lemma_lit_at_split(s, q + kwei.len(), seq![32u8], pec + (seq![32u8] + peb));
    lemma_lit_at_index(s, q + kwei.len(), seq![32u8], 0);
    let p6 = q + kwei.len() + 1;
    lemma_lit_at_split(s, p6, pec, seq![32u8] + peb);
    let p7 = p6 + pec.len();
    lemma_lit_at_split(s, p7, seq![32u8], peb);
    lemma_lit_at_index(s, p7, seq![32u8], 0);
    let p8 = p7 + 1;
    lemma_lit_at_index(s, p6, pec, 0);
    lemma_lit_at_index(s, p8, peb, 0);
    lemma_token_hit(s, q, kwei);
    assert(sep_end(s, q + kwei.len()) == p6);
    assert(cond_follow(s, p7)) by {
        assert(s[p7] == 32 && s[p7 + 1] == 123);
    }
    lemma_cond_rt(s, p6, earm.0);
    assert(sep_end(s, p7) == p8);
    lemma_block_rt(s, p8, earm.1);
}

/// The `else` arm of a printed `if` re-parses piece by piece.
#[verifier::rlimit(100)]
#[verifier::spinoff_prover]
proof fn lemma_else_arm_rt(s: Seq<u8>, q: int, r: SpecRule)
    requires
        r matches SpecRule::If { else_: Some(_), .. },
        wf_rule(r),
        ({
            let b = (r->If_else_)->Some_0;
            let kwe = crate::sieve_lex::spec_kw_else();
            &&& halts_eat(s, q)
            &&& lit_at(s, q, kwe + seq![32u8] + spec_print_block(b))
            &&& sep_at(s, q + kwe.len() + 1 + spec_print_block(b).len())
        }),
    ensures
        ({
            let b = (r->If_else_)->Some_0;
            let kwe = crate::sieve_lex::spec_kw_else();
            let p6 = q + kwe.len() + 1;
            let p9 = p6 + spec_print_block(b).len();
            let e = sep_end(s, p9);
            &&& crate::sieve_lex::spec_token(s, q, kwe) == Some(p6)
            &&& crate::sieve::spec_block(s, p6) == Some((b, e))
            &&& halts_eat(s, e)
            &&& q < e <= s.len()
        }),
    decreases r, 0nat,
{
    let b = (r->If_else_)->Some_0;
    let kwe = crate::sieve_lex::spec_kw_else();
    let pb = spec_print_block(b);
    assert(kwe + seq![32u8] + pb =~= kwe + (seq![32u8] + pb));
    lemma_lit_at_split(s, q, kwe, seq![32u8] + pb);
    lemma_lit_at_split(s, q + kwe.len(), seq![32u8], pb);
    lemma_lit_at_index(s, q + kwe.len(), seq![32u8], 0);
    let p6 = q + kwe.len() + 1;
    lemma_lit_at_index(s, p6, pb, 0);
    lemma_token_hit(s, q, kwe);
    assert(sep_end(s, q + kwe.len()) == p6);
    lemma_block_rt(s, p6, b);
}

/// Escaping one more byte appends its escaped form.
proof fn lemma_escape_snoc(v: Seq<u8>, b: u8)
    ensures
        spec_escape(v.push(b)) == spec_escape(v) + (if b == 34 || b == 92 {
            seq![92u8, b]
        } else {
            seq![b]
        }),
    decreases v.len(),
{
    if v.len() == 0 {
        assert(v.push(b) =~= seq![b]);
        assert(seq![b].subrange(1, 1) =~= Seq::<u8>::empty());
        assert(spec_escape(Seq::<u8>::empty()) =~= Seq::<u8>::empty());
        if b == 34 || b == 92 {
            assert(spec_escape(v.push(b)) =~= seq![92u8, b]);
            assert(spec_escape(v) + seq![92u8, b] =~= seq![92u8, b]);
        } else {
            assert(spec_escape(v.push(b)) =~= seq![b]);
            assert(spec_escape(v) + seq![b] =~= seq![b]);
        }
    } else {
        assert(v.push(b)[0] == v[0]);
        assert(v.push(b).subrange(1, v.push(b).len() as int) =~= v.subrange(
            1,
            v.len() as int,
        ).push(b));
        lemma_escape_snoc(v.subrange(1, v.len() as int), b);
        if v[0] == 34 || v[0] == 92 {
            assert(spec_escape(v.push(b)) =~= spec_escape(v) + (if b == 34 || b == 92 {
                seq![92u8, b]
            } else {
                seq![b]
            }));
        } else {
            assert(spec_escape(v.push(b)) =~= spec_escape(v) + (if b == 34 || b == 92 {
                seq![92u8, b]
            } else {
                seq![b]
            }));
        }
    }
}

/// Append a quoted, escaped string.
#[verifier::loop_isolation(false)]
fn print_string_into(out: &mut Vec<u8>, v: &Vec<u8>)
    ensures
        final(out)@ == old(out)@ + spec_print_string(v@),
{
    let ghost base = out@;
    out.push(34u8);
    let n = v.len();
    let mut i: usize = 0;
    while i < n
        invariant
            i <= n,
            out@ == base + seq![34u8] + spec_escape(v@.subrange(0, i as int)),
        decreases n - i,
    {
        let b = v[i];
        proof {
            assert(v@.subrange(0, (i + 1) as int) =~= v@.subrange(0, i as int).push(b));
            lemma_escape_snoc(v@.subrange(0, i as int), b);
        }
        if b == 34 || b == 92 {
            out.push(92u8);
            out.push(b);
        } else {
            out.push(b);
        }
        proof {
            assert(out@ =~= base + seq![34u8] + spec_escape(v@.subrange(0, (i + 1) as int)));
        }
        i = i + 1;
    }
    out.push(34u8);
    proof {
        assert(v@.subrange(0, v@.len() as int) =~= v@);
        assert(out@ =~= base + spec_print_string(v@));
    }
}

/// Append a bracketed string list.
#[verifier::loop_isolation(false)]
fn print_strings_into(out: &mut Vec<u8>, l: &Vec<Vec<u8>>)
    ensures
        final(out)@ == old(out)@ + spec_print_strings(l.deep_view()),
{
    let ghost base = out@;
    let ghost g = l.deep_view();
    proof {
        assert(forall|i: int| 0 <= i < l@.len() ==> g[i] == #[trigger] l@[i]@);
    }
    out.push(91u8);
    if l.len() == 0 {
        out.push(93u8);
        proof {
            assert(out@ =~= base + spec_print_strings(g));
        }
        return ;
    }
    print_string_into(out, &l[0]);
    let n = l.len();
    let mut i: usize = 1;
    while i < n
        invariant
            1 <= i <= n,
            n == g.len(),
            out@ + spec_print_strings_tail(g.subrange(i as int, n as int)) + seq![93u8] == base
                + spec_print_strings(g),
        decreases n - i,
    {
        out.push(44u8);
        out.push(32u8);
        print_string_into(out, &l[i]);
        proof {
            assert(spec_print_strings_tail(g.subrange(i as int, n as int)) =~= seq![44u8, 32u8]
                + spec_print_string(g[i as int]) + spec_print_strings_tail(
                g.subrange((i + 1) as int, n as int),
            )) by {
                assert(g.subrange(i as int, n as int)[0] == g[i as int]);
                assert(g.subrange(i as int, n as int).subrange(
                    1,
                    g.subrange(i as int, n as int).len() as int,
                ) =~= g.subrange((i + 1) as int, n as int));
            }
            assert(out@ + spec_print_strings_tail(g.subrange((i + 1) as int, n as int)) + seq![
                93u8,
            ] =~= base + spec_print_strings(g));
        }
        i = i + 1;
    }
    out.push(93u8);
    proof {
        assert(spec_print_strings_tail(g.subrange(n as int, n as int)) =~= Seq::<u8>::empty());
        assert(out@ =~= base + spec_print_strings(g));
    }
}

/// Append the canonical form of one test.
#[verifier::loop_isolation(false)]
#[verifier::rlimit(100)]
#[verifier::spinoff_prover]
fn print_cond_into(out: &mut Vec<u8>, c: &ConditionRule, Ghost(g): Ghost<SpecCondition>)
    requires
        rel_cond(c, g),
    ensures
        final(out)@ == old(out)@ + spec_print_cond(g),
    decreases g, 1nat,
{
    let ghost base = out@;
    match c {
        ConditionRule::Literal(b) => {
            let kw = if *b {
                crate::sieve_lex::kw_true()
            } else {
                crate::sieve_lex::kw_false()
            };
            extend_vec(out, kw.as_slice());
        },
        ConditionRule::Exists(l) => {
            let kw = crate::sieve_lex::kw_exists();
            extend_vec(out, kw.as_slice());
            out.push(32u8);
            print_strings_into(out, l);
            proof {
                assert(out@ =~= base + spec_print_cond(g));
            }
        },
        ConditionRule::Size { operator, limit } => {
            let kw = crate::sieve_lex::kw_size();
            extend_vec(out, kw.as_slice());
            out.push(32u8);
            let kwop = match operator {
                IntegerOperator::Over => crate::sieve_lex::kw_over(),
                IntegerOperator::Under => crate::sieve_lex::kw_under(),
            };
            extend_vec(out, kwop.as_slice());
            out.push(32u8);
            let mut digits = crate::imap::dec_digits(*limit);
            let ghost gd = digits@;
            out.append(&mut digits);
            proof {
                assert(out@ =~= base + spec_print_cond(g));
            }
        },
        ConditionRule::Not(inner) => {
            let kw = crate::sieve_lex::kw_not();
            extend_vec(out, kw.as_slice());
            out.push(32u8);
            let ghost gi = g->Not_0;
            print_cond_into(out, &**inner, Ghost(gi[0]));
            proof {
                assert(out@ =~= base + spec_print_cond(g));
            }
        },
        ConditionRule::Header { .. } => {
            print_header_cond_into(out, c, Ghost(g));
        },
        ConditionRule::Address { .. } => {
            print_address_cond_into(out, c, Ghost(g));
        },
        ConditionRule::AllOf(l) => {
            let kw = crate::sieve_lex::kw_allof();
            extend_vec(out, kw.as_slice());
            out.push(32u8);
            out.push(40u8);
            print_cond_list_into(out, l, Ghost(g->AllOf_0));
            out.push(41u8);
            proof {
                assert(out@ =~= base + spec_print_cond(g));
            }
        },
        ConditionRule::AnyOf(l) => {
            let kw = crate::sieve_lex::kw_anyof();
            extend_vec(out, kw.as_slice());
            out.push(32u8);
            out.push(40u8);
            print_cond_list_into(out, l, Ghost(g->AnyOf_0));
            out.push(41u8);
            proof {
                assert(out@ =~= base + spec_print_cond(g));
            }
        },
        ConditionRule::Date { .. } => {
            // no source syntax; unreachable, since no ghost test relates
            proof {
                assert(false);
            }
        },
    }
}

/// Append a comma-separated test list body.
#[verifier::loop_isolation(false)]
fn print_cond_list_into(out: &mut Vec<u8>, l: &Vec<ConditionRule>, Ghost(g): Ghost<
    Seq<SpecCondition>,
>)
    requires
        crate::sieve::rel_conds(l, g),
    ensures
        final(out)@ == old(out)@ + spec_print_cond_list(g),
    decreases g, 2nat,
{
    let ghost base = out@;
    if l.len() == 0 {
        proof {
            assert(out@ =~= base + spec_print_cond_list(g));
        }
        return ;
    }
    print_cond_into(out, &l[0], Ghost(g[0]));
    let n = l.len();
    let mut i: usize = 1;
    while i < n
        invariant
            1 <= i <= n,
            n == g.len(),
            crate::sieve::rel_conds(l, g),
            out@ + spec_print_cond_tail(g.subrange(i as int, n as int)) == base
                + spec_print_cond_list(g),
        decreases n - i,
    {
        out.push(44u8);
        out.push(32u8);
        print_cond_into(out, &l[i], Ghost(g[i as int]));
        proof {
            assert(spec_print_cond_tail(g.subrange(i as int, n as int)) =~= seq![44u8, 32u8]
                + spec_print_cond(g[i as int]) + spec_print_cond_tail(
                g.subrange((i + 1) as int, n as int),
            )) by {
                assert(g.subrange(i as int, n as int)[0] == g[i as int]);
                assert(g.subrange(i as int, n as int).subrange(
                    1,
                    g.subrange(i as int, n as int).len() as int,
                ) =~= g.subrange((i + 1) as int, n as int));
            }
            assert(out@ + spec_print_cond_tail(g.subrange((i + 1) as int, n as int)) =~= base
                + spec_print_cond_list(g));
        }
        i = i + 1;
    }
    proof {
        assert(spec_print_cond_tail(g.subrange(n as int, n as int)) =~= Seq::<u8>::empty());
        assert(out@ =~= base + spec_print_cond_list(g));
    }
}

/// Append the comparator qualifier, when one is given.
fn print_comparator_into(out: &mut Vec<u8>, c: Option<CharacterOperator>)
    ensures
        final(out)@ == old(out)@ + spec_print_comparator(c),
{
    let ghost base = out@;
    match c {
        None => {
            proof {
                assert(out@ =~= base + spec_print_comparator(c));
            }
        },
        Some(cv) => {
            let kw = crate::sieve_lex::kw_comparator();
            extend_vec(out, kw.as_slice());
            out.push(32u8);
            let name = match cv {
                CharacterOperator::Octet => crate::sieve_lex::kw_i_octet(),
                CharacterOperator::AsciiCasemap => crate::sieve_lex::kw_i_casemap(),
            };
            print_string_into(out, &name);
            out.push(32u8);
            proof {
                assert(out@ =~= base + spec_print_comparator(c));
            }
        },
    }
}

/// Append the match-type qualifier, when one with source syntax is
/// given.
fn print_match_into(out: &mut Vec<u8>, m: Option<MatchOperator>)
    ensures
        final(out)@ == old(out)@ + spec_print_match(m),
{
    let ghost base = out@;
    match m {
        Some(MatchOperator::Is) => {
            let kw = crate::sieve_lex::kw_is();
            extend_vec(out, kw.as_slice());
            out.push(32u8);
            proof {
                assert(out@ =~= base + spec_print_match(m));
            }
        },
        Some(MatchOperator::Contains) => {
            let kw = crate::sieve_lex::kw_contains();
            extend_vec(out, kw.as_slice());
            out.push(32u8);
            proof {
                assert(out@ =~= base + spec_print_match(m));
            }
        },
        Some(MatchOperator::Matches) => {
            let kw = crate::sieve_lex::kw_matches();
            extend_vec(out, kw.as_slice());
            out.push(32u8);
            proof {
                assert(out@ =~= base + spec_print_match(m));
            }
        },
        _ => {
            proof {
                assert(out@ =~= base + spec_print_match(m));
            }
        },
    }
}

/// Append the address-part qualifier, when one is given.
fn print_addr_part_into(out: &mut Vec<u8>, a: Option<AddressOperator>)
    ensures
        final(out)@ == old(out)@ + spec_print_addr_part(a),
{
    let ghost base = out@;
    match a {
        None => {
            proof {
                assert(out@ =~= base + spec_print_addr_part(a));
            }
        },
        Some(av) => {
            let kw = match av {
                AddressOperator::Localpart => crate::sieve_lex::kw_localpart(),
                AddressOperator::Domain => crate::sieve_lex::kw_domain(),
                AddressOperator::All => crate::sieve_lex::kw_all(),
            };
            extend_vec(out, kw.as_slice());
            out.push(32u8);
            proof {
                assert(out@ =~= base + spec_print_addr_part(a));
            }
        },
    }
}

/// Append the canonical form of one rule.
#[verifier::loop_isolation(false)]
#[verifier::rlimit(100)]
#[verifier::spinoff_prover]
fn print_rule_into(out: &mut Vec<u8>, r: &Rule, Ghost(g): Ghost<SpecRule>)
    requires
        rel_rule(r, g),
    ensures
        final(out)@ == old(out)@ + spec_print_rule(g),
    decreases g, 1nat,
{
    let ghost base = out@;
    match r {
        Rule::Stop => {
            let kw = crate::sieve_lex::kw_stop();
            extend_vec(out, kw.as_slice());
            out.push(59u8);
            proof {
                assert(crate::sieve_lex::spec_kw_semicolon() =~= seq![59u8]);
                assert(out@ =~= base + spec_print_rule(g));
            }
        },
        Rule::Keep => {
            let kw = crate::sieve_lex::kw_keep();
            extend_vec(out, kw.as_slice());
            out.push(59u8);
            proof {
                assert(crate::sieve_lex::spec_kw_semicolon() =~= seq![59u8]);
                assert(out@ =~= base + spec_print_rule(g));
            }
        },
        Rule::Discard => {
            let kw = crate::sieve_lex::kw_discard();
            extend_vec(out, kw.as_slice());
            out.push(59u8);
            proof {
                assert(crate::sieve_lex::spec_kw_semicolon() =~= seq![59u8]);
                assert(out@ =~= base + spec_print_rule(g));
            }
        },
        Rule::Block(b) => {
            print_block_into(out, &b.0, Ghost(g->Block_0));
            proof {
                assert(out@ =~= base + spec_print_rule(g));
            }
        },
        Rule::If { condition, elsif, else_ } => {
            let kw = crate::sieve_lex::kw_if();
            extend_vec(out, kw.as_slice());
            out.push(32u8);
            print_cond_into(out, &condition.test, Ghost((g->If_condition).0));
            out.push(32u8);
            print_block_into(out, &condition.block.0, Ghost((g->If_condition).1));
            match elsif {
                None => {},
                Some(earm) => {
                    out.push(32u8);
                    let kwe = crate::sieve_lex::kw_elsif();
                    extend_vec(out, kwe.as_slice());
                    out.push(32u8);
                    print_cond_into(out, &earm.test, Ghost(((g->If_elsif)->Some_0).0));
                    out.push(32u8);
                    print_block_into(out, &earm.block.0, Ghost(((g->If_elsif)->Some_0).1));
                },
            }
            match else_ {
                None => {},
                Some(b) => {
                    out.push(32u8);
                    let kwe = crate::sieve_lex::kw_else();
                    extend_vec(out, kwe.as_slice());
                    out.push(32u8);
                    print_block_into(out, &b.0, Ghost((g->If_else_)->Some_0));
                },
            }
            proof {
                assert(out@ =~= base + spec_print_rule(g));
            }
        },
    }
}

/// Append a block: `{ rules }`.
#[verifier::loop_isolation(false)]
fn print_block_into(out: &mut Vec<u8>, rs: &Vec<Rule>, Ghost(g): Ghost<Seq<SpecRule>>)
    requires
        rel_rules(rs, g),
    ensures
        final(out)@ == old(out)@ + spec_print_block(g),
    decreases g, 4nat,
{
    let ghost base = out@;
    out.push(123u8);
    out.push(32u8);
    print_rules_into(out, rs, Ghost(g));
    out.push(125u8);
    proof {
        assert(out@ =~= base + spec_print_block(g));
    }
}

/// Append a rule list, every rule followed by one space.
#[verifier::loop_isolation(false)]
fn print_rules_into(out: &mut Vec<u8>, rs: &Vec<Rule>, Ghost(g): Ghost<Seq<SpecRule>>)
    requires
        rel_rules(rs, g),
    ensures
        final(out)@ == old(out)@ + spec_print_rules(g),
    decreases g, 3nat,
{
    let ghost base = out@;
    proof {
        assert(g.subrange(0, g.len() as int) =~= g);
    }
    let n = rs.len();
    let mut i: usize = 0;
    while i < n
        invariant
            i <= n,
            n == g.len(),
            rel_rules(rs, g),
            out@ + spec_print_rules(g.subrange(i as int, n as int)) == base + spec_print_rules(g),
        decreases n - i,
    {
        print_rule_into(out, &rs[i], Ghost(g[i as int]));
        out.push(32u8);
        proof {
            assert(spec_print_rules(g.subrange(i as int, n as int)) =~= spec_print_rule(
                g[i as int],
            ) + seq![32u8] + spec_print_rules(g.subrange((i + 1) as int, n as int))) by {
                assert(g.subrange(i as int, n as int)[0] == g[i as int]);
                assert(g.subrange(i as int, n as int).subrange(
                    1,
                    g.subrange(i as int, n as int).len() as int,
                ) =~= g.subrange((i + 1) as int, n as int));
            }
            assert(out@ + spec_print_rules(g.subrange((i + 1) as int, n as int)) =~= base
                + spec_print_rules(g));
        }
        i = i + 1;
    }
    proof {
        assert(spec_print_rules(g.subrange(n as int, n as int)) =~= Seq::<u8>::empty());
        assert(out@ =~= base + spec_print_rules(g));
    }
}

/// Append all of `src` to `out`.
#[verifier::loop_isolation(false)]
fn extend_vec(out: &mut Vec<u8>, src: &[u8])
    ensures
        final(out)@ == old(out)@ + src@,
{
    let n = src.len();
    let ghost base = out@;
    let mut k: usize = 0;
    while k < n
        invariant
            k <= n,
            out@ == base + src@.subrange(0, k as int),
        decreases n - k,
    {
        out.push(src[k]);
        proof {
            assert(out@ =~= base + src@.subrange(0, (k + 1) as int));
        }
        k = k + 1;
    }
    proof {
        assert(out@ =~= base + src@);
    }
}

/// Parse a script and write it back out in the canonical form.
pub fn reformat(src: &[u8]) -> (r: Vec<u8>)
    ensures
        r@ == spec_print_rules(crate::sieve::spec_parse_sieve(src@, 0).0),
{
    let (rules, _reached) = crate::sieve::parse_sieve(src);
    let ghost g = crate::sieve::spec_parse_sieve(src@, 0).0;
    let mut out: Vec<u8> = Vec::new();
    print_rules_into(&mut out, &rules, Ghost(g));
    out
}

/// Append the canonical form of a `header` test.
#[verifier::rlimit(100)]
#[verifier::spinoff_prover]
fn print_header_cond_into(out: &mut Vec<u8>, c: &ConditionRule, Ghost(g): Ghost<SpecCondition>)
    requires
        c matches ConditionRule::Header { .. },
        rel_cond(c, g),
    ensures
        final(out)@ == old(out)@ + spec_print_cond(g),
{
    let ghost base = out@;
    match c {
        ConditionRule::Header { comparator, match_operator, header_names, key_list } => {
            let kw = crate::sieve_lex::kw_header();
            extend_vec(out, kw.as_slice());
            out.push(32u8);
            print_comparator_into(out, *comparator);
            print_match_into(out, *match_operator);
            print_strings_into(out, header_names);
            out.push(32u8);
            print_strings_into(out, key_list);
            proof {
                assert(out@ =~= base + spec_print_cond(g));
            }
        },
        _ => {},
    }
}

/// Append the canonical form of an `address` test.
#[verifier::rlimit(100)]
#[verifier::spinoff_prover]
fn print_address_cond_into(out: &mut Vec<u8>, c: &ConditionRule, Ghost(g): Ghost<SpecCondition>)
    requires
        c matches ConditionRule::Address { .. },
        rel_cond(c, g),
    ensures
        final(out)@ == old(out)@ + spec_print_cond(g),
{
    let ghost base = out@;
    match c {
        ConditionRule::Address { comparator, address_part, match_type, header_list, key_list } => {
            let kw = crate::sieve_lex::kw_address();
            extend_vec(out, kw.as_slice());
            out.push(32u8);
            print_match_into(out, *match_type);
            print_comparator_into(out, *comparator);
            print_addr_part_into(out, *address_part);
            print_strings_into(out, header_list);
            out.push(32u8);
            print_strings_into(out, key_list);
            proof {
                assert(out@ =~= base + spec_print_cond(g));
            }
        },
        _ => {},
    }
}

/// A byte that is neither NUL, CR nor LF keeps a string carryable
/// when put in front.
proof fn lemma_wf_prepend1(b: u8, c: Seq<u8>)
    requires
        b != 0 && b != 13 && b != 10,
        wf_string(c),
    ensures
        wf_string(seq![b] + c),
{
    let v = seq![b] + c;
    assert forall|i: int| 0 <= i < v.len() implies (#[trigger] v[i]) != 0 && (v[i] == 13 ==> i + 1
        < v.len() && v[i + 1] == 10) && (v[i] == 10 ==> i > 0 && v[i - 1] == 13) by {
        if i == 0 {
        } else {
            assert(v[i] == c[i - 1]);
            if c[i - 1] == 13 {
                assert(c[i] == 10);
            }
            if c[i - 1] == 10 {
                assert(i - 1 > 0 && c[i - 2] == 13);
            }
        }
    }
}

/// A CRLF pair keeps a string carryable when put in front.
proof fn lemma_wf_prepend_crlf(c: Seq<u8>)
    requires
        wf_string(c),
    ensures
        wf_string(seq![13u8, 10u8] + c),
{
    let v = seq![13u8, 10u8] + c;
    assert forall|i: int| 0 <= i < v.len() implies (#[trigger] v[i]) != 0 && (v[i] == 13 ==> i + 1
        < v.len() && v[i + 1] == 10) && (v[i] == 10 ==> i > 0 && v[i - 1] == 13) by {
        if i <= 1 {
        } else {
            assert(v[i] == c[i - 2]);
            if c[i - 2] == 13 {
                assert(c[i - 1] == 10);
            }
            if c[i - 2] == 10 {
                assert(i - 2 > 0 && c[i - 3] == 13);
            }
        }
    }
}

/// A parsed quoted-string body is one the writer can carry.
proof fn lemma_quoted_text_wf(s: Seq<u8>, pos: int)
    ensures
        match crate::sieve_lex::spec_quoted_text(s, pos) {
            Some((c, _)) => wf_string(c),
            None => true,
        },
    decreases s.len() - pos,
{
    if 0 <= pos < s.len() {
        if s[pos] == 34 {
            assert(wf_string(Seq::<u8>::empty()));
        } else if s[pos] == 92 {
            if pos + 1 < s.len() && (s[pos + 1] == 34 || s[pos + 1] == 92) {
                lemma_quoted_text_wf(s, pos + 2);
                match crate::sieve_lex::spec_quoted_text(s, pos + 2) {
                    Some((c, _)) => {
                        lemma_wf_prepend1(s[pos + 1], c);
                    },
                    None => {},
                }
            }
        } else if s[pos] == 0 || s[pos] == 10 {
        } else if s[pos] == 13 {
            if pos + 1 < s.len() && s[pos + 1] == 10 {
                lemma_quoted_text_wf(s, pos + 2);
                match crate::sieve_lex::spec_quoted_text(s, pos + 2) {
                    Some((c, _)) => {
                        lemma_wf_prepend_crlf(c);
                    },
                    None => {},
                }
            }
        } else {
            lemma_quoted_text_wf(s, pos + 1);
            match crate::sieve_lex::spec_quoted_text(s, pos + 1) {
                Some((c, _)) => {
                    lemma_wf_prepend1(s[pos], c);
                },
                None => {},
            }
        }
    }
}

/// A parsed string is one the writer can carry.
proof fn lemma_string_parse_wf(s: Seq<u8>, pos: int)
    ensures
        match crate::sieve_lex::spec_string(s, pos) {
            Some((v, _)) => wf_string(v),
            None => true,
        },
{
    let p = crate::sieve_lex::spec_eat(s, pos);
    if 0 <= p < s.len() && s[p] == 34 {
        lemma_quoted_text_wf(s, p + 1);
    }
}

/// Prepending a carryable string keeps a list carryable.
proof fn lemma_wf_strings_prepend(v: Seq<u8>, l: Seq<Seq<u8>>)
    requires
        wf_string(v),
        wf_strings(l),
    ensures
        wf_strings(seq![v] + l),
{
    let w = seq![v] + l;
    assert forall|i: int| 0 <= i < w.len() implies wf_string(#[trigger] w[i]) by {
        if i > 0 {
            assert(w[i] == l[i - 1]);
        }
    }
}

/// The later items of a parsed string list are carryable.
proof fn lemma_string_items_more_wf(s: Seq<u8>, pos: int)
    ensures
        match crate::sieve::spec_string_items_more(s, pos) {
            Some((l, _)) => wf_strings(l),
            None => true,
        },
    decreases s.len() - pos,
{
    match crate::sieve_lex::spec_token(s, pos, crate::sieve_lex::spec_kw_comma()) {
        None => {
            assert(wf_strings(Seq::<Seq<u8>>::empty()));
        },
        Some(p) => {
            lemma_string_parse_wf(s, p);
            match crate::sieve_lex::spec_string(s, p) {
                None => {},
                Some((v, p2)) => {
                    if pos < p2 && p2 <= s.len() {
                        lemma_string_items_more_wf(s, p2);
                        match crate::sieve::spec_string_items_more(s, p2) {
                            Some((rest, _)) => {
                                lemma_wf_strings_prepend(v, rest);
                            },
                            None => {},
                        }
                    } else {
                        lemma_wf_strings_prepend(v, Seq::empty());
                        assert(seq![v] + Seq::<Seq<u8>>::empty() =~= seq![v]);
                    }
                },
            }
        },
    }
}

/// A parsed string list is carryable.
proof fn lemma_string_list_wf(s: Seq<u8>, pos: int)
    ensures
        match crate::sieve::spec_string_list(s, pos) {
            Some((l, _)) => wf_strings(l),
            None => true,
        },
{
    match crate::sieve_lex::spec_token(s, pos, crate::sieve_lex::spec_kw_lbracket()) {
        Some(p) => {
            lemma_string_parse_wf(s, p);
            match crate::sieve_lex::spec_string(s, p) {
                None => {
                    assert(wf_strings(Seq::<Seq<u8>>::empty()));
                },
                Some((v, p2)) => {
                    lemma_string_items_more_wf(s, p2);
                    match crate::sieve::spec_string_items_more(s, p2) {
                        Some((rest, _)) => {
                            lemma_wf_strings_prepend(v, rest);
                        },
                        None => {},
                    }
                },
            }
        },
        None => {
            lemma_string_parse_wf(s, pos);
            match crate::sieve_lex::spec_string(s, pos) {
                Some((v, _)) => {
                    lemma_wf_strings_prepend(v, Seq::empty());
                    assert(seq![v] + Seq::<Seq<u8>>::empty() =~= seq![v]);
                },
                None => {},
            }
        },
    }
}

/// The header permutation only yields match types with source syntax.
proof fn lemma_header_perm_wf(
    s: Seq<u8>,
    pos: int,
    c0: Option<CharacterOperator>,
    m0: Option<MatchOperator>,
)
    requires
        wf_match(m0),
    ensures
        wf_match(spec_header_perm(s, pos, c0, m0).0.1),
    decreases s.len() - pos,
{
    match (c0, spec_comparator(s, pos)) {
        (None, Some(vp)) => {
            if pos < vp.1 && vp.1 <= s.len() {
                lemma_header_perm_wf(s, vp.1, Some(vp.0), m0);
            }
        },
        _ => {
            match (m0, spec_match_type(s, pos)) {
                (None, Some(vp)) => {
                    if pos < vp.1 && vp.1 <= s.len() {
                        lemma_header_perm_wf(s, vp.1, c0, Some(vp.0));
                    }
                },
                _ => {},
            }
        },
    }
}

/// The address permutation only yields match types with source syntax.
proof fn lemma_addr_perm_wf(
    s: Seq<u8>,
    pos: int,
    m0: Option<MatchOperator>,
    c0: Option<CharacterOperator>,
    a0: Option<AddressOperator>,
)
    requires
        wf_match(m0),
    ensures
        wf_match(spec_addr_perm(s, pos, m0, c0, a0).0.0),
    decreases s.len() - pos,
{
    match (m0, spec_match_type(s, pos)) {
        (None, Some(vp)) => {
            if pos < vp.1 && vp.1 <= s.len() {
                lemma_addr_perm_wf(s, vp.1, Some(vp.0), c0, a0);
            }
        },
        _ => {
            match (c0, spec_comparator(s, pos)) {
                (None, Some(vp)) => {
                    if pos < vp.1 && vp.1 <= s.len() {
                        lemma_addr_perm_wf(s, vp.1, m0, Some(vp.0), a0);
                    }
                },
                _ => {
                    match (a0, spec_address_type(s, pos)) {
                        (None, Some(vp)) => {
                            if pos < vp.1 && vp.1 <= s.len() {
                                lemma_addr_perm_wf(s, vp.1, m0, c0, Some(vp.0));
                            }
                        },
                        _ => {},
                    }
                },
            }
        },
    }
}

/// A parsed `header` test is one the writer can carry.
proof fn lemma_header_parse_wf(s: Seq<u8>, pos: int)
    ensures
        match crate::sieve::spec_header(s, pos) {
            Some((c, _)) => wf_cond(c),
            None => true,
        },
{
    match crate::sieve_lex::spec_token(s, pos, crate::sieve_lex::spec_kw_header()) {
        None => {},
        Some(p) => {
            lemma_header_perm_wf(s, p, None, None);
            let q = spec_header_perm(s, p, None, None);
            lemma_string_list_wf(s, q.1);
            match crate::sieve::spec_string_list(s, q.1) {
                None => {},
                Some((names, p2)) => {
                    lemma_string_list_wf(s, p2);
                },
            }
        },
    }
}

/// A parsed `address` test is one the writer can carry.
proof fn lemma_address_parse_wf(s: Seq<u8>, pos: int)
    ensures
        match crate::sieve::spec_address(s, pos) {
            Some((c, _)) => wf_cond(c),
            None => true,
        },
{
    match crate::sieve_lex::spec_token(s, pos, crate::sieve_lex::spec_kw_address()) {
        None => {},
        Some(p) => {
            lemma_addr_perm_wf(s, p, None, None, None);
            let q = spec_addr_perm(s, p, None, None, None);
            lemma_string_list_wf(s, q.1);
            match crate::sieve::spec_string_list(s, q.1) {
                None => {},
                Some((hdrs, p2)) => {
                    lemma_string_list_wf(s, p2);
                },
            }
        },
    }
}

/// Prepending a carryable test keeps a list carryable.
proof fn lemma_wf_conds_prepend(v: SpecCondition, l: Seq<SpecCondition>)
    requires
        wf_cond(v),
        wf_conds(l),
    ensures
        wf_conds(seq![v] + l),
{
    let w = seq![v] + l;
    assert forall|i: int| 0 <= i < w.len() implies wf_cond(#[trigger] w[i]) by {
        if i > 0 {
            assert(w[i] == l[i - 1]);
        }
    }
}

/// A parsed test is one the writer can carry.
#[verifier::rlimit(100)]
#[verifier::spinoff_prover]
proof fn lemma_test_parse_wf(s: Seq<u8>, pos: int)
    ensures
        match crate::sieve::spec_test(s, pos) {
            Some((c, _)) => wf_cond(c),
            None => true,
        },
    decreases s.len() - pos, 0int,
{
    if crate::sieve_lex::spec_token(s, pos, crate::sieve_lex::spec_kw_true()) is Some {
    } else if crate::sieve_lex::spec_token(s, pos, crate::sieve_lex::spec_kw_false()) is Some {
    } else if crate::sieve_lex::spec_token(s, pos, crate::sieve_lex::spec_kw_exists()) is Some {
        let p = crate::sieve_lex::spec_token(s, pos, crate::sieve_lex::spec_kw_exists())->Some_0;
        lemma_string_list_wf(s, p);
    } else if crate::sieve_lex::spec_token(s, pos, crate::sieve_lex::spec_kw_size()) is Some {
    } else if crate::sieve_lex::spec_token(s, pos, crate::sieve_lex::spec_kw_not()) is Some {
        let p = crate::sieve_lex::spec_token(s, pos, crate::sieve_lex::spec_kw_not())->Some_0;
        if pos < p && p <= s.len() {
            lemma_test_parse_wf(s, p);
            match crate::sieve::spec_test(s, p) {
                Some((c, _)) => {
                    assert(seq![c].len() == 1 && seq![c][0] == c);
                },
                None => {},
            }
        }
    } else if crate::sieve::spec_header(s, pos) is Some {
        lemma_header_parse_wf(s, pos);
    } else if crate::sieve::spec_address(s, pos) is Some {
        lemma_address_parse_wf(s, pos);
    } else if crate::sieve_lex::spec_token(s, pos, crate::sieve_lex::spec_kw_allof()) is Some {
        let p = crate::sieve_lex::spec_token(s, pos, crate::sieve_lex::spec_kw_allof())->Some_0;
        if pos < p && p <= s.len() {
            lemma_test_list_wf(s, p);
        }
    } else if crate::sieve_lex::spec_token(s, pos, crate::sieve_lex::spec_kw_anyof()) is Some {
        let p = crate::sieve_lex::spec_token(s, pos, crate::sieve_lex::spec_kw_anyof())->Some_0;
        if pos < p && p <= s.len() {
            lemma_test_list_wf(s, p);
        }
    }
}

/// The later items of a parsed test list are carryable.
proof fn lemma_test_items_more_wf(s: Seq<u8>, pos: int)
    ensures
        match crate::sieve::spec_test_items_more(s, pos) {
            Some((l, _)) => wf_conds(l),
            None => true,
        },
    decreases s.len() - pos, 2int,
{
    match crate::sieve_lex::spec_token(s, pos, crate::sieve_lex::spec_kw_comma()) {
        None => {
            assert(wf_conds(Seq::<SpecCondition>::empty()));
        },
        Some(p) => {
            if pos < p && p <= s.len() {
                lemma_test_parse_wf(s, p);
                match crate::sieve::spec_test(s, p) {
                    None => {},
                    Some((v, p2)) => {
                        if p < p2 && p2 <= s.len() {
                            lemma_test_items_more_wf(s, p2);
                            match crate::sieve::spec_test_items_more(s, p2) {
                                Some((rest, _)) => {
                                    lemma_wf_conds_prepend(v, rest);
                                },
                                None => {},
                            }
                        } else {
                            lemma_wf_conds_prepend(v, Seq::empty());
                            assert(seq![v] + Seq::<SpecCondition>::empty() =~= seq![v]);
                        }
                    },
                }
            }
        },
    }
}

/// A parsed test-list body is carryable.
proof fn lemma_test_items_wf(s: Seq<u8>, pos: int)
    ensures
        match crate::sieve::spec_test_items(s, pos) {
            Some((l, _)) => wf_conds(l),
            None => true,
        },
    decreases s.len() - pos, 1int,
{
    lemma_test_parse_wf(s, pos);
    match crate::sieve::spec_test(s, pos) {
        None => {
            assert(wf_conds(Seq::<SpecCondition>::empty()));
        },
        Some((v, p)) => {
            if pos < p && p <= s.len() {
                lemma_test_items_more_wf(s, p);
                match crate::sieve::spec_test_items_more(s, p) {
                    Some((rest, _)) => {
                        lemma_wf_conds_prepend(v, rest);
                    },
                    None => {},
                }
            } else {
                lemma_wf_conds_prepend(v, Seq::empty());
                assert(seq![v] + Seq::<SpecCondition>::empty() =~= seq![v]);
            }
        },
    }
}

/// A parsed test list is carryable.
proof fn lemma_test_list_wf(s: Seq<u8>, pos: int)
    ensures
        match crate::sieve::spec_test_list(s, pos) {
            Some((l, _)) => wf_conds(l),
            None => true,
        },
    decreases s.len() - pos, 3int,
{
    match crate::sieve_lex::spec_token(s, pos, crate::sieve_lex::spec_kw_lparen()) {
        None => {},
        Some(p) => {
            if pos < p && p <= s.len() {
                lemma_test_items_wf(s, p);
            }
        },
    }
}

/// Prepending a carryable rule keeps a list carryable.
proof fn lemma_wf_rules_prepend(v: SpecRule, l: Seq<SpecRule>)
    requires
        wf_rule(v),
        wf_rules(l),
    ensures
        wf_rules(seq![v] + l),
{
    let w = seq![v] + l;
    assert forall|i: int| 0 <= i < w.len() implies wf_rule(#[trigger] w[i]) by {
        if i > 0 {
            assert(w[i] == l[i - 1]);
        }
    }
}

/// A parsed bare `if` is one the writer can carry.
#[verifier::rlimit(100)]
#[verifier::spinoff_prover]
proof fn lemma_if_bare_parse_wf(s: Seq<u8>, pos: int)
    ensures
        match crate::sieve::spec_if_bare(s, pos) {
            Some((r, _)) => wf_rule(r),
            None => true,
        },
    decreases s.len() - pos, 0int,
{
    match crate::sieve_lex::spec_token(s, pos, crate::sieve_lex::spec_kw_if()) {
        None => {},
        Some(p) => {
            if pos < p && p <= s.len() {
                lemma_test_parse_wf(s, p);
                match crate::sieve::spec_test(s, p) {
                    None => {},
                    Some((c, p2)) => {
                        if pos < p2 && p2 <= s.len() {
                            lemma_block_parse_wf(s, p2);
                            match crate::sieve::spec_block(s, p2) {
                                None => {},
                                Some((b, p3)) => {
                                    match crate::sieve_lex::spec_token(
                                        s,
                                        p3,
                                        crate::sieve_lex::spec_kw_elsif(),
                                    ) {
                                        None => {},
                                        Some(p4) => {
                                            if pos < p4 && p4 <= s.len() {
                                                lemma_test_parse_wf(s, p4);
                                                match crate::sieve::spec_test(s, p4) {
                                                    None => {},
                                                    Some((c2, p5)) => {
                                                        if pos < p5 && p5 <= s.len() {
                                                            lemma_block_parse_wf(s, p5);
                                                        }
                                                    },
                                                }
                                            }
                                        },
                                    }
                                },
                            }
                        }
                    },
                }
            }
        },
    }
}

/// A parsed `if` rule is one the writer can carry.
proof fn lemma_if_parse_wf(s: Seq<u8>, pos: int)
    ensures
        match crate::sieve::spec_if(s, pos) {
            Some((r, _)) => wf_rule(r),
            None => true,
        },
    decreases s.len() - pos, 1int,
{
    lemma_if_bare_parse_wf(s, pos);
    match crate::sieve::spec_if_bare(s, pos) {
        None => {},
        Some((ifr, p)) => {
            match crate::sieve_lex::spec_token(s, p, crate::sieve_lex::spec_kw_else()) {
                None => {},
                Some(p2) => {
                    if pos < p2 && p2 <= s.len() {
                        lemma_block_parse_wf(s, p2);
                    }
                },
            }
        },
    }
}

/// A parsed rule is one the writer can carry: actions or an `if`,
/// never a bare block.
proof fn lemma_rule_parse_wf(s: Seq<u8>, pos: int)
    ensures
        match crate::sieve::spec_rule(s, pos) {
            Some((r, _)) => wf_rule(r),
            None => true,
        },
    decreases s.len() - pos, 2int,
{
    lemma_if_parse_wf(s, pos);
}

/// A parsed rule list is one the writer can carry.
proof fn lemma_rules_parse_wf(s: Seq<u8>, pos: int)
    ensures
        wf_rules(crate::sieve::spec_rules(s, pos).0),
    decreases s.len() - pos, 3int,
{
    lemma_rule_parse_wf(s, pos);
    match crate::sieve::spec_rule(s, pos) {
        None => {
            assert(wf_rules(Seq::<SpecRule>::empty()));
        },
        Some((r, p)) => {
            if pos < p && p <= s.len() {
                lemma_rules_parse_wf(s, p);
                lemma_wf_rules_prepend(r, crate::sieve::spec_rules(s, p).0);
            } else {
                lemma_wf_rules_prepend(r, Seq::empty());
                assert(seq![r] + Seq::<SpecRule>::empty() =~= seq![r]);
            }
        },
    }
}

/// A parsed block body is one the writer can carry.
proof fn lemma_block_parse_wf(s: Seq<u8>, pos: int)
    ensures
        match crate::sieve::spec_block(s, pos) {
            Some((rs, _)) => wf_rules(rs),
            None => true,
        },
    decreases s.len() - pos, 4int,
{
    match crate::sieve_lex::spec_token(s, pos, crate::sieve_lex::spec_kw_lbrace()) {
        None => {},
        Some(p) => {
            if pos < p && p <= s.len() {
                lemma_rules_parse_wf(s, p);
            }
        },
    }
}

/// Whatever the parser reads, the writer can carry: every parsed
/// script is a well-formed rule list.
pub proof fn lemma_sieve_parse_wf(src: Seq<u8>)
    ensures
        wf_rules(crate::sieve::spec_parse_sieve(src, 0).0),
{
    lemma_rules_parse_wf(src, crate::sieve_lex::spec_eat(src, 0));
}

/// Sieve parse idempotence: printing a parsed script and parsing the
/// print gives the same rules back, with the whole print consumed —
/// `parse(print(parse(s))) == parse(s)`, up to the position reached.
pub proof fn lemma_sieve_round_trip(src: Seq<u8>)
    ensures
        ({
            let rules = crate::sieve::spec_parse_sieve(src, 0).0;
            crate::sieve::spec_parse_sieve(spec_print_rules(rules), 0) == (
                rules,
                spec_print_rules(rules).len() as int,
            )
        }),
{
    lemma_sieve_parse_wf(src);
    lemma_sieve_print_parse(crate::sieve::spec_parse_sieve(src, 0).0);
}

} // verus!
