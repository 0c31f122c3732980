//! A parser for the sieve message-filtering language (the RFC 5228 subset
//! this client evaluates): a hand-written recursive descent over bytes.
//!
//! Every executable parser has a specification twin over `Seq<u8>`; its
//! contract says the two agree. Whitespace and comments (`#` to end of
//! line, `/* ... */`) are consumed around every token. A parser returns
//! the parsed value with the position after it, or `None`, consuming
//! nothing.

use vstd::prelude::*;

verus! {

broadcast use {
    vstd::seq_lib::group_seq_properties,
    crate::sieve_lex::lemma_eat_bounds,
    crate::sieve_lex::lemma_skip_ws_bounds,
    crate::sieve_lex::lemma_line_comment_end_bounds,
    crate::sieve_lex::lemma_block_comment_end_bounds,
    crate::sieve_lex::lemma_eat_step_bounds,
};

use crate::error::MeliError;
use crate::sieve_lex::eat;
use crate::sieve_lex::is_digit;
use crate::sieve_lex::lower;
use crate::sieve_lex::spec_eat;
use crate::sieve_lex::spec_lower;
use crate::sieve_lex::spec_token;
use crate::sieve_lex::kw_address;
use crate::sieve_lex::kw_all;
use crate::sieve_lex::kw_allof;
use crate::sieve_lex::kw_anyof;
use crate::sieve_lex::kw_exists;
use crate::sieve_lex::kw_false;
use crate::sieve_lex::kw_discard;
use crate::sieve_lex::kw_else;
use crate::sieve_lex::kw_elsif;
use crate::sieve_lex::kw_header;
use crate::sieve_lex::kw_if;
use crate::sieve_lex::kw_keep;
use crate::sieve_lex::kw_lbrace;
use crate::sieve_lex::kw_rbrace;
use crate::sieve_lex::kw_semicolon;
use crate::sieve_lex::kw_stop;
use crate::sieve_lex::kw_lparen;
use crate::sieve_lex::kw_not;
use crate::sieve_lex::kw_rparen;
use crate::sieve_lex::kw_size;
use crate::sieve_lex::kw_true;
use crate::sieve_lex::kw_comma;
use crate::sieve_lex::kw_comparator;
use crate::sieve_lex::kw_contains;
use crate::sieve_lex::kw_domain;
use crate::sieve_lex::kw_i_casemap;
use crate::sieve_lex::kw_i_octet;
use crate::sieve_lex::kw_is;
use crate::sieve_lex::kw_lbracket;
use crate::sieve_lex::kw_localpart;
use crate::sieve_lex::kw_matches;
use crate::sieve_lex::kw_over;
use crate::sieve_lex::kw_rbracket;
use crate::sieve_lex::kw_under;
use crate::sieve_lex::number;
use crate::sieve_lex::spec_number;
use crate::sieve_lex::spec_string;
use crate::sieve_lex::string;
use crate::sieve_lex::token;

/// An ordered list of rules, as between `{` and `}`.
#[derive(Debug, PartialEq, Eq)]
pub struct RuleBlock(pub Vec<Rule>);

/// A test together with the block it guards.
#[derive(Debug, PartialEq, Eq)]
pub struct CondBlock {
    pub test: ConditionRule,
    pub block: RuleBlock,
}

/// One sieve command.
#[derive(Debug, PartialEq, Eq)]
pub enum Rule {
    Block(RuleBlock),
    /// Halt all further processing for the message.
    Stop,
    /// Terminal disposition: keep the message.
    Keep,
    /// Terminal disposition: discard the message.
    Discard,
    If {
        condition: CondBlock,
        elsif: Option<CondBlock>,
        else_: Option<RuleBlock>,
    },
}

/// Which part of an address a test inspects.
#[derive(Debug, Clone, Copy, PartialEq, Eq, Structural)]
pub enum AddressOperator {
    All,
    Localpart,
    Domain,
}

/// Direction of a size comparison.
#[derive(Debug, Clone, Copy, PartialEq, Eq, Structural)]
pub enum IntegerOperator {
    Over,
    Under,
}

/// Relational comparison keys, as the relational extension names them:
/// the C operators `>` `>=` `<` `<=` `==` `!=`.
#[derive(Debug, Clone, Copy, PartialEq, Eq, Structural)]
pub enum RelationalMatch {
    Gt,
    Ge,
    Lt,
    Le,
    Eq,
    Ne,
}

/// How a key is matched against a value.
#[derive(Debug, Clone, Copy, PartialEq, Eq, Structural)]
pub enum MatchOperator {
    Is,
    Matches,
    Contains,
    Count(RelationalMatch),
    Value(RelationalMatch),
}

/// A comparator name: `i;octet` or `i;ascii-casemap`.
#[derive(Debug, Clone, Copy, PartialEq, Eq, Structural)]
pub enum CharacterOperator {
    Octet,
    AsciiCasemap,
}

/// The date parts a date test can name.
#[derive(Debug, Clone, Copy, PartialEq, Eq, Structural)]
pub enum ZoneRule {
    Year,
    Month,
    Day,
    Date,
    Julian,
    Hour,
    Minute,
    Second,
    Time,
    Iso8601,
    Std11,
    Zone,
    Weekday,
}

/// One test of a sieve `if`.
#[derive(Debug, PartialEq, Eq)]
pub enum ConditionRule {
    /// Logical OR over the list.
    AnyOf(Vec<ConditionRule>),
    /// Logical AND over the list.
    AllOf(Vec<ConditionRule>),
    /// At least one header of each named kind exists.
    Exists(Vec<Vec<u8>>),
    Header {
        comparator: Option<CharacterOperator>,
        match_operator: Option<MatchOperator>,
        header_names: Vec<Vec<u8>>,
        key_list: Vec<Vec<u8>>,
    },
    Date {
        comparator: Option<CharacterOperator>,
        match_type: Option<MatchOperator>,
        zone: ZoneRule,
        header_name: Vec<u8>,
        date_part: Vec<u8>,
        key_list: Vec<Vec<u8>>,
    },
    Address {
        comparator: Option<CharacterOperator>,
        address_part: Option<AddressOperator>,
        match_type: Option<MatchOperator>,
        header_list: Vec<Vec<u8>>,
        key_list: Vec<Vec<u8>>,
    },
    Not(Box<ConditionRule>),
    Size {
        operator: IntegerOperator,
        limit: u64,
    },
    Literal(bool),
}

/// The mathematical shape of a parsed rule; executable rules are related
/// to it by `rel_rule`.
pub enum SpecRule {
    Block(Seq<SpecRule>),
    Stop,
    Keep,
    Discard,
    If {
        condition: (SpecCondition, Seq<SpecRule>),
        elsif: Option<(SpecCondition, Seq<SpecRule>)>,
        else_: Option<Seq<SpecRule>>,
    },
}

/// The mathematical shape of a parsed test.
pub enum SpecCondition {
    AnyOf(Seq<SpecCondition>),
    AllOf(Seq<SpecCondition>),
    Exists(Seq<Seq<u8>>),
    Header {
        comparator: Option<CharacterOperator>,
        match_operator: Option<MatchOperator>,
        header_names: Seq<Seq<u8>>,
        key_list: Seq<Seq<u8>>,
    },
    Address {
        comparator: Option<CharacterOperator>,
        address_part: Option<AddressOperator>,
        match_type: Option<MatchOperator>,
        header_list: Seq<Seq<u8>>,
        key_list: Seq<Seq<u8>>,
    },
    /// Negation; the sequence holds exactly one test.
    Not(Seq<SpecCondition>),
    Size {
        operator: IntegerOperator,
        limit: u64,
    },
    Literal(bool),
}

/// An executable test denotes a ghost one. The `Date` variant has no
/// source syntax and denotes nothing.
pub open spec fn rel_cond(c: &ConditionRule, g: SpecCondition) -> bool
    decreases g,
{
    match g {
        SpecCondition::AnyOf(gs) => c matches ConditionRule::AnyOf(cs) && rel_conds(cs, gs),
        SpecCondition::AllOf(gs) => c matches ConditionRule::AllOf(cs) && rel_conds(cs, gs),
        SpecCondition::Exists(gl) => c matches ConditionRule::Exists(cl) && cl.deep_view() == gl,
        SpecCondition::Header { comparator, match_operator, header_names, key_list } => c
            matches ConditionRule::Header {
            comparator: c2,
            match_operator: m2,
            header_names: h2,
            key_list: k2,
        } && c2 == comparator && m2 == match_operator && h2.deep_view() == header_names
            && k2.deep_view() == key_list,
        SpecCondition::Address {
            comparator,
            address_part,
            match_type,
            header_list,
            key_list,
        } => c matches ConditionRule::Address {
            comparator: c2,
            address_part: a2,
            match_type: m2,
            header_list: h2,
            key_list: k2,
        } && c2 == comparator && a2 == address_part && m2 == match_type && h2.deep_view()
            == header_list && k2.deep_view() == key_list,
        SpecCondition::Not(gi) => c matches ConditionRule::Not(ci) && gi.len() == 1 && rel_cond(
            ci,
            gi[0],
        ),
        SpecCondition::Size { operator, limit } => c matches ConditionRule::Size {
            operator: o2,
            limit: l2,
        } && o2 == operator && l2 == limit,
        SpecCondition::Literal(b) => c matches ConditionRule::Literal(b2) && b2 == b,
    }
}

/// Element-wise `rel_cond` over equal-length lists.
pub open spec fn rel_conds(cs: &Vec<ConditionRule>, gs: Seq<SpecCondition>) -> bool
    decreases gs,
{
    &&& cs@.len() == gs.len()
    &&& forall|i: int| 0 <= i < gs.len() ==> rel_cond(&cs@[i], #[trigger] gs[i])
}

/// An executable rule denotes a ghost one.
pub open spec fn rel_rule(r: &Rule, g: SpecRule) -> bool
    decreases g,
{
    match g {
        SpecRule::Block(gs) => r matches Rule::Block(b) && rel_rules(&b.0, gs),
        SpecRule::Stop => r matches Rule::Stop,
        SpecRule::Keep => r matches Rule::Keep,
        SpecRule::Discard => r matches Rule::Discard,
        SpecRule::If { condition, elsif, else_ } => r matches Rule::If {
            condition: c2,
            elsif: e2,
            else_: l2,
        } && rel_cond(&c2.test, condition.0) && rel_rules(&c2.block.0, condition.1) && (match elsif {
            None => e2 is None,
            Some(ge) => e2 matches Some(ce) && rel_cond(&ce.test, ge.0) && rel_rules(
                &ce.block.0,
                ge.1,
            ),
        }) && (match else_ {
            None => l2 is None,
            Some(gl) => l2 matches Some(cl) && rel_rules(&cl.0, gl),
        }),
    }
}

/// Element-wise `rel_rule` over equal-length lists.
pub open spec fn rel_rules(rs: &Vec<Rule>, gs: Seq<SpecRule>) -> bool
    decreases gs,
{
    &&& rs@.len() == gs.len()
    &&& forall|i: int| 0 <= i < gs.len() ==> rel_rule(&rs@[i], #[trigger] gs[i])
}

/// `:comparator` followed by a comparator name.
pub open spec fn spec_comparator(s: Seq<u8>, pos: int) -> Option<(CharacterOperator, int)> {
    match spec_token(s, pos, crate::sieve_lex::spec_kw_comparator()) {
        Some(p) => match spec_string(s, p) {
            Some((c, p2)) => if c == crate::sieve_lex::spec_kw_i_octet() {
                Some((CharacterOperator::Octet, p2))
            } else if c == crate::sieve_lex::spec_kw_i_casemap() {
                Some((CharacterOperator::AsciiCasemap, p2))
            } else {
                None
            },
            None => None,
        },
        None => None,
    }
}

/// `:is`, `:contains` or `:matches`.
pub open spec fn spec_match_type(s: Seq<u8>, pos: int) -> Option<(MatchOperator, int)> {
    match spec_token(s, pos, crate::sieve_lex::spec_kw_is()) {
        Some(p) => Some((MatchOperator::Is, p)),
        None => match spec_token(s, pos, crate::sieve_lex::spec_kw_contains()) {
            Some(p) => Some((MatchOperator::Contains, p)),
            None => match spec_token(s, pos, crate::sieve_lex::spec_kw_matches()) {
                Some(p) => Some((MatchOperator::Matches, p)),
                None => None,
            },
        },
    }
}

/// `:localpart`, `:domain` or `:all`.
pub open spec fn spec_address_type(s: Seq<u8>, pos: int) -> Option<(AddressOperator, int)> {
    match spec_token(s, pos, crate::sieve_lex::spec_kw_localpart()) {
        Some(p) => Some((AddressOperator::Localpart, p)),
        None => match spec_token(s, pos, crate::sieve_lex::spec_kw_domain()) {
            Some(p) => Some((AddressOperator::Domain, p)),
            None => match spec_token(s, pos, crate::sieve_lex::spec_kw_all()) {
                Some(p) => Some((AddressOperator::All, p)),
                None => None,
            },
        },
    }
}

/// `:over` or `:under`, followed by a size.
pub open spec fn spec_integer_operator(s: Seq<u8>, pos: int) -> Option<((IntegerOperator, u64), int)> {
    let op = match spec_token(s, pos, crate::sieve_lex::spec_kw_over()) {
        Some(p) => Some((IntegerOperator::Over, p)),
        None => match spec_token(s, pos, crate::sieve_lex::spec_kw_under()) {
            Some(p) => Some((IntegerOperator::Under, p)),
            None => None,
        },
    };
    match op {
        Some((o, p)) => match spec_number(s, p) {
            Some((v, p2)) => Some(((o, v), p2)),
            None => None,
        },
        None => None,
    }
}

/// Zero or more further strings, each preceded by a comma.
pub open spec fn spec_string_items_more(s: Seq<u8>, pos: int) -> Option<(Seq<Seq<u8>>, int)>
    decreases s.len() - pos,
{
    match spec_token(s, pos, crate::sieve_lex::spec_kw_comma()) {
        None => Some((Seq::empty(), pos)),
        Some(p) => match spec_string(s, p) {
            None => None,
            Some((v, p2)) => if pos < p2 && p2 <= s.len() {
                match spec_string_items_more(s, p2) {
                    Some((rest, p3)) => Some((seq![v] + rest, p3)),
                    None => None,
                }
            } else {
                Some((seq![v], p2))
            },
        },
    }
}

/// Zero or more strings separated by commas.
pub open spec fn spec_string_items(s: Seq<u8>, pos: int) -> Option<(Seq<Seq<u8>>, int)> {
    match spec_string(s, pos) {
        None => Some((Seq::empty(), pos)),
        Some((v, p)) => match spec_string_items_more(s, p) {
            Some((rest, p2)) => Some((seq![v] + rest, p2)),
            None => None,
        },
    }
}

/// A bracketed comma-list of strings, or one bare string.
pub open spec fn spec_string_list(s: Seq<u8>, pos: int) -> Option<(Seq<Seq<u8>>, int)> {
    match spec_token(s, pos, crate::sieve_lex::spec_kw_lbracket()) {
        Some(p) => match spec_string_items(s, p) {
            Some((items, p2)) => match spec_token(s, p2, crate::sieve_lex::spec_kw_rbracket()) {
                Some(p3) => Some((items, p3)),
                None => None,
            },
            None => None,
        },
        None => match spec_string(s, pos) {
            Some((v, p)) => Some((seq![v], p)),
            None => None,
        },
    }
}

/// The optional `header` qualifiers, each consumed at most once, in any
/// order: comparator first at each step, then match type.
pub open spec fn spec_header_perm(
    s: Seq<u8>,
    pos: int,
    c: Option<CharacterOperator>,
    m: Option<MatchOperator>,
) -> ((Option<CharacterOperator>, Option<MatchOperator>), int)
    decreases s.len() - pos,
{
    match (c, spec_comparator(s, pos)) {
        (None, Some(vp)) => if pos < vp.1 && vp.1 <= s.len() {
            spec_header_perm(s, vp.1, Some(vp.0), m)
        } else {
            ((c, m), pos)
        },
        _ => match (m, spec_match_type(s, pos)) {
            (None, Some(vp)) => if pos < vp.1 && vp.1 <= s.len() {
                spec_header_perm(s, vp.1, c, Some(vp.0))
            } else {
                ((c, m), pos)
            },
            _ => ((c, m), pos),
        },
    }
}

/// The optional `address` qualifiers, each consumed at most once, in
/// any order: match type first at each step, then comparator, then
/// address part.
pub open spec fn spec_addr_perm(
    s: Seq<u8>,
    pos: int,
    m: Option<MatchOperator>,
    c: Option<CharacterOperator>,
    a: Option<AddressOperator>,
) -> ((Option<MatchOperator>, Option<CharacterOperator>, Option<AddressOperator>), int)
    decreases s.len() - pos,
{
    match (m, spec_match_type(s, pos)) {
        (None, Some(vp)) => if pos < vp.1 && vp.1 <= s.len() {
            spec_addr_perm(s, vp.1, Some(vp.0), c, a)
        } else {
            ((m, c, a), pos)
        },
        _ => match (c, spec_comparator(s, pos)) {
            (None, Some(vp)) => if pos < vp.1 && vp.1 <= s.len() {
                spec_addr_perm(s, vp.1, m, Some(vp.0), a)
            } else {
                ((m, c, a), pos)
            },
            _ => match (a, spec_address_type(s, pos)) {
                (None, Some(vp)) => if pos < vp.1 && vp.1 <= s.len() {
                    spec_addr_perm(s, vp.1, m, c, Some(vp.0))
                } else {
                    ((m, c, a), pos)
                },
                _ => ((m, c, a), pos),
            },
        },
    }
}

/// `header [qualifiers] <names> <keys>`.
pub open spec fn spec_header(s: Seq<u8>, pos: int) -> Option<(SpecCondition, int)> {
    match spec_token(s, pos, crate::sieve_lex::spec_kw_header()) {
        None => None,
        Some(p) => {
            let q = spec_header_perm(s, p, None, None);
            match spec_string_list(s, q.1) {
                None => None,
                Some((names, p2)) => match spec_string_list(s, p2) {
                    None => None,
                    Some((keys, p3)) => Some(
                        (
                            SpecCondition::Header {
                                comparator: q.0.0,
                                match_operator: q.0.1,
                                header_names: names,
                                key_list: keys,
                            },
                            p3,
                        ),
                    ),
                },
            }
        },
    }
}

/// `address [qualifiers] <headers> <keys>`.
pub open spec fn spec_address(s: Seq<u8>, pos: int) -> Option<(SpecCondition, int)> {
    match spec_token(s, pos, crate::sieve_lex::spec_kw_address()) {
        None => None,
        Some(p) => {
            let q = spec_addr_perm(s, p, None, None, None);
            match spec_string_list(s, q.1) {
                None => None,
                Some((hdrs, p2)) => match spec_string_list(s, p2) {
                    None => None,
                    Some((keys, p3)) => Some(
                        (
                            SpecCondition::Address {
                                comparator: q.0.1,
                                address_part: q.0.2,
                                match_type: q.0.0,
                                header_list: hdrs,
                                key_list: keys,
                            },
                            p3,
                        ),
                    ),
                },
            }
        },
    }
}

/// One test, tried in the grammar's order: the literals, `exists`,
/// `size`, `not`, `header`, `address`, `allof`, `anyof`.
pub open spec fn spec_test(s: Seq<u8>, pos: int) -> Option<(SpecCondition, int)>
    decreases s.len() - pos, 0int,
{
    match spec_token(s, pos, crate::sieve_lex::spec_kw_true()) {
        Some(p) => Some((SpecCondition::Literal(true), p)),
        None => match spec_token(s, pos, crate::sieve_lex::spec_kw_false()) {
            Some(p) => Some((SpecCondition::Literal(false), p)),
            None => match spec_token(s, pos, crate::sieve_lex::spec_kw_exists()) {
                Some(p) => match spec_string_list(s, p) {
                    Some((l, p2)) => Some((SpecCondition::Exists(l), p2)),
                    None => None,
                },
                None => match spec_token(s, pos, crate::sieve_lex::spec_kw_size()) {
                    Some(p) => match spec_integer_operator(s, p) {
                        Some(((o, v), p2)) => Some(
                            (SpecCondition::Size { operator: o, limit: v }, p2),
                        ),
                        None => None,
                    },
                    None => match spec_token(s, pos, crate::sieve_lex::spec_kw_not()) {
                        Some(p) => if pos < p && p <= s.len() {
                            match spec_test(s, p) {
                                Some((c, p2)) => Some((SpecCondition::Not(seq![c]), p2)),
                                None => None,
                            }
                        } else {
                            None
                        },
                        None => match spec_header(s, pos) {
                            Some(cp) => Some(cp),
                            None => match spec_address(s, pos) {
                                Some(cp) => Some(cp),
                                None => match spec_token(
                                    s,
                                    pos,
                                    crate::sieve_lex::spec_kw_allof(),
                                ) {
                                    Some(p) => if pos < p && p <= s.len() {
                                        match spec_test_list(s, p) {
                                            Some((l, p2)) => Some((SpecCondition::AllOf(l), p2)),
                                            None => None,
                                        }
                                    } else {
                                        None
                                    },
                                    None => match spec_token(
                                        s,
                                        pos,
                                        crate::sieve_lex::spec_kw_anyof(),
                                    ) {
                                        Some(p) => if pos < p && p <= s.len() {
                                            match spec_test_list(s, p) {
                                                Some((l, p2)) => Some(
                                                    (SpecCondition::AnyOf(l), p2),
                                                ),
                                                None => None,
                                            }
                                        } else {
                                            None
                                        },
                                        None => None,
                                    },
                                },
                            },
                        },
                    },
                },
            },
        },
    }
}

/// Zero or more further tests, each preceded by a comma.
pub open spec fn spec_test_items_more(s: Seq<u8>, pos: int) -> Option<(Seq<SpecCondition>, int)>
    decreases s.len() - pos, 2int,
{
    match spec_token(s, pos, crate::sieve_lex::spec_kw_comma()) {
        None => Some((Seq::empty(), pos)),
        Some(p) => if pos < p && p <= s.len() {
            match spec_test(s, p) {
                None => None,
                Some((v, p2)) => if p < p2 && p2 <= s.len() {
                    match spec_test_items_more(s, p2) {
                        Some((rest, p3)) => Some((seq![v] + rest, p3)),
                        None => None,
                    }
                } else {
                    Some((seq![v], p2))
                },
            }
        } else {
            None
        },
    }
}

/// Zero or more tests separated by commas.
pub open spec fn spec_test_items(s: Seq<u8>, pos: int) -> Option<(Seq<SpecCondition>, int)>
    decreases s.len() - pos, 1int,
{
    match spec_test(s, pos) {
        None => Some((Seq::empty(), pos)),
        Some((v, p)) => if pos < p && p <= s.len() {
            match spec_test_items_more(s, p) {
                Some((rest, p2)) => Some((seq![v] + rest, p2)),
                None => None,
            }
        } else {
            Some((seq![v], p))
        },
    }
}

/// A parenthesized comma-list of tests.
pub open spec fn spec_test_list(s: Seq<u8>, pos: int) -> Option<(Seq<SpecCondition>, int)>
    decreases s.len() - pos, 3int,
{
    match spec_token(s, pos, crate::sieve_lex::spec_kw_lparen()) {
        None => None,
        Some(p) => if pos < p && p <= s.len() {
            match spec_test_items(s, p) {
                None => None,
                Some((items, p2)) => match spec_token(s, p2, crate::sieve_lex::spec_kw_rparen()) {
                    Some(p3) => Some((items, p3)),
                    None => None,
                },
            }
        } else {
            None
        },
    }
}

/// Attach an `else` block to an `if` rule.
pub open spec fn spec_with_else(r: SpecRule, b: Seq<SpecRule>) -> SpecRule {
    match r {
        SpecRule::If { condition, elsif, else_ } => SpecRule::If {
            condition,
            elsif,
            else_: Some(b),
        },
        _ => r,
    }
}

/// `if <test> <block>`, optionally followed by `elsif <test> <block>`.
pub open spec fn spec_if_bare(s: Seq<u8>, pos: int) -> Option<(SpecRule, int)>
    decreases s.len() - pos, 0int,
{
    match spec_token(s, pos, crate::sieve_lex::spec_kw_if()) {
        None => None,
        Some(p) => if pos < p && p <= s.len() {
            match spec_test(s, p) {
                None => None,
                Some((c, p2)) => if pos < p2 && p2 <= s.len() {
                    match spec_block(s, p2) {
                        None => None,
                        Some((b, p3)) => {
                            let bare = SpecRule::If {
                                condition: (c, b),
                                elsif: None,
                                else_: None,
                            };
                            match spec_token(s, p3, crate::sieve_lex::spec_kw_elsif()) {
                                None => Some((bare, p3)),
                                Some(p4) => if pos < p4 && p4 <= s.len() {
                                    match spec_test(s, p4) {
                                        None => Some((bare, p3)),
                                        Some((c2, p5)) => if pos < p5 && p5 <= s.len() {
                                            match spec_block(s, p5) {
                                                None => Some((bare, p3)),
                                                Some((b2, p6)) => Some(
                                                    (
                                                        SpecRule::If {
                                                            condition: (c, b),
                                                            elsif: Some((c2, b2)),
                                                            else_: None,
                                                        },
                                                        p6,
                                                    ),
                                                ),
                                            }
                                        } else {
                                            Some((bare, p3))
                                        },
                                    }
                                } else {
                                    Some((bare, p3))
                                },
                            }
                        },
                    }
                } else {
                    None
                },
            }
        } else {
            None
        },
    }
}

/// An `if` rule with its optional `else` block.
pub open spec fn spec_if(s: Seq<u8>, pos: int) -> Option<(SpecRule, int)>
    decreases s.len() - pos, 1int,
{
    match spec_if_bare(s, pos) {
        None => None,
        Some((ifr, p)) => match spec_token(s, p, crate::sieve_lex::spec_kw_else()) {
            None => Some((ifr, p)),
            Some(p2) => if pos < p2 && p2 <= s.len() {
                match spec_block(s, p2) {
                    None => Some((ifr, p)),
                    Some((b, p3)) => Some((spec_with_else(ifr, b), p3)),
                }
            } else {
                Some((ifr, p))
            },
        },
    }
}

/// One rule: `stop;`, `keep;`, `discard;`, or an `if`.
pub open spec fn spec_rule(s: Seq<u8>, pos: int) -> Option<(SpecRule, int)>
    decreases s.len() - pos, 2int,
{
    match spec_token(s, pos, crate::sieve_lex::spec_kw_stop()) {
        Some(p) => match spec_token(s, p, crate::sieve_lex::spec_kw_semicolon()) {
            Some(p2) => Some((SpecRule::Stop, p2)),
            None => None,
        },
        None => match spec_token(s, pos, crate::sieve_lex::spec_kw_keep()) {
            Some(p) => match spec_token(s, p, crate::sieve_lex::spec_kw_semicolon()) {
                Some(p2) => Some((SpecRule::Keep, p2)),
                None => None,
            },
            None => match spec_token(s, pos, crate::sieve_lex::spec_kw_discard()) {
                Some(p) => match spec_token(s, p, crate::sieve_lex::spec_kw_semicolon()) {
                    Some(p2) => Some((SpecRule::Discard, p2)),
                    None => None,
                },
                None => spec_if(s, pos),
            },
        },
    }
}

/// Zero or more rules; stops at the first position where none parses.
pub open spec fn spec_rules(s: Seq<u8>, pos: int) -> (Seq<SpecRule>, int)
    decreases s.len() - pos, 3int,
{
    match spec_rule(s, pos) {
        None => (Seq::empty(), pos),
        Some((r, p)) => if pos < p && p <= s.len() {
            let rest = spec_rules(s, p);
            (seq![r] + rest.0, rest.1)
        } else {
            (seq![r], p)
        },
    }
}

/// A block: `{` rules `}`.
pub open spec fn spec_block(s: Seq<u8>, pos: int) -> Option<(Seq<SpecRule>, int)>
    decreases s.len() - pos, 4int,
{
    match spec_token(s, pos, crate::sieve_lex::spec_kw_lbrace()) {
        None => None,
        Some(p) => if pos < p && p <= s.len() {
            let rp = spec_rules(s, p);
            match spec_token(s, rp.1, crate::sieve_lex::spec_kw_rbrace()) {
                Some(p3) => Some((rp.0, p3)),
                None => None,
            }
        } else {
            None
        },
    }
}

/// A whole script: leading trivia, then rules until none parses. The
/// position tells how far the parse reached; a full parse reaches the
/// end of the input.
pub open spec fn spec_parse_sieve(s: Seq<u8>, pos: int) -> (Seq<SpecRule>, int) {
    spec_rules(s, spec_eat(s, pos))
}

/// Compare two byte slices.
pub fn bytes_eq(a: &[u8], b: &[u8]) -> (r: bool)
    ensures
        r == (a@ == b@),
{
    if a.len() != b.len() {
        proof {
            assert(a@ != b@);
        }
        return false;
    }
    let n = a.len();
    let mut i: usize = 0;
    while i < n
        invariant
            i <= n,
            n == a@.len() == b@.len(),
            forall|j: int| 0 <= j < i ==> a@[j] == #[trigger] b@[j],
        decreases n - i,
    {
        if a[i] != b[i] {
            proof {
                assert(a@[i as int] != b@[i as int]);
            }
            return false;
        }
        i = i + 1;
    }
    proof {
        assert(a@ =~= b@);
    }
    true
}

/// Match one literal and stand for `value`; consumes trivia around it.
pub fn literal_map<T: Copy>(s: &[u8], pos: usize, lit: &[u8], value: T) -> (r: Option<(T, usize)>)
    requires
        pos <= s@.len(),
        1 <= lit@.len(),
    ensures
        match r {
            Some((v, p)) => v == value && spec_token(s@, pos as int, lit@) == Some(p as int) && pos
                < p <= s@.len(),
            None => spec_token(s@, pos as int, lit@) is None,
        },
{
    match token(s, pos, lit) {
        Some(p) => Some((value, p)),
        None => None,
    }
}

/// Parse `:comparator` with its comparator name.
pub fn parse_sieve_comparator(s: &[u8], pos: usize) -> (r: Option<(CharacterOperator, usize)>)
    requires
        pos <= s@.len(),
    ensures
        match r {
            Some((v, p)) => spec_comparator(s@, pos as int) == Some((v, p as int)) && pos < p
                <= s@.len(),
            None => spec_comparator(s@, pos as int) is None,
        },
{
    let kw = kw_comparator();
    match token(s, pos, kw.as_slice()) {
        None => None,
        Some(p) => match string(s, p) {
            None => None,
            Some((c, p2)) => {
                let oct = kw_i_octet();
                if bytes_eq(c.as_slice(), oct.as_slice()) {
                    Some((CharacterOperator::Octet, p2))
                } else {
                    let cm = kw_i_casemap();
                    if bytes_eq(c.as_slice(), cm.as_slice()) {
                        Some((CharacterOperator::AsciiCasemap, p2))
                    } else {
                        None
                    }
                }
            },
        },
    }
}

/// Parse a match type: `:is`, `:contains` or `:matches`.
pub fn parse_sieve_match_type(s: &[u8], pos: usize) -> (r: Option<(MatchOperator, usize)>)
    requires
        pos <= s@.len(),
    ensures
        match r {
            Some((v, p)) => spec_match_type(s@, pos as int) == Some((v, p as int)) && pos < p
                <= s@.len(),
            None => spec_match_type(s@, pos as int) is None,
        },
{
    let k1 = kw_is();
    match literal_map(s, pos, k1.as_slice(), MatchOperator::Is) {
        Some(vp) => Some(vp),
        None => {
            let k2 = kw_contains();
            match literal_map(s, pos, k2.as_slice(), MatchOperator::Contains) {
                Some(vp) => Some(vp),
                None => {
                    let k3 = kw_matches();
                    literal_map(s, pos, k3.as_slice(), MatchOperator::Matches)
                },
            }
        },
    }
}

/// Parse an address part: `:localpart`, `:domain` or `:all`.
pub fn parse_sieve_address_type(s: &[u8], pos: usize) -> (r: Option<(AddressOperator, usize)>)
    requires
        pos <= s@.len(),
    ensures
        match r {
            Some((v, p)) => spec_address_type(s@, pos as int) == Some((v, p as int)) && pos < p
                <= s@.len(),
            None => spec_address_type(s@, pos as int) is None,
        },
{
    let k1 = kw_localpart();
    match literal_map(s, pos, k1.as_slice(), AddressOperator::Localpart) {
        Some(vp) => Some(vp),
        None => {
            let k2 = kw_domain();
            match literal_map(s, pos, k2.as_slice(), AddressOperator::Domain) {
                Some(vp) => Some(vp),
                None => {
                    let k3 = kw_all();
                    literal_map(s, pos, k3.as_slice(), AddressOperator::All)
                },
            }
        },
    }
}

/// Parse `:over <n>` or `:under <n>`.
pub fn parse_sieve_integer_operator(s: &[u8], pos: usize) -> (r: Option<(
    (IntegerOperator, u64),
    usize,
)>)
    requires
        pos <= s@.len(),
    ensures
        match r {
            Some((v, p)) => spec_integer_operator(s@, pos as int) == Some((v, p as int)) && pos < p
                <= s@.len(),
            None => spec_integer_operator(s@, pos as int) is None,
        },
{
    let k1 = kw_over();
    let op = match literal_map(s, pos, k1.as_slice(), IntegerOperator::Over) {
        Some(vp) => Some(vp),
        None => {
            let k2 = kw_under();
            literal_map(s, pos, k2.as_slice(), IntegerOperator::Under)
        },
    };
    match op {
        Some((o, p)) => match number(s, p) {
            Some((v, p2)) => Some(((o, v), p2)),
            None => None,
        },
        None => None,
    }
}

/// Parse the strings that follow the first one in a list.
fn string_items_more(s: &[u8], pos: usize) -> (r: Option<(Vec<Vec<u8>>, usize)>)
    requires
        pos <= s@.len(),
    ensures
        match r {
            Some((v, p)) => spec_string_items_more(s@, pos as int) == Some(
                (v.deep_view(), p as int),
            ) && pos <= p <= s@.len(),
            None => spec_string_items_more(s@, pos as int) is None,
        },
    decreases s@.len() - pos,
{
    let kc = kw_comma();
    match token(s, pos, kc.as_slice()) {
        None => {
            let v: Vec<Vec<u8>> = Vec::new();
            proof {
                assert(v.deep_view() =~= Seq::<Seq<u8>>::empty());
            }
            Some((v, pos))
        },
        Some(p) => match string(s, p) {
            None => None,
            Some((v, p2)) => match string_items_more(s, p2) {
                Some((rest, p3)) => {
                    let ghost grest = rest.deep_view();
                    let ghost gv = v@;
                    let mut out = rest;
                    out.insert(0, v);
                    proof {
                        assert(out.deep_view() =~= seq![gv] + grest) by {
                            assert(forall|i: int|
                                0 <= i < out@.len() ==> out.deep_view()[i] == #[trigger] out@[i]@);
                            assert(forall|i: int|
                                0 <= i < grest.len() ==> grest[i] == #[trigger] rest@[i]@);
                        }
                    }
                    Some((out, p3))
                },
                None => None,
            },
        },
    }
}

/// Parse zero or more comma-separated strings.
fn string_items(s: &[u8], pos: usize) -> (r: Option<(Vec<Vec<u8>>, usize)>)
    requires
        pos <= s@.len(),
    ensures
        match r {
            Some((v, p)) => spec_string_items(s@, pos as int) == Some((v.deep_view(), p as int))
                && pos <= p <= s@.len(),
            None => spec_string_items(s@, pos as int) is None,
        },
{
    match string(s, pos) {
        None => {
            let v: Vec<Vec<u8>> = Vec::new();
            proof {
                assert(v.deep_view() =~= Seq::<Seq<u8>>::empty());
            }
            Some((v, pos))
        },
        Some((v, p)) => match string_items_more(s, p) {
            Some((rest, p2)) => {
                let ghost grest = rest.deep_view();
                let ghost gv = v@;
                let mut out = rest;
                out.insert(0, v);
                proof {
                    assert(out.deep_view() =~= seq![gv] + grest) by {
                        assert(forall|i: int|
                            0 <= i < out@.len() ==> out.deep_view()[i] == #[trigger] out@[i]@);
                        assert(forall|i: int|
                            0 <= i < grest.len() ==> grest[i] == #[trigger] rest@[i]@);
                    }
                }
                Some((out, p2))
            },
            None => None,
        },
    }
}

/// Parse a string list: bracketed and comma-separated, or one string.
pub fn string_list(s: &[u8], pos: usize) -> (r: Option<(Vec<Vec<u8>>, usize)>)
    requires
        pos <= s@.len(),
    ensures
        match r {
            Some((v, p)) => spec_string_list(s@, pos as int) == Some((v.deep_view(), p as int))
                && pos < p <= s@.len(),
            None => spec_string_list(s@, pos as int) is None,
        },
{
    let kl = kw_lbracket();
    match token(s, pos, kl.as_slice()) {
        Some(p) => match string_items(s, p) {
            Some((items, p2)) => {
                let kr = kw_rbracket();
                match token(s, p2, kr.as_slice()) {
                    Some(p3) => Some((items, p3)),
                    None => None,
                }
            },
            None => None,
        },
        None => match string(s, pos) {
            Some((v, p)) => {
                let ghost gv = v@;
                let mut out: Vec<Vec<u8>> = Vec::new();
                out.push(v);
                proof {
                    assert(out.deep_view() =~= seq![gv]) by {
                        assert(forall|i: int|
                            0 <= i < out@.len() ==> out.deep_view()[i] == #[trigger] out@[i]@);
                    }
                }
                Some((out, p))
            },
            None => None,
        },
    }
}

/// Consume the optional `header` qualifiers in any order.
fn header_perm(
    s: &[u8],
    pos: usize,
    c: Option<CharacterOperator>,
    m: Option<MatchOperator>,
) -> (r: ((Option<CharacterOperator>, Option<MatchOperator>), usize))
    requires
        pos <= s@.len(),
    ensures
        ({
            let g = spec_header_perm(s@, pos as int, c, m);
            r.0 == g.0 && r.1 as int == g.1 && pos <= r.1 <= s@.len()
        }),
    decreases s@.len() - pos,
{
    if c.is_none() {
        match parse_sieve_comparator(s, pos) {
            Some((v, p)) => {
                return header_perm(s, p, Some(v), m);
            },
            None => {},
        }
    }
    if m.is_none() {
        match parse_sieve_match_type(s, pos) {
            Some((v, p)) => {
                return header_perm(s, p, c, Some(v));
            },
            None => {},
        }
    }
    ((c, m), pos)
}

/// Consume the optional `address` qualifiers in any order.
fn addr_perm(
    s: &[u8],
    pos: usize,
    m: Option<MatchOperator>,
    c: Option<CharacterOperator>,
    a: Option<AddressOperator>,
) -> (r: ((Option<MatchOperator>, Option<CharacterOperator>, Option<AddressOperator>), usize))
    requires
        pos <= s@.len(),
    ensures
        ({
            let g = spec_addr_perm(s@, pos as int, m, c, a);
            r.0 == g.0 && r.1 as int == g.1 && pos <= r.1 <= s@.len()
        }),
    decreases s@.len() - pos,
{
    if m.is_none() {
        match parse_sieve_match_type(s, pos) {
            Some((v, p)) => {
                return addr_perm(s, p, Some(v), c, a);
            },
            None => {},
        }
    }
    if c.is_none() {
        match parse_sieve_comparator(s, pos) {
            Some((v, p)) => {
                return addr_perm(s, p, m, Some(v), a);
            },
            None => {},
        }
    }
    if a.is_none() {
        match parse_sieve_address_type(s, pos) {
            Some((v, p)) => {
                return addr_perm(s, p, m, c, Some(v));
            },
            None => {},
        }
    }
    ((m, c, a), pos)
}

/// Parse a `header` test.
pub fn parse_sieve_header(s: &[u8], pos: usize) -> (r: Option<(ConditionRule, usize)>)
    requires
        pos <= s@.len(),
    ensures
        match r {
            Some((v, p)) => spec_header(s@, pos as int) matches Some(g) && rel_cond(&v, g.0) && g.1
                == p as int && pos < p <= s@.len(),
            None => spec_header(s@, pos as int) is None,
        },
{
    let kw = kw_header();
    match token(s, pos, kw.as_slice()) {
        None => None,
        Some(p) => {
            let q = header_perm(s, p, None, None);
            match string_list(s, q.1) {
                None => None,
                Some((names, p2)) => match string_list(s, p2) {
                    None => None,
                    Some((keys, p3)) => {
                        let v = ConditionRule::Header {
                            comparator: q.0.0,
                            match_operator: q.0.1,
                            header_names: names,
                            key_list: keys,
                        };
                        Some((v, p3))
                    },
                },
            }
        },
    }
}

/// Parse an `address` test.
pub fn parse_sieve_address(s: &[u8], pos: usize) -> (r: Option<(ConditionRule, usize)>)
    requires
        pos <= s@.len(),
    ensures
        match r {
            Some((v, p)) => spec_address(s@, pos as int) matches Some(g) && rel_cond(&v, g.0) && g.1
                == p as int && pos < p <= s@.len(),
            None => spec_address(s@, pos as int) is None,
        },
{
    let kw = kw_address();
    match token(s, pos, kw.as_slice()) {
        None => None,
        Some(p) => {
            let q = addr_perm(s, p, None, None, None);
            match string_list(s, q.1) {
                None => None,
                Some((hdrs, p2)) => match string_list(s, p2) {
                    None => None,
                    Some((keys, p3)) => {
                        let v = ConditionRule::Address {
                            comparator: q.0.1,
                            address_part: q.0.2,
                            match_type: q.0.0,
                            header_list: hdrs,
                            key_list: keys,
                        };
                        Some((v, p3))
                    },
                },
            }
        },
    }
}

/// Parse one test.
#[verifier::rlimit(100)]
pub fn parse_sieve_test(s: &[u8], pos: usize) -> (r: Option<(ConditionRule, usize)>)
    requires
        pos <= s@.len(),
    ensures
        match r {
            Some((v, p)) => spec_test(s@, pos as int) matches Some(g) && rel_cond(&v, g.0) && g.1
                == p as int && pos < p <= s@.len(),
            None => spec_test(s@, pos as int) is None,
        },
    decreases s@.len() - pos, 0int,
{
    let kt = kw_true();
    match token(s, pos, kt.as_slice()) {
        Some(p) => {
            return Some((ConditionRule::Literal(true), p));
        },
        None => {},
    }
    let kf = kw_false();
    match token(s, pos, kf.as_slice()) {
        Some(p) => {
            return Some((ConditionRule::Literal(false), p));
        },
        None => {},
    }
    let ke = kw_exists();
    match token(s, pos, ke.as_slice()) {
        Some(p) => {
            return match string_list(s, p) {
                Some((l, p2)) => Some((ConditionRule::Exists(l), p2)),
                None => None,
            };
        },
        None => {},
    }
    let ks = kw_size();
    match token(s, pos, ks.as_slice()) {
        Some(p) => {
            return match parse_sieve_integer_operator(s, p) {
                Some(((o, v), p2)) => Some((ConditionRule::Size { operator: o, limit: v }, p2)),
                None => None,
            };
        },
        None => {},
    }
    let kn = kw_not();
    match token(s, pos, kn.as_slice()) {
        Some(p) => {
            return match parse_sieve_test(s, p) {
                Some((c, p2)) => {
                    let ghost gc = spec_test(s@, p as int)->Some_0.0;
                    let v = ConditionRule::Not(Box::new(c));
                    proof {
                        assert(rel_cond(&v, SpecCondition::Not(seq![gc])));
                    }
                    Some((v, p2))
                },
                None => None,
            };
        },
        None => {},
    }
    match parse_sieve_header(s, pos) {
        Some(vp) => {
            return Some(vp);
        },
        None => {},
    }
    match parse_sieve_address(s, pos) {
        Some(vp) => {
            return Some(vp);
        },
        None => {},
    }
    let ka = kw_allof();
    match token(s, pos, ka.as_slice()) {
        Some(p) => {
            return match test_list(s, p) {
                Some((l, p2)) => Some((ConditionRule::AllOf(l), p2)),
                None => None,
            };
        },
        None => {},
    }
    let ky = kw_anyof();
    match token(s, pos, ky.as_slice()) {
        Some(p) => {
            return match test_list(s, p) {
                Some((l, p2)) => Some((ConditionRule::AnyOf(l), p2)),
                None => None,
            };
        },
        None => {},
    }
    None
}

/// Parse the tests that follow the first one in a test list.
fn test_items_more(s: &[u8], pos: usize) -> (r: Option<(Vec<ConditionRule>, usize)>)
    requires
        pos <= s@.len(),
    ensures
        match r {
            Some((v, p)) => spec_test_items_more(s@, pos as int) matches Some(g) && rel_conds(
                &v,
                g.0,
            ) && g.1 == p as int && pos <= p <= s@.len(),
            None => spec_test_items_more(s@, pos as int) is None,
        },
    decreases s@.len() - pos, 2int,
{
    let kc = kw_comma();
    match token(s, pos, kc.as_slice()) {
        None => {
            let v: Vec<ConditionRule> = Vec::new();
            proof {
                assert(rel_conds(&v, Seq::<SpecCondition>::empty()));
            }
            Some((v, pos))
        },
        Some(p) => match parse_sieve_test(s, p) {
            None => None,
            Some((v, p2)) => {
                let ghost gv = spec_test(s@, p as int)->Some_0.0;
                match test_items_more(s, p2) {
                    Some((rest, p3)) => {
                        let ghost grest = spec_test_items_more(s@, p2 as int)->Some_0.0;
                        let mut out = rest;
                        out.insert(0, v);
                        proof {
                            lemma_rel_conds_prepend(&out, gv, grest);
                        }
                        Some((out, p3))
                    },
                    None => None,
                }
            },
        },
    }
}

/// Prepending related elements keeps lists related.
proof fn lemma_rel_conds_prepend(out: &Vec<ConditionRule>, gv: SpecCondition, grest: Seq<
    SpecCondition,
>)
    requires
        out@.len() == grest.len() + 1,
        rel_cond(&out@[0], gv),
        forall|i: int| 0 <= i < grest.len() ==> rel_cond(&out@[i + 1], #[trigger] grest[i]),
    ensures
        rel_conds(out, seq![gv] + grest),
{
    let gs = seq![gv] + grest;
    assert forall|i: int| 0 <= i < gs.len() implies rel_cond(&out@[i], #[trigger] gs[i]) by {
        if i == 0 {
            assert(gs[0] == gv);
        } else {
            assert(gs[i] == grest[i - 1]);
            assert(rel_cond(&out@[i], grest[i - 1]));
        }
    }
}

/// Parse zero or more comma-separated tests.
fn test_items(s: &[u8], pos: usize) -> (r: Option<(Vec<ConditionRule>, usize)>)
    requires
        pos <= s@.len(),
    ensures
        match r {
            Some((v, p)) => spec_test_items(s@, pos as int) matches Some(g) && rel_conds(&v, g.0)
                && g.1 == p as int && pos <= p <= s@.len(),
            None => spec_test_items(s@, pos as int) is None,
        },
    decreases s@.len() - pos, 1int,
{
    match parse_sieve_test(s, pos) {
        None => {
            let v: Vec<ConditionRule> = Vec::new();
            proof {
                assert(rel_conds(&v, Seq::<SpecCondition>::empty()));
            }
            Some((v, pos))
        },
        Some((v, p)) => {
            let ghost gv = spec_test(s@, pos as int)->Some_0.0;
            match test_items_more(s, p) {
                Some((rest, p2)) => {
                    let ghost grest = spec_test_items_more(s@, p as int)->Some_0.0;
                    let mut out = rest;
                    out.insert(0, v);
                    proof {
                        lemma_rel_conds_prepend(&out, gv, grest);
                    }
                    Some((out, p2))
                },
                None => None,
            }
        },
    }
}

/// Parse a parenthesized comma-list of tests.
pub fn test_list(s: &[u8], pos: usize) -> (r: Option<(Vec<ConditionRule>, usize)>)
    requires
        pos <= s@.len(),
    ensures
        match r {
            Some((v, p)) => spec_test_list(s@, pos as int) matches Some(g) && rel_conds(&v, g.0)
                && g.1 == p as int && pos < p <= s@.len(),
            None => spec_test_list(s@, pos as int) is None,
        },
    decreases s@.len() - pos, 3int,
{
    let kl = kw_lparen();
    match token(s, pos, kl.as_slice()) {
        None => None,
        Some(p) => match test_items(s, p) {
            None => None,
            Some((items, p2)) => {
                let kr = kw_rparen();
                match token(s, p2, kr.as_slice()) {
                    Some(p3) => Some((items, p3)),
                    None => None,
                }
            },
        },
    }
}

/// Prepending related elements keeps rule lists related.
proof fn lemma_rel_rules_prepend(out: &Vec<Rule>, gv: SpecRule, grest: Seq<SpecRule>)
    requires
        out@.len() == grest.len() + 1,
        rel_rule(&out@[0], gv),
        forall|i: int| 0 <= i < grest.len() ==> rel_rule(&out@[i + 1], #[trigger] grest[i]),
    ensures
        rel_rules(out, seq![gv] + grest),
{
    let gs = seq![gv] + grest;
    assert forall|i: int| 0 <= i < gs.len() implies rel_rule(&out@[i], #[trigger] gs[i]) by {
        if i == 0 {
            assert(gs[0] == gv);
        } else {
            assert(gs[i] == grest[i - 1]);
            assert(rel_rule(&out@[i], grest[i - 1]));
        }
    }
}

/// Parse an `if` with its optional `elsif` arm.
#[verifier::rlimit(100)]
#[verifier::spinoff_prover]
pub fn parse_sieve_if_bare(s: &[u8], pos: usize) -> (r: Option<(Rule, usize)>)
    requires
        pos <= s@.len(),
    ensures
        match r {
            Some((v, p)) => spec_if_bare(s@, pos as int) matches Some(g) && rel_rule(&v, g.0) && g.1
                == p as int && pos < p <= s@.len(),
            None => spec_if_bare(s@, pos as int) is None,
        },
    decreases s@.len() - pos, 0int,
{
    let ki = kw_if();
    let p = match token(s, pos, ki.as_slice()) {
        None => {
            return None;
        },
        Some(p) => p,
    };
    let (c, p2) = match parse_sieve_test(s, p) {
        None => {
            return None;
        },
        Some(cp) => cp,
    };
    let ghost gc = spec_test(s@, p as int)->Some_0.0;
    let (b, p3) = match parse_sieve_block(s, p2) {
        None => {
            return None;
        },
        Some(bp) => bp,
    };
    let ghost gb = spec_block(s@, p2 as int)->Some_0.0;
    let ke = kw_elsif();
    let p4 = match token(s, p3, ke.as_slice()) {
        None => {
            let v = Rule::If { condition: CondBlock { test: c, block: b }, elsif: None, else_: None };
            return Some((v, p3));
        },
        Some(p4) => p4,
    };
    let (c2, p5) = match parse_sieve_test(s, p4) {
        None => {
            let v = Rule::If { condition: CondBlock { test: c, block: b }, elsif: None, else_: None };
            return Some((v, p3));
        },
        Some(cp) => cp,
    };
    let ghost gc2 = spec_test(s@, p4 as int)->Some_0.0;
    match parse_sieve_block(s, p5) {
        None => {
            let v = Rule::If { condition: CondBlock { test: c, block: b }, elsif: None, else_: None };
            Some((v, p3))
        },
        Some((b2, p6)) => {
            let v = Rule::If {
                condition: CondBlock { test: c, block: b },
                elsif: Some(CondBlock { test: c2, block: b2 }),
                else_: None,
            };
            Some((v, p6))
        },
    }
}

/// Parse an `if` rule with its optional `else` block.
#[verifier::rlimit(100)]
#[verifier::spinoff_prover]
pub fn parse_sieve_if(s: &[u8], pos: usize) -> (r: Option<(Rule, usize)>)
    requires
        pos <= s@.len(),
    ensures
        match r {
            Some((v, p)) => spec_if(s@, pos as int) matches Some(g) && rel_rule(&v, g.0) && g.1
                == p as int && pos < p <= s@.len(),
            None => spec_if(s@, pos as int) is None,
        },
    decreases s@.len() - pos, 1int,
{
    let (ifr, p) = match parse_sieve_if_bare(s, pos) {
        None => {
            return None;
        },
        Some(vp) => vp,
    };
    let ghost gif = spec_if_bare(s@, pos as int)->Some_0.0;
    let ke = kw_else();
    let p2 = match token(s, p, ke.as_slice()) {
        None => {
            return Some((ifr, p));
        },
        Some(p2) => p2,
    };
    match parse_sieve_block(s, p2) {
        None => Some((ifr, p)),
        Some((b, p3)) => {
            let ghost gb = spec_block(s@, p2 as int)->Some_0.0;
            let v = match ifr {
                Rule::If { condition, elsif, else_: _ } => Rule::If {
                    condition,
                    elsif,
                    else_: Some(b),
                },
                other => other,
            };
            proof {
                assert(rel_rule(&v, spec_with_else(gif, gb)));
            }
            Some((v, p3))
        },
    }
}

/// Parse one rule.
pub fn parse_sieve_rule(s: &[u8], pos: usize) -> (r: Option<(Rule, usize)>)
    requires
        pos <= s@.len(),
    ensures
        match r {
            Some((v, p)) => spec_rule(s@, pos as int) matches Some(g) && rel_rule(&v, g.0) && g.1
                == p as int && pos < p <= s@.len(),
            None => spec_rule(s@, pos as int) is None,
        },
    decreases s@.len() - pos, 2int,
{
    let ksemi = kw_semicolon();
    let kst = kw_stop();
    match token(s, pos, kst.as_slice()) {
        Some(p) => {
            return match token(s, p, ksemi.as_slice()) {
                Some(p2) => Some((Rule::Stop, p2)),
                None => None,
            };
        },
        None => {},
    }
    let kke = kw_keep();
    match token(s, pos, kke.as_slice()) {
        Some(p) => {
            return match token(s, p, ksemi.as_slice()) {
                Some(p2) => Some((Rule::Keep, p2)),
                None => None,
            };
        },
        None => {},
    }
    let kdi = kw_discard();
    match token(s, pos, kdi.as_slice()) {
        Some(p) => {
            return match token(s, p, ksemi.as_slice()) {
                Some(p2) => Some((Rule::Discard, p2)),
                None => None,
            };
        },
        None => {},
    }
    parse_sieve_if(s, pos)
}

/// Parse rules until none parses; tell how far the parse reached.
fn parse_rules(s: &[u8], pos: usize) -> (r: (Vec<Rule>, usize))
    requires
        pos <= s@.len(),
    ensures
        ({
            let g = spec_rules(s@, pos as int);
            rel_rules(&r.0, g.0) && r.1 as int == g.1 && pos <= r.1 <= s@.len()
        }),
    decreases s@.len() - pos, 3int,
{
    match parse_sieve_rule(s, pos) {
        None => {
            let v: Vec<Rule> = Vec::new();
            proof {
                assert(rel_rules(&v, Seq::<SpecRule>::empty()));
            }
            (v, pos)
        },
        Some((rule, p)) => {
            let ghost gv = spec_rule(s@, pos as int)->Some_0.0;
            let (rest, p2) = parse_rules(s, p);
            let ghost grest = spec_rules(s@, p as int).0;
            let mut out = rest;
            out.insert(0, rule);
            proof {
                lemma_rel_rules_prepend(&out, gv, grest);
            }
            (out, p2)
        },
    }
}

/// Parse a block: `{` rules `}`.
pub fn parse_sieve_block(s: &[u8], pos: usize) -> (r: Option<(RuleBlock, usize)>)
    requires
        pos <= s@.len(),
    ensures
        match r {
            Some((v, p)) => spec_block(s@, pos as int) matches Some(g) && rel_rules(&v.0, g.0)
                && g.1 == p as int && pos < p <= s@.len(),
            None => spec_block(s@, pos as int) is None,
        },
    decreases s@.len() - pos, 4int,
{
    let kl = kw_lbrace();
    match token(s, pos, kl.as_slice()) {
        None => None,
        Some(p) => {
            let (rules, p2) = parse_rules(s, p);
            let kr = kw_rbrace();
            match token(s, p2, kr.as_slice()) {
                Some(p3) => Some((RuleBlock(rules), p3)),
                None => None,
            }
        },
    }
}

/// Parse a whole script; the position tells how far the parse reached,
/// and equals the input length exactly when the whole script parsed.
pub fn parse_sieve(s: &[u8]) -> (r: (Vec<Rule>, usize))
    ensures
        ({
            let g = spec_parse_sieve(s@, 0);
            rel_rules(&r.0, g.0) && r.1 as int == g.1 && r.1 <= s@.len()
        }),
{
    let p = eat(s, 0);
    parse_rules(s, p)
}

/// Parse a whole script, demanding that all input is consumed; on
/// failure the error carries the offset the parse reached.
pub fn parse_sieve_script(s: &[u8]) -> (r: Result<Vec<Rule>, MeliError>)
    ensures
        match r {
            Ok(v) => spec_parse_sieve(s@, 0).1 == s@.len() && rel_rules(&v, spec_parse_sieve(s@, 0).0),
            Err(e) => spec_parse_sieve(s@, 0).1 != s@.len() && (e matches MeliError::Parse {
                offset,
            } && offset as int == spec_parse_sieve(s@, 0).1),
        },
{
    let (rules, p) = parse_sieve(s);
    if p == s.len() {
        Ok(rules)
    } else {
        Err(MeliError::Parse { offset: p })
    }
}

} // verus!
