use meli::sieve::parse_sieve;
use meli::sieve_print::reformat;
use meli::sieve::parse_sieve_rule;
use meli::sieve::parse_sieve_test;
use meli::sieve::parse_sieve_integer_operator;
use meli::sieve::string_list;
use meli::sieve::AddressOperator::Domain;
use meli::sieve::CharacterOperator::Octet;
use meli::sieve::CondBlock;
use meli::sieve::ConditionRule;
use meli::sieve::ConditionRule::AllOf;
use meli::sieve::ConditionRule::AnyOf;
use meli::sieve::ConditionRule::Exists;
use meli::sieve::ConditionRule::Header;
use meli::sieve::ConditionRule::Literal;
use meli::sieve::ConditionRule::Not;
use meli::sieve::ConditionRule::Size;
use meli::sieve::IntegerOperator::Over;
use meli::sieve::IntegerOperator::Under;
use meli::sieve::MatchOperator::Contains;
use meli::sieve::MatchOperator::Is;
use meli::sieve::MatchOperator::Matches;
use meli::sieve::Rule;
use meli::sieve::Rule::Discard;
use meli::sieve::Rule::If;
use meli::sieve::Rule::Keep;
use meli::sieve::Rule::Stop;
use meli::sieve::RuleBlock;

fn v(s: &str) -> Vec<u8> {
    s.as_bytes().to_vec()
}

fn parse_all(input: &str) -> Vec<Rule> {
    let (rules, pos) = parse_sieve(input.as_bytes());
    assert_eq!(pos, input.len(), "whole input must be consumed");
    rules
}

#[test]
fn test_sieve_parse_strings() {
    let input = r#"["fileinto", "reject"]"#.as_bytes();
    let (list, pos) = string_list(input, 0).unwrap();
    assert_eq!(pos, input.len());
    assert_eq!(list, vec![v("fileinto"), v("reject")]);

    let input = r#""fileinto""#.as_bytes();
    let (list, pos) = string_list(input, 0).unwrap();
    assert_eq!(pos, input.len());
    assert_eq!(list, vec![v("fileinto")]);
}

#[test]
fn test_sieve_parse_conditionals() {
    // Permutations of two optional qualifiers.
    let raw_input = "header :contains :comparator \"i;octet\" \"Subject\"\n                   \"MAKE MONEY FAST\"";
    let (first, pos) = parse_sieve_test(raw_input.as_bytes(), 0).unwrap();
    assert_eq!(pos, raw_input.len());
    let expected_header = || Header {
        comparator: Some(Octet),
        match_operator: Some(Contains),
        header_names: vec![v("Subject")],
        key_list: vec![v("MAKE MONEY FAST")],
    };
    assert_eq!(expected_header(), first);

    let raw_input = "header :comparator \"i;octet\" :contains \"Subject\"\n                   \"MAKE MONEY FAST\"";
    let (second, pos) = parse_sieve_test(raw_input.as_bytes(), 0).unwrap();
    assert_eq!(pos, raw_input.len());
    assert_eq!(expected_header(), second);

    // Permutations of three optional qualifiers.
    let expected_address = || ConditionRule::Address {
        comparator: Some(Octet),
        address_part: Some(Domain),
        match_type: Some(Is),
        header_list: vec![v("From"), v("To")],
        key_list: vec![v("example.com")],
    };
    let raw_input = r#"address :DOMAIN :comparator "i;octet" :is ["From", "To"] "example.com""#;
    let (first, pos) = parse_sieve_test(raw_input.as_bytes(), 0).unwrap();
    assert_eq!(pos, raw_input.len());
    assert_eq!(expected_address(), first);

    let raw_input = r#"address :DOMAIN :is :comparator "i;octet"  ["From", "To"] "example.com""#;
    let (r, pos) = parse_sieve_test(raw_input.as_bytes(), 0).unwrap();
    assert_eq!(pos, raw_input.len());
    assert_eq!(expected_address(), r);

    let raw_input = r#"address :is :DOMAIN :comparator "i;octet"  ["From", "To"] "example.com""#;
    let (r, pos) = parse_sieve_test(raw_input.as_bytes(), 0).unwrap();
    assert_eq!(pos, raw_input.len());
    assert_eq!(expected_address(), r);

    let raw_input = r#"address :is :comparator "i;octet" :DOMAIN ["From", "To"] "example.com""#;
    let (r, pos) = parse_sieve_test(raw_input.as_bytes(), 0).unwrap();
    assert_eq!(pos, raw_input.len());
    assert_eq!(expected_address(), r);
}

#[test]
fn test_sieve_parse_ifs() {
    let raw_input = "if true {\nstop ;\n}";
    let (rule, pos) = parse_sieve_rule(raw_input.as_bytes(), 0).unwrap();
    assert_eq!(pos, raw_input.len());
    assert_eq!(
        If {
            condition: CondBlock { test: Literal(true), block: RuleBlock(vec![Stop]) },
            elsif: None,
            else_: None,
        },
        rule
    );

    let raw_input = r#"# Reject all messages that contain the string "viagra"in the Subject.
if header :contains "subject" "viagra"
{
    discard;
} else {
    keep;
}"#;
    assert_eq!(
        vec![If {
            condition: CondBlock {
                test: Header {
                    comparator: None,
                    match_operator: Some(Contains),
                    header_names: vec![v("subject")],
                    key_list: vec![v("viagra")],
                },
                block: RuleBlock(vec![Discard]),
            },
            elsif: None,
            else_: Some(RuleBlock(vec![Keep])),
        }],
        parse_all(raw_input)
    );

    let raw_input = r#"# Reject all messages that contain the string "viagra"in the Subject.
if header :contains "subject" "viagra"
{
    discard;
}
# Silently discard all messages sent from the tax man
elsif address :matches :domain "from" "*hmrc.gov.uk"
{
    keep;
}"#;
    assert_eq!(
        vec![If {
            condition: CondBlock {
                test: Header {
                    comparator: None,
                    match_operator: Some(Contains),
                    header_names: vec![v("subject")],
                    key_list: vec![v("viagra")],
                },
                block: RuleBlock(vec![Discard]),
            },
            elsif: Some(CondBlock {
                test: ConditionRule::Address {
                    comparator: None,
                    address_part: Some(Domain),
                    match_type: Some(Matches),
                    header_list: vec![v("from")],
                    key_list: vec![v("*hmrc.gov.uk")],
                },
                block: RuleBlock(vec![Keep]),
            }),
            else_: None,
        }],
        parse_all(raw_input)
    );
}

#[test]
fn test_sieve_parse() {
    let raw_input = "# The hash character starts a one-line comment.\n\n";
    assert_eq!(Vec::<Rule>::new(), parse_all(raw_input));

    let raw_input = r#"# The hash character starts a one-line comment.
# Everything after a # character until the end of line is ignored.

/* this is a bracketed (C-style) comment. This type of comment can stretch
 * over many lines. A bracketed comment begins with a forward slash, followed
 * by an asterisk and ends with the inverse sequence: an asterisk followed
 * by a forward slash. */
"#;
    assert_eq!(Vec::<Rule>::new(), parse_all(raw_input));

    // Test lists (allof, anyof).
    let raw_input = r#"# This test checks against Spamassassin's header fields:
# If the spam level ls 4 or more and the Subject contains too
# many illegal characters, then silently discard the mail.
if allof (header :contains "X-Spam-Level" "****",
          header :contains "X-Spam-Report" "FROM_ILLEGAL_CHARS")
{
    discard;
}
# Discard mails that do not have a Date: or From: header field
# or mails that are sent from the marketing department at example.com.
elsif anyof (not exists ["from", "date"],
        header :contains "from" "marketing@example.com") {
    discard;
}"#;
    assert_eq!(
        vec![If {
            condition: CondBlock {
                test: AllOf(vec![
                    Header {
                        comparator: None,
                        match_operator: Some(Contains),
                        header_names: vec![v("X-Spam-Level")],
                        key_list: vec![v("****")],
                    },
                    Header {
                        comparator: None,
                        match_operator: Some(Contains),
                        header_names: vec![v("X-Spam-Report")],
                        key_list: vec![v("FROM_ILLEGAL_CHARS")],
                    },
                ]),
                block: RuleBlock(vec![Discard]),
            },
            elsif: Some(CondBlock {
                test: AnyOf(vec![
                    Not(Box::new(Exists(vec![v("from"), v("date")]))),
                    Header {
                        comparator: None,
                        match_operator: Some(Contains),
                        header_names: vec![v("from")],
                        key_list: vec![v("marketing@example.com")],
                    },
                ]),
                block: RuleBlock(vec![Discard]),
            }),
            else_: None,
        }],
        parse_all(raw_input)
    );

    // Filter on message size.
    let raw_input = r#"# Delete messages greater than half a MB
if size :over 500K
{
    discard;
}
# Also delete small mails, under 1k
if size :under 1k
{
    discard;
}"#;
    assert_eq!(
        vec![
            If {
                condition: CondBlock {
                    test: Size { operator: Over, limit: 500000 },
                    block: RuleBlock(vec![Discard]),
                },
                elsif: None,
                else_: None,
            },
            If {
                condition: CondBlock {
                    test: Size { operator: Under, limit: 1000 },
                    block: RuleBlock(vec![Discard]),
                },
                elsif: None,
                else_: None,
            },
        ],
        parse_all(raw_input)
    );
}

#[test]
fn sieve_parse_error_offset() {
    let raw_input = "if true { stop; } garbage";
    let err = meli::sieve::parse_sieve_script(raw_input.as_bytes()).unwrap_err();
    assert_eq!(err, meli::error::MeliError::Parse { offset: 18 });
}

#[test]
fn sieve_number_quantifiers() {
    let input = ":over 2M".as_bytes();
    let ((op, n), pos) = parse_sieve_integer_operator(input, 0).unwrap();
    assert_eq!(op, Over);
    assert_eq!(n, 2_000_000);
    assert_eq!(pos, input.len());
    let input = ":under 3G".as_bytes();
    let ((op, n), _) = parse_sieve_integer_operator(input, 0).unwrap();
    assert_eq!(op, Under);
    assert_eq!(n, 3_000_000_000);
}

#[test]
fn sieve_print_parse_round_trip() {
    // parse(print(parse(s))) == parse(s): re-reading the canonical
    // form gives the same rules, and printing is idempotent.
    let src = r#"# weekly cleanup
if header :contains "subject" "viagra" { discard; } else { keep; }
if anyof (not exists ["from", "date"], size :over 500K) { stop; }
keep;"#;
    let (rules1, pos1) = parse_sieve(src.as_bytes());
    assert_eq!(pos1, src.len());
    let printed = reformat(src.as_bytes());
    let (rules2, pos2) = parse_sieve(&printed);
    assert_eq!(pos2, printed.len());
    assert_eq!(rules1, rules2);
    assert_eq!(reformat(&printed), printed);
}

#[test]
fn sieve_print_escapes_strings() {
    let src = "if header :is \"x\" \"a\\\"b\\\\c\" { keep; }";
    let (rules1, pos1) = parse_sieve(src.as_bytes());
    assert_eq!(pos1, src.len());
    let printed = reformat(src.as_bytes());
    let (rules2, pos2) = parse_sieve(&printed);
    assert_eq!(pos2, printed.len());
    assert_eq!(rules1, rules2);
}
