//! The IMAP command session: tagged command framing with monotonically
//! increasing `M<n>` tags, the login sequence an idle connection replays
//! before its next command, and a classifier for response lines.
//!
//! All socket work stays with the host; this module decides what bytes
//! to send and what a received line means.

use vstd::prelude::*;

use crate::sieve_lex::spec_dec_val;
use crate::sieve_lex::spec_digits_end;

verus! {

broadcast use {
    crate::sieve_lex::lemma_skip_ws_bounds,
    crate::sieve_lex::lemma_digits_end_bounds,
};

/// The decimal digits of `n`.
pub open spec fn spec_dec_digits(n: int) -> Seq<u8>
    decreases n,
{
    if n < 10 {
        seq![(48 + (if n >= 0 {
            n
        } else {
            0
        })) as u8]
    } else {
        spec_dec_digits(n / 10) + seq![(48 + n % 10) as u8]
    }
}

/// Render a number in decimal.
pub fn dec_digits(n: u64) -> (r: Vec<u8>)
    ensures
        r@ == spec_dec_digits(n as int),
    decreases n,
{
    if n < 10 {
        let v: Vec<u8> = vec![48 + (n as u8)];
        proof {
            assert(v@ =~= spec_dec_digits(n as int));
        }
        v
    } else {
        let mut v = dec_digits(n / 10);
        v.push(48 + ((n % 10) as u8));
        proof {
            assert(v@ =~= spec_dec_digits(n as int));
        }
        v
    }
}

/// The full wire form of one tagged command:
/// `M<tag> SP <command> CRLF`.
pub open spec fn spec_command_line(tag: int, command: Seq<u8>) -> Seq<u8> {
    seq![77u8] + spec_dec_digits(tag) + seq![32u8] + command + seq![13u8, 10u8]
}

/// The command session of one connection: the next tag to use, and the
/// ghost history of tags already put on the wire.
pub struct ImapStream {
    pub cmd_id: usize,
    pub sent: Ghost<Seq<int>>,
}

impl ImapStream {
    /// Tags are issued gaplessly from zero.
    pub open spec fn wf(&self) -> bool {
        &&& self.sent@.len() == self.cmd_id
        &&& forall|k: int| 0 <= k < self.sent@.len() ==> #[trigger] self.sent@[k] == k
    }

    /// A fresh session; its first command carries tag `M0`.
    pub fn new() -> (r: ImapStream)
        ensures
            r.wf(),
            r.cmd_id == 0,
    {
        ImapStream { cmd_id: 0, sent: Ghost(Seq::empty()) }
    }

    /// Frame one command: the bytes to put on the wire and the tag id
    /// they carry, which is the count of commands sent before.
    pub fn send_command(&mut self, command: &[u8]) -> (r: (Vec<u8>, usize))
        requires
            old(self).wf(),
            old(self).cmd_id < usize::MAX,
        ensures
            final(self).wf(),
            r.1 == old(self).cmd_id,
            final(self).cmd_id == old(self).cmd_id + 1,
            r.0@ == spec_command_line(old(self).cmd_id as int, command@),
            final(self).sent@ == old(self).sent@.push(old(self).cmd_id as int),
    {
        let tag = self.cmd_id;
        let mut line: Vec<u8> = vec![77u8];
        let mut digits = dec_digits(tag as u64);
        line.append(&mut digits);
        line.push(32u8);
        let mut k: usize = 0;
        let ghost head = seq![77u8] + spec_dec_digits(tag as int) + seq![32u8];
        proof {
            assert(line@ =~= head);
        }
        while k < command.len()
            invariant
                k <= command@.len(),
                line@ == head + command@.subrange(0, k as int),
            decreases command@.len() - k,
        {
            line.push(command[k]);
            proof {
                assert(line@ =~= head + command@.subrange(0, (k + 1) as int));
            }
            k = k + 1;
        }
        line.push(13u8);
        line.push(10u8);
        proof {
            assert(command@.subrange(0, command@.len() as int) =~= command@);
            assert(line@ =~= spec_command_line(tag as int, command@));
        }
        self.cmd_id = tag + 1;
        proof {
            self.sent@ = self.sent@.push(tag as int);
        }
        (line, tag)
    }
}

/// Tag monotonicity: on one session the outgoing tags are exactly
/// `M0, M1, M2, ...` in order, with no gaps.
pub proof fn lemma_tag_monotonicity(s: &ImapStream)
    requires
        s.wf(),
    ensures
        forall|k: int| 0 <= k < s.sent@.len() ==> #[trigger] s.sent@[k] == k,
        forall|k: int| 0 < k < s.sent@.len() ==> s.sent@[k] == #[trigger] s.sent@[k - 1] + 1,
        s.sent@.len() == s.cmd_id,
{
}

/// A literal payload: the raw bytes, a CRLF where they do not end in
/// one, and the blank line that closes the literal argument.
pub open spec fn spec_literal_frame(data: Seq<u8>) -> Seq<u8> {
    if data.len() >= 2 && data[data.len() - 2] == 13 && data[data.len() - 1] == 10 {
        data + seq![13u8, 10u8]
    } else {
        data + seq![13u8, 10u8] + seq![13u8, 10u8]
    }
}

/// Frame a literal payload.
#[verifier::loop_isolation(false)]
pub fn send_literal(data: &[u8]) -> (r: Vec<u8>)
    ensures
        r@ == spec_literal_frame(data@),
{
    let n = data.len();
    let mut out: Vec<u8> = Vec::new();
    let mut k: usize = 0;
    while k < n
        invariant
            k <= n,
            out@ == data@.subrange(0, k as int),
        decreases n - k,
    {
        out.push(data[k]);
        proof {
            assert(out@ =~= data@.subrange(0, (k + 1) as int));
        }
        k = k + 1;
    }
    proof {
        assert(out@ =~= data@);
    }
    let ends_crlf = n >= 2 && data[n - 2] == 13 && data[n - 1] == 10;
    if !ends_crlf {
        out.push(13u8);
        out.push(10u8);
    }
    out.push(13u8);
    out.push(10u8);
    proof {
        assert(out@ =~= spec_literal_frame(data@));
    }
    out
}

/// A raw line: the bytes with CRLF appended.
pub fn send_raw(raw: &[u8]) -> (r: Vec<u8>)
    ensures
        r@ == raw@ + seq![13u8, 10u8],
{
    let n = raw.len();
    let mut out: Vec<u8> = Vec::new();
    let mut k: usize = 0;
    while k < n
        invariant
            k <= n,
            n == raw@.len(),
            out@ == raw@.subrange(0, k as int),
        decreases n - k,
    {
        out.push(raw[k]);
        proof {
            assert(out@ =~= raw@.subrange(0, (k + 1) as int));
        }
        k = k + 1;
    }
    out.push(13u8);
    out.push(10u8);
    proof {
        assert(raw@.subrange(0, n as int) =~= raw@);
        assert(out@ =~= raw@ + seq![13u8, 10u8]);
    }
    out
}

/// Whether `s` starts with `prefix`, byte for byte.
pub open spec fn spec_starts_with(s: Seq<u8>, prefix: Seq<u8>) -> bool {
    prefix.len() <= s.len() && s.subrange(0, prefix.len() as int) == prefix
}

/// Whether `s` starts with `prefix`.
#[verifier::loop_isolation(false)]
pub fn starts_with(s: &[u8], prefix: &[u8]) -> (r: bool)
    ensures
        r == spec_starts_with(s@, prefix@),
{
    let np = prefix.len();
    if s.len() < np {
        proof {
            assert(!spec_starts_with(s@, prefix@));
        }
        return false;
    }
    let mut k: usize = 0;
    while k < np
        invariant
            k <= np,
            np <= s@.len(),
            forall|j: int| 0 <= j < k ==> s@[j] == #[trigger] prefix@[j],
        decreases np - k,
    {
        if s[k] != prefix[k] {
            proof {
                assert(s@.subrange(0, np as int)[k as int] != prefix@[k as int]);
            }
            return false;
        }
        k = k + 1;
    }
    proof {
        assert(s@.subrange(0, np as int) =~= prefix@);
    }
    true
}

/// Whether `prefix` stands at position `pos` of `s`.
pub open spec fn spec_match_at(s: Seq<u8>, pos: int, prefix: Seq<u8>) -> bool {
    0 <= pos && pos + prefix.len() <= s.len() && s.subrange(pos, pos + prefix.len()) == prefix
}

/// Whether `prefix` stands at position `pos` of `s`.
#[verifier::loop_isolation(false)]
pub fn match_at(s: &[u8], pos: usize, prefix: &[u8]) -> (r: bool)
    requires
        pos <= s@.len(),
    ensures
        r == spec_match_at(s@, pos as int, prefix@),
{
    let np = prefix.len();
    let n = s.len();
    if n - pos < np {
        proof {
            assert(!spec_match_at(s@, pos as int, prefix@));
        }
        return false;
    }
    let mut k: usize = 0;
    while k < np
        invariant
            k <= np,
            pos + np <= s@.len(),
            forall|j: int| 0 <= j < k ==> s@[pos + j] == #[trigger] prefix@[j],
        decreases np - k,
    {
        if s[pos + k] != prefix[k] {
            proof {
                assert(s@.subrange(pos as int, pos + prefix@.len())[k as int] != prefix@[k as int]);
            }
            return false;
        }
        k = k + 1;
    }
    proof {
        assert(s@.subrange(pos as int, pos + prefix@.len()) =~= prefix@);
    }
    true
}

/// One classified IMAP response line. Payload-carrying untagged lines
/// give the position where their payload starts.
#[derive(Debug, Clone, Copy, PartialEq, Eq, Structural)]
pub enum ImapResponse {
    /// `* CAPABILITY`; the list begins at the given offset.
    Capability(usize),
    /// `* <n> EXISTS`.
    Exists(u64),
    /// `* <n> RECENT`.
    Recent(u64),
    /// `* <n> EXPUNGE`.
    Expunge(u64),
    /// `* <n> FETCH`.
    Fetch(u64),
    /// `M<tag> OK`.
    TaggedOk(u64),
    /// `M<tag> NO`.
    TaggedNo(u64),
    /// `M<tag> BAD`.
    TaggedBad(u64),
    /// `+ ...`: the server awaits a literal.
    Continuation,
    /// `* BYE`: the server is closing the connection.
    Bye,
    /// Anything else.
    Other,
}

/// Bytes of `* CAPABILITY `.
pub open spec fn spec_kw_star_capability() -> Seq<u8> {
    seq![42u8, 32u8, 67u8, 65u8, 80u8, 65u8, 66u8, 73u8, 76u8, 73u8, 84u8, 89u8, 32u8]
}

/// Bytes of `* BYE`.
pub open spec fn spec_kw_star_bye() -> Seq<u8> {
    seq![42u8, 32u8, 66u8, 89u8, 69u8]
}

/// The untagged numeric responses: ` EXISTS`, ` RECENT`, ` EXPUNGE`,
/// ` FETCH`.
pub open spec fn spec_kw_exists() -> Seq<u8> {
    seq![32u8, 69u8, 88u8, 73u8, 83u8, 84u8, 83u8]
}

pub open spec fn spec_kw_recent() -> Seq<u8> {
    seq![32u8, 82u8, 69u8, 67u8, 69u8, 78u8, 84u8]
}

pub open spec fn spec_kw_expunge() -> Seq<u8> {
    seq![32u8, 69u8, 88u8, 80u8, 85u8, 78u8, 71u8, 69u8]
}

pub open spec fn spec_kw_fetch() -> Seq<u8> {
    seq![32u8, 70u8, 69u8, 84u8, 67u8, 72u8]
}

/// The tagged completions: ` OK`, ` NO`, ` BAD`.
pub open spec fn spec_kw_ok() -> Seq<u8> {
    seq![32u8, 79u8, 75u8]
}

pub open spec fn spec_kw_no() -> Seq<u8> {
    seq![32u8, 78u8, 79u8]
}

pub open spec fn spec_kw_bad() -> Seq<u8> {
    seq![32u8, 66u8, 65u8, 68u8]
}

/// The number standing at `pos`, if the digit run there is nonempty
/// and its value fits: the value and the position after the digits.
pub open spec fn spec_number_at(s: Seq<u8>, pos: int) -> Option<(u64, int)> {
    let e = spec_digits_end(s, pos);
    if e == pos {
        None
    } else if spec_dec_val(s, pos, e) <= u64::MAX {
        Some((spec_dec_val(s, pos, e) as u64, e))
    } else {
        None
    }
}

/// What one response line means.
pub open spec fn spec_parse_response(line: Seq<u8>) -> ImapResponse {
    if line.len() >= 1 && line[0] == 43 {
        ImapResponse::Continuation
    } else if spec_match_at(line, 0, spec_kw_star_bye()) {
        ImapResponse::Bye
    } else if spec_match_at(line, 0, spec_kw_star_capability()) {
        ImapResponse::Capability(spec_kw_star_capability().len() as usize)
    } else if spec_match_at(line, 0, seq![42u8, 32u8]) {
        match spec_number_at(line, 2) {
            None => ImapResponse::Other,
            Some((v, e)) => if spec_match_at(line, e, spec_kw_exists()) {
                ImapResponse::Exists(v)
            } else if spec_match_at(line, e, spec_kw_recent()) {
                ImapResponse::Recent(v)
            } else if spec_match_at(line, e, spec_kw_expunge()) {
                ImapResponse::Expunge(v)
            } else if spec_match_at(line, e, spec_kw_fetch()) {
                ImapResponse::Fetch(v)
            } else {
                ImapResponse::Other
            },
        }
    } else if line.len() >= 1 && line[0] == 77 {
        match spec_number_at(line, 1) {
            None => ImapResponse::Other,
            Some((t, e)) => if spec_match_at(line, e, spec_kw_ok()) {
                ImapResponse::TaggedOk(t)
            } else if spec_match_at(line, e, spec_kw_no()) {
                ImapResponse::TaggedNo(t)
            } else if spec_match_at(line, e, spec_kw_bad()) {
                ImapResponse::TaggedBad(t)
            } else {
                ImapResponse::Other
            },
        }
    } else {
        ImapResponse::Other
    }
}

/// Parse the number standing at `pos`.
#[verifier::loop_isolation(false)]
pub fn number_at(s: &[u8], pos: usize) -> (r: Option<(u64, usize)>)
    requires
        pos <= s@.len(),
    ensures
        match r {
            Some((v, e)) => spec_number_at(s@, pos as int) == Some((v, e as int)) && pos < e
                <= s@.len(),
            None => spec_number_at(s@, pos as int) is None,
        },
{
    let n = s.len();
    let mut cur = pos;
    let mut val: u64 = 0;
    if !(cur < n && 48 <= s[cur] && s[cur] <= 57) {
        return None;
    }
    proof {
        crate::sieve_lex::lemma_digits_end_digits(s@, pos as int);
    }
    let ghost gend = spec_digits_end(s@, pos as int);
    while cur < n && 48 <= s[cur] && s[cur] <= 57
        invariant
            pos <= cur <= n,
            cur <= gend,
            spec_digits_end(s@, cur as int) == gend,
            val == spec_dec_val(s@, pos as int, cur as int),
        decreases n - cur,
    {
        let d = s[cur] - 48;
        proof {
            crate::sieve_lex::lemma_digits_end_bounds(s@, cur as int + 1);
            assert(spec_digits_end(s@, cur as int) == spec_digits_end(s@, cur as int + 1));
        }
        if val > (u64::MAX - d as u64) / 10 {
            proof {
                crate::sieve_lex::lemma_dec_val_mono(s@, pos as int, cur as int + 1, gend);
            }
            return None;
        }
        val = val * 10 + d as u64;
        cur = cur + 1;
    }
    proof {
        assert(cur as int == gend);
    }
    Some((val, cur))
}

/// Classify one CRLF-stripped response line.
#[verifier::rlimit(60)]
pub fn parse_response_line(line: &[u8]) -> (r: ImapResponse)
    ensures
        r == spec_parse_response(line@),
{
    let n = line.len();
    if n >= 1 && line[0] == 43 {
        return ImapResponse::Continuation;
    }
    let bye: Vec<u8> = vec![42u8, 32u8, 66u8, 89u8, 69u8];
    proof {
        assert(bye@ =~= spec_kw_star_bye());
    }
    if match_at(line, 0, bye.as_slice()) {
        return ImapResponse::Bye;
    }
    let cap: Vec<u8> = vec![
        42u8,
        32u8,
        67u8,
        65u8,
        80u8,
        65u8,
        66u8,
        73u8,
        76u8,
        73u8,
        84u8,
        89u8,
        32u8,
    ];
    proof {
        assert(cap@ =~= spec_kw_star_capability());
    }
    if match_at(line, 0, cap.as_slice()) {
        return ImapResponse::Capability(13);
    }
    let star: Vec<u8> = vec![42u8, 32u8];
    proof {
        assert(star@ =~= seq![42u8, 32u8]);
    }
    if match_at(line, 0, star.as_slice()) {
        return match number_at(line, 2) {
            None => ImapResponse::Other,
            Some((v, e)) => {
                let kwe: Vec<u8> = vec![32u8, 69u8, 88u8, 73u8, 83u8, 84u8, 83u8];
                let kwr: Vec<u8> = vec![32u8, 82u8, 69u8, 67u8, 69u8, 78u8, 84u8];
                let kwx: Vec<u8> = vec![32u8, 69u8, 88u8, 80u8, 85u8, 78u8, 71u8, 69u8];
                let kwf: Vec<u8> = vec![32u8, 70u8, 69u8, 84u8, 67u8, 72u8];
                proof {
                    assert(kwe@ =~= spec_kw_exists());
                    assert(kwr@ =~= spec_kw_recent());
                    assert(kwx@ =~= spec_kw_expunge());
                    assert(kwf@ =~= spec_kw_fetch());
                }
                if match_at(line, e, kwe.as_slice()) {
                    ImapResponse::Exists(v)
                } else if match_at(line, e, kwr.as_slice()) {
                    ImapResponse::Recent(v)
                } else if match_at(line, e, kwx.as_slice()) {
                    ImapResponse::Expunge(v)
                } else if match_at(line, e, kwf.as_slice()) {
                    ImapResponse::Fetch(v)
                } else {
                    ImapResponse::Other
                }
            },
        };
    }
    if n >= 1 && line[0] == 77 {
        return match number_at(line, 1) {
            None => ImapResponse::Other,
            Some((t, e)) => {
                let kok: Vec<u8> = vec![32u8, 79u8, 75u8];
                let kno: Vec<u8> = vec![32u8, 78u8, 79u8];
                let kbad: Vec<u8> = vec![32u8, 66u8, 65u8, 68u8];
                proof {
                    assert(kok@ =~= spec_kw_ok());
                    assert(kno@ =~= spec_kw_no());
                    assert(kbad@ =~= spec_kw_bad());
                }
                if match_at(line, e, kok.as_slice()) {
                    ImapResponse::TaggedOk(t)
                } else if match_at(line, e, kno.as_slice()) {
                    ImapResponse::TaggedNo(t)
                } else if match_at(line, e, kbad.as_slice()) {
                    ImapResponse::TaggedBad(t)
                } else {
                    ImapResponse::Other
                }
            },
        };
    }
    ImapResponse::Other
}

/// One thing the host must do on the wire for the session to proceed.
#[derive(Debug, PartialEq, Eq)]
pub enum ImapAction {
    /// Put these bytes on the socket.
    Send(Vec<u8>),
    /// Upgrade the socket to TLS now.
    StartTls,
}

/// Bytes of `STARTTLS`.
pub open spec fn spec_kw_starttls() -> Seq<u8> {
    seq![83u8, 84u8, 65u8, 82u8, 84u8, 84u8, 76u8, 83u8]
}

/// The `LOGIN "<user>" "<pass>"` command.
pub open spec fn spec_login_cmd(user: Seq<u8>, pass: Seq<u8>) -> Seq<u8> {
    seq![76u8, 79u8, 71u8, 73u8, 78u8, 32u8, 34u8] + user + seq![34u8, 32u8, 34u8] + pass + seq![
        34u8,
    ]
}

/// Append all of `src` to `dst`.
#[verifier::loop_isolation(false)]
fn extend_bytes(dst: &mut Vec<u8>, src: &[u8])
    ensures
        final(dst)@ == old(dst)@ + src@,
{
    let n = src.len();
    let ghost base = dst@;
    let mut k: usize = 0;
    while k < n
        invariant
            k <= n,
            dst@ == base + src@.subrange(0, k as int),
        decreases n - k,
    {
        dst.push(src[k]);
        proof {
            assert(dst@ =~= base + src@.subrange(0, (k + 1) as int));
        }
        k = k + 1;
    }
    proof {
        assert(dst@ =~= base + src@);
    }
}

/// The connection of one account: the session when one is established,
/// the credentials to establish one, and the capability set the server
/// last announced.
pub struct ImapConnection {
    pub stream: Option<ImapStream>,
    pub server_hostname: Vec<u8>,
    pub server_username: Vec<u8>,
    pub server_password: Vec<u8>,
    pub danger_accept_invalid_certs: bool,
    pub capabilities: Vec<Vec<u8>>,
}

impl ImapConnection {
    /// An established session is well-formed.
    pub open spec fn wf(&self) -> bool {
        match self.stream {
            Some(st) => st.wf(),
            None => true,
        }
    }

    /// A fresh connection; it starts disconnected.
    pub fn new_connection(
        server_hostname: Vec<u8>,
        server_username: Vec<u8>,
        server_password: Vec<u8>,
        danger_accept_invalid_certs: bool,
    ) -> (r: ImapConnection)
        ensures
            r.wf(),
            r.stream is None,
            r.server_hostname == server_hostname,
            r.server_username == server_username,
            r.server_password == server_password,
            r.danger_accept_invalid_certs == danger_accept_invalid_certs,
    {
        ImapConnection {
            stream: None,
            server_hostname,
            server_username,
            server_password,
            danger_accept_invalid_certs,
            capabilities: Vec::new(),
        }
    }

    /// Forget the session, as after an I/O failure; the next command
    /// will replay the login sequence.
    pub fn mark_disconnected(&mut self)
        ensures
            final(self).stream is None,
            final(self).wf(),
    {
        self.stream = None;
    }

    /// Frame one command. On a live session this is one `Send`; on a
    /// disconnected one the login sequence comes first: `M0 STARTTLS`,
    /// the TLS upgrade, `M1 LOGIN`, and then the command itself as
    /// `M2 <command>`. Returns the actions and the command's tag id.
    #[verifier::rlimit(60)]
    pub fn send_command(&mut self, command: &[u8]) -> (r: (Vec<ImapAction>, usize))
        requires
            old(self).wf(),
            old(self).stream matches Some(st) ==> st.cmd_id < usize::MAX,
        ensures
            final(self).wf(),
            final(self).stream is Some,
            match old(self).stream {
                Some(st) => {
                    &&& r.1 == st.cmd_id
                    &&& r.0@.len() == 1
                    &&& (r.0@[0] matches ImapAction::Send(b) && b@ == spec_command_line(
                        st.cmd_id as int,
                        command@,
                    ))
                },
                None => {
                    &&& r.1 == 2
                    &&& r.0@.len() == 4
                    &&& (r.0@[0] matches ImapAction::Send(b) && b@ == spec_command_line(
                        0,
                        spec_kw_starttls(),
                    ))
                    &&& r.0@[1] matches ImapAction::StartTls
                    &&& (r.0@[2] matches ImapAction::Send(b) && b@ == spec_command_line(
                        1,
                        spec_login_cmd(
                            old(self).server_username@,
                            old(self).server_password@,
                        ),
                    ))
                    &&& (r.0@[3] matches ImapAction::Send(b) && b@ == spec_command_line(
                        2,
                        command@,
                    ))
                },
            },
    {
        let mut actions: Vec<ImapAction> = Vec::new();
        let has_stream = self.stream.is_some();
        if has_stream {
            let st = self.stream.as_mut().unwrap();
            let (line, tag) = st.send_command(command);
            actions.push(ImapAction::Send(line));
            return (actions, tag);
        }
        let mut st = ImapStream::new();
        let starttls: Vec<u8> = vec![83u8, 84u8, 65u8, 82u8, 84u8, 84u8, 76u8, 83u8];
        proof {
            assert(starttls@ =~= spec_kw_starttls());
        }
        let (l0, _t0) = st.send_command(starttls.as_slice());
        actions.push(ImapAction::Send(l0));
        actions.push(ImapAction::StartTls);
        let mut login: Vec<u8> = vec![76u8, 79u8, 71u8, 73u8, 78u8, 32u8, 34u8];
        extend_bytes(&mut login, self.server_username.as_slice());
        let quote_sp: Vec<u8> = vec![34u8, 32u8, 34u8];
        extend_bytes(&mut login, quote_sp.as_slice());
        extend_bytes(&mut login, self.server_password.as_slice());
        login.push(34u8);
        proof {
            assert(login@ =~= spec_login_cmd(self.server_username@, self.server_password@));
        }
        let (l1, _t1) = st.send_command(login.as_slice());
        actions.push(ImapAction::Send(l1));
        let (l2, t2) = st.send_command(command);
        actions.push(ImapAction::Send(l2));
        self.stream = Some(st);
        (actions, t2)
    }
}

/// Position of the last CRLF whose start lies at or before `from`.
pub open spec fn spec_rfind_crlf_from(s: Seq<u8>, from: int) -> Option<int>
    decreases from + 1,
{
    if from < 0 {
        None
    } else if 0 <= from && from + 2 <= s.len() && s[from] == 13 && s[from + 1] == 10 {
        Some(from)
    } else {
        spec_rfind_crlf_from(s, from - 1)
    }
}

/// Where the last CRLF-terminated line of `s` begins.
pub open spec fn spec_last_line_start(s: Seq<u8>) -> int {
    match spec_rfind_crlf_from(s, s.len() - 4) {
        Some(j) => j + 2,
        None => 0,
    }
}

/// Whether a response buffer is complete: it ends with CRLF and its
/// last line begins with the awaited termination string (the pending
/// command's tag, or `+ ` for a continuation). An empty termination
/// accepts any complete line.
pub open spec fn spec_response_complete(s: Seq<u8>, termination: Seq<u8>) -> bool {
    &&& s.len() >= 2
    &&& s[s.len() - 2] == 13
    &&& s[s.len() - 1] == 10
    &&& (termination.len() == 0 || spec_match_at(s, spec_last_line_start(s), termination))
}

/// Whether the buffered response is complete.
#[verifier::loop_isolation(false)]
pub fn response_complete(buf: &[u8], termination: &[u8]) -> (r: bool)
    ensures
        r == spec_response_complete(buf@, termination@),
{
    let n = buf.len();
    if n < 2 || buf[n - 2] != 13 || buf[n - 1] != 10 {
        return false;
    }
    if termination.len() == 0 {
        return true;
    }
    let start = last_line_start(buf);
    match_at(buf, start, termination)
}

/// Where the last CRLF-terminated line of the buffer begins.
#[verifier::loop_isolation(false)]
pub fn last_line_start(buf: &[u8]) -> (r: usize)
    ensures
        r as int == spec_last_line_start(buf@),
        r <= buf@.len(),
{
    let n = buf.len();
    if n < 4 {
        proof {
            lemma_rfind_crlf_neg(buf@, buf@.len() - 4);
        }
        return 0;
    }
    let mut i: usize = n - 3;
    loop
        invariant
            i <= n - 3,
            n >= 4,
            n == buf@.len(),
            spec_rfind_crlf_from(buf@, buf@.len() - 4) == spec_rfind_crlf_from(
                buf@,
                i as int - 1,
            ),
        decreases i,
    {
        if i == 0 {
            proof {
                assert(spec_rfind_crlf_from(buf@, -1) is None);
            }
            return 0;
        }
        if buf[i - 1] == 13 && buf[i] == 10 {
            proof {
                assert(spec_rfind_crlf_from(buf@, (i - 1) as int) == Some((i - 1) as int));
            }
            return i + 1;
        }
        i = i - 1;
    }
}

/// No CRLF is found from a negative start.
proof fn lemma_rfind_crlf_neg(s: Seq<u8>, from: int)
    requires
        from < 0,
    ensures
        spec_rfind_crlf_from(s, from) is None,
{
}

/// The first complete line of a buffer, CRLF included, with how many
/// bytes it takes; `None` while no CRLF has arrived yet.
#[verifier::loop_isolation(false)]
pub fn next_line(buf: &[u8]) -> (r: Option<(Vec<u8>, usize)>)
    ensures
        match r {
            Some((line, used)) => {
                &&& 2 <= used <= buf@.len()
                &&& line@ == buf@.subrange(0, used as int)
                &&& line@[used - 2] == 13 && line@[used - 1] == 10
                &&& forall|j: int| 0 <= j < used - 2 ==> !(buf@[j] == 13 && #[trigger] buf@[j + 1] == 10)
            },
            None => forall|j: int|
                0 <= j < buf@.len() - 1 ==> !(buf@[j] == 13 && #[trigger] buf@[j + 1] == 10),
        },
{
    let n = buf.len();
    if n < 2 {
        return None;
    }
    let mut j: usize = 0;
    while j + 1 < n
        invariant
            j <= n - 1,
            n >= 2,
            forall|k: int| 0 <= k < j ==> !(buf@[k] == 13 && #[trigger] buf@[k + 1] == 10),
        decreases n - j,
    {
        if buf[j] == 13 && buf[j + 1] == 10 {
            let used = j + 2;
            let mut line: Vec<u8> = Vec::new();
            let mut k: usize = 0;
            while k < used
                invariant
                    k <= used,
                    used <= n,
                    line@ == buf@.subrange(0, k as int),
                decreases used - k,
            {
                line.push(buf[k]);
                proof {
                    assert(line@ =~= buf@.subrange(0, (k + 1) as int));
                }
                k = k + 1;
            }
            return Some((line, used));
        }
        j = j + 1;
    }
    None
}

/// End of the capability name that starts at `pos`: the next space,
/// or the end of the input.
pub open spec fn spec_name_end(s: Seq<u8>, pos: int) -> int
    decreases s.len() - pos,
{
    if !(0 <= pos < s.len()) {
        s.len() as int
    } else if s[pos] == 32 {
        pos
    } else {
        spec_name_end(s, pos + 1)
    }
}

/// The space-separated names of a capability payload, empty runs
/// dropped.
pub open spec fn spec_split_names(s: Seq<u8>) -> Seq<Seq<u8>>
    decreases s.len(),
{
    if s.len() == 0 {
        Seq::empty()
    } else if s[0] == 32 {
        spec_split_names(s.subrange(1, s.len() as int))
    } else {
        let e = spec_name_end(s, 0);
        if 0 < e <= s.len() {
            seq![s.subrange(0, e)] + spec_split_names(s.subrange(e, s.len() as int))
        } else {
            seq![s]
        }
    }
}

/// The name's end lies in bounds, after its start.
proof fn lemma_name_end_bounds(s: Seq<u8>, pos: int)
    requires
        0 <= pos <= s.len(),
    ensures
        pos <= spec_name_end(s, pos) <= s.len(),
    decreases s.len() - pos,
{
    if 0 <= pos < s.len() && s[pos] != 32 {
        lemma_name_end_bounds(s, pos + 1);
    }
}

/// The names of a `* CAPABILITY` line, or `None` for any other line.
/// The pre-TLS capability set is replaced with what the response after
/// LOGIN announces; the host feeds each response line through here.
#[verifier::loop_isolation(false)]
#[verifier::rlimit(100)]
#[verifier::spinoff_prover]
pub fn capability_list(line: &[u8]) -> (r: Option<Vec<Vec<u8>>>)
    ensures
        match r {
            Some(caps) => spec_parse_response(line@) matches ImapResponse::Capability(off)
                && caps.deep_view() == spec_split_names(
                line@.subrange(off as int, line@.len() as int),
            ),
            None => !(spec_parse_response(line@) is Capability),
        },
{
    let off = match parse_response_line(line) {
        ImapResponse::Capability(off) => off,
        _ => {
            return None;
        },
    };
    let ghost tail = line@.subrange(off as int, line@.len() as int);
    let n = line.len();
    proof {
        assert(off as int <= n as int);
    }
    let mut out: Vec<Vec<u8>> = Vec::new();
    let mut cur: usize = off;
    while cur < n
        invariant
            off <= cur <= n,
            n == line@.len(),
            out.deep_view() + spec_split_names(line@.subrange(cur as int, n as int))
                =~= spec_split_names(tail),
        decreases n - cur,
    {
        if line[cur] == 32 {
            proof {
                assert(line@.subrange(cur as int, n as int).subrange(
                    1,
                    n - cur as int,
                ) =~= line@.subrange(cur as int + 1, n as int));
            }
            cur = cur + 1;
        } else {
            let ghost sub = line@.subrange(cur as int, n as int);
            let mut e = cur;
            while e < n && line[e] != 32
                invariant
                    cur <= e <= n,
                    spec_name_end(sub, 0) == spec_name_end(sub, e - cur as int),
                    forall|j: int| 0 <= j < e - cur ==> #[trigger] sub[j] != 32,
                decreases n - e,
            {
                proof {
                    assert(sub[e - cur as int] == line@[e as int]);
                }
                e = e + 1;
            }
            proof {
                if e < n {
                    assert(sub[e - cur as int] == 32);
                }
                assert(spec_name_end(sub, e - cur as int) == e - cur as int);
            }
            let mut name: Vec<u8> = Vec::new();
            let mut t = cur;
            while t < e
                invariant
                    cur <= t <= e <= n,
                    name@ == line@.subrange(cur as int, t as int),
                decreases e - t,
            {
                name.push(line[t]);
                proof {
                    assert(name@ =~= line@.subrange(cur as int, (t + 1) as int));
                }
                t = t + 1;
            }
            let ghost gname = name@;
            let ghost gout = out.deep_view();
            out.push(name);
            proof {
                assert(out.deep_view() =~= gout.push(gname)) by {
                    assert(forall|i: int|
                        0 <= i < out@.len() ==> out.deep_view()[i] == #[trigger] out@[i]@);
                }
                assert(sub.subrange(0, e - cur as int) =~= gname);
                assert(sub.subrange(e - cur as int, sub.len() as int) =~= line@.subrange(
                    e as int,
                    n as int,
                ));
                assert(spec_split_names(sub) =~= seq![gname] + spec_split_names(
                    line@.subrange(e as int, n as int),
                ));
                assert(gout.push(gname) + spec_split_names(line@.subrange(e as int, n as int))
                    =~= gout + spec_split_names(sub));
            }
            cur = e;
        }
    }
    proof {
        assert(spec_split_names(line@.subrange(n as int, n as int)) =~= Seq::<Seq<u8>>::empty());
        assert(out.deep_view() =~= spec_split_names(tail));
    }
    Some(out)
}

impl ImapConnection {
    /// Install the capability set a response announced, replacing the
    /// stored one: the set reported after LOGIN supersedes any pre-TLS
    /// set, as the login sequence requires.
    pub fn set_capabilities(&mut self, caps: Vec<Vec<u8>>)
        ensures
            final(self).capabilities == caps,
            final(self).stream == old(self).stream,
            final(self).server_hostname == old(self).server_hostname,
            final(self).server_username == old(self).server_username,
            final(self).server_password == old(self).server_password,
            final(self).danger_accept_invalid_certs == old(self).danger_accept_invalid_certs,
            old(self).wf() ==> final(self).wf(),
    {
        self.capabilities = caps;
    }
}

} // verus!
