//! Wire codec for the bulb protocol.
//!
//! Requests and responses are single JSON-shaped text datagrams with a fixed
//! shape per message kind. The codec is canonical: `decode_response` accepts
//! exactly the texts that the specification functions here produce, reports
//! `MalformedMessage` for any other well-prefixed text, and `UnexpectedMethod`
//! when a reply names a method this protocol does not know. Decoding never
//! panics on arbitrary input.

use vstd::prelude::*;
use vstd::string::StrSliceExecFns;

verus! {

/// A command the client can issue to a device.
#[derive(Clone, Copy, PartialEq, Eq, Structural, Debug)]
pub enum Command {
    TurnOn,
    TurnOff,
    QueryState,
    DiscoveryProbe,
}

/// Error codes a device may report in an error response.
#[derive(Clone, Copy, PartialEq, Eq, Structural, Debug)]
pub enum ErrorCode {
    MethodNotFound,
    InvalidParams,
    Internal,
}

/// A decoded device response.
#[derive(Debug, PartialEq, Eq)]
pub enum Response {
    /// Reply to `setPilot`: whether the device applied the change.
    SetAck(bool),
    /// Reply to `getPilot`: the device's current power state.
    StateReport(bool),
    /// Reply to a discovery probe: the manufacturer-assigned identifier.
    ProbeReply(String),
    /// An error object reported by the device.
    Failure(ErrorCode, String),
}

/// Why a datagram could not be decoded.
#[derive(Clone, Copy, PartialEq, Eq, Structural, Debug)]
pub enum DecodeError {
    MalformedMessage,
    UnexpectedMethod,
}

/// The text of the request for each command.
pub open spec fn spec_encode_request(cmd: Command) -> Seq<char> {
    match cmd {
        Command::TurnOn => "{\"method\":\"setPilot\",\"params\":{\"state\":true}}"@,
        Command::TurnOff => "{\"method\":\"setPilot\",\"params\":{\"state\":false}}"@,
        Command::QueryState => "{\"method\":\"getPilot\",\"params\":{}}"@,
        Command::DiscoveryProbe => "{\"method\":\"probe\",\"params\":{}}"@,
    }
}

pub open spec fn lit_set_ack(ok: bool) -> Seq<char> {
    if ok {
        "{\"method\":\"setPilot\",\"result\":{\"success\":true}}"@
    } else {
        "{\"method\":\"setPilot\",\"result\":{\"success\":false}}"@
    }
}

pub open spec fn lit_state_report(on: bool) -> Seq<char> {
    if on {
        "{\"method\":\"getPilot\",\"result\":{\"state\":true}}"@
    } else {
        "{\"method\":\"getPilot\",\"result\":{\"state\":false}}"@
    }
}

pub open spec fn lit_probe_prefix() -> Seq<char> {
    "{\"method\":\"probe\",\"result\":{\"mac\":\""@
}

pub open spec fn lit_err_pre(c: ErrorCode) -> Seq<char> {
    match c {
        ErrorCode::MethodNotFound => "{\"error\":{\"code\":-32601,\"message\":\""@,
        ErrorCode::InvalidParams => "{\"error\":{\"code\":-32602,\"message\":\""@,
        ErrorCode::Internal => "{\"error\":{\"code\":-32603,\"message\":\""@,
    }
}

/// Closing text after a quoted payload: the quote and the two braces.
pub open spec fn lit_tail() -> Seq<char> {
    "\"}}"@
}

pub open spec fn lit_p_set() -> Seq<char> {
    "{\"method\":\"setPilot\""@
}

pub open spec fn lit_p_get() -> Seq<char> {
    "{\"method\":\"getPilot\""@
}

pub open spec fn lit_p_probe() -> Seq<char> {
    "{\"method\":\"probe\""@
}

pub open spec fn lit_p_method() -> Seq<char> {
    "{\"method\":\""@
}

/// The canonical text of a probe reply that reports identifier `m`.
pub open spec fn spec_probe_reply(m: Seq<char>) -> Seq<char> {
    lit_probe_prefix() + m + lit_tail()
}

/// The canonical text of an error response.
pub open spec fn spec_failure(c: ErrorCode, m: Seq<char>) -> Seq<char> {
    lit_err_pre(c) + m + lit_tail()
}

/// The canonical text of any response.
pub open spec fn spec_encode_response(resp: Response) -> Seq<char> {
    match resp {
        Response::SetAck(ok) => lit_set_ack(ok),
        Response::StateReport(on) => lit_state_report(on),
        Response::ProbeReply(mac) => spec_probe_reply(mac@),
        Response::Failure(c, msg) => spec_failure(c, msg@),
    }
}

/// Characters admitted inside a quoted payload: printable ASCII without the
/// quote and the backslash, so a payload never ends early or escapes.
pub open spec fn body_char(c: char) -> bool {
    0x20 <= (c as u32) && (c as u32) <= 0x7e && (c as u32) != 0x22 && (c as u32) != 0x5c
}

pub open spec fn valid_body(m: Seq<char>) -> bool {
    forall|i: int| 0 <= i < m.len() ==> body_char(#[trigger] m[i])
}

/// A response whose payloads the wire can carry.
pub open spec fn resp_wf(resp: Response) -> bool {
    match resp {
        Response::ProbeReply(mac) => valid_body(mac@),
        Response::Failure(_, msg) => valid_body(msg@),
        _ => true,
    }
}

/// `lit` occurs in `s` at position `pos`.
pub open spec fn seq_at(s: Seq<char>, pos: int, lit: Seq<char>) -> bool {
    pos + lit.len() <= s.len() && s.subrange(pos, pos + lit.len() as int) == lit
}

/// The text opens like a response that names its method.
pub open spec fn method_shaped(s: Seq<char>) -> bool {
    seq_at(s, 0, lit_p_method())
}

/// The text opens with one of the methods this protocol knows.
pub open spec fn known_method(s: Seq<char>) -> bool {
    seq_at(s, 0, lit_p_set()) || seq_at(s, 0, lit_p_get()) || seq_at(s, 0, lit_p_probe())
}

/// Encodes one command as its request text.
pub fn encode_request(cmd: Command) -> (r: String)
    ensures
        r@ == spec_encode_request(cmd),
{
    match cmd {
        Command::TurnOn => "{\"method\":\"setPilot\",\"params\":{\"state\":true}}".to_owned(),
        Command::TurnOff => "{\"method\":\"setPilot\",\"params\":{\"state\":false}}".to_owned(),
        Command::QueryState => "{\"method\":\"getPilot\",\"params\":{}}".to_owned(),
        Command::DiscoveryProbe => "{\"method\":\"probe\",\"params\":{}}".to_owned(),
    }
}

/// Decides whether `lit` occurs in `s` at `pos`.
fn match_at(s: &str, pos: usize, lit: &str) -> (r: bool)
    ensures
        r == seq_at(s@, pos as int, lit@),
{
    let n = s.unicode_len();
    let l = lit.unicode_len();
    if pos > n || l > n - pos {
        return false;
    }
    let sub = s.substring_char(pos, pos + l);
    let a: String = sub.to_owned();
    let b: String = lit.to_owned();
    a == b
}

/// Decides whether `s` is exactly `lit`.
pub fn str_eq_whole(s: &str, lit: &str) -> (r: bool)
    ensures
        r == (s@ == lit@),
{
    let a: String = s.to_owned();
    let b: String = lit.to_owned();
    a == b
}

fn is_body_char(c: char) -> (r: bool)
    ensures
        r == body_char(c),
{
    let u = c as u32;
    0x20 <= u && u <= 0x7e && u != 0x22 && u != 0x5c
}

/// Reads the rest of `s` from `start` as a quoted payload: payload characters
/// up to the closing quote, then the two closing braces and nothing more.
/// Returns the payload, or `None` when the rest has any other shape.
#[verifier::loop_isolation(false)]
fn parse_quoted_tail(s: &str, start: usize) -> (r: Option<String>)
    requires
        start <= s@.len(),
    ensures
        r matches Some(m) ==> valid_body(m@) && s@.subrange(start as int, s@.len() as int)
            == m@ + lit_tail(),
        forall|m: Seq<char>|
            valid_body(m) && s@.subrange(start as int, s@.len() as int) == m + lit_tail()
                ==> (r matches Some(mm) && mm@ == m),
{
    let n = s.unicode_len();
    let ghost whole = s@.subrange(start as int, n as int);
    proof {
        reveal_strlit("\"}}");
    }
    let mut i = start;
    while i < n
        invariant
            start <= i <= n,
            n == s@.len(),
            forall|k: int| start <= k < i ==> body_char(#[trigger] s@[k]),
        decreases n - i,
    {
        let c = s.get_char(i);
        if c == '"' {
            // First quote is at i: everything before it is payload characters.
            if n - i != 3 {
                proof {
                    assert forall|m: Seq<char>|
                        valid_body(m) && whole == m + lit_tail() implies false by {
                        lemma_tail_quote_at(s@, start as int, n as int, m);
                        lemma_first_quote(s@, start as int, i as int, n as int, m);
                    }
                }
                return None;
            }
            if s.get_char(i + 1) != '}' {
                proof {
                    assert forall|m: Seq<char>|
                        valid_body(m) && whole == m + lit_tail() implies false by {
                        lemma_tail_quote_at(s@, start as int, n as int, m);
                        lemma_first_quote(s@, start as int, i as int, n as int, m);
                        assert(whole[m.len() as int + 1] == (m + lit_tail())[m.len() as int + 1]);
                        assert((m + lit_tail())[m.len() as int + 1] == lit_tail()[1]);
                        assert(whole[m.len() as int + 1] == s@[start + m.len() + 1]);
                    }
                }
                return None;
            }
            if s.get_char(i + 2) != '}' {
                proof {
                    assert forall|m: Seq<char>|
                        valid_body(m) && whole == m + lit_tail() implies false by {
                        lemma_tail_quote_at(s@, start as int, n as int, m);
                        lemma_first_quote(s@, start as int, i as int, n as int, m);
                        assert(whole[m.len() as int + 2] == (m + lit_tail())[m.len() as int + 2]);
                        assert((m + lit_tail())[m.len() as int + 2] == lit_tail()[2]);
                        assert(whole[m.len() as int + 2] == s@[start + m.len() + 2]);
                    }
                }
                return None;
            }
            let body = s.substring_char(start, i);
            let m: String = body.to_owned();
            proof {
                let ghost mv = m@;
                assert(mv == s@.subrange(start as int, i as int));
                assert forall|k: int| 0 <= k < mv.len() implies body_char(#[trigger] mv[k]) by {
                    assert(s@.subrange(start as int, i as int)[k] == s@[start + k]);
                }
                assert(whole.len() == n - start);
                assert((mv + lit_tail()).len() == mv.len() + lit_tail().len());
                assert forall|j: int|
                    0 <= j < whole.len() implies whole[j] == (mv + lit_tail())[j] by {
                    assert(whole[j] == s@[start + j]);
                    if j < i - start {
                        assert((mv + lit_tail())[j] == mv[j]);
                        assert(mv[j] == s@.subrange(start as int, i as int)[j]);
                    } else {
                        assert((mv + lit_tail())[j] == lit_tail()[j - (i - start)]);
                    }
                }
                assert(whole =~= mv + lit_tail());
                assert forall|mm: Seq<char>|
                    valid_body(mm) && whole == mm + lit_tail() implies mm == mv by {
                    lemma_tail_quote_at(s@, start as int, n as int, mm);
                    if start + mm.len() < i {
                        assert(body_char(s@[start + mm.len()]));
                        assert(false);
                    }
                    if start + mm.len() > i {
                        assert(s@[i as int] == mm[i - start]);
                        assert(body_char(mm[i - start]));
                        assert(false);
                    }
                    assert(mm.len() == i - start);
                    assert forall|j: int| 0 <= j < mm.len() implies mm[j] == mv[j] by {
                        assert(s@[start + j] == mm[j]);
                        assert(mv[j] == s@.subrange(start as int, i as int)[j]);
                    }
                    assert(mm =~= mv);
                }
            }
            return Some(m);
        }
        if !is_body_char(c) {
            proof {
                assert forall|m: Seq<char>|
                    valid_body(m) && whole == m + lit_tail() implies false by {
                    lemma_tail_quote_at(s@, start as int, n as int, m);
                    if i - start < m.len() {
                        assert(s@[i as int] == m[i - start]);
                        assert(body_char(m[i - start]));
                    } else if i - start == m.len() {
                        assert(s@[i as int] == '"');
                    } else {
                        assert(body_char(s@[start + m.len()]));
                    }
                }
            }
            return None;
        }
        i = i + 1;
    }
    proof {
        assert forall|m: Seq<char>| valid_body(m) && whole == m + lit_tail() implies false by {
            lemma_tail_quote_at(s@, start as int, n as int, m);
            assert(body_char(s@[start + m.len()]));
        }
    }
    None
}

/// In a text that ends with a quoted payload, the closing quote stands right
/// after the payload, the payload's characters are payload characters, and
/// nothing before the quote is one.
proof fn lemma_tail_quote_at(s: Seq<char>, start: int, n: int, m: Seq<char>)
    requires
        0 <= start <= n == s.len(),
        valid_body(m),
        s.subrange(start, n) == m + lit_tail(),
    ensures
        n - start == m.len() + 3,
        s[start + m.len()] == '"',
        forall|k: int| start <= k < start + m.len() ==> #[trigger] s[k] == m[k - start],
{
    reveal_strlit("\"}}");
    let whole = s.subrange(start, n);
    assert(whole.len() == n - start);
    assert(lit_tail().len() == 3);
    assert((m + lit_tail()).len() == m.len() + lit_tail().len());
    assert forall|k: int| start <= k < start + m.len() implies #[trigger] s[k] == m[k - start] by {
        assert(whole[k - start] == s[k]);
        assert((m + lit_tail())[k - start] == m[k - start]);
    }
    assert(whole[m.len() as int] == s[start + m.len()]);
    assert((m + lit_tail())[m.len() as int] == lit_tail()[0]);
    assert(lit_tail()[0] == '"');
}

/// If the characters before `i` are payload characters and `s[i]` is a
/// quote, then `i` is exactly where the payload ends.
proof fn lemma_first_quote(s: Seq<char>, start: int, i: int, n: int, m: Seq<char>)
    requires
        0 <= start <= i < n == s.len(),
        s[i] == '"',
        forall|k: int| start <= k < i ==> body_char(#[trigger] s[k]),
        valid_body(m),
        s.subrange(start, n) == m + lit_tail(),
    ensures
        i == start + m.len(),
        n - i == 3,
{
    lemma_tail_quote_at(s, start, n, m);
    if i < start + m.len() {
        assert(s[i] == m[i - start]);
        assert(body_char(m[i - start]));
        assert(false);
    }
    if i > start + m.len() {
        assert(body_char(s[start + m.len()]));
        assert(false);
    }
}

proof fn lemma_two_prefixes(s: Seq<char>, a: Seq<char>, b: Seq<char>, k: int)
    requires
        0 <= k < a.len(),
        k < b.len(),
        a[k] != b[k],
    ensures
        !(seq_at(s, 0, a) && seq_at(s, 0, b)),
{
    if seq_at(s, 0, a) && seq_at(s, 0, b) {
        assert(s.subrange(0, a.len() as int)[k] == a[k]);
        assert(s.subrange(0, b.len() as int)[k] == b[k]);
        assert(s[k] == a[k]);
        assert(s[k] == b[k]);
    }
}

/// Every canonical response text opens with the prefix of its own family.
pub proof fn lemma_canonical_prefixes()
    ensures
        forall|b: bool| seq_at(#[trigger] lit_set_ack(b), 0, lit_p_set()),
        forall|b: bool| seq_at(#[trigger] lit_state_report(b), 0, lit_p_get()),
        forall|m: Seq<char>| seq_at(#[trigger] spec_probe_reply(m), 0, lit_probe_prefix()),
        forall|m: Seq<char>| seq_at(#[trigger] spec_probe_reply(m), 0, lit_p_probe()),
        forall|c: ErrorCode, m: Seq<char>| seq_at(#[trigger] spec_failure(c, m), 0, lit_err_pre(c)),
        forall|b: bool| seq_at(#[trigger] lit_set_ack(b), 0, lit_p_method()),
        forall|b: bool| seq_at(#[trigger] lit_state_report(b), 0, lit_p_method()),
        forall|m: Seq<char>| seq_at(#[trigger] spec_probe_reply(m), 0, lit_p_method()),
{
    reveal_strlit("{\"method\":\"setPilot\",\"result\":{\"success\":true}}");
    reveal_strlit("{\"method\":\"setPilot\",\"result\":{\"success\":false}}");
    reveal_strlit("{\"method\":\"getPilot\",\"result\":{\"state\":true}}");
    reveal_strlit("{\"method\":\"getPilot\",\"result\":{\"state\":false}}");
    reveal_strlit("{\"method\":\"probe\",\"result\":{\"mac\":\"");
    reveal_strlit("{\"error\":{\"code\":-32601,\"message\":\"");
    reveal_strlit("{\"error\":{\"code\":-32602,\"message\":\"");
    reveal_strlit("{\"error\":{\"code\":-32603,\"message\":\"");
    reveal_strlit("{\"method\":\"setPilot\"");
    reveal_strlit("{\"method\":\"getPilot\"");
    reveal_strlit("{\"method\":\"probe\"");
    reveal_strlit("{\"method\":\"");
    assert forall|b: bool| seq_at(#[trigger] lit_set_ack(b), 0, lit_p_set()) by {
        assert(lit_set_ack(b).subrange(0, lit_p_set().len() as int) =~= lit_p_set());
    }
    assert forall|b: bool| seq_at(#[trigger] lit_state_report(b), 0, lit_p_get()) by {
        assert(lit_state_report(b).subrange(0, lit_p_get().len() as int) =~= lit_p_get());
    }
    assert forall|m: Seq<char>| seq_at(#[trigger] spec_probe_reply(m), 0, lit_probe_prefix()) by {
        assert(spec_probe_reply(m).subrange(0, lit_probe_prefix().len() as int)
            =~= lit_probe_prefix());
    }
    assert forall|m: Seq<char>| seq_at(#[trigger] spec_probe_reply(m), 0, lit_p_probe()) by {
        assert(spec_probe_reply(m).subrange(0, lit_p_probe().len() as int) =~= lit_p_probe());
    }
    assert forall|c: ErrorCode, m: Seq<char>|
        seq_at(#[trigger] spec_failure(c, m), 0, lit_err_pre(c)) by {
        assert(spec_failure(c, m).subrange(0, lit_err_pre(c).len() as int) =~= lit_err_pre(c));
    }
    assert forall|b: bool| seq_at(#[trigger] lit_set_ack(b), 0, lit_p_method()) by {
        assert(lit_set_ack(b).subrange(0, lit_p_method().len() as int) =~= lit_p_method());
    }
    assert forall|b: bool| seq_at(#[trigger] lit_state_report(b), 0, lit_p_method()) by {
        assert(lit_state_report(b).subrange(0, lit_p_method().len() as int) =~= lit_p_method());
    }
    assert forall|m: Seq<char>| seq_at(#[trigger] spec_probe_reply(m), 0, lit_p_method()) by {
        assert(spec_probe_reply(m).subrange(0, lit_p_method().len() as int) =~= lit_p_method());
    }
}

/// The family prefixes exclude one another at the start of one text.
pub proof fn lemma_families(s: Seq<char>)
    ensures
        seq_at(s, 0, lit_p_set()) ==> !seq_at(s, 0, lit_p_get()) && !seq_at(s, 0, lit_p_probe())
            && !seq_at(s, 0, lit_err_pre(ErrorCode::MethodNotFound))
            && !seq_at(s, 0, lit_err_pre(ErrorCode::InvalidParams))
            && !seq_at(s, 0, lit_err_pre(ErrorCode::Internal)),
        seq_at(s, 0, lit_p_get()) ==> !seq_at(s, 0, lit_p_probe())
            && !seq_at(s, 0, lit_err_pre(ErrorCode::MethodNotFound))
            && !seq_at(s, 0, lit_err_pre(ErrorCode::InvalidParams))
            && !seq_at(s, 0, lit_err_pre(ErrorCode::Internal)),
        seq_at(s, 0, lit_p_probe()) ==> !seq_at(s, 0, lit_err_pre(ErrorCode::MethodNotFound))
            && !seq_at(s, 0, lit_err_pre(ErrorCode::InvalidParams))
            && !seq_at(s, 0, lit_err_pre(ErrorCode::Internal)),
        seq_at(s, 0, lit_p_method()) ==> !seq_at(s, 0, lit_err_pre(ErrorCode::MethodNotFound))
            && !seq_at(s, 0, lit_err_pre(ErrorCode::InvalidParams))
            && !seq_at(s, 0, lit_err_pre(ErrorCode::Internal)),
        seq_at(s, 0, lit_err_pre(ErrorCode::MethodNotFound)) ==> !seq_at(
            s,
            0,
            lit_err_pre(ErrorCode::InvalidParams),
        ) && !seq_at(s, 0, lit_err_pre(ErrorCode::Internal)),
        seq_at(s, 0, lit_err_pre(ErrorCode::InvalidParams)) ==> !seq_at(
            s,
            0,
            lit_err_pre(ErrorCode::Internal),
        ),
{
    reveal_strlit("{\"method\":\"setPilot\"");
    reveal_strlit("{\"method\":\"getPilot\"");
    reveal_strlit("{\"method\":\"probe\"");
    reveal_strlit("{\"method\":\"");
    reveal_strlit("{\"error\":{\"code\":-32601,\"message\":\"");
    reveal_strlit("{\"error\":{\"code\":-32602,\"message\":\"");
    reveal_strlit("{\"error\":{\"code\":-32603,\"message\":\"");
    let e1 = lit_err_pre(ErrorCode::MethodNotFound);
    let e2 = lit_err_pre(ErrorCode::InvalidParams);
    let e3 = lit_err_pre(ErrorCode::Internal);
    assert(lit_p_set().len() == 20);
    assert(lit_p_get().len() == 20);
    assert(lit_p_probe().len() == 17);
    assert(lit_p_method().len() == 11);
    assert(e1.len() == 35 && e2.len() == 35 && e3.len() == 35);
    assert(lit_p_set()[11] == 's' && lit_p_get()[11] == 'g' && lit_p_probe()[11] == 'p');
    assert(lit_p_set()[2] == 'm' && lit_p_get()[2] == 'm' && lit_p_probe()[2] == 'm');
    assert(lit_p_method()[2] == 'm');
    assert(e1[2] == 'e' && e2[2] == 'e' && e3[2] == 'e');
    assert(e1[22] == '1' && e2[22] == '2' && e3[22] == '3');
    if seq_at(s, 0, lit_p_set()) && seq_at(s, 0, lit_p_get()) {
        lemma_two_prefixes(s, lit_p_set(), lit_p_get(), 11);
    }
    if seq_at(s, 0, lit_p_set()) && seq_at(s, 0, lit_p_probe()) {
        lemma_two_prefixes(s, lit_p_set(), lit_p_probe(), 11);
    }
    if seq_at(s, 0, lit_p_get()) && seq_at(s, 0, lit_p_probe()) {
        lemma_two_prefixes(s, lit_p_get(), lit_p_probe(), 11);
    }
    if seq_at(s, 0, lit_p_method()) && seq_at(s, 0, e1) {
        lemma_two_prefixes(s, lit_p_method(), e1, 2);
    }
    if seq_at(s, 0, lit_p_method()) && seq_at(s, 0, e2) {
        lemma_two_prefixes(s, lit_p_method(), e2, 2);
    }
    if seq_at(s, 0, lit_p_method()) && seq_at(s, 0, e3) {
        lemma_two_prefixes(s, lit_p_method(), e3, 2);
    }
    if seq_at(s, 0, lit_p_set()) && seq_at(s, 0, e1) {
        lemma_two_prefixes(s, lit_p_set(), e1, 2);
    }
    if seq_at(s, 0, lit_p_set()) && seq_at(s, 0, e2) {
        lemma_two_prefixes(s, lit_p_set(), e2, 2);
    }
    if seq_at(s, 0, lit_p_set()) && seq_at(s, 0, e3) {
        lemma_two_prefixes(s, lit_p_set(), e3, 2);
    }
    if seq_at(s, 0, lit_p_get()) && seq_at(s, 0, e1) {
        lemma_two_prefixes(s, lit_p_get(), e1, 2);
    }
    if seq_at(s, 0, lit_p_get()) && seq_at(s, 0, e2) {
        lemma_two_prefixes(s, lit_p_get(), e2, 2);
    }
    if seq_at(s, 0, lit_p_get()) && seq_at(s, 0, e3) {
        lemma_two_prefixes(s, lit_p_get(), e3, 2);
    }
    if seq_at(s, 0, lit_p_probe()) && seq_at(s, 0, e1) {
        lemma_two_prefixes(s, lit_p_probe(), e1, 2);
    }
    if seq_at(s, 0, lit_p_probe()) && seq_at(s, 0, e2) {
        lemma_two_prefixes(s, lit_p_probe(), e2, 2);
    }
    if seq_at(s, 0, lit_p_probe()) && seq_at(s, 0, e3) {
        lemma_two_prefixes(s, lit_p_probe(), e3, 2);
    }
    lemma_two_prefixes(s, e1, e2, 22);
    lemma_two_prefixes(s, e1, e3, 22);
    lemma_two_prefixes(s, e2, e3, 22);
}

/// Decodes one reply datagram.
///
/// Succeeds exactly on the canonical texts of `spec_encode_response`; any
/// text that names an unknown method is `UnexpectedMethod`, all else is
/// `MalformedMessage`.
pub fn decode_response(s: &str) -> (r: Result<Response, DecodeError>)
    ensures
        r matches Ok(resp) ==> resp_wf(resp) && s@ == spec_encode_response(resp),
        s@ == lit_set_ack(true) ==> r == Ok::<Response, DecodeError>(Response::SetAck(true)),
        s@ == lit_set_ack(false) ==> r == Ok::<Response, DecodeError>(Response::SetAck(false)),
        s@ == lit_state_report(true) ==> r == Ok::<Response, DecodeError>(Response::StateReport(true)),
        s@ == lit_state_report(false) ==> r == Ok::<Response, DecodeError>(Response::StateReport(false)),
        forall|m: Seq<char>|
            valid_body(m) && s@ == spec_probe_reply(m) ==> (r matches Ok(resp) && resp matches
                Response::ProbeReply(mac) && mac@ == m),
        forall|c: ErrorCode, m: Seq<char>|
            valid_body(m) && s@ == spec_failure(c, m) ==> (r matches Ok(resp) && resp matches
                Response::Failure(code, msg) && code == c && msg@ == m),
        r matches Err(e) ==> (e == DecodeError::UnexpectedMethod <==> method_shaped(s@)
            && !known_method(s@)),
{
    proof {
        lemma_canonical_prefixes();
        lemma_families(s@);
    }
    if match_at(s, 0, "{\"method\":\"setPilot\"") {
        proof {
            reveal_strlit("{\"method\":\"setPilot\",\"result\":{\"success\":true}}");
            reveal_strlit("{\"method\":\"setPilot\",\"result\":{\"success\":false}}");
        }
        if str_eq_whole(s, "{\"method\":\"setPilot\",\"result\":{\"success\":true}}") {
            Ok(Response::SetAck(true))
        } else if str_eq_whole(s, "{\"method\":\"setPilot\",\"result\":{\"success\":false}}") {
            Ok(Response::SetAck(false))
        } else {
            Err(DecodeError::MalformedMessage)
        }
    } else if match_at(s, 0, "{\"method\":\"getPilot\"") {
        proof {
            reveal_strlit("{\"method\":\"getPilot\",\"result\":{\"state\":true}}");
            reveal_strlit("{\"method\":\"getPilot\",\"result\":{\"state\":false}}");
        }
        if str_eq_whole(s, "{\"method\":\"getPilot\",\"result\":{\"state\":true}}") {
            Ok(Response::StateReport(true))
        } else if str_eq_whole(s, "{\"method\":\"getPilot\",\"result\":{\"state\":false}}") {
            Ok(Response::StateReport(false))
        } else {
            Err(DecodeError::MalformedMessage)
        }
    } else if match_at(s, 0, "{\"method\":\"probe\"") {
        if match_at(s, 0, "{\"method\":\"probe\",\"result\":{\"mac\":\"") {
            let plen = "{\"method\":\"probe\",\"result\":{\"mac\":\"".unicode_len();
            match parse_quoted_tail(s, plen) {
                Some(mac) => {
                    proof {
                        let n = s@.len() as int;
                        assert(s@ =~= s@.subrange(0, plen as int) + s@.subrange(plen as int, n));
                        assert(s@ =~= spec_probe_reply(mac@));
                        assert forall|m: Seq<char>|
                            valid_body(m) && s@ == spec_probe_reply(m) implies m == mac@ by {
                            assert(s@.subrange(plen as int, n) =~= m + lit_tail());
                        }
                    }
                    Ok(Response::ProbeReply(mac))
                },
                None => {
                    proof {
                        let n = s@.len() as int;
                        assert forall|m: Seq<char>|
                            valid_body(m) && s@ == spec_probe_reply(m) implies false by {
                            assert(s@.subrange(plen as int, n) =~= m + lit_tail());
                        }
                    }
                    Err(DecodeError::MalformedMessage)
                },
            }
        } else {
            Err(DecodeError::MalformedMessage)
        }
    } else if match_at(s, 0, "{\"method\":\"") {
        Err(DecodeError::UnexpectedMethod)
    } else if match_at(s, 0, "{\"error\":{\"code\":-32601,\"message\":\"") {
        decode_failure_tail(s, ErrorCode::MethodNotFound)
    } else if match_at(s, 0, "{\"error\":{\"code\":-32602,\"message\":\"") {
        decode_failure_tail(s, ErrorCode::InvalidParams)
    } else if match_at(s, 0, "{\"error\":{\"code\":-32603,\"message\":\"") {
        decode_failure_tail(s, ErrorCode::Internal)
    } else {
        Err(DecodeError::MalformedMessage)
    }
}

/// Reads the message of an error response whose prefix, including the code
/// `c`, already matched at the start of `s`.
fn decode_failure_tail(s: &str, c: ErrorCode) -> (r: Result<Response, DecodeError>)
    requires
        seq_at(s@, 0, lit_err_pre(c)),
        !method_shaped(s@),
    ensures
        r matches Ok(resp) ==> resp_wf(resp) && s@ == spec_encode_response(resp),
        s@ != lit_set_ack(true),
        s@ != lit_set_ack(false),
        s@ != lit_state_report(true),
        s@ != lit_state_report(false),
        forall|m: Seq<char>| valid_body(m) ==> s@ != spec_probe_reply(m),
        forall|cc: ErrorCode, m: Seq<char>|
            valid_body(m) && s@ == spec_failure(cc, m) ==> (r matches Ok(resp) && resp matches
                Response::Failure(code, msg) && code == cc && msg@ == m),
        r matches Err(e) ==> e == DecodeError::MalformedMessage,
{
    proof {
        lemma_canonical_prefixes();
        lemma_families(s@);
    }
    let plen = match c {
        ErrorCode::MethodNotFound => "{\"error\":{\"code\":-32601,\"message\":\"".unicode_len(),
        ErrorCode::InvalidParams => "{\"error\":{\"code\":-32602,\"message\":\"".unicode_len(),
        ErrorCode::Internal => "{\"error\":{\"code\":-32603,\"message\":\"".unicode_len(),
    };
    match parse_quoted_tail(s, plen) {
        Some(msg) => {
            proof {
                let n = s@.len() as int;
                assert(s@ =~= s@.subrange(0, plen as int) + s@.subrange(plen as int, n));
                assert(s@ =~= spec_failure(c, msg@));
                assert forall|cc: ErrorCode, m: Seq<char>|
                    valid_body(m) && s@ == spec_failure(cc, m) implies cc == c && m == msg@ by {
                    assert(s@.subrange(plen as int, n) =~= m + lit_tail());
                }
            }
            Ok(Response::Failure(c, msg))
        },
        None => {
            proof {
                let n = s@.len() as int;
                assert forall|cc: ErrorCode, m: Seq<char>|
                    valid_body(m) && s@ == spec_failure(cc, m) implies false by {
                    assert(s@.subrange(plen as int, n) =~= m + lit_tail());
                }
            }
            Err(DecodeError::MalformedMessage)
        },
    }
}

} // verus!

