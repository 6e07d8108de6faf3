//! Device handles: the in-process representative of one bulb.
//!
//! A handle owns the device's immutable identity (identifier, manufacturer
//! identifier, address, name) and a best-effort cache of the last power state
//! the device reported; the cache may be stale relative to the physical bulb.
//!
//! Transmitting a datagram and waiting out the reply window is the embedding
//! program's job; it reports what happened as a [`TransportEvent`]. The
//! methods here complete the exchange: they decode the reply, classify every
//! failure, and update the cached state, and are verified for every possible
//! event.

use vstd::prelude::*;
use crate::codec::{
    lit_set_ack, lit_state_report, spec_encode_response, spec_probe_reply, spec_failure,
    resp_wf, valid_body, method_shaped, known_method, Command, DecodeError, Response,
    decode_response,
};
use crate::ident::{Identifier, Ipv4};

verus! {

/// What the transport observed after sending one request.
#[derive(Debug)]
pub enum TransportEvent {
    /// A reply datagram arrived from the device's address within the window.
    Reply(String),
    /// No reply arrived within the configured timeout.
    NoReply,
    /// The request could not be sent at all.
    SendFailed,
}

/// Why one exchange with a device failed.
#[derive(Clone, Copy, PartialEq, Eq, Structural, Debug)]
pub enum DeviceError {
    /// No reply within the window.
    Timeout,
    /// Transport-level send failure.
    Unreachable,
    /// The reply could not be understood.
    ProtocolError(DecodeError),
}

/// The in-process handle of one bulb.
#[derive(Debug)]
pub struct Bulb {
    /// Registry identifier; immutable after creation.
    pub id: Identifier,
    /// Manufacturer-assigned identifier reported in probe replies.
    pub mac: String,
    /// Human-readable name; not guaranteed unique.
    pub name: String,
    /// Network address; immutable after creation.
    pub addr: Ipv4,
    /// Cached last-known power state; `None` until a device reply fixed it.
    pub power: Option<bool>,
}

/// Which decode error an undecodable reply text earns.
pub open spec fn spec_decode_err(s: Seq<char>) -> DecodeError {
    if method_shaped(s) && !known_method(s) {
        DecodeError::UnexpectedMethod
    } else {
        DecodeError::MalformedMessage
    }
}

/// The reply text is the canonical encoding of some well-formed response.
pub open spec fn canonical_reply(s: Seq<char>) -> bool {
    exists|resp: Response| resp_wf(resp) && s == spec_encode_response(resp)
}

/// Outcome of a `setPilot` exchange, for every transport event: the device's
/// success flag, or the error owed for this event. A decodable reply that is
/// not a `setPilot` acknowledgment — a state report, a probe reply, or a
/// device-reported error object — did not match the command's shape and is
/// a protocol error; it is never mistaken for a power state.
pub open spec fn spec_set_outcome(ev: TransportEvent) -> Result<bool, DeviceError> {
    match ev {
        TransportEvent::NoReply => Err(DeviceError::Timeout),
        TransportEvent::SendFailed => Err(DeviceError::Unreachable),
        TransportEvent::Reply(s) => if s@ == lit_set_ack(true) {
            Ok(true)
        } else if s@ == lit_set_ack(false) {
            Ok(false)
        } else if canonical_reply(s@) {
            Err(DeviceError::ProtocolError(DecodeError::UnexpectedMethod))
        } else {
            Err(DeviceError::ProtocolError(spec_decode_err(s@)))
        },
    }
}

/// Outcome of a `getPilot` exchange, for every transport event.
pub open spec fn spec_query_outcome(ev: TransportEvent) -> Result<bool, DeviceError> {
    match ev {
        TransportEvent::NoReply => Err(DeviceError::Timeout),
        TransportEvent::SendFailed => Err(DeviceError::Unreachable),
        TransportEvent::Reply(s) => if s@ == lit_state_report(true) {
            Ok(true)
        } else if s@ == lit_state_report(false) {
            Ok(false)
        } else if canonical_reply(s@) {
            Err(DeviceError::ProtocolError(DecodeError::UnexpectedMethod))
        } else {
            Err(DeviceError::ProtocolError(spec_decode_err(s@)))
        },
    }
}

/// The handle after completing a `setPilot` exchange aimed at `target`:
/// the cache moves only on an acknowledged success.
pub open spec fn bulb_after_set(b: Bulb, ev: TransportEvent, target: bool) -> Bulb {
    if spec_set_outcome(ev) == Ok::<bool, DeviceError>(true) {
        Bulb { power: Some(target), ..b }
    } else {
        b
    }
}

/// The handle after completing a `getPilot` exchange: the cache is refreshed
/// to whatever the device reported.
pub open spec fn bulb_after_query(b: Bulb, ev: TransportEvent) -> Bulb {
    match spec_query_outcome(ev) {
        Ok(on) => Bulb { power: Some(on), ..b },
        Err(_) => b,
    }
}

/// No well-formed response at all encodes to `s`, given that the decoder
/// refused `s`. Derives the fact from the decoder's completeness clauses.
proof fn lemma_refused_reply_not_canonical(s: Seq<char>, d: Result<Response, DecodeError>)
    requires
        d is Err,
        forall|m: Seq<char>|
            valid_body(m) && s == spec_probe_reply(m) ==> (d matches Ok(resp) && resp matches
                Response::ProbeReply(mac) && mac@ == m),
        forall|c: crate::codec::ErrorCode, m: Seq<char>|
            valid_body(m) && s == spec_failure(c, m) ==> (d matches Ok(resp) && resp matches
                Response::Failure(code, msg) && code == c && msg@ == m),
        s == lit_set_ack(true) ==> d == Ok::<Response, DecodeError>(Response::SetAck(true)),
        s == lit_set_ack(false) ==> d == Ok::<Response, DecodeError>(Response::SetAck(false)),
        s == lit_state_report(true) ==> d == Ok::<Response, DecodeError>(Response::StateReport(true)),
        s == lit_state_report(false) ==> d == Ok::<Response, DecodeError>(Response::StateReport(false)),
    ensures
        !canonical_reply(s),
{
    if canonical_reply(s) {
        let resp = choose|resp: Response| resp_wf(resp) && s == spec_encode_response(resp);
        match resp {
            Response::SetAck(ok) => {
                assert(s == lit_set_ack(ok));
            },
            Response::StateReport(on) => {
                assert(s == lit_state_report(on));
            },
            Response::ProbeReply(mac) => {
                assert(valid_body(mac@) && s == spec_probe_reply(mac@));
            },
            Response::Failure(c, msg) => {
                assert(valid_body(msg@) && s == spec_failure(c, msg@));
            },
        }
        assert(false);
    }
}

/// Completes a `setPilot` exchange: decodes the reply and classifies every
/// failure. Never succeeds unless the reply was a well-formed acknowledgment.
fn eval_set(ev: &TransportEvent) -> (r: Result<bool, DeviceError>)
    ensures
        r == spec_set_outcome(*ev),
{
    match ev {
        TransportEvent::NoReply => Err(DeviceError::Timeout),
        TransportEvent::SendFailed => Err(DeviceError::Unreachable),
        TransportEvent::Reply(s) => {
            proof {
                reveal_strlit("{\"method\":\"setPilot\",\"result\":{\"success\":true}}");
                reveal_strlit("{\"method\":\"setPilot\",\"result\":{\"success\":false}}");
            }
            let d = decode_response(s.as_str());
            match d {
                Ok(Response::SetAck(ok)) => Ok(ok),
                Ok(_) => Err(DeviceError::ProtocolError(DecodeError::UnexpectedMethod)),
                Err(e) => {
                    proof {
                        lemma_refused_reply_not_canonical(s@, d);
                    }
                    Err(DeviceError::ProtocolError(e))
                },
            }
        },
    }
}

/// Completes a `getPilot` exchange.
fn eval_query(ev: &TransportEvent) -> (r: Result<bool, DeviceError>)
    ensures
        r == spec_query_outcome(*ev),
{
    match ev {
        TransportEvent::NoReply => Err(DeviceError::Timeout),
        TransportEvent::SendFailed => Err(DeviceError::Unreachable),
        TransportEvent::Reply(s) => {
            proof {
                reveal_strlit("{\"method\":\"getPilot\",\"result\":{\"state\":true}}");
                reveal_strlit("{\"method\":\"getPilot\",\"result\":{\"state\":false}}");
            }
            let d = decode_response(s.as_str());
            match d {
                Ok(Response::StateReport(on)) => Ok(on),
                Ok(_) => Err(DeviceError::ProtocolError(DecodeError::UnexpectedMethod)),
                Err(e) => {
                    proof {
                        lemma_refused_reply_not_canonical(s@, d);
                    }
                    Err(DeviceError::ProtocolError(e))
                },
            }
        },
    }
}

impl Bulb {
    /// Finishes a `TurnOn` exchange: on an acknowledged success the cached
    /// power becomes on; on any failure the handle is unchanged.
    pub fn on(&mut self, ev: &TransportEvent) -> (r: Result<bool, DeviceError>)
        ensures
            r == spec_set_outcome(*ev),
            *final(self) == bulb_after_set(*old(self), *ev, true),
    {
        let r = eval_set(ev);
        if let Ok(true) = r {
            self.power = Some(true);
        }
        r
    }

    /// Finishes a `TurnOff` exchange: on an acknowledged success the cached
    /// power becomes off; on any failure the handle is unchanged.
    pub fn off(&mut self, ev: &TransportEvent) -> (r: Result<bool, DeviceError>)
        ensures
            r == spec_set_outcome(*ev),
            *final(self) == bulb_after_set(*old(self), *ev, false),
    {
        let r = eval_set(ev);
        if let Ok(true) = r {
            self.power = Some(false);
        }
        r
    }

    /// Finishes a `QueryState` exchange: returns the device-reported power
    /// state and refreshes the cache opportunistically.
    pub fn get_state(&mut self, ev: &TransportEvent) -> (r: Result<bool, DeviceError>)
        ensures
            r == spec_query_outcome(*ev),
            *final(self) == bulb_after_query(*old(self), *ev),
    {
        let r = eval_query(ev);
        if let Ok(on) = r {
            self.power = Some(on);
        }
        r
    }
}

/// The command that flips a device whose reported power state is `current_on`.
pub fn toggle_command(current_on: bool) -> (c: Command)
    ensures
        c == if current_on { Command::TurnOff } else { Command::TurnOn },
{
    if current_on {
        Command::TurnOff
    } else {
        Command::TurnOn
    }
}

/// A device that never replies earns `Timeout` — never success, never an
/// indefinite wait (the wait itself is bounded by the transport's window).
pub proof fn lemma_silent_device_times_out(ev: TransportEvent)
    requires
        ev is NoReply,
    ensures
        spec_set_outcome(ev) == Err::<bool, DeviceError>(DeviceError::Timeout),
        spec_query_outcome(ev) == Err::<bool, DeviceError>(DeviceError::Timeout),
{
}

/// An acknowledged turn-on leaves the cached power on, and the call reports
/// success.
pub proof fn lemma_ack_turns_on(b: Bulb, s: String)
    requires
        s@ == lit_set_ack(true),
    ensures
        spec_set_outcome(TransportEvent::Reply(s)) == Ok::<bool, DeviceError>(true),
        bulb_after_set(b, TransportEvent::Reply(s), true).power == Some(true),
{
}

/// Two acknowledged commands to the same handle resolve to the state set by
/// whichever acknowledgment was processed last: no lost update.
pub proof fn lemma_last_ack_wins(b: Bulb, s1: String, s2: String)
    requires
        s1@ == lit_set_ack(true),
        s2@ == lit_set_ack(true),
    ensures
        bulb_after_set(bulb_after_set(b, TransportEvent::Reply(s1), true),
            TransportEvent::Reply(s2), false).power == Some(false),
        bulb_after_set(bulb_after_set(b, TransportEvent::Reply(s1), false),
            TransportEvent::Reply(s2), true).power == Some(true),
{
}

} // verus!
