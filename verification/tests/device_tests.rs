use wiz_bulb::codec::{Command, DecodeError};
use wiz_bulb::device::{toggle_command, Bulb, DeviceError, TransportEvent};
use wiz_bulb::ident::{Identifier, Ipv4};

fn lamp() -> Bulb {
    Bulb {
        id: Identifier::Numeric(1),
        mac: "a1b2c3".to_string(),
        name: "lamp".to_string(),
        addr: Ipv4 { a: 10, b: 0, c: 0, d: 5 },
        power: None,
    }
}

fn ack(success: bool) -> TransportEvent {
    if success {
        TransportEvent::Reply("{\"method\":\"setPilot\",\"result\":{\"success\":true}}".to_string())
    } else {
        TransportEvent::Reply(
            "{\"method\":\"setPilot\",\"result\":{\"success\":false}}".to_string(),
        )
    }
}

fn report(on: bool) -> TransportEvent {
    if on {
        TransportEvent::Reply("{\"method\":\"getPilot\",\"result\":{\"state\":true}}".to_string())
    } else {
        TransportEvent::Reply("{\"method\":\"getPilot\",\"result\":{\"state\":false}}".to_string())
    }
}

#[test]
fn acknowledged_on_caches_power_on() {
    let mut b = lamp();
    assert_eq!(b.on(&ack(true)), Ok(true));
    assert_eq!(b.power, Some(true));
    // a follow-up state query that reports the set state keeps the cache on
    assert_eq!(b.get_state(&report(true)), Ok(true));
    assert_eq!(b.power, Some(true));
}

#[test]
fn refused_set_leaves_cache_alone() {
    let mut b = lamp();
    assert_eq!(b.on(&ack(false)), Ok(false));
    assert_eq!(b.power, None);
}

#[test]
fn silent_device_times_out() {
    let mut b = lamp();
    assert_eq!(b.on(&TransportEvent::NoReply), Err(DeviceError::Timeout));
    assert_eq!(b.power, None);
    assert_eq!(b.get_state(&TransportEvent::NoReply), Err(DeviceError::Timeout));
}

#[test]
fn send_failure_is_unreachable() {
    let mut b = lamp();
    assert_eq!(b.off(&TransportEvent::SendFailed), Err(DeviceError::Unreachable));
    assert_eq!(b.power, None);
}

#[test]
fn wrong_kind_reply_is_protocol_error() {
    let mut b = lamp();
    // a state report is no answer to a setPilot command
    assert_eq!(
        b.on(&report(true)),
        Err(DeviceError::ProtocolError(DecodeError::UnexpectedMethod))
    );
    assert_eq!(b.power, None);
}

#[test]
fn malformed_reply_is_protocol_error() {
    let mut b = lamp();
    assert_eq!(
        b.on(&TransportEvent::Reply("nonsense".to_string())),
        Err(DeviceError::ProtocolError(DecodeError::MalformedMessage))
    );
    assert_eq!(
        b.on(&TransportEvent::Reply("{\"method\":\"blinkPilot\",\"x\":0}".to_string())),
        Err(DeviceError::ProtocolError(DecodeError::UnexpectedMethod))
    );
}

#[test]
fn last_acknowledgment_wins() {
    let mut b = lamp();
    assert_eq!(b.on(&ack(true)), Ok(true));
    assert_eq!(b.off(&ack(true)), Ok(true));
    assert_eq!(b.power, Some(false));
    assert_eq!(b.on(&ack(true)), Ok(true));
    assert_eq!(b.power, Some(true));
}

#[test]
fn get_state_refreshes_cache() {
    let mut b = lamp();
    assert_eq!(b.get_state(&report(false)), Ok(false));
    assert_eq!(b.power, Some(false));
    assert_eq!(b.get_state(&report(true)), Ok(true));
    assert_eq!(b.power, Some(true));
}

#[test]
fn toggle_picks_the_opposite_command() {
    assert_eq!(toggle_command(true), Command::TurnOff);
    assert_eq!(toggle_command(false), Command::TurnOn);
}
