use wiz_bulb::codec::{decode_response, encode_request, Command, DecodeError, ErrorCode, Response};

#[test]
fn encode_turn_on_request() {
    assert_eq!(
        encode_request(Command::TurnOn),
        "{\"method\":\"setPilot\",\"params\":{\"state\":true}}"
    );
}

#[test]
fn encode_turn_off_request() {
    assert_eq!(
        encode_request(Command::TurnOff),
        "{\"method\":\"setPilot\",\"params\":{\"state\":false}}"
    );
}

#[test]
fn encode_query_request() {
    assert_eq!(encode_request(Command::QueryState), "{\"method\":\"getPilot\",\"params\":{}}");
}

#[test]
fn encode_probe_request() {
    assert_eq!(encode_request(Command::DiscoveryProbe), "{\"method\":\"probe\",\"params\":{}}");
}

#[test]
fn decode_set_ack_true() {
    let r = decode_response("{\"method\":\"setPilot\",\"result\":{\"success\":true}}");
    assert_eq!(r, Ok(Response::SetAck(true)));
}

#[test]
fn decode_set_ack_false() {
    let r = decode_response("{\"method\":\"setPilot\",\"result\":{\"success\":false}}");
    assert_eq!(r, Ok(Response::SetAck(false)));
}

#[test]
fn decode_state_report_true() {
    let r = decode_response("{\"method\":\"getPilot\",\"result\":{\"state\":true}}");
    assert_eq!(r, Ok(Response::StateReport(true)));
}

#[test]
fn decode_state_report_false() {
    let r = decode_response("{\"method\":\"getPilot\",\"result\":{\"state\":false}}");
    assert_eq!(r, Ok(Response::StateReport(false)));
}

#[test]
fn decode_probe_reply() {
    let r = decode_response("{\"method\":\"probe\",\"result\":{\"mac\":\"a1b2c3d4\"}}");
    assert_eq!(r, Ok(Response::ProbeReply("a1b2c3d4".to_string())));
}

#[test]
fn decode_probe_reply_empty_mac() {
    let r = decode_response("{\"method\":\"probe\",\"result\":{\"mac\":\"\"}}");
    assert_eq!(r, Ok(Response::ProbeReply(String::new())));
}

#[test]
fn decode_error_method_not_found() {
    let r = decode_response("{\"error\":{\"code\":-32601,\"message\":\"no such method\"}}");
    assert_eq!(r, Ok(Response::Failure(ErrorCode::MethodNotFound, "no such method".to_string())));
}

#[test]
fn decode_error_invalid_params() {
    let r = decode_response("{\"error\":{\"code\":-32602,\"message\":\"bad params\"}}");
    assert_eq!(r, Ok(Response::Failure(ErrorCode::InvalidParams, "bad params".to_string())));
}

#[test]
fn decode_error_internal() {
    let r = decode_response("{\"error\":{\"code\":-32603,\"message\":\"oops\"}}");
    assert_eq!(r, Ok(Response::Failure(ErrorCode::Internal, "oops".to_string())));
}

#[test]
fn decode_garbage_is_malformed() {
    assert_eq!(decode_response("hello"), Err(DecodeError::MalformedMessage));
    assert_eq!(decode_response(""), Err(DecodeError::MalformedMessage));
    assert_eq!(decode_response("{\"x\":1}"), Err(DecodeError::MalformedMessage));
}

#[test]
fn decode_unknown_method_is_unexpected() {
    let r = decode_response("{\"method\":\"syncPilot\",\"result\":{}}");
    assert_eq!(r, Err(DecodeError::UnexpectedMethod));
}

#[test]
fn decode_known_method_bad_shape_is_malformed() {
    let r = decode_response("{\"method\":\"setPilot\",\"result\":{\"success\":1}}");
    assert_eq!(r, Err(DecodeError::MalformedMessage));
    let r = decode_response("{\"method\":\"getPilot\"}");
    assert_eq!(r, Err(DecodeError::MalformedMessage));
}

#[test]
fn decode_probe_bad_tail_is_malformed() {
    let r = decode_response("{\"method\":\"probe\",\"result\":{\"mac\":\"abc\"} }");
    assert_eq!(r, Err(DecodeError::MalformedMessage));
    let r = decode_response("{\"method\":\"probe\",\"result\":{\"mac\":\"ab");
    assert_eq!(r, Err(DecodeError::MalformedMessage));
}

#[test]
fn decode_error_unknown_code_is_malformed() {
    let r = decode_response("{\"error\":{\"code\":-32700,\"message\":\"parse\"}}");
    assert_eq!(r, Err(DecodeError::MalformedMessage));
}

#[test]
fn decode_never_panics_on_arbitrary_bytes_shaped_text() {
    // a small sweep of hostile inputs: only errors, never a panic
    let cases = [
        "{",
        "{\"method\":\"",
        "{\"method\":\"probe\",\"result\":{\"mac\":\"\\\"}}",
        "{\"error\":{\"code\":-32601,\"message\":\"\u{1F4A1}\"}}",
        "\u{0}\u{0}\u{0}",
    ];
    for c in cases {
        assert!(decode_response(c).is_err());
    }
}
