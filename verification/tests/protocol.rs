//! One full exchange: decoding a request and producing the three frames.

use unix_socket_based_client_server::codec::decode_response;
use unix_socket_based_client_server::errors::ServerError;
use unix_socket_based_client_server::message::{CommandStatus, Response};
use unix_socket_based_client_server::protocol::handle_message;

/// Strips the trailing zero sentinel and decodes the payload.
fn decode_frame(frame: &str) -> Response {
    let bytes = frame.as_bytes();
    assert_eq!(bytes[bytes.len() - 1], 0);
    let payload = &frame[..frame.len() - 1];
    decode_response(payload).expect("frame payload must decode")
}

#[test]
fn success_terminal_frame() {
    let frames = handle_message("{\"id\":\"request\"}").unwrap();
    assert_eq!(frames.len(), 3);
    let terminal = decode_frame(&frames[2]);
    assert_eq!(
        terminal,
        Response::new("response", CommandStatus::Okay, "Roger that")
    );
}

#[test]
fn fallback_terminal_frame() {
    for id in ["nope", "", "Request", "request ", "requests"] {
        let msg = format!("{{\"id\":\"{}\"}}", id);
        let frames = handle_message(&msg).unwrap();
        assert_eq!(frames.len(), 3);
        let terminal = decode_frame(&frames[2]);
        assert_eq!(
            terminal,
            Response::new("what", CommandStatus::Error, "Sorry what?")
        );
    }
}

#[test]
fn three_frames_two_processing() {
    let frames = handle_message("{\"id\":\"request\"}").unwrap();
    assert_eq!(frames.len(), 3);
    for frame in &frames[..2] {
        let interim = decode_frame(frame);
        assert_eq!(
            interim,
            Response::new("processing", CommandStatus::Processing, "still processing...")
        );
    }
    let terminal = decode_frame(&frames[2]);
    assert_eq!(terminal.status, CommandStatus::Okay);
}

#[test]
fn frames_hold_exactly_one_zero_byte_at_the_end() {
    let frames = handle_message("{\"id\":\"zero \\u0000 inside\"}").unwrap();
    for frame in &frames {
        let bytes = frame.as_bytes();
        let zeros = bytes.iter().filter(|b| **b == 0).count();
        assert_eq!(zeros, 1);
        assert_eq!(bytes[bytes.len() - 1], 0);
    }
}

#[test]
fn malformed_input_is_a_decode_error() {
    for msg in [
        "not json",
        "",
        "{",
        "{}",
        "{\"noid\":1}",
        "{\"id\":5}",
        "{\"id\":null}",
        "{\"id\":\"a\",\"id\":\"b\"}",
        "{\"id\":\"a\"} trailing",
        "{\"id\":\"a\"}{}",
        "[\"id\",\"a\"]",
        "{\"id\":\"a\",}",
        "{\"id\":\"unterminated}",
    ] {
        assert_eq!(handle_message(msg), Err(ServerError::Decode));
    }
}

#[test]
fn extra_members_are_ignored() {
    let msg = "{\"x\":[1,{\"y\":null},true],\"id\":\"request\",\"n\":-1.5e3}";
    let frames = handle_message(msg).unwrap();
    let terminal = decode_frame(&frames[2]);
    assert_eq!(terminal.status, CommandStatus::Okay);
}

#[test]
fn whitespace_around_tokens_is_accepted() {
    let msg = " {\u{9}\"id\" :\n\"request\" ,\r\"k\" : \"v\" } ";
    let frames = handle_message(msg).unwrap();
    let terminal = decode_frame(&frames[2]);
    assert_eq!(terminal.status, CommandStatus::Okay);
}

#[test]
fn unicode_escapes_decode_before_dispatch() {
    let frames = handle_message("{\"id\":\"\\u0072equest\"}").unwrap();
    let terminal = decode_frame(&frames[2]);
    assert_eq!(terminal.status, CommandStatus::Okay);
    assert_eq!(terminal.id, "response");
}
