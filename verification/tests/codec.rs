//! The wire codec: exact encodings, escaping, and the round trip.

use unix_socket_based_client_server::codec::{decode_request, decode_response, encode_frame, encode_response};
use unix_socket_based_client_server::errors::ServerError;
use unix_socket_based_client_server::message::{CommandStatus, Response};

#[test]
fn encode_is_canonical() {
    let r = Response::new("response", CommandStatus::Okay, "Roger that");
    assert_eq!(
        encode_response(&r),
        "{\"id\":\"response\",\"status\":\"Ok\",\"message\":\"Roger that\"}"
    );
    let p = Response::new("processing", CommandStatus::Processing, "still processing...");
    assert_eq!(
        encode_response(&p),
        "{\"id\":\"processing\",\"status\":\"Processing\",\"message\":\"still processing...\"}"
    );
    let e = Response::new("what", CommandStatus::Error, "Sorry what?");
    assert_eq!(
        encode_response(&e),
        "{\"id\":\"what\",\"status\":\"Error\",\"message\":\"Sorry what?\"}"
    );
}

#[test]
fn encode_escapes_specials_and_controls() {
    let r = Response::new("a\"b", CommandStatus::Okay, "x\\y\nz\u{0}");
    assert_eq!(
        encode_response(&r),
        "{\"id\":\"a\\\"b\",\"status\":\"Ok\",\"message\":\"x\\\\y\\u000Az\\u0000\"}"
    );
}

#[test]
fn frame_appends_one_zero_sentinel() {
    let r = Response::new("response", CommandStatus::Okay, "Roger that");
    let frame = encode_frame(&r);
    let mut expected = encode_response(&r);
    expected.push('\u{0}');
    assert_eq!(frame, expected);
    assert_eq!(*frame.as_bytes().last().unwrap(), 0u8);
}

#[test]
fn round_trip_plain_fields() {
    let cases = [
        Response::new("response", CommandStatus::Okay, "Roger that"),
        Response::new("what", CommandStatus::Error, "Sorry what?"),
        Response::new("processing", CommandStatus::Processing, "still processing..."),
        Response::new("", CommandStatus::Okay, ""),
    ];
    for r in cases {
        let text = encode_response(&r);
        assert_eq!(decode_response(&text).unwrap(), r);
    }
}

#[test]
fn round_trip_escaped_and_unicode_fields() {
    let cases = [
        Response::new("a\"b\\c", CommandStatus::Okay, "line\nbreak\ttab"),
        Response::new("h\u{e9}llo", CommandStatus::Error, "clef \u{1d11e} and \u{2192}"),
        Response::new("\u{0}\u{1}\u{1f}", CommandStatus::Processing, "\u{7f} kept raw"),
    ];
    for r in cases {
        let text = encode_response(&r);
        assert_eq!(decode_response(&text).unwrap(), r);
    }
}

#[test]
fn round_trip_through_frame() {
    let r = Response::new("response", CommandStatus::Okay, "Roger that");
    let frame = encode_frame(&r);
    let payload = &frame[..frame.len() - 1];
    assert_eq!(decode_response(payload).unwrap(), r);
}

#[test]
fn decode_response_accepts_reordered_members() {
    let got = decode_response("{\"status\":\"Ok\",\"message\":\"m\",\"id\":\"x\"}").unwrap();
    assert_eq!(got, Response::new("x", CommandStatus::Okay, "m"));
}

#[test]
fn decode_response_rejects_bad_objects() {
    for text in [
        "{\"id\":\"x\",\"status\":\"Bogus\",\"message\":\"m\"}",
        "{\"id\":\"x\",\"status\":\"Ok\"}",
        "{\"id\":\"x\",\"status\":\"Ok\",\"status\":\"Ok\",\"message\":\"m\"}",
        "{\"id\":\"x\",\"status\":3,\"message\":\"m\"}",
        "{}",
        "nope",
    ] {
        assert!(decode_response(text).is_none());
    }
}

#[test]
fn decode_request_reads_the_id() {
    let req = decode_request("{\"id\":\"hello\"}").unwrap();
    assert_eq!(req.id, "hello");
}

#[test]
fn decode_request_handles_surrogate_pairs() {
    let req = decode_request("{\"id\":\"\\uD834\\uDD1E\"}").unwrap();
    assert_eq!(req.id, "\u{1d11e}");
    assert_eq!(
        decode_request("{\"id\":\"\\uD834\"}"),
        Err(ServerError::Decode)
    );
    assert_eq!(
        decode_request("{\"id\":\"\\uDD1E\\uD834\"}"),
        Err(ServerError::Decode)
    );
}

#[test]
fn decode_request_checks_number_grammar() {
    assert!(decode_request("{\"id\":\"x\",\"n\":-0.5e-3}").is_ok());
    assert!(decode_request("{\"id\":\"x\",\"n\":12.25E+6}").is_ok());
    assert_eq!(
        decode_request("{\"id\":\"x\",\"n\":01}"),
        Err(ServerError::Decode)
    );
    assert_eq!(
        decode_request("{\"id\":\"x\",\"n\":1.}"),
        Err(ServerError::Decode)
    );
    assert_eq!(
        decode_request("{\"id\":\"x\",\"n\":+1}"),
        Err(ServerError::Decode)
    );
}

#[test]
fn decode_request_rejects_raw_controls_in_strings() {
    assert_eq!(
        decode_request("{\"id\":\"a\u{1}b\"}"),
        Err(ServerError::Decode)
    );
}
