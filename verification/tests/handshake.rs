//! Tests of the handshake: the accept-key vector, request parsing,
//! response serialization, and the handshake decision table.

use deezy::accept::hash_websocket_key;
use deezy::http::{
    handle_handshake, header_contains, header_lookup, parse_request, HandshakeOutcome, HttpError,
    Method, ResponseBuilder,
};

#[test]
fn accept_key_matches_rfc_worked_example() {
    let accept = hash_websocket_key(b"dGhlIHNhbXBsZSBub25jZQ==");
    assert_eq!(accept, b"s3pPLMBiTxaQ9kYGzzhZRbK+xOo=".to_vec());
}

#[test]
fn upgrade_request_yields_switching_protocols() {
    let request = b"GET /chat HTTP/1.1\r\n\
        Host: server.example.com\r\n\
        Upgrade: websocket\r\n\
        Connection: Upgrade\r\n\
        Sec-WebSocket-Key: dGhlIHNhbXBsZSBub25jZQ==\r\n\
        \r\n";
    match handle_handshake(request) {
        HandshakeOutcome::StartSession(resp) => {
            let expected = b"HTTP/1.1 101 Switching protocols\r\n\
                upgrade: websocket\r\n\
                connection: Upgrade\r\n\
                sec-websocket-accept: s3pPLMBiTxaQ9kYGzzhZRbK+xOo=\r\n\
                \r\n";
            assert_eq!(resp, expected.to_vec());
        }
        HandshakeOutcome::RejectAndClose(_) => panic!("upgrade request must start a session"),
    }
}

#[test]
fn plain_get_yields_greeting_with_content_length() {
    let request = b"GET / HTTP/1.1\r\nHost: localhost\r\n\r\n";
    match handle_handshake(request) {
        HandshakeOutcome::RejectAndClose(resp) => {
            let expected = b"HTTP/1.1 200 Ok\r\n\
                server: Deezy\r\n\
                content-type: text/plain\r\n\
                Content-Length: 24\r\n\
                \r\n\
                Hello from Deezy server!";
            assert_eq!(resp, expected.to_vec());
        }
        HandshakeOutcome::StartSession(_) => panic!("plain GET must not start a session"),
    }
}

#[test]
fn upgrade_without_key_yields_404() {
    let request = b"GET / HTTP/1.1\r\nUpgrade: websocket\r\nConnection: Upgrade\r\n\r\n";
    match handle_handshake(request) {
        HandshakeOutcome::RejectAndClose(resp) => {
            assert_eq!(
                resp,
                b"HTTP/1.1 404 Bad Request\r\nserver: Deezy\r\n\r\n".to_vec()
            );
        }
        HandshakeOutcome::StartSession(_) => panic!("keyless upgrade must not start a session"),
    }
}

#[test]
fn non_get_method_yields_default_200() {
    let request = b"POST / HTTP/1.1\r\nUpgrade: websocket\r\nConnection: Upgrade\r\n\r\n";
    match handle_handshake(request) {
        HandshakeOutcome::RejectAndClose(resp) => {
            assert_eq!(resp, b"HTTP/1.1 200 Ok\r\nserver: Deezy\r\n\r\n".to_vec());
        }
        HandshakeOutcome::StartSession(_) => panic!("non-GET must not start a session"),
    }
}

#[test]
fn malformed_request_yields_400() {
    let request = b"NOSPACEHERE\r\n\r\n";
    match handle_handshake(request) {
        HandshakeOutcome::RejectAndClose(resp) => {
            assert_eq!(resp, b"HTTP/1.1 400 Unknown\r\nserver: Deezy\r\n\r\n".to_vec());
        }
        HandshakeOutcome::StartSession(_) => panic!("malformed request must not start a session"),
    }
}

#[test]
fn parse_request_folds_method_and_uri() {
    let request = parse_request(b"GET /ChatRoom HTTP/1.1\r\n\r\n").expect("must parse");
    assert_eq!(request.method, Method::Get);
    assert_eq!(request.uri, b"/chatroom".to_vec());
}

#[test]
fn parse_request_lowercases_and_trims_header_names() {
    let request =
        parse_request(b"GET / HTTP/1.1\r\n  Sec-WebSocket-Key  :  abc==  \r\n\r\n").expect(
            "must parse",
        );
    let value = header_lookup(&request.headers, b"sec-websocket-key").expect("key must be there");
    assert_eq!(value, b"abc==".to_vec());
}

#[test]
fn parse_request_last_header_occurrence_wins() {
    let request =
        parse_request(b"GET / HTTP/1.1\r\nX-Tag: one\r\nx-tag: two\r\n\r\n").expect("must parse");
    assert_eq!(request.headers.len(), 1);
    let value = header_lookup(&request.headers, b"x-tag").expect("key must be there");
    assert_eq!(value, b"two".to_vec());
}

#[test]
fn parse_request_skips_lines_without_colon() {
    let request =
        parse_request(b"GET / HTTP/1.1\r\nnot a header line\r\nHost: h\r\n\r\n").expect(
            "must parse",
        );
    assert_eq!(request.headers.len(), 1);
    assert!(header_contains(&request.headers, b"host"));
}

#[test]
fn parse_request_stops_at_empty_line() {
    let request =
        parse_request(b"GET / HTTP/1.1\r\nBefore: 1\r\n\r\nAfter: 2\r\n").expect("must parse");
    assert!(header_contains(&request.headers, b"before"));
    assert!(!header_contains(&request.headers, b"after"));
}

#[test]
fn parse_request_of_empty_input_is_default() {
    let request = parse_request(b"").expect("empty input must parse");
    assert_eq!(request.method, Method::Other);
    assert_eq!(request.uri, Vec::<u8>::new());
    assert!(request.headers.is_empty());
}

#[test]
fn parse_request_without_uri_token_fails() {
    assert!(matches!(
        parse_request(b"GET\r\nHost: h\r\n\r\n"),
        Err(HttpError::MalformedRequest)
    ));
    assert!(matches!(
        parse_request(b"\r\n"),
        Err(HttpError::MalformedRequest)
    ));
}

#[test]
fn invalid_utf8_input_fails_as_malformed() {
    assert!(matches!(
        parse_request(b"GET /a\xFF HTTP/1.1\r\n\r\n"),
        Err(HttpError::MalformedRequest)
    ));
    match handle_handshake(b"\xC3\x28") {
        HandshakeOutcome::RejectAndClose(resp) => {
            assert_eq!(resp, b"HTTP/1.1 400 Unknown\r\nserver: Deezy\r\n\r\n".to_vec());
        }
        HandshakeOutcome::StartSession(_) => panic!("invalid text must not start a session"),
    }
}

#[test]
fn multi_byte_utf8_header_value_is_kept() {
    let request =
        parse_request(b"GET / HTTP/1.1\r\nX-Name: caf\xC3\xA9\r\n\r\n").expect("must parse");
    let value = header_lookup(&request.headers, b"x-name").expect("key must be there");
    assert_eq!(value, b"caf\xC3\xA9".to_vec());
}

#[test]
fn unknown_status_code_renders_unknown_reason() {
    let resp = ResponseBuilder::new().status(999).to_string();
    assert_eq!(resp, b"HTTP/1.1 999 Unknown\r\n\r\n".to_vec());
}

#[test]
fn response_builder_overwrites_repeated_header() {
    let resp = ResponseBuilder::new()
        .add_header(b"Server", b"one")
        .add_header(b"SERVER", b"two")
        .to_string();
    assert_eq!(resp, b"HTTP/1.1 200 Ok\r\nserver: two\r\n\r\n".to_vec());
}
