use minihttp::client::{encode_request, is_success};
use minihttp::interaction::{
    interaction_body_length, interaction_reply, interactions, register_hello_request,
    respond_to_interaction, Interaction,
};
use minihttp::method::Method;
use minihttp::request::{parse_head, HttpError, RequestHeader};
use minihttp::server::{connection_reply, dispatch, failure_response, respond_ok_json, Server};
use minihttp::signature::{parse_hex_str, verify_interaction};
use minihttp::text::push_decimal;
use ring::signature::{Ed25519KeyPair, KeyPair};

const UNAUTHORIZED: &[u8] = b"HTTP/1.1 401 Unauthorized\r\n\r\n";

fn hex(bytes: &[u8]) -> String {
    bytes.iter().map(|b| format!("{:02x}", b)).collect()
}

fn key_pair() -> Ed25519KeyPair {
    let rng = ring::rand::SystemRandom::new();
    let doc = Ed25519KeyPair::generate_pkcs8(&rng).unwrap();
    Ed25519KeyPair::from_pkcs8(doc.as_ref()).unwrap()
}

fn signed_request(kp: &Ed25519KeyPair, path: &str, ts: &str, body: &str) -> Vec<u8> {
    let sig = kp.sign([ts.as_bytes(), body.as_bytes()].concat().as_slice());
    format!(
        "POST {} HTTP/1.1\r\nX-Signature-Ed25519: {}\r\nX-Signature-Timestamp: {}\r\nContent-Length: {}\r\n\r\n{}",
        path,
        hex(sig.as_ref()),
        ts,
        body.len(),
        body
    )
    .into_bytes()
}

type Endpoint = fn(&RequestHeader, &[u8], &[u8]) -> Result<Vec<u8>, HttpError>;

fn serve(server: &Server<Endpoint>, input: &[u8], key: &[u8]) -> Option<Vec<u8>> {
    let outcome = match dispatch(server, input) {
        Ok((req, handler, n)) => handler(&req, &input[n..], key),
        Err(e) => Err(e),
    };
    connection_reply(outcome)
}

fn test_server() -> Server<Endpoint> {
    Server::new(
        "localhost:8765".to_string(),
        vec![(b"/api/v2/interactions".to_vec(), interactions as Endpoint)],
    )
}

fn head(text: &str) -> RequestHeader {
    parse_head(text.as_bytes()).ok().unwrap().0
}

#[test]
fn signed_ping_is_answered_with_pong() {
    let kp = key_pair();
    let key = hex(kp.public_key().as_ref());
    let input = signed_request(&kp, "/api/v2/interactions", "1700000000", "{\"type\":1}");
    let reply = serve(&test_server(), &input, key.as_bytes()).unwrap();
    let expected = b"HTTP/1.1 200 OK\r\nUser-Agent: DiscordBot (https://baekjoonbot.hexa.pro, 2.0)\r\nContent-Type: application/json\r\nContent-Length: 10\r\n\r\n{\"type\":1}";
    assert_eq!(reply, expected.to_vec());
    assert!(reply.starts_with(b"HTTP/1.1 200 OK"));
    assert!(reply.ends_with(b"\r\n\r\n{\"type\":1}"));
}

#[test]
fn mismatched_signature_is_unauthorized() {
    let kp = key_pair();
    let key = hex(kp.public_key().as_ref());
    let good = signed_request(&kp, "/api/v2/interactions", "1700000000", "{\"type\":1}");
    let mut text = String::from_utf8(good).unwrap();
    text = text.replace("{\"type\":1}", "{\"type\":2}");
    let reply = serve(&test_server(), text.as_bytes(), key.as_bytes()).unwrap();
    assert_eq!(reply, UNAUTHORIZED.to_vec());
}

#[test]
fn unknown_path_is_unauthorized() {
    let kp = key_pair();
    let key = hex(kp.public_key().as_ref());
    let input = signed_request(&kp, "/unknown", "1700000000", "{\"type\":1}");
    let reply = serve(&test_server(), &input, key.as_bytes()).unwrap();
    assert_eq!(reply, UNAUTHORIZED.to_vec());
}

#[test]
fn wrong_method_is_unauthorized() {
    let key = "00";
    let input = b"GET /api/v2/interactions HTTP/1.1\r\nContent-Length: 0\r\n\r\n";
    let reply = serve(&test_server(), input, key.as_bytes()).unwrap();
    assert_eq!(reply, UNAUTHORIZED.to_vec());
}

#[test]
fn short_body_gets_no_reply() {
    let input = b"POST /api/v2/interactions HTTP/1.1\r\nContent-Length: 9\r\n\r\nabc";
    assert_eq!(serve(&test_server(), input, b"00"), None);
}

#[test]
fn hello_command_is_answered() {
    let kp = key_pair();
    let key = hex(kp.public_key().as_ref());
    let body = "{\"type\":2,\"data\":{\"name\":\"hello\"}}";
    let input = signed_request(&kp, "/api/v2/interactions", "1", body);
    let reply = serve(&test_server(), &input, key.as_bytes()).unwrap();
    assert!(reply.ends_with(b"\r\n\r\n{\"data\":{\"content\":\"Hello, World!\"},\"type\":4}"));
    assert!(reply.starts_with(b"HTTP/1.1 200 OK\r\n"));
}

#[test]
fn unknown_command_or_type_is_a_bad_payload() {
    let kp = key_pair();
    let key = hex(kp.public_key().as_ref());
    for body in ["{\"type\":2,\"data\":{\"name\":\"bye\"}}", "{\"type\":2}", "{\"type\":3}", "{}", "not json"] {
        let ts = "99";
        let sig = kp.sign([ts.as_bytes(), body.as_bytes()].concat().as_slice());
        let req = head(&format!(
            "POST /api/v2/interactions HTTP/1.1\r\nX-Signature-Ed25519: {}\r\nX-Signature-Timestamp: {}\r\n\r\n",
            hex(sig.as_ref()),
            ts
        ));
        assert_eq!(
            respond_to_interaction(&req, body.as_bytes(), key.as_bytes()).err(),
            Some(HttpError::MalformedPayload)
        );
    }
}

#[test]
fn reply_follows_the_document() {
    let pong = interaction_reply(Some(Interaction { kind: Some(1), name: None })).ok().unwrap();
    assert!(pong.ends_with(b"{\"type\":1}"));
    let hello = interaction_reply(Some(Interaction { kind: Some(2), name: Some(b"hello".to_vec()) }));
    assert!(hello.ok().unwrap().ends_with(b"\"type\":4}"));
    assert_eq!(
        interaction_reply(Some(Interaction { kind: Some(2), name: None })).err(),
        Some(HttpError::MalformedPayload)
    );
    assert_eq!(interaction_reply(None).err(), Some(HttpError::MalformedPayload));
}

#[test]
fn signature_gate_accepts_valid_and_rejects_flips() {
    let kp = key_pair();
    let key = hex(kp.public_key().as_ref());
    let ts = "1700000000";
    let body = b"{\"type\":1}".to_vec();
    let sig = kp.sign([ts.as_bytes(), body.as_slice()].concat().as_slice());
    let sig_hex = hex(sig.as_ref());
    let make = |sig_hex: &str, ts: &str| {
        head(&format!(
            "POST / HTTP/1.1\r\nX-Signature-Ed25519: {}\r\nX-Signature-Timestamp: {}\r\n\r\n",
            sig_hex, ts
        ))
    };
    assert!(verify_interaction(&make(&sig_hex, ts), &body, key.as_bytes()));
    // one byte of the body changed
    let mut other = body.clone();
    other[2] ^= 1;
    assert!(!verify_interaction(&make(&sig_hex, ts), &other, key.as_bytes()));
    // one byte of the timestamp changed
    assert!(!verify_interaction(&make(&sig_hex, "1700000001"), &body, key.as_bytes()));
    // one byte of the signature changed
    let mut bad = sig.as_ref().to_vec();
    bad[0] ^= 1;
    assert!(!verify_interaction(&make(&hex(&bad), ts), &body, key.as_bytes()));
}

#[test]
fn malformed_signature_text_fails() {
    let kp = key_pair();
    let key = hex(kp.public_key().as_ref());
    let odd = "POST / HTTP/1.1\r\nX-Signature-Ed25519: abc\r\nX-Signature-Timestamp: 1\r\n\r\n";
    assert!(!verify_interaction(&head(odd), b"", key.as_bytes()));
    let non_hex = "POST / HTTP/1.1\r\nX-Signature-Ed25519: zz\r\nX-Signature-Timestamp: 1\r\n\r\n";
    assert!(!verify_interaction(&head(non_hex), b"", key.as_bytes()));
    let no_ts = "POST / HTTP/1.1\r\nX-Signature-Ed25519: 00\r\n\r\n";
    assert!(!verify_interaction(&head(no_ts), b"", key.as_bytes()));
    let no_sig = "POST / HTTP/1.1\r\nX-Signature-Timestamp: 1\r\n\r\n";
    assert!(!verify_interaction(&head(no_sig), b"", key.as_bytes()));
}

#[test]
fn hex_decoding() {
    assert_eq!(parse_hex_str(b"00ff10Ab"), Some(vec![0x00, 0xff, 0x10, 0xab]));
    assert_eq!(parse_hex_str(b""), Some(vec![]));
    assert_eq!(parse_hex_str(b"abc"), None);
    assert_eq!(parse_hex_str(b"0g"), None);
    assert_eq!(parse_hex_str(b"+f"), None);
}

#[test]
fn failures_map_to_status() {
    assert_eq!(failure_response(HttpError::MalformedRequest), Some(UNAUTHORIZED.to_vec()));
    assert_eq!(failure_response(HttpError::MalformedPayload), Some(UNAUTHORIZED.to_vec()));
    assert_eq!(failure_response(HttpError::Timeout), Some(UNAUTHORIZED.to_vec()));
    assert_eq!(failure_response(HttpError::Unclassified), None);
}

#[test]
fn json_reply_framing() {
    let r = respond_ok_json(b"{}");
    assert!(r.ends_with(b"Content-Length: 2\r\n\r\n{}"));
    let mut out = b"n=".to_vec();
    push_decimal(&mut out, 1234);
    assert_eq!(out, b"n=1234".to_vec());
    let mut zero = Vec::new();
    push_decimal(&mut zero, 0);
    assert_eq!(zero, b"0".to_vec());
}

#[test]
fn later_route_replaces_earlier() {
    fn first(_: &RequestHeader, _: &[u8], _: &[u8]) -> Result<Vec<u8>, HttpError> {
        Ok(b"first".to_vec())
    }
    fn second(_: &RequestHeader, _: &[u8], _: &[u8]) -> Result<Vec<u8>, HttpError> {
        Ok(b"second".to_vec())
    }
    let server: Server<Endpoint> = Server::new(
        "a".to_string(),
        vec![(b"/x".to_vec(), first as Endpoint), (b"/x".to_vec(), second as Endpoint)],
    );
    let h = server.route(b"/x").unwrap();
    assert_eq!(h(&head("GET /x HTTP/1.1\r\n\r\n"), b"", b""), Ok(b"second".to_vec()));
    assert!(server.route(b"/x/").is_none());
    assert!(server.route(b"/").is_none());
    assert_eq!(server.addr().as_str(), "a");
}

#[test]
fn body_length_needs_post() {
    let get = head("GET / HTTP/1.1\r\nContent-Length: 1\r\n\r\n");
    assert_eq!(interaction_body_length(&get), Err(HttpError::MalformedRequest));
    let post = head("POST / HTTP/1.1\r\nContent-Length: 1\r\n\r\n");
    assert_eq!(interaction_body_length(&post), Ok(1));
}

#[test]
fn client_request_framing() {
    let headers = vec![(b"A".to_vec(), b"1".to_vec()), (b"B".to_vec(), b"2".to_vec())];
    let r = encode_request(Method::Put, b"example.com", b"/p", &headers, b"xyz");
    assert_eq!(
        r,
        b"PUT /p HTTP/1.1\r\nHost: example.com\r\nConnection: close\r\nA: 1\r\nB: 2\r\n\r\nxyz".to_vec()
    );
}

#[test]
fn registration_request_bytes() {
    let r = register_hello_request(b"123", b"tok");
    let body = "{\"description\":\"Hello, World!\",\"name\":\"hello\"}";
    let expected = format!(
        "POST /api/v10/applications/123/commands HTTP/1.1\r\nHost: discord.com\r\nConnection: close\r\nAuthorization: Bot tok\r\nUser-Agent: DiscordBot (https://baekjoonbot.hexa.pro, 2.0)\r\nContent-Type: application/json\r\nContent-Length: {}\r\n\r\n{}",
        body.len(),
        body
    );
    assert_eq!(String::from_utf8(r).unwrap(), expected);
}

#[test]
fn success_status_check() {
    assert!(is_success(b"HTTP/1.1 200 OK\r\n\r\n{}"));
    assert!(is_success(b"HTTP/1.1 200 OK"));
    assert!(!is_success(b"HTTP/1.1 201 Created\r\n"));
    assert!(!is_success(b"HTTP/1.1 200"));
    assert!(!is_success(b""));
}
