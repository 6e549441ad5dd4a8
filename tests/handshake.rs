use websocket_server::client::{ClientState, HandshakeError, Interest, WebSocketClient};
use websocket_server::parser::{HttpParser, Phase};
use websocket_server::registry::{Registry, SERVER_TOKEN};
use websocket_server::security::{derive_accept_token, gen_key};
use websocket_server::server::{Dispatch, WebSocketServer};

const REQUEST: &str = "GET /chat HTTP/1.1\r\n\
Host: server.example.com\r\n\
Upgrade: websocket\r\n\
Connection: Upgrade\r\n\
Sec-WebSocket-Key: dGhlIHNhbXBsZSBub25jZQ==\r\n\
Sec-WebSocket-Version: 13\r\n\r\n";

const RESPONSE: &str = "HTTP/1.1 101 Switching Protocols\r\n\
Connection: Upgrade\r\n\
Sec-WebSocket-Accept: s3pPLMBiTxaQ9kYGzzhZRbK+xOo=\r\n\
Upgrade: websocket\r\n\r\n";

fn request_with_key(key: &str) -> String {
    format!(
        "GET / HTTP/1.1\r\nConnection: keep-alive, Upgrade\r\nUpgrade: WebSocket\r\nSec-WebSocket-Key: {}\r\n\r\n",
        key
    )
}

fn header_of(p: &HttpParser, name: &str) -> Option<Vec<u8>> {
    p.header(name.as_bytes()).cloned()
}

fn flush_in_one(client: &mut WebSocketClient<u32>) -> Vec<u8> {
    client.write().unwrap();
    let out = client.pending().to_vec();
    client.advance(out.len());
    out
}

#[test]
fn accept_token_matches_rfc_vector() {
    let key = String::from("dGhlIHNhbXBsZSBub25jZQ==");
    assert_eq!(gen_key(&key), "s3pPLMBiTxaQ9kYGzzhZRbK+xOo=");
    assert_eq!(gen_key(&key), gen_key(&key));
    assert_eq!(derive_accept_token(key.as_bytes()), "s3pPLMBiTxaQ9kYGzzhZRbK+xOo=");
}

#[test]
fn accept_token_second_vector() {
    assert_eq!(
        derive_accept_token(b"x3JJHMbDL1EzLkh9GBhXDw=="),
        "HSmrc0sMlYUkAGmm5OPpG2HaGWk="
    );
    assert_ne!(derive_accept_token(b""), derive_accept_token(b"a"));
    assert_eq!(derive_accept_token(b"").len(), 28);
}

#[test]
fn parser_extracts_headers() {
    let mut p = HttpParser::new();
    p.parse(REQUEST.as_bytes());
    assert_eq!(p.phase(), Phase::Complete);
    assert_eq!(header_of(&p, "host"), Some(b"server.example.com".to_vec()));
    assert_eq!(header_of(&p, "sec-websocket-key"), Some(b"dGhlIHNhbXBsZSBub25jZQ==".to_vec()));
    assert_eq!(header_of(&p, "sec-websocket-version"), Some(b"13".to_vec()));
    assert_eq!(header_of(&p, "Host"), None);
    assert!(p.is_upgrade());
}

#[test]
fn parser_trims_values_and_keeps_last() {
    let mut p = HttpParser::new();
    p.parse(b"GET / HTTP/1.1\r\nX-A:  one \t\r\nx-a: two\r\n\r\n");
    assert_eq!(header_of(&p, "x-a"), Some(b"two".to_vec()));
    assert!(!p.is_upgrade());
}

#[test]
fn parser_chunk_boundaries_do_not_matter() {
    let bytes = REQUEST.as_bytes();
    let mut whole = HttpParser::new();
    whole.parse(bytes);
    let names = ["host", "upgrade", "connection", "sec-websocket-key", "sec-websocket-version"];
    for size in 1..=bytes.len() {
        let mut p = HttpParser::new();
        for chunk in bytes.chunks(size) {
            p.parse(chunk);
        }
        assert_eq!(p.phase(), whole.phase());
        assert_eq!(p.is_upgrade(), whole.is_upgrade());
        for n in names.iter() {
            assert_eq!(header_of(&p, n), header_of(&whole, n));
        }
    }
}

#[test]
fn parser_rejects_value_without_name() {
    let mut p = HttpParser::new();
    p.parse(b"GET / HTTP/1.1\r\n: orphan\r\n\r\n");
    assert_eq!(p.phase(), Phase::Failed);
    let mut q = HttpParser::new();
    q.parse(b"GET / HTTP/1.1\r\nno colon here\r\n\r\n");
    assert_eq!(q.phase(), Phase::Failed);
}

#[test]
fn parser_stops_after_header_block() {
    let mut p = HttpParser::new();
    p.parse(b"GET / HTTP/1.1\r\nA: 1\r\n\r\nB: 2\r\n\r\n");
    assert_eq!(p.phase(), Phase::Complete);
    assert_eq!(header_of(&p, "b"), None);
    p.parse(b"C: 3\r\n");
    assert_eq!(header_of(&p, "c"), None);
}

#[test]
fn upgrade_needs_both_headers() {
    let mut p = HttpParser::new();
    p.parse(b"GET / HTTP/1.1\r\nConnection: Upgrade\r\n\r\n");
    assert!(!p.is_upgrade());
    let mut q = HttpParser::new();
    q.parse(b"GET / HTTP/1.1\r\nUpgrade: websocket\r\nConnection: close\r\n\r\n");
    assert!(!q.is_upgrade());
    let mut r = HttpParser::new();
    r.parse(b"GET / HTTP/1.1\r\nUpgrade: websocket\r\nConnection: keep-alive ,UPGRADE\r\n\r\n");
    assert!(r.is_upgrade());
}

#[test]
fn client_full_handshake() {
    let mut c = WebSocketClient::new(7u32);
    assert_eq!(c.state(), ClientState::AwaitingHandshake);
    assert_eq!(c.interest(), Interest::Readable);
    assert_eq!(c.read(REQUEST.as_bytes()), Ok(true));
    assert_eq!(c.state(), ClientState::HandshakeResponse);
    assert_eq!(c.interest(), Interest::Writable);
    let out = flush_in_one(&mut c);
    assert_eq!(out, RESPONSE.as_bytes());
    assert_eq!(c.state(), ClientState::Connected);
    assert_eq!(c.interest(), Interest::Readable);
    assert_eq!(c.socket, 7);
}

#[test]
fn client_reads_request_in_pieces() {
    let mut c = WebSocketClient::new(0u32);
    let bytes = REQUEST.as_bytes();
    let (a, b) = bytes.split_at(30);
    assert_eq!(c.read(a), Ok(false));
    assert_eq!(c.state(), ClientState::AwaitingHandshake);
    assert_eq!(c.read(b), Ok(true));
    assert_eq!(flush_in_one(&mut c), RESPONSE.as_bytes());
}

#[test]
fn client_without_upgrade_stays_awaiting() {
    let mut c = WebSocketClient::new(0u32);
    assert_eq!(c.read(b"GET / HTTP/1.1\r\nHost: a\r\n\r\n"), Ok(false));
    assert_eq!(c.read(b"more bytes\r\n"), Ok(false));
    assert_eq!(c.state(), ClientState::AwaitingHandshake);
    assert_eq!(c.interest(), Interest::Readable);
    assert_eq!(c.write(), Ok(()));
    assert_eq!(c.state(), ClientState::AwaitingHandshake);
}

#[test]
fn client_malformed_request() {
    let mut c = WebSocketClient::new(0u32);
    assert_eq!(
        c.read(b"GET / HTTP/1.1\r\n: value\r\n\r\n"),
        Err(HandshakeError::MalformedRequest)
    );
}

#[test]
fn missing_key_fails_and_only_that_client_is_removed() {
    let mut server: WebSocketServer<(), u32> = WebSocketServer::new(());
    let good = server.accept(1).unwrap();
    let bad = server.accept(2).unwrap();
    let mut c = server.take(bad).unwrap();
    assert_eq!(
        c.read(b"GET / HTTP/1.1\r\nUpgrade: websocket\r\nConnection: Upgrade\r\n\r\n"),
        Ok(true)
    );
    assert_eq!(c.write(), Err(HandshakeError::MissingKey));
    drop(c);
    assert_eq!(server.len(), 1);
    assert_eq!(server.route(bad, true, false), Dispatch::Unknown);
    let mut g = server.take(good).unwrap();
    assert_eq!(g.socket, 1);
    assert_eq!(g.read(REQUEST.as_bytes()), Ok(true));
    assert_eq!(flush_in_one(&mut g), RESPONSE.as_bytes());
}

#[test]
fn two_handshakes_are_independent() {
    let mut server: WebSocketServer<(), u32> = WebSocketServer::new(());
    let a = server.accept(10).unwrap();
    let b = server.accept(20).unwrap();
    assert_ne!(a, b);
    let mut ca = server.take(a).unwrap();
    let mut cb = server.take(b).unwrap();
    let ra = request_with_key("dGhlIHNhbXBsZSBub25jZQ==");
    let rb = request_with_key("x3JJHMbDL1EzLkh9GBhXDw==");
    let (ra1, ra2) = ra.as_bytes().split_at(20);
    assert_eq!(ca.read(ra1), Ok(false));
    assert_eq!(cb.read(rb.as_bytes()), Ok(true));
    assert_eq!(ca.state(), ClientState::AwaitingHandshake);
    assert_eq!(ca.read(ra2), Ok(true));
    let oa = flush_in_one(&mut ca);
    let ob = flush_in_one(&mut cb);
    assert_eq!(oa, RESPONSE.as_bytes());
    let expected_b = "HTTP/1.1 101 Switching Protocols\r\nConnection: Upgrade\r\nSec-WebSocket-Accept: HSmrc0sMlYUkAGmm5OPpG2HaGWk=\r\nUpgrade: websocket\r\n\r\n";
    assert_eq!(ob, expected_b.as_bytes());
    server.restore(a, ca);
    server.restore(b, cb);
    assert_eq!(server.len(), 2);
}

#[test]
fn short_write_completes_on_next_event() {
    let mut c = WebSocketClient::new(0u32);
    assert_eq!(c.read(REQUEST.as_bytes()), Ok(true));
    c.write().unwrap();
    let mut sent: Vec<u8> = Vec::new();
    let first = c.pending().to_vec();
    sent.extend_from_slice(&first[..10]);
    c.advance(10);
    assert_eq!(c.state(), ClientState::HandshakeResponse);
    assert_eq!(c.interest(), Interest::Writable);
    assert_eq!(c.write(), Ok(()));
    let rest = c.pending().to_vec();
    assert_eq!(rest.len(), RESPONSE.len() - 10);
    sent.extend_from_slice(&rest);
    c.advance(rest.len());
    assert_eq!(sent, RESPONSE.as_bytes());
    assert_eq!(c.state(), ClientState::Connected);
}

#[test]
fn registry_ids_are_fresh() {
    let mut r: Registry<u8> = Registry::new();
    let a = r.allocate().unwrap();
    assert_eq!(a, 2);
    r.insert(a, 1);
    let b = r.allocate().unwrap();
    assert_eq!(b, 3);
    r.insert(b, 2);
    assert_eq!(r.remove(a), Some(1));
    assert_eq!(r.remove(a), None);
    let c = r.allocate().unwrap();
    assert_ne!(c, a);
    assert_ne!(c, b);
    assert_ne!(c, SERVER_TOKEN);
    assert_eq!(r.get(b), Some(&2));
    assert!(r.contains_id(b));
    assert!(!r.contains_id(a));
}

#[test]
fn route_decides_per_event() {
    let mut server: WebSocketServer<(), u32> = WebSocketServer::new(());
    assert_eq!(server.route(SERVER_TOKEN, true, false), Dispatch::AcceptAll);
    assert_eq!(server.route(SERVER_TOKEN, false, true), Dispatch::Ignore);
    assert_eq!(server.route(5, true, false), Dispatch::Unknown);
    let id = server.accept(3).unwrap();
    assert_eq!(server.route(id, true, true), Dispatch::Client { read: true, write: true });
    assert_eq!(server.route(id, false, true), Dispatch::Client { read: false, write: true });
    assert_eq!(server.route(id, false, false), Dispatch::Ignore);
}

#[test]
fn plain_acceptor_keeps_transports() {
    let mut s: websocket_server::web_socket_server::WebSocketServer<(), u8> =
        websocket_server::web_socket_server::WebSocketServer::new(());
    assert!(s.accepts_on(SERVER_TOKEN, true));
    assert!(!s.accepts_on(3, true));
    assert_eq!(s.accept(9), Some(2));
    assert_eq!(s.accept(8), Some(3));
    assert_eq!(s.len(), 2);
}
