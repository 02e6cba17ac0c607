//! Tests of HTTP/1.1 over TLS.

use milli_http::bytes::HeaderField;
use milli_http::error::Error;
use milli_http::http1::connection::Http1Event;
use milli_http::https1::{Https1Client, Https1Server};
use milli_http::tls::{PlainSession, ServerTlsConfig, TlsConfig};

type TestClient = Https1Client<PlainSession, 32768, 1024, 2048>;

type TestServer = Https1Server<PlainSession, 32768, 1024, 2048>;

/// The value of a field.
fn value_of<'a>(fields: &'a [HeaderField], name: &[u8]) -> &'a [u8] {
    for f in fields {
        if f.name == name {
            return &f.value;
        }
    }
    panic!("no such field");
}

fn client_config() -> TlsConfig {
    TlsConfig {
        server_name: b"test.local".to_vec(),
        alpn_protocols: vec![b"http/1.1".to_vec()],
        pinned_certs: Vec::new(),
    }
}

fn server_config() -> ServerTlsConfig {
    ServerTlsConfig {
        cert_der: Vec::new(),
        private_key_der: Vec::new(),
        alpn_protocols: vec![b"http/1.1".to_vec()],
    }
}

fn make_client() -> TestClient {
    Https1Client::new(&client_config(), [0xAA; 32], [0xBB; 32])
}

fn make_server() -> TestServer {
    Https1Server::new(&server_config(), [0xCC; 32], [0xDD; 32])
}

/// Exchange TLS data between client and server until no more output.
fn exchange(client: &mut TestClient, server: &mut TestServer) {
    for _ in 0..20 {
        let mut buf = [0u8; 32768];
        let mut progress = false;

        while let Some(data) = client.poll_output(&mut buf) {
            let copy = data.to_vec();
            server.feed_data(&copy).unwrap();
            progress = true;
        }

        let mut buf2 = [0u8; 32768];
        while let Some(data) = server.poll_output(&mut buf2) {
            let copy = data.to_vec();
            client.feed_data(&copy).unwrap();
            progress = true;
        }

        if !progress {
            break;
        }
    }
}

#[test]
fn https1_creation() {
    let _client = make_client();
    let _server = make_server();
}

#[test]
fn https1_handshake() {
    let mut client = make_client();
    let mut server = make_server();
    exchange(&mut client, &mut server);
    assert!(client.is_established());
    assert!(server.is_established());
}

#[test]
fn https1_request_before_handshake_fails() {
    let mut client = make_client();
    let result = client.send_request("GET", "/", "localhost", &[], true);
    assert_eq!(result, Err(Error::InvalidState));
}

#[test]
fn https1_e2e() {
    let mut client = make_client();
    let mut server = make_server();

    // Complete TLS handshake
    exchange(&mut client, &mut server);
    assert!(client.is_established());
    assert!(server.is_established());

    // Client sends GET request
    let stream_id = client
        .send_request("GET", "/hello", "test.local", &[], true)
        .unwrap();

    // Transfer client → server
    exchange(&mut client, &mut server);

    // Server should see the request
    let mut got_headers = false;
    let mut request_sid = 0u64;
    while let Some(ev) = server.poll_event() {
        match ev {
            Http1Event::Headers(sid) => {
                got_headers = true;
                request_sid = sid;
            }
            _ => {}
        }
    }
    assert!(got_headers);

    // Server reads request headers
    let mut fields = Vec::new();
    server.recv_headers(request_sid, &mut fields).unwrap();
    assert_eq!(value_of(&fields, b":method"), b"GET");

    // Server sends response
    server
        .send_response(request_sid, 200, &[(b"content-length", b"13")], false)
        .unwrap();
    server
        .send_body(request_sid, b"Hello, HTTPS!", true)
        .unwrap();

    // Transfer server → client
    exchange(&mut client, &mut server);

    // Client reads response
    let mut got_resp_headers = false;
    let mut got_data = false;
    let mut got_finished = false;
    while let Some(ev) = client.poll_event() {
        match ev {
            Http1Event::Headers(sid) if sid == stream_id => got_resp_headers = true,
            Http1Event::Data(sid) if sid == stream_id => got_data = true,
            Http1Event::Finished(sid) if sid == stream_id => got_finished = true,
            _ => {}
        }
    }
    assert!(got_resp_headers);
    assert!(got_data);
    assert!(got_finished);

    // Read status
    let mut fields = Vec::new();
    client.recv_headers(stream_id, &mut fields).unwrap();
    assert_eq!(value_of(&fields, b":status"), b"200");

    // Read body
    let mut body = [0u8; 64];
    let (n, fin) = client.recv_body(stream_id, &mut body).unwrap();
    assert_eq!(&body[..n], b"Hello, HTTPS!");
    assert!(fin);
}

#[test]
fn no_event_comes_before_the_handshake() {
    let mut client = make_client();
    let mut buf = [0u8; 64];
    assert!(client.poll_output(&mut buf).is_some());
    assert!(client.feed_data(&[]).is_ok());
    assert!(client.feed_data(b"HTTP/1.1 200 OK\r\n\r\n").is_err());
    assert!(!client.is_established());
    assert_eq!(client.poll_event(), None);
}

#[test]
fn feeds_with_and_without_the_time_agree() {
    let mut a = make_server();
    let mut b = make_server();
    let mut bytes = vec![0x16];
    bytes.extend_from_slice(b"GET / HTTP/1.1\r\nHost: h\r\n\r\n");
    assert_eq!(a.feed_data(&bytes), b.feed_data_timed(&bytes, 77));
    loop {
        let (x, y) = (a.poll_event(), b.poll_event());
        assert_eq!(x, y);
        if x.is_none() {
            break;
        }
    }
    let (mut f, mut g) = (Vec::new(), Vec::new());
    assert_eq!(a.recv_headers(1, &mut f), b.recv_headers(1, &mut g));
    assert_eq!(f.len(), g.len());
    let (mut x, mut y) = ([0u8; 64], [0u8; 64]);
    assert_eq!(a.poll_output(&mut x), b.poll_output(&mut y));
    assert_eq!(a.is_established(), b.is_established());
}
