//! Tests of the HTTP/1.1 server.

use milli_http::error::Error;
use milli_http::http1::connection::Http1Event;
use milli_http::http1::server::Http1Server;

#[test]
fn server_creation() {
    let _server = Http1Server::<4096, 2048, 4096>::new();
}

#[test]
fn server_max_headers_succeeds() {
    let mut server = Http1Server::<8192, 1024, 1024>::new();
    server
        .feed_data(b"GET / HTTP/1.1\r\nHost: example.com\r\n\r\n")
        .unwrap();
    while server.poll_event().is_some() {}
    server.recv_headers(1, &mut Vec::new()).unwrap();
    // 1 pseudo + 19 user = 20, at the limit
    let hdrs: [(&[u8], &[u8]); 19] = [
        (b"h1", b"v"),
        (b"h2", b"v"),
        (b"h3", b"v"),
        (b"h4", b"v"),
        (b"h5", b"v"),
        (b"h6", b"v"),
        (b"h7", b"v"),
        (b"h8", b"v"),
        (b"h9", b"v"),
        (b"h10", b"v"),
        (b"h11", b"v"),
        (b"h12", b"v"),
        (b"h13", b"v"),
        (b"h14", b"v"),
        (b"h15", b"v"),
        (b"h16", b"v"),
        (b"h17", b"v"),
        (b"h18", b"v"),
        (b"h19", b"v"),
    ];
    let result = server.send_response(1, 200, &hdrs, true);
    assert!(result.is_ok());
}

#[test]
fn server_too_many_headers() {
    let mut server = Http1Server::<8192, 1024, 1024>::new();
    server
        .feed_data(b"GET / HTTP/1.1\r\nHost: example.com\r\n\r\n")
        .unwrap();
    while server.poll_event().is_some() {}
    server.recv_headers(1, &mut Vec::new()).unwrap();
    // 1 pseudo + 20 user = 21, over the limit
    let hdrs: [(&[u8], &[u8]); 20] = [
        (b"h1", b"v"),
        (b"h2", b"v"),
        (b"h3", b"v"),
        (b"h4", b"v"),
        (b"h5", b"v"),
        (b"h6", b"v"),
        (b"h7", b"v"),
        (b"h8", b"v"),
        (b"h9", b"v"),
        (b"h10", b"v"),
        (b"h11", b"v"),
        (b"h12", b"v"),
        (b"h13", b"v"),
        (b"h14", b"v"),
        (b"h15", b"v"),
        (b"h16", b"v"),
        (b"h17", b"v"),
        (b"h18", b"v"),
        (b"h19", b"v"),
        (b"h20", b"v"),
    ];
    let result = server.send_response(1, 200, &hdrs, true);
    assert_eq!(result, Err(Error::TooManyHeaders));
}

#[test]
fn server_handles_request() {
    let mut server = Http1Server::<4096, 1024, 1024>::new();
    server
        .feed_data(b"GET / HTTP/1.1\r\nHost: example.com\r\n\r\n")
        .unwrap();

    assert!(matches!(server.poll_event(), Some(Http1Event::Connected)));
    let event = server.poll_event().unwrap();
    assert!(matches!(event, Http1Event::Headers(1)));
}

#[test]
fn server_sends_response() {
    let mut server = Http1Server::<4096, 1024, 1024>::new();
    server
        .feed_data(b"GET / HTTP/1.1\r\nHost: example.com\r\n\r\n")
        .unwrap();

    // Drain events
    while server.poll_event().is_some() {}
    server.recv_headers(1, &mut Vec::new()).unwrap();

    server
        .send_response(1, 200, &[(b"content-length", b"5")], false)
        .unwrap();
    server.send_body(1, b"hello", true).unwrap();

    let mut buf = [0u8; 4096];
    let data = server.poll_output(&mut buf).unwrap();
    let s = core::str::from_utf8(data).unwrap();
    assert!(s.starts_with("HTTP/1.1 200 OK\r\n"));
    assert!(s.contains("content-length: 5\r\n"));
    assert!(s.ends_with("\r\n\r\nhello"));
}
