//! Tests of HTTP/2 over TLS.

use milli_http::error::Error;
use milli_http::h2::connection::H2Event;
use milli_http::h2_tls::{H2TlsClient, H2TlsServer};
use milli_http::tls::{PlainSession, ServerTlsConfig, TlsConfig, TlsSession};

type TestClient = H2TlsClient<PlainSession, 32768, 8, 2048, 4096>;

type TestServer = H2TlsServer<PlainSession, 32768, 8, 2048, 4096>;

type BigClient = H2TlsClient<PlainSession, 65536, 8, 2048, 4096>;

type HwServer = H2TlsServer<PlainSession, 18432, 8, 2048, 16384>;

fn client_config() -> TlsConfig {
    TlsConfig {
        server_name: b"test.local".to_vec(),
        alpn_protocols: vec![b"h2".to_vec()],
        pinned_certs: Vec::new(),
    }
}

fn server_config() -> ServerTlsConfig {
    ServerTlsConfig {
        cert_der: Vec::new(),
        private_key_der: Vec::new(),
        alpn_protocols: vec![b"h2".to_vec()],
    }
}

fn make_client() -> TestClient {
    H2TlsClient::new(&client_config(), [0xAA; 32], [0xBB; 32])
}

fn make_server() -> TestServer {
    H2TlsServer::new(&server_config(), [0xCC; 32], [0xDD; 32])
}

fn exchange(client: &mut TestClient, server: &mut TestServer) {
    for _ in 0..20 {
        let mut buf = [0u8; 32768];
        let mut progress = false;

        while let Some(data) = client.poll_output(&mut buf) {
            let copy = data.to_vec();
            server.feed_data(&copy).unwrap();
            progress = true;
        }

        let mut buf2 = [0u8; 32768];
        while let Some(data) = server.poll_output(&mut buf2) {
            let copy = data.to_vec();
            client.feed_data(&copy).unwrap();
            progress = true;
        }

        if !progress {
            break;
        }
    }
}

#[test]
fn h2_tls_hw_sized_upload_burst() {
    let mut client = BigClient::new(&client_config(), [0xAA; 32], [0xBB; 32]);
    let mut server = HwServer::new(&server_config(), [0xCC; 32], [0xDD; 32]);

    for _ in 0..40 {
        let mut buf = [0u8; 65536];
        let mut progress = false;
        while let Some(data) = client.poll_output(&mut buf) {
            let copy = data.to_vec();
            server.feed_data(&copy).unwrap();
            progress = true;
        }
        let mut buf2 = [0u8; 65536];
        while let Some(data) = server.poll_output(&mut buf2) {
            let copy = data.to_vec();
            if !client.link.tls.is_active() {
                client.feed_data(&copy).unwrap();
            }
            // else: drop — still "in flight" from the client's perspective
            progress = true;
        }
        if !progress {
            break;
        }
    }
    assert!(client.link.tls.is_active(), "client TLS should be active");
    assert!(server.link.tls.is_active(), "server TLS should be active");

    // Client sends HEADERS then bursts DATA under the assumed RFC default
    // windows (65535 stream / 65535 conn), since it never processed the
    // server's SETTINGS (initial_window = DATABUF = 16384).
    let stream_id = client
        .send_request("POST", "/system/update", "test.local", &[], false)
        .unwrap();

    let payload = [0xA5u8; 16384];
    let mut sent_total = 0usize;
    let mut backlog: Vec<u8> = Vec::new();
    let mut out = [0u8; 4096];
    // Interleave send_body and poll_output until the client's view of the
    // windows is exhausted.
    loop {
        match client.send_body(stream_id, &payload, false) {
            Ok(n) if n > 0 => {
                sent_total += n;
            }
            _ => {
                // Drain staged output; if still can't send, windows are dry.
                let mut drained = false;
                while let Some(data) = client.poll_output(&mut out) {
                    backlog.extend_from_slice(data);
                    drained = true;
                }
                if !drained {
                    break;
                }
                match client.send_body(stream_id, &payload, false) {
                    Ok(n) if n > 0 => sent_total += n,
                    _ => break,
                }
            }
        }
    }
    while let Some(data) = client.poll_output(&mut out) {
        backlog.extend_from_slice(data);
    }
    println!(
        "client burst: {} h2 body bytes, {} TLS wire bytes",
        sent_total,
        backlog.len()
    );
    assert!(sent_total > 16384, "burst should exceed the server window");

    // Fed as a runner does: a few small reads per cycle, and one event.
    let mut consumed = 0usize;
    let mut offset = 0usize;
    let mut sink = [0u8; 4096];
    let mut cycle = 0usize;
    let mut feed_err: Option<Error> = None;
    'outer: while offset < backlog.len() || consumed < sent_total {
        cycle += 1;
        if cycle > 10_000 {
            println!("stalled: consumed {} of {}", consumed, sent_total);
            break;
        }
        for _ in 0..4 {
            if offset >= backlog.len() {
                break;
            }
            let end = (offset + 1500).min(backlog.len());
            if let Err(e) = server.feed_data(&backlog[offset..end]) {
                println!(
                    "server.feed_data FAILED at wire offset {} (consumed {} body bytes): {:?}",
                    offset, consumed, e
                );
                feed_err = Some(e);
                break 'outer;
            }
            offset = end;
        }
        // The client never processes what the server puts out.
        let mut obuf = [0u8; 4096];
        while server.poll_output(&mut obuf).is_some() {}
        if let Some(ev) = server.poll_event() {
            if let H2Event::Data(sid) = ev {
                loop {
                    match server.recv_body(sid, &mut sink) {
                        Ok((0, _)) => break,
                        Ok((n, _)) => consumed += n,
                        Err(_) => break,
                    }
                }
            }
        }
    }
    println!(
        "result: consumed {} of {} body bytes; feed_err = {:?}",
        consumed, sent_total, feed_err
    );
    assert!(
        feed_err.is_none() && consumed == sent_total,
        "server must absorb a legal pre-SETTINGS-ack burst: consumed {} of {}, err {:?}",
        consumed,
        sent_total,
        feed_err
    );
}

#[test]
fn h2_tls_creation() {
    let _client = make_client();
    let _server = make_server();
}

#[test]
fn h2_tls_handshake() {
    let mut client = make_client();
    let mut server = make_server();
    exchange(&mut client, &mut server);
    assert!(client.is_established());
    assert!(server.is_established());
}

#[test]
fn h2_tls_e2e() {
    let mut client = make_client();
    let mut server = make_server();

    // Complete TLS handshake + H2 SETTINGS exchange
    exchange(&mut client, &mut server);
    assert!(client.is_established());
    assert!(server.is_established());

    // Client sends request
    let stream_id = client
        .send_request("GET", "/hello", "test.local", &[], true)
        .unwrap();

    // Transfer
    exchange(&mut client, &mut server);

    // Server sees request headers
    let mut got_headers = false;
    let mut request_sid = 0u64;
    while let Some(ev) = server.poll_event() {
        if let H2Event::Headers(sid) = ev {
            got_headers = true;
            request_sid = sid;
        }
    }
    assert!(got_headers);

    // Server sends response
    server
        .send_response(request_sid, 200, &[(b"content-type", b"text/plain")], false)
        .unwrap();
    server
        .send_body(request_sid, b"Hello from H2-TLS!", true)
        .unwrap();

    // Transfer
    exchange(&mut client, &mut server);

    // Client reads response
    let mut got_resp = false;
    let mut got_data = false;
    while let Some(ev) = client.poll_event() {
        match ev {
            H2Event::Headers(sid) if sid == stream_id => got_resp = true,
            H2Event::Data(sid) if sid == stream_id => got_data = true,
            _ => {}
        }
    }
    assert!(got_resp);
    assert!(got_data);

    let mut body = [0u8; 256];
    let (n, _fin) = client.recv_body(stream_id, &mut body).unwrap();
    assert_eq!(&body[..n], b"Hello from H2-TLS!");
}
