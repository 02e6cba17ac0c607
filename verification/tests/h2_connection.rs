//! Tests of the HTTP/2 connection.

use milli_http::bytes::HeaderField;
use milli_http::error::{Error, H2Error};
use milli_http::h2::connection::{H2Connection, H2Event, CONNECTION_PREFACE};
use milli_http::h2::frame;
use milli_http::h2::frame::{
    H2Frame, FLAG_END_HEADERS, FRAME_CONTINUATION, FRAME_DATA, FRAME_HEADERS, FRAME_SETTINGS,
    FRAME_WINDOW_UPDATE, SETTINGS_INITIAL_WINDOW_SIZE, SETTINGS_MAX_CONCURRENT_STREAMS,
};

use milli_http::http::TimeoutConfig;
use milli_http::io::IoBufs;

const PAYLOAD: usize = 16384;

const DATABUF: usize = 4096;

/// The value of a field.
fn value_of<'a>(fields: &'a [HeaderField], name: &[u8]) -> &'a [u8] {
    for f in fields {
        if f.name == name {
            return &f.value;
        }
    }
    panic!("no such field");
}

fn raw_frame(ty: u8, flags: u8, stream_id: u32, payload: &[u8], out: &mut [u8]) -> usize {
    let n = payload.len();
    out[0] = (n >> 16) as u8;
    out[1] = (n >> 8) as u8;
    out[2] = n as u8;
    out[3] = ty;
    out[4] = flags;
    out[5..9].copy_from_slice(&stream_id.to_be_bytes());
    out[9..9 + n].copy_from_slice(payload);
    9 + n
}

#[test]
fn client_generates_preface() {
    let mut conn = H2Connection::<16, 2048, 4096>::new_client();
    let mut io = IoBufs::<4096>::new();
    let mut buf = [0u8; 4096];
    let output = conn.poll_output(&mut io, &mut buf);
    assert!(output.is_some());
    let data = output.unwrap();
    assert!(data.starts_with(&CONNECTION_PREFACE));
    let after_preface = &data[CONNECTION_PREFACE.len()..];
    assert!(after_preface.len() >= 9);
    assert_eq!(after_preface[3], FRAME_SETTINGS);
}

#[test]
fn server_generates_settings_only() {
    let mut conn = H2Connection::<16, 2048, 4096>::new_server();
    let mut io = IoBufs::<4096>::new();
    let mut buf = [0u8; 4096];
    let output = conn.poll_output(&mut io, &mut buf);
    assert!(output.is_some());
    let data = output.unwrap();
    assert_eq!(data[3], FRAME_SETTINGS);
}

#[test]
fn client_server_handshake() {
    let mut client = H2Connection::<16, 2048, 4096>::new_client();
    let mut cio = IoBufs::<8192>::new();
    let mut server = H2Connection::<16, 2048, 4096>::new_server();
    let mut sio = IoBufs::<8192>::new();

    // Client → Server
    let mut buf = [0u8; 4096];
    let data = client.poll_output(&mut cio, &mut buf).unwrap();
    let client_data: heapless::Vec<u8, 4096> = {
        let mut v = heapless::Vec::new();
        let _ = v.extend_from_slice(data);
        v
    };
    server.feed_data(&mut sio, &client_data).unwrap();

    // Server → Client
    let mut buf2 = [0u8; 4096];
    let data = server.poll_output(&mut sio, &mut buf2).unwrap();
    let server_data: heapless::Vec<u8, 4096> = {
        let mut v = heapless::Vec::new();
        let _ = v.extend_from_slice(data);
        v
    };
    client.feed_data(&mut cio, &server_data).unwrap();

    // Client should get Connected event
    let mut client_connected = false;
    while let Some(ev) = client.poll_event() {
        if ev == H2Event::Connected {
            client_connected = true;
        }
    }
    assert!(client_connected);

    // Client sends SETTINGS ACK back
    let mut buf3 = [0u8; 4096];
    if let Some(data) = client.poll_output(&mut cio, &mut buf3) {
        let ack_data: heapless::Vec<u8, 4096> = {
            let mut v = heapless::Vec::new();
            let _ = v.extend_from_slice(data);
            v
        };
        server.feed_data(&mut sio, &ack_data).unwrap();
    }

    // Server should get Connected event
    let mut server_connected = false;
    while let Some(ev) = server.poll_event() {
        if ev == H2Event::Connected {
            server_connected = true;
        }
    }
    assert!(server_connected);
}

#[test]
fn full_request_response() {
    let mut client = H2Connection::<16, 2048, 4096>::new_client();
    let mut cio = IoBufs::<16384>::new();
    let mut server = H2Connection::<16, 2048, 4096>::new_server();
    let mut sio = IoBufs::<16384>::new();

    run_handshake(&mut client, &mut cio, &mut server, &mut sio);

    // Client sends request
    let stream_id = client
        .open_stream(
            &mut cio,
            &[
                (b":method", b"GET"),
                (b":path", b"/"),
                (b":scheme", b"https"),
                (b":authority", b"example.com"),
            ],
            true,
        )
        .unwrap();
    assert_eq!(stream_id, 1);

    exchange(&mut client, &mut cio, &mut server, &mut sio);

    // Server should see Headers
    let mut got_headers = false;
    let mut header_stream = 0u64;
    while let Some(ev) = server.poll_event() {
        if let H2Event::Headers(sid) = ev {
            got_headers = true;
            header_stream = sid;
        }
    }
    assert!(got_headers);

    // Server reads headers
    let mut fields = Vec::new();
    server.recv_headers(header_stream, &mut fields).unwrap();
    assert_eq!(value_of(&fields, b":method"), b"GET");

    // Server sends response
    server
        .send_headers(
            &mut sio,
            header_stream,
            &[(b":status", b"200"), (b"content-type", b"text/plain")],
            false,
        )
        .unwrap();
    server
        .send_data(&mut sio, header_stream, b"Hello!", true)
        .unwrap();

    exchange(&mut server, &mut sio, &mut client, &mut cio);

    // Client should see response
    let mut got_resp = false;
    let mut got_data = false;
    while let Some(ev) = client.poll_event() {
        match ev {
            H2Event::Headers(sid) if sid == stream_id => got_resp = true,
            H2Event::Data(sid) if sid == stream_id => got_data = true,
            _ => {}
        }
    }
    assert!(got_resp);
    assert!(got_data);

    // Client reads response body
    let mut body = [0u8; 256];
    let (n, fin) = client
        .recv_body(&mut cio, stream_id, &mut body)
        .unwrap();
    assert_eq!(&body[..n], b"Hello!");
    assert!(fin);
}

#[test]
fn ping_pong() {
    let mut client = H2Connection::<16, 2048, 4096>::new_client();
    let mut cio = IoBufs::<8192>::new();
    let mut server = H2Connection::<16, 2048, 4096>::new_server();
    let mut sio = IoBufs::<8192>::new();
    run_handshake(&mut client, &mut cio, &mut server, &mut sio);

    // Client sends PING by injecting raw frame into send_buf
    let ping_data = [1, 2, 3, 4, 5, 6, 7, 8];
    let frame = H2Frame::Ping {
        data: ping_data,
        ack: false,
    };
    let mut buf = [0u8; 32];
    let n = frame::encode_frame(&frame, &mut buf).unwrap();
    cio.queue_send(&buf[..n]).unwrap();

    exchange(&mut client, &mut cio, &mut server, &mut sio);

    // Server should have sent PING ACK
    let mut buf2 = [0u8; 4096];
    if let Some(data) = server.poll_output(&mut sio, &mut buf2) {
        let copy: heapless::Vec<u8, 4096> = {
            let mut v = heapless::Vec::new();
            let _ = v.extend_from_slice(data);
            v
        };
        client.feed_data(&mut cio, &copy).unwrap();
    }
}

#[test]
fn goaway() {
    let mut client = H2Connection::<16, 2048, 4096>::new_client();
    let mut cio = IoBufs::<8192>::new();
    let mut server = H2Connection::<16, 2048, 4096>::new_server();
    let mut sio = IoBufs::<8192>::new();
    run_handshake(&mut client, &mut cio, &mut server, &mut sio);

    server.send_goaway(&mut sio, 0).unwrap();
    exchange(&mut server, &mut sio, &mut client, &mut cio);

    let mut got_goaway = false;
    while let Some(ev) = client.poll_event() {
        if let H2Event::GoAway(_, _) = ev {
            got_goaway = true;
        }
    }
    assert!(got_goaway);
}

// Test helpers

fn run_handshake<const M: usize, const BUF: usize, const H: usize, const D: usize>(
    client: &mut H2Connection<M, H, D>,
    cio: &mut IoBufs<BUF>,
    server: &mut H2Connection<M, H, D>,
    sio: &mut IoBufs<BUF>,
) {
    for _ in 0..5 {
        exchange(client, cio, server, sio);
        exchange(server, sio, client, cio);
    }
}

fn exchange<const M: usize, const BUF: usize, const H: usize, const D: usize>(
    sender: &mut H2Connection<M, H, D>,
    sender_io: &mut IoBufs<BUF>,
    receiver: &mut H2Connection<M, H, D>,
    receiver_io: &mut IoBufs<BUF>,
) {
    let mut buf = [0u8; 8192];
    while let Some(data) = sender.poll_output(sender_io, &mut buf) {
        let copy: heapless::Vec<u8, 8192> = {
            let mut v = heapless::Vec::new();
            let _ = v.extend_from_slice(data);
            v
        };
        let _ = receiver.feed_data(receiver_io, &copy);
    }
}

// ====== Stream-capacity tests ======

/// The server's initial SETTINGS must advertise the real `MAX_STREAMS`
/// (RFC 9113 §6.5.2).
#[test]
fn server_advertises_true_stream_capacity() {
    let mut server = H2Connection::<4, 2048, 4096>::new_server();
    let mut io = IoBufs::<4096>::new();
    let mut buf = [0u8; 4096];
    let data = server.poll_output(&mut io, &mut buf).unwrap();
    // First frame is SETTINGS; walk its parameters.
    assert_eq!(data[3], FRAME_SETTINGS);
    let len = u32::from_be_bytes([0, data[0], data[1], data[2]]) as usize;
    let mut advertised = None;
    for (id, value) in frame::decode_settings_params(&data[9..9 + len]).unwrap() {
        if id == SETTINGS_MAX_CONCURRENT_STREAMS {
            advertised = Some(value);
        }
    }
    assert_eq!(advertised, Some(4));
}

#[test]
fn closed_streams_are_reclaimed_for_new_ones_within_capacity() {
    let mut client = H2Connection::<4, 2048, 4096>::new_client();
    let mut cio = IoBufs::<16384>::new();
    let mut server = H2Connection::<4, 2048, 4096>::new_server();
    let mut sio = IoBufs::<16384>::new();
    run_handshake(&mut client, &mut cio, &mut server, &mut sio);
    while client.poll_event().is_some() {}
    while server.poll_event().is_some() {}

    let req: &[(&[u8], &[u8])] = &[
        (b":method", b"GET"),
        (b":path", b"/"),
        (b":scheme", b"https"),
        (b":authority", b"example.com"),
    ];

    // Burst 1: fill the stream table, respond to everything (streams
    // close server-side, but nothing arrives afterwards to sweep them).
    let mut burst = heapless::Vec::<u64, 4>::new();
    for _ in 0..4 {
        burst
            .push(client.open_stream(&mut cio, req, true).unwrap())
            .unwrap();
    }
    exchange(&mut client, &mut cio, &mut server, &mut sio);
    while let Some(ev) = server.poll_event() {
        if let H2Event::Headers(sid) = ev {
            server.recv_headers(sid, &mut Vec::new()).unwrap();
            server
                .send_headers(&mut sio, sid, &[(b":status", b"200")], true)
                .unwrap();
        }
    }
    exchange(&mut server, &mut sio, &mut client, &mut cio);
    while client.poll_event().is_some() {}

    // Burst 2: one more request. All four table slots hold closed
    // streams; the new one must displace them, and its headers must be
    // readable when the Headers event is consumed.
    let sid = client.open_stream(&mut cio, req, true).unwrap();
    exchange(&mut client, &mut cio, &mut server, &mut sio);
    let mut got = false;
    while let Some(ev) = server.poll_event() {
        if let H2Event::Headers(s) = ev {
            assert_eq!(s, sid);
            let mut fields = Vec::new();
            server
                .recv_headers(s, &mut fields)
                .expect("headers must be readable for an accepted stream");
            assert_eq!(value_of(&fields, b":method"), b"GET");
            got = true;
        }
    }
    assert!(got, "server never saw the post-burst request");
}

#[test]
fn exceeding_advertised_stream_limit_is_a_connection_error() {
    // Client table is larger than the server's so the client *can*
    // violate the server's limit; the generic-bound helpers require equal
    // shapes, so the exchange is hand-rolled.
    let mut client = H2Connection::<8, 2048, 4096>::new_client();
    let mut cio = IoBufs::<16384>::new();
    let mut server = H2Connection::<2, 2048, 4096>::new_server();
    let mut sio = IoBufs::<16384>::new();

    let mut buf = [0u8; 8192];
    for _ in 0..5 {
        while let Some(data) = client.poll_output(&mut cio, &mut buf) {
            let mut v = heapless::Vec::<u8, 8192>::new();
            v.extend_from_slice(data).unwrap();
            server.feed_data(&mut sio, &v).unwrap();
        }
        while let Some(data) = server.poll_output(&mut sio, &mut buf) {
            let mut v = heapless::Vec::<u8, 8192>::new();
            v.extend_from_slice(data).unwrap();
            client.feed_data(&mut cio, &v).unwrap();
        }
    }

    let req: &[(&[u8], &[u8])] = &[
        (b":method", b"GET"),
        (b":path", b"/"),
        (b":scheme", b"https"),
        (b":authority", b"example.com"),
    ];
    // Three concurrent (unanswered) requests against an advertised limit
    // of two.
    for _ in 0..3 {
        client.open_stream(&mut cio, req, true).unwrap();
    }
    let mut result = Ok(());
    while let Some(data) = client.poll_output(&mut cio, &mut buf) {
        let mut v = heapless::Vec::<u8, 8192>::new();
        v.extend_from_slice(data).unwrap();
        result = server.feed_data(&mut sio, &v);
        if result.is_err() {
            break;
        }
    }
    assert!(
        matches!(
            result,
            Err(Error::Http2(H2Error::ProtocolError))
        ),
        "expected connection-level protocol error, got {result:?}"
    );
}

// ====== Timeout + Connection State Tests ======

#[test]
fn idle_timeout_fires() {
    let mut client = H2Connection::<16, 2048, 4096>::new_client();
    let mut cio = IoBufs::<8192>::new();
    let mut server = H2Connection::<16, 2048, 4096>::new_server();
    let mut sio = IoBufs::<8192>::new();

    let config = TimeoutConfig {
        idle_timeout_us: Some(1_000_000),
        header_timeout_us: None,
    };
    server.set_timeouts(config, 0);
    run_handshake(&mut client, &mut cio, &mut server, &mut sio);

    server.handle_timeout(&mut sio, 2_000_000);

    let mut got_timeout = false;
    while let Some(ev) = server.poll_event() {
        if ev == H2Event::Timeout {
            got_timeout = true;
        }
    }
    assert!(got_timeout);
    assert!(server.is_closed());
}

#[test]
fn header_timeout_fires_during_preface() {
    let mut server = H2Connection::<16, 2048, 4096>::new_server();
    let mut sio = IoBufs::<8192>::new();

    let config = TimeoutConfig {
        idle_timeout_us: None,
        header_timeout_us: Some(500_000),
    };
    server.set_timeouts(config, 0);

    server.handle_timeout(&mut sio, 600_000);

    let mut got_timeout = false;
    while let Some(ev) = server.poll_event() {
        if ev == H2Event::Timeout {
            got_timeout = true;
        }
    }
    assert!(got_timeout);
    assert!(server.is_closed());
}

#[test]
fn activity_resets_idle_timer() {
    let mut client = H2Connection::<16, 2048, 4096>::new_client();
    let mut cio = IoBufs::<8192>::new();
    let mut server = H2Connection::<16, 2048, 4096>::new_server();
    let mut sio = IoBufs::<8192>::new();

    let config = TimeoutConfig {
        idle_timeout_us: Some(1_000_000),
        header_timeout_us: None,
    };
    server.set_timeouts(config, 0);
    run_handshake(&mut client, &mut cio, &mut server, &mut sio);

    // Activity at t=800ms
    server
        .feed_data_timed(&mut sio, b"", 800_000)
        .unwrap();

    // Check at t=1.5s — should NOT timeout
    server.handle_timeout(&mut sio, 1_500_000);
    assert!(!server.is_closed());

    // Check at t=2s — SHOULD timeout
    server.handle_timeout(&mut sio, 2_000_000);
    assert!(server.is_closed());
}

#[test]
fn is_closed_and_is_established() {
    let mut client = H2Connection::<16, 2048, 4096>::new_client();
    let mut cio = IoBufs::<8192>::new();
    let mut server = H2Connection::<16, 2048, 4096>::new_server();
    let mut sio = IoBufs::<8192>::new();

    assert!(!server.is_established());
    assert!(!server.is_closed());

    run_handshake(&mut client, &mut cio, &mut server, &mut sio);

    assert!(server.is_established());
    assert!(!server.is_closed());

    server.send_goaway(&mut sio, 0).unwrap();
    assert!(!server.is_established());
    assert!(server.is_closed());
}

#[test]
fn next_timeout_returns_correct_deadline() {
    let mut server = H2Connection::<16, 2048, 4096>::new_server();

    assert_eq!(server.next_timeout(), None);

    let config = TimeoutConfig {
        idle_timeout_us: Some(1_000_000),
        header_timeout_us: Some(500_000),
    };
    server.set_timeouts(config, 100_000);

    assert_eq!(server.next_timeout(), Some(600_000));
}

// ====== Timeout Integration Tests ======

#[test]
fn timeout_idle_after_request_response() {
    let mut client = H2Connection::<16, 2048, 4096>::new_client();
    let mut cio = IoBufs::<32768>::new();
    let mut server = H2Connection::<16, 2048, 4096>::new_server();
    let mut sio = IoBufs::<32768>::new();

    let config = TimeoutConfig {
        idle_timeout_us: Some(1_000_000),
        header_timeout_us: None,
    };
    server.set_timeouts(config, 0);

    run_handshake(&mut client, &mut cio, &mut server, &mut sio);

    let stream_id = client
        .open_stream(
            &mut cio,
            &[
                (b":method", b"GET"),
                (b":path", b"/"),
                (b":scheme", b"https"),
                (b":authority", b"example.com"),
            ],
            true,
        )
        .unwrap();
    exchange(&mut client, &mut cio, &mut server, &mut sio);

    while let Some(_) = server.poll_event() {}

    server
        .send_headers(&mut sio, stream_id, &[(b":status", b"200")], true)
        .unwrap();
    exchange(&mut server, &mut sio, &mut client, &mut cio);

    while let Some(_) = client.poll_event() {}

    server.handle_timeout(&mut sio, 2_000_000);

    let mut got_timeout = false;
    while let Some(ev) = server.poll_event() {
        if ev == H2Event::Timeout {
            got_timeout = true;
        }
    }
    assert!(got_timeout, "server should emit Timeout after idle");
    assert!(server.is_closed());
}

#[test]
fn timeout_client_header_timeout() {
    let mut client = H2Connection::<16, 2048, 4096>::new_client();
    let mut cio = IoBufs::<8192>::new();

    let config = TimeoutConfig {
        idle_timeout_us: None,
        header_timeout_us: Some(500_000),
    };
    client.set_timeouts(config, 0);

    client.handle_timeout(&mut cio, 600_000);

    let mut got_timeout = false;
    while let Some(ev) = client.poll_event() {
        if ev == H2Event::Timeout {
            got_timeout = true;
        }
    }
    assert!(got_timeout, "client should emit Timeout for header timeout");
    assert!(client.is_closed());
}

// ====== Flow Control Tests ======

#[test]
fn send_data_blocked_by_flow_control() {
    let mut client = H2Connection::<16, 2048, 4096>::new_client();
    let mut cio = IoBufs::<32768>::new();
    let mut server = H2Connection::<16, 2048, 4096>::new_server();
    let mut sio = IoBufs::<32768>::new();
    run_handshake(&mut client, &mut cio, &mut server, &mut sio);

    let stream_id = client
        .open_stream(
            &mut cio,
            &[
                (b":method", b"POST"),
                (b":path", b"/"),
                (b":scheme", b"https"),
                (b":authority", b"example.com"),
            ],
            false,
        )
        .unwrap();
    exchange(&mut client, &mut cio, &mut server, &mut sio);
    while let Some(_) = server.poll_event() {}

    // The client's stream send window equals the server's advertised
    // SETTINGS_INITIAL_WINDOW_SIZE, which is DATABUF, not the RFC default of 65535.
    let window: usize = 4096;
    let chunk = [0u8; 16384];
    let mut total_sent = 0usize;
    while total_sent < window {
        let remaining = window - total_sent;
        let to_send = remaining.min(16384);
        let n = client
            .send_data(&mut cio, stream_id, &chunk[..to_send], false)
            .unwrap();
        total_sent += n;
        exchange(&mut client, &mut cio, &mut server, &mut sio);
    }
    assert_eq!(total_sent, window);

    let result = client.send_data(&mut cio, stream_id, &[0u8; 1], false);
    assert_eq!(result, Err(Error::WouldBlock));
}

#[test]
fn send_data_resumes_after_window_update() {
    let mut client = H2Connection::<16, 2048, 4096>::new_client();
    let mut cio = IoBufs::<32768>::new();
    let mut server = H2Connection::<16, 2048, 4096>::new_server();
    let mut sio = IoBufs::<32768>::new();
    run_handshake(&mut client, &mut cio, &mut server, &mut sio);

    let stream_id = client
        .open_stream(
            &mut cio,
            &[
                (b":method", b"POST"),
                (b":path", b"/"),
                (b":scheme", b"https"),
                (b":authority", b"example.com"),
            ],
            false,
        )
        .unwrap();
    exchange(&mut client, &mut cio, &mut server, &mut sio);
    while let Some(_) = server.poll_event() {}

    // Stream send window = server's advertised window = DATABUF, not the RFC default of 65535.
    let window: usize = 4096;
    let chunk = [0u8; 16384];
    let mut total_sent = 0usize;
    while total_sent < window {
        let remaining = window - total_sent;
        let to_send = remaining.min(16384);
        let n = client
            .send_data(&mut cio, stream_id, &chunk[..to_send], false)
            .unwrap();
        total_sent += n;
        exchange(&mut client, &mut cio, &mut server, &mut sio);
    }
    assert_eq!(
        client.send_data(&mut cio, stream_id, &[0u8; 1], false),
        Err(Error::WouldBlock)
    );

    // Inject WINDOW_UPDATE frames
    let wu_stream = H2Frame::WindowUpdate {
        stream_id,
        increment: 1024,
    };
    let wu_conn = H2Frame::WindowUpdate {
        stream_id: 0,
        increment: 1024,
    };
    let mut buf = [0u8; 16];

    let n = frame::encode_frame(&wu_stream, &mut buf).unwrap();
    client.feed_data(&mut cio, &buf[..n]).unwrap();

    let n = frame::encode_frame(&wu_conn, &mut buf).unwrap();
    client.feed_data(&mut cio, &buf[..n]).unwrap();

    let result = client.send_data(&mut cio, stream_id, &[0u8; 1024], true);
    assert_eq!(result, Ok(1024));
}

#[test]
fn large_body_paced_by_flow_control_no_drops() {
    let mut client = H2Connection::<16, 2048, 4096>::new_client();
    let mut cio = IoBufs::<16384>::new();
    let mut server = H2Connection::<16, 2048, 4096>::new_server();
    let mut sio = IoBufs::<16384>::new();
    run_handshake(&mut client, &mut cio, &mut server, &mut sio);

    let stream_id = client
        .open_stream(
            &mut cio,
            &[
                (b":method", b"POST"),
                (b":path", b"/system/update"),
                (b":scheme", b"https"),
                (b":authority", b"example.com"),
            ],
            false,
        )
        .unwrap();
    exchange(&mut client, &mut cio, &mut server, &mut sio);
    while server.poll_event().is_some() {}

    // Position-dependent payload spanning multiple windows so a drop or
    // reorder is caught by the content comparison.
    let total: usize = 4096 * 3 + 1234;
    let payload: Vec<u8> = (0..total).map(|i| (i % 251) as u8).collect();

    let mut sent = 0usize;
    let mut closed = false;
    let mut finished = false;
    let mut received: Vec<u8> = Vec::new();
    let mut drain = [0u8; 1024];

    // Pump: client sends as the window allows; server drains (crediting
    // WINDOW_UPDATE); credits flow back via exchange. The iteration bound
    // guards against a regression where the window never reopens (deadlock).
    for _ in 0..2000 {
        if sent < total {
            match client.send_data(&mut cio, stream_id, &payload[sent..], false) {
                Ok(n) => sent += n,
                Err(Error::WouldBlock) => {}
                Err(e) => panic!("send_data failed: {:?}", e),
            }
        } else if !closed {
            client
                .send_data(&mut cio, stream_id, &[], true)
                .unwrap();
            closed = true;
        }

        exchange(&mut client, &mut cio, &mut server, &mut sio);
        while server.poll_event().is_some() {}

        loop {
            match server.recv_body(&mut sio, stream_id, &mut drain) {
                Ok((0, true)) => {
                    finished = true;
                    break;
                }
                Ok((0, false)) => break,
                Ok((n, fin)) => {
                    received.extend_from_slice(&drain[..n]);
                    if fin {
                        finished = true;
                        break;
                    }
                }
                Err(Error::WouldBlock) => break,
                Err(e) => panic!("recv_body failed: {:?}", e),
            }
        }

        // Deliver WINDOW_UPDATE credits (and anything else) back to client.
        exchange(&mut server, &mut sio, &mut client, &mut cio);

        if finished && closed {
            break;
        }
    }

    assert!(finished, "server never observed end of stream");
    assert_eq!(sent, total, "client did not send the whole body");
    assert_eq!(
        received.len(),
        total,
        "received byte count != sent (data dropped under flow control)"
    );
    assert_eq!(received, payload, "received body content mismatch");
}

#[test]
fn window_update_deferred_when_send_buffer_full_not_dropped() {
    let mut client = H2Connection::<16, 2048, 4096>::new_client();
    let mut cio = IoBufs::<16384>::new();
    let mut server = H2Connection::<16, 2048, 4096>::new_server();
    let mut sio = IoBufs::<16384>::new();
    run_handshake(&mut client, &mut cio, &mut server, &mut sio);

    let stream_id = client
        .open_stream(
            &mut cio,
            &[
                (b":method", b"POST"),
                (b":path", b"/system/update"),
                (b":scheme", b"https"),
                (b":authority", b"example.com"),
            ],
            false,
        )
        .unwrap();
    let chunk = [0xABu8; 1000];
    client
        .send_data(&mut cio, stream_id, &chunk, false)
        .unwrap();
    exchange(&mut client, &mut cio, &mut server, &mut sio);
    while server.poll_event().is_some() {}

    let recv_window_before = server
        .streams
        .iter()
        .find(|s| s.id == stream_id)
        .unwrap()
        .recv_window;

    // Fill the server's send buffer so the WINDOW_UPDATE cannot be queued.
    let filler = [0u8; 16384];
    let used = sio.send_buf.len();
    sio.send_buf
        .extend_from_slice(&filler[..16384 - used])
        .unwrap();

    // Drain the body. The credit wants to go out but the buffer is full.
    let mut buf = [0u8; 2048];
    let (n, _fin) = server
        .recv_body(&mut sio, stream_id, &mut buf)
        .unwrap();
    assert_eq!(n, 1000);

    // Credit deferred, advertised window unchanged, nothing silently dropped.
    let stream = server.streams.iter().find(|s| s.id == stream_id).unwrap();
    assert_eq!(
        stream.recv_window, recv_window_before,
        "recv_window must not advance while the WINDOW_UPDATE is deferred"
    );
    assert!(
        stream.pending_recv_credit >= 1000,
        "stream credit should be pending"
    );
    assert!(
        server.pending_conn_credit >= 1000,
        "conn credit should be pending"
    );

    // Drain the buffer; generate_output should now emit the deferred credit.
    sio.send_buf.clear();
    server.generate_output(&mut sio);

    let stream = server.streams.iter().find(|s| s.id == stream_id).unwrap();
    assert_eq!(
        stream.pending_recv_credit, 0,
        "pending stream credit flushed"
    );
    assert_eq!(server.pending_conn_credit, 0, "pending conn credit flushed");
    assert_eq!(
        stream.recv_window,
        recv_window_before + 1000,
        "window advances only after the WINDOW_UPDATE is actually sent"
    );
    assert!(
        !sio.send_buf.is_empty(),
        "WINDOW_UPDATE emitted after buffer drained"
    );
}

#[test]
fn flushing_returns_the_credit_that_is_owed() {
    let mut client = H2Connection::<16, 2048, 4096>::new_client();
    let mut cio = IoBufs::<16384>::new();
    let mut server = H2Connection::<16, 2048, 4096>::new_server();
    let mut sio = IoBufs::<16384>::new();
    run_handshake(&mut client, &mut cio, &mut server, &mut sio);
    let fields: [(&[u8], &[u8]); 4] = [
        (b":method", b"POST"),
        (b":path", b"/"),
        (b":scheme", b"https"),
        (b":authority", b"example.com"),
    ];
    let id = client.open_stream(&mut cio, &fields, false).unwrap();
    client.send_data(&mut cio, id, &[7; 300], false).unwrap();
    exchange(&mut client, &mut cio, &mut server, &mut sio);

    // With a full send buffer the credit is only noted.
    sio.send_buf.extend_from_slice(&[0; 16384]).unwrap();
    let mut body = [0u8; 512];
    assert_eq!(server.recv_body(&mut sio, id, &mut body), Ok((300, false)));
    let window = server.conn_recv_fc.window();
    server.flush_window_updates(&mut sio);
    assert_eq!(sio.send_buf.len(), 16384);
    assert_eq!(server.pending_conn_credit, 300);
    assert_eq!(server.conn_recv_fc.window(), window);

    // With room, one frame for the connection and one for the stream, behind what
    // waits.
    sio.send_buf.clear();
    sio.send_buf.extend_from_slice(b"first").unwrap();
    let stream_window = server.streams[0].recv_window;
    server.flush_window_updates(&mut sio);
    let mut expected = b"first".to_vec();
    expected.extend_from_slice(&[0, 0, 4, 8, 0, 0, 0, 0, 0, 0, 0, 1, 44]);
    expected.extend_from_slice(&[0, 0, 4, 8, 0, 0, 0, 0, 1, 0, 0, 1, 44]);
    assert_eq!(sio.send_buf.as_slice(), expected.as_slice());
    assert_eq!(server.conn_recv_fc.window(), window + 300);
    assert_eq!(server.streams[0].recv_window, stream_window + 300);
    assert_eq!(server.pending_conn_credit, 0);

    // Nothing is owed: nothing is sent.
    server.flush_window_updates(&mut sio);
    assert_eq!(sio.send_buf.as_slice(), expected.as_slice());
}

#[test]
fn server_accepts_eager_max_size_data_frame() {
    let mut client = H2Connection::<16, 2048, 16384>::new_client();
    let mut cio = IoBufs::<32768>::new();
    let mut server = H2Connection::<16, 2048, 16384>::new_server();
    let mut sio = IoBufs::<32768>::new();
    run_handshake(&mut client, &mut cio, &mut server, &mut sio);

    let sid = client
        .open_stream(
            &mut cio,
            &[
                (b":method", b"POST"),
                (b":path", b"/system/update"),
                (b":scheme", b"https"),
                (b":authority", b"x"),
            ],
            false,
        )
        .unwrap();
    exchange(&mut client, &mut cio, &mut server, &mut sio);
    while server.poll_event().is_some() {}

    // Hand-craft a raw 16384-byte DATA frame on the stream (bypasses the
    // client's own send-window check, modelling the pre-SETTINGS race).
    let mut frame: Vec<u8> = Vec::with_capacity(9 + PAYLOAD);
    frame.push((PAYLOAD >> 16) as u8);
    frame.push((PAYLOAD >> 8) as u8);
    frame.push(PAYLOAD as u8);
    frame.push(0); // type = DATA
    frame.push(0); // flags
    frame.extend_from_slice(&(sid as u32).to_be_bytes());
    frame.extend_from_slice(&[0xAAu8; PAYLOAD]);

    let result = server.feed_data(&mut sio, &frame);
    assert_eq!(
        result,
        Ok(()),
        "server accepts a max-size (16384) DATA frame within its advertised window"
    );

    // The full payload is buffered and drainable via recv_body. The frame
    // carried no END_STREAM, so recv_body yields WouldBlock once drained.
    let mut sink = Vec::new();
    let mut chunk = [0u8; 4096];
    loop {
        match server.recv_body(&mut sio, sid, &mut chunk) {
            Ok((0, _)) => break,
            Ok((n, _)) => sink.extend_from_slice(&chunk[..n]),
            Err(Error::WouldBlock) => break,
            Err(e) => panic!("recv_body failed: {e:?}"),
        }
    }
    assert_eq!(sink.len(), PAYLOAD, "all 16384 body bytes delivered");
    assert!(sink.iter().all(|&b| b == 0xAA), "body bytes intact");
}

#[test]
fn incremental_data_backpressures_small_databuf_and_delivers_all() {
    let mut client = H2Connection::<16, 2048, DATABUF>::new_client();
    let mut cio = IoBufs::<40960>::new();
    let mut server = H2Connection::<16, 2048, DATABUF>::new_server();
    let mut sio = IoBufs::<40960>::new();
    run_handshake(&mut client, &mut cio, &mut server, &mut sio);

    let sid = client
        .open_stream(
            &mut cio,
            &[
                (b":method", b"POST"),
                (b":path", b"/system/update"),
                (b":scheme", b"https"),
                (b":authority", b"x"),
            ],
            false,
        )
        .unwrap();
    exchange(&mut client, &mut cio, &mut server, &mut sio);
    while server.poll_event().is_some() {}

    server.settings_ack_received = false;

    // Hand-craft one max-size (16384) DATA frame and feed it whole, as a
    // 16 KB TLS record would deliver it.
    let mut frame: Vec<u8> = Vec::with_capacity(9 + PAYLOAD);
    frame.push((PAYLOAD >> 16) as u8);
    frame.push((PAYLOAD >> 8) as u8);
    frame.push(PAYLOAD as u8);
    frame.push(0); // DATA
    frame.push(0); // flags
    frame.extend_from_slice(&(sid as u32).to_be_bytes());
    frame.extend_from_slice(&[0x5Au8; PAYLOAD]);
    server.feed_data(&mut sio, &frame).unwrap();

    // Drain + re-drive until the frame is fully consumed. data_buf is
    // bounded by DATABUF the entire time (backpressure), and recv_buf holds
    // the parked remainder.
    let mut total = 0usize;
    let mut chunk = [0u8; 1024];
    for _ in 0..1000 {
        let max_seen = server
            .streams
            .iter()
            .find(|s| s.id == sid)
            .unwrap()
            .data_buf
            .len();
        assert!(
            max_seen <= DATABUF,
            "data_buf {max_seen} exceeded DATABUF {DATABUF} — backpressure failed"
        );
        // Fully drain whatever is buffered.
        loop {
            match server.recv_body(&mut sio, sid, &mut chunk) {
                Ok((0, _)) => break,
                Ok((n, _)) => total += n,
                Err(Error::WouldBlock) => break,
                Err(e) => panic!("recv_body: {e:?}"),
            }
        }
        if !server.has_partial_data() {
            break;
        }
        // Re-drive the pump (models the runner's empty feed after a drain).
        server.feed_data(&mut sio, &[]).unwrap();
    }
    assert_eq!(
        total, PAYLOAD,
        "entire body delivered across backpressured pumps"
    );
    assert!(!server.has_partial_data(), "frame fully consumed");
}

// ====== RST_STREAM Reception ======

#[test]
fn rst_stream_emits_event() {
    let mut client = H2Connection::<16, 2048, 4096>::new_client();
    let mut cio = IoBufs::<8192>::new();
    let mut server = H2Connection::<16, 2048, 4096>::new_server();
    let mut sio = IoBufs::<8192>::new();
    run_handshake(&mut client, &mut cio, &mut server, &mut sio);

    let stream_id = client
        .open_stream(
            &mut cio,
            &[
                (b":method", b"GET"),
                (b":path", b"/"),
                (b":scheme", b"https"),
                (b":authority", b"example.com"),
            ],
            true,
        )
        .unwrap();
    exchange(&mut client, &mut cio, &mut server, &mut sio);
    while let Some(_) = client.poll_event() {}

    let rst = H2Frame::RstStream {
        stream_id,
        error_code: 0x8,
    };
    let mut buf = [0u8; 32];
    let n = frame::encode_frame(&rst, &mut buf).unwrap();
    client.feed_data(&mut cio, &buf[..n]).unwrap();

    let mut got_reset = false;
    while let Some(ev) = client.poll_event() {
        if ev == H2Event::StreamReset(stream_id, 0x8) {
            got_reset = true;
        }
    }
    assert!(
        got_reset,
        "client should emit StreamReset(stream_id, CANCEL)"
    );
}

#[test]
fn continuation_flood_rejected() {
    let mut client = H2Connection::<16, 2048, 4096>::new_client();
    let mut cio = IoBufs::<32768>::new();
    let mut server = H2Connection::<16, 2048, 4096>::new_server(); // HDRBUF = 2048
    let mut sio = IoBufs::<32768>::new();
    run_handshake(&mut client, &mut cio, &mut server, &mut sio);

    let mut buf = [0u8; 2048];

    // HEADERS (no END_HEADERS): 1500 bytes — fits within HDRBUF.
    let n = raw_frame(FRAME_HEADERS, 0, 1, &[0; 1500], &mut buf);
    server.feed_data(&mut sio, &buf[..n]).unwrap();

    // CONTINUATION pushes the accumulated block past HDRBUF (2048).
    let n = raw_frame(FRAME_CONTINUATION, 0, 1, &[0; 1500], &mut buf);
    let res = server.feed_data(&mut sio, &buf[..n]);
    assert!(
        matches!(
            res,
            Err(Error::Http2(H2Error::EnhanceYourCalm))
        ),
        "oversized CONTINUATION accumulation must terminate the connection, got {:?}",
        res
    );
}

#[test]
fn settings_initial_window_overflow_is_flow_control_error() {
    // RFC 9113 §6.9.2: a SETTINGS_INITIAL_WINDOW_SIZE change that pushes a
    // stream's flow-control window above 2^31-1 MUST be a FLOW_CONTROL_ERROR,
    // not a panic (debug) or silent wrap to negative (release).
    let mut client = H2Connection::<16, 2048, 4096>::new_client();
    let mut cio = IoBufs::<32768>::new();
    let mut server = H2Connection::<16, 2048, 4096>::new_server();
    let mut sio = IoBufs::<32768>::new();
    run_handshake(&mut client, &mut cio, &mut server, &mut sio);

    let mut buf = [0u8; 64];

    // Create stream 1 on the server (empty header block, END_HEADERS).
    let n = raw_frame(FRAME_HEADERS, FLAG_END_HEADERS, 1, &[], &mut buf);
    server.feed_data(&mut sio, &buf[..n]).unwrap();

    // Push stream 1's send_window to exactly i32::MAX via WINDOW_UPDATE
    // (default initial window is 65535).
    let inc: u32 = 0x7fff_ffff - 65535;
    let n = raw_frame(FRAME_WINDOW_UPDATE, 0, 1, &inc.to_be_bytes(), &mut buf);
    server.feed_data(&mut sio, &buf[..n]).unwrap();

    // SETTINGS raising INITIAL_WINDOW_SIZE by +1 would overflow send_window.
    let mut setting = [0u8; 6];
    setting[0..2].copy_from_slice(&SETTINGS_INITIAL_WINDOW_SIZE.to_be_bytes());
    setting[2..6].copy_from_slice(&65536u32.to_be_bytes());
    let n = raw_frame(FRAME_SETTINGS, 0, 0, &setting, &mut buf);
    let res = server.feed_data(&mut sio, &buf[..n]);

    assert_eq!(
        res,
        Err(Error::Http2(H2Error::FlowControlError)),
        "SETTINGS-induced stream window overflow must be FLOW_CONTROL_ERROR"
    );
}

#[test]
fn stream_recv_flow_control_enforced() {
    // RFC 9113 §6.9.1: exceeding the stream-level receive window is a
    // FLOW_CONTROL_ERROR. Raise the connection window first so the stream
    // limit is the one that binds.
    let mut client = H2Connection::<16, 2048, 4096>::new_client();
    let mut cio = IoBufs::<65536>::new();
    let mut server = H2Connection::<16, 2048, 4096>::new_server();
    let mut sio = IoBufs::<65536>::new();
    run_handshake(&mut client, &mut cio, &mut server, &mut sio);

    let mut buf = [0u8; 20_000];

    // Open stream 1.
    let n = raw_frame(FRAME_HEADERS, FLAG_END_HEADERS, 1, &[], &mut buf);
    server.feed_data(&mut sio, &buf[..n]).unwrap();

    // Lift the connection-level *receive* window well above the stream
    // window so the per-stream limit is the one that binds.
    server.conn_recv_fc.replenish(2_000_000).unwrap();

    // Send DATA past the 65535 stream window in 16384-byte frames.
    let payload = [0u8; 16384];
    let mut result = Ok(());
    for _ in 0..5 {
        let n = raw_frame(FRAME_DATA, 0, 1, &payload, &mut buf);
        result = server.feed_data(&mut sio, &buf[..n]);
        if result.is_err() {
            break;
        }
    }
    assert_eq!(
        result,
        Err(Error::Http2(H2Error::FlowControlError)),
        "exceeding the stream receive window must be FLOW_CONTROL_ERROR"
    );
}

#[test]
fn server_rejects_even_stream_id_headers() {
    // RFC 9113 §5.1.1: a server must not accept a new stream on an
    // even (server-initiated) stream ID from the client.
    let mut client = H2Connection::<16, 2048, 4096>::new_client();
    let mut cio = IoBufs::<8192>::new();
    let mut server = H2Connection::<16, 2048, 4096>::new_server();
    let mut sio = IoBufs::<8192>::new();
    run_handshake(&mut client, &mut cio, &mut server, &mut sio);

    let mut buf = [0u8; 32];
    // HEADERS on stream 2 (even) -> illegal for a client to open.
    let payload_len = 0usize;
    buf[0] = 0;
    buf[1] = 0;
    buf[2] = payload_len as u8;
    buf[3] = FRAME_HEADERS;
    buf[4] = FLAG_END_HEADERS;
    buf[5..9].copy_from_slice(&2u32.to_be_bytes());
    let res = server.feed_data(&mut sio, &buf[..9 + payload_len]);
    assert_eq!(
        res,
        Err(Error::Http2(H2Error::ProtocolError)),
        "HEADERS on an even stream id must be a PROTOCOL_ERROR for a server"
    );
}

// ====== Invalid SETTINGS Rejection ======

#[test]
fn invalid_settings_rejected() {
    // Sub-check 1: ENABLE_PUSH = 2 → ProtocolError
    {
        let mut conn = H2Connection::<16, 2048, 4096>::new_client();
        let mut io = IoBufs::<8192>::new();
        let frame: &[u8] = &[
            0x00, 0x00, 0x06, 0x04, 0x00, 0x00, 0x00, 0x00, 0x00, 0x00, 0x02, 0x00, 0x00, 0x00,
            0x02,
        ];
        let result = conn.feed_data(&mut io, frame);
        assert_eq!(
            result,
            Err(Error::Http2(H2Error::ProtocolError))
        );
    }

    // Sub-check 2: INITIAL_WINDOW_SIZE = 0x8000_0000 → FlowControlError
    {
        let mut conn = H2Connection::<16, 2048, 4096>::new_client();
        let mut io = IoBufs::<8192>::new();
        let frame: &[u8] = &[
            0x00, 0x00, 0x06, 0x04, 0x00, 0x00, 0x00, 0x00, 0x00, 0x00, 0x04, 0x80, 0x00, 0x00,
            0x00,
        ];
        let result = conn.feed_data(&mut io, frame);
        assert_eq!(
            result,
            Err(Error::Http2(H2Error::FlowControlError))
        );
    }

    // Sub-check 3: MAX_FRAME_SIZE = 100 → ProtocolError
    {
        let mut conn = H2Connection::<16, 2048, 4096>::new_client();
        let mut io = IoBufs::<8192>::new();
        let frame: &[u8] = &[
            0x00, 0x00, 0x06, 0x04, 0x00, 0x00, 0x00, 0x00, 0x00, 0x00, 0x05, 0x00, 0x00, 0x00,
            0x64,
        ];
        let result = conn.feed_data(&mut io, frame);
        assert_eq!(
            result,
            Err(Error::Http2(H2Error::ProtocolError))
        );
    }
}
