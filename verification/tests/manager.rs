//! Tests of the connection manager.

use milli_http::bytes::HeaderField;
use milli_http::error::Error;
use milli_http::http::server_conn::HttpEvent;
use milli_http::quic::{NoPool, NoQuic};
use milli_http::server::conn::{TcpConn, TcpState};
use milli_http::server::manager::ServerManager;
use milli_http::server::{ConnId, ConnProtocol, ServerConfig, ServerEvent};
use milli_http::tls::{PlainSession, ServerTlsConfig, TlsBufKit, TlsParts};
use milli_http::transport::{DrawHistory, Rng};

type Manager = ServerManager<PlainSession, NoQuic, u32, 4096>;

/// The greeting of the plain session.
const HELLO: u8 = 0x16;

struct Zeros;

impl Rng for Zeros {
    fn drawn(&self) -> DrawHistory {
        unreachable!()
    }

    fn fill(&mut self, buf: &mut [u8]) {
        for b in buf.iter_mut() {
            *b = 0;
        }
    }
}

fn manager(alpn: &[u8], config: ServerConfig) -> Manager {
    ServerManager::new(
        ServerTlsConfig {
            cert_der: Vec::new(),
            private_key_der: Vec::new(),
            alpn_protocols: vec![alpn.to_vec()],
        },
        config,
    )
}

fn kit() -> TlsBufKit {
    TlsBufKit { net_recv: vec![0; 4096], net_send: vec![0; 4096], app_send: vec![0; 4096] }
}

fn next(m: &mut Manager) -> Option<ServerEvent> {
    let mut scratch = [0u8; 2048];
    m.poll_event(&mut scratch)
}

fn output(m: &mut Manager, id: ConnId) -> Vec<u8> {
    let mut all = Vec::new();
    let mut buf = [0u8; 1500];
    while let Some(chunk) = m.tcp_poll_output(id, &mut buf) {
        all.extend_from_slice(chunk);
    }
    all
}

fn value_of(fields: &[HeaderField], name: &[u8]) -> Vec<u8> {
    for f in fields {
        if f.name == name {
            return f.value.clone();
        }
    }
    panic!("no such field");
}

/// A TLS connection whose handshake is complete.
fn shaken(m: &mut Manager) -> ConnId {
    let id = m.accept_tcp(&mut Zeros, 0).unwrap();
    assert_eq!(output(m, id), vec![HELLO]);
    m.tcp_feed(id, &[HELLO], 0).unwrap();
    assert_eq!(next(m), Some(ServerEvent::Connected(id)));
    id
}

#[test]
fn cleartext_request_and_response() {
    let mut m = manager(b"http/1.1", ServerConfig::default());
    let id = m.accept_tcp_cleartext(0).unwrap();
    assert_eq!(m.conn_protocol(id), Some(ConnProtocol::Http1));
    assert_eq!(m.tcp_conn_count(), 1);
    assert_eq!(next(&mut m), Some(ServerEvent::Connected(id)));
    m.tcp_feed(id, b"GET /x HTTP/1.1\r\nHost: h\r\n\r\n", 1).unwrap();
    let mut stream = 0;
    while let Some(ev) = next(&mut m) {
        if let ServerEvent::Http { conn, event: HttpEvent::Headers(s) } = ev {
            assert_eq!(conn, id);
            stream = s;
        }
    }
    let mut fields = Vec::new();
    m.recv_headers(id, stream, &mut fields).unwrap();
    assert_eq!(value_of(&fields, b":path"), b"/x");
    m.send_response(id, stream, 200, &[(b"content-length", b"2")], false).unwrap();
    assert_eq!(m.send_body(id, stream, b"ok", true), Ok(2));
    let out = output(&mut m, id);
    assert!(out.starts_with(b"HTTP/1.1 200 OK\r\n"));
    assert!(out.ends_with(b"\r\n\r\nok"));
}

#[test]
fn tls_request_and_response() {
    let mut m = manager(b"http/1.1", ServerConfig::default());
    let id = m.accept_tcp(&mut Zeros, 0).unwrap();
    assert_eq!(m.conn_protocol(id), Some(ConnProtocol::Handshaking));
    assert_eq!(output(&mut m, id), vec![HELLO]);
    // The request comes with the last handshake message.
    let mut bytes = vec![HELLO];
    bytes.extend_from_slice(b"GET / HTTP/1.1\r\nHost: h\r\n\r\n");
    m.tcp_feed(id, &bytes, 5).unwrap();
    assert_eq!(m.conn_protocol(id), Some(ConnProtocol::Http1));
    assert_eq!(next(&mut m), Some(ServerEvent::Connected(id)));
    let mut got = false;
    while let Some(ev) = next(&mut m) {
        if let ServerEvent::Http { event: HttpEvent::Headers(_), .. } = ev {
            got = true;
        }
    }
    assert!(got);
}

#[test]
fn alpn_chooses_the_protocol() {
    let mut m = manager(b"h2", ServerConfig::default());
    let id = shaken(&mut m);
    assert_eq!(m.conn_protocol(id), Some(ConnProtocol::H2));
    let out = output(&mut m, id);
    assert_eq!(out[3], 4);
}

#[test]
fn an_unknown_protocol_is_rejected() {
    let mut m = manager(b"spdy", ServerConfig::default());
    m.add_tls_buffer_kit(kit());
    let id = m.accept_tcp(&mut Zeros, 0).unwrap();
    assert_eq!(m.free_tls_buffer_kits(), 0);
    let _ = output(&mut m, id);
    assert_eq!(m.tcp_feed(id, &[HELLO], 0), Err(Error::InvalidState));
    assert!(m.is_closed(id));
    assert_eq!(next(&mut m), Some(ServerEvent::Closed(id)));
    assert_eq!(m.free_tls_buffer_kits(), 1);
}

#[test]
fn a_failed_handshake_closes_the_connection() {
    let mut m = manager(b"h2", ServerConfig::default());
    m.add_tls_buffer_kit(kit());
    let id = m.accept_tcp(&mut Zeros, 0).unwrap();
    assert_eq!(m.tcp_feed(id, &[0xff], 0), Err(Error::InvalidState));
    assert_eq!(next(&mut m), Some(ServerEvent::Closed(id)));
    assert_eq!(m.free_tls_buffer_kits(), 1);
    assert_eq!(m.tcp_feed(id, &[HELLO], 0), Err(Error::InvalidState));
    assert_eq!(next(&mut m), None);
    assert_eq!(m.tcp_conn_count(), 0);
}

#[test]
fn buffer_kits_come_back_on_every_way_to_close() {
    let mut m = manager(b"h2", ServerConfig::default());
    m.add_tls_buffer_kit(kit());
    // End of stream.
    let a = shaken(&mut m);
    assert_eq!(m.free_tls_buffer_kits(), 0);
    m.tcp_eof(a);
    assert_eq!(m.free_tls_buffer_kits(), 1);
    while next(&mut m).is_some() {}
    // Closed by the application.
    let b = shaken(&mut m);
    assert_eq!(m.free_tls_buffer_kits(), 0);
    assert_eq!(m.close::<NoPool>(b), Ok(()));
    assert_eq!(m.free_tls_buffer_kits(), 1);
    while next(&mut m).is_some() {}
    // Handshake timeout.
    let _ = m.accept_tcp(&mut Zeros, 0).unwrap();
    assert_eq!(m.free_tls_buffer_kits(), 0);
    m.handle_timeouts(20_000_000, &mut NoPool);
    assert_eq!(m.free_tls_buffer_kits(), 1);
    assert!(m.take_tls_buffer_kit().is_some());
    assert!(m.take_tls_buffer_kit().is_none());
}

#[test]
fn handshakes_time_out_at_the_deadline() {
    let mut m = manager(b"h2", ServerConfig::default());
    let id = m.accept_tcp(&mut Zeros, 1_000).unwrap();
    assert_eq!(m.next_timeout(), Some(10_001_000));
    m.handle_timeouts(10_000_999, &mut NoPool);
    assert!(!m.is_closed(id));
    m.handle_timeouts(10_001_000, &mut NoPool);
    assert!(m.is_closed(id));
    assert_eq!(next(&mut m), Some(ServerEvent::Closed(id)));
    assert_eq!(m.next_timeout(), None);
}

#[test]
fn the_connection_limit_holds() {
    let config = ServerConfig { max_tcp_conns: 2, ..ServerConfig::default() };
    let mut m = manager(b"h2", config);
    assert_eq!(m.accept_tcp(&mut Zeros, 0), Ok(ConnId(0)));
    assert_eq!(m.accept_tcp_cleartext(0), Ok(ConnId(1)));
    assert_eq!(m.accept_tcp(&mut Zeros, 0), Err(Error::StreamLimitExhausted));
    assert_eq!(m.accept_tcp_cleartext(0), Err(Error::StreamLimitExhausted));
    m.close::<NoPool>(ConnId(0)).unwrap();
    while next(&mut m).is_some() {}
    // A handle is not given out again.
    assert_eq!(m.accept_tcp(&mut Zeros, 0), Ok(ConnId(2)));
}

#[test]
fn a_request_with_the_end_of_the_stream_is_not_lost() {
    let mut m = manager(b"http/1.1", ServerConfig::default());
    let id = m.accept_tcp_cleartext(0).unwrap();
    m.tcp_feed(id, b"GET / HTTP/1.1\r\nHost: h\r\n\r\n", 1).unwrap();
    m.tcp_eof(id);
    let mut events = Vec::new();
    while let Some(ev) = next(&mut m) {
        events.push(ev);
    }
    assert_eq!(events[0], ServerEvent::Connected(id));
    assert!(events.contains(&ServerEvent::Http { conn: id, event: HttpEvent::Headers(1) }));
    assert_eq!(*events.last().unwrap(), ServerEvent::Closed(id));
}

#[test]
fn the_event_queue_keeps_the_newest() {
    let config = ServerConfig { max_events: 2, ..ServerConfig::default() };
    let mut m = manager(b"h2", config);
    let _ = m.accept_tcp_cleartext(0).unwrap();
    let b = m.accept_tcp_cleartext(0).unwrap();
    let c = m.accept_tcp_cleartext(0).unwrap();
    assert_eq!(next(&mut m), Some(ServerEvent::Connected(b)));
    assert_eq!(next(&mut m), Some(ServerEvent::Connected(c)));
}

#[test]
fn unknown_handles_are_refused() {
    let mut m = manager(b"h2", ServerConfig::default());
    let id = ConnId(9);
    assert_eq!(m.tcp_feed(id, b"x", 0), Err(Error::InvalidState));
    assert_eq!(m.recv_headers(id, 1, &mut Vec::new()), Err(Error::InvalidState));
    assert_eq!(m.recv_body(id, 1, &mut [0u8; 4]), Err(Error::InvalidState));
    assert_eq!(m.send_response(id, 1, 200, &[], true), Err(Error::InvalidState));
    assert_eq!(m.send_body(id, 1, b"x", true), Err(Error::InvalidState));
    assert_eq!(m.close::<NoPool>(id), Err(Error::InvalidState));
    assert!(m.tcp_poll_output(id, &mut [0u8; 8]).is_none());
    assert!(m.is_closed(id));
    assert_eq!(m.conn_protocol(id), None);
    assert!(!m.conn_recv_blocked(id));
    m.tcp_eof(id);
    assert_eq!(next(&mut m), None);
}

#[test]
fn too_many_headers_are_refused() {
    let mut m = manager(b"http/1.1", ServerConfig::default());
    let id = m.accept_tcp_cleartext(0).unwrap();
    m.tcp_feed(id, b"GET / HTTP/1.1\r\nHost: h\r\n\r\n", 1).unwrap();
    while next(&mut m).is_some() {}
    m.recv_headers(id, 1, &mut Vec::new()).unwrap();
    let hdrs: [(&[u8], &[u8]); 20] = [(b"n", b"v"); 20];
    assert_eq!(m.send_response(id, 1, 200, &hdrs, true), Err(Error::TooManyHeaders));
}

#[test]
fn without_quic_datagrams_are_refused() {
    let mut m = manager(b"h2", ServerConfig::default());
    let datagram = [0xc3, 0, 0, 0, 1, 4, 9, 8, 7, 6, 0, 0];
    assert!(m.udp_feed(&datagram, 1, 0, &mut Zeros, &mut NoPool).is_err());
    assert_eq!(m.quic_conn_count(), 0);
    let mut buf = [0u8; 1200];
    assert!(m.udp_poll_transmit(&mut buf, 0, &mut NoPool).is_none());
}

/// Counts what is drawn from it.
struct Counting {
    draws: Vec<usize>,
}

impl Rng for Counting {
    fn drawn(&self) -> DrawHistory {
        unreachable!()
    }

    fn fill(&mut self, buf: &mut [u8]) {
        self.draws.push(buf.len());
        for b in buf.iter_mut() {
            *b = self.draws.len() as u8;
        }
    }
}

#[test]
fn random_bytes_are_drawn_for_what_is_accepted() {
    let config = ServerConfig { max_tcp_conns: 1, ..ServerConfig::default() };
    let mut m = manager(b"h2", config);
    let mut rng = Counting { draws: Vec::new() };
    assert!(m.accept_tcp(&mut rng, 0).is_ok());
    assert_eq!(rng.draws, vec![32, 32]);
    assert_eq!(m.accept_tcp(&mut rng, 0), Err(Error::StreamLimitExhausted));
    assert_eq!(rng.draws, vec![32, 32]);
}

#[test]
fn output_stands_at_the_start_of_the_buffer() {
    let mut m = manager(b"http/1.1", ServerConfig::default());
    let id = m.accept_tcp(&mut Zeros, 0).unwrap();
    let mut buf = [7u8; 4];
    assert!(m.tcp_poll_output(ConnId(id.0 + 1), &mut buf).is_none());
    assert_eq!(buf, [7; 4]);
    assert_eq!(m.tcp_poll_output(id, &mut buf), Some(&[HELLO][..]));
    assert_eq!(buf, [HELLO, 7, 7, 7]);
    assert!(m.tcp_poll_output(id, &mut buf).is_none());
    assert_eq!(buf, [HELLO, 7, 7, 7]);
}

#[test]
fn nothing_times_out_before_its_deadline() {
    let mut m = manager(b"http/1.1", ServerConfig::default());
    let id = m.accept_tcp(&mut Zeros, 5).unwrap();
    let d = m.next_timeout().unwrap();
    m.handle_timeouts(d - 1, &mut NoPool);
    assert!(!m.is_closed(id));
    assert_eq!(next(&mut m), None);
    m.handle_timeouts(d, &mut NoPool);
    assert!(m.is_closed(id));
    assert_eq!(next(&mut m), Some(ServerEvent::Closed(id)));
    assert_eq!(next(&mut m), None);
}

#[test]
fn closed_connections_stay_closed_and_say_so_once() {
    let mut m = manager(b"http/1.1", ServerConfig::default());
    let id = m.accept_tcp_cleartext(0).unwrap();
    assert_eq!(next(&mut m), Some(ServerEvent::Connected(id)));
    m.tcp_feed(id, b"GET / HTTP/1.1\r\nHost: h\r\n\r\n", 1).unwrap();
    m.tcp_eof(id);
    m.tcp_eof(id);
    m.close::<NoPool>(id).unwrap();
    assert!(m.is_closed(id));
    let mut seen = Vec::new();
    while let Some(e) = next(&mut m) {
        seen.push(e);
    }
    assert_eq!(seen.len(), 4);
    assert_eq!(seen[0], ServerEvent::Http { conn: id, event: HttpEvent::Connected });
    assert_eq!(seen[1], ServerEvent::Http { conn: id, event: HttpEvent::Headers(1) });
    assert_eq!(seen[2], ServerEvent::Http { conn: id, event: HttpEvent::Finished(1) });
    assert_eq!(seen[3], ServerEvent::Closed(id));
    assert_eq!(m.tcp_conn_count(), 0);
    let other = m.accept_tcp_cleartext(2).unwrap();
    assert!(other.0 > id.0);
    assert!(m.is_closed(id));
    assert!(m.tcp_feed(id, b"x", 3).is_err());
}

#[test]
fn the_next_timeout_is_the_earliest_deadline() {
    let config = ServerConfig { handshake_timeout_us: 100, ..ServerConfig::default() };
    let mut m = manager(b"http/1.1", config);
    assert_eq!(m.next_timeout(), None);
    let late = m.accept_tcp(&mut Zeros, 30).unwrap();
    assert_eq!(m.next_timeout(), Some(130));
    let early = m.accept_tcp(&mut Zeros, 10).unwrap();
    assert_eq!(m.next_timeout(), Some(110));
    // A closed connection has no deadline, before and after it is removed.
    m.tcp_eof(early);
    assert_eq!(m.next_timeout(), Some(130));
    m.tcp_eof(late);
    assert_eq!(m.next_timeout(), None);
    while next(&mut m).is_some() {}
    assert_eq!(m.next_timeout(), None);
}

#[test]
fn queued_events_come_before_those_of_connections() {
    let mut m = manager(b"http/1.1", ServerConfig::default());
    let one = m.accept_tcp_cleartext(0).unwrap();
    assert_eq!(next(&mut m), Some(ServerEvent::Connected(one)));
    m.tcp_feed(one, b"GET / HTTP/1.1\r\nHost: h\r\n\r\n", 1).unwrap();
    let two = m.accept_tcp_cleartext(2).unwrap();
    let mut seen = Vec::new();
    while let Some(e) = next(&mut m) {
        seen.push(e);
    }
    assert_eq!(
        seen,
        vec![
            ServerEvent::Connected(two),
            ServerEvent::Http { conn: one, event: HttpEvent::Connected },
            ServerEvent::Http { conn: one, event: HttpEvent::Headers(1) },
            ServerEvent::Http { conn: one, event: HttpEvent::Finished(1) },
        ]
    );
}

#[test]
fn a_handle_that_was_not_given_out_is_closed() {
    let mut m = manager(b"http/1.1", ServerConfig::default());
    assert!(m.is_closed(ConnId(0)));
    let id = m.accept_tcp_cleartext(0).unwrap();
    assert!(!m.is_closed(id));
    assert!(m.is_closed(ConnId(id.0 + 1)));
    let other = m.accept_tcp_cleartext(0).unwrap();
    assert!(other.0 > id.0);
}

#[test]
fn a_refused_connection_is_not_counted() {
    let config = ServerConfig { max_tcp_conns: 1, ..ServerConfig::default() };
    let mut m = manager(b"http/1.1", config);
    let id = m.accept_tcp_cleartext(0).unwrap();
    assert_eq!(m.accept_tcp(&mut Zeros, 0), Err(Error::StreamLimitExhausted));
    assert_eq!(m.tcp_conn_count(), 1);
    m.tcp_eof(id);
    // Closed connections are removed once there are no more events.
    assert_eq!(next(&mut m), Some(ServerEvent::Connected(id)));
    assert_eq!(next(&mut m), Some(ServerEvent::Closed(id)));
    assert_eq!(m.tcp_conn_count(), 1);
    assert_eq!(next(&mut m), None);
    assert_eq!(m.tcp_conn_count(), 0);
}

#[test]
fn a_returned_kit_holds_what_was_in_the_buffers() {
    let config = ServerTlsConfig {
        cert_der: Vec::new(),
        private_key_der: Vec::new(),
        alpn_protocols: Vec::new(),
    };
    let mut parts: TlsParts<PlainSession, 4096> =
        TlsParts::new_server_in(&config, [0; 32], [0; 32], kit());
    parts.bufs.io.send_buf.extend_from_slice(b"left").unwrap();
    let mut c = TcpConn {
        id: ConnId(3),
        state: TcpState::Handshaking(parts),
        protocol: ConnProtocol::Handshaking,
        accepted_at: 0,
    };
    let back = c.reclaim_and_close().unwrap();
    assert_eq!(back.app_send, b"left".to_vec());
    assert!(back.net_recv.is_empty());
    assert!(c.is_closed());
    assert!(c.reclaim_and_close().is_none());
}
