//! Tests of the datagrams of the connection manager, with QUIC connections that
//! note what happens to them.

use milli_http::bytes::{Field, HeaderField, Sequence, Unbounded};
use milli_http::error::Error;
use milli_http::http::server_conn::{HttpEvent, HttpServerConn, Modelled};
use milli_http::quic::QuicServer;
use milli_http::server::manager::ServerManager;
use milli_http::server::{ConnId, ServerConfig, ServerEvent};
use milli_http::tls::{PlainSession, ServerTlsConfig, TlsBufKit, TlsWire};
use milli_http::transport::{DrawHistory, Rng};

/// Handshake slots.
struct Slots {
    free: usize,
}

impl Modelled for Slots {
    type V = ();

    fn view(&self) {
        unreachable!()
    }
}

/// A connection that answers each datagram with its bytes reversed. The last byte
/// tells it what else to do: to fail, to be established, or nothing.
struct Mirror {
    cid: Vec<u8>,
    slot: bool,
    established: bool,
    closed: bool,
    deadline: Option<u64>,
    events: Vec<HttpEvent>,
    out: Vec<Vec<u8>>,
}

const FAIL: u8 = 1;

const ESTABLISH: u8 = 2;

impl Modelled for Mirror {
    type V = ();

    fn view(&self) {
        unreachable!()
    }
}

impl HttpServerConn for Mirror {
    fn conn_wf(&self) -> bool {
        unreachable!()
    }

    fn event_polled(_: ()) -> ((), Option<HttpEvent>) {
        unreachable!()
    }

    fn headers_read(_: (), _: u64) -> ((), Sequence<Field>, Result<(), Error>) {
        unreachable!()
    }

    fn body_read(
        _: (),
        _: u64,
        _: Unbounded,
    ) -> ((), Sequence<u8>, Result<(usize, bool), Error>) {
        unreachable!()
    }

    fn response_sent(
        _: (),
        _: u64,
        _: u16,
        _: Sequence<Field>,
        _: bool,
    ) -> ((), Result<(), Error>) {
        unreachable!()
    }

    fn body_sent(_: (), _: u64, _: Sequence<u8>, _: bool) -> ((), Result<usize, Error>) {
        unreachable!()
    }

    fn established(_: ()) -> bool {
        unreachable!()
    }

    fn closed(_: ()) -> bool {
        unreachable!()
    }

    fn deadline(_: ()) -> Option<u64> {
        unreachable!()
    }

    fn timed_out(_: (), _: u64) {
        unreachable!()
    }

    fn fed(_: (), _: Sequence<u8>) -> ((), Result<(), Error>) {
        unreachable!()
    }

    fn fed_timed(_: (), _: Sequence<u8>, _: u64) -> ((), Result<(), Error>) {
        unreachable!()
    }

    fn output_polled(_: (), _: Unbounded) -> ((), Option<Sequence<u8>>) {
        unreachable!()
    }

    fn blocked(_: ()) -> bool {
        unreachable!()
    }

    fn reclaimed(_: ()) -> ((), Option<TlsWire>) {
        unreachable!()
    }

    fn poll_event(&mut self, _scratch: &mut [u8]) -> Option<HttpEvent> {
        if self.events.is_empty() {
            None
        } else {
            Some(self.events.remove(0))
        }
    }

    fn recv_headers(&mut self, stream_id: u64, out: &mut Vec<HeaderField>) -> Result<(), Error> {
        out.push(HeaderField { name: b"stream".to_vec(), value: vec![stream_id as u8] });
        Ok(())
    }

    fn recv_body(&mut self, stream_id: u64, buf: &mut [u8]) -> Result<(usize, bool), Error> {
        buf[0] = stream_id as u8;
        Ok((1, true))
    }

    fn send_response(
        &mut self,
        _stream_id: u64,
        status: u16,
        _headers: &[(&[u8], &[u8])],
        _end_stream: bool,
    ) -> Result<(), Error> {
        self.out.push(status.to_be_bytes().to_vec());
        Ok(())
    }

    fn send_body(&mut self, _: u64, data: &[u8], _: bool) -> Result<usize, Error> {
        self.out.push(data.to_vec());
        Ok(data.len())
    }

    fn is_established(&self) -> bool {
        self.established
    }

    fn is_closed(&self) -> bool {
        self.closed
    }

    fn next_timeout(&self) -> Option<u64> {
        self.deadline
    }

    fn handle_timeout(&mut self, now: u64) {
        if let Some(d) = self.deadline {
            if now >= d {
                self.closed = true;
            }
        }
    }

    fn tcp_feed_data(&mut self, _data: &[u8]) -> Result<(), Error> {
        Ok(())
    }

    fn tcp_feed_data_timed(&mut self, _data: &[u8], _now: u64) -> Result<(), Error> {
        Ok(())
    }

    fn tcp_poll_output<'a>(&mut self, _buf: &'a mut [u8]) -> Option<&'a [u8]> {
        None
    }

    fn recv_blocked(&self) -> bool {
        false
    }

    fn reclaim_buffers(&mut self) -> Option<TlsBufKit> {
        None
    }
}

impl QuicServer<Slots> for Mirror {
    fn started(_: ServerTlsConfig, _: Sequence<u8>, _: ()) -> (Result<(), Error>, ()) {
        unreachable!()
    }

    fn cids(_: ()) -> Sequence<Sequence<u8>> {
        unreachable!()
    }

    fn datagram(_: (), _: Sequence<u8>, _: u64, _: ()) -> ((), (), Result<(), Error>) {
        unreachable!()
    }

    fn transmitted(_: (), _: Unbounded, _: u64, _: ()) -> ((), (), Option<Sequence<u8>>) {
        unreachable!()
    }

    fn slot_released(_: (), _: ()) -> ((), ()) {
        unreachable!()
    }

    fn closing(_: ()) {
        unreachable!()
    }

    fn stays_closed_in_use(
        _: (),
        _: u64,
        _: Unbounded,
        _: u16,
        _: Sequence<Field>,
        _: Sequence<u8>,
        _: bool,
    ) {
        unreachable!()
    }

    fn stays_closed_on_the_wire(_: (), _: Sequence<u8>, _: Unbounded, _: u64, _: ()) {
        unreachable!()
    }

    fn server(_: &ServerTlsConfig, seed: [u8; 32], pool: &mut Slots) -> Result<Self, Error> {
        if pool.free == 0 {
            return Err(Error::WouldBlock);
        }
        pool.free -= 1;
        Ok(Mirror {
            cid: seed[..8].to_vec(),
            slot: true,
            established: false,
            closed: false,
            deadline: None,
            events: Vec::new(),
            out: Vec::new(),
        })
    }

    fn local_cids(&self) -> Vec<Vec<u8>> {
        vec![self.cid.clone()]
    }

    fn recv(&mut self, data: &[u8], now: u64, _pool: &mut Slots) -> Result<(), Error> {
        match data[data.len() - 1] {
            FAIL => return Err(Error::InvalidState),
            ESTABLISH => {
                self.established = true;
                self.events.push(HttpEvent::Connected);
                self.deadline = Some(now + 1000);
            }
            _ => {}
        }
        let mut back = data.to_vec();
        back.reverse();
        self.out.push(back);
        Ok(())
    }

    fn poll_transmit(&mut self, buf: &mut [u8], _now: u64, _pool: &mut Slots) -> Option<usize> {
        if self.out.is_empty() {
            return None;
        }
        let d = self.out.remove(0);
        buf[..d.len()].copy_from_slice(&d);
        Some(d.len())
    }

    fn release_handshake_slot(&mut self, pool: &mut Slots) {
        if self.slot {
            self.slot = false;
            pool.free += 1;
        }
    }

    fn close(&mut self) {
        self.closed = true;
    }
}

/// Gives each connection another seed.
struct Counter {
    next: u8,
}

impl Rng for Counter {
    fn drawn(&self) -> DrawHistory {
        unreachable!()
    }

    fn fill(&mut self, buf: &mut [u8]) {
        self.next += 1;
        for b in buf.iter_mut() {
            *b = self.next;
        }
    }
}

type Manager = ServerManager<PlainSession, Mirror, u32, 4096>;

fn manager(max_quic_conns: usize) -> Manager {
    ServerManager::new(
        ServerTlsConfig {
            cert_der: Vec::new(),
            private_key_der: Vec::new(),
            alpn_protocols: vec![b"h3".to_vec()],
        },
        ServerConfig { max_quic_conns, handshake_timeout_us: 500, ..ServerConfig::default() },
    )
}

/// A datagram with a long header, for the connection ID `dcid`.
fn first(dcid: &[u8], last: u8) -> Vec<u8> {
    let mut d = vec![0xc3, 0, 0, 0, 1, dcid.len() as u8];
    d.extend_from_slice(dcid);
    d.push(last);
    d
}

/// A datagram with a short header, for the ID that a connection chose.
fn later(cid: u8, last: u8) -> Vec<u8> {
    let mut d = vec![0x40];
    d.extend_from_slice(&[cid; 8]);
    d.push(last);
    d
}

fn next(m: &mut Manager) -> Option<ServerEvent> {
    let mut scratch = [0u8; 64];
    m.poll_event(&mut scratch)
}

fn transmit(m: &mut Manager, slots: &mut Slots) -> Option<(u32, Vec<u8>)> {
    let mut buf = [0u8; 64];
    m.udp_poll_transmit(&mut buf, 0, slots).map(|(to, n)| (to, buf[..n].to_vec()))
}

#[test]
fn datagrams_find_their_connection() {
    let mut m = manager(4);
    let mut slots = Slots { free: 4 };
    let mut rng = Counter { next: 0 };
    m.udp_feed(&first(b"aaaa", 0), 70, 0, &mut rng, &mut slots).unwrap();
    m.udp_feed(&first(b"bbbb", 0), 80, 0, &mut rng, &mut slots).unwrap();
    assert_eq!(m.quic_conn_count(), 2);
    assert_eq!(slots.free, 2);
    // By the ID of the first datagram, and by the ID that the connection chose.
    m.udp_feed(&first(b"bbbb", 9), 80, 1, &mut rng, &mut slots).unwrap();
    m.udp_feed(&later(1, 7), 70, 1, &mut rng, &mut slots).unwrap();
    assert_eq!(m.quic_conn_count(), 2);
    let mut sent = Vec::new();
    while let Some(d) = transmit(&mut m, &mut slots) {
        sent.push((d.0, d.1[0]));
    }
    assert_eq!(sent, vec![(70, 0), (70, 7), (80, 0), (80, 9)]);
}

#[test]
fn events_and_requests_of_quic_connections_pass_through() {
    let mut m = manager(4);
    let mut slots = Slots { free: 4 };
    let mut rng = Counter { next: 0 };
    m.udp_feed(&first(b"aaaa", ESTABLISH), 70, 0, &mut rng, &mut slots).unwrap();
    let id = match next(&mut m) {
        Some(ServerEvent::Http { conn, event: HttpEvent::Connected }) => conn,
        other => panic!("{:?}", other),
    };
    assert_eq!(next(&mut m), None);
    assert!(!m.is_closed(id));
    let mut fields = Vec::new();
    m.recv_headers(id, 8, &mut fields).unwrap();
    assert_eq!(fields[0].value, vec![8]);
    let mut buf = [0u8; 4];
    assert_eq!(m.recv_body(id, 9, &mut buf), Ok((1, true)));
    assert_eq!(buf[0], 9);
    assert!(transmit(&mut m, &mut slots).is_some());
    m.send_response(id, 8, 200, &[], false).unwrap();
    assert_eq!(m.send_body(id, 8, b"hi", true), Ok(2));
    assert_eq!(transmit(&mut m, &mut slots), Some((70, vec![0, 200])));
    assert_eq!(transmit(&mut m, &mut slots), Some((70, b"hi".to_vec())));
    assert_eq!(transmit(&mut m, &mut slots), None);
    assert_eq!(m.next_timeout(), Some(1000));
}

#[test]
fn a_connection_that_refuses_its_first_datagram_gives_its_slot_back() {
    let mut m = manager(4);
    let mut slots = Slots { free: 1 };
    let mut rng = Counter { next: 0 };
    let r = m.udp_feed(&first(b"aaaa", FAIL), 70, 0, &mut rng, &mut slots);
    assert_eq!(r, Err(Error::InvalidState));
    assert_eq!(m.quic_conn_count(), 0);
    assert_eq!(slots.free, 1);
}

#[test]
fn without_a_slot_no_connection_starts() {
    let mut m = manager(4);
    let mut slots = Slots { free: 0 };
    let mut rng = Counter { next: 0 };
    let r = m.udp_feed(&first(b"aaaa", 0), 70, 0, &mut rng, &mut slots);
    assert_eq!(r, Err(Error::WouldBlock));
    assert_eq!(m.quic_conn_count(), 0);
}

#[test]
fn late_handshakes_end() {
    let mut m = manager(4);
    let mut slots = Slots { free: 2 };
    let mut rng = Counter { next: 0 };
    m.udp_feed(&first(b"aaaa", 0), 70, 10, &mut rng, &mut slots).unwrap();
    assert_eq!(m.next_timeout(), Some(510));
    m.handle_timeouts(509, &mut slots);
    assert_eq!(m.quic_conn_count(), 1);
    m.handle_timeouts(510, &mut slots);
    assert_eq!(m.quic_conn_count(), 0);
    assert_eq!(slots.free, 2);
    assert!(matches!(next(&mut m), Some(ServerEvent::Closed(_))));
    assert_eq!(next(&mut m), None);
}

#[test]
fn dead_connections_make_room_at_the_limit() {
    let mut m = manager(1);
    let mut slots = Slots { free: 4 };
    let mut rng = Counter { next: 0 };
    m.udp_feed(&first(b"aaaa", ESTABLISH), 70, 0, &mut rng, &mut slots).unwrap();
    let id = match next(&mut m) {
        Some(ServerEvent::Http { conn, .. }) => conn,
        other => panic!("{:?}", other),
    };
    let r = m.udp_feed(&first(b"bbbb", 0), 80, 1, &mut rng, &mut slots);
    assert_eq!(r, Err(Error::StreamLimitExhausted));
    assert_eq!(rng.next, 1);
    m.close(id).unwrap();
    m.udp_feed(&first(b"bbbb", 0), 80, 2, &mut rng, &mut slots).unwrap();
    assert_eq!(m.quic_conn_count(), 1);
    assert_eq!(next(&mut m), Some(ServerEvent::Closed(id)));
    assert!(m.is_closed(id));
    assert_eq!(m.close(ConnId(id.0 + 100)), Err(Error::InvalidState));
}

#[test]
fn a_connection_starts_from_the_seed_it_is_given() {
    let mut m = manager(4);
    let mut slots = Slots { free: 4 };
    m.udp_feed_with(&first(b"aaaa", 0), 70, 0, [9; 32], &mut slots).unwrap();
    // Its own ID comes from the seed.
    m.udp_feed_with(&later(9, 5), 70, 0, [1; 32], &mut slots).unwrap();
    assert_eq!(m.quic_conn_count(), 1);
    assert_eq!(slots.free, 3);
}

#[test]
fn a_closed_quic_connection_is_closed_for_good() {
    let mut m = manager(4);
    let mut slots = Slots { free: 2 };
    let mut rng = Counter { next: 0 };
    m.udp_feed(&first(b"aaaa", ESTABLISH), 70, 0, &mut rng, &mut slots).unwrap();
    m.udp_feed(&first(b"bbbb", 0), 80, 0, &mut rng, &mut slots).unwrap();
    assert_eq!(slots.free, 0);
    let id = match next(&mut m) {
        Some(ServerEvent::Http { conn, .. }) => conn,
        other => panic!("{:?}", other),
    };
    m.close(id).unwrap();
    assert!(m.is_closed(id));
    // Datagrams for it, and timers, leave it closed.
    m.udp_feed(&later(1, ESTABLISH), 70, 1, &mut rng, &mut slots).unwrap();
    assert!(m.is_closed(id));
    m.handle_timeouts(2, &mut slots);
    assert_eq!(m.quic_conn_count(), 1);
    assert_eq!(slots.free, 1);
    assert!(m.is_closed(id));
    assert_eq!(next(&mut m), Some(ServerEvent::Closed(id)));
    assert_eq!(next(&mut m), None);
    // The handle is not given out again.
    m.udp_feed(&first(b"cccc", ESTABLISH), 90, 3, &mut rng, &mut slots).unwrap();
    match next(&mut m) {
        Some(ServerEvent::Http { conn, .. }) => assert!(conn.0 > id.0),
        other => panic!("{:?}", other),
    }
    assert!(m.is_closed(id));
}
