//! Tests of the runner, with sockets in memory.

use std::cell::RefCell;
use std::collections::VecDeque;
use std::rc::Rc;

use milli_http::http::server_conn::HttpEvent;
use milli_http::quic::{NoPool, NoQuic};
use milli_http::server::manager::ServerManager;
use milli_http::server::runner::ServerRunner;
use milli_http::server::{ConnId, ServerConfig, ServerEvent};
use milli_http::tls::{PlainSession, ServerTlsConfig};
use milli_http::transport::{
    AcceptHistory, Context, DrawHistory, NoUdp, Poll, Rng, SocketHistory, StreamHistory, TcpAccept,
    TcpStream, UdpSocket,
};

/// What the other end of a stream sees.
struct Pipe {
    incoming: VecDeque<Vec<u8>>,
    ended: bool,
    broken: bool,
    taken: Vec<u8>,
    room: usize,
    /// How often it was read from and written to.
    reads: usize,
    writes: usize,
}

#[derive(Clone)]
struct Stream(Rc<RefCell<Pipe>>);

impl Stream {
    fn new() -> Self {
        Stream(Rc::new(RefCell::new(Pipe {
            incoming: VecDeque::new(),
            ended: false,
            broken: false,
            taken: Vec::new(),
            room: usize::MAX,
            reads: 0,
            writes: 0,
        })))
    }

    fn send(&self, data: &[u8]) {
        self.0.borrow_mut().incoming.push_back(data.to_vec());
    }
}

impl TcpStream for Stream {
    type Error = ();

    fn history(&self) -> StreamHistory {
        unreachable!()
    }

    fn poll_read(&mut self, _cx: &mut Context, buf: &mut [u8]) -> Poll<Result<usize, ()>> {
        let mut pipe = self.0.borrow_mut();
        pipe.reads += 1;
        if pipe.broken {
            return Poll::Ready(Err(()));
        }
        match pipe.incoming.pop_front() {
            Some(data) => {
                buf[..data.len()].copy_from_slice(&data);
                Poll::Ready(Ok(data.len()))
            }
            None if pipe.ended => Poll::Ready(Ok(0)),
            None => Poll::Pending,
        }
    }

    fn poll_write(&mut self, _cx: &mut Context, buf: &[u8]) -> Poll<Result<usize, ()>> {
        let mut pipe = self.0.borrow_mut();
        pipe.writes += 1;
        if pipe.broken {
            return Poll::Ready(Err(()));
        }
        let n = buf.len().min(pipe.room);
        if n == 0 {
            return Poll::Pending;
        }
        pipe.taken.extend_from_slice(&buf[..n]);
        pipe.room -= n;
        Poll::Ready(Ok(n))
    }
}

struct Listener(VecDeque<Stream>);

impl TcpAccept for Listener {
    type Stream = Stream;
    type Error = ();

    fn accepts(&self) -> AcceptHistory {
        unreachable!()
    }

    fn poll_accept(&mut self, _cx: &mut Context) -> Poll<Result<Stream, ()>> {
        match self.0.pop_front() {
            Some(s) => Poll::Ready(Ok(s)),
            None => Poll::Pending,
        }
    }
}

/// A socket that receives what it is given.
struct Datagrams(VecDeque<Vec<u8>>);

impl UdpSocket for Datagrams {
    type Addr = u32;
    type Error = ();

    fn history(&self) -> SocketHistory<u32> {
        unreachable!()
    }

    fn poll_recv_from(
        &mut self,
        _cx: &mut Context,
        buf: &mut [u8],
    ) -> Poll<Result<(usize, u32), ()>> {
        match self.0.pop_front() {
            Some(d) => {
                buf[..d.len()].copy_from_slice(&d);
                Poll::Ready(Ok((d.len(), 7)))
            }
            None => Poll::Pending,
        }
    }

    fn poll_send_to(&mut self, _cx: &mut Context, _buf: &[u8], _addr: &u32) -> Poll<Result<(), ()>> {
        Poll::Ready(Ok(()))
    }
}

struct Zeros;

impl Rng for Zeros {
    fn drawn(&self) -> DrawHistory {
        unreachable!()
    }

    fn fill(&mut self, buf: &mut [u8]) {
        for b in buf.iter_mut() {
            *b = 0;
        }
    }
}

fn manager() -> ServerManager<PlainSession, NoQuic, u32, 4096> {
    ServerManager::new(
        ServerTlsConfig {
            cert_der: Vec::new(),
            private_key_der: Vec::new(),
            alpn_protocols: vec![b"http/1.1".to_vec()],
        },
        ServerConfig::default(),
    )
}

#[test]
fn a_request_is_answered() {
    let stream = Stream::new();
    let mut listener = Listener(VecDeque::from(vec![stream.clone()]));
    let (mut udp, mut rng, mut pool) = (NoUdp::<u32>::new(), Zeros, NoPool);
    let mut runner =
        ServerRunner::new(manager(), None, Some(&mut listener), &mut udp, &mut rng, &mut pool);
    stream.send(b"GET /a HTTP/1.1\r\nHost: h\r\n\r\n");
    let mut headers = None;
    let mut cx = Context::new();
    for _ in 0..8 {
        if let Poll::Ready(ServerEvent::Http { conn, event: HttpEvent::Headers(s) }) =
            runner.poll_event(&mut cx, 0)
        {
            headers = Some((conn, s));
        }
    }
    let (id, s) = headers.unwrap();
    runner.manager.recv_headers(id, s, &mut Vec::new()).unwrap();
    runner.manager.send_response(id, s, 200, &[(b"content-length", b"2")], false).unwrap();
    runner.manager.send_body(id, s, b"ok", true).unwrap();
    let _ = runner.poll_event(&mut cx, 1);
    let taken = stream.0.borrow().taken.clone();
    assert!(taken.starts_with(b"HTTP/1.1 200 OK\r\n"));
    assert!(taken.ends_with(b"\r\n\r\nok"));
}

#[test]
fn slow_sockets_get_everything_in_order() {
    let stream = Stream::new();
    stream.0.borrow_mut().room = 0;
    let mut listener = Listener(VecDeque::from(vec![stream.clone()]));
    let (mut udp, mut rng, mut pool) = (NoUdp::<u32>::new(), Zeros, NoPool);
    let mut runner =
        ServerRunner::new(manager(), None, Some(&mut listener), &mut udp, &mut rng, &mut pool);
    stream.send(b"GET /a HTTP/1.1\r\nHost: h\r\n\r\n");
    let mut cx = Context::new();
    for _ in 0..8 {
        let _ = runner.poll_event(&mut cx, 0);
    }
    let id = ConnId(0);
    runner.manager.recv_headers(id, 1, &mut Vec::new()).unwrap();
    runner.manager.send_response(id, 1, 200, &[(b"content-length", b"10")], false).unwrap();
    runner.manager.send_body(id, 1, b"0123456789", true).unwrap();
    for _ in 0..200 {
        let mut cx = Context::new();
        match runner.poll_event(&mut cx, 0) {
            // Output is left, so another poll is asked for.
            Poll::Pending if stream.0.borrow().taken.ends_with(b"0123456789") => break,
            Poll::Pending => assert!(cx.wake_requested),
            Poll::Ready(_) => {}
        }
        stream.0.borrow_mut().room = 1;
    }
    let taken = stream.0.borrow().taken.clone();
    assert!(taken.starts_with(b"HTTP/1.1 200 OK\r\n"));
    assert!(taken.ends_with(b"\r\n\r\n0123456789"));
}

#[test]
fn the_end_of_a_stream_closes_its_connection() {
    let stream = Stream::new();
    let mut listener = Listener(VecDeque::from(vec![stream.clone()]));
    let (mut udp, mut rng, mut pool) = (NoUdp::<u32>::new(), Zeros, NoPool);
    let mut runner =
        ServerRunner::new(manager(), Some(&mut listener), None, &mut udp, &mut rng, &mut pool);
    let mut cx = Context::new();
    assert!(matches!(runner.poll_event(&mut cx, 0), Poll::Pending));
    assert_eq!(runner.next_timeout(), Some(10_000_000));
    assert_eq!(runner.tcp_conns.len(), 1);
    stream.0.borrow_mut().ended = true;
    assert!(matches!(
        runner.poll_event(&mut cx, 0),
        Poll::Ready(ServerEvent::Closed(ConnId(0)))
    ));
    assert_eq!(runner.tcp_conns.len(), 0);
    assert!(matches!(runner.poll_event(&mut cx, 0), Poll::Pending));
    assert!(!cx.wake_requested);
}

#[test]
fn a_broken_socket_closes_its_connection() {
    let stream = Stream::new();
    let mut listener = Listener(VecDeque::from(vec![stream.clone()]));
    let (mut udp, mut rng, mut pool) = (NoUdp::<u32>::new(), Zeros, NoPool);
    let mut runner =
        ServerRunner::new(manager(), Some(&mut listener), None, &mut udp, &mut rng, &mut pool);
    let mut cx = Context::new();
    assert!(matches!(runner.poll_event(&mut cx, 0), Poll::Pending));
    stream.0.borrow_mut().broken = true;
    assert!(matches!(
        runner.poll_event(&mut cx, 0),
        Poll::Ready(ServerEvent::Closed(ConnId(0)))
    ));
    assert_eq!(runner.tcp_conns.len(), 0);
}

#[test]
fn bad_data_closes_its_connection() {
    let stream = Stream::new();
    let mut listener = Listener(VecDeque::from(vec![stream.clone()]));
    let (mut udp, mut rng, mut pool) = (NoUdp::<u32>::new(), Zeros, NoPool);
    let mut runner =
        ServerRunner::new(manager(), Some(&mut listener), None, &mut udp, &mut rng, &mut pool);
    let mut cx = Context::new();
    stream.send(&[0xff]);
    assert!(matches!(
        runner.poll_event(&mut cx, 0),
        Poll::Ready(ServerEvent::Closed(ConnId(0)))
    ));
}

#[test]
fn reads_are_bounded_per_cycle() {
    let stream = Stream::new();
    let mut listener = Listener(VecDeque::from(vec![stream.clone()]));
    let (mut udp, mut rng, mut pool) = (NoUdp::<u32>::new(), Zeros, NoPool);
    let mut runner =
        ServerRunner::new(manager(), None, Some(&mut listener), &mut udp, &mut rng, &mut pool);
    for _ in 0..6 {
        stream.send(b"G");
    }
    let mut cx = Context::new();
    let _ = runner.poll_event(&mut cx, 0);
    assert_eq!(stream.0.borrow().incoming.len(), 2);
    let mut cx = Context::new();
    while let Poll::Ready(_) = runner.poll_event(&mut cx, 0) {}
    assert_eq!(stream.0.borrow().incoming.len(), 0);
}

#[test]
fn refused_datagrams_are_counted() {
    let mut udp = Datagrams(VecDeque::from(vec![vec![0xc3, 0, 0, 0, 1, 1, 9, 0]; 10]));
    let (mut rng, mut pool) = (Zeros, NoPool);
    let mut runner: ServerRunner<'_, PlainSession, NoQuic, Listener, Datagrams, Zeros, u32, NoPool, 4096> =
        ServerRunner::new(manager(), None, None, &mut udp, &mut rng, &mut pool);
    let mut cx = Context::new();
    assert!(matches!(runner.poll_event(&mut cx, 0), Poll::Pending));
    assert_eq!(runner.udp_feed_errors, 8);
    assert!(cx.wake_requested);
    let mut cx = Context::new();
    assert!(matches!(runner.poll_event(&mut cx, 0), Poll::Pending));
    assert_eq!(runner.udp_feed_errors, 10);
    assert_eq!(runner.udp_send_errors, 0);
    assert!(!cx.wake_requested);
}

#[test]
fn every_stream_is_asked_in_every_cycle() {
    let stream = Stream::new();
    let mut listener = Listener(VecDeque::from(vec![stream.clone()]));
    let (mut udp, mut rng, mut pool) = (NoUdp::<u32>::new(), Zeros, NoPool);
    let mut runner =
        ServerRunner::new(manager(), None, Some(&mut listener), &mut udp, &mut rng, &mut pool);
    let mut cx = Context::new();
    // Nothing to read: asked once.
    let _ = runner.poll_event(&mut cx, 0);
    assert_eq!(stream.0.borrow().reads, 1);
    // Two chunks: asked until there is none.
    stream.send(b"G");
    stream.send(b"E");
    let _ = runner.poll_event(&mut cx, 0);
    assert_eq!(stream.0.borrow().reads, 4);
    // More than may be read in one cycle.
    for _ in 0..6 {
        stream.send(b"T");
    }
    let _ = runner.poll_event(&mut cx, 0);
    assert_eq!(stream.0.borrow().reads, 8);
}

#[test]
fn a_stream_that_ended_is_not_read_again() {
    let stream = Stream::new();
    let mut listener = Listener(VecDeque::from(vec![stream.clone()]));
    let (mut udp, mut rng, mut pool) = (NoUdp::<u32>::new(), Zeros, NoPool);
    let mut runner =
        ServerRunner::new(manager(), None, Some(&mut listener), &mut udp, &mut rng, &mut pool);
    stream.0.borrow_mut().ended = true;
    let mut cx = Context::new();
    let mut closed = 0;
    for _ in 0..8 {
        if let Poll::Ready(ServerEvent::Closed(_)) = runner.poll_event(&mut cx, 0) {
            closed += 1;
        }
    }
    assert_eq!(closed, 1);
    assert_eq!(stream.0.borrow().reads, 1);
    assert_eq!(stream.0.borrow().writes, 0);
}
