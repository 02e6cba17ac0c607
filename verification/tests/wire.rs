//! Tests of the wire formats.

use milli_http::bytes::HeaderField;
use milli_http::error::{Error, H2Error};
use milli_http::h2::connection::{H2Connection, H2Event};
use milli_http::h2::flow_control::FlowController;
use milli_http::h2::frame;
use milli_http::h2::frame::{H2Frame, H2FrameHeader, FRAME_DATA, FRAME_SETTINGS};
use milli_http::h2::settings::H2Settings;
use milli_http::h2_tls::map_h2_event;
use milli_http::hpack::codec::{HpackDecoder, HpackEncoder};
use milli_http::hpack::{huffman, integer};
use milli_http::http::headers::{request_headers, response_headers, HeaderList};
use milli_http::http::server_conn::HttpEvent;
use milli_http::http::{earlier_deadline, StatusCode};
use milli_http::http1::connection::{Http1Connection, Http1Event};
use milli_http::http1::server::map_http1_event;
use milli_http::io::IoBufs;
use milli_http::quic;

fn field(name: &[u8], value: &[u8]) -> HeaderField {
    HeaderField { name: name.to_vec(), value: value.to_vec() }
}

fn same(a: &[HeaderField], b: &[HeaderField]) -> bool {
    a.len() == b.len()
        && a.iter().zip(b.iter()).all(|(x, y)| x.name == y.name && x.value == y.value)
}

// Integers (RFC 7541, appendix C.1).

#[test]
fn integers_have_the_documented_bytes() {
    assert_eq!(integer::encode_integer(10, 5, 0), vec![0x0a]);
    assert_eq!(integer::encode_integer(1337, 5, 0), vec![0x1f, 0x9a, 0x0a]);
    assert_eq!(integer::encode_integer(42, 8, 0), vec![0x2a]);
    assert_eq!(integer::encode_integer(2, 7, 0x80), vec![0x82]);
}

#[test]
fn integers_are_read_back() {
    for prefix in 1..9u8 {
        for value in [0u64, 1, 30, 31, 127, 128, 255, 256, 16383, 16384, 1 << 20] {
            let bytes = integer::encode_integer(value, prefix, 0);
            assert_eq!(integer::decode_integer(&bytes, prefix), Ok((value, bytes.len())));
        }
    }
}

#[test]
fn truncated_integers_are_refused() {
    assert!(integer::decode_integer(&[], 5).is_err());
    assert!(integer::decode_integer(&[0x1f], 5).is_err());
    assert!(integer::decode_integer(&[0x1f, 0x9a], 5).is_err());
}

// Huffman (RFC 7541, appendix C.4).

#[test]
fn huffman_strings_are_decoded() {
    let src = [0xf1, 0xe3, 0xc2, 0xe5, 0xf2, 0x3a, 0x6b, 0xa0, 0xab, 0x90, 0xf4, 0xff];
    assert_eq!(huffman::decode(&src, 64), Ok(b"www.example.com".to_vec()));
    let src = [0xa8, 0xeb, 0x10, 0x64, 0x9c, 0xbf];
    assert_eq!(huffman::decode(&src, 64), Ok(b"no-cache".to_vec()));
    assert!(huffman::decode(&src, 4).is_err());
}

#[test]
fn huffman_request_is_decoded() {
    // RFC 7541, C.4.1.
    let src = [
        0x82, 0x86, 0x84, 0x41, 0x8c, 0xf1, 0xe3, 0xc2, 0xe5, 0xf2, 0x3a, 0x6b, 0xa0, 0xab, 0x90,
        0xf4, 0xff,
    ];
    let mut out = Vec::new();
    let n = HpackDecoder::new().decode(&src, &mut out).unwrap();
    assert_eq!(n, src.len());
    assert!(same(
        &out,
        &[
            field(b":method", b"GET"),
            field(b":scheme", b"http"),
            field(b":path", b"/"),
            field(b":authority", b"www.example.com"),
        ],
    ));
}

#[test]
fn encoded_headers_are_read_back() {
    let headers: &[(&[u8], &[u8])] = &[
        (b":status", b"204"),
        (b"content-type", b"text/plain"),
        (b"x-empty", b""),
        (b"x-binary", &[0, 255, 128]),
    ];
    let mut buf = [0u8; 256];
    let n = HpackEncoder::new().encode(headers, &mut buf).unwrap();
    let mut out = Vec::new();
    assert_eq!(HpackDecoder::new().decode(&buf[..n], &mut out), Ok(n));
    assert_eq!(out.len(), headers.len());
    for (f, h) in out.iter().zip(headers.iter()) {
        assert_eq!((f.name.as_slice(), f.value.as_slice()), *h);
    }
}

// Frames.

#[test]
fn frame_headers_have_nine_bytes() {
    let h = H2FrameHeader { length: 0x010203, frame_type: 4, flags: 5, stream_id: 0x7fff_fffe };
    let bytes = frame::encode_frame_header(&h);
    assert_eq!(bytes, vec![1, 2, 3, 4, 5, 0x7f, 0xff, 0xff, 0xfe]);
    let back = frame::decode_frame_header(&bytes);
    assert_eq!(back.length, h.length);
    assert_eq!(back.frame_type, h.frame_type);
    assert_eq!(back.flags, h.flags);
    assert_eq!(back.stream_id, h.stream_id);
}

#[test]
fn the_reserved_bit_of_a_stream_id_is_ignored() {
    let back = frame::decode_frame_header(&[0, 0, 0, 0, 0, 0x80, 0, 0, 1]);
    assert_eq!(back.stream_id, 1);
}

#[test]
fn window_update_frames_have_the_documented_bytes() {
    let mut buf = [0u8; 16];
    let f = H2Frame::WindowUpdate { stream_id: 3, increment: 1000 };
    assert_eq!(frame::encode_frame(&f, &mut buf), Ok(13));
    assert_eq!(buf[..13], [0, 0, 4, 8, 0, 0, 0, 0, 3, 0, 0, 3, 0xe8]);
}

#[test]
fn a_frame_that_does_not_fit_is_refused() {
    let mut buf = [0u8; 12];
    let f = H2Frame::WindowUpdate { stream_id: 3, increment: 1000 };
    assert_eq!(frame::encode_frame(&f, &mut buf), Err(Error::BufferTooSmall { needed: 13 }));
}

#[test]
fn settings_are_read_back() {
    let mut payload = Vec::new();
    frame::encode_setting(3, 100, &mut payload);
    frame::encode_setting(4, 65536, &mut payload);
    assert_eq!(payload, vec![0, 3, 0, 0, 0, 100, 0, 4, 0, 1, 0, 0]);
    assert_eq!(frame::decode_settings_params(&payload), Ok(vec![(3, 100), (4, 65536)]));
    assert!(frame::decode_settings_params(&payload[..11]).is_err());
}

#[test]
fn settings_are_validated() {
    let mut s = H2Settings::default();
    assert_eq!(s.apply(2, 1), Ok(()));
    assert_eq!(s.apply(2, 2), Err(Error::Http2(H2Error::ProtocolError)));
    assert_eq!(s.apply(4, 0x7fff_ffff), Ok(()));
    assert_eq!(s.apply(4, 0x8000_0000), Err(Error::Http2(H2Error::FlowControlError)));
    assert_eq!(s.apply(5, 16383), Err(Error::Http2(H2Error::ProtocolError)));
    assert_eq!(s.apply(5, 16384), Ok(()));
    assert_eq!(s.apply(5, 16_777_215), Ok(()));
    assert_eq!(s.apply(5, 16_777_216), Err(Error::Http2(H2Error::ProtocolError)));
    assert_eq!(s.apply(0x77, 5), Ok(()));
    assert_eq!(s.initial_window_size, 0x7fff_ffff);
    assert_eq!(s.max_frame_size, 16_777_215);
}

#[test]
fn announced_settings_are_what_the_peer_applies() {
    let mut ours = H2Settings::default();
    ours.apply(3, 7).unwrap();
    ours.apply(4, 4096).unwrap();
    let mut buf = [0u8; 64];
    let n = ours.encode_params(&mut buf).unwrap();
    let mut theirs = H2Settings::default();
    assert_eq!(theirs.apply_payload(&buf[..n]), Ok(()));
    assert_eq!(theirs.max_concurrent_streams, 7);
    assert_eq!(theirs.initial_window_size, 4096);
    assert!(ours.encode_params(&mut [0u8; 5]).is_err());
}

// Flow control.

#[test]
fn settings_may_be_applied_in_any_order() {
    let sent = H2Settings {
        header_table_size: 1,
        enable_push: false,
        max_concurrent_streams: 2,
        initial_window_size: 3,
        max_frame_size: 20000,
        max_header_list_size: 4,
    };
    let mut buf = [0u8; 64];
    let n = sent.encode_params(&mut buf).unwrap();
    assert_eq!(n, 36);
    let mut got = H2Settings { enable_push: true, ..H2Settings::default() };
    for k in [4usize, 0, 5, 2, 1, 3] {
        let p = &buf[6 * k..6 * k + 6];
        let id = u16::from_be_bytes([p[0], p[1]]);
        let value = u32::from_be_bytes([p[2], p[3], p[4], p[5]]);
        got.apply(id, value).unwrap();
    }
    assert_eq!(got, sent);
}

#[test]
fn windows_shrink_and_grow() {
    let mut w = FlowController::new(100);
    assert_eq!(w.consume(60), Ok(()));
    assert_eq!(w.window(), 40);
    assert_eq!(w.consume(41), Err(Error::Http2(H2Error::FlowControlError)));
    assert_eq!(w.window(), 40);
    assert_eq!(w.replenish(10), Ok(()));
    assert_eq!(w.window(), 50);
    assert_eq!(w.replenish(0x7fff_ffff), Err(Error::Http2(H2Error::FlowControlError)));
}

#[test]
fn oversized_frames_are_refused() {
    let mut server = H2Connection::<4, 256, 256>::new_server();
    let mut io = IoBufs::<4096>::new();
    let mut bytes = b"PRI * HTTP/2.0\r\n\r\nSM\r\n\r\n".to_vec();
    bytes.extend_from_slice(&[0, 0x40, 1, FRAME_DATA, 0, 0, 0, 0, 1]);
    assert_eq!(server.feed_data(&mut io, &bytes), Err(Error::Http2(H2Error::FrameSizeError)));
}

#[test]
fn a_wrong_preface_is_refused() {
    let mut server = H2Connection::<4, 256, 256>::new_server();
    let mut io = IoBufs::<4096>::new();
    assert_eq!(server.feed_data(&mut io, b"PRI * HTTP/1"), Err(Error::InvalidState));
}

#[test]
fn a_preface_may_come_in_pieces() {
    let mut server = H2Connection::<4, 256, 256>::new_server();
    let mut io = IoBufs::<4096>::new();
    for b in b"PRI * HTTP/2.0\r\n\r\nSM\r\n\r\n" {
        assert_eq!(server.feed_data(&mut io, &[*b]), Ok(()));
    }
    assert_eq!(server.feed_data(&mut io, &[0, 0, 0, FRAME_SETTINGS, 0, 0, 0, 0, 0]), Ok(()));
    assert_eq!(server.poll_event(), Some(H2Event::Connected));
    assert_eq!(server.poll_event(), None);
}

#[test]
fn output_chunks_are_consecutive() {
    let mut whole = H2Connection::<4, 256, 256>::new_client();
    let mut io = IoBufs::<4096>::new();
    let mut buf = [0u8; 4096];
    let all = whole.poll_output(&mut io, &mut buf).unwrap().to_vec();
    let mut pieces = H2Connection::<4, 256, 256>::new_client();
    let mut io = IoBufs::<4096>::new();
    let mut small = [0u8; 7];
    let mut got = Vec::new();
    while let Some(chunk) = pieces.poll_output(&mut io, &mut small) {
        got.extend_from_slice(chunk);
    }
    assert_eq!(got, all);
}

#[test]
fn stream_ids_are_odd_and_grow() {
    let mut client = H2Connection::<8, 256, 256>::new_client();
    let mut io = IoBufs::<4096>::new();
    let req: &[(&[u8], &[u8])] = &[(b":method", b"GET")];
    for id in [1u64, 3, 5, 7] {
        assert_eq!(client.open_stream(&mut io, req, true), Ok(id));
    }
}

#[test]
fn events_beyond_the_limit_push_out_the_oldest() {
    let mut server = H2Connection::<4, 256, 256>::new_server();
    let mut io = IoBufs::<4096>::new();
    server.feed_data(&mut io, b"PRI * HTTP/2.0\r\n\r\nSM\r\n\r\n").unwrap();
    for k in 0..70u8 {
        let goaway = [0, 0, 8, 7, 0, 0, 0, 0, 0, 0, 0, 0, 0, 0, 0, 0, k];
        server.feed_data(&mut io, &goaway).unwrap();
    }
    let mut count: u32 = 0;
    let mut expected: u32 = 6;
    while let Some(ev) = server.poll_event() {
        assert_eq!(ev, H2Event::GoAway(0, expected));
        expected += 1;
        count += 1;
    }
    assert_eq!(count, 64);
}

/// Hands what waits at one end to the other.
fn carry(
    from: &mut H2Connection<4, 256, 256>,
    from_io: &mut IoBufs<4096>,
    to: &mut H2Connection<4, 256, 256>,
    to_io: &mut IoBufs<4096>,
) {
    let mut buf = [0u8; 4096];
    while let Some(chunk) = from.poll_output(from_io, &mut buf) {
        let bytes = chunk.to_vec();
        to.feed_data(to_io, &bytes).unwrap();
    }
}

#[test]
fn what_one_end_sends_the_other_receives() {
    let mut client = H2Connection::<4, 256, 256>::new_client();
    let mut cio = IoBufs::<4096>::new();
    let mut server = H2Connection::<4, 256, 256>::new_server();
    let mut sio = IoBufs::<4096>::new();
    let req: &[(&[u8], &[u8])] = &[(b":method", b"PUT"), (b":path", b"/a"), (b"x", b"y")];
    carry(&mut client, &mut cio, &mut server, &mut sio);
    carry(&mut server, &mut sio, &mut client, &mut cio);
    assert_eq!(server.poll_event(), Some(H2Event::Connected));
    let id = client.open_stream(&mut cio, req, false).unwrap();
    carry(&mut client, &mut cio, &mut server, &mut sio);
    assert_eq!(server.poll_event(), Some(H2Event::Headers(id)));
    assert_eq!(server.poll_event(), None);
    let mut fields = Vec::new();
    server.recv_headers(id, &mut fields).unwrap();
    assert!(same(
        &fields,
        &[field(b":method", b"PUT"), field(b":path", b"/a"), field(b"x", b"y")]
    ));
    assert_eq!(client.send_data(&mut cio, id, b"one ", false), Ok(4));
    carry(&mut client, &mut cio, &mut server, &mut sio);
    assert_eq!(client.send_data(&mut cio, id, b"two", true), Ok(3));
    carry(&mut client, &mut cio, &mut server, &mut sio);
    assert_eq!(server.poll_event(), Some(H2Event::Data(id)));
    assert_eq!(server.poll_event(), Some(H2Event::Data(id)));
    assert_eq!(server.poll_event(), Some(H2Event::Finished(id)));
    let mut buf = [0u8; 64];
    assert_eq!(server.recv_body(&mut sio, id, &mut buf), Ok((7, true)));
    assert_eq!(&buf[..7], b"one two");
}

#[test]
fn a_stream_that_both_ends_ended_without_a_body_is_gone() {
    let mut client = H2Connection::<4, 256, 256>::new_client();
    let mut cio = IoBufs::<4096>::new();
    let mut server = H2Connection::<4, 256, 256>::new_server();
    let mut sio = IoBufs::<4096>::new();
    carry(&mut client, &mut cio, &mut server, &mut sio);
    carry(&mut server, &mut sio, &mut client, &mut cio);
    assert_eq!(client.poll_event(), Some(H2Event::Connected));
    let id = client.open_stream(&mut cio, &[(b":method", b"GET")], true).unwrap();
    carry(&mut client, &mut cio, &mut server, &mut sio);
    server.send_headers(&mut sio, id, &[(b":status", b"204")], true).unwrap();
    carry(&mut server, &mut sio, &mut client, &mut cio);
    assert_eq!(client.poll_event(), Some(H2Event::Headers(id)));
    assert_eq!(client.poll_event(), Some(H2Event::Finished(id)));
    let mut fields = Vec::new();
    assert_eq!(client.recv_headers(id, &mut fields), Err(Error::InvalidState));
}

// HTTP/1.1 messages.

/// Hands what waits at one end to the other.
fn hand_over(
    from: &mut Http1Connection<256, 256>,
    from_io: &mut IoBufs<1024>,
    to: &mut Http1Connection<256, 256>,
    to_io: &mut IoBufs<1024>,
) -> Vec<u8> {
    let mut buf = [0u8; 1024];
    let mut all = Vec::new();
    while let Some(chunk) = from.poll_output(from_io, &mut buf) {
        all.extend_from_slice(chunk);
    }
    to.feed_data(to_io, &all).unwrap();
    all
}

#[test]
fn messages_reach_the_other_end() {
    let mut client = Http1Connection::<256, 256>::new_client();
    let mut cio = IoBufs::<1024>::new();
    let mut server = Http1Connection::<256, 256>::new_server();
    let mut sio = IoBufs::<1024>::new();
    let req: &[(&[u8], &[u8])] = &[
        (b":method", b"POST"),
        (b":path", b"/a"),
        (b":authority", b"h"),
        (b"content-length", b"3"),
    ];
    assert_eq!(client.open_stream(&mut cio, req, false), Ok(1));
    assert_eq!(client.send_data(&mut cio, 1, b"abc", true), Ok(3));
    let sent = hand_over(&mut client, &mut cio, &mut server, &mut sio);
    assert_eq!(&sent, b"POST /a HTTP/1.1\r\nhost: h\r\ncontent-length: 3\r\n\r\nabc");
    assert_eq!(server.poll_event(), Some(Http1Event::Connected));
    assert_eq!(server.poll_event(), Some(Http1Event::Headers(1)));
    assert_eq!(server.poll_event(), Some(Http1Event::Data(1)));
    assert_eq!(server.poll_event(), Some(Http1Event::Finished(1)));
    let mut fields = Vec::new();
    server.recv_headers(1, &mut fields).unwrap();
    assert!(same(
        &fields,
        &[
            field(b":method", b"POST"),
            field(b":path", b"/a"),
            field(b"host", b"h"),
            field(b"content-length", b"3"),
        ]
    ));
    let mut buf = [0u8; 16];
    assert_eq!(server.recv_body(1, &mut buf), Ok((3, true)));
    assert_eq!(&buf[..3], b"abc");

    let answer: &[(&[u8], &[u8])] = &[(b":status", b"200"), (b"content-length", b"2")];
    server.send_headers(&mut sio, 1, answer, false).unwrap();
    assert_eq!(server.send_data(&mut sio, 1, b"ok", true), Ok(2));
    hand_over(&mut server, &mut sio, &mut client, &mut cio);
    let mut fields = Vec::new();
    client.recv_headers(1, &mut fields).unwrap();
    assert!(same(&fields, &[field(b":status", b"200"), field(b"content-length", b"2")]));
    assert_eq!(client.recv_body(1, &mut buf), Ok((2, true)));
    assert_eq!(&buf[..2], b"ok");
}

// Header lists.

#[test]
fn header_lists_hold_twenty_fields() {
    let mut list = HeaderList::new();
    for _ in 0..20 {
        assert_eq!(list.push(b"n", b"v"), Ok(()));
    }
    assert_eq!(list.push(b"n", b"v"), Err(Error::TooManyHeaders));
    assert_eq!(list.as_slice().len(), 20);
    assert_eq!(list.as_slice()[19], (&b"n"[..], &b"v"[..]));
}

#[test]
fn a_full_header_list_keeps_what_fitted() {
    let mut list = HeaderList::new();
    for _ in 0..19 {
        list.push(b"n", b"v").unwrap();
    }
    assert_eq!(list.extend(&[(b"a", b"1"), (b"b", b"2")]), Err(Error::TooManyHeaders));
    assert_eq!(list.as_slice().len(), 20);
    assert_eq!(list.as_slice()[19], (&b"a"[..], &b"1"[..]));
}

#[test]
fn pseudo_headers_come_first() {
    let list = response_headers(b"404", &[(b"a", b"1"), (b"b", b"2")]).unwrap();
    assert_eq!(
        list.as_slice(),
        &[(&b":status"[..], &b"404"[..]), (&b"a"[..], &b"1"[..]), (&b"b"[..], &b"2"[..])]
    );
    let list = request_headers(b"GET", b"/x", true, b"host", &[(b"a", b"1")]).unwrap();
    assert_eq!(list.as_slice().len(), 5);
    assert_eq!(list.as_slice()[0], (&b":method"[..], &b"GET"[..]));
    assert_eq!(list.as_slice()[4], (&b"a"[..], &b"1"[..]));
}

// Smaller things.

#[test]
fn status_codes_have_three_digits() {
    assert_eq!(&StatusCode(200).to_bytes(), b"200");
    assert_eq!(&StatusCode(404).to_bytes(), b"404");
    assert_eq!(&StatusCode(7).to_bytes(), b"007");
}

#[test]
fn the_earlier_deadline_counts() {
    assert_eq!(earlier_deadline(None, None), None);
    assert_eq!(earlier_deadline(Some(5), None), Some(5));
    assert_eq!(earlier_deadline(None, Some(6)), Some(6));
    assert_eq!(earlier_deadline(Some(5), Some(4)), Some(4));
}

#[test]
fn events_are_unified() {
    assert_eq!(map_h2_event(H2Event::Connected), HttpEvent::Connected);
    assert_eq!(map_h2_event(H2Event::Headers(3)), HttpEvent::Headers(3));
    assert_eq!(map_h2_event(H2Event::Data(3)), HttpEvent::Data(3));
    assert_eq!(map_h2_event(H2Event::Finished(3)), HttpEvent::Finished(3));
    assert_eq!(map_h2_event(H2Event::Timeout), HttpEvent::Timeout);
    assert_eq!(map_http1_event(Http1Event::Connected), HttpEvent::Connected);
    assert_eq!(map_http1_event(Http1Event::Headers(1)), HttpEvent::Headers(1));
    assert_eq!(map_http1_event(Http1Event::Data(1)), HttpEvent::Data(1));
    assert_eq!(map_http1_event(Http1Event::Finished(1)), HttpEvent::Finished(1));
    assert_eq!(map_http1_event(Http1Event::Timeout), HttpEvent::Timeout);
}

#[test]
fn destinations_are_read_from_datagrams() {
    // A long header: flags, version, length of the ID, the ID.
    let long = [0xc3, 0, 0, 0, 1, 4, 9, 8, 7, 6, 0, 0];
    assert_eq!(quic::decode_dcid(&long, 8), Some(&[9u8, 8, 7, 6][..]));
    // A short header: flags, an ID of the length that we use.
    let short = [0x43, 1, 2, 3, 4, 5, 6, 7, 8, 0xff];
    assert_eq!(quic::decode_dcid(&short, 8), Some(&[1u8, 2, 3, 4, 5, 6, 7, 8][..]));
    assert_eq!(quic::decode_dcid(&[], 8), None);
    assert_eq!(quic::decode_dcid(&short[..5], 8), None);
    assert_eq!(quic::decode_dcid(&long[..7], 8), None);
}
