//! HTTP/2 frames (RFC 9113 §4 and §6).

use vstd::prelude::*;

use crate::bytes;
use crate::error;
use crate::error::{Error, H2Error};

verus! {

pub const FRAME_HEADER_LEN: usize = 9;

pub const FRAME_DATA: u8 = 0x0;
pub const FRAME_HEADERS: u8 = 0x1;
pub const FRAME_PRIORITY: u8 = 0x2;
pub const FRAME_RST_STREAM: u8 = 0x3;
pub const FRAME_SETTINGS: u8 = 0x4;
pub const FRAME_PUSH_PROMISE: u8 = 0x5;
pub const FRAME_PING: u8 = 0x6;
pub const FRAME_GOAWAY: u8 = 0x7;
pub const FRAME_WINDOW_UPDATE: u8 = 0x8;
pub const FRAME_CONTINUATION: u8 = 0x9;

pub const FLAG_END_STREAM: u8 = 0x1;
pub const FLAG_ACK: u8 = 0x1;
pub const FLAG_END_HEADERS: u8 = 0x4;
pub const FLAG_PADDED: u8 = 0x8;
pub const FLAG_PRIORITY: u8 = 0x20;

pub const SETTINGS_HEADER_TABLE_SIZE: u16 = 0x1;
pub const SETTINGS_ENABLE_PUSH: u16 = 0x2;
pub const SETTINGS_MAX_CONCURRENT_STREAMS: u16 = 0x3;
pub const SETTINGS_INITIAL_WINDOW_SIZE: u16 = 0x4;
pub const SETTINGS_MAX_FRAME_SIZE: u16 = 0x5;
pub const SETTINGS_MAX_HEADER_LIST_SIZE: u16 = 0x6;

/// Whether a flag is set.
pub open spec fn flag_set(flags: u8, flag: u8) -> bool {
    flags & flag != 0
}

pub fn has_flag(flags: u8, flag: u8) -> (r: bool)
    ensures
        r == flag_set(flags, flag),
{
    flags & flag != 0
}

/// The fields of a frame header.
#[derive(Debug, Clone, Copy, PartialEq, Eq, Structural)]
pub struct H2FrameHeader {
    pub length: u32,
    pub frame_type: u8,
    pub flags: u8,
    pub stream_id: u64,
}

/// The stream identifier as it is sent: 31 bits.
pub open spec fn wire_id(stream_id: u64) -> u32 {
    (stream_id % 0x8000_0000) as u32
}

/// The nine bytes of a frame header.
pub open spec fn header_bytes(h: H2FrameHeader) -> Seq<u8> {
    bytes::be24(h.length as int) + seq![h.frame_type, h.flags] + bytes::be32(wire_id(h.stream_id))
}

/// A frame with its payload.
pub open spec fn frame_bytes(frame_type: u8, flags: u8, stream_id: u64, payload: Seq<u8>) -> Seq<
    u8,
> {
    header_bytes(
        H2FrameHeader { length: payload.len() as u32, frame_type, flags, stream_id },
    ) + payload
}

/// The header at the start of `s`.
pub open spec fn header_at(s: Seq<u8>) -> H2FrameHeader {
    H2FrameHeader {
        length: bytes::read24(s, 0) as u32,
        frame_type: s[3],
        flags: s[4],
        stream_id: bytes::read31(s, 5) as u64,
    }
}

/// The nine bytes of a frame header.
pub fn encode_frame_header(h: &H2FrameHeader) -> (out: Vec<u8>)
    ensures
        out@ == header_bytes(*h),
{
    let mut out: Vec<u8> = Vec::new();
    out.push((h.length / 65536 % 256) as u8);
    out.push((h.length / 256 % 256) as u8);
    out.push((h.length % 256) as u8);
    out.push(h.frame_type);
    out.push(h.flags);
    assert(out@ =~= bytes::be24(h.length as int) + seq![h.frame_type, h.flags]);
    bytes::put32(&mut out, (h.stream_id % 0x8000_0000) as u32);
    out
}

/// Reads the frame header at the start of `s`.
pub fn decode_frame_header(s: &[u8]) -> (h: H2FrameHeader)
    requires
        s@.len() >= FRAME_HEADER_LEN,
    ensures
        h == header_at(s@),
        h.length < 0x100_0000,
        h.stream_id < 0x8000_0000,
{
    H2FrameHeader {
        length: s[0] as u32 * 65536 + s[1] as u32 * 256 + s[2] as u32,
        frame_type: s[3],
        flags: s[4],
        stream_id: bytes::get31(s, 5) as u64,
    }
}

/// Frames that the library writes whole.
#[derive(Debug, Clone, Copy)]
pub enum H2Frame<'a> {
    Settings { ack: bool, params: &'a [u8] },
    Ping { data: [u8; 8], ack: bool },
    GoAway { last_stream_id: u64, error_code: u32, debug: &'a [u8] },
    WindowUpdate { stream_id: u64, increment: u32 },
    RstStream { stream_id: u64, error_code: u32 },
}

pub open spec fn settings_frame(ack: bool, params: Seq<u8>) -> Seq<u8> {
    frame_bytes(
        FRAME_SETTINGS,
        if ack {
            FLAG_ACK
        } else {
            0
        },
        0,
        params,
    )
}

pub open spec fn ping_frame(data: Seq<u8>, ack: bool) -> Seq<u8> {
    frame_bytes(
        FRAME_PING,
        if ack {
            FLAG_ACK
        } else {
            0
        },
        0,
        data,
    )
}

pub open spec fn goaway_frame(last_stream_id: u64, error_code: u32, debug: Seq<u8>) -> Seq<u8> {
    frame_bytes(
        FRAME_GOAWAY,
        0,
        0,
        bytes::be32(wire_id(last_stream_id)) + bytes::be32(error_code) + debug,
    )
}

pub open spec fn window_update_frame(stream_id: u64, increment: u32) -> Seq<u8> {
    frame_bytes(FRAME_WINDOW_UPDATE, 0, stream_id, bytes::be32(increment % 0x8000_0000))
}

pub open spec fn rst_stream_frame(stream_id: u64, error_code: u32) -> Seq<u8> {
    frame_bytes(FRAME_RST_STREAM, 0, stream_id, bytes::be32(error_code))
}

impl<'a> H2Frame<'a> {
    /// The frame as it is sent.
    pub open spec fn wire(self) -> Seq<u8> {
        match self {
            H2Frame::Settings { ack, params } => settings_frame(ack, params@),
            H2Frame::Ping { data, ack } => ping_frame(data@, ack),
            H2Frame::GoAway { last_stream_id, error_code, debug } => goaway_frame(
                last_stream_id,
                error_code,
                debug@,
            ),
            H2Frame::WindowUpdate { stream_id, increment } => window_update_frame(
                stream_id,
                increment,
            ),
            H2Frame::RstStream { stream_id, error_code } => rst_stream_frame(stream_id, error_code),
        }
    }
}

fn with_payload(frame_type: u8, flags: u8, stream_id: u64, payload: &[u8]) -> (out: Vec<u8>)
    ensures
        out@ == frame_bytes(frame_type, flags, stream_id, payload@),
{
    let mut out: Vec<u8> = encode_frame_header(
        &H2FrameHeader { length: payload.len() as u32, frame_type, flags, stream_id },
    );
    bytes::append(&mut out, payload);
    out
}

/// The bytes of a frame.
pub fn frame_to_vec(frame: &H2Frame<'_>) -> (out: Vec<u8>)
    ensures
        out@ == frame.wire(),
{
    match frame {
        H2Frame::Settings { ack, params } => with_payload(
            FRAME_SETTINGS,
            if *ack {
                FLAG_ACK
            } else {
                0
            },
            0,
            params,
        ),
        H2Frame::Ping { data, ack } => with_payload(
            FRAME_PING,
            if *ack {
                FLAG_ACK
            } else {
                0
            },
            0,
            data.as_slice(),
        ),
        H2Frame::GoAway { last_stream_id, error_code, debug } => {
            let mut payload: Vec<u8> = Vec::new();
            bytes::put32(&mut payload, (*last_stream_id % 0x8000_0000) as u32);
            bytes::put32(&mut payload, *error_code);
            bytes::append(&mut payload, debug);
            assert(payload@ =~= bytes::be32(wire_id(*last_stream_id)) + bytes::be32(*error_code)
                + debug@);
            with_payload(FRAME_GOAWAY, 0, 0, payload.as_slice())
        },
        H2Frame::WindowUpdate { stream_id, increment } => {
            let mut payload: Vec<u8> = Vec::new();
            bytes::put32(&mut payload, *increment % 0x8000_0000);
            assert(payload@ =~= bytes::be32(*increment % 0x8000_0000));
            with_payload(FRAME_WINDOW_UPDATE, 0, *stream_id, payload.as_slice())
        },
        H2Frame::RstStream { stream_id, error_code } => {
            let mut payload: Vec<u8> = Vec::new();
            bytes::put32(&mut payload, *error_code);
            assert(payload@ =~= bytes::be32(*error_code));
            with_payload(FRAME_RST_STREAM, 0, *stream_id, payload.as_slice())
        },
    }
}

/// Writes a frame to the start of `buf`. Returns its length.
pub fn encode_frame(frame: &H2Frame<'_>, buf: &mut [u8]) -> (r: Result<usize, Error>)
    ensures
        if frame.wire().len() <= old(buf)@.len() {
            &&& r == Ok::<usize, Error>(frame.wire().len() as usize)
            &&& final(buf)@ == bytes::splice(old(buf)@, 0, frame.wire())
        } else {
            &&& r == Err::<usize, Error>(error::too_small(frame.wire().len() as int))
            &&& final(buf)@ == old(buf)@
        },
{
    let out: Vec<u8> = frame_to_vec(frame);
    if out.len() > buf.len() {
        return Err(Error::BufferTooSmall { needed: out.len() });
    }
    bytes::copy_into(buf, 0, out.as_slice());
    Ok(out.len())
}

/// One settings parameter as it is sent.
pub open spec fn setting_bytes(id: u16, value: u32) -> Seq<u8> {
    bytes::be16(id) + bytes::be32(value)
}

/// Appends one settings parameter.
pub fn encode_setting(id: u16, value: u32, out: &mut Vec<u8>)
    ensures
        final(out)@ == old(out)@ + setting_bytes(id, value),
{
    bytes::put16(out, id);
    bytes::put32(out, value);
    assert(out@ =~= old(out)@ + setting_bytes(id, value));
}

/// Parameter `i` of a SETTINGS payload.
pub open spec fn setting_at(payload: Seq<u8>, i: int) -> (u16, u32) {
    (bytes::read16(payload, 6 * i) as u16, bytes::read32(payload, 6 * i + 2) as u32)
}

/// The parameters of a SETTINGS payload.
pub open spec fn settings_list(payload: Seq<u8>) -> Seq<(u16, u32)> {
    Seq::new(payload.len() / 6, |i: int| setting_at(payload, i))
}

/// Reads the parameters of a SETTINGS payload, whose length is a multiple of
/// six (RFC 9113 §6.5).
pub fn decode_settings_params(payload: &[u8]) -> (r: Result<Vec<(u16, u32)>, Error>)
    ensures
        match r {
            Ok(list) => payload@.len() % 6 == 0 && list@ == settings_list(payload@),
            Err(e) => payload@.len() % 6 != 0 && e == Error::Http2(H2Error::FrameSizeError),
        },
{
    if payload.len() % 6 != 0 {
        return Err(Error::Http2(H2Error::FrameSizeError));
    }
    let total: usize = payload.len();
    let n: usize = total / 6;
    let mut list: Vec<(u16, u32)> = Vec::new();
    let mut i: usize = 0;
    while i < n
        invariant
            i <= n,
            n == total / 6,
            total == payload@.len(),
            total % 6 == 0,
            list@.len() == i,
            forall|j: int| 0 <= j < i ==> list@[j] == setting_at(payload@, j),
        decreases n - i,
    {
        list.push((bytes::get16(payload, 6 * i), bytes::get32(payload, 6 * i + 2)));
        i = i + 1;
    }
    assert(list@ =~= settings_list(payload@));
    Ok(list)
}

/// A frame header is read back as it was written.
pub proof fn frame_header_roundtrip(h: H2FrameHeader, rest: Seq<u8>)
    requires
        h.length < 0x100_0000,
        h.stream_id < 0x8000_0000,
    ensures
        header_bytes(h).len() == FRAME_HEADER_LEN,
        header_at(header_bytes(h) + rest) == h,
{
    let s = header_bytes(h) + rest;
    let id = wire_id(h.stream_id);
    assert(s[0] == (h.length / 65536 % 256) as u8);
    assert(s[1] == (h.length / 256 % 256) as u8);
    assert(s[2] == (h.length % 256) as u8);
    assert(s[5] == (id / 16777216) as u8);
    assert(s[6] == (id / 65536 % 256) as u8);
    assert(s[7] == (id / 256 % 256) as u8);
    assert(s[8] == (id % 256) as u8);
}

/// Settings parameters are read back as they were written.
pub proof fn settings_roundtrip(list: Seq<(u16, u32)>)
    ensures
        settings_payload(list).len() == 6 * list.len(),
        settings_list(settings_payload(list)) == list,
    decreases list.len(),
{
    let p = settings_payload(list);
    if list.len() == 0 {
        assert(settings_list(p) =~= list);
    } else {
        let q = settings_payload(list.drop_last());
        settings_roundtrip(list.drop_last());
        let (id, value) = list.last();
        let n = list.len() - 1;
        assert(q.len() == 6 * n);
        assert forall|i: int| 0 <= i < n implies #[trigger] setting_at(p, i) == list[i] by {
            lemma_setting_prefix(q, setting_bytes(id, value), i);
            assert(settings_list(q)[i] == list.drop_last()[i]);
        }
        lemma_setting_read(q, id, value, n);
        assert(settings_list(p) =~= list);
    }
}

proof fn lemma_setting_prefix(q: Seq<u8>, rest: Seq<u8>, i: int)
    requires
        0 <= i,
        6 * i + 6 <= q.len(),
    ensures
        setting_at(q + rest, i) == setting_at(q, i),
{
}

proof fn lemma_setting_read(q: Seq<u8>, id: u16, value: u32, n: int)
    requires
        q.len() == 6 * n,
        n >= 0,
    ensures
        setting_at(q + setting_bytes(id, value), n) == (id, value),
{
    let p = q + setting_bytes(id, value);
    assert(p[6 * n] == (id / 256) as u8);
    assert(p[6 * n + 1] == (id % 256) as u8);
    assert(p[6 * n + 2] == (value / 16777216) as u8);
    assert(p[6 * n + 3] == (value / 65536 % 256) as u8);
    assert(p[6 * n + 4] == (value / 256 % 256) as u8);
    assert(p[6 * n + 5] == (value % 256) as u8);
}

/// The payload that carries a list of settings parameters.
pub open spec fn settings_payload(list: Seq<(u16, u32)>) -> Seq<u8>
    decreases list.len(),
{
    if list.len() == 0 {
        Seq::empty()
    } else {
        settings_payload(list.drop_last()) + setting_bytes(list.last().0, list.last().1)
    }
}

} // verus!
