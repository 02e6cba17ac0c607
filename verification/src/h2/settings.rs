//! HTTP/2 connection settings (RFC 9113 §6.5).

use vstd::prelude::*;

use super::flow_control::DEFAULT_INITIAL_WINDOW_SIZE;
use super::frame;
use super::frame::{
    SETTINGS_ENABLE_PUSH, SETTINGS_HEADER_TABLE_SIZE, SETTINGS_INITIAL_WINDOW_SIZE,
    SETTINGS_MAX_CONCURRENT_STREAMS, SETTINGS_MAX_FRAME_SIZE, SETTINGS_MAX_HEADER_LIST_SIZE,
};
use crate::bytes;
use crate::error::{Error, H2Error};

verus! {

/// HTTP/2 connection settings.
#[derive(Debug, Clone, Copy, PartialEq, Eq, Structural)]
pub struct H2Settings {
    pub header_table_size: u32,
    pub enable_push: bool,
    pub max_concurrent_streams: u32,
    pub initial_window_size: u32,
    pub max_frame_size: u32,
    pub max_header_list_size: u32,
}

impl Default for H2Settings {
    fn default() -> (r: Self)
        ensures
            r == H2Settings::initial(),
    {
        H2Settings {
            header_table_size: 0,
            enable_push: false,
            max_concurrent_streams: 128,
            initial_window_size: DEFAULT_INITIAL_WINDOW_SIZE as u32,
            max_frame_size: 16384,
            max_header_list_size: 8192,
        }
    }
}

impl H2Settings {
    /// The default settings: no dynamic table is used, and no server push.
    pub open spec fn initial() -> H2Settings {
        H2Settings {
            header_table_size: 0,
            enable_push: false,
            max_concurrent_streams: 128,
            initial_window_size: 65535,
            max_frame_size: 16384,
            max_header_list_size: 8192,
        }
    }

    /// The parameters that announce the settings. Push is announced only where
    /// it is off.
    pub open spec fn params(self) -> Seq<(u16, u32)> {
        let rest = seq![
            (SETTINGS_MAX_CONCURRENT_STREAMS, self.max_concurrent_streams),
            (SETTINGS_INITIAL_WINDOW_SIZE, self.initial_window_size),
            (SETTINGS_MAX_FRAME_SIZE, self.max_frame_size),
            (SETTINGS_MAX_HEADER_LIST_SIZE, self.max_header_list_size),
        ];
        if self.enable_push {
            seq![(SETTINGS_HEADER_TABLE_SIZE, self.header_table_size)] + rest
        } else {
            seq![
                (SETTINGS_HEADER_TABLE_SIZE, self.header_table_size),
                (SETTINGS_ENABLE_PUSH, 0u32),
            ] + rest
        }
    }

    /// The payload that announces the settings.
    pub open spec fn payload(self) -> Seq<u8> {
        frame::settings_payload(self.params())
    }

    /// The settings after one parameter (RFC 9113 §6.5.2). Unknown parameters
    /// are ignored.
    pub open spec fn with_param(self, id: u16, value: u32) -> Result<H2Settings, Error> {
        if id == SETTINGS_HEADER_TABLE_SIZE {
            Ok(H2Settings { header_table_size: value, ..self })
        } else if id == SETTINGS_ENABLE_PUSH {
            if value > 1 {
                Err(Error::Http2(H2Error::ProtocolError))
            } else {
                Ok(H2Settings { enable_push: value != 0, ..self })
            }
        } else if id == SETTINGS_MAX_CONCURRENT_STREAMS {
            Ok(H2Settings { max_concurrent_streams: value, ..self })
        } else if id == SETTINGS_INITIAL_WINDOW_SIZE {
            if value > 0x7fff_ffff {
                Err(Error::Http2(H2Error::FlowControlError))
            } else {
                Ok(H2Settings { initial_window_size: value, ..self })
            }
        } else if id == SETTINGS_MAX_FRAME_SIZE {
            if value < 16384 || value > 16_777_215 {
                Err(Error::Http2(H2Error::ProtocolError))
            } else {
                Ok(H2Settings { max_frame_size: value, ..self })
            }
        } else if id == SETTINGS_MAX_HEADER_LIST_SIZE {
            Ok(H2Settings { max_header_list_size: value, ..self })
        } else {
            Ok(self)
        }
    }

    /// The settings after the parameters of `list` from `i` on. An error ends
    /// it; what came before it stays applied.
    pub open spec fn with_params(self, list: Seq<(u16, u32)>, i: int) -> (
        H2Settings,
        Result<(), Error>,
    )
        decreases list.len() - i,
    {
        if i >= list.len() {
            (self, Ok(()))
        } else {
            match self.with_param(list[i].0, list[i].1) {
                Ok(s) => s.with_params(list, i + 1),
                Err(e) => (self, Err(e)),
            }
        }
    }

    /// The settings after a SETTINGS payload.
    pub open spec fn with_payload(self, payload: Seq<u8>) -> (H2Settings, Result<(), Error>) {
        if payload.len() % 6 != 0 {
            (self, Err(Error::Http2(H2Error::FrameSizeError)))
        } else {
            self.with_params(frame::settings_list(payload), 0)
        }
    }

    /// Values that a peer may announce.
    pub open spec fn valid(self) -> bool {
        self.initial_window_size <= 0x7fff_ffff && 16384 <= self.max_frame_size <= 16_777_215
    }

    /// The payload that announces the settings.
    pub fn params_to_vec(&self) -> (out: Vec<u8>)
        ensures
            out@ == self.payload(),
            out@.len() == 6 * self.params().len(),
    {
        let mut out: Vec<u8> = Vec::new();
        let ghost list = self.params();
        let ghost n = list.len() as int;
        proof {
            reveal_with_fuel(frame::settings_payload, 2);
            assert(list.take(0).len() == 0);
            assert(list.take(1).drop_last() =~= list.take(0));
            assert(list.take(2).drop_last() =~= list.take(1));
            assert(list.take(3).drop_last() =~= list.take(2));
            assert(list.take(4).drop_last() =~= list.take(3));
            assert(list.take(5).drop_last() =~= list.take(4));
            if n == 6 {
                assert(list.take(6).drop_last() =~= list.take(5));
            }
            assert(list.take(n) =~= list);
            frame::settings_roundtrip(list);
        }
        frame::encode_setting(SETTINGS_HEADER_TABLE_SIZE, self.header_table_size, &mut out);
        assert(out@ =~= frame::settings_payload(list.take(1)));
        if !self.enable_push {
            frame::encode_setting(SETTINGS_ENABLE_PUSH, 0, &mut out);
            assert(out@ == frame::settings_payload(list.take(2)));
        }
        frame::encode_setting(
            SETTINGS_MAX_CONCURRENT_STREAMS,
            self.max_concurrent_streams,
            &mut out,
        );
        assert(out@ == frame::settings_payload(list.take(n - 3)));
        frame::encode_setting(SETTINGS_INITIAL_WINDOW_SIZE, self.initial_window_size, &mut out);
        assert(out@ == frame::settings_payload(list.take(n - 2)));
        frame::encode_setting(SETTINGS_MAX_FRAME_SIZE, self.max_frame_size, &mut out);
        assert(out@ == frame::settings_payload(list.take(n - 1)));
        frame::encode_setting(SETTINGS_MAX_HEADER_LIST_SIZE, self.max_header_list_size, &mut out);
        out
    }

    /// Encodes the settings as a SETTINGS payload, six bytes per parameter.
    /// Where the buffer is too small, the parameters that fit are written.
    pub fn encode_params(&self, buf: &mut [u8]) -> (r: Result<usize, Error>)
        ensures
            if self.payload().len() <= old(buf)@.len() {
                &&& r == Ok::<usize, Error>(self.payload().len() as usize)
                &&& final(buf)@ == bytes::splice(old(buf)@, 0, self.payload())
            } else {
                &&& r == Err::<usize, Error>(Error::BufferTooSmall { needed: 6 })
                &&& final(buf)@ == bytes::splice(
                    old(buf)@,
                    0,
                    self.payload().take((old(buf)@.len() / 6 * 6) as int),
                )
            },
    {
        let out: Vec<u8> = self.params_to_vec();
        if out.len() <= buf.len() {
            bytes::copy_into(buf, 0, out.as_slice());
            return Ok(out.len());
        }
        let fits: usize = buf.len() / 6 * 6;
        assert(out@.subrange(0, fits as int) =~= out@.take(fits as int));
        bytes::copy_into(buf, 0, &out.as_slice()[0..fits]);
        Err(Error::BufferTooSmall { needed: 6 })
    }

    /// Applies a settings parameter with RFC 9113 §6.5.2 validation.
    pub fn apply(&mut self, id: u16, value: u32) -> (r: Result<(), Error>)
        ensures
            match old(self).with_param(id, value) {
                Ok(s) => r == Ok::<(), Error>(()) && *final(self) == s,
                Err(e) => r == Err::<(), Error>(e) && *final(self) == *old(self),
            },
    {
        if id == SETTINGS_HEADER_TABLE_SIZE {
            self.header_table_size = value;
        } else if id == SETTINGS_ENABLE_PUSH {
            if value > 1 {
                return Err(Error::Http2(H2Error::ProtocolError));
            }
            self.enable_push = value != 0;
        } else if id == SETTINGS_MAX_CONCURRENT_STREAMS {
            self.max_concurrent_streams = value;
        } else if id == SETTINGS_INITIAL_WINDOW_SIZE {
            if value > 0x7fff_ffff {
                return Err(Error::Http2(H2Error::FlowControlError));
            }
            self.initial_window_size = value;
        } else if id == SETTINGS_MAX_FRAME_SIZE {
            if value < 16384 || value > 16_777_215 {
                return Err(Error::Http2(H2Error::ProtocolError));
            }
            self.max_frame_size = value;
        } else if id == SETTINGS_MAX_HEADER_LIST_SIZE {
            self.max_header_list_size = value;
        }
        Ok(())
    }

    /// Applies a SETTINGS payload.
    pub fn apply_payload(&mut self, payload: &[u8]) -> (r: Result<(), Error>)
        ensures
            (*final(self), r) == old(self).with_payload(payload@),
    {
        let list: Vec<(u16, u32)> = frame::decode_settings_params(payload)?;
        let mut i: usize = 0;
        while i < list.len()
            invariant
                i <= list@.len(),
                payload@.len() % 6 == 0,
                list@ == frame::settings_list(payload@),
                self.with_params(list@, i as int) == old(self).with_params(list@, 0),
            decreases list@.len() - i,
        {
            let (id, value) = list[i];
            self.apply(id, value)?;
            i = i + 1;
        }
        Ok(())
    }
}

/// Settings that a peer may announce are applied back as they were announced,
/// whatever settings were in force before; only push, which is not announced
/// where it is on, stays as it was then.
pub proof fn settings_announce_roundtrip(sent: H2Settings, before: H2Settings)
    requires
        sent.valid(),
    ensures
        before.with_payload(sent.payload()) == (
            H2Settings { enable_push: sent.enable_push && before.enable_push, ..sent },
            Ok::<(), Error>(()),
        ),
{
    let list = sent.params();
    frame::settings_roundtrip(list);
    assert(sent.payload().len() % 6 == 0);
    reveal_with_fuel(H2Settings::with_params, 7);
}

/// A parameter occurs in a list from `i` on.
spec fn occurs(list: Seq<(u16, u32)>, i: int, id: u16) -> bool {
    exists|j: int| i <= j < list.len() && (#[trigger] list[j]).0 == id
}

proof fn lemma_occurs(list: Seq<(u16, u32)>, i: int, id: u16)
    requires
        0 <= i < list.len(),
    ensures
        occurs(list, i, id) == (list[i].0 == id || occurs(list, i + 1, id)),
{
    if occurs(list, i, id) && list[i].0 != id {
        let j = choose|j: int| i <= j < list.len() && (#[trigger] list[j]).0 == id;
        assert(i + 1 <= j < list.len() && list[j].0 == id);
    }
}

/// Parameters that announce settings set what they name and leave the rest.
proof fn lemma_announced(sent: H2Settings, before: H2Settings, list: Seq<(u16, u32)>, i: int)
    requires
        sent.valid(),
        0 <= i <= list.len(),
        forall|j: int| 0 <= j < list.len() ==> sent.params().contains(#[trigger] list[j]),
    ensures
        ({
            let (t, r) = before.with_params(list, i);
            &&& r == Ok::<(), Error>(())
            &&& t.header_table_size == if occurs(list, i, SETTINGS_HEADER_TABLE_SIZE) {
                sent.header_table_size
            } else {
                before.header_table_size
            }
            &&& t.enable_push == if occurs(list, i, SETTINGS_ENABLE_PUSH) {
                false
            } else {
                before.enable_push
            }
            &&& t.max_concurrent_streams == if occurs(list, i, SETTINGS_MAX_CONCURRENT_STREAMS) {
                sent.max_concurrent_streams
            } else {
                before.max_concurrent_streams
            }
            &&& t.initial_window_size == if occurs(list, i, SETTINGS_INITIAL_WINDOW_SIZE) {
                sent.initial_window_size
            } else {
                before.initial_window_size
            }
            &&& t.max_frame_size == if occurs(list, i, SETTINGS_MAX_FRAME_SIZE) {
                sent.max_frame_size
            } else {
                before.max_frame_size
            }
            &&& t.max_header_list_size == if occurs(list, i, SETTINGS_MAX_HEADER_LIST_SIZE) {
                sent.max_header_list_size
            } else {
                before.max_header_list_size
            }
        }),
    decreases list.len() - i,
{
    if i < list.len() {
        assert(sent.params().contains(list[i]));
        lemma_occurs(list, i, SETTINGS_HEADER_TABLE_SIZE);
        lemma_occurs(list, i, SETTINGS_ENABLE_PUSH);
        lemma_occurs(list, i, SETTINGS_MAX_CONCURRENT_STREAMS);
        lemma_occurs(list, i, SETTINGS_INITIAL_WINDOW_SIZE);
        lemma_occurs(list, i, SETTINGS_MAX_FRAME_SIZE);
        lemma_occurs(list, i, SETTINGS_MAX_HEADER_LIST_SIZE);
        match before.with_param(list[i].0, list[i].1) {
            Ok(s) => {
                lemma_announced(sent, s, list, i + 1);
            },
            Err(_) => {},
        }
    }
}

proof fn lemma_reordered(list: Seq<(u16, u32)>, params: Seq<(u16, u32)>)
    requires
        list.to_multiset() == params.to_multiset(),
    ensures
        forall|j: int| 0 <= j < list.len() ==> params.contains(#[trigger] list[j]),
{
    list.to_multiset_ensures();
    params.to_multiset_ensures();
    assert forall|j: int| 0 <= j < list.len() implies params.contains(#[trigger] list[j]) by {
        assert(list.contains(list[j]));
        assert(list.to_multiset().count(list[j]) > 0);
    }
}

proof fn lemma_occurs_at(list: Seq<(u16, u32)>, params: Seq<(u16, u32)>, k: int)
    requires
        list.to_multiset() == params.to_multiset(),
        0 <= k < params.len(),
    ensures
        occurs(list, 0, params[k].0),
{
    lemma_reordered(params, list);
    assert(list.contains(params[k]));
    let j = choose|j: int| 0 <= j < list.len() && list[j] == params[k];
    assert(list[j].0 == params[k].0);
}

/// The order in which a peer announces its settings does not matter: the same
/// parameters in any order give the settings that were announced.
pub proof fn settings_may_come_in_any_order(
    sent: H2Settings,
    before: H2Settings,
    list: Seq<(u16, u32)>,
)
    requires
        sent.valid(),
        list.to_multiset() == sent.params().to_multiset(),
    ensures
        before.with_params(list, 0) == (
            H2Settings { enable_push: sent.enable_push && before.enable_push, ..sent },
            Ok::<(), Error>(()),
        ),
        sent.payload().len() == if sent.enable_push {
            30int
        } else {
            36int
        },
{
    let params = sent.params();
    frame::settings_roundtrip(params);
    lemma_reordered(list, params);
    lemma_announced(sent, before, list, 0);
    let n = params.len() as int;
    lemma_occurs_at(list, params, 0);
    lemma_occurs_at(list, params, n - 4);
    lemma_occurs_at(list, params, n - 3);
    lemma_occurs_at(list, params, n - 2);
    lemma_occurs_at(list, params, n - 1);
    if sent.enable_push {
        if occurs(list, 0, SETTINGS_ENABLE_PUSH) {
            let j = choose|j: int|
                0 <= j < list.len() && (#[trigger] list[j]).0 == SETTINGS_ENABLE_PUSH;
            assert(params.contains(list[j]));
        }
    } else {
        lemma_occurs_at(list, params, 1);
    }
}

/// Applying a payload leaves valid settings valid.
pub proof fn payload_keeps_settings_valid(before: H2Settings, payload: Seq<u8>)
    requires
        before.valid(),
    ensures
        before.with_payload(payload).0.valid(),
{
    if payload.len() % 6 == 0 {
        lemma_params_valid(before, frame::settings_list(payload), 0);
    }
}

proof fn lemma_params_valid(before: H2Settings, list: Seq<(u16, u32)>, i: int)
    requires
        before.valid(),
    ensures
        before.with_params(list, i).0.valid(),
    decreases list.len() - i,
{
    if i < list.len() {
        match before.with_param(list[i].0, list[i].1) {
            Ok(s) => {
                lemma_params_valid(s, list, i + 1);
            },
            Err(_) => {},
        }
    }
}

} // verus!
