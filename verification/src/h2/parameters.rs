//! How settings are announced and read, byte by byte.

use vstd::prelude::*;

use super::frame;
use super::settings::H2Settings;
use super::wire::four_bytes;
use crate::error::{Error, H2Error};

verus! {

/// One parameter: its number in two bytes and its value in four.
pub open spec fn parameter(id: u16, value: u32) -> Seq<u8> {
    seq![(id as int / 256) as u8, (id as int % 256) as u8] + four_bytes(value as int)
}

proof fn lemma_parameter(id: u16, value: u32)
    ensures
        parameter(id, value) == frame::setting_bytes(id, value),
        frame::setting_bytes(id, value).len() == 6,
{
    let a = parameter(id, value);
    let b = frame::setting_bytes(id, value);
    assert(a.len() == 6 && b.len() == 6);
    assert(value as int / 16777216 % 256 == value as int / 16777216);
    assert(a[0] == b[0] && a[1] == b[1] && a[2] == b[2] && a[3] == b[3] && a[4] == b[4] && a[5]
        == b[5]);
    assert(a =~= b);
}

/// A parameter sets what its number says, and nothing else: 1 the size of the header
/// table, 2 whether there is push, 3 the number of streams, 4 the window of a new
/// stream, 5 the size of a frame, 6 the size of a header list. A parameter with another
/// number is passed over. Push is 0 or 1, a window is less than 2^31, and a frame size
/// is from 2^14 to 2^24 - 1; other values are refused and set nothing.
pub proof fn parameters_are_read(s: H2Settings, id: u16, value: u32)
    ensures
        ({
            let (t, r) = s.with_payload(parameter(id, value));
            let ok = r == Ok::<(), Error>(());
            &&& t.header_table_size == if id == 1 {
                value
            } else {
                s.header_table_size
            }
            &&& t.enable_push == if id == 2 && value <= 1 {
                value == 1
            } else {
                s.enable_push
            }
            &&& t.max_concurrent_streams == if id == 3 {
                value
            } else {
                s.max_concurrent_streams
            }
            &&& t.initial_window_size == if id == 4 && value <= 2147483647 {
                value
            } else {
                s.initial_window_size
            }
            &&& t.max_frame_size == if id == 5 && 16384 <= value <= 16777215 {
                value
            } else {
                s.max_frame_size
            }
            &&& t.max_header_list_size == if id == 6 {
                value
            } else {
                s.max_header_list_size
            }
            &&& ok <==> !(id == 2 && value > 1) && !(id == 4 && value > 2147483647) && !(id == 5
                && !(16384 <= value <= 16777215))
            &&& id == 4 && !ok ==> r == Err::<(), Error>(Error::Http2(H2Error::FlowControlError))
            &&& id != 4 && !ok ==> r == Err::<(), Error>(Error::Http2(H2Error::ProtocolError))
        }),
{
    let one = seq![(id, value)];
    lemma_parameter(id, value);
    frame::settings_roundtrip(one);
    assert(one.drop_last() =~= Seq::<(u16, u32)>::empty());
    reveal_with_fuel(frame::settings_payload, 2);
    assert(frame::settings_payload(one) =~= parameter(id, value));
    reveal_with_fuel(H2Settings::with_params, 2);
}

proof fn lemma_params_shift(s: H2Settings, a: Seq<(u16, u32)>, b: Seq<(u16, u32)>, i: int)
    requires
        0 <= i <= b.len(),
    ensures
        s.with_params(a + b, a.len() + i) == s.with_params(b, i),
    decreases b.len() - i,
{
    if i < b.len() {
        assert((a + b)[a.len() + i] == b[i]);
        match s.with_param(b[i].0, b[i].1) {
            Ok(t) => lemma_params_shift(t, a, b, i + 1),
            Err(_) => {},
        }
    }
}

proof fn lemma_params_concat(s: H2Settings, a: Seq<(u16, u32)>, b: Seq<(u16, u32)>, i: int)
    requires
        0 <= i <= a.len(),
    ensures
        s.with_params(a + b, i) == match s.with_params(a, i) {
            (t, Ok(_)) => t.with_params(b, 0),
            (t, Err(e)) => (t, Err(e)),
        },
    decreases a.len() - i,
{
    if i < a.len() {
        assert((a + b)[i] == a[i]);
        match s.with_param(a[i].0, a[i].1) {
            Ok(t) => lemma_params_concat(t, a, b, i + 1),
            Err(_) => {},
        }
    } else {
        lemma_params_shift(s, a, b, 0);
    }
}

/// Parameters are taken in order: first those that come first, then the others. One
/// that is refused ends it, and those before it stay.
pub proof fn parameters_are_read_in_order(s: H2Settings, a: Seq<u8>, b: Seq<u8>)
    requires
        a.len() % 6 == 0,
        b.len() % 6 == 0,
    ensures
        s.with_payload(a + b) == match s.with_payload(a) {
            (t, Ok(_)) => t.with_payload(b),
            (t, Err(e)) => (t, Err(e)),
        },
{
    let la = frame::settings_list(a);
    let lb = frame::settings_list(b);
    let n = a.len() as int / 6;
    assert((a + b).len() % 6 == 0);
    assert(a.len() == 6 * n);
    assert((a + b).len() as int / 6 == n + b.len() as int / 6);
    assert forall|i: int| 0 <= i < la.len() implies frame::setting_at(a + b, i)
        == #[trigger] la[i] by {
        assert(6 * i + 6 <= a.len());
    }
    assert forall|i: int| 0 <= i < lb.len() implies frame::setting_at(a + b, n + i)
        == #[trigger] lb[i] by {
        assert(6 * i + 6 <= b.len());
        assert(6 * (n + i) == a.len() + 6 * i);
    }
    let l = frame::settings_list(a + b);
    assert(l.len() == la.len() + lb.len());
    assert forall|i: int| 0 <= i < l.len() implies #[trigger] l[i] == (la + lb)[i] by {
        if i < n {
            assert((la + lb)[i] == la[i]);
        } else {
            assert((la + lb)[i] == lb[i - n]);
        }
    }
    assert(l =~= la + lb);
    lemma_params_concat(s, la, lb, 0);
}

/// A payload that is no whole number of parameters is refused, and sets nothing.
pub proof fn parameters_come_whole(s: H2Settings, payload: Seq<u8>)
    requires
        payload.len() % 6 != 0,
    ensures
        s.with_payload(payload) == (s, Err::<(), Error>(Error::Http2(H2Error::FrameSizeError))),
{
}

/// Settings are announced one parameter after the other, in the order of their numbers;
/// that there is push is not announced.
pub proof fn settings_are_laid_out(s: H2Settings)
    ensures
        s.payload() == parameter(1, s.header_table_size) + (if s.enable_push {
            Seq::empty()
        } else {
            parameter(2, 0)
        }) + parameter(3, s.max_concurrent_streams) + parameter(4, s.initial_window_size)
            + parameter(5, s.max_frame_size) + parameter(6, s.max_header_list_size),
{
    lemma_parameter(1, s.header_table_size);
    lemma_parameter(2, 0);
    lemma_parameter(3, s.max_concurrent_streams);
    lemma_parameter(4, s.initial_window_size);
    lemma_parameter(5, s.max_frame_size);
    lemma_parameter(6, s.max_header_list_size);
    let l = s.params();
    let n = l.len() as int;
    assert forall|k: int| 0 < k <= n implies #[trigger] l.take(k).drop_last() == l.take(k - 1)
        && l.take(k).last() == l[k - 1] by {
        assert(l.take(k).drop_last() =~= l.take(k - 1));
    }
    assert(l.take(n) =~= l);
    let p = |k: int| frame::settings_payload(l.take(k));
    assert(p(0) =~= Seq::<u8>::empty());
    assert(p(1) =~= parameter(1, s.header_table_size));
    if s.enable_push {
        assert(p(2) == p(1) + parameter(3, s.max_concurrent_streams));
        assert(p(3) == p(2) + parameter(4, s.initial_window_size));
        assert(p(4) == p(3) + parameter(5, s.max_frame_size));
        assert(p(5) == p(4) + parameter(6, s.max_header_list_size));
        assert(p(1) + Seq::<u8>::empty() =~= p(1));
    } else {
        assert(p(2) == p(1) + parameter(2, 0));
        assert(p(3) == p(2) + parameter(3, s.max_concurrent_streams));
        assert(p(4) == p(3) + parameter(4, s.initial_window_size));
        assert(p(5) == p(4) + parameter(5, s.max_frame_size));
        assert(p(6) == p(5) + parameter(6, s.max_header_list_size));
    }
}

} // verus!
