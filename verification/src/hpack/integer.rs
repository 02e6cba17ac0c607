//! HPACK prefixed integers (RFC 7541 §5.1).

use vstd::prelude::*;

use crate::error::Error;

verus! {

/// The longest run of continuation bytes that is read: enough for any `u64`.
pub const MAX_TAIL: usize = 10;

/// The largest value of a prefix of `prefix` bits.
pub open spec fn prefix_max(prefix: u8) -> int {
    match prefix {
        1 => 1,
        2 => 3,
        3 => 7,
        4 => 15,
        5 => 31,
        6 => 63,
        7 => 127,
        _ => 255,
    }
}

/// Continuation bytes: seven bits each, least significant first, the top bit
/// set on all but the last.
pub open spec fn tail_bytes(v: int) -> Seq<u8>
    decreases v,
{
    if v < 128 {
        seq![v as u8]
    } else {
        seq![(v % 128 + 128) as u8] + tail_bytes(v / 128)
    }
}

/// The encoding of `v` behind the flag bits `flags`.
pub open spec fn int_bytes(v: int, prefix: u8, flags: u8) -> Seq<u8> {
    if v < prefix_max(prefix) {
        seq![(flags + v) as u8]
    } else {
        seq![(flags + prefix_max(prefix)) as u8] + tail_bytes(v - prefix_max(prefix))
    }
}

/// The number of continuation bytes at the start of `s`, if the last of them is there.
pub open spec fn tail_len(s: Seq<u8>) -> Option<int>
    decreases s.len(),
{
    if s.len() == 0 {
        None
    } else if s[0] < 128 {
        Some(1int)
    } else {
        match tail_len(s.skip(1)) {
            Some(n) => Some(n + 1),
            None => None,
        }
    }
}

/// The value of the continuation bytes `s`.
pub open spec fn tail_value(s: Seq<u8>) -> int
    decreases s.len(),
{
    if s.len() == 0 {
        0
    } else {
        s[0] % 128 + 128 * tail_value(s.skip(1))
    }
}

/// What reading an integer with a `prefix`-bit prefix from `s` gives: the value
/// and the number of bytes it takes.
pub open spec fn int_read(s: Seq<u8>, prefix: u8) -> Result<(u64, usize), Error> {
    let max = prefix_max(prefix);
    if s.len() == 0 {
        Err(Error::BufferTooSmall { needed: 1 })
    } else if s[0] as int % (max + 1) < max {
        Ok(((s[0] as int % (max + 1)) as u64, 1))
    } else {
        let tail = s.skip(1).take(if s.len() - 1 < MAX_TAIL {
            s.len() - 1
        } else {
            MAX_TAIL as int
        });
        match tail_len(tail) {
            Some(n) => {
                let v = max + tail_value(tail.take(n));
                if v <= u64::MAX {
                    Ok((v as u64, (n + 1) as usize))
                } else {
                    Err(Error::InvalidState)
                }
            },
            None => if tail.len() == MAX_TAIL {
                Err(Error::InvalidState)
            } else {
                Err(crate::error::too_small(s.len() as int + 1))
            },
        }
    }
}

fn exec_prefix_max(prefix: u8) -> (r: u64)
    ensures
        r == prefix_max(prefix),
{
    match prefix {
        1 => 1,
        2 => 3,
        3 => 7,
        4 => 15,
        5 => 31,
        6 => 63,
        7 => 127,
        _ => 255,
    }
}

/// Encodes `value` with a `prefix`-bit prefix behind the flag bits `flags`.
pub fn encode_integer(value: u64, prefix: u8, flags: u8) -> (out: Vec<u8>)
    requires
        1 <= prefix <= 8,
        flags + prefix_max(prefix) <= 255,
    ensures
        out@ == int_bytes(value as int, prefix, flags),
{
    let max: u64 = exec_prefix_max(prefix);
    let mut out: Vec<u8> = Vec::new();
    if value < max {
        out.push(flags + value as u8);
        assert(out@ =~= int_bytes(value as int, prefix, flags));
        return out;
    }
    out.push(flags + max as u8);
    let mut rest: u64 = value - max;
    while rest >= 128
        invariant
            out@ + tail_bytes(rest as int) == int_bytes(value as int, prefix, flags),
        decreases rest,
    {
        let ghost before = out@;
        out.push((rest % 128) as u8 + 128);
        assert(before + tail_bytes(rest as int) =~= out@ + tail_bytes((rest / 128) as int));
        rest = rest / 128;
    }
    let ghost before = out@;
    out.push(rest as u8);
    assert(out@ =~= before + tail_bytes(rest as int));
    out
}

proof fn lemma_tail_value_push(s: Seq<u8>, b: u8)
    ensures
        tail_value(s.push(b)) == tail_value(s) + vstd::arithmetic::power::pow(128, s.len()) * (b % 128),
    decreases s.len(),
{
    vstd::arithmetic::power::lemma_pow0(128);
    if s.len() == 0 {
        assert(s.push(b).skip(1) =~= Seq::<u8>::empty());
        assert(tail_value(s.push(b).skip(1)) == 0);
    } else {
        assert(s.push(b).skip(1) =~= s.skip(1).push(b));
        lemma_tail_value_push(s.skip(1), b);
        let p = vstd::arithmetic::power::pow(128, (s.len() - 1) as nat);
        assert(vstd::arithmetic::power::pow(128, s.len()) == 128 * p) by {
            reveal(vstd::arithmetic::power::pow);
        }
        let c = (b % 128) as int;
        assert(128 * (p * c) == (128 * p) * c) by (nonlinear_arith);
    }
}

proof fn lemma_tail_len_found(s: Seq<u8>, i: int)
    requires
        0 <= i < s.len(),
        forall|j: int| 0 <= j < i ==> s[j] >= 128,
        s[i] < 128,
    ensures
        tail_len(s) == Some(i + 1),
    decreases i,
{
    if i > 0 {
        lemma_tail_len_found(s.skip(1), i - 1);
    }
}

proof fn lemma_tail_len_none(s: Seq<u8>)
    requires
        forall|j: int| 0 <= j < s.len() ==> s[j] >= 128,
    ensures
        tail_len(s) is None,
    decreases s.len(),
{
    if s.len() > 0 {
        lemma_tail_len_none(s.skip(1));
    }
}

/// Reads an integer with a `prefix`-bit prefix. Returns the value and the number
/// of bytes it takes.
pub fn decode_integer(src: &[u8], prefix: u8) -> (r: Result<(u64, usize), Error>)
    requires
        1 <= prefix <= 8,
    ensures
        r == int_read(src@, prefix),
{
    if src.len() == 0 {
        return Err(Error::BufferTooSmall { needed: 1 });
    }
    let max: u64 = exec_prefix_max(prefix);
    let first: u64 = src[0] as u64 % (max + 1);
    if first < max {
        return Ok((first, 1));
    }
    let ghost len = if src@.len() - 1 < MAX_TAIL {
        src@.len() - 1
    } else {
        MAX_TAIL as int
    };
    let ghost tail = src@.skip(1).take(len);
    let mut i: usize = 0;
    let mut acc: u128 = 0;
    let mut scale: u128 = 1;
    proof {
        vstd::arithmetic::power::lemma_pow0(128);
        assert(tail.take(0) =~= Seq::<u8>::empty());
        reveal_with_fuel(vstd::arithmetic::power::pow, 11);
        assert(vstd::arithmetic::power::pow(128, 10) == 0x40_0000_0000_0000_0000);
    }
    while i < MAX_TAIL && i < src.len() - 1
        invariant
            max == prefix_max(prefix),
            max <= 255,
            src@.len() > 0,
            !(src@[0] as int % (max + 1) < max),
            len == if src@.len() - 1 < MAX_TAIL {
                src@.len() - 1
            } else {
                MAX_TAIL as int
            },
            tail == src@.skip(1).take(len),
            i <= len,
            forall|j: int| 0 <= j < i ==> tail[j] >= 128,
            acc == tail_value(tail.take(i as int)),
            scale == vstd::arithmetic::power::pow(128, i as nat),
            acc < scale,
            scale <= 0x40_0000_0000_0000_0000,
            vstd::arithmetic::power::pow(128, 10) == 0x40_0000_0000_0000_0000,
        decreases src@.len() - i,
    {
        let b: u8 = src[i + 1];
        let low: u128 = (b % 128) as u128;
        proof {
            assert(tail[i as int] == b);
            assert(tail.take(i + 1) =~= tail.take(i as int).push(b));
            lemma_tail_value_push(tail.take(i as int), b);
            assert(scale * low + scale <= scale * 128) by (nonlinear_arith)
                requires
                    low <= 127,
                    scale >= 0,
            ;
            assert(vstd::arithmetic::power::pow(128, (i + 1) as nat) == 128 * scale) by {
                reveal(vstd::arithmetic::power::pow);
            }
            vstd::arithmetic::power::lemma_pow_increases(128, (i + 1) as nat, 10);
        }
        acc = acc + scale * low;
        if b < 128 {
            proof {
                lemma_tail_len_found(tail, i as int);
            }
            let v: u128 = max as u128 + acc;
            if v <= u64::MAX as u128 {
                return Ok((v as u64, i + 2));
            }
            return Err(Error::InvalidState);
        }
        scale = scale * 128;
        i = i + 1;
    }
    proof {
        lemma_tail_len_none(tail);
    }
    if i == MAX_TAIL {
        Err(Error::InvalidState)
    } else {
        Err(Error::BufferTooSmall { needed: src.len().saturating_add(1) })
    }
}

/// An integer is read back as it was written, whatever follows it: the value,
/// and the length of its encoding.
pub proof fn integer_roundtrip(v: u64, prefix: u8, flags: u8, rest: Seq<u8>)
    requires
        1 <= prefix <= 8,
        flags as int % (prefix_max(prefix) + 1) == 0,
    ensures
        int_read(int_bytes(v as int, prefix, flags) + rest, prefix) == Ok::<(u64, usize), Error>(
            (v, int_bytes(v as int, prefix, flags).len() as usize),
        ),
        1 <= int_bytes(v as int, prefix, flags).len() <= MAX_TAIL + 1,
{
    let max = prefix_max(prefix);
    let enc = int_bytes(v as int, prefix, flags);
    let s = enc + rest;
    if v < max {
        lemma_flags(prefix, flags as int, v as int);
        assert(s[0] == (flags + v) as u8);
    } else {
        lemma_flags(prefix, flags as int, max);
        assert(s[0] == (flags + max) as u8);
        let t = tail_bytes(v - max);
        lemma_tail_bytes(v - max, 10);
        assert(enc.len() == t.len() + 1);
        lemma_tail_read(t, s);
        let len = if s.len() - 1 < MAX_TAIL {
            s.len() - 1
        } else {
            MAX_TAIL as int
        };
        assert(max + tail_value(s.skip(1).take(len).take(t.len() as int)) == v);
    }
}

/// Complete continuation bytes are found again behind the first byte of `s`.
proof fn lemma_tail_read(t: Seq<u8>, s: Seq<u8>)
    requires
        1 <= t.len() <= MAX_TAIL,
        s.len() >= t.len() + 1,
        forall|j: int| 0 <= j < t.len() ==> s[j + 1] == #[trigger] t[j],
        forall|j: int| 0 <= j < t.len() - 1 ==> t[j] >= 128,
        t.last() < 128,
    ensures
        ({
            let len = if s.len() - 1 < MAX_TAIL {
                s.len() - 1
            } else {
                MAX_TAIL as int
            };
            let tail = s.skip(1).take(len);
            &&& tail_len(tail) == Some(t.len() as int)
            &&& tail.take(t.len() as int) == t
        }),
{
    let len = if s.len() - 1 < MAX_TAIL {
        s.len() - 1
    } else {
        MAX_TAIL as int
    };
    let tail = s.skip(1).take(len);
    assert forall|j: int| 0 <= j < t.len() implies #[trigger] tail[j] == t[j] by {}
    assert(tail.take(t.len() as int) =~= t);
    lemma_tail_len_found(tail, t.len() - 1);
}

proof fn lemma_tail_len_bound(s: Seq<u8>)
    ensures
        tail_len(s) matches Some(n) ==> 1 <= n <= s.len(),
    decreases s.len(),
{
    if s.len() > 0 {
        lemma_tail_len_bound(s.skip(1));
    }
}

/// An integer that is read takes at least one byte, and no more than there are.
pub proof fn int_read_bound(s: Seq<u8>, prefix: u8)
    ensures
        int_read(s, prefix) matches Ok((v, n)) ==> 1 <= n <= s.len(),
{
    if s.len() > 0 {
        let tail = s.skip(1).take(if s.len() - 1 < MAX_TAIL {
            s.len() - 1
        } else {
            MAX_TAIL as int
        });
        lemma_tail_len_bound(tail);
    }
}

/// Flag bits above a prefix leave the prefix as it is.
proof fn lemma_flags(prefix: u8, flags: int, low: int)
    requires
        1 <= prefix <= 8,
        0 <= flags <= 255,
        flags % (prefix_max(prefix) + 1) == 0,
        0 <= low <= prefix_max(prefix),
    ensures
        flags + low <= 255,
        (flags + low) % (prefix_max(prefix) + 1) == low,
{
    if prefix == 1 {
        assert(flags % 2 == 0 && 0 <= low < 2);
        assert(flags + low <= 255 && (flags + low) % 2 == low);
    } else if prefix == 2 {
        assert(flags % 4 == 0 && 0 <= low < 4);
        assert(flags + low <= 255 && (flags + low) % 4 == low);
    } else if prefix == 3 {
        assert(flags % 8 == 0 && 0 <= low < 8);
        assert(flags + low <= 255 && (flags + low) % 8 == low);
    } else if prefix == 4 {
        assert(flags % 16 == 0 && 0 <= low < 16);
        assert(flags + low <= 255 && (flags + low) % 16 == low);
    } else if prefix == 5 {
        assert(flags % 32 == 0 && 0 <= low < 32);
        assert(flags + low <= 255 && (flags + low) % 32 == low);
    } else if prefix == 6 {
        assert(flags % 64 == 0 && 0 <= low < 64);
        assert(flags + low <= 255 && (flags + low) % 64 == low);
    } else if prefix == 7 {
        assert(flags % 128 == 0 && 0 <= low < 128);
        assert(flags + low <= 255 && (flags + low) % 128 == low);
    } else {
        assert(flags % 256 == 0 && 0 <= low < 256);
        assert(flags + low <= 255 && (flags + low) % 256 == low);
    }
}

/// Continuation bytes of a value below 128^n: at most n of them, of that value,
/// with the top bit set on all but the last.
proof fn lemma_tail_bytes(v: int, n: nat)
    requires
        0 <= v <= u64::MAX,
        n >= 1,
        n < 10 ==> v < vstd::arithmetic::power::pow(128, n),
        n <= 10,
    ensures
        1 <= tail_bytes(v).len() <= n,
        tail_value(tail_bytes(v)) == v,
        forall|j: int| 0 <= j < tail_bytes(v).len() - 1 ==> tail_bytes(v)[j] >= 128,
        tail_bytes(v).last() < 128,
    decreases n,
{
    reveal(vstd::arithmetic::power::pow);
    if v < 128 {
        assert(tail_bytes(v).skip(1) =~= Seq::<u8>::empty());
        assert(tail_value(tail_bytes(v).skip(1)) == 0);
    } else {
        reveal_with_fuel(vstd::arithmetic::power::pow, 11);
        assert(n > 1);
        if n == 10 {
            assert(vstd::arithmetic::power::pow(128, 9) == 0x8000_0000_0000_0000);
            assert(v / 128 < vstd::arithmetic::power::pow(128, 9));
        } else {
            assert(vstd::arithmetic::power::pow(128, n) == 128 * vstd::arithmetic::power::pow(
                128,
                (n - 1) as nat,
            ));
            let p = vstd::arithmetic::power::pow(128, (n - 1) as nat);
            assert(v / 128 < p);
        }
        lemma_tail_bytes(v / 128, (n - 1) as nat);
        assert(tail_bytes(v).skip(1) =~= tail_bytes(v / 128));
    }
}

} // verus!
