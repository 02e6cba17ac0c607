//! How HPACK integers stand in bytes.

use vstd::prelude::*;

use super::integer;
use crate::error::Error;

verus! {

/// The value of groups of seven bits, the least significant group first.
pub open spec fn groups_value(gs: Seq<int>) -> int
    decreases gs.len(),
{
    if gs.len() == 0 {
        0
    } else {
        groups_value(gs.drop_last()) + gs.last() * vstd::arithmetic::power::pow(
            128,
            (gs.len() - 1) as nat,
        )
    }
}

/// Groups of seven bits, one in each byte; the top bit says that another byte follows.
pub open spec fn group_bytes(gs: Seq<int>) -> Seq<u8> {
    Seq::new(
        gs.len(),
        |i: int|
            if i + 1 < gs.len() {
                (gs[i] + 128) as u8
            } else {
                gs[i] as u8
            },
    )
}

pub open spec fn groups_ok(gs: Seq<int>) -> bool {
    forall|i: int| 0 <= i < gs.len() ==> 0 <= #[trigger] gs[i] < 128
}

proof fn lemma_groups_front(gs: Seq<int>)
    requires
        gs.len() > 0,
    ensures
        groups_value(gs) == gs[0] + 128 * groups_value(gs.skip(1)),
    decreases gs.len(),
{
    reveal(vstd::arithmetic::power::pow);
    if gs.len() == 1 {
        assert(gs.drop_last() =~= Seq::<int>::empty());
        assert(gs.skip(1) =~= Seq::<int>::empty());
        assert(gs.last() * 1 == gs[0]);
    } else {
        let init = gs.drop_last();
        lemma_groups_front(init);
        assert(gs.skip(1).drop_last() =~= init.skip(1));
        let k = (gs.len() - 2) as nat;
        let p = vstd::arithmetic::power::pow(128, k);
        let l = gs.last();
        assert(vstd::arithmetic::power::pow(128, (k + 1) as nat) == 128 * p);
        assert(l * (128 * p) == 128 * (l * p)) by (nonlinear_arith);
    }
}

proof fn lemma_groups_tail(gs: Seq<int>)
    requires
        groups_ok(gs),
    ensures
        integer::tail_value(group_bytes(gs)) == groups_value(gs),
        gs.len() > 0 ==> integer::tail_len(group_bytes(gs)) == Some(gs.len() as int),
    decreases gs.len(),
{
    let b = group_bytes(gs);
    if gs.len() > 0 {
        let rest = gs.skip(1);
        assert(groups_ok(rest)) by {
            assert forall|i: int| 0 <= i < rest.len() implies 0 <= #[trigger] rest[i] < 128 by {
                assert(rest[i] == gs[i + 1]);
            }
        }
        assert(0 <= gs[0] < 128);
        assert(b.skip(1) =~= group_bytes(rest));
        lemma_groups_tail(rest);
        lemma_groups_front(gs);
        assert(b[0] as int % 128 == gs[0]);
    }
}

proof fn lemma_tail_cut(s: Seq<u8>, n: int)
    requires
        0 <= n <= s.len(),
        integer::tail_len(s.take(n)) == Some(n),
    ensures
        integer::tail_len(s) == Some(n),
    decreases n,
{
    let t = s.take(n);
    if n > 0 {
        assert(t[0] == s[0]);
        if s[0] >= 128 {
            assert(t.skip(1) =~= s.skip(1).take(n - 1));
            lemma_tail_cut(s.skip(1), n - 1);
        }
    }
}

/// The largest number of `bits` bits.
pub open spec fn ones(bits: u8) -> int {
    vstd::arithmetic::power2::pow2(bits as nat) - 1
}

proof fn lemma_ones(bits: u8)
    requires
        1 <= bits <= 8,
    ensures
        integer::prefix_max(bits) == ones(bits),
{
    vstd::arithmetic::power2::lemma2_to64();
}

/// A number below the largest of its prefix stands in the prefix. Another one is the
/// largest of the prefix and what its groups of seven bits add to it, the least
/// significant first. The bits before the prefix and the bytes behind are no part of it.
pub proof fn integers_are_read(bits: u8, flags: int, v: int, gs: Seq<int>, rest: Seq<u8>)
    requires
        1 <= bits <= 8,
        flags >= 0,
        flags % vstd::arithmetic::power2::pow2(bits as nat) as int == 0,
        flags + ones(bits) <= 255,
        0 <= v < ones(bits),
        0 < gs.len() <= 10,
        groups_ok(gs),
    ensures
        integer::int_read(seq![(flags + v) as u8] + rest, bits) == Ok::<(u64, usize), Error>(
            (v as u64, 1),
        ),
        ones(bits) + groups_value(gs) <= u64::MAX ==> integer::int_read(
            seq![(flags + ones(bits)) as u8] + group_bytes(gs) + rest,
            bits,
        ) == Ok::<(u64, usize), Error>(
            ((ones(bits) + groups_value(gs)) as u64, (gs.len() + 1) as usize),
        ),
        ones(bits) + groups_value(gs) > u64::MAX ==> integer::int_read(
            seq![(flags + ones(bits)) as u8] + group_bytes(gs) + rest,
            bits,
        ) is Err,
{
    lemma_ones(bits);
    let max = ones(bits);
    let one = seq![(flags + v) as u8] + rest;
    assert(one[0] == flags + v);
    assert((flags + v) % (max + 1) == v) by (nonlinear_arith)
        requires
            flags >= 0,
            flags % (max + 1) == 0,
            0 <= v < max,
    {
        vstd::arithmetic::div_mod::lemma_mod_adds(flags, v, max + 1);
        vstd::arithmetic::div_mod::lemma_small_mod(v as nat, (max + 1) as nat);
    }
    assert((flags + max) % (max + 1) == max) by (nonlinear_arith)
        requires
            flags >= 0,
            flags % (max + 1) == 0,
            max >= 1,
    {
        vstd::arithmetic::div_mod::lemma_mod_adds(flags, max, max + 1);
        vstd::arithmetic::div_mod::lemma_small_mod(max as nat, (max + 1) as nat);
    }
    let g = group_bytes(gs);
    let s = seq![(flags + max) as u8] + g + rest;
    assert(s[0] == flags + max);
    let k = if s.len() - 1 < integer::MAX_TAIL {
        s.len() - 1
    } else {
        integer::MAX_TAIL as int
    };
    let tail = s.skip(1).take(k);
    let n = gs.len() as int;
    assert(tail.take(n) =~= g);
    lemma_groups_tail(gs);
    lemma_tail_cut(tail, n);
}

proof fn lemma_groups_written(gs: Seq<int>)
    requires
        groups_ok(gs),
        gs.len() > 0,
        gs.len() > 1 ==> gs.last() > 0,
    ensures
        integer::tail_bytes(groups_value(gs)) == group_bytes(gs),
        groups_value(gs) >= 0,
        gs.last() > 0 ==> groups_value(gs) > 0,
    decreases gs.len(),
{
    lemma_groups_front(gs);
    assert(0 <= gs[0] < 128);
    let rest = gs.skip(1);
    let b = group_bytes(gs);
    if gs.len() == 1 {
        assert(groups_value(rest) == 0);
        assert(b =~= seq![gs[0] as u8]);
    } else {
        assert(groups_ok(rest)) by {
            assert forall|i: int| 0 <= i < rest.len() implies 0 <= #[trigger] rest[i] < 128 by {
                assert(rest[i] == gs[i + 1]);
            }
        }
        lemma_groups_written(rest);
        let v = groups_value(gs);
        assert(v % 128 == gs[0] && v / 128 == groups_value(rest));
        assert(b =~= seq![(gs[0] + 128) as u8] + group_bytes(rest));
    }
}

/// A number is written in as few bytes as it takes: in its prefix, where it is below the
/// largest of it, and else with as few groups of seven bits as there are.
pub proof fn integers_are_written(bits: u8, flags: u8, v: int, gs: Seq<int>)
    requires
        1 <= bits <= 8,
        0 <= v < ones(bits),
        groups_ok(gs),
        gs.len() > 0,
        gs.len() > 1 ==> gs.last() > 0,
    ensures
        integer::int_bytes(v, bits, flags) == seq![(flags + v) as u8],
        integer::int_bytes(ones(bits) + groups_value(gs), bits, flags) == seq![
            (flags + ones(bits)) as u8,
        ] + group_bytes(gs),
{
    lemma_ones(bits);
    lemma_groups_written(gs);
}

/// A number that does not end within ten bytes behind its prefix is refused; one whose
/// end has not come yet needs more bytes.
pub proof fn endless_integers_are_refused(bits: u8, s: Seq<u8>)
    requires
        1 <= bits <= 8,
        s.len() > 0 ==> s[0] as int % (ones(bits) + 1) == ones(bits),
        forall|i: int| 1 <= i < s.len() && i <= 10 ==> #[trigger] s[i] >= 128,
    ensures
        s.len() > 10 ==> integer::int_read(s, bits) == Err::<(u64, usize), Error>(
            Error::InvalidState,
        ),
        s.len() <= 10 ==> integer::int_read(s, bits) == Err::<(u64, usize), Error>(
            Error::BufferTooSmall { needed: (s.len() + 1) as usize },
        ),
{
    lemma_ones(bits);
    if s.len() > 0 {
        let k = if s.len() - 1 < integer::MAX_TAIL {
            s.len() - 1
        } else {
            integer::MAX_TAIL as int
        };
        let tail = s.skip(1).take(k);
        assert forall|i: int| 0 <= i < tail.len() implies #[trigger] tail[i] >= 128 by {
            assert(tail[i] == s[i + 1]);
        }
        lemma_endless(tail);
    }
}

proof fn lemma_endless(t: Seq<u8>)
    requires
        forall|i: int| 0 <= i < t.len() ==> #[trigger] t[i] >= 128,
    ensures
        integer::tail_len(t) is None,
    decreases t.len(),
{
    if t.len() > 0 {
        let u = t.skip(1);
        assert forall|i: int| 0 <= i < u.len() implies #[trigger] u[i] >= 128 by {
            assert(u[i] == t[i + 1]);
        }
        lemma_endless(u);
        assert(t[0] >= 128);
    }
}

} // verus!
