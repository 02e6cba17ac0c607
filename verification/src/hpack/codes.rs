//! How Huffman codes stand in bits.

use vstd::arithmetic::power2::{lemma2_to64, lemma_pow2_unfold, pow2};
use vstd::prelude::*;

use super::huffman;
use super::huffman::Progress;
use crate::error::Error;

verus! {

// ---------------------------------------------------------------------------
// Codes
// ---------------------------------------------------------------------------

/// How many codes have `len` bits.
pub open spec fn count(len: int) -> int {
    match huffman::length_class(len) {
        Some((_, n, _)) => n,
        None => 0,
    }
}

/// Where the codes of `len` bits and more begin, among the numbers of thirty bits: behind
/// all shorter codes, each with all that begins with it.
pub open spec fn edge(len: int) -> int
    decreases len,
{
    if len <= 5 {
        0
    } else {
        edge(len - 1) + count(len - 1) * pow2((31 - len) as nat)
    }
}

/// How many codes are shorter than `len` bits.
pub open spec fn earlier(len: int) -> int
    decreases len,
{
    if len <= 5 {
        0
    } else {
        earlier(len - 1) + count(len - 1)
    }
}

proof fn lemma_product(a: int, b: int, c: int, d: int)
    requires
        a == c,
        b == d,
    ensures
        a * b == c * d,
{
}

proof fn lemma_edge_step(n: int, c: int, q: int)
    requires
        5 <= n <= 30,
        count(n) == c,
        pow2((30 - n) as nat) == q,
    ensures
        edge(n + 1) == edge(n) + c * q,
        earlier(n + 1) == earlier(n) + c,
{
    lemma_product(count(n), pow2((30 - n) as nat) as int, c, q);
}

proof fn lemma_class(n: int, f: int, c: int, s: int, q: int)
    requires
        5 <= n <= 30,
        huffman::length_class(n) == Some((f, c, s)),
        pow2((30 - n) as nat) == q,
        edge(n) == f * q,
        earlier(n) == s,
        c > 0,
    ensures
        huffman::length_class(n) matches Some((first, k, start)) ==> first * pow2((30 - n) as nat)
            == edge(n) && start == earlier(n) && k > 0,
{
    lemma_product(f, pow2((30 - n) as nat) as int, f, q);
}

/// The code is canonical and complete: the codes of each length follow on those that are
/// shorter, their symbols follow too, and nothing is left over behind the longest.
pub proof fn codes_are_canonical(len: int)
    requires
        5 <= len <= 30,
    ensures
        huffman::length_class(len) matches Some((first, n, start)) ==> first * pow2(
            (30 - len) as nat,
        ) == edge(len) && start == earlier(len) && n > 0,
        edge(31) == pow2(30),
        earlier(31) == 257,
{
    lemma2_to64();
    assert(edge(5) == 0 && earlier(5) == 0);
    lemma_edge_step(5, 10, 33554432);
    lemma_edge_step(6, 26, 16777216);
    lemma_edge_step(7, 32, 8388608);
    lemma_edge_step(8, 6, 4194304);
    lemma_edge_step(9, 0, 2097152);
    lemma_edge_step(10, 5, 1048576);
    lemma_edge_step(11, 3, 524288);
    lemma_edge_step(12, 2, 262144);
    lemma_edge_step(13, 6, 131072);
    lemma_edge_step(14, 2, 65536);
    lemma_edge_step(15, 3, 32768);
    lemma_edge_step(16, 0, 16384);
    lemma_edge_step(17, 0, 8192);
    lemma_edge_step(18, 0, 4096);
    lemma_edge_step(19, 3, 2048);
    lemma_edge_step(20, 8, 1024);
    lemma_edge_step(21, 13, 512);
    lemma_edge_step(22, 26, 256);
    lemma_edge_step(23, 29, 128);
    lemma_edge_step(24, 12, 64);
    lemma_edge_step(25, 4, 32);
    lemma_edge_step(26, 15, 16);
    lemma_edge_step(27, 19, 8);
    lemma_edge_step(28, 29, 4);
    lemma_edge_step(29, 0, 2);
    lemma_edge_step(30, 4, 1);
    if len == 5 {
        lemma_class(5, 0, 10, 0, 33554432);
    } else if len == 6 {
        lemma_class(6, 20, 26, 10, 16777216);
    } else if len == 7 {
        lemma_class(7, 92, 32, 36, 8388608);
    } else if len == 8 {
        lemma_class(8, 248, 6, 68, 4194304);
    } else if len == 10 {
        lemma_class(10, 1016, 5, 74, 1048576);
    } else if len == 11 {
        lemma_class(11, 2042, 3, 79, 524288);
    } else if len == 12 {
        lemma_class(12, 4090, 2, 82, 262144);
    } else if len == 13 {
        lemma_class(13, 8184, 6, 84, 131072);
    } else if len == 14 {
        lemma_class(14, 16380, 2, 90, 65536);
    } else if len == 15 {
        lemma_class(15, 32764, 3, 92, 32768);
    } else if len == 19 {
        lemma_class(19, 524272, 3, 95, 2048);
    } else if len == 20 {
        lemma_class(20, 1048550, 8, 98, 1024);
    } else if len == 21 {
        lemma_class(21, 2097116, 13, 106, 512);
    } else if len == 22 {
        lemma_class(22, 4194258, 26, 119, 256);
    } else if len == 23 {
        lemma_class(23, 8388568, 29, 145, 128);
    } else if len == 24 {
        lemma_class(24, 16777194, 12, 174, 64);
    } else if len == 25 {
        lemma_class(25, 33554412, 4, 186, 32);
    } else if len == 26 {
        lemma_class(26, 67108832, 15, 190, 16);
    } else if len == 27 {
        lemma_class(27, 134217694, 19, 205, 8);
    } else if len == 28 {
        lemma_class(28, 268435426, 29, 224, 4);
    } else if len == 30 {
        lemma_class(30, 1073741820, 4, 253, 1);
    }
}

/// Codes of one length are given to symbols in ascending order.
#[verifier::spinoff_prover]
#[verifier::rlimit(60)]
pub proof fn symbols_ascend(len: int, code: int)
    requires
        huffman::code_symbol(code, len) is Some,
        huffman::code_symbol(code + 1, len) is Some,
    ensures
        huffman::code_symbol(code, len)->0 < huffman::code_symbol(code + 1, len)->0,
{
}

// ---------------------------------------------------------------------------
// Bits
// ---------------------------------------------------------------------------

/// The bits of a text, the most significant of each byte first.
pub open spec fn bits(src: Seq<u8>) -> Seq<int> {
    Seq::new(8 * src.len(), |i: int| src[i / 8] as int / pow2((7 - i % 8) as nat) as int % 2)
}

/// The number that bits stand for, the most significant first.
pub open spec fn number(b: Seq<int>) -> int
    decreases b.len(),
{
    if b.len() == 0 {
        0
    } else {
        2 * number(b.drop_last()) + b.last()
    }
}

pub open spec fn are_bits(b: Seq<int>) -> bool {
    forall|i: int| 0 <= i < b.len() ==> #[trigger] b[i] == 0 || b[i] == 1
}

pub open spec fn all_ones(b: Seq<int>) -> bool {
    forall|i: int| 0 <= i < b.len() ==> #[trigger] b[i] == 1
}

/// One after the other.
pub open spec fn flat(cs: Seq<Seq<int>>) -> Seq<int>
    decreases cs.len(),
{
    if cs.len() == 0 {
        Seq::empty()
    } else {
        cs[0] + flat(cs.skip(1))
    }
}

/// The bits are the code of this byte, and not that of the end of a text.
pub open spec fn is_code(c: Seq<int>, b: u8) -> bool {
    are_bits(c) && (huffman::code_symbol(number(c), c.len() as int) matches Some(x) && x != 256
        && x as u8 == b)
}

/// Each of these is the code of its byte.
pub open spec fn are_codes(cs: Seq<Seq<int>>, out: Seq<u8>) -> bool {
    cs.len() == out.len() && forall|i: int| 0 <= i < cs.len() ==> is_code(#[trigger] cs[i], out[i])
}

/// Reading bit by bit.
spec fn walked(p: Progress, b: Seq<int>, cap: int) -> Result<Seq<u8>, Error>
    decreases b.len(),
{
    if b.len() == 0 {
        huffman::finish(p)
    } else {
        match huffman::read_bit(p, b[0], cap) {
            Ok(q) => walked(q, b.skip(1), cap),
            Err(e) => Err(e),
        }
    }
}

proof fn lemma_bit(src: Seq<u8>, pos: int, k: int)
    requires
        0 <= pos < src.len(),
        0 <= k < 8,
    ensures
        bits(src)[8 * pos + k] == huffman::bit_of(src[pos], k),
        bits(src)[8 * pos + k] == 0 || bits(src)[8 * pos + k] == 1,
{
    lemma2_to64();
    let i = 8 * pos + k;
    assert(i / 8 == pos && i % 8 == k);
    let b = src[pos] as int;
    assert(b / 128 % 2 == b / 128);
    assert(b / 1 == b);
}

proof fn lemma_walked(p: Progress, src: Seq<u8>, pos: int, k: int, cap: int)
    requires
        0 <= pos <= src.len(),
        0 <= k <= 8,
        pos == src.len() ==> k == 0,
    ensures
        huffman::read_from(p, src, pos, k, cap) == walked(p, bits(src).skip(8 * pos + k), cap),
    decreases src.len() - pos, 8 - k,
{
    let b = bits(src).skip(8 * pos + k);
    if pos < src.len() {
        if k >= 8 {
            lemma_walked(p, src, pos + 1, 0, cap);
        } else {
            lemma_bit(src, pos, k);
            assert(b.skip(1) =~= bits(src).skip(8 * pos + k + 1));
            match huffman::read_bit(p, huffman::bit_of(src[pos], k), cap) {
                Ok(q) => lemma_walked(q, src, pos, k + 1, cap),
                Err(_) => {},
            }
        }
    }
}

proof fn lemma_split(c: Seq<int>, l: int)
    requires
        are_bits(c),
        0 <= l <= c.len(),
    ensures
        number(c.take(l)) * pow2((c.len() - l) as nat) <= number(c),
        number(c) < (number(c.take(l)) + 1) * pow2((c.len() - l) as nat),
    decreases c.len(),
{
    lemma2_to64();
    let u = number(c.take(l));
    if l == c.len() {
        assert(c.take(l) =~= c);
        assert(u * 1 == u && (u + 1) * 1 == u + 1);
    } else {
        let d = c.drop_last();
        assert(are_bits(d)) by {
            assert forall|i: int| 0 <= i < d.len() implies #[trigger] d[i] == 0 || d[i] == 1 by {
                assert(d[i] == c[i]);
            }
        }
        lemma_split(d, l);
        assert(d.take(l) =~= c.take(l));
        let n = (c.len() - l) as nat;
        lemma_pow2_unfold(n);
        let q = pow2((n - 1) as nat) as int;
        assert(c[c.len() - 1] == 0 || c[c.len() - 1] == 1);
        assert(u * (2 * q) == 2 * (u * q)) by (nonlinear_arith);
        assert((u + 1) * (2 * q) == 2 * ((u + 1) * q)) by (nonlinear_arith);
    }
}

proof fn lemma_edge_grows(a: int, b: int)
    requires
        5 <= a <= b <= 31,
    ensures
        edge(a) <= edge(b),
    decreases b - a,
{
    if a < b {
        lemma_edge_grows(a, b - 1);
        let n = count(b - 1);
        let q = pow2((31 - b) as nat) as int;
        assert(n >= 0);
        assert(n * q >= 0) by (nonlinear_arith)
            requires
                n >= 0,
                q >= 0,
        ;
    }
}

/// No code begins with another.
proof fn lemma_no_code_before(c: Seq<int>, l: int)
    requires
        are_bits(c),
        huffman::code_symbol(number(c), c.len() as int) is Some,
        0 <= l < c.len(),
    ensures
        huffman::code_symbol(number(c.take(l)), l) is None,
{
    lemma_split(c, l);
    let n = c.len() as int;
    codes_are_canonical(n);
    let u = number(c.take(l));
    let v = number(c);
    if huffman::code_symbol(u, l) is Some {
        codes_are_canonical(l);
        let (fl, cl, _) = huffman::length_class(l)->0;
        let (fn_, _, _) = huffman::length_class(n)->0;
        lemma_edge_grows(l + 1, n);
        let a = pow2((n - l) as nat) as int;
        let b = pow2((30 - n) as nat) as int;
        let ab = pow2((30 - l) as nat) as int;
        vstd::arithmetic::power2::lemma_pow2_adds((n - l) as nat, (30 - n) as nat);
        vstd::arithmetic::power2::lemma_pow2_pos((30 - n) as nat);
        vstd::arithmetic::power2::lemma_pow2_pos((n - l) as nat);
        assert(a * b == ab);
        assert(edge(l + 1) == fl * ab + cl * ab);
        assert(fl * ab + cl * ab == (fl + cl) * ab) by (nonlinear_arith);
        assert(v < (fl + cl) * a) by (nonlinear_arith)
            requires
                v < (u + 1) * a,
                u + 1 <= fl + cl,
                a > 0,
        ;
        assert(v * b < (fl + cl) * ab) by (nonlinear_arith)
            requires
                v < (fl + cl) * a,
                b > 0,
                a * b == ab,
        ;
        assert(v * b >= fn_ * b) by (nonlinear_arith)
            requires
                v >= fn_,
                b > 0,
        ;
    }
}

/// A code is read to its end, and gives its byte.
proof fn lemma_code_read(c: Seq<int>, l: int, out: Seq<u8>, x: u8, rest: Seq<int>, cap: int)
    requires
        is_code(c, x),
        0 <= l < c.len(),
        out.len() < cap,
    ensures
        walked(Progress { code: number(c.take(l)), len: l, out }, c.skip(l) + rest, cap) == walked(
            Progress { code: 0, len: 0, out: out.push(x) },
            rest,
            cap,
        ),
    decreases c.len() - l,
{
    let p = Progress { code: number(c.take(l)), len: l, out };
    let b = c.skip(l) + rest;
    assert(b[0] == c[l]);
    assert(c.take(l + 1).drop_last() =~= c.take(l));
    assert(number(c.take(l + 1)) == 2 * number(c.take(l)) + c[l]);
    if l + 1 == c.len() {
        assert(c.take(l + 1) =~= c);
        assert(b.skip(1) =~= rest);
        assert(huffman::read_bit(p, b[0], cap) == Ok::<Progress, Error>(
            Progress { code: 0, len: 0, out: out.push(x) },
        ));
    } else {
        assert(b.skip(1) =~= c.skip(l + 1) + rest);
        lemma_no_code_before(c, l + 1);
        let q = Progress { code: number(c.take(l + 1)), len: l + 1, out };
        assert(huffman::read_bit(p, b[0], cap) == Ok::<Progress, Error>(q));
        lemma_code_read(c, l + 1, out, x, rest, cap);
    }
}

proof fn lemma_ones_number(b: Seq<int>)
    requires
        are_bits(b),
    ensures
        number(b) + 1 <= pow2(b.len()),
        number(b) + 1 == pow2(b.len()) <==> all_ones(b),
    decreases b.len(),
{
    lemma2_to64();
    if b.len() > 0 {
        let d = b.drop_last();
        assert(are_bits(d)) by {
            assert forall|i: int| 0 <= i < d.len() implies #[trigger] d[i] == 0 || d[i] == 1 by {
                assert(d[i] == b[i]);
            }
        }
        lemma_ones_number(d);
        lemma_pow2_unfold(b.len());
        assert(b[b.len() - 1] == 0 || b[b.len() - 1] == 1);
        if all_ones(b) {
            assert(all_ones(d)) by {
                assert forall|i: int| 0 <= i < d.len() implies #[trigger] d[i] == 1 by {
                    assert(d[i] == b[i]);
                }
            }
        } else if all_ones(d) && b.last() == 1 {
            assert forall|i: int| 0 <= i < b.len() implies #[trigger] b[i] == 1 by {
                if i < d.len() {
                    assert(b[i] == d[i]);
                }
            }
        }
    }
}

/// Padding is read to its end, and gives nothing.
proof fn lemma_padding_read(pad: Seq<int>, l: int, out: Seq<u8>, cap: int)
    requires
        all_ones(pad),
        pad.len() <= 7,
        0 <= l <= pad.len(),
    ensures
        walked(Progress { code: number(pad.take(l)), len: l, out }, pad.skip(l), cap) == Ok::<
            Seq<u8>,
            Error,
        >(out),
    decreases pad.len() - l,
{
    lemma2_to64();
    let a = pad.take(l);
    assert(all_ones(a) && are_bits(a)) by {
        assert forall|i: int| 0 <= i < a.len() implies #[trigger] a[i] == 1 by {
            assert(a[i] == pad[i]);
        }
    }
    lemma_ones_number(a);
    if l < pad.len() {
        let c = pad.take(l + 1);
        assert(c.drop_last() =~= a);
        assert(all_ones(c) && are_bits(c)) by {
            assert forall|i: int| 0 <= i < c.len() implies #[trigger] c[i] == 1 by {
                assert(c[i] == pad[i]);
            }
        }
        lemma_ones_number(c);
        assert(pad.skip(l)[0] == 1) by {
            assert(pad.skip(l)[0] == pad[l]);
        }
        assert(pad.skip(l).skip(1) =~= pad.skip(l + 1));
        assert(huffman::code_symbol(number(c), l + 1) is None);
        lemma_padding_read(pad, l + 1, out, cap);
    }
}

proof fn lemma_codes_read(cs: Seq<Seq<int>>, done: Seq<u8>, out: Seq<u8>, pad: Seq<int>, cap: int)
    requires
        are_codes(cs, out),
        all_ones(pad),
        pad.len() <= 7,
        done.len() + out.len() <= cap,
    ensures
        walked(Progress { code: 0, len: 0, out: done }, flat(cs) + pad, cap) == Ok::<Seq<u8>, Error>(
            done + out,
        ),
    decreases cs.len(),
{
    if cs.len() == 0 {
        assert(flat(cs) + pad =~= pad);
        assert(pad.skip(0) =~= pad);
        assert(pad.take(0) =~= Seq::<int>::empty());
        lemma_padding_read(pad, 0, done, cap);
        assert(done + out =~= done);
    } else {
        let c = cs[0];
        let cs1 = cs.skip(1);
        let out1 = out.skip(1);
        assert(is_code(c, out[0]));
        assert(c.len() >= 5);
        assert(are_codes(cs1, out1)) by {
            assert forall|i: int| 0 <= i < cs1.len() implies is_code(#[trigger] cs1[i], out1[i]) by {
                assert(cs1[i] == cs[i + 1]);
                assert(is_code(cs[i + 1], out[i + 1]));
            }
        }
        lemma_code_read(c, 0, done, out[0], flat(cs1) + pad, cap);
        assert(c.take(0) =~= Seq::<int>::empty());
        assert(c.skip(0) + (flat(cs1) + pad) =~= flat(cs) + pad);
        lemma_codes_read(cs1, done.push(out[0]), out1, pad, cap);
        assert(done.push(out[0]) + out1 =~= done + out);
    }
}

/// A text whose bits are the codes of some bytes, and then fewer than eight bits of
/// padding, all set, is decoded to those bytes.
pub proof fn codes_are_decoded(
    src: Seq<u8>,
    cs: Seq<Seq<int>>,
    pad: Seq<int>,
    out: Seq<u8>,
    cap: int,
)
    requires
        are_codes(cs, out),
        all_ones(pad),
        pad.len() <= 7,
        bits(src) == flat(cs) + pad,
        out.len() <= cap,
    ensures
        huffman::decoded(src, cap) == Ok::<Seq<u8>, Error>(out),
{
    let p = Progress { code: 0, len: 0, out: Seq::empty() };
    lemma_walked(p, src, 0, 0, cap);
    assert(bits(src).skip(0) =~= bits(src));
    lemma_codes_read(cs, Seq::empty(), out, pad, cap);
    assert(Seq::<u8>::empty() + out =~= out);
}

proof fn lemma_flat_push(cs: Seq<Seq<int>>, c: Seq<int>)
    ensures
        flat(cs.push(c)) == flat(cs) + c,
    decreases cs.len(),
{
    assert(cs.push(c).len() > 0);
    if cs.len() == 0 {
        assert(cs.push(c).skip(1) =~= Seq::<Seq<int>>::empty());
        assert(flat(cs.push(c)) == c + flat(cs.push(c).skip(1)));
        assert(flat(cs.push(c)) =~= flat(cs) + c);
    } else {
        assert(cs.push(c)[0] == cs[0]);
        assert(cs.push(c).skip(1) =~= cs.skip(1).push(c));
        lemma_flat_push(cs.skip(1), c);
        assert(flat(cs.push(c)) =~= flat(cs) + c);
    }
}

/// What was read is a run of codes and the bits of another.
proof fn lemma_read_codes(
    cs: Seq<Seq<int>>,
    pend: Seq<int>,
    out: Seq<u8>,
    b: Seq<int>,
    cap: int,
) -> (r: (Seq<Seq<int>>, Seq<int>))
    requires
        are_codes(cs, out),
        are_bits(pend),
        are_bits(b),
        out.len() <= cap || out.len() == 0,
    ensures
        walked(Progress { code: number(pend), len: pend.len() as int, out }, b, cap) matches Ok(s)
            ==> are_codes(r.0, s) && all_ones(r.1) && r.1.len() <= 7 && flat(cs) + pend + b == flat(
            r.0,
        ) + r.1 && (s.len() <= cap || s.len() == 0),
    decreases b.len(),
{
    let p = Progress { code: number(pend), len: pend.len() as int, out };
    if b.len() == 0 {
        lemma_ones_number(pend);
        assert(flat(cs) + pend + b =~= flat(cs) + pend);
        (cs, pend)
    } else {
        let c = pend.push(b[0]);
        assert(c.drop_last() =~= pend);
        assert(are_bits(c)) by {
            assert forall|i: int| 0 <= i < c.len() implies #[trigger] c[i] == 0 || c[i] == 1 by {
                if i < pend.len() {
                    assert(c[i] == pend[i]);
                } else {
                    assert(c[i] == b[0]);
                }
            }
        }
        let d = b.skip(1);
        assert(are_bits(d)) by {
            assert forall|i: int| 0 <= i < d.len() implies #[trigger] d[i] == 0 || d[i] == 1 by {
                assert(d[i] == b[i + 1]);
            }
        }
        match huffman::read_bit(p, b[0], cap) {
            Err(_) => (cs, pend),
            Ok(q) => {
                match huffman::code_symbol(number(c), c.len() as int) {
                    Some(x) => {
                        let ds = cs.push(c);
                        let s = out.push(x as u8);
                        assert(are_codes(ds, s)) by {
                            assert forall|i: int| 0 <= i < ds.len() implies is_code(
                                #[trigger] ds[i],
                                s[i],
                            ) by {
                                if i < cs.len() {
                                    assert(ds[i] == cs[i]);
                                    assert(is_code(cs[i], out[i]));
                                }
                            }
                        }
                        lemma_flat_push(cs, c);
                        let r = lemma_read_codes(ds, Seq::empty(), s, d, cap);
                        assert(flat(ds) + Seq::<int>::empty() + d =~= flat(cs) + pend + b);
                        r
                    },
                    None => {
                        let r = lemma_read_codes(cs, c, out, d, cap);
                        assert(flat(cs) + c + d =~= flat(cs) + pend + b);
                        r
                    },
                }
            },
        }
    }
}

/// A text that is decoded has for its bits the codes of the bytes that it is decoded to,
/// and then fewer than eight bits of padding, all set. No more bytes come of it than
/// there is room for.
pub proof fn decoded_texts_are_codes(src: Seq<u8>, cap: int) -> (r: (Seq<Seq<int>>, Seq<int>))
    ensures
        huffman::decoded(src, cap) matches Ok(out) ==> are_codes(r.0, out) && all_ones(r.1)
            && r.1.len() <= 7 && bits(src) == flat(r.0) + r.1 && (out.len() <= cap || out.len() == 0),
{
    let p = Progress { code: 0, len: 0, out: Seq::empty() };
    let b = bits(src);
    assert(are_bits(b)) by {
        assert forall|i: int| 0 <= i < b.len() implies #[trigger] b[i] == 0 || b[i] == 1 by {
            lemma_bit(src, i / 8, i % 8);
            assert(8 * (i / 8) + i % 8 == i);
        }
    }
    lemma_walked(p, src, 0, 0, cap);
    assert(b.skip(0) =~= b);
    let r = lemma_read_codes(Seq::empty(), Seq::empty(), Seq::empty(), b, cap);
    assert(flat(Seq::empty()) + Seq::<int>::empty() + b =~= b);
    r
}

} // verus!
