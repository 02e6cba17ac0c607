//! HPACK Huffman decoding (RFC 7541 §5.2 and Appendix B).

use vstd::prelude::*;

use crate::error::Error;

verus! {

/// The end-of-string symbol.
pub const EOS: u16 = 256;

/// Length of the longest code.
pub const MAX_CODE_LEN: u32 = 30;

/// All symbols in the order of their codes. The code is canonical: codes of one
/// length are consecutive integers.
pub const SYMBOLS: [u16; 257] = [
    48, 49, 50, 97, 99, 101, 105, 111, 115, 116, 32, 37, 45, 46, 47, 51,
    52, 53, 54, 55, 56, 57, 61, 65, 95, 98, 100, 102, 103, 104, 108, 109,
    110, 112, 114, 117, 58, 66, 67, 68, 69, 70, 71, 72, 73, 74, 75, 76,
    77, 78, 79, 80, 81, 82, 83, 84, 85, 86, 87, 89, 106, 107, 113, 118,
    119, 120, 121, 122, 38, 42, 44, 59, 88, 90, 33, 34, 40, 41, 63, 39,
    43, 124, 35, 62, 0, 36, 64, 91, 93, 126, 94, 125, 60, 96, 123, 92,
    195, 208, 128, 130, 131, 162, 184, 194, 224, 226, 153, 161, 167, 172, 176, 177,
    179, 209, 216, 217, 227, 229, 230, 129, 132, 133, 134, 136, 146, 154, 156, 160,
    163, 164, 169, 170, 173, 178, 181, 185, 186, 187, 189, 190, 196, 198, 228, 232,
    233, 1, 135, 137, 138, 139, 140, 141, 143, 147, 149, 150, 151, 152, 155, 157,
    158, 165, 166, 168, 174, 175, 180, 182, 183, 188, 191, 197, 231, 239, 9, 142,
    144, 145, 148, 159, 171, 206, 215, 225, 236, 237, 199, 207, 234, 235, 192, 193,
    200, 201, 202, 205, 210, 213, 218, 219, 238, 240, 242, 243, 255, 203, 204, 211,
    212, 214, 221, 222, 223, 241, 244, 245, 246, 247, 248, 250, 251, 252, 253, 254,
    2, 3, 4, 5, 6, 7, 8, 11, 12, 14, 15, 16, 17, 18, 19, 20,
    21, 23, 24, 25, 26, 27, 28, 29, 30, 31, 127, 220, 249, 10, 13, 22,
    256,
];

/// The codes of `len` bits: the first of them, how many there are, and where
/// their symbols start in `SYMBOLS`.
pub open spec fn length_class(len: int) -> Option<(int, int, int)> {
    if len < 5 || len > 30 {
        None
    } else {
        match len as u32 {
            5 => Some((0, 10, 0)),
            6 => Some((20, 26, 10)),
            7 => Some((92, 32, 36)),
            8 => Some((248, 6, 68)),
            10 => Some((1016, 5, 74)),
            11 => Some((2042, 3, 79)),
            12 => Some((4090, 2, 82)),
            13 => Some((8184, 6, 84)),
            14 => Some((16380, 2, 90)),
            15 => Some((32764, 3, 92)),
            19 => Some((524272, 3, 95)),
            20 => Some((1048550, 8, 98)),
            21 => Some((2097116, 13, 106)),
            22 => Some((4194258, 26, 119)),
            23 => Some((8388568, 29, 145)),
            24 => Some((16777194, 12, 174)),
            25 => Some((33554412, 4, 186)),
            26 => Some((67108832, 15, 190)),
            27 => Some((134217694, 19, 205)),
            28 => Some((268435426, 29, 224)),
            30 => Some((1073741820, 4, 253)),
            _ => None,
        }
    }
}

fn exec_length_class(len: u32) -> (r: Option<(u32, u32, usize)>)
    ensures
        match r {
            Some((first, count, start)) => length_class(len as int) == Some(
                (first as int, count as int, start as int),
            ) && start + count <= 257,
            None => length_class(len as int) is None,
        },
{
    match len {
        5 => Some((0, 10, 0)),
        6 => Some((20, 26, 10)),
        7 => Some((92, 32, 36)),
        8 => Some((248, 6, 68)),
        10 => Some((1016, 5, 74)),
        11 => Some((2042, 3, 79)),
        12 => Some((4090, 2, 82)),
        13 => Some((8184, 6, 84)),
        14 => Some((16380, 2, 90)),
        15 => Some((32764, 3, 92)),
        19 => Some((524272, 3, 95)),
        20 => Some((1048550, 8, 98)),
        21 => Some((2097116, 13, 106)),
        22 => Some((4194258, 26, 119)),
        23 => Some((8388568, 29, 145)),
        24 => Some((16777194, 12, 174)),
        25 => Some((33554412, 4, 186)),
        26 => Some((67108832, 15, 190)),
        27 => Some((134217694, 19, 205)),
        28 => Some((268435426, 29, 224)),
        30 => Some((1073741820, 4, 253)),
        _ => None,
    }
}

/// The symbol whose code is the `len` bits `code`, if they are a code.
pub open spec fn code_symbol(code: int, len: int) -> Option<u16> {
    match length_class(len) {
        Some((first, count, start)) => if first <= code < first + count {
            Some(SYMBOLS[start + code - first])
        } else {
            None
        },
        None => None,
    }
}

fn symbol(code: u32, len: u32) -> (r: Option<u16>)
    ensures
        r == code_symbol(code as int, len as int),
{
    match exec_length_class(len) {
        Some((first, count, start)) => if code >= first && code - first < count {
            Some(SYMBOLS[start + (code - first) as usize])
        } else {
            None
        },
        None => None,
    }
}

/// Bit `k` of a byte, counted from the most significant.
pub open spec fn bit_of(b: u8, k: int) -> int {
    match k as u8 {
        0 => b as int / 128,
        1 => b as int / 64 % 2,
        2 => b as int / 32 % 2,
        3 => b as int / 16 % 2,
        4 => b as int / 8 % 2,
        5 => b as int / 4 % 2,
        6 => b as int / 2 % 2,
        _ => b as int % 2,
    }
}

fn exec_bit_of(b: u8, k: u8) -> (r: u32)
    ensures
        r == bit_of(b, k as int),
        r <= 1,
{
    let bit: u8 = match k {
        0 => b / 128,
        1 => b / 64 % 2,
        2 => b / 32 % 2,
        3 => b / 16 % 2,
        4 => b / 8 % 2,
        5 => b / 4 % 2,
        6 => b / 2 % 2,
        _ => b % 2,
    };
    bit as u32
}

/// Decoding in progress: the bits read since the last symbol, as a number and
/// a count, and the symbols decoded so far.
pub struct Progress {
    pub code: int,
    pub len: int,
    pub out: Seq<u8>,
}

/// Reads one bit. At most `cap` symbols are decoded.
pub open spec fn read_bit(p: Progress, bit: int, cap: int) -> Result<Progress, Error> {
    let code = p.code * 2 + bit;
    let len = p.len + 1;
    match code_symbol(code, len) {
        Some(s) => if s == EOS {
            Err(Error::InvalidState)
        } else if p.out.len() >= cap {
            Err(crate::error::too_small(cap + 1))
        } else {
            Ok(Progress { code: 0, len: 0, out: p.out.push(s as u8) })
        },
        None => if len >= MAX_CODE_LEN {
            Err(Error::InvalidState)
        } else {
            Ok(Progress { code, len, out: p.out })
        },
    }
}

/// What is left at the end must be padding: fewer than eight bits, all set.
pub open spec fn finish(p: Progress) -> Result<Seq<u8>, Error> {
    if p.len <= 7 && p.code + 1 == vstd::arithmetic::power2::pow2(p.len as nat) {
        Ok(p.out)
    } else {
        Err(Error::InvalidState)
    }
}

/// Reads `src` from bit `k` of byte `pos` on.
pub open spec fn read_from(p: Progress, src: Seq<u8>, pos: int, k: int, cap: int) -> Result<
    Seq<u8>,
    Error,
>
    decreases src.len() - pos, 8 - k,
{
    if pos >= src.len() {
        finish(p)
    } else if k >= 8 {
        read_from(p, src, pos + 1, 0, cap)
    } else {
        match read_bit(p, bit_of(src[pos], k), cap) {
            Ok(q) => read_from(q, src, pos, k + 1, cap),
            Err(e) => Err(e),
        }
    }
}

/// The string that `src` decodes to, where it has at most `cap` bytes.
pub open spec fn decoded(src: Seq<u8>, cap: int) -> Result<Seq<u8>, Error> {
    read_from(Progress { code: 0, len: 0, out: Seq::empty() }, src, 0, 0, cap)
}

fn all_ones(len: u32) -> (r: u32)
    requires
        len <= 7,
    ensures
        r + 1 == vstd::arithmetic::power2::pow2(len as nat),
{
    proof {
        vstd::arithmetic::power2::lemma2_to64();
    }
    match len {
        0 => 0,
        1 => 1,
        2 => 3,
        3 => 7,
        4 => 15,
        5 => 31,
        6 => 63,
        _ => 127,
    }
}

/// Decodes a Huffman-coded string of at most `cap` bytes.
pub fn decode(src: &[u8], cap: usize) -> (r: Result<Vec<u8>, Error>)
    ensures
        match r {
            Ok(out) => decoded(src@, cap as int) == Ok::<Seq<u8>, Error>(out@) && out@.len() <= cap,
            Err(e) => decoded(src@, cap as int) == Err::<Seq<u8>, Error>(e),
        },
{
    let mut out: Vec<u8> = Vec::new();
    let mut code: u32 = 0;
    let mut len: u32 = 0;
    let mut pos: usize = 0;
    let mut k: u8 = 0;
    proof {
        vstd::arithmetic::power2::lemma2_to64();
        assert(out@ =~= Seq::<u8>::empty());
    }
    while pos < src.len()
        invariant
            pos <= src@.len(),
            k <= 8,
            len < MAX_CODE_LEN,
            code < vstd::arithmetic::power2::pow2(len as nat),
            out@.len() <= cap,
            read_from(
                Progress { code: code as int, len: len as int, out: out@ },
                src@,
                pos as int,
                k as int,
                cap as int,
            ) == decoded(src@, cap as int),
        decreases src@.len() - pos, 8 - k,
    {
        if k >= 8 {
            pos = pos + 1;
            k = 0;
        } else {
            let bit: u32 = exec_bit_of(src[pos], k);
            proof {
                vstd::arithmetic::power2::lemma_pow2_unfold((len + 1) as nat);
                vstd::arithmetic::power2::lemma2_to64();
                if len + 1 < 30 {
                    vstd::arithmetic::power2::lemma_pow2_strictly_increases((len + 1) as nat, 30);
                }
            }
            code = code * 2 + bit;
            len = len + 1;
            match symbol(code, len) {
                Some(s) => {
                    if s == EOS {
                        return Err(Error::InvalidState);
                    }
                    if out.len() >= cap {
                        return Err(Error::BufferTooSmall { needed: cap.saturating_add(1) });
                    }
                    out.push(s as u8);
                    code = 0;
                    len = 0;
                },
                None => {
                    if len >= MAX_CODE_LEN {
                        return Err(Error::InvalidState);
                    }
                },
            }
            k = k + 1;
        }
    }
    if len <= 7 && code == all_ones(len) {
        Ok(out)
    } else {
        Err(Error::InvalidState)
    }
}

} // verus!
