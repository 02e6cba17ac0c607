//! Byte-slice helpers and big-endian integers.

use vstd::prelude::*;

verus! {

/// A header field: name and value.
pub type Field = (Seq<u8>, Seq<u8>);

/// A chunk that was put into a buffer stands at its start. Where there is none,
/// the buffer is as it was.
pub open spec fn chunk_at_start(before: Seq<u8>, after: Seq<u8>, r: Option<&[u8]>) -> bool {
    &&& after.len() == before.len()
    &&& match r {
        Some(chunk) => chunk@.len() <= after.len() && after.take(chunk@.len() as int) == chunk@,
        None => after == before,
    }
}

/// A sequence. It exists in specifications alone.
pub type Sequence<T> = Seq<T>;

/// A number without bounds. It exists in specifications alone.
pub type Unbounded = int;

/// A decoded header field.
#[derive(Debug)]
pub struct HeaderField {
    pub name: Vec<u8>,
    pub value: Vec<u8>,
}

impl View for HeaderField {
    type V = Field;

    open spec fn view(&self) -> Field {
        (self.name@, self.value@)
    }
}

/// The fields that a list of header fields holds.
pub open spec fn fields(list: Seq<HeaderField>) -> Seq<Field> {
    Seq::new(list.len(), |i: int| list[i]@)
}

/// The fields that a list of borrowed name/value pairs stands for.
pub open spec fn pairs(list: Seq<(&[u8], &[u8])>) -> Seq<Field> {
    Seq::new(list.len(), |i: int| (list[i].0@, list[i].1@))
}

/// Appends a field to a list.
pub fn push_field(out: &mut Vec<HeaderField>, name: &[u8], value: &[u8])
    ensures
        fields(final(out)@) == fields(old(out)@).push((name@, value@)),
{
    let field = HeaderField {
        name: vstd::slice::slice_to_vec(name),
        value: vstd::slice::slice_to_vec(value),
    };
    out.push(field);
    assert(fields(out@) =~= fields(old(out)@).push((name@, value@)));
}

/// `base` with the bytes from `at` on replaced by `src`.
pub open spec fn splice(base: Seq<u8>, at: int, src: Seq<u8>) -> Seq<u8> {
    base.take(at) + src + base.skip(at + src.len())
}

/// Copies `src` into `dst` at `at`.
pub fn copy_into(dst: &mut [u8], at: usize, src: &[u8])
    requires
        at + src@.len() <= old(dst)@.len(),
    ensures
        final(dst)@ == splice(old(dst)@, at as int, src@),
{
    let n: usize = src.len();
    let end: usize = dst.len();
    let mut i: usize = 0;
    assert(dst@ =~= splice(old(dst)@, at as int, src@.take(0)));
    while i < n
        invariant
            i <= n,
            n == src@.len(),
            at + n <= end,
            end == old(dst)@.len(),
            dst@ == splice(old(dst)@, at as int, src@.take(i as int)),
        decreases n - i,
    {
        let b: u8 = src[i];
        dst[at + i] = b;
        i = i + 1;
        assert(dst@ =~= splice(old(dst)@, at as int, src@.take(i as int)));
    }
    assert(src@.take(n as int) =~= src@);
}

/// Whether two byte strings are equal.
pub fn bytes_equal(a: &[u8], b: &[u8]) -> (r: bool)
    ensures
        r == (a@ == b@),
{
    let n: usize = a.len();
    if n != b.len() {
        return false;
    }
    let mut i: usize = 0;
    while i < n
        invariant
            i <= n,
            n == a@.len(),
            n == b@.len(),
            a@.take(i as int) == b@.take(i as int),
        decreases n - i,
    {
        if a[i] != b[i] {
            assert(a@[i as int] != b@[i as int]);
            return false;
        }
        i = i + 1;
        assert(a@.take(i as int) =~= a@.take(i - 1).push(a@[i - 1]));
        assert(b@.take(i as int) =~= b@.take(i - 1).push(b@[i - 1]));
    }
    assert(a@.take(n as int) =~= a@);
    assert(b@.take(n as int) =~= b@);
    true
}

/// Appends the bytes of `src` to `dst`.
pub fn append(dst: &mut Vec<u8>, src: &[u8])
    ensures
        final(dst)@ == old(dst)@ + src@,
{
    dst.extend_from_slice(src);
    assert(dst@ =~= old(dst)@ + src@);
}

/// Big-endian bytes of a 16-bit integer.
pub open spec fn be16(x: u16) -> Seq<u8> {
    seq![(x / 256) as u8, (x % 256) as u8]
}

/// Big-endian bytes of the low 24 bits of an integer.
pub open spec fn be24(x: int) -> Seq<u8> {
    seq![(x / 65536 % 256) as u8, (x / 256 % 256) as u8, (x % 256) as u8]
}

/// Big-endian bytes of a 32-bit integer.
pub open spec fn be32(x: u32) -> Seq<u8> {
    seq![
        (x / 16777216) as u8,
        (x / 65536 % 256) as u8,
        (x / 256 % 256) as u8,
        (x % 256) as u8,
    ]
}

/// The 16-bit integer whose big-endian bytes stand at `i`.
pub open spec fn read16(s: Seq<u8>, i: int) -> int {
    s[i] * 256 + s[i + 1]
}

/// The 24-bit integer whose big-endian bytes stand at `i`.
pub open spec fn read24(s: Seq<u8>, i: int) -> int {
    s[i] * 65536 + s[i + 1] * 256 + s[i + 2]
}

/// The 32-bit integer whose big-endian bytes stand at `i`.
pub open spec fn read32(s: Seq<u8>, i: int) -> int {
    s[i] * 16777216 + s[i + 1] * 65536 + s[i + 2] * 256 + s[i + 3]
}

/// The 31-bit integer at `i`: a 32-bit one whose reserved top bit is ignored.
pub open spec fn read31(s: Seq<u8>, i: int) -> int {
    (s[i] % 128) * 16777216 + s[i + 1] * 65536 + s[i + 2] * 256 + s[i + 3]
}

/// Appends the big-endian bytes of a 16-bit integer.
pub fn put16(dst: &mut Vec<u8>, x: u16)
    ensures
        final(dst)@ == old(dst)@ + be16(x),
{
    dst.push((x / 256) as u8);
    dst.push((x % 256) as u8);
    assert(dst@ =~= old(dst)@ + be16(x));
}

/// Appends the big-endian bytes of a 32-bit integer.
pub fn put32(dst: &mut Vec<u8>, x: u32)
    ensures
        final(dst)@ == old(dst)@ + be32(x),
{
    dst.push((x / 16777216) as u8);
    dst.push((x / 65536 % 256) as u8);
    dst.push((x / 256 % 256) as u8);
    dst.push((x % 256) as u8);
    assert(dst@ =~= old(dst)@ + be32(x));
}

/// Reads a big-endian 16-bit integer at `i`.
pub fn get16(s: &[u8], i: usize) -> (r: u16)
    requires
        i + 2 <= s@.len(),
    ensures
        r == read16(s@, i as int),
{
    s[i] as u16 * 256 + s[i + 1] as u16
}

/// Reads a big-endian 32-bit integer at `i`.
pub fn get32(s: &[u8], i: usize) -> (r: u32)
    requires
        i + 4 <= s@.len(),
    ensures
        r == read32(s@, i as int),
{
    s[i] as u32 * 16777216 + s[i + 1] as u32 * 65536 + s[i + 2] as u32 * 256 + s[i + 3] as u32
}

/// Reads a big-endian 31-bit integer at `i`, ignoring the reserved top bit.
pub fn get31(s: &[u8], i: usize) -> (r: u32)
    requires
        i + 4 <= s@.len(),
    ensures
        r == read31(s@, i as int),
        r <= 0x7fff_ffff,
{
    (s[i] % 128) as u32 * 16777216 + s[i + 1] as u32 * 65536 + s[i + 2] as u32 * 256 + s[i + 3] as u32
}

} // verus!
