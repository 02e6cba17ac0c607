//! HPACK encoder and decoder (RFC 7541).
//!
//! The **encoder** is static-only: fields that are not in the static table are
//! sent as literals and nothing is ever indexed, which is always legal.
//!
//! The **decoder** keeps a dynamic table. RFC 7541 §4.2 gives the table an
//! initial size of 4096, and a peer may index against it from its very first
//! header block. Once the peer acknowledges a table size of 0, its size update
//! empties the table.

use std::collections::VecDeque;

use vstd::prelude::*;

use super::huffman;
use super::integer;
use super::static_table;
use super::static_table::{LookupResult, STATIC_TABLE_LEN};
use crate::bytes;
use crate::bytes::{Field, HeaderField};
use crate::error;
use crate::error::Error;

verus! {

/// RFC 7541 §4.2: the initial maximum size of the dynamic table.
pub const INITIAL_DYNAMIC_TABLE_SIZE: usize = 4096;

/// RFC 7541 §4.1: what each entry adds to the lengths of its name and value.
pub const ENTRY_OVERHEAD: usize = 32;

/// The longest field name that is decoded.
pub const MAX_NAME_LEN: usize = 256;

/// The longest Huffman-coded field value that is decoded.
pub const MAX_HUFFMAN_VALUE_LEN: usize = 1024;

// ---------------------------------------------------------------------------
// Encoder
// ---------------------------------------------------------------------------

/// One indivisible part of an encoded header block.
pub struct Piece {
    pub bytes: Seq<u8>,
    /// What the error adds to the length of a part that does not fit.
    pub base: PieceBase,
}

/// What is counted as needed before a part: nothing, the encoded length of
/// this many bytes that stands before it, or all that is written already.
pub enum PieceBase {
    Own,
    Length(int),
    Written,
}

/// The number of bytes reported as needed for a part that does not fit behind
/// `written` bytes.
pub open spec fn needed_for(p: Piece, written: int) -> int {
    p.bytes.len() + match p.base {
        PieceBase::Own => 0,
        PieceBase::Length(n) => n,
        PieceBase::Written => written,
    }
}

/// The encoded integer `v`.
pub open spec fn int_piece(v: int, prefix: u8, flags: u8) -> Piece {
    Piece { bytes: integer::int_bytes(v, prefix, flags), base: PieceBase::Own }
}

/// The bytes of a string behind its encoded length.
pub open spec fn raw_piece(s: Seq<u8>) -> Piece {
    Piece {
        bytes: s,
        base: PieceBase::Length(integer::int_bytes(s.len() as int, 7, 0).len() as int),
    }
}

/// The first byte of a literal field with a literal name.
pub open spec fn new_name_piece() -> Piece {
    Piece { bytes: seq![0u8], base: PieceBase::Written }
}

/// A string literal: its length with the Huffman bit clear, and its bytes.
pub open spec fn string_pieces(s: Seq<u8>) -> Seq<Piece> {
    seq![int_piece(s.len() as int, 7, 0), raw_piece(s)]
}

/// A field: an index where name and value are in the static table, else a
/// literal without indexing.
pub open spec fn field_pieces(f: Field) -> Seq<Piece> {
    match static_table::found(f.0, f.1) {
        LookupResult::ExactMatch(i) => seq![int_piece(i as int, 7, 0x80)],
        LookupResult::NameMatch(i) => seq![int_piece(i as int, 4, 0)] + string_pieces(f.1),
        LookupResult::NotFound => seq![new_name_piece()] + string_pieces(f.0) + string_pieces(f.1),
    }
}

/// A header block: its fields in order.
pub open spec fn block_pieces(fs: Seq<Field>) -> Seq<Piece>
    decreases fs.len(),
{
    if fs.len() == 0 {
        Seq::empty()
    } else {
        field_pieces(fs[0]) + block_pieces(fs.skip(1))
    }
}

/// Writes parts behind `out` until one does not fit in `cap` bytes: what is
/// written, and what the part that did not fit needed.
pub open spec fn put_all(ps: Seq<Piece>, out: Seq<u8>, cap: int) -> (Seq<u8>, Option<int>)
    decreases ps.len(),
{
    if ps.len() == 0 {
        (out, None)
    } else if out.len() + ps[0].bytes.len() <= cap {
        put_all(ps.skip(1), out + ps[0].bytes, cap)
    } else {
        (out, Some(needed_for(ps[0], out.len() as int)))
    }
}

/// The encoded header block.
pub open spec fn block(fs: Seq<Field>) -> Seq<u8>
    decreases fs.len(),
{
    if fs.len() == 0 {
        Seq::empty()
    } else {
        field_bytes(fs[0]) + block(fs.skip(1))
    }
}

/// A string literal.
pub open spec fn string_bytes(s: Seq<u8>) -> Seq<u8> {
    integer::int_bytes(s.len() as int, 7, 0) + s
}

/// An encoded field.
pub open spec fn field_bytes(f: Field) -> Seq<u8> {
    match static_table::found(f.0, f.1) {
        LookupResult::ExactMatch(i) => integer::int_bytes(i as int, 7, 0x80),
        LookupResult::NameMatch(i) => integer::int_bytes(i as int, 4, 0) + string_bytes(f.1),
        LookupResult::NotFound => seq![0u8] + string_bytes(f.0) + string_bytes(f.1),
    }
}

/// HPACK encoder (static table only).
#[derive(Debug, Clone, Copy)]
pub struct HpackEncoder;

impl Default for HpackEncoder {
    fn default() -> (r: Self)
        ensures
            r == HpackEncoder,
    {
        Self::new()
    }
}

/// The first `out.len()` bytes of a buffer replaced by `out`.
pub open spec fn overwritten(buf: Seq<u8>, out: Seq<u8>) -> Seq<u8> {
    out + buf.skip(out.len() as int)
}

/// What writing parts behind the bytes `before` of at most `cap` bytes gives.
pub open spec fn put_outcome(
    ps: Seq<Piece>,
    before: Seq<u8>,
    cap: int,
    after: Seq<u8>,
    r: Result<(), Error>,
) -> bool {
    let (out, missing) = put_all(ps, before, cap);
    &&& after == out
    &&& match missing {
        None => r == Ok::<(), Error>(()),
        Some(n) => r == Err::<(), Error>(error::too_small(n)),
    }
}

/// Appends one part, or reports that `needed` bytes are needed.
fn put(out: &mut Vec<u8>, cap: usize, part: &[u8], needed: usize) -> (r: Result<(), Error>)
    requires
        old(out)@.len() <= cap,
    ensures
        if old(out)@.len() + part@.len() <= cap {
            r == Ok::<(), Error>(()) && final(out)@ == old(out)@ + part@
        } else {
            r == Err::<(), Error>(Error::BufferTooSmall { needed }) && final(out)@ == old(out)@
        },
{
    if cap - out.len() < part.len() {
        return Err(Error::BufferTooSmall { needed });
    }
    bytes::append(out, part);
    Ok(())
}

impl HpackEncoder {
    pub fn new() -> (r: Self)
        ensures
            r == HpackEncoder,
    {
        HpackEncoder
    }

    /// Encodes a header block from a list of (name, value) pairs.
    ///
    /// Returns the number of bytes written. Where the buffer is too small, the
    /// parts that fit are written and the rest is not.
    pub fn encode(&self, headers: &[(&[u8], &[u8])], buf: &mut [u8]) -> (r: Result<usize, Error>)
        ensures
            ({
                let (out, missing) = put_all(
                    block_pieces(bytes::pairs(headers@)),
                    Seq::empty(),
                    old(buf)@.len() as int,
                );
                &&& final(buf)@ == overwritten(old(buf)@, out)
                &&& out.len() <= old(buf)@.len()
                &&& match missing {
                    None => r == Ok::<usize, Error>(out.len() as usize),
                    Some(n) => r == Err::<usize, Error>(error::too_small(n)),
                }
            }),
    {
        let mut out: Vec<u8> = Vec::new();
        let r: Result<(), Error> = self.encode_block(headers, &mut out, buf.len());
        bytes::copy_into(buf, 0, out.as_slice());
        assert(buf@ =~= overwritten(old(buf)@, out@));
        match r {
            Ok(()) => Ok(out.len()),
            Err(e) => Err(e),
        }
    }

    /// Appends an encoded header block to `out`, which takes at most `cap` bytes.
    pub fn encode_block(&self, headers: &[(&[u8], &[u8])], out: &mut Vec<u8>, cap: usize) -> (r:
        Result<(), Error>)
        requires
            old(out)@.len() <= cap,
        ensures
            put_outcome(
                block_pieces(bytes::pairs(headers@)),
                old(out)@,
                cap as int,
                final(out)@,
                r,
            ),
            final(out)@.len() <= cap,
    {
        let ghost all = bytes::pairs(headers@);
        let mut i: usize = 0;
        assert(all.skip(0) =~= all);
        while i < headers.len()
            invariant
                i <= headers@.len(),
                all == bytes::pairs(headers@),
                out@.len() <= cap,
                put_all(block_pieces(all), old(out)@, cap as int) == put_all(
                    block_pieces(all.skip(i as int)),
                    out@,
                    cap as int,
                ),
            decreases headers@.len() - i,
        {
            let (name, value) = headers[i];
            proof {
                assert(all.skip(i as int)[0] == (name@, value@));
                assert(all.skip(i as int).skip(1) =~= all.skip(i + 1));
                lemma_put_concat(
                    field_pieces((name@, value@)),
                    block_pieces(all.skip(i + 1)),
                    out@,
                    cap as int,
                );
            }
            match self.encode_field(name, value, out, cap) {
                Ok(()) => {},
                Err(e) => {
                    return Err(e);
                },
            }
            i = i + 1;
        }
        assert(all.skip(i as int) =~= Seq::<Field>::empty());
        Ok(())
    }

    /// Appends one encoded field.
    fn encode_field(&self, name: &[u8], value: &[u8], out: &mut Vec<u8>, cap: usize) -> (r: Result<
        (),
        Error,
    >)
        requires
            old(out)@.len() <= cap,
        ensures
            put_outcome(field_pieces((name@, value@)), old(out)@, cap as int, final(out)@, r),
            final(out)@.len() <= cap,
    {
        let ghost ps = field_pieces((name@, value@));
        match static_table::lookup(name, value) {
            LookupResult::ExactMatch(idx) => {
                let piece: Vec<u8> = integer::encode_integer(idx as u64, 7, 0x80);
                let needed: usize = piece.len();
                proof {
                    reveal_with_fuel(put_all, 2);
                }
                put(out, cap, piece.as_slice(), needed)
            },
            LookupResult::NameMatch(idx) => {
                let piece: Vec<u8> = integer::encode_integer(idx as u64, 4, 0);
                let needed: usize = piece.len();
                proof {
                    assert(ps.skip(1) =~= string_pieces(value@));
                }
                put(out, cap, piece.as_slice(), needed)?;
                self.encode_string_literal(value, out, cap)
            },
            LookupResult::NotFound => {
                let zero: [u8; 1] = [0];
                let needed: usize = out.len().saturating_add(1);
                proof {
                    assert(zero@ =~= seq![0u8]);
                    assert(ps.skip(1) =~= string_pieces(name@) + string_pieces(value@));
                }
                put(out, cap, &zero, needed)?;
                proof {
                    lemma_put_concat(
                        string_pieces(name@),
                        string_pieces(value@),
                        out@,
                        cap as int,
                    );
                }
                self.encode_string_literal(name, out, cap)?;
                self.encode_string_literal(value, out, cap)
            },
        }
    }

    /// Appends a string literal: no Huffman coding, the length with a 7-bit
    /// prefix, the raw bytes.
    fn encode_string_literal(&self, s: &[u8], out: &mut Vec<u8>, cap: usize) -> (r: Result<
        (),
        Error,
    >)
        requires
            old(out)@.len() <= cap,
        ensures
            put_outcome(string_pieces(s@), old(out)@, cap as int, final(out)@, r),
            final(out)@.len() <= cap,
    {
        let ghost ps = string_pieces(s@);
        let piece: Vec<u8> = integer::encode_integer(s.len() as u64, 7, 0);
        let len_len: usize = piece.len();
        proof {
            reveal_with_fuel(put_all, 3);
            assert(ps.skip(1) =~= seq![raw_piece(s@)]);
            assert(ps.skip(1).skip(1) =~= Seq::<Piece>::empty());
        }
        put(out, cap, piece.as_slice(), len_len)?;
        put(out, cap, s, len_len.saturating_add(s.len()))
    }
}

proof fn lemma_put_concat(a: Seq<Piece>, b: Seq<Piece>, out: Seq<u8>, cap: int)
    ensures
        put_all(a + b, out, cap) == match put_all(a, out, cap) {
            (o, None) => put_all(b, o, cap),
            (o, Some(n)) => (o, Some(n)),
        },
    decreases a.len(),
{
    if a.len() == 0 {
        assert(a + b =~= b);
    } else {
        assert((a + b).skip(1) =~= a.skip(1) + b);
        lemma_put_concat(a.skip(1), b, out + a[0].bytes, cap);
    }
}

// ---------------------------------------------------------------------------
// Decoder
// ---------------------------------------------------------------------------

/// The dynamic table: its entries, newest first, and its maximum size.
#[verifier::ext_equal]
pub struct Table {
    pub entries: Seq<Field>,
    pub max: int,
}

/// The size of an entry (RFC 7541 §4.1).
pub open spec fn entry_size(f: Field) -> int {
    f.0.len() + f.1.len() + ENTRY_OVERHEAD
}

/// The size of a list of entries.
pub open spec fn table_size(es: Seq<Field>) -> int
    decreases es.len(),
{
    if es.len() == 0 {
        0
    } else {
        table_size(es.drop_last()) + entry_size(es.last())
    }
}

/// The entries left after the oldest are dropped until at most `limit` is taken up.
pub open spec fn evicted(es: Seq<Field>, limit: int) -> Seq<Field>
    decreases es.len(),
{
    if es.len() == 0 || table_size(es) <= limit {
        es
    } else {
        evicted(es.drop_last(), limit)
    }
}

impl Table {
    /// Nothing in it, and the initial maximum size.
    pub open spec fn initial() -> Table {
        Table { entries: Seq::empty(), max: INITIAL_DYNAMIC_TABLE_SIZE as int }
    }

    /// With an entry added. One that is larger than the table empties it.
    pub open spec fn inserted(self, f: Field) -> Table {
        let kept = evicted(self.entries, self.max - entry_size(f));
        Table {
            entries: if entry_size(f) > self.max {
                kept
            } else {
                seq![f] + kept
            },
            max: self.max,
        }
    }

    /// With another maximum size.
    pub open spec fn resized(self, new_size: int) -> Table {
        Table { entries: evicted(self.entries, new_size), max: new_size }
    }

    /// The field at `index` in the combined address space (RFC 7541 §2.3.3).
    pub open spec fn at(self, index: usize) -> Option<Field> {
        if index == 0 {
            None
        } else if index <= STATIC_TABLE_LEN {
            Some((static_table::entry_name(index), static_table::entry_value(index)))
        } else if index - STATIC_TABLE_LEN - 1 < self.entries.len() {
            Some(self.entries[index - STATIC_TABLE_LEN - 1])
        } else {
            None
        }
    }

    /// Its size is within its maximum, and that within the initial one.
    pub open spec fn valid(self) -> bool {
        table_size(self.entries) <= self.max <= INITIAL_DYNAMIC_TABLE_SIZE
    }
}

/// The head of a string literal: whether it is Huffman-coded, its length, and
/// the bytes that the head takes.
pub open spec fn string_head(s: Seq<u8>) -> Result<(bool, usize, usize), Error> {
    match integer::int_read(s, 7) {
        Err(e) => Err(e),
        Ok((v, n)) => {
            let len = v as usize;
            if s.len() - n < len {
                Err(error::too_small(n + len))
            } else {
                Ok((s[0] >= 128, len, n))
            }
        },
    }
}

/// A string literal at `pos`, and the position behind it. A Huffman-coded one
/// decodes to at most `cap` bytes, and so does a raw one that is `limited`.
pub open spec fn string_at(src: Seq<u8>, pos: int, cap: int, limited: bool) -> Result<
    (Seq<u8>, int),
    Error,
> {
    match string_head(src.skip(pos)) {
        Err(e) => Err(e),
        Ok((huffman_coded, len, n)) => {
            let end = pos + n + len;
            let raw = src.subrange(pos + n, end);
            if huffman_coded {
                match huffman::decoded(raw, cap) {
                    Ok(s) => Ok((s, end)),
                    Err(e) => Err(e),
                }
            } else if limited && len > cap {
                Err(Error::BufferTooSmall { needed: len })
            } else {
                Ok((raw, end))
            }
        },
    }
}

/// The name of a literal field whose head ends at `pos`: one from the tables,
/// or a string literal; and the position behind it.
pub open spec fn name_at(t: Table, src: Seq<u8>, pos: int, name_index: usize) -> Result<
    (Seq<u8>, int),
    Error,
> {
    if name_index > 0 {
        match t.at(name_index) {
            None => Err(Error::InvalidState),
            Some(f) => if f.0.len() > MAX_NAME_LEN {
                Err(error::too_small(f.0.len() as int))
            } else {
                Ok((f.0, pos))
            },
        }
    } else {
        string_at(src, pos, MAX_NAME_LEN as int, true)
    }
}

/// A literal field whose head ends at `pos`, and the position behind it.
pub open spec fn literal_at(t: Table, src: Seq<u8>, pos: int, name_index: usize) -> Result<
    (Field, int),
    Error,
> {
    match name_at(t, src, pos, name_index) {
        Err(e) => Err(e),
        Ok((name, p)) => match string_at(src, p, MAX_HUFFMAN_VALUE_LEN as int, false) {
            Err(e) => Err(e),
            Ok((value, q)) => Ok(((name, value), q)),
        },
    }
}

/// What one representation at `pos` does: the table after it, the field it
/// stands for, if any, and the position behind it.
pub open spec fn representation(t: Table, src: Seq<u8>, pos: int) -> Result<
    (Table, Option<Field>, int),
    Error,
> {
    let first = src[pos];
    let prefix: u8 = if first >= 128 {
        7
    } else if first >= 64 {
        6
    } else if first >= 32 {
        5
    } else {
        4
    };
    match integer::int_read(src.skip(pos), prefix) {
        Err(e) => Err(e),
        Ok((v, n)) => if first >= 128 {
            // Indexed field.
            match t.at(v as usize) {
                None => Err(Error::InvalidState),
                Some(f) => Ok((t, Some(f), pos + n)),
            }
        } else if first >= 32 && first < 64 {
            // Table size update.
            if v as usize > INITIAL_DYNAMIC_TABLE_SIZE {
                Err(Error::InvalidState)
            } else {
                Ok((t.resized((v as usize) as int), None, pos + n))
            }
        } else {
            // Literal field: with incremental indexing from 64 on, else without.
            match literal_at(t, src, pos + n, v as usize) {
                Err(e) => Err(e),
                Ok((f, p)) => Ok(
                    (
                        if first >= 64 {
                            t.inserted(f)
                        } else {
                            t
                        },
                        Some(f),
                        p,
                    ),
                ),
            }
        },
    }
}

/// What decoding gives: the table, the fields in order, and the number of
/// bytes read or the error that ended it.
#[verifier::ext_equal]
pub struct Decoded {
    pub table: Table,
    pub fields: Seq<Field>,
    pub result: Result<usize, Error>,
}

/// Decodes a header block from `pos` on, behind the fields in `acc`.
pub open spec fn decode_from(t: Table, src: Seq<u8>, pos: int, acc: Seq<Field>) -> Decoded
    decreases src.len() - pos,
{
    if pos < 0 || pos >= src.len() {
        Decoded { table: t, fields: acc, result: Ok(pos as usize) }
    } else {
        proof {
            representation_bound(t, src, pos);
        }
        match representation(t, src, pos) {
            Err(e) => Decoded { table: t, fields: acc, result: Err(e) },
            Ok((t1, f, p)) => decode_from(
                t1,
                src,
                p,
                match f {
                    Some(f) => acc.push(f),
                    None => acc,
                },
            ),
        }
    }
}

/// Decodes a header block.
pub open spec fn decode_block(t: Table, src: Seq<u8>) -> Decoded {
    decode_from(t, src, 0, Seq::empty())
}

/// A string literal takes at least one byte, and no more than there are.
pub proof fn string_at_bound(src: Seq<u8>, pos: int, cap: int, limited: bool)
    requires
        0 <= pos <= src.len(),
    ensures
        string_at(src, pos, cap, limited) matches Ok((s, p)) ==> pos < p <= src.len(),
{
    integer::int_read_bound(src.skip(pos), 7);
}

/// A representation takes at least one byte, and no more than there are.
pub proof fn representation_bound(t: Table, src: Seq<u8>, pos: int)
    requires
        0 <= pos < src.len(),
    ensures
        representation(t, src, pos) matches Ok((t1, f, p)) ==> pos < p <= src.len(),
{
    let first = src[pos];
    integer::int_read_bound(src.skip(pos), 7);
    integer::int_read_bound(src.skip(pos), 6);
    integer::int_read_bound(src.skip(pos), 5);
    integer::int_read_bound(src.skip(pos), 4);
    let prefix: u8 = if first >= 128 {
        7
    } else if first >= 64 {
        6
    } else if first >= 32 {
        5
    } else {
        4
    };
    match integer::int_read(src.skip(pos), prefix) {
        Ok((v, n)) => {
            string_at_bound(src, pos + n, MAX_NAME_LEN as int, true);
            match name_at(t, src, pos + n, v as usize) {
                Ok((name, p)) => {
                    string_at_bound(src, p, MAX_HUFFMAN_VALUE_LEN as int, false);
                },
                Err(_) => {},
            }
        },
        Err(_) => {},
    }
}

proof fn lemma_evicted(es: Seq<Field>, limit: int)
    ensures
        evicted(es, limit).len() == 0 || table_size(evicted(es, limit)) <= limit,
        0 <= table_size(evicted(es, limit)) <= table_size(es),
    decreases es.len(),
{
    if es.len() == 0 || table_size(es) <= limit {
        lemma_table_size(es);
    } else {
        lemma_evicted(es.drop_last(), limit);
    }
}

/// One representation leaves the table within its bounds.
pub proof fn table_stays_valid(t: Table, src: Seq<u8>, pos: int)
    requires
        t.valid(),
        0 <= pos < src.len(),
    ensures
        representation(t, src, pos) matches Ok((t1, f, p)) ==> t1.valid(),
{
    match representation(t, src, pos) {
        Ok((t1, Some(f), p)) => {
            let limit = t.max - entry_size(f);
            lemma_evicted(t.entries, limit);
            lemma_table_size_front(f, evicted(t.entries, limit));
            lemma_table_size(t.entries);
            if entry_size(f) > t.max {
                lemma_table_size(evicted(t.entries, limit));
            }
        },
        Ok((t1, None, p)) => {
            lemma_evicted(t.entries, t1.max);
        },
        Err(_) => {},
    }
}

proof fn lemma_table_size(es: Seq<Field>)
    ensures
        table_size(es) >= 0,
        table_size(es) >= es.len() * ENTRY_OVERHEAD,
    decreases es.len(),
{
    if es.len() > 0 {
        lemma_table_size(es.drop_last());
    }
}

proof fn lemma_table_size_front(f: Field, es: Seq<Field>)
    ensures
        table_size(seq![f] + es) == entry_size(f) + table_size(es),
    decreases es.len(),
{
    let all = seq![f] + es;
    if es.len() == 0 {
        assert(all.drop_last() =~= Seq::<Field>::empty());
        reveal_with_fuel(table_size, 2);
    } else {
        assert(all.drop_last() =~= seq![f] + es.drop_last());
        lemma_table_size_front(f, es.drop_last());
    }
}

/// HPACK decoder with its dynamic table.
#[derive(Debug)]
pub struct HpackDecoder {
    /// Dynamic table, newest entry at the front (index 62 in the combined
    /// address space).
    pub dynamic: VecDeque<HeaderField>,
    /// Current size of `dynamic`, as the RFC counts it.
    pub dynamic_size: usize,
    /// Current maximum size, which follows the peer's size updates.
    pub max_size: usize,
}

impl View for HpackDecoder {
    type V = Table;

    open spec fn view(&self) -> Table {
        Table { entries: bytes::fields(self.dynamic@), max: self.max_size as int }
    }
}

impl Default for HpackDecoder {
    fn default() -> (r: Self)
        ensures
            r.wf(),
            r@ == Table::initial(),
    {
        Self::new()
    }
}

impl HpackDecoder {
    /// The size is kept with the table and stays within the maximum.
    pub open spec fn wf(&self) -> bool {
        &&& self.dynamic_size == table_size(self@.entries)
        &&& self@.valid()
    }

    pub fn new() -> (r: Self)
        ensures
            r.wf(),
            r@ == Table::initial(),
    {
        let r = HpackDecoder {
            dynamic: VecDeque::new(),
            dynamic_size: 0,
            max_size: INITIAL_DYNAMIC_TABLE_SIZE,
        };
        assert(r@.entries =~= Seq::<Field>::empty());
        r
    }

    /// Looks up an index in the combined static and dynamic address space.
    fn table_lookup(&self, index: usize) -> (r: Result<(&[u8], &[u8]), Error>)
        requires
            self.wf(),
        ensures
            match r {
                Ok((name, value)) => self@.at(index) == Some((name@, value@)),
                Err(e) => self@.at(index) is None && e == Error::InvalidState,
            },
    {
        if index == 0 {
            return Err(Error::InvalidState);
        }
        if index <= STATIC_TABLE_LEN {
            return Ok((static_table::static_name(index), static_table::static_value(index)));
        }
        let i: usize = index - STATIC_TABLE_LEN - 1;
        if i < self.dynamic.len() {
            let entry = &self.dynamic[i];
            return Ok((entry.name.as_slice(), entry.value.as_slice()));
        }
        Err(Error::InvalidState)
    }

    /// Drops the oldest entries until at most `limit` is taken up.
    fn evict(&mut self, limit: usize)
        requires
            old(self).wf(),
        ensures
            final(self).wf(),
            final(self).max_size == old(self).max_size,
            final(self)@.entries == evicted(old(self)@.entries, limit as int),
            final(self).dynamic_size <= limit,
    {
        proof {
            lemma_table_size(self@.entries);
        }
        while self.dynamic_size > limit
            invariant
                self.wf(),
                self.max_size == old(self).max_size,
                evicted(self@.entries, limit as int) == evicted(old(self)@.entries, limit as int),
            decreases self.dynamic@.len(),
        {
            let ghost before = self@.entries;
            match self.dynamic.pop_back() {
                Some(e) => {
                    proof {
                        assert(self@.entries =~= before.drop_last());
                        assert(e@ == before.last());
                        lemma_table_size(self@.entries);
                    }
                    self.dynamic_size = self.dynamic_size - (e.name.len() + e.value.len()
                        + ENTRY_OVERHEAD);
                },
                None => {
                    assert(false);
                },
            }
        }
    }

    /// Inserts an entry at the head of the dynamic table, evicting from the tail
    /// (RFC 7541 §4.4). An entry larger than the whole table empties it and is
    /// not stored, which is not an error.
    fn dynamic_insert(&mut self, name: &[u8], value: &[u8])
        requires
            old(self).wf(),
        ensures
            final(self).wf(),
            final(self)@ == old(self)@.inserted((name@, value@)),
    {
        let ghost f = (name@, value@);
        let size: usize = name.len().saturating_add(value.len()).saturating_add(ENTRY_OVERHEAD);
        if size > self.max_size {
            proof {
                lemma_evict_all(self@.entries, self.max_size - entry_size(f));
                lemma_evict_all(self@.entries, 0);
            }
            self.evict(0);
            return;
        }
        self.evict(self.max_size - size);
        let ghost kept = self@.entries;
        self.dynamic.push_front(
            HeaderField {
                name: vstd::slice::slice_to_vec(name),
                value: vstd::slice::slice_to_vec(value),
            },
        );
        self.dynamic_size = self.dynamic_size + size;
        proof {
            assert(self@.entries =~= seq![f] + kept);
            lemma_table_size_front(f, kept);
        }
    }

    /// Applies a dynamic table size update (RFC 7541 §6.3). Anything up to the
    /// initial size is accepted.
    fn resize(&mut self, new_size: usize) -> (r: Result<(), Error>)
        requires
            old(self).wf(),
        ensures
            final(self).wf(),
            if new_size > INITIAL_DYNAMIC_TABLE_SIZE {
                r == Err::<(), Error>(Error::InvalidState) && final(self)@ == old(self)@
            } else {
                r == Ok::<(), Error>(()) && final(self)@ == old(self)@.resized(new_size as int)
            },
    {
        if new_size > INITIAL_DYNAMIC_TABLE_SIZE {
            return Err(Error::InvalidState);
        }
        self.evict(new_size);
        self.max_size = new_size;
        Ok(())
    }

    /// Decodes a header block, appending each decoded field to `out`. Fields in
    /// front of an error are appended too.
    ///
    /// Returns the number of bytes read.
    pub fn decode(&mut self, src: &[u8], out: &mut Vec<HeaderField>) -> (r: Result<usize, Error>)
        requires
            old(self).wf(),
        ensures
            final(self).wf(),
            final(self)@ == decode_block(old(self)@, src@).table,
            bytes::fields(final(out)@) == bytes::fields(old(out)@) + decode_block(
                old(self)@,
                src@,
            ).fields,
            r == decode_block(old(self)@, src@).result,
    {
        let mut pos: usize = 0;
        let ghost mut acc: Seq<Field> = Seq::empty();
        assert(bytes::fields(out@) =~= bytes::fields(old(out)@) + acc);
        while pos < src.len()
            invariant
                self.wf(),
                pos <= src@.len(),
                bytes::fields(out@) == bytes::fields(old(out)@) + acc,
                decode_from(self@, src@, pos as int, acc) == decode_block(old(self)@, src@),
            decreases src@.len() - pos,
        {
            let first: u8 = src[pos];
            let ghost t = self@;
            let ghost at = pos as int;
            let n: usize = src.len();
            proof {
                representation_bound(t, src@, at);
                integer::int_read_bound(src@.skip(at), 7);
                integer::int_read_bound(src@.skip(at), 6);
                integer::int_read_bound(src@.skip(at), 5);
                integer::int_read_bound(src@.skip(at), 4);
                assert(src@.subrange(at, n as int) =~= src@.skip(at));
            }
            if first >= 128 {
                let (index, consumed) = integer::decode_integer(&src[pos..n], 7)?;
                let (name, value) = self.table_lookup(index as usize)?;
                bytes::push_field(out, name, value);
                pos = pos + consumed;
                proof {
                    acc = acc.push((name@, value@));
                    assert(bytes::fields(out@) =~= bytes::fields(old(out)@) + acc);
                }
            } else if first >= 64 {
                let (index, consumed) = integer::decode_integer(&src[pos..n], 6)?;
                let (name, value, end) = self.decode_literal_field(
                    src,
                    pos + consumed,
                    index as usize,
                )?;
                self.dynamic_insert(name.as_slice(), value.as_slice());
                bytes::push_field(out, name.as_slice(), value.as_slice());
                pos = end;
                proof {
                    acc = acc.push((name@, value@));
                    assert(bytes::fields(out@) =~= bytes::fields(old(out)@) + acc);
                }
            } else if first >= 32 {
                let (new_size, consumed) = integer::decode_integer(&src[pos..n], 5)?;
                self.resize(new_size as usize)?;
                pos = pos + consumed;
            } else {
                let (index, consumed) = integer::decode_integer(&src[pos..n], 4)?;
                let (name, value, end) = self.decode_literal_field(
                    src,
                    pos + consumed,
                    index as usize,
                )?;
                bytes::push_field(out, name.as_slice(), value.as_slice());
                pos = end;
                proof {
                    acc = acc.push((name@, value@));
                    assert(bytes::fields(out@) =~= bytes::fields(old(out)@) + acc);
                }
            }
        }
        Ok(pos)
    }

    /// Decodes a literal field whose head ends at `pos`: the name from an index
    /// or a literal, and the value. Returns both and the position behind them.
    fn decode_literal_field(&self, src: &[u8], pos: usize, name_index: usize) -> (r: Result<
        (Vec<u8>, Vec<u8>, usize),
        Error,
    >)
        requires
            self.wf(),
            pos <= src@.len(),
        ensures
            match r {
                Ok((name, value, end)) => literal_at(self@, src@, pos as int, name_index) == Ok::<
                    (Field, int),
                    Error,
                >(((name@, value@), end as int)) && end <= src@.len(),
                Err(e) => literal_at(self@, src@, pos as int, name_index) == Err::<
                    (Field, int),
                    Error,
                >(e),
            },
    {
        let (name, p) = if name_index > 0 {
            let (name, _value) = self.table_lookup(name_index)?;
            if name.len() > MAX_NAME_LEN {
                return Err(Error::BufferTooSmall { needed: name.len() });
            }
            (vstd::slice::slice_to_vec(name), pos)
        } else {
            Self::decode_string(src, pos, MAX_NAME_LEN, true)?
        };
        let (value, end) = Self::decode_string(src, p, MAX_HUFFMAN_VALUE_LEN, false)?;
        Ok((name, value, end))
    }

    /// Decodes a string literal at `pos`. Returns it and the position behind it.
    fn decode_string(src: &[u8], pos: usize, cap: usize, limited: bool) -> (r: Result<
        (Vec<u8>, usize),
        Error,
    >)
        requires
            pos <= src@.len(),
        ensures
            match r {
                Ok((s, end)) => string_at(src@, pos as int, cap as int, limited) == Ok::<
                    (Seq<u8>, int),
                    Error,
                >((s@, end as int)) && pos <= end <= src@.len(),
                Err(e) => string_at(src@, pos as int, cap as int, limited) == Err::<
                    (Seq<u8>, int),
                    Error,
                >(e),
            },
    {
        let total: usize = src.len();
        proof {
            assert(src@.subrange(pos as int, total as int) =~= src@.skip(pos as int));
            integer::int_read_bound(src@.skip(pos as int), 7);
        }
        let (huffman_coded, len, head) = Self::parse_string_header(&src[pos..total])?;
        let start: usize = pos + head;
        let end: usize = start + len;
        if huffman_coded {
            let s: Vec<u8> = huffman::decode(&src[start..end], cap)?;
            Ok((s, end))
        } else {
            if limited && len > cap {
                return Err(Error::BufferTooSmall { needed: len });
            }
            Ok((vstd::slice::slice_to_vec(&src[start..end]), end))
        }
    }

    /// Parses the head of a string literal: the Huffman bit, the length, and
    /// the bytes that the head takes.
    fn parse_string_header(src: &[u8]) -> (r: Result<(bool, usize, usize), Error>)
        ensures
            r == string_head(src@),
            r matches Ok((h, len, n)) ==> n + len <= src@.len(),
    {
        if src.len() == 0 {
            return Err(Error::BufferTooSmall { needed: 1 });
        }
        proof {
            integer::int_read_bound(src@, 7);
        }
        let huffman_coded: bool = src[0] >= 128;
        let (length, consumed) = integer::decode_integer(src, 7)?;
        let len: usize = length as usize;
        if src.len() - consumed < len {
            return Err(Error::BufferTooSmall { needed: consumed.saturating_add(len) });
        }
        Ok((huffman_coded, len, consumed))
    }
}

/// Below an entry's own size nothing is kept.
proof fn lemma_evict_all(es: Seq<Field>, limit: int)
    requires
        limit < ENTRY_OVERHEAD,
    ensures
        evicted(es, limit) == Seq::<Field>::empty(),
    decreases es.len(),
{
    lemma_table_size(es);
    if es.len() == 0 {
        assert(es =~= Seq::<Field>::empty());
    } else {
        lemma_evict_all(es.drop_last(), limit);
    }
}

} // verus!
