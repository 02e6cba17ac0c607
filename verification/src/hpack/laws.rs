//! What holds of the HPACK encoder and decoder together.

use vstd::prelude::*;

use super::codec;
use super::codec::{Decoded, Piece, Table, MAX_NAME_LEN};
use super::integer;
use super::static_table;
use super::static_table::LookupResult;
use crate::bytes::Field;
use crate::error::Error;

verus! {

/// A list of fields that can be encoded and decoded: names are within the
/// decoder's limit, lengths are machine integers.
pub open spec fn sendable(fs: Seq<Field>) -> bool {
    forall|i: int|
        0 <= i < fs.len() ==> (#[trigger] fs[i]).0.len() <= MAX_NAME_LEN && fs[i].1.len()
            <= usize::MAX
}

/// The parts of a header block, joined.
pub open spec fn joined(ps: Seq<Piece>) -> Seq<u8>
    decreases ps.len(),
{
    if ps.len() == 0 {
        Seq::empty()
    } else {
        ps[0].bytes + joined(ps.skip(1))
    }
}

proof fn lemma_joined_concat(a: Seq<Piece>, b: Seq<Piece>)
    ensures
        joined(a + b) == joined(a) + joined(b),
    decreases a.len(),
{
    if a.len() == 0 {
        assert(a + b =~= b);
        assert(joined(a) + joined(b) =~= joined(b));
    } else {
        assert((a + b).skip(1) =~= a.skip(1) + b);
        lemma_joined_concat(a.skip(1), b);
        assert(joined(a + b) =~= joined(a) + joined(b));
    }
}

proof fn lemma_joined_string(s: Seq<u8>)
    ensures
        joined(codec::string_pieces(s)) == codec::string_bytes(s),
{
    let ps = codec::string_pieces(s);
    reveal_with_fuel(joined, 3);
    assert(ps.skip(1).skip(1) =~= Seq::<Piece>::empty());
    assert(joined(ps) =~= codec::string_bytes(s));
}

proof fn lemma_joined_field(f: Field)
    ensures
        joined(codec::field_pieces(f)) == codec::field_bytes(f),
{
    reveal_with_fuel(joined, 2);
    match static_table::found(f.0, f.1) {
        LookupResult::ExactMatch(i) => {
            assert(joined(codec::field_pieces(f)) =~= codec::field_bytes(f));
        },
        LookupResult::NameMatch(i) => {
            let head = seq![codec::int_piece(i as int, 4, 0)];
            lemma_joined_concat(head, codec::string_pieces(f.1));
            lemma_joined_string(f.1);
            assert(joined(head) =~= head[0].bytes);
        },
        LookupResult::NotFound => {
            let head = seq![codec::new_name_piece()];
            lemma_joined_concat(head + codec::string_pieces(f.0), codec::string_pieces(f.1));
            lemma_joined_concat(head, codec::string_pieces(f.0));
            lemma_joined_string(f.0);
            lemma_joined_string(f.1);
            assert(joined(head) =~= seq![0u8]);
        },
    }
}

proof fn lemma_joined_block(fs: Seq<Field>)
    ensures
        joined(codec::block_pieces(fs)) == codec::block(fs),
    decreases fs.len(),
{
    if fs.len() > 0 {
        lemma_joined_concat(codec::field_pieces(fs[0]), codec::block_pieces(fs.skip(1)));
        lemma_joined_field(fs[0]);
        lemma_joined_block(fs.skip(1));
    }
}

proof fn lemma_put_all(ps: Seq<Piece>, out: Seq<u8>, cap: int)
    requires
        out.len() <= cap,
    ensures
        out.len() + joined(ps).len() <= cap ==> codec::put_all(ps, out, cap) == (
            out + joined(ps),
            None::<int>,
        ),
        out.len() + joined(ps).len() > cap ==> codec::put_all(ps, out, cap).1 is Some,
    decreases ps.len(),
{
    if ps.len() == 0 {
        assert(out + joined(ps) =~= out);
    } else if out.len() + ps[0].bytes.len() <= cap {
        lemma_put_all(ps.skip(1), out + ps[0].bytes, cap);
        assert(out + ps[0].bytes + joined(ps.skip(1)) =~= out + joined(ps));
    }
}

/// Encoding succeeds exactly when the buffer holds the encoded block, and then
/// writes it.
pub proof fn encoding_fits(fs: Seq<Field>, cap: nat)
    ensures
        codec::block(fs).len() <= cap ==> codec::put_all(
            codec::block_pieces(fs),
            Seq::empty(),
            cap as int,
        ) == (codec::block(fs), None::<int>),
        codec::block(fs).len() > cap ==> codec::put_all(
            codec::block_pieces(fs),
            Seq::empty(),
            cap as int,
        ).1 is Some,
{
    lemma_joined_block(fs);
    lemma_put_all(codec::block_pieces(fs), Seq::empty(), cap as int);
    assert(Seq::<u8>::empty() + codec::block(fs) =~= codec::block(fs));
}

/// A string literal is read back as it was written, whatever surrounds it.
proof fn lemma_string_roundtrip(src: Seq<u8>, pos: int, s: Seq<u8>, rest: Seq<u8>, cap: int, limited: bool)
    requires
        0 <= pos <= src.len(),
        src.skip(pos) == codec::string_bytes(s) + rest,
        s.len() <= usize::MAX,
        limited ==> s.len() <= cap,
    ensures
        codec::string_at(src, pos, cap, limited) == Ok::<(Seq<u8>, int), Error>(
            (s, pos + codec::string_bytes(s).len()),
        ),
{
    let head = integer::int_bytes(s.len() as int, 7, 0);
    integer::integer_roundtrip(s.len() as u64, 7, 0, s + rest);
    assert(codec::string_bytes(s) + rest =~= head + (s + rest));
    assert(src.skip(pos)[0] < 128) by {
        assert(head[0] < 128);
        assert(src.skip(pos)[0] == head[0]);
    }
    assert(src.subrange(pos + head.len(), pos + head.len() + s.len()) =~= s) by {
        assert forall|i: int| 0 <= i < s.len() implies src[pos + head.len() + i] == s[i] by {
            assert(src.skip(pos)[head.len() + i] == (head + (s + rest))[head.len() + i]);
        }
    }
}

/// An indexed field stands for the entry of the static table.
proof fn lemma_indexed_roundtrip(t: Table, src: Seq<u8>, pos: int, i: usize, rest: Seq<u8>)
    requires
        0 <= pos < src.len(),
        1 <= i <= static_table::STATIC_TABLE_LEN,
        src.skip(pos) == integer::int_bytes(i as int, 7, 0x80) + rest,
    ensures
        codec::representation(t, src, pos) == Ok::<(Table, Option<Field>, int), Error>(
            (
                t,
                Some((static_table::entry_name(i), static_table::entry_value(i))),
                pos + integer::int_bytes(i as int, 7, 0x80).len(),
            ),
        ),
{
    let enc = integer::int_bytes(i as int, 7, 0x80);
    integer::integer_roundtrip(i as u64, 7, 0x80, rest);
    assert(src[pos] == src.skip(pos)[0]);
    assert(src.skip(pos)[0] == enc[0]);
    assert(enc[0] >= 128);
    assert((i as u64) as usize == i);
}

/// A literal field with a name from the static table.
proof fn lemma_named_roundtrip(
    t: Table,
    src: Seq<u8>,
    pos: int,
    i: usize,
    value: Seq<u8>,
    rest: Seq<u8>,
)
    requires
        0 <= pos < src.len(),
        1 <= i <= static_table::STATIC_TABLE_LEN,
        value.len() <= usize::MAX,
        src.skip(pos) == integer::int_bytes(i as int, 4, 0) + codec::string_bytes(value) + rest,
    ensures
        codec::representation(t, src, pos) == Ok::<(Table, Option<Field>, int), Error>(
            (
                t,
                Some((static_table::entry_name(i), value)),
                pos + integer::int_bytes(i as int, 4, 0).len() + codec::string_bytes(value).len(),
            ),
        ),
{
    let head = integer::int_bytes(i as int, 4, 0);
    let tail = codec::string_bytes(value);
    integer::integer_roundtrip(i as u64, 4, 0, tail + rest);
    assert(head + tail + rest =~= head + (tail + rest));
    assert(src[pos] == src.skip(pos)[0]);
    assert(src.skip(pos)[0] == head[0]);
    assert(head[0] < 16);
    static_table::entry_name_bound(i);
    let p = pos + head.len();
    assert(src.skip(p) =~= tail + rest) by {
        assert(src.skip(p) =~= src.skip(pos).skip(head.len() as int));
    }
    lemma_string_roundtrip(src, p, value, rest, codec::MAX_HUFFMAN_VALUE_LEN as int, false);
    assert((i as u64) as usize == i);
    let name = static_table::entry_name(i);
    assert(codec::name_at(t, src, p, i) == Ok::<(Seq<u8>, int), Error>((name, p)));
    assert(codec::literal_at(t, src, p, i) == Ok::<(Field, int), Error>(
        ((name, value), p + tail.len()),
    ));
}

/// A literal field with a literal name.
proof fn lemma_literal_roundtrip(t: Table, src: Seq<u8>, pos: int, f: Field, rest: Seq<u8>)
    requires
        0 <= pos < src.len(),
        f.0.len() <= MAX_NAME_LEN,
        f.1.len() <= usize::MAX,
        src.skip(pos) == seq![0u8] + codec::string_bytes(f.0) + codec::string_bytes(f.1) + rest,
    ensures
        codec::representation(t, src, pos) == Ok::<(Table, Option<Field>, int), Error>(
            (
                t,
                Some(f),
                pos + 1 + codec::string_bytes(f.0).len() + codec::string_bytes(f.1).len(),
            ),
        ),
{
    let name = codec::string_bytes(f.0);
    let value = codec::string_bytes(f.1);
    assert(src[pos] == src.skip(pos)[0]);
    assert(src[pos] == 0);
    assert(src.skip(pos + 1) =~= name + (value + rest)) by {
        assert(src.skip(pos + 1) =~= src.skip(pos).skip(1));
    }
    lemma_string_roundtrip(src, pos + 1, f.0, value + rest, MAX_NAME_LEN as int, true);
    let p = pos + 1 + name.len();
    assert(src.skip(p) =~= value + rest) by {
        assert(src.skip(p) =~= src.skip(pos + 1).skip(name.len() as int));
    }
    lemma_string_roundtrip(src, p, f.1, rest, codec::MAX_HUFFMAN_VALUE_LEN as int, false);
    assert(integer::int_read(src.skip(pos), 4) == Ok::<(u64, usize), Error>((0, 1)));
    assert(0u64 as usize == 0);
    assert(codec::literal_at(t, src, pos + 1, 0) == Ok::<(Field, int), Error>(
        (f, p + value.len()),
    ));
}

/// A field is read back as it was written.
proof fn lemma_field_roundtrip(t: Table, src: Seq<u8>, pos: int, f: Field, rest: Seq<u8>)
    requires
        0 <= pos < src.len(),
        src.skip(pos) == codec::field_bytes(f) + rest,
        f.0.len() <= MAX_NAME_LEN,
        f.1.len() <= usize::MAX,
    ensures
        codec::representation(t, src, pos) == Ok::<(Table, Option<Field>, int), Error>(
            (t, Some(f), pos + codec::field_bytes(f).len()),
        ),
{
    static_table::found_is_entry(f.0, f.1);
    match static_table::found(f.0, f.1) {
        LookupResult::ExactMatch(i) => {
            lemma_indexed_roundtrip(t, src, pos, i, rest);
        },
        LookupResult::NameMatch(i) => {
            lemma_named_roundtrip(t, src, pos, i, f.1, rest);
        },
        LookupResult::NotFound => {
            lemma_literal_roundtrip(t, src, pos, f, rest);
        },
    }
}

proof fn lemma_roundtrip_from(t: Table, src: Seq<u8>, pos: int, fs: Seq<Field>, acc: Seq<Field>)
    requires
        0 <= pos <= src.len() <= usize::MAX,
        src.skip(pos) == codec::block(fs),
        sendable(fs),
    ensures
        codec::decode_from(t, src, pos, acc) == (Decoded {
            table: t,
            fields: acc + fs,
            result: Ok(src.len() as usize),
        }),
    decreases fs.len(),
{
    if fs.len() == 0 {
        assert(src.skip(pos).len() == 0);
        assert(acc + fs =~= acc);
    } else {
        let f = fs[0];
        let rest = codec::block(fs.skip(1));
        let n = codec::field_bytes(f).len() as int;
        lemma_field_len(f);
        lemma_field_roundtrip(t, src, pos, f, rest);
        assert(src.skip(pos + n) =~= rest) by {
            assert(src.skip(pos + n) =~= src.skip(pos).skip(n));
        }
        assert(pos + n <= src.len()) by {
            assert(src.skip(pos).len() == n + rest.len());
        }
        assert(sendable(fs.skip(1)));
        lemma_roundtrip_from(t, src, pos + n, fs.skip(1), acc.push(f));
        assert(acc.push(f) + fs.skip(1) =~= acc + fs);
    }
}

proof fn lemma_field_len(f: Field)
    ensures
        codec::field_bytes(f).len() >= 1,
{
}

/// What the encoder writes, the decoder reads back: the same fields in the same
/// order, all of the bytes, and a dynamic table that is left as it was.
pub proof fn encode_decode_roundtrip(t: Table, fs: Seq<Field>)
    requires
        sendable(fs),
        codec::block(fs).len() <= usize::MAX,
    ensures
        codec::decode_block(t, codec::block(fs)) == (Decoded {
            table: t,
            fields: fs,
            result: Ok(codec::block(fs).len() as usize),
        }),
{
    let src = codec::block(fs);
    assert(src.skip(0) =~= src);
    lemma_roundtrip_from(t, src, 0, fs, Seq::empty());
    assert(Seq::<Field>::empty() + fs =~= fs);
}

/// Decoding keeps the dynamic table within its maximum size, and that within
/// the initial one, whatever is decoded.
pub proof fn decoding_keeps_table_bounded(t: Table, src: Seq<u8>)
    requires
        t.valid(),
    ensures
        codec::decode_block(t, src).table.valid(),
{
    lemma_decode_valid(t, src, 0, Seq::empty());
}

proof fn lemma_decode_valid(t: Table, src: Seq<u8>, pos: int, acc: Seq<Field>)
    requires
        t.valid(),
        0 <= pos,
    ensures
        codec::decode_from(t, src, pos, acc).table.valid(),
    decreases src.len() - pos,
{
    if pos < src.len() {
        codec::representation_bound(t, src, pos);
        match codec::representation(t, src, pos) {
            Ok((t1, f, p)) => {
                codec::table_stays_valid(t, src, pos);
                lemma_decode_valid(
                    t1,
                    src,
                    p,
                    match f {
                        Some(f) => acc.push(f),
                        None => acc,
                    },
                );
            },
            Err(_) => {},
        }
    }
}

} // verus!
