//! What header blocks mean, whoever wrote them.

use vstd::prelude::*;

use super::codec;
use super::codec::{Decoded, Table};
use super::huffman;
use super::integer;
use crate::bytes::Field;
use crate::error::Error;

verus! {

// ---------------------------------------------------------------------------
// The dynamic table
// ---------------------------------------------------------------------------

/// What a field takes up in the dynamic table: its bytes and 32 more.
pub open spec fn footprint(f: Field) -> int {
    f.0.len() + f.1.len() + 32int
}

/// What fields take up together.
pub open spec fn footprints(fs: Seq<Field>) -> int
    decreases fs.len(),
{
    if fs.len() == 0 {
        0
    } else {
        footprint(fs[0]) + footprints(fs.skip(1))
    }
}

proof fn lemma_footprints_last(fs: Seq<Field>)
    requires
        fs.len() > 0,
    ensures
        footprints(fs) == footprints(fs.drop_last()) + footprint(fs.last()),
    decreases fs.len(),
{
    if fs.len() == 1 {
        assert(fs.skip(1) =~= Seq::<Field>::empty());
        assert(fs.drop_last() =~= Seq::<Field>::empty());
        reveal_with_fuel(footprints, 2);
    } else {
        lemma_footprints_last(fs.skip(1));
        assert(fs.skip(1).drop_last() =~= fs.drop_last().skip(1));
    }
}

proof fn lemma_size(fs: Seq<Field>)
    ensures
        codec::table_size(fs) == footprints(fs),
        footprints(fs) >= 0,
    decreases fs.len(),
{
    if fs.len() > 0 {
        lemma_size(fs.drop_last());
        lemma_footprints_last(fs);
    }
}

proof fn lemma_grows(fs: Seq<Field>, k: int)
    requires
        0 <= k <= fs.len(),
    ensures
        footprints(fs.take(k)) <= footprints(fs),
    decreases fs.len(),
{
    if k == fs.len() {
        assert(fs.take(k) =~= fs);
    } else {
        lemma_footprints_last(fs);
        lemma_grows(fs.drop_last(), k);
        assert(fs.drop_last().take(k) =~= fs.take(k));
    }
}

/// What is evicted are the oldest entries, and no more of them than necessary.
proof fn lemma_evicted(es: Seq<Field>, limit: int, k: int)
    requires
        0 <= k < es.len(),
    ensures
        ({
            let kept = codec::evicted(es, limit);
            &&& footprints(es.take(k + 1)) <= limit ==> k < kept.len() && kept[k] == es[k]
            &&& footprints(es.take(k + 1)) > limit ==> kept.len() <= k
        }),
    decreases es.len(),
{
    lemma_size(es);
    lemma_grows(es, k + 1);
    if es.len() > 0 && codec::table_size(es) > limit {
        if k < es.len() - 1 {
            lemma_evicted(es.drop_last(), limit, k);
            assert(es.drop_last().take(k + 1) =~= es.take(k + 1));
        } else {
            assert(es.take(k + 1) =~= es);
            lemma_kept_len(es.drop_last(), limit);
        }
    }
}

proof fn lemma_kept_len(es: Seq<Field>, limit: int)
    ensures
        codec::evicted(es, limit).len() <= es.len(),
    decreases es.len(),
{
    if es.len() > 0 && codec::table_size(es) > limit {
        lemma_kept_len(es.drop_last(), limit);
    }
}

/// The newest entry of the dynamic table has the index behind those of the static
/// table, and every other one moves up by one when it is added. The oldest entries
/// that there is no room for leave the table, and no others do. An entry that is
/// larger than the table leaves it empty.
pub proof fn new_entries_come_first(t: Table, f: Field, k: int)
    requires
        0 <= k,
        63 + k <= usize::MAX,
    ensures
        ({
            let u = t.inserted(f);
            &&& u.max == t.max
            &&& footprint(f) <= t.max ==> u.at(62) == Some(f)
            &&& footprint(f) <= t.max && k < t.entries.len() && footprint(f) + footprints(
                t.entries.take(k + 1),
            ) <= t.max ==> u.at((63 + k) as usize) == t.at((62 + k) as usize) && t.at(
                (62 + k) as usize,
            ) is Some
            &&& footprint(f) <= t.max && k < t.entries.len() && footprint(f) + footprints(
                t.entries.take(k + 1),
            ) > t.max ==> u.at((63 + k) as usize) is None
            &&& k >= t.entries.len() ==> u.at((63 + k) as usize) is None
            &&& footprint(f) > t.max ==> u.at((62 + k) as usize) is None
        }),
{
    let limit = t.max - codec::entry_size(f);
    let kept = codec::evicted(t.entries, limit);
    lemma_kept_len(t.entries, limit);
    if k < t.entries.len() {
        lemma_evicted(t.entries, limit, k);
    }
    if footprint(f) > t.max && t.entries.len() > 0 {
        lemma_evicted(t.entries, limit, 0);
        lemma_size(t.entries.take(1));
    }
    let u = t.inserted(f);
    if footprint(f) <= t.max {
        assert(u.entries == seq![f] + kept);
        assert(u.entries[0] == f);
        if k < kept.len() {
            assert(u.entries[k + 1] == kept[k]);
        }
    }
}

/// A smaller table keeps the newest entries that it has room for, at their indices.
pub proof fn a_smaller_table_keeps_the_newest(t: Table, size: int, k: int)
    requires
        0 <= k,
        62 + k <= usize::MAX,
    ensures
        ({
            let u = t.resized(size);
            &&& u.max == size
            &&& k < t.entries.len() && footprints(t.entries.take(k + 1)) <= size ==> u.at(
                (62 + k) as usize,
            ) == t.at((62 + k) as usize)
            &&& k < t.entries.len() && footprints(t.entries.take(k + 1)) > size ==> u.at(
                (62 + k) as usize,
            ) is None
            &&& k >= t.entries.len() ==> u.at((62 + k) as usize) is None
        }),
{
    lemma_kept_len(t.entries, size);
    if k < t.entries.len() {
        lemma_evicted(t.entries, size, k);
    }
}

/// The first indices are those of the static table, whatever the dynamic one holds,
/// and there is none before them.
pub proof fn the_static_table_stays(t: Table, u: Table, i: usize)
    requires
        i <= 61,
    ensures
        t.at(i) == u.at(i),
        t.at(i) is Some == (i > 0),
{
}

// ---------------------------------------------------------------------------
// Representations
// ---------------------------------------------------------------------------

/// A string as it may be written: its bytes, and its Huffman code where it is
/// written in that.
pub struct Text {
    pub text: Seq<u8>,
    pub code: Option<Seq<u8>>,
}

/// A string on the wire: its length in seven bits, with the top bit set for a
/// Huffman code, and its bytes.
pub open spec fn text_bytes(s: Text) -> Seq<u8> {
    match s.code {
        None => integer::int_bytes(s.text.len() as int, 7, 0x00) + s.text,
        Some(h) => integer::int_bytes(h.len() as int, 7, 0x80) + h,
    }
}

/// A name that can be read.
pub open spec fn name_text(s: Text) -> bool {
    match s.code {
        None => s.text.len() <= 256,
        Some(h) => h.len() <= usize::MAX && huffman::decoded(h, 256) == Ok::<Seq<u8>, Error>(s.text),
    }
}

/// A value that can be read.
pub open spec fn value_text(s: Text) -> bool {
    match s.code {
        None => s.text.len() <= usize::MAX,
        Some(h) => h.len() <= usize::MAX && huffman::decoded(h, 1024) == Ok::<Seq<u8>, Error>(s.text),
    }
}

/// What decoding gives, behind these fields and so many bytes.
pub open spec fn behind(d: Decoded, fs: Seq<Field>, n: int) -> Decoded {
    Decoded {
        table: d.table,
        fields: fs + d.fields,
        result: match d.result {
            Ok(m) => Ok((n + m) as usize),
            Err(e) => Err(e),
        },
    }
}

proof fn lemma_string_moves(src: Seq<u8>, pos: int, k: int, cap: int, limited: bool)
    requires
        0 <= pos,
        0 <= k,
        pos + k <= src.len(),
    ensures
        codec::string_at(src, pos + k, cap, limited) == match codec::string_at(
            src.skip(pos),
            k,
            cap,
            limited,
        ) {
            Ok((s, p)) => Ok::<(Seq<u8>, int), Error>((s, pos + p)),
            Err(e) => Err(e),
        },
{
    let t = src.skip(pos);
    assert(src.skip(pos + k) =~= t.skip(k));
    integer::int_read_bound(t.skip(k), 7);
    match codec::string_head(t.skip(k)) {
        Ok((h, len, n)) => {
            assert(src.subrange(pos + k + n, pos + k + n + len) =~= t.subrange(
                k + n,
                k + n + len,
            ));
        },
        Err(_) => {},
    }
}

/// A representation is read in the same way wherever it stands.
proof fn lemma_representation_moves(t: Table, src: Seq<u8>, pos: int)
    requires
        0 <= pos < src.len(),
    ensures
        codec::representation(t, src, pos) == match codec::representation(t, src.skip(pos), 0) {
            Ok((u, f, p)) => Ok::<(Table, Option<Field>, int), Error>((u, f, pos + p)),
            Err(e) => Err(e),
        },
{
    let s = src.skip(pos);
    assert(s.skip(0) =~= s);
    assert(s[0] == src[pos]);
    let first = src[pos];
    let prefix: u8 = if first >= 128 {
        7
    } else if first >= 64 {
        6
    } else if first >= 32 {
        5
    } else {
        4
    };
    integer::int_read_bound(s, prefix);
    match integer::int_read(s, prefix) {
        Ok((v, n)) => {
            lemma_string_moves(src, pos, n as int, codec::MAX_NAME_LEN as int, true);
            codec::string_at_bound(s, n as int, codec::MAX_NAME_LEN as int, true);
            match codec::name_at(t, s, n as int, v as usize) {
                Ok((name, p)) => {
                    lemma_string_moves(src, pos, p, codec::MAX_HUFFMAN_VALUE_LEN as int, false);
                },
                Err(_) => {},
            }
        },
        Err(_) => {},
    }
}

/// One representation is read, and then what follows it.
proof fn lemma_decode_step(
    t: Table,
    src: Seq<u8>,
    pos: int,
    acc: Seq<Field>,
    r: Result<(Table, Option<Field>, int), Error>,
)
    requires
        0 <= pos < src.len(),
        codec::representation(t, src, pos) == r,
    ensures
        match r {
            Ok((u, f, p)) => pos < p <= src.len() && codec::decode_from(t, src, pos, acc)
                == codec::decode_from(
                u,
                src,
                p,
                match f {
                    Some(f) => acc.push(f),
                    None => acc,
                },
            ),
            Err(e) => codec::decode_from(t, src, pos, acc) == (Decoded {
                table: t,
                fields: acc,
                result: Err(e),
            }),
        },
{
    codec::representation_bound(t, src, pos);
}

#[verifier::spinoff_prover]
#[verifier::rlimit(60)]
proof fn lemma_decode_moves(t: Table, src: Seq<u8>, pos: int, acc: Seq<Field>)
    requires
        0 <= pos <= src.len() <= usize::MAX,
    ensures
        codec::decode_from(t, src, pos, acc) == behind(
            codec::decode_block(t, src.skip(pos)),
            acc,
            pos,
        ),
    decreases src.len() - pos,
{
    let s = src.skip(pos);
    let none = Seq::<Field>::empty();
    if pos == src.len() {
        assert(acc + none =~= acc);
    } else {
        let r = codec::representation(t, s, 0);
        lemma_representation_moves(t, src, pos);
        lemma_decode_step(t, s, 0, none, r);
        lemma_decode_step(
            t,
            src,
            pos,
            acc,
            match r {
                Ok((u, f, p)) => Ok((u, f, pos + p)),
                Err(e) => Err(e),
            },
        );
        match r {
            Ok((u, f, p)) => {
                let got = match f {
                    Some(f) => none.push(f),
                    None => none,
                };
                let more = match f {
                    Some(f) => acc.push(f),
                    None => acc,
                };
                lemma_decode_moves(u, src, pos + p, more);
                lemma_decode_moves(u, s, p, got);
                assert(s.skip(p) =~= src.skip(pos + p));
                let rest = codec::decode_block(u, s.skip(p));
                assert(acc + (got + rest.fields) =~= more + rest.fields);
                lemma_read_bound(u, s.skip(p));
            },
            Err(_) => {
                assert(acc + none =~= acc);
            },
        }
    }
}

proof fn lemma_read_bound(t: Table, src: Seq<u8>)
    requires
        src.len() <= usize::MAX,
    ensures
        codec::decode_block(t, src).result matches Ok(n) ==> n == src.len(),
{
    lemma_read_bound_from(t, src, 0, Seq::empty());
}

proof fn lemma_read_bound_from(t: Table, src: Seq<u8>, pos: int, acc: Seq<Field>)
    requires
        0 <= pos <= src.len() <= usize::MAX,
    ensures
        codec::decode_from(t, src, pos, acc).result matches Ok(n) ==> n == src.len(),
    decreases src.len() - pos,
{
    if pos < src.len() {
        codec::representation_bound(t, src, pos);
        match codec::representation(t, src, pos) {
            Ok((u, f, p)) => {
                lemma_read_bound_from(
                    u,
                    src,
                    p,
                    match f {
                        Some(f) => acc.push(f),
                        None => acc,
                    },
                );
            },
            Err(_) => {},
        }
    }
}

/// A block that begins with a representation that is read.
proof fn lemma_first(t: Table, rep: Seq<u8>, rest: Seq<u8>, u: Table, f: Option<Field>)
    requires
        rep.len() > 0,
        rep.len() + rest.len() <= usize::MAX,
        codec::representation(t, rep + rest, 0) == Ok::<(Table, Option<Field>, int), Error>(
            (u, f, rep.len() as int),
        ),
    ensures
        codec::decode_block(t, rep + rest) == behind(
            codec::decode_block(u, rest),
            match f {
                Some(f) => seq![f],
                None => Seq::empty(),
            },
            rep.len() as int,
        ),
{
    let src = rep + rest;
    let none = Seq::<Field>::empty();
    let got = match f {
        Some(f) => none.push(f),
        None => none,
    };
    lemma_decode_moves(u, src, rep.len() as int, got);
    assert(src.skip(rep.len() as int) =~= rest);
    assert(got =~= match f {
        Some(f) => seq![f],
        None => Seq::empty(),
    });
}

proof fn lemma_text(src: Seq<u8>, pos: int, s: Text, rest: Seq<u8>, cap: int, limited: bool)
    requires
        0 <= pos <= src.len(),
        src.skip(pos) == text_bytes(s) + rest,
        match s.code {
            None => s.text.len() <= usize::MAX && (limited ==> s.text.len() <= cap),
            Some(h) => h.len() <= usize::MAX && huffman::decoded(h, cap) == Ok::<Seq<u8>, Error>(
                s.text,
            ),
        },
    ensures
        codec::string_at(src, pos, cap, limited) == Ok::<(Seq<u8>, int), Error>(
            (s.text, pos + text_bytes(s).len()),
        ),
{
    let body = match s.code {
        None => s.text,
        Some(h) => h,
    };
    let flags: u8 = if s.code is Some {
        0x80
    } else {
        0x00
    };
    let head = integer::int_bytes(body.len() as int, 7, flags);
    integer::integer_roundtrip(body.len() as u64, 7, flags, body + rest);
    assert(text_bytes(s) + rest =~= head + (body + rest));
    assert(src.skip(pos)[0] == head[0]);
    assert((head[0] >= 128) == (s.code is Some));
    assert((body.len() as u64) as usize == body.len());
    assert(src.subrange(pos + head.len(), pos + head.len() + body.len()) =~= body) by {
        assert forall|i: int| 0 <= i < body.len() implies src[pos + head.len() + i] == body[i] by {
            assert(src.skip(pos)[head.len() + i] == (head + (body + rest))[head.len() + i]);
        }
    }
}

/// How a literal field is entered: into the dynamic table too, or not, or in no
/// table on the way.
pub enum Entry {
    Indexed,
    NotIndexed,
    NeverIndexed,
}

/// The bits in front of a literal field.
pub open spec fn entry_flags(e: Entry) -> u8 {
    match e {
        Entry::Indexed => 0x40,
        Entry::NotIndexed => 0x00,
        Entry::NeverIndexed => 0x10,
    }
}

/// How many bits are left for the index of a name.
pub open spec fn entry_prefix(e: Entry) -> u8 {
    match e {
        Entry::Indexed => 6,
        _ => 4,
    }
}

/// The table behind a literal field.
pub open spec fn entered(t: Table, e: Entry, f: Field) -> Table {
    match e {
        Entry::Indexed => t.inserted(f),
        _ => t,
    }
}

/// An indexed field is the field of the tables at its index, and leaves them as
/// they are. What follows it is read as if it came first.
pub proof fn indexed_fields_are_read(t: Table, i: usize, rest: Seq<u8>)
    requires
        i + rest.len() + 20 <= usize::MAX,
        t.at(i) is Some,
    ensures
        ({
            let rep = integer::int_bytes(i as int, 7, 0x80);
            codec::decode_block(t, rep + rest) == behind(
                codec::decode_block(t, rest),
                seq![t.at(i)->0],
                rep.len() as int,
            )
        }),
{
    let rep = integer::int_bytes(i as int, 7, 0x80);
    let src = rep + rest;
    integer::integer_roundtrip(i as u64, 7, 0x80, rest);
    assert(src.skip(0) =~= src);
    assert(src[0] == rep[0] && rep[0] >= 128);
    assert((i as u64) as usize == i);
    lemma_first(t, rep, rest, t, t.at(i));
}

/// An index that no entry has is refused.
pub proof fn unknown_indices_are_refused(t: Table, i: usize, rest: Seq<u8>)
    requires
        t.at(i) is None,
    ensures
        ({
            let d = codec::decode_block(t, integer::int_bytes(i as int, 7, 0x80) + rest);
            d.result == Err::<usize, Error>(Error::InvalidState) && d.fields.len() == 0 && d.table
                == t
        }),
{
    let rep = integer::int_bytes(i as int, 7, 0x80);
    let src = rep + rest;
    integer::integer_roundtrip(i as u64, 7, 0x80, rest);
    assert(src.skip(0) =~= src);
    assert(src[0] == rep[0] && rep[0] >= 128);
    assert((i as u64) as usize == i);
}

proof fn lemma_literal_read(
    t: Table,
    e: Entry,
    src: Seq<u8>,
    n: usize,
    name_index: usize,
    f: Field,
    end: int,
)
    requires
        src.len() > 0,
        match e {
            Entry::Indexed => 64 <= src[0] < 128,
            _ => src[0] < 32,
        },
        integer::int_read(src, entry_prefix(e)) == Ok::<(u64, usize), Error>(
            (name_index as u64, n),
        ),
        codec::literal_at(t, src, n as int, name_index) == Ok::<(Field, int), Error>((f, end)),
    ensures
        codec::representation(t, src, 0) == Ok::<(Table, Option<Field>, int), Error>(
            (entered(t, e, f), Some(f), end),
        ),
{
    assert(src.skip(0) =~= src);
    assert((name_index as u64) as usize == name_index);
}

/// A literal field whose name is written out is read as it was written, and entered
/// into the dynamic table where it says so.
#[verifier::spinoff_prover]
#[verifier::rlimit(60)]
pub proof fn literal_fields_are_read(t: Table, e: Entry, name: Text, value: Text, rest: Seq<u8>)
    requires
        name_text(name),
        value_text(value),
        text_bytes(name).len() + text_bytes(value).len() + rest.len() + 1 <= usize::MAX,
    ensures
        ({
            let rep = seq![entry_flags(e)] + text_bytes(name) + text_bytes(value);
            let f = (name.text, value.text);
            codec::decode_block(t, rep + rest) == behind(
                codec::decode_block(entered(t, e, f), rest),
                seq![f],
                rep.len() as int,
            )
        }),
{
    let first = seq![entry_flags(e)];
    let rep = first + text_bytes(name) + text_bytes(value);
    let src = rep + rest;
    let f = (name.text, value.text);
    assert(src.skip(0) =~= src);
    assert(src[0] == entry_flags(e));
    let tail = text_bytes(name) + text_bytes(value) + rest;
    integer::integer_roundtrip(0, entry_prefix(e), entry_flags(e), tail);
    assert(integer::int_bytes(0, entry_prefix(e), entry_flags(e)) =~= first);
    assert(src =~= first + tail);
    assert(0u64 as usize == 0);
    assert(src.skip(1) =~= text_bytes(name) + (text_bytes(value) + rest));
    lemma_text(src, 1, name, text_bytes(value) + rest, 256, true);
    let p = 1 + text_bytes(name).len() as int;
    assert(src.skip(p) =~= text_bytes(value) + rest);
    lemma_text(src, p, value, rest, 1024, false);
    assert(codec::literal_at(t, src, 1, 0) == Ok::<(Field, int), Error>(
        (f, p + text_bytes(value).len()),
    ));
    lemma_literal_read(t, e, src, 1, 0, f, rep.len() as int);
    lemma_first(t, rep, rest, entered(t, e, f), Some(f));
}

/// A literal field whose name is given by an index has the name of the field of the
/// tables at that index, and the value that is written out.
#[verifier::spinoff_prover]
#[verifier::rlimit(60)]
pub proof fn named_fields_are_read(t: Table, e: Entry, i: usize, value: Text, rest: Seq<u8>)
    requires
        i > 0,
        t.at(i) matches Some(f) && f.0.len() <= 256,
        value_text(value),
        text_bytes(value).len() + rest.len() + 20 <= usize::MAX,
    ensures
        ({
            let rep = integer::int_bytes(i as int, entry_prefix(e), entry_flags(e)) + text_bytes(
                value,
            );
            let f = (t.at(i)->Some_0.0, value.text);
            codec::decode_block(t, rep + rest) == behind(
                codec::decode_block(entered(t, e, f), rest),
                seq![f],
                rep.len() as int,
            )
        }),
{
    let head = integer::int_bytes(i as int, entry_prefix(e), entry_flags(e));
    let rep = head + text_bytes(value);
    let src = rep + rest;
    let f = (t.at(i)->Some_0.0, value.text);
    integer::integer_roundtrip(
        i as u64,
        entry_prefix(e),
        entry_flags(e),
        text_bytes(value) + rest,
    );
    assert(src =~= head + (text_bytes(value) + rest));
    assert(src.skip(0) =~= src);
    assert(src[0] == head[0]);
    assert((i as u64) as usize == i);
    assert(match e {
        Entry::Indexed => 64 <= head[0] < 128,
        _ => head[0] < 32,
    });
    let p = head.len() as int;
    assert(src.skip(p) =~= text_bytes(value) + rest);
    lemma_text(src, p, value, rest, 1024, false);
    assert(codec::name_at(t, src, p, i) == Ok::<(Seq<u8>, int), Error>((f.0, p)));
    assert(codec::literal_at(t, src, p, i) == Ok::<(Field, int), Error>(
        (f, p + text_bytes(value).len()),
    ));
    lemma_literal_read(t, e, src, head.len() as usize, i, f, rep.len() as int);
    lemma_first(t, rep, rest, entered(t, e, f), Some(f));
}

/// A size update stands for no field, and changes the size of the dynamic table. One
/// above the size that was announced is refused.
pub proof fn size_updates_are_followed(t: Table, size: usize, rest: Seq<u8>)
    requires
        rest.len() + 20 <= usize::MAX,
    ensures
        ({
            let rep = integer::int_bytes(size as int, 5, 0x20);
            let d = codec::decode_block(t, rep + rest);
            &&& size <= 4096 ==> d == behind(
                codec::decode_block(t.resized(size as int), rest),
                Seq::empty(),
                rep.len() as int,
            )
            &&& size > 4096 ==> d.result == Err::<usize, Error>(Error::InvalidState)
        }),
{
    let rep = integer::int_bytes(size as int, 5, 0x20);
    let src = rep + rest;
    integer::integer_roundtrip(size as u64, 5, 0x20, rest);
    assert(src.skip(0) =~= src);
    assert(src[0] == rep[0] && 32 <= rep[0] < 64);
    assert((size as u64) as usize == size);
    if size <= 4096 {
        lemma_first(t, rep, rest, t.resized(size as int), None);
    }
}

/// Fields as literals that are entered into the dynamic table.
pub open spec fn entering(fs: Seq<Field>) -> Seq<u8>
    decreases fs.len(),
{
    if fs.len() == 0 {
        Seq::empty()
    } else {
        seq![0x40u8] + text_bytes(Text { text: fs[0].0, code: None }) + text_bytes(
            Text { text: fs[0].1, code: None },
        ) + entering(fs.skip(1))
    }
}

/// A block that enters fields and then refers to one of them by its index, counted
/// from the newest, is read as these fields and that one again.
pub proof fn entered_fields_are_found_by_index(fs: Seq<Field>, k: int)
    requires
        0 <= k < fs.len(),
        footprints(fs) <= 4096,
        entering(fs).len() + 100 <= usize::MAX,
        62 + k + 100 <= usize::MAX,
        forall|i: int| 0 <= i < fs.len() ==> (#[trigger] fs[i]).0.len() <= 256,
    ensures
        ({
            let src = entering(fs) + integer::int_bytes(62 + k, 7, 0x80);
            let d = codec::decode_block(Table::initial(), src);
            &&& d.fields == fs.push(fs[fs.len() - 1 - k])
            &&& d.result == Ok::<usize, Error>(src.len() as usize)
        }),
{
    let none = Seq::<Field>::empty();
    let rep = integer::int_bytes(62 + k, 7, 0x80);
    integer::integer_roundtrip((62 + k) as u64, 7, 0x80, Seq::empty());
    lemma_entering(Table::initial(), none, fs, rep);
    let t = Table { entries: fs.reverse(), max: 4096 };
    assert(none.reverse() =~= none);
    assert(none + fs =~= fs);
    let i = (62 + k) as usize;
    assert(t.at(i) == Some(fs[fs.len() - 1 - k]));
    let nil = Seq::<u8>::empty();
    indexed_fields_are_read(t, i, nil);
    assert(rep + nil =~= rep);
    let last = codec::decode_block(t, rep);
    assert(codec::decode_block(t, nil).fields =~= none);
    assert(last.fields =~= seq![fs[fs.len() - 1 - k]]);
    assert(fs + last.fields =~= fs.push(fs[fs.len() - 1 - k]));
}

/// The dynamic table holds what was entered, the newest first.
#[verifier::spinoff_prover]
#[verifier::rlimit(60)]
proof fn lemma_entering(t: Table, before: Seq<Field>, fs: Seq<Field>, rest: Seq<u8>)
    requires
        t.entries == before.reverse(),
        t.max == 4096,
        footprints(before + fs) <= 4096,
        entering(fs).len() + rest.len() <= usize::MAX,
        forall|i: int| 0 <= i < fs.len() ==> (#[trigger] fs[i]).0.len() <= 256,
    ensures
        codec::decode_block(t, entering(fs) + rest) == behind(
            codec::decode_block(Table { entries: (before + fs).reverse(), max: 4096 }, rest),
            fs,
            entering(fs).len() as int,
        ),
    decreases fs.len(),
{
    if fs.len() == 0 {
        assert(before + fs =~= before);
        assert(entering(fs) + rest =~= rest);
        let d = codec::decode_block(t, rest);
        assert(fs + d.fields =~= d.fields);
        assert(t =~= Table { entries: before.reverse(), max: 4096 });
    } else {
        let f = fs[0];
        let name = Text { text: f.0, code: None };
        let value = Text { text: f.1, code: None };
        let rep = seq![0x40u8] + text_bytes(name) + text_bytes(value);
        let later = entering(fs.skip(1));
        let u = t.inserted(f);
        assert(entering(fs) + rest =~= rep + (later + rest));
        assert((before + fs).take((before.len() + 1) as int) =~= before.push(f));
        lemma_grows(before + fs, (before.len() + 1) as int);
        lemma_footprints_last(before.push(f));
        assert(before.push(f).drop_last() =~= before);
        lemma_reversed(before);
        lemma_size(t.entries);
        lemma_size(before);
        assert(codec::evicted(t.entries, t.max - codec::entry_size(f)) == t.entries);
        assert(u.entries =~= before.push(f).reverse());
        literal_fields_are_read(t, Entry::Indexed, name, value, later + rest);
        assert(before.push(f) + fs.skip(1) =~= before + fs);
        lemma_entering(u, before.push(f), fs.skip(1), rest);
        let d = codec::decode_block(Table { entries: (before + fs).reverse(), max: 4096 }, rest);
        assert(seq![f] + (fs.skip(1) + d.fields) =~= fs + d.fields);
        lemma_read_bound(Table { entries: (before + fs).reverse(), max: 4096 }, rest);
    }
}

proof fn lemma_reversed(fs: Seq<Field>)
    ensures
        footprints(fs.reverse()) == footprints(fs),
    decreases fs.len(),
{
    if fs.len() > 0 {
        lemma_reversed(fs.skip(1));
        lemma_footprints_last(fs.reverse());
        assert(fs.reverse().drop_last() =~= fs.skip(1).reverse());
        assert(fs.reverse().last() == fs[0]);
    } else {
        assert(fs.reverse() =~= fs);
    }
}

} // verus!
