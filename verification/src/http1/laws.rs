//! What one end of an HTTP/1.1 connection writes, the other end reads.

use vstd::prelude::*;

use super::connection::Http1Event;
use super::head;
use super::head::{COLON, CR, LF, SP, VERSION};
use super::model;
use super::model::{H1Round, H1Sys, H1};
use crate::bytes::Field;
use crate::error::Error;
use crate::http::headers::{AUTHORITY, METHOD, PATH, STATUS};
use crate::io::Wire;

verus! {

/// `host`
pub const HOST: [u8; 4] = [0x68, 0x6f, 0x73, 0x74];

/// Without carriage returns: it cannot end a line.
pub open spec fn unbroken(s: Seq<u8>) -> bool {
    forall|i: int| 0 <= i < s.len() ==> s[i] != CR
}

/// Without blanks at its ends.
pub open spec fn trimmed(s: Seq<u8>) -> bool {
    s.len() > 0 ==> !head::is_blank(s[0]) && !head::is_blank(s.last())
}

/// A header that keeps its meaning in a message head: its name is in lower case
/// and without colons, and neither part breaks the line.
pub open spec fn plain(f: Field) -> bool {
    &&& f.0.len() > 0
    &&& forall|i: int| 0 <= i < f.0.len() ==> f.0[i] != COLON && !(0x41 <= #[trigger] f.0[i] <= 0x5a)
    &&& unbroken(f.0)
    &&& unbroken(f.1)
    &&& trimmed(f.1)
}

pub open spec fn all_plain(fs: Seq<Field>) -> bool {
    forall|i: int| 0 <= i < fs.len() ==> plain(#[trigger] fs[i])
}

/// The line of a header, without its end.
pub open spec fn line_of(f: Field) -> Seq<u8> {
    f.0 + seq![COLON, SP] + f.1
}

/// The end of a line.
pub open spec fn crlf() -> Seq<u8> {
    seq![CR, LF]
}

proof fn lemma_line_end(l: Seq<u8>, t: Seq<u8>, i: int)
    requires
        unbroken(l),
        0 <= i <= l.len(),
    ensures
        head::line_end(l + crlf() + t, i) == Some(l.len() as int),
    decreases l.len() - i,
{
    let s = l + crlf() + t;
    if i < l.len() {
        assert(s[i] == l[i]);
        lemma_line_end(l, t, i + 1);
    } else {
        assert(s[i] == CR && s[i + 1] == LF);
    }
}

proof fn lemma_no_line_end(l: Seq<u8>, i: int)
    requires
        unbroken(l),
        0 <= i,
    ensures
        head::line_end(l, i) is None,
    decreases l.len() - i,
{
    if i + 1 < l.len() {
        lemma_no_line_end(l, i + 1);
    }
}

/// A message head does not end within a line, or behind one that is followed by
/// another.
proof fn lemma_head_end_skips(l: Seq<u8>, t: Seq<u8>, i: int)
    requires
        unbroken(l),
        t.len() > 0,
        t[0] != CR,
        0 <= i <= l.len() + 2,
    ensures
        head::head_end(l + crlf() + t, i) == match head::head_end(t, 0) {
            Some(p) => Some(p + l.len() + 2),
            None => None::<int>,
        },
    decreases l.len() + 2 - i,
{
    let s = l + crlf() + t;
    if i < l.len() + 2 {
        if i < l.len() {
            assert(s[i] == l[i]);
        } else if i == l.len() {
            assert(s[i + 2] == t[0]);
        } else {
            assert(s[i] == LF);
        }
        if i + 3 < s.len() {
            lemma_head_end_skips(l, t, i + 1);
        } else {
            assert(t.len() <= 3);
            lemma_head_end_short(t);
        }
    } else {
        lemma_head_end_shift(l + crlf(), t, 0);
    }
}

proof fn lemma_head_end_short(t: Seq<u8>)
    requires
        t.len() <= 3,
    ensures
        head::head_end(t, 0) is None,
{
}

proof fn lemma_head_end_shift(p: Seq<u8>, t: Seq<u8>, i: int)
    requires
        0 <= i,
    ensures
        head::head_end(p + t, p.len() + i) == match head::head_end(t, i) {
            Some(k) => Some(k + p.len()),
            None => None::<int>,
        },
    decreases t.len() - i,
{
    if i + 3 < t.len() {
        let s = p + t;
        assert(s[p.len() + i] == t[i] && s[p.len() + i + 1] == t[i + 1]);
        assert(s[p.len() + i + 2] == t[i + 2] && s[p.len() + i + 3] == t[i + 3]);
        lemma_head_end_shift(p, t, i + 1);
    }
}

/// A message head ends behind its last line.
proof fn lemma_head_end_last(l: Seq<u8>, rest: Seq<u8>, i: int)
    requires
        unbroken(l),
        0 <= i <= l.len(),
    ensures
        head::head_end(l + crlf() + crlf() + rest, i) == Some(l.len() as int),
    decreases l.len() - i,
{
    let s = l + crlf() + crlf() + rest;
    if i < l.len() {
        assert(s[i] == l[i]);
        lemma_head_end_last(l, rest, i + 1);
    } else {
        assert(s[i] == CR && s[i + 1] == LF && s[i + 2] == CR && s[i + 3] == LF);
    }
}

/// The lines of headers, each with its end, from the first on.
proof fn lemma_lines_first(fs: Seq<Field>)
    requires
        fs.len() > 0,
        all_plain(fs),
    ensures
        head::lines(fs) == line_of(fs[0]) + crlf() + head::lines(fs.skip(1)),
    decreases fs.len(),
{
    let init = fs.drop_last();
    let f = fs.last();
    assert(plain(fs[fs.len() - 1]));
    assert(!head::is_pseudo(f.0));
    if fs.len() == 1 {
        assert(fs.skip(1) =~= Seq::<Field>::empty());
        assert(init =~= Seq::<Field>::empty());
        assert(head::lines(init) =~= Seq::<u8>::empty());
        assert(head::lines(fs) =~= line_of(fs[0]) + crlf() + head::lines(fs.skip(1)));
    } else {
        assert(all_plain(init)) by {
            assert forall|i: int| 0 <= i < init.len() implies plain(#[trigger] init[i]) by {
                assert(init[i] == fs[i]);
            }
        }
        lemma_lines_first(init);
        assert(init[0] == fs[0]);
        assert(fs.skip(1).drop_last() =~= init.skip(1));
        assert(fs.skip(1).last() == f);
        assert(head::lines(fs) =~= line_of(fs[0]) + crlf() + head::lines(fs.skip(1)));
    }
}

/// Pseudo-headers have no lines.
proof fn lemma_lines_pseudo(ps: Seq<Field>, fs: Seq<Field>)
    requires
        forall|i: int| 0 <= i < ps.len() ==> head::is_pseudo((#[trigger] ps[i]).0),
    ensures
        head::lines(ps + fs) == head::lines(fs),
    decreases ps.len() + fs.len(),
{
    let all = ps + fs;
    if fs.len() > 0 {
        assert(all.drop_last() =~= ps + fs.drop_last());
        assert(all.last() == fs.last());
        lemma_lines_pseudo(ps, fs.drop_last());
    } else if ps.len() > 0 {
        assert(all.drop_last() =~= ps.drop_last() + fs);
        assert(all.last() == ps[ps.len() - 1]);
        assert forall|i: int| 0 <= i < ps.drop_last().len() implies head::is_pseudo(
            (#[trigger] ps.drop_last()[i]).0,
        ) by {
            assert(ps.drop_last()[i] == ps[i]);
        }
        lemma_lines_pseudo(ps.drop_last(), fs);
    }
}

proof fn lemma_index_of(name: Seq<u8>, b: u8, t: Seq<u8>, i: int)
    requires
        0 <= i <= name.len(),
        forall|k: int| i <= k < name.len() ==> name[k] != b,
        t.len() > 0,
        t[0] == b,
    ensures
        head::index_of(name + t, b, i) == Some(name.len() as int),
    decreases name.len() - i,
{
    let s = name + t;
    if i < name.len() {
        assert(s[i] == name[i]);
        lemma_index_of(name, b, t, i + 1);
    } else {
        assert(s[i] == t[0]);
    }
}

/// A header line is read as the header that it was written for.
proof fn lemma_header_line(f: Field)
    requires
        plain(f),
    ensures
        head::header_line(line_of(f)) == Some(f),
{
    let l = line_of(f);
    let t = seq![COLON, SP] + f.1;
    assert(l =~= f.0 + t);
    lemma_index_of(f.0, COLON, t, 0);
    assert(l.take(f.0.len() as int) =~= f.0);
    assert(head::lower(f.0) =~= f.0);
    let v = l.skip(f.0.len() as int + 1);
    assert(v =~= seq![SP] + f.1);
    assert(v[0] == SP);
    assert(v.skip(1) =~= f.1);
    reveal_with_fuel(head::trim_start, 2);
    assert(head::trim_start(v) == f.1);
    assert(head::trim_end(f.1) == f.1);
}

/// What stands behind the first line is as long as it was written.
proof fn lemma_first_and_others(l: Seq<u8>, t: Seq<u8>)
    requires
        unbroken(l),
    ensures
        head::first_line(l + crlf() + t) == l,
        head::other_lines(l + crlf() + t) == t,
{
    let s = l + crlf() + t;
    lemma_line_end(l, t, 0);
    assert(s.take(l.len() as int) =~= l);
    assert(s.skip(l.len() as int + 2) =~= t);
}

proof fn lemma_only_line(l: Seq<u8>)
    requires
        unbroken(l),
    ensures
        head::first_line(l) == l,
        head::other_lines(l) == Seq::<u8>::empty(),
{
    lemma_no_line_end(l, 0);
}

proof fn lemma_line_unbroken(f: Field)
    requires
        plain(f),
    ensures
        unbroken(line_of(f)),
        line_of(f).len() > 0,
        line_of(f)[0] != CR,
{
    let l = line_of(f);
    assert forall|i: int| 0 <= i < l.len() implies l[i] != CR by {
        if i < f.0.len() {
            assert(l[i] == f.0[i]);
        } else if i >= f.0.len() + 2 {
            assert(l[i] == f.1[i - f.0.len() - 2]);
        }
    }
    assert(l[0] == f.0[0]);
}

/// Header lines without the end of the last one.
pub open spec fn joined(fs: Seq<Field>) -> Seq<u8> {
    head::lines(fs).take(head::lines(fs).len() - 2)
}

/// Header lines are read as the headers that they were written for.
proof fn lemma_header_lines(fs: Seq<Field>, acc: Seq<Field>)
    requires
        all_plain(fs),
        fs.len() > 0,
    ensures
        head::lines(fs).len() > 2,
        head::header_lines(joined(fs), acc) == Some(acc + fs),
    decreases fs.len(),
{
    lemma_lines_first(fs);
    let f = fs[0];
    let rest = fs.skip(1);
    lemma_line_unbroken(f);
    lemma_header_line(f);
    let l = line_of(f);
    if rest.len() == 0 {
        assert(head::lines(rest) =~= Seq::<u8>::empty());
        assert(joined(fs) =~= l);
        lemma_only_line(l);
        reveal_with_fuel(head::header_lines, 2);
        assert(acc.push(f) =~= acc + fs);
    } else {
        assert(all_plain(rest)) by {
            assert forall|i: int| 0 <= i < rest.len() implies plain(#[trigger] rest[i]) by {
                assert(rest[i] == fs[i + 1]);
            }
        }
        lemma_header_lines(rest, acc.push(f));
        assert(joined(fs) =~= l + crlf() + joined(rest));
        lemma_first_and_others(l, joined(rest));
        assert(acc.push(f) + rest =~= acc + fs);
    }
}

/// A message head that was written is read: where it ends, and its fields behind
/// those of its first line.
proof fn lemma_head(start: Seq<u8>, fs: Seq<Field>, body: Seq<u8>)
    requires
        unbroken(start),
        all_plain(fs),
    ensures
        ({
            let h = start + crlf() + head::lines(fs) + crlf();
            let p = h.len() - 4;
            &&& p >= 0
            &&& head::head_end(h + body, 0) == Some(p)
            &&& head::first_line((h + body).take(p)) == start
            &&& forall|acc: Seq<Field>|
                head::header_lines(
                    head::other_lines((h + body).take(p)),
                    acc,
                ) == Some(#[trigger] (acc + fs))
        }),
{
    let h = start + crlf() + head::lines(fs) + crlf();
    let p = h.len() - 4;
    let top = (h + body).take(p);
    if fs.len() == 0 {
        assert(head::lines(fs) =~= Seq::<u8>::empty());
        assert(h + body =~= start + crlf() + crlf() + body);
        lemma_head_end_last(start, body, 0);
        assert(top =~= start);
        lemma_only_line(start);
        assert forall|acc: Seq<Field>| head::header_lines(
            head::other_lines(top),
            acc,
        ) == Some(#[trigger] (acc + fs)) by {
            assert(acc + fs =~= acc);
        }
    } else {
        lemma_lines_end(fs, body);
        lemma_header_lines(fs, Seq::empty());
        let t = head::lines(fs) + crlf() + body;
        assert(h + body =~= start + crlf() + t);
        lemma_lines_first(fs);
        lemma_line_unbroken(fs[0]);
        assert(t[0] == line_of(fs[0])[0]);
        lemma_head_end_skips(start, t, 0);
        assert(top =~= start + crlf() + joined(fs));
        lemma_first_and_others(start, joined(fs));
        assert forall|acc: Seq<Field>| head::header_lines(
            head::other_lines(top),
            acc,
        ) == Some(#[trigger] (acc + fs)) by {
            lemma_header_lines(fs, acc);
        }
    }
}

/// Header lines end a head, and no earlier.
proof fn lemma_lines_end(fs: Seq<Field>, body: Seq<u8>)
    requires
        all_plain(fs),
        fs.len() > 0,
    ensures
        head::lines(fs).len() > 2,
        head::head_end(head::lines(fs) + crlf() + body, 0) == Some(head::lines(fs).len() - 2),
    decreases fs.len(),
{
    lemma_lines_first(fs);
    let rest = fs.skip(1);
    let l = line_of(fs[0]);
    lemma_line_unbroken(fs[0]);
    if rest.len() == 0 {
        assert(head::lines(rest) =~= Seq::<u8>::empty());
        assert(head::lines(fs) + crlf() + body =~= l + crlf() + crlf() + body);
        lemma_head_end_last(l, body, 0);
    } else {
        assert(all_plain(rest)) by {
            assert forall|i: int| 0 <= i < rest.len() implies plain(#[trigger] rest[i]) by {
                assert(rest[i] == fs[i + 1]);
            }
        }
        lemma_lines_end(rest, body);
        lemma_lines_first(rest);
        lemma_line_unbroken(rest[0]);
        let t = head::lines(rest) + crlf() + body;
        assert(t[0] == line_of(rest[0])[0]);
        assert(head::lines(fs) + crlf() + body =~= l + crlf() + t);
        lemma_head_end_skips(l, t, 0);
    }
}

proof fn lemma_names()
    ensures
        head::is_pseudo(STATUS@),
        head::is_pseudo(METHOD@),
        head::is_pseudo(PATH@),
        head::is_pseudo(AUTHORITY@),
        METHOD@ != PATH@,
        METHOD@ != AUTHORITY@,
        PATH@ != AUTHORITY@,
        head::HOST_PREFIX@ == HOST@ + seq![COLON, SP],
        plain((HOST@, Seq::empty())),
        unbroken(VERSION@),
        VERSION@.len() == 8,
{
    assert(METHOD@.len() == 7 && PATH@.len() == 5 && AUTHORITY@.len() == 10);
    assert(STATUS@[0] == COLON);
    assert(METHOD@[0] == COLON);
    assert(PATH@[0] == COLON);
    assert(AUTHORITY@[0] == COLON);
    assert(HOST@ =~= seq![0x68u8, 0x6f, 0x73, 0x74]);
    assert(head::HOST_PREFIX@ =~= HOST@ + seq![COLON, SP]);
    assert(VERSION@ =~= seq![0x48u8, 0x54, 0x54, 0x50, 0x2f, 0x31, 0x2e, 0x31]);
}

proof fn lemma_reasons(code: u16)
    ensures
        unbroken(head::reason(code)),
{
    let r = head::reason(code);
    assert forall|i: int| 0 <= i < r.len() implies r[i] != CR by {
        assert(r.len() <= 21);
    }
}

/// Three decimal digits.
pub open spec fn is_status(d: Seq<u8>) -> bool {
    d.len() == 3 && head::is_digit(d[0]) && head::is_digit(d[1]) && head::is_digit(d[2])
}

/// The fields of a response: its status, then its headers.
pub open spec fn response_fields(d: Seq<u8>, fs: Seq<Field>) -> Seq<Field> {
    seq![(STATUS@, d)] + fs
}

/// The head of a response is read as what it was written for: the status and the
/// headers, in order. Whatever follows the head is no part of it.
pub proof fn response_head_is_read_back(d: Seq<u8>, fs: Seq<Field>, body: Seq<u8>)
    requires
        is_status(d),
        all_plain(fs),
    ensures
        ({
            let all = response_fields(d, fs);
            match head::response_head(all) {
                Some(h) => head::head_end(h + body, 0) == Some(h.len() - 4) && head::head_fields(
                    false,
                    (h + body).take(h.len() - 4),
                ) == Some(all),
                None => false,
            }
        }),
{
    lemma_names();
    let all = response_fields(d, fs);
    let status = seq![(STATUS@, d)];
    assert(all[0] == (STATUS@, d));
    assert(head::value_of(all, STATUS@) == Some(d));
    assert forall|i: int| 0 <= i < status.len() implies head::is_pseudo(
        (#[trigger] status[i]).0,
    ) by {}
    lemma_lines_pseudo(status, fs);
    let reason = head::reason(head::code_of(d));
    lemma_reasons(head::code_of(d));
    let start = VERSION@ + seq![SP] + d + seq![SP] + reason;
    let h = head::response_head(all)->0;
    assert(h =~= start + crlf() + head::lines(fs) + crlf());
    assert(unbroken(start)) by {
        assert forall|i: int| 0 <= i < start.len() implies start[i] != CR by {
            if i < 8 {
                assert(start[i] == VERSION@[i]);
            } else if 9 <= i < 12 {
                assert(start[i] == d[i - 9]);
            } else if i >= 13 {
                assert(start[i] == reason[i - 13]);
            }
        }
    }
    lemma_head(start, fs, body);
    assert(start.take(8) =~= VERSION@);
    assert(start[8] == SP && start[9] == d[0] && start[10] == d[1] && start[11] == d[2]);
    assert(start[12] == SP);
    assert(start.subrange(9, 12) =~= d);
    assert(head::status_line(start) == Some(status));
    assert(status + fs == all);
}

/// Without spaces and line ends, and not empty: a part of a request line.
pub open spec fn is_word(s: Seq<u8>) -> bool {
    s.len() > 0 && unbroken(s) && forall|i: int| 0 <= i < s.len() ==> s[i] != SP
}

/// The fields of a request as they are given.
pub open spec fn request_given(
    method: Seq<u8>,
    path: Seq<u8>,
    authority: Seq<u8>,
    fs: Seq<Field>,
) -> Seq<Field> {
    seq![(METHOD@, method), (PATH@, path), (AUTHORITY@, authority)] + fs
}

/// The fields of a request as they are read: the authority is the host.
pub open spec fn request_read(
    method: Seq<u8>,
    path: Seq<u8>,
    authority: Seq<u8>,
    fs: Seq<Field>,
) -> Seq<Field> {
    seq![(METHOD@, method), (PATH@, path), (HOST@, authority)] + fs
}

/// The head of a request is read as what it was written for: method, path, the
/// authority as the host, and the headers, in order.
pub proof fn request_head_is_read_back(
    method: Seq<u8>,
    path: Seq<u8>,
    authority: Seq<u8>,
    fs: Seq<Field>,
    body: Seq<u8>,
)
    requires
        is_word(method),
        is_word(path),
        unbroken(authority),
        trimmed(authority),
        all_plain(fs),
    ensures
        match head::request_head(request_given(method, path, authority, fs)) {
            Some(h) => head::head_end(h + body, 0) == Some(h.len() - 4) && head::head_fields(
                true,
                (h + body).take(h.len() - 4),
            ) == Some(request_read(method, path, authority, fs)),
            None => false,
        },
{
    lemma_names();
    let pseudo = seq![(METHOD@, method), (PATH@, path), (AUTHORITY@, authority)];
    let all = pseudo + fs;
    lemma_request_values(method, path, authority, fs);
    assert forall|i: int| 0 <= i < pseudo.len() implies head::is_pseudo(
        (#[trigger] pseudo[i]).0,
    ) by {}
    lemma_lines_pseudo(pseudo, fs);
    let host = (HOST@, authority);
    let with_host = seq![host] + fs;
    assert(plain(host)) by {
        assert(plain((HOST@, Seq::<u8>::empty())));
    }
    assert(all_plain(with_host)) by {
        assert forall|i: int| 0 <= i < with_host.len() implies plain(#[trigger] with_host[i]) by {
            if i > 0 {
                assert(with_host[i] == fs[i - 1]);
            }
        }
    }
    lemma_lines_first(with_host);
    assert(with_host.skip(1) =~= fs);
    let start = method + seq![SP] + path + seq![SP] + VERSION@;
    let h = head::request_head(all)->0;
    assert(h =~= start + crlf() + head::lines(with_host) + crlf());
    lemma_request_line(method, path);
    lemma_head(start, with_host, body);
    let first = seq![(METHOD@, method), (PATH@, path)];
    assert(first + with_host =~= seq![(METHOD@, method), (PATH@, path), host] + fs);
}

proof fn lemma_request_values(
    method: Seq<u8>,
    path: Seq<u8>,
    authority: Seq<u8>,
    fs: Seq<Field>,
)
    ensures
        ({
            let all = seq![(METHOD@, method), (PATH@, path), (AUTHORITY@, authority)] + fs;
            &&& head::value_of(all, METHOD@) == Some(method)
            &&& head::value_of(all, PATH@) == Some(path)
            &&& head::value_of(all, AUTHORITY@) == Some(authority)
        }),
{
    lemma_names();
    let all = seq![(METHOD@, method), (PATH@, path), (AUTHORITY@, authority)] + fs;
    assert(all[0] == (METHOD@, method));
    assert(all[1] == (PATH@, path));
    assert(all[2] == (AUTHORITY@, authority));
    reveal_with_fuel(head::value_from, 4);
}

pub(crate) proof fn lemma_request_line(method: Seq<u8>, path: Seq<u8>)
    requires
        is_word(method),
        is_word(path),
    ensures
        ({
            let start = method + seq![SP] + path + seq![SP] + VERSION@;
            &&& unbroken(start)
            &&& head::request_line(start) == Some(seq![(METHOD@, method), (PATH@, path)])
        }),
{
    lemma_names();
    let start = method + seq![SP] + path + seq![SP] + VERSION@;
    let n = method.len() as int;
    let q = n + 1 + path.len();
    assert forall|i: int| 0 <= i < start.len() implies start[i] != CR by {
        if i < n {
            assert(start[i] == method[i]);
        } else if n < i < q {
            assert(start[i] == path[i - n - 1]);
        } else if i > q {
            assert(start[i] == VERSION@[i - q - 1]);
        }
    }
    let t = seq![SP] + path + seq![SP] + VERSION@;
    assert(start =~= method + t);
    lemma_index_of(method, SP, t, 0);
    let two = method + seq![SP] + path;
    let u = seq![SP] + VERSION@;
    assert(start =~= two + u);
    assert forall|k: int| n + 1 <= k < two.len() implies two[k] != SP by {
        assert(two[k] == path[k - n - 1]);
    }
    lemma_index_of(two, SP, u, n + 1);
    assert(start.skip(q + 1) =~= VERSION@);
    assert(start.take(n) =~= method);
    assert(start.subrange(n + 1, q) =~= path);
}

/// An open connection on which everything that came was read.
pub open spec fn at_rest(s: H1Sys) -> bool {
    &&& !s.c.closed
    &&& s.c.remaining == 0
    &&& s.c.headers is None
    &&& s.c.data.len() == 0
    &&& s.io.recv.len() == 0
    &&& s.c.id < u64::MAX
}

/// A message of which the buffers hold all: its head, and a body of the length
/// that the head announces.
pub open spec fn fits_whole(s: H1Sys, h: Seq<u8>, fs: Seq<Field>, body: Seq<u8>) -> bool {
    &&& head::body_length(fs) == Some(body.len() as u64)
    &&& h.len() + body.len() <= s.io_cap
    &&& h.len() <= s.headers_cap + 4
    &&& body.len() <= s.data_cap
    &&& body.len() <= u64::MAX
    &&& body.len() <= usize::MAX
}

/// The application is told of a message, and reads these headers and this body.
pub open spec fn message_received(t: H1, id: u64, fs: Seq<Field>, body: Seq<u8>) -> bool {
    let (c, got, r) = t.headers_read(id);
    let (_, bytes, end) = c.body_read(id, body.len() as int);
    &&& t.events.contains(Http1Event::Headers(id))
    &&& body.len() > 0 ==> t.events.contains(Http1Event::Data(id))
    &&& t.events.contains(Http1Event::Finished(id))
    &&& r == Ok::<(), Error>(())
    &&& got == fs
    &&& end == Ok::<(usize, bool), Error>((body.len() as usize, true))
    &&& bytes == body
}

/// A message whose head is read as `fs` is received as such.
pub(crate) proof fn lemma_message_taken(s: H1Sys, h: Seq<u8>, fs: Seq<Field>, body: Seq<u8>)
    requires
        at_rest(s),
        fits_whole(s, h, fs, body),
        h.len() >= 4,
        head::head_end(h + body, 0) == Some(h.len() - 4),
        head::head_fields(s.c.server, (h + body).take(h.len() - 4)) == Some(fs),
    ensures
        s.fed(h + body).1 == Ok::<(), Error>(()),
        message_received(s.fed(h + body).0.c, (s.c.id + 1) as u64, fs, body),
{
    let b = s.begun();
    let u = H1Sys { io: Wire { recv: b.io.recv + (h + body), ..b.io }, ..b };
    assert(u.io.recv =~= h + body);
    let p = h.len() - 4;
    let n = body.len() as u64;
    reveal(H1Sys::round);
    assert(u.round() == H1Round::Head(p, n));
    let v = u.head_taken(p, n);
    assert(v.io.recv =~= body);
    model::round_bounds(u);
    let id = (s.c.id + 1) as u64;
    let q = model::pushed(u.c.events, Http1Event::Headers(id));
    assert(q[q.len() - 1] == Http1Event::Headers(id));
    assert(body.take(body.len() as int) =~= body);
    let w = if n == 0 {
        let e = model::pushed(q, Http1Event::Finished(id));
        assert(e[e.len() - 2] == Http1Event::Headers(id));
        assert(e[e.len() - 1] == Http1Event::Finished(id));
        assert(body =~= Seq::<u8>::empty());
        v
    } else {
        assert(v.round() == H1Round::Body(n as int));
        model::round_bounds(v);
        let w = v.body_delivered(n as int);
        assert(w.c.data =~= body);
        let e = model::pushed(q, Http1Event::Data(id));
        assert(e[e.len() - 2] == Http1Event::Headers(id));
        assert(e[e.len() - 1] == Http1Event::Data(id));
        let f = model::pushed(e, Http1Event::Finished(id));
        assert(f[f.len() - 3] == Http1Event::Headers(id));
        assert(f[f.len() - 2] == Http1Event::Data(id));
        assert(f[f.len() - 1] == Http1Event::Finished(id));
        w
    };
    assert(w.io.recv.len() == 0);
    assert(w.round() == H1Round::Stop);
    assert(w.rounds() == (w, Ok::<(), Error>(())));
    assert(v.rounds() == (w, Ok::<(), Error>(())));
    assert(u.rounds() == (w, Ok::<(), Error>(())));
    assert(s.fed(h + body) == (w, Ok::<(), Error>(())));
}

/// A response that a server writes reaches the client: the client is told of it,
/// and reads its status, its headers and its body as they were given.
pub proof fn response_reaches_the_client(s: H1Sys, d: Seq<u8>, fs: Seq<Field>, body: Seq<u8>)
    requires
        !s.c.server,
        at_rest(s),
        is_status(d),
        all_plain(fs),
        head::response_head(response_fields(d, fs)) matches Some(h) ==> fits_whole(
            s,
            h,
            response_fields(d, fs),
            body,
        ),
    ensures
        ({
            let h = head::response_head(response_fields(d, fs))->0;
            let (t, r) = s.fed(h + body);
            &&& r == Ok::<(), Error>(())
            &&& message_received(t.c, (s.c.id + 1) as u64, response_fields(d, fs), body)
        }),
{
    let all = response_fields(d, fs);
    let h = head::response_head(all)->0;
    response_head_is_read_back(d, fs, body);
    head::head_end_bounds(h + body, 0);
    lemma_message_taken(s, h, all, body);
}

/// A request that a client writes reaches the server: the server is told of it,
/// and reads its method, path, host, headers and body as they were given.
pub proof fn request_reaches_the_server(
    s: H1Sys,
    method: Seq<u8>,
    path: Seq<u8>,
    authority: Seq<u8>,
    fs: Seq<Field>,
    body: Seq<u8>,
)
    requires
        s.c.server,
        at_rest(s),
        is_word(method),
        is_word(path),
        unbroken(authority),
        trimmed(authority),
        all_plain(fs),
        head::request_head(request_given(method, path, authority, fs)) matches Some(h)
            ==> fits_whole(s, h, request_read(method, path, authority, fs), body),
    ensures
        ({
            let h = head::request_head(request_given(method, path, authority, fs))->0;
            let (t, r) = s.fed(h + body);
            &&& r == Ok::<(), Error>(())
            &&& message_received(
                t.c,
                (s.c.id + 1) as u64,
                request_read(method, path, authority, fs),
                body,
            )
        }),
{
    let h = head::request_head(request_given(method, path, authority, fs))->0;
    request_head_is_read_back(method, path, authority, fs, body);
    head::head_end_bounds(h + body, 0);
    lemma_message_taken(s, h, request_read(method, path, authority, fs), body);
}

} // verus!
