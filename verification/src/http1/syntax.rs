//! How the text of HTTP/1.1 messages is read, whoever wrote it.

use vstd::prelude::*;

use super::head;
use super::laws;
use super::laws::{at_rest, fits_whole, message_received};
use super::model::H1Sys;
use crate::bytes::Field;
use crate::error::Error;

verus! {

// ---------------------------------------------------------------------------
// Lines
// ---------------------------------------------------------------------------

/// The end of a line.
pub open spec fn eol() -> Seq<u8> {
    seq![0x0du8, 0x0a]
}

/// Without carriage returns.
pub open spec fn one_line(s: Seq<u8>) -> bool {
    forall|i: int| 0 <= i < s.len() ==> s[i] != 0x0d
}

/// A first line and more, with line ends between them.
pub open spec fn text(first: Seq<u8>, ls: Seq<Seq<u8>>) -> Seq<u8>
    decreases ls.len(),
{
    if ls.len() == 0 {
        first
    } else {
        text(first, ls.drop_last()) + eol() + ls.last()
    }
}

/// Lines with something on each of them.
pub open spec fn lines_ok(ls: Seq<Seq<u8>>) -> bool {
    forall|i: int| 0 <= i < ls.len() ==> one_line(#[trigger] ls[i]) && ls[i].len() > 0
}

proof fn lemma_text_front(first: Seq<u8>, ls: Seq<Seq<u8>>)
    requires
        ls.len() > 0,
    ensures
        text(first, ls) == first + eol() + text(ls[0], ls.skip(1)),
    decreases ls.len(),
{
    if ls.len() == 1 {
        assert(ls.drop_last() =~= Seq::<Seq<u8>>::empty());
        assert(ls.skip(1) =~= Seq::<Seq<u8>>::empty());
        reveal_with_fuel(text, 2);
    } else {
        lemma_text_front(first, ls.drop_last());
        assert(ls.drop_last().skip(1) =~= ls.skip(1).drop_last());
        assert(ls.skip(1).last() == ls.last());
        let t = text(ls[0], ls.skip(1).drop_last());
        assert(first + eol() + t + eol() + ls.last() =~= first + eol() + (t + eol() + ls.last()));
    }
}

/// Nowhere in a text do two line ends follow each other.
proof fn lemma_no_gap(first: Seq<u8>, ls: Seq<Seq<u8>>)
    requires
        one_line(first),
        lines_ok(ls),
    ensures
        ({
            let t = text(first, ls);
            forall|i: int|
                0 <= i < t.len() && #[trigger] t[i] == 0x0d ==> i + 2 < t.len() && t[i + 2] != 0x0d
        }),
    decreases ls.len(),
{
    if ls.len() > 0 {
        let init = ls.drop_last();
        assert(lines_ok(init)) by {
            assert forall|i: int| 0 <= i < init.len() implies one_line(#[trigger] init[i])
                && init[i].len() > 0 by {
                assert(init[i] == ls[i]);
            }
        }
        lemma_no_gap(first, init);
        let a = text(first, init);
        let l = ls.last();
        let t = text(first, ls);
        assert(l == ls[ls.len() - 1]);
        assert(one_line(l) && l.len() > 0);
        let n = a.len() as int;
        assert forall|i: int| 0 <= i < t.len() && #[trigger] t[i] == 0x0d implies i + 2 < t.len()
            && t[i + 2] != 0x0d by {
            if i < n {
                assert(t[i] == a[i]);
                assert(t[i + 2] == a[i + 2]);
            } else if i == n {
                assert(t[i + 2] == l[0]);
            } else if i > n + 1 {
                assert(t[i] == l[i - n - 2]);
            }
        }
    }
}

proof fn lemma_end_found(t: Seq<u8>, rest: Seq<u8>, i: int)
    requires
        0 <= i <= t.len(),
        forall|j: int|
            0 <= j < t.len() && #[trigger] t[j] == 0x0d ==> j + 2 < t.len() && t[j + 2] != 0x0d,
    ensures
        head::head_end(t + eol() + eol() + rest, i) == Some(t.len() as int),
    decreases t.len() - i,
{
    let s = t + eol() + eol() + rest;
    let n = t.len() as int;
    if i == n {
        assert(s[n] == 0x0d && s[n + 1] == 0x0a && s[n + 2] == 0x0d && s[n + 3] == 0x0a);
    } else {
        assert(s[i] == t[i]);
        if t[i] == 0x0d {
            assert(s[i + 2] == t[i + 2]);
        }
        lemma_end_found(t, rest, i + 1);
    }
}

proof fn lemma_line_found(l: Seq<u8>, t: Seq<u8>, i: int)
    requires
        one_line(l),
        0 <= i <= l.len(),
    ensures
        head::line_end(l + eol() + t, i) == Some(l.len() as int),
    decreases l.len() - i,
{
    let s = l + eol() + t;
    if i == l.len() {
        assert(s[i] == 0x0d && s[i + 1] == 0x0a);
    } else {
        assert(s[i] == l[i]);
        lemma_line_found(l, t, i + 1);
    }
}

proof fn lemma_last_line(l: Seq<u8>, i: int)
    requires
        one_line(l),
        0 <= i,
    ensures
        head::line_end(l, i) is None,
    decreases l.len() - i,
{
    if i + 1 < l.len() {
        assert(l[i] != 0x0d);
        lemma_last_line(l, i + 1);
    }
}

/// A text is read line by line.
proof fn lemma_parted(first: Seq<u8>, ls: Seq<Seq<u8>>)
    requires
        one_line(first),
    ensures
        head::first_line(text(first, ls)) == first,
        head::other_lines(text(first, ls)) == if ls.len() == 0 {
            Seq::empty()
        } else {
            text(ls[0], ls.skip(1))
        },
{
    if ls.len() == 0 {
        lemma_last_line(first, 0);
    } else {
        lemma_text_front(first, ls);
        let t = text(ls[0], ls.skip(1));
        lemma_line_found(first, t, 0);
        assert((first + eol() + t).take(first.len() as int) =~= first);
        assert((first + eol() + t).skip(first.len() as int + 2) =~= t);
    }
}

// ---------------------------------------------------------------------------
// Headers
// ---------------------------------------------------------------------------

/// A header as it may be written: blanks may stand around its value.
pub struct Header {
    pub name: Seq<u8>,
    pub before: Seq<u8>,
    pub value: Seq<u8>,
    pub after: Seq<u8>,
}

/// Spaces and tabs.
pub open spec fn blanks(s: Seq<u8>) -> bool {
    forall|i: int| 0 <= i < s.len() ==> s[i] == 0x20 || s[i] == 0x09
}

/// A header that can stand on a line: a name without a colon, and a value without
/// blanks at its ends.
pub open spec fn header_ok(h: Header) -> bool {
    &&& h.name.len() > 0
    &&& one_line(h.name)
    &&& forall|i: int| 0 <= i < h.name.len() ==> h.name[i] != 0x3a
    &&& blanks(h.before)
    &&& blanks(h.after)
    &&& one_line(h.value)
    &&& h.value.len() > 0 ==> h.value[0] != 0x20 && h.value[0] != 0x09 && h.value.last() != 0x20
        && h.value.last() != 0x09
}

pub open spec fn headers_ok(hs: Seq<Header>) -> bool {
    forall|i: int| 0 <= i < hs.len() ==> header_ok(#[trigger] hs[i])
}

/// The line of a header.
pub open spec fn header_text(h: Header) -> Seq<u8> {
    h.name + seq![0x3au8] + h.before + h.value + h.after
}

pub open spec fn header_texts(hs: Seq<Header>) -> Seq<Seq<u8>> {
    Seq::new(hs.len(), |i: int| header_text(hs[i]))
}

/// The letters A to Z as a to z, other bytes as they are.
pub open spec fn small(s: Seq<u8>) -> Seq<u8> {
    Seq::new(
        s.len(),
        |i: int|
            if 0x41 <= s[i] <= 0x5a {
                (s[i] + 0x20) as u8
            } else {
                s[i]
            },
    )
}

/// The field that a header stands for: its name in small letters, and its value
/// without the blanks around it.
pub open spec fn header_field(h: Header) -> Field {
    (small(h.name), h.value)
}

pub open spec fn header_fields(hs: Seq<Header>) -> Seq<Field> {
    Seq::new(hs.len(), |i: int| header_field(hs[i]))
}

proof fn lemma_trim_start(b: Seq<u8>, x: Seq<u8>)
    requires
        blanks(b),
    ensures
        head::trim_start(b + x) == head::trim_start(x),
    decreases b.len(),
{
    if b.len() == 0 {
        assert(b + x =~= x);
    } else {
        assert((b + x)[0] == b[0]);
        assert((b + x).skip(1) =~= b.skip(1) + x);
        assert(blanks(b.skip(1)));
        lemma_trim_start(b.skip(1), x);
    }
}

proof fn lemma_trim_end(x: Seq<u8>, b: Seq<u8>)
    requires
        blanks(b),
    ensures
        head::trim_end(x + b) == head::trim_end(x),
    decreases b.len(),
{
    if b.len() == 0 {
        assert(x + b =~= x);
    } else {
        assert((x + b).last() == b.last());
        assert((x + b).drop_last() =~= x + b.drop_last());
        assert(blanks(b.drop_last()));
        lemma_trim_end(x, b.drop_last());
    }
}

proof fn lemma_colon(name: Seq<u8>, rest: Seq<u8>, i: int)
    requires
        forall|j: int| 0 <= j < name.len() ==> name[j] != 0x3a,
        0 <= i <= name.len(),
    ensures
        head::index_of(name + seq![0x3au8] + rest, 0x3a, i) == Some(name.len() as int),
    decreases name.len() - i,
{
    let s = name + seq![0x3au8] + rest;
    if i == name.len() {
        assert(s[i] == 0x3a);
    } else {
        assert(s[i] == name[i]);
        lemma_colon(name, rest, i + 1);
    }
}

/// A header line is read as its field, in whatever case its name is written and
/// whatever blanks stand around its value.
pub proof fn header_lines_are_read(h: Header)
    requires
        header_ok(h),
    ensures
        head::header_line(header_text(h)) == Some(header_field(h)),
{
    let rest = h.before + h.value + h.after;
    let line = header_text(h);
    let n = h.name.len() as int;
    assert(line =~= h.name + seq![0x3au8] + rest);
    lemma_colon(h.name, rest, 0);
    assert(line.take(n) =~= h.name);
    assert(line.skip(n + 1) =~= rest);
    assert(head::lower(h.name) =~= small(h.name));
    assert(rest =~= h.before + (h.value + h.after));
    lemma_trim_start(h.before, h.value + h.after);
    if h.value.len() > 0 {
        assert((h.value + h.after)[0] == h.value[0]);
        lemma_trim_end(h.value, h.after);
    } else {
        assert(h.value + h.after =~= h.after + Seq::<u8>::empty());
        lemma_trim_start(h.after, Seq::empty());
        assert(h.value =~= Seq::<u8>::empty());
    }
}

proof fn lemma_header_line_ok(h: Header)
    requires
        header_ok(h),
    ensures
        one_line(header_text(h)),
        header_text(h).len() > 0,
{
    let t = header_text(h);
    let a = h.name.len() as int;
    let b = a + 1 + h.before.len();
    let c = b + h.value.len();
    assert forall|i: int| 0 <= i < t.len() implies t[i] != 0x0d by {
        if i < a {
            assert(t[i] == h.name[i]);
        } else if i == a {
        } else if i < b {
            assert(t[i] == h.before[i - a - 1]);
        } else if i < c {
            assert(t[i] == h.value[i - b]);
        } else {
            assert(t[i] == h.after[i - c]);
        }
    }
}

proof fn lemma_headers_read(hs: Seq<Header>, acc: Seq<Field>)
    requires
        headers_ok(hs),
        hs.len() > 0,
    ensures
        head::header_lines(text(header_texts(hs)[0], header_texts(hs).skip(1)), acc) == Some(
            acc + header_fields(hs),
        ),
    decreases hs.len(),
{
    let ls = header_texts(hs);
    let rest = hs.skip(1);
    let t = text(ls[0], ls.skip(1));
    lemma_header_line_ok(hs[0]);
    lemma_parted(ls[0], ls.skip(1));
    header_lines_are_read(hs[0]);
    head::line_end_bounds(t, 0);
    let f = header_field(hs[0]);
    assert(t.len() > 0) by {
        assert(head::first_line(t).len() > 0);
    }
    assert(ls.skip(1) =~= header_texts(rest));
    if rest.len() == 0 {
        assert(acc.push(f) =~= acc + header_fields(hs));
        assert(head::header_lines(Seq::empty(), acc.push(f)) == Some(acc.push(f)));
    } else {
        assert(headers_ok(rest)) by {
            assert forall|i: int| 0 <= i < rest.len() implies header_ok(#[trigger] rest[i]) by {
                assert(rest[i] == hs[i + 1]);
            }
        }
        lemma_headers_read(rest, acc.push(f));
        assert(acc.push(f) + header_fields(rest) =~= acc + header_fields(hs));
    }
}

/// A message head whose first line is read as these fields.
proof fn lemma_head_read(request: bool, first: Seq<u8>, fs: Seq<Field>, hs: Seq<Header>, body: Seq<u8>)
    requires
        one_line(first),
        headers_ok(hs),
        (if request {
            head::request_line(first)
        } else {
            head::status_line(first)
        }) == Some(fs),
    ensures
        ({
            let t = text(first, header_texts(hs));
            let all = t + eol() + eol() + body;
            &&& head::head_end(all, 0) == Some(t.len() as int)
            &&& all.take(t.len() as int) == t
            &&& head::head_fields(request, t) == Some(fs + header_fields(hs))
        }),
{
    let ls = header_texts(hs);
    assert(lines_ok(ls)) by {
        assert forall|i: int| 0 <= i < ls.len() implies one_line(#[trigger] ls[i]) && ls[i].len()
            > 0 by {
            lemma_header_line_ok(hs[i]);
        }
    }
    let t = text(first, ls);
    lemma_no_gap(first, ls);
    lemma_end_found(t, body, 0);
    assert((t + eol() + eol() + body).take(t.len() as int) =~= t);
    lemma_parted(first, ls);
    if hs.len() == 0 {
        assert(fs + header_fields(hs) =~= fs);
    } else {
        lemma_headers_read(hs, fs);
    }
}

// ---------------------------------------------------------------------------
// Messages
// ---------------------------------------------------------------------------

/// `HTTP/1.1`
pub open spec fn version() -> Seq<u8> {
    seq![0x48u8, 0x54, 0x54, 0x50, 0x2f, 0x31, 0x2e, 0x31]
}

/// Without spaces, and not empty.
pub open spec fn word(s: Seq<u8>) -> bool {
    s.len() > 0 && one_line(s) && forall|i: int| 0 <= i < s.len() ==> s[i] != 0x20
}

/// A request as it is written: request line, headers, an empty line, body.
pub open spec fn request_text(method: Seq<u8>, path: Seq<u8>, hs: Seq<Header>, body: Seq<u8>) -> Seq<
    u8,
> {
    text(method + seq![0x20u8] + path + seq![0x20u8] + version(), header_texts(hs)) + eol() + eol()
        + body
}

/// The fields of a request: `:method`, `:path`, then its headers.
pub open spec fn request_fields(method: Seq<u8>, path: Seq<u8>, hs: Seq<Header>) -> Seq<Field> {
    seq![
        (seq![0x3au8, 0x6d, 0x65, 0x74, 0x68, 0x6f, 0x64], method),
        (seq![0x3au8, 0x70, 0x61, 0x74, 0x68], path),
    ] + header_fields(hs)
}

/// A request is read as it is written: the application is told of it, and reads its
/// method, its path, its headers and its body. What is left to read is what follows it.
pub proof fn requests_are_read(
    s: H1Sys,
    method: Seq<u8>,
    path: Seq<u8>,
    hs: Seq<Header>,
    body: Seq<u8>,
)
    requires
        s.c.server,
        at_rest(s),
        word(method),
        word(path),
        headers_ok(hs),
        fits_whole(
            s,
            request_text(method, path, hs, Seq::empty()),
            request_fields(method, path, hs),
            body,
        ),
    ensures
        ({
            let (t, r) = s.fed(request_text(method, path, hs, body));
            &&& r == Ok::<(), Error>(())
            &&& message_received(
                t.c,
                (s.c.id + 1) as u64,
                request_fields(method, path, hs),
                body,
            )
        }),
{
    let first = method + seq![0x20u8] + path + seq![0x20u8] + version();
    let names = seq![
        (seq![0x3au8, 0x6d, 0x65, 0x74, 0x68, 0x6f, 0x64], method),
        (seq![0x3au8, 0x70, 0x61, 0x74, 0x68], path),
    ];
    assert(crate::http::headers::METHOD@ =~= seq![0x3au8, 0x6d, 0x65, 0x74, 0x68, 0x6f, 0x64]);
    assert(crate::http::headers::PATH@ =~= seq![0x3au8, 0x70, 0x61, 0x74, 0x68]);
    assert(head::VERSION@ =~= version());
    assert(laws::is_word(method) && laws::is_word(path));
    laws::lemma_request_line(method, path);
    assert(one_line(first));
    lemma_head_read(true, first, names, hs, body);
    let t = text(first, header_texts(hs));
    let h = t + eol() + eol();
    assert(request_text(method, path, hs, Seq::empty()) =~= h);
    assert(request_text(method, path, hs, body) == h + body);
    assert((h + body).take(h.len() - 4) =~= t);
    laws::lemma_message_taken(s, h, request_fields(method, path, hs), body);
}

/// A response as it is written: status line, headers, an empty line, body.
pub open spec fn response_text(d: Seq<u8>, reason: Seq<u8>, hs: Seq<Header>, body: Seq<u8>) -> Seq<
    u8,
> {
    text(version() + seq![0x20u8] + d + seq![0x20u8] + reason, header_texts(hs)) + eol() + eol()
        + body
}

/// The fields of a response: `:status`, then its headers.
pub open spec fn response_fields(d: Seq<u8>, hs: Seq<Header>) -> Seq<Field> {
    seq![(seq![0x3au8, 0x73, 0x74, 0x61, 0x74, 0x75, 0x73], d)] + header_fields(hs)
}

/// A response is read as it is written, whatever its reason phrase: the application is
/// told of it, and reads its status, its headers and its body.
pub proof fn responses_are_read(
    s: H1Sys,
    d: Seq<u8>,
    reason: Seq<u8>,
    hs: Seq<Header>,
    body: Seq<u8>,
)
    requires
        !s.c.server,
        at_rest(s),
        laws::is_status(d),
        one_line(reason),
        headers_ok(hs),
        fits_whole(s, response_text(d, reason, hs, Seq::empty()), response_fields(d, hs), body),
    ensures
        ({
            let (t, r) = s.fed(response_text(d, reason, hs, body));
            &&& r == Ok::<(), Error>(())
            &&& message_received(t.c, (s.c.id + 1) as u64, response_fields(d, hs), body)
        }),
{
    let first = version() + seq![0x20u8] + d + seq![0x20u8] + reason;
    let names = seq![(seq![0x3au8, 0x73, 0x74, 0x61, 0x74, 0x75, 0x73], d)];
    assert(crate::http::headers::STATUS@ =~= seq![0x3au8, 0x73, 0x74, 0x61, 0x74, 0x75, 0x73]);
    assert(head::VERSION@ =~= version());
    assert(one_line(first)) by {
        assert forall|i: int| 0 <= i < first.len() implies first[i] != 0x0d by {
            if i < 8 {
                assert(first[i] == version()[i]);
            } else if 9 <= i < 12 {
                assert(first[i] == d[i - 9]);
            } else if i >= 13 {
                assert(first[i] == reason[i - 13]);
            }
        }
    }
    assert(first.take(8) =~= version());
    assert(first[8] == 0x20 && first[9] == d[0] && first[10] == d[1] && first[11] == d[2]);
    assert(first[12] == 0x20);
    assert(first.subrange(9, 12) =~= d);
    lemma_head_read(false, first, names, hs, body);
    let t = text(first, header_texts(hs));
    let h = t + eol() + eol();
    assert(response_text(d, reason, hs, Seq::empty()) =~= h);
    assert(response_text(d, reason, hs, body) == h + body);
    assert((h + body).take(h.len() - 4) =~= t);
    laws::lemma_message_taken(s, h, response_fields(d, hs), body);
}

// ---------------------------------------------------------------------------
// The length of a body
// ---------------------------------------------------------------------------

/// A number in decimal digits.
pub open spec fn numeral(n: nat) -> Seq<u8>
    decreases n,
{
    if n < 10 {
        seq![(0x30 + n) as u8]
    } else {
        numeral(n / 10).push((0x30 + n % 10) as u8)
    }
}

proof fn lemma_numeral(n: nat, k: nat)
    requires
        n < vstd::arithmetic::power::pow(10, k),
        k >= 1,
    ensures
        head::decimal(numeral(n)) == n,
        0 < numeral(n).len() <= k,
        forall|i: int| 0 <= i < numeral(n).len() ==> 0x30 <= #[trigger] numeral(n)[i] <= 0x39,
    decreases n,
{
    reveal(vstd::arithmetic::power::pow);
    if n < 10 {
        assert(numeral(n).drop_last() =~= Seq::<u8>::empty());
        reveal_with_fuel(head::decimal, 2);
    } else {
        reveal_with_fuel(vstd::arithmetic::power::pow, 2);
        assert(k > 1);
        assert(vstd::arithmetic::power::pow(10, k) == 10 * vstd::arithmetic::power::pow(
            10,
            (k - 1) as nat,
        ));
        lemma_numeral(n / 10, (k - 1) as nat);
        assert(numeral(n).drop_last() =~= numeral(n / 10));
    }
}

/// `content-length`
pub open spec fn content_length() -> Seq<u8> {
    seq![
        0x63u8, 0x6f, 0x6e, 0x74, 0x65, 0x6e, 0x74, 0x2d, 0x6c, 0x65, 0x6e, 0x67, 0x74, 0x68,
    ]
}

/// `transfer-encoding`
pub open spec fn transfer_encoding() -> Seq<u8> {
    seq![
        0x74u8, 0x72, 0x61, 0x6e, 0x73, 0x66, 0x65, 0x72, 0x2d, 0x65, 0x6e, 0x63, 0x6f, 0x64,
        0x69, 0x6e, 0x67,
    ]
}

/// There is a field of this name.
pub open spec fn has_field(fs: Seq<Field>, name: Seq<u8>) -> bool {
    exists|i: int| 0 <= i < fs.len() && (#[trigger] fs[i]).0 == name
}

proof fn lemma_value(fs: Seq<Field>, name: Seq<u8>, i: int)
    requires
        0 <= i,
    ensures
        match head::value_from(fs, name, i) {
            Some(v) => exists|j: int|
                i <= j < fs.len() && #[trigger] fs[j] == (name, v) && forall|k: int|
                    i <= k < j ==> (#[trigger] fs[k]).0 != name,
            None => forall|j: int| i <= j < fs.len() ==> (#[trigger] fs[j]).0 != name,
        },
    decreases fs.len() - i,
{
    if i < fs.len() {
        lemma_value(fs, name, i + 1);
        if fs[i].0 == name {
            assert(fs[i] == (name, fs[i].1));
        } else {
            match head::value_from(fs, name, i + 1) {
                Some(v) => {
                    let j = choose|j: int|
                        i + 1 <= j < fs.len() && #[trigger] fs[j] == (name, v) && forall|k: int|
                            i + 1 <= k < j ==> (#[trigger] fs[k]).0 != name;
                    assert(fs[j] == (name, v));
                },
                None => {},
            }
        }
    }
}

/// A body is as long as the first `content-length` says, in decimal digits. Without one
/// there is no body. One that is no number is refused, and so is a transfer coding.
pub proof fn bodies_are_as_long_as_announced(fs: Seq<Field>, i: int, n: nat)
    requires
        n < 1_000_000_000_000_000_000,
    ensures
        has_field(fs, transfer_encoding()) ==> head::body_length(fs) is None,
        !has_field(fs, transfer_encoding()) && !has_field(fs, content_length())
            ==> head::body_length(fs) == Some(0u64),
        !has_field(fs, transfer_encoding()) && 0 <= i < fs.len() && fs[i] == (
            content_length(),
            numeral(n),
        ) && (forall|j: int| 0 <= j < i ==> (#[trigger] fs[j]).0 != content_length())
            ==> head::body_length(fs) == Some(n as u64),
        !has_field(fs, transfer_encoding()) && 0 <= i < fs.len() && fs[i].0 == content_length() && (
        forall|j: int| 0 <= j < i ==> (#[trigger] fs[j]).0 != content_length()) && (fs[i].1.len()
            == 0 || exists|k: int|
            0 <= k < fs[i].1.len() && !(0x30 <= #[trigger] fs[i].1[k] <= 0x39))
            ==> head::body_length(fs) is None,
{
    assert(head::CONTENT_LENGTH@ =~= content_length());
    assert(head::TRANSFER_ENCODING@ =~= transfer_encoding());
    lemma_value(fs, transfer_encoding(), 0);
    lemma_value(fs, content_length(), 0);
    reveal_with_fuel(vstd::arithmetic::power::pow, 20);
    assert(vstd::arithmetic::power::pow(10, 18) == 1_000_000_000_000_000_000);
    lemma_numeral(n, 18);
    if 0 <= i < fs.len() && fs[i].0 == content_length() && (forall|j: int|
        0 <= j < i ==> (#[trigger] fs[j]).0 != content_length()) {
        let v = head::value_of(fs, content_length())->0;
        let j = choose|j: int|
            0 <= j < fs.len() && #[trigger] fs[j] == (content_length(), v) && forall|k: int|
                0 <= k < j ==> (#[trigger] fs[k]).0 != content_length();
        assert(i == j);
        assert(v == fs[i].1);
        if exists|k: int| 0 <= k < fs[i].1.len() && !(0x30 <= #[trigger] fs[i].1[k] <= 0x39) {
            let k = choose|k: int| 0 <= k < fs[i].1.len() && !(0x30 <= #[trigger] fs[i].1[k] <= 0x39);
            assert(!head::is_digit(v[k]));
        }
    }
}

// ---------------------------------------------------------------------------
// What is written
// ---------------------------------------------------------------------------

/// The lines of these headers: name, colon, space, value.
pub open spec fn written(fs: Seq<Field>) -> Seq<Seq<u8>> {
    Seq::new(fs.len(), |i: int| fs[i].0 + seq![0x3au8, 0x20] + fs[i].1)
}

/// No name begins with a colon.
pub open spec fn plain_names(fs: Seq<Field>) -> bool {
    forall|i: int|
        0 <= i < fs.len() ==> (#[trigger] fs[i]).0.len() > 0 && fs[i].0[0] != 0x3a
}

proof fn lemma_lines_plain(ps: Seq<Field>, fs: Seq<Field>, first: Seq<u8>)
    requires
        forall|i: int| 0 <= i < ps.len() ==> head::is_pseudo((#[trigger] ps[i]).0),
        plain_names(fs),
    ensures
        first + eol() + head::lines(ps + fs) == text(first, written(fs)) + eol(),
    decreases fs.len(), ps.len(),
{
    if fs.len() == 0 {
        assert(ps + fs =~= ps);
        if ps.len() > 0 {
            let init = ps.drop_last();
            assert forall|i: int| 0 <= i < init.len() implies head::is_pseudo(
                (#[trigger] init[i]).0,
            ) by {
                assert(init[i] == ps[i]);
            }
            assert(head::is_pseudo(ps[ps.len() - 1].0));
            lemma_lines_plain(init, fs, first);
            assert(init + fs =~= init);
        } else {
            assert(first + eol() + Seq::<u8>::empty() =~= first + eol());
        }
        assert(written(fs).len() == 0);
    } else {
        let init = fs.drop_last();
        let all = ps + fs;
        assert(all.drop_last() =~= ps + init);
        assert(all.last() == fs.last());
        assert(plain_names(init)) by {
            assert forall|i: int| 0 <= i < init.len() implies (#[trigger] init[i]).0.len() > 0
                && init[i].0[0] != 0x3a by {
                assert(init[i] == fs[i]);
            }
        }
        lemma_lines_plain(ps, init, first);
        assert(fs[fs.len() - 1].0[0] != 0x3a);
        let l = fs.last();
        let ls = written(fs);
        assert(ls.drop_last() =~= written(init));
        assert(ls.last() == l.0 + seq![0x3au8, 0x20] + l.1);
        let w = text(first, written(init));
        assert(text(first, ls) == w + eol() + ls.last());
        assert(head::lines(all) =~= head::lines(ps + init) + (ls.last() + eol()));
        assert(first + eol() + head::lines(all) =~= (first + eol() + head::lines(ps + init)) + (
        ls.last() + eol()));
        assert((w + eol()) + (ls.last() + eol()) =~= w + eol() + ls.last() + eol());
    }
}

/// A response head is written as a status line, a line for each header, in order, and an
/// empty line.
pub proof fn responses_are_written(d: Seq<u8>, fs: Seq<Field>)
    requires
        laws::is_status(d),
        plain_names(fs),
    ensures
        head::response_head(
            seq![(seq![0x3au8, 0x73, 0x74, 0x61, 0x74, 0x75, 0x73], d)] + fs,
        ) == Some(
            text(
                version() + seq![0x20u8] + d + seq![0x20u8] + head::reason(
                    ((d[0] - 48) * 100 + (d[1] - 48) * 10 + (d[2] - 48)) as u16,
                ),
                written(fs),
            ) + eol() + eol(),
        ),
{
    let name = seq![0x3au8, 0x73, 0x74, 0x61, 0x74, 0x75, 0x73];
    assert(crate::http::headers::STATUS@ =~= name);
    assert(head::VERSION@ =~= version());
    let ps = seq![(name, d)];
    assert(name[0] == 0x3a);
    assert((ps + fs)[0] == (name, d));
    let first = version() + seq![0x20u8] + d + seq![0x20u8] + head::reason(head::code_of(d));
    lemma_lines_plain(ps, fs, first);
}

/// A request head is written as a request line, a line with the host, a line for each
/// header, in order, and an empty line.
pub proof fn requests_are_written(
    method: Seq<u8>,
    path: Seq<u8>,
    authority: Seq<u8>,
    fs: Seq<Field>,
)
    requires
        plain_names(fs),
    ensures
        head::request_head(
            seq![
                (seq![0x3au8, 0x6d, 0x65, 0x74, 0x68, 0x6f, 0x64], method),
                (seq![0x3au8, 0x70, 0x61, 0x74, 0x68], path),
                (
                    seq![0x3au8, 0x61, 0x75, 0x74, 0x68, 0x6f, 0x72, 0x69, 0x74, 0x79],
                    authority,
                ),
            ] + fs,
        ) == Some(
            text(
                method + seq![0x20u8] + path + seq![0x20u8] + version() + eol() + seq![
                    0x68u8, 0x6f, 0x73, 0x74, 0x3a, 0x20
                ] + authority,
                written(fs),
            ) + eol() + eol(),
        ),
{
    let nm = seq![0x3au8, 0x6d, 0x65, 0x74, 0x68, 0x6f, 0x64];
    let np = seq![0x3au8, 0x70, 0x61, 0x74, 0x68];
    let na = seq![0x3au8, 0x61, 0x75, 0x74, 0x68, 0x6f, 0x72, 0x69, 0x74, 0x79];
    assert(crate::http::headers::METHOD@ =~= nm);
    assert(crate::http::headers::PATH@ =~= np);
    assert(crate::http::headers::AUTHORITY@ =~= na);
    assert(head::VERSION@ =~= version());
    let hp = seq![0x68u8, 0x6f, 0x73, 0x74, 0x3a, 0x20];
    assert(head::HOST_PREFIX@ =~= hp);
    assert(nm.len() == 7 && np.len() == 5 && na.len() == 10);
    assert(nm[0] == 0x3a && np[0] == 0x3a && na[0] == 0x3a);
    let ps = seq![(nm, method), (np, path), (na, authority)];
    let all = ps + fs;
    assert(all[0] == (nm, method) && all[1] == (np, path) && all[2] == (na, authority));
    reveal_with_fuel(head::value_from, 4);
    let start = method + seq![0x20u8] + path + seq![0x20u8] + version() + eol();
    let first = start + hp + authority;
    lemma_lines_plain(ps, fs, first);
    assert(start + (hp + authority + eol()) + head::lines(all) + eol() =~= first + eol()
        + head::lines(all) + eol());
}

} // verus!
