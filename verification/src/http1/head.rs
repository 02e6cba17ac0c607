//! HTTP/1.1 message heads (RFC 9112).

use vstd::prelude::*;

use crate::bytes;
use crate::bytes::{Field, HeaderField};
use crate::http::headers::{AUTHORITY, METHOD, PATH, STATUS};

verus! {

pub const CR: u8 = 0x0d;
pub const LF: u8 = 0x0a;
pub const SP: u8 = 0x20;
pub const HTAB: u8 = 0x09;
pub const COLON: u8 = 0x3a;

/// `HTTP/1.1`
pub const VERSION: [u8; 8] = [0x48, 0x54, 0x54, 0x50, 0x2f, 0x31, 0x2e, 0x31];

/// `content-length`
pub const CONTENT_LENGTH: [u8; 14] = [
    0x63, 0x6f, 0x6e, 0x74, 0x65, 0x6e, 0x74, 0x2d, 0x6c, 0x65, 0x6e, 0x67, 0x74, 0x68,
];

/// `transfer-encoding`
pub const TRANSFER_ENCODING: [u8; 17] = [
    0x74, 0x72, 0x61, 0x6e, 0x73, 0x66, 0x65, 0x72, 0x2d, 0x65, 0x6e, 0x63, 0x6f, 0x64,
    0x69, 0x6e, 0x67,
];

/// `host: `
pub const HOST_PREFIX: [u8; 6] = [0x68, 0x6f, 0x73, 0x74, 0x3a, 0x20];

/// `Continue`
pub const REASON_100: [u8; 8] = [0x43, 0x6f, 0x6e, 0x74, 0x69, 0x6e, 0x75, 0x65];

/// `OK`
pub const REASON_200: [u8; 2] = [0x4f, 0x4b];

/// `Created`
pub const REASON_201: [u8; 7] = [0x43, 0x72, 0x65, 0x61, 0x74, 0x65, 0x64];

/// `Accepted`
pub const REASON_202: [u8; 8] = [0x41, 0x63, 0x63, 0x65, 0x70, 0x74, 0x65, 0x64];

/// `No Content`
pub const REASON_204: [u8; 10] = [0x4e, 0x6f, 0x20, 0x43, 0x6f, 0x6e, 0x74, 0x65, 0x6e, 0x74];

/// `Partial Content`
pub const REASON_206: [u8; 15] = [
    0x50, 0x61, 0x72, 0x74, 0x69, 0x61, 0x6c, 0x20, 0x43, 0x6f, 0x6e, 0x74, 0x65, 0x6e,
    0x74,
];

/// `Moved Permanently`
pub const REASON_301: [u8; 17] = [
    0x4d, 0x6f, 0x76, 0x65, 0x64, 0x20, 0x50, 0x65, 0x72, 0x6d, 0x61, 0x6e, 0x65, 0x6e,
    0x74, 0x6c, 0x79,
];

/// `Found`
pub const REASON_302: [u8; 5] = [0x46, 0x6f, 0x75, 0x6e, 0x64];

/// `See Other`
pub const REASON_303: [u8; 9] = [0x53, 0x65, 0x65, 0x20, 0x4f, 0x74, 0x68, 0x65, 0x72];

/// `Not Modified`
pub const REASON_304: [u8; 12] = [0x4e, 0x6f, 0x74, 0x20, 0x4d, 0x6f, 0x64, 0x69, 0x66, 0x69, 0x65, 0x64];

/// `Temporary Redirect`
pub const REASON_307: [u8; 18] = [
    0x54, 0x65, 0x6d, 0x70, 0x6f, 0x72, 0x61, 0x72, 0x79, 0x20, 0x52, 0x65, 0x64, 0x69,
    0x72, 0x65, 0x63, 0x74,
];

/// `Bad Request`
pub const REASON_400: [u8; 11] = [0x42, 0x61, 0x64, 0x20, 0x52, 0x65, 0x71, 0x75, 0x65, 0x73, 0x74];

/// `Unauthorized`
pub const REASON_401: [u8; 12] = [0x55, 0x6e, 0x61, 0x75, 0x74, 0x68, 0x6f, 0x72, 0x69, 0x7a, 0x65, 0x64];

/// `Forbidden`
pub const REASON_403: [u8; 9] = [0x46, 0x6f, 0x72, 0x62, 0x69, 0x64, 0x64, 0x65, 0x6e];

/// `Not Found`
pub const REASON_404: [u8; 9] = [0x4e, 0x6f, 0x74, 0x20, 0x46, 0x6f, 0x75, 0x6e, 0x64];

/// `Method Not Allowed`
pub const REASON_405: [u8; 18] = [
    0x4d, 0x65, 0x74, 0x68, 0x6f, 0x64, 0x20, 0x4e, 0x6f, 0x74, 0x20, 0x41, 0x6c, 0x6c,
    0x6f, 0x77, 0x65, 0x64,
];

/// `Request Timeout`
pub const REASON_408: [u8; 15] = [
    0x52, 0x65, 0x71, 0x75, 0x65, 0x73, 0x74, 0x20, 0x54, 0x69, 0x6d, 0x65, 0x6f, 0x75,
    0x74,
];

/// `Conflict`
pub const REASON_409: [u8; 8] = [0x43, 0x6f, 0x6e, 0x66, 0x6c, 0x69, 0x63, 0x74];

/// `Content Too Large`
pub const REASON_413: [u8; 17] = [
    0x43, 0x6f, 0x6e, 0x74, 0x65, 0x6e, 0x74, 0x20, 0x54, 0x6f, 0x6f, 0x20, 0x4c, 0x61,
    0x72, 0x67, 0x65,
];

/// `Too Many Requests`
pub const REASON_429: [u8; 17] = [
    0x54, 0x6f, 0x6f, 0x20, 0x4d, 0x61, 0x6e, 0x79, 0x20, 0x52, 0x65, 0x71, 0x75, 0x65,
    0x73, 0x74, 0x73,
];

/// `Internal Server Error`
pub const REASON_500: [u8; 21] = [
    0x49, 0x6e, 0x74, 0x65, 0x72, 0x6e, 0x61, 0x6c, 0x20, 0x53, 0x65, 0x72, 0x76, 0x65,
    0x72, 0x20, 0x45, 0x72, 0x72, 0x6f, 0x72,
];

/// `Not Implemented`
pub const REASON_501: [u8; 15] = [
    0x4e, 0x6f, 0x74, 0x20, 0x49, 0x6d, 0x70, 0x6c, 0x65, 0x6d, 0x65, 0x6e, 0x74, 0x65,
    0x64,
];

/// `Service Unavailable`
pub const REASON_503: [u8; 19] = [
    0x53, 0x65, 0x72, 0x76, 0x69, 0x63, 0x65, 0x20, 0x55, 0x6e, 0x61, 0x76, 0x61, 0x69,
    0x6c, 0x61, 0x62, 0x6c, 0x65,
];

/// The reason phrase of a status code; empty for one without a usual phrase.
pub open spec fn reason(code: u16) -> Seq<u8> {
    match code {
        100 => REASON_100@,
        200 => REASON_200@,
        201 => REASON_201@,
        202 => REASON_202@,
        204 => REASON_204@,
        206 => REASON_206@,
        301 => REASON_301@,
        302 => REASON_302@,
        303 => REASON_303@,
        304 => REASON_304@,
        307 => REASON_307@,
        400 => REASON_400@,
        401 => REASON_401@,
        403 => REASON_403@,
        404 => REASON_404@,
        405 => REASON_405@,
        408 => REASON_408@,
        409 => REASON_409@,
        413 => REASON_413@,
        429 => REASON_429@,
        500 => REASON_500@,
        501 => REASON_501@,
        503 => REASON_503@,
        _ => Seq::empty(),
    }
}

/// The reason phrase of a status code.
pub fn reason_phrase(code: u16) -> (r: &'static [u8])
    ensures
        r@ == reason(code),
{
    let none: &'static [u8; 0] = &[];
    assert(none@ =~= Seq::<u8>::empty());
    match code {
        100 => &REASON_100,
        200 => &REASON_200,
        201 => &REASON_201,
        202 => &REASON_202,
        204 => &REASON_204,
        206 => &REASON_206,
        301 => &REASON_301,
        302 => &REASON_302,
        303 => &REASON_303,
        304 => &REASON_304,
        307 => &REASON_307,
        400 => &REASON_400,
        401 => &REASON_401,
        403 => &REASON_403,
        404 => &REASON_404,
        405 => &REASON_405,
        408 => &REASON_408,
        409 => &REASON_409,
        413 => &REASON_413,
        429 => &REASON_429,
        500 => &REASON_500,
        501 => &REASON_501,
        503 => &REASON_503,
        _ => none,
    }
}

// ---------------------------------------------------------------------------
// Reading
// ---------------------------------------------------------------------------

/// The first place from `i` on where a byte stands.
pub open spec fn index_of(s: Seq<u8>, b: u8, i: int) -> Option<int>
    decreases s.len() - i,
{
    if i < 0 || i >= s.len() {
        None
    } else if s[i] == b {
        Some(i)
    } else {
        index_of(s, b, i + 1)
    }
}

/// The first place from `i` on where a line ends.
pub open spec fn line_end(s: Seq<u8>, i: int) -> Option<int>
    decreases s.len() - i,
{
    if i < 0 || i + 1 >= s.len() {
        None
    } else if s[i] == CR && s[i + 1] == LF {
        Some(i)
    } else {
        line_end(s, i + 1)
    }
}

/// The first place from `i` on where a message head ends.
pub open spec fn head_end(s: Seq<u8>, i: int) -> Option<int>
    decreases s.len() - i,
{
    if i < 0 || i + 3 >= s.len() {
        None
    } else if s[i] == CR && s[i + 1] == LF && s[i + 2] == CR && s[i + 3] == LF {
        Some(i)
    } else {
        head_end(s, i + 1)
    }
}

/// A byte in lower case.
pub open spec fn lower_byte(b: u8) -> u8 {
    if 0x41 <= b <= 0x5a {
        (b + 32) as u8
    } else {
        b
    }
}

pub open spec fn lower(s: Seq<u8>) -> Seq<u8> {
    Seq::new(s.len(), |i: int| lower_byte(s[i]))
}

pub open spec fn is_blank(b: u8) -> bool {
    b == SP || b == HTAB
}

/// Without blanks at the start.
pub open spec fn trim_start(s: Seq<u8>) -> Seq<u8>
    decreases s.len(),
{
    if s.len() > 0 && is_blank(s[0]) {
        trim_start(s.skip(1))
    } else {
        s
    }
}

/// Without blanks at the end.
pub open spec fn trim_end(s: Seq<u8>) -> Seq<u8>
    decreases s.len(),
{
    if s.len() > 0 && is_blank(s.last()) {
        trim_end(s.drop_last())
    } else {
        s
    }
}

/// A header line: name in lower case, and value without surrounding blanks.
pub open spec fn header_line(line: Seq<u8>) -> Option<Field> {
    match index_of(line, COLON, 0) {
        Some(p) => if p > 0 {
            Some((lower(line.take(p)), trim_end(trim_start(line.skip(p + 1)))))
        } else {
            None
        },
        None => None,
    }
}

/// The first line.
pub open spec fn first_line(s: Seq<u8>) -> Seq<u8> {
    match line_end(s, 0) {
        Some(p) => s.take(p),
        None => s,
    }
}

/// What follows the first line.
pub open spec fn other_lines(s: Seq<u8>) -> Seq<u8> {
    match line_end(s, 0) {
        Some(p) => s.skip(p + 2),
        None => Seq::empty(),
    }
}

/// All header lines behind the fields in `acc`, or `None` if one is malformed.
pub open spec fn header_lines(s: Seq<u8>, acc: Seq<Field>) -> Option<Seq<Field>>
    decreases s.len(),
{
    if s.len() == 0 {
        Some(acc)
    } else {
        proof {
            line_end_bounds(s, 0);
        }
        match header_line(first_line(s)) {
            Some(f) => header_lines(other_lines(s), acc.push(f)),
            None => None,
        }
    }
}

pub proof fn line_end_bounds(s: Seq<u8>, i: int)
    ensures
        line_end(s, i) matches Some(p) ==> 0 <= i <= p && p + 1 < s.len(),
    decreases s.len() - i,
{
    if 0 <= i && i + 1 < s.len() {
        line_end_bounds(s, i + 1);
    }
}

pub proof fn index_of_bounds(s: Seq<u8>, b: u8, i: int)
    ensures
        index_of(s, b, i) matches Some(p) ==> 0 <= i <= p < s.len(),
    decreases s.len() - i,
{
    if 0 <= i < s.len() {
        index_of_bounds(s, b, i + 1);
    }
}

pub proof fn head_end_bounds(s: Seq<u8>, i: int)
    ensures
        head_end(s, i) matches Some(p) ==> 0 <= i <= p && p + 3 < s.len(),
    decreases s.len() - i,
{
    if 0 <= i && i + 3 < s.len() {
        head_end_bounds(s, i + 1);
    }
}

/// A request line: the fields for method and target.
pub open spec fn request_line(line: Seq<u8>) -> Option<Seq<Field>> {
    match index_of(line, SP, 0) {
        None => None,
        Some(p) => match index_of(line, SP, p + 1) {
            None => None,
            Some(q) => if p > 0 && q > p + 1 && line.skip(q + 1) == VERSION@ {
                Some(seq![(METHOD@, line.take(p)), (PATH@, line.subrange(p + 1, q))])
            } else {
                None
            },
        },
    }
}

pub open spec fn is_digit(b: u8) -> bool {
    0x30 <= b <= 0x39
}

/// A status line: the field for the status.
pub open spec fn status_line(line: Seq<u8>) -> Option<Seq<Field>> {
    if line.len() >= 12 && line.take(8) == VERSION@ && line[8] == SP && is_digit(line[9])
        && is_digit(line[10]) && is_digit(line[11]) && (line.len() == 12 || line[12] == SP) {
        Some(seq![(STATUS@, line.subrange(9, 12))])
    } else {
        None
    }
}

/// The fields of a message head: those of its first line, then its headers.
pub open spec fn head_fields(request: bool, head: Seq<u8>) -> Option<Seq<Field>> {
    let start = if request {
        request_line(first_line(head))
    } else {
        status_line(first_line(head))
    };
    match start {
        None => None,
        Some(fs) => header_lines(other_lines(head), fs),
    }
}

/// The value of decimal digits.
pub open spec fn decimal(s: Seq<u8>) -> int
    decreases s.len(),
{
    if s.len() == 0 {
        0
    } else {
        decimal(s.drop_last()) * 10 + (s.last() - 0x30)
    }
}

/// The first value of a field, from `i` on.
pub open spec fn value_from(fs: Seq<Field>, name: Seq<u8>, i: int) -> Option<Seq<u8>>
    decreases fs.len() - i,
{
    if i < 0 || i >= fs.len() {
        None
    } else if fs[i].0 == name {
        Some(fs[i].1)
    } else {
        value_from(fs, name, i + 1)
    }
}

/// The value of a field.
pub open spec fn value_of(fs: Seq<Field>, name: Seq<u8>) -> Option<Seq<u8>> {
    value_from(fs, name, 0)
}

/// The length of a message body: what `content-length` says, 0 without one.
/// Transfer codings are not supported.
pub open spec fn body_length(fs: Seq<Field>) -> Option<u64> {
    if value_of(fs, TRANSFER_ENCODING@) is Some {
        None
    } else {
        match value_of(fs, CONTENT_LENGTH@) {
            None => Some(0),
            Some(v) => if 0 < v.len() <= 19 && forall|i: int|
                0 <= i < v.len() ==> is_digit(#[trigger] v[i]) {
                Some(decimal(v) as u64)
            } else {
                None
            },
        }
    }
}

/// Finds the end of a message head.
pub fn find_head_end(s: &[u8]) -> (r: Option<usize>)
    ensures
        match r {
            Some(p) => head_end(s@, 0) == Some(p as int) && p + 4 <= s@.len(),
            None => head_end(s@, 0) is None,
        },
{
    let n: usize = s.len();
    let mut i: usize = 0;
    while i < n && n - i > 3
        invariant
            i <= n,
            n == s@.len(),
            head_end(s@, 0) == head_end(s@, i as int),
        decreases n - i,
    {
        if s[i] == CR && s[i + 1] == LF && s[i + 2] == CR && s[i + 3] == LF {
            return Some(i);
        }
        i = i + 1;
    }
    None
}

fn find_byte(s: &[u8], b: u8, from: usize) -> (r: Option<usize>)
    ensures
        match r {
            Some(p) => index_of(s@, b, from as int) == Some(p as int) && from <= p < s@.len(),
            None => index_of(s@, b, from as int) is None,
        },
{
    let mut i: usize = from;
    while i < s.len()
        invariant
            from <= i,
            index_of(s@, b, from as int) == index_of(s@, b, i as int),
        decreases s@.len() - i,
    {
        if s[i] == b {
            return Some(i);
        }
        i = i + 1;
    }
    None
}

fn find_line_end(s: &[u8]) -> (r: Option<usize>)
    ensures
        match r {
            Some(p) => line_end(s@, 0) == Some(p as int) && p + 2 <= s@.len(),
            None => line_end(s@, 0) is None,
        },
{
    let n: usize = s.len();
    let mut i: usize = 0;
    while i < n && n - i > 1
        invariant
            i <= n,
            n == s@.len(),
            line_end(s@, 0) == line_end(s@, i as int),
        decreases n - i,
    {
        if s[i] == CR && s[i + 1] == LF {
            return Some(i);
        }
        i = i + 1;
    }
    None
}

fn to_lower(s: &[u8]) -> (r: Vec<u8>)
    ensures
        r@ == lower(s@),
{
    let mut out: Vec<u8> = Vec::new();
    let mut i: usize = 0;
    while i < s.len()
        invariant
            i <= s@.len(),
            out@.len() == i,
            forall|j: int| 0 <= j < i ==> out@[j] == lower_byte(s@[j]),
        decreases s@.len() - i,
    {
        let b: u8 = s[i];
        out.push(
            if b >= 0x41 && b <= 0x5a {
                b + 32
            } else {
                b
            },
        );
        i = i + 1;
    }
    assert(out@ =~= lower(s@));
    out
}

fn trim(s: &[u8]) -> (r: &[u8])
    ensures
        r@ == trim_end(trim_start(s@)),
{
    let n: usize = s.len();
    let mut a: usize = 0;
    assert(s@.skip(0) =~= s@);
    while a < n && (s[a] == SP || s[a] == HTAB)
        invariant
            a <= n,
            n == s@.len(),
            trim_start(s@.skip(a as int)) == trim_start(s@),
        decreases n - a,
    {
        assert(s@.skip(a as int).skip(1) =~= s@.skip(a + 1));
        a = a + 1;
    }
    let mut b: usize = n;
    assert(s@.subrange(a as int, n as int) =~= s@.skip(a as int));
    while b > a && (s[b - 1] == SP || s[b - 1] == HTAB)
        invariant
            a <= b <= n,
            n == s@.len(),
            trim_end(s@.subrange(a as int, b as int)) == trim_end(s@.skip(a as int)),
        decreases b,
    {
        assert(s@.subrange(a as int, b as int).drop_last() =~= s@.subrange(a as int, b - 1));
        b = b - 1;
    }
    &s[a..b]
}

fn parse_header_line(line: &[u8]) -> (r: Option<HeaderField>)
    ensures
        match r {
            Some(f) => header_line(line@) == Some(f@),
            None => header_line(line@) is None,
        },
{
    let n: usize = line.len();
    match find_byte(line, COLON, 0) {
        Some(p) => {
            if p == 0 {
                return None;
            }
            assert(line@.subrange(0, p as int) =~= line@.take(p as int));
            assert(line@.subrange(p + 1, n as int) =~= line@.skip(p + 1));
            let name: Vec<u8> = to_lower(&line[0..p]);
            let value: Vec<u8> = vstd::slice::slice_to_vec(trim(&line[p + 1..n]));
            Some(HeaderField { name, value })
        },
        None => None,
    }
}

/// Splits off the first line.
fn split_line(s: &[u8]) -> (r: (&[u8], &[u8]))
    ensures
        r.0@ == first_line(s@),
        r.1@ == other_lines(s@),
        s@.len() > 0 ==> r.1@.len() < s@.len(),
{
    let n: usize = s.len();
    match find_line_end(s) {
        Some(p) => {
            assert(s@.subrange(0, p as int) =~= s@.take(p as int));
            assert(s@.subrange(p + 2, n as int) =~= s@.skip(p + 2));
            (&s[0..p], &s[p + 2..n])
        },
        None => {
            assert(s@.subrange(0, n as int) =~= s@);
            assert(s@.subrange(n as int, n as int) =~= Seq::<u8>::empty());
            (&s[0..n], &s[n..n])
        },
    }
}

fn parse_header_lines(s: &[u8], start: Vec<HeaderField>) -> (r: Option<Vec<HeaderField>>)
    ensures
        match r {
            Some(list) => header_lines(s@, bytes::fields(start@)) == Some(bytes::fields(list@)),
            None => header_lines(s@, bytes::fields(start@)) is None,
        },
{
    let mut list = start;
    let mut rest: &[u8] = s;
    while rest.len() > 0
        invariant
            header_lines(rest@, bytes::fields(list@)) == header_lines(s@, bytes::fields(start@)),
        decreases rest@.len(),
    {
        let (line, more) = split_line(rest);
        match parse_header_line(line) {
            Some(f) => {
                let ghost before = bytes::fields(list@);
                list.push(f);
                assert(bytes::fields(list@) =~= before.push(f@));
            },
            None => {
                return None;
            },
        }
        rest = more;
    }
    Some(list)
}

fn parse_request_line(line: &[u8]) -> (r: Option<Vec<HeaderField>>)
    ensures
        match r {
            Some(list) => request_line(line@) == Some(bytes::fields(list@)),
            None => request_line(line@) is None,
        },
{
    let n: usize = line.len();
    let p: usize = match find_byte(line, SP, 0) {
        Some(p) => p,
        None => {
            return None;
        },
    };
    let q: usize = match find_byte(line, SP, p + 1) {
        Some(q) => q,
        None => {
            return None;
        },
    };
    assert(line@.subrange(q + 1, n as int) =~= line@.skip(q + 1));
    assert(line@.subrange(0, p as int) =~= line@.take(p as int));
    if p == 0 || q == p + 1 || !bytes::bytes_equal(&line[q + 1..n], &VERSION) {
        return None;
    }
    let mut list: Vec<HeaderField> = Vec::new();
    bytes::push_field(&mut list, &METHOD, &line[0..p]);
    bytes::push_field(&mut list, &PATH, &line[p + 1..q]);
    assert(bytes::fields(list@) =~= seq![
        (METHOD@, line@.take(p as int)),
        (PATH@, line@.subrange(p + 1, q as int)),
    ]);
    Some(list)
}

fn digit(b: u8) -> (r: bool)
    ensures
        r == is_digit(b),
{
    b >= 0x30 && b <= 0x39
}

fn parse_status_line(line: &[u8]) -> (r: Option<Vec<HeaderField>>)
    ensures
        match r {
            Some(list) => status_line(line@) == Some(bytes::fields(list@)),
            None => status_line(line@) is None,
        },
{
    if line.len() < 12 {
        return None;
    }
    assert(line@.subrange(0, 8) =~= line@.take(8));
    if !bytes::bytes_equal(&line[0..8], &VERSION) || line[8] != SP {
        return None;
    }
    if !digit(line[9]) || !digit(line[10]) || !digit(line[11]) {
        return None;
    }
    if line.len() > 12 && line[12] != SP {
        return None;
    }
    let mut list: Vec<HeaderField> = Vec::new();
    bytes::push_field(&mut list, &STATUS, &line[9..12]);
    assert(bytes::fields(list@) =~= seq![(STATUS@, line@.subrange(9, 12))]);
    Some(list)
}

/// Reads a message head.
pub fn parse_head(request: bool, head: &[u8]) -> (r: Option<Vec<HeaderField>>)
    ensures
        match r {
            Some(list) => head_fields(request, head@) == Some(bytes::fields(list@)),
            None => head_fields(request, head@) is None,
        },
{
    let (line, rest) = split_line(head);
    let start: Option<Vec<HeaderField>> = if request {
        parse_request_line(line)
    } else {
        parse_status_line(line)
    };
    match start {
        Some(list) => parse_header_lines(rest, list),
        None => None,
    }
}

/// Looks up a field.
fn find_value<'a>(list: &'a Vec<HeaderField>, name: &[u8]) -> (r: Option<&'a [u8]>)
    ensures
        match r {
            Some(v) => value_of(bytes::fields(list@), name@) == Some(v@),
            None => value_of(bytes::fields(list@), name@) is None,
        },
{
    let mut i: usize = 0;
    while i < list.len()
        invariant
            i <= list@.len(),
            value_of(bytes::fields(list@), name@) == value_from(
                bytes::fields(list@),
                name@,
                i as int,
            ),
        decreases list@.len() - i,
    {
        assert(bytes::fields(list@)[i as int] == list@[i as int]@);
        if bytes::bytes_equal(list[i].name.as_slice(), name) {
            return Some(list[i].value.as_slice());
        }
        i = i + 1;
    }
    None
}

proof fn lemma_decimal_bound(s: Seq<u8>)
    requires
        forall|i: int| 0 <= i < s.len() ==> is_digit(#[trigger] s[i]),
    ensures
        0 <= decimal(s) < vstd::arithmetic::power::pow(10, s.len()),
    decreases s.len(),
{
    vstd::arithmetic::power::lemma_pow0(10);
    if s.len() > 0 {
        lemma_decimal_bound(s.drop_last());
        assert(vstd::arithmetic::power::pow(10, s.len()) == 10 * vstd::arithmetic::power::pow(
            10,
            (s.len() - 1) as nat,
        )) by {
            reveal(vstd::arithmetic::power::pow);
        }
        assert(is_digit(s[s.len() - 1]));
    }
}

fn parse_decimal(s: &[u8]) -> (r: Option<u64>)
    ensures
        match r {
            Some(v) => 0 < s@.len() <= 19 && (forall|i: int|
                0 <= i < s@.len() ==> is_digit(#[trigger] s@[i])) && v == decimal(s@),
            None => !(0 < s@.len() <= 19 && forall|i: int|
                0 <= i < s@.len() ==> is_digit(#[trigger] s@[i])),
        },
{
    if s.len() == 0 || s.len() > 19 {
        return None;
    }
    let mut v: u64 = 0;
    let mut i: usize = 0;
    assert(s@.take(0) =~= Seq::<u8>::empty());
    while i < s.len()
        invariant
            i <= s@.len() <= 19,
            v == decimal(s@.take(i as int)),
            forall|j: int| 0 <= j < i ==> is_digit(#[trigger] s@[j]),
        decreases s@.len() - i,
    {
        if !digit(s[i]) {
            assert(!is_digit(s@[i as int]));
            return None;
        }
        proof {
            let t = s@.take(i + 1);
            assert(t.drop_last() =~= s@.take(i as int));
            lemma_decimal_bound(t);
            reveal_with_fuel(vstd::arithmetic::power::pow, 20);
            assert(vstd::arithmetic::power::pow(10, 19) == 10_000_000_000_000_000_000int);
            vstd::arithmetic::power::lemma_pow_increases(10, t.len(), 19);
        }
        v = v * 10 + (s[i] - 0x30) as u64;
        i = i + 1;
    }
    assert(s@.take(i as int) =~= s@);
    Some(v)
}

/// The length of a message body.
pub fn parse_body_length(list: &Vec<HeaderField>) -> (r: Option<u64>)
    ensures
        r == body_length(bytes::fields(list@)),
{
    if find_value(list, &TRANSFER_ENCODING).is_some() {
        return None;
    }
    match find_value(list, &CONTENT_LENGTH) {
        None => Some(0),
        Some(v) => parse_decimal(v),
    }
}

// ---------------------------------------------------------------------------
// Writing
// ---------------------------------------------------------------------------

/// A pseudo-header, which has no line of its own.
pub open spec fn is_pseudo(name: Seq<u8>) -> bool {
    name.len() > 0 && name[0] == COLON
}

/// The lines of the headers that are no pseudo-headers.
pub open spec fn lines(fs: Seq<Field>) -> Seq<u8>
    decreases fs.len(),
{
    if fs.len() == 0 {
        Seq::empty()
    } else if is_pseudo(fs.last().0) {
        lines(fs.drop_last())
    } else {
        lines(fs.drop_last()) + fs.last().0 + seq![COLON, SP] + fs.last().1 + seq![CR, LF]
    }
}

/// The number that three digits make.
pub open spec fn code_of(digits: Seq<u8>) -> u16 {
    ((digits[0] - 0x30) * 100 + (digits[1] - 0x30) * 10 + (digits[2] - 0x30)) as u16
}

/// A response head, where the fields have a status of three digits.
pub open spec fn response_head(fs: Seq<Field>) -> Option<Seq<u8>> {
    match value_of(fs, STATUS@) {
        Some(d) => if d.len() == 3 && is_digit(d[0]) && is_digit(d[1]) && is_digit(d[2]) {
            Some(
                VERSION@ + seq![SP] + d + seq![SP] + reason(code_of(d)) + seq![CR, LF] + lines(fs)
                    + seq![CR, LF],
            )
        } else {
            None
        },
        None => None,
    }
}

/// A request head, where the fields have method and path. The authority, where
/// there is one, becomes the host.
pub open spec fn request_head(fs: Seq<Field>) -> Option<Seq<u8>> {
    match (value_of(fs, METHOD@), value_of(fs, PATH@)) {
        (Some(m), Some(p)) => {
            let start = m + seq![SP] + p + seq![SP] + VERSION@ + seq![CR, LF];
            let host = match value_of(fs, AUTHORITY@) {
                Some(a) => HOST_PREFIX@ + a + seq![CR, LF],
                None => Seq::empty(),
            };
            Some(start + host + lines(fs) + seq![CR, LF])
        },
        _ => None,
    }
}

fn pair_value<'a>(list: &[(&'a [u8], &'a [u8])], name: &[u8]) -> (r: Option<&'a [u8]>)
    ensures
        match r {
            Some(v) => value_of(bytes::pairs(list@), name@) == Some(v@),
            None => value_of(bytes::pairs(list@), name@) is None,
        },
{
    let mut i: usize = 0;
    while i < list.len()
        invariant
            i <= list@.len(),
            value_of(bytes::pairs(list@), name@) == value_from(
                bytes::pairs(list@),
                name@,
                i as int,
            ),
        decreases list@.len() - i,
    {
        let (n, v) = list[i];
        if bytes::bytes_equal(n, name) {
            return Some(v);
        }
        i = i + 1;
    }
    None
}

/// Appends the end of a line.
fn put_eol(out: &mut Vec<u8>)
    ensures
        final(out)@ == old(out)@ + seq![CR, LF],
{
    out.push(CR);
    out.push(LF);
    assert(out@ =~= old(out)@ + seq![CR, LF]);
}

/// Appends the lines of the headers that are no pseudo-headers.
fn put_lines(out: &mut Vec<u8>, list: &[(&[u8], &[u8])])
    ensures
        final(out)@ == old(out)@ + lines(bytes::pairs(list@)),
{
    let ghost all = bytes::pairs(list@);
    let mut i: usize = 0;
    assert(all.take(0) =~= Seq::<Field>::empty());
    assert(out@ =~= old(out)@ + lines(all.take(0)));
    while i < list.len()
        invariant
            i <= list@.len(),
            all == bytes::pairs(list@),
            out@ == old(out)@ + lines(all.take(i as int)),
        decreases list@.len() - i,
    {
        let (n, v) = list[i];
        proof {
            assert(all.take(i + 1).drop_last() =~= all.take(i as int));
            assert(all.take(i + 1).last() == (n@, v@));
        }
        if !(n.len() > 0 && n[0] == COLON) {
            let ghost before = out@;
            bytes::append(out, n);
            out.push(COLON);
            out.push(SP);
            bytes::append(out, v);
            put_eol(out);
            assert(out@ =~= before + (n@ + seq![COLON, SP] + v@ + seq![CR, LF]));
            assert(out@ =~= old(out)@ + lines(all.take(i + 1)));
        }
        i = i + 1;
    }
    assert(all.take(i as int) =~= all);
}

/// Writes a response head.
pub fn write_response_head(list: &[(&[u8], &[u8])]) -> (r: Option<Vec<u8>>)
    ensures
        match r {
            Some(out) => response_head(bytes::pairs(list@)) == Some(out@),
            None => response_head(bytes::pairs(list@)) is None,
        },
{
    let d: &[u8] = match pair_value(list, &STATUS) {
        Some(d) => d,
        None => {
            return None;
        },
    };
    if d.len() != 3 || !digit(d[0]) || !digit(d[1]) || !digit(d[2]) {
        return None;
    }
    let code: u16 = (d[0] - 0x30) as u16 * 100 + (d[1] - 0x30) as u16 * 10 + (d[2] - 0x30) as u16;
    let mut out: Vec<u8> = Vec::new();
    bytes::append(&mut out, &VERSION);
    out.push(SP);
    bytes::append(&mut out, d);
    out.push(SP);
    bytes::append(&mut out, reason_phrase(code));
    put_eol(&mut out);
    put_lines(&mut out, list);
    put_eol(&mut out);
    proof {
        let start = VERSION@ + seq![SP] + d@ + seq![SP] + reason(code_of(d@)) + seq![CR, LF];
        assert(out@ =~= start + lines(bytes::pairs(list@)) + seq![CR, LF]);
    }
    Some(out)
}

/// Writes a request head.
pub fn write_request_head(list: &[(&[u8], &[u8])]) -> (r: Option<Vec<u8>>)
    ensures
        match r {
            Some(out) => request_head(bytes::pairs(list@)) == Some(out@),
            None => request_head(bytes::pairs(list@)) is None,
        },
{
    let m: &[u8] = match pair_value(list, &METHOD) {
        Some(m) => m,
        None => {
            return None;
        },
    };
    let p: &[u8] = match pair_value(list, &PATH) {
        Some(p) => p,
        None => {
            return None;
        },
    };
    let mut out: Vec<u8> = Vec::new();
    bytes::append(&mut out, m);
    out.push(SP);
    bytes::append(&mut out, p);
    out.push(SP);
    bytes::append(&mut out, &VERSION);
    put_eol(&mut out);
    let ghost start = m@ + seq![SP] + p@ + seq![SP] + VERSION@ + seq![CR, LF];
    assert(out@ =~= start);
    let ghost mut host: Seq<u8> = Seq::empty();
    if let Some(a) = pair_value(list, &AUTHORITY) {
        bytes::append(&mut out, &HOST_PREFIX);
        bytes::append(&mut out, a);
        put_eol(&mut out);
        proof {
            host = HOST_PREFIX@ + a@ + seq![CR, LF];
        }
    }
    assert(out@ =~= start + host);
    put_lines(&mut out, list);
    put_eol(&mut out);
    assert(out@ =~= start + host + lines(bytes::pairs(list@)) + seq![CR, LF]);
    Some(out)
}

} // verus!
