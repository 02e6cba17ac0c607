//! HPACK static table (RFC 7541 Appendix A).

use vstd::prelude::*;

use crate::bytes;

verus! {

/// Number of entries in the static table.
pub const STATIC_TABLE_LEN: usize = 61;

/// The empty value of entries that fix only a name.
pub const EMPTY: [u8; 0] = [];

/// `:authority`
pub const N_AUTHORITY: [u8; 10] = [0x3a, 0x61, 0x75, 0x74, 0x68, 0x6f, 0x72, 0x69, 0x74, 0x79];

/// `:method`
pub const N_METHOD: [u8; 7] = [0x3a, 0x6d, 0x65, 0x74, 0x68, 0x6f, 0x64];

/// `:path`
pub const N_PATH: [u8; 5] = [0x3a, 0x70, 0x61, 0x74, 0x68];

/// `:scheme`
pub const N_SCHEME: [u8; 7] = [0x3a, 0x73, 0x63, 0x68, 0x65, 0x6d, 0x65];

/// `:status`
pub const N_STATUS: [u8; 7] = [0x3a, 0x73, 0x74, 0x61, 0x74, 0x75, 0x73];

/// `accept-charset`
pub const N_ACCEPT_CHARSET: [u8; 14] = [
    0x61, 0x63, 0x63, 0x65, 0x70, 0x74, 0x2d, 0x63, 0x68, 0x61, 0x72, 0x73, 0x65, 0x74,
];

/// `accept-encoding`
pub const N_ACCEPT_ENCODING: [u8; 15] = [
    0x61, 0x63, 0x63, 0x65, 0x70, 0x74, 0x2d, 0x65, 0x6e, 0x63, 0x6f, 0x64, 0x69, 0x6e,
    0x67,
];

/// `accept-language`
pub const N_ACCEPT_LANGUAGE: [u8; 15] = [
    0x61, 0x63, 0x63, 0x65, 0x70, 0x74, 0x2d, 0x6c, 0x61, 0x6e, 0x67, 0x75, 0x61, 0x67,
    0x65,
];

/// `accept-ranges`
pub const N_ACCEPT_RANGES: [u8; 13] = [0x61, 0x63, 0x63, 0x65, 0x70, 0x74, 0x2d, 0x72, 0x61, 0x6e, 0x67, 0x65, 0x73];

/// `accept`
pub const N_ACCEPT: [u8; 6] = [0x61, 0x63, 0x63, 0x65, 0x70, 0x74];

/// `access-control-allow-origin`
pub const N_ACCESS_CONTROL_ALLOW_ORIGIN: [u8; 27] = [
    0x61, 0x63, 0x63, 0x65, 0x73, 0x73, 0x2d, 0x63, 0x6f, 0x6e, 0x74, 0x72, 0x6f, 0x6c,
    0x2d, 0x61, 0x6c, 0x6c, 0x6f, 0x77, 0x2d, 0x6f, 0x72, 0x69, 0x67, 0x69, 0x6e,
];

/// `age`
pub const N_AGE: [u8; 3] = [0x61, 0x67, 0x65];

/// `allow`
pub const N_ALLOW: [u8; 5] = [0x61, 0x6c, 0x6c, 0x6f, 0x77];

/// `authorization`
pub const N_AUTHORIZATION: [u8; 13] = [0x61, 0x75, 0x74, 0x68, 0x6f, 0x72, 0x69, 0x7a, 0x61, 0x74, 0x69, 0x6f, 0x6e];

/// `cache-control`
pub const N_CACHE_CONTROL: [u8; 13] = [0x63, 0x61, 0x63, 0x68, 0x65, 0x2d, 0x63, 0x6f, 0x6e, 0x74, 0x72, 0x6f, 0x6c];

/// `content-disposition`
pub const N_CONTENT_DISPOSITION: [u8; 19] = [
    0x63, 0x6f, 0x6e, 0x74, 0x65, 0x6e, 0x74, 0x2d, 0x64, 0x69, 0x73, 0x70, 0x6f, 0x73,
    0x69, 0x74, 0x69, 0x6f, 0x6e,
];

/// `content-encoding`
pub const N_CONTENT_ENCODING: [u8; 16] = [
    0x63, 0x6f, 0x6e, 0x74, 0x65, 0x6e, 0x74, 0x2d, 0x65, 0x6e, 0x63, 0x6f, 0x64, 0x69,
    0x6e, 0x67,
];

/// `content-language`
pub const N_CONTENT_LANGUAGE: [u8; 16] = [
    0x63, 0x6f, 0x6e, 0x74, 0x65, 0x6e, 0x74, 0x2d, 0x6c, 0x61, 0x6e, 0x67, 0x75, 0x61,
    0x67, 0x65,
];

/// `content-length`
pub const N_CONTENT_LENGTH: [u8; 14] = [
    0x63, 0x6f, 0x6e, 0x74, 0x65, 0x6e, 0x74, 0x2d, 0x6c, 0x65, 0x6e, 0x67, 0x74, 0x68,
];

/// `content-location`
pub const N_CONTENT_LOCATION: [u8; 16] = [
    0x63, 0x6f, 0x6e, 0x74, 0x65, 0x6e, 0x74, 0x2d, 0x6c, 0x6f, 0x63, 0x61, 0x74, 0x69,
    0x6f, 0x6e,
];

/// `content-range`
pub const N_CONTENT_RANGE: [u8; 13] = [0x63, 0x6f, 0x6e, 0x74, 0x65, 0x6e, 0x74, 0x2d, 0x72, 0x61, 0x6e, 0x67, 0x65];

/// `content-type`
pub const N_CONTENT_TYPE: [u8; 12] = [0x63, 0x6f, 0x6e, 0x74, 0x65, 0x6e, 0x74, 0x2d, 0x74, 0x79, 0x70, 0x65];

/// `cookie`
pub const N_COOKIE: [u8; 6] = [0x63, 0x6f, 0x6f, 0x6b, 0x69, 0x65];

/// `date`
pub const N_DATE: [u8; 4] = [0x64, 0x61, 0x74, 0x65];

/// `etag`
pub const N_ETAG: [u8; 4] = [0x65, 0x74, 0x61, 0x67];

/// `expect`
pub const N_EXPECT: [u8; 6] = [0x65, 0x78, 0x70, 0x65, 0x63, 0x74];

/// `expires`
pub const N_EXPIRES: [u8; 7] = [0x65, 0x78, 0x70, 0x69, 0x72, 0x65, 0x73];

/// `from`
pub const N_FROM: [u8; 4] = [0x66, 0x72, 0x6f, 0x6d];

/// `host`
pub const N_HOST: [u8; 4] = [0x68, 0x6f, 0x73, 0x74];

/// `if-match`
pub const N_IF_MATCH: [u8; 8] = [0x69, 0x66, 0x2d, 0x6d, 0x61, 0x74, 0x63, 0x68];

/// `if-modified-since`
pub const N_IF_MODIFIED_SINCE: [u8; 17] = [
    0x69, 0x66, 0x2d, 0x6d, 0x6f, 0x64, 0x69, 0x66, 0x69, 0x65, 0x64, 0x2d, 0x73, 0x69,
    0x6e, 0x63, 0x65,
];

/// `if-none-match`
pub const N_IF_NONE_MATCH: [u8; 13] = [0x69, 0x66, 0x2d, 0x6e, 0x6f, 0x6e, 0x65, 0x2d, 0x6d, 0x61, 0x74, 0x63, 0x68];

/// `if-range`
pub const N_IF_RANGE: [u8; 8] = [0x69, 0x66, 0x2d, 0x72, 0x61, 0x6e, 0x67, 0x65];

/// `if-unmodified-since`
pub const N_IF_UNMODIFIED_SINCE: [u8; 19] = [
    0x69, 0x66, 0x2d, 0x75, 0x6e, 0x6d, 0x6f, 0x64, 0x69, 0x66, 0x69, 0x65, 0x64, 0x2d,
    0x73, 0x69, 0x6e, 0x63, 0x65,
];

/// `last-modified`
pub const N_LAST_MODIFIED: [u8; 13] = [0x6c, 0x61, 0x73, 0x74, 0x2d, 0x6d, 0x6f, 0x64, 0x69, 0x66, 0x69, 0x65, 0x64];

/// `link`
pub const N_LINK: [u8; 4] = [0x6c, 0x69, 0x6e, 0x6b];

/// `location`
pub const N_LOCATION: [u8; 8] = [0x6c, 0x6f, 0x63, 0x61, 0x74, 0x69, 0x6f, 0x6e];

/// `max-forwards`
pub const N_MAX_FORWARDS: [u8; 12] = [0x6d, 0x61, 0x78, 0x2d, 0x66, 0x6f, 0x72, 0x77, 0x61, 0x72, 0x64, 0x73];

/// `proxy-authenticate`
pub const N_PROXY_AUTHENTICATE: [u8; 18] = [
    0x70, 0x72, 0x6f, 0x78, 0x79, 0x2d, 0x61, 0x75, 0x74, 0x68, 0x65, 0x6e, 0x74, 0x69,
    0x63, 0x61, 0x74, 0x65,
];

/// `proxy-authorization`
pub const N_PROXY_AUTHORIZATION: [u8; 19] = [
    0x70, 0x72, 0x6f, 0x78, 0x79, 0x2d, 0x61, 0x75, 0x74, 0x68, 0x6f, 0x72, 0x69, 0x7a,
    0x61, 0x74, 0x69, 0x6f, 0x6e,
];

/// `range`
pub const N_RANGE: [u8; 5] = [0x72, 0x61, 0x6e, 0x67, 0x65];

/// `referer`
pub const N_REFERER: [u8; 7] = [0x72, 0x65, 0x66, 0x65, 0x72, 0x65, 0x72];

/// `refresh`
pub const N_REFRESH: [u8; 7] = [0x72, 0x65, 0x66, 0x72, 0x65, 0x73, 0x68];

/// `retry-after`
pub const N_RETRY_AFTER: [u8; 11] = [0x72, 0x65, 0x74, 0x72, 0x79, 0x2d, 0x61, 0x66, 0x74, 0x65, 0x72];

/// `server`
pub const N_SERVER: [u8; 6] = [0x73, 0x65, 0x72, 0x76, 0x65, 0x72];

/// `set-cookie`
pub const N_SET_COOKIE: [u8; 10] = [0x73, 0x65, 0x74, 0x2d, 0x63, 0x6f, 0x6f, 0x6b, 0x69, 0x65];

/// `strict-transport-security`
pub const N_STRICT_TRANSPORT_SECURITY: [u8; 25] = [
    0x73, 0x74, 0x72, 0x69, 0x63, 0x74, 0x2d, 0x74, 0x72, 0x61, 0x6e, 0x73, 0x70, 0x6f,
    0x72, 0x74, 0x2d, 0x73, 0x65, 0x63, 0x75, 0x72, 0x69, 0x74, 0x79,
];

/// `transfer-encoding`
pub const N_TRANSFER_ENCODING: [u8; 17] = [
    0x74, 0x72, 0x61, 0x6e, 0x73, 0x66, 0x65, 0x72, 0x2d, 0x65, 0x6e, 0x63, 0x6f, 0x64,
    0x69, 0x6e, 0x67,
];

/// `user-agent`
pub const N_USER_AGENT: [u8; 10] = [0x75, 0x73, 0x65, 0x72, 0x2d, 0x61, 0x67, 0x65, 0x6e, 0x74];

/// `vary`
pub const N_VARY: [u8; 4] = [0x76, 0x61, 0x72, 0x79];

/// `via`
pub const N_VIA: [u8; 3] = [0x76, 0x69, 0x61];

/// `www-authenticate`
pub const N_WWW_AUTHENTICATE: [u8; 16] = [
    0x77, 0x77, 0x77, 0x2d, 0x61, 0x75, 0x74, 0x68, 0x65, 0x6e, 0x74, 0x69, 0x63, 0x61,
    0x74, 0x65,
];

/// `GET`
pub const V_GET: [u8; 3] = [0x47, 0x45, 0x54];

/// `POST`
pub const V_POST: [u8; 4] = [0x50, 0x4f, 0x53, 0x54];

/// `/`
pub const V_ROOT: [u8; 1] = [0x2f];

/// `/index.html`
pub const V_INDEX_HTML: [u8; 11] = [0x2f, 0x69, 0x6e, 0x64, 0x65, 0x78, 0x2e, 0x68, 0x74, 0x6d, 0x6c];

/// `http`
pub const V_HTTP: [u8; 4] = [0x68, 0x74, 0x74, 0x70];

/// `https`
pub const V_HTTPS: [u8; 5] = [0x68, 0x74, 0x74, 0x70, 0x73];

/// `200`
pub const V_200: [u8; 3] = [0x32, 0x30, 0x30];

/// `204`
pub const V_204: [u8; 3] = [0x32, 0x30, 0x34];

/// `206`
pub const V_206: [u8; 3] = [0x32, 0x30, 0x36];

/// `304`
pub const V_304: [u8; 3] = [0x33, 0x30, 0x34];

/// `400`
pub const V_400: [u8; 3] = [0x34, 0x30, 0x30];

/// `404`
pub const V_404: [u8; 3] = [0x34, 0x30, 0x34];

/// `500`
pub const V_500: [u8; 3] = [0x35, 0x30, 0x30];

/// `gzip, deflate`
pub const V_GZIP_DEFLATE: [u8; 13] = [0x67, 0x7a, 0x69, 0x70, 0x2c, 0x20, 0x64, 0x65, 0x66, 0x6c, 0x61, 0x74, 0x65];

/// The name of entry `i`, counted from 1.
#[verifier::opaque]
pub open spec fn entry_name(i: usize) -> Seq<u8> {
    match i {
        1 => N_AUTHORITY@,
        2 | 3 => N_METHOD@,
        4 | 5 => N_PATH@,
        6 | 7 => N_SCHEME@,
        8 | 9 | 10 | 11 | 12 | 13 | 14 => N_STATUS@,
        15 => N_ACCEPT_CHARSET@,
        16 => N_ACCEPT_ENCODING@,
        17 => N_ACCEPT_LANGUAGE@,
        18 => N_ACCEPT_RANGES@,
        19 => N_ACCEPT@,
        20 => N_ACCESS_CONTROL_ALLOW_ORIGIN@,
        21 => N_AGE@,
        22 => N_ALLOW@,
        23 => N_AUTHORIZATION@,
        24 => N_CACHE_CONTROL@,
        25 => N_CONTENT_DISPOSITION@,
        26 => N_CONTENT_ENCODING@,
        27 => N_CONTENT_LANGUAGE@,
        28 => N_CONTENT_LENGTH@,
        29 => N_CONTENT_LOCATION@,
        30 => N_CONTENT_RANGE@,
        31 => N_CONTENT_TYPE@,
        32 => N_COOKIE@,
        33 => N_DATE@,
        34 => N_ETAG@,
        35 => N_EXPECT@,
        36 => N_EXPIRES@,
        37 => N_FROM@,
        38 => N_HOST@,
        39 => N_IF_MATCH@,
        40 => N_IF_MODIFIED_SINCE@,
        41 => N_IF_NONE_MATCH@,
        42 => N_IF_RANGE@,
        43 => N_IF_UNMODIFIED_SINCE@,
        44 => N_LAST_MODIFIED@,
        45 => N_LINK@,
        46 => N_LOCATION@,
        47 => N_MAX_FORWARDS@,
        48 => N_PROXY_AUTHENTICATE@,
        49 => N_PROXY_AUTHORIZATION@,
        50 => N_RANGE@,
        51 => N_REFERER@,
        52 => N_REFRESH@,
        53 => N_RETRY_AFTER@,
        54 => N_SERVER@,
        55 => N_SET_COOKIE@,
        56 => N_STRICT_TRANSPORT_SECURITY@,
        57 => N_TRANSFER_ENCODING@,
        58 => N_USER_AGENT@,
        59 => N_VARY@,
        60 => N_VIA@,
        _ => N_WWW_AUTHENTICATE@,
    }
}

/// The value of entry `i`, counted from 1; empty where the entry fixes only a name.
#[verifier::opaque]
pub open spec fn entry_value(i: usize) -> Seq<u8> {
    match i {
        2 => V_GET@,
        3 => V_POST@,
        4 => V_ROOT@,
        5 => V_INDEX_HTML@,
        6 => V_HTTP@,
        7 => V_HTTPS@,
        8 => V_200@,
        9 => V_204@,
        10 => V_206@,
        11 => V_304@,
        12 => V_400@,
        13 => V_404@,
        14 => V_500@,
        16 => V_GZIP_DEFLATE@,
        _ => EMPTY@,
    }
}

/// The name of entry `i`, counted from 1.
pub fn static_name(i: usize) -> (name: &'static [u8])
    requires
        1 <= i <= STATIC_TABLE_LEN,
    ensures
        name@ == entry_name(i),
{
    reveal(entry_name);
    match i {
        1 => &N_AUTHORITY,
        2 | 3 => &N_METHOD,
        4 | 5 => &N_PATH,
        6 | 7 => &N_SCHEME,
        8 | 9 | 10 | 11 | 12 | 13 | 14 => &N_STATUS,
        15 => &N_ACCEPT_CHARSET,
        16 => &N_ACCEPT_ENCODING,
        17 => &N_ACCEPT_LANGUAGE,
        18 => &N_ACCEPT_RANGES,
        19 => &N_ACCEPT,
        20 => &N_ACCESS_CONTROL_ALLOW_ORIGIN,
        21 => &N_AGE,
        22 => &N_ALLOW,
        23 => &N_AUTHORIZATION,
        24 => &N_CACHE_CONTROL,
        25 => &N_CONTENT_DISPOSITION,
        26 => &N_CONTENT_ENCODING,
        27 => &N_CONTENT_LANGUAGE,
        28 => &N_CONTENT_LENGTH,
        29 => &N_CONTENT_LOCATION,
        30 => &N_CONTENT_RANGE,
        31 => &N_CONTENT_TYPE,
        32 => &N_COOKIE,
        33 => &N_DATE,
        34 => &N_ETAG,
        35 => &N_EXPECT,
        36 => &N_EXPIRES,
        37 => &N_FROM,
        38 => &N_HOST,
        39 => &N_IF_MATCH,
        40 => &N_IF_MODIFIED_SINCE,
        41 => &N_IF_NONE_MATCH,
        42 => &N_IF_RANGE,
        43 => &N_IF_UNMODIFIED_SINCE,
        44 => &N_LAST_MODIFIED,
        45 => &N_LINK,
        46 => &N_LOCATION,
        47 => &N_MAX_FORWARDS,
        48 => &N_PROXY_AUTHENTICATE,
        49 => &N_PROXY_AUTHORIZATION,
        50 => &N_RANGE,
        51 => &N_REFERER,
        52 => &N_REFRESH,
        53 => &N_RETRY_AFTER,
        54 => &N_SERVER,
        55 => &N_SET_COOKIE,
        56 => &N_STRICT_TRANSPORT_SECURITY,
        57 => &N_TRANSFER_ENCODING,
        58 => &N_USER_AGENT,
        59 => &N_VARY,
        60 => &N_VIA,
        _ => &N_WWW_AUTHENTICATE,
    }
}

/// The value of entry `i`, counted from 1; empty where the entry fixes only a name.
pub fn static_value(i: usize) -> (value: &'static [u8])
    requires
        1 <= i <= STATIC_TABLE_LEN,
    ensures
        value@ == entry_value(i),
{
    reveal(entry_value);
    match i {
        2 => &V_GET,
        3 => &V_POST,
        4 => &V_ROOT,
        5 => &V_INDEX_HTML,
        6 => &V_HTTP,
        7 => &V_HTTPS,
        8 => &V_200,
        9 => &V_204,
        10 => &V_206,
        11 => &V_304,
        12 => &V_400,
        13 => &V_404,
        14 => &V_500,
        16 => &V_GZIP_DEFLATE,
        _ => &EMPTY,
    }
}

/// No name in the static table is longer than 27 bytes.
pub proof fn entry_name_bound(i: usize)
    requires
        1 <= i <= STATIC_TABLE_LEN,
    ensures
        entry_name(i).len() <= 27,
{
    reveal(entry_name);
}

/// How a field is found in the static table.
#[derive(Debug, Clone, Copy, PartialEq, Eq, Structural)]
pub enum LookupResult {
    /// Name and value are those of the entry.
    ExactMatch(usize),
    /// The name is that of the entry.
    NameMatch(usize),
    /// No entry has the name.
    NotFound,
}

/// The first entry from `i` on with this name and this value, if any.
pub open spec fn first_exact(name: Seq<u8>, value: Seq<u8>, i: int) -> Option<usize>
    decreases STATIC_TABLE_LEN + 1 - i,
{
    if i > STATIC_TABLE_LEN {
        None
    } else if entry_name(i as usize) == name && entry_value(i as usize) == value {
        Some(i as usize)
    } else {
        first_exact(name, value, i + 1)
    }
}

/// The first entry from `i` on with this name, if any.
pub open spec fn first_name(name: Seq<u8>, i: int) -> Option<usize>
    decreases STATIC_TABLE_LEN + 1 - i,
{
    if i > STATIC_TABLE_LEN {
        None
    } else if entry_name(i as usize) == name {
        Some(i as usize)
    } else {
        first_name(name, i + 1)
    }
}

/// What looking up a field gives. An empty value matches no entry exactly.
pub open spec fn found(name: Seq<u8>, value: Seq<u8>) -> LookupResult {
    if value.len() > 0 && first_exact(name, value, 1) is Some {
        LookupResult::ExactMatch(first_exact(name, value, 1)->0)
    } else if first_name(name, 1) is Some {
        LookupResult::NameMatch(first_name(name, 1)->0)
    } else {
        LookupResult::NotFound
    }
}

/// Looks up a field in the static table.
pub fn lookup(name: &[u8], value: &[u8]) -> (r: LookupResult)
    ensures
        r == found(name@, value@),
        match r {
            LookupResult::ExactMatch(i) => 1 <= i <= STATIC_TABLE_LEN,
            LookupResult::NameMatch(i) => 1 <= i <= STATIC_TABLE_LEN,
            LookupResult::NotFound => true,
        },
{
    let mut named: Option<usize> = None;
    let mut i: usize = 1;
    while i <= STATIC_TABLE_LEN
        invariant
            1 <= i <= STATIC_TABLE_LEN + 1,
            value@.len() > 0 ==> first_exact(name@, value@, 1) == first_exact(
                name@,
                value@,
                i as int,
            ),
            named is Some ==> 1 <= named->0 <= STATIC_TABLE_LEN,
            named is Some ==> first_name(name@, 1) == named,
            named is None ==> first_name(name@, 1) == first_name(name@, i as int),
        decreases STATIC_TABLE_LEN + 1 - i,
    {
        if bytes::bytes_equal(static_name(i), name) {
            if value.len() > 0 && bytes::bytes_equal(static_value(i), value) {
                return LookupResult::ExactMatch(i);
            }
            if named.is_none() {
                named = Some(i);
            }
        }
        i = i + 1;
    }
    match named {
        Some(n) => LookupResult::NameMatch(n),
        None => LookupResult::NotFound,
    }
}

/// A field that is found stands in the table where it was found.
pub proof fn found_is_entry(name: Seq<u8>, value: Seq<u8>)
    ensures
        match found(name, value) {
            LookupResult::ExactMatch(i) => 1 <= i <= STATIC_TABLE_LEN && entry_name(i) == name
                && entry_value(i) == value && value.len() > 0,
            LookupResult::NameMatch(i) => 1 <= i <= STATIC_TABLE_LEN && entry_name(i) == name,
            LookupResult::NotFound => forall|i: usize|
                1 <= i <= STATIC_TABLE_LEN ==> #[trigger] entry_name(i) != name,
        },
{
    lemma_first_exact(name, value, 1);
    lemma_first_name(name, 1);
}

proof fn lemma_first_exact(name: Seq<u8>, value: Seq<u8>, i: int)
    requires
        1 <= i <= STATIC_TABLE_LEN + 1,
    ensures
        first_exact(name, value, i) matches Some(k) ==> i <= k <= STATIC_TABLE_LEN && entry_name(k)
            == name && entry_value(k) == value,
    decreases STATIC_TABLE_LEN + 1 - i,
{
    if i <= STATIC_TABLE_LEN {
        lemma_first_exact(name, value, i + 1);
    }
}

proof fn lemma_first_name(name: Seq<u8>, i: int)
    requires
        1 <= i <= STATIC_TABLE_LEN + 1,
    ensures
        match first_name(name, i) {
            Some(k) => i <= k <= STATIC_TABLE_LEN && entry_name(k) == name,
            None => forall|k: usize| i <= k <= STATIC_TABLE_LEN ==> #[trigger] entry_name(k) != name,
        },
    decreases STATIC_TABLE_LEN + 1 - i,
{
    if i <= STATIC_TABLE_LEN {
        lemma_first_name(name, i + 1);
        if first_name(name, i) is None {
            assert forall|k: usize| i <= k <= STATIC_TABLE_LEN implies #[trigger] entry_name(k)
                != name by {
                if k != i {
                    assert(i + 1 <= k);
                }
            }
        }
    }
}

} // verus!
