//! Tests of the HPACK codec.

use milli_http::hpack::codec::{HpackDecoder, HpackEncoder};
use milli_http::hpack::static_table;

#[test]
fn roundtrip_indexed() {
    let encoder = HpackEncoder::new();
    let mut decoder = HpackDecoder::new();
    let headers: &[(&[u8], &[u8])] = &[(b":method", b"GET")];
    let mut buf = [0u8; 256];
    let n = encoder.encode(headers, &mut buf).unwrap();
    // :method GET is index 2 → single byte 0x82
    assert_eq!(n, 1);
    assert_eq!(buf[0], 0x82);

    let mut c = Vec::new();
    let consumed = decoder
        .decode(&buf[..n], &mut c)
        .unwrap();
    assert_eq!(consumed, n);
    assert_eq!(c.len(), 1);
    assert_eq!(c[0].name.as_slice(), b":method");
    assert_eq!(c[0].value.as_slice(), b"GET");
}

#[test]
fn roundtrip_name_ref() {
    let encoder = HpackEncoder::new();
    let mut decoder = HpackDecoder::new();
    let headers: &[(&[u8], &[u8])] = &[(b":path", b"/api/users")];
    let mut buf = [0u8; 256];
    let n = encoder.encode(headers, &mut buf).unwrap();

    let mut c = Vec::new();
    decoder
        .decode(&buf[..n], &mut c)
        .unwrap();
    assert_eq!(c.len(), 1);
    assert_eq!(c[0].name.as_slice(), b":path");
    assert_eq!(c[0].value.as_slice(), b"/api/users");
}

#[test]
fn roundtrip_literal() {
    let encoder = HpackEncoder::new();
    let mut decoder = HpackDecoder::new();
    let headers: &[(&[u8], &[u8])] = &[(b"x-custom", b"hello")];
    let mut buf = [0u8; 256];
    let n = encoder.encode(headers, &mut buf).unwrap();

    let mut c = Vec::new();
    decoder
        .decode(&buf[..n], &mut c)
        .unwrap();
    assert_eq!(c.len(), 1);
    assert_eq!(c[0].name.as_slice(), b"x-custom");
    assert_eq!(c[0].value.as_slice(), b"hello");
}

#[test]
fn roundtrip_multiple_headers() {
    let encoder = HpackEncoder::new();
    let mut decoder = HpackDecoder::new();
    let headers: &[(&[u8], &[u8])] = &[
        (b":method", b"GET"),
        (b":path", b"/"),
        (b":scheme", b"https"),
        (b":authority", b"example.com"),
        (b"accept", b"text/html"),
    ];
    let mut buf = [0u8; 512];
    let n = encoder.encode(headers, &mut buf).unwrap();

    let mut c = Vec::new();
    decoder
        .decode(&buf[..n], &mut c)
        .unwrap();
    assert_eq!(c.len(), 5);
    assert_eq!(c[0].name.as_slice(), b":method");
    assert_eq!(c[0].value.as_slice(), b"GET");
    assert_eq!(c[1].name.as_slice(), b":path");
    assert_eq!(c[1].value.as_slice(), b"/");
    assert_eq!(c[2].name.as_slice(), b":scheme");
    assert_eq!(c[2].value.as_slice(), b"https");
    assert_eq!(c[3].name.as_slice(), b":authority");
    assert_eq!(c[3].value.as_slice(), b"example.com");
    assert_eq!(c[4].name.as_slice(), b"accept");
    assert_eq!(c[4].value.as_slice(), b"text/html");
}

#[test]
fn roundtrip_empty() {
    let encoder = HpackEncoder::new();
    let mut decoder = HpackDecoder::new();
    let mut buf = [0u8; 256];
    let n = encoder.encode(&[], &mut buf).unwrap();
    assert_eq!(n, 0);

    let mut c = Vec::new();
    decoder.decode(&buf[..n], &mut c).unwrap();
    assert_eq!(c.len(), 0);
}

#[test]
fn roundtrip_status_200() {
    let encoder = HpackEncoder::new();
    let mut decoder = HpackDecoder::new();
    let headers: &[(&[u8], &[u8])] = &[(b":status", b"200")];
    let mut buf = [0u8; 256];
    let n = encoder.encode(headers, &mut buf).unwrap();
    // :status 200 is index 8 → 0x88
    assert_eq!(n, 1);
    assert_eq!(buf[0], 0x88);

    let mut c = Vec::new();
    decoder
        .decode(&buf[..n], &mut c)
        .unwrap();
    assert_eq!(c[0].name.as_slice(), b":status");
    assert_eq!(c[0].value.as_slice(), b"200");
}

#[test]
fn roundtrip_all_exact_match_entries() {
    let encoder = HpackEncoder::new();
    let mut decoder = HpackDecoder::new();
    // Only entries with non-empty values can exact-match
    for i in 0..61 {
        let name = static_table::static_name(i + 1);
        let value = static_table::static_value(i + 1);
        if !value.is_empty() {
            let headers: &[(&[u8], &[u8])] = &[(name, value)];
            let mut buf = [0u8; 256];
            let n = encoder.encode(headers, &mut buf).unwrap();

            let mut c = Vec::new();
            decoder
                .decode(&buf[..n], &mut c)
                .unwrap();
            assert_eq!(c.len(), 1, "failed at index {}", i + 1);
            assert_eq!(c[0].name.as_slice(), name);
            assert_eq!(c[0].value.as_slice(), value);
        }
    }
}

#[test]
fn buffer_too_small_encode() {
    let encoder = HpackEncoder::new();
    let headers: &[(&[u8], &[u8])] = &[(b"x-long-header-name", b"a-long-value-here")];
    let mut buf = [0u8; 2];
    assert!(encoder.encode(headers, &mut buf).is_err());
}

#[test]
fn decode_invalid_index() {
    let mut decoder = HpackDecoder::new();
    // Indexed field with index 62 (out of range for 61-entry table)
    let buf = [0x80 | 62]; // 0xBE
    assert!(decoder.decode(&buf, &mut Vec::new()).is_err());
}

#[test]
fn decode_index_zero_is_error() {
    let mut decoder = HpackDecoder::new();
    // Index 0 is not valid in indexed representation
    let buf = [0x80]; // index 0
    assert!(decoder.decode(&buf, &mut Vec::new()).is_err());
}

// ====== RFC 7541 Wire-Format Decode Tests ======

#[test]
fn rfc7541_c2_1_literal_with_indexing() {
    // RFC 7541 Appendix C.2.1: Literal Header Field with Incremental Indexing
    // custom-key: custom-header
    let input: &[u8] = &[
        0x40, 0x0a, 0x63, 0x75, 0x73, 0x74, 0x6f, 0x6d, 0x2d, 0x6b, 0x65, 0x79, 0x0d, 0x63,
        0x75, 0x73, 0x74, 0x6f, 0x6d, 0x2d, 0x68, 0x65, 0x61, 0x64, 0x65, 0x72,
    ];
    let mut decoder = HpackDecoder::new();
    let mut c = Vec::new();
    let consumed = decoder
        .decode(input, &mut c)
        .unwrap();
    assert_eq!(consumed, input.len());
    assert_eq!(c.len(), 1);
    assert_eq!(c[0].name.as_slice(), b"custom-key");
    assert_eq!(c[0].value.as_slice(), b"custom-header");
}

#[test]
fn rfc7541_c2_2_literal_no_indexing() {
    // RFC 7541 Appendix C.2.2: Literal Header Field without Indexing
    // :path: /sample/path (name index 4 = :path)
    let input: &[u8] = &[
        0x04, 0x0c, 0x2f, 0x73, 0x61, 0x6d, 0x70, 0x6c, 0x65, 0x2f, 0x70, 0x61, 0x74, 0x68,
    ];
    let mut decoder = HpackDecoder::new();
    let mut c = Vec::new();
    decoder
        .decode(input, &mut c)
        .unwrap();
    assert_eq!(c.len(), 1);
    assert_eq!(c[0].name.as_slice(), b":path");
    assert_eq!(c[0].value.as_slice(), b"/sample/path");
}

#[test]
fn rfc7541_c2_3_literal_never_indexed() {
    // RFC 7541 Appendix C.2.3: Literal Header Field Never Indexed
    // password: secret
    let input: &[u8] = &[
        0x10, 0x08, 0x70, 0x61, 0x73, 0x73, 0x77, 0x6f, 0x72, 0x64, 0x06, 0x73, 0x65, 0x63,
        0x72, 0x65, 0x74,
    ];
    let mut decoder = HpackDecoder::new();
    let mut c = Vec::new();
    decoder
        .decode(input, &mut c)
        .unwrap();
    assert_eq!(c.len(), 1);
    assert_eq!(c[0].name.as_slice(), b"password");
    assert_eq!(c[0].value.as_slice(), b"secret");
}

#[test]
fn rfc7541_c4_indexed_method_get() {
    // Indexed representation: index 2 = :method GET
    let input: &[u8] = &[0x82];
    let mut decoder = HpackDecoder::new();
    let mut c = Vec::new();
    decoder
        .decode(input, &mut c)
        .unwrap();
    assert_eq!(c.len(), 1);
    assert_eq!(c[0].name.as_slice(), b":method");
    assert_eq!(c[0].value.as_slice(), b"GET");
}

#[test]
fn rfc7541_c4_indexed_status_200() {
    // Indexed representation: index 8 = :status 200
    let input: &[u8] = &[0x88];
    let mut decoder = HpackDecoder::new();
    let mut c = Vec::new();
    decoder
        .decode(input, &mut c)
        .unwrap();
    assert_eq!(c.len(), 1);
    assert_eq!(c[0].name.as_slice(), b":status");
    assert_eq!(c[0].value.as_slice(), b"200");
}

/// Incremental-indexing literal in one block, indexed reference in the
/// next: the wire pattern hyper produces for repeated `:authority`.
#[test]
fn dynamic_insert_then_reference_across_blocks() {
    let mut decoder = HpackDecoder::new();
    // 0x42: literal w/ incremental indexing, name = static 2 (:method);
    // value = "PUT" raw. Inserts (:method, PUT) at index 62.
    let block1 = [0x42, 0x03, b'P', b'U', b'T'];
    let mut c = Vec::new();
    decoder.decode(&block1, &mut c).unwrap();
    assert_eq!(c[0].value.as_slice(), b"PUT");

    // 0xbe: indexed field, index 62 (first dynamic entry).
    let block2 = [0xbe];
    let mut c = Vec::new();
    decoder.decode(&block2, &mut c).unwrap();
    assert_eq!(c[0].name.as_slice(), b":method");
    assert_eq!(c[0].value.as_slice(), b"PUT");
}

/// An entry inserted earlier in the same block is referenceable later in
/// that block.
#[test]
fn dynamic_reference_within_block() {
    let mut decoder = HpackDecoder::new();
    let block = [0x42, 0x03, b'P', b'U', b'T', 0xbe];
    let mut c = Vec::new();
    decoder.decode(&block, &mut c).unwrap();
    assert_eq!(c.len(), 2);
    assert_eq!(c[1].value.as_slice(), b"PUT");
}

/// A literal field may take its *name* from a dynamic entry.
#[test]
fn dynamic_name_reference() {
    let mut decoder = HpackDecoder::new();
    // Insert (x-custom, a) — new-name incremental literal (0x40).
    let block1 = [
        0x40, 0x08, b'x', b'-', b'c', b'u', b's', b't', b'o', b'm', 0x01, b'a',
    ];
    let mut c = Vec::new();
    decoder.decode(&block1, &mut c).unwrap();
    // Literal without indexing, name = index 62 (prefix-4 escape: 0x0f +
    // 47), value "b".
    let block2 = [0x0f, 0x2f, 0x01, b'b'];
    let mut c = Vec::new();
    decoder.decode(&block2, &mut c).unwrap();
    assert_eq!(c[0].name.as_slice(), b"x-custom");
    assert_eq!(c[0].value.as_slice(), b"b");
}

/// A size update to 0 (the peer acknowledging our
/// SETTINGS_HEADER_TABLE_SIZE) evicts everything; stale references then
/// fail the block.
#[test]
fn size_update_to_zero_evicts() {
    let mut decoder = HpackDecoder::new();
    let block1 = [0x42, 0x03, b'P', b'U', b'T'];
    decoder.decode(&block1, &mut Vec::new()).unwrap();
    // 0x20: dynamic table size update, new size 0.
    decoder.decode(&[0x20], &mut Vec::new()).unwrap();
    assert!(decoder.decode(&[0xbe], &mut Vec::new()).is_err());
    // Inserts while the table max is 0 are legal but not retained (§4.4).
    decoder.decode(&block1, &mut Vec::new()).unwrap();
    assert!(decoder.decode(&[0xbe], &mut Vec::new()).is_err());
}

/// A size update above the RFC-initial 4096 is rejected — we never
/// advertise more.
#[test]
fn size_update_above_initial_is_error() {
    let mut decoder = HpackDecoder::new();
    // Size update, 5-bit prefix: 0x3f (=31) + varint 4066 → 4097.
    let block = [0x3f, 0xe2, 0x1f];
    assert!(decoder.decode(&block, &mut Vec::new()).is_err());
}
