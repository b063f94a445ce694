use dns_resolver::errors::DnsError;
use dns_resolver::{build_query_checked, decode_compressed_name, decode_name, encode_dns_name,
    name_is_encodable};
use dns_resolver::record_type::RecordType;

#[test]
fn test_encode() {
    let name = "google.com";
    let expected: Vec<u8> = vec![6, 103, 111, 111, 103, 108, 101, 3, 99, 111, 109, 0];
    let result = encode_dns_name(name);

    assert_eq!(result, expected);
}

#[test]
fn lib_test_encode() {
    let name = "google.com";
    let expected: Vec<u8> = vec![6, 103, 111, 111, 103, 108, 101, 3, 99, 111, 109, 0];
    let result = encode_dns_name(name);

    assert_eq!(result, expected);
}

#[test]
fn test_decode_name() {
    let mut data = [0u8; 1024];
    let mut index = 0;
    for p in "www.google.com".split('.') {
        data[index] = p.len() as u8;
        index += 1;
        for c in p.chars() {
            data[index] = c as u8;
            index += 1;
        }
    }

    let decoded_name = decode_name(&data[..], 0).unwrap();
    assert_eq!(decoded_name.0, "www.google.com");
}

#[test]
fn lib_test_decode_name() {
    let mut data = [0u8; 1024];
    let mut index = 0;
    for p in "www.google.com".split('.') {
        data[index] = p.len() as u8;
        index += 1;
        for c in p.chars() {
            data[index] = c as u8;
            index += 1;
        }
    }

    let decoded_name = decode_name(&data[..], 0).unwrap();
    assert_eq!(decoded_name.0, "www.google.com");
}

#[test]
fn test_round_trip() {
    for name in ["example.com", "a.b.c.d", "www.gtld-servers.net", "x"] {
        let wire = encode_dns_name(name);
        let (decoded, consumed) = decode_name(&wire, 0).unwrap();
        assert_eq!(decoded, name);
        assert_eq!(consumed, name.len() + 2);
    }
}

#[test]
fn test_decode_consumes_to_terminator() {
    // "ab" then trailing garbage: only the name's own bytes count.
    let data = [2u8, b'a', b'b', 0, 9, 9, 9];
    let (decoded, consumed) = decode_name(&data, 0).unwrap();
    assert_eq!(decoded, "ab");
    assert_eq!(consumed, 4);
}

#[test]
fn test_decode_empty_name() {
    // A lone terminator is the root name: empty, one byte consumed.
    let data = [0u8, 7, 7];
    let (decoded, consumed) = decode_name(&data, 0).unwrap();
    assert_eq!(decoded, "");
    assert_eq!(consumed, 1);
}

#[test]
fn test_compression() {
    // "example.com" as plain labels at offset 20; at offset 40 a pointer
    // 0xC0 0x14 back to offset 20. Both decode to the same name; the
    // pointer form occupies exactly its own two bytes.
    let mut data = [0u8; 64];
    let wire = encode_dns_name("example.com");
    data[20..20 + wire.len()].copy_from_slice(&wire);
    data[40] = 0xC0;
    data[41] = 0x14;

    let (first, first_len) = decode_name(&data, 20).unwrap();
    assert_eq!(first, "example.com");
    assert_eq!(first_len, 13);

    let (second, second_len) = decode_name(&data, 40).unwrap();
    assert_eq!(second, "example.com");
    assert_eq!(second_len, 2);

    // The pointer entry point reports the size measured at the target.
    let (via_pointer, target_len) = decode_compressed_name(&data, 40).unwrap();
    assert_eq!(via_pointer, "example.com");
    assert_eq!(target_len, 13);
}

#[test]
fn test_compression_mid_name() {
    // A label followed by a pointer: the labels behind the pointer are
    // appended and the cursor advances past the two pointer bytes only.
    let mut data = [0u8; 32];
    let tail = encode_dns_name("com");
    data[0..tail.len()].copy_from_slice(&tail);
    data[10] = 3;
    data[11] = b'w';
    data[12] = b'w';
    data[13] = b'w';
    data[14] = 0xC0;
    data[15] = 0x00;

    let (name, consumed) = decode_name(&data, 10).unwrap();
    assert_eq!(name, "www.com");
    assert_eq!(consumed, 6);
}

#[test]
fn test_forward_pointer_rejected() {
    // A pointer at offset 12 whose target is offset 12 itself.
    let mut data = [0u8; 32];
    data[10] = 1;
    data[11] = b'a';
    data[12] = 0xC0;
    data[13] = 0x0C;
    assert_eq!(decode_name(&data, 10), Err(DnsError::MalformedCompression));

    // A self pointer right at the start of the name.
    let self_ptr = [0xC0u8, 0x00];
    assert_eq!(decode_name(&self_ptr, 0), Err(DnsError::MalformedCompression));

    // A forward pointer: target beyond the pointer's offset.
    let fwd = [0xC0u8, 0x10, 0, 0];
    assert_eq!(decode_name(&fwd, 0), Err(DnsError::MalformedCompression));
}

#[test]
fn test_pointer_loop_rejected() {
    // Two names pointing at each other never loop: whichever is decoded,
    // the backward-progress check fails the chain.
    let mut data = [0u8; 8];
    data[0] = 0xC0;
    data[1] = 0x02;
    data[2] = 0xC0;
    data[3] = 0x00;
    assert_eq!(decode_name(&data, 0), Err(DnsError::MalformedCompression));
    assert_eq!(decode_name(&data, 2), Err(DnsError::MalformedCompression));
}

#[test]
fn test_truncated_name() {
    // A label that declares more bytes than the buffer holds.
    let data = [3u8, b'a', b'b'];
    assert_eq!(decode_name(&data, 0), Err(DnsError::Truncated));

    // A cursor at or past the end of the buffer.
    assert_eq!(decode_name(&data, 3), Err(DnsError::Truncated));
    assert_eq!(decode_name(&[], 0), Err(DnsError::Truncated));

    // A pointer byte with no second byte after it.
    let half_pointer = [0u8, 0xC0];
    assert_eq!(decode_name(&half_pointer, 1), Err(DnsError::Truncated));
}

#[test]
fn test_invalid_label() {
    // 0xFF can open no UTF-8 sequence, so the label is rejected.
    let data = [1u8, 0xFF, 0];
    assert_eq!(decode_name(&data, 0), Err(DnsError::InvalidLabel));
}

#[test]
fn test_multibyte_label() {
    // A label holding a two-byte UTF-8 scalar decodes to its character.
    let data = [3u8, b'h', 0xC3, 0xA9, 0];
    let (name, consumed) = decode_name(&data, 0).unwrap();
    assert_eq!(name, "h\u{e9}");
    assert_eq!(consumed, 5);
}

#[test]
fn test_name_is_encodable() {
    assert!(name_is_encodable("example.com"));
    assert!(name_is_encodable(""));
    let long_label = "a".repeat(255);
    assert!(name_is_encodable(&long_label));
    let too_long = "a".repeat(256);
    assert!(!name_is_encodable(&too_long));
    let mixed = format!("www.{}.com", too_long);
    assert!(!name_is_encodable(&mixed));
}

#[test]
fn test_label_too_long() {
    let too_long = "a".repeat(256);
    let r = build_query_checked(&too_long, RecordType::A, 0);
    assert_eq!(r, Err(DnsError::LabelTooLong));
}
