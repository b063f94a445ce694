use dns_resolver::build_query_with_id;
use dns_resolver::build_query;
use dns_resolver::class::Class;
use dns_resolver::dns_header::DNSHeader;
use dns_resolver::dns_packet::DNSPacket;
use dns_resolver::dns_question::DNSQuestion;
use dns_resolver::dns_record::DNSRecord;
use dns_resolver::encode_dns_name;
use dns_resolver::errors::DnsError;
use dns_resolver::ipv4::Ipv4Addr;
use dns_resolver::record_data::RecordData;
use dns_resolver::record_type::RecordType;

#[test]
fn test_header_to_bytes() {
    let header = DNSHeader::new(0x1234, 0x0100);
    let bytes = header.to_bytes();
    assert_eq!(bytes, vec![0x12, 0x34, 0x01, 0x00, 0, 1, 0, 0, 0, 0, 0, 0]);
}

#[test]
fn test_header_parse() {
    let bytes = [0x12u8, 0x34, 0x01, 0x00, 0, 1, 0, 2, 0, 3, 0, 4, 0xAA, 0xBB];
    let header = DNSHeader::parse(&bytes).unwrap();
    assert_eq!(header.id, 0x1234);
    assert_eq!(header.flags, 0x0100);
    assert_eq!(header.num_questions(), 1);
    assert_eq!(header.num_answers(), 2);
    assert_eq!(header.num_authorities(), 3);
    assert_eq!(header.num_additionals(), 4);
}

#[test]
fn test_header_parse_truncated() {
    let bytes = [0u8; 11];
    assert_eq!(DNSHeader::parse(&bytes), Err(DnsError::Truncated));
}

#[test]
fn test_question_to_bytes() {
    let question = DNSQuestion::new(encode_dns_name("google.com"), RecordType::A, Class::In);
    let mut expected = vec![6, 103, 111, 111, 103, 108, 101, 3, 99, 111, 109, 0];
    expected.extend_from_slice(&[0, 1, 0, 1]);
    assert_eq!(question.to_bytes(), expected);
}

#[test]
fn test_build_query_with_id() {
    let bytes = build_query_with_id(0xABCD, "google.com", RecordType::A, 0x0100);
    let mut expected = vec![0xAB, 0xCD, 0x01, 0x00, 0, 1, 0, 0, 0, 0, 0, 0];
    expected.extend_from_slice(&[6, 103, 111, 111, 103, 108, 101, 3, 99, 111, 109, 0]);
    expected.extend_from_slice(&[0, 1, 0, 1]);
    assert_eq!(bytes, expected);
}

#[test]
fn test_build_query_random_id() {
    let bytes = build_query("google.com", RecordType::A, 0);
    // Everything but the two transaction-id bytes is fixed.
    let mut expected_tail = vec![0x00, 0x00, 0, 1, 0, 0, 0, 0, 0, 0];
    expected_tail.extend_from_slice(&[6, 103, 111, 111, 103, 108, 101, 3, 99, 111, 109, 0]);
    expected_tail.extend_from_slice(&[0, 1, 0, 1]);
    assert_eq!(bytes.len(), 28);
    assert_eq!(&bytes[2..], &expected_tail[..]);
}

/// A response to an A query for google.com: the question, then one
/// answer whose owner name is a pointer back to the question's name.
fn sample_response() -> Vec<u8> {
    let mut data = vec![0x12, 0x34, 0x81, 0x80, 0, 1, 0, 1, 0, 0, 0, 0];
    data.extend_from_slice(&encode_dns_name("google.com"));
    data.extend_from_slice(&[0, 1, 0, 1]);
    data.extend_from_slice(&[0xC0, 0x0C]);
    data.extend_from_slice(&[0, 1, 0, 1]);
    data.extend_from_slice(&[0, 0, 0, 60]);
    data.extend_from_slice(&[0, 4]);
    data.extend_from_slice(&[93, 184, 216, 34]);
    data
}

#[test]
fn test_parse_packet() {
    let data = sample_response();
    let packet = DNSPacket::parse(&data).unwrap();

    assert_eq!(packet.header().id, 0x1234);
    assert_eq!(packet.questions().len(), 1);
    assert_eq!(packet.questions()[0].name, encode_dns_name("google.com"));
    assert_eq!(packet.questions()[0].type_, RecordType::A);
    assert_eq!(packet.questions()[0].class, Class::In);

    assert_eq!(packet.answers().len(), 1);
    let answer = &packet.answers()[0];
    assert_eq!(answer.name(), &b"google.com"[..]);
    assert_eq!(answer.type_(), RecordType::A);
    assert_eq!(answer.class(), 1);
    assert_eq!(answer.ttl(), 60);
    assert_eq!(answer.data().get_A(), Some(&Ipv4Addr::new(93, 184, 216, 34)));
    assert_eq!(answer.data().get_NS(), None);
    assert_eq!(answer.data().get_Other(), None);

    assert!(packet.authorities().is_empty());
    assert!(packet.additionals().is_empty());
}

#[test]
fn test_parse_packet_truncated_records() {
    // The header claims two answers but the buffer holds only one.
    let mut data = sample_response();
    data[7] = 2;
    assert_eq!(DNSPacket::parse(&data), Err(DnsError::Truncated));
}

#[test]
fn test_parse_packet_short_header() {
    assert_eq!(DNSPacket::parse(&[0u8; 5]), Err(DnsError::Truncated));
}

#[test]
fn test_parse_packet_unsupported_class() {
    let mut data = sample_response();
    // The question's class bytes sit right after its name.
    let class_at = 12 + encode_dns_name("google.com").len() + 2;
    data[class_at] = 0;
    data[class_at + 1] = 2;
    assert_eq!(DNSPacket::parse(&data), Err(DnsError::UnsupportedClass));
}

#[test]
fn test_record_parse_ns_compressed() {
    // An NS record whose payload points back at a name stored earlier.
    let mut data = vec![0u8; 4];
    let tail = encode_dns_name("gtld-servers.net");
    data.extend_from_slice(&tail);
    let record_at = data.len();
    data.extend_from_slice(&[0]);
    data.extend_from_slice(&[0, 2, 0, 1]);
    data.extend_from_slice(&[0, 0, 0, 10]);
    data.extend_from_slice(&[0, 2]);
    let rdata_at = data.len();
    data.extend_from_slice(&[0xC0, 0x04]);

    let (record, consumed) = DNSRecord::parse(&data, record_at).unwrap();
    assert_eq!(record.name(), &b""[..]);
    assert_eq!(record.type_(), RecordType::NS);
    assert_eq!(record.data().get_NS(), Some("gtld-servers.net"));
    assert_eq!(consumed, rdata_at + 2 - record_at);
}

#[test]
fn test_record_parse_cname_stored_as_name() {
    let mut data = vec![1, b'x', 0];
    data.extend_from_slice(&[0, 5, 0, 1]);
    data.extend_from_slice(&[0, 0, 1, 0]);
    data.extend_from_slice(&[0, 6]);
    data.extend_from_slice(&encode_dns_name("y.io"));

    let (record, consumed) = DNSRecord::parse(&data, 0).unwrap();
    assert_eq!(record.type_(), RecordType::CNAME);
    assert_eq!(record.data().get_NS(), Some("y.io"));
    assert_eq!(consumed, data.len());
}

#[test]
fn test_record_parse_opaque() {
    // An unknown type (16, TXT) keeps exactly the declared bytes.
    let mut data = vec![1, b'x', 0];
    data.extend_from_slice(&[0, 16, 0, 1]);
    data.extend_from_slice(&[0, 0, 1, 0]);
    data.extend_from_slice(&[0, 3]);
    data.extend_from_slice(&[9, 8, 7]);
    data.extend_from_slice(&[0xFF, 0xFF]);

    let (record, consumed) = DNSRecord::parse(&data, 0).unwrap();
    assert_eq!(record.type_(), RecordType::NotImplemented);
    assert_eq!(record.data().get_Other(), Some(&[9u8, 8, 7][..]));
    assert_eq!(consumed, data.len() - 2);
}

#[test]
fn test_record_parse_bad_rdlength() {
    // An A record must declare exactly four payload bytes.
    let mut data = vec![1, b'x', 0];
    data.extend_from_slice(&[0, 1, 0, 1]);
    data.extend_from_slice(&[0, 0, 1, 0]);
    data.extend_from_slice(&[0, 5]);
    data.extend_from_slice(&[1, 2, 3, 4, 5]);
    assert_eq!(DNSRecord::parse(&data, 0), Err(DnsError::BadRdLength));
}

#[test]
fn test_record_parse_truncated_fixed_fields() {
    let data = vec![1, b'x', 0, 0, 1, 0, 1];
    assert_eq!(DNSRecord::parse(&data, 0), Err(DnsError::Truncated));
}

#[test]
fn test_class_and_type_codes() {
    assert_eq!(Class::from_code(1), Ok(Class::In));
    assert_eq!(Class::from_code(3), Err(DnsError::UnsupportedClass));
    assert_eq!(Class::In.code(), 1);

    assert_eq!(RecordType::from_code(1), RecordType::A);
    assert_eq!(RecordType::from_code(2), RecordType::NS);
    assert_eq!(RecordType::from_code(5), RecordType::CNAME);
    assert_eq!(RecordType::from_code(16), RecordType::NotImplemented);
    assert_eq!(RecordType::A.code(), 1);
    assert_eq!(RecordType::NS.code(), 2);
    assert_eq!(RecordType::CNAME.code(), 5);
}

#[test]
fn test_ipv4_octets() {
    let ip = Ipv4Addr::new(93, 184, 216, 34);
    assert_eq!(ip.octets(), [93, 184, 216, 34]);
}

#[test]
fn test_record_data_accessors() {
    let a = RecordData::A(Ipv4Addr::new(1, 2, 3, 4));
    assert!(a.get_A().is_some());
    assert!(a.get_NS().is_none());
    let ns = RecordData::NS("ns1.example.com".to_string());
    assert_eq!(ns.get_NS(), Some("ns1.example.com"));
    assert!(ns.get_A().is_none());
    let other = RecordData::Other(vec![1, 2]);
    assert_eq!(other.get_Other(), Some(&[1u8, 2][..]));
}
