use dns_wire::message::{Class, Message, QueryType, Record, ResultCode};
use dns_wire::name::{read_dns_encoded_name, write_dns_encoded_name};
use dns_wire::stream::{DnsError, DnsReader, DnsWriter};

/// A canonical single-question query: id 5475, recursion desired, one
/// question for google.com, type A, class IN.
fn query_packet() -> Vec<u8> {
    let mut bytes: Vec<u8> = vec![
        0x15, 0x63, // id 5475
        0x01, 0x00, // flags: recursion desired only
        0x00, 0x01, // one question
        0x00, 0x00, // no answers
        0x00, 0x00, // no authority entries
        0x00, 0x00, // no resource entries
    ];
    bytes.extend_from_slice(&[0x06]);
    bytes.extend_from_slice(b"google");
    bytes.extend_from_slice(&[0x03]);
    bytes.extend_from_slice(b"com");
    bytes.extend_from_slice(&[0x00]);
    bytes.extend_from_slice(&[0x00, 0x01]); // type A
    bytes.extend_from_slice(&[0x00, 0x01]); // class IN
    bytes
}

#[test]
fn deserialize_request_message() {
    let mut reader = DnsReader::from(query_packet());

    let message: Message = Message::from(&mut reader).unwrap();

    // Message should have id 5475 and one question
    assert_eq!(message.header.id, 5475);
    assert_eq!(message.header.questions, 1);
    assert_eq!(message.questions.len(), 1);
    assert_eq!(message.header.awnsers, 0);
    assert_eq!(message.header.authority_entries, 0);
    assert_eq!(message.header.ressource_entries, 0);

    // Verify flags
    assert!(message.header.is_query());
    assert_eq!(message.header.op_code(), 0);
    assert_eq!(message.header.is_authoritative(), false);
    assert_eq!(message.header.is_truncated(), false);
    assert_eq!(message.header.is_recursion_desired(), true);
    assert_eq!(message.header.is_recursion_available(), false);
    assert_eq!(message.header.result_code(), ResultCode::NOERROR);

    // Question should be for google.com of type A and class IN
    let question = &message.questions[0];
    assert_eq!(question.name, "google.com");
    assert_eq!(question.qtype, QueryType::A);
    assert_eq!(question.class, Class::IN);

    println!("{:?}", message);
}

#[test]
fn deseliaze_request_message() {
    let expects = query_packet();
    let mut reader = DnsReader::from(expects.clone());

    let message: Message = Message::from(&mut reader).unwrap();

    let mut writer = DnsWriter::from(Vec::new());
    message.write(&mut writer).unwrap();
    let result = writer.into_bytes();

    assert_eq!(expects, result);
    println!("{:?}", message);
}

#[test]
fn test_read_qname() {
    let hex: Vec<u8> = vec![
        0x03, 0x77, 0x77, 0x77, 0x0c, 0x6e, 0x6f, 0x72, 0x74, 0x68, 0x65, 0x61, 0x73, 0x74,
        0x65, 0x72, 0x6e, 0x03, 0x65, 0x64, 0x75, 0x00,
    ];

    let mut reader = DnsReader::from(hex);
    let mut buff = String::new();
    read_dns_encoded_name(&mut reader, &mut buff).unwrap();

    assert_eq!(buff, "www.northeastern.edu")
}

#[test]
fn test_write_qname() {
    let given = "www.northeastern.edu";
    let expects: Vec<u8> = vec![
        0x03, 0x77, 0x77, 0x77, 0x0c, 0x6e, 0x6f, 0x72, 0x74, 0x68, 0x65, 0x61, 0x73, 0x74,
        0x65, 0x72, 0x6e, 0x03, 0x65, 0x64, 0x75, 0x00,
    ];

    let mut writer = DnsWriter::from(Vec::<u8>::new());
    write_dns_encoded_name(&mut writer, given).unwrap();
    let result = writer.into_bytes();
    assert_eq!(result, expects);
}

#[test]
fn name_round_trips_through_both_directions() {
    let mut writer = DnsWriter::from(Vec::new());
    write_dns_encoded_name(&mut writer, "www.northeastern.edu").unwrap();
    let mut reader = DnsReader::from(writer.into_bytes());
    let mut buff = String::new();
    read_dns_encoded_name(&mut reader, &mut buff).unwrap();
    assert_eq!(buff, "www.northeastern.edu");
}

#[test]
fn empty_name_encodes_as_empty_label_and_terminator() {
    let mut writer = DnsWriter::from(Vec::new());
    write_dns_encoded_name(&mut writer, "").unwrap();
    assert_eq!(writer.into_bytes(), vec![0x00, 0x00]);
}

#[test]
fn name_ends_cleanly_when_stream_ends_at_label_boundary() {
    let mut reader = DnsReader::from(vec![0x03, 0x77, 0x77, 0x77]);
    let mut buff = String::new();
    read_dns_encoded_name(&mut reader, &mut buff).unwrap();
    assert_eq!(buff, "www");
}

#[test]
fn name_truncated_inside_label_is_end_of_stream() {
    let mut reader = DnsReader::from(vec![0x03, 0x77, 0x77]);
    let mut buff = String::new();
    let r = read_dns_encoded_name(&mut reader, &mut buff);
    assert_eq!(r, Err(DnsError::EndOfStream));
}

#[test]
fn name_longer_than_255_characters_is_rejected() {
    // one label of 200 bytes, then one of 56: 200 + 1 + 56 = 257 characters.
    let mut bytes: Vec<u8> = vec![200];
    bytes.extend(std::iter::repeat(0x61).take(200));
    bytes.push(56);
    bytes.extend(std::iter::repeat(0x62).take(56));
    bytes.push(0);
    let mut reader = DnsReader::from(bytes);
    let mut buff = String::new();
    let r = read_dns_encoded_name(&mut reader, &mut buff);
    assert_eq!(r, Err(DnsError::NameTooLong));
}

#[test]
fn truncated_header_is_end_of_stream() {
    let mut reader = DnsReader::from(vec![0x15, 0x63, 0x01]);
    let r = Message::from(&mut reader);
    assert!(matches!(r, Err(DnsError::EndOfStream)));
}

#[test]
fn header_claiming_more_questions_than_present_is_end_of_stream() {
    let mut bytes = query_packet();
    bytes[5] = 2; // two questions claimed, one present
    let mut reader = DnsReader::from(bytes);
    let r = Message::from(&mut reader);
    assert!(matches!(r, Err(DnsError::EndOfStream)));
}

#[test]
fn flags_with_only_rd_bit_set() {
    let mut header = dns_wire::message::Header::new();
    header.flags = 0x0100;
    assert_eq!(header.is_query(), true);
    assert_eq!(header.is_recursion_desired(), true);
    assert_eq!(header.is_authoritative(), false);
    assert_eq!(header.is_truncated(), false);
    assert_eq!(header.is_recursion_available(), false);
    assert_eq!(header.result_code(), ResultCode::NOERROR);
}

#[test]
fn query_type_wire_codes() {
    assert_eq!(QueryType::from(1), QueryType::A);
    assert_eq!(QueryType::from(28), QueryType::AAAA);
    assert_eq!(QueryType::from(5), QueryType::UNKNOWN);
    assert_eq!(QueryType::A.to_u16(), 1);
    assert_eq!(QueryType::AAAA.to_u16(), 28);
    assert_eq!(QueryType::UNKNOWN.to_u16(), 0);
    assert_eq!(QueryType::AAAA.as_u16(), 28);
}

#[test]
fn class_wire_codes() {
    assert_eq!(Class::from(0), Class::RESERVED);
    assert_eq!(Class::from(1), Class::IN);
    assert_eq!(Class::from(254), Class::QCLASSNONE);
    assert_eq!(Class::from(255), Class::QCLASSANY);
    assert_eq!(Class::from(2), Class::UNKNOWN);
    assert_eq!(Class::IN.to_u16(), 1);
    assert_eq!(Class::UNKNOWN.to_u16(), 256);
    assert_eq!(Class::QCLASSANY.as_u16(), 255);
}

#[test]
fn result_code_wire_values() {
    assert_eq!(ResultCode::from(0), ResultCode::NOERROR);
    assert_eq!(ResultCode::from(3), ResultCode::NXDOMAIN);
    assert_eq!(ResultCode::from(9), ResultCode::UNKNOWN);
    assert_eq!(ResultCode::SERVFAIL.to(), 2);
    assert_eq!(ResultCode::UNKNOWN.to(), 6);
}

/// An unrecognized type code decodes without failing and keeps the raw type
/// code, class and ttl; re-encoding writes them back with the declared
/// payload length but none of the payload bytes.
#[test]
fn unknown_record_is_lossy_but_keeps_header_fields() {
    let mut bytes: Vec<u8> = Vec::new();
    bytes.extend_from_slice(&[0x03]);
    bytes.extend_from_slice(b"foo");
    bytes.push(0x00);
    bytes.extend_from_slice(&[0x00, 0xFF]); // type code 255, not modelled
    bytes.extend_from_slice(&[0x00, 0x01]); // class IN
    bytes.extend_from_slice(&[0x00, 0x00, 0x0E, 0x10]); // ttl 3600
    bytes.extend_from_slice(&[0x00, 0x08]); // payload length 8
    bytes.extend_from_slice(&[1, 2, 3, 4, 5, 6, 7, 8]); // payload, never captured

    let mut reader = DnsReader::from(bytes);
    let record = Record::from(&mut reader).unwrap();
    match &record {
        Record::UNKNOWN { name, type_code, class, ttl, len } => {
            assert_eq!(name.as_str(), "foo");
            assert_eq!(*type_code, 255);
            assert_eq!(*class, Class::IN);
            assert_eq!(*ttl, 3600);
            assert_eq!(*len, 8);
        },
        _ => panic!("expected the catch-all variant"),
    }

    let mut writer = DnsWriter::from(Vec::new());
    record.write(&mut writer).unwrap();
    let mut expected: Vec<u8> = Vec::new();
    expected.extend_from_slice(&[0x03]);
    expected.extend_from_slice(b"foo");
    expected.push(0x00);
    expected.extend_from_slice(&[0x00, 0xFF]);
    expected.extend_from_slice(&[0x00, 0x01]);
    expected.extend_from_slice(&[0x00, 0x00, 0x0E, 0x10]);
    expected.extend_from_slice(&[0x00, 0x08]); // length claimed, no payload follows
    assert_eq!(writer.into_bytes(), expected);
}

#[test]
fn a_record_round_trips_byte_exactly() {
    let mut bytes: Vec<u8> = Vec::new();
    bytes.extend_from_slice(&[0x03]);
    bytes.extend_from_slice(b"foo");
    bytes.push(0x00);
    bytes.extend_from_slice(&[0x00, 0x01]); // type A
    bytes.extend_from_slice(&[0x00, 0x01]); // class IN
    bytes.extend_from_slice(&[0x00, 0x00, 0x27, 0x10]); // ttl 10000
    bytes.extend_from_slice(&[0x00, 0x04]); // payload length 4
    bytes.extend_from_slice(&[192, 168, 1, 254]);

    let mut reader = DnsReader::from(bytes.clone());
    let record = Record::from(&mut reader).unwrap();
    match &record {
        Record::A { name, class, addr, ttl } => {
            assert_eq!(name.as_str(), "foo");
            assert_eq!(*class, Class::IN);
            assert_eq!(addr.octets, [192, 168, 1, 254]);
            assert_eq!(*ttl, 10000);
        },
        _ => panic!("expected an A record"),
    }

    let mut writer = DnsWriter::from(Vec::new());
    record.write(&mut writer).unwrap();
    assert_eq!(writer.into_bytes(), bytes);
}

#[test]
fn reader_and_writer_front_methods_round_trip() {
    let bytes = query_packet();
    let mut reader = DnsReader::from(bytes.clone());
    let msg = reader.read().unwrap();
    let mut writer = DnsWriter::from(Vec::new());
    writer.write(&msg).unwrap();
    assert_eq!(writer.into_bytes(), bytes);
}

#[test]
fn op_code_reads_the_four_opcode_bits() {
    let mut header = dns_wire::message::Header::new();
    header.flags = 0x7800;
    assert_eq!(header.op_code(), 15);
    header.flags = 0x0800;
    assert_eq!(header.op_code(), 1);
}

#[test]
fn result_code_reads_the_low_four_bits() {
    let mut header = dns_wire::message::Header::new();
    header.flags = 0x8003;
    assert_eq!(header.result_code(), ResultCode::NXDOMAIN);
    assert!(!header.is_query());
}
