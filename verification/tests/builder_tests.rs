use dns_wire::message::{Class, Ipv4Address, Message, QueryType, Record, ResultCode};
use dns_wire::message_builder::MessageBuilder;
use dns_wire::stream::{DnsReader, DnsWriter};
use dns_wire::udp_listener::UdpListener;

fn sample_request() -> Message {
    MessageBuilder::new_request(5475)
        .set_recursion_desired()
        .add_new_question(String::from("google.com"), QueryType::A, Class::IN)
        .build()
}

/// Building straight from a request preserves its id, sets the
/// query/response bit, copies the questions verbatim, and leaves the other
/// sections empty.
#[test]
fn from_request_build_preserves_id_and_questions() {
    let req = sample_request();
    let resp = MessageBuilder::from_request(req).build();

    assert_eq!(resp.header.id, 5475);
    assert!(!resp.header.is_query());
    assert_eq!(resp.header.questions, 1);
    assert_eq!(resp.questions.len(), 1);
    assert_eq!(resp.questions[0].name, "google.com");
    assert_eq!(resp.questions[0].qtype, QueryType::A);
    assert_eq!(resp.questions[0].class, Class::IN);
    assert_eq!(resp.header.awnsers, 0);
    assert_eq!(resp.header.authority_entries, 0);
    assert_eq!(resp.header.ressource_entries, 0);
    assert!(resp.answers.is_empty());
    assert!(resp.authority.is_empty());
    assert!(resp.resources.is_empty());
}

#[test]
fn from_request_does_not_copy_request_flags() {
    let req = sample_request();
    assert!(req.header.is_recursion_desired());
    let resp = MessageBuilder::from_request(req).build();
    assert!(!resp.header.is_recursion_desired());
    assert!(!resp.header.is_query());
}

#[test]
fn new_request_sets_id_and_recursion() {
    let req = sample_request();
    assert_eq!(req.header.id, 5475);
    assert!(req.header.is_query());
    assert!(req.header.is_recursion_desired());
    assert_eq!(req.header.questions, 1);
    assert_eq!(req.questions[0].name, "google.com");
}

#[test]
fn build_derives_counts_from_list_lengths() {
    let req = sample_request();
    let a = Record::new_type_a(String::from("a.example"), Ipv4Address::new(1, 2, 3, 4), 60);
    let b = Record::new_type_a(String::from("b.example"), Ipv4Address::new(5, 6, 7, 8), 60);
    let c = Record::new_type_a(String::from("c.example"), Ipv4Address::new(9, 9, 9, 9), 60);
    let resp = MessageBuilder::from_request(req)
        .add_answers(a)
        .add_typeA_answer(String::from("d.example"), Ipv4Address::new(1, 1, 1, 1), 30)
        .add_authority(b)
        .add_resources(c)
        .build();
    assert_eq!(resp.header.questions, 1);
    assert_eq!(resp.header.awnsers, 2);
    assert_eq!(resp.header.authority_entries, 1);
    assert_eq!(resp.header.ressource_entries, 1);
    assert_eq!(resp.answers.len(), 2);
    assert_eq!(resp.authority.len(), 1);
    assert_eq!(resp.resources.len(), 1);
}

#[test]
fn set_lists_replace_sections() {
    let req = sample_request();
    let answers = vec![
        Record::new_type_a(String::from("a.example"), Ipv4Address::new(1, 2, 3, 4), 60),
        Record::new_type_a(String::from("b.example"), Ipv4Address::new(5, 6, 7, 8), 60),
    ];
    let authority = vec![Record::new_type_a(
        String::from("c.example"),
        Ipv4Address::new(9, 9, 9, 9),
        60,
    )];
    let resources = Vec::new();
    let resp = MessageBuilder::from_request(req)
        .set_answers(answers)
        .set_authority(authority)
        .set_resources(resources)
        .build();
    assert_eq!(resp.header.awnsers, 2);
    assert_eq!(resp.header.authority_entries, 1);
    assert_eq!(resp.header.ressource_entries, 0);
}

#[test]
fn set_questions_replaces_question_section() {
    let q = dns_wire::message::Question {
        name: String::from("example.org"),
        qtype: QueryType::AAAA,
        class: Class::IN,
    };
    let msg = MessageBuilder::new_request(7)
        .add_new_question(String::from("old.example"), QueryType::A, Class::IN)
        .set_questions(vec![q.clone(), q])
        .build();
    assert_eq!(msg.header.questions, 2);
    assert_eq!(msg.questions[0].name, "example.org");
    assert_eq!(msg.questions[1].qtype, QueryType::AAAA);
}

#[test]
fn status_code_mutator_sets_the_result_code() {
    let req = sample_request();
    let resp = MessageBuilder::from_request(req)
        .set_status_code(ResultCode::SERVFAIL)
        .build();
    assert_eq!(resp.header.result_code(), ResultCode::SERVFAIL);
    assert!(!resp.header.is_query());
}

#[test]
fn status_code_mutator_overwrites_an_earlier_code() {
    let req = sample_request();
    let resp = MessageBuilder::from_request(req)
        .set_status_code(ResultCode::SERVFAIL)
        .set_status_code(ResultCode::NXDOMAIN)
        .build();
    assert_eq!(resp.header.result_code(), ResultCode::NXDOMAIN);
}

#[test]
fn authoritative_and_recursion_available_bits() {
    let req = sample_request();
    let resp = MessageBuilder::from_request(req)
        .set_is_authoritive()
        .set_recursive_available()
        .build();
    assert!(resp.header.is_authoritative());
    assert!(resp.header.is_recursion_available());
    assert!(!resp.header.is_truncated());
}

/// The canned reply: the request's id and question come back with one A
/// answer for the hard-wired name and address.
#[test]
fn build_message_answers_with_the_canned_record() {
    let req = sample_request();
    let resp = UdpListener::build_message(req);
    assert_eq!(resp.header.id, 5475);
    assert!(!resp.header.is_query());
    assert_eq!(resp.header.questions, 1);
    assert_eq!(resp.header.awnsers, 1);
    assert_eq!(resp.questions[0].name, "google.com");
    match &resp.answers[0] {
        Record::A { name, class, addr, ttl } => {
            assert_eq!(name.as_str(), "google.pt");
            assert_eq!(*class, Class::IN);
            assert_eq!(addr.octets, [192, 168, 1, 254]);
            assert_eq!(*ttl, 10000);
        },
        _ => panic!("expected an A record"),
    }
}

/// The whole per-datagram path: a query in, the canned reply out, both as
/// bytes.
#[test]
fn process_replies_to_a_query_datagram() {
    let req = sample_request();
    let mut writer = DnsWriter::from(Vec::new());
    req.write(&mut writer).unwrap();
    let datagram = writer.into_bytes();

    let out = UdpListener::process(datagram).unwrap();

    let mut reader = DnsReader::from(out);
    let resp = Message::from(&mut reader).unwrap();
    assert_eq!(resp.header.id, 5475);
    assert!(!resp.header.is_query());
    assert_eq!(resp.header.questions, 1);
    assert_eq!(resp.header.awnsers, 1);
    assert_eq!(resp.questions[0].name, "google.com");
    match &resp.answers[0] {
        Record::A { name, addr, .. } => {
            assert_eq!(name.as_str(), "google.pt");
            assert_eq!(addr.octets, [192, 168, 1, 254]);
        },
        _ => panic!("expected an A record"),
    }
}

#[test]
fn process_drops_a_malformed_datagram() {
    let r = UdpListener::process(vec![0x15, 0x63, 0x01]);
    assert!(r.is_err());
    let listener = UdpListener::new();
    let _ = listener;
}
