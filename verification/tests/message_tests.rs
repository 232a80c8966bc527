use dns_codec::a_record::ARecord;
use dns_codec::cname_record::CNameRecord;
use dns_codec::codes::{DnsClasses, OpCodes, OptCodes, ResponseCodes, Types};
use dns_codec::errors::DnsError;
use dns_codec::message::{MessageBase, Section};
use dns_codec::mx_record::MxRecord;
use dns_codec::opt_record::OptRecord;
use dns_codec::query::DnsQuery;
use dns_codec::record::ResourceRecord;
use dns_codec::txt_record::TxtRecord;

/// A captured response to a query for google.com carrying an OPT record
/// with a cookie and an empty TCP-keepalive option.
fn sample_query_bytes() -> Vec<u8> {
    vec![
        0xCC, 0xE6, 0x01, 0x20, 0x00, 0x01, 0x00, 0x00, 0x00, 0x00, 0x00, 0x01, 0x06, 0x67,
        0x6F, 0x6F, 0x67, 0x6C, 0x65, 0x03, 0x63, 0x6F, 0x6D, 0x00, 0x00, 0x01, 0x00, 0x01,
        0x00, 0x00, 0x29, 0x04, 0xD0, 0x00, 0x00, 0x00, 0x00, 0x00, 0x10, 0x00, 0x0A, 0x00,
        0x08, 0x3B, 0xA9, 0x53, 0x03, 0x53, 0xB6, 0x04, 0xEF, 0x00, 0x0B, 0x00, 0x00,
    ]
}

#[test]
fn captured_query_decodes_field_by_field() {
    let buf = sample_query_bytes();
    let m = MessageBase::decode(&buf, 0).unwrap();
    assert_eq!(m.get_id(), 0xCCE6);
    assert!(!m.is_qr());
    assert_eq!(m.get_op_code(), OpCodes::Query);
    assert!(m.is_recursion_desired());
    assert!(m.authenticated_data);
    assert_eq!(m.get_response_code(), ResponseCodes::NoError);
    assert_eq!(m.total_queries(), 1);
    assert_eq!(m.get_queries()[0].get_query(), b"google.com".to_vec());
    assert_eq!(m.get_queries()[0].get_type(), Types::A);
    assert_eq!(m.get_additional_records().len(), 1);
    assert!(m.get_record_errors().is_empty());
}

#[test]
fn captured_query_re_encodes_to_the_identical_bytes() {
    let buf = sample_query_bytes();
    let m = MessageBase::decode(&buf, 0).unwrap();
    assert_eq!(m.encode().unwrap(), buf);
}

#[test]
fn header_bytes_match_the_known_wire_form() {
    // id 0xAFCC, response, recursion desired and available, no error,
    // one question, nine answers, one additional record
    let mut m = MessageBase::new(0xAFCC);
    m.set_qr(true);
    m.set_recursion_desired(true);
    m.set_recursion_available(true);
    m.add_query(DnsQuery::new(b"outlook.office.com", Types::A, DnsClasses::In));
    for i in 0..9u8 {
        m.add_answers(
            b"outlook.office.com",
            ResourceRecord::A(ARecord::new(DnsClasses::In, 1, [40, 99, 165, i])),
        );
    }
    m.add_additional_records(b"", ResourceRecord::Opt(OptRecord::new(512, 0, 0, 0)));
    let bytes = m.encode().unwrap();
    assert_eq!(
        &bytes[0..12],
        &[0xAF, 0xCC, 0x81, 0x80, 0x00, 0x01, 0x00, 0x09, 0x00, 0x00, 0x00, 0x01]
    );
    let back = MessageBase::decode(&bytes, 0).unwrap();
    assert_eq!(back, m);
}

#[test]
fn message_round_trips_across_record_kinds() {
    let mut m = MessageBase::new(77);
    m.set_qr(true);
    m.set_authoritative(true);
    m.add_query(DnsQuery::new(b"example.com", Types::Mx, DnsClasses::In));
    m.add_answers(
        b"example.com",
        ResourceRecord::Mx(MxRecord::new(DnsClasses::In, 3600, 10, b"mail.example.com")),
    );
    m.add_answers(
        b"example.com",
        ResourceRecord::Mx(MxRecord::new(DnsClasses::In, 3600, 20, b"mail2.example.com")),
    );
    m.add_answers(
        b"www.example.com",
        ResourceRecord::Cname(CNameRecord::new(DnsClasses::In, 60, b"example.com")),
    );
    m.add_name_servers(
        b"example.com",
        ResourceRecord::Txt(TxtRecord::new(DnsClasses::In, false, 5, b"note")),
    );
    let bytes = m.encode().unwrap();
    let back = MessageBase::decode(&bytes, 0).unwrap();
    assert_eq!(back, m);
}

#[test]
fn re_encoding_a_decoded_message_is_stable() {
    let mut m = MessageBase::new(5);
    m.add_query(DnsQuery::new(b"a.example.org", Types::A, DnsClasses::In));
    m.add_query(DnsQuery::new(b"b.example.org", Types::A, DnsClasses::In));
    let e1 = m.encode().unwrap();
    let d1 = MessageBase::decode(&e1, 0).unwrap();
    let e2 = d1.encode().unwrap();
    let d2 = MessageBase::decode(&e2, 0).unwrap();
    assert_eq!(d1, d2);
    assert_eq!(e1, e2);
}

#[test]
fn repeated_names_shorten_the_message() {
    let mut twice = MessageBase::new(1);
    twice.add_query(DnsQuery::new(b"repeat.example.com", Types::A, DnsClasses::In));
    twice.add_query(DnsQuery::new(b"repeat.example.com", Types::Aaaa, DnsClasses::In));
    let compressed = twice.encode().unwrap();

    let mut once = MessageBase::new(1);
    once.add_query(DnsQuery::new(b"repeat.example.com", Types::A, DnsClasses::In));
    let single = once.encode().unwrap();
    // the second question costs only a pointer plus its four code bytes
    assert_eq!(compressed.len(), single.len() + 2 + 4);
    assert!(compressed.len() < 2 * single.len() - 12);

    let back = MessageBase::decode(&compressed, 0).unwrap();
    assert_eq!(back.get_queries()[0].get_query(), b"repeat.example.com".to_vec());
    assert_eq!(back.get_queries()[1].get_query(), b"repeat.example.com".to_vec());
}

#[test]
fn owner_names_compress_against_the_question() {
    let mut m = MessageBase::new(2);
    m.add_query(DnsQuery::new(b"host.example.com", Types::A, DnsClasses::In));
    m.add_answers(
        b"host.example.com",
        ResourceRecord::A(ARecord::new(DnsClasses::In, 30, [1, 2, 3, 4])),
    );
    let bytes = m.encode().unwrap();
    // the answer's owner is a pointer to the question name at offset 12
    let owner_pos = 12 + 18 + 4;
    assert_eq!(&bytes[owner_pos..owner_pos + 2], &[0xC0, 0x0C]);
    let back = MessageBase::decode(&bytes, 0).unwrap();
    assert_eq!(back, m);
}

#[test]
fn compressed_answer_owner_and_target_decode() {
    // a hand-written response: question "ab.cd", one CNAME answer whose
    // owner points at the question name and whose target points at "cd"
    let buf = vec![
        0x00, 0x01, 0x00, 0x00, 0x00, 0x01, 0x00, 0x01, 0x00, 0x00, 0x00, 0x00, 0x02, b'a',
        b'b', 0x02, b'c', b'd', 0x00, 0x00, 0x01, 0x00, 0x01, 0xC0, 0x0C, 0x00, 0x05, 0x00,
        0x01, 0x00, 0x00, 0x00, 0x3C, 0x00, 0x02, 0xC0, 0x0F,
    ];
    let m = MessageBase::decode(&buf, 0).unwrap();
    let records = m.get_answers().get(b"ab.cd").unwrap();
    assert_eq!(records.len(), 1);
    match &records[0] {
        ResourceRecord::Cname(c) => assert_eq!(c.get_domain(), b"cd".to_vec()),
        other => panic!("wrong record kind: {:?}", other),
    }
}

#[test]
fn truncated_header_is_fatal() {
    let buf = vec![0u8; 11];
    assert_eq!(MessageBase::decode(&buf, 0), Err(DnsError::Truncated));
}

#[test]
fn unknown_opcode_is_fatal() {
    // flag word 0x3800: opcode 7
    let buf = vec![0, 1, 0x38, 0x00, 0, 0, 0, 0, 0, 0, 0, 0];
    assert_eq!(MessageBase::decode(&buf, 0), Err(DnsError::UnknownCode));
}

#[test]
fn unsupported_record_type_is_reported_not_fatal() {
    // one answer of type RRSIG (46), which has no decoder, followed by
    // nothing else; the message survives with one reported record
    let mut buf = vec![0, 3, 0x00, 0x00, 0, 0, 0, 1, 0, 0, 0, 0];
    buf.extend_from_slice(&[
        0x02, b'a', b'b', 0x00, 0x00, 0x2E, 0x00, 0x01, 0x00, 0x00, 0x00, 0x05, 0x00, 0x01,
        0xAA,
    ]);
    let m = MessageBase::decode(&buf, 0).unwrap();
    assert_eq!(m.get_answers().len(), 0);
    assert_eq!(m.get_record_errors().len(), 1);
    assert_eq!(m.get_record_errors()[0].section, Section::Answer);
    assert_eq!(m.get_record_errors()[0].offset, 12);
    assert_eq!(m.get_record_errors()[0].error, DnsError::UnsupportedRecordType);
}

#[test]
fn bad_record_is_skipped_and_good_ones_kept() {
    // two answers: an unknown type code (3), then a valid A record
    let mut buf = vec![0, 4, 0x00, 0x00, 0, 0, 0, 2, 0, 0, 0, 0];
    buf.extend_from_slice(&[
        0x02, b'a', b'b', 0x00, 0x00, 0x03, 0x00, 0x01, 0x00, 0x00, 0x00, 0x05, 0x00, 0x01,
        0xAA,
    ]);
    buf.extend_from_slice(&[
        0xC0, 0x0C, 0x00, 0x01, 0x00, 0x01, 0x00, 0x00, 0x00, 0x05, 0x00, 0x04, 9, 9, 9, 9,
    ]);
    let m = MessageBase::decode(&buf, 0).unwrap();
    assert_eq!(m.get_record_errors().len(), 1);
    assert_eq!(m.get_record_errors()[0].error, DnsError::UnknownCode);
    let records = m.get_answers().get(b"ab").unwrap();
    assert_eq!(records.len(), 1);
    match &records[0] {
        ResourceRecord::A(a) => assert_eq!(a.get_address(), [9, 9, 9, 9]),
        other => panic!("wrong record kind: {:?}", other),
    }
}

#[test]
fn too_many_questions_overflow_the_count() {
    let mut m = MessageBase::new(9);
    for _ in 0..65536 {
        m.add_query(DnsQuery::new(b"", Types::A, DnsClasses::In));
    }
    assert_eq!(m.encode(), Err(DnsError::CountOverflow));
}

#[test]
fn message_flag_accessors_round_trip() {
    let mut m = MessageBase::new(3);
    m.set_id(44);
    assert_eq!(m.get_id(), 44);
    m.set_op_code(OpCodes::Status);
    assert_eq!(m.get_op_code(), OpCodes::Status);
    m.set_truncated(true);
    assert!(m.is_truncated());
    m.set_response_code(ResponseCodes::Refused);
    assert_eq!(m.get_response_code(), ResponseCodes::Refused);
    m.set_authoritative(true);
    assert!(m.is_authoritative());
    assert!(!m.is_recursion_available());
    m.set_recursion_available(true);
    assert!(m.is_recursion_available());
    let e = m.encode().unwrap();
    let back = MessageBase::decode(&e, 0).unwrap();
    assert_eq!(back, m);
    let s = DnsQuery::new(b"x.y", Types::A, DnsClasses::In).to_string();
    assert!(!s.is_empty());
}

#[test]
fn opt_codes_survive_a_message_round_trip() {
    let mut opt = OptRecord::new(1232, 0, 0, 0);
    opt.add_option(OptCodes::Cookie, &[1, 2, 3, 4, 5, 6, 7, 8]);
    opt.add_option(OptCodes::Padding, &[0, 0, 0]);
    let mut m = MessageBase::new(8);
    m.add_additional_records(b"", ResourceRecord::Opt(opt));
    let bytes = m.encode().unwrap();
    let back = MessageBase::decode(&bytes, 0).unwrap();
    assert_eq!(back, m);
}
