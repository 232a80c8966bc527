use dns_codec::codes::{DnsClasses, OpCodes, OptCodes, ResponseCodes, Types};
use dns_codec::errors::DnsError;
use dns_codec::handlers::{RecordHandler, TypeHandler};
use dns_codec::names::{pack_domain, split_name, unpack_domain, NameTable};

#[test]
fn pack_simple_name_is_length_prefixed() {
    let mut table = NameTable::new();
    let bytes = pack_domain(b"ab.cd", &mut table, 12).unwrap();
    assert_eq!(bytes, vec![2, b'a', b'b', 2, b'c', b'd', 0]);
}

#[test]
fn root_name_packs_to_a_single_zero_byte() {
    let mut table = NameTable::new();
    let bytes = pack_domain(b"", &mut table, 12).unwrap();
    assert_eq!(bytes, vec![0]);
}

#[test]
fn second_occurrence_packs_to_a_pointer() {
    let mut table = NameTable::new();
    let first = pack_domain(b"example.com", &mut table, 12).unwrap();
    assert_eq!(first.len(), 13);
    let second = pack_domain(b"example.com", &mut table, 12 + first.len()).unwrap();
    // a two-byte backward pointer to offset 12
    assert_eq!(second, vec![0xC0, 12]);
    assert!(second.len() < first.len());
}

#[test]
fn shared_suffix_packs_to_label_plus_pointer() {
    let mut table = NameTable::new();
    let first = pack_domain(b"mail.example.com", &mut table, 12).unwrap();
    let second = pack_domain(b"www.example.com", &mut table, 12 + first.len()).unwrap();
    // "www" written literally, then a pointer to "example.com" at offset 17
    assert_eq!(second, vec![3, b'w', b'w', b'w', 0xC0, 17]);
}

#[test]
fn compressed_names_decode_to_the_same_name() {
    let mut table = NameTable::new();
    let mut buf = vec![0u8; 12];
    let first = pack_domain(b"example.com", &mut table, 12).unwrap();
    buf.extend_from_slice(&first);
    let p2 = buf.len();
    let second = pack_domain(b"example.com", &mut table, p2).unwrap();
    buf.extend_from_slice(&second);
    let (n1, u1) = unpack_domain(&buf, 12).unwrap();
    let (n2, u2) = unpack_domain(&buf, p2).unwrap();
    assert_eq!(n1, b"example.com".to_vec());
    assert_eq!(n2, b"example.com".to_vec());
    assert_eq!(u1, 13);
    assert_eq!(u2, 2);
}

#[test]
fn sixty_three_byte_label_round_trips() {
    let label = vec![b'x'; 63];
    let mut name = label.clone();
    name.push(b'.');
    name.extend_from_slice(b"com");
    let mut table = NameTable::new();
    let bytes = pack_domain(&name, &mut table, 0).unwrap();
    assert_eq!(bytes[0], 63);
    let (back, used) = unpack_domain(&bytes, 0).unwrap();
    assert_eq!(back, name);
    assert_eq!(used, bytes.len());
}

#[test]
fn sixty_four_byte_label_is_rejected() {
    let name = vec![b'x'; 64];
    let mut table = NameTable::new();
    assert_eq!(pack_domain(&name, &mut table, 0), Err(DnsError::LabelTooLong));
}

#[test]
fn pointer_to_itself_is_a_compression_loop() {
    let buf = vec![0xC0u8, 0x00];
    assert_eq!(unpack_domain(&buf, 0), Err(DnsError::CompressionLoop));
}

#[test]
fn two_pointer_cycle_is_a_compression_loop() {
    let buf = vec![0xC0u8, 0x02, 0xC0, 0x00];
    assert_eq!(unpack_domain(&buf, 0), Err(DnsError::CompressionLoop));
}

#[test]
fn name_running_past_the_buffer_is_truncated() {
    // a label that claims five bytes with only two present
    let buf = vec![5u8, b'a', b'b'];
    assert_eq!(unpack_domain(&buf, 0), Err(DnsError::Truncated));
    // a pointer missing its second byte
    let buf2 = vec![0xC0u8];
    assert_eq!(unpack_domain(&buf2, 0), Err(DnsError::Truncated));
}

#[test]
fn unpack_resumes_after_the_first_pointer() {
    // "ab" then a pointer to a literal "cd" earlier in the buffer
    let buf = vec![2u8, b'c', b'd', 0, 2, b'a', b'b', 0xC0, 0x00];
    let (name, used) = unpack_domain(&buf, 4).unwrap();
    assert_eq!(name, b"ab.cd".to_vec());
    assert_eq!(used, 5);
}

#[test]
fn split_name_handles_empty_and_multi_label_names() {
    assert_eq!(split_name(b"").len(), 0);
    let labels = split_name(b"a.bc.d");
    assert_eq!(labels, vec![b"a".to_vec(), b"bc".to_vec(), b"d".to_vec()]);
}

#[test]
fn code_tables_round_trip_and_reject_unknown_values() {
    assert_eq!(Types::get_type_from_code(5).unwrap().get_code(), 5);
    assert_eq!(Types::get_type_from_code(3), Err(DnsError::UnknownCode));
    assert_eq!(DnsClasses::get_class_from_code(1).unwrap().get_code(), 1);
    assert_eq!(DnsClasses::get_class_from_code(9), Err(DnsError::UnknownCode));
    assert_eq!(OpCodes::from_code(2).unwrap().get_code(), 2);
    assert_eq!(OpCodes::from_code(7), Err(DnsError::UnknownCode));
    assert_eq!(ResponseCodes::get_response_code_from_code(3).unwrap().get_code(), 3);
    assert_eq!(ResponseCodes::get_response_code_from_code(12), Err(DnsError::UnknownCode));
    assert_eq!(OptCodes::get_op_from_code(10), Ok(OptCodes::Cookie));
    assert_eq!(OptCodes::get_op_from_code(4), Err(DnsError::UnknownCode));
}

#[test]
fn type_handler_maps_both_directions_and_shadows() {
    let mut h = TypeHandler::new();
    h.register_type(b"A", 1);
    h.register_type(b"AAAA", 28);
    assert_eq!(h.find_type_by_key(b"A"), Some(1));
    assert_eq!(h.find_type_by_key(b"AAAA"), Some(28));
    assert_eq!(h.find_type_by_key(b"MX"), None);
    assert_eq!(h.find_type_by_code(28), Some(b"AAAA".to_vec()));
    assert_eq!(h.find_type_by_code(2), None);
    h.register_type(b"ADDR", 1);
    assert_eq!(h.find_type_by_code(1), Some(b"ADDR".to_vec()));
}

#[test]
fn record_handler_finds_registered_kinds_only() {
    let mut h = RecordHandler::new();
    h.register_record(Types::A);
    h.register_record(Types::Cname);
    assert_eq!(h.find_record(1), Some(Types::A));
    assert_eq!(h.find_record(5), Some(Types::Cname));
    assert_eq!(h.find_record(15), None);
}
