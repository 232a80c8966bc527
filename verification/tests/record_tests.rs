use dns_codec::a_record::ARecord;
use dns_codec::aaaa_record::AAAARecord;
use dns_codec::cname_record::CNameRecord;
use dns_codec::codes::{DnsClasses, OptCodes, Types};
use dns_codec::cookie_opt::CookieOpt;
use dns_codec::dnskey_record::DNSKeyRecord;
use dns_codec::errors::DnsError;
use dns_codec::mx_record::MxRecord;
use dns_codec::names::NameTable;
use dns_codec::nsec_record::NsecRecord;
use dns_codec::opt_record::OptRecord;
use dns_codec::soa_record::SoaRecord;
use dns_codec::srv_record::SrvRecord;
use dns_codec::txt_record::TxtRecord;

#[test]
fn a_record_round_trips() {
    let r = ARecord::new(DnsClasses::In, 300, [10, 1, 12, 141]);
    let bytes = r.encode().unwrap();
    assert_eq!(
        bytes,
        vec![0, 1, 0, 1, 0, 0, 1, 44, 0, 4, 10, 1, 12, 141]
    );
    let (back, used) = ARecord::decode(&bytes, 2).unwrap();
    assert_eq!(back, r);
    assert_eq!(used, 12);
}

#[test]
fn aaaa_record_keeps_the_cache_flush_flag() {
    let addr = [0xFE, 0x80, 0, 0, 0, 0, 0, 0, 0x18, 0x2C, 0x35, 0x6C, 0xD6, 0x4C, 0x5E, 0xEA];
    let r = AAAARecord::new(DnsClasses::In, true, 4500, addr);
    let bytes = r.encode().unwrap();
    // flush bit folded into the class word
    assert_eq!(bytes[2], 0x80);
    assert_eq!(bytes[3], 0x01);
    let (back, used) = AAAARecord::decode(&bytes, 2).unwrap();
    assert_eq!(back, r);
    assert_eq!(used, 24);
    assert!(back.cache_flush);
    assert_eq!(back.get_address(), addr);
}

#[test]
fn cname_record_round_trips_through_a_buffer() {
    let r = CNameRecord::new(DnsClasses::In, 60, b"alias.example.com");
    let mut table = NameTable::new();
    let bytes = r.encode(&mut table, 0).unwrap();
    let (back, used) = CNameRecord::decode(&bytes, 2).unwrap();
    assert_eq!(back, r);
    assert_eq!(used, bytes.len() - 2);
}

#[test]
fn mx_record_round_trips_with_priority() {
    let r = MxRecord::new(DnsClasses::In, 3600, 10, b"mail.example.com");
    let mut table = NameTable::new();
    let bytes = r.encode(&mut table, 0).unwrap();
    let (back, _) = MxRecord::decode(&bytes, 2).unwrap();
    assert_eq!(back, r);
    assert_eq!(back.get_priority(), 10);
}

#[test]
fn srv_record_round_trips_with_all_fields() {
    let r = SrvRecord::new(DnsClasses::In, 120, 1, 5, 5060, b"sip.example.com");
    let mut table = NameTable::new();
    let bytes = r.encode(&mut table, 0).unwrap();
    let (back, _) = SrvRecord::decode(&bytes, 2).unwrap();
    assert_eq!(back, r);
}

#[test]
fn soa_record_round_trips_with_counters() {
    let r = SoaRecord::new(
        DnsClasses::In,
        29,
        b"tm1.dns-tm.net",
        b"hostmaster.net",
        2003178080,
        900,
        300,
        604800,
        30,
    );
    let mut table = NameTable::new();
    let bytes = r.encode(&mut table, 0).unwrap();
    let (back, _) = SoaRecord::decode(&bytes, 2).unwrap();
    assert_eq!(back, r);
}

#[test]
fn txt_record_carries_opaque_bytes() {
    let r = TxtRecord::new(DnsClasses::In, false, 10, b"v=spf1 -all");
    let bytes = r.encode().unwrap();
    let (back, _) = TxtRecord::decode(&bytes, 2).unwrap();
    assert_eq!(back, r);
    assert_eq!(back.get_record(), b"v=spf1 -all".to_vec());
}

#[test]
fn dnskey_record_round_trips() {
    let r = DNSKeyRecord::new(DnsClasses::In, false, 172800, 0x0100, 3, 8, &[1, 2, 3, 4, 5]);
    let bytes = r.encode().unwrap();
    let (back, _) = DNSKeyRecord::decode(&bytes, 2).unwrap();
    assert_eq!(back, r);
}

#[test]
fn truncated_record_payload_is_reported() {
    // an A record whose declared payload exceeds the buffer
    let bytes = vec![0u8, 1, 0, 1, 0, 0, 0, 1, 0, 4, 10, 1];
    assert_eq!(ARecord::decode(&bytes, 2), Err(DnsError::Truncated));
    // an A record whose payload is not an IPv4 address
    let bytes2 = vec![0u8, 1, 0, 1, 0, 0, 0, 1, 0, 2, 10, 1];
    assert_eq!(ARecord::decode(&bytes2, 2), Err(DnsError::Truncated));
}

#[test]
fn unknown_class_in_a_record_is_reported() {
    let bytes = vec![0u8, 1, 0, 9, 0, 0, 0, 1, 0, 4, 10, 1, 12, 141];
    assert_eq!(ARecord::decode(&bytes, 2), Err(DnsError::UnknownCode));
}

#[test]
fn opt_record_matches_the_expected_wire_layout() {
    let mut r = OptRecord::new(1232, 0, 0, 0x8000);
    let cookie = CookieOpt::new(&[0x3B, 0xA9, 0x53, 0x03, 0x53, 0xB6, 0x04, 0xEF]);
    let (code, value) = cookie.to_option();
    r.add_option(code, &value);
    let bytes = r.encode().unwrap();
    // ten envelope bytes and a twelve-byte option entry
    assert_eq!(bytes.len(), 22);
    assert_eq!(
        bytes,
        vec![
            0x00, 0x29, 0x04, 0xD0, 0x00, 0x00, 0x80, 0x00, 0x00, 0x0C, 0x00, 0x0A, 0x00, 0x08,
            0x3B, 0xA9, 0x53, 0x03, 0x53, 0xB6, 0x04, 0xEF,
        ]
    );
    let (back, used) = OptRecord::decode(&bytes, 2).unwrap();
    assert_eq!(used, 20);
    assert_eq!(back.payload_size, 1232);
    assert_eq!(back.ext_rcode, 0);
    assert_eq!(back.edns_version, 0);
    assert_eq!(back.flags, 0x8000);
    assert_eq!(
        back.get_options().clone(),
        vec![(OptCodes::Cookie, vec![0x3B, 0xA9, 0x53, 0x03, 0x53, 0xB6, 0x04, 0xEF])]
    );
}

#[test]
fn nsec_bitmap_round_trips_without_padding() {
    let r = NsecRecord::new(
        DnsClasses::In,
        false,
        600,
        b"next.example.com",
        vec![1, 28, 33, 257],
    );
    let mut table = NameTable::new();
    let bytes = r.encode(&mut table, 0).unwrap();
    // the bitmap follows the 18-byte packed name: window 0 trimmed to five
    // bytes (codes 1, 28, 33), window 1 trimmed to one byte (code 257)
    let name_len = 18;
    let bitmap = &bytes[10 + name_len..];
    assert_eq!(
        bitmap,
        &[0x00, 0x05, 0x40, 0x00, 0x00, 0x08, 0x40, 0x01, 0x01, 0x40]
    );
    let (back, _) = NsecRecord::decode(&bytes, 2).unwrap();
    assert_eq!(back.get_rr_types().clone(), vec![1, 28, 33, 257]);
    assert_eq!(back, r);
}

#[test]
fn nsec_with_no_types_has_an_empty_bitmap() {
    let r = NsecRecord::new(DnsClasses::In, false, 600, b"a.b", vec![]);
    let mut table = NameTable::new();
    let bytes = r.encode(&mut table, 0).unwrap();
    // rdata is just the 5-byte packed name
    assert_eq!(bytes.len(), 10 + 5);
    let (back, _) = NsecRecord::decode(&bytes, 2).unwrap();
    assert_eq!(back.get_rr_types().clone(), Vec::<u16>::new());
}

#[test]
fn record_getters_and_setters_hold_their_values() {
    let mut r = CNameRecord::new(DnsClasses::In, 60, b"a.b");
    assert_eq!(r.get_type(), Types::Cname);
    assert_eq!(r.get_dns_class(), DnsClasses::In);
    r.set_dns_class(DnsClasses::Ch);
    assert_eq!(r.get_dns_class(), DnsClasses::Ch);
    r.set_ttl(99);
    assert_eq!(r.get_ttl(), 99);
    r.set_domain(b"c.d");
    assert_eq!(r.get_domain(), b"c.d".to_vec());
    assert_eq!(CookieOpt::new(b"x").get_opt_code(), OptCodes::Cookie);
}
