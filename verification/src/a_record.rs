//! The A record: a 4-byte IPv4 address.

use vstd::prelude::*;

use crate::codes::{DnsClasses, Types};
use crate::envelope::{decode_envelope, encode_envelope, spec_envelope, spec_envelope_at};
use crate::errors::DnsError;

verus! {

/// An IPv4 address record.
#[derive(Debug, Clone, PartialEq, Eq)]
pub struct ARecord {
    pub dns_class: DnsClasses,
    pub ttl: u32,
    pub address: [u8; 4],
}

/// The mathematical value of an [`ARecord`].
pub ghost struct ARecordV {
    pub dns_class: DnsClasses,
    pub ttl: u32,
    pub address: Seq<u8>,
}

impl View for ARecord {
    type V = ARecordV;

    open spec fn view(&self) -> ARecordV {
        ARecordV { dns_class: self.dns_class, ttl: self.ttl, address: self.address@ }
    }
}

/// The wire form of an A record: the envelope around the four address
/// bytes.
pub open spec fn spec_encode_a(v: ARecordV) -> Seq<u8> {
    spec_envelope(Types::A.spec_code(), v.dns_class.spec_code(), v.ttl, v.address)
}

/// The record read at `off` (its class position) and the bytes consumed.
/// A payload that is not exactly four bytes is rejected as truncated.
pub open spec fn spec_decode_a(buf: Seq<u8>, off: int) -> Result<(ARecordV, int), DnsError> {
    match spec_envelope_at(buf, off) {
        Ok((cw, ttl, rdlen)) => match DnsClasses::spec_from_code(cw) {
            Ok(class) => if rdlen != 4 {
                Err(DnsError::Truncated)
            } else {
                Ok(
                    (
                        ARecordV {
                            dns_class: class,
                            ttl,
                            address: buf.subrange(off + 8, off + 12),
                        },
                        12,
                    ),
                )
            },
            Err(e) => Err(e),
        },
        Err(e) => Err(e),
    }
}

impl ARecord {
    pub fn new(dns_classes: DnsClasses, ttl: u32, address: [u8; 4]) -> (r: ARecord)
        ensures
            r@ == (ARecordV { dns_class: dns_classes, ttl, address: address@ }),
    {
        ARecord { dns_class: dns_classes, ttl, address }
    }

    pub fn get_type(&self) -> (r: Types)
        ensures
            r == Types::A,
    {
        Types::A
    }

    /// Writes the record; A carries no name, so it never compresses.
    pub fn encode(&self) -> (r: Result<Vec<u8>, DnsError>)
        ensures
            match r {
                Ok(b) => b@ == spec_encode_a(self@),
                Err(_) => false,
            },
    {
        let mut rdata: Vec<u8> = Vec::new();
        rdata.push(self.address[0]);
        rdata.push(self.address[1]);
        rdata.push(self.address[2]);
        rdata.push(self.address[3]);
        proof {
            assert(rdata@ =~= self.address@);
        }
        encode_envelope(Types::A.get_code(), self.dns_class.get_code(), self.ttl, rdata)
    }

    /// Reads a record at `off` (its class position, just past the type).
    pub fn decode(buf: &[u8], off: usize) -> (r: Result<(ARecord, usize), DnsError>)
        ensures
            match (r, spec_decode_a(buf@, off as int)) {
                (Ok(p), Ok(sp)) => p.0@ == sp.0 && p.1 == sp.1,
                (Err(e1), Err(e2)) => e1 == e2,
                _ => false,
            },
    {
        let (cw, ttl, rdlen) = match decode_envelope(buf, off) {
            Ok(p) => p,
            Err(e) => return Err(e),
        };
        let dns_class = match DnsClasses::get_class_from_code(cw) {
            Ok(c) => c,
            Err(e) => return Err(e),
        };
        if rdlen != 4 {
            return Err(DnsError::Truncated);
        }
        let n = buf.len();
        proof {
            assert(off + 12 <= n);
        }
        let address: [u8; 4] = [buf[off + 8], buf[off + 9], buf[off + 10], buf[off + 11]];
        proof {
            assert(address@ =~= buf@.subrange(off as int + 8, off as int + 12));
        }
        Ok((ARecord { dns_class, ttl, address }, 12))
    }

    pub fn set_dns_class(&mut self, dns_class: DnsClasses)
        ensures
            final(self)@ == (ARecordV { dns_class, ..old(self)@ }),
    {
        self.dns_class = dns_class;
    }

    pub fn get_dns_class(&self) -> (r: DnsClasses)
        ensures
            r == self@.dns_class,
    {
        self.dns_class
    }

    pub fn set_ttl(&mut self, ttl: u32)
        ensures
            final(self)@ == (ARecordV { ttl, ..old(self)@ }),
    {
        self.ttl = ttl;
    }

    pub fn get_ttl(&self) -> (r: u32)
        ensures
            r == self@.ttl,
    {
        self.ttl
    }

    pub fn set_address(&mut self, address: [u8; 4])
        ensures
            final(self)@ == (ARecordV { address: address@, ..old(self)@ }),
    {
        self.address = address;
    }

    pub fn get_address(&self) -> (r: [u8; 4])
        ensures
            r@ == self@.address,
    {
        self.address
    }
}

} // verus!
