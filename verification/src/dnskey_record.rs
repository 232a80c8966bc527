//! The DNSKEY record: key flags, protocol, algorithm and the opaque public
//! key.  Supports the mDNS cache-flush flag in the class field's high bit.

use vstd::prelude::*;

use crate::codes::{DnsClasses, Types};
use crate::envelope::{decode_envelope, encode_envelope, spec_class_word, spec_envelope,
    spec_envelope_at};
use crate::errors::DnsError;
use crate::wire::{be16_at, be16_bytes, push_range, push_u16, read_u16};

verus! {

/// A public key attached to a zone.
#[derive(Debug, Clone, PartialEq, Eq)]
pub struct DNSKeyRecord {
    pub dns_class: DnsClasses,
    pub cache_flush: bool,
    pub ttl: u32,
    pub flags: u16,
    pub protocol: u8,
    pub algorithm: u8,
    pub public_key: Vec<u8>,
}

/// The mathematical value of a [`DNSKeyRecord`].
pub ghost struct DNSKeyRecordV {
    pub dns_class: DnsClasses,
    pub cache_flush: bool,
    pub ttl: u32,
    pub flags: u16,
    pub protocol: u8,
    pub algorithm: u8,
    pub public_key: Seq<u8>,
}

impl View for DNSKeyRecord {
    type V = DNSKeyRecordV;

    open spec fn view(&self) -> DNSKeyRecordV {
        DNSKeyRecordV {
            dns_class: self.dns_class,
            cache_flush: self.cache_flush,
            ttl: self.ttl,
            flags: self.flags,
            protocol: self.protocol,
            algorithm: self.algorithm,
            public_key: self.public_key@,
        }
    }
}

/// The wire form of a DNSKEY record: the envelope around flags, protocol,
/// algorithm and the key bytes.
pub open spec fn spec_encode_dnskey(v: DNSKeyRecordV) -> Result<Seq<u8>, DnsError> {
    if v.public_key.len() + 4 > 0xFFFF {
        Err(DnsError::CountOverflow)
    } else {
        Ok(
            spec_envelope(
                Types::DnsKey.spec_code(),
                spec_class_word(v.dns_class.spec_code(), v.cache_flush),
                v.ttl,
                be16_bytes(v.flags) + seq![v.protocol, v.algorithm] + v.public_key,
            ),
        )
    }
}

/// The record read at `off` (its class position) and the bytes consumed.
pub open spec fn spec_decode_dnskey(buf: Seq<u8>, off: int) -> Result<
    (DNSKeyRecordV, int),
    DnsError,
> {
    match spec_envelope_at(buf, off) {
        Ok((cw, ttl, rdlen)) => match DnsClasses::spec_from_code((cw % 0x8000) as u16) {
            Ok(class) => if rdlen < 4 {
                Err(DnsError::Truncated)
            } else {
                Ok(
                    (
                        DNSKeyRecordV {
                            dns_class: class,
                            cache_flush: cw >= 0x8000,
                            ttl,
                            flags: be16_at(buf, off + 8),
                            protocol: buf[off + 10],
                            algorithm: buf[off + 11],
                            public_key: buf.subrange(off + 12, off + 8 + rdlen),
                        },
                        8 + rdlen,
                    ),
                )
            },
            Err(e) => Err(e),
        },
        Err(e) => Err(e),
    }
}

impl DNSKeyRecord {
    pub fn new(
        dns_classes: DnsClasses,
        cache_flush: bool,
        ttl: u32,
        flags: u16,
        protocol: u8,
        algorithm: u8,
        public_key: &[u8],
    ) -> (r: DNSKeyRecord)
        ensures
            r@ == (DNSKeyRecordV {
                dns_class: dns_classes,
                cache_flush,
                ttl,
                flags,
                protocol,
                algorithm,
                public_key: public_key@,
            }),
    {
        DNSKeyRecord {
            dns_class: dns_classes,
            cache_flush,
            ttl,
            flags,
            protocol,
            algorithm,
            public_key: vstd::slice::slice_to_vec(public_key),
        }
    }

    pub fn get_type(&self) -> (r: Types)
        ensures
            r == Types::DnsKey,
    {
        Types::DnsKey
    }

    /// Writes the record; DNSKEY carries no name, so it never compresses.
    pub fn encode(&self) -> (r: Result<Vec<u8>, DnsError>)
        ensures
            match (r, spec_encode_dnskey(self@)) {
                (Ok(b), Ok(sp)) => b@ == sp,
                (Err(e1), Err(e2)) => e1 == e2,
                _ => false,
            },
    {
        let mut rdata: Vec<u8> = Vec::new();
        push_u16(&mut rdata, self.flags);
        rdata.push(self.protocol);
        rdata.push(self.algorithm);
        let k = self.public_key.len();
        push_range(&mut rdata, self.public_key.as_slice(), 0, k);
        proof {
            assert(self.public_key@.subrange(0, k as int) =~= self.public_key@);
            assert(rdata@ =~= be16_bytes(self.flags) + seq![self.protocol, self.algorithm]
                + self.public_key@);
        }
        if rdata.len() > 0xFFFF {
            return Err(DnsError::CountOverflow);
        }
        let class_word = if self.cache_flush {
            0x8000 + self.dns_class.get_code()
        } else {
            self.dns_class.get_code()
        };
        encode_envelope(Types::DnsKey.get_code(), class_word, self.ttl, rdata)
    }

    /// Reads a record at `off` (its class position, just past the type).
    pub fn decode(buf: &[u8], off: usize) -> (r: Result<(DNSKeyRecord, usize), DnsError>)
        ensures
            match (r, spec_decode_dnskey(buf@, off as int)) {
                (Ok(p), Ok(sp)) => p.0@ == sp.0 && p.1 == sp.1,
                (Err(e1), Err(e2)) => e1 == e2,
                _ => false,
            },
    {
        let (cw, ttl, rdlen) = match decode_envelope(buf, off) {
            Ok(p) => p,
            Err(e) => return Err(e),
        };
        let dns_class = match DnsClasses::get_class_from_code(cw % 0x8000) {
            Ok(c) => c,
            Err(e) => return Err(e),
        };
        if rdlen < 4 {
            return Err(DnsError::Truncated);
        }
        let n = buf.len();
        proof {
            assert(off + 8 + rdlen <= n);
        }
        let flags = read_u16(buf, off + 8);
        let protocol = buf[off + 10];
        let algorithm = buf[off + 11];
        let mut public_key: Vec<u8> = Vec::new();
        push_range(&mut public_key, buf, off + 12, off + 8 + rdlen);
        Ok(
            (
                DNSKeyRecord {
                    dns_class,
                    cache_flush: cw >= 0x8000,
                    ttl,
                    flags,
                    protocol,
                    algorithm,
                    public_key,
                },
                8 + rdlen,
            ),
        )
    }

    pub fn set_dns_class(&mut self, dns_class: DnsClasses)
        ensures
            final(self)@ == (DNSKeyRecordV { dns_class, ..old(self)@ }),
    {
        self.dns_class = dns_class;
    }

    pub fn get_dns_class(&self) -> (r: DnsClasses)
        ensures
            r == self@.dns_class,
    {
        self.dns_class
    }

    pub fn set_ttl(&mut self, ttl: u32)
        ensures
            final(self)@ == (DNSKeyRecordV { ttl, ..old(self)@ }),
    {
        self.ttl = ttl;
    }

    pub fn get_ttl(&self) -> (r: u32)
        ensures
            r == self@.ttl,
    {
        self.ttl
    }
}

} // verus!
