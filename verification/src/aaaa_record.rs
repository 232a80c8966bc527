//! The AAAA record: a 16-byte IPv6 address.  Supports the mDNS cache-flush
//! flag in the class field's high bit.

use vstd::prelude::*;

use crate::codes::{DnsClasses, Types};
use crate::envelope::{decode_envelope, encode_envelope, spec_class_word, spec_envelope,
    spec_envelope_at};
use crate::errors::DnsError;

verus! {

/// An IPv6 address record.
#[derive(Debug, Clone, PartialEq, Eq)]
pub struct AAAARecord {
    pub dns_class: DnsClasses,
    pub cache_flush: bool,
    pub ttl: u32,
    pub address: [u8; 16],
}

/// The mathematical value of an [`AAAARecord`].
pub ghost struct AAAARecordV {
    pub dns_class: DnsClasses,
    pub cache_flush: bool,
    pub ttl: u32,
    pub address: Seq<u8>,
}

impl View for AAAARecord {
    type V = AAAARecordV;

    open spec fn view(&self) -> AAAARecordV {
        AAAARecordV {
            dns_class: self.dns_class,
            cache_flush: self.cache_flush,
            ttl: self.ttl,
            address: self.address@,
        }
    }
}

/// The wire form of an AAAA record: the envelope around the sixteen
/// address bytes.
pub open spec fn spec_encode_aaaa(v: AAAARecordV) -> Seq<u8> {
    spec_envelope(
        Types::Aaaa.spec_code(),
        spec_class_word(v.dns_class.spec_code(), v.cache_flush),
        v.ttl,
        v.address,
    )
}

/// The record read at `off` (its class position) and the bytes consumed.
/// A payload that is not exactly sixteen bytes is rejected as truncated.
pub open spec fn spec_decode_aaaa(buf: Seq<u8>, off: int) -> Result<(AAAARecordV, int), DnsError> {
    match spec_envelope_at(buf, off) {
        Ok((cw, ttl, rdlen)) => match DnsClasses::spec_from_code((cw % 0x8000) as u16) {
            Ok(class) => if rdlen != 16 {
                Err(DnsError::Truncated)
            } else {
                Ok(
                    (
                        AAAARecordV {
                            dns_class: class,
                            cache_flush: cw >= 0x8000,
                            ttl,
                            address: buf.subrange(off + 8, off + 24),
                        },
                        24,
                    ),
                )
            },
            Err(e) => Err(e),
        },
        Err(e) => Err(e),
    }
}

impl AAAARecord {
    pub fn new(dns_classes: DnsClasses, cache_flush: bool, ttl: u32, address: [u8; 16]) -> (r:
        AAAARecord)
        ensures
            r@ == (AAAARecordV { dns_class: dns_classes, cache_flush, ttl, address: address@ }),
    {
        AAAARecord { dns_class: dns_classes, cache_flush, ttl, address }
    }

    pub fn get_type(&self) -> (r: Types)
        ensures
            r == Types::Aaaa,
    {
        Types::Aaaa
    }

    /// Writes the record; AAAA carries no name, so it never compresses.
    pub fn encode(&self) -> (r: Result<Vec<u8>, DnsError>)
        ensures
            match r {
                Ok(b) => b@ == spec_encode_aaaa(self@),
                Err(_) => false,
            },
    {
        let mut rdata: Vec<u8> = Vec::new();
        let mut i: usize = 0;
        while i < 16
            invariant
                0 <= i <= 16,
                rdata@ == self.address@.subrange(0, i as int),
        decreases 16 - i,
        {
            rdata.push(self.address[i]);
            i += 1;
            proof {
                assert(rdata@ =~= self.address@.subrange(0, i as int));
            }
        }
        proof {
            assert(rdata@ =~= self.address@);
        }
        let class_word = if self.cache_flush {
            0x8000 + self.dns_class.get_code()
        } else {
            self.dns_class.get_code()
        };
        encode_envelope(Types::Aaaa.get_code(), class_word, self.ttl, rdata)
    }

    /// Reads a record at `off` (its class position, just past the type).
    pub fn decode(buf: &[u8], off: usize) -> (r: Result<(AAAARecord, usize), DnsError>)
        ensures
            match (r, spec_decode_aaaa(buf@, off as int)) {
                (Ok(p), Ok(sp)) => p.0@ == sp.0 && p.1 == sp.1,
                (Err(e1), Err(e2)) => e1 == e2,
                _ => false,
            },
    {
        let (cw, ttl, rdlen) = match decode_envelope(buf, off) {
            Ok(p) => p,
            Err(e) => return Err(e),
        };
        let dns_class = match DnsClasses::get_class_from_code(cw % 0x8000) {
            Ok(c) => c,
            Err(e) => return Err(e),
        };
        if rdlen != 16 {
            return Err(DnsError::Truncated);
        }
        let n = buf.len();
        proof {
            assert(off + 24 <= n);
        }
        let address: [u8; 16] = [
            buf[off + 8],
            buf[off + 9],
            buf[off + 10],
            buf[off + 11],
            buf[off + 12],
            buf[off + 13],
            buf[off + 14],
            buf[off + 15],
            buf[off + 16],
            buf[off + 17],
            buf[off + 18],
            buf[off + 19],
            buf[off + 20],
            buf[off + 21],
            buf[off + 22],
            buf[off + 23],
        ];
        proof {
            assert(address@ =~= buf@.subrange(off as int + 8, off as int + 24));
        }
        Ok((AAAARecord { dns_class, cache_flush: cw >= 0x8000, ttl, address }, 24))
    }

    pub fn set_dns_class(&mut self, dns_class: DnsClasses)
        ensures
            final(self)@ == (AAAARecordV { dns_class, ..old(self)@ }),
    {
        self.dns_class = dns_class;
    }

    pub fn get_dns_class(&self) -> (r: DnsClasses)
        ensures
            r == self@.dns_class,
    {
        self.dns_class
    }

    pub fn set_ttl(&mut self, ttl: u32)
        ensures
            final(self)@ == (AAAARecordV { ttl, ..old(self)@ }),
    {
        self.ttl = ttl;
    }

    pub fn get_ttl(&self) -> (r: u32)
        ensures
            r == self@.ttl,
    {
        self.ttl
    }

    pub fn set_address(&mut self, address: [u8; 16])
        ensures
            final(self)@ == (AAAARecordV { address: address@, ..old(self)@ }),
    {
        self.address = address;
    }

    pub fn get_address(&self) -> (r: [u8; 16])
        ensures
            r@ == self@.address,
    {
        self.address
    }
}

} // verus!
