//! The TXT record: opaque text attached to a name.  Supports the mDNS
//! cache-flush flag in the class field's high bit.

use vstd::prelude::*;

use crate::codes::{DnsClasses, Types};
use crate::envelope::{decode_envelope, encode_envelope, spec_class_word, spec_envelope,
    spec_envelope_at};
use crate::errors::DnsError;
use crate::wire::push_range;

verus! {

/// Opaque text attached to the owner name.
#[derive(Debug, Clone, PartialEq, Eq)]
pub struct TxtRecord {
    pub dns_class: DnsClasses,
    pub cache_flush: bool,
    pub ttl: u32,
    pub record: Vec<u8>,
}

/// The mathematical value of a [`TxtRecord`].
pub ghost struct TxtRecordV {
    pub dns_class: DnsClasses,
    pub cache_flush: bool,
    pub ttl: u32,
    pub record: Seq<u8>,
}

impl View for TxtRecord {
    type V = TxtRecordV;

    open spec fn view(&self) -> TxtRecordV {
        TxtRecordV {
            dns_class: self.dns_class,
            cache_flush: self.cache_flush,
            ttl: self.ttl,
            record: self.record@,
        }
    }
}

/// The wire form of a TXT record: the envelope around the raw text.
pub open spec fn spec_encode_txt(v: TxtRecordV) -> Result<Seq<u8>, DnsError> {
    if v.record.len() > 0xFFFF {
        Err(DnsError::CountOverflow)
    } else {
        Ok(
            spec_envelope(
                Types::Txt.spec_code(),
                spec_class_word(v.dns_class.spec_code(), v.cache_flush),
                v.ttl,
                v.record,
            ),
        )
    }
}

/// The record read at `off` (its class position) and the bytes consumed.
pub open spec fn spec_decode_txt(buf: Seq<u8>, off: int) -> Result<(TxtRecordV, int), DnsError> {
    match spec_envelope_at(buf, off) {
        Ok((cw, ttl, rdlen)) => match DnsClasses::spec_from_code((cw % 0x8000) as u16) {
            Ok(class) => Ok(
                (
                    TxtRecordV {
                        dns_class: class,
                        cache_flush: cw >= 0x8000,
                        ttl,
                        record: buf.subrange(off + 8, off + 8 + rdlen),
                    },
                    8 + rdlen,
                ),
            ),
            Err(e) => Err(e),
        },
        Err(e) => Err(e),
    }
}

impl TxtRecord {
    pub fn new(dns_classes: DnsClasses, cache_flush: bool, ttl: u32, record: &[u8]) -> (r:
        TxtRecord)
        ensures
            r@ == (TxtRecordV {
                dns_class: dns_classes,
                cache_flush,
                ttl,
                record: record@,
            }),
    {
        TxtRecord {
            dns_class: dns_classes,
            cache_flush,
            ttl,
            record: vstd::slice::slice_to_vec(record),
        }
    }

    pub fn get_type(&self) -> (r: Types)
        ensures
            r == Types::Txt,
    {
        Types::Txt
    }

    /// Writes the record; TXT carries no name, so it never compresses.
    pub fn encode(&self) -> (r: Result<Vec<u8>, DnsError>)
        ensures
            match (r, spec_encode_txt(self@)) {
                (Ok(b), Ok(sp)) => b@ == sp,
                (Err(e1), Err(e2)) => e1 == e2,
                _ => false,
            },
    {
        let rdata = vstd::slice::slice_to_vec(self.record.as_slice());
        let class_word = if self.cache_flush {
            0x8000 + self.dns_class.get_code()
        } else {
            self.dns_class.get_code()
        };
        encode_envelope(Types::Txt.get_code(), class_word, self.ttl, rdata)
    }

    /// Reads a record at `off` (its class position, just past the type).
    pub fn decode(buf: &[u8], off: usize) -> (r: Result<(TxtRecord, usize), DnsError>)
        ensures
            match (r, spec_decode_txt(buf@, off as int)) {
                (Ok(p), Ok(sp)) => p.0@ == sp.0 && p.1 == sp.1,
                (Err(e1), Err(e2)) => e1 == e2,
                _ => false,
            },
    {
        let (cw, ttl, rdlen) = match decode_envelope(buf, off) {
            Ok(p) => p,
            Err(e) => return Err(e),
        };
        let dns_class = match DnsClasses::get_class_from_code(cw % 0x8000) {
            Ok(c) => c,
            Err(e) => return Err(e),
        };
        let n = buf.len();
        proof {
            assert(off + 8 + rdlen <= n);
        }
        let mut record: Vec<u8> = Vec::new();
        push_range(&mut record, buf, off + 8, off + 8 + rdlen);
        Ok((TxtRecord { dns_class, cache_flush: cw >= 0x8000, ttl, record }, 8 + rdlen))
    }

    pub fn set_dns_class(&mut self, dns_class: DnsClasses)
        ensures
            final(self)@ == (TxtRecordV { dns_class, ..old(self)@ }),
    {
        self.dns_class = dns_class;
    }

    pub fn get_dns_class(&self) -> (r: DnsClasses)
        ensures
            r == self@.dns_class,
    {
        self.dns_class
    }

    pub fn set_ttl(&mut self, ttl: u32)
        ensures
            final(self)@ == (TxtRecordV { ttl, ..old(self)@ }),
    {
        self.ttl = ttl;
    }

    pub fn get_ttl(&self) -> (r: u32)
        ensures
            r == self@.ttl,
    {
        self.ttl
    }

    pub fn set_record(&mut self, record: &[u8])
        ensures
            final(self)@ == (TxtRecordV { record: record@, ..old(self)@ }),
    {
        self.record = vstd::slice::slice_to_vec(record);
    }

    pub fn get_record(&self) -> (r: Vec<u8>)
        ensures
            r@ == self@.record,
    {
        vstd::slice::slice_to_vec(self.record.as_slice())
    }
}

} // verus!
