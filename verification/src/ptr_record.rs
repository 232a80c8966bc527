//! The PTR record: a pointer to a canonical name, its payload a single domain
//! name.

use vstd::prelude::*;

use crate::codes::{DnsClasses, Types};
use crate::envelope::{decode_envelope, encode_envelope, spec_envelope, spec_envelope_at};
use crate::errors::DnsError;
use crate::names::{pack_domain, spec_labels, spec_pack_name, spec_read_name, unpack_domain,
    NameTable};

verus! {

/// A pointer record: the owner name maps back to `domain`.
#[derive(Debug, Clone, PartialEq, Eq)]
pub struct PtrRecord {
    pub dns_class: DnsClasses,
    pub ttl: u32,
    pub domain: Vec<u8>,
}

/// The mathematical value of a [`PtrRecord`].
pub ghost struct PtrRecordV {
    pub dns_class: DnsClasses,
    pub ttl: u32,
    pub domain: Seq<u8>,
}

impl View for PtrRecord {
    type V = PtrRecordV;

    open spec fn view(&self) -> PtrRecordV {
        PtrRecordV { dns_class: self.dns_class, ttl: self.ttl, domain: self.domain@ }
    }
}

/// The wire form of a PTR record encoded at absolute offset `off` (of its
/// type field): the envelope around the packed alias name.
pub open spec fn spec_encode_ptr(v: PtrRecordV, table: Map<Seq<u8>, u16>, off: int) -> Result<
    (Seq<u8>, Map<Seq<u8>, u16>),
    DnsError,
> {
    match spec_pack_name(spec_labels(v.domain), table, off + 10) {
        Ok((nb, t)) => if nb.len() > 0xFFFF {
            Err(DnsError::CountOverflow)
        } else {
            Ok((spec_envelope(Types::Ptr.spec_code(), v.dns_class.spec_code(), v.ttl, nb), t))
        },
        Err(e) => Err(e),
    }
}

/// The record read at `off` (its class position) and the bytes consumed.
pub open spec fn spec_decode_ptr(buf: Seq<u8>, off: int) -> Result<
    (PtrRecordV, int),
    DnsError,
> {
    match spec_envelope_at(buf, off) {
        Ok((cw, ttl, rdlen)) => match DnsClasses::spec_from_code(cw) {
            Ok(class) => match spec_read_name(buf, off + 8, buf.len() as nat) {
                Ok((nm, _)) => Ok(
                    (PtrRecordV { dns_class: class, ttl, domain: nm }, 8 + rdlen),
                ),
                Err(e) => Err(e),
            },
            Err(e) => Err(e),
        },
        Err(e) => Err(e),
    }
}

impl PtrRecord {
    pub fn new(dns_classes: DnsClasses, ttl: u32, domain: &[u8]) -> (r: PtrRecord)
        ensures
            r@ == (PtrRecordV { dns_class: dns_classes, ttl, domain: domain@ }),
    {
        PtrRecord { dns_class: dns_classes, ttl, domain: vstd::slice::slice_to_vec(domain) }
    }

    pub fn get_type(&self) -> (r: Types)
        ensures
            r == Types::Ptr,
    {
        Types::Ptr
    }

    /// Writes the record at absolute offset `off` of its type field.
    pub fn encode(&self, table: &mut NameTable, off: usize) -> (r: Result<Vec<u8>, DnsError>)
        requires
            old(table).inv(),
            off + 10 <= usize::MAX,
        ensures
            final(table).inv(),
            match (r, spec_encode_ptr(self@, old(table)@, off as int)) {
                (Ok(b), Ok(sp)) => b@ == sp.0 && final(table)@ == sp.1,
                (Err(e1), Err(e2)) => e1 == e2,
                _ => false,
            },
    {
        let nb = match pack_domain(self.domain.as_slice(), table, off + 10) {
            Ok(nb) => nb,
            Err(e) => return Err(e),
        };
        encode_envelope(Types::Ptr.get_code(), self.dns_class.get_code(), self.ttl, nb)
    }

    /// Reads a record at `off` (its class position, just past the type).
    pub fn decode(buf: &[u8], off: usize) -> (r: Result<(PtrRecord, usize), DnsError>)
        ensures
            match (r, spec_decode_ptr(buf@, off as int)) {
                (Ok(p), Ok(sp)) => p.0@ == sp.0 && p.1 == sp.1,
                (Err(e1), Err(e2)) => e1 == e2,
                _ => false,
            },
    {
        let (cw, ttl, rdlen) = match decode_envelope(buf, off) {
            Ok(p) => p,
            Err(e) => return Err(e),
        };
        let dns_class = match DnsClasses::get_class_from_code(cw) {
            Ok(c) => c,
            Err(e) => return Err(e),
        };
        let n = buf.len();
        proof {
            assert(off + 8 <= n);
        }
        let (domain, _) = match unpack_domain(buf, off + 8) {
            Ok(p) => p,
            Err(e) => return Err(e),
        };
        Ok((PtrRecord { dns_class, ttl, domain }, 8 + rdlen))
    }

    pub fn set_dns_class(&mut self, dns_class: DnsClasses)
        ensures
            final(self)@ == (PtrRecordV { dns_class, ..old(self)@ }),
    {
        self.dns_class = dns_class;
    }

    pub fn get_dns_class(&self) -> (r: DnsClasses)
        ensures
            r == self@.dns_class,
    {
        self.dns_class
    }

    pub fn set_ttl(&mut self, ttl: u32)
        ensures
            final(self)@ == (PtrRecordV { ttl, ..old(self)@ }),
    {
        self.ttl = ttl;
    }

    pub fn get_ttl(&self) -> (r: u32)
        ensures
            r == self@.ttl,
    {
        self.ttl
    }

    pub fn set_domain(&mut self, domain: &[u8])
        ensures
            final(self)@ == (PtrRecordV { domain: domain@, ..old(self)@ }),
    {
        self.domain = vstd::slice::slice_to_vec(domain);
    }

    pub fn get_domain(&self) -> (r: Vec<u8>)
        ensures
            r@ == self@.domain,
    {
        vstd::slice::slice_to_vec(self.domain.as_slice())
    }
}

} // verus!
