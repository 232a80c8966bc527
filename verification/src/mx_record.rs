//! The MX record: a mail exchanger, its payload a 16-bit priority followed
//! by the exchanger's domain name.

use vstd::prelude::*;

use crate::codes::{DnsClasses, Types};
use crate::envelope::{decode_envelope, encode_envelope, spec_envelope, spec_envelope_at};
use crate::errors::DnsError;
use crate::names::{pack_domain, spec_labels, spec_pack_name, spec_read_name, unpack_domain,
    NameTable};
use crate::wire::{be16_at, be16_bytes, read_u16};

verus! {

/// A mail-exchanger record: mail for the owner goes to `domain`, lower
/// `priority` preferred.
#[derive(Debug, Clone, PartialEq, Eq)]
pub struct MxRecord {
    pub dns_class: DnsClasses,
    pub ttl: u32,
    pub priority: u16,
    pub domain: Vec<u8>,
}

/// The mathematical value of an [`MxRecord`].
pub ghost struct MxRecordV {
    pub dns_class: DnsClasses,
    pub ttl: u32,
    pub priority: u16,
    pub domain: Seq<u8>,
}

impl View for MxRecord {
    type V = MxRecordV;

    open spec fn view(&self) -> MxRecordV {
        MxRecordV {
            dns_class: self.dns_class,
            ttl: self.ttl,
            priority: self.priority,
            domain: self.domain@,
        }
    }
}

/// The wire form of an MX record encoded at absolute offset `off` of its
/// type field: the envelope around the priority and the packed name.
pub open spec fn spec_encode_mx(v: MxRecordV, table: Map<Seq<u8>, u16>, off: int) -> Result<
    (Seq<u8>, Map<Seq<u8>, u16>),
    DnsError,
> {
    match spec_pack_name(spec_labels(v.domain), table, off + 12) {
        Ok((nb, t)) => if nb.len() + 2 > 0xFFFF {
            Err(DnsError::CountOverflow)
        } else {
            Ok(
                (
                    spec_envelope(
                        Types::Mx.spec_code(),
                        v.dns_class.spec_code(),
                        v.ttl,
                        be16_bytes(v.priority) + nb,
                    ),
                    t,
                ),
            )
        },
        Err(e) => Err(e),
    }
}

/// The record read at `off` (its class position) and the bytes consumed.
pub open spec fn spec_decode_mx(buf: Seq<u8>, off: int) -> Result<(MxRecordV, int), DnsError> {
    match spec_envelope_at(buf, off) {
        Ok((cw, ttl, rdlen)) => match DnsClasses::spec_from_code(cw) {
            Ok(class) => if rdlen < 2 {
                Err(DnsError::Truncated)
            } else {
                match spec_read_name(buf, off + 10, buf.len() as nat) {
                    Ok((nm, _)) => Ok(
                        (
                            MxRecordV {
                                dns_class: class,
                                ttl,
                                priority: be16_at(buf, off + 8),
                                domain: nm,
                            },
                            8 + rdlen,
                        ),
                    ),
                    Err(e) => Err(e),
                }
            },
            Err(e) => Err(e),
        },
        Err(e) => Err(e),
    }
}

impl MxRecord {
    pub fn new(dns_classes: DnsClasses, ttl: u32, priority: u16, domain: &[u8]) -> (r: MxRecord)
        ensures
            r@ == (MxRecordV { dns_class: dns_classes, ttl, priority, domain: domain@ }),
    {
        MxRecord {
            dns_class: dns_classes,
            ttl,
            priority,
            domain: vstd::slice::slice_to_vec(domain),
        }
    }

    pub fn get_type(&self) -> (r: Types)
        ensures
            r == Types::Mx,
    {
        Types::Mx
    }

    /// Writes the record at absolute offset `off` of its type field.
    pub fn encode(&self, table: &mut NameTable, off: usize) -> (r: Result<Vec<u8>, DnsError>)
        requires
            old(table).inv(),
            off + 12 <= usize::MAX,
        ensures
            final(table).inv(),
            match (r, spec_encode_mx(self@, old(table)@, off as int)) {
                (Ok(b), Ok(sp)) => b@ == sp.0 && final(table)@ == sp.1,
                (Err(e1), Err(e2)) => e1 == e2,
                _ => false,
            },
    {
        let nb = match pack_domain(self.domain.as_slice(), table, off + 12) {
            Ok(nb) => nb,
            Err(e) => return Err(e),
        };
        let mut rdata: Vec<u8> = Vec::new();
        crate::wire::push_u16(&mut rdata, self.priority);
        let mut nb2 = nb;
        let ghost nv = nb2@;
        rdata.append(&mut nb2);
        proof {
            assert(rdata@ =~= be16_bytes(self.priority) + nv);
        }
        if rdata.len() > 0xFFFF {
            return Err(DnsError::CountOverflow);
        }
        encode_envelope(Types::Mx.get_code(), self.dns_class.get_code(), self.ttl, rdata)
    }

    /// Reads a record at `off` (its class position, just past the type).
    pub fn decode(buf: &[u8], off: usize) -> (r: Result<(MxRecord, usize), DnsError>)
        ensures
            match (r, spec_decode_mx(buf@, off as int)) {
                (Ok(p), Ok(sp)) => p.0@ == sp.0 && p.1 == sp.1,
                (Err(e1), Err(e2)) => e1 == e2,
                _ => false,
            },
    {
        let (cw, ttl, rdlen) = match decode_envelope(buf, off) {
            Ok(p) => p,
            Err(e) => return Err(e),
        };
        let dns_class = match DnsClasses::get_class_from_code(cw) {
            Ok(c) => c,
            Err(e) => return Err(e),
        };
        if rdlen < 2 {
            return Err(DnsError::Truncated);
        }
        let n = buf.len();
        proof {
            assert(off + 10 <= n);
        }
        let priority = read_u16(buf, off + 8);
        let (domain, _) = match unpack_domain(buf, off + 10) {
            Ok(p) => p,
            Err(e) => return Err(e),
        };
        Ok((MxRecord { dns_class, ttl, priority, domain }, 8 + rdlen))
    }

    pub fn set_dns_class(&mut self, dns_class: DnsClasses)
        ensures
            final(self)@ == (MxRecordV { dns_class, ..old(self)@ }),
    {
        self.dns_class = dns_class;
    }

    pub fn get_dns_class(&self) -> (r: DnsClasses)
        ensures
            r == self@.dns_class,
    {
        self.dns_class
    }

    pub fn set_ttl(&mut self, ttl: u32)
        ensures
            final(self)@ == (MxRecordV { ttl, ..old(self)@ }),
    {
        self.ttl = ttl;
    }

    pub fn get_ttl(&self) -> (r: u32)
        ensures
            r == self@.ttl,
    {
        self.ttl
    }

    pub fn set_priority(&mut self, priority: u16)
        ensures
            final(self)@ == (MxRecordV { priority, ..old(self)@ }),
    {
        self.priority = priority;
    }

    pub fn get_priority(&self) -> (r: u16)
        ensures
            r == self@.priority,
    {
        self.priority
    }

    pub fn set_domain(&mut self, domain: &[u8])
        ensures
            final(self)@ == (MxRecordV { domain: domain@, ..old(self)@ }),
    {
        self.domain = vstd::slice::slice_to_vec(domain);
    }

    pub fn get_domain(&self) -> (r: Vec<u8>)
        ensures
            r@ == self@.domain,
    {
        vstd::slice::slice_to_vec(self.domain.as_slice())
    }
}

} // verus!
