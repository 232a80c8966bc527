//! The SRV record: a service locator, its payload priority, weight and
//! port followed by the target host's domain name.

use vstd::prelude::*;

use crate::codes::{DnsClasses, Types};
use crate::envelope::{decode_envelope, encode_envelope, spec_envelope, spec_envelope_at};
use crate::errors::DnsError;
use crate::names::{pack_domain, spec_labels, spec_pack_name, spec_read_name, unpack_domain,
    NameTable};
use crate::wire::{be16_at, be16_bytes, push_u16, read_u16};

verus! {

/// A service record: the service lives on `target` at `port`.
#[derive(Debug, Clone, PartialEq, Eq)]
pub struct SrvRecord {
    pub dns_class: DnsClasses,
    pub ttl: u32,
    pub priority: u16,
    pub weight: u16,
    pub port: u16,
    pub target: Vec<u8>,
}

/// The mathematical value of an [`SrvRecord`].
pub ghost struct SrvRecordV {
    pub dns_class: DnsClasses,
    pub ttl: u32,
    pub priority: u16,
    pub weight: u16,
    pub port: u16,
    pub target: Seq<u8>,
}

impl View for SrvRecord {
    type V = SrvRecordV;

    open spec fn view(&self) -> SrvRecordV {
        SrvRecordV {
            dns_class: self.dns_class,
            ttl: self.ttl,
            priority: self.priority,
            weight: self.weight,
            port: self.port,
            target: self.target@,
        }
    }
}

/// The wire form of an SRV record encoded at absolute offset `off` of its
/// type field.
pub open spec fn spec_encode_srv(v: SrvRecordV, table: Map<Seq<u8>, u16>, off: int) -> Result<
    (Seq<u8>, Map<Seq<u8>, u16>),
    DnsError,
> {
    match spec_pack_name(spec_labels(v.target), table, off + 16) {
        Ok((nb, t)) => if nb.len() + 6 > 0xFFFF {
            Err(DnsError::CountOverflow)
        } else {
            Ok(
                (
                    spec_envelope(
                        Types::Srv.spec_code(),
                        v.dns_class.spec_code(),
                        v.ttl,
                        be16_bytes(v.priority) + be16_bytes(v.weight) + be16_bytes(v.port) + nb,
                    ),
                    t,
                ),
            )
        },
        Err(e) => Err(e),
    }
}

/// The record read at `off` (its class position) and the bytes consumed.
pub open spec fn spec_decode_srv(buf: Seq<u8>, off: int) -> Result<(SrvRecordV, int), DnsError> {
    match spec_envelope_at(buf, off) {
        Ok((cw, ttl, rdlen)) => match DnsClasses::spec_from_code(cw) {
            Ok(class) => if rdlen < 6 {
                Err(DnsError::Truncated)
            } else {
                match spec_read_name(buf, off + 14, buf.len() as nat) {
                    Ok((nm, _)) => Ok(
                        (
                            SrvRecordV {
                                dns_class: class,
                                ttl,
                                priority: be16_at(buf, off + 8),
                                weight: be16_at(buf, off + 10),
                                port: be16_at(buf, off + 12),
                                target: nm,
                            },
                            8 + rdlen,
                        ),
                    ),
                    Err(e) => Err(e),
                }
            },
            Err(e) => Err(e),
        },
        Err(e) => Err(e),
    }
}

impl SrvRecord {
    pub fn new(
        dns_classes: DnsClasses,
        ttl: u32,
        priority: u16,
        weight: u16,
        port: u16,
        target: &[u8],
    ) -> (r: SrvRecord)
        ensures
            r@ == (SrvRecordV {
                dns_class: dns_classes,
                ttl,
                priority,
                weight,
                port,
                target: target@,
            }),
    {
        SrvRecord {
            dns_class: dns_classes,
            ttl,
            priority,
            weight,
            port,
            target: vstd::slice::slice_to_vec(target),
        }
    }

    pub fn get_type(&self) -> (r: Types)
        ensures
            r == Types::Srv,
    {
        Types::Srv
    }

    /// Writes the record at absolute offset `off` of its type field.
    pub fn encode(&self, table: &mut NameTable, off: usize) -> (r: Result<Vec<u8>, DnsError>)
        requires
            old(table).inv(),
            off + 16 <= usize::MAX,
        ensures
            final(table).inv(),
            match (r, spec_encode_srv(self@, old(table)@, off as int)) {
                (Ok(b), Ok(sp)) => b@ == sp.0 && final(table)@ == sp.1,
                (Err(e1), Err(e2)) => e1 == e2,
                _ => false,
            },
    {
        let nb = match pack_domain(self.target.as_slice(), table, off + 16) {
            Ok(nb) => nb,
            Err(e) => return Err(e),
        };
        let mut rdata: Vec<u8> = Vec::new();
        push_u16(&mut rdata, self.priority);
        push_u16(&mut rdata, self.weight);
        push_u16(&mut rdata, self.port);
        let mut nb2 = nb;
        let ghost nv = nb2@;
        rdata.append(&mut nb2);
        proof {
            assert(rdata@ =~= be16_bytes(self.priority) + be16_bytes(self.weight) + be16_bytes(
                self.port,
            ) + nv);
        }
        if rdata.len() > 0xFFFF {
            return Err(DnsError::CountOverflow);
        }
        encode_envelope(Types::Srv.get_code(), self.dns_class.get_code(), self.ttl, rdata)
    }

    /// Reads a record at `off` (its class position, just past the type).
    pub fn decode(buf: &[u8], off: usize) -> (r: Result<(SrvRecord, usize), DnsError>)
        ensures
            match (r, spec_decode_srv(buf@, off as int)) {
                (Ok(p), Ok(sp)) => p.0@ == sp.0 && p.1 == sp.1,
                (Err(e1), Err(e2)) => e1 == e2,
                _ => false,
            },
    {
        let (cw, ttl, rdlen) = match decode_envelope(buf, off) {
            Ok(p) => p,
            Err(e) => return Err(e),
        };
        let dns_class = match DnsClasses::get_class_from_code(cw) {
            Ok(c) => c,
            Err(e) => return Err(e),
        };
        if rdlen < 6 {
            return Err(DnsError::Truncated);
        }
        let n = buf.len();
        proof {
            assert(off + 14 <= n);
        }
        let priority = read_u16(buf, off + 8);
        let weight = read_u16(buf, off + 10);
        let port = read_u16(buf, off + 12);
        let (target, _) = match unpack_domain(buf, off + 14) {
            Ok(p) => p,
            Err(e) => return Err(e),
        };
        Ok((SrvRecord { dns_class, ttl, priority, weight, port, target }, 8 + rdlen))
    }

    pub fn set_dns_class(&mut self, dns_class: DnsClasses)
        ensures
            final(self)@ == (SrvRecordV { dns_class, ..old(self)@ }),
    {
        self.dns_class = dns_class;
    }

    pub fn get_dns_class(&self) -> (r: DnsClasses)
        ensures
            r == self@.dns_class,
    {
        self.dns_class
    }

    pub fn set_ttl(&mut self, ttl: u32)
        ensures
            final(self)@ == (SrvRecordV { ttl, ..old(self)@ }),
    {
        self.ttl = ttl;
    }

    pub fn get_ttl(&self) -> (r: u32)
        ensures
            r == self@.ttl,
    {
        self.ttl
    }

    pub fn get_target(&self) -> (r: Vec<u8>)
        ensures
            r@ == self@.target,
    {
        vstd::slice::slice_to_vec(self.target.as_slice())
    }
}

} // verus!
