//! The SOA record: the start of authority, its payload the primary name
//! server, the responsible mailbox, and five 32-bit timing counters.

use vstd::prelude::*;

use crate::codes::{DnsClasses, Types};
use crate::envelope::{decode_envelope, encode_envelope, spec_envelope, spec_envelope_at};
use crate::errors::DnsError;
use crate::names::{lemma_read_name_end, pack_domain, spec_labels, spec_pack_name, spec_read_name,
    unpack_domain, NameTable};
use crate::wire::{be32_at, be32_bytes, push_u32, read_u32};

verus! {

/// A start-of-authority record.
#[derive(Debug, Clone, PartialEq, Eq)]
pub struct SoaRecord {
    pub dns_class: DnsClasses,
    pub ttl: u32,
    pub domain: Vec<u8>,
    pub mailbox: Vec<u8>,
    pub serial_number: u32,
    pub refresh_interval: u32,
    pub retry_interval: u32,
    pub expire_limit: u32,
    pub minimum_ttl: u32,
}

/// The mathematical value of an [`SoaRecord`].
pub ghost struct SoaRecordV {
    pub dns_class: DnsClasses,
    pub ttl: u32,
    pub domain: Seq<u8>,
    pub mailbox: Seq<u8>,
    pub serial_number: u32,
    pub refresh_interval: u32,
    pub retry_interval: u32,
    pub expire_limit: u32,
    pub minimum_ttl: u32,
}

impl View for SoaRecord {
    type V = SoaRecordV;

    open spec fn view(&self) -> SoaRecordV {
        SoaRecordV {
            dns_class: self.dns_class,
            ttl: self.ttl,
            domain: self.domain@,
            mailbox: self.mailbox@,
            serial_number: self.serial_number,
            refresh_interval: self.refresh_interval,
            retry_interval: self.retry_interval,
            expire_limit: self.expire_limit,
            minimum_ttl: self.minimum_ttl,
        }
    }
}

/// The five timing counters in wire order.
pub open spec fn spec_soa_counters(v: SoaRecordV) -> Seq<u8> {
    be32_bytes(v.serial_number) + be32_bytes(v.refresh_interval) + be32_bytes(v.retry_interval)
        + be32_bytes(v.expire_limit) + be32_bytes(v.minimum_ttl)
}

/// The wire form of an SOA record encoded at absolute offset `off` of its
/// type field: both names packed in order (the mailbox may point into the
/// primary name), then the counters.
pub open spec fn spec_encode_soa(v: SoaRecordV, table: Map<Seq<u8>, u16>, off: int) -> Result<
    (Seq<u8>, Map<Seq<u8>, u16>),
    DnsError,
> {
    match spec_pack_name(spec_labels(v.domain), table, off + 10) {
        Ok((nb1, t1)) => if nb1.len() + 20 > 0xFFFF {
            Err(DnsError::CountOverflow)
        } else {
            match spec_pack_name(spec_labels(v.mailbox), t1, off + 10 + nb1.len()) {
                Ok((nb2, t2)) => if nb1.len() + nb2.len() + 20 > 0xFFFF {
                    Err(DnsError::CountOverflow)
                } else {
                    Ok(
                        (
                            spec_envelope(
                                Types::Soa.spec_code(),
                                v.dns_class.spec_code(),
                                v.ttl,
                                nb1 + nb2 + spec_soa_counters(v),
                            ),
                            t2,
                        ),
                    )
                },
                Err(e) => Err(e),
            }
        },
        Err(e) => Err(e),
    }
}

/// The record read at `off` (its class position) and the bytes consumed.
/// The counters must lie within the declared payload; a payload whose
/// declared length disagrees with what the names consume is truncated.
pub open spec fn spec_decode_soa(buf: Seq<u8>, off: int) -> Result<(SoaRecordV, int), DnsError> {
    match spec_envelope_at(buf, off) {
        Ok((cw, ttl, rdlen)) => match DnsClasses::spec_from_code(cw) {
            Ok(class) => match spec_read_name(buf, off + 8, buf.len() as nat) {
                Ok((nm1, e1)) => match spec_read_name(buf, e1, buf.len() as nat) {
                    Ok((nm2, e2)) => if e2 + 20 > off + 8 + rdlen {
                        Err(DnsError::Truncated)
                    } else {
                        Ok(
                            (
                                SoaRecordV {
                                    dns_class: class,
                                    ttl,
                                    domain: nm1,
                                    mailbox: nm2,
                                    serial_number: be32_at(buf, e2),
                                    refresh_interval: be32_at(buf, e2 + 4),
                                    retry_interval: be32_at(buf, e2 + 8),
                                    expire_limit: be32_at(buf, e2 + 12),
                                    minimum_ttl: be32_at(buf, e2 + 16),
                                },
                                8 + rdlen,
                            ),
                        )
                    },
                    Err(e) => Err(e),
                },
                Err(e) => Err(e),
            },
            Err(e) => Err(e),
        },
        Err(e) => Err(e),
    }
}

impl SoaRecord {
    pub fn new(
        dns_classes: DnsClasses,
        ttl: u32,
        domain: &[u8],
        mailbox: &[u8],
        serial_number: u32,
        refresh_interval: u32,
        retry_interval: u32,
        expire_limit: u32,
        minimum_ttl: u32,
    ) -> (r: SoaRecord)
        ensures
            r@ == (SoaRecordV {
                dns_class: dns_classes,
                ttl,
                domain: domain@,
                mailbox: mailbox@,
                serial_number,
                refresh_interval,
                retry_interval,
                expire_limit,
                minimum_ttl,
            }),
    {
        SoaRecord {
            dns_class: dns_classes,
            ttl,
            domain: vstd::slice::slice_to_vec(domain),
            mailbox: vstd::slice::slice_to_vec(mailbox),
            serial_number,
            refresh_interval,
            retry_interval,
            expire_limit,
            minimum_ttl,
        }
    }

    pub fn get_type(&self) -> (r: Types)
        ensures
            r == Types::Soa,
    {
        Types::Soa
    }

    /// Writes the record at absolute offset `off` of its type field.
    #[verifier::rlimit(60)]
    pub fn encode(&self, table: &mut NameTable, off: usize) -> (r: Result<Vec<u8>, DnsError>)
        requires
            old(table).inv(),
            off + 0x10000 <= usize::MAX,
        ensures
            final(table).inv(),
            match (r, spec_encode_soa(self@, old(table)@, off as int)) {
                (Ok(b), Ok(sp)) => b@ == sp.0 && final(table)@ == sp.1,
                (Err(e1), Err(e2)) => e1 == e2,
                _ => false,
            },
    {
        let mut rdata = match pack_domain(self.domain.as_slice(), table, off + 10) {
            Ok(nb) => nb,
            Err(e) => return Err(e),
        };
        if rdata.len() > 0xFFFF - 20 {
            return Err(DnsError::CountOverflow);
        }
        let ghost nb1 = rdata@;
        let mut nb2 = match pack_domain(self.mailbox.as_slice(), table, off + 10 + rdata.len()) {
            Ok(nb) => nb,
            Err(e) => return Err(e),
        };
        let ghost nv2 = nb2@;
        rdata.append(&mut nb2);
        proof {
            assert(rdata@ =~= nb1 + nv2);
        }
        let mut counters: Vec<u8> = Vec::new();
        push_u32(&mut counters, self.serial_number);
        push_u32(&mut counters, self.refresh_interval);
        push_u32(&mut counters, self.retry_interval);
        push_u32(&mut counters, self.expire_limit);
        push_u32(&mut counters, self.minimum_ttl);
        proof {
            assert(counters@ =~= spec_soa_counters(self@));
        }
        let ghost cv = counters@;
        rdata.append(&mut counters);
        proof {
            assert(rdata@ =~= nb1 + nv2 + cv);
        }
        if rdata.len() > 0xFFFF {
            return Err(DnsError::CountOverflow);
        }
        encode_envelope(Types::Soa.get_code(), self.dns_class.get_code(), self.ttl, rdata)
    }

    /// Reads a record at `off` (its class position, just past the type).
    pub fn decode(buf: &[u8], off: usize) -> (r: Result<(SoaRecord, usize), DnsError>)
        ensures
            match (r, spec_decode_soa(buf@, off as int)) {
                (Ok(p), Ok(sp)) => p.0@ == sp.0 && p.1 == sp.1,
                (Err(e1), Err(e2)) => e1 == e2,
                _ => false,
            },
    {
        let (cw, ttl, rdlen) = match decode_envelope(buf, off) {
            Ok(p) => p,
            Err(e) => return Err(e),
        };
        let dns_class = match DnsClasses::get_class_from_code(cw) {
            Ok(c) => c,
            Err(e) => return Err(e),
        };
        let n = buf.len();
        proof {
            assert(off + 8 <= n);
        }
        let (domain, u1) = match unpack_domain(buf, off + 8) {
            Ok(p) => p,
            Err(e) => return Err(e),
        };
        proof {
            lemma_read_name_end(buf@, off as int + 8, buf@.len() as nat);
        }
        let (mailbox, u2) = match unpack_domain(buf, off + 8 + u1) {
            Ok(p) => p,
            Err(e) => return Err(e),
        };
        if u1 > rdlen || u2 > rdlen - u1 || 20 > rdlen - u1 - u2 {
            return Err(DnsError::Truncated);
        }
        let p2 = off + 8 + u1 + u2;
        let serial_number = read_u32(buf, p2);
        let refresh_interval = read_u32(buf, p2 + 4);
        let retry_interval = read_u32(buf, p2 + 8);
        let expire_limit = read_u32(buf, p2 + 12);
        let minimum_ttl = read_u32(buf, p2 + 16);
        Ok(
            (
                SoaRecord {
                    dns_class,
                    ttl,
                    domain,
                    mailbox,
                    serial_number,
                    refresh_interval,
                    retry_interval,
                    expire_limit,
                    minimum_ttl,
                },
                8 + rdlen,
            ),
        )
    }

    pub fn set_dns_class(&mut self, dns_class: DnsClasses)
        ensures
            final(self)@ == (SoaRecordV { dns_class, ..old(self)@ }),
    {
        self.dns_class = dns_class;
    }

    pub fn get_dns_class(&self) -> (r: DnsClasses)
        ensures
            r == self@.dns_class,
    {
        self.dns_class
    }

    pub fn set_ttl(&mut self, ttl: u32)
        ensures
            final(self)@ == (SoaRecordV { ttl, ..old(self)@ }),
    {
        self.ttl = ttl;
    }

    pub fn get_ttl(&self) -> (r: u32)
        ensures
            r == self@.ttl,
    {
        self.ttl
    }

    pub fn set_domain(&mut self, domain: &[u8])
        ensures
            final(self)@ == (SoaRecordV { domain: domain@, ..old(self)@ }),
    {
        self.domain = vstd::slice::slice_to_vec(domain);
    }

    pub fn get_domain(&self) -> (r: Vec<u8>)
        ensures
            r@ == self@.domain,
    {
        vstd::slice::slice_to_vec(self.domain.as_slice())
    }

    pub fn get_mailbox(&self) -> (r: Vec<u8>)
        ensures
            r@ == self@.mailbox,
    {
        vstd::slice::slice_to_vec(self.mailbox.as_slice())
    }
}

} // verus!
