//! The CNAME record: a canonical-name alias, its payload a single domain
//! name.

use vstd::prelude::*;

use crate::codes::{lemma_class_code_round_trip, DnsClasses, Types};
use crate::envelope::{decode_envelope, encode_envelope, spec_envelope, spec_envelope_at};
use crate::errors::DnsError;
use crate::names::{lemma_name_round_trip, no_suffix_hit, pack_domain, spec_labels,
    spec_pack_name, spec_read_name, unpack_domain, wf_name, NameTable};

verus! {

/// An alias record: the owner name stands for `domain`.
#[derive(Debug, Clone, PartialEq, Eq)]
pub struct CNameRecord {
    pub dns_class: DnsClasses,
    pub ttl: u32,
    pub domain: Vec<u8>,
}

/// The mathematical value of a [`CNameRecord`].
pub ghost struct CNameRecordV {
    pub dns_class: DnsClasses,
    pub ttl: u32,
    pub domain: Seq<u8>,
}

impl View for CNameRecord {
    type V = CNameRecordV;

    open spec fn view(&self) -> CNameRecordV {
        CNameRecordV { dns_class: self.dns_class, ttl: self.ttl, domain: self.domain@ }
    }
}

/// The wire form of a CNAME record encoded at absolute offset `off` (of its
/// type field): the envelope around the packed alias name.
pub open spec fn spec_encode_cname(v: CNameRecordV, table: Map<Seq<u8>, u16>, off: int) -> Result<
    (Seq<u8>, Map<Seq<u8>, u16>),
    DnsError,
> {
    match spec_pack_name(spec_labels(v.domain), table, off + 10) {
        Ok((nb, t)) => if nb.len() > 0xFFFF {
            Err(DnsError::CountOverflow)
        } else {
            Ok((spec_envelope(Types::Cname.spec_code(), v.dns_class.spec_code(), v.ttl, nb), t))
        },
        Err(e) => Err(e),
    }
}

/// The record read at `off` (its class position) and the bytes consumed.
pub open spec fn spec_decode_cname(buf: Seq<u8>, off: int) -> Result<
    (CNameRecordV, int),
    DnsError,
> {
    match spec_envelope_at(buf, off) {
        Ok((cw, ttl, rdlen)) => match DnsClasses::spec_from_code(cw) {
            Ok(class) => match spec_read_name(buf, off + 8, buf.len() as nat) {
                Ok((nm, _)) => Ok(
                    (CNameRecordV { dns_class: class, ttl, domain: nm }, 8 + rdlen),
                ),
                Err(e) => Err(e),
            },
            Err(e) => Err(e),
        },
        Err(e) => Err(e),
    }
}

/// Round trip: a CNAME record whose alias name is wire-fit and not yet
/// compressible decodes, from wherever its encoding ended up in a message,
/// to exactly the record that was encoded.
pub proof fn lemma_cname_round_trip(
    v: CNameRecordV,
    table: Map<Seq<u8>, u16>,
    off: int,
    buf: Seq<u8>,
    pos: int,
)
    requires
        wf_name(v.domain),
        no_suffix_hit(spec_labels(v.domain), table),
        spec_encode_cname(v, table, off) is Ok,
        0 <= pos,
        pos + spec_encode_cname(v, table, off)->Ok_0.0.len() <= buf.len(),
        buf.subrange(
            pos,
            pos + spec_encode_cname(v, table, off)->Ok_0.0.len(),
        ) == spec_encode_cname(v, table, off)->Ok_0.0,
    ensures
        spec_decode_cname(buf, pos + 2) == Ok::<(CNameRecordV, int), DnsError>(
            (v, spec_encode_cname(v, table, off)->Ok_0.0.len() as int - 2),
        ),
{
    let nb = spec_pack_name(spec_labels(v.domain), table, off + 10)->Ok_0.0;
    let b = spec_encode_cname(v, table, off)->Ok_0.0;
    assert(b =~= crate::wire::be16_bytes(Types::Cname.spec_code()) + crate::wire::be16_bytes(
        v.dns_class.spec_code(),
    ) + crate::wire::be32_bytes(v.ttl) + crate::wire::be16_bytes(nb.len() as u16) + nb);
    assert(b.len() == 10 + nb.len());
    assert forall|k: int| 0 <= k < b.len() implies buf[pos + k] == #[trigger] b[k] by {
        assert(buf.subrange(pos, pos + b.len())[k] == b[k]);
    }
    let cb = crate::wire::be16_bytes(v.dns_class.spec_code());
    let tb = crate::wire::be32_bytes(v.ttl);
    let lb = crate::wire::be16_bytes(nb.len() as u16);
    assert(b[2] == cb[0] && b[3] == cb[1]);
    assert(b[4] == tb[0] && b[5] == tb[1] && b[6] == tb[2] && b[7] == tb[3]);
    assert(b[8] == lb[0] && b[9] == lb[1]);
    assert(crate::wire::be16_at(buf, pos + 2) == v.dns_class.spec_code());
    assert(crate::wire::be32_at(buf, pos + 4) == v.ttl);
    assert(crate::wire::be16_at(buf, pos + 8) == nb.len());
    lemma_class_code_round_trip(v.dns_class);
    assert(buf.subrange(pos + 10, pos + 10 + nb.len()) =~= nb) by {
        assert forall|k: int| 0 <= k < nb.len() implies buf.subrange(
            pos + 10,
            pos + 10 + nb.len(),
        )[k] == nb[k] by {
            assert(buf[pos + (10 + k)] == b[10 + k]);
            assert(b[10 + k] == nb[k]);
        }
    }
    lemma_name_round_trip(v.domain, table, off + 10, buf, pos + 10, buf.len() as nat);
}

impl CNameRecord {
    pub fn new(dns_classes: DnsClasses, ttl: u32, domain: &[u8]) -> (r: CNameRecord)
        ensures
            r@ == (CNameRecordV { dns_class: dns_classes, ttl, domain: domain@ }),
    {
        CNameRecord { dns_class: dns_classes, ttl, domain: vstd::slice::slice_to_vec(domain) }
    }

    pub fn get_type(&self) -> (r: Types)
        ensures
            r == Types::Cname,
    {
        Types::Cname
    }

    /// Writes the record at absolute offset `off` of its type field.
    pub fn encode(&self, table: &mut NameTable, off: usize) -> (r: Result<Vec<u8>, DnsError>)
        requires
            old(table).inv(),
            off + 10 <= usize::MAX,
        ensures
            final(table).inv(),
            match (r, spec_encode_cname(self@, old(table)@, off as int)) {
                (Ok(b), Ok(sp)) => b@ == sp.0 && final(table)@ == sp.1,
                (Err(e1), Err(e2)) => e1 == e2,
                _ => false,
            },
    {
        let nb = match pack_domain(self.domain.as_slice(), table, off + 10) {
            Ok(nb) => nb,
            Err(e) => return Err(e),
        };
        encode_envelope(Types::Cname.get_code(), self.dns_class.get_code(), self.ttl, nb)
    }

    /// Reads a record at `off` (its class position, just past the type).
    pub fn decode(buf: &[u8], off: usize) -> (r: Result<(CNameRecord, usize), DnsError>)
        ensures
            match (r, spec_decode_cname(buf@, off as int)) {
                (Ok(p), Ok(sp)) => p.0@ == sp.0 && p.1 == sp.1,
                (Err(e1), Err(e2)) => e1 == e2,
                _ => false,
            },
    {
        let (cw, ttl, rdlen) = match decode_envelope(buf, off) {
            Ok(p) => p,
            Err(e) => return Err(e),
        };
        let dns_class = match DnsClasses::get_class_from_code(cw) {
            Ok(c) => c,
            Err(e) => return Err(e),
        };
        let n = buf.len();
        proof {
            assert(off + 8 <= n);
        }
        let (domain, _) = match unpack_domain(buf, off + 8) {
            Ok(p) => p,
            Err(e) => return Err(e),
        };
        Ok((CNameRecord { dns_class, ttl, domain }, 8 + rdlen))
    }

    pub fn set_dns_class(&mut self, dns_class: DnsClasses)
        ensures
            final(self)@ == (CNameRecordV { dns_class, ..old(self)@ }),
    {
        self.dns_class = dns_class;
    }

    pub fn get_dns_class(&self) -> (r: DnsClasses)
        ensures
            r == self@.dns_class,
    {
        self.dns_class
    }

    pub fn set_ttl(&mut self, ttl: u32)
        ensures
            final(self)@ == (CNameRecordV { ttl, ..old(self)@ }),
    {
        self.ttl = ttl;
    }

    pub fn get_ttl(&self) -> (r: u32)
        ensures
            r == self@.ttl,
    {
        self.ttl
    }

    pub fn set_domain(&mut self, domain: &[u8])
        ensures
            final(self)@ == (CNameRecordV { domain: domain@, ..old(self)@ }),
    {
        self.domain = vstd::slice::slice_to_vec(domain);
    }

    pub fn get_domain(&self) -> (r: Vec<u8>)
        ensures
            r@ == self@.domain,
    {
        vstd::slice::slice_to_vec(self.domain.as_slice())
    }
}

} // verus!
