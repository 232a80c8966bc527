//! One resource record of any kind: a closed sum over the record variants,
//! dispatched on the wire type code.

use vstd::prelude::*;

use crate::a_record::{spec_decode_a, spec_encode_a, ARecord, ARecordV};
use crate::aaaa_record::{spec_decode_aaaa, spec_encode_aaaa, AAAARecord, AAAARecordV};
use crate::cname_record::{spec_decode_cname, spec_encode_cname, CNameRecord, CNameRecordV};
use crate::codes::Types;
use crate::dnskey_record::{spec_decode_dnskey, spec_encode_dnskey, DNSKeyRecord, DNSKeyRecordV};
use crate::errors::DnsError;
use crate::https_record::{spec_decode_https, spec_encode_https, HttpsRecord, HttpsRecordV};
use crate::mx_record::{spec_decode_mx, spec_encode_mx, MxRecord, MxRecordV};
use crate::names::{spec_pack_name, NameTable};
use crate::ns_record::{spec_decode_ns, spec_encode_ns, NsRecord, NsRecordV};
use crate::nsec_record::{spec_decode_nsec, spec_encode_nsec, NsecRecord, NsecRecordV};
use crate::opt_record::{spec_decode_opt, spec_encode_opt, OptRecord, OptRecordV};
use crate::ptr_record::{spec_decode_ptr, spec_encode_ptr, PtrRecord, PtrRecordV};
use crate::soa_record::{spec_decode_soa, spec_encode_soa, SoaRecord, SoaRecordV};
use crate::srv_record::{spec_decode_srv, spec_encode_srv, SrvRecord, SrvRecordV};
use crate::txt_record::{spec_decode_txt, spec_encode_txt, TxtRecord, TxtRecordV};

verus! {

/// A resource record of any supported kind.
#[derive(Debug, Clone, PartialEq, Eq)]
pub enum ResourceRecord {
    A(ARecord),
    Aaaa(AAAARecord),
    Ns(NsRecord),
    Cname(CNameRecord),
    Soa(SoaRecord),
    Ptr(PtrRecord),
    Mx(MxRecord),
    Txt(TxtRecord),
    Srv(SrvRecord),
    Opt(OptRecord),
    Nsec(NsecRecord),
    DnsKey(DNSKeyRecord),
    Https(HttpsRecord),
}

/// The mathematical value of a [`ResourceRecord`].
pub ghost enum ResourceRecordV {
    A(ARecordV),
    Aaaa(AAAARecordV),
    Ns(NsRecordV),
    Cname(CNameRecordV),
    Soa(SoaRecordV),
    Ptr(PtrRecordV),
    Mx(MxRecordV),
    Txt(TxtRecordV),
    Srv(SrvRecordV),
    Opt(OptRecordV),
    Nsec(NsecRecordV),
    DnsKey(DNSKeyRecordV),
    Https(HttpsRecordV),
}

impl View for ResourceRecord {
    type V = ResourceRecordV;

    open spec fn view(&self) -> ResourceRecordV {
        match self {
            ResourceRecord::A(r) => ResourceRecordV::A(r@),
            ResourceRecord::Aaaa(r) => ResourceRecordV::Aaaa(r@),
            ResourceRecord::Ns(r) => ResourceRecordV::Ns(r@),
            ResourceRecord::Cname(r) => ResourceRecordV::Cname(r@),
            ResourceRecord::Soa(r) => ResourceRecordV::Soa(r@),
            ResourceRecord::Ptr(r) => ResourceRecordV::Ptr(r@),
            ResourceRecord::Mx(r) => ResourceRecordV::Mx(r@),
            ResourceRecord::Txt(r) => ResourceRecordV::Txt(r@),
            ResourceRecord::Srv(r) => ResourceRecordV::Srv(r@),
            ResourceRecord::Opt(r) => ResourceRecordV::Opt(r@),
            ResourceRecord::Nsec(r) => ResourceRecordV::Nsec(r@),
            ResourceRecord::DnsKey(r) => ResourceRecordV::DnsKey(r@),
            ResourceRecord::Https(r) => ResourceRecordV::Https(r@),
        }
    }
}

/// The wire type of a record value.
pub open spec fn spec_record_type(v: ResourceRecordV) -> Types {
    match v {
        ResourceRecordV::A(_) => Types::A,
        ResourceRecordV::Aaaa(_) => Types::Aaaa,
        ResourceRecordV::Ns(_) => Types::Ns,
        ResourceRecordV::Cname(_) => Types::Cname,
        ResourceRecordV::Soa(_) => Types::Soa,
        ResourceRecordV::Ptr(_) => Types::Ptr,
        ResourceRecordV::Mx(_) => Types::Mx,
        ResourceRecordV::Txt(_) => Types::Txt,
        ResourceRecordV::Srv(_) => Types::Srv,
        ResourceRecordV::Opt(_) => Types::Opt,
        ResourceRecordV::Nsec(_) => Types::Nsec,
        ResourceRecordV::DnsKey(_) => Types::DnsKey,
        ResourceRecordV::Https(_) => Types::Https,
    }
}

/// The wire form of one record at absolute offset `off` of its type field,
/// and the name table after it.  Record kinds without a name leave the
/// table unchanged.
pub open spec fn spec_encode_record(v: ResourceRecordV, table: Map<Seq<u8>, u16>, off: int) -> Result<
    (Seq<u8>, Map<Seq<u8>, u16>),
    DnsError,
> {
    match v {
        ResourceRecordV::A(r) => Ok((spec_encode_a(r), table)),
        ResourceRecordV::Aaaa(r) => Ok((spec_encode_aaaa(r), table)),
        ResourceRecordV::Ns(r) => spec_encode_ns(r, table, off),
        ResourceRecordV::Cname(r) => spec_encode_cname(r, table, off),
        ResourceRecordV::Soa(r) => spec_encode_soa(r, table, off),
        ResourceRecordV::Ptr(r) => spec_encode_ptr(r, table, off),
        ResourceRecordV::Mx(r) => spec_encode_mx(r, table, off),
        ResourceRecordV::Txt(r) => match spec_encode_txt(r) {
            Ok(b) => Ok((b, table)),
            Err(e) => Err(e),
        },
        ResourceRecordV::Srv(r) => spec_encode_srv(r, table, off),
        ResourceRecordV::Opt(r) => match spec_encode_opt(r) {
            Ok(b) => Ok((b, table)),
            Err(e) => Err(e),
        },
        ResourceRecordV::Nsec(r) => spec_encode_nsec(r, table, off),
        ResourceRecordV::DnsKey(r) => match spec_encode_dnskey(r) {
            Ok(b) => Ok((b, table)),
            Err(e) => Err(e),
        },
        ResourceRecordV::Https(r) => spec_encode_https(r, table, off),
    }
}

/// The record whose type code stands at `pos`, decoded from the envelope
/// that follows, or the error that stops it: an unknown type code is
/// `UnknownCode`, a known one with no decoder `UnsupportedRecordType`.
#[verifier::opaque]
pub open spec fn spec_decode_record_body(buf: Seq<u8>, pos: int, tcode: u16) -> Result<
    ResourceRecordV,
    DnsError,
> {
    match Types::spec_from_code(tcode) {
        Ok(t) => match t {
            Types::A => match spec_decode_a(buf, pos) {
                Ok((r, _)) => Ok(ResourceRecordV::A(r)),
                Err(e) => Err(e),
            },
            Types::Aaaa => match spec_decode_aaaa(buf, pos) {
                Ok((r, _)) => Ok(ResourceRecordV::Aaaa(r)),
                Err(e) => Err(e),
            },
            Types::Ns => match spec_decode_ns(buf, pos) {
                Ok((r, _)) => Ok(ResourceRecordV::Ns(r)),
                Err(e) => Err(e),
            },
            Types::Cname => match spec_decode_cname(buf, pos) {
                Ok((r, _)) => Ok(ResourceRecordV::Cname(r)),
                Err(e) => Err(e),
            },
            Types::Soa => match spec_decode_soa(buf, pos) {
                Ok((r, _)) => Ok(ResourceRecordV::Soa(r)),
                Err(e) => Err(e),
            },
            Types::Ptr => match spec_decode_ptr(buf, pos) {
                Ok((r, _)) => Ok(ResourceRecordV::Ptr(r)),
                Err(e) => Err(e),
            },
            Types::Mx => match spec_decode_mx(buf, pos) {
                Ok((r, _)) => Ok(ResourceRecordV::Mx(r)),
                Err(e) => Err(e),
            },
            Types::Txt => match spec_decode_txt(buf, pos) {
                Ok((r, _)) => Ok(ResourceRecordV::Txt(r)),
                Err(e) => Err(e),
            },
            Types::Srv => match spec_decode_srv(buf, pos) {
                Ok((r, _)) => Ok(ResourceRecordV::Srv(r)),
                Err(e) => Err(e),
            },
            Types::Opt => match spec_decode_opt(buf, pos) {
                Ok((r, _)) => Ok(ResourceRecordV::Opt(r)),
                Err(e) => Err(e),
            },
            Types::Nsec => match spec_decode_nsec(buf, pos) {
                Ok((r, _)) => Ok(ResourceRecordV::Nsec(r)),
                Err(e) => Err(e),
            },
            Types::DnsKey => match spec_decode_dnskey(buf, pos) {
                Ok((r, _)) => Ok(ResourceRecordV::DnsKey(r)),
                Err(e) => Err(e),
            },
            Types::Https => match spec_decode_https(buf, pos) {
                Ok((r, _)) => Ok(ResourceRecordV::Https(r)),
                Err(e) => Err(e),
            },
            _ => Err(DnsError::UnsupportedRecordType),
        },
        Err(e) => Err(e),
    }
}

impl ResourceRecord {
    pub fn get_type(&self) -> (r: Types)
        ensures
            r == spec_record_type(self@),
    {
        match self {
            ResourceRecord::A(r) => r.get_type(),
            ResourceRecord::Aaaa(r) => r.get_type(),
            ResourceRecord::Ns(r) => r.get_type(),
            ResourceRecord::Cname(r) => r.get_type(),
            ResourceRecord::Soa(r) => r.get_type(),
            ResourceRecord::Ptr(r) => r.get_type(),
            ResourceRecord::Mx(r) => r.get_type(),
            ResourceRecord::Txt(r) => r.get_type(),
            ResourceRecord::Srv(r) => r.get_type(),
            ResourceRecord::Opt(r) => r.get_type(),
            ResourceRecord::Nsec(r) => r.get_type(),
            ResourceRecord::DnsKey(r) => r.get_type(),
            ResourceRecord::Https(r) => r.get_type(),
        }
    }

    /// Writes the record at absolute offset `off` of its type field.
    pub fn encode(&self, table: &mut NameTable, off: usize) -> (r: Result<Vec<u8>, DnsError>)
        requires
            old(table).inv(),
            off + 0x10000 <= usize::MAX,
        ensures
            final(table).inv(),
            match (r, spec_encode_record(self@, old(table)@, off as int)) {
                (Ok(b), Ok(sp)) => b@ == sp.0 && final(table)@ == sp.1,
                (Err(e1), Err(e2)) => e1 == e2,
                _ => false,
            },
    {
        match self {
            ResourceRecord::A(r) => r.encode(),
            ResourceRecord::Aaaa(r) => r.encode(),
            ResourceRecord::Ns(r) => r.encode(table, off),
            ResourceRecord::Cname(r) => r.encode(table, off),
            ResourceRecord::Soa(r) => r.encode(table, off),
            ResourceRecord::Ptr(r) => r.encode(table, off),
            ResourceRecord::Mx(r) => r.encode(table, off),
            ResourceRecord::Txt(r) => r.encode(),
            ResourceRecord::Srv(r) => r.encode(table, off),
            ResourceRecord::Opt(r) => r.encode(),
            ResourceRecord::Nsec(r) => r.encode(table, off),
            ResourceRecord::DnsKey(r) => r.encode(),
            ResourceRecord::Https(r) => r.encode(table, off),
        }
    }
}

/// Decodes the record whose type code is `tcode` and whose class field
/// stands at `pos`.  A type outside the closed table is `UnknownCode`; a
/// known type with no decoder is `UnsupportedRecordType`.
#[verifier::rlimit(100)]
#[verifier::spinoff_prover]
pub fn decode_record_body(buf: &[u8], pos: usize, tcode: u16) -> (r: Result<
    ResourceRecord,
    DnsError,
>)
    ensures
        match (r, spec_decode_record_body(buf@, pos as int, tcode)) {
            (Ok(rec), Ok(sp)) => rec@ == sp,
            (Err(e1), Err(e2)) => e1 == e2,
            _ => false,
        },
{
    proof {
        reveal(spec_decode_record_body);
    }
    let t = match Types::get_type_from_code(tcode) {
        Ok(t) => t,
        Err(e) => return Err(e),
    };
    match t {
        Types::A => match ARecord::decode(buf, pos) {
            Ok((r, _)) => Ok(ResourceRecord::A(r)),
            Err(e) => Err(e),
        },
        Types::Aaaa => match AAAARecord::decode(buf, pos) {
            Ok((r, _)) => Ok(ResourceRecord::Aaaa(r)),
            Err(e) => Err(e),
        },
        Types::Ns => match NsRecord::decode(buf, pos) {
            Ok((r, _)) => Ok(ResourceRecord::Ns(r)),
            Err(e) => Err(e),
        },
        Types::Cname => match CNameRecord::decode(buf, pos) {
            Ok((r, _)) => Ok(ResourceRecord::Cname(r)),
            Err(e) => Err(e),
        },
        Types::Soa => match SoaRecord::decode(buf, pos) {
            Ok((r, _)) => Ok(ResourceRecord::Soa(r)),
            Err(e) => Err(e),
        },
        Types::Ptr => match PtrRecord::decode(buf, pos) {
            Ok((r, _)) => Ok(ResourceRecord::Ptr(r)),
            Err(e) => Err(e),
        },
        Types::Mx => match MxRecord::decode(buf, pos) {
            Ok((r, _)) => Ok(ResourceRecord::Mx(r)),
            Err(e) => Err(e),
        },
        Types::Txt => match TxtRecord::decode(buf, pos) {
            Ok((r, _)) => Ok(ResourceRecord::Txt(r)),
            Err(e) => Err(e),
        },
        Types::Srv => match SrvRecord::decode(buf, pos) {
            Ok((r, _)) => Ok(ResourceRecord::Srv(r)),
            Err(e) => Err(e),
        },
        Types::Opt => match OptRecord::decode(buf, pos) {
            Ok((r, _)) => Ok(ResourceRecord::Opt(r)),
            Err(e) => Err(e),
        },
        Types::Nsec => match NsecRecord::decode(buf, pos) {
            Ok((r, _)) => Ok(ResourceRecord::Nsec(r)),
            Err(e) => Err(e),
        },
        Types::DnsKey => match DNSKeyRecord::decode(buf, pos) {
            Ok((r, _)) => Ok(ResourceRecord::DnsKey(r)),
            Err(e) => Err(e),
        },
        Types::Https => match HttpsRecord::decode(buf, pos) {
            Ok((r, _)) => Ok(ResourceRecord::Https(r)),
            Err(e) => Err(e),
        },
        _ => Err(DnsError::UnsupportedRecordType),
    }
}

/// Packing a name is indifferent to the exact offset once the offset has
/// passed the highest address a compression pointer can store: no suffix is
/// recorded there, and lookups do not depend on the offset.
pub proof fn lemma_pack_off_insensitive(
    labels: Seq<Seq<u8>>,
    table: Map<Seq<u8>, u16>,
    off1: int,
    off2: int,
)
    requires
        off1 >= 0x4000,
        off2 >= 0x4000,
    ensures
        spec_pack_name(labels, table, off1) == spec_pack_name(labels, table, off2),
    decreases labels.len(),
{
    if labels.len() == 0 {
    } else {
        let suffix = crate::names::spec_join(labels);
        if table.contains_key(suffix) {
        } else if labels[0].len() > 63 {
        } else {
            lemma_pack_off_insensitive(
                labels.drop_first(),
                table,
                off1 + 1 + labels[0].len(),
                off2 + 1 + labels[0].len(),
            );
        }
    }
}

/// Encoding a record is likewise indifferent to the exact offset beyond the
/// pointer range.
pub proof fn lemma_record_encode_off_insensitive(
    v: ResourceRecordV,
    table: Map<Seq<u8>, u16>,
    off1: int,
    off2: int,
)
    requires
        off1 >= 0x4000,
        off2 >= 0x4000,
    ensures
        spec_encode_record(v, table, off1) == spec_encode_record(v, table, off2),
{
    match v {
        ResourceRecordV::Ns(r) => {
            lemma_pack_off_insensitive(
                crate::names::spec_labels(r.domain),
                table,
                off1 + 10,
                off2 + 10,
            );
        },
        ResourceRecordV::Cname(r) => {
            lemma_pack_off_insensitive(
                crate::names::spec_labels(r.domain),
                table,
                off1 + 10,
                off2 + 10,
            );
        },
        ResourceRecordV::Soa(r) => {
            lemma_pack_off_insensitive(
                crate::names::spec_labels(r.domain),
                table,
                off1 + 10,
                off2 + 10,
            );
            let p1 = spec_pack_name(crate::names::spec_labels(r.domain), table, off1 + 10);
            if p1 is Ok {
                let (nb1, t1) = p1->Ok_0;
                lemma_pack_off_insensitive(
                    crate::names::spec_labels(r.mailbox),
                    t1,
                    off1 + 10 + nb1.len(),
                    off2 + 10 + nb1.len(),
                );
            }
        },
        ResourceRecordV::Ptr(r) => {
            lemma_pack_off_insensitive(
                crate::names::spec_labels(r.domain),
                table,
                off1 + 10,
                off2 + 10,
            );
        },
        ResourceRecordV::Mx(r) => {
            lemma_pack_off_insensitive(
                crate::names::spec_labels(r.domain),
                table,
                off1 + 12,
                off2 + 12,
            );
        },
        ResourceRecordV::Srv(r) => {
            lemma_pack_off_insensitive(
                crate::names::spec_labels(r.target),
                table,
                off1 + 16,
                off2 + 16,
            );
        },
        ResourceRecordV::Nsec(r) => {
            lemma_pack_off_insensitive(
                crate::names::spec_labels(r.domain),
                table,
                off1 + 10,
                off2 + 10,
            );
        },
        ResourceRecordV::Https(r) => {
            lemma_pack_off_insensitive(
                crate::names::spec_labels(r.target),
                table,
                off1 + 12,
                off2 + 12,
            );
        },
        _ => {},
    }
}

} // verus!
