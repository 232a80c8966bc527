//! The HTTPS record: a service binding, its payload a 16-bit priority, a
//! target domain name, and an ordered list of typed parameters.

use vstd::prelude::*;

use crate::codes::{DnsClasses, Types};
use crate::envelope::{decode_envelope, encode_envelope, spec_envelope, spec_envelope_at};
use crate::errors::DnsError;
use crate::names::{lemma_read_name_end, pack_domain, spec_labels, spec_pack_name, spec_read_name,
    unpack_domain, NameTable};
use crate::wire::{be16_at, be16_bytes, push_range, push_u16, read_u16};

verus! {

/// A service-binding record.
#[derive(Debug, Clone, PartialEq, Eq)]
pub struct HttpsRecord {
    pub dns_class: DnsClasses,
    pub ttl: u32,
    pub svc_priority: u16,
    pub target: Vec<u8>,
    pub params: Vec<(u16, Vec<u8>)>,
}

/// The mathematical value of an [`HttpsRecord`].
pub ghost struct HttpsRecordV {
    pub dns_class: DnsClasses,
    pub ttl: u32,
    pub svc_priority: u16,
    pub target: Seq<u8>,
    pub params: Seq<(u16, Seq<u8>)>,
}

/// The views of a vector of parameters.
pub open spec fn params_views(s: Seq<(u16, Vec<u8>)>) -> Seq<(u16, Seq<u8>)> {
    Seq::new(s.len(), |i: int| (s[i].0, s[i].1@))
}

impl View for HttpsRecord {
    type V = HttpsRecordV;

    open spec fn view(&self) -> HttpsRecordV {
        HttpsRecordV {
            dns_class: self.dns_class,
            ttl: self.ttl,
            svc_priority: self.svc_priority,
            target: self.target@,
            params: params_views(self.params@),
        }
    }
}

/// Each parameter as its key, a 16-bit value length, and the value bytes,
/// in list order.
pub open spec fn spec_encode_params(params: Seq<(u16, Seq<u8>)>) -> Result<Seq<u8>, DnsError>
    decreases params.len(),
{
    if params.len() == 0 {
        Ok(Seq::empty())
    } else if params[0].1.len() > 0xFFFF {
        Err(DnsError::CountOverflow)
    } else {
        match spec_encode_params(params.drop_first()) {
            Ok(r) => Ok(
                be16_bytes(params[0].0) + be16_bytes(params[0].1.len() as u16) + params[0].1 + r,
            ),
            Err(e) => Err(e),
        }
    }
}

/// The parameters read between `pos` and `end`; a parameter whose declared
/// value runs past `end` is a `Truncated` error.
pub open spec fn spec_parse_params(buf: Seq<u8>, pos: int, end: int) -> Result<
    Seq<(u16, Seq<u8>)>,
    DnsError,
>
    decreases end - pos,
{
    if pos >= end {
        Ok(Seq::empty())
    } else if pos + 4 > end {
        Err(DnsError::Truncated)
    } else {
        let l = be16_at(buf, pos + 2) as int;
        if pos + 4 + l > end {
            Err(DnsError::Truncated)
        } else {
            match spec_parse_params(buf, pos + 4 + l, end) {
                Ok(r) => Ok(
                    seq![(be16_at(buf, pos), buf.subrange(pos + 4, pos + 4 + l))] + r,
                ),
                Err(e) => Err(e),
            }
        }
    }
}

/// The wire form of an HTTPS record encoded at absolute offset `off` of its
/// type field.
pub open spec fn spec_encode_https(v: HttpsRecordV, table: Map<Seq<u8>, u16>, off: int) -> Result<
    (Seq<u8>, Map<Seq<u8>, u16>),
    DnsError,
> {
    match spec_pack_name(spec_labels(v.target), table, off + 12) {
        Ok((nb, t)) => match spec_encode_params(v.params) {
            Ok(pb) => if 2 + nb.len() + pb.len() > 0xFFFF {
                Err(DnsError::CountOverflow)
            } else {
                Ok(
                    (
                        spec_envelope(
                            Types::Https.spec_code(),
                            v.dns_class.spec_code(),
                            v.ttl,
                            be16_bytes(v.svc_priority) + nb + pb,
                        ),
                        t,
                    ),
                )
            },
            Err(e) => Err(e),
        },
        Err(e) => Err(e),
    }
}

/// The record read at `off` (its class position) and the bytes consumed.
/// The parameters run from the end of the target name's literal span to the
/// end of the declared payload.
pub open spec fn spec_decode_https(buf: Seq<u8>, off: int) -> Result<(HttpsRecordV, int), DnsError> {
    match spec_envelope_at(buf, off) {
        Ok((cw, ttl, rdlen)) => match DnsClasses::spec_from_code(cw) {
            Ok(class) => if rdlen < 2 {
                Err(DnsError::Truncated)
            } else {
                match spec_read_name(buf, off + 10, buf.len() as nat) {
                    Ok((nm, e1)) => if e1 > off + 8 + rdlen {
                        Err(DnsError::Truncated)
                    } else {
                        match spec_parse_params(buf, e1, off + 8 + rdlen) {
                            Ok(params) => Ok(
                                (
                                    HttpsRecordV {
                                        dns_class: class,
                                        ttl,
                                        svc_priority: be16_at(buf, off + 8),
                                        target: nm,
                                        params,
                                    },
                                    8 + rdlen,
                                ),
                            ),
                            Err(e) => Err(e),
                        }
                    },
                    Err(e) => Err(e),
                }
            },
            Err(e) => Err(e),
        },
        Err(e) => Err(e),
    }
}

/// Encodes a parameter list in wire order.
fn encode_params_vec(params: &Vec<(u16, Vec<u8>)>) -> (r: Result<Vec<u8>, DnsError>)
    ensures
        match (r, spec_encode_params(params_views(params@))) {
            (Ok(b), Ok(sp)) => b@ == sp,
            (Err(e1), Err(e2)) => e1 == e2,
            _ => false,
        },
{
    let mut pb: Vec<u8> = Vec::new();
    let mut i: usize = 0;
    let n = params.len();
    proof {
        assert(params_views(params@).skip(0) =~~= params_views(params@));
        let full = spec_encode_params(params_views(params@));
        if full is Ok {
            assert(Seq::<u8>::empty() + full->Ok_0 =~= full->Ok_0);
        }
    }
    while i < n
        invariant
            n == params@.len(),
            0 <= i <= n,
            spec_encode_params(params_views(params@)) == (match spec_encode_params(
                params_views(params@).skip(i as int),
            ) {
                Ok(r) => Ok::<Seq<u8>, DnsError>(pb@ + r),
                Err(e) => Err(e),
            }),
        decreases n - i,
    {
        let ghost s = params_views(params@).skip(i as int);
        let ghost pb_old = pb@;
        let value_len = params[i].1.len();
        if value_len > 0xFFFF {
            return Err(DnsError::CountOverflow);
        }
        push_u16(&mut pb, params[i].0);
        push_u16(&mut pb, value_len as u16);
        push_range(&mut pb, params[i].1.as_slice(), 0, value_len);
        i += 1;
        proof {
            assert(s[0] == (params@[i - 1].0, params@[i - 1].1@));
            assert(params@[i - 1].1@.subrange(0, value_len as int) =~= params@[i - 1].1@);
            assert(s.drop_first() =~~= params_views(params@).skip(i as int));
            assert(pb@ =~= pb_old + (be16_bytes(s[0].0) + be16_bytes(s[0].1.len() as u16)
                + s[0].1));
            let inner = spec_encode_params(params_views(params@).skip(i as int));
            if inner is Ok {
                assert(pb_old + (be16_bytes(s[0].0) + be16_bytes(s[0].1.len() as u16) + s[0].1
                    + inner->Ok_0) =~= pb@ + inner->Ok_0);
            }
        }
    }
    proof {
        assert(params_views(params@).skip(n as int).len() == 0);
        assert(pb@ + Seq::<u8>::empty() =~= pb@);
    }
    Ok(pb)
}

impl HttpsRecord {
    pub fn new(dns_classes: DnsClasses, ttl: u32, svc_priority: u16, target: &[u8]) -> (r:
        HttpsRecord)
        ensures
            r@ == (HttpsRecordV {
                dns_class: dns_classes,
                ttl,
                svc_priority,
                target: target@,
                params: Seq::empty(),
            }),
    {
        let r = HttpsRecord {
            dns_class: dns_classes,
            ttl,
            svc_priority,
            target: vstd::slice::slice_to_vec(target),
            params: Vec::new(),
        };
        proof {
            assert(params_views(r.params@) =~= Seq::<(u16, Seq<u8>)>::empty());
        }
        r
    }

    pub fn get_type(&self) -> (r: Types)
        ensures
            r == Types::Https,
    {
        Types::Https
    }

    /// Appends one parameter to the list.
    pub fn add_param(&mut self, key: u16, value: &[u8])
        ensures
            final(self)@ == (HttpsRecordV {
                params: old(self)@.params.push((key, value@)),
                ..old(self)@
            }),
    {
        self.params.push((key, vstd::slice::slice_to_vec(value)));
        proof {
            assert(params_views(self.params@) =~= params_views(old(self).params@).push(
                (key, value@),
            ));
        }
    }

    pub fn get_params(&self) -> (r: &Vec<(u16, Vec<u8>)>)
        ensures
            params_views(r@) == self@.params,
    {
        &self.params
    }

    /// Writes the record at absolute offset `off` of its type field.
    pub fn encode(&self, table: &mut NameTable, off: usize) -> (r: Result<Vec<u8>, DnsError>)
        requires
            old(table).inv(),
            off + 12 <= usize::MAX,
        ensures
            final(table).inv(),
            match (r, spec_encode_https(self@, old(table)@, off as int)) {
                (Ok(b), Ok(sp)) => b@ == sp.0 && final(table)@ == sp.1,
                (Err(e1), Err(e2)) => e1 == e2,
                _ => false,
            },
    {
        let nb = match pack_domain(self.target.as_slice(), table, off + 12) {
            Ok(nb) => nb,
            Err(e) => return Err(e),
        };
        let mut pb = match encode_params_vec(&self.params) {
            Ok(pb) => pb,
            Err(e) => return Err(e),
        };
        let mut rdata: Vec<u8> = Vec::new();
        push_u16(&mut rdata, self.svc_priority);
        let mut nb2 = nb;
        let ghost nv = nb2@;
        rdata.append(&mut nb2);
        let ghost pv = pb@;
        rdata.append(&mut pb);
        proof {
            assert(rdata@ =~= be16_bytes(self.svc_priority) + nv + pv);
        }
        if rdata.len() > 0xFFFF {
            return Err(DnsError::CountOverflow);
        }
        encode_envelope(Types::Https.get_code(), self.dns_class.get_code(), self.ttl, rdata)
    }

    /// Reads a record at `off` (its class position, just past the type).
    pub fn decode(buf: &[u8], off: usize) -> (r: Result<(HttpsRecord, usize), DnsError>)
        ensures
            match (r, spec_decode_https(buf@, off as int)) {
                (Ok(p), Ok(sp)) => p.0@ == sp.0 && p.1 == sp.1,
                (Err(e1), Err(e2)) => e1 == e2,
                _ => false,
            },
    {
        let (cw, ttl, rdlen) = match decode_envelope(buf, off) {
            Ok(p) => p,
            Err(e) => return Err(e),
        };
        let dns_class = match DnsClasses::get_class_from_code(cw) {
            Ok(c) => c,
            Err(e) => return Err(e),
        };
        if rdlen < 2 {
            return Err(DnsError::Truncated);
        }
        let n = buf.len();
        proof {
            assert(off + 10 <= n);
        }
        let svc_priority = read_u16(buf, off + 8);
        let (target, u1) = match unpack_domain(buf, off + 10) {
            Ok(p) => p,
            Err(e) => return Err(e),
        };
        proof {
            lemma_read_name_end(buf@, off as int + 10, buf@.len() as nat);
        }
        if u1 > rdlen - 2 {
            return Err(DnsError::Truncated);
        }
        let end: usize = off + 8 + rdlen;
        let mut pos: usize = off + 10 + u1;
        let ghost e1 = pos as int;
        let mut params: Vec<(u16, Vec<u8>)> = Vec::new();
        proof {
            assert(params_views(params@) =~= Seq::<(u16, Seq<u8>)>::empty());
            let full = spec_parse_params(buf@, e1, end as int);
            if full is Ok {
                assert(Seq::<(u16, Seq<u8>)>::empty() + full->Ok_0 =~= full->Ok_0);
            }
        }
        while pos < end
            invariant
                n == buf@.len(),
                pos <= end <= n,
                spec_parse_params(buf@, e1, end as int) == (match spec_parse_params(
                    buf@,
                    pos as int,
                    end as int,
                ) {
                    Ok(r) => Ok::<Seq<(u16, Seq<u8>)>, DnsError>(params_views(params@) + r),
                    Err(e) => Err(e),
                }),
                spec_decode_https(buf@, off as int) == (match spec_parse_params(
                    buf@,
                    e1,
                    end as int,
                ) {
                    Ok(ps) => Ok::<(HttpsRecordV, int), DnsError>(
                        (
                            HttpsRecordV {
                                dns_class,
                                ttl,
                                svc_priority,
                                target: target@,
                                params: ps,
                            },
                            8 + rdlen as int,
                        ),
                    ),
                    Err(e) => Err(e),
                }),
            decreases end - pos,
        {
            if end - pos < 4 {
                return Err(DnsError::Truncated);
            }
            let key = read_u16(buf, pos);
            let l = read_u16(buf, pos + 2) as usize;
            if l > end - pos - 4 {
                return Err(DnsError::Truncated);
            }
            let mut value: Vec<u8> = Vec::new();
            push_range(&mut value, buf, pos + 4, pos + 4 + l);
            let ghost params_old = params_views(params@);
            params.push((key, value));
            proof {
                assert(params_views(params@) =~= params_old.push(
                    (key, buf@.subrange(pos as int + 4, pos as int + 4 + l as int)),
                ));
            }
            pos = pos + 4 + l;
            proof {
                let inner = spec_parse_params(buf@, pos as int, end as int);
                if inner is Ok {
                    assert(params_old + (seq![
                        (key, buf@.subrange(pos as int - l as int, pos as int)),
                    ] + inner->Ok_0) =~= params_views(params@) + inner->Ok_0);
                }
            }
        }
        proof {
            assert(params_views(params@) + Seq::<(u16, Seq<u8>)>::empty() =~= params_views(
                params@,
            ));
        }
        Ok(
            (
                HttpsRecord { dns_class, ttl, svc_priority, target, params },
                8 + rdlen,
            ),
        )
    }

    pub fn set_dns_class(&mut self, dns_class: DnsClasses)
        ensures
            final(self)@ == (HttpsRecordV { dns_class, ..old(self)@ }),
    {
        self.dns_class = dns_class;
    }

    pub fn get_dns_class(&self) -> (r: DnsClasses)
        ensures
            r == self@.dns_class,
    {
        self.dns_class
    }

    pub fn set_ttl(&mut self, ttl: u32)
        ensures
            final(self)@ == (HttpsRecordV { ttl, ..old(self)@ }),
    {
        self.ttl = ttl;
    }

    pub fn get_ttl(&self) -> (r: u32)
        ensures
            r == self@.ttl,
    {
        self.ttl
    }

    pub fn get_target(&self) -> (r: Vec<u8>)
        ensures
            r@ == self@.target,
    {
        vstd::slice::slice_to_vec(self.target.as_slice())
    }
}

} // verus!
