//! The question section entry: a name, a type code and a class code.

use vstd::prelude::*;

use crate::codes::{lemma_class_code_round_trip, lemma_type_code_round_trip, DnsClasses, Types};
use crate::errors::DnsError;
use crate::names::{lemma_name_round_trip, lemma_read_name_end, no_suffix_hit, pack_domain,
    spec_labels, spec_pack_name, spec_read_name, unpack_domain, wf_name, NameTable};
use crate::wire::{be16_at, be16_bytes, push_u16, read_u16};

verus! {

/// One question: an owner name asked about, with a type and a class.
#[derive(Debug, Clone, PartialEq, Eq)]
pub struct DnsQuery {
    pub query: Vec<u8>,
    pub qtype: Types,
    pub dns_class: DnsClasses,
    pub length: usize,
}

/// The mathematical value of a [`DnsQuery`].
pub ghost struct DnsQueryV {
    pub query: Seq<u8>,
    pub qtype: Types,
    pub dns_class: DnsClasses,
    pub length: int,
}

impl View for DnsQuery {
    type V = DnsQueryV;

    open spec fn view(&self) -> DnsQueryV {
        DnsQueryV {
            query: self.query@,
            qtype: self.qtype,
            dns_class: self.dns_class,
            length: self.length as int,
        }
    }
}

/// The wire form of a question encoded at absolute offset `off`: the packed
/// name, the type code, the class code.
pub open spec fn spec_encode_query(v: DnsQueryV, table: Map<Seq<u8>, u16>, off: int) -> Result<
    (Seq<u8>, Map<Seq<u8>, u16>),
    DnsError,
> {
    match spec_pack_name(spec_labels(v.query), table, off) {
        Ok((nb, t)) => Ok(
            (nb + be16_bytes(v.qtype.spec_code()) + be16_bytes(v.dns_class.spec_code()), t),
        ),
        Err(e) => Err(e),
    }
}

/// The question read at `off` and the bytes it occupies there.
pub open spec fn spec_decode_query(buf: Seq<u8>, off: int) -> Result<(DnsQueryV, int), DnsError> {
    match spec_read_name(buf, off, buf.len() as nat) {
        Ok((nm, e)) => if e + 4 > buf.len() {
            Err(DnsError::Truncated)
        } else {
            match Types::spec_from_code(be16_at(buf, e)) {
                Ok(t) => match DnsClasses::spec_from_code(be16_at(buf, e + 2)) {
                    Ok(c) => Ok(
                        (
                            DnsQueryV {
                                query: nm,
                                qtype: t,
                                dns_class: c,
                                length: e + 4 - off,
                            },
                            e + 4 - off,
                        ),
                    ),
                    Err(e2) => Err(e2),
                },
                Err(e2) => Err(e2),
            }
        },
        Err(e2) => Err(e2),
    }
}

/// Round trip: a question whose name is wire-fit and not yet compressible
/// decodes, from wherever its encoding ended up in a message, to exactly
/// the question that was encoded.
pub proof fn lemma_query_round_trip(
    v: DnsQueryV,
    table: Map<Seq<u8>, u16>,
    off: int,
    buf: Seq<u8>,
    pos: int,
)
    requires
        wf_name(v.query),
        no_suffix_hit(spec_labels(v.query), table),
        spec_encode_query(v, table, off) is Ok,
        0 <= pos,
        pos + spec_encode_query(v, table, off)->Ok_0.0.len() <= buf.len(),
        buf.subrange(
            pos,
            pos + spec_encode_query(v, table, off)->Ok_0.0.len(),
        ) == spec_encode_query(v, table, off)->Ok_0.0,
    ensures
        spec_decode_query(buf, pos) == Ok::<(DnsQueryV, int), DnsError>(
            (
                DnsQueryV {
                    query: v.query,
                    qtype: v.qtype,
                    dns_class: v.dns_class,
                    length: spec_encode_query(v, table, off)->Ok_0.0.len() as int,
                },
                spec_encode_query(v, table, off)->Ok_0.0.len() as int,
            ),
        ),
{
    let labels = spec_labels(v.query);
    let nb = spec_pack_name(labels, table, off)->Ok_0.0;
    let b = spec_encode_query(v, table, off)->Ok_0.0;
    assert(b =~= nb + be16_bytes(v.qtype.spec_code()) + be16_bytes(v.dns_class.spec_code()));
    assert forall|k: int| 0 <= k < b.len() implies buf[pos + k] == #[trigger] b[k] by {
        assert(buf.subrange(pos, pos + b.len())[k] == b[k]);
    }
    assert(buf.subrange(pos, pos + nb.len()) =~= nb) by {
        assert forall|k: int| 0 <= k < nb.len() implies buf.subrange(pos, pos + nb.len())[k]
            == nb[k] by {
            assert(buf[pos + k] == b[k]);
            assert(b[k] == nb[k]);
        }
    }
    lemma_name_round_trip(v.query, table, off, buf, pos, buf.len() as nat);
    let e = pos + nb.len();
    assert(buf[e] == b[nb.len() as int]);
    assert(buf[e + 1] == b[nb.len() as int + 1]);
    assert(buf[e + 2] == b[nb.len() as int + 2]);
    assert(buf[e + 3] == b[nb.len() as int + 3]);
    assert(be16_at(buf, e) == v.qtype.spec_code());
    assert(be16_at(buf, e + 2) == v.dns_class.spec_code());
    lemma_type_code_round_trip(v.qtype);
    lemma_class_code_round_trip(v.dns_class);
}

impl DnsQuery {
    /// A question about `query`, whose uncompressed wire form takes the
    /// name's bytes plus two framing bytes plus the four code bytes.
    pub fn new(query: &[u8], qtype: Types, dns_class: DnsClasses) -> (r: DnsQuery)
        requires
            query@.len() + 6 <= usize::MAX,
        ensures
            r@ == (DnsQueryV {
                query: query@,
                qtype,
                dns_class,
                length: query@.len() as int + 6,
            }),
    {
        let q = vstd::slice::slice_to_vec(query);
        let length = q.len() + 6;
        DnsQuery { query: q, qtype, dns_class, length }
    }

    /// Writes the question at absolute offset `off`.
    pub fn encode(&self, table: &mut NameTable, off: usize) -> (r: Result<Vec<u8>, DnsError>)
        requires
            old(table).inv(),
        ensures
            final(table).inv(),
            match (r, spec_encode_query(self@, old(table)@, off as int)) {
                (Ok(b), Ok(sp)) => b@ == sp.0 && final(table)@ == sp.1,
                (Err(e1), Err(e2)) => e1 == e2,
                _ => false,
            },
    {
        let mut out = match pack_domain(self.query.as_slice(), table, off) {
            Ok(nb) => nb,
            Err(e) => return Err(e),
        };
        let ghost nb = out@;
        push_u16(&mut out, self.qtype.get_code());
        push_u16(&mut out, self.dns_class.get_code());
        proof {
            assert(out@ =~= nb + be16_bytes(self.qtype.spec_code()) + be16_bytes(
                self.dns_class.spec_code(),
            ));
        }
        Ok(out)
    }

    /// Reads a question at `off`; the returned query's `length` is the
    /// number of bytes it occupied, so the caller can resume after it.
    pub fn decode(buf: &[u8], off: usize) -> (r: Result<DnsQuery, DnsError>)
        ensures
            match (r, spec_decode_query(buf@, off as int)) {
                (Ok(q), Ok(sp)) => q@ == sp.0,
                (Err(e1), Err(e2)) => e1 == e2,
                _ => false,
            },
    {
        let (query, u) = match unpack_domain(buf, off) {
            Ok(p) => p,
            Err(e) => return Err(e),
        };
        proof {
            lemma_read_name_end(buf@, off as int, buf@.len() as nat);
        }
        let n = buf.len();
        if n - (off + u) < 4 {
            return Err(DnsError::Truncated);
        }
        let qtype = match Types::get_type_from_code(read_u16(buf, off + u)) {
            Ok(t) => t,
            Err(e) => return Err(e),
        };
        let dns_class = match DnsClasses::get_class_from_code(read_u16(buf, off + u + 2)) {
            Ok(c) => c,
            Err(e) => return Err(e),
        };
        Ok(DnsQuery { query, qtype, dns_class, length: u + 4 })
    }

    pub fn set_query(&mut self, query: &[u8])
        ensures
            final(self)@ == (DnsQueryV { query: query@, ..old(self)@ }),
    {
        self.query = vstd::slice::slice_to_vec(query);
    }

    pub fn get_query(&self) -> (r: Vec<u8>)
        ensures
            r@ == self@.query,
    {
        vstd::slice::slice_to_vec(self.query.as_slice())
    }

    pub fn set_type(&mut self, qtype: Types)
        ensures
            final(self)@ == (DnsQueryV { qtype, ..old(self)@ }),
    {
        self.qtype = qtype;
    }

    pub fn get_type(&self) -> (r: Types)
        ensures
            r == self@.qtype,
    {
        self.qtype
    }

    pub fn set_dns_class(&mut self, dns_class: DnsClasses)
        ensures
            final(self)@ == (DnsQueryV { dns_class, ..old(self)@ }),
    {
        self.dns_class = dns_class;
    }

    pub fn get_dns_class(&self) -> (r: DnsClasses)
        ensures
            r == self@.dns_class,
    {
        self.dns_class
    }

    /// The number of bytes the question occupied when it was decoded, or
    /// the uncompressed size it was constructed with.
    pub fn get_length(&self) -> (r: usize)
        ensures
            r == self@.length,
    {
        self.length
    }

    /// A human-readable description.  Relies on std's `format!` for the
    /// rendering; nothing is claimed about the text.
    #[verifier::external_body]
    pub fn to_string(&self) -> String {
        format!("[QUERY] {:?}: type {:?}, class {:?}", self.query, self.qtype, self.dns_class)
    }
}

} // verus!
