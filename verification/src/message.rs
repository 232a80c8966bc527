//! The message assembler: the fixed 12-byte header, the question section,
//! and the three owner-keyed record sections, encoded and decoded with one
//! running offset and one name table shared across the whole message.

use vstd::prelude::*;

use crate::codes::{OpCodes, ResponseCodes};
use crate::errors::DnsError;
use crate::names::{lemma_read_name_end, spec_labels, spec_pack_name, spec_read_name,
    unpack_domain, NameTable};
use crate::owner_map::{spec_map_insert, spec_section_count, OwnerMap};
use crate::query::{spec_decode_query, spec_encode_query, DnsQuery, DnsQueryV};
use crate::record::{lemma_pack_off_insensitive, lemma_record_encode_off_insensitive,
    spec_decode_record_body, spec_encode_record, ResourceRecord, ResourceRecordV};
use crate::wire::{be16_at, be16_bytes, push_u16, read_u16};

verus! {

/// Which record section an entry belongs to.
#[derive(Debug, Clone, Copy, PartialEq, Eq, Structural)]
pub enum Section {
    Answer,
    Authority,
    Additional,
}

/// One record that could not be decoded: where it started, and why.  The
/// records around it are still delivered, so a caller can keep the valid
/// part of a message.
#[derive(Debug, Clone, Copy, PartialEq, Eq, Structural)]
pub struct RecordIssue {
    pub section: Section,
    pub offset: usize,
    pub error: DnsError,
}

/// A whole DNS message.  The section counts on the wire are always the
/// current lengths of these collections; they are never stored separately.
#[derive(Debug, Clone, PartialEq)]
pub struct MessageBase {
    pub id: u16,
    pub op_code: OpCodes,
    pub response_code: ResponseCodes,
    pub qr: bool,
    pub authoritative: bool,
    pub truncated: bool,
    pub recursion_desired: bool,
    pub recursion_available: bool,
    pub authenticated_data: bool,
    pub checking_disabled: bool,
    pub queries: Vec<DnsQuery>,
    pub answers: OwnerMap,
    pub name_servers: OwnerMap,
    pub additional_records: OwnerMap,
    pub record_errors: Vec<RecordIssue>,
}

/// The mathematical value of a [`MessageBase`].
#[verifier::ext_equal]
pub ghost struct MessageBaseV {
    pub id: u16,
    pub op_code: OpCodes,
    pub response_code: ResponseCodes,
    pub qr: bool,
    pub authoritative: bool,
    pub truncated: bool,
    pub recursion_desired: bool,
    pub recursion_available: bool,
    pub authenticated_data: bool,
    pub checking_disabled: bool,
    pub queries: Seq<DnsQueryV>,
    pub answers: Seq<(Seq<u8>, Seq<ResourceRecordV>)>,
    pub name_servers: Seq<(Seq<u8>, Seq<ResourceRecordV>)>,
    pub additional_records: Seq<(Seq<u8>, Seq<ResourceRecordV>)>,
    pub record_errors: Seq<(Section, int, DnsError)>,
}

impl View for MessageBase {
    type V = MessageBaseV;

    open spec fn view(&self) -> MessageBaseV {
        MessageBaseV {
            id: self.id,
            op_code: self.op_code,
            response_code: self.response_code,
            qr: self.qr,
            authoritative: self.authoritative,
            truncated: self.truncated,
            recursion_desired: self.recursion_desired,
            recursion_available: self.recursion_available,
            authenticated_data: self.authenticated_data,
            checking_disabled: self.checking_disabled,
            queries: Seq::new(self.queries@.len(), |i: int| self.queries@[i]@),
            answers: self.answers@,
            name_servers: self.name_servers@,
            additional_records: self.additional_records@,
            record_errors: Seq::new(
                self.record_errors@.len(),
                |i: int|
                    (
                        self.record_errors@[i].section,
                        self.record_errors@[i].offset as int,
                        self.record_errors@[i].error,
                    ),
            ),
        }
    }
}

// ---------------------------------------------------------------------
// The header
// ---------------------------------------------------------------------

/// The 16-bit flag word, most significant bit first: response, opcode,
/// authoritative, truncated, recursion desired, recursion available, a
/// reserved zero bit, authenticated data, checking disabled, status.
pub open spec fn spec_flags_word(v: MessageBaseV) -> u16 {
    ((if v.qr {
        0x8000int
    } else {
        0int
    }) + v.op_code.spec_code() * 0x800 + (if v.authoritative {
        0x400int
    } else {
        0int
    }) + (if v.truncated {
        0x200int
    } else {
        0int
    }) + (if v.recursion_desired {
        0x100int
    } else {
        0int
    }) + (if v.recursion_available {
        0x80int
    } else {
        0int
    }) + (if v.authenticated_data {
        0x20int
    } else {
        0int
    }) + (if v.checking_disabled {
        0x10int
    } else {
        0int
    }) + v.response_code.spec_code()) as u16
}

/// The 12 header bytes for given section counts.
pub open spec fn spec_header_bytes(v: MessageBaseV, qd: u16, an: u16, ns: u16, ar: u16) -> Seq<
    u8,
> {
    be16_bytes(v.id) + be16_bytes(spec_flags_word(v)) + be16_bytes(qd) + be16_bytes(an)
        + be16_bytes(ns) + be16_bytes(ar)
}

/// Every field of the flag word comes back out of it unchanged.
#[verifier::rlimit(100)]
#[verifier::spinoff_prover]
pub proof fn lemma_flags_round_trip(v: MessageBaseV)
    ensures
        (spec_flags_word(v) >= 0x8000) == v.qr,
        (spec_flags_word(v) / 0x800) % 16 == v.op_code.spec_code(),
        ((spec_flags_word(v) / 0x400) % 2 == 1) == v.authoritative,
        ((spec_flags_word(v) / 0x200) % 2 == 1) == v.truncated,
        ((spec_flags_word(v) / 0x100) % 2 == 1) == v.recursion_desired,
        ((spec_flags_word(v) / 0x80) % 2 == 1) == v.recursion_available,
        ((spec_flags_word(v) / 0x20) % 2 == 1) == v.authenticated_data,
        ((spec_flags_word(v) / 0x10) % 2 == 1) == v.checking_disabled,
        spec_flags_word(v) % 16 == v.response_code.spec_code(),
{
    let q: u16 = if v.qr {
        1
    } else {
        0
    };
    let a: u16 = if v.authoritative {
        1
    } else {
        0
    };
    let t: u16 = if v.truncated {
        1
    } else {
        0
    };
    let rd: u16 = if v.recursion_desired {
        1
    } else {
        0
    };
    let ra: u16 = if v.recursion_available {
        1
    } else {
        0
    };
    let ad: u16 = if v.authenticated_data {
        1
    } else {
        0
    };
    let cd: u16 = if v.checking_disabled {
        1
    } else {
        0
    };
    let o: u16 = v.op_code.spec_code() as u16;
    let rc: u16 = v.response_code.spec_code() as u16;
    assert(o <= 15);
    assert(rc <= 15);
    lemma_flags_bits(q, o, a, t, rd, ra, ad, cd, rc);
    assert(spec_flags_word(v) == (q * 0x8000 + o * 0x800 + a * 0x400 + t * 0x200 + rd * 0x100 + ra
        * 0x80 + ad * 0x20 + cd * 0x10 + rc) as u16);
}

/// Bit-level fact: packing nine small fields into one word and extracting
/// them by division and remainder is the identity.
proof fn lemma_flags_bits(
    q: u16,
    o: u16,
    a: u16,
    t: u16,
    rd: u16,
    ra: u16,
    ad: u16,
    cd: u16,
    rc: u16,
)
    by (bit_vector)
    requires
        q <= 1,
        a <= 1,
        t <= 1,
        rd <= 1,
        ra <= 1,
        ad <= 1,
        cd <= 1,
        o <= 15,
        rc <= 15,
    ensures
        ((q * 0x8000 + o * 0x800 + a * 0x400 + t * 0x200 + rd * 0x100 + ra * 0x80 + ad * 0x20 + cd
            * 0x10 + rc) >= 0x8000) == (q == 1),
        ((q * 0x8000 + o * 0x800 + a * 0x400 + t * 0x200 + rd * 0x100 + ra * 0x80 + ad * 0x20 + cd
            * 0x10 + rc) / 0x800) % 16 == o,
        (((q * 0x8000 + o * 0x800 + a * 0x400 + t * 0x200 + rd * 0x100 + ra * 0x80 + ad * 0x20
            + cd * 0x10 + rc) / 0x400) % 2 == 1) == (a == 1),
        (((q * 0x8000 + o * 0x800 + a * 0x400 + t * 0x200 + rd * 0x100 + ra * 0x80 + ad * 0x20
            + cd * 0x10 + rc) / 0x200) % 2 == 1) == (t == 1),
        (((q * 0x8000 + o * 0x800 + a * 0x400 + t * 0x200 + rd * 0x100 + ra * 0x80 + ad * 0x20
            + cd * 0x10 + rc) / 0x100) % 2 == 1) == (rd == 1),
        (((q * 0x8000 + o * 0x800 + a * 0x400 + t * 0x200 + rd * 0x100 + ra * 0x80 + ad * 0x20
            + cd * 0x10 + rc) / 0x80) % 2 == 1) == (ra == 1),
        (((q * 0x8000 + o * 0x800 + a * 0x400 + t * 0x200 + rd * 0x100 + ra * 0x80 + ad * 0x20
            + cd * 0x10 + rc) / 0x20) % 2 == 1) == (ad == 1),
        (((q * 0x8000 + o * 0x800 + a * 0x400 + t * 0x200 + rd * 0x100 + ra * 0x80 + ad * 0x20
            + cd * 0x10 + rc) / 0x10) % 2 == 1) == (cd == 1),
        (q * 0x8000 + o * 0x800 + a * 0x400 + t * 0x200 + rd * 0x100 + ra * 0x80 + ad * 0x20 + cd
            * 0x10 + rc) % 16 == rc,
{
}

// ---------------------------------------------------------------------
// Encoding (spec level)
// ---------------------------------------------------------------------

/// The question section: each question in order, threading the offset and
/// the name table.
pub open spec fn spec_encode_queries(
    qs: Seq<DnsQueryV>,
    table: Map<Seq<u8>, u16>,
    off: int,
) -> Result<(Seq<u8>, Map<Seq<u8>, u16>), DnsError>
    decreases qs.len(),
{
    if qs.len() == 0 {
        Ok((Seq::empty(), table))
    } else {
        match spec_encode_query(qs[0], table, off) {
            Ok((b, t)) => match spec_encode_queries(qs.drop_first(), t, off + b.len()) {
                Ok((r, t2)) => Ok((b + r, t2)),
                Err(e) => Err(e),
            },
            Err(e) => Err(e),
        }
    }
}

/// One owner's records: the owner name is written before every record, so
/// later occurrences compress into pointers at the first one.
pub open spec fn spec_encode_records_list(
    owner: Seq<u8>,
    records: Seq<ResourceRecordV>,
    table: Map<Seq<u8>, u16>,
    off: int,
) -> Result<(Seq<u8>, Map<Seq<u8>, u16>), DnsError>
    decreases records.len(),
{
    if records.len() == 0 {
        Ok((Seq::empty(), table))
    } else {
        match spec_pack_name(spec_labels(owner), table, off) {
            Ok((ob, t1)) => match spec_encode_record(records[0], t1, off + ob.len()) {
                Ok((rb, t2)) => match spec_encode_records_list(
                    owner,
                    records.drop_first(),
                    t2,
                    off + ob.len() + rb.len(),
                ) {
                    Ok((rest, t3)) => Ok((ob + rb + rest, t3)),
                    Err(e) => Err(e),
                },
                Err(e) => Err(e),
            },
            Err(e) => Err(e),
        }
    }
}

/// One record section: each owner's records in first-insertion order.
pub open spec fn spec_encode_section(
    entries: Seq<(Seq<u8>, Seq<ResourceRecordV>)>,
    table: Map<Seq<u8>, u16>,
    off: int,
) -> Result<(Seq<u8>, Map<Seq<u8>, u16>), DnsError>
    decreases entries.len(),
{
    if entries.len() == 0 {
        Ok((Seq::empty(), table))
    } else {
        match spec_encode_records_list(entries[0].0, entries[0].1, table, off) {
            Ok((b, t)) => match spec_encode_section(entries.drop_first(), t, off + b.len()) {
                Ok((r, t2)) => Ok((b + r, t2)),
                Err(e) => Err(e),
            },
            Err(e) => Err(e),
        }
    }
}

/// The whole message: header with the true section counts, questions, then
/// the three record sections, all sharing one offset and one name table.
/// A section too large for its 16-bit count field fails with
/// `CountOverflow` before anything is written.
pub open spec fn spec_encode_message(v: MessageBaseV) -> Result<Seq<u8>, DnsError> {
    if v.queries.len() > 0xFFFF || spec_section_count(v.answers) > 0xFFFF || spec_section_count(
        v.name_servers,
    ) > 0xFFFF || spec_section_count(v.additional_records) > 0xFFFF {
        Err(DnsError::CountOverflow)
    } else {
        match spec_encode_queries(v.queries, Map::empty(), 12) {
            Ok((qb, t1)) => match spec_encode_section(v.answers, t1, 12 + qb.len() as int) {
                Ok((ab, t2)) => match spec_encode_section(
                    v.name_servers,
                    t2,
                    12 + qb.len() as int + ab.len(),
                ) {
                    Ok((nb, t3)) => match spec_encode_section(
                        v.additional_records,
                        t3,
                        12 + qb.len() as int + ab.len() + nb.len(),
                    ) {
                        Ok((rb, _)) => Ok(
                            spec_header_bytes(
                                v,
                                v.queries.len() as u16,
                                spec_section_count(v.answers) as u16,
                                spec_section_count(v.name_servers) as u16,
                                spec_section_count(v.additional_records) as u16,
                            ) + qb + ab + nb + rb,
                        ),
                        Err(e) => Err(e),
                    },
                    Err(e) => Err(e),
                },
                Err(e) => Err(e),
            },
            Err(e) => Err(e),
        }
    }
}

/// Encoding a question is indifferent to the exact offset beyond the
/// pointer range.
proof fn lemma_query_encode_off_insensitive(
    v: DnsQueryV,
    table: Map<Seq<u8>, u16>,
    off1: int,
    off2: int,
)
    requires
        off1 >= 0x4000,
        off2 >= 0x4000,
    ensures
        spec_encode_query(v, table, off1) == spec_encode_query(v, table, off2),
{
    lemma_pack_off_insensitive(spec_labels(v.query), table, off1, off2);
}

// ---------------------------------------------------------------------
// Encoding (executable)
// ---------------------------------------------------------------------

/// The capped running offset handed to the name packer: any offset at or
/// beyond the pointer range behaves identically, so the exec side stops
/// counting at 0x8000 and the ghost side keeps the true value.
spec fn off_capped(cap: usize, g_off: int) -> bool {
    &&& 0 <= g_off
    &&& (g_off < 0x8000 ==> cap == g_off)
    &&& (g_off >= 0x8000 ==> cap == 0x8000)
}

/// Advances the capped offset by a chunk length.
fn advance_cap(cap: usize, add: usize, Ghost(g_off): Ghost<int>) -> (r: usize)
    requires
        off_capped(cap, g_off),
    ensures
        off_capped(r, g_off + add),
{
    if cap >= 0x8000 || add >= 0x8000 {
        0x8000
    } else {
        let s = cap + add;
        if s >= 0x8000 {
            0x8000
        } else {
            s
        }
    }
}

/// Encodes the question section at offset `g_off`.
fn encode_queries_vec(
    queries: &Vec<DnsQuery>,
    table: &mut NameTable,
    cap: usize,
    Ghost(g_off): Ghost<int>,
) -> (r: Result<Vec<u8>, DnsError>)
    requires
        old(table).inv(),
        off_capped(cap, g_off),
    ensures
        final(table).inv(),
        match (r, spec_encode_queries(
            Seq::new(queries@.len(), |i: int| queries@[i]@),
            old(table)@,
            g_off,
        )) {
            (Ok(b), Ok(sp)) => b@ == sp.0 && final(table)@ == sp.1,
            (Err(e1), Err(e2)) => e1 == e2,
            _ => false,
        },
{
    let ghost qviews = Seq::new(queries@.len(), |i: int| queries@[i]@);
    let mut out: Vec<u8> = Vec::new();
    let mut i: usize = 0;
    let mut cap = cap;
    let ghost mut off = g_off;
    let n = queries.len();
    proof {
        assert(qviews.skip(0) =~~= qviews);
        let full = spec_encode_queries(qviews, table@, g_off);
        if full is Ok {
            assert(Seq::<u8>::empty() + full->Ok_0.0 =~= full->Ok_0.0);
        }
    }
    while i < n
        invariant
            table.inv(),
            n == queries@.len(),
            qviews == Seq::new(queries@.len(), |k: int| queries@[k]@),
            0 <= i <= n,
            off_capped(cap, off),
            spec_encode_queries(qviews, old(table)@, g_off) == (match spec_encode_queries(
                qviews.skip(i as int),
                table@,
                off,
            ) {
                Ok(p) => Ok::<(Seq<u8>, Map<Seq<u8>, u16>), DnsError>((out@ + p.0, p.1)),
                Err(e) => Err(e),
            }),
        decreases n - i,
    {
        let ghost s = qviews.skip(i as int);
        let ghost out_old = out@;
        let ghost t_old = table@;
        proof {
            assert(s[0] == queries@[i as int]@);
            if off != cap {
                lemma_query_encode_off_insensitive(s[0], table@, cap as int, off);
            }
        }
        let b = match queries[i].encode(table, cap) {
            Ok(b) => b,
            Err(e) => return Err(e),
        };
        let blen = b.len();
        let mut b2 = b;
        let ghost bv = b2@;
        out.append(&mut b2);
        cap = advance_cap(cap, blen, Ghost(off));
        proof {
            off = off + blen as int;
        }
        i += 1;
        proof {
            assert(s.drop_first() =~~= qviews.skip(i as int));
            let inner = spec_encode_queries(qviews.skip(i as int), table@, off);
            if inner is Ok {
                assert(out_old + (bv + inner->Ok_0.0) =~= out@ + inner->Ok_0.0);
            }
        }
    }
    proof {
        assert(qviews.skip(n as int).len() == 0);
        assert(out@ + Seq::<u8>::empty() =~= out@);
    }
    Ok(out)
}

/// Encodes every record of one owner, the owner name before each.
#[verifier::rlimit(100)]
#[verifier::spinoff_prover]
fn encode_records_for_owner(
    owner: &Vec<u8>,
    records: &Vec<ResourceRecord>,
    table: &mut NameTable,
    cap: usize,
    Ghost(g_off): Ghost<int>,
) -> (r: Result<Vec<u8>, DnsError>)
    requires
        old(table).inv(),
        off_capped(cap, g_off),
    ensures
        final(table).inv(),
        match (r, spec_encode_records_list(
            owner@,
            Seq::new(records@.len(), |i: int| records@[i]@),
            old(table)@,
            g_off,
        )) {
            (Ok(b), Ok(sp)) => b@ == sp.0 && final(table)@ == sp.1,
            (Err(e1), Err(e2)) => e1 == e2,
            _ => false,
        },
{
    let ghost rviews = Seq::new(records@.len(), |i: int| records@[i]@);
    let mut out: Vec<u8> = Vec::new();
    let mut i: usize = 0;
    let mut cap = cap;
    let ghost mut off = g_off;
    let n = records.len();
    proof {
        assert(rviews.skip(0) =~~= rviews);
        let full = spec_encode_records_list(owner@, rviews, table@, g_off);
        if full is Ok {
            assert(Seq::<u8>::empty() + full->Ok_0.0 =~= full->Ok_0.0);
        }
    }
    while i < n
        invariant
            table.inv(),
            n == records@.len(),
            rviews == Seq::new(records@.len(), |k: int| records@[k]@),
            0 <= i <= n,
            off_capped(cap, off),
            spec_encode_records_list(owner@, rviews, old(table)@, g_off) == (
            match spec_encode_records_list(owner@, rviews.skip(i as int), table@, off) {
                Ok(p) => Ok::<(Seq<u8>, Map<Seq<u8>, u16>), DnsError>((out@ + p.0, p.1)),
                Err(e) => Err(e),
            }),
        decreases n - i,
    {
        let ghost s = rviews.skip(i as int);
        let ghost out_old = out@;
        proof {
            assert(s[0] == records@[i as int]@);
            if off != cap {
                lemma_pack_off_insensitive(spec_labels(owner@), table@, cap as int, off);
            }
        }
        let ob = match crate::names::pack_domain(owner.as_slice(), table, cap) {
            Ok(ob) => ob,
            Err(e) => return Err(e),
        };
        let oblen = ob.len();
        let cap2 = advance_cap(cap, oblen, Ghost(off));
        let ghost off2 = off + oblen as int;
        proof {
            if off2 != cap2 {
                lemma_record_encode_off_insensitive(s[0], table@, cap2 as int, off2);
            }
        }
        let rb = match records[i].encode(table, cap2) {
            Ok(rb) => rb,
            Err(e) => return Err(e),
        };
        let rblen = rb.len();
        let mut ob2 = ob;
        let ghost obv = ob2@;
        out.append(&mut ob2);
        let mut rb2 = rb;
        let ghost rbv = rb2@;
        out.append(&mut rb2);
        cap = advance_cap(cap2, rblen, Ghost(off2));
        proof {
            off = off2 + rblen as int;
        }
        i += 1;
        proof {
            assert(s.drop_first() =~~= rviews.skip(i as int));
            let inner = spec_encode_records_list(owner@, rviews.skip(i as int), table@, off);
            if inner is Ok {
                assert(out_old + (obv + rbv + inner->Ok_0.0) =~= out@ + inner->Ok_0.0);
            }
        }
    }
    proof {
        assert(rviews.skip(n as int).len() == 0);
        assert(out@ + Seq::<u8>::empty() =~= out@);
    }
    Ok(out)
}

/// Encodes one record section in owner order.
#[verifier::rlimit(100)]
#[verifier::spinoff_prover]
fn encode_section(
    map: &OwnerMap,
    table: &mut NameTable,
    cap: usize,
    Ghost(g_off): Ghost<int>,
) -> (r: Result<Vec<u8>, DnsError>)
    requires
        old(table).inv(),
        off_capped(cap, g_off),
    ensures
        final(table).inv(),
        match (r, spec_encode_section(map@, old(table)@, g_off)) {
            (Ok(b), Ok(sp)) => b@ == sp.0 && final(table)@ == sp.1,
            (Err(e1), Err(e2)) => e1 == e2,
            _ => false,
        },
{
    let mut out: Vec<u8> = Vec::new();
    let mut i: usize = 0;
    let mut cap = cap;
    let ghost mut off = g_off;
    let n = map.entries.len();
    proof {
        assert(map@.skip(0) =~~= map@);
        let full = spec_encode_section(map@, table@, g_off);
        if full is Ok {
            assert(Seq::<u8>::empty() + full->Ok_0.0 =~= full->Ok_0.0);
        }
    }
    while i < n
        invariant
            table.inv(),
            n == map.entries@.len(),
            0 <= i <= n,
            off_capped(cap, off),
            spec_encode_section(map@, old(table)@, g_off) == (match spec_encode_section(
                map@.skip(i as int),
                table@,
                off,
            ) {
                Ok(p) => Ok::<(Seq<u8>, Map<Seq<u8>, u16>), DnsError>((out@ + p.0, p.1)),
                Err(e) => Err(e),
            }),
        decreases n - i,
    {
        let ghost s = map@.skip(i as int);
        let ghost out_old = out@;
        proof {
            assert(s[0] == map@[i as int]);
        }
        let b = match encode_records_for_owner(
            &map.entries[i].0,
            &map.entries[i].1,
            table,
            cap,
            Ghost(off),
        ) {
            Ok(b) => b,
            Err(e) => return Err(e),
        };
        let blen = b.len();
        let mut b2 = b;
        let ghost bv = b2@;
        out.append(&mut b2);
        cap = advance_cap(cap, blen, Ghost(off));
        proof {
            off = off + blen as int;
        }
        i += 1;
        proof {
            assert(s.drop_first() =~~= map@.skip(i as int));
            let inner = spec_encode_section(map@.skip(i as int), table@, off);
            if inner is Ok {
                assert(out_old + (bv + inner->Ok_0.0) =~= out@ + inner->Ok_0.0);
            }
        }
    }
    proof {
        assert(map@.skip(n as int).len() == 0);
        assert(out@ + Seq::<u8>::empty() =~= out@);
    }
    Ok(out)
}


// ---------------------------------------------------------------------
// Decoding (spec level)
// ---------------------------------------------------------------------

/// `count` questions read in order from `pos`; a malformed question is
/// fatal to the whole message.
pub open spec fn spec_decode_queries(buf: Seq<u8>, pos: int, count: int) -> Result<
    (Seq<DnsQueryV>, int),
    DnsError,
>
    decreases count,
{
    if count <= 0 {
        Ok((Seq::empty(), pos))
    } else {
        match spec_decode_query(buf, pos) {
            Ok((q, used)) => match spec_decode_queries(buf, pos + used, count - 1) {
                Ok((rest, end)) => Ok((seq![q] + rest, end)),
                Err(e) => Err(e),
            },
            Err(e) => Err(e),
        }
    }
}

/// `count` records read in order from `pos`.  The envelope of every record
/// must be readable and its declared payload must fit in the buffer;
/// advancement always trusts the declared payload length.  A record whose
/// body cannot be decoded is reported with its starting offset instead of
/// aborting the section.
pub open spec fn spec_decode_records(buf: Seq<u8>, pos: int, count: int) -> Result<
    (Seq<(Seq<u8>, ResourceRecordV)>, Seq<(int, DnsError)>, int),
    DnsError,
>
    decreases count,
{
    if count <= 0 {
        Ok((Seq::empty(), Seq::empty(), pos))
    } else {
        match spec_read_name(buf, pos, buf.len() as nat) {
            Ok((owner, e1)) => if e1 + 10 > buf.len() {
                Err(DnsError::Truncated)
            } else {
                let rdlen = be16_at(buf, e1 + 8) as int;
                if e1 + 10 + rdlen > buf.len() {
                    Err(DnsError::Truncated)
                } else {
                    match spec_decode_records(buf, e1 + 10 + rdlen, count - 1) {
                        Ok((pairs, issues, end)) => match spec_decode_record_body(
                            buf,
                            e1 + 2,
                            be16_at(buf, e1),
                        ) {
                            Ok(rv) => Ok((seq![(owner, rv)] + pairs, issues, end)),
                            Err(e) => Ok((pairs, seq![(pos, e)] + issues, end)),
                        },
                        Err(e) => Err(e),
                    }
                }
            },
            Err(e) => Err(e),
        }
    }
}

/// Grouping a flat owner-record pair list into the insertion-ordered map.
pub open spec fn spec_group(pairs: Seq<(Seq<u8>, ResourceRecordV)>) -> Seq<
    (Seq<u8>, Seq<ResourceRecordV>),
>
    decreases pairs.len(),
{
    if pairs.len() == 0 {
        Seq::empty()
    } else {
        spec_map_insert(spec_group(pairs.drop_last()), pairs.last().0, pairs.last().1)
    }
}

/// The issues of one section, tagged with the section they belong to.
pub open spec fn spec_tag_issues(s: Seq<(int, DnsError)>, sec: Section) -> Seq<
    (Section, int, DnsError),
> {
    Seq::new(s.len(), |i: int| (sec, s[i].0, s[i].1))
}

/// The integer-offset form of collected issue pairs.
pub open spec fn issues_view(s: Seq<(usize, DnsError)>) -> Seq<(int, DnsError)> {
    Seq::new(s.len(), |i: int| (s[i].0 as int, s[i].1))
}

/// The whole message read at `off`: the header, the questions, then the
/// three record sections grouped by owner, with the failed records of each
/// section reported beside it.  Compression pointers are resolved against
/// absolute positions in `buf`.
pub open spec fn spec_decode_message(buf: Seq<u8>, off: int) -> Result<MessageBaseV, DnsError> {
    if off < 0 || off + 12 > buf.len() {
        Err(DnsError::Truncated)
    } else {
        let w = be16_at(buf, off + 2);
        match OpCodes::spec_from_code(((w / 0x800) % 16) as u8) {
            Ok(op) => match ResponseCodes::spec_from_code((w % 16) as u8) {
                Ok(rc) => match spec_decode_queries(
                    buf,
                    off + 12,
                    be16_at(buf, off + 4) as int,
                ) {
                    Ok((qs, p1)) => match spec_decode_records(
                        buf,
                        p1,
                        be16_at(buf, off + 6) as int,
                    ) {
                        Ok((ap, ai, p2)) => match spec_decode_records(
                            buf,
                            p2,
                            be16_at(buf, off + 8) as int,
                        ) {
                            Ok((np, ni, p3)) => match spec_decode_records(
                                buf,
                                p3,
                                be16_at(buf, off + 10) as int,
                            ) {
                                Ok((rp, ri, _)) => Ok(
                                    MessageBaseV {
                                        id: be16_at(buf, off),
                                        op_code: op,
                                        response_code: rc,
                                        qr: w >= 0x8000,
                                        authoritative: (w / 0x400) % 2 == 1,
                                        truncated: (w / 0x200) % 2 == 1,
                                        recursion_desired: (w / 0x100) % 2 == 1,
                                        recursion_available: (w / 0x80) % 2 == 1,
                                        authenticated_data: (w / 0x20) % 2 == 1,
                                        checking_disabled: (w / 0x10) % 2 == 1,
                                        queries: qs,
                                        answers: spec_group(ap),
                                        name_servers: spec_group(np),
                                        additional_records: spec_group(rp),
                                        record_errors: spec_tag_issues(ai, Section::Answer)
                                            + spec_tag_issues(ni, Section::Authority)
                                            + spec_tag_issues(ri, Section::Additional),
                                    },
                                ),
                                Err(e) => Err(e),
                            },
                            Err(e) => Err(e),
                        },
                        Err(e) => Err(e),
                    },
                    Err(e) => Err(e),
                },
                Err(e) => Err(e),
            },
            Err(e) => Err(e),
        }
    }
}

/// Round trip for the header: a message with no questions and no records
/// always encodes, and decoding the twelve bytes that come out restores
/// every header field — the id, all seven flags, the opcode and the status.
#[verifier::rlimit(100)]
#[verifier::spinoff_prover]
pub proof fn lemma_header_round_trip(v: MessageBaseV)
    requires
        v.queries.len() == 0,
        v.answers.len() == 0,
        v.name_servers.len() == 0,
        v.additional_records.len() == 0,
        v.record_errors.len() == 0,
    ensures
        spec_encode_message(v) is Ok,
        spec_decode_message(spec_encode_message(v)->Ok_0, 0) == Ok::<MessageBaseV, DnsError>(v),
{
    let b = spec_encode_message(v)->Ok_0;
    let w = spec_flags_word(v);
    assert(b =~= spec_header_bytes(v, 0, 0, 0, 0));
    assert(b.len() == 12);
    let ib = be16_bytes(v.id);
    let wb = be16_bytes(w);
    assert(b[0] == ib[0] && b[1] == ib[1]);
    assert(b[2] == wb[0] && b[3] == wb[1]);
    assert(b[4] == 0 && b[5] == 0 && b[6] == 0 && b[7] == 0);
    assert(b[8] == 0 && b[9] == 0 && b[10] == 0 && b[11] == 0);
    assert(be16_at(b, 0) == v.id);
    assert(be16_at(b, 2) == w);
    assert(be16_at(b, 4) == 0 && be16_at(b, 6) == 0 && be16_at(b, 8) == 0 && be16_at(b, 10)
        == 0);
    lemma_flags_round_trip(v);
    crate::codes::lemma_op_code_round_trip(v.op_code);
    crate::codes::lemma_response_code_round_trip(v.response_code);
    let sp = spec_decode_message(b, 0);
    assert(sp is Ok);
    assert(sp->Ok_0 =~~= v);
}

// ---------------------------------------------------------------------
// Decoding (executable)
// ---------------------------------------------------------------------

/// Reads `count` questions from `pos`.
fn decode_queries(buf: &[u8], start: usize, count: usize) -> (r: Result<
    (Vec<DnsQuery>, usize),
    DnsError,
>)
    ensures
        match (r, spec_decode_queries(buf@, start as int, count as int)) {
            (Ok(p), Ok(sp)) => Seq::new(p.0@.len(), |i: int| p.0@[i]@) == sp.0 && p.1 == sp.1,
            (Err(e1), Err(e2)) => e1 == e2,
            _ => false,
        },
{
    let n = buf.len();
    let mut out: Vec<DnsQuery> = Vec::new();
    let mut pos: usize = start;
    let mut i: usize = 0;
    proof {
        let full = spec_decode_queries(buf@, pos as int, count as int);
        if full is Ok {
            assert(Seq::<DnsQueryV>::empty() + full->Ok_0.0 =~~= full->Ok_0.0);
        }
        assert(Seq::new(out@.len(), |k: int| out@[k]@) =~~= Seq::<DnsQueryV>::empty());
    }
    while i < count
        invariant
            n == buf@.len(),
            0 <= i <= count,
            spec_decode_queries(buf@, start as int, count as int) == (
            match spec_decode_queries(buf@, pos as int, (count - i) as int) {
                Ok(p) => Ok::<(Seq<DnsQueryV>, int), DnsError>(
                    (Seq::new(out@.len(), |k: int| out@[k]@) + p.0, p.1),
                ),
                Err(e) => Err(e),
            }),
        decreases count - i,
    {
        let ghost done = Seq::new(out@.len(), |k: int| out@[k]@);
        let q = match DnsQuery::decode(buf, pos) {
            Ok(q) => q,
            Err(e) => return Err(e),
        };
        let used = q.get_length();
        proof {
            let sp = spec_decode_query(buf@, pos as int);
            assert(sp is Ok);
            assert(pos + used == sp->Ok_0.1 + pos);
        }
        let ghost used_spec = spec_decode_query(buf@, pos as int)->Ok_0.1;
        proof {
            lemma_read_name_end(buf@, pos as int, buf@.len() as nat);
            assert(pos + used_spec <= n);
        }
        out.push(q);
        pos = pos + used;
        i += 1;
        proof {
            let inner = spec_decode_queries(buf@, pos as int, (count - i) as int);
            assert(Seq::new(out@.len(), |k: int| out@[k]@) =~~= done.push(out@.last()@));
            if inner is Ok {
                assert(done + (seq![out@.last()@] + inner->Ok_0.0) =~~= Seq::new(
                    out@.len(),
                    |k: int| out@[k]@,
                ) + inner->Ok_0.0);
            }
        }
    }
    proof {
        assert(Seq::new(out@.len(), |k: int| out@[k]@) + Seq::<DnsQueryV>::empty() =~~= Seq::new(
            out@.len(),
            |k: int| out@[k]@,
        ));
    }
    Ok((out, pos))
}

/// Reads `count` records from `start` into an owner map, collecting the
/// starting offset and error of every record that could not be decoded.
#[verifier::rlimit(100)]
#[verifier::spinoff_prover]
fn decode_records(buf: &[u8], start: usize, count: usize) -> (r: Result<
    (OwnerMap, Vec<(usize, DnsError)>, usize),
    DnsError,
>)
    ensures
        match (r, spec_decode_records(buf@, start as int, count as int)) {
            (Ok(p), Ok(sp)) => p.0@ == spec_group(sp.0) && issues_view(p.1@) == sp.1 && p.2
                == sp.2,
            (Err(e1), Err(e2)) => e1 == e2,
            _ => false,
        },
{
    let n = buf.len();
    let mut map = OwnerMap::new();
    let mut issues: Vec<(usize, DnsError)> = Vec::new();
    let mut pos: usize = start;
    let mut i: usize = 0;
    let ghost mut done_pairs: Seq<(Seq<u8>, ResourceRecordV)> = Seq::empty();
    proof {
        let full = spec_decode_records(buf@, pos as int, count as int);
        if full is Ok {
            assert(Seq::<(Seq<u8>, ResourceRecordV)>::empty() + full->Ok_0.0 =~~= full->Ok_0.0);
            assert(Seq::<(int, DnsError)>::empty() + full->Ok_0.1 =~~= full->Ok_0.1);
        }
        assert(issues_view(issues@) =~~= Seq::<(int, DnsError)>::empty());
        assert(map@ =~~= spec_group(done_pairs));
    }
    while i < count
        invariant
            n == buf@.len(),
            0 <= i <= count,
            map@ == spec_group(done_pairs),
            spec_decode_records(buf@, start as int, count as int) == (
            match spec_decode_records(buf@, pos as int, (count - i) as int) {
                Ok(p) => Ok::<
                    (Seq<(Seq<u8>, ResourceRecordV)>, Seq<(int, DnsError)>, int),
                    DnsError,
                >((done_pairs + p.0, issues_view(issues@) + p.1, p.2)),
                Err(e) => Err(e),
            }),
        decreases count - i,
    {
        let ghost issues_done = issues_view(issues@);
        let ghost pairs_done = done_pairs;
        let (owner, u) = match unpack_domain(buf, pos) {
            Ok(p) => p,
            Err(e) => return Err(e),
        };
        proof {
            lemma_read_name_end(buf@, pos as int, buf@.len() as nat);
        }
        let e1 = pos + u;
        if n - e1 < 10 {
            return Err(DnsError::Truncated);
        }
        let tcode = read_u16(buf, e1);
        let rdlen = read_u16(buf, e1 + 8) as usize;
        if rdlen > n - e1 - 10 {
            return Err(DnsError::Truncated);
        }
        let next = e1 + 10 + rdlen;
        let ghost rec_pos = pos as int;
        let ghost inner = spec_decode_records(buf@, next as int, (count - i) as int - 1);
        match crate::record::decode_record_body(buf, e1 + 2, tcode) {
            Ok(rec) => {
                let ghost rv = rec@;
                let ghost ov = owner@;
                map.insert(owner.as_slice(), rec);
                proof {
                    done_pairs = done_pairs.push((ov, rv));
                    assert(done_pairs.drop_last() =~~= pairs_done);
                    assert(map@ =~~= spec_group(done_pairs));
                    if inner is Ok {
                        assert(pairs_done + (seq![(ov, rv)] + inner->Ok_0.0) =~~= done_pairs
                            + inner->Ok_0.0);
                    }
                }
            },
            Err(e) => {
                issues.push((pos, e));
                proof {
                    assert(issues_view(issues@) =~~= issues_done.push((rec_pos, e)));
                    if inner is Ok {
                        assert(issues_done + (seq![(rec_pos, e)] + inner->Ok_0.1) =~~= issues_view(
                            issues@,
                        ) + inner->Ok_0.1);
                    }
                }
            },
        }
        pos = next;
        i += 1;
    }
    proof {
        assert(done_pairs + Seq::<(Seq<u8>, ResourceRecordV)>::empty() =~~= done_pairs);
        assert(issues_view(issues@) + Seq::<(int, DnsError)>::empty() =~~= issues_view(issues@));
    }
    Ok((map, issues, pos))
}

/// Appends one section's issues, tagged with their section.
fn tag_issues(dst: &mut Vec<RecordIssue>, src: &Vec<(usize, DnsError)>, sec: Section)
    ensures
        final(dst)@.len() == old(dst)@.len() + src@.len(),
        forall|k: int| 0 <= k < old(dst)@.len() ==> final(dst)@[k] == old(dst)@[k],
        forall|k: int|
            0 <= k < src@.len() ==> final(dst)@[old(dst)@.len() + k] == (RecordIssue {
                section: sec,
                offset: (#[trigger] src@[k]).0,
                error: src@[k].1,
            }),
{
    let n = src.len();
    let mut i: usize = 0;
    while i < n
        invariant
            n == src@.len(),
            0 <= i <= n,
            dst@.len() == old(dst)@.len() + i,
            forall|k: int| 0 <= k < old(dst)@.len() ==> dst@[k] == old(dst)@[k],
            forall|k: int|
                0 <= k < i ==> dst@[old(dst)@.len() + k] == (RecordIssue {
                    section: sec,
                    offset: (#[trigger] src@[k]).0,
                    error: src@[k].1,
                }),
        decreases n - i,
    {
        dst.push(RecordIssue { section: sec, offset: src[i].0, error: src[i].1 });
        i += 1;
    }
}

impl MessageBase {
    /// An empty query message with everything cleared.
    pub fn new(id: u16) -> (r: MessageBase)
        ensures
            r@ == (MessageBaseV {
                id,
                op_code: OpCodes::Query,
                response_code: ResponseCodes::NoError,
                qr: false,
                authoritative: false,
                truncated: false,
                recursion_desired: false,
                recursion_available: false,
                authenticated_data: false,
                checking_disabled: false,
                queries: Seq::empty(),
                answers: Seq::empty(),
                name_servers: Seq::empty(),
                additional_records: Seq::empty(),
                record_errors: Seq::empty(),
            }),
    {
        let r = MessageBase {
            id,
            op_code: OpCodes::Query,
            response_code: ResponseCodes::NoError,
            qr: false,
            authoritative: false,
            truncated: false,
            recursion_desired: false,
            recursion_available: false,
            authenticated_data: false,
            checking_disabled: false,
            queries: Vec::new(),
            answers: OwnerMap::new(),
            name_servers: OwnerMap::new(),
            additional_records: OwnerMap::new(),
            record_errors: Vec::new(),
        };
        proof {
            assert(r@.queries =~= Seq::<DnsQueryV>::empty());
            assert(r@.record_errors =~= Seq::<(Section, int, DnsError)>::empty());
        }
        r
    }

    /// Encodes the whole message.
    pub fn encode(&self) -> (r: Result<Vec<u8>, DnsError>)
        ensures
            match (r, spec_encode_message(self@)) {
                (Ok(b), Ok(sp)) => b@ == sp,
                (Err(e1), Err(e2)) => e1 == e2,
                _ => false,
            },
    {
        let qd = self.queries.len();
        if qd > 0xFFFF {
            return Err(DnsError::CountOverflow);
        }
        let an = match self.answers.total_records() {
            Some(c) => c,
            None => return Err(DnsError::CountOverflow),
        };
        let ns = match self.name_servers.total_records() {
            Some(c) => c,
            None => return Err(DnsError::CountOverflow),
        };
        let ar = match self.additional_records.total_records() {
            Some(c) => c,
            None => return Err(DnsError::CountOverflow),
        };
        if an > 0xFFFF || ns > 0xFFFF || ar > 0xFFFF {
            return Err(DnsError::CountOverflow);
        }
        let mut table = NameTable::new();
        let qb = match encode_queries_vec(&self.queries, &mut table, 12, Ghost(12int)) {
            Ok(b) => b,
            Err(e) => return Err(e),
        };
        let cap1 = advance_cap(12, qb.len(), Ghost(12int));
        let ghost off1 = 12 + qb@.len() as int;
        let ab = match encode_section(&self.answers, &mut table, cap1, Ghost(off1)) {
            Ok(b) => b,
            Err(e) => return Err(e),
        };
        let cap2 = advance_cap(cap1, ab.len(), Ghost(off1));
        let ghost off2 = off1 + ab@.len() as int;
        let nb = match encode_section(&self.name_servers, &mut table, cap2, Ghost(off2)) {
            Ok(b) => b,
            Err(e) => return Err(e),
        };
        let cap3 = advance_cap(cap2, nb.len(), Ghost(off2));
        let ghost off3 = off2 + nb@.len() as int;
        let rb = match encode_section(&self.additional_records, &mut table, cap3, Ghost(off3)) {
            Ok(b) => b,
            Err(e) => return Err(e),
        };
        let mut out: Vec<u8> = Vec::new();
        push_u16(&mut out, self.id);
        let flags = self.flags_word();
        push_u16(&mut out, flags);
        push_u16(&mut out, qd as u16);
        push_u16(&mut out, an as u16);
        push_u16(&mut out, ns as u16);
        push_u16(&mut out, ar as u16);
        let ghost header = out@;
        proof {
            assert(header =~= spec_header_bytes(
                self@,
                qd as u16,
                an as u16,
                ns as u16,
                ar as u16,
            ));
        }
        let mut qb2 = qb;
        let ghost qv = qb2@;
        out.append(&mut qb2);
        let mut ab2 = ab;
        let ghost av = ab2@;
        out.append(&mut ab2);
        let mut nb2 = nb;
        let ghost nv = nb2@;
        out.append(&mut nb2);
        let mut rb2 = rb;
        let ghost rv = rb2@;
        out.append(&mut rb2);
        proof {
            assert(out@ =~= header + qv + av + nv + rv);
        }
        Ok(out)
    }

    /// Decodes a whole message whose header starts at `off`.  A malformed
    /// header or question is fatal; a record that cannot be decoded is
    /// skipped over its declared payload length and reported in
    /// `record_errors` with the offset where it started.
    #[verifier::rlimit(100)]
    #[verifier::spinoff_prover]
    pub fn decode(buf: &[u8], off: usize) -> (r: Result<MessageBase, DnsError>)
        ensures
            match (r, spec_decode_message(buf@, off as int)) {
                (Ok(m), Ok(sp)) => m@ == sp,
                (Err(e1), Err(e2)) => e1 == e2,
                _ => false,
            },
    {
        let n = buf.len();
        if off > n || n - off < 12 {
            return Err(DnsError::Truncated);
        }
        let id = read_u16(buf, off);
        let w = read_u16(buf, off + 2);
        let op_code = match OpCodes::from_code(((w / 0x800) % 16) as u8) {
            Ok(o) => o,
            Err(e) => return Err(e),
        };
        let response_code = match ResponseCodes::get_response_code_from_code((w % 16) as u8) {
            Ok(c) => c,
            Err(e) => return Err(e),
        };
        let qd = read_u16(buf, off + 4) as usize;
        let an = read_u16(buf, off + 6) as usize;
        let ns = read_u16(buf, off + 8) as usize;
        let ar = read_u16(buf, off + 10) as usize;
        let (queries, p1) = match decode_queries(buf, off + 12, qd) {
            Ok(p) => p,
            Err(e) => return Err(e),
        };
        let (answers, ai, p2) = match decode_records(buf, p1, an) {
            Ok(p) => p,
            Err(e) => return Err(e),
        };
        let (name_servers, ni, p3) = match decode_records(buf, p2, ns) {
            Ok(p) => p,
            Err(e) => return Err(e),
        };
        let (additional_records, ri, _p4) = match decode_records(buf, p3, ar) {
            Ok(p) => p,
            Err(e) => return Err(e),
        };
        let mut record_errors: Vec<RecordIssue> = Vec::new();
        proof {
            assert(Seq::new(
                record_errors@.len(),
                |i: int|
                    (
                        record_errors@[i].section,
                        record_errors@[i].offset as int,
                        record_errors@[i].error,
                    ),
            ) =~~= Seq::<(Section, int, DnsError)>::empty());
        }
        tag_issues(&mut record_errors, &ai, Section::Answer);
        tag_issues(&mut record_errors, &ni, Section::Authority);
        tag_issues(&mut record_errors, &ri, Section::Additional);
        let m = MessageBase {
            id,
            op_code,
            response_code,
            qr: w >= 0x8000,
            authoritative: (w / 0x400) % 2 == 1,
            truncated: (w / 0x200) % 2 == 1,
            recursion_desired: (w / 0x100) % 2 == 1,
            recursion_available: (w / 0x80) % 2 == 1,
            authenticated_data: (w / 0x20) % 2 == 1,
            checking_disabled: (w / 0x10) % 2 == 1,
            queries,
            answers,
            name_servers,
            additional_records,
            record_errors,
        };
        proof {
            let sp = spec_decode_message(buf@, off as int);
            assert(m@.record_errors =~~= spec_tag_issues(issues_view(ai@), Section::Answer)
                + spec_tag_issues(issues_view(ni@), Section::Authority) + spec_tag_issues(
                issues_view(ri@),
                Section::Additional,
            ));
            assert(m@ =~~= sp->Ok_0);
        }
        Ok(m)
    }


    pub fn set_id(&mut self, id: u16)
        ensures
            final(self)@ == (MessageBaseV { id, ..old(self)@ }),
    {
        self.id = id;
    }

    pub fn get_id(&self) -> (r: u16)
        ensures
            r == self@.id,
    {
        self.id
    }

    pub fn set_qr(&mut self, qr: bool)
        ensures
            final(self)@ == (MessageBaseV { qr, ..old(self)@ }),
    {
        self.qr = qr;
    }

    pub fn is_qr(&self) -> (r: bool)
        ensures
            r == self@.qr,
    {
        self.qr
    }

    pub fn set_op_code(&mut self, op_code: OpCodes)
        ensures
            final(self)@ == (MessageBaseV { op_code, ..old(self)@ }),
    {
        self.op_code = op_code;
    }

    pub fn get_op_code(&self) -> (r: OpCodes)
        ensures
            r == self@.op_code,
    {
        self.op_code
    }

    pub fn set_authoritative(&mut self, authoritative: bool)
        ensures
            final(self)@ == (MessageBaseV { authoritative, ..old(self)@ }),
    {
        self.authoritative = authoritative;
    }

    pub fn is_authoritative(&self) -> (r: bool)
        ensures
            r == self@.authoritative,
    {
        self.authoritative
    }

    pub fn set_truncated(&mut self, truncated: bool)
        ensures
            final(self)@ == (MessageBaseV { truncated, ..old(self)@ }),
    {
        self.truncated = truncated;
    }

    pub fn is_truncated(&self) -> (r: bool)
        ensures
            r == self@.truncated,
    {
        self.truncated
    }

    pub fn set_recursion_desired(&mut self, recursion_desired: bool)
        ensures
            final(self)@ == (MessageBaseV { recursion_desired, ..old(self)@ }),
    {
        self.recursion_desired = recursion_desired;
    }

    pub fn is_recursion_desired(&self) -> (r: bool)
        ensures
            r == self@.recursion_desired,
    {
        self.recursion_desired
    }

    pub fn set_recursion_available(&mut self, recursion_available: bool)
        ensures
            final(self)@ == (MessageBaseV { recursion_available, ..old(self)@ }),
    {
        self.recursion_available = recursion_available;
    }

    pub fn is_recursion_available(&self) -> (r: bool)
        ensures
            r == self@.recursion_available,
    {
        self.recursion_available
    }

    pub fn set_response_code(&mut self, response_code: ResponseCodes)
        ensures
            final(self)@ == (MessageBaseV { response_code, ..old(self)@ }),
    {
        self.response_code = response_code;
    }

    pub fn get_response_code(&self) -> (r: ResponseCodes)
        ensures
            r == self@.response_code,
    {
        self.response_code
    }

    pub fn total_queries(&self) -> (r: usize)
        ensures
            r == self@.queries.len(),
    {
        self.queries.len()
    }

    pub fn add_query(&mut self, query: DnsQuery)
        ensures
            final(self)@ == (MessageBaseV {
                queries: old(self)@.queries.push(query@),
                ..old(self)@
            }),
    {
        self.queries.push(query);
        proof {
            assert(self@.queries =~~= old(self)@.queries.push(self.queries@.last()@));
        }
    }

    pub fn get_queries(&self) -> (r: &Vec<DnsQuery>)
        ensures
            r == &self.queries,
    {
        &self.queries
    }

    pub fn add_answers(&mut self, query: &[u8], record: ResourceRecord)
        ensures
            final(self)@ == (MessageBaseV {
                answers: spec_map_insert(old(self)@.answers, query@, record@),
                ..old(self)@
            }),
    {
        self.answers.insert(query, record);
    }

    pub fn add_name_servers(&mut self, query: &[u8], record: ResourceRecord)
        ensures
            final(self)@ == (MessageBaseV {
                name_servers: spec_map_insert(old(self)@.name_servers, query@, record@),
                ..old(self)@
            }),
    {
        self.name_servers.insert(query, record);
    }

    pub fn add_additional_records(&mut self, query: &[u8], record: ResourceRecord)
        ensures
            final(self)@ == (MessageBaseV {
                additional_records: spec_map_insert(
                    old(self)@.additional_records,
                    query@,
                    record@,
                ),
                ..old(self)@
            }),
    {
        self.additional_records.insert(query, record);
    }

    pub fn get_answers(&self) -> (r: &OwnerMap)
        ensures
            r == &self.answers,
    {
        &self.answers
    }

    pub fn get_name_servers(&self) -> (r: &OwnerMap)
        ensures
            r == &self.name_servers,
    {
        &self.name_servers
    }

    pub fn get_additional_records(&self) -> (r: &OwnerMap)
        ensures
            r == &self.additional_records,
    {
        &self.additional_records
    }

    pub fn get_record_errors(&self) -> (r: &Vec<RecordIssue>)
        ensures
            r == &self.record_errors,
    {
        &self.record_errors
    }

    /// The packed 16-bit flag word of this message.
    pub fn flags_word(&self) -> (r: u16)
        ensures
            r == spec_flags_word(self@),
    {
        let o = self.op_code.get_code();
        let rc = self.response_code.get_code();
        proof {
            assert(self.op_code.spec_code() <= 15);
            assert(self.response_code.spec_code() <= 15);
        }
        (if self.qr {
            0x8000
        } else {
            0
        }) + (o as u16) * 0x800 + (if self.authoritative {
            0x400
        } else {
            0
        }) + (if self.truncated {
            0x200
        } else {
            0
        }) + (if self.recursion_desired {
            0x100
        } else {
            0
        }) + (if self.recursion_available {
            0x80
        } else {
            0
        }) + (if self.authenticated_data {
            0x20
        } else {
            0
        }) + (if self.checking_disabled {
            0x10
        } else {
            0
        }) + (rc as u16)
    }
}

} // verus!
