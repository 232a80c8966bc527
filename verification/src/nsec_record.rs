//! The NSEC record: the next owner name in canonical order and a bitmap of
//! the type codes present at this owner.
//!
//! The bitmap groups type codes into 256-code windows.  Each non-empty
//! window is written as its window number, a byte count, and a big-endian
//! bitmap in which bit `7 - (code % 8)` of byte `(code % 256) / 8` is set
//! exactly when that code is present; trailing zero bytes are trimmed and
//! windows with no set bits are omitted.  Supports the mDNS cache-flush
//! flag in the class field's high bit.

use vstd::prelude::*;

use crate::codes::{DnsClasses, Types};
use crate::envelope::{decode_envelope, encode_envelope, spec_class_word, spec_envelope,
    spec_envelope_at};
use crate::errors::DnsError;
use crate::names::{lemma_read_name_end, pack_domain, spec_labels, spec_pack_name, spec_read_name,
    unpack_domain, NameTable};
use crate::wire::push_range;

verus! {

/// A next-secure record.
#[derive(Debug, Clone, PartialEq, Eq)]
pub struct NsecRecord {
    pub dns_class: DnsClasses,
    pub cache_flush: bool,
    pub ttl: u32,
    pub domain: Vec<u8>,
    pub rr_types: Vec<u16>,
}

/// The mathematical value of an [`NsecRecord`].
pub ghost struct NsecRecordV {
    pub dns_class: DnsClasses,
    pub cache_flush: bool,
    pub ttl: u32,
    pub domain: Seq<u8>,
    pub rr_types: Seq<u16>,
}

impl View for NsecRecord {
    type V = NsecRecordV;

    open spec fn view(&self) -> NsecRecordV {
        NsecRecordV {
            dns_class: self.dns_class,
            cache_flush: self.cache_flush,
            ttl: self.ttl,
            domain: self.domain@,
            rr_types: self.rr_types@,
        }
    }
}

/// Whether a type code occurs in the list.
pub open spec fn has_code(types: Seq<u16>, code: u16) -> bool {
    exists|k: int| 0 <= k < types.len() && types[k] == code
}

/// Byte `j` of window `w`: one bit per code, most significant first.
pub open spec fn window_byte(types: Seq<u16>, w: int, j: int) -> u8 {
    ((if has_code(types, (w * 256 + j * 8 + 0) as u16) {
        128int
    } else {
        0int
    }) + (if has_code(types, (w * 256 + j * 8 + 1) as u16) {
        64int
    } else {
        0int
    }) + (if has_code(types, (w * 256 + j * 8 + 2) as u16) {
        32int
    } else {
        0int
    }) + (if has_code(types, (w * 256 + j * 8 + 3) as u16) {
        16int
    } else {
        0int
    }) + (if has_code(types, (w * 256 + j * 8 + 4) as u16) {
        8int
    } else {
        0int
    }) + (if has_code(types, (w * 256 + j * 8 + 5) as u16) {
        4int
    } else {
        0int
    }) + (if has_code(types, (w * 256 + j * 8 + 6) as u16) {
        2int
    } else {
        0int
    }) + (if has_code(types, (w * 256 + j * 8 + 7) as u16) {
        1int
    } else {
        0int
    })) as u8
}

/// The count of bytes of window `w` that survive trimming, looking at the
/// first `j` bytes: the index just past the last non-zero byte.
pub open spec fn window_len_upto(types: Seq<u16>, w: int, j: int) -> int
    decreases j,
{
    if j <= 0 {
        0
    } else if window_byte(types, w, j - 1) != 0 {
        j
    } else {
        window_len_upto(types, w, j - 1)
    }
}

/// The wire form of window `w`: nothing when no bit is set, else the window
/// number, the trimmed byte count, and the bytes.
pub open spec fn spec_nsec_window(types: Seq<u16>, w: int) -> Seq<u8> {
    let len = window_len_upto(types, w, 32);
    if len == 0 {
        Seq::empty()
    } else {
        seq![w as u8, len as u8] + Seq::new(len as nat, |j: int| window_byte(types, w, j))
    }
}

/// The windows `0 .. w` of the bitmap, in ascending order.
pub open spec fn spec_nsec_bitmap_upto(types: Seq<u16>, w: int) -> Seq<u8>
    decreases w,
{
    if w <= 0 {
        Seq::empty()
    } else {
        spec_nsec_bitmap_upto(types, w - 1) + spec_nsec_window(types, w - 1)
    }
}

/// The whole type bitmap.
pub open spec fn spec_nsec_bitmap(types: Seq<u16>) -> Seq<u8> {
    spec_nsec_bitmap_upto(types, 256)
}

/// The value of the bit mask for bit `k` of a window byte, most
/// significant first.
pub open spec fn bit_mask(k: int) -> int {
    if k == 0 {
        128
    } else if k == 1 {
        64
    } else if k == 2 {
        32
    } else if k == 3 {
        16
    } else if k == 4 {
        8
    } else if k == 5 {
        4
    } else if k == 6 {
        2
    } else {
        1
    }
}

/// The codes named by bits `k ..` of byte `j` of window `w` holding value
/// `b`, ascending.
pub open spec fn byte_codes_from(w: int, j: int, b: u8, k: int) -> Seq<u16>
    decreases 8 - k,
{
    if k < 0 || k >= 8 {
        Seq::empty()
    } else {
        (if (b as int / bit_mask(k)) % 2 == 1 {
            seq![(w * 256 + j * 8 + k) as u16]
        } else {
            Seq::empty()
        }) + byte_codes_from(w, j, b, k + 1)
    }
}

/// The codes named by byte `j` of window `w` holding value `b`, ascending.
pub open spec fn byte_codes(w: int, j: int, b: u8) -> Seq<u16> {
    byte_codes_from(w, j, b, 0)
}

/// The codes named by bytes `j ..` of window `w`.
pub open spec fn window_codes_from(w: int, bytes: Seq<u8>, j: int) -> Seq<u16>
    decreases bytes.len() - j,
{
    if j < 0 || j >= bytes.len() {
        Seq::empty()
    } else {
        byte_codes(w, j, bytes[j]) + window_codes_from(w, bytes, j + 1)
    }
}

/// The codes read from the windows between `pos` and `end`.  A window whose
/// byte count runs past `end`, or past the 32 bytes a window can hold, is a
/// `Truncated` error.
pub open spec fn spec_parse_bitmap(buf: Seq<u8>, pos: int, end: int) -> Result<Seq<u16>, DnsError>
    decreases end - pos,
{
    if pos >= end {
        Ok(Seq::empty())
    } else if pos + 2 > end {
        Err(DnsError::Truncated)
    } else {
        let w = buf[pos] as int;
        let len = buf[pos + 1] as int;
        if len > 32 || pos + 2 + len > end {
            Err(DnsError::Truncated)
        } else {
            match spec_parse_bitmap(buf, pos + 2 + len, end) {
                Ok(r) => Ok(window_codes_from(w, buf.subrange(pos + 2, pos + 2 + len), 0) + r),
                Err(e) => Err(e),
            }
        }
    }
}

/// The wire form of an NSEC record encoded at absolute offset `off` of its
/// type field: the envelope around the packed next-owner name and the type
/// bitmap.
pub open spec fn spec_encode_nsec(v: NsecRecordV, table: Map<Seq<u8>, u16>, off: int) -> Result<
    (Seq<u8>, Map<Seq<u8>, u16>),
    DnsError,
> {
    match spec_pack_name(spec_labels(v.domain), table, off + 10) {
        Ok((nb, t)) => if nb.len() + spec_nsec_bitmap(v.rr_types).len() > 0xFFFF {
            Err(DnsError::CountOverflow)
        } else {
            Ok(
                (
                    spec_envelope(
                        Types::Nsec.spec_code(),
                        spec_class_word(v.dns_class.spec_code(), v.cache_flush),
                        v.ttl,
                        nb + spec_nsec_bitmap(v.rr_types),
                    ),
                    t,
                ),
            )
        },
        Err(e) => Err(e),
    }
}

/// The record read at `off` (its class position) and the bytes consumed.
pub open spec fn spec_decode_nsec(buf: Seq<u8>, off: int) -> Result<(NsecRecordV, int), DnsError> {
    match spec_envelope_at(buf, off) {
        Ok((cw, ttl, rdlen)) => match DnsClasses::spec_from_code((cw % 0x8000) as u16) {
            Ok(class) => match spec_read_name(buf, off + 8, buf.len() as nat) {
                Ok((nm, e1)) => if e1 > off + 8 + rdlen {
                    Err(DnsError::Truncated)
                } else {
                    match spec_parse_bitmap(buf, e1, off + 8 + rdlen) {
                        Ok(types) => Ok(
                            (
                                NsecRecordV {
                                    dns_class: class,
                                    cache_flush: cw >= 0x8000,
                                    ttl,
                                    domain: nm,
                                    rr_types: types,
                                },
                                8 + rdlen,
                            ),
                        ),
                        Err(e) => Err(e),
                    }
                },
                Err(e) => Err(e),
            },
            Err(e) => Err(e),
        },
        Err(e) => Err(e),
    }
}

/// Whether a type code occurs in the list (linear scan).
pub fn contains_code(types: &Vec<u16>, code: u16) -> (r: bool)
    ensures
        r == has_code(types@, code),
{
    let n = types.len();
    let mut i: usize = 0;
    while i < n
        invariant
            n == types@.len(),
            0 <= i <= n,
            forall|k: int| 0 <= k < i ==> types@[k] != code,
        decreases n - i,
    {
        if types[i] == code {
            return true;
        }
        i += 1;
    }
    false
}

/// Computes byte `j` of window `w` from the type list.
fn window_byte_exec(types: &Vec<u16>, w: usize, j: usize) -> (r: u8)
    requires
        w < 256,
        j < 32,
    ensures
        r == window_byte(types@, w as int, j as int),
{
    let base: u16 = (w as u16) * 256 + (j as u16) * 8;
    let mut v: u16 = 0;
    if contains_code(types, base) {
        v += 128;
    }
    if contains_code(types, base + 1) {
        v += 64;
    }
    if contains_code(types, base + 2) {
        v += 32;
    }
    if contains_code(types, base + 3) {
        v += 16;
    }
    if contains_code(types, base + 4) {
        v += 8;
    }
    if contains_code(types, base + 5) {
        v += 4;
    }
    if contains_code(types, base + 6) {
        v += 2;
    }
    if contains_code(types, base + 7) {
        v += 1;
    }
    v as u8
}

/// Appends the codes named by one window byte, most significant bit first.
fn push_byte_codes(out: &mut Vec<u16>, w: u8, j: usize, b: u8)
    requires
        j < 32,
    ensures
        final(out)@ == old(out)@ + byte_codes(w as int, j as int, b),
{
    push_byte_codes_from(out, w, j, b, 0);
}

/// Appends the codes named by the bits from `k` on of one window byte.
fn push_byte_codes_from(out: &mut Vec<u16>, w: u8, j: usize, b: u8, k: usize)
    requires
        j < 32,
        k <= 8,
    ensures
        final(out)@ == old(out)@ + byte_codes_from(w as int, j as int, b, k as int),
    decreases 8 - k,
{
    if k >= 8 {
        proof {
            assert(out@ =~= old(out)@ + byte_codes_from(w as int, j as int, b, k as int));
        }
        return ;
    }
    let m: u8 = match k {
        0 => 128,
        1 => 64,
        2 => 32,
        3 => 16,
        4 => 8,
        5 => 4,
        6 => 2,
        _ => 1,
    };
    proof {
        assert(m as int == bit_mask(k as int));
    }
    let ghost mid = out@;
    let ghost ck: Seq<u16> = if (b as int / bit_mask(k as int)) % 2 == 1 {
        seq![((w as int) * 256 + (j as int) * 8 + k as int) as u16]
    } else {
        Seq::empty()
    };
    if (b / m) % 2 == 1 {
        let base: u16 = (w as u16) * 256 + (j as u16) * 8;
        out.push(base + (k as u16));
    }
    proof {
        assert(out@ =~= mid + ck);
    }
    push_byte_codes_from(out, w, j, b, k + 1);
    proof {
        assert(mid + (ck + byte_codes_from(w as int, j as int, b, k as int + 1)) =~= out@);
    }
}

/// Builds the whole type bitmap for a type list.
fn build_bitmap(types: &Vec<u16>) -> (r: Vec<u8>)
    ensures
        r@ == spec_nsec_bitmap(types@),
{
    let mut out: Vec<u8> = Vec::new();
    let mut w: usize = 0;
    proof {
        assert(out@ =~= spec_nsec_bitmap_upto(types@, 0));
    }
    while w < 256
        invariant
            0 <= w <= 256,
            out@ == spec_nsec_bitmap_upto(types@, w as int),
        decreases 256 - w,
    {
        let mut wb: Vec<u8> = Vec::new();
        let mut j: usize = 0;
        while j < 32
            invariant
                w < 256,
                0 <= j <= 32,
                wb@.len() == j,
                forall|k: int| 0 <= k < j ==> wb@[k] == window_byte(types@, w as int, k),
            decreases 32 - j,
        {
            wb.push(window_byte_exec(types, w, j));
            j += 1;
        }
        let mut len: usize = 32;
        while len > 0 && wb[len - 1] == 0
            invariant
                0 <= len <= 32,
                wb@.len() == 32,
                forall|k: int| 0 <= k < 32 ==> wb@[k] == window_byte(types@, w as int, k),
                w < 256,
                window_len_upto(types@, w as int, 32) == window_len_upto(
                    types@,
                    w as int,
                    len as int,
                ),
            decreases len,
        {
            len -= 1;
        }
        proof {
            assert(window_len_upto(types@, w as int, 32) == len as int);
        }
        let ghost out_old = out@;
        if len > 0 {
            out.push(w as u8);
            out.push(len as u8);
            push_range(&mut out, wb.as_slice(), 0, len);
            proof {
                assert(wb@.subrange(0, len as int) =~= Seq::new(
                    len as nat,
                    |j: int| window_byte(types@, w as int, j),
                ));
                assert(out@ =~= out_old + spec_nsec_window(types@, w as int));
            }
        } else {
            proof {
                assert(out@ =~= out_old + spec_nsec_window(types@, w as int));
            }
        }
        w += 1;
    }
    out
}

impl NsecRecord {
    pub fn new(
        dns_classes: DnsClasses,
        cache_flush: bool,
        ttl: u32,
        domain: &[u8],
        rr_types: Vec<u16>,
    ) -> (r: NsecRecord)
        ensures
            r@ == (NsecRecordV {
                dns_class: dns_classes,
                cache_flush,
                ttl,
                domain: domain@,
                rr_types: rr_types@,
            }),
    {
        NsecRecord {
            dns_class: dns_classes,
            cache_flush,
            ttl,
            domain: vstd::slice::slice_to_vec(domain),
            rr_types,
        }
    }

    pub fn get_type(&self) -> (r: Types)
        ensures
            r == Types::Nsec,
    {
        Types::Nsec
    }

    /// Writes the record at absolute offset `off` of its type field.
    pub fn encode(&self, table: &mut NameTable, off: usize) -> (r: Result<Vec<u8>, DnsError>)
        requires
            old(table).inv(),
            off + 10 <= usize::MAX,
        ensures
            final(table).inv(),
            match (r, spec_encode_nsec(self@, old(table)@, off as int)) {
                (Ok(b), Ok(sp)) => b@ == sp.0 && final(table)@ == sp.1,
                (Err(e1), Err(e2)) => e1 == e2,
                _ => false,
            },
    {
        let mut rdata = match pack_domain(self.domain.as_slice(), table, off + 10) {
            Ok(nb) => nb,
            Err(e) => return Err(e),
        };
        let ghost nb = rdata@;
        let mut bitmap = build_bitmap(&self.rr_types);
        let ghost bv = bitmap@;
        rdata.append(&mut bitmap);
        proof {
            assert(rdata@ =~= nb + bv);
        }
        if rdata.len() > 0xFFFF {
            return Err(DnsError::CountOverflow);
        }
        let class_word = if self.cache_flush {
            0x8000 + self.dns_class.get_code()
        } else {
            self.dns_class.get_code()
        };
        encode_envelope(Types::Nsec.get_code(), class_word, self.ttl, rdata)
    }

    /// Reads a record at `off` (its class position, just past the type).
    pub fn decode(buf: &[u8], off: usize) -> (r: Result<(NsecRecord, usize), DnsError>)
        ensures
            match (r, spec_decode_nsec(buf@, off as int)) {
                (Ok(p), Ok(sp)) => p.0@ == sp.0 && p.1 == sp.1,
                (Err(e1), Err(e2)) => e1 == e2,
                _ => false,
            },
    {
        let (cw, ttl, rdlen) = match decode_envelope(buf, off) {
            Ok(p) => p,
            Err(e) => return Err(e),
        };
        let dns_class = match DnsClasses::get_class_from_code(cw % 0x8000) {
            Ok(c) => c,
            Err(e) => return Err(e),
        };
        let n = buf.len();
        proof {
            assert(off + 8 <= n);
        }
        let (domain, u1) = match unpack_domain(buf, off + 8) {
            Ok(p) => p,
            Err(e) => return Err(e),
        };
        proof {
            lemma_read_name_end(buf@, off as int + 8, buf@.len() as nat);
        }
        if u1 > rdlen {
            return Err(DnsError::Truncated);
        }
        let end: usize = off + 8 + rdlen;
        let mut pos: usize = off + 8 + u1;
        let ghost e1 = pos as int;
        let mut rr_types: Vec<u16> = Vec::new();
        proof {
            let full = spec_parse_bitmap(buf@, e1, end as int);
            if full is Ok {
                assert(Seq::<u16>::empty() + full->Ok_0 =~= full->Ok_0);
            }
        }
        while pos < end
            invariant
                n == buf@.len(),
                pos <= end <= n,
                spec_parse_bitmap(buf@, e1, end as int) == (match spec_parse_bitmap(
                    buf@,
                    pos as int,
                    end as int,
                ) {
                    Ok(r) => Ok::<Seq<u16>, DnsError>(rr_types@ + r),
                    Err(e) => Err(e),
                }),
                spec_decode_nsec(buf@, off as int) == (match spec_parse_bitmap(
                    buf@,
                    e1,
                    end as int,
                ) {
                    Ok(ts) => Ok::<(NsecRecordV, int), DnsError>(
                        (
                            NsecRecordV {
                                dns_class,
                                cache_flush: cw >= 0x8000,
                                ttl,
                                domain: domain@,
                                rr_types: ts,
                            },
                            8 + rdlen as int,
                        ),
                    ),
                    Err(e) => Err(e),
                }),
            decreases end - pos,
        {
            if end - pos < 2 {
                return Err(DnsError::Truncated);
            }
            let w = buf[pos];
            let len = buf[pos + 1] as usize;
            if len > 32 || len > end - pos - 2 {
                return Err(DnsError::Truncated);
            }
            let ghost types_old = rr_types@;
            let ghost wbytes = buf@.subrange(pos as int + 2, pos as int + 2 + len as int);
            let mut j: usize = 0;
            while j < len
                invariant
                    n == buf@.len(),
                    0 <= j <= len,
                    len <= 32,
                    pos + 2 + len <= end <= n,
                    wbytes == buf@.subrange(pos as int + 2, pos as int + 2 + len as int),
                    rr_types@ == types_old + window_codes_upto(w as int, wbytes, j as int),
                decreases len - j,
            {
                push_byte_codes(&mut rr_types, w, j, buf[pos + 2 + j]);
                proof {
                    assert(wbytes[j as int] == buf@[pos as int + 2 + j]);
                    lemma_window_codes_snoc(w as int, wbytes, j as int);
                }
                j += 1;
            }
            proof {
                lemma_window_codes_upto_full(w as int, wbytes);
                assert(rr_types@ =~= types_old + window_codes_from(w as int, wbytes, 0));
            }
            pos = pos + 2 + len;
            proof {
                let inner = spec_parse_bitmap(buf@, pos as int, end as int);
                if inner is Ok {
                    assert(types_old + (window_codes_from(w as int, wbytes, 0) + inner->Ok_0)
                        =~= rr_types@ + inner->Ok_0);
                }
            }
        }
        proof {
            assert(rr_types@ + Seq::<u16>::empty() =~= rr_types@);
        }
        Ok(
            (
                NsecRecord { dns_class, cache_flush: cw >= 0x8000, ttl, domain, rr_types },
                8 + rdlen,
            ),
        )
    }

    pub fn set_dns_class(&mut self, dns_class: DnsClasses)
        ensures
            final(self)@ == (NsecRecordV { dns_class, ..old(self)@ }),
    {
        self.dns_class = dns_class;
    }

    pub fn get_dns_class(&self) -> (r: DnsClasses)
        ensures
            r == self@.dns_class,
    {
        self.dns_class
    }

    pub fn set_ttl(&mut self, ttl: u32)
        ensures
            final(self)@ == (NsecRecordV { ttl, ..old(self)@ }),
    {
        self.ttl = ttl;
    }

    pub fn get_ttl(&self) -> (r: u32)
        ensures
            r == self@.ttl,
    {
        self.ttl
    }

    pub fn set_domain(&mut self, domain: &[u8])
        ensures
            final(self)@ == (NsecRecordV { domain: domain@, ..old(self)@ }),
    {
        self.domain = vstd::slice::slice_to_vec(domain);
    }

    pub fn get_domain(&self) -> (r: Vec<u8>)
        ensures
            r@ == self@.domain,
    {
        vstd::slice::slice_to_vec(self.domain.as_slice())
    }

    pub fn get_rr_types(&self) -> (r: &Vec<u16>)
        ensures
            r@ == self@.rr_types,
    {
        &self.rr_types
    }
}

/// The codes named by bytes `0 .. j` of a window.
pub open spec fn window_codes_upto(w: int, bytes: Seq<u8>, j: int) -> Seq<u16>
    decreases j,
{
    if j <= 0 {
        Seq::empty()
    } else {
        window_codes_upto(w, bytes, j - 1) + byte_codes(w, j - 1, bytes[j - 1])
    }
}

/// Extending a prefix of window bytes by one byte appends that byte's codes.
proof fn lemma_window_codes_snoc(w: int, bytes: Seq<u8>, j: int)
    requires
        0 <= j < bytes.len(),
    ensures
        window_codes_upto(w, bytes, j + 1) == window_codes_upto(w, bytes, j) + byte_codes(
            w,
            j,
            bytes[j],
        ),
{
}

/// Reading a window front to back or back to front names the same codes.
proof fn lemma_window_codes_upto_full(w: int, bytes: Seq<u8>)
    ensures
        window_codes_upto(w, bytes, bytes.len() as int) == window_codes_from(w, bytes, 0),
{
    lemma_window_codes_agree(w, bytes, 0);
}

/// The suffix reading from `j` equals the difference of the prefix readings.
proof fn lemma_window_codes_agree(w: int, bytes: Seq<u8>, j: int)
    requires
        0 <= j <= bytes.len(),
    ensures
        window_codes_upto(w, bytes, j) + window_codes_from(w, bytes, j) == window_codes_upto(
            w,
            bytes,
            bytes.len() as int,
        ),
    decreases bytes.len() - j,
{
    if j == bytes.len() {
        lemma_window_codes_prefix_id(w, bytes, j);
    } else {
        lemma_window_codes_agree(w, bytes, j + 1);
        lemma_window_codes_snoc(w, bytes, j);
        assert(window_codes_upto(w, bytes, j) + (byte_codes(w, j, bytes[j]) + window_codes_from(
            w,
            bytes,
            j + 1,
        )) =~= (window_codes_upto(w, bytes, j) + byte_codes(w, j, bytes[j])) + window_codes_from(
            w,
            bytes,
            j + 1,
        ));
    }
}

/// Appending nothing after the full prefix changes nothing.
proof fn lemma_window_codes_prefix_id(w: int, bytes: Seq<u8>, j: int)
    requires
        j == bytes.len(),
    ensures
        window_codes_upto(w, bytes, j) + window_codes_from(w, bytes, j) == window_codes_upto(
            w,
            bytes,
            j,
        ),
{
    assert(window_codes_from(w, bytes, j) =~= Seq::<u16>::empty());
    assert(window_codes_upto(w, bytes, j) + Seq::<u16>::empty() =~= window_codes_upto(
        w,
        bytes,
        j,
    ));
}

} // verus!
