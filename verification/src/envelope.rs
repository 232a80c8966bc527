//! The envelope every resource record shares: TYPE(16), CLASS(16), TTL(32),
//! RDLENGTH(16), then RDLENGTH bytes of kind-specific payload.
//!
//! Records that support the mDNS cache-flush flag OR it into the class
//! field's high bit on encode and mask it off on decode.

use vstd::prelude::*;

use crate::errors::DnsError;
use crate::wire::{be16_at, be16_bytes, be32_at, be32_bytes, push_u16, push_u32, read_u16,
    read_u32};

verus! {

/// The full wire form of one record given its payload.
pub open spec fn spec_envelope(tcode: u16, class_word: u16, ttl: u32, rdata: Seq<u8>) -> Seq<u8> {
    be16_bytes(tcode) + be16_bytes(class_word) + be32_bytes(ttl) + be16_bytes(
        rdata.len() as u16,
    ) + rdata
}

/// The class field with the cache-flush flag folded in.
pub open spec fn spec_class_word(code: u16, cache_flush: bool) -> u16 {
    if cache_flush {
        (0x8000 + code) as u16
    } else {
        code
    }
}

/// The envelope fields found at `off` (`off` is the class position, just
/// past the two type bytes): class word, TTL, and payload length, checked
/// to lie within the buffer.
pub open spec fn spec_envelope_at(buf: Seq<u8>, off: int) -> Result<(u16, u32, int), DnsError> {
    if off < 0 || off + 8 > buf.len() {
        Err(DnsError::Truncated)
    } else {
        let rdlen = be16_at(buf, off + 6) as int;
        if off + 8 + rdlen > buf.len() {
            Err(DnsError::Truncated)
        } else {
            Ok((be16_at(buf, off), be32_at(buf, off + 2), rdlen))
        }
    }
}

/// Wraps a payload in the record envelope.  The only way this can fail is a
/// payload too large for the 16-bit length field.
pub fn encode_envelope(tcode: u16, class_word: u16, ttl: u32, rdata: Vec<u8>) -> (r: Result<
    Vec<u8>,
    DnsError,
>)
    ensures
        match r {
            Ok(b) => rdata@.len() <= 0xFFFF && b@ == spec_envelope(tcode, class_word, ttl, rdata@),
            Err(e) => e == DnsError::CountOverflow && rdata@.len() > 0xFFFF,
        },
{
    if rdata.len() > 0xFFFF {
        return Err(DnsError::CountOverflow);
    }
    let mut out: Vec<u8> = Vec::new();
    push_u16(&mut out, tcode);
    push_u16(&mut out, class_word);
    push_u32(&mut out, ttl);
    push_u16(&mut out, rdata.len() as u16);
    let mut rd = rdata;
    let ghost rv = rd@;
    out.append(&mut rd);
    proof {
        assert(out@ =~= spec_envelope(tcode, class_word, ttl, rv));
    }
    Ok(out)
}

/// Reads the envelope fields at `off` (class position) and checks the
/// declared payload fits in the buffer.
pub fn decode_envelope(buf: &[u8], off: usize) -> (r: Result<(u16, u32, usize), DnsError>)
    ensures
        match (r, spec_envelope_at(buf@, off as int)) {
            (Ok(p), Ok(sp)) => p.0 == sp.0 && p.1 == sp.1 && p.2 == sp.2,
            (Err(e1), Err(e2)) => e1 == e2,
            _ => false,
        },
{
    let n = buf.len();
    if off > n || n - off < 8 {
        return Err(DnsError::Truncated);
    }
    let class_word = read_u16(buf, off);
    let ttl = read_u32(buf, off + 2);
    let rdlen = read_u16(buf, off + 6) as usize;
    if rdlen > n - off - 8 {
        return Err(DnsError::Truncated);
    }
    Ok((class_word, ttl, rdlen))
}

} // verus!
