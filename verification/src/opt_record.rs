//! The OPT pseudo-record: protocol extension data.  The class field
//! carries the sender's UDP payload size and the TTL field an extended
//! status byte, a version byte and sixteen flag bits; the payload is an
//! ordered list of typed options.

use vstd::prelude::*;

use crate::codes::{OptCodes, Types};
use crate::envelope::{decode_envelope, encode_envelope, spec_envelope, spec_envelope_at};
use crate::errors::DnsError;
use crate::wire::{be16_at, be16_bytes, push_range, push_u16, read_u16};

verus! {

/// An OPT pseudo-record.
#[derive(Debug, Clone, PartialEq, Eq)]
pub struct OptRecord {
    pub payload_size: u16,
    pub ext_rcode: u8,
    pub edns_version: u8,
    pub flags: u16,
    pub options: Vec<(OptCodes, Vec<u8>)>,
}

/// The mathematical value of an [`OptRecord`].
pub ghost struct OptRecordV {
    pub payload_size: u16,
    pub ext_rcode: u8,
    pub edns_version: u8,
    pub flags: u16,
    pub options: Seq<(OptCodes, Seq<u8>)>,
}

/// The views of a vector of options.
pub open spec fn opts_views(s: Seq<(OptCodes, Vec<u8>)>) -> Seq<(OptCodes, Seq<u8>)> {
    Seq::new(s.len(), |i: int| (s[i].0, s[i].1@))
}

impl View for OptRecord {
    type V = OptRecordV;

    open spec fn view(&self) -> OptRecordV {
        OptRecordV {
            payload_size: self.payload_size,
            ext_rcode: self.ext_rcode,
            edns_version: self.edns_version,
            flags: self.flags,
            options: opts_views(self.options@),
        }
    }
}

/// The TTL slot of an OPT record: extended status, version, flags.
pub open spec fn spec_opt_ttl(v: OptRecordV) -> u32 {
    (v.ext_rcode * 0x1000000 + v.edns_version * 0x10000 + v.flags) as u32
}

/// The payload: each option as its code, a 16-bit value length, and the
/// value bytes, in list order.
pub open spec fn spec_encode_options(options: Seq<(OptCodes, Seq<u8>)>) -> Result<Seq<u8>, DnsError>
    decreases options.len(),
{
    if options.len() == 0 {
        Ok(Seq::empty())
    } else if options[0].1.len() > 0xFFFF {
        Err(DnsError::CountOverflow)
    } else {
        match spec_encode_options(options.drop_first()) {
            Ok(r) => Ok(
                be16_bytes(options[0].0.spec_code()) + be16_bytes(options[0].1.len() as u16)
                    + options[0].1 + r,
            ),
            Err(e) => Err(e),
        }
    }
}

/// The options read between `pos` and `end`: an option whose code is not in
/// the closed table is an `UnknownCode` error, one whose declared value
/// runs past `end` a `Truncated` one.
pub open spec fn spec_parse_options(buf: Seq<u8>, pos: int, end: int) -> Result<
    Seq<(OptCodes, Seq<u8>)>,
    DnsError,
>
    decreases end - pos,
{
    if pos >= end {
        Ok(Seq::empty())
    } else if pos + 4 > end {
        Err(DnsError::Truncated)
    } else {
        match OptCodes::spec_from_code(be16_at(buf, pos)) {
            Ok(code) => {
                let l = be16_at(buf, pos + 2) as int;
                if pos + 4 + l > end {
                    Err(DnsError::Truncated)
                } else {
                    match spec_parse_options(buf, pos + 4 + l, end) {
                        Ok(r) => Ok(seq![(code, buf.subrange(pos + 4, pos + 4 + l))] + r),
                        Err(e) => Err(e),
                    }
                }
            },
            Err(e) => Err(e),
        }
    }
}

/// The wire form of an OPT record.
pub open spec fn spec_encode_opt(v: OptRecordV) -> Result<Seq<u8>, DnsError> {
    match spec_encode_options(v.options) {
        Ok(rd) => if rd.len() > 0xFFFF {
            Err(DnsError::CountOverflow)
        } else {
            Ok(spec_envelope(Types::Opt.spec_code(), v.payload_size, spec_opt_ttl(v), rd))
        },
        Err(e) => Err(e),
    }
}

/// The record read at `off` (its class position) and the bytes consumed.
pub open spec fn spec_decode_opt(buf: Seq<u8>, off: int) -> Result<(OptRecordV, int), DnsError> {
    match spec_envelope_at(buf, off) {
        Ok((cw, ttlw, rdlen)) => match spec_parse_options(buf, off + 8, off + 8 + rdlen) {
            Ok(options) => Ok(
                (
                    OptRecordV {
                        payload_size: cw,
                        ext_rcode: (ttlw / 0x1000000) as u8,
                        edns_version: ((ttlw / 0x10000) % 256) as u8,
                        flags: (ttlw % 0x10000) as u16,
                        options,
                    },
                    8 + rdlen,
                ),
            ),
            Err(e) => Err(e),
        },
        Err(e) => Err(e),
    }
}

impl OptRecord {
    pub fn new(payload_size: u16, ext_rcode: u8, edns_version: u8, flags: u16) -> (r: OptRecord)
        ensures
            r@ == (OptRecordV {
                payload_size,
                ext_rcode,
                edns_version,
                flags,
                options: Seq::empty(),
            }),
    {
        let r = OptRecord { payload_size, ext_rcode, edns_version, flags, options: Vec::new() };
        proof {
            assert(opts_views(r.options@) =~= Seq::<(OptCodes, Seq<u8>)>::empty());
        }
        r
    }

    pub fn get_type(&self) -> (r: Types)
        ensures
            r == Types::Opt,
    {
        Types::Opt
    }

    /// Appends one option to the list.
    pub fn add_option(&mut self, code: OptCodes, value: &[u8])
        ensures
            final(self)@ == (OptRecordV {
                options: old(self)@.options.push((code, value@)),
                ..old(self)@
            }),
    {
        self.options.push((code, vstd::slice::slice_to_vec(value)));
        proof {
            assert(opts_views(self.options@) =~= opts_views(old(self).options@).push(
                (code, value@),
            ));
        }
    }

    pub fn get_options(&self) -> (r: &Vec<(OptCodes, Vec<u8>)>)
        ensures
            opts_views(r@) == self@.options,
    {
        &self.options
    }

    /// Writes the record; OPT carries no name, so it never compresses.
    pub fn encode(&self) -> (r: Result<Vec<u8>, DnsError>)
        ensures
            match (r, spec_encode_opt(self@)) {
                (Ok(b), Ok(sp)) => b@ == sp,
                (Err(e1), Err(e2)) => e1 == e2,
                _ => false,
            },
    {
        let mut rd: Vec<u8> = Vec::new();
        let mut i: usize = 0;
        let n = self.options.len();
        proof {
            assert(opts_views(self.options@).skip(0) =~~= opts_views(self.options@));
            let full = spec_encode_options(self@.options);
            if full is Ok {
                assert(Seq::<u8>::empty() + full->Ok_0 =~= full->Ok_0);
            }
        }
        while i < n
            invariant
                n == self.options@.len(),
                0 <= i <= n,
                spec_encode_options(self@.options) == (match spec_encode_options(
                    self@.options.skip(i as int),
                ) {
                    Ok(r) => Ok::<Seq<u8>, DnsError>(rd@ + r),
                    Err(e) => Err(e),
                }),
            decreases n - i,
        {
            let ghost s = self@.options.skip(i as int);
            let ghost rd_old = rd@;
            let value_len = self.options[i].1.len();
            if value_len > 0xFFFF {
                return Err(DnsError::CountOverflow);
            }
            push_u16(&mut rd, self.options[i].0.get_code());
            push_u16(&mut rd, value_len as u16);
            push_range(&mut rd, self.options[i].1.as_slice(), 0, value_len);
            i += 1;
            proof {
                assert(s[0] == (self.options@[i - 1].0, self.options@[i - 1].1@));
                assert(self.options@[i - 1].1@.subrange(0, value_len as int) =~= self.options@[i
                    - 1].1@);
                assert(s.drop_first() =~~= self@.options.skip(i as int));
                assert(rd@ =~= rd_old + (be16_bytes(s[0].0.spec_code()) + be16_bytes(
                    s[0].1.len() as u16,
                ) + s[0].1));
                let inner = spec_encode_options(self@.options.skip(i as int));
                if inner is Ok {
                    assert(rd_old + (be16_bytes(s[0].0.spec_code()) + be16_bytes(
                        s[0].1.len() as u16,
                    ) + s[0].1 + inner->Ok_0) =~= rd@ + inner->Ok_0);
                }
            }
        }
        proof {
            assert(self@.options.skip(n as int).len() == 0);
            assert(rd@ + Seq::<u8>::empty() =~= rd@);
        }
        if rd.len() > 0xFFFF {
            return Err(DnsError::CountOverflow);
        }
        let ttl = (self.ext_rcode as u32) * 0x1000000 + (self.edns_version as u32) * 0x10000 + (
        self.flags as u32);
        encode_envelope(Types::Opt.get_code(), self.payload_size, ttl, rd)
    }

    /// Reads a record at `off` (its class position, just past the type).
    pub fn decode(buf: &[u8], off: usize) -> (r: Result<(OptRecord, usize), DnsError>)
        ensures
            match (r, spec_decode_opt(buf@, off as int)) {
                (Ok(p), Ok(sp)) => p.0@ == sp.0 && p.1 == sp.1,
                (Err(e1), Err(e2)) => e1 == e2,
                _ => false,
            },
    {
        let (cw, ttlw, rdlen) = match decode_envelope(buf, off) {
            Ok(p) => p,
            Err(e) => return Err(e),
        };
        let n = buf.len();
        proof {
            assert(off + 8 + rdlen <= n);
        }
        let end: usize = off + 8 + rdlen;
        let mut pos: usize = off + 8;
        let mut options: Vec<(OptCodes, Vec<u8>)> = Vec::new();
        proof {
            assert(opts_views(options@) =~= Seq::<(OptCodes, Seq<u8>)>::empty());
            let full = spec_parse_options(buf@, off as int + 8, end as int);
            if full is Ok {
                assert(Seq::<(OptCodes, Seq<u8>)>::empty() + full->Ok_0 =~= full->Ok_0);
            }
        }
        while pos < end
            invariant
                n == buf@.len(),
                off + 8 <= pos <= end <= n,
                spec_envelope_at(buf@, off as int) == Ok::<(u16, u32, int), DnsError>(
                    (cw, ttlw, rdlen as int),
                ),
                end == off + 8 + rdlen,
                spec_parse_options(buf@, off as int + 8, end as int) == (match spec_parse_options(
                    buf@,
                    pos as int,
                    end as int,
                ) {
                    Ok(r) => Ok::<Seq<(OptCodes, Seq<u8>)>, DnsError>(opts_views(options@) + r),
                    Err(e) => Err(e),
                }),
            decreases end - pos,
        {
            if end - pos < 4 {
                return Err(DnsError::Truncated);
            }
            let code = match OptCodes::get_op_from_code(read_u16(buf, pos)) {
                Ok(c) => c,
                Err(e) => return Err(e),
            };
            let l = read_u16(buf, pos + 2) as usize;
            if l > end - pos - 4 {
                return Err(DnsError::Truncated);
            }
            let mut value: Vec<u8> = Vec::new();
            push_range(&mut value, buf, pos + 4, pos + 4 + l);
            let ghost opts_old = opts_views(options@);
            options.push((code, value));
            proof {
                assert(opts_views(options@) =~= opts_old.push(
                    (code, buf@.subrange(pos as int + 4, pos as int + 4 + l as int)),
                ));
            }
            pos = pos + 4 + l;
            proof {
                let inner = spec_parse_options(buf@, pos as int, end as int);
                if inner is Ok {
                    assert(opts_old + (seq![
                        (code, buf@.subrange(pos as int - l as int, pos as int)),
                    ] + inner->Ok_0) =~= opts_views(options@) + inner->Ok_0);
                }
            }
        }
        proof {
            assert(opts_views(options@) + Seq::<(OptCodes, Seq<u8>)>::empty() =~= opts_views(
                options@,
            ));
        }
        Ok(
            (
                OptRecord {
                    payload_size: cw,
                    ext_rcode: (ttlw / 0x1000000) as u8,
                    edns_version: ((ttlw / 0x10000) % 256) as u8,
                    flags: (ttlw % 0x10000) as u16,
                    options,
                },
                8 + rdlen,
            ),
        )
    }
}

} // verus!
