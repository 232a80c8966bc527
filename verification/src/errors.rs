//! The closed set of error kinds the codec can report.

use vstd::prelude::*;

verus! {

/// Everything that can go wrong while encoding or decoding a message.
///
/// Decoding errors: `Truncated` (the buffer is shorter than a field
/// requires), `UnknownCode` (an opcode, response status, type, class or
/// option code outside the closed tables), `CompressionLoop` (a name
/// pointer chain revisits an offset), `UnsupportedRecordType` (a known type
/// code with no decoder).  Encoding errors: `LabelTooLong` (a name label of
/// more than 63 bytes), `CountOverflow` (a section too large for its 16-bit
/// count field).
#[derive(Clone, Copy, Debug, PartialEq, Eq, Structural)]
pub enum DnsError {
    Truncated,
    UnknownCode,
    LabelTooLong,
    CompressionLoop,
    CountOverflow,
    UnsupportedRecordType,
}

impl DnsError {
    /// A short human-readable description of the error.
    pub fn message(&self) -> (r: &'static str)
        ensures
            r@.len() > 0,
    {
        let r = match self {
            DnsError::Truncated => "buffer too short for a required field",
            DnsError::UnknownCode => "numeric code outside the defined table",
            DnsError::LabelTooLong => "name label longer than 63 bytes",
            DnsError::CompressionLoop => "compression pointer chain revisits an offset",
            DnsError::CountOverflow => "section count does not fit in 16 bits",
            DnsError::UnsupportedRecordType => "no decoder registered for this record type",
        };
        proof {
            reveal_strlit("buffer too short for a required field");
            reveal_strlit("numeric code outside the defined table");
            reveal_strlit("name label longer than 63 bytes");
            reveal_strlit("compression pointer chain revisits an offset");
            reveal_strlit("section count does not fit in 16 bits");
            reveal_strlit("no decoder registered for this record type");
        }
        r
    }
}

} // verus!
