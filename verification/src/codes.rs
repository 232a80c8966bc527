//! The closed numeric code tables of the header and of records: record
//! types, classes, opcodes, response statuses and OPT option codes.
//!
//! Each enumeration is closed: a numeric value outside its table is a
//! decode error (`UnknownCode`), never a silent default.

use vstd::prelude::*;

use crate::errors::DnsError;

verus! {

/// A DNS record type code (the 16-bit TYPE field).
#[derive(Clone, Copy, Debug, PartialEq, Eq, Structural)]
pub enum Types {
    A,
    Aaaa,
    Ns,
    Cname,
    Soa,
    Ptr,
    Mx,
    Txt,
    Srv,
    Opt,
    Rrsig,
    Nsec,
    DnsKey,
    Https,
    Spf,
    Tsig,
    Caa,
}

impl Types {
    /// The wire code of each type.
    pub open spec fn spec_code(self) -> u16 {
        match self {
            Types::A => 1,
            Types::Ns => 2,
            Types::Cname => 5,
            Types::Soa => 6,
            Types::Ptr => 12,
            Types::Mx => 15,
            Types::Txt => 16,
            Types::Aaaa => 28,
            Types::Srv => 33,
            Types::Opt => 41,
            Types::Rrsig => 46,
            Types::Nsec => 47,
            Types::DnsKey => 48,
            Types::Https => 65,
            Types::Spf => 99,
            Types::Tsig => 250,
            Types::Caa => 257,
        }
    }

    /// The reverse lookup: which type, if any, a wire code denotes.
    pub open spec fn spec_from_code(code: u16) -> Result<Types, DnsError> {
        if code == 1 {
            Ok(Types::A)
        } else if code == 2 {
            Ok(Types::Ns)
        } else if code == 5 {
            Ok(Types::Cname)
        } else if code == 6 {
            Ok(Types::Soa)
        } else if code == 12 {
            Ok(Types::Ptr)
        } else if code == 15 {
            Ok(Types::Mx)
        } else if code == 16 {
            Ok(Types::Txt)
        } else if code == 28 {
            Ok(Types::Aaaa)
        } else if code == 33 {
            Ok(Types::Srv)
        } else if code == 41 {
            Ok(Types::Opt)
        } else if code == 46 {
            Ok(Types::Rrsig)
        } else if code == 47 {
            Ok(Types::Nsec)
        } else if code == 48 {
            Ok(Types::DnsKey)
        } else if code == 65 {
            Ok(Types::Https)
        } else if code == 99 {
            Ok(Types::Spf)
        } else if code == 250 {
            Ok(Types::Tsig)
        } else if code == 257 {
            Ok(Types::Caa)
        } else {
            Err(DnsError::UnknownCode)
        }
    }

    pub fn get_code(&self) -> (r: u16)
        ensures
            r == self.spec_code(),
    {
        match self {
            Types::A => 1,
            Types::Ns => 2,
            Types::Cname => 5,
            Types::Soa => 6,
            Types::Ptr => 12,
            Types::Mx => 15,
            Types::Txt => 16,
            Types::Aaaa => 28,
            Types::Srv => 33,
            Types::Opt => 41,
            Types::Rrsig => 46,
            Types::Nsec => 47,
            Types::DnsKey => 48,
            Types::Https => 65,
            Types::Spf => 99,
            Types::Tsig => 250,
            Types::Caa => 257,
        }
    }

    pub fn get_type_from_code(code: u16) -> (r: Result<Types, DnsError>)
        ensures
            r == Types::spec_from_code(code),
    {
        if code == 1 {
            Ok(Types::A)
        } else if code == 2 {
            Ok(Types::Ns)
        } else if code == 5 {
            Ok(Types::Cname)
        } else if code == 6 {
            Ok(Types::Soa)
        } else if code == 12 {
            Ok(Types::Ptr)
        } else if code == 15 {
            Ok(Types::Mx)
        } else if code == 16 {
            Ok(Types::Txt)
        } else if code == 28 {
            Ok(Types::Aaaa)
        } else if code == 33 {
            Ok(Types::Srv)
        } else if code == 41 {
            Ok(Types::Opt)
        } else if code == 46 {
            Ok(Types::Rrsig)
        } else if code == 47 {
            Ok(Types::Nsec)
        } else if code == 48 {
            Ok(Types::DnsKey)
        } else if code == 65 {
            Ok(Types::Https)
        } else if code == 99 {
            Ok(Types::Spf)
        } else if code == 250 {
            Ok(Types::Tsig)
        } else if code == 257 {
            Ok(Types::Caa)
        } else {
            Err(DnsError::UnknownCode)
        }
    }
}

/// Looking a type's own code back up finds that type.
pub proof fn lemma_type_code_round_trip(t: Types)
    ensures
        Types::spec_from_code(t.spec_code()) == Ok::<Types, DnsError>(t),
{
}

/// A DNS class code (the 16-bit CLASS field, flush bit already masked off).
#[derive(Clone, Copy, Debug, PartialEq, Eq, Structural)]
pub enum DnsClasses {
    In,
    Cs,
    Ch,
    Hs,
}

impl DnsClasses {
    pub open spec fn spec_code(self) -> u16 {
        match self {
            DnsClasses::In => 1,
            DnsClasses::Cs => 2,
            DnsClasses::Ch => 3,
            DnsClasses::Hs => 4,
        }
    }

    pub open spec fn spec_from_code(code: u16) -> Result<DnsClasses, DnsError> {
        if code == 1 {
            Ok(DnsClasses::In)
        } else if code == 2 {
            Ok(DnsClasses::Cs)
        } else if code == 3 {
            Ok(DnsClasses::Ch)
        } else if code == 4 {
            Ok(DnsClasses::Hs)
        } else {
            Err(DnsError::UnknownCode)
        }
    }

    pub fn get_code(&self) -> (r: u16)
        ensures
            r == self.spec_code(),
    {
        match self {
            DnsClasses::In => 1,
            DnsClasses::Cs => 2,
            DnsClasses::Ch => 3,
            DnsClasses::Hs => 4,
        }
    }

    pub fn get_class_from_code(code: u16) -> (r: Result<DnsClasses, DnsError>)
        ensures
            r == DnsClasses::spec_from_code(code),
    {
        if code == 1 {
            Ok(DnsClasses::In)
        } else if code == 2 {
            Ok(DnsClasses::Cs)
        } else if code == 3 {
            Ok(DnsClasses::Ch)
        } else if code == 4 {
            Ok(DnsClasses::Hs)
        } else {
            Err(DnsError::UnknownCode)
        }
    }
}

/// Looking a class's own code back up finds that class.
pub proof fn lemma_class_code_round_trip(c: DnsClasses)
    ensures
        DnsClasses::spec_from_code(c.spec_code()) == Ok::<DnsClasses, DnsError>(c),
{
}

/// A header opcode (4-bit field describing the message intent).
#[derive(Clone, Copy, Debug, PartialEq, Eq, Structural)]
pub enum OpCodes {
    Query,
    IQuery,
    Status,
}

impl OpCodes {
    pub open spec fn spec_code(self) -> u8 {
        match self {
            OpCodes::Query => 0,
            OpCodes::IQuery => 1,
            OpCodes::Status => 2,
        }
    }

    pub open spec fn spec_from_code(code: u8) -> Result<OpCodes, DnsError> {
        if code == 0 {
            Ok(OpCodes::Query)
        } else if code == 1 {
            Ok(OpCodes::IQuery)
        } else if code == 2 {
            Ok(OpCodes::Status)
        } else {
            Err(DnsError::UnknownCode)
        }
    }

    pub fn get_code(&self) -> (r: u8)
        ensures
            r == self.spec_code(),
    {
        match self {
            OpCodes::Query => 0,
            OpCodes::IQuery => 1,
            OpCodes::Status => 2,
        }
    }

    pub fn from_code(code: u8) -> (r: Result<OpCodes, DnsError>)
        ensures
            r == OpCodes::spec_from_code(code),
    {
        if code == 0 {
            Ok(OpCodes::Query)
        } else if code == 1 {
            Ok(OpCodes::IQuery)
        } else if code == 2 {
            Ok(OpCodes::Status)
        } else {
            Err(DnsError::UnknownCode)
        }
    }
}

/// Looking an opcode's own code back up finds that opcode.
pub proof fn lemma_op_code_round_trip(o: OpCodes)
    ensures
        OpCodes::spec_from_code(o.spec_code()) == Ok::<OpCodes, DnsError>(o),
{
}

/// A header response status (4-bit RCODE field describing the outcome).
#[derive(Clone, Copy, Debug, PartialEq, Eq, Structural)]
pub enum ResponseCodes {
    NoError,
    FormatError,
    ServerFailure,
    NameError,
    NotImplemented,
    Refused,
}

impl ResponseCodes {
    pub open spec fn spec_code(self) -> u8 {
        match self {
            ResponseCodes::NoError => 0,
            ResponseCodes::FormatError => 1,
            ResponseCodes::ServerFailure => 2,
            ResponseCodes::NameError => 3,
            ResponseCodes::NotImplemented => 4,
            ResponseCodes::Refused => 5,
        }
    }

    pub open spec fn spec_from_code(code: u8) -> Result<ResponseCodes, DnsError> {
        if code == 0 {
            Ok(ResponseCodes::NoError)
        } else if code == 1 {
            Ok(ResponseCodes::FormatError)
        } else if code == 2 {
            Ok(ResponseCodes::ServerFailure)
        } else if code == 3 {
            Ok(ResponseCodes::NameError)
        } else if code == 4 {
            Ok(ResponseCodes::NotImplemented)
        } else if code == 5 {
            Ok(ResponseCodes::Refused)
        } else {
            Err(DnsError::UnknownCode)
        }
    }

    pub fn get_code(&self) -> (r: u8)
        ensures
            r == self.spec_code(),
    {
        match self {
            ResponseCodes::NoError => 0,
            ResponseCodes::FormatError => 1,
            ResponseCodes::ServerFailure => 2,
            ResponseCodes::NameError => 3,
            ResponseCodes::NotImplemented => 4,
            ResponseCodes::Refused => 5,
        }
    }

    pub fn get_response_code_from_code(code: u8) -> (r: Result<ResponseCodes, DnsError>)
        ensures
            r == ResponseCodes::spec_from_code(code),
    {
        if code == 0 {
            Ok(ResponseCodes::NoError)
        } else if code == 1 {
            Ok(ResponseCodes::FormatError)
        } else if code == 2 {
            Ok(ResponseCodes::ServerFailure)
        } else if code == 3 {
            Ok(ResponseCodes::NameError)
        } else if code == 4 {
            Ok(ResponseCodes::NotImplemented)
        } else if code == 5 {
            Ok(ResponseCodes::Refused)
        } else {
            Err(DnsError::UnknownCode)
        }
    }
}

/// Looking a status's own code back up finds that status.
pub proof fn lemma_response_code_round_trip(c: ResponseCodes)
    ensures
        ResponseCodes::spec_from_code(c.spec_code()) == Ok::<ResponseCodes, DnsError>(c),
{
}

/// An OPT pseudo-record option code.
#[derive(Clone, Copy, Debug, PartialEq, Eq, Structural)]
pub enum OptCodes {
    Llq,
    Ul,
    Nsid,
    Dau,
    Dhu,
    N3u,
    Ecs,
    Expire,
    Cookie,
    TcpKeepalive,
    Padding,
    Chain,
    KeyTag,
    EdnsError,
    DnsSecTrustedKey,
    DnsSecValidated,
    AdaptiveDnsDiscovery,
    DoH,
    MultiUserClientSubnet,
}

impl OptCodes {
    pub open spec fn spec_code(self) -> u16 {
        match self {
            OptCodes::Llq => 1,
            OptCodes::Ul => 2,
            OptCodes::Nsid => 3,
            OptCodes::Dau => 5,
            OptCodes::Dhu => 6,
            OptCodes::N3u => 7,
            OptCodes::Ecs => 8,
            OptCodes::Expire => 9,
            OptCodes::Cookie => 10,
            OptCodes::TcpKeepalive => 11,
            OptCodes::Padding => 12,
            OptCodes::Chain => 13,
            OptCodes::KeyTag => 14,
            OptCodes::EdnsError => 15,
            OptCodes::DnsSecTrustedKey => 17,
            OptCodes::DnsSecValidated => 18,
            OptCodes::AdaptiveDnsDiscovery => 19,
            OptCodes::DoH => 20,
            OptCodes::MultiUserClientSubnet => 21,
        }
    }

    pub open spec fn spec_from_code(code: u16) -> Result<OptCodes, DnsError> {
        if code == 1 {
            Ok(OptCodes::Llq)
        } else if code == 2 {
            Ok(OptCodes::Ul)
        } else if code == 3 {
            Ok(OptCodes::Nsid)
        } else if code == 5 {
            Ok(OptCodes::Dau)
        } else if code == 6 {
            Ok(OptCodes::Dhu)
        } else if code == 7 {
            Ok(OptCodes::N3u)
        } else if code == 8 {
            Ok(OptCodes::Ecs)
        } else if code == 9 {
            Ok(OptCodes::Expire)
        } else if code == 10 {
            Ok(OptCodes::Cookie)
        } else if code == 11 {
            Ok(OptCodes::TcpKeepalive)
        } else if code == 12 {
            Ok(OptCodes::Padding)
        } else if code == 13 {
            Ok(OptCodes::Chain)
        } else if code == 14 {
            Ok(OptCodes::KeyTag)
        } else if code == 15 {
            Ok(OptCodes::EdnsError)
        } else if code == 17 {
            Ok(OptCodes::DnsSecTrustedKey)
        } else if code == 18 {
            Ok(OptCodes::DnsSecValidated)
        } else if code == 19 {
            Ok(OptCodes::AdaptiveDnsDiscovery)
        } else if code == 20 {
            Ok(OptCodes::DoH)
        } else if code == 21 {
            Ok(OptCodes::MultiUserClientSubnet)
        } else {
            Err(DnsError::UnknownCode)
        }
    }

    pub fn get_code(&self) -> (r: u16)
        ensures
            r == self.spec_code(),
    {
        match self {
            OptCodes::Llq => 1,
            OptCodes::Ul => 2,
            OptCodes::Nsid => 3,
            OptCodes::Dau => 5,
            OptCodes::Dhu => 6,
            OptCodes::N3u => 7,
            OptCodes::Ecs => 8,
            OptCodes::Expire => 9,
            OptCodes::Cookie => 10,
            OptCodes::TcpKeepalive => 11,
            OptCodes::Padding => 12,
            OptCodes::Chain => 13,
            OptCodes::KeyTag => 14,
            OptCodes::EdnsError => 15,
            OptCodes::DnsSecTrustedKey => 17,
            OptCodes::DnsSecValidated => 18,
            OptCodes::AdaptiveDnsDiscovery => 19,
            OptCodes::DoH => 20,
            OptCodes::MultiUserClientSubnet => 21,
        }
    }

    pub fn get_op_from_code(code: u16) -> (r: Result<OptCodes, DnsError>)
        ensures
            r == OptCodes::spec_from_code(code),
    {
        if code == 1 {
            Ok(OptCodes::Llq)
        } else if code == 2 {
            Ok(OptCodes::Ul)
        } else if code == 3 {
            Ok(OptCodes::Nsid)
        } else if code == 5 {
            Ok(OptCodes::Dau)
        } else if code == 6 {
            Ok(OptCodes::Dhu)
        } else if code == 7 {
            Ok(OptCodes::N3u)
        } else if code == 8 {
            Ok(OptCodes::Ecs)
        } else if code == 9 {
            Ok(OptCodes::Expire)
        } else if code == 10 {
            Ok(OptCodes::Cookie)
        } else if code == 11 {
            Ok(OptCodes::TcpKeepalive)
        } else if code == 12 {
            Ok(OptCodes::Padding)
        } else if code == 13 {
            Ok(OptCodes::Chain)
        } else if code == 14 {
            Ok(OptCodes::KeyTag)
        } else if code == 15 {
            Ok(OptCodes::EdnsError)
        } else if code == 17 {
            Ok(OptCodes::DnsSecTrustedKey)
        } else if code == 18 {
            Ok(OptCodes::DnsSecValidated)
        } else if code == 19 {
            Ok(OptCodes::AdaptiveDnsDiscovery)
        } else if code == 20 {
            Ok(OptCodes::DoH)
        } else if code == 21 {
            Ok(OptCodes::MultiUserClientSubnet)
        } else {
            Err(DnsError::UnknownCode)
        }
    }
}

/// Looking an option code's own value back up finds that option code.
pub proof fn lemma_opt_code_round_trip(c: OptCodes)
    ensures
        OptCodes::spec_from_code(c.spec_code()) == Ok::<OptCodes, DnsError>(c),
{
}

} // verus!
