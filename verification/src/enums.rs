//! The small protocol enumerations carried in a DNS message: the
//! query/response bit, the operation code, the response code, and the
//! question and record type/class numbers, each with its wire value.

use vstd::prelude::*;

verus! {

/// The query/response bit of the header: a query or a response.
#[derive(Debug, Clone, Copy, PartialEq, Eq, Structural)]
pub enum QR {
    QUERY,
    RESPONSE,
}

impl QR {
    /// The wire value of the bit.
    pub open spec fn spec_value(self) -> u8 {
        match self {
            QR::QUERY => 0,
            QR::RESPONSE => 1,
        }
    }

    pub fn value(self) -> (v: u8)
        ensures
            v == self.spec_value(),
    {
        match self {
            QR::QUERY => 0,
            QR::RESPONSE => 1,
        }
    }
}

/// The four-bit operation code of the header.
#[derive(Debug, Clone, Copy, PartialEq, Eq, Structural)]
pub enum OPCODE {
    QUERY,
    IQUERY,
    STATUS,
}

impl OPCODE {
    /// The wire value of the code.
    pub open spec fn spec_value(self) -> u8 {
        match self {
            OPCODE::QUERY => 0,
            OPCODE::IQUERY => 1,
            OPCODE::STATUS => 2,
        }
    }

    pub fn value(self) -> (v: u8)
        ensures
            v == self.spec_value(),
    {
        match self {
            OPCODE::QUERY => 0,
            OPCODE::IQUERY => 1,
            OPCODE::STATUS => 2,
        }
    }

    /// The code a wire value stands for, if any.
    pub open spec fn spec_from_u8(v: u8) -> Option<OPCODE> {
        if v == 0 {
            Some(OPCODE::QUERY)
        } else if v == 1 {
            Some(OPCODE::IQUERY)
        } else if v == 2 {
            Some(OPCODE::STATUS)
        } else {
            None
        }
    }

    pub fn from_u8(v: u8) -> (r: Option<OPCODE>)
        ensures
            r == Self::spec_from_u8(v),
    {
        if v == 0 {
            Some(OPCODE::QUERY)
        } else if v == 1 {
            Some(OPCODE::IQUERY)
        } else if v == 2 {
            Some(OPCODE::STATUS)
        } else {
            None
        }
    }
}

/// The four-bit response code of the header.
#[derive(Debug, Clone, Copy, PartialEq, Eq, Structural)]
pub enum RCODE {
    NoError,
    FormatError,
    ServerFailure,
    NameError,
    NotImplemented,
    Refused,
}

impl RCODE {
    /// The wire value of the code.
    pub open spec fn spec_value(self) -> u8 {
        match self {
            RCODE::NoError => 0,
            RCODE::FormatError => 1,
            RCODE::ServerFailure => 2,
            RCODE::NameError => 3,
            RCODE::NotImplemented => 4,
            RCODE::Refused => 5,
        }
    }

    pub fn value(self) -> (v: u8)
        ensures
            v == self.spec_value(),
    {
        match self {
            RCODE::NoError => 0,
            RCODE::FormatError => 1,
            RCODE::ServerFailure => 2,
            RCODE::NameError => 3,
            RCODE::NotImplemented => 4,
            RCODE::Refused => 5,
        }
    }

    /// The code a wire value stands for, if any.
    pub open spec fn spec_from_u8(v: u8) -> Option<RCODE> {
        if v == 0 {
            Some(RCODE::NoError)
        } else if v == 1 {
            Some(RCODE::FormatError)
        } else if v == 2 {
            Some(RCODE::ServerFailure)
        } else if v == 3 {
            Some(RCODE::NameError)
        } else if v == 4 {
            Some(RCODE::NotImplemented)
        } else if v == 5 {
            Some(RCODE::Refused)
        } else {
            None
        }
    }

    pub fn from_u8(v: u8) -> (r: Option<RCODE>)
        ensures
            r == Self::spec_from_u8(v),
    {
        if v == 0 {
            Some(RCODE::NoError)
        } else if v == 1 {
            Some(RCODE::FormatError)
        } else if v == 2 {
            Some(RCODE::ServerFailure)
        } else if v == 3 {
            Some(RCODE::NameError)
        } else if v == 4 {
            Some(RCODE::NotImplemented)
        } else if v == 5 {
            Some(RCODE::Refused)
        } else {
            None
        }
    }
}

/// The type number of a question.
#[derive(Debug, Clone, Copy, PartialEq, Eq, Structural)]
pub enum Qtype {
    A,
    NS,
    MD,
    MF,
    CNAME,
    SOA,
    MB,
    MG,
    MR,
    NULL,
    WKS,
    PTR,
    HINFO,
    MINFO,
    MX,
    TXT,
    AXFR,
    MAILB,
    MAILA,
    Wildcard,
}

impl Qtype {
    /// The wire value of the type number.
    pub open spec fn spec_value(self) -> u16 {
        match self {
            Qtype::A => 1,
            Qtype::NS => 2,
            Qtype::MD => 3,
            Qtype::MF => 4,
            Qtype::CNAME => 5,
            Qtype::SOA => 6,
            Qtype::MB => 7,
            Qtype::MG => 8,
            Qtype::MR => 9,
            Qtype::NULL => 10,
            Qtype::WKS => 11,
            Qtype::PTR => 12,
            Qtype::HINFO => 13,
            Qtype::MINFO => 14,
            Qtype::MX => 15,
            Qtype::TXT => 16,
            Qtype::AXFR => 252,
            Qtype::MAILB => 253,
            Qtype::MAILA => 254,
            Qtype::Wildcard => 255,
        }
    }

    pub fn value(self) -> (v: u16)
        ensures
            v == self.spec_value(),
    {
        match self {
            Qtype::A => 1,
            Qtype::NS => 2,
            Qtype::MD => 3,
            Qtype::MF => 4,
            Qtype::CNAME => 5,
            Qtype::SOA => 6,
            Qtype::MB => 7,
            Qtype::MG => 8,
            Qtype::MR => 9,
            Qtype::NULL => 10,
            Qtype::WKS => 11,
            Qtype::PTR => 12,
            Qtype::HINFO => 13,
            Qtype::MINFO => 14,
            Qtype::MX => 15,
            Qtype::TXT => 16,
            Qtype::AXFR => 252,
            Qtype::MAILB => 253,
            Qtype::MAILA => 254,
            Qtype::Wildcard => 255,
        }
    }

    /// The type number a wire value stands for, if any.
    pub open spec fn spec_from_u16(v: u16) -> Option<Qtype> {
        if v == 1 {
            Some(Qtype::A)
        } else if v == 2 {
            Some(Qtype::NS)
        } else if v == 3 {
            Some(Qtype::MD)
        } else if v == 4 {
            Some(Qtype::MF)
        } else if v == 5 {
            Some(Qtype::CNAME)
        } else if v == 6 {
            Some(Qtype::SOA)
        } else if v == 7 {
            Some(Qtype::MB)
        } else if v == 8 {
            Some(Qtype::MG)
        } else if v == 9 {
            Some(Qtype::MR)
        } else if v == 10 {
            Some(Qtype::NULL)
        } else if v == 11 {
            Some(Qtype::WKS)
        } else if v == 12 {
            Some(Qtype::PTR)
        } else if v == 13 {
            Some(Qtype::HINFO)
        } else if v == 14 {
            Some(Qtype::MINFO)
        } else if v == 15 {
            Some(Qtype::MX)
        } else if v == 16 {
            Some(Qtype::TXT)
        } else if v == 252 {
            Some(Qtype::AXFR)
        } else if v == 253 {
            Some(Qtype::MAILB)
        } else if v == 254 {
            Some(Qtype::MAILA)
        } else if v == 255 {
            Some(Qtype::Wildcard)
        } else {
            None
        }
    }

    pub fn from_u16(v: u16) -> (r: Option<Qtype>)
        ensures
            r == Self::spec_from_u16(v),
    {
        if v == 1 {
            Some(Qtype::A)
        } else if v == 2 {
            Some(Qtype::NS)
        } else if v == 3 {
            Some(Qtype::MD)
        } else if v == 4 {
            Some(Qtype::MF)
        } else if v == 5 {
            Some(Qtype::CNAME)
        } else if v == 6 {
            Some(Qtype::SOA)
        } else if v == 7 {
            Some(Qtype::MB)
        } else if v == 8 {
            Some(Qtype::MG)
        } else if v == 9 {
            Some(Qtype::MR)
        } else if v == 10 {
            Some(Qtype::NULL)
        } else if v == 11 {
            Some(Qtype::WKS)
        } else if v == 12 {
            Some(Qtype::PTR)
        } else if v == 13 {
            Some(Qtype::HINFO)
        } else if v == 14 {
            Some(Qtype::MINFO)
        } else if v == 15 {
            Some(Qtype::MX)
        } else if v == 16 {
            Some(Qtype::TXT)
        } else if v == 252 {
            Some(Qtype::AXFR)
        } else if v == 253 {
            Some(Qtype::MAILB)
        } else if v == 254 {
            Some(Qtype::MAILA)
        } else if v == 255 {
            Some(Qtype::Wildcard)
        } else {
            None
        }
    }
}

/// The class number of a question.
#[derive(Debug, Clone, Copy, PartialEq, Eq, Structural)]
pub enum Qclass {
    IN,
    CS,
    CH,
    HS,
    Wildcard,
}

impl Qclass {
    /// The wire value of the class number.
    pub open spec fn spec_value(self) -> u16 {
        match self {
            Qclass::IN => 1,
            Qclass::CS => 2,
            Qclass::CH => 3,
            Qclass::HS => 4,
            Qclass::Wildcard => 255,
        }
    }

    pub fn value(self) -> (v: u16)
        ensures
            v == self.spec_value(),
    {
        match self {
            Qclass::IN => 1,
            Qclass::CS => 2,
            Qclass::CH => 3,
            Qclass::HS => 4,
            Qclass::Wildcard => 255,
        }
    }

    /// The class number a wire value stands for, if any.
    pub open spec fn spec_from_u16(v: u16) -> Option<Qclass> {
        if v == 1 {
            Some(Qclass::IN)
        } else if v == 2 {
            Some(Qclass::CS)
        } else if v == 3 {
            Some(Qclass::CH)
        } else if v == 4 {
            Some(Qclass::HS)
        } else if v == 255 {
            Some(Qclass::Wildcard)
        } else {
            None
        }
    }

    pub fn from_u16(v: u16) -> (r: Option<Qclass>)
        ensures
            r == Self::spec_from_u16(v),
    {
        if v == 1 {
            Some(Qclass::IN)
        } else if v == 2 {
            Some(Qclass::CS)
        } else if v == 3 {
            Some(Qclass::CH)
        } else if v == 4 {
            Some(Qclass::HS)
        } else if v == 255 {
            Some(Qclass::Wildcard)
        } else {
            None
        }
    }
}

/// The type number of a resource record.
#[derive(Debug, Clone, Copy, PartialEq, Eq, Structural)]
pub enum Type {
    A,
    NS,
    MD,
    MF,
    CNAME,
    SOA,
    MB,
    MG,
    MR,
    NULL,
    WKS,
    PTR,
    HINFO,
    MINFO,
    MX,
    TXT,
}

impl Type {
    /// The wire value of the record type.
    pub open spec fn spec_value(self) -> u16 {
        match self {
            Type::A => 1,
            Type::NS => 2,
            Type::MD => 3,
            Type::MF => 4,
            Type::CNAME => 5,
            Type::SOA => 6,
            Type::MB => 7,
            Type::MG => 8,
            Type::MR => 9,
            Type::NULL => 10,
            Type::WKS => 11,
            Type::PTR => 12,
            Type::HINFO => 13,
            Type::MINFO => 14,
            Type::MX => 15,
            Type::TXT => 16,
        }
    }

    pub fn value(self) -> (v: u16)
        ensures
            v == self.spec_value(),
    {
        match self {
            Type::A => 1,
            Type::NS => 2,
            Type::MD => 3,
            Type::MF => 4,
            Type::CNAME => 5,
            Type::SOA => 6,
            Type::MB => 7,
            Type::MG => 8,
            Type::MR => 9,
            Type::NULL => 10,
            Type::WKS => 11,
            Type::PTR => 12,
            Type::HINFO => 13,
            Type::MINFO => 14,
            Type::MX => 15,
            Type::TXT => 16,
        }
    }

    /// The record type a wire value stands for, if any.
    pub open spec fn spec_from_u16(v: u16) -> Option<Type> {
        if v == 1 {
            Some(Type::A)
        } else if v == 2 {
            Some(Type::NS)
        } else if v == 3 {
            Some(Type::MD)
        } else if v == 4 {
            Some(Type::MF)
        } else if v == 5 {
            Some(Type::CNAME)
        } else if v == 6 {
            Some(Type::SOA)
        } else if v == 7 {
            Some(Type::MB)
        } else if v == 8 {
            Some(Type::MG)
        } else if v == 9 {
            Some(Type::MR)
        } else if v == 10 {
            Some(Type::NULL)
        } else if v == 11 {
            Some(Type::WKS)
        } else if v == 12 {
            Some(Type::PTR)
        } else if v == 13 {
            Some(Type::HINFO)
        } else if v == 14 {
            Some(Type::MINFO)
        } else if v == 15 {
            Some(Type::MX)
        } else if v == 16 {
            Some(Type::TXT)
        } else {
            None
        }
    }

    pub fn from_u16(v: u16) -> (r: Option<Type>)
        ensures
            r == Self::spec_from_u16(v),
    {
        if v == 1 {
            Some(Type::A)
        } else if v == 2 {
            Some(Type::NS)
        } else if v == 3 {
            Some(Type::MD)
        } else if v == 4 {
            Some(Type::MF)
        } else if v == 5 {
            Some(Type::CNAME)
        } else if v == 6 {
            Some(Type::SOA)
        } else if v == 7 {
            Some(Type::MB)
        } else if v == 8 {
            Some(Type::MG)
        } else if v == 9 {
            Some(Type::MR)
        } else if v == 10 {
            Some(Type::NULL)
        } else if v == 11 {
            Some(Type::WKS)
        } else if v == 12 {
            Some(Type::PTR)
        } else if v == 13 {
            Some(Type::HINFO)
        } else if v == 14 {
            Some(Type::MINFO)
        } else if v == 15 {
            Some(Type::MX)
        } else if v == 16 {
            Some(Type::TXT)
        } else {
            None
        }
    }
}

/// The class number of a resource record.
#[derive(Debug, Clone, Copy, PartialEq, Eq, Structural)]
pub enum Class {
    IN,
    CS,
    CH,
    HS,
    Wildcard,
}

impl Class {
    /// The wire value of the record class.
    pub open spec fn spec_value(self) -> u16 {
        match self {
            Class::IN => 1,
            Class::CS => 2,
            Class::CH => 3,
            Class::HS => 4,
            Class::Wildcard => 255,
        }
    }

    pub fn value(self) -> (v: u16)
        ensures
            v == self.spec_value(),
    {
        match self {
            Class::IN => 1,
            Class::CS => 2,
            Class::CH => 3,
            Class::HS => 4,
            Class::Wildcard => 255,
        }
    }

    /// The record class a wire value stands for, if any.
    pub open spec fn spec_from_u16(v: u16) -> Option<Class> {
        if v == 1 {
            Some(Class::IN)
        } else if v == 2 {
            Some(Class::CS)
        } else if v == 3 {
            Some(Class::CH)
        } else if v == 4 {
            Some(Class::HS)
        } else if v == 255 {
            Some(Class::Wildcard)
        } else {
            None
        }
    }

    pub fn from_u16(v: u16) -> (r: Option<Class>)
        ensures
            r == Self::spec_from_u16(v),
    {
        if v == 1 {
            Some(Class::IN)
        } else if v == 2 {
            Some(Class::CS)
        } else if v == 3 {
            Some(Class::CH)
        } else if v == 4 {
            Some(Class::HS)
        } else if v == 255 {
            Some(Class::Wildcard)
        } else {
            None
        }
    }
}

/// The wire value of each enumeration maps back to it.
pub proof fn lemma_opcode_value_round_trip(v: OPCODE)
    ensures
        OPCODE::spec_from_u8(v.spec_value()) == Some(v),
{
}

/// The wire value of each enumeration maps back to it.
pub proof fn lemma_rcode_value_round_trip(v: RCODE)
    ensures
        RCODE::spec_from_u8(v.spec_value()) == Some(v),
{
}

/// The wire value of each enumeration maps back to it.
pub proof fn lemma_qtype_value_round_trip(v: Qtype)
    ensures
        Qtype::spec_from_u16(v.spec_value()) == Some(v),
{
}

/// The wire value of each enumeration maps back to it.
pub proof fn lemma_qclass_value_round_trip(v: Qclass)
    ensures
        Qclass::spec_from_u16(v.spec_value()) == Some(v),
{
}

} // verus!
