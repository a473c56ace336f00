//! Resource records: a typed answer entry of a DNS message. The payload
//! is a sum over the record types the codec decodes; adding a record type
//! means one more variant and one more decode and encode case.

use vstd::prelude::*;
use crate::enums::{Class, Type};

verus! {

/// An IPv4 address as its four network-order octets.
#[derive(Debug, Clone, Copy, PartialEq, Eq, Structural)]
pub struct Ipv4Address {
    pub a: u8,
    pub b: u8,
    pub c: u8,
    pub d: u8,
}

impl Ipv4Address {
    pub fn new(a: u8, b: u8, c: u8, d: u8) -> (r: Ipv4Address)
        ensures
            r == (Ipv4Address { a, b, c, d }),
    {
        Ipv4Address { a, b, c, d }
    }
}

/// The typed payload of a resource record.
#[derive(Debug, Clone, Copy, PartialEq, Eq, Structural)]
pub enum RecordPayload {
    /// An address record: an IPv4 address.
    A(Ipv4Address),
}

/// One resource record: name labels, class, time to live and payload. The
/// wire's data length field is validated during decoding and not kept.
#[derive(Debug, PartialEq, Eq)]
pub struct Record {
    pub labels: Vec<Vec<u8>>,
    pub class: Class,
    pub ttl: u32,
    pub payload: RecordPayload,
}

/// The mathematical image of a [`Record`].
#[verifier::ext_equal]
pub struct RecordV {
    pub labels: Seq<Seq<u8>>,
    pub class: Class,
    pub ttl: u32,
    pub payload: RecordPayload,
}

impl View for Record {
    type V = RecordV;

    open spec fn view(&self) -> RecordV {
        RecordV {
            labels: self.labels.deep_view(),
            class: self.class,
            ttl: self.ttl,
            payload: self.payload,
        }
    }
}

impl DeepView for Record {
    type V = RecordV;

    open spec fn deep_view(&self) -> RecordV {
        self.view()
    }
}

impl Record {
    pub fn new(labels: Vec<Vec<u8>>, class: Class, ttl: u32, payload: RecordPayload) -> (r: Record)
        ensures
            r.labels == labels,
            r.class == class,
            r.ttl == ttl,
            r.payload == payload,
    {
        Record { labels, class, ttl, payload }
    }
}

/// The fields every resource record starts with on the wire, before its
/// type-specific payload.
#[derive(Debug, PartialEq, Eq)]
pub struct RecordPreamble {
    pub labels: Vec<Vec<u8>>,
    pub rtype: Type,
    pub class: Class,
    pub ttl: u32,
    pub len: u16,
}

impl RecordPreamble {
    pub fn new(labels: Vec<Vec<u8>>, rtype: Type, class: Class, ttl: u32, len: u16) -> (r:
        RecordPreamble)
        ensures
            r.labels == labels,
            r.rtype == rtype,
            r.class == class,
            r.ttl == ttl,
            r.len == len,
    {
        RecordPreamble { labels, rtype, class, ttl, len }
    }
}

} // verus!
