//! The parsed form of one DNS datagram: the header fields, the questions
//! and the answers. A value is produced once by `parse` and never mutated
//! afterwards; the section lengths always equal the header counts the
//! datagram carried.

use vstd::prelude::*;
use crate::enums::{OPCODE, QR, RCODE};
use crate::question::{Question, QuestionV};
use crate::records::{Record, RecordV};

verus! {

/// One parsed DNS message.
#[derive(Debug, PartialEq, Eq)]
pub struct DnsRecord {
    id: u16,
    qr: QR,
    opcode: OPCODE,
    aa: bool,
    tc: bool,
    rd: bool,
    ra: bool,
    dnssec: u8,
    rcode: RCODE,
    questions: Vec<Question>,
    answers: Vec<Record>,
}

/// The mathematical image of a [`DnsRecord`].
#[verifier::ext_equal]
pub struct DnsRecordV {
    pub id: u16,
    pub qr: QR,
    pub opcode: OPCODE,
    pub aa: bool,
    pub tc: bool,
    pub rd: bool,
    pub ra: bool,
    pub dnssec: u8,
    pub rcode: RCODE,
    pub questions: Seq<QuestionV>,
    pub answers: Seq<RecordV>,
}

impl View for DnsRecord {
    type V = DnsRecordV;

    closed spec fn view(&self) -> DnsRecordV {
        DnsRecordV {
            id: self.id,
            qr: self.qr,
            opcode: self.opcode,
            aa: self.aa,
            tc: self.tc,
            rd: self.rd,
            ra: self.ra,
            dnssec: self.dnssec,
            rcode: self.rcode,
            questions: self.questions.deep_view(),
            answers: self.answers.deep_view(),
        }
    }
}

impl DnsRecord {
    #[allow(clippy::too_many_arguments)]
    pub fn new(
        id: u16,
        qr: QR,
        opcode: OPCODE,
        aa: bool,
        tc: bool,
        rd: bool,
        ra: bool,
        dnssec: u8,
        rcode: RCODE,
        questions: Vec<Question>,
        answers: Vec<Record>,
    ) -> (r: DnsRecord)
        ensures
            r@ == (DnsRecordV {
                id,
                qr,
                opcode,
                aa,
                tc,
                rd,
                ra,
                dnssec,
                rcode,
                questions: questions.deep_view(),
                answers: answers.deep_view(),
            }),
    {
        DnsRecord { id, qr, opcode, aa, tc, rd, ra, dnssec, rcode, questions, answers }
    }

    pub fn id(&self) -> (r: u16)
        ensures
            r == self@.id,
    {
        self.id
    }

    pub fn qr(&self) -> (r: QR)
        ensures
            r == self@.qr,
    {
        self.qr
    }

    pub fn opcode(&self) -> (r: OPCODE)
        ensures
            r == self@.opcode,
    {
        self.opcode
    }

    pub fn aa(&self) -> (r: bool)
        ensures
            r == self@.aa,
    {
        self.aa
    }

    pub fn tc(&self) -> (r: bool)
        ensures
            r == self@.tc,
    {
        self.tc
    }

    pub fn rd(&self) -> (r: bool)
        ensures
            r == self@.rd,
    {
        self.rd
    }

    pub fn ra(&self) -> (r: bool)
        ensures
            r == self@.ra,
    {
        self.ra
    }

    /// The three reserved bits of the header, right-aligned.
    pub fn dnssec(&self) -> (r: u8)
        ensures
            r == self@.dnssec,
    {
        self.dnssec
    }

    pub fn rcode(&self) -> (r: RCODE)
        ensures
            r == self@.rcode,
    {
        self.rcode
    }

    pub fn questions(&self) -> (r: &Vec<Question>)
        ensures
            r.deep_view() == self@.questions,
    {
        &self.questions
    }

    pub fn answers(&self) -> (r: &Vec<Record>)
        ensures
            r.deep_view() == self@.answers,
    {
        &self.answers
    }
}

} // verus!
