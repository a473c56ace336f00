//! Decoding a datagram into a [`DnsRecord`]: the bit-exact header fields,
//! then exactly as many questions and answers as the header counts say,
//! advancing one shared cursor across the whole buffer. Every step that
//! can fail surfaces its error immediately; the whole parse is pinned to
//! the spec-level parser [`spec_parse`].

use vstd::prelude::*;
use crate::dns_record::{DnsRecord, DnsRecordV};
use crate::enums::{Class, Qclass, Qtype, Type, OPCODE, QR, RCODE};
use crate::errors::{
    detail_msg,
    msg_bad_rdata_len,
    msg_invalid_class,
    msg_invalid_qclass,
    msg_invalid_qtype,
    msg_invalid_type,
    msg_oob,
    msg_unknown_opcode,
    msg_unknown_rcode,
    msg_unsupported_type,
    DnsMsgError,
    ErrV,
    Error,
};
use crate::labels::{lemma_decode_end_bounds, oob_error, parse_labels, spec_decode_name, NameOut};
use crate::question::{Question, QuestionV};
use crate::records::{Ipv4Address, Record, RecordPayload, RecordV};
use crate::utils::{read_u16, read_u32, read_u8, spec_u16_at, spec_u32_at};

verus! {

/// The outcome of a decode step: a value, or the error that ends the
/// whole parse.
#[verifier::ext_equal]
pub enum ParseOut<T> {
    Good(T),
    Bad(ErrV),
}

/// The query/response bit of the third header byte.
pub open spec fn spec_qr_bit(b: u8) -> QR {
    if b / 128 == 1 {
        QR::RESPONSE
    } else {
        QR::QUERY
    }
}

/// The four opcode bits of the third header byte.
pub open spec fn spec_opcode_bits(b: u8) -> u8 {
    (b / 8) % 16
}

/// The authoritative-answer bit.
pub open spec fn spec_aa_bit(b: u8) -> bool {
    (b / 4) % 2 == 1
}

/// The truncation bit.
pub open spec fn spec_tc_bit(b: u8) -> bool {
    (b / 2) % 2 == 1
}

/// The recursion-desired bit.
pub open spec fn spec_rd_bit(b: u8) -> bool {
    b % 2 == 1
}

/// The recursion-available bit of the fourth header byte.
pub open spec fn spec_ra_bit(b: u8) -> bool {
    b / 128 == 1
}

/// The three reserved bits of the fourth header byte, right-aligned.
pub open spec fn spec_dnssec_bits(b: u8) -> u8 {
    (b / 16) % 8
}

/// The four response-code bits of the fourth header byte.
pub open spec fn spec_rcode_bits(b: u8) -> u8 {
    b % 16
}

/// Decode one question at `pos`: a name, then the type and class numbers.
pub open spec fn spec_question(data: Seq<u8>, pos: int) -> ParseOut<(QuestionV, int)> {
    match spec_decode_name(data, pos, Set::empty()) {
        NameOut::Fail(e) => ParseOut::Bad(e),
        NameOut::Done(nk) => if nk.end + 2 > data.len() {
            ParseOut::Bad(ErrV { kind: DnsMsgError::OutOfBounds, msg: msg_oob(nk.end) })
        } else {
            let tv = spec_u16_at(data, nk.end);
            match Qtype::spec_from_u16(tv) {
                None => ParseOut::Bad(
                    ErrV { kind: DnsMsgError::InvalidData, msg: msg_invalid_qtype(tv) },
                ),
                Some(qt) => if nk.end + 4 > data.len() {
                    ParseOut::Bad(
                        ErrV { kind: DnsMsgError::OutOfBounds, msg: msg_oob(nk.end + 2) },
                    )
                } else {
                    let cv = spec_u16_at(data, nk.end + 2);
                    match Qclass::spec_from_u16(cv) {
                        None => ParseOut::Bad(
                            ErrV { kind: DnsMsgError::InvalidData, msg: msg_invalid_qclass(cv) },
                        ),
                        Some(qc) => ParseOut::Good(
                            (QuestionV { labels: nk.labels, qtype: qt, qclass: qc }, nk.end + 4),
                        ),
                    }
                },
            }
        },
    }
}

/// Decode `n` questions in order from `pos`.
pub open spec fn spec_questions(data: Seq<u8>, pos: int, n: nat) -> ParseOut<
    (Seq<QuestionV>, int),
>
    decreases n,
{
    if n == 0 {
        ParseOut::Good((Seq::empty(), pos))
    } else {
        match spec_question(data, pos) {
            ParseOut::Bad(e) => ParseOut::Bad(e),
            ParseOut::Good((q, p2)) => match spec_questions(data, p2, (n - 1) as nat) {
                ParseOut::Bad(e) => ParseOut::Bad(e),
                ParseOut::Good((qs, p3)) => ParseOut::Good((seq![q] + qs, p3)),
            },
        }
    }
}

/// Decode one resource record at `pos`: a name, the type and class
/// numbers, the time to live, the data length, and the typed payload.
/// Only address records are decoded; any other known type is reported,
/// never skipped, and an address record's data length must be four.
pub open spec fn spec_answer(data: Seq<u8>, pos: int) -> ParseOut<(RecordV, int)> {
    match spec_decode_name(data, pos, Set::empty()) {
        NameOut::Fail(e) => ParseOut::Bad(e),
        NameOut::Done(nk) => if nk.end + 2 > data.len() {
            ParseOut::Bad(ErrV { kind: DnsMsgError::OutOfBounds, msg: msg_oob(nk.end) })
        } else {
            let tv = spec_u16_at(data, nk.end);
            match Type::spec_from_u16(tv) {
                None => ParseOut::Bad(
                    ErrV { kind: DnsMsgError::InvalidData, msg: msg_invalid_type(tv) },
                ),
                Some(t) => if nk.end + 4 > data.len() {
                    ParseOut::Bad(
                        ErrV { kind: DnsMsgError::OutOfBounds, msg: msg_oob(nk.end + 2) },
                    )
                } else {
                    let cv = spec_u16_at(data, nk.end + 2);
                    match Class::spec_from_u16(cv) {
                        None => ParseOut::Bad(
                            ErrV { kind: DnsMsgError::InvalidData, msg: msg_invalid_class(cv) },
                        ),
                        Some(c) => if nk.end + 8 > data.len() {
                            ParseOut::Bad(
                                ErrV {
                                    kind: DnsMsgError::OutOfBounds,
                                    msg: msg_oob(nk.end + 4),
                                },
                            )
                        } else if nk.end + 10 > data.len() {
                            ParseOut::Bad(
                                ErrV {
                                    kind: DnsMsgError::OutOfBounds,
                                    msg: msg_oob(nk.end + 8),
                                },
                            )
                        } else {
                            let ttl = spec_u32_at(data, nk.end + 4);
                            let lenv = spec_u16_at(data, nk.end + 8);
                            if t != Type::A {
                                ParseOut::Bad(
                                    ErrV {
                                        kind: DnsMsgError::InvalidData,
                                        msg: msg_unsupported_type(tv),
                                    },
                                )
                            } else if lenv != 4 {
                                ParseOut::Bad(
                                    ErrV {
                                        kind: DnsMsgError::InvalidData,
                                        msg: msg_bad_rdata_len(lenv),
                                    },
                                )
                            } else if nk.end + 14 > data.len() {
                                ParseOut::Bad(
                                    ErrV {
                                        kind: DnsMsgError::OutOfBounds,
                                        msg: msg_oob(nk.end + 10),
                                    },
                                )
                            } else {
                                ParseOut::Good(
                                    (
                                        RecordV {
                                            labels: nk.labels,
                                            class: c,
                                            ttl,
                                            payload: RecordPayload::A(
                                                Ipv4Address {
                                                    a: data[nk.end + 10],
                                                    b: data[nk.end + 11],
                                                    c: data[nk.end + 12],
                                                    d: data[nk.end + 13],
                                                },
                                            ),
                                        },
                                        nk.end + 14,
                                    ),
                                )
                            }
                        },
                    }
                },
            }
        },
    }
}

/// Decode `n` resource records in order from `pos`.
pub open spec fn spec_answers(data: Seq<u8>, pos: int, n: nat) -> ParseOut<(Seq<RecordV>, int)>
    decreases n,
{
    if n == 0 {
        ParseOut::Good((Seq::empty(), pos))
    } else {
        match spec_answer(data, pos) {
            ParseOut::Bad(e) => ParseOut::Bad(e),
            ParseOut::Good((a, p2)) => match spec_answers(data, p2, (n - 1) as nat) {
                ParseOut::Bad(e) => ParseOut::Bad(e),
                ParseOut::Good((ans, p3)) => ParseOut::Good((seq![a] + ans, p3)),
            },
        }
    }
}

/// Decode a whole datagram: the header fields, then exactly as many
/// questions and answers as the header's counts say, in order, over one
/// shared cursor starting after the twelve header bytes.
pub open spec fn spec_parse(data: Seq<u8>) -> ParseOut<DnsRecordV> {
    if data.len() < 2 {
        ParseOut::Bad(ErrV { kind: DnsMsgError::OutOfBounds, msg: msg_oob(0) })
    } else if data.len() < 3 {
        ParseOut::Bad(ErrV { kind: DnsMsgError::OutOfBounds, msg: msg_oob(2) })
    } else if data.len() < 4 {
        ParseOut::Bad(ErrV { kind: DnsMsgError::OutOfBounds, msg: msg_oob(3) })
    } else {
        let b2 = data[2];
        let b3 = data[3];
        match OPCODE::spec_from_u8(spec_opcode_bits(b2)) {
            None => ParseOut::Bad(
                ErrV {
                    kind: DnsMsgError::InvalidData,
                    msg: msg_unknown_opcode(spec_opcode_bits(b2)),
                },
            ),
            Some(op) => match RCODE::spec_from_u8(spec_rcode_bits(b3)) {
                None => ParseOut::Bad(
                    ErrV {
                        kind: DnsMsgError::InvalidData,
                        msg: msg_unknown_rcode(spec_rcode_bits(b3)),
                    },
                ),
                Some(rc) => if data.len() < 6 {
                    ParseOut::Bad(ErrV { kind: DnsMsgError::OutOfBounds, msg: msg_oob(4) })
                } else {
                    match spec_questions(data, 12, spec_u16_at(data, 4) as nat) {
                        ParseOut::Bad(e) => ParseOut::Bad(e),
                        ParseOut::Good((qs, p)) => if data.len() < 8 {
                            ParseOut::Bad(
                                ErrV { kind: DnsMsgError::OutOfBounds, msg: msg_oob(6) },
                            )
                        } else {
                            match spec_answers(data, p, spec_u16_at(data, 6) as nat) {
                                ParseOut::Bad(e) => ParseOut::Bad(e),
                                ParseOut::Good((ans, _)) => ParseOut::Good(
                                    DnsRecordV {
                                        id: spec_u16_at(data, 0),
                                        qr: spec_qr_bit(b2),
                                        opcode: op,
                                        aa: spec_aa_bit(b2),
                                        tc: spec_tc_bit(b2),
                                        rd: spec_rd_bit(b2),
                                        ra: spec_ra_bit(b3),
                                        dnssec: spec_dnssec_bits(b3),
                                        rcode: rc,
                                        questions: qs,
                                        answers: ans,
                                    },
                                ),
                            }
                        },
                    }
                },
            },
        }
    }
}

/// The transaction identifier in the first two header bytes.
pub fn id(data: &[u8]) -> (r: u16)
    requires
        data@.len() >= 2,
    ensures
        r == spec_u16_at(data@, 0),
{
    let mut i: usize = 0;
    read_u16(data, &mut i)
}

/// The query/response bit.
pub fn qr(data: &[u8]) -> (r: QR)
    requires
        data@.len() >= 3,
    ensures
        r == spec_qr_bit(data@[2]),
{
    if data[2] / 128 == 1 {
        QR::RESPONSE
    } else {
        QR::QUERY
    }
}

/// The operation code; a bit pattern outside the enumeration is invalid
/// data naming the offending value.
pub fn opcode(data: &[u8]) -> (r: Result<OPCODE, Error>)
    requires
        data@.len() >= 3,
    ensures
        match OPCODE::spec_from_u8(spec_opcode_bits(data@[2])) {
            Some(op) => r is Ok && r->Ok_0 == op,
            None => {
                &&& r is Err
                &&& r->Err_0@ == (ErrV {
                    kind: DnsMsgError::InvalidData,
                    msg: msg_unknown_opcode(spec_opcode_bits(data@[2])),
                })
            },
        },
{
    let val = (data[2] / 8) % 16;
    match OPCODE::from_u8(val) {
        Some(op) => Ok(op),
        None => {
            let m = detail_msg("Unknown opcode ", val as u64, "");
            proof {
                reveal_strlit("");
                assert(m@ =~= msg_unknown_opcode(val));
            }
            Err(Error::new(DnsMsgError::InvalidData, m))
        },
    }
}

/// The authoritative-answer bit.
pub fn aa(data: &[u8]) -> (r: bool)
    requires
        data@.len() >= 3,
    ensures
        r == spec_aa_bit(data@[2]),
{
    (data[2] / 4) % 2 == 1
}

/// The truncation bit.
pub fn tc(data: &[u8]) -> (r: bool)
    requires
        data@.len() >= 3,
    ensures
        r == spec_tc_bit(data@[2]),
{
    (data[2] / 2) % 2 == 1
}

/// The recursion-desired bit.
pub fn rd(data: &[u8]) -> (r: bool)
    requires
        data@.len() >= 3,
    ensures
        r == spec_rd_bit(data@[2]),
{
    data[2] % 2 == 1
}

/// The recursion-available bit.
pub fn ra(data: &[u8]) -> (r: bool)
    requires
        data@.len() >= 4,
    ensures
        r == spec_ra_bit(data@[3]),
{
    data[3] / 128 == 1
}

/// The three reserved bits, right-aligned.
pub fn dnssec_bits(data: &[u8]) -> (r: u8)
    requires
        data@.len() >= 4,
    ensures
        r == spec_dnssec_bits(data@[3]),
{
    (data[3] / 16) % 8
}

/// The response code; a bit pattern outside the enumeration is invalid
/// data naming the offending value.
pub fn rcode(data: &[u8]) -> (r: Result<RCODE, Error>)
    requires
        data@.len() >= 4,
    ensures
        match RCODE::spec_from_u8(spec_rcode_bits(data@[3])) {
            Some(rc) => r is Ok && r->Ok_0 == rc,
            None => {
                &&& r is Err
                &&& r->Err_0@ == (ErrV {
                    kind: DnsMsgError::InvalidData,
                    msg: msg_unknown_rcode(spec_rcode_bits(data@[3])),
                })
            },
        },
{
    let val = data[3] % 16;
    match RCODE::from_u8(val) {
        Some(rc) => Ok(rc),
        None => {
            let m = detail_msg("Unknown rcode value ", val as u64, "");
            proof {
                reveal_strlit("");
                assert(m@ =~= msg_unknown_rcode(val));
            }
            Err(Error::new(DnsMsgError::InvalidData, m))
        },
    }
}

/// The question count.
pub fn qdcount(data: &[u8]) -> (r: u16)
    requires
        data@.len() >= 6,
    ensures
        r == spec_u16_at(data@, 4),
{
    let mut i: usize = 4;
    read_u16(data, &mut i)
}

/// The answer count.
pub fn ancount(data: &[u8]) -> (r: u16)
    requires
        data@.len() >= 8,
    ensures
        r == spec_u16_at(data@, 6),
{
    let mut i: usize = 6;
    read_u16(data, &mut i)
}

/// The authority count; the codec reads it only to ignore it.
pub fn nscount(data: &[u8]) -> (r: u16)
    requires
        data@.len() >= 10,
    ensures
        r == spec_u16_at(data@, 8),
{
    let mut i: usize = 8;
    read_u16(data, &mut i)
}

/// The additional count; the codec reads it only to ignore it.
pub fn arcount(data: &[u8]) -> (r: u16)
    requires
        data@.len() >= 12,
    ensures
        r == spec_u16_at(data@, 10),
{
    let mut i: usize = 10;
    read_u16(data, &mut i)
}

/// Decode one question at `*pos`, leaving the cursor just past it.
pub fn parse_question(data: &[u8], pos: &mut usize) -> (r: Result<Question, Error>)
    ensures
        match spec_question(data@, *old(pos) as int) {
            ParseOut::Good((qv, end)) => {
                &&& r is Ok
                &&& r->Ok_0@ == qv
                &&& *final(pos) == end
            },
            ParseOut::Bad(e) => r is Err && r->Err_0@ == e,
        },
{
    proof {
        lemma_decode_end_bounds(data@, *pos as int, Set::empty());
    }
    let labels = match parse_labels(data, pos) {
        Ok(l) => l,
        Err(e) => {
            return Err(e);
        },
    };
    let n = data.len();
    if n - *pos < 2 {
        return Err(oob_error(*pos));
    }
    let tv = read_u16(data, pos);
    let qt = match Qtype::from_u16(tv) {
        Some(qt) => qt,
        None => {
            let m = detail_msg("Invalid qtype: ", tv as u64, "");
            proof {
                reveal_strlit("");
                assert(m@ =~= msg_invalid_qtype(tv));
            }
            return Err(Error::new(DnsMsgError::InvalidData, m));
        },
    };
    if n - *pos < 2 {
        return Err(oob_error(*pos));
    }
    let cv = read_u16(data, pos);
    let qc = match Qclass::from_u16(cv) {
        Some(qc) => qc,
        None => {
            let m = detail_msg("Invalid qclass: ", cv as u64, "");
            proof {
                reveal_strlit("");
                assert(m@ =~= msg_invalid_qclass(cv));
            }
            return Err(Error::new(DnsMsgError::InvalidData, m));
        },
    };
    Ok(Question::new(labels, qt, qc))
}

/// Decode the question section: as many questions as the header says.
pub fn questions(data: &[u8], pos: &mut usize) -> (r: Result<Vec<Question>, Error>)
    requires
        data@.len() >= 6,
    ensures
        match spec_questions(data@, *old(pos) as int, spec_u16_at(data@, 4) as nat) {
            ParseOut::Good((qs, end)) => {
                &&& r is Ok
                &&& r->Ok_0.deep_view() == qs
                &&& *final(pos) == end
            },
            ParseOut::Bad(e) => r is Err && r->Err_0@ == e,
        },
{
    let ghost pos0 = *pos as int;
    let n = qdcount(data);
    let mut acc: Vec<Question> = Vec::new();
    let mut i: u16 = 0;
    proof {
        assert(acc.deep_view() =~= Seq::<QuestionV>::empty());
    }
    while i < n
        invariant
            i <= n,
            pos0 == *old(pos) as int,
            n == spec_u16_at(data@, 4),
            ({
                let rest = spec_questions(data@, *pos as int, (n - i) as nat);
                let whole = spec_questions(data@, pos0, n as nat);
                &&& (rest is Good ==> {
                    &&& whole is Good
                    &&& whole->Good_0.0 == acc.deep_view() + rest->Good_0.0
                    &&& whole->Good_0.1 == rest->Good_0.1
                })
                &&& (rest is Bad ==> whole == rest)
            }),
        decreases n - i,
    {
        let ghost p0 = *pos as int;
        proof {
            assert(spec_questions(data@, p0, (n - i) as nat) == (
            match spec_question(data@, p0) {
                ParseOut::Bad(e) => ParseOut::Bad(e),
                ParseOut::Good((q, p2)) => match spec_questions(data@, p2, (n - i - 1) as nat) {
                    ParseOut::Bad(e) => ParseOut::Bad(e),
                    ParseOut::Good((qs, p3)) => ParseOut::Good((seq![q] + qs, p3)),
                },
            }));
        }
        let q = match parse_question(data, pos) {
            Ok(q) => q,
            Err(e) => {
                return Err(e);
            },
        };
        let ghost old_acc = acc.deep_view();
        acc.push(q);
        proof {
            assert(acc.deep_view() =~= old_acc.push(q@));
            let step = spec_question(data@, p0);
            let rest2 = spec_questions(data@, *pos as int, (n - i - 1) as nat);
            if rest2 is Good {
                assert(old_acc.push(q@) + rest2->Good_0.0 =~= old_acc + (seq![q@]
                    + rest2->Good_0.0));
            }
        }
        i = i + 1;
    }
    proof {
        assert(spec_questions(data@, *pos as int, 0) == ParseOut::Good(
            (Seq::<QuestionV>::empty(), *pos as int),
        ));
        assert(acc.deep_view() + Seq::<QuestionV>::empty() =~= acc.deep_view());
    }
    Ok(acc)
}

/// Decode one resource record at `*pos`, leaving the cursor just past it.
pub fn parse_answer(data: &[u8], pos: &mut usize) -> (r: Result<Record, Error>)
    ensures
        match spec_answer(data@, *old(pos) as int) {
            ParseOut::Good((rv, end)) => {
                &&& r is Ok
                &&& r->Ok_0@ == rv
                &&& *final(pos) == end
            },
            ParseOut::Bad(e) => r is Err && r->Err_0@ == e,
        },
{
    proof {
        lemma_decode_end_bounds(data@, *pos as int, Set::empty());
    }
    let labels = match parse_labels(data, pos) {
        Ok(l) => l,
        Err(e) => {
            return Err(e);
        },
    };
    let n = data.len();
    if n - *pos < 2 {
        return Err(oob_error(*pos));
    }
    let tv = read_u16(data, pos);
    let t = match Type::from_u16(tv) {
        Some(t) => t,
        None => {
            let m = detail_msg("Invalid type: ", tv as u64, "");
            proof {
                reveal_strlit("");
                assert(m@ =~= msg_invalid_type(tv));
            }
            return Err(Error::new(DnsMsgError::InvalidData, m));
        },
    };
    if n - *pos < 2 {
        return Err(oob_error(*pos));
    }
    let cv = read_u16(data, pos);
    let c = match Class::from_u16(cv) {
        Some(c) => c,
        None => {
            let m = detail_msg("Invalid class: ", cv as u64, "");
            proof {
                reveal_strlit("");
                assert(m@ =~= msg_invalid_class(cv));
            }
            return Err(Error::new(DnsMsgError::InvalidData, m));
        },
    };
    if n - *pos < 4 {
        return Err(oob_error(*pos));
    }
    let ttl = read_u32(data, pos);
    if n - *pos < 2 {
        return Err(oob_error(*pos));
    }
    let lenv = read_u16(data, pos);
    if !matches!(t, Type::A) {
        let m = detail_msg("Record type not supported: ", tv as u64, "");
        proof {
            reveal_strlit("");
            assert(m@ =~= msg_unsupported_type(tv));
        }
        return Err(Error::new(DnsMsgError::InvalidData, m));
    }
    if lenv != 4 {
        let m = detail_msg("Length of ", lenv as u64, " is invalid for type A");
        proof {
            assert(m@ =~= msg_bad_rdata_len(lenv));
        }
        return Err(Error::new(DnsMsgError::InvalidData, m));
    }
    if n - *pos < 4 {
        return Err(oob_error(*pos));
    }
    let a = read_u8(data, pos);
    let b = read_u8(data, pos);
    let c2 = read_u8(data, pos);
    let d = read_u8(data, pos);
    Ok(Record::new(labels, c, ttl, RecordPayload::A(Ipv4Address::new(a, b, c2, d))))
}

/// Decode the answer section: as many records as the header says.
pub fn answers(data: &[u8], pos: &mut usize) -> (r: Result<Vec<Record>, Error>)
    requires
        data@.len() >= 8,
    ensures
        match spec_answers(data@, *old(pos) as int, spec_u16_at(data@, 6) as nat) {
            ParseOut::Good((ans, end)) => {
                &&& r is Ok
                &&& r->Ok_0.deep_view() == ans
                &&& *final(pos) == end
            },
            ParseOut::Bad(e) => r is Err && r->Err_0@ == e,
        },
{
    let ghost pos0 = *pos as int;
    let n = ancount(data);
    let mut acc: Vec<Record> = Vec::new();
    let mut i: u16 = 0;
    proof {
        assert(acc.deep_view() =~= Seq::<RecordV>::empty());
    }
    while i < n
        invariant
            i <= n,
            pos0 == *old(pos) as int,
            n == spec_u16_at(data@, 6),
            ({
                let rest = spec_answers(data@, *pos as int, (n - i) as nat);
                let whole = spec_answers(data@, pos0, n as nat);
                &&& (rest is Good ==> {
                    &&& whole is Good
                    &&& whole->Good_0.0 == acc.deep_view() + rest->Good_0.0
                    &&& whole->Good_0.1 == rest->Good_0.1
                })
                &&& (rest is Bad ==> whole == rest)
            }),
        decreases n - i,
    {
        let ghost p0 = *pos as int;
        proof {
            assert(spec_answers(data@, p0, (n - i) as nat) == (
            match spec_answer(data@, p0) {
                ParseOut::Bad(e) => ParseOut::Bad(e),
                ParseOut::Good((a, p2)) => match spec_answers(data@, p2, (n - i - 1) as nat) {
                    ParseOut::Bad(e) => ParseOut::Bad(e),
                    ParseOut::Good((ans, p3)) => ParseOut::Good((seq![a] + ans, p3)),
                },
            }));
        }
        let a = match parse_answer(data, pos) {
            Ok(a) => a,
            Err(e) => {
                return Err(e);
            },
        };
        let ghost old_acc = acc.deep_view();
        acc.push(a);
        proof {
            assert(acc.deep_view() =~= old_acc.push(a@));
            let rest2 = spec_answers(data@, *pos as int, (n - i - 1) as nat);
            if rest2 is Good {
                assert(old_acc.push(a@) + rest2->Good_0.0 =~= old_acc + (seq![a@]
                    + rest2->Good_0.0));
            }
        }
        i = i + 1;
    }
    proof {
        assert(spec_answers(data@, *pos as int, 0) == ParseOut::Good(
            (Seq::<RecordV>::empty(), *pos as int),
        ));
        assert(acc.deep_view() + Seq::<RecordV>::empty() =~= acc.deep_view());
    }
    Ok(acc)
}

/// Parse one datagram into a message, or the first error met while
/// scanning header, questions and answers, in that order. The result is
/// exactly what the spec-level parser says for these bytes: the codec
/// never reads out of bounds, never loops on a pointer cycle, and never
/// returns a partial message.
pub fn parse(data: &[u8]) -> (r: Result<DnsRecord, Error>)
    ensures
        match spec_parse(data@) {
            ParseOut::Good(m) => r is Ok && r->Ok_0@ == m,
            ParseOut::Bad(e) => r is Err && r->Err_0@ == e,
        },
{
    let n = data.len();
    if n < 2 {
        return Err(oob_error(0));
    }
    if n < 3 {
        return Err(oob_error(2));
    }
    if n < 4 {
        return Err(oob_error(3));
    }
    let r_id = id(data);
    let r_qr = qr(data);
    let r_opcode = match opcode(data) {
        Ok(op) => op,
        Err(e) => {
            return Err(e);
        },
    };
    let r_aa = aa(data);
    let r_tc = tc(data);
    let r_rd = rd(data);
    let r_ra = ra(data);
    let r_dnssec = dnssec_bits(data);
    let r_rcode = match rcode(data) {
        Ok(rc) => rc,
        Err(e) => {
            return Err(e);
        },
    };
    if n < 6 {
        return Err(oob_error(4));
    }
    let mut pos: usize = 12;
    let r_questions = match questions(data, &mut pos) {
        Ok(qs) => qs,
        Err(e) => {
            return Err(e);
        },
    };
    if n < 8 {
        return Err(oob_error(6));
    }
    let r_answers = match answers(data, &mut pos) {
        Ok(ans) => ans,
        Err(e) => {
            return Err(e);
        },
    };
    Ok(
        DnsRecord::new(
            r_id,
            r_qr,
            r_opcode,
            r_aa,
            r_tc,
            r_rd,
            r_ra,
            r_dnssec,
            r_rcode,
            r_questions,
            r_answers,
        ),
    )
}

} // verus!
