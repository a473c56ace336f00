//! The message builder: an accumulator for the header flags and the
//! question list, configured fluently and consumed by `build`, which
//! writes a complete 512-byte query datagram. The builder only emits
//! queries: the answer, authority and additional counts are written as
//! zero. One label table is shared across all questions, so names that
//! repeat a suffix compress against each other.

use vstd::prelude::*;
use crate::enums::{OPCODE, QR, RCODE};
use crate::dns_record::DnsRecordV;
use crate::labels::{
    decodes_to,
    encode_labels,
    entry_decodes,
    entry_wf,
    labels_utf8,
    labels_wf,
    lemma_decodes_to_frame,
    lemma_encode_name_decodes,
    lemma_encode_name_grows,
    lemma_plain_len_pos,
    spec_decode_name,
    spec_encode_name,
    spec_name_plain_len,
    LabelTable,
    NameOk,
    NameOut,
    TableV,
};
use crate::parser::{
    spec_answers,
    spec_parse,
    spec_questions,
    ParseOut,
};
use crate::utils::spec_u16_at;
use crate::question::{Question, QuestionV};
use crate::utils::append_u16;

verus! {

/// An accumulator for one query message.
#[derive(Debug)]
pub struct DnsMessageBuilder {
    id: u16,
    qr: QR,
    opcode: OPCODE,
    aa: bool,
    rd: bool,
    ra: bool,
    z: u8,
    rcode: RCODE,
    questions: Vec<Question>,
}

/// The mathematical image of a [`DnsMessageBuilder`].
#[verifier::ext_equal]
pub struct BuilderV {
    pub id: u16,
    pub qr: QR,
    pub opcode: OPCODE,
    pub aa: bool,
    pub rd: bool,
    pub ra: bool,
    pub z: u8,
    pub rcode: RCODE,
    pub questions: Seq<QuestionV>,
}

impl View for DnsMessageBuilder {
    type V = BuilderV;

    closed spec fn view(&self) -> BuilderV {
        BuilderV {
            id: self.id,
            qr: self.qr,
            opcode: self.opcode,
            aa: self.aa,
            rd: self.rd,
            ra: self.ra,
            z: self.z,
            rcode: self.rcode,
            questions: self.questions.deep_view(),
        }
    }
}

/// The third header byte the builder writes: the query/response bit, the
/// opcode, the authoritative-answer bit and the recursion-desired bit.
/// The truncation bit is always written as zero.
pub open spec fn spec_header_byte2(b: BuilderV) -> u8 {
    (b.qr.spec_value() * 128 + b.opcode.spec_value() * 8 + (if b.aa {
        4int
    } else {
        0int
    }) + (if b.rd {
        1int
    } else {
        0int
    })) as u8
}

/// The fourth header byte the builder writes: the recursion-available
/// bit, the three reserved bits and the response code.
pub open spec fn spec_header_byte3(b: BuilderV) -> u8 {
    ((if b.ra {
        128int
    } else {
        0int
    }) + (b.z % 8) * 16 + b.rcode.spec_value()) as u8
}

/// Encode the questions in order: each name through the shared label
/// table, then the type and class values, big-endian.
pub open spec fn spec_encode_questions(buf: Seq<u8>, table: TableV, qs: Seq<QuestionV>) -> (
    Seq<u8>,
    TableV,
)
    decreases qs.len(),
{
    if qs.len() == 0 {
        (buf, table)
    } else {
        let (b2, t2) = spec_encode_name(buf, table, qs[0].labels);
        let tv = qs[0].qtype.spec_value();
        let cv = qs[0].qclass.spec_value();
        let b3 = b2.push((tv / 256) as u8).push((tv % 256) as u8).push((cv / 256) as u8).push(
            (cv % 256) as u8,
        );
        spec_encode_questions(b3, t2, qs.drop_first())
    }
}

/// The bytes the question section takes without compression.
pub open spec fn spec_questions_plain_len(qs: Seq<QuestionV>) -> int
    decreases qs.len(),
{
    if qs.len() == 0 {
        0
    } else {
        spec_name_plain_len(qs[0].labels) + 4 + spec_questions_plain_len(qs.drop_first())
    }
}

/// Every question takes at least five bytes without compression.
pub proof fn lemma_questions_plain_len(qs: Seq<QuestionV>)
    ensures
        spec_questions_plain_len(qs) >= 5 * qs.len(),
    decreases qs.len(),
{
    if qs.len() > 0 {
        lemma_plain_len_pos(qs[0].labels);
        lemma_questions_plain_len(qs.drop_first());
    }
}

/// True when every label of every question has a wire-legal length.
pub open spec fn builder_labels_wf(b: BuilderV) -> bool {
    forall|i: int| 0 <= i < b.questions.len() ==> labels_wf((#[trigger] b.questions[i]).labels)
}

/// True when the builder's questions are certain to fit the fixed
/// 512-byte buffer: the header plus the uncompressed question section.
/// Compression never makes the encoding longer, so this is enough.
pub open spec fn builder_fits(b: BuilderV) -> bool {
    &&& builder_labels_wf(b)
    &&& 12 + spec_questions_plain_len(b.questions) <= 512
}

/// The twelve header bytes the builder writes: the identifier, the two
/// flag bytes, the question count, and zero answer, authority and
/// additional counts.
pub open spec fn spec_build_header(b: BuilderV) -> Seq<u8> {
    seq![
        (b.id / 256) as u8,
        (b.id % 256) as u8,
        spec_header_byte2(b),
        spec_header_byte3(b),
        ((b.questions.len() as int) / 256) as u8,
        ((b.questions.len() as int) % 256) as u8,
        0u8,
        0u8,
        0u8,
        0u8,
        0u8,
        0u8,
    ]
}

/// The complete datagram the builder produces: the header, the encoded
/// questions sharing one fresh label table, and zero padding up to 512
/// bytes.
pub open spec fn spec_build(b: BuilderV) -> Seq<u8> {
    let (body, _) = spec_encode_questions(
        spec_build_header(b),
        Seq::empty(),
        b.questions,
    );
    if body.len() <= 512 {
        body + Seq::new((512 - body.len()) as nat, |i: int| 0u8)
    } else {
        body
    }
}

/// Relies on rand::random: an independently drawn random value; nothing
/// is promised of it.
#[verifier::external_body]
fn random_u16() -> u16 {
    rand::random()
}

impl DnsMessageBuilder {
    /// A fresh builder: a random identifier, a query with the query
    /// opcode, all flags clear, zero reserved bits, a clean response
    /// code, and no questions.
    pub fn new() -> (b: DnsMessageBuilder)
        ensures
            b@.qr == QR::QUERY,
            b@.opcode == OPCODE::QUERY,
            !b@.aa,
            !b@.rd,
            !b@.ra,
            b@.z == 0,
            b@.rcode == RCODE::NoError,
            b@.questions == Seq::<QuestionV>::empty(),
    {
        let b = DnsMessageBuilder {
            id: random_u16(),
            qr: QR::QUERY,
            opcode: OPCODE::QUERY,
            aa: false,
            rd: false,
            ra: false,
            z: 0,
            rcode: RCODE::NoError,
            questions: Vec::new(),
        };
        proof {
            assert(b@.questions =~= Seq::<QuestionV>::empty());
        }
        b
    }

    pub fn with_id(self, id: u16) -> (r: DnsMessageBuilder)
        ensures
            r@ == (BuilderV { id, ..self@ }),
    {
        let mut s = self;
        s.id = id;
        s
    }

    pub fn with_qr(self, val: QR) -> (r: DnsMessageBuilder)
        ensures
            r@ == (BuilderV { qr: val, ..self@ }),
    {
        let mut s = self;
        s.qr = val;
        s
    }

    pub fn with_opcode(self, val: OPCODE) -> (r: DnsMessageBuilder)
        ensures
            r@ == (BuilderV { opcode: val, ..self@ }),
    {
        let mut s = self;
        s.opcode = val;
        s
    }

    pub fn with_aa(self, val: bool) -> (r: DnsMessageBuilder)
        ensures
            r@ == (BuilderV { aa: val, ..self@ }),
    {
        let mut s = self;
        s.aa = val;
        s
    }

    pub fn with_rd(self, val: bool) -> (r: DnsMessageBuilder)
        ensures
            r@ == (BuilderV { rd: val, ..self@ }),
    {
        let mut s = self;
        s.rd = val;
        s
    }

    pub fn with_ra(self, val: bool) -> (r: DnsMessageBuilder)
        ensures
            r@ == (BuilderV { ra: val, ..self@ }),
    {
        let mut s = self;
        s.ra = val;
        s
    }

    /// Set the reserved bits. Only the three least significant bits of
    /// `val` are kept.
    pub fn with_dnssec_bits(self, val: u8) -> (r: DnsMessageBuilder)
        ensures
            r@ == (BuilderV { z: (val % 8) as u8, ..self@ }),
    {
        let mut s = self;
        s.z = val % 8;
        s
    }

    pub fn with_rcode(self, val: RCODE) -> (r: DnsMessageBuilder)
        ensures
            r@ == (BuilderV { rcode: val, ..self@ }),
    {
        let mut s = self;
        s.rcode = val;
        s
    }

    pub fn add_question(self, question: Question) -> (r: DnsMessageBuilder)
        ensures
            r@ == (BuilderV { questions: self@.questions.push(question@), ..self@ }),
    {
        let mut s = self;
        let ghost old_qs = s.questions.deep_view();
        let ghost qv = question@;
        s.questions.push(question);
        proof {
            assert(s.questions.deep_view() =~= old_qs.push(qv));
        }
        s
    }

    /// Write the message: the header with the question count, each
    /// question encoded through one shared label table, and zero padding
    /// up to the fixed 512-byte size. The caller keeps the questions
    /// small enough to fit; compression can only shrink them further.
    pub fn build(self) -> (r: Vec<u8>)
        requires
            builder_fits(self@),
        ensures
            r@ == spec_build(self@),
            r@.len() == 512,
    {
        let ghost bv = self@;
        let mut buffer: Vec<u8> = Vec::new();
        append_u16(&mut buffer, self.id);

        let mut byte2: u8 = self.qr.value() * 128;
        byte2 = byte2 + self.opcode.value() * 8;
        if self.aa {
            byte2 = byte2 + 4;
        }
        if self.rd {
            byte2 = byte2 + 1;
        }
        buffer.push(byte2);

        let mut byte3: u8 = if self.ra {
            128
        } else {
            0
        };
        byte3 = byte3 + (self.z % 8) * 16;
        byte3 = byte3 + self.rcode.value();
        buffer.push(byte3);

        proof {
            lemma_questions_plain_len(bv.questions);
        }
        append_u16(&mut buffer, self.questions.len() as u16);
        append_u16(&mut buffer, 0);
        append_u16(&mut buffer, 0);
        append_u16(&mut buffer, 0);
        proof {
            assert(buffer@ =~= spec_build_header(bv));
        }

        let ghost header = spec_build_header(bv);
        let ghost target = spec_encode_questions(header, Seq::empty(), bv.questions);
        let mut table = LabelTable::new();
        proof {
            assert(table@ =~= Seq::<(Seq<Seq<u8>>, int)>::empty());
        }
        let n = self.questions.len();
        let mut i: usize = 0;
        proof {
            assert(bv.questions.skip(0) =~= bv.questions);
        }
        while i < n
            invariant
                i <= n,
                n == self.questions@.len(),
                bv == self@,
                bv.questions == self.questions.deep_view(),
                builder_fits(bv),
                crate::labels::table_wf(table@),
                target == spec_encode_questions(header, Seq::empty(), bv.questions),
                target == spec_encode_questions(buffer@, table@, bv.questions.skip(i as int)),
                buffer@.len() + spec_questions_plain_len(bv.questions.skip(i as int)) <= 512,
            decreases n - i,
        {
            let ghost rest = bv.questions.skip(i as int);
            let ghost buf0 = buffer@;
            let ghost t0 = table@;
            proof {
                assert(rest[0] == bv.questions[i as int]);
                assert(rest.drop_first() =~= bv.questions.skip(i as int + 1));
                assert(self.questions.deep_view()[i as int] == self.questions@[i as int]@);
                lemma_encode_name_grows(buf0, t0, rest[0].labels);
            }
            let q: &Question = &self.questions[i];
            proof {
                assert(q.labels.deep_view() == rest[0].labels);
                lemma_questions_plain_len(rest.drop_first());
                assert(spec_questions_plain_len(rest) == spec_name_plain_len(rest[0].labels) + 4
                    + spec_questions_plain_len(rest.drop_first()));
            }
            encode_labels(&mut buffer, &mut table, &q.labels);
            append_u16(&mut buffer, q.qtype.value());
            append_u16(&mut buffer, q.qclass.value());
            proof {
                let (b2, t2) = spec_encode_name(buf0, t0, rest[0].labels);
                let tv = rest[0].qtype.spec_value();
                let cv = rest[0].qclass.spec_value();
                assert(buffer@ =~= b2.push((tv / 256) as u8).push((tv % 256) as u8).push(
                    (cv / 256) as u8,
                ).push((cv % 256) as u8));
            }
            i = i + 1;
        }
        proof {
            assert(bv.questions.skip(n as int).len() == 0);
            assert(buffer@ == target.0);
            assert(buffer@.len() <= 512);
        }
        let ghost body = buffer@;
        while buffer.len() < 512
            invariant
                body == target.0,
                body.len() <= buffer@.len() <= 512,
                buffer@.subrange(0, body.len() as int) == body,
                forall|j: int| body.len() <= j < buffer@.len() ==> buffer@[j] == 0u8,
            decreases 512 - buffer@.len(),
        {
            buffer.push(0);
            proof {
                assert(buffer@.subrange(0, body.len() as int) =~= body);
            }
        }
        proof {
            assert(buffer@ =~= spec_build(bv));
        }
        buffer
    }
}

/// True when every label of every question holds well-formed text.
pub open spec fn builder_labels_utf8(b: BuilderV) -> bool {
    forall|i: int| 0 <= i < b.questions.len() ==> labels_utf8((#[trigger] b.questions[i]).labels)
}

/// Encoding the question section appends at most its uncompressed length
/// and never touches what was already written.
pub proof fn lemma_encode_questions_grows(buf: Seq<u8>, table: TableV, qs: Seq<QuestionV>)
    ensures
        ({
            let (b2, t2) = spec_encode_questions(buf, table, qs);
            &&& buf.len() <= b2.len() <= buf.len() + spec_questions_plain_len(qs)
            &&& b2.subrange(0, buf.len() as int) =~= buf
        }),
    decreases qs.len(),
{
    if qs.len() == 0 {
        let (b2, t2) = spec_encode_questions(buf, table, qs);
        assert(b2.subrange(0, buf.len() as int) =~= buf);
    } else {
        lemma_encode_name_grows(buf, table, qs[0].labels);
        let (bn, tn) = spec_encode_name(buf, table, qs[0].labels);
        let tv = qs[0].qtype.spec_value();
        let cv = qs[0].qclass.spec_value();
        let bq = bn.push((tv / 256) as u8).push((tv % 256) as u8).push((cv / 256) as u8).push(
            (cv % 256) as u8,
        );
        lemma_encode_questions_grows(bq, tn, qs.drop_first());
        let (b2, t2) = spec_encode_questions(bq, tn, qs.drop_first());
        assert(bq.subrange(0, buf.len() as int) =~= bn.subrange(0, buf.len() as int));
        assert(b2.subrange(0, buf.len() as int) =~= b2.subrange(0, bq.len() as int).subrange(
            0,
            buf.len() as int,
        ));
    }
}

/// Decoding the question section of what the encoder wrote, read out of
/// any buffer that extends it, yields exactly the encoded questions and
/// leaves the cursor at the end of the section.
pub proof fn lemma_questions_decode(buf: Seq<u8>, table: TableV, qs: Seq<QuestionV>, data: Seq<u8>)
    requires
        buf.len() + spec_questions_plain_len(qs) <= 0x4000,
        forall|i: int|
            0 <= i < qs.len() ==> (labels_wf((#[trigger] qs[i]).labels) && labels_utf8(
                qs[i].labels,
            )),
        forall|i: int| 0 <= i < table.len() ==> entry_wf(#[trigger] table[i], buf.len() as int),
        forall|i: int| 0 <= i < table.len() ==> entry_decodes(buf, #[trigger] table[i]),
        ({
            let (b2, t2) = spec_encode_questions(buf, table, qs);
            b2.len() <= data.len() && data.subrange(0, b2.len() as int) == b2
        }),
    ensures
        ({
            let (b2, t2) = spec_encode_questions(buf, table, qs);
            spec_questions(data, buf.len() as int, qs.len() as nat) == ParseOut::Good(
                (qs, b2.len() as int),
            )
        }),
    decreases qs.len(),
{
    let (b2, t2) = spec_encode_questions(buf, table, qs);
    if qs.len() == 0 {
        assert(spec_questions(data, buf.len() as int, 0) == ParseOut::Good(
            (Seq::<QuestionV>::empty(), buf.len() as int),
        ));
        assert(qs =~= Seq::<QuestionV>::empty());
    } else {
        let name = qs[0].labels;
        lemma_plain_len_pos(name);
        assert(labels_wf(name) && labels_utf8(name));
        assert(spec_questions_plain_len(qs) == spec_name_plain_len(name) + 4
            + spec_questions_plain_len(qs.drop_first()));
        lemma_questions_plain_len(qs.drop_first());
        lemma_encode_name_decodes(buf, table, name, buf.len() as int);
        lemma_encode_name_grows(buf, table, name);
        let (bn, tn) = spec_encode_name(buf, table, name);
        let tv = qs[0].qtype.spec_value();
        let cv = qs[0].qclass.spec_value();
        let bq = bn.push((tv / 256) as u8).push((tv % 256) as u8).push((cv / 256) as u8).push(
            (cv % 256) as u8,
        );
        lemma_encode_questions_grows(bq, tn, qs.drop_first());
        assert(spec_encode_questions(bq, tn, qs.drop_first()) == (b2, t2));
        assert(bq.subrange(0, bn.len() as int) =~= bn);
        assert(b2.subrange(0, bn.len() as int) =~= b2.subrange(0, bq.len() as int).subrange(
            0,
            bn.len() as int,
        ));
        assert(data.subrange(0, bn.len() as int) =~= data.subrange(0, b2.len() as int).subrange(
            0,
            bn.len() as int,
        ));
        assert(data.subrange(0, bq.len() as int) =~= data.subrange(0, b2.len() as int).subrange(
            0,
            bq.len() as int,
        ));
        // the name decodes in the final buffer
        lemma_decodes_to_frame(bn, data, buf.len() as int, name, bn.len() as int, buf.len() as int);
        assert(crate::labels::wf_visited(data, Set::<int>::empty()));
        assert(spec_decode_name(data, buf.len() as int, Set::<int>::empty()) == NameOut::Done(
            NameOk { labels: name, end: bn.len() as int },
        ));
        // the type and class values follow it
        assert(forall|i: int| 0 <= i < bq.len() ==> data[i] == #[trigger] bq[i]) by {
            assert(forall|i: int|
                0 <= i < bq.len() ==> #[trigger] bq[i] == data.subrange(0, bq.len() as int)[i]);
        }
        assert(bq[bn.len() as int] == (tv / 256) as u8);
        assert(bq[bn.len() as int + 1] == (tv % 256) as u8);
        assert(bq[bn.len() as int + 2] == (cv / 256) as u8);
        assert(bq[bn.len() as int + 3] == (cv % 256) as u8);
        assert(data[bn.len() as int] == (tv / 256) as u8);
        assert(data[bn.len() as int + 1] == (tv % 256) as u8);
        assert(data[bn.len() as int + 2] == (cv / 256) as u8);
        assert(data[bn.len() as int + 3] == (cv % 256) as u8);
        assert(spec_u16_at(data, bn.len() as int) == tv);
        assert(spec_u16_at(data, bn.len() as int + 2) == cv);
        crate::enums::lemma_qtype_value_round_trip(qs[0].qtype);
        crate::enums::lemma_qclass_value_round_trip(qs[0].qclass);
        assert(crate::parser::spec_question(data, buf.len() as int) == ParseOut::Good(
            (qs[0], bq.len() as int),
        ));
        // the rest of the section decodes behind it
        assert forall|i: int| 0 <= i < tn.len() implies entry_wf(
            #[trigger] tn[i],
            bq.len() as int,
        ) && entry_decodes(bq, tn[i]) by {
            let e = tn[i];
            assert(entry_decodes(bn, e));
            let (lo, end) = choose|lo: int, end: int|
                0 <= lo <= e.1 && #[trigger] decodes_to(bn, e.1, e.0, end, lo);
            lemma_decodes_to_frame(bn, bq, e.1, e.0, end, lo);
            assert(decodes_to(bq, e.1, e.0, end, lo));
        }
        assert(forall|i: int|
            0 <= i < qs.drop_first().len() ==> (labels_wf(
                (#[trigger] qs.drop_first()[i]).labels,
            ) && labels_utf8(qs.drop_first()[i].labels))) by {
            assert(forall|i: int|
                0 <= i < qs.drop_first().len() ==> #[trigger] qs.drop_first()[i] == qs[i + 1]);
        }
        lemma_questions_decode(bq, tn, qs.drop_first(), data);
        assert(spec_questions(data, bq.len() as int, qs.drop_first().len() as nat)
            == ParseOut::Good((qs.drop_first(), b2.len() as int)));
        assert(seq![qs[0]] + qs.drop_first() =~= qs);
        assert(spec_questions(data, buf.len() as int, qs.len() as nat) == ParseOut::Good(
            (qs, b2.len() as int),
        ));
    }
}

/// Law: a message built by the builder parses back to itself. For any
/// header configuration and any question list whose labels are
/// wire-legal, hold well-formed text and fit the fixed buffer, parsing
/// the built datagram reproduces the identifier, every flag, the
/// reserved bits, the response code and the question list; the answer
/// section is empty, since the builder only emits queries.
pub proof fn lemma_build_parse_round_trip(b: BuilderV)
    requires
        builder_fits(b),
        builder_labels_utf8(b),
    ensures
        spec_parse(spec_build(b)) == ParseOut::Good(
            DnsRecordV {
                id: b.id,
                qr: b.qr,
                opcode: b.opcode,
                aa: b.aa,
                tc: false,
                rd: b.rd,
                ra: b.ra,
                dnssec: (b.z % 8) as u8,
                rcode: b.rcode,
                questions: b.questions,
                answers: Seq::empty(),
            },
        ),
{
    let header = spec_build_header(b);
    let qs = b.questions;
    lemma_questions_plain_len(qs);
    lemma_encode_questions_grows(header, Seq::empty(), qs);
    let (body, t2) = spec_encode_questions(header, Seq::empty(), qs);
    let data = spec_build(b);
    assert(data =~= body + Seq::new((512 - body.len()) as nat, |i: int| 0u8));
    assert(data.len() == 512);
    assert(data.subrange(0, body.len() as int) =~= body);
    assert(forall|i: int| 0 <= i < body.len() ==> data[i] == #[trigger] body[i]) by {
        assert(forall|i: int|
            0 <= i < body.len() ==> #[trigger] body[i] == data.subrange(0, body.len() as int)[i]);
    }
    assert(forall|i: int| 0 <= i < 12 ==> body[i] == #[trigger] header[i]) by {
        assert(forall|i: int|
            0 <= i < 12 ==> #[trigger] header[i] == body.subrange(0, 12)[i]);
    }
    // the header round-trips bit for bit
    let qrv = b.qr.spec_value();
    let opv = b.opcode.spec_value();
    let av: u8 = if b.aa {
        1
    } else {
        0
    };
    let rv: u8 = if b.rd {
        1
    } else {
        0
    };
    let rav: u8 = if b.ra {
        1
    } else {
        0
    };
    let zv: u8 = (b.z % 8) as u8;
    let rcv = b.rcode.spec_value();
    let byte2 = spec_header_byte2(b);
    let byte3 = spec_header_byte3(b);
    assert(qrv <= 1 && opv <= 2 && rcv <= 5);
    assert(byte2 == (qrv * 128 + opv * 8 + av * 4 + rv) as u8);
    assert(byte3 == (rav * 128 + zv * 16 + rcv) as u8);
    assert(byte2 / 128 == qrv && (byte2 / 8) % 16 == opv && (byte2 / 4) % 2 == av && (byte2 / 2)
        % 2 == 0 && byte2 % 2 == rv) by (bit_vector)
        requires
            byte2 == (qrv * 128 + opv * 8 + av * 4 + rv) as u8,
            qrv <= 1,
            opv <= 2,
            av <= 1,
            rv <= 1,
    ;
    assert(byte3 / 128 == rav && (byte3 / 16) % 8 == zv && byte3 % 16 == rcv) by (bit_vector)
        requires
            byte3 == (rav * 128 + zv * 16 + rcv) as u8,
            rav <= 1,
            zv <= 7,
            rcv <= 5,
    ;
    assert(data[2] == byte2 && data[3] == byte3);
    assert(crate::parser::spec_qr_bit(byte2) == b.qr);
    assert(crate::parser::spec_opcode_bits(byte2) == opv);
    assert(crate::parser::spec_aa_bit(byte2) == b.aa);
    assert(crate::parser::spec_tc_bit(byte2) == false);
    assert(crate::parser::spec_rd_bit(byte2) == b.rd);
    assert(crate::parser::spec_ra_bit(byte3) == b.ra);
    assert(crate::parser::spec_dnssec_bits(byte3) == zv);
    assert(crate::parser::spec_rcode_bits(byte3) == rcv);
    crate::enums::lemma_opcode_value_round_trip(b.opcode);
    crate::enums::lemma_rcode_value_round_trip(b.rcode);
    // the identifier and the counts
    assert(spec_u16_at(data, 0) == b.id);
    assert(qs.len() <= 100);
    assert(spec_u16_at(data, 4) == qs.len());
    assert(spec_u16_at(data, 6) == 0);
    // the question section
    lemma_questions_decode(header, Seq::empty(), qs, data);
    assert(spec_questions(data, 12, qs.len() as nat) == ParseOut::Good((qs, body.len() as int)));
    // no answers
    assert(spec_answers(data, body.len() as int, 0) == ParseOut::Good(
        (Seq::<crate::records::RecordV>::empty(), body.len() as int),
    ));
}

} // verus!
