//! The DNS message data model and its codec: the fixed 12-byte header with
//! packed flag bits, questions, resource records (an `A` variant and a lossy
//! catch-all for unrecognized type codes), and whole messages.
//!
//! Every decoder is specified against a `spec_read_*` function over byte
//! sequences and every encoder against a `spec_*_bytes` function; the
//! round-trip laws relating the two live in `round_trip`.

use vstd::prelude::*;

use crate::name::{read_dns_encoded_name, spec_name_bytes, spec_read_name, write_dns_encoded_name};
use crate::stream::{
    spec_read_u16, spec_read_u32, spec_u16_be, spec_u16_of, spec_u32_be, spec_u32_of, DnsError,
    DnsReader, DnsWriter,
};

verus! {

/// The result/status code carried in the low four bits of the header flags.
/// Codes above five are not modelled and decode to `UNKNOWN`.
#[derive(Debug, Clone, Copy, PartialEq, Eq, Structural)]
pub enum ResultCode {
    NOERROR,
    FORMERR,
    SERVFAIL,
    NXDOMAIN,
    NOTIMP,
    REFUSED,
    UNKNOWN,
}

/// The result code a wire value denotes; values above five are `UNKNOWN`.
pub open spec fn spec_result_code_of(num: u8) -> ResultCode {
    if num == 0 {
        ResultCode::NOERROR
    } else if num == 1 {
        ResultCode::FORMERR
    } else if num == 2 {
        ResultCode::SERVFAIL
    } else if num == 3 {
        ResultCode::NXDOMAIN
    } else if num == 4 {
        ResultCode::NOTIMP
    } else if num == 5 {
        ResultCode::REFUSED
    } else {
        ResultCode::UNKNOWN
    }
}

/// The wire value a result code is written as; `UNKNOWN` becomes six.
pub open spec fn spec_result_code_to(rc: ResultCode) -> u8 {
    match rc {
        ResultCode::NOERROR => 0,
        ResultCode::FORMERR => 1,
        ResultCode::SERVFAIL => 2,
        ResultCode::NXDOMAIN => 3,
        ResultCode::NOTIMP => 4,
        ResultCode::REFUSED => 5,
        ResultCode::UNKNOWN => 6,
    }
}

impl ResultCode {
    pub fn from(num: u8) -> (r: ResultCode)
        ensures
            r == spec_result_code_of(num),
    {
        match num {
            0 => ResultCode::NOERROR,
            1 => ResultCode::FORMERR,
            2 => ResultCode::SERVFAIL,
            3 => ResultCode::NXDOMAIN,
            4 => ResultCode::NOTIMP,
            5 => ResultCode::REFUSED,
            _ => ResultCode::UNKNOWN,
        }
    }

    pub fn to(&self) -> (r: u8)
        ensures
            r == spec_result_code_to(*self),
    {
        match self {
            ResultCode::NOERROR => 0,
            ResultCode::FORMERR => 1,
            ResultCode::SERVFAIL => 2,
            ResultCode::NXDOMAIN => 3,
            ResultCode::NOTIMP => 4,
            ResultCode::REFUSED => 5,
            ResultCode::UNKNOWN => 6,
        }
    }
}

/// The query/response bit is clear.
pub open spec fn spec_is_query(flags: u16) -> bool {
    flags & 0x8000 == 0
}

/// The four opcode bits.
pub open spec fn spec_op_code(flags: u16) -> u8 {
    ((flags >> 11) & 0xF) as u8
}

/// The authoritative-answer bit.
pub open spec fn spec_is_authoritative(flags: u16) -> bool {
    flags & 0x0400 != 0
}

/// The truncation bit.
pub open spec fn spec_is_truncated(flags: u16) -> bool {
    flags & 0x0200 != 0
}

/// The recursion-desired bit.
pub open spec fn spec_is_recursion_desired(flags: u16) -> bool {
    flags & 0x0100 != 0
}

/// The recursion-available bit.
pub open spec fn spec_is_recursion_available(flags: u16) -> bool {
    flags & 0x0080 != 0
}

/// The four result-code bits.
pub open spec fn spec_rcode_bits(flags: u16) -> u8 {
    (flags & 0xF) as u8
}

/// The fixed 12-byte message header: an id, a 16-bit flag field, and the
/// counts of the four sections that follow. The counts are only meaningful
/// when they match the section lengths; the builder is the one place that
/// guarantees this.
#[derive(Debug, Clone, Copy, PartialEq, Eq, Structural)]
pub struct Header {
    pub id: u16,
    pub flags: u16,
    pub questions: u16,
    pub awnsers: u16,
    pub authority_entries: u16,
    pub ressource_entries: u16,
}

/// The twelve bytes of a header: six big-endian 16-bit fields in fixed order.
pub open spec fn spec_header_bytes(h: Header) -> Seq<u8> {
    spec_u16_be(h.id) + spec_u16_be(h.flags) + spec_u16_be(h.questions) + spec_u16_be(h.awnsers)
        + spec_u16_be(h.authority_entries) + spec_u16_be(h.ressource_entries)
}

/// What reading a header from `bytes` at `pos` yields: the six fields in
/// fixed order, or `EndOfStream` when fewer than twelve bytes remain.
pub open spec fn spec_read_header(bytes: Seq<u8>, pos: int) -> Result<(Header, int), DnsError> {
    if pos < 0 || pos + 12 > bytes.len() {
        Err(DnsError::EndOfStream)
    } else {
        Ok(
            (
                Header {
                    id: spec_u16_of(bytes[pos], bytes[pos + 1]),
                    flags: spec_u16_of(bytes[pos + 2], bytes[pos + 3]),
                    questions: spec_u16_of(bytes[pos + 4], bytes[pos + 5]),
                    awnsers: spec_u16_of(bytes[pos + 6], bytes[pos + 7]),
                    authority_entries: spec_u16_of(bytes[pos + 8], bytes[pos + 9]),
                    ressource_entries: spec_u16_of(bytes[pos + 10], bytes[pos + 11]),
                },
                pos + 12,
            ),
        )
    }
}

impl Header {
    /// A header with every field zero.
    pub fn new() -> (h: Header)
        ensures
            h.id == 0,
            h.flags == 0,
            h.questions == 0,
            h.awnsers == 0,
            h.authority_entries == 0,
            h.ressource_entries == 0,
    {
        Header { id: 0, flags: 0, questions: 0, awnsers: 0, authority_entries: 0, ressource_entries: 0 }
    }

    pub fn is_query(&self) -> (r: bool)
        ensures
            r == spec_is_query(self.flags),
    {
        let f = self.flags;
        proof {
            assert(((f & 0b1000000000000000) >> 15 == 0) == (f & 0x8000 == 0)) by (bit_vector);
        }
        (f & 0b1000000000000000) >> 15 == 0
    }

    pub fn op_code(&self) -> (r: u8)
        ensures
            r == spec_op_code(self.flags),
    {
        let f = self.flags;
        proof {
            assert((f & 0b0111100000000000) >> 11 == (f >> 11) & 0xF && (f >> 11) & 0xF < 256)
                by (bit_vector);
        }
        ((f & 0b0111100000000000) >> 11) as u8
    }

    pub fn is_authoritative(&self) -> (r: bool)
        ensures
            r == spec_is_authoritative(self.flags),
    {
        let f = self.flags;
        proof {
            assert(((f & 0b0000010000000000) >> 10 == 1) == (f & 0x0400 != 0)) by (bit_vector);
        }
        (f & 0b0000010000000000) >> 10 == 1
    }

    pub fn is_truncated(&self) -> (r: bool)
        ensures
            r == spec_is_truncated(self.flags),
    {
        let f = self.flags;
        proof {
            assert(((f & 0b0000001000000000) >> 9 == 1) == (f & 0x0200 != 0)) by (bit_vector);
        }
        (f & 0b0000001000000000) >> 9 == 1
    }

    pub fn is_recursion_desired(&self) -> (r: bool)
        ensures
            r == spec_is_recursion_desired(self.flags),
    {
        let f = self.flags;
        proof {
            assert(((f & 0b0000000100000000) >> 8 == 1) == (f & 0x0100 != 0)) by (bit_vector);
        }
        (f & 0b0000000100000000) >> 8 == 1
    }

    pub fn is_recursion_available(&self) -> (r: bool)
        ensures
            r == spec_is_recursion_available(self.flags),
    {
        let f = self.flags;
        proof {
            assert(((f & 0b0000000010000000) >> 7 == 1) == (f & 0x0080 != 0)) by (bit_vector);
        }
        (f & 0b0000000010000000) >> 7 == 1
    }

    pub fn result_code(&self) -> (r: ResultCode)
        ensures
            r == spec_result_code_of(spec_rcode_bits(self.flags)),
    {
        let f = self.flags;
        proof {
            assert(f & 0b0000000000001111 < 256) by (bit_vector);
        }
        let result_code = (f & 0b0000000000001111) as u8;
        ResultCode::from(result_code)
    }

    /// Reads the six header fields in fixed order; fails with `EndOfStream`
    /// when fewer than twelve bytes remain, leaving the cursor unspecified.
    pub fn from(reader: &mut DnsReader) -> (r: Result<Header, DnsError>)
        requires
            old(reader).wf(),
        ensures
            final(reader).wf(),
            final(reader).bytes() == old(reader).bytes(),
            match r {
                Ok(h) => spec_read_header(old(reader).bytes(), old(reader).position())
                    == Ok::<_, DnsError>((h, final(reader).position())),
                Err(e) => spec_read_header(old(reader).bytes(), old(reader).position())
                    == Err::<(Header, int), DnsError>(e),
            },
    {
        let id = reader.read_u16()?;
        let flags = reader.read_u16()?;
        let questions = reader.read_u16()?;
        let awnsers = reader.read_u16()?;
        let authority_entries = reader.read_u16()?;
        let ressource_entries = reader.read_u16()?;
        Ok(Header { id, flags, questions, awnsers, authority_entries, ressource_entries })
    }

    /// Writes the six header fields in fixed order.
    pub fn write(&self, writer: &mut DnsWriter) -> (r: Result<(), DnsError>)
        ensures
            r == Ok::<(), DnsError>(()),
            final(writer).bytes() == old(writer).bytes() + spec_header_bytes(*self),
    {
        writer.write_u16(self.id);
        writer.write_u16(self.flags);
        writer.write_u16(self.questions);
        writer.write_u16(self.awnsers);
        writer.write_u16(self.authority_entries);
        writer.write_u16(self.ressource_entries);
        proof {
            assert(writer.bytes() =~= old(writer).bytes() + spec_header_bytes(*self));
        }
        Ok(())
    }
}

/// The type of a question or record, with a catch-all for wire codes that
/// are not modelled; those decode to `UNKNOWN` rather than failing.
#[derive(Debug, Clone, Copy, PartialEq, Eq, Hash, PartialOrd, Ord, Structural)]
pub enum QueryType {
    A,
    AAAA,
    UNKNOWN,
}

/// The query type a wire code denotes.
pub open spec fn spec_query_type_of(value: u16) -> QueryType {
    if value == 1 {
        QueryType::A
    } else if value == 28 {
        QueryType::AAAA
    } else {
        QueryType::UNKNOWN
    }
}

/// The wire code a query type is written as; `UNKNOWN` becomes zero.
pub open spec fn spec_query_type_code(t: QueryType) -> u16 {
    match t {
        QueryType::A => 1,
        QueryType::AAAA => 28,
        QueryType::UNKNOWN => 0,
    }
}

impl QueryType {
    pub fn from(value: u16) -> (r: QueryType)
        ensures
            r == spec_query_type_of(value),
    {
        match value {
            1 => QueryType::A,
            28 => QueryType::AAAA,
            _ => QueryType::UNKNOWN,
        }
    }

    pub fn as_u16(self) -> (r: u16)
        ensures
            r == spec_query_type_code(self),
    {
        self.to_u16()
    }

    pub fn to_u16(&self) -> (r: u16)
        ensures
            r == spec_query_type_code(*self),
    {
        match self {
            QueryType::A => 1,
            QueryType::AAAA => 28,
            QueryType::UNKNOWN => 0,
        }
    }
}

/// The class of a question or record, with a catch-all for wire codes that
/// are not modelled; those decode to `UNKNOWN` rather than failing.
#[derive(Debug, Clone, Copy, PartialEq, Eq, Hash, PartialOrd, Ord, Structural)]
pub enum Class {
    UNKNOWN,
    RESERVED,
    IN,
    QCLASSNONE,
    QCLASSANY,
}

/// The class a wire code denotes.
pub open spec fn spec_class_of(value: u16) -> Class {
    if value == 0 {
        Class::RESERVED
    } else if value == 1 {
        Class::IN
    } else if value == 254 {
        Class::QCLASSNONE
    } else if value == 255 {
        Class::QCLASSANY
    } else {
        Class::UNKNOWN
    }
}

/// The wire code a class is written as; `UNKNOWN` becomes 256, a value no
/// modelled class uses.
pub open spec fn spec_class_code(c: Class) -> u16 {
    match c {
        Class::RESERVED => 0,
        Class::IN => 1,
        Class::QCLASSNONE => 254,
        Class::QCLASSANY => 255,
        Class::UNKNOWN => 256,
    }
}

impl Class {
    pub fn from(value: u16) -> (r: Class)
        ensures
            r == spec_class_of(value),
    {
        match value {
            0 => Class::RESERVED,
            1 => Class::IN,
            254 => Class::QCLASSNONE,
            255 => Class::QCLASSANY,
            _ => Class::UNKNOWN,
        }
    }

    pub fn as_u16(self) -> (r: u16)
        ensures
            r == spec_class_code(self),
    {
        self.to_u16()
    }

    pub fn to_u16(&self) -> (r: u16)
        ensures
            r == spec_class_code(*self),
    {
        match self {
            Class::RESERVED => 0,
            Class::IN => 1,
            Class::QCLASSNONE => 254,
            Class::QCLASSANY => 255,
            Class::UNKNOWN => 256,
        }
    }
}

/// A four-octet IPv4 address held as plain bytes, most significant first.
#[derive(Debug, Clone, Copy, PartialEq, Eq)]
pub struct Ipv4Address {
    pub octets: [u8; 4],
}

impl View for Ipv4Address {
    type V = Seq<u8>;

    open spec fn view(&self) -> Seq<u8> {
        self.octets@
    }
}

impl Ipv4Address {
    pub fn new(a: u8, b: u8, c: u8, d: u8) -> (r: Ipv4Address)
        ensures
            r@ == seq![a, b, c, d],
    {
        let r = Ipv4Address { octets: [a, b, c, d] };
        proof {
            assert(r@ =~= seq![a, b, c, d]);
        }
        r
    }

    pub fn octets(&self) -> (r: [u8; 4])
        ensures
            r@ == self@,
    {
        self.octets
    }
}

/// One entry of the question section: a dotted name, a query type and a
/// class.
#[derive(Debug, Clone, PartialEq, Eq)]
pub struct Question {
    pub name: String,
    pub qtype: QueryType,
    pub class: Class,
}

/// The mathematical content of a `Question`: its name as a character
/// sequence.
#[verifier::ext_equal]
pub struct QuestionView {
    pub name: Seq<char>,
    pub qtype: QueryType,
    pub class: Class,
}

impl View for Question {
    type V = QuestionView;

    open spec fn view(&self) -> QuestionView {
        QuestionView { name: self.name@, qtype: self.qtype, class: self.class }
    }
}

impl DeepView for Question {
    type V = QuestionView;

    open spec fn deep_view(&self) -> QuestionView {
        self@
    }
}

/// A resource record. Only `A` payloads are modelled; any other type code
/// decodes to `UNKNOWN`, which keeps the record header fields but never
/// captures the payload bytes — it is lossy by design.
#[derive(Debug, Clone, PartialEq, Eq)]
pub enum Record {
    UNKNOWN { name: String, type_code: u16, class: Class, ttl: u32, len: u16 },
    A { name: String, class: Class, addr: Ipv4Address, ttl: u32 },
}

/// The mathematical content of a `Record`.
#[verifier::ext_equal]
pub enum RecordView {
    UNKNOWN { name: Seq<char>, type_code: u16, class: Class, ttl: u32, len: u16 },
    A { name: Seq<char>, class: Class, addr: Seq<u8>, ttl: u32 },
}

impl View for Record {
    type V = RecordView;

    open spec fn view(&self) -> RecordView {
        match self {
            Record::UNKNOWN { name, type_code, class, ttl, len } => RecordView::UNKNOWN {
                name: name@,
                type_code: *type_code,
                class: *class,
                ttl: *ttl,
                len: *len,
            },
            Record::A { name, class, addr, ttl } => RecordView::A {
                name: name@,
                class: *class,
                addr: addr@,
                ttl: *ttl,
            },
        }
    }
}

impl DeepView for Record {
    type V = RecordView;

    open spec fn deep_view(&self) -> RecordView {
        self@
    }
}

/// A whole DNS message: the header and the four sections in wire order.
/// One is built per datagram and discarded once the reply is sent.
#[derive(Debug, Clone, PartialEq, Eq)]
pub struct Message {
    pub header: Header,
    pub questions: Vec<Question>,
    pub answers: Vec<Record>,
    pub authority: Vec<Record>,
    pub resources: Vec<Record>,
}

/// The mathematical content of a `Message`.
#[verifier::ext_equal]
pub struct MessageView {
    pub header: Header,
    pub questions: Seq<QuestionView>,
    pub answers: Seq<RecordView>,
    pub authority: Seq<RecordView>,
    pub resources: Seq<RecordView>,
}

impl View for Message {
    type V = MessageView;

    open spec fn view(&self) -> MessageView {
        MessageView {
            header: self.header,
            questions: self.questions.deep_view(),
            answers: self.answers.deep_view(),
            authority: self.authority.deep_view(),
            resources: self.resources.deep_view(),
        }
    }
}

/// The wire bytes of a question: its name, then the type and class codes.
pub open spec fn spec_question_bytes(q: QuestionView) -> Seq<u8> {
    spec_name_bytes(q.name) + spec_u16_be(spec_query_type_code(q.qtype)) + spec_u16_be(
        spec_class_code(q.class),
    )
}

/// The wire bytes of a record. An `A` record carries its four address
/// octets after a payload length of four; an `UNKNOWN` record re-writes its
/// captured header fields and no payload bytes at all, whatever its `len`
/// field claims.
pub open spec fn spec_record_bytes(r: RecordView) -> Seq<u8> {
    match r {
        RecordView::UNKNOWN { name, type_code, class, ttl, len } => spec_name_bytes(name)
            + spec_u16_be(type_code) + spec_u16_be(spec_class_code(class)) + spec_u32_be(ttl)
            + spec_u16_be(len),
        RecordView::A { name, class, addr, ttl } => spec_name_bytes(name) + spec_u16_be(1)
            + spec_u16_be(spec_class_code(class)) + spec_u32_be(ttl) + spec_u16_be(4) + addr,
    }
}

/// The wire bytes of a question list, in order.
pub open spec fn spec_questions_bytes(qs: Seq<QuestionView>) -> Seq<u8>
    decreases qs.len(),
{
    if qs.len() == 0 {
        Seq::empty()
    } else {
        spec_question_bytes(qs[0]) + spec_questions_bytes(qs.drop_first())
    }
}

/// The wire bytes of a record list, in order.
pub open spec fn spec_records_bytes(rs: Seq<RecordView>) -> Seq<u8>
    decreases rs.len(),
{
    if rs.len() == 0 {
        Seq::empty()
    } else {
        spec_record_bytes(rs[0]) + spec_records_bytes(rs.drop_first())
    }
}

/// The wire bytes of a whole message: header, then the four sections. The
/// counts written are the header's own; nothing recomputes them here.
pub open spec fn spec_message_bytes(m: MessageView) -> Seq<u8> {
    spec_header_bytes(m.header) + spec_questions_bytes(m.questions) + spec_records_bytes(m.answers)
        + spec_records_bytes(m.authority) + spec_records_bytes(m.resources)
}

/// What reading one question from `bytes` at `pos` yields.
pub open spec fn spec_read_question(bytes: Seq<u8>, pos: int) -> Result<(QuestionView, int), DnsError> {
    match spec_read_name(bytes, pos, Seq::<char>::empty()) {
        Err(e) => Err(e),
        Ok((name, p1)) => match spec_read_u16(bytes, p1) {
            Err(e) => Err(e),
            Ok((t, p2)) => match spec_read_u16(bytes, p2) {
                Err(e) => Err(e),
                Ok((c, p3)) => Ok(
                    (QuestionView { name, qtype: spec_query_type_of(t), class: spec_class_of(c) }, p3),
                ),
            },
        },
    }
}

/// What reading one record from `bytes` at `pos` yields. The record header
/// (name, type, class, ttl, payload length) is always read; an `A` type then
/// consumes its four address octets, while any other type consumes nothing
/// further — the declared payload is left in the stream, so an `UNKNOWN`
/// record that is not the last item leaves everything after it misaligned.
pub open spec fn spec_read_record(bytes: Seq<u8>, pos: int) -> Result<(RecordView, int), DnsError> {
    match spec_read_name(bytes, pos, Seq::<char>::empty()) {
        Err(e) => Err(e),
        Ok((name, p1)) => match spec_read_u16(bytes, p1) {
            Err(e) => Err(e),
            Ok((t, p2)) => match spec_read_u16(bytes, p2) {
                Err(e) => Err(e),
                Ok((c, p3)) => match spec_read_u32(bytes, p3) {
                    Err(e) => Err(e),
                    Ok((ttl, p4)) => match spec_read_u16(bytes, p4) {
                        Err(e) => Err(e),
                        Ok((len, p5)) => if spec_query_type_of(t) == QueryType::A {
                            if p5 + 4 <= bytes.len() {
                                Ok(
                                    (
                                        RecordView::A {
                                            name,
                                            class: spec_class_of(c),
                                            addr: bytes.subrange(p5, p5 + 4),
                                            ttl,
                                        },
                                        p5 + 4,
                                    ),
                                )
                            } else {
                                Err(DnsError::EndOfStream)
                            }
                        } else {
                            Ok(
                                (
                                    RecordView::UNKNOWN {
                                        name,
                                        type_code: t,
                                        class: spec_class_of(c),
                                        ttl,
                                        len,
                                    },
                                    p5,
                                ),
                            )
                        },
                    },
                },
            },
        },
    }
}

/// What reading `n` questions in a row yields.
pub open spec fn spec_read_questions(bytes: Seq<u8>, pos: int, n: int) -> Result<
    (Seq<QuestionView>, int),
    DnsError,
>
    decreases n,
{
    if n <= 0 {
        Ok((Seq::empty(), pos))
    } else {
        match spec_read_question(bytes, pos) {
            Err(e) => Err(e),
            Ok((q, p1)) => match spec_read_questions(bytes, p1, n - 1) {
                Err(e) => Err(e),
                Ok((qs, p2)) => Ok((seq![q] + qs, p2)),
            },
        }
    }
}

/// What reading `n` records in a row yields.
pub open spec fn spec_read_records(bytes: Seq<u8>, pos: int, n: int) -> Result<
    (Seq<RecordView>, int),
    DnsError,
>
    decreases n,
{
    if n <= 0 {
        Ok((Seq::empty(), pos))
    } else {
        match spec_read_record(bytes, pos) {
            Err(e) => Err(e),
            Ok((r, p1)) => match spec_read_records(bytes, p1, n - 1) {
                Err(e) => Err(e),
                Ok((rs, p2)) => Ok((seq![r] + rs, p2)),
            },
        }
    }
}

/// What reading a whole message yields: the header, then exactly as many
/// questions and records as its counts claim. A header claiming more
/// entries than the buffer holds surfaces as `EndOfStream`; one claiming
/// fewer leaves trailing bytes unread.
pub open spec fn spec_read_message(bytes: Seq<u8>, pos: int) -> Result<(MessageView, int), DnsError> {
    match spec_read_header(bytes, pos) {
        Err(e) => Err(e),
        Ok((h, p1)) => match spec_read_questions(bytes, p1, h.questions as int) {
            Err(e) => Err(e),
            Ok((qs, p2)) => match spec_read_records(bytes, p2, h.awnsers as int) {
                Err(e) => Err(e),
                Ok((ans, p3)) => match spec_read_records(bytes, p3, h.authority_entries as int) {
                    Err(e) => Err(e),
                    Ok((auth, p4)) => match spec_read_records(
                        bytes,
                        p4,
                        h.ressource_entries as int,
                    ) {
                        Err(e) => Err(e),
                        Ok((res, p5)) => Ok(
                            (
                                MessageView {
                                    header: h,
                                    questions: qs,
                                    answers: ans,
                                    authority: auth,
                                    resources: res,
                                },
                                p5,
                            ),
                        ),
                    },
                },
            },
        },
    }
}

impl Question {
    /// An empty question: empty name, unknown type and class.
    pub fn new() -> (q: Question)
        ensures
            q@ == (QuestionView {
                name: Seq::<char>::empty(),
                qtype: QueryType::UNKNOWN,
                class: Class::UNKNOWN,
            }),
    {
        Question { name: String::new(), qtype: QueryType::UNKNOWN, class: Class::UNKNOWN }
    }

    /// Reads one question: its name, then the type and class codes, both of
    /// which degrade to `UNKNOWN` rather than failing.
    pub fn from(reader: &mut DnsReader) -> (r: Result<Question, DnsError>)
        requires
            old(reader).wf(),
        ensures
            final(reader).wf(),
            final(reader).bytes() == old(reader).bytes(),
            match r {
                Ok(q) => spec_read_question(old(reader).bytes(), old(reader).position())
                    == Ok::<_, DnsError>((q@, final(reader).position())),
                Err(e) => spec_read_question(old(reader).bytes(), old(reader).position())
                    == Err::<(QuestionView, int), DnsError>(e),
            },
    {
        let mut name = String::new();
        read_dns_encoded_name(reader, &mut name)?;
        let t = reader.read_u16()?;
        let c = reader.read_u16()?;
        Ok(Question { name, qtype: QueryType::from(t), class: Class::from(c) })
    }

    /// Writes the question in wire order: name, type code, class code.
    pub fn write(&self, writer: &mut DnsWriter) -> (r: Result<(), DnsError>)
        ensures
            r == Ok::<(), DnsError>(()),
            final(writer).bytes() == old(writer).bytes() + spec_question_bytes(self@),
    {
        write_dns_encoded_name(writer, self.name.as_str())?;
        writer.write_u16(self.qtype.to_u16());
        writer.write_u16(self.class.to_u16());
        proof {
            assert(writer.bytes() =~= old(writer).bytes() + spec_question_bytes(self@));
        }
        Ok(())
    }

    /// Reads `quantity` questions in a row.
    #[verifier::loop_isolation(false)]
    pub fn from_n(reader: &mut DnsReader, quantity: usize) -> (r: Result<Vec<Question>, DnsError>)
        requires
            old(reader).wf(),
        ensures
            final(reader).wf(),
            final(reader).bytes() == old(reader).bytes(),
            match r {
                Ok(qs) => spec_read_questions(
                    old(reader).bytes(),
                    old(reader).position(),
                    quantity as int,
                ) == Ok::<_, DnsError>((qs.deep_view(), final(reader).position())),
                Err(e) => spec_read_questions(
                    old(reader).bytes(),
                    old(reader).position(),
                    quantity as int,
                ) == Err::<(Seq<QuestionView>, int), DnsError>(e),
            },
    {
        let ghost bytes0 = reader.bytes();
        let ghost pos0 = reader.position();
        let mut result: Vec<Question> = Vec::new();
        let mut k: usize = 0;
        proof {
            if let Ok((qs, p)) = spec_read_questions(bytes0, pos0, quantity as int) {
                assert(result.deep_view() + qs =~= qs);
            }
        }
        while k < quantity
            invariant
                reader.wf(),
                reader.bytes() == bytes0,
                k <= quantity,
                match spec_read_questions(bytes0, reader.position(), quantity - k) {
                    Ok((qs, p)) => spec_read_questions(bytes0, pos0, quantity as int)
                        == Ok::<_, DnsError>((result.deep_view() + qs, p)),
                    Err(e) => spec_read_questions(bytes0, pos0, quantity as int) == Err::<
                        (Seq<QuestionView>, int),
                        DnsError,
                    >(e),
                },
            decreases quantity - k,
        {
            let ghost pk = reader.position();
            let ghost dv = result.deep_view();
            let q = match Question::from(reader) {
                Ok(q) => q,
                Err(e) => {
                    return Err(e);
                },
            };
            result.push(q);
            k = k + 1;
            proof {
                assert(result.deep_view() =~= dv.push(q@));
                if let Ok((qs2, p)) = spec_read_questions(bytes0, reader.position(), quantity - k) {
                    assert(dv + (seq![q@] + qs2) =~= result.deep_view() + qs2);
                }
            }
        }
        Ok(result)
    }
}

/// Writes each question of a list in order.
#[verifier::loop_isolation(false)]
pub fn write_questions(questions: &Vec<Question>, writer: &mut DnsWriter) -> (r: Result<
    (),
    DnsError,
>)
    ensures
        r == Ok::<(), DnsError>(()),
        final(writer).bytes() == old(writer).bytes() + spec_questions_bytes(
            questions.deep_view(),
        ),
{
    let ghost w0 = writer.bytes();
    let ghost dv = questions.deep_view();
    let mut i: usize = 0;
    proof {
        assert(dv.skip(0) =~= dv);
    }
    while i < questions.len()
        invariant
            i <= questions.len(),
            dv == questions.deep_view(),
            writer.bytes() + spec_questions_bytes(dv.skip(i as int)) == w0 + spec_questions_bytes(
                dv,
            ),
        decreases questions.len() - i,
    {
        let ghost wb = writer.bytes();
        match questions[i].write(writer) {
            Ok(_) => {},
            Err(e) => {
                return Err(e);
            },
        }
        proof {
            assert(dv.skip(i as int)[0] == dv[i as int]);
            assert(dv.skip(i as int).drop_first() =~= dv.skip(i + 1));
            assert(writer.bytes() + spec_questions_bytes(dv.skip(i + 1)) =~= wb
                + spec_questions_bytes(dv.skip(i as int)));
        }
        i = i + 1;
    }
    proof {
        assert(writer.bytes() =~= w0 + spec_questions_bytes(dv));
    }
    Ok(())
}

impl Record {
    /// An `A` record for the given name and address, class `IN`.
    pub fn new_type_a(name: String, addr: Ipv4Address, ttl: u32) -> (r: Record)
        ensures
            r@ == (RecordView::A { name: name@, class: Class::IN, addr: addr@, ttl }),
    {
        Record::A { name, class: Class::IN, ttl, addr }
    }

    /// Reads one record: the record header always, then the four address
    /// octets only for an `A` type. Any other type code degrades to
    /// `UNKNOWN` and never fails by itself; its declared payload is left in
    /// the stream.
    pub fn from(reader: &mut DnsReader) -> (r: Result<Record, DnsError>)
        requires
            old(reader).wf(),
        ensures
            final(reader).wf(),
            final(reader).bytes() == old(reader).bytes(),
            match r {
                Ok(rec) => spec_read_record(old(reader).bytes(), old(reader).position())
                    == Ok::<_, DnsError>((rec@, final(reader).position())),
                Err(e) => spec_read_record(old(reader).bytes(), old(reader).position())
                    == Err::<(RecordView, int), DnsError>(e),
            },
    {
        let mut name = String::new();
        read_dns_encoded_name(reader, &mut name)?;
        let qtype_u16 = reader.read_u16()?;
        let qtype = QueryType::from(qtype_u16);
        let class_u16 = reader.read_u16()?;
        let class = Class::from(class_u16);
        let ttl = reader.read_u32()?;
        let len = reader.read_u16()?;
        let ghost p5 = reader.position();
        match qtype {
            QueryType::A => {
                let a = reader.read_u8()?;
                let b = reader.read_u8()?;
                let c = reader.read_u8()?;
                let d = reader.read_u8()?;
                let addr = Ipv4Address::new(a, b, c, d);
                proof {
                    assert(addr@ =~= old(reader).bytes().subrange(p5, p5 + 4));
                }
                Ok(Record::A { name, class, addr, ttl })
            },
            _ => Ok(Record::UNKNOWN { name, type_code: qtype_u16, class, ttl, len }),
        }
    }

    /// Writes the record header, and for an `A` record the four address
    /// octets after a payload length of four. An `UNKNOWN` record re-writes
    /// its captured fields with no payload bytes, so it does not reproduce
    /// the payload it once stood for.
    pub fn write(&self, writer: &mut DnsWriter) -> (r: Result<(), DnsError>)
        ensures
            r == Ok::<(), DnsError>(()),
            final(writer).bytes() == old(writer).bytes() + spec_record_bytes(self@),
    {
        match self {
            Record::UNKNOWN { name, type_code, class, ttl, len } => {
                write_dns_encoded_name(writer, name.as_str())?;
                writer.write_u16(*type_code);
                writer.write_u16(class.to_u16());
                writer.write_u32(*ttl);
                writer.write_u16(*len);
                proof {
                    assert(writer.bytes() =~= old(writer).bytes() + spec_record_bytes(self@));
                }
            },
            Record::A { name, class, addr, ttl } => {
                write_dns_encoded_name(writer, name.as_str())?;
                writer.write_u16(1);
                writer.write_u16(class.to_u16());
                writer.write_u32(*ttl);
                writer.write_u16(4);
                let bytes = addr.octets();
                writer.write_u8(bytes[0]);
                writer.write_u8(bytes[1]);
                writer.write_u8(bytes[2]);
                writer.write_u8(bytes[3]);
                proof {
                    assert(writer.bytes() =~= old(writer).bytes() + spec_record_bytes(self@));
                }
            },
        }
        Ok(())
    }

    /// Reads `quantity` records in a row.
    #[verifier::loop_isolation(false)]
    pub fn from_n(reader: &mut DnsReader, quantity: usize) -> (r: Result<Vec<Record>, DnsError>)
        requires
            old(reader).wf(),
        ensures
            final(reader).wf(),
            final(reader).bytes() == old(reader).bytes(),
            match r {
                Ok(rs) => spec_read_records(
                    old(reader).bytes(),
                    old(reader).position(),
                    quantity as int,
                ) == Ok::<_, DnsError>((rs.deep_view(), final(reader).position())),
                Err(e) => spec_read_records(
                    old(reader).bytes(),
                    old(reader).position(),
                    quantity as int,
                ) == Err::<(Seq<RecordView>, int), DnsError>(e),
            },
    {
        let ghost bytes0 = reader.bytes();
        let ghost pos0 = reader.position();
        let mut result: Vec<Record> = Vec::new();
        let mut k: usize = 0;
        proof {
            if let Ok((rs, p)) = spec_read_records(bytes0, pos0, quantity as int) {
                assert(result.deep_view() + rs =~= rs);
            }
        }
        while k < quantity
            invariant
                reader.wf(),
                reader.bytes() == bytes0,
                k <= quantity,
                match spec_read_records(bytes0, reader.position(), quantity - k) {
                    Ok((rs, p)) => spec_read_records(bytes0, pos0, quantity as int)
                        == Ok::<_, DnsError>((result.deep_view() + rs, p)),
                    Err(e) => spec_read_records(bytes0, pos0, quantity as int) == Err::<
                        (Seq<RecordView>, int),
                        DnsError,
                    >(e),
                },
            decreases quantity - k,
        {
            let ghost dv = result.deep_view();
            let rec = match Record::from(reader) {
                Ok(rec) => rec,
                Err(e) => {
                    return Err(e);
                },
            };
            result.push(rec);
            k = k + 1;
            proof {
                assert(result.deep_view() =~= dv.push(rec@));
                if let Ok((rs2, p)) = spec_read_records(bytes0, reader.position(), quantity - k) {
                    assert(dv + (seq![rec@] + rs2) =~= result.deep_view() + rs2);
                }
            }
        }
        Ok(result)
    }
}

/// Writes each record of a list in order.
#[verifier::loop_isolation(false)]
pub fn write_records(records: &Vec<Record>, writer: &mut DnsWriter) -> (r: Result<(), DnsError>)
    ensures
        r == Ok::<(), DnsError>(()),
        final(writer).bytes() == old(writer).bytes() + spec_records_bytes(records.deep_view()),
{
    let ghost w0 = writer.bytes();
    let ghost dv = records.deep_view();
    let mut i: usize = 0;
    proof {
        assert(dv.skip(0) =~= dv);
    }
    while i < records.len()
        invariant
            i <= records.len(),
            dv == records.deep_view(),
            writer.bytes() + spec_records_bytes(dv.skip(i as int)) == w0 + spec_records_bytes(dv),
        decreases records.len() - i,
    {
        let ghost wb = writer.bytes();
        match records[i].write(writer) {
            Ok(_) => {},
            Err(e) => {
                return Err(e);
            },
        }
        proof {
            assert(dv.skip(i as int)[0] == dv[i as int]);
            assert(dv.skip(i as int).drop_first() =~= dv.skip(i + 1));
            assert(writer.bytes() + spec_records_bytes(dv.skip(i + 1)) =~= wb + spec_records_bytes(
                dv.skip(i as int),
            ));
        }
        i = i + 1;
    }
    proof {
        assert(writer.bytes() =~= w0 + spec_records_bytes(dv));
    }
    Ok(())
}

impl Message {
    /// Reads a whole message: the header, then exactly as many questions
    /// and records as the header counts claim.
    pub fn from(reader: &mut DnsReader) -> (r: Result<Message, DnsError>)
        requires
            old(reader).wf(),
        ensures
            final(reader).wf(),
            final(reader).bytes() == old(reader).bytes(),
            match r {
                Ok(m) => spec_read_message(old(reader).bytes(), old(reader).position())
                    == Ok::<_, DnsError>((m@, final(reader).position())),
                Err(e) => spec_read_message(old(reader).bytes(), old(reader).position())
                    == Err::<(MessageView, int), DnsError>(e),
            },
    {
        let header = Header::from(reader)?;
        let questions = Question::from_n(reader, header.questions as usize)?;
        let answers = Record::from_n(reader, header.awnsers as usize)?;
        let authority = Record::from_n(reader, header.authority_entries as usize)?;
        let resources = Record::from_n(reader, header.ressource_entries as usize)?;
        Ok(Message { header, questions, answers, authority, resources })
    }

    /// Writes the header and the four sections in wire order. The header
    /// counts are written as they stand; nothing recomputes them here — the
    /// builder is responsible for their consistency.
    pub fn write(&self, writer: &mut DnsWriter) -> (r: Result<(), DnsError>)
        ensures
            r == Ok::<(), DnsError>(()),
            final(writer).bytes() == old(writer).bytes() + spec_message_bytes(self@),
    {
        self.header.write(writer)?;
        write_questions(&self.questions, writer)?;
        write_records(&self.answers, writer)?;
        write_records(&self.authority, writer)?;
        write_records(&self.resources, writer)?;
        proof {
            assert(writer.bytes() =~= old(writer).bytes() + spec_message_bytes(self@));
        }
        Ok(())
    }
}

impl DnsReader {
    /// Decodes the buffer as one whole message.
    pub fn read(&mut self) -> (r: Result<Message, DnsError>)
        requires
            old(self).wf(),
        ensures
            final(self).wf(),
            final(self).bytes() == old(self).bytes(),
            match r {
                Ok(m) => spec_read_message(old(self).bytes(), old(self).position())
                    == Ok::<_, DnsError>((m@, final(self).position())),
                Err(e) => spec_read_message(old(self).bytes(), old(self).position()) == Err::<
                    (MessageView, int),
                    DnsError,
                >(e),
            },
    {
        Message::from(self)
    }
}

impl DnsWriter {
    /// Encodes one whole message into the buffer.
    pub fn write(&mut self, w: &Message) -> (r: Result<(), DnsError>)
        ensures
            r == Ok::<(), DnsError>(()),
            final(self).bytes() == old(self).bytes() + spec_message_bytes(w@),
    {
        w.write(self)
    }
}

} // verus!
