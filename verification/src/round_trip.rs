//! The round-trip laws of the codec.
//!
//! Decoding the wire form of a well-formed message gives the message back,
//! and therefore re-encoding what was decoded from a well-formed query
//! reproduces the original bytes exactly. Records with unrecognized type
//! codes decode without failing and re-encode their captured header fields,
//! losing only the payload they never stored.

use vstd::prelude::*;

use crate::message::{
    spec_class_code, spec_class_of, spec_header_bytes, spec_is_query, spec_message_bytes,
    spec_query_type_code, spec_query_type_of, spec_question_bytes, spec_questions_bytes,
    spec_read_header, spec_read_message, spec_read_question, spec_read_questions,
    spec_read_record, spec_read_records, spec_record_bytes, spec_records_bytes, Class, Header,
    MessageView, QueryType, QuestionView, RecordView,
};
use crate::name::{
    lemma_read_encoded_name, name_wf, spec_joined, spec_name_bytes, spec_read_name,
};
use crate::stream::{
    lemma_u16_of_be, lemma_u32_of_be, spec_u16_be, spec_u16_of, spec_u32_be, spec_u32_of,
    DnsError,
};

verus! {

/// A question whose wire form decodes back to it: a well-formed name.
pub open spec fn question_wf(q: QuestionView) -> bool {
    name_wf(q.name)
}

/// A record whose wire form decodes back to it: a well-formed name, and for
/// the catch-all variant a type code that really is unrecognized (a code
/// denoting `A` would decode to the `A` variant instead).
pub open spec fn record_wf(r: RecordView) -> bool {
    match r {
        RecordView::UNKNOWN { name, type_code, class, ttl, len } => name_wf(name)
            && spec_query_type_of(type_code) != QueryType::A,
        RecordView::A { name, class, addr, ttl } => name_wf(name) && addr.len() == 4,
    }
}

/// A message whose wire form decodes back to it: every header count equals
/// the length of its section, and every name is well-formed.
pub open spec fn message_wf(m: MessageView) -> bool {
    &&& m.header.questions as int == m.questions.len()
    &&& m.header.awnsers as int == m.answers.len()
    &&& m.header.authority_entries as int == m.authority.len()
    &&& m.header.ressource_entries as int == m.resources.len()
    &&& (forall|i: int| 0 <= i < m.questions.len() ==> question_wf(#[trigger] m.questions[i]))
    &&& (forall|i: int| 0 <= i < m.answers.len() ==> record_wf(#[trigger] m.answers[i]))
    &&& (forall|i: int| 0 <= i < m.authority.len() ==> record_wf(#[trigger] m.authority[i]))
    &&& (forall|i: int| 0 <= i < m.resources.len() ==> record_wf(#[trigger] m.resources[i]))
}

/// Reading a 16-bit field back from its embedded wire form.
proof fn lemma_read_embedded_u16(bytes: Seq<u8>, pos: int, x: u16)
    requires
        0 <= pos,
        pos + 2 <= bytes.len(),
        bytes[pos] == spec_u16_be(x)[0],
        bytes[pos + 1] == spec_u16_be(x)[1],
    ensures
        spec_u16_of(bytes[pos], bytes[pos + 1]) == x,
{
    lemma_u16_of_be(x);
}

/// Reading a 32-bit field back from its embedded wire form.
proof fn lemma_read_embedded_u32(bytes: Seq<u8>, pos: int, x: u32)
    requires
        0 <= pos,
        pos + 4 <= bytes.len(),
        forall|i: int| 0 <= i < 4 ==> bytes[pos + i] == #[trigger] spec_u32_be(x)[i],
    ensures
        spec_u32_of(bytes[pos], bytes[pos + 1], bytes[pos + 2], bytes[pos + 3]) == x,
{
    assert(bytes[pos] == spec_u32_be(x)[0]);
    assert(bytes[pos + 1] == spec_u32_be(x)[1]);
    assert(bytes[pos + 2] == spec_u32_be(x)[2]);
    assert(bytes[pos + 3] == spec_u32_be(x)[3]);
    lemma_u32_of_be(x);
}

/// Reading a header back from its embedded wire form.
proof fn lemma_read_encoded_header(bytes: Seq<u8>, pos: int, h: Header)
    requires
        0 <= pos,
        pos + 12 <= bytes.len(),
        bytes.subrange(pos, pos + 12) == spec_header_bytes(h),
    ensures
        spec_read_header(bytes, pos) == Ok::<_, DnsError>((h, pos + 12)),
{
    let hb = spec_header_bytes(h);
    assert forall|i: int| 0 <= i < 12 implies bytes[pos + i] == hb[i] by {
        assert(bytes.subrange(pos, pos + 12)[i] == bytes[pos + i]);
    }
    assert(spec_u16_of(bytes[pos], bytes[pos + 1]) == h.id) by {
        assert(hb[0] == spec_u16_be(h.id)[0] && hb[1] == spec_u16_be(h.id)[1]);
        lemma_u16_of_be(h.id);
    }
    assert(spec_u16_of(bytes[pos + 2], bytes[pos + 3]) == h.flags) by {
        assert(hb[2] == spec_u16_be(h.flags)[0] && hb[3] == spec_u16_be(h.flags)[1]);
        lemma_u16_of_be(h.flags);
    }
    assert(spec_u16_of(bytes[pos + 4], bytes[pos + 5]) == h.questions) by {
        assert(hb[4] == spec_u16_be(h.questions)[0] && hb[5] == spec_u16_be(h.questions)[1]);
        lemma_u16_of_be(h.questions);
    }
    assert(spec_u16_of(bytes[pos + 6], bytes[pos + 7]) == h.awnsers) by {
        assert(hb[6] == spec_u16_be(h.awnsers)[0] && hb[7] == spec_u16_be(h.awnsers)[1]);
        lemma_u16_of_be(h.awnsers);
    }
    assert(spec_u16_of(bytes[pos + 8], bytes[pos + 9]) == h.authority_entries) by {
        assert(hb[8] == spec_u16_be(h.authority_entries)[0] && hb[9] == spec_u16_be(
            h.authority_entries,
        )[1]);
        lemma_u16_of_be(h.authority_entries);
    }
    assert(spec_u16_of(bytes[pos + 10], bytes[pos + 11]) == h.ressource_entries) by {
        assert(hb[10] == spec_u16_be(h.ressource_entries)[0] && hb[11] == spec_u16_be(
            h.ressource_entries,
        )[1]);
        lemma_u16_of_be(h.ressource_entries);
    }
}

/// The wire code of a query type decodes back to it.
proof fn lemma_query_type_code_of(t: QueryType)
    ensures
        spec_query_type_of(spec_query_type_code(t)) == t,
{
}

/// The wire code of a class decodes back to it; `UNKNOWN` is written as 256,
/// which no modelled class uses.
proof fn lemma_class_code_of(c: Class)
    ensures
        spec_class_of(spec_class_code(c)) == c,
{
}

/// Reading a question back from its embedded wire form.
proof fn lemma_read_encoded_question(bytes: Seq<u8>, pos: int, q: QuestionView)
    requires
        question_wf(q),
        0 <= pos,
        pos + spec_question_bytes(q).len() <= bytes.len(),
        bytes.subrange(pos, pos + spec_question_bytes(q).len()) == spec_question_bytes(q),
    ensures
        spec_read_question(bytes, pos) == Ok::<_, DnsError>(
            (q, pos + spec_question_bytes(q).len()),
        ),
{
    let qb = spec_question_bytes(q);
    let nb = spec_name_bytes(q.name);
    let ln = nb.len() as int;
    let tb = spec_u16_be(spec_query_type_code(q.qtype));
    let cb = spec_u16_be(spec_class_code(q.class));
    assert forall|i: int| 0 <= i < qb.len() implies bytes[pos + i] == qb[i] by {
        assert(bytes.subrange(pos, pos + qb.len() as int)[i] == bytes[pos + i]);
    }
    assert(bytes.subrange(pos, pos + ln) =~= nb) by {
        assert forall|i: int| 0 <= i < ln implies bytes[pos + i] == nb[i] by {
            assert(qb[i] == nb[i]);
        }
    }
    lemma_read_encoded_name(bytes, pos, Seq::<char>::empty(), q.name);
    assert(spec_joined(Seq::<char>::empty(), q.name) == q.name);
    let p1 = pos + ln;
    assert(bytes[p1] == tb[0] && bytes[p1 + 1] == tb[1]) by {
        assert(qb[ln] == tb[0]);
        assert(qb[ln + 1] == tb[1]);
    }
    lemma_read_embedded_u16(bytes, p1, spec_query_type_code(q.qtype));
    assert(bytes[p1 + 2] == cb[0] && bytes[p1 + 3] == cb[1]) by {
        assert(qb[ln + 2] == cb[0]);
        assert(qb[ln + 3] == cb[1]);
    }
    lemma_read_embedded_u16(bytes, p1 + 2, spec_class_code(q.class));
    lemma_query_type_code_of(q.qtype);
    lemma_class_code_of(q.class);
    assert(spec_read_question(bytes, pos) == Ok::<_, DnsError>((
        QuestionView {
            name: q.name,
            qtype: spec_query_type_of(spec_query_type_code(q.qtype)),
            class: spec_class_of(spec_class_code(q.class)),
        },
        p1 + 4,
    )));
    assert(QuestionView {
        name: q.name,
        qtype: spec_query_type_of(spec_query_type_code(q.qtype)),
        class: spec_class_of(spec_class_code(q.class)),
    } =~= q);
}

/// Reading a record back from its embedded wire form.
proof fn lemma_read_encoded_record(bytes: Seq<u8>, pos: int, r: RecordView)
    requires
        record_wf(r),
        0 <= pos,
        pos + spec_record_bytes(r).len() <= bytes.len(),
        bytes.subrange(pos, pos + spec_record_bytes(r).len()) == spec_record_bytes(r),
    ensures
        spec_read_record(bytes, pos) == Ok::<_, DnsError>((r, pos + spec_record_bytes(r).len())),
{
    let rb = spec_record_bytes(r);
    assert forall|i: int| 0 <= i < rb.len() implies bytes[pos + i] == rb[i] by {
        assert(bytes.subrange(pos, pos + rb.len() as int)[i] == bytes[pos + i]);
    }
    match r {
        RecordView::UNKNOWN { name, type_code, class, ttl, len } => {
            let nb = spec_name_bytes(name);
            let ln = nb.len() as int;
            let tb = spec_u16_be(type_code);
            let cb = spec_u16_be(spec_class_code(class));
            let ttlb = spec_u32_be(ttl);
            let lb = spec_u16_be(len);
            assert(bytes.subrange(pos, pos + ln) =~= nb) by {
                assert forall|i: int| 0 <= i < ln implies bytes[pos + i] == nb[i] by {
                    assert(rb[i] == nb[i]);
                }
            }
            lemma_read_encoded_name(bytes, pos, Seq::<char>::empty(), name);
            assert(spec_joined(Seq::<char>::empty(), name) == name);
            let p1 = pos + ln;
            assert(bytes[p1] == tb[0] && bytes[p1 + 1] == tb[1]) by {
                assert(rb[ln] == tb[0] && rb[ln + 1] == tb[1]);
            }
            lemma_read_embedded_u16(bytes, p1, type_code);
            assert(bytes[p1 + 2] == cb[0] && bytes[p1 + 3] == cb[1]) by {
                assert(rb[ln + 2] == cb[0] && rb[ln + 3] == cb[1]);
            }
            lemma_read_embedded_u16(bytes, p1 + 2, spec_class_code(class));
            assert forall|i: int| 0 <= i < 4 implies bytes[p1 + 4 + i] == #[trigger] ttlb[i] by {
                assert(rb[ln + 4 + i] == ttlb[i]);
            }
            lemma_read_embedded_u32(bytes, p1 + 4, ttl);
            assert(bytes[p1 + 8] == lb[0] && bytes[p1 + 9] == lb[1]) by {
                assert(rb[ln + 8] == lb[0] && rb[ln + 9] == lb[1]);
            }
            lemma_read_embedded_u16(bytes, p1 + 8, len);
            lemma_class_code_of(class);
            assert(RecordView::UNKNOWN {
                name,
                type_code,
                class: spec_class_of(spec_class_code(class)),
                ttl,
                len,
            } =~= r);
        },
        RecordView::A { name, class, addr, ttl } => {
            let nb = spec_name_bytes(name);
            let ln = nb.len() as int;
            let tb = spec_u16_be(1);
            let cb = spec_u16_be(spec_class_code(class));
            let ttlb = spec_u32_be(ttl);
            let lb = spec_u16_be(4);
            assert(bytes.subrange(pos, pos + ln) =~= nb) by {
                assert forall|i: int| 0 <= i < ln implies bytes[pos + i] == nb[i] by {
                    assert(rb[i] == nb[i]);
                }
            }
            lemma_read_encoded_name(bytes, pos, Seq::<char>::empty(), name);
            assert(spec_joined(Seq::<char>::empty(), name) == name);
            let p1 = pos + ln;
            assert(bytes[p1] == tb[0] && bytes[p1 + 1] == tb[1]) by {
                assert(rb[ln] == tb[0] && rb[ln + 1] == tb[1]);
            }
            lemma_read_embedded_u16(bytes, p1, 1);
            assert(bytes[p1 + 2] == cb[0] && bytes[p1 + 3] == cb[1]) by {
                assert(rb[ln + 2] == cb[0] && rb[ln + 3] == cb[1]);
            }
            lemma_read_embedded_u16(bytes, p1 + 2, spec_class_code(class));
            assert forall|i: int| 0 <= i < 4 implies bytes[p1 + 4 + i] == #[trigger] ttlb[i] by {
                assert(rb[ln + 4 + i] == ttlb[i]);
            }
            lemma_read_embedded_u32(bytes, p1 + 4, ttl);
            assert(bytes[p1 + 8] == lb[0] && bytes[p1 + 9] == lb[1]) by {
                assert(rb[ln + 8] == lb[0] && rb[ln + 9] == lb[1]);
            }
            lemma_read_embedded_u16(bytes, p1 + 8, 4);
            assert(spec_query_type_of(1) == QueryType::A);
            let p5 = p1 + 10;
            assert(bytes.subrange(p5, p5 + 4) =~= addr) by {
                assert forall|i: int| 0 <= i < 4 implies bytes[p5 + i] == addr[i] by {
                    assert(rb[ln + 10 + i] == addr[i]);
                }
            }
            lemma_class_code_of(class);
            assert(RecordView::A {
                name,
                class: spec_class_of(spec_class_code(class)),
                addr: bytes.subrange(p5, p5 + 4),
                ttl,
            } =~= r);
        },
    }
}

/// Reading a question list back from its embedded wire form.
proof fn lemma_read_encoded_questions(bytes: Seq<u8>, pos: int, qs: Seq<QuestionView>)
    requires
        forall|i: int| 0 <= i < qs.len() ==> question_wf(#[trigger] qs[i]),
        0 <= pos,
        pos + spec_questions_bytes(qs).len() <= bytes.len(),
        bytes.subrange(pos, pos + spec_questions_bytes(qs).len()) == spec_questions_bytes(qs),
    ensures
        spec_read_questions(bytes, pos, qs.len() as int) == Ok::<_, DnsError>(
            (qs, pos + spec_questions_bytes(qs).len()),
        ),
    decreases qs.len(),
{
    if qs.len() == 0 {
        assert(qs =~= Seq::<QuestionView>::empty());
    } else {
        let qb = spec_questions_bytes(qs);
        let hb = spec_question_bytes(qs[0]);
        let restb = spec_questions_bytes(qs.drop_first());
        assert(qb == hb + restb);
        assert forall|i: int| 0 <= i < qb.len() implies bytes[pos + i] == qb[i] by {
            assert(bytes.subrange(pos, pos + qb.len() as int)[i] == bytes[pos + i]);
        }
        assert(bytes.subrange(pos, pos + hb.len() as int) =~= hb) by {
            assert forall|i: int| 0 <= i < hb.len() implies bytes[pos + i] == hb[i] by {
                assert(qb[i] == hb[i]);
            }
        }
        lemma_read_encoded_question(bytes, pos, qs[0]);
        let p1 = pos + hb.len() as int;
        assert(bytes.subrange(p1, p1 + restb.len() as int) =~= restb) by {
            assert forall|i: int| 0 <= i < restb.len() implies bytes[p1 + i] == restb[i] by {
                assert(qb[hb.len() + i] == restb[i]);
            }
        }
        assert forall|i: int| 0 <= i < qs.drop_first().len() implies question_wf(
            #[trigger] qs.drop_first()[i],
        ) by {
            assert(qs.drop_first()[i] == qs[i + 1]);
        }
        lemma_read_encoded_questions(bytes, p1, qs.drop_first());
        assert(seq![qs[0]] + qs.drop_first() =~= qs);
    }
}

/// Reading a record list back from its embedded wire form.
proof fn lemma_read_encoded_records(bytes: Seq<u8>, pos: int, rs: Seq<RecordView>)
    requires
        forall|i: int| 0 <= i < rs.len() ==> record_wf(#[trigger] rs[i]),
        0 <= pos,
        pos + spec_records_bytes(rs).len() <= bytes.len(),
        bytes.subrange(pos, pos + spec_records_bytes(rs).len()) == spec_records_bytes(rs),
    ensures
        spec_read_records(bytes, pos, rs.len() as int) == Ok::<_, DnsError>(
            (rs, pos + spec_records_bytes(rs).len()),
        ),
    decreases rs.len(),
{
    if rs.len() == 0 {
        assert(rs =~= Seq::<RecordView>::empty());
    } else {
        let rb = spec_records_bytes(rs);
        let hb = spec_record_bytes(rs[0]);
        let restb = spec_records_bytes(rs.drop_first());
        assert(rb == hb + restb);
        assert forall|i: int| 0 <= i < rb.len() implies bytes[pos + i] == rb[i] by {
            assert(bytes.subrange(pos, pos + rb.len() as int)[i] == bytes[pos + i]);
        }
        assert(bytes.subrange(pos, pos + hb.len() as int) =~= hb) by {
            assert forall|i: int| 0 <= i < hb.len() implies bytes[pos + i] == hb[i] by {
                assert(rb[i] == hb[i]);
            }
        }
        lemma_read_encoded_record(bytes, pos, rs[0]);
        let p1 = pos + hb.len() as int;
        assert(bytes.subrange(p1, p1 + restb.len() as int) =~= restb) by {
            assert forall|i: int| 0 <= i < restb.len() implies bytes[p1 + i] == restb[i] by {
                assert(rb[hb.len() + i] == restb[i]);
            }
        }
        assert forall|i: int| 0 <= i < rs.drop_first().len() implies record_wf(
            #[trigger] rs.drop_first()[i],
        ) by {
            assert(rs.drop_first()[i] == rs[i + 1]);
        }
        lemma_read_encoded_records(bytes, p1, rs.drop_first());
        assert(seq![rs[0]] + rs.drop_first() =~= rs);
    }
}

/// Law: decoding the wire form of a well-formed message gives the message
/// back and consumes every byte.
#[verifier::rlimit(50)]
pub proof fn lemma_message_round_trip(m: MessageView)
    requires
        message_wf(m),
    ensures
        spec_read_message(spec_message_bytes(m), 0) == Ok::<_, DnsError>(
            (m, spec_message_bytes(m).len() as int),
        ),
{
    let bytes = spec_message_bytes(m);
    let hb = spec_header_bytes(m.header);
    let qb = spec_questions_bytes(m.questions);
    let ab = spec_records_bytes(m.answers);
    let authb = spec_records_bytes(m.authority);
    let resb = spec_records_bytes(m.resources);
    let o1 = 12int;
    let o2 = o1 + qb.len() as int;
    let o3 = o2 + ab.len() as int;
    let o4 = o3 + authb.len() as int;
    let o5 = o4 + resb.len() as int;
    let s1 = hb + qb;
    let s2 = s1 + ab;
    let s3 = s2 + authb;
    assert(bytes == s3 + resb);
    assert(hb.len() == 12);
    assert(bytes.len() as int == o5);
    assert(bytes.subrange(0, 12) =~= hb) by {
        assert forall|i: int| 0 <= i < 12 implies bytes[i] == hb[i] by {
            assert(s1[i] == hb[i]);
            assert(s2[i] == s1[i]);
            assert(s3[i] == s2[i]);
        }
    }
    lemma_read_encoded_header(bytes, 0, m.header);
    assert(bytes.subrange(o1, o2) =~= qb) by {
        assert forall|i: int| 0 <= i < qb.len() implies bytes[o1 + i] == qb[i] by {
            assert(s1[o1 + i] == qb[i]);
            assert(s2[o1 + i] == s1[o1 + i]);
            assert(s3[o1 + i] == s2[o1 + i]);
        }
    }
    lemma_read_encoded_questions(bytes, o1, m.questions);
    assert(bytes.subrange(o2, o3) =~= ab) by {
        assert forall|i: int| 0 <= i < ab.len() implies bytes[o2 + i] == ab[i] by {
            assert(s2[o2 + i] == ab[i]);
            assert(s3[o2 + i] == s2[o2 + i]);
        }
    }
    lemma_read_encoded_records(bytes, o2, m.answers);
    assert(bytes.subrange(o3, o4) =~= authb) by {
        assert forall|i: int| 0 <= i < authb.len() implies bytes[o3 + i] == authb[i] by {
            assert(s3[o3 + i] == authb[i]);
        }
    }
    lemma_read_encoded_records(bytes, o3, m.authority);
    assert(bytes.subrange(o4, o5) =~= resb) by {
        assert forall|i: int| 0 <= i < resb.len() implies bytes[o4 + i] == resb[i] by {}
    }
    lemma_read_encoded_records(bytes, o4, m.resources);
    assert(spec_read_message(bytes, 0) == Ok::<_, DnsError>((
        MessageView {
            header: m.header,
            questions: m.questions,
            answers: m.answers,
            authority: m.authority,
            resources: m.resources,
        },
        o5,
    )));
    assert(MessageView {
        header: m.header,
        questions: m.questions,
        answers: m.answers,
        authority: m.authority,
        resources: m.resources,
    } =~= m);
}

/// A message that is a well-formed single-question query: one question, no
/// records, the query/response bit clear, and consistent counts.
pub open spec fn query_message_wf(m: MessageView) -> bool {
    &&& message_wf(m)
    &&& m.questions.len() == 1
    &&& m.answers.len() == 0
    &&& m.authority.len() == 0
    &&& m.resources.len() == 0
    &&& spec_is_query(m.header.flags)
}

/// A byte sequence that is the wire form of some well-formed
/// single-question query.
pub open spec fn wf_query_bytes(bytes: Seq<u8>) -> bool {
    exists|m: MessageView| query_message_wf(m) && bytes == #[trigger] spec_message_bytes(m)
}

/// Law: a well-formed single-question query round-trips byte-exactly —
/// decoding succeeds, consumes the whole buffer, and re-encoding the decoded
/// message reproduces the original bytes.
pub proof fn lemma_query_round_trip(bytes: Seq<u8>)
    requires
        wf_query_bytes(bytes),
    ensures
        spec_read_message(bytes, 0) matches Ok((m, pos)) && spec_message_bytes(m) == bytes && pos
            == bytes.len(),
{
    let m = choose|m: MessageView|
        query_message_wf(m) && bytes == #[trigger] spec_message_bytes(m);
    lemma_message_round_trip(m);
}

/// Law: a record with an unrecognized type code still decodes — whenever its
/// name decodes and the ten header-field bytes are present — keeping the raw
/// type code, the class and the ttl; and its re-encoded wire form carries
/// that type code, class and ttl again, followed by the declared payload
/// length and nothing else: the payload bytes themselves are not preserved.
pub proof fn lemma_unknown_record_lossy(bytes: Seq<u8>, pos: int, name: Seq<char>, p1: int)
    requires
        spec_read_name(bytes, pos, Seq::<char>::empty()) == Ok::<_, DnsError>((name, p1)),
        0 <= p1,
        p1 + 10 <= bytes.len(),
        spec_query_type_of(spec_u16_of(bytes[p1], bytes[p1 + 1])) != QueryType::A,
    ensures
        spec_read_record(bytes, pos) == Ok::<_, DnsError>(
            (
                RecordView::UNKNOWN {
                    name,
                    type_code: spec_u16_of(bytes[p1], bytes[p1 + 1]),
                    class: spec_class_of(spec_u16_of(bytes[p1 + 2], bytes[p1 + 3])),
                    ttl: spec_u32_of(
                        bytes[p1 + 4],
                        bytes[p1 + 5],
                        bytes[p1 + 6],
                        bytes[p1 + 7],
                    ),
                    len: spec_u16_of(bytes[p1 + 8], bytes[p1 + 9]),
                },
                p1 + 10,
            ),
        ),
        spec_record_bytes(
            RecordView::UNKNOWN {
                name,
                type_code: spec_u16_of(bytes[p1], bytes[p1 + 1]),
                class: spec_class_of(spec_u16_of(bytes[p1 + 2], bytes[p1 + 3])),
                ttl: spec_u32_of(bytes[p1 + 4], bytes[p1 + 5], bytes[p1 + 6], bytes[p1 + 7]),
                len: spec_u16_of(bytes[p1 + 8], bytes[p1 + 9]),
            },
        ) == spec_name_bytes(name) + spec_u16_be(spec_u16_of(bytes[p1], bytes[p1 + 1]))
            + spec_u16_be(
            spec_class_code(spec_class_of(spec_u16_of(bytes[p1 + 2], bytes[p1 + 3]))),
        ) + spec_u32_be(
            spec_u32_of(bytes[p1 + 4], bytes[p1 + 5], bytes[p1 + 6], bytes[p1 + 7]),
        ) + spec_u16_be(spec_u16_of(bytes[p1 + 8], bytes[p1 + 9])),
{
}

} // verus!
