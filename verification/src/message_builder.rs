//! A phase-typed message builder.
//!
//! A builder is tagged `Request` or `Response` at the type level, so the
//! mutators of one phase cannot be called in the other. `build` is the one
//! place that assembles a `Header`, deriving the four counts from the final
//! list lengths, which is what keeps header counts and section lengths
//! consistent across the crate.

use core::marker::PhantomData;
use vstd::prelude::*;

use crate::message::{
    spec_is_query, spec_result_code_to, Class, Header, Ipv4Address, Message, MessageView,
    QueryType, Question, QuestionView, Record, RecordView, ResultCode,
};

verus! {

/// Phase tag: a message being composed as a fresh query.
pub struct Request;

/// Phase tag: a message being composed as a reply.
pub struct Response;

/// The mathematical content of a builder: the header fields chosen so far
/// and the four sections.
#[verifier::ext_equal]
pub struct BuilderView {
    pub id: u16,
    pub flags: u16,
    pub questions: Seq<QuestionView>,
    pub answers: Seq<RecordView>,
    pub authority: Seq<RecordView>,
    pub resources: Seq<RecordView>,
}

/// A message under construction, tagged with its phase.
pub struct MessageBuilder<T> {
    id: u16,
    flags: u16,
    questions: Vec<Question>,
    answers: Vec<Record>,
    authority: Vec<Record>,
    resources: Vec<Record>,
    phantom: PhantomData<T>,
}

impl<T> View for MessageBuilder<T> {
    type V = BuilderView;

    closed spec fn view(&self) -> BuilderView {
        BuilderView {
            id: self.id,
            flags: self.flags,
            questions: self.questions.deep_view(),
            answers: self.answers.deep_view(),
            authority: self.authority.deep_view(),
            resources: self.resources.deep_view(),
        }
    }
}

/// The builder a response starts from: the request's id, only the
/// query/response bit set, the questions copied verbatim, and the three
/// record sections empty.
pub open spec fn spec_from_request(m: MessageView) -> BuilderView {
    BuilderView {
        id: m.header.id,
        flags: 0x8000u16,
        questions: m.questions,
        answers: Seq::empty(),
        authority: Seq::empty(),
        resources: Seq::empty(),
    }
}

/// The message a builder assembles: its id and flags as chosen, and every
/// header count derived from the length of its section (reduced to the low
/// sixteen bits, as a count field cannot hold more).
pub open spec fn spec_build(b: BuilderView) -> MessageView {
    MessageView {
        header: Header {
            id: b.id,
            flags: b.flags,
            questions: (b.questions.len() % 0x10000) as u16,
            awnsers: (b.answers.len() % 0x10000) as u16,
            authority_entries: (b.authority.len() % 0x10000) as u16,
            ressource_entries: (b.resources.len() % 0x10000) as u16,
        },
        questions: b.questions,
        answers: b.answers,
        authority: b.authority,
        resources: b.resources,
    }
}

impl MessageBuilder<Response> {
    /// Seeds a response from a decoded request: keeps its id, sets the
    /// query/response bit, moves the questions over, and starts with empty
    /// answer, authority and resource sections.
    pub fn from_request(message: Message) -> (r: MessageBuilder<Response>)
        ensures
            r@ == spec_from_request(message@),
    {
        let r = MessageBuilder {
            id: message.header.id,
            flags: 0b1000000000000000,
            questions: message.questions,
            answers: Vec::new(),
            authority: Vec::new(),
            resources: Vec::new(),
            phantom: PhantomData,
        };
        proof {
            assert(r@ =~= spec_from_request(message@));
        }
        r
    }

    /// Sets the authoritative-answer bit.
    pub fn set_is_authoritive(self) -> (r: Self)
        ensures
            r@ == (BuilderView { flags: self@.flags | 0x0400u16, ..self@ }),
    {
        let ghost s0 = self@;
        let mut this = self;
        this.flags = this.flags | 0b0000010000000000;
        proof {
            assert(this@ =~= (BuilderView { flags: s0.flags | 0x0400u16, ..s0 }));
        }
        this
    }

    /// Sets the recursion-available bit.
    pub fn set_recursive_available(self) -> (r: Self)
        ensures
            r@ == (BuilderView { flags: self@.flags | 0x0080u16, ..self@ }),
    {
        let ghost s0 = self@;
        let mut this = self;
        this.flags = this.flags | 0b0000000010000000;
        proof {
            assert(this@ =~= (BuilderView { flags: s0.flags | 0x0080u16, ..s0 }));
        }
        this
    }

    /// Replaces the four result-code bits with the given code.
    pub fn set_status_code(self, rcode: ResultCode) -> (r: Self)
        ensures
            r@ == (BuilderView {
                flags: (self@.flags & 0xFFF0u16) | spec_result_code_to(rcode) as u16,
                ..self@
            }),
    {
        let ghost s0 = self@;
        let mut this = self;
        let code = rcode.to();
        this.flags = (this.flags & 0b1111111111110000) | (code as u16);
        proof {
            assert(this@ =~= (BuilderView {
                flags: (s0.flags & 0xFFF0u16) | spec_result_code_to(rcode) as u16,
                ..s0
            }));
        }
        this
    }

    /// Replaces the answer section.
    pub fn set_answers(self, answers: Vec<Record>) -> (r: Self)
        ensures
            r@ == (BuilderView { answers: answers.deep_view(), ..self@ }),
    {
        let ghost s0 = self@;
        let mut this = self;
        this.answers = answers;
        proof {
            assert(this@ =~= (BuilderView { answers: this.answers.deep_view(), ..s0 }));
        }
        this
    }

    /// Appends one answer record.
    pub fn add_answers(self, answer: Record) -> (r: Self)
        ensures
            r@ == (BuilderView { answers: self@.answers.push(answer@), ..self@ }),
    {
        let ghost s0 = self@;
        let mut this = self;
        this.answers.push(answer);
        proof {
            assert(this.answers.deep_view() =~= s0.answers.push(answer@));
            assert(this@ =~= (BuilderView {
                answers: s0.answers.push(answer@),
                ..s0
            }));
        }
        this
    }

    /// Appends an `A` answer record for the given name and address.
    #[allow(non_snake_case)]
    pub fn add_typeA_answer(self, name: String, addr: Ipv4Address, ttl: u32) -> (r: Self)
        ensures
            r@ == (BuilderView {
                answers: self@.answers.push(
                    RecordView::A { name: name@, class: Class::IN, addr: addr@, ttl },
                ),
                ..self@
            }),
    {
        let ghost s0 = self@;
        let mut this = self;
        this.answers.push(Record::new_type_a(name, addr, ttl));
        proof {
            assert(this@ =~= (BuilderView {
                answers: s0.answers.push(
                    RecordView::A { name: name@, class: Class::IN, addr: addr@, ttl },
                ),
                ..s0
            }));
        }
        this
    }

    /// Replaces the authority section.
    pub fn set_authority(self, authority: Vec<Record>) -> (r: Self)
        ensures
            r@ == (BuilderView { authority: authority.deep_view(), ..self@ }),
    {
        let ghost s0 = self@;
        let mut this = self;
        this.authority = authority;
        proof {
            assert(this@ =~= (BuilderView { authority: this.authority.deep_view(), ..s0 }));
        }
        this
    }

    /// Appends one authority record.
    pub fn add_authority(self, authority: Record) -> (r: Self)
        ensures
            r@ == (BuilderView { authority: self@.authority.push(authority@), ..self@ }),
    {
        let ghost s0 = self@;
        let mut this = self;
        this.authority.push(authority);
        proof {
            assert(this.authority.deep_view() =~= s0.authority.push(authority@));
            assert(this@ =~= (BuilderView {
                authority: s0.authority.push(authority@),
                ..s0
            }));
        }
        this
    }

    /// Appends an `A` authority record for the given name and address.
    #[allow(non_snake_case)]
    pub fn add_typeA_authority(self, name: String, addr: Ipv4Address, ttl: u32) -> (r: Self)
        ensures
            r@ == (BuilderView {
                authority: self@.authority.push(
                    RecordView::A { name: name@, class: Class::IN, addr: addr@, ttl },
                ),
                ..self@
            }),
    {
        let ghost s0 = self@;
        let mut this = self;
        this.authority.push(Record::new_type_a(name, addr, ttl));
        proof {
            assert(this@ =~= (BuilderView {
                authority: s0.authority.push(
                    RecordView::A { name: name@, class: Class::IN, addr: addr@, ttl },
                ),
                ..s0
            }));
        }
        this
    }

    /// Replaces the additional-resource section.
    pub fn set_resources(self, resources: Vec<Record>) -> (r: Self)
        ensures
            r@ == (BuilderView { resources: resources.deep_view(), ..self@ }),
    {
        let ghost s0 = self@;
        let mut this = self;
        this.resources = resources;
        proof {
            assert(this@ =~= (BuilderView { resources: this.resources.deep_view(), ..s0 }));
        }
        this
    }

    /// Appends one additional-resource record.
    pub fn add_resources(self, resources: Record) -> (r: Self)
        ensures
            r@ == (BuilderView { resources: self@.resources.push(resources@), ..self@ }),
    {
        let ghost s0 = self@;
        let mut this = self;
        this.resources.push(resources);
        proof {
            assert(this.resources.deep_view() =~= s0.resources.push(resources@));
            assert(this@ =~= (BuilderView {
                resources: s0.resources.push(resources@),
                ..s0
            }));
        }
        this
    }

    /// Appends an `A` additional-resource record for the given name and
    /// address.
    #[allow(non_snake_case)]
    pub fn add_typeA_resources(self, name: String, addr: Ipv4Address, ttl: u32) -> (r: Self)
        ensures
            r@ == (BuilderView {
                resources: self@.resources.push(
                    RecordView::A { name: name@, class: Class::IN, addr: addr@, ttl },
                ),
                ..self@
            }),
    {
        let ghost s0 = self@;
        let mut this = self;
        this.resources.push(Record::new_type_a(name, addr, ttl));
        proof {
            assert(this@ =~= (BuilderView {
                resources: s0.resources.push(
                    RecordView::A { name: name@, class: Class::IN, addr: addr@, ttl },
                ),
                ..s0
            }));
        }
        this
    }
}

impl MessageBuilder<Request> {
    /// Starts a fresh query with the given id, no flags and empty sections.
    pub fn new_request(id: u16) -> (r: MessageBuilder<Request>)
        ensures
            r@ == (BuilderView {
                id,
                flags: 0u16,
                questions: Seq::empty(),
                answers: Seq::empty(),
                authority: Seq::empty(),
                resources: Seq::empty(),
            }),
    {
        let r = MessageBuilder {
            id,
            flags: 0b0000000000000000,
            questions: Vec::new(),
            answers: Vec::new(),
            authority: Vec::new(),
            resources: Vec::new(),
            phantom: PhantomData,
        };
        proof {
            assert(r@ =~= (BuilderView {
                id,
                flags: 0u16,
                questions: Seq::empty(),
                answers: Seq::empty(),
                authority: Seq::empty(),
                resources: Seq::empty(),
            }));
        }
        r
    }

    /// Sets the recursion-desired bit.
    pub fn set_recursion_desired(self) -> (r: Self)
        ensures
            r@ == (BuilderView { flags: self@.flags | 0x0100u16, ..self@ }),
    {
        let ghost s0 = self@;
        let mut this = self;
        this.flags = this.flags | 0b0000000100000000;
        proof {
            assert(this@ =~= (BuilderView { flags: s0.flags | 0x0100u16, ..s0 }));
        }
        this
    }

    /// Replaces the question section.
    pub fn set_questions(self, questions: Vec<Question>) -> (r: Self)
        ensures
            r@ == (BuilderView { questions: questions.deep_view(), ..self@ }),
    {
        let ghost s0 = self@;
        let mut this = self;
        this.questions = questions;
        proof {
            assert(this@ =~= (BuilderView { questions: this.questions.deep_view(), ..s0 }));
        }
        this
    }

    /// Appends one question.
    pub fn add_question(self, question: Question) -> (r: Self)
        ensures
            r@ == (BuilderView { questions: self@.questions.push(question@), ..self@ }),
    {
        let ghost s0 = self@;
        let mut this = self;
        this.questions.push(question);
        proof {
            assert(this.questions.deep_view() =~= s0.questions.push(question@));
            assert(this@ =~= (BuilderView {
                questions: s0.questions.push(question@),
                ..s0
            }));
        }
        this
    }

    /// Appends a question built from its three fields.
    pub fn add_new_question(self, name: String, qtype: QueryType, class: Class) -> (r: Self)
        ensures
            r@ == (BuilderView {
                questions: self@.questions.push(QuestionView { name: name@, qtype, class }),
                ..self@
            }),
    {
        let ghost s0 = self@;
        let mut this = self;
        this.questions.push(Question { name, qtype, class });
        proof {
            assert(this@ =~= (BuilderView {
                questions: s0.questions.push(QuestionView { name: name@, qtype, class }),
                ..s0
            }));
        }
        this
    }
}

impl<T> MessageBuilder<T> {
    /// Assembles the final message. This is the only place a header is
    /// built from a builder, and every count is derived from the length of
    /// its section, so a built message always has consistent counts.
    pub fn build(self) -> (r: Message)
        ensures
            r@ == spec_build(self@),
    {
        let m = Message {
            header: Header {
                id: self.id,
                flags: self.flags,
                questions: (self.questions.len() % 0x10000) as u16,
                awnsers: (self.answers.len() % 0x10000) as u16,
                authority_entries: (self.authority.len() % 0x10000) as u16,
                ressource_entries: (self.resources.len() % 0x10000) as u16,
            },
            questions: self.questions,
            answers: self.answers,
            authority: self.authority,
            resources: self.resources,
        };
        proof {
            assert(m@ =~= spec_build(self@));
        }
        m
    }
}

/// Law: building straight from a request preserves the request's id, marks
/// the result as a response (the query/response bit is set), copies the
/// questions verbatim, and leaves the answer, authority and resource
/// sections empty.
pub proof fn lemma_from_request_build(req: MessageView)
    ensures
        spec_build(spec_from_request(req)).header.id == req.header.id,
        !spec_is_query(spec_build(spec_from_request(req)).header.flags),
        spec_build(spec_from_request(req)).questions == req.questions,
        spec_build(spec_from_request(req)).answers == Seq::<RecordView>::empty(),
        spec_build(spec_from_request(req)).authority == Seq::<RecordView>::empty(),
        spec_build(spec_from_request(req)).resources == Seq::<RecordView>::empty(),
{
    assert(0x8000u16 & 0x8000u16 != 0) by (bit_vector);
}

} // verus!
