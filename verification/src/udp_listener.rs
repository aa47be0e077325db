//! The per-datagram work of the dispatch loop: decode the request, build a
//! canned reply, encode it. The loop itself — binding the socket, receiving
//! datagrams, spawning one unit of work per datagram and sending the reply —
//! is byte-level I/O and lives outside this crate; it hands each datagram's
//! bytes to `process` and sends back whatever bytes come out.

use vstd::prelude::*;

use crate::message::{
    spec_message_bytes, spec_read_message, Class, Ipv4Address, Message, MessageView, RecordView,
};
use crate::message_builder::{spec_build, spec_from_request, BuilderView, MessageBuilder};
use crate::stream::{DnsError, DnsReader, DnsWriter};

verus! {

/// The fixed answer every reply carries, whatever was asked: an `A` record
/// for one hard-wired name and address.
pub open spec fn spec_canned_answer() -> RecordView {
    RecordView::A {
        name: "google.pt"@,
        class: Class::IN,
        addr: seq![192u8, 168u8, 1u8, 254u8],
        ttl: 10000u32,
    }
}

/// The reply built for a request: a response seeded from the request with
/// the one canned answer appended.
pub open spec fn spec_canned_response(req: MessageView) -> MessageView {
    spec_build(
        BuilderView { answers: seq![spec_canned_answer()], ..spec_from_request(req) },
    )
}

/// The dispatcher: it decides, per datagram, what reply the bytes get.
pub struct UdpListener {}

impl UdpListener {
    pub fn new() -> (r: UdpListener) {
        UdpListener {  }
    }

    /// Builds the reply to a decoded request: a response carrying the
    /// request's id and questions and the one canned answer, ignoring what
    /// was actually asked.
    pub fn build_message(request: Message) -> (r: Message)
        ensures
            r@ == spec_canned_response(request@),
    {
        let builder = MessageBuilder::from_request(request);
        let addr = Ipv4Address::new(192, 168, 1, 254);
        let builder = builder.add_typeA_answer(String::from_str("google.pt"), addr, 10000);
        let m = builder.build();
        proof {
            assert(Seq::<RecordView>::empty().push(spec_canned_answer()) =~= seq![
                spec_canned_answer(),
            ]);
            assert(m@ =~= spec_canned_response(request@));
        }
        m
    }

    /// The whole per-datagram computation: decodes the bytes as a message,
    /// builds the canned reply, and encodes it. A datagram that does not
    /// decode yields the decode error, and the caller drops it without
    /// replying.
    pub fn process(data: Vec<u8>) -> (r: Result<Vec<u8>, DnsError>)
        ensures
            match spec_read_message(data@, 0) {
                Ok((m, pos)) => r matches Ok(out) && out@ == spec_message_bytes(
                    spec_canned_response(m),
                ),
                Err(e) => r == Err::<Vec<u8>, DnsError>(e),
            },
    {
        let mut reader = DnsReader::from(data);
        let msg = reader.read()?;
        let resp = Self::build_message(msg);
        let buf: Vec<u8> = Vec::new();
        let mut writer = DnsWriter::from(buf);
        writer.write(&resp)?;
        Ok(writer.into_bytes())
    }
}

} // verus!
