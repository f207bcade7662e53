use vstd::prelude::*;
use crate::buffer::moved;
use crate::buffer::PacketBuffer;
use crate::parse::parse_header;
use crate::parse::parse_packet;
use crate::protocol::DnsHeader;
use crate::protocol::DnsPacket;
use crate::protocol::PacketModel;
use crate::protocol::ResultCode;

verus! {

/// What a datagram is to the server.
pub enum Received {
    /// A message: it is answered.
    Query(DnsPacket),
    /// Octets whose header can be read but not the rest: they are answered
    /// with this message, which says that the format is wrong.
    Malformed(DnsPacket),
    /// Octets without a header: they are not answered.
    Dropped,
}

/// The message that says that a message with the id `id` was malformed.
pub open spec fn format_error(id: u16) -> PacketModel {
    PacketModel {
        header: DnsHeader { id, response: true, rescode: ResultCode::FORMERR, ..DnsHeader::blank() },
        questions: Seq::empty(),
        answers: Seq::empty(),
        authorities: Seq::empty(),
        resources: Seq::empty(),
    }
}

/// The reply to the query `query` whose lookup ended with `result`: the
/// sections and the result code of `result`, under the id of the query, with
/// the questions of the query, marked as a response, and marked as one of a
/// server that looks names up where `recursion` says so.
pub open spec fn replied(query: PacketModel, result: PacketModel, recursion: bool) -> PacketModel {
    PacketModel {
        header: DnsHeader {
            id: query.header.id,
            response: true,
            recursion_desired: query.header.recursion_desired,
            recursion_available: recursion,
            ..result.header
        },
        questions: query.questions,
        ..result
    }
}

/// The reply to the query `query` whose lookup ended with `result`.
pub fn reply_to(query: DnsPacket, result: DnsPacket, recursion: bool) -> (reply: DnsPacket)
    ensures
        reply@ == replied(query@, result@, recursion),
{
    let mut reply = result;
    reply.header.id = query.header.id;
    reply.header.response = true;
    reply.header.recursion_desired = query.header.recursion_desired;
    reply.header.recursion_available = recursion;
    reply.questions = query.questions;
    reply
}

/// Reads the datagram at the cursor. Where it is a message, the cursor ends
/// behind the message; else it is left where it was.
pub fn receive<T: PacketBuffer>(buffer: &mut T) -> (r: Received)
    requires
        old(buffer).wf(),
    ensures
        final(buffer).wf(),
        match parse_packet(old(buffer).model().bytes, old(buffer).model().cursor as int) {
            Ok((packet, end)) => r matches Received::Query(p) && p@ == packet && moved(
                old(buffer).model(),
                final(buffer).model(),
                end as nat,
            ),
            Err(_) => final(buffer).model() == old(buffer).model() && match parse_header(
                old(buffer).model().bytes,
                old(buffer).model().cursor as int,
            ) {
                Ok((header, _)) => r matches Received::Malformed(p) && p@ == format_error(header.id),
                Err(_) => r is Dropped,
            },
        },
{
    let start = buffer.pos();
    proof {
        buffer.lemma_wf();
    }
    match DnsPacket::from_buffer(buffer) {
        Ok(packet) => Received::Query(packet),
        Err(_) => {
            let mut header = DnsHeader::new();
            match header.read(buffer) {
                Ok(()) => {
                    let _ = buffer.seek(start);
                    let mut reply = DnsPacket::new();
                    reply.header.id = header.id;
                    reply.header.response = true;
                    reply.header.rescode = ResultCode::FORMERR;
                    Received::Malformed(reply)
                },
                Err(_) => Received::Dropped,
            }
        },
    }
}

} // verus!
