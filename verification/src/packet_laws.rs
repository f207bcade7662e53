use vstd::prelude::*;
use crate::buffer::BufferModel;
use crate::buffer::LabelRef;
use crate::codec_laws::header_readable;
use crate::codec_laws::lemma_header_round_trip;
use crate::codec_laws::lemma_questions_at;
use crate::codec_laws::lemma_records_at;
use crate::codec_laws::lemma_resolves_further;
use crate::codec_laws::questions_readable;
use crate::codec_laws::records_readable;
use crate::codec_laws::stands_at;
use crate::errors::DnsError;
use crate::name_laws::resolves;
use crate::parse::parse_header;
use crate::parse::parse_packet;
use crate::parse::parse_questions;
use crate::parse::parse_records;
use crate::protocol::DnsHeader;
use crate::protocol::PacketModel;
use crate::protocol::RecordModel;
use crate::wire::accepted;
use crate::wire::Accepted;
use crate::wire::accepted_in;
use crate::wire::and_then;
use crate::wire::appended;
use crate::wire::cut_short;
use crate::wire::emit_questions;
use crate::wire::emit_record;
use crate::wire::emit_records;
use crate::wire::Emitted;
use crate::wire::emitted_count;
use crate::wire::header_wire;
use crate::wire::layout;
use crate::wire::MAX_COUNT;
use crate::wire::sent;
use crate::wire::sent_header;
use crate::wire::sent_packet;

verus! {

/// The number of records that are sent lies between the index from which
/// they are taken and the length of the section, and is at most 65535.
pub proof fn lemma_accepted_range(
    labels: Map<Seq<u8>, LabelRef>,
    at: nat,
    recs: Seq<RecordModel>,
    from: int,
    max_size: nat,
)
    requires
        0 <= from <= recs.len(),
        from <= MAX_COUNT,
    ensures
        from <= accepted_in(labels, at, recs, from, max_size) <= recs.len(),
        accepted_in(labels, at, recs, from, max_size) <= MAX_COUNT,
    decreases recs.len() - from,
{
    if from < recs.len() && from < MAX_COUNT {
        let first = emit_record(labels, at, recs[from]);
        if at + first.bytes.len() <= max_size {
            lemma_accepted_range(first.labels, at + first.bytes.len(), recs, from + 1, max_size);
        }
    }
}

/// The records that are sent end at or before `max_size`; and where a record
/// is left out though the count had room for it, one record more would end
/// behind `max_size`.
pub proof fn lemma_accepted_size(
    labels: Map<Seq<u8>, LabelRef>,
    at: nat,
    recs: Seq<RecordModel>,
    from: int,
    max_size: nat,
)
    requires
        0 <= from <= recs.len(),
        from <= MAX_COUNT,
        at + emit_records(labels, at, recs, from).bytes.len() <= max_size,
    ensures
        ({
            let k = accepted_in(
                emit_records(labels, at, recs, from).labels,
                at + emit_records(labels, at, recs, from).bytes.len(),
                recs,
                from,
                max_size,
            );
            &&& from <= k <= recs.len()
            &&& at + emit_records(labels, at, recs, k).bytes.len() <= max_size
            &&& k < recs.len() && k < MAX_COUNT ==> at + emit_records(
                labels,
                at,
                recs,
                k + 1,
            ).bytes.len() > max_size
        }),
    decreases recs.len() - from,
{
    let before = emit_records(labels, at, recs, from);
    lemma_accepted_range(before.labels, at + before.bytes.len(), recs, from, max_size);
    if from < recs.len() && from < MAX_COUNT {
        let first = emit_record(before.labels, at + before.bytes.len(), recs[from]);
        assert(emit_records(labels, at, recs, from + 1) == and_then(before, first));
        if at + before.bytes.len() + first.bytes.len() <= max_size {
            lemma_accepted_size(labels, at, recs, from + 1, max_size);
        }
    }
}

/// Records that are read as they were written are all written.
pub proof fn lemma_all_emitted(recs: Seq<RecordModel>, upto: int)
    requires
        0 <= upto <= recs.len(),
        records_readable(recs, upto),
    ensures
        emitted_count(recs, upto) == upto,
    decreases upto,
{
    if upto > 0 {
        lemma_all_emitted(recs, upto - 1);
        assert(recs[upto - 1].emitted());
    }
}

/// No more records count as written than there are.
pub proof fn lemma_emitted_at_most(recs: Seq<RecordModel>, upto: int)
    requires
        0 <= upto,
    ensures
        emitted_count(recs, upto) <= upto,
    decreases upto,
{
    if upto > 0 {
        lemma_emitted_at_most(recs, upto - 1);
    }
}

/// How many records of each section are sent: at most as many as there are
/// and at most 65535, and none of a section behind one that is cut.
pub proof fn lemma_accepted_shape(p: PacketModel, max_size: nat)
    ensures
        0 <= accepted(p, max_size).answers <= p.answers.len(),
        0 <= accepted(p, max_size).authorities <= p.authorities.len(),
        0 <= accepted(p, max_size).resources <= p.resources.len(),
        accepted(p, max_size).answers <= MAX_COUNT,
        accepted(p, max_size).authorities <= MAX_COUNT,
        accepted(p, max_size).resources <= MAX_COUNT,
        accepted(p, max_size).answers < p.answers.len() ==> accepted(p, max_size).authorities == 0
            && accepted(p, max_size).resources == 0,
        accepted(p, max_size).authorities < p.authorities.len() ==> accepted(
            p,
            max_size,
        ).resources == 0,
{
    reveal(accepted);
    let q = emit_questions(Map::empty(), 12, p.questions, p.questions.len() as int);
    let at = 12 + q.bytes.len();
    lemma_accepted_range(q.labels, at, p.answers, 0, max_size);
    let a = accepted_in(q.labels, at, p.answers, 0, max_size);
    let ea = emit_records(q.labels, at, p.answers, a);
    lemma_accepted_range(ea.labels, at + ea.bytes.len(), p.authorities, 0, max_size);
    let b = accepted(p, max_size).authorities;
    let eb = emit_records(ea.labels, at + ea.bytes.len(), p.authorities, b);
    lemma_accepted_range(
        eb.labels,
        at + ea.bytes.len() + eb.bytes.len(),
        p.resources,
        0,
        max_size,
    );
}

/// The header that is sent counts the records that are written, and each
/// count is the number itself: none is cut to 16 bits.
pub proof fn lemma_sent_counts(p: PacketModel, max_size: nat)
    requires
        p.questions.len() <= MAX_COUNT,
    ensures
        sent_header(p, max_size).questions == p.questions.len(),
        sent_header(p, max_size).answers == emitted_count(p.answers, accepted(p, max_size).answers),
        sent_header(p, max_size).authoritative_entries == emitted_count(
            p.authorities,
            accepted(p, max_size).authorities,
        ),
        sent_header(p, max_size).resource_entries == emitted_count(
            p.resources,
            accepted(p, max_size).resources,
        ),
        sent_header(p, max_size).truncated_message == (p.header.truncated_message || cut_short(
            p,
            max_size,
        )),
{
    lemma_accepted_shape(p, max_size);
    lemma_emitted_at_most(p.answers, accepted(p, max_size).answers);
    lemma_emitted_at_most(p.authorities, accepted(p, max_size).authorities);
    lemma_emitted_at_most(p.resources, accepted(p, max_size).resources);
}

/// The size of the whole of `p` on the wire, written into an empty buffer.
pub open spec fn full_size(p: PacketModel) -> nat {
    layout(
        Map::empty(),
        0,
        p,
        Accepted {
            answers: p.answers.len() as int,
            authorities: p.authorities.len() as int,
            resources: p.resources.len() as int,
        },
    ).bytes.len()
}

/// The size of the header and the questions of `p` on the wire, written into
/// an empty buffer.
pub open spec fn fixed_size(p: PacketModel) -> nat {
    12 + emit_questions(Map::empty(), 12, p.questions, p.questions.len() as int).bytes.len()
}

/// Cutting a message to size: where the header and the questions of `p` fit
/// `max_size`, what is written into an empty buffer has at most `max_size`
/// octets; and where the whole of `p` has more, TC is set in the header that
/// is sent.
pub proof fn lemma_cut_to_size(p: PacketModel, max_size: nat)
    requires
        fixed_size(p) <= max_size,
    ensures
        sent(Map::empty(), 0, p, max_size).bytes.len() <= max_size,
        full_size(p) > max_size ==> sent_header(p, max_size).truncated_message,
        !cut_short(p, max_size) ==> sent(Map::empty(), 0, p, max_size).bytes.len() == full_size(p),
{
    reveal(accepted);
    let none = Map::<Seq<u8>, LabelRef>::empty();
    let k = accepted(p, max_size);
    let q = emit_questions(none, 12, p.questions, p.questions.len() as int);
    let at = 12 + q.bytes.len();
    lemma_accepted_shape(p, max_size);
    assert(header_wire(sent_header(p, max_size)).len() == 12);
    assert(header_wire(p.header).len() == 12);
    lemma_accepted_size(q.labels, at, p.answers, 0, max_size);
    let ea = emit_records(q.labels, at, p.answers, k.answers);
    let at_b = at + ea.bytes.len();
    if k.answers == p.answers.len() {
        lemma_accepted_size(ea.labels, at_b, p.authorities, 0, max_size);
    }
    let eb = emit_records(ea.labels, at_b, p.authorities, k.authorities);
    let at_c = at_b + eb.bytes.len();
    if k.answers == p.answers.len() && k.authorities == p.authorities.len() {
        lemma_accepted_size(eb.labels, at_c, p.resources, 0, max_size);
    }
}

/// Writing a message again writes the same: the message that was sent is
/// sent as it is, octet for octet, into a buffer in the same state.
pub proof fn lemma_write_again(
    labels: Map<Seq<u8>, LabelRef>,
    at: nat,
    p: PacketModel,
    max_size: nat,
)
    ensures
        sent_packet(sent_packet(p, max_size), max_size) == sent_packet(p, max_size),
        sent(labels, at, sent_packet(p, max_size), max_size) == sent(labels, at, p, max_size),
{
    reveal(accepted);
    assert(accepted(sent_packet(p, max_size), max_size) == accepted(p, max_size));
}

/// Whether a message is read as it was written: its opcode has four bits,
/// it has at most 65535 questions, and its questions and records are read as
/// they were written.
pub open spec fn packet_readable(p: PacketModel) -> bool {
    &&& header_readable(p.header)
    &&& p.questions.len() <= MAX_COUNT
    &&& questions_readable(p.questions)
    &&& records_readable(p.answers, p.answers.len() as int)
    &&& records_readable(p.authorities, p.authorities.len() as int)
    &&& records_readable(p.resources, p.resources.len() as int)
}

/// The message that a reader finds where `p` was written: the header that was
/// sent, the questions, and of each section the records that were sent.
pub open spec fn received(p: PacketModel, max_size: nat) -> PacketModel {
    PacketModel {
        header: sent_header(p, max_size),
        questions: p.questions,
        answers: p.answers.take(accepted(p, max_size).answers),
        authorities: p.authorities.take(accepted(p, max_size).authorities),
        resources: p.resources.take(accepted(p, max_size).resources),
    }
}

/// Where the parts of a message stand that stands at `at`.
proof fn lemma_layout_split(
    bytes: Seq<u8>,
    at: int,
    labels: Map<Seq<u8>, LabelRef>,
    p: PacketModel,
    k: Accepted,
)
    requires
        stands_at(bytes, at, layout(labels, at as nat, p, k)),
    ensures
        ({
            let q = emit_questions(labels, (at + 12) as nat, p.questions, p.questions.len() as int);
            let p1 = at + 12 + q.bytes.len();
            let a = emit_records(q.labels, p1 as nat, p.answers, k.answers);
            let p2 = p1 + a.bytes.len();
            let b = emit_records(a.labels, p2 as nat, p.authorities, k.authorities);
            let p3 = p2 + b.bytes.len();
            let c = emit_records(b.labels, p3 as nat, p.resources, k.resources);
            &&& bytes.subrange(at, at + 12) == header_wire(p.header)
            &&& stands_at(bytes, at + 12, q)
            &&& stands_at(bytes, p1, a)
            &&& stands_at(bytes, p2, b)
            &&& stands_at(bytes, p3, c)
            &&& layout(labels, at as nat, p, k).bytes.len() == p3 + c.bytes.len() - at
            &&& layout(labels, at as nat, p, k).labels == c.labels
        }),
{
    let all = layout(labels, at as nat, p, k);
    let head = header_wire(p.header);
    let q = emit_questions(labels, (at + 12) as nat, p.questions, p.questions.len() as int);
    let p1 = at + 12 + q.bytes.len();
    let a = emit_records(q.labels, p1 as nat, p.answers, k.answers);
    let p2 = p1 + a.bytes.len();
    let b = emit_records(a.labels, p2 as nat, p.authorities, k.authorities);
    let p3 = p2 + b.bytes.len();
    let c = emit_records(b.labels, p3 as nat, p.resources, k.resources);
    let there = bytes.subrange(at, at + all.bytes.len());
    assert(head.len() == 12);
    assert(all.bytes == head + q.bytes + a.bytes + b.bytes + c.bytes);
    assert(bytes.subrange(at, at + 12) =~= there.subrange(0, 12));
    assert(there.subrange(0, 12) =~= head);
    assert(bytes.subrange(at + 12, p1) =~= there.subrange(12, p1 - at));
    assert(there.subrange(12, p1 - at) =~= q.bytes);
    assert(bytes.subrange(p1, p2) =~= there.subrange(p1 - at, p2 - at));
    assert(there.subrange(p1 - at, p2 - at) =~= a.bytes);
    assert(bytes.subrange(p2, p3) =~= there.subrange(p2 - at, p3 - at));
    assert(there.subrange(p2 - at, p3 - at) =~= b.bytes);
    assert(bytes.subrange(p3, p3 + c.bytes.len()) =~= there.subrange(p3 - at, there.len() as int));
    assert(there.subrange(p3 - at, there.len() as int) =~= c.bytes);
}

/// A message that stands at `at` is read as it was laid out, where its header
/// counts what was laid out.
proof fn lemma_layout_at(
    bytes: Seq<u8>,
    at: int,
    labels: Map<Seq<u8>, LabelRef>,
    p: PacketModel,
    k: Accepted,
)
    requires
        stands_at(bytes, at, layout(labels, at as nat, p, k)),
        resolves(bytes.take(at), labels),
        header_readable(p.header),
        questions_readable(p.questions),
        0 <= k.answers <= p.answers.len(),
        0 <= k.authorities <= p.authorities.len(),
        0 <= k.resources <= p.resources.len(),
        records_readable(p.answers, k.answers),
        records_readable(p.authorities, k.authorities),
        records_readable(p.resources, k.resources),
        p.header.questions == p.questions.len(),
        p.header.answers == k.answers,
        p.header.authoritative_entries == k.authorities,
        p.header.resource_entries == k.resources,
    ensures
        parse_packet(bytes, at) == Ok::<(PacketModel, int), DnsError>(
            (
                PacketModel {
                    header: p.header,
                    questions: p.questions,
                    answers: p.answers.take(k.answers),
                    authorities: p.authorities.take(k.authorities),
                    resources: p.resources.take(k.resources),
                },
                at + layout(labels, at as nat, p, k).bytes.len(),
            ),
        ),
{
    let q = emit_questions(labels, (at + 12) as nat, p.questions, p.questions.len() as int);
    let p1 = at + 12 + q.bytes.len();
    let a = emit_records(q.labels, p1 as nat, p.answers, k.answers);
    let p2 = p1 + a.bytes.len();
    let b = emit_records(a.labels, p2 as nat, p.authorities, k.authorities);
    let p3 = p2 + b.bytes.len();
    let c = emit_records(b.labels, p3 as nat, p.resources, k.resources);
    lemma_layout_split(bytes, at, labels, p, k);
    lemma_header_round_trip(bytes, at, p.header);
    lemma_resolves_further(bytes, at, at + 12, labels);
    lemma_questions_at(bytes, at + 12, labels, p.questions, p.questions.len() as int);
    assert(p.questions.take(p.questions.len() as int) =~= p.questions);
    lemma_records_at(bytes, p1, q.labels, p.answers, k.answers);
    lemma_records_at(bytes, p2, a.labels, p.authorities, k.authorities);
    lemma_records_at(bytes, p3, b.labels, p.resources, k.resources);
    assert(parse_header(bytes, at) == Ok::<(DnsHeader, int), DnsError>((p.header, at + 12)));
    assert(parse_questions(bytes, at + 12, p.header.questions as nat) is Ok);
    assert(parse_records(bytes, p1, p.header.answers as nat) is Ok);
    assert(parse_records(bytes, p2, p.header.authoritative_entries as nat) is Ok);
    assert(parse_records(bytes, p3, p.header.resource_entries as nat) is Ok);
}

/// What was written at the cursor stands there, and what stood before the
/// cursor stands there still.
pub proof fn lemma_appended_stands(before: BufferModel, e: Emitted)
    requires
        before.cursor <= before.bytes.len(),
    ensures
        stands_at(appended(before, e).bytes, before.cursor as int, e),
        appended(before, e).bytes.take(before.cursor as int) == before.bytes.take(
            before.cursor as int,
        ),
{
    let after = appended(before, e);
    let at = before.cursor as int;
    assert(after.bytes.subrange(at, at + e.bytes.len()) =~= e.bytes);
    assert(after.bytes.take(at) =~= before.bytes.take(at));
}

/// A message is read as it was written: where `p` is readable, where the
/// cursor of the buffer stands in or at the end of its octets, and where the
/// names of its table are read at their places before the cursor, reading at
/// the place where `DnsPacket::write` wrote `p` gives the header that was
/// sent, the questions of `p` and the records of `p` that were sent, each as
/// it was and in its order, and ends where the writing ended. Where no record
/// was left out, what is read is `p` with the header that was sent.
pub proof fn lemma_packet_round_trip(before: BufferModel, p: PacketModel, max_size: nat)
    requires
        before.cursor <= before.bytes.len(),
        resolves(before.bytes.take(before.cursor as int), before.labels),
        packet_readable(p),
    ensures
        parse_packet(
            appended(before, sent(before.labels, before.cursor, p, max_size)).bytes,
            before.cursor as int,
        ) == Ok::<(PacketModel, int), DnsError>(
            (
                received(p, max_size),
                appended(before, sent(before.labels, before.cursor, p, max_size)).cursor as int,
            ),
        ),
        !cut_short(p, max_size) ==> received(p, max_size) == sent_packet(p, max_size),
{
    let k = accepted(p, max_size);
    let sp = sent_packet(p, max_size);
    let e = sent(before.labels, before.cursor, p, max_size);
    let after = appended(before, e);
    let at = before.cursor as int;
    lemma_accepted_shape(p, max_size);
    lemma_sent_counts(p, max_size);
    lemma_all_emitted(p.answers, k.answers);
    lemma_all_emitted(p.authorities, k.authorities);
    lemma_all_emitted(p.resources, k.resources);
    lemma_appended_stands(before, e);
    lemma_layout_at(after.bytes, at, before.labels, sp, k);
    if !cut_short(p, max_size) {
        assert(p.answers.take(k.answers) =~= p.answers);
        assert(p.authorities.take(k.authorities) =~= p.authorities);
        assert(p.resources.take(k.resources) =~= p.resources);
    }
}

} // verus!
