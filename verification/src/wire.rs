use vstd::prelude::*;
use vstd::utf8::encode_utf8;
use crate::buffer::be16;
use crate::buffer::be32;
use crate::buffer::BufferModel;
use crate::buffer::LabelRef;
use crate::buffer::lemma_overlay_twice;
use crate::buffer::overlay;
use crate::buffer::u16_at;
use crate::names::name_saved;
use crate::names::name_wire;
use crate::protocol::DnsHeader;
use crate::protocol::PacketModel;
use crate::protocol::QuestionModel;
use crate::protocol::RecordModel;
use crate::protocol::ResultCode;

verus! {

/// The number of a flag: 1 when it is set.
pub open spec fn bit(b: bool) -> u8 {
    if b {
        1
    } else {
        0
    }
}

/// The third octet of a header: RD, TC, AA, the four bits of the opcode, QR.
pub open spec fn flags_high(h: DnsHeader) -> u8 {
    (bit(h.recursion_desired) + 2 * bit(h.truncated_message) + 4 * bit(h.authoritative_answer) + 8
        * (h.opcode % 16) + 128 * bit(h.response)) as u8
}

/// The fourth octet of a header: the result code, CD, AD, Z, RA.
pub open spec fn flags_low(h: DnsHeader) -> u8 {
    (h.rescode.num() + 16 * bit(h.checking_disabled) + 32 * bit(h.authed_data) + 64 * bit(h.z) + 128
        * bit(h.recursion_available)) as u8
}

/// The twelve octets of a header.
pub open spec fn header_wire(h: DnsHeader) -> Seq<u8> {
    be16(h.id) + seq![flags_high(h), flags_low(h)] + be16(h.questions) + be16(h.answers) + be16(
        h.authoritative_entries,
    ) + be16(h.resource_entries)
}

/// The header that the twelve octets from `at` on hold.
pub open spec fn header_at(bytes: Seq<u8>, at: int) -> DnsHeader {
    DnsHeader {
        id: u16_at(bytes, at),
        recursion_desired: bytes[at + 2] % 2 == 1,
        truncated_message: (bytes[at + 2] / 2) % 2 == 1,
        authoritative_answer: (bytes[at + 2] / 4) % 2 == 1,
        opcode: (bytes[at + 2] / 8) % 16,
        response: bytes[at + 2] / 128 == 1,
        rescode: ResultCode::of(bytes[at + 3] % 16),
        checking_disabled: (bytes[at + 3] / 16) % 2 == 1,
        authed_data: (bytes[at + 3] / 32) % 2 == 1,
        z: (bytes[at + 3] / 64) % 2 == 1,
        recursion_available: bytes[at + 3] / 128 == 1,
        questions: u16_at(bytes, at + 4),
        answers: u16_at(bytes, at + 6),
        authoritative_entries: u16_at(bytes, at + 8),
        resource_entries: u16_at(bytes, at + 10),
    }
}

/// What writing something into a buffer adds: the octets, and the table of
/// names afterwards.
pub struct Emitted {
    pub bytes: Seq<u8>,
    pub labels: Map<Seq<u8>, LabelRef>,
}

/// The buffer after `e` was written at the cursor.
pub open spec fn appended(before: BufferModel, e: Emitted) -> BufferModel {
    BufferModel {
        bytes: overlay(before.bytes, before.cursor, e.bytes),
        cursor: before.cursor + e.bytes.len(),
        limit: before.limit,
        labels: e.labels,
    }
}

/// Octets that leave the table as it is.
pub open spec fn raw(labels: Map<Seq<u8>, LabelRef>, bytes: Seq<u8>) -> Emitted {
    Emitted { bytes, labels }
}

/// What `then` adds behind `first`.
pub open spec fn and_then(first: Emitted, then: Emitted) -> Emitted {
    Emitted { bytes: first.bytes + then.bytes, labels: then.labels }
}

/// The octets of a text: its UTF-8 encoding.
pub open spec fn octets(text: Seq<char>) -> Seq<u8> {
    encode_utf8(text)
}

/// What `write_qname` adds for the name `name`, written at `at` into a buffer
/// whose table is `labels`.
pub open spec fn emit_name(labels: Map<Seq<u8>, LabelRef>, at: nat, name: Seq<char>) -> Emitted {
    Emitted {
        bytes: name_wire(labels, octets(name)),
        labels: name_saved(labels, at, octets(name)),
    }
}

/// What a question adds: its name, its type and the class 1.
pub open spec fn emit_question(labels: Map<Seq<u8>, LabelRef>, at: nat, q: QuestionModel) -> Emitted {
    and_then(emit_name(labels, at, q.name), raw(
        emit_name(labels, at, q.name).labels,
        be16(q.qtype.num()) + be16(1),
    ))
}

/// The data of a record, written at `at`.
pub open spec fn emit_rdata(labels: Map<Seq<u8>, LabelRef>, at: nat, rec: RecordModel) -> Emitted {
    match rec {
        RecordModel::A(_, addr, _) => raw(labels, seq![addr.a, addr.b, addr.c, addr.d]),
        RecordModel::AAAA(_, addr, _) => raw(
            labels,
            be16(addr.a) + be16(addr.b) + be16(addr.c) + be16(addr.d) + be16(addr.e) + be16(addr.f)
                + be16(addr.g) + be16(addr.h),
        ),
        RecordModel::NS(_, host, _) => emit_name(labels, at, host),
        RecordModel::CNAME(_, host, _) => emit_name(labels, at, host),
        RecordModel::MX(_, priority, host, _) => and_then(
            raw(labels, be16(priority)),
            emit_name(labels, at + 2, host),
        ),
        RecordModel::SRV(_, priority, weight, port, host, _) => and_then(
            raw(labels, be16(priority) + be16(weight) + be16(port)),
            emit_name(labels, at + 6, host),
        ),
        RecordModel::SOA(_, mname, rname, serial, refresh, retry, expire, minimum, _) => {
            let first = emit_name(labels, at, mname);
            let second = emit_name(first.labels, at + first.bytes.len(), rname);
            and_then(
                and_then(first, second),
                raw(
                    second.labels,
                    be32(serial) + be32(refresh) + be32(retry) + be32(expire) + be32(minimum),
                ),
            )
        },
        RecordModel::TXT(_, text, _) => raw(labels, octets(text)),
        RecordModel::OPT(_, _, _) => raw(labels, Seq::empty()),
        RecordModel::UNKNOWN(_, _, _, _) => raw(labels, Seq::empty()),
    }
}

/// The name, type, class and time to live of a record that is written.
pub open spec fn emit_preamble(labels: Map<Seq<u8>, LabelRef>, at: nat, rec: RecordModel) -> Emitted {
    and_then(
        emit_name(labels, at, rec.domain()->0),
        raw(
            emit_name(labels, at, rec.domain()->0).labels,
            be16(rec.qtype().num()) + be16(1) + be32(rec.ttl()),
        ),
    )
}

/// What a record adds: nothing for an `OPT` or `UNKNOWN` record; for another
/// its name, type, class 1, time to live, the length of its data in 16 bits,
/// and its data.
#[verifier::opaque]
pub open spec fn emit_record(labels: Map<Seq<u8>, LabelRef>, at: nat, rec: RecordModel) -> Emitted {
    if !rec.emitted() {
        raw(labels, Seq::empty())
    } else {
        let head = emit_preamble(labels, at, rec);
        let data = emit_rdata(head.labels, at + head.bytes.len() + 2, rec);
        and_then(and_then(head, raw(head.labels, be16((data.bytes.len() % 0x1_0000) as u16))), data)
    }
}

/// What the first `upto` records add, one behind the other.
pub open spec fn emit_records(
    labels: Map<Seq<u8>, LabelRef>,
    at: nat,
    recs: Seq<RecordModel>,
    upto: int,
) -> Emitted
    decreases upto,
{
    if upto <= 0 {
        raw(labels, Seq::empty())
    } else {
        let before = emit_records(labels, at, recs, upto - 1);
        and_then(before, emit_record(before.labels, at + before.bytes.len(), recs[upto - 1]))
    }
}

/// What the first `upto` questions add, one behind the other.
pub open spec fn emit_questions(
    labels: Map<Seq<u8>, LabelRef>,
    at: nat,
    questions: Seq<QuestionModel>,
    upto: int,
) -> Emitted
    decreases upto,
{
    if upto <= 0 {
        raw(labels, Seq::empty())
    } else {
        let before = emit_questions(labels, at, questions, upto - 1);
        and_then(before, emit_question(before.labels, at + before.bytes.len(), questions[upto - 1]))
    }
}

/// More records take no fewer octets.
pub proof fn lemma_records_grow(
    labels: Map<Seq<u8>, LabelRef>,
    at: nat,
    recs: Seq<RecordModel>,
    fewer: int,
    more: int,
)
    requires
        fewer <= more,
    ensures
        emit_records(labels, at, recs, fewer).bytes.len() <= emit_records(
            labels,
            at,
            recs,
            more,
        ).bytes.len(),
    decreases more,
{
    if fewer < more && more > 0 {
        lemma_records_grow(labels, at, recs, fewer, more - 1);
    }
}

/// More questions take no fewer octets.
pub proof fn lemma_questions_grow(
    labels: Map<Seq<u8>, LabelRef>,
    at: nat,
    questions: Seq<QuestionModel>,
    fewer: int,
    more: int,
)
    requires
        fewer <= more,
    ensures
        emit_questions(labels, at, questions, fewer).bytes.len() <= emit_questions(
            labels,
            at,
            questions,
            more,
        ).bytes.len(),
    decreases more,
{
    if fewer < more && more > 0 {
        lemma_questions_grow(labels, at, questions, fewer, more - 1);
    }
}

/// The largest number that a count of the header can hold.
pub const MAX_COUNT: usize = 0xFFFF;

/// The number of records of one section that are sent, when the section is
/// written at `at` and the message may have `max_size` octets: the records
/// from index `from` on are taken one by one, up to the first that would end
/// behind `max_size`, and at most 65535 of them.
pub open spec fn accepted_in(
    labels: Map<Seq<u8>, LabelRef>,
    at: nat,
    recs: Seq<RecordModel>,
    from: int,
    max_size: nat,
) -> int
    decreases recs.len() - from,
{
    if from < 0 || from >= recs.len() || from >= MAX_COUNT {
        from
    } else {
        let first = emit_record(labels, at, recs[from]);
        if at + first.bytes.len() > max_size {
            from
        } else {
            accepted_in(first.labels, at + first.bytes.len(), recs, from + 1, max_size)
        }
    }
}

/// How many records of each section are sent.
pub struct Accepted {
    pub answers: int,
    pub authorities: int,
    pub resources: int,
}

/// How many records of each section of `p` are sent in a message of at most
/// `max_size` octets. The sizes are those of the message written into an empty
/// buffer. Behind the first record that does not fit nothing is sent, so a
/// section is only begun where the one before it was sent whole.
#[verifier::opaque]
pub open spec fn accepted(p: PacketModel, max_size: nat) -> Accepted {
    let q = emit_questions(Map::empty(), 12, p.questions, p.questions.len() as int);
    let at = 12 + q.bytes.len();
    let a = accepted_in(q.labels, at, p.answers, 0, max_size);
    let ea = emit_records(q.labels, at, p.answers, a);
    let b = if a < p.answers.len() {
        0
    } else {
        accepted_in(ea.labels, at + ea.bytes.len(), p.authorities, 0, max_size)
    };
    let eb = emit_records(ea.labels, at + ea.bytes.len(), p.authorities, b);
    let c = if a < p.answers.len() || b < p.authorities.len() {
        0
    } else {
        accepted_in(eb.labels, at + ea.bytes.len() + eb.bytes.len(), p.resources, 0, max_size)
    };
    Accepted { answers: a, authorities: b, resources: c }
}

/// The number of the first `upto` records that are written to the wire.
pub open spec fn emitted_count(recs: Seq<RecordModel>, upto: int) -> nat
    decreases upto,
{
    if upto <= 0 {
        0
    } else {
        emitted_count(recs, upto - 1) + if recs[upto - 1].emitted() {
            1nat
        } else {
            0nat
        }
    }
}

/// Whether a record of `p` is left out of a message of at most `max_size`
/// octets.
pub open spec fn cut_short(p: PacketModel, max_size: nat) -> bool {
    let k = accepted(p, max_size);
    k.answers < p.answers.len() || k.authorities < p.authorities.len() || k.resources
        < p.resources.len()
}

/// The header that is sent for `p`: the counts are those of the records that
/// are written, and TC is set where a record is left out.
pub open spec fn sent_header(p: PacketModel, max_size: nat) -> DnsHeader {
    let k = accepted(p, max_size);
    DnsHeader {
        truncated_message: p.header.truncated_message || cut_short(p, max_size),
        questions: p.questions.len() as u16,
        answers: emitted_count(p.answers, k.answers) as u16,
        authoritative_entries: emitted_count(p.authorities, k.authorities) as u16,
        resource_entries: emitted_count(p.resources, k.resources) as u16,
        ..p.header
    }
}

/// The header of `p`, its questions, and the first `k` records of each of its
/// sections, one behind the other.
pub open spec fn layout(labels: Map<Seq<u8>, LabelRef>, at: nat, p: PacketModel, k: Accepted) -> Emitted {
    let head = raw(labels, header_wire(p.header));
    let q = emit_questions(labels, at + 12, p.questions, p.questions.len() as int);
    let a = emit_records(q.labels, at + 12 + q.bytes.len(), p.answers, k.answers);
    let b = emit_records(
        a.labels,
        at + 12 + q.bytes.len() + a.bytes.len(),
        p.authorities,
        k.authorities,
    );
    let c = emit_records(
        b.labels,
        at + 12 + q.bytes.len() + a.bytes.len() + b.bytes.len(),
        p.resources,
        k.resources,
    );
    and_then(and_then(and_then(and_then(head, q), a), b), c)
}

/// The message that is sent for `p`: `p` with the header that is sent.
pub open spec fn sent_packet(p: PacketModel, max_size: nat) -> PacketModel {
    PacketModel { header: sent_header(p, max_size), ..p }
}

/// What `DnsPacket::write` adds for `p`: the header that is sent, the
/// questions, and of each section the records that are sent.
pub open spec fn sent(labels: Map<Seq<u8>, LabelRef>, at: nat, p: PacketModel, max_size: nat) -> Emitted {
    layout(labels, at, sent_packet(p, max_size), accepted(p, max_size))
}

/// Writing `first` and then `then` is writing the two in one piece.
pub proof fn lemma_appended_twice(before: BufferModel, first: Emitted, then: Emitted)
    ensures
        appended(appended(before, first), then) == appended(before, and_then(first, then)),
{
    lemma_overlay_twice(before.bytes, before.cursor, first.bytes, then.bytes);
}

/// Writing nothing changes nothing.
pub proof fn lemma_appended_nothing(before: BufferModel)
    ensures
        appended(before, raw(before.labels, Seq::empty())) == before,
{
    assert(overlay(before.bytes, before.cursor, Seq::empty()) =~= before.bytes);
}

/// Filling a slot that was written before, between `first` and `last`, is the
/// same as writing the three in one piece.
pub proof fn lemma_overlay_slot(
    base: Seq<u8>,
    at: nat,
    first: Seq<u8>,
    slot: Seq<u8>,
    last: Seq<u8>,
    fill: Seq<u8>,
)
    requires
        slot.len() == fill.len(),
    ensures
        overlay(overlay(base, at, first + slot + last), at + first.len(), fill) == overlay(
            base,
            at,
            first + fill + last,
        ),
{
    assert(overlay(overlay(base, at, first + slot + last), at + first.len(), fill) =~= overlay(
        base,
        at,
        first + fill + last,
    ));
}

} // verus!
