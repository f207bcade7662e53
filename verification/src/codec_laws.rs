use vstd::prelude::*;
use vstd::utf8::encode_utf8_decode_utf8;
use vstd::utf8::encode_utf8_valid_utf8;
use crate::addr::Ipv4Addr;
use crate::addr::Ipv6Addr;
use crate::buffer::be16;
use crate::buffer::be32;
use crate::buffer::BufferModel;
use crate::buffer::LabelRef;
use crate::buffer::overlay;
use crate::buffer::u32_at;
use crate::errors::DnsError;
use crate::name_laws::lemma_name_round_trip;
use crate::name_laws::lemma_resolves_extend;
use crate::name_laws::readable_name;
use crate::name_laws::resolves;
use crate::names::name_wire;
use crate::names::read_name;
use crate::names::written_name;
use crate::parse::parse_head;
use crate::parse::parse_header;
use crate::parse::parse_ipv4;
use crate::parse::parse_ipv6;
use crate::parse::parse_question;
use crate::parse::parse_questions;
use crate::parse::parse_rdata;
use crate::parse::parse_record;
use crate::parse::parse_records;
use crate::parse::parse_soa;
use crate::parse::parse_soa_numbers;
use crate::parse::RecordHead;
use crate::parse::take_u16;
use crate::parse::take_u32;
use crate::protocol::DnsHeader;
use crate::protocol::QueryType;
use crate::protocol::QuestionModel;
use crate::protocol::RecordModel;
use crate::wire::and_then;
use crate::wire::bit;
use crate::wire::emit_name;
use crate::wire::emit_preamble;
use crate::wire::emit_question;
use crate::wire::emit_questions;
use crate::wire::emit_rdata;
use crate::wire::emit_record;
use crate::wire::emit_records;
use crate::wire::Emitted;
use crate::wire::flags_high;
use crate::wire::flags_low;
use crate::wire::header_at;
use crate::wire::header_wire;
use crate::wire::octets;
use crate::wire::raw;

verus! {

/// A 16-bit number is read as it was written.
pub proof fn lemma_u16_round_trip(bytes: Seq<u8>, at: int, val: u16)
    requires
        0 <= at,
        at + 2 <= bytes.len(),
        bytes.subrange(at, at + 2) == be16(val),
    ensures
        take_u16(bytes, at) == Ok::<(u16, int), DnsError>((val, at + 2)),
{
    let there = bytes.subrange(at, at + 2);
    assert(there[0] == bytes[at]);
    assert(there[1] == bytes[at + 1]);
}

/// A 32-bit number is read as it was written.
pub proof fn lemma_u32_round_trip(bytes: Seq<u8>, at: int, val: u32)
    requires
        0 <= at,
        at + 4 <= bytes.len(),
        bytes.subrange(at, at + 4) == be32(val),
    ensures
        take_u32(bytes, at) == Ok::<(u32, int), DnsError>((val, at + 4)),
        u32_at(bytes, at) == val,
{
    let there = bytes.subrange(at, at + 4);
    assert(there[0] == bytes[at]);
    assert(there[1] == bytes[at + 1]);
    assert(there[2] == bytes[at + 2]);
    assert(there[3] == bytes[at + 3]);
    let a = val / 0x100_0000;
    let b = (val / 0x1_0000) % 256;
    let c = (val / 256) % 256;
    let d = val % 256;
    assert(val == a * 0x100_0000 + b * 0x1_0000 + c * 256 + d) by (bit_vector)
        requires
            a == val / 0x100_0000,
            b == (val / 0x1_0000) % 256,
            c == (val / 256) % 256,
            d == val % 256,
    ;
}

/// Whether a header is read as it was written: its opcode has four bits.
pub open spec fn header_readable(h: DnsHeader) -> bool {
    h.opcode < 16
}

/// The bits of the third octet of a header are its flags and its opcode.
proof fn lemma_high_flags(r: u8, t: u8, x: u8, o: u8, q: u8, a: u8)
    by (bit_vector)
    requires
        r <= 1,
        t <= 1,
        x <= 1,
        o <= 15,
        q <= 1,
        a == r + 2 * t + 4 * x + 8 * o + 128 * q,
    ensures
        a % 2 == r,
        (a / 2) % 2 == t,
        (a / 4) % 2 == x,
        (a / 8) % 16 == o,
        a / 128 == q,
{
}

/// The bits of the fourth octet of a header are its result code and its flags.
proof fn lemma_low_flags(c: u8, d: u8, e: u8, z: u8, r: u8, a: u8)
    by (bit_vector)
    requires
        c <= 15,
        d <= 1,
        e <= 1,
        z <= 1,
        r <= 1,
        a == c + 16 * d + 32 * e + 64 * z + 128 * r,
    ensures
        a % 16 == c,
        (a / 16) % 2 == d,
        (a / 32) % 2 == e,
        (a / 64) % 2 == z,
        a / 128 == r,
{
}

/// A header whose opcode has four bits is read as it was written.
pub proof fn lemma_header_round_trip(bytes: Seq<u8>, at: int, h: DnsHeader)
    requires
        0 <= at,
        at + 12 <= bytes.len(),
        bytes.subrange(at, at + 12) == header_wire(h),
        header_readable(h),
    ensures
        parse_header(bytes, at) == Ok::<(DnsHeader, int), DnsError>((h, at + 12)),
{
    let there = bytes.subrange(at, at + 12);
    let wire = header_wire(h);
    assert(wire[0] == there[0] == bytes[at]);
    assert(wire[1] == there[1] == bytes[at + 1]);
    assert(wire[2] == there[2] == bytes[at + 2]);
    assert(wire[3] == there[3] == bytes[at + 3]);
    assert(wire[4] == there[4] == bytes[at + 4]);
    assert(wire[5] == there[5] == bytes[at + 5]);
    assert(wire[6] == there[6] == bytes[at + 6]);
    assert(wire[7] == there[7] == bytes[at + 7]);
    assert(wire[8] == there[8] == bytes[at + 8]);
    assert(wire[9] == there[9] == bytes[at + 9]);
    assert(wire[10] == there[10] == bytes[at + 10]);
    assert(wire[11] == there[11] == bytes[at + 11]);
    let high = flags_high(h);
    let low = flags_low(h);
    assert(bytes[at + 2] == high);
    assert(bytes[at + 3] == low);
    lemma_high_flags(
        bit(h.recursion_desired),
        bit(h.truncated_message),
        bit(h.authoritative_answer),
        h.opcode,
        bit(h.response),
        high,
    );
    lemma_low_flags(
        h.rescode.num(),
        bit(h.checking_disabled),
        bit(h.authed_data),
        bit(h.z),
        bit(h.recursion_available),
        low,
    );
    let got = header_at(bytes, at);
    assert(got.id == h.id);
    assert(got.questions == h.questions);
    assert(got.answers == h.answers);
    assert(got.authoritative_entries == h.authoritative_entries);
    assert(got.resource_entries == h.resource_entries);
    assert(got.rescode == h.rescode);
    assert(got == h);
}

/// A table that resolves in the octets before `near` resolves in the octets
/// before `far`.
pub proof fn lemma_resolves_further(
    bytes: Seq<u8>,
    near: int,
    far: int,
    labels: Map<Seq<u8>, LabelRef>,
)
    requires
        0 <= near <= far <= bytes.len(),
        resolves(bytes.take(near), labels),
    ensures
        resolves(bytes.take(far), labels),
{
    lemma_resolves_extend(bytes.take(near), bytes.subrange(near, far), labels);
    assert(bytes.take(near) + bytes.subrange(near, far) =~= bytes.take(far));
}

/// A name is read as it was written, wherever in `bytes` it stands: see
/// `lemma_name_round_trip`.
pub proof fn lemma_name_at(bytes: Seq<u8>, at: int, labels: Map<Seq<u8>, LabelRef>, name: Seq<char>)
    requires
        0 <= at,
        at + emit_name(labels, at as nat, name).bytes.len() <= bytes.len(),
        bytes.subrange(at, at + emit_name(labels, at as nat, name).bytes.len()) == emit_name(
            labels,
            at as nat,
            name,
        ).bytes,
        resolves(bytes.take(at), labels),
        readable_name(octets(name)),
    ensures
        read_name(bytes, at) == Ok::<(Seq<char>, int), DnsError>(
            (name, at + emit_name(labels, at as nat, name).bytes.len()),
        ),
        resolves(
            bytes.take(at + emit_name(labels, at as nat, name).bytes.len()),
            emit_name(labels, at as nat, name).labels,
        ),
{
    let before = BufferModel { bytes, cursor: at as nat, limit: 0, labels };
    let wire = name_wire(labels, octets(name));
    lemma_name_round_trip(before, name);
    assert(written_name(before, octets(name)).bytes =~= bytes) by {
        let there = bytes.subrange(at, at + wire.len());
        assert forall|i: int| 0 <= i < bytes.len() implies overlay(bytes, at as nat, wire)[i]
            == bytes[i] by {
            if at <= i < at + wire.len() {
                assert(there[i - at] == bytes[i]);
            }
        }
    }
}

/// Whether the octets of `e` stand at `at` in `bytes`.
pub open spec fn stands_at(bytes: Seq<u8>, at: int, e: Emitted) -> bool {
    &&& 0 <= at
    &&& at + e.bytes.len() <= bytes.len()
    &&& bytes.subrange(at, at + e.bytes.len()) == e.bytes
}

/// Whether a type is the type that its number stands for: `UNKNOWN` with the
/// number of a known type is not.
pub open spec fn plain_type(t: QueryType) -> bool {
    QueryType::of(t.num()) == t
}

/// Whether a question is read as it was written.
pub open spec fn question_readable(q: QuestionModel) -> bool {
    readable_name(octets(q.name)) && plain_type(q.qtype)
}

/// A question is read as it was written.
pub proof fn lemma_question_at(
    bytes: Seq<u8>,
    at: int,
    labels: Map<Seq<u8>, LabelRef>,
    q: QuestionModel,
)
    requires
        stands_at(bytes, at, emit_question(labels, at as nat, q)),
        resolves(bytes.take(at), labels),
        question_readable(q),
    ensures
        parse_question(bytes, at) == Ok::<(QuestionModel, int), DnsError>(
            (q, at + emit_question(labels, at as nat, q).bytes.len()),
        ),
        resolves(
            bytes.take(at + emit_question(labels, at as nat, q).bytes.len()),
            emit_question(labels, at as nat, q).labels,
        ),
{
    let e = emit_question(labels, at as nat, q);
    let name = emit_name(labels, at as nat, q.name);
    let there = bytes.subrange(at, at + e.bytes.len());
    let p1 = at + name.bytes.len();
    assert(bytes.subrange(at, p1) =~= there.subrange(0, name.bytes.len() as int));
    assert(there.subrange(0, name.bytes.len() as int) =~= name.bytes);
    lemma_name_at(bytes, at, labels, q.name);
    assert(bytes.subrange(p1, p1 + 2) =~= there.subrange(p1 - at, p1 - at + 2));
    assert(there.subrange(p1 - at, p1 - at + 2) =~= be16(q.qtype.num()));
    lemma_u16_round_trip(bytes, p1, q.qtype.num());
    assert(bytes.subrange(p1 + 2, p1 + 4) =~= there.subrange(p1 - at + 2, p1 - at + 4));
    assert(there.subrange(p1 - at + 2, p1 - at + 4) =~= be16(1));
    lemma_u16_round_trip(bytes, p1 + 2, 1);
    lemma_resolves_further(bytes, p1, p1 + 4, name.labels);
}

/// Whether a record is read as it was written: it is of a type that is
/// written, its names have no empty label and no label of more than 191
/// octets, and a text has at most 65535 octets.
pub open spec fn record_readable(rec: RecordModel) -> bool {
    match rec {
        RecordModel::A(domain, _, _) => readable_name(octets(domain)),
        RecordModel::AAAA(domain, _, _) => readable_name(octets(domain)),
        RecordModel::NS(domain, host, _) => readable_name(octets(domain)) && readable_name(
            octets(host),
        ),
        RecordModel::CNAME(domain, host, _) => readable_name(octets(domain)) && readable_name(
            octets(host),
        ),
        RecordModel::MX(domain, _, host, _) => readable_name(octets(domain)) && readable_name(
            octets(host),
        ),
        RecordModel::SRV(domain, _, _, _, host, _) => readable_name(octets(domain))
            && readable_name(octets(host)),
        RecordModel::SOA(domain, mname, rname, _, _, _, _, _, _) => readable_name(octets(domain))
            && readable_name(octets(mname)) && readable_name(octets(rname)),
        RecordModel::TXT(domain, text, _) => readable_name(octets(domain)) && octets(text).len()
            <= 0xFFFF,
        RecordModel::OPT(_, _, _) => false,
        RecordModel::UNKNOWN(_, _, _, _) => false,
    }
}

/// What stands before the data of a record is read as it was written.
pub proof fn lemma_head_at(
    bytes: Seq<u8>,
    at: int,
    labels: Map<Seq<u8>, LabelRef>,
    rec: RecordModel,
    data_len: u16,
)
    requires
        rec.emitted(),
        readable_name(octets(rec.domain()->0)),
        0 <= at,
        at + emit_preamble(labels, at as nat, rec).bytes.len() + 2 <= bytes.len(),
        bytes.subrange(at, at + emit_preamble(labels, at as nat, rec).bytes.len() + 2)
            == emit_preamble(labels, at as nat, rec).bytes + be16(data_len),
        resolves(bytes.take(at), labels),
    ensures
        parse_head(bytes, at) == Ok::<(RecordHead, int), DnsError>(
            (
                RecordHead {
                    domain: rec.domain()->0,
                    qtype: rec.qtype().num(),
                    class: 1,
                    ttl: rec.ttl(),
                    data_len,
                },
                at + emit_preamble(labels, at as nat, rec).bytes.len() + 2,
            ),
        ),
        resolves(
            bytes.take(at + emit_preamble(labels, at as nat, rec).bytes.len() + 2),
            emit_preamble(labels, at as nat, rec).labels,
        ),
{
    let pre = emit_preamble(labels, at as nat, rec);
    let name = emit_name(labels, at as nat, rec.domain()->0);
    let there = bytes.subrange(at, at + pre.bytes.len() + 2);
    let p1 = at + name.bytes.len();
    assert(bytes.subrange(at, p1) =~= there.subrange(0, name.bytes.len() as int));
    assert(there.subrange(0, name.bytes.len() as int) =~= name.bytes);
    lemma_name_at(bytes, at, labels, rec.domain()->0);
    assert(bytes.subrange(p1, p1 + 2) =~= there.subrange(p1 - at, p1 - at + 2));
    assert(there.subrange(p1 - at, p1 - at + 2) =~= be16(rec.qtype().num()));
    lemma_u16_round_trip(bytes, p1, rec.qtype().num());
    assert(bytes.subrange(p1 + 2, p1 + 4) =~= there.subrange(p1 - at + 2, p1 - at + 4));
    assert(there.subrange(p1 - at + 2, p1 - at + 4) =~= be16(1));
    lemma_u16_round_trip(bytes, p1 + 2, 1);
    assert(bytes.subrange(p1 + 4, p1 + 8) =~= there.subrange(p1 - at + 4, p1 - at + 8));
    assert(there.subrange(p1 - at + 4, p1 - at + 8) =~= be32(rec.ttl()));
    lemma_u32_round_trip(bytes, p1 + 4, rec.ttl());
    assert(bytes.subrange(p1 + 8, p1 + 10) =~= there.subrange(p1 - at + 8, p1 - at + 10));
    assert(there.subrange(p1 - at + 8, p1 - at + 10) =~= be16(data_len));
    lemma_u16_round_trip(bytes, p1 + 8, data_len);
    lemma_resolves_further(bytes, p1, p1 + 10, name.labels);
}

/// Whether `head` is what stands before the data of `rec` on the wire. The
/// length of the data is only read for a text.
pub open spec fn head_of(head: RecordHead, rec: RecordModel, labels: Map<Seq<u8>, LabelRef>, at: nat) -> bool {
    &&& rec.domain() == Some(head.domain)
    &&& head.qtype == rec.qtype().num()
    &&& head.ttl == rec.ttl()
    &&& rec is TXT ==> head.data_len == emit_rdata(labels, at, rec).bytes.len()
}

/// A name in the data of a record is read as it was written.
proof fn lemma_rdata_name(
    bytes: Seq<u8>,
    at: int,
    labels: Map<Seq<u8>, LabelRef>,
    fixed: Seq<u8>,
    host: Seq<char>,
)
    requires
        stands_at(
            bytes,
            at,
            and_then(raw(labels, fixed), emit_name(labels, (at + fixed.len()) as nat, host)),
        ),
        resolves(bytes.take(at), labels),
        readable_name(octets(host)),
    ensures
        bytes.subrange(at, at + fixed.len()) == fixed,
        read_name(bytes, at + fixed.len()) == Ok::<(Seq<char>, int), DnsError>(
            (
                host,
                at + fixed.len() + emit_name(labels, (at + fixed.len()) as nat, host).bytes.len(),
            ),
        ),
        resolves(
            bytes.take(
                at + fixed.len() + emit_name(labels, (at + fixed.len()) as nat, host).bytes.len(),
            ),
            emit_name(labels, (at + fixed.len()) as nat, host).labels,
        ),
{
    let name = emit_name(labels, (at + fixed.len()) as nat, host);
    let there = bytes.subrange(at, at + fixed.len() + name.bytes.len());
    let p = at + fixed.len();
    assert(there == fixed + name.bytes);
    assert(bytes.subrange(at, p) =~= there.subrange(0, fixed.len() as int));
    assert(there.subrange(0, fixed.len() as int) =~= fixed);
    assert(bytes.subrange(p, p + name.bytes.len()) =~= there.subrange(
        fixed.len() as int,
        there.len() as int,
    ));
    assert(there.subrange(fixed.len() as int, there.len() as int) =~= name.bytes);
    lemma_resolves_further(bytes, at, p, labels);
    lemma_name_at(bytes, p, labels, host);
}

/// An IPv4 address is read as it was written.
proof fn lemma_ipv4_at(bytes: Seq<u8>, at: int, addr: Ipv4Addr)
    requires
        0 <= at,
        at + 4 <= bytes.len(),
        bytes.subrange(at, at + 4) == seq![addr.a, addr.b, addr.c, addr.d],
    ensures
        parse_ipv4(bytes, at) == Ok::<(Ipv4Addr, int), DnsError>((addr, at + 4)),
{
    let there = bytes.subrange(at, at + 4);
    assert(there[0] == bytes[at] && there[1] == bytes[at + 1]);
    assert(there[2] == bytes[at + 2] && there[3] == bytes[at + 3]);
}

/// An IPv6 address is read as it was written.
proof fn lemma_ipv6_at(bytes: Seq<u8>, at: int, addr: Ipv6Addr)
    requires
        0 <= at,
        at + 16 <= bytes.len(),
        bytes.subrange(at, at + 16) == be16(addr.a) + be16(addr.b) + be16(addr.c) + be16(addr.d)
            + be16(addr.e) + be16(addr.f) + be16(addr.g) + be16(addr.h),
    ensures
        parse_ipv6(bytes, at) == Ok::<(Ipv6Addr, int), DnsError>((addr, at + 16)),
{
    let there = bytes.subrange(at, at + 16);
    assert(bytes.subrange(at, at + 2) =~= there.subrange(0, 2));
    assert(there.subrange(0, 2) =~= be16(addr.a));
    lemma_u16_round_trip(bytes, at, addr.a);
    assert(bytes.subrange(at + 2, at + 4) =~= there.subrange(2, 4));
    assert(there.subrange(2, 4) =~= be16(addr.b));
    lemma_u16_round_trip(bytes, at + 2, addr.b);
    assert(bytes.subrange(at + 4, at + 6) =~= there.subrange(4, 6));
    assert(there.subrange(4, 6) =~= be16(addr.c));
    lemma_u16_round_trip(bytes, at + 4, addr.c);
    assert(bytes.subrange(at + 6, at + 8) =~= there.subrange(6, 8));
    assert(there.subrange(6, 8) =~= be16(addr.d));
    lemma_u16_round_trip(bytes, at + 6, addr.d);
    assert(bytes.subrange(at + 8, at + 10) =~= there.subrange(8, 10));
    assert(there.subrange(8, 10) =~= be16(addr.e));
    lemma_u16_round_trip(bytes, at + 8, addr.e);
    assert(bytes.subrange(at + 10, at + 12) =~= there.subrange(10, 12));
    assert(there.subrange(10, 12) =~= be16(addr.f));
    lemma_u16_round_trip(bytes, at + 10, addr.f);
    assert(bytes.subrange(at + 12, at + 14) =~= there.subrange(12, 14));
    assert(there.subrange(12, 14) =~= be16(addr.g));
    lemma_u16_round_trip(bytes, at + 12, addr.g);
    assert(bytes.subrange(at + 14, at + 16) =~= there.subrange(14, 16));
    assert(there.subrange(14, 16) =~= be16(addr.h));
    lemma_u16_round_trip(bytes, at + 14, addr.h);
}

/// The data of an `A` or `AAAA` record is read as it was written.
proof fn lemma_rdata_address(
    bytes: Seq<u8>,
    at: int,
    labels: Map<Seq<u8>, LabelRef>,
    rec: RecordModel,
    head: RecordHead,
)
    requires
        rec is A || rec is AAAA,
        stands_at(bytes, at, emit_rdata(labels, at as nat, rec)),
        head_of(head, rec, labels, at as nat),
    ensures
        parse_rdata(bytes, at, head) == Ok::<(RecordModel, int), DnsError>(
            (rec, at + emit_rdata(labels, at as nat, rec).bytes.len()),
        ),
{
    match rec {
        RecordModel::A(_, addr, _) => {
            lemma_ipv4_at(bytes, at, addr);
        },
        RecordModel::AAAA(_, addr, _) => {
            lemma_ipv6_at(bytes, at, addr);
        },
        _ => {},
    }
}

/// The data of an `NS`, `CNAME` or `MX` record is read as it was written.
proof fn lemma_rdata_host(
    bytes: Seq<u8>,
    at: int,
    labels: Map<Seq<u8>, LabelRef>,
    rec: RecordModel,
    head: RecordHead,
)
    requires
        rec is NS || rec is CNAME || rec is MX,
        stands_at(bytes, at, emit_rdata(labels, at as nat, rec)),
        resolves(bytes.take(at), labels),
        record_readable(rec),
        head_of(head, rec, labels, at as nat),
    ensures
        parse_rdata(bytes, at, head) == Ok::<(RecordModel, int), DnsError>(
            (rec, at + emit_rdata(labels, at as nat, rec).bytes.len()),
        ),
        resolves(
            bytes.take(at + emit_rdata(labels, at as nat, rec).bytes.len()),
            emit_rdata(labels, at as nat, rec).labels,
        ),
{
    match rec {
        RecordModel::NS(_, host, _) => {
            assert(and_then(raw(labels, Seq::empty()), emit_name(labels, at as nat, host)).bytes
                =~= emit_name(labels, at as nat, host).bytes);
            lemma_rdata_name(bytes, at, labels, Seq::empty(), host);
        },
        RecordModel::CNAME(_, host, _) => {
            assert(and_then(raw(labels, Seq::empty()), emit_name(labels, at as nat, host)).bytes
                =~= emit_name(labels, at as nat, host).bytes);
            lemma_rdata_name(bytes, at, labels, Seq::empty(), host);
        },
        RecordModel::MX(_, priority, host, _) => {
            lemma_rdata_name(bytes, at, labels, be16(priority), host);
            lemma_u16_round_trip(bytes, at, priority);
        },
        _ => {},
    }
}

/// The data of an `SRV` record is read as it was written.
proof fn lemma_rdata_srv(
    bytes: Seq<u8>,
    at: int,
    labels: Map<Seq<u8>, LabelRef>,
    rec: RecordModel,
    head: RecordHead,
)
    requires
        rec is SRV,
        stands_at(bytes, at, emit_rdata(labels, at as nat, rec)),
        resolves(bytes.take(at), labels),
        record_readable(rec),
        head_of(head, rec, labels, at as nat),
    ensures
        parse_rdata(bytes, at, head) == Ok::<(RecordModel, int), DnsError>(
            (rec, at + emit_rdata(labels, at as nat, rec).bytes.len()),
        ),
        resolves(
            bytes.take(at + emit_rdata(labels, at as nat, rec).bytes.len()),
            emit_rdata(labels, at as nat, rec).labels,
        ),
{
    match rec {
        RecordModel::SRV(_, priority, weight, port, host, _) => {
            let fixed = be16(priority) + be16(weight) + be16(port);
            lemma_rdata_name(bytes, at, labels, fixed, host);
            let there = bytes.subrange(at, at + 6);
            assert(bytes.subrange(at, at + 2) =~= there.subrange(0, 2));
            assert(there.subrange(0, 2) =~= be16(priority));
            lemma_u16_round_trip(bytes, at, priority);
            assert(bytes.subrange(at + 2, at + 4) =~= there.subrange(2, 4));
            assert(there.subrange(2, 4) =~= be16(weight));
            lemma_u16_round_trip(bytes, at + 2, weight);
            assert(bytes.subrange(at + 4, at + 6) =~= there.subrange(4, 6));
            assert(there.subrange(4, 6) =~= be16(port));
            lemma_u16_round_trip(bytes, at + 4, port);
        },
        _ => {},
    }
}

/// The five numbers of an `SOA` record are read as they were written.
proof fn lemma_soa_numbers(
    bytes: Seq<u8>,
    at: int,
    head: RecordHead,
    mname: Seq<char>,
    rname: Seq<char>,
    serial: u32,
    refresh: u32,
    retry: u32,
    expire: u32,
    minimum: u32,
)
    requires
        0 <= at,
        at + 20 <= bytes.len(),
        bytes.subrange(at, at + 20) == be32(serial) + be32(refresh) + be32(retry) + be32(expire)
            + be32(minimum),
    ensures
        parse_soa_numbers(bytes, at, head, mname, rname) == Ok::<(RecordModel, int), DnsError>(
            (
                RecordModel::SOA(
                    head.domain,
                    mname,
                    rname,
                    serial,
                    refresh,
                    retry,
                    expire,
                    minimum,
                    head.ttl,
                ),
                at + 20,
            ),
        ),
{
    let tail = bytes.subrange(at, at + 20);
    assert(bytes.subrange(at, at + 4) =~= tail.subrange(0, 4));
    assert(tail.subrange(0, 4) =~= be32(serial));
    lemma_u32_round_trip(bytes, at, serial);
    assert(bytes.subrange(at + 4, at + 8) =~= tail.subrange(4, 8));
    assert(tail.subrange(4, 8) =~= be32(refresh));
    lemma_u32_round_trip(bytes, at + 4, refresh);
    assert(bytes.subrange(at + 8, at + 12) =~= tail.subrange(8, 12));
    assert(tail.subrange(8, 12) =~= be32(retry));
    lemma_u32_round_trip(bytes, at + 8, retry);
    assert(bytes.subrange(at + 12, at + 16) =~= tail.subrange(12, 16));
    assert(tail.subrange(12, 16) =~= be32(expire));
    lemma_u32_round_trip(bytes, at + 12, expire);
    assert(bytes.subrange(at + 16, at + 20) =~= tail.subrange(16, 20));
    assert(tail.subrange(16, 20) =~= be32(minimum));
    lemma_u32_round_trip(bytes, at + 16, minimum);
}

/// The two names of an `SOA` record are read as they were written.
proof fn lemma_soa_names(
    bytes: Seq<u8>,
    at: int,
    labels: Map<Seq<u8>, LabelRef>,
    mname: Seq<char>,
    rname: Seq<char>,
    numbers: Seq<u8>,
)
    requires
        0 <= at,
        at + emit_name(labels, at as nat, mname).bytes.len() + emit_name(
            emit_name(labels, at as nat, mname).labels,
            (at + emit_name(labels, at as nat, mname).bytes.len()) as nat,
            rname,
        ).bytes.len() + numbers.len() <= bytes.len(),
        bytes.subrange(
            at,
            at + emit_name(labels, at as nat, mname).bytes.len() + emit_name(
                emit_name(labels, at as nat, mname).labels,
                (at + emit_name(labels, at as nat, mname).bytes.len()) as nat,
                rname,
            ).bytes.len() + numbers.len(),
        ) == emit_name(labels, at as nat, mname).bytes + emit_name(
            emit_name(labels, at as nat, mname).labels,
            (at + emit_name(labels, at as nat, mname).bytes.len()) as nat,
            rname,
        ).bytes + numbers,
        resolves(bytes.take(at), labels),
        readable_name(octets(mname)),
        readable_name(octets(rname)),
    ensures
        ({
            let first = emit_name(labels, at as nat, mname);
            let p1 = at + first.bytes.len();
            let second = emit_name(first.labels, p1 as nat, rname);
            let p2 = p1 + second.bytes.len();
            &&& read_name(bytes, at) == Ok::<(Seq<char>, int), DnsError>((mname, p1))
            &&& read_name(bytes, p1) == Ok::<(Seq<char>, int), DnsError>((rname, p2))
            &&& bytes.subrange(p2, p2 + numbers.len()) == numbers
            &&& resolves(bytes.take(p2 + numbers.len()), second.labels)
        }),
{
    let first = emit_name(labels, at as nat, mname);
    let p1 = at + first.bytes.len();
    let second = emit_name(first.labels, p1 as nat, rname);
    let p2 = p1 + second.bytes.len();
    let there = bytes.subrange(at, p2 + numbers.len());
    assert(bytes.subrange(at, p1) =~= there.subrange(0, first.bytes.len() as int));
    assert(there.subrange(0, first.bytes.len() as int) =~= first.bytes);
    lemma_name_at(bytes, at, labels, mname);
    assert(bytes.subrange(p1, p2) =~= there.subrange(p1 - at, p2 - at));
    assert(there.subrange(p1 - at, p2 - at) =~= second.bytes);
    lemma_name_at(bytes, p1, first.labels, rname);
    assert(bytes.subrange(p2, p2 + numbers.len()) =~= there.subrange(p2 - at, there.len() as int));
    assert(there.subrange(p2 - at, there.len() as int) =~= numbers);
    lemma_resolves_further(bytes, p2, p2 + numbers.len(), second.labels);
}

/// The data of an `SOA` record is read as it was written.
proof fn lemma_rdata_soa(
    bytes: Seq<u8>,
    at: int,
    labels: Map<Seq<u8>, LabelRef>,
    rec: RecordModel,
    head: RecordHead,
)
    requires
        rec is SOA,
        stands_at(bytes, at, emit_rdata(labels, at as nat, rec)),
        resolves(bytes.take(at), labels),
        record_readable(rec),
        head_of(head, rec, labels, at as nat),
    ensures
        parse_rdata(bytes, at, head) == Ok::<(RecordModel, int), DnsError>(
            (rec, at + emit_rdata(labels, at as nat, rec).bytes.len()),
        ),
        resolves(
            bytes.take(at + emit_rdata(labels, at as nat, rec).bytes.len()),
            emit_rdata(labels, at as nat, rec).labels,
        ),
{
    match rec {
        RecordModel::SOA(_, mname, rname, serial, refresh, retry, expire, minimum, _) => {
            let first = emit_name(labels, at as nat, mname);
            let p1 = at + first.bytes.len();
            let second = emit_name(first.labels, p1 as nat, rname);
            let p2 = p1 + second.bytes.len();
            let numbers = be32(serial) + be32(refresh) + be32(retry) + be32(expire) + be32(minimum);
            lemma_soa_names(bytes, at, labels, mname, rname, numbers);
            lemma_soa_numbers(
                bytes,
                p2,
                head,
                mname,
                rname,
                serial,
                refresh,
                retry,
                expire,
                minimum,
            );
            assert(parse_soa(bytes, at, head) == parse_soa_numbers(bytes, p2, head, mname, rname));
        },
        _ => {},
    }
}

/// The data of a `TXT` record is read as it was written.
proof fn lemma_rdata_txt(
    bytes: Seq<u8>,
    at: int,
    labels: Map<Seq<u8>, LabelRef>,
    rec: RecordModel,
    head: RecordHead,
)
    requires
        rec is TXT,
        stands_at(bytes, at, emit_rdata(labels, at as nat, rec)),
        head_of(head, rec, labels, at as nat),
    ensures
        parse_rdata(bytes, at, head) == Ok::<(RecordModel, int), DnsError>(
            (rec, at + emit_rdata(labels, at as nat, rec).bytes.len()),
        ),
{
    match rec {
        RecordModel::TXT(_, text, _) => {
            encode_utf8_valid_utf8(text);
            encode_utf8_decode_utf8(text);
        },
        _ => {},
    }
}

/// The data of a record is read as it was written.
pub proof fn lemma_rdata_at(
    bytes: Seq<u8>,
    at: int,
    labels: Map<Seq<u8>, LabelRef>,
    rec: RecordModel,
    head: RecordHead,
)
    requires
        stands_at(bytes, at, emit_rdata(labels, at as nat, rec)),
        resolves(bytes.take(at), labels),
        record_readable(rec),
        head_of(head, rec, labels, at as nat),
    ensures
        parse_rdata(bytes, at, head) == Ok::<(RecordModel, int), DnsError>(
            (rec, at + emit_rdata(labels, at as nat, rec).bytes.len()),
        ),
        resolves(
            bytes.take(at + emit_rdata(labels, at as nat, rec).bytes.len()),
            emit_rdata(labels, at as nat, rec).labels,
        ),
{
    let end = at + emit_rdata(labels, at as nat, rec).bytes.len();
    if rec is A || rec is AAAA {
        lemma_rdata_address(bytes, at, labels, rec, head);
        lemma_resolves_further(bytes, at, end, labels);
    } else if rec is NS || rec is CNAME || rec is MX {
        lemma_rdata_host(bytes, at, labels, rec, head);
    } else if rec is SRV {
        lemma_rdata_srv(bytes, at, labels, rec, head);
    } else if rec is SOA {
        lemma_rdata_soa(bytes, at, labels, rec, head);
    } else {
        lemma_rdata_txt(bytes, at, labels, rec, head);
        lemma_resolves_further(bytes, at, end, labels);
    }
}

/// The parts of a record that is written: what stands before the data, the
/// length of the data, and the data.
proof fn lemma_record_parts(labels: Map<Seq<u8>, LabelRef>, at: nat, rec: RecordModel)
    requires
        rec.emitted(),
    ensures
        ({
            let pre = emit_preamble(labels, at, rec);
            let data = emit_rdata(pre.labels, at + pre.bytes.len() + 2, rec);
            &&& emit_record(labels, at, rec).bytes == pre.bytes + be16(
                (data.bytes.len() % 0x1_0000) as u16,
            ) + data.bytes
            &&& emit_record(labels, at, rec).labels == data.labels
        }),
{
    reveal(emit_record);
}

/// Where the parts of a record stand that stands at `at`.
proof fn lemma_record_split(bytes: Seq<u8>, at: int, labels: Map<Seq<u8>, LabelRef>, rec: RecordModel)
    requires
        rec.emitted(),
        stands_at(bytes, at, emit_record(labels, at as nat, rec)),
    ensures
        ({
            let pre = emit_preamble(labels, at as nat, rec);
            let p = at + pre.bytes.len() + 2;
            let data = emit_rdata(pre.labels, p as nat, rec);
            &&& emit_record(labels, at as nat, rec).bytes.len() == pre.bytes.len() + 2
                + data.bytes.len()
            &&& emit_record(labels, at as nat, rec).labels == data.labels
            &&& bytes.subrange(at, p) == pre.bytes + be16((data.bytes.len() % 0x1_0000) as u16)
            &&& stands_at(bytes, p, data)
        }),
{
    let e = emit_record(labels, at as nat, rec);
    let pre = emit_preamble(labels, at as nat, rec);
    let p = at + pre.bytes.len() + 2;
    let data = emit_rdata(pre.labels, p as nat, rec);
    let there = bytes.subrange(at, at + e.bytes.len());
    lemma_record_parts(labels, at as nat, rec);
    assert(bytes.subrange(at, p) =~= there.subrange(0, p - at));
    assert(there.subrange(0, p - at) =~= pre.bytes + be16((data.bytes.len() % 0x1_0000) as u16));
    assert(bytes.subrange(p, p + data.bytes.len()) =~= there.subrange(p - at, there.len() as int));
    assert(there.subrange(p - at, there.len() as int) =~= data.bytes);
}

/// A record is read as it was written: where `rec` is readable and stands at
/// `at`, written into a buffer whose table was `labels`, and the names of
/// `labels` are read at their places before `at`, reading at `at` gives `rec`
/// and ends where the writing ended; and the names of the table after the
/// writing are read at their places.
#[verifier::rlimit(40)]
pub proof fn lemma_record_at(
    bytes: Seq<u8>,
    at: int,
    labels: Map<Seq<u8>, LabelRef>,
    rec: RecordModel,
)
    requires
        stands_at(bytes, at, emit_record(labels, at as nat, rec)),
        resolves(bytes.take(at), labels),
        record_readable(rec),
    ensures
        parse_record(bytes, at) == Ok::<(RecordModel, int), DnsError>(
            (rec, at + emit_record(labels, at as nat, rec).bytes.len()),
        ),
        resolves(
            bytes.take(at + emit_record(labels, at as nat, rec).bytes.len()),
            emit_record(labels, at as nat, rec).labels,
        ),
{
    let pre = emit_preamble(labels, at as nat, rec);
    let p = at + pre.bytes.len() + 2;
    let data = emit_rdata(pre.labels, p as nat, rec);
    let data_len = (data.bytes.len() % 0x1_0000) as u16;
    assert(rec.emitted() && readable_name(octets(rec.domain()->0)));
    lemma_record_split(bytes, at, labels, rec);
    lemma_head_at(bytes, at, labels, rec, data_len);
    let head = RecordHead {
        domain: rec.domain()->0,
        qtype: rec.qtype().num(),
        class: 1,
        ttl: rec.ttl(),
        data_len,
    };
    lemma_data_len(pre.labels, p as nat, rec);
    assert(head_of(head, rec, pre.labels, p as nat));
    lemma_rdata_at(bytes, p, pre.labels, rec, head);
    assert(parse_record(bytes, at) == parse_rdata(bytes, p, head)) by {
        reveal(parse_record);
    }
}

/// The data of a readable record has fewer than 65536 octets, or is not read
/// by its length.
proof fn lemma_data_len(labels: Map<Seq<u8>, LabelRef>, at: nat, rec: RecordModel)
    requires
        record_readable(rec),
    ensures
        rec is TXT ==> emit_rdata(labels, at, rec).bytes.len() <= 0xFFFF,
{
}

/// Reading one record more, behind the records that were read.
proof fn lemma_parse_records_push(
    bytes: Seq<u8>,
    at: int,
    count: nat,
    found: Seq<RecordModel>,
    mid: int,
    last: RecordModel,
    end: int,
)
    requires
        parse_records(bytes, at, count) == Ok::<(Seq<RecordModel>, int), DnsError>((found, mid)),
        parse_record(bytes, mid) == Ok::<(RecordModel, int), DnsError>((last, end)),
    ensures
        parse_records(bytes, at, count + 1) == Ok::<(Seq<RecordModel>, int), DnsError>(
            (found.push(last), end),
        ),
    decreases count,
{
    if count == 0 {
        assert(parse_records(bytes, end, 0) == Ok::<(Seq<RecordModel>, int), DnsError>(
            (Seq::empty(), end),
        ));
        assert(seq![last] + Seq::<RecordModel>::empty() =~= found.push(last));
    } else {
        let first = parse_record(bytes, at)->Ok_0;
        let rest = parse_records(bytes, first.1, (count - 1) as nat)->Ok_0;
        lemma_parse_records_push(bytes, first.1, (count - 1) as nat, rest.0, mid, last, end);
        assert(seq![first.0] + rest.0.push(last) =~= found.push(last));
    }
}

/// Reading one question more, behind the questions that were read.
proof fn lemma_parse_questions_push(
    bytes: Seq<u8>,
    at: int,
    count: nat,
    found: Seq<QuestionModel>,
    mid: int,
    last: QuestionModel,
    end: int,
)
    requires
        parse_questions(bytes, at, count) == Ok::<(Seq<QuestionModel>, int), DnsError>(
            (found, mid),
        ),
        parse_question(bytes, mid) == Ok::<(QuestionModel, int), DnsError>((last, end)),
    ensures
        parse_questions(bytes, at, count + 1) == Ok::<(Seq<QuestionModel>, int), DnsError>(
            (found.push(last), end),
        ),
    decreases count,
{
    if count == 0 {
        assert(parse_questions(bytes, end, 0) == Ok::<(Seq<QuestionModel>, int), DnsError>(
            (Seq::empty(), end),
        ));
        assert(seq![last] + Seq::<QuestionModel>::empty() =~= found.push(last));
    } else {
        let first = parse_question(bytes, at)->Ok_0;
        let rest = parse_questions(bytes, first.1, (count - 1) as nat)->Ok_0;
        lemma_parse_questions_push(bytes, first.1, (count - 1) as nat, rest.0, mid, last, end);
        assert(seq![first.0] + rest.0.push(last) =~= found.push(last));
    }
}

/// Whether each of the first `upto` records is read as it was written.
pub open spec fn records_readable(recs: Seq<RecordModel>, upto: int) -> bool {
    forall|i: int| 0 <= i < upto ==> record_readable(#[trigger] recs[i])
}

/// Whether each question is read as it was written.
pub open spec fn questions_readable(questions: Seq<QuestionModel>) -> bool {
    forall|i: int| 0 <= i < questions.len() ==> question_readable(#[trigger] questions[i])
}

/// Records are read as they were written, one behind the other.
pub proof fn lemma_records_at(
    bytes: Seq<u8>,
    at: int,
    labels: Map<Seq<u8>, LabelRef>,
    recs: Seq<RecordModel>,
    upto: int,
)
    requires
        0 <= upto <= recs.len(),
        records_readable(recs, upto),
        stands_at(bytes, at, emit_records(labels, at as nat, recs, upto)),
        resolves(bytes.take(at), labels),
    ensures
        parse_records(bytes, at, upto as nat) == Ok::<(Seq<RecordModel>, int), DnsError>(
            (recs.take(upto), at + emit_records(labels, at as nat, recs, upto).bytes.len()),
        ),
        resolves(
            bytes.take(at + emit_records(labels, at as nat, recs, upto).bytes.len()),
            emit_records(labels, at as nat, recs, upto).labels,
        ),
    decreases upto,
{
    if upto == 0 {
        assert(recs.take(0) =~= Seq::<RecordModel>::empty());
    } else {
        let all = emit_records(labels, at as nat, recs, upto);
        let before = emit_records(labels, at as nat, recs, upto - 1);
        let mid = at + before.bytes.len();
        let last = emit_record(before.labels, mid as nat, recs[upto - 1]);
        let there = bytes.subrange(at, at + all.bytes.len());
        assert(all.bytes == before.bytes + last.bytes);
        assert(bytes.subrange(at, mid) =~= there.subrange(0, before.bytes.len() as int));
        assert(there.subrange(0, before.bytes.len() as int) =~= before.bytes);
        lemma_records_at(bytes, at, labels, recs, upto - 1);
        assert(bytes.subrange(mid, mid + last.bytes.len()) =~= there.subrange(
            before.bytes.len() as int,
            there.len() as int,
        ));
        assert(there.subrange(before.bytes.len() as int, there.len() as int) =~= last.bytes);
        lemma_record_at(bytes, mid, before.labels, recs[upto - 1]);
        lemma_parse_records_push(
            bytes,
            at,
            (upto - 1) as nat,
            recs.take(upto - 1),
            mid,
            recs[upto - 1],
            mid + last.bytes.len(),
        );
        assert(recs.take(upto - 1).push(recs[upto - 1]) =~= recs.take(upto));
    }
}

/// Questions are read as they were written, one behind the other.
pub proof fn lemma_questions_at(
    bytes: Seq<u8>,
    at: int,
    labels: Map<Seq<u8>, LabelRef>,
    questions: Seq<QuestionModel>,
    upto: int,
)
    requires
        0 <= upto <= questions.len(),
        questions_readable(questions),
        stands_at(bytes, at, emit_questions(labels, at as nat, questions, upto)),
        resolves(bytes.take(at), labels),
    ensures
        parse_questions(bytes, at, upto as nat) == Ok::<(Seq<QuestionModel>, int), DnsError>(
            (
                questions.take(upto),
                at + emit_questions(labels, at as nat, questions, upto).bytes.len(),
            ),
        ),
        resolves(
            bytes.take(at + emit_questions(labels, at as nat, questions, upto).bytes.len()),
            emit_questions(labels, at as nat, questions, upto).labels,
        ),
    decreases upto,
{
    if upto == 0 {
        assert(questions.take(0) =~= Seq::<QuestionModel>::empty());
    } else {
        let all = emit_questions(labels, at as nat, questions, upto);
        let before = emit_questions(labels, at as nat, questions, upto - 1);
        let mid = at + before.bytes.len();
        let last = emit_question(before.labels, mid as nat, questions[upto - 1]);
        let there = bytes.subrange(at, at + all.bytes.len());
        assert(all.bytes == before.bytes + last.bytes);
        assert(bytes.subrange(at, mid) =~= there.subrange(0, before.bytes.len() as int));
        assert(there.subrange(0, before.bytes.len() as int) =~= before.bytes);
        lemma_questions_at(bytes, at, labels, questions, upto - 1);
        assert(bytes.subrange(mid, mid + last.bytes.len()) =~= there.subrange(
            before.bytes.len() as int,
            there.len() as int,
        ));
        assert(there.subrange(before.bytes.len() as int, there.len() as int) =~= last.bytes);
        lemma_question_at(bytes, mid, before.labels, questions[upto - 1]);
        lemma_parse_questions_push(
            bytes,
            at,
            (upto - 1) as nat,
            questions.take(upto - 1),
            mid,
            questions[upto - 1],
            mid + last.bytes.len(),
        );
        assert(questions.take(upto - 1).push(questions[upto - 1]) =~= questions.take(upto));
    }
}

} // verus!
