use vstd::prelude::*;
use vstd::string::StringExecFns;
use crate::addr::Ipv4Addr;
use crate::addr::Ipv6Addr;
use crate::buffer::be16;
use crate::buffer::be32;
use crate::buffer::BufferModel;
use crate::buffer::moved;
use crate::buffer::PacketBuffer;
use crate::buffer::wrote;
use crate::errors::DnsError;
use crate::names::lossy_string;
use crate::names::plain_wire;
use crate::names::read_name;
use crate::names::text_of;
use crate::parse::parse_head;
use crate::parse::parse_packet;
use crate::parse::parse_question;
use crate::parse::parse_questions;
use crate::parse::parse_rdata;
use crate::parse::parse_record;
use crate::parse::parse_records;
use crate::parse::RecordHead;
use crate::parse::take_bytes;
use crate::wire::and_then;
use crate::wire::appended;
use crate::wire::bit;
use crate::wire::emit_name;
use crate::wire::emit_preamble;
use crate::wire::emit_question;
use crate::wire::emit_rdata;
use crate::wire::emit_record;
use crate::wire::Emitted;
use crate::wire::flags_high;
use crate::wire::flags_low;
use crate::wire::header_at;
use crate::wire::header_wire;
use crate::wire::lemma_appended_nothing;
use crate::wire::lemma_appended_twice;
use crate::wire::lemma_overlay_slot;
use crate::wire::octets;
use crate::wire::raw;

verus! {

/// The type of a record or of a question.
#[derive(Clone, Copy, Debug, PartialEq, Eq, Structural)]
pub enum QueryType {
    UNKNOWN(u16),
    A,
    NS,
    CNAME,
    SOA,
    MX,
    TXT,
    AAAA,
    SRV,
    OPT,
}

impl QueryType {
    /// The number of the type on the wire.
    pub open spec fn num(self) -> u16 {
        match self {
            QueryType::UNKNOWN(x) => x,
            QueryType::A => 1,
            QueryType::NS => 2,
            QueryType::CNAME => 5,
            QueryType::SOA => 6,
            QueryType::MX => 15,
            QueryType::TXT => 16,
            QueryType::AAAA => 28,
            QueryType::SRV => 33,
            QueryType::OPT => 41,
        }
    }

    /// The type that the number `num` stands for.
    pub open spec fn of(num: u16) -> QueryType {
        if num == 1 {
            QueryType::A
        } else if num == 2 {
            QueryType::NS
        } else if num == 5 {
            QueryType::CNAME
        } else if num == 6 {
            QueryType::SOA
        } else if num == 15 {
            QueryType::MX
        } else if num == 16 {
            QueryType::TXT
        } else if num == 28 {
            QueryType::AAAA
        } else if num == 33 {
            QueryType::SRV
        } else if num == 41 {
            QueryType::OPT
        } else {
            QueryType::UNKNOWN(num)
        }
    }

    /// The number of the type on the wire.
    pub fn to_num(&self) -> (n: u16)
        ensures
            n == self.num(),
    {
        match *self {
            QueryType::UNKNOWN(x) => x,
            QueryType::A => 1,
            QueryType::NS => 2,
            QueryType::CNAME => 5,
            QueryType::SOA => 6,
            QueryType::MX => 15,
            QueryType::TXT => 16,
            QueryType::AAAA => 28,
            QueryType::SRV => 33,
            QueryType::OPT => 41,
        }
    }

    /// The type that the number `num` stands for.
    pub fn from_num(num: u16) -> (t: QueryType)
        ensures
            t == QueryType::of(num),
            t.num() == num,
    {
        match num {
            1 => QueryType::A,
            2 => QueryType::NS,
            5 => QueryType::CNAME,
            6 => QueryType::SOA,
            15 => QueryType::MX,
            16 => QueryType::TXT,
            28 => QueryType::AAAA,
            33 => QueryType::SRV,
            41 => QueryType::OPT,
            _ => QueryType::UNKNOWN(num),
        }
    }
}

/// The result code of a response.
#[derive(Clone, Copy, Debug, PartialEq, Eq, Structural)]
pub enum ResultCode {
    NOERROR,
    FORMERR,
    SERVFAIL,
    NXDOMAIN,
    NOTIMP,
    REFUSED,
}

impl ResultCode {
    /// The number of the code on the wire.
    pub open spec fn num(self) -> u8 {
        match self {
            ResultCode::NOERROR => 0,
            ResultCode::FORMERR => 1,
            ResultCode::SERVFAIL => 2,
            ResultCode::NXDOMAIN => 3,
            ResultCode::NOTIMP => 4,
            ResultCode::REFUSED => 5,
        }
    }

    /// The code that the number `num` stands for: a number without a code
    /// stands for `NOERROR`.
    pub open spec fn of(num: u8) -> ResultCode {
        if num == 1 {
            ResultCode::FORMERR
        } else if num == 2 {
            ResultCode::SERVFAIL
        } else if num == 3 {
            ResultCode::NXDOMAIN
        } else if num == 4 {
            ResultCode::NOTIMP
        } else if num == 5 {
            ResultCode::REFUSED
        } else {
            ResultCode::NOERROR
        }
    }

    /// The number of the code on the wire.
    pub fn to_num(&self) -> (n: u8)
        ensures
            n == self.num(),
    {
        match *self {
            ResultCode::NOERROR => 0,
            ResultCode::FORMERR => 1,
            ResultCode::SERVFAIL => 2,
            ResultCode::NXDOMAIN => 3,
            ResultCode::NOTIMP => 4,
            ResultCode::REFUSED => 5,
        }
    }

    /// The code that the number `num` stands for.
    pub fn from_num(num: u8) -> (c: ResultCode)
        ensures
            c == ResultCode::of(num),
    {
        match num {
            1 => ResultCode::FORMERR,
            2 => ResultCode::SERVFAIL,
            3 => ResultCode::NXDOMAIN,
            4 => ResultCode::NOTIMP,
            5 => ResultCode::REFUSED,
            _ => ResultCode::NOERROR,
        }
    }
}

/// The twelve octets at the head of a message.
#[derive(Clone, Copy, Debug, PartialEq, Eq, Structural)]
pub struct DnsHeader {
    pub id: u16,
    pub recursion_desired: bool,
    pub truncated_message: bool,
    pub authoritative_answer: bool,
    pub opcode: u8,
    pub response: bool,
    pub rescode: ResultCode,
    pub checking_disabled: bool,
    pub authed_data: bool,
    pub z: bool,
    pub recursion_available: bool,
    pub questions: u16,
    pub answers: u16,
    pub authoritative_entries: u16,
    pub resource_entries: u16,
}

impl DnsHeader {
    /// The header of an empty query: every number zero, every flag off.
    pub open spec fn blank() -> DnsHeader {
        DnsHeader {
            id: 0,
            recursion_desired: false,
            truncated_message: false,
            authoritative_answer: false,
            opcode: 0,
            response: false,
            rescode: ResultCode::NOERROR,
            checking_disabled: false,
            authed_data: false,
            z: false,
            recursion_available: false,
            questions: 0,
            answers: 0,
            authoritative_entries: 0,
            resource_entries: 0,
        }
    }

    /// The header of an empty query.
    pub fn new() -> (h: DnsHeader)
        ensures
            h == DnsHeader::blank(),
    {
        DnsHeader {
            id: 0,
            recursion_desired: false,
            truncated_message: false,
            authoritative_answer: false,
            opcode: 0,
            response: false,
            rescode: ResultCode::NOERROR,
            checking_disabled: false,
            authed_data: false,
            z: false,
            recursion_available: false,
            questions: 0,
            answers: 0,
            authoritative_entries: 0,
            resource_entries: 0,
        }
    }

    /// The third octet of the header on the wire.
    fn high_flags(&self) -> (b: u8)
        ensures
            b == flags_high(*self),
    {
        let opcode: u8 = self.opcode % 16;
        let low: u8 = flag(self.recursion_desired) + 2 * flag(self.truncated_message) + 4 * flag(
            self.authoritative_answer,
        );
        low + 8 * opcode + 128 * flag(self.response)
    }

    /// The fourth octet of the header on the wire.
    fn low_flags(&self) -> (b: u8)
        ensures
            b == flags_low(*self),
    {
        let high: u8 = 16 * flag(self.checking_disabled) + 32 * flag(self.authed_data) + 64 * flag(
            self.z,
        ) + 128 * flag(self.recursion_available);
        self.rescode.to_num() + high
    }

    /// Writes the header at the cursor, all of it or nothing.
    pub fn write<T: PacketBuffer>(&self, buffer: &mut T) -> (r: Result<(), DnsError>)
        requires
            old(buffer).wf(),
        ensures
            final(buffer).wf(),
            r is Ok <==> old(buffer).model().cursor + 12 <= old(buffer).model().limit,
            r is Ok ==> wrote(old(buffer).model(), final(buffer).model(), header_wire(*self)),
            r is Err ==> r == Err::<(), DnsError>(DnsError::BufferEnd) && final(buffer).model() == old(buffer).model(),
    {
        let high = self.high_flags();
        let low = self.low_flags();
        let data: [u8; 12] = [
            (self.id / 256) as u8,
            (self.id % 256) as u8,
            high,
            low,
            (self.questions / 256) as u8,
            (self.questions % 256) as u8,
            (self.answers / 256) as u8,
            (self.answers % 256) as u8,
            (self.authoritative_entries / 256) as u8,
            (self.authoritative_entries % 256) as u8,
            (self.resource_entries / 256) as u8,
            (self.resource_entries % 256) as u8,
        ];
        assert(data@ =~= header_wire(*self));
        buffer.write_all(data.as_slice())
    }

    /// The number of octets of a header on the wire.
    pub fn binary_len(&self) -> (n: usize)
        ensures
            n == 12,
            n == header_wire(*self).len(),
    {
        12
    }

    /// Reads the header at the cursor, all of it or nothing.
    pub fn read<T: PacketBuffer>(&mut self, buffer: &mut T) -> (r: Result<(), DnsError>)
        requires
            old(buffer).wf(),
        ensures
            final(buffer).wf(),
            r is Ok <==> old(buffer).model().cursor + 12 <= old(buffer).model().bytes.len(),
            r is Ok ==> *final(self) == header_at(
                old(buffer).model().bytes,
                old(buffer).model().cursor as int,
            ) && moved(old(buffer).model(), final(buffer).model(), old(buffer).model().cursor + 12),
            r is Err ==> r == Err::<(), DnsError>(DnsError::BufferEnd) && *final(self) == *old(self)
                && final(buffer).model() == old(buffer).model(),
    {
        let pos = buffer.pos();
        proof {
            buffer.lemma_wf();
        }
        let data = match buffer.get_range(pos, 12) {
            Ok(d) => d,
            Err(e) => {
                return Err(e);
            },
        };
        let a = data[2];
        let b = data[3];
        let header = DnsHeader {
            id: (data[0] as u16) * 256 + (data[1] as u16),
            recursion_desired: a % 2 == 1,
            truncated_message: (a / 2) % 2 == 1,
            authoritative_answer: (a / 4) % 2 == 1,
            opcode: (a / 8) % 16,
            response: a / 128 == 1,
            rescode: ResultCode::from_num(b % 16),
            checking_disabled: (b / 16) % 2 == 1,
            authed_data: (b / 32) % 2 == 1,
            z: (b / 64) % 2 == 1,
            recursion_available: b / 128 == 1,
            questions: (data[4] as u16) * 256 + (data[5] as u16),
            answers: (data[6] as u16) * 256 + (data[7] as u16),
            authoritative_entries: (data[8] as u16) * 256 + (data[9] as u16),
            resource_entries: (data[10] as u16) * 256 + (data[11] as u16),
        };
        *self = header;
        let _ = buffer.seek(pos + 12);
        Ok(())
    }
}

/// The number of a flag: 1 when it is set.
fn flag(b: bool) -> (n: u8)
    ensures
        n == bit(b),
{
    if b {
        1
    } else {
        0
    }
}

/// One record of a message, of a zone or of the cache.
#[derive(Debug, Clone, PartialEq, Eq)]
pub enum ResourceRecord {
    /// Domain, number of the type, length of the data, time to live.
    UNKNOWN(String, u16, u16, u32),
    /// Domain, address, time to live.
    A(String, Ipv4Addr, u32),
    /// Domain, name server, time to live.
    NS(String, String, u32),
    /// Domain, the name that it stands for, time to live.
    CNAME(String, String, u32),
    /// Domain, primary server, mailbox, serial, refresh, retry, expire,
    /// minimum, time to live.
    SOA(String, String, String, u32, u32, u32, u32, u32, u32),
    /// Domain, priority, mail server, time to live.
    MX(String, u16, String, u32),
    /// Domain, text, time to live.
    TXT(String, String, u32),
    /// Domain, address, time to live.
    AAAA(String, Ipv6Addr, u32),
    /// Domain, priority, weight, port, server, time to live.
    SRV(String, u16, u16, u16, String, u32),
    /// Class, time to live, data.
    OPT(u16, u32, String),
}

/// What a record is to contracts: the record with its texts as sequences of
/// characters.
pub enum RecordModel {
    UNKNOWN(Seq<char>, u16, u16, u32),
    A(Seq<char>, Ipv4Addr, u32),
    NS(Seq<char>, Seq<char>, u32),
    CNAME(Seq<char>, Seq<char>, u32),
    SOA(Seq<char>, Seq<char>, Seq<char>, u32, u32, u32, u32, u32, u32),
    MX(Seq<char>, u16, Seq<char>, u32),
    TXT(Seq<char>, Seq<char>, u32),
    AAAA(Seq<char>, Ipv6Addr, u32),
    SRV(Seq<char>, u16, u16, u16, Seq<char>, u32),
    OPT(u16, u32, Seq<char>),
}

impl View for ResourceRecord {
    type V = RecordModel;

    open spec fn view(&self) -> RecordModel {
        match *self {
            ResourceRecord::UNKNOWN(domain, qtype, len, ttl) => RecordModel::UNKNOWN(
                domain@,
                qtype,
                len,
                ttl,
            ),
            ResourceRecord::A(domain, addr, ttl) => RecordModel::A(domain@, addr, ttl),
            ResourceRecord::NS(domain, host, ttl) => RecordModel::NS(domain@, host@, ttl),
            ResourceRecord::CNAME(domain, host, ttl) => RecordModel::CNAME(domain@, host@, ttl),
            ResourceRecord::SOA(domain, mname, rname, serial, refresh, retry, expire, minimum, ttl) =>
                RecordModel::SOA(
                    domain@,
                    mname@,
                    rname@,
                    serial,
                    refresh,
                    retry,
                    expire,
                    minimum,
                    ttl,
                ),
            ResourceRecord::MX(domain, priority, host, ttl) => RecordModel::MX(
                domain@,
                priority,
                host@,
                ttl,
            ),
            ResourceRecord::TXT(domain, text, ttl) => RecordModel::TXT(domain@, text@, ttl),
            ResourceRecord::AAAA(domain, addr, ttl) => RecordModel::AAAA(domain@, addr, ttl),
            ResourceRecord::SRV(domain, priority, weight, port, host, ttl) => RecordModel::SRV(
                domain@,
                priority,
                weight,
                port,
                host@,
                ttl,
            ),
            ResourceRecord::OPT(class, ttl, data) => RecordModel::OPT(class, ttl, data@),
        }
    }
}

impl RecordModel {
    /// The type of the record.
    pub open spec fn qtype(self) -> QueryType {
        match self {
            RecordModel::UNKNOWN(_, qtype, _, _) => QueryType::UNKNOWN(qtype),
            RecordModel::A(_, _, _) => QueryType::A,
            RecordModel::NS(_, _, _) => QueryType::NS,
            RecordModel::CNAME(_, _, _) => QueryType::CNAME,
            RecordModel::SOA(_, _, _, _, _, _, _, _, _) => QueryType::SOA,
            RecordModel::MX(_, _, _, _) => QueryType::MX,
            RecordModel::TXT(_, _, _) => QueryType::TXT,
            RecordModel::AAAA(_, _, _) => QueryType::AAAA,
            RecordModel::SRV(_, _, _, _, _, _) => QueryType::SRV,
            RecordModel::OPT(_, _, _) => QueryType::OPT,
        }
    }

    /// The domain that the record belongs to; an `OPT` record has none.
    pub open spec fn domain(self) -> Option<Seq<char>> {
        match self {
            RecordModel::UNKNOWN(domain, _, _, _) => Some(domain),
            RecordModel::A(domain, _, _) => Some(domain),
            RecordModel::NS(domain, _, _) => Some(domain),
            RecordModel::CNAME(domain, _, _) => Some(domain),
            RecordModel::SOA(domain, _, _, _, _, _, _, _, _) => Some(domain),
            RecordModel::MX(domain, _, _, _) => Some(domain),
            RecordModel::TXT(domain, _, _) => Some(domain),
            RecordModel::AAAA(domain, _, _) => Some(domain),
            RecordModel::SRV(domain, _, _, _, _, _) => Some(domain),
            RecordModel::OPT(_, _, _) => None,
        }
    }

    /// The time to live of the record; 0 for an `OPT` record.
    pub open spec fn ttl(self) -> u32 {
        match self {
            RecordModel::UNKNOWN(_, _, _, ttl) => ttl,
            RecordModel::A(_, _, ttl) => ttl,
            RecordModel::NS(_, _, ttl) => ttl,
            RecordModel::CNAME(_, _, ttl) => ttl,
            RecordModel::SOA(_, _, _, _, _, _, _, _, ttl) => ttl,
            RecordModel::MX(_, _, _, ttl) => ttl,
            RecordModel::TXT(_, _, ttl) => ttl,
            RecordModel::AAAA(_, _, ttl) => ttl,
            RecordModel::SRV(_, _, _, _, _, ttl) => ttl,
            RecordModel::OPT(_, _, _) => 0,
        }
    }

    /// Whether the record is written to the wire: `OPT` and `UNKNOWN` records
    /// are passed over.
    pub open spec fn emitted(self) -> bool {
        !(self is OPT) && !(self is UNKNOWN)
    }
}

impl ResourceRecord {
    /// The type of the record.
    pub fn get_querytype(&self) -> (t: QueryType)
        ensures
            t == self@.qtype(),
    {
        match *self {
            ResourceRecord::A(_, _, _) => QueryType::A,
            ResourceRecord::AAAA(_, _, _) => QueryType::AAAA,
            ResourceRecord::NS(_, _, _) => QueryType::NS,
            ResourceRecord::CNAME(_, _, _) => QueryType::CNAME,
            ResourceRecord::SRV(_, _, _, _, _, _) => QueryType::SRV,
            ResourceRecord::MX(_, _, _, _) => QueryType::MX,
            ResourceRecord::UNKNOWN(_, qtype, _, _) => QueryType::UNKNOWN(qtype),
            ResourceRecord::SOA(_, _, _, _, _, _, _, _, _) => QueryType::SOA,
            ResourceRecord::TXT(_, _, _) => QueryType::TXT,
            ResourceRecord::OPT(_, _, _) => QueryType::OPT,
        }
    }

    /// The domain that the record belongs to, borrowed.
    pub fn domain_ref(&self) -> (d: Option<&String>)
        ensures
            match d {
                Some(s) => self@.domain() == Some(s@),
                None => self@.domain() is None,
            },
    {
        match self {
            ResourceRecord::A(domain, _, _) => Some(domain),
            ResourceRecord::AAAA(domain, _, _) => Some(domain),
            ResourceRecord::NS(domain, _, _) => Some(domain),
            ResourceRecord::CNAME(domain, _, _) => Some(domain),
            ResourceRecord::SRV(domain, _, _, _, _, _) => Some(domain),
            ResourceRecord::MX(domain, _, _, _) => Some(domain),
            ResourceRecord::UNKNOWN(domain, _, _, _) => Some(domain),
            ResourceRecord::SOA(domain, _, _, _, _, _, _, _, _) => Some(domain),
            ResourceRecord::TXT(domain, _, _) => Some(domain),
            ResourceRecord::OPT(_, _, _) => None,
        }
    }

    /// The domain that the record belongs to; an `OPT` record has none.
    pub fn get_domain(&self) -> (d: Option<String>)
        ensures
            match d {
                Some(s) => self@.domain() == Some(s@),
                None => self@.domain() is None,
            },
    {
        match self.domain_ref() {
            Some(domain) => Some(domain.clone()),
            None => None,
        }
    }

    /// The time to live of the record; 0 for an `OPT` record.
    pub fn get_ttl(&self) -> (ttl: u32)
        ensures
            ttl == self@.ttl(),
    {
        match *self {
            ResourceRecord::A(_, _, ttl) => ttl,
            ResourceRecord::AAAA(_, _, ttl) => ttl,
            ResourceRecord::NS(_, _, ttl) => ttl,
            ResourceRecord::CNAME(_, _, ttl) => ttl,
            ResourceRecord::SRV(_, _, _, _, _, ttl) => ttl,
            ResourceRecord::MX(_, _, _, ttl) => ttl,
            ResourceRecord::UNKNOWN(_, _, _, ttl) => ttl,
            ResourceRecord::SOA(_, _, _, _, _, _, _, _, ttl) => ttl,
            ResourceRecord::TXT(_, _, ttl) => ttl,
            ResourceRecord::OPT(_, _, _) => 0,
        }
    }

    /// A copy of the record.
    pub fn duplicate(&self) -> (r: ResourceRecord)
        ensures
            r@ == self@,
    {
        match self {
            ResourceRecord::UNKNOWN(domain, qtype, len, ttl) => ResourceRecord::UNKNOWN(
                domain.clone(),
                *qtype,
                *len,
                *ttl,
            ),
            ResourceRecord::A(domain, addr, ttl) => ResourceRecord::A(domain.clone(), *addr, *ttl),
            ResourceRecord::NS(domain, host, ttl) => ResourceRecord::NS(
                domain.clone(),
                host.clone(),
                *ttl,
            ),
            ResourceRecord::CNAME(domain, host, ttl) => ResourceRecord::CNAME(
                domain.clone(),
                host.clone(),
                *ttl,
            ),
            ResourceRecord::SOA(domain, mname, rname, serial, refresh, retry, expire, minimum, ttl) =>
                ResourceRecord::SOA(
                    domain.clone(),
                    mname.clone(),
                    rname.clone(),
                    *serial,
                    *refresh,
                    *retry,
                    *expire,
                    *minimum,
                    *ttl,
                ),
            ResourceRecord::MX(domain, priority, host, ttl) => ResourceRecord::MX(
                domain.clone(),
                *priority,
                host.clone(),
                *ttl,
            ),
            ResourceRecord::TXT(domain, text, ttl) => ResourceRecord::TXT(
                domain.clone(),
                text.clone(),
                *ttl,
            ),
            ResourceRecord::AAAA(domain, addr, ttl) => ResourceRecord::AAAA(
                domain.clone(),
                *addr,
                *ttl,
            ),
            ResourceRecord::SRV(domain, priority, weight, port, host, ttl) => ResourceRecord::SRV(
                domain.clone(),
                *priority,
                *weight,
                *port,
                host.clone(),
                *ttl,
            ),
            ResourceRecord::OPT(class, ttl, data) => ResourceRecord::OPT(*class, *ttl, data.clone()),
        }
    }
}

/// One question of a message. Its class is always 1 on the wire.
#[derive(Debug, Clone, PartialEq, Eq)]
pub struct DnsQuestion {
    pub name: String,
    pub qtype: QueryType,
}

/// What a question is to contracts.
pub struct QuestionModel {
    pub name: Seq<char>,
    pub qtype: QueryType,
}

impl View for DnsQuestion {
    type V = QuestionModel;

    open spec fn view(&self) -> QuestionModel {
        QuestionModel { name: self.name@, qtype: self.qtype }
    }
}

impl DnsQuestion {
    /// The question for the records of type `qtype` of `name`.
    pub fn new(name: &String, qtype: QueryType) -> (q: DnsQuestion)
        ensures
            q@ == (QuestionModel { name: name@, qtype }),
    {
        DnsQuestion { name: name.clone(), qtype }
    }
}

/// A text that is appended to the empty text is the result.
pub proof fn lemma_empty_text()
    ensures
        forall|text: Seq<char>| #[trigger] (Seq::<char>::empty() + text) == text,
{
    assert forall|text: Seq<char>| #[trigger] (Seq::<char>::empty() + text) == text by {
        assert(Seq::<char>::empty() + text =~= text);
    }
}

/// The octets, the limit and the table of names are the same.
pub open spec fn same_data(before: BufferModel, after: BufferModel) -> bool {
    &&& after.bytes == before.bytes
    &&& after.limit == before.limit
    &&& after.labels == before.labels
}

impl DnsQuestion {
    /// The number of octets of the question on the wire without pointers;
    /// the largest number where it has more than a `usize` holds.
    pub fn binary_len<T: PacketBuffer>(&self, buffer: &T) -> (n: usize)
        ensures
            n == if plain_wire(octets(self.name@)).len() + 4 <= usize::MAX {
                plain_wire(octets(self.name@)).len() + 4
            } else {
                usize::MAX as nat
            },
    {
        buffer.qname_len(self.name.as_str()).saturating_add(4)
    }

    /// Writes the question at the cursor: its name, its type and the class 1.
    pub fn write<T: PacketBuffer>(&self, buffer: &mut T) -> (r: Result<(), DnsError>)
        requires
            old(buffer).wf(),
        ensures
            final(buffer).wf(),
            final(buffer).model().limit == old(buffer).model().limit,
            r is Ok <==> old(buffer).model().cursor + emit_question(
                old(buffer).model().labels,
                old(buffer).model().cursor,
                self@,
            ).bytes.len() <= old(buffer).model().limit,
            r is Ok ==> final(buffer).model() == appended(
                old(buffer).model(),
                emit_question(old(buffer).model().labels, old(buffer).model().cursor, self@),
            ),
            r matches Err(e) ==> e == DnsError::BufferEnd,
    {
        let ghost m0 = buffer.model();
        let ghost name = emit_name(m0.labels, m0.cursor, self.name@);
        buffer.write_qname(self.name.as_str())?;
        buffer.write_u16(self.qtype.to_num())?;
        buffer.write_u16(1)?;
        proof {
            let kind = raw(name.labels, be16(self.qtype.num()));
            let class = raw(name.labels, be16(1));
            lemma_appended_twice(m0, name, kind);
            lemma_appended_twice(m0, and_then(name, kind), class);
            assert(and_then(and_then(name, kind), class).bytes =~= emit_question(
                m0.labels,
                m0.cursor,
                self@,
            ).bytes);
        }
        Ok(())
    }

    /// Reads a question at the cursor: a name, which is appended to the name
    /// that the question holds, a type, and a class that is passed over. A
    /// failed read changes nothing.
    pub fn read<T: PacketBuffer>(&mut self, buffer: &mut T) -> (r: Result<(), DnsError>)
        requires
            old(buffer).wf(),
        ensures
            final(buffer).wf(),
            match parse_question(old(buffer).model().bytes, old(buffer).model().cursor as int) {
                Ok((q, end)) => r is Ok && final(self)@ == (QuestionModel {
                    name: old(self).name@ + q.name,
                    qtype: q.qtype,
                }) && moved(old(buffer).model(), final(buffer).model(), end as nat),
                Err(e) => r == Err::<(), DnsError>(e) && final(self)@ == old(self)@ && final(buffer).model() == old(buffer).model(),
            },
    {
        let start = buffer.pos();
        proof {
            buffer.lemma_wf();
        }
        let mut name = String::new();
        proof {
            lemma_empty_text();
        }
        match buffer.read_qname(&mut name) {
            Ok(()) => {},
            Err(e) => {
                return Err(e);
            },
        }
        let qtype = match buffer.read_u16() {
            Ok(v) => v,
            Err(e) => {
                let _ = buffer.seek(start);
                return Err(e);
            },
        };
        match buffer.read_u16() {
            Ok(_) => {},
            Err(e) => {
                let _ = buffer.seek(start);
                return Err(e);
            },
        }
        self.name.append(name.as_str());
        self.qtype = QueryType::from_num(qtype);
        Ok(())
    }
}

/// Writes `data` behind what was written since the buffer was `origin`.
fn put_bytes<T: PacketBuffer>(
    buffer: &mut T,
    data: &[u8],
    Ghost(origin): Ghost<BufferModel>,
    Ghost(done): Ghost<Emitted>,
) -> (r: Result<(), DnsError>)
    requires
        old(buffer).wf(),
        old(buffer).model() == appended(origin, done),
    ensures
        final(buffer).wf(),
        final(buffer).model().limit == origin.limit,
        r is Ok <==> origin.cursor + done.bytes.len() + data@.len() <= origin.limit,
        r is Ok ==> final(buffer).model() == appended(origin, and_then(done, raw(done.labels, data@))),
        r matches Err(e) ==> e == DnsError::BufferEnd,
{
    proof {
        lemma_appended_twice(origin, done, raw(done.labels, data@));
    }
    buffer.write_all(data)
}

/// Writes a 16-bit number behind what was written since the buffer was
/// `origin`.
fn put_u16<T: PacketBuffer>(
    buffer: &mut T,
    val: u16,
    Ghost(origin): Ghost<BufferModel>,
    Ghost(done): Ghost<Emitted>,
) -> (r: Result<(), DnsError>)
    requires
        old(buffer).wf(),
        old(buffer).model() == appended(origin, done),
    ensures
        final(buffer).wf(),
        final(buffer).model().limit == origin.limit,
        r is Ok <==> origin.cursor + done.bytes.len() + 2 <= origin.limit,
        r is Ok ==> final(buffer).model() == appended(
            origin,
            and_then(done, raw(done.labels, be16(val))),
        ),
        r matches Err(e) ==> e == DnsError::BufferEnd,
{
    proof {
        lemma_appended_twice(origin, done, raw(done.labels, be16(val)));
    }
    buffer.write_u16(val)
}

/// Writes a 32-bit number behind what was written since the buffer was
/// `origin`.
fn put_u32<T: PacketBuffer>(
    buffer: &mut T,
    val: u32,
    Ghost(origin): Ghost<BufferModel>,
    Ghost(done): Ghost<Emitted>,
) -> (r: Result<(), DnsError>)
    requires
        old(buffer).wf(),
        old(buffer).model() == appended(origin, done),
    ensures
        final(buffer).wf(),
        final(buffer).model().limit == origin.limit,
        r is Ok <==> origin.cursor + done.bytes.len() + 4 <= origin.limit,
        r is Ok ==> final(buffer).model() == appended(
            origin,
            and_then(done, raw(done.labels, be32(val))),
        ),
        r matches Err(e) ==> e == DnsError::BufferEnd,
{
    proof {
        lemma_appended_twice(origin, done, raw(done.labels, be32(val)));
    }
    buffer.write_u32(val)
}

/// Writes a name behind what was written since the buffer was `origin`.
fn put_name<T: PacketBuffer>(
    buffer: &mut T,
    name: &String,
    Ghost(origin): Ghost<BufferModel>,
    Ghost(done): Ghost<Emitted>,
) -> (r: Result<(), DnsError>)
    requires
        old(buffer).wf(),
        old(buffer).model() == appended(origin, done),
    ensures
        final(buffer).wf(),
        final(buffer).model().limit == origin.limit,
        r is Ok <==> origin.cursor + done.bytes.len() + emit_name(
            done.labels,
            origin.cursor + done.bytes.len(),
            name@,
        ).bytes.len() <= origin.limit,
        r is Ok ==> final(buffer).model() == appended(
            origin,
            and_then(done, emit_name(done.labels, origin.cursor + done.bytes.len(), name@)),
        ),
        r matches Err(e) ==> e == DnsError::BufferEnd,
{
    proof {
        lemma_appended_twice(
            origin,
            done,
            emit_name(done.labels, origin.cursor + done.bytes.len(), name@),
        );
    }
    buffer.write_qname(name.as_str())
}

impl ResourceRecord {
    /// Writes the data of the record at the cursor.
    fn write_rdata<T: PacketBuffer>(&self, buffer: &mut T) -> (r: Result<(), DnsError>)
        requires
            old(buffer).wf(),
        ensures
            final(buffer).wf(),
            final(buffer).model().limit == old(buffer).model().limit,
            r is Ok <==> old(buffer).model().cursor + emit_rdata(
                old(buffer).model().labels,
                old(buffer).model().cursor,
                self@,
            ).bytes.len() <= old(buffer).model().limit,
            r is Ok ==> final(buffer).model() == appended(
                old(buffer).model(),
                emit_rdata(old(buffer).model().labels, old(buffer).model().cursor, self@),
            ),
            r matches Err(e) ==> e == DnsError::BufferEnd,
    {
        let ghost m0 = buffer.model();
        let ghost e0 = raw(m0.labels, Seq::empty());
        let ghost goal = emit_rdata(m0.labels, m0.cursor, self@);
        proof {
            lemma_appended_nothing(m0);
            buffer.lemma_wf();
        }
        match self {
            ResourceRecord::A(_, addr, _) => {
                let data = addr.octets();
                put_bytes(buffer, data.as_slice(), Ghost(m0), Ghost(e0))?;
                assert(and_then(e0, raw(e0.labels, data@)).bytes =~= goal.bytes);
            },
            ResourceRecord::AAAA(_, addr, _) => {
                let data: [u8; 16] = [
                    (addr.a / 256) as u8,
                    (addr.a % 256) as u8,
                    (addr.b / 256) as u8,
                    (addr.b % 256) as u8,
                    (addr.c / 256) as u8,
                    (addr.c % 256) as u8,
                    (addr.d / 256) as u8,
                    (addr.d % 256) as u8,
                    (addr.e / 256) as u8,
                    (addr.e % 256) as u8,
                    (addr.f / 256) as u8,
                    (addr.f % 256) as u8,
                    (addr.g / 256) as u8,
                    (addr.g % 256) as u8,
                    (addr.h / 256) as u8,
                    (addr.h % 256) as u8,
                ];
                assert(data@ =~= goal.bytes);
                put_bytes(buffer, data.as_slice(), Ghost(m0), Ghost(e0))?;
                assert(and_then(e0, raw(e0.labels, data@)).bytes =~= goal.bytes);
            },
            ResourceRecord::NS(_, host, _) => {
                put_name(buffer, host, Ghost(m0), Ghost(e0))?;
                assert(and_then(e0, emit_name(m0.labels, m0.cursor, host@)).bytes =~= goal.bytes);
            },
            ResourceRecord::CNAME(_, host, _) => {
                put_name(buffer, host, Ghost(m0), Ghost(e0))?;
                assert(and_then(e0, emit_name(m0.labels, m0.cursor, host@)).bytes =~= goal.bytes);
            },
            ResourceRecord::MX(_, priority, host, _) => {
                put_u16(buffer, *priority, Ghost(m0), Ghost(e0))?;
                let ghost e1 = and_then(e0, raw(e0.labels, be16(*priority)));
                put_name(buffer, host, Ghost(m0), Ghost(e1))?;
                assert(and_then(e1, emit_name(m0.labels, m0.cursor + 2, host@)).bytes
                    =~= goal.bytes);
            },
            ResourceRecord::SRV(_, priority, weight, port, host, _) => {
                put_u16(buffer, *priority, Ghost(m0), Ghost(e0))?;
                let ghost e1 = and_then(e0, raw(e0.labels, be16(*priority)));
                put_u16(buffer, *weight, Ghost(m0), Ghost(e1))?;
                let ghost e2 = and_then(e1, raw(e0.labels, be16(*weight)));
                put_u16(buffer, *port, Ghost(m0), Ghost(e2))?;
                let ghost e3 = and_then(e2, raw(e0.labels, be16(*port)));
                put_name(buffer, host, Ghost(m0), Ghost(e3))?;
                assert(and_then(e3, emit_name(m0.labels, m0.cursor + 6, host@)).bytes
                    =~= goal.bytes);
            },
            ResourceRecord::SOA(_, mname, rname, serial, refresh, retry, expire, minimum, _) => {
                let ghost first = emit_name(m0.labels, m0.cursor, mname@);
                let ghost second = emit_name(first.labels, m0.cursor + first.bytes.len(), rname@);
                put_name(buffer, mname, Ghost(m0), Ghost(e0))?;
                let ghost e1 = and_then(e0, first);
                assert(e1.bytes =~= first.bytes);
                put_name(buffer, rname, Ghost(m0), Ghost(e1))?;
                let ghost e2 = and_then(e1, second);
                put_u32(buffer, *serial, Ghost(m0), Ghost(e2))?;
                let ghost e3 = and_then(e2, raw(e2.labels, be32(*serial)));
                put_u32(buffer, *refresh, Ghost(m0), Ghost(e3))?;
                let ghost e4 = and_then(e3, raw(e2.labels, be32(*refresh)));
                put_u32(buffer, *retry, Ghost(m0), Ghost(e4))?;
                let ghost e5 = and_then(e4, raw(e2.labels, be32(*retry)));
                put_u32(buffer, *expire, Ghost(m0), Ghost(e5))?;
                let ghost e6 = and_then(e5, raw(e2.labels, be32(*expire)));
                put_u32(buffer, *minimum, Ghost(m0), Ghost(e6))?;
                assert(and_then(e6, raw(e2.labels, be32(*minimum))).bytes =~= goal.bytes);
            },
            ResourceRecord::TXT(_, text, _) => {
                put_bytes(buffer, text.as_str().as_bytes(), Ghost(m0), Ghost(e0))?;
                assert(and_then(e0, raw(e0.labels, octets(text@))).bytes =~= goal.bytes);
            },
            ResourceRecord::OPT(_, _, _) => {},
            ResourceRecord::UNKNOWN(_, _, _, _) => {},
        }
        Ok(())
    }

    /// Writes the record at the cursor and returns the number of octets
    /// written. An `OPT` or `UNKNOWN` record is passed over: nothing is written
    /// for it.
    pub fn write<T: PacketBuffer>(&self, buffer: &mut T) -> (r: Result<usize, DnsError>)
        requires
            old(buffer).wf(),
        ensures
            final(buffer).wf(),
            final(buffer).model().limit == old(buffer).model().limit,
            r is Ok <==> old(buffer).model().cursor + emit_record(
                old(buffer).model().labels,
                old(buffer).model().cursor,
                self@,
            ).bytes.len() <= old(buffer).model().limit,
            r matches Ok(n) ==> n == emit_record(
                old(buffer).model().labels,
                old(buffer).model().cursor,
                self@,
            ).bytes.len() && final(buffer).model() == appended(
                old(buffer).model(),
                emit_record(old(buffer).model().labels, old(buffer).model().cursor, self@),
            ),
            r matches Err(e) ==> e == DnsError::BufferEnd,
    {
        let ghost m0 = buffer.model();
        let ghost e0 = raw(m0.labels, Seq::empty());
        let ghost goal = emit_record(m0.labels, m0.cursor, self@);
        proof {
            reveal(emit_record);
            lemma_appended_nothing(m0);
            buffer.lemma_wf();
        }
        let domain = match self {
            ResourceRecord::OPT(_, _, _) => {
                return Ok(0);
            },
            ResourceRecord::UNKNOWN(_, _, _, _) => {
                return Ok(0);
            },
            ResourceRecord::A(domain, _, _) => domain,
            ResourceRecord::AAAA(domain, _, _) => domain,
            ResourceRecord::NS(domain, _, _) => domain,
            ResourceRecord::CNAME(domain, _, _) => domain,
            ResourceRecord::SRV(domain, _, _, _, _, _) => domain,
            ResourceRecord::MX(domain, _, _, _) => domain,
            ResourceRecord::SOA(domain, _, _, _, _, _, _, _, _) => domain,
            ResourceRecord::TXT(domain, _, _) => domain,
        };
        let qtype = self.get_querytype().to_num();
        let ttl = self.get_ttl();
        let ghost head = emit_preamble(m0.labels, m0.cursor, self@);
        let ghost data = emit_rdata(head.labels, m0.cursor + head.bytes.len() + 2, self@);
        let start = buffer.pos();
        put_name(buffer, domain, Ghost(m0), Ghost(e0))?;
        let ghost e1 = and_then(e0, emit_name(m0.labels, m0.cursor, domain@));
        put_u16(buffer, qtype, Ghost(m0), Ghost(e1))?;
        let ghost e2 = and_then(e1, raw(e1.labels, be16(qtype)));
        put_u16(buffer, 1, Ghost(m0), Ghost(e2))?;
        let ghost e3 = and_then(e2, raw(e1.labels, be16(1)));
        put_u32(buffer, ttl, Ghost(m0), Ghost(e3))?;
        let ghost e4 = and_then(e3, raw(e1.labels, be32(ttl)));
        assert(e4.bytes =~= head.bytes);
        assert(e4 == head);
        let slot = buffer.pos();
        put_u16(buffer, 0, Ghost(m0), Ghost(head))?;
        let ghost e5 = and_then(head, raw(head.labels, be16(0)));
        self.write_rdata(buffer)?;
        let end = buffer.pos();
        proof {
            lemma_appended_twice(m0, e5, data);
            buffer.lemma_wf();
        }
        let size = end - (slot + 2);
        let _ = buffer.set_u16(slot, (size % 0x1_0000) as u16);
        proof {
            let len = be16((size % 0x1_0000) as u16);
            lemma_overlay_slot(m0.bytes, m0.cursor, head.bytes, be16(0), data.bytes, len);
            assert(and_then(e5, data).bytes =~= head.bytes + be16(0) + data.bytes);
            assert(goal.bytes =~= head.bytes + len + data.bytes);
        }
        Ok(end - start)
    }
}

/// What stands before the data of a record, as it was read.
struct HeadRead {
    domain: String,
    qtype: u16,
    class: u16,
    ttl: u32,
    data_len: u16,
}

impl View for HeadRead {
    type V = RecordHead;

    closed spec fn view(&self) -> RecordHead {
        RecordHead {
            domain: self.domain@,
            qtype: self.qtype,
            class: self.class,
            ttl: self.ttl,
            data_len: self.data_len,
        }
    }
}

/// Reads what stands before the data of a record. A failed read may leave the
/// cursor anywhere.
fn read_head<T: PacketBuffer>(buffer: &mut T) -> (r: Result<HeadRead, DnsError>)
    requires
        old(buffer).wf(),
    ensures
        final(buffer).wf(),
        same_data(old(buffer).model(), final(buffer).model()),
        match parse_head(old(buffer).model().bytes, old(buffer).model().cursor as int) {
            Ok((head, end)) => r matches Ok(h) && h@ == head && final(buffer).model().cursor == end,
            Err(e) => r matches Err(x) && x == e,
        },
{
    let mut domain = String::new();
    proof {
        lemma_empty_text();
    }
    buffer.read_qname(&mut domain)?;
    let qtype = buffer.read_u16()?;
    let class = buffer.read_u16()?;
    let ttl = buffer.read_u32()?;
    let data_len = buffer.read_u16()?;
    Ok(HeadRead { domain, qtype, class, ttl, data_len })
}

/// Reads a name into a new text. A failed read changes nothing.
fn read_text<T: PacketBuffer>(buffer: &mut T) -> (r: Result<String, DnsError>)
    requires
        old(buffer).wf(),
    ensures
        final(buffer).wf(),
        same_data(old(buffer).model(), final(buffer).model()),
        match read_name(old(buffer).model().bytes, old(buffer).model().cursor as int) {
            Ok((text, end)) => r matches Ok(s) && s@ == text && final(buffer).model().cursor == end,
            Err(e) => r matches Err(x) && x == e,
        },
{
    let mut text = String::new();
    proof {
        lemma_empty_text();
    }
    buffer.read_qname(&mut text)?;
    Ok(text)
}

/// Reads the `len` octets at the cursor and moves the cursor behind them. A
/// failed read changes nothing.
fn read_bytes_text<T: PacketBuffer>(buffer: &mut T, len: u16) -> (r: Result<String, DnsError>)
    requires
        old(buffer).wf(),
    ensures
        final(buffer).wf(),
        same_data(old(buffer).model(), final(buffer).model()),
        match take_bytes(old(buffer).model().bytes, old(buffer).model().cursor as int, len as int) {
            Ok((data, end)) => r matches Ok(s) && s@ == text_of(data) && final(buffer).model().cursor == end,
            Err(e) => r matches Err(x) && x == e,
        },
{
    let pos = buffer.pos();
    proof {
        buffer.lemma_wf();
    }
    let text = match buffer.get_range(pos, len as usize) {
        Ok(data) => lossy_string(data),
        Err(e) => {
            return Err(e);
        },
    };
    let _ = buffer.seek(pos + len as usize);
    Ok(text)
}

/// Reads the data of a record whose head was read, and makes the record.
fn read_rdata<T: PacketBuffer>(buffer: &mut T, head: HeadRead) -> (r: Result<
    ResourceRecord,
    DnsError,
>)
    requires
        old(buffer).wf(),
    ensures
        final(buffer).wf(),
        same_data(old(buffer).model(), final(buffer).model()),
        match parse_rdata(old(buffer).model().bytes, old(buffer).model().cursor as int, head@) {
            Ok((rec, end)) => r matches Ok(x) && x@ == rec && final(buffer).model().cursor == end,
            Err(e) => r matches Err(x) && x == e,
        },
{
    let HeadRead { domain, qtype, class, ttl, data_len } = head;
    match QueryType::from_num(qtype) {
        QueryType::A => {
            let a = buffer.read_u8()?;
            let b = buffer.read_u8()?;
            let c = buffer.read_u8()?;
            let d = buffer.read_u8()?;
            Ok(ResourceRecord::A(domain, Ipv4Addr::new(a, b, c, d), ttl))
        },
        QueryType::AAAA => {
            let a = buffer.read_u16()?;
            let b = buffer.read_u16()?;
            let c = buffer.read_u16()?;
            let d = buffer.read_u16()?;
            let e = buffer.read_u16()?;
            let f = buffer.read_u16()?;
            let g = buffer.read_u16()?;
            let h = buffer.read_u16()?;
            Ok(ResourceRecord::AAAA(domain, Ipv6Addr::new(a, b, c, d, e, f, g, h), ttl))
        },
        QueryType::NS => {
            let host = read_text(buffer)?;
            Ok(ResourceRecord::NS(domain, host, ttl))
        },
        QueryType::CNAME => {
            let host = read_text(buffer)?;
            Ok(ResourceRecord::CNAME(domain, host, ttl))
        },
        QueryType::SRV => {
            let priority = buffer.read_u16()?;
            let weight = buffer.read_u16()?;
            let port = buffer.read_u16()?;
            let host = read_text(buffer)?;
            Ok(ResourceRecord::SRV(domain, priority, weight, port, host, ttl))
        },
        QueryType::MX => {
            let priority = buffer.read_u16()?;
            let host = read_text(buffer)?;
            Ok(ResourceRecord::MX(domain, priority, host, ttl))
        },
        QueryType::SOA => {
            let mname = read_text(buffer)?;
            let rname = read_text(buffer)?;
            let serial = buffer.read_u32()?;
            let refresh = buffer.read_u32()?;
            let retry = buffer.read_u32()?;
            let expire = buffer.read_u32()?;
            let minimum = buffer.read_u32()?;
            Ok(ResourceRecord::SOA(domain, mname, rname, serial, refresh, retry, expire, minimum, ttl))
        },
        QueryType::TXT => {
            let text = read_bytes_text(buffer, data_len)?;
            Ok(ResourceRecord::TXT(domain, text, ttl))
        },
        QueryType::OPT => {
            let data = read_bytes_text(buffer, data_len)?;
            Ok(ResourceRecord::OPT(class, ttl, data))
        },
        QueryType::UNKNOWN(_) => {
            let _ = read_bytes_text(buffer, data_len)?;
            Ok(ResourceRecord::UNKNOWN(domain, qtype, data_len, ttl))
        },
    }
}

impl ResourceRecord {
    /// Reads the record at the cursor: name, type, class, time to live, length
    /// of the data, and the data as the type asks. A failed read changes
    /// nothing.
    pub fn read<T: PacketBuffer>(buffer: &mut T) -> (r: Result<ResourceRecord, DnsError>)
        requires
            old(buffer).wf(),
        ensures
            final(buffer).wf(),
            match parse_record(old(buffer).model().bytes, old(buffer).model().cursor as int) {
                Ok((rec, end)) => r matches Ok(x) && x@ == rec && 0 <= end && moved(
                    old(buffer).model(),
                    final(buffer).model(),
                    end as nat,
                ),
                Err(e) => r matches Err(x) && x == e && final(buffer).model() == old(buffer).model(),
            },
    {
        let start = buffer.pos();
        proof {
            buffer.lemma_wf();
            reveal(parse_record);
        }
        let head = match read_head(buffer) {
            Ok(h) => h,
            Err(e) => {
                let _ = buffer.seek(start);
                return Err(e);
            },
        };
        match read_rdata(buffer, head) {
            Ok(rec) => Ok(rec),
            Err(e) => {
                let _ = buffer.seek(start);
                Err(e)
            },
        }
    }
}

/// A message: the header and the four sections.
#[derive(Clone, Debug)]
pub struct DnsPacket {
    pub header: DnsHeader,
    pub questions: Vec<DnsQuestion>,
    pub answers: Vec<ResourceRecord>,
    pub authorities: Vec<ResourceRecord>,
    pub resources: Vec<ResourceRecord>,
}

/// What a message is to contracts.
pub struct PacketModel {
    pub header: DnsHeader,
    pub questions: Seq<QuestionModel>,
    pub answers: Seq<RecordModel>,
    pub authorities: Seq<RecordModel>,
    pub resources: Seq<RecordModel>,
}

/// The records as contracts see them.
pub open spec fn record_views(recs: Seq<ResourceRecord>) -> Seq<RecordModel> {
    Seq::new(recs.len(), |i: int| recs[i]@)
}

/// The questions as contracts see them.
pub open spec fn question_views(questions: Seq<DnsQuestion>) -> Seq<QuestionModel> {
    Seq::new(questions.len(), |i: int| questions[i]@)
}

impl View for DnsPacket {
    type V = PacketModel;

    open spec fn view(&self) -> PacketModel {
        PacketModel {
            header: self.header,
            questions: question_views(self.questions@),
            answers: record_views(self.answers@),
            authorities: record_views(self.authorities@),
            resources: record_views(self.resources@),
        }
    }
}

/// Reads `count` records, one behind the other. A failed read may leave the
/// cursor anywhere.
fn read_records<T: PacketBuffer>(buffer: &mut T, count: u16) -> (r: Result<
    Vec<ResourceRecord>,
    DnsError,
>)
    requires
        old(buffer).wf(),
    ensures
        final(buffer).wf(),
        same_data(old(buffer).model(), final(buffer).model()),
        match parse_records(
            old(buffer).model().bytes,
            old(buffer).model().cursor as int,
            count as nat,
        ) {
            Ok((recs, end)) => r matches Ok(v) && record_views(v@) == recs && final(buffer).model().cursor == end,
            Err(e) => r matches Err(x) && x == e,
        },
{
    let ghost bytes = buffer.model().bytes;
    let ghost start = buffer.model().cursor as int;
    let mut done: Vec<ResourceRecord> = Vec::new();
    let mut i: u16 = 0;
    proof {
        let whole = parse_records(bytes, start, count as nat);
        if whole is Ok {
            assert(record_views(done@) + whole->Ok_0.0 =~= whole->Ok_0.0);
        }
    }
    while i < count
        invariant
            buffer.wf(),
            same_data(old(buffer).model(), buffer.model()),
            bytes == buffer.model().bytes,
            start == old(buffer).model().cursor,
            i <= count,
            done@.len() == i,
            parse_records(bytes, start, count as nat) == match parse_records(
                bytes,
                buffer.model().cursor as int,
                (count - i) as nat,
            ) {
                Ok((rest, end)) => Ok::<(Seq<RecordModel>, int), DnsError>(
                    (record_views(done@) + rest, end),
                ),
                Err(e) => Err::<(Seq<RecordModel>, int), DnsError>(e),
            },
        decreases count - i,
    {
        let ghost before = record_views(done@);
        let rec = ResourceRecord::read(buffer)?;
        proof {
            let next = record_views(done@.push(rec));
            assert(next =~= before.push(rec@));
            let tail = parse_records(bytes, buffer.model().cursor as int, (count - i - 1) as nat);
            if tail is Ok {
                let rest = tail->Ok_0.0;
                assert(before + (seq![rec@] + rest) =~= next + rest);
            }
        }
        done.push(rec);
        i = i + 1;
    }
    proof {
        assert(record_views(done@) + Seq::<RecordModel>::empty() =~= record_views(done@));
    }
    Ok(done)
}

/// Reads `count` questions, one behind the other. A failed read may leave the
/// cursor anywhere.
fn read_questions<T: PacketBuffer>(buffer: &mut T, count: u16) -> (r: Result<
    Vec<DnsQuestion>,
    DnsError,
>)
    requires
        old(buffer).wf(),
    ensures
        final(buffer).wf(),
        same_data(old(buffer).model(), final(buffer).model()),
        match parse_questions(
            old(buffer).model().bytes,
            old(buffer).model().cursor as int,
            count as nat,
        ) {
            Ok((questions, end)) => r matches Ok(v) && question_views(v@) == questions && final(buffer).model().cursor == end,
            Err(e) => r matches Err(x) && x == e,
        },
{
    let ghost bytes = buffer.model().bytes;
    let ghost start = buffer.model().cursor as int;
    let mut done: Vec<DnsQuestion> = Vec::new();
    let mut i: u16 = 0;
    proof {
        let whole = parse_questions(bytes, start, count as nat);
        if whole is Ok {
            assert(question_views(done@) + whole->Ok_0.0 =~= whole->Ok_0.0);
        }
    }
    while i < count
        invariant
            buffer.wf(),
            same_data(old(buffer).model(), buffer.model()),
            bytes == buffer.model().bytes,
            start == old(buffer).model().cursor,
            i <= count,
            done@.len() == i,
            parse_questions(bytes, start, count as nat) == match parse_questions(
                bytes,
                buffer.model().cursor as int,
                (count - i) as nat,
            ) {
                Ok((rest, end)) => Ok::<(Seq<QuestionModel>, int), DnsError>(
                    (question_views(done@) + rest, end),
                ),
                Err(e) => Err::<(Seq<QuestionModel>, int), DnsError>(e),
            },
        decreases count - i,
    {
        let ghost before = question_views(done@);
        let mut question = DnsQuestion { name: String::new(), qtype: QueryType::UNKNOWN(0) };
        proof {
            lemma_empty_text();
        }
        question.read(buffer)?;
        proof {
            let next = question_views(done@.push(question));
            assert(next =~= before.push(question@));
            let tail = parse_questions(bytes, buffer.model().cursor as int, (count - i - 1) as nat);
            if tail is Ok {
                let rest = tail->Ok_0.0;
                assert(before + (seq![question@] + rest) =~= next + rest);
            }
        }
        done.push(question);
        i = i + 1;
    }
    proof {
        assert(question_views(done@) + Seq::<QuestionModel>::empty() =~= question_views(done@));
    }
    Ok(done)
}

impl DnsPacket {
    /// A message with a blank header and empty sections.
    pub fn new() -> (p: DnsPacket)
        ensures
            p@ == (PacketModel {
                header: DnsHeader::blank(),
                questions: Seq::empty(),
                answers: Seq::empty(),
                authorities: Seq::empty(),
                resources: Seq::empty(),
            }),
    {
        let p = DnsPacket {
            header: DnsHeader::new(),
            questions: Vec::new(),
            answers: Vec::new(),
            authorities: Vec::new(),
            resources: Vec::new(),
        };
        proof {
            assert(question_views(p.questions@) =~= Seq::empty());
            assert(record_views(p.answers@) =~= Seq::empty());
            assert(record_views(p.authorities@) =~= Seq::empty());
            assert(record_views(p.resources@) =~= Seq::empty());
        }
        p
    }

    /// Reads a message at the cursor: the header, then as many questions,
    /// answers, authorities and additional records as the header counts. A
    /// failed read changes nothing.
    pub fn from_buffer<T: PacketBuffer>(buffer: &mut T) -> (r: Result<DnsPacket, DnsError>)
        requires
            old(buffer).wf(),
        ensures
            final(buffer).wf(),
            match parse_packet(old(buffer).model().bytes, old(buffer).model().cursor as int) {
                Ok((packet, end)) => r matches Ok(p) && p@ == packet && 0 <= end && moved(
                    old(buffer).model(),
                    final(buffer).model(),
                    end as nat,
                ),
                Err(e) => r matches Err(x) && x == e && final(buffer).model() == old(buffer).model(),
            },
    {
        let start = buffer.pos();
        proof {
            buffer.lemma_wf();
        }
        match Self::read_sections(buffer) {
            Ok(p) => Ok(p),
            Err(e) => {
                let _ = buffer.seek(start);
                Err(e)
            },
        }
    }

    /// Reads a message at the cursor. A failed read may leave the cursor
    /// anywhere.
    fn read_sections<T: PacketBuffer>(buffer: &mut T) -> (r: Result<DnsPacket, DnsError>)
        requires
            old(buffer).wf(),
        ensures
            final(buffer).wf(),
            same_data(old(buffer).model(), final(buffer).model()),
            match parse_packet(old(buffer).model().bytes, old(buffer).model().cursor as int) {
                Ok((packet, end)) => r matches Ok(p) && p@ == packet && final(buffer).model().cursor == end,
                Err(e) => r matches Err(x) && x == e,
            },
    {
        let mut header = DnsHeader::new();
        header.read(buffer)?;
        let questions = read_questions(buffer, header.questions)?;
        let answers = read_records(buffer, header.answers)?;
        let authorities = read_records(buffer, header.authoritative_entries)?;
        let resources = read_records(buffer, header.resource_entries)?;
        Ok(DnsPacket { header, questions, answers, authorities, resources })
    }
}

} // verus!
