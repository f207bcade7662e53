use vstd::prelude::*;
use crate::addr::Ipv4Addr;
use crate::addr::Ipv6Addr;
use crate::buffer::u16_at;
use crate::buffer::u32_at;
use crate::errors::DnsError;
use crate::names::read_name;
use crate::names::text_of;
use crate::protocol::DnsHeader;
use crate::protocol::PacketModel;
use crate::protocol::QueryType;
use crate::protocol::QuestionModel;
use crate::protocol::RecordModel;
use crate::wire::header_at;

verus! {

/// A value read from a buffer and the index behind it, or the error.
pub type Parsed<T> = Result<(T, int), DnsError>;

/// The 16-bit number at `at`.
pub open spec fn take_u16(bytes: Seq<u8>, at: int) -> Parsed<u16> {
    if 0 <= at && at + 2 <= bytes.len() {
        Ok((u16_at(bytes, at), at + 2))
    } else {
        Err(DnsError::BufferEnd)
    }
}

/// The 32-bit number at `at`.
pub open spec fn take_u32(bytes: Seq<u8>, at: int) -> Parsed<u32> {
    if 0 <= at && at + 4 <= bytes.len() {
        Ok((u32_at(bytes, at), at + 4))
    } else {
        Err(DnsError::BufferEnd)
    }
}

/// The `len` octets at `at`.
pub open spec fn take_bytes(bytes: Seq<u8>, at: int, len: int) -> Parsed<Seq<u8>> {
    if 0 <= at && at + len <= bytes.len() {
        Ok((bytes.subrange(at, at + len), at + len))
    } else {
        Err(DnsError::BufferEnd)
    }
}

/// The header at `at`.
pub open spec fn parse_header(bytes: Seq<u8>, at: int) -> Parsed<DnsHeader> {
    if 0 <= at && at + 12 <= bytes.len() {
        Ok((header_at(bytes, at), at + 12))
    } else {
        Err(DnsError::BufferEnd)
    }
}

/// The question at `at`: a name, a type, and a class that is passed over.
pub open spec fn parse_question(bytes: Seq<u8>, at: int) -> Parsed<QuestionModel> {
    match read_name(bytes, at) {
        Err(e) => Err(e),
        Ok((name, p1)) => match take_u16(bytes, p1) {
            Err(e) => Err(e),
            Ok((qtype, p2)) => match take_u16(bytes, p2) {
                Err(e) => Err(e),
                Ok((_, p3)) => Ok((QuestionModel { name, qtype: QueryType::of(qtype) }, p3)),
            },
        },
    }
}

/// What stands before the data of a record.
pub struct RecordHead {
    pub domain: Seq<char>,
    pub qtype: u16,
    pub class: u16,
    pub ttl: u32,
    pub data_len: u16,
}

/// The name, type, class, time to live and length of data of the record at
/// `at`.
pub open spec fn parse_head(bytes: Seq<u8>, at: int) -> Parsed<RecordHead> {
    match read_name(bytes, at) {
        Err(e) => Err(e),
        Ok((domain, p1)) => match take_u16(bytes, p1) {
            Err(e) => Err(e),
            Ok((qtype, p2)) => match take_u16(bytes, p2) {
                Err(e) => Err(e),
                Ok((class, p3)) => match take_u32(bytes, p3) {
                    Err(e) => Err(e),
                    Ok((ttl, p4)) => match take_u16(bytes, p4) {
                        Err(e) => Err(e),
                        Ok((data_len, p5)) => Ok(
                            (RecordHead { domain, qtype, class, ttl, data_len }, p5),
                        ),
                    },
                },
            },
        },
    }
}

/// The IPv4 address at `at`.
pub open spec fn parse_ipv4(bytes: Seq<u8>, at: int) -> Parsed<Ipv4Addr> {
    if 0 <= at && at + 4 <= bytes.len() {
        Ok((Ipv4Addr { a: bytes[at], b: bytes[at + 1], c: bytes[at + 2], d: bytes[at + 3] }, at + 4))
    } else {
        Err(DnsError::BufferEnd)
    }
}

/// The IPv6 address at `at`.
pub open spec fn parse_ipv6(bytes: Seq<u8>, at: int) -> Parsed<Ipv6Addr> {
    if 0 <= at && at + 16 <= bytes.len() {
        Ok(
            (
                Ipv6Addr {
                    a: u16_at(bytes, at),
                    b: u16_at(bytes, at + 2),
                    c: u16_at(bytes, at + 4),
                    d: u16_at(bytes, at + 6),
                    e: u16_at(bytes, at + 8),
                    f: u16_at(bytes, at + 10),
                    g: u16_at(bytes, at + 12),
                    h: u16_at(bytes, at + 14),
                },
                at + 16,
            ),
        )
    } else {
        Err(DnsError::BufferEnd)
    }
}

/// The three 16-bit numbers and the name of an `SRV` record at `at`.
pub open spec fn parse_srv(bytes: Seq<u8>, at: int, head: RecordHead) -> Parsed<RecordModel> {
    match take_u16(bytes, at) {
        Err(e) => Err(e),
        Ok((priority, p1)) => match take_u16(bytes, p1) {
            Err(e) => Err(e),
            Ok((weight, p2)) => match take_u16(bytes, p2) {
                Err(e) => Err(e),
                Ok((port, p3)) => match read_name(bytes, p3) {
                    Err(e) => Err(e),
                    Ok((host, p4)) => Ok(
                        (RecordModel::SRV(head.domain, priority, weight, port, host, head.ttl), p4),
                    ),
                },
            },
        },
    }
}

/// The five 32-bit numbers of an `SOA` record at `at`, behind its two names.
pub open spec fn parse_soa_numbers(
    bytes: Seq<u8>,
    at: int,
    head: RecordHead,
    mname: Seq<char>,
    rname: Seq<char>,
) -> Parsed<RecordModel> {
    if 0 <= at && at + 20 <= bytes.len() {
        Ok(
            (
                RecordModel::SOA(
                    head.domain,
                    mname,
                    rname,
                    u32_at(bytes, at),
                    u32_at(bytes, at + 4),
                    u32_at(bytes, at + 8),
                    u32_at(bytes, at + 12),
                    u32_at(bytes, at + 16),
                    head.ttl,
                ),
                at + 20,
            ),
        )
    } else {
        Err(DnsError::BufferEnd)
    }
}

/// The two names and five numbers of an `SOA` record at `at`.
pub open spec fn parse_soa(bytes: Seq<u8>, at: int, head: RecordHead) -> Parsed<RecordModel> {
    match read_name(bytes, at) {
        Err(e) => Err(e),
        Ok((mname, p1)) => match read_name(bytes, p1) {
            Err(e) => Err(e),
            Ok((rname, p2)) => parse_soa_numbers(bytes, p2, head, mname, rname),
        },
    }
}

/// The data of the record whose head is `head`, read at `at`, and with it the
/// record.
pub open spec fn parse_rdata(bytes: Seq<u8>, at: int, head: RecordHead) -> Parsed<RecordModel> {
    match QueryType::of(head.qtype) {
        QueryType::A => match parse_ipv4(bytes, at) {
            Err(e) => Err(e),
            Ok((addr, end)) => Ok((RecordModel::A(head.domain, addr, head.ttl), end)),
        },
        QueryType::AAAA => match parse_ipv6(bytes, at) {
            Err(e) => Err(e),
            Ok((addr, end)) => Ok((RecordModel::AAAA(head.domain, addr, head.ttl), end)),
        },
        QueryType::NS => match read_name(bytes, at) {
            Err(e) => Err(e),
            Ok((host, end)) => Ok((RecordModel::NS(head.domain, host, head.ttl), end)),
        },
        QueryType::CNAME => match read_name(bytes, at) {
            Err(e) => Err(e),
            Ok((host, end)) => Ok((RecordModel::CNAME(head.domain, host, head.ttl), end)),
        },
        QueryType::SRV => parse_srv(bytes, at, head),
        QueryType::MX => match take_u16(bytes, at) {
            Err(e) => Err(e),
            Ok((priority, p1)) => match read_name(bytes, p1) {
                Err(e) => Err(e),
                Ok((host, end)) => Ok((RecordModel::MX(head.domain, priority, host, head.ttl), end)),
            },
        },
        QueryType::SOA => parse_soa(bytes, at, head),
        QueryType::TXT => match take_bytes(bytes, at, head.data_len as int) {
            Err(e) => Err(e),
            Ok((data, end)) => Ok((RecordModel::TXT(head.domain, text_of(data), head.ttl), end)),
        },
        QueryType::OPT => match take_bytes(bytes, at, head.data_len as int) {
            Err(e) => Err(e),
            Ok((data, end)) => Ok((RecordModel::OPT(head.class, head.ttl, text_of(data)), end)),
        },
        QueryType::UNKNOWN(_) => match take_bytes(bytes, at, head.data_len as int) {
            Err(e) => Err(e),
            Ok((_, end)) => Ok(
                (RecordModel::UNKNOWN(head.domain, head.qtype, head.data_len, head.ttl), end),
            ),
        },
    }
}

/// The record at `at`.
#[verifier::opaque]
pub open spec fn parse_record(bytes: Seq<u8>, at: int) -> Parsed<RecordModel> {
    match parse_head(bytes, at) {
        Err(e) => Err(e),
        Ok((head, p)) => parse_rdata(bytes, p, head),
    }
}

/// The `count` records from `at` on, one behind the other.
pub open spec fn parse_records(bytes: Seq<u8>, at: int, count: nat) -> Parsed<Seq<RecordModel>>
    decreases count,
{
    if count == 0 {
        Ok((Seq::empty(), at))
    } else {
        match parse_record(bytes, at) {
            Err(e) => Err(e),
            Ok((first, p)) => match parse_records(bytes, p, (count - 1) as nat) {
                Err(e) => Err(e),
                Ok((rest, end)) => Ok((seq![first] + rest, end)),
            },
        }
    }
}

/// The `count` questions from `at` on, one behind the other.
pub open spec fn parse_questions(bytes: Seq<u8>, at: int, count: nat) -> Parsed<Seq<QuestionModel>>
    decreases count,
{
    if count == 0 {
        Ok((Seq::empty(), at))
    } else {
        match parse_question(bytes, at) {
            Err(e) => Err(e),
            Ok((first, p)) => match parse_questions(bytes, p, (count - 1) as nat) {
                Err(e) => Err(e),
                Ok((rest, end)) => Ok((seq![first] + rest, end)),
            },
        }
    }
}

/// The message at `at`: the header, then as many questions, answers,
/// authorities and additional records as the header counts.
pub open spec fn parse_packet(bytes: Seq<u8>, at: int) -> Parsed<PacketModel> {
    match parse_header(bytes, at) {
        Err(e) => Err(e),
        Ok((header, p0)) => match parse_questions(bytes, p0, header.questions as nat) {
            Err(e) => Err(e),
            Ok((questions, p1)) => match parse_records(bytes, p1, header.answers as nat) {
                Err(e) => Err(e),
                Ok((answers, p2)) => match parse_records(
                    bytes,
                    p2,
                    header.authoritative_entries as nat,
                ) {
                    Err(e) => Err(e),
                    Ok((authorities, p3)) => match parse_records(
                        bytes,
                        p3,
                        header.resource_entries as nat,
                    ) {
                        Err(e) => Err(e),
                        Ok((resources, end)) => Ok(
                            (
                                PacketModel { header, questions, answers, authorities, resources },
                                end,
                            ),
                        ),
                    },
                },
            },
        },
    }
}

} // verus!
