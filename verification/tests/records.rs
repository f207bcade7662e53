use dns_core::addr::{Ipv4Addr, Ipv6Addr};
use dns_core::buffer::{BytePacketBuffer, PacketBuffer, VectorPacketBuffer};
use dns_core::errors::DnsError;
use dns_core::protocol::{DnsHeader, DnsPacket, DnsQuestion, QueryType, ResourceRecord, ResultCode};

fn every_record() -> Vec<ResourceRecord> {
    vec![
        ResourceRecord::A("example.com".to_string(), Ipv4Addr::new(93, 184, 216, 34), 60),
        ResourceRecord::AAAA(
            "example.com".to_string(),
            Ipv6Addr::new(0x2606, 0x2800, 0x220, 1, 0x248, 0x1893, 0x25c8, 0x1946),
            61,
        ),
        ResourceRecord::NS("example.com".to_string(), "a.iana-servers.net".to_string(), 62),
        ResourceRecord::CNAME("www.example.com".to_string(), "example.com".to_string(), 63),
        ResourceRecord::SOA(
            "example.com".to_string(),
            "ns.icann.org".to_string(),
            "noc.dns.icann.org".to_string(),
            2024010101,
            7200,
            3600,
            1209600,
            3601,
            64,
        ),
        ResourceRecord::MX("example.com".to_string(), 10, "mail.example.com".to_string(), 65),
        ResourceRecord::TXT("example.com".to_string(), "v=spf1 -all".to_string(), 66),
        ResourceRecord::SRV(
            "_sip._tcp.example.com".to_string(),
            1,
            2,
            5060,
            "sip.example.com".to_string(),
            67,
        ),
    ]
}

#[test]
fn every_type_of_record_is_read_as_it_was_written() {
    for record in every_record() {
        let mut buffer = VectorPacketBuffer::new();
        let written = record.write(&mut buffer).unwrap();
        assert_eq!(written, buffer.pos());
        buffer.seek(0).unwrap();
        assert_eq!(ResourceRecord::read(&mut buffer), Ok(record));
        assert_eq!(buffer.pos(), written);
    }
}

#[test]
fn a_message_of_every_type_is_read_as_it_was_written() {
    let mut packet = DnsPacket::new();
    packet.header.id = 0xBEEF;
    packet.header.response = true;
    packet.header.recursion_desired = true;
    packet.header.opcode = 2;
    packet.header.rescode = ResultCode::REFUSED;
    packet.header.z = true;
    packet.questions.push(DnsQuestion::new(&"example.com".to_string(), QueryType::SOA));
    packet.questions.push(DnsQuestion::new(&"www.example.com".to_string(), QueryType::UNKNOWN(999)));
    let records = every_record();
    packet.answers = records[0..3].to_vec();
    packet.authorities = records[3..5].to_vec();
    packet.resources = records[5..8].to_vec();
    let mut buffer = VectorPacketBuffer::new();
    packet.write(&mut buffer, 512).unwrap();
    let end = buffer.pos();
    assert!(end <= 512);
    assert_eq!(packet.header.questions, 2);
    assert_eq!(packet.header.answers, 3);
    assert_eq!(packet.header.authoritative_entries, 2);
    assert_eq!(packet.header.resource_entries, 3);
    assert!(!packet.header.truncated_message);
    buffer.seek(0).unwrap();
    let parsed = DnsPacket::from_buffer(&mut buffer).unwrap();
    assert_eq!(buffer.pos(), end);
    assert_eq!(parsed.header, packet.header);
    assert_eq!(parsed.questions, packet.questions);
    assert_eq!(parsed.answers, packet.answers);
    assert_eq!(parsed.authorities, packet.authorities);
    assert_eq!(parsed.resources, packet.resources);
}

#[test]
fn a_message_is_read_from_the_fixed_buffer_too() {
    let mut packet = DnsPacket::new();
    packet.questions.push(DnsQuestion::new(&"example.com".to_string(), QueryType::A));
    packet.answers = every_record();
    let mut buffer = BytePacketBuffer::new();
    packet.write(&mut buffer, 512).unwrap();
    buffer.seek(0).unwrap();
    let parsed = DnsPacket::from_buffer(&mut buffer).unwrap();
    assert_eq!(parsed.answers, packet.answers);
    assert_eq!(parsed.header, packet.header);
}

#[test]
fn writing_a_message_again_writes_the_same_octets() {
    let mut packet = DnsPacket::new();
    packet.header.id = 7;
    packet.questions.push(DnsQuestion::new(&"example.com".to_string(), QueryType::A));
    for _ in 0..3 {
        packet.answers.extend(every_record());
    }
    let mut first = VectorPacketBuffer::new();
    packet.write(&mut first, 200).unwrap();
    let header = packet.header;
    assert!(header.truncated_message);
    let mut second = VectorPacketBuffer::new();
    packet.write(&mut second, 200).unwrap();
    assert_eq!(packet.header, header);
    assert_eq!(first.pos(), second.pos());
    assert!(first.pos() <= 200);
    assert_eq!(first.get_range(0, first.pos()).unwrap(), second.get_range(0, second.pos()).unwrap());
}

#[test]
fn sections_are_cut_from_the_tail() {
    let mut packet = DnsPacket::new();
    packet.questions.push(DnsQuestion::new(&"example.com".to_string(), QueryType::NS));
    for i in 0..3 {
        let host = format!("ns{}.example.com", i);
        packet.answers.push(ResourceRecord::NS("example.com".to_string(), host.clone(), 3600));
        packet.authorities.push(ResourceRecord::NS("example.com".to_string(), host.clone(), 3600));
        packet.resources.push(ResourceRecord::A(host, Ipv4Addr::new(10, 0, 0, i as u8), 3600));
    }
    // header 12, question 17, each answer 18, each authority 14, each address 16
    let sizes = [(29, (0, 0, 0)), (46, (0, 0, 0)), (47, (1, 0, 0)), (83, (3, 0, 0)), (97, (3, 1, 0)),
        (125, (3, 3, 0)), (140, (3, 3, 0)), (141, (3, 3, 1)), (172, (3, 3, 2)), (173, (3, 3, 3))];
    for (max_size, (answers, authorities, resources)) in sizes.iter() {
        let mut buffer = VectorPacketBuffer::new();
        packet.header = DnsHeader::new();
        packet.write(&mut buffer, *max_size).unwrap();
        assert_eq!(
            (packet.header.answers, packet.header.authoritative_entries, packet.header.resource_entries),
            (*answers, *authorities, *resources),
            "max_size {}",
            max_size
        );
        assert_eq!(packet.header.truncated_message, *max_size < 173);
        assert_eq!(
            buffer.pos(),
            29 + 18 * *answers as usize + 14 * *authorities as usize + 16 * *resources as usize
        );
        assert!(buffer.pos() <= *max_size);
        buffer.seek(0).unwrap();
        let parsed = DnsPacket::from_buffer(&mut buffer).unwrap();
        assert_eq!(parsed.answers[..], packet.answers[..*answers as usize]);
        assert_eq!(parsed.authorities[..], packet.authorities[..*authorities as usize]);
        assert_eq!(parsed.resources[..], packet.resources[..*resources as usize]);
    }
}

#[test]
fn the_header_and_the_questions_are_written_whatever_the_size() {
    let mut packet = DnsPacket::new();
    packet.questions.push(DnsQuestion::new(&"example.com".to_string(), QueryType::A));
    packet.answers.push(ResourceRecord::A("example.com".to_string(), Ipv4Addr::new(1, 2, 3, 4), 1));
    let mut buffer = VectorPacketBuffer::new();
    packet.write(&mut buffer, 0).unwrap();
    assert_eq!(buffer.pos(), 29);
    assert!(packet.header.truncated_message);
    assert_eq!(packet.header.answers, 0);
}

#[test]
fn records_that_are_not_written_are_not_counted() {
    let mut packet = DnsPacket::new();
    packet.answers.push(ResourceRecord::OPT(4096, 0, "".to_string()));
    packet.answers.push(ResourceRecord::A("a.test".to_string(), Ipv4Addr::new(1, 2, 3, 4), 5));
    packet.answers.push(ResourceRecord::UNKNOWN("a.test".to_string(), 99, 3, 5));
    let mut buffer = VectorPacketBuffer::new();
    assert_eq!(packet.answers[0].write(&mut buffer), Ok(0));
    assert_eq!(packet.answers[2].write(&mut buffer), Ok(0));
    assert_eq!(buffer.pos(), 0);
    packet.write(&mut buffer, 512).unwrap();
    assert_eq!(packet.header.answers, 1);
    assert!(!packet.header.truncated_message);
    buffer.seek(0).unwrap();
    let parsed = DnsPacket::from_buffer(&mut buffer).unwrap();
    assert_eq!(parsed.answers, vec![packet.answers[1].clone()]);
}

#[test]
fn a_message_that_does_not_fit_the_buffer_is_an_error() {
    let mut packet = DnsPacket::new();
    for i in 0..40 {
        packet.answers.push(ResourceRecord::TXT(format!("t{}.test", i), "x".repeat(20), 1));
    }
    let mut buffer = BytePacketBuffer::new();
    assert_eq!(packet.write(&mut buffer, 4096), Err(DnsError::BufferEnd));
    assert_eq!(packet.header.answers, 40);
    let mut buffer = BytePacketBuffer::new();
    assert_eq!(packet.write(&mut buffer, 512), Ok(()));
    assert!(packet.header.truncated_message);
    assert!(buffer.pos() <= 512);
}

#[test]
fn unknown_and_opt_records_are_read() {
    let mut buffer = VectorPacketBuffer::new();
    buffer.write_qname("a.test").unwrap();
    buffer.write_u16(99).unwrap();
    buffer.write_u16(1).unwrap();
    buffer.write_u32(77).unwrap();
    buffer.write_u16(3).unwrap();
    buffer.write_all(&[1, 2, 3]).unwrap();
    buffer.write_qname("").unwrap();
    buffer.write_u16(41).unwrap();
    buffer.write_u16(4096).unwrap();
    buffer.write_u32(0x8000).unwrap();
    buffer.write_u16(2).unwrap();
    buffer.write_all(b"hi").unwrap();
    buffer.seek(0).unwrap();
    assert_eq!(
        ResourceRecord::read(&mut buffer),
        Ok(ResourceRecord::UNKNOWN("a.test".to_string(), 99, 3, 77))
    );
    assert_eq!(
        ResourceRecord::read(&mut buffer),
        Ok(ResourceRecord::OPT(4096, 0x8000, "hi".to_string()))
    );
    assert_eq!(ResourceRecord::read(&mut buffer), Err(DnsError::BufferEnd));
}

#[test]
fn a_record_that_is_cut_off_is_not_read() {
    let record = ResourceRecord::MX("example.com".to_string(), 10, "mail.example.com".to_string(), 65);
    let mut whole = VectorPacketBuffer::new();
    let len = record.write(&mut whole).unwrap();
    for cut in 0..len {
        let mut buffer = VectorPacketBuffer::new();
        buffer.write_all(whole.get_range(0, cut).unwrap()).unwrap();
        buffer.seek(0).unwrap();
        assert_eq!(ResourceRecord::read(&mut buffer), Err(DnsError::BufferEnd), "cut at {}", cut);
        assert_eq!(buffer.pos(), 0);
    }
}

#[test]
fn the_header_is_twelve_octets() {
    let mut header = DnsHeader::new();
    header.id = 0x0102;
    header.recursion_desired = true;
    header.authoritative_answer = true;
    header.opcode = 0x1F;
    header.rescode = ResultCode::NXDOMAIN;
    header.checking_disabled = true;
    header.recursion_available = true;
    header.questions = 1;
    header.answers = 0x0203;
    header.authoritative_entries = 4;
    header.resource_entries = 5;
    assert_eq!(header.binary_len(), 12);
    let mut buffer = VectorPacketBuffer::new();
    header.write(&mut buffer).unwrap();
    assert_eq!(
        buffer.get_range(0, 12).unwrap(),
        &[1, 2, 0b0111_1101, 0b1001_0011, 0, 1, 2, 3, 0, 4, 0, 5]
    );
    buffer.seek(0).unwrap();
    let mut read = DnsHeader::new();
    read.read(&mut buffer).unwrap();
    header.opcode = 0x0F;
    assert_eq!(read, header);
    let mut short = VectorPacketBuffer::new();
    short.write_all(&[0; 11]).unwrap();
    short.seek(0).unwrap();
    assert_eq!(read.read(&mut short), Err(DnsError::BufferEnd));
    assert_eq!(read, header);
    let mut full = BytePacketBuffer::new();
    full.seek(501).unwrap();
    assert_eq!(header.write(&mut full), Err(DnsError::BufferEnd));
    assert_eq!(full.pos(), 501);
}

#[test]
fn every_flag_of_the_header_has_its_bit() {
    for bit in 0..16u32 {
        let mut buffer = VectorPacketBuffer::new();
        buffer.write_u16(0).unwrap();
        buffer.write_u16(1 << bit).unwrap();
        buffer.write_all(&[0; 8]).unwrap();
        buffer.seek(0).unwrap();
        let mut header = DnsHeader::new();
        header.read(&mut buffer).unwrap();
        let mut wanted = DnsHeader::new();
        match bit {
            0 => wanted.rescode = ResultCode::FORMERR,
            1 => wanted.rescode = ResultCode::SERVFAIL,
            2 => wanted.rescode = ResultCode::NOTIMP,
            3 => wanted.rescode = ResultCode::NOERROR,
            4 => wanted.checking_disabled = true,
            5 => wanted.authed_data = true,
            6 => wanted.z = true,
            7 => wanted.recursion_available = true,
            8 => wanted.recursion_desired = true,
            9 => wanted.truncated_message = true,
            10 => wanted.authoritative_answer = true,
            11 => wanted.opcode = 1,
            12 => wanted.opcode = 2,
            13 => wanted.opcode = 4,
            14 => wanted.opcode = 8,
            _ => wanted.response = true,
        }
        assert_eq!(header, wanted, "bit {}", bit);
    }
}

#[test]
fn the_types_have_their_numbers() {
    let known = [
        (QueryType::A, 1),
        (QueryType::NS, 2),
        (QueryType::CNAME, 5),
        (QueryType::SOA, 6),
        (QueryType::MX, 15),
        (QueryType::TXT, 16),
        (QueryType::AAAA, 28),
        (QueryType::SRV, 33),
        (QueryType::OPT, 41),
    ];
    for (qtype, num) in known.iter() {
        assert_eq!(qtype.to_num(), *num);
        assert_eq!(QueryType::from_num(*num), *qtype);
    }
    for num in 0..=u16::MAX {
        assert_eq!(QueryType::from_num(num).to_num(), num);
    }
    assert_eq!(QueryType::from_num(3), QueryType::UNKNOWN(3));
    assert_eq!(QueryType::UNKNOWN(1).to_num(), 1);
}

#[test]
fn an_unknown_result_code_is_no_error() {
    let codes = [
        ResultCode::NOERROR,
        ResultCode::FORMERR,
        ResultCode::SERVFAIL,
        ResultCode::NXDOMAIN,
        ResultCode::NOTIMP,
        ResultCode::REFUSED,
    ];
    for (num, code) in codes.iter().enumerate() {
        assert_eq!(ResultCode::from_num(num as u8), *code);
        assert_eq!(code.to_num(), num as u8);
    }
    for num in 6..=255u8 {
        assert_eq!(ResultCode::from_num(num), ResultCode::NOERROR);
    }
}

#[test]
fn a_question_is_a_name_a_type_and_the_class_one() {
    let question = DnsQuestion::new(&"a.test".to_string(), QueryType::MX);
    let mut buffer = VectorPacketBuffer::new();
    assert_eq!(question.binary_len(&buffer), 12);
    question.write(&mut buffer).unwrap();
    assert_eq!(buffer.get_range(0, 12).unwrap(), b"\x01a\x04test\x00\x00\x0f\x00\x01");
    buffer.seek(0).unwrap();
    let mut read = DnsQuestion::new(&"".to_string(), QueryType::UNKNOWN(0));
    read.read(&mut buffer).unwrap();
    assert_eq!(read, question);
    buffer.seek(8).unwrap();
    let mut read = DnsQuestion::new(&"kept".to_string(), QueryType::A);
    assert_eq!(read.read(&mut buffer), Err(DnsError::BufferEnd));
    assert_eq!(read, DnsQuestion::new(&"kept".to_string(), QueryType::A));
    assert_eq!(buffer.pos(), 8);
}

#[test]
fn the_accessors_of_a_record() {
    let records = every_record();
    let types = [
        QueryType::A,
        QueryType::AAAA,
        QueryType::NS,
        QueryType::CNAME,
        QueryType::SOA,
        QueryType::MX,
        QueryType::TXT,
        QueryType::SRV,
    ];
    for (i, record) in records.iter().enumerate() {
        assert_eq!(record.get_querytype(), types[i]);
        assert_eq!(record.get_ttl(), 60 + i as u32);
        assert!(record.get_domain().unwrap().ends_with("example.com"));
        assert_eq!(&record.duplicate(), record);
    }
    let opt = ResourceRecord::OPT(1, 2, "x".to_string());
    assert_eq!(opt.get_querytype(), QueryType::OPT);
    assert_eq!(opt.get_domain(), None);
    assert_eq!(opt.get_ttl(), 0);
    let unknown = ResourceRecord::UNKNOWN("u.test".to_string(), 77, 3, 9);
    assert_eq!(unknown.get_querytype(), QueryType::UNKNOWN(77));
    assert_eq!(unknown.get_domain(), Some("u.test".to_string()));
    assert_eq!(unknown.get_ttl(), 9);
}

#[test]
fn a_text_of_more_than_65535_octets_is_written_with_a_cut_length() {
    let record = ResourceRecord::TXT("t.test".to_string(), "y".repeat(65536 + 3), 1);
    let mut buffer = VectorPacketBuffer::new();
    assert_eq!(record.write(&mut buffer), Ok(8 + 10 + 65539));
    assert_eq!(buffer.get_range(16, 2).unwrap(), &[0, 3]);
}
