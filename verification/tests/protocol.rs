use dns_core::addr::Ipv4Addr;
use dns_core::buffer::{BytePacketBuffer, PacketBuffer, VectorPacketBuffer};
use dns_core::errors::DnsError;
use dns_core::protocol::{DnsPacket, DnsQuestion, QueryType, ResourceRecord};

#[test]
fn test_packet() {
    let mut packet = DnsPacket::new();
    packet.header.id = 1337;
    packet.header.response = true;

    packet.questions.push(DnsQuestion::new(&"google.com".to_string(), QueryType::NS));
    packet.answers.push(ResourceRecord::NS("google.com".to_string(), "ns1.google.com".to_string(), 3600));
    packet.answers.push(ResourceRecord::NS("google.com".to_string(), "ns2.google.com".to_string(), 3600));
    packet.answers.push(ResourceRecord::NS("google.com".to_string(), "ns3.google.com".to_string(), 3600));
    packet.answers.push(ResourceRecord::NS("google.com".to_string(), "ns4.google.com".to_string(), 3600));

    let mut buffer = VectorPacketBuffer::new();
    packet.write(&mut buffer, 0xFFFF).unwrap();

    buffer.seek(0).unwrap();

    let parsed_packet = DnsPacket::from_buffer(&mut buffer).unwrap();

    assert_eq!(packet.questions[0], parsed_packet.questions[0]);
    assert_eq!(packet.answers[0], parsed_packet.answers[0]);
    assert_eq!(packet.answers[1], parsed_packet.answers[1]);
    assert_eq!(packet.answers[2], parsed_packet.answers[2]);
    assert_eq!(packet.answers[3], parsed_packet.answers[3]);
}

#[test]
fn a_record_has_four_octets_of_data() {
    let mut packet = DnsPacket::new();
    packet.answers.push(ResourceRecord::A("example.com".to_string(), Ipv4Addr::new(93, 184, 216, 34), 60));
    let mut buffer = VectorPacketBuffer::new();
    packet.write(&mut buffer, 512).unwrap();
    let end = buffer.pos();
    // header 12, name 13, type 2, class 2, ttl 4, length 2, data 4
    assert_eq!(end, 39);
    assert_eq!(buffer.get_range(12, 13).unwrap(), b"\x07example\x03com\x00");
    assert_eq!(buffer.get_range(25, 10).unwrap(), &[0, 1, 0, 1, 0, 0, 0, 60, 0, 4]);
    assert_eq!(buffer.get_range(35, 4).unwrap(), &[93, 184, 216, 34]);
    buffer.seek(0).unwrap();
    let parsed = DnsPacket::from_buffer(&mut buffer).unwrap();
    assert_eq!(parsed.header.answers, 1);
    assert_eq!(
        parsed.answers[0],
        ResourceRecord::A("example.com".to_string(), Ipv4Addr::new(93, 184, 216, 34), 60)
    );
}

#[test]
fn ten_answers_are_cut_to_eighty_octets() {
    let mut packet = DnsPacket::new();
    packet.questions.push(DnsQuestion::new(&"example.com".to_string(), QueryType::NS));
    for i in 0..10 {
        packet.answers.push(ResourceRecord::NS(
            "example.com".to_string(),
            format!("ns{}.example.com", i),
            3600,
        ));
    }
    let mut buffer = VectorPacketBuffer::new();
    packet.write(&mut buffer, 80).unwrap();
    assert!(buffer.pos() <= 80);
    assert!(packet.header.truncated_message);
    assert!(packet.header.answers < 10);
    // header 12, question 17; each answer 2 (pointer) + 10 + 6 (label and pointer)
    assert_eq!(packet.header.answers, 2);
    assert_eq!(buffer.pos(), 12 + 17 + 2 * 18);
    buffer.seek(0).unwrap();
    let parsed = DnsPacket::from_buffer(&mut buffer).unwrap();
    assert!(parsed.header.truncated_message);
    assert_eq!(parsed.answers.len(), 2);
    assert_eq!(parsed.answers[1], packet.answers[1]);
}

#[test]
fn a_pointer_to_itself_is_refused() {
    let mut buffer = VectorPacketBuffer::new();
    let mut packet = DnsPacket::new();
    packet.header.questions = 1;
    packet.header.write(&mut buffer).unwrap();
    buffer.write_u8(0xC0).unwrap();
    buffer.write_u8(0x0C).unwrap();
    assert_eq!(buffer.pos(), 14);
    buffer.seek(0).unwrap();
    assert_eq!(DnsPacket::from_buffer(&mut buffer).err(), Some(DnsError::NameLimit));
    assert_eq!(buffer.pos(), 0);
}

#[test]
fn the_fixed_buffer_ends_at_512() {
    let mut buffer = BytePacketBuffer::new();
    buffer.seek(510).unwrap();
    assert_eq!(buffer.write_u32(1), Err(DnsError::BufferEnd));
    assert_eq!(buffer.pos(), 510);
    assert_eq!(buffer.write_u16(0x1234), Ok(()));
    assert_eq!(buffer.pos(), 512);
    assert_eq!(buffer.write_u8(1), Err(DnsError::BufferEnd));
    assert_eq!(buffer.get_range(510, 2).unwrap(), &[0x12, 0x34]);
    assert_eq!(buffer.seek(513), Err(DnsError::BufferEnd));
}
