use dns_core::buffer::{BytePacketBuffer, LabelRef, PacketBuffer, VectorPacketBuffer};
use dns_core::errors::DnsError;

#[test]
fn numbers_are_written_most_significant_octet_first() {
    let mut buffer = VectorPacketBuffer::new();
    buffer.write_u8(0xAB).unwrap();
    buffer.write_u16(0x1234).unwrap();
    buffer.write_u32(0xDEADBEEF).unwrap();
    assert_eq!(buffer.pos(), 7);
    assert_eq!(buffer.get_range(0, 7).unwrap(), &[0xAB, 0x12, 0x34, 0xDE, 0xAD, 0xBE, 0xEF]);
    buffer.seek(0).unwrap();
    assert_eq!(buffer.read_u8(), Ok(0xAB));
    assert_eq!(buffer.read_u16(), Ok(0x1234));
    assert_eq!(buffer.read_u32(), Ok(0xDEADBEEF));
    assert_eq!(buffer.pos(), 7);
}

#[test]
fn a_read_past_the_end_fails_and_changes_nothing() {
    let mut buffer = VectorPacketBuffer::new();
    buffer.write_u16(7).unwrap();
    buffer.seek(1).unwrap();
    assert_eq!(buffer.read_u16(), Err(DnsError::BufferEnd));
    assert_eq!(buffer.pos(), 1);
    assert_eq!(buffer.read_u32(), Err(DnsError::BufferEnd));
    assert_eq!(buffer.get(2), Err(DnsError::BufferEnd));
    assert_eq!(buffer.get_range(1, 2).err(), Some(DnsError::BufferEnd));
    assert_eq!(buffer.get(1), Ok(7));
    buffer.step(1).unwrap();
    assert_eq!(buffer.read_u8(), Err(DnsError::BufferEnd));
}

#[test]
fn set_u16_fills_a_slot_and_leaves_the_cursor() {
    let mut buffer = VectorPacketBuffer::new();
    buffer.write_u32(0).unwrap();
    buffer.set_u16(1, 0xBEEF).unwrap();
    assert_eq!(buffer.pos(), 4);
    assert_eq!(buffer.get_range(0, 4).unwrap(), &[0, 0xBE, 0xEF, 0]);
}

#[test]
fn a_gap_behind_the_end_holds_zeros() {
    let mut buffer = VectorPacketBuffer::new();
    buffer.seek(3).unwrap();
    buffer.write_u8(9).unwrap();
    assert_eq!(buffer.get_range(0, 4).unwrap(), &[0, 0, 0, 9]);
    buffer.set(6, 5).unwrap();
    assert_eq!(buffer.get_range(0, 7).unwrap(), &[0, 0, 0, 9, 0, 0, 5]);
    assert_eq!(buffer.pos(), 4);
}

#[test]
fn the_fixed_buffer_holds_512_octets() {
    let mut buffer = BytePacketBuffer::new();
    assert_eq!(buffer.capacity(), 512);
    assert_eq!(buffer.get(511), Ok(0));
    assert_eq!(buffer.get(512), Err(DnsError::BufferEnd));
    assert_eq!(buffer.set(512, 1), Err(DnsError::BufferEnd));
    assert_eq!(buffer.set_u16(511, 1), Err(DnsError::BufferEnd));
    assert_eq!(buffer.step(513), Err(DnsError::BufferEnd));
    assert_eq!(buffer.step(512), Ok(()));
    assert_eq!(buffer.write_all(&[1]), Err(DnsError::BufferEnd));
}

#[test]
fn a_name_is_written_label_by_label() {
    let mut buffer = VectorPacketBuffer::new();
    buffer.write_qname("www.Example.com").unwrap();
    assert_eq!(buffer.get_range(0, 17).unwrap(), b"\x03www\x07Example\x03com\x00");
    assert_eq!(buffer.pos(), 17);
    assert_eq!(buffer.qname_len("www.Example.com"), 17);
    buffer.seek(0).unwrap();
    let mut name = String::new();
    buffer.read_qname(&mut name).unwrap();
    assert_eq!(name, "www.Example.com");
    assert_eq!(buffer.pos(), 17);
}

#[test]
fn the_root_name_is_one_zero_octet() {
    let mut buffer = VectorPacketBuffer::new();
    buffer.write_qname("").unwrap();
    assert_eq!(buffer.pos(), 1);
    assert_eq!(buffer.get(0), Ok(0));
    assert_eq!(buffer.qname_len(""), 1);
    buffer.seek(0).unwrap();
    let mut name = String::from("x");
    buffer.read_qname(&mut name).unwrap();
    assert_eq!(name, "x");
    assert_eq!(buffer.pos(), 1);
}

#[test]
fn the_rest_of_a_name_that_was_written_becomes_a_pointer() {
    let mut buffer = VectorPacketBuffer::new();
    buffer.write_qname("example.com").unwrap();
    assert_eq!(buffer.pos(), 13);
    buffer.write_qname("www.example.com").unwrap();
    assert_eq!(buffer.get_range(13, 6).unwrap(), &[3, b'w', b'w', b'w', 0xC0, 0]);
    buffer.write_qname("example.com").unwrap();
    assert_eq!(buffer.get_range(19, 2).unwrap(), &[0xC0, 0]);
    buffer.write_qname("mail.www.example.com").unwrap();
    assert_eq!(buffer.get_range(21, 7).unwrap(), &[4, b'm', b'a', b'i', b'l', 0xC0, 13]);
    assert_eq!(buffer.find_label(b"com"), Some(LabelRef { offset: 8, hops: 0 }));
    assert_eq!(buffer.find_label(b"www.example.com"), Some(LabelRef { offset: 13, hops: 1 }));
    assert_eq!(buffer.find_label(b"mail.www.example.com"), Some(LabelRef { offset: 21, hops: 2 }));
    buffer.seek(13).unwrap();
    let mut name = String::new();
    buffer.read_qname(&mut name).unwrap();
    assert_eq!(name, "www.example.com");
    assert_eq!(buffer.pos(), 19);
    buffer.seek(21).unwrap();
    let mut name = String::new();
    buffer.read_qname(&mut name).unwrap();
    assert_eq!(name, "mail.www.example.com");
    assert_eq!(buffer.pos(), 28);
}

#[test]
fn names_are_never_written_deeper_than_a_reader_follows() {
    let mut buffer = VectorPacketBuffer::new();
    let names = [
        "a.test",
        "b.a.test",
        "c.b.a.test",
        "d.c.b.a.test",
        "e.d.c.b.a.test",
        "f.e.d.c.b.a.test",
        "g.f.e.d.c.b.a.test",
        "h.g.f.e.d.c.b.a.test",
    ];
    let mut starts = Vec::new();
    for name in names.iter() {
        starts.push(buffer.pos());
        buffer.write_qname(name).unwrap();
    }
    for (name, start) in names.iter().zip(starts.iter()) {
        buffer.seek(*start).unwrap();
        let mut found = String::new();
        assert_eq!(buffer.read_qname(&mut found), Ok(()));
        assert_eq!(&found, name);
    }
    assert_eq!(buffer.find_label(b"f.e.d.c.b.a.test").unwrap().hops, 5);
    // the seventh name cannot point at the sixth: it points at the fifth
    assert_eq!(buffer.find_label(b"g.f.e.d.c.b.a.test").unwrap().hops, 5);
}

#[test]
fn an_empty_label_ends_a_name() {
    let mut buffer = VectorPacketBuffer::new();
    buffer.write_qname("a..b").unwrap();
    assert_eq!(buffer.get_range(0, 3).unwrap(), &[1, b'a', 0]);
    assert_eq!(buffer.pos(), 3);
    assert_eq!(buffer.qname_len("a..b"), 3);
    assert_eq!(buffer.find_label(b"a..b"), None);
    buffer.write_qname("com.").unwrap();
    assert_eq!(buffer.get_range(3, 5).unwrap(), &[3, b'c', b'o', b'm', 0]);
}

#[test]
fn a_long_label_is_neither_packed_nor_remembered() {
    let long = "x".repeat(64);
    let name = format!("{}.com", long);
    let mut buffer = VectorPacketBuffer::new();
    buffer.write_qname("com").unwrap();
    buffer.write_qname(&name).unwrap();
    assert_eq!(buffer.pos(), 5 + 70);
    assert_eq!(buffer.get(5), Ok(64));
    assert_eq!(buffer.get_range(70, 5).unwrap(), &[3, b'c', b'o', b'm', 0]);
    buffer.seek(5).unwrap();
    let mut found = String::new();
    buffer.read_qname(&mut found).unwrap();
    assert_eq!(found, name);
}

#[test]
fn a_name_that_does_not_fit_is_not_written() {
    let mut buffer = BytePacketBuffer::new();
    buffer.seek(500).unwrap();
    assert_eq!(buffer.write_qname("www.example.com"), Err(DnsError::BufferEnd));
    assert_eq!(buffer.pos(), 500);
    assert_eq!(buffer.find_label(b"com"), None);
    assert_eq!(buffer.get_range(500, 12).unwrap(), &[0u8; 12]);
    buffer.seek(495).unwrap();
    assert_eq!(buffer.write_qname("www.example.com"), Ok(()));
    assert_eq!(buffer.pos(), 512);
}

#[test]
fn octets_that_are_not_utf8_are_read_with_replacement_characters() {
    let mut buffer = VectorPacketBuffer::new();
    buffer.write_all(&[2, 0xFF, b'a', 0]).unwrap();
    buffer.seek(0).unwrap();
    let mut name = String::new();
    buffer.read_qname(&mut name).unwrap();
    assert_eq!(name, "\u{FFFD}a");
}

#[test]
fn a_name_that_is_not_ascii_is_read_as_it_was_written() {
    let mut buffer = VectorPacketBuffer::new();
    buffer.write_qname("b\u{fc}cher.example").unwrap();
    assert_eq!(buffer.get(0), Ok(7));
    buffer.seek(0).unwrap();
    let mut name = String::new();
    buffer.read_qname(&mut name).unwrap();
    assert_eq!(name, "b\u{fc}cher.example");
}

#[test]
fn six_pointers_in_a_row_are_refused() {
    // five pointers, each to the one before, and a name at the end of them
    let mut buffer = VectorPacketBuffer::new();
    buffer.write_all(&[1, b'a', 0]).unwrap();
    buffer.write_all(&[0xC0, 0]).unwrap();
    buffer.write_all(&[0xC0, 3]).unwrap();
    buffer.write_all(&[0xC0, 5]).unwrap();
    buffer.write_all(&[0xC0, 7]).unwrap();
    buffer.write_all(&[0xC0, 9]).unwrap();
    buffer.write_all(&[0xC0, 11]).unwrap();
    buffer.seek(11).unwrap();
    let mut name = String::new();
    assert_eq!(buffer.read_qname(&mut name), Ok(()));
    assert_eq!(name, "a");
    assert_eq!(buffer.pos(), 13);
    buffer.seek(13).unwrap();
    let mut name = String::from("kept");
    assert_eq!(buffer.read_qname(&mut name), Err(DnsError::NameLimit));
    assert_eq!(name, "kept");
    assert_eq!(buffer.pos(), 13);
}

#[test]
fn a_pointer_circle_of_two_is_refused() {
    let mut buffer = VectorPacketBuffer::new();
    buffer.write_all(&[1, b'a', 0xC0, 4, 1, b'b', 0xC0, 0]).unwrap();
    buffer.seek(0).unwrap();
    let mut name = String::new();
    assert_eq!(buffer.read_qname(&mut name), Err(DnsError::NameLimit));
    assert_eq!(buffer.pos(), 0);
}

#[test]
fn a_pointer_cut_off_at_the_end_is_the_end_of_the_buffer() {
    let mut buffer = VectorPacketBuffer::new();
    buffer.write_all(&[0xC0]).unwrap();
    buffer.seek(0).unwrap();
    let mut name = String::new();
    assert_eq!(buffer.read_qname(&mut name), Err(DnsError::BufferEnd));
    let mut buffer = VectorPacketBuffer::new();
    buffer.write_all(&[5, b'a', b'b']).unwrap();
    buffer.seek(0).unwrap();
    assert_eq!(buffer.read_qname(&mut name), Err(DnsError::BufferEnd));
}

#[test]
fn the_errors_have_messages() {
    assert_eq!(DnsError::BufferEnd.message(), "end of buffer");
    assert_eq!(DnsError::NameLimit.message(), "limit of 5 jumps exceeded");
    assert_eq!(DnsError::FormatError.message(), "malformed request");
}
