use dns_core::addr::{Ipv4Addr, Ipv6Addr};
use dns_core::protocol::{DnsPacket, ResourceRecord};

fn delegation() -> DnsPacket {
    let mut packet = DnsPacket::new();
    packet.authorities.push(ResourceRecord::NS("Example.COM".to_string(), "ns1.example.com".to_string(), 1));
    packet.authorities.push(ResourceRecord::NS("example.com".to_string(), "ns2.example.com".to_string(), 1));
    packet.authorities.push(ResourceRecord::NS("other.org".to_string(), "ns3.other.org".to_string(), 1));
    packet.authorities.push(ResourceRecord::NS("example.com".to_string(), "ns4.example.net".to_string(), 1));
    packet.authorities.push(ResourceRecord::A("example.com".to_string(), Ipv4Addr::new(9, 9, 9, 9), 1));
    packet.resources.push(ResourceRecord::A("ns1.example.com".to_string(), Ipv4Addr::new(10, 0, 0, 1), 1));
    packet.resources.push(ResourceRecord::A("ns3.other.org".to_string(), Ipv4Addr::new(10, 0, 0, 3), 1));
    packet.resources.push(ResourceRecord::A("ns2.example.com".to_string(), Ipv4Addr::new(10, 0, 0, 2), 1));
    packet.resources.push(ResourceRecord::A("ns1.example.com".to_string(), Ipv4Addr::new(10, 0, 1, 1), 1));
    packet.resources.push(ResourceRecord::AAAA(
        "ns4.example.net".to_string(),
        Ipv6Addr::new(1, 2, 3, 4, 5, 6, 7, 8),
        1,
    ));
    packet
}

#[test]
fn a_number_picks_an_address_among_the_a_records() {
    let mut packet = DnsPacket::new();
    assert_eq!(packet.pick_a(5), None);
    assert_eq!(packet.get_random_a(), None);
    packet.answers.push(ResourceRecord::CNAME("a.test".to_string(), "b.test".to_string(), 1));
    assert_eq!(packet.pick_a(5), None);
    assert_eq!(packet.get_random_a(), None);
    packet.answers.push(ResourceRecord::A("b.test".to_string(), Ipv4Addr::new(93, 184, 216, 34), 1));
    packet.answers.push(ResourceRecord::A("b.test".to_string(), Ipv4Addr::new(0, 10, 100, 255), 1));
    packet.answers.push(ResourceRecord::NS("b.test".to_string(), "c.test".to_string(), 1));
    packet.answers.push(ResourceRecord::A("b.test".to_string(), Ipv4Addr::new(1, 2, 3, 4), 1));
    assert_eq!(packet.pick_a(0), Some("93.184.216.34".to_string()));
    assert_eq!(packet.pick_a(1), Some("0.10.100.255".to_string()));
    assert_eq!(packet.pick_a(2), Some("1.2.3.4".to_string()));
    assert_eq!(packet.pick_a(3), Some("93.184.216.34".to_string()));
    assert_eq!(packet.pick_a(u64::MAX), Some("93.184.216.34".to_string()));
    let all = ["93.184.216.34", "0.10.100.255", "1.2.3.4"];
    for _ in 0..20 {
        let found = packet.get_random_a().unwrap();
        assert!(all.contains(&found.as_str()));
    }
}

#[test]
fn the_servers_of_a_delegation_with_and_without_address() {
    let packet = delegation();
    assert_eq!(packet.pick_resolved_ns("www.example.com", 0), Some("10.0.0.1".to_string()));
    assert_eq!(packet.pick_resolved_ns("www.example.com", 1), Some("10.0.1.1".to_string()));
    assert_eq!(packet.pick_resolved_ns("www.example.com", 2), Some("10.0.0.2".to_string()));
    assert_eq!(packet.pick_resolved_ns("www.example.com", 3), Some("10.0.0.1".to_string()));
    assert_eq!(packet.pick_resolved_ns("WWW.EXAMPLE.COM", 2), Some("10.0.0.2".to_string()));
    assert_eq!(packet.pick_resolved_ns("example.com", 2), Some("10.0.0.2".to_string()));
    assert_eq!(packet.pick_resolved_ns("www.other.org", 7), Some("10.0.0.3".to_string()));
    assert_eq!(packet.pick_resolved_ns("example.net", 0), None);
    assert_eq!(packet.get_resolved_ns("example.net"), None);
    assert_eq!(packet.pick_unresolved_ns("www.example.com", 0), Some("ns4.example.net".to_string()));
    assert_eq!(packet.pick_unresolved_ns("www.example.com", 9), Some("ns4.example.net".to_string()));
    assert_eq!(packet.pick_unresolved_ns("www.other.org", 0), None);
    assert_eq!(packet.get_unresolved_ns("www.other.org"), None);
    assert_eq!(packet.get_unresolved_ns("www.example.com"), Some("ns4.example.net".to_string()));
    let all = ["10.0.0.1", "10.0.1.1", "10.0.0.2"];
    for _ in 0..20 {
        let found = packet.get_resolved_ns("www.example.com").unwrap();
        assert!(all.contains(&found.as_str()));
    }
}

#[test]
fn the_cnames_without_an_address() {
    let mut packet = DnsPacket::new();
    packet.answers.push(ResourceRecord::CNAME("a.test".to_string(), "b.test".to_string(), 1));
    packet.answers.push(ResourceRecord::CNAME("b.test".to_string(), "c.test".to_string(), 2));
    packet.answers.push(ResourceRecord::A("c.test".to_string(), Ipv4Addr::new(1, 2, 3, 4), 3));
    packet.answers.push(ResourceRecord::CNAME("d.test".to_string(), "C.test".to_string(), 4));
    packet.answers.push(ResourceRecord::NS("b.test".to_string(), "ns.test".to_string(), 5));
    assert_eq!(
        packet.get_unresolved_cnames(),
        vec![
            ResourceRecord::CNAME("a.test".to_string(), "b.test".to_string(), 1),
            ResourceRecord::CNAME("d.test".to_string(), "C.test".to_string(), 4),
        ]
    );
    assert_eq!(DnsPacket::new().get_unresolved_cnames(), vec![]);
}
