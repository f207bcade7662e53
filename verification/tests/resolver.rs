use dns_core::addr::Ipv4Addr;
use dns_core::authority::{Zone, Zones};
use dns_core::buffer::{PacketBuffer, VectorPacketBuffer};
use dns_core::cache::Cache;
use dns_core::protocol::{DnsPacket, DnsQuestion, QueryType, ResourceRecord, ResultCode};
use dns_core::resolver::{draw, failure_packet, known_of, Chances, Reply, Request, Resolver, Step};
use dns_core::server::{receive, reply_to, Received};

const FIRST: Chances = Chances { id: 7, server: 0, host: 0, address: 0 };

fn ns(domain: &str, host: &str) -> ResourceRecord {
    ResourceRecord::NS(domain.to_string(), host.to_string(), 3600)
}

fn a(domain: &str, addr: [u8; 4]) -> ResourceRecord {
    ResourceRecord::A(domain.to_string(), Ipv4Addr::new(addr[0], addr[1], addr[2], addr[3]), 300)
}

fn delegation(domain: &str, servers: &[(&str, Option<[u8; 4]>)]) -> DnsPacket {
    let mut packet = DnsPacket::new();
    packet.header.response = true;
    for (host, addr) in servers.iter() {
        packet.authorities.push(ns(domain, host));
        if let Some(addr) = addr {
            packet.resources.push(a(host, *addr));
        }
    }
    packet
}

fn asked(step: Step) -> Request {
    match step {
        Step::Ask(request) => request,
        Step::Done(packet) => panic!("done with {:?}", packet),
    }
}

fn done(step: Step) -> DnsPacket {
    match step {
        Step::Done(packet) => packet,
        Step::Ask(request) => panic!("asks {} for {}", request.server, request.qname),
    }
}

#[test]
fn a_name_is_resolved_from_the_root_in_three_hops() {
    let zones = Zones::new();
    let mut cache = Cache::new();
    let (mut resolver, step) =
        Resolver::start(&zones, &mut cache, "www.example.com", QueryType::A, 100, FIRST);
    let request = asked(step);
    assert_eq!(request.server, "198.41.0.4");
    assert_eq!(request.id, 7);
    assert_eq!(request.qname, "www.example.com");
    assert_eq!(request.qtype, QueryType::A);
    assert_eq!(resolver.depth(), 1);

    let from_root = delegation(
        "com",
        &[("a.gtld-servers.net", Some([192, 5, 6, 30])), ("b.gtld-servers.net", Some([192, 33, 14, 30]))],
    );
    let second = Chances { id: 8, server: 1, host: 0, address: 0 };
    let request = asked(resolver.advance(Reply::Packet(from_root), &zones, &mut cache, 101, second));
    assert_eq!(request.server, "192.33.14.30");
    assert_eq!(request.id, 8);
    assert_eq!(request.qname, "www.example.com");

    let from_com = delegation(
        "example.com",
        &[("a.iana-servers.net", Some([199, 43, 135, 53])), ("b.iana-servers.net", Some([199, 43, 133, 53]))],
    );
    let request = asked(resolver.advance(Reply::Packet(from_com), &zones, &mut cache, 102, FIRST));
    assert_eq!(request.server, "199.43.135.53");

    let mut answer = DnsPacket::new();
    answer.header.response = true;
    answer.header.authoritative_answer = true;
    answer.answers.push(a("www.example.com", [93, 184, 216, 34]));
    let result = done(resolver.advance(Reply::Packet(answer.clone()), &zones, &mut cache, 103, FIRST));
    assert_eq!(result.answers, answer.answers);
    assert_eq!(result.header, answer.header);
    assert!(resolver.is_idle());
    assert_eq!(result.get_random_a(), Some("93.184.216.34".to_string()));

    let records: usize = cache.list(104).iter().map(|d| d.records.len()).sum();
    assert_eq!(records, 9);
    assert!(records >= 6);
    // the answer is known now without asking
    let (resolver, step) =
        Resolver::start(&zones, &mut cache, "WWW.example.com", QueryType::A, 104, FIRST);
    assert!(resolver.is_idle());
    assert_eq!(done(step).answers, answer.answers);
}

#[test]
fn a_name_that_does_not_exist_is_handed_on() {
    let zones = Zones::new();
    let mut cache = Cache::new();
    let (mut resolver, _) = Resolver::start(&zones, &mut cache, "no.example.com", QueryType::A, 0, FIRST);
    let mut reply = DnsPacket::new();
    reply.header.id = 7;
    reply.header.response = true;
    reply.header.rescode = ResultCode::NXDOMAIN;
    let soa = ResourceRecord::SOA(
        "example.com".to_string(),
        "ns.example.com".to_string(),
        "admin.example.com".to_string(),
        1,
        2,
        3,
        4,
        5,
        60,
    );
    reply.authorities.push(soa.clone());
    reply.authorities.push(ns("example.com", "ns.example.com"));
    reply.resources.push(a("ns.example.com", [10, 0, 0, 1]));
    let result = done(resolver.advance(Reply::Packet(reply.clone()), &zones, &mut cache, 1, FIRST));
    assert_eq!(result.header, reply.header);
    assert_eq!(result.authorities, reply.authorities);
    assert_eq!(result.resources, reply.resources);
    assert!(result.answers.is_empty());
    assert!(resolver.is_idle());
    assert_eq!(cache.lookup("example.com", QueryType::SOA, 2).unwrap().answers, vec![soa]);
}

#[test]
fn no_reply_fails_the_lookup() {
    let zones = Zones::new();
    let mut cache = Cache::new();
    for reply in [Reply::Timeout, Reply::Io] {
        let (mut resolver, _) = Resolver::start(&zones, &mut cache, "a.test", QueryType::MX, 0, FIRST);
        let result = done(resolver.advance(reply, &zones, &mut cache, 1, FIRST));
        assert_eq!(result.header.rescode, ResultCode::SERVFAIL);
        assert_eq!(result.questions, vec![DnsQuestion::new(&"a.test".to_string(), QueryType::MX)]);
        assert!(result.answers.is_empty());
        assert!(resolver.is_idle());
        let again = done(resolver.advance(Reply::Timeout, &zones, &mut cache, 1, FIRST));
        assert_eq!(again.header.rescode, ResultCode::SERVFAIL);
        assert!(again.questions.is_empty());
    }
    assert_eq!(cache.list(0).len(), 0);
    let failed = failure_packet(&"b.test".to_string(), QueryType::A);
    assert_eq!(failed.header.rescode, ResultCode::SERVFAIL);
    assert_eq!(failed.questions[0].name, "b.test");
}

#[test]
fn sixteen_requests_are_sent_for_a_name_at_most() {
    let zones = Zones::new();
    let mut cache = Cache::new();
    let (mut resolver, step) = Resolver::start(&zones, &mut cache, "a.test", QueryType::A, 0, FIRST);
    let mut step = step;
    let mut requests = 0;
    loop {
        match step {
            Step::Ask(request) => {
                requests += 1;
                assert_eq!(request.qname, "a.test");
                let reply = delegation("test", &[("ns.test", Some([10, 0, 0, requests as u8]))]);
                step = resolver.advance(Reply::Packet(reply), &zones, &mut cache, 1, FIRST);
            }
            Step::Done(result) => {
                assert_eq!(result.header.rescode, ResultCode::SERVFAIL);
                assert_eq!(result.questions[0].name, "a.test");
                break;
            }
        }
    }
    assert_eq!(requests, 16);
    assert!(resolver.is_idle());
}

#[test]
fn the_address_of_a_server_without_one_is_looked_up() {
    let zones = Zones::new();
    let mut cache = Cache::new();
    let (mut resolver, _) = Resolver::start(&zones, &mut cache, "www.a.test", QueryType::A, 0, FIRST);
    let reply = delegation("a.test", &[("ns.b.example", None)]);
    let request = asked(resolver.advance(Reply::Packet(reply), &zones, &mut cache, 1, FIRST));
    assert_eq!(request.server, "198.41.0.4");
    assert_eq!(request.qname, "ns.b.example");
    assert_eq!(request.qtype, QueryType::A);
    assert_eq!(resolver.depth(), 2);
    let mut found = DnsPacket::new();
    found.answers.push(a("ns.b.example", [10, 1, 1, 1]));
    found.answers.push(a("ns.b.example", [10, 2, 2, 2]));
    let pick_second = Chances { id: 9, server: 0, host: 0, address: 1 };
    let request = asked(resolver.advance(Reply::Packet(found), &zones, &mut cache, 2, pick_second));
    assert_eq!(request.server, "10.2.2.2");
    assert_eq!(request.qname, "www.a.test");
    assert_eq!(request.id, 9);
    assert_eq!(resolver.depth(), 1);
    let mut answer = DnsPacket::new();
    answer.answers.push(a("www.a.test", [1, 1, 1, 1]));
    let result = done(resolver.advance(Reply::Packet(answer.clone()), &zones, &mut cache, 3, FIRST));
    assert_eq!(result.answers, answer.answers);
}

#[test]
fn a_server_that_cannot_be_found_fails_the_lookup() {
    let zones = Zones::new();
    let mut cache = Cache::new();
    let (mut resolver, _) = Resolver::start(&zones, &mut cache, "www.a.test", QueryType::A, 0, FIRST);
    let reply = delegation("a.test", &[("ns.b.example", None)]);
    let _ = asked(resolver.advance(Reply::Packet(reply), &zones, &mut cache, 1, FIRST));
    let mut nothing = DnsPacket::new();
    nothing.header.rescode = ResultCode::NXDOMAIN;
    let result = done(resolver.advance(Reply::Packet(nothing), &zones, &mut cache, 2, FIRST));
    assert_eq!(result.header.rescode, ResultCode::SERVFAIL);
    assert_eq!(result.questions, vec![DnsQuestion::new(&"www.a.test".to_string(), QueryType::A)]);
    assert!(resolver.is_idle());
}

#[test]
fn a_server_whose_address_is_known_is_asked_at_once() {
    let zones = Zones::new();
    let mut cache = Cache::new();
    cache.store(&vec![a("ns.b.example", [10, 3, 3, 3])], 0);
    let (mut resolver, _) = Resolver::start(&zones, &mut cache, "www.a.test", QueryType::A, 0, FIRST);
    let reply = delegation("a.test", &[("ns.b.example", None)]);
    let request = asked(resolver.advance(Reply::Packet(reply), &zones, &mut cache, 1, FIRST));
    assert_eq!(request.server, "10.3.3.3");
    assert_eq!(request.qname, "www.a.test");
    assert_eq!(resolver.depth(), 1);
}

#[test]
fn sixteen_names_are_pending_at_most() {
    let zones = Zones::new();
    let mut cache = Cache::new();
    let (mut resolver, step) = Resolver::start(&zones, &mut cache, "n0.test", QueryType::A, 0, FIRST);
    let mut step = step;
    let mut asked_names = 0;
    loop {
        match step {
            Step::Ask(request) => {
                assert_eq!(request.qname, format!("n{}.test", asked_names));
                asked_names += 1;
                assert_eq!(resolver.depth(), asked_names);
                let host = format!("n{}.test", asked_names);
                let reply = delegation("test", &[(host.as_str(), None)]);
                step = resolver.advance(Reply::Packet(reply), &zones, &mut cache, 1, FIRST);
            }
            Step::Done(result) => {
                assert_eq!(result.header.rescode, ResultCode::SERVFAIL);
                assert_eq!(result.questions[0].name, "n0.test");
                break;
            }
        }
    }
    assert_eq!(asked_names, 16);
    assert!(resolver.is_idle());
}

#[test]
fn a_reply_without_a_way_on_is_the_result() {
    let zones = Zones::new();
    let mut cache = Cache::new();
    let (mut resolver, _) = Resolver::start(&zones, &mut cache, "www.a.test", QueryType::A, 0, FIRST);
    let mut reply = delegation("other.example", &[("ns.other.example", Some([10, 0, 0, 1]))]);
    reply.header.rescode = ResultCode::REFUSED;
    let result = done(resolver.advance(Reply::Packet(reply.clone()), &zones, &mut cache, 1, FIRST));
    assert_eq!(result.header, reply.header);
    assert_eq!(result.authorities, reply.authorities);
}

#[test]
fn a_zone_answers_before_the_cache_and_the_cache_before_a_server() {
    let mut zones = Zones::new();
    let mut zone = Zone::new("a.test".to_string(), "ns.a.test".to_string(), "admin.a.test".to_string());
    zone.add_record(&a("www.a.test", [1, 1, 1, 1]));
    zones.add_zone(zone);
    let mut cache = Cache::new();
    cache.store(&vec![a("www.a.test", [2, 2, 2, 2]), a("www.b.test", [3, 3, 3, 3])], 0);
    let found = known_of(&zones, &mut cache, "www.a.test", QueryType::A, 1).unwrap();
    assert_eq!(found.answers, vec![a("www.a.test", [1, 1, 1, 1])]);
    assert!(found.header.authoritative_answer);
    let found = known_of(&zones, &mut cache, "mail.a.test", QueryType::A, 1).unwrap();
    assert_eq!(found.header.rescode, ResultCode::NXDOMAIN);
    let found = known_of(&zones, &mut cache, "www.b.test", QueryType::A, 1).unwrap();
    assert_eq!(found.answers, vec![a("www.b.test", [3, 3, 3, 3])]);
    assert!(known_of(&zones, &mut cache, "www.c.test", QueryType::A, 1).is_none());
    let (resolver, step) = Resolver::start(&zones, &mut cache, "www.a.test", QueryType::A, 1, FIRST);
    assert!(resolver.is_idle());
    assert_eq!(done(step).answers, vec![a("www.a.test", [1, 1, 1, 1])]);
}

#[test]
fn a_request_is_sent_as_a_message_with_one_question() {
    let request = Request {
        server: "198.41.0.4".to_string(),
        id: 0xABCD,
        qname: "www.a.test".to_string(),
        qtype: QueryType::AAAA,
    };
    let mut packet = request.packet();
    assert_eq!(packet.header.id, 0xABCD);
    assert!(!packet.header.recursion_desired);
    assert!(!packet.header.response);
    assert_eq!(packet.questions, vec![DnsQuestion::new(&"www.a.test".to_string(), QueryType::AAAA)]);
    let mut buffer = VectorPacketBuffer::new();
    packet.write(&mut buffer, 512).unwrap();
    assert_eq!(buffer.pos(), 12 + 12 + 4);
    let numbers = draw();
    let other = draw();
    assert!(numbers != other || numbers.server == other.server);
}

#[test]
fn a_datagram_is_a_query_or_malformed_or_dropped() {
    let mut query = DnsPacket::new();
    query.header.id = 77;
    query.header.recursion_desired = true;
    query.questions.push(DnsQuestion::new(&"www.a.test".to_string(), QueryType::A));
    let mut buffer = VectorPacketBuffer::new();
    query.write(&mut buffer, 512).unwrap();
    let len = buffer.pos();
    buffer.seek(0).unwrap();
    match receive(&mut buffer) {
        Received::Query(packet) => {
            assert_eq!(packet.header, query.header);
            assert_eq!(packet.questions, query.questions);
        }
        _ => panic!("not a query"),
    }
    assert_eq!(buffer.pos(), len);

    let mut cut = VectorPacketBuffer::new();
    cut.write_all(buffer.get_range(0, len - 1).unwrap()).unwrap();
    cut.seek(0).unwrap();
    match receive(&mut cut) {
        Received::Malformed(reply) => {
            assert_eq!(reply.header.id, 77);
            assert!(reply.header.response);
            assert_eq!(reply.header.rescode, ResultCode::FORMERR);
            assert!(reply.questions.is_empty());
        }
        _ => panic!("not malformed"),
    }
    assert_eq!(cut.pos(), 0);

    let mut short = VectorPacketBuffer::new();
    short.write_all(&[0; 11]).unwrap();
    short.seek(0).unwrap();
    assert!(matches!(receive(&mut short), Received::Dropped));

    let mut result = DnsPacket::new();
    result.header.rescode = ResultCode::NXDOMAIN;
    result.header.authoritative_answer = true;
    result.answers.push(a("www.a.test", [1, 2, 3, 4]));
    let reply = reply_to(query.clone(), result.clone(), true);
    assert_eq!(reply.header.id, 77);
    assert!(reply.header.response);
    assert!(reply.header.recursion_desired);
    assert!(reply.header.recursion_available);
    assert!(reply.header.authoritative_answer);
    assert_eq!(reply.header.rescode, ResultCode::NXDOMAIN);
    assert_eq!(reply.questions, query.questions);
    assert_eq!(reply.answers, result.answers);
    assert!(!reply_to(query, result, false).header.recursion_available);
}
