use dns_core::addr::Ipv4Addr;
use dns_core::cache::{same_payload, Cache};
use dns_core::protocol::{QueryType, ResourceRecord};

fn a(domain: &str, last: u8, ttl: u32) -> ResourceRecord {
    ResourceRecord::A(domain.to_string(), Ipv4Addr::new(10, 0, 0, last), ttl)
}

#[test]
fn a_record_is_found_until_it_expires() {
    let mut cache = Cache::new();
    let record = a("example.com", 1, 60);
    cache.store(&vec![record.clone()], 1000);
    for now in [1000u64, 1001, 1059] {
        let found = cache.lookup("example.com", QueryType::A, now).unwrap();
        assert_eq!(found.answers, vec![record.clone()]);
    }
    assert!(cache.lookup("example.com", QueryType::A, 1060).is_none());
    // the domain was removed with its last record
    assert_eq!(cache.list(0).len(), 0);
    assert!(cache.lookup("example.com", QueryType::A, 1000).is_none());
}

#[test]
fn a_domain_is_found_whatever_the_case() {
    let mut cache = Cache::new();
    cache.store(&vec![a("Example.COM", 1, 60)], 0);
    let found = cache.lookup("eXAMPLE.com", QueryType::A, 1).unwrap();
    assert_eq!(found.answers, vec![a("Example.COM", 1, 60)]);
    assert!(cache.lookup("example.org", QueryType::A, 1).is_none());
    let listed = cache.list(1);
    assert_eq!(listed.len(), 1);
    assert_eq!(listed[0].domain, "example.com");
}

#[test]
fn a_record_takes_the_place_of_the_same_record() {
    let mut cache = Cache::new();
    cache.store(&vec![a("a.test", 1, 10), a("a.test", 2, 10)], 100);
    cache.store(&vec![a("a.test", 1, 500)], 105);
    let found = cache.lookup("a.test", QueryType::A, 109).unwrap();
    assert_eq!(found.answers, vec![a("a.test", 1, 500), a("a.test", 2, 10)]);
    let found = cache.lookup("a.test", QueryType::A, 110).unwrap();
    assert_eq!(found.answers, vec![a("a.test", 1, 500)]);
    let found = cache.lookup("a.test", QueryType::A, 604).unwrap();
    assert_eq!(found.answers, vec![a("a.test", 1, 500)]);
    assert!(cache.lookup("a.test", QueryType::A, 605).is_none());
}

#[test]
fn a_store_is_counted_once_for_each_domain() {
    let mut cache = Cache::new();
    let records = vec![
        a("a.test", 1, 10),
        a("b.test", 1, 10),
        a("A.test", 2, 10),
        ResourceRecord::OPT(1, 2, "".to_string()),
        ResourceRecord::NS("b.test".to_string(), "ns.test".to_string(), 20),
    ];
    cache.store(&records, 0);
    cache.store(&records[0..1].to_vec(), 1);
    assert!(cache.lookup("a.test", QueryType::NS, 2).is_none());
    assert!(cache.lookup("a.test", QueryType::A, 2).is_some());
    assert!(cache.lookup("c.test", QueryType::A, 2).is_none());
    let listed = cache.list(15);
    assert_eq!(listed.len(), 2);
    assert_eq!(listed[0].domain, "a.test");
    assert_eq!((listed[0].hits, listed[0].updates), (2, 2));
    assert_eq!(listed[0].records.len(), 0);
    assert_eq!(listed[1].domain, "b.test");
    assert_eq!((listed[1].hits, listed[1].updates), (0, 1));
    assert_eq!(listed[1].records.len(), 1);
    assert_eq!(listed[1].records[0].expires, 20);
    assert_eq!(
        listed[1].records[0].record,
        ResourceRecord::NS("b.test".to_string(), "ns.test".to_string(), 20)
    );
}

#[test]
fn the_expiry_stops_at_the_largest_second() {
    let mut cache = Cache::new();
    cache.store(&vec![a("a.test", 1, 10)], u64::MAX - 3);
    assert!(cache.lookup("a.test", QueryType::A, u64::MAX - 1).is_some());
    assert_eq!(cache.list(0)[0].records[0].expires, u64::MAX);
    assert!(cache.lookup("a.test", QueryType::A, u64::MAX).is_none());
}

#[test]
fn records_are_the_same_but_for_their_time_to_live() {
    assert!(same_payload(&a("a.test", 1, 10), &a("a.test", 1, 99)));
    assert!(!same_payload(&a("a.test", 1, 10), &a("a.test", 2, 10)));
    assert!(!same_payload(&a("a.test", 1, 10), &a("A.test", 1, 10)));
    assert!(!same_payload(
        &a("a.test", 1, 10),
        &ResourceRecord::NS("a.test".to_string(), "b".to_string(), 10)
    ));
    assert!(same_payload(
        &ResourceRecord::SOA("a".to_string(), "b".to_string(), "c".to_string(), 1, 2, 3, 4, 5, 6),
        &ResourceRecord::SOA("a".to_string(), "b".to_string(), "c".to_string(), 1, 2, 3, 4, 5, 7)
    ));
    assert!(!same_payload(
        &ResourceRecord::SOA("a".to_string(), "b".to_string(), "c".to_string(), 1, 2, 3, 4, 5, 6),
        &ResourceRecord::SOA("a".to_string(), "b".to_string(), "c".to_string(), 1, 2, 3, 4, 9, 6)
    ));
}
