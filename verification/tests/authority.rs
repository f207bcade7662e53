use dns_core::addr::Ipv4Addr;
use dns_core::authority::{same_record, Zone, Zones};
use dns_core::protocol::{QueryType, ResourceRecord, ResultCode};

fn zone(domain: &str) -> Zone {
    Zone::new(domain.to_string(), format!("ns.{}", domain), format!("admin.{}", domain))
}

#[test]
fn a_new_zone_has_its_defaults() {
    let z = zone("example.com");
    assert_eq!(z.domain, "example.com");
    assert_eq!(z.mname, "ns.example.com");
    assert_eq!(z.rname, "admin.example.com");
    assert_eq!((z.serial, z.refresh, z.retry, z.expire, z.minimum), (0, 3600, 3600, 3600, 3600));
    assert!(z.records.is_empty());
    assert_eq!(
        z.soa(),
        ResourceRecord::SOA(
            "example.com".to_string(),
            "ns.example.com".to_string(),
            "admin.example.com".to_string(),
            0,
            3600,
            3600,
            3600,
            3600,
            3600
        )
    );
}

#[test]
fn no_record_stands_twice_in_a_zone() {
    let mut z = zone("example.com");
    let first = ResourceRecord::A("www.example.com".to_string(), Ipv4Addr::new(1, 2, 3, 4), 60);
    let other_ttl = ResourceRecord::A("www.example.com".to_string(), Ipv4Addr::new(1, 2, 3, 4), 61);
    assert!(z.add_record(&first));
    assert!(!z.add_record(&first));
    assert!(z.add_record(&other_ttl));
    assert_eq!(z.records, vec![first.clone(), other_ttl.clone()]);
    assert!(same_record(&first, &first));
    assert!(!same_record(&first, &other_ttl));
    assert!(!same_record(
        &ResourceRecord::OPT(1, 2, "".to_string()),
        &ResourceRecord::OPT(1, 3, "".to_string())
    ));
}

#[test]
fn the_zone_with_the_longest_domain_covers_a_name() {
    let mut zones = Zones::new();
    assert!(zones.get_zone("example.com").is_none());
    assert!(zones.query("example.com", QueryType::A).is_none());
    zones.add_zone(zone("com"));
    zones.add_zone(zone("example.com"));
    zones.add_zone(zone("org"));
    zones.add_zone(zone("Sub.Example.com"));
    assert_eq!(zones.zones().len(), 4);
    assert_eq!(zones.get_zone("www.example.com").unwrap().domain, "example.com");
    assert_eq!(zones.get_zone("WWW.SUB.EXAMPLE.COM").unwrap().domain, "Sub.Example.com");
    assert_eq!(zones.get_zone("example.com").unwrap().domain, "example.com");
    assert_eq!(zones.get_zone("other.com").unwrap().domain, "com");
    assert_eq!(zones.find_zone("a.org"), Some(2));
    assert!(zones.get_zone("example.net").is_none());
    let mut replaced = zone("com");
    replaced.serial = 7;
    zones.add_zone(replaced);
    assert_eq!(zones.zones().len(), 4);
    assert_eq!(zones.zones()[0].serial, 7);
}

#[test]
fn a_zone_answers_with_its_records() {
    let mut zones = Zones::new();
    zones.add_zone(zone("example.com"));
    let www = ResourceRecord::A("www.example.com".to_string(), Ipv4Addr::new(1, 2, 3, 4), 60);
    let alias = ResourceRecord::CNAME("ftp.example.com".to_string(), "www.example.com".to_string(), 60);
    let ns = ResourceRecord::NS("Example.com".to_string(), "ns.example.com".to_string(), 60);
    let sub = ResourceRecord::NS("sub.example.com".to_string(), "ns.sub.example.com".to_string(), 60);
    for record in [&www, &alias, &ns, &sub] {
        assert!(zones.add_record("example.com", record));
    }
    assert!(!zones.add_record("example.net", &www));
    let soa = zones.get_zone("example.com").unwrap().soa();

    let found = zones.query("WWW.example.com", QueryType::A).unwrap();
    assert!(found.header.authoritative_answer);
    assert_eq!(found.header.rescode, ResultCode::NOERROR);
    assert_eq!(found.answers, vec![www.clone()]);
    assert_eq!(found.authorities, vec![ns.clone(), soa.clone()]);

    let found = zones.query("ftp.example.com", QueryType::AAAA).unwrap();
    assert_eq!(found.answers, vec![alias.clone()]);

    let found = zones.query("www.example.com", QueryType::MX).unwrap();
    assert_eq!(found.header.rescode, ResultCode::NXDOMAIN);
    assert!(found.header.authoritative_answer);
    assert!(found.answers.is_empty());
    assert_eq!(found.authorities, vec![soa.clone()]);

    let found = zones.query("nothing.example.com", QueryType::A).unwrap();
    assert_eq!(found.header.rescode, ResultCode::NXDOMAIN);
    assert_eq!(found.authorities, vec![soa]);
}
