use dns_core::addr::{Ipv4Addr, Ipv6Addr};
use dns_core::errors::DnsError;
use dns_core::protocol::ResourceRecord;
use dns_core::authority::{Zone, Zones};
use dns_core::requests::{RecordCreateRequest, ZoneCreateRequest};
use dns_core::routes::{
    create_record, record_fields, refresh_value, route, route_of, wants_json, zone_fields, Field, Route,
};
use dns_core::web::{get_field, hex_to_num, parse_formdata, parse_u32, url_decode};

fn fields(pairs: &[(&str, &str)]) -> Vec<(String, String)> {
    pairs.iter().map(|(k, v)| (k.to_string(), v.to_string())).collect()
}

#[test]
fn the_value_of_a_hexadecimal_digit() {
    assert_eq!(hex_to_num('0'), 0);
    assert_eq!(hex_to_num('9'), 9);
    assert_eq!(hex_to_num('a'), 10);
    assert_eq!(hex_to_num('f'), 15);
    assert_eq!(hex_to_num('A'), 10);
    assert_eq!(hex_to_num('F'), 15);
    assert_eq!(hex_to_num('g'), 0);
    assert_eq!(hex_to_num('/'), 0);
    assert_eq!(hex_to_num(':'), 0);
    assert_eq!(hex_to_num('\u{e9}'), 0);
}

#[test]
fn escapes_are_decoded() {
    assert_eq!(url_decode("a%20b"), "a b");
    assert_eq!(url_decode("%41%42%43"), "ABC");
    assert_eq!(url_decode("%e9"), "\u{e9}");
    assert_eq!(url_decode("%zz"), "\u{0}");
    assert_eq!(url_decode("a+b"), "a+b");
    assert_eq!(url_decode(""), "");
    assert_eq!(url_decode("100%"), "100%");
    assert_eq!(url_decode("100%2"), "100%2");
    assert_eq!(url_decode("100%25"), "100%");
    assert_eq!(url_decode("\u{e9}"), "\u{c3}\u{a9}");
}

#[test]
fn a_form_is_split_into_fields() {
    assert_eq!(
        parse_formdata("domain=example.com&mname=ns%2eexample.com&x&a=b=c&&e=&=f"),
        fields(&[("domain", "example.com"), ("mname", "ns.example.com"), ("e", ""), ("", "f")])
    );
    assert_eq!(parse_formdata(""), vec![]);
    assert_eq!(parse_formdata("&"), vec![]);
    assert_eq!(parse_formdata("a=1"), fields(&[("a", "1")]));
    assert_eq!(parse_formdata("a%3Db=1"), fields(&[("a=b", "1")]));
}

#[test]
fn the_last_field_of_a_name_counts() {
    let all = fields(&[("a", "1"), ("b", "2"), ("a", "3")]);
    assert_eq!(get_field(&all, "a"), Some(&"3".to_string()));
    assert_eq!(get_field(&all, "b"), Some(&"2".to_string()));
    assert_eq!(get_field(&all, "c"), None);
}

#[test]
fn numbers_are_digits_with_or_without_a_plus() {
    assert_eq!(parse_u32("0"), Some(0));
    assert_eq!(parse_u32("007"), Some(7));
    assert_eq!(parse_u32("+42"), Some(42));
    assert_eq!(parse_u32("4294967295"), Some(4294967295));
    assert_eq!(parse_u32("4294967296"), None);
    assert_eq!(parse_u32("99999999999"), None);
    assert_eq!(parse_u32(""), None);
    assert_eq!(parse_u32("+"), None);
    assert_eq!(parse_u32("-1"), None);
    assert_eq!(parse_u32("1 "), None);
    assert_eq!(parse_u32("1_000"), None);
    assert_eq!(parse_u32("++1"), None);
    for text in ["0", "12", "+12", "4294967295", "4294967296", "", "+", "a", "1a", "01"] {
        assert_eq!(parse_u32(text), text.parse::<u32>().ok(), "{:?}", text);
    }
}

#[test]
fn a_request_for_a_zone() {
    let request = ZoneCreateRequest::from_formdata(fields(&[
        ("domain", "example.com"),
        ("mname", "ns.example.com"),
        ("rname", "admin.example.com"),
        ("serial", "5"),
        ("refresh", "x"),
        ("retry", "100"),
    ]))
    .unwrap();
    assert_eq!(request.domain, "example.com");
    assert_eq!(request.mname, "ns.example.com");
    assert_eq!(request.rname, "admin.example.com");
    assert_eq!(request.serial, Some(5));
    assert_eq!(request.refresh, None);
    assert_eq!(request.retry, Some(100));
    assert_eq!(request.expire, None);
    assert_eq!(request.minimum, None);
    let zone = request.to_zone();
    assert_eq!(zone.domain, "example.com");
    assert_eq!((zone.serial, zone.refresh, zone.retry, zone.expire, zone.minimum), (5, 3600, 100, 3600, 3600));
    for missing in ["domain", "mname", "rname"] {
        let mut all = fields(&[("domain", "d"), ("mname", "m"), ("rname", "r")]);
        all.retain(|(k, _)| k != missing);
        assert_eq!(ZoneCreateRequest::from_formdata(all).err(), Some(DnsError::FormatError));
    }
}

#[test]
fn a_request_for_a_record() {
    let request = RecordCreateRequest::from_formdata(fields(&[
        ("recordtype", "A"),
        ("domain", "www.example.com"),
        ("ttl", "60"),
        ("host", "93.184.216.34"),
    ]))
    .unwrap();
    assert_eq!(request.recordtype, "A");
    assert_eq!(request.ttl, 60);
    assert_eq!(request.host, Some("93.184.216.34".to_string()));
    assert_eq!(
        request.to_resourcerecord(),
        Some(ResourceRecord::A("www.example.com".to_string(), Ipv4Addr::new(93, 184, 216, 34), 60))
    );
    let missing = [
        fields(&[("domain", "d"), ("ttl", "1")]),
        fields(&[("recordtype", "A"), ("ttl", "1")]),
        fields(&[("recordtype", "A"), ("domain", "d")]),
        fields(&[("recordtype", "A"), ("domain", "d"), ("ttl", "soon")]),
    ];
    for all in missing {
        assert_eq!(RecordCreateRequest::from_formdata(all).err(), Some(DnsError::FormatError));
    }
    let without_host = RecordCreateRequest::from_formdata(fields(&[
        ("recordtype", "CNAME"),
        ("domain", "d"),
        ("ttl", "1"),
    ]))
    .unwrap();
    assert_eq!(without_host.host, None);
    assert_eq!(without_host.to_resourcerecord(), None);
}

fn record_for(recordtype: &str, host: &str) -> Option<ResourceRecord> {
    RecordCreateRequest {
        recordtype: recordtype.to_string(),
        domain: "d.test".to_string(),
        ttl: 9,
        host: Some(host.to_string()),
    }
    .to_resourcerecord()
}

#[test]
fn the_record_that_a_request_asks_for() {
    assert_eq!(
        record_for("AAAA", "2001:db8::1"),
        Some(ResourceRecord::AAAA("d.test".to_string(), Ipv6Addr::new(0x2001, 0xdb8, 0, 0, 0, 0, 0, 1), 9))
    );
    assert_eq!(
        record_for("CNAME", "other.test"),
        Some(ResourceRecord::CNAME("d.test".to_string(), "other.test".to_string(), 9))
    );
    assert_eq!(record_for("A", "2001:db8::1"), None);
    assert_eq!(record_for("AAAA", "1.2.3.4"), None);
    assert_eq!(record_for("a", "1.2.3.4"), None);
    assert_eq!(record_for("MX", "mail.test"), None);
    assert_eq!(record_for("", "1.2.3.4"), None);
}

#[test]
fn the_route_of_a_path() {
    assert_eq!(route("/cache"), Route::Cache);
    assert_eq!(route("/cache/anything?x=1"), Route::Cache);
    assert_eq!(route("/authority"), Route::Authority);
    assert_eq!(route("/authority/example.com"), Route::Zone("example.com".to_string()));
    assert_eq!(route("/authority/a-b.C9"), Route::Zone("a-b.C9".to_string()));
    assert_eq!(route("/authority/"), Route::NotFound);
    assert_eq!(route("/authority/a/b"), Route::NotFound);
    assert_eq!(route("/authority/a_b"), Route::NotFound);
    assert_eq!(route("/authorities"), Route::NotFound);
    assert_eq!(route("/x/cache"), Route::NotFound);
    assert_eq!(route(""), Route::NotFound);
    assert_eq!(route_of(Some(true), Some(true), Some(Some("z".to_string()))), Route::Cache);
    assert_eq!(route_of(Some(false), Some(true), Some(Some("z".to_string()))), Route::Authority);
    assert_eq!(route_of(None, Some(false), Some(Some("z".to_string()))), Route::Zone("z".to_string()));
    assert_eq!(route_of(Some(false), None, Some(None)), Route::NotFound);
    assert_eq!(route_of(None, None, None), Route::NotFound);
}

#[test]
fn a_header_that_holds_json_asks_for_it() {
    assert!(wants_json(Some("application/json")));
    assert!(wants_json(Some("text/html, application/json;q=0.9")));
    assert!(!wants_json(Some("text/html")));
    assert!(!wants_json(Some("application/jso")));
    assert!(!wants_json(Some("")));
    assert!(!wants_json(None));
}

#[test]
fn the_fields_that_are_shown_of_a_record() {
    let text = |name: &str, value: &str| (name.to_string(), Field::Text(value.to_string()));
    let number = |name: &str, value: u64| (name.to_string(), Field::Number(value));
    assert_eq!(
        record_fields(&ResourceRecord::A("a.test".to_string(), Ipv4Addr::new(1, 2, 3, 4), 60)),
        vec![text("type", "A"), text("domain", "a.test"), text("host", "1.2.3.4"), number("ttl", 60)]
    );
    let v6 = Ipv6Addr::new(1, 2, 3, 4, 5, 6, 7, 8);
    assert_eq!(
        record_fields(&ResourceRecord::AAAA("a.test".to_string(), v6, 61)),
        vec![
            text("type", "AAAA"),
            text("domain", "a.test"),
            ("host".to_string(), Field::Address(v6)),
            number("ttl", 61)
        ]
    );
    assert_eq!(
        record_fields(&ResourceRecord::MX("a.test".to_string(), 10, "mx.test".to_string(), 62)),
        vec![text("type", "MX"), text("domain", "a.test"), text("host", "mx.test"), number("ttl", 62)]
    );
    assert_eq!(
        record_fields(&ResourceRecord::SRV("a.test".to_string(), 1, 2, 3, "s.test".to_string(), 63)),
        vec![
            text("type", "SRV"),
            text("domain", "a.test"),
            text("host", "s.test"),
            number("ttl", 63),
            number("priority", 1),
            number("weight", 2),
            number("port", 3)
        ]
    );
    assert_eq!(
        record_fields(&ResourceRecord::UNKNOWN("a.test".to_string(), 99, 7, 64)),
        vec![number("type", 99), text("domain", "a.test"), number("ttl", 64), number("len", 7)]
    );
    assert_eq!(
        record_fields(&ResourceRecord::TXT("a.test".to_string(), "t".to_string(), 65)),
        vec![text("type", "TXT")]
    );
    assert_eq!(record_fields(&ResourceRecord::OPT(1, 2, "".to_string())), vec![text("type", "OPT")]);
    assert_eq!(
        record_fields(&ResourceRecord::NS("a.test".to_string(), "ns.test".to_string(), 1))[0],
        text("type", "NS")
    );
    assert_eq!(
        record_fields(&ResourceRecord::CNAME("a.test".to_string(), "c.test".to_string(), 1))[2],
        text("host", "c.test")
    );
}

#[test]
fn a_record_is_created_in_the_zone_that_covers_the_name() {
    let request = |recordtype: &str, host: &str| RecordCreateRequest {
        recordtype: recordtype.to_string(),
        domain: "www.a.test".to_string(),
        ttl: 5,
        host: Some(host.to_string()),
    };
    let mut zones = Zones::new();
    assert_eq!(create_record(&mut zones, "a.test", request("A", "1.2.3.4")), Err(DnsError::NotAuthoritative));
    assert_eq!(create_record(&mut zones, "a.test", request("A", "nowhere")), Err(DnsError::FormatError));
    zones.add_zone(Zone::new("a.test".to_string(), "ns.a.test".to_string(), "admin.a.test".to_string()));
    assert_eq!(create_record(&mut zones, "a.test", request("MX", "1.2.3.4")), Err(DnsError::FormatError));
    assert!(zones.zones()[0].records.is_empty());
    assert_eq!(create_record(&mut zones, "a.test", request("A", "1.2.3.4")), Ok(()));
    assert_eq!(create_record(&mut zones, "A.TEST", request("A", "1.2.3.4")), Ok(()));
    assert_eq!(
        zones.zones()[0].records,
        vec![ResourceRecord::A("www.a.test".to_string(), Ipv4Addr::new(1, 2, 3, 4), 5)]
    );
    assert_eq!(create_record(&mut zones, "b.test", request("A", "1.2.3.4")), Err(DnsError::NotAuthoritative));
    assert_eq!(DnsError::NotAuthoritative.message(), "zone not found");
}

#[test]
fn the_fields_that_are_shown_of_a_zone() {
    let mut zone = Zone::new("a.test".to_string(), "ns.a.test".to_string(), "admin.a.test".to_string());
    zone.serial = 9;
    zone.expire = 10;
    let text = |name: &str, value: &str| (name.to_string(), Field::Text(value.to_string()));
    let number = |name: &str, value: u64| (name.to_string(), Field::Number(value));
    assert_eq!(
        zone_fields(&zone),
        vec![
            text("domain", "a.test"),
            text("mname", "ns.a.test"),
            text("rname", "admin.a.test"),
            number("serial", 9),
            number("refresh", 3600),
            number("retry", 3600),
            number("expire", 10),
            number("minimum", 3600)
        ]
    );
    assert_eq!(refresh_value(None), "0; url=/authority");
    assert_eq!(refresh_value(Some("a.test")), "0; url=/authority/a.test");
}
