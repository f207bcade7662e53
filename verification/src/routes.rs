use vstd::prelude::*;
use vstd::string::StringExecFns;
use crate::addr::Ipv6Addr;
use crate::authority::covering;
use crate::authority::record_position;
use crate::authority::Zone;
use crate::authority::ZoneModel;
use crate::authority::Zones;
use crate::errors::DnsError;
use crate::protocol::RecordModel;
use crate::protocol::ResourceRecord;
use crate::requests::RecordCreateRequest;
use crate::requests::requested;

verus! {

/// Whether the regular expression `pattern` finds a match in `text`, as the
/// crate `regex` decides it; nothing where `pattern` is no regular expression
/// that the crate takes.
pub uninterp spec fn regex_match(pattern: Seq<char>, text: Seq<char>) -> Option<bool>;

/// What the first group of the regular expression `pattern` holds in the
/// first match in `text`, as the crate `regex` decides it: nothing inside
/// where there is no match or the group took no part in it, nothing at all
/// where `pattern` is no regular expression that the crate takes.
pub uninterp spec fn regex_group(pattern: Seq<char>, text: Seq<char>) -> Option<Option<Seq<char>>>;

/// Whether `found` is what the first group holds according to `wanted`.
pub open spec fn is_group(found: Option<Option<String>>, wanted: Option<Option<Seq<char>>>) -> bool {
    match wanted {
        None => found is None,
        Some(None) => found == Some(None::<String>),
        Some(Some(text)) => found matches Some(Some(s)) && s@ == text,
    }
}

/// Whether `pattern` finds a match in `text`: `Regex::new` and
/// `Regex::is_match` of the crate `regex`. The result is a function of the
/// two texts alone; it is named, not described.
#[verifier::external_body]
fn pattern_matches(pattern: &str, text: &str) -> (r: Option<bool>)
    ensures
        r == regex_match(pattern@, text@),
{
    match regex::Regex::new(pattern) {
        Ok(re) => Some(re.is_match(text)),
        Err(_) => None,
    }
}

/// What the first group of `pattern` holds in the first match in `text`:
/// `Regex::new`, `Regex::captures` and `Captures::get` of the crate `regex`.
/// The result is a function of the two texts alone; it is named, not
/// described.
#[verifier::external_body]
fn pattern_group(pattern: &str, text: &str) -> (r: Option<Option<String>>)
    ensures
        is_group(r, regex_group(pattern@, text@)),
{
    match regex::Regex::new(pattern) {
        Ok(re) => match re.captures(text) {
            Some(caps) => match caps.get(1) {
                Some(group) => Some(Some(group.as_str().to_string())),
                None => Some(None),
            },
            None => Some(None),
        },
        Err(_) => None,
    }
}

/// Whether `text` holds `part` somewhere.
pub open spec fn holds_text(text: Seq<char>, part: Seq<char>) -> bool {
    exists|at: int| 0 <= at <= text.len() - part.len() && #[trigger] text.subrange(
        at,
        at + part.len(),
    ) == part
}

/// Whether `text` holds `part` somewhere: `str::contains` with a text as the
/// pattern.
#[verifier::external_body]
fn contains_text(text: &str, part: &str) -> (r: bool)
    ensures
        r == holds_text(text@, part@),
{
    text.contains(part)
}

/// Whether a header asks for JSON, or announces it: it is there and holds
/// `application/json`.
pub fn wants_json(header: Option<&str>) -> (r: bool)
    ensures
        r == (header matches Some(value) && holds_text(value@, "application/json"@)),
{
    match header {
        Some(value) => contains_text(value, "application/json"),
        None => false,
    }
}

/// What a request of the management surface is for.
#[derive(Debug, Clone, PartialEq, Eq)]
pub enum Route {
    /// The records of the cache.
    Cache,
    /// The zones.
    Authority,
    /// The records of the zone of this name.
    Zone(String),
    /// Nothing that the surface knows.
    NotFound,
}

/// What a route is to contracts.
pub enum RouteModel {
    Cache,
    Authority,
    Zone(Seq<char>),
    NotFound,
}

impl View for Route {
    type V = RouteModel;

    open spec fn view(&self) -> RouteModel {
        match *self {
            Route::Cache => RouteModel::Cache,
            Route::Authority => RouteModel::Authority,
            Route::Zone(name) => RouteModel::Zone(name@),
            Route::NotFound => RouteModel::NotFound,
        }
    }
}

/// The route of a path, from what the three patterns of the surface find in
/// it: the cache where the first finds a match; else the zones where the
/// second does; else the zone that the group of the third holds; else none.
pub open spec fn route_for(
    cache: Option<bool>,
    authority: Option<bool>,
    zone: Option<Option<Seq<char>>>,
) -> RouteModel {
    if cache == Some(true) {
        RouteModel::Cache
    } else if authority == Some(true) {
        RouteModel::Authority
    } else {
        match zone {
            Some(Some(name)) => RouteModel::Zone(name),
            _ => RouteModel::NotFound,
        }
    }
}

/// The route of a path, from what the three patterns of the surface find in
/// it.
pub fn route_of(cache: Option<bool>, authority: Option<bool>, zone: Option<Option<String>>) -> (r:
    Route)
    ensures
        r@ == route_for(
            cache,
            authority,
            match zone {
                Some(Some(name)) => Some(Some(name@)),
                Some(None) => Some(None),
                None => None,
            },
        ),
{
    match cache {
        Some(true) => {
            return Route::Cache;
        },
        _ => {},
    }
    match authority {
        Some(true) => {
            return Route::Authority;
        },
        _ => {},
    }
    match zone {
        Some(Some(name)) => Route::Zone(name),
        _ => Route::NotFound,
    }
}

/// The pattern of the paths of the cache.
pub open spec fn cache_pattern() -> Seq<char> {
    "^/cache"@
}

/// The pattern of the path of the zones.
pub open spec fn authority_pattern() -> Seq<char> {
    "^/authority$"@
}

/// The pattern of the path of one zone; its group is the name of the zone.
pub open spec fn zone_pattern() -> Seq<char> {
    "^/authority/([A-Za-z0-9-.]+)$"@
}

/// The route of the path `url`.
pub fn route(url: &str) -> (r: Route)
    ensures
        r@ == route_for(
            regex_match(cache_pattern(), url@),
            regex_match(authority_pattern(), url@),
            regex_group(zone_pattern(), url@),
        ),
{
    let cache = pattern_matches("^/cache", url);
    let authority = pattern_matches("^/authority$", url);
    let zone = pattern_group("^/authority/([A-Za-z0-9-.]+)$", url);
    route_of(cache, authority, zone)
}

/// The value of a field of a record or of a zone, as the surface shows it.
#[derive(Debug, Clone, PartialEq, Eq)]
pub enum Field {
    Text(String),
    Number(u64),
    Address(Ipv6Addr),
}

/// What the value of a field is to contracts.
pub enum FieldModel {
    Text(Seq<char>),
    Number(u64),
    Address(Ipv6Addr),
}

impl View for Field {
    type V = FieldModel;

    open spec fn view(&self) -> FieldModel {
        match *self {
            Field::Text(text) => FieldModel::Text(text@),
            Field::Number(n) => FieldModel::Number(n),
            Field::Address(addr) => FieldModel::Address(addr),
        }
    }
}

/// The named fields as contracts see them.
pub open spec fn named_views(fields: Seq<(String, Field)>) -> Seq<(Seq<char>, FieldModel)> {
    Seq::new(fields.len(), |i: int| (fields[i].0@, fields[i].1@))
}

/// The fields that the surface shows of a record: its type by name, and for
/// most types the domain, the host and the time to live. An `UNKNOWN` record
/// shows the number of its type and the length of its data; `SOA`, `TXT` and
/// `OPT` records show their type alone.
pub open spec fn shown(rec: RecordModel) -> Seq<(Seq<char>, FieldModel)> {
    match rec {
        RecordModel::A(domain, addr, ttl) => seq![
            ("type"@, FieldModel::Text("A"@)),
            ("domain"@, FieldModel::Text(domain)),
            ("host"@, FieldModel::Text(addr.text())),
            ("ttl"@, FieldModel::Number(ttl as u64)),
        ],
        RecordModel::AAAA(domain, addr, ttl) => seq![
            ("type"@, FieldModel::Text("AAAA"@)),
            ("domain"@, FieldModel::Text(domain)),
            ("host"@, FieldModel::Address(addr)),
            ("ttl"@, FieldModel::Number(ttl as u64)),
        ],
        RecordModel::NS(domain, host, ttl) => seq![
            ("type"@, FieldModel::Text("NS"@)),
            ("domain"@, FieldModel::Text(domain)),
            ("host"@, FieldModel::Text(host)),
            ("ttl"@, FieldModel::Number(ttl as u64)),
        ],
        RecordModel::CNAME(domain, host, ttl) => seq![
            ("type"@, FieldModel::Text("CNAME"@)),
            ("domain"@, FieldModel::Text(domain)),
            ("host"@, FieldModel::Text(host)),
            ("ttl"@, FieldModel::Number(ttl as u64)),
        ],
        RecordModel::SRV(domain, priority, weight, port, host, ttl) => seq![
            ("type"@, FieldModel::Text("SRV"@)),
            ("domain"@, FieldModel::Text(domain)),
            ("host"@, FieldModel::Text(host)),
            ("ttl"@, FieldModel::Number(ttl as u64)),
            ("priority"@, FieldModel::Number(priority as u64)),
            ("weight"@, FieldModel::Number(weight as u64)),
            ("port"@, FieldModel::Number(port as u64)),
        ],
        RecordModel::MX(domain, _, host, ttl) => seq![
            ("type"@, FieldModel::Text("MX"@)),
            ("domain"@, FieldModel::Text(domain)),
            ("host"@, FieldModel::Text(host)),
            ("ttl"@, FieldModel::Number(ttl as u64)),
        ],
        RecordModel::UNKNOWN(domain, qtype, len, ttl) => seq![
            ("type"@, FieldModel::Number(qtype as u64)),
            ("domain"@, FieldModel::Text(domain)),
            ("ttl"@, FieldModel::Number(ttl as u64)),
            ("len"@, FieldModel::Number(len as u64)),
        ],
        RecordModel::SOA(_, _, _, _, _, _, _, _, _) => seq![("type"@, FieldModel::Text("SOA"@))],
        RecordModel::TXT(_, _, _) => seq![("type"@, FieldModel::Text("TXT"@))],
        RecordModel::OPT(_, _, _) => seq![("type"@, FieldModel::Text("OPT"@))],
    }
}

/// A field with the name `name` and the text `text`.
fn text_field(name: &str, text: &str) -> (f: (String, Field))
    ensures
        (f.0@, f.1@) == (name@, FieldModel::Text(text@)),
{
    (String::from_str(name), Field::Text(String::from_str(text)))
}

/// A field with the name `name` and the number `n`.
fn number_field(name: &str, n: u64) -> (f: (String, Field))
    ensures
        (f.0@, f.1@) == (name@, FieldModel::Number(n)),
{
    (String::from_str(name), Field::Number(n))
}

/// The fields of a record that has a domain, a host and a time to live.
fn host_fields(kind: &str, domain: &String, host: &str, ttl: u32) -> (fields: Vec<(String, Field)>)
    ensures
        named_views(fields@) == seq![
            ("type"@, FieldModel::Text(kind@)),
            ("domain"@, FieldModel::Text(domain@)),
            ("host"@, FieldModel::Text(host@)),
            ("ttl"@, FieldModel::Number(ttl as u64)),
        ],
{
    let mut fields: Vec<(String, Field)> = Vec::new();
    fields.push(text_field("type", kind));
    fields.push(text_field("domain", domain.as_str()));
    fields.push(text_field("host", host));
    fields.push(number_field("ttl", ttl as u64));
    assert(named_views(fields@) =~= seq![
        ("type"@, FieldModel::Text(kind@)),
        ("domain"@, FieldModel::Text(domain@)),
        ("host"@, FieldModel::Text(host@)),
        ("ttl"@, FieldModel::Number(ttl as u64)),
    ]);
    fields
}

/// The type alone.
fn type_field(kind: &str) -> (fields: Vec<(String, Field)>)
    ensures
        named_views(fields@) == seq![("type"@, FieldModel::Text(kind@))],
{
    let mut fields: Vec<(String, Field)> = Vec::new();
    fields.push(text_field("type", kind));
    assert(named_views(fields@) =~= seq![("type"@, FieldModel::Text(kind@))]);
    fields
}

/// The fields that the surface shows of a record.
pub fn record_fields(rr: &ResourceRecord) -> (fields: Vec<(String, Field)>)
    ensures
        named_views(fields@) == shown(rr@),
{
    match rr {
        ResourceRecord::A(domain, addr, ttl) => {
            let host = addr.to_text();
            host_fields("A", domain, host.as_str(), *ttl)
        },
        ResourceRecord::AAAA(domain, addr, ttl) => {
            let mut fields: Vec<(String, Field)> = Vec::new();
            fields.push(text_field("type", "AAAA"));
            fields.push(text_field("domain", domain.as_str()));
            fields.push((String::from_str("host"), Field::Address(*addr)));
            fields.push(number_field("ttl", *ttl as u64));
            assert(named_views(fields@) =~= shown(rr@));
            fields
        },
        ResourceRecord::NS(domain, host, ttl) => host_fields("NS", domain, host.as_str(), *ttl),
        ResourceRecord::CNAME(domain, host, ttl) => host_fields(
            "CNAME",
            domain,
            host.as_str(),
            *ttl,
        ),
        ResourceRecord::SRV(domain, priority, weight, port, host, ttl) => {
            let mut fields = host_fields("SRV", domain, host.as_str(), *ttl);
            let ghost first = named_views(fields@);
            fields.push(number_field("priority", *priority as u64));
            fields.push(number_field("weight", *weight as u64));
            fields.push(number_field("port", *port as u64));
            assert(named_views(fields@) =~= first.push(
                ("priority"@, FieldModel::Number(*priority as u64)),
            ).push(("weight"@, FieldModel::Number(*weight as u64))).push(
                ("port"@, FieldModel::Number(*port as u64)),
            ));
            assert(named_views(fields@) =~= shown(rr@));
            fields
        },
        ResourceRecord::MX(domain, _, host, ttl) => host_fields("MX", domain, host.as_str(), *ttl),
        ResourceRecord::UNKNOWN(domain, qtype, len, ttl) => {
            let mut fields: Vec<(String, Field)> = Vec::new();
            fields.push(number_field("type", *qtype as u64));
            fields.push(text_field("domain", domain.as_str()));
            fields.push(number_field("ttl", *ttl as u64));
            fields.push(number_field("len", *len as u64));
            assert(named_views(fields@) =~= shown(rr@));
            fields
        },
        ResourceRecord::SOA(_, _, _, _, _, _, _, _, _) => type_field("SOA"),
        ResourceRecord::TXT(_, _, _) => type_field("TXT"),
        ResourceRecord::OPT(_, _, _) => type_field("OPT"),
    }
}

/// The fields that the surface shows of a zone: its domain and the fields of
/// its `SOA` record.
pub open spec fn shown_zone(zone: ZoneModel) -> Seq<(Seq<char>, FieldModel)> {
    seq![
        ("domain"@, FieldModel::Text(zone.domain)),
        ("mname"@, FieldModel::Text(zone.mname)),
        ("rname"@, FieldModel::Text(zone.rname)),
        ("serial"@, FieldModel::Number(zone.serial as u64)),
        ("refresh"@, FieldModel::Number(zone.refresh as u64)),
        ("retry"@, FieldModel::Number(zone.retry as u64)),
        ("expire"@, FieldModel::Number(zone.expire as u64)),
        ("minimum"@, FieldModel::Number(zone.minimum as u64)),
    ]
}

/// The fields that the surface shows of a zone.
pub fn zone_fields(zone: &Zone) -> (fields: Vec<(String, Field)>)
    ensures
        named_views(fields@) == shown_zone(zone@),
{
    let mut fields: Vec<(String, Field)> = Vec::new();
    fields.push(text_field("domain", zone.domain.as_str()));
    fields.push(text_field("mname", zone.mname.as_str()));
    fields.push(text_field("rname", zone.rname.as_str()));
    fields.push(number_field("serial", zone.serial as u64));
    fields.push(number_field("refresh", zone.refresh as u64));
    fields.push(number_field("retry", zone.retry as u64));
    fields.push(number_field("expire", zone.expire as u64));
    fields.push(number_field("minimum", zone.minimum as u64));
    assert(named_views(fields@) =~= shown_zone(zone@));
    fields
}

/// Where a client is sent after something was created: to the page of the
/// zone, or to the page of the zones.
pub open spec fn refresh_to(zone: Option<Seq<char>>) -> Seq<char> {
    match zone {
        Some(name) => "0; url=/authority/"@ + name,
        None => "0; url=/authority"@,
    }
}

/// The value of the header that sends a client on after something was
/// created.
pub fn refresh_value(zone: Option<&str>) -> (value: String)
    ensures
        value@ == refresh_to(
            match zone {
                Some(name) => Some(name@),
                None => None,
            },
        ),
{
    match zone {
        Some(name) => {
            let mut value = String::from_str("0; url=/authority/");
            value.append(name);
            value
        },
        None => String::from_str("0; url=/authority"),
    }
}

/// The zones after a request for a record in the zone that covers `zone`.
pub open spec fn with_record(zones: Seq<ZoneModel>, at: int, rec: RecordModel) -> Seq<ZoneModel> {
    zones.update(
        at,
        if record_position(zones[at].records, rec, 0) is None {
            ZoneModel { records: zones[at].records.push(rec), ..zones[at] }
        } else {
            zones[at]
        },
    )
}

/// Adds the record that `request` asks for to the zone that covers `zone`.
/// A request that asks for no record is malformed; without a zone that
/// covers `zone` there is no authority. Neither changes the zones.
pub fn create_record(zones: &mut Zones, zone: &str, request: RecordCreateRequest) -> (r: Result<
    (),
    DnsError,
>)
    ensures
        match requested(
            request.recordtype@,
            request.domain@,
            request.ttl,
            match request.host {
                Some(h) => Some(h@),
                None => None,
            },
        ) {
            None => r == Err::<(), DnsError>(DnsError::FormatError) && final(zones)@ == old(zones)@,
            Some(rec) => match covering(old(zones)@, zone@, old(zones)@.len() as int) {
                None => r == Err::<(), DnsError>(DnsError::NotAuthoritative) && final(zones)@ == old(
                    zones,
                )@,
                Some(at) => r is Ok && final(zones)@ == with_record(old(zones)@, at, rec),
            },
        },
{
    let rec = match request.to_resourcerecord() {
        Some(rec) => rec,
        None => {
            return Err(DnsError::FormatError);
        },
    };
    if zones.add_record(zone, &rec) {
        Ok(())
    } else {
        Err(DnsError::NotAuthoritative)
    }
}

} // verus!
