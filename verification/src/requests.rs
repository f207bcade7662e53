use vstd::prelude::*;
use vstd::string::StringExecFns;
use vstd::utf8::encode_utf8;
use crate::addr::Ipv4Addr;
use crate::addr::Ipv6Addr;
use crate::authority::Zone;
use crate::authority::ZoneModel;
use crate::errors::DnsError;
use crate::protocol::RecordModel;
use crate::protocol::ResourceRecord;
use crate::web::field_value;
use crate::web::field_views;
use crate::web::get_field;
use crate::web::number_of;
use crate::web::parse_u32;

verus! {

/// What a request to create a zone holds.
#[derive(Debug)]
pub struct ZoneCreateRequest {
    pub domain: String,
    pub mname: String,
    pub rname: String,
    pub serial: Option<u32>,
    pub refresh: Option<u32>,
    pub retry: Option<u32>,
    pub expire: Option<u32>,
    pub minimum: Option<u32>,
}

/// What a request to create a record holds.
#[derive(Debug)]
pub struct RecordCreateRequest {
    pub recordtype: String,
    pub domain: String,
    pub ttl: u32,
    pub host: Option<String>,
}

/// The number in the field `name`: nothing where the field is missing or
/// holds no number.
pub open spec fn field_number(fields: Seq<(Seq<char>, Seq<char>)>, name: Seq<char>) -> Option<u32> {
    match field_value(fields, name, fields.len() as int) {
        Some(text) => number_of(encode_utf8(text)),
        None => None,
    }
}

/// The number in the field `name`.
fn get_number(fields: &Vec<(String, String)>, name: &str) -> (n: Option<u32>)
    ensures
        n == field_number(field_views(fields@), name@),
{
    match get_field(fields, name) {
        Some(text) => parse_u32(text.as_str()),
        None => None,
    }
}

/// Whether `found` is the text `wanted`, or neither is there.
pub open spec fn text_is(found: Option<String>, wanted: Option<Seq<char>>) -> bool {
    match wanted {
        Some(text) => found matches Some(s) && s@ == text,
        None => found is None,
    }
}

impl ZoneCreateRequest {
    /// The request that the fields of a form make. The fields `domain`,
    /// `mname` and `rname` must be there; `serial`, `refresh`, `retry`,
    /// `expire` and `minimum` are taken where they hold a number.
    pub fn from_formdata(fields: Vec<(String, String)>) -> (r: Result<ZoneCreateRequest, DnsError>)
        ensures
            r is Ok <==> field_value(field_views(fields@), "domain"@, fields@.len() as int) is Some
                && field_value(field_views(fields@), "mname"@, fields@.len() as int) is Some
                && field_value(field_views(fields@), "rname"@, fields@.len() as int) is Some,
            r matches Ok(req) ==> Some(req.domain@) == field_value(
                field_views(fields@),
                "domain"@,
                fields@.len() as int,
            ) && Some(req.mname@) == field_value(
                field_views(fields@),
                "mname"@,
                fields@.len() as int,
            ) && Some(req.rname@) == field_value(
                field_views(fields@),
                "rname"@,
                fields@.len() as int,
            ) && req.serial == field_number(field_views(fields@), "serial"@) && req.refresh
                == field_number(field_views(fields@), "refresh"@) && req.retry == field_number(
                field_views(fields@),
                "retry"@,
            ) && req.expire == field_number(field_views(fields@), "expire"@) && req.minimum
                == field_number(field_views(fields@), "minimum"@),
            r matches Err(e) ==> e == DnsError::FormatError,
    {
        let domain = match get_field(&fields, "domain") {
            Some(x) => x.clone(),
            None => {
                return Err(DnsError::FormatError);
            },
        };
        let mname = match get_field(&fields, "mname") {
            Some(x) => x.clone(),
            None => {
                return Err(DnsError::FormatError);
            },
        };
        let rname = match get_field(&fields, "rname") {
            Some(x) => x.clone(),
            None => {
                return Err(DnsError::FormatError);
            },
        };
        Ok(
            ZoneCreateRequest {
                domain,
                mname,
                rname,
                serial: get_number(&fields, "serial"),
                refresh: get_number(&fields, "refresh"),
                retry: get_number(&fields, "retry"),
                expire: get_number(&fields, "expire"),
                minimum: get_number(&fields, "minimum"),
            },
        )
    }

    /// The zone that the request asks for: a number that the request does not
    /// hold is 0 for the serial and 3600 for each of the four times.
    pub fn to_zone(self) -> (zone: Zone)
        ensures
            zone@ == (ZoneModel {
                domain: self.domain@,
                mname: self.mname@,
                rname: self.rname@,
                serial: self.serial.unwrap_or(0),
                refresh: self.refresh.unwrap_or(3600),
                retry: self.retry.unwrap_or(3600),
                expire: self.expire.unwrap_or(3600),
                minimum: self.minimum.unwrap_or(3600),
                records: Seq::empty(),
            }),
    {
        let mut zone = Zone::new(self.domain, self.mname, self.rname);
        zone.serial = match self.serial {
            Some(n) => n,
            None => 0,
        };
        zone.refresh = match self.refresh {
            Some(n) => n,
            None => 3600,
        };
        zone.retry = match self.retry {
            Some(n) => n,
            None => 3600,
        };
        zone.expire = match self.expire {
            Some(n) => n,
            None => 3600,
        };
        zone.minimum = match self.minimum {
            Some(n) => n,
            None => 3600,
        };
        zone
    }
}

impl RecordCreateRequest {
    /// The request that the fields of a form make. The fields `recordtype`
    /// and `domain` must be there, and the field `ttl` must hold a number;
    /// `host` is taken where it is there.
    pub fn from_formdata(fields: Vec<(String, String)>) -> (r: Result<RecordCreateRequest, DnsError>)
        ensures
            r is Ok <==> field_value(field_views(fields@), "recordtype"@, fields@.len() as int)
                is Some && field_value(field_views(fields@), "domain"@, fields@.len() as int)
                is Some && field_number(field_views(fields@), "ttl"@) is Some,
            r matches Ok(req) ==> Some(req.recordtype@) == field_value(
                field_views(fields@),
                "recordtype"@,
                fields@.len() as int,
            ) && Some(req.domain@) == field_value(
                field_views(fields@),
                "domain"@,
                fields@.len() as int,
            ) && Some(req.ttl) == field_number(field_views(fields@), "ttl"@) && text_is(
                req.host,
                field_value(field_views(fields@), "host"@, fields@.len() as int),
            ),
            r matches Err(e) ==> e == DnsError::FormatError,
    {
        let recordtype = match get_field(&fields, "recordtype") {
            Some(x) => x.clone(),
            None => {
                return Err(DnsError::FormatError);
            },
        };
        let domain = match get_field(&fields, "domain") {
            Some(x) => x.clone(),
            None => {
                return Err(DnsError::FormatError);
            },
        };
        let ttl = match get_number(&fields, "ttl") {
            Some(x) => x,
            None => {
                return Err(DnsError::FormatError);
            },
        };
        let host = match get_field(&fields, "host") {
            Some(x) => Some(x.clone()),
            None => None,
        };
        Ok(RecordCreateRequest { recordtype, domain, ttl, host })
    }

    /// The record that the request asks for: an `A` record where the type is
    /// `A` and the host is an IPv4 address of four numbers with dots, an
    /// `AAAA` record where the type is `AAAA` and the host is an IPv6 address
    /// of hexadecimal groups with colons, a `CNAME` record where the type is
    /// `CNAME` and there is a host; nothing otherwise.
    pub fn to_resourcerecord(self) -> (r: Option<ResourceRecord>)
        ensures
            match r {
                Some(rec) => Some(rec@) == requested(
                    self.recordtype@,
                    self.domain@,
                    self.ttl,
                    match self.host {
                        Some(h) => Some(h@),
                        None => None,
                    },
                ),
                None => requested(
                    self.recordtype@,
                    self.domain@,
                    self.ttl,
                    match self.host {
                        Some(h) => Some(h@),
                        None => None,
                    },
                ) is None,
            },
    {
        let host = match self.host {
            Some(h) => h,
            None => {
                return None;
            },
        };
        let is_a = self.recordtype == String::from_str("A");
        let is_aaaa = self.recordtype == String::from_str("AAAA");
        let is_cname = self.recordtype == String::from_str("CNAME");
        if is_a {
            match Ipv4Addr::parse(host.as_str()) {
                Some(addr) => Some(ResourceRecord::A(self.domain, addr, self.ttl)),
                None => None,
            }
        } else if is_aaaa {
            match Ipv6Addr::parse(host.as_str()) {
                Some(addr) => Some(ResourceRecord::AAAA(self.domain, addr, self.ttl)),
                None => None,
            }
        } else if is_cname {
            Some(ResourceRecord::CNAME(self.domain, host, self.ttl))
        } else {
            None
        }
    }
}

/// The record that a request for the type `recordtype` asks for.
pub open spec fn requested(
    recordtype: Seq<char>,
    domain: Seq<char>,
    ttl: u32,
    host: Option<Seq<char>>,
) -> Option<RecordModel> {
    match host {
        None => None,
        Some(h) => if recordtype == "A"@ {
            match crate::addr::ipv4_of(encode_utf8(h)) {
                Some(addr) => Some(RecordModel::A(domain, addr, ttl)),
                None => None,
            }
        } else if recordtype == "AAAA"@ {
            match crate::addr::ipv6_of(encode_utf8(h)) {
                Some(addr) => Some(RecordModel::AAAA(domain, addr, ttl)),
                None => None,
            }
        } else if recordtype == "CNAME"@ {
            Some(RecordModel::CNAME(domain, h, ttl))
        } else {
            None
        },
    }
}

} // verus!
