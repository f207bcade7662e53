use vstd::prelude::*;
use vstd::string::StringSliceAdditionalSpecFns;
use crate::cache::same_payload;
use crate::protocol::DnsHeader;
use crate::protocol::DnsPacket;
use crate::protocol::PacketModel;
use crate::protocol::QueryType;
use crate::protocol::record_views;
use crate::protocol::RecordModel;
use crate::protocol::ResourceRecord;
use crate::protocol::ResultCode;
use crate::text::is_same_name;
use crate::text::is_within;
use crate::text::same_name;
use crate::text::within;
use crate::wire::octets;

verus! {

/// A zone: the domain that it covers, the fields of its `SOA` record, and its
/// records. No record stands twice in a zone.
pub struct Zone {
    pub domain: String,
    pub mname: String,
    pub rname: String,
    pub serial: u32,
    pub refresh: u32,
    pub retry: u32,
    pub expire: u32,
    pub minimum: u32,
    pub records: Vec<ResourceRecord>,
}

/// What a zone is to contracts.
pub struct ZoneModel {
    pub domain: Seq<char>,
    pub mname: Seq<char>,
    pub rname: Seq<char>,
    pub serial: u32,
    pub refresh: u32,
    pub retry: u32,
    pub expire: u32,
    pub minimum: u32,
    pub records: Seq<RecordModel>,
}

impl View for Zone {
    type V = ZoneModel;

    open spec fn view(&self) -> ZoneModel {
        ZoneModel {
            domain: self.domain@,
            mname: self.mname@,
            rname: self.rname@,
            serial: self.serial,
            refresh: self.refresh,
            retry: self.retry,
            expire: self.expire,
            minimum: self.minimum,
            records: record_views(self.records@),
        }
    }
}

/// The zones as contracts see them.
pub open spec fn zone_views(zones: Seq<Zone>) -> Seq<ZoneModel> {
    Seq::new(zones.len(), |i: int| zones[i]@)
}

/// The zones for which the server answers with authority, each under its
/// domain.
pub struct Zones {
    zones: Vec<Zone>,
}

impl View for Zones {
    type V = Seq<ZoneModel>;

    closed spec fn view(&self) -> Seq<ZoneModel> {
        zone_views(self.zones@)
    }
}

/// The index of the first of the records from `from` on that is `rec`.
pub open spec fn record_position(records: Seq<RecordModel>, rec: RecordModel, from: int) -> Option<int>
    decreases records.len() - from,
{
    if from < 0 || from >= records.len() {
        None
    } else if records[from] == rec {
        Some(from)
    } else {
        record_position(records, rec, from + 1)
    }
}

/// The index of the first of the zones from `from` on whose domain is
/// `domain`.
pub open spec fn zone_position(zones: Seq<ZoneModel>, domain: Seq<char>, from: int) -> Option<int>
    decreases zones.len() - from,
{
    if from < 0 || from >= zones.len() {
        None
    } else if zones[from].domain == domain {
        Some(from)
    } else {
        zone_position(zones, domain, from + 1)
    }
}

/// The index of the zone among the first `upto` that covers `name` with the
/// longest domain: the zone in whose domain `name` lies, whatever the case,
/// and whose domain has the most octets. Of two such zones the first counts.
pub open spec fn covering(zones: Seq<ZoneModel>, name: Seq<char>, upto: int) -> Option<int>
    decreases upto,
{
    if upto <= 0 {
        None
    } else {
        let before = covering(zones, name, upto - 1);
        if within(name, zones[upto - 1].domain) && (before is None || octets(
            zones[before->0].domain,
        ).len() < octets(zones[upto - 1].domain).len()) {
            Some(upto - 1)
        } else {
            before
        }
    }
}

/// Whether a record of a zone answers a question for the type `qtype` of
/// `qname`: it belongs to `qname`, whatever the case, and has the type
/// `qtype` or is a `CNAME` record.
pub open spec fn answers_to(rec: RecordModel, qname: Seq<char>, qtype: QueryType) -> bool {
    rec.domain() matches Some(domain) && same_name(domain, qname) && (rec.qtype() == qtype
        || rec is CNAME)
}

/// The first `upto` records that answer a question for `qtype` of `qname`,
/// in their order.
pub open spec fn matching(recs: Seq<RecordModel>, qname: Seq<char>, qtype: QueryType, upto: int) -> Seq<
    RecordModel,
>
    decreases upto,
{
    if upto <= 0 {
        Seq::empty()
    } else if answers_to(recs[upto - 1], qname, qtype) {
        matching(recs, qname, qtype, upto - 1).push(recs[upto - 1])
    } else {
        matching(recs, qname, qtype, upto - 1)
    }
}

/// The `NS` records among the first `upto` records that belong to `domain`,
/// whatever the case, in their order.
pub open spec fn servers(recs: Seq<RecordModel>, domain: Seq<char>, upto: int) -> Seq<RecordModel>
    decreases upto,
{
    if upto <= 0 {
        Seq::empty()
    } else if recs[upto - 1] matches RecordModel::NS(owner, _, _) && same_name(owner, domain) {
        servers(recs, domain, upto - 1).push(recs[upto - 1])
    } else {
        servers(recs, domain, upto - 1)
    }
}

/// The `SOA` record of a zone: its time to live is the minimum of the zone.
pub open spec fn soa_of(zone: ZoneModel) -> RecordModel {
    RecordModel::SOA(
        zone.domain,
        zone.mname,
        zone.rname,
        zone.serial,
        zone.refresh,
        zone.retry,
        zone.expire,
        zone.minimum,
        zone.minimum,
    )
}

/// What a zone answers to a question for `qtype` of `qname`. Where records
/// of the zone answer the question, they are the answers, and the
/// authorities are the `NS` records of the zone and its `SOA` record. Where
/// none does, the result code is `NXDOMAIN` and the authority is the `SOA`
/// record. The answer is marked as authoritative.
pub open spec fn zone_answer(zone: ZoneModel, qname: Seq<char>, qtype: QueryType) -> PacketModel {
    let answers = matching(zone.records, qname, qtype, zone.records.len() as int);
    if answers.len() == 0 {
        PacketModel {
            header: DnsHeader {
                authoritative_answer: true,
                rescode: ResultCode::NXDOMAIN,
                ..DnsHeader::blank()
            },
            questions: Seq::empty(),
            answers: Seq::empty(),
            authorities: seq![soa_of(zone)],
            resources: Seq::empty(),
        }
    } else {
        PacketModel {
            header: DnsHeader { authoritative_answer: true, ..DnsHeader::blank() },
            questions: Seq::empty(),
            answers,
            authorities: servers(zone.records, zone.domain, zone.records.len() as int).push(
                soa_of(zone),
            ),
            resources: Seq::empty(),
        }
    }
}

/// The time to live that the record holds; `ttl` is 0 for an `OPT` record,
/// whatever it holds.
pub open spec fn held_ttl(rec: RecordModel) -> u32 {
    match rec {
        RecordModel::OPT(_, ttl, _) => ttl,
        _ => rec.ttl(),
    }
}

/// The time to live that the record holds.
fn ttl_held(rec: &ResourceRecord) -> (ttl: u32)
    ensures
        ttl == held_ttl(rec@),
{
    match rec {
        ResourceRecord::OPT(_, ttl, _) => *ttl,
        _ => rec.get_ttl(),
    }
}

/// Whether two records are the same.
pub fn same_record(a: &ResourceRecord, b: &ResourceRecord) -> (r: bool)
    ensures
        r == (a@ == b@),
{
    same_payload(a, b) && ttl_held(a) == ttl_held(b)
}

impl Zone {
    /// A zone for `domain` without records: the serial is 0, the four times
    /// are 3600 seconds.
    pub fn new(domain: String, mname: String, rname: String) -> (z: Zone)
        ensures
            z@ == (ZoneModel {
                domain: domain@,
                mname: mname@,
                rname: rname@,
                serial: 0,
                refresh: 3600,
                retry: 3600,
                expire: 3600,
                minimum: 3600,
                records: Seq::empty(),
            }),
    {
        let z = Zone {
            domain,
            mname,
            rname,
            serial: 0,
            refresh: 3600,
            retry: 3600,
            expire: 3600,
            minimum: 3600,
            records: Vec::new(),
        };
        assert(record_views(z.records@) =~= Seq::<RecordModel>::empty());
        z
    }

    /// Adds `rec` to the zone, unless the zone holds it. Returns whether the
    /// record was added.
    pub fn add_record(&mut self, rec: &ResourceRecord) -> (added: bool)
        ensures
            added == record_position(old(self)@.records, rec@, 0) is None,
            final(self)@ == if added {
                ZoneModel { records: old(self)@.records.push(rec@), ..old(self)@ }
            } else {
                old(self)@
            },
    {
        let mut i: usize = 0;
        while i < self.records.len()
            invariant
                i <= self.records@.len(),
                *self == *old(self),
                record_position(self@.records, rec@, 0) == record_position(
                    self@.records,
                    rec@,
                    i as int,
                ),
            decreases self.records@.len() - i,
        {
            if same_record(&self.records[i], rec) {
                return false;
            }
            i = i + 1;
        }
        self.records.push(rec.duplicate());
        assert(record_views(self.records@) =~= old(self)@.records.push(rec@));
        true
    }

    /// The `SOA` record of the zone.
    pub fn soa(&self) -> (rec: ResourceRecord)
        ensures
            rec@ == soa_of(self@),
    {
        ResourceRecord::SOA(
            self.domain.clone(),
            self.mname.clone(),
            self.rname.clone(),
            self.serial,
            self.refresh,
            self.retry,
            self.expire,
            self.minimum,
            self.minimum,
        )
    }

    /// What the zone answers to a question for `qtype` of `qname`.
    pub fn answer(&self, qname: &str, qtype: QueryType) -> (packet: DnsPacket)
        ensures
            packet@ == zone_answer(self@, qname@, qtype),
    {
        let mut packet = DnsPacket::new();
        packet.header.authoritative_answer = true;
        let mut answers: Vec<ResourceRecord> = Vec::new();
        let mut authorities: Vec<ResourceRecord> = Vec::new();
        let mut i: usize = 0;
        assert(record_views(answers@) =~= matching(self@.records, qname@, qtype, 0));
        assert(record_views(authorities@) =~= servers(self@.records, self@.domain, 0));
        while i < self.records.len()
            invariant
                i <= self.records@.len(),
                record_views(answers@) == matching(self@.records, qname@, qtype, i as int),
                record_views(authorities@) == servers(self@.records, self@.domain, i as int),
            decreases self.records@.len() - i,
        {
            let rec = &self.records[i];
            let ghost found = record_views(answers@);
            let ghost named = record_views(authorities@);
            let belongs = match rec.domain_ref() {
                Some(domain) => is_same_name(domain.as_str(), qname),
                None => false,
            };
            let is_cname = match rec {
                ResourceRecord::CNAME(_, _, _) => true,
                _ => false,
            };
            if belongs && (rec.get_querytype() == qtype || is_cname) {
                answers.push(rec.duplicate());
                assert(record_views(answers@) =~= found.push(rec@));
            }
            match rec {
                ResourceRecord::NS(owner, _, _) => {
                    if is_same_name(owner.as_str(), self.domain.as_str()) {
                        authorities.push(rec.duplicate());
                        assert(record_views(authorities@) =~= named.push(rec@));
                    }
                },
                _ => {},
            }
            i = i + 1;
        }
        let soa = self.soa();
        if answers.len() == 0 {
            packet.header.rescode = ResultCode::NXDOMAIN;
            let mut only: Vec<ResourceRecord> = Vec::new();
            only.push(soa);
            assert(record_views(only@) =~= seq![soa_of(self@)]);
            packet.authorities = only;
        } else {
            let ghost named = record_views(authorities@);
            authorities.push(soa);
            assert(record_views(authorities@) =~= named.push(soa_of(self@)));
            packet.answers = answers;
            packet.authorities = authorities;
        }
        packet
    }
}

impl Zones {
    /// No zones.
    pub fn new() -> (z: Zones)
        ensures
            z@ == Seq::<ZoneModel>::empty(),
    {
        let z = Zones { zones: Vec::new() };
        assert(z@ =~= Seq::<ZoneModel>::empty());
        z
    }

    /// The zones, in the order in which they were added.
    pub fn zones(&self) -> (all: &Vec<Zone>)
        ensures
            zone_views(all@) == self@,
    {
        &self.zones
    }

    /// Adds a zone. It takes the place of the zone with the same domain, if
    /// there is one.
    pub fn add_zone(&mut self, zone: Zone)
        ensures
            final(self)@ == match zone_position(old(self)@, zone@.domain, 0) {
                Some(at) => old(self)@.update(at, zone@),
                None => old(self)@.push(zone@),
            },
    {
        let mut i: usize = 0;
        while i < self.zones.len()
            invariant
                i <= self.zones@.len(),
                *self == *old(self),
                zone_position(self@, zone@.domain, 0) == zone_position(
                    self@,
                    zone@.domain,
                    i as int,
                ),
            decreases self.zones@.len() - i,
        {
            if self.zones[i].domain == zone.domain {
                let ghost model = zone@;
                self.zones[i] = zone;
                assert(self@ =~= old(self)@.update(i as int, model));
                return ;
            }
            i = i + 1;
        }
        let ghost model = zone@;
        self.zones.push(zone);
        assert(self@ =~= old(self)@.push(model));
    }

    /// The index of the zone that covers `name` with the longest domain.
    pub fn find_zone(&self, name: &str) -> (found: Option<usize>)
        ensures
            match found {
                Some(at) => covering(self@, name@, self@.len() as int) == Some(at as int) && at
                    < self@.len(),
                None => covering(self@, name@, self@.len() as int) is None,
            },
    {
        let mut best: Option<usize> = None;
        let mut i: usize = 0;
        while i < self.zones.len()
            invariant
                i <= self.zones@.len(),
                match best {
                    Some(at) => covering(self@, name@, i as int) == Some(at as int) && at < i,
                    None => covering(self@, name@, i as int) is None,
                },
            decreases self.zones@.len() - i,
        {
            if is_within(name, self.zones[i].domain.as_str()) {
                let longer = match best {
                    Some(at) => self.zones[at].domain.as_str().as_bytes().len()
                        < self.zones[i].domain.as_str().as_bytes().len(),
                    None => true,
                };
                if longer {
                    best = Some(i);
                }
            }
            i = i + 1;
        }
        best
    }

    /// The zone that covers `name` with the longest domain.
    pub fn get_zone(&self, name: &str) -> (found: Option<&Zone>)
        ensures
            match found {
                Some(zone) => covering(self@, name@, self@.len() as int) matches Some(at) && zone@
                    == self@[at],
                None => covering(self@, name@, self@.len() as int) is None,
            },
    {
        match self.find_zone(name) {
            Some(at) => Some(&self.zones[at]),
            None => None,
        }
    }

    /// Adds `rec` to the zone that covers `zone` with the longest domain,
    /// unless that zone holds it. Returns whether there is such a zone.
    pub fn add_record(&mut self, zone: &str, rec: &ResourceRecord) -> (found: bool)
        ensures
            found == covering(old(self)@, zone@, old(self)@.len() as int) is Some,
            final(self)@ == match covering(old(self)@, zone@, old(self)@.len() as int) {
                Some(at) => old(self)@.update(
                    at,
                    if record_position(old(self)@[at].records, rec@, 0) is None {
                        ZoneModel {
                            records: old(self)@[at].records.push(rec@),
                            ..old(self)@[at]
                        }
                    } else {
                        old(self)@[at]
                    },
                ),
                None => old(self)@,
            },
    {
        match self.find_zone(zone) {
            Some(at) => {
                let mut target = self.zones.remove(at);
                assert(target@ == old(self)@[at as int]);
                let _ = target.add_record(rec);
                let ghost model = target@;
                self.zones.insert(at, target);
                assert(self@ =~= old(self)@.update(at as int, model));
                true
            },
            None => false,
        }
    }

    /// What the zones answer to a question for `qtype` of `qname`: the answer
    /// of the zone that covers `qname` with the longest domain; nothing where
    /// no zone covers `qname`.
    pub fn query(&self, qname: &str, qtype: QueryType) -> (found: Option<DnsPacket>)
        ensures
            match found {
                Some(packet) => covering(self@, qname@, self@.len() as int) matches Some(at)
                    && packet@ == zone_answer(self@[at], qname@, qtype),
                None => covering(self@, qname@, self@.len() as int) is None,
            },
    {
        match self.get_zone(qname) {
            Some(zone) => Some(zone.answer(qname, qtype)),
            None => None,
        }
    }
}

} // verus!
