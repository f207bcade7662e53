use vstd::prelude::*;
use crate::protocol::DnsHeader;
use crate::protocol::DnsPacket;
use crate::protocol::PacketModel;
use crate::protocol::QueryType;
use crate::protocol::record_views;
use crate::protocol::RecordModel;
use crate::protocol::ResourceRecord;
use crate::text::lowercase;
use crate::text::to_lower;

verus! {

/// A record of the cache and the second at which it expires.
pub struct CacheEntry {
    pub record: ResourceRecord,
    pub expires: u64,
}

/// The records that the cache holds for one domain, and how often the domain
/// was found and stored.
pub struct DomainEntry {
    pub domain: String,
    pub records: Vec<CacheEntry>,
    pub hits: u32,
    pub updates: u32,
}

/// The records that were learned, by domain. A domain is kept in lower case,
/// so that names are found whatever their case; a record is kept until it
/// expires.
pub struct Cache {
    domains: Vec<DomainEntry>,
}

/// What a record of the cache is to contracts.
pub struct CachedModel {
    pub record: RecordModel,
    pub expires: u64,
}

/// What the records of one domain are to contracts.
pub struct DomainModel {
    pub domain: Seq<char>,
    pub records: Seq<CachedModel>,
    pub hits: u32,
    pub updates: u32,
}

impl View for CacheEntry {
    type V = CachedModel;

    open spec fn view(&self) -> CachedModel {
        CachedModel { record: self.record@, expires: self.expires }
    }
}

/// The cached records as contracts see them.
pub open spec fn cached_views(entries: Seq<CacheEntry>) -> Seq<CachedModel> {
    Seq::new(entries.len(), |i: int| entries[i]@)
}

impl View for DomainEntry {
    type V = DomainModel;

    open spec fn view(&self) -> DomainModel {
        DomainModel {
            domain: self.domain@,
            records: cached_views(self.records@),
            hits: self.hits,
            updates: self.updates,
        }
    }
}

/// The domains as contracts see them.
pub open spec fn domain_views(domains: Seq<DomainEntry>) -> Seq<DomainModel> {
    Seq::new(domains.len(), |i: int| domains[i]@)
}

impl View for Cache {
    type V = Seq<DomainModel>;

    closed spec fn view(&self) -> Seq<DomainModel> {
        domain_views(self.domains@)
    }
}

/// The record without its time to live: what tells one record of a domain
/// from another.
pub open spec fn key_of(rec: RecordModel) -> RecordModel {
    match rec {
        RecordModel::UNKNOWN(domain, qtype, len, _) => RecordModel::UNKNOWN(domain, qtype, len, 0),
        RecordModel::A(domain, addr, _) => RecordModel::A(domain, addr, 0),
        RecordModel::NS(domain, host, _) => RecordModel::NS(domain, host, 0),
        RecordModel::CNAME(domain, host, _) => RecordModel::CNAME(domain, host, 0),
        RecordModel::SOA(domain, mname, rname, serial, refresh, retry, expire, minimum, _) =>
            RecordModel::SOA(domain, mname, rname, serial, refresh, retry, expire, minimum, 0),
        RecordModel::MX(domain, priority, host, _) => RecordModel::MX(domain, priority, host, 0),
        RecordModel::TXT(domain, text, _) => RecordModel::TXT(domain, text, 0),
        RecordModel::AAAA(domain, addr, _) => RecordModel::AAAA(domain, addr, 0),
        RecordModel::SRV(domain, priority, weight, port, host, _) => RecordModel::SRV(
            domain,
            priority,
            weight,
            port,
            host,
            0,
        ),
        RecordModel::OPT(class, _, data) => RecordModel::OPT(class, 0, data),
    }
}

/// Whether two records are the same but for their time to live.
pub open spec fn same_key(a: RecordModel, b: RecordModel) -> bool {
    key_of(a) == key_of(b)
}

/// The second at which a record expires that is stored at `now`.
pub open spec fn expiry(now: u64, ttl: u32) -> u64 {
    now.saturating_add(ttl as u64)
}

/// Whether a cached record has not expired at `now`.
pub open spec fn live(entry: CachedModel, now: u64) -> bool {
    now < entry.expires
}

/// The index of the first record from index `from` on that is `rec` but for
/// its time to live.
pub open spec fn position(records: Seq<CachedModel>, rec: RecordModel, from: int) -> Option<int>
    decreases records.len() - from,
{
    if from < 0 || from >= records.len() {
        None
    } else if same_key(records[from].record, rec) {
        Some(from)
    } else {
        position(records, rec, from + 1)
    }
}

/// The index of the first domain from index `from` on that is `key`.
pub open spec fn domain_position(domains: Seq<DomainModel>, key: Seq<char>, from: int) -> Option<int>
    decreases domains.len() - from,
{
    if from < 0 || from >= domains.len() {
        None
    } else if domains[from].domain == key {
        Some(from)
    } else {
        domain_position(domains, key, from + 1)
    }
}

/// The records of a domain after `rec` was stored at `now`: `rec` takes the
/// place of the record that is the same but for its time to live, or is
/// added at the end.
pub open spec fn put(records: Seq<CachedModel>, rec: RecordModel, now: u64) -> Seq<CachedModel> {
    let entry = CachedModel { record: rec, expires: expiry(now, rec.ttl()) };
    match position(records, rec, 0) {
        Some(at) => records.update(at, entry),
        None => records.push(entry),
    }
}

/// A counter with one more, up to the largest number that it holds.
pub open spec fn one_more(count: u32) -> u32 {
    count.saturating_add(1)
}

/// The cache after `rec` was stored at `now`. A record without a domain is
/// not stored. With `count`, the store is counted for the domain.
pub open spec fn merged(domains: Seq<DomainModel>, rec: RecordModel, now: u64, count: bool) -> Seq<
    DomainModel,
> {
    match rec.domain() {
        None => domains,
        Some(domain) => match domain_position(domains, lowercase(domain), 0) {
            Some(at) => domains.update(
                at,
                DomainModel {
                    records: put(domains[at].records, rec, now),
                    updates: if count {
                        one_more(domains[at].updates)
                    } else {
                        domains[at].updates
                    },
                    ..domains[at]
                },
            ),
            None => domains.push(
                DomainModel {
                    domain: lowercase(domain),
                    records: seq![CachedModel { record: rec, expires: expiry(now, rec.ttl()) }],
                    hits: 0,
                    updates: if count {
                        1
                    } else {
                        0
                    },
                },
            ),
        },
    }
}

/// Whether one of the first `upto` records belongs to the domain `key`.
pub open spec fn seen(recs: Seq<RecordModel>, key: Seq<char>, upto: int) -> bool
    decreases upto,
{
    if upto <= 0 {
        false
    } else {
        seen(recs, key, upto - 1) || (recs[upto - 1].domain() matches Some(domain) && lowercase(
            domain,
        ) == key)
    }
}

/// The cache after the first `upto` records were stored at `now`, one after
/// the other. The store is counted once for each domain: with the first
/// record of the domain.
pub open spec fn stored(domains: Seq<DomainModel>, recs: Seq<RecordModel>, upto: int, now: u64) -> Seq<
    DomainModel,
>
    decreases upto,
{
    if upto <= 0 {
        domains
    } else {
        merged(
            stored(domains, recs, upto - 1, now),
            recs[upto - 1],
            now,
            recs[upto - 1].domain() matches Some(domain) && !seen(
                recs,
                lowercase(domain),
                upto - 1,
            ),
        )
    }
}

/// The first `upto` records of a domain that have the type `qtype` and have
/// not expired at `now`, in their order.
pub open spec fn live_of(records: Seq<CachedModel>, qtype: QueryType, now: u64, upto: int) -> Seq<
    RecordModel,
>
    decreases upto,
{
    if upto <= 0 {
        Seq::empty()
    } else if live(records[upto - 1], now) && records[upto - 1].record.qtype() == qtype {
        live_of(records, qtype, now, upto - 1).push(records[upto - 1].record)
    } else {
        live_of(records, qtype, now, upto - 1)
    }
}

/// Whether one of the first `upto` records has not expired at `now`.
pub open spec fn any_live(records: Seq<CachedModel>, now: u64, upto: int) -> bool
    decreases upto,
{
    if upto <= 0 {
        false
    } else {
        any_live(records, now, upto - 1) || live(records[upto - 1], now)
    }
}

/// What a lookup finds and what it leaves.
pub struct Lookup {
    pub answers: Seq<RecordModel>,
    pub cache: Seq<DomainModel>,
}

/// A lookup of the records of type `qtype` of the domain `key` at `now`. An
/// unknown domain gives nothing. A domain whose records have all expired
/// gives nothing and is removed. Another domain gives its records of the type
/// that have not expired, and is counted as found.
pub open spec fn looked_up(domains: Seq<DomainModel>, key: Seq<char>, qtype: QueryType, now: u64) -> Lookup {
    match domain_position(domains, key, 0) {
        None => Lookup { answers: Seq::empty(), cache: domains },
        Some(at) => if !any_live(domains[at].records, now, domains[at].records.len() as int) {
            Lookup { answers: Seq::empty(), cache: domains.remove(at) }
        } else {
            Lookup {
                answers: live_of(
                    domains[at].records,
                    qtype,
                    now,
                    domains[at].records.len() as int,
                ),
                cache: domains.update(
                    at,
                    DomainModel { hits: one_more(domains[at].hits), ..domains[at] },
                ),
            }
        },
    }
}

/// Whether two records are the same but for their time to live.
pub fn same_payload(a: &ResourceRecord, b: &ResourceRecord) -> (r: bool)
    ensures
        r == same_key(a@, b@),
{
    match (a, b) {
        (ResourceRecord::UNKNOWN(d1, t1, l1, _), ResourceRecord::UNKNOWN(d2, t2, l2, _)) => *d1
            == *d2 && *t1 == *t2 && *l1 == *l2,
        (ResourceRecord::A(d1, a1, _), ResourceRecord::A(d2, a2, _)) => *d1 == *d2 && *a1 == *a2,
        (ResourceRecord::NS(d1, h1, _), ResourceRecord::NS(d2, h2, _)) => *d1 == *d2 && *h1 == *h2,
        (ResourceRecord::CNAME(d1, h1, _), ResourceRecord::CNAME(d2, h2, _)) => *d1 == *d2 && *h1
            == *h2,
        (
            ResourceRecord::SOA(d1, m1, r1, s1, f1, y1, e1, n1, _),
            ResourceRecord::SOA(d2, m2, r2, s2, f2, y2, e2, n2, _),
        ) => *d1 == *d2 && *m1 == *m2 && *r1 == *r2 && *s1 == *s2 && *f1 == *f2 && *y1 == *y2 && *e1
            == *e2 && *n1 == *n2,
        (ResourceRecord::MX(d1, p1, h1, _), ResourceRecord::MX(d2, p2, h2, _)) => *d1 == *d2 && *p1
            == *p2 && *h1 == *h2,
        (ResourceRecord::TXT(d1, t1, _), ResourceRecord::TXT(d2, t2, _)) => *d1 == *d2 && *t1
            == *t2,
        (ResourceRecord::AAAA(d1, a1, _), ResourceRecord::AAAA(d2, a2, _)) => *d1 == *d2 && *a1
            == *a2,
        (ResourceRecord::SRV(d1, p1, w1, o1, h1, _), ResourceRecord::SRV(d2, p2, w2, o2, h2, _)) =>
            *d1 == *d2 && *p1 == *p2 && *w1 == *w2 && *o1 == *o2 && *h1 == *h2,
        (ResourceRecord::OPT(c1, _, x1), ResourceRecord::OPT(c2, _, x2)) => *c1 == *c2 && *x1
            == *x2,
        _ => false,
    }
}

/// The index of the first record that is `rec` but for its time to live.
fn find_record(records: &Vec<CacheEntry>, rec: &ResourceRecord) -> (r: Option<usize>)
    ensures
        match r {
            Some(at) => position(cached_views(records@), rec@, 0) == Some(at as int) && at
                < records@.len(),
            None => position(cached_views(records@), rec@, 0) is None,
        },
{
    let mut i: usize = 0;
    while i < records.len()
        invariant
            i <= records@.len(),
            position(cached_views(records@), rec@, 0) == position(
                cached_views(records@),
                rec@,
                i as int,
            ),
        decreases records@.len() - i,
    {
        if same_payload(&records[i].record, rec) {
            return Some(i);
        }
        i = i + 1;
    }
    None
}

/// Whether one of the first `upto` records belongs to the domain `key`.
fn seen_before(records: &Vec<ResourceRecord>, key: &String, upto: usize) -> (r: bool)
    requires
        upto <= records@.len(),
    ensures
        r == seen(record_views(records@), key@, upto as int),
{
    let mut i: usize = 0;
    while i < upto
        invariant
            i <= upto <= records@.len(),
            !seen(record_views(records@), key@, i as int),
        decreases upto - i,
    {
        match records[i].domain_ref() {
            Some(domain) => {
                let low = to_lower(domain.as_str());
                if low == *key {
                    assert(seen(record_views(records@), key@, i + 1));
                    proof {
                        lemma_seen_later(record_views(records@), key@, i + 1, upto as int);
                    }
                    return true;
                }
            },
            None => {},
        }
        i = i + 1;
    }
    false
}

/// A domain that was seen among fewer records is seen among more.
pub proof fn lemma_seen_later(recs: Seq<RecordModel>, key: Seq<char>, fewer: int, more: int)
    requires
        fewer <= more,
        seen(recs, key, fewer),
    ensures
        seen(recs, key, more),
    decreases more,
{
    if fewer < more {
        lemma_seen_later(recs, key, fewer, more - 1);
    }
}

/// The records of a domain that have not expired at `now`, in their order.
pub open spec fn live_entries(records: Seq<CachedModel>, now: u64, upto: int) -> Seq<CachedModel>
    decreases upto,
{
    if upto <= 0 {
        Seq::empty()
    } else if live(records[upto - 1], now) {
        live_entries(records, now, upto - 1).push(records[upto - 1])
    } else {
        live_entries(records, now, upto - 1)
    }
}

/// A domain with the records that have not expired at `now`.
pub open spec fn live_domain(domain: DomainModel, now: u64) -> DomainModel {
    DomainModel {
        records: live_entries(domain.records, now, domain.records.len() as int),
        ..domain
    }
}

impl Cache {
    /// A cache without records.
    pub fn new() -> (c: Cache)
        ensures
            c@ == Seq::<DomainModel>::empty(),
    {
        let c = Cache { domains: Vec::new() };
        assert(c@ =~= Seq::<DomainModel>::empty());
        c
    }

    /// The index of the domain `key`.
    fn find_domain(&self, key: &String) -> (r: Option<usize>)
        ensures
            match r {
                Some(at) => domain_position(self@, key@, 0) == Some(at as int) && at
                    < self.domains@.len(),
                None => domain_position(self@, key@, 0) is None,
            },
    {
        let mut i: usize = 0;
        while i < self.domains.len()
            invariant
                i <= self.domains@.len(),
                domain_position(self@, key@, 0) == domain_position(self@, key@, i as int),
            decreases self.domains@.len() - i,
        {
            if self.domains[i].domain == *key {
                return Some(i);
            }
            i = i + 1;
        }
        None
    }

    /// Stores one record at `now`.
    fn store_one(&mut self, rec: &ResourceRecord, now: u64, count: bool)
        ensures
            final(self)@ == merged(old(self)@, rec@, now, count),
    {
        let domain = match rec.domain_ref() {
            Some(d) => d,
            None => {
                return ;
            },
        };
        let key = to_lower(domain.as_str());
        let entry = CacheEntry {
            record: rec.duplicate(),
            expires: now.saturating_add(rec.get_ttl() as u64),
        };
        let ghost model = CachedModel { record: rec@, expires: expiry(now, rec@.ttl()) };
        assert(entry@ == model);
        match self.find_domain(&key) {
            Some(at) => {
                let mut found = self.domains.remove(at);
                let ghost before = found@;
                assert(before == old(self)@[at as int]);
                assert(self@ =~= old(self)@.remove(at as int));
                match find_record(&found.records, rec) {
                    Some(j) => {
                        found.records[j] = entry;
                        assert(cached_views(found.records@) =~= before.records.update(
                            j as int,
                            model,
                        ));
                    },
                    None => {
                        found.records.push(entry);
                        assert(cached_views(found.records@) =~= before.records.push(model));
                    },
                }
                if count {
                    found.updates = found.updates.saturating_add(1);
                }
                assert(found@.records == put(before.records, rec@, now));
                let ghost after = found@;
                self.domains.insert(at, found);
                assert(self@ =~= old(self)@.update(at as int, after));
                assert(self@ =~= merged(old(self)@, rec@, now, count));
            },
            None => {
                let mut records: Vec<CacheEntry> = Vec::new();
                records.push(entry);
                let found = DomainEntry {
                    domain: key,
                    records,
                    hits: 0,
                    updates: if count {
                        1
                    } else {
                        0
                    },
                };
                assert(cached_views(found.records@) =~= seq![model]);
                self.domains.push(found);
                assert(self@ =~= merged(old(self)@, rec@, now, count));
            },
        }
    }

    /// Stores the records at `now`, one after the other: each takes the place
    /// of the record of its domain that is the same but for its time to live,
    /// or is added to its domain, and expires its time to live after `now`.
    /// The store is counted once for each domain that a record belongs to.
    pub fn store(&mut self, records: &Vec<ResourceRecord>, now: u64)
        ensures
            final(self)@ == stored(old(self)@, record_views(records@), records@.len() as int, now),
    {
        let mut i: usize = 0;
        while i < records.len()
            invariant
                i <= records@.len(),
                self@ == stored(old(self)@, record_views(records@), i as int, now),
            decreases records@.len() - i,
        {
            let count = match records[i].domain_ref() {
                Some(domain) => {
                    let key = to_lower(domain.as_str());
                    !seen_before(records, &key, i)
                },
                None => false,
            };
            self.store_one(&records[i], now, count);
            i = i + 1;
        }
    }

    /// The records of type `qtype` of the domain `qname` that have not
    /// expired at `now`, as the answers of a new message; nothing where there
    /// is none. A domain that is found is counted as found; one whose records
    /// have all expired is removed.
    pub fn lookup(&mut self, qname: &str, qtype: QueryType, now: u64) -> (found: Option<DnsPacket>)
        ensures
            final(self)@ == looked_up(old(self)@, lowercase(qname@), qtype, now).cache,
            match found {
                Some(packet) => packet@ == answer_packet(
                    looked_up(old(self)@, lowercase(qname@), qtype, now).answers,
                ) && packet@.answers.len() > 0,
                None => looked_up(old(self)@, lowercase(qname@), qtype, now).answers.len() == 0,
            },
    {
        let key = to_lower(qname);
        let at = match self.find_domain(&key) {
            Some(at) => at,
            None => {
                return None;
            },
        };
        let mut found = self.domains.remove(at);
        let ghost before = found@;
        assert(before == old(self)@[at as int]);
        assert(self@ =~= old(self)@.remove(at as int));
        let mut answers: Vec<ResourceRecord> = Vec::new();
        let mut alive = false;
        let mut i: usize = 0;
        assert(record_views(answers@) =~= live_of(before.records, qtype, now, 0));
        while i < found.records.len()
            invariant
                i <= found.records@.len(),
                found@ == before,
                0 <= at < old(self)@.len(),
                before == old(self)@[at as int],
                domain_position(old(self)@, lowercase(qname@), 0) == Some(at as int),
                self@ == old(self)@.remove(at as int),
                alive == any_live(before.records, now, i as int),
                record_views(answers@) == live_of(before.records, qtype, now, i as int),
            decreases found.records@.len() - i,
        {
            if now < found.records[i].expires {
                alive = true;
                if found.records[i].record.get_querytype() == qtype {
                    let ghost so_far = record_views(answers@);
                    answers.push(found.records[i].record.duplicate());
                    assert(record_views(answers@) =~= so_far.push(before.records[i as int].record));
                }
            }
            i = i + 1;
        }
        if !alive {
            return None;
        }
        found.hits = found.hits.saturating_add(1);
        let ghost after = found@;
        self.domains.insert(at, found);
        assert(self@ =~= old(self)@.update(at as int, after));
        if answers.len() == 0 {
            return None;
        }
        let mut packet = DnsPacket::new();
        packet.answers = answers;
        Some(packet)
    }

    /// The domains of the cache, each with its counts and with its records
    /// that have not expired at `now`.
    pub fn list(&self, now: u64) -> (found: Vec<DomainEntry>)
        ensures
            found@.len() == self@.len(),
            forall|i: int| 0 <= i < found@.len() ==> (#[trigger] found@[i])@ == live_domain(self@[i], now),
    {
        let mut found: Vec<DomainEntry> = Vec::new();
        let mut i: usize = 0;
        while i < self.domains.len()
            invariant
                i <= self.domains@.len(),
                found@.len() == i,
                forall|j: int| 0 <= j < i ==> (#[trigger] found@[j])@ == live_domain(self@[j], now),
            decreases self.domains@.len() - i,
        {
            let domain = &self.domains[i];
            let mut records: Vec<CacheEntry> = Vec::new();
            let mut j: usize = 0;
            assert(cached_views(records@) =~= live_entries(domain@.records, now, 0));
            while j < domain.records.len()
                invariant
                    j <= domain.records@.len(),
                    cached_views(records@) == live_entries(domain@.records, now, j as int),
                decreases domain.records@.len() - j,
            {
                if now < domain.records[j].expires {
                    let ghost so_far = cached_views(records@);
                    let copy = CacheEntry {
                        record: domain.records[j].record.duplicate(),
                        expires: domain.records[j].expires,
                    };
                    records.push(copy);
                    assert(cached_views(records@) =~= so_far.push(domain@.records[j as int]));
                }
                j = j + 1;
            }
            found.push(
                DomainEntry {
                    domain: domain.domain.clone(),
                    records,
                    hits: domain.hits,
                    updates: domain.updates,
                },
            );
            i = i + 1;
        }
        found
    }
}

/// A new message whose answers are `answers`.
pub open spec fn answer_packet(answers: Seq<RecordModel>) -> PacketModel {
    PacketModel {
        header: DnsHeader::blank(),
        questions: Seq::empty(),
        answers,
        authorities: Seq::empty(),
        resources: Seq::empty(),
    }
}

} // verus!
