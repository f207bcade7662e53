use vstd::prelude::*;
use crate::cache::any_live;
use crate::cache::CachedModel;
use crate::cache::domain_position;
use crate::cache::DomainModel;
use crate::cache::expiry;
use crate::cache::live;
use crate::cache::live_of;
use crate::cache::looked_up;
use crate::cache::merged;
use crate::cache::position;
use crate::cache::put;
use crate::cache::same_key;
use crate::cache::seen;
use crate::cache::stored;
use crate::protocol::QueryType;
use crate::protocol::RecordModel;
use crate::text::lowercase;

verus! {

/// Whether no two records of a domain are the same but for their time to
/// live.
pub open spec fn records_distinct(records: Seq<CachedModel>) -> bool {
    forall|a: int, b: int|
        0 <= a < b < records.len() ==> !same_key(
            (#[trigger] records[a]).record,
            (#[trigger] records[b]).record,
        )
}

/// The invariant of the cache: no domain stands twice, and no two records of
/// a domain are the same but for their time to live.
pub open spec fn cache_wf(domains: Seq<DomainModel>) -> bool {
    &&& forall|a: int, b: int|
        0 <= a < b < domains.len() ==> (#[trigger] domains[a]).domain != (
        #[trigger] domains[b]).domain
    &&& forall|i: int| 0 <= i < domains.len() ==> records_distinct((#[trigger] domains[i]).records)
}

/// What `position` finds: the first record from `from` on that is `rec` but
/// for its time to live.
pub proof fn lemma_position(records: Seq<CachedModel>, rec: RecordModel, from: int)
    requires
        0 <= from,
    ensures
        match position(records, rec, from) {
            Some(at) => from <= at < records.len() && same_key(records[at].record, rec),
            None => forall|i: int| from <= i < records.len() ==> !same_key(
                (#[trigger] records[i]).record,
                rec,
            ),
        },
    decreases records.len() - from,
{
    if from < records.len() && !same_key(records[from].record, rec) {
        lemma_position(records, rec, from + 1);
    }
}

/// What `domain_position` finds: the first domain from `from` on that is
/// `key`.
pub proof fn lemma_domain_position(domains: Seq<DomainModel>, key: Seq<char>, from: int)
    requires
        0 <= from,
    ensures
        match domain_position(domains, key, from) {
            Some(at) => from <= at < domains.len() && domains[at].domain == key && forall|i: int|
                from <= i < at ==> (#[trigger] domains[i]).domain != key,
            None => forall|i: int| from <= i < domains.len() ==> (#[trigger] domains[i]).domain
                != key,
        },
    decreases domains.len() - from,
{
    if from < domains.len() && domains[from].domain != key {
        lemma_domain_position(domains, key, from + 1);
    }
}

/// The first domain that is `key` is found at its index.
pub proof fn lemma_domain_found(domains: Seq<DomainModel>, key: Seq<char>, from: int, at: int)
    requires
        0 <= from <= at < domains.len(),
        domains[at].domain == key,
        forall|i: int| from <= i < at ==> (#[trigger] domains[i]).domain != key,
    ensures
        domain_position(domains, key, from) == Some(at),
    decreases at - from,
{
    if from < at {
        lemma_domain_found(domains, key, from + 1, at);
    }
}

/// Storing a record keeps the records of its domain distinct, and puts the
/// record at one index of them.
pub proof fn lemma_put(records: Seq<CachedModel>, rec: RecordModel, now: u64)
    requires
        records_distinct(records),
    ensures
        records_distinct(put(records, rec, now)),
        exists|at: int|
            0 <= at < put(records, rec, now).len() && #[trigger] put(records, rec, now)[at] == (
            CachedModel { record: rec, expires: expiry(now, rec.ttl()) }),
{
    lemma_position(records, rec, 0);
    let after = put(records, rec, now);
    let entry = CachedModel { record: rec, expires: expiry(now, rec.ttl()) };
    match position(records, rec, 0) {
        Some(at) => {
            assert(after[at] == entry);
            assert forall|a: int, b: int| 0 <= a < b < after.len() implies !same_key(
                (#[trigger] after[a]).record,
                (#[trigger] after[b]).record,
            ) by {
                if a == at {
                    assert(!same_key(records[a].record, records[b].record));
                } else if b == at {
                    assert(!same_key(records[a].record, records[b].record));
                } else {
                    assert(!same_key(records[a].record, records[b].record));
                }
            }
        },
        None => {
            assert(after[records.len() as int] == entry);
            assert forall|a: int, b: int| 0 <= a < b < after.len() implies !same_key(
                (#[trigger] after[a]).record,
                (#[trigger] after[b]).record,
            ) by {
                if b == records.len() {
                    assert(!same_key(records[a].record, rec));
                } else {
                    assert(!same_key(records[a].record, records[b].record));
                }
            }
        },
    }
}

/// Storing a record keeps the invariant of the cache, and leaves the record
/// among the records of its domain.
pub proof fn lemma_merged(domains: Seq<DomainModel>, rec: RecordModel, now: u64, count: bool)
    requires
        cache_wf(domains),
    ensures
        cache_wf(merged(domains, rec, now, count)),
        rec.domain() matches Some(domain) ==> (domain_position(
            merged(domains, rec, now, count),
            lowercase(domain),
            0,
        ) matches Some(at) && merged(domains, rec, now, count)[at].records == put(
            if domain_position(domains, lowercase(domain), 0) is Some {
                domains[at].records
            } else {
                Seq::empty()
            },
            rec,
            now,
        )),
{
    let after = merged(domains, rec, now, count);
    match rec.domain() {
        None => {},
        Some(domain) => {
            let key = lowercase(domain);
            lemma_domain_position(domains, key, 0);
            match domain_position(domains, key, 0) {
                Some(at) => {
                    lemma_put(domains[at].records, rec, now);
                    assert forall|a: int, b: int| 0 <= a < b < after.len() implies (
                    #[trigger] after[a]).domain != (#[trigger] after[b]).domain by {
                        assert(domains[a].domain != domains[b].domain);
                    }
                    assert forall|i: int| 0 <= i < after.len() implies records_distinct(
                        (#[trigger] after[i]).records,
                    ) by {
                        assert(records_distinct(domains[i].records));
                    }
                    assert forall|i: int| 0 <= i < at implies (#[trigger] after[i]).domain
                        != key by {
                        assert(domains[i].domain != key);
                    }
                    lemma_domain_found(after, key, 0, at);
                },
                None => {
                    let at = domains.len() as int;
                    let fresh = Seq::<CachedModel>::empty();
                    lemma_position(fresh, rec, 0);
                    assert(put(fresh, rec, now) =~= seq![
                        CachedModel { record: rec, expires: expiry(now, rec.ttl()) },
                    ]);
                    assert forall|a: int, b: int| 0 <= a < b < after.len() implies (
                    #[trigger] after[a]).domain != (#[trigger] after[b]).domain by {
                        if b == at {
                            assert(domains[a].domain != key);
                        } else {
                            assert(domains[a].domain != domains[b].domain);
                        }
                    }
                    assert forall|i: int| 0 <= i < after.len() implies records_distinct(
                        (#[trigger] after[i]).records,
                    ) by {
                        if i < at {
                            assert(records_distinct(domains[i].records));
                        }
                    }
                    assert forall|i: int| 0 <= i < at implies (#[trigger] after[i]).domain
                        != key by {
                        assert(domains[i].domain != key);
                    }
                    lemma_domain_found(after, key, 0, at);
                },
            }
        },
    }
}

/// Storing records keeps the invariant of the cache.
pub proof fn lemma_stored_wf(domains: Seq<DomainModel>, recs: Seq<RecordModel>, upto: int, now: u64)
    requires
        cache_wf(domains),
    ensures
        cache_wf(stored(domains, recs, upto, now)),
    decreases upto,
{
    if upto > 0 {
        lemma_stored_wf(domains, recs, upto - 1, now);
        lemma_merged(
            stored(domains, recs, upto - 1, now),
            recs[upto - 1],
            now,
            recs[upto - 1].domain() matches Some(domain) && !seen(recs, lowercase(domain), upto - 1),
        );
    }
}

/// A lookup keeps the invariant of the cache.
pub proof fn lemma_looked_up_wf(domains: Seq<DomainModel>, key: Seq<char>, qtype: QueryType, now: u64)
    requires
        cache_wf(domains),
    ensures
        cache_wf(looked_up(domains, key, qtype, now).cache),
{
    let after = looked_up(domains, key, qtype, now).cache;
    lemma_domain_position(domains, key, 0);
    match domain_position(domains, key, 0) {
        None => {},
        Some(at) => {
            if !any_live(domains[at].records, now, domains[at].records.len() as int) {
                assert forall|a: int, b: int| 0 <= a < b < after.len() implies (
                #[trigger] after[a]).domain != (#[trigger] after[b]).domain by {
                    let x = if a < at {
                        a
                    } else {
                        a + 1
                    };
                    let y = if b < at {
                        b
                    } else {
                        b + 1
                    };
                    assert(domains[x].domain != domains[y].domain);
                }
                assert forall|i: int| 0 <= i < after.len() implies records_distinct(
                    (#[trigger] after[i]).records,
                ) by {
                    let x = if i < at {
                        i
                    } else {
                        i + 1
                    };
                    assert(records_distinct(domains[x].records));
                }
            } else {
                assert forall|a: int, b: int| 0 <= a < b < after.len() implies (
                #[trigger] after[a]).domain != (#[trigger] after[b]).domain by {
                    assert(domains[a].domain != domains[b].domain);
                }
                assert forall|i: int| 0 <= i < after.len() implies records_distinct(
                    (#[trigger] after[i]).records,
                ) by {
                    assert(records_distinct(domains[i].records));
                }
            }
        },
    }
}

/// A record of the type that is asked for and that has not expired is among
/// what is found.
pub proof fn lemma_live_found(
    records: Seq<CachedModel>,
    qtype: QueryType,
    now: u64,
    upto: int,
    at: int,
)
    requires
        0 <= at < upto <= records.len(),
        live(records[at], now),
        records[at].record.qtype() == qtype,
    ensures
        live_of(records, qtype, now, upto).contains(records[at].record),
        any_live(records, now, upto),
    decreases upto,
{
    let found = live_of(records, qtype, now, upto);
    if at == upto - 1 {
        assert(found[found.len() - 1] == records[at].record);
    } else {
        lemma_live_found(records, qtype, now, upto - 1, at);
        let before = live_of(records, qtype, now, upto - 1);
        let i = choose|i: int| 0 <= i < before.len() && before[i] == records[at].record;
        assert(found[i] == records[at].record);
    }
}

/// What is found is a record that has not expired.
pub proof fn lemma_found_live(
    records: Seq<CachedModel>,
    qtype: QueryType,
    now: u64,
    upto: int,
    rec: RecordModel,
)
    requires
        0 <= upto <= records.len(),
        live_of(records, qtype, now, upto).contains(rec),
    ensures
        exists|at: int| 0 <= at < upto && (#[trigger] records[at]).record == rec && live(records[at], now),
    decreases upto,
{
    let found = live_of(records, qtype, now, upto);
    let i = choose|i: int| 0 <= i < found.len() && found[i] == rec;
    if upto > 0 {
        let before = live_of(records, qtype, now, upto - 1);
        if live(records[upto - 1], now) && records[upto - 1].record.qtype() == qtype && i
            == found.len() - 1 {
            assert(records[upto - 1].record == rec);
        } else {
            assert(before[i] == rec);
            lemma_found_live(records, qtype, now, upto - 1, rec);
        }
    }
}

/// A record that was stored is found until it expires, and not afterwards:
/// where `rec` belongs to a domain and is stored at `stored_at` into a cache
/// that keeps its invariant, a lookup of the type of `rec` in the domain of
/// `rec` at `asked_at` finds `rec` where `asked_at` lies before the second at
/// which `rec` expires, and does not find it from that second on.
pub proof fn lemma_stored_record_lives(
    cache: Seq<DomainModel>,
    rec: RecordModel,
    count: bool,
    stored_at: u64,
    asked_at: u64,
)
    requires
        cache_wf(cache),
        rec.domain() is Some,
    ensures
        asked_at < expiry(stored_at, rec.ttl()) ==> looked_up(
            merged(cache, rec, stored_at, count),
            lowercase(rec.domain()->0),
            rec.qtype(),
            asked_at,
        ).answers.contains(rec),
        asked_at >= expiry(stored_at, rec.ttl()) ==> !looked_up(
            merged(cache, rec, stored_at, count),
            lowercase(rec.domain()->0),
            rec.qtype(),
            asked_at,
        ).answers.contains(rec),
{
    let key = lowercase(rec.domain()->0);
    let after = merged(cache, rec, stored_at, count);
    lemma_merged(cache, rec, stored_at, count);
    let at = domain_position(after, key, 0)->0;
    lemma_domain_position(after, key, 0);
    let records = after[at].records;
    let entry = CachedModel { record: rec, expires: expiry(stored_at, rec.ttl()) };
    let earlier = if domain_position(cache, key, 0) is Some {
        cache[at].records
    } else {
        Seq::empty()
    };
    lemma_domain_position(cache, key, 0);
    assert(records_distinct(earlier)) by {
        if domain_position(cache, key, 0) is Some {
            lemma_domain_position(cache, key, 0);
            assert(domain_position(cache, key, 0) == Some(at)) by {
                let there = domain_position(cache, key, 0)->0;
                assert(after[there].domain == key);
                if there < at {
                    assert(after[there].domain != key);
                }
                if at < there {
                    assert(cache[at].domain == key);
                }
            }
            assert(records_distinct(cache[at].records));
        }
    }
    lemma_put(earlier, rec, stored_at);
    let j = choose|j: int| 0 <= j < records.len() && #[trigger] records[j] == entry;
    let found = looked_up(after, key, rec.qtype(), asked_at).answers;
    if asked_at < expiry(stored_at, rec.ttl()) {
        lemma_live_found(records, rec.qtype(), asked_at, records.len() as int, j);
    } else if found.contains(rec) {
        assert(found == live_of(records, rec.qtype(), asked_at, records.len() as int));
        lemma_found_live(records, rec.qtype(), asked_at, records.len() as int, rec);
        let m = choose|m: int|
            0 <= m < records.len() && (#[trigger] records[m]).record == rec && live(
                records[m],
                asked_at,
            );
        if m < j {
            assert(!same_key(records[m].record, records[j].record));
        } else if j < m {
            assert(!same_key(records[j].record, records[m].record));
        }
    }
}

/// A store of one record is what `merged` makes of it, counted for its
/// domain: so `lemma_stored_record_lives` speaks of `Cache::store` with a
/// single record and of a `Cache::lookup` that follows it.
pub proof fn lemma_store_one(cache: Seq<DomainModel>, rec: RecordModel, now: u64)
    ensures
        stored(cache, seq![rec], 1, now) == merged(cache, rec, now, rec.domain() is Some),
{
    let recs = seq![rec];
    assert(stored(cache, recs, 0, now) == cache);
    assert(recs[0] == rec);
    if rec.domain() is Some {
        assert(!seen(recs, lowercase(rec.domain()->0), 0));
    }
}

} // verus!
