use vstd::prelude::*;
use crate::authority::record_position;
use crate::authority::zone_position;
use crate::authority::ZoneModel;
use crate::protocol::RecordModel;

verus! {

/// Whether no record stands twice among `records`.
pub open spec fn records_unique(records: Seq<RecordModel>) -> bool {
    forall|a: int, b: int| 0 <= a < b < records.len() ==> records[a] != records[b]
}

/// Whether no two zones have the same domain.
pub open spec fn zones_unique(zones: Seq<ZoneModel>) -> bool {
    forall|a: int, b: int|
        0 <= a < b < zones.len() ==> (#[trigger] zones[a]).domain != (#[trigger] zones[b]).domain
}

/// What `record_position` finds: the first record from `from` on that is
/// `rec`.
pub proof fn lemma_record_position(records: Seq<RecordModel>, rec: RecordModel, from: int)
    requires
        0 <= from,
    ensures
        match record_position(records, rec, from) {
            Some(at) => from <= at < records.len() && records[at] == rec,
            None => forall|i: int| from <= i < records.len() ==> records[i] != rec,
        },
    decreases records.len() - from,
{
    if from < records.len() && records[from] != rec {
        lemma_record_position(records, rec, from + 1);
    }
}

/// What `zone_position` finds: the first zone from `from` on whose domain is
/// `domain`.
pub proof fn lemma_zone_position(zones: Seq<ZoneModel>, domain: Seq<char>, from: int)
    requires
        0 <= from,
    ensures
        match zone_position(zones, domain, from) {
            Some(at) => from <= at < zones.len() && zones[at].domain == domain,
            None => forall|i: int| from <= i < zones.len() ==> (#[trigger] zones[i]).domain
                != domain,
        },
    decreases zones.len() - from,
{
    if from < zones.len() && zones[from].domain != domain {
        lemma_zone_position(zones, domain, from + 1);
    }
}

/// A zone in which no record stands twice stays so when a record is added
/// as `Zone::add_record` adds it: only where the zone does not hold it.
pub proof fn lemma_add_record_unique(records: Seq<RecordModel>, rec: RecordModel)
    requires
        records_unique(records),
    ensures
        records_unique(
            if record_position(records, rec, 0) is None {
                records.push(rec)
            } else {
                records
            },
        ),
{
    lemma_record_position(records, rec, 0);
}

/// Zones of which no two have the same domain stay so when a zone is added
/// as `Zones::add_zone` adds it: in the place of the zone with its domain,
/// or at the end where there is none.
pub proof fn lemma_add_zone_unique(zones: Seq<ZoneModel>, zone: ZoneModel)
    requires
        zones_unique(zones),
    ensures
        zones_unique(
            match zone_position(zones, zone.domain, 0) {
                Some(at) => zones.update(at, zone),
                None => zones.push(zone),
            },
        ),
{
    lemma_zone_position(zones, zone.domain, 0);
    let after = match zone_position(zones, zone.domain, 0) {
        Some(at) => zones.update(at, zone),
        None => zones.push(zone),
    };
    assert forall|a: int, b: int| 0 <= a < b < after.len() implies (#[trigger] after[a]).domain != (
    #[trigger] after[b]).domain by {
        if b < zones.len() {
            assert(zones[a].domain != zones[b].domain);
        } else {
            assert(zones[a].domain != zone.domain);
        }
    }
}

} // verus!
