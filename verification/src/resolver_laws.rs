use vstd::prelude::*;
use crate::authority::ZoneModel;
use crate::cache::DomainModel;
use crate::protocol::PacketModel;
use crate::protocol::QueryType;
use crate::protocol::ResultCode;
use crate::resolver::advanced;
use crate::resolver::Chances;
use crate::resolver::failure;
use crate::resolver::judged;
use crate::resolver::known;
use crate::resolver::learned;
use crate::resolver::MAX_DEPTH;
use crate::resolver::MAX_HOPS;
use crate::resolver::PendingModel;
use crate::resolver::ReplyModel;
use crate::resolver::request_for;
use crate::resolver::settled;
use crate::resolver::started;
use crate::resolver::StepModel;
use crate::resolver::Verdict;

verus! {

/// The bounds of a lookup: at most 16 names are pending, and for each of
/// them at least one request and at most 16 were sent.
pub open spec fn bounded(pending: Seq<PendingModel>) -> bool {
    &&& pending.len() <= MAX_DEPTH
    &&& forall|i: int| 0 <= i < pending.len() ==> 1 <= (#[trigger] pending[i]).hops <= MAX_HOPS
}

/// Whether a step fits the names that are pending after it: a result is
/// handed out when no name is pending any more, and a question is the one
/// for the last pending name.
pub open spec fn fits(pending: Seq<PendingModel>, step: StepModel) -> bool {
    match step {
        StepModel::Done(_) => pending.len() == 0,
        StepModel::Ask(request) => pending.len() > 0 && request == request_for(
            pending.last(),
            request.id,
        ),
    }
}

/// The end of a lookup keeps the bounds, and the step that follows fits the
/// names that are left.
pub proof fn lemma_settled(pending: Seq<PendingModel>, result: PacketModel, chances: Chances)
    requires
        bounded(pending),
    ensures
        bounded(settled(pending, result, chances).pending),
        fits(settled(pending, result, chances).pending, settled(pending, result, chances).step),
        settled(pending, result, chances).pending.len() <= pending.len(),
    decreases pending.len(),
{
    if pending.len() > 0 {
        let rest = pending.drop_last();
        assert forall|i: int| 0 <= i < rest.len() implies 1 <= (#[trigger] rest[i]).hops
            <= MAX_HOPS by {
            assert(rest[i] == pending[i]);
        }
        let after = settled(pending, result, chances).pending;
        assert forall|i: int| 0 <= i < after.len() implies 1 <= (#[trigger] after[i]).hops
            <= MAX_HOPS by {
            lemma_settled(rest, result, chances);
            lemma_settled(
                rest,
                failure(pending.last().qname, pending.last().qtype),
                chances,
            );
            if i < rest.len() {
                assert(rest[i] == pending[i]);
            }
        }
        lemma_settled(
            rest,
            failure(pending.last().qname, pending.last().qtype),
            chances,
        );
    }
}

/// A lookup begins inside its bounds, and its first step fits.
pub proof fn lemma_started(
    zones: Seq<ZoneModel>,
    cache: Seq<DomainModel>,
    qname: Seq<char>,
    qtype: QueryType,
    now: u64,
    chances: Chances,
)
    ensures
        bounded(started(zones, cache, qname, qtype, now, chances).pending),
        fits(
            started(zones, cache, qname, qtype, now, chances).pending,
            started(zones, cache, qname, qtype, now, chances).step,
        ),
{
}

/// A lookup stays inside its bounds: after every reply at most 16 names are
/// pending and at most 16 requests were sent for each, a result is handed
/// out only when no name is pending, and a question is always the one for
/// the last pending name.
pub proof fn lemma_advanced(
    pending: Seq<PendingModel>,
    reply: ReplyModel,
    zones: Seq<ZoneModel>,
    cache: Seq<DomainModel>,
    now: u64,
    chances: Chances,
)
    requires
        bounded(pending),
    ensures
        bounded(advanced(pending, reply, zones, cache, now, chances).pending),
        fits(
            advanced(pending, reply, zones, cache, now, chances).pending,
            advanced(pending, reply, zones, cache, now, chances).step,
        ),
{
    if pending.len() > 0 {
        let cur = pending.last();
        let rest = pending.drop_last();
        let failed = failure(cur.qname, cur.qtype);
        assert(bounded(rest)) by {
            assert forall|i: int| 0 <= i < rest.len() implies 1 <= (#[trigger] rest[i]).hops
                <= MAX_HOPS by {
                assert(rest[i] == pending[i]);
            }
        }
        lemma_settled(rest, failed, chances);
        match reply {
            ReplyModel::Packet(p) => {
                lemma_settled(rest, p, chances);
                let cache1 = learned(cache, p, now);
                match judged(p, cur.qname, chances) {
                    Verdict::Lookup(host) => {
                        let local = known(zones, cache1, host, QueryType::A, now);
                        if local.packet is Some {
                            lemma_settled(pending, local.packet->0, chances);
                        } else if pending.len() < MAX_DEPTH {
                            let after = advanced(pending, reply, zones, cache, now, chances).pending;
                            assert forall|i: int| 0 <= i < after.len() implies 1 <= (
                            #[trigger] after[i]).hops <= MAX_HOPS by {
                                if i < pending.len() {
                                    assert(after[i] == pending[i]);
                                }
                            }
                        }
                    },
                    Verdict::Delegated(server) => {
                        if cur.hops < MAX_HOPS {
                            let after = advanced(pending, reply, zones, cache, now, chances).pending;
                            assert forall|i: int| 0 <= i < after.len() implies 1 <= (
                            #[trigger] after[i]).hops <= MAX_HOPS by {
                                if i < rest.len() {
                                    assert(after[i] == pending[i]);
                                }
                            }
                        }
                    },
                    Verdict::Final => {},
                }
            },
            _ => {},
        }
    }
}

/// A reply that says that the name does not exist is handed on as it is:
/// where the one pending name is answered so, the result is the reply, and
/// its records are stored.
pub proof fn lemma_no_such_name(
    cur: PendingModel,
    p: PacketModel,
    zones: Seq<ZoneModel>,
    cache: Seq<DomainModel>,
    now: u64,
    chances: Chances,
)
    requires
        p.header.rescode == ResultCode::NXDOMAIN,
    ensures
        advanced(seq![cur], ReplyModel::Packet(p), zones, cache, now, chances).step
            == StepModel::Done(p),
        advanced(seq![cur], ReplyModel::Packet(p), zones, cache, now, chances).cache == learned(
            cache,
            p,
            now,
        ),
        advanced(seq![cur], ReplyModel::Packet(p), zones, cache, now, chances).pending.len() == 0,
{
    let pending = seq![cur];
    assert(pending.drop_last() =~= Seq::<PendingModel>::empty());
    assert(pending.last() == cur);
}

} // verus!
