use vstd::prelude::*;
use vstd::string::StringExecFns;
use crate::authority::covering;
use crate::authority::zone_answer;
use crate::authority::ZoneModel;
use crate::authority::Zones;
use crate::cache::answer_packet;
use crate::cache::Cache;
use crate::cache::DomainModel;
use crate::cache::looked_up;
use crate::cache::stored;
use crate::chance::pick;
use crate::chance::random_number;
use crate::protocol::DnsHeader;
use crate::protocol::DnsPacket;
use crate::protocol::DnsQuestion;
use crate::protocol::PacketModel;
use crate::protocol::QueryType;
use crate::protocol::question_views;
use crate::protocol::QuestionModel;
use crate::protocol::ResultCode;
use crate::select::a_addresses;
use crate::select::glue;
use crate::select::glueless;
use crate::text::lowercase;

verus! {

/// The number of requests that are sent for one name at most.
pub const MAX_HOPS: u32 = 16;

/// The number of names that are looked up at a time at most: a name, the
/// server for it, the server for that server, and so on.
pub const MAX_DEPTH: usize = 16;

/// The address of the root server with which every lookup begins.
pub open spec fn root_server() -> Seq<char> {
    "198.41.0.4"@
}

/// A name that is being looked up: the question, the server that was asked
/// last, and the number of requests that were sent for it.
pub struct Pending {
    pub qname: String,
    pub qtype: QueryType,
    pub server: String,
    pub hops: u32,
}

/// The names that are being looked up: the name that was asked for first,
/// and behind it the servers that have to be found on the way, the one that
/// is asked for now last.
pub struct Resolver {
    pending: Vec<Pending>,
}

/// A question to send to a server.
pub struct Request {
    pub server: String,
    pub id: u16,
    pub qname: String,
    pub qtype: QueryType,
}

/// What is to be done next: to send a question and come back with the reply,
/// or to hand out the result.
pub enum Step {
    Ask(Request),
    Done(DnsPacket),
}

/// What came of a question: the reply of the server, or none in time, or a
/// failure of the socket.
pub enum Reply {
    Packet(DnsPacket),
    Timeout,
    Io,
}

/// The numbers that were drawn for one step: the id of the next question,
/// and the choices among servers with an address, among servers without one,
/// and among the addresses of a server that was looked up.
#[derive(Clone, Copy, Debug, PartialEq, Eq, Structural)]
pub struct Chances {
    pub id: u16,
    pub server: u64,
    pub host: u64,
    pub address: u64,
}

/// What a name that is being looked up is to contracts.
pub struct PendingModel {
    pub qname: Seq<char>,
    pub qtype: QueryType,
    pub server: Seq<char>,
    pub hops: u32,
}

/// What a question to a server is to contracts.
pub struct RequestModel {
    pub server: Seq<char>,
    pub id: u16,
    pub qname: Seq<char>,
    pub qtype: QueryType,
}

/// What a step is to contracts.
pub enum StepModel {
    Ask(RequestModel),
    Done(PacketModel),
}

/// What a reply is to contracts.
pub enum ReplyModel {
    Packet(PacketModel),
    Timeout,
    Io,
}

impl View for Pending {
    type V = PendingModel;

    open spec fn view(&self) -> PendingModel {
        PendingModel { qname: self.qname@, qtype: self.qtype, server: self.server@, hops: self.hops }
    }
}

impl View for Request {
    type V = RequestModel;

    open spec fn view(&self) -> RequestModel {
        RequestModel { server: self.server@, id: self.id, qname: self.qname@, qtype: self.qtype }
    }
}

impl View for Step {
    type V = StepModel;

    open spec fn view(&self) -> StepModel {
        match *self {
            Step::Ask(request) => StepModel::Ask(request@),
            Step::Done(packet) => StepModel::Done(packet@),
        }
    }
}

impl View for Reply {
    type V = ReplyModel;

    open spec fn view(&self) -> ReplyModel {
        match *self {
            Reply::Packet(packet) => ReplyModel::Packet(packet@),
            Reply::Timeout => ReplyModel::Timeout,
            Reply::Io => ReplyModel::Io,
        }
    }
}

/// The pending names as contracts see them.
pub open spec fn pending_views(pending: Seq<Pending>) -> Seq<PendingModel> {
    Seq::new(pending.len(), |i: int| pending[i]@)
}

impl View for Resolver {
    type V = Seq<PendingModel>;

    closed spec fn view(&self) -> Seq<PendingModel> {
        pending_views(self.pending@)
    }
}

/// The message that says that the lookup of `qname` failed: the result code
/// is `SERVFAIL`, the question is the one that was asked.
pub open spec fn failure(qname: Seq<char>, qtype: QueryType) -> PacketModel {
    PacketModel {
        header: DnsHeader { rescode: ResultCode::SERVFAIL, ..DnsHeader::blank() },
        questions: seq![QuestionModel { name: qname, qtype }],
        answers: Seq::empty(),
        authorities: Seq::empty(),
        resources: Seq::empty(),
    }
}

/// The message that says that there was nothing to look up.
pub open spec fn nothing_asked() -> PacketModel {
    PacketModel {
        header: DnsHeader { rescode: ResultCode::SERVFAIL, ..DnsHeader::blank() },
        questions: Seq::empty(),
        answers: Seq::empty(),
        authorities: Seq::empty(),
        resources: Seq::empty(),
    }
}

/// The question that is sent for a pending name.
pub open spec fn request_for(pending: PendingModel, id: u16) -> RequestModel {
    RequestModel { server: pending.server, id, qname: pending.qname, qtype: pending.qtype }
}

/// The message that a request is sent as: the id of the request, recursion
/// not desired, and the one question.
pub open spec fn request_packet(request: RequestModel) -> PacketModel {
    PacketModel {
        header: DnsHeader { id: request.id, questions: 1, ..DnsHeader::blank() },
        questions: seq![QuestionModel { name: request.qname, qtype: request.qtype }],
        answers: Seq::empty(),
        authorities: Seq::empty(),
        resources: Seq::empty(),
    }
}

/// What is known of a name without asking a server, and the cache
/// afterwards.
pub struct Known {
    pub packet: Option<PacketModel>,
    pub cache: Seq<DomainModel>,
}

/// What is known of the records of type `qtype` of `qname` without asking a
/// server: the answer of the zone that covers `qname`, if there is one; else
/// what the cache holds, if it holds anything.
pub open spec fn known(
    zones: Seq<ZoneModel>,
    cache: Seq<DomainModel>,
    qname: Seq<char>,
    qtype: QueryType,
    now: u64,
) -> Known {
    match covering(zones, qname, zones.len() as int) {
        Some(at) => Known { packet: Some(zone_answer(zones[at], qname, qtype)), cache },
        None => {
            let found = looked_up(cache, lowercase(qname), qtype, now);
            Known {
                packet: if found.answers.len() > 0 {
                    Some(answer_packet(found.answers))
                } else {
                    None
                },
                cache: found.cache,
            }
        },
    }
}

/// What a reply means for the name that was asked for.
pub enum Verdict {
    /// The reply is the result.
    Final,
    /// The server at this address is to be asked next.
    Delegated(Seq<char>),
    /// The address of this server is to be looked up.
    Lookup(Seq<char>),
}

/// What the reply `p` means for `qname`. A reply with answers and without
/// an error, or one that says that the name does not exist, is the result.
/// Else the next server is one that the reply names for `qname` with an
/// address; or, where it names none with an address, one that it names
/// without; and where it names none, the reply is the result.
pub open spec fn judged(p: PacketModel, qname: Seq<char>, chances: Chances) -> Verdict {
    if p.answers.len() > 0 && p.header.rescode == ResultCode::NOERROR {
        Verdict::Final
    } else if p.header.rescode == ResultCode::NXDOMAIN {
        Verdict::Final
    } else {
        match pick(glue(p, qname, p.authorities.len() as int), chances.server) {
            Some(addr) => Verdict::Delegated(addr.text()),
            None => match pick(glueless(p, qname, p.authorities.len() as int), chances.host) {
                Some(host) => Verdict::Lookup(host),
                None => Verdict::Final,
            },
        }
    }
}

/// The pending names and the next step.
pub struct Settled {
    pub pending: Seq<PendingModel>,
    pub step: StepModel,
}

/// What follows when the innermost lookup has ended with `result`. Without
/// a pending name `result` is handed out. Else the result was asked for on
/// behalf of the last pending name: where it holds an address and that name
/// has requests left, the server at one of its addresses is asked next for
/// that name; else the lookup of that name has failed in its turn.
pub open spec fn settled(pending: Seq<PendingModel>, result: PacketModel, chances: Chances) -> Settled
    decreases pending.len(),
{
    if pending.len() == 0 {
        Settled { pending, step: StepModel::Done(result) }
    } else {
        let parent = pending.last();
        match pick(a_addresses(result.answers, result.answers.len() as int), chances.address) {
            Some(addr) => if parent.hops < MAX_HOPS {
                let next = PendingModel {
                    server: addr.text(),
                    hops: (parent.hops + 1) as u32,
                    ..parent
                };
                Settled {
                    pending: pending.drop_last().push(next),
                    step: StepModel::Ask(request_for(next, chances.id)),
                }
            } else {
                settled(pending.drop_last(), failure(parent.qname, parent.qtype), chances)
            },
            None => settled(pending.drop_last(), failure(parent.qname, parent.qtype), chances),
        }
    }
}

/// The pending names, the cache and the next step.
pub struct Outcome {
    pub pending: Seq<PendingModel>,
    pub cache: Seq<DomainModel>,
    pub step: StepModel,
}

/// How a lookup of the records of type `qtype` of `qname` begins: with what
/// is known without asking a server, which is the result; or, where nothing
/// is known, with a question to the root server.
pub open spec fn started(
    zones: Seq<ZoneModel>,
    cache: Seq<DomainModel>,
    qname: Seq<char>,
    qtype: QueryType,
    now: u64,
    chances: Chances,
) -> Outcome {
    let local = known(zones, cache, qname, qtype, now);
    match local.packet {
        Some(packet) => Outcome {
            pending: Seq::empty(),
            cache: local.cache,
            step: StepModel::Done(packet),
        },
        None => {
            let first = PendingModel { qname, qtype, server: root_server(), hops: 1 };
            Outcome {
                pending: seq![first],
                cache: local.cache,
                step: StepModel::Ask(request_for(first, chances.id)),
            }
        },
    }
}

/// The cache after the records of the reply `p` were stored at `now`: the
/// answers, then the authorities, then the additional records.
pub open spec fn learned(cache: Seq<DomainModel>, p: PacketModel, now: u64) -> Seq<DomainModel> {
    stored(
        stored(
            stored(cache, p.answers, p.answers.len() as int, now),
            p.authorities,
            p.authorities.len() as int,
            now,
        ),
        p.resources,
        p.resources.len() as int,
        now,
    )
}

/// How a lookup goes on with the reply to the question that was asked last.
/// No reply in time, or a failure of the socket, fails the lookup of the
/// name that was asked for. The records of a reply are stored in the cache.
/// A reply that is the result ends the lookup of that name. A reply that
/// names a server with an address has that server asked next, unless 16
/// requests were sent for the name, which fails its lookup. A reply that
/// names a server without an address has the address looked up: what is
/// known of it without asking is used at once; else the root server is
/// asked for it, unless 16 names are pending, which fails the lookup.
pub open spec fn advanced(
    pending: Seq<PendingModel>,
    reply: ReplyModel,
    zones: Seq<ZoneModel>,
    cache: Seq<DomainModel>,
    now: u64,
    chances: Chances,
) -> Outcome {
    if pending.len() == 0 {
        Outcome { pending, cache, step: StepModel::Done(nothing_asked()) }
    } else {
        let cur = pending.last();
        let rest = pending.drop_last();
        let failed = settled(rest, failure(cur.qname, cur.qtype), chances);
        match reply {
            ReplyModel::Timeout => Outcome { pending: failed.pending, cache, step: failed.step },
            ReplyModel::Io => Outcome { pending: failed.pending, cache, step: failed.step },
            ReplyModel::Packet(p) => {
                let cache1 = learned(cache, p, now);
                match judged(p, cur.qname, chances) {
                    Verdict::Final => {
                        let s = settled(rest, p, chances);
                        Outcome { pending: s.pending, cache: cache1, step: s.step }
                    },
                    Verdict::Delegated(server) => if cur.hops < MAX_HOPS {
                        let next = PendingModel { server, hops: (cur.hops + 1) as u32, ..cur };
                        Outcome {
                            pending: rest.push(next),
                            cache: cache1,
                            step: StepModel::Ask(request_for(next, chances.id)),
                        }
                    } else {
                        Outcome { pending: failed.pending, cache: cache1, step: failed.step }
                    },
                    Verdict::Lookup(host) => {
                        let local = known(zones, cache1, host, QueryType::A, now);
                        match local.packet {
                            Some(packet) => {
                                let s = settled(pending, packet, chances);
                                Outcome { pending: s.pending, cache: local.cache, step: s.step }
                            },
                            None => if pending.len() < MAX_DEPTH {
                                let sub = PendingModel {
                                    qname: host,
                                    qtype: QueryType::A,
                                    server: root_server(),
                                    hops: 1,
                                };
                                Outcome {
                                    pending: pending.push(sub),
                                    cache: local.cache,
                                    step: StepModel::Ask(request_for(sub, chances.id)),
                                }
                            } else {
                                Outcome {
                                    pending: failed.pending,
                                    cache: local.cache,
                                    step: failed.step,
                                }
                            },
                        }
                    },
                }
            },
        }
    }
}

/// What a reply means, with the texts as they are handed on.
enum Judgement {
    Final,
    Delegated(String),
    Lookup(String),
}

/// Whether `found` is the verdict `wanted`.
spec fn is_verdict(found: Judgement, wanted: Verdict) -> bool {
    match wanted {
        Verdict::Final => found is Final,
        Verdict::Delegated(server) => found matches Judgement::Delegated(s) && s@ == server,
        Verdict::Lookup(host) => found matches Judgement::Lookup(h) && h@ == host,
    }
}

/// What the reply `p` means for `qname`.
fn judge(p: &DnsPacket, qname: &str, chances: Chances) -> (found: Judgement)
    ensures
        is_verdict(found, judged(p@, qname@, chances)),
{
    if p.answers.len() > 0 && p.header.rescode == ResultCode::NOERROR {
        return Judgement::Final;
    }
    if p.header.rescode == ResultCode::NXDOMAIN {
        return Judgement::Final;
    }
    match p.pick_resolved_ns(qname, chances.server) {
        Some(server) => Judgement::Delegated(server),
        None => match p.pick_unresolved_ns(qname, chances.host) {
            Some(host) => Judgement::Lookup(host),
            None => Judgement::Final,
        },
    }
}

/// The message that says that the lookup of `qname` failed.
pub fn failure_packet(qname: &String, qtype: QueryType) -> (packet: DnsPacket)
    ensures
        packet@ == failure(qname@, qtype),
{
    let mut packet = DnsPacket::new();
    packet.header.rescode = ResultCode::SERVFAIL;
    let mut questions: Vec<DnsQuestion> = Vec::new();
    questions.push(DnsQuestion::new(qname, qtype));
    assert(question_views(questions@) =~= seq![QuestionModel { name: qname@, qtype }]);
    packet.questions = questions;
    packet
}

/// What is known of the records of type `qtype` of `qname` without asking a
/// server.
pub fn known_of(zones: &Zones, cache: &mut Cache, qname: &str, qtype: QueryType, now: u64) -> (found:
    Option<DnsPacket>)
    ensures
        final(cache)@ == known(zones@, old(cache)@, qname@, qtype, now).cache,
        match found {
            Some(packet) => known(zones@, old(cache)@, qname@, qtype, now).packet == Some(packet@),
            None => known(zones@, old(cache)@, qname@, qtype, now).packet is None,
        },
{
    match zones.query(qname, qtype) {
        Some(packet) => Some(packet),
        None => cache.lookup(qname, qtype, now),
    }
}

/// Numbers for one step, drawn at random.
pub fn draw() -> Chances {
    let id = random_number();
    let server = random_number();
    let host = random_number();
    let address = random_number();
    Chances { id: (id % 0x1_0000) as u16, server, host, address }
}

impl Request {
    /// The message that the request is sent as: the id of the request,
    /// recursion not desired, and the one question.
    pub fn packet(&self) -> (packet: DnsPacket)
        ensures
            packet@ == request_packet(self@),
    {
        let mut packet = DnsPacket::new();
        packet.header.id = self.id;
        packet.header.questions = 1;
        let mut questions: Vec<DnsQuestion> = Vec::new();
        questions.push(DnsQuestion::new(&self.qname, self.qtype));
        assert(question_views(questions@) =~= seq![
            QuestionModel { name: self.qname@, qtype: self.qtype },
        ]);
        packet.questions = questions;
        packet
    }
}

/// The question that is sent for a pending name.
fn ask(pending: &Pending, id: u16) -> (request: Request)
    ensures
        request@ == request_for(pending@, id),
{
    Request {
        server: pending.server.clone(),
        id,
        qname: pending.qname.clone(),
        qtype: pending.qtype,
    }
}

impl Resolver {
    /// Whether no name is being looked up.
    pub fn is_idle(&self) -> (idle: bool)
        ensures
            idle == (self@.len() == 0),
    {
        self.pending.len() == 0
    }

    /// The number of names that are being looked up.
    pub fn depth(&self) -> (n: usize)
        ensures
            n == self@.len(),
    {
        self.pending.len()
    }

    /// What follows when the innermost lookup has ended with `result`.
    fn settle(&mut self, ended: DnsPacket, chances: Chances) -> (step: Step)
        ensures
            settled(old(self)@, ended@, chances) == (Settled { pending: final(self)@, step: step@ }),
    {
        let ghost first = ended@;
        let mut result = ended;
        loop
            invariant
                first == ended@,
                settled(old(self)@, first, chances) == settled(self@, result@, chances),
            decreases self.pending@.len(),
        {
            let ghost before = self@;
            let parent = match self.pending.pop() {
                Some(parent) => parent,
                None => {
                    return Step::Done(result);
                },
            };
            assert(self@ =~= before.drop_last());
            assert(parent@ == before.last());
            match result.pick_a(chances.address) {
                Some(server) => {
                    if parent.hops < MAX_HOPS {
                        let next = Pending {
                            qname: parent.qname,
                            qtype: parent.qtype,
                            server,
                            hops: parent.hops + 1,
                        };
                        let request = ask(&next, chances.id);
                        let ghost model = next@;
                        self.pending.push(next);
                        assert(self@ =~= before.drop_last().push(model));
                        return Step::Ask(request);
                    }
                },
                None => {},
            }
            result = failure_packet(&parent.qname, parent.qtype);
        }
    }

    /// Begins the lookup of the records of type `qtype` of `qname`: see
    /// `started`.
    pub fn start(
        zones: &Zones,
        cache: &mut Cache,
        qname: &str,
        qtype: QueryType,
        now: u64,
        chances: Chances,
    ) -> (r: (Resolver, Step))
        ensures
            started(zones@, old(cache)@, qname@, qtype, now, chances) == (Outcome {
                pending: r.0@,
                cache: final(cache)@,
                step: r.1@,
            }),
    {
        let mut resolver = Resolver { pending: Vec::new() };
        assert(resolver@ =~= Seq::<PendingModel>::empty());
        match known_of(zones, cache, qname, qtype, now) {
            Some(packet) => (resolver, Step::Done(packet)),
            None => {
                proof {
                    reveal_strlit("198.41.0.4");
                }
                let first = Pending {
                    qname: String::from_str(qname),
                    qtype,
                    server: String::from_str("198.41.0.4"),
                    hops: 1,
                };
                let request = ask(&first, chances.id);
                let ghost model = first@;
                resolver.pending.push(first);
                assert(resolver@ =~= seq![model]);
                (resolver, Step::Ask(request))
            },
        }
    }

    /// Goes on with the reply to the question that was asked last: see
    /// `advanced`.
    pub fn advance(
        &mut self,
        reply: Reply,
        zones: &Zones,
        cache: &mut Cache,
        now: u64,
        chances: Chances,
    ) -> (step: Step)
        ensures
            advanced(old(self)@, reply@, zones@, old(cache)@, now, chances) == (Outcome {
                pending: final(self)@,
                cache: final(cache)@,
                step: step@,
            }),
    {
        let ghost before = self@;
        let cur = match self.pending.pop() {
            Some(cur) => cur,
            None => {
                let mut packet = DnsPacket::new();
                packet.header.rescode = ResultCode::SERVFAIL;
                return Step::Done(packet);
            },
        };
        assert(self@ =~= before.drop_last());
        assert(cur@ == before.last());
        let p = match reply {
            Reply::Packet(p) => p,
            Reply::Timeout => {
                let failed = failure_packet(&cur.qname, cur.qtype);
                return self.settle(failed, chances);
            },
            Reply::Io => {
                let failed = failure_packet(&cur.qname, cur.qtype);
                return self.settle(failed, chances);
            },
        };
        cache.store(&p.answers, now);
        cache.store(&p.authorities, now);
        cache.store(&p.resources, now);
        assert(cache@ == learned(old(cache)@, p@, now));
        match judge(&p, cur.qname.as_str(), chances) {
            Judgement::Final => self.settle(p, chances),
            Judgement::Delegated(server) => {
                if cur.hops < MAX_HOPS {
                    let next = Pending {
                        qname: cur.qname,
                        qtype: cur.qtype,
                        server,
                        hops: cur.hops + 1,
                    };
                    let request = ask(&next, chances.id);
                    let ghost model = next@;
                    self.pending.push(next);
                    assert(self@ =~= before.drop_last().push(model));
                    Step::Ask(request)
                } else {
                    let failed = failure_packet(&cur.qname, cur.qtype);
                    self.settle(failed, chances)
                }
            },
            Judgement::Lookup(host) => {
                match known_of(zones, cache, host.as_str(), QueryType::A, now) {
                    Some(packet) => {
                        self.pending.push(cur);
                        assert(self@ =~= before);
                        self.settle(packet, chances)
                    },
                    None => {
                        if self.pending.len() < MAX_DEPTH - 1 {
                            proof {
                                reveal_strlit("198.41.0.4");
                            }
                            let sub = Pending {
                                qname: host,
                                qtype: QueryType::A,
                                server: String::from_str("198.41.0.4"),
                                hops: 1,
                            };
                            let request = ask(&sub, chances.id);
                            let ghost model = sub@;
                            self.pending.push(cur);
                            self.pending.push(sub);
                            assert(self@ =~= before.push(model));
                            Step::Ask(request)
                        } else {
                            let failed = failure_packet(&cur.qname, cur.qtype);
                            self.settle(failed, chances)
                        }
                    },
                }
            },
        }
    }
}

} // verus!
