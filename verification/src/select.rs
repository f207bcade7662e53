use vstd::prelude::*;
use crate::addr::Ipv4Addr;
use crate::chance::pick;
use crate::chance::pick_index;
use crate::chance::random_number;
use crate::protocol::DnsPacket;
use crate::protocol::PacketModel;
use crate::protocol::record_views;
use crate::protocol::RecordModel;
use crate::protocol::ResourceRecord;
use crate::text::is_within;
use crate::text::within;

verus! {

/// The addresses of the `A` records among the first `upto` records, in their
/// order.
pub open spec fn a_addresses(recs: Seq<RecordModel>, upto: int) -> Seq<Ipv4Addr>
    decreases upto,
{
    if upto <= 0 {
        Seq::empty()
    } else {
        match recs[upto - 1] {
            RecordModel::A(_, addr, _) => a_addresses(recs, upto - 1).push(addr),
            _ => a_addresses(recs, upto - 1),
        }
    }
}

/// The addresses of the `A` records for `host` among the first `upto`
/// records, in their order.
pub open spec fn glue_of(recs: Seq<RecordModel>, host: Seq<char>, upto: int) -> Seq<Ipv4Addr>
    decreases upto,
{
    if upto <= 0 {
        Seq::empty()
    } else {
        match recs[upto - 1] {
            RecordModel::A(domain, addr, _) => if domain == host {
                glue_of(recs, host, upto - 1).push(addr)
            } else {
                glue_of(recs, host, upto - 1)
            },
            _ => glue_of(recs, host, upto - 1),
        }
    }
}

/// Whether `rec` names a server for a domain in which `qname` lies.
pub open spec fn serves(rec: RecordModel, qname: Seq<char>) -> bool {
    rec matches RecordModel::NS(suffix, _, _) && within(qname, suffix)
}

/// The addresses to ask next for `qname`: for each of the first `upto`
/// authorities that names a server for `qname`, the addresses that the
/// additional records give for that server.
pub open spec fn glue(p: PacketModel, qname: Seq<char>, upto: int) -> Seq<Ipv4Addr>
    decreases upto,
{
    if upto <= 0 {
        Seq::empty()
    } else if serves(p.authorities[upto - 1], qname) {
        glue(p, qname, upto - 1) + glue_of(
            p.resources,
            p.authorities[upto - 1]->NS_1,
            p.resources.len() as int,
        )
    } else {
        glue(p, qname, upto - 1)
    }
}

/// The servers to look up for `qname`: of the first `upto` authorities, the
/// servers for `qname` for which the additional records give no address.
pub open spec fn glueless(p: PacketModel, qname: Seq<char>, upto: int) -> Seq<Seq<char>>
    decreases upto,
{
    if upto <= 0 {
        Seq::empty()
    } else if serves(p.authorities[upto - 1], qname) && glue_of(
        p.resources,
        p.authorities[upto - 1]->NS_1,
        p.resources.len() as int,
    ).len() == 0 {
        glueless(p, qname, upto - 1).push(p.authorities[upto - 1]->NS_1)
    } else {
        glueless(p, qname, upto - 1)
    }
}

/// Whether `rec` is a `CNAME` record for whose target `recs` holds no `A`
/// record.
pub open spec fn dangling(recs: Seq<RecordModel>, rec: RecordModel) -> bool {
    rec matches RecordModel::CNAME(_, target, _) && glue_of(recs, target, recs.len() as int).len()
        == 0
}

/// The `CNAME` records among the first `upto` records for whose target
/// `recs` holds no `A` record, in their order.
pub open spec fn unresolved(recs: Seq<RecordModel>, upto: int) -> Seq<RecordModel>
    decreases upto,
{
    if upto <= 0 {
        Seq::empty()
    } else if dangling(recs, recs[upto - 1]) {
        unresolved(recs, upto - 1).push(recs[upto - 1])
    } else {
        unresolved(recs, upto - 1)
    }
}

/// Whether `found` is the text of the address `choice`, or neither is there.
pub open spec fn is_address(found: Option<String>, choice: Option<Ipv4Addr>) -> bool {
    match choice {
        Some(addr) => found matches Some(s) && s@ == addr.text(),
        None => found is None,
    }
}

/// Whether `found` is the text `choice`, or neither is there.
pub open spec fn is_text(found: Option<String>, choice: Option<Seq<char>>) -> bool {
    match choice {
        Some(text) => found matches Some(s) && s@ == text,
        None => found is None,
    }
}

/// The addresses of the `A` records of `recs`, in their order.
fn collect_addresses(recs: &Vec<ResourceRecord>) -> (found: Vec<Ipv4Addr>)
    ensures
        found@ == a_addresses(record_views(recs@), recs@.len() as int),
{
    let mut found: Vec<Ipv4Addr> = Vec::new();
    let mut i: usize = 0;
    while i < recs.len()
        invariant
            i <= recs@.len(),
            found@ == a_addresses(record_views(recs@), i as int),
        decreases recs@.len() - i,
    {
        match &recs[i] {
            ResourceRecord::A(_, addr, _) => {
                found.push(*addr);
            },
            _ => {},
        }
        i = i + 1;
    }
    found
}

/// Appends to `found` the addresses of the `A` records of `recs` for `host`.
fn collect_glue(recs: &Vec<ResourceRecord>, host: &String, found: &mut Vec<Ipv4Addr>)
    ensures
        final(found)@ == old(found)@ + glue_of(record_views(recs@), host@, recs@.len() as int),
{
    let mut i: usize = 0;
    assert(found@ + glue_of(record_views(recs@), host@, 0) =~= found@);
    while i < recs.len()
        invariant
            i <= recs@.len(),
            found@ == old(found)@ + glue_of(record_views(recs@), host@, i as int),
        decreases recs@.len() - i,
    {
        let ghost before = glue_of(record_views(recs@), host@, i as int);
        match &recs[i] {
            ResourceRecord::A(domain, addr, _) => {
                if *domain == *host {
                    found.push(*addr);
                    assert(old(found)@ + before.push(*addr) =~= (old(found)@ + before).push(*addr));
                }
            },
            _ => {},
        }
        i = i + 1;
    }
}

impl DnsPacket {
    /// The address that the number `r` picks among the `A` records of the
    /// answers, as text.
    pub fn pick_a(&self, r: u64) -> (found: Option<String>)
        ensures
            is_address(found, pick(a_addresses(self@.answers, self@.answers.len() as int), r)),
    {
        let addresses = collect_addresses(&self.answers);
        if addresses.len() == 0 {
            return None;
        }
        let i = pick_index(addresses.len(), r);
        Some(addresses[i].to_text())
    }

    /// The address of one of the `A` records of the answers, picked at
    /// random, as text; nothing where the answers hold no `A` record.
    pub fn get_random_a(&self) -> (found: Option<String>)
        ensures
            exists|r: u64|
                is_address(
                    found,
                    #[trigger] pick(a_addresses(self@.answers, self@.answers.len() as int), r),
                ),
    {
        let r = random_number();
        self.pick_a(r)
    }

    /// The `CNAME` records of the answers for whose target the answers hold
    /// no `A` record, in their order.
    pub fn get_unresolved_cnames(&self) -> (found: Vec<ResourceRecord>)
        ensures
            record_views(found@) == unresolved(self@.answers, self@.answers.len() as int),
    {
        let mut found: Vec<ResourceRecord> = Vec::new();
        let mut i: usize = 0;
        assert(record_views(found@) =~= unresolved(self@.answers, 0));
        while i < self.answers.len()
            invariant
                i <= self.answers@.len(),
                record_views(found@) == unresolved(self@.answers, i as int),
            decreases self.answers@.len() - i,
        {
            match &self.answers[i] {
                ResourceRecord::CNAME(_, target, _) => {
                    let mut glue: Vec<Ipv4Addr> = Vec::new();
                    collect_glue(&self.answers, target, &mut glue);
                    assert(glue@ =~= glue_of(
                        self@.answers,
                        target@,
                        self@.answers.len() as int,
                    ));
                    if glue.len() == 0 {
                        let ghost before = record_views(found@);
                        let copy = self.answers[i].duplicate();
                        found.push(copy);
                        assert(record_views(found@) =~= before.push(self@.answers[i as int]));
                    }
                },
                _ => {},
            }
            i = i + 1;
        }
        found
    }

    /// The addresses to ask next for `qname`: see `glue`.
    fn collect_resolved_ns(&self, qname: &str) -> (found: Vec<Ipv4Addr>)
        ensures
            found@ == glue(self@, qname@, self@.authorities.len() as int),
    {
        let mut found: Vec<Ipv4Addr> = Vec::new();
        let mut i: usize = 0;
        while i < self.authorities.len()
            invariant
                i <= self.authorities@.len(),
                found@ == glue(self@, qname@, i as int),
            decreases self.authorities@.len() - i,
        {
            match &self.authorities[i] {
                ResourceRecord::NS(suffix, host, _) => {
                    if is_within(qname, suffix.as_str()) {
                        collect_glue(&self.resources, host, &mut found);
                    }
                },
                _ => {},
            }
            i = i + 1;
        }
        found
    }

    /// The servers to look up for `qname`: see `glueless`.
    fn collect_unresolved_ns(&self, qname: &str) -> (found: Vec<String>)
        ensures
            found@.len() == glueless(self@, qname@, self@.authorities.len() as int).len(),
            forall|i: int|
                0 <= i < found@.len() ==> (#[trigger] found@[i])@ == glueless(
                    self@,
                    qname@,
                    self@.authorities.len() as int,
                )[i],
    {
        let mut found: Vec<String> = Vec::new();
        let mut i: usize = 0;
        while i < self.authorities.len()
            invariant
                i <= self.authorities@.len(),
                found@.len() == glueless(self@, qname@, i as int).len(),
                forall|j: int|
                    0 <= j < found@.len() ==> (#[trigger] found@[j])@ == glueless(
                        self@,
                        qname@,
                        i as int,
                    )[j],
            decreases self.authorities@.len() - i,
        {
            match &self.authorities[i] {
                ResourceRecord::NS(suffix, host, _) => {
                    if is_within(qname, suffix.as_str()) {
                        let mut glue: Vec<Ipv4Addr> = Vec::new();
                        collect_glue(&self.resources, host, &mut glue);
                        assert(glue@ =~= glue_of(
                            self@.resources,
                            host@,
                            self@.resources.len() as int,
                        ));
                        if glue.len() == 0 {
                            found.push(host.clone());
                        }
                    }
                },
                _ => {},
            }
            i = i + 1;
        }
        found
    }

    /// The address that the number `r` picks among the addresses to ask next
    /// for `qname`, as text.
    pub fn pick_resolved_ns(&self, qname: &str, r: u64) -> (found: Option<String>)
        ensures
            is_address(found, pick(glue(self@, qname@, self@.authorities.len() as int), r)),
    {
        let addresses = self.collect_resolved_ns(qname);
        if addresses.len() == 0 {
            return None;
        }
        let i = pick_index(addresses.len(), r);
        Some(addresses[i].to_text())
    }

    /// The address of a server to ask next for `qname`, as text: one of the
    /// addresses that the additional records give for the servers that the
    /// authorities name for a domain in which `qname` lies, picked at random;
    /// nothing where there is no such address.
    pub fn get_resolved_ns(&self, qname: &str) -> (found: Option<String>)
        ensures
            exists|r: u64|
                is_address(
                    found,
                    #[trigger] pick(glue(self@, qname@, self@.authorities.len() as int), r),
                ),
    {
        let r = random_number();
        self.pick_resolved_ns(qname, r)
    }

    /// The server that the number `r` picks among the servers to look up for
    /// `qname`.
    pub fn pick_unresolved_ns(&self, qname: &str, r: u64) -> (found: Option<String>)
        ensures
            is_text(found, pick(glueless(self@, qname@, self@.authorities.len() as int), r)),
    {
        let hosts = self.collect_unresolved_ns(qname);
        if hosts.len() == 0 {
            return None;
        }
        let i = pick_index(hosts.len(), r);
        Some(hosts[i].clone())
    }

    /// The name of a server to look up for `qname`: one of the servers that
    /// the authorities name for a domain in which `qname` lies and for which
    /// the additional records give no address, picked at random; nothing
    /// where there is no such server.
    pub fn get_unresolved_ns(&self, qname: &str) -> (found: Option<String>)
        ensures
            exists|r: u64|
                is_text(
                    found,
                    #[trigger] pick(glueless(self@, qname@, self@.authorities.len() as int), r),
                ),
    {
        let r = random_number();
        self.pick_unresolved_ns(qname, r)
    }
}

} // verus!
