use vstd::prelude::*;
use crate::buffer::BufferModel;
use crate::buffer::PacketBuffer;
use crate::errors::DnsError;
use crate::protocol::DnsPacket;
use crate::protocol::DnsQuestion;
use crate::protocol::question_views;
use crate::protocol::record_views;
use crate::protocol::ResourceRecord;
use crate::stores::VectorPacketBuffer;
use crate::wire::accepted;
use crate::wire::Accepted;
use crate::wire::accepted_in;
use crate::wire::and_then;
use crate::wire::appended;
use crate::wire::emit_question;
use crate::wire::emit_questions;
use crate::wire::emit_record;
use crate::wire::emit_records;
use crate::wire::Emitted;
use crate::wire::emitted_count;
use crate::wire::header_wire;
use crate::wire::layout;
use crate::wire::lemma_appended_nothing;
use crate::wire::lemma_appended_twice;
use crate::wire::lemma_questions_grow;
use crate::wire::lemma_records_grow;
use crate::wire::MAX_COUNT;
use crate::wire::raw;
use crate::wire::sent;
use crate::wire::sent_header;
use crate::wire::sent_packet;

verus! {

/// Writes the questions behind what was written since the buffer was `origin`.
fn write_questions<T: PacketBuffer>(
    questions: &Vec<DnsQuestion>,
    buffer: &mut T,
    Ghost(origin): Ghost<BufferModel>,
    Ghost(done): Ghost<Emitted>,
) -> (r: Result<(), DnsError>)
    requires
        old(buffer).wf(),
        old(buffer).model() == appended(origin, done),
    ensures
        final(buffer).wf(),
        final(buffer).model().limit == origin.limit,
        r is Ok <==> origin.cursor + done.bytes.len() + emit_questions(
            done.labels,
            origin.cursor + done.bytes.len(),
            question_views(questions@),
            questions@.len() as int,
        ).bytes.len() <= origin.limit,
        r is Ok ==> final(buffer).model() == appended(
            origin,
            and_then(
                done,
                emit_questions(
                    done.labels,
                    origin.cursor + done.bytes.len(),
                    question_views(questions@),
                    questions@.len() as int,
                ),
            ),
        ),
        r matches Err(e) ==> e == DnsError::BufferEnd,
{
    let ghost views = question_views(questions@);
    let ghost at = origin.cursor + done.bytes.len();
    let mut i: usize = 0;
    proof {
        assert(and_then(done, emit_questions(done.labels, at, views, 0)).bytes =~= done.bytes);
        buffer.lemma_wf();
    }
    while i < questions.len()
        invariant
            buffer.wf(),
            i <= questions@.len(),
            views == question_views(questions@),
            at == origin.cursor + done.bytes.len(),
            buffer.model() == appended(
                origin,
                and_then(done, emit_questions(done.labels, at, views, i as int)),
            ),
        decreases questions@.len() - i,
    {
        let ghost before = emit_questions(done.labels, at, views, i as int);
        let ghost next = emit_question(before.labels, at + before.bytes.len(), views[i as int]);
        proof {
            lemma_appended_twice(origin, and_then(done, before), next);
            lemma_questions_grow(done.labels, at, views, i + 1, questions@.len() as int);
            assert(and_then(and_then(done, before), next).bytes =~= and_then(
                done,
                and_then(before, next),
            ).bytes);
        }
        questions[i].write(buffer)?;
        i = i + 1;
    }
    proof {
        buffer.lemma_wf();
    }
    Ok(())
}

/// Writes the first `upto` records behind what was written since the buffer
/// was `origin`.
fn write_records<T: PacketBuffer>(
    recs: &Vec<ResourceRecord>,
    upto: usize,
    buffer: &mut T,
    Ghost(origin): Ghost<BufferModel>,
    Ghost(done): Ghost<Emitted>,
) -> (r: Result<(), DnsError>)
    requires
        old(buffer).wf(),
        old(buffer).model() == appended(origin, done),
        upto <= recs@.len(),
    ensures
        final(buffer).wf(),
        final(buffer).model().limit == origin.limit,
        r is Ok <==> origin.cursor + done.bytes.len() + emit_records(
            done.labels,
            origin.cursor + done.bytes.len(),
            record_views(recs@),
            upto as int,
        ).bytes.len() <= origin.limit,
        r is Ok ==> final(buffer).model() == appended(
            origin,
            and_then(
                done,
                emit_records(
                    done.labels,
                    origin.cursor + done.bytes.len(),
                    record_views(recs@),
                    upto as int,
                ),
            ),
        ),
        r matches Err(e) ==> e == DnsError::BufferEnd,
{
    let ghost views = record_views(recs@);
    let ghost at = origin.cursor + done.bytes.len();
    let mut i: usize = 0;
    proof {
        assert(and_then(done, emit_records(done.labels, at, views, 0)).bytes =~= done.bytes);
        buffer.lemma_wf();
    }
    while i < upto
        invariant
            buffer.wf(),
            i <= upto <= recs@.len(),
            views == record_views(recs@),
            at == origin.cursor + done.bytes.len(),
            buffer.model() == appended(
                origin,
                and_then(done, emit_records(done.labels, at, views, i as int)),
            ),
        decreases upto - i,
    {
        let ghost before = emit_records(done.labels, at, views, i as int);
        let ghost next = emit_record(before.labels, at + before.bytes.len(), views[i as int]);
        proof {
            lemma_appended_twice(origin, and_then(done, before), next);
            lemma_records_grow(done.labels, at, views, i + 1, upto as int);
            assert(and_then(and_then(done, before), next).bytes =~= and_then(
                done,
                and_then(before, next),
            ).bytes);
        }
        let _ = recs[i].write(buffer)?;
        i = i + 1;
    }
    proof {
        buffer.lemma_wf();
    }
    Ok(())
}

/// The number of records of a section that are sent, found by writing them
/// into `scratch` until one ends behind `max_size`.
fn measure_section(scratch: &mut VectorPacketBuffer, recs: &Vec<ResourceRecord>, max_size: usize) -> (k:
    usize)
    requires
        old(scratch).wf(),
        old(scratch).model().limit == usize::MAX,
    ensures
        final(scratch).wf(),
        final(scratch).model().limit == usize::MAX,
        k == accepted_in(
            old(scratch).model().labels,
            old(scratch).model().cursor,
            record_views(recs@),
            0,
            max_size as nat,
        ),
        k <= recs@.len(),
        k <= MAX_COUNT,
        k == recs@.len() ==> final(scratch).model() == appended(
            old(scratch).model(),
            emit_records(
                old(scratch).model().labels,
                old(scratch).model().cursor,
                record_views(recs@),
                k as int,
            ),
        ),
{
    let ghost m0 = scratch.model();
    let ghost views = record_views(recs@);
    let mut i: usize = 0;
    proof {
        lemma_appended_nothing(m0);
    }
    loop
        invariant
            scratch.wf(),
            scratch.model().limit == usize::MAX,
            m0 == old(scratch).model(),
            views == record_views(recs@),
            i <= recs@.len(),
            i <= MAX_COUNT,
            scratch.model() == appended(m0, emit_records(m0.labels, m0.cursor, views, i as int)),
            accepted_in(m0.labels, m0.cursor, views, 0, max_size as nat) == accepted_in(
                scratch.model().labels,
                scratch.model().cursor,
                views,
                i as int,
                max_size as nat,
            ),
        decreases recs@.len() - i,
    {
        if i >= recs.len() || i >= MAX_COUNT {
            return i;
        }
        let ghost before = emit_records(m0.labels, m0.cursor, views, i as int);
        let ghost next = emit_record(before.labels, m0.cursor + before.bytes.len(), views[i as int]);
        proof {
            lemma_appended_twice(m0, before, next);
        }
        match recs[i].write(scratch) {
            Ok(_) => {
                if scratch.pos() > max_size {
                    return i;
                }
            },
            Err(_) => {
                return i;
            },
        }
        i = i + 1;
    }
}

/// The number of the first `upto` records that are written to the wire.
fn count_emitted(recs: &Vec<ResourceRecord>, upto: usize) -> (n: u16)
    requires
        upto <= recs@.len(),
        upto <= MAX_COUNT,
    ensures
        n == emitted_count(record_views(recs@), upto as int),
{
    let mut n: u16 = 0;
    let mut i: usize = 0;
    while i < upto
        invariant
            i <= upto <= recs@.len(),
            upto <= MAX_COUNT,
            n <= i,
            n == emitted_count(record_views(recs@), i as int),
        decreases upto - i,
    {
        match recs[i] {
            ResourceRecord::OPT(_, _, _) => {},
            ResourceRecord::UNKNOWN(_, _, _, _) => {},
            _ => {
                n = n + 1;
            },
        }
        i = i + 1;
    }
    n
}

impl DnsPacket {
    /// Writes the message at the cursor: the header, the questions, and the
    /// records that fit a message of `max_size` octets, answers first. Where a
    /// record is left out, the header says so. The header of `self` becomes
    /// the one that is written; the counts in it are those of the records
    /// written. A message of more than 65535 questions is not written.
    pub fn write<T: PacketBuffer>(&mut self, buffer: &mut T, max_size: usize) -> (r: Result<
        (),
        DnsError,
    >)
        requires
            old(buffer).wf(),
        ensures
            final(buffer).wf(),
            final(buffer).model().limit == old(buffer).model().limit,
            final(self).questions == old(self).questions,
            final(self).answers == old(self).answers,
            final(self).authorities == old(self).authorities,
            final(self).resources == old(self).resources,
            final(self).header == if old(self).questions@.len() <= MAX_COUNT {
                sent_header(old(self)@, max_size as nat)
            } else {
                old(self).header
            },
            r is Ok <==> old(self).questions@.len() <= MAX_COUNT && old(buffer).model().cursor + sent(
                old(buffer).model().labels,
                old(buffer).model().cursor,
                old(self)@,
                max_size as nat,
            ).bytes.len() <= old(buffer).model().limit,
            r is Ok ==> final(buffer).model() == appended(
                old(buffer).model(),
                sent(
                    old(buffer).model().labels,
                    old(buffer).model().cursor,
                    old(self)@,
                    max_size as nat,
                ),
            ),
            r matches Err(e) ==> e == DnsError::BufferEnd,
    {
        if self.questions.len() > MAX_COUNT {
            return Err(DnsError::BufferEnd);
        }
        let counts = self.settle(max_size);
        self.write_sent(counts, buffer)
    }

    /// Finds how many records of each section are sent, and makes the header
    /// the one that is sent.
    fn settle(&mut self, max_size: usize) -> (k: (usize, usize, usize))
        requires
            old(self).questions@.len() <= MAX_COUNT,
        ensures
            final(self).questions == old(self).questions,
            final(self).answers == old(self).answers,
            final(self).authorities == old(self).authorities,
            final(self).resources == old(self).resources,
            final(self).header == sent_header(old(self)@, max_size as nat),
            final(self)@ == sent_packet(old(self)@, max_size as nat),
            accepted(old(self)@, max_size as nat) == (Accepted {
                answers: k.0 as int,
                authorities: k.1 as int,
                resources: k.2 as int,
            }),
            k.0 <= old(self).answers@.len(),
            k.1 <= old(self).authorities@.len(),
            k.2 <= old(self).resources@.len(),
    {
        let counts = self.measure(max_size);
        let cut = counts.0 < self.answers.len() || counts.1 < self.authorities.len() || counts.2
            < self.resources.len();
        self.header.truncated_message = self.header.truncated_message || cut;
        self.header.questions = self.questions.len() as u16;
        self.header.answers = count_emitted(&self.answers, counts.0);
        self.header.authoritative_entries = count_emitted(&self.authorities, counts.1);
        self.header.resource_entries = count_emitted(&self.resources, counts.2);
        counts
    }

    /// Writes the header, the questions, and the first `k` records of each
    /// section.
    #[verifier::rlimit(40)]
    fn write_sent<T: PacketBuffer>(&self, k: (usize, usize, usize), buffer: &mut T) -> (r: Result<
        (),
        DnsError,
    >)
        requires
            old(buffer).wf(),
            k.0 <= self.answers@.len(),
            k.1 <= self.authorities@.len(),
            k.2 <= self.resources@.len(),
        ensures
            final(buffer).wf(),
            final(buffer).model().limit == old(buffer).model().limit,
            r is Ok <==> old(buffer).model().cursor + layout(
                old(buffer).model().labels,
                old(buffer).model().cursor,
                self@,
                Accepted { answers: k.0 as int, authorities: k.1 as int, resources: k.2 as int },
            ).bytes.len() <= old(buffer).model().limit,
            r is Ok ==> final(buffer).model() == appended(
                old(buffer).model(),
                layout(
                    old(buffer).model().labels,
                    old(buffer).model().cursor,
                    self@,
                    Accepted { answers: k.0 as int, authorities: k.1 as int, resources: k.2 as int },
                ),
            ),
            r matches Err(e) ==> e == DnsError::BufferEnd,
    {
        let ghost p = self@;
        let ghost m0 = buffer.model();
        let ghost head = raw(m0.labels, header_wire(self.header));
        self.header.write(buffer)?;
        write_questions(&self.questions, buffer, Ghost(m0), Ghost(head))?;
        let ghost q = emit_questions(m0.labels, m0.cursor + 12, p.questions, p.questions.len() as int);
        let ghost e1 = and_then(head, q);
        write_records(&self.answers, k.0, buffer, Ghost(m0), Ghost(e1))?;
        let ghost a = emit_records(q.labels, m0.cursor + 12 + q.bytes.len(), p.answers, k.0 as int);
        let ghost e2 = and_then(e1, a);
        write_records(&self.authorities, k.1, buffer, Ghost(m0), Ghost(e2))?;
        let ghost b = emit_records(
            a.labels,
            m0.cursor + 12 + q.bytes.len() + a.bytes.len(),
            p.authorities,
            k.1 as int,
        );
        let ghost e3 = and_then(e2, b);
        write_records(&self.resources, k.2, buffer, Ghost(m0), Ghost(e3))?;
        Ok(())
    }

    /// How many records of each section are sent in a message of at most
    /// `max_size` octets.
    fn measure(&self, max_size: usize) -> (k: (usize, usize, usize))
        ensures
            k.0 == accepted(self@, max_size as nat).answers,
            k.1 == accepted(self@, max_size as nat).authorities,
            k.2 == accepted(self@, max_size as nat).resources,
            k.0 <= self.answers@.len() && k.0 <= MAX_COUNT,
            k.1 <= self.authorities@.len() && k.1 <= MAX_COUNT,
            k.2 <= self.resources@.len() && k.2 <= MAX_COUNT,
    {
        let mut scratch = VectorPacketBuffer::new();
        proof {
            reveal(accepted);
        }
        let ghost fresh = scratch.model();
        let ghost head = raw(fresh.labels, header_wire(self.header));
        let ghost q = emit_questions(
            Map::empty(),
            12,
            self@.questions,
            self@.questions.len() as int,
        );
        let _ = self.header.write(&mut scratch);
        match write_questions(&self.questions, &mut scratch, Ghost(fresh), Ghost(head)) {
            Ok(()) => {},
            Err(_) => {
                return (0, 0, 0);
            },
        }
        let answers = measure_section(&mut scratch, &self.answers, max_size);
        if answers < self.answers.len() {
            return (answers, 0, 0);
        }
        let authorities = measure_section(&mut scratch, &self.authorities, max_size);
        if authorities < self.authorities.len() {
            return (answers, authorities, 0);
        }
        let resources = measure_section(&mut scratch, &self.resources, max_size);
        (answers, authorities, resources)
    }
}

} // verus!
