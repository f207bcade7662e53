use vstd::prelude::*;
use vstd::slice::slice_subrange;
use vstd::string::StringExecFns;
use vstd::string::StringSliceAdditionalSpecFns;
use crate::errors::DnsError;
use crate::names::consulted;
use crate::names::find_label_end;
use crate::names::is_valid_name;
use crate::names::join_text;
use crate::names::label_wire;
use crate::names::labels_valid;
use crate::names::lemma_walk_end;
use crate::names::lossy_string;
use crate::names::MAX_JUMPS;
use crate::names::name_saved;
use crate::names::name_wire;
use crate::names::packed_from;
use crate::names::packed_hops;
use crate::names::packed_labels;
use crate::names::plain_len;
use crate::names::plain_wire;
use crate::names::pointer;
use crate::names::POINTER_MARK;
use crate::names::POINTER_RANGE;
use crate::names::read_name;
use crate::names::text_of;
use crate::names::valid_name;
use crate::names::walk;
use crate::names::written_name;
pub use crate::stores::BytePacketBuffer;
pub use crate::stores::VectorPacketBuffer;

verus! {

/// The size of the fixed buffer: the largest datagram that is sent.
pub const PACKET_SIZE: usize = 512;

/// Where a name was written before, and how many pointer jumps a reader
/// makes when it starts there.
#[derive(Clone, Copy, Debug, PartialEq, Eq, Structural)]
pub struct LabelRef {
    pub offset: u16,
    pub hops: u8,
}

/// `base` with `patch` laid over it from index `at` on. The result is as long
/// as it has to be; a gap between the end of `base` and `at` holds zeros. An
/// empty patch changes nothing.
pub open spec fn overlay(base: Seq<u8>, at: nat, patch: Seq<u8>) -> Seq<u8> {
    Seq::new(
        if patch.len() == 0 || base.len() >= at + patch.len() {
            base.len()
        } else {
            at + patch.len()
        },
        |i: int|
            if at <= i < at + patch.len() {
                patch[i - at]
            } else if i < base.len() {
                base[i]
            } else {
                0u8
            },
    )
}

/// What `labels` holds under `key`, if anything.
pub open spec fn lookup(labels: Map<Seq<u8>, LabelRef>, key: Seq<u8>) -> Option<LabelRef> {
    if labels.contains_key(key) {
        Some(labels[key])
    } else {
        None
    }
}

/// What a buffer is to its callers.
pub struct BufferModel {
    /// The octets that can be read.
    pub bytes: Seq<u8>,
    /// The position of the next read or write.
    pub cursor: nat,
    /// The number of octets that the buffer can hold.
    pub limit: nat,
    /// The names that were written, each with the place where it starts.
    pub labels: Map<Seq<u8>, LabelRef>,
}

/// Only the cursor has changed, and it stands at `cursor`.
pub open spec fn moved(before: BufferModel, after: BufferModel, cursor: nat) -> bool {
    after == (BufferModel { cursor, ..before })
}

/// `data` was written at the cursor, which now stands behind it.
pub open spec fn wrote(before: BufferModel, after: BufferModel, data: Seq<u8>) -> bool {
    after == (BufferModel {
        bytes: overlay(before.bytes, before.cursor, data),
        cursor: before.cursor + data.len(),
        ..before
    })
}

/// `data` was written at index `at`; the cursor has not moved.
pub open spec fn patched(before: BufferModel, after: BufferModel, at: nat, data: Seq<u8>) -> bool {
    after == (BufferModel { bytes: overlay(before.bytes, at, data), ..before })
}

/// The two octets of a 16-bit number, most significant first.
pub open spec fn be16(val: u16) -> Seq<u8> {
    seq![(val / 256) as u8, (val % 256) as u8]
}

/// The four octets of a 32-bit number, most significant first.
pub open spec fn be32(val: u32) -> Seq<u8> {
    seq![
        (val / 0x100_0000) as u8,
        ((val / 0x1_0000) % 256) as u8,
        ((val / 256) % 256) as u8,
        (val % 256) as u8,
    ]
}

/// The 16-bit number whose octets stand at `at` and `at + 1`.
pub open spec fn u16_at(bytes: Seq<u8>, at: int) -> u16 {
    (bytes[at] as int * 256 + bytes[at + 1] as int) as u16
}

/// The 32-bit number whose octets stand at `at` to `at + 3`.
pub open spec fn u32_at(bytes: Seq<u8>, at: int) -> u32 {
    (bytes[at] as int * 0x100_0000 + bytes[at + 1] as int * 0x1_0000 + bytes[at + 2] as int * 256
        + bytes[at + 3] as int) as u32
}

/// Writing `first` and then `second` is writing the two in one piece.
pub proof fn lemma_overlay_twice(base: Seq<u8>, at: nat, first: Seq<u8>, second: Seq<u8>)
    ensures
        overlay(overlay(base, at, first), at + first.len(), second) == overlay(
            base,
            at,
            first + second,
        ),
{
    assert(overlay(overlay(base, at, first), at + first.len(), second) =~= overlay(
        base,
        at,
        first + second,
    ));
}

/// A random-access store of octets with a cursor, and a table of the names
/// that were written into it.
pub trait PacketBuffer: Sized {
    /// The invariant of the buffer.
    spec fn wf(&self) -> bool;

    /// What the buffer holds.
    spec fn model(&self) -> BufferModel;

    /// What the invariant says of the model.
    proof fn lemma_wf(&self)
        requires
            self.wf(),
        ensures
            self.model().cursor <= self.model().limit,
            self.model().bytes.len() <= self.model().limit,
            self.model().limit <= usize::MAX,
    ;

    /// The position of the cursor.
    fn pos(&self) -> (p: usize)
        requires
            self.wf(),
        ensures
            p == self.model().cursor,
    ;

    /// The number of octets that the buffer can hold.
    fn capacity(&self) -> (c: usize)
        requires
            self.wf(),
        ensures
            c == self.model().limit,
    ;

    /// Moves the cursor to `pos`.
    fn seek(&mut self, pos: usize) -> (r: Result<(), DnsError>)
        requires
            old(self).wf(),
        ensures
            final(self).wf(),
            r is Ok <==> pos <= old(self).model().limit,
            r is Ok ==> moved(old(self).model(), final(self).model(), pos as nat),
            r is Err ==> r == Err::<(), DnsError>(DnsError::BufferEnd) && final(self).model() == old(self).model(),
    ;

    /// The octet at `pos`.
    fn get(&self, pos: usize) -> (r: Result<u8, DnsError>)
        requires
            self.wf(),
        ensures
            r == if pos < self.model().bytes.len() {
                Ok::<u8, DnsError>(self.model().bytes[pos as int])
            } else {
                Err::<u8, DnsError>(DnsError::BufferEnd)
            },
    ;

    /// The `len` octets from `start` on, without moving the cursor.
    fn get_range(&self, start: usize, len: usize) -> (r: Result<&[u8], DnsError>)
        requires
            self.wf(),
        ensures
            r is Ok <==> start + len <= self.model().bytes.len(),
            r matches Ok(s) ==> s@ == self.model().bytes.subrange(start as int, start + len),
            r matches Err(e) ==> e == DnsError::BufferEnd,
    ;

    /// Writes one octet at the cursor.
    fn write_u8(&mut self, val: u8) -> (r: Result<(), DnsError>)
        requires
            old(self).wf(),
        ensures
            final(self).wf(),
            r is Ok <==> old(self).model().cursor < old(self).model().limit,
            r is Ok ==> wrote(old(self).model(), final(self).model(), seq![val]),
            r is Err ==> r == Err::<(), DnsError>(DnsError::BufferEnd) && final(self).model() == old(self).model(),
    ;

    /// Writes one octet at `pos`, without moving the cursor.
    fn set(&mut self, pos: usize, val: u8) -> (r: Result<(), DnsError>)
        requires
            old(self).wf(),
        ensures
            final(self).wf(),
            r is Ok <==> pos < old(self).model().limit,
            r is Ok ==> patched(old(self).model(), final(self).model(), pos as nat, seq![val]),
            r is Err ==> r == Err::<(), DnsError>(DnsError::BufferEnd) && final(self).model() == old(self).model(),
    ;

    /// Where the name `key` was written, if the table holds it.
    fn find_label(&self, key: &[u8]) -> (r: Option<LabelRef>)
        requires
            self.wf(),
        ensures
            r == lookup(self.model().labels, key@),
    ;

    /// Records that the name `key` stands at `target`.
    fn save_label(&mut self, key: &[u8], target: LabelRef)
        requires
            old(self).wf(),
        ensures
            final(self).wf(),
            final(self).model().bytes == old(self).model().bytes,
            final(self).model().cursor == old(self).model().cursor,
            final(self).model().limit == old(self).model().limit,
            final(self).model().labels == old(self).model().labels.insert(key@, target),
    ;

    /// Moves the cursor `steps` octets on.
    fn step(&mut self, steps: usize) -> (r: Result<(), DnsError>)
        requires
            old(self).wf(),
        ensures
            final(self).wf(),
            r is Ok <==> old(self).model().cursor + steps <= old(self).model().limit,
            r is Ok ==> moved(old(self).model(), final(self).model(), old(self).model().cursor + steps as nat),
            r is Err ==> r == Err::<(), DnsError>(DnsError::BufferEnd) && final(self).model() == old(self).model(),
    {
        let pos = self.pos();
        let cap = self.capacity();
        proof {
            self.lemma_wf();
        }
        if steps > cap - pos {
            return Err(DnsError::BufferEnd);
        }
        self.seek(pos + steps)
    }

    /// Reads the octet at the cursor.
    fn read_u8(&mut self) -> (r: Result<u8, DnsError>)
        requires
            old(self).wf(),
        ensures
            final(self).wf(),
            r is Ok <==> old(self).model().cursor < old(self).model().bytes.len(),
            r matches Ok(v) ==> v == old(self).model().bytes[old(self).model().cursor as int] && moved(old(self).model(), final(self).model(),
                old(self).model().cursor + 1,
            ),
            r matches Err(e) ==> e == DnsError::BufferEnd && final(self).model() == old(self).model(),
    {
        let pos = self.pos();
        proof {
            self.lemma_wf();
        }
        let val = self.get(pos)?;
        let _ = self.seek(pos + 1);
        Ok(val)
    }

    /// Reads a 16-bit number, most significant octet first.
    fn read_u16(&mut self) -> (r: Result<u16, DnsError>)
        requires
            old(self).wf(),
        ensures
            final(self).wf(),
            r is Ok <==> old(self).model().cursor + 2 <= old(self).model().bytes.len(),
            r matches Ok(v) ==> v == u16_at(old(self).model().bytes, old(self).model().cursor as int) && moved(old(self).model(), final(self).model(),
                old(self).model().cursor + 2,
            ),
            r matches Err(e) ==> e == DnsError::BufferEnd && final(self).model() == old(self).model(),
    {
        let pos = self.pos();
        proof {
            self.lemma_wf();
        }
        let data = self.get_range(pos, 2)?;
        let val = (data[0] as u16) * 256 + (data[1] as u16);
        let _ = self.seek(pos + 2);
        Ok(val)
    }

    /// Reads a 32-bit number, most significant octet first.
    fn read_u32(&mut self) -> (r: Result<u32, DnsError>)
        requires
            old(self).wf(),
        ensures
            final(self).wf(),
            r is Ok <==> old(self).model().cursor + 4 <= old(self).model().bytes.len(),
            r matches Ok(v) ==> v == u32_at(old(self).model().bytes, old(self).model().cursor as int) && moved(old(self).model(), final(self).model(),
                old(self).model().cursor + 4,
            ),
            r matches Err(e) ==> e == DnsError::BufferEnd && final(self).model() == old(self).model(),
    {
        let pos = self.pos();
        proof {
            self.lemma_wf();
        }
        let data = self.get_range(pos, 4)?;
        let val = (data[0] as u32) * 0x100_0000 + (data[1] as u32) * 0x1_0000 + (data[2] as u32)
            * 256 + (data[3] as u32);
        let _ = self.seek(pos + 4);
        Ok(val)
    }

    /// Writes `data` at the cursor, all of it or nothing.
    fn write_all(&mut self, data: &[u8]) -> (r: Result<(), DnsError>)
        requires
            old(self).wf(),
        ensures
            final(self).wf(),
            r is Ok <==> old(self).model().cursor + data@.len() <= old(self).model().limit,
            r is Ok ==> wrote(old(self).model(), final(self).model(), data@),
            r is Err ==> r == Err::<(), DnsError>(DnsError::BufferEnd) && final(self).model() == old(self).model(),
    {
        let pos = self.pos();
        let cap = self.capacity();
        proof {
            self.lemma_wf();
        }
        if data.len() > cap - pos {
            return Err(DnsError::BufferEnd);
        }
        let mut i: usize = 0;
        assert(overlay(self.model().bytes, self.model().cursor, data@.take(0)) =~= self.model().bytes);
        while i < data.len()
            invariant
                self.wf(),
                i <= data@.len(),
                old(self).model().cursor + data@.len() <= old(self).model().limit,
                wrote(old(self).model(), self.model(), data@.take(i as int)),
            decreases data@.len() - i,
        {
            let _ = self.write_u8(data[i]);
            proof {
                lemma_overlay_twice(
                    old(self).model().bytes,
                    old(self).model().cursor,
                    data@.take(i as int),
                    seq![data@[i as int]],
                );
                assert(data@.take(i as int) + seq![data@[i as int]] =~= data@.take(i + 1));
            }
            i = i + 1;
        }
        proof {
            assert(data@.take(data@.len() as int) =~= data@);
        }
        Ok(())
    }

    /// Writes a 16-bit number, most significant octet first.
    fn write_u16(&mut self, val: u16) -> (r: Result<(), DnsError>)
        requires
            old(self).wf(),
        ensures
            final(self).wf(),
            r is Ok <==> old(self).model().cursor + 2 <= old(self).model().limit,
            r is Ok ==> wrote(old(self).model(), final(self).model(), be16(val)),
            r is Err ==> r == Err::<(), DnsError>(DnsError::BufferEnd) && final(self).model() == old(self).model(),
    {
        let data: [u8; 2] = [(val / 256) as u8, (val % 256) as u8];
        assert(data@ =~= be16(val));
        self.write_all(data.as_slice())
    }

    /// Writes a 32-bit number, most significant octet first.
    fn write_u32(&mut self, val: u32) -> (r: Result<(), DnsError>)
        requires
            old(self).wf(),
        ensures
            final(self).wf(),
            r is Ok <==> old(self).model().cursor + 4 <= old(self).model().limit,
            r is Ok ==> wrote(old(self).model(), final(self).model(), be32(val)),
            r is Err ==> r == Err::<(), DnsError>(DnsError::BufferEnd) && final(self).model() == old(self).model(),
    {
        let data: [u8; 4] = [
            (val / 0x100_0000) as u8,
            ((val / 0x1_0000) % 256) as u8,
            ((val / 256) % 256) as u8,
            (val % 256) as u8,
        ];
        assert(data@ =~= be32(val));
        self.write_all(data.as_slice())
    }

    /// Writes a 16-bit number at `pos`, without moving the cursor.
    fn set_u16(&mut self, pos: usize, val: u16) -> (r: Result<(), DnsError>)
        requires
            old(self).wf(),
        ensures
            final(self).wf(),
            r is Ok <==> pos + 2 <= old(self).model().limit,
            r is Ok ==> patched(old(self).model(), final(self).model(), pos as nat, be16(val)),
            r is Err ==> r == Err::<(), DnsError>(DnsError::BufferEnd) && final(self).model() == old(self).model(),
    {
        let cap = self.capacity();
        if cap < 2 || pos > cap - 2 {
            return Err(DnsError::BufferEnd);
        }
        let _ = self.set(pos, (val / 256) as u8);
        let _ = self.set(pos + 1, (val % 256) as u8);
        proof {
            lemma_overlay_twice(
                old(self).model().bytes,
                pos as nat,
                seq![(val / 256) as u8],
                seq![(val % 256) as u8],
            );
            assert(seq![(val / 256) as u8] + seq![(val % 256) as u8] =~= be16(val));
        }
        Ok(())
    }

    /// Reads the name at the cursor and appends it to `outstr`, the labels
    /// joined by dots. The cursor ends behind the name: behind its zero octet,
    /// or behind the first pointer. A failed read changes nothing.
    fn read_qname(&mut self, outstr: &mut String) -> (r: Result<(), DnsError>)
        requires
            old(self).wf(),
        ensures
            final(self).wf(),
            match read_name(old(self).model().bytes, old(self).model().cursor as int) {
                Ok((text, end)) => r is Ok && final(outstr)@ == old(outstr)@ + text && moved(
                    old(self).model(),
                    final(self).model(),
                    end as nat,
                ) && old(self).model().cursor < end <= old(self).model().bytes.len(),
                Err(e) => r == Err::<(), DnsError>(e) && final(outstr)@ == old(outstr)@ && final(self).model() == old(self).model(),
            },
    {
        let start = self.pos();
        let ghost bytes = self.model().bytes;
        let mut pos: usize = start;
        let mut jumps: usize = 0;
        let mut jumped = false;
        let mut end: usize = 0;
        let mut text = String::new();
        let mut first = true;
        let ghost mut done: Seq<Seq<u8>> = Seq::empty();
        proof {
            self.lemma_wf();
            assert forall|labels: Seq<Seq<u8>>| done + labels == labels by {
                assert(done + labels =~= labels);
            }
        }
        loop
            invariant
                self.wf(),
                self.model() == old(self).model(),
                bytes == self.model().bytes,
                bytes.len() <= self.model().limit <= usize::MAX,
                start == self.model().cursor,
                outstr@ == old(outstr)@,
                jumps <= MAX_JUMPS,
                text@ == join_text(done),
                first == (done.len() == 0),
                jumped ==> end <= bytes.len(),
                walk(bytes, start as int, MAX_JUMPS as nat) == match walk(
                    bytes,
                    pos as int,
                    (MAX_JUMPS - jumps) as nat,
                ) {
                    Ok((labels, e)) => Ok::<(Seq<Seq<u8>>, int), DnsError>(
                        (
                            done + labels,
                            if jumped {
                                end as int
                            } else {
                                e
                            },
                        ),
                    ),
                    Err(e) => Err::<(Seq<Seq<u8>>, int), DnsError>(e),
                },
            decreases MAX_JUMPS - jumps, bytes.len() - pos,
        {
            let len = match self.get(pos) {
                Ok(v) => v,
                Err(e) => {
                    return Err(e);
                },
            };
            if len >= POINTER_MARK {
                if jumps >= MAX_JUMPS {
                    return Err(DnsError::NameLimit);
                }
                let low = match self.get(pos + 1) {
                    Ok(v) => v,
                    Err(e) => {
                        return Err(e);
                    },
                };
                if !jumped {
                    end = pos + 2;
                    jumped = true;
                }
                pos = ((len - POINTER_MARK) as usize) * 256 + (low as usize);
                jumps = jumps + 1;
            } else if len == 0 {
                if !jumped {
                    end = pos + 1;
                }
                assert(done + Seq::<Seq<u8>>::empty() =~= done);
                proof {
                    lemma_walk_end(bytes, start as int, MAX_JUMPS as nat);
                }
                let _ = self.seek(end);
                outstr.append(text.as_str());
                return Ok(());
            } else {
                let data = match self.get_range(pos + 1, len as usize) {
                    Ok(d) => d,
                    Err(e) => {
                        return Err(e);
                    },
                };
                if !first {
                    text.append(".");
                }
                let piece = lossy_string(data);
                text.append(piece.as_str());
                first = false;
                proof {
                    reveal_strlit(".");
                    let label = bytes.subrange(pos + 1, pos + 1 + len);
                    let next = done.push(label);
                    assert(next.drop_last() =~= done);
                    assert(piece@ == text_of(label));
                    assert("."@ =~= seq!['.']);
                    assert(text@ =~= join_text(next));
                    assert forall|labels: Seq<Seq<u8>>| done + (seq![label] + labels) == next
                        + labels by {
                        assert(done + (seq![label] + labels) =~= next + labels);
                    }
                    done = next;
                }
                pos = pos + 1 + len as usize;
            }
        }
    }

    /// The number of octets that `qname` takes on the wire without pointers;
    /// the largest number where it has more than a `usize` holds.
    fn qname_len(&self, qname: &str) -> (n: usize)
        ensures
            n == if plain_wire(qname.spec_bytes()).len() <= usize::MAX {
                plain_wire(qname.spec_bytes()).len() as int
            } else {
                usize::MAX as int
            },
    {
        match plain_len(qname.as_bytes()) {
            Some(n) => n,
            None => usize::MAX,
        }
    }

    /// Writes `qname` at the cursor, label by label, or nothing where it does
    /// not fit. The rest of a valid name that was written before becomes a
    /// pointer to it.
    fn write_qname(&mut self, qname: &str) -> (r: Result<(), DnsError>)
        requires
            old(self).wf(),
        ensures
            final(self).wf(),
            r is Ok <==> old(self).model().cursor + name_wire(
                old(self).model().labels,
                qname.spec_bytes(),
            ).len() <= old(self).model().limit,
            r is Ok ==> final(self).model() == written_name(old(self).model(), qname.spec_bytes()),
            r is Err ==> r == Err::<(), DnsError>(DnsError::BufferEnd) && final(self).model() == old(self).model(),
    {
        let name = qname.as_bytes();
        let pack = is_valid_name(name);
        let ghost start = self.model();
        let ghost seen = consulted(start.labels, name@);
        let ghost whole = packed_from(seen, name@, 0);
        // First pass: the length of the name on the wire, and its jumps.
        let mut total: Option<usize> = None;
        let mut hops: u8 = 0;
        let mut from: usize = 0;
        let mut measured = false;
        while !measured
            invariant
                self.wf(),
                self.model() == start,
                pack == valid_name(name@),
                seen == consulted(start.labels, name@),
                whole == packed_from(seen, name@, 0),
                from <= name@.len(),
                !measured ==> whole.len() == from + packed_from(seen, name@, from as int).len(),
                !measured ==> packed_hops(seen, name@, 0) == packed_hops(seen, name@, from as int),
                !measured ==> hops == 0,
                measured ==> hops == packed_hops(seen, name@, 0),
                measured ==> total == if whole.len() <= usize::MAX {
                    Some(whole.len() as usize)
                } else {
                    None::<usize>
                },
            decreases
                    if measured {
                        0
                    } else {
                        name@.len() - from + 1
                    },
        {
            let mut hit: Option<LabelRef> = None;
            if pack && from < name.len() {
                let key = slice_subrange(name, from, name.len());
                assert(key@ =~= name@.skip(from as int));
                hit = self.find_label(key);
            }
            let end = if from < name.len() {
                find_label_end(name, from)
            } else {
                from
            };
            assert(from < name@.len() ==> hit == lookup(seen, name@.skip(from as int)));
            match hit {
                Some(target) if (target.offset as usize) < POINTER_RANGE && (target.hops as usize)
                    < MAX_JUMPS => {
                    total = from.checked_add(2);
                    hops = target.hops + 1;
                    measured = true;
                },
                _ => {
                    if end == from {
                        total = from.checked_add(1);
                        measured = true;
                    } else if end == name.len() {
                        assert(packed_from(seen, name@, end + 1) =~= seq![0u8]);
                        assert(packed_hops(seen, name@, end + 1) == 0);
                        total = match end.checked_add(1) {
                            Some(v) => v.checked_add(1),
                            None => None,
                        };
                        measured = true;
                    } else {
                        from = end + 1;
                    }
                },
            }
        }
        let pos = self.pos();
        let cap = self.capacity();
        proof {
            self.lemma_wf();
        }
        match total {
            Some(len) => {
                if len > cap - pos {
                    return Err(DnsError::BufferEnd);
                }
            },
            None => {
                return Err(DnsError::BufferEnd);
            },
        }
        // Second pass: the labels, each remembered where a pointer can name it.
        let ghost mut done: Seq<u8> = Seq::empty();
        let mut from: usize = 0;
        let mut finished = false;
        proof {
            assert(overlay(start.bytes, start.cursor, done) =~= start.bytes);
            assert(done + whole =~= whole);
        }
        while !finished
            invariant
                self.wf(),
                pack == valid_name(name@),
                seen == consulted(start.labels, name@),
                whole == packed_from(seen, name@, 0),
                hops == packed_hops(seen, name@, 0),
                start.cursor + whole.len() <= start.limit,
                from <= name@.len(),
                pack && name@.len() > 0 ==> labels_valid(name@, from as int),
                !finished ==> done + packed_from(seen, name@, from as int) == whole,
                finished ==> done == whole,
                self.model().bytes == overlay(start.bytes, start.cursor, done),
                self.model().cursor == start.cursor + done.len(),
                self.model().limit == start.limit,
                !pack ==> self.model().labels == start.labels,
                !finished ==> forall|key: Seq<u8>|
                    key.len() <= name@.len() - from ==> lookup(self.model().labels, key) == lookup(
                        start.labels,
                        key,
                    ),
                pack && !finished ==> packed_labels(
                    seen,
                    self.model().labels,
                    name@,
                    from as int,
                    self.model().cursor,
                    hops as nat,
                ) == name_saved(start.labels, start.cursor, name@),
                finished ==> self.model().labels == name_saved(start.labels, start.cursor, name@),
            decreases
                    if finished {
                        0
                    } else {
                        name@.len() - from + 1
                    },
        {
            let mut hit: Option<LabelRef> = None;
            if pack && from < name.len() {
                let key = slice_subrange(name, from, name.len());
                assert(key@ =~= name@.skip(from as int));
                hit = self.find_label(key);
            }
            let end = if from < name.len() {
                find_label_end(name, from)
            } else {
                from
            };
            assert(from < name@.len() ==> hit == lookup(seen, name@.skip(from as int)));
            match hit {
                Some(target) if (target.offset as usize) < POINTER_RANGE && (target.hops as usize)
                    < MAX_JUMPS => {
                    let link: [u8; 2] = [
                        POINTER_MARK + (target.offset / 256) as u8,
                        (target.offset % 256) as u8,
                    ];
                    assert(link@ =~= pointer(target.offset));
                    let _ = self.write_all(link.as_slice());
                    proof {
                        lemma_overlay_twice(start.bytes, start.cursor, done, link@);
                        done = done + link@;
                    }
                    finished = true;
                },
                _ => {
                    if end == from {
                        let _ = self.write_u8(0);
                        proof {
                            lemma_overlay_twice(start.bytes, start.cursor, done, seq![0u8]);
                            done = done + seq![0u8];
                        }
                        finished = true;
                    } else {
                        let at = self.pos();
                        if pack && at < POINTER_RANGE {
                            let key = slice_subrange(name, from, name.len());
                            assert(key@ =~= name@.skip(from as int));
                            self.save_label(key, LabelRef { offset: at as u16, hops });
                        }
                        let ghost label = label_wire(name@, from as int, end as int);
                        let ghost rest = packed_from(seen, name@, end + 1);
                        assert(packed_from(seen, name@, from as int) == label + rest);
                        assert(done + (label + rest) =~= (done + label) + rest);
                        let _ = self.write_u8(((end - from) % 256) as u8);
                        let _ = self.write_all(slice_subrange(name, from, end));
                        proof {
                            lemma_overlay_twice(
                                start.bytes,
                                start.cursor,
                                done,
                                seq![((end - from) % 256) as u8],
                            );
                            lemma_overlay_twice(
                                start.bytes,
                                start.cursor,
                                done + seq![((end - from) % 256) as u8],
                                name@.subrange(from as int, end as int),
                            );
                            assert(done + seq![((end - from) % 256) as u8] + name@.subrange(
                                from as int,
                                end as int,
                            ) =~= done + label);
                            done = done + label;
                        }
                        if end == name.len() {
                            assert(rest =~= seq![0u8]);
                            assert(pack ==> packed_labels(
                                seen,
                                self.model().labels,
                                name@,
                                end + 1,
                                self.model().cursor,
                                hops as nat,
                            ) == self.model().labels);
                            let _ = self.write_u8(0);
                            proof {
                                lemma_overlay_twice(start.bytes, start.cursor, done, seq![0u8]);
                                done = done + seq![0u8];
                            }
                            finished = true;
                        } else {
                            from = end + 1;
                        }
                    }
                },
            }
        }
        Ok(())
    }
}

} // verus!
