use vstd::prelude::*;
use vstd::slice::slice_subrange;
use crate::buffer::BufferModel;
use crate::buffer::LabelRef;
use crate::buffer::overlay;
use crate::buffer::PACKET_SIZE;
use crate::buffer::PacketBuffer;
use crate::errors::DnsError;
use crate::labels::LabelTable;

verus! {

/// A buffer of 512 octets, the size of a datagram.
pub struct BytePacketBuffer {
    buf: [u8; 512],
    pos: usize,
    table: LabelTable,
}

/// A buffer that grows as it is written.
pub struct VectorPacketBuffer {
    buffer: Vec<u8>,
    pos: usize,
    table: LabelTable,
}

impl BytePacketBuffer {
    /// A buffer of zeros with the cursor at the start and no names.
    pub fn new() -> (b: BytePacketBuffer)
        ensures
            b.wf(),
            b.model() == (BufferModel {
                bytes: Seq::new(512, |i: int| 0u8),
                cursor: 0,
                limit: 512,
                labels: Map::empty(),
            }),
    {
        let b = BytePacketBuffer { buf: [0u8; 512], pos: 0, table: LabelTable::new() };
        assert(b.buf@ =~= Seq::new(512, |i: int| 0u8));
        b
    }
}

impl PacketBuffer for BytePacketBuffer {
    closed spec fn wf(&self) -> bool {
        self.pos <= PACKET_SIZE
    }

    closed spec fn model(&self) -> BufferModel {
        BufferModel { bytes: self.buf@, cursor: self.pos as nat, limit: 512, labels: self.table@ }
    }

    proof fn lemma_wf(&self) {
    }

    fn pos(&self) -> (p: usize) {
        self.pos
    }

    fn capacity(&self) -> (c: usize) {
        PACKET_SIZE
    }

    fn seek(&mut self, pos: usize) -> (r: Result<(), DnsError>) {
        if pos > PACKET_SIZE {
            return Err(DnsError::BufferEnd);
        }
        self.pos = pos;
        Ok(())
    }

    fn get(&self, pos: usize) -> (r: Result<u8, DnsError>) {
        if pos >= PACKET_SIZE {
            return Err(DnsError::BufferEnd);
        }
        Ok(self.buf[pos])
    }

    fn get_range(&self, start: usize, len: usize) -> (r: Result<&[u8], DnsError>) {
        if start > PACKET_SIZE || len > PACKET_SIZE - start {
            return Err(DnsError::BufferEnd);
        }
        Ok(slice_subrange(self.buf.as_slice(), start, start + len))
    }

    fn write_u8(&mut self, val: u8) -> (r: Result<(), DnsError>) {
        if self.pos >= PACKET_SIZE {
            return Err(DnsError::BufferEnd);
        }
        self.buf[self.pos] = val;
        self.pos = self.pos + 1;
        assert(self.buf@ =~= overlay(old(self).buf@, old(self).pos as nat, seq![val]));
        Ok(())
    }

    fn set(&mut self, pos: usize, val: u8) -> (r: Result<(), DnsError>) {
        if pos >= PACKET_SIZE {
            return Err(DnsError::BufferEnd);
        }
        self.buf[pos] = val;
        assert(self.buf@ =~= overlay(old(self).buf@, pos as nat, seq![val]));
        Ok(())
    }

    fn find_label(&self, key: &[u8]) -> (r: Option<LabelRef>) {
        self.table.find(key)
    }

    fn save_label(&mut self, key: &[u8], target: LabelRef) {
        self.table.save(key, target);
    }
}

impl VectorPacketBuffer {
    /// An empty buffer with the cursor at the start and no names.
    pub fn new() -> (b: VectorPacketBuffer)
        ensures
            b.wf(),
            b.model() == (BufferModel {
                bytes: Seq::empty(),
                cursor: 0,
                limit: usize::MAX as nat,
                labels: Map::empty(),
            }),
    {
        VectorPacketBuffer { buffer: Vec::new(), pos: 0, table: LabelTable::new() }
    }

    /// Stores `val` at index `at`, which may lie behind the end.
    fn put(&mut self, at: usize, val: u8)
        requires
            at < usize::MAX,
        ensures
            final(self).buffer@ == overlay(old(self).buffer@, at as nat, seq![val]),
            final(self).buffer@.len() <= usize::MAX,
            final(self).pos == old(self).pos,
            final(self).table == old(self).table,
    {
        if at < self.buffer.len() {
            self.buffer[at] = val;
        } else {
            while self.buffer.len() < at
                invariant
                    self.pos == old(self).pos,
                    self.table == old(self).table,
                    old(self).buffer@.len() <= self.buffer@.len() <= at,
                    self.buffer@.take(old(self).buffer@.len() as int) == old(self).buffer@,
                    forall|i: int| old(self).buffer@.len() <= i < self.buffer@.len() ==> self.buffer@[i] == 0,
                decreases at - self.buffer@.len(),
            {
                let ghost before = self.buffer@;
                self.buffer.push(0);
                assert(self.buffer@.take(old(self).buffer@.len() as int) =~= before.take(
                    old(self).buffer@.len() as int,
                ));
            }
            self.buffer.push(val);
        }
        let len = self.buffer.len();
        assert(self.buffer@ =~= overlay(old(self).buffer@, at as nat, seq![val]));
    }
}

impl PacketBuffer for VectorPacketBuffer {
    closed spec fn wf(&self) -> bool {
        self.buffer@.len() <= usize::MAX
    }

    closed spec fn model(&self) -> BufferModel {
        BufferModel {
            bytes: self.buffer@,
            cursor: self.pos as nat,
            limit: usize::MAX as nat,
            labels: self.table@,
        }
    }

    proof fn lemma_wf(&self) {
    }

    fn pos(&self) -> (p: usize) {
        self.pos
    }

    fn capacity(&self) -> (c: usize) {
        usize::MAX
    }

    fn seek(&mut self, pos: usize) -> (r: Result<(), DnsError>) {
        self.pos = pos;
        Ok(())
    }

    fn get(&self, pos: usize) -> (r: Result<u8, DnsError>) {
        if pos >= self.buffer.len() {
            return Err(DnsError::BufferEnd);
        }
        Ok(self.buffer[pos])
    }

    fn get_range(&self, start: usize, len: usize) -> (r: Result<&[u8], DnsError>) {
        if start > self.buffer.len() || len > self.buffer.len() - start {
            return Err(DnsError::BufferEnd);
        }
        Ok(slice_subrange(self.buffer.as_slice(), start, start + len))
    }

    fn write_u8(&mut self, val: u8) -> (r: Result<(), DnsError>) {
        if self.pos == usize::MAX {
            return Err(DnsError::BufferEnd);
        }
        let at = self.pos;
        self.put(at, val);
        self.pos = at + 1;
        Ok(())
    }

    fn set(&mut self, pos: usize, val: u8) -> (r: Result<(), DnsError>) {
        if pos == usize::MAX {
            return Err(DnsError::BufferEnd);
        }
        self.put(pos, val);
        Ok(())
    }

    fn find_label(&self, key: &[u8]) -> (r: Option<LabelRef>) {
        self.table.find(key)
    }

    fn save_label(&mut self, key: &[u8], target: LabelRef) {
        self.table.save(key, target);
    }
}

} // verus!
