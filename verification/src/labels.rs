use vstd::prelude::*;
use vstd::slice::slice_to_vec;
use crate::buffer::LabelRef;
use crate::buffer::lookup;

verus! {

/// One name of the table and the place where it was written.
pub struct LabelEntry {
    pub key: Vec<u8>,
    pub target: LabelRef,
}

/// The names that were written into a buffer. A name that is saved twice
/// keeps the later place.
pub struct LabelTable {
    entries: Vec<LabelEntry>,
}

/// The map that a list of entries stands for: later entries win.
pub open spec fn entries_map(entries: Seq<LabelEntry>) -> Map<Seq<u8>, LabelRef>
    decreases entries.len(),
{
    if entries.len() == 0 {
        Map::empty()
    } else {
        entries_map(entries.drop_last()).insert(entries.last().key@, entries.last().target)
    }
}

/// Whether two slices hold the same octets.
pub fn same_bytes(a: &[u8], b: &[u8]) -> (r: bool)
    ensures
        r == (a@ == b@),
{
    if a.len() != b.len() {
        return false;
    }
    let mut i: usize = 0;
    while i < a.len()
        invariant
            i <= a@.len(),
            a@.len() == b@.len(),
            a@.take(i as int) == b@.take(i as int),
        decreases a@.len() - i,
    {
        if a[i] != b[i] {
            return false;
        }
        assert(a@.take(i + 1) =~= a@.take(i as int).push(a@[i as int]));
        assert(b@.take(i + 1) =~= b@.take(i as int).push(b@[i as int]));
        i = i + 1;
    }
    assert(a@.take(a@.len() as int) =~= a@);
    assert(b@.take(b@.len() as int) =~= b@);
    true
}

impl View for LabelTable {
    type V = Map<Seq<u8>, LabelRef>;

    closed spec fn view(&self) -> Map<Seq<u8>, LabelRef> {
        entries_map(self.entries@)
    }
}

impl LabelTable {
    /// A table without names.
    pub fn new() -> (t: LabelTable)
        ensures
            t@ == Map::<Seq<u8>, LabelRef>::empty(),
    {
        LabelTable { entries: Vec::new() }
    }

    /// The place of `key`, if the table holds it.
    pub fn find(&self, key: &[u8]) -> (r: Option<LabelRef>)
        ensures
            r == lookup(self@, key@),
    {
        let mut i: usize = self.entries.len();
        assert(self.entries@.take(i as int) =~= self.entries@);
        while i > 0
            invariant
                i <= self.entries@.len(),
                lookup(self@, key@) == lookup(entries_map(self.entries@.take(i as int)), key@),
            decreases i,
        {
            let ghost upto = self.entries@.take(i as int);
            assert(upto.drop_last() =~= self.entries@.take(i - 1));
            if same_bytes(self.entries[i - 1].key.as_slice(), key) {
                return Some(self.entries[i - 1].target);
            }
            i = i - 1;
        }
        None
    }

    /// Records that `key` stands at `target`.
    pub fn save(&mut self, key: &[u8], target: LabelRef)
        ensures
            final(self)@ == old(self)@.insert(key@, target),
    {
        let entry = LabelEntry { key: slice_to_vec(key), target };
        self.entries.push(entry);
        assert(self.entries@.drop_last() =~= old(self).entries@);
    }
}

} // verus!
