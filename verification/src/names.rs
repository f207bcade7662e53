use vstd::prelude::*;
use vstd::utf8::decode_utf8;
use vstd::utf8::valid_utf8;
use crate::buffer::BufferModel;
use crate::buffer::LabelRef;
use crate::buffer::overlay;
use crate::errors::DnsError;

verus! {

/// The number of pointer jumps that a reader follows in one name.
pub const MAX_JUMPS: usize = 5;

/// The longest label of a name that is compressed.
pub const MAX_LABEL_LEN: usize = 63;

/// The octet that separates the labels of a name in text.
pub const DOT: u8 = 0x2E;

/// The first octet of a pointer holds this and the high bits of the offset.
pub const POINTER_MARK: u8 = 0xC0;

/// One more than the largest offset that a pointer can hold.
pub const POINTER_RANGE: usize = 0x4000;

/// The index of the first dot at or behind `from`, or the length of `name`
/// where there is none: the end of the label that starts at `from`.
pub open spec fn label_end(name: Seq<u8>, from: int) -> int
    decreases name.len() - from,
{
    if from < 0 || from >= name.len() {
        from
    } else if name[from] == DOT {
        from
    } else {
        label_end(name, from + 1)
    }
}

/// A label ends at or behind its start, and inside the name.
pub proof fn lemma_label_end(name: Seq<u8>, from: int)
    requires
        0 <= from <= name.len(),
    ensures
        from <= label_end(name, from) <= name.len(),
        label_end(name, from) < name.len() ==> name[label_end(name, from)] == DOT,
        forall|i: int| from <= i < label_end(name, from) ==> name[i] != DOT,
    decreases name.len() - from,
{
    if from < name.len() && name[from] != DOT {
        lemma_label_end(name, from + 1);
    }
}

/// Whether each label from the one at `from` on has 1 to 63 octets.
pub open spec fn labels_valid(name: Seq<u8>, from: int) -> bool
    decreases name.len() + 1 - from,
{
    if from < 0 {
        false
    } else if from > name.len() {
        true
    } else {
        let end = label_end(name, from);
        proof {
            lemma_label_end(name, from);
        }
        from < end && end - from <= MAX_LABEL_LEN && labels_valid(name, end + 1)
    }
}

/// Whether `name` is empty or made of labels of 1 to 63 octets. Only such
/// names are compressed and remembered.
pub open spec fn valid_name(name: Seq<u8>) -> bool {
    name.len() == 0 || labels_valid(name, 0)
}

/// Whether a pointer to `target` can be written and followed.
pub open spec fn usable(target: LabelRef) -> bool {
    target.offset < POINTER_RANGE && target.hops < MAX_JUMPS
}

/// Whether `labels` holds `key` at a place that a pointer can name.
pub open spec fn usable_key(labels: Map<Seq<u8>, LabelRef>, key: Seq<u8>) -> bool {
    labels.contains_key(key) && usable(labels[key])
}

/// The two octets of a pointer to `offset`.
pub open spec fn pointer(offset: u16) -> Seq<u8> {
    seq![(POINTER_MARK + offset / 256) as u8, (offset % 256) as u8]
}

/// One label on the wire: its length, then its octets.
pub open spec fn label_wire(name: Seq<u8>, from: int, end: int) -> Seq<u8> {
    seq![((end - from) % 256) as u8] + name.subrange(from, end)
}

/// The wire form of the labels of `name` from the one at `from` on: the first
/// rest of the name that `labels` holds becomes a pointer. An empty label ends
/// the name, as the zero octet does on the wire.
pub open spec fn packed_from(labels: Map<Seq<u8>, LabelRef>, name: Seq<u8>, from: int) -> Seq<u8>
    decreases name.len() + 1 - from,
{
    if from < 0 || from >= name.len() {
        seq![0u8]
    } else if usable_key(labels, name.skip(from)) {
        pointer(labels[name.skip(from)].offset)
    } else {
        let end = label_end(name, from);
        proof {
            lemma_label_end(name, from);
        }
        if end <= from {
            seq![0u8]
        } else {
            label_wire(name, from, end) + packed_from(labels, name, end + 1)
        }
    }
}

/// The number of jumps that a reader of `packed_from` makes.
pub open spec fn packed_hops(labels: Map<Seq<u8>, LabelRef>, name: Seq<u8>, from: int) -> nat
    decreases name.len() + 1 - from,
{
    if from < 0 || from >= name.len() {
        0
    } else if usable_key(labels, name.skip(from)) {
        (labels[name.skip(from)].hops + 1) as nat
    } else {
        let end = label_end(name, from);
        proof {
            lemma_label_end(name, from);
        }
        if end <= from {
            0
        } else {
            packed_hops(labels, name, end + 1)
        }
    }
}

/// `labels` with `key` at `at`, where a pointer can name that place.
pub open spec fn remember(labels: Map<Seq<u8>, LabelRef>, key: Seq<u8>, at: nat, hops: nat) -> Map<
    Seq<u8>,
    LabelRef,
> {
    if at < POINTER_RANGE {
        labels.insert(key, LabelRef { offset: at as u16, hops: hops as u8 })
    } else {
        labels
    }
}

/// The table after a valid name was written at `at`: `acc` with each rest of
/// the name that was written out in full, up to the first that `seen` holds.
pub open spec fn packed_labels(
    seen: Map<Seq<u8>, LabelRef>,
    acc: Map<Seq<u8>, LabelRef>,
    name: Seq<u8>,
    from: int,
    at: nat,
    hops: nat,
) -> Map<Seq<u8>, LabelRef>
    decreases name.len() + 1 - from,
{
    if from < 0 || from >= name.len() {
        acc
    } else if usable_key(seen, name.skip(from)) {
        acc
    } else {
        let end = label_end(name, from);
        proof {
            lemma_label_end(name, from);
        }
        if end <= from {
            acc
        } else {
            packed_labels(
                seen,
                remember(acc, name.skip(from), at, hops),
                name,
                end + 1,
                (at + 1 + end - from) as nat,
                hops,
            )
        }
    }
}

/// The wire form of `name` without pointers.
pub open spec fn plain_wire(name: Seq<u8>) -> Seq<u8> {
    packed_from(Map::empty(), name, 0)
}

/// The part of the table that `write_qname` consults for `name`: all of it
/// for a valid name, nothing for another.
pub open spec fn consulted(labels: Map<Seq<u8>, LabelRef>, name: Seq<u8>) -> Map<Seq<u8>, LabelRef> {
    if valid_name(name) {
        labels
    } else {
        Map::empty()
    }
}

/// What `write_qname` writes for `name` into a buffer whose table is `labels`.
pub open spec fn name_wire(labels: Map<Seq<u8>, LabelRef>, name: Seq<u8>) -> Seq<u8> {
    packed_from(consulted(labels, name), name, 0)
}

/// The buffer after `write_qname` has written `name` into it.
pub open spec fn written_name(before: BufferModel, name: Seq<u8>) -> BufferModel {
    BufferModel {
        bytes: overlay(before.bytes, before.cursor, name_wire(before.labels, name)),
        cursor: before.cursor + name_wire(before.labels, name).len(),
        limit: before.limit,
        labels: name_saved(before.labels, before.cursor, name),
    }
}

/// The table after `write_qname` has written `name` at `at`.
pub open spec fn name_saved(labels: Map<Seq<u8>, LabelRef>, at: nat, name: Seq<u8>) -> Map<
    Seq<u8>,
    LabelRef,
> {
    if valid_name(name) {
        packed_labels(labels, labels, name, 0, at, packed_hops(labels, name, 0))
    } else {
        labels
    }
}

/// The labels of the name that starts at `at`, and the index behind the first
/// stretch of it: behind its zero octet, or behind its first pointer. At most
/// `jumps` pointers are followed.
pub open spec fn walk(bytes: Seq<u8>, at: int, jumps: nat) -> Result<(Seq<Seq<u8>>, int), DnsError>
    decreases jumps, bytes.len() - at,
{
    if at < 0 || at >= bytes.len() {
        Err(DnsError::BufferEnd)
    } else if bytes[at] >= POINTER_MARK {
        if jumps == 0 {
            Err(DnsError::NameLimit)
        } else if at + 1 >= bytes.len() {
            Err(DnsError::BufferEnd)
        } else {
            match walk(bytes, (bytes[at] - POINTER_MARK) * 256 + bytes[at + 1], (jumps - 1) as nat) {
                Ok((labels, _)) => Ok((labels, at + 2)),
                Err(e) => Err(e),
            }
        }
    } else if bytes[at] == 0 {
        Ok((Seq::empty(), at + 1))
    } else if at + 1 + bytes[at] > bytes.len() {
        Err(DnsError::BufferEnd)
    } else {
        match walk(bytes, at + 1 + bytes[at], jumps) {
            Ok((labels, end)) => Ok((seq![bytes.subrange(at + 1, at + 1 + bytes[at])] + labels, end)),
            Err(e) => Err(e),
        }
    }
}

/// A name that was read ends behind its start and inside the octets.
pub proof fn lemma_walk_end(bytes: Seq<u8>, at: int, jumps: nat)
    ensures
        walk(bytes, at, jumps) matches Ok((_, end)) ==> 0 <= at < end <= bytes.len(),
    decreases jumps, bytes.len() - at,
{
    if 0 <= at < bytes.len() && bytes[at] < POINTER_MARK && bytes[at] != 0 && at + 1 + bytes[at]
        <= bytes.len() {
        lemma_walk_end(bytes, at + 1 + bytes[at], jumps);
    }
}

/// The text that `String::from_utf8_lossy` makes of octets that are not UTF-8.
pub uninterp spec fn lossy_text(bytes: Seq<u8>) -> Seq<char>;

/// The text of one label.
pub open spec fn text_of(label: Seq<u8>) -> Seq<char> {
    if valid_utf8(label) {
        decode_utf8(label)
    } else {
        lossy_text(label)
    }
}

/// The labels as text, with a dot between each two.
pub open spec fn join_text(labels: Seq<Seq<u8>>) -> Seq<char>
    decreases labels.len(),
{
    if labels.len() == 0 {
        Seq::empty()
    } else if labels.len() == 1 {
        text_of(labels[0])
    } else {
        join_text(labels.drop_last()) + seq!['.'] + text_of(labels.last())
    }
}

/// What `read_qname` reads at `at`: the name as text and where the cursor
/// stands afterwards, or the error.
pub open spec fn read_name(bytes: Seq<u8>, at: int) -> Result<(Seq<char>, int), DnsError> {
    match walk(bytes, at, MAX_JUMPS as nat) {
        Ok((labels, end)) => Ok((join_text(labels), end)),
        Err(e) => Err(e),
    }
}

/// The text of `bytes`: `String::from_utf8_lossy`. Octets that are UTF-8 give
/// the text that they encode; of others the result is only named.
#[verifier::external_body]
pub(crate) fn lossy_string(bytes: &[u8]) -> (s: String)
    ensures
        s@ == if valid_utf8(bytes@) {
            decode_utf8(bytes@)
        } else {
            lossy_text(bytes@)
        },
{
    String::from_utf8_lossy(bytes).into_owned()
}

/// The end of the label that starts at `from`.
pub fn find_label_end(name: &[u8], from: usize) -> (end: usize)
    requires
        from <= name@.len(),
    ensures
        end == label_end(name@, from as int),
        from <= end <= name@.len(),
{
    let mut end: usize = from;
    while end < name.len() && name[end] != DOT
        invariant
            from <= end <= name@.len(),
            label_end(name@, from as int) == label_end(name@, end as int),
        decreases name@.len() - end,
    {
        end = end + 1;
    }
    end
}

/// Whether `name` is empty or made of labels of 1 to 63 octets.
pub fn is_valid_name(name: &[u8]) -> (r: bool)
    ensures
        r == valid_name(name@),
{
    if name.len() == 0 {
        return true;
    }
    let mut from: usize = 0;
    loop
        invariant
            from <= name@.len(),
            name@.len() > 0,
            labels_valid(name@, 0) == labels_valid(name@, from as int),
        decreases name@.len() - from,
    {
        let end = find_label_end(name, from);
        if end == from || end - from > MAX_LABEL_LEN {
            return false;
        }
        if end == name.len() {
            assert(labels_valid(name@, end + 1));
            return true;
        }
        from = end + 1;
    }
}

/// The number of octets of `name` on the wire without pointers, if it fits a
/// `usize`.
pub fn plain_len(name: &[u8]) -> (r: Option<usize>)
    ensures
        r == if plain_wire(name@).len() <= usize::MAX {
            Some(plain_wire(name@).len() as usize)
        } else {
            None::<usize>
        },
{
    let ghost none = Map::<Seq<u8>, LabelRef>::empty();
    let mut from: usize = 0;
    loop
        invariant
            from <= name@.len(),
            none == Map::<Seq<u8>, LabelRef>::empty(),
            plain_wire(name@).len() == from + packed_from(none, name@, from as int).len(),
        decreases name@.len() - from,
    {
        if from >= name.len() {
            return from.checked_add(1);
        }
        let end = find_label_end(name, from);
        if end == from {
            return from.checked_add(1);
        }
        if end == name.len() {
            assert(packed_from(none, name@, end + 1) =~= seq![0u8]);
            return match end.checked_add(1) {
                Some(v) => v.checked_add(1),
                None => None,
            };
        }
        from = end + 1;
    }
}

} // verus!
