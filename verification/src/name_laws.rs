use vstd::prelude::*;
use vstd::utf8::char_u32_cast;
use vstd::utf8::decode_first_scalar;
use vstd::utf8::decode_utf8;
use vstd::utf8::decode_utf8_split;
use vstd::utf8::encode_utf8_decode_utf8;
use vstd::utf8::encode_utf8_valid_utf8;
use vstd::utf8::is_char_boundary_iff_not_is_continuation_byte;
use vstd::utf8::pop_first_scalar;
use vstd::utf8::valid_utf8;
use vstd::utf8::valid_utf8_split;
use crate::buffer::BufferModel;
use crate::buffer::LabelRef;
use crate::errors::DnsError;
use crate::names::consulted;
use crate::names::DOT;
use crate::names::join_text;
use crate::names::label_end;
use crate::names::label_wire;
use crate::names::labels_valid;
use crate::names::lemma_label_end;
use crate::names::MAX_JUMPS;
use crate::names::packed_from;
use crate::names::packed_hops;
use crate::names::packed_labels;
use crate::names::pointer;
use crate::names::POINTER_MARK;
use crate::names::POINTER_RANGE;
use crate::names::read_name;
use crate::names::remember;
use crate::names::text_of;
use crate::names::usable;
use crate::names::usable_key;
use crate::names::valid_name;
use crate::names::walk;
use crate::names::written_name;
use crate::wire::octets;

verus! {

/// The longest label that a reader takes for a label: a longer one has a
/// length octet that marks a pointer.
pub const MAX_READABLE_LABEL: usize = 191;

/// The labels of `name` from the one at `from` on, up to the first empty one.
pub open spec fn labels_from(name: Seq<u8>, from: int) -> Seq<Seq<u8>>
    decreases name.len() + 1 - from,
{
    if from < 0 || from >= name.len() {
        Seq::empty()
    } else {
        let end = label_end(name, from);
        proof {
            lemma_label_end(name, from);
        }
        if end <= from {
            Seq::empty()
        } else {
            seq![name.subrange(from, end)] + labels_from(name, end + 1)
        }
    }
}

/// Whether each label from the one at `from` on has 1 to 191 octets: such a
/// name is read back as it was written.
pub open spec fn labels_readable(name: Seq<u8>, from: int) -> bool
    decreases name.len() + 1 - from,
{
    if from < 0 {
        false
    } else if from > name.len() {
        true
    } else {
        let end = label_end(name, from);
        proof {
            lemma_label_end(name, from);
        }
        from < end && end - from <= MAX_READABLE_LABEL && labels_readable(name, end + 1)
    }
}

/// Whether `name` is empty or made of labels of 1 to 191 octets.
pub open spec fn readable_name(name: Seq<u8>) -> bool {
    name.len() == 0 || labels_readable(name, 0)
}

/// Whether each name of `labels` that a pointer can name is read at its place
/// in `bytes`, with the jumps that the table allows it.
#[verifier::opaque]
pub open spec fn resolves(bytes: Seq<u8>, labels: Map<Seq<u8>, LabelRef>) -> bool {
    forall|key: Seq<u8>| #[trigger]
        labels.contains_key(key) && usable(labels[key]) ==> (walk(
            bytes,
            labels[key].offset as int,
            labels[key].hops as nat,
        ) matches Ok((found, _)) && found == labels_from(key, 0))
}

/// A table without names resolves in any octets.
pub proof fn lemma_resolves_nothing(bytes: Seq<u8>)
    ensures
        resolves(bytes, Map::empty()),
{
    reveal(resolves);
}

/// A valid name is readable.
pub proof fn lemma_valid_readable(name: Seq<u8>, from: int)
    requires
        labels_valid(name, from),
    ensures
        labels_readable(name, from),
    decreases name.len() + 1 - from,
{
    if 0 <= from <= name.len() {
        lemma_label_end(name, from);
        lemma_valid_readable(name, label_end(name, from) + 1);
    }
}

/// What was read stays what it was when octets are added at the end.
pub proof fn lemma_walk_extend(bytes: Seq<u8>, more: Seq<u8>, at: int, jumps: nat)
    requires
        walk(bytes, at, jumps) is Ok,
    ensures
        walk(bytes + more, at, jumps) == walk(bytes, at, jumps),
    decreases jumps, bytes.len() - at,
{
    let all = bytes + more;
    assert(0 <= at < bytes.len());
    assert(all[at] == bytes[at]);
    if bytes[at] >= POINTER_MARK {
        assert(all[at + 1] == bytes[at + 1]);
        lemma_walk_extend(
            bytes,
            more,
            (bytes[at] - POINTER_MARK) * 256 + bytes[at + 1],
            (jumps - 1) as nat,
        );
    } else if bytes[at] != 0 {
        lemma_walk_extend(bytes, more, at + 1 + bytes[at], jumps);
        assert(all.subrange(at + 1, at + 1 + bytes[at]) =~= bytes.subrange(
            at + 1,
            at + 1 + bytes[at],
        ));
    }
}

/// What was read with few jumps is read with more.
pub proof fn lemma_walk_more_jumps(bytes: Seq<u8>, at: int, jumps: nat, more: nat)
    requires
        walk(bytes, at, jumps) is Ok,
        jumps <= more,
    ensures
        walk(bytes, at, more) == walk(bytes, at, jumps),
    decreases jumps, bytes.len() - at,
{
    if bytes[at] >= POINTER_MARK {
        lemma_walk_more_jumps(
            bytes,
            (bytes[at] - POINTER_MARK) * 256 + bytes[at + 1],
            (jumps - 1) as nat,
            (more - 1) as nat,
        );
    } else if bytes[at] != 0 {
        lemma_walk_more_jumps(bytes, at + 1 + bytes[at], jumps, more);
    }
}

/// A table that resolves in `bytes` resolves when octets are added at the end.
pub proof fn lemma_resolves_extend(bytes: Seq<u8>, more: Seq<u8>, labels: Map<Seq<u8>, LabelRef>)
    requires
        resolves(bytes, labels),
    ensures
        resolves(bytes + more, labels),
{
    reveal(resolves);
    assert forall|key: Seq<u8>| #[trigger]
        labels.contains_key(key) && usable(labels[key]) implies (walk(
        bytes + more,
        labels[key].offset as int,
        labels[key].hops as nat,
    ) matches Ok((found, _)) && found == labels_from(key, 0)) by {
        lemma_walk_extend(bytes, more, labels[key].offset as int, labels[key].hops as nat);
    }
}

/// The end of a label does not depend on what stands before its start.
pub proof fn lemma_label_end_skip(name: Seq<u8>, skipped: int, from: int)
    requires
        0 <= skipped <= name.len(),
        0 <= from,
    ensures
        label_end(name.skip(skipped), from) == label_end(name, skipped + from) - skipped,
    decreases name.len() - skipped - from,
{
    let rest = name.skip(skipped);
    if from < rest.len() {
        assert(rest[from] == name[skipped + from]);
        if rest[from] != DOT {
            lemma_label_end_skip(name, skipped, from + 1);
        }
    }
}

/// The labels of the rest of a name are the labels of the name from there on.
pub proof fn lemma_labels_skip(name: Seq<u8>, skipped: int, from: int)
    requires
        0 <= skipped <= name.len(),
        0 <= from,
    ensures
        labels_from(name.skip(skipped), from) == labels_from(name, skipped + from),
    decreases name.len() + 1 - skipped - from,
{
    let rest = name.skip(skipped);
    if from < rest.len() {
        lemma_label_end_skip(name, skipped, from);
        lemma_label_end(name, skipped + from);
        let end = label_end(rest, from);
        if end > from {
            lemma_labels_skip(name, skipped, end + 1);
            assert(rest.subrange(from, end) =~= name.subrange(skipped + from, skipped + end));
        }
    }
}

/// A name is never written with more jumps than a reader follows.
pub proof fn lemma_packed_hops(labels: Map<Seq<u8>, LabelRef>, name: Seq<u8>, from: int)
    ensures
        packed_hops(labels, name, from) <= MAX_JUMPS,
    decreases name.len() + 1 - from,
{
    if 0 <= from < name.len() && !usable_key(labels, name.skip(from)) {
        lemma_label_end(name, from);
        if label_end(name, from) > from {
            lemma_packed_hops(labels, name, label_end(name, from) + 1);
        }
    }
}

/// The octets of a pointer name the offset that it was made of.
pub proof fn lemma_pointer(offset: u16)
    requires
        offset < POINTER_RANGE,
    ensures
        pointer(offset).len() == 2,
        pointer(offset)[0] >= POINTER_MARK,
        (pointer(offset)[0] - POINTER_MARK) * 256 + pointer(offset)[1] == offset,
{
    let high = offset / 256;
    let low = offset % 256;
    assert(high < 64);
    assert(offset == high * 256 + low);
}

/// A name that was written with `packed_from` is read back, label for label:
/// where its octets stand at `at` in `bytes`, where the names of the table
/// that was consulted are read at their places, and where the reader may make
/// the jumps that the name needs.
pub proof fn lemma_packed_read(
    bytes: Seq<u8>,
    labels: Map<Seq<u8>, LabelRef>,
    name: Seq<u8>,
    from: int,
    at: int,
    jumps: nat,
)
    requires
        0 <= from,
        from >= name.len() || labels_readable(name, from),
        0 <= at,
        at + packed_from(labels, name, from).len() <= bytes.len(),
        bytes.subrange(at, at + packed_from(labels, name, from).len()) == packed_from(
            labels,
            name,
            from,
        ),
        resolves(bytes, labels),
        packed_hops(labels, name, from) <= jumps,
    ensures
        walk(bytes, at, jumps) == Ok::<(Seq<Seq<u8>>, int), DnsError>(
            (labels_from(name, from), at + packed_from(labels, name, from).len()),
        ),
    decreases name.len() + 1 - from,
{
    reveal(resolves);
    let wire = packed_from(labels, name, from);
    let there = bytes.subrange(at, at + wire.len());
    if from >= name.len() {
        assert(there[0] == bytes[at]);
    } else if usable_key(labels, name.skip(from)) {
        let key = name.skip(from);
        let target = labels[key];
        lemma_pointer(target.offset);
        assert(there[0] == bytes[at]);
        assert(there[1] == bytes[at + 1]);
        assert(labels.contains_key(key) && usable(labels[key]));
        lemma_walk_more_jumps(bytes, target.offset as int, target.hops as nat, (jumps - 1) as nat);
        lemma_labels_skip(name, from, 0);
    } else {
        lemma_label_end(name, from);
        let end = label_end(name, from);
        let label = label_wire(name, from, end);
        let rest = packed_from(labels, name, end + 1);
        assert(wire == label + rest);
        assert(label.len() == 1 + end - from);
        assert(there[0] == bytes[at]);
        assert(bytes[at] == end - from);
        let next = at + 1 + (end - from);
        assert(bytes.subrange(next as int, next + rest.len()) =~= there.subrange(
            1 + (end - from),
            wire.len() as int,
        ));
        assert(there.subrange(1 + (end - from), wire.len() as int) =~= rest);
        lemma_packed_read(bytes, labels, name, end + 1, next, jumps);
        assert(bytes.subrange(at + 1, next) =~= there.subrange(1, 1 + (end - from)));
        assert(there.subrange(1, 1 + (end - from)) =~= name.subrange(from, end));
    }
}

/// The table that `packed_labels` makes resolves where the table before did:
/// each rest of the name that is remembered is read at its place.
pub proof fn lemma_packed_saved(
    bytes: Seq<u8>,
    seen: Map<Seq<u8>, LabelRef>,
    acc: Map<Seq<u8>, LabelRef>,
    name: Seq<u8>,
    from: int,
    at: nat,
    hops: nat,
)
    requires
        0 <= from,
        from >= name.len() || labels_readable(name, from),
        at + packed_from(seen, name, from).len() <= bytes.len(),
        bytes.subrange(at as int, (at + packed_from(seen, name, from).len()) as int) == packed_from(
            seen,
            name,
            from,
        ),
        resolves(bytes, seen),
        resolves(bytes, acc),
        hops == packed_hops(seen, name, from),
    ensures
        resolves(bytes, packed_labels(seen, acc, name, from, at, hops)),
    decreases name.len() + 1 - from,
{
    reveal(resolves);
    if from < name.len() && !usable_key(seen, name.skip(from)) {
        lemma_label_end(name, from);
        lemma_packed_hops(seen, name, from);
        let end = label_end(name, from);
        let key = name.skip(from);
        let wire = packed_from(seen, name, from);
        let there = bytes.subrange(at as int, (at + wire.len()) as int);
        let rest = packed_from(seen, name, end + 1);
        let next = at + 1 + (end - from);
        let more = remember(acc, key, at, hops);
        assert(wire == label_wire(name, from, end) + rest);
        assert(bytes.subrange(next as int, next + rest.len()) =~= there.subrange(
            1 + (end - from),
            wire.len() as int,
        ));
        assert(there.subrange(1 + (end - from), wire.len() as int) =~= rest);
        assert(resolves(bytes, more)) by {
            lemma_packed_read(bytes, seen, name, from, at as int, hops);
            lemma_labels_skip(name, from, 0);
            assert forall|other: Seq<u8>| #[trigger]
                more.contains_key(other) && usable(more[other]) implies (walk(
                bytes,
                more[other].offset as int,
                more[other].hops as nat,
            ) matches Ok((found, _)) && found == labels_from(other, 0)) by {
                if other != key || at >= POINTER_RANGE {
                    assert(acc.contains_key(other) && usable(acc[other]));
                }
            }
        }
        lemma_packed_saved(bytes, seen, more, name, end + 1, next as nat, hops);
    }
}

/// The text of a label and of what follows it: the two with a dot between.
pub proof fn lemma_join_first(first: Seq<u8>, rest: Seq<Seq<u8>>)
    ensures
        join_text(seq![first] + rest) == if rest.len() == 0 {
            text_of(first)
        } else {
            text_of(first) + seq!['.'] + join_text(rest)
        },
    decreases rest.len(),
{
    let all = seq![first] + rest;
    if rest.len() == 0 {
        assert(all =~= seq![first]);
    } else {
        assert(all.drop_last() =~= seq![first] + rest.drop_last());
        assert(all.last() == rest.last());
        lemma_join_first(first, rest.drop_last());
        if rest.len() == 1 {
            assert(rest.drop_last().len() == 0);
            assert(rest[0] == rest.last());
        } else {
            assert(join_text(all) =~= text_of(first) + seq!['.'] + join_text(rest));
        }
    }
}

/// A dot in octets that are UTF-8 is a character of its own: the octets
/// before it and those behind it are UTF-8, and the text is the two texts
/// with a dot between.
pub proof fn lemma_split_at_dot(bytes: Seq<u8>, at: int)
    requires
        valid_utf8(bytes),
        0 <= at < bytes.len(),
        bytes[at] == DOT,
    ensures
        valid_utf8(bytes.subrange(0, at)),
        valid_utf8(bytes.skip(at + 1)),
        decode_utf8(bytes) == decode_utf8(bytes.subrange(0, at)) + seq!['.'] + decode_utf8(
            bytes.skip(at + 1),
        ),
{
    is_char_boundary_iff_not_is_continuation_byte(bytes, at);
    valid_utf8_split(bytes, at);
    decode_utf8_split(bytes, at);
    let tail = bytes.subrange(at, bytes.len() as int);
    assert(tail[0] == DOT);
    assert(pop_first_scalar(tail) =~= bytes.skip(at + 1));
    assert(0x2Eu8 & 0x7f == 0x2E) by (bit_vector);
    assert(decode_first_scalar(tail) == 0x2E);
    char_u32_cast('.', 0x2Eu32);
    assert(decode_utf8(tail) == seq!['.'] + decode_utf8(bytes.skip(at + 1)));
    assert(decode_utf8(bytes) =~= decode_utf8(bytes.subrange(0, at)) + seq!['.'] + decode_utf8(
        bytes.skip(at + 1),
    ));
}

/// The labels of a readable name that is UTF-8, joined by dots, are its text.
pub proof fn lemma_labels_text(name: Seq<u8>, from: int)
    requires
        0 <= from < name.len(),
        valid_utf8(name.skip(from)),
        labels_readable(name, from),
    ensures
        labels_from(name, from).len() > 0,
        join_text(labels_from(name, from)) == decode_utf8(name.skip(from)),
    decreases name.len() - from,
{
    lemma_label_end(name, from);
    let end = label_end(name, from);
    let here = name.skip(from);
    let label = name.subrange(from, end);
    let rest = labels_from(name, end + 1);
    lemma_join_first(label, rest);
    if end == name.len() {
        assert(label =~= here);
        assert(rest.len() == 0);
    } else {
        assert(here[end - from] == DOT);
        lemma_split_at_dot(here, end - from);
        assert(here.subrange(0, end - from) =~= label);
        assert(here.skip(end - from + 1) =~= name.skip(end + 1));
        lemma_label_end(name, end + 1);
        assert(labels_readable(name, end + 1));
        assert(end + 1 < name.len()) by {
            if end + 1 == name.len() {
                assert(label_end(name, end + 1) == end + 1);
            }
        }
        lemma_labels_text(name, end + 1);
    }
}

/// A name is read as it was written: where `name` has no empty label and no
/// label of more than 191 octets, where the cursor of the buffer stands in or
/// at the end of its octets, and where the names of its table are read at
/// their places before the cursor, reading at the place where `write_qname`
/// wrote `name` gives `name`, character for character, and ends where the
/// writing ended; and the names of the table are read at their places still.
pub proof fn lemma_name_round_trip(before: BufferModel, name: Seq<char>)
    requires
        before.cursor <= before.bytes.len(),
        resolves(before.bytes.take(before.cursor as int), before.labels),
        readable_name(octets(name)),
    ensures
        read_name(written_name(before, octets(name)).bytes, before.cursor as int) == Ok::<
            (Seq<char>, int),
            DnsError,
        >((name, written_name(before, octets(name)).cursor as int)),
        resolves(
            written_name(before, octets(name)).bytes.take(
                written_name(before, octets(name)).cursor as int,
            ),
            written_name(before, octets(name)).labels,
        ),
{
    reveal(resolves);
    let raw_name = octets(name);
    let after = written_name(before, raw_name);
    let seen = consulted(before.labels, raw_name);
    let wire = packed_from(seen, raw_name, 0);
    let start = before.cursor as int;
    let head = before.bytes.take(start);
    let upto = after.bytes.take(after.cursor as int);
    let tail = after.bytes.skip(after.cursor as int);
    assert(upto =~= head + wire);
    assert(after.bytes =~= upto + tail);
    lemma_resolves_extend(head, wire, before.labels);
    lemma_resolves_extend(upto, tail, before.labels);
    assert(resolves(after.bytes, seen));
    assert(resolves(upto, seen));
    lemma_packed_hops(seen, raw_name, 0);
    if valid_name(raw_name) && raw_name.len() > 0 {
        lemma_valid_readable(raw_name, 0);
    }
    assert(after.bytes.subrange(start, start + wire.len()) =~= wire);
    lemma_packed_read(after.bytes, seen, raw_name, 0, start, MAX_JUMPS as nat);
    encode_utf8_valid_utf8(name);
    encode_utf8_decode_utf8(name);
    if raw_name.len() > 0 {
        assert(raw_name.skip(0) =~= raw_name);
        lemma_labels_text(raw_name, 0);
    } else {
        assert(decode_utf8(raw_name) =~= Seq::<char>::empty());
    }
    if valid_name(raw_name) {
        assert(upto.subrange(start, start + wire.len()) =~= wire);
        lemma_packed_saved(
            upto,
            seen,
            seen,
            raw_name,
            0,
            before.cursor,
            packed_hops(seen, raw_name, 0),
        );
    }
}

/// Where the first pointer of the name at `at` leads, if the name has one:
/// the labels before the pointer are passed over.
pub open spec fn next_hop(bytes: Seq<u8>, at: int) -> Option<int>
    decreases bytes.len() - at,
{
    if at < 0 || at >= bytes.len() {
        None
    } else if bytes[at] >= POINTER_MARK {
        if at + 1 >= bytes.len() {
            None
        } else {
            Some((bytes[at] - POINTER_MARK) * 256 + bytes[at + 1])
        }
    } else if bytes[at] == 0 || at + 1 + bytes[at] > bytes.len() {
        None
    } else {
        next_hop(bytes, at + 1 + bytes[at])
    }
}

/// Where the name at `at` leads after `n` pointers, if it has as many.
pub open spec fn hop(bytes: Seq<u8>, at: int, n: nat) -> Option<int>
    decreases n,
{
    if n == 0 {
        Some(at)
    } else {
        match next_hop(bytes, at) {
            None => None,
            Some(target) => hop(bytes, target, (n - 1) as nat),
        }
    }
}

/// Whether the pointers of the name at `at` lead in a circle: after some
/// pointers the name is at a place where it was before.
pub open spec fn cyclic(bytes: Seq<u8>, at: int) -> bool {
    exists|n: nat, m: nat| m > 0 && hop(bytes, at, n) is Some && #[trigger] hop(bytes, at, n + m)
        == hop(bytes, at, n)
}

/// A name that has a pointer is read as what the pointer leads to, with one
/// jump less; without a jump left it is refused.
proof fn lemma_walk_hop(bytes: Seq<u8>, at: int, jumps: nat)
    requires
        next_hop(bytes, at) is Some,
    ensures
        jumps == 0 ==> walk(bytes, at, jumps) == Err::<(Seq<Seq<u8>>, int), DnsError>(
            DnsError::NameLimit,
        ),
        jumps > 0 && walk(bytes, next_hop(bytes, at)->0, (jumps - 1) as nat) == Err::<
            (Seq<Seq<u8>>, int),
            DnsError,
        >(DnsError::NameLimit) ==> walk(bytes, at, jumps) == Err::<(Seq<Seq<u8>>, int), DnsError>(
            DnsError::NameLimit,
        ),
    decreases bytes.len() - at,
{
    if bytes[at] < POINTER_MARK {
        lemma_walk_hop(bytes, at + 1 + bytes[at], jumps);
    }
}

/// A name with more pointers in a row than the reader may follow is refused.
proof fn lemma_many_hops(bytes: Seq<u8>, at: int, jumps: nat)
    requires
        forall|k: nat| 1 <= k <= jumps + 1 ==> #[trigger] hop(bytes, at, k) is Some,
    ensures
        walk(bytes, at, jumps) == Err::<(Seq<Seq<u8>>, int), DnsError>(DnsError::NameLimit),
    decreases jumps,
{
    assert(hop(bytes, at, 1) is Some);
    let target = next_hop(bytes, at)->0;
    lemma_walk_hop(bytes, at, jumps);
    if jumps > 0 {
        assert forall|k: nat| 1 <= k <= jumps implies #[trigger] hop(bytes, target, k) is Some by {
            assert(hop(bytes, at, k + 1) is Some);
        }
        lemma_many_hops(bytes, target, (jumps - 1) as nat);
    }
}

/// Following `a` pointers and then `b` is following `a + b`.
proof fn lemma_hop_sum(bytes: Seq<u8>, at: int, a: nat, b: nat)
    requires
        hop(bytes, at, a) is Some,
    ensures
        hop(bytes, at, a + b) == hop(bytes, hop(bytes, at, a)->0, b),
    decreases a,
{
    if a > 0 {
        lemma_hop_sum(bytes, next_hop(bytes, at)->0, (a - 1) as nat, b);
    }
}

/// A name that has `more` pointers has fewer.
proof fn lemma_hop_fewer(bytes: Seq<u8>, at: int, fewer: nat, more: nat)
    requires
        hop(bytes, at, more) is Some,
        fewer <= more,
    ensures
        hop(bytes, at, fewer) is Some,
    decreases fewer,
{
    if fewer > 0 {
        lemma_hop_fewer(bytes, next_hop(bytes, at)->0, (fewer - 1) as nat, (more - 1) as nat);
    }
}

/// A name whose pointers lead in a circle has any number of pointers.
proof fn lemma_cycle_hops(bytes: Seq<u8>, at: int, n: nat, m: nat, k: nat)
    requires
        m > 0,
        hop(bytes, at, n) is Some,
        hop(bytes, at, n + m) == hop(bytes, at, n),
    ensures
        hop(bytes, at, k) is Some,
    decreases k,
{
    if k <= n + m {
        lemma_hop_fewer(bytes, at, k, n + m);
    } else {
        let rest = (k - n - m) as nat;
        lemma_hop_sum(bytes, at, n + m, rest);
        lemma_hop_sum(bytes, at, n, rest);
        lemma_cycle_hops(bytes, at, n, m, (k - m) as nat);
    }
}

/// A name whose pointers lead in a circle is refused for its jumps, however
/// many jumps the reader may make: reading it ends, and ends with
/// `NameLimit`.
pub proof fn lemma_cycle_is_refused(bytes: Seq<u8>, at: int)
    requires
        cyclic(bytes, at),
    ensures
        forall|jumps: nat| #[trigger]
            walk(bytes, at, jumps) == Err::<(Seq<Seq<u8>>, int), DnsError>(DnsError::NameLimit),
        read_name(bytes, at) == Err::<(Seq<char>, int), DnsError>(DnsError::NameLimit),
{
    let (n, m) = choose|n: nat, m: nat|
        m > 0 && hop(bytes, at, n) is Some && #[trigger] hop(bytes, at, n + m) == hop(bytes, at, n);
    assert forall|jumps: nat| #[trigger]
        walk(bytes, at, jumps) == Err::<(Seq<Seq<u8>>, int), DnsError>(DnsError::NameLimit) by {
        assert forall|k: nat| 1 <= k <= jumps + 1 implies #[trigger] hop(bytes, at, k) is Some by {
            lemma_cycle_hops(bytes, at, n, m, k);
        }
        lemma_many_hops(bytes, at, jumps);
    }
    assert(walk(bytes, at, MAX_JUMPS as nat) == Err::<(Seq<Seq<u8>>, int), DnsError>(
        DnsError::NameLimit,
    ));
}

/// A pointer that leads to itself leads in a circle.
pub proof fn lemma_pointer_to_itself(bytes: Seq<u8>, at: int)
    requires
        0 <= at,
        at + 1 < bytes.len(),
        bytes[at] >= POINTER_MARK,
        (bytes[at] - POINTER_MARK) * 256 + bytes[at + 1] == at,
    ensures
        cyclic(bytes, at),
{
    assert(hop(bytes, at, 0) == Some(at));
    assert(hop(bytes, at, 1) == Some(at)) by {
        reveal_with_fuel(hop, 2);
    }
    assert(hop(bytes, at, (0 + 1) as nat) == hop(bytes, at, 0));
}

} // verus!
