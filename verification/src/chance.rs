use vstd::prelude::*;

verus! {

/// A number from the random generator of the thread: `rand::random`. Nothing
/// is known of the number. The generator stops the program where the system
/// cannot seed it.
#[verifier::external_body]
pub(crate) fn random_number() -> (r: u64) {
    rand::random::<u64>()
}

/// The item that the number `r` picks: the one at index `r` modulo the number
/// of items. Nothing is picked from no items.
pub open spec fn pick<T>(items: Seq<T>, r: u64) -> Option<T> {
    if items.len() == 0 {
        None
    } else {
        Some(items[r as int % items.len() as int])
    }
}

/// The index that the number `r` picks of `len` items.
pub fn pick_index(len: usize, r: u64) -> (i: usize)
    requires
        len > 0,
    ensures
        i == r as int % len as int,
        i < len,
{
    (r % (len as u64)) as usize
}

} // verus!
