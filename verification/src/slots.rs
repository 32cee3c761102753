//! Tables whose entries keep their position while they live.
use crate::sums::total;
use crate::sums::total_push;
use crate::sums::total_update;
use vstd::prelude::*;

verus! {

/// `after` is `before` with `value` put into a position that was free: a hole,
/// or the end.
pub open spec fn placed<T>(
    before: Seq<Option<T>>,
    after: Seq<Option<T>>,
    slot: int,
    value: T,
) -> bool {
    ||| slot == before.len() && after == before.push(Some(value))
    ||| 0 <= slot < before.len() && before[slot] is None && after == before.update(
        slot,
        Some(value),
    )
}

/// The entry at a position, if one lives there.
pub open spec fn live<T>(slots: Seq<Option<T>>, slot: int) -> bool {
    0 <= slot < slots.len() && slots[slot] is Some
}

/// Puts a value into the first free position.
pub fn place<T>(slots: &mut Vec<Option<T>>, value: T) -> (slot: usize)
    ensures
        placed(old(slots)@, final(slots)@, slot as int, value),
{
    let mut index: usize = 0;
    let len: usize = slots.len();
    while index < len
        invariant
            index <= len,
            len == slots@.len(),
            slots@ == old(slots)@,
        decreases len - index,
    {
        if slots[index].is_none() {
            slots.set(index, Some(value));
            return index;
        }
        index += 1;
    }
    slots.push(Some(value));
    len
}

/// A new entry adds its measure to a sum in which holes count nothing.
pub proof fn total_placed<T>(
    before: Seq<Option<T>>,
    after: Seq<Option<T>>,
    slot: int,
    value: T,
    f: spec_fn(Option<T>) -> int,
)
    requires
        placed(before, after, slot, value),
        f(None) == 0,
    ensures
        total(after, f) == total(before, f) + f(Some(value)),
{
    if slot == before.len() {
        total_push(before, Some(value), f);
    } else {
        total_update(before, slot, Some(value), f);
    }
}

} // verus!
