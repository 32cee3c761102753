//! Bounded reuse of empty buffers by backing capacity.
use vstd::arithmetic::power2::lemma2_to64;
use vstd::arithmetic::power2::lemma2_to64_rest;
use vstd::arithmetic::power2::lemma_pow2_strictly_increases;
use vstd::arithmetic::power2::lemma_pow2_unfold;
use vstd::arithmetic::power2::pow2;
use vstd::prelude::*;

verus! {

/// One bucket for each power of two that a capacity can be.
pub const BUCKETS: usize = 64;

/// The bucket whose buffers serve a request: the smallest power of two that is
/// large enough.
pub open spec fn serves(index: int, minimum: int) -> bool {
    &&& 0 <= index < BUCKETS
    &&& minimum <= pow2(index as nat)
    &&& index > 0 ==> pow2((index - 1) as nat) < minimum
}

/// What all retained buffers together hold.
pub open spec fn held(counts: Seq<nat>) -> int
    decreases counts.len(),
{
    if counts.len() == 0 {
        0
    } else {
        held(counts.drop_last()) + counts.last() * pow2((counts.len() - 1) as nat)
    }
}

/// A bucket above `index` with buffers, and none above it.
pub open spec fn widest(counts: Seq<nat>, index: int, wide: int) -> bool {
    &&& index < wide < counts.len()
    &&& counts[wide] > 0
    &&& forall|j: int| wide < j < counts.len() ==> #[trigger] counts[j] == 0
}

#[verifier::ext_equal]
pub struct BuffersView {
    /// Retained buffers of each capacity.
    pub counts: Seq<nat>,
    pub limit: usize,
    /// Elements take no storage, so nothing is worth retaining.
    pub zero_sized: bool,
}

impl BuffersView {
    pub open spec fn wf(self) -> bool {
        self.counts.len() == BUCKETS && held(self.counts) <= self.limit
    }

    pub open spec fn counted(self, index: int, count: int) -> BuffersView {
        BuffersView { counts: self.counts.update(index, count as nat), ..self }
    }

    /// A buffer of this capacity is of a kind that is retained.
    pub open spec fn canonical(self, index: int, capacity: usize) -> bool {
        &&& !self.zero_sized
        &&& 0 < capacity <= self.limit
        &&& 0 <= index < BUCKETS
        &&& pow2(index as nat) == capacity
    }

    /// Room is left for a buffer of this capacity.
    pub open spec fn fits(self, capacity: usize) -> bool {
        held(self.counts) + capacity <= self.limit
    }

    /// What becomes of the pool when a buffer of a canonical capacity comes
    /// back. A class that is absent may displace one buffer of the widest class
    /// above it, so that a cold wide class cannot keep all of the room.
    pub open spec fn released(self, index: int, capacity: usize, after: BuffersView) -> bool {
        if self.fits(capacity) {
            after == self.counted(index, self.counts[index] as int + 1)
        } else if self.counts[index] > 0 || forall|j: int|
            index < j < BUCKETS ==> #[trigger] self.counts[j] == 0 {
            after == self
        } else {
            exists|wide: int| #[trigger]
                widest(self.counts, index, wide) && after == self.counted(
                    wide,
                    self.counts[wide] - 1,
                ).counted(index, 1)
        }
    }
}

proof fn held_updated(counts: Seq<nat>, i: int, count: nat)
    requires
        0 <= i < counts.len(),
    ensures
        held(counts.update(i, count)) == held(counts) + (count - counts[i]) * pow2(i as nat),
    decreases counts.len(),
{
    let w = counts.update(i, count);
    let n = counts.len() - 1;
    if i == n {
        assert(w.drop_last() =~= counts.drop_last());
        let p = pow2(i as nat) as int;
        assert(count * p == counts[i] * p + (count - counts[i]) * p) by (nonlinear_arith);
    } else {
        assert(w.drop_last() =~= counts.drop_last().update(i, count));
        held_updated(counts.drop_last(), i, count);
    }
}

/// A retained buffer is part of what the pool holds.
proof fn held_covers(counts: Seq<nat>, i: int)
    requires
        0 <= i < counts.len(),
    ensures
        counts[i] * pow2(i as nat) <= held(counts),
        0 <= held(counts),
    decreases counts.len(),
{
    let n = counts.len() - 1;
    let p = pow2(n as nat) as int;
    let c = counts[n] as int;
    assert(0 <= c * p) by (nonlinear_arith)
        requires
            c >= 0,
            p >= 0,
    ;
    if i == n {
        held_is_natural(counts.drop_last());
    } else {
        held_covers(counts.drop_last(), i);
    }
}

proof fn held_is_natural(counts: Seq<nat>)
    ensures
        0 <= held(counts),
    decreases counts.len(),
{
    if counts.len() > 0 {
        held_is_natural(counts.drop_last());
        let p = pow2((counts.len() - 1) as nat) as int;
        let c = counts.last() as int;
        assert(0 <= c * p) by (nonlinear_arith)
            requires
                c >= 0,
                p >= 0,
        ;
    }
}

proof fn nothing_held(counts: Seq<nat>)
    requires
        forall|i: int| 0 <= i < counts.len() ==> #[trigger] counts[i] == 0,
    ensures
        held(counts) == 0,
    decreases counts.len(),
{
    if counts.len() > 0 {
        nothing_held(counts.drop_last());
    }
}

/// A bucket for requests of at least `minimum`, where a power of two that large
/// can be represented.
pub fn bucket_index(minimum: usize) -> (index: Option<usize>)
    ensures
        match index {
            Some(index) => minimum > 0 && serves(index as int, minimum as int) && pow2(
                index as nat,
            ) <= usize::MAX,
            None => minimum == 0 || forall|i: int| #[trigger]
                serves(i, minimum as int) ==> pow2(i as nat) > usize::MAX,
        },
{
    if minimum == 0 {
        return None;
    }
    proof {
        lemma2_to64();
        lemma2_to64_rest();
    }
    let mut index: usize = 0;
    let mut power: usize = 1;
    while power < minimum
        invariant
            minimum > 0,
            index < BUCKETS,
            power == pow2(index as nat),
            index > 0 ==> pow2((index - 1) as nat) < minimum,
            pow2(64) == 0x10000000000000000,
        decreases BUCKETS - index,
    {
        proof {
            lemma_pow2_unfold((index + 1) as nat);
        }
        match power.checked_mul(2) {
            None => {
                proof {
                    assert forall|i: int| #[trigger] serves(i, minimum as int) implies pow2(
                        i as nat,
                    ) > usize::MAX by {
                        if i <= index {
                            if i < index {
                                lemma_pow2_strictly_increases(i as nat, index as nat);
                            }
                        } else if i > index + 1 {
                            lemma_pow2_strictly_increases((index + 1) as nat, i as nat);
                        }
                    }
                }
                return None;
            },
            Some(next) => {
                proof {
                    if index == 63 {
                        assert(pow2(64) == 2 * pow2(63));
                    }
                }
                power = next;
                index += 1;
            },
        }
    }
    Some(index)
}

/// What serves a request for storage.
pub enum BufferGrant<T> {
    /// A retained empty buffer.
    Reused(Vec<T>),
    /// A new buffer of this capacity.
    Allocate(usize),
}

/// Each bucket holds buffers with one exact power-of-two capacity. A checkout
/// therefore takes a suitable buffer directly, without probing unrelated
/// capacities.
pub struct BufferPool<T> {
    buckets: Vec<Vec<Vec<T>>>,
    capacity: usize,
    limit: usize,
    zero_sized: bool,
}

/// Retained buffers of each bucket.
pub open spec fn counts_of<T>(buckets: Seq<Vec<Vec<T>>>) -> Seq<nat> {
    buckets.map_values(|bucket: Vec<Vec<T>>| bucket@.len())
}

impl<T> View for BufferPool<T> {
    type V = BuffersView;

    closed spec fn view(&self) -> BuffersView {
        BuffersView {
            counts: counts_of(self.buckets@),
            limit: self.limit,
            zero_sized: self.zero_sized,
        }
    }
}

impl<T> BufferPool<T> {
    /// Only empty buffers are retained, and what they hold is known.
    pub closed spec fn sound(self) -> bool {
        &&& self.capacity == held(self@.counts)
        &&& forall|i: int, j: int|
            0 <= i < self.buckets@.len() && 0 <= j < self.buckets@[i]@.len() ==> (
            #[trigger] self.buckets@[i]@[j])@.len() == 0
    }

    pub open spec fn wf(self) -> bool {
        self@.wf() && self.sound()
    }

    /// A pool that retains at most `limit` elements' worth of storage.
    pub fn new(limit: usize, zero_sized: bool) -> (pool: Self)
        ensures
            pool.wf(),
            pool@.limit == limit,
            pool@.zero_sized == zero_sized,
            forall|i: int| 0 <= i < BUCKETS ==> #[trigger] pool@.counts[i] == 0,
    {
        let mut buckets: Vec<Vec<Vec<T>>> = Vec::new();
        while buckets.len() < BUCKETS
            invariant
                buckets@.len() <= BUCKETS,
                forall|i: int| 0 <= i < buckets@.len() ==> (#[trigger] buckets@[i])@.len() == 0,
            decreases BUCKETS - buckets@.len(),
        {
            buckets.push(Vec::new());
        }
        let pool = BufferPool { buckets, capacity: 0, limit, zero_sized };
        proof {
            assert forall|i: int| 0 <= i < BUCKETS implies #[trigger] pool@.counts[i] == 0 by {
                assert(pool.buckets@[i]@.len() == 0);
            }
            nothing_held(pool@.counts);
        }
        pool
    }

    /// Storage for at least `minimum` elements.
    pub fn acquire(&mut self, minimum: usize) -> (grant: BufferGrant<T>)
        requires
            old(self).wf(),
        ensures
            final(self).wf(),
            match grant {
                BufferGrant::Reused(buffer) => {
                    &&& buffer@.len() == 0
                    &&& !old(self)@.zero_sized && minimum > 0
                    &&& exists|index: int| #[trigger]
                        serves(index, minimum as int) && old(self)@.counts[index] > 0
                            && final(self)@ == old(self)@.counted(
                            index,
                            old(self)@.counts[index] - 1,
                        )
                },
                BufferGrant::Allocate(capacity) => {
                    &&& final(self)@ == old(self)@
                    &&& if old(self)@.zero_sized || minimum == 0 {
                        capacity == 0
                    } else {
                        ||| exists|index: int| #[trigger]
                            serves(index, minimum as int) && capacity == pow2(index as nat)
                                && old(self)@.counts[index] == 0
                        ||| capacity == minimum && forall|index: int| #[trigger]
                            serves(index, minimum as int) ==> pow2(index as nat) > usize::MAX
                    }
                },
            },
    {
        if self.zero_sized || minimum == 0 {
            return BufferGrant::Allocate(0);
        }
        let index: usize = match bucket_index(minimum) {
            Some(index) => index,
            None => {
                return BufferGrant::Allocate(minimum);
            },
        };
        let ghost v = self@;
        let power: usize = power_of(index);
        if self.buckets[index].len() > 0 {
            proof {
                assert(v.counts[index as int] == self.buckets@[index as int]@.len());
                let c = v.counts[index as int] as int;
                let p = pow2(index as nat) as int;
                held_covers(v.counts, index as int);
                assert(p <= c * p) by (nonlinear_arith)
                    requires
                        c >= 1,
                        p >= 0,
                ;
                held_updated(v.counts, index as int, (c - 1) as nat);
                assert((c - 1 - c) * p == -p) by (nonlinear_arith);
            }
            let count: usize = self.buckets[index].len();
            let ghost before = self.buckets@;
            let buffer = self.buckets[index].remove(count - 1);
            self.capacity = self.capacity - power;
            proof {
                self.bucket_changed(before, index as int);
                assert(serves(index as int, minimum as int));
                assert(before[index as int]@[count - 1]@.len() == 0);
                assert forall|i: int, j: int|
                    0 <= i < self.buckets@.len() && 0 <= j < self.buckets@[i]@.len() implies (
                #[trigger] self.buckets@[i]@[j])@.len() == 0 by {
                    if i != index {
                        assert(self.buckets@[i] == before[i]);
                    }
                    assert(before[i]@[j]@.len() == 0);
                }
            }
            return BufferGrant::Reused(buffer);
        }
        proof {
            assert(serves(index as int, minimum as int));
            assert(v.counts[index as int] == self.buckets@[index as int]@.len());
        }
        BufferGrant::Allocate(power)
    }

    proof fn bucket_changed(self, before: Seq<Vec<Vec<T>>>, index: int)
        requires
            0 <= index < before.len(),
            self.buckets@.len() == before.len(),
            forall|i: int|
                0 <= i < before.len() && i != index ==> #[trigger] self.buckets@[i] == before[i],
        ensures
            self@.counts == counts_of(before).update(index, self.buckets@[index]@.len()),
    {
        let left = self@.counts;
        let right = counts_of(before).update(index, self.buckets@[index]@.len());
        assert forall|i: int| 0 <= i < left.len() implies left[i] == right[i] by {
            if i != index {
                assert(self.buckets@[i] == before[i]);
            }
        }
        assert(left =~= right);
    }

    /// Returns an empty buffer of this backing capacity. Buffers of other than
    /// a power of two, and those for which there is no room, are not retained.
    pub fn release(&mut self, buffer: Vec<T>, capacity: usize)
        requires
            old(self).wf(),
            buffer@.len() == 0,
        ensures
            final(self).wf(),
            forall|index: int| #[trigger]
                old(self)@.canonical(index, capacity) ==> old(self)@.released(
                    index,
                    capacity,
                    final(self)@,
                ),
            (forall|index: int| !#[trigger] old(self)@.canonical(index, capacity)) ==> final(self)@
                == old(self)@,
    {
        if self.zero_sized || capacity == 0 || capacity > self.limit {
            return;
        }
        let ghost v = self@;
        let index: usize = match bucket_index(capacity) {
            Some(index) => index,
            None => {
                proof {
                    assert forall|i: int| !#[trigger] v.canonical(i, capacity) by {
                        if v.canonical(i, capacity) {
                            if i > 0 {
                                lemma_pow2_strictly_increases((i - 1) as nat, i as nat);
                            }
                            assert(serves(i, capacity as int));
                        }
                    }
                }
                return;
            },
        };
        let power: usize = power_of(index);
        proof {
            assert forall|i: int| #[trigger] v.canonical(i, capacity) implies i == index by {
                if i < index {
                    if i < index - 1 {
                        lemma_pow2_strictly_increases(i as nat, (index - 1) as nat);
                    }
                } else if i > index {
                    lemma_pow2_strictly_increases(index as nat, i as nat);
                }
            }
        }
        if power != capacity {
            return;
        }
        proof {
            assert(v.canonical(index as int, capacity));
            assert(v.counts[index as int] == self.buckets@[index as int]@.len());
        }
        if capacity > self.limit - self.capacity {
            if self.buckets[index].len() > 0 {
                return;
            }
            let mut wide: usize = BUCKETS - 1;
            while wide > index && self.buckets[wide].len() == 0
                invariant
                    self@ == v,
                    self.wf(),
                    index <= wide < BUCKETS,
                    forall|j: int| wide < j < BUCKETS ==> #[trigger] v.counts[j] == 0,
                decreases wide,
            {
                proof {
                    assert(v.counts[wide as int] == self.buckets@[wide as int]@.len());
                }
                wide -= 1;
            }
            if wide == index {
                return;
            }
            let wide_power: usize = self.wide_power(wide);
            let count: usize = self.buckets[wide].len();
            proof {
                let c = v.counts[wide as int] as int;
                assert(v.counts[wide as int] == self.buckets@[wide as int]@.len());
                let p = pow2(wide as nat) as int;
                held_covers(v.counts, wide as int);
                assert(p <= c * p) by (nonlinear_arith)
                    requires
                        c >= 1,
                        p >= 0,
                ;
                held_updated(v.counts, wide as int, (c - 1) as nat);
                assert((c - 1 - c) * p == -p) by (nonlinear_arith);
                lemma_pow2_strictly_increases(index as nat, wide as nat);
                assert(widest(v.counts, index as int, wide as int));
            }
            let ghost before = self.buckets@;
            let _ = self.buckets[wide].remove(count - 1);
            self.capacity = self.capacity - wide_power;
            proof {
                self.bucket_changed(before, wide as int);
                assert forall|i: int, j: int|
                    0 <= i < self.buckets@.len() && 0 <= j < self.buckets@[i]@.len() implies (
                #[trigger] self.buckets@[i]@[j])@.len() == 0 by {
                    if i != wide {
                        assert(self.buckets@[i] == before[i]);
                    }
                    assert(before[i]@[j]@.len() == 0);
                }
            }
        }
        let ghost m = self@;
        proof {
            let c = m.counts[index as int] as int;
            assert(c == self.buckets@[index as int]@.len());
            let p = pow2(index as nat) as int;
            held_updated(m.counts, index as int, (c + 1) as nat);
            assert((c + 1 - c) * p == p) by (nonlinear_arith);
        }
        let ghost before = self.buckets@;
        self.capacity = self.capacity + capacity;
        self.buckets[index].push(buffer);
        proof {
            self.bucket_changed(before, index as int);
            assert forall|i: int, j: int|
                0 <= i < self.buckets@.len() && 0 <= j < self.buckets@[i]@.len() implies (
            #[trigger] self.buckets@[i]@[j])@.len() == 0 by {
                if i != index {
                    assert(self.buckets@[i] == before[i]);
                    assert(before[i]@[j]@.len() == 0);
                } else if j < before[i]@.len() {
                    assert(before[i]@[j]@.len() == 0);
                }
            }
        }
    }

    /// The capacity of the buffers of a bucket that has some.
    fn wide_power(&self, wide: usize) -> (power: usize)
        requires
            self.wf(),
            wide < BUCKETS,
            self@.counts[wide as int] > 0,
        ensures
            power == pow2(wide as nat),
    {
        proof {
            let c = self@.counts[wide as int] as int;
            let p = pow2(wide as nat) as int;
            held_covers(self@.counts, wide as int);
            assert(p <= c * p) by (nonlinear_arith)
                requires
                    c >= 1,
                    p >= 0,
            ;
        }
        power_of(wide)
    }
}

/// A power of two that can be represented.
fn power_of(exponent: usize) -> (power: usize)
    requires
        pow2(exponent as nat) <= usize::MAX,
    ensures
        power == pow2(exponent as nat),
{
    let mut power: usize = 1;
    let mut index: usize = 0;
    proof {
        lemma2_to64();
    }
    while index < exponent
        invariant
            index <= exponent,
            power == pow2(index as nat),
            pow2(exponent as nat) <= usize::MAX,
        decreases exponent - index,
    {
        proof {
            lemma_pow2_unfold((index + 1) as nat);
            if index + 1 < exponent {
                lemma_pow2_strictly_increases((index + 1) as nat, exponent as nat);
            }
        }
        power = power * 2;
        index += 1;
    }
    power
}

/// Retention stays within its limit, whatever comes back: displacing one wider
/// buffer always makes enough room.
pub proof fn retention_is_bounded(
    before: BuffersView,
    after: BuffersView,
    index: int,
    capacity: usize,
)
    requires
        before.wf(),
        before.canonical(index, capacity),
        before.released(index, capacity, after),
    ensures
        after.wf(),
{
    if before.fits(capacity) {
        let c = before.counts[index] as int;
        let p = pow2(index as nat) as int;
        held_updated(before.counts, index, (c + 1) as nat);
        assert((c + 1 - c) * p == p) by (nonlinear_arith);
    } else if !(before.counts[index] > 0 || forall|j: int|
        index < j < BUCKETS ==> #[trigger] before.counts[j] == 0) {
        let wide = choose|wide: int| #[trigger]
            widest(before.counts, index, wide) && after == before.counted(
                wide,
                before.counts[wide] - 1,
            ).counted(index, 1);
        let c = before.counts[wide] as int;
        let p = pow2(wide as nat) as int;
        held_updated(before.counts, wide, (c - 1) as nat);
        assert((c - 1 - c) * p == -p) by (nonlinear_arith);
        lemma_pow2_strictly_increases(index as nat, wide as nat);
        let m = before.counted(wide, c - 1);
        let q = pow2(index as nat) as int;
        held_updated(m.counts, index, 1);
        assert((1 - 0) * q == q) by (nonlinear_arith);
    }
}

} // verus!
