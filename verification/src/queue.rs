//! Ready selection within one execution class.
//!
//! Ordinary work is first in, first out. Resource work is ordered by demand.
//! The two meet at admission age: the oldest ordinary entry goes first unless
//! the most urgent resource entry was admitted before it.
use vstd::prelude::*;

verus! {

/// A resource demand band. Lower ranks are more urgent.
#[derive(Clone, Copy, Debug, PartialEq, Eq, Structural)]
pub struct SWPriority {
    pub rank: u32,
}

impl SWPriority {
    pub fn new(rank: u32) -> (priority: Self)
        ensures
            priority.rank == rank,
    {
        SWPriority { rank }
    }
}

/// Current urgency of one resource record.
#[derive(Clone, Copy, Debug, PartialEq, Eq, Structural)]
pub struct Selection {
    pub active: bool,
    pub priority: SWPriority,
    pub tie: u64,
}

impl Selection {
    /// Active demand goes first, then the lower rank, then the lower tie.
    pub open spec fn precedes(self, other: Selection) -> bool {
        if self.active != other.active {
            self.active
        } else if self.priority.rank != other.priority.rank {
            self.priority.rank < other.priority.rank
        } else {
            self.tie < other.tie
        }
    }

    pub fn before(&self, other: &Selection) -> (before: bool)
        ensures
            before == self.precedes(*other),
    {
        if self.active != other.active {
            self.active
        } else if self.priority.rank != other.priority.rank {
            self.priority.rank < other.priority.rank
        } else {
            self.tie < other.tie
        }
    }
}

/// A record in a queue, with its demand where it is resource work.
#[derive(Clone, Copy, Debug, PartialEq, Eq, Structural)]
pub struct QueueEntry {
    pub id: u64,
    pub demand: Option<Selection>,
}

/// Position `i` holds the first ordinary entry.
pub open spec fn ordinary_at(q: Seq<QueueEntry>, i: int) -> bool {
    &&& 0 <= i < q.len()
    &&& q[i].demand is None
    &&& forall|j: int| 0 <= j < i ==> (#[trigger] q[j]).demand is Some
}

/// Position `i` holds the most urgent resource entry, the first of equals.
pub open spec fn leading_at(q: Seq<QueueEntry>, i: int) -> bool {
    &&& 0 <= i < q.len()
    &&& q[i].demand is Some
    &&& forall|j: int|
        0 <= j < q.len() && (#[trigger] q[j]).demand is Some ==> {
            &&& !q[j].demand->0.precedes(q[i].demand->0)
            &&& j < i ==> q[i].demand->0.precedes(q[j].demand->0)
        }
}

/// Position `i` holds the entry that leaves the queue next.
pub open spec fn picks(q: Seq<QueueEntry>, i: int) -> bool {
    ||| ordinary_at(q, i) && forall|r: int| #[trigger] leading_at(q, r) ==> q[i].id < q[r].id
    ||| leading_at(q, i) && forall|o: int| #[trigger] ordinary_at(q, o) ==> q[o].id >= q[i].id
}

/// Position of the entry that leaves the queue next.
pub open spec fn pick(q: Seq<QueueEntry>) -> int {
    choose|i: int| picks(q, i)
}

pub open spec fn holds(q: Seq<QueueEntry>, id: u64) -> bool {
    exists|i: int| 0 <= i < q.len() && (#[trigger] q[i]).id == id
}

pub open spec fn distinct(q: Seq<QueueEntry>) -> bool {
    forall|i: int, j: int| 0 <= i < j < q.len() ==> (#[trigger] q[i]).id != (#[trigger] q[j]).id
}

/// The order in which the entries leave when nothing else arrives.
pub open spec fn pop_order(q: Seq<QueueEntry>) -> Seq<QueueEntry>
    decreases q.len(),
{
    if q.len() == 0 || !(0 <= pick(q) < q.len()) {
        Seq::empty()
    } else {
        seq![q[pick(q)]] + pop_order(q.remove(pick(q)))
    }
}

/// The ordinary entries, in their order.
pub open spec fn ordinary(q: Seq<QueueEntry>) -> Seq<u64>
    decreases q.len(),
{
    if q.len() == 0 {
        Seq::empty()
    } else if q[0].demand is None {
        seq![q[0].id] + ordinary(q.drop_first())
    } else {
        ordinary(q.drop_first())
    }
}

/// At most one position can be picked.
pub proof fn pick_unique(q: Seq<QueueEntry>, i: int, j: int)
    requires
        picks(q, i),
        picks(q, j),
    ensures
        i == j,
{
    if ordinary_at(q, i) && ordinary_at(q, j) {
        if i < j {
            assert(q[i].demand is Some);
        } else if j < i {
            assert(q[j].demand is Some);
        }
    } else if leading_at(q, i) && leading_at(q, j) {
        if i < j {
            assert(q[i].demand is Some);
        } else if j < i {
            assert(q[j].demand is Some);
        }
    }
}

/// The entry that leaves next, if there is one.
pub fn select(queue: &Vec<QueueEntry>) -> (selected: Option<usize>)
    ensures
        match selected {
            Some(i) => {
                &&& i < queue@.len()
                &&& picks(queue@, i as int)
                &&& pick(queue@) == i
            },
            None => queue@.len() == 0,
        },
{
    let mut oldest: Option<usize> = None;
    let mut leading: Option<usize> = None;
    let mut index: usize = 0;
    while index < queue.len()
        invariant
            index <= queue@.len(),
            match oldest {
                Some(o) => o < index && ordinary_at(queue@, o as int),
                None => forall|j: int| 0 <= j < index ==> (#[trigger] queue@[j]).demand is Some,
            },
            match leading {
                Some(r) => r < index && leading_at(queue@.take(index as int), r as int),
                None => forall|j: int| 0 <= j < index ==> (#[trigger] queue@[j]).demand is None,
            },
        decreases queue@.len() - index,
    {
        let entry = queue[index];
        let ghost before = queue@.take(index as int);
        let ghost after = queue@.take(index + 1);
        assert(forall|j: int| 0 <= j < index ==> #[trigger] after[j] == before[j]);
        assert(after[index as int] == entry);
        match entry.demand {
            None => {
                if oldest.is_none() {
                    oldest = Some(index);
                }
                if let Some(r) = leading {
                    assert(leading_at(after, r as int)) by {
                        assert(before[r as int] == queue@[r as int]);
                    }
                }
            },
            Some(demand) => {
                match leading {
                    None => {
                        leading = Some(index);
                    },
                    Some(r) => {
                        assert(before[r as int] == queue@[r as int]);
                        if let Some(best) = queue[r].demand {
                            if demand.before(&best) {
                                leading = Some(index);
                                assert(leading_at(after, index as int)) by {
                                    assert forall|j: int|
                                        0 <= j < after.len() && (
                                        #[trigger] after[j]).demand is Some implies {
                                        &&& !after[j].demand->0.precedes(demand)
                                        &&& j < index ==> demand.precedes(after[j].demand->0)
                                    } by {
                                        if j < index {
                                            assert(after[j] == before[j]);
                                        }
                                    }
                                }
                            } else {
                                assert(leading_at(after, r as int)) by {
                                    assert forall|j: int|
                                        0 <= j < after.len() && (
                                        #[trigger] after[j]).demand is Some implies {
                                        &&& !after[j].demand->0.precedes(best)
                                        &&& j < r ==> best.precedes(after[j].demand->0)
                                    } by {
                                        if j < index {
                                            assert(after[j] == before[j]);
                                        }
                                    }
                                }
                            }
                        }
                    },
                }
            },
        }
        index += 1;
    }
    assert(queue@.take(index as int) =~= queue@);
    let selected = match (oldest, leading) {
        (Some(o), Some(r)) => {
            if queue[o].id < queue[r].id {
                Some(o)
            } else {
                Some(r)
            }
        },
        (Some(o), None) => Some(o),
        (None, Some(r)) => Some(r),
        (None, None) => None,
    };
    proof {
        if oldest is Some && leading is Some {
            assert forall|r: int| #[trigger] leading_at(queue@, r) implies r == leading->0 by {
                if r < leading->0 {
                    assert(queue@[r].demand is Some);
                } else if r > leading->0 {
                    assert(queue@[leading->0 as int].demand is Some);
                }
            }
            assert forall|o: int| #[trigger] ordinary_at(queue@, o) implies o == oldest->0 by {
                if o < oldest->0 {
                    assert(queue@[o].demand is Some);
                } else if o > oldest->0 {
                    assert(queue@[oldest->0 as int].demand is Some);
                }
            }
        }
        if let Some(i) = selected {
            assert(picks(queue@, i as int));
            pick_unique(queue@, i as int, pick(queue@));
        } else if queue@.len() > 0 {
            assert(queue@[0].demand is Some);
        }
    }
    selected
}

/// A queue without ordinary entries, or the first of them.
proof fn ordinary_exists(q: Seq<QueueEntry>) -> (at: Option<int>)
    ensures
        match at {
            Some(i) => ordinary_at(q, i),
            None => forall|j: int| 0 <= j < q.len() ==> (#[trigger] q[j]).demand is Some,
        },
    decreases q.len(),
{
    if q.len() == 0 {
        None
    } else {
        let rest = q.drop_last();
        match ordinary_exists(rest) {
            Some(i) => {
                assert forall|j: int| 0 <= j < i implies (#[trigger] q[j]).demand is Some by {
                    assert(rest[j] == q[j]);
                }
                Some(i)
            },
            None => {
                assert forall|j: int| 0 <= j < q.len() - 1 implies (
                #[trigger] q[j]).demand is Some by {
                    assert(rest[j] == q[j]);
                }
                if q.last().demand is None {
                    Some(q.len() - 1)
                } else {
                    None
                }
            },
        }
    }
}

/// A queue without resource entries, or the most urgent of them.
proof fn leading_exists(q: Seq<QueueEntry>) -> (at: Option<int>)
    ensures
        match at {
            Some(i) => leading_at(q, i),
            None => forall|j: int| 0 <= j < q.len() ==> (#[trigger] q[j]).demand is None,
        },
    decreases q.len(),
{
    if q.len() == 0 {
        None
    } else {
        let rest = q.drop_last();
        let last = q.len() - 1;
        assert(forall|j: int| 0 <= j < last ==> #[trigger] q[j] == rest[j]);
        match leading_exists(rest) {
            Some(i) => {
                assert(q[i] == rest[i]);
                if q[last].demand is Some && q[last].demand->0.precedes(q[i].demand->0) {
                    assert(leading_at(q, last));
                    Some(last)
                } else {
                    assert(leading_at(q, i));
                    Some(i)
                }
            },
            None => {
                if q[last].demand is Some {
                    assert(leading_at(q, last));
                    Some(last)
                } else {
                    None
                }
            },
        }
    }
}

/// A queue that is not empty has an entry that leaves next.
pub proof fn pick_valid(q: Seq<QueueEntry>)
    requires
        q.len() > 0,
    ensures
        picks(q, pick(q)),
        0 <= pick(q) < q.len(),
{
    let oldest = ordinary_exists(q);
    let leading = leading_exists(q);
    match (oldest, leading) {
        (Some(o), Some(r)) => {
            assert forall|i: int| #[trigger] leading_at(q, i) implies i == r by {
                if i < r {
                    assert(q[i].demand is Some);
                } else if i > r {
                    assert(q[r].demand is Some);
                }
            }
            assert forall|i: int| #[trigger] ordinary_at(q, i) implies i == o by {
                if i < o {
                    assert(q[i].demand is Some);
                } else if i > o {
                    assert(q[o].demand is Some);
                }
            }
            if q[o].id < q[r].id {
                assert(picks(q, o));
            } else {
                assert(picks(q, r));
            }
        },
        (Some(o), None) => {
            assert(picks(q, o));
        },
        (None, Some(r)) => {
            assert(picks(q, r));
        },
        (None, None) => {
            assert(q[0].demand is Some);
        },
    }
}

/// Taking an entry out removes its record, and no other.
pub proof fn removal(q: Seq<QueueEntry>, i: int)
    requires
        distinct(q),
        0 <= i < q.len(),
    ensures
        distinct(q.remove(i)),
        forall|id: u64| #[trigger] holds(q.remove(i), id) <==> holds(q, id) && id != q[i].id,
{
    let r = q.remove(i);
    assert forall|a: int, b: int| 0 <= a < b < r.len() implies (#[trigger] r[a]).id != (
    #[trigger] r[b]).id by {
        let x = if a < i {
            a
        } else {
            a + 1
        };
        let y = if b < i {
            b
        } else {
            b + 1
        };
        assert(q[x].id != q[y].id);
    }
    assert forall|id: u64| #[trigger] holds(r, id) <==> holds(q, id) && id != q[i].id by {
        if holds(r, id) {
            let a = choose|a: int| 0 <= a < r.len() && (#[trigger] r[a]).id == id;
            let x = if a < i {
                a
            } else {
                a + 1
            };
            assert(q[x].id == id);
            if x < i {
                assert(q[x].id != q[i].id);
            } else {
                assert(q[i].id != q[x].id);
            }
        }
        if holds(q, id) && id != q[i].id {
            let x = choose|x: int| 0 <= x < q.len() && (#[trigger] q[x]).id == id;
            let a = if x < i {
                x
            } else {
                x - 1
            };
            assert(r[a] == q[x]);
        }
    }
}

/// Adding an entry at the end adds its record, and no other.
pub proof fn addition(q: Seq<QueueEntry>, e: QueueEntry)
    requires
        distinct(q),
        !holds(q, e.id),
    ensures
        distinct(q.push(e)),
        forall|id: u64| #[trigger] holds(q.push(e), id) <==> holds(q, id) || id == e.id,
{
    let r = q.push(e);
    assert forall|a: int, b: int| 0 <= a < b < r.len() implies (#[trigger] r[a]).id != (
    #[trigger] r[b]).id by {
        if b == q.len() {
            assert(q[a].id != e.id);
        } else {
            assert(q[a].id != q[b].id);
        }
    }
    assert forall|id: u64| #[trigger] holds(r, id) <==> holds(q, id) || id == e.id by {
        if holds(q, id) {
            let x = choose|x: int| 0 <= x < q.len() && (#[trigger] q[x]).id == id;
            assert(r[x] == q[x]);
        }
        if id == e.id {
            assert(r[q.len() as int].id == id);
        }
        if holds(r, id) && id != e.id {
            let x = choose|x: int| 0 <= x < r.len() && (#[trigger] r[x]).id == id;
            assert(q[x] == r[x]);
        }
    }
}

/// One queue behind another.
pub proof fn concatenation(q: Seq<QueueEntry>, t: Seq<QueueEntry>)
    requires
        distinct(q),
        distinct(t),
        forall|id: u64| #[trigger] holds(q, id) ==> !holds(t, id),
    ensures
        distinct(q + t),
        forall|id: u64| #[trigger] holds(q + t, id) <==> holds(q, id) || holds(t, id),
{
    let r = q + t;
    assert forall|a: int, b: int| 0 <= a < b < r.len() implies (#[trigger] r[a]).id != (
    #[trigger] r[b]).id by {
        if b < q.len() {
            assert(q[a].id != q[b].id);
        } else if a >= q.len() {
            assert(t[a - q.len()].id != t[b - q.len()].id);
        } else {
            assert(q[a].id == r[a].id);
            assert(holds(q, r[a].id));
            assert(t[b - q.len()].id == r[b].id);
            assert(holds(t, r[b].id));
        }
    }
    assert forall|id: u64| #[trigger] holds(r, id) <==> holds(q, id) || holds(t, id) by {
        if holds(r, id) {
            let x = choose|x: int| 0 <= x < r.len() && (#[trigger] r[x]).id == id;
            if x < q.len() {
                assert(q[x].id == id);
            } else {
                assert(t[x - q.len()].id == id);
            }
        }
        if holds(q, id) {
            let x = choose|x: int| 0 <= x < q.len() && (#[trigger] q[x]).id == id;
            assert(r[x].id == id);
        }
        if holds(t, id) {
            let x = choose|x: int| 0 <= x < t.len() && (#[trigger] t[x]).id == id;
            assert(r[x + q.len()].id == id);
        }
    }
}

/// Emptying a queue hands out each of its entries once.
pub proof fn pop_order_complete(q: Seq<QueueEntry>)
    requires
        distinct(q),
    ensures
        pop_order(q).len() == q.len(),
        distinct(pop_order(q)),
        forall|id: u64| #[trigger] holds(pop_order(q), id) <==> holds(q, id),
        forall|e: QueueEntry| #[trigger] pop_order(q).contains(e) <==> q.contains(e),
    decreases q.len(),
{
    if q.len() > 0 {
        pick_valid(q);
        let i = pick(q);
        let rest = q.remove(i);
        removal(q, i);
        pop_order_complete(rest);
        let first = seq![q[i]];
        let order = first + pop_order(rest);
        assert(holds(first, q[i].id)) by {
            assert(first[0].id == q[i].id);
        }
        assert forall|id: u64| #[trigger] holds(first, id) implies id == q[i].id by {
            let x = choose|x: int| 0 <= x < first.len() && (#[trigger] first[x]).id == id;
        }
        concatenation(first, pop_order(rest));
        assert(holds(q, q[i].id));
        assert forall|e: QueueEntry| #[trigger] order.contains(e) <==> q.contains(e) by {
            if order.contains(e) {
                let x = choose|x: int| 0 <= x < order.len() && order[x] == e;
                if x == 0 {
                    assert(q[i] == e);
                } else {
                    assert(pop_order(rest)[x - 1] == e);
                    assert(pop_order(rest).contains(e));
                    assert(rest.contains(e));
                    let y = choose|y: int| 0 <= y < rest.len() && rest[y] == e;
                    assert(q[if y < i {
                        y
                    } else {
                        y + 1
                    }] == e);
                }
            }
            if q.contains(e) {
                let y = choose|y: int| 0 <= y < q.len() && q[y] == e;
                if y == i {
                    assert(order[0] == e);
                } else {
                    assert(rest[if y < i {
                        y
                    } else {
                        y - 1
                    }] == e);
                    assert(pop_order(rest).contains(e));
                    let x = choose|x: int|
                        0 <= x < pop_order(rest).len() && pop_order(rest)[x] == e;
                    assert(order[x + 1] == e);
                }
            }
        }
    } else {
        assert forall|e: QueueEntry| #[trigger] pop_order(q).contains(e) <==> q.contains(e) by {}
    }
}

proof fn ordinary_push(q: Seq<QueueEntry>, e: QueueEntry)
    ensures
        ordinary(q.push(e)) == if e.demand is None {
            ordinary(q).push(e.id)
        } else {
            ordinary(q)
        },
    decreases q.len(),
{
    let r = q.push(e);
    if q.len() == 0 {
        assert(r.drop_first() =~= Seq::empty());
        assert(ordinary(r.drop_first()) =~= Seq::empty());
        assert(seq![e.id] + Seq::<u64>::empty() =~= Seq::<u64>::empty().push(e.id));
    } else {
        ordinary_push(q.drop_first(), e);
        assert(r.drop_first() =~= q.drop_first().push(e));
        if q[0].demand is None && e.demand is None {
            assert(seq![q[0].id] + ordinary(q.drop_first()).push(e.id) =~= (seq![q[0].id]
                + ordinary(q.drop_first())).push(e.id));
        }
    }
}

proof fn ordinary_append(q: Seq<QueueEntry>, t: Seq<QueueEntry>)
    ensures
        ordinary(q + t) == ordinary(q) + ordinary(t),
    decreases q.len(),
{
    if q.len() == 0 {
        assert(q + t =~= t);
        assert(ordinary(q) + ordinary(t) =~= ordinary(t));
    } else {
        ordinary_append(q.drop_first(), t);
        assert((q + t).drop_first() =~= q.drop_first() + t);
        if q[0].demand is None {
            assert(seq![q[0].id] + (ordinary(q.drop_first()) + ordinary(t)) =~= (seq![q[0].id]
                + ordinary(q.drop_first())) + ordinary(t));
        }
    }
}

proof fn ordinary_remove(q: Seq<QueueEntry>, i: int)
    requires
        picks(q, i),
    ensures
        q[i].demand is Some ==> ordinary(q.remove(i)) == ordinary(q),
        q[i].demand is None ==> ordinary(q) == seq![q[i].id] + ordinary(q.remove(i)),
{
    let left = q.subrange(0, i);
    let right = q.subrange(i + 1, q.len() as int);
    assert(q.remove(i) =~= left + right);
    assert(q =~= left + (seq![q[i]] + right));
    ordinary_append(left, right);
    ordinary_append(left, seq![q[i]] + right);
    ordinary_append(seq![q[i]], right);
    assert(seq![q[i]].drop_first() =~= Seq::empty());
    assert(ordinary(seq![q[i]].drop_first()) =~= Seq::empty());
    if q[i].demand is Some {
        assert(ordinary(seq![q[i]]) =~= Seq::empty());
        assert(ordinary(q) =~= ordinary(left) + ordinary(right));
    } else {
        assert(ordinary(seq![q[i]]) =~= seq![q[i].id]);
        assert forall|j: int| 0 <= j < left.len() implies (#[trigger] left[j]).demand is Some by {
            assert(left[j] == q[j]);
        }
        all_resource(left);
        assert(ordinary(q) =~= seq![q[i].id] + ordinary(right));
        assert(ordinary(q.remove(i)) =~= ordinary(right));
    }
}

proof fn all_resource(q: Seq<QueueEntry>)
    requires
        forall|j: int| 0 <= j < q.len() ==> (#[trigger] q[j]).demand is Some,
    ensures
        ordinary(q) == Seq::<u64>::empty(),
    decreases q.len(),
{
    if q.len() > 0 {
        assert(q[0].demand is Some);
        assert forall|j: int| 0 <= j < q.drop_first().len() implies (
        #[trigger] q.drop_first()[j]).demand is Some by {
            assert(q.drop_first()[j] == q[j + 1]);
        }
        all_resource(q.drop_first());
    }
}

/// Ordinary entries leave first in, first out.
pub proof fn ordinary_is_fifo(q: Seq<QueueEntry>)
    ensures
        ordinary(pop_order(q)) == ordinary(q),
    decreases q.len(),
{
    if q.len() > 0 {
        pick_valid(q);
        let i = pick(q);
        let rest = q.remove(i);
        ordinary_is_fifo(rest);
        ordinary_remove(q, i);
        ordinary_append(seq![q[i]], pop_order(rest));
        assert(seq![q[i]].drop_first() =~= Seq::empty());
        assert(ordinary(seq![q[i]].drop_first()) =~= Seq::empty());
        if q[i].demand is None {
            assert(ordinary(seq![q[i]]) =~= seq![q[i].id]);
        } else {
            assert(ordinary(seq![q[i]]) =~= Seq::empty());
            assert(Seq::<u64>::empty() + ordinary(pop_order(rest)) =~= ordinary(pop_order(rest)));
        }
    }
}

/// The queues and counts of one execution class.
#[verifier::ext_equal]
pub struct LaneView {
    /// Work that may be handed to the backend.
    pub ready: Seq<QueueEntry>,
    /// Activated work beyond the runnable window.
    pub deferred: Seq<QueueEntry>,
    /// Ready work and work handed to the backend that has not started.
    pub runnable: int,
    /// Wrappers offered to the backend that have not returned.
    pub handed_off: int,
}

impl LaneView {
    /// All unhanded work, back in one queue while some of it is deferred.
    pub open spec fn merged(self) -> LaneView {
        if self.deferred.len() == 0 {
            self
        } else {
            LaneView {
                ready: Seq::empty(),
                deferred: pop_order(self.ready) + self.deferred,
                runnable: self.runnable - self.ready.len(),
                ..self
            }
        }
    }

    /// The next deferred entry has become ready.
    pub open spec fn advanced(self) -> LaneView {
        let i = pick(self.deferred);
        LaneView {
            ready: self.ready.push(self.deferred[i]),
            deferred: self.deferred.remove(i),
            runnable: self.runnable + 1,
            ..self
        }
    }

    /// Deferred entries have become ready while the window has room.
    pub open spec fn filled(self, limit: int) -> LaneView
        decreases self.deferred.len(),
    {
        if self.runnable >= limit || self.deferred.len() == 0 || !(0 <= pick(self.deferred)
            < self.deferred.len()) {
            self
        } else {
            self.advanced().filled(limit)
        }
    }

    /// The runnable window refilled from all unhanded work.
    pub open spec fn refilled(self, limit: int) -> LaneView {
        self.merged().filled(limit)
    }

    pub open spec fn lists(self, e: QueueEntry) -> bool {
        self.ready.contains(e) || self.deferred.contains(e)
    }

    pub open spec fn queued(self, id: u64) -> bool {
        holds(self.ready, id) || holds(self.deferred, id)
    }

    /// No record is queued twice.
    pub open spec fn unique(self) -> bool {
        &&& distinct(self.ready)
        &&& distinct(self.deferred)
        &&& forall|id: u64| #[trigger] holds(self.ready, id) ==> !holds(self.deferred, id)
    }
}

pub proof fn merged_keeps(lane: LaneView)
    requires
        lane.unique(),
    ensures
        lane.merged().unique(),
        forall|id: u64| #[trigger] lane.merged().queued(id) <==> lane.queued(id),
        lane.merged().runnable - lane.merged().ready.len() == lane.runnable - lane.ready.len(),
        lane.merged().ready.len() + lane.merged().deferred.len() == lane.ready.len()
            + lane.deferred.len(),
        ordinary(lane.merged().ready + lane.merged().deferred) == ordinary(
            lane.ready + lane.deferred,
        ),
        forall|e: QueueEntry| #[trigger] lane.merged().lists(e) <==> lane.lists(e),
{
    if lane.deferred.len() > 0 {
        let order = pop_order(lane.ready);
        pop_order_complete(lane.ready);
        concatenation(order, lane.deferred);
        let m = lane.merged();
        assert forall|id: u64| !holds(m.ready, id) by {}
        ordinary_is_fifo(lane.ready);
        ordinary_append(lane.ready, lane.deferred);
        ordinary_append(order, lane.deferred);
        assert(m.ready + m.deferred =~= m.deferred);
        assert forall|e: QueueEntry| #[trigger] m.lists(e) <==> lane.lists(e) by {
            if m.deferred.contains(e) {
                let x = choose|x: int| 0 <= x < m.deferred.len() && m.deferred[x] == e;
                if x < order.len() {
                    assert(order[x] == e);
                    assert(order.contains(e));
                } else {
                    assert(lane.deferred[x - order.len()] == e);
                }
            }
            if lane.ready.contains(e) {
                assert(order.contains(e));
                let x = choose|x: int| 0 <= x < order.len() && order[x] == e;
                assert(m.deferred[x] == e);
            }
            if lane.deferred.contains(e) {
                let x = choose|x: int| 0 <= x < lane.deferred.len() && lane.deferred[x] == e;
                assert(m.deferred[x + order.len()] == e);
            }
        }
    }
}

pub proof fn advanced_keeps(lane: LaneView)
    requires
        lane.unique(),
        lane.deferred.len() > 0,
    ensures
        lane.advanced().unique(),
        forall|id: u64| #[trigger] lane.advanced().queued(id) <==> lane.queued(id),
        lane.advanced().runnable - lane.advanced().ready.len() == lane.runnable - lane.ready.len(),
        lane.advanced().ready.len() + lane.advanced().deferred.len() == lane.ready.len()
            + lane.deferred.len(),
        forall|e: QueueEntry| #[trigger] lane.advanced().lists(e) <==> lane.lists(e),
{
    pick_valid(lane.deferred);
    let i = pick(lane.deferred);
    let e = lane.deferred[i];
    assert(holds(lane.deferred, e.id));
    removal(lane.deferred, i);
    addition(lane.ready, e);
    let next = lane.advanced();
    assert forall|x: QueueEntry| #[trigger] next.lists(x) <==> lane.lists(x) by {
        if next.ready.contains(x) {
            let k = choose|k: int| 0 <= k < next.ready.len() && next.ready[k] == x;
            if k < lane.ready.len() {
                assert(lane.ready[k] == x);
            } else {
                assert(lane.deferred[i] == x);
            }
        }
        if next.deferred.contains(x) {
            let k = choose|k: int| 0 <= k < next.deferred.len() && next.deferred[k] == x;
            assert(lane.deferred[if k < i {
                k
            } else {
                k + 1
            }] == x);
        }
        if lane.ready.contains(x) {
            let k = choose|k: int| 0 <= k < lane.ready.len() && lane.ready[k] == x;
            assert(next.ready[k] == x);
        }
        if lane.deferred.contains(x) {
            let k = choose|k: int| 0 <= k < lane.deferred.len() && lane.deferred[k] == x;
            if k == i {
                assert(next.ready[lane.ready.len() as int] == x);
            } else {
                assert(next.deferred[if k < i {
                    k
                } else {
                    k - 1
                }] == x);
            }
        }
    }
}

proof fn filled_keeps(lane: LaneView, limit: int)
    requires
        lane.unique(),
    ensures
        lane.filled(limit).unique(),
        forall|id: u64| #[trigger] lane.filled(limit).queued(id) <==> lane.queued(id),
        lane.filled(limit).runnable - lane.filled(limit).ready.len() == lane.runnable
            - lane.ready.len(),
        lane.filled(limit).ready.len() + lane.filled(limit).deferred.len() == lane.ready.len()
            + lane.deferred.len(),
        lane.filled(limit).handed_off == lane.handed_off,
        lane.filled(limit).runnable >= limit || lane.filled(limit).deferred.len() == 0,
        lane.filled(limit).runnable <= limit || lane.filled(limit).runnable == lane.runnable,
        forall|e: QueueEntry| #[trigger] lane.filled(limit).lists(e) <==> lane.lists(e),
    decreases lane.deferred.len(),
{
    if lane.runnable < limit && lane.deferred.len() > 0 {
        pick_valid(lane.deferred);
        advanced_keeps(lane);
        filled_keeps(lane.advanced(), limit);
    }
}

/// Refilling the runnable window loses, invents and repeats nothing, never
/// leaves room unused while work is deferred, and never grows the window beyond
/// its limit.
pub proof fn refill_conserves(lane: LaneView, limit: int)
    requires
        lane.unique(),
    ensures
        lane.refilled(limit).unique(),
        forall|id: u64| #[trigger] lane.refilled(limit).queued(id) <==> lane.queued(id),
        forall|e: QueueEntry| #[trigger] lane.refilled(limit).lists(e) <==> lane.lists(e),
        lane.refilled(limit).ready.len() + lane.refilled(limit).deferred.len() == lane.ready.len()
            + lane.deferred.len(),
        lane.refilled(limit).runnable - lane.refilled(limit).ready.len() == lane.runnable
            - lane.ready.len(),
        lane.refilled(limit).handed_off == lane.handed_off,
        lane.refilled(limit).runnable >= limit || lane.refilled(limit).deferred.len() == 0,
        lane.refilled(limit).runnable <= limit || lane.refilled(limit).runnable <= lane.runnable,
{
    merged_keeps(lane);
    filled_keeps(lane.merged(), limit);
}

/// Every ready resource entry is at least as urgent as each deferred one.
pub open spec fn urgent_first(lane: LaneView) -> bool {
    forall|i: int, j: int|
        0 <= i < lane.ready.len() && 0 <= j < lane.deferred.len() && (
        #[trigger] lane.ready[i]).demand is Some && (#[trigger] lane.deferred[j]).demand is Some
            ==> !lane.deferred[j].demand->0.precedes(lane.ready[i].demand->0)
}

proof fn filled_urgent(lane: LaneView, limit: int)
    requires
        urgent_first(lane),
    ensures
        urgent_first(lane.filled(limit)),
    decreases lane.deferred.len(),
{
    if lane.runnable < limit && lane.deferred.len() > 0 {
        pick_valid(lane.deferred);
        let i = pick(lane.deferred);
        let next = lane.advanced();
        assert forall|a: int, b: int|
            0 <= a < next.ready.len() && 0 <= b < next.deferred.len() && (
            #[trigger] next.ready[a]).demand is Some && (
            #[trigger] next.deferred[b]).demand is Some implies !next.deferred[b].demand->0.precedes(
            next.ready[a].demand->0,
        ) by {
            let y = if b < i {
                b
            } else {
                b + 1
            };
            assert(next.deferred[b] == lane.deferred[y]);
            if a < lane.ready.len() {
                assert(next.ready[a] == lane.ready[a]);
            } else {
                assert(next.ready[a] == lane.deferred[i]);
                assert(leading_at(lane.deferred, i));
            }
        }
        filled_urgent(next, limit);
    }
}

/// Capacity pressure cannot freeze a background resource ahead of newly urgent
/// work: where work was deferred, refilling leaves no deferred resource entry
/// that is more urgent than a ready one.
pub proof fn refill_is_urgent(lane: LaneView, limit: int)
    requires
        lane.deferred.len() > 0,
    ensures
        urgent_first(lane.refilled(limit)),
{
    filled_urgent(lane.merged(), limit);
}

proof fn filled_fifo(lane: LaneView, limit: int)
    ensures
        ordinary(lane.filled(limit).ready + lane.filled(limit).deferred) == ordinary(
            lane.ready + lane.deferred,
        ),
    decreases lane.deferred.len(),
{
    if lane.runnable < limit && lane.deferred.len() > 0 {
        pick_valid(lane.deferred);
        let i = pick(lane.deferred);
        let e = lane.deferred[i];
        let next = lane.advanced();
        ordinary_remove(lane.deferred, i);
        ordinary_push(lane.ready, e);
        ordinary_append(lane.ready, lane.deferred);
        ordinary_append(next.ready, next.deferred);
        filled_fifo(next, limit);
        if e.demand is None {
            assert(ordinary(lane.ready).push(e.id) + ordinary(next.deferred) =~= ordinary(
                lane.ready,
            ) + (seq![e.id] + ordinary(next.deferred)));
        }
    }
}

/// Refilling keeps ordinary work in its order, the ready part before the
/// deferred part.
pub proof fn refill_is_fifo(lane: LaneView, limit: int)
    requires
        lane.unique(),
    ensures
        ordinary(lane.refilled(limit).ready + lane.refilled(limit).deferred) == ordinary(
            lane.ready + lane.deferred,
        ),
{
    merged_keeps(lane);
    filled_fifo(lane.merged(), limit);
}

} // verus!
