//! What a reservation's credits come to over its life.
use crate::cost::lemma_minus;
use crate::cost::lemma_parts;
use crate::cost::lemma_plus;
use crate::cost::lemma_within;
use crate::cost::SWCost;
use crate::progress::owing;
use crate::reservation::admitted;
use crate::reservation::bank_leaves;
use crate::reservation::bank_part;
use crate::reservation::claim_error;
use crate::reservation::grown_wf;
use crate::reservation::relink;
use crate::reservation::retained;
use crate::reservation::serves;
use crate::reservation::served;
use crate::reservation::staged;
use crate::reservation::without_lease_wf;
use crate::reservation::Accounts;
use crate::reservation::ByteCharge;
use crate::reservation::CreditBank;
use crate::reservation::Kind;
use crate::reservation::Usage;
use crate::slots::live;
use crate::slots::total_placed;
use crate::sums::total;
use crate::sums::total_pointwise;
use crate::sums::total_update;
use crate::sums::total_zero;
use vstd::prelude::*;

verus! {

/// What can happen to the books of a pool.
pub enum CreditStep {
    /// A pipeline is reserved: its slot, its reservation, its cost.
    Admit(int, int, SWCost, Kind),
    /// A stage or a split takes part of a reservation.
    Stage(int, int, SWCost),
    /// A result retains bytes of a reservation.
    Retain(int, int, usize),
    Grow(int, SWCost),
    /// A reservation is retired.
    Retire(int),
    /// Retained bytes are released.
    Release(int),
    /// The pool takes no more pipelines.
    Close,
    /// A pending wake is taken.
    Report,
}

/// The step that leads from one state of the books to the next.
pub open spec fn moves(a: Accounts, b: Accounts, step: CreditStep) -> bool {
    match step {
        CreditStep::Admit(pipeline, bank, cost, kind) => {
            &&& claim_error(a.limits, a.usage, cost, kind, true) is None
            &&& admitted(a, b, pipeline, bank, cost, kind)
        },
        CreditStep::Stage(bank, child, cost) => {
            &&& live(a.banks, bank)
            &&& cost.within(a.banks[bank]->0.balance)
            &&& staged(a, b, bank, child, cost)
        },
        CreditStep::Retain(bank, lease, bytes) => {
            &&& live(a.banks, bank)
            &&& bytes <= a.banks[bank]->0.balance.bytes
            &&& retained(a, b, bank, lease, bytes)
        },
        CreditStep::Grow(bank, cost) => {
            let pipeline = a.banks[bank]->0.pipeline as int;
            &&& live(a.banks, bank)
            &&& a.grow_error(pipeline, cost) is None
            &&& b == a.grown(pipeline, bank, cost)
        },
        CreditStep::Retire(bank) => live(a.banks, bank) && b == a.without_bank(bank),
        CreditStep::Release(lease) => live(a.leases, lease) && b == a.without_lease(lease),
        CreditStep::Close => b == (Accounts {
            usage: Usage { closed: true, ..a.usage },
            wake: owing(a.wake, 1),
            ..a
        }),
        CreditStep::Report => b == (Accounts { wake: 0, ..a }),
    }
}

/// Component `i` of what a step adds to a pipeline from outside.
pub open spec fn grown_by(a: Accounts, step: CreditStep, pipeline: int, i: int) -> int {
    match step {
        CreditStep::Grow(bank, cost) => if a.banks[bank]->0.pipeline == pipeline {
            cost.part(i)
        } else {
            0
        },
        _ => 0,
    }
}

/// What retained bytes of a live pipeline come to.
pub open spec fn leased_to(pipeline: int) -> spec_fn(Option<ByteCharge>) -> int {
    |entry: Option<ByteCharge>|
        match entry {
            Some(lease) => if lease.pipeline is Some && lease.pipeline->0 == pipeline {
                lease.bytes as int
            } else {
                0
            },
            None => 0,
        }
}

/// Component `i` of everything that a pipeline holds: its free credits, and the
/// bytes that will return to it.
pub open spec fn holdings(a: Accounts, pipeline: int, i: int) -> int {
    a.credits(pipeline, i) + if i == 3 {
        total(a.leases, leased_to(pipeline))
    } else {
        0
    }
}

/// The first reservation of a pipeline is live: every other one, and every
/// retained result, leads back to a live one.
pub open spec fn rooted(a: Accounts, pipeline: int, root: int) -> bool {
    &&& serves(a.banks, root, pipeline)
    &&& a.banks[root]->0.parent is None
    &&& forall|b: int| #[trigger]
        serves(a.banks, b, pipeline) && b != root ==> a.banks[b]->0.parent is Some
    &&& forall|l: int| #[trigger]
        live(a.leases, l) && a.leases[l]->0.pipeline is Some && a.leases[l]->0.pipeline->0
            == pipeline ==> a.leases[l]->0.bank is Some
}

/// Nothing of a pipeline is left but its first reservation.
pub open spec fn alone(a: Accounts, pipeline: int, root: int) -> bool {
    &&& forall|b: int| #[trigger] serves(a.banks, b, pipeline) ==> b == root
    &&& forall|l: int| #[trigger]
        live(a.leases, l) ==> !(a.leases[l]->0.pipeline is Some && a.leases[l]->0.pipeline->0
            == pipeline)
}

/// States of the books, and the steps between them.
pub open spec fn history(states: Seq<Accounts>, steps: Seq<CreditStep>) -> bool {
    &&& states.len() == steps.len() + 1
    &&& forall|k: int|
        0 <= k < steps.len() ==> (#[trigger] states[k]).wf() && moves(
            states[k],
            states[k + 1],
            steps[k],
        )
}

/// Component `i` of what these steps added to a pipeline.
pub open spec fn growth(
    states: Seq<Accounts>,
    steps: Seq<CreditStep>,
    pipeline: int,
    i: int,
) -> int
    decreases steps.len(),
{
    if steps.len() == 0 {
        0
    } else {
        growth(states, steps.drop_last(), pipeline, i) + grown_by(
            states[steps.len() - 1],
            steps.last(),
            pipeline,
            i,
        )
    }
}

proof fn admit_keeps(
    a: Accounts,
    b: Accounts,
    q: int,
    bank: int,
    cost: SWCost,
    kind: Kind,
    p: int,
    r: int,
)
    requires
        a.wf(),
        moves(a, b, CreditStep::Admit(q, bank, cost, kind)),
        rooted(a, p, r),
    ensures
        rooted(b, p, r),
        forall|i: int| 0 <= i < 4 ==> #[trigger] holdings(b, p, i) == holdings(a, p, i),
{
    assert(a.bank_linked(r));
    assert(q != p);
    let entry = CreditBank { pipeline: q as usize, parent: None, balance: cost };
    assert forall|i: int| 0 <= i < 4 implies #[trigger] holdings(b, p, i) == holdings(a, p, i) by {
        total_placed(a.banks, b.banks, bank, entry, bank_part(p, i));
    }
    assert forall|x: int| #[trigger] serves(b.banks, x, p) && x != r implies b.banks[x]->0.parent
        is Some by {
        if x != bank {
            assert(serves(a.banks, x, p));
        }
    }
}

proof fn stage_keeps(
    a: Accounts,
    b: Accounts,
    bank: int,
    child: int,
    cost: SWCost,
    p: int,
    r: int,
)
    requires
        a.wf(),
        moves(a, b, CreditStep::Stage(bank, child, cost)),
        rooted(a, p, r),
    ensures
        rooted(b, p, r),
        forall|i: int| 0 <= i < 4 ==> #[trigger] holdings(b, p, i) == holdings(a, p, i),
{
    let credits = a.banks[bank]->0;
    let left = CreditBank { balance: credits.balance.minus(cost), ..credits };
    let mid = a.banks.update(bank, Some(left));
    let entry = CreditBank {
        pipeline: credits.pipeline,
        parent: Some(bank as usize),
        balance: cost,
    };
    lemma_minus(credits.balance, cost);
    assert forall|i: int| 0 <= i < 4 implies #[trigger] holdings(b, p, i) == holdings(a, p, i) by {
        total_update(a.banks, bank, Some(left), bank_part(p, i));
        total_placed(mid, b.banks, child, entry, bank_part(p, i));
        assert(credits.balance.minus(cost).part(i) == credits.balance.part(i) - cost.part(i));
    }
    assert forall|x: int| #[trigger] serves(b.banks, x, p) && x != r implies b.banks[x]->0.parent
        is Some by {
        if x != child {
            assert(serves(a.banks, x, p));
        }
    }
}

proof fn retain_keeps(
    a: Accounts,
    b: Accounts,
    bank: int,
    lease: int,
    bytes: usize,
    p: int,
    r: int,
)
    requires
        a.wf(),
        moves(a, b, CreditStep::Retain(bank, lease, bytes)),
        rooted(a, p, r),
    ensures
        rooted(b, p, r),
        forall|i: int| 0 <= i < 4 ==> #[trigger] holdings(b, p, i) == holdings(a, p, i),
{
    let credits = a.banks[bank]->0;
    let cost = SWCost::of_bytes(bytes);
    lemma_within(cost, credits.balance);
    lemma_minus(credits.balance, cost);
    lemma_parts(cost);
    let charge = ByteCharge {
        pipeline: Some(credits.pipeline),
        bank: Some(bank as usize),
        kind: a.pipelines[credits.pipeline as int]->0.kind,
        bytes,
    };
    assert forall|i: int| 0 <= i < 4 implies #[trigger] holdings(b, p, i) == holdings(a, p, i) by {
        total_update(a.banks, bank, b.banks[bank], bank_part(p, i));
        total_placed(a.leases, b.leases, lease, charge, leased_to(p));
        assert(credits.balance.minus(cost).part(i) == credits.balance.part(i) - cost.part(i));
    }
    assert forall|x: int| #[trigger] serves(b.banks, x, p) && x != r implies b.banks[x]->0.parent
        is Some by {
        assert(serves(a.banks, x, p));
    }
    assert forall|l: int| #[trigger]
        live(b.leases, l) && b.leases[l]->0.pipeline is Some && b.leases[l]->0.pipeline->0
            == p implies b.leases[l]->0.bank is Some by {
        if l != lease {
            assert(live(a.leases, l));
        }
    }
}

proof fn grow_keeps(
    a: Accounts,
    b: Accounts,
    bank: int,
    cost: SWCost,
    p: int,
    r: int,
)
    requires
        a.wf(),
        moves(a, b, CreditStep::Grow(bank, cost)),
        rooted(a, p, r),
    ensures
        rooted(b, p, r),
        forall|i: int|
            0 <= i < 4 ==> #[trigger] holdings(b, p, i) == holdings(a, p, i) + grown_by(a, CreditStep::Grow(bank, cost), p, i),
{
    let credits = a.banks[bank]->0;
    grown_wf(a, bank, cost);
    lemma_plus(credits.balance, cost);
    assert forall|i: int| 0 <= i < 4 implies #[trigger] holdings(b, p, i) == holdings(a, p, i)
        + grown_by(a, CreditStep::Grow(bank, cost), p, i) by {
        total_update(a.banks, bank, b.banks[bank], bank_part(p, i));
        assert(credits.balance.plus(cost).part(i) == credits.balance.part(i) + cost.part(i));
    }
    assert forall|x: int| #[trigger] serves(b.banks, x, p) && x != r implies b.banks[x]->0.parent
        is Some by {
        assert(serves(a.banks, x, p));
    }
}

proof fn retire_keeps(
    a: Accounts,
    b: Accounts,
    bank: int,
    p: int,
    r: int,
)
    requires
        a.wf(),
        moves(a, b, CreditStep::Retire(bank)),
        bank != r,
        rooted(a, p, r),
    ensures
        rooted(b, p, r),
        forall|i: int| 0 <= i < 4 ==> #[trigger] holdings(b, p, i) == holdings(a, p, i),
{
    let gone = a.banks[bank]->0;
    let q = gone.pipeline as int;
    bank_leaves(a, bank);
    assert(a.bank_linked(bank));
    let banks = a.banks_without(bank);
    assert(live(banks, r));
    assert(serves(banks, r, p));
    if q == p {
        assert(serves(a.banks, bank, p));
        assert(gone.parent is Some);
        assert(served(banks, p));
    }
    let refunded = match gone.parent {
        Some(parent) => {
            let heir = a.banks[parent as int]->0;
            a.banks.update(
                parent as int,
                Some(CreditBank { balance: heir.balance.plus(gone.balance), ..heir }),
            )
        },
        None => a.banks,
    };
    let emptied = refunded.update(bank, None);
    if let Some(parent) = gone.parent {
        lemma_plus(a.banks[parent as int]->0.balance, gone.balance);
    }
    assert forall|i: int| 0 <= i < 4 implies #[trigger] holdings(b, p, i) == holdings(a, p, i) by {
        let f = bank_part(p, i);
        assert forall|j: int| 0 <= j < banks.len() implies f(#[trigger] banks[j]) == f(
            emptied[j],
        ) by {}
        total_pointwise(banks, emptied, f, f);
        total_update(refunded, bank, None, f);
        if let Some(parent) = gone.parent {
            let heir = a.banks[parent as int]->0;
            total_update(a.banks, parent as int, refunded[parent as int], f);
            assert(heir.balance.plus(gone.balance).part(i) == heir.balance.part(i)
                + gone.balance.part(i));
        }
        let g = leased_to(p);
        assert forall|j: int| 0 <= j < b.leases.len() implies g(#[trigger] b.leases[j]) == g(
            a.leases[j],
        ) by {}
        total_pointwise(b.leases, a.leases, g, g);
    }
    assert(b.banks == banks);
    assert forall|x: int| #[trigger] serves(b.banks, x, p) && x != r implies b.banks[x]->0.parent
        is Some by {
        assert(live(banks, x));
        assert(serves(a.banks, x, p));
        if relink(a.banks[x]->0.parent, bank, gone.parent) is None {
            assert(a.banks[x]->0.parent->0 == bank);
            assert(a.bank_linked(x));
            assert(serves(a.banks, bank, p));
        }
    }
    assert(b.banks[r]->0.parent is None);
    assert forall|l: int| #[trigger]
        live(b.leases, l) && b.leases[l]->0.pipeline is Some && b.leases[l]->0.pipeline->0
            == p implies b.leases[l]->0.bank is Some by {
        assert(live(a.leases, l));
        assert(a.leases[l]->0.pipeline == b.leases[l]->0.pipeline);
        assert(a.lease_linked(l));
        if a.leases[l]->0.bank->0 == bank {
            assert(serves(a.banks, bank, p));
        }
    }
}

proof fn release_keeps(
    a: Accounts,
    b: Accounts,
    lease: int,
    p: int,
    r: int,
)
    requires
        a.wf(),
        moves(a, b, CreditStep::Release(lease)),
        rooted(a, p, r),
    ensures
        rooted(b, p, r),
        forall|i: int| 0 <= i < 4 ==> #[trigger] holdings(b, p, i) == holdings(a, p, i),
{
    let charge = a.leases[lease]->0;
    let cost = SWCost::of_bytes(charge.bytes);
    without_lease_wf(a, lease);
    assert(a.lease_linked(lease));
    lemma_parts(cost);
    if let Some(s) = charge.bank {
        lemma_plus(a.banks[s as int]->0.balance, cost);
    }
    assert forall|i: int| 0 <= i < 4 implies #[trigger] holdings(b, p, i) == holdings(a, p, i) by {
        total_update(a.leases, lease, None, leased_to(p));
        if charge.pipeline is Some {
            if let Some(s) = charge.bank {
                let credits = a.banks[s as int]->0;
                total_update(a.banks, s as int, b.banks[s as int], bank_part(p, i));
                assert(credits.balance.plus(cost).part(i) == credits.balance.part(i) + cost.part(
                    i,
                ));
            }
        }
    }
    assert forall|x: int| #[trigger] serves(b.banks, x, p) && x != r implies b.banks[x]->0.parent
        is Some by {
        assert(serves(a.banks, x, p));
    }
    assert forall|l: int| #[trigger]
        live(b.leases, l) && b.leases[l]->0.pipeline is Some && b.leases[l]->0.pipeline->0
            == p implies b.leases[l]->0.bank is Some by {
        assert(live(a.leases, l));
    }
}

/// While its first reservation lives, what a pipeline holds changes by growth
/// alone.
proof fn step_keeps(a: Accounts, b: Accounts, step: CreditStep, p: int, r: int)
    requires
        a.wf(),
        moves(a, b, step),
        step != CreditStep::Retire(r),
        rooted(a, p, r),
    ensures
        rooted(b, p, r),
        forall|i: int|
            0 <= i < 4 ==> #[trigger] holdings(b, p, i) == holdings(a, p, i) + grown_by(
                a,
                step,
                p,
                i,
            ),
{
    match step {
        CreditStep::Admit(q, bank, cost, kind) => admit_keeps(a, b, q, bank, cost, kind, p, r),
        CreditStep::Stage(bank, child, cost) => stage_keeps(a, b, bank, child, cost, p, r),
        CreditStep::Retain(bank, lease, bytes) => retain_keeps(a, b, bank, lease, bytes, p, r),
        CreditStep::Grow(bank, cost) => grow_keeps(a, b, bank, cost, p, r),
        CreditStep::Retire(bank) => retire_keeps(a, b, bank, p, r),
        CreditStep::Release(lease) => release_keeps(a, b, lease, p, r),
        CreditStep::Close => {},
        CreditStep::Report => {},
    }
}

/// A pipeline that was just admitted holds its cost, free in its one
/// reservation.
proof fn admission_holds(before: Accounts, after: Accounts, p: int, r: int, cost: SWCost, kind: Kind)
    requires
        before.wf(),
        admitted(before, after, p, r, cost, kind),
    ensures
        rooted(after, p, r),
        forall|i: int| 0 <= i < 4 ==> #[trigger] holdings(after, p, i) == cost.part(i),
{
    let entry = CreditBank { pipeline: p as usize, parent: None, balance: cost };
    assert forall|x: int| !#[trigger] serves(before.banks, x, p) by {
        if serves(before.banks, x, p) {
            assert(live(before.banks, x));
            assert(before.bank_linked(x));
        }
    }
    assert forall|l: int| #[trigger] live(before.leases, l) implies !(
    before.leases[l]->0.pipeline is Some && before.leases[l]->0.pipeline->0 == p) by {
        assert(before.lease_linked(l));
    }
    assert forall|i: int| 0 <= i < 4 implies #[trigger] holdings(after, p, i) == cost.part(i) by {
        let f = bank_part(p, i);
        total_placed(before.banks, after.banks, r, entry, f);
        assert forall|j: int| 0 <= j < before.banks.len() implies f(
            #[trigger] before.banks[j],
        ) == 0 by {
            if before.banks[j] is Some {
                assert(!serves(before.banks, j, p));
            }
        }
        total_zero(before.banks, f);
        let g = leased_to(p);
        assert forall|j: int| 0 <= j < before.leases.len() implies g(
            #[trigger] before.leases[j],
        ) == 0 by {
            if before.leases[j] is Some {
                assert(live(before.leases, j));
            }
        }
        total_zero(before.leases, g);
    }
    assert forall|x: int| #[trigger] serves(after.banks, x, p) && x != r implies after.banks[x]->0.parent
        is Some by {
        assert(serves(before.banks, x, p));
    }
    assert forall|l: int| #[trigger]
        live(after.leases, l) && after.leases[l]->0.pipeline is Some
            && after.leases[l]->0.pipeline->0 == p implies after.leases[l]->0.bank is Some by {
        assert(live(before.leases, l));
    }
}

/// What a pipeline holds after any steps that do not retire its first
/// reservation: its cost and its growths.
proof fn holdings_follow(
    states: Seq<Accounts>,
    steps: Seq<CreditStep>,
    p: int,
    r: int,
    cost: SWCost,
)
    requires
        history(states, steps),
        rooted(states[0], p, r),
        forall|i: int| 0 <= i < 4 ==> #[trigger] holdings(states[0], p, i) == cost.part(i),
        forall|k: int| 0 <= k < steps.len() ==> #[trigger] steps[k] != CreditStep::Retire(r),
    ensures
        rooted(states.last(), p, r),
        forall|i: int|
            0 <= i < 4 ==> #[trigger] holdings(states.last(), p, i) == cost.part(i) + growth(
                states,
                steps,
                p,
                i,
            ),
    decreases steps.len(),
{
    if steps.len() > 0 {
        let n = steps.len() - 1;
        let earlier = states.drop_last();
        let first = steps.drop_last();
        assert forall|k: int| 0 <= k < first.len() implies (#[trigger] earlier[k]).wf() && moves(
            earlier[k],
            earlier[k + 1],
            first[k],
        ) by {
            assert(states[k].wf());
            assert(steps[k] == first[k]);
        }
        assert forall|k: int| 0 <= k < first.len() implies #[trigger] first[k]
            != CreditStep::Retire(r) by {
            assert(steps[k] != CreditStep::Retire(r));
        }
        holdings_follow(earlier, first, p, r, cost);
        assert(earlier.last() == states[n]);
        assert(states[n].wf());
        assert(steps[n] != CreditStep::Retire(r));
        step_keeps(states[n], states[n + 1], steps[n], p, r);
        assert forall|i: int| 0 <= i < 4 implies #[trigger] holdings(states.last(), p, i)
            == cost.part(i) + growth(states, steps, p, i) by {
            assert(holdings(states[n + 1], p, i) == holdings(states[n], p, i) + grown_by(
                states[n],
                steps[n],
                p,
                i,
            ));
            assert(holdings(earlier.last(), p, i) == cost.part(i) + growth(earlier, first, p, i));
            same_growth(earlier, states, first, p, i);
        }
    }
}

/// Growth rests on the states before each step alone.
proof fn same_growth(
    a: Seq<Accounts>,
    b: Seq<Accounts>,
    steps: Seq<CreditStep>,
    p: int,
    i: int,
)
    requires
        forall|k: int| 0 <= k < steps.len() ==> #[trigger] a[k] == b[k],
    ensures
        growth(a, steps, p, i) == growth(b, steps, p, i),
    decreases steps.len(),
{
    if steps.len() > 0 {
        same_growth(a, b, steps.drop_last(), p, i);
        assert(a[steps.len() - 1] == b[steps.len() - 1]);
    }
}

/// No credit is lost or duplicated. A reservation is made at some cost, and then
/// stages, splits, retained bytes and growths follow in any order, of it, of its
/// descendants and of others. Once all its descendants and all bytes retained
/// from them are gone, in whatever order, its free credits are exactly its cost
/// and its growths.
pub proof fn credits_come_back(
    before: Accounts,
    states: Seq<Accounts>,
    steps: Seq<CreditStep>,
    pipeline: int,
    root: int,
    cost: SWCost,
    kind: Kind,
    i: int,
)
    requires
        before.wf(),
        history(states, steps),
        admitted(before, states[0], pipeline, root, cost, kind),
        forall|k: int| 0 <= k < steps.len() ==> #[trigger] steps[k] != CreditStep::Retire(root),
        alone(states.last(), pipeline, root),
        0 <= i < 4,
    ensures
        serves(states.last().banks, root, pipeline),
        states.last().banks[root]->0.balance.part(i) == cost.part(i) + growth(
            states,
            steps,
            pipeline,
            i,
        ),
{
    admission_holds(before, states[0], pipeline, root, cost, kind);
    holdings_follow(states, steps, pipeline, root, cost);
    let a = states.last();
    assert(holdings(a, pipeline, i) == cost.part(i) + growth(states, steps, pipeline, i));
    let f = bank_part(pipeline, i);
    total_update(a.banks, root, None, f);
    let rest = a.banks.update(root, None);
    assert forall|j: int| 0 <= j < rest.len() implies f(#[trigger] rest[j]) == 0 by {
        if j != root && a.banks[j] is Some {
            if a.banks[j]->0.pipeline == pipeline {
                assert(serves(a.banks, j, pipeline));
            }
        }
    }
    total_zero(rest, f);
    let g = leased_to(pipeline);
    assert forall|j: int| 0 <= j < a.leases.len() implies g(#[trigger] a.leases[j]) == 0 by {
        if a.leases[j] is Some {
            assert(live(a.leases, j));
        }
    }
    total_zero(a.leases, g);
}

} // verus!
