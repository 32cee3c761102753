//! What a capacity policy grants, refuses and takes back, by its numbers.
use crate::cost::lemma_minus;
use crate::cost::lemma_parts;
use crate::cost::lemma_plus;
use crate::cost::lemma_within;
use crate::cost::SWCost;
use crate::cost::SWLimitError;
use crate::cost::SWLimits;
use crate::cost::SWReservationError;
use crate::reservation::Accounts;
use crate::reservation::bank_leaves;
use crate::reservation::claim_error;
use crate::reservation::grown_wf;
use crate::reservation::Kind;
use crate::reservation::reserved;
use crate::reservation::retained;
use crate::reservation::served;
use crate::reservation::serves;
use crate::reservation::SWReservation;
use crate::reservation::total_charged;
use crate::reservation::Usage;
use crate::reservation::without_lease_wf;
use crate::slots::live;
use vstd::prelude::*;

verus! {

/// Every number of the first is at most that of the second.
pub proof fn within_by_numbers(a: SWCost, b: SWCost)
    ensures
        a.within(b) <==> {
            &&& a.records <= b.records
            &&& a.edges <= b.edges
            &&& a.deliveries <= b.deliveries
            &&& a.bytes <= b.bytes
        },
        a.metadata_within(b) <==> {
            &&& a.records <= b.records
            &&& a.edges <= b.edges
            &&& a.deliveries <= b.deliveries
        },
        a.can_add(b) <==> {
            &&& a.records + b.records <= usize::MAX
            &&& a.edges + b.edges <= usize::MAX
            &&& a.deliveries + b.deliveries <= usize::MAX
            &&& a.bytes + b.bytes <= usize::MAX
        },
{
    lemma_parts(a);
    lemma_parts(b);
    lemma_within(a, b);
    assert(a.part(0) == a.records && a.part(1) == a.edges && a.part(2) == a.deliveries && a.part(3)
        == a.bytes);
    assert(b.part(0) == b.records && b.part(1) == b.edges && b.part(2) == b.deliveries && b.part(3)
        == b.bytes);
    if a.metadata_within(b) {
        assert(a.part(0) <= b.part(0) && a.part(1) <= b.part(1) && a.part(2) <= b.part(2));
    }
    if a.can_add(b) {
        assert(a.part(0) + b.part(0) <= usize::MAX);
        assert(a.part(1) + b.part(1) <= usize::MAX);
        assert(a.part(2) + b.part(2) <= usize::MAX);
        assert(a.part(3) + b.part(3) <= usize::MAX);
    }
}

/// The bytes in use after `more` of them stay under the ceiling, and can be
/// counted.
pub open spec fn bytes_fit(limits: SWLimits, usage: Usage, more: usize) -> bool {
    let bytes = usage.ordinary.bytes + usage.required.bytes + more;
    bytes <= usize::MAX && match limits.hard_byte_ceiling {
        Some(ceiling) => bytes <= ceiling,
        None => true,
    }
}

/// An ordinary window is granted exactly where there is room: the pool is open,
/// what ordinary work uses and the cost together stay within the target in every
/// component, and all bytes stay under the ceiling.
pub proof fn ordinary_room_is_granted(
    before: Accounts,
    after: Accounts,
    cost: SWCost,
    result: Result<SWReservation, SWReservationError>,
)
    requires
        before.wf(),
        reserved(before, after, cost, Kind::Ordinary, result),
    ensures
        ({
            let used = before.usage.ordinary;
            let target = before.limits.ordinary_target;
            &&& result is Ok <==> {
                &&& !before.usage.closed
                &&& used.records + cost.records <= target.records
                &&& used.edges + cost.edges <= target.edges
                &&& used.deliveries + cost.deliveries <= target.deliveries
                &&& used.bytes + cost.bytes <= target.bytes
                &&& bytes_fit(before.limits, before.usage, cost.bytes)
            }
            &&& result is Ok ==> {
                &&& after.usage.ordinary.records == used.records + cost.records
                &&& after.usage.ordinary.edges == used.edges + cost.edges
                &&& after.usage.ordinary.deliveries == used.deliveries + cost.deliveries
                &&& after.usage.ordinary.bytes == used.bytes + cost.bytes
                &&& after.usage.required == before.usage.required
                &&& after.usage.pipelines == before.usage.pipelines
                &&& !after.usage.closed
                &&& after.limits == before.limits
                &&& after.banks[result->Ok_0.bank_slot()]->0.balance == cost
                &&& after.banks[result->Ok_0.bank_slot()]->0.parent is None
            }
        }),
{
    let used = before.usage.ordinary;
    let target = before.limits.ordinary_target;
    within_by_numbers(cost, target);
    within_by_numbers(used, cost);
    within_by_numbers(used, target);
    within_by_numbers(used.plus(cost), target);
    if used.can_add(cost) {
        lemma_plus(used, cost);
    }
}

/// A required pipeline is granted exactly where there is room: the pool is open,
/// fewer required pipelines live than the policy allows, what they use and the
/// cost together stay within the allowance in every component but the bytes,
/// and all bytes stay under the ceiling.
pub proof fn required_room_is_granted(
    before: Accounts,
    after: Accounts,
    cost: SWCost,
    result: Result<SWReservation, SWReservationError>,
)
    requires
        before.wf(),
        reserved(before, after, cost, Kind::Required, result),
    ensures
        ({
            let used = before.usage.required;
            let allowance = before.limits.required_allowance;
            &&& result is Ok <==> {
                &&& !before.usage.closed
                &&& before.usage.pipelines < before.limits.required_pipelines
                &&& used.records + cost.records <= allowance.records
                &&& used.edges + cost.edges <= allowance.edges
                &&& used.deliveries + cost.deliveries <= allowance.deliveries
                &&& bytes_fit(before.limits, before.usage, cost.bytes)
            }
            &&& result is Ok ==> {
                &&& after.usage.required.records == used.records + cost.records
                &&& after.usage.required.edges == used.edges + cost.edges
                &&& after.usage.required.deliveries == used.deliveries + cost.deliveries
                &&& after.usage.required.bytes == used.bytes + cost.bytes
                &&& after.usage.ordinary == before.usage.ordinary
                &&& after.usage.pipelines == before.usage.pipelines + 1
                &&& !after.usage.closed
                &&& after.limits == before.limits
                &&& after.banks[result->Ok_0.bank_slot()]->0.balance == cost
                &&& after.banks[result->Ok_0.bank_slot()]->0.parent is None
            }
        }),
{
    let used = before.usage.required;
    let allowance = before.limits.required_allowance;
    within_by_numbers(cost, allowance);
    within_by_numbers(used, cost);
    within_by_numbers(used, allowance);
    within_by_numbers(used.plus(cost), allowance);
    if used.can_add(cost) {
        lemma_plus(used, cost);
    }
}

/// A pool in which nothing is used.
pub open spec fn unused(usage: Usage) -> bool {
    &&& usage.ordinary.records == 0 && usage.ordinary.edges == 0 && usage.ordinary.deliveries == 0
        && usage.ordinary.bytes == 0
    &&& usage.required.records == 0 && usage.required.edges == 0 && usage.required.deliveries == 0
        && usage.required.bytes == 0
    &&& usage.pipelines == 0
    &&& !usage.closed
}

/// A refusal says whether waiting helps: `Closed` exactly by a closed pool;
/// `TooLarge` exactly where even an unused pool of the same policy would refuse;
/// `Full` exactly where that one would grant it.
pub proof fn refusals_say_whether_waiting_helps(
    limits: SWLimits,
    usage: Usage,
    empty: Usage,
    cost: SWCost,
    kind: Kind,
    new_pipeline: bool,
)
    requires
        unused(empty),
    ensures
        ({
            let error = claim_error(limits, usage, cost, kind, new_pipeline);
            let possible = claim_error(limits, empty, cost, kind, new_pipeline) is None;
            &&& error == Some(SWReservationError::Closed) <==> usage.closed
            &&& error == Some(SWReservationError::TooLarge) <==> !usage.closed && !possible
            &&& error == Some(SWReservationError::Full) ==> !usage.closed && possible
            &&& error != Some(SWReservationError::InsufficientCredits)
        }),
{
    let limit = match kind {
        Kind::Ordinary => limits.ordinary_target,
        Kind::Required => limits.required_allowance,
    };
    let nothing = empty.of(kind);
    within_by_numbers(cost, limit);
    within_by_numbers(nothing, cost);
    within_by_numbers(nothing.plus(cost), limit);
    lemma_plus(nothing, cost);
}

/// A policy is accepted exactly if it can be kept: required pipelines have
/// metadata to use, the two metadata allowances can be counted together, and
/// the ordinary target does not exceed the ceiling.
pub proof fn policies_that_can_be_kept(limits: SWLimits)
    ensures
        ({
            let o = limits.ordinary_target;
            let r = limits.required_allowance;
            let useless = limits.required_pipelines > 0 && r.records + r.edges + r.deliveries == 0;
            let uncountable = o.records + r.records > usize::MAX || o.edges + r.edges > usize::MAX
                || o.deliveries + r.deliveries > usize::MAX;
            let over = match limits.hard_byte_ceiling {
                Some(ceiling) => o.bytes > ceiling,
                None => false,
            };
            &&& limits.error() is None <==> !useless && !uncountable && !over
            &&& limits.error() == Some(SWLimitError::ZeroRequiredCapacity) <==> useless
            &&& limits.error() == Some(SWLimitError::MetadataOverflow) <==> !useless && uncountable
        }),
{
}

/// Growth is granted exactly where there is room for the addition, and where a
/// pipeline of the whole size would be possible; it adds to the pool's charge and
/// to the reservation's credits, component by component.
pub proof fn growth_room_is_granted(a: Accounts, bank: int, more: SWCost)
    requires
        a.wf(),
        live(a.banks, bank),
    ensures
        ({
            let pipeline = a.banks[bank]->0.pipeline as int;
            let entry = a.pipelines[pipeline]->0;
            let used = match entry.kind {
                Kind::Ordinary => a.usage.ordinary,
                Kind::Required => a.usage.required,
            };
            let limit = match entry.kind {
                Kind::Ordinary => a.limits.ordinary_target,
                Kind::Required => a.limits.required_allowance,
            };
            let ordinary = entry.kind == Kind::Ordinary;
            let granted = a.grow_error(pipeline, more) is None;
            let w = a.grown(pipeline, bank, more);
            &&& granted <==> {
                &&& !a.usage.closed
                &&& used.records + more.records <= limit.records
                &&& used.edges + more.edges <= limit.edges
                &&& used.deliveries + more.deliveries <= limit.deliveries
                &&& ordinary ==> used.bytes + more.bytes <= limit.bytes
                &&& bytes_fit(a.limits, a.usage, more.bytes)
            }
            &&& granted ==> {
                &&& w.banks[bank]->0.balance.records == a.banks[bank]->0.balance.records
                    + more.records
                &&& w.banks[bank]->0.balance.edges == a.banks[bank]->0.balance.edges + more.edges
                &&& w.banks[bank]->0.balance.deliveries == a.banks[bank]->0.balance.deliveries
                    + more.deliveries
                &&& w.banks[bank]->0.balance.bytes == a.banks[bank]->0.balance.bytes + more.bytes
                &&& ordinary ==> w.usage.ordinary.records == used.records + more.records
                    && w.usage.ordinary.bytes == used.bytes + more.bytes && w.usage.required
                    == a.usage.required
                &&& !ordinary ==> w.usage.required.records == used.records + more.records
                    && w.usage.required.bytes == used.bytes + more.bytes && w.usage.ordinary
                    == a.usage.ordinary
                &&& w.usage.pipelines == a.usage.pipelines
                &&& forall|b: int| b != bank && live(a.banks, b) ==> #[trigger] w.banks[b]
                    == a.banks[b]
            }
        }),
{
    let pipeline = a.banks[bank]->0.pipeline as int;
    assert(a.bank_linked(bank));
    let entry = a.pipelines[pipeline]->0;
    let used = a.usage.of(entry.kind);
    let limit = match entry.kind {
        Kind::Ordinary => a.limits.ordinary_target,
        Kind::Required => a.limits.required_allowance,
    };
    total_charged(a, pipeline);
    within_by_numbers(entry.total, used);
    within_by_numbers(entry.total, more);
    within_by_numbers(entry.total.plus(more), limit);
    within_by_numbers(more, limit);
    within_by_numbers(used, more);
    within_by_numbers(used, limit);
    within_by_numbers(used.plus(more), limit);
    if used.can_add(more) {
        lemma_plus(entry.total, more);
        lemma_plus(used, more);
    }
    if a.grow_error(pipeline, more) is None {
        grown_wf(a, bank, more);
        within_by_numbers(a.banks[bank]->0.balance, more);
        lemma_plus(a.banks[bank]->0.balance, more);
    }
}

/// A stage or a split is granted exactly where every component of its cost is
/// free in the reservation. It moves that much to the child, and leaves what the
/// pool has charged and every other reservation alone.
pub proof fn stages_move_free_credits(
    before: Accounts,
    after: Accounts,
    parent: SWReservation,
    cost: SWCost,
    result: Result<SWReservation, SWReservationError>,
)
    requires
        before.wf(),
        parent.held_in(before),
        parent.staged_by(before, after, cost, result),
    ensures
        ({
            let free = before.banks[parent.bank_slot()]->0.balance;
            &&& result is Ok <==> {
                &&& cost.records <= free.records
                &&& cost.edges <= free.edges
                &&& cost.deliveries <= free.deliveries
                &&& cost.bytes <= free.bytes
            }
            &&& result is Err ==> result->Err_0 == SWReservationError::InsufficientCredits && after
                == before
            &&& result is Ok ==> {
                let left = after.banks[parent.bank_slot()]->0.balance;
                let child = after.banks[result->Ok_0.bank_slot()]->0;
                &&& child.balance == cost
                &&& child.parent is Some && child.parent->0 == parent.bank_slot() as usize
                &&& left.records + cost.records == free.records
                &&& left.edges + cost.edges == free.edges
                &&& left.deliveries + cost.deliveries == free.deliveries
                &&& left.bytes + cost.bytes == free.bytes
                &&& after.usage == before.usage
                &&& after.pipelines == before.pipelines
                &&& after.leases == before.leases
            }
        }),
{
    let free = before.banks[parent.bank_slot()]->0.balance;
    within_by_numbers(cost, free);
    if result is Ok {
        lemma_minus(free, cost);
    }
}

/// A result takes bytes out of a reservation: they are free there no more, stay
/// charged to the pool, and nothing else moves.
pub proof fn retained_bytes_stay_charged(
    before: Accounts,
    after: Accounts,
    bank: int,
    lease: int,
    bytes: usize,
)
    requires
        before.wf(),
        live(before.banks, bank),
        bytes <= before.banks[bank]->0.balance.bytes,
        retained(before, after, bank, lease, bytes),
    ensures
        ({
            let free = before.banks[bank]->0.balance;
            let left = after.banks[bank]->0.balance;
            &&& left.bytes + bytes == free.bytes
            &&& left.records == free.records && left.edges == free.edges && left.deliveries
                == free.deliveries
            &&& after.usage == before.usage
            &&& after.leases[lease] is Some && after.leases[lease]->0.bytes == bytes
            &&& after.leases[lease]->0.pipeline == Some(before.banks[bank]->0.pipeline)
        }),
{
    let cost = SWCost::of_bytes(bytes);
    within_by_numbers(cost, before.banks[bank]->0.balance);
    lemma_minus(before.banks[bank]->0.balance, cost);
}

/// Retained bytes that are released return to the nearest live reservation of
/// their pipeline, or, where the pipeline has ended, stop being charged.
pub proof fn released_bytes_return(a: Accounts, lease: int)
    requires
        a.wf(),
        live(a.leases, lease),
    ensures
        ({
            let charge = a.leases[lease]->0;
            let w = a.without_lease(lease);
            &&& w.leases[lease] is None
            &&& charge.pipeline is Some ==> w.usage == a.usage
            &&& charge.pipeline is None && charge.kind == Kind::Ordinary ==> {
                &&& w.usage.ordinary.bytes + charge.bytes == a.usage.ordinary.bytes
                &&& w.usage.required == a.usage.required
            }
            &&& charge.pipeline is None && charge.kind == Kind::Required ==> {
                &&& w.usage.required.bytes + charge.bytes == a.usage.required.bytes
                &&& w.usage.ordinary == a.usage.ordinary
            }
            &&& charge.pipeline is Some && charge.bank is Some ==> {
                let old = a.banks[charge.bank->0 as int]->0.balance;
                let new = w.banks[charge.bank->0 as int]->0.balance;
                &&& new.bytes == old.bytes + charge.bytes
                &&& new.records == old.records && new.edges == old.edges && new.deliveries
                    == old.deliveries
            }
            &&& w.usage.pipelines == a.usage.pipelines
        }),
{
    let charge = a.leases[lease]->0;
    let cost = SWCost::of_bytes(charge.bytes);
    assert(a.lease_linked(lease));
    without_lease_wf(a, lease);
    if let Some(bank) = charge.bank {
        within_by_numbers(a.banks[bank as int]->0.balance, cost);
        lemma_plus(a.banks[bank as int]->0.balance, cost);
    }
    if charge.pipeline is None {
        within_by_numbers(cost, a.usage.of(charge.kind));
        lemma_minus(a.usage.of(charge.kind), cost);
    }
}

/// A retired reservation gives its free credits to its parent. The last one of a
/// pipeline ends it: the pool takes back everything that the pipeline was still
/// charged, and a required one no longer counts.
pub proof fn retired_credits_return(a: Accounts, bank: int)
    requires
        a.wf(),
        live(a.banks, bank),
    ensures
        ({
            let gone = a.banks[bank]->0;
            let pipeline = gone.pipeline as int;
            let entry = a.pipelines[pipeline]->0;
            let w = a.without_bank(bank);
            let others = exists|b: int|
                b != bank && live(a.banks, b) && (#[trigger] a.banks[b])->0.pipeline == pipeline;
            &&& !live(w.banks, bank)
            &&& others ==> w.usage == a.usage
            &&& !others && entry.kind == Kind::Ordinary ==> {
                &&& w.usage.ordinary.records + entry.total.records == a.usage.ordinary.records
                &&& w.usage.ordinary.edges + entry.total.edges == a.usage.ordinary.edges
                &&& w.usage.ordinary.deliveries + entry.total.deliveries
                    == a.usage.ordinary.deliveries
                &&& w.usage.ordinary.bytes + entry.total.bytes == a.usage.ordinary.bytes
                &&& w.usage.required == a.usage.required
                &&& w.usage.pipelines == a.usage.pipelines
            }
            &&& !others && entry.kind == Kind::Required ==> {
                &&& w.usage.required.records + entry.total.records == a.usage.required.records
                &&& w.usage.required.edges + entry.total.edges == a.usage.required.edges
                &&& w.usage.required.deliveries + entry.total.deliveries
                    == a.usage.required.deliveries
                &&& w.usage.required.bytes + entry.total.bytes == a.usage.required.bytes
                &&& w.usage.ordinary == a.usage.ordinary
                &&& w.usage.pipelines + 1 == a.usage.pipelines
            }
            &&& gone.parent is Some ==> {
                let old = a.banks[gone.parent->0 as int]->0.balance;
                let new = w.banks[gone.parent->0 as int]->0.balance;
                &&& new.records == old.records + gone.balance.records
                &&& new.edges == old.edges + gone.balance.edges
                &&& new.deliveries == old.deliveries + gone.balance.deliveries
                &&& new.bytes == old.bytes + gone.balance.bytes
            }
            &&& w.usage.closed == a.usage.closed
        }),
{
    let gone = a.banks[bank]->0;
    let pipeline = gone.pipeline as int;
    assert(a.bank_linked(bank));
    bank_leaves(a, bank);
    let w = a.without_bank(bank);
    let banks = a.banks_without(bank);
    let entry = a.pipelines[pipeline]->0;
    total_charged(a, pipeline);
    within_by_numbers(entry.total, a.usage.of(entry.kind));
    lemma_minus(a.usage.of(entry.kind), entry.total);
    if let Some(parent) = gone.parent {
        within_by_numbers(a.banks[parent as int]->0.balance, gone.balance);
        lemma_plus(a.banks[parent as int]->0.balance, gone.balance);
        assert(serves(a.banks, parent as int, pipeline));
        assert(live(banks, parent as int));
    }
    if served(banks, pipeline) {
        let b = choose|b: int| #[trigger] serves(banks, b, pipeline);
        assert(live(banks, b));
        assert(a.banks[b]->0.pipeline == pipeline);
    }
    if exists|b: int|
        b != bank && live(a.banks, b) && (#[trigger] a.banks[b])->0.pipeline == pipeline {
        let b = choose|b: int|
            b != bank && live(a.banks, b) && (#[trigger] a.banks[b])->0.pipeline == pipeline;
        assert(live(banks, b));
        assert(serves(banks, b, pipeline));
    }
}

/// A charge is granted exactly where there is room, in numbers: the pool is open,
/// what its kind uses and the cost together stay within the allowance of that
/// kind, where only ordinary bytes have one; all bytes stay under the ceiling; and
/// a new required pipeline finds fewer of them than the policy allows.
pub proof fn room_is_granted(
    limits: SWLimits,
    usage: Usage,
    cost: SWCost,
    kind: Kind,
    new_pipeline: bool,
)
    ensures
        ({
            let ordinary = kind == Kind::Ordinary;
            let used = if ordinary {
                usage.ordinary
            } else {
                usage.required
            };
            let limit = if ordinary {
                limits.ordinary_target
            } else {
                limits.required_allowance
            };
            let bytes = usage.ordinary.bytes + usage.required.bytes + cost.bytes;
            claim_error(limits, usage, cost, kind, new_pipeline) is None <==> {
                &&& !usage.closed
                &&& new_pipeline && !ordinary ==> usage.pipelines < limits.required_pipelines
                &&& used.records + cost.records <= limit.records
                &&& used.edges + cost.edges <= limit.edges
                &&& used.deliveries + cost.deliveries <= limit.deliveries
                &&& ordinary ==> used.bytes + cost.bytes <= limit.bytes
                &&& bytes <= usize::MAX
                &&& limits.hard_byte_ceiling is Some ==> bytes <= limits.hard_byte_ceiling->0
            }
        }),
{
    let used = usage.of(kind);
    let limit = match kind {
        Kind::Ordinary => limits.ordinary_target,
        Kind::Required => limits.required_allowance,
    };
    within_by_numbers(cost, limit);
    within_by_numbers(used, cost);
    within_by_numbers(used, limit);
    within_by_numbers(used.plus(cost), limit);
    if used.can_add(cost) {
        lemma_plus(used, cost);
    }
}

} // verus!
