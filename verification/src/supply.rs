//! Capacity that admission draws for one piece of work.
use crate::admission::map_reservation_error;
use crate::admission::reservation_refusal;
use crate::admission::SWSpawnError;
use crate::cost::lemma_within;
use crate::cost::SWCost;
use crate::cost::SWReservationError;
use crate::reservation::admitted;
use crate::reservation::carries;
use crate::reservation::carries_handles;
use crate::reservation::claim_error;
use crate::reservation::draws_carry;
use crate::reservation::retained;
use crate::reservation::serves;
use crate::reservation::staged;
use crate::reservation::Accounts;
use crate::reservation::Kind;
use crate::reservation::SWByteLease;
use crate::reservation::SWReservation;
use crate::reservation::SWReservationPool;
use crate::slots::live;
use vstd::prelude::*;

verus! {

/// The books of an optional pool.
pub open spec fn books(pool: Option<SWReservationPool>) -> Option<Accounts> {
    match pool {
        Some(pool) => Some(pool@),
        None => None,
    }
}

pub open spec fn books_wf(books: Option<Accounts>, runtime: u64) -> bool {
    books matches Some(books) ==> books.wf() && books.identity == runtime
}

/// What one piece of work needs.
#[derive(Clone, Copy, Debug, PartialEq, Eq, Structural)]
pub struct Need {
    pub cost: SWCost,
    /// Bytes that follow the result.
    pub retained_bytes: usize,
    /// A promised delivery that is not accounted elsewhere.
    pub delivery: bool,
}

impl Need {
    pub open spec fn coherent(self) -> bool {
        &&& self.retained_bytes <= self.cost.bytes
        &&& self.delivery ==> self.cost.deliveries >= 1
    }
}

/// What was drawn: the work's own credits, the bytes of its result, and the
/// credit of its delivery.
pub struct Supplied {
    pub charge: Option<SWReservation>,
    pub bytes: Option<SWByteLease>,
    pub ticket: Option<SWReservation>,
}

/// A reservation that a caller names is live here, if it is of this runtime.
pub open spec fn reservation_known(
    books: Option<Accounts>,
    runtime: u64,
    reservation: Option<&SWReservation>,
) -> bool {
    reservation matches Some(parent) ==> (parent.identity() == runtime ==> books is Some
        && parent.held_in(books->0))
}

/// Why the capacity is refused, if it is. Without a pool only bytes are.
pub open spec fn draw_error(
    books: Option<Accounts>,
    runtime: u64,
    reservation: Option<&SWReservation>,
    cost: SWCost,
) -> Option<SWSpawnError> {
    match reservation {
        Some(parent) => if parent.identity() != runtime {
            Some(SWSpawnError::InvalidReservation)
        } else if !cost.within(books->0.banks[parent.bank_slot()]->0.balance) {
            Some(reservation_refusal(SWReservationError::InsufficientCredits))
        } else {
            None
        },
        None => match books {
            Some(books) => match claim_error(
                books.limits,
                books.usage,
                cost,
                Kind::Ordinary,
                true,
            ) {
                Some(error) => Some(reservation_refusal(error)),
                None => None,
            },
            None => if cost.bytes != 0 {
                Some(SWSpawnError::Disabled)
            } else {
                None
            },
        },
    }
}

/// The work's own credits: a stage of the named reservation, or an ordinary
/// window of the pool.
pub open spec fn drawn(
    before: Accounts,
    after: Accounts,
    reservation: Option<&SWReservation>,
    cost: SWCost,
    charge: SWReservation,
) -> bool {
    &&& charge.held_in(after)
    &&& !live(before.banks, charge.bank_slot())
    &&& match reservation {
        Some(parent) => staged(before, after, parent.bank_slot(), charge.bank_slot(), cost),
        None => admitted(
            before,
            after,
            charge.pipeline_slot(),
            charge.bank_slot(),
            cost,
            Kind::Ordinary,
        ),
    }
}

/// The bytes of the result, where there are any.
pub open spec fn kept(
    before: Accounts,
    after: Accounts,
    charge: SWReservation,
    bytes: usize,
    lease: Option<SWByteLease>,
) -> bool {
    if bytes == 0 {
        lease is None && after == before
    } else {
        &&& lease is Some
        &&& lease->0.byte_count() == bytes
        &&& lease->0.held_in(after)
        &&& retained(before, after, charge.bank_slot(), lease->0.lease_slot(), bytes)
    }
}

/// The credit of a promised delivery, where it is not accounted elsewhere.
pub open spec fn promised(
    before: Accounts,
    after: Accounts,
    charge: SWReservation,
    delivery: bool,
    ticket: Option<SWReservation>,
) -> bool {
    if !delivery {
        ticket is None && after == before
    } else {
        &&& ticket is Some
        &&& ticket->0.held_in(after)
        &&& !live(before.banks, ticket->0.bank_slot())
        &&& staged(
            before,
            after,
            charge.bank_slot(),
            ticket->0.bank_slot(),
            SWCost::one_delivery(),
        )
    }
}

/// The three draws, one after the other.
pub open spec fn supply_steps(
    a0: Accounts,
    a1: Accounts,
    a2: Accounts,
    a3: Accounts,
    reservation: Option<&SWReservation>,
    need: Need,
    supply: Supplied,
) -> bool {
    &&& supply.charge is Some
    &&& drawn(a0, a1, reservation, need.cost, supply.charge->0)
    &&& kept(a1, a2, supply.charge->0, need.retained_bytes, supply.bytes)
    &&& promised(a2, a3, supply.charge->0, need.delivery, supply.ticket)
}

/// What was drawn came out of these books.
pub open spec fn supplied(
    before: Option<Accounts>,
    after: Option<Accounts>,
    reservation: Option<&SWReservation>,
    need: Need,
    supply: Supplied,
) -> bool {
    match before {
        None => after is None && supply.charge is None && supply.bytes is None && supply.ticket
            is None,
        Some(a0) => {
            &&& after is Some
            &&& exists|a1: Accounts, a2: Accounts| #[trigger]
                supply_steps(a0, a1, a2, after->0, reservation, need, supply)
        },
    }
}

/// Notifications of a draw that is given back. An ordinary window notifies when
/// it is reserved, when its reservation goes, and when that ends its pipeline; a
/// stage of a reservation only when it goes; retained bytes and the credit of a
/// promised delivery when they go.
pub open spec fn draw_wakes(
    reservation: Option<&SWReservation>,
    retained_bytes: usize,
    promised: bool,
) -> int {
    (if reservation is Some {
        1int
    } else {
        3int
    }) + (if retained_bytes > 0 {
        1int
    } else {
        0int
    }) + (if promised {
        1int
    } else {
        0int
    })
}

pub fn count_draw_wakes(
    reservation: Option<&SWReservation>,
    retained_bytes: usize,
    promised: bool,
) -> (wakes: u64)
    ensures
        wakes == draw_wakes(reservation, retained_bytes, promised),
{
    let mut wakes: u64 = 3;
    if reservation.is_some() {
        wakes = 1;
    }
    if retained_bytes > 0 {
        wakes = wakes + 1;
    }
    if promised {
        wakes = wakes + 1;
    }
    wakes
}

/// Why the capacity would be refused now, if it would be.
pub fn check_draw(
    pool: &Option<SWReservationPool>,
    runtime: u64,
    reservation: Option<&SWReservation>,
    cost: SWCost,
) -> (error: Option<SWSpawnError>)
    requires
        books_wf(books(*pool), runtime),
        reservation_known(books(*pool), runtime, reservation),
    ensures
        error == draw_error(books(*pool), runtime, reservation, cost),
{
    match reservation {
        Some(parent) => {
            if parent.runtime_identity() != runtime {
                return Some(SWSpawnError::InvalidReservation);
            }
            match pool {
                Some(pool) => {
                    if cost.fits(parent.available(pool)) {
                        None
                    } else {
                        Some(map_reservation_error(SWReservationError::InsufficientCredits))
                    }
                },
                None => None,
            }
        },
        None => match pool {
            Some(pool) => match pool.check_claim(cost, Kind::Ordinary, true) {
                Some(error) => Some(map_reservation_error(error)),
                None => None,
            },
            None => if cost.bytes != 0 {
                Some(SWSpawnError::Disabled)
            } else {
                None
            },
        },
    }
}

/// Draws what a piece of work needs. Nothing is taken away from anybody else.
pub fn supply(
    pool: &mut Option<SWReservationPool>,
    runtime: u64,
    reservation: Option<&SWReservation>,
    need: Need,
) -> (supply: Supplied)
    requires
        books_wf(books(*old(pool)), runtime),
        reservation_known(books(*old(pool)), runtime, reservation),
        draw_error(books(*old(pool)), runtime, reservation, need.cost) is None,
        need.coherent(),
    ensures
        books_wf(books(*final(pool)), runtime),
        supplied(books(*old(pool)), books(*final(pool)), reservation, need, supply),
        books(*final(pool)) is Some <==> books(*old(pool)) is Some,
        books(*old(pool)) matches Some(before) ==> {
            let after = books(*final(pool))->0;
            &&& carries(before, after)
            &&& supply.charge is Some
            &&& supply.charge->0.held_in(after)
            &&& !live(before.banks, supply.charge->0.bank_slot())
            &&& supply.bytes matches Some(lease) ==> lease.held_in(after)
            &&& supply.ticket matches Some(ticket) ==> {
                &&& ticket.held_in(after)
                &&& !live(before.banks, ticket.bank_slot())
                &&& ticket.bank_slot() != supply.charge->0.bank_slot()
            }
        },
{
    match pool {
        None => Supplied { charge: None, bytes: None, ticket: None },
        Some(pool) => {
            let ghost a0 = pool@;
            let cost = need.cost;
            let drawn_charge = match reservation {
                Some(parent) => parent.stage(pool, cost),
                None => pool.try_reserve_ordinary(cost),
            };
            match drawn_charge {
                Err(_) => {
                    proof {
                        assert(false);
                    }
                    Supplied { charge: None, bytes: None, ticket: None }
                },
                Ok(charge) => {
                    let ghost a1 = pool@;
                    let ghost slot = charge.bank_slot();
                    proof {
                        match reservation {
                            Some(parent) => {
                                assert(serves(
                                    a0.banks,
                                    parent.bank_slot(),
                                    parent.pipeline_slot(),
                                ));
                                draws_carry(
                                    a0,
                                    a1,
                                    0,
                                    parent.bank_slot(),
                                    slot,
                                    cost,
                                    Kind::Ordinary,
                                    0,
                                );
                            },
                            None => {
                                draws_carry(
                                    a0,
                                    a1,
                                    charge.pipeline_slot(),
                                    slot,
                                    0,
                                    cost,
                                    Kind::Ordinary,
                                    0,
                                );
                            },
                        }
                        assert(a1.banks[slot]->0.balance == cost);
                        assert(drawn(a0, a1, reservation, cost, charge));
                    }
                    let mut bytes: Option<SWByteLease> = None;
                    if need.retained_bytes != 0 {
                        match charge.retain_bytes(pool, need.retained_bytes) {
                            Ok(lease) => {
                                bytes = Some(lease);
                            },
                            Err(_) => {},
                        }
                        proof {
                            draws_carry(
                                a1,
                                pool@,
                                0,
                                slot,
                                bytes->0.lease_slot(),
                                cost,
                                Kind::Ordinary,
                                need.retained_bytes,
                            );
                            lemma_within(SWCost::of_bytes(need.retained_bytes), cost);
                        }
                    }
                    let ghost a2 = pool@;
                    proof {
                        assert(kept(a1, a2, charge, need.retained_bytes, bytes));
                        assert(a2.banks[slot]->0.balance.deliveries == cost.deliveries);
                        lemma_within(SWCost::one_delivery(), a2.banks[slot]->0.balance);
                    }
                    let mut ticket: Option<SWReservation> = None;
                    if need.delivery {
                        match charge.stage(pool, SWCost::new(0, 0, 1, 0)) {
                            Ok(child) => {
                                ticket = Some(child);
                            },
                            Err(_) => {},
                        }
                        proof {
                            draws_carry(
                                a2,
                                pool@,
                                0,
                                slot,
                                ticket->0.bank_slot(),
                                SWCost::one_delivery(),
                                Kind::Ordinary,
                                0,
                            );
                        }
                    }
                    let supply = Supplied { charge: Some(charge), bytes, ticket };
                    proof {
                        let a3 = pool@;
                        assert(promised(a2, a3, charge, need.delivery, ticket));
                        carries_handles(a0, a1);
                        carries_handles(a1, a2);
                        carries_handles(a2, a3);
                        carries_chain(a0, a1, a2);
                        carries_chain(a0, a2, a3);
                        assert(live(a1.banks, slot));
                        assert(live(a2.banks, slot));
                        if need.delivery {
                            let t = ticket->0.bank_slot();
                            if live(a0.banks, t) {
                                assert(live(a2.banks, t));
                            }
                        }
                        assert(supply_steps(a0, a1, a2, a3, reservation, need, supply));
                    }
                    supply
                },
            }
        },
    }
}

proof fn carries_chain(a: Accounts, b: Accounts, c: Accounts)
    requires
        carries(a, b),
        carries(b, c),
    ensures
        carries(a, c),
{
    assert forall|s: int| #[trigger] live(a.banks, s) implies live(c.banks, s)
        && c.banks[s]->0.pipeline == a.banks[s]->0.pipeline by {
        assert(live(b.banks, s));
    }
    assert forall|p: int| #[trigger] live(a.pipelines, p) implies live(c.pipelines, p)
        && c.pipelines[p]->0.kind == a.pipelines[p]->0.kind by {
        assert(live(b.pipelines, p));
    }
    assert forall|l: int| #[trigger] live(a.leases, l) implies live(c.leases, l)
        && c.leases[l]->0.bytes == a.leases[l]->0.bytes by {
        assert(live(b.leases, l));
    }
}

} // verus!
