//! Optional declared-cost admission for staged pipelines.
//!
//! The pool accounts promised capacity. Native owned-job limits still apply to
//! every submission; a reservation does not itself enqueue work.
use crate::cost::lemma_minus;
use crate::cost::lemma_parts;
use crate::cost::lemma_plus;
use crate::cost::lemma_plus_minus;
use crate::cost::lemma_within;
use crate::cost::SWCost;
use crate::cost::SWLimits;
use crate::cost::SWReservationError;
use crate::slots::live;
use crate::slots::place;
use crate::slots::placed;
use crate::slots::total_placed;
use crate::sums::total;
use crate::sums::total_bounds;
use crate::sums::total_pointwise;
use crate::sums::total_remove;
use crate::sums::total_update;
use crate::sums::total_zero;
use crate::progress::owe;
use crate::progress::owing;
use crate::policy::room_is_granted;
use vstd::prelude::*;

verus! {

/// Which allowance a pipeline draws on.
#[derive(Clone, Copy, Debug, PartialEq, Eq, Structural)]
pub enum Kind {
    Ordinary,
    Required,
}

/// Charges that the pool has handed out.
#[derive(Clone, Copy, Debug, PartialEq, Eq, Structural)]
pub struct Usage {
    pub ordinary: SWCost,
    pub required: SWCost,
    pub pipelines: usize,
    pub closed: bool,
}

impl Usage {
    pub open spec fn of(self, kind: Kind) -> SWCost {
        match kind {
            Kind::Ordinary => self.ordinary,
            Kind::Required => self.required,
        }
    }

    pub open spec fn with(self, kind: Kind, cost: SWCost) -> Usage {
        match kind {
            Kind::Ordinary => Usage { ordinary: cost, ..self },
            Kind::Required => Usage { required: cost, ..self },
        }
    }

    /// The charges after `cost` has been added for a pipeline of this kind.
    pub open spec fn charged(self, cost: SWCost, kind: Kind, new_pipeline: bool) -> Usage {
        let usage = self.with(kind, self.of(kind).plus(cost));
        if new_pipeline && kind == Kind::Required {
            Usage { pipelines: (usage.pipelines + 1) as usize, ..usage }
        } else {
            usage
        }
    }

    /// The charges after `cost` has been taken back from this kind.
    pub open spec fn discharged(self, cost: SWCost, kind: Kind, pipeline: bool) -> Usage {
        let usage = self.with(kind, self.of(kind).minus(cost));
        if pipeline && kind == Kind::Required {
            Usage { pipelines: (usage.pipelines - 1) as usize, ..usage }
        } else {
            usage
        }
    }
}

/// The allowance of a kind. The bytes of the required allowance do not count.
pub open spec fn within_allowance(limits: SWLimits, kind: Kind, cost: SWCost) -> bool {
    match kind {
        Kind::Ordinary => cost.within(limits.ordinary_target),
        Kind::Required => cost.metadata_within(limits.required_allowance),
    }
}

/// Why a charge is refused, if it is. A charge that could never fit is
/// `TooLarge`; one that only has to wait for others is `Full`.
pub open spec fn claim_error(
    limits: SWLimits,
    usage: Usage,
    cost: SWCost,
    kind: Kind,
    new_pipeline: bool,
) -> Option<SWReservationError> {
    if usage.closed {
        Some(SWReservationError::Closed)
    } else if !within_allowance(limits, kind, cost) || !limits.bytes_allowed(cost.bytes as int) {
        Some(SWReservationError::TooLarge)
    } else if new_pipeline && kind == Kind::Required && limits.required_pipelines == 0 {
        Some(SWReservationError::TooLarge)
    } else if new_pipeline && kind == Kind::Required && usage.pipelines
        >= limits.required_pipelines {
        Some(SWReservationError::Full)
    } else if !usage.of(kind).can_add(cost) || !within_allowance(
        limits,
        kind,
        usage.of(kind).plus(cost),
    ) {
        Some(SWReservationError::Full)
    } else if usage.ordinary.bytes + usage.required.bytes + cost.bytes > usize::MAX
        || !limits.bytes_allowed(usage.ordinary.bytes + usage.required.bytes + cost.bytes) {
        Some(SWReservationError::Full)
    } else {
        None
    }
}

/// One admitted pipeline and its global charge.
#[derive(Clone, Copy, Debug, PartialEq, Eq, Structural)]
pub struct Pipeline {
    pub kind: Kind,
    pub total: SWCost,
}

/// The free credits of one live reservation. `parent` is the nearest live
/// reservation that they return to.
#[derive(Clone, Copy, Debug, PartialEq, Eq, Structural)]
pub struct CreditBank {
    pub pipeline: usize,
    pub parent: Option<usize>,
    pub balance: SWCost,
}

/// Bytes that a result retains. `pipeline` is none once the pipeline has ended;
/// `bank` is the nearest live reservation that the bytes return to.
#[derive(Clone, Copy, Debug, PartialEq, Eq, Structural)]
pub struct ByteCharge {
    pub pipeline: Option<usize>,
    pub bank: Option<usize>,
    pub kind: Kind,
    pub bytes: usize,
}

/// The books of a pool.
#[verifier::ext_equal]
pub struct Accounts {
    pub identity: u64,
    pub limits: SWLimits,
    pub usage: Usage,
    pub pipelines: Seq<Option<Pipeline>>,
    pub banks: Seq<Option<CreditBank>>,
    pub leases: Seq<Option<ByteCharge>>,
    /// Progress notifications that are owed to the host.
    pub wake: u64,
}

/// What a pipeline adds to component `i` of the charges of a kind.
pub open spec fn pipeline_part(kind: Kind, i: int) -> spec_fn(Option<Pipeline>) -> int {
    |entry: Option<Pipeline>|
        match entry {
            Some(pipeline) => if pipeline.kind == kind {
                pipeline.total.part(i)
            } else {
                0
            },
            None => 0,
        }
}

/// What a retained result adds to component `i` of the charges of a kind.
pub open spec fn lease_part(kind: Kind, i: int) -> spec_fn(Option<ByteCharge>) -> int {
    |entry: Option<ByteCharge>|
        match entry {
            Some(lease) => if lease.kind == kind && i == 3 {
                lease.bytes as int
            } else {
                0
            },
            None => 0,
        }
}

/// What a bank adds to component `i` of the free credits of a pipeline.
pub open spec fn bank_part(pipeline: int, i: int) -> spec_fn(Option<CreditBank>) -> int {
    |entry: Option<CreditBank>|
        match entry {
            Some(bank) => if bank.pipeline == pipeline {
                bank.balance.part(i)
            } else {
                0
            },
            None => 0,
        }
}

pub open spec fn is_required_pipeline() -> spec_fn(Option<Pipeline>) -> int {
    |entry: Option<Pipeline>|
        match entry {
            Some(pipeline) => if pipeline.kind == Kind::Required {
                1
            } else {
                0
            },
            None => 0,
        }
}

/// A live reservation at `bank` belongs to `pipeline`.
pub open spec fn serves(banks: Seq<Option<CreditBank>>, bank: int, pipeline: int) -> bool {
    live(banks, bank) && banks[bank]->0.pipeline == pipeline
}

/// Some live reservation belongs to `pipeline`.
pub open spec fn served(banks: Seq<Option<CreditBank>>, pipeline: int) -> bool {
    exists|bank: int| #[trigger] serves(banks, bank, pipeline)
}

/// Every live reservation ranks above its parent.
pub open spec fn ranked(banks: Seq<Option<CreditBank>>, rank: spec_fn(int) -> int) -> bool {
    forall|b: int| #[trigger]
        live(banks, b) ==> (banks[b]->0.parent matches Some(parent) ==> rank(parent as int) < rank(
            b,
        ))
}

/// No reservation is its own ancestor.
pub open spec fn acyclic(banks: Seq<Option<CreditBank>>) -> bool {
    exists|rank: spec_fn(int) -> int| #[trigger] ranked(banks, rank)
}

/// Links to a reservation that has gone lead to its parent instead.
pub open spec fn relink(link: Option<usize>, gone: int, parent: Option<usize>) -> Option<usize> {
    if link is Some && link->0 == gone {
        parent
    } else {
        link
    }
}

pub open spec fn relinked_banks(
    banks: Seq<Option<CreditBank>>,
    gone: int,
    parent: Option<usize>,
) -> Seq<Option<CreditBank>> {
    banks.map_values(
        |entry: Option<CreditBank>|
            match entry {
                Some(bank) => Some(CreditBank { parent: relink(bank.parent, gone, parent), ..bank }),
                None => None,
            },
    )
}

pub open spec fn relinked_leases(
    leases: Seq<Option<ByteCharge>>,
    gone: int,
    parent: Option<usize>,
) -> Seq<Option<ByteCharge>> {
    leases.map_values(
        |entry: Option<ByteCharge>|
            match entry {
                Some(lease) => Some(ByteCharge { bank: relink(lease.bank, gone, parent), ..lease }),
                None => None,
            },
    )
}

/// Retained results of a pipeline that has ended stand on their own.
pub open spec fn detached_leases(
    leases: Seq<Option<ByteCharge>>,
    pipeline: int,
) -> Seq<Option<ByteCharge>> {
    leases.map_values(
        |entry: Option<ByteCharge>|
            match entry {
                Some(lease) => Some(
                    ByteCharge { pipeline: relink(lease.pipeline, pipeline, None), ..lease },
                ),
                None => None,
            },
    )
}

impl Accounts {
    /// Component `i` of everything that is charged to a kind: what its live
    /// pipelines hold, and the bytes that retained results hold.
    pub open spec fn charged(self, kind: Kind, i: int) -> int {
        total(self.pipelines, pipeline_part(kind, i)) + total(self.leases, lease_part(kind, i))
    }

    /// Component `i` of the free credits of a pipeline.
    pub open spec fn credits(self, pipeline: int, i: int) -> int {
        total(self.banks, bank_part(pipeline, i))
    }

    /// The usage is exactly what live pipelines and retained results hold.
    pub open spec fn balanced(self) -> bool {
        &&& forall|kind: Kind, i: int|
            0 <= i < 4 ==> #[trigger] self.charged(kind, i) == self.usage.of(kind).part(i)
        &&& self.usage.pipelines == total(self.pipelines, is_required_pipeline())
    }

    /// Free credits never exceed what their pipeline was charged.
    pub open spec fn backed(self) -> bool {
        forall|p: int, i: int|
            live(self.pipelines, p) && 0 <= i < 4 ==> #[trigger] self.credits(p, i)
                <= self.pipelines[p]->0.total.part(i)
    }

    /// The charges respect the policy.
    pub open spec fn bounded(self) -> bool {
        &&& self.usage.ordinary.within(self.limits.ordinary_target)
        &&& self.usage.required.metadata_within(self.limits.required_allowance)
        &&& self.usage.pipelines <= self.limits.required_pipelines
        &&& self.usage.ordinary.bytes + self.usage.required.bytes <= usize::MAX
        &&& self.limits.bytes_allowed(self.usage.ordinary.bytes + self.usage.required.bytes)
    }

    pub open spec fn bank_linked(self, b: int) -> bool {
        let bank = self.banks[b]->0;
        &&& live(self.pipelines, bank.pipeline as int)
        &&& bank.parent matches Some(parent) ==> serves(
            self.banks,
            parent as int,
            bank.pipeline as int,
        )
    }

    pub open spec fn lease_linked(self, l: int) -> bool {
        let lease = self.leases[l]->0;
        &&& lease.pipeline matches Some(pipeline) ==> live(self.pipelines, pipeline as int)
            && self.pipelines[pipeline as int]->0.kind == lease.kind
        &&& lease.bank matches Some(bank) ==> lease.pipeline is Some && serves(
            self.banks,
            bank as int,
            lease.pipeline->0 as int,
        )
    }

    /// Every link leads to something live, and a pipeline lives exactly as long
    /// as one of its reservations does.
    pub open spec fn linked(self) -> bool {
        &&& forall|b: int| #[trigger] live(self.banks, b) ==> self.bank_linked(b)
        &&& forall|l: int| #[trigger] live(self.leases, l) ==> self.lease_linked(l)
        &&& forall|p: int| #[trigger] live(self.pipelines, p) ==> served(self.banks, p)
        &&& acyclic(self.banks)
    }

    pub open spec fn wf(self) -> bool {
        &&& self.balanced()
        &&& self.backed()
        &&& self.bounded()
        &&& self.linked()
    }

    /// Why a reservation cannot grow by `additional`, if it cannot.
    pub open spec fn grow_error(self, pipeline: int, additional: SWCost) -> Option<
        SWReservationError,
    > {
        let entry = self.pipelines[pipeline]->0;
        if !entry.total.can_add(additional) || !within_allowance(
            self.limits,
            entry.kind,
            entry.total.plus(additional),
        ) || !self.limits.bytes_allowed(entry.total.bytes + additional.bytes) {
            Some(SWReservationError::TooLarge)
        } else {
            claim_error(self.limits, self.usage, additional, entry.kind, false)
        }
    }

    /// The books after further notifications.
    pub open spec fn woken_by(self, n: int) -> Accounts {
        Accounts { wake: owing(self.wake, n), ..self }
    }

    /// The books after a reservation has grown.
    pub open spec fn grown(self, pipeline: int, bank: int, additional: SWCost) -> Accounts {
        let entry = self.pipelines[pipeline]->0;
        let credits = self.banks[bank]->0;
        Accounts {
            usage: self.usage.charged(additional, entry.kind, false),
            pipelines: self.pipelines.update(
                pipeline,
                Some(Pipeline { total: entry.total.plus(additional), ..entry }),
            ),
            banks: self.banks.update(
                bank,
                Some(CreditBank { balance: credits.balance.plus(additional), ..credits }),
            ),
            wake: owing(self.wake, 1),
            ..self
        }
    }

    /// The free credits after a reservation has gone: they return to the
    /// nearest live ancestor, if there is one.
    pub open spec fn banks_without(self, bank: int) -> Seq<Option<CreditBank>> {
        let gone = self.banks[bank]->0;
        let refunded = match gone.parent {
            Some(parent) => {
                let heir = self.banks[parent as int]->0;
                self.banks.update(
                    parent as int,
                    Some(CreditBank { balance: heir.balance.plus(gone.balance), ..heir }),
                )
            },
            None => self.banks,
        };
        relinked_banks(refunded.update(bank, None), bank, gone.parent)
    }

    /// The books after a reservation has gone. The last one of a pipeline ends
    /// it and gives its whole charge back.
    pub open spec fn without_bank(self, bank: int) -> Accounts {
        let gone = self.banks[bank]->0;
        let pipeline = gone.pipeline as int;
        let banks = self.banks_without(bank);
        let leases = relinked_leases(self.leases, bank, gone.parent);
        if served(banks, pipeline) {
            Accounts { banks, leases, wake: owing(self.wake, 1), ..self }
        } else {
            let entry = self.pipelines[pipeline]->0;
            Accounts {
                usage: self.usage.discharged(entry.total, entry.kind, true),
                pipelines: self.pipelines.update(pipeline, None),
                banks,
                leases: detached_leases(leases, pipeline),
                wake: owing(self.wake, 2),
                ..self
            }
        }
    }

    /// The books after bytes have been detached from a pipeline for a result.
    pub open spec fn without_bytes(self, pipeline: int, bank: int, bytes: usize) -> Accounts {
        let entry = self.pipelines[pipeline]->0;
        let credits = self.banks[bank]->0;
        Accounts {
            pipelines: self.pipelines.update(
                pipeline,
                Some(Pipeline { total: entry.total.minus(SWCost::of_bytes(bytes)), ..entry }),
            ),
            banks: self.banks.update(
                bank,
                Some(
                    CreditBank {
                        balance: credits.balance.minus(SWCost::of_bytes(bytes)),
                        ..credits
                    },
                ),
            ),
            ..self
        }
    }

    /// The books after a retained result has gone. While its pipeline lives the
    /// bytes return to it; otherwise their global charge ends.
    pub open spec fn without_lease(self, slot: int) -> Accounts {
        let lease = self.leases[slot]->0;
        let cost = SWCost::of_bytes(lease.bytes);
        let leases = self.leases.update(slot, None);
        match lease.pipeline {
            Some(p) => {
                let entry = self.pipelines[p as int]->0;
                Accounts {
                    pipelines: self.pipelines.update(
                        p as int,
                        Some(Pipeline { total: entry.total.plus(cost), ..entry }),
                    ),
                    banks: match lease.bank {
                        Some(b) => {
                            let credits = self.banks[b as int]->0;
                            self.banks.update(
                                b as int,
                                Some(
                                    CreditBank { balance: credits.balance.plus(cost), ..credits },
                                ),
                            )
                        },
                        None => self.banks,
                    },
                    leases,
                    wake: owing(self.wake, 1),
                    ..self
                }
            },
            None => Accounts {
                usage: self.usage.discharged(cost, lease.kind, false),
                leases,
                wake: owing(self.wake, 1),
                ..self
            },
        }
    }
}

/// The books after a pipeline has been admitted, its whole cost free in the one
/// reservation that it starts with.
pub open spec fn admitted(
    before: Accounts,
    after: Accounts,
    pipeline: int,
    bank: int,
    cost: SWCost,
    kind: Kind,
) -> bool {
    &&& placed(before.pipelines, after.pipelines, pipeline, Pipeline { kind, total: cost })
    &&& 0 <= pipeline <= usize::MAX
    &&& placed(
        before.banks,
        after.banks,
        bank,
        CreditBank { pipeline: pipeline as usize, parent: None, balance: cost },
    )
    &&& after == (Accounts {
        usage: before.usage.charged(cost, kind, true),
        pipelines: after.pipelines,
        banks: after.banks,
        wake: owing(before.wake, 1),
        ..before
    })
}

/// The books after part of a reservation has moved to a child of it.
pub open spec fn staged(
    before: Accounts,
    after: Accounts,
    bank: int,
    child: int,
    cost: SWCost,
) -> bool {
    let credits = before.banks[bank]->0;
    &&& placed(
        before.banks.update(
            bank,
            Some(CreditBank { balance: credits.balance.minus(cost), ..credits }),
        ),
        after.banks,
        child,
        CreditBank { pipeline: credits.pipeline, parent: Some(bank as usize), balance: cost },
    )
    &&& after == (Accounts { banks: after.banks, ..before })
}

/// The books after a result has taken bytes out of a reservation.
pub open spec fn retained(
    before: Accounts,
    after: Accounts,
    bank: int,
    lease: int,
    bytes: usize,
) -> bool {
    let pipeline = before.banks[bank]->0.pipeline;
    let detached = before.without_bytes(pipeline as int, bank, bytes);
    &&& placed(
        before.leases,
        after.leases,
        lease,
        ByteCharge {
            pipeline: Some(pipeline),
            bank: Some(bank as usize),
            kind: before.pipelines[pipeline as int]->0.kind,
            bytes,
        },
    )
    &&& after == (Accounts { leases: after.leases, ..detached })
}

/// A new reservation whose parent is live, or that has none, closes no cycle.
proof fn rank_placed(a: Accounts, banks: Seq<Option<CreditBank>>, s: int, entry: CreditBank)
    requires
        a.linked(),
        placed(a.banks, banks, s, entry),
        entry.parent matches Some(parent) ==> live(a.banks, parent as int),
    ensures
        acyclic(banks),
{
    let rank = choose|rank: spec_fn(int) -> int| #[trigger] ranked(a.banks, rank);
    let top = match entry.parent {
        Some(parent) => rank(parent as int) + 1,
        None => 0,
    };
    let next = |b: int| if b == s { top } else { rank(b) };
    assert forall|b: int| #[trigger] live(banks, b) implies (banks[b]->0.parent matches Some(
        parent,
    ) ==> next(parent as int) < next(b)) by {
        if b != s {
            assert(live(a.banks, b));
            assert(a.bank_linked(b));
        }
    }
    assert(ranked(banks, next));
}

proof fn admitted_wf(
    a: Accounts,
    b: Accounts,
    p: int,
    s: int,
    cost: SWCost,
    kind: Kind,
)
    requires
        a.wf(),
        admitted(a, b, p, s, cost, kind),
        claim_error(a.limits, a.usage, cost, kind, true) is None,
    ensures
        b.wf(),
{
    claim_bounded(a, cost, kind, true);
    lemma_plus(a.usage.of(kind), cost);
    assert forall|k: Kind, i: int| 0 <= i < 4 implies #[trigger] b.charged(k, i) == b.usage.of(
        k,
    ).part(i) by {
        total_placed(a.pipelines, b.pipelines, p, Pipeline { kind, total: cost }, pipeline_part(k, i));
        assert(a.charged(k, i) == a.usage.of(k).part(i));
    }
    total_placed(
        a.pipelines,
        b.pipelines,
        p,
        Pipeline { kind, total: cost },
        is_required_pipeline(),
    );
    let entry = CreditBank { pipeline: p as usize, parent: None, balance: cost };
    assert forall|q: int, i: int| live(b.pipelines, q) && 0 <= i < 4 implies #[trigger] b.credits(
        q,
        i,
    ) <= b.pipelines[q]->0.total.part(i) by {
        total_placed(a.banks, b.banks, s, entry, bank_part(q, i));
        if q == p {
            assert forall|j: int| 0 <= j < a.banks.len() implies bank_part(q, i)(
                #[trigger] a.banks[j],
            ) == 0 by {
                if a.banks[j] is Some {
                    assert(live(a.banks, j));
                }
            }
            total_zero(a.banks, bank_part(q, i));
        } else {
            assert(live(a.pipelines, q));
            assert(a.credits(q, i) <= a.pipelines[q]->0.total.part(i));
        }
    }
    assert forall|j: int| #[trigger] live(b.banks, j) implies b.bank_linked(j) by {
        if j != s {
            assert(live(a.banks, j));
            assert(a.bank_linked(j));
        }
    }
    assert forall|l: int| #[trigger] live(b.leases, l) implies b.lease_linked(l) by {
        assert(live(a.leases, l));
        assert(a.lease_linked(l));
    }
    rank_placed(a, b.banks, s, entry);
    assert forall|q: int| #[trigger] live(b.pipelines, q) implies served(b.banks, q) by {
        if q == p {
            assert(serves(b.banks, s, q));
        } else {
            assert(live(a.pipelines, q));
            let j = choose|j: int| #[trigger] serves(a.banks, j, q);
            assert(serves(b.banks, j, q));
        }
    }
}

/// An accepted charge keeps the policy.
proof fn claim_bounded(a: Accounts, cost: SWCost, kind: Kind, new_pipeline: bool)
    requires
        a.bounded(),
        claim_error(a.limits, a.usage, cost, kind, new_pipeline) is None,
    ensures
        (Accounts { usage: a.usage.charged(cost, kind, new_pipeline), ..a }).bounded(),
        a.usage.of(kind).can_add(cost),
{
    lemma_plus(a.usage.of(kind), cost);
    assert(a.usage.of(kind).plus(cost).part(3) == a.usage.of(kind).part(3) + cost.part(3));
}

impl Usage {
    fn current(&self, kind: Kind) -> (cost: SWCost)
        ensures
            cost == self.of(kind),
    {
        match kind {
            Kind::Ordinary => self.ordinary,
            Kind::Required => self.required,
        }
    }
}

/// Whether a charge respects the allowance of its kind.
fn fits_allowance(limits: SWLimits, kind: Kind, cost: SWCost) -> (fits: bool)
    ensures
        fits == within_allowance(limits, kind, cost),
{
    match kind {
        Kind::Ordinary => cost.fits(limits.ordinary_target),
        Kind::Required => cost.metadata_fits(limits.required_allowance),
    }
}

/// Current charges, including credits parked in pipeline reservations.
#[derive(Clone, Copy, Debug, PartialEq, Eq, Structural)]
pub struct SWCapacityUsage {
    pub ordinary: SWCost,
    pub required: SWCost,
    pub required_pipelines: usize,
}

/// Admission domain of one runtime. Callers receive only reservations bound to
/// its identity.
pub struct SWReservationPool {
    runtime_identity: u64,
    limits: SWLimits,
    usage: Usage,
    pipelines: Vec<Option<Pipeline>>,
    banks: Vec<Option<CreditBank>>,
    leases: Vec<Option<ByteCharge>>,
    wake: u64,
}

impl View for SWReservationPool {
    type V = Accounts;

    closed spec fn view(&self) -> Accounts {
        Accounts {
            identity: self.runtime_identity,
            limits: self.limits,
            usage: self.usage,
            pipelines: self.pipelines@,
            banks: self.banks@,
            leases: self.leases@,
            wake: self.wake,
        }
    }
}

/// A movable capacity capability. Split stage credits return to their parent
/// when it is retired; retained bytes stay charged independently of it.
#[derive(Debug, PartialEq, Eq, Structural)]
pub struct SWReservation {
    runtime_identity: u64,
    pipeline: usize,
    bank: usize,
    kind: Kind,
}

impl SWReservation {
    pub closed spec fn identity(self) -> u64 {
        self.runtime_identity
    }

    pub closed spec fn pipeline_slot(self) -> int {
        self.pipeline as int
    }

    pub closed spec fn bank_slot(self) -> int {
        self.bank as int
    }

    pub closed spec fn drawn_kind(self) -> Kind {
        self.kind
    }

    /// The reservation is live in these books.
    pub open spec fn held_in(self, books: Accounts) -> bool {
        &&& books.identity == self.identity()
        &&& serves(books.banks, self.bank_slot(), self.pipeline_slot())
        &&& live(books.pipelines, self.pipeline_slot())
        &&& books.pipelines[self.pipeline_slot()]->0.kind == self.drawn_kind()
    }
}

/// Accounted result bytes independent of execution and pipeline closure.
#[derive(Debug, PartialEq, Eq, Structural)]
pub struct SWByteLease {
    slot: usize,
    bytes: usize,
}

impl SWByteLease {
    pub closed spec fn lease_slot(self) -> int {
        self.slot as int
    }

    pub closed spec fn byte_count(self) -> usize {
        self.bytes
    }

    /// The lease is live in these books.
    pub open spec fn held_in(self, books: Accounts) -> bool {
        live(books.leases, self.lease_slot()) && books.leases[self.lease_slot()]->0.bytes
            == self.byte_count()
    }
}

impl SWReservationPool {
    pub fn new(runtime_identity: u64, limits: SWLimits) -> (pool: Self)
        ensures
            pool@.wf(),
            pool@ == (Accounts {
                identity: runtime_identity,
                limits,
                usage: Usage {
                    ordinary: SWCost::zero(),
                    required: SWCost::zero(),
                    pipelines: 0,
                    closed: false,
                },
                pipelines: Seq::empty(),
                banks: Seq::empty(),
                leases: Seq::empty(),
                wake: 0,
            }),
    {
        let pool = SWReservationPool {
            runtime_identity,
            limits,
            usage: Usage {
                ordinary: SWCost::new(0, 0, 0, 0),
                required: SWCost::new(0, 0, 0, 0),
                pipelines: 0,
                closed: false,
            },
            pipelines: Vec::new(),
            banks: Vec::new(),
            leases: Vec::new(),
            wake: 0,
        };
        proof {
            assert(pool@.pipelines =~= Seq::empty());
            assert(pool@.banks =~= Seq::empty());
            assert(pool@.leases =~= Seq::empty());
            assert(ranked(pool@.banks, |b: int| 0));
        }
        pool
    }

    /// Refuses every later charge.
    pub fn close(&mut self)
        requires
            old(self)@.wf(),
        ensures
            final(self)@.wf(),
            final(self)@ == (Accounts {
                usage: Usage { closed: true, ..old(self)@.usage },
                wake: owing(old(self)@.wake, 1),
                ..old(self)@
            }),
    {
        self.usage.closed = true;
        self.wake = owe(self.wake, 1);
        proof {
            assert forall|kind: Kind, i: int| 0 <= i < 4 implies #[trigger] self@.charged(kind, i)
                == self@.usage.of(kind).part(i) by {
                assert(old(self)@.charged(kind, i) == old(self)@.usage.of(kind).part(i));
            }
            same_links(old(self)@, self@);
        }
    }

    /// Counts notifications of draws that were given back.
    pub fn wake_by(&mut self, n: u64)
        requires
            old(self)@.wf(),
        ensures
            final(self)@.wf(),
            final(self)@ == old(self)@.woken_by(n as int),
    {
        self.wake = owe(self.wake, n);
        proof {
            same_books(old(self)@, self@);
        }
    }

    /// Takes the progress notifications that are owed.
    pub fn take_wake(&mut self) -> (owed: u64)
        requires
            old(self)@.wf(),
        ensures
            final(self)@.wf(),
            owed == old(self)@.wake,
            final(self)@ == (Accounts { wake: 0, ..old(self)@ }),
    {
        let owed: u64 = self.wake;
        self.wake = 0;
        proof {
            same_books(old(self)@, self@);
        }
        owed
    }

    pub fn required_delivery_capacity(&self) -> (capacity: usize)
        ensures
            capacity == self@.limits.required_allowance.deliveries,
    {
        self.limits.required_allowance.deliveries
    }

    /// Reserves an ordinary window without using protected metadata capacity.
    pub fn try_reserve_ordinary(&mut self, cost: SWCost) -> (result: Result<
        SWReservation,
        SWReservationError,
    >)
        requires
            old(self)@.wf(),
        ensures
            final(self)@.wf(),
            reserved(old(self)@, final(self)@, cost, Kind::Ordinary, result),
    {
        self.reserve(cost, Kind::Ordinary)
    }

    /// Reserves one required pipeline and its simultaneous stage/window peak.
    pub fn try_reserve_required(&mut self, cost: SWCost) -> (result: Result<
        SWReservation,
        SWReservationError,
    >)
        requires
            old(self)@.wf(),
        ensures
            final(self)@.wf(),
            reserved(old(self)@, final(self)@, cost, Kind::Required, result),
    {
        self.reserve(cost, Kind::Required)
    }

    fn reserve(&mut self, cost: SWCost, kind: Kind) -> (result: Result<
        SWReservation,
        SWReservationError,
    >)
        requires
            old(self)@.wf(),
        ensures
            final(self)@.wf(),
            reserved(old(self)@, final(self)@, cost, kind, result),
    {
        match self.claim(cost, kind, true) {
            Err(error) => Err(error),
            Ok(()) => {
                let pipeline: usize = place(&mut self.pipelines, Pipeline { kind, total: cost });
                let bank: usize = place(
                    &mut self.banks,
                    CreditBank { pipeline, parent: None, balance: cost },
                );
                proof {
                    admitted_wf(
                        old(self)@,
                        self@,
                        pipeline as int,
                        bank as int,
                        cost,
                        kind,
                    );
                }
                Ok(
                    SWReservation {
                        runtime_identity: self.runtime_identity,
                        pipeline,
                        bank,
                        kind,
                    },
                )
            },
        }
    }

    pub fn snapshot(&self) -> (usage: SWCapacityUsage)
        ensures
            usage == (SWCapacityUsage {
                ordinary: self@.usage.ordinary,
                required: self@.usage.required,
                required_pipelines: self@.usage.pipelines,
            }),
    {
        SWCapacityUsage {
            ordinary: self.usage.ordinary,
            required: self.usage.required,
            required_pipelines: self.usage.pipelines,
        }
    }

    /// Why a charge would be refused now, if it would be.
    pub fn check_claim(&self, cost: SWCost, kind: Kind, new_pipeline: bool) -> (error: Option<
        SWReservationError,
    >)
        requires
            self@.wf(),
        ensures
            error == claim_error(self@.limits, self@.usage, cost, kind, new_pipeline),
            kind == Kind::Required ==> (error is None <==> {
                let used = self@.usage.required;
                let allowance = self@.limits.required_allowance;
                let bytes = self@.usage.ordinary.bytes + used.bytes + cost.bytes;
                &&& !self@.usage.closed
                &&& new_pipeline ==> self@.usage.pipelines < self@.limits.required_pipelines
                &&& used.records + cost.records <= allowance.records
                &&& used.edges + cost.edges <= allowance.edges
                &&& used.deliveries + cost.deliveries <= allowance.deliveries
                &&& bytes <= usize::MAX
                &&& self@.limits.hard_byte_ceiling matches Some(ceiling) ==> bytes <= ceiling
            }),
            kind == Kind::Ordinary ==> (error is None <==> {
                let used = self@.usage.ordinary;
                let target = self@.limits.ordinary_target;
                let bytes = used.bytes + self@.usage.required.bytes + cost.bytes;
                &&& !self@.usage.closed
                &&& used.records + cost.records <= target.records
                &&& used.edges + cost.edges <= target.edges
                &&& used.deliveries + cost.deliveries <= target.deliveries
                &&& used.bytes + cost.bytes <= target.bytes
                &&& bytes <= usize::MAX
                &&& self@.limits.hard_byte_ceiling matches Some(ceiling) ==> bytes <= ceiling
            }),
    {
        proof {
            room_is_granted(self@.limits, self@.usage, cost, kind, new_pipeline);
        }
        if self.usage.closed {
            return Some(SWReservationError::Closed);
        }
        if !fits_allowance(self.limits, kind, cost) || !self.limits.allows_bytes(cost.bytes) {
            return Some(SWReservationError::TooLarge);
        }
        if new_pipeline && kind == Kind::Required && self.limits.required_pipelines == 0 {
            return Some(SWReservationError::TooLarge);
        }
        if new_pipeline && kind == Kind::Required && self.usage.pipelines
            >= self.limits.required_pipelines {
            return Some(SWReservationError::Full);
        }
        let next = match self.usage.current(kind).checked_add(cost) {
            Some(next) => next,
            None => {
                return Some(SWReservationError::Full);
            },
        };
        if !fits_allowance(self.limits, kind, next) {
            return Some(SWReservationError::Full);
        }
        let charged: usize = self.usage.ordinary.bytes + self.usage.required.bytes;
        match charged.checked_add(cost.bytes) {
            Some(bytes) => {
                if !self.limits.allows_bytes(bytes) {
                    return Some(SWReservationError::Full);
                }
            },
            None => {
                return Some(SWReservationError::Full);
            },
        }
        None
    }

    fn claim(&mut self, cost: SWCost, kind: Kind, new_pipeline: bool) -> (result: Result<
        (),
        SWReservationError,
    >)
        requires
            old(self)@.wf(),
        ensures
            match result {
                Ok(()) => {
                    &&& claim_error(old(self)@.limits, old(self)@.usage, cost, kind, new_pipeline)
                        is None
                    &&& final(self)@ == (Accounts {
                        usage: old(self)@.usage.charged(cost, kind, new_pipeline),
                        wake: owing(old(self)@.wake, 1),
                        ..old(self)@
                    })
                },
                Err(error) => {
                    &&& claim_error(old(self)@.limits, old(self)@.usage, cost, kind, new_pipeline)
                        == Some(error)
                    &&& final(self)@ == old(self)@
                },
            },
    {
        match self.check_claim(cost, kind, new_pipeline) {
            Some(error) => {
                return Err(error);
            },
            None => {},
        }
        let mut next = self.usage.current(kind);
        next.add(cost);
        match kind {
            Kind::Ordinary => {
                self.usage.ordinary = next;
            },
            Kind::Required => {
                self.usage.required = next;
            },
        }
        if new_pipeline && kind == Kind::Required {
            self.usage.pipelines = self.usage.pipelines + 1;
        }
        self.wake = owe(self.wake, 1);
        Ok(())
    }
}

/// The outcome of asking for a pipeline: refused with the books unchanged, or
/// admitted.
pub open spec fn reserved(
    before: Accounts,
    after: Accounts,
    cost: SWCost,
    kind: Kind,
    result: Result<SWReservation, SWReservationError>,
) -> bool {
    match result {
        Ok(reservation) => {
            &&& claim_error(before.limits, before.usage, cost, kind, true) is None
            &&& admitted(
                before,
                after,
                reservation.pipeline_slot(),
                reservation.bank_slot(),
                cost,
                kind,
            )
            &&& reservation.held_in(after)
            &&& reservation.drawn_kind() == kind
        },
        Err(error) => {
            &&& claim_error(before.limits, before.usage, cost, kind, true) == Some(error)
            &&& after == before
        },
    }
}

/// Books with the same tables have the same links and backing.
proof fn same_links(a: Accounts, b: Accounts)
    requires
        a.wf(),
        b.pipelines == a.pipelines,
        b.banks == a.banks,
        b.leases == a.leases,
    ensures
        b.linked(),
        b.backed(),
{
    assert forall|p: int, i: int| live(b.pipelines, p) && 0 <= i < 4 implies #[trigger] b.credits(
        p,
        i,
    ) <= b.pipelines[p]->0.total.part(i) by {
        assert(a.credits(p, i) <= a.pipelines[p]->0.total.part(i));
    }
    assert forall|j: int| #[trigger] live(b.banks, j) implies b.bank_linked(j) by {
        assert(a.bank_linked(j));
    }
    assert forall|j: int| #[trigger] live(b.leases, j) implies b.lease_linked(j) by {
        assert(a.lease_linked(j));
    }
}

/// Books that differ in the pending notification alone are as well kept.
proof fn same_books(a: Accounts, b: Accounts)
    requires
        a.wf(),
        b == (Accounts { wake: b.wake, ..a }),
    ensures
        b.wf(),
{
    assert forall|kind: Kind, i: int| 0 <= i < 4 implies #[trigger] b.charged(kind, i)
        == b.usage.of(kind).part(i) by {
        assert(a.charged(kind, i) == a.usage.of(kind).part(i));
    }
    same_links(a, b);
}


proof fn staged_wf(a: Accounts, b: Accounts, bank: int, child: int, cost: SWCost)
    requires
        a.wf(),
        live(a.banks, bank),
        bank <= usize::MAX,
        cost.within(a.banks[bank]->0.balance),
        staged(a, b, bank, child, cost),
    ensures
        b.wf(),
{
    let credits = a.banks[bank]->0;
    let left = CreditBank { balance: credits.balance.minus(cost), ..credits };
    let mid = Accounts { banks: a.banks.update(bank, Some(left)), ..a };
    let entry = CreditBank {
        pipeline: credits.pipeline,
        parent: Some(bank as usize),
        balance: cost,
    };
    assert(a.bank_linked(bank));
    lemma_minus(credits.balance, cost);
    assert forall|kind: Kind, i: int| 0 <= i < 4 implies #[trigger] b.charged(kind, i)
        == b.usage.of(kind).part(i) by {
        assert(a.charged(kind, i) == a.usage.of(kind).part(i));
    }
    assert forall|q: int, i: int| live(b.pipelines, q) && 0 <= i < 4 implies #[trigger] b.credits(
        q,
        i,
    ) <= b.pipelines[q]->0.total.part(i) by {
        total_update(a.banks, bank, Some(left), bank_part(q, i));
        total_placed(mid.banks, b.banks, child, entry, bank_part(q, i));
        assert(a.credits(q, i) <= a.pipelines[q]->0.total.part(i));
    }
    same_shape(a, mid);
    rank_placed(mid, b.banks, child, entry);
    assert forall|j: int| #[trigger] live(b.banks, j) implies b.bank_linked(j) by {
        if j != child {
            assert(live(mid.banks, j));
            assert(mid.bank_linked(j));
        }
    }
    assert forall|l: int| #[trigger] live(b.leases, l) implies b.lease_linked(l) by {
        assert(live(mid.leases, l));
        assert(mid.lease_linked(l));
    }
    assert forall|q: int| #[trigger] live(b.pipelines, q) implies served(b.banks, q) by {
        assert(live(mid.pipelines, q));
        let j = choose|j: int| #[trigger] serves(mid.banks, j, q);
        assert(serves(b.banks, j, q));
    }
}

/// Two tables of reservations that differ in balances alone.
spec fn same_banks(a: Seq<Option<CreditBank>>, b: Seq<Option<CreditBank>>) -> bool {
    &&& a.len() == b.len()
    &&& forall|j: int| #[trigger] live(a, j) <==> live(b, j)
    &&& forall|j: int| #[trigger]
        live(a, j) ==> a[j]->0.pipeline == b[j]->0.pipeline && a[j]->0.parent == b[j]->0.parent
}

/// Two tables of pipelines that differ in totals alone.
spec fn same_pipelines(a: Seq<Option<Pipeline>>, b: Seq<Option<Pipeline>>) -> bool {
    &&& a.len() == b.len()
    &&& forall|j: int| #[trigger] live(a, j) <==> live(b, j)
    &&& forall|j: int| #[trigger] live(a, j) ==> a[j]->0.kind == b[j]->0.kind
}

/// Amounts play no part in the links.
proof fn same_shape(a: Accounts, b: Accounts)
    requires
        a.linked(),
        same_banks(a.banks, b.banks),
        same_pipelines(a.pipelines, b.pipelines),
        b.leases == a.leases,
    ensures
        b.linked(),
{
    let rank = choose|rank: spec_fn(int) -> int| #[trigger] ranked(a.banks, rank);
    assert(ranked(b.banks, rank)) by {
        assert forall|j: int| #[trigger] live(b.banks, j) implies (
        b.banks[j]->0.parent matches Some(parent) ==> rank(parent as int) < rank(j)) by {
            assert(live(a.banks, j));
        }
    }
    assert forall|j: int| #[trigger] live(b.banks, j) implies b.bank_linked(j) by {
        assert(live(a.banks, j));
        assert(a.bank_linked(j));
        let pipeline = a.banks[j]->0.pipeline as int;
        assert(live(a.pipelines, pipeline));
        if let Some(parent) = a.banks[j]->0.parent {
            assert(live(a.banks, parent as int));
        }
    }
    assert forall|l: int| #[trigger] live(b.leases, l) implies b.lease_linked(l) by {
        assert(live(a.leases, l));
        assert(a.lease_linked(l));
        if let Some(pipeline) = a.leases[l]->0.pipeline {
            assert(live(a.pipelines, pipeline as int));
        }
        if let Some(bank) = a.leases[l]->0.bank {
            assert(live(a.banks, bank as int));
        }
    }
    assert forall|q: int| #[trigger] live(b.pipelines, q) implies served(b.banks, q) by {
        assert(live(a.pipelines, q));
        let j = choose|j: int| #[trigger] serves(a.banks, j, q);
        assert(live(a.banks, j));
        assert(serves(b.banks, j, q));
    }
}

/// The free credits of one reservation are part of what its pipeline holds.
proof fn balance_backed(a: Accounts, bank: int)
    requires
        a.wf(),
        live(a.banks, bank),
    ensures
        a.banks[bank]->0.balance.within(
            a.pipelines[a.banks[bank]->0.pipeline as int]->0.total,
        ),
{
    let p = a.banks[bank]->0.pipeline as int;
    assert(a.bank_linked(bank));
    assert forall|i: int| 0 <= i < 4 implies #[trigger] a.banks[bank]->0.balance.part(i)
        <= a.pipelines[p]->0.total.part(i) by {
        total_bounds(a.banks, bank_part(p, i));
        assert(bank_part(p, i)(a.banks[bank]) <= total(a.banks, bank_part(p, i)));
        assert(a.credits(p, i) <= a.pipelines[p]->0.total.part(i));
    }
}

/// What a live pipeline holds is part of what its kind is charged.
pub proof fn total_charged(a: Accounts, p: int)
    requires
        a.wf(),
        live(a.pipelines, p),
    ensures
        a.pipelines[p]->0.total.within(a.usage.of(a.pipelines[p]->0.kind)),
        a.pipelines[p]->0.kind == Kind::Required ==> a.usage.pipelines > 0,
{
    let kind = a.pipelines[p]->0.kind;
    assert forall|i: int| 0 <= i < 4 implies #[trigger] a.pipelines[p]->0.total.part(i)
        <= a.usage.of(kind).part(i) by {
        total_bounds(a.pipelines, pipeline_part(kind, i));
        total_bounds(a.leases, lease_part(kind, i));
        assert(pipeline_part(kind, i)(a.pipelines[p]) <= total(
            a.pipelines,
            pipeline_part(kind, i),
        ));
        assert(a.charged(kind, i) == a.usage.of(kind).part(i));
    }
    total_bounds(a.pipelines, is_required_pipeline());
    assert(is_required_pipeline()(a.pipelines[p]) <= total(a.pipelines, is_required_pipeline()));
}

/// The bytes of a retained result are part of what its kind is charged, beside
/// what a live pipeline of that kind holds.
proof fn lease_charged(a: Accounts, l: int)
    requires
        a.wf(),
        live(a.leases, l),
    ensures
        a.leases[l]->0.bytes <= a.usage.of(a.leases[l]->0.kind).bytes,
        a.leases[l]->0.pipeline matches Some(p) ==> a.pipelines[p as int]->0.total.bytes
            + a.leases[l]->0.bytes <= a.usage.of(a.leases[l]->0.kind).bytes,
{
    let kind = a.leases[l]->0.kind;
    assert(a.lease_linked(l));
    total_bounds(a.pipelines, pipeline_part(kind, 3));
    total_bounds(a.leases, lease_part(kind, 3));
    assert(lease_part(kind, 3)(a.leases[l]) <= total(a.leases, lease_part(kind, 3)));
    assert(a.charged(kind, 3) == a.usage.of(kind).part(3));
    if let Some(p) = a.leases[l]->0.pipeline {
        assert(pipeline_part(kind, 3)(a.pipelines[p as int]) <= total(
            a.pipelines,
            pipeline_part(kind, 3),
        ));
    }
}

pub proof fn grown_wf(a: Accounts, bank: int, cost: SWCost)
    requires
        a.wf(),
        live(a.banks, bank),
        a.grow_error(a.banks[bank]->0.pipeline as int, cost) is None,
    ensures
        a.grown(a.banks[bank]->0.pipeline as int, bank, cost).wf(),
        a.banks[bank]->0.balance.can_add(cost),
{
    let p = a.banks[bank]->0.pipeline as int;
    let b = a.grown(p, bank, cost);
    let entry = a.pipelines[p]->0;
    let credits = a.banks[bank]->0;
    assert(a.bank_linked(bank));
    claim_bounded(a, cost, entry.kind, false);
    balance_backed(a, bank);
    lemma_plus(entry.total, cost);
    lemma_plus(a.usage.of(entry.kind), cost);
    assert(credits.balance.can_add(cost)) by {
        assert forall|i: int| 0 <= i < 4 implies #[trigger] credits.balance.part(i) + cost.part(i)
            <= usize::MAX by {
            assert(credits.balance.part(i) <= entry.total.part(i));
            assert(entry.total.part(i) + cost.part(i) <= usize::MAX);
        }
    }
    lemma_plus(credits.balance, cost);
    assert forall|kind: Kind, i: int| 0 <= i < 4 implies #[trigger] b.charged(kind, i)
        == b.usage.of(kind).part(i) by {
        total_update(a.pipelines, p, b.pipelines[p], pipeline_part(kind, i));
        assert(a.charged(kind, i) == a.usage.of(kind).part(i));
        assert(entry.total.plus(cost).part(i) == entry.total.part(i) + cost.part(i));
        assert(a.usage.of(entry.kind).plus(cost).part(i) == a.usage.of(entry.kind).part(i)
            + cost.part(i));
    }
    total_update(a.pipelines, p, b.pipelines[p], is_required_pipeline());
    assert forall|q: int, i: int| live(b.pipelines, q) && 0 <= i < 4 implies #[trigger] b.credits(
        q,
        i,
    ) <= b.pipelines[q]->0.total.part(i) by {
        total_update(a.banks, bank, b.banks[bank], bank_part(q, i));
        assert(live(a.pipelines, q));
        assert(a.credits(q, i) <= a.pipelines[q]->0.total.part(i));
        assert(entry.total.plus(cost).part(i) == entry.total.part(i) + cost.part(i));
        assert(credits.balance.plus(cost).part(i) == credits.balance.part(i) + cost.part(i));
    }
    same_shape(a, b);
}

proof fn retained_wf(a: Accounts, b: Accounts, bank: int, lease: int, bytes: usize)
    requires
        a.wf(),
        live(a.banks, bank),
        bank <= usize::MAX,
        bytes <= a.banks[bank]->0.balance.bytes,
        retained(a, b, bank, lease, bytes),
    ensures
        b.wf(),
{
    let p = a.banks[bank]->0.pipeline as int;
    let cost = SWCost::of_bytes(bytes);
    let entry = a.pipelines[p]->0;
    let credits = a.banks[bank]->0;
    let mid = a.without_bytes(p, bank, bytes);
    let charge = b.leases[lease]->0;
    assert(a.bank_linked(bank));
    balance_backed(a, bank);
    lemma_within(credits.balance, entry.total);
    lemma_within(cost, credits.balance);
    lemma_within(cost, entry.total);
    lemma_minus(credits.balance, cost);
    lemma_minus(entry.total, cost);
    assert forall|kind: Kind, i: int| 0 <= i < 4 implies #[trigger] b.charged(kind, i)
        == b.usage.of(kind).part(i) by {
        total_update(a.pipelines, p, b.pipelines[p], pipeline_part(kind, i));
        total_placed(a.leases, b.leases, lease, charge, lease_part(kind, i));
        assert(a.charged(kind, i) == a.usage.of(kind).part(i));
        assert(entry.total.minus(cost).part(i) == entry.total.part(i) - cost.part(i));
    }
    total_update(a.pipelines, p, b.pipelines[p], is_required_pipeline());
    assert forall|q: int, i: int| live(b.pipelines, q) && 0 <= i < 4 implies #[trigger] b.credits(
        q,
        i,
    ) <= b.pipelines[q]->0.total.part(i) by {
        total_update(a.banks, bank, b.banks[bank], bank_part(q, i));
        assert(live(a.pipelines, q));
        assert(a.credits(q, i) <= a.pipelines[q]->0.total.part(i));
        assert(entry.total.minus(cost).part(i) == entry.total.part(i) - cost.part(i));
        assert(credits.balance.minus(cost).part(i) == credits.balance.part(i) - cost.part(i));
    }
    same_shape(a, mid);
    assert forall|j: int| #[trigger] live(b.banks, j) implies b.bank_linked(j) by {
        assert(live(mid.banks, j));
        assert(mid.bank_linked(j));
    }
    assert forall|l: int| #[trigger] live(b.leases, l) implies b.lease_linked(l) by {
        if l != lease {
            assert(live(mid.leases, l));
            assert(mid.lease_linked(l));
        } else {
            assert(live(mid.banks, bank));
            assert(live(mid.pipelines, p));
        }
    }
    assert forall|q: int| #[trigger] live(b.pipelines, q) implies served(b.banks, q) by {
        assert(live(mid.pipelines, q));
    }
}

pub proof fn without_lease_wf(a: Accounts, l: int)
    requires
        a.wf(),
        live(a.leases, l),
    ensures
        a.without_lease(l).wf(),
        a.leases[l]->0.bytes <= a.usage.of(a.leases[l]->0.kind).bytes,
        a.leases[l]->0.pipeline matches Some(p) ==> live(a.pipelines, p as int)
            && a.pipelines[p as int]->0.total.can_add(SWCost::of_bytes(a.leases[l]->0.bytes)),
        a.leases[l]->0.bank matches Some(b) ==> a.leases[l]->0.pipeline is Some && live(
            a.banks,
            b as int,
        ) && a.banks[b as int]->0.balance.can_add(SWCost::of_bytes(a.leases[l]->0.bytes)),
{
    let b = a.without_lease(l);
    let lease = a.leases[l]->0;
    let kind = lease.kind;
    let cost = SWCost::of_bytes(lease.bytes);
    assert(a.lease_linked(l));
    lease_charged(a, l);
    let leases = a.leases.update(l, None);
    match lease.pipeline {
        Some(p) => {
            let p = p as int;
            let entry = a.pipelines[p]->0;
            lemma_parts(cost);
            assert(entry.total.can_add(cost)) by {
                lemma_parts(entry.total);
                assert forall|i: int| 0 <= i < 4 implies #[trigger] entry.total.part(i)
                    + cost.part(i) <= usize::MAX by {}
            }
            lemma_plus(entry.total, cost);
            if let Some(s) = lease.bank {
                let s = s as int;
                let credits = a.banks[s]->0;
                balance_backed(a, s);
                assert(credits.balance.can_add(cost)) by {
                    assert forall|i: int| 0 <= i < 4 implies #[trigger] credits.balance.part(i)
                        + cost.part(i) <= usize::MAX by {
                        assert(credits.balance.part(i) <= entry.total.part(i));
                        assert(entry.total.part(i) + cost.part(i) <= usize::MAX);
                    }
                }
                lemma_plus(credits.balance, cost);
            }
            assert forall|k: Kind, i: int| 0 <= i < 4 implies #[trigger] b.charged(k, i)
                == b.usage.of(k).part(i) by {
                total_update(a.pipelines, p, b.pipelines[p], pipeline_part(k, i));
                total_update(a.leases, l, None, lease_part(k, i));
                assert(a.charged(k, i) == a.usage.of(k).part(i));
                assert(entry.total.plus(cost).part(i) == entry.total.part(i) + cost.part(i));
            }
            total_update(a.pipelines, p, b.pipelines[p], is_required_pipeline());
            assert forall|q: int, i: int|
                live(b.pipelines, q) && 0 <= i < 4 implies #[trigger] b.credits(q, i)
                <= b.pipelines[q]->0.total.part(i) by {
                assert(live(a.pipelines, q));
                assert(a.credits(q, i) <= a.pipelines[q]->0.total.part(i));
                assert(entry.total.plus(cost).part(i) == entry.total.part(i) + cost.part(i));
                if let Some(s) = lease.bank {
                    let s = s as int;
                    let credits = a.banks[s]->0;
                    total_update(a.banks, s, b.banks[s], bank_part(q, i));
                    assert(credits.balance.plus(cost).part(i) == credits.balance.part(i)
                        + cost.part(i));
                }
            }
            same_shape(a, Accounts { leases: a.leases, ..b });
            fewer_leases(Accounts { leases: a.leases, ..b }, b);
        },
        None => {
            lemma_within(cost, a.usage.of(kind));
            lemma_minus(a.usage.of(kind), cost);
            assert forall|k: Kind, i: int| 0 <= i < 4 implies #[trigger] b.charged(k, i)
                == b.usage.of(k).part(i) by {
                total_update(a.leases, l, None, lease_part(k, i));
                assert(a.charged(k, i) == a.usage.of(k).part(i));
                assert(a.usage.of(kind).minus(cost).part(i) == a.usage.of(kind).part(i)
                    - cost.part(i));
            }
            assert forall|q: int, i: int|
                live(b.pipelines, q) && 0 <= i < 4 implies #[trigger] b.credits(q, i)
                <= b.pipelines[q]->0.total.part(i) by {
                assert(a.credits(q, i) <= a.pipelines[q]->0.total.part(i));
            }
            lemma_within(a.usage.ordinary, a.limits.ordinary_target);
            lemma_within(b.usage.ordinary, b.limits.ordinary_target);
            lemma_within(a.usage.required, a.limits.required_allowance);
            lemma_within(b.usage.required, b.limits.required_allowance);
            fewer_leases(a, b);
        },
    }
}

/// Links stay sound when a retained result leaves.
proof fn fewer_leases(a: Accounts, b: Accounts)
    requires
        a.linked(),
        b.banks == a.banks,
        b.pipelines == a.pipelines,
        forall|l: int| #[trigger] live(b.leases, l) ==> live(a.leases, l) && a.leases[l]
            == b.leases[l],
    ensures
        b.linked(),
{
    assert forall|j: int| #[trigger] live(b.banks, j) implies b.bank_linked(j) by {
        assert(live(a.banks, j));
        assert(a.bank_linked(j));
    }
    assert forall|l: int| #[trigger] live(b.leases, l) implies b.lease_linked(l) by {
        assert(live(a.leases, l));
        assert(a.lease_linked(l));
    }
    assert forall|q: int| #[trigger] live(b.pipelines, q) implies served(b.banks, q) by {
        assert(live(a.pipelines, q));
    }
}


/// What the books say of the reservation that leaves, beside the sums.
pub proof fn bank_leaves(a: Accounts, bank: int)
    requires
        a.wf(),
        live(a.banks, bank),
    ensures
        a.banks[bank]->0.parent matches Some(parent) ==> {
            &&& parent != bank
            &&& serves(a.banks, parent as int, a.banks[bank]->0.pipeline as int)
            &&& a.banks[parent as int]->0.balance.can_add(a.banks[bank]->0.balance)
        },
        live(a.pipelines, a.banks[bank]->0.pipeline as int),
        a.banks_without(bank).len() == a.banks.len(),
        forall|j: int| #[trigger]
            live(a.banks_without(bank), j) <==> j != bank && live(a.banks, j),
        forall|j: int| #[trigger]
            live(a.banks_without(bank), j) ==> {
                &&& a.banks_without(bank)[j]->0.pipeline == a.banks[j]->0.pipeline
                &&& a.banks_without(bank)[j]->0.parent == relink(
                    a.banks[j]->0.parent,
                    bank,
                    a.banks[bank]->0.parent,
                )
            },
        forall|q: int, i: int|
            0 <= i < 4 ==> #[trigger] total(a.banks_without(bank), bank_part(q, i)) <= a.credits(
                q,
                i,
            ),
{
    let gone = a.banks[bank]->0;
    let p = gone.pipeline as int;
    assert(a.bank_linked(bank));
    let rank = choose|rank: spec_fn(int) -> int| #[trigger] ranked(a.banks, rank);
    balance_backed(a, bank);
    if let Some(parent) = gone.parent {
        let heir = a.banks[parent as int]->0;
        assert(heir.balance.can_add(gone.balance)) by {
            assert forall|i: int| 0 <= i < 4 implies #[trigger] heir.balance.part(i)
                + gone.balance.part(i) <= usize::MAX by {
                two_bounds(a.banks, bank, parent as int, bank_part(p, i));
                assert(a.credits(p, i) <= a.pipelines[p]->0.total.part(i));
            }
        }
        lemma_plus(heir.balance, gone.balance);
    }
    let refunded = match gone.parent {
        Some(parent) => {
            let heir = a.banks[parent as int]->0;
            a.banks.update(
                parent as int,
                Some(CreditBank { balance: heir.balance.plus(gone.balance), ..heir }),
            )
        },
        None => a.banks,
    };
    let emptied = refunded.update(bank, None);
    let banks = a.banks_without(bank);
    assert(banks == relinked_banks(emptied, bank, gone.parent));
    assert forall|q: int, i: int| 0 <= i < 4 implies #[trigger] total(banks, bank_part(q, i))
        <= a.credits(q, i) by {
        let f = bank_part(q, i);
        assert forall|j: int| 0 <= j < banks.len() implies f(#[trigger] banks[j]) == f(
            emptied[j],
        ) by {}
        total_pointwise(banks, emptied, f, f);
        total_update(refunded, bank, None, f);
        if let Some(parent) = gone.parent {
            let heir = a.banks[parent as int]->0;
            total_update(a.banks, parent as int, refunded[parent as int], f);
            assert(heir.balance.plus(gone.balance).part(i) == heir.balance.part(i)
                + gone.balance.part(i));
        }
    }
}

/// Two positions of a sum of nonnegative measures.
proof fn two_bounds<A>(s: Seq<A>, i: int, j: int, f: spec_fn(A) -> int)
    requires
        0 <= i < s.len(),
        0 <= j < s.len(),
        i != j,
        forall|k: int| 0 <= k < s.len() ==> f(#[trigger] s[k]) >= 0,
    ensures
        f(s[i]) + f(s[j]) <= total(s, f),
{
    total_remove(s, i, f);
    let t = s.remove(i);
    let at = if j < i {
        j
    } else {
        j - 1
    };
    assert(t[at] == s[j]);
    assert forall|k: int| 0 <= k < t.len() implies f(#[trigger] t[k]) >= 0 by {
        assert(t[k] == s[if k < i {
            k
        } else {
            k + 1
        }]);
    }
    total_bounds(t, f);
}

proof fn without_bank_wf(a: Accounts, bank: int)
    requires
        a.wf(),
        live(a.banks, bank),
    ensures
        a.without_bank(bank).wf(),
{
    let b = a.without_bank(bank);
    let gone = a.banks[bank]->0;
    let p = gone.pipeline as int;
    let entry = a.pipelines[p]->0;
    let banks = a.banks_without(bank);
    let leases = relinked_leases(a.leases, bank, gone.parent);
    bank_leaves(a, bank);
    total_charged(a, p);
    let last = !served(banks, p);
    assert forall|kind: Kind, i: int| 0 <= i < 4 implies #[trigger] b.charged(kind, i)
        == b.usage.of(kind).part(i) by {
        let f = lease_part(kind, i);
        assert forall|l: int| 0 <= l < b.leases.len() implies f(#[trigger] b.leases[l]) == f(
            a.leases[l],
        ) by {}
        total_pointwise(b.leases, a.leases, f, f);
        assert(a.charged(kind, i) == a.usage.of(kind).part(i));
        if last {
            total_update(a.pipelines, p, None, pipeline_part(kind, i));
            lemma_minus(a.usage.of(entry.kind), entry.total);
            assert(a.usage.of(entry.kind).minus(entry.total).part(i) == a.usage.of(
                entry.kind,
            ).part(i) - entry.total.part(i));
        }
    }
    if last {
        total_update(a.pipelines, p, None, is_required_pipeline());
        lemma_minus(a.usage.of(entry.kind), entry.total);
        lemma_within(entry.total, a.usage.of(entry.kind));
        lemma_within(a.usage.ordinary, a.limits.ordinary_target);
        lemma_within(b.usage.ordinary, b.limits.ordinary_target);
        lemma_within(a.usage.required, a.limits.required_allowance);
        lemma_within(b.usage.required, b.limits.required_allowance);
    }
    assert(b.bounded());
    assert forall|q: int, i: int| live(b.pipelines, q) && 0 <= i < 4 implies #[trigger] b.credits(
        q,
        i,
    ) <= b.pipelines[q]->0.total.part(i) by {
        assert(live(a.pipelines, q));
        assert(a.credits(q, i) <= a.pipelines[q]->0.total.part(i));
        assert(total(banks, bank_part(q, i)) <= a.credits(q, i));
    }
    let rank = choose|rank: spec_fn(int) -> int| #[trigger] ranked(a.banks, rank);
    assert(ranked(banks, rank)) by {
        assert forall|j: int| #[trigger] live(banks, j) implies (banks[j]->0.parent matches Some(
            parent,
        ) ==> rank(parent as int) < rank(j)) by {
            assert(live(a.banks, j));
            assert(live(a.banks, bank));
        }
    }
    assert forall|j: int| #[trigger] live(b.banks, j) implies b.bank_linked(j) by {
        assert(live(a.banks, j));
        assert(a.bank_linked(j));
        assert(serves(banks, j, a.banks[j]->0.pipeline as int));
        if let Some(parent) = banks[j]->0.parent {
            assert(live(a.banks, parent as int));
            assert(live(banks, parent as int));
        }
    }
    assert forall|l: int| #[trigger] live(b.leases, l) implies b.lease_linked(l) by {
        assert(live(a.leases, l));
        assert(a.lease_linked(l));
        if let Some(s) = b.leases[l]->0.bank {
            assert(live(a.banks, s as int));
            assert(live(banks, s as int));
            assert(serves(banks, s as int, a.leases[l]->0.pipeline->0 as int));
        }
    }
    assert forall|q: int| #[trigger] live(b.pipelines, q) implies served(b.banks, q) by {
        assert(live(a.pipelines, q));
        if q != p {
            let j = choose|j: int| #[trigger] serves(a.banks, j, q);
            assert(live(a.banks, j));
            assert(live(banks, j));
            assert(serves(banks, j, q));
        }
    }
}


impl SWReservation {
    pub fn is_required(&self) -> (required: bool)
        ensures
            required == (self.drawn_kind() == Kind::Required),
    {
        self.kind == Kind::Required
    }

    pub fn runtime_identity(&self) -> (identity: u64)
        ensures
            identity == self.identity(),
    {
        self.runtime_identity
    }

    /// Free credits of this reservation.
    pub fn available(&self, pool: &SWReservationPool) -> (cost: SWCost)
        requires
            self.held_in(pool@),
        ensures
            cost == pool@.banks[self.bank_slot()]->0.balance,
    {
        match &pool.banks[self.bank] {
            Some(bank) => bank.balance,
            None => SWCost::new(0, 0, 0, 0),
        }
    }

    /// Transfers capacity to a child stage without touching global admission.
    pub fn stage(&self, pool: &mut SWReservationPool, cost: SWCost) -> (result: Result<
        SWReservation,
        SWReservationError,
    >)
        requires
            old(pool)@.wf(),
            self.held_in(old(pool)@),
        ensures
            final(pool)@.wf(),
            self.staged_by(old(pool)@, final(pool)@, cost, result),
    {
        let mut bank = match &pool.banks[self.bank] {
            Some(bank) => *bank,
            None => {
                return Err(SWReservationError::InsufficientCredits);
            },
        };
        if !bank.balance.subtract(cost) {
            return Err(SWReservationError::InsufficientCredits);
        }
        pool.banks.set(self.bank, Some(bank));
        let child: usize = place(
            &mut pool.banks,
            CreditBank { pipeline: self.pipeline, parent: Some(self.bank), balance: cost },
        );
        proof {
            staged_wf(old(pool)@, pool@, self.bank as int, child as int, cost);
        }
        Ok(
            SWReservation {
                runtime_identity: self.runtime_identity,
                pipeline: self.pipeline,
                bank: child,
                kind: self.kind,
            },
        )
    }

    /// The outcome of asking for a child stage: refused with the books
    /// unchanged, exactly when the free credits do not cover the cost.
    pub open spec fn staged_by(
        self,
        before: Accounts,
        after: Accounts,
        cost: SWCost,
        result: Result<SWReservation, SWReservationError>,
    ) -> bool {
        match result {
            Ok(child) => {
                &&& cost.within(before.banks[self.bank_slot()]->0.balance)
                &&& staged(before, after, self.bank_slot(), child.bank_slot(), cost)
                &&& child.held_in(after)
                &&& self.held_in(after)
                &&& child.bank_slot() != self.bank_slot()
                &&& child.pipeline_slot() == self.pipeline_slot()
                &&& child.drawn_kind() == self.drawn_kind()
            },
            Err(error) => {
                &&& !cost.within(before.banks[self.bank_slot()]->0.balance)
                &&& error == SWReservationError::InsufficientCredits
                &&& after == before
            },
        }
    }

    pub fn split(&mut self, pool: &mut SWReservationPool, cost: SWCost) -> (result: Result<
        SWReservation,
        SWReservationError,
    >)
        requires
            old(pool)@.wf(),
            old(self).held_in(old(pool)@),
        ensures
            final(pool)@.wf(),
            *final(self) == *old(self),
            old(self).staged_by(old(pool)@, final(pool)@, cost, result),
    {
        self.stage(pool, cost)
    }

    /// Transfers capacity from the pool atomically. Failure leaves the books
    /// unchanged.
    pub fn try_grow(&mut self, pool: &mut SWReservationPool, additional: SWCost) -> (result: Result<
        (),
        SWReservationError,
    >)
        requires
            old(pool)@.wf(),
            old(self).held_in(old(pool)@),
        ensures
            final(pool)@.wf(),
            *final(self) == *old(self),
            final(self).held_in(final(pool)@),
            match result {
                Ok(()) => {
                    &&& old(pool)@.grow_error(old(self).pipeline_slot(), additional) is None
                    &&& final(pool)@ == old(pool)@.grown(
                        old(self).pipeline_slot(),
                        old(self).bank_slot(),
                        additional,
                    )
                },
                Err(error) => {
                    &&& old(pool)@.grow_error(old(self).pipeline_slot(), additional) == Some(error)
                    &&& final(pool)@ == old(pool)@
                },
            },
    {
        let (mut entry, mut bank) = match (&pool.pipelines[self.pipeline], &pool.banks[self.bank]) {
            (Some(entry), Some(bank)) => (*entry, *bank),
            _ => {
                return Err(SWReservationError::TooLarge);
            },
        };
        let next = match entry.total.checked_add(additional) {
            Some(next) => next,
            None => {
                return Err(SWReservationError::TooLarge);
            },
        };
        proof {
            lemma_plus(entry.total, additional);
            assert(next.part(3) == entry.total.part(3) + additional.part(3));
        }
        if !fits_allowance(pool.limits, entry.kind, next) || !pool.limits.allows_bytes(next.bytes) {
            return Err(SWReservationError::TooLarge);
        }
        match pool.claim(additional, entry.kind, false) {
            Err(error) => Err(error),
            Ok(()) => {
                proof {
                    grown_wf(old(pool)@, self.bank as int, additional);
                }
                entry.total = next;
                bank.balance.add(additional);
                pool.pipelines.set(self.pipeline, Some(entry));
                pool.banks.set(self.bank, Some(bank));
                Ok(())
            },
        }
    }

    /// Detaches declared result bytes from a pipeline. The lease keeps the
    /// global byte charge but does not itself occupy a pipeline concurrency
    /// slot. Released while the pipeline lives, its credits return to that
    /// reserve; otherwise the global byte charge ends.
    pub fn retain_bytes(&self, pool: &mut SWReservationPool, bytes: usize) -> (result: Result<
        SWByteLease,
        SWReservationError,
    >)
        requires
            old(pool)@.wf(),
            self.held_in(old(pool)@),
        ensures
            final(pool)@.wf(),
            self.held_in(final(pool)@),
            match result {
                Ok(lease) => {
                    &&& bytes <= old(pool)@.banks[self.bank_slot()]->0.balance.bytes
                    &&& lease.byte_count() == bytes
                    &&& lease.held_in(final(pool)@)
                    &&& retained(
                        old(pool)@,
                        final(pool)@,
                        self.bank_slot(),
                        lease.lease_slot(),
                        bytes,
                    )
                },
                Err(error) => {
                    &&& bytes > old(pool)@.banks[self.bank_slot()]->0.balance.bytes
                    &&& error == SWReservationError::InsufficientCredits
                    &&& final(pool)@ == old(pool)@
                },
            },
    {
        let (mut entry, mut bank) = match (&pool.pipelines[self.pipeline], &pool.banks[self.bank]) {
            (Some(entry), Some(bank)) => (*entry, *bank),
            _ => {
                return Err(SWReservationError::InsufficientCredits);
            },
        };
        let cost = SWCost::new(0, 0, 0, bytes);
        proof {
            balance_backed(pool@, self.bank as int);
            lemma_within(cost, bank.balance);
            lemma_within(bank.balance, entry.total);
            lemma_within(cost, entry.total);
        }
        if !bank.balance.subtract(cost) {
            return Err(SWReservationError::InsufficientCredits);
        }
        let _ = entry.total.subtract(cost);
        pool.pipelines.set(self.pipeline, Some(entry));
        pool.banks.set(self.bank, Some(bank));
        let slot: usize = place(
            &mut pool.leases,
            ByteCharge {
                pipeline: Some(self.pipeline),
                bank: Some(self.bank),
                kind: self.kind,
                bytes,
            },
        );
        proof {
            retained_wf(old(pool)@, pool@, self.bank as int, slot as int, bytes);
        }
        Ok(SWByteLease { slot, bytes })
    }

    /// Ends this reservation. Its free credits return to the nearest live
    /// ancestor; the last reservation of a pipeline ends the pipeline.
    pub fn retire(self, pool: &mut SWReservationPool)
        requires
            old(pool)@.wf(),
            self.held_in(old(pool)@),
        ensures
            final(pool)@.wf(),
            final(pool)@ == old(pool)@.without_bank(self.bank_slot()),
    {
        proof {
            bank_leaves(pool@, self.bank as int);
            without_bank_wf(pool@, self.bank as int);
            total_charged(pool@, self.pipeline as int);
        }
        let gone = match &pool.banks[self.bank] {
            Some(bank) => *bank,
            None => {
                return ;
            },
        };
        if let Some(parent) = gone.parent {
            if let Some(heir) = &pool.banks[parent] {
                let mut heir = *heir;
                heir.balance.add(gone.balance);
                pool.banks.set(parent, Some(heir));
            }
        }
        pool.banks.set(self.bank, None);
        relink_banks(&mut pool.banks, self.bank, gone.parent);
        relink_leases(&mut pool.leases, self.bank, gone.parent);
        pool.wake = owe(pool.wake, 1);
        proof {
            assert(pool.banks@ =~= old(pool)@.banks_without(self.bank as int));
        }
        if is_served(&pool.banks, self.pipeline) {
            return ;
        }
        if let Some(entry) = &pool.pipelines[self.pipeline] {
            let total = entry.total;
            pool.pipelines.set(self.pipeline, None);
            detach_leases(&mut pool.leases, self.pipeline);
            pool.release(total, self.kind, true);
        }
    }
}

impl SWReservationPool {
    fn release(&mut self, cost: SWCost, kind: Kind, pipeline: bool)
        requires
            cost.within(old(self)@.usage.of(kind)),
            pipeline && kind == Kind::Required ==> old(self)@.usage.pipelines > 0,
        ensures
            final(self)@ == (Accounts {
                usage: old(self)@.usage.discharged(cost, kind, pipeline),
                wake: owing(old(self)@.wake, 1),
                ..old(self)@
            }),
    {
        let mut current = self.usage.current(kind);
        let _ = current.subtract(cost);
        match kind {
            Kind::Ordinary => {
                self.usage.ordinary = current;
            },
            Kind::Required => {
                self.usage.required = current;
            },
        }
        if pipeline && kind == Kind::Required {
            self.usage.pipelines = self.usage.pipelines - 1;
        }
        self.wake = owe(self.wake, 1);
    }
}

impl SWByteLease {
    pub fn bytes(&self) -> (bytes: usize)
        ensures
            bytes == self.byte_count(),
    {
        self.bytes
    }

    /// Ends this lease. While the pipeline lives the bytes return to it;
    /// otherwise their global charge ends.
    pub fn release(self, pool: &mut SWReservationPool)
        requires
            old(pool)@.wf(),
            self.held_in(old(pool)@),
        ensures
            final(pool)@.wf(),
            final(pool)@ == old(pool)@.without_lease(self.lease_slot()),
    {
        proof {
            without_lease_wf(pool@, self.slot as int);
            assert(pool@.lease_linked(self.slot as int));
        }
        let lease = match &pool.leases[self.slot] {
            Some(lease) => *lease,
            None => {
                return ;
            },
        };
        let cost = SWCost::new(0, 0, 0, lease.bytes);
        pool.leases.set(self.slot, None);
        match lease.pipeline {
            Some(pipeline) => {
                if let Some(entry) = &pool.pipelines[pipeline] {
                    let mut entry = *entry;
                    entry.total.add(cost);
                    pool.pipelines.set(pipeline, Some(entry));
                }
                if let Some(bank) = lease.bank {
                    if let Some(credits) = &pool.banks[bank] {
                        let mut credits = *credits;
                        credits.balance.add(cost);
                        pool.banks.set(bank, Some(credits));
                    }
                }
                pool.wake = owe(pool.wake, 1);
            },
            None => {
                proof {
                    lemma_within(cost, pool@.usage.of(lease.kind));
                }
                pool.release(cost, lease.kind, false);
            },
        }
    }
}

fn relink_one(link: Option<usize>, gone: usize, parent: Option<usize>) -> (next: Option<usize>)
    ensures
        next == relink(link, gone as int, parent),
{
    match link {
        Some(index) => if index == gone {
            parent
        } else {
            link
        },
        None => link,
    }
}

fn relink_banks(banks: &mut Vec<Option<CreditBank>>, gone: usize, parent: Option<usize>)
    ensures
        final(banks)@ == relinked_banks(old(banks)@, gone as int, parent),
{
    let ghost after = relinked_banks(banks@, gone as int, parent);
    let mut index: usize = 0;
    while index < banks.len()
        invariant
            index <= banks@.len(),
            banks@.len() == old(banks)@.len(),
            after == relinked_banks(old(banks)@, gone as int, parent),
            forall|j: int| 0 <= j < index ==> banks@[j] == after[j],
            forall|j: int| index <= j < banks@.len() ==> banks@[j] == old(banks)@[j],
        decreases banks@.len() - index,
    {
        if let Some(bank) = &banks[index] {
            let bank = CreditBank {
                pipeline: bank.pipeline,
                parent: relink_one(bank.parent, gone, parent),
                balance: bank.balance,
            };
            banks.set(index, Some(bank));
        }
        index += 1;
    }
    proof {
        assert(banks@ =~= after);
    }
}

fn relink_leases(leases: &mut Vec<Option<ByteCharge>>, gone: usize, parent: Option<usize>)
    ensures
        final(leases)@ == relinked_leases(old(leases)@, gone as int, parent),
{
    let ghost after = relinked_leases(leases@, gone as int, parent);
    let mut index: usize = 0;
    while index < leases.len()
        invariant
            index <= leases@.len(),
            leases@.len() == old(leases)@.len(),
            after == relinked_leases(old(leases)@, gone as int, parent),
            forall|j: int| 0 <= j < index ==> leases@[j] == after[j],
            forall|j: int| index <= j < leases@.len() ==> leases@[j] == old(leases)@[j],
        decreases leases@.len() - index,
    {
        if let Some(lease) = &leases[index] {
            let lease = ByteCharge {
                pipeline: lease.pipeline,
                bank: relink_one(lease.bank, gone, parent),
                kind: lease.kind,
                bytes: lease.bytes,
            };
            leases.set(index, Some(lease));
        }
        index += 1;
    }
    proof {
        assert(leases@ =~= after);
    }
}

fn detach_leases(leases: &mut Vec<Option<ByteCharge>>, pipeline: usize)
    ensures
        final(leases)@ == detached_leases(old(leases)@, pipeline as int),
{
    let ghost after = detached_leases(leases@, pipeline as int);
    let mut index: usize = 0;
    while index < leases.len()
        invariant
            index <= leases@.len(),
            leases@.len() == old(leases)@.len(),
            after == detached_leases(old(leases)@, pipeline as int),
            forall|j: int| 0 <= j < index ==> leases@[j] == after[j],
            forall|j: int| index <= j < leases@.len() ==> leases@[j] == old(leases)@[j],
        decreases leases@.len() - index,
    {
        if let Some(lease) = &leases[index] {
            let lease = ByteCharge {
                pipeline: relink_one(lease.pipeline, pipeline, None),
                bank: lease.bank,
                kind: lease.kind,
                bytes: lease.bytes,
            };
            leases.set(index, Some(lease));
        }
        index += 1;
    }
    proof {
        assert(leases@ =~= after);
    }
}

fn is_served(banks: &Vec<Option<CreditBank>>, pipeline: usize) -> (found: bool)
    ensures
        found == served(banks@, pipeline as int),
{
    let mut index: usize = 0;
    while index < banks.len()
        invariant
            index <= banks@.len(),
            forall|j: int| 0 <= j < index ==> !serves(banks@, j, pipeline as int),
        decreases banks@.len() - index,
    {
        if let Some(bank) = &banks[index] {
            if bank.pipeline == pipeline {
                assert(serves(banks@, index as int, pipeline as int));
                return true;
            }
        }
        index += 1;
    }
    false
}

/// The charges never exceed the policy: ordinary work stays within its target,
/// required metadata within its allowance, required pipelines within their
/// number, and all bytes under the hard ceiling.
pub proof fn charges_respect_policy(books: Accounts)
    requires
        books.wf(),
    ensures
        books.usage.ordinary.within(books.limits.ordinary_target),
        books.usage.required.metadata_within(books.limits.required_allowance),
        books.usage.pipelines <= books.limits.required_pipelines,
        books.limits.bytes_allowed(books.usage.ordinary.bytes + books.usage.required.bytes),
{
}

/// When every reservation and every retained result has gone, nothing is
/// charged any more.
pub proof fn everything_returns(books: Accounts)
    requires
        books.wf(),
        forall|b: int| !live(books.banks, b),
        forall|l: int| !live(books.leases, l),
    ensures
        books.usage.ordinary == SWCost::zero(),
        books.usage.required == SWCost::zero(),
        books.usage.pipelines == 0,
{
    assert forall|p: int| !live(books.pipelines, p) by {
        if live(books.pipelines, p) {
            let b = choose|b: int| #[trigger] serves(books.banks, b, p);
            assert(live(books.banks, b));
        }
    }
    assert forall|kind: Kind, i: int| 0 <= i < 4 implies #[trigger] books.usage.of(kind).part(i)
        == 0 by {
        assert forall|p: int| 0 <= p < books.pipelines.len() implies pipeline_part(kind, i)(
            #[trigger] books.pipelines[p],
        ) == 0 by {
            assert(!live(books.pipelines, p));
        }
        total_zero(books.pipelines, pipeline_part(kind, i));
        assert forall|l: int| 0 <= l < books.leases.len() implies lease_part(kind, i)(
            #[trigger] books.leases[l],
        ) == 0 by {
            assert(!live(books.leases, l));
        }
        total_zero(books.leases, lease_part(kind, i));
        assert(books.charged(kind, i) == books.usage.of(kind).part(i));
    }
    assert forall|p: int| 0 <= p < books.pipelines.len() implies is_required_pipeline()(
        #[trigger] books.pipelines[p],
    ) == 0 by {
        assert(!live(books.pipelines, p));
    }
    total_zero(books.pipelines, is_required_pipeline());
    lemma_parts(books.usage.ordinary);
    lemma_parts(books.usage.required);
    assert(books.usage.of(Kind::Ordinary).part(0) == 0);
    assert(books.usage.of(Kind::Ordinary).part(1) == 0);
    assert(books.usage.of(Kind::Ordinary).part(2) == 0);
    assert(books.usage.of(Kind::Ordinary).part(3) == 0);
    assert(books.usage.of(Kind::Required).part(0) == 0);
    assert(books.usage.of(Kind::Required).part(1) == 0);
    assert(books.usage.of(Kind::Required).part(2) == 0);
    assert(books.usage.of(Kind::Required).part(3) == 0);
}

/// Retiring a child stage at once gives the parent exactly the credits that it
/// had, and moves no global charge.
pub proof fn stage_undone(before: Accounts, between: Accounts, bank: int, child: int, cost: SWCost)
    requires
        before.wf(),
        live(before.banks, bank),
        bank <= usize::MAX,
        cost.within(before.banks[bank]->0.balance),
        staged(before, between, bank, child, cost),
    ensures
        ({
            let after = between.without_bank(child);
            &&& after.banks[bank] == before.banks[bank]
            &&& after.usage == before.usage
            &&& after.pipelines == before.pipelines
            &&& after.leases == before.leases
            &&& forall|b: int| #[trigger] live(after.banks, b) <==> live(before.banks, b)
            &&& forall|b: int| #[trigger]
                live(after.banks, b) ==> after.banks[b] == before.banks[b]
        }),
{
    staged_wf(before, between, bank, child, cost);
    bank_leaves(between, child);
    lemma_minus(before.banks[bank]->0.balance, cost);
    let credits = before.banks[bank]->0;
    let after = between.without_bank(child);
    let banks = between.banks_without(child);
    let rank = choose|rank: spec_fn(int) -> int| #[trigger] ranked(between.banks, rank);
    assert(live(between.banks, bank));
    assert(before.bank_linked(bank));
    assert forall|b: int| #[trigger] live(banks, b) implies live(before.banks, b) && banks[b]
        == before.banks[b] by {
        assert(live(between.banks, b));
        assert(live(before.banks, b));
        assert(before.bank_linked(b));
        if let Some(parent) = before.banks[b]->0.parent {
            assert(live(before.banks, parent as int));
            assert(parent != child);
        }
    }
    assert forall|b: int| #[trigger] live(before.banks, b) implies live(banks, b) by {
        assert(live(between.banks, b));
    }
    assert(live(banks, bank));
    assert(serves(banks, bank, credits.pipeline as int));
    assert(after.leases =~= before.leases) by {
        assert forall|l: int| 0 <= l < before.leases.len() implies after.leases[l]
            == before.leases[l] by {
            if before.leases[l] is Some {
                assert(live(before.leases, l));
                assert(before.lease_linked(l));
                if let Some(s) = before.leases[l]->0.bank {
                    assert(live(before.banks, s as int));
                }
            }
        }
    }
}

/// Retained bytes outlive the pipeline that they came from: when its last
/// reservation goes, exactly their charge stays.
pub proof fn retained_bytes_outlive_pipeline(books: Accounts, bank: int)
    requires
        books.wf(),
        live(books.banks, bank),
    ensures
        ({
            let after = books.without_bank(bank);
            forall|l: int| #[trigger]
                live(after.leases, l) <==> live(books.leases, l)
        }),
        ({
            let after = books.without_bank(bank);
            forall|l: int| #[trigger]
                live(after.leases, l) ==> after.leases[l]->0.bytes == books.leases[l]->0.bytes
                    && after.leases[l]->0.kind == books.leases[l]->0.kind
        }),
        ({
            let p = books.banks[bank]->0.pipeline as int;
            let after = books.without_bank(bank);
            !served(books.banks_without(bank), p) ==> {
                &&& !live(after.pipelines, p)
                &&& after.usage.of(books.pipelines[p]->0.kind) == books.usage.of(
                    books.pipelines[p]->0.kind,
                ).minus(books.pipelines[p]->0.total)
            }
        }),
{
    bank_leaves(books, bank);
}

/// Retiring one reservation leaves every other one live, with at least the free
/// credits that it had.
pub proof fn retirement_keeps_others(books: Accounts, gone: SWReservation, other: SWReservation)
    requires
        books.wf(),
        gone.held_in(books),
        other.held_in(books),
        gone.bank_slot() != other.bank_slot(),
    ensures
        other.held_in(books.without_bank(gone.bank_slot())),
        books.banks[other.bank_slot()]->0.balance.within(
            books.without_bank(gone.bank_slot()).banks[other.bank_slot()]->0.balance,
        ),
{
    let bank = gone.bank_slot();
    bank_leaves(books, bank);
    let banks = books.banks_without(bank);
    assert(live(books.banks, other.bank_slot()));
    assert(live(banks, other.bank_slot()));
    assert(serves(banks, other.bank_slot(), other.pipeline_slot()));
    if let Some(parent) = books.banks[bank]->0.parent {
        if parent == other.bank_slot() {
            lemma_plus(books.banks[other.bank_slot()]->0.balance, books.banks[bank]->0.balance);
        }
    }
}

/// Whatever was live in these books is still live, where it was.
pub open spec fn carries(before: Accounts, after: Accounts) -> bool {
    &&& after.identity == before.identity
    &&& forall|b: int| #[trigger]
        live(before.banks, b) ==> live(after.banks, b) && after.banks[b]->0.pipeline
            == before.banks[b]->0.pipeline
    &&& forall|p: int| #[trigger]
        live(before.pipelines, p) ==> live(after.pipelines, p) && after.pipelines[p]->0.kind
            == before.pipelines[p]->0.kind
    &&& forall|l: int| #[trigger]
        live(before.leases, l) ==> live(after.leases, l) && after.leases[l]->0.bytes
            == before.leases[l]->0.bytes
}

/// Handles to carried books stay good.
pub proof fn carries_handles(before: Accounts, after: Accounts)
    requires
        carries(before, after),
    ensures
        forall|r: SWReservation| #[trigger] r.held_in(before) ==> r.held_in(after),
        forall|l: SWByteLease| #[trigger] l.held_in(before) ==> l.held_in(after),
{
    assert forall|r: SWReservation| #[trigger] r.held_in(before) implies r.held_in(after) by {
        assert(live(before.banks, r.bank_slot()));
        assert(live(before.pipelines, r.pipeline_slot()));
    }
    assert forall|l: SWByteLease| #[trigger] l.held_in(before) implies l.held_in(after) by {
        assert(live(before.leases, l.lease_slot()));
    }
}

/// Admitting a pipeline, staging, growing and retaining bytes take nothing away
/// from anybody else.
pub proof fn draws_carry(before: Accounts, after: Accounts, p: int, b: int, x: int, cost: SWCost, kind: Kind, bytes: usize)
    ensures
        admitted(before, after, p, b, cost, kind) ==> carries(before, after) && !live(
            before.banks,
            b,
        ),
        live(before.banks, b) && staged(before, after, b, x, cost) ==> carries(before, after)
            && !live(before.banks, x),
        live(before.banks, b) && live(before.pipelines, before.banks[b]->0.pipeline as int)
            && retained(before, after, b, x, bytes) ==> carries(before, after),
{
}

/// Growing a reservation, closing admission and releasing a lease leave every
/// reservation where it was.
pub proof fn reservations_stay(before: Accounts, bank: int, lease: int, cost: SWCost)
    requires
        before.wf(),
    ensures
        live(before.banks, bank) ==> carries(
            before,
            before.grown(before.banks[bank]->0.pipeline as int, bank, cost),
        ),
        live(before.leases, lease) ==> forall|r: SWReservation| #[trigger]
            r.held_in(before) ==> r.held_in(before.without_lease(lease)),
        live(before.leases, lease) ==> forall|l: SWByteLease|
            #[trigger] l.held_in(before) && l.lease_slot() != lease ==> l.held_in(
                before.without_lease(lease),
            ),
{
    if live(before.banks, bank) {
        assert(before.bank_linked(bank));
    }
    if live(before.leases, lease) {
        assert(before.lease_linked(lease));
        let after = before.without_lease(lease);
        assert forall|r: SWReservation| #[trigger] r.held_in(before) implies r.held_in(after) by {
            assert(live(before.banks, r.bank_slot()));
            assert(live(before.pipelines, r.pipeline_slot()));
        }
    }
}

/// Retiring a pipeline's only reservation at once gives back exactly what its
/// admission charged, and disturbs nobody.
pub proof fn admission_undone(
    before: Accounts,
    between: Accounts,
    pipeline: int,
    bank: int,
    cost: SWCost,
    kind: Kind,
)
    requires
        before.wf(),
        claim_error(before.limits, before.usage, cost, kind, true) is None,
        admitted(before, between, pipeline, bank, cost, kind),
    ensures
        ({
            let after = between.without_bank(bank);
            &&& after.usage == before.usage
            &&& forall|b: int| #[trigger] live(after.banks, b) <==> live(before.banks, b)
            &&& forall|b: int| #[trigger]
                live(after.banks, b) ==> after.banks[b] == before.banks[b]
            &&& forall|p: int| #[trigger] live(after.pipelines, p) <==> live(before.pipelines, p)
            &&& after.leases == before.leases
        }),
{
    admitted_wf(before, between, pipeline, bank, cost, kind);
    bank_leaves(between, bank);
    claim_bounded(before, cost, kind, true);
    lemma_plus_minus(before.usage.of(kind), cost);
    let banks = between.banks_without(bank);
    let after = between.without_bank(bank);
    assert(live(between.banks, bank));
    assert forall|b: int| #[trigger] live(banks, b) implies live(before.banks, b) && banks[b]
        == before.banks[b] by {
        assert(live(between.banks, b));
        assert(live(before.banks, b));
        assert(before.bank_linked(b));
        if let Some(parent) = before.banks[b]->0.parent {
            assert(live(before.banks, parent as int));
        }
    }
    assert forall|b: int| #[trigger] live(before.banks, b) implies live(banks, b) by {
        assert(live(between.banks, b));
    }
    assert(!served(banks, pipeline)) by {
        if served(banks, pipeline) {
            let b = choose|b: int| #[trigger] serves(banks, b, pipeline);
            assert(live(banks, b));
            assert(before.bank_linked(b));
        }
    }
    assert(after.leases =~= before.leases) by {
        assert forall|l: int| 0 <= l < before.leases.len() implies after.leases[l]
            == before.leases[l] by {
            if before.leases[l] is Some {
                assert(live(before.leases, l));
                assert(before.lease_linked(l));
                if let Some(s) = before.leases[l]->0.bank {
                    assert(live(before.banks, s as int));
                }
            }
        }
    }
}

} // verus!
