//! Declared costs and the limits that bound them.
use vstd::prelude::*;

verus! {

/// Simultaneously live scheduler metadata, promised deliveries, and payload bytes.
#[derive(Clone, Copy, Debug, PartialEq, Eq, Structural)]
pub struct SWCost {
    pub records: usize,
    pub edges: usize,
    pub deliveries: usize,
    pub bytes: usize,
}

impl Default for SWCost {
    fn default() -> (cost: Self)
        ensures
            cost == SWCost::zero(),
    {
        SWCost { records: 0, edges: 0, deliveries: 0, bytes: 0 }
    }
}

impl SWCost {
    pub open spec fn zero() -> SWCost {
        SWCost { records: 0, edges: 0, deliveries: 0, bytes: 0 }
    }

    /// The four components by number: records, edges, deliveries, bytes.
    pub open spec fn part(self, i: int) -> int {
        if i == 0 {
            self.records as int
        } else if i == 1 {
            self.edges as int
        } else if i == 2 {
            self.deliveries as int
        } else {
            self.bytes as int
        }
    }

    /// Every component is at most the same component of `limit`.
    pub open spec fn within(self, limit: SWCost) -> bool {
        forall|i: int| 0 <= i < 4 ==> #[trigger] self.part(i) <= limit.part(i)
    }

    /// Every component but the bytes is at most the same component of `limit`.
    pub open spec fn metadata_within(self, limit: SWCost) -> bool {
        forall|i: int| 0 <= i < 3 ==> #[trigger] self.part(i) <= limit.part(i)
    }

    /// The sum can be represented.
    pub open spec fn can_add(self, other: SWCost) -> bool {
        forall|i: int| 0 <= i < 4 ==> #[trigger] self.part(i) + other.part(i) <= usize::MAX
    }

    pub open spec fn plus(self, other: SWCost) -> SWCost {
        SWCost {
            records: (self.records + other.records) as usize,
            edges: (self.edges + other.edges) as usize,
            deliveries: (self.deliveries + other.deliveries) as usize,
            bytes: (self.bytes + other.bytes) as usize,
        }
    }

    pub open spec fn minus(self, other: SWCost) -> SWCost {
        SWCost {
            records: (self.records - other.records) as usize,
            edges: (self.edges - other.edges) as usize,
            deliveries: (self.deliveries - other.deliveries) as usize,
            bytes: (self.bytes - other.bytes) as usize,
        }
    }

    /// A cost of bytes alone.
    pub open spec fn of_bytes(bytes: usize) -> SWCost {
        SWCost { records: 0, edges: 0, deliveries: 0, bytes }
    }

    /// A cost of one delivery alone.
    pub open spec fn one_delivery() -> SWCost {
        SWCost { records: 0, edges: 0, deliveries: 1, bytes: 0 }
    }

    pub fn new(records: usize, edges: usize, deliveries: usize, bytes: usize) -> (cost: Self)
        ensures
            cost == (SWCost { records, edges, deliveries, bytes }),
    {
        SWCost { records, edges, deliveries, bytes }
    }

    pub fn checked_add(self, other: Self) -> (sum: Option<Self>)
        ensures
            sum is Some <==> self.can_add(other),
            sum matches Some(cost) ==> cost == self.plus(other),
    {
        proof {
            assert(self.can_add(other) <==> {
                &&& self.records + other.records <= usize::MAX
                &&& self.edges + other.edges <= usize::MAX
                &&& self.deliveries + other.deliveries <= usize::MAX
                &&& self.bytes + other.bytes <= usize::MAX
            }) by {
                lemma_parts(self);
                lemma_parts(other);
                if self.can_add(other) {
                    assert(self.part(0) + other.part(0) <= usize::MAX);
                    assert(self.part(1) + other.part(1) <= usize::MAX);
                    assert(self.part(2) + other.part(2) <= usize::MAX);
                    assert(self.part(3) + other.part(3) <= usize::MAX);
                }
            }
        }
        match (
            self.records.checked_add(other.records),
            self.edges.checked_add(other.edges),
            self.deliveries.checked_add(other.deliveries),
            self.bytes.checked_add(other.bytes),
        ) {
            (Some(records), Some(edges), Some(deliveries), Some(bytes)) => Some(
                SWCost { records, edges, deliveries, bytes },
            ),
            _ => None,
        }
    }

    pub fn fits(self, limit: Self) -> (fits: bool)
        ensures
            fits == self.within(limit),
    {
        proof {
            lemma_within(self, limit);
        }
        self.records <= limit.records && self.edges <= limit.edges && self.deliveries
            <= limit.deliveries && self.bytes <= limit.bytes
    }

    pub fn metadata_fits(self, limit: Self) -> (fits: bool)
        ensures
            fits == self.metadata_within(limit),
    {
        proof {
            lemma_within(self, limit);
        }
        self.records <= limit.records && self.edges <= limit.edges && self.deliveries
            <= limit.deliveries
    }

    /// Takes `other` out of this cost, or leaves it as it is and reports false.
    pub fn subtract(&mut self, other: Self) -> (taken: bool)
        ensures
            taken == other.within(*old(self)),
            *final(self) == (if taken {
                old(self).minus(other)
            } else {
                *old(self)
            }),
    {
        if !other.fits(*self) {
            return false;
        }
        proof {
            lemma_within(other, *self);
        }
        *self = SWCost {
            records: self.records - other.records,
            edges: self.edges - other.edges,
            deliveries: self.deliveries - other.deliveries,
            bytes: self.bytes - other.bytes,
        };
        true
    }

    /// Adds a cost whose sum with this one can be represented.
    pub fn add(&mut self, other: Self)
        requires
            old(self).can_add(other),
        ensures
            *final(self) == old(self).plus(other),
    {
        match self.checked_add(other) {
            Some(sum) => {
                *self = sum;
            },
            None => {},
        }
    }
}

/// The components of a cost.
pub proof fn lemma_parts(c: SWCost)
    ensures
        c.part(0) == c.records,
        c.part(1) == c.edges,
        c.part(2) == c.deliveries,
        c.part(3) == c.bytes,
        forall|i: int| 0 <= #[trigger] c.part(i) <= usize::MAX,
{
}

/// Comparison of costs, component by component.
pub proof fn lemma_within(c: SWCost, limit: SWCost)
    ensures
        c.within(limit) <==> {
            &&& c.records <= limit.records
            &&& c.edges <= limit.edges
            &&& c.deliveries <= limit.deliveries
            &&& c.bytes <= limit.bytes
        },
        c.metadata_within(limit) <==> {
            &&& c.records <= limit.records
            &&& c.edges <= limit.edges
            &&& c.deliveries <= limit.deliveries
        },
{
    lemma_parts(c);
    lemma_parts(limit);
    if c.metadata_within(limit) {
        assert(c.part(0) <= limit.part(0));
        assert(c.part(1) <= limit.part(1));
        assert(c.part(2) <= limit.part(2));
    }
    if c.within(limit) {
        assert(c.part(0) <= limit.part(0));
        assert(c.part(1) <= limit.part(1));
        assert(c.part(2) <= limit.part(2));
        assert(c.part(3) <= limit.part(3));
    }
}

/// A representable sum, component by component.
pub proof fn lemma_plus(a: SWCost, b: SWCost)
    requires
        a.can_add(b),
    ensures
        forall|i: int| #[trigger] a.plus(b).part(i) == a.part(i) + b.part(i),
{
    lemma_parts(a);
    lemma_parts(b);
    assert(a.part(0) + b.part(0) <= usize::MAX);
    assert(a.part(1) + b.part(1) <= usize::MAX);
    assert(a.part(2) + b.part(2) <= usize::MAX);
    assert(a.part(3) + b.part(3) <= usize::MAX);
}

/// Taking back what was added.
pub proof fn lemma_plus_minus(a: SWCost, b: SWCost)
    requires
        a.can_add(b),
    ensures
        a.plus(b).minus(b) == a,
        b.within(a.plus(b)),
{
    lemma_plus(a, b);
    lemma_parts(a);
    lemma_parts(b);
    lemma_parts(a.plus(b));
    assert(a.plus(b).part(0) == a.part(0) + b.part(0));
    assert(a.plus(b).part(1) == a.part(1) + b.part(1));
    assert(a.plus(b).part(2) == a.part(2) + b.part(2));
    assert(a.plus(b).part(3) == a.part(3) + b.part(3));
}

/// A difference, component by component.
pub proof fn lemma_minus(a: SWCost, b: SWCost)
    requires
        b.within(a),
    ensures
        forall|i: int| #[trigger] a.minus(b).part(i) == a.part(i) - b.part(i),
        a.minus(b).can_add(b),
        a.minus(b).plus(b) == a,
{
    lemma_within(b, a);
    lemma_parts(a);
    lemma_parts(b);
    lemma_parts(a.minus(b));
}

/// Optional admission policy. Required work may exceed the ordinary byte target.
/// The required allowance's byte field is ignored: only an explicit hard ceiling
/// constrains aggregate required bytes.
#[derive(Clone, Copy, Debug, PartialEq, Eq, Structural)]
pub struct SWLimits {
    pub ordinary_target: SWCost,
    pub required_allowance: SWCost,
    pub required_pipelines: usize,
    pub hard_byte_ceiling: Option<usize>,
}

impl SWLimits {
    /// Why a policy is refused, if it is.
    pub open spec fn error(self) -> Option<SWLimitError> {
        let required = self.required_allowance;
        let ordinary = self.ordinary_target;
        if self.required_pipelines > 0 && required.records == 0 && required.edges == 0
            && required.deliveries == 0 {
            Some(SWLimitError::ZeroRequiredCapacity)
        } else if ordinary.records + required.records > usize::MAX || ordinary.edges
            + required.edges > usize::MAX || ordinary.deliveries + required.deliveries
            > usize::MAX {
            Some(SWLimitError::MetadataOverflow)
        } else if self.hard_byte_ceiling is Some && ordinary.bytes > self.hard_byte_ceiling->0 {
            Some(SWLimitError::OrdinaryTargetExceedsCeiling)
        } else {
            None
        }
    }

    pub fn new(
        ordinary_target: SWCost,
        required_allowance: SWCost,
        required_pipelines: usize,
        hard_byte_ceiling: Option<usize>,
    ) -> (result: Result<Self, SWLimitError>)
        ensures
            ({
                let limits = SWLimits {
                    ordinary_target,
                    required_allowance,
                    required_pipelines,
                    hard_byte_ceiling,
                };
                match result {
                    Ok(accepted) => limits.error() is None && accepted == limits,
                    Err(error) => limits.error() == Some(error),
                }
            }),
    {
        if required_pipelines > 0 && required_allowance.records == 0 && required_allowance.edges
            == 0 && required_allowance.deliveries == 0 {
            return Err(SWLimitError::ZeroRequiredCapacity);
        }
        if ordinary_target.records.checked_add(required_allowance.records).is_none()
            || ordinary_target.edges.checked_add(required_allowance.edges).is_none()
            || ordinary_target.deliveries.checked_add(required_allowance.deliveries).is_none() {
            return Err(SWLimitError::MetadataOverflow);
        }
        if let Some(ceiling) = hard_byte_ceiling {
            if ordinary_target.bytes > ceiling {
                return Err(SWLimitError::OrdinaryTargetExceedsCeiling);
            }
        }
        Ok(SWLimits { ordinary_target, required_allowance, required_pipelines, hard_byte_ceiling })
    }

    /// Whether a byte count stays under the hard ceiling.
    pub open spec fn bytes_allowed(self, bytes: int) -> bool {
        self.hard_byte_ceiling matches Some(ceiling) ==> bytes <= ceiling
    }

    pub fn allows_bytes(self, bytes: usize) -> (allowed: bool)
        ensures
            allowed == self.bytes_allowed(bytes as int),
    {
        match self.hard_byte_ceiling {
            Some(ceiling) => bytes <= ceiling,
            None => true,
        }
    }
}

#[derive(Clone, Copy, Debug, PartialEq, Eq, Structural)]
pub enum SWLimitError {
    ZeroRequiredCapacity,
    MetadataOverflow,
    OrdinaryTargetExceedsCeiling,
}

#[derive(Clone, Copy, Debug, PartialEq, Eq, Structural)]
pub enum SWReservationError {
    Full,
    TooLarge,
    Closed,
    InsufficientCredits,
}

} // verus!
