//! Owned resources retained across access by an external provider or device.
use crate::admission::SWSpawnError;
use crate::context::Context;
use crate::cost::SWCost;
use crate::external::reserved_entry;
use crate::external::restated_entry;
use crate::external::PhysicalState;
use crate::lifecycle::ControlView;
use crate::reservation::reservations_stay;
use crate::reservation::Kind;
use crate::reservation::SWReservation;
use crate::runtime::physical_need;
use crate::runtime::PreparedAccess;
use crate::runtime::RuntimeView;
use crate::runtime::SWRuntime;
use crate::runtime::WorkLease;
use crate::supply::reservation_known;
use crate::supply::supplied;
use crate::supply::Supplied;
use crate::task::SWRetained;
use vstd::prelude::*;

verus! {

/// Admission for a physical accessor, independent of any logical producer.
/// `cost.bytes` covers the retained resource and follows it on release. Records
/// include at least one physical registry entry; edges/deliveries belong to
/// separate logical/owner admission and must be zero here.
pub struct SWExternalAccessOptions<'a> {
    pub lease: WorkLease,
    pub reservation: Option<&'a SWReservation>,
    pub cost: SWCost,
}

/// Physical admission failed before foreign access began. All inputs remain
/// owned by the caller; no provider action has been initiated.
pub struct SWExternalAccessRejected<'a, T> {
    pub reason: SWSpawnError,
    pub resource: T,
    pub options: SWExternalAccessOptions<'a>,
}

/// Reserves storage for a resource before foreign access starts. The prepared
/// value is safe to reclaim; activation separately commits access against
/// closure and set cancellation. No foreign code runs in admission, and a
/// refusal accepts nothing.
pub fn prepare_external<'a, T>(
    runtime: &mut SWRuntime,
    resource: T,
    options: SWExternalAccessOptions<'a>,
    context: Option<Context>,
) -> (result: Result<SWExternalPrepared<T>, SWExternalAccessRejected<'a, T>>)
    requires
        old(runtime).wf(),
        old(runtime)@.control.physical.next_id < u64::MAX,
        reservation_known(
            old(runtime)@.capacity,
            old(runtime)@.control.id,
            options.reservation,
        ),
    ensures
        final(runtime).wf(),
        match result {
            Ok(prepared) => {
                let required = options.reservation is Some && options.reservation->0.drawn_kind()
                    == Kind::Required;
                &&& old(runtime)@.prepare_error(
                    options.cost,
                    options.lease,
                    options.reservation,
                    context,
                ) is None
                &&& prepared.held() == resource
                &&& prepared.storage().id == old(runtime)@.control.physical.next_id
                &&& prepared.held_in(final(runtime)@)
                &&& final(runtime)@.control == (ControlView {
                    physical: old(runtime)@.control.physical.reserved(required),
                    ..old(runtime)@.control
                }).woken()
                &&& final(runtime)@.owned == old(runtime)@.owned
                &&& final(runtime)@.charges == old(runtime)@.charges
                &&& supplied(
                    old(runtime)@.capacity,
                    final(runtime)@.capacity,
                    options.reservation,
                    physical_need(options.cost),
                    Supplied {
                        charge: prepared.storage().charge,
                        bytes: prepared.storage().bytes,
                        ticket: None,
                    },
                )
            },
            Err(rejected) => {
                &&& old(runtime)@.prepare_error(
                    options.cost,
                    options.lease,
                    options.reservation,
                    context,
                ) == Some(rejected.reason)
                &&& rejected.resource == resource
                &&& rejected.options == options
                &&& final(runtime)@ == old(runtime)@.after_refused_access(
                    options.cost,
                    options.lease,
                    options.reservation,
                )
            },
        },
{
    proof {
        reserved_entry(
            runtime@.control.physical,
            options.reservation is Some && options.reservation->0.drawn_kind() == Kind::Required,
        );
    }
    match runtime.prepare_external(options.cost, options.lease, options.reservation, context) {
        Ok(access) => Ok(SWExternalPrepared::new(resource, access)),
        Err(reason) => Err(SWExternalAccessRejected { reason, resource, options }),
    }
}

/// The access is live in this state.
pub open spec fn access_in(access: PreparedAccess, runtime: RuntimeView, state: PhysicalState) -> bool {
    access.held_in(runtime) && runtime.control.physical.get(access.id).state == state
}

/// The runtime after an access has ended and its bytes were handed on.
pub open spec fn access_ended(before: RuntimeView, access: PreparedAccess) -> RuntimeView {
    RuntimeView {
        control: (ControlView {
            physical: before.control.physical.without(access.id),
            ..before.control
        }).woken(),
        capacity: match access.charge {
            Some(charge) => Some(before.capacity->0.without_bank(charge.bank_slot())),
            None => before.capacity,
        },
        ..before
    }
}

/// An admitted resource that has not been exposed to a foreign accessor.
///
/// The provider may return it safely if submission fails before access starts.
/// Activation is the explicit boundary after which release needs proof from the
/// provider.
pub struct SWExternalPrepared<T> {
    resource: T,
    access: PreparedAccess,
}

impl<T> SWExternalPrepared<T> {
    pub closed spec fn held(self) -> T {
        self.resource
    }

    pub closed spec fn storage(self) -> PreparedAccess {
        self.access
    }

    pub open spec fn held_in(self, runtime: RuntimeView) -> bool {
        access_in(self.storage(), runtime, PhysicalState::Prepared)
    }

    pub fn new(resource: T, access: PreparedAccess) -> (prepared: Self)
        ensures
            prepared.held() == resource,
            prepared.storage() == access,
    {
        SWExternalPrepared { resource, access }
    }

    /// Borrows the resource while no foreign access is permitted.
    pub fn get(&self) -> (resource: &T)
        ensures
            *resource == self.held(),
    {
        &self.resource
    }

    /// Mutates the resource while no foreign access is permitted.
    pub fn get_mut(&mut self) -> (resource: &mut T)
        ensures
            *resource == old(self).held(),
            final(self).held() == *final(resource),
            final(self).storage() == old(self).storage(),
    {
        &mut self.resource
    }

    /// Transfers a resource that was never activated into ordinary retained
    /// ownership. Its declared byte charge follows the returned value.
    pub fn into_retained(self, runtime: &mut SWRuntime) -> (retained: SWRetained<T>)
        requires
            old(runtime).wf(),
            self.held_in(old(runtime)@),
        ensures
            final(runtime).wf(),
            final(runtime)@ == access_ended(old(runtime)@, self.storage()),
            retained.held() == self.held(),
            retained.lease() == self.storage().bytes,
    {
        let SWExternalPrepared { resource, access } = self;
        let PreparedAccess { id, charge, bytes } = access;
        let retained = SWRetained::new(resource, bytes);
        runtime.end_physical(id, charge);
        retained
    }

    /// Registers active physical access. Rejection returns the complete
    /// prepared resource to the caller. `refused` is the objection of the work
    /// set that the access belongs to.
    pub fn activate(self, runtime: &mut SWRuntime, refused: Option<SWSpawnError>) -> (result: Result<
        SWExternalAccess<T>,
        SWExternalActivationRejected<T>,
    >)
        requires
            old(runtime).wf(),
            self.held_in(old(runtime)@),
        ensures
            final(runtime).wf(),
            match result {
                Ok(access) => {
                    &&& old(runtime)@.control.executing() && refused is None
                    &&& access.held() == self.held()
                    &&& access.storage() == self.storage()
                    &&& access.held_in(final(runtime)@)
                    &&& final(runtime)@ == (RuntimeView {
                        control: (ControlView {
                            physical: old(runtime)@.control.physical.restated(
                                self.storage().id,
                                PhysicalState::Active,
                            ),
                            ..old(runtime)@.control
                        }).woken(),
                        ..old(runtime)@
                    })
                },
                Err(rejected) => {
                    &&& if !old(runtime)@.control.executing() {
                        rejected.reason == SWSpawnError::Closed
                    } else {
                        refused == Some(rejected.reason)
                    }
                    &&& rejected.prepared == self
                    &&& final(runtime)@ == old(runtime)@
                },
            },
    {
        proof {
            restated_entry(
                runtime@.control.physical,
                self.access.id,
                PhysicalState::Active,
            );
        }
        match runtime.activate_physical(self.access.id, refused) {
            Err(reason) => Err(SWExternalActivationRejected { reason, prepared: self }),
            Ok(()) => {
                let SWExternalPrepared { resource, access } = self;
                Ok(SWExternalAccess { resource, access })
            },
        }
    }
}

/// Activation rejection with the resource, which was never exposed.
pub struct SWExternalActivationRejected<T> {
    pub reason: SWSpawnError,
    pub prepared: SWExternalPrepared<T>,
}

/// Exclusive release authority for a physically active external resource.
///
/// Losing this authority records an orphan and retains its resource, byte
/// charge, and physical registration. A provider must retain it until it can
/// prove all foreign access has ended. Logical completion, cancellation, and
/// timeout are not release proofs.
pub struct SWExternalAccess<T> {
    resource: T,
    access: PreparedAccess,
}

impl<T> SWExternalAccess<T> {
    pub closed spec fn held(self) -> T {
        self.resource
    }

    pub closed spec fn storage(self) -> PreparedAccess {
        self.access
    }

    pub open spec fn held_in(self, runtime: RuntimeView) -> bool {
        access_in(self.storage(), runtime, PhysicalState::Active)
    }

    /// Transfers the resource and its declared byte charge into CPU-visible
    /// retained ownership after physical release has been proved: every foreign
    /// accessor must have ended.
    pub fn acknowledge_release(self, runtime: &mut SWRuntime) -> (retained: SWRetained<T>)
        requires
            old(runtime).wf(),
            self.held_in(old(runtime)@),
        ensures
            final(runtime).wf(),
            final(runtime)@ == access_ended(old(runtime)@, self.storage()),
            retained.held() == self.held(),
            retained.lease() == self.storage().bytes,
    {
        let SWExternalAccess { resource, access } = self;
        let PreparedAccess { id, charge, bytes } = access;
        let retained = SWRetained::new(resource, bytes);
        runtime.end_physical(id, charge);
        retained
    }

    /// Ends the access and its byte charge after physical release has been
    /// proved, and hands the resource back to be destroyed.
    pub fn release(self, runtime: &mut SWRuntime) -> (resource: T)
        requires
            old(runtime).wf(),
            self.held_in(old(runtime)@),
        ensures
            final(runtime).wf(),
            resource == self.held(),
            final(runtime)@ == access_ended(
                RuntimeView {
                    capacity: match self.storage().bytes {
                        Some(lease) => Some(
                            old(runtime)@.capacity->0.without_lease(lease.lease_slot()),
                        ),
                        None => old(runtime)@.capacity,
                    },
                    ..old(runtime)@
                },
                self.storage(),
            ),
    {
        let SWExternalAccess { resource, access } = self;
        let PreparedAccess { id, charge, bytes } = access;
        if let Some(lease) = bytes {
            proof {
                reservations_stay(
                    runtime@.capacity->0,
                    0,
                    lease.lease_slot(),
                    SWCost::zero(),
                );
            }
            runtime.release_bytes(lease);
        }
        runtime.end_physical(id, charge);
        resource
    }

    /// Records that the release authority was lost. The resource and everything
    /// charged for it stay where they are.
    pub fn lose(self, runtime: &mut SWRuntime) -> (orphan: SWExternalOrphan<T>)
        requires
            old(runtime).wf(),
            self.held_in(old(runtime)@),
        ensures
            final(runtime).wf(),
            orphan.resource == self.held(),
            orphan.access == self.storage(),
            access_in(orphan.access, final(runtime)@, PhysicalState::Orphaned),
            final(runtime)@ == (RuntimeView {
                control: (ControlView {
                    physical: old(runtime)@.control.physical.restated(
                        self.storage().id,
                        PhysicalState::Orphaned,
                    ),
                    ..old(runtime)@.control
                }).woken(),
                ..old(runtime)@
            }),
    {
        proof {
            restated_entry(
                runtime@.control.physical,
                self.access.id,
                PhysicalState::Orphaned,
            );
        }
        let SWExternalAccess { resource, access } = self;
        runtime.orphan_physical(access.id);
        SWExternalOrphan { resource, access }
    }
}

/// A resource whose release authority was lost. It must not be destroyed while
/// a foreign accessor may still use it.
pub struct SWExternalOrphan<T> {
    pub resource: T,
    pub access: PreparedAccess,
}

} // verus!
