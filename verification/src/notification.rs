//! Optional, bounded host notification routing.
//!
//! A source that changes marks every route bound to it. A marked route is
//! claimed at most once until its controller arms it again; the claim's holder
//! runs the host signal outside all bookkeeping and reports how that ended.
use vstd::prelude::*;

verus! {

/// Preallocated route and binding capacities for one runtime. Zero routes
/// disables notification; zero bindings permits routes but no persistent
/// source registrations.
#[derive(Clone, Copy, Debug, PartialEq, Eq, Structural)]
pub struct SWNotifyLimits {
    pub routes: usize,
    pub bindings: usize,
}

impl Default for SWNotifyLimits {
    fn default() -> (limits: Self)
        ensures
            limits == (SWNotifyLimits { routes: 0, bindings: 0 }),
    {
        SWNotifyLimits { routes: 0, bindings: 0 }
    }
}

/// A notification management or registration failure.
#[derive(Clone, Copy, Debug, PartialEq, Eq, Structural)]
pub enum SWNotifyError {
    Disabled,
    Full,
    Closed,
    ForeignSource,
    ForeignStamp,
    InvalidContext,
    Faulted,
    CounterExhausted,
}

/// A failed signal function is retained as route status, separate from job state.
#[derive(Clone, Debug, PartialEq, Eq)]
pub enum SWNotifyFault {
    Error(String),
    Panicked,
    CounterExhausted,
}

/// Failed route construction returns the uninvoked signal closure.
pub struct SWNotifyRejected<F> {
    pub reason: SWNotifyError,
    pub signal: F,
}

impl<F> SWNotifyRejected<F> {
    pub fn into_signal(self) -> (signal: F)
        ensures
            signal == self.signal,
    {
        self.signal
    }
}

/// How running a host signal ended.
pub enum SignalEnd {
    Delivered,
    /// It returned an error, with its text unless rendering or destroying it
    /// panicked.
    Failed(Option<String>),
    Panicked,
}

/// The fault that the end of a signal leaves. A panic in the destruction of the
/// last reference overrides everything else.
pub fn signal_fault(end: SignalEnd, destruction_panicked: bool) -> (fault: Option<SWNotifyFault>)
    ensures
        fault == (if destruction_panicked {
            Some(SWNotifyFault::Panicked)
        } else {
            match end {
                SignalEnd::Delivered => None,
                SignalEnd::Failed(Some(message)) => Some(SWNotifyFault::Error(message)),
                SignalEnd::Failed(None) => Some(SWNotifyFault::Panicked),
                SignalEnd::Panicked => Some(SWNotifyFault::Panicked),
            }
        }),
{
    if destruction_panicked {
        return Some(SWNotifyFault::Panicked);
    }
    match end {
        SignalEnd::Delivered => None,
        SignalEnd::Failed(Some(message)) => Some(SWNotifyFault::Error(message)),
        SignalEnd::Failed(None) => Some(SWNotifyFault::Panicked),
        SignalEnd::Panicked => Some(SWNotifyFault::Panicked),
    }
}

/// One host destination.
pub struct RouteState {
    /// Rises with every reuse.
    pub generation: u64,
    pub occupied: bool,
    pub handle_alive: bool,
    pub closed: bool,
    /// Marked since it was last armed.
    pub pending: bool,
    /// A claim is waiting to be run.
    pub queued: bool,
    pub epoch: u64,
    /// Claims that are waiting or running, and a running retirement.
    pub claims: usize,
    pub fault: Option<SWNotifyFault>,
    /// The signal closure is still held.
    pub signal: bool,
}

impl RouteState {
    pub open spec fn idle() -> RouteState {
        RouteState {
            generation: 0,
            occupied: false,
            handle_alive: false,
            closed: true,
            pending: false,
            queued: false,
            epoch: 0,
            claims: 0,
            fault: None,
            signal: false,
        }
    }

    /// The route after its next use has begun.
    pub open spec fn opened(self) -> RouteState {
        RouteState {
            generation: (self.generation + 1) as u64,
            occupied: true,
            handle_alive: true,
            closed: false,
            pending: false,
            queued: false,
            epoch: 0,
            claims: 0,
            fault: None,
            signal: true,
        }
    }

    pub open spec fn wf(self) -> bool {
        &&& self.queued ==> self.claims > 0
        &&& self.handle_alive ==> self.occupied
        &&& !self.occupied ==> self.claims == 0 && self.closed && !self.signal && !self.queued
        &&& self.occupied && !self.handle_alive ==> self.claims > 0 && self.closed
        &&& !self.closed ==> self.signal
        &&& self.closed && self.claims == 0 ==> !self.signal
    }

    /// Changes reach this use of the route.
    pub open spec fn listens(self, generation: u64) -> bool {
        self.generation == generation && !self.closed && self.fault is None
    }

    /// A change now needs a claim.
    pub open spec fn needs_claim(self, generation: u64) -> bool {
        self.listens(generation) && self.epoch < u64::MAX && !self.pending && !self.queued
    }

    /// The route after a change of one of its sources.
    pub open spec fn marked(self, generation: u64) -> RouteState {
        if !self.listens(generation) {
            self
        } else if self.epoch == u64::MAX {
            RouteState { fault: Some(SWNotifyFault::CounterExhausted), ..self }
        } else if self.pending {
            RouteState { epoch: (self.epoch + 1) as u64, ..self }
        } else if self.queued {
            RouteState { epoch: (self.epoch + 1) as u64, pending: true, ..self }
        } else {
            RouteState {
                epoch: (self.epoch + 1) as u64,
                pending: true,
                queued: true,
                claims: (self.claims + 1) as usize,
                ..self
            }
        }
    }

    /// Why registering and arming is refused, if it is.
    pub open spec fn refusal(self) -> Option<SWNotifyError> {
        if self.closed {
            Some(SWNotifyError::Closed)
        } else if self.fault is Some {
            Some(SWNotifyError::Faulted)
        } else {
            None
        }
    }
}

/// One registration of a route with a source.
#[derive(Clone, Copy, Debug, PartialEq, Eq, Structural)]
pub struct BindingState {
    pub generation: u64,
    pub occupied: bool,
    pub active: bool,
    /// Serial of the source, while active.
    pub source: Option<u64>,
    /// Index of the route, while active.
    pub route: Option<usize>,
    pub route_generation: u64,
}

impl BindingState {
    pub open spec fn idle() -> BindingState {
        BindingState {
            generation: 0,
            occupied: false,
            active: false,
            source: None,
            route: None,
            route_generation: 0,
        }
    }

    pub open spec fn detached(self) -> BindingState {
        BindingState { active: false, source: None, route: None, ..self }
    }
}

#[verifier::ext_equal]
pub struct SourceView {
    pub serial: u64,
    pub ever_watched: bool,
    pub terminal: bool,
    /// Active bindings, oldest first.
    pub members: Seq<usize>,
}

#[verifier::ext_equal]
pub struct NotifyView {
    pub runtime: u64,
    /// Unused routes; the last one is used next.
    pub free_routes: Seq<usize>,
    pub free_bindings: Seq<usize>,
    pub routes: Seq<RouteState>,
    pub bindings: Seq<BindingState>,
    /// Live sources, in creation order.
    pub sources: Seq<SourceView>,
    pub serial: int,
    pub progress: Option<u64>,
}

pub open spec fn no_repeats(s: Seq<usize>) -> bool {
    forall|i: int, j: int| 0 <= i < j < s.len() ==> #[trigger] s[i] != #[trigger] s[j]
}

pub open spec fn source_at(sources: Seq<SourceView>, i: int, serial: u64) -> bool {
    0 <= i < sources.len() && sources[i].serial == serial
}

pub open spec fn source_live(sources: Seq<SourceView>, serial: u64) -> bool {
    exists|i: int| #[trigger] source_at(sources, i, serial)
}

pub open spec fn source_slot(sources: Seq<SourceView>, serial: u64) -> int {
    choose|i: int| #[trigger] source_at(sources, i, serial)
}

/// The routes after each of these bindings, in turn, has reported a change.
pub open spec fn all_marked(
    routes: Seq<RouteState>,
    bindings: Seq<BindingState>,
    order: Seq<usize>,
) -> Seq<RouteState>
    decreases order.len(),
{
    if order.len() == 0 {
        routes
    } else {
        let before = all_marked(routes, bindings, order.drop_last());
        let b = bindings[order.last() as int];
        before.update(
            b.route->0 as int,
            before[b.route->0 as int].marked(b.route_generation),
        )
    }
}

/// The routes that need a claim after that, in turn.
pub open spec fn all_claims(
    routes: Seq<RouteState>,
    bindings: Seq<BindingState>,
    order: Seq<usize>,
) -> Seq<usize>
    decreases order.len(),
{
    if order.len() == 0 {
        Seq::empty()
    } else {
        let before = all_marked(routes, bindings, order.drop_last());
        let claims = all_claims(routes, bindings, order.drop_last());
        let b = bindings[order.last() as int];
        if before[b.route->0 as int].needs_claim(b.route_generation) {
            claims.push(b.route->0)
        } else {
            claims
        }
    }
}

/// The bindings after some of them were detached.
pub open spec fn all_detached(bindings: Seq<BindingState>, members: Seq<usize>) -> Seq<
    BindingState,
> {
    Seq::new(
        bindings.len(),
        |i: int|
            if members.contains(i as usize) {
                bindings[i].detached()
            } else {
                bindings[i]
            },
    )
}

impl NotifyView {
    /// The free lists hold exactly what is unused, each once.
    pub open spec fn freed(self) -> bool {
        &&& self.routes.len() <= usize::MAX
        &&& self.bindings.len() <= usize::MAX
        &&& no_repeats(self.free_routes)
        &&& no_repeats(self.free_bindings)
        &&& forall|i: int|
            0 <= i < self.free_routes.len() ==> (#[trigger] self.free_routes[i]) < self.routes.len()
        &&& forall|i: int|
            0 <= i < self.free_bindings.len() ==> (#[trigger] self.free_bindings[i])
                < self.bindings.len()
        &&& forall|i: int|
            0 <= i < self.routes.len() ==> ((#[trigger] self.routes[i]).occupied
                <==> !self.free_routes.contains(i as usize))
        &&& forall|i: int|
            0 <= i < self.bindings.len() ==> ((#[trigger] self.bindings[i]).occupied
                <==> !self.free_bindings.contains(i as usize))
    }

    pub open spec fn source_ok(self, s: int) -> bool {
        let source = self.sources[s];
        &&& no_repeats(source.members)
        &&& source.terminal ==> source.members.len() == 0
        &&& source.members.len() > 0 ==> source.ever_watched
        &&& forall|i: int|
            0 <= i < source.members.len() ==> {
                let b = #[trigger] source.members[i];
                &&& b < self.bindings.len()
                &&& self.bindings[b as int].active
                &&& self.bindings[b as int].source == Some(source.serial)
            }
    }

    pub open spec fn binding_ok(self, b: int) -> bool {
        let binding = self.bindings[b];
        &&& binding.active ==> {
            &&& binding.occupied
            &&& binding.source is Some && binding.source->0 <= self.serial
            &&& binding.route is Some && binding.route->0 < self.routes.len()
            &&& self.routes[binding.route->0 as int].generation == binding.route_generation
            &&& !self.routes[binding.route->0 as int].closed
            &&& source_live(self.sources, binding.source->0) ==> self.sources[source_slot(
                self.sources,
                binding.source->0,
            )].members.contains(b as usize)
        }
        &&& !binding.active ==> binding.source is None && binding.route is None
    }

    pub open spec fn wf(self) -> bool {
        &&& self.freed()
        &&& 0 <= self.serial <= u64::MAX
        &&& forall|i: int| 0 <= i < self.routes.len() ==> (#[trigger] self.routes[i]).wf()
        &&& forall|i: int, j: int|
            0 <= i < j < self.sources.len() ==> (#[trigger] self.sources[i]).serial < (
            #[trigger] self.sources[j]).serial
        &&& forall|i: int|
            0 <= i < self.sources.len() ==> 0 < (#[trigger] self.sources[i]).serial <= self.serial
        &&& forall|s: int| 0 <= s < self.sources.len() ==> #[trigger] self.source_ok(s)
        &&& forall|b: int| 0 <= b < self.bindings.len() ==> #[trigger] self.binding_ok(b)
    }

    /// A domain in which nothing is in use. Routes and bindings are taken in
    /// the order of their indices, and an enabled domain has the source of the
    /// runtime's broad progress.
    pub open spec fn fresh(runtime: u64, limits: SWNotifyLimits) -> NotifyView {
        NotifyView {
            runtime,
            free_routes: Seq::new(
                limits.routes as nat,
                |i: int| (limits.routes - 1 - i) as usize,
            ),
            free_bindings: Seq::new(
                limits.bindings as nat,
                |i: int| (limits.bindings - 1 - i) as usize,
            ),
            routes: Seq::new(limits.routes as nat, |i: int| RouteState::idle()),
            bindings: Seq::new(limits.bindings as nat, |i: int| BindingState::idle()),
            sources: if limits.routes == 0 {
                Seq::empty()
            } else {
                seq![
                    SourceView {
                        serial: 1,
                        ever_watched: false,
                        terminal: false,
                        members: Seq::empty(),
                    },
                ]
            },
            serial: if limits.routes == 0 {
                0
            } else {
                1
            },
            progress: if limits.routes == 0 {
                None
            } else {
                Some(1)
            },
        }
    }

    /// Every route can take one more claim.
    pub open spec fn roomy(self) -> bool {
        forall|i: int| 0 <= i < self.routes.len() ==> (#[trigger] self.routes[i]).claims < usize::MAX
    }

    pub open spec fn with_route(self, i: int, route: RouteState) -> NotifyView {
        NotifyView { routes: self.routes.update(i, route), ..self }
    }

    /// Why a route is refused, if it is.
    pub open spec fn create_error(self, invoking: bool) -> Option<SWNotifyError> {
        if invoking {
            Some(SWNotifyError::InvalidContext)
        } else if self.routes.len() == 0 {
            Some(SWNotifyError::Disabled)
        } else if self.free_routes.len() == 0 {
            Some(SWNotifyError::Full)
        } else if self.routes[self.free_routes.last() as int].generation == u64::MAX {
            Some(SWNotifyError::CounterExhausted)
        } else {
            None
        }
    }

    pub open spec fn created(self) -> NotifyView {
        let index = self.free_routes.last();
        NotifyView {
            free_routes: self.free_routes.drop_last(),
            routes: self.routes.update(index as int, self.routes[index as int].opened()),
            ..self
        }
    }

    /// The source has changed; with `terminal` for the last time.
    pub open spec fn published(self, serial: u64, terminal: bool) -> NotifyView {
        let s = source_slot(self.sources, serial);
        let source = self.sources[s];
        if !source_live(self.sources, serial) || source.terminal {
            self
        } else {
            let order = source.members.reverse();
            NotifyView {
                routes: all_marked(self.routes, self.bindings, order),
                bindings: if terminal {
                    all_detached(self.bindings, source.members)
                } else {
                    self.bindings
                },
                sources: if terminal {
                    self.sources.update(
                        s,
                        SourceView { terminal: true, members: Seq::empty(), ..source },
                    )
                } else {
                    self.sources
                },
                ..self
            }
        }
    }

    /// The routes that a change of this source makes somebody claim, newest
    /// binding first.
    pub open spec fn publication(self, serial: u64) -> Seq<usize> {
        let source = self.sources[source_slot(self.sources, serial)];
        if !source_live(self.sources, serial) || source.terminal {
            Seq::empty()
        } else {
            all_claims(self.routes, self.bindings, source.members.reverse())
        }
    }
}

/// What one change does to one route, again and again.
proof fn marked_wf(r: RouteState, generation: u64)
    requires
        r.wf(),
        r.claims < usize::MAX,
    ensures
        r.marked(generation).wf(),
        r.marked(generation).generation == r.generation,
        r.marked(generation).occupied == r.occupied,
        r.marked(generation).handle_alive == r.handle_alive,
        r.marked(generation).closed == r.closed,
        r.claims <= r.marked(generation).claims <= r.claims + 1,
        r.marked(generation).claims == r.claims + 1 <==> r.needs_claim(generation),
        r.needs_claim(generation) ==> r.marked(generation).queued,
        r.queued ==> r.marked(generation).queued && r.marked(generation).claims == r.claims,
{
}

/// A publication marks routes, and touches nothing else of them. A route is
/// claimed at most once by it.
pub proof fn all_marked_ok(v: NotifyView, order: Seq<usize>)
    requires
        forall|i: int| 0 <= i < v.routes.len() ==> (#[trigger] v.routes[i]).wf(),
        v.roomy(),
        v.routes.len() <= usize::MAX,
        forall|i: int|
            0 <= i < order.len() ==> {
                let b = #[trigger] order[i];
                &&& b < v.bindings.len()
                &&& v.bindings[b as int].route is Some
                &&& v.bindings[b as int].route->0 < v.routes.len()
            },
    ensures
        ({
            let after = all_marked(v.routes, v.bindings, order);
            let claims = all_claims(v.routes, v.bindings, order);
            &&& after.len() == v.routes.len()
            &&& forall|i: int|
                0 <= i < after.len() ==> {
                    &&& (#[trigger] after[i]).wf()
                    &&& after[i].generation == v.routes[i].generation
                    &&& after[i].occupied == v.routes[i].occupied
                    &&& after[i].handle_alive == v.routes[i].handle_alive
                    &&& after[i].closed == v.routes[i].closed
                    &&& v.routes[i].claims <= after[i].claims <= v.routes[i].claims + 1
                    &&& v.routes[i].queued ==> after[i].queued && after[i].claims
                        == v.routes[i].claims
                    &&& claims.contains(i as usize) <==> after[i].claims == v.routes[i].claims + 1
                    &&& claims.contains(i as usize) ==> after[i].queued && !v.routes[i].queued
                }
            &&& no_repeats(claims)
            &&& forall|k: int|
                0 <= k < claims.len() ==> (#[trigger] claims[k]) < v.routes.len()
        }),
    decreases order.len(),
{
    if order.len() > 0 {
        let rest = order.drop_last();
        assert forall|i: int| 0 <= i < rest.len() implies {
            let b = #[trigger] rest[i];
            &&& b < v.bindings.len()
            &&& v.bindings[b as int].route is Some
            &&& v.bindings[b as int].route->0 < v.routes.len()
        } by {
            assert(rest[i] == order[i]);
        }
        all_marked_ok(v, rest);
        let before = all_marked(v.routes, v.bindings, rest);
        let old_claims = all_claims(v.routes, v.bindings, rest);
        let after = all_marked(v.routes, v.bindings, order);
        let claims = all_claims(v.routes, v.bindings, order);
        let b = v.bindings[order[order.len() - 1] as int];
        let r = b.route->0 as int;
        let g = b.route_generation;
        assert(before[r].wf());
        if before[r].needs_claim(g) {
            assert(!before[r].queued);
            assert(before[r].claims == v.routes[r].claims) by {
                if old_claims.contains(r as usize) {
                    assert(before[r].queued);
                }
            }
            assert(before[r].claims < usize::MAX);
            marked_wf(before[r], g);
            assert(!old_claims.contains(r as usize));
            assert(claims == old_claims.push(b.route->0));
            assert forall|i: int|
                0 <= i < after.len() implies (claims.contains(i as usize) <==> (
            #[trigger] after[i]).claims == v.routes[i].claims + 1) by {
                if i == r {
                    assert(claims[old_claims.len() as int] == r as usize);
                } else {
                    assert(after[i] == before[i]);
                    if claims.contains(i as usize) {
                        let k = choose|k: int| 0 <= k < claims.len() && claims[k] == i as usize;
                        assert(k < old_claims.len());
                        assert(old_claims[k] == i as usize);
                    }
                    if old_claims.contains(i as usize) {
                        let k = choose|k: int|
                            0 <= k < old_claims.len() && old_claims[k] == i as usize;
                        assert(claims[k] == i as usize);
                    }
                }
            }
            assert(no_repeats(claims)) by {
                assert forall|i: int, j: int| 0 <= i < j < claims.len() implies #[trigger] claims[i]
                    != #[trigger] claims[j] by {
                    if j == old_claims.len() {
                        assert(old_claims[i] == claims[i]);
                    }
                }
            }
        } else {
            if before[r].claims < usize::MAX {
                marked_wf(before[r], g);
            }
            assert(before[r].marked(g).wf());
            assert(before[r].marked(g).claims == before[r].claims);
            assert forall|i: int|
                0 <= i < after.len() implies (claims.contains(i as usize) <==> (
            #[trigger] after[i]).claims == v.routes[i].claims + 1) by {
                assert(before[i].claims == after[i].claims);
            }
        }
        assert forall|i: int| 0 <= i < after.len() implies {
            &&& (#[trigger] after[i]).wf()
            &&& after[i].generation == v.routes[i].generation
            &&& after[i].occupied == v.routes[i].occupied
            &&& after[i].handle_alive == v.routes[i].handle_alive
            &&& after[i].closed == v.routes[i].closed
            &&& v.routes[i].claims <= after[i].claims <= v.routes[i].claims + 1
            &&& v.routes[i].queued ==> after[i].queued && after[i].claims == v.routes[i].claims
            &&& claims.contains(i as usize) ==> after[i].queued && !v.routes[i].queued
        } by {
            assert(before[i].wf());
            if i != r {
                assert(after[i] == before[i]);
            }
        }
    }
}

/// Changes of routes that keep every use of them keep the domain consistent.
proof fn routes_changed_wf(v: NotifyView, w: NotifyView)
    requires
        v.wf(),
        w == (NotifyView { routes: w.routes, ..v }),
        w.routes.len() == v.routes.len(),
        forall|i: int|
            0 <= i < v.routes.len() ==> {
                &&& (#[trigger] w.routes[i]).wf()
                &&& w.routes[i].generation == v.routes[i].generation
                &&& w.routes[i].occupied == v.routes[i].occupied
                &&& w.routes[i].closed == v.routes[i].closed
            },
    ensures
        w.wf(),
{
    assert forall|s: int| 0 <= s < w.sources.len() implies #[trigger] w.source_ok(s) by {
        assert(v.source_ok(s));
    }
    assert forall|b: int| 0 <= b < w.bindings.len() implies #[trigger] w.binding_ok(b) by {
        assert(v.binding_ok(b));
        if v.bindings[b].active {
            assert(w.routes[v.bindings[b].route->0 as int].wf());
        }
    }
    assert forall|i: int| 0 <= i < w.routes.len() implies ((#[trigger] w.routes[i]).occupied
        <==> !w.free_routes.contains(i as usize)) by {
        assert(v.routes[i].occupied == w.routes[i].occupied);
    }
}

pub proof fn source_found(v: NotifyView, i: int, serial: u64)
    requires
        v.wf(),
        source_at(v.sources, i, serial),
    ensures
        source_live(v.sources, serial),
        source_slot(v.sources, serial) == i,
{
    let k = source_slot(v.sources, serial);
    assert(source_at(v.sources, k, serial));
    if k < i {
        assert(v.sources[k].serial < v.sources[i].serial);
    } else if i < k {
        assert(v.sources[i].serial < v.sources[k].serial);
    }
}

/// The members of a source can all be marked.
pub proof fn members_marked(v: NotifyView, s: int)
    requires
        v.wf(),
        v.roomy(),
        0 <= s < v.sources.len(),
    ensures
        forall|i: int|
            0 <= i < v.sources[s].members.len() ==> {
                let b = #[trigger] v.sources[s].members.reverse()[i];
                &&& b < v.bindings.len()
                &&& v.bindings[b as int].route is Some
                &&& v.bindings[b as int].route->0 < v.routes.len()
            },
{
    assert(v.source_ok(s));
    let members = v.sources[s].members;
    assert forall|i: int| 0 <= i < members.len() implies {
        let b = #[trigger] members.reverse()[i];
        &&& b < v.bindings.len()
        &&& v.bindings[b as int].route is Some
        &&& v.bindings[b as int].route->0 < v.routes.len()
    } by {
        let b = members[members.len() - 1 - i];
        assert(members.reverse()[i] == b);
        assert(v.binding_ok(b as int));
    }
}

pub proof fn published_wf(v: NotifyView, serial: u64, terminal: bool)
    requires
        v.wf(),
        v.roomy(),
    ensures
        v.published(serial, terminal).wf(),
{
    let w = v.published(serial, terminal);
    let s = source_slot(v.sources, serial);
    if source_live(v.sources, serial) && !v.sources[s].terminal {
        assert(source_at(v.sources, s, serial));
        assert(v.source_ok(s));
        let members = v.sources[s].members;
        let order = members.reverse();
        members_marked(v, s);
        all_marked_ok(v, order);
        let m = NotifyView { routes: w.routes, ..v };
        routes_changed_wf(v, m);
        if terminal {
            members_left(m, w, s);
        }
    }
}

/// Removing every member of one source.
proof fn members_left(m: NotifyView, w: NotifyView, s: int)
    requires
        m.wf(),
        0 <= s < m.sources.len(),
        w == (NotifyView {
            bindings: all_detached(m.bindings, m.sources[s].members),
            sources: m.sources.update(
                s,
                SourceView { terminal: true, members: Seq::empty(), ..m.sources[s] },
            ),
            ..m
        }),
    ensures
        w.wf(),
{
    let members = m.sources[s].members;
    assert(m.source_ok(s));
    assert forall|i: int, j: int| 0 <= i < j < w.sources.len() implies (
    #[trigger] w.sources[i]).serial < (#[trigger] w.sources[j]).serial by {
        assert(m.sources[i].serial < m.sources[j].serial);
    }
    assert forall|i: int| 0 <= i < w.sources.len() implies 0 < (#[trigger] w.sources[i]).serial
        <= w.serial by {
        assert(m.sources[i].serial <= m.serial);
    }
    assert forall|i: int| 0 <= i < w.bindings.len() implies ((#[trigger] w.bindings[i]).occupied
        <==> !w.free_bindings.contains(i as usize)) by {
        assert(m.bindings[i].occupied == w.bindings[i].occupied);
    }
    assert forall|t: int| 0 <= t < w.sources.len() implies #[trigger] w.source_ok(t) by {
        assert(m.source_ok(t));
        if t != s {
            assert forall|i: int| 0 <= i < w.sources[t].members.len() implies {
                let b = #[trigger] w.sources[t].members[i];
                &&& b < w.bindings.len()
                &&& w.bindings[b as int].active
                &&& w.bindings[b as int].source == Some(w.sources[t].serial)
            } by {
                let b = m.sources[t].members[i];
                assert(m.bindings[b as int].active);
                if members.contains(b) {
                    let k = choose|k: int| 0 <= k < members.len() && members[k] == b;
                    assert(m.bindings[members[k] as int].source == Some(m.sources[s].serial));
                    if s < t {
                        assert(m.sources[s].serial < m.sources[t].serial);
                    } else {
                        assert(m.sources[t].serial < m.sources[s].serial);
                    }
                }
            }
        }
    }
    assert forall|b: int| 0 <= b < w.bindings.len() implies #[trigger] w.binding_ok(b) by {
        assert(m.binding_ok(b));
        let binding = m.bindings[b];
        if binding.active && !members.contains(b as usize) {
            let serial = binding.source->0;
            if source_live(w.sources, serial) {
                let t = source_slot(w.sources, serial);
                assert(source_at(w.sources, t, serial));
                assert(source_at(m.sources, t, serial));
                source_found(m, t, serial);
                assert(m.sources[t].members.contains(b as usize));
                assert(t != s);
            }
        }
    }
}

/// Live sources.
struct Source {
    serial: u64,
    ever_watched: bool,
    terminal: bool,
    members: Vec<usize>,
}

impl View for Source {
    type V = SourceView;

    closed spec fn view(&self) -> SourceView {
        SourceView {
            serial: self.serial,
            ever_watched: self.ever_watched,
            terminal: self.terminal,
            members: self.members@,
        }
    }
}

/// Runtime-scoped notification storage. It retains no runtime workers.
pub struct NotifyDomain {
    runtime: u64,
    free_routes: Vec<usize>,
    free_bindings: Vec<usize>,
    routes: Vec<RouteState>,
    bindings: Vec<BindingState>,
    sources: Vec<Source>,
    serial: u64,
    progress: Option<u64>,
}

impl View for NotifyDomain {
    type V = NotifyView;

    closed spec fn view(&self) -> NotifyView {
        NotifyView {
            runtime: self.runtime,
            free_routes: self.free_routes@,
            free_bindings: self.free_bindings@,
            routes: self.routes@,
            bindings: self.bindings@,
            sources: self.sources@.map_values(|s: Source| s@),
            serial: self.serial as int,
            progress: self.progress,
        }
    }
}

/// All indices below `n`, the smallest last.
fn descending(n: usize) -> (free: Vec<usize>)
    ensures
        free@.len() == n,
        forall|i: int| 0 <= i < n ==> #[trigger] free@[i] == n - 1 - i,
{
    let mut free: Vec<usize> = Vec::new();
    let mut left: usize = n;
    while left > 0
        invariant
            left <= n,
            free@.len() == n - left,
            forall|i: int| 0 <= i < n - left ==> #[trigger] free@[i] == n - 1 - i,
        decreases left,
    {
        left -= 1;
        free.push(left);
    }
    free
}

proof fn descending_complete(free: Seq<usize>, n: int)
    requires
        free.len() == n,
        0 <= n <= usize::MAX,
        forall|i: int| 0 <= i < n ==> #[trigger] free[i] == n - 1 - i,
    ensures
        no_repeats(free),
        forall|i: int| 0 <= i < n ==> #[trigger] free.contains(i as usize),
{
    assert forall|i: int| 0 <= i < n implies #[trigger] free.contains(i as usize) by {
        assert(free[n - 1 - i] == i);
    }
}

impl NotifyDomain {
    /// Storage for a runtime; an enabled domain starts with the source of the
    /// runtime's broad progress.
    pub fn new(runtime: u64, limits: SWNotifyLimits) -> (domain: Self)
        ensures
            domain@.wf(),
            domain@ == NotifyView::fresh(runtime, limits),
    {
        let mut routes: Vec<RouteState> = Vec::new();
        while routes.len() < limits.routes
            invariant
                routes@.len() <= limits.routes,
                forall|i: int| 0 <= i < routes@.len() ==> #[trigger] routes@[i]
                    == RouteState::idle(),
            decreases limits.routes - routes@.len(),
        {
            routes.push(
                RouteState {
                    generation: 0,
                    occupied: false,
                    handle_alive: false,
                    closed: true,
                    pending: false,
                    queued: false,
                    epoch: 0,
                    claims: 0,
                    fault: None,
                    signal: false,
                },
            );
        }
        let mut bindings: Vec<BindingState> = Vec::new();
        while bindings.len() < limits.bindings
            invariant
                bindings@.len() <= limits.bindings,
                forall|i: int| 0 <= i < bindings@.len() ==> #[trigger] bindings@[i]
                    == BindingState::idle(),
            decreases limits.bindings - bindings@.len(),
        {
            bindings.push(
                BindingState {
                    generation: 0,
                    occupied: false,
                    active: false,
                    source: None,
                    route: None,
                    route_generation: 0,
                },
            );
        }
        let mut domain = NotifyDomain {
            runtime,
            free_routes: descending(limits.routes),
            free_bindings: descending(limits.bindings),
            routes,
            bindings,
            sources: Vec::new(),
            serial: 0,
            progress: None,
        };
        proof {
            descending_complete(domain@.free_routes, limits.routes as int);
            descending_complete(domain@.free_bindings, limits.bindings as int);
            assert(domain@.wf());
        }
        if limits.routes != 0 {
            let serial = domain.new_source();
            domain.progress = Some(serial);
            proof {
                assert(domain@.sources =~= seq![
                    SourceView {
                        serial: 1,
                        ever_watched: false,
                        terminal: false,
                        members: Seq::empty(),
                    },
                ]);
                assert forall|s: int| 0 <= s < domain@.sources.len() implies #[trigger] domain@.source_ok(
                    s,
                ) by {}
            }
        }
        assert(domain@ =~= NotifyView::fresh(runtime, limits));
        domain
    }

    /// Adds a source that nobody watches yet.
    pub fn new_source(&mut self) -> (serial: u64)
        requires
            old(self)@.wf(),
            old(self)@.serial < u64::MAX,
        ensures
            final(self)@.wf(),
            serial == old(self)@.serial + 1,
            final(self)@ == (NotifyView {
                serial: old(self)@.serial + 1,
                sources: old(self)@.sources.push(
                    SourceView {
                        serial,
                        ever_watched: false,
                        terminal: false,
                        members: Seq::empty(),
                    },
                ),
                ..old(self)@
            }),
    {
        let ghost v = self@;
        let serial: u64 = self.serial + 1;
        self.serial = serial;
        let source = Source {
            serial,
            ever_watched: false,
            terminal: false,
            members: Vec::new(),
        };
        self.sources.push(source);
        proof {
            let w = self@;
            let added = SourceView {
                serial,
                ever_watched: false,
                terminal: false,
                members: Seq::empty(),
            };
            assert(source@.members =~= Seq::empty());
            assert(w.sources =~= v.sources.push(added));
            assert forall|i: int, j: int| 0 <= i < j < w.sources.len() implies (
            #[trigger] w.sources[i]).serial < (#[trigger] w.sources[j]).serial by {
                if j < v.sources.len() {
                    assert(v.sources[i].serial < v.sources[j].serial);
                } else {
                    assert(v.sources[i].serial <= v.serial);
                }
            }
            assert forall|i: int| 0 <= i < w.sources.len() implies 0 < (
            #[trigger] w.sources[i]).serial <= w.serial by {
                if i < v.sources.len() {
                    assert(v.sources[i].serial <= v.serial);
                }
            }
            assert forall|s: int| 0 <= s < w.sources.len() implies #[trigger] w.source_ok(s) by {
                if s < v.sources.len() {
                    assert(v.source_ok(s));
                }
            }
            assert forall|b: int| 0 <= b < w.bindings.len() implies #[trigger] w.binding_ok(b) by {
                assert(v.binding_ok(b));
                if v.bindings[b].active {
                    let x = v.bindings[b].source->0;
                    if source_live(w.sources, x) {
                        let t = source_slot(w.sources, x);
                        assert(source_at(w.sources, t, x));
                        if t < v.sources.len() {
                            assert(source_at(v.sources, t, x));
                            source_found(v, t, x);
                        }
                    }
                }
            }
        }
        serial
    }
}

/// Opaque route epoch from `prepare_wait`.
#[derive(Clone, Copy, Debug, PartialEq, Eq, Structural)]
pub struct SWNotifyStamp {
    runtime: u64,
    route: usize,
    generation: u64,
    epoch: u64,
}

impl SWNotifyStamp {
    /// The runtime, the route and the use of it that this stamp is of.
    pub closed spec fn origin(self) -> (u64, int, u64) {
        (self.runtime, self.route as int, self.generation)
    }

    /// What the route had seen.
    pub closed spec fn seen(self) -> u64 {
        self.epoch
    }
}

/// A single host destination controller with one arm owner. Signals run
/// synchronously on publishers outside publication bookkeeping and may overlap
/// after successive arms.
#[derive(Debug, PartialEq, Eq, Structural)]
pub struct SWNotifyRoute {
    runtime: u64,
    index: usize,
    generation: u64,
}

impl SWNotifyRoute {
    pub closed spec fn slot(self) -> int {
        self.index as int
    }

    /// Which route of its domain this is; claims name routes by it.
    pub fn index(&self) -> (index: usize)
        ensures
            index == self.slot(),
    {
        self.index
    }

    pub closed spec fn use_of(self) -> u64 {
        self.generation
    }

    pub closed spec fn owner(self) -> u64 {
        self.runtime
    }

    /// The controller of this use of a route.
    pub open spec fn held_in(self, v: NotifyView) -> bool {
        &&& self.owner() == v.runtime
        &&& 0 <= self.slot() < v.routes.len()
        &&& v.routes[self.slot()].generation == self.use_of()
        &&& v.routes[self.slot()].handle_alive
    }

    pub open spec fn state(self, v: NotifyView) -> RouteState {
        v.routes[self.slot()]
    }
}

/// A source registration. An inert one stands for a source that cannot change
/// any more.
#[derive(Debug, PartialEq, Eq, Structural)]
pub struct SWNotifyBinding {
    cell: Option<usize>,
    generation: u64,
}

impl SWNotifyBinding {
    pub closed spec fn slot(self) -> Option<usize> {
        self.cell
    }

    pub closed spec fn use_of(self) -> u64 {
        self.generation
    }

    pub open spec fn held_in(self, v: NotifyView) -> bool {
        self.slot() matches Some(b) ==> {
            &&& b < v.bindings.len()
            &&& v.bindings[b as int].generation == self.use_of()
            &&& v.bindings[b as int].occupied
        }
    }
}

/// Every binding but one.
pub open spec fn other_than(b: usize) -> spec_fn(usize) -> bool {
    |m: usize| m != b
}

/// Every binding but those that are gone.
pub open spec fn none_of(gone: spec_fn(usize) -> bool) -> spec_fn(usize) -> bool {
    |m: usize| !gone(m)
}

impl NotifyView {
    /// Why watching a source is refused, if it is.
    pub open spec fn watch_error(self, route: RouteState, source_runtime: u64, invoking: bool) -> Option<
        SWNotifyError,
    > {
        if invoking {
            Some(SWNotifyError::InvalidContext)
        } else if source_runtime != self.runtime {
            Some(SWNotifyError::ForeignSource)
        } else if route.refusal() is Some {
            route.refusal()
        } else if self.free_bindings.len() == 0 {
            Some(SWNotifyError::Full)
        } else if self.bindings[self.free_bindings.last() as int].generation == u64::MAX {
            Some(SWNotifyError::CounterExhausted)
        } else {
            None
        }
    }

    /// A binding joins its source, unless that cannot change any more.
    pub open spec fn bound(self, route: int, serial: u64) -> NotifyView {
        let b = self.free_bindings.last();
        let s = source_slot(self.sources, serial);
        let source = self.sources[s];
        let live = source_live(self.sources, serial) && !source.terminal;
        NotifyView {
            free_bindings: self.free_bindings.drop_last(),
            bindings: self.bindings.update(
                b as int,
                BindingState {
                    generation: (self.bindings[b as int].generation + 1) as u64,
                    occupied: true,
                    active: live,
                    source: if live {
                        Some(serial)
                    } else {
                        None
                    },
                    route: if live {
                        Some(route as usize)
                    } else {
                        None
                    },
                    route_generation: if live {
                        self.routes[route].generation
                    } else {
                        0
                    },
                },
            ),
            sources: if live {
                self.sources.update(
                    s,
                    SourceView { ever_watched: true, members: source.members.push(b), ..source },
                )
            } else {
                self.sources
            },
            ..self
        }
    }

    /// Watching a source marks the route once, so that a change before or
    /// during registration is not missed.
    pub open spec fn watched(self, route: int, serial: u64) -> NotifyView {
        let bound = self.bound(route, serial);
        bound.with_route(route, bound.routes[route].marked(bound.routes[route].generation))
    }

    /// The sources without one binding.
    pub open spec fn sources_without(self, b: usize) -> Seq<SourceView> {
        self.sources.map_values(
            |s: SourceView| SourceView { members: s.members.filter(other_than(b)), ..s },
        )
    }

    /// A binding has gone.
    pub open spec fn unbound(self, b: usize) -> NotifyView {
        NotifyView {
            bindings: self.bindings.update(
                b as int,
                BindingState { occupied: false, ..self.bindings[b as int].detached() },
            ),
            sources: self.sources_without(b),
            free_bindings: self.free_bindings.push(b),
            ..self
        }
    }

    /// A binding of this route.
    pub open spec fn binds(self, route: int) -> spec_fn(usize) -> bool {
        |b: usize|
            self.bindings[b as int].active && self.bindings[b as int].route == Some(
                route as usize,
            )
    }

    /// A route takes no more changes, and all its bindings are detached. With
    /// no claim outstanding its signal is released.
    pub open spec fn shut(self, route: int) -> NotifyView {
        if self.routes[route].closed {
            self
        } else {
            NotifyView {
                routes: self.routes.update(
                    route,
                    RouteState {
                        closed: true,
                        signal: self.routes[route].claims > 0,
                        ..self.routes[route]
                    },
                ),
                bindings: self.bindings.map_values(
                    |b: BindingState|
                        if b.active && b.route == Some(route as usize) {
                            b.detached()
                        } else {
                            b
                        },
                ),
                sources: self.sources.map_values(
                    |s: SourceView|
                        SourceView {
                            members: s.members.filter(none_of(self.binds(route))),
                            ..s
                        },
                ),
                ..self
            }
        }
    }

    /// A route that nobody refers to any more can be used again.
    pub open spec fn reclaimed(self, route: int) -> NotifyView {
        let r = self.routes[route];
        if r.occupied && !r.handle_alive && r.claims == 0 {
            NotifyView {
                routes: self.routes.update(
                    route,
                    RouteState { occupied: false, signal: false, ..r },
                ),
                free_routes: self.free_routes.push(route as usize),
                ..self
            }
        } else {
            self
        }
    }

    /// The controller of a route has gone.
    pub open spec fn dropped(self, route: int) -> NotifyView {
        let shut = self.shut(route);
        shut.with_route(
            route,
            RouteState { handle_alive: false, ..shut.routes[route] },
        ).reclaimed(route)
    }

    /// A claim has run. The last claim of a closed route releases the signal,
    /// and a retirement claim stays until that is destroyed.
    pub open spec fn claim_ended(self, route: int, fault: Option<SWNotifyFault>) -> NotifyView {
        let r = self.routes[route];
        let faulted = RouteState {
            fault: if r.fault is None {
                fault
            } else {
                r.fault
            },
            ..r
        };
        if r.closed && r.claims == 1 && r.signal {
            self.with_route(route, RouteState { claims: 1, signal: false, ..faulted })
        } else {
            self.with_route(
                route,
                RouteState { claims: (r.claims - 1) as usize, ..faulted },
            ).reclaimed(route)
        }
    }

    /// The end of a claim leaves the signal to be destroyed.
    pub open spec fn retires(self, route: int) -> bool {
        let r = self.routes[route];
        r.closed && r.claims == 1 && r.signal
    }

    /// A released signal has been destroyed.
    pub open spec fn retired(self, route: int, panicked: bool) -> NotifyView {
        let r = self.routes[route];
        self.with_route(
            route,
            RouteState {
                claims: (r.claims - 1) as usize,
                fault: if panicked && r.fault is None {
                    Some(SWNotifyFault::Panicked)
                } else {
                    r.fault
                },
                ..r
            },
        ).reclaimed(route)
    }
}

proof fn created_wf(v: NotifyView)
    requires
        v.wf(),
        v.create_error(false) is None,
    ensures
        v.created().wf(),
{
    let w = v.created();
    let n = v.free_routes.len() - 1;
    let index = v.free_routes[n];
    assert(v.free_routes.contains(index));
    assert(!v.routes[index as int].occupied);
    assert forall|i: int| 0 <= i < w.routes.len() implies ((#[trigger] w.routes[i]).occupied
        <==> !w.free_routes.contains(i as usize)) by {
        if i == index {
            if w.free_routes.contains(i as usize) {
                let k = choose|k: int|
                    0 <= k < w.free_routes.len() && w.free_routes[k] == i as usize;
                assert(v.free_routes[k] != v.free_routes[n]);
            }
        } else {
            assert(w.routes[i] == v.routes[i]);
            if v.free_routes.contains(i as usize) {
                let k = choose|k: int|
                    0 <= k < v.free_routes.len() && v.free_routes[k] == i as usize;
                assert(w.free_routes[k] == i as usize);
            }
            if w.free_routes.contains(i as usize) {
                let k = choose|k: int|
                    0 <= k < w.free_routes.len() && w.free_routes[k] == i as usize;
                assert(v.free_routes[k] == i as usize);
            }
        }
    }
    assert forall|i: int| 0 <= i < w.free_routes.len() implies (#[trigger] w.free_routes[i])
        < w.routes.len() by {
        assert(v.free_routes[i] == w.free_routes[i]);
    }
    assert forall|i: int, j: int| 0 <= i < j < w.free_routes.len() implies #[trigger] w.free_routes[i]
        != #[trigger] w.free_routes[j] by {
        assert(v.free_routes[i] != v.free_routes[j]);
    }
    assert forall|s: int| 0 <= s < w.sources.len() implies #[trigger] w.source_ok(s) by {
        assert(v.source_ok(s));
    }
    assert forall|b: int| 0 <= b < w.bindings.len() implies #[trigger] w.binding_ok(b) by {
        assert(v.binding_ok(b));
        if v.bindings[b].active {
            // A free route is closed, so no active binding leads to it.
            assert(v.routes[v.bindings[b].route->0 as int].wf());
            assert(v.routes[index as int].wf());
        }
    }
}

proof fn reclaimed_wf(v: NotifyView, w: NotifyView, route: int)
    requires
        v.wf(),
        0 <= route < v.routes.len(),
        v.routes[route].occupied,
        w.routes.len() == v.routes.len(),
        w == (NotifyView { routes: v.routes.update(route, w.routes[route]), ..v }),
        ({
            let r = w.routes[route];
            &&& r.occupied
            &&& r.closed == v.routes[route].closed
            &&& r.generation == v.routes[route].generation
            &&& r.queued ==> r.claims > 0
            &&& !r.closed ==> r.signal
            &&& r.closed && r.claims == 0 ==> !r.signal
            &&& !r.handle_alive ==> r.closed
        }),
    ensures
        w.reclaimed(route).wf(),
{
    let z = w.reclaimed(route);
    let r = w.routes[route];
    if r.occupied && !r.handle_alive && r.claims == 0 {
        let index = route as usize;
        assert(!v.free_routes.contains(index));
        assert forall|i: int| 0 <= i < z.routes.len() implies ((#[trigger] z.routes[i]).occupied
            <==> !z.free_routes.contains(i as usize)) by {
            if i == route {
                assert(z.free_routes[v.free_routes.len() as int] == index);
            } else {
                assert(z.routes[i] == v.routes[i]);
                if v.free_routes.contains(i as usize) {
                    let k = choose|k: int|
                        0 <= k < v.free_routes.len() && v.free_routes[k] == i as usize;
                    assert(z.free_routes[k] == i as usize);
                }
                if z.free_routes.contains(i as usize) {
                    let k = choose|k: int|
                        0 <= k < z.free_routes.len() && z.free_routes[k] == i as usize;
                    assert(v.free_routes[k] == i as usize);
                }
            }
        }
        assert forall|i: int, j: int|
            0 <= i < j < z.free_routes.len() implies #[trigger] z.free_routes[i]
            != #[trigger] z.free_routes[j] by {
            if j == v.free_routes.len() {
                assert(v.free_routes[i] == z.free_routes[i]);
                assert(v.free_routes.contains(v.free_routes[i]));
            } else {
                assert(v.free_routes[i] != v.free_routes[j]);
            }
        }
        assert forall|i: int| 0 <= i < z.free_routes.len() implies (#[trigger] z.free_routes[i])
            < z.routes.len() by {
            if i < v.free_routes.len() {
                assert(v.free_routes[i] == z.free_routes[i]);
            }
        }
        assert forall|s: int| 0 <= s < z.sources.len() implies #[trigger] z.source_ok(s) by {
            assert(v.source_ok(s));
        }
        assert forall|b: int| 0 <= b < z.bindings.len() implies #[trigger] z.binding_ok(b) by {
            assert(v.binding_ok(b));
        }
        assert forall|i: int| 0 <= i < z.routes.len() implies (#[trigger] z.routes[i]).wf() by {
            assert(v.routes[i].wf());
        }
    } else {
        assert forall|i: int| 0 <= i < v.routes.len() implies {
            &&& (#[trigger] w.routes[i]).wf()
            &&& w.routes[i].generation == v.routes[i].generation
            &&& w.routes[i].occupied == v.routes[i].occupied
            &&& w.routes[i].closed == v.routes[i].closed
        } by {
            assert(v.routes[i].wf());
        }
        routes_changed_wf(v, w);
    }
}

/// A filtered sequence keeps what the filter keeps, once each.
proof fn filtered(s: Seq<usize>, keep: spec_fn(usize) -> bool)
    requires
        no_repeats(s),
    ensures
        no_repeats(s.filter(keep)),
        forall|x: usize| #[trigger] s.filter(keep).contains(x) <==> s.contains(x) && keep(x),
    decreases s.len(),
{
    reveal(Seq::filter);
    if s.len() > 0 {
        let t = s.drop_last();
        assert forall|i: int, j: int| 0 <= i < j < t.len() implies #[trigger] t[i]
            != #[trigger] t[j] by {
            assert(s[i] != s[j]);
        }
        filtered(t, keep);
        let last = s.last();
        assert(!t.contains(last)) by {
            if t.contains(last) {
                let k = choose|k: int| 0 <= k < t.len() && t[k] == last;
                assert(s[k] != s[s.len() - 1]);
            }
        }
        let f = s.filter(keep);
        let g = t.filter(keep);
        if keep(last) {
            assert(f == g.push(last));
            assert forall|i: int, j: int| 0 <= i < j < f.len() implies #[trigger] f[i]
                != #[trigger] f[j] by {
                if j == g.len() {
                    assert(g.contains(g[i]));
                    assert(t.contains(g[i]));
                } else {
                    assert(g[i] != g[j]);
                }
            }
        } else {
            assert(f == g);
        }
        assert forall|x: usize| #[trigger] f.contains(x) <==> s.contains(x) && keep(x) by {
            if f.contains(x) {
                let k = choose|k: int| 0 <= k < f.len() && f[k] == x;
                if k < g.len() {
                    assert(g.contains(x));
                    let m = choose|m: int| 0 <= m < t.len() && t[m] == x;
                    assert(s[m] == x);
                } else {
                    assert(s[s.len() - 1] == x);
                }
            }
            if s.contains(x) && keep(x) {
                let m = choose|m: int| 0 <= m < s.len() && s[m] == x;
                if m < t.len() {
                    assert(t[m] == x);
                    assert(g.contains(x));
                    let k = choose|k: int| 0 <= k < g.len() && g[k] == x;
                    assert(f[k] == x);
                } else {
                    assert(f[g.len() as int] == x);
                }
            }
        }
    }
}

/// Filtering out one member of a sequence without repeats removes its place.
proof fn filter_removes(s: Seq<usize>, k: int, b: usize)
    requires
        no_repeats(s),
        0 <= k < s.len(),
        s[k] == b,
    ensures
        s.filter(other_than(b)) == s.remove(k),
    decreases s.len(),
{
    reveal(Seq::filter);
    let keep = other_than(b);
    let t = s.drop_last();
    assert forall|i: int, j: int| 0 <= i < j < t.len() implies #[trigger] t[i] != #[trigger] t[j] by {
        assert(s[i] != s[j]);
    }
    if k == s.len() - 1 {
        assert forall|i: int| 0 <= i < t.len() implies keep(#[trigger] t[i]) by {
            assert(s[i] != s[k]);
        }
        filter_keeps(t, keep);
        assert(s.remove(k) =~= t);
    } else {
        filter_removes(t, k, b);
        assert(s[k] != s[s.len() - 1]);
        assert(s.remove(k) =~= t.remove(k).push(s.last()));
    }
}

/// Filtering out nothing changes nothing.
proof fn filter_keeps(s: Seq<usize>, keep: spec_fn(usize) -> bool)
    requires
        forall|i: int| 0 <= i < s.len() ==> keep(#[trigger] s[i]),
    ensures
        s.filter(keep) == s,
    decreases s.len(),
{
    reveal(Seq::filter);
    if s.len() > 0 {
        let t = s.drop_last();
        assert forall|i: int| 0 <= i < t.len() implies keep(#[trigger] t[i]) by {
            assert(t[i] == s[i]);
        }
        filter_keeps(t, keep);
        assert(keep(s[s.len() - 1]));
        assert(t.push(s.last()) =~= s);
    }
}

/// Filters that agree give the same.
proof fn filter_agrees(s: Seq<usize>, p: spec_fn(usize) -> bool, q: spec_fn(usize) -> bool)
    requires
        forall|m: usize| #[trigger] p(m) == q(m),
    ensures
        s.filter(p) == s.filter(q),
    decreases s.len(),
{
    reveal(Seq::filter);
    if s.len() > 0 {
        filter_agrees(s.drop_last(), p, q);
        assert(p(s.last()) == q(s.last()));
    }
}

proof fn bound_wf(v: NotifyView, route: int, serial: u64)
    requires
        v.wf(),
        0 <= route < v.routes.len(),
        !v.routes[route].closed,
        v.free_bindings.len() > 0,
        v.bindings[v.free_bindings.last() as int].generation < u64::MAX,
    ensures
        v.bound(route, serial).wf(),
{
    let w = v.bound(route, serial);
    let n = v.free_bindings.len() - 1;
    let b = v.free_bindings[n];
    let s = source_slot(v.sources, serial);
    let live = source_live(v.sources, serial) && !v.sources[s].terminal;
    assert(v.free_bindings.contains(b));
    assert(b < v.bindings.len());
    assert(!v.bindings[b as int].occupied);
    assert(v.binding_ok(b as int));
    if live {
        assert(source_at(v.sources, s, serial));
        assert(v.source_ok(s));
    }
    assert forall|i: int| 0 <= i < w.bindings.len() implies ((#[trigger] w.bindings[i]).occupied
        <==> !w.free_bindings.contains(i as usize)) by {
        if i == b {
            if w.free_bindings.contains(i as usize) {
                let k = choose|k: int|
                    0 <= k < w.free_bindings.len() && w.free_bindings[k] == i as usize;
                assert(v.free_bindings[k] != v.free_bindings[n]);
            }
        } else {
            assert(w.bindings[i] == v.bindings[i]);
            if v.free_bindings.contains(i as usize) {
                let k = choose|k: int|
                    0 <= k < v.free_bindings.len() && v.free_bindings[k] == i as usize;
                assert(w.free_bindings[k] == i as usize);
            }
            if w.free_bindings.contains(i as usize) {
                let k = choose|k: int|
                    0 <= k < w.free_bindings.len() && w.free_bindings[k] == i as usize;
                assert(v.free_bindings[k] == i as usize);
            }
        }
    }
    assert forall|i: int| 0 <= i < w.free_bindings.len() implies (#[trigger] w.free_bindings[i])
        < w.bindings.len() by {
        assert(v.free_bindings[i] == w.free_bindings[i]);
    }
    assert forall|i: int, j: int|
        0 <= i < j < w.free_bindings.len() implies #[trigger] w.free_bindings[i]
        != #[trigger] w.free_bindings[j] by {
        assert(v.free_bindings[i] != v.free_bindings[j]);
    }
    assert forall|i: int, j: int| 0 <= i < j < w.sources.len() implies (
    #[trigger] w.sources[i]).serial < (#[trigger] w.sources[j]).serial by {
        assert(v.sources[i].serial < v.sources[j].serial);
    }
    assert forall|i: int| 0 <= i < w.sources.len() implies 0 < (#[trigger] w.sources[i]).serial
        <= w.serial by {
        assert(v.sources[i].serial <= v.serial);
    }
    assert forall|t: int| 0 <= t < w.sources.len() implies #[trigger] w.source_ok(t) by {
        assert(v.source_ok(t));
        let members = v.sources[t].members;
        assert forall|i: int| 0 <= i < members.len() implies #[trigger] members[i] != b by {
            assert(v.bindings[members[i] as int].active);
        }
        let after = w.sources[t].members;
        assert forall|i: int| 0 <= i < after.len() implies {
            let m = #[trigger] after[i];
            &&& m < w.bindings.len()
            &&& w.bindings[m as int].active
            &&& w.bindings[m as int].source == Some(w.sources[t].serial)
        } by {
            if i < members.len() {
                assert(after[i] == members[i]);
                assert(v.bindings[members[i] as int].active);
            }
        }
        assert forall|i: int, j: int| 0 <= i < j < after.len() implies #[trigger] after[i]
            != #[trigger] after[j] by {
            if j < members.len() {
                assert(members[i] != members[j]);
            } else {
                assert(members[i] != b);
            }
        }
    }
    assert forall|x: int| 0 <= x < w.bindings.len() implies #[trigger] w.binding_ok(x) by {
        assert(v.binding_ok(x));
        if x == b {
            if live {
                assert(source_at(w.sources, s, serial));
                let k = source_slot(w.sources, serial);
                assert(source_at(w.sources, k, serial));
                assert(source_at(v.sources, k, serial));
                source_found(v, k, serial);
                let after = w.sources[s].members;
                assert(after[after.len() - 1] == b);
                assert(after.contains(x as usize));
            }
        } else if v.bindings[x].active {
            let y = v.bindings[x].source->0;
            if source_live(w.sources, y) {
                let t = source_slot(w.sources, y);
                assert(source_at(w.sources, t, y));
                assert(source_at(v.sources, t, y));
                source_found(v, t, y);
                let members = v.sources[t].members;
                assert(members.contains(x as usize));
                let k = choose|k: int| 0 <= k < members.len() && members[k] == x as usize;
                assert(w.sources[t].members[k] == x as usize);
            }
        }
    }
}

/// Dropping members from sources together with their registrations.
proof fn members_dropped_wf(v: NotifyView, w: NotifyView, gone: spec_fn(usize) -> bool)
    requires
        v.wf(),
        w.runtime == v.runtime,
        w.serial == v.serial,
        w.routes.len() == v.routes.len(),
        w.bindings.len() == v.bindings.len(),
        w.freed(),
        forall|i: int| 0 <= i < w.routes.len() ==> (#[trigger] w.routes[i]).wf(),
        forall|i: int|
            0 <= i < v.routes.len() ==> (#[trigger] w.routes[i]).generation
                == v.routes[i].generation,
        w.sources == v.sources.map_values(
            |s: SourceView| SourceView { members: s.members.filter(none_of(gone)), ..s },
        ),
        forall|x: int|
            0 <= x < v.bindings.len() ==> if gone(x as usize) {
                &&& !(#[trigger] w.bindings[x]).active
                &&& w.bindings[x].source is None
                &&& w.bindings[x].route is None
            } else {
                w.bindings[x] == v.bindings[x]
            },
        forall|x: int|
            0 <= x < v.bindings.len() && !gone(x as usize) && (#[trigger] v.bindings[x]).active
                ==> !w.routes[v.bindings[x].route->0 as int].closed,
    ensures
        w.wf(),
{
    let keep = none_of(gone);
    assert forall|i: int, j: int| 0 <= i < j < w.sources.len() implies (
    #[trigger] w.sources[i]).serial < (#[trigger] w.sources[j]).serial by {
        assert(v.sources[i].serial < v.sources[j].serial);
    }
    assert forall|i: int| 0 <= i < w.sources.len() implies 0 < (#[trigger] w.sources[i]).serial
        <= w.serial by {
        assert(v.sources[i].serial <= v.serial);
    }
    assert forall|t: int| 0 <= t < w.sources.len() implies #[trigger] w.source_ok(t) by {
        assert(v.source_ok(t));
        let members = v.sources[t].members;
        let after = members.filter(keep);
        filtered(members, keep);
        assert(w.sources[t].members == after);
        assert forall|i: int| 0 <= i < after.len() implies {
            let m = #[trigger] after[i];
            &&& m < w.bindings.len()
            &&& w.bindings[m as int].active
            &&& w.bindings[m as int].source == Some(w.sources[t].serial)
        } by {
            assert(after.contains(after[i]));
            let k = choose|k: int| 0 <= k < members.len() && members[k] == after[i];
            assert(v.bindings[members[k] as int].active);
            assert(w.bindings[after[i] as int] == v.bindings[after[i] as int]);
        }
        if after.len() > 0 {
            assert(after.contains(after[0]));
            assert(members.len() > 0);
        }
    }
    assert forall|x: int| 0 <= x < w.bindings.len() implies #[trigger] w.binding_ok(x) by {
        assert(v.binding_ok(x));
        if w.bindings[x].active {
            let y = v.bindings[x].source->0;
            assert(w.routes[v.bindings[x].route->0 as int].generation == v.routes[
                v.bindings[x].route->0 as int
            ].generation);
            if source_live(w.sources, y) {
                let t = source_slot(w.sources, y);
                assert(source_at(w.sources, t, y));
                assert(source_at(v.sources, t, y));
                source_found(v, t, y);
                assert(v.source_ok(t));
                filtered(v.sources[t].members, keep);
                assert(w.sources[t].members == v.sources[t].members.filter(keep));
            }
        }
    }
}

proof fn unbound_wf(v: NotifyView, b: usize)
    requires
        v.wf(),
        b < v.bindings.len(),
        v.bindings[b as int].occupied,
    ensures
        v.unbound(b).wf(),
{
    let w = v.unbound(b);
    let gone = |m: usize| m == b;
    assert(!v.free_bindings.contains(b));
    assert(w.freed()) by {
        assert forall|i: int| 0 <= i < w.bindings.len() implies ((
        #[trigger] w.bindings[i]).occupied <==> !w.free_bindings.contains(i as usize)) by {
            if i == b {
                assert(w.free_bindings[v.free_bindings.len() as int] == b);
            } else {
                assert(w.bindings[i] == v.bindings[i]);
                if v.free_bindings.contains(i as usize) {
                    let k = choose|k: int|
                        0 <= k < v.free_bindings.len() && v.free_bindings[k] == i as usize;
                    assert(w.free_bindings[k] == i as usize);
                }
                if w.free_bindings.contains(i as usize) {
                    let k = choose|k: int|
                        0 <= k < w.free_bindings.len() && w.free_bindings[k] == i as usize;
                    assert(v.free_bindings[k] == i as usize);
                }
            }
        }
        assert forall|i: int, j: int|
            0 <= i < j < w.free_bindings.len() implies #[trigger] w.free_bindings[i]
            != #[trigger] w.free_bindings[j] by {
            if j == v.free_bindings.len() {
                assert(v.free_bindings.contains(v.free_bindings[i]));
            } else {
                assert(v.free_bindings[i] != v.free_bindings[j]);
            }
        }
        assert forall|i: int| 0 <= i < w.free_bindings.len() implies (
        #[trigger] w.free_bindings[i]) < w.bindings.len() by {
            if i < v.free_bindings.len() {
                assert(v.free_bindings[i] == w.free_bindings[i]);
            }
        }
    }
    assert(w.sources =~= v.sources.map_values(
        |s: SourceView| SourceView { members: s.members.filter(none_of(gone)), ..s },
    )) by {
        assert forall|t: int| 0 <= t < v.sources.len() implies w.sources[t].members
            == v.sources[t].members.filter(none_of(gone)) by {
            filter_agrees(v.sources[t].members, other_than(b), none_of(gone));
        }
    }
    assert forall|x: int|
        0 <= x < v.bindings.len() && !gone(x as usize) && (
        #[trigger] v.bindings[x]).active implies !w.routes[v.bindings[x].route->0 as int].closed by {
        assert(v.binding_ok(x));
    }
    members_dropped_wf(v, w, gone);
}

proof fn shut_wf(v: NotifyView, route: int)
    requires
        v.wf(),
        0 <= route < v.routes.len(),
        v.routes[route].occupied,
    ensures
        v.shut(route).wf(),
{
    let w = v.shut(route);
    if !v.routes[route].closed {
        let gone = v.binds(route);
        assert(v.routes[route].wf());
        assert(w.freed()) by {
            assert forall|i: int| 0 <= i < w.bindings.len() implies ((
            #[trigger] w.bindings[i]).occupied <==> !w.free_bindings.contains(i as usize)) by {
                assert(v.bindings[i].occupied == w.bindings[i].occupied);
            }
            assert forall|i: int| 0 <= i < w.routes.len() implies ((
            #[trigger] w.routes[i]).occupied <==> !w.free_routes.contains(i as usize)) by {
                assert(v.routes[i].occupied == w.routes[i].occupied);
            }
        }
        assert forall|i: int| 0 <= i < w.routes.len() implies (#[trigger] w.routes[i]).wf() by {
            assert(v.routes[i].wf());
        }
        assert forall|x: int| 0 <= x < v.bindings.len() implies if gone(x as usize) {
            &&& !(#[trigger] w.bindings[x]).active
            &&& w.bindings[x].source is None
            &&& w.bindings[x].route is None
        } else {
            w.bindings[x] == v.bindings[x]
        } by {}
        assert forall|x: int|
            0 <= x < v.bindings.len() && !gone(x as usize) && (
            #[trigger] v.bindings[x]).active implies !w.routes[v.bindings[x].route->0 as int].closed by {
            assert(v.binding_ok(x));
        }
        members_dropped_wf(v, w, gone);
    }
}

impl NotifyDomain {
    /// Replacing one source leaves the others.
    proof fn source_replaced(before: NotifyDomain, after: NotifyDomain, s: int)
        requires
            0 <= s < before.sources@.len(),
            after.sources@.len() == before.sources@.len(),
            forall|t: int|
                0 <= t < before.sources@.len() && t != s ==> #[trigger] after.sources@[t]
                    == before.sources@[t],
        ensures
            after@.sources == before@.sources.update(s, after.sources@[s]@),
    {
        let left = after@.sources;
        let right = before@.sources.update(s, after.sources@[s]@);
        assert forall|t: int| 0 <= t < left.len() implies left[t] == right[t] by {
            if t != s {
                assert(after.sources@[t] == before.sources@[t]);
            }
        }
        assert(left =~= right);
    }

    fn find_source(&self, serial: u64) -> (found: Option<usize>)
        requires
            self@.wf(),
        ensures
            match found {
                Some(s) => {
                    &&& source_at(self@.sources, s as int, serial)
                    &&& source_live(self@.sources, serial)
                    &&& source_slot(self@.sources, serial) == s
                },
                None => !source_live(self@.sources, serial),
            },
    {
        let mut index: usize = 0;
        while index < self.sources.len()
            invariant
                self@.wf(),
                index <= self.sources@.len(),
                forall|i: int| 0 <= i < index ==> (#[trigger] self@.sources[i]).serial != serial,
            decreases self.sources@.len() - index,
        {
            if self.sources[index].serial == serial {
                proof {
                    assert(self@.sources[index as int] == self.sources@[index as int]@);
                    source_found(self@, index as int, serial);
                }
                return Some(index);
            }
            assert(self@.sources[index as int] == self.sources@[index as int]@);
            index += 1;
        }
        proof {
            if source_live(self@.sources, serial) {
                let i = source_slot(self@.sources, serial);
                assert(source_at(self@.sources, i, serial));
                assert(self@.sources[i].serial == serial);
            }
        }
        None
    }

    /// Starts the next use of a free route.
    pub fn create_route(&mut self, invoking: bool) -> (result: Result<SWNotifyRoute, SWNotifyError>)
        requires
            old(self)@.wf(),
        ensures
            final(self)@.wf(),
            match result {
                Ok(route) => {
                    &&& old(self)@.create_error(invoking) is None
                    &&& final(self)@ == old(self)@.created()
                    &&& route.held_in(final(self)@)
                    &&& route.slot() == old(self)@.free_routes.last()
                    &&& route.use_of() == old(self)@.routes[route.slot()].generation + 1
                },
                Err(error) => {
                    &&& old(self)@.create_error(invoking) == Some(error)
                    &&& final(self)@ == old(self)@
                },
            },
    {
        if invoking {
            return Err(SWNotifyError::InvalidContext);
        }
        if self.routes.len() == 0 {
            return Err(SWNotifyError::Disabled);
        }
        if self.free_routes.len() == 0 {
            return Err(SWNotifyError::Full);
        }
        let index: usize = self.free_routes[self.free_routes.len() - 1];
        let generation: u64 = self.routes[index].generation;
        if generation == u64::MAX {
            return Err(SWNotifyError::CounterExhausted);
        }
        proof {
            created_wf(self@);
        }
        let _ = self.free_routes.pop();
        self.routes.set(
            index,
            RouteState {
                generation: generation + 1,
                occupied: true,
                handle_alive: true,
                closed: false,
                pending: false,
                queued: false,
                epoch: 0,
                claims: 0,
                fault: None,
                signal: true,
            },
        );
        proof {
            assert(self@.free_routes =~= old(self)@.free_routes.drop_last());
        }
        Ok(SWNotifyRoute { runtime: self.runtime, index, generation: generation + 1 })
    }

    /// Marks one route changed; reports whether that needs a claim.
    fn mark_changed(&mut self, index: usize, generation: u64) -> (claim: bool)
        requires
            index < old(self)@.routes.len(),
            old(self)@.routes[index as int].claims < usize::MAX || old(self)@.routes[index as int].queued || old(self)@.routes[index as int].pending,
        ensures
            claim == old(self)@.routes[index as int].needs_claim(generation),
            final(self)@ == old(self)@.with_route(
                index as int,
                old(self)@.routes[index as int].marked(generation),
            ),
    {
        if self.routes[index].generation != generation || self.routes[index].closed
            || self.routes[index].fault.is_some() {
            proof {
                assert(self@.routes =~= old(self)@.routes.update(
                    index as int,
                    old(self)@.routes[index as int],
                ));
            }
            return false;
        }
        if self.routes[index].epoch == u64::MAX {
            self.routes[index].fault = Some(SWNotifyFault::CounterExhausted);
            return false;
        }
        self.routes[index].epoch = self.routes[index].epoch + 1;
        if self.routes[index].pending {
            return false;
        }
        self.routes[index].pending = true;
        if self.routes[index].queued {
            return false;
        }
        self.routes[index].queued = true;
        self.routes[index].claims = self.routes[index].claims + 1;
        true
    }

    /// Marks every route bound to a source, newest binding first. Hands back
    /// the routes whose claims are now to be run. A terminal change is the
    /// source's last, and detaches its bindings.
    fn publish_impl(&mut self, serial: u64, terminal: bool) -> (claims: Vec<usize>)
        requires
            old(self)@.wf(),
            old(self)@.roomy(),
        ensures
            final(self)@.wf(),
            claims@ == old(self)@.publication(serial),
            final(self)@ == old(self)@.published(serial, terminal),
    {
        let ghost v = self@;
        proof {
            published_wf(v, serial, terminal);
        }
        let mut claims: Vec<usize> = Vec::new();
        let s: usize = match self.find_source(serial) {
            Some(s) => s,
            None => {
                proof {
                    assert(claims@ =~= v.publication(serial));
                }
                return claims;
            },
        };
        if self.sources[s].terminal {
            proof {
                assert(v.sources[s as int] == self.sources@[s as int]@);
                assert(claims@ =~= v.publication(serial));
            }
            return claims;
        }
        let count: usize = self.sources[s].members.len();
        let ghost members = v.sources[s as int].members;
        let ghost order = members.reverse();
        proof {
            assert(v.sources[s as int] == self.sources@[s as int]@);
            members_marked(v, s as int);
            assert(order.take(0) =~= Seq::empty());
            assert(claims@ =~= all_claims(v.routes, v.bindings, order.take(0)));
        }
        let mut visited: usize = 0;
        while visited < count
            invariant
                visited <= count,
                count == members.len(),
                s < v.sources.len(),
                v.wf(),
                v.roomy(),
                members == v.sources[s as int].members,
                order == members.reverse(),
                forall|i: int|
                    0 <= i < members.len() ==> {
                        let b = #[trigger] order[i];
                        &&& b < v.bindings.len()
                        &&& v.bindings[b as int].route is Some
                        &&& v.bindings[b as int].route->0 < v.routes.len()
                    },
                self@ == (NotifyView {
                    routes: all_marked(v.routes, v.bindings, order.take(visited as int)),
                    ..v
                }),
                claims@ == all_claims(v.routes, v.bindings, order.take(visited as int)),
            decreases count - visited,
        {
            let ghost prefix = order.take(visited as int);
            proof {
                assert(self@.sources[s as int] == self.sources@[s as int]@);
                assert(order[visited as int] == members[count - 1 - visited]);
                assert forall|i: int| 0 <= i < prefix.len() implies {
                    let b = #[trigger] prefix[i];
                    &&& b < v.bindings.len()
                    &&& v.bindings[b as int].route is Some
                    &&& v.bindings[b as int].route->0 < v.routes.len()
                } by {
                    assert(prefix[i] == order[i]);
                }
                all_marked_ok(v, prefix);
                let next = order.take(visited + 1);
                assert(next.drop_last() =~= prefix);
                assert(next.last() == order[visited as int]);
            }
            let b: usize = self.sources[s].members[count - 1 - visited];
            let binding = self.bindings[b];
            if let Some(route) = binding.route {
                proof {
                    assert(self@.routes[route as int].wf());
                }
                if self.mark_changed(route, binding.route_generation) {
                    claims.push(route);
                }
            }
            visited += 1;
        }
        proof {
            assert(order.take(visited as int) =~= order);
        }
        if terminal {
            proof {
                published_wf(v, serial, false);
                assert(self@ == v.published(serial, false));
            }
            self.detach_members(s);
            proof {
                assert(self@ =~= v.published(serial, terminal));
            }
        }
        claims
    }

    /// Ends a source: it has changed for the last time, and its bindings are
    /// detached.
    fn detach_members(&mut self, s: usize)
        requires
            old(self)@.wf(),
            s < old(self)@.sources.len(),
        ensures
            final(self)@ == (NotifyView {
                bindings: all_detached(old(self)@.bindings, old(self)@.sources[s as int].members),
                sources: old(self)@.sources.update(
                    s as int,
                    SourceView {
                        terminal: true,
                        members: Seq::empty(),
                        ..old(self)@.sources[s as int]
                    },
                ),
                ..old(self)@
            }),
    {
        let ghost v = self@;
        let ghost members = v.sources[s as int].members;
        proof {
            assert(v.sources[s as int] == self.sources@[s as int]@);
            assert(v.source_ok(s as int));
        }
        let mut index: usize = 0;
        while index < self.sources[s].members.len()
            invariant
                s < v.sources.len(),
                v.wf(),
                members == v.sources[s as int].members,
                v.source_ok(s as int),
                self.sources@[s as int]@ == v.sources[s as int],
                self.sources@.len() == v.sources.len(),
                index <= members.len(),
                self@ == (NotifyView { bindings: self.bindings@, ..v }),
                self.bindings@.len() == v.bindings.len(),
                forall|x: int|
                    0 <= x < v.bindings.len() ==> #[trigger] self.bindings@[x] == (
                    if members.take(index as int).contains(x as usize) {
                        v.bindings[x].detached()
                    } else {
                        v.bindings[x]
                    }),
            decreases members.len() - index,
        {
            let b: usize = self.sources[s].members[index];
            let binding = self.bindings[b];
            self.bindings.set(
                b,
                BindingState {
                    generation: binding.generation,
                    occupied: binding.occupied,
                    active: false,
                    source: None,
                    route: None,
                    route_generation: binding.route_generation,
                },
            );
            proof {
                let before = members.take(index as int);
                let after = members.take(index + 1);
                assert forall|x: usize| after.contains(x) <==> before.contains(x) || x == b by {
                    if after.contains(x) {
                        let k = choose|k: int| 0 <= k < after.len() && after[k] == x;
                        if k < index {
                            assert(before[k] == x);
                        }
                    }
                    if before.contains(x) {
                        let k = choose|k: int| 0 <= k < before.len() && before[k] == x;
                        assert(after[k] == x);
                    }
                    if x == b {
                        assert(after[index as int] == x);
                    }
                }
                assert(!before.contains(b)) by {
                    if before.contains(b) {
                        let k = choose|k: int| 0 <= k < before.len() && before[k] == b;
                        assert(members[k] != members[index as int]);
                    }
                }
                assert forall|x: int| 0 <= x < v.bindings.len() implies #[trigger] self.bindings@[x]
                    == (if after.contains(x as usize) {
                    v.bindings[x].detached()
                } else {
                    v.bindings[x]
                }) by {}
            }
            index += 1;
        }
        let ghost last = *self;
        self.sources[s].terminal = true;
        self.sources[s].members.clear();
        proof {
            assert(members.take(index as int) =~= members);
            Self::source_replaced(last, *self, s as int);
            assert(self.sources@[s as int].members@ =~= Seq::empty());
            assert(self@.bindings =~= all_detached(v.bindings, members));
        }
    }

    /// A persistent source has changed.
    pub fn publish(&mut self, serial: u64) -> (claims: Vec<usize>)
        requires
            old(self)@.wf(),
            old(self)@.roomy(),
        ensures
            final(self)@.wf(),
            claims@ == old(self)@.publication(serial),
            final(self)@ == old(self)@.published(serial, false),
    {
        self.publish_impl(serial, false)
    }

    /// A one-shot source has changed for the last time.
    pub fn publish_terminal(&mut self, serial: u64) -> (claims: Vec<usize>)
        requires
            old(self)@.wf(),
            old(self)@.roomy(),
        ensures
            final(self)@.wf(),
            claims@ == old(self)@.publication(serial),
            final(self)@ == old(self)@.published(serial, true),
    {
        self.publish_impl(serial, true)
    }

    /// A persistent source has changed; before its first registration there is
    /// nothing to mark.
    pub fn publish_if_watched(&mut self, serial: u64) -> (claims: Vec<usize>)
        requires
            old(self)@.wf(),
            old(self)@.roomy(),
        ensures
            final(self)@.wf(),
            claims@ == old(self)@.publication(serial),
            final(self)@ == old(self)@.published(serial, false),
    {
        match self.find_source(serial) {
            Some(s) => {
                proof {
                    assert(self@.sources[s as int] == self.sources@[s as int]@);
                    assert(self@.source_ok(s as int));
                }
                if !self.sources[s].ever_watched {
                    let claims: Vec<usize> = Vec::new();
                    proof {
                        let order = self@.sources[s as int].members.reverse();
                        assert(order =~= Seq::empty());
                        assert(claims@ =~= self@.publication(serial));
                    }
                    return claims;
                }
                self.publish_impl(serial, false)
            },
            None => {
                let claims: Vec<usize> = Vec::new();
                proof {
                    assert(claims@ =~= self@.publication(serial));
                }
                claims
            },
        }
    }
}

impl NotifyDomain {
    /// Binds a route to a source and marks it once.
    fn watch(&mut self, route: usize, serial: u64) -> (watched: (SWNotifyBinding, bool))
        requires
            old(self)@.wf(),
            route < old(self)@.routes.len(),
            !old(self)@.routes[route as int].closed,
            old(self)@.routes[route as int].claims < usize::MAX,
            old(self)@.free_bindings.len() > 0,
            old(self)@.bindings[old(self)@.free_bindings.last() as int].generation < u64::MAX,
        ensures
            final(self)@.wf(),
            final(self)@ == old(self)@.watched(route as int, serial),
            watched.0.held_in(final(self)@),
            watched.0.slot() == Some(old(self)@.free_bindings.last()),
            watched.1 == old(self)@.routes[route as int].needs_claim(
                old(self)@.routes[route as int].generation,
            ),
    {
        let ghost v = self@;
        proof {
            bound_wf(v, route as int, serial);
        }
        let b: usize = self.free_bindings[self.free_bindings.len() - 1];
        proof {
            assert(v.free_bindings[v.free_bindings.len() - 1] == b);
        }
        let generation: u64 = self.bindings[b].generation + 1;
        let route_generation: u64 = self.routes[route].generation;
        let found = self.find_source(serial);
        let _ = self.free_bindings.pop();
        let mut live = false;
        if let Some(s) = found {
            proof {
                assert(v.sources[s as int] == self.sources@[s as int]@);
            }
            if !self.sources[s].terminal {
                live = true;
                let ghost before = *self;
                self.sources[s].members.push(b);
                self.sources[s].ever_watched = true;
                proof {
                    Self::source_replaced(before, *self, s as int);
                }
            }
        }
        self.bindings.set(
            b,
            BindingState {
                generation,
                occupied: true,
                active: live,
                source: if live {
                    Some(serial)
                } else {
                    None
                },
                route: if live {
                    Some(route)
                } else {
                    None
                },
                route_generation: if live {
                    route_generation
                } else {
                    0
                },
            },
        );
        proof {
            assert(self@.free_bindings =~= v.free_bindings.drop_last());
            assert(self@ =~= v.bound(route as int, serial));
        }
        let ghost m = self@;
        let claim = self.mark_changed(route, route_generation);
        proof {
            assert(m.routes[route as int].wf());
            marked_wf(m.routes[route as int], route_generation);
            assert forall|i: int| 0 <= i < m.routes.len() implies {
                &&& (#[trigger] self@.routes[i]).wf()
                &&& self@.routes[i].generation == m.routes[i].generation
                &&& self@.routes[i].occupied == m.routes[i].occupied
                &&& self@.routes[i].closed == m.routes[i].closed
            } by {
                assert(m.routes[i].wf());
            }
            routes_changed_wf(m, self@);
        }
        (SWNotifyBinding { cell: Some(b), generation }, claim)
    }

    /// Removes a live source, such as one whose owner has gone. Its bindings
    /// stay until they are released; nothing marks their routes any more.
    pub fn release_source(&mut self, serial: u64) -> (released: bool)
        requires
            old(self)@.wf(),
        ensures
            final(self)@.wf(),
            released == source_live(old(self)@.sources, serial),
            final(self)@ == (if released {
                NotifyView {
                    sources: old(self)@.sources.remove(source_slot(old(self)@.sources, serial)),
                    ..old(self)@
                }
            } else {
                old(self)@
            }),
    {
        let ghost v = self@;
        match self.find_source(serial) {
            None => false,
            Some(s) => {
                let _ = self.sources.remove(s);
                proof {
                    let w = self@;
                    assert(w.sources =~= v.sources.remove(s as int));
                    assert forall|i: int| 0 <= i < w.sources.len() implies #[trigger] w.sources[i]
                        == v.sources[if i < s {
                        i
                    } else {
                        i + 1
                    }] by {}
                    assert forall|i: int, j: int| 0 <= i < j < w.sources.len() implies (
                    #[trigger] w.sources[i]).serial < (#[trigger] w.sources[j]).serial by {
                        let a = if i < s {
                            i
                        } else {
                            i + 1
                        };
                        let b = if j < s {
                            j
                        } else {
                            j + 1
                        };
                        assert(v.sources[a].serial < v.sources[b].serial);
                    }
                    assert forall|t: int| 0 <= t < w.sources.len() implies #[trigger] w.source_ok(
                        t,
                    ) by {
                        assert(v.source_ok(if t < s {
                            t
                        } else {
                            t + 1
                        }));
                    }
                    assert forall|b: int| 0 <= b < w.bindings.len() implies #[trigger] w.binding_ok(
                        b,
                    ) by {
                        assert(v.binding_ok(b));
                        if v.bindings[b].active {
                            let x = v.bindings[b].source->0;
                            if source_live(w.sources, x) {
                                let t = source_slot(w.sources, x);
                                assert(source_at(w.sources, t, x));
                                let u = if t < s {
                                    t
                                } else {
                                    t + 1
                                };
                                assert(source_at(v.sources, u, x));
                                source_found(v, u, x);
                            }
                        }
                    }
                }
                true
            },
        }
    }

    /// Takes a claim that is to be run; reports whether there is a signal to
    /// run.
    pub fn begin_claim(&mut self, route: usize) -> (signal: bool)
        requires
            old(self)@.wf(),
            route < old(self)@.routes.len(),
            old(self)@.routes[route as int].queued,
        ensures
            final(self)@.wf(),
            signal == old(self)@.routes[route as int].signal,
            final(self)@ == old(self)@.with_route(
                route as int,
                RouteState { queued: false, ..old(self)@.routes[route as int] },
            ),
    {
        let ghost v = self@;
        proof {
            assert(v.routes[route as int].wf());
        }
        self.routes[route].queued = false;
        proof {
            assert forall|i: int| 0 <= i < v.routes.len() implies {
                &&& (#[trigger] self@.routes[i]).wf()
                &&& self@.routes[i].generation == v.routes[i].generation
                &&& self@.routes[i].occupied == v.routes[i].occupied
                &&& self@.routes[i].closed == v.routes[i].closed
            } by {
                assert(v.routes[i].wf());
            }
            routes_changed_wf(v, self@);
        }
        self.routes[route].signal
    }

    /// Ends a claim after its signal ran. True means that the released signal
    /// is to be destroyed now, and then reported by [`Self::retire_signal`].
    pub fn finish_claim(&mut self, route: usize, fault: Option<SWNotifyFault>) -> (retire: bool)
        requires
            old(self)@.wf(),
            route < old(self)@.routes.len(),
            old(self)@.routes[route as int].claims > 0,
            old(self)@.routes[route as int].queued ==> old(self)@.routes[route as int].claims > 1,
        ensures
            final(self)@.wf(),
            retire == old(self)@.retires(route as int),
            final(self)@ == old(self)@.claim_ended(route as int, fault),
    {
        let ghost v = self@;
        proof {
            assert(v.routes[route as int].wf());
        }
        if self.routes[route].fault.is_none() {
            self.routes[route].fault = fault;
        }
        if self.routes[route].closed && self.routes[route].claims == 1
            && self.routes[route].signal {
            self.routes[route].signal = false;
            proof {
                assert forall|i: int| 0 <= i < v.routes.len() implies {
                    &&& (#[trigger] self@.routes[i]).wf()
                    &&& self@.routes[i].generation == v.routes[i].generation
                    &&& self@.routes[i].occupied == v.routes[i].occupied
                    &&& self@.routes[i].closed == v.routes[i].closed
                } by {
                    assert(v.routes[i].wf());
                }
                routes_changed_wf(v, self@);
                assert(self@.routes =~= v.claim_ended(route as int, fault).routes);
            }
            return true;
        }
        self.routes[route].claims = self.routes[route].claims - 1;
        proof {
            assert(self@.routes =~= v.routes.update(route as int, self@.routes[route as int]));
            reclaimed_wf(v, self@, route as int);
        }
        self.maybe_return_route(route);
        proof {
            assert(self@ =~= v.claim_ended(route as int, fault));
        }
        false
    }

    /// Ends a retirement claim: the released signal was destroyed.
    pub fn retire_signal(&mut self, route: usize, panicked: bool)
        requires
            old(self)@.wf(),
            route < old(self)@.routes.len(),
            old(self)@.routes[route as int].closed,
            !old(self)@.routes[route as int].signal,
            old(self)@.routes[route as int].claims > 0,
            old(self)@.routes[route as int].queued ==> old(self)@.routes[route as int].claims > 1,
        ensures
            final(self)@.wf(),
            final(self)@ == old(self)@.retired(route as int, panicked),
    {
        let ghost v = self@;
        proof {
            assert(v.routes[route as int].wf());
        }
        if panicked && self.routes[route].fault.is_none() {
            self.routes[route].fault = Some(SWNotifyFault::Panicked);
        }
        self.routes[route].claims = self.routes[route].claims - 1;
        proof {
            assert(self@.routes =~= v.routes.update(route as int, self@.routes[route as int]));
            reclaimed_wf(v, self@, route as int);
        }
        self.maybe_return_route(route);
        proof {
            assert(self@ =~= v.retired(route as int, panicked));
        }
    }

    /// Frees a route that nobody refers to any more.
    fn maybe_return_route(&mut self, route: usize)
        requires
            route < old(self)@.routes.len(),
        ensures
            final(self)@ == old(self)@.reclaimed(route as int),
    {
        if self.routes[route].occupied && !self.routes[route].handle_alive
            && self.routes[route].claims == 0 {
            self.routes[route].occupied = false;
            self.routes[route].signal = false;
            self.free_routes.push(route);
        }
    }

    /// Closes a route and detaches its bindings; reports whether its signal is
    /// to be destroyed now.
    fn close_inner(&mut self, route: usize) -> (release: bool)
        requires
            old(self)@.wf(),
            route < old(self)@.routes.len(),
            old(self)@.routes[route as int].occupied,
        ensures
            final(self)@.wf(),
            final(self)@ == old(self)@.shut(route as int),
            release == (!old(self)@.routes[route as int].closed && old(self)@.routes[route as int].claims == 0),
    {
        let ghost v = self@;
        if self.routes[route].closed {
            return false;
        }
        proof {
            shut_wf(v, route as int);
            assert(v.routes[route as int].wf());
        }
        let release = self.routes[route].claims == 0;
        self.routes[route].closed = true;
        if release {
            self.routes[route].signal = false;
        }
        let ghost r = self@.routes;
        // Which registrations stay.
        let mut keep: Vec<bool> = Vec::new();
        let mut index: usize = 0;
        while index < self.bindings.len()
            invariant
                index <= v.bindings.len(),
                keep@.len() == index,
                self@ == (NotifyView { routes: r, bindings: self.bindings@, ..v }),
                self.bindings@.len() == v.bindings.len(),
                v.bindings.len() <= usize::MAX,
                forall|i: int|
                    0 <= i < index ==> #[trigger] keep@[i] == !v.binds(route as int)(i as usize),
                forall|i: int|
                    0 <= i < index ==> #[trigger] self.bindings@[i] == (if v.bindings[i].active
                        && v.bindings[i].route == Some(route) {
                        v.bindings[i].detached()
                    } else {
                        v.bindings[i]
                    }),
                forall|i: int|
                    index <= i < v.bindings.len() ==> #[trigger] self.bindings@[i]
                        == v.bindings[i],
            decreases v.bindings.len() - index,
        {
            let binding = self.bindings[index];
            let leads_here = match binding.route {
                Some(target) => target == route,
                None => false,
            };
            if binding.active && leads_here {
                keep.push(false);
                self.bindings.set(
                    index,
                    BindingState {
                        generation: binding.generation,
                        occupied: binding.occupied,
                        active: false,
                        source: None,
                        route: None,
                        route_generation: binding.route_generation,
                    },
                );
            } else {
                keep.push(true);
            }
            index += 1;
        }
        let ghost bindings = self@.bindings;
        let mut s: usize = 0;
        while s < self.sources.len()
            invariant
                s <= v.sources.len(),
                v.wf(),
                keep@.len() == v.bindings.len(),
                forall|i: int|
                    0 <= i < keep@.len() ==> #[trigger] keep@[i] == !v.binds(route as int)(
                        i as usize,
                    ),
                self.sources@.len() == v.sources.len(),
                self@ == (NotifyView { routes: r, bindings, sources: self@.sources, ..v }),
                forall|t: int|
                    0 <= t < s ==> #[trigger] self@.sources[t] == (SourceView {
                        members: v.sources[t].members.filter(none_of(v.binds(route as int))),
                        ..v.sources[t]
                    }),
                forall|t: int|
                    s <= t < v.sources.len() ==> #[trigger] self@.sources[t] == v.sources[t],
            decreases v.sources.len() - s,
        {
            let ghost before = *self;
            proof {
                assert(self@.sources[s as int] == self.sources@[s as int]@);
                assert(v.source_ok(s as int));
            }
            let kept = keep_members(
                &self.sources[s].members,
                &keep,
                Ghost(v.binds(route as int)),
            );
            self.sources[s].members = kept;
            proof {
                Self::source_replaced(before, *self, s as int);
            }
            s += 1;
        }
        proof {
            let w = v.shut(route as int);
            assert(self@.sources =~= w.sources);
            assert(self@.bindings =~= w.bindings);
            assert(self@.routes =~= w.routes);
        }
        release
    }
}

/// The members that stay.
fn keep_members(members: &Vec<usize>, keep: &Vec<bool>, gone: Ghost<spec_fn(usize) -> bool>) -> (
kept: Vec<usize>)
    requires
        forall|i: int| 0 <= i < members@.len() ==> (#[trigger] members@[i]) < keep@.len(),
        keep@.len() <= usize::MAX,
        forall|i: int| 0 <= i < keep@.len() ==> #[trigger] keep@[i] == !gone@(i as usize),
    ensures
        kept@ == members@.filter(none_of(gone@)),
{
    let ghost p = none_of(gone@);
    let mut kept: Vec<usize> = Vec::new();
    let mut index: usize = 0;
    proof {
        reveal(Seq::filter);
        assert(members@.take(0) =~= Seq::empty());
        assert(kept@ =~= members@.take(0).filter(p));
    }
    while index < members.len()
        invariant
            index <= members@.len(),
            p == none_of(gone@),
            forall|i: int| 0 <= i < members@.len() ==> (#[trigger] members@[i]) < keep@.len(),
            keep@.len() <= usize::MAX,
            forall|i: int| 0 <= i < keep@.len() ==> #[trigger] keep@[i] == !gone@(i as usize),
            kept@ == members@.take(index as int).filter(p),
        decreases members@.len() - index,
    {
        let member: usize = members[index];
        proof {
            reveal(Seq::filter);
            let next = members@.take(index + 1);
            assert(next.drop_last() =~= members@.take(index as int));
            assert(next.last() == member);
            assert(keep@[member as int] == !gone@(member));
        }
        if keep[member] {
            kept.push(member);
        }
        index += 1;
    }
    proof {
        assert(members@.take(index as int) =~= members@);
    }
    kept
}

/// What a completion token offers to a watcher.
#[derive(Clone, Copy, Debug, PartialEq, Eq, Structural)]
pub struct CompletionInterest {
    /// The runtime that it belongs to; none for a runtime-independent token.
    pub runtime: Option<u64>,
    /// Its source, where its runtime has notification.
    pub source: Option<u64>,
    pub complete: bool,
}

/// The outcome of asking to watch a source: refused with nothing changed, or
/// bound and marked once.
pub open spec fn watching(
    before: NotifyView,
    after: NotifyView,
    route: SWNotifyRoute,
    source_runtime: u64,
    serial: u64,
    invoking: bool,
    result: Result<(SWNotifyBinding, bool), SWNotifyError>,
) -> bool {
    let error = before.watch_error(route.state(before), source_runtime, invoking);
    match result {
        Ok((binding, claim)) => {
            &&& error is None
            &&& after == before.watched(route.slot(), serial)
            &&& binding.held_in(after)
            &&& binding.slot() == Some(before.free_bindings.last())
            &&& claim == route.state(before).needs_claim(route.use_of())
            &&& route.held_in(after)
        },
        Err(refusal) => error == Some(refusal) && after == before,
    }
}

impl SWNotifyRoute {
    /// Registers interest in a source of `source_runtime`. The flag in the
    /// result says that a claim of this route is now to be run.
    pub fn watch_source(
        &mut self,
        domain: &mut NotifyDomain,
        source_runtime: u64,
        serial: u64,
        invoking: bool,
    ) -> (result: Result<(SWNotifyBinding, bool), SWNotifyError>)
        requires
            old(domain)@.wf(),
            old(self).held_in(old(domain)@),
            old(self).state(old(domain)@).claims < usize::MAX,
        ensures
            final(domain)@.wf(),
            *final(self) == *old(self),
            watching(
                old(domain)@,
                final(domain)@,
                *old(self),
                source_runtime,
                serial,
                invoking,
                result,
            ),
    {
        if invoking {
            return Err(SWNotifyError::InvalidContext);
        }
        if source_runtime != domain.runtime {
            return Err(SWNotifyError::ForeignSource);
        }
        if domain.routes[self.index].closed {
            return Err(SWNotifyError::Closed);
        }
        if domain.routes[self.index].fault.is_some() {
            return Err(SWNotifyError::Faulted);
        }
        if domain.free_bindings.len() == 0 {
            return Err(SWNotifyError::Full);
        }
        let next: usize = domain.free_bindings[domain.free_bindings.len() - 1];
        proof {
            assert(domain@.free_bindings[domain@.free_bindings.len() - 1] == next);
        }
        if domain.bindings[next].generation == u64::MAX {
            return Err(SWNotifyError::CounterExhausted);
        }
        proof {
            assert(domain@.routes[self.index as int].wf());
            marked_wf(domain@.routes[self.index as int], self.generation);
        }
        Ok(domain.watch(self.index, serial))
    }

    /// Watches this runtime's broad scheduler and control progress.
    pub fn watch_progress(&mut self, domain: &mut NotifyDomain, invoking: bool) -> (result: Result<
        (SWNotifyBinding, bool),
        SWNotifyError,
    >)
        requires
            old(domain)@.wf(),
            old(self).held_in(old(domain)@),
            old(self).state(old(domain)@).claims < usize::MAX,
        ensures
            final(domain)@.wf(),
            *final(self) == *old(self),
            match old(domain)@.progress {
                Some(serial) => watching(
                    old(domain)@,
                    final(domain)@,
                    *old(self),
                    old(domain)@.runtime,
                    serial,
                    invoking,
                    result,
                ),
                None => result == Err::<(SWNotifyBinding, bool), SWNotifyError>(
                    SWNotifyError::Disabled,
                ) && final(domain)@ == old(domain)@,
            },
    {
        match domain.progress {
            Some(serial) => {
                let runtime: u64 = domain.runtime;
                self.watch_source(domain, runtime, serial, invoking)
            },
            None => Err(SWNotifyError::Disabled),
        }
    }

    /// Watches one terminal completion token. Foreign-runtime tokens are
    /// rejected even after completion. Runtime-independent ready tokens request
    /// an immediate recheck and return an inert binding.
    pub fn watch_completion(
        &mut self,
        domain: &mut NotifyDomain,
        completion: CompletionInterest,
        invoking: bool,
    ) -> (result: Result<(SWNotifyBinding, bool), SWNotifyError>)
        requires
            old(domain)@.wf(),
            old(self).held_in(old(domain)@),
            old(self).state(old(domain)@).claims < usize::MAX,
        ensures
            final(domain)@.wf(),
            *final(self) == *old(self),
            ({
                let before = old(domain)@;
                let after = final(domain)@;
                let route = old(self).state(before);
                if invoking {
                    result == Err::<(SWNotifyBinding, bool), SWNotifyError>(
                        SWNotifyError::InvalidContext,
                    ) && after == before
                } else if completion.runtime is Some && completion.runtime->0 != before.runtime {
                    result == Err::<(SWNotifyBinding, bool), SWNotifyError>(
                        SWNotifyError::ForeignSource,
                    ) && after == before
                } else if completion.source is Some {
                    watching(
                        before,
                        after,
                        *old(self),
                        before.runtime,
                        completion.source->0,
                        invoking,
                        result,
                    )
                } else if completion.complete && completion.runtime is None {
                    match route.refusal() {
                        Some(error) => result == Err::<(SWNotifyBinding, bool), SWNotifyError>(
                            error,
                        ) && after == before,
                        None => {
                            &&& result matches Ok((binding, claim)) && binding.slot() is None
                                && claim == route.needs_claim(old(self).use_of())
                            &&& after == before.with_route(
                                old(self).slot(),
                                route.marked(old(self).use_of()),
                            )
                        },
                    }
                } else {
                    result == Err::<(SWNotifyBinding, bool), SWNotifyError>(SWNotifyError::Closed)
                        && after == before
                }
            }),
    {
        if invoking {
            return Err(SWNotifyError::InvalidContext);
        }
        if let Some(runtime) = completion.runtime {
            if runtime != domain.runtime {
                return Err(SWNotifyError::ForeignSource);
            }
        }
        if let Some(serial) = completion.source {
            let runtime: u64 = domain.runtime;
            return self.watch_source(domain, runtime, serial, invoking);
        }
        if completion.complete && completion.runtime.is_none() {
            if domain.routes[self.index].closed {
                return Err(SWNotifyError::Closed);
            }
            if domain.routes[self.index].fault.is_some() {
                return Err(SWNotifyError::Faulted);
            }
            let ghost v = domain@;
            proof {
                assert(v.routes[self.index as int].wf());
                marked_wf(v.routes[self.index as int], self.generation);
            }
            let claim = domain.mark_changed(self.index, self.generation);
            proof {
                assert forall|i: int| 0 <= i < v.routes.len() implies {
                    &&& (#[trigger] domain@.routes[i]).wf()
                    &&& domain@.routes[i].generation == v.routes[i].generation
                    &&& domain@.routes[i].occupied == v.routes[i].occupied
                    &&& domain@.routes[i].closed == v.routes[i].closed
                } by {
                    assert(v.routes[i].wf());
                }
                routes_changed_wf(v, domain@);
            }
            return Ok((SWNotifyBinding { cell: None, generation: 0 }, claim));
        }
        Err(SWNotifyError::Closed)
    }

    /// Watches one owner's delivery and lifecycle progress, where the owner's
    /// runtime has notification.
    pub fn watch_owner(
        &mut self,
        domain: &mut NotifyDomain,
        owner_runtime: u64,
        source: Option<u64>,
        invoking: bool,
    ) -> (result: Result<(SWNotifyBinding, bool), SWNotifyError>)
        requires
            old(domain)@.wf(),
            old(self).held_in(old(domain)@),
            old(self).state(old(domain)@).claims < usize::MAX,
        ensures
            final(domain)@.wf(),
            *final(self) == *old(self),
            match source {
                Some(serial) => watching(
                    old(domain)@,
                    final(domain)@,
                    *old(self),
                    owner_runtime,
                    serial,
                    invoking,
                    result,
                ),
                None => result == Err::<(SWNotifyBinding, bool), SWNotifyError>(
                    SWNotifyError::Disabled,
                ) && final(domain)@ == old(domain)@,
            },
    {
        match source {
            Some(serial) => self.watch_source(domain, owner_runtime, serial, invoking),
            None => Err(SWNotifyError::Disabled),
        }
    }

    /// Clears pending and returns a stamp for the subsequent state recheck.
    /// Drain the host wake primitive before this call, then inspect source
    /// state and use `changed_since` before entering the host wait.
    pub fn prepare_wait(&mut self, domain: &mut NotifyDomain, invoking: bool) -> (result: Result<
        SWNotifyStamp,
        SWNotifyError,
    >)
        requires
            old(domain)@.wf(),
            old(self).held_in(old(domain)@),
        ensures
            final(domain)@.wf(),
            *final(self) == *old(self),
            ({
                let before = old(domain)@;
                let route = old(self).state(before);
                let error = if invoking {
                    Some(SWNotifyError::InvalidContext)
                } else {
                    route.refusal()
                };
                match result {
                    Ok(stamp) => {
                        &&& error is None
                        &&& stamp == old(self).stamp(before)
                        &&& old(self).made(stamp)
                        &&& stamp.seen() == route.epoch
                        &&& final(domain)@ == before.with_route(
                            old(self).slot(),
                            RouteState { pending: false, ..route },
                        )
                        &&& final(self).held_in(final(domain)@)
                    },
                    Err(refusal) => error == Some(refusal) && final(domain)@ == before,
                }
            }),
    {
        if invoking {
            return Err(SWNotifyError::InvalidContext);
        }
        if domain.routes[self.index].closed {
            return Err(SWNotifyError::Closed);
        }
        if domain.routes[self.index].fault.is_some() {
            return Err(SWNotifyError::Faulted);
        }
        let ghost v = domain@;
        domain.routes[self.index].pending = false;
        proof {
            assert forall|i: int| 0 <= i < v.routes.len() implies {
                &&& (#[trigger] domain@.routes[i]).wf()
                &&& domain@.routes[i].generation == v.routes[i].generation
                &&& domain@.routes[i].occupied == v.routes[i].occupied
                &&& domain@.routes[i].closed == v.routes[i].closed
            } by {
                assert(v.routes[i].wf());
            }
            routes_changed_wf(v, domain@);
        }
        Ok(
            SWNotifyStamp {
                runtime: domain.runtime,
                route: self.index,
                generation: self.generation,
                epoch: domain.routes[self.index].epoch,
            },
        )
    }

    /// The stamp that arming gives now.
    pub closed spec fn stamp(self, v: NotifyView) -> SWNotifyStamp {
        SWNotifyStamp {
            runtime: v.runtime,
            route: self.slot() as usize,
            generation: self.use_of(),
            epoch: self.state(v).epoch,
        }
    }

    /// The stamp was made by this use of this route.
    pub open spec fn made(self, stamp: SWNotifyStamp) -> bool {
        stamp.origin() == (self.owner(), self.slot(), self.use_of())
    }

    /// Something happened since the stamp.
    pub open spec fn changed(self, v: NotifyView, stamp: SWNotifyStamp) -> bool {
        self.state(v).closed || self.state(v).fault is Some || self.state(v).epoch
            != stamp.seen()
    }

    /// A stamp names its route, and what had changed of it when it was made.
    pub proof fn stamp_reads_back(self, v: NotifyView)
        requires
            self.held_in(v),
            v.routes.len() <= usize::MAX,
        ensures
            self.made(self.stamp(v)),
            self.stamp(v).seen() == v.routes[self.slot()].epoch,
    {
    }

    /// Checks changes and lifecycle after inspecting authoritative source state.
    pub fn changed_since(&self, domain: &NotifyDomain, stamp: SWNotifyStamp, invoking: bool) -> (
    result: Result<bool, SWNotifyError>)
        requires
            domain@.wf(),
            self.held_in(domain@),
        ensures
            result == (if invoking {
                Err::<bool, SWNotifyError>(SWNotifyError::InvalidContext)
            } else if !self.made(stamp) {
                Err(SWNotifyError::ForeignStamp)
            } else {
                Ok(self.changed(domain@, stamp))
            }),
    {
        if invoking {
            return Err(SWNotifyError::InvalidContext);
        }
        if stamp.runtime != domain.runtime || stamp.route != self.index || stamp.generation
            != self.generation {
            return Err(SWNotifyError::ForeignStamp);
        }
        Ok(
            domain.routes[self.index].closed || domain.routes[self.index].fault.is_some()
                || domain.routes[self.index].epoch != stamp.epoch,
        )
    }

    pub fn fault<'a>(&self, domain: &'a NotifyDomain) -> (fault: Option<&'a SWNotifyFault>)
        requires
            self.held_in(domain@),
        ensures
            match fault {
                Some(fault) => self.state(domain@).fault == Some(*fault),
                None => self.state(domain@).fault is None,
            },
    {
        domain.routes[self.index].fault.as_ref()
    }

    /// Prevents new claims and detaches interests without waiting. Claimed
    /// callbacks may remain; poll `is_quiescent` before releasing host
    /// resources. True means that the signal is to be destroyed now, and its
    /// panic reported by [`Self::signal_destroyed`].
    pub fn close(&mut self, domain: &mut NotifyDomain, invoking: bool) -> (result: Result<
        bool,
        SWNotifyError,
    >)
        requires
            old(domain)@.wf(),
            old(self).held_in(old(domain)@),
        ensures
            final(domain)@.wf(),
            *final(self) == *old(self),
            if invoking {
                result == Err::<bool, SWNotifyError>(SWNotifyError::InvalidContext)
                    && final(domain)@ == old(domain)@
            } else {
                let route = old(self).state(old(domain)@);
                &&& result == Ok::<bool, SWNotifyError>(!route.closed && route.claims == 0)
                &&& final(domain)@ == old(domain)@.shut(old(self).slot())
                &&& final(self).held_in(final(domain)@)
            },
    {
        if invoking {
            return Err(SWNotifyError::InvalidContext);
        }
        proof {
            assert(domain@.routes[self.index as int].wf());
        }
        Ok(domain.close_inner(self.index))
    }

    /// Reports how the destruction of a signal released by `close` ended.
    pub fn signal_destroyed(&self, domain: &mut NotifyDomain, panicked: bool)
        requires
            old(domain)@.wf(),
            self.held_in(old(domain)@),
        ensures
            final(domain)@.wf(),
            ({
                let route = self.state(old(domain)@);
                final(domain)@ == old(domain)@.with_route(
                    self.slot(),
                    RouteState {
                        fault: if panicked && route.fault is None {
                            Some(SWNotifyFault::Panicked)
                        } else {
                            route.fault
                        },
                        ..route
                    },
                )
            }),
    {
        let ghost v = domain@;
        if panicked && domain.routes[self.index].fault.is_none() {
            domain.routes[self.index].fault = Some(SWNotifyFault::Panicked);
        }
        proof {
            assert forall|i: int| 0 <= i < v.routes.len() implies {
                &&& (#[trigger] domain@.routes[i]).wf()
                &&& domain@.routes[i].generation == v.routes[i].generation
                &&& domain@.routes[i].occupied == v.routes[i].occupied
                &&& domain@.routes[i].closed == v.routes[i].closed
            } by {
                assert(v.routes[i].wf());
            }
            routes_changed_wf(v, domain@);
            assert(domain@.routes =~= v.routes.update(
                self.index as int,
                domain@.routes[self.index as int],
            ));
        }
    }

    /// True after close and all queued or running claims retire.
    pub fn is_quiescent(&self, domain: &NotifyDomain) -> (quiescent: bool)
        requires
            self.held_in(domain@),
        ensures
            quiescent == (self.state(domain@).closed && self.state(domain@).claims == 0),
    {
        domain.routes[self.index].closed && domain.routes[self.index].claims == 0
    }

    /// Ends the controller. The route is freed once its last claim has retired.
    /// True means that the signal is to be destroyed now.
    pub fn release(self, domain: &mut NotifyDomain) -> (destroy: bool)
        requires
            old(domain)@.wf(),
            self.held_in(old(domain)@),
        ensures
            final(domain)@.wf(),
            final(domain)@ == old(domain)@.dropped(self.slot()),
            destroy == (!self.state(old(domain)@).closed && self.state(old(domain)@).claims == 0),
    {
        proof {
            assert(domain@.routes[self.index as int].wf());
        }
        let ghost v = domain@;
        let destroy = domain.close_inner(self.index);
        let ghost shut = domain@;
        proof {
            assert(shut.routes[self.index as int].wf());
        }
        domain.routes[self.index].handle_alive = false;
        proof {
            assert(domain@.routes =~= shut.routes.update(
                self.index as int,
                domain@.routes[self.index as int],
            ));
            reclaimed_wf(shut, domain@, self.index as int);
        }
        domain.maybe_return_route(self.index);
        proof {
            assert(domain@ =~= v.dropped(self.index as int));
        }
        destroy
    }
}

impl SWNotifyBinding {
    /// Removes interest without waiting. An inert binding has none.
    pub fn release(self, domain: &mut NotifyDomain)
        requires
            old(domain)@.wf(),
            self.held_in(old(domain)@),
        ensures
            final(domain)@.wf(),
            final(domain)@ == (match self.slot() {
                Some(b) => old(domain)@.unbound(b),
                None => old(domain)@,
            }),
    {
        if let Some(b) = self.cell {
            let ghost v = domain@;
            proof {
                unbound_wf(v, b);
                assert(v.binding_ok(b as int));
            }
            let binding = domain.bindings[b];
            let mut touched: Option<usize> = None;
            if let Some(serial) = binding.source {
                touched = domain.find_source(serial);
            }
            if let Some(s) = touched {
                domain.remove_member(s, b);
            }
            proof {
                assert forall|t: int| 0 <= t < v.sources.len() implies domain@.sources[t] == (
                SourceView { members: v.sources[t].members.filter(other_than(b)), ..v.sources[t] }) by {
                    assert(v.source_ok(t));
                    if touched is None || touched->0 != t {
                        let members = v.sources[t].members;
                        assert forall|i: int| 0 <= i < members.len() implies other_than(b)(
                            #[trigger] members[i],
                        ) by {
                            if members[i] == b {
                                assert(v.bindings[members[i] as int].source == Some(
                                    v.sources[t].serial,
                                ));
                                assert(source_at(v.sources, t, v.sources[t].serial));
                                source_found(v, t, v.sources[t].serial);
                            }
                        }
                        filter_keeps(members, other_than(b));
                    }
                }
                assert(domain@.sources =~= v.sources_without(b));
            }
            domain.bindings.set(
                b,
                BindingState {
                    generation: binding.generation,
                    occupied: false,
                    active: false,
                    source: None,
                    route: None,
                    route_generation: binding.route_generation,
                },
            );
            domain.free_bindings.push(b);
        }
    }
}

impl NotifyDomain {
    /// Takes one binding out of a source's members.
    fn remove_member(&mut self, s: usize, b: usize)
        requires
            old(self)@.wf(),
            s < old(self)@.sources.len(),
            old(self)@.sources[s as int].members.contains(b),
        ensures
            final(self)@ == (NotifyView {
                sources: old(self)@.sources.update(
                    s as int,
                    SourceView {
                        members: old(self)@.sources[s as int].members.filter(other_than(b)),
                        ..old(self)@.sources[s as int]
                    },
                ),
                ..old(self)@
            }),
    {
        let ghost v = self@;
        let ghost members = v.sources[s as int].members;
        proof {
            assert(v.sources[s as int] == self.sources@[s as int]@);
            assert(v.source_ok(s as int));
        }
        let mut index: usize = 0;
        while index < self.sources[s].members.len() && self.sources[s].members[index] != b
            invariant
                s < self.sources@.len(),
                self@ == v,
                v == old(self)@,
                *self == *old(self),
                members == self.sources@[s as int].members@,
                members.contains(b),
                index <= members.len(),
                forall|i: int| 0 <= i < index ==> #[trigger] members[i] != b,
            decreases members.len() - index,
        {
            assert(members[index as int] != b);
            index += 1;
        }
        proof {
            let k = choose|k: int| 0 <= k < members.len() && members[k] == b;
            assert(members[k] == b);
            filter_removes(members, index as int, b);
        }
        let _ = self.sources[s].members.remove(index);
        proof {
            Self::source_replaced(*old(self), *self, s as int);
        }
    }
}

/// Marking never takes back what a route has seen, and a route that listens sees
/// the change of each of its bindings.
proof fn marks_accumulate(v: NotifyView, order: Seq<usize>, r: int, k: int)
    requires
        forall|i: int| 0 <= i < v.routes.len() ==> (#[trigger] v.routes[i]).wf(),
        v.roomy(),
        v.routes.len() <= usize::MAX,
        0 <= r < v.routes.len(),
        !v.routes[r].closed,
        forall|i: int|
            0 <= i < order.len() ==> {
                let b = #[trigger] order[i];
                &&& b < v.bindings.len()
                &&& v.bindings[b as int].route is Some
                &&& v.bindings[b as int].route->0 < v.routes.len()
            },
    ensures
        ({
            let after = all_marked(v.routes, v.bindings, order)[r];
            &&& after.fault is Some || after.epoch >= v.routes[r].epoch
            &&& v.routes[r].fault is Some ==> after.fault is Some
            &&& 0 <= k < order.len() && v.bindings[order[k] as int].route == Some(r as usize)
                && v.bindings[order[k] as int].route_generation == v.routes[r].generation
                ==> after.fault is Some || after.epoch > v.routes[r].epoch
        }),
    decreases order.len(),
{
    if order.len() > 0 {
        let rest = order.drop_last();
        assert forall|i: int| 0 <= i < rest.len() implies {
            let b = #[trigger] rest[i];
            &&& b < v.bindings.len()
            &&& v.bindings[b as int].route is Some
            &&& v.bindings[b as int].route->0 < v.routes.len()
        } by {
            assert(rest[i] == order[i]);
        }
        marks_accumulate(v, rest, r, k);
        all_marked_ok(v, rest);
        let before = all_marked(v.routes, v.bindings, rest)[r];
        assert(before.wf());
        let last = order[order.len() - 1];
        assert(v.bindings[last as int].route is Some);
        if 0 <= k < rest.len() {
            assert(rest[k] == order[k]);
        }
    }
}

/// A change that is published after a route was armed is never missed: the
/// recheck before the host waits sees it.
pub proof fn no_wake_is_lost(
    v: NotifyView,
    route: SWNotifyRoute,
    b: usize,
    serial: u64,
    terminal: bool,
)
    requires
        v.wf(),
        v.roomy(),
        route.held_in(v),
        b < v.bindings.len(),
        v.bindings[b as int].active,
        v.bindings[b as int].route == Some(route.slot() as usize),
        v.bindings[b as int].source == Some(serial),
        source_live(v.sources, serial),
    ensures
        route.changed(v.published(serial, terminal), route.stamp(v)),
{
    let s = source_slot(v.sources, serial);
    assert(source_at(v.sources, s, serial));
    assert(v.source_ok(s));
    assert(v.binding_ok(b as int));
    let members = v.sources[s].members;
    assert(members.contains(b));
    let m = choose|m: int| 0 <= m < members.len() && members[m] == b;
    let order = members.reverse();
    let k = members.len() - 1 - m;
    assert(order[k] == b);
    members_marked(v, s);
    marks_accumulate(v, order, route.slot(), k);
}

/// Successive changes are coalesced: while a route is pending, further changes
/// need no claim; after it was armed again the next one does.
pub proof fn changes_are_coalesced(r: RouteState, generation: u64)
    requires
        r.wf(),
        r.claims < usize::MAX,
        r.listens(generation),
        r.epoch < u64::MAX,
    ensures
        !r.marked(generation).needs_claim(generation),
        !r.queued && !r.pending ==> r.needs_claim(generation),
        !r.queued ==> (RouteState { pending: false, ..r }).needs_claim(generation),
{
}

/// A closed route takes no change and no new claim, so once its claims have
/// retired it stays quiescent.
pub proof fn quiescence_lasts(r: RouteState, generation: u64)
    requires
        r.closed,
    ensures
        r.marked(generation) == r,
        !r.needs_claim(generation),
{
}

/// Stamps of an earlier use of a route are refused: every use has its own
/// generation.
pub proof fn stamps_do_not_outlive_their_route(r: RouteState)
    requires
        r.generation < u64::MAX,
    ensures
        r.opened().generation != r.generation,
        r.opened().wf(),
{
}

/// The places of routes and bindings are bounded by the limits: used and free
/// ones together are exactly what was configured.
pub proof fn places_are_bounded(v: NotifyView, i: int)
    requires
        v.wf(),
        0 <= i < v.routes.len(),
    ensures
        v.routes[i].occupied <==> !v.free_routes.contains(i as usize),
        v.create_error(false) == Some(SWNotifyError::Full) ==> v.routes[i].occupied,
{
}

/// A terminal source changes for the last time: publishing it again marks and
/// claims nothing.
pub proof fn terminal_publication_is_last(v: NotifyView, serial: u64, terminal: bool)
    requires
        v.wf(),
        v.roomy(),
        source_live(v.sources, serial),
    ensures
        v.published(serial, true).published(serial, terminal) == v.published(serial, true),
        v.published(serial, true).publication(serial) == Seq::<usize>::empty(),
{
    let w = v.published(serial, true);
    published_wf(v, serial, true);
    let s = source_slot(v.sources, serial);
    assert(source_at(v.sources, s, serial));
    assert(source_at(w.sources, s, serial));
    source_found(w, s, serial);
}

/// A signal that fails is reported: its fault stays with the route, whatever
/// changes follow, and registering and arming are refused from then on.
pub proof fn failed_signals_are_reported(
    v: NotifyView,
    route: SWNotifyRoute,
    fault: SWNotifyFault,
    generation: u64,
)
    requires
        v.wf(),
        route.held_in(v),
        route.state(v).refusal() is None,
        route.state(v).claims > 0,
    ensures
        ({
            let after = v.claim_ended(route.slot(), Some(fault));
            &&& route.held_in(after)
            &&& route.state(after).fault == Some(fault)
            &&& route.state(after).refusal() == Some(SWNotifyError::Faulted)
            &&& route.state(after).marked(generation) == route.state(after)
            &&& after.watch_error(route.state(after), v.runtime, false) == Some(
                SWNotifyError::Faulted,
            )
        }),
{
}

/// A new domain serves: its first route is granted, that route's first watch of
/// the runtime's progress is granted and needs a claim, and that claim has a
/// signal to run.
pub proof fn new_domains_serve(runtime: u64, limits: SWNotifyLimits)
    requires
        limits.routes > 0,
        limits.bindings > 0,
    ensures
        ({
            let fresh = NotifyView::fresh(runtime, limits);
            let opened = fresh.created();
            let watched = opened.watched(0, 1);
            &&& fresh.create_error(false) is None
            &&& fresh.free_routes.last() == 0
            &&& fresh.progress == Some(1u64)
            &&& opened.watch_error(opened.routes[0], runtime, false) is None
            &&& opened.routes[0].needs_claim(1)
            &&& watched.routes[0].queued && watched.routes[0].signal
            &&& watched.routes[0].claims == 1 && watched.routes[0].fault is None
            &&& watched.sources[0].members == seq![0usize]
        }),
{
    let fresh = NotifyView::fresh(runtime, limits);
    let opened = fresh.created();
    assert(fresh.free_routes.last() == 0);
    assert(opened.free_bindings.last() == 0);
    assert(source_at(opened.sources, 0, 1));
    let s = source_slot(opened.sources, 1);
    assert(source_at(opened.sources, s, 1));
    assert(opened.watched(0, 1).sources[0].members =~= seq![0usize]);
}

/// Claims of one thread that wait for the end of its publications. Host signals
/// never run inside a publication, and never inside one another's drain.
pub struct ClaimQueue {
    depth: usize,
    draining: bool,
    invocation: usize,
    queue: Vec<usize>,
}

#[verifier::ext_equal]
pub struct ClaimQueueView {
    /// Open publication scopes.
    pub depth: int,
    pub draining: bool,
    /// Host signals that are running or being destroyed.
    pub invocation: int,
    /// Routes whose claims are to be run, oldest first.
    pub queue: Seq<usize>,
}

impl ClaimQueueView {
    /// The thread may run claims now.
    pub open spec fn drains(self) -> bool {
        self.depth == 0 && !self.draining
    }
}

impl View for ClaimQueue {
    type V = ClaimQueueView;

    closed spec fn view(&self) -> ClaimQueueView {
        ClaimQueueView {
            depth: self.depth as int,
            draining: self.draining,
            invocation: self.invocation as int,
            queue: self.queue@,
        }
    }
}

impl ClaimQueue {
    pub fn new() -> (queue: Self)
        ensures
            queue@ == (ClaimQueueView {
                depth: 0,
                draining: false,
                invocation: 0,
                queue: Seq::empty(),
            }),
    {
        ClaimQueue { depth: 0, draining: false, invocation: 0, queue: Vec::new() }
    }

    /// Opens a publication scope.
    pub fn enter(&mut self)
        requires
            old(self)@.depth < usize::MAX,
        ensures
            final(self)@ == (ClaimQueueView { depth: old(self)@.depth + 1, ..old(self)@ }),
    {
        self.depth = self.depth + 1;
    }

    /// Closes a publication scope; reports whether claims are to be run now.
    pub fn leave(&mut self) -> (drain: bool)
        requires
            old(self)@.depth > 0,
        ensures
            final(self)@ == (ClaimQueueView { depth: old(self)@.depth - 1, ..old(self)@ }),
            drain == final(self)@.drains(),
    {
        self.depth = self.depth - 1;
        self.depth == 0 && !self.draining
    }

    /// Whether a host signal is running on this thread.
    pub fn invocation_active(&self) -> (active: bool)
        ensures
            active == (self@.invocation != 0),
    {
        self.invocation != 0
    }

    pub fn enter_invocation(&mut self)
        requires
            old(self)@.invocation < usize::MAX,
        ensures
            final(self)@ == (ClaimQueueView {
                invocation: old(self)@.invocation + 1,
                ..old(self)@
            }),
    {
        self.invocation = self.invocation + 1;
    }

    pub fn leave_invocation(&mut self)
        requires
            old(self)@.invocation > 0,
        ensures
            final(self)@ == (ClaimQueueView {
                invocation: old(self)@.invocation - 1,
                ..old(self)@
            }),
    {
        self.invocation = self.invocation - 1;
    }

    /// Queues claims in their order; reports whether they are to be run now.
    pub fn queue_claims(&mut self, claims: &Vec<usize>) -> (drain: bool)
        ensures
            final(self)@ == (ClaimQueueView {
                queue: old(self)@.queue + claims@,
                ..old(self)@
            }),
            drain == (claims@.len() > 0 && final(self)@.drains()),
    {
        let ghost before = self.queue@;
        let mut index: usize = 0;
        while index < claims.len()
            invariant
                index <= claims@.len(),
                before == old(self)@.queue,
                self@ == (ClaimQueueView {
                    queue: before + claims@.take(index as int),
                    ..old(self)@
                }),
            decreases claims@.len() - index,
        {
            self.queue.push(claims[index]);
            proof {
                assert(before + claims@.take(index + 1) =~= (before + claims@.take(
                    index as int,
                )).push(claims@[index as int]));
            }
            index += 1;
        }
        proof {
            assert(claims@.take(index as int) =~= claims@);
        }
        claims.len() > 0 && self.depth == 0 && !self.draining
    }

    /// The next claim of a drain, which ends with the last one.
    pub fn next_claim(&mut self) -> (next: Option<usize>)
        ensures
            match next {
                Some(route) => {
                    &&& old(self)@.queue.len() > 0
                    &&& route == old(self)@.queue[0]
                    &&& final(self)@ == (ClaimQueueView {
                        queue: old(self)@.queue.drop_first(),
                        draining: true,
                        ..old(self)@
                    })
                },
                None => {
                    &&& old(self)@.queue.len() == 0
                    &&& final(self)@ == (ClaimQueueView { draining: false, ..old(self)@ })
                },
            },
    {
        if self.queue.len() == 0 {
            self.draining = false;
            return None;
        }
        self.draining = true;
        let ghost before = self.queue@;
        let route: usize = self.queue.remove(0);
        proof {
            assert(self.queue@ =~= before.drop_first());
        }
        Some(route)
    }
}

impl NotifyDomain {
    /// The source of the runtime's broad progress, where routes are enabled.
    pub fn progress_source(&self) -> (serial: Option<u64>)
        ensures
            serial == self@.progress,
    {
        self.progress
    }

    /// Whether every route can take one more claim.
    pub fn has_room(&self) -> (roomy: bool)
        ensures
            roomy == self@.roomy(),
    {
        let mut index: usize = 0;
        while index < self.routes.len()
            invariant
                index <= self.routes@.len(),
                self@.routes == self.routes@,
                forall|i: int| 0 <= i < index ==> (#[trigger] self.routes@[i]).claims < usize::MAX,
            decreases self.routes@.len() - index,
        {
            if self.routes[index].claims == usize::MAX {
                return false;
            }
            index += 1;
        }
        true
    }
}

} // verus!
