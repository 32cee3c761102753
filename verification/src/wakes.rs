//! Which host destinations hear of which changes, and when they are free again.
use crate::notification::all_claims;
use crate::notification::all_detached;
use crate::notification::all_marked;
use crate::notification::all_marked_ok;
use crate::notification::ClaimQueueView;
use crate::notification::members_marked;
use crate::notification::NotifyView;
use crate::notification::other_than;
use crate::notification::RouteState;
use crate::notification::source_at;
use crate::notification::source_found;
use crate::notification::SWNotifyBinding;
use crate::notification::SWNotifyError;
use crate::notification::SWNotifyFault;
use crate::notification::SWNotifyRoute;
use crate::notification::SWNotifyStamp;
use crate::notification::watching;
use vstd::prelude::*;

verus! {

/// What a change does to a route. It reaches the use of the route that it was
/// registered for, while that is open and without a fault: it counts, and a
/// claim is needed only if none is under way and no earlier change waits.
pub proof fn changes_mark_open_routes(r: RouteState, generation: u64)
    requires
        r.claims < usize::MAX,
    ensures
        ({
            let m = r.marked(generation);
            let hears = r.generation == generation && !r.closed && r.fault is None;
            &&& !hears ==> m == r
            &&& hears && r.epoch == u64::MAX ==> m == (RouteState {
                fault: Some(SWNotifyFault::CounterExhausted),
                ..r
            })
            &&& hears && r.epoch < u64::MAX ==> {
                &&& m.epoch == r.epoch + 1 && m.pending && m.fault is None
                &&& m.queued <==> r.queued || !r.pending
                &&& m.claims == r.claims + (if !r.pending && !r.queued {
                    1int
                } else {
                    0int
                })
                &&& m.generation == r.generation && m.closed == r.closed && m.signal == r.signal
                    && m.occupied == r.occupied && m.handle_alive == r.handle_alive
            }
            &&& r.needs_claim(generation) <==> m.claims > r.claims
            &&& r.needs_claim(generation) <==> hears && r.epoch < u64::MAX && !r.pending
                && !r.queued
        }),
        r.refusal() is None <==> !r.closed && r.fault is None,
        r.refusal() == Some(SWNotifyError::Closed) <==> r.closed,
        r.refusal() == Some(SWNotifyError::Faulted) <==> !r.closed && r.fault is Some,
{
}

/// Some registration of this list is with this use of the route.
pub open spec fn reaches(v: NotifyView, order: Seq<usize>, r: int) -> bool {
    exists|k: int|
        0 <= k < order.len() && v.bindings[(#[trigger] order[k]) as int].route == Some(r as usize)
            && v.bindings[order[k] as int].route_generation == v.routes[r].generation
}

proof fn reach_grows(v: NotifyView, order: Seq<usize>, r: int)
    requires
        order.len() > 0,
    ensures
        reaches(v, order, r) <==> reaches(v, order.drop_last(), r) || v.bindings[
            order.last() as int
        ].route == Some(r as usize) && v.bindings[order.last() as int].route_generation
            == v.routes[r].generation,
{
    let rest = order.drop_last();
    let n = rest.len() as int;
    if reaches(v, rest, r) {
        let k = choose|k: int|
            0 <= k < rest.len() && v.bindings[(#[trigger] rest[k]) as int].route == Some(
                r as usize,
            ) && v.bindings[rest[k] as int].route_generation == v.routes[r].generation;
        assert(order[k] == rest[k]);
    }
    if reaches(v, order, r) {
        let k = choose|k: int|
            0 <= k < order.len() && v.bindings[(#[trigger] order[k]) as int].route == Some(
                r as usize,
            ) && v.bindings[order[k] as int].route_generation == v.routes[r].generation;
        if k < n {
            assert(rest[k] == order[k]);
        } else {
            assert(order[k] == order.last());
        }
    }
    if v.bindings[order.last() as int].route == Some(r as usize) && v.bindings[
        order.last() as int
    ].route_generation == v.routes[r].generation {
        assert(order[n] == order.last());
    }
}

proof fn marks_reach(v: NotifyView, order: Seq<usize>, r: int)
    requires
        forall|i: int| 0 <= i < v.routes.len() ==> (#[trigger] v.routes[i]).wf(),
        v.roomy(),
        v.routes.len() <= usize::MAX,
        0 <= r < v.routes.len(),
        forall|i: int|
            0 <= i < order.len() ==> {
                let b = #[trigger] order[i];
                &&& b < v.bindings.len()
                &&& v.bindings[b as int].route is Some
                &&& v.bindings[b as int].route->0 < v.routes.len()
            },
    ensures
        ({
            let old = v.routes[r];
            let m = all_marked(v.routes, v.bindings, order)[r];
            let hit = reaches(v, order, r);
            let need = !old.closed && old.fault is None && old.epoch < u64::MAX && !old.pending
                && !old.queued;
            &&& all_marked(v.routes, v.bindings, order).len() == v.routes.len()
            &&& m.generation == old.generation && m.closed == old.closed
            &&& !hit ==> m == old
            &&& old.pending ==> m.pending
            &&& old.queued ==> m.queued
            &&& old.fault is Some ==> m.fault is Some
            &&& hit && !old.closed && old.fault is None && old.epoch == u64::MAX ==> m.fault is Some
            &&& hit && !old.closed && old.fault is None && old.epoch < u64::MAX ==> m.pending
            &&& all_claims(v.routes, v.bindings, order).contains(r as usize) <==> hit && need
        }),
    decreases order.len(),
{
    if order.len() > 0 {
        let rest = order.drop_last();
        let last = order[order.len() - 1];
        assert(last == order.last());
        assert forall|i: int| 0 <= i < rest.len() implies {
            let b = #[trigger] rest[i];
            &&& b < v.bindings.len()
            &&& v.bindings[b as int].route is Some
            &&& v.bindings[b as int].route->0 < v.routes.len()
        } by {
            assert(rest[i] == order[i]);
        }
        marks_reach(v, rest, r);
        reach_grows(v, order, r);
        all_marked_ok(v, rest);
        let before = all_marked(v.routes, v.bindings, rest);
        let claims = all_claims(v.routes, v.bindings, rest);
        let b = v.bindings[last as int];
        if before[b.route->0 as int].needs_claim(b.route_generation) {
            let longer = claims.push(b.route->0);
            assert(longer.last() == b.route->0);
            if longer.contains(r as usize) && b.route->0 != r {
                let k = choose|k: int| 0 <= k < longer.len() && longer[k] == r as usize;
                assert(claims[k] == r as usize);
            }
            if claims.contains(r as usize) {
                let k = choose|k: int| 0 <= k < claims.len() && claims[k] == r as usize;
                assert(longer[k] == r as usize);
            }
            if b.route->0 == r {
                assert(longer[claims.len() as int] == r as usize);
            }
        }
    } else {
        assert(!all_claims(v.routes, v.bindings, order).contains(r as usize));
    }
}

/// Who hears of a publication. A route that has a registration with the source
/// is asked to run exactly if it is open and without a fault, and neither waits
/// to run nor has unread changes; a route without one is not touched. After a
/// publication that is the last one, the source has no registration left.
pub proof fn publications_reach_their_watchers(v: NotifyView, s: int, terminal: bool, r: int)
    requires
        v.wf(),
        v.roomy(),
        0 <= s < v.sources.len(),
        0 <= r < v.routes.len(),
    ensures
        ({
            let source = v.sources[s];
            let old = v.routes[r];
            let w = v.published(source.serial, terminal);
            let watched = exists|b: int|
                0 <= b < v.bindings.len() && (#[trigger] v.bindings[b]).active
                    && v.bindings[b].source == Some(source.serial) && v.bindings[b].route == Some(
                    r as usize,
                );
            &&& v.publication(source.serial).contains(r as usize) <==> watched && !old.closed
                && old.fault is None && old.epoch < u64::MAX && !old.pending && !old.queued
            &&& !watched ==> w.routes[r] == old
            &&& watched && old.fault is None && old.epoch < u64::MAX ==> w.routes[r].pending
            &&& terminal && !source.terminal ==> w.sources[s].terminal
                && w.sources[s].members.len() == 0 && forall|b: int|
                0 <= b < v.bindings.len() && (#[trigger] v.bindings[b]).source == Some(
                    source.serial,
                ) ==> !w.bindings[b].active
            &&& !terminal ==> w.sources == v.sources && w.bindings == v.bindings
        }),
{
    let source = v.sources[s];
    assert(source_at(v.sources, s, source.serial));
    source_found(v, s, source.serial);
    assert(v.source_ok(s));
    let order = source.members.reverse();
    members_marked(v, s);
    assert(order.len() == source.members.len());
    assert forall|i: int| 0 <= i < order.len() implies {
        let b = #[trigger] order[i];
        &&& b < v.bindings.len()
        &&& v.bindings[b as int].route is Some
        &&& v.bindings[b as int].route->0 < v.routes.len()
    } by {
        assert(source.members.reverse()[i] == order[i]);
    }
    marks_reach(v, order, r);
    if exists|b: int|
        0 <= b < v.bindings.len() && (#[trigger] v.bindings[b]).active && v.bindings[b].source
            == Some(source.serial) && v.bindings[b].route == Some(r as usize) {
        let b = choose|b: int|
            0 <= b < v.bindings.len() && (#[trigger] v.bindings[b]).active && v.bindings[b].source
                == Some(source.serial) && v.bindings[b].route == Some(r as usize);
        assert(v.binding_ok(b));
        assert(source.members.contains(b as usize));
        let m = choose|m: int| 0 <= m < source.members.len() && source.members[m] == b as usize;
        let k = source.members.len() - 1 - m;
        assert(order[k] == b as usize);
        assert(reaches(v, order, r));
    }
    if reaches(v, order, r) {
        let k = choose|k: int|
            0 <= k < order.len() && v.bindings[(#[trigger] order[k]) as int].route == Some(
                r as usize,
            ) && v.bindings[order[k] as int].route_generation == v.routes[r].generation;
        let m = source.members.len() - 1 - k;
        assert(order[k] == source.members[m]);
        assert(v.bindings[source.members[m] as int].active);
    }
    if source.terminal {
        assert(!reaches(v, order, r));
    }
    if terminal && !source.terminal {
        let w = v.published(source.serial, terminal);
        assert forall|b: int|
            0 <= b < v.bindings.len() && (#[trigger] v.bindings[b]).source == Some(
                source.serial,
            ) implies !w.bindings[b].active by {
            assert(v.binding_ok(b));
            if v.bindings[b].active {
                assert(source.members.contains(b as usize));
            }
            assert(w.bindings[b] == all_detached(v.bindings, source.members)[b]);
        }
    }
}

/// When a route is granted: outside host signals, where routes are configured,
/// one is free and its uses can still be told apart. A new use is open, empty
/// and different from all earlier ones.
pub proof fn free_routes_are_granted(v: NotifyView, invoking: bool)
    requires
        v.wf(),
    ensures
        ({
            let error = v.create_error(invoking);
            let exhausted = v.routes[v.free_routes.last() as int].generation == u64::MAX;
            &&& error is None <==> !invoking && v.free_routes.len() > 0 && !exhausted
            &&& error == Some(SWNotifyError::InvalidContext) <==> invoking
            &&& error == Some(SWNotifyError::Disabled) <==> !invoking && v.routes.len() == 0
            &&& error == Some(SWNotifyError::Full) <==> !invoking && v.routes.len() > 0
                && v.free_routes.len() == 0
            &&& error == Some(SWNotifyError::CounterExhausted) <==> !invoking
                && v.free_routes.len() > 0 && exhausted
        }),
        v.create_error(invoking) is None ==> ({
            let w = v.created();
            let i = v.free_routes.last() as int;
            let r = w.routes[i];
            &&& w.free_routes == v.free_routes.drop_last()
            &&& r.occupied && r.handle_alive && !r.closed && r.signal && r.fault is None
            &&& !r.pending && !r.queued && r.epoch == 0 && r.claims == 0
            &&& r.generation == v.routes[i].generation + 1
            &&& forall|k: int|
                0 <= k < v.routes.len() && k != i ==> (#[trigger] w.routes[k]) == v.routes[k]
            &&& w.bindings == v.bindings && w.sources == v.sources
        }),
{
    if v.free_routes.len() > 0 {
        assert(v.free_routes[v.free_routes.len() - 1] < v.routes.len());
    }
}

/// When a watch is granted: outside host signals, on a source of this runtime,
/// for an open route without a fault, while a registration is free and its uses
/// can still be told apart.
pub proof fn free_watches_are_granted(
    v: NotifyView,
    route: RouteState,
    runtime: u64,
    invoking: bool,
)
    requires
        v.wf(),
    ensures
        ({
            let error = v.watch_error(route, runtime, invoking);
            let home = !invoking && runtime == v.runtime;
            let open = home && !route.closed && route.fault is None;
            let exhausted = v.bindings[v.free_bindings.last() as int].generation == u64::MAX;
            &&& error is None <==> open && v.free_bindings.len() > 0 && !exhausted
            &&& error == Some(SWNotifyError::InvalidContext) <==> invoking
            &&& error == Some(SWNotifyError::ForeignSource) <==> !invoking && runtime != v.runtime
            &&& error == Some(SWNotifyError::Closed) <==> home && route.closed
            &&& error == Some(SWNotifyError::Faulted) <==> home && !route.closed && route.fault
                is Some
            &&& error == Some(SWNotifyError::Full) <==> open && v.free_bindings.len() == 0
            &&& error == Some(SWNotifyError::CounterExhausted) <==> open && v.free_bindings.len()
                > 0 && exhausted
        }),
{
}

/// What a watch does. The registration of a live source joins its watchers; that
/// of one that has ended watches nothing. Either way the route is marked at
/// once, so that a change before the watch is not missed, and no other route or
/// registration is touched.
pub proof fn watches_mark_their_route(v: NotifyView, route: int, s: int)
    requires
        v.wf(),
        v.free_bindings.len() > 0,
        0 <= route < v.routes.len(),
        0 <= s < v.sources.len(),
        !v.routes[route].closed,
        v.routes[route].fault is None,
        v.routes[route].epoch < u64::MAX,
        v.routes[route].claims < usize::MAX,
        v.bindings[v.free_bindings.last() as int].generation < u64::MAX,
    ensures
        ({
            let source = v.sources[s];
            let w = v.watched(route, source.serial);
            let b = v.free_bindings.last();
            let binding = w.bindings[b as int];
            &&& w.free_bindings == v.free_bindings.drop_last()
            &&& binding.occupied && binding.generation == v.bindings[b as int].generation + 1
            &&& binding.active <==> !source.terminal
            &&& binding.active ==> binding.source == Some(source.serial) && binding.route == Some(
                route as usize,
            ) && binding.route_generation == v.routes[route].generation
            &&& !source.terminal ==> w.sources[s].members == source.members.push(b)
                && w.sources[s].ever_watched && !w.sources[s].terminal
            &&& source.terminal ==> w.sources == v.sources
            &&& w.routes[route].pending && w.routes[route].epoch == v.routes[route].epoch + 1
            &&& forall|k: int|
                0 <= k < v.routes.len() && k != route ==> (#[trigger] w.routes[k]) == v.routes[k]
            &&& forall|k: int|
                0 <= k < v.bindings.len() && k != b ==> (#[trigger] w.bindings[k])
                    == v.bindings[k]
        }),
{
    let source = v.sources[s];
    assert(source_at(v.sources, s, source.serial));
    source_found(v, s, source.serial);
    let b = v.free_bindings[v.free_bindings.len() - 1];
    assert(b < v.bindings.len());
}

/// A registration that is given up is free, watches nothing, and is in no
/// source; all others stay.
pub proof fn released_watches_are_free(v: NotifyView, b: usize, k: int, s: int)
    requires
        v.wf(),
        b < v.bindings.len(),
        0 <= k < v.bindings.len(),
        0 <= s < v.sources.len(),
    ensures
        ({
            let w = v.unbound(b);
            &&& !w.bindings[b as int].occupied && !w.bindings[b as int].active
            &&& w.bindings[b as int].generation == v.bindings[b as int].generation
            &&& k != b ==> w.bindings[k] == v.bindings[k]
            &&& w.free_bindings == v.free_bindings.push(b)
            &&& !w.sources[s].members.contains(b)
            &&& forall|m: usize|
                m != b ==> (#[trigger] w.sources[s].members.contains(m)
                    <==> v.sources[s].members.contains(m))
            &&& w.routes == v.routes
        }),
{
    let w = v.unbound(b);
    filtered(v.sources[s].members, b);
}

proof fn filtered(members: Seq<usize>, b: usize)
    ensures
        !members.filter(other_than(b)).contains(b),
        forall|m: usize|
            m != b ==> (#[trigger] members.filter(other_than(b)).contains(m) <==> members.contains(
                m,
            )),
    decreases members.len(),
{
    reveal(Seq::filter);
    if members.len() > 0 {
        let rest = members.drop_last();
        filtered(rest, b);
        let before = rest.filter(other_than(b));
        assert forall|m: usize|
            members.contains(m) <==> rest.contains(m) || members.last() == m by {
            if members.contains(m) {
                let k = choose|k: int| 0 <= k < members.len() && members[k] == m;
                if k < rest.len() {
                    assert(rest[k] == m);
                }
            }
            if rest.contains(m) {
                let k = choose|k: int| 0 <= k < rest.len() && rest[k] == m;
                assert(members[k] == m);
            }
            if members.last() == m {
                assert(members[members.len() - 1] == m);
            }
        }
        if members.last() != b {
            let after = before.push(members.last());
            assert forall|m: usize|
                #[trigger] after.contains(m) <==> before.contains(m) || members.last() == m by {
                if after.contains(m) {
                    let k = choose|k: int| 0 <= k < after.len() && after[k] == m;
                    if k < before.len() {
                        assert(before[k] == m);
                    }
                }
                if before.contains(m) {
                    let k = choose|k: int| 0 <= k < before.len() && before[k] == m;
                    assert(after[k] == m);
                }
                if members.last() == m {
                    assert(after[before.len() as int] == m);
                }
            }
        }
    }
}

/// Closing a route ends its registrations and no other, and keeps its signal
/// only while a claim may run it. A closed route stays as it is.
pub proof fn closed_routes_hear_nothing(v: NotifyView, route: int, k: int)
    requires
        v.wf(),
        0 <= route < v.routes.len(),
    ensures
        ({
            let w = v.shut(route);
            let r = v.routes[route];
            &&& w.routes[route].closed
            &&& r.closed ==> w == v
            &&& !r.closed ==> (w.routes[route].signal <==> r.claims > 0)
            &&& w.routes[route].claims == r.claims && w.routes[route].epoch == r.epoch
                && w.routes[route].fault == r.fault && w.routes[route].generation == r.generation
                && w.routes[route].queued == r.queued && w.routes[route].handle_alive
                == r.handle_alive && w.routes[route].occupied == r.occupied
            &&& 0 <= k < v.routes.len() && k != route ==> w.routes[k] == v.routes[k]
            &&& 0 <= k < v.bindings.len() && !r.closed ==> {
                &&& v.bindings[k].active && v.bindings[k].route == Some(route as usize)
                    ==> !w.bindings[k].active && w.bindings[k].occupied
                &&& !(v.bindings[k].active && v.bindings[k].route == Some(route as usize))
                    ==> w.bindings[k] == v.bindings[k]
            }
            &&& w.free_routes == v.free_routes && w.free_bindings == v.free_bindings
        }),
{
    if 0 <= k < v.bindings.len() {
        assert(v.binding_ok(k));
    }
}

/// The place of a route is free once its handle is gone and its last claim has
/// ended, and not before.
pub proof fn places_return_after_the_last_claim(v: NotifyView, route: int)
    requires
        v.wf(),
        0 <= route < v.routes.len(),
        v.routes[route].occupied,
        v.routes[route].handle_alive,
    ensures
        ({
            let w = v.dropped(route);
            let r = v.routes[route];
            &&& w.routes[route].closed && !w.routes[route].handle_alive
            &&& w.routes[route].occupied <==> r.claims > 0
            &&& r.claims == 0 ==> w.free_routes == v.free_routes.push(route as usize)
            &&& r.claims > 0 ==> w.free_routes == v.free_routes
        }),
{
}

/// The end of a claim: its fault stays if it is the first. The last claim of a
/// closed route has its signal destroyed before it ends; any other ends at once,
/// and frees the place of a route whose handle is gone.
pub proof fn claims_end_once(
    v: NotifyView,
    route: int,
    fault: Option<SWNotifyFault>,
    panicked: bool,
)
    requires
        v.wf(),
        0 <= route < v.routes.len(),
        v.routes[route].claims > 0,
    ensures
        ({
            let r = v.routes[route];
            let w = v.claim_ended(route, fault);
            let x = w.routes[route];
            let destroys = r.closed && r.claims == 1 && r.signal;
            &&& v.retires(route) <==> destroys
            &&& r.fault is Some ==> x.fault == r.fault
            &&& r.fault is None ==> x.fault == fault
            &&& destroys ==> x.claims == 1 && !x.signal && x.occupied && w.free_routes
                == v.free_routes
            &&& !destroys ==> x.claims + 1 == r.claims
            &&& !destroys && (r.handle_alive || r.claims > 1) ==> x.occupied == r.occupied
                && w.free_routes == v.free_routes
            &&& !destroys && !r.handle_alive && r.claims == 1 ==> !x.occupied && w.free_routes
                == v.free_routes.push(route as usize)
            &&& x.generation == r.generation && x.epoch == r.epoch && x.closed == r.closed
                && x.pending == r.pending
        }),
        ({
            let r = v.routes[route];
            let w = v.retired(route, panicked);
            let x = w.routes[route];
            &&& x.claims + 1 == r.claims
            &&& r.fault is Some ==> x.fault == r.fault
            &&& r.fault is None && panicked ==> x.fault == Some(SWNotifyFault::Panicked)
            &&& r.fault is None && !panicked ==> x.fault is None
            &&& x.occupied <==> r.handle_alive || r.claims > 1
            &&& !r.handle_alive && r.claims == 1 ==> w.free_routes == v.free_routes.push(
                route as usize,
            )
        }),
{
    assert(v.routes[route].wf());
}

/// A stamp tells whether anything happened since it was made: a change, a fault
/// or closure. A route without any of these has not changed.
pub proof fn stamps_tell_of_changes(
    route: SWNotifyRoute,
    v: NotifyView,
    w: NotifyView,
    stamp: SWNotifyStamp,
)
    requires
        v.wf(),
        route.held_in(v),
        stamp == route.stamp(v),
    ensures
        route.made(stamp),
        stamp.seen() == v.routes[route.slot()].epoch,
        route.changed(w, stamp) <==> w.routes[route.slot()].closed || w.routes[
            route.slot()
        ].fault is Some || w.routes[route.slot()].epoch != v.routes[route.slot()].epoch,
{
    route.stamp_reads_back(v);
}

/// A thread runs host signals only outside publications, and not while it runs
/// others already.
pub proof fn signals_run_outside_publications(q: ClaimQueueView)
    ensures
        q.drains() <==> q.depth == 0 && !q.draining,
{
}

/// A watch that is granted leaves a registration of this route, and says whether
/// a claim has to be run for it; a refused one leaves no trace.
pub proof fn watches_are_kept_or_refused(
    before: NotifyView,
    after: NotifyView,
    route: SWNotifyRoute,
    source_runtime: u64,
    serial: u64,
    invoking: bool,
    result: Result<(SWNotifyBinding, bool), SWNotifyError>,
)
    requires
        before.wf(),
        route.held_in(before),
        watching(before, after, route, source_runtime, serial, invoking, result),
    ensures
        ({
            let r = before.routes[route.slot()];
            &&& result is Ok ==> !invoking && source_runtime == before.runtime && !r.closed
                && r.fault is None && before.free_bindings.len() > 0
            &&& result matches Ok(granted) ==> {
                &&& granted.1 <==> r.epoch < u64::MAX && !r.pending && !r.queued
                &&& after.free_bindings.len() + 1 == before.free_bindings.len()
            }
            &&& result is Err ==> after == before
        }),
{
}

} // verus!
