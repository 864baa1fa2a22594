//! Why the simulation keeps its containers and comes to an end: the work that
//! is left shrinks with every tick on which anything moves.

use crate::model::{all_arrived, all_on_the_way, initial_delivered, initial_pending};
use crate::model::{bases, cargo_served, deliver, first_eligible, initial_system};
use crate::model::{new_container, valid_configuration};
use crate::model::{lemma_first_eligible, pool_served, route_served, shipping_count, step, sweep};
use crate::model::{can_deliver, ContainerView, PoolsView, ShippingView, SystemView, TransportView};
use crate::network::{joined, lemma_table_is_valid, roadmap_of, Location, Segment};
use vstd::assert_by_contradiction;
use vstd::prelude::*;

verus! {

/// The ticks that the legs of `roadmap` still cost a fleet: each leg out and
/// back, and one tick to turn round.
pub open spec fn route_cost(roadmap: Seq<Segment>) -> nat
    decreases roadmap.len(),
{
    if roadmap.len() == 0 {
        0
    } else {
        2 * (roadmap[0].distance as nat) + 1 + route_cost(roadmap.drop_first())
    }
}

/// The cost of all the roadmaps of a pool.
pub open spec fn pool_cost(pool: Seq<ContainerView>) -> nat
    decreases pool.len(),
{
    if pool.len() == 0 {
        0
    } else {
        pool_cost(pool.drop_last()) + route_cost(pool.last().roadmap)
    }
}

/// The ticks until a transport waits again, and the cost of what its cargo has
/// ahead after the present leg.
pub open spec fn transport_cost(transport: TransportView) -> nat {
    match transport {
        TransportView::Waiting { .. } => 0,
        TransportView::ReturningToBase { distance_from_base, .. } => distance_from_base + 1,
        TransportView::Shipping(s) => (2 * s.distance_to_travel - s.distance_from_base) as nat
            + route_cost(s.container.roadmap.drop_first()),
    }
}

/// The cost of all the transports of a fleet.
pub open spec fn fleet_cost(fleet: Seq<TransportView>) -> nat
    decreases fleet.len(),
{
    if fleet.len() == 0 {
        0
    } else {
        fleet_cost(fleet.drop_last()) + transport_cost(fleet.last())
    }
}

/// The work that is left in a system. It bounds the ticks to completion.
pub open spec fn potential(system: SystemView) -> nat {
    fleet_cost(system.transports) + pool_cost(system.pending)
}

/// 1 for a transport that carries a container, else 0.
pub open spec fn load_of(transport: TransportView) -> nat {
    if transport is Shipping {
        1
    } else {
        0
    }
}

/// A transport that waits and finds nothing to pick up in `pending`.
pub open spec fn idle(transport: TransportView, pending: Seq<ContainerView>) -> bool {
    &&& transport is Waiting
    &&& first_eligible(pending, transport.base(), 0) >= pending.len()
}

/// The cost of the two pools that still hold work.
pub open spec fn pools_cost(pools: PoolsView) -> nat {
    pool_cost(pools.pending) + pool_cost(pools.unloaded)
}

/// The fleet whose bases are `bases` can carry all that `pools` holds.
pub open spec fn pools_served(bases: Seq<Location>, pools: PoolsView) -> bool {
    pool_served(bases, pools.pending) && pool_served(bases, pools.unloaded)
}

/// A container that joins a pool adds the cost of its roadmap.
pub proof fn lemma_pool_cost_push(pool: Seq<ContainerView>, container: ContainerView)
    ensures
        pool_cost(pool.push(container)) == pool_cost(pool) + route_cost(container.roadmap),
{
    assert(pool.push(container).drop_last() =~= pool);
}

/// A container that leaves a pool takes the cost of its roadmap with it.
pub proof fn lemma_pool_cost_remove(pool: Seq<ContainerView>, i: int)
    requires
        0 <= i < pool.len(),
    ensures
        pool_cost(pool.remove(i)) + route_cost(pool[i].roadmap) == pool_cost(pool),
    decreases pool.len(),
{
    if i < pool.len() - 1 {
        lemma_pool_cost_remove(pool.drop_last(), i);
        assert(pool.remove(i).drop_last() =~= pool.drop_last().remove(i));
    }
}

/// Two pools joined cost what they cost apart.
pub proof fn lemma_pool_cost_concat(front: Seq<ContainerView>, back: Seq<ContainerView>)
    ensures
        pool_cost(front + back) == pool_cost(front) + pool_cost(back),
    decreases back.len(),
{
    if back.len() > 0 {
        lemma_pool_cost_concat(front, back.drop_last());
        assert((front + back).drop_last() =~= front + back.drop_last());
    }
}

/// What a container is after a leg, given that it was well formed before.
pub proof fn lemma_after_leg(bases: Seq<Location>, container: ContainerView)
    requires
        container.wf(),
        container.roadmap.len() > 0,
    ensures
        container.after_leg().wf(),
        route_cost(container.roadmap) == 2 * (container.roadmap[0].distance as nat) + 1
            + route_cost(container.after_leg().roadmap),
        container.roadmap[0].distance >= 1,
        route_served(bases, container.roadmap) ==> route_served(
            bases,
            container.after_leg().roadmap,
        ),
{
    let before = container.roadmap;
    let after = before.drop_first();
    assert forall|i: int| 0 < i < after.len() implies #[trigger] joined(after, i) by {
        assert(joined(before, i + 1));
    }
}

/// Setting down: the pools gain the container, at the cost of what it has
/// ahead.
pub proof fn lemma_deliver(bases: Seq<Location>, s: ShippingView, pools: PoolsView)
    requires
        s.wf(),
        can_deliver(s),
        pools.wf(),
    ensures
        deliver(s, pools) is Ok,
        ({
            let (transport, after) = deliver(s, pools)->Ok_0;
            &&& transport == TransportView::ReturningToBase {
                base: s.base,
                distance_from_base: (s.distance_to_travel - 1) as nat,
            }
            &&& after.wf()
            &&& after.pending == pools.pending
            &&& after.count() == pools.count() + 1
            &&& pools_cost(after) == pools_cost(pools) + route_cost(
                s.container.roadmap.drop_first(),
            )
            &&& pools_served(bases, pools) && route_served(bases, s.container.roadmap)
                ==> pools_served(bases, after)
        }),
{
    lemma_after_leg(bases, s.container);
    let container = s.container.after_leg();
    if !container.delivered {
        lemma_pool_cost_push(pools.unloaded, container);
    }
}

/// One step of one well-formed transport on well-formed pools: it is never
/// refused, it keeps the containers, and it costs nothing or lowers the cost;
/// the cost stays only where a waiting transport found nothing to pick up.
pub proof fn lemma_step(bases: Seq<Location>, transport: TransportView, pools: PoolsView)
    requires
        transport.wf(),
        pools.wf(),
    ensures
        step(transport, pools) is Ok,
        ({
            let (next, after) = step(transport, pools)->Ok_0;
            &&& next.wf()
            &&& after.wf()
            &&& next.base() == transport.base()
            &&& after.count() + load_of(next) == pools.count() + load_of(transport)
            &&& transport_cost(next) + pools_cost(after) <= transport_cost(transport) + pools_cost(
                pools,
            )
            &&& transport_cost(next) + pools_cost(after) == transport_cost(transport) + pools_cost(
                pools,
            ) ==> after == pools && idle(transport, pools.pending)
            &&& pools_served(bases, pools) && cargo_served(bases, transport) ==> pools_served(
                bases,
                after,
            ) && cargo_served(bases, next)
        }),
{
    match transport {
        TransportView::Waiting { base } => {
            lemma_first_eligible(pools.pending, base, 0);
            let i = first_eligible(pools.pending, base, 0);
            if i < pools.pending.len() {
                let container = pools.pending[i as int];
                let leg = container.roadmap[0];
                let rest = PoolsView { pending: pools.pending.remove(i as int), ..pools };
                lemma_pool_cost_remove(pools.pending, i as int);
                lemma_after_leg(bases, container);
                let shipping = ShippingView {
                    base,
                    container,
                    destination: leg.destination,
                    distance_to_travel: leg.distance as nat,
                    distance_from_base: 1,
                };
                if leg.distance == 1 {
                    lemma_deliver(bases, shipping, rest);
                }
            }
        },
        TransportView::Shipping(s) => {
            if s.distance_from_base + 1 == s.distance_to_travel {
                lemma_deliver(bases, s, pools);
            }
        },
        TransportView::ReturningToBase { .. } => {},
    }
}

/// What holds of a pass over the first `n` transports of a well-formed fleet.
pub open spec fn sweep_keeps(
    bases: Seq<Location>,
    fleet: Seq<TransportView>,
    pools: PoolsView,
    n: nat,
) -> bool {
    &&& sweep(fleet, pools, n) is Ok
    &&& {
        let (done, after) = sweep(fleet, pools, n)->Ok_0;
        &&& done.len() == n
        &&& forall|i: int|
            0 <= i < n ==> (#[trigger] done[i]).wf() && done[i].base() == fleet[i].base()
        &&& after.wf()
        &&& after.count() + shipping_count(done) == pools.count() + shipping_count(fleet.take(n as int))
        &&& fleet_cost(done) + pools_cost(after) <= fleet_cost(fleet.take(n as int)) + pools_cost(
            pools,
        )
        &&& fleet_cost(done) + pools_cost(after) == fleet_cost(fleet.take(n as int)) + pools_cost(
            pools,
        ) ==> after == pools && forall|i: int|
            0 <= i < n ==> idle(#[trigger] fleet[i], pools.pending)
        &&& pools_served(bases, pools) && (forall|i: int|
            0 <= i < fleet.len() ==> cargo_served(bases, #[trigger] fleet[i])) ==> pools_served(
            bases,
            after,
        ) && forall|i: int| 0 <= i < n ==> cargo_served(bases, #[trigger] done[i])
    }
}

/// A pass over a well-formed fleet is never refused; it keeps the containers
/// and the bases, and the cost of what is left does not rise. The cost stays
/// only where every transport waited and found nothing.
pub proof fn lemma_sweep(bases: Seq<Location>, fleet: Seq<TransportView>, pools: PoolsView, n: nat)
    requires
        n <= fleet.len(),
        forall|i: int| 0 <= i < fleet.len() ==> (#[trigger] fleet[i]).wf(),
        pools.wf(),
    ensures
        sweep_keeps(bases, fleet, pools, n),
    decreases n,
{
    if n > 0 {
        let m = (n - 1) as nat;
        lemma_sweep(bases, fleet, pools, m);
        let (done, before) = sweep(fleet, pools, m)->Ok_0;
        let transport = fleet[n - 1];
        lemma_step(bases, transport, before);
        let (next, _) = step(transport, before)->Ok_0;
        assert(done.push(next).drop_last() =~= done);
        assert(fleet.take(n as int).drop_last() =~= fleet.take(m as int));
    }
}

/// One tick of a well-formed system: it is well formed afterwards, the tick
/// counter is one higher, no container is lost or made, the bases stay, and
/// the work that is left does not grow. Where the fleet covers the roadmaps
/// and the system is not complete, the work shrinks.
pub proof fn lemma_advance(system: SystemView)
    requires
        system.wf(),
    ensures
        system.can_advance(),
        system.advance().wf(),
        system.advance().tick == system.tick + 1,
        system.advance().container_count() == system.container_count(),
        system.advance().transports.len() == system.transports.len(),
        bases(system.advance().transports) == bases(system.transports),
        potential(system.advance()) <= potential(system),
        system.covered() ==> system.advance().covered(),
        system.covered() && !system.is_complete() ==> potential(system.advance()) < potential(
            system,
        ),
{
    let fleet = system.transports;
    let served = bases(fleet);
    lemma_sweep(served, fleet, system.pools(), fleet.len());
    let (done, after) = sweep(fleet, system.pools(), fleet.len())->Ok_0;
    assert(fleet.take(fleet.len() as int) =~= fleet);
    assert(bases(done) =~= served);
    lemma_pool_cost_concat(after.pending, after.unloaded);
    if system.covered() && !system.is_complete() {
        assert_by_contradiction!(potential(system.advance()) < potential(system), {
            // No work was done, so every transport waited and found nothing.
            assert forall|i: int| 0 <= i < fleet.len() implies idle(
                #[trigger] fleet[i],
                system.pending,
            ) by {}
            // Yet a container is pending, and a transport is based where it waits.
            let k = choose|k: int|
                0 <= k < system.pending.len() && !(#[trigger] system.pending[k]).delivered;
            let origin = system.pending[k].roadmap[0].origin;
            let j = choose|j: int| 0 <= j < served.len() && served[j] == origin;
            assert(idle(fleet[j], system.pending));
            lemma_first_eligible(system.pending, origin, 0);
            assert(system.pending[k].eligible(origin));
        });
    }
}

/// The most ticks that the roadmap of one container costs the fleet.
pub const TICKS_PER_CONTAINER: u32 = 12;

/// A fleet of waiting transports has no work of its own.
pub proof fn lemma_waiting_fleet_cost(fleet: Seq<TransportView>)
    requires
        forall|i: int| 0 <= i < fleet.len() ==> (#[trigger] fleet[i]) is Waiting,
    ensures
        fleet_cost(fleet) == 0,
    decreases fleet.len(),
{
    if fleet.len() > 0 {
        lemma_waiting_fleet_cost(fleet.drop_last());
    }
}

/// A fleet of waiting transports carries nothing.
pub proof fn lemma_waiting_fleet_load(fleet: Seq<TransportView>)
    requires
        forall|i: int| 0 <= i < fleet.len() ==> (#[trigger] fleet[i]) is Waiting,
    ensures
        shipping_count(fleet) == 0,
    decreases fleet.len(),
{
    if fleet.len() > 0 {
        lemma_waiting_fleet_load(fleet.drop_last());
    }
}

/// The containers for `destinations` cost the fleet at most twelve ticks each.
pub proof fn lemma_initial_pools(destinations: Seq<Location>)
    ensures
        all_on_the_way(initial_pending(destinations)),
        all_arrived(initial_delivered(destinations)),
        initial_pending(destinations).len() + initial_delivered(destinations).len()
            == destinations.len(),
        pool_cost(initial_pending(destinations)) <= TICKS_PER_CONTAINER * destinations.len(),
    decreases destinations.len(),
{
    if destinations.len() > 0 {
        let destination = destinations.last();
        lemma_initial_pools(destinations.drop_last());
        lemma_table_is_valid(destination);
        let container = new_container(destination);
        reveal_with_fuel(route_cost, 3);
        if !container.delivered {
            assert(initial_pending(destinations).drop_last() =~= initial_pending(
                destinations.drop_last(),
            ));
        }
    }
}

/// Where the fleet serves the roadmap of every destination, it serves every
/// container that starts for them.
pub proof fn lemma_initial_served(bases: Seq<Location>, destinations: Seq<Location>)
    requires
        forall|i: int|
            0 <= i < destinations.len() ==> route_served(
                bases,
                roadmap_of(#[trigger] destinations[i]),
            ),
    ensures
        pool_served(bases, initial_pending(destinations)),
    decreases destinations.len(),
{
    if destinations.len() > 0 {
        let before = destinations.drop_last();
        assert forall|i: int| 0 <= i < before.len() implies route_served(
            bases,
            roadmap_of(#[trigger] before[i]),
        ) by {
            assert(before[i] == destinations[i]);
        }
        lemma_initial_served(bases, before);
        assert(route_served(bases, roadmap_of(destinations[destinations.len() - 1])));
    }
}

/// A run with a fleet that can serve the destinations starts well formed,
/// with one container for each destination and at most twelve ticks of work
/// for each.
pub proof fn lemma_initial_system(destinations: Seq<Location>, fleet: Seq<TransportView>)
    requires
        valid_configuration(destinations, fleet),
    ensures
        initial_system(destinations, fleet).wf(),
        initial_system(destinations, fleet).covered(),
        initial_system(destinations, fleet).container_count() == destinations.len(),
        potential(initial_system(destinations, fleet)) <= TICKS_PER_CONTAINER
            * destinations.len(),
{
    lemma_initial_pools(destinations);
    lemma_initial_served(bases(fleet), destinations);
    lemma_waiting_fleet_cost(fleet);
    lemma_waiting_fleet_load(fleet);
}

} // verus!
