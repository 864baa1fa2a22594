//! What holds of every run: containers are conserved, the tick counter counts
//! up, a served system comes to an end, and the answer is a function of the
//! input.

use crate::model::{initial_system, shipping_count, step, valid_configuration};
use crate::model::{PoolsView, SystemView, TransportView};
use crate::network::{DeliveryError, Location};
use crate::progress::{lemma_advance, lemma_initial_system, potential, TICKS_PER_CONTAINER};
use crate::system::outcome_of;
use vstd::prelude::*;

verus! {

/// A well-formed system stays well formed over any number of ticks, keeps its
/// containers and its coverage, and the work that is left never grows.
pub proof fn lemma_after_ticks(system: SystemView, n: nat)
    requires
        system.wf(),
    ensures
        system.after_ticks(n).wf(),
        system.after_ticks(n).container_count() == system.container_count(),
        system.after_ticks(n).tick == system.tick + n,
        potential(system.after_ticks(n)) <= potential(system),
        system.covered() ==> system.after_ticks(n).covered(),
    decreases n,
{
    if n > 0 {
        lemma_after_ticks(system, (n - 1) as nat);
        lemma_advance(system.after_ticks((n - 1) as nat));
    }
}

/// Ticking once and then `n` times is ticking `n + 1` times.
pub proof fn lemma_after_ticks_shift(system: SystemView, n: nat)
    ensures
        system.advance().after_ticks(n) == system.after_ticks(n + 1),
    decreases n,
{
    if n > 0 {
        lemma_after_ticks_shift(system, (n - 1) as nat);
    } else {
        assert(system.after_ticks(1) == system.after_ticks(0).advance());
    }
}

/// A fleet in which no transport is shipping carries nothing.
pub proof fn lemma_no_shipping(fleet: Seq<TransportView>)
    requires
        forall|i: int| 0 <= i < fleet.len() ==> !((#[trigger] fleet[i]) is Shipping),
    ensures
        shipping_count(fleet) == 0,
    decreases fleet.len(),
{
    if fleet.len() > 0 {
        lemma_no_shipping(fleet.drop_last());
    }
}

/// Conservation: after any number of ticks the containers that are pending,
/// on a transport or delivered are as many as before.
pub proof fn law_conservation(system: SystemView, n: nat)
    requires
        system.wf(),
    ensures
        system.after_ticks(n).container_count() == system.container_count(),
{
    lemma_after_ticks(system, n);
}

/// Conservation from the start: at every tick of a run the containers that are
/// pending, on a transport or delivered are as many as the destinations given.
pub proof fn law_conservation_from_start(
    destinations: Seq<Location>,
    fleet: Seq<TransportView>,
    n: nat,
)
    requires
        valid_configuration(destinations, fleet),
    ensures
        initial_system(destinations, fleet).after_ticks(n).container_count()
            == destinations.len(),
{
    lemma_initial_system(destinations, fleet);
    lemma_after_ticks(initial_system(destinations, fleet), n);
}

/// Completion: in a complete system every container is in the delivered pool
/// and has no leg left.
pub proof fn law_complete_means_delivered(system: SystemView)
    requires
        system.wf(),
        system.is_complete(),
    ensures
        system.pending.len() == 0,
        shipping_count(system.transports) == 0,
        system.delivered.len() == system.container_count(),
        forall|i: int|
            0 <= i < system.delivered.len() ==> (#[trigger] system.delivered[i]).roadmap.len()
                == 0,
{
    if system.pending.len() > 0 {
        assert(system.pending[0].wf() && !system.pending[0].delivered);
    }
    lemma_no_shipping(system.transports);
}

/// Same-tick rule: what a transport does, and what it leaves pending, depend
/// on the pending pool alone. What was set down earlier in the tick has no
/// part in it, and stays where it was put.
pub proof fn law_set_down_is_out_of_reach(
    transport: TransportView,
    first: PoolsView,
    second: PoolsView,
)
    requires
        first.pending == second.pending,
    ensures
        step(transport, first) is Err ==> step(transport, second) is Err && step(
            transport,
            first,
        )->Err_0 == step(transport, second)->Err_0,
        step(transport, first) is Ok ==> {
            let (next, after) = step(transport, first)->Ok_0;
            &&& step(transport, second) is Ok
            &&& next == step(transport, second)->Ok_0.0
            &&& after.pending == step(transport, second)->Ok_0.1.pending
            &&& first.unloaded.is_prefix_of(after.unloaded)
            &&& first.delivered.is_prefix_of(after.delivered)
        },
{
}

/// The tick counter counts the ticks, so it never goes down.
pub proof fn law_tick_counter_counts_up(system: SystemView, m: nat, n: nat)
    requires
        m <= n,
    ensures
        system.after_ticks(n).tick == system.tick + n,
        system.after_ticks(m).tick <= system.after_ticks(n).tick,
    decreases n,
{
    if n > 0 {
        law_tick_counter_counts_up(system, 0, (n - 1) as nat);
    }
    if m > 0 {
        law_tick_counter_counts_up(system, 0, (m - 1) as nat);
    }
}

/// Termination: a well-formed system whose fleet has a transport based
/// wherever a container must be picked up is complete after a number of ticks
/// that the work left in it bounds.
pub proof fn law_termination(system: SystemView) -> (n: nat)
    requires
        system.wf(),
        system.covered(),
    ensures
        n <= potential(system),
        system.completes_at(n),
    decreases potential(system),
{
    if system.is_complete() {
        0
    } else {
        lemma_advance(system);
        let next = system.advance();
        let m = law_termination(next);
        assert forall|k: nat| k < m + 1 implies !(#[trigger] system.after_ticks(k)).is_complete() by {
            if k > 0 {
                lemma_after_ticks_shift(system, (k - 1) as nat);
            }
        }
        lemma_after_ticks_shift(system, m);
        m + 1
    }
}

/// Termination of a run: with a fleet that can serve the destinations, the
/// system is complete after at most twelve ticks for each destination.
pub proof fn law_run_terminates(destinations: Seq<Location>, fleet: Seq<TransportView>) -> (n: nat)
    requires
        valid_configuration(destinations, fleet),
    ensures
        n <= TICKS_PER_CONTAINER * destinations.len(),
        initial_system(destinations, fleet).completes_at(n),
{
    lemma_initial_system(destinations, fleet);
    law_termination(initial_system(destinations, fleet))
}

/// Determinism of the model: a system completes at one tick count only.
pub proof fn law_completion_is_unique(system: SystemView, a: nat, b: nat)
    requires
        system.completes_at(a),
        system.completes_at(b),
    ensures
        a == b,
{
}

/// Determinism: for one list of destinations and one fleet, any two outcomes
/// that `simulate` may give are the same.
pub proof fn law_determinism(
    destinations: Seq<Location>,
    fleet: Seq<TransportView>,
    first: Result<u32, DeliveryError>,
    second: Result<u32, DeliveryError>,
)
    requires
        outcome_of(destinations, fleet, first),
        outcome_of(destinations, fleet, second),
    ensures
        first == second,
{
    if valid_configuration(destinations, fleet) {
        law_completion_is_unique(
            initial_system(destinations, fleet),
            first->Ok_0 as nat,
            second->Ok_0 as nat,
        );
    }
}

} // verus!
