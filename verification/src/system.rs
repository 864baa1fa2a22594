//! The delivery system: the fleet, the pools and the tick counter, and the run
//! to completion.

use crate::container::{container_views, Container, Pools};
use crate::model::{bases, initial_delivered, initial_pending, initial_system, route_served};
use crate::model::{shipping_count, sweep, valid_configuration, SystemView, TransportView};
use crate::network::{lemma_table_is_valid, roadmap_of, DeliveryError, Location, Segment};
use crate::progress::{lemma_advance, lemma_initial_system, lemma_sweep};
use crate::progress::{potential, TICKS_PER_CONTAINER};
use crate::transport::{transport_views, Transport, TransportWaiting};
use vstd::prelude::*;

verus! {

/// The most containers a run is asked to deliver: with more, the tick counter
/// might not hold the answer.
pub const MAX_CONTAINERS: usize = 357_913_941;

/// The fleet, the containers that wait and those that have arrived, and the
/// number of ticks that have passed.
pub struct DeliverySystem {
    pending: Vec<Container>,
    delivered: Vec<Container>,
    transports: Vec<Transport>,
    tick: u32,
}

impl View for DeliverySystem {
    type V = SystemView;

    closed spec fn view(&self) -> SystemView {
        SystemView {
            pending: container_views(self.pending@),
            delivered: container_views(self.delivered@),
            transports: transport_views(self.transports@),
            tick: self.tick as nat,
        }
    }
}

/// Whether some transport of the fleet is based at `origin`.
fn is_served(transports: &Vec<Transport>, origin: Location) -> (served: bool)
    ensures
        served == bases(transport_views(transports@)).contains(origin),
{
    let ghost all = bases(transport_views(transports@));
    let mut i: usize = 0;
    while i < transports.len()
        invariant
            i <= transports.len(),
            all == bases(transport_views(transports@)),
            forall|k: int| 0 <= k < i ==> all[k] != origin,
        decreases transports.len() - i,
    {
        if transports[i].base() == origin {
            assert(all[i as int] == origin);
            return true;
        }
        i += 1;
    }
    false
}

/// Whether every leg of `roadmap` starts at the base of some transport.
fn is_route_served(transports: &Vec<Transport>, roadmap: &Vec<Segment>) -> (served: bool)
    ensures
        served == route_served(bases(transport_views(transports@)), roadmap@),
{
    let mut j: usize = 0;
    while j < roadmap.len()
        invariant
            j <= roadmap.len(),
            forall|k: int|
                0 <= k < j ==> bases(transport_views(transports@)).contains(
                    (#[trigger] roadmap@[k]).origin,
                ),
        decreases roadmap.len() - j,
    {
        if !is_served(transports, roadmap[j].origin) {
            return false;
        }
        j += 1;
    }
    true
}

/// Whether every transport of the fleet waits at its base.
fn all_waiting(transports: &Vec<Transport>) -> (waiting: bool)
    ensures
        waiting == forall|i: int|
            0 <= i < transports@.len() ==> (#[trigger] transport_views(transports@)[i]) is Waiting,
{
    let mut i: usize = 0;
    while i < transports.len()
        invariant
            i <= transports.len(),
            forall|k: int|
                0 <= k < i ==> (#[trigger] transport_views(transports@)[k]) is Waiting,
        decreases transports.len() - i,
    {
        match &transports[i] {
            Transport::Waiting(_) => {},
            _ => {
                assert(!(transport_views(transports@)[i as int] is Waiting));
                return false;
            },
        }
        i += 1;
    }
    true
}

impl DeliverySystem {
    /// What every system keeps between two ticks: its containers and
    /// transports are well formed, and wherever a container still has to be
    /// picked up a transport is based.
    pub open spec fn wf(&self) -> bool {
        self@.wf() && self@.covered()
    }

    /// A system with one container for each destination, in order, and the
    /// given fleet. The fleet is refused unless every transport waits, there
    /// is a transport if there is a destination, and every leg of every
    /// roadmap starts at some transport's base.
    pub fn new(destinations: Vec<Location>, transports: Vec<Transport>) -> (r: Result<
        DeliverySystem,
        DeliveryError,
    >)
        ensures
            match r {
                Ok(system) => {
                    &&& valid_configuration(destinations@, transport_views(transports@))
                    &&& system@ == initial_system(destinations@, transport_views(transports@))
                    &&& system.wf()
                },
                Err(e) => {
                    &&& !valid_configuration(destinations@, transport_views(transports@))
                    &&& e == DeliveryError::ConfigurationError
                },
            },
    {
        let ghost fleet = transport_views(transports@);
        if !all_waiting(&transports) {
            return Err(DeliveryError::ConfigurationError);
        }
        if destinations.len() > 0 && transports.len() == 0 {
            return Err(DeliveryError::ConfigurationError);
        }
        let mut pending: Vec<Container> = Vec::new();
        let mut delivered: Vec<Container> = Vec::new();
        let mut i: usize = 0;
        while i < destinations.len()
            invariant
                i <= destinations.len(),
                fleet == transport_views(transports@),
                container_views(pending@) == initial_pending(destinations@.take(i as int)),
                container_views(delivered@) == initial_delivered(destinations@.take(i as int)),
                forall|k: int|
                    0 <= k < i ==> route_served(bases(fleet), roadmap_of(#[trigger] destinations@[k])),
            decreases destinations.len() - i,
        {
            let container = Container::new(destinations[i]);
            if !is_route_served(&transports, &container.roadmap) {
                return Err(DeliveryError::ConfigurationError);
            }
            assert(destinations@.take(i + 1).drop_last() =~= destinations@.take(i as int));
            if container.is_delivered {
                delivered.push(container);
            } else {
                pending.push(container);
            }
            i += 1;
        }
        assert(destinations@.take(i as int) =~= destinations@);
        proof {
            lemma_initial_system(destinations@, fleet);
        }
        Ok(DeliverySystem { pending, delivered, transports, tick: 0 })
    }

    /// One tick: every transport takes its step, in fleet order, on the pools
    /// as the one before it left them. What was set down with further to go
    /// joins the pending pool at the end of the tick.
    pub fn tick(self) -> (next: DeliverySystem)
        requires
            self.wf(),
            self@.tick < u32::MAX,
        ensures
            next@ == self@.advance(),
            next.wf(),
            next@.tick == self@.tick + 1,
            next@.container_count() == self@.container_count(),
            potential(next@) <= potential(self@),
            !self@.is_complete() ==> potential(next@) < potential(self@),
    {
        let ghost fleet = transport_views(self.transports@);
        let ghost start = self@.pools();
        let ghost served = bases(fleet);
        proof {
            lemma_advance(self@);
        }
        let tick = self.tick;
        let transports = self.transports;
        let ghost ordered = transports@;
        let mut new_transports: Vec<Transport> = Vec::new();
        let mut pools = Pools {
            pending: self.pending,
            unloaded: Vec::new(),
            delivered: self.delivered,
        };
        assert(pools@.unloaded =~= Seq::empty());
        assert(transport_views(new_transports@) =~= Seq::<TransportView>::empty());
        for transport in it: transports.into_iter()
            invariant
                it.seq() == ordered,
                fleet == transport_views(ordered),
                forall|i: int| 0 <= i < fleet.len() ==> (#[trigger] fleet[i]).wf(),
                start.wf(),
                sweep(fleet, start, it.index() as nat) == Ok::<_, DeliveryError>(
                    (transport_views(new_transports@), pools@),
                ),
        {
            let ghost n = it.index() as nat;
            let ghost done = transport_views(new_transports@);
            proof {
                lemma_sweep(served, fleet, start, n + 1);
            }
            let (new_transport, next_pools) = transport.tick(pools).unwrap();
            new_transports.push(new_transport);
            pools = next_pools;
            assert(transport_views(new_transports@) =~= done.push(new_transport@));
        }
        let Pools { pending: mut containers, unloaded: mut unloaded_containers, delivered } = pools;
        let ghost waiting = container_views(containers@);
        let ghost unloaded = container_views(unloaded_containers@);
        containers.append(&mut unloaded_containers);
        assert(container_views(containers@) =~= waiting + unloaded);
        DeliverySystem {
            pending: containers,
            delivered,
            transports: new_transports,
            tick: tick + 1,
        }
    }

    /// Whether the run is over: no transport carries a container and no
    /// pending container is short of its destination.
    pub fn all_are_delivered(&self) -> (done: bool)
        ensures
            done == self@.is_complete(),
    {
        let mut i: usize = 0;
        while i < self.transports.len()
            invariant
                i <= self.transports.len(),
                forall|k: int| 0 <= k < i ==> !((#[trigger] self@.transports[k]) is Shipping),
            decreases self.transports.len() - i,
        {
            match &self.transports[i] {
                Transport::Shipping(_) => {
                    assert(self@.transports[i as int] is Shipping);
                    return false;
                },
                _ => {},
            }
            i += 1;
        }
        let mut j: usize = 0;
        while j < self.pending.len()
            invariant
                j <= self.pending.len(),
                forall|k: int| 0 <= k < j ==> (#[trigger] self@.pending[k]).delivered,
            decreases self.pending.len() - j,
        {
            if !self.pending[j].is_delivered {
                assert(!self@.pending[j as int].delivered);
                return false;
            }
            j += 1;
        }
        true
    }

    /// The number of ticks that have passed.
    pub fn tick_count(&self) -> (ticks: u32)
        ensures
            ticks == self@.tick,
    {
        self.tick
    }

    /// The number of containers that wait to be picked up.
    pub fn pending_count(&self) -> (count: usize)
        ensures
            count == self@.pending.len(),
    {
        self.pending.len()
    }

    /// The number of containers that have reached their destination.
    pub fn delivered_count(&self) -> (count: usize)
        ensures
            count == self@.delivered.len(),
    {
        self.delivered.len()
    }

    /// The number of containers that are on a transport.
    pub fn shipping_count(&self) -> (count: usize)
        ensures
            count == shipping_count(self@.transports),
    {
        let ghost fleet = self@.transports;
        let mut count: usize = 0;
        let mut i: usize = 0;
        while i < self.transports.len()
            invariant
                i <= self.transports.len(),
                fleet == self@.transports,
                count <= i,
                count == shipping_count(fleet.take(i as int)),
            decreases self.transports.len() - i,
        {
            assert(fleet.take(i + 1).drop_last() =~= fleet.take(i as int));
            match &self.transports[i] {
                Transport::Shipping(_) => {
                    count += 1;
                },
                _ => {},
            }
            i += 1;
        }
        assert(fleet.take(i as int) =~= fleet);
        count
    }
}

/// The fleet of `run` as values: two transports at the factory, one at the
/// port.
pub open spec fn standard_fleet() -> Seq<TransportView> {
    seq![
        TransportView::Waiting { base: Location::FACTORY },
        TransportView::Waiting { base: Location::FACTORY },
        TransportView::Waiting { base: Location::PORT },
    ]
}

/// What a run on `destinations` with `fleet` gives: for a fleet that can serve
/// the destinations, the first tick count at which the system is complete;
/// for any other fleet, a configuration error.
pub open spec fn outcome_of(
    destinations: Seq<Location>,
    fleet: Seq<TransportView>,
    r: Result<u32, DeliveryError>,
) -> bool {
    match r {
        Ok(ticks) => {
            &&& valid_configuration(destinations, fleet)
            &&& initial_system(destinations, fleet).completes_at(ticks as nat)
        },
        Err(e) => {
            &&& !valid_configuration(destinations, fleet)
            &&& e == DeliveryError::ConfigurationError
        },
    }
}

/// The number of ticks until every container for `destinations` has arrived,
/// with the given fleet. A fleet that cannot serve the destinations is refused
/// before the first tick.
pub fn simulate(destinations: Vec<Location>, fleet: Vec<Transport>) -> (r: Result<
    u32,
    DeliveryError,
>)
    requires
        destinations.len() <= MAX_CONTAINERS,
    ensures
        outcome_of(destinations@, transport_views(fleet@), r),
{
    let ghost start = initial_system(destinations@, transport_views(fleet@));
    let mut system = match DeliverySystem::new(destinations, fleet) {
        Ok(system) => system,
        Err(e) => {
            return Err(e);
        },
    };
    proof {
        lemma_initial_system(destinations@, start.transports);
    }
    while !system.all_are_delivered()
        invariant
            system.wf(),
            system@ == start.after_ticks(system@.tick),
            system@.tick + potential(system@) <= TICKS_PER_CONTAINER * MAX_CONTAINERS,
            forall|k: nat| k < system@.tick ==> !(#[trigger] start.after_ticks(k)).is_complete(),
        decreases potential(system@),
    {
        system = system.tick();
    }
    Ok(system.tick_count())
}

/// The number of ticks until every container has arrived, with two transports
/// based at the factory and one at the port.
pub fn run(containers: Vec<Location>) -> (ticks: u32)
    requires
        containers.len() <= MAX_CONTAINERS,
    ensures
        initial_system(containers@, standard_fleet()).completes_at(ticks as nat),
{
    let mut fleet: Vec<Transport> = Vec::new();
    fleet.push(Transport::Waiting(TransportWaiting { base: Location::FACTORY }));
    fleet.push(Transport::Waiting(TransportWaiting { base: Location::FACTORY }));
    fleet.push(Transport::Waiting(TransportWaiting { base: Location::PORT }));
    proof {
        let views = transport_views(fleet@);
        assert(views =~= standard_fleet());
        assert(bases(views)[0] == Location::FACTORY);
        assert(bases(views)[2] == Location::PORT);
        assert forall|i: int| 0 <= i < containers@.len() implies route_served(
            bases(views),
            roadmap_of(#[trigger] containers@[i]),
        ) by {
            lemma_table_is_valid(containers@[i]);
        }
    }
    simulate(containers, fleet).unwrap()
}

} // verus!
