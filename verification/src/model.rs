//! The mathematical model of the simulation: containers, transports and the
//! whole system as plain values, and the tick as a function on them.

use crate::network::{roadmap_of, valid_roadmap, DeliveryError, Location, Segment};
use vstd::prelude::*;

verus! {

/// A container as a value: where it is going, the legs still ahead of it, and
/// whether it has arrived.
pub struct ContainerView {
    pub destination: Location,
    pub roadmap: Seq<Segment>,
    pub delivered: bool,
}

impl ContainerView {
    /// The roadmap is valid, and the container counts as delivered exactly
    /// when no leg is left.
    pub open spec fn wf(self) -> bool {
        &&& valid_roadmap(self.roadmap, self.destination)
        &&& self.delivered <==> self.roadmap.len() == 0
    }

    /// A transport based at `base` may pick this container up.
    pub open spec fn eligible(self, base: Location) -> bool {
        &&& !self.delivered
        &&& self.roadmap.len() > 0
        &&& self.roadmap[0].origin == base
    }

    /// The container after its first leg has been travelled.
    pub open spec fn after_leg(self) -> ContainerView {
        ContainerView {
            destination: self.destination,
            roadmap: self.roadmap.drop_first(),
            delivered: self.roadmap.len() <= 1,
        }
    }
}

/// A loaded transport on its way out.
pub struct ShippingView {
    pub base: Location,
    pub container: ContainerView,
    pub destination: Location,
    pub distance_to_travel: nat,
    pub distance_from_base: nat,
}

impl ShippingView {
    /// The cargo still has a leg ahead, the transport follows that leg, and it
    /// has left its base without having gone further than the leg is long.
    pub open spec fn wf(self) -> bool {
        &&& self.container.wf()
        &&& self.container.roadmap.len() > 0
        &&& self.container.roadmap[0].destination == self.destination
        &&& self.container.roadmap[0].distance == self.distance_to_travel
        &&& 0 < self.distance_from_base <= self.distance_to_travel
    }
}

/// A transport as a value.
pub enum TransportView {
    Waiting { base: Location },
    Shipping(ShippingView),
    ReturningToBase { base: Location, distance_from_base: nat },
}

impl TransportView {
    pub open spec fn base(self) -> Location {
        match self {
            TransportView::Waiting { base } => base,
            TransportView::Shipping(s) => s.base,
            TransportView::ReturningToBase { base, .. } => base,
        }
    }

    /// A transport between two ticks: one that is shipping has not arrived yet.
    pub open spec fn wf(self) -> bool {
        match self {
            TransportView::Shipping(s) => s.wf() && s.distance_from_base < s.distance_to_travel,
            _ => true,
        }
    }
}

/// The three pools that are live while a tick is under way.
pub struct PoolsView {
    /// Containers that wait to be picked up, in pool order.
    pub pending: Seq<ContainerView>,
    /// Containers set down during this tick that have further to go.
    pub unloaded: Seq<ContainerView>,
    /// Containers that have reached their destination.
    pub delivered: Seq<ContainerView>,
}

/// Every container of `pool` is well formed and still has a leg ahead.
pub open spec fn all_on_the_way(pool: Seq<ContainerView>) -> bool {
    forall|i: int| 0 <= i < pool.len() ==> (#[trigger] pool[i]).wf() && !pool[i].delivered
}

/// Every container of `pool` is well formed and has arrived.
pub open spec fn all_arrived(pool: Seq<ContainerView>) -> bool {
    forall|i: int| 0 <= i < pool.len() ==> (#[trigger] pool[i]).wf() && pool[i].delivered
}

impl PoolsView {
    pub open spec fn wf(self) -> bool {
        &&& all_on_the_way(self.pending)
        &&& all_on_the_way(self.unloaded)
        &&& all_arrived(self.delivered)
    }

    /// The number of containers in the three pools together.
    pub open spec fn count(self) -> nat {
        self.pending.len() + self.unloaded.len() + self.delivered.len()
    }
}

/// What one step of one transport gives: its next state and the pools after
/// it, or the reason why the step was refused.
pub type Step = Result<(TransportView, PoolsView), DeliveryError>;

/// The index of the first container at or after `from` that a transport based
/// at `base` may pick up; the length of the pool when there is none.
pub open spec fn first_eligible(pending: Seq<ContainerView>, base: Location, from: nat) -> nat
    decreases pending.len() - from,
{
    if from >= pending.len() {
        pending.len()
    } else if pending[from as int].eligible(base) {
        from
    } else {
        first_eligible(pending, base, from + 1)
    }
}

/// `first_eligible` gives the least index from `from` on at which a container
/// may be picked up, or the length of the pool.
pub proof fn lemma_first_eligible(pending: Seq<ContainerView>, base: Location, from: nat)
    ensures
        first_eligible(pending, base, from) <= pending.len(),
        from <= pending.len() ==> from <= first_eligible(pending, base, from),
        first_eligible(pending, base, from) < pending.len() ==> pending[first_eligible(
            pending,
            base,
            from,
        ) as int].eligible(base),
        forall|j: int|
            from <= j < first_eligible(pending, base, from) ==> !(#[trigger] pending[j]).eligible(
                base,
            ),
    decreases pending.len() - from,
{
    if from < pending.len() && !pending[from as int].eligible(base) {
        lemma_first_eligible(pending, base, from + 1);
    }
}

/// A loaded transport may set its cargo down: it is one tick short of the end
/// of its leg, or it has just picked the cargo up for a leg of one tick.
pub open spec fn can_deliver(s: ShippingView) -> bool {
    &&& s.container.roadmap.len() > 0
    &&& (s.distance_from_base + 1 == s.distance_to_travel || (s.distance_from_base == 1
        && s.distance_to_travel == 1))
}

/// Setting the cargo down: the container loses its first leg and goes to the
/// delivered pool when no leg is left, else to the unloaded pool; the transport
/// turns back, with as many ticks ahead of it as the way out took.
pub open spec fn deliver(s: ShippingView, pools: PoolsView) -> Step {
    if can_deliver(s) {
        let container = s.container.after_leg();
        let transport = TransportView::ReturningToBase {
            base: s.base,
            distance_from_base: (s.distance_to_travel - 1) as nat,
        };
        if container.delivered {
            Ok((transport, PoolsView { delivered: pools.delivered.push(container), ..pools }))
        } else {
            Ok((transport, PoolsView { unloaded: pools.unloaded.push(container), ..pools }))
        }
    } else {
        Err(DeliveryError::IllegalTransition)
    }
}

/// One more tick on the way out.
pub open spec fn move_on(s: ShippingView, pools: PoolsView) -> Step {
    if s.distance_from_base + 1 < s.distance_to_travel {
        Ok(
            (
                TransportView::Shipping(
                    ShippingView { distance_from_base: s.distance_from_base + 1, ..s },
                ),
                pools,
            ),
        )
    } else {
        Err(DeliveryError::IllegalTransition)
    }
}

/// One more tick on the way back; a transport that is back waits.
pub open spec fn head_home(base: Location, distance_from_base: nat) -> TransportView {
    if distance_from_base == 0 {
        TransportView::Waiting { base }
    } else {
        TransportView::ReturningToBase {
            base,
            distance_from_base: (distance_from_base - 1) as nat,
        }
    }
}

/// A waiting transport takes the first container it may pick up, if there is
/// one. The pickup is the first tick of the leg, so a leg of one tick ends at
/// once.
pub open spec fn load(base: Location, pools: PoolsView) -> Step {
    let i = first_eligible(pools.pending, base, 0);
    if i >= pools.pending.len() {
        Ok((TransportView::Waiting { base }, pools))
    } else {
        let container = pools.pending[i as int];
        let leg = container.roadmap[0];
        let rest = PoolsView { pending: pools.pending.remove(i as int), ..pools };
        let shipping = ShippingView {
            base,
            container,
            destination: leg.destination,
            distance_to_travel: leg.distance as nat,
            distance_from_base: 1,
        };
        if leg.distance == 0 {
            Err(DeliveryError::InvalidRoute)
        } else if leg.distance == 1 {
            deliver(shipping, rest)
        } else {
            Ok((TransportView::Shipping(shipping), rest))
        }
    }
}

/// The step of a transport that must be waiting.
pub open spec fn load_waiting(transport: TransportView, pools: PoolsView) -> Step {
    match transport {
        TransportView::Waiting { base } => load(base, pools),
        _ => Err(DeliveryError::IllegalTransition),
    }
}

/// One tick of one transport.
pub open spec fn step(transport: TransportView, pools: PoolsView) -> Step {
    match transport {
        TransportView::Waiting { base } => load(base, pools),
        TransportView::Shipping(s) => if s.distance_from_base + 1 == s.distance_to_travel {
            deliver(s, pools)
        } else {
            move_on(s, pools)
        },
        TransportView::ReturningToBase { base, distance_from_base } => Ok(
            (head_home(base, distance_from_base), pools),
        ),
    }
}

/// What a pass over the first `n` transports gives: their next states and the
/// pools after them.
pub type Sweep = Result<(Seq<TransportView>, PoolsView), DeliveryError>;

/// The first `n` transports of `fleet` take their step one after another, each
/// on the pools that the one before it left.
pub open spec fn sweep(fleet: Seq<TransportView>, pools: PoolsView, n: nat) -> Sweep
    decreases n,
{
    if n == 0 {
        Ok((Seq::empty(), pools))
    } else {
        match sweep(fleet, pools, (n - 1) as nat) {
            Err(e) => Err(e),
            Ok((done, before)) => match step(fleet[n - 1], before) {
                Err(e) => Err(e),
                Ok((transport, after)) => Ok((done.push(transport), after)),
            },
        }
    }
}

/// The number of transports of `fleet` that carry a container.
pub open spec fn shipping_count(fleet: Seq<TransportView>) -> nat
    decreases fleet.len(),
{
    if fleet.len() == 0 {
        0
    } else {
        shipping_count(fleet.drop_last()) + if fleet.last() is Shipping {
            1nat
        } else {
            0nat
        }
    }
}

/// The bases of the transports, in fleet order.
pub open spec fn bases(fleet: Seq<TransportView>) -> Seq<Location> {
    Seq::new(fleet.len(), |i: int| fleet[i].base())
}

/// Every leg of `roadmap` starts at the base of some transport.
pub open spec fn route_served(bases: Seq<Location>, roadmap: Seq<Segment>) -> bool {
    forall|j: int| 0 <= j < roadmap.len() ==> bases.contains((#[trigger] roadmap[j]).origin)
}

/// Every container of `pool` can be carried all its way by the fleet.
pub open spec fn pool_served(bases: Seq<Location>, pool: Seq<ContainerView>) -> bool {
    forall|i: int| 0 <= i < pool.len() ==> route_served(bases, (#[trigger] pool[i]).roadmap)
}

/// The cargo of a loaded transport can be carried all its way by the fleet.
pub open spec fn cargo_served(bases: Seq<Location>, transport: TransportView) -> bool {
    match transport {
        TransportView::Shipping(s) => route_served(bases, s.container.roadmap),
        _ => true,
    }
}

/// The whole system between two ticks.
pub struct SystemView {
    pub pending: Seq<ContainerView>,
    pub delivered: Seq<ContainerView>,
    pub transports: Seq<TransportView>,
    pub tick: nat,
}

impl SystemView {
    pub open spec fn wf(self) -> bool {
        &&& all_on_the_way(self.pending)
        &&& all_arrived(self.delivered)
        &&& forall|i: int| 0 <= i < self.transports.len() ==> (#[trigger] self.transports[i]).wf()
    }

    /// Wherever a container still has to be picked up, a transport is based.
    pub open spec fn covered(self) -> bool {
        &&& pool_served(bases(self.transports), self.pending)
        &&& forall|i: int|
            0 <= i < self.transports.len() ==> cargo_served(
                bases(self.transports),
                #[trigger] self.transports[i],
            )
    }

    /// The pools as the first transport of a tick finds them.
    pub open spec fn pools(self) -> PoolsView {
        PoolsView { pending: self.pending, unloaded: Seq::empty(), delivered: self.delivered }
    }

    /// The containers of the system: pending, under way and delivered.
    pub open spec fn container_count(self) -> nat {
        self.pending.len() + shipping_count(self.transports) + self.delivered.len()
    }

    /// No transport carries a container and no pending container is short of
    /// its destination.
    pub open spec fn is_complete(self) -> bool {
        &&& forall|i: int|
            0 <= i < self.transports.len() ==> !((#[trigger] self.transports[i]) is Shipping)
        &&& forall|i: int| 0 <= i < self.pending.len() ==> (#[trigger] self.pending[i]).delivered
    }

    /// A pass over the whole fleet does not fail.
    pub open spec fn can_advance(self) -> bool {
        sweep(self.transports, self.pools(), self.transports.len()) is Ok
    }

    /// One tick: every transport takes its step in fleet order; what was set
    /// down with further to go joins the pending pool only afterwards.
    pub open spec fn advance(self) -> SystemView {
        let (transports, pools) = sweep(self.transports, self.pools(), self.transports.len())->Ok_0;
        SystemView {
            pending: pools.pending + pools.unloaded,
            delivered: pools.delivered,
            transports,
            tick: self.tick + 1,
        }
    }

    /// The system `n` ticks later.
    pub open spec fn after_ticks(self, n: nat) -> SystemView
        decreases n,
    {
        if n == 0 {
            self
        } else {
            self.after_ticks((n - 1) as nat).advance()
        }
    }

    /// `n` is the first tick count at which the system is complete.
    pub open spec fn completes_at(self, n: nat) -> bool {
        &&& self.after_ticks(n).is_complete()
        &&& forall|k: nat| k < n ==> !(#[trigger] self.after_ticks(k)).is_complete()
    }
}

/// A container fresh from the factory, bound for `destination`.
pub open spec fn new_container(destination: Location) -> ContainerView {
    ContainerView {
        destination,
        roadmap: roadmap_of(destination),
        delivered: roadmap_of(destination).len() == 0,
    }
}

/// The containers for `destinations` that have a way to go, in order.
pub open spec fn initial_pending(destinations: Seq<Location>) -> Seq<ContainerView>
    decreases destinations.len(),
{
    if destinations.len() == 0 {
        Seq::empty()
    } else {
        let before = initial_pending(destinations.drop_last());
        let container = new_container(destinations.last());
        if container.delivered {
            before
        } else {
            before.push(container)
        }
    }
}

/// The containers for `destinations` that are at their destination from the
/// start, in order.
pub open spec fn initial_delivered(destinations: Seq<Location>) -> Seq<ContainerView>
    decreases destinations.len(),
{
    if destinations.len() == 0 {
        Seq::empty()
    } else {
        let before = initial_delivered(destinations.drop_last());
        let container = new_container(destinations.last());
        if container.delivered {
            before.push(container)
        } else {
            before
        }
    }
}

/// The system before the first tick.
pub open spec fn initial_system(
    destinations: Seq<Location>,
    fleet: Seq<TransportView>,
) -> SystemView {
    SystemView {
        pending: initial_pending(destinations),
        delivered: initial_delivered(destinations),
        transports: fleet,
        tick: 0,
    }
}

/// A fleet can serve `destinations`: every transport waits at its base, there
/// is a transport if there is anything to deliver, and every leg of every
/// roadmap starts at the base of some transport.
pub open spec fn valid_configuration(
    destinations: Seq<Location>,
    fleet: Seq<TransportView>,
) -> bool {
    &&& forall|i: int| 0 <= i < fleet.len() ==> (#[trigger] fleet[i]) is Waiting
    &&& destinations.len() > 0 ==> fleet.len() > 0
    &&& forall|i: int|
        0 <= i < destinations.len() ==> route_served(
            bases(fleet),
            roadmap_of(#[trigger] destinations[i]),
        )
}

} // verus!
