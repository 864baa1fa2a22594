//! The transport state machine: waiting, shipping, returning to base.

use crate::container::{container_views, Container, Pools};
use crate::model::{deliver, first_eligible, head_home, load, load_waiting, move_on, step};
use crate::model::{lemma_first_eligible, ShippingView, Step, TransportView};
use crate::network::{DeliveryError, Location};
use vstd::prelude::*;

verus! {

/// A transport that stands at its base.
#[derive(Clone, Debug)]
pub struct TransportWaiting {
    pub base: Location,
}

/// A transport that carries a container along the first leg of its roadmap.
#[derive(Clone, Debug)]
pub struct TransportShipping {
    pub base: Location,
    pub container: Container,
    pub destination: Location,
    pub distance_to_travel: u8,
    pub distance_from_base: u8,
}

/// An empty transport on its way back.
#[derive(Clone, Debug)]
pub struct TransportReturningToBase {
    pub base: Location,
    pub distance_from_base: u8,
}

/// A member of the fleet, in one of its three states.
#[derive(Clone, Debug)]
pub enum Transport {
    Waiting(TransportWaiting),
    ReturningToBase(TransportReturningToBase),
    Shipping(TransportShipping),
}

impl View for TransportShipping {
    type V = ShippingView;

    open spec fn view(&self) -> ShippingView {
        ShippingView {
            base: self.base,
            container: self.container@,
            destination: self.destination,
            distance_to_travel: self.distance_to_travel as nat,
            distance_from_base: self.distance_from_base as nat,
        }
    }
}

impl View for Transport {
    type V = TransportView;

    open spec fn view(&self) -> TransportView {
        match self {
            Transport::Waiting(t) => TransportView::Waiting { base: t.base },
            Transport::Shipping(t) => TransportView::Shipping(t@),
            Transport::ReturningToBase(t) => TransportView::ReturningToBase {
                base: t.base,
                distance_from_base: t.distance_from_base as nat,
            },
        }
    }
}

/// The transports of a fleet as values, in fleet order.
pub open spec fn transport_views(fleet: Seq<Transport>) -> Seq<TransportView> {
    Seq::new(fleet.len(), |i: int| fleet[i]@)
}

/// The outcome of a step as a value.
pub open spec fn step_view(r: Result<(Transport, Pools), DeliveryError>) -> Step {
    match r {
        Ok((transport, pools)) => Ok((transport@, pools@)),
        Err(e) => Err(e),
    }
}

/// The first pending container that a transport based at `base` may pick up.
fn find_eligible(pending: &Vec<Container>, base: Location) -> (i: usize)
    ensures
        i == first_eligible(container_views(pending@), base, 0),
{
    let ghost views = container_views(pending@);
    let mut i: usize = 0;
    while i < pending.len()
        invariant
            i <= pending.len(),
            views == container_views(pending@),
            first_eligible(views, base, 0) == first_eligible(views, base, i as nat),
        decreases pending.len() - i,
    {
        let container = &pending[i];
        if !container.is_delivered && container.roadmap.len() > 0 && container.roadmap[0].origin
            == base {
            return i;
        }
        i += 1;
    }
    i
}

/// A waiting transport based at `base` looks for cargo.
fn loading(base: Location, pools: Pools) -> (r: Result<(Transport, Pools), DeliveryError>)
    ensures
        step_view(r) == load(base, pools@),
{
    let i = find_eligible(&pools.pending, base);
    proof {
        lemma_first_eligible(pools@.pending, base, 0);
    }
    if i >= pools.pending.len() {
        return Ok((Transport::Waiting(TransportWaiting { base }), pools));
    }
    let mut pools = pools;
    let ghost before = pools@;
    let container = pools.pending.remove(i);
    assert(pools@.pending =~= before.pending.remove(i as int));
    let distance_to_travel = container.roadmap[0].distance;
    let destination = container.roadmap[0].destination;
    if distance_to_travel == 0 {
        return Err(DeliveryError::InvalidRoute);
    }
    let transport = TransportShipping {
        base,
        container,
        destination,
        distance_to_travel,
        distance_from_base: 1,
    };
    if distance_to_travel == 1 {
        Transport::delivering(transport, pools)
    } else {
        Ok((Transport::Shipping(transport), pools))
    }
}

impl Transport {
    /// Where the transport is based.
    pub fn base(&self) -> (base: Location)
        ensures
            base == self@.base(),
    {
        match self {
            Transport::Waiting(t) => t.base,
            Transport::ReturningToBase(t) => t.base,
            Transport::Shipping(t) => t.base,
        }
    }

    /// The step of a waiting transport: it takes the first pending container
    /// whose next leg starts at its base, if there is one, and travels the
    /// first tick of that leg. A transport in another state is refused.
    pub fn tick_waiting_transport(transport: Transport, pools: Pools) -> (r: Result<
        (Transport, Pools),
        DeliveryError,
    >)
        ensures
            step_view(r) == load_waiting(transport@, pools@),
    {
        match transport {
            Transport::Waiting(t) => loading(t.base, pools),
            _ => Err(DeliveryError::IllegalTransition),
        }
    }

    /// A loaded transport travels one more tick. One that would arrive or
    /// overshoot with that tick is refused.
    pub fn moving_loaded_transport(transport: TransportShipping, pools: Pools) -> (r: Result<
        (Transport, Pools),
        DeliveryError,
    >)
        ensures
            step_view(r) == move_on(transport@, pools@),
            r is Ok ==> r->Ok_0.1 == pools,
    {
        if transport.distance_from_base < transport.distance_to_travel
            && transport.distance_from_base + 1 < transport.distance_to_travel {
            Ok(
                (
                    Transport::Shipping(
                        TransportShipping {
                            base: transport.base,
                            container: transport.container,
                            destination: transport.destination,
                            distance_from_base: transport.distance_from_base + 1,
                            distance_to_travel: transport.distance_to_travel,
                        },
                    ),
                    pools,
                ),
            )
        } else {
            Err(DeliveryError::IllegalTransition)
        }
    }

    /// A loaded transport sets its cargo down and turns back. The container
    /// loses the leg just travelled; with no leg left it is delivered, else it
    /// waits among the unloaded ones for the next tick. A transport that is not
    /// at the end of its leg, or whose cargo has no leg, is refused.
    pub fn delivering(transport: TransportShipping, pools: Pools) -> (r: Result<
        (Transport, Pools),
        DeliveryError,
    >)
        ensures
            step_view(r) == deliver(transport@, pools@),
    {
        let arrives = (transport.distance_from_base < transport.distance_to_travel
            && transport.distance_from_base + 1 == transport.distance_to_travel) || (
        transport.distance_from_base == 1 && transport.distance_to_travel == 1);
        if transport.container.roadmap.len() == 0 || !arrives {
            return Err(DeliveryError::IllegalTransition);
        }
        let ghost before = pools@;
        let returning_to_base = Transport::ReturningToBase(
            TransportReturningToBase {
                base: transport.base,
                distance_from_base: transport.distance_to_travel - 1,
            },
        );
        let destination = transport.container.destination;
        let mut roadmap = transport.container.roadmap;
        roadmap.remove(0);
        let is_delivered = roadmap.len() == 0;
        let container = Container { destination, roadmap, is_delivered };
        let mut pools = pools;
        if is_delivered {
            pools.delivered.push(container);
            assert(pools@.delivered =~= before.delivered.push(container@));
        } else {
            pools.unloaded.push(container);
            assert(pools@.unloaded =~= before.unloaded.push(container@));
        }
        Ok((returning_to_base, pools))
    }

    /// An empty transport travels one tick towards its base; one that is back
    /// waits there.
    pub fn returning_to_base(transport: TransportReturningToBase, pools: Pools) -> (r: (
        Transport,
        Pools,
    ))
        ensures
            r.0@ == head_home(transport.base, transport.distance_from_base as nat),
            r.1 == pools,
    {
        let transport = if transport.distance_from_base == 0 {
            Transport::Waiting(TransportWaiting { base: transport.base })
        } else {
            Transport::ReturningToBase(
                TransportReturningToBase {
                    base: transport.base,
                    distance_from_base: transport.distance_from_base - 1,
                },
            )
        };
        (transport, pools)
    }

    /// One tick of the transport, on the pools as the transports before it in
    /// the fleet left them.
    pub fn tick(self, pools: Pools) -> (r: Result<(Transport, Pools), DeliveryError>)
        ensures
            step_view(r) == step(self@, pools@),
    {
        match self {
            Transport::Waiting(t) => Transport::tick_waiting_transport(
                Transport::Waiting(t),
                pools,
            ),
            Transport::Shipping(transport) => {
                if transport.distance_from_base < transport.distance_to_travel
                    && transport.distance_from_base + 1 == transport.distance_to_travel {
                    Transport::delivering(transport, pools)
                } else {
                    Transport::moving_loaded_transport(transport, pools)
                }
            },
            Transport::ReturningToBase(transport) => Ok(
                Transport::returning_to_base(transport, pools),
            ),
        }
    }
}

} // verus!
