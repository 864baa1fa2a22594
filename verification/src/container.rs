//! Containers and the pools they wait in.

use crate::model::{new_container, ContainerView, PoolsView};
use crate::network::{check_roadmap, lemma_table_is_valid, valid_roadmap};
use crate::network::{DeliveryError, Location, Segment};
use vstd::prelude::*;

verus! {

/// A unit of cargo: its destination, the legs still ahead of it, and whether it
/// has arrived.
#[derive(Clone, Debug)]
pub struct Container {
    pub destination: Location,
    pub roadmap: Vec<Segment>,
    pub is_delivered: bool,
}

impl View for Container {
    type V = ContainerView;

    open spec fn view(&self) -> ContainerView {
        ContainerView {
            destination: self.destination,
            roadmap: self.roadmap@,
            delivered: self.is_delivered,
        }
    }
}

impl Container {
    /// A container at the factory, with the roadmap that the routing table
    /// gives for `destination`. One bound for the factory itself has arrived.
    pub fn new(destination: Location) -> (container: Container)
        ensures
            container@ == new_container(destination),
            container@.wf(),
    {
        let roadmap = destination.to_roadmap();
        let is_delivered = roadmap.len() == 0;
        proof {
            lemma_table_is_valid(destination);
        }
        Container { destination, roadmap, is_delivered }
    }

    /// A container with a roadmap of the caller's own, which is checked first.
    pub fn with_roadmap(destination: Location, roadmap: Vec<Segment>) -> (r: Result<
        Container,
        DeliveryError,
    >)
        ensures
            match r {
                Ok(container) => {
                    &&& valid_roadmap(roadmap@, destination)
                    &&& container.destination == destination
                    &&& container.roadmap == roadmap
                    &&& container.is_delivered <==> roadmap@.len() == 0
                    &&& container@.wf()
                },
                Err(e) => !valid_roadmap(roadmap@, destination) && e == DeliveryError::InvalidRoute,
            },
    {
        match check_roadmap(&roadmap, destination) {
            Ok(()) => {
                let is_delivered = roadmap.len() == 0;
                Ok(Container { destination, roadmap, is_delivered })
            },
            Err(e) => Err(e),
        }
    }
}

/// The containers of a pool as values, in pool order.
pub open spec fn container_views(pool: Seq<Container>) -> Seq<ContainerView> {
    Seq::new(pool.len(), |i: int| pool[i]@)
}

/// The pools that are handed from transport to transport during a tick.
#[derive(Clone, Debug)]
pub struct Pools {
    /// Containers that wait to be picked up.
    pub pending: Vec<Container>,
    /// Containers set down during this tick that have further to go.
    pub unloaded: Vec<Container>,
    /// Containers that have reached their destination.
    pub delivered: Vec<Container>,
}

impl View for Pools {
    type V = PoolsView;

    open spec fn view(&self) -> PoolsView {
        PoolsView {
            pending: container_views(self.pending@),
            unloaded: container_views(self.unloaded@),
            delivered: container_views(self.delivered@),
        }
    }
}

} // verus!
