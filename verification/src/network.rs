//! The delivery network: locations, segments and the fixed routing table.

use vstd::prelude::*;

verus! {

/// A node of the delivery network.
#[allow(non_camel_case_types)]
#[derive(Copy, Clone, Debug, PartialEq, Eq, Structural)]
pub enum Location {
    FACTORY,
    PORT,
    A,
    B,
}

/// One leg of a journey: `distance` is the number of ticks it takes.
#[derive(Copy, Clone, Debug, PartialEq, Eq, Structural)]
pub struct Segment {
    pub origin: Location,
    pub destination: Location,
    pub distance: u8,
}

/// Why the library refused a request.
#[derive(Copy, Clone, Debug, PartialEq, Eq, Structural)]
pub enum DeliveryError {
    /// A roadmap has a gap, a leg of no length, or ends at the wrong place.
    InvalidRoute,
    /// A transport was asked for a step that its state does not allow.
    IllegalTransition,
    /// The fleet cannot serve the requested destinations.
    ConfigurationError,
}

/// The routing table: the legs from the factory to `destination`, in order.
pub open spec fn roadmap_of(destination: Location) -> Seq<Segment> {
    match destination {
        Location::FACTORY => Seq::empty(),
        Location::B => seq![
            Segment { origin: Location::FACTORY, destination: Location::B, distance: 5 },
        ],
        Location::A => seq![
            Segment { origin: Location::FACTORY, destination: Location::PORT, distance: 1 },
            Segment { origin: Location::PORT, destination: Location::A, distance: 4 },
        ],
        Location::PORT => seq![
            Segment { origin: Location::FACTORY, destination: Location::PORT, distance: 1 },
        ],
    }
}

/// Leg `i` of `roadmap` starts where the leg before it ends.
pub open spec fn joined(roadmap: Seq<Segment>, i: int) -> bool {
    roadmap[i].origin == roadmap[i - 1].destination
}

/// A roadmap to `destination` is valid when every leg has a positive length,
/// each leg starts where the one before it ends, and the last leg ends at
/// `destination`.
pub open spec fn valid_roadmap(roadmap: Seq<Segment>, destination: Location) -> bool {
    &&& forall|i: int| 0 <= i < roadmap.len() ==> (#[trigger] roadmap[i]).distance >= 1
    &&& forall|i: int| 0 < i < roadmap.len() ==> #[trigger] joined(roadmap, i)
    &&& roadmap.len() > 0 ==> roadmap.last().destination == destination
}

/// Every entry of the routing table is a valid roadmap whose legs start at the
/// factory or at the port.
pub proof fn lemma_table_is_valid(destination: Location)
    ensures
        valid_roadmap(roadmap_of(destination), destination),
        roadmap_of(destination).len() <= 2,
        forall|i: int|
            0 <= i < roadmap_of(destination).len() ==> {
                let origin = (#[trigger] roadmap_of(destination)[i]).origin;
                origin == Location::FACTORY || origin == Location::PORT
            },
{
}

impl Location {
    /// The legs a container travels from the factory to `self`.
    pub fn to_roadmap(self) -> (roadmap: Vec<Segment>)
        ensures
            roadmap@ == roadmap_of(self),
    {
        let mut roadmap: Vec<Segment> = Vec::new();
        match self {
            Location::FACTORY => {},
            Location::B => {
                roadmap.push(
                    Segment { origin: Location::FACTORY, destination: Location::B, distance: 5 },
                );
            },
            Location::A => {
                roadmap.push(
                    Segment { origin: Location::FACTORY, destination: Location::PORT, distance: 1 },
                );
                roadmap.push(
                    Segment { origin: Location::PORT, destination: Location::A, distance: 4 },
                );
            },
            Location::PORT => {
                roadmap.push(
                    Segment { origin: Location::FACTORY, destination: Location::PORT, distance: 1 },
                );
            },
        }
        roadmap
    }
}

/// Checks a roadmap before a container is built on it.
pub fn check_roadmap(roadmap: &Vec<Segment>, destination: Location) -> (r: Result<
    (),
    DeliveryError,
>)
    ensures
        r is Ok <==> valid_roadmap(roadmap@, destination),
        r is Err ==> r == Err::<(), DeliveryError>(DeliveryError::InvalidRoute),
{
    let n = roadmap.len();
    let mut i: usize = 0;
    while i < n
        invariant
            n == roadmap.len(),
            i <= n,
            forall|k: int| 0 <= k < i ==> (#[trigger] roadmap@[k]).distance >= 1,
            forall|k: int| 0 < k < i ==> #[trigger] joined(roadmap@, k),
        decreases n - i,
    {
        if roadmap[i].distance == 0 {
            return Err(DeliveryError::InvalidRoute);
        }
        if i > 0 && roadmap[i].origin != roadmap[i - 1].destination {
            assert(!joined(roadmap@, i as int));
            return Err(DeliveryError::InvalidRoute);
        }
        i += 1;
    }
    if n > 0 && roadmap[n - 1].destination != destination {
        return Err(DeliveryError::InvalidRoute);
    }
    Ok(())
}

} // verus!
