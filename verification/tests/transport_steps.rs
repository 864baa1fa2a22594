use delivery_fleet::{
    check_roadmap, Container, DeliveryError, Location, Pools, Segment, Transport,
    TransportReturningToBase, TransportShipping, TransportWaiting,
};

fn waiting(base: Location) -> Transport {
    Transport::Waiting(TransportWaiting { base })
}

fn pools_with(pending: Vec<Container>) -> Pools {
    Pools {
        pending,
        unloaded: vec![],
        delivered: vec![],
    }
}

fn leg(origin: Location, destination: Location, distance: u8) -> Segment {
    Segment {
        origin,
        destination,
        distance,
    }
}

fn shipping(container: Container, distance_from_base: u8) -> TransportShipping {
    let first = container.roadmap[0];
    TransportShipping {
        base: first.origin,
        container,
        destination: first.destination,
        distance_to_travel: first.distance,
        distance_from_base,
    }
}

#[test]
fn routing_table() {
    assert_eq!(Location::FACTORY.to_roadmap(), vec![]);
    assert_eq!(
        Location::B.to_roadmap(),
        vec![leg(Location::FACTORY, Location::B, 5)]
    );
    assert_eq!(
        Location::PORT.to_roadmap(),
        vec![leg(Location::FACTORY, Location::PORT, 1)]
    );
    assert_eq!(
        Location::A.to_roadmap(),
        vec![
            leg(Location::FACTORY, Location::PORT, 1),
            leg(Location::PORT, Location::A, 4)
        ]
    );
}

#[test]
fn new_container_has_its_full_roadmap() {
    let container = Container::new(Location::A);
    assert_eq!(container.destination, Location::A);
    assert_eq!(container.roadmap, Location::A.to_roadmap());
    assert!(!container.is_delivered);
    let at_home = Container::new(Location::FACTORY);
    assert!(at_home.roadmap.is_empty());
    assert!(at_home.is_delivered);
}

#[test]
fn roadmap_checks() {
    let good = vec![
        leg(Location::FACTORY, Location::PORT, 2),
        leg(Location::PORT, Location::A, 3),
    ];
    assert_eq!(Ok(()), check_roadmap(&good, Location::A));
    assert_eq!(Ok(()), check_roadmap(&vec![], Location::B));
    assert_eq!(
        Err(DeliveryError::InvalidRoute),
        check_roadmap(&good, Location::B)
    );
    let gap = vec![
        leg(Location::FACTORY, Location::PORT, 2),
        leg(Location::B, Location::A, 3),
    ];
    assert_eq!(
        Err(DeliveryError::InvalidRoute),
        check_roadmap(&gap, Location::A)
    );
    let no_length = vec![leg(Location::FACTORY, Location::B, 0)];
    assert_eq!(
        Err(DeliveryError::InvalidRoute),
        check_roadmap(&no_length, Location::B)
    );
}

#[test]
fn container_with_its_own_roadmap() {
    let roadmap = vec![leg(Location::FACTORY, Location::B, 2)];
    let container = Container::with_roadmap(Location::B, roadmap.clone()).unwrap();
    assert_eq!(container.destination, Location::B);
    assert_eq!(container.roadmap, roadmap);
    assert!(!container.is_delivered);
    let refused = Container::with_roadmap(Location::A, roadmap);
    assert_eq!(refused.unwrap_err(), DeliveryError::InvalidRoute);
}

#[test]
fn base_of_every_state() {
    assert_eq!(waiting(Location::PORT).base(), Location::PORT);
    let returning = Transport::ReturningToBase(TransportReturningToBase {
        base: Location::FACTORY,
        distance_from_base: 3,
    });
    assert_eq!(returning.base(), Location::FACTORY);
    let loaded = Transport::Shipping(shipping(Container::new(Location::B), 1));
    assert_eq!(loaded.base(), Location::FACTORY);
}

#[test]
fn waiting_transport_with_nothing_to_load_keeps_waiting() {
    let (transport, pools) = waiting(Location::FACTORY)
        .tick(pools_with(vec![]))
        .unwrap();
    assert!(matches!(
        transport,
        Transport::Waiting(TransportWaiting {
            base: Location::FACTORY
        })
    ));
    assert!(pools.pending.is_empty());
    assert!(pools.unloaded.is_empty());
    assert!(pools.delivered.is_empty());
}

#[test]
fn waiting_transport_ignores_cargo_of_another_base() {
    let pending = vec![Container::new(Location::B), Container::new(Location::A)];
    let (transport, pools) = waiting(Location::PORT).tick(pools_with(pending)).unwrap();
    assert!(matches!(transport, Transport::Waiting(_)));
    assert_eq!(pools.pending.len(), 2);
}

#[test]
fn pickup_is_the_first_tick_of_the_leg() {
    let pending = vec![Container::new(Location::B), Container::new(Location::A)];
    let (transport, pools) = waiting(Location::FACTORY)
        .tick(pools_with(pending))
        .unwrap();
    match transport {
        Transport::Shipping(t) => {
            assert_eq!(t.base, Location::FACTORY);
            assert_eq!(t.destination, Location::B);
            assert_eq!(t.distance_to_travel, 5);
            assert_eq!(t.distance_from_base, 1);
            assert_eq!(t.container.destination, Location::B);
            assert_eq!(t.container.roadmap, Location::B.to_roadmap());
            assert!(!t.container.is_delivered);
        }
        _ => panic!("the transport did not load"),
    }
    assert_eq!(pools.pending.len(), 1);
    assert_eq!(pools.pending[0].destination, Location::A);
    assert!(pools.unloaded.is_empty());
    assert!(pools.delivered.is_empty());
}

#[test]
fn pickup_takes_the_first_container_in_pool_order() {
    let at_port = Container {
        destination: Location::A,
        roadmap: vec![leg(Location::PORT, Location::A, 4)],
        is_delivered: false,
    };
    let pending = vec![
        at_port,
        Container::new(Location::B),
        Container::new(Location::A),
    ];
    let (transport, pools) = waiting(Location::FACTORY)
        .tick(pools_with(pending))
        .unwrap();
    match transport {
        Transport::Shipping(t) => assert_eq!(t.destination, Location::B),
        _ => panic!("the transport did not load"),
    }
    assert_eq!(pools.pending.len(), 2);
    assert_eq!(pools.pending[0].roadmap[0].origin, Location::PORT);
    assert_eq!(pools.pending[1].roadmap.len(), 2);
}

#[test]
fn earlier_transport_has_the_first_claim() {
    let pending = vec![Container::new(Location::B)];
    let (first, pools) = waiting(Location::FACTORY)
        .tick(pools_with(pending))
        .unwrap();
    let (second, pools) = waiting(Location::FACTORY).tick(pools).unwrap();
    assert!(matches!(first, Transport::Shipping(_)));
    assert!(matches!(second, Transport::Waiting(_)));
    assert!(pools.pending.is_empty());
}

#[test]
fn leg_of_one_tick_ends_with_the_pickup() {
    let pending = vec![Container::new(Location::A)];
    let (transport, pools) = waiting(Location::FACTORY)
        .tick(pools_with(pending))
        .unwrap();
    match transport {
        Transport::ReturningToBase(t) => {
            assert_eq!(t.base, Location::FACTORY);
            assert_eq!(t.distance_from_base, 0);
        }
        _ => panic!("the transport did not turn back"),
    }
    assert!(pools.pending.is_empty());
    assert!(pools.delivered.is_empty());
    assert_eq!(pools.unloaded.len(), 1);
    assert_eq!(pools.unloaded[0].destination, Location::A);
    assert_eq!(
        pools.unloaded[0].roadmap,
        vec![leg(Location::PORT, Location::A, 4)]
    );
    assert!(!pools.unloaded[0].is_delivered);
}

#[test]
fn unloaded_container_is_not_picked_up_in_the_same_tick() {
    let pending = vec![Container::new(Location::A)];
    let (_, pools) = waiting(Location::FACTORY)
        .tick(pools_with(pending))
        .unwrap();
    let (at_port, pools) = waiting(Location::PORT).tick(pools).unwrap();
    assert!(matches!(at_port, Transport::Waiting(_)));
    assert_eq!(pools.unloaded.len(), 1);
}

#[test]
fn last_leg_of_one_tick_delivers_with_the_pickup() {
    let pending = vec![Container::new(Location::PORT)];
    let (transport, pools) = waiting(Location::FACTORY)
        .tick(pools_with(pending))
        .unwrap();
    assert!(matches!(
        transport,
        Transport::ReturningToBase(TransportReturningToBase {
            base: Location::FACTORY,
            distance_from_base: 0
        })
    ));
    assert!(pools.unloaded.is_empty());
    assert_eq!(pools.delivered.len(), 1);
    assert!(pools.delivered[0].is_delivered);
    assert!(pools.delivered[0].roadmap.is_empty());
    assert_eq!(pools.delivered[0].destination, Location::PORT);
}

#[test]
fn delivered_container_is_never_loaded() {
    let done = Container {
        destination: Location::B,
        roadmap: vec![leg(Location::FACTORY, Location::B, 5)],
        is_delivered: true,
    };
    let (transport, pools) = waiting(Location::FACTORY)
        .tick(pools_with(vec![done]))
        .unwrap();
    assert!(matches!(transport, Transport::Waiting(_)));
    assert_eq!(pools.pending.len(), 1);
}

#[test]
fn loaded_transport_moves_one_tick() {
    let loaded = Transport::Shipping(shipping(Container::new(Location::B), 2));
    let (transport, pools) = loaded
        .tick(pools_with(vec![Container::new(Location::B)]))
        .unwrap();
    match transport {
        Transport::Shipping(t) => {
            assert_eq!(t.distance_from_base, 3);
            assert_eq!(t.distance_to_travel, 5);
            assert_eq!(t.destination, Location::B);
            assert_eq!(t.container.roadmap.len(), 1);
        }
        _ => panic!("the transport did not keep shipping"),
    }
    assert_eq!(pools.pending.len(), 1);
}

#[test]
fn loaded_transport_delivers_one_tick_before_the_full_distance() {
    let loaded = Transport::Shipping(shipping(Container::new(Location::B), 4));
    let (transport, pools) = loaded.tick(pools_with(vec![])).unwrap();
    match transport {
        Transport::ReturningToBase(t) => {
            assert_eq!(t.base, Location::FACTORY);
            assert_eq!(t.distance_from_base, 4);
        }
        _ => panic!("the transport did not turn back"),
    }
    assert_eq!(pools.delivered.len(), 1);
    assert!(pools.delivered[0].is_delivered);
    assert!(pools.delivered[0].roadmap.is_empty());
    assert!(pools.unloaded.is_empty());
}

#[test]
fn way_back_takes_as_long_as_the_way_out() {
    let roadmap = vec![leg(Location::FACTORY, Location::B, 2)];
    let container = Container::with_roadmap(Location::B, roadmap).unwrap();
    let (transport, pools) = waiting(Location::FACTORY)
        .tick(pools_with(vec![container]))
        .unwrap();
    assert!(matches!(transport, Transport::Shipping(_)));
    let (transport, pools) = transport.tick(pools).unwrap();
    match &transport {
        Transport::ReturningToBase(t) => assert_eq!(t.distance_from_base, 1),
        _ => panic!("the transport did not turn back"),
    }
    assert_eq!(pools.delivered.len(), 1);
    let (transport, pools) = transport.tick(pools).unwrap();
    match &transport {
        Transport::ReturningToBase(t) => assert_eq!(t.distance_from_base, 0),
        _ => panic!("the transport is not on its way back"),
    }
    let (transport, _) = transport.tick(pools).unwrap();
    assert!(matches!(transport, Transport::Waiting(_)));
}

#[test]
fn returning_transport_counts_down_and_then_waits() {
    let returning = TransportReturningToBase {
        base: Location::PORT,
        distance_from_base: 2,
    };
    let (transport, pools) = Transport::returning_to_base(returning, pools_with(vec![]));
    assert!(matches!(
        transport,
        Transport::ReturningToBase(TransportReturningToBase {
            base: Location::PORT,
            distance_from_base: 1
        })
    ));
    let back = TransportReturningToBase {
        base: Location::PORT,
        distance_from_base: 0,
    };
    let (transport, _) = Transport::returning_to_base(back, pools);
    assert!(matches!(
        transport,
        Transport::Waiting(TransportWaiting {
            base: Location::PORT
        })
    ));
}

#[test]
fn loading_a_loaded_transport_is_refused() {
    let loaded = Transport::Shipping(shipping(Container::new(Location::B), 1));
    let r = Transport::tick_waiting_transport(loaded, pools_with(vec![Container::new(Location::B)]));
    assert_eq!(r.unwrap_err(), DeliveryError::IllegalTransition);
    let returning = Transport::ReturningToBase(TransportReturningToBase {
        base: Location::FACTORY,
        distance_from_base: 0,
    });
    let r = Transport::tick_waiting_transport(returning, pools_with(vec![]));
    assert_eq!(r.unwrap_err(), DeliveryError::IllegalTransition);
}

#[test]
fn delivering_before_the_end_of_the_leg_is_refused() {
    let r = Transport::delivering(shipping(Container::new(Location::B), 2), pools_with(vec![]));
    assert_eq!(r.unwrap_err(), DeliveryError::IllegalTransition);
    let mut no_cargo_leg = shipping(Container::new(Location::B), 4);
    no_cargo_leg.container.roadmap.clear();
    let r = Transport::delivering(no_cargo_leg, pools_with(vec![]));
    assert_eq!(r.unwrap_err(), DeliveryError::IllegalTransition);
}

#[test]
fn moving_past_the_end_of_the_leg_is_refused() {
    let r = Transport::moving_loaded_transport(
        shipping(Container::new(Location::B), 4),
        pools_with(vec![]),
    );
    assert_eq!(r.unwrap_err(), DeliveryError::IllegalTransition);
    let overshot = Transport::Shipping(shipping(Container::new(Location::B), 5));
    assert_eq!(
        overshot.tick(pools_with(vec![])).unwrap_err(),
        DeliveryError::IllegalTransition
    );
    let (moved, _) = Transport::moving_loaded_transport(
        shipping(Container::new(Location::B), 1),
        pools_with(vec![]),
    )
    .unwrap();
    match moved {
        Transport::Shipping(t) => assert_eq!(t.distance_from_base, 2),
        _ => panic!("the transport did not keep shipping"),
    }
}

#[test]
fn leg_of_no_length_is_refused_at_pickup() {
    let broken = Container {
        destination: Location::B,
        roadmap: vec![leg(Location::FACTORY, Location::B, 0)],
        is_delivered: false,
    };
    let r = waiting(Location::FACTORY).tick(pools_with(vec![broken]));
    assert_eq!(r.unwrap_err(), DeliveryError::InvalidRoute);
}
