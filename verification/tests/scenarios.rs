use delivery_fleet::{run, simulate, DeliveryError, Location, Transport, TransportWaiting};

fn waiting(base: Location) -> Transport {
    Transport::Waiting(TransportWaiting { base })
}

#[test]
fn test_complete() {
    assert_eq!(
        29,
        run(vec![
            Location::A,
            Location::A,
            Location::B,
            Location::A,
            Location::B,
            Location::B,
            Location::A,
            Location::B
        ])
    )
}

#[test]
fn single_container_single_leg() {
    let fleet = vec![waiting(Location::FACTORY), waiting(Location::FACTORY)];
    assert_eq!(Ok(5), simulate(vec![Location::B], fleet));
}

#[test]
fn two_containers_two_transports() {
    let fleet = vec![waiting(Location::FACTORY), waiting(Location::FACTORY)];
    assert_eq!(Ok(5), simulate(vec![Location::B, Location::B], fleet));
}

#[test]
fn third_container_waits_for_a_transport() {
    let fleet = vec![waiting(Location::FACTORY), waiting(Location::FACTORY)];
    assert_eq!(
        Ok(15),
        simulate(vec![Location::B, Location::B, Location::B], fleet)
    );
}

#[test]
fn one_transport_makes_every_trip() {
    let fleet = vec![waiting(Location::FACTORY)];
    assert_eq!(Ok(15), simulate(vec![Location::B, Location::B], fleet));
}

#[test]
fn route_over_the_port() {
    let fleet = vec![waiting(Location::FACTORY), waiting(Location::PORT)];
    assert_eq!(Ok(5), simulate(vec![Location::A], fleet));
}

#[test]
fn mixed_fleet_and_destinations() {
    let fleet = vec![
        waiting(Location::FACTORY),
        waiting(Location::FACTORY),
        waiting(Location::PORT),
    ];
    let destinations = vec![
        Location::A,
        Location::A,
        Location::B,
        Location::A,
        Location::B,
        Location::B,
        Location::A,
        Location::B,
    ];
    assert_eq!(Ok(29), simulate(destinations, fleet));
}

#[test]
fn run_to_the_port() {
    assert_eq!(1, run(vec![Location::PORT]));
}

#[test]
fn run_one_to_b() {
    assert_eq!(5, run(vec![Location::B]));
}

#[test]
fn run_two_to_b() {
    assert_eq!(5, run(vec![Location::B, Location::B]));
}

#[test]
fn run_three_to_b() {
    assert_eq!(15, run(vec![Location::B, Location::B, Location::B]));
}

#[test]
fn run_one_to_a() {
    assert_eq!(5, run(vec![Location::A]));
}

#[test]
fn run_two_to_a() {
    assert_eq!(13, run(vec![Location::A, Location::A]));
}

#[test]
fn run_a_and_b() {
    assert_eq!(5, run(vec![Location::A, Location::B]));
}

#[test]
fn run_two_b_then_a() {
    assert_eq!(15, run(vec![Location::B, Location::B, Location::A]));
}

#[test]
fn run_a_then_two_b() {
    assert_eq!(7, run(vec![Location::A, Location::B, Location::B]));
}

#[test]
fn nothing_to_deliver_takes_no_tick() {
    assert_eq!(0, run(vec![]));
    assert_eq!(Ok(0), simulate(vec![], vec![]));
}

#[test]
fn container_for_the_factory_has_arrived() {
    assert_eq!(0, run(vec![Location::FACTORY]));
    assert_eq!(5, run(vec![Location::FACTORY, Location::B]));
}

#[test]
fn same_input_same_answer() {
    let destinations = vec![Location::A, Location::B, Location::B, Location::A];
    let first = run(destinations.clone());
    let second = run(destinations);
    assert_eq!(first, second);
    assert_eq!(15, first);
}

#[test]
fn empty_fleet_is_refused() {
    assert_eq!(
        Err(DeliveryError::ConfigurationError),
        simulate(vec![Location::B], vec![])
    );
    assert_eq!(
        Err(DeliveryError::ConfigurationError),
        simulate(vec![Location::FACTORY], vec![])
    );
}

#[test]
fn fleet_without_a_transport_at_the_port_is_refused() {
    let fleet = vec![waiting(Location::FACTORY), waiting(Location::FACTORY)];
    assert_eq!(
        Err(DeliveryError::ConfigurationError),
        simulate(vec![Location::B, Location::A], fleet)
    );
}

#[test]
fn fleet_without_a_transport_at_the_factory_is_refused() {
    let fleet = vec![waiting(Location::PORT)];
    assert_eq!(
        Err(DeliveryError::ConfigurationError),
        simulate(vec![Location::B], fleet)
    );
}
