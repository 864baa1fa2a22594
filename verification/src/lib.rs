//! A tick-by-tick simulation of a small delivery fleet.
//!
//! Containers start at the factory and travel along fixed roadmaps; each
//! transport carries one container at a time and then drives back to its base.
//! The library answers how many ticks pass until every container has arrived.
//!
//! `model` holds the simulation as a function on plain values, `transport` and
//! `system` the executable code that is proved to follow it, `progress` the
//! measure by which a run comes to an end, and `laws` what holds of every run.

pub mod container;
pub mod laws;
pub mod model;
pub mod network;
pub mod progress;
pub mod system;
pub mod transport;

pub use container::{Container, Pools};
pub use network::{check_roadmap, DeliveryError, Location, Segment};
pub use system::{run, simulate, DeliverySystem, MAX_CONTAINERS};
pub use transport::{Transport, TransportReturningToBase, TransportShipping, TransportWaiting};
