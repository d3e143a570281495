//! Verified core of a gravitating-marbles simulation.
//!
//! Two subsystems live here. The hierarchy builder agglomerates the current
//! set of spheres into a flat binary bounding-sphere tree by the
//! nearest-neighbour-chain method; the compute scheduler advances a logical
//! physics clock in fixed ticks while keeping at most one background
//! computation in flight.
//!
//! Everything in this crate works on integers. Join costs enter as the bit
//! patterns of IEEE-754 single-precision numbers and are compared through an
//! order-preserving integer key; centres and radii are carried as bit
//! patterns and never interpreted; instants enter as nanosecond counts.
//! The arithmetic on the numbers themselves, and running the background
//! computation, are left to the program around this crate.
pub mod builder;
pub mod chain;
pub mod clock;
pub mod cost;
pub mod neighbor;
pub mod rounds;
pub mod scheduler;
pub mod spheretree;


pub use builder::HierarchyBuilder;
pub use chain::Step;
pub use clock::{PhysicsClock, Timing};
pub use cost::cost_key;
pub use neighbor::nearest_neighbor;
pub use scheduler::{PhysicsResult, PhysicsSystem, Worker, WorkerState};
pub use spheretree::Sphere;
