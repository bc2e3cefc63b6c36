//! A shared-vehicle fleet engine: persons, cars, rentals and a
//! priority-ordered reservation queue, advanced by a deterministic
//! day-by-day simulation clock.
//!
//! Every operation of the engine is specified against a mathematical
//! model of the whole aggregate (`state::CarSharingModel`) and verified:
//! admission checks, the rental/return state machine, the reservation
//! resolver and the daily tick.

pub mod engine;
pub mod laws;
pub mod lemmas;
pub mod model;
pub mod resolver_lemmas;
pub mod state;
pub mod wf_lemmas;

pub use engine::CarSharingService;
pub use state::Car;
pub use state::CarSharing;
pub use state::CarStatus;
pub use state::Person;
pub use state::PersonStatus;
pub use state::Reservation;
pub use state::MAINTENANCE_DAYS;
pub use state::MAINTENANCE_KM;
pub use state::MAX_AGE_DAYS;
pub use state::MAX_KM;
pub use state::MAX_RENTALS;
pub use state::TUV_DAYS;
pub use state::TUV_KM;
