//! The data model of the fleet: persons, cars, rentals, reservations,
//! and the aggregate that owns them, together with the mathematical
//! model (`...Model` types) that every contract speaks of.

use vstd::prelude::*;

verus! {

/// Kilometres of one maintenance interval: a car that crosses a multiple
/// of this while driving must be serviced.
pub const MAINTENANCE_KM: u32 = 5000;
/// Kilometres of one technical-inspection interval.
pub const TUV_KM: u32 = 15000;
/// Days a car is held by one maintenance service.
pub const MAINTENANCE_DAYS: u32 = 2;
/// Days a car is held by one technical inspection.
pub const TUV_DAYS: u32 = 3;
/// Age at which a car retires.
pub const MAX_AGE_DAYS: u32 = 3650;
/// Maximum lifetime mileage of a car.
pub const MAX_KM: u32 = 200000;
/// Number of rentals at which a car retires.
pub const MAX_RENTALS: u32 = 500;

/// Status of a registered person.
#[derive(Clone, Copy, PartialEq, Eq, Structural, Debug)]
pub enum PersonStatus {
    Active,
    Blocked,
}

/// Status of a registered car. `Maintenance` and `Tuv` carry the days
/// left before the car becomes available again; `Retired` is terminal.
#[derive(Clone, Copy, PartialEq, Eq, Structural, Debug)]
pub enum CarStatus {
    Available,
    Rented,
    Maintenance(u32),
    Tuv(u32),
    Retired,
}

/// A registered person.
#[derive(Clone, PartialEq, Eq, Debug)]
pub struct Person {
    pub identifier: String,
    pub license_valid_days: u32,
    pub status: PersonStatus,
}

/// A registered car.
#[derive(Clone, PartialEq, Eq, Debug)]
pub struct Car {
    pub identifier: String,
    pub mileage: u32,
    pub status: CarStatus,
    pub age_days: u32,
    pub rental_count: u32,
}

/// A pending request of one person to rent one specific car.
#[derive(Clone, PartialEq, Eq, Debug)]
pub struct Reservation {
    pub person_id: String,
    pub car_id: String,
    pub priority: u32,
}

/// The whole aggregate: the only unit of consistency. Every operation
/// is a transition of this value as a whole.
#[derive(Clone, PartialEq, Eq, Debug)]
pub struct CarSharing {
    pub persons: Vec<Person>,
    pub cars: Vec<Car>,
    pub rentals: Vec<(String, String)>,
    pub reservations: Vec<Reservation>,
    pub current_day: u32,
}

/// Mathematical model of a person: the identifier as a sequence of
/// characters, the counters as they stand.
#[verifier::ext_equal]
pub struct PersonModel {
    pub id: Seq<char>,
    pub license_valid_days: u32,
    pub status: PersonStatus,
}

/// Mathematical model of a car.
#[verifier::ext_equal]
pub struct CarModel {
    pub id: Seq<char>,
    pub mileage: u32,
    pub status: CarStatus,
    pub age_days: u32,
    pub rental_count: u32,
}

/// Mathematical model of an active rental: the pairing of one person
/// with one car, by identifier.
#[verifier::ext_equal]
pub struct RentalModel {
    pub person: Seq<char>,
    pub car: Seq<char>,
}

/// Mathematical model of a reservation.
#[verifier::ext_equal]
pub struct ReservationModel {
    pub person: Seq<char>,
    pub car: Seq<char>,
    pub priority: u32,
}

/// Mathematical model of the aggregate.
#[verifier::ext_equal]
pub struct CarSharingModel {
    pub persons: Seq<PersonModel>,
    pub cars: Seq<CarModel>,
    pub rentals: Seq<RentalModel>,
    pub reservations: Seq<ReservationModel>,
    pub current_day: u32,
}

impl Person {
    pub open spec fn model(&self) -> PersonModel {
        PersonModel {
            id: self.identifier@,
            license_valid_days: self.license_valid_days,
            status: self.status,
        }
    }
}

impl Car {
    pub open spec fn model(&self) -> CarModel {
        CarModel {
            id: self.identifier@,
            mileage: self.mileage,
            status: self.status,
            age_days: self.age_days,
            rental_count: self.rental_count,
        }
    }
}

impl Reservation {
    pub open spec fn model(&self) -> ReservationModel {
        ReservationModel {
            person: self.person_id@,
            car: self.car_id@,
            priority: self.priority,
        }
    }
}

/// The persons of the executable state, as their models.
pub open spec fn persons_model(s: Seq<Person>) -> Seq<PersonModel> {
    s.map_values(|p: Person| p.model())
}

/// The cars of the executable state, as their models.
pub open spec fn cars_model(s: Seq<Car>) -> Seq<CarModel> {
    s.map_values(|c: Car| c.model())
}

/// The rentals of the executable state, as pairs of identifiers.
pub open spec fn rentals_model(s: Seq<(String, String)>) -> Seq<RentalModel> {
    s.map_values(|r: (String, String)| RentalModel { person: r.0@, car: r.1@ })
}

/// Pairs of identifier strings, as pairs of character sequences.
pub open spec fn pairs_view(s: Seq<(String, String)>) -> Seq<(Seq<char>, Seq<char>)> {
    s.map_values(|p: (String, String)| (p.0@, p.1@))
}

/// The reservations of the executable state, as their models.
pub open spec fn reservations_model(s: Seq<Reservation>) -> Seq<ReservationModel> {
    s.map_values(|r: Reservation| r.model())
}

impl CarSharing {
    pub open spec fn model(&self) -> CarSharingModel {
        CarSharingModel {
            persons: persons_model(self.persons@),
            cars: cars_model(self.cars@),
            rentals: rentals_model(self.rentals@),
            reservations: reservations_model(self.reservations@),
            current_day: self.current_day,
        }
    }

    /// Well-formedness of the executable state: that of its model.
    pub open spec fn wf(&self) -> bool {
        self.model().wf()
    }
}

} // verus!
