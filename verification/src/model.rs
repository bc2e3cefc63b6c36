//! The mathematical model of every engine operation: admission
//! predicates, the rental/return state machine, the reservation
//! resolver and the daily tick, each as a total spec function on
//! `CarSharingModel`. The executable engine is verified to follow
//! these functions exactly.

use vstd::prelude::*;

use crate::state::CarModel;
use crate::state::CarSharingModel;
use crate::state::CarStatus;
use crate::state::PersonModel;
use crate::state::PersonStatus;
use crate::state::RentalModel;
use crate::state::ReservationModel;
use crate::state::MAINTENANCE_DAYS;
use crate::state::MAINTENANCE_KM;
use crate::state::MAX_AGE_DAYS;
use crate::state::MAX_KM;
use crate::state::MAX_RENTALS;
use crate::state::TUV_DAYS;
use crate::state::TUV_KM;

verus! {

/// Uniqueness of a projection over a sequence, stated over indexes.
pub open spec fn proj_unique<T, B>(s: Seq<T>, proj: spec_fn(T) -> B) -> bool {
    forall|i: int, j: int|
        0 <= i < j < s.len() ==> proj(#[trigger] s[i]) != proj(#[trigger] s[j])
}

/// Index of the first element of `s` satisfying `pred`, if any.
pub open spec fn find_first<T>(s: Seq<T>, pred: spec_fn(T) -> bool) -> Option<int>
    decreases s.len(),
{
    if s.len() == 0 {
        None
    } else if pred(s[0]) {
        Some(0int)
    } else {
        match find_first(s.drop_first(), pred) {
            Some(i) => Some(i + 1),
            None => None,
        }
    }
}

/// Numerator of the retirement score, brought to the common
/// denominator `MAX_AGE_DAYS * MAX_KM * MAX_RENTALS`. The score itself
/// is `age_days/MAX_AGE_DAYS + mileage/MAX_KM + rental_count/MAX_RENTALS`.
pub open spec fn retirement_score_num(c: CarModel) -> int {
    c.age_days * MAX_KM * MAX_RENTALS + c.mileage * MAX_AGE_DAYS * MAX_RENTALS
        + c.rental_count * MAX_AGE_DAYS * MAX_KM
}

/// Denominator of the retirement score.
pub open spec fn retirement_score_den() -> int {
    MAX_AGE_DAYS * MAX_KM * MAX_RENTALS
}

/// True iff the retirement score of `c` exceeds 1.
pub open spec fn retirement_due(c: CarModel) -> bool {
    retirement_score_num(c) > retirement_score_den()
}

/// The status a car must take after a trip, by the boundary rule: a
/// maintenance or inspection event fires only when adding `driven_km`
/// to `start_km` crosses a multiple of the respective interval, the
/// inspection cycle taking precedence; a trip that starts at the
/// maximum lifetime mileage retires the car outright.
pub open spec fn spec_check_maintenance_or_tuv(start_km: u32, driven_km: u32) -> Option<
    CarStatus,
> {
    if start_km == MAX_KM {
        Some(CarStatus::Retired)
    } else if ((start_km as int) / (TUV_KM as int)) < (((start_km + driven_km) as int) / (
    TUV_KM as int)) {
        Some(CarStatus::Tuv(TUV_DAYS))
    } else if ((start_km as int) / (MAINTENANCE_KM as int)) < (((start_km + driven_km) as int) / (
    MAINTENANCE_KM as int)) {
        Some(CarStatus::Maintenance(MAINTENANCE_DAYS))
    } else {
        None
    }
}

/// Bounds on a car's counters that every reachable state keeps: a car
/// that is not retired stays within the maximum lifetime mileage, and
/// its rental count stays within the retirement bound (one more while
/// a rental is open, since the count is incremented when the rental
/// starts and the retirement check runs only at return).
pub open spec fn wf_car(c: CarModel) -> bool {
    match c.status {
        CarStatus::Retired => true,
        CarStatus::Rented => c.mileage <= MAX_KM && c.rental_count <= MAX_RENTALS + 1,
        _ => c.mileage <= MAX_KM && c.rental_count <= MAX_RENTALS,
    }
}

impl CarSharingModel {
    /// Index of the person with this identifier.
    pub open spec fn person_index(self, id: Seq<char>) -> Option<int> {
        find_first(self.persons, |p: PersonModel| p.id == id)
    }

    /// Index of the car with this identifier.
    pub open spec fn car_index(self, id: Seq<char>) -> Option<int> {
        find_first(self.cars, |c: CarModel| c.id == id)
    }

    /// Index of the active rental pairing this person with this car.
    pub open spec fn rental_index(self, pid: Seq<char>, cid: Seq<char>) -> Option<int> {
        find_first(self.rentals, |r: RentalModel| r.person == pid && r.car == cid)
    }

    /// Index of the active rental held by this person, if any.
    pub open spec fn rental_index_of_person(self, pid: Seq<char>) -> Option<int> {
        find_first(self.rentals, |r: RentalModel| r.person == pid)
    }

    /// Index of the active rental of this car, if any.
    pub open spec fn rental_index_of_car(self, cid: Seq<char>) -> Option<int> {
        find_first(self.rentals, |r: RentalModel| r.car == cid)
    }

    /// Index of the reservation of this person for this car.
    pub open spec fn reservation_index(self, pid: Seq<char>, cid: Seq<char>) -> Option<int> {
        find_first(self.reservations, |r: ReservationModel| r.person == pid && r.car == cid)
    }

    /// True iff a person with this identifier is registered and Blocked.
    pub open spec fn person_blocked(self, pid: Seq<char>) -> bool {
        spec_person_blocked(self.persons, pid)
    }

    /// True iff the car with this identifier exists and is Rented.
    pub open spec fn car_is_rented(self, cid: Seq<char>) -> bool {
        match self.car_index(cid) {
            Some(i) => self.cars[i].status is Rented,
            None => false,
        }
    }

    /// Well-formedness of the aggregate: identifiers of persons and of
    /// cars are unique; a person and a car each stand in at most one
    /// active rental; no two reservations share the (person, car) pair;
    /// every car keeps the counter bounds of `wf_car`; and the car of
    /// every active rental is registered with status Rented.
    pub open spec fn wf(self) -> bool {
        &&& proj_unique(self.persons, |p: PersonModel| p.id)
        &&& proj_unique(self.cars, |c: CarModel| c.id)
        &&& proj_unique(self.rentals, |r: RentalModel| r.person)
        &&& proj_unique(self.rentals, |r: RentalModel| r.car)
        &&& proj_unique(self.reservations, |r: ReservationModel| (r.person, r.car))
        &&& forall|i: int| 0 <= i < self.cars.len() ==> wf_car(#[trigger] self.cars[i])
        &&& forall|i: int|
            0 <= i < self.rentals.len() ==> self.car_is_rented((#[trigger] self.rentals[i]).car)
    }

    /// The empty aggregate at day zero.
    pub open spec fn empty() -> Self {
        CarSharingModel {
            persons: Seq::empty(),
            cars: Seq::empty(),
            rentals: Seq::empty(),
            reservations: Seq::empty(),
            current_day: 0,
        }
    }

    /// Admission check for renting: the person holds no active rental
    /// and is not Blocked, and the car is registered and Available.
    pub open spec fn can_rent(self, pid: Seq<char>, cid: Seq<char>) -> bool {
        spec_can_rent(self.rentals, self.persons, self.cars, pid, cid)
    }

    /// Admission check for reserving: the person is not Blocked and
    /// holds no active rental, and no identical reservation exists.
    /// The car need not be available, or registered: reservations
    /// queue for cars that are busy now.
    pub open spec fn can_reserve(self, pid: Seq<char>, cid: Seq<char>) -> bool {
        spec_can_reserve(self.persons, self.rentals, self.reservations, pid, cid)
    }

    /// Register a person: rejected on a duplicate identifier.
    pub open spec fn register_person(self, p: PersonModel) -> (Self, bool) {
        if self.person_index(p.id) is Some {
            (self, false)
        } else {
            (CarSharingModel { persons: self.persons.push(p), ..self }, true)
        }
    }

    /// Unregister a person: rejected if unknown or currently renting.
    /// All reservations of the person go with them.
    pub open spec fn unregister_person(self, pid: Seq<char>) -> (Self, bool) {
        if self.person_index(pid) is None {
            (self, false)
        } else if self.rental_index_of_person(pid) is Some {
            (self, false)
        } else {
            (
                CarSharingModel {
                    reservations: self.reservations.filter(
                        |r: ReservationModel| r.person != pid,
                    ),
                    persons: self.persons.filter(|p: PersonModel| p.id != pid),
                    ..self
                },
                true,
            )
        }
    }

    /// Renew a person's license: the validity counter is replaced and
    /// the person becomes Active again.
    pub open spec fn renew_license(self, pid: Seq<char>, new_valid_days: u32) -> (Self, bool) {
        match self.person_index(pid) {
            None => (self, false),
            Some(i) => (
                CarSharingModel {
                    persons: self.persons.update(
                        i,
                        PersonModel {
                            license_valid_days: new_valid_days,
                            status: PersonStatus::Active,
                            ..self.persons[i]
                        },
                    ),
                    ..self
                },
                true,
            ),
        }
    }

    /// Status of the person with this identifier, if registered.
    pub open spec fn person_status(self, pid: Seq<char>) -> Option<PersonStatus> {
        match self.person_index(pid) {
            Some(i) => Some(self.persons[i].status),
            None => None,
        }
    }

    /// Register a car: rejected on a duplicate identifier, above the
    /// maximum lifetime mileage, or with a retirement score over 1.
    pub open spec fn register_car(self, c: CarModel) -> (Self, bool) {
        if self.car_index(c.id) is Some {
            (self, false)
        } else if c.mileage > MAX_KM {
            (self, false)
        } else if retirement_due(c) {
            (self, false)
        } else {
            (CarSharingModel { cars: self.cars.push(c), ..self }, true)
        }
    }

    /// Unregister a car: rejected if unknown, currently rented, or held
    /// by maintenance or inspection. Reservations for the car go with it.
    pub open spec fn unregister_car(self, cid: Seq<char>) -> (Self, bool) {
        if self.rental_index_of_car(cid) is Some {
            (self, false)
        } else {
            match self.car_index(cid) {
                None => (self, false),
                Some(i) => {
                    if self.cars[i].status is Maintenance || self.cars[i].status is Tuv {
                        (self, false)
                    } else {
                        (
                            CarSharingModel {
                                reservations: self.reservations.filter(
                                    |r: ReservationModel| r.car != cid,
                                ),
                                cars: self.cars.filter(|c: CarModel| c.id != cid),
                                ..self
                            },
                            true,
                        )
                    }
                },
            }
        }
    }

    /// Status of the car with this identifier, if registered.
    pub open spec fn car_status(self, cid: Seq<char>) -> Option<CarStatus> {
        match self.car_index(cid) {
            Some(i) => Some(self.cars[i].status),
            None => None,
        }
    }

    /// Identifiers of the cars that are Available, in registration order.
    pub open spec fn available_cars(self) -> Seq<Seq<char>> {
        self.cars.filter(|c: CarModel| c.status is Available).map_values(|c: CarModel| c.id)
    }

    /// Reserve a car: on success the reservation is appended.
    pub open spec fn reserve_car(self, pid: Seq<char>, cid: Seq<char>, priority: u32) -> (
        Self,
        bool,
    ) {
        if self.can_reserve(pid, cid) {
            (
                CarSharingModel {
                    reservations: self.reservations.push(
                        ReservationModel { person: pid, car: cid, priority },
                    ),
                    ..self
                },
                true,
            )
        } else {
            (self, false)
        }
    }

    /// Cancel the reservation of this person for this car, if it exists.
    pub open spec fn cancel_reservation(self, pid: Seq<char>, cid: Seq<char>) -> (Self, bool) {
        match self.reservation_index(pid, cid) {
            None => (self, false),
            Some(i) => (
                CarSharingModel { reservations: self.reservations.remove(i), ..self },
                true,
            ),
        }
    }

    /// Identifiers of the persons holding a reservation for this car,
    /// in queue order.
    pub open spec fn reservations_for_car(self, cid: Seq<char>) -> Seq<Seq<char>> {
        spec_reservations_for_car(self.reservations, cid)
    }

    /// Rent a car: on success the (person, car) pair is recorded, the
    /// car becomes Rented and its rental count grows by one. Nothing
    /// is applied on failure.
    pub open spec fn rent_car(self, pid: Seq<char>, cid: Seq<char>) -> (Self, bool) {
        if self.can_rent(pid, cid) {
            let with_rental = CarSharingModel { rentals: self.rentals.push(RentalModel { person: pid, car: cid }), ..self };
            match self.car_index(cid) {
                Some(i) => (
                    CarSharingModel {
                        cars: self.cars.update(
                            i,
                            CarModel {
                                status: CarStatus::Rented,
                                rental_count: (self.cars[i].rental_count + 1) as u32,
                                ..self.cars[i]
                            },
                        ),
                        ..with_rental
                    },
                    true,
                ),
                None => (with_rental, true),
            }
        } else {
            (self, false)
        }
    }

    /// Return a rented car: requires the matching rental and the car to
    /// exist. The mileage grows by the distance driven; the next status
    /// is decided in priority order: Retired if the retirement score now
    /// exceeds 1, else the threshold rule of `spec_check_maintenance_or_tuv`,
    /// else Available. The rental is removed whichever branch is taken.
    pub open spec fn return_car(self, pid: Seq<char>, cid: Seq<char>, driven_km: u32) -> (
        Self,
        bool,
    ) {
        match self.rental_index(pid, cid) {
            None => (self, false),
            Some(ri) => match self.car_index(cid) {
                None => (self, false),
                Some(ci) => {
                    let start_km = self.cars[ci].mileage;
                    let moved = CarModel {
                        mileage: (start_km + driven_km) as u32,
                        ..self.cars[ci]
                    };
                    let status = if retirement_due(moved) {
                        CarStatus::Retired
                    } else {
                        match spec_check_maintenance_or_tuv(start_km, driven_km) {
                            Some(st) => st,
                            None => CarStatus::Available,
                        }
                    };
                    (
                        CarSharingModel {
                            cars: self.cars.update(ci, CarModel { status, ..moved }),
                            rentals: self.rentals.remove(ri),
                            ..self
                        },
                        true,
                    )
                },
            },
        }
    }

    /// The reservation queue sorted by priority, highest first, equal
    /// priorities keeping their prior relative order, followed by one
    /// granting pass and the purge of every granted person's remaining
    /// reservations. Returns the new state and the granted pairs in
    /// the order they were granted.
    pub open spec fn process_reservations(self) -> (Self, Seq<(Seq<char>, Seq<char>)>) {
        let sorted = sort_desc(self.reservations);
        let queued = CarSharingModel { reservations: sorted, ..self };
        let passed = grant_pass(queued, sorted);
        (
            CarSharingModel {
                reservations: passed.0.reservations.filter(
                    |r: ReservationModel| !person_granted(passed.1, r.person),
                ),
                ..passed.0
            },
            passed.1,
        )
    }

    /// One simulated day: the day counter advances, licenses decay (a
    /// person at zero remaining days is Blocked), every car ages by a
    /// day, cars that are not rented retire when age, rental count or
    /// score reach their bounds, maintenance and inspection countdowns
    /// tick towards Available, and the reservation resolver runs once.
    /// The state-advancing half of a day: the counter, license decay,
    /// aging, the daily retirement check and the countdowns, applied
    /// pointwise; the reservation resolver follows in `tick`.
    pub open spec fn advance_day(self) -> Self {
        CarSharingModel {
            current_day: (self.current_day + 1) as u32,
            persons: self.persons.map_values(|p: PersonModel| tick_person(p)),
            cars: self.cars.map_values(|c: CarModel| count_down_car(retire_car(age_car(c)))),
            ..self
        }
    }

    /// One full simulated day: the advancing half, then one run of the
    /// reservation resolver.
    pub open spec fn tick(self) -> Self {
        self.advance_day().process_reservations().0
    }

    /// The machine headroom that `n` simulated days need: the day
    /// counter and every car's age must stay within `u32`.
    pub open spec fn can_advance(self, n: u32) -> bool {
        &&& self.current_day + n <= u32::MAX
        &&& forall|i: int|
            0 <= i < self.cars.len() ==> (#[trigger] self.cars[i]).age_days + n <= u32::MAX
    }

    /// `n` days are exactly `n` sequential single-day ticks.
    pub open spec fn simulate(self, n: nat) -> Self
        decreases n,
    {
        if n == 0 {
            self
        } else {
            self.tick().simulate((n - 1) as nat)
        }
    }
}

/// A day of license decay: a positive counter falls by one, and a
/// person whose counter stands at zero afterwards is Blocked.
pub open spec fn tick_person(p: PersonModel) -> PersonModel {
    let days = if p.license_valid_days > 0 {
        (p.license_valid_days - 1) as u32
    } else {
        p.license_valid_days
    };
    PersonModel {
        license_valid_days: days,
        status: if days == 0 {
            PersonStatus::Blocked
        } else {
            p.status
        },
        ..p
    }
}

/// A car ages by one day.
pub open spec fn age_car(c: CarModel) -> CarModel {
    CarModel { age_days: (c.age_days + 1) as u32, ..c }
}

/// The daily retirement check: a car that is not currently Rented
/// retires when its age or rental count reach their maxima or its
/// retirement score exceeds 1.
pub open spec fn retire_car(c: CarModel) -> CarModel {
    if !(c.status is Rented) && (c.age_days >= MAX_AGE_DAYS || c.rental_count >= MAX_RENTALS
        || retirement_due(c)) {
        CarModel { status: CarStatus::Retired, ..c }
    } else {
        c
    }
}

/// The daily countdown: a car in Maintenance or Tuv comes one day
/// closer to Available.
pub open spec fn count_down_car(c: CarModel) -> CarModel {
    match c.status {
        CarStatus::Maintenance(d) => CarModel {
            status: if d > 1 {
                CarStatus::Maintenance((d - 1) as u32)
            } else {
                CarStatus::Available
            },
            ..c
        },
        CarStatus::Tuv(d) => CarModel {
            status: if d > 1 {
                CarStatus::Tuv((d - 1) as u32)
            } else {
                CarStatus::Available
            },
            ..c
        },
        _ => c,
    }
}

/// Insert a reservation into a queue sorted by priority descending,
/// after every element of priority greater than or equal to its own.
pub open spec fn insert_desc(r: ReservationModel, s: Seq<ReservationModel>) -> Seq<
    ReservationModel,
>
    decreases s.len(),
{
    if s.len() == 0 {
        seq![r]
    } else if s[0].priority >= r.priority {
        seq![s[0]] + insert_desc(r, s.drop_first())
    } else {
        seq![r] + s
    }
}

/// The position at which `insert_desc` places `r`: just before the
/// first element of strictly smaller priority, or at the end.
pub open spec fn insert_pos(r: ReservationModel, s: Seq<ReservationModel>) -> int {
    match find_first(s, |x: ReservationModel| x.priority < r.priority) {
        Some(j) => j,
        None => s.len() as int,
    }
}

/// Stable sort by priority descending: elements are inserted in their
/// prior order, each after all elements of priority greater than or
/// equal to its own, so equal priorities keep their relative order.
pub open spec fn sort_desc(s: Seq<ReservationModel>) -> Seq<ReservationModel>
    decreases s.len(),
{
    if s.len() == 0 {
        s
    } else {
        insert_desc(s.last(), sort_desc(s.drop_last()))
    }
}

/// One granting pass over the sorted queue: each reservation is tried
/// in order, and granted exactly when the admission check for renting
/// holds at that moment.
pub open spec fn grant_pass(s: CarSharingModel, rs: Seq<ReservationModel>) -> (
    CarSharingModel,
    Seq<(Seq<char>, Seq<char>)>,
)
    decreases rs.len(),
{
    if rs.len() == 0 {
        (s, Seq::empty())
    } else {
        let r = rs[0];
        let granted_now = s.can_rent(r.person, r.car);
        let rented = s.rent_car(r.person, r.car).0;
        let rest = grant_pass(rented, rs.drop_first());
        (
            rest.0,
            if granted_now {
                seq![(r.person, r.car)] + rest.1
            } else {
                rest.1
            },
        )
    }
}

/// True iff a person with this identifier stands in `persons` with
/// status Blocked.
pub open spec fn spec_person_blocked(persons: Seq<PersonModel>, pid: Seq<char>) -> bool {
    match find_first(persons, |p: PersonModel| p.id == pid) {
        Some(i) => persons[i].status is Blocked,
        None => false,
    }
}

/// The admission check for renting, over the component sequences: the
/// person holds no active rental and is not Blocked, and the car is
/// registered and Available.
pub open spec fn spec_can_rent(
    rentals: Seq<RentalModel>,
    persons: Seq<PersonModel>,
    cars: Seq<CarModel>,
    pid: Seq<char>,
    cid: Seq<char>,
) -> bool {
    &&& find_first(rentals, |r: RentalModel| r.person == pid) is None
    &&& !spec_person_blocked(persons, pid)
    &&& match find_first(cars, |c: CarModel| c.id == cid) {
        Some(i) => cars[i].status is Available,
        None => false,
    }
}

/// The admission check for reserving, over the component sequences:
/// the person is not Blocked and holds no active rental, and no
/// identical reservation exists.
pub open spec fn spec_can_reserve(
    persons: Seq<PersonModel>,
    rentals: Seq<RentalModel>,
    reservations: Seq<ReservationModel>,
    pid: Seq<char>,
    cid: Seq<char>,
) -> bool {
    &&& !spec_person_blocked(persons, pid)
    &&& find_first(rentals, |r: RentalModel| r.person == pid) is None
    &&& find_first(reservations, |r: ReservationModel| r.person == pid && r.car == cid) is None
}

/// The persons with a reservation for this car, in queue order.
pub open spec fn spec_reservations_for_car(
    reservations: Seq<ReservationModel>,
    cid: Seq<char>,
) -> Seq<Seq<char>> {
    reservations.filter(|r: ReservationModel| r.car == cid).map_values(
        |r: ReservationModel| r.person,
    )
}

/// True iff this person was granted a rental in the given pass.
pub open spec fn person_granted(granted: Seq<(Seq<char>, Seq<char>)>, pid: Seq<char>) -> bool {
    exists|i: int| 0 <= i < granted.len() && granted[i].0 == pid
}

} // verus!
