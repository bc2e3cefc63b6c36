//! The executable engine: the lookup helpers, the admission predicates,
//! and the `CarSharingService` operations on `CarSharing`, each verified
//! against the spec functions of `crate::model`.

use vstd::prelude::*;

use crate::lemmas::lemma_find_first_is;
use crate::lemmas::lemma_find_first_none;
use crate::lemmas::lemma_map_values_push;
use crate::lemmas::lemma_map_values_update;
use crate::lemmas::lemma_filter_take_step;
use crate::lemmas::lemma_find_first_characterized;
use crate::lemmas::lemma_map_values_remove;
use crate::wf_lemmas::lemma_wf_cancel_reservation;
use crate::wf_lemmas::lemma_wf_register_car;
use crate::wf_lemmas::lemma_wf_register_person;
use crate::wf_lemmas::lemma_wf_renew_license;
use crate::wf_lemmas::lemma_wf_rent_car;
use crate::wf_lemmas::lemma_wf_reserve_car;
use crate::wf_lemmas::lemma_wf_return_car;
use crate::wf_lemmas::lemma_wf_unregister_car;
use crate::wf_lemmas::lemma_wf_unregister_person;
use crate::model::find_first;
use crate::model::spec_can_rent;
use crate::model::spec_can_reserve;
use crate::model::spec_check_maintenance_or_tuv;
use crate::model::spec_person_blocked;
use crate::state::cars_model;
use crate::state::persons_model;
use crate::state::rentals_model;
use crate::state::reservations_model;
use crate::state::Car;
use crate::state::CarModel;
use crate::state::CarSharing;
use crate::state::CarSharingModel;
use crate::state::CarStatus;
use crate::state::Person;
use crate::state::PersonModel;
use crate::state::PersonStatus;
use crate::state::RentalModel;
use crate::state::Reservation;
use crate::state::ReservationModel;
use crate::state::MAINTENANCE_DAYS;
use crate::state::MAINTENANCE_KM;
use crate::state::MAX_AGE_DAYS;
use crate::state::MAX_KM;
use crate::state::MAX_RENTALS;
use crate::state::TUV_DAYS;
use crate::state::TUV_KM;

verus! {

/// Index of the first person with this identifier.
pub fn find_index_persons(persons: &Vec<Person>, identifier: &str) -> (r: Option<usize>)
    ensures
        (match r {
            Some(i) => i < persons@.len() && find_first(
                persons_model(persons@),
                |p: PersonModel| p.id == identifier@,
            ) == Some(i as int),
            None => find_first(persons_model(persons@), |p: PersonModel| p.id == identifier@)
                is None,
        }),
{
    let id: String = identifier.to_owned();
    let ghost s = persons_model(persons@);
    let mut i: usize = 0;
    while i < persons.len()
        invariant
            i <= persons@.len(),
            id@ == identifier@,
            s == persons_model(persons@),
            forall|j: int| 0 <= j < i ==> (#[trigger] s[j]).id != identifier@,
        decreases persons@.len() - i,
    {
        proof {
            assert(s[i as int] == persons@[i as int].model());
        }
        if persons[i].identifier == id {
            proof {
                lemma_find_first_is(s, |p: PersonModel| p.id == identifier@, i as int);
            }
            return Some(i);
        }
        i += 1;
    }
    proof {
        lemma_find_first_none(s, |p: PersonModel| p.id == identifier@);
    }
    None
}

/// True iff a person with the identifier of `p` is already registered.
pub fn person_exist(persons: &Vec<Person>, p: &Person) -> (r: bool)
    ensures
        r == (find_first(persons_model(persons@), |q: PersonModel| q.id == p.identifier@)
            is Some),
{
    find_index_persons(persons, p.identifier.as_str()).is_some()
}

/// Index of the first car with this identifier.
pub fn find_index_cars(cars: &Vec<Car>, identifier: &str) -> (r: Option<usize>)
    ensures
        (match r {
            Some(i) => i < cars@.len() && find_first(
                cars_model(cars@),
                |c: CarModel| c.id == identifier@,
            ) == Some(i as int),
            None => find_first(cars_model(cars@), |c: CarModel| c.id == identifier@) is None,
        }),
{
    let id: String = identifier.to_owned();
    let ghost s = cars_model(cars@);
    let mut i: usize = 0;
    while i < cars.len()
        invariant
            i <= cars@.len(),
            id@ == identifier@,
            s == cars_model(cars@),
            forall|j: int| 0 <= j < i ==> (#[trigger] s[j]).id != identifier@,
        decreases cars@.len() - i,
    {
        proof {
            assert(s[i as int] == cars@[i as int].model());
        }
        if cars[i].identifier == id {
            proof {
                lemma_find_first_is(s, |c: CarModel| c.id == identifier@, i as int);
            }
            return Some(i);
        }
        i += 1;
    }
    proof {
        lemma_find_first_none(s, |c: CarModel| c.id == identifier@);
    }
    None
}

/// True iff a car with the identifier of `c` is already registered.
pub fn car_exist(cars: &Vec<Car>, c: &Car) -> (r: bool)
    ensures
        r == (find_first(cars_model(cars@), |q: CarModel| q.id == c.identifier@) is Some),
{
    find_index_cars(cars, c.identifier.as_str()).is_some()
}

/// Index of the active rental pairing this person with this car.
pub fn find_index_rentals(rentals: &Vec<(String, String)>, person_id: &str, car_id: &str) -> (r:
    Option<usize>)
    ensures
        (match r {
            Some(i) => i < rentals@.len() && find_first(
                rentals_model(rentals@),
                |p: RentalModel| p.person == person_id@ && p.car == car_id@,
            ) == Some(i as int),
            None => find_first(
                rentals_model(rentals@),
                |p: RentalModel| p.person == person_id@ && p.car == car_id@,
            ) is None,
        }),
{
    let pid: String = person_id.to_owned();
    let cid: String = car_id.to_owned();
    let ghost s = rentals_model(rentals@);
    let mut i: usize = 0;
    while i < rentals.len()
        invariant
            i <= rentals@.len(),
            pid@ == person_id@,
            cid@ == car_id@,
            s == rentals_model(rentals@),
            forall|j: int|
                0 <= j < i ==> !((#[trigger] s[j]).person == person_id@ && s[j].car == car_id@),
        decreases rentals@.len() - i,
    {
        proof {
            assert(s[i as int] == RentalModel { person: rentals@[i as int].0@, car: rentals@[i as int].1@ });
        }
        if rentals[i].0 == pid && rentals[i].1 == cid {
            proof {
                lemma_find_first_is(
                    s,
                    |p: RentalModel| p.person == person_id@ && p.car == car_id@,
                    i as int,
                );
            }
            return Some(i);
        }
        i += 1;
    }
    proof {
        lemma_find_first_none(s, |p: RentalModel| p.person == person_id@ && p.car == car_id@);
    }
    None
}

/// True iff this person currently holds any active rental.
pub fn find_persons_rentals(rentals: &Vec<(String, String)>, person_id: &str) -> (r: bool)
    ensures
        r == (find_first(rentals_model(rentals@), |p: RentalModel| p.person == person_id@)
            is Some),
{
    let pid: String = person_id.to_owned();
    let ghost s = rentals_model(rentals@);
    let mut i: usize = 0;
    while i < rentals.len()
        invariant
            i <= rentals@.len(),
            pid@ == person_id@,
            s == rentals_model(rentals@),
            forall|j: int| 0 <= j < i ==> (#[trigger] s[j]).person != person_id@,
        decreases rentals@.len() - i,
    {
        proof {
            assert(s[i as int] == RentalModel { person: rentals@[i as int].0@, car: rentals@[i as int].1@ });
        }
        if rentals[i].0 == pid {
            proof {
                lemma_find_first_is(s, |p: RentalModel| p.person == person_id@, i as int);
            }
            return true;
        }
        i += 1;
    }
    proof {
        lemma_find_first_none(s, |p: RentalModel| p.person == person_id@);
    }
    false
}

/// Index of the active rental of this car, if any.
pub fn find_index_cars_rentals(rentals: &Vec<(String, String)>, car_id: &str) -> (r: Option<
    usize,
>)
    ensures
        (match r {
            Some(i) => i < rentals@.len() && find_first(
                rentals_model(rentals@),
                |p: RentalModel| p.car == car_id@,
            ) == Some(i as int),
            None => find_first(rentals_model(rentals@), |p: RentalModel| p.car == car_id@)
                is None,
        }),
{
    let cid: String = car_id.to_owned();
    let ghost s = rentals_model(rentals@);
    let mut i: usize = 0;
    while i < rentals.len()
        invariant
            i <= rentals@.len(),
            cid@ == car_id@,
            s == rentals_model(rentals@),
            forall|j: int| 0 <= j < i ==> (#[trigger] s[j]).car != car_id@,
        decreases rentals@.len() - i,
    {
        proof {
            assert(s[i as int] == RentalModel { person: rentals@[i as int].0@, car: rentals@[i as int].1@ });
        }
        if rentals[i].1 == cid {
            proof {
                lemma_find_first_is(s, |p: RentalModel| p.car == car_id@, i as int);
            }
            return Some(i);
        }
        i += 1;
    }
    proof {
        lemma_find_first_none(s, |p: RentalModel| p.car == car_id@);
    }
    None
}

/// Index of the reservation of this person for this car.
pub fn find_index_reservations(
    reservations: &Vec<Reservation>,
    person_id: &str,
    car_id: &str,
) -> (r: Option<usize>)
    ensures
        (match r {
            Some(i) => i < reservations@.len() && find_first(
                reservations_model(reservations@),
                |q: ReservationModel| q.person == person_id@ && q.car == car_id@,
            ) == Some(i as int),
            None => find_first(
                reservations_model(reservations@),
                |q: ReservationModel| q.person == person_id@ && q.car == car_id@,
            ) is None,
        }),
{
    let pid: String = person_id.to_owned();
    let cid: String = car_id.to_owned();
    let ghost s = reservations_model(reservations@);
    let mut i: usize = 0;
    while i < reservations.len()
        invariant
            i <= reservations@.len(),
            pid@ == person_id@,
            cid@ == car_id@,
            s == reservations_model(reservations@),
            forall|j: int|
                0 <= j < i ==> !((#[trigger] s[j]).person == person_id@ && s[j].car == car_id@),
        decreases reservations@.len() - i,
    {
        proof {
            assert(s[i as int] == reservations@[i as int].model());
        }
        if reservations[i].person_id == pid && reservations[i].car_id == cid {
            proof {
                lemma_find_first_is(
                    s,
                    |q: ReservationModel| q.person == person_id@ && q.car == car_id@,
                    i as int,
                );
            }
            return Some(i);
        }
        i += 1;
    }
    proof {
        lemma_find_first_none(
            s,
            |q: ReservationModel| q.person == person_id@ && q.car == car_id@,
        );
    }
    None
}

/// Index of the first reservation held by this person, if any.
pub fn find_persons_reservations(reservations: &Vec<Reservation>, person_id: &str) -> (r: Option<
    usize,
>)
    ensures
        (match r {
            Some(i) => i < reservations@.len() && find_first(
                reservations_model(reservations@),
                |q: ReservationModel| q.person == person_id@,
            ) == Some(i as int),
            None => find_first(
                reservations_model(reservations@),
                |q: ReservationModel| q.person == person_id@,
            ) is None,
        }),
{
    let pid: String = person_id.to_owned();
    let ghost s = reservations_model(reservations@);
    let mut i: usize = 0;
    while i < reservations.len()
        invariant
            i <= reservations@.len(),
            pid@ == person_id@,
            s == reservations_model(reservations@),
            forall|j: int| 0 <= j < i ==> (#[trigger] s[j]).person != person_id@,
        decreases reservations@.len() - i,
    {
        proof {
            assert(s[i as int] == reservations@[i as int].model());
        }
        if reservations[i].person_id == pid {
            proof {
                lemma_find_first_is(s, |q: ReservationModel| q.person == person_id@, i as int);
            }
            return Some(i);
        }
        i += 1;
    }
    proof {
        lemma_find_first_none(s, |q: ReservationModel| q.person == person_id@);
    }
    None
}

/// The admission check for renting.
pub fn p_can_rent_car(
    rentals: &Vec<(String, String)>,
    persons: &Vec<Person>,
    cars: &Vec<Car>,
    person_id: &str,
    car_id: &str,
) -> (r: bool)
    ensures
        r == spec_can_rent(
            rentals_model(rentals@),
            persons_model(persons@),
            cars_model(cars@),
            person_id@,
            car_id@,
        ),
{
    if find_persons_rentals(rentals, person_id) {
        return false;
    }
    if let Some(i) = find_index_persons(persons, person_id) {
        proof {
            assert(persons_model(persons@)[i as int] == persons@[i as int].model());
        }
        if persons[i].status == PersonStatus::Blocked {
            return false;
        }
    }
    proof {
        assert(!spec_person_blocked(persons_model(persons@), person_id@));
    }
    if let Some(i) = find_index_cars(cars, car_id) {
        proof {
            assert(cars_model(cars@)[i as int] == cars@[i as int].model());
        }
        cars[i].status == CarStatus::Available
    } else {
        false
    }
}

/// The admission check for reserving.
pub fn p_can_reserve(
    persons: &Vec<Person>,
    rentals: &Vec<(String, String)>,
    reservations: &Vec<Reservation>,
    person_id: &str,
    car_id: &str,
) -> (r: bool)
    ensures
        r == spec_can_reserve(
            persons_model(persons@),
            rentals_model(rentals@),
            reservations_model(reservations@),
            person_id@,
            car_id@,
        ),
{
    if let Some(i) = find_index_persons(persons, person_id) {
        proof {
            assert(persons_model(persons@)[i as int] == persons@[i as int].model());
        }
        if persons[i].status == PersonStatus::Blocked {
            return false;
        }
    }
    proof {
        assert(!spec_person_blocked(persons_model(persons@), person_id@));
    }
    if find_persons_rentals(rentals, person_id) {
        return false;
    }
    find_index_reservations(reservations, person_id, car_id).is_none()
}

/// The boundary rule for maintenance and inspection, executable form.
pub fn check_maintenance_or_tuv(mileage: u32, driven_km: u32) -> (r: Option<CarStatus>)
    requires
        mileage + driven_km <= u32::MAX,
    ensures
        r == spec_check_maintenance_or_tuv(mileage, driven_km),
{
    if mileage == MAX_KM {
        Some(CarStatus::Retired)
    } else if (mileage / TUV_KM) < ((mileage + driven_km) / TUV_KM) {
        Some(CarStatus::Tuv(TUV_DAYS))
    } else if (mileage / MAINTENANCE_KM) < ((mileage + driven_km) / MAINTENANCE_KM) {
        Some(CarStatus::Maintenance(MAINTENANCE_DAYS))
    } else {
        None
    }
}

/// True iff the retirement score of `c` exceeds 1, computed exactly in
/// integers over the common denominator.
pub fn retirement_due_now(c: &Car) -> (r: bool)
    ensures
        r == crate::model::retirement_due(c.model()),
{
    proof {
        assert(100_000_000 == MAX_KM * MAX_RENTALS);
        assert(1_825_000 == MAX_AGE_DAYS * MAX_RENTALS);
        assert(730_000_000 == MAX_AGE_DAYS * MAX_KM);
        assert(365_000_000_000 == MAX_AGE_DAYS * MAX_KM * MAX_RENTALS);
    }
    let age_part: u64 = (c.age_days as u64) * 100_000_000;
    let mileage_part: u64 = (c.mileage as u64) * 1_825_000;
    let rentals_part: u64 = (c.rental_count as u64) * 730_000_000;
    let num: u64 = age_part + mileage_part + rentals_part;
    num > 365_000_000_000
}

/// A field-by-field copy of a reservation.
fn clone_reservation(r: &Reservation) -> (c: Reservation)
    ensures
        c == *r,
{
    let c = Reservation {
        person_id: r.person_id.clone(),
        car_id: r.car_id.clone(),
        priority: r.priority,
    };
    proof {
        assert(c == *r);
    }
    c
}

/// A field-by-field copy of a person.
fn clone_person(p: &Person) -> (c: Person)
    ensures
        c == *p,
{
    let c = Person {
        identifier: p.identifier.clone(),
        license_valid_days: p.license_valid_days,
        status: p.status,
    };
    proof {
        assert(c == *p);
    }
    c
}

/// A field-by-field copy of a car.
fn clone_car(x: &Car) -> (c: Car)
    ensures
        c == *x,
{
    let c = Car {
        identifier: x.identifier.clone(),
        mileage: x.mileage,
        status: x.status,
        age_days: x.age_days,
        rental_count: x.rental_count,
    };
    proof {
        assert(c == *x);
    }
    c
}

/// Identifiers of the persons holding a reservation for this car, in
/// queue order.
pub fn persons_with_reservation_for_car(reservations: &Vec<Reservation>, car_id: &str) -> (r: Vec<
    String,
>)
    ensures
        r@.map_values(|x: String| x@) == crate::model::spec_reservations_for_car(
            reservations_model(reservations@),
            car_id@,
        ),
{
    let cid: String = car_id.to_owned();
    let ghost s = reservations_model(reservations@);
    let mut out: Vec<String> = Vec::new();
    let mut i: usize = 0;
    while i < reservations.len()
        invariant
            i <= reservations@.len(),
            cid@ == car_id@,
            s == reservations_model(reservations@),
            out@.map_values(|x: String| x@) == s.take(i as int).filter(
                |r: ReservationModel| r.car == car_id@,
            ).map_values(|r: ReservationModel| r.person),
        decreases reservations@.len() - i,
    {
        proof {
            assert(s[i as int] == reservations@[i as int].model());
            lemma_filter_take_step(s, |r: ReservationModel| r.car == car_id@, i as int);
        }
        if reservations[i].car_id == cid {
            let name = reservations[i].person_id.clone();
            let ghost ng = name;
            let ghost out_before = out@;
            out.push(name);
            proof {
                lemma_map_values_push(out_before, |x: String| x@, ng);
                lemma_map_values_push(
                    s.take(i as int).filter(|r: ReservationModel| r.car == car_id@),
                    |r: ReservationModel| r.person,
                    s[i as int],
                );
            }
        }
        i += 1;
    }
    proof {
        assert(s.take(s.len() as int) =~= s);
    }
    out
}

/// The reservation queue sorted by priority, highest first; equal
/// priorities keep their prior relative order.
fn sorted_reservations_desc(input: &Vec<Reservation>) -> (out: Vec<Reservation>)
    ensures
        reservations_model(out@) == crate::model::sort_desc(reservations_model(input@)),
{
    let ghost s = reservations_model(input@);
    let mut out: Vec<Reservation> = Vec::new();
    let mut i: usize = 0;
    while i < input.len()
        invariant
            i <= input@.len(),
            s == reservations_model(input@),
            reservations_model(out@) == crate::model::sort_desc(s.take(i as int)),
        decreases input@.len() - i,
    {
        let r = clone_reservation(&input[i]);
        let ghost rm = r.model();
        let ghost outm = reservations_model(out@);
        proof {
            assert(s[i as int] == input@[i as int].model());
            assert(rm == s[i as int]);
        }
        let mut j: usize = 0;
        while j < out.len() && out[j].priority >= r.priority
            invariant
                j <= out@.len(),
                outm == reservations_model(out@),
                rm == r.model(),
                forall|w: int| 0 <= w < j ==> (#[trigger] outm[w]).priority >= rm.priority,
            decreases out@.len() - j,
        {
            proof {
                assert(outm[j as int] == out@[j as int].model());
            }
            j += 1;
        }
        proof {
            if (j as int) < outm.len() {
                assert(outm[j as int] == out@[j as int].model());
                lemma_find_first_is(
                    outm,
                    |x: ReservationModel| x.priority < rm.priority,
                    j as int,
                );
            } else {
                lemma_find_first_none(outm, |x: ReservationModel| x.priority < rm.priority);
            }
            assert(crate::model::insert_pos(rm, outm) == j as int);
        }
        let ghost out_before = out@;
        let ghost rg = r;
        out.insert(j, r);
        proof {
            out_before.insert_ensures(j as int, rg);
            crate::resolver_lemmas::lemma_insert_desc_shape(rm, outm);
            assert(reservations_model(out@) =~= outm.take(j as int) + seq![rm] + outm.skip(
                j as int,
            ));
            assert(s.take(i as int + 1).drop_last() =~= s.take(i as int));
            assert(s.take(i as int + 1).last() == s[i as int]);
            assert(crate::model::sort_desc(s.take(i as int + 1)) == crate::model::insert_desc(
                rm,
                outm,
            ));
        }
        i += 1;
    }
    proof {
        assert(s.take(s.len() as int) =~= s);
    }
    out
}

/// True iff this person appears on the left of one of the granted pairs.
fn granted_contains_person(granted: &Vec<(String, String)>, person_id: &String) -> (r: bool)
    ensures
        r == crate::model::person_granted(crate::state::pairs_view(granted@), person_id@),
{
    let ghost g = crate::state::pairs_view(granted@);
    let mut i: usize = 0;
    while i < granted.len()
        invariant
            i <= granted@.len(),
            g == crate::state::pairs_view(granted@),
            forall|w: int| 0 <= w < i ==> (#[trigger] g[w]).0 != person_id@,
        decreases granted@.len() - i,
    {
        proof {
            assert(g[i as int] == (granted@[i as int].0@, granted@[i as int].1@));
        }
        if granted[i].0 == *person_id {
            proof {
                assert(g[i as int].0 == person_id@);
            }
            return true;
        }
        i += 1;
    }
    proof {
        if crate::model::person_granted(g, person_id@) {
            let w = choose|w: int| 0 <= w < g.len() && g[w].0 == person_id@;
            assert(false);
        }
    }
    false
}

impl CarSharing {
    /// Register a person: rejected on a duplicate identifier.
    pub fn register_person(&mut self, p: Person) -> (r: bool)
        requires
            old(self).wf(),
        ensures
            final(self).wf(),
            r == old(self).model().register_person(p.model()).1,
            final(self).model() == old(self).model().register_person(p.model()).0,
    {
        let ghost pm = p.model();
        let ghost pg = p;
        proof {
            lemma_wf_register_person(old(self).model(), pm);
        }
        if person_exist(&self.persons, &p) {
            return false;
        }
        self.persons.push(p);
        proof {
            lemma_map_values_push(old(self).persons@, |q: Person| q.model(), pg);
            assert(old(self).persons@.map_values(|q: Person| q.model()) =~= persons_model(
                old(self).persons@,
            ));
            assert(self.model() =~= old(self).model().register_person(pm).0);
        }
        true
    }

    /// Renew a license: the validity counter is replaced and the person
    /// becomes Active again.
    pub fn renew_license(&mut self, identifier: &str, new_valid_days: u32) -> (r: bool)
        requires
            old(self).wf(),
        ensures
            final(self).wf(),
            r == old(self).model().renew_license(identifier@, new_valid_days).1,
            final(self).model() == old(self).model().renew_license(identifier@, new_valid_days).0,
    {
        proof {
            lemma_wf_renew_license(old(self).model(), identifier@, new_valid_days);
        }
        if let Some(index) = find_index_persons(&self.persons, identifier) {
            let person = &mut self.persons[index];
            person.license_valid_days = new_valid_days;
            person.status = PersonStatus::Active;
            proof {
                let oldp = old(self).persons@[index as int];
                let newp = Person {
                    license_valid_days: new_valid_days,
                    status: PersonStatus::Active,
                    ..oldp
                };
                assert(self.persons@ == old(self).persons@.update(index as int, newp));
                lemma_map_values_update(
                    old(self).persons@,
                    |q: Person| q.model(),
                    index as int,
                    newp,
                );
                assert(self.model() =~= old(self).model().renew_license(
                    identifier@,
                    new_valid_days,
                ).0);
            }
            true
        } else {
            false
        }
    }

    /// Status of the person with this identifier, if registered.
    pub fn get_person_status(&self, identifier: &str) -> (r: Option<PersonStatus>)
        ensures
            r == self.model().person_status(identifier@),
    {
        if let Some(index) = find_index_persons(&self.persons, identifier) {
            proof {
                assert(persons_model(self.persons@)[index as int] == self.persons@[index as int]
                    .model());
            }
            Some(self.persons[index].status)
        } else {
            None
        }
    }

    /// Register a car: rejected on a duplicate identifier, above the
    /// maximum lifetime mileage, or with a retirement score over 1.
    pub fn register_car(&mut self, c: Car) -> (r: bool)
        requires
            old(self).wf(),
        ensures
            final(self).wf(),
            r == old(self).model().register_car(c.model()).1,
            final(self).model() == old(self).model().register_car(c.model()).0,
    {
        let ghost cm = c.model();
        let ghost cg = c;
        proof {
            lemma_wf_register_car(old(self).model(), cm);
        }
        if car_exist(&self.cars, &c) {
            return false;
        }
        if c.mileage > MAX_KM {
            return false;
        }
        if retirement_due_now(&c) {
            return false;
        }
        self.cars.push(c);
        proof {
            lemma_map_values_push(old(self).cars@, |q: Car| q.model(), cg);
            assert(self.model() =~= old(self).model().register_car(cm).0);
        }
        true
    }

    /// Status of the car with this identifier, if registered.
    pub fn get_car_status(&self, identifier: &str) -> (r: Option<CarStatus>)
        ensures
            r == self.model().car_status(identifier@),
    {
        if let Some(index) = find_index_cars(&self.cars, identifier) {
            proof {
                assert(cars_model(self.cars@)[index as int] == self.cars@[index as int].model());
            }
            Some(self.cars[index].status)
        } else {
            None
        }
    }

    /// Reserve a car: on success the reservation is appended to the queue.
    pub fn reserve_car(&mut self, person_id: &str, car_id: &str, priority: u32) -> (r: bool)
        requires
            old(self).wf(),
        ensures
            final(self).wf(),
            r == old(self).model().reserve_car(person_id@, car_id@, priority).1,
            final(self).model() == old(self).model().reserve_car(person_id@, car_id@, priority).0,
    {
        proof {
            lemma_wf_reserve_car(old(self).model(), person_id@, car_id@, priority);
        }
        if p_can_reserve(&self.persons, &self.rentals, &self.reservations, person_id, car_id) {
            let entry = Reservation {
                person_id: person_id.to_owned(),
                car_id: car_id.to_owned(),
                priority,
            };
            let ghost em = entry.model();
            let ghost eg = entry;
            self.reservations.push(entry);
            proof {
                lemma_map_values_push(old(self).reservations@, |q: Reservation| q.model(), eg);
                assert(self.model() =~= old(self).model().reserve_car(
                    person_id@,
                    car_id@,
                    priority,
                ).0);
            }
            true
        } else {
            false
        }
    }

    /// Cancel the reservation of this person for this car, if it exists.
    pub fn cancel_reservation(&mut self, person_id: &str, car_id: &str) -> (r: bool)
        requires
            old(self).wf(),
        ensures
            final(self).wf(),
            r == old(self).model().cancel_reservation(person_id@, car_id@).1,
            final(self).model() == old(self).model().cancel_reservation(person_id@, car_id@).0,
    {
        proof {
            lemma_wf_cancel_reservation(old(self).model(), person_id@, car_id@);
        }
        if let Some(index) = find_index_reservations(&self.reservations, person_id, car_id) {
            self.reservations.remove(index);
            proof {
                crate::lemmas::lemma_map_values_remove(
                    old(self).reservations@,
                    |q: Reservation| q.model(),
                    index as int,
                );
                assert(self.model() =~= old(self).model().cancel_reservation(
                    person_id@,
                    car_id@,
                ).0);
            }
            true
        } else {
            false
        }
    }

    /// Unregister a person: rejected if unknown or currently renting.
    /// All reservations of the person are dropped with them.
    pub fn unregister_person(&mut self, identifier: &str) -> (r: bool)
        requires
            old(self).wf(),
        ensures
            final(self).wf(),
            r == old(self).model().unregister_person(identifier@).1,
            final(self).model() == old(self).model().unregister_person(identifier@).0,
    {
        proof {
            lemma_wf_unregister_person(old(self).model(), identifier@);
        }
        if find_index_persons(&self.persons, identifier).is_none() {
            return false;
        }
        if find_persons_rentals(&self.rentals, identifier) {
            return false;
        }
        let id: String = identifier.to_owned();
        let ghost sr = reservations_model(self.reservations@);
        let mut kept_reservations: Vec<Reservation> = Vec::new();
        let mut i: usize = 0;
        while i < self.reservations.len()
            invariant
                i <= self.reservations@.len(),
                id@ == identifier@,
                sr == reservations_model(self.reservations@),
                *self == *old(self),
                kept_reservations@.map_values(|q: Reservation| q.model()) == sr.take(
                    i as int,
                ).filter(|q: ReservationModel| q.person != identifier@),
            decreases self.reservations@.len() - i,
        {
            proof {
                assert(sr[i as int] == self.reservations@[i as int].model());
                lemma_filter_take_step(
                    sr,
                    |q: ReservationModel| q.person != identifier@,
                    i as int,
                );
            }
            if !(self.reservations[i].person_id == id) {
                let kr = clone_reservation(&self.reservations[i]);
                let ghost kg = kr;
                let ghost kept_before = kept_reservations@;
                kept_reservations.push(kr);
                proof {
                    lemma_map_values_push(kept_before, |q: Reservation| q.model(), kg);
                }
            }
            i += 1;
        }
        let ghost sp = persons_model(self.persons@);
        let mut kept_persons: Vec<Person> = Vec::new();
        let mut k: usize = 0;
        while k < self.persons.len()
            invariant
                k <= self.persons@.len(),
                id@ == identifier@,
                sp == persons_model(self.persons@),
                *self == *old(self),
                kept_persons@.map_values(|q: Person| q.model()) == sp.take(k as int).filter(
                    |q: PersonModel| q.id != identifier@,
                ),
            decreases self.persons@.len() - k,
        {
            proof {
                assert(sp[k as int] == self.persons@[k as int].model());
                lemma_filter_take_step(sp, |q: PersonModel| q.id != identifier@, k as int);
            }
            if !(self.persons[k].identifier == id) {
                let kp = clone_person(&self.persons[k]);
                let ghost pg = kp;
                let ghost kept_before = kept_persons@;
                kept_persons.push(kp);
                proof {
                    lemma_map_values_push(kept_before, |q: Person| q.model(), pg);
                }
            }
            k += 1;
        }
        self.reservations = kept_reservations;
        self.persons = kept_persons;
        proof {
            assert(sr.take(sr.len() as int) =~= sr);
            assert(sp.take(sp.len() as int) =~= sp);
            assert(self.model() =~= old(self).model().unregister_person(identifier@).0);
        }
        true
    }

    /// Unregister a car: rejected if unknown, currently rented, or held
    /// by maintenance or inspection. Reservations for the car are
    /// dropped with it.
    pub fn unregister_car(&mut self, identifier: &str) -> (r: bool)
        requires
            old(self).wf(),
        ensures
            final(self).wf(),
            r == old(self).model().unregister_car(identifier@).1,
            final(self).model() == old(self).model().unregister_car(identifier@).0,
    {
        proof {
            lemma_wf_unregister_car(old(self).model(), identifier@);
        }
        if find_index_cars_rentals(&self.rentals, identifier).is_some() {
            return false;
        }
        let car_index = if let Some(ci) = find_index_cars(&self.cars, identifier) {
            ci
        } else {
            return false;
        };
        proof {
            assert(cars_model(self.cars@)[car_index as int] == self.cars@[car_index as int]
                .model());
        }
        if matches!(self.cars[car_index].status, CarStatus::Maintenance(_)) {
            return false;
        }
        if matches!(self.cars[car_index].status, CarStatus::Tuv(_)) {
            return false;
        }
        let id: String = identifier.to_owned();
        let ghost sr = reservations_model(self.reservations@);
        let mut kept_reservations: Vec<Reservation> = Vec::new();
        let mut i: usize = 0;
        while i < self.reservations.len()
            invariant
                i <= self.reservations@.len(),
                id@ == identifier@,
                sr == reservations_model(self.reservations@),
                *self == *old(self),
                kept_reservations@.map_values(|q: Reservation| q.model()) == sr.take(
                    i as int,
                ).filter(|q: ReservationModel| q.car != identifier@),
            decreases self.reservations@.len() - i,
        {
            proof {
                assert(sr[i as int] == self.reservations@[i as int].model());
                lemma_filter_take_step(sr, |q: ReservationModel| q.car != identifier@, i as int);
            }
            if !(self.reservations[i].car_id == id) {
                let kr = clone_reservation(&self.reservations[i]);
                let ghost kg = kr;
                let ghost kept_before = kept_reservations@;
                kept_reservations.push(kr);
                proof {
                    lemma_map_values_push(kept_before, |q: Reservation| q.model(), kg);
                }
            }
            i += 1;
        }
        let ghost sc = cars_model(self.cars@);
        let mut kept_cars: Vec<Car> = Vec::new();
        let mut k: usize = 0;
        while k < self.cars.len()
            invariant
                k <= self.cars@.len(),
                id@ == identifier@,
                sc == cars_model(self.cars@),
                *self == *old(self),
                kept_cars@.map_values(|q: Car| q.model()) == sc.take(k as int).filter(
                    |q: CarModel| q.id != identifier@,
                ),
            decreases self.cars@.len() - k,
        {
            proof {
                assert(sc[k as int] == self.cars@[k as int].model());
                lemma_filter_take_step(sc, |q: CarModel| q.id != identifier@, k as int);
            }
            if !(self.cars[k].identifier == id) {
                let kc = clone_car(&self.cars[k]);
                let ghost cg = kc;
                let ghost kept_before = kept_cars@;
                kept_cars.push(kc);
                proof {
                    lemma_map_values_push(kept_before, |q: Car| q.model(), cg);
                }
            }
            k += 1;
        }
        self.reservations = kept_reservations;
        self.cars = kept_cars;
        proof {
            assert(sr.take(sr.len() as int) =~= sr);
            assert(sc.take(sc.len() as int) =~= sc);
            assert(self.model() =~= old(self).model().unregister_car(identifier@).0);
        }
        true
    }

    /// Identifiers of the cars that are Available, in registration order.
    pub fn get_available_cars(&self) -> (r: Vec<String>)
        ensures
            r@.map_values(|x: String| x@) == self.model().available_cars(),
    {
        let ghost sc = cars_model(self.cars@);
        let mut av_cars: Vec<String> = Vec::new();
        let mut i: usize = 0;
        while i < self.cars.len()
            invariant
                i <= self.cars@.len(),
                sc == cars_model(self.cars@),
                av_cars@.map_values(|x: String| x@) == sc.take(i as int).filter(
                    |q: CarModel| q.status is Available,
                ).map_values(|q: CarModel| q.id),
            decreases self.cars@.len() - i,
        {
            proof {
                assert(sc[i as int] == self.cars@[i as int].model());
                lemma_filter_take_step(sc, |q: CarModel| q.status is Available, i as int);
            }
            if matches!(self.cars[i].status, CarStatus::Available) {
                let name = self.cars[i].identifier.clone();
                let ghost ng = name;
                let ghost out_before = av_cars@;
                av_cars.push(name);
                proof {
                    lemma_map_values_push(out_before, |x: String| x@, ng);
                    lemma_map_values_push(
                        sc.take(i as int).filter(|q: CarModel| q.status is Available),
                        |q: CarModel| q.id,
                        sc[i as int],
                    );
                }
            }
            i += 1;
        }
        proof {
            assert(sc.take(sc.len() as int) =~= sc);
        }
        av_cars
    }

    /// Identifiers of the persons with a reservation for this car.
    pub fn get_reservations_for_car(&self, car_id: &str) -> (r: Vec<String>)
        ensures
            r@.map_values(|x: String| x@) == self.model().reservations_for_car(car_id@),
    {
        persons_with_reservation_for_car(&self.reservations, car_id)
    }

    /// Rent a car: runs the admission check; on success records the
    /// pair, flips the car to Rented and counts the rental. Nothing is
    /// applied on failure.
    pub fn rent_car(&mut self, person_id: &str, car_id: &str) -> (r: bool)
        requires
            old(self).wf(),
        ensures
            final(self).wf(),
            r == old(self).model().can_rent(person_id@, car_id@),
            r == old(self).model().rent_car(person_id@, car_id@).1,
            final(self).model() == old(self).model().rent_car(person_id@, car_id@).0,
    {
        proof {
            lemma_wf_rent_car(old(self).model(), person_id@, car_id@);
        }
        if p_can_rent_car(&self.rentals, &self.persons, &self.cars, person_id, car_id) {
            let pair = (person_id.to_owned(), car_id.to_owned());
            let ghost pg = pair;
            self.rentals.push(pair);
            proof {
                lemma_map_values_push(
                    old(self).rentals@,
                    |q: (String, String)| RentalModel { person: q.0@, car: q.1@ },
                    pg,
                );
            }
            if let Some(index) = find_index_cars(&self.cars, car_id) {
                proof {
                    assert(cars_model(self.cars@)[index as int] == self.cars@[index as int]
                        .model());
                    assert(crate::model::wf_car(cars_model(self.cars@)[index as int]));
                }
                let car = &mut self.cars[index];
                car.status = CarStatus::Rented;
                car.rental_count = car.rental_count + 1;
                proof {
                    let oldc = old(self).cars@[index as int];
                    let newc = Car {
                        status: CarStatus::Rented,
                        rental_count: (oldc.rental_count + 1) as u32,
                        ..oldc
                    };
                    assert(self.cars@ == old(self).cars@.update(index as int, newc));
                    lemma_map_values_update(
                        old(self).cars@,
                        |q: Car| q.model(),
                        index as int,
                        newc,
                    );
                    assert(self.model() =~= old(self).model().rent_car(person_id@, car_id@).0);
                }
            } else {
                proof {
                    assert(self.model() =~= old(self).model().rent_car(person_id@, car_id@).0);
                }
            }
            true
        } else {
            false
        }
    }

    /// Return a rented car: the mileage grows by the distance driven,
    /// and the car's next status is decided in priority order: Retired
    /// if the retirement score now exceeds 1, else the threshold rule
    /// for inspection and maintenance, else Available. The rental is
    /// removed whichever branch is taken.
    pub fn return_car(&mut self, person_id: &str, car_id: &str, driven_km: u32) -> (r: bool)
        requires
            old(self).wf(),
            driven_km <= u32::MAX - MAX_KM,
        ensures
            final(self).wf(),
            r == old(self).model().return_car(person_id@, car_id@, driven_km).1,
            final(self).model() == old(self).model().return_car(person_id@, car_id@, driven_km).0,
    {
        proof {
            lemma_wf_return_car(old(self).model(), person_id@, car_id@, driven_km);
        }
        let index_rental = if let Some(ri) = find_index_rentals(&self.rentals, person_id, car_id) {
            ri
        } else {
            return false;
        };
        let index_car = if let Some(ci) = find_index_cars(&self.cars, car_id) {
            ci
        } else {
            return false;
        };
        proof {
            let m = old(self).model();
            lemma_find_first_characterized(
                m.rentals,
                |p: RentalModel| p.person == person_id@ && p.car == car_id@,
            );
            assert(m.rentals[index_rental as int].car == car_id@);
            assert(m.car_is_rented(m.rentals[index_rental as int].car));
            assert(m.cars[index_car as int].status is Rented);
            assert(crate::model::wf_car(m.cars[index_car as int]));
            assert(m.cars[index_car as int] == self.cars@[index_car as int].model());
        }
        let start_km = self.cars[index_car].mileage;
        let car = &mut self.cars[index_car];
        car.mileage = start_km + driven_km;
        let due = retirement_due_now(&self.cars[index_car]);
        let next_status = if due {
            CarStatus::Retired
        } else {
            match check_maintenance_or_tuv(start_km, driven_km) {
                Some(st) => st,
                None => CarStatus::Available,
            }
        };
        let car2 = &mut self.cars[index_car];
        car2.status = next_status;
        self.rentals.remove(index_rental);
        proof {
            let oldc = old(self).cars@[index_car as int];
            let newc = Car {
                mileage: (start_km + driven_km) as u32,
                status: next_status,
                ..oldc
            };
            assert(self.cars@ =~= old(self).cars@.update(index_car as int, newc));
            lemma_map_values_update(old(self).cars@, |q: Car| q.model(), index_car as int, newc);
            lemma_map_values_remove(
                old(self).rentals@,
                |q: (String, String)| RentalModel { person: q.0@, car: q.1@ },
                index_rental as int,
            );
            assert(self.model() =~= old(self).model().return_car(
                person_id@,
                car_id@,
                driven_km,
            ).0);
        }
        true
    }

    /// Resolve the reservation queue: sort it by priority descending
    /// (stable), try to rent for each entry in order, then purge every
    /// granted person's remaining reservations. Returns the granted
    /// (person, car) pairs in grant order; reservations that could not
    /// be satisfied stay queued.
    pub fn process_reservations(&mut self) -> (granted: Vec<(String, String)>)
        requires
            old(self).wf(),
        ensures
            final(self).wf(),
            crate::state::pairs_view(granted@) == old(self).model().process_reservations().1,
            final(self).model() == old(self).model().process_reservations().0,
    {
        let ghost m0 = old(self).model();
        let ghost sortedm = crate::model::sort_desc(m0.reservations);
        let ghost queued = CarSharingModel { reservations: sortedm, ..m0 };
        proof {
            crate::resolver_lemmas::lemma_wf_sorted(m0);
            crate::resolver_lemmas::lemma_process_props(m0);
        }
        let sorted_vec = sorted_reservations_desc(&self.reservations);
        self.reservations = sorted_vec;
        proof {
            assert(self.model() =~= queued);
        }
        let mut granted: Vec<(String, String)> = Vec::new();
        proof {
            assert(sortedm.skip(0) =~= sortedm);
            assert(crate::state::pairs_view(granted@) =~= Seq::<(Seq<char>, Seq<char>)>::empty());
            assert(Seq::<(Seq<char>, Seq<char>)>::empty() + crate::model::grant_pass(
                queued,
                sortedm,
            ).1 =~= crate::model::grant_pass(queued, sortedm).1);
        }
        let mut i: usize = 0;
        let n = self.reservations.len();
        while i < n
            invariant
                i <= n,
                n as int == sortedm.len(),
                self.wf(),
                reservations_model(self.reservations@) == sortedm,
                crate::model::grant_pass(queued, sortedm).0 == crate::model::grant_pass(
                    self.model(),
                    sortedm.skip(i as int),
                ).0,
                crate::model::grant_pass(queued, sortedm).1 == crate::state::pairs_view(granted@)
                    + crate::model::grant_pass(self.model(), sortedm.skip(i as int)).1,
            decreases n - i,
        {
            proof {
                assert(reservations_model(self.reservations@)[i as int] == self.reservations@[i as int].model());
            }
            let pid = self.reservations[i].person_id.clone();
            let cid = self.reservations[i].car_id.clone();
            proof {
                assert(pid@ == sortedm[i as int].person);
                assert(cid@ == sortedm[i as int].car);
            }
            let ghost m_i = self.model();
            let ghost tailm = sortedm.skip(i as int);
            let ok = self.rent_car(pid.as_str(), cid.as_str());
            proof {
                assert(tailm.len() > 0);
                assert(tailm[0] == sortedm[i as int]);
                assert(tailm.drop_first() =~= sortedm.skip(i as int + 1));
                assert(self.model() == m_i.rent_car(tailm[0].person, tailm[0].car).0);
                assert(ok == m_i.can_rent(tailm[0].person, tailm[0].car));
            }
            if ok {
                let pair = (pid, cid);
                let ghost pg = pair;
                let ghost granted_before = granted@;
                granted.push(pair);
                proof {
                    assert(crate::state::pairs_view(granted@) =~= crate::state::pairs_view(
                        granted_before,
                    ).push((pg.0@, pg.1@)));
                    assert((crate::state::pairs_view(granted_before) + seq![(pg.0@, pg.1@)])
                        + crate::model::grant_pass(self.model(), sortedm.skip(i as int + 1)).1
                        =~= crate::state::pairs_view(granted_before) + (seq![(pg.0@, pg.1@)]
                        + crate::model::grant_pass(self.model(), sortedm.skip(i as int + 1)).1));
                    assert(crate::state::pairs_view(granted@) =~= crate::state::pairs_view(
                        granted_before,
                    ) + seq![(pg.0@, pg.1@)]);
                }
            }
            i += 1;
        }
        proof {
            assert(sortedm.skip(n as int) =~= Seq::<ReservationModel>::empty());
            assert(crate::model::grant_pass(self.model(), Seq::<ReservationModel>::empty()).0
                == self.model());
            assert(crate::state::pairs_view(granted@) + Seq::<(Seq<char>, Seq<char>)>::empty()
                =~= crate::state::pairs_view(granted@));
            assert(crate::model::grant_pass(queued, sortedm).0 == self.model());
            assert(crate::model::grant_pass(queued, sortedm).1 == crate::state::pairs_view(
                granted@,
            ));
        }
        let ghost m_n = self.model();
        let ghost grantedm = crate::state::pairs_view(granted@);
        let ghost sr = reservations_model(self.reservations@);
        let mut kept: Vec<Reservation> = Vec::new();
        let mut k: usize = 0;
        while k < self.reservations.len()
            invariant
                k <= self.reservations@.len(),
                sr == reservations_model(self.reservations@),
                grantedm == crate::state::pairs_view(granted@),
                kept@.map_values(|q: Reservation| q.model()) == sr.take(k as int).filter(
                    |q: ReservationModel| !crate::model::person_granted(grantedm, q.person),
                ),
            decreases self.reservations@.len() - k,
        {
            proof {
                assert(sr[k as int] == self.reservations@[k as int].model());
                lemma_filter_take_step(
                    sr,
                    |q: ReservationModel| !crate::model::person_granted(grantedm, q.person),
                    k as int,
                );
            }
            if !granted_contains_person(&granted, &self.reservations[k].person_id) {
                let kr = clone_reservation(&self.reservations[k]);
                let ghost kg = kr;
                let ghost kept_before = kept@;
                kept.push(kr);
                proof {
                    lemma_map_values_push(kept_before, |q: Reservation| q.model(), kg);
                }
            }
            k += 1;
        }
        self.reservations = kept;
        proof {
            assert(sr.take(sr.len() as int) =~= sr);
            assert(self.model() =~= m0.process_reservations().0);
        }
        granted
    }

    /// Advance the simulation by `n` days, each day in the fixed order:
    /// day counter, license decay, aging, the daily retirement check,
    /// the maintenance and inspection countdowns, then one resolver run.
    pub fn simulate_n_days(&mut self, n: u32)
        requires
            old(self).wf(),
            old(self).model().can_advance(n),
        ensures
            final(self).wf(),
            final(self).model() == old(self).model().simulate(n as nat),
    {
        let mut day: u32 = 0;
        while day < n
            invariant
                day <= n,
                self.wf(),
                self.model() == old(self).model().simulate(day as nat),
                self.model().can_advance((n - day) as u32),
            decreases n - day,
        {
            let ghost m_d = self.model();
            proof {
                crate::resolver_lemmas::lemma_wf_advance_day(m_d);
                crate::resolver_lemmas::lemma_tick_props(m_d);
                crate::resolver_lemmas::lemma_simulate_snoc(old(self).model(), day as nat);
            }
            self.current_day = self.current_day + 1;
            let ghost persons0 = self.persons@;
            let ghost cars0 = self.cars@;
            let ghost rentals0 = self.rentals@;
            let ghost reservations0 = self.reservations@;
            let ghost day0 = self.current_day;
            let mut k: usize = 0;
            while k < self.persons.len()
                invariant
                    k <= persons0.len(),
                    self.persons@.len() == persons0.len(),
                    self.cars@ == cars0,
                    self.rentals@ == rentals0,
                    self.reservations@ == reservations0,
                    self.current_day == day0,
                    forall|w: int|
                        0 <= w < k ==> #[trigger] persons_model(self.persons@)[w]
                            == crate::model::tick_person(persons_model(persons0)[w]),
                    forall|w: int|
                        k <= w < persons0.len() ==> #[trigger] self.persons@[w] == persons0[w],
                decreases persons0.len() - k,
            {
                let ghost before = self.persons@;
                let p = &mut self.persons[k];
                if p.license_valid_days > 0 {
                    p.license_valid_days = p.license_valid_days - 1;
                }
                if p.license_valid_days == 0 {
                    p.status = PersonStatus::Blocked;
                }
                proof {
                    assert(before[k as int] == persons0[k as int]);
                    assert(persons_model(self.persons@)[k as int] == self.persons@[k as int]
                        .model());
                    assert(persons_model(persons0)[k as int] == persons0[k as int].model());
                    assert(persons_model(self.persons@)[k as int] == crate::model::tick_person(
                        persons_model(persons0)[k as int],
                    ));
                    assert(forall|w: int|
                        0 <= w < persons0.len() && w != k ==> #[trigger] self.persons@[w]
                            == before[w]);
                    assert forall|w: int| 0 <= w < k + 1 implies #[trigger] persons_model(
                        self.persons@,
                    )[w] == crate::model::tick_person(persons_model(persons0)[w]) by {
                        if w < k {
                            assert(self.persons@[w] == before[w]);
                            assert(persons_model(self.persons@)[w] == self.persons@[w].model());
                            assert(persons_model(before)[w] == before[w].model());
                        }
                    }
                }
                k += 1;
            }
            proof {
                assert(persons_model(self.persons@) =~= persons_model(persons0).map_values(
                    |q: PersonModel| crate::model::tick_person(q),
                ));
            }
            let ghost persons1 = self.persons@;
            let mut c_i: usize = 0;
            while c_i < self.cars.len()
                invariant
                    c_i <= cars0.len(),
                    self.cars@.len() == cars0.len(),
                    self.persons@ == persons1,
                    self.rentals@ == rentals0,
                    self.reservations@ == reservations0,
                    self.current_day == day0,
                    m_d.cars == cars_model(cars0),
                    m_d.can_advance((n - day) as u32),
                    day < n,
                    forall|w: int|
                        0 <= w < c_i ==> #[trigger] cars_model(self.cars@)[w]
                            == crate::model::count_down_car(
                            crate::model::retire_car(
                                crate::model::age_car(cars_model(cars0)[w]),
                            ),
                        ),
                    forall|w: int|
                        c_i <= w < cars0.len() ==> #[trigger] self.cars@[w] == cars0[w],
                decreases cars0.len() - c_i,
            {
                let ghost before = self.cars@;
                proof {
                    assert(before[c_i as int] == cars0[c_i as int]);
                    assert(m_d.cars[c_i as int] == cars0[c_i as int].model());
                    assert(m_d.cars[c_i as int].age_days + (n - day) <= u32::MAX);
                }
                let c = &mut self.cars[c_i];
                c.age_days = c.age_days + 1;
                let due = retirement_due_now(&self.cars[c_i]);
                let c2 = &mut self.cars[c_i];
                if !matches!(c2.status, CarStatus::Rented) {
                    if c2.age_days >= MAX_AGE_DAYS || c2.rental_count >= MAX_RENTALS || due {
                        c2.status = CarStatus::Retired;
                    }
                }
                match c2.status {
                    CarStatus::Maintenance(d) => {
                        c2.status = if d > 1 {
                            CarStatus::Maintenance(d - 1)
                        } else {
                            CarStatus::Available
                        };
                    },
                    CarStatus::Tuv(d) => {
                        c2.status = if d > 1 {
                            CarStatus::Tuv(d - 1)
                        } else {
                            CarStatus::Available
                        };
                    },
                    _ => {},
                }
                proof {
                    assert(cars_model(self.cars@)[c_i as int] == self.cars@[c_i as int].model());
                    assert(cars_model(self.cars@)[c_i as int] == crate::model::count_down_car(
                        crate::model::retire_car(
                            crate::model::age_car(cars_model(cars0)[c_i as int]),
                        ),
                    ));
                    assert(forall|w: int|
                        0 <= w < cars0.len() && w != c_i ==> #[trigger] self.cars@[w]
                            == before[w]);
                    assert forall|w: int| 0 <= w < c_i + 1 implies #[trigger] cars_model(
                        self.cars@,
                    )[w] == crate::model::count_down_car(
                        crate::model::retire_car(
                            crate::model::age_car(cars_model(cars0)[w]),
                        ),
                    ) by {
                        if w < c_i {
                            assert(self.cars@[w] == before[w]);
                            assert(cars_model(self.cars@)[w] == self.cars@[w].model());
                            assert(cars_model(before)[w] == before[w].model());
                        }
                    }
                }
                c_i += 1;
            }
            proof {
                assert(cars_model(self.cars@) =~= cars_model(cars0).map_values(
                    |q: CarModel| crate::model::count_down_car(
                        crate::model::retire_car(crate::model::age_car(q)),
                    ),
                ));
                assert(self.model() =~= m_d.advance_day());
            }
            self.process_reservations();
            proof {
                assert(self.model() == m_d.tick());
                assert forall|w: int| 0 <= w < self.model().cars.len() implies (
                #[trigger] self.model().cars[w]).age_days + (n - day - 1) <= u32::MAX by {
                    assert(self.model().cars[w].age_days == (m_d.cars[w].age_days + 1) as u32);
                    assert(m_d.cars[w].age_days + (n - day) <= u32::MAX);
                }
            }
            day = day + 1;
        }
    }

    /// Decide well-formedness of the aggregate as it stands: exactly
    /// the invariant that every operation preserves.
    pub fn check_state(&self) -> (r: bool)
        ensures
            r == self.wf(),
    {
        let ghost m = self.model();
        // unique person identifiers: each person is its own first match
        let mut i: usize = 0;
        while i < self.persons.len()
            invariant
                i <= self.persons@.len(),
                m == self.model(),
                forall|a: int, b: int|
                    0 <= a < b < i ==> (#[trigger] m.persons[a]).id != (
                    #[trigger] m.persons[b]).id,
            decreases self.persons@.len() - i,
        {
            proof {
                assert(m.persons[i as int] == self.persons@[i as int].model());
            }
            match find_index_persons(&self.persons, self.persons[i].identifier.as_str()) {
                Some(k) => {
                    if k != i {
                        proof {
                            lemma_find_first_characterized(
                                m.persons,
                                |p: PersonModel| p.id == self.persons@[i as int].identifier@,
                            );
                            assert(m.persons[k as int].id == m.persons[i as int].id);
                            assert(!crate::model::proj_unique(
                                m.persons,
                                |p: PersonModel| p.id,
                            )) by {
                                if crate::model::proj_unique(m.persons, |p: PersonModel| p.id) {
                                    assert((|p: PersonModel| p.id)(m.persons[k as int]) != (
                                    |p: PersonModel| p.id)(m.persons[i as int]));
                                }
                            }
                        }
                        return false;
                    }
                    proof {
                        lemma_find_first_characterized(
                            m.persons,
                            |p: PersonModel| p.id == self.persons@[i as int].identifier@,
                        );
                    }
                },
                None => {
                    proof {
                        lemma_find_first_characterized(
                            m.persons,
                            |p: PersonModel| p.id == self.persons@[i as int].identifier@,
                        );
                        assert(false);
                    }
                    return false;
                },
            }
            i += 1;
        }
        // unique car identifiers, and the counter bounds of every car
        let mut i: usize = 0;
        while i < self.cars.len()
            invariant
                i <= self.cars@.len(),
                m == self.model(),
                forall|a: int, b: int|
                    0 <= a < b < i ==> (#[trigger] m.cars[a]).id != (#[trigger] m.cars[b]).id,
                forall|a: int| 0 <= a < i ==> crate::model::wf_car(#[trigger] m.cars[a]),
            decreases self.cars@.len() - i,
        {
            proof {
                assert(m.cars[i as int] == self.cars@[i as int].model());
            }
            match find_index_cars(&self.cars, self.cars[i].identifier.as_str()) {
                Some(k) => {
                    if k != i {
                        proof {
                            lemma_find_first_characterized(
                                m.cars,
                                |c: CarModel| c.id == self.cars@[i as int].identifier@,
                            );
                            assert(m.cars[k as int].id == m.cars[i as int].id);
                            assert(!crate::model::proj_unique(m.cars, |c: CarModel| c.id)) by {
                                if crate::model::proj_unique(m.cars, |c: CarModel| c.id) {
                                    assert((|c: CarModel| c.id)(m.cars[k as int]) != (
                                    |c: CarModel| c.id)(m.cars[i as int]));
                                }
                            }
                        }
                        return false;
                    }
                    proof {
                        lemma_find_first_characterized(
                            m.cars,
                            |c: CarModel| c.id == self.cars@[i as int].identifier@,
                        );
                    }
                },
                None => {
                    proof {
                        lemma_find_first_characterized(
                            m.cars,
                            |c: CarModel| c.id == self.cars@[i as int].identifier@,
                        );
                        assert(false);
                    }
                    return false;
                },
            }
            let ok = match self.cars[i].status {
                CarStatus::Retired => true,
                CarStatus::Rented => self.cars[i].mileage <= MAX_KM && self.cars[i].rental_count
                    <= MAX_RENTALS + 1,
                _ => self.cars[i].mileage <= MAX_KM && self.cars[i].rental_count <= MAX_RENTALS,
            };
            if !ok {
                proof {
                    assert(!crate::model::wf_car(m.cars[i as int]));
                }
                return false;
            }
            i += 1;
        }
        // each person and each car in at most one rental, and every
        // rented-out car registered with status Rented
        let mut i: usize = 0;
        while i < self.rentals.len()
            invariant
                i <= self.rentals@.len(),
                m == self.model(),
                forall|a: int, b: int|
                    0 <= a < b < i ==> (#[trigger] m.rentals[a]).person != (
                    #[trigger] m.rentals[b]).person && m.rentals[a].car != m.rentals[b].car,
                forall|a: int| 0 <= a < i ==> m.car_is_rented((#[trigger] m.rentals[a]).car),
            decreases self.rentals@.len() - i,
        {
            proof {
                assert(m.rentals[i as int] == RentalModel {
                    person: self.rentals@[i as int].0@,
                    car: self.rentals@[i as int].1@,
                });
            }
            let mut j: usize = 0;
            while j < i
                invariant
                    j <= i < self.rentals@.len(),
                    m == self.model(),
                    forall|a: int|
                        0 <= a < j ==> (#[trigger] m.rentals[a]).person != m.rentals[i as int]
                            .person && m.rentals[a].car != m.rentals[i as int].car,
                decreases i - j,
            {
                proof {
                    assert(m.rentals[j as int] == RentalModel {
                        person: self.rentals@[j as int].0@,
                        car: self.rentals@[j as int].1@,
                    });
                }
                if self.rentals[j].0 == self.rentals[i].0 || self.rentals[j].1
                    == self.rentals[i].1 {
                    proof {
                        if m.rentals[j as int].person == m.rentals[i as int].person {
                            assert(!crate::model::proj_unique(
                                m.rentals,
                                |r: RentalModel| r.person,
                            )) by {
                                if crate::model::proj_unique(
                                    m.rentals,
                                    |r: RentalModel| r.person,
                                ) {
                                    assert((|r: RentalModel| r.person)(m.rentals[j as int]) != (
                                    |r: RentalModel| r.person)(m.rentals[i as int]));
                                }
                            }
                        } else {
                            assert(!crate::model::proj_unique(
                                m.rentals,
                                |r: RentalModel| r.car,
                            )) by {
                                if crate::model::proj_unique(m.rentals, |r: RentalModel| r.car) {
                                    assert((|r: RentalModel| r.car)(m.rentals[j as int]) != (
                                    |r: RentalModel| r.car)(m.rentals[i as int]));
                                }
                            }
                        }
                    }
                    return false;
                }
                j += 1;
            }
            let rented_ok = match find_index_cars(&self.cars, self.rentals[i].1.as_str()) {
                Some(k) => matches!(self.cars[k].status, CarStatus::Rented),
                None => false,
            };
            proof {
                if let Some(k) = find_first(
                    m.cars,
                    |c: CarModel| c.id == self.rentals@[i as int].1@,
                ) {
                    assert(m.cars[k] == self.cars@[k].model());
                }
            }
            if !rented_ok {
                proof {
                    assert(!m.car_is_rented(m.rentals[i as int].car));
                }
                return false;
            }
            i += 1;
        }
        // no two reservations share the (person, car) pair
        let mut i: usize = 0;
        while i < self.reservations.len()
            invariant
                i <= self.reservations@.len(),
                m == self.model(),
                forall|a: int, b: int|
                    0 <= a < b < i ==> ((#[trigger] m.reservations[a]).person, (
                    m.reservations[a]).car) != ((#[trigger] m.reservations[b]).person, (
                    m.reservations[b]).car),
            decreases self.reservations@.len() - i,
        {
            proof {
                assert(m.reservations[i as int] == self.reservations@[i as int].model());
            }
            match find_index_reservations(
                &self.reservations,
                self.reservations[i].person_id.as_str(),
                self.reservations[i].car_id.as_str(),
            ) {
                Some(k) => {
                    if k != i {
                        proof {
                            lemma_find_first_characterized(
                                m.reservations,
                                |q: ReservationModel|
                                    q.person == self.reservations@[i as int].person_id@ && q.car
                                        == self.reservations@[i as int].car_id@,
                            );
                            assert(!crate::model::proj_unique(
                                m.reservations,
                                |q: ReservationModel| (q.person, q.car),
                            )) by {
                                if crate::model::proj_unique(
                                    m.reservations,
                                    |q: ReservationModel| (q.person, q.car),
                                ) {
                                    assert((|q: ReservationModel| (q.person, q.car))(
                                        m.reservations[k as int],
                                    ) != (|q: ReservationModel| (q.person, q.car))(
                                        m.reservations[i as int],
                                    ));
                                }
                            }
                        }
                        return false;
                    }
                    proof {
                        lemma_find_first_characterized(
                            m.reservations,
                            |q: ReservationModel|
                                q.person == self.reservations@[i as int].person_id@ && q.car
                                    == self.reservations@[i as int].car_id@,
                        );
                    }
                },
                None => {
                    proof {
                        lemma_find_first_characterized(
                            m.reservations,
                            |q: ReservationModel|
                                q.person == self.reservations@[i as int].person_id@ && q.car
                                    == self.reservations@[i as int].car_id@,
                        );
                        assert(false);
                    }
                    return false;
                },
            }
            i += 1;
        }
        proof {
            assert(crate::model::proj_unique(m.persons, |p: PersonModel| p.id));
            assert(crate::model::proj_unique(m.cars, |c: CarModel| c.id));
            assert(crate::model::proj_unique(m.rentals, |r: RentalModel| r.person));
            assert(crate::model::proj_unique(m.rentals, |r: RentalModel| r.car));
            assert(crate::model::proj_unique(
                m.reservations,
                |q: ReservationModel| (q.person, q.car),
            ));
        }
        true
    }

    /// Replace the whole state with a previously persisted snapshot:
    /// accepted exactly when the snapshot is well-formed.
    pub fn load_state(
        persons: Vec<Person>,
        cars: Vec<Car>,
        rentals: Vec<(String, String)>,
        reservations: Vec<Reservation>,
        current_day: u32,
    ) -> (r: Option<CarSharing>)
        ensures
            (match r {
                Some(cs) => cs.wf() && cs.model() == (CarSharingModel {
                    persons: persons_model(persons@),
                    cars: cars_model(cars@),
                    rentals: rentals_model(rentals@),
                    reservations: reservations_model(reservations@),
                    current_day,
                }),
                None => !(CarSharingModel {
                    persons: persons_model(persons@),
                    cars: cars_model(cars@),
                    rentals: rentals_model(rentals@),
                    reservations: reservations_model(reservations@),
                    current_day,
                }).wf(),
            }),
    {
        let candidate = CarSharing { persons, cars, rentals, reservations, current_day };
        proof {
            assert(candidate.model() =~= CarSharingModel {
                persons: persons_model(candidate.persons@),
                cars: cars_model(candidate.cars@),
                rentals: rentals_model(candidate.rentals@),
                reservations: reservations_model(candidate.reservations@),
                current_day,
            });
        }
        if candidate.check_state() {
            Some(candidate)
        } else {
            None
        }
    }

    /// The empty engine at day zero.
    pub fn new() -> (r: Self)
        ensures
            r.model() == CarSharingModel::empty(),
            r.wf(),
    {
        let r = CarSharing {
            persons: Vec::new(),
            cars: Vec::new(),
            rentals: Vec::new(),
            reservations: Vec::new(),
            current_day: 0,
        };
        proof {
            assert(r.model() =~= CarSharingModel::empty());
        }
        r
    }
}

/// The operation set of the engine, as the transport layer consumes
/// it. Every method's behaviour is pinned to the mathematical model
/// returned by `fleet_model`.
pub trait CarSharingService: Sized {
    /// The mathematical model the contracts below constrain.
    spec fn fleet_model(&self) -> CarSharingModel;

    fn register_person(&mut self, p: Person) -> (r: bool)
        requires
            old(self).fleet_model().wf(),
        ensures
            final(self).fleet_model().wf(),
            r == old(self).fleet_model().register_person(p.model()).1,
            final(self).fleet_model() == old(self).fleet_model().register_person(p.model()).0,
    ;

    fn unregister_person(&mut self, identifier: &str) -> (r: bool)
        requires
            old(self).fleet_model().wf(),
        ensures
            final(self).fleet_model().wf(),
            r == old(self).fleet_model().unregister_person(identifier@).1,
            final(self).fleet_model() == old(self).fleet_model().unregister_person(identifier@).0,
    ;

    fn renew_license(&mut self, identifier: &str, new_valid_days: u32) -> (r: bool)
        requires
            old(self).fleet_model().wf(),
        ensures
            final(self).fleet_model().wf(),
            r == old(self).fleet_model().renew_license(identifier@, new_valid_days).1,
            final(self).fleet_model() == old(self).fleet_model().renew_license(
                identifier@,
                new_valid_days,
            ).0,
    ;

    fn get_person_status(&self, identifier: &str) -> (r: Option<PersonStatus>)
        ensures
            r == self.fleet_model().person_status(identifier@),
    ;

    fn register_car(&mut self, c: Car) -> (r: bool)
        requires
            old(self).fleet_model().wf(),
        ensures
            final(self).fleet_model().wf(),
            r == old(self).fleet_model().register_car(c.model()).1,
            final(self).fleet_model() == old(self).fleet_model().register_car(c.model()).0,
    ;

    fn unregister_car(&mut self, identifier: &str) -> (r: bool)
        requires
            old(self).fleet_model().wf(),
        ensures
            final(self).fleet_model().wf(),
            r == old(self).fleet_model().unregister_car(identifier@).1,
            final(self).fleet_model() == old(self).fleet_model().unregister_car(identifier@).0,
    ;

    fn get_car_status(&self, identifier: &str) -> (r: Option<CarStatus>)
        ensures
            r == self.fleet_model().car_status(identifier@),
    ;

    fn get_available_cars(&self) -> (r: Vec<String>)
        ensures
            r@.map_values(|x: String| x@) == self.fleet_model().available_cars(),
    ;

    fn reserve_car(&mut self, person_id: &str, car_id: &str, priority: u32) -> (r: bool)
        requires
            old(self).fleet_model().wf(),
        ensures
            final(self).fleet_model().wf(),
            r == old(self).fleet_model().reserve_car(person_id@, car_id@, priority).1,
            final(self).fleet_model() == old(self).fleet_model().reserve_car(
                person_id@,
                car_id@,
                priority,
            ).0,
    ;

    fn cancel_reservation(&mut self, person_id: &str, car_id: &str) -> (r: bool)
        requires
            old(self).fleet_model().wf(),
        ensures
            final(self).fleet_model().wf(),
            r == old(self).fleet_model().cancel_reservation(person_id@, car_id@).1,
            final(self).fleet_model() == old(self).fleet_model().cancel_reservation(
                person_id@,
                car_id@,
            ).0,
    ;

    fn get_reservations_for_car(&self, car_id: &str) -> (r: Vec<String>)
        ensures
            r@.map_values(|x: String| x@) == self.fleet_model().reservations_for_car(car_id@),
    ;

    fn process_reservations(&mut self) -> (granted: Vec<(String, String)>)
        requires
            old(self).fleet_model().wf(),
        ensures
            final(self).fleet_model().wf(),
            crate::state::pairs_view(granted@) == old(self).fleet_model().process_reservations().1,
            final(self).fleet_model() == old(self).fleet_model().process_reservations().0,
    ;

    fn rent_car(&mut self, person_id: &str, car_id: &str) -> (r: bool)
        requires
            old(self).fleet_model().wf(),
        ensures
            final(self).fleet_model().wf(),
            r == old(self).fleet_model().can_rent(person_id@, car_id@),
            r == old(self).fleet_model().rent_car(person_id@, car_id@).1,
            final(self).fleet_model() == old(self).fleet_model().rent_car(person_id@, car_id@).0,
    ;

    fn return_car(&mut self, person_id: &str, car_id: &str, driven_km: u32) -> (r: bool)
        requires
            old(self).fleet_model().wf(),
            driven_km <= u32::MAX - MAX_KM,
        ensures
            final(self).fleet_model().wf(),
            r == old(self).fleet_model().return_car(person_id@, car_id@, driven_km).1,
            final(self).fleet_model() == old(self).fleet_model().return_car(
                person_id@,
                car_id@,
                driven_km,
            ).0,
    ;

    fn simulate_n_days(&mut self, n: u32)
        requires
            old(self).fleet_model().wf(),
            old(self).fleet_model().can_advance(n),
        ensures
            final(self).fleet_model().wf(),
            final(self).fleet_model() == old(self).fleet_model().simulate(n as nat),
    ;
}

impl CarSharingService for CarSharing {
    open spec fn fleet_model(&self) -> CarSharingModel {
        self.model()
    }

    fn register_person(&mut self, p: Person) -> (r: bool) {
        self.register_person(p)
    }

    fn unregister_person(&mut self, identifier: &str) -> (r: bool) {
        self.unregister_person(identifier)
    }

    fn renew_license(&mut self, identifier: &str, new_valid_days: u32) -> (r: bool) {
        self.renew_license(identifier, new_valid_days)
    }

    fn get_person_status(&self, identifier: &str) -> (r: Option<PersonStatus>) {
        self.get_person_status(identifier)
    }

    fn register_car(&mut self, c: Car) -> (r: bool) {
        self.register_car(c)
    }

    fn unregister_car(&mut self, identifier: &str) -> (r: bool) {
        self.unregister_car(identifier)
    }

    fn get_car_status(&self, identifier: &str) -> (r: Option<CarStatus>) {
        self.get_car_status(identifier)
    }

    fn get_available_cars(&self) -> (r: Vec<String>) {
        self.get_available_cars()
    }

    fn reserve_car(&mut self, person_id: &str, car_id: &str, priority: u32) -> (r: bool) {
        self.reserve_car(person_id, car_id, priority)
    }

    fn cancel_reservation(&mut self, person_id: &str, car_id: &str) -> (r: bool) {
        self.cancel_reservation(person_id, car_id)
    }

    fn get_reservations_for_car(&self, car_id: &str) -> (r: Vec<String>) {
        self.get_reservations_for_car(car_id)
    }

    fn process_reservations(&mut self) -> (granted: Vec<(String, String)>) {
        self.process_reservations()
    }

    fn rent_car(&mut self, person_id: &str, car_id: &str) -> (r: bool) {
        self.rent_car(person_id, car_id)
    }

    fn return_car(&mut self, person_id: &str, car_id: &str, driven_km: u32) -> (r: bool) {
        self.return_car(person_id, car_id, driven_km)
    }

    fn simulate_n_days(&mut self, n: u32) {
        self.simulate_n_days(n)
    }
}

} // verus!
