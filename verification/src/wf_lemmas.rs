//! Preservation of well-formedness: each engine operation keeps
//! `CarSharingModel::wf`. These lemmas carry the executable methods'
//! postconditions about validity.

use vstd::prelude::*;

use crate::lemmas::lemma_find_first_characterized;
use crate::lemmas::lemma_find_first_is;
use crate::lemmas::lemma_find_first_pointwise;
use crate::lemmas::lemma_find_first_push_found;
use crate::lemmas::lemma_proj_unique_filter;
use crate::lemmas::lemma_proj_unique_push;
use crate::lemmas::lemma_proj_unique_remove;
use crate::lemmas::lemma_proj_unique_update;
use crate::model::find_first;
use crate::model::retirement_due;
use crate::model::wf_car;
use crate::state::CarModel;
use crate::state::CarSharingModel;
use crate::state::CarStatus;
use crate::state::PersonModel;
use crate::state::RentalModel;
use crate::state::ReservationModel;
use crate::state::MAX_KM;
use crate::state::MAX_RENTALS;

verus! {

/// Registering a person preserves well-formedness.
pub proof fn lemma_wf_register_person(s: CarSharingModel, p: PersonModel)
    requires
        s.wf(),
    ensures
        s.register_person(p).0.wf(),
{
    if !(s.person_index(p.id) is Some) {
        lemma_find_first_characterized(s.persons, |q: PersonModel| q.id == p.id);
        lemma_proj_unique_push(s.persons, |q: PersonModel| q.id, p);
    }
}

/// Renewing a license preserves well-formedness.
pub proof fn lemma_wf_renew_license(s: CarSharingModel, pid: Seq<char>, days: u32)
    requires
        s.wf(),
    ensures
        s.renew_license(pid, days).0.wf(),
{
    if let Some(i) = s.person_index(pid) {
        lemma_find_first_characterized(s.persons, |q: PersonModel| q.id == pid);
        let p2 = PersonModel {
            license_valid_days: days,
            status: crate::state::PersonStatus::Active,
            ..s.persons[i]
        };
        lemma_proj_unique_update(s.persons, |q: PersonModel| q.id, i, p2);
    }
}

/// Unregistering a person preserves well-formedness.
pub proof fn lemma_wf_unregister_person(s: CarSharingModel, pid: Seq<char>)
    requires
        s.wf(),
    ensures
        s.unregister_person(pid).0.wf(),
{
    let t = s.unregister_person(pid).0;
    if t != s {
        lemma_proj_unique_filter(
            s.reservations,
            |r: ReservationModel| (r.person, r.car),
            |r: ReservationModel| r.person != pid,
        );
        lemma_proj_unique_filter(
            s.persons,
            |q: PersonModel| q.id,
            |q: PersonModel| q.id != pid,
        );
    }
}

/// Registering a car preserves well-formedness: the admission checks
/// bound its mileage and, through the retirement score, its rental count.
pub proof fn lemma_wf_register_car(s: CarSharingModel, c: CarModel)
    requires
        s.wf(),
    ensures
        s.register_car(c).0.wf(),
{
    let t = s.register_car(c).0;
    if s.car_index(c.id) is None && c.mileage <= MAX_KM && !retirement_due(c) {
        lemma_find_first_characterized(s.cars, |q: CarModel| q.id == c.id);
        lemma_proj_unique_push(s.cars, |q: CarModel| q.id, c);
        assert(c.age_days * MAX_KM * MAX_RENTALS >= 0);
        assert(c.mileage * crate::state::MAX_AGE_DAYS * MAX_RENTALS >= 0);
        assert(c.rental_count <= MAX_RENTALS);
        assert(wf_car(c));
        assert forall|i: int| 0 <= i < t.rentals.len() implies t.car_is_rented(
            (#[trigger] t.rentals[i]).car,
        ) by {
            assert(t.rentals == s.rentals);
            assert(s.car_is_rented(s.rentals[i].car));
            let cid2 = s.rentals[i].car;
            assert(find_first(s.cars, |q: CarModel| q.id == cid2) is Some);
            let k = find_first(s.cars, |q: CarModel| q.id == cid2)->Some_0;
            lemma_find_first_characterized(s.cars, |q: CarModel| q.id == cid2);
            assert(s.cars[k].status is Rented);
            lemma_find_first_push_found(s.cars, |q: CarModel| q.id == cid2, c);
            assert(find_first(t.cars, |q: CarModel| q.id == cid2) == Some(k));
            assert(t.cars[k] == s.cars[k]);
            assert(t.car_is_rented(cid2));
        }
    }
}

/// Unregistering a car preserves well-formedness.
pub proof fn lemma_wf_unregister_car(s: CarSharingModel, cid: Seq<char>)
    requires
        s.wf(),
    ensures
        s.unregister_car(cid).0.wf(),
{
    let t = s.unregister_car(cid).0;
    if t != s {
        lemma_proj_unique_filter(
            s.reservations,
            |r: ReservationModel| (r.person, r.car),
            |r: ReservationModel| r.car != cid,
        );
        lemma_proj_unique_filter(s.cars, |q: CarModel| q.id, |q: CarModel| q.id != cid);
        let kept = s.cars.filter(|q: CarModel| q.id != cid);
        assert forall|i: int| 0 <= i < kept.len() implies wf_car(#[trigger] kept[i]) by {
            assert(s.cars.contains(kept[i]));
            let w = choose|w: int| 0 <= w < s.cars.len() && s.cars[w] == kept[i];
            assert(wf_car(s.cars[w]));
        }
        // no rental references the removed car, so every rental's car
        // is still found, with its status untouched
        lemma_find_first_characterized(s.rentals, |r: RentalModel| r.car == cid);
        assert forall|i: int| 0 <= i < t.rentals.len() implies t.car_is_rented(
            (#[trigger] t.rentals[i]).car,
        ) by {
            let cid2 = t.rentals[i].car;
            assert(s.car_is_rented(s.rentals[i].car));
            assert(cid2 != cid);
            lemma_find_first_characterized(s.cars, |q: CarModel| q.id == cid2);
            let k = find_first(s.cars, |q: CarModel| q.id == cid2)->Some_0;
            let star = s.cars[k];
            s.cars.lemma_filter_contains(|q: CarModel| q.id != cid, k);
            assert(kept.contains(star));
            lemma_find_first_characterized(kept, |q: CarModel| q.id == cid2);
            match find_first(kept, |q: CarModel| q.id == cid2) {
                Some(m) => {
                    assert(s.cars.contains(kept[m]));
                    let w = choose|w: int| 0 <= w < s.cars.len() && s.cars[w] == kept[m];
                    lemma_find_first_characterized(s.cars, |q: CarModel| q.id == cid2);
                    if w != k {
                        assert((|q: CarModel| q.id)(s.cars[w]) != (|q: CarModel| q.id)(
                            s.cars[k],
                        ));
                    }
                    assert(kept[m].status is Rented);
                },
                None => {
                    let m = choose|m: int| 0 <= m < kept.len() && kept[m] == star;
                    assert((|q: CarModel| q.id == cid2)(kept[m]));
                },
            }
        }
    }
}

/// Reserving a car preserves well-formedness.
pub proof fn lemma_wf_reserve_car(s: CarSharingModel, pid: Seq<char>, cid: Seq<char>, prio: u32)
    requires
        s.wf(),
    ensures
        s.reserve_car(pid, cid, prio).0.wf(),
{
    if s.can_reserve(pid, cid) {
        lemma_find_first_characterized(
            s.reservations,
            |r: ReservationModel| r.person == pid && r.car == cid,
        );
        lemma_proj_unique_push(
            s.reservations,
            |r: ReservationModel| (r.person, r.car),
            ReservationModel { person: pid, car: cid, priority: prio },
        );
    }
}

/// Cancelling a reservation preserves well-formedness.
pub proof fn lemma_wf_cancel_reservation(s: CarSharingModel, pid: Seq<char>, cid: Seq<char>)
    requires
        s.wf(),
    ensures
        s.cancel_reservation(pid, cid).0.wf(),
{
    if let Some(i) = s.reservation_index(pid, cid) {
        lemma_find_first_characterized(
            s.reservations,
            |r: ReservationModel| r.person == pid && r.car == cid,
        );
        lemma_proj_unique_remove(s.reservations, |r: ReservationModel| (r.person, r.car), i);
    }
}

/// Renting preserves well-formedness, and touches only the rentals and
/// the rented car's status and rental count.
pub proof fn lemma_wf_rent_car(s: CarSharingModel, pid: Seq<char>, cid: Seq<char>)
    requires
        s.wf(),
    ensures
        s.rent_car(pid, cid).0.wf(),
        s.rent_car(pid, cid).0.persons == s.persons,
        s.rent_car(pid, cid).0.reservations == s.reservations,
        s.rent_car(pid, cid).0.current_day == s.current_day,
        s.rent_car(pid, cid).0.cars.len() == s.cars.len(),
        forall|i: int|
            0 <= i < s.cars.len() ==> (#[trigger] s.rent_car(pid, cid).0.cars[i]).id
                == s.cars[i].id && s.rent_car(pid, cid).0.cars[i].age_days == s.cars[i].age_days,
{
    let t = s.rent_car(pid, cid).0;
    if s.can_rent(pid, cid) {
        lemma_find_first_characterized(s.cars, |c: CarModel| c.id == cid);
        let ci = find_first(s.cars, |c: CarModel| c.id == cid)->Some_0;
        let newcar = CarModel {
            status: CarStatus::Rented,
            rental_count: (s.cars[ci].rental_count + 1) as u32,
            ..s.cars[ci]
        };
        // the person holds no rental yet
        lemma_find_first_characterized(s.rentals, |r: RentalModel| r.person == pid);
        lemma_proj_unique_push(s.rentals, |r: RentalModel| r.person, RentalModel { person: pid, car: cid });
        // the car stands in no rental: a rented car's status is Rented,
        // but this one is Available
        assert forall|j: int| 0 <= j < s.rentals.len() implies (#[trigger] s.rentals[j]).car
            != cid by {
            if s.rentals[j].car == cid {
                assert(s.car_is_rented(s.rentals[j].car));
            }
        }
        lemma_proj_unique_push(s.rentals, |r: RentalModel| r.car, RentalModel { person: pid, car: cid });
        lemma_proj_unique_update(s.cars, |c: CarModel| c.id, ci, newcar);
        assert(wf_car(s.cars[ci]));
        assert(wf_car(newcar));
        assert forall|i: int| 0 <= i < t.cars.len() implies wf_car(#[trigger] t.cars[i]) by {
            if i != ci {
                assert(t.cars[i] == s.cars[i]);
            }
        }
        assert forall|i: int| 0 <= i < t.rentals.len() implies t.car_is_rented(
            (#[trigger] t.rentals[i]).car,
        ) by {
            let cid2 = t.rentals[i].car;
            lemma_find_first_pointwise(
                t.cars,
                s.cars,
                |c: CarModel| c.id == cid2,
                |c: CarModel| c.id == cid2,
            );
            if i < s.rentals.len() {
                assert(t.rentals[i] == s.rentals[i]);
                assert(s.car_is_rented(s.rentals[i].car));
                lemma_find_first_characterized(s.cars, |c: CarModel| c.id == cid2);
                let k = find_first(s.cars, |c: CarModel| c.id == cid2)->Some_0;
                assert(t.cars[k].status is Rented);
            } else {
                assert(cid2 == cid);
                assert(t.cars[ci].status is Rented);
            }
        }
    }
}

/// Returning preserves well-formedness, and touches only the rentals
/// and the returned car's mileage and status.
pub proof fn lemma_wf_return_car(
    s: CarSharingModel,
    pid: Seq<char>,
    cid: Seq<char>,
    driven_km: u32,
)
    requires
        s.wf(),
        driven_km <= u32::MAX - MAX_KM,
    ensures
        s.return_car(pid, cid, driven_km).0.wf(),
        s.return_car(pid, cid, driven_km).0.persons == s.persons,
        s.return_car(pid, cid, driven_km).0.reservations == s.reservations,
        s.return_car(pid, cid, driven_km).0.current_day == s.current_day,
{
    let t = s.return_car(pid, cid, driven_km).0;
    if s.rental_index(pid, cid) is Some && s.car_index(cid) is Some {
        let ri = s.rental_index(pid, cid)->Some_0;
        let ci = s.car_index(cid)->Some_0;
        lemma_find_first_characterized(
            s.rentals,
            |r: RentalModel| r.person == pid && r.car == cid,
        );
        lemma_find_first_characterized(s.cars, |c: CarModel| c.id == cid);
        // the rented car's counters are bounded
        assert(s.car_is_rented(s.rentals[ri].car));
        assert(s.cars[ci].status is Rented);
        assert(wf_car(s.cars[ci]));
        let start_km = s.cars[ci].mileage;
        let moved = CarModel { mileage: (start_km + driven_km) as u32, ..s.cars[ci] };
        let status = if retirement_due(moved) {
            CarStatus::Retired
        } else {
            match crate::model::spec_check_maintenance_or_tuv(start_km, driven_km) {
                Some(st) => st,
                None => CarStatus::Available,
            }
        };
        let newcar = CarModel { status, ..moved };
        // no truncation: the rented car's mileage is within MAX_KM
        assert(start_km + driven_km <= u32::MAX);
        // if the car is not retired now, the score bounds its counters
        assert(wf_car(newcar)) by {
            if !retirement_due(moved) {
                assert(moved.mileage * crate::state::MAX_AGE_DAYS * MAX_RENTALS
                    <= crate::model::retirement_score_den() ==> moved.mileage <= MAX_KM);
                assert(moved.rental_count <= MAX_RENTALS);
                assert(moved.mileage <= MAX_KM);
            }
        }
        lemma_proj_unique_remove(s.rentals, |r: RentalModel| r.person, ri);
        lemma_proj_unique_remove(s.rentals, |r: RentalModel| r.car, ri);
        lemma_proj_unique_update(s.cars, |c: CarModel| c.id, ci, newcar);
        assert forall|i: int| 0 <= i < t.cars.len() implies wf_car(#[trigger] t.cars[i]) by {
            if i != ci {
                assert(t.cars[i] == s.cars[i]);
            }
        }
        assert forall|i: int| 0 <= i < t.rentals.len() implies t.car_is_rented(
            (#[trigger] t.rentals[i]).car,
        ) by {
            let cid2 = t.rentals[i].car;
            let i0 = if i < ri {
                i
            } else {
                i + 1
            };
            assert(t.rentals[i] == s.rentals[i0]);
            assert(s.car_is_rented(s.rentals[i0].car));
            lemma_find_first_pointwise(
                t.cars,
                s.cars,
                |c: CarModel| c.id == cid2,
                |c: CarModel| c.id == cid2,
            );
            lemma_find_first_characterized(s.cars, |c: CarModel| c.id == cid2);
            let k = find_first(s.cars, |c: CarModel| c.id == cid2)->Some_0;
            // the removed rental was the only one of this car
            if k == ci {
                assert((|r: RentalModel| r.car)(s.rentals[i0]) == (|r: RentalModel| r.car)(
                    s.rentals[ri],
                ));
                assert(i0 != ri);
                assert(false);
            }
            assert(t.cars[k].status is Rented);
        }
    }
}

} // verus!
