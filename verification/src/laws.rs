//! The engine's laws: properties that hold of every state and every
//! run, proved once and for all against the model of `crate::model`.

use vstd::prelude::*;

use crate::lemmas::lemma_find_first_characterized;
use crate::lemmas::lemma_find_first_is;
use crate::lemmas::lemma_find_first_pointwise;
use crate::model::find_first;
use crate::model::person_granted;
use crate::model::retirement_due;
use crate::model::retirement_score_den;
use crate::model::retirement_score_num;
use crate::model::spec_check_maintenance_or_tuv;
use crate::state::CarModel;
use crate::state::CarSharingModel;
use crate::state::CarStatus;
use crate::state::PersonModel;
use crate::state::RentalModel;
use crate::state::ReservationModel;
use crate::state::MAX_KM;

verus! {

/// The retirement score is the sum of three non-negative wear ratios,
/// so it never falls below zero; and registration never admits a car
/// whose score exceeds 1 or whose mileage exceeds the lifetime maximum.
pub proof fn lemma_retirement_admission(s: CarSharingModel, c: CarModel)
    ensures
        retirement_score_num(c) >= 0,
        s.register_car(c).1 ==> c.mileage <= MAX_KM && !retirement_due(c),
        c.mileage > MAX_KM || retirement_due(c) ==> s.register_car(c) == (s, false),
{
}

/// In every well-formed state a person holds at most one active rental
/// and a car stands in at most one active rental.
pub proof fn lemma_rentals_exclusive(s: CarSharingModel)
    requires
        s.wf(),
    ensures
        forall|i: int, j: int|
            0 <= i < j < s.rentals.len() ==> (#[trigger] s.rentals[i]).person != (
            #[trigger] s.rentals[j]).person && s.rentals[i].car != s.rentals[j].car,
{
    assert forall|i: int, j: int| 0 <= i < j < s.rentals.len() implies (
    #[trigger] s.rentals[i]).person != (#[trigger] s.rentals[j]).person && s.rentals[i].car != (
    s.rentals[j]).car by {
        assert((|r: RentalModel| r.person)(s.rentals[i]) != (|r: RentalModel| r.person)(
            s.rentals[j],
        ));
        assert((|r: RentalModel| r.car)(s.rentals[i]) != (|r: RentalModel| r.car)(s.rentals[j]));
    }
}

/// Renting and then returning the same car leaves the rentals exactly
/// as they were, and puts the car in the documented priority order:
/// Retired when the score now exceeds 1, else the inspection or
/// maintenance hold when the trip crossed their boundary, else
/// Available again.
pub proof fn lemma_rent_then_return(
    s: CarSharingModel,
    pid: Seq<char>,
    cid: Seq<char>,
    driven_km: u32,
)
    requires
        s.wf(),
        s.can_rent(pid, cid),
        driven_km <= u32::MAX - MAX_KM,
    ensures
        ({
            let rented = s.rent_car(pid, cid).0;
            let returned = rented.return_car(pid, cid, driven_km);
            let ci = s.car_index(cid)->Some_0;
            let c0 = s.cars[ci];
            let moved = CarModel {
                mileage: (c0.mileage + driven_km) as u32,
                status: CarStatus::Rented,
                rental_count: (c0.rental_count + 1) as u32,
                ..c0
            };
            &&& returned.1
            &&& returned.0.rentals == s.rentals
            &&& returned.0.cars[ci].status == (if retirement_due(moved) {
                CarStatus::Retired
            } else {
                match spec_check_maintenance_or_tuv(c0.mileage, driven_km) {
                    Some(st) => st,
                    None => CarStatus::Available,
                }
            })
        }),
{
    let rented = s.rent_car(pid, cid).0;
    lemma_find_first_characterized(s.cars, |c: CarModel| c.id == cid);
    let ci = s.car_index(cid)->Some_0;
    let c0 = s.cars[ci];
    // the new rental is the only one of this person, appended at the end
    lemma_find_first_characterized(s.rentals, |r: RentalModel| r.person == pid);
    let pair = RentalModel { person: pid, car: cid };
    assert(rented.rentals == s.rentals.push(pair));
    assert forall|j: int| 0 <= j < s.rentals.len() implies !((#[trigger] rented.rentals[j]).person
        == pid && rented.rentals[j].car == cid) by {
        assert(rented.rentals[j] == s.rentals[j]);
    }
    assert(rented.rentals[s.rentals.len() as int] == pair);
    lemma_find_first_is(
        rented.rentals,
        |r: RentalModel| r.person == pid && r.car == cid,
        s.rentals.len() as int,
    );
    // the car keeps its index through the status update
    lemma_find_first_pointwise(
        rented.cars,
        s.cars,
        |c: CarModel| c.id == cid,
        |c: CarModel| c.id == cid,
    );
    assert(rented.car_index(cid) == Some(ci));
    assert(rented.rentals.remove(s.rentals.len() as int) =~= s.rentals);
}

/// A person granted a rental by the resolver holds no reservation
/// afterwards: the grant purges all of their queued requests, also for
/// other cars.
pub proof fn lemma_granted_purges_reservations(s: CarSharingModel)
    ensures
        ({
            let after = s.process_reservations();
            forall|i: int|
                0 <= i < after.0.reservations.len() ==> !person_granted(
                    after.1,
                    (#[trigger] after.0.reservations[i]).person,
                )
        }),
{
    let after = s.process_reservations();
    let passed = crate::model::grant_pass(
        CarSharingModel { reservations: crate::model::sort_desc(s.reservations), ..s },
        crate::model::sort_desc(s.reservations),
    );
    assert forall|i: int| 0 <= i < after.0.reservations.len() implies !person_granted(
        after.1,
        (#[trigger] after.0.reservations[i]).person,
    ) by {
        passed.0.reservations.lemma_filter_pred(
            |r: crate::state::ReservationModel| !person_granted(passed.1, r.person),
            i,
        );
    }
}

/// Resolution is priority-monotonic: a queued reservation whose
/// admission check holds, whose priority strictly tops every other
/// reservation for the same car and every other request of the same
/// person, is granted by the resolver.
pub proof fn lemma_resolution_priority_monotonic(s: CarSharingModel, r: ReservationModel)
    requires
        s.wf(),
        s.reservations.contains(r),
        s.can_rent(r.person, r.car),
        forall|i: int|
            0 <= i < s.reservations.len() && (#[trigger] s.reservations[i]).car == r.car
                && s.reservations[i] != r ==> s.reservations[i].priority < r.priority,
        forall|i: int|
            0 <= i < s.reservations.len() && (#[trigger] s.reservations[i]).person == r.person
                && s.reservations[i] != r ==> s.reservations[i].priority < r.priority,
    ensures
        s.process_reservations().1.contains((r.person, r.car)),
{
    let sorted = crate::model::sort_desc(s.reservations);
    crate::resolver_lemmas::lemma_wf_sorted(s);
    let queued = CarSharingModel { reservations: sorted, ..s };
    crate::resolver_lemmas::lemma_sort_desc_multiset(s.reservations);
    crate::resolver_lemmas::lemma_sort_desc_sorted(s.reservations);
    s.reservations.to_multiset_ensures();
    sorted.to_multiset_ensures();
    assert(s.reservations.to_multiset().count(r) > 0);
    assert(sorted.to_multiset().count(r) > 0);
    assert(sorted.contains(r));
    lemma_find_first_characterized(sorted, |x: ReservationModel| x == r);
    let w = match find_first(sorted, |x: ReservationModel| x == r) {
        Some(w) => w,
        None => {
            let idx = choose|idx: int| 0 <= idx < sorted.len() && sorted[idx] == r;
            assert((|x: ReservationModel| x == r)(sorted[idx]));
            proof_from_false()
        },
    };
    assert(sorted[w] == r);
    assert forall|j: int| 0 <= j < w implies (#[trigger] sorted[j]).car != sorted[w].car
        && sorted[j].person != sorted[w].person by {
        assert(sorted[j] != r);
        assert(sorted.contains(sorted[j]));
        assert(sorted.to_multiset().count(sorted[j]) > 0);
        assert(s.reservations.to_multiset().count(sorted[j]) > 0);
        assert(s.reservations.contains(sorted[j]));
        let u = choose|u: int|
            0 <= u < s.reservations.len() && s.reservations[u] == sorted[j];
        assert(sorted[j].priority >= sorted[w].priority);
        if sorted[j].car == r.car {
            assert(s.reservations[u].priority < r.priority);
            assert(false);
        }
        if sorted[j].person == r.person {
            assert(s.reservations[u].priority < r.priority);
            assert(false);
        }
    }
    assert(queued.can_rent(r.person, r.car));
    crate::resolver_lemmas::lemma_grant_pass_first_fit(queued, sorted, w);
}

/// A reservation whose holder was granted nothing in a resolver pass
/// stays queued for the next one.
pub proof fn lemma_ungranted_reservations_survive(s: CarSharingModel, i: int)
    requires
        s.wf(),
        0 <= i < s.reservations.len(),
        !person_granted(s.process_reservations().1, s.reservations[i].person),
    ensures
        s.process_reservations().0.reservations.contains(s.reservations[i]),
{
    let e = s.reservations[i];
    let sorted = crate::model::sort_desc(s.reservations);
    crate::resolver_lemmas::lemma_wf_sorted(s);
    let queued = CarSharingModel { reservations: sorted, ..s };
    crate::resolver_lemmas::lemma_sort_desc_multiset(s.reservations);
    crate::resolver_lemmas::lemma_grant_pass_props(queued, sorted);
    s.reservations.to_multiset_ensures();
    sorted.to_multiset_ensures();
    assert(s.reservations.contains(e));
    assert(s.reservations.to_multiset().count(e) > 0);
    assert(sorted.to_multiset().count(e) > 0);
    assert(sorted.contains(e));
    let j = choose|j: int| 0 <= j < sorted.len() && sorted[j] == e;
    let passed = crate::model::grant_pass(queued, sorted);
    assert(passed.0.reservations == sorted);
    sorted.lemma_filter_contains(
        |q: crate::state::ReservationModel| !person_granted(passed.1, q.person),
        j,
    );
}

/// Simulating zero days changes nothing.
pub proof fn lemma_simulate_zero(s: CarSharingModel)
    ensures
        s.simulate(0) == s,
{
}

/// Simulation composes: `n + m` days are `n` days and then `m` days,
/// because each day depends only on the state of the day before.
pub proof fn lemma_simulate_additive(s: CarSharingModel, n: nat, m: nat)
    ensures
        s.simulate(n + m) == s.simulate(n).simulate(m),
    decreases n,
{
    if n > 0 {
        lemma_simulate_additive(s.tick(), (n - 1) as nat, m);
    }
}

} // verus!
