//! Proofs about the reservation resolver and the daily tick: the shape
//! of the stable insertion sort, its permutation property, and the
//! preservation of well-formedness through the granting pass and a full
//! simulated day.

use vstd::multiset::Multiset;
use vstd::prelude::*;

use crate::lemmas::lemma_find_first_characterized;
use crate::lemmas::lemma_find_first_pointwise;
use crate::lemmas::lemma_proj_unique_filter;
use crate::lemmas::lemma_proj_unique_insert;
use crate::lemmas::lemma_proj_unique_map;
use crate::model::find_first;
use crate::model::grant_pass;
use crate::model::insert_desc;
use crate::model::insert_pos;
use crate::model::person_granted;
use crate::model::proj_unique;
use crate::model::sort_desc;
use crate::model::wf_car;
use crate::model::age_car;
use crate::model::count_down_car;
use crate::model::retire_car;
use crate::model::tick_person;
use crate::state::CarModel;
use crate::state::CarSharingModel;
use crate::state::PersonModel;
use crate::state::RentalModel;
use crate::state::ReservationModel;
use crate::wf_lemmas::lemma_wf_rent_car;

verus! {

/// `insert_desc` places its element at `insert_pos`, leaving everything
/// else in order.
pub proof fn lemma_insert_desc_shape(r: ReservationModel, s: Seq<ReservationModel>)
    ensures
        0 <= insert_pos(r, s) <= s.len(),
        insert_desc(r, s) == s.take(insert_pos(r, s)) + seq![r] + s.skip(insert_pos(r, s)),
    decreases s.len(),
{
    lemma_find_first_characterized(s, |x: ReservationModel| x.priority < r.priority);
    let pos = insert_pos(r, s);
    if s.len() == 0 {
        assert(insert_desc(r, s) =~= s.take(pos) + seq![r] + s.skip(pos));
    } else if s[0].priority >= r.priority {
        let tail = s.drop_first();
        lemma_insert_desc_shape(r, tail);
        let post = insert_pos(r, tail);
        lemma_find_first_characterized(tail, |x: ReservationModel| x.priority < r.priority);
        assert(pos == post + 1);
        assert(insert_desc(r, s) == seq![s[0]] + (tail.take(post) + seq![r] + tail.skip(post)));
        assert(seq![s[0]] + (tail.take(post) + seq![r] + tail.skip(post)) =~= s.take(pos)
            + seq![r] + s.skip(pos));
    } else {
        assert(insert_desc(r, s) =~= s.take(pos) + seq![r] + s.skip(pos));
    }
}

/// `insert_desc` adds exactly its element: the queue is otherwise a
/// permutation.
pub proof fn lemma_insert_desc_multiset(r: ReservationModel, s: Seq<ReservationModel>)
    ensures
        insert_desc(r, s).to_multiset() == s.to_multiset().insert(r),
{
    broadcast use vstd::multiset::group_multiset_axioms;

    lemma_insert_desc_shape(r, s);
    let pos = insert_pos(r, s);
    vstd::seq_lib::lemma_multiset_commutative(s.take(pos) + seq![r], s.skip(pos));
    vstd::seq_lib::lemma_multiset_commutative(s.take(pos), seq![r]);
    vstd::seq_lib::lemma_multiset_commutative(s.take(pos), s.skip(pos));
    assert(s.take(pos) + s.skip(pos) =~= s);
    assert(seq![r] =~= Seq::<ReservationModel>::empty().push(r));
    Seq::<ReservationModel>::empty().to_multiset_ensures();
    assert(seq![r].to_multiset() =~= Multiset::<ReservationModel>::empty().insert(r));
    assert(insert_desc(r, s).to_multiset() =~= s.to_multiset().insert(r));
}

/// The sorted queue is a permutation of the unsorted one.
pub proof fn lemma_sort_desc_multiset(s: Seq<ReservationModel>)
    ensures
        sort_desc(s).to_multiset() == s.to_multiset(),
    decreases s.len(),
{
    if s.len() > 0 {
        let head = s.drop_last();
        lemma_sort_desc_multiset(head);
        lemma_insert_desc_multiset(s.last(), sort_desc(head));
        head.to_multiset_ensures();
        assert(head.push(s.last()) =~= s);
        assert(head.push(s.last()).to_multiset() =~= head.to_multiset().insert(s.last()));
    }
}

/// Sorting keeps the (person, car) pairs of the queue unique.
pub proof fn lemma_sort_desc_pairs_unique(s: Seq<ReservationModel>)
    requires
        proj_unique(s, |r: ReservationModel| (r.person, r.car)),
    ensures
        proj_unique(sort_desc(s), |r: ReservationModel| (r.person, r.car)),
    decreases s.len(),
{
    if s.len() > 0 {
        let head = s.drop_last();
        let last = s.last();
        assert forall|i: int, j: int| 0 <= i < j < head.len() implies (|r: ReservationModel| (
            r.person,
            r.car,
        ))(#[trigger] head[i]) != (|r: ReservationModel| (r.person, r.car))(
            #[trigger] head[j],
        ) by {
            assert(head[i] == s[i]);
            assert(head[j] == s[j]);
        }
        lemma_sort_desc_pairs_unique(head);
        let sorted_head = sort_desc(head);
        lemma_sort_desc_multiset(head);
        sorted_head.to_multiset_ensures();
        head.to_multiset_ensures();
        assert forall|w: int| 0 <= w < sorted_head.len() implies (|r: ReservationModel| (
            r.person,
            r.car,
        ))(#[trigger] sorted_head[w]) != (|r: ReservationModel| (r.person, r.car))(last) by {
            let e = sorted_head[w];
            if (e.person, e.car) == (last.person, last.car) {
                assert(sorted_head.contains(e));
                assert(head.to_multiset().count(e) > 0);
                assert(head.contains(e));
                let u = choose|u: int| 0 <= u < head.len() && head[u] == e;
                assert(s[u] == e);
                assert(s[s.len() - 1] == last);
                assert((|r: ReservationModel| (r.person, r.car))(s[u]) == (
                |r: ReservationModel| (r.person, r.car))(s[s.len() - 1]));
                assert(false);
            }
        }
        lemma_insert_desc_shape(last, sorted_head);
        lemma_proj_unique_insert(
            sorted_head,
            |r: ReservationModel| (r.person, r.car),
            insert_pos(last, sorted_head),
            last,
        );
    }
}

/// `insert_desc` keeps a queue sorted by priority descending.
pub proof fn lemma_insert_desc_sorted(r: ReservationModel, s: Seq<ReservationModel>)
    requires
        forall|i: int, j: int|
            0 <= i <= j < s.len() ==> (#[trigger] s[i]).priority >= (#[trigger] s[j]).priority,
    ensures
        forall|i: int, j: int|
            0 <= i <= j < insert_desc(r, s).len() ==> (#[trigger] insert_desc(r, s)[i]).priority
                >= (#[trigger] insert_desc(r, s)[j]).priority,
{
    lemma_insert_desc_shape(r, s);
    lemma_find_first_characterized(s, |x: ReservationModel| x.priority < r.priority);
    let pos = insert_pos(r, s);
    let t = insert_desc(r, s);
    assert forall|i: int, j: int| 0 <= i <= j < t.len() implies (#[trigger] t[i]).priority >= (
    #[trigger] t[j]).priority by {
        assert(t[i] == (if i < pos {
            s[i]
        } else if i == pos {
            r
        } else {
            s[i - 1]
        }));
        assert(t[j] == (if j < pos {
            s[j]
        } else if j == pos {
            r
        } else {
            s[j - 1]
        }));
        if pos < s.len() {
            assert(s[pos].priority < r.priority);
        }
        if i < pos {
            assert(!(s[i].priority < r.priority));
        }
        if j < pos {
            assert(!(s[j].priority < r.priority));
        }
    }
}

/// The sorted queue is sorted by priority, highest first.
pub proof fn lemma_sort_desc_sorted(s: Seq<ReservationModel>)
    ensures
        forall|i: int, j: int|
            0 <= i <= j < sort_desc(s).len() ==> (#[trigger] sort_desc(s)[i]).priority >= (
            #[trigger] sort_desc(s)[j]).priority,
    decreases s.len(),
{
    if s.len() > 0 {
        lemma_sort_desc_sorted(s.drop_last());
        lemma_insert_desc_sorted(s.last(), sort_desc(s.drop_last()));
    }
}

/// Sorting the reservation queue preserves well-formedness.
pub proof fn lemma_wf_sorted(s: CarSharingModel)
    requires
        s.wf(),
    ensures
        (CarSharingModel { reservations: sort_desc(s.reservations), ..s }).wf(),
{
    lemma_sort_desc_pairs_unique(s.reservations);
    let t = CarSharingModel { reservations: sort_desc(s.reservations), ..s };
    assert forall|i: int| 0 <= i < t.rentals.len() implies t.car_is_rented(
        (#[trigger] t.rentals[i]).car,
    ) by {
        assert(s.car_is_rented(s.rentals[i].car));
    }
}

/// The granting pass preserves well-formedness and touches neither the
/// persons, the queue, the day counter, nor any car's identity or age.
pub proof fn lemma_grant_pass_props(s: CarSharingModel, rs: Seq<ReservationModel>)
    requires
        s.wf(),
    ensures
        ({
            let t = grant_pass(s, rs).0;
            &&& t.wf()
            &&& t.persons == s.persons
            &&& t.reservations == s.reservations
            &&& t.current_day == s.current_day
            &&& t.cars.len() == s.cars.len()
            &&& forall|i: int|
                0 <= i < s.cars.len() ==> (#[trigger] t.cars[i]).id == s.cars[i].id
                    && t.cars[i].age_days == s.cars[i].age_days
        }),
    decreases rs.len(),
{
    if rs.len() > 0 {
        let r = rs[0];
        lemma_wf_rent_car(s, r.person, r.car);
        let s1 = s.rent_car(r.person, r.car).0;
        lemma_grant_pass_props(s1, rs.drop_first());
    }
}

/// One resolver run preserves well-formedness and touches neither the
/// persons, the day counter, nor any car's identity or age.
pub proof fn lemma_process_props(s: CarSharingModel)
    requires
        s.wf(),
    ensures
        ({
            let t = s.process_reservations().0;
            &&& t.wf()
            &&& t.persons == s.persons
            &&& t.current_day == s.current_day
            &&& t.cars.len() == s.cars.len()
            &&& forall|i: int|
                0 <= i < s.cars.len() ==> (#[trigger] t.cars[i]).id == s.cars[i].id
                    && t.cars[i].age_days == s.cars[i].age_days
        }),
{
    lemma_wf_sorted(s);
    let queued = CarSharingModel { reservations: sort_desc(s.reservations), ..s };
    lemma_grant_pass_props(queued, sort_desc(s.reservations));
    let passed = grant_pass(queued, sort_desc(s.reservations));
    lemma_proj_unique_filter(
        passed.0.reservations,
        |r: ReservationModel| (r.person, r.car),
        |r: ReservationModel| !person_granted(passed.1, r.person),
    );
    let t = s.process_reservations().0;
    assert forall|i: int| 0 <= i < t.rentals.len() implies t.car_is_rented(
        (#[trigger] t.rentals[i]).car,
    ) by {
        assert(passed.0.car_is_rented(passed.0.rentals[i].car));
    }
}

/// The advancing half of a day preserves well-formedness; every car
/// keeps its identity and ages by exactly one day.
pub proof fn lemma_wf_advance_day(s: CarSharingModel)
    requires
        s.wf(),
    ensures
        s.advance_day().wf(),
{
    let a = s.advance_day();
    assert forall|j: int| 0 <= j < s.persons.len() implies (|p: PersonModel| p.id)(
        tick_person(#[trigger] s.persons[j]),
    ) == (|p: PersonModel| p.id)(s.persons[j]) by {}
    lemma_proj_unique_map(
        s.persons,
        |p: PersonModel| tick_person(p),
        |p: PersonModel| p.id,
        |p: PersonModel| p.id,
    );
    assert forall|j: int| 0 <= j < s.cars.len() implies (|c: CarModel| c.id)(
        count_down_car(retire_car(age_car(#[trigger] s.cars[j]))),
    ) == (|c: CarModel| c.id)(s.cars[j]) by {}
    lemma_proj_unique_map(
        s.cars,
        |c: CarModel| count_down_car(retire_car(age_car(c))),
        |c: CarModel| c.id,
        |c: CarModel| c.id,
    );
    assert forall|i: int| 0 <= i < a.cars.len() implies wf_car(#[trigger] a.cars[i]) by {
        assert(a.cars[i] == count_down_car(retire_car(age_car(s.cars[i]))));
        assert(wf_car(s.cars[i]));
    }
    assert forall|i: int| 0 <= i < a.rentals.len() implies a.car_is_rented(
        (#[trigger] a.rentals[i]).car,
    ) by {
        let cid = a.rentals[i].car;
        assert(s.car_is_rented(s.rentals[i].car));
        lemma_find_first_characterized(s.cars, |c: CarModel| c.id == cid);
        let k = find_first(s.cars, |c: CarModel| c.id == cid)->Some_0;
        assert(a.cars[k] == count_down_car(retire_car(age_car(s.cars[k]))));
        assert(a.cars[k].status is Rented);
        lemma_find_first_pointwise(
            a.cars,
            s.cars,
            |c: CarModel| c.id == cid,
            |c: CarModel| c.id == cid,
        );
    }
}

/// One full simulated day preserves well-formedness; the day counter
/// and every car's age move by exactly one.
pub proof fn lemma_tick_props(s: CarSharingModel)
    requires
        s.wf(),
    ensures
        ({
            let t = s.tick();
            &&& t.wf()
            &&& t.current_day == (s.current_day + 1) as u32
            &&& t.persons == s.advance_day().persons
            &&& t.cars.len() == s.cars.len()
            &&& forall|i: int|
                0 <= i < s.cars.len() ==> (#[trigger] t.cars[i]).age_days == (s.cars[i].age_days
                    + 1) as u32
        }),
{
    lemma_wf_advance_day(s);
    let a = s.advance_day();
    lemma_process_props(a);
    let t = s.tick();
    assert forall|i: int| 0 <= i < s.cars.len() implies (#[trigger] t.cars[i]).age_days == (
    s.cars[i].age_days + 1) as u32 by {
        assert(a.cars[i] == count_down_car(retire_car(age_car(s.cars[i]))));
        assert(t.cars[i].age_days == a.cars[i].age_days);
    }
}

/// Renting one car to one person leaves the admission check of an
/// unrelated (person, car) pair untouched.
pub proof fn lemma_rent_preserves_unrelated_can_rent(
    s: CarSharingModel,
    p0: Seq<char>,
    c0: Seq<char>,
    pid: Seq<char>,
    cid: Seq<char>,
)
    requires
        s.wf(),
        p0 != pid,
        c0 != cid,
        s.can_rent(pid, cid),
    ensures
        s.rent_car(p0, c0).0.can_rent(pid, cid),
{
    let t = s.rent_car(p0, c0).0;
    if s.can_rent(p0, c0) {
        lemma_find_first_characterized(s.rentals, |r: RentalModel| r.person == pid);
        assert forall|j: int| 0 <= j < t.rentals.len() implies (#[trigger] t.rentals[j]).person
            != pid by {
            if j < s.rentals.len() {
                assert(t.rentals[j] == s.rentals[j]);
            } else {
                assert(t.rentals[j] == RentalModel { person: p0, car: c0 });
            }
        }
        crate::lemmas::lemma_find_first_none(t.rentals, |r: RentalModel| r.person == pid);
        lemma_find_first_characterized(s.cars, |c: CarModel| c.id == cid);
        lemma_find_first_characterized(s.cars, |c: CarModel| c.id == c0);
        lemma_find_first_pointwise(
            t.cars,
            s.cars,
            |c: CarModel| c.id == cid,
            |c: CarModel| c.id == cid,
        );
        let k = find_first(s.cars, |c: CarModel| c.id == cid)->Some_0;
        let k0 = find_first(s.cars, |c: CarModel| c.id == c0)->Some_0;
        assert(k != k0);
        assert(t.cars[k] == s.cars[k]);
    }
}

/// In one granting pass, a reservation whose admission check holds and
/// which is preceded by no reservation for the same car or by the same
/// person is granted.
pub proof fn lemma_grant_pass_first_fit(
    st: CarSharingModel,
    rs: Seq<ReservationModel>,
    w: int,
)
    requires
        st.wf(),
        0 <= w < rs.len(),
        st.can_rent(rs[w].person, rs[w].car),
        forall|j: int|
            0 <= j < w ==> (#[trigger] rs[j]).car != rs[w].car && rs[j].person != rs[w].person,
    ensures
        grant_pass(st, rs).1.contains((rs[w].person, rs[w].car)),
    decreases rs.len(),
{
    let r0 = rs[0];
    let rented = st.rent_car(r0.person, r0.car).0;
    let rest = grant_pass(rented, rs.drop_first());
    if w == 0 {
        assert(grant_pass(st, rs).1 == seq![(r0.person, r0.car)] + rest.1);
        assert(grant_pass(st, rs).1[0] == (r0.person, r0.car));
    } else {
        lemma_wf_rent_car(st, r0.person, r0.car);
        lemma_rent_preserves_unrelated_can_rent(st, r0.person, r0.car, rs[w].person, rs[w].car);
        let tail = rs.drop_first();
        assert(tail[w - 1] == rs[w]);
        assert forall|j: int| 0 <= j < w - 1 implies (#[trigger] tail[j]).car != tail[w - 1].car
            && tail[j].person != tail[w - 1].person by {
            assert(tail[j] == rs[j + 1]);
        }
        lemma_grant_pass_first_fit(rented, tail, w - 1);
        let pair = (rs[w].person, rs[w].car);
        let idx = choose|idx: int| 0 <= idx < rest.1.len() && rest.1[idx] == pair;
        if st.can_rent(r0.person, r0.car) {
            assert(grant_pass(st, rs).1 == seq![(r0.person, r0.car)] + rest.1);
            assert(grant_pass(st, rs).1[idx + 1] == pair);
        } else {
            assert(grant_pass(st, rs).1 == rest.1);
        }
    }
}

/// Simulating one day more is one tick after the days so far.
pub proof fn lemma_simulate_snoc(s: CarSharingModel, k: nat)
    ensures
        s.simulate(k + 1) == s.simulate(k).tick(),
    decreases k,
{
    if k == 0 {
        assert(s.simulate(1) == s.tick().simulate(0));
        assert(s.tick().simulate(0) == s.tick());
        assert(s.simulate(0) == s);
    } else {
        lemma_simulate_snoc(s.tick(), (k - 1) as nat);
        assert((k - 1) as nat + 1 == k);
        assert(s.simulate(k + 1) == s.tick().simulate(k));
        assert(s.simulate(k) == s.tick().simulate((k - 1) as nat));
    }
}

} // verus!
