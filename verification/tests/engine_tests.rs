use carsharing::Car;
use carsharing::CarSharing;
use carsharing::CarStatus;
use carsharing::Person;
use carsharing::PersonStatus;

fn person(id: &str, days: u32) -> Person {
    Person { identifier: id.to_string(), license_valid_days: days, status: PersonStatus::Active }
}

fn car(id: &str, mileage: u32) -> Car {
    Car {
        identifier: id.to_string(),
        mileage,
        status: CarStatus::Available,
        age_days: 0,
        rental_count: 0,
    }
}

#[test]
fn register_person_rejects_duplicates() {
    let mut cs = CarSharing::new();
    assert!(cs.register_person(person("anna", 30)));
    assert!(!cs.register_person(person("anna", 99)));
    assert_eq!(cs.persons.len(), 1);
    assert_eq!(cs.persons[0].license_valid_days, 30);
}

#[test]
fn register_car_rejects_over_mileage() {
    let mut cs = CarSharing::new();
    assert!(!cs.register_car(car("c1", 200_001)));
    assert!(cs.cars.is_empty());
}

#[test]
fn register_car_rejects_score_over_one() {
    let mut cs = CarSharing::new();
    // age alone reaches a score of exactly 1; one extra kilometre tips it
    let mut c = car("c1", 1);
    c.age_days = 3650;
    assert!(!cs.register_car(c));
    assert!(cs.cars.is_empty());
}

#[test]
fn register_car_admits_score_exactly_one() {
    let mut cs = CarSharing::new();
    // mileage at the lifetime maximum with a fresh car: score is exactly 1
    assert!(cs.register_car(car("c1", 200_000)));
    assert_eq!(cs.cars.len(), 1);
}

#[test]
fn register_car_rejects_duplicates() {
    let mut cs = CarSharing::new();
    assert!(cs.register_car(car("c1", 0)));
    assert!(!cs.register_car(car("c1", 5)));
    assert_eq!(cs.cars.len(), 1);
}

#[test]
fn rent_flips_car_to_rented_and_counts() {
    let mut cs = CarSharing::new();
    assert!(cs.register_person(person("anna", 30)));
    assert!(cs.register_car(car("c1", 0)));
    assert!(cs.rent_car("anna", "c1"));
    assert_eq!(cs.get_car_status("c1"), Some(CarStatus::Rented));
    assert_eq!(cs.cars[0].rental_count, 1);
    assert_eq!(cs.rentals, vec![("anna".to_string(), "c1".to_string())]);
}

#[test]
fn person_cannot_hold_two_rentals() {
    let mut cs = CarSharing::new();
    assert!(cs.register_person(person("anna", 30)));
    assert!(cs.register_car(car("c1", 0)));
    assert!(cs.register_car(car("c2", 0)));
    assert!(cs.rent_car("anna", "c1"));
    assert!(!cs.rent_car("anna", "c2"));
    assert_eq!(cs.rentals.len(), 1);
}

#[test]
fn car_cannot_be_rented_twice() {
    let mut cs = CarSharing::new();
    assert!(cs.register_person(person("anna", 30)));
    assert!(cs.register_person(person("ben", 30)));
    assert!(cs.register_car(car("c1", 0)));
    assert!(cs.rent_car("anna", "c1"));
    assert!(!cs.rent_car("ben", "c1"));
    assert_eq!(cs.rentals.len(), 1);
}

#[test]
fn rent_unknown_car_fails() {
    let mut cs = CarSharing::new();
    assert!(cs.register_person(person("anna", 30)));
    assert!(!cs.rent_car("anna", "ghost"));
    assert!(cs.rentals.is_empty());
}

#[test]
fn return_restores_available_without_thresholds() {
    let mut cs = CarSharing::new();
    assert!(cs.register_person(person("anna", 30)));
    assert!(cs.register_car(car("c1", 100)));
    assert!(cs.rent_car("anna", "c1"));
    assert!(cs.return_car("anna", "c1", 50));
    assert_eq!(cs.get_car_status("c1"), Some(CarStatus::Available));
    assert_eq!(cs.cars[0].mileage, 150);
    assert!(cs.rentals.is_empty());
}

#[test]
fn return_without_matching_rental_fails() {
    let mut cs = CarSharing::new();
    assert!(cs.register_person(person("anna", 30)));
    assert!(cs.register_car(car("c1", 0)));
    assert!(!cs.return_car("anna", "c1", 10));
}

#[test]
fn crossing_maintenance_boundary_holds_car() {
    let mut cs = CarSharing::new();
    assert!(cs.register_person(person("anna", 30)));
    assert!(cs.register_car(car("c1", 4999)));
    assert!(cs.rent_car("anna", "c1"));
    assert!(cs.return_car("anna", "c1", 2));
    assert_eq!(cs.get_car_status("c1"), Some(CarStatus::Maintenance(2)));
    assert_eq!(cs.cars[0].mileage, 5001);
}

#[test]
fn tuv_takes_precedence_over_maintenance() {
    let mut cs = CarSharing::new();
    assert!(cs.register_person(person("anna", 30)));
    assert!(cs.register_car(car("c1", 14_999)));
    assert!(cs.rent_car("anna", "c1"));
    // 15 000 is a multiple of both intervals: the inspection wins
    assert!(cs.return_car("anna", "c1", 2));
    assert_eq!(cs.get_car_status("c1"), Some(CarStatus::Tuv(3)));
}

#[test]
fn no_event_when_no_boundary_is_crossed() {
    let mut cs = CarSharing::new();
    assert!(cs.register_person(person("anna", 30)));
    assert!(cs.register_car(car("c1", 5000)));
    assert!(cs.rent_car("anna", "c1"));
    // 5000 -> 9999 stays inside one maintenance interval
    assert!(cs.return_car("anna", "c1", 4999));
    assert_eq!(cs.get_car_status("c1"), Some(CarStatus::Available));
}

#[test]
fn reaching_max_mileage_retires_on_return() {
    let mut cs = CarSharing::new();
    assert!(cs.register_person(person("anna", 30)));
    assert!(cs.register_car(car("c1", 199_999)));
    assert!(cs.rent_car("anna", "c1"));
    assert!(cs.return_car("anna", "c1", 1));
    assert_eq!(cs.get_car_status("c1"), Some(CarStatus::Retired));
    assert_eq!(cs.cars[0].mileage, 200_000);
}

#[test]
fn many_rentals_retire_a_car_on_return() {
    let mut cs = CarSharing::new();
    assert!(cs.register_person(person("anna", 1000)));
    assert!(cs.register_car(car("c1", 0)));
    for _ in 0..500 {
        assert!(cs.rent_car("anna", "c1"));
        assert!(cs.return_car("anna", "c1", 0));
    }
    // the 501st rental pushes the rental-count ratio over 1 at return
    assert!(cs.rent_car("anna", "c1"));
    assert!(cs.return_car("anna", "c1", 0));
    assert_eq!(cs.get_car_status("c1"), Some(CarStatus::Retired));
}

#[test]
fn unregister_person_refuses_active_renter() {
    let mut cs = CarSharing::new();
    assert!(cs.register_person(person("anna", 30)));
    assert!(cs.register_car(car("c1", 0)));
    assert!(cs.rent_car("anna", "c1"));
    assert!(!cs.unregister_person("anna"));
    assert!(cs.return_car("anna", "c1", 0));
    assert!(cs.unregister_person("anna"));
    assert!(cs.persons.is_empty());
}

#[test]
fn unregister_person_drops_their_reservations() {
    let mut cs = CarSharing::new();
    assert!(cs.register_person(person("anna", 30)));
    assert!(cs.register_person(person("ben", 30)));
    assert!(cs.register_car(car("c1", 0)));
    assert!(cs.reserve_car("anna", "c1", 4));
    assert!(cs.reserve_car("ben", "c1", 2));
    assert!(cs.unregister_person("anna"));
    assert_eq!(cs.get_reservations_for_car("c1"), vec!["ben".to_string()]);
}

#[test]
fn unregister_car_refuses_rented_or_held() {
    let mut cs = CarSharing::new();
    assert!(cs.register_person(person("anna", 30)));
    assert!(cs.register_car(car("c1", 4999)));
    assert!(cs.rent_car("anna", "c1"));
    assert!(!cs.unregister_car("c1"));
    assert!(cs.return_car("anna", "c1", 2));
    // now in maintenance: still refused
    assert!(!cs.unregister_car("c1"));
    cs.simulate_n_days(2);
    assert!(cs.unregister_car("c1"));
    assert!(cs.cars.is_empty());
}

#[test]
fn unregister_unknown_ids_fail() {
    let mut cs = CarSharing::new();
    assert!(!cs.unregister_person("ghost"));
    assert!(!cs.unregister_car("ghost"));
}

#[test]
fn reserve_rejects_duplicates_and_allows_busy_cars() {
    let mut cs = CarSharing::new();
    assert!(cs.register_person(person("anna", 30)));
    assert!(cs.register_person(person("ben", 30)));
    assert!(cs.register_car(car("c1", 0)));
    assert!(cs.rent_car("ben", "c1"));
    // the car is busy, reserving is exactly for that
    assert!(cs.reserve_car("anna", "c1", 5));
    assert!(!cs.reserve_car("anna", "c1", 7));
    assert_eq!(cs.reservations.len(), 1);
}

#[test]
fn renter_cannot_reserve() {
    let mut cs = CarSharing::new();
    assert!(cs.register_person(person("anna", 30)));
    assert!(cs.register_car(car("c1", 0)));
    assert!(cs.register_car(car("c2", 0)));
    assert!(cs.rent_car("anna", "c1"));
    assert!(!cs.reserve_car("anna", "c2", 1));
}

#[test]
fn cancel_reservation_removes_only_that_pair() {
    let mut cs = CarSharing::new();
    assert!(cs.register_person(person("anna", 30)));
    assert!(cs.register_car(car("c1", 0)));
    assert!(cs.register_car(car("c2", 0)));
    assert!(cs.reserve_car("anna", "c1", 1));
    assert!(cs.reserve_car("anna", "c2", 1));
    assert!(cs.cancel_reservation("anna", "c1"));
    assert!(!cs.cancel_reservation("anna", "c1"));
    assert_eq!(cs.get_reservations_for_car("c2"), vec!["anna".to_string()]);
    assert!(cs.get_reservations_for_car("c1").is_empty());
}

#[test]
fn available_cars_lists_only_available() {
    let mut cs = CarSharing::new();
    assert!(cs.register_person(person("anna", 30)));
    assert!(cs.register_car(car("c1", 0)));
    assert!(cs.register_car(car("c2", 0)));
    assert!(cs.rent_car("anna", "c1"));
    assert_eq!(cs.get_available_cars(), vec!["c2".to_string()]);
}

#[test]
fn resolver_prefers_higher_priority() {
    let mut cs = CarSharing::new();
    assert!(cs.register_person(person("alice", 30)));
    assert!(cs.register_person(person("bella", 30)));
    assert!(cs.register_car(car("car1", 0)));
    assert!(cs.reserve_car("alice", "car1", 1));
    assert!(cs.reserve_car("bella", "car1", 5));
    let granted = cs.process_reservations();
    assert_eq!(granted, vec![("bella".to_string(), "car1".to_string())]);
    assert_eq!(cs.get_car_status("car1"), Some(CarStatus::Rented));
    // the loser stays queued for the next pass
    assert_eq!(cs.get_reservations_for_car("car1"), vec!["alice".to_string()]);
}

#[test]
fn grant_purges_all_reservations_of_the_person() {
    let mut cs = CarSharing::new();
    assert!(cs.register_person(person("bella", 30)));
    assert!(cs.register_car(car("car1", 0)));
    assert!(cs.register_car(car("car2", 0)));
    assert!(cs.reserve_car("bella", "car1", 5));
    assert!(cs.reserve_car("bella", "car2", 9));
    let granted = cs.process_reservations();
    // the car-2 request has the higher priority and is granted;
    // the other one is purged with it
    assert_eq!(granted, vec![("bella".to_string(), "car2".to_string())]);
    assert!(cs.reservations.is_empty());
}

#[test]
fn unsatisfiable_reservations_stay_queued() {
    let mut cs = CarSharing::new();
    assert!(cs.register_person(person("anna", 30)));
    assert!(cs.register_person(person("ben", 30)));
    assert!(cs.register_car(car("c1", 0)));
    assert!(cs.rent_car("ben", "c1"));
    assert!(cs.reserve_car("anna", "c1", 3));
    assert!(cs.process_reservations().is_empty());
    assert!(cs.process_reservations().is_empty());
    assert_eq!(cs.get_reservations_for_car("c1"), vec!["anna".to_string()]);
}

#[test]
fn resolver_keeps_order_among_equal_priorities() {
    let mut cs = CarSharing::new();
    assert!(cs.register_person(person("anna", 30)));
    assert!(cs.register_person(person("ben", 30)));
    assert!(cs.register_car(car("c1", 0)));
    assert!(cs.reserve_car("anna", "c1", 3));
    assert!(cs.reserve_car("ben", "c1", 3));
    let granted = cs.process_reservations();
    // ties keep their prior relative order: anna reserved first
    assert_eq!(granted, vec![("anna".to_string(), "c1".to_string())]);
    assert_eq!(cs.get_reservations_for_car("c1"), vec!["ben".to_string()]);
}

#[test]
fn person_status_and_unknown_queries() {
    let mut cs = CarSharing::new();
    assert!(cs.register_person(person("anna", 30)));
    assert_eq!(cs.get_person_status("anna"), Some(PersonStatus::Active));
    assert_eq!(cs.get_person_status("ghost"), None);
    assert_eq!(cs.get_car_status("ghost"), None);
}
