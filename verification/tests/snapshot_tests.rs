use carsharing::Car;
use carsharing::CarSharing;
use carsharing::CarStatus;
use carsharing::Person;
use carsharing::PersonStatus;

fn person(id: &str, days: u32) -> Person {
    Person { identifier: id.to_string(), license_valid_days: days, status: PersonStatus::Active }
}

fn car(id: &str, mileage: u32) -> Car {
    Car {
        identifier: id.to_string(),
        mileage,
        status: CarStatus::Available,
        age_days: 0,
        rental_count: 0,
    }
}

#[test]
fn load_state_round_trips_a_snapshot() {
    let mut cs = CarSharing::new();
    assert!(cs.register_person(person("anna", 30)));
    assert!(cs.register_person(person("ben", 30)));
    assert!(cs.register_car(car("c1", 100)));
    assert!(cs.register_car(car("c2", 0)));
    assert!(cs.rent_car("anna", "c1"));
    assert!(cs.reserve_car("ben", "c1", 3));
    cs.simulate_n_days(2);
    // snapshot over the public fields, then replace into a fresh engine
    let loaded = CarSharing::load_state(
        cs.persons.clone(),
        cs.cars.clone(),
        cs.rentals.clone(),
        cs.reservations.clone(),
        cs.current_day,
    );
    assert_eq!(loaded, Some(cs));
}

#[test]
fn load_state_rejects_duplicate_identifiers() {
    let loaded = CarSharing::load_state(
        vec![person("anna", 3), person("anna", 5)],
        vec![],
        vec![],
        vec![],
        0,
    );
    assert_eq!(loaded, None);
}

#[test]
fn load_state_rejects_rental_of_a_car_not_rented() {
    let loaded = CarSharing::load_state(
        vec![person("anna", 3)],
        vec![car("c1", 0)],
        vec![("anna".to_string(), "c1".to_string())],
        vec![],
        0,
    );
    assert_eq!(loaded, None);
}

#[test]
fn load_state_rejects_double_rentals() {
    let mut c1 = car("c1", 0);
    c1.status = CarStatus::Rented;
    let mut c2 = car("c2", 0);
    c2.status = CarStatus::Rented;
    let loaded = CarSharing::load_state(
        vec![person("anna", 3), person("ben", 3)],
        vec![c1, c2],
        vec![
            ("anna".to_string(), "c1".to_string()),
            ("anna".to_string(), "c2".to_string()),
        ],
        vec![],
        0,
    );
    assert_eq!(loaded, None);
}

#[test]
fn check_state_accepts_every_reachable_state() {
    let mut cs = CarSharing::new();
    assert!(cs.check_state());
    assert!(cs.register_person(person("anna", 2)));
    assert!(cs.register_car(car("c1", 4999)));
    assert!(cs.rent_car("anna", "c1"));
    assert!(cs.check_state());
    assert!(cs.return_car("anna", "c1", 2));
    cs.simulate_n_days(3);
    assert!(cs.check_state());
}

#[test]
fn check_state_rejects_an_oversized_counter() {
    let mut cs = CarSharing::new();
    let mut worn = car("c1", 0);
    worn.rental_count = 501;
    cs.cars.push(worn);
    assert!(!cs.check_state());
}
