use carsharing::Car;
use carsharing::CarSharing;
use carsharing::CarStatus;
use carsharing::Person;
use carsharing::PersonStatus;

fn person(id: &str, days: u32) -> Person {
    Person { identifier: id.to_string(), license_valid_days: days, status: PersonStatus::Active }
}

fn car(id: &str, mileage: u32) -> Car {
    Car {
        identifier: id.to_string(),
        mileage,
        status: CarStatus::Available,
        age_days: 0,
        rental_count: 0,
    }
}

#[test]
fn simulating_zero_days_is_a_no_op() {
    let mut cs = CarSharing::new();
    assert!(cs.register_person(person("anna", 5)));
    assert!(cs.register_car(car("c1", 123)));
    let before = cs.clone();
    cs.simulate_n_days(0);
    assert_eq!(cs, before);
}

#[test]
fn simulation_composes() {
    let mut whole = CarSharing::new();
    assert!(whole.register_person(person("anna", 4)));
    assert!(whole.register_person(person("ben", 10)));
    assert!(whole.register_car(car("c1", 4999)));
    assert!(whole.register_car(car("c2", 0)));
    assert!(whole.rent_car("ben", "c1"));
    assert!(whole.return_car("ben", "c1", 2));
    assert!(whole.reserve_car("ben", "c2", 7));
    let mut split = whole.clone();
    whole.simulate_n_days(5);
    split.simulate_n_days(2);
    split.simulate_n_days(3);
    assert_eq!(whole, split);
}

#[test]
fn license_expires_after_exactly_its_remaining_days() {
    let mut cs = CarSharing::new();
    assert!(cs.register_person(person("anna", 1)));
    assert!(cs.register_car(car("c1", 0)));
    cs.simulate_n_days(1);
    assert_eq!(cs.get_person_status("anna"), Some(PersonStatus::Blocked));
    // blocked persons can neither rent nor reserve
    assert!(!cs.rent_car("anna", "c1"));
    assert!(!cs.reserve_car("anna", "c1", 1));
    // renewal lifts the block
    assert!(cs.renew_license("anna", 10));
    assert_eq!(cs.get_person_status("anna"), Some(PersonStatus::Active));
    assert!(cs.rent_car("anna", "c1"));
}

#[test]
fn license_does_not_expire_early() {
    let mut cs = CarSharing::new();
    assert!(cs.register_person(person("anna", 3)));
    cs.simulate_n_days(2);
    assert_eq!(cs.get_person_status("anna"), Some(PersonStatus::Active));
    cs.simulate_n_days(1);
    assert_eq!(cs.get_person_status("anna"), Some(PersonStatus::Blocked));
}

#[test]
fn maintenance_takes_two_days() {
    let mut cs = CarSharing::new();
    assert!(cs.register_person(person("anna", 30)));
    assert!(cs.register_car(car("c1", 4999)));
    assert!(cs.rent_car("anna", "c1"));
    assert!(cs.return_car("anna", "c1", 2));
    assert_eq!(cs.get_car_status("c1"), Some(CarStatus::Maintenance(2)));
    cs.simulate_n_days(1);
    assert_eq!(cs.get_car_status("c1"), Some(CarStatus::Maintenance(1)));
    cs.simulate_n_days(1);
    assert_eq!(cs.get_car_status("c1"), Some(CarStatus::Available));
}

#[test]
fn inspection_takes_three_days() {
    let mut cs = CarSharing::new();
    assert!(cs.register_person(person("anna", 30)));
    assert!(cs.register_car(car("c1", 14_999)));
    assert!(cs.rent_car("anna", "c1"));
    assert!(cs.return_car("anna", "c1", 2));
    assert_eq!(cs.get_car_status("c1"), Some(CarStatus::Tuv(3)));
    cs.simulate_n_days(3);
    assert_eq!(cs.get_car_status("c1"), Some(CarStatus::Available));
}

#[test]
fn cars_retire_by_age_unless_rented() {
    let mut cs = CarSharing::new();
    assert!(cs.register_person(person("anna", 9000)));
    let mut old_car = car("c1", 0);
    old_car.age_days = 3648;
    assert!(cs.register_car(old_car));
    let mut busy_car = car("c2", 0);
    busy_car.age_days = 3648;
    assert!(cs.register_car(busy_car));
    assert!(cs.rent_car("anna", "c2"));
    cs.simulate_n_days(2);
    assert_eq!(cs.get_car_status("c1"), Some(CarStatus::Retired));
    // retirement is deferred while the car is out
    assert_eq!(cs.get_car_status("c2"), Some(CarStatus::Rented));
    // and caught at return, since its score is now over 1
    assert!(cs.return_car("anna", "c2", 0));
    assert_eq!(cs.get_car_status("c2"), Some(CarStatus::Retired));
}

#[test]
fn day_counter_advances() {
    let mut cs = CarSharing::new();
    cs.simulate_n_days(7);
    assert_eq!(cs.current_day, 7);
}

#[test]
fn resolver_runs_each_simulated_day() {
    let mut cs = CarSharing::new();
    assert!(cs.register_person(person("anna", 30)));
    assert!(cs.register_person(person("ben", 30)));
    assert!(cs.register_car(car("c1", 0)));
    assert!(cs.rent_car("ben", "c1"));
    assert!(cs.reserve_car("anna", "c1", 2));
    cs.simulate_n_days(1);
    // still rented by ben: anna keeps waiting
    assert_eq!(cs.get_reservations_for_car("c1"), vec!["anna".to_string()]);
    assert!(cs.return_car("ben", "c1", 0));
    cs.simulate_n_days(1);
    // the freed car goes to the queued reservation during the tick
    assert_eq!(cs.get_car_status("c1"), Some(CarStatus::Rented));
    assert!(cs.reservations.is_empty());
    assert_eq!(cs.rentals, vec![("anna".to_string(), "c1".to_string())]);
}
