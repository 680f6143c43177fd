use epidemic_sim::constants::TIME_INFECTIOUS;
use epidemic_sim::person::{Direction, Person, Position, Status};

#[test]
fn state_changes() {
    let mut person = Person::new(0, Position::new(0, 0), Status::Infectious);
    for i in 1..TIME_INFECTIOUS + 1 {
        person.tick(i, false);
        println!("t = {:?}, person.status: {:?}", i, person.status);
    }

    assert_eq!(person.status, Status::Sick)
}

#[test]
fn new_person_fields() {
    let healthy = Person::new(7, Position::new(3, 4), Status::Healthy);
    assert_eq!(healthy.id, 7);
    assert_eq!(healthy.position, Position::new(3, 4));
    assert_eq!(healthy.status, Status::Healthy);
    assert_eq!(healthy.facing_direction, Direction::Right);
    assert_eq!(healthy.t_infected, None);
    assert_eq!(healthy.t_sick, None);
    assert_eq!(healthy.t_died, None);

    let infected = Person::new(8, Position::new(0, 0), Status::Infectious);
    assert_eq!(infected.t_infected, Some(0));
}

#[test]
fn coords_reads_position() {
    let p = Person::new(1, Position::new(11, 22), Status::Healthy);
    assert_eq!(p.coords(), Position::new(11, 22));
}

#[test]
fn full_course_of_disease() {
    let mut p = Person::new(0, Position::new(5, 5), Status::Infectious);
    // One tick before the infectious threshold: no change.
    p.tick(49, false);
    assert_eq!(p.status, Status::Infectious);
    // At the threshold the agent falls sick.
    p.tick(50, false);
    assert_eq!(p.status, Status::Sick);
    assert_eq!(p.t_sick, Some(50));
    // A death roll before the sickness threshold is ignored.
    p.tick(69, true);
    assert_eq!(p.status, Status::Sick);
    // At the threshold, a negative roll keeps the agent sick.
    p.tick(70, false);
    assert_eq!(p.status, Status::Sick);
    // A positive roll past the threshold kills.
    p.tick(71, true);
    assert_eq!(p.status, Status::Dead);
    assert_eq!(p.t_died, Some(71));
    // Dead agents no longer change.
    p.tick(99, true);
    assert_eq!(p.status, Status::Dead);
    assert_eq!(p.t_died, Some(71));
}

#[test]
fn healthy_agent_never_progresses() {
    let mut p = Person::new(0, Position::new(5, 5), Status::Healthy);
    for t in 1..200 {
        p.tick(t, true);
    }
    assert_eq!(p.status, Status::Healthy);
    assert_eq!(p.t_sick, None);
    assert_eq!(p.t_died, None);
}

#[test]
fn within_distance_boundary() {
    let p = Person::new(0, Position::new(0, 0), Status::Healthy);
    let at_24 = Person::new(1, Position::new(24, 0), Status::Healthy);
    let at_25 = Person::new(2, Position::new(25, 0), Status::Healthy);
    let at_26 = Person::new(3, Position::new(26, 0), Status::Healthy);
    assert!(p.within_distance(&at_24, 25));
    assert!(p.within_distance(&at_25, 25));
    assert!(!p.within_distance(&at_26, 25));
    // sqrt(17^2 + 18^2) is about 24.76: inside the circle of radius 25.
    let diag_in = Person::new(4, Position::new(17, 18), Status::Healthy);
    assert!(p.within_distance(&diag_in, 25));
    // sqrt(18^2 + 18^2) is about 25.46: outside it.
    let diag_out = Person::new(5, Position::new(18, 18), Status::Healthy);
    assert!(!p.within_distance(&diag_out, 25));
}

#[test]
fn within_distance_is_symmetric_in_practice() {
    let a = Person::new(0, Position::new(100, 7), Status::Healthy);
    let b = Person::new(1, Position::new(93, 100), Status::Healthy);
    assert_eq!(a.within_distance(&b, 94), b.within_distance(&a, 94));
    assert!(a.within_distance(&b, 94));
    assert!(!a.within_distance(&b, 93));
}
