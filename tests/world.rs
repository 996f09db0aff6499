use physics_world::{Body, Mass, PhysicsError, PhysicsWorld, Vec3};

/// One world unit in nano-units.
const UNIT: i64 = 1_000_000_000;

fn world_with(position: Vec3, radius: i64, mass: Mass) -> (PhysicsWorld, usize) {
    let mut w = PhysicsWorld::new();
    let id = w.create(position, radius, mass).unwrap();
    (w, id)
}

#[test]
fn gravity_only_drift() {
    let (mut w, id) = world_with(Vec3::new(0, 100 * UNIT, 0), UNIT, Mass::Finite(1));
    assert_eq!(w.gravity(), Vec3::new(0, -9810, 0));
    assert_eq!(w.update(1000), Ok(()));
    let b = w.get(id).unwrap();
    // 9.81 world units per second, downwards.
    assert_eq!(b.velocity, Vec3::new(0, -9_810_000, 0));
    assert_eq!(b.position, Vec3::new(0, 100 * UNIT - 9_810_000_000, 0));
    assert_eq!(b.position.y, 90_190_000_000);
}

#[test]
fn static_bodies_never_move() {
    let mut w = PhysicsWorld::new();
    let s = w.create(Vec3::new(3, -4, 5), UNIT, Mass::Static).unwrap();
    let m = w.create(Vec3::new(0, 0, 0), UNIT, Mass::Finite(2)).unwrap();
    w.set_velocity(s, Vec3::new(7, 7, 7)).unwrap();
    for _ in 0..5 {
        assert_eq!(w.update(16), Ok(()));
    }
    assert_eq!(w.get(s).unwrap().position, Vec3::new(3, -4, 5));
    assert_ne!(w.get(m).unwrap().position, Vec3::new(0, 0, 0));
}

#[test]
fn inactive_bodies_do_not_move_or_collide() {
    let (mut w, id) = world_with(Vec3::new(0, 0, 0), UNIT, Mass::Finite(1));
    w.set_active(id, false).unwrap();
    w.update(1000).unwrap();
    let b = w.get(id).unwrap();
    assert_eq!(b.position, Vec3::new(0, 0, 0));
    assert_eq!(b.velocity, Vec3::new(0, 0, 0));
    assert!(!w.check_collision(0, 0, 0, 1));
    assert!(w.for_each_active().is_empty());
}

#[test]
fn collision_tangency() {
    let mut w = PhysicsWorld::new();
    let a = w.create(Vec3::new(0, 0, 0), UNIT, Mass::Finite(1)).unwrap();
    let b = w.create(Vec3::new(2 * UNIT, 0, 0), UNIT, Mass::Finite(1)).unwrap();
    assert!(w.check_collision(0, 0, 0, UNIT));
    assert!(w.check_collision(2 * UNIT, 0, 0, UNIT));
    // Each body alone, probed from the other's centre.
    w.remove(a).unwrap();
    assert!(w.check_collision(0, 0, 0, UNIT));
    let (w2, _) = world_with(Vec3::new(0, 0, 0), UNIT, Mass::Finite(1));
    assert!(w2.check_collision(2 * UNIT, 0, 0, UNIT));
    assert!(w.get(b).is_ok());
}

#[test]
fn collision_negative() {
    let far = 2_010_000_000;
    let (w, _) = world_with(Vec3::new(far, 0, 0), UNIT, Mass::Finite(1));
    assert!(!w.check_collision(0, 0, 0, UNIT));
    let (w2, _) = world_with(Vec3::new(0, 0, 0), UNIT, Mass::Finite(1));
    assert!(!w2.check_collision(far, 0, 0, UNIT));
}

#[test]
fn collision_edge_cases() {
    let w = PhysicsWorld::new();
    assert!(!w.check_collision(0, 0, 0, UNIT));
    let (w, _) = world_with(Vec3::new(0, 0, 0), 5, Mass::Finite(1));
    assert!(w.check_collision(3, 4, 0, 0));
    assert!(!w.check_collision(0, 0, 0, -1));
    // Diagonal: distance 10 from (6, 8, 0) to the origin, radii 5 + 5.
    assert!(w.check_collision(6, 8, 0, 5));
    assert!(!w.check_collision(6, 8, 0, 4));
    // Extreme coordinates do not overflow.
    let (w, _) = world_with(Vec3::new(i64::MIN, i64::MIN, i64::MIN), i64::MAX, Mass::Static);
    assert!(!w.check_collision(i64::MAX, i64::MAX, i64::MAX, i64::MAX));
    assert!(w.check_collision(i64::MIN + 1, i64::MIN, i64::MIN, 0));
}

#[test]
fn removal_isolation() {
    let mut with_a = PhysicsWorld::new();
    let a = with_a.create(Vec3::new(0, 0, 0), UNIT, Mass::Finite(1)).unwrap();
    let b = with_a.create(Vec3::new(5 * UNIT, 0, 0), UNIT, Mass::Finite(1)).unwrap();
    with_a.set_velocity(b, Vec3::new(1000, 0, 0)).unwrap();
    let mut without_a = PhysicsWorld::new();
    without_a.create(Vec3::new(0, 0, 0), UNIT, Mass::Finite(1)).unwrap();
    without_a.create(Vec3::new(5 * UNIT, 0, 0), UNIT, Mass::Finite(1)).unwrap();
    without_a.set_velocity(b, Vec3::new(1000, 0, 0)).unwrap();
    without_a.remove(a).unwrap();

    with_a.update(500).unwrap();
    with_a.remove(a).unwrap();
    without_a.update(500).unwrap();

    assert_eq!(with_a.get(b), without_a.get(b));
    assert_eq!(with_a.get(a), Err(PhysicsError::NotFound));
    assert!(!with_a.check_collision(0, 0, 0, 0));
    assert_eq!(with_a.for_each_active().len(), 1);
    assert_eq!(with_a.remove(a), Err(PhysicsError::NotFound));
}

#[test]
fn invalid_time_step() {
    let (mut w, id) = world_with(Vec3::new(1, 2, 3), UNIT, Mass::Finite(1));
    w.set_velocity(id, Vec3::new(4, 5, 6)).unwrap();
    let before: Body = w.get(id).unwrap();
    assert_eq!(w.update(-1), Err(PhysicsError::InvalidTimeStep));
    assert_eq!(w.update(i64::MIN), Err(PhysicsError::InvalidTimeStep));
    assert_eq!(w.get(id).unwrap(), before);
}

#[test]
fn determinism() {
    let run = || {
        let mut w = PhysicsWorld::new();
        w.set_max_substep(Some(7)).unwrap();
        let a = w.create(Vec3::new(1, 2, 3), UNIT, Mass::Finite(3)).unwrap();
        w.update(33).unwrap();
        w.set_velocity(a, Vec3::new(-5, 11, 2)).unwrap();
        w.create(Vec3::new(UNIT, UNIT, UNIT), 9, Mass::Static).unwrap();
        w.update(1001).unwrap();
        w.for_each_active()
    };
    assert_eq!(run(), run());
}

#[test]
fn sub_steps_split_evenly() {
    let (mut w, id) = world_with(Vec3::new(0, 0, 0), UNIT, Mass::Finite(1));
    assert_eq!(w.set_max_substep(Some(10)), Ok(()));
    assert_eq!(w.max_substep(), Some(10));
    // 25 ms in sub-steps of 9, 8 and 8.
    w.update(25).unwrap();
    let b = w.get(id).unwrap();
    assert_eq!(b.velocity.y, -245_250);
    assert_eq!(b.position.y, -4_090_770);
}

#[test]
fn sub_step_cap_must_be_positive() {
    let mut w = PhysicsWorld::new();
    assert_eq!(w.set_max_substep(Some(0)), Err(PhysicsError::InvalidTimeStep));
    assert_eq!(w.set_max_substep(Some(-3)), Err(PhysicsError::InvalidTimeStep));
    assert_eq!(w.max_substep(), None);
    assert_eq!(w.set_max_substep(None), Ok(()));
}

#[test]
fn zero_time_step_changes_nothing() {
    let (mut w, id) = world_with(Vec3::new(1, 2, 3), UNIT, Mass::Finite(1));
    let before = w.get(id).unwrap();
    assert_eq!(w.update(0), Ok(()));
    assert_eq!(w.get(id).unwrap(), before);
}

#[test]
fn out_of_range_step_changes_nothing() {
    let mut w = PhysicsWorld::new();
    let a = w.create(Vec3::new(0, 0, 0), UNIT, Mass::Finite(1)).unwrap();
    let low = w.create(Vec3::new(0, i64::MIN + 10, 0), UNIT, Mass::Finite(1)).unwrap();
    assert_eq!(w.update(1000), Err(PhysicsError::OutOfRange));
    assert_eq!(w.get(a).unwrap().position, Vec3::new(0, 0, 0));
    assert_eq!(w.get(low).unwrap().velocity, Vec3::zero());
    w.set_gravity(Vec3::new(0, 0, 0));
    assert_eq!(w.update(1000), Ok(()));
}

#[test]
fn store_ids_and_capacity() {
    let mut w = PhysicsWorld::new();
    assert_eq!(w.capacity(), None);
    w.set_capacity(Some(1));
    let a = w.create(Vec3::zero(), 1, Mass::Finite(1)).unwrap();
    assert_eq!(a, 0);
    assert_eq!(w.create(Vec3::zero(), 1, Mass::Finite(1)), Err(PhysicsError::CapacityExceeded));
    assert_eq!(w.body_count(), 1);
    w.remove(a).unwrap();
    assert_eq!(w.body_count(), 0);
    // Ids are never reused.
    assert_eq!(w.create(Vec3::zero(), 1, Mass::Finite(1)), Ok(1));
    assert_eq!(w.get(0), Err(PhysicsError::NotFound));
    assert_eq!(w.set_velocity(0, Vec3::zero()), Err(PhysicsError::NotFound));
    assert_eq!(w.set_active(7, true), Err(PhysicsError::NotFound));
}

#[test]
fn for_each_active_in_insertion_order() {
    let mut w = PhysicsWorld::new();
    let a = w.create(Vec3::new(1, 0, 0), 1, Mass::Finite(1)).unwrap();
    let b = w.create(Vec3::new(2, 0, 0), 1, Mass::Static).unwrap();
    let c = w.create(Vec3::new(3, 0, 0), 1, Mass::Finite(1)).unwrap();
    w.set_active(b, false).unwrap();
    let ids: Vec<usize> = w.for_each_active().iter().map(|b| b.id).collect();
    assert_eq!(ids, vec![a, c]);
    assert_eq!(w.for_each_active(), w.for_each_active());
    w.set_active(b, true).unwrap();
    assert_eq!(w.for_each_active().len(), 3);
}

#[test]
fn add_small_integers() {
    assert_eq!(physics_world::add(2, 3), 5);
    assert_eq!(physics_world::add(-7, 4), -3);
}
