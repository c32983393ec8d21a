use game_ecs::{overlaps, Collider, ConfigError, Entity, EntityID};

#[test]
fn new_entity_defaults() {
    let e = Entity::new(EntityID(4), "thing", 10, -20, 3);
    assert_eq!(e.id, EntityID(4));
    assert_eq!((e.position_x, e.position_y, e.z_order), (10, -20, 3));
    assert!(e.solid && e.pushable && !e.simple_collisions);
    assert_eq!(e.mass, 1);
    assert!(e.collider.is_none() && e.sprite.is_none());
    assert!(e.get_collider_bounds().is_none());
}

#[test]
fn builders_set_flags() {
    let e = Entity::new(EntityID(1), "w", 0, 0, 0).with_solid(false).with_pushable(false);
    assert!(!e.solid && !e.pushable);
    let e = e.with_mass(3).unwrap();
    assert_eq!(e.mass, 3);
}

#[test]
fn zero_mass_is_refused() {
    let r = Entity::new(EntityID(1), "w", 0, 0, 0).with_mass(0);
    assert_eq!(r.err(), Some(ConfigError::NonPositiveMass));
}

#[test]
fn degenerate_collider_is_refused() {
    let mut e = Entity::new(EntityID(1), "w", 0, 0, 0);
    assert_eq!(e.set_collider(0, 5, 0, 0), Err(ConfigError::DegenerateCollider));
    assert_eq!(e.set_collider_centered(5, 0), Err(ConfigError::DegenerateCollider));
    assert!(e.collider.is_none());
}

#[test]
fn collider_bounds() {
    let mut e = Entity::new(EntityID(1), "w", 100, 50, 0);
    e.set_collider(10, 20, 3, -4).unwrap();
    assert_eq!(e.get_collider_bounds(), Some((103, 46, 113, 66)));
    e.set_collider_centered(21, 20).unwrap();
    assert_eq!(e.collider, Some(Collider { width: 21, height: 20, offset_x: -10, offset_y: -10 }));
    assert_eq!(e.get_collider_bounds(), Some((90, 40, 111, 60)));
}

#[test]
fn bounds_do_not_overflow() {
    let mut e = Entity::new(EntityID(1), "w", i32::MAX, i32::MIN, 0);
    e.set_collider(u32::MAX, u32::MAX, i32::MAX, i32::MIN).unwrap();
    let b = e.get_collider_bounds().unwrap();
    assert_eq!(b.0, 2 * i32::MAX as i64);
    assert_eq!(b.1, 2 * i32::MIN as i64);
    assert_eq!(b.2, 2 * i32::MAX as i64 + u32::MAX as i64);
}

#[test]
fn entity_move_saturates() {
    let mut e = Entity::new(EntityID(1), "w", 5, 5, 0);
    e.move_entity(3, -8);
    assert_eq!((e.position_x, e.position_y), (8, -3));
    e.move_entity(i32::MAX, i32::MIN);
    assert_eq!((e.position_x, e.position_y), (i32::MAX, i32::MIN));
}

#[test]
fn check_collision_needs_both_colliders() {
    let mut a = Entity::new(EntityID(1), "a", 0, 0, 0);
    let mut b = Entity::new(EntityID(2), "b", 5, 0, 0);
    assert!(!a.check_collision(&b));
    a.set_collider_centered(10, 10).unwrap();
    assert!(!a.check_collision(&b));
    b.set_collider_centered(10, 10).unwrap();
    assert!(a.check_collision(&b));
    b.position_x = 10;
    assert!(!a.check_collision(&b));
}

#[test]
fn overlap_is_strict_and_symmetric() {
    let a = (0, 0, 10, 10);
    let touching = (10, 0, 20, 10);
    let crossing = (9, 9, 30, 30);
    assert!(!overlaps(a, touching));
    assert!(!overlaps(touching, a));
    assert!(overlaps(a, crossing));
    assert!(overlaps(crossing, a));
    assert!(!overlaps(a, (0, 10, 10, 20)));
}
