use game_ecs::{ECSManager, EntityID};

fn solid_box(store: &mut ECSManager, x: i32, y: i32, size: u32, pushable: bool, mass: u32) -> EntityID {
    let id = store.create_entity("box", x, y, 0);
    let e = store.get_entity_mut(id).unwrap();
    e.set_collider_centered(size, size).unwrap();
    e.pushable = pushable;
    e.mass = mass;
    id
}

fn pos(store: &ECSManager, id: EntityID) -> (i32, i32) {
    let e = store.get_entity(id).unwrap();
    (e.position_x, e.position_y)
}

#[test]
fn literal_move_to_195_overlaps_unpushable() {
    // At x = 195 the mover's box [185, 205] overlaps the obstacle's [190, 210].
    let mut s = ECSManager::new(800, 600);
    let m = solid_box(&mut s, 100, 100, 20, true, 1);
    let o = solid_box(&mut s, 200, 100, 20, false, 1);
    assert!(!s.move_entity(m, 95, 0));
    assert_eq!(pos(&s, m), (100, 100));
    assert_eq!(pos(&s, o), (200, 100));
}

#[test]
fn literal_move_to_205_blocked_by_unpushable() {
    let mut s = ECSManager::new(800, 600);
    let m = solid_box(&mut s, 100, 100, 20, true, 1);
    let o = solid_box(&mut s, 200, 100, 20, false, 1);
    assert!(!s.move_entity(m, 105, 0));
    assert_eq!(pos(&s, m), (100, 100));
    assert_eq!(pos(&s, o), (200, 100));
}

#[test]
fn literal_move_to_205_pushes_equal_mass() {
    // Penetrations: left 25, right 15, top 20, bottom 20; the right one is
    // smallest, so the obstacle goes left by 15 * 1 / 2 = 7.5, and
    // 200 - 7.5 = 192.5 is cut to 192.
    let mut s = ECSManager::new(800, 600);
    let m = solid_box(&mut s, 100, 100, 20, true, 1);
    let o = solid_box(&mut s, 200, 100, 20, true, 1);
    assert!(s.move_entity(m, 105, 0));
    assert_eq!(pos(&s, m), (205, 100));
    assert_eq!(pos(&s, o), (192, 100));
}

#[test]
fn literal_move_to_205_pushes_heavier_obstacle() {
    let mut s = ECSManager::new(800, 600);
    let m = solid_box(&mut s, 100, 100, 20, true, 1);
    let o = solid_box(&mut s, 200, 100, 20, true, 4);
    assert!(s.move_entity(m, 105, 0));
    assert_eq!(pos(&s, m), (205, 100));
    assert_eq!(pos(&s, o), (197, 100));
}

#[test]
fn gap_of_ten_succeeds() {
    // At x = 170 the mover's right edge is 180, ten short of the obstacle.
    let mut s = ECSManager::new(800, 600);
    let m = solid_box(&mut s, 100, 100, 20, true, 1);
    let o = solid_box(&mut s, 200, 100, 20, false, 1);
    assert!(s.move_entity(m, 70, 0));
    assert_eq!(pos(&s, m), (170, 100));
    assert_eq!(pos(&s, o), (200, 100));
}

#[test]
fn touching_edges_do_not_block() {
    let mut s = ECSManager::new(800, 600);
    let m = solid_box(&mut s, 100, 100, 20, true, 1);
    let o = solid_box(&mut s, 200, 100, 20, false, 1);
    assert!(s.move_entity(m, 80, 0));
    assert_eq!(pos(&s, m), (180, 100));
    assert_eq!(pos(&s, o), (200, 100));
}

#[test]
fn overlap_of_five_blocked_by_unpushable() {
    let mut s = ECSManager::new(800, 600);
    let m = solid_box(&mut s, 100, 100, 20, true, 1);
    let o = solid_box(&mut s, 200, 100, 20, false, 1);
    assert!(!s.move_entity(m, 85, 0));
    assert_eq!(pos(&s, m), (100, 100));
    assert_eq!(pos(&s, o), (200, 100));
}

#[test]
fn overlap_of_five_pushes_half() {
    // 5 * 1 / (1 + 1) = 2.5 to the right; 202.5 is cut to 202.
    let mut s = ECSManager::new(800, 600);
    let m = solid_box(&mut s, 100, 100, 20, true, 1);
    let o = solid_box(&mut s, 200, 100, 20, true, 1);
    assert!(s.move_entity(m, 85, 0));
    assert_eq!(pos(&s, m), (185, 100));
    assert_eq!(pos(&s, o), (202, 100));
}

#[test]
fn overlap_of_five_pushes_heavier_obstacle_one() {
    // 5 * 1 / (1 + 4) = 1.
    let mut s = ECSManager::new(800, 600);
    let m = solid_box(&mut s, 100, 100, 20, true, 1);
    let o = solid_box(&mut s, 200, 100, 20, true, 4);
    assert!(s.move_entity(m, 85, 0));
    assert_eq!(pos(&s, m), (185, 100));
    assert_eq!(pos(&s, o), (201, 100));
}

#[test]
fn no_collider_moves_through_cluster() {
    let mut s = ECSManager::new(800, 600);
    let ghost = s.create_entity("ghost", 0, 0, 0);
    let mut walls = Vec::new();
    for i in 0..5 {
        for j in 0..5 {
            walls.push(solid_box(&mut s, 10 * i, 10 * j, 12, (i + j) % 2 == 0, 1));
        }
    }
    let before: Vec<(i32, i32)> = walls.iter().map(|w| pos(&s, *w)).collect();
    assert!(s.move_entity(ghost, 20, 30));
    assert_eq!(pos(&s, ghost), (20, 30));
    assert!(s.move_entity(ghost, -7, 3));
    assert_eq!(pos(&s, ghost), (13, 33));
    let after: Vec<(i32, i32)> = walls.iter().map(|w| pos(&s, *w)).collect();
    assert_eq!(before, after);
}

#[test]
fn non_solid_mover_passes_through() {
    let mut s = ECSManager::new(800, 600);
    let m = solid_box(&mut s, 100, 100, 20, true, 1);
    s.get_entity_mut(m).unwrap().solid = false;
    let o = solid_box(&mut s, 110, 100, 20, false, 1);
    assert!(s.move_entity(m, 5, 0));
    assert_eq!(pos(&s, m), (105, 100));
    assert_eq!(pos(&s, o), (110, 100));
}

#[test]
fn non_solid_obstacle_is_ignored() {
    let mut s = ECSManager::new(800, 600);
    let m = solid_box(&mut s, 100, 100, 20, true, 1);
    let o = solid_box(&mut s, 130, 100, 20, false, 1);
    s.get_entity_mut(o).unwrap().solid = false;
    assert!(s.move_entity(m, 25, 0));
    assert_eq!(pos(&s, m), (125, 100));
    assert_eq!(pos(&s, o), (130, 100));
}

#[test]
fn obstacle_without_collider_is_ignored() {
    let mut s = ECSManager::new(800, 600);
    let m = solid_box(&mut s, 100, 100, 20, true, 1);
    let o = s.create_entity("marker", 120, 100, 0);
    s.get_entity_mut(o).unwrap().pushable = false;
    assert!(s.move_entity(m, 20, 0));
    assert_eq!(pos(&s, m), (120, 100));
}

#[test]
fn missing_entity_does_not_move() {
    let mut s = ECSManager::new(800, 600);
    let m = solid_box(&mut s, 100, 100, 20, true, 1);
    assert!(!s.move_entity(EntityID(99), 5, 5));
    assert_eq!(pos(&s, m), (100, 100));
}

#[test]
fn zero_delta_unobstructed() {
    let mut s = ECSManager::new(800, 600);
    let m = solid_box(&mut s, 100, 100, 20, true, 1);
    let o = solid_box(&mut s, 200, 100, 20, false, 1);
    assert!(s.move_entity(m, 0, 0));
    assert_eq!(pos(&s, m), (100, 100));
    assert_eq!(pos(&s, o), (200, 100));
}

#[test]
fn blocked_move_discards_pushes() {
    // The pushable one comes first in the scan, the wall second.
    let mut s = ECSManager::new(800, 600);
    let m = solid_box(&mut s, 100, 100, 20, true, 1);
    let p = solid_box(&mut s, 118, 90, 20, true, 1);
    let w = solid_box(&mut s, 118, 110, 20, false, 1);
    assert!(!s.move_entity(m, 5, 0));
    assert_eq!(pos(&s, m), (100, 100));
    assert_eq!(pos(&s, p), (118, 90));
    assert_eq!(pos(&s, w), (118, 110));
}

#[test]
fn push_is_clamped_to_ten() {
    // Penetration 15, share 15 * 1000 / 1001 = 14, clamped to 10.
    let mut s = ECSManager::new(800, 600);
    let m = solid_box(&mut s, 100, 100, 40, true, 1000);
    let p = solid_box(&mut s, 150, 100, 40, true, 1);
    assert!(s.move_entity(m, 25, 0));
    assert_eq!(pos(&s, m), (125, 100));
    assert_eq!(pos(&s, p), (160, 100));
}

#[test]
fn push_downward_and_upward() {
    let mut s = ECSManager::new(800, 600);
    let m = solid_box(&mut s, 100, 100, 20, true, 1);
    let below = solid_box(&mut s, 100, 200, 20, true, 1);
    assert!(s.move_entity(m, 0, 85));
    assert_eq!(pos(&s, below), (100, 202));
    assert!(s.move_entity(m, 0, -85));
    let above = solid_box(&mut s, 100, 0, 20, true, 1);
    assert!(s.move_entity(m, 0, -85));
    assert_eq!(pos(&s, m), (100, 15));
    assert_eq!(pos(&s, above), (100, -2));
}

#[test]
fn tie_left_beats_top() {
    // Penetrations: left 5, right 35, top 5, bottom 35.
    let mut s = ECSManager::new(800, 600);
    let m = solid_box(&mut s, 100, 100, 20, true, 1);
    let p = solid_box(&mut s, 115, 115, 20, true, 1);
    assert!(s.move_entity(m, 0, 0));
    assert_eq!(pos(&s, m), (100, 100));
    assert_eq!(pos(&s, p), (117, 115));
}

#[test]
fn tie_right_beats_bottom() {
    // Penetrations: left 35, right 5, top 35, bottom 5.
    let mut s = ECSManager::new(800, 600);
    let m = solid_box(&mut s, 100, 100, 20, true, 1);
    let p = solid_box(&mut s, 85, 85, 20, true, 1);
    assert!(s.move_entity(m, 0, 0));
    // 85 - 2.5 = 82.5, cut to 82.
    assert_eq!(pos(&s, p), (82, 85));
}

#[test]
fn pushed_entity_stopped_by_wall() {
    let mut s = ECSManager::new(800, 600);
    let m = solid_box(&mut s, 100, 100, 20, true, 1);
    let p = solid_box(&mut s, 130, 100, 20, true, 1);
    let w = solid_box(&mut s, 151, 100, 20, false, 1);
    assert!(s.move_entity(m, 15, 0));
    assert_eq!(pos(&s, m), (115, 100));
    assert_eq!(pos(&s, p), (130, 100));
    assert_eq!(pos(&s, w), (151, 100));
}

#[test]
fn pushed_entity_does_not_push_further() {
    let mut s = ECSManager::new(800, 600);
    let m = solid_box(&mut s, 100, 100, 20, true, 1);
    let b = solid_box(&mut s, 125, 100, 20, true, 1);
    let c = solid_box(&mut s, 146, 100, 20, true, 1);
    assert!(s.move_entity(m, 10, 0));
    assert_eq!(pos(&s, m), (110, 100));
    assert_eq!(pos(&s, b), (127, 100));
    assert_eq!(pos(&s, c), (146, 100));
}

#[test]
fn every_pushable_hit_is_pushed() {
    let mut s = ECSManager::new(800, 600);
    let m = solid_box(&mut s, 100, 100, 20, true, 1);
    let a = solid_box(&mut s, 120, 90, 20, true, 1);
    let b = solid_box(&mut s, 120, 110, 20, true, 1);
    assert!(s.move_entity(m, 5, 0));
    assert_eq!(pos(&s, m), (105, 100));
    assert_eq!(pos(&s, a), (122, 90));
    assert_eq!(pos(&s, b), (122, 110));
}

#[test]
fn unpushable_mover_stops_its_own_push() {
    // The pushed box would still overlap the mover, which is unpushable.
    let mut s = ECSManager::new(800, 600);
    let m = solid_box(&mut s, 100, 100, 20, false, 1);
    let p = solid_box(&mut s, 130, 100, 20, true, 1);
    assert!(s.move_entity(m, 15, 0));
    assert_eq!(pos(&s, m), (115, 100));
    assert_eq!(pos(&s, p), (130, 100));
}

#[test]
fn move_saturates_at_i32_edges() {
    let mut s = ECSManager::new(800, 600);
    let m = s.create_entity("far", i32::MAX - 2, i32::MIN + 1, 0);
    assert!(s.move_entity(m, 10, -10));
    assert_eq!(pos(&s, m), (i32::MAX, i32::MIN));
}

#[test]
fn query_lists_overlapping_solids_with_depths() {
    let mut s = ECSManager::new(800, 600);
    let m = solid_box(&mut s, 100, 100, 20, true, 1);
    let a = solid_box(&mut s, 118, 100, 20, false, 1);
    let ghost = solid_box(&mut s, 100, 100, 20, true, 1);
    s.get_entity_mut(ghost).unwrap().solid = false;
    let far = solid_box(&mut s, 300, 300, 20, true, 1);
    let b = solid_box(&mut s, 95, 85, 20, true, 1);
    let found = s.query_collisions(m, (95, 90, 115, 110));
    assert_eq!(found, vec![(a, (7, 33, 20, 20)), (b, (30, 10, 35, 5))]);
    assert!(!found.iter().any(|(id, _)| *id == m || *id == far || *id == ghost));
}

#[test]
fn pushed_position_is_cut_toward_zero_at_negative_coordinates() {
    // Pushed right by 2.5: -200 + 2.5 = -197.5 is cut to -197.
    let mut s = ECSManager::new(800, 600);
    let m = solid_box(&mut s, -300, 100, 20, true, 1);
    let o = solid_box(&mut s, -200, 100, 20, true, 1);
    assert!(s.move_entity(m, 85, 0));
    assert_eq!(pos(&s, o), (-197, 100));
    // Pushed left by 2.5: -200 - 2.5 = -202.5 is cut to -202.
    let mut s = ECSManager::new(800, 600);
    let m = solid_box(&mut s, -100, 100, 20, true, 1);
    let o = solid_box(&mut s, -200, 100, 20, true, 1);
    assert!(s.move_entity(m, -85, 0));
    assert_eq!(pos(&s, m), (-185, 100));
    assert_eq!(pos(&s, o), (-202, 100));
}

#[test]
fn upward_push_at_positive_coordinates_is_cut_toward_zero() {
    // Pushed up by 2.5: 200 - 2.5 = 197.5 is cut to 197.
    let mut s = ECSManager::new(800, 600);
    let m = solid_box(&mut s, 100, 300, 20, true, 1);
    let o = solid_box(&mut s, 100, 200, 20, true, 1);
    assert!(s.move_entity(m, 0, -85));
    assert_eq!(pos(&s, m), (100, 215));
    assert_eq!(pos(&s, o), (100, 197));
}
