use tilephys::actor::{resolve_motion, shifted, sweep, Axis, Motion};
use tilephys::rect::IntRect;
use tilephys::terrain::Terrain;
use tilephys::tiles::TileBody;

/// A floor 20 tiles wide at y = 160, with a wall three tiles high on its right end:
/// tiles of 16 units, origin (0, 112).
fn room() -> Terrain {
    let width = 20usize;
    let mut solid = vec![false; width * 4];
    for col in 0..width {
        solid[3 * width + col] = true;
    }
    for row in 0..3 {
        solid[row * width + width - 1] = true;
    }
    let tiles = vec![1u16; width * 4];
    match TileBody::new(0, 112, 16, width as u32, tiles, solid) {
        Ok(body) => Terrain::new(vec![body]),
        Err(_) => panic!("the room is well formed"),
    }
}

#[test]
fn shifted_moves_along_one_axis() {
    let r = IntRect::new(10, 20, 3, 4);
    assert_eq!(shifted(&r, Axis::Horizontal, 5), IntRect::new(15, 20, 3, 4));
    assert_eq!(shifted(&r, Axis::Vertical, -5), IntRect::new(10, 15, 3, 4));
}

#[test]
fn sweep_takes_the_whole_step_where_nothing_is_in_the_way() {
    let bodies = room();
    let r = IntRect::new(50, 100, 10, 10);
    assert_eq!(sweep(&bodies, &r, Axis::Horizontal, 7), 7);
    assert_eq!(sweep(&bodies, &r, Axis::Horizontal, -7), -7);
    assert_eq!(sweep(&bodies, &r, Axis::Vertical, -9), -9);
    assert_eq!(sweep(&bodies, &r, Axis::Horizontal, 0), 0);
}

#[test]
fn sweep_stops_at_the_last_free_unit_before_a_wall() {
    let bodies = room();
    // the wall begins at x = 304; a body 10 wide at 290 has 4 units to go
    let r = IntRect::new(290, 130, 10, 10);
    assert_eq!(sweep(&bodies, &r, Axis::Horizontal, 9), 4);
    assert_eq!(sweep(&bodies, &r, Axis::Horizontal, 4), 4);
    assert_eq!(sweep(&bodies, &r, Axis::Horizontal, 5), 4);
}

#[test]
fn sweep_stops_at_the_floor() {
    let bodies = room();
    // the floor begins at y = 160; a body 10 high at 147 has 3 units to go
    let r = IntRect::new(50, 147, 10, 10);
    assert_eq!(sweep(&bodies, &r, Axis::Vertical, 8), 3);
    assert_eq!(sweep(&bodies, &r, Axis::Vertical, -8), -8);
}

#[test]
fn sweep_of_a_body_that_is_stuck_stalls() {
    let bodies = room();
    let r = IntRect::new(50, 165, 10, 10);
    assert!(bodies.collide_any(&r));
    assert_eq!(sweep(&bodies, &r, Axis::Horizontal, 6), 0);
    assert_eq!(sweep(&bodies, &r, Axis::Horizontal, -6), 0);
    assert_eq!(sweep(&bodies, &r, Axis::Vertical, 6), 0);
}

#[test]
fn sweep_jumps_a_thin_obstacle_at_speed() {
    // one solid tile of 4 units at [100, 104)
    let post = match TileBody::new(100, 0, 4, 1, vec![1], vec![true]) {
        Ok(body) => Terrain::new(vec![body]),
        Err(_) => panic!("well formed"),
    };
    let r = IntRect::new(95, 0, 2, 2);
    // 3 units on it touches the post, 4 to 8 units on it overlaps it, 9 units on it is clear
    assert_eq!(sweep(&post, &r, Axis::Horizontal, 3), 3);
    assert_eq!(sweep(&post, &r, Axis::Horizontal, 5), 3);
    assert_eq!(sweep(&post, &r, Axis::Horizontal, 8), 3);
    assert_eq!(sweep(&post, &r, Axis::Horizontal, 9), 9);
}

#[test]
fn a_body_resting_on_the_ground_is_grounded_and_stops() {
    let bodies = room();
    // the lowest row of the body is one unit above the floor
    let r = IntRect::new(50, 150, 10, 10);
    for dy in [0, 1, 2, 5] {
        let m = resolve_motion(&bodies, &r, 0, dy);
        assert_eq!(m.rect, r);
        assert!(m.grounded);
        assert!(m.zero_vy());
        assert!(!m.zero_vx());
        assert_eq!(m.blocked_y, dy != 0);
    }
}

#[test]
fn a_body_above_the_ground_is_not_grounded() {
    let bodies = room();
    let r = IntRect::new(50, 120, 10, 10);
    let m = resolve_motion(&bodies, &r, 0, 0);
    assert_eq!(m, Motion { rect: r, blocked_x: false, blocked_y: false, grounded: false });
    assert!(!m.zero_vy());
    let m = resolve_motion(&bodies, &r, 3, 4);
    assert_eq!(
        m,
        Motion { rect: IntRect::new(53, 124, 10, 10), blocked_x: false, blocked_y: false, grounded: false }
    );
}

#[test]
fn a_falling_body_lands() {
    let bodies = room();
    let r = IntRect::new(50, 140, 10, 10);
    let m = resolve_motion(&bodies, &r, 2, 30);
    assert_eq!(m.rect, IntRect::new(52, 150, 10, 10));
    assert!(m.blocked_y);
    assert!(m.grounded);
    assert!(m.zero_vy());
    assert!(!m.blocked_x);
}

#[test]
fn a_jumping_body_leaves_the_ground() {
    let bodies = room();
    let r = IntRect::new(50, 150, 10, 10);
    let m = resolve_motion(&bodies, &r, 5, -6);
    assert_eq!(m.rect, IntRect::new(55, 144, 10, 10));
    assert!(!m.grounded);
    assert!(!m.blocked_y);
    assert!(!m.zero_vy());
}

#[test]
fn a_body_that_runs_into_the_wall_stops_there() {
    let bodies = room();
    let r = IntRect::new(290, 150, 10, 10);
    let m = resolve_motion(&bodies, &r, 9, 0);
    assert_eq!(m.rect, IntRect::new(294, 150, 10, 10));
    assert!(m.blocked_x);
    assert!(m.zero_vx());
    assert!(m.grounded);
}

#[test]
fn the_axes_are_resolved_one_after_the_other() {
    let bodies = room();
    // the horizontal sweep is made at the old height, the vertical at the new x
    let r = IntRect::new(290, 140, 10, 10);
    let m = resolve_motion(&bodies, &r, 20, 20);
    assert_eq!(m.rect, IntRect::new(294, 150, 10, 10));
    assert!(m.blocked_x && m.blocked_y && m.grounded);
}

#[test]
fn movement_never_ends_inside_a_solid() {
    let bodies = room();
    let mut r = IntRect::new(20, 100, 10, 10);
    assert!(!bodies.collide_any(&r));
    let moves = [
        (9, 9), (9, 9), (9, 9), (9, 9), (9, 9), (-3, 40), (50, 50), (50, -7), (50, 9), (50, 9),
        (50, 9), (50, 9), (50, 9), (-9, 9), (100, 100), (7, -60), (0, 1000), (-400, 3),
    ];
    for (dx, dy) in moves {
        let m = resolve_motion(&bodies, &r, dx, dy);
        assert!(!bodies.collide_any(&m.rect), "after {:?} at {:?}", (dx, dy), m.rect);
        r = m.rect;
    }
}
