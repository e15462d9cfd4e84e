use tilephys::rect::IntRect;
use tilephys::tiles::{collide_any, GridError, TileBody};

/// A grid of 4 columns and 3 rows of 16-unit tiles at (32, 48):
///   . # . .
///   . . . #
///   # # . .
fn sample() -> TileBody {
    let solid = vec![
        false, true, false, false, false, false, false, true, true, true, false, false,
    ];
    let tiles: Vec<u16> = (0..12).collect();
    match TileBody::new(32, 48, 16, 4, tiles, solid) {
        Ok(body) => body,
        Err(_) => panic!("the sample grid is well formed"),
    }
}

fn brute_force(body: &TileBody, r: &IntRect) -> bool {
    let ts = body.tile_size() as i64;
    let w = body.width() as usize;
    let solid = body.solid();
    for i in 0..solid.len() {
        if !solid[i] {
            continue;
        }
        let cx = body.x() as i64 + (i % w) as i64 * ts;
        let cy = body.y() as i64 + (i / w) as i64 * ts;
        let (rx, ry, rw, rh) = (r.x as i64, r.y as i64, r.w as i64, r.h as i64);
        if rx < cx + ts && rx + rw > cx && ry < cy + ts && ry + rh > cy {
            return true;
        }
    }
    false
}

#[test]
fn new_keeps_what_it_was_given() {
    let body = sample();
    assert_eq!(body.x(), 32);
    assert_eq!(body.y(), 48);
    assert_eq!(body.tile_size(), 16);
    assert_eq!(body.width(), 4);
    assert_eq!(body.height(), 3);
    assert_eq!(body.tiles().len(), 12);
    assert_eq!(body.tiles()[5], 5);
    assert_eq!(body.solid()[1], true);
    assert_eq!(body.solid()[0], false);
}

#[test]
fn new_turns_down_a_grid_without_columns() {
    let res = TileBody::new(0, 0, 16, 0, vec![], vec![]);
    assert!(matches!(res, Err(GridError::ZeroWidth)));
    let res = TileBody::new(0, 0, 0, 0, vec![1], vec![]);
    assert!(matches!(res, Err(GridError::ZeroWidth)));
}

#[test]
fn new_turns_down_tiles_without_extent() {
    let res = TileBody::new(0, 0, 0, 2, vec![1, 2], vec![true, false]);
    assert!(matches!(res, Err(GridError::ZeroTileSize)));
}

#[test]
fn new_turns_down_flags_that_do_not_match() {
    let res = TileBody::new(0, 0, 16, 2, vec![1, 2], vec![true]);
    assert!(matches!(res, Err(GridError::LengthMismatch)));
}

#[test]
fn new_turns_down_an_incomplete_row() {
    let res = TileBody::new(0, 0, 16, 2, vec![1, 2, 3], vec![true, false, true]);
    assert!(matches!(res, Err(GridError::RaggedRows)));
}

#[test]
fn new_accepts_a_grid_without_rows() {
    let res = TileBody::new(0, 0, 16, 2, vec![], vec![]);
    match res {
        Ok(body) => {
            assert_eq!(body.height(), 0);
            assert!(!body.collide(&IntRect::new(0, 0, 100, 100)));
        }
        Err(_) => panic!("an empty grid is well formed"),
    }
}

#[test]
fn collide_hits_a_solid_cell() {
    let body = sample();
    // cell 1 occupies [48, 64) x [48, 64)
    assert!(body.collide(&IntRect::new(50, 50, 4, 4)));
    assert!(body.collide(&IntRect::new(40, 40, 9, 9)));
    assert!(body.collide(&IntRect::new(63, 63, 1, 1)));
}

#[test]
fn collide_misses_an_open_cell() {
    let body = sample();
    // cell 0 occupies [32, 48) x [48, 64) and is open
    assert!(!body.collide(&IntRect::new(33, 49, 14, 14)));
    // cell 6 occupies [64, 80) x [64, 80) and is open
    assert!(!body.collide(&IntRect::new(64, 64, 16, 16)));
}

#[test]
fn collide_does_not_count_a_touching_edge() {
    let body = sample();
    assert!(!body.collide(&IntRect::new(32, 48, 16, 16)));
    assert!(!body.collide(&IntRect::new(64, 48, 16, 16)));
    assert!(body.collide(&IntRect::new(33, 48, 16, 16)));
    assert!(body.collide(&IntRect::new(63, 48, 16, 16)));
}

#[test]
fn collide_treats_what_lies_beyond_the_grid_as_open() {
    let body = sample();
    assert!(!body.collide(&IntRect::new(-1000, -1000, 10, 10)));
    assert!(!body.collide(&IntRect::new(1000, 1000, 10, 10)));
    assert!(!body.collide(&IntRect::new(0, 48, 32, 48)));
    assert!(!body.collide(&IntRect::new(96, 48, 50, 48)));
    assert!(!body.collide(&IntRect::new(32, 0, 64, 48)));
    assert!(!body.collide(&IntRect::new(32, 96, 64, 48)));
    assert!(!body.collide(&IntRect::new(i32::MIN, i32::MIN, 5, 5)));
    assert!(!body.collide(&IntRect::new(i32::MAX, i32::MAX, i32::MAX, i32::MAX)));
}

#[test]
fn collide_clamps_a_rectangle_that_reaches_past_the_grid() {
    let body = sample();
    assert!(body.collide(&IntRect::new(-1000, -1000, 5000, 5000)));
    assert!(body.collide(&IntRect::new(-1000, -1000, i32::MAX, i32::MAX)));
    // this one ends at -1 on both axes
    assert!(!body.collide(&IntRect::new(i32::MIN, i32::MIN, i32::MAX, i32::MAX)));
    assert!(body.collide(&IntRect::new(90, 60, 1000, 10)));
    assert!(!body.collide(&IntRect::new(90, 48, 1000, 16)));
}

#[test]
fn collide_agrees_with_a_check_of_every_cell() {
    let body = sample();
    let mut seen_hit = false;
    let mut seen_miss = false;
    for x in (20..110).step_by(3) {
        for y in (36..108).step_by(3) {
            for (w, h) in [(1, 1), (5, 7), (16, 16), (17, 3), (40, 40), (0, 5), (-3, 4)] {
                let r = IntRect::new(x, y, w, h);
                let expect = brute_force(&body, &r);
                assert_eq!(body.collide(&r), expect, "rect {:?}", r);
                seen_hit = seen_hit || expect;
                seen_miss = seen_miss || !expect;
            }
        }
    }
    assert!(seen_hit && seen_miss);
}

#[test]
fn collide_gives_the_same_answer_each_time() {
    let body = sample();
    let r = IntRect::new(47, 63, 2, 2);
    let first = body.collide(&r);
    for _ in 0..10 {
        assert_eq!(body.collide(&r), first);
    }
    assert!(first);
}

#[test]
fn collide_with_a_grid_at_negative_coordinates() {
    let body = match TileBody::new(-32, -32, 8, 2, vec![0, 0, 0, 0], vec![false, false, false, true]) {
        Ok(body) => body,
        Err(_) => panic!("well formed"),
    };
    // the solid cell occupies [-24, -16) x [-24, -16)
    assert!(body.collide(&IntRect::new(-17, -17, 1, 1)));
    assert!(body.collide(&IntRect::new(-24, -24, 1, 1)));
    assert!(!body.collide(&IntRect::new(-16, -17, 1, 1)));
    assert!(!body.collide(&IntRect::new(-25, -24, 1, 1)));
    assert!(!body.collide(&IntRect::new(-32, -32, 8, 16)));
}

#[test]
fn collide_any_scans_every_grid() {
    let a = sample();
    let b = match TileBody::new(200, 0, 10, 1, vec![9], vec![true]) {
        Ok(body) => body,
        Err(_) => panic!("well formed"),
    };
    let bodies = vec![a, b];
    assert!(collide_any(&bodies, &IntRect::new(50, 50, 2, 2)));
    assert!(collide_any(&bodies, &IntRect::new(205, 5, 2, 2)));
    assert!(!collide_any(&bodies, &IntRect::new(150, 5, 2, 2)));
    assert!(!collide_any(&Vec::new(), &IntRect::new(50, 50, 2, 2)));
}
