use tilephys::rect::IntRect;
use tilephys::terrain::Terrain;
use tilephys::tiles::{collide_any, TileBody};

fn grid(x: i32, y: i32, tile_size: u32, width: u32, solid: Vec<bool>) -> TileBody {
    let tiles = vec![1u16; solid.len()];
    match TileBody::new(x, y, tile_size, width, tiles, solid) {
        Ok(body) => body,
        Err(_) => panic!("well formed"),
    }
}

fn level() -> Vec<TileBody> {
    vec![
        // a long floor
        grid(0, 300, 16, 100, vec![true; 100]),
        // a platform far to the left, at negative coordinates
        grid(-1000, -40, 8, 4, vec![true, false, false, true]),
        // a column that spans several buckets
        grid(500, -200, 32, 1, vec![true; 12]),
        // a grid without rows
        grid(0, 0, 16, 3, vec![]),
    ]
}

#[test]
fn bounds_of_a_grid() {
    let bodies = level();
    assert_eq!(bodies[0].bounds(), Some(IntRect::new(0, 300, 1600, 16)));
    assert_eq!(bodies[1].bounds(), Some(IntRect::new(-1000, -40, 32, 8)));
    assert_eq!(bodies[2].bounds(), Some(IntRect::new(500, -200, 32, 384)));
    assert_eq!(bodies[3].bounds(), Some(IntRect::new(0, 0, 48, 0)));
}

#[test]
fn bounds_of_a_grid_too_large_for_a_rectangle() {
    let wide = grid(0, 0, 0x4000_0000, 2, vec![false, true]);
    assert_eq!(wide.bounds(), None);
    let just = grid(0, 0, 0x7fff_ffff, 1, vec![true]);
    assert_eq!(just.bounds(), Some(IntRect::new(0, 0, i32::MAX, i32::MAX)));
    let high = grid(0, 0, 0x8000_0000, 1, vec![true]);
    assert_eq!(high.bounds(), None);
}

#[test]
fn new_keeps_the_grids_in_their_order() {
    let terrain = Terrain::new(level());
    assert_eq!(terrain.bodies().len(), 4);
    assert_eq!(terrain.bodies()[1].x(), -1000);
    assert_eq!(terrain.bodies()[2].tile_size(), 32);
}

#[test]
fn collide_any_agrees_with_a_scan_of_every_grid() {
    let bodies = level();
    let terrain = Terrain::new(level());
    let mut hits = 0;
    let mut misses = 0;
    for x in (-1100..1700).step_by(37) {
        for y in (-260..340).step_by(19) {
            for (w, h) in [(1, 1), (10, 10), (24, 16), (130, 5), (3, 300), (0, 4), (5, -1)] {
                let r = IntRect::new(x, y, w, h);
                let expect = collide_any(&bodies, &r);
                assert_eq!(terrain.collide_any(&r), expect, "rect {:?}", r);
                if expect {
                    hits += 1;
                } else {
                    misses += 1;
                }
            }
        }
    }
    assert!(hits > 100 && misses > 100);
}

#[test]
fn collide_any_finds_a_grid_on_a_bucket_border() {
    // a solid tile that straddles the border between buckets 0 and 1 on both axes
    let terrain = Terrain::new(vec![grid(120, 120, 16, 1, vec![true])]);
    assert!(terrain.collide_any(&IntRect::new(121, 121, 1, 1)));
    assert!(terrain.collide_any(&IntRect::new(130, 130, 1, 1)));
    assert!(terrain.collide_any(&IntRect::new(127, 130, 2, 1)));
    assert!(!terrain.collide_any(&IntRect::new(136, 130, 2, 1)));
    // a rectangle without area on the border reaches no bucket, and still collides
    assert!(terrain.collide_any(&IntRect::new(128, 128, 0, 0)));
    assert!(terrain.collide_any(&IntRect::new(128, 128, 0, 5)));
    assert!(!terrain.collide_any(&IntRect::new(120, 128, 0, 5)));
}

#[test]
fn collide_any_looks_at_a_grid_that_is_too_large_to_index() {
    let huge = grid(-16, -16, 0x4000_0000, 2, vec![false, true]);
    let small = grid(0, 0, 16, 1, vec![true]);
    let terrain = Terrain::new(vec![huge, small]);
    assert!(terrain.collide_any(&IntRect::new(5, 5, 2, 2)));
    assert!(!terrain.collide_any(&IntRect::new(100, 100, 2, 2)));
    assert!(terrain.collide_any(&IntRect::new(0x4000_0000, 100, 2, 2)));
    assert!(terrain.collide_any(&IntRect::new(0x3fff_fff0, 100, 2, 2)));
    assert!(!terrain.collide_any(&IntRect::new(0x3fff_ffee, 100, 2, 2)));
}

#[test]
fn collide_any_of_an_empty_level() {
    let terrain = Terrain::new(Vec::new());
    assert!(!terrain.collide_any(&IntRect::new(0, 0, 10, 10)));
    assert!(!terrain.collide_any(&IntRect::new(0, 0, 0, 0)));
}
