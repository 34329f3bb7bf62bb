use dino_backend::map_generator::GameMap;
use dino_backend::map_generator::MapStation;
use dino_backend::obstacles::obstacle_size;
use dino_backend::obstacles::Obstacle;
use dino_backend::session::INITIAL_X_VEL;
use dino_backend::session::X_ACC;
use dino_backend::session::GRAVITY;
use dino_backend::session::JUMP_VEL;

fn standard_map() -> GameMap {
    GameMap::new(INITIAL_X_VEL, X_ACC, GRAVITY, JUMP_VEL)
}

fn same_station(a: &MapStation, b: &MapStation) -> bool {
    a.x == b.x && a.y == b.y && a.obstacles == b.obstacles
}

#[test]
fn get_map_returns_requested_page() {
    let mut m = standard_map();
    let page = m.get_map(0, 99);
    assert_eq!(page.len(), 100);
    assert_eq!(m.len(), 100);
    for st in &page {
        assert!(st.x > 0);
        assert!(st.y >= 0);
        assert!(!st.obstacles.is_empty());
        assert!(st.obstacles.len() <= 8);
    }
}

#[test]
fn stations_strictly_increase() {
    let mut m = standard_map();
    let page = m.get_map(0, 199);
    for k in 1..page.len() {
        assert!(page[k - 1].x < page[k].x);
    }
}

#[test]
fn get_range_idempotent() {
    // identical bounds twice: identical results
    let mut m = standard_map();
    let first = m.get_map(10, 29);
    let second = m.get_map(10, 29);
    assert_eq!(first.len(), second.len());
    for k in 0..first.len() {
        assert!(same_station(&first[k], &second[k]));
    }
}

#[test]
fn get_range_extension_keeps_prefix() {
    // an extended upper bound returns a superset whose prefix matches
    let mut m = standard_map();
    let first = m.get_map(0, 49);
    let extended = m.get_map(0, 149);
    assert_eq!(first.len(), 50);
    assert_eq!(extended.len(), 150);
    for k in 0..50 {
        assert!(same_station(&first[k], &extended[k]));
    }
}

#[test]
fn pages_disjoint_and_increasing() {
    // two consecutive 100-entry pages: contiguous, disjoint, increasing
    // across the boundary
    let mut m = standard_map();
    let page0 = m.get_map(0, 99);
    let page1 = m.get_map(100, 199);
    assert_eq!(page0.len(), 100);
    assert_eq!(page1.len(), 100);
    assert!(page0[99].x < page1[0].x);
}

#[test]
fn clearance_heights_stay_jumpable() {
    // no emitted obstacle requires a clearance height above the jump's
    // peak (the generator clamps flying obstacles to keep this)
    let mut m = standard_map();
    let page = m.get_map(0, 199);
    // peak = uy^2 / (-2 g) in milli-units
    let peak = JUMP_VEL * JUMP_VEL / (2 * -GRAVITY);
    for st in &page {
        if st.y > 0 {
            // flying obstacle: its clearance is its altitude plus height
            for o in &st.obstacles {
                assert!(st.y + obstacle_size(o).1 <= peak);
            }
        } else {
            for o in &st.obstacles {
                assert!(obstacle_size(o).1 <= obstacle_size(&Obstacle::CactusBig1).1);
            }
        }
    }
}

#[test]
fn obstacle_sizes_fixed_per_kind() {
    assert_eq!(obstacle_size(&Obstacle::CactusBig1), (532, 1_064));
    assert_eq!(obstacle_size(&Obstacle::CactusSmall1), (362, 745));
    assert_eq!(obstacle_size(&Obstacle::Bird1), (979, 851));
    assert_eq!(obstacle_size(&Obstacle::Ground), (25_532, 255));
    assert_eq!(obstacle_size(&Obstacle::DinoDuck1), (1_255, 638));
}

#[test]
fn generation_works_for_other_kinematics() {
    // a slower, floatier configuration still yields a well-formed course
    let mut m = GameMap::new(5_000, 2_000, -10_000, 20_000);
    let page = m.get_map(0, 49);
    assert_eq!(page.len(), 50);
    for k in 1..page.len() {
        assert!(page[k - 1].x < page[k].x);
    }
}
