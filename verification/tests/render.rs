use raycaster::ratio::Rat;
use raycaster::grid::Cell;
use raycaster::grid::WallMap;
use raycaster::pose::PlayerPose;
use raycaster::pose::FULL_TURN;
use raycaster::cast::cast;
use raycaster::project::project;

fn rat(num: i64, den: i64) -> Rat {
    Rat { num, den }
}

/// The sample world: the boundary of a one-cell-thick loop enclosing the
/// origin.
fn sample_world() -> WallMap {
    let cells: Vec<(i64, i64)> = vec![
        (-3, -3),
        (-2, -3),
        (-1, -3),
        (-1, -4),
        (0, -4),
        (1, -4),
        (2, -4),
        (2, -3),
        (2, -2),
        (3, -2),
        (3, -1),
        (3, 0),
        (3, 1),
        (3, 2),
        (2, 2),
        (1, 2),
        (0, 2),
        (-1, 2),
        (-2, 2),
        (-3, 2),
        (-3, 1),
        (-3, 0),
        (-3, -1),
        (-3, -2),
    ];
    let mut v: Vec<Cell> = Vec::new();
    for (x, y) in cells {
        v.push(Cell { x, y });
    }
    WallMap::new(v)
}

fn value_eq(a: Rat, b: Rat) -> bool {
    (a.num as i128) * (b.den as i128) == (b.num as i128) * (a.den as i128)
}

#[test]
fn wall_map_membership() {
    let m = WallMap::new(vec![Cell { x: 3, y: 0 }, Cell { x: -1, y: 2 }]);
    assert!(m.contains(3, 0));
    assert!(m.contains(-1, 2));
    assert!(!m.contains(0, 0));
    assert!(!m.contains(3, 1));
    assert_eq!(m.len(), 2);
}

#[test]
fn axis_aligned_hit_distance() {
    // From (0.5, 0.5) along (1, 0) against a single wall at (3, 0): the
    // first partial cell contributes 0.5 and two whole cells follow.
    let m = WallMap::new(vec![Cell { x: 3, y: 0 }]);
    let t = cast(&m, rat(1, 2), rat(1, 2), rat(1, 1), rat(0, 1), 100);
    assert_eq!(t, Some(rat(5, 2)));
}

#[test]
fn axis_aligned_open_map() {
    let m = WallMap::new(Vec::new());
    let t = cast(&m, rat(1, 2), rat(1, 2), rat(1, 1), rat(0, 1), 100);
    assert_eq!(t, None);
}

#[test]
fn axis_aligned_negative_direction() {
    // From (0.5, 0.5) along (0, -1) against a wall at (0, -2): 0.5 to
    // leave the starting row, one whole row more to enter it.
    let m = WallMap::new(vec![Cell { x: 0, y: -2 }]);
    let t = cast(&m, rat(1, 2), rat(1, 2), rat(0, 1), rat(-1, 1), 100);
    assert_eq!(t, Some(rat(3, 2)));
}

#[test]
fn general_case_hit_distance() {
    // From (0.1, 0.1) along (1, 1) against a wall at (2, 2). Boundary
    // crossings: x = 1 and y = 1 at t = 0.9 (corner, y first then x),
    // x = 2 and y = 2 at t = 1.9; the cell (2, 2) is entered at the
    // x crossing, t = (2 - 0.1) / 1 = 19/10.
    let m = WallMap::new(vec![Cell { x: 2, y: 2 }]);
    let t = cast(&m, rat(1, 10), rat(1, 10), rat(1, 1), rat(1, 1), 100);
    assert_eq!(t, Some(rat(19, 10)));
    // The Euclidean distance for the unit direction (1,1)/sqrt(2) is
    // t * sqrt(2); check it against the independently computed value.
    let d = 1.9f64 * 2.0f64.sqrt();
    assert!((d - 2.6870057685088806f64).abs() < 1e-12);
}

#[test]
fn corner_tie_steps_y_first() {
    // The ray from (0.1, 0.1) along (1, 1) meets the corner (1, 1) where
    // both crossings are at t = 0.9: the y step is taken first, so the
    // cell (0, 1) is entered and (1, 0) is passed by.
    let both = WallMap::new(vec![Cell { x: 1, y: 0 }, Cell { x: 0, y: 1 }]);
    let t = cast(&both, rat(1, 10), rat(1, 10), rat(1, 1), rat(1, 1), 100);
    assert_eq!(t, Some(rat(9, 10)));
    let right_only = WallMap::new(vec![Cell { x: 1, y: 0 }]);
    let miss = cast(&right_only, rat(1, 10), rat(1, 10), rat(1, 1), rat(1, 1), 8);
    assert_eq!(miss, None);
}

#[test]
fn depth_bound_stops_search() {
    // A wall six whole cells away is out of reach of five crossings.
    let m = WallMap::new(vec![Cell { x: 6, y: 0 }]);
    let near = cast(&m, rat(1, 2), rat(1, 2), rat(1, 1), rat(0, 1), 5);
    assert_eq!(near, None);
    let far = cast(&m, rat(1, 2), rat(1, 2), rat(1, 1), rat(0, 1), 6);
    assert_eq!(far, Some(rat(11, 2)));
}

#[test]
fn rotation_stays_normalized() {
    let mut p = PlayerPose::new(rat(0, 1), rat(0, 1), 0);
    // A long arbitrary sequence of turns in both directions.
    let deltas: Vec<i64> = vec![
        FULL_TURN - 1,
        FULL_TURN / 2,
        1,
        FULL_TURN / 3,
        FULL_TURN - 7,
        12345,
        FULL_TURN / 2 + 1,
    ];
    let mut i: usize = 0;
    for d in deltas {
        let left = i % 3 != 0;
        let right = i % 2 == 0;
        p.turn(left, right, d);
        assert!(0 <= p.rot && p.rot < FULL_TURN);
        i += 1;
    }
}

#[test]
fn rotation_wraps_exactly() {
    let mut p = PlayerPose::new(rat(0, 1), rat(0, 1), 0);
    p.turn(false, true, 1);
    assert_eq!(p.rot, FULL_TURN - 1);
    p.turn(true, false, 2);
    assert_eq!(p.rot, 1);
    // Simultaneous opposite turns cancel.
    p.turn(true, true, 98765);
    assert_eq!(p.rot, 1);
}

#[test]
fn no_movement_without_intents() {
    let mut p = PlayerPose::new(rat(1, 4), rat(-3, 8), 777);
    // No intents at all: the position must not move, whatever the step.
    p.advance(false, false, false, false, rat(8, 1), rat(6, 1), rat(1, 2), rat(1, 2));
    assert_eq!(p.x, rat(1, 4));
    assert_eq!(p.y, rat(-3, 8));
    // Perfectly cancelling intents: still no movement.
    p.advance(true, true, true, true, rat(8, 1), rat(6, 1), rat(1, 2), rat(1, 2));
    assert_eq!(p.x, rat(1, 4));
    assert_eq!(p.y, rat(-3, 8));
    assert_eq!(p.rot, 777);
}

#[test]
fn forward_step_moves_along_facing() {
    // Facing (1, 0) exactly, stepping forward by 3/2.
    let mut p = PlayerPose::new(rat(0, 1), rat(0, 1), 0);
    p.advance(true, false, false, false, rat(3, 2), rat(1, 1), rat(1, 1), rat(0, 1));
    assert!(value_eq(p.x, rat(3, 2)));
    assert!(value_eq(p.y, rat(0, 1)));
    // Strafing left moves along the facing's left normal (0, 1).
    p.advance(false, false, true, false, rat(1, 2), rat(1, 1), rat(1, 1), rat(0, 1));
    assert!(value_eq(p.x, rat(3, 2)));
    assert!(value_eq(p.y, rat(1, 2)));
}

#[test]
fn diagonal_step_uses_diagonal_length() {
    // Forward plus strafe-left with facing (1, 0): the local sum (1, 1)
    // is normalized, so each axis moves by the supplied diagonal step.
    let mut p = PlayerPose::new(rat(0, 1), rat(0, 1), 0);
    p.advance(true, false, true, false, rat(1, 1), rat(5, 8), rat(1, 1), rat(0, 1));
    assert!(value_eq(p.x, rat(5, 8)));
    assert!(value_eq(p.y, rat(5, 8)));
}

#[test]
fn center_column_has_no_fisheye_correction() {
    // Sample world, facing (1, 0) from the origin, screen 4 wide and 100
    // high, field of view pi/2 so focal = 2. The central column (offset 0)
    // hits (3, 0) at raw distance 3, and its height is exactly 100 / 3.
    let m = sample_world();
    let p = PlayerPose::new(rat(0, 1), rat(0, 1), 0);
    let sl = project(&m, &p, rat(1, 1), rat(0, 1), rat(2, 1), 2, 4, 100).unwrap();
    assert!(value_eq(sl.height, rat(100, 3)));
    // Distance 3 is the saturation boundary: full brightness exactly.
    assert!(value_eq(sl.shade, rat(1, 1)));
    assert!(value_eq(sl.offset, rat(0, 1)));
}

#[test]
fn shading_falls_off_with_distance() {
    let p = PlayerPose::new(rat(0, 1), rat(0, 1), 0);
    let near = WallMap::new(vec![Cell { x: 3, y: 0 }]);
    let far = WallMap::new(vec![Cell { x: 5, y: 0 }]);
    let s1 = project(&near, &p, rat(1, 1), rat(0, 1), rat(2, 1), 2, 4, 100).unwrap();
    let s2 = project(&far, &p, rat(1, 1), rat(0, 1), rat(2, 1), 2, 4, 100).unwrap();
    // Corrected distances 3 and 5: shades 1 and 3/5.
    assert!(value_eq(s1.shade, rat(1, 1)));
    assert!(value_eq(s2.shade, rat(3, 5)));
    // Nearer at least as bright as farther.
    assert!(
        (s1.shade.num as i128) * (s2.shade.den as i128) >= (s2.shade.num as i128) * (
        s1.shade.den as i128)
    );
}

#[test]
fn enclosing_loop_hits_every_column() {
    // Sample world, player at the origin facing angle 0, screen 4 wide,
    // field of view pi/2 (focal = 2). Every column must hit: the loop
    // fully encloses the origin. The exact corrected distances follow
    // from the boundary-crossing arithmetic of each column's ray.
    let m = sample_world();
    let p = PlayerPose::new(rat(0, 1), rat(0, 1), 0);
    let h: i64 = 100;
    let expected: Vec<Rat> = vec![rat(4, 1), rat(5, 2), rat(3, 1), rat(15, 4)];
    let mut col: i64 = 0;
    while col < 4 {
        let sl = project(&m, &p, rat(1, 1), rat(0, 1), rat(2, 1), col, 4, h).unwrap();
        // height == h / corrected, so corrected == h / height.
        let corr = expected[col as usize];
        let want_height = rat(h * corr.den, corr.num);
        assert!(value_eq(sl.height, want_height));
        assert!(value_eq(sl.offset, rat(4 - 2 * col, 2)));
        col += 1;
    }
}

#[test]
fn projection_misses_on_open_map() {
    let m = WallMap::new(Vec::new());
    let p = PlayerPose::new(rat(0, 1), rat(0, 1), 0);
    assert!(project(&m, &p, rat(1, 1), rat(0, 1), rat(2, 1), 0, 4, 100).is_none());
}
