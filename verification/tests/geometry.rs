use autochess::state::utils::Location;

#[test]
fn distance_is_the_truncated_euclidean_distance() {
    let origin = Location { x: 0, y: 0 };
    assert_eq!(origin.distance(&Location { x: 3, y: 4 }), 5);
    assert_eq!(origin.distance(&Location { x: 2, y: 2 }), 2);
    assert_eq!(origin.distance(&Location { x: 800, y: 800 }), 1131);
    assert_eq!(origin.distance(&origin), 0);
    // symmetric
    let a = Location { x: 50, y: 50 };
    let b = Location { x: 750, y: 750 };
    assert_eq!(a.distance(&b), 989);
    assert_eq!(b.distance(&a), 989);
}

#[test]
fn move_towards_steps_along_the_vector() {
    let a = Location { x: 0, y: 0 };
    let b = Location { x: 700, y: 700 };
    let d = a.distance(&b);
    assert_eq!(d, 989);
    assert_eq!(a.move_towards(&b, d, 40), Location { x: 28, y: 28 });
    // moving along an axis is exact
    let c = Location { x: 100, y: 0 };
    assert_eq!(a.move_towards(&c, 100, 40), Location { x: 40, y: 0 });
    // moving backward decreases the coordinates
    assert_eq!(c.move_towards(&a, 100, 40), Location { x: 60, y: 0 });
    // the moved point is truncated, so a fractional step toward a smaller
    // coordinate subtracts the ceiling: from (5, 5) toward the origin at
    // distance 7, a step of 3 lands on (2, 2), not (3, 3)
    let e = Location { x: 5, y: 5 };
    let origin = Location { x: 0, y: 0 };
    assert_eq!(e.distance(&origin), 7);
    assert_eq!(e.move_towards(&origin, 7, 3), Location { x: 2, y: 2 });
}

#[test]
fn move_towards_saturates_at_the_board_edge_of_u16() {
    let a = Location { x: 10, y: 0 };
    let b = Location { x: 0, y: 0 };
    // overshooting past the origin clamps at zero
    assert_eq!(a.move_towards(&b, 10, 100), Location { x: 0, y: 0 });
}

#[test]
fn grid_distance_sums_the_coordinate_differences() {
    let a = Location { x: 1, y: 2 };
    let b = Location { x: 3, y: 4 };
    assert_eq!(a.grid_distance(&b), 4);
    assert_eq!(b.grid_distance(&a), 4);
    assert_eq!(a.grid_distance(&a), 0);
}
