use rigid_core::gjk::{same_direction, GjkError, Simplex};
use rigid_core::hull::{Hull, HullError};
use rigid_core::vector::Vec3;

fn cube_at(x: i128, y: i128, z: i128) -> Hull {
    Hull::cube(Vec3::new(x, y, z), 500).unwrap()
}

#[test]
fn gjk_separated_cubes() {
    let a = cube_at(0, 0, 0);
    let b = cube_at(2000, 0, 0);
    assert_eq!(a.gjk(&b, 64), Ok(false));
    assert_eq!(b.gjk(&a, 64), Ok(false));
}

#[test]
fn gjk_overlapping_cubes() {
    let a = cube_at(0, 0, 0);
    let b = cube_at(500, 0, 0);
    assert_eq!(a.gjk(&b, 64), Ok(true));
    assert_eq!(b.gjk(&a, 64), Ok(true));
}

#[test]
fn gjk_touching_cubes_overlap() {
    let a = cube_at(0, 0, 0);
    assert_eq!(a.gjk(&cube_at(1000, 0, 0), 64), Ok(true));
    assert_eq!(cube_at(1000, 0, 0).gjk(&a, 64), Ok(true));
    assert_eq!(a.gjk(&cube_at(1000, 1000, 0), 64), Ok(true));
    assert_eq!(cube_at(1000, 1000, 1000).gjk(&a, 64), Ok(true));
    assert_eq!(a.gjk(&cube_at(0, 0, 1000), 64), Ok(true));
    assert_eq!(a.gjk(&cube_at(1000, 300, 0), 64), Ok(true));
}

#[test]
fn gjk_answer_does_not_depend_on_order() {
    let a = cube_at(0, 0, 0);
    for (x, y, z) in [(2000, 0, 0), (500, 0, 0), (1001, 0, 0), (300, 200, 100), (0, 1500, 0)] {
        let b = cube_at(x, y, z);
        assert_eq!(a.gjk(&b, 64), b.gjk(&a, 64));
    }
}

#[test]
fn gjk_just_apart_and_just_inside() {
    assert_eq!(cube_at(0, 0, 0).gjk(&cube_at(1001, 0, 0), 64), Ok(false));
    assert_eq!(cube_at(0, 0, 0).gjk(&cube_at(999, 999, 999), 64), Ok(true));
    assert_eq!(cube_at(0, 0, 0).gjk(&cube_at(700, 700, 700), 64), Ok(true));
    assert_eq!(cube_at(0, 0, 0).gjk(&cube_at(0, 1500, 0), 64), Ok(false));
}

#[test]
fn gjk_same_place() {
    assert_eq!(cube_at(0, 0, 0).gjk(&cube_at(0, 0, 0), 64), Ok(true));
}

#[test]
fn gjk_iteration_limit() {
    let a = cube_at(0, 0, 0);
    let b = cube_at(500, 0, 0);
    assert_eq!(a.gjk(&b, 0), Err(GjkError::IterationLimit));
    assert_eq!(a.gjk(&b, 1), Err(GjkError::IterationLimit));
}

#[test]
fn hull_rejects_empty_and_out_of_range() {
    assert_eq!(Hull::new(vec![]).unwrap_err(), HullError::Empty);
    assert_eq!(
        Hull::new(vec![Vec3::new(0, 0, 0x10_0001)]).unwrap_err(),
        HullError::OutOfRange
    );
    assert_eq!(
        Hull::cube(Vec3::new(0x10_0000, 0, 0), 1).unwrap_err(),
        HullError::OutOfRange
    );
    assert!(Hull::new(vec![Vec3::new(-0x10_0000, 0x10_0000, 0)]).is_ok());
}

#[test]
fn cube_vertex_order() {
    let h = Hull::cube(Vec3::new(10, 20, 30), 5).unwrap();
    let p = h.points();
    assert_eq!(p.len(), 8);
    assert_eq!(p[0], Vec3::new(5, 15, 25));
    assert_eq!(p[1], Vec3::new(15, 15, 25));
    assert_eq!(p[2], Vec3::new(5, 25, 25));
    assert_eq!(p[7], Vec3::new(15, 25, 35));
}

#[test]
fn support_picks_farthest_and_last_of_ties() {
    let h = cube_at(0, 0, 0);
    assert_eq!(h.support(&Vec3::new(1, 1, 1)), Vec3::new(500, 500, 500));
    assert_eq!(h.support(&Vec3::new(-1, -1, -1)), Vec3::new(-500, -500, -500));
    assert_eq!(h.support(&Vec3::new(1, 0, 0)), Vec3::new(500, 500, 500));
    assert_eq!(h.support(&Vec3::new(-1, 0, 0)), Vec3::new(-500, 500, 500));
}

#[test]
fn minkowski_support_of_two_cubes() {
    let a = cube_at(0, 0, 0);
    let b = cube_at(2000, 0, 0);
    assert_eq!(a.minkowski_support(&b, &Vec3::new(1, 0, 0)), Vec3::new(-1000, 0, 0));
}

#[test]
fn enclose_keeps_newest_point_first() {
    let s = Simplex::Point(Vec3::new(-5, 0, 0));
    let (next, dir) = s.enclose(Vec3::new(5, 1, 0)).unwrap_err();
    assert_eq!(next, Simplex::Line(Vec3::new(5, 1, 0), Vec3::new(-5, 0, 0)));
    // (ab x ao) x ab with ab = (-10, -1, 0), ao = (-5, -1, 0)
    assert_eq!(dir, Vec3::new(5, -50, 0));
    let s = Simplex::Point(Vec3::new(7, 0, 0));
    let (next, dir) = s.enclose(Vec3::new(6, 0, 0)).unwrap_err();
    assert_eq!(next, Simplex::Point(Vec3::new(6, 0, 0)));
    assert_eq!(dir, Vec3::new(-6, 0, 0));
}

#[test]
fn enclose_tetrahedron_around_origin() {
    let s = Simplex::Triangle(
        Vec3::new(-1, -1, -1),
        Vec3::new(1, -1, -1),
        Vec3::new(0, 1, -1),
    );
    let out = s.enclose(Vec3::new(0, 0, 2));
    assert_eq!(
        out,
        Ok((
            Vec3::new(0, 0, 2),
            Vec3::new(-1, -1, -1),
            Vec3::new(1, -1, -1),
            Vec3::new(0, 1, -1)
        ))
    );
    let t = Simplex::Triangle(Vec3::new(0, 0, 2), Vec3::new(-1, -1, -1), Vec3::new(1, -1, -1));
    assert!(t.holds_origin() == false);
}

#[test]
fn direction_and_segment_tests() {
    assert!(same_direction(&Vec3::new(1, 2, 3), &Vec3::new(1, 0, 0)));
    assert!(!same_direction(&Vec3::new(1, 2, 3), &Vec3::new(0, 0, 0)));
    assert!(!same_direction(&Vec3::new(1, 0, 0), &Vec3::new(0, 5, 0)));
    let line = |p: Vec3, q: Vec3| Simplex::Line(p, q).holds_origin();
    assert!(line(Vec3::new(-2, 0, 0), Vec3::new(3, 0, 0)));
    assert!(!line(Vec3::new(1, 0, 0), Vec3::new(3, 0, 0)));
    assert!(!line(Vec3::new(-2, 1, 0), Vec3::new(3, 1, 0)));
    assert!(line(Vec3::new(0, 0, 0), Vec3::new(4, 0, 0)));
    assert!(Simplex::Point(Vec3::new(0, 0, 0)).holds_origin());
    assert!(!Simplex::Point(Vec3::new(0, 1, 0)).holds_origin());
}
