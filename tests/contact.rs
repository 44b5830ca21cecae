use rigid_core::contact::{ground, Contact};
use rigid_core::vector::Vec3;
use rigid_core::world::World;

#[test]
fn ground_skips_vertices_above_plane() {
    let cur = vec![Vec3::new(0, 0, 0), Vec3::new(1, 2, 3)];
    let past = vec![Vec3::new(5, 5, 5), Vec3::new(1, 2, 4)];
    assert!(ground(&cur, &past).is_empty());
}

#[test]
fn ground_target_removes_horizontal_motion() {
    let cur = vec![Vec3::new(10, 20, -5), Vec3::new(1, 1, 1), Vec3::new(-3, 4, -1)];
    let past = vec![Vec3::new(7, 22, -2), Vec3::new(0, 0, 0), Vec3::new(-3, 4, 9)];
    let r = ground(&cur, &past);
    assert_eq!(r.len(), 2);
    assert_eq!(r[0].current, Vec3::new(10, 20, -5));
    assert_eq!(r[0].target, Vec3::new(7, 22, 0));
    assert_eq!(r[1].current, Vec3::new(-3, 4, -1));
    assert_eq!(r[1].target, Vec3::new(-3, 4, 0));
}

#[test]
fn ground_on_empty_input() {
    assert!(ground(&vec![], &vec![]).is_empty());
}

#[test]
fn contact_difference_and_satisfied() {
    let c = Contact { current: Vec3::new(1, 2, -3), target: Vec3::new(1, 2, 0) };
    assert_eq!(c.difference(), Vec3::new(0, 0, 3));
    assert!(!c.is_satisfied());
    let d = Contact { current: Vec3::new(4, 4, 0), target: Vec3::new(4, 4, 0) };
    assert_eq!(d.difference(), Vec3::new(0, 0, 0));
    assert!(d.is_satisfied());
}

#[test]
fn world_entities_is_the_cube() {
    let w = World::new(String::from("cube"));
    assert_eq!(w.entities(), vec![String::from("cube")]);
}

#[test]
fn vector_arithmetic() {
    let a = Vec3::new(1, 2, 3);
    let b = Vec3::new(4, 5, 6);
    assert_eq!(a.dot(&b, 10, 10), 32);
    assert_eq!(a.cross(&b, 10, 10), Vec3::new(-3, 6, -3));
    assert_eq!(b.sub(&a, 10), Vec3::new(3, 3, 3));
    assert_eq!(a.neg(), Vec3::new(-1, -2, -3));
    assert!(Vec3::zero().is_zero());
    assert!(!a.is_zero());
}
