use hdl21schematics::geometry::{apply, compose, invert};
use hdl21schematics::point::Point;
use hdl21schematics::schematic::{Orientation, Rotation};

const ROTATIONS: [Rotation; 4] = [Rotation::R0, Rotation::R90, Rotation::R180, Rotation::R270];

#[test]
fn reflect_then_rotate_order() {
    // Reflection first, then the 90 degree rotation: (2, 0) lands on (0, 2).
    let o = Orientation { reflected: true, rotation: Rotation::R90 };
    let p = apply(compose(o), Point { x: 2, y: 0 });
    assert_eq!(p, Point { x: 0, y: 2 });
}

#[test]
fn rotate_then_reflect_is_the_wrong_order() {
    // Regression against swapping the composition order: rotating first and
    // reflecting second sends (2, 0) to (0, -2), not (0, 2).
    let rotated = apply(
        compose(Orientation { reflected: false, rotation: Rotation::R90 }),
        Point { x: 2, y: 0 },
    );
    let wrong = apply(compose(Orientation { reflected: true, rotation: Rotation::R0 }), rotated);
    assert_eq!(wrong, Point { x: 0, y: -2 });
    let right = apply(
        compose(Orientation { reflected: true, rotation: Rotation::R90 }),
        Point { x: 2, y: 0 },
    );
    assert_ne!(right, wrong);
}

#[test]
fn invert_recovers_all_eight_orientations() {
    for reflected in [false, true] {
        for rotation in ROTATIONS {
            let o = Orientation { reflected, rotation };
            assert_eq!(invert(compose(o)), Some(o));
        }
    }
}

#[test]
fn invert_rejects_a_non_orientation_transform() {
    let t = compose(Orientation { reflected: false, rotation: Rotation::R0 });
    let scaled = hdl21schematics::geometry::Transform { a: 2, b: t.b, c: t.c, d: t.d };
    assert_eq!(invert(scaled), None);
}

#[test]
fn plain_rotations() {
    let p = Point { x: 2, y: 1 };
    let r = |rot: Rotation| apply(compose(Orientation { reflected: false, rotation: rot }), p);
    assert_eq!(r(Rotation::R0), Point { x: 2, y: 1 });
    assert_eq!(r(Rotation::R90), Point { x: -1, y: 2 });
    assert_eq!(r(Rotation::R180), Point { x: -2, y: -1 });
    assert_eq!(r(Rotation::R270), Point { x: 1, y: -2 });
}
