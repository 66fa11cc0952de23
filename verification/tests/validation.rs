use hdl21schematics::error::Violation;
use hdl21schematics::point::Point;
use hdl21schematics::schematic::{Instance, Orientation, Rotation, Schematic, Wire};
use hdl21schematics::validate::validate;

fn inst(name: &str) -> Instance {
    Instance {
        name: name.to_string(),
        of: "res".to_string(),
        loc: Point { x: 0, y: 0 },
        orientation: Orientation { reflected: false, rotation: Rotation::R0 },
    }
}

fn base() -> Schematic {
    Schematic {
        name: "t".to_string(),
        prelude: String::new(),
        size: Point { x: 10, y: 10 },
        instances: vec![],
        wires: vec![],
        ports: vec![],
        dots: vec![],
    }
}

#[test]
fn duplicate_instance_names_are_reported() {
    let mut s = base();
    s.instances = vec![inst("x1"), inst("x1")];
    let v = validate(&s);
    assert_eq!(v.len(), 1);
    match &v[0] {
        Violation::DuplicateName { name } => assert_eq!(name, "x1"),
        _ => panic!("expected DuplicateName"),
    }
}

#[test]
fn single_point_wire_is_reported() {
    let mut s = base();
    s.wires = vec![Wire { name: "n".to_string(), points: vec![Point { x: 0, y: 0 }] }];
    let v = validate(&s);
    assert_eq!(v.len(), 1);
    match &v[0] {
        Violation::ShortWire { name } => assert_eq!(name, "n"),
        _ => panic!("expected ShortWire"),
    }
}

#[test]
fn negative_size_is_reported() {
    let mut s = base();
    s.size = Point { x: 5, y: -1 };
    let v = validate(&s);
    assert_eq!(v.len(), 1);
    assert!(matches!(v[0], Violation::NegativeSize));
}

#[test]
fn a_valid_schematic_has_no_violations() {
    let mut s = base();
    s.instances = vec![inst("x1"), inst("x2")];
    assert_eq!(validate(&s).len(), 0);
}

#[test]
fn all_violations_are_reported_in_one_pass() {
    let mut s = base();
    s.instances = vec![inst("a"), inst("a"), inst("a")];
    s.wires = vec![Wire { name: "w".to_string(), points: vec![] }];
    s.size = Point { x: -2, y: -2 };
    let v = validate(&s);
    // Two duplicates of "a", one short wire, one negative size.
    assert_eq!(v.len(), 4);
}
