use hdl21schematics::decode::{decode_svg, svg_to_sch};
use hdl21schematics::encode::sch_to_svg;
use hdl21schematics::error::SvgError;
use hdl21schematics::point::Point;
use hdl21schematics::schematic::{Instance, Orientation, Port, Rotation, Schematic, Wire};

fn sample() -> Schematic {
    Schematic {
        name: "top".to_string(),
        prelude: "generated by hand\nsecond line".to_string(),
        size: Point { x: 800, y: 600 },
        instances: vec![
            Instance {
                name: "x1".to_string(),
                of: "nmos".to_string(),
                loc: Point { x: 10, y: -20 },
                orientation: Orientation { reflected: true, rotation: Rotation::R90 },
            },
            Instance {
                name: "x2".to_string(),
                of: "pmos".to_string(),
                loc: Point { x: 30, y: 40 },
                orientation: Orientation { reflected: false, rotation: Rotation::R270 },
            },
        ],
        wires: vec![Wire {
            name: "net1".to_string(),
            points: vec![Point { x: 0, y: 0 }, Point { x: 5, y: 0 }, Point { x: 5, y: 9 }],
        }],
        ports: vec![Port {
            name: "vdd".to_string(),
            loc: Point { x: -3, y: 7 },
            orientation: Orientation { reflected: false, rotation: Rotation::R0 },
        }],
        dots: vec![Point { x: 5, y: 0 }],
    }
}

fn assert_same(a: &Schematic, b: &Schematic) {
    assert_eq!(a.name, b.name);
    assert_eq!(a.prelude, b.prelude);
    assert_eq!(a.size, b.size);
    assert_eq!(a.instances.len(), b.instances.len());
    for (i, j) in a.instances.iter().zip(b.instances.iter()) {
        assert_eq!(i.name, j.name);
        assert_eq!(i.of, j.of);
        assert_eq!(i.loc, j.loc);
        assert_eq!(i.orientation, j.orientation);
    }
    assert_eq!(a.wires.len(), b.wires.len());
    for (v, w) in a.wires.iter().zip(b.wires.iter()) {
        assert_eq!(v.name, w.name);
        assert_eq!(v.points, w.points);
    }
    assert_eq!(a.ports.len(), b.ports.len());
    for (p, q) in a.ports.iter().zip(b.ports.iter()) {
        assert_eq!(p.name, q.name);
        assert_eq!(p.loc, q.loc);
        assert_eq!(p.orientation, q.orientation);
    }
    assert_eq!(a.dots, b.dots);
}

#[test]
fn round_trip_recovers_every_field() {
    let s = sample();
    let text = sch_to_svg(&s).unwrap();
    let back = svg_to_sch(&text).unwrap();
    assert_same(&s, &back);
}

#[test]
fn round_trip_empty_schematic() {
    let s = Schematic {
        name: "empty".to_string(),
        prelude: String::new(),
        size: Point { x: 0, y: 0 },
        instances: vec![],
        wires: vec![],
        ports: vec![],
        dots: vec![],
    };
    let text = sch_to_svg(&s).unwrap();
    let back = svg_to_sch(&text).unwrap();
    assert_same(&s, &back);
}

#[test]
fn round_trip_extreme_coordinates() {
    let mut s = sample();
    s.instances[0].loc = Point { x: i64::MIN, y: i64::MAX };
    s.size = Point { x: i64::MAX, y: 0 };
    let text = sch_to_svg(&s).unwrap();
    let back = svg_to_sch(&text).unwrap();
    assert_same(&s, &back);
}

#[test]
fn reencode_is_byte_identical() {
    let s = sample();
    let text = sch_to_svg(&s).unwrap();
    let back = svg_to_sch(&text).unwrap();
    let text2 = sch_to_svg(&back).unwrap();
    assert_eq!(text, text2);
}

#[test]
fn encoding_is_deterministic() {
    let a = sch_to_svg(&sample()).unwrap();
    let b = sch_to_svg(&sample()).unwrap();
    assert_eq!(a, b);
}

#[test]
fn exact_text_of_a_minimal_schematic() {
    let s = Schematic {
        name: "m".to_string(),
        prelude: "p".to_string(),
        size: Point { x: 4, y: 3 },
        instances: vec![],
        wires: vec![],
        ports: vec![],
        dots: vec![Point { x: 1, y: -2 }],
    };
    let text = sch_to_svg(&s).unwrap();
    let expected = "<svg xmlns=\"http://www.w3.org/2000/svg\" width=\"4\" height=\"3\" data-name=\"m\">\n\
                    <metadata>\np\n</metadata>\n\
                    <circle class=\"dot\" cx=\"1\" cy=\"-2\" r=\"2\"/>\n\
                    </svg>\n";
    assert_eq!(text, expected);
}

#[test]
fn malformed_document_is_rejected() {
    match svg_to_sch("<not-valid-markup") {
        Err(SvgError::MalformedDocument) => {}
        other => panic!("expected MalformedDocument, got {:?}", other.is_ok()),
    }
}

#[test]
fn unknown_rotation_value_is_an_invalid_field() {
    let s = sample();
    let text = sch_to_svg(&s).unwrap();
    let bad = text.replace("\"R90\"", "\"R45\"");
    match svg_to_sch(&bad) {
        Err(SvgError::InvalidField { element, field, .. }) => {
            assert_eq!(element, "instance");
            assert_eq!(field, "data-rotation");
        }
        _ => panic!("expected InvalidField"),
    }
}

#[test]
fn out_of_range_number_is_an_invalid_field() {
    let text = "<svg xmlns=\"http://www.w3.org/2000/svg\" width=\"99999999999999999999\" height=\"3\" data-name=\"m\">\n<metadata>\n\n</metadata>\n</svg>\n";
    match svg_to_sch(text) {
        Err(SvgError::InvalidField { element, field, reason }) => {
            assert_eq!(element, "svg");
            assert_eq!(field, "width");
            assert_eq!(reason, "out of range");
        }
        _ => panic!("expected InvalidField"),
    }
}

#[test]
fn missing_attribute_is_an_invalid_field() {
    let s = sample();
    let text = sch_to_svg(&s).unwrap();
    let bad = text.replace(" data-of=\"nmos\"", "");
    match svg_to_sch(&bad) {
        Err(SvgError::InvalidField { element, field, .. }) => {
            assert_eq!(element, "instance");
            assert_eq!(field, "data-of");
        }
        _ => panic!("expected InvalidField"),
    }
}

#[test]
fn unrecognized_element_passes_through_and_reencodes() {
    let s = sample();
    let text = sch_to_svg(&s).unwrap();
    let custom = "<custom-thing data-foo=\"1\"/>";
    let with_custom = text.replace("</svg>\n", &format!("{}\n</svg>\n", custom));
    let back = decode_svg(&with_custom, false).unwrap();
    let text2 = sch_to_svg(&back).unwrap();
    assert!(text2.contains(custom));
}

#[test]
fn strict_mode_rejects_unrecognized_elements() {
    let s = sample();
    let text = sch_to_svg(&s).unwrap();
    let with_custom = text.replace("</svg>\n", "<custom-thing data-foo=\"1\"/>\n</svg>\n");
    match decode_svg(&with_custom, true) {
        Err(SvgError::UnrecognizedElement { element }) => {
            assert_eq!(element, "custom-thing");
        }
        _ => panic!("expected UnrecognizedElement"),
    }
}

#[test]
fn orientation_is_inferred_from_the_transform_when_typed_attributes_are_absent() {
    let text = "<svg xmlns=\"http://www.w3.org/2000/svg\" width=\"10\" height=\"10\" data-name=\"m\">\n\
                <metadata>\n\n</metadata>\n\
                <g class=\"instance\" data-name=\"x1\" data-of=\"res\" data-x=\"2\" data-y=\"3\" transform=\"matrix(0 1 1 0 2 3)\"/>\n\
                </svg>\n";
    let sch = svg_to_sch(text).unwrap();
    assert_eq!(sch.instances.len(), 1);
    let o = sch.instances[0].orientation;
    assert_eq!(o, Orientation { reflected: true, rotation: Rotation::R90 });
}

#[test]
fn encode_rejects_an_invalid_schematic_with_all_violations() {
    let mut s = sample();
    s.instances[1].name = "x1".to_string();
    s.wires[0].points.truncate(1);
    s.size = Point { x: -1, y: 0 };
    match sch_to_svg(&s) {
        Err(SvgError::ValidationFailed { violations }) => {
            assert_eq!(violations.len(), 3);
        }
        _ => panic!("expected ValidationFailed"),
    }
}
