//! The encoder: renders a valid [`Schematic`] as SVG-like markup text.
//!
//! The emitted document is fully determined by the schematic — the spec
//! functions here give its exact character sequence — so encoding the same
//! value twice produces byte-for-byte identical text.  Element order is
//! fixed: instances, then wires, then ports, then dots, each in stored
//! order.

use crate::error::SvgError;
use crate::error::SvgErrorV;
use crate::geometry::{compose, spec_compose};
use crate::point::Point;
use crate::schematic::{
    Instance, InstanceV, Orientation, Port, PortV, Rotation, Schematic, SchematicV, Wire, WireV,
};
use crate::text::{int_chars, push_dec_i64, push_str_chars, chars_to_string};
use crate::validate::{spec_valid, spec_violations, validate};
use vstd::prelude::*;

verus! {

/// Markup text of a boolean attribute value.
pub open spec fn bool_chars(b: bool) -> Seq<char> {
    if b {
        "true"@
    } else {
        "false"@
    }
}

/// Markup text of a rotation attribute value.
pub open spec fn rot_chars(r: Rotation) -> Seq<char> {
    match r {
        Rotation::R0 => "R0"@,
        Rotation::R90 => "R90"@,
        Rotation::R180 => "R180"@,
        Rotation::R270 => "R270"@,
    }
}

/// Markup text of the trailing path segments: one ` L x y` per point.
pub open spec fn path_more_chars(pts: Seq<Point>) -> Seq<char>
    decreases pts.len(),
{
    if pts.len() == 0 {
        Seq::<char>::empty()
    } else {
        " L "@ + int_chars(pts[0].x as int) + " "@ + int_chars(pts[0].y as int)
            + path_more_chars(pts.skip(1))
    }
}

/// Markup text of a wire path: `M x y` for the first point, ` L x y` after.
pub open spec fn path_chars(pts: Seq<Point>) -> Seq<char> {
    if pts.len() == 0 {
        Seq::<char>::empty()
    } else {
        "M "@ + int_chars(pts[0].x as int) + " "@ + int_chars(pts[0].y as int)
            + path_more_chars(pts.skip(1))
    }
}

/// Markup text of the rendering transform attribute value of a placed
/// element: the orientation matrix in SVG `matrix` entry order, then the
/// location as the translation column.
pub open spec fn transform_chars(o: Orientation, loc: Point) -> Seq<char> {
    let t = spec_compose(o);
    "matrix("@ + int_chars(t.a as int) + " "@ + int_chars(t.c as int) + " "@ + int_chars(
        t.b as int,
    ) + " "@ + int_chars(t.d as int) + " "@ + int_chars(loc.x as int) + " "@ + int_chars(
        loc.y as int,
    ) + ")"@
}

/// Markup line of one instance.
pub open spec fn enc_instance(i: InstanceV) -> Seq<char> {
    "<g class=\"instance\" data-name=\""@ + i.name + "\" data-of=\""@ + i.of + "\" data-x=\""@
        + int_chars(i.loc.x as int) + "\" data-y=\""@ + int_chars(i.loc.y as int)
        + "\" data-reflected=\""@ + bool_chars(i.orientation.reflected) + "\" data-rotation=\""@
        + rot_chars(i.orientation.rotation) + "\" transform=\""@ + transform_chars(
        i.orientation,
        i.loc,
    ) + "\"/>\n"@
}

/// Markup line of one wire.
pub open spec fn enc_wire(w: WireV) -> Seq<char> {
    "<path class=\"wire\" data-name=\""@ + w.name + "\" d=\""@ + path_chars(w.points) + "\"/>\n"@
}

/// Markup line of one port.
pub open spec fn enc_port(p: PortV) -> Seq<char> {
    "<g class=\"port\" data-name=\""@ + p.name + "\" data-x=\""@ + int_chars(p.loc.x as int)
        + "\" data-y=\""@ + int_chars(p.loc.y as int) + "\" data-reflected=\""@ + bool_chars(
        p.orientation.reflected,
    ) + "\" data-rotation=\""@ + rot_chars(p.orientation.rotation) + "\" transform=\""@
        + transform_chars(p.orientation, p.loc) + "\"/>\n"@
}

/// Markup line of one junction dot.
pub open spec fn enc_dot(d: Point) -> Seq<char> {
    "<circle class=\"dot\" cx=\""@ + int_chars(d.x as int) + "\" cy=\""@ + int_chars(d.y as int)
        + "\" r=\""@ + "2"@ + "\"/>\n"@
}

pub open spec fn enc_instances(is: Seq<InstanceV>) -> Seq<char>
    decreases is.len(),
{
    if is.len() == 0 {
        Seq::<char>::empty()
    } else {
        enc_instance(is[0]) + enc_instances(is.skip(1))
    }
}

pub open spec fn enc_wires(ws: Seq<WireV>) -> Seq<char>
    decreases ws.len(),
{
    if ws.len() == 0 {
        Seq::<char>::empty()
    } else {
        enc_wire(ws[0]) + enc_wires(ws.skip(1))
    }
}

pub open spec fn enc_ports(ps: Seq<PortV>) -> Seq<char>
    decreases ps.len(),
{
    if ps.len() == 0 {
        Seq::<char>::empty()
    } else {
        enc_port(ps[0]) + enc_ports(ps.skip(1))
    }
}

pub open spec fn enc_dots(ds: Seq<Point>) -> Seq<char>
    decreases ds.len(),
{
    if ds.len() == 0 {
        Seq::<char>::empty()
    } else {
        enc_dot(ds[0]) + enc_dots(ds.skip(1))
    }
}

/// The document header line: canvas size and schematic name.
pub open spec fn enc_header(name: Seq<char>, size: Point) -> Seq<char> {
    "<svg xmlns=\"http://www.w3.org/2000/svg\" width=\""@ + int_chars(size.x as int)
        + "\" height=\""@ + int_chars(size.y as int) + "\" data-name=\""@ + name + "\">\n"@
}

/// The exact markup text of a schematic: header, verbatim prelude inside the
/// metadata region, then instances, wires, ports and dots in stored order.
pub open spec fn spec_encode(s: SchematicV) -> Seq<char> {
    enc_header(s.name, s.size) + "<metadata>\n"@ + s.prelude + "\n</metadata>\n"@ + enc_instances(
        s.instances,
    ) + enc_wires(s.wires) + enc_ports(s.ports) + enc_dots(s.dots) + "</svg>\n"@
}

fn push_bool(out: &mut Vec<char>, b: bool)
    ensures
        final(out)@ == old(out)@ + bool_chars(b),
{
    if b {
        push_str_chars(out, "true");
    } else {
        push_str_chars(out, "false");
    }
}

fn push_rot(out: &mut Vec<char>, r: Rotation)
    ensures
        final(out)@ == old(out)@ + rot_chars(r),
{
    match r {
        Rotation::R0 => push_str_chars(out, "R0"),
        Rotation::R90 => push_str_chars(out, "R90"),
        Rotation::R180 => push_str_chars(out, "R180"),
        Rotation::R270 => push_str_chars(out, "R270"),
    }
}

fn push_transform(out: &mut Vec<char>, o: Orientation, loc: Point)
    ensures
        final(out)@ == old(out)@ + transform_chars(o, loc),
{
    let t = compose(o);
    push_str_chars(out, "matrix(");
    push_dec_i64(out, t.a);
    push_str_chars(out, " ");
    push_dec_i64(out, t.c);
    push_str_chars(out, " ");
    push_dec_i64(out, t.b);
    push_str_chars(out, " ");
    push_dec_i64(out, t.d);
    push_str_chars(out, " ");
    push_dec_i64(out, loc.x);
    push_str_chars(out, " ");
    push_dec_i64(out, loc.y);
    push_str_chars(out, ")");
    assert(final(out)@ =~= old(out)@ + transform_chars(o, loc));
}

fn push_instance(out: &mut Vec<char>, i: &Instance)
    ensures
        final(out)@ == old(out)@ + enc_instance(i@),
{
    push_str_chars(out, "<g class=\"instance\" data-name=\"");
    push_str_chars(out, i.name.as_str());
    push_str_chars(out, "\" data-of=\"");
    push_str_chars(out, i.of.as_str());
    push_str_chars(out, "\" data-x=\"");
    push_dec_i64(out, i.loc.x);
    push_str_chars(out, "\" data-y=\"");
    push_dec_i64(out, i.loc.y);
    push_str_chars(out, "\" data-reflected=\"");
    push_bool(out, i.orientation.reflected);
    push_str_chars(out, "\" data-rotation=\"");
    push_rot(out, i.orientation.rotation);
    push_str_chars(out, "\" transform=\"");
    push_transform(out, i.orientation, i.loc);
    push_str_chars(out, "\"/>\n");
    assert(final(out)@ =~= old(out)@ + enc_instance(i@));
}

fn push_wire(out: &mut Vec<char>, w: &Wire)
    ensures
        final(out)@ == old(out)@ + enc_wire(w@),
{
    push_str_chars(out, "<path class=\"wire\" data-name=\"");
    push_str_chars(out, w.name.as_str());
    push_str_chars(out, "\" d=\"");
    let ghost base = out@;
    if w.points.len() > 0 {
        push_str_chars(out, "M ");
        push_dec_i64(out, w.points[0].x);
        push_str_chars(out, " ");
        push_dec_i64(out, w.points[0].y);
        let mut k: usize = 1;
        while k < w.points.len()
            invariant
                1 <= k <= w.points@.len(),
                base + path_chars(w.points@) == out@ + path_more_chars(w.points@.skip(k as int)),
            decreases w.points@.len() - k,
        {
            let ghost pre = out@;
            push_str_chars(out, " L ");
            push_dec_i64(out, w.points[k].x);
            push_str_chars(out, " ");
            push_dec_i64(out, w.points[k].y);
            proof {
                let pts = w.points@;
                assert(pts.skip(k as int)[0] == pts[k as int]);
                assert(pts.skip(k as int).skip(1) =~= pts.skip(k as int + 1));
                assert(path_more_chars(pts.skip(k as int)) == " L "@ + int_chars(
                    pts[k as int].x as int,
                ) + " "@ + int_chars(pts[k as int].y as int) + path_more_chars(
                    pts.skip(k as int + 1),
                ));
                assert(base + path_chars(pts) =~= out@ + path_more_chars(pts.skip(k as int + 1)));
            }
            k += 1;
        }
        proof {
            assert(w.points@.skip(w.points@.len() as int) =~= Seq::<Point>::empty());
            assert(base + path_chars(w.points@) =~= out@);
        }
    } else {
        assert(path_chars(w.points@) =~= Seq::<char>::empty());
    }
    push_str_chars(out, "\"/>\n");
    assert(final(out)@ =~= old(out)@ + enc_wire(w@));
}

fn push_port(out: &mut Vec<char>, p: &Port)
    ensures
        final(out)@ == old(out)@ + enc_port(p@),
{
    push_str_chars(out, "<g class=\"port\" data-name=\"");
    push_str_chars(out, p.name.as_str());
    push_str_chars(out, "\" data-x=\"");
    push_dec_i64(out, p.loc.x);
    push_str_chars(out, "\" data-y=\"");
    push_dec_i64(out, p.loc.y);
    push_str_chars(out, "\" data-reflected=\"");
    push_bool(out, p.orientation.reflected);
    push_str_chars(out, "\" data-rotation=\"");
    push_rot(out, p.orientation.rotation);
    push_str_chars(out, "\" transform=\"");
    push_transform(out, p.orientation, p.loc);
    push_str_chars(out, "\"/>\n");
    assert(final(out)@ =~= old(out)@ + enc_port(p@));
}

fn push_dot(out: &mut Vec<char>, d: Point)
    ensures
        final(out)@ == old(out)@ + enc_dot(d),
{
    push_str_chars(out, "<circle class=\"dot\" cx=\"");
    push_dec_i64(out, d.x);
    push_str_chars(out, "\" cy=\"");
    push_dec_i64(out, d.y);
    push_str_chars(out, "\" r=\"");
    push_str_chars(out, "2");
    push_str_chars(out, "\"/>\n");
    assert(final(out)@ =~= old(out)@ + enc_dot(d));
}

/// Encode a schematic as SVG markup text.
///
/// Succeeds on every valid schematic, producing exactly [`spec_encode`] of
/// its value; fails exactly on invalid input, reporting every violated
/// invariant.
#[verifier::rlimit(50)]
pub fn sch_to_svg(sch: &Schematic) -> (r: Result<String, SvgError>)
    ensures
        match r {
            Ok(text) => spec_valid(sch@) && text@ == spec_encode(sch@),
            Err(e) => !spec_valid(sch@) && e@ == (SvgErrorV::ValidationFailed {
                violations: spec_violations(sch@),
            }),
        },
{
    let violations = validate(sch);
    if violations.len() > 0 {
        return Err(SvgError::ValidationFailed { violations });
    }
    let mut out: Vec<char> = Vec::new();
    push_str_chars(&mut out, "<svg xmlns=\"http://www.w3.org/2000/svg\" width=\"");
    push_dec_i64(&mut out, sch.size.x);
    push_str_chars(&mut out, "\" height=\"");
    push_dec_i64(&mut out, sch.size.y);
    push_str_chars(&mut out, "\" data-name=\"");
    push_str_chars(&mut out, sch.name.as_str());
    push_str_chars(&mut out, "\">\n");
    assert(out@ =~= enc_header(sch@.name, sch@.size));
    push_str_chars(&mut out, "<metadata>\n");
    push_str_chars(&mut out, sch.prelude.as_str());
    push_str_chars(&mut out, "\n</metadata>\n");
    let ghost base0 = out@;
    proof {
        assert(sch@.instances.skip(0) =~= sch@.instances);
    }
    let mut k: usize = 0;
    while k < sch.instances.len()
        invariant
            k <= sch.instances@.len(),
            base0 + enc_instances(sch@.instances) == out@ + enc_instances(
                sch@.instances.skip(k as int),
            ),
        decreases sch.instances@.len() - k,
    {
        push_instance(&mut out, &sch.instances[k]);
        proof {
            let is = sch@.instances;
            assert(is.skip(k as int)[0] == is[k as int]);
            assert(is[k as int] == sch.instances@[k as int]@);
            assert(is.skip(k as int).skip(1) =~= is.skip(k as int + 1));
            assert(base0 + enc_instances(is) =~= out@ + enc_instances(is.skip(k as int + 1)));
        }
        k += 1;
    }
    proof {
        assert(sch@.instances.skip(sch@.instances.len() as int) =~= Seq::<InstanceV>::empty());
        assert(out@ =~= base0 + enc_instances(sch@.instances));
    }
    let ghost base1 = out@;
    proof {
        assert(sch@.wires.skip(0) =~= sch@.wires);
    }
    let mut k: usize = 0;
    while k < sch.wires.len()
        invariant
            k <= sch.wires@.len(),
            base1 + enc_wires(sch@.wires) == out@ + enc_wires(sch@.wires.skip(k as int)),
        decreases sch.wires@.len() - k,
    {
        push_wire(&mut out, &sch.wires[k]);
        proof {
            let ws = sch@.wires;
            assert(ws.skip(k as int)[0] == ws[k as int]);
            assert(ws[k as int] == sch.wires@[k as int]@);
            assert(ws.skip(k as int).skip(1) =~= ws.skip(k as int + 1));
            assert(base1 + enc_wires(ws) =~= out@ + enc_wires(ws.skip(k as int + 1)));
        }
        k += 1;
    }
    proof {
        assert(sch@.wires.skip(sch@.wires.len() as int) =~= Seq::<WireV>::empty());
        assert(out@ =~= base1 + enc_wires(sch@.wires));
    }
    let ghost base2 = out@;
    proof {
        assert(sch@.ports.skip(0) =~= sch@.ports);
    }
    let mut k: usize = 0;
    while k < sch.ports.len()
        invariant
            k <= sch.ports@.len(),
            base2 + enc_ports(sch@.ports) == out@ + enc_ports(sch@.ports.skip(k as int)),
        decreases sch.ports@.len() - k,
    {
        push_port(&mut out, &sch.ports[k]);
        proof {
            let ps = sch@.ports;
            assert(ps.skip(k as int)[0] == ps[k as int]);
            assert(ps[k as int] == sch.ports@[k as int]@);
            assert(ps.skip(k as int).skip(1) =~= ps.skip(k as int + 1));
            assert(base2 + enc_ports(ps) =~= out@ + enc_ports(ps.skip(k as int + 1)));
        }
        k += 1;
    }
    proof {
        assert(sch@.ports.skip(sch@.ports.len() as int) =~= Seq::<PortV>::empty());
        assert(out@ =~= base2 + enc_ports(sch@.ports));
    }
    let ghost base3 = out@;
    proof {
        assert(sch@.dots.skip(0) =~= sch@.dots);
    }
    let mut k: usize = 0;
    while k < sch.dots.len()
        invariant
            k <= sch.dots@.len(),
            base3 + enc_dots(sch@.dots) == out@ + enc_dots(sch@.dots.skip(k as int)),
        decreases sch.dots@.len() - k,
    {
        push_dot(&mut out, sch.dots[k]);
        proof {
            let ds = sch@.dots;
            assert(ds.skip(k as int)[0] == ds[k as int]);
            assert(ds.skip(k as int).skip(1) =~= ds.skip(k as int + 1));
            assert(base3 + enc_dots(ds) =~= out@ + enc_dots(ds.skip(k as int + 1)));
        }
        k += 1;
    }
    proof {
        assert(sch@.dots.skip(sch@.dots.len() as int) =~= Seq::<Point>::empty());
        assert(out@ =~= base3 + enc_dots(sch@.dots));
    }

    push_str_chars(&mut out, "</svg>\n");
    assert(out@ =~= spec_encode(sch@));
    Ok(chars_to_string(&out))
}

} // verus!
