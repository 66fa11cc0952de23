//! The decoder: parses SVG-like markup text back into a validated
//! [`Schematic`].
//!
//! Decoding runs in phases: structural parsing (header, metadata region,
//! one element per line, footer), element classification and field
//! extraction, then whole-schematic validation.  Any defect fails the whole
//! call — no partial value is ever returned.  Explicit typed orientation
//! attributes take precedence; only when they are absent is the orientation
//! inferred by inverting the rendering transform.  Unrecognized elements are
//! kept verbatim in the prelude, or rejected in strict mode.

use crate::error::{SvgError, SvgErrorV};
use crate::geometry::{invert, spec_invert, Transform};
use crate::point::Point;
use crate::schematic::{
    Instance, InstanceV, Orientation, Port, PortV, Rotation, Schematic, SchematicV, Wire, WireV,
};
use crate::text::{
    chars_eq_lit, chars_to_string, copy_range, find_line_end, in_i64, join_lines, match_lit,
    read_int, read_quoted, sp_int, sp_line, sp_lit, sp_quoted, str_to_chars, IntParse,
};
use crate::text::{lemma_sp_int_len, lemma_sp_line_len, lemma_join_lines_snoc};
use crate::validate::{spec_valid, spec_violations, validate, lemma_valid_iff_no_violations};
use vstd::prelude::*;

verus! {

/// Shorthand for an `InvalidField` error value.
pub open spec fn inval(element: Seq<char>, field: Seq<char>, reason: Seq<char>) -> SvgErrorV {
    SvgErrorV::InvalidField { element, field, reason }
}

/// Parse a decimal number that must fit in an `i64`; on failure, the reason.
pub open spec fn sp_num(s: Seq<char>) -> Result<(int, Seq<char>), Seq<char>> {
    match sp_int(s) {
        None => Err("not a number"@),
        Some(nr) => if in_i64(nr.0) {
            Ok(nr)
        } else {
            Err("out of range"@)
        },
    }
}

/// The boolean of an attribute value, if it is one.
pub open spec fn sp_bool_val(v: Seq<char>) -> Option<bool> {
    if v == "true"@ {
        Some(true)
    } else if v == "false"@ {
        Some(false)
    } else {
        None
    }
}

/// The rotation of an attribute value, if it is one of the four enumerated
/// cases; anything else is a decode error, never silently normalized.
pub open spec fn sp_rot_val(v: Seq<char>) -> Option<Rotation> {
    if v == "R0"@ {
        Some(Rotation::R0)
    } else if v == "R90"@ {
        Some(Rotation::R90)
    } else if v == "R180"@ {
        Some(Rotation::R180)
    } else if v == "R270"@ {
        Some(Rotation::R270)
    } else {
        None
    }
}

/// Zero or more ` L x y` path segments, to the end of the value.
pub open spec fn sp_path_more(s: Seq<char>) -> Option<Seq<Point>>
    decreases s.len(),
    via sp_path_more_dec
{
    if s.len() == 0 {
        Some(Seq::<Point>::empty())
    } else {
        match sp_lit(s, " L "@) {
            None => None,
            Some(s1) => match sp_num(s1) {
                Err(_) => None,
                Ok(xr) => match sp_lit(xr.1, " "@) {
                    None => None,
                    Some(s2) => match sp_num(s2) {
                        Err(_) => None,
                        Ok(yr) => match sp_path_more(yr.1) {
                            None => None,
                            Some(pts) => Some(
                                seq![Point { x: xr.0 as i64, y: yr.0 as i64 }] + pts,
                            ),
                        },
                    },
                },
            },
        }
    }
}

#[via_fn]
proof fn sp_path_more_dec(s: Seq<char>) {
    reveal_strlit(" L ");
    reveal_strlit(" ");
    if s.len() != 0 {
        match sp_lit(s, " L "@) {
            None => {},
            Some(s1) => {
                lemma_sp_int_len(s1);
                match sp_num(s1) {
                    Err(_) => {},
                    Ok(xr) => {
                        match sp_lit(xr.1, " "@) {
                            None => {},
                            Some(s2) => {
                                lemma_sp_int_len(s2);
                            },
                        }
                    },
                }
            },
        }
    }
}

/// A whole wire path value: `M x y` then ` L x y` segments; an empty value
/// is an empty point list.
pub open spec fn sp_path(s: Seq<char>) -> Option<Seq<Point>> {
    if s.len() == 0 {
        Some(Seq::<Point>::empty())
    } else {
        match sp_lit(s, "M "@) {
            None => None,
            Some(s1) => match sp_num(s1) {
                Err(_) => None,
                Ok(xr) => match sp_lit(xr.1, " "@) {
                    None => None,
                    Some(s2) => match sp_num(s2) {
                        Err(_) => None,
                        Ok(yr) => match sp_path_more(yr.1) {
                            None => None,
                            Some(pts) => Some(
                                seq![Point { x: xr.0 as i64, y: yr.0 as i64 }] + pts,
                            ),
                        },
                    },
                },
            },
        }
    }
}

/// Parse the orientation part of a placed element's line, through to the
/// line's end.  Explicit `data-reflected`/`data-rotation` attributes take
/// precedence; without them the orientation is recovered by inverting the
/// rendering transform matrix.
pub open spec fn sp_orient(s: Seq<char>, elem: Seq<char>) -> Result<Orientation, SvgErrorV> {
    match sp_lit(s, "\" data-reflected=\""@) {
        Some(s1) => match sp_quoted(s1) {
            None => Err(inval(elem, "data-reflected"@, "missing"@)),
            Some(br) => match sp_bool_val(br.0) {
                None => Err(inval(elem, "data-reflected"@, "unknown value"@)),
                Some(refl) => match sp_lit(br.1, " data-rotation=\""@) {
                    None => Err(inval(elem, "data-rotation"@, "missing"@)),
                    Some(s2) => match sp_quoted(s2) {
                        None => Err(inval(elem, "data-rotation"@, "missing"@)),
                        Some(rr) => match sp_rot_val(rr.0) {
                            None => Err(inval(elem, "data-rotation"@, "unknown value"@)),
                            Some(rot) => match sp_lit(rr.1, " transform=\""@) {
                                None => Err(inval(elem, "transform"@, "missing"@)),
                                Some(s3) => match sp_quoted(s3) {
                                    None => Err(inval(elem, "transform"@, "missing"@)),
                                    Some(tr) => match sp_lit(tr.1, "/>"@) {
                                        Some(s4) => if s4.len() == 0 {
                                            Ok(Orientation { reflected: refl, rotation: rot })
                                        } else {
                                            Err(SvgErrorV::MalformedDocument)
                                        },
                                        None => Err(SvgErrorV::MalformedDocument),
                                    },
                                },
                            },
                        },
                    },
                },
            },
        },
        None => match sp_lit(s, "\" transform=\"matrix("@) {
            None => Err(inval(elem, "data-reflected"@, "missing"@)),
            Some(s1) => sp_orient_matrix(s1, elem),
        },
    }
}

/// Parse the six `matrix` entries and invert the linear part into an
/// orientation.
pub open spec fn sp_orient_matrix(s: Seq<char>, elem: Seq<char>) -> Result<
    Orientation,
    SvgErrorV,
> {
    let bad = inval(elem, "transform"@, "not an orientation"@);
    match sp_num(s) {
        Err(_) => Err(bad),
        Ok(ar) => match sp_lit(ar.1, " "@) {
            None => Err(bad),
            Some(s1) => match sp_num(s1) {
                Err(_) => Err(bad),
                Ok(cr) => match sp_lit(cr.1, " "@) {
                    None => Err(bad),
                    Some(s2) => match sp_num(s2) {
                        Err(_) => Err(bad),
                        Ok(br) => match sp_lit(br.1, " "@) {
                            None => Err(bad),
                            Some(s3) => match sp_num(s3) {
                                Err(_) => Err(bad),
                                Ok(dr) => match sp_lit(dr.1, " "@) {
                                    None => Err(bad),
                                    Some(s4) => match sp_num(s4) {
                                        Err(_) => Err(bad),
                                        Ok(er) => match sp_lit(er.1, " "@) {
                                            None => Err(bad),
                                            Some(s5) => match sp_num(s5) {
                                                Err(_) => Err(bad),
                                                Ok(fr) => match sp_lit(fr.1, ")\"/>"@) {
                                                    None => Err(SvgErrorV::MalformedDocument),
                                                    Some(s6) => if s6.len() != 0 {
                                                        Err(SvgErrorV::MalformedDocument)
                                                    } else {
                                                        match spec_invert(
                                                            Transform {
                                                                a: ar.0 as i64,
                                                                b: br.0 as i64,
                                                                c: cr.0 as i64,
                                                                d: dr.0 as i64,
                                                            },
                                                        ) {
                                                            Some(o) => Ok(o),
                                                            None => Err(bad),
                                                        }
                                                    },
                                                },
                                            },
                                        },
                                    },
                                },
                            },
                        },
                    },
                },
            },
        },
    }
}

/// One classified element of the document.
pub enum ElemV {
    Inst(InstanceV),
    WireEl(WireV),
    PortEl(PortV),
    DotEl(Point),
    /// An unrecognized element: its tag name and its whole line.
    Other(Seq<char>, Seq<char>),
}

/// The elements of a document, classified and in order, plus the verbatim
/// lines of unrecognized elements.
#[verifier::ext_equal]
pub struct ElemsV {
    pub instances: Seq<InstanceV>,
    pub wires: Seq<WireV>,
    pub ports: Seq<PortV>,
    pub dots: Seq<Point>,
    pub extra: Seq<Seq<char>>,
}

pub open spec fn elems_empty() -> ElemsV {
    ElemsV {
        instances: Seq::<InstanceV>::empty(),
        wires: Seq::<WireV>::empty(),
        ports: Seq::<PortV>::empty(),
        dots: Seq::<Point>::empty(),
        extra: Seq::<Seq<char>>::empty(),
    }
}

pub open spec fn elems_cons(el: ElemV, es: ElemsV) -> ElemsV {
    match el {
        ElemV::Inst(i) => ElemsV { instances: seq![i] + es.instances, ..es },
        ElemV::WireEl(w) => ElemsV { wires: seq![w] + es.wires, ..es },
        ElemV::PortEl(p) => ElemsV { ports: seq![p] + es.ports, ..es },
        ElemV::DotEl(d) => ElemsV { dots: seq![d] + es.dots, ..es },
        ElemV::Other(_, line) => ElemsV { extra: seq![line] + es.extra, ..es },
    }
}

/// An instance line after its classifying prefix.
pub open spec fn sp_instance(s: Seq<char>) -> Result<ElemV, SvgErrorV> {
    match sp_quoted(s) {
        None => Err(inval("instance"@, "data-name"@, "missing"@)),
        Some(nr) => match sp_lit(nr.1, " data-of=\""@) {
            None => Err(inval("instance"@, "data-of"@, "missing"@)),
            Some(s1) => match sp_quoted(s1) {
                None => Err(inval("instance"@, "data-of"@, "missing"@)),
                Some(or) => match sp_lit(or.1, " data-x=\""@) {
                    None => Err(inval("instance"@, "data-x"@, "missing"@)),
                    Some(s2) => match sp_num(s2) {
                        Err(r) => Err(inval("instance"@, "data-x"@, r)),
                        Ok(xr) => match sp_lit(xr.1, "\" data-y=\""@) {
                            None => Err(inval("instance"@, "data-y"@, "missing"@)),
                            Some(s3) => match sp_num(s3) {
                                Err(r) => Err(inval("instance"@, "data-y"@, r)),
                                Ok(yr) => match sp_orient(yr.1, "instance"@) {
                                    Err(e) => Err(e),
                                    Ok(o) => Ok(
                                        ElemV::Inst(
                                            InstanceV {
                                                name: nr.0,
                                                of: or.0,
                                                loc: Point { x: xr.0 as i64, y: yr.0 as i64 },
                                                orientation: o,
                                            },
                                        ),
                                    ),
                                },
                            },
                        },
                    },
                },
            },
        },
    }
}

/// A port line after its classifying prefix.
pub open spec fn sp_port(s: Seq<char>) -> Result<ElemV, SvgErrorV> {
    match sp_quoted(s) {
        None => Err(inval("port"@, "data-name"@, "missing"@)),
        Some(nr) => match sp_lit(nr.1, " data-x=\""@) {
            None => Err(inval("port"@, "data-x"@, "missing"@)),
            Some(s2) => match sp_num(s2) {
                Err(r) => Err(inval("port"@, "data-x"@, r)),
                Ok(xr) => match sp_lit(xr.1, "\" data-y=\""@) {
                    None => Err(inval("port"@, "data-y"@, "missing"@)),
                    Some(s3) => match sp_num(s3) {
                        Err(r) => Err(inval("port"@, "data-y"@, r)),
                        Ok(yr) => match sp_orient(yr.1, "port"@) {
                            Err(e) => Err(e),
                            Ok(o) => Ok(
                                ElemV::PortEl(
                                    PortV {
                                        name: nr.0,
                                        loc: Point { x: xr.0 as i64, y: yr.0 as i64 },
                                        orientation: o,
                                    },
                                ),
                            ),
                        },
                    },
                },
            },
        },
    }
}

/// A wire line after its classifying prefix.
pub open spec fn sp_wire(s: Seq<char>) -> Result<ElemV, SvgErrorV> {
    match sp_quoted(s) {
        None => Err(inval("wire"@, "data-name"@, "missing"@)),
        Some(nr) => match sp_lit(nr.1, " d=\""@) {
            None => Err(inval("wire"@, "d"@, "missing"@)),
            Some(s1) => match sp_quoted(s1) {
                None => Err(inval("wire"@, "d"@, "missing"@)),
                Some(dr) => match sp_lit(dr.1, "/>"@) {
                    None => Err(SvgErrorV::MalformedDocument),
                    Some(s2) => if s2.len() != 0 {
                        Err(SvgErrorV::MalformedDocument)
                    } else {
                        match sp_path(dr.0) {
                            None => Err(inval("wire"@, "d"@, "not a path"@)),
                            Some(pts) => Ok(ElemV::WireEl(WireV { name: nr.0, points: pts })),
                        }
                    },
                },
            },
        },
    }
}

/// A dot line after its classifying prefix.
pub open spec fn sp_dot(s: Seq<char>) -> Result<ElemV, SvgErrorV> {
    match sp_num(s) {
        Err(r) => Err(inval("dot"@, "cx"@, r)),
        Ok(xr) => match sp_lit(xr.1, "\" cy=\""@) {
            None => Err(inval("dot"@, "cy"@, "missing"@)),
            Some(s1) => match sp_num(s1) {
                Err(r) => Err(inval("dot"@, "cy"@, r)),
                Ok(yr) => match sp_lit(yr.1, "\" r=\""@) {
                    None => Err(inval("dot"@, "r"@, "missing"@)),
                    Some(s2) => match sp_quoted(s2) {
                        None => Err(inval("dot"@, "r"@, "missing"@)),
                        Some(rr) => match sp_lit(rr.1, "/>"@) {
                            None => Err(SvgErrorV::MalformedDocument),
                            Some(s3) => if s3.len() != 0 {
                                Err(SvgErrorV::MalformedDocument)
                            } else {
                                Ok(ElemV::DotEl(Point { x: xr.0 as i64, y: yr.0 as i64 }))
                            },
                        },
                    },
                },
            },
        },
    }
}

/// A character a tag name may hold.
pub open spec fn name_char(c: char) -> bool {
    c != ' ' && c != '/' && c != '>' && c != '<' && c != '"' && c != '\n'
}

/// The longest tag-name prefix of `s`, and the rest.
pub open spec fn sp_name(s: Seq<char>) -> (Seq<char>, Seq<char>)
    decreases s.len(),
{
    if s.len() > 0 && name_char(s[0]) {
        let nr = sp_name(s.skip(1));
        (seq![s[0]] + nr.0, nr.1)
    } else {
        (Seq::<char>::empty(), s)
    }
}

/// Classify one element line and extract its fields.
pub open spec fn sp_element(line: Seq<char>) -> Result<ElemV, SvgErrorV> {
    match sp_lit(line, "<g class=\"instance\" data-name=\""@) {
        Some(s) => sp_instance(s),
        None => match sp_lit(line, "<path class=\"wire\" data-name=\""@) {
            Some(s) => sp_wire(s),
            None => match sp_lit(line, "<g class=\"port\" data-name=\""@) {
                Some(s) => sp_port(s),
                None => match sp_lit(line, "<circle class=\"dot\" cx=\""@) {
                    Some(s) => sp_dot(s),
                    None => {
                        // Unrecognized: still require the shape of a
                        // self-closing element, else the document is
                        // malformed.
                        if line.len() >= 3 && line[0] == '<' && sp_name(line.skip(1)).0.len() > 0
                            && line.skip(line.len() - 2) == "/>"@ {
                            Ok(ElemV::Other(sp_name(line.skip(1)).0, line))
                        } else {
                            Err(SvgErrorV::MalformedDocument)
                        }
                    },
                },
            },
        },
    }
}

/// The element section: one element per line, ended by the footer line,
/// which must end the document.
pub open spec fn sp_elements(s: Seq<char>, strict: bool) -> Result<ElemsV, SvgErrorV>
    decreases s.len(),
    via sp_elements_dec
{
    match sp_line(s) {
        None => Err(SvgErrorV::MalformedDocument),
        Some(lr) => if lr.0 == "</svg>"@ {
            if lr.1.len() == 0 {
                Ok(elems_empty())
            } else {
                Err(SvgErrorV::MalformedDocument)
            }
        } else {
            match sp_element(lr.0) {
                Err(e) => Err(e),
                Ok(el) => if strict && el is Other {
                    Err(SvgErrorV::UnrecognizedElement { element: el->Other_0 })
                } else {
                    match sp_elements(lr.1, strict) {
                        Err(e) => Err(e),
                        Ok(es) => Ok(elems_cons(el, es)),
                    }
                },
            }
        },
    }
}

#[via_fn]
proof fn sp_elements_dec(s: Seq<char>, strict: bool) {
    lemma_sp_line_len(s);
}

/// The metadata region: its lines, up to the line that closes it.
pub open spec fn sp_prelude(s: Seq<char>) -> Option<(Seq<Seq<char>>, Seq<char>)>
    decreases s.len(),
    via sp_prelude_dec
{
    match sp_line(s) {
        None => None,
        Some(lr) => if lr.0 == "</metadata>"@ {
            Some((Seq::<Seq<char>>::empty(), lr.1))
        } else {
            match sp_prelude(lr.1) {
                None => None,
                Some(pr) => Some((seq![lr.0] + pr.0, pr.1)),
            }
        },
    }
}

#[via_fn]
proof fn sp_prelude_dec(s: Seq<char>) {
    lemma_sp_line_len(s);
}

/// Assemble the decoded parts into a schematic and validate it: the last
/// decode phase.
pub open spec fn sp_assemble(
    name: Seq<char>,
    w: int,
    h: int,
    lines: Seq<Seq<char>>,
    es: ElemsV,
) -> Result<SchematicV, SvgErrorV> {
    let sch = SchematicV {
        name,
        prelude: join_lines(lines + es.extra),
        size: Point { x: w as i64, y: h as i64 },
        instances: es.instances,
        wires: es.wires,
        ports: es.ports,
        dots: es.dots,
    };
    if spec_violations(sch).len() == 0 {
        Ok(sch)
    } else {
        Err(SvgErrorV::ValidationFailed { violations: spec_violations(sch) })
    }
}

/// The decode phases after the header and metadata region: elements, then
/// assembly and validation.
pub open spec fn sp_doc_tail(
    name: Seq<char>,
    w: int,
    h: int,
    plines: Seq<Seq<char>>,
    rest: Seq<char>,
    strict: bool,
) -> Result<SchematicV, SvgErrorV> {
    match sp_elements(rest, strict) {
        Err(e) => Err(e),
        Ok(es) => sp_assemble(name, w, h, plines, es),
    }
}

/// The whole decode, as a function of the input text: structural parse,
/// classification and field extraction, assembly, validation.
pub open spec fn sp_doc(s: Seq<char>, strict: bool) -> Result<SchematicV, SvgErrorV> {
    match sp_lit(s, "<svg xmlns=\"http://www.w3.org/2000/svg\" width=\""@) {
        None => Err(SvgErrorV::MalformedDocument),
        Some(s1) => match sp_num(s1) {
            Err(r) => Err(inval("svg"@, "width"@, r)),
            Ok(wr) => match sp_lit(wr.1, "\" height=\""@) {
                None => Err(inval("svg"@, "height"@, "missing"@)),
                Some(s2) => match sp_num(s2) {
                    Err(r) => Err(inval("svg"@, "height"@, r)),
                    Ok(hr) => match sp_lit(hr.1, "\" data-name=\""@) {
                        None => Err(inval("svg"@, "data-name"@, "missing"@)),
                        Some(s3) => match sp_quoted(s3) {
                            None => Err(inval("svg"@, "data-name"@, "missing"@)),
                            Some(nr) => match sp_lit(nr.1, ">\n<metadata>\n"@) {
                                None => Err(SvgErrorV::MalformedDocument),
                                Some(s4) => match sp_prelude(s4) {
                                    None => Err(SvgErrorV::MalformedDocument),
                                    Some(pr) => sp_doc_tail(nr.0, wr.0, hr.0, pr.0, pr.1, strict),
                                },
                            },
                        },
                    },
                },
            },
        },
    }
}

// ---------------------------------------------------------------------------
// Executable decoder
// ---------------------------------------------------------------------------
/// One classified element, as executable data.
pub enum Elem {
    Inst(Instance),
    WireEl(Wire),
    PortEl(Port),
    DotEl(Point),
    /// An unrecognized element: its tag name and its whole line.
    Other(String, Vec<char>),
}

impl View for Elem {
    type V = ElemV;

    open spec fn view(&self) -> ElemV {
        match self {
            Elem::Inst(i) => ElemV::Inst(i@),
            Elem::WireEl(w) => ElemV::WireEl(w@),
            Elem::PortEl(p) => ElemV::PortEl(p@),
            Elem::DotEl(d) => ElemV::DotEl(*d),
            Elem::Other(n, l) => ElemV::Other(n@, l@),
        }
    }
}

fn err_field(elem: &str, field: &str, reason: &str) -> (e: SvgError)
    ensures
        e@ == inval(elem@, field@, reason@),
{
    SvgError::InvalidField {
        element: String::from_str(elem),
        field: String::from_str(field),
        reason: String::from_str(reason),
    }
}

/// Read an `i64` field value, mapping failures to their reasons as
/// [`sp_num`] does.
fn read_num(s: &Vec<char>, i: usize) -> (r: Result<(i64, usize), &'static str>)
    requires
        i <= s@.len(),
    ensures
        match r {
            Ok(vj) => {
                &&& i <= vj.1 <= s@.len()
                &&& sp_num(s@.skip(i as int)) == Ok::<(int, Seq<char>), Seq<char>>(
                    (vj.0 as int, s@.skip(vj.1 as int)),
                )
            },
            Err(reason) => sp_num(s@.skip(i as int)) == Err::<(int, Seq<char>), Seq<char>>(
                reason@,
            ),
        },
{
    match read_int(s, i) {
        IntParse::Value(v, j) => Ok((v, j)),
        IntParse::OutOfRange => Err("out of range"),
        IntParse::NoDigits => Err("not a number"),
    }
}

/// Parse the orientation section of a placed element's line.
fn parse_orient(line: &Vec<char>, i: usize, elem: &str) -> (r: Result<Orientation, SvgError>)
    requires
        i <= line@.len(),
    ensures
        match r {
            Ok(o) => sp_orient(line@.skip(i as int), elem@) == Ok::<Orientation, SvgErrorV>(o),
            Err(e) => sp_orient(line@.skip(i as int), elem@) == Err::<Orientation, SvgErrorV>(e@),
        },
{
    match match_lit(line, i, "\" data-reflected=\"") {
        Some(j) => {
            let Some((bv, j1)) = read_quoted(line, j) else {
                return Err(err_field(elem, "data-reflected", "missing"));
            };
            let refl = if chars_eq_lit(&bv, "true") {
                true
            } else if chars_eq_lit(&bv, "false") {
                false
            } else {
                return Err(err_field(elem, "data-reflected", "unknown value"));
            };
            let Some(j2) = match_lit(line, j1, " data-rotation=\"") else {
                return Err(err_field(elem, "data-rotation", "missing"));
            };
            let Some((rv, j3)) = read_quoted(line, j2) else {
                return Err(err_field(elem, "data-rotation", "missing"));
            };
            let rot = if chars_eq_lit(&rv, "R0") {
                Rotation::R0
            } else if chars_eq_lit(&rv, "R90") {
                Rotation::R90
            } else if chars_eq_lit(&rv, "R180") {
                Rotation::R180
            } else if chars_eq_lit(&rv, "R270") {
                Rotation::R270
            } else {
                return Err(err_field(elem, "data-rotation", "unknown value"));
            };
            let Some(j4) = match_lit(line, j3, " transform=\"") else {
                return Err(err_field(elem, "transform", "missing"));
            };
            let Some((_tv, j5)) = read_quoted(line, j4) else {
                return Err(err_field(elem, "transform", "missing"));
            };
            let Some(j6) = match_lit(line, j5, "/>") else {
                return Err(SvgError::MalformedDocument);
            };
            if j6 != line.len() {
                return Err(SvgError::MalformedDocument);
            }
            Ok(Orientation { reflected: refl, rotation: rot })
        },
        None => {
            let Some(j) = match_lit(line, i, "\" transform=\"matrix(") else {
                return Err(err_field(elem, "data-reflected", "missing"));
            };
            let Ok((va, j1)) = read_num(line, j) else {
                return Err(err_field(elem, "transform", "not an orientation"));
            };
            let Some(j2) = match_lit(line, j1, " ") else {
                return Err(err_field(elem, "transform", "not an orientation"));
            };
            let Ok((vc, j3)) = read_num(line, j2) else {
                return Err(err_field(elem, "transform", "not an orientation"));
            };
            let Some(j4) = match_lit(line, j3, " ") else {
                return Err(err_field(elem, "transform", "not an orientation"));
            };
            let Ok((vb, j5)) = read_num(line, j4) else {
                return Err(err_field(elem, "transform", "not an orientation"));
            };
            let Some(j6) = match_lit(line, j5, " ") else {
                return Err(err_field(elem, "transform", "not an orientation"));
            };
            let Ok((vd, j7)) = read_num(line, j6) else {
                return Err(err_field(elem, "transform", "not an orientation"));
            };
            let Some(j8) = match_lit(line, j7, " ") else {
                return Err(err_field(elem, "transform", "not an orientation"));
            };
            let Ok((_ve, j9)) = read_num(line, j8) else {
                return Err(err_field(elem, "transform", "not an orientation"));
            };
            let Some(j10) = match_lit(line, j9, " ") else {
                return Err(err_field(elem, "transform", "not an orientation"));
            };
            let Ok((_vf, j11)) = read_num(line, j10) else {
                return Err(err_field(elem, "transform", "not an orientation"));
            };
            let Some(j12) = match_lit(line, j11, ")\"/>") else {
                return Err(SvgError::MalformedDocument);
            };
            if j12 != line.len() {
                return Err(SvgError::MalformedDocument);
            }
            match invert(Transform { a: va, b: vb, c: vc, d: vd }) {
                Some(o) => Ok(o),
                None => Err(err_field(elem, "transform", "not an orientation")),
            }
        },
    }
}

/// Parse an instance line after its classifying prefix.
fn parse_instance(line: &Vec<char>, i: usize) -> (r: Result<Elem, SvgError>)
    requires
        i <= line@.len(),
    ensures
        match r {
            Ok(el) => sp_instance(line@.skip(i as int)) == Ok::<ElemV, SvgErrorV>(el@),
            Err(e) => sp_instance(line@.skip(i as int)) == Err::<ElemV, SvgErrorV>(e@),
        },
{
    let Some((nv, j)) = read_quoted(line, i) else {
        return Err(err_field("instance", "data-name", "missing"));
    };
    let Some(j1) = match_lit(line, j, " data-of=\"") else {
        return Err(err_field("instance", "data-of", "missing"));
    };
    let Some((ov, j2)) = read_quoted(line, j1) else {
        return Err(err_field("instance", "data-of", "missing"));
    };
    let Some(j3) = match_lit(line, j2, " data-x=\"") else {
        return Err(err_field("instance", "data-x", "missing"));
    };
    let (x, j4) = match read_num(line, j3) {
        Ok(vj) => vj,
        Err(reason) => {
            return Err(err_field("instance", "data-x", reason));
        },
    };
    let Some(j5) = match_lit(line, j4, "\" data-y=\"") else {
        return Err(err_field("instance", "data-y", "missing"));
    };
    let (y, j6) = match read_num(line, j5) {
        Ok(vj) => vj,
        Err(reason) => {
            return Err(err_field("instance", "data-y", reason));
        },
    };
    let o = match parse_orient(line, j6, "instance") {
        Ok(o) => o,
        Err(e) => {
            return Err(e);
        },
    };
    Ok(
        Elem::Inst(
            Instance {
                name: chars_to_string(&nv),
                of: chars_to_string(&ov),
                loc: Point { x, y },
                orientation: o,
            },
        ),
    )
}

/// Parse a port line after its classifying prefix.
fn parse_port(line: &Vec<char>, i: usize) -> (r: Result<Elem, SvgError>)
    requires
        i <= line@.len(),
    ensures
        match r {
            Ok(el) => sp_port(line@.skip(i as int)) == Ok::<ElemV, SvgErrorV>(el@),
            Err(e) => sp_port(line@.skip(i as int)) == Err::<ElemV, SvgErrorV>(e@),
        },
{
    let Some((nv, j)) = read_quoted(line, i) else {
        return Err(err_field("port", "data-name", "missing"));
    };
    let Some(j1) = match_lit(line, j, " data-x=\"") else {
        return Err(err_field("port", "data-x", "missing"));
    };
    let (x, j2) = match read_num(line, j1) {
        Ok(vj) => vj,
        Err(reason) => {
            return Err(err_field("port", "data-x", reason));
        },
    };
    let Some(j3) = match_lit(line, j2, "\" data-y=\"") else {
        return Err(err_field("port", "data-y", "missing"));
    };
    let (y, j4) = match read_num(line, j3) {
        Ok(vj) => vj,
        Err(reason) => {
            return Err(err_field("port", "data-y", reason));
        },
    };
    let o = match parse_orient(line, j4, "port") {
        Ok(o) => o,
        Err(e) => {
            return Err(e);
        },
    };
    Ok(
        Elem::PortEl(
            Port { name: chars_to_string(&nv), loc: Point { x, y }, orientation: o },
        ),
    )
}

/// Parse a wire path attribute value into its points.
fn parse_path(d: &Vec<char>) -> (r: Option<Vec<Point>>)
    ensures
        match r {
            Some(pts) => sp_path(d@) == Some(pts@),
            None => sp_path(d@) is None,
        },
{
    let len = d.len();
    if len == 0 {
        let pts: Vec<Point> = Vec::new();
        assert(pts@ =~= Seq::<Point>::empty());
        return Some(pts);
    }
    proof {
        assert(d@.skip(0) =~= d@);
    }
    let Some(j) = match_lit(d, 0, "M ") else {
        return None;
    };
    let Ok((x0, j1)) = read_num(d, j) else {
        return None;
    };
    let Some(j2) = match_lit(d, j1, " ") else {
        return None;
    };
    let Ok((y0, j3)) = read_num(d, j2) else {
        return None;
    };
    let mut pts: Vec<Point> = Vec::new();
    pts.push(Point { x: x0, y: y0 });
    let mut pos = j3;
    proof {
        assert(pts@ =~= seq![Point { x: x0, y: y0 }]);
    }
    while pos < len
        invariant
            pos <= len,
            len == d@.len(),
            match sp_path_more(d@.skip(pos as int)) {
                Some(more) => sp_path(d@) == Some(pts@ + more),
                None => sp_path(d@) is None,
            },
        decreases len - pos,
    {
        proof {
            reveal_strlit(" L ");
        }
        let Some(k) = match_lit(d, pos, " L ") else {
            return None;
        };
        let Ok((x, k1)) = read_num(d, k) else {
            return None;
        };
        let Some(k2) = match_lit(d, k1, " ") else {
            return None;
        };
        let Ok((y, k3)) = read_num(d, k2) else {
            return None;
        };
        pts.push(Point { x, y });
        proof {
            assert(pts@.drop_last() + (seq![Point { x, y }] + sp_path_more(
                d@.skip(k3 as int),
            )->Some_0) =~= pts@ + sp_path_more(d@.skip(k3 as int))->Some_0);
        }
        pos = k3;
    }
    proof {
        assert(d@.skip(pos as int) =~= Seq::<char>::empty());
        assert(pts@ + Seq::<Point>::empty() =~= pts@);
    }
    Some(pts)
}

/// Parse a wire line after its classifying prefix.
fn parse_wire(line: &Vec<char>, i: usize) -> (r: Result<Elem, SvgError>)
    requires
        i <= line@.len(),
    ensures
        match r {
            Ok(el) => sp_wire(line@.skip(i as int)) == Ok::<ElemV, SvgErrorV>(el@),
            Err(e) => sp_wire(line@.skip(i as int)) == Err::<ElemV, SvgErrorV>(e@),
        },
{
    let Some((nv, j)) = read_quoted(line, i) else {
        return Err(err_field("wire", "data-name", "missing"));
    };
    let Some(j1) = match_lit(line, j, " d=\"") else {
        return Err(err_field("wire", "d", "missing"));
    };
    let Some((dv, j2)) = read_quoted(line, j1) else {
        return Err(err_field("wire", "d", "missing"));
    };
    let Some(j3) = match_lit(line, j2, "/>") else {
        return Err(SvgError::MalformedDocument);
    };
    if j3 != line.len() {
        return Err(SvgError::MalformedDocument);
    }
    match parse_path(&dv) {
        None => Err(err_field("wire", "d", "not a path")),
        Some(pts) => Ok(Elem::WireEl(Wire { name: chars_to_string(&nv), points: pts })),
    }
}

/// Parse a dot line after its classifying prefix.
fn parse_dot(line: &Vec<char>, i: usize) -> (r: Result<Elem, SvgError>)
    requires
        i <= line@.len(),
    ensures
        match r {
            Ok(el) => sp_dot(line@.skip(i as int)) == Ok::<ElemV, SvgErrorV>(el@),
            Err(e) => sp_dot(line@.skip(i as int)) == Err::<ElemV, SvgErrorV>(e@),
        },
{
    let (x, j) = match read_num(line, i) {
        Ok(vj) => vj,
        Err(reason) => {
            return Err(err_field("dot", "cx", reason));
        },
    };
    let Some(j1) = match_lit(line, j, "\" cy=\"") else {
        return Err(err_field("dot", "cy", "missing"));
    };
    let (y, j2) = match read_num(line, j1) {
        Ok(vj) => vj,
        Err(reason) => {
            return Err(err_field("dot", "cy", reason));
        },
    };
    let Some(j3) = match_lit(line, j2, "\" r=\"") else {
        return Err(err_field("dot", "r", "missing"));
    };
    let Some((_rv, j4)) = read_quoted(line, j3) else {
        return Err(err_field("dot", "r", "missing"));
    };
    let Some(j5) = match_lit(line, j4, "/>") else {
        return Err(SvgError::MalformedDocument);
    };
    if j5 != line.len() {
        return Err(SvgError::MalformedDocument);
    }
    Ok(Elem::DotEl(Point { x, y }))
}

/// Decide [`name_char`].
fn is_name_char(c: char) -> (b: bool)
    ensures
        b == name_char(c),
{
    c != ' ' && c != '/' && c != '>' && c != '<' && c != '"' && c != '\n'
}

proof fn lemma_sp_name_split(d: Seq<char>, t: Seq<char>)
    requires
        forall|i: int| 0 <= i < d.len() ==> name_char(#[trigger] d[i]),
        t.len() == 0 || !name_char(t[0]),
    ensures
        sp_name(d + t) == (d, t),
    decreases d.len(),
{
    let s = d + t;
    if d.len() == 0 {
        assert(s =~= t);
        assert(d =~= Seq::<char>::empty());
    } else {
        assert(s[0] == d[0]);
        assert(s.skip(1) =~= d.skip(1) + t);
        lemma_sp_name_split(d.skip(1), t);
        assert(seq![s[0]] + d.skip(1) =~= d);
    }
}

/// Classify one element line and extract its fields.
fn parse_element(line: &Vec<char>) -> (r: Result<Elem, SvgError>)
    ensures
        match r {
            Ok(el) => sp_element(line@) == Ok::<ElemV, SvgErrorV>(el@),
            Err(e) => sp_element(line@) == Err::<ElemV, SvgErrorV>(e@),
        },
{
    proof {
        assert(line@.skip(0) =~= line@);
    }
    if let Some(j) = match_lit(line, 0, "<g class=\"instance\" data-name=\"") {
        return parse_instance(line, j);
    }
    if let Some(j) = match_lit(line, 0, "<path class=\"wire\" data-name=\"") {
        return parse_wire(line, j);
    }
    if let Some(j) = match_lit(line, 0, "<g class=\"port\" data-name=\"") {
        return parse_port(line, j);
    }
    if let Some(j) = match_lit(line, 0, "<circle class=\"dot\" cx=\"") {
        return parse_dot(line, j);
    }
    // Unrecognized element: must still look like a self-closing element.
    let len = line.len();
    if len < 3 || line[0] != '<' {
        return Err(SvgError::MalformedDocument);
    }
    let mut k: usize = 1;
    while k < len && is_name_char(line[k])
        invariant
            1 <= k <= len,
            len == line@.len(),
            forall|q: int| 1 <= q < k ==> name_char(#[trigger] line@[q]),
        decreases len - k,
    {
        k += 1;
    }
    proof {
        let nm = line@.subrange(1, k as int);
        assert forall|q: int| 0 <= q < nm.len() implies name_char(#[trigger] nm[q]) by {
            assert(name_char(line@[1 + q]));
        }
        assert(line@.skip(1) =~= nm + line@.skip(k as int));
        lemma_sp_name_split(nm, line@.skip(k as int));
    }
    if k == 1 {
        return Err(SvgError::MalformedDocument);
    }
    if !(line[len - 2] == '/' && line[len - 1] == '>') {
        proof {
            reveal_strlit("/>");
            if line@.skip(len - 2 as int) == "/>"@ {
                assert(line@.skip(len - 2 as int)[0] == line@[len - 2]);
                assert(line@.skip(len - 2 as int)[1] == line@[len - 1]);
                assert("/>"@[0] == '/' && "/>"@[1] == '>');
            }
        }
        return Err(SvgError::MalformedDocument);
    }
    proof {
        reveal_strlit("/>");
        assert(line@.skip(len - 2 as int) =~= "/>"@);
    }
    let mut nmv: Vec<char> = Vec::new();
    let mut q: usize = 1;
    while q < k
        invariant
            1 <= q <= k <= line@.len(),
            nmv@ == line@.subrange(1, q as int),
        decreases k - q,
    {
        nmv.push(line[q]);
        assert(nmv@ =~= line@.subrange(1, q as int + 1));
        q += 1;
    }
    let mut linecopy: Vec<char> = Vec::new();
    let mut q: usize = 0;
    while q < len
        invariant
            q <= len,
            len == line@.len(),
            linecopy@ == line@.subrange(0, q as int),
        decreases len - q,
    {
        linecopy.push(line[q]);
        assert(linecopy@ =~= line@.subrange(0, q as int + 1));
        q += 1;
    }
    proof {
        assert(linecopy@ =~= line@);
    }
    Ok(Elem::Other(chars_to_string(&nmv), linecopy))
}

/// Concatenate two classified-element collections, in order.
pub open spec fn elems_combine(a: ElemsV, b: ElemsV) -> ElemsV {
    ElemsV {
        instances: a.instances + b.instances,
        wires: a.wires + b.wires,
        ports: a.ports + b.ports,
        dots: a.dots + b.dots,
        extra: a.extra + b.extra,
    }
}

/// Decode markup text into a validated schematic: the executable decoder,
/// which returns exactly what the spec-level [`sp_doc`] says for this input.
#[verifier::rlimit(100)]
pub fn decode_svg(svg: &str, strict: bool) -> (r: Result<Schematic, SvgError>)
    ensures
        match r {
            Ok(sch) => sp_doc(svg@, strict) == Ok::<SchematicV, SvgErrorV>(sch@) && spec_valid(
                sch@,
            ),
            Err(e) => sp_doc(svg@, strict) == Err::<SchematicV, SvgErrorV>(e@),
        },
{
    let s = str_to_chars(svg);
    let slen = s.len();
    proof {
        assert(s@.skip(0) =~= s@);
    }
    let Some(p0) = match_lit(&s, 0, "<svg xmlns=\"http://www.w3.org/2000/svg\" width=\"") else {
        return Err(SvgError::MalformedDocument);
    };
    let (w, p1) = match read_num(&s, p0) {
        Ok(vj) => vj,
        Err(reason) => {
            return Err(err_field("svg", "width", reason));
        },
    };
    let Some(p2) = match_lit(&s, p1, "\" height=\"") else {
        return Err(err_field("svg", "height", "missing"));
    };
    let (h, p3) = match read_num(&s, p2) {
        Ok(vj) => vj,
        Err(reason) => {
            return Err(err_field("svg", "height", reason));
        },
    };
    let Some(p4) = match_lit(&s, p3, "\" data-name=\"") else {
        return Err(err_field("svg", "data-name", "missing"));
    };
    let Some((namev, p5)) = read_quoted(&s, p4) else {
        return Err(err_field("svg", "data-name", "missing"));
    };
    let Some(p6) = match_lit(&s, p5, ">\n<metadata>\n") else {
        return Err(SvgError::MalformedDocument);
    };

    // Metadata region: collect prelude lines until the closing line.
    let mut prelude: Vec<char> = Vec::new();
    let ghost mut plines: Seq<Seq<char>> = Seq::<Seq<char>>::empty();
    let mut has_line = false;
    let mut pos = p6;
    let mut found = false;
    let mut fin: usize = 0;
    while !found
        invariant
            pos <= s@.len(),
            slen == s@.len(),
            s@ == svg@,
            prelude@ == join_lines(plines),
            has_line == (plines.len() > 0),
            !found ==> match sp_prelude(s@.skip(pos as int)) {
                Some(pr) => sp_doc(svg@, strict) == sp_doc_tail(
                    namev@,
                    w as int,
                    h as int,
                    plines + pr.0,
                    pr.1,
                    strict,
                ),
                None => sp_doc(svg@, strict) == Err::<SchematicV, SvgErrorV>(
                    SvgErrorV::MalformedDocument,
                ),
            },
            found ==> fin <= s@.len() && sp_doc(svg@, strict) == sp_doc_tail(
                namev@,
                w as int,
                h as int,
                plines,
                s@.skip(fin as int),
                strict,
            ),
        decreases s@.len() - pos + (if found {
            0int
        } else {
            1int
        }),
    {
        let Some(j) = find_line_end(&s, pos) else {
            return Err(SvgError::MalformedDocument);
        };
        let line = copy_range(&s, pos, j);
        if chars_eq_lit(&line, "</metadata>") {
            found = true;
            fin = j + 1;
            proof {
                assert(plines + Seq::<Seq<char>>::empty() =~= plines);
            }
        } else {
            if has_line {
                prelude.push('\n');
            }
            let mut q: usize = 0;
            let ghost mid = prelude@;
            while q < line.len()
                invariant
                    q <= line@.len(),
                    prelude@ == mid + line@.subrange(0, q as int),
                decreases line@.len() - q,
            {
                prelude.push(line[q]);
                assert(prelude@ =~= mid + line@.subrange(0, q as int + 1));
                q += 1;
            }
            proof {
                assert(prelude@ =~= mid + line@);
                lemma_join_lines_snoc(plines, line@);
                if plines.len() == 0 {
                    assert(join_lines(plines) =~= Seq::<char>::empty());
                    assert(prelude@ =~= line@);
                }
                let oldpl = plines;
                plines = plines.push(line@);
                assert(prelude@ =~= join_lines(plines));
                assert(sp_line(s@.skip(pos as int)) == Some((line@, s@.skip(j as int + 1))));
                assert(line@ != "</metadata>"@);
                if sp_prelude(s@.skip(j as int + 1)) is Some {
                    let pr2 = sp_prelude(s@.skip(j as int + 1))->Some_0;
                    assert(sp_prelude(s@.skip(pos as int)) == Some(
                        (seq![line@] + pr2.0, pr2.1),
                    ));
                    assert(oldpl + (seq![line@] + pr2.0) =~= plines + pr2.0);
                    assert(sp_doc(svg@, strict) == sp_doc_tail(
                        namev@,
                        w as int,
                        h as int,
                        oldpl + (seq![line@] + pr2.0),
                        pr2.1,
                        strict,
                    ));
                } else {
                    assert(sp_prelude(s@.skip(pos as int)) is None);
                }
            }
            has_line = true;
            pos = j + 1;
        }
    }

    // Element section: classify one element per line, to the footer.
    let mut insts: Vec<Instance> = Vec::new();
    let mut wires: Vec<Wire> = Vec::new();
    let mut ports: Vec<Port> = Vec::new();
    let mut dots: Vec<Point> = Vec::new();
    let ghost mut extra: Seq<Seq<char>> = Seq::<Seq<char>>::empty();
    let mut pos = fin;
    let mut done = false;
    proof {
        assert(plines + extra =~= plines);
    }
    while !done
        invariant
            pos <= s@.len(),
            slen == s@.len(),
            s@ == svg@,
            prelude@ == join_lines(plines + extra),
            has_line == (plines.len() + extra.len() > 0),
            !done ==> match sp_elements(s@.skip(pos as int), strict) {
                Err(e) => sp_doc(svg@, strict) == Err::<SchematicV, SvgErrorV>(e),
                Ok(es) => sp_doc(svg@, strict) == sp_assemble(
                    namev@,
                    w as int,
                    h as int,
                    plines,
                    elems_combine(
                        ElemsV {
                            instances: insts@.map_values(|e: Instance| e@),
                            wires: wires@.map_values(|e: Wire| e@),
                            ports: ports@.map_values(|e: Port| e@),
                            dots: dots@,
                            extra: extra,
                        },
                        es,
                    ),
                ),
            },
            done ==> sp_doc(svg@, strict) == sp_assemble(
                namev@,
                w as int,
                h as int,
                plines,
                ElemsV {
                    instances: insts@.map_values(|e: Instance| e@),
                    wires: wires@.map_values(|e: Wire| e@),
                    ports: ports@.map_values(|e: Port| e@),
                    dots: dots@,
                    extra: extra,
                },
            ),
        decreases s@.len() - pos + (if done {
            0int
        } else {
            1int
        }),
    {
        let ghost acc = ElemsV {
            instances: insts@.map_values(|e: Instance| e@),
            wires: wires@.map_values(|e: Wire| e@),
            ports: ports@.map_values(|e: Port| e@),
            dots: dots@,
            extra: extra,
        };
        let Some(j) = find_line_end(&s, pos) else {
            return Err(SvgError::MalformedDocument);
        };
        let line = copy_range(&s, pos, j);
        if chars_eq_lit(&line, "</svg>") {
            if j + 1 != s.len() {
                return Err(SvgError::MalformedDocument);
            }
            done = true;
            proof {
                assert(s@.skip(j + 1 as int).len() == 0);
                assert(elems_combine(acc, elems_empty()) =~= acc);
            }
        } else {
            let el = match parse_element(&line) {
                Ok(el) => el,
                Err(e) => {
                    return Err(e);
                },
            };
            if strict {
                if let Elem::Other(nm, _l) = &el {
                    return Err(SvgError::UnrecognizedElement { element: nm.clone() });
                }
            }
            let ghost elv = el@;
            match el {
                Elem::Inst(i) => insts.push(i),
                Elem::WireEl(wi) => wires.push(wi),
                Elem::PortEl(p) => ports.push(p),
                Elem::DotEl(d) => dots.push(d),
                Elem::Other(_nm, l) => {
                    if has_line {
                        prelude.push('\n');
                    }
                    let mut q: usize = 0;
                    let ghost mid = prelude@;
                    while q < l.len()
                        invariant
                            q <= l@.len(),
                            prelude@ == mid + l@.subrange(0, q as int),
                        decreases l@.len() - q,
                    {
                        prelude.push(l[q]);
                        assert(prelude@ =~= mid + l@.subrange(0, q as int + 1));
                        q += 1;
                    }
                    proof {
                        assert(prelude@ =~= mid + l@);
                        lemma_join_lines_snoc(plines + extra, l@);
                        if (plines + extra).len() == 0 {
                            assert(join_lines(plines + extra) =~= Seq::<char>::empty());
                            assert(prelude@ =~= l@);
                        }
                        extra = extra.push(l@);
                        assert(plines + extra =~= (plines + extra.drop_last()).push(l@));
                        assert(prelude@ =~= join_lines(plines + extra));
                    }
                    has_line = true;
                },
            }
            proof {
                let accn = ElemsV {
                    instances: insts@.map_values(|e: Instance| e@),
                    wires: wires@.map_values(|e: Wire| e@),
                    ports: ports@.map_values(|e: Port| e@),
                    dots: dots@,
                    extra: extra,
                };
                if sp_elements(s@.skip(j + 1 as int), strict) is Ok {
                    let es2 = sp_elements(s@.skip(j + 1 as int), strict)->Ok_0;
                    assert(elems_combine(acc, elems_cons(elv, es2)) =~= elems_combine(accn, es2));
                }
            }
            pos = j + 1;
        }
    }

    let ghost schv = SchematicV {
        name: namev@,
        prelude: join_lines(plines + extra),
        size: Point { x: w, y: h },
        instances: insts@.map_values(|e: Instance| e@),
        wires: wires@.map_values(|e: Wire| e@),
        ports: ports@.map_values(|e: Port| e@),
        dots: dots@,
    };
    let sch = Schematic {
        name: chars_to_string(&namev),
        prelude: chars_to_string(&prelude),
        size: Point { x: w, y: h },
        instances: insts,
        wires,
        ports,
        dots,
    };
    assert(sch@ =~= schv);
    let violations = validate(&sch);
    proof {
        lemma_valid_iff_no_violations(sch@);
    }
    if violations.len() > 0 {
        Err(SvgError::ValidationFailed { violations })
    } else {
        Ok(sch)
    }
}

/// Decode markup text into a validated schematic, with unrecognized
/// elements carried through to the prelude (non-strict mode).
pub fn svg_to_sch(svg: &str) -> (r: Result<Schematic, SvgError>)
    ensures
        match r {
            Ok(sch) => sp_doc(svg@, false) == Ok::<SchematicV, SvgErrorV>(sch@) && spec_valid(
                sch@,
            ),
            Err(e) => sp_doc(svg@, false) == Err::<SchematicV, SvgErrorV>(e@),
        },
{
    decode_svg(svg, false)
}

} // verus!
