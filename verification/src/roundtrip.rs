//! Round-trip laws: decoding the encoder's output recovers the encoded
//! schematic exactly, and re-encoding it reproduces the same text.

use crate::decode::{
    sp_bool_val, sp_orient, sp_path, sp_path_more, sp_rot_val,
};
use crate::encode::{
    bool_chars, path_chars, path_more_chars, rot_chars, transform_chars,
};
use crate::geometry::spec_compose;
use crate::point::Point;
use crate::schematic::{InstanceV, Orientation, PortV, Rotation, SchematicV, WireV};
use crate::text::{
    dec_digits, int_chars, is_digit, lemma_dec_digits_digits, lemma_sp_int_inversion,
    lemma_sp_lit, lemma_sp_quoted, no_nl, qsafe, sp_lit, split_lines,
};
use vstd::prelude::*;

verus! {

/// A quote-safe text holds no newline either.
pub proof fn lemma_qsafe_no_nl(s: Seq<char>)
    requires
        qsafe(s),
    ensures
        no_nl(s),
{
}

/// Newline-freedom is preserved by concatenation.
pub proof fn lemma_no_nl_concat(a: Seq<char>, b: Seq<char>)
    requires
        no_nl(a),
        no_nl(b),
    ensures
        no_nl(a + b),
{
    assert forall|i: int| 0 <= i < (a + b).len() implies (a + b)[i] != '\n' by {
        if i < a.len() {
            assert(a[i] != '\n');
        } else {
            assert(b[i - a.len()] != '\n');
        }
    }
}

/// Quote-safety is preserved by concatenation.
pub proof fn lemma_qsafe_concat(a: Seq<char>, b: Seq<char>)
    requires
        qsafe(a),
        qsafe(b),
    ensures
        qsafe(a + b),
{
    assert forall|i: int| 0 <= i < (a + b).len() implies (a + b)[i] != '"' && (a + b)[i]
        != '\n' by {
        if i < a.len() {
            assert(a[i] != '"' && a[i] != '\n');
        } else {
            assert(b[i - a.len()] != '"' && b[i - a.len()] != '\n');
        }
    }
}

/// The decimal text of an integer holds only digits and a minus sign: it is
/// quote-safe, and its first character is no quote, newline or space.
pub proof fn lemma_int_chars_safe(n: int)
    ensures
        qsafe(int_chars(n)),
        int_chars(n).len() > 0,
{
    let m: nat = if n < 0 {
        (-n) as nat
    } else {
        n as nat
    };
    lemma_dec_digits_digits(m);
    assert forall|i: int| 0 <= i < int_chars(n).len() implies int_chars(n)[i] != '"' && int_chars(
        n,
    )[i] != '\n' by {
        if n < 0 {
            if i > 0 {
                assert(int_chars(n)[i] == dec_digits(m)[i - 1]);
                assert(is_digit(dec_digits(m)[i - 1]));
            }
        } else {
            assert(is_digit(dec_digits(m)[i]));
        }
    }
}

/// The boolean attribute values parse back to their booleans.
pub proof fn lemma_bool_val(b: bool)
    ensures
        sp_bool_val(bool_chars(b)) == Some(b),
        qsafe(bool_chars(b)),
{
    reveal_strlit("true");
    reveal_strlit("false");
    assert("true"@.len() == 4);
    assert("false"@.len() == 5);
}

/// The rotation attribute values parse back to their rotations.
pub proof fn lemma_rot_val(r: Rotation)
    ensures
        sp_rot_val(rot_chars(r)) == Some(r),
        qsafe(rot_chars(r)),
{
    reveal_strlit("R0");
    reveal_strlit("R90");
    reveal_strlit("R180");
    reveal_strlit("R270");
    assert("R0"@.len() == 2);
    assert("R90"@.len() == 3);
    assert("R180"@.len() == 4);
    assert("R270"@.len() == 4);
    assert("R180"@[1] == '1');
    assert("R270"@[1] == '2');
}

/// The rendering transform attribute value is quote-safe.
pub proof fn lemma_transform_qsafe(o: Orientation, loc: Point)
    ensures
        qsafe(transform_chars(o, loc)),
{
    let t = spec_compose(o);
    reveal_strlit("matrix(");
    reveal_strlit(" ");
    reveal_strlit(")");
    lemma_int_chars_safe(t.a as int);
    lemma_int_chars_safe(t.c as int);
    lemma_int_chars_safe(t.b as int);
    lemma_int_chars_safe(t.d as int);
    lemma_int_chars_safe(loc.x as int);
    lemma_int_chars_safe(loc.y as int);
    assert(qsafe("matrix("@));
    assert(qsafe(" "@));
    assert(qsafe(")"@));
    lemma_qsafe_concat("matrix("@, int_chars(t.a as int));
    lemma_qsafe_concat("matrix("@ + int_chars(t.a as int), " "@);
    lemma_qsafe_concat("matrix("@ + int_chars(t.a as int) + " "@, int_chars(t.c as int));
    lemma_qsafe_concat(
        "matrix("@ + int_chars(t.a as int) + " "@ + int_chars(t.c as int),
        " "@,
    );
    lemma_qsafe_concat(
        "matrix("@ + int_chars(t.a as int) + " "@ + int_chars(t.c as int) + " "@,
        int_chars(t.b as int),
    );
    lemma_qsafe_concat(
        "matrix("@ + int_chars(t.a as int) + " "@ + int_chars(t.c as int) + " "@ + int_chars(
            t.b as int,
        ),
        " "@,
    );
    lemma_qsafe_concat(
        "matrix("@ + int_chars(t.a as int) + " "@ + int_chars(t.c as int) + " "@ + int_chars(
            t.b as int,
        ) + " "@,
        int_chars(t.d as int),
    );
    lemma_qsafe_concat(
        "matrix("@ + int_chars(t.a as int) + " "@ + int_chars(t.c as int) + " "@ + int_chars(
            t.b as int,
        ) + " "@ + int_chars(t.d as int),
        " "@,
    );
    lemma_qsafe_concat(
        "matrix("@ + int_chars(t.a as int) + " "@ + int_chars(t.c as int) + " "@ + int_chars(
            t.b as int,
        ) + " "@ + int_chars(t.d as int) + " "@,
        int_chars(loc.x as int),
    );
    lemma_qsafe_concat(
        "matrix("@ + int_chars(t.a as int) + " "@ + int_chars(t.c as int) + " "@ + int_chars(
            t.b as int,
        ) + " "@ + int_chars(t.d as int) + " "@ + int_chars(loc.x as int),
        " "@,
    );
    lemma_qsafe_concat(
        "matrix("@ + int_chars(t.a as int) + " "@ + int_chars(t.c as int) + " "@ + int_chars(
            t.b as int,
        ) + " "@ + int_chars(t.d as int) + " "@ + int_chars(loc.x as int) + " "@,
        int_chars(loc.y as int),
    );
    lemma_qsafe_concat(
        "matrix("@ + int_chars(t.a as int) + " "@ + int_chars(t.c as int) + " "@ + int_chars(
            t.b as int,
        ) + " "@ + int_chars(t.d as int) + " "@ + int_chars(loc.x as int) + " "@ + int_chars(
            loc.y as int,
        ),
        ")"@,
    );
}

proof fn lemma_sp_path_more_enc(pts: Seq<Point>)
    ensures
        sp_path_more(path_more_chars(pts)) == Some(pts),
    decreases pts.len(),
{
    reveal_strlit(" L ");
    reveal_strlit(" ");
    if pts.len() == 0 {
        assert(path_more_chars(pts).len() == 0);
        assert(pts =~= Seq::<Point>::empty());
    } else {
        let p0 = pts[0];
        let x = int_chars(p0.x as int);
        let y = int_chars(p0.y as int);
        let more = path_more_chars(pts.skip(1));
        let t = path_more_chars(pts);
        lemma_int_chars_safe(p0.x as int);
        lemma_int_chars_safe(p0.y as int);
        assert(t =~= " L "@ + (x + (" "@ + (y + more))));
        lemma_sp_lit(" L "@, x + (" "@ + (y + more)));
        assert(x + (" "@ + (y + more)) =~= int_chars(p0.x as int) + (" "@ + (y + more)));
        assert((" "@ + (y + more))[0] == ' ');
        lemma_sp_int_inversion(p0.x as int, " "@ + (y + more));
        lemma_sp_lit(" "@, y + more);
        if more.len() > 0 {
            assert(path_more_chars(pts.skip(1)) == " L "@ + int_chars(pts.skip(1)[0].x as int)
                + " "@ + int_chars(pts.skip(1)[0].y as int) + path_more_chars(
                pts.skip(1).skip(1),
            ));
            assert(more[0] == ' ');
        }
        assert(more.len() == 0 || !is_digit(more[0]));
        lemma_sp_int_inversion(p0.y as int, more);
        lemma_sp_path_more_enc(pts.skip(1));
        assert(seq![Point { x: p0.x, y: p0.y }] + pts.skip(1) =~= pts);
    }
}

/// Parsing the path text of a non-empty point list recovers the points.
proof fn lemma_sp_path_enc(pts: Seq<Point>)
    requires
        pts.len() >= 1,
    ensures
        sp_path(path_chars(pts)) == Some(pts),
        qsafe(path_chars(pts)),
{
    reveal_strlit("M ");
    reveal_strlit(" ");
    let p0 = pts[0];
    let x = int_chars(p0.x as int);
    let y = int_chars(p0.y as int);
    let more = path_more_chars(pts.skip(1));
    let t = path_chars(pts);
    lemma_int_chars_safe(p0.x as int);
    lemma_int_chars_safe(p0.y as int);
    assert(t.len() > 0);
    assert(t =~= "M "@ + (x + (" "@ + (y + more))));
    lemma_sp_lit("M "@, x + (" "@ + (y + more)));
    assert((" "@ + (y + more))[0] == ' ');
    lemma_sp_int_inversion(p0.x as int, " "@ + (y + more));
    lemma_sp_lit(" "@, y + more);
    reveal_strlit(" L ");
    if more.len() > 0 {
        assert(path_more_chars(pts.skip(1)) == " L "@ + int_chars(pts.skip(1)[0].x as int) + " "@
            + int_chars(pts.skip(1)[0].y as int) + path_more_chars(pts.skip(1).skip(1)));
        assert(more[0] == ' ');
    }
    assert(more.len() == 0 || !is_digit(more[0]));
    lemma_sp_int_inversion(p0.y as int, more);
    lemma_sp_path_more_enc(pts.skip(1));
    assert(seq![Point { x: p0.x, y: p0.y }] + pts.skip(1) =~= pts);
    lemma_path_more_qsafe(pts.skip(1));
    assert(qsafe("M "@));
    assert(qsafe(" "@));
    lemma_qsafe_concat("M "@, x);
    lemma_qsafe_concat("M "@ + x, " "@);
    lemma_qsafe_concat("M "@ + x + " "@, y);
    lemma_qsafe_concat("M "@ + x + " "@ + y, more);
}

proof fn lemma_path_more_qsafe(pts: Seq<Point>)
    ensures
        qsafe(path_more_chars(pts)),
    decreases pts.len(),
{
    reveal_strlit(" L ");
    reveal_strlit(" ");
    if pts.len() > 0 {
        let p0 = pts[0];
        let x = int_chars(p0.x as int);
        let y = int_chars(p0.y as int);
        lemma_int_chars_safe(p0.x as int);
        lemma_int_chars_safe(p0.y as int);
        lemma_path_more_qsafe(pts.skip(1));
        assert(qsafe(" L "@));
        assert(qsafe(" "@));
        lemma_qsafe_concat(" L "@, x);
        lemma_qsafe_concat(" L "@ + x, " "@);
        lemma_qsafe_concat(" L "@ + x + " "@, y);
        lemma_qsafe_concat(" L "@ + x + " "@ + y, path_more_chars(pts.skip(1)));
    }
}

/// The orientation text of a placed element: its typed attributes, the
/// rendering transform, and the line's closing characters.
spec fn orient_part(o: Orientation, loc: Point) -> Seq<char> {
    "\" data-reflected=\""@ + bool_chars(o.reflected) + "\" data-rotation=\""@ + rot_chars(
        o.rotation,
    ) + "\" transform=\""@ + transform_chars(o, loc) + "\"/>"@
}

/// Parsing the emitted orientation text recovers the orientation: the typed
/// attributes are present and take precedence.
proof fn lemma_sp_orient_enc(o: Orientation, loc: Point, elem: Seq<char>)
    ensures
        sp_orient(orient_part(o, loc), elem) == Ok::<Orientation, crate::error::SvgErrorV>(o),
        no_nl(orient_part(o, loc)),
{
    reveal_strlit("\" data-reflected=\"");
    reveal_strlit("\" data-rotation=\"");
    reveal_strlit(" data-rotation=\"");
    reveal_strlit("\" transform=\"");
    reveal_strlit(" transform=\"");
    reveal_strlit("\"/>");
    reveal_strlit("/>");
    let bs = bool_chars(o.reflected);
    let rs = rot_chars(o.rotation);
    let ts = transform_chars(o, loc);
    lemma_bool_val(o.reflected);
    lemma_rot_val(o.rotation);
    lemma_transform_qsafe(o, loc);
    let s = orient_part(o, loc);
    let r1 = bs + (seq!['"'] + (" data-rotation=\""@ + (rs + (seq!['"'] + (" transform=\""@ + (ts
        + (seq!['"'] + "/>"@)))))));
    assert(s =~= "\" data-reflected=\""@ + r1);
    lemma_sp_lit("\" data-reflected=\""@, r1);
    lemma_sp_quoted(bs, " data-rotation=\""@ + (rs + (seq!['"'] + (" transform=\""@ + (ts + (
    seq!['"'] + "/>"@))))));
    assert(r1 =~= bs + seq!['"'] + (" data-rotation=\""@ + (rs + (seq!['"'] + (" transform=\""@
        + (ts + (seq!['"'] + "/>"@)))))));
    lemma_sp_lit(" data-rotation=\""@, rs + (seq!['"'] + (" transform=\""@ + (ts + (seq!['"']
        + "/>"@)))));
    lemma_sp_quoted(rs, " transform=\""@ + (ts + (seq!['"'] + "/>"@)));
    assert(rs + (seq!['"'] + (" transform=\""@ + (ts + (seq!['"'] + "/>"@)))) =~= rs + seq!['"']
        + (" transform=\""@ + (ts + (seq!['"'] + "/>"@))));
    lemma_sp_lit(" transform=\""@, ts + (seq!['"'] + "/>"@));
    lemma_sp_quoted(ts, "/>"@);
    assert(ts + (seq!['"'] + "/>"@) =~= ts + seq!['"'] + "/>"@);
    lemma_sp_lit("/>"@, Seq::<char>::empty());
    assert("/>"@ =~= "/>"@ + Seq::<char>::empty());
    // No newline anywhere in the orientation text.
    assert(no_nl("\" data-reflected=\""@));
    assert(no_nl("\" data-rotation=\""@));
    assert(no_nl("\" transform=\""@));
    assert(no_nl("\"/>"@));
    lemma_qsafe_no_nl(bs);
    lemma_qsafe_no_nl(rs);
    lemma_qsafe_no_nl(ts);
    lemma_no_nl_concat("\" data-reflected=\""@, bs);
    lemma_no_nl_concat("\" data-reflected=\""@ + bs, "\" data-rotation=\""@);
    lemma_no_nl_concat("\" data-reflected=\""@ + bs + "\" data-rotation=\""@, rs);
    lemma_no_nl_concat("\" data-reflected=\""@ + bs + "\" data-rotation=\""@ + rs,
        "\" transform=\""@);
    lemma_no_nl_concat(
        "\" data-reflected=\""@ + bs + "\" data-rotation=\""@ + rs + "\" transform=\""@,
        ts,
    );
    lemma_no_nl_concat(
        "\" data-reflected=\""@ + bs + "\" data-rotation=\""@ + rs + "\" transform=\""@ + ts,
        "\"/>"@,
    );
}

/// Concatenation of texts is associative.
proof fn lemma_assoc(a: Seq<char>, b: Seq<char>, c: Seq<char>)
    ensures
        (a + b) + c == a + (b + c),
{
    assert((a + b) + c =~= a + (b + c));
}

/// A mismatch at any index refutes a literal match.
proof fn lemma_lit_mismatch(s: Seq<char>, lit: Seq<char>, k: int)
    requires
        0 <= k < lit.len(),
        k < s.len(),
        s[k] != lit[k],
    ensures
        sp_lit(s, lit) is None,
{
    if sp_lit(s, lit) is Some {
        assert(s.take(lit.len() as int)[k] == lit[k]);
    }
}

/// The markup line of one instance, without its trailing newline.
spec fn inst_line(i: InstanceV) -> Seq<char> {
    "<g class=\"instance\" data-name=\""@ + i.name + "\" data-of=\""@ + i.of + "\" data-x=\""@
        + int_chars(i.loc.x as int) + "\" data-y=\""@ + int_chars(i.loc.y as int) + orient_part(
        i.orientation,
        i.loc,
    )
}

/// The markup line of one port, without its trailing newline.
spec fn port_line(p: PortV) -> Seq<char> {
    "<g class=\"port\" data-name=\""@ + p.name + "\" data-x=\""@ + int_chars(p.loc.x as int)
        + "\" data-y=\""@ + int_chars(p.loc.y as int) + orient_part(p.orientation, p.loc)
}

/// The markup line of one wire, without its trailing newline.
spec fn wire_line(w: WireV) -> Seq<char> {
    "<path class=\"wire\" data-name=\""@ + w.name + "\" d=\""@ + path_chars(w.points) + "\"/>"@
}

/// The markup line of one dot, without its trailing newline.
spec fn dot_line(d: Point) -> Seq<char> {
    "<circle class=\"dot\" cx=\""@ + int_chars(d.x as int) + "\" cy=\""@ + int_chars(d.y as int)
        + "\" r=\""@ + "2"@ + "\"/>"@
}

#[verifier::rlimit(100)]
proof fn lemma_inst_line_shape(i: InstanceV)
    requires
        qsafe(i.name),
        qsafe(i.of),
    ensures
        crate::encode::enc_instance(i) == inst_line(i) + seq!['\n'],
        no_nl(inst_line(i)),
        inst_line(i) != "</svg>"@,
{
    reveal_strlit("<g class=\"instance\" data-name=\"");
    reveal_strlit("\" data-of=\"");
    reveal_strlit(" data-of=\"");
    reveal_strlit("\" data-x=\"");
    reveal_strlit(" data-x=\"");
    reveal_strlit("\" data-y=\"");
    reveal_strlit("\"/>\n");
    reveal_strlit("\"/>");
    reveal_strlit("</svg>");
    let x = int_chars(i.loc.x as int);
    let y = int_chars(i.loc.y as int);
    let op = orient_part(i.orientation, i.loc);
    lemma_int_chars_safe(i.loc.x as int);
    lemma_int_chars_safe(i.loc.y as int);
    lemma_sp_orient_enc(i.orientation, i.loc, "instance"@);
    // The encoder's line is this line plus a newline.
    assert(crate::encode::enc_instance(i) =~= inst_line(i) + seq!['\n']);
    // The line holds no newline.
    assert(no_nl("<g class=\"instance\" data-name=\""@));
    assert(no_nl("\" data-of=\""@));
    assert(no_nl("\" data-x=\""@));
    assert(no_nl("\" data-y=\""@));
    lemma_qsafe_no_nl(i.name);
    lemma_qsafe_no_nl(i.of);
    lemma_qsafe_no_nl(x);
    lemma_qsafe_no_nl(y);
    let pre = "<g class=\"instance\" data-name=\""@;
    lemma_no_nl_concat(pre, i.name);
    lemma_no_nl_concat(pre + i.name, "\" data-of=\""@);
    lemma_no_nl_concat(pre + i.name + "\" data-of=\""@, i.of);
    lemma_no_nl_concat(pre + i.name + "\" data-of=\""@ + i.of, "\" data-x=\""@);
    lemma_no_nl_concat(pre + i.name + "\" data-of=\""@ + i.of + "\" data-x=\""@, x);
    lemma_no_nl_concat(pre + i.name + "\" data-of=\""@ + i.of + "\" data-x=\""@ + x,
        "\" data-y=\""@);
    lemma_no_nl_concat(
        pre + i.name + "\" data-of=\""@ + i.of + "\" data-x=\""@ + x + "\" data-y=\""@,
        y,
    );
    lemma_no_nl_concat(
        pre + i.name + "\" data-of=\""@ + i.of + "\" data-x=\""@ + x + "\" data-y=\""@ + y,
        op,
    );
    // Not the footer.
    assert(inst_line(i)[1] == 'g');
    assert("</svg>"@[1] == '/');
}

#[verifier::rlimit(100)]
proof fn lemma_inst_line_parse(i: InstanceV)
    requires
        qsafe(i.name),
        qsafe(i.of),
    ensures
        crate::decode::sp_element(inst_line(i)) == Ok::<
            crate::decode::ElemV,
            crate::error::SvgErrorV,
        >(crate::decode::ElemV::Inst(i)),
{
    reveal_strlit("<g class=\"instance\" data-name=\"");
    reveal_strlit("\" data-of=\"");
    reveal_strlit(" data-of=\"");
    reveal_strlit("\" data-x=\"");
    reveal_strlit(" data-x=\"");
    reveal_strlit("\" data-y=\"");
    reveal_strlit("\" data-reflected=\"");
    let x = int_chars(i.loc.x as int);
    let y = int_chars(i.loc.y as int);
    let op = orient_part(i.orientation, i.loc);
    let pre = "<g class=\"instance\" data-name=\""@;
    lemma_int_chars_safe(i.loc.x as int);
    lemma_int_chars_safe(i.loc.y as int);
    lemma_sp_orient_enc(i.orientation, i.loc, "instance"@);
    // Classification: the instance prefix matches.
    let r4 = y + op;
    let r3 = x + ("\" data-y=\""@ + r4);
    let t2 = " data-x=\""@ + r3;
    let r2 = i.of + (seq!['"'] + t2);
    let t1 = " data-of=\""@ + r2;
    let rest = i.name + (seq!['"'] + t1);
    assert(inst_line(i) =~= pre + rest);
    lemma_sp_lit(pre, rest);
    assert(rest =~= i.name + seq!['"'] + t1);
    lemma_sp_quoted(i.name, t1);
    lemma_sp_lit(" data-of=\""@, r2);
    assert(r2 =~= i.of + seq!['"'] + t2);
    lemma_sp_quoted(i.of, t2);
    lemma_sp_lit(" data-x=\""@, r3);
    assert(r3 =~= x + ("\" data-y=\""@ + r4));
    assert(("\" data-y=\""@ + r4)[0] == '"');
    lemma_sp_int_inversion(i.loc.x as int, "\" data-y=\""@ + r4);
    lemma_sp_lit("\" data-y=\""@, r4);
    assert(r4 =~= y + op);
    assert(op[0] == '"');
    lemma_sp_int_inversion(i.loc.y as int, op);
    assert(InstanceV {
        name: i.name,
        of: i.of,
        loc: Point { x: i.loc.x, y: i.loc.y },
        orientation: i.orientation,
    } =~= i);
}

#[verifier::rlimit(100)]
proof fn lemma_port_line_shape(p: PortV)
    requires
        qsafe(p.name),
    ensures
        crate::encode::enc_port(p) == port_line(p) + seq!['\n'],
        no_nl(port_line(p)),
        port_line(p) != "</svg>"@,
{
    reveal_strlit("<g class=\"instance\" data-name=\"");
    reveal_strlit("<path class=\"wire\" data-name=\"");
    reveal_strlit("<g class=\"port\" data-name=\"");
    reveal_strlit("\" data-x=\"");
    reveal_strlit(" data-x=\"");
    reveal_strlit("\" data-y=\"");
    reveal_strlit("\"/>\n");
    reveal_strlit("\"/>");
    reveal_strlit("</svg>");
    let x = int_chars(p.loc.x as int);
    let y = int_chars(p.loc.y as int);
    let op = orient_part(p.orientation, p.loc);
    lemma_int_chars_safe(p.loc.x as int);
    lemma_int_chars_safe(p.loc.y as int);
    lemma_sp_orient_enc(p.orientation, p.loc, "port"@);
    assert(crate::encode::enc_port(p) =~= port_line(p) + seq!['\n']);
    let pre = "<g class=\"port\" data-name=\""@;
    assert(no_nl(pre));
    assert(no_nl("\" data-x=\""@));
    assert(no_nl("\" data-y=\""@));
    lemma_qsafe_no_nl(p.name);
    lemma_qsafe_no_nl(x);
    lemma_qsafe_no_nl(y);
    lemma_no_nl_concat(pre, p.name);
    lemma_no_nl_concat(pre + p.name, "\" data-x=\""@);
    lemma_no_nl_concat(pre + p.name + "\" data-x=\""@, x);
    lemma_no_nl_concat(pre + p.name + "\" data-x=\""@ + x, "\" data-y=\""@);
    lemma_no_nl_concat(pre + p.name + "\" data-x=\""@ + x + "\" data-y=\""@, y);
    lemma_no_nl_concat(pre + p.name + "\" data-x=\""@ + x + "\" data-y=\""@ + y, op);
    assert(port_line(p)[1] == 'g');
    assert("</svg>"@[1] == '/');
}

#[verifier::rlimit(100)]
proof fn lemma_port_line_parse(p: PortV)
    requires
        qsafe(p.name),
    ensures
        crate::decode::sp_element(port_line(p)) == Ok::<
            crate::decode::ElemV,
            crate::error::SvgErrorV,
        >(crate::decode::ElemV::PortEl(p)),
{
    reveal_strlit("<g class=\"instance\" data-name=\"");
    reveal_strlit("<path class=\"wire\" data-name=\"");
    reveal_strlit("<g class=\"port\" data-name=\"");
    reveal_strlit("\" data-x=\"");
    reveal_strlit(" data-x=\"");
    reveal_strlit("\" data-y=\"");
    reveal_strlit("\" data-reflected=\"");
    let x = int_chars(p.loc.x as int);
    let y = int_chars(p.loc.y as int);
    let op = orient_part(p.orientation, p.loc);
    let pre = "<g class=\"port\" data-name=\""@;
    lemma_int_chars_safe(p.loc.x as int);
    lemma_int_chars_safe(p.loc.y as int);
    lemma_sp_orient_enc(p.orientation, p.loc, "port"@);
    // Not an instance line (they differ where the class names differ), not a
    // wire line.
    assert(port_line(p)[10] == 'p');
    assert("<g class=\"instance\" data-name=\""@[10] == 'i');
    lemma_lit_mismatch(port_line(p), "<g class=\"instance\" data-name=\""@, 10);
    assert("<path class=\"wire\" data-name=\""@[1] == 'p');
    lemma_lit_mismatch(port_line(p), "<path class=\"wire\" data-name=\""@, 1);
    // The port prefix matches.
    let r4 = y + op;
    let r3 = x + ("\" data-y=\""@ + r4);
    let t2 = " data-x=\""@ + r3;
    let rest = p.name + (seq!['"'] + t2);
    assert(port_line(p) =~= pre + rest);
    lemma_sp_lit(pre, rest);
    assert(rest =~= p.name + seq!['"'] + t2);
    lemma_sp_quoted(p.name, t2);
    lemma_sp_lit(" data-x=\""@, r3);
    assert(r3 =~= x + ("\" data-y=\""@ + r4));
    assert(("\" data-y=\""@ + r4)[0] == '"');
    lemma_sp_int_inversion(p.loc.x as int, "\" data-y=\""@ + r4);
    lemma_sp_lit("\" data-y=\""@, r4);
    assert(r4 =~= y + op);
    assert(op[0] == '"');
    lemma_sp_int_inversion(p.loc.y as int, op);
    assert(PortV { name: p.name, loc: Point { x: p.loc.x, y: p.loc.y }, orientation: p.orientation }
        =~= p);
}

#[verifier::rlimit(100)]
proof fn lemma_wire_line(w: WireV)
    requires
        qsafe(w.name),
        w.points.len() >= 1,
    ensures
        crate::encode::enc_wire(w) == wire_line(w) + seq!['\n'],
        no_nl(wire_line(w)),
        wire_line(w) != "</svg>"@,
        crate::decode::sp_element(wire_line(w)) == Ok::<
            crate::decode::ElemV,
            crate::error::SvgErrorV,
        >(crate::decode::ElemV::WireEl(w)),
{
    reveal_strlit("<g class=\"instance\" data-name=\"");
    reveal_strlit("<path class=\"wire\" data-name=\"");
    reveal_strlit("\" d=\"");
    reveal_strlit(" d=\"");
    reveal_strlit("\"/>\n");
    reveal_strlit("\"/>");
    reveal_strlit("/>");
    reveal_strlit("</svg>");
    let pc = path_chars(w.points);
    lemma_sp_path_enc(w.points);
    assert(crate::encode::enc_wire(w) =~= wire_line(w) + seq!['\n']);
    let pre = "<path class=\"wire\" data-name=\""@;
    assert(no_nl(pre));
    assert(no_nl("\" d=\""@));
    assert(no_nl("\"/>"@));
    lemma_qsafe_no_nl(w.name);
    lemma_qsafe_no_nl(pc);
    lemma_no_nl_concat(pre, w.name);
    lemma_no_nl_concat(pre + w.name, "\" d=\""@);
    lemma_no_nl_concat(pre + w.name + "\" d=\""@, pc);
    lemma_no_nl_concat(pre + w.name + "\" d=\""@ + pc, "\"/>"@);
    assert(wire_line(w)[1] == 'p');
    assert("</svg>"@[1] == '/');
    assert("<g class=\"instance\" data-name=\""@[1] == 'g');
    lemma_lit_mismatch(wire_line(w), "<g class=\"instance\" data-name=\""@, 1);
    let t2 = pc + (seq!['"'] + "/>"@);
    let t1 = " d=\""@ + t2;
    let rest = w.name + (seq!['"'] + t1);
    assert(wire_line(w) =~= pre + rest);
    lemma_sp_lit(pre, rest);
    assert(rest =~= w.name + seq!['"'] + t1);
    lemma_sp_quoted(w.name, t1);
    lemma_sp_lit(" d=\""@, t2);
    assert(t2 =~= pc + seq!['"'] + "/>"@);
    lemma_sp_quoted(pc, "/>"@);
    lemma_sp_lit("/>"@, Seq::<char>::empty());
    assert("/>"@ =~= "/>"@ + Seq::<char>::empty());
    assert(WireV { name: w.name, points: w.points } =~= w);
}

#[verifier::rlimit(100)]
proof fn lemma_dot_line(d: Point)
    ensures
        crate::encode::enc_dot(d) == dot_line(d) + seq!['\n'],
        no_nl(dot_line(d)),
        dot_line(d) != "</svg>"@,
        crate::decode::sp_element(dot_line(d)) == Ok::<
            crate::decode::ElemV,
            crate::error::SvgErrorV,
        >(crate::decode::ElemV::DotEl(d)),
{
    reveal_strlit("<g class=\"instance\" data-name=\"");
    reveal_strlit("<path class=\"wire\" data-name=\"");
    reveal_strlit("<g class=\"port\" data-name=\"");
    reveal_strlit("<circle class=\"dot\" cx=\"");
    reveal_strlit("\" cy=\"");
    reveal_strlit("\" r=\"");
    reveal_strlit("2");
    reveal_strlit("\"/>\n");
    reveal_strlit("\"/>");
    reveal_strlit("/>");
    reveal_strlit("</svg>");
    let x = int_chars(d.x as int);
    let y = int_chars(d.y as int);
    lemma_int_chars_safe(d.x as int);
    lemma_int_chars_safe(d.y as int);
    assert(crate::encode::enc_dot(d) =~= dot_line(d) + seq!['\n']);
    let pre = "<circle class=\"dot\" cx=\""@;
    assert(no_nl(pre));
    assert(no_nl("\" cy=\""@));
    assert(no_nl("\" r=\""@));
    assert(no_nl("2"@));
    assert(no_nl("\"/>"@));
    lemma_qsafe_no_nl(x);
    lemma_qsafe_no_nl(y);
    lemma_no_nl_concat(pre, x);
    lemma_no_nl_concat(pre + x, "\" cy=\""@);
    lemma_no_nl_concat(pre + x + "\" cy=\""@, y);
    lemma_no_nl_concat(pre + x + "\" cy=\""@ + y, "\" r=\""@);
    lemma_no_nl_concat(pre + x + "\" cy=\""@ + y + "\" r=\""@, "2"@);
    lemma_no_nl_concat(pre + x + "\" cy=\""@ + y + "\" r=\""@ + "2"@, "\"/>"@);
    assert(dot_line(d)[1] == 'c');
    assert("</svg>"@[1] == '/');
    assert("<g class=\"instance\" data-name=\""@[1] == 'g');
    assert("<path class=\"wire\" data-name=\""@[1] == 'p');
    assert("<g class=\"port\" data-name=\""@[1] == 'g');
    lemma_lit_mismatch(dot_line(d), "<g class=\"instance\" data-name=\""@, 1);
    lemma_lit_mismatch(dot_line(d), "<path class=\"wire\" data-name=\""@, 1);
    lemma_lit_mismatch(dot_line(d), "<g class=\"port\" data-name=\""@, 1);
    let t3 = seq!['"'] + "/>"@;
    let r2 = "2"@ + t3;
    let t2 = "\" r=\""@ + r2;
    let r1 = y + t2;
    let t1 = "\" cy=\""@ + r1;
    let rest = x + t1;
    assert(dot_line(d) =~= pre + rest);
    lemma_sp_lit(pre, rest);
    assert(rest =~= x + t1);
    assert(t1[0] == '"');
    lemma_sp_int_inversion(d.x as int, t1);
    lemma_sp_lit("\" cy=\""@, r1);
    assert(r1 =~= y + t2);
    assert(t2[0] == '"');
    lemma_sp_int_inversion(d.y as int, t2);
    lemma_sp_lit("\" r=\""@, r2);
    assert(qsafe("2"@));
    assert(r2 =~= "2"@ + seq!['"'] + "/>"@);
    lemma_sp_quoted("2"@, "/>"@);
    lemma_sp_lit("/>"@, Seq::<char>::empty());
    assert("/>"@ =~= "/>"@ + Seq::<char>::empty());
    assert(Point { x: d.x, y: d.y } =~= d);
}

proof fn lemma_elems_footer(strict: bool)
    ensures
        crate::decode::sp_elements("</svg>\n"@, strict) == Ok::<
            crate::decode::ElemsV,
            crate::error::SvgErrorV,
        >(crate::decode::elems_empty()),
{
    reveal_strlit("</svg>\n");
    reveal_strlit("</svg>");
    let s = "</svg>\n"@;
    assert(no_nl("</svg>"@));
    assert(s =~= "</svg>"@ + seq!['\n'] + Seq::<char>::empty());
    crate::text::lemma_sp_line("</svg>"@, Seq::<char>::empty());
}

proof fn lemma_elems_dots(ds: Seq<Point>, rest: Seq<char>, restv: crate::decode::ElemsV, strict: bool)
    requires
        crate::decode::sp_elements(rest, strict) == Ok::<
            crate::decode::ElemsV,
            crate::error::SvgErrorV,
        >(restv),
    ensures
        crate::decode::sp_elements(crate::encode::enc_dots(ds) + rest, strict) == Ok::<
            crate::decode::ElemsV,
            crate::error::SvgErrorV,
        >(crate::decode::ElemsV { dots: ds + restv.dots, ..restv }),
    decreases ds.len(),
{
    reveal_strlit("</svg>");
    if ds.len() == 0 {
        assert(crate::encode::enc_dots(ds) + rest =~= rest);
        assert((crate::decode::ElemsV { dots: ds + restv.dots, ..restv }) =~= restv);
    } else {
        let d0 = ds[0];
        lemma_dot_line(d0);
        lemma_elems_dots(ds.skip(1), rest, restv, strict);
        let tail = crate::encode::enc_dots(ds.skip(1)) + rest;
        let s = crate::encode::enc_dots(ds) + rest;
        assert(s =~= dot_line(d0) + seq!['\n'] + tail);
        crate::text::lemma_sp_line(dot_line(d0), tail);
        let es = crate::decode::sp_elements(tail, strict)->Ok_0;
        assert(seq![d0] + (ds.skip(1) + restv.dots) =~= ds + restv.dots);
        assert(crate::decode::elems_cons(crate::decode::ElemV::DotEl(d0), es) =~= (
        crate::decode::ElemsV { dots: ds + restv.dots, ..restv }));
    }
}

#[verifier::rlimit(100)]
proof fn lemma_elems_ports(
    ps: Seq<PortV>,
    rest: Seq<char>,
    restv: crate::decode::ElemsV,
    strict: bool,
)
    requires
        forall|k: int| 0 <= k < ps.len() ==> qsafe(#[trigger] ps[k].name),
        crate::decode::sp_elements(rest, strict) == Ok::<
            crate::decode::ElemsV,
            crate::error::SvgErrorV,
        >(restv),
    ensures
        crate::decode::sp_elements(crate::encode::enc_ports(ps) + rest, strict) == Ok::<
            crate::decode::ElemsV,
            crate::error::SvgErrorV,
        >(crate::decode::ElemsV { ports: ps + restv.ports, ..restv }),
    decreases ps.len(),
{
    reveal_strlit("</svg>");
    if ps.len() == 0 {
        assert(crate::encode::enc_ports(ps) + rest =~= rest);
        assert((crate::decode::ElemsV { ports: ps + restv.ports, ..restv }) =~= restv);
    } else {
        let p0 = ps[0];
        assert(qsafe(ps[0].name));
        lemma_port_line_shape(p0);
        lemma_port_line_parse(p0);
        assert forall|k: int| 0 <= k < ps.skip(1).len() implies qsafe(
            #[trigger] ps.skip(1)[k].name,
        ) by {
            assert(ps.skip(1)[k] == ps[k + 1]);
        }
        lemma_elems_ports(ps.skip(1), rest, restv, strict);
        let tail = crate::encode::enc_ports(ps.skip(1)) + rest;
        let s = crate::encode::enc_ports(ps) + rest;
        assert(s =~= port_line(p0) + seq!['\n'] + tail);
        crate::text::lemma_sp_line(port_line(p0), tail);
        let es = crate::decode::sp_elements(tail, strict)->Ok_0;
        assert(seq![p0] + (ps.skip(1) + restv.ports) =~= ps + restv.ports);
        assert(crate::decode::elems_cons(crate::decode::ElemV::PortEl(p0), es) =~= (
        crate::decode::ElemsV { ports: ps + restv.ports, ..restv }));
    }
}

#[verifier::rlimit(100)]
proof fn lemma_elems_wires(
    ws: Seq<WireV>,
    rest: Seq<char>,
    restv: crate::decode::ElemsV,
    strict: bool,
)
    requires
        forall|k: int|
            0 <= k < ws.len() ==> qsafe(#[trigger] ws[k].name) && ws[k].points.len() >= 1,
        crate::decode::sp_elements(rest, strict) == Ok::<
            crate::decode::ElemsV,
            crate::error::SvgErrorV,
        >(restv),
    ensures
        crate::decode::sp_elements(crate::encode::enc_wires(ws) + rest, strict) == Ok::<
            crate::decode::ElemsV,
            crate::error::SvgErrorV,
        >(crate::decode::ElemsV { wires: ws + restv.wires, ..restv }),
    decreases ws.len(),
{
    reveal_strlit("</svg>");
    if ws.len() == 0 {
        assert(crate::encode::enc_wires(ws) + rest =~= rest);
        assert((crate::decode::ElemsV { wires: ws + restv.wires, ..restv }) =~= restv);
    } else {
        let w0 = ws[0];
        assert(qsafe(ws[0].name) && ws[0].points.len() >= 1);
        lemma_wire_line(w0);
        assert forall|k: int| 0 <= k < ws.skip(1).len() implies qsafe(#[trigger] ws.skip(1)[k].name)
            && ws.skip(1)[k].points.len() >= 1 by {
            assert(ws.skip(1)[k] == ws[k + 1]);
        }
        lemma_elems_wires(ws.skip(1), rest, restv, strict);
        let tail = crate::encode::enc_wires(ws.skip(1)) + rest;
        let s = crate::encode::enc_wires(ws) + rest;
        assert(s =~= wire_line(w0) + seq!['\n'] + tail);
        crate::text::lemma_sp_line(wire_line(w0), tail);
        let es = crate::decode::sp_elements(tail, strict)->Ok_0;
        assert(seq![w0] + (ws.skip(1) + restv.wires) =~= ws + restv.wires);
        assert(crate::decode::elems_cons(crate::decode::ElemV::WireEl(w0), es) =~= (
        crate::decode::ElemsV { wires: ws + restv.wires, ..restv }));
    }
}

#[verifier::rlimit(100)]
proof fn lemma_elems_insts(
    is: Seq<InstanceV>,
    rest: Seq<char>,
    restv: crate::decode::ElemsV,
    strict: bool,
)
    requires
        forall|k: int| 0 <= k < is.len() ==> qsafe(#[trigger] is[k].name),
        forall|k: int| 0 <= k < is.len() ==> qsafe(#[trigger] is[k].of),
        crate::decode::sp_elements(rest, strict) == Ok::<
            crate::decode::ElemsV,
            crate::error::SvgErrorV,
        >(restv),
    ensures
        crate::decode::sp_elements(crate::encode::enc_instances(is) + rest, strict) == Ok::<
            crate::decode::ElemsV,
            crate::error::SvgErrorV,
        >(crate::decode::ElemsV { instances: is + restv.instances, ..restv }),
    decreases is.len(),
{
    reveal_strlit("</svg>");
    if is.len() == 0 {
        assert(crate::encode::enc_instances(is) + rest =~= rest);
        assert((crate::decode::ElemsV { instances: is + restv.instances, ..restv }) =~= restv);
    } else {
        let i0 = is[0];
        assert(qsafe(is[0].name) && qsafe(is[0].of));
        lemma_inst_line_shape(i0);
        lemma_inst_line_parse(i0);
        assert forall|k: int| 0 <= k < is.skip(1).len() implies qsafe(
            #[trigger] is.skip(1)[k].name,
        ) by {
            assert(is.skip(1)[k] == is[k + 1]);
        }
        assert forall|k: int| 0 <= k < is.skip(1).len() implies qsafe(
            #[trigger] is.skip(1)[k].of,
        ) by {
            assert(is.skip(1)[k] == is[k + 1]);
        }
        lemma_elems_insts(is.skip(1), rest, restv, strict);
        let tail = crate::encode::enc_instances(is.skip(1)) + rest;
        let s = crate::encode::enc_instances(is) + rest;
        assert(s =~= inst_line(i0) + seq!['\n'] + tail);
        crate::text::lemma_sp_line(inst_line(i0), tail);
        let es = crate::decode::sp_elements(tail, strict)->Ok_0;
        assert(seq![i0] + (is.skip(1) + restv.instances) =~= is + restv.instances);
        assert(crate::decode::elems_cons(crate::decode::ElemV::Inst(i0), es) =~= (
        crate::decode::ElemsV { instances: is + restv.instances, ..restv }));
    }
}

/// Parsing the metadata region around an emitted prelude recovers exactly
/// its lines, provided no prelude line spells the region's closing tag.
proof fn lemma_sp_prelude_enc(p: Seq<char>, t: Seq<char>)
    requires
        forall|k: int|
            0 <= k < split_lines(p).len() ==> #[trigger] split_lines(p)[k] != "</metadata>"@,
    ensures
        crate::decode::sp_prelude(p + "\n</metadata>\n"@ + t) == Some((split_lines(p), t)),
    decreases p.len(),
{
    reveal_strlit("\n</metadata>\n");
    reveal_strlit("</metadata>");
    let sent = "</metadata>"@;
    let s = p + "\n</metadata>\n"@ + t;
    crate::text::lemma_sp_line_none(p);
    if crate::text::sp_line(p) is None {
        assert(no_nl(p));
        crate::text::lemma_split_lines_single(p);
        assert(s =~= p + seq!['\n'] + (sent + (seq!['\n'] + t)));
        crate::text::lemma_sp_line(p, sent + (seq!['\n'] + t));
        assert(split_lines(p)[0] == p);
        assert(p != sent);
        assert(no_nl(sent));
        assert(sent + (seq!['\n'] + t) =~= sent + seq!['\n'] + t);
        crate::text::lemma_sp_line(sent, t);
        assert(crate::decode::sp_prelude(sent + seq!['\n'] + t) == Some(
            (Seq::<Seq<char>>::empty(), t),
        ));
        assert(seq![p] + Seq::<Seq<char>>::empty() =~= seq![p]);
    } else {
        let lr = crate::text::sp_line(p)->Some_0;
        crate::text::lemma_sp_line_len(p);
        crate::text::lemma_split_lines_cons(lr.0, lr.1);
        assert(p == lr.0 + seq!['\n'] + lr.1);
        assert(split_lines(p) == seq![lr.0] + split_lines(lr.1));
        assert forall|k: int| 0 <= k < split_lines(lr.1).len() implies #[trigger] split_lines(
            lr.1,
        )[k] != sent by {
            assert(split_lines(p)[k + 1] == split_lines(lr.1)[k]);
        }
        lemma_sp_prelude_enc(lr.1, t);
        assert(s =~= lr.0 + seq!['\n'] + (lr.1 + "\n</metadata>\n"@ + t));
        crate::text::lemma_sp_line(lr.0, lr.1 + "\n</metadata>\n"@ + t);
        assert(split_lines(p)[0] == lr.0);
        assert(lr.0 != sent);
        assert(seq![lr.0] + split_lines(lr.1) =~= split_lines(p));
    }
}

/// The schematic's text fields can stand in markup unchanged: names hold no
/// quote or newline, and no prelude line spells the metadata closing tag.
pub open spec fn markup_safe(s: SchematicV) -> bool {
    &&& qsafe(s.name)
    &&& forall|k: int|
        0 <= k < s.instances.len() ==> qsafe(#[trigger] s.instances[k].name) && qsafe(
            s.instances[k].of,
        )
    &&& forall|k: int| 0 <= k < s.wires.len() ==> qsafe(#[trigger] s.wires[k].name)
    &&& forall|k: int| 0 <= k < s.ports.len() ==> qsafe(#[trigger] s.ports[k].name)
    &&& forall|k: int|
        0 <= k < split_lines(s.prelude).len() ==> #[trigger] split_lines(s.prelude)[k]
            != "</metadata>"@
}

/// Round trip: decoding the encoder's output recovers the encoded schematic
/// exactly, field for field — point order in wires and the exact
/// `(reflected, rotation)` pair of every placed element included — in strict
/// and in non-strict mode alike.
/// Walking the header and metadata region of encoded text reaches the
/// element section with the header fields recovered exactly.
/// The encoded text, reassociated for the decoder's sequential walk.
#[verifier::rlimit(100)]
proof fn lemma_header_text(s: SchematicV)
    ensures
        crate::encode::spec_encode(s) == "<svg xmlns=\"http://www.w3.org/2000/svg\" width=\""@ + (
        int_chars(s.size.x as int) + ("\" height=\""@ + (int_chars(s.size.y as int) + (
        "\" data-name=\""@ + (s.name + (seq!['"'] + (">\n<metadata>\n"@ + (s.prelude + (
        "\n</metadata>\n"@ + (crate::encode::enc_instances(s.instances) + (
        crate::encode::enc_wires(s.wires) + (crate::encode::enc_ports(s.ports) + (
        crate::encode::enc_dots(s.dots) + "</svg>\n"@))))))))))))),
{
    reveal_strlit("\">\n");
    reveal_strlit(">\n");
    reveal_strlit(">\n<metadata>\n");
    reveal_strlit("<metadata>\n");
    let l1 = "<svg xmlns=\"http://www.w3.org/2000/svg\" width=\""@;
    let sxs = int_chars(s.size.x as int);
    let l2 = "\" height=\""@;
    let sys = int_chars(s.size.y as int);
    let l3 = "\" data-name=\""@;
    let nm = s.name;
    let q = "\">\n"@;
    let m = "<metadata>\n"@;
    let p = s.prelude;
    let sent = "\n</metadata>\n"@;
    let e1 = crate::encode::enc_instances(s.instances);
    let e2 = crate::encode::enc_wires(s.wires);
    let e3 = crate::encode::enc_ports(s.ports);
    let e4 = crate::encode::enc_dots(s.dots);
    let f = "</svg>\n"@;
    let h = crate::encode::enc_header(s.name, s.size);
    // Right-associate the element section.
    lemma_assoc(h + m + p + sent + e1 + e2 + e3, e4, f);
    lemma_assoc(h + m + p + sent + e1 + e2, e3, e4 + f);
    lemma_assoc(h + m + p + sent + e1, e2, e3 + (e4 + f));
    lemma_assoc(h + m + p + sent, e1, e2 + (e3 + (e4 + f)));
    let e = e1 + (e2 + (e3 + (e4 + f)));
    // Right-associate the metadata region.
    lemma_assoc(h + m + p, sent, e);
    lemma_assoc(h + m, p, sent + e);
    lemma_assoc(h, m, p + (sent + e));
    // Right-associate the header.
    let rest0 = m + (p + (sent + e));
    lemma_assoc(l1 + sxs + l2 + sys + l3 + nm, q, rest0);
    lemma_assoc(l1 + sxs + l2 + sys + l3, nm, q + rest0);
    lemma_assoc(l1 + sxs + l2 + sys, l3, nm + (q + rest0));
    lemma_assoc(l1 + sxs + l2, sys, l3 + (nm + (q + rest0)));
    lemma_assoc(l1 + sxs, l2, sys + (l3 + (nm + (q + rest0))));
    lemma_assoc(l1, sxs, l2 + (sys + (l3 + (nm + (q + rest0)))));
    // Split the header's closing characters and fuse them with the metadata
    // opening line.
    assert(q =~= seq!['"'] + ">\n"@);
    let x = p + (sent + e);
    lemma_assoc(seq!['"'], ">\n"@, m + x);
    assert(">\n"@ + m =~= ">\n<metadata>\n"@);
    lemma_assoc(">\n"@, m, x);
    assert(q + rest0 == seq!['"'] + (">\n<metadata>\n"@ + x));
}

#[verifier::rlimit(100)]
proof fn lemma_header_walk(s: SchematicV, strict: bool)
    requires
        crate::validate::spec_valid(s),
        markup_safe(s),
    ensures
        crate::decode::sp_doc(crate::encode::spec_encode(s), strict) == crate::decode::sp_doc_tail(
            s.name,
            s.size.x as int,
            s.size.y as int,
            split_lines(s.prelude),
            crate::encode::enc_instances(s.instances) + (crate::encode::enc_wires(s.wires) + (
            crate::encode::enc_ports(s.ports) + (crate::encode::enc_dots(s.dots) + "</svg>\n"@))),
            strict,
        ),
{
    reveal_strlit("<svg xmlns=\"http://www.w3.org/2000/svg\" width=\"");
    reveal_strlit("\" height=\"");
    reveal_strlit("\" data-name=\"");
    reveal_strlit(">\n<metadata>\n");
    reveal_strlit("\n</metadata>\n");
    let t = crate::encode::spec_encode(s);
    let sx = int_chars(s.size.x as int);
    let sy = int_chars(s.size.y as int);
    lemma_int_chars_safe(s.size.x as int);
    lemma_int_chars_safe(s.size.y as int);
    let e = crate::encode::enc_instances(s.instances) + (crate::encode::enc_wires(s.wires) + (
    crate::encode::enc_ports(s.ports) + (crate::encode::enc_dots(s.dots) + "</svg>\n"@)));
    let lit1 = "<svg xmlns=\"http://www.w3.org/2000/svg\" width=\""@;
    let r5 = s.prelude + ("\n</metadata>\n"@ + e);
    let r4 = ">\n<metadata>\n"@ + r5;
    let r3 = s.name + (seq!['"'] + r4);
    let r2 = sy + ("\" data-name=\""@ + r3);
    let r1 = sx + ("\" height=\""@ + r2);
    lemma_header_text(s);
    assert(t == lit1 + r1);
    lemma_sp_lit(lit1, r1);
    assert(("\" height=\""@ + r2)[0] == '"');
    lemma_sp_int_inversion(s.size.x as int, "\" height=\""@ + r2);
    lemma_sp_lit("\" height=\""@, r2);
    assert(("\" data-name=\""@ + r3)[0] == '"');
    lemma_sp_int_inversion(s.size.y as int, "\" data-name=\""@ + r3);
    lemma_sp_lit("\" data-name=\""@, r3);
    assert(r3 =~= s.name + seq!['"'] + r4);
    lemma_sp_quoted(s.name, r4);
    lemma_sp_lit(">\n<metadata>\n"@, r5);
    assert(r5 =~= s.prelude + "\n</metadata>\n"@ + e);
    lemma_sp_prelude_enc(s.prelude, e);
}

/// Round trip: decoding the encoder's output recovers the encoded schematic
/// exactly, field for field — point order in wires and the exact
/// `(reflected, rotation)` pair of every placed element included — in strict
/// and in non-strict mode alike.
#[verifier::rlimit(100)]
pub proof fn lemma_round_trip(s: SchematicV, strict: bool)
    requires
        crate::validate::spec_valid(s),
        markup_safe(s),
    ensures
        crate::decode::sp_doc(crate::encode::spec_encode(s), strict) == Ok::<
            SchematicV,
            crate::error::SvgErrorV,
        >(s),
{
    lemma_header_walk(s, strict);
    lemma_elems_all(s, strict);

    // Assembly gives back exactly `s`.
    let ev0 = crate::decode::ElemsV {
        instances: s.instances,
        wires: s.wires,
        ports: s.ports,
        dots: s.dots,
        extra: Seq::<Seq<char>>::empty(),
    };
    assert(split_lines(s.prelude) + ev0.extra =~= split_lines(s.prelude));
    crate::text::lemma_join_split(s.prelude);
    let schv = SchematicV {
        name: s.name,
        prelude: crate::text::join_lines(split_lines(s.prelude) + ev0.extra),
        size: Point { x: s.size.x, y: s.size.y },
        instances: ev0.instances,
        wires: ev0.wires,
        ports: ev0.ports,
        dots: ev0.dots,
    };
    assert(schv =~= s);
    crate::validate::lemma_valid_iff_no_violations(s);
}

/// Parsing the emitted element section classifies every element back,
/// in order, with nothing unrecognized.
#[verifier::rlimit(100)]
proof fn lemma_elems_back(s: SchematicV, strict: bool)
    requires
        crate::validate::spec_valid(s),
        markup_safe(s),
    ensures
        crate::decode::sp_elements(
            crate::encode::enc_ports(s.ports) + (crate::encode::enc_dots(s.dots) + "</svg>\n"@),
            strict,
        ) == Ok::<crate::decode::ElemsV, crate::error::SvgErrorV>(
            crate::decode::ElemsV {
                instances: Seq::<InstanceV>::empty(),
                wires: Seq::<WireV>::empty(),
                ports: s.ports,
                dots: s.dots,
                extra: Seq::<Seq<char>>::empty(),
            },
        ),
{
    assert forall|k: int| 0 <= k < s.ports.len() implies qsafe(#[trigger] s.ports[k].name) by {}
    lemma_elems_footer(strict);
    lemma_elems_dots(s.dots, "</svg>\n"@, crate::decode::elems_empty(), strict);
    let ev3 = crate::decode::ElemsV {
        dots: s.dots + crate::decode::elems_empty().dots,
        ..crate::decode::elems_empty()
    };
    lemma_elems_ports(s.ports, crate::encode::enc_dots(s.dots) + "</svg>\n"@, ev3, strict);
    let ev2 = crate::decode::ElemsV { ports: s.ports + ev3.ports, ..ev3 };
    assert(ev2.ports =~= s.ports);
    assert(ev2.dots =~= s.dots);
    assert(ev2 =~~= (crate::decode::ElemsV {
        instances: Seq::<InstanceV>::empty(),
        wires: Seq::<WireV>::empty(),
        ports: s.ports,
        dots: s.dots,
        extra: Seq::<Seq<char>>::empty(),
    }));
}

#[verifier::rlimit(100)]
proof fn lemma_elems_all(s: SchematicV, strict: bool)
    requires
        crate::validate::spec_valid(s),
        markup_safe(s),
    ensures
        crate::decode::sp_elements(
            crate::encode::enc_instances(s.instances) + (crate::encode::enc_wires(s.wires) + (
            crate::encode::enc_ports(s.ports) + (crate::encode::enc_dots(s.dots) + "</svg>\n"@))),
            strict,
        ) == Ok::<crate::decode::ElemsV, crate::error::SvgErrorV>(
            crate::decode::ElemsV {
                instances: s.instances,
                wires: s.wires,
                ports: s.ports,
                dots: s.dots,
                extra: Seq::<Seq<char>>::empty(),
            },
        ),
{
    assert forall|k: int| 0 <= k < s.instances.len() implies qsafe(
        #[trigger] s.instances[k].name,
    ) by {
        assert(markup_safe(s));
    }
    assert forall|k: int| 0 <= k < s.instances.len() implies qsafe(
        #[trigger] s.instances[k].of,
    ) by {
        assert(markup_safe(s));
        assert(qsafe(s.instances[k].name));
    }
    assert forall|k: int| 0 <= k < s.wires.len() implies qsafe(#[trigger] s.wires[k].name)
        && s.wires[k].points.len() >= 1 by {
        assert(markup_safe(s));
        assert(qsafe(s.wires[k].name));
        assert(s.wires[k].points.len() >= 2);
    }
    lemma_elems_back(s, strict);
    let ev2 = crate::decode::ElemsV {
        instances: Seq::<InstanceV>::empty(),
        wires: Seq::<WireV>::empty(),
        ports: s.ports,
        dots: s.dots,
        extra: Seq::<Seq<char>>::empty(),
    };
    lemma_elems_wires(
        s.wires,
        crate::encode::enc_ports(s.ports) + (crate::encode::enc_dots(s.dots) + "</svg>\n"@),
        ev2,
        strict,
    );
    let ev1 = crate::decode::ElemsV { wires: s.wires + ev2.wires, ..ev2 };
    lemma_elems_insts(
        s.instances,
        crate::encode::enc_wires(s.wires) + (crate::encode::enc_ports(s.ports) + (
        crate::encode::enc_dots(s.dots) + "</svg>\n"@)),
        ev1,
        strict,
    );
    let ev0 = crate::decode::ElemsV { instances: s.instances + ev1.instances, ..ev1 };
    assert(ev0.instances =~= s.instances);
    assert(ev0.wires =~= s.wires);
    assert(ev0.ports =~= s.ports);
    assert(ev0.dots =~= s.dots);
    assert(ev0.extra =~= Seq::<Seq<char>>::empty());
    assert(ev0 =~= (crate::decode::ElemsV {
        instances: s.instances,
        wires: s.wires,
        ports: s.ports,
        dots: s.dots,
        extra: Seq::<Seq<char>>::empty(),
    }));
}

/// Idempotent re-encode: encoding what the decoder recovered from encoded
/// text reproduces that text, character for character.
pub proof fn lemma_reencode_idempotent(s: SchematicV, strict: bool)
    requires
        crate::validate::spec_valid(s),
        markup_safe(s),
    ensures
        crate::decode::sp_doc(crate::encode::spec_encode(s), strict) is Ok,
        crate::encode::spec_encode(
            crate::decode::sp_doc(crate::encode::spec_encode(s), strict)->Ok_0,
        ) == crate::encode::spec_encode(s),
{
    lemma_round_trip(s, strict);
}

} // verus!
