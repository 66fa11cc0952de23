//! Schematic invariant checking: every violation is reported in one pass,
//! never truncated to the first.

use crate::error::{view_violations, Violation, ViolationV};
use crate::point::Point;
use crate::schematic::{InstanceV, PortV, Schematic, SchematicV, WireV};
use vstd::prelude::*;

verus! {

/// All instance and port names of a schematic, instances first: together
/// they must form a unique-name set.
pub open spec fn all_names(s: SchematicV) -> Seq<Seq<char>> {
    s.instances.map_values(|i: InstanceV| i.name) + s.ports.map_values(|p: PortV| p.name)
}

/// No name occurs twice.
pub open spec fn names_unique(names: Seq<Seq<char>>) -> bool {
    forall|i: int, j: int| 0 <= i < j < names.len() ==> names[i] != names[j]
}

/// Name `i` repeats an earlier name.
pub open spec fn dup_at(names: Seq<Seq<char>>, i: int) -> bool {
    exists|j: int| 0 <= j < i && names[j] == names[i]
}

/// Duplicate-name violations among the first `n` names, in order.
pub open spec fn dup_violations(names: Seq<Seq<char>>, n: int) -> Seq<ViolationV>
    decreases n,
{
    if n <= 0 {
        Seq::empty()
    } else {
        dup_violations(names, n - 1) + (if dup_at(names, n - 1) {
            seq![ViolationV::DuplicateName { name: names[n - 1] }]
        } else {
            Seq::empty()
        })
    }
}

/// Short-wire violations among the first `n` wires, in order.
pub open spec fn wire_violations(wires: Seq<WireV>, n: int) -> Seq<ViolationV>
    decreases n,
{
    if n <= 0 {
        Seq::empty()
    } else {
        wire_violations(wires, n - 1) + (if wires[n - 1].points.len() < 2 {
            seq![ViolationV::ShortWire { name: wires[n - 1].name }]
        } else {
            Seq::empty()
        })
    }
}

/// The negative-size violation, if a canvas component is negative.
pub open spec fn size_violations(size: Point) -> Seq<ViolationV> {
    if size.x < 0 || size.y < 0 {
        seq![ViolationV::NegativeSize]
    } else {
        Seq::empty()
    }
}

/// Every invariant violation of `s`, in one deterministic order: duplicate
/// names, then short wires, then negative size.
pub open spec fn spec_violations(s: SchematicV) -> Seq<ViolationV> {
    dup_violations(all_names(s), all_names(s).len() as int) + wire_violations(
        s.wires,
        s.wires.len() as int,
    ) + size_violations(s.size)
}

/// The global invariants of a schematic: unique names, wires of at least two
/// points, non-negative canvas size.
pub open spec fn spec_valid(s: SchematicV) -> bool {
    &&& names_unique(all_names(s))
    &&& forall|k: int| 0 <= k < s.wires.len() ==> s.wires[k].points.len() >= 2
    &&& s.size.x >= 0
    &&& s.size.y >= 0
}

proof fn lemma_dup_violations_empty(names: Seq<Seq<char>>, n: int)
    ensures
        dup_violations(names, n).len() == 0 <==> (forall|i: int|
            0 <= i < n ==> !dup_at(names, i)),
    decreases n,
{
    if n > 0 {
        lemma_dup_violations_empty(names, n - 1);
    }
}

proof fn lemma_wire_violations_empty(wires: Seq<WireV>, n: int)
    ensures
        wire_violations(wires, n).len() == 0 <==> (forall|k: int|
            0 <= k < n ==> wires[k].points.len() >= 2),
    decreases n,
{
    if n > 0 {
        lemma_wire_violations_empty(wires, n - 1);
    }
}

proof fn lemma_unique_iff_no_dup_at(names: Seq<Seq<char>>)
    ensures
        names_unique(names) <==> (forall|i: int| 0 <= i < names.len() ==> !dup_at(names, i)),
{
    if names_unique(names) {
        assert forall|i: int| 0 <= i < names.len() implies !dup_at(names, i) by {
            if dup_at(names, i) {
                let j = choose|j: int| 0 <= j < i && names[j] == names[i];
                assert(names[j] != names[i]);
            }
        }
    }
    if forall|i: int| 0 <= i < names.len() ==> !dup_at(names, i) {
        assert forall|i: int, j: int| 0 <= i < j < names.len() implies names[i] != names[j] by {
            if names[i] == names[j] {
                assert(dup_at(names, j));
            }
        }
    }
}

/// A schematic is valid exactly when its violation list is empty.
pub proof fn lemma_valid_iff_no_violations(s: SchematicV)
    ensures
        spec_valid(s) <==> spec_violations(s).len() == 0,
{
    lemma_dup_violations_empty(all_names(s), all_names(s).len() as int);
    lemma_wire_violations_empty(s.wires, s.wires.len() as int);
    lemma_unique_iff_no_dup_at(all_names(s));
}

/// Check all schematic invariants, returning every violation found: the
/// result is empty exactly when `s` is valid.
pub fn validate(s: &Schematic) -> (v: Vec<Violation>)
    ensures
        view_violations(v@) == spec_violations(s@),
        v.len() == 0 <==> spec_valid(s@),
{
    let ghost gnames = all_names(s@);
    let mut names: Vec<String> = Vec::new();
    let mut idx: usize = 0;
    while idx < s.instances.len()
        invariant
            idx <= s.instances.len(),
            gnames == all_names(s@),
            names@.len() == idx,
            forall|k: int| 0 <= k < idx ==> names@[k]@ == gnames[k],
        decreases s.instances.len() - idx,
    {
        names.push(s.instances[idx].name.clone());
        idx += 1;
    }
    let mut pdx: usize = 0;
    while pdx < s.ports.len()
        invariant
            pdx <= s.ports.len(),
            gnames == all_names(s@),
            names@.len() == s.instances@.len() + pdx,
            forall|k: int| 0 <= k < names@.len() ==> names@[k]@ == gnames[k],
        decreases s.ports.len() - pdx,
    {
        names.push(s.ports[pdx].name.clone());
        pdx += 1;
    }
    assert(names@.len() == gnames.len());

    let mut out: Vec<Violation> = Vec::new();
    let mut i: usize = 0;
    while i < names.len()
        invariant
            i <= names.len(),
            gnames == all_names(s@),
            names@.len() == gnames.len(),
            forall|k: int| 0 <= k < names@.len() ==> names@[k]@ == gnames[k],
            view_violations(out@) == dup_violations(gnames, i as int),
        decreases names.len() - i,
    {
        let mut found = false;
        let mut j: usize = 0;
        while j < i
            invariant
                j <= i < names.len(),
                gnames == all_names(s@),
                names@.len() == gnames.len(),
                forall|k: int| 0 <= k < names@.len() ==> names@[k]@ == gnames[k],
                found <==> exists|jj: int| 0 <= jj < j && gnames[jj] == gnames[i as int],
            decreases i - j,
        {
            if names[j] == names[i] {
                found = true;
                assert(gnames[j as int] == gnames[i as int]);
            }
            j += 1;
        }
        assert(found <==> dup_at(gnames, i as int));
        if found {
            out.push(Violation::DuplicateName { name: names[i].clone() });
        }
        i += 1;
        assert(view_violations(out@) =~= dup_violations(gnames, i as int));
    }
    let ghost dups = dup_violations(gnames, gnames.len() as int);

    let mut w: usize = 0;
    while w < s.wires.len()
        invariant
            w <= s.wires.len(),
            gnames == all_names(s@),
            dups == dup_violations(gnames, gnames.len() as int),
            view_violations(out@) == dups + wire_violations(s@.wires, w as int),
        decreases s.wires.len() - w,
    {
        let ghost n = w as int;
        let ghost prev = out@;
        assert(s@.wires[n] == s.wires@[n]@);
        if s.wires[w].points.len() < 2 {
            out.push(Violation::ShortWire { name: s.wires[w].name.clone() });
            assert(view_violations(out@) =~= view_violations(prev) + seq![
                ViolationV::ShortWire { name: s@.wires[n].name },
            ]);
        }
        w += 1;
        assert(view_violations(out@) =~= dups + wire_violations(s@.wires, w as int));
    }

    if s.size.x < 0 || s.size.y < 0 {
        out.push(Violation::NegativeSize);
    }
    assert(view_violations(out@) =~= spec_violations(s@));
    proof {
        lemma_valid_iff_no_violations(s@);
    }
    out
}

} // verus!
