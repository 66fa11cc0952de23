//! The schematic data model: content of `Schematic`s, independent of SVG
//! formatting.

use crate::point::Point;
use vstd::prelude::*;

verus! {

/// Enumerated 90 degree rotations, clockwise.
#[derive(Clone, Copy, PartialEq, Eq, Structural, Debug)]
pub enum Rotation {
    R0,
    R90,
    R180,
    R270,
}

/// Orientation of a placed element: reflection and rotation.
/// Reflection is across the x axis (a vertical flip) and is applied *before*
/// rotation.
#[derive(Clone, Copy, PartialEq, Eq, Structural, Debug)]
pub struct Orientation {
    /// Vertical reflection across the x axis, before rotation.
    pub reflected: bool,
    /// 90 degree clockwise rotation, after reflection.
    pub rotation: Rotation,
}

/// Kinds of primitive circuit elements.
#[derive(Clone, Copy, PartialEq, Eq, Structural, Debug)]
pub enum PrimitiveKind {
    TBD,
}

/// Kinds of schematic ports.
#[derive(Clone, Copy, PartialEq, Eq, Structural, Debug)]
pub enum PortKind {
    TBD,
}

/// A placed reference to an external circuit-element definition.
pub struct Instance {
    /// Instance name, unique within its schematic.
    pub name: String,
    /// Reference to the definition of the instantiated element.
    pub of: String,
    /// Placement location on the canvas.
    pub loc: Point,
    /// Placement orientation.
    pub orientation: Orientation,
}

/// A schematic-boundary connection point.
pub struct Port {
    /// Port name, unique within its schematic and disjoint from instance names.
    pub name: String,
    /// Placement location on the canvas.
    pub loc: Point,
    /// Placement orientation.
    pub orientation: Orientation,
}

/// A named net segment: an ordered path of points.
pub struct Wire {
    /// Net name annotation.
    pub name: String,
    /// The drawn path; a valid wire has at least two points, in order.
    pub points: Vec<Point>,
}

/// The aggregate root: one circuit diagram's layout.
pub struct Schematic {
    /// Schematic name.
    pub name: String,
    /// Free-text preamble, carried through the codec verbatim.
    pub prelude: String,
    /// Canvas extent; both components are non-negative in a valid schematic.
    pub size: Point,
    pub instances: Vec<Instance>,
    pub wires: Vec<Wire>,
    pub ports: Vec<Port>,
    pub dots: Vec<Point>,
}

/// Spec-level image of an [`Instance`].
#[verifier::ext_equal]
pub struct InstanceV {
    pub name: Seq<char>,
    pub of: Seq<char>,
    pub loc: Point,
    pub orientation: Orientation,
}

/// Spec-level image of a [`Port`].
#[verifier::ext_equal]
pub struct PortV {
    pub name: Seq<char>,
    pub loc: Point,
    pub orientation: Orientation,
}

/// Spec-level image of a [`Wire`].
#[verifier::ext_equal]
pub struct WireV {
    pub name: Seq<char>,
    pub points: Seq<Point>,
}

/// Spec-level image of a [`Schematic`].
#[verifier::ext_equal]
pub struct SchematicV {
    pub name: Seq<char>,
    pub prelude: Seq<char>,
    pub size: Point,
    pub instances: Seq<InstanceV>,
    pub wires: Seq<WireV>,
    pub ports: Seq<PortV>,
    pub dots: Seq<Point>,
}

impl View for Instance {
    type V = InstanceV;

    open spec fn view(&self) -> InstanceV {
        InstanceV { name: self.name@, of: self.of@, loc: self.loc, orientation: self.orientation }
    }
}

impl View for Port {
    type V = PortV;

    open spec fn view(&self) -> PortV {
        PortV { name: self.name@, loc: self.loc, orientation: self.orientation }
    }
}

impl View for Wire {
    type V = WireV;

    open spec fn view(&self) -> WireV {
        WireV { name: self.name@, points: self.points@ }
    }
}

impl View for Schematic {
    type V = SchematicV;

    open spec fn view(&self) -> SchematicV {
        SchematicV {
            name: self.name@,
            prelude: self.prelude@,
            size: self.size,
            instances: self.instances@.map_values(|i: Instance| i@),
            wires: self.wires@.map_values(|w: Wire| w@),
            ports: self.ports@.map_values(|p: Port| p@),
            dots: self.dots@,
        }
    }
}

} // verus!
