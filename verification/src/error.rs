//! Failure values of the codec: invariant violations and decode errors.

use vstd::prelude::*;

verus! {

/// One violated schematic invariant.
#[derive(Debug)]
pub enum Violation {
    /// Two instances or ports share this name.
    DuplicateName { name: String },
    /// This wire has fewer than two points.
    ShortWire { name: String },
    /// A canvas size component is negative.
    NegativeSize,
}

/// Spec-level image of a [`Violation`].
#[verifier::ext_equal]
pub enum ViolationV {
    DuplicateName { name: Seq<char> },
    ShortWire { name: Seq<char> },
    NegativeSize,
}

impl View for Violation {
    type V = ViolationV;

    open spec fn view(&self) -> ViolationV {
        match self {
            Violation::DuplicateName { name } => ViolationV::DuplicateName { name: name@ },
            Violation::ShortWire { name } => ViolationV::ShortWire { name: name@ },
            Violation::NegativeSize => ViolationV::NegativeSize,
        }
    }
}

/// The spec-level image of a violation list.
pub open spec fn view_violations(v: Seq<Violation>) -> Seq<ViolationV> {
    v.map_values(|x: Violation| x@)
}

/// A failed encode or decode call.
#[derive(Debug)]
pub enum SvgError {
    /// The input text is not well-formed markup.
    MalformedDocument,
    /// A recognized element is missing a required attribute or holds a value
    /// of the wrong shape.
    InvalidField { element: String, field: String, reason: String },
    /// Strict mode only: an element the codec does not recognize.
    UnrecognizedElement { element: String },
    /// The schematic breaks one or more invariants; every violation found is
    /// listed, never just the first.
    ValidationFailed { violations: Vec<Violation> },
}

/// Spec-level image of an [`SvgError`].
#[verifier::ext_equal]
pub enum SvgErrorV {
    MalformedDocument,
    InvalidField { element: Seq<char>, field: Seq<char>, reason: Seq<char> },
    UnrecognizedElement { element: Seq<char> },
    ValidationFailed { violations: Seq<ViolationV> },
}

impl View for SvgError {
    type V = SvgErrorV;

    open spec fn view(&self) -> SvgErrorV {
        match self {
            SvgError::MalformedDocument => SvgErrorV::MalformedDocument,
            SvgError::InvalidField { element, field, reason } => SvgErrorV::InvalidField {
                element: element@,
                field: field@,
                reason: reason@,
            },
            SvgError::UnrecognizedElement { element } => SvgErrorV::UnrecognizedElement {
                element: element@,
            },
            SvgError::ValidationFailed { violations } => SvgErrorV::ValidationFailed {
                violations: view_violations(violations@),
            },
        }
    }
}

} // verus!
