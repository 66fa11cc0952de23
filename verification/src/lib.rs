//! Schematic interchange model and its SVG codec.
//!
//! A [`schematic::Schematic`] holds instances, ports, wires and junction dots
//! placed on an integer canvas.  The codec renders such a value as an
//! SVG-like markup document and parses that markup back, preserving every
//! structured field.

pub mod decode;
pub mod encode;
pub mod error;
pub mod geometry;
pub mod point;
pub mod roundtrip;
pub mod schematic;
pub mod text;
pub mod validate;
