//! Printer descriptions.
//!
//! A machine is either a conventional three-axis printer or one with a
//! differentially tilting bed. The library holds the geometry each needs as
//! plain fixed-point values; the tilting bed's inverse kinematics (floating
//! point rotation composition) lives with the program around the library.

use vstd::prelude::*;

verus! {

/// A point of the bed's plane.
#[derive(Clone, Copy, PartialEq, Eq, Structural, Debug)]
pub struct Point2 {
    pub x: i64,
    pub y: i64,
}

/// A machine shape.
#[derive(Clone, Copy, PartialEq, Eq, Structural, Debug)]
pub enum Printer {
    /// Conventional printer: toolhead moves on three axes over a bed centred
    /// at `center`.
    ThreeDoF { center: Point2 },
    /// XYZ plus a bed tilting about `pivot`, rotation offsets in fixed-point
    /// degrees.
    DifferentialTiltingBed { pivot: crate::vector::Vector, bed_pivot: i64, rot_offset: crate::vector::Vector },
}

/// The movement family of a machine.
#[derive(Clone, Copy, PartialEq, Eq, Structural, Debug)]
pub enum PrinterType {
    /// Conventional 3-DoF toolhead movement.
    Xyz,
    /// XYZ plus rotation around the X and Y axes.
    Xyzab,
}

/// A machine position over every axis family: three linear axes, and the
/// optional vector and tilt components a kinematic model may add.
#[derive(Clone, Copy, PartialEq, Eq, Structural, Debug)]
pub struct GenericCoords {
    pub x: i64,
    pub y: i64,
    pub z: i64,
    pub i: Option<i64>,
    pub j: Option<i64>,
    pub k: Option<i64>,
    pub a: Option<i64>,
    pub b: Option<i64>,
}

impl Printer {
    /// Which movement family this machine has.
    pub fn printer_type(&self) -> (r: PrinterType)
        ensures
            r == (match *self {
                Printer::ThreeDoF { .. } => PrinterType::Xyz,
                Printer::DifferentialTiltingBed { .. } => PrinterType::Xyzab,
            }),
    {
        match *self {
            Printer::ThreeDoF { .. } => PrinterType::Xyz,
            Printer::DifferentialTiltingBed { .. } => PrinterType::Xyzab,
        }
    }

    /// The bed centre: where the machine reports one, else the origin.
    pub fn center(&self) -> (r: Point2)
        ensures
            r == (match *self {
                Printer::ThreeDoF { center } => center,
                Printer::DifferentialTiltingBed { .. } => Point2 { x: 0, y: 0 },
            }),
    {
        match *self {
            Printer::ThreeDoF { center } => center,
            Printer::DifferentialTiltingBed { .. } => Point2 { x: 0, y: 0 },
        }
    }
}

} // verus!
