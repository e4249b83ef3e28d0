//! A builder of cubic reference cells without rotation variants: it checks
//! only that the lattice constant, the elements and the geometry are set, and
//! that there are three elements, and tilts the X atoms only where both a
//! tilt axis and a tilt angle are given.

use vstd::prelude::*;

use crate::cell::{at, cubic_a_layout, cubic_x_layout, get_cubic_ref_atoms, HalfSteps, UnitCellAtoms};
use crate::types::{CellGeometry, Element, Error, ErrorView};

verus! {

/// Collects what a reference cell is built from; the lattice constant and
/// the tilt angle are the bit patterns of `f64` values, the tilt axis of type
/// `Axis`.
pub struct RefCellBuilder<Axis> {
    pub geometry: Option<CellGeometry>,
    pub lattice_constant: Option<u64>,
    pub elements: Option<Vec<Element>>,
    pub tilt_angle: Option<u64>,
    pub tilt_axis: Option<Axis>,
}

/// A cubic reference cell before its positions are computed: each atom
/// stands at its half steps times half the lattice constant, and then the X
/// atoms are rotated about the tilt axis by the tilt angle, where both are
/// given.
pub struct CubicPlan<Axis> {
    pub cell_atoms: UnitCellAtoms<HalfSteps>,
    pub lattice_constant: u64,
    pub tilt_axis_angle: Option<(Axis, u64)>,
}

/// Why a [`RefCellBuilder`] cannot build a cubic cell, checked in this
/// order; `None` where it can.
pub open spec fn plain_refusal<Axis>(b: RefCellBuilder<Axis>) -> Option<Seq<char>> {
    if b.lattice_constant is None {
        Some("Lattice constant is not set"@)
    } else if b.elements is None {
        Some("Elements are not set"@)
    } else if b.geometry is None {
        Some("Cell geometry not set"@)
    } else if b.geometry == Some(CellGeometry::Cubic) && b.elements->0@.len() != 3 {
        Some("Expected 3 elements"@)
    } else {
        None
    }
}

/// The tilt a builder gives: its axis and angle where both are set.
pub open spec fn plain_tilt<Axis>(b: RefCellBuilder<Axis>) -> Option<(Axis, u64)> {
    match (b.tilt_axis, b.tilt_angle) {
        (Some(axis), Some(angle)) => Some((axis, angle)),
        _ => None,
    }
}

impl<Axis: Copy> RefCellBuilder<Axis> {
    pub fn new() -> (r: Self)
        ensures
            r.geometry is None,
            r.lattice_constant is None,
            r.elements is None,
            r.tilt_angle is None,
            r.tilt_axis is None,
    {
        RefCellBuilder { geometry: None, lattice_constant: None, elements: None, tilt_angle: None, tilt_axis: None }
    }

    pub fn geometry(&mut self, geometry: CellGeometry) -> (r: &mut Self)
        ensures
            *r == (RefCellBuilder { geometry: Some(geometry), ..*old(self) }),
            *final(self) == *final(r),
    {
        self.geometry = Some(geometry);
        self
    }

    /// Sets the lattice constant, given as the bit pattern of a `f64`.
    pub fn lattice_constant(&mut self, lattice_constant: u64) -> (r: &mut Self)
        ensures
            *r == (RefCellBuilder { lattice_constant: Some(lattice_constant), ..*old(self) }),
            *final(self) == *final(r),
    {
        self.lattice_constant = Some(lattice_constant);
        self
    }

    /// Sets the tilt angle in radians, given as the bit pattern of a `f64`.
    pub fn tilt_angle(&mut self, tilt_angle: u64) -> (r: &mut Self)
        ensures
            *r == (RefCellBuilder { tilt_angle: Some(tilt_angle), ..*old(self) }),
            *final(self) == *final(r),
    {
        self.tilt_angle = Some(tilt_angle);
        self
    }

    pub fn tilt_axis(&mut self, tilt_axis: Axis) -> (r: &mut Self)
        ensures
            *r == (RefCellBuilder { tilt_axis: Some(tilt_axis), ..*old(self) }),
            *final(self) == *final(r),
    {
        self.tilt_axis = Some(tilt_axis);
        self
    }

    pub fn elements(&mut self, elements: Vec<Element>) -> (r: &mut Self)
        ensures
            *r == (RefCellBuilder { elements: Some(elements), ..*old(self) }),
            *final(self) == *final(r),
    {
        self.elements = Some(elements);
        self
    }

    /// Checks the builder (see [`plain_refusal`]) and plans the cubic cell:
    /// the A atoms of `elements[0]`, the B atom of `elements[1]` and the X
    /// atoms of `elements[2]`. Tetragonal cells have no construction: a
    /// builder that passes the checks must be cubic.
    pub fn build(&self) -> (r: Result<CubicPlan<Axis>, Error>)
        requires
            !(plain_refusal(*self) is None && self.geometry == Some(CellGeometry::Tetragonal)),
        ensures
            match plain_refusal(*self) {
                Some(m) => (r matches Err(e) && e@ == ErrorView::Generic(m)),
                None => (r matches Ok(plan)
                    && plan.cell_atoms.a@ == cubic_a_layout(self.elements->0@[0])
                    && plan.cell_atoms.b@ == seq![at(self.elements->0@[1], 0, 0, 0)]
                    && plan.cell_atoms.x@ == cubic_x_layout(self.elements->0@[2])
                    && plan.lattice_constant == self.lattice_constant->0
                    && plan.tilt_axis_angle == plain_tilt(*self)),
            },
    {
        let lattice_constant = match self.lattice_constant {
            Some(a) => a,
            None => {
                return Err(Error::Generic("Lattice constant is not set".to_string()));
            },
        };
        let elements = match &self.elements {
            Some(e) => e,
            None => {
                return Err(Error::Generic("Elements are not set".to_string()));
            },
        };
        let tilt_axis_angle = match (self.tilt_axis, self.tilt_angle) {
            (Some(axis), Some(angle)) => Some((axis, angle)),
            _ => None,
        };
        let geometry = match self.geometry {
            Some(g) => g,
            None => {
                return Err(Error::Generic("Cell geometry not set".to_string()));
            },
        };
        match geometry {
            CellGeometry::Cubic => {
                if elements.len() != 3 {
                    return Err(Error::Generic("Expected 3 elements".to_string()));
                }
                let cell_atoms = get_cubic_ref_atoms(elements);
                Ok(CubicPlan { cell_atoms, lattice_constant, tilt_axis_angle })
            },
            CellGeometry::Tetragonal => vstd::pervasive::unreached(),
        }
    }
}

} // verus!
