//! Unit cells: the builders that check what a cell is made of, the layout
//! of the cubic reference cell, and the bookkeeping that sorts the atoms of
//! a simulated cell into the A, B and X sites in a fixed order.

use vstd::prelude::*;
use vstd::multiset::Multiset;

use crate::order::{
    ids_upto, identity_ids, index_of_max, is_permutation, keys_at, last_max_index,
    lemma_last_max_index, lemma_sorted_ids_permutes, lemma_swapped_bounds, pick, picked,
    select_keys, sorted_by_keys, sorted_ids, swap_removed,
};
use crate::float_bits::{
    at_most_zero_bits, finite_bits, is_at_most_zero_bits, is_finite_bits, is_nan_bits,
    is_zero_bits, nan_bits, zero_bits,
};
use crate::text::{decimal_numeral, join_texts, joined, push_decimal};
use crate::geometry::get_displacements_between;
use crate::types::{Atom, AtomDisplacements, CellGeometry, DWType, Element, Error, ErrorView, RotationVariant};

verus! {

/// The atoms of a unit cell by site: 8 A atoms at the corners, 1 B atom at
/// the centre, 6 X atoms at the face centres (for a cubic cell).
pub struct UnitCellAtoms<P> {
    pub a: Vec<Atom<P>>,
    pub b: Vec<Atom<P>>,
    pub x: Vec<Atom<P>>,
}

/// The differences `difference(l, r)` of the positions of `lhs` and `rhs`,
/// index by index.
pub open spec fn differences<P, D, F: Fn(P, P) -> D>(difference: F, lhs: Seq<Atom<P>>, rhs: Seq<Atom<P>>, ds: Seq<D>) -> bool {
    &&& ds.len() == lhs.len()
    &&& forall|i: int| 0 <= i < ds.len() ==> difference.ensures((lhs[i].position, rhs[i].position), #[trigger] ds[i])
}

impl<P: Copy> UnitCellAtoms<P> {
    /// The displacements of the atoms of this cell from those of `rhs`, site
    /// by site (see [`get_displacements_between`]); the first site, in the
    /// order A, B, X, whose atom counts differ is an error.
    pub fn displacements_from<D, F: Fn(P, P) -> D>(&self, rhs: &UnitCellAtoms<P>, difference: &F) -> (r: Result<AtomDisplacements<D>, Error>)
        requires
            forall|a: P, b: P| difference.requires((a, b)),
        ensures
            self.a@.len() != rhs.a@.len() ==> (r matches Err(e) && e == (Error::SizeMismatch { expected: self.a@.len() as usize, got: rhs.a@.len() as usize })),
            self.a@.len() == rhs.a@.len() && self.b@.len() != rhs.b@.len() ==> (r matches Err(e) && e == (Error::SizeMismatch { expected: self.b@.len() as usize, got: rhs.b@.len() as usize })),
            self.a@.len() == rhs.a@.len() && self.b@.len() == rhs.b@.len() && self.x@.len() != rhs.x@.len() ==> (r matches Err(e) && e == (Error::SizeMismatch { expected: self.x@.len() as usize, got: rhs.x@.len() as usize })),
            self.a@.len() == rhs.a@.len() && self.b@.len() == rhs.b@.len() && self.x@.len() == rhs.x@.len() ==> (r matches Ok(d) && {
                &&& differences(*difference, self.a@, rhs.a@, d.a_site_displacements@)
                &&& differences(*difference, self.b@, rhs.b@, d.b_site_displacements@)
                &&& differences(*difference, self.x@, rhs.x@, d.x_site_displacements@)
            }),
    {
        let a_site_displacements = get_displacements_between(&self.a, &rhs.a, difference)?;
        let b_site_displacements = get_displacements_between(&self.b, &rhs.b, difference)?;
        let x_site_displacements = get_displacements_between(&self.x, &rhs.x, difference)?;
        Ok(AtomDisplacements { a_site_displacements, b_site_displacements, x_site_displacements })
    }
}

/// The message of a cubic simulation cell with a wrong number of atoms.
pub open spec fn atom_count_message(n: usize) -> Seq<char> {
    "Atom count for building cubic md cell is "@ + decimal_numeral(n as nat) + ", expected: 15"@
}

/// The message for a cubic simulation cell of `n` atoms.
fn format_atom_count_message(n: usize) -> (r: String)
    ensures
        r@ == atom_count_message(n),
{
    broadcast use Seq::lemma_flatten_push;

    let mut parts: Vec<&'static str> = Vec::new();
    let prefix = "Atom count for building cubic md cell is ";
    let suffix = ", expected: 15";
    assert(parts@.map_values(|p: &str| p@) =~= Seq::<Seq<char>>::empty());
    assert(joined(parts@) =~= Seq::<char>::empty());
    let ghost p0 = parts@;
    parts.push(prefix);
    assert(parts@.map_values(|p: &str| p@) =~= p0.map_values(|p: &str| p@).push(prefix@));
    assert(joined(parts@) =~= prefix@);
    push_decimal(n, &mut parts);
    let ghost p1 = parts@;
    parts.push(suffix);
    assert(parts@.map_values(|p: &str| p@) =~= p1.map_values(|p: &str| p@).push(suffix@));
    assert(joined(parts@) =~= prefix@ + decimal_numeral(n as nat) + suffix@);
    join_texts(&parts)
}

/// Collects what a simulation cell is built from; positions are of type `P`,
/// the cell matrix of type `M`.
pub struct SimCellBuilder<P, M> {
    pub geometry: Option<CellGeometry>,
    pub elements: Option<Vec<Element>>,
    pub atoms: Option<Vec<Atom<P>>>,
    pub cell_matrix: Option<M>,
    pub dw_type: Option<DWType>,
}

/// What a checked [`SimCellBuilder`] hands to the construction of a cell.
pub struct SimBuildContext<'a, P, M> {
    pub geometry: CellGeometry,
    pub atoms: &'a Vec<Atom<P>>,
    pub elements: &'a Vec<Element>,
    pub cell_matrix: &'a M,
    pub dw_type: DWType,
}

/// Why a [`SimCellBuilder`] cannot build, checked in this order: the first
/// field that is not set, then the number of elements, the geometry and the
/// number of atoms of a cubic cell; `None` where it can.
pub open spec fn sim_refusal<P, M>(b: SimCellBuilder<P, M>) -> Option<Seq<char>> {
    if b.geometry is None {
        Some("Cell geometry not set"@)
    } else if b.elements is None {
        Some("Elements are not set"@)
    } else if b.atoms is None {
        Some("Atoms are not set"@)
    } else if b.cell_matrix is None {
        Some("Cell matrix is not set"@)
    } else if b.dw_type is None {
        Some("DW type is not set"@)
    } else if b.elements->0@.len() != 3 {
        Some("Elements must be 3 (currently only ABO_3 supported)"@)
    } else if b.geometry->0 == CellGeometry::Tetragonal {
        Some("Tetragonal cells currently not supported"@)
    } else if b.atoms->0@.len() != 15 {
        Some(atom_count_message(b.atoms->0@.len() as usize))
    } else {
        None
    }
}

/// The context of a builder whose fields are all set.
pub open spec fn sim_context<'a, P, M>(b: &'a SimCellBuilder<P, M>) -> SimBuildContext<'a, P, M> {
    SimBuildContext {
        geometry: b.geometry->0,
        atoms: &b.atoms->0,
        elements: &b.elements->0,
        cell_matrix: &b.cell_matrix->0,
        dw_type: b.dw_type->0,
    }
}

impl<P, M> SimCellBuilder<P, M> {
    pub fn new() -> (r: Self)
        ensures
            r.geometry is None,
            r.elements is None,
            r.atoms is None,
            r.cell_matrix is None,
            r.dw_type is None,
    {
        SimCellBuilder { geometry: None, elements: None, atoms: None, cell_matrix: None, dw_type: None }
    }

    pub fn geometry(&mut self, geometry: CellGeometry) -> (r: &mut Self)
        ensures
            r.geometry == Some(geometry),
            r.elements == old(self).elements,
            r.atoms == old(self).atoms,
            r.cell_matrix == old(self).cell_matrix,
            r.dw_type == old(self).dw_type,
            *final(self) == *final(r),
    {
        self.geometry = Some(geometry);
        self
    }

    pub fn elements(&mut self, elements: Vec<Element>) -> (r: &mut Self)
        ensures
            r.geometry == old(self).geometry,
            r.elements == Some(elements),
            r.atoms == old(self).atoms,
            r.cell_matrix == old(self).cell_matrix,
            r.dw_type == old(self).dw_type,
            *final(self) == *final(r),
    {
        self.elements = Some(elements);
        self
    }

    pub fn atoms(&mut self, atoms: Vec<Atom<P>>) -> (r: &mut Self)
        ensures
            r.geometry == old(self).geometry,
            r.elements == old(self).elements,
            r.atoms == Some(atoms),
            r.cell_matrix == old(self).cell_matrix,
            r.dw_type == old(self).dw_type,
            *final(self) == *final(r),
    {
        self.atoms = Some(atoms);
        self
    }

    pub fn cell_matrix(&mut self, cell_matrix: M) -> (r: &mut Self)
        ensures
            r.geometry == old(self).geometry,
            r.elements == old(self).elements,
            r.atoms == old(self).atoms,
            r.cell_matrix == Some(cell_matrix),
            r.dw_type == old(self).dw_type,
            *final(self) == *final(r),
    {
        self.cell_matrix = Some(cell_matrix);
        self
    }

    pub fn dw_type(&mut self, dw_type: DWType) -> (r: &mut Self)
        ensures
            r.geometry == old(self).geometry,
            r.elements == old(self).elements,
            r.atoms == old(self).atoms,
            r.cell_matrix == old(self).cell_matrix,
            r.dw_type == Some(dw_type),
            *final(self) == *final(r),
    {
        self.dw_type = Some(dw_type);
        self
    }

    /// Checks that everything is set, that there are three elements (ABO3)
    /// and, for a cubic cell, 15 atoms; tetragonal cells are refused (see
    /// [`sim_refusal`]).
    pub fn validate_fields(&self) -> (r: Result<SimBuildContext<'_, P, M>, Error>)
        ensures
            match sim_refusal(*self) {
                Some(m) => (r matches Err(e) && e@ == ErrorView::Generic(m)),
                None => (r matches Ok(ctx) && ctx == sim_context(self)),
            },
    {
        let geometry = match self.geometry {
            Some(g) => g,
            None => {
                return Err(Error::Generic("Cell geometry not set".to_string()));
            },
        };
        let elements = match &self.elements {
            Some(e) => e,
            None => {
                return Err(Error::Generic("Elements are not set".to_string()));
            },
        };
        let atoms = match &self.atoms {
            Some(a) => a,
            None => {
                return Err(Error::Generic("Atoms are not set".to_string()));
            },
        };
        let cell_matrix = match &self.cell_matrix {
            Some(m) => m,
            None => {
                return Err(Error::Generic("Cell matrix is not set".to_string()));
            },
        };
        let dw_type = match self.dw_type {
            Some(d) => d,
            None => {
                return Err(Error::Generic("DW type is not set".to_string()));
            },
        };
        if elements.len() != 3 {
            return Err(
                Error::Generic("Elements must be 3 (currently only ABO_3 supported)".to_string()),
            );
        }
        match geometry {
            CellGeometry::Cubic => {
                if atoms.len() != 15 {
                    return Err(Error::Generic(format_atom_count_message(atoms.len())));
                }
            },
            CellGeometry::Tetragonal => {
                return Err(Error::Generic("Tetragonal cells currently not supported".to_string()));
            },
        }
        Ok(SimBuildContext { geometry, atoms, elements, cell_matrix, dw_type })
    }

    /// Checks the fields (see [`Self::validate_fields`]) and builds the cell
    /// from the checked context with `build_cubic`, the construction of a
    /// cubic cell.
    pub fn build<'a, U, F: Fn(SimBuildContext<'a, P, M>) -> Result<U, Error>>(&'a self, build_cubic: &F) -> (r: Result<U, Error>)
        requires
            forall|ctx: SimBuildContext<'a, P, M>| build_cubic.requires((ctx,)),
        ensures
            match sim_refusal(*self) {
                Some(m) => (r matches Err(e) && e@ == ErrorView::Generic(m)),
                None => build_cubic.ensures((sim_context(self),), r),
            },
    {
        let ctx = self.validate_fields()?;
        match ctx.geometry {
            CellGeometry::Cubic => build_cubic(ctx),
            CellGeometry::Tetragonal => vstd::pervasive::unreached(),
        }
    }
}


/// Collects what a simulation cell is built from, with the cell's
/// orientation (of type `Q`) as an option; positions are of type `P`, the
/// cell matrix of type `M`. Unlike [`SimCellBuilder`] it checks only that
/// the fields are set.
pub struct MDCellBuilder<P, M, Q> {
    pub geometry: Option<CellGeometry>,
    pub elements: Option<Vec<Element>>,
    pub atoms: Option<Vec<Atom<P>>>,
    pub cell_matrix: Option<M>,
    pub dw_type: Option<DWType>,
    pub orientation: Option<Q>,
}

/// What a checked [`MDCellBuilder`] hands to the construction of a cell.
pub struct MDBuildContext<'a, P, M, Q> {
    pub atoms: &'a Vec<Atom<P>>,
    pub elements: &'a Vec<Element>,
    pub cell_matrix: &'a M,
    pub dw_type: DWType,
    pub orientation: Option<Q>,
}

/// Why an [`MDCellBuilder`] cannot build: the first field, in this order,
/// that is not set; `None` where all are.
pub open spec fn md_refusal<P, M, Q>(b: MDCellBuilder<P, M, Q>) -> Option<Seq<char>> {
    if b.atoms is None {
        Some("Atom positions are not set"@)
    } else if b.elements is None {
        Some("Elements for mapping not set"@)
    } else if b.cell_matrix is None {
        Some("Cell matrix is not set"@)
    } else if b.dw_type is None {
        Some("DW type is not set"@)
    } else if b.geometry is None {
        Some("Cell Geometry is not set"@)
    } else {
        None
    }
}

/// The context of an [`MDCellBuilder`] whose fields are all set.
pub open spec fn md_context<'a, P, M, Q>(b: &'a MDCellBuilder<P, M, Q>) -> MDBuildContext<'a, P, M, Q> {
    MDBuildContext {
        atoms: &b.atoms->0,
        elements: &b.elements->0,
        cell_matrix: &b.cell_matrix->0,
        dw_type: b.dw_type->0,
        orientation: b.orientation,
    }
}

impl<P, M, Q: Copy> MDCellBuilder<P, M, Q> {
    pub fn new() -> (r: Self)
        ensures
            r.geometry is None,
            r.elements is None,
            r.atoms is None,
            r.cell_matrix is None,
            r.dw_type is None,
            r.orientation is None,
    {
        MDCellBuilder { geometry: None, elements: None, atoms: None, cell_matrix: None, dw_type: None, orientation: None }
    }

    pub fn geometry(&mut self, geometry: CellGeometry) -> (r: &mut Self)
        ensures
            *r == (MDCellBuilder { geometry: Some(geometry), ..*old(self) }),
            *final(self) == *final(r),
    {
        self.geometry = Some(geometry);
        self
    }

    pub fn elements(&mut self, elements: Vec<Element>) -> (r: &mut Self)
        ensures
            *r == (MDCellBuilder { elements: Some(elements), ..*old(self) }),
            *final(self) == *final(r),
    {
        self.elements = Some(elements);
        self
    }

    pub fn atoms(&mut self, atoms: Vec<Atom<P>>) -> (r: &mut Self)
        ensures
            *r == (MDCellBuilder { atoms: Some(atoms), ..*old(self) }),
            *final(self) == *final(r),
    {
        self.atoms = Some(atoms);
        self
    }

    pub fn cell_matrix(&mut self, cell_matrix: M) -> (r: &mut Self)
        ensures
            *r == (MDCellBuilder { cell_matrix: Some(cell_matrix), ..*old(self) }),
            *final(self) == *final(r),
    {
        self.cell_matrix = Some(cell_matrix);
        self
    }

    pub fn dw_type(&mut self, dw_type: DWType) -> (r: &mut Self)
        ensures
            *r == (MDCellBuilder { dw_type: Some(dw_type), ..*old(self) }),
            *final(self) == *final(r),
    {
        self.dw_type = Some(dw_type);
        self
    }

    pub fn orientation(&mut self, orientation: Q) -> (r: &mut Self)
        ensures
            *r == (MDCellBuilder { orientation: Some(orientation), ..*old(self) }),
            *final(self) == *final(r),
    {
        self.orientation = Some(orientation);
        self
    }

    /// Checks that the fields are set (see [`md_refusal`]) and builds the
    /// cell with `build_cubic`, the construction of a cubic cell. Tetragonal
    /// cells have no construction: a builder whose fields are all set must
    /// be cubic.
    pub fn build<'a, U, F: Fn(MDBuildContext<'a, P, M, Q>) -> Result<U, Error>>(&'a self, build_cubic: &F) -> (r: Result<U, Error>)
        requires
            md_refusal(*self) is None ==> self.geometry == Some(CellGeometry::Cubic),
            forall|ctx: MDBuildContext<'a, P, M, Q>| build_cubic.requires((ctx,)),
        ensures
            match md_refusal(*self) {
                Some(m) => (r matches Err(e) && e@ == ErrorView::Generic(m)),
                None => build_cubic.ensures((md_context(self),), r),
            },
    {
        let atoms = match &self.atoms {
            Some(a) => a,
            None => {
                return Err(Error::Generic("Atom positions are not set".to_string()));
            },
        };
        let elements = match &self.elements {
            Some(e) => e,
            None => {
                return Err(Error::Generic("Elements for mapping not set".to_string()));
            },
        };
        let cell_matrix = match &self.cell_matrix {
            Some(m) => m,
            None => {
                return Err(Error::Generic("Cell matrix is not set".to_string()));
            },
        };
        let dw_type = match self.dw_type {
            Some(d) => d,
            None => {
                return Err(Error::Generic("DW type is not set".to_string()));
            },
        };
        let ctx = MDBuildContext { atoms, elements, cell_matrix, dw_type, orientation: self.orientation };
        match self.geometry {
            Some(_) => build_cubic(ctx),
            None => Err(Error::Generic("Cell Geometry is not set".to_string())),
        }
    }
}

/// Where an atom of element `t` goes, given the elements of the A, B and X
/// sites in `es`: comparing with `es[0]`, `es[1]`, `es[2]` in turn, where a
/// missing entry is out of range.
pub enum Site {
    A,
    B,
    X,
    Unmatched,
    OutOfRange,
}

pub open spec fn site_of(t: Element, es: Seq<Element>) -> Site {
    if es.len() < 1 {
        Site::OutOfRange
    } else if t == es[0] {
        Site::A
    } else if es.len() < 2 {
        Site::OutOfRange
    } else if t == es[1] {
        Site::B
    } else if es.len() < 3 {
        Site::OutOfRange
    } else if t == es[2] {
        Site::X
    } else {
        Site::Unmatched
    }
}

/// Splitting atoms by site: the three sites in order, an atom of no site's
/// element, or an element list too short for the comparisons (a panic).
pub enum SplitSpec<P> {
    Sites(Seq<Atom<P>>, Seq<Atom<P>>, Seq<Atom<P>>),
    Unmatched,
    Panic,
}

pub open spec fn split_spec<P>(atoms: Seq<Atom<P>>, es: Seq<Element>) -> SplitSpec<P>
    decreases atoms.len(),
{
    if atoms.len() == 0 {
        SplitSpec::Sites(seq![], seq![], seq![])
    } else {
        match split_spec(atoms.drop_last(), es) {
            SplitSpec::Sites(a, b, x) => {
                let l = atoms.last();
                match site_of(l.atom_type, es) {
                    Site::A => SplitSpec::Sites(a.push(l), b, x),
                    Site::B => SplitSpec::Sites(a, b.push(l), x),
                    Site::X => SplitSpec::Sites(a, b, x.push(l)),
                    Site::Unmatched => SplitSpec::Unmatched,
                    Site::OutOfRange => SplitSpec::Panic,
                }
            },
            SplitSpec::Unmatched => SplitSpec::Unmatched,
            SplitSpec::Panic => SplitSpec::Panic,
        }
    }
}

/// Splitting loses no atom and invents none, and each site holds only atoms
/// of its element: the A atoms are of `es[0]`, the B atoms of `es[1]` and the
/// X atoms of `es[2]`, and the three sites together are the atoms.
pub proof fn lemma_split_partition<P>(atoms: Seq<Atom<P>>, es: Seq<Element>)
    ensures
        split_spec(atoms, es) matches SplitSpec::Sites(a, b, x) ==> {
            &&& forall|i: int| 0 <= i < a.len() ==> (#[trigger] a[i]).atom_type == es[0]
            &&& forall|i: int| 0 <= i < b.len() ==> (#[trigger] b[i]).atom_type == es[1]
            &&& forall|i: int| 0 <= i < x.len() ==> (#[trigger] x[i]).atom_type == es[2]
            &&& a.to_multiset().add(b.to_multiset()).add(x.to_multiset()) == atoms.to_multiset()
        },
    decreases atoms.len(),
{
    broadcast use vstd::seq_lib::group_to_multiset_ensures, vstd::multiset::group_multiset_axioms;

    if atoms.len() == 0 {
        assert(atoms.to_multiset() =~= Multiset::empty());
        assert(Seq::<Atom<P>>::empty().to_multiset() =~= Multiset::empty());
    } else {
        let init = atoms.drop_last();
        let l = atoms.last();
        lemma_split_partition(init, es);
        assert(init.push(l) == atoms);
        match split_spec(init, es) {
            SplitSpec::Sites(a, b, x) => {
                match site_of(l.atom_type, es) {
                    Site::A => {
                        assert forall|i: int| 0 <= i < a.push(l).len() implies (#[trigger] a.push(l)[i]).atom_type == es[0] by {
                            if i < a.len() {
                                assert(a.push(l)[i] == a[i]);
                            }
                        }
                        assert(a.push(l).to_multiset().add(b.to_multiset()).add(x.to_multiset()) =~= atoms.to_multiset());
                    },
                    Site::B => {
                        assert forall|i: int| 0 <= i < b.push(l).len() implies (#[trigger] b.push(l)[i]).atom_type == es[1] by {
                            if i < b.len() {
                                assert(b.push(l)[i] == b[i]);
                            }
                        }
                        assert(a.to_multiset().add(b.push(l).to_multiset()).add(x.to_multiset()) =~= atoms.to_multiset());
                    },
                    Site::X => {
                        assert forall|i: int| 0 <= i < x.push(l).len() implies (#[trigger] x.push(l)[i]).atom_type == es[2] by {
                            if i < x.len() {
                                assert(x.push(l)[i] == x[i]);
                            }
                        }
                        assert(a.to_multiset().add(b.to_multiset()).add(x.push(l).to_multiset()) =~= atoms.to_multiset());
                    },
                    _ => {},
                }
            },
            _ => {},
        }
    }
}

/// Splits atoms into the A, B and X sites, whose elements are `elements[0]`,
/// `elements[1]` and `elements[2]`, keeping their order.
pub fn split_atoms<P: Copy>(atoms: Vec<Atom<P>>, elements: &Vec<Element>) -> (r: Result<
    (Vec<Atom<P>>, Vec<Atom<P>>, Vec<Atom<P>>),
    Error,
>)
    requires
        !(split_spec(atoms@, elements@) is Panic),
    ensures
        match split_spec(atoms@, elements@) {
            SplitSpec::Sites(a, b, x) => (r matches Ok(t) && t.0@ == a && t.1@ == b && t.2@ == x),
            SplitSpec::Unmatched => (r matches Err(e) && e@ == ErrorView::Generic(
                "Atom type not found in elements provided"@,
            )),
            SplitSpec::Panic => false,
        },
{
    let mut a: Vec<Atom<P>> = Vec::new();
    let mut b: Vec<Atom<P>> = Vec::new();
    let mut x: Vec<Atom<P>> = Vec::new();
    let mut i: usize = 0;
    while i < atoms.len()
        invariant
            i <= atoms@.len(),
            split_spec(atoms@.take(i as int), elements@) == SplitSpec::Sites(a@, b@, x@),
            !(split_spec(atoms@, elements@) is Panic),
        decreases atoms.len() - i,
    {
        assert(atoms@.take(i + 1).drop_last() =~= atoms@.take(i as int));
        proof {
            if split_spec(atoms@.take(i + 1), elements@) is Panic {
                lemma_split_prefix(atoms@, elements@, i + 1);
            }
        }
        let atom = atoms[i];
        if atom.atom_type == elements[0] {
            a.push(atom);
        } else if atom.atom_type == elements[1] {
            b.push(atom);
        } else if atom.atom_type == elements[2] {
            x.push(atom);
        } else {
            proof {
                lemma_split_unmatched_stays(atoms@, elements@, i + 1);
            }
            return Err(Error::Generic("Atom type not found in elements provided".to_string()));
        }
        i = i + 1;
    }
    assert(atoms@.take(i as int) =~= atoms@);
    Ok((a, b, x))
}

/// A prefix of atoms that ends in a panic makes the whole split panic.
proof fn lemma_split_prefix<P>(atoms: Seq<Atom<P>>, es: Seq<Element>, k: int)
    requires
        0 <= k <= atoms.len(),
        split_spec(atoms.take(k), es) is Panic,
    ensures
        split_spec(atoms, es) is Panic,
    decreases atoms.len() - k,
{
    if k < atoms.len() {
        assert(atoms.take(k + 1).drop_last() =~= atoms.take(k));
        lemma_split_prefix(atoms, es, k + 1);
    } else {
        assert(atoms.take(k) =~= atoms);
    }
}

/// A prefix of atoms that holds an unmatched atom makes the whole split
/// unmatched.
proof fn lemma_split_unmatched_stays<P>(atoms: Seq<Atom<P>>, es: Seq<Element>, k: int)
    requires
        0 <= k <= atoms.len(),
        split_spec(atoms.take(k), es) is Unmatched,
    ensures
        split_spec(atoms, es) is Unmatched,
    decreases atoms.len() - k,
{
    if k < atoms.len() {
        assert(atoms.take(k + 1).drop_last() =~= atoms.take(k));
        lemma_split_unmatched_stays(atoms, es, k + 1);
    } else {
        assert(atoms.take(k) =~= atoms);
    }
}


/// The items whose flag is `want`, in order.
pub open spec fn flagged<A>(items: Seq<A>, flags: Seq<bool>, want: bool) -> Seq<A>
    decreases items.len(),
{
    if items.len() == 0 {
        seq![]
    } else {
        let rest = flagged(items.drop_last(), flags, want);
        if flags[items.len() - 1] == want {
            rest.push(items.last())
        } else {
            rest
        }
    }
}

/// Splits the A atoms of a cell into the front (`-y`) plane and the back
/// plane; `in_front[i]` tells whether atom `i` lies below the centre of
/// mass in `y`.
pub fn split_front_back<A: Copy>(atoms: Vec<A>, in_front: &Vec<bool>) -> (r: (Vec<A>, Vec<A>))
    requires
        in_front@.len() == atoms@.len(),
    ensures
        r.0@ == flagged(atoms@, in_front@, true),
        r.1@ == flagged(atoms@, in_front@, false),
{
    let mut front: Vec<A> = Vec::new();
    let mut back: Vec<A> = Vec::new();
    let mut i: usize = 0;
    while i < atoms.len()
        invariant
            i <= atoms@.len() == in_front@.len(),
            front@ == flagged(atoms@.take(i as int), in_front@, true),
            back@ == flagged(atoms@.take(i as int), in_front@, false),
        decreases atoms.len() - i,
    {
        assert(atoms@.take(i + 1).drop_last() =~= atoms@.take(i as int));
        if in_front[i] {
            front.push(atoms[i]);
        } else {
            back.push(atoms[i]);
        }
        i = i + 1;
    }
    assert(atoms@.take(i as int) =~= atoms@);
    (front, back)
}

/// Pairs up opposite atoms among `ids`: the first remaining atom with the
/// remaining atom whose key against it is the last largest, where removing an
/// atom moves the last one into its place; `None` where an atom is left
/// without a partner.
pub open spec fn opposite_pairs(ids: Seq<usize>, keys: Seq<Seq<i64>>) -> Option<Seq<(usize, usize)>>
    decreases ids.len(),
{
    if ids.len() == 0 {
        Some(seq![])
    } else {
        let cur = ids[0];
        let rest = swap_removed(ids, 0);
        if rest.len() == 0 {
            None
        } else {
            let k = last_max_index(keys_at(keys[cur as int], rest));
            proof {
                lemma_last_max_index(keys_at(keys[cur as int], rest));
            }
            match opposite_pairs(swap_removed(rest, k), keys) {
                Some(ps) => Some(seq![(cur, rest[k])] + ps),
                None => None,
            }
        }
    }
}

/// Pairing loses no atom: where the atoms pair up, there are half as many
/// pairs as atoms, every atom is in a pair, and every pair is made of atoms.
pub proof fn lemma_opposite_pairs_cover(ids: Seq<usize>, keys: Seq<Seq<i64>>)
    ensures
        opposite_pairs(ids, keys) matches Some(ps) ==> {
            &&& 2 * ps.len() == ids.len()
            &&& forall|x: usize| #[trigger] ids.contains(x) ==> exists|j: int| 0 <= j < ps.len() && (#[trigger] ps[j].0 == x || ps[j].1 == x)
            &&& forall|j: int| 0 <= j < ps.len() ==> ids.contains((#[trigger] ps[j]).0) && ids.contains(ps[j].1)
        },
    decreases ids.len(),
{
    if ids.len() > 0 {
        let bound = (usize::MAX + 1) as nat;
        let cur = ids[0];
        lemma_swapped_bounds(ids, 0, bound);
        let rest = swap_removed(ids, 0);
        if rest.len() > 0 {
            let row = keys_at(keys[cur as int], rest);
            lemma_last_max_index(row);
            let k = last_max_index(row);
            lemma_swapped_bounds(rest, k, bound);
            let rest2 = swap_removed(rest, k);
            lemma_opposite_pairs_cover(rest2, keys);
            match opposite_pairs(rest2, keys) {
                Some(ps2) => {
                    let ps = seq![(cur, rest[k])] + ps2;
                    assert(opposite_pairs(ids, keys) == Some(ps));
                    assert forall|x: usize| #[trigger] ids.contains(x) implies exists|j: int| 0 <= j < ps.len() && (#[trigger] ps[j].0 == x || ps[j].1 == x) by {
                        if x == cur || x == rest[k] {
                            assert(ps[0].0 == x || ps[0].1 == x);
                        } else {
                            assert(rest2.contains(x));
                            let j = choose|j: int| 0 <= j < ps2.len() && (#[trigger] ps2[j].0 == x || ps2[j].1 == x);
                            assert(ps[j + 1] == ps2[j]);
                        }
                    }
                    assert forall|j: int| 0 <= j < ps.len() implies ids.contains((#[trigger] ps[j]).0) && ids.contains(ps[j].1) by {
                        assert(ids.contains(cur)) by {
                            assert(ids[0] == cur);
                        }
                        assert(rest.contains(rest[k]));
                        if j > 0 {
                            assert(ps[j] == ps2[j - 1]);
                            assert(rest2.contains(ps2[j - 1].0) && rest2.contains(ps2[j - 1].1));
                        }
                    }
                },
                None => {},
            }
        }
    }
}

/// Pairing fails exactly when the number of atoms is odd: an even number of
/// atoms always pairs up, and an odd number leaves one atom without a
/// partner. So [`find_opposite`] returns an error exactly for an odd count.
pub proof fn lemma_opposite_pairs_parity(ids: Seq<usize>, keys: Seq<Seq<i64>>)
    ensures
        opposite_pairs(ids, keys) is None <==> ids.len() % 2 == 1,
    decreases ids.len(),
{
    if ids.len() > 0 {
        let cur = ids[0];
        let rest = swap_removed(ids, 0);
        if rest.len() > 0 {
            let row = keys_at(keys[cur as int], rest);
            lemma_last_max_index(row);
            let k = last_max_index(row);
            let rest2 = swap_removed(rest, k);
            assert(rest2.len() == ids.len() - 2);
            lemma_opposite_pairs_parity(rest2, keys);
        }
    }
}

/// The atoms of `atoms` paired as `pairs` names them.
pub open spec fn atom_pairs<A>(atoms: Seq<A>, pairs: Seq<(usize, usize)>) -> Seq<(A, A)> {
    Seq::new(pairs.len(), |j: int| (atoms[pairs[j].0 as int], atoms[pairs[j].1 as int]))
}

/// Pairs each X atom with the one opposite to it across the centre.
/// `keys[i][j]` is the key of the absolute cosine of the angle between the
/// directions of atoms `i` and `j` from the centre; an atom's partner is the
/// remaining atom with the largest key.
pub fn find_opposite<A: Copy>(atoms: Vec<A>, keys: &Vec<Vec<i64>>) -> (r: Result<Vec<(A, A)>, Error>)
    requires
        keys@.len() == atoms@.len(),
        forall|i: int| 0 <= i < keys@.len() ==> (#[trigger] keys@[i])@.len() == atoms@.len(),
    ensures
        match opposite_pairs(ids_upto(atoms@.len()), keys@.map_values(|k: Vec<i64>| k@)) {
            Some(ps) => (r matches Ok(v) && v@ == atom_pairs(atoms@, ps) && forall|j: int|
                0 <= j < ps.len() ==> (#[trigger] ps[j]).0 < atoms@.len() && ps[j].1 < atoms@.len()),
            None => (r matches Err(e) && e@ == ErrorView::Generic("Couldn't find maximum"@)),
        },
{
    let ghost kv = keys@.map_values(|k: Vec<i64>| k@);
    let n = atoms.len();
    let mut ids = identity_ids(n);
    let ghost ids0 = ids@;
    let mut pairs: Vec<(A, A)> = Vec::new();
    let ghost mut found: Seq<(usize, usize)> = seq![];
    while ids.len() > 0
        invariant
            n == atoms@.len(),
            ids0 == ids_upto(atoms@.len()),
            kv == keys@.map_values(|k: Vec<i64>| k@),
            keys@.len() == n,
            forall|i: int| 0 <= i < keys@.len() ==> (#[trigger] keys@[i])@.len() == n,
            forall|p: int| 0 <= p < ids@.len() ==> #[trigger] ids@[p] < n,
            forall|j: int| 0 <= j < found.len() ==> (#[trigger] found[j]).0 < n && found[j].1 < n,
            pairs@ == atom_pairs(atoms@, found),
            opposite_pairs(ids0, kv) == match opposite_pairs(ids@, kv) {
                Some(ps) => Some(found + ps),
                None => None,
            },
        decreases ids.len(),
    {
        let ghost before = ids@;
        let cur = ids.swap_remove(0);
        if ids.len() == 0 {
            assert(opposite_pairs(before, kv) is None);
            return Err(Error::Generic("Couldn't find maximum".to_string()));
        }
        let row = select_keys(&keys[cur], &ids);
        assert(kv[cur as int] == keys@[cur as int]@);
        let k = match index_of_max(&row) {
            Some(k) => k,
            None => {
                return Err(Error::Generic("Couldn't find maximum".to_string()));
            },
        };
        let ghost rest = ids@;
        let opp = ids.swap_remove(k);
        pairs.push((atoms[cur], atoms[opp]));
        proof {
            let old_found = found;
            found = found.push((cur, opp));
            assert(pairs@ =~= atom_pairs(atoms@, found));
            match opposite_pairs(ids@, kv) {
                Some(ps) => {
                    assert(old_found + (seq![(cur, opp)] + ps) =~= found + ps);
                },
                None => {},
            }
        }
    }
    assert(found + seq![] =~= found);
    Ok(pairs)
}

/// The index of the pair whose key (the absolute projection of the pair's
/// direction on an axis) is the last largest.
pub fn get_pair_id(keys: &Vec<i64>) -> (r: Result<usize, Error>)
    ensures
        keys@.len() == 0 ==> (r matches Err(e) && e@ == ErrorView::Generic("Couldn't find maximum"@)),
        keys@.len() > 0 ==> r == Ok::<usize, Error>(last_max_index(keys@) as usize),
{
    match index_of_max(keys) {
        Some(i) => Ok(i),
        None => Err(Error::Generic("Couldn't find maximum".to_string())),
    }
}

/// Which pairs give the X sites along `y`, along the diagonal `(1, 0, -1)`
/// and the remaining direction, from the keys of each pair's projection on
/// `y` and on the diagonal: `None` where there are too few pairs for the
/// first two, and a panic where none is left for the third.
pub enum XSiteOrder {
    Order(usize, usize, usize),
    Missing,
    Panic,
}

pub open spec fn x_site_order(y_keys: Seq<i64>, diag_keys: Seq<i64>) -> XSiteOrder {
    let n = y_keys.len();
    if n == 0 {
        XSiteOrder::Missing
    } else {
        let y = last_max_index(y_keys);
        let ids1 = swap_removed(ids_upto(n), y);
        if ids1.len() == 0 {
            XSiteOrder::Missing
        } else {
            let xi = last_max_index(keys_at(diag_keys, ids1));
            let ids2 = swap_removed(ids1, xi);
            if ids2.len() == 0 {
                XSiteOrder::Panic
            } else {
                XSiteOrder::Order(y as usize, ids1[xi], ids2[0])
            }
        }
    }
}

/// Orders the X atoms from their opposite pairs: first atoms of the `y`,
/// diagonal and remaining pairs, then their second atoms.
pub fn get_x_site_sequence<A: Copy>(pairs: Vec<(A, A)>, y_keys: &Vec<i64>, diag_keys: &Vec<i64>) -> (r: Result<Vec<A>, Error>)
    requires
        y_keys@.len() == pairs@.len(),
        diag_keys@.len() == pairs@.len(),
        !(x_site_order(y_keys@, diag_keys@) is Panic),
    ensures
        match x_site_order(y_keys@, diag_keys@) {
            XSiteOrder::Order(y, x, z) => (r matches Ok(v) && v@ == seq![
                pairs@[y as int].0,
                pairs@[x as int].0,
                pairs@[z as int].0,
                pairs@[y as int].1,
                pairs@[x as int].1,
                pairs@[z as int].1,
            ]),
            XSiteOrder::Missing => (r matches Err(e) && e@ == ErrorView::Generic("Couldn't find maximum"@)),
            XSiteOrder::Panic => false,
        },
{
    let n = pairs.len();
    let mut ids = identity_ids(n);
    let y = match get_pair_id(y_keys) {
        Ok(i) => i,
        Err(e) => {
            return Err(e);
        },
    };
    proof {
        lemma_last_max_index(y_keys@);
    }
    let y_id = ids.swap_remove(y);
    assert(y_id == y);
    let diag = select_keys(diag_keys, &ids);
    let xi = match get_pair_id(&diag) {
        Ok(i) => i,
        Err(e) => {
            return Err(e);
        },
    };
    proof {
        lemma_last_max_index(diag@);
    }
    let x_id = ids.swap_remove(xi);
    let z_id = ids.remove(0);
    let y_pair = pairs[y_id];
    let x_pair = pairs[x_id];
    let z_pair = pairs[z_id];
    let v = vec![y_pair.0, x_pair.0, z_pair.0, y_pair.1, x_pair.1, z_pair.1];
    Ok(v)
}

/// The order of the A atoms of one plane: the atom with the last largest
/// `x` is taken out, the others sorted stably by angle (after that removal
/// moved the last atom into its place), the taken atom appended, and the
/// whole rotated left by one.
pub open spec fn a_site_order(x_keys: Seq<i64>, angle_keys: Seq<i64>) -> Seq<usize> {
    let n = x_keys.len();
    let rm = last_max_index(x_keys);
    let v = sorted_ids(angle_keys, swap_removed(ids_upto(n), rm)).push(rm as usize);
    v.skip(1).push(v[0])
}

/// The order of the A atoms of a plane takes each atom exactly once.
pub proof fn lemma_a_site_order_permutes(x_keys: Seq<i64>, angle_keys: Seq<i64>)
    requires
        1 <= x_keys.len() <= usize::MAX,
        angle_keys.len() == x_keys.len(),
    ensures
        is_permutation(a_site_order(x_keys, angle_keys), x_keys.len()),
{
    let n = x_keys.len();
    lemma_last_max_index(x_keys);
    let rm = last_max_index(x_keys);
    let all = ids_upto(n);
    lemma_swapped_bounds(all, rm, n);
    let rest = swap_removed(all, rm);
    lemma_sorted_ids_permutes(angle_keys, rest);
    let sorted = sorted_ids(angle_keys, rest);
    let v = sorted.push(rm as usize);
    let o = a_site_order(x_keys, angle_keys);
    assert(o == v.skip(1).push(v[0]));
    assert forall|a: int| 0 <= a < o.len() implies #[trigger] o[a] < n by {
        if a < o.len() - 1 {
            assert(o[a] == v[a + 1]);
            if a + 1 < sorted.len() {
                assert(sorted.contains(sorted[a + 1]));
            }
        } else if sorted.len() > 0 {
            assert(o[a] == sorted[0]);
            assert(sorted.contains(sorted[0]));
        }
    }
    assert forall|i: usize| i < n implies #[trigger] o.contains(i) by {
        assert(all[i as int] == i);
        assert(all.contains(i));
        let p = if i == rm as usize {
            sorted.len() as int
        } else {
            assert(sorted.contains(i));
            choose|p: int| 0 <= p < sorted.len() && sorted[p] == i
        };
        assert(v[p] == i);
        if p == 0 {
            assert(o[o.len() - 1] == i);
        } else {
            assert(o[p - 1] == i);
        }
    }
}

/// Orders the A atoms of one plane, from the keys of their `x` coordinates
/// and of their angles in the `x`-`z` plane.
pub fn get_a_site_sequence<A: Copy>(atoms: Vec<A>, x_keys: &Vec<i64>, angle_keys: &Vec<i64>) -> (r: Result<Vec<A>, Error>)
    requires
        x_keys@.len() == atoms@.len(),
        angle_keys@.len() == atoms@.len(),
    ensures
        atoms@.len() == 0 ==> (r matches Err(e) && e@ == ErrorView::Generic("atoms empty"@)),
        atoms@.len() > 0 ==> (r matches Ok(v) && v@ == picked(atoms@, a_site_order(x_keys@, angle_keys@))),
{
    let n = atoms.len();
    let rm = match index_of_max(x_keys) {
        Some(i) => i,
        None => {
            return Err(Error::Generic("atoms empty".to_string()));
        },
    };
    let mut ids = identity_ids(n);
    let _ = ids.swap_remove(rm);
    let mut order = sorted_by_keys(angle_keys, &ids);
    order.push(rm);
    let first = order.remove(0);
    order.push(first);
    let ghost v = sorted_ids(angle_keys@, swap_removed(ids_upto(n as nat), rm as int)).push(rm);
    assert(order@ =~= v.skip(1).push(v[0]));
    Ok(pick(&atoms, &order))
}


/// A position in units of half the lattice constant.
#[derive(Clone, Copy, Debug, PartialEq, Eq, Structural)]
pub struct HalfSteps {
    pub x: i8,
    pub y: i8,
    pub z: i8,
}

pub open spec fn at(t: Element, x: int, y: int, z: int) -> Atom<HalfSteps> {
    Atom { atom_type: t, position: HalfSteps { x: x as i8, y: y as i8, z: z as i8 } }
}

/// The A sites of the cubic reference cell: the corners, first the `-y`
/// plane and then the `+y` plane, each counter-clockwise.
pub open spec fn cubic_a_layout(t: Element) -> Seq<Atom<HalfSteps>> {
    seq![
        at(t, -1, -1, -1),
        at(t, 1, -1, -1),
        at(t, 1, -1, 1),
        at(t, -1, -1, 1),
        at(t, -1, 1, -1),
        at(t, 1, 1, -1),
        at(t, 1, 1, 1),
        at(t, -1, 1, 1),
    ]
}

/// The X sites of the cubic reference cell: the face centres at `-y`,
/// `-z`, `-x`, `+y`, `+z`, `+x`.
pub open spec fn cubic_x_layout(t: Element) -> Seq<Atom<HalfSteps>> {
    seq![
        at(t, 0, -1, 0),
        at(t, 0, 0, -1),
        at(t, -1, 0, 0),
        at(t, 0, 1, 0),
        at(t, 0, 0, 1),
        at(t, 1, 0, 0),
    ]
}

/// A corner of the cube of side two half steps about the origin.
pub open spec fn is_corner(p: HalfSteps) -> bool {
    &&& (p.x == 1 || p.x == -1)
    &&& (p.y == 1 || p.y == -1)
    &&& (p.z == 1 || p.z == -1)
}

/// The centre of a face of that cube: one coordinate is one half step away
/// from the origin, the others are zero.
pub open spec fn is_face_centre(p: HalfSteps) -> bool {
    ||| (p.x == 1 || p.x == -1) && p.y == 0 && p.z == 0
    ||| p.x == 0 && (p.y == 1 || p.y == -1) && p.z == 0
    ||| p.x == 0 && p.y == 0 && (p.z == 1 || p.z == -1)
}

/// `p` and `q` are the two ends of an edge of the cube: they differ in
/// exactly one coordinate.
pub open spec fn edge(p: HalfSteps, q: HalfSteps) -> bool {
    ||| p.x != q.x && p.y == q.y && p.z == q.z
    ||| p.x == q.x && p.y != q.y && p.z == q.z
    ||| p.x == q.x && p.y == q.y && p.z != q.z
}

/// `q` is `p` mirrored through the origin.
pub open spec fn opposite(p: HalfSteps, q: HalfSteps) -> bool {
    q.x == -p.x && q.y == -p.y && q.z == -p.z
}

/// No two atoms of `atoms` stand at the same position.
pub open spec fn distinct_positions(atoms: Seq<Atom<HalfSteps>>) -> bool {
    forall|i: int, j: int| 0 <= i < j < atoms.len() ==> #[trigger] atoms[i].position != #[trigger] atoms[j].position
}

/// The cubic reference cell is the ABO3 cube: its eight A atoms stand on the
/// eight corners, half a lattice constant from the centre on every axis,
/// each corner once, and its six X atoms on the six face centres, each once;
/// the atoms of a site are all of one element.
pub proof fn lemma_cubic_sites(ta: Element, tx: Element)
    ensures
        cubic_a_layout(ta).len() == 8,
        forall|i: int| 0 <= i < 8 ==> (#[trigger] cubic_a_layout(ta)[i]).atom_type == ta && is_corner(cubic_a_layout(ta)[i].position),
        distinct_positions(cubic_a_layout(ta)),
        cubic_x_layout(tx).len() == 6,
        forall|i: int| 0 <= i < 6 ==> (#[trigger] cubic_x_layout(tx)[i]).atom_type == tx && is_face_centre(cubic_x_layout(tx)[i].position),
        distinct_positions(cubic_x_layout(tx)),
{
}

/// The order of the sites of the cubic reference cell: the four A atoms at
/// `-y` come first, starting at the corner on the negative side of every
/// axis and going round the plane edge by edge, first along `x`; the four
/// at `+y` repeat them one lattice constant along `y`. The X atoms stand at
/// the faces at `-y`, `-z`, `-x`, then at the opposite faces in the same
/// order.
pub proof fn lemma_cubic_order(ta: Element, tx: Element)
    ensures
        forall|i: int| 0 <= i < 4 ==> (#[trigger] cubic_a_layout(ta)[i]).position.y == -1,
        forall|i: int| 4 <= i < 8 ==> (#[trigger] cubic_a_layout(ta)[i]).position.y == 1,
        cubic_a_layout(ta)[0].position.x == -1 && cubic_a_layout(ta)[0].position.z == -1,
        cubic_a_layout(ta)[1].position.x == 1,
        forall|i: int| 0 <= i < 4 ==> edge(#[trigger] cubic_a_layout(ta)[i].position, cubic_a_layout(ta)[(i + 1) % 4].position),
        forall|i: int| 0 <= i < 4 ==> (#[trigger] cubic_a_layout(ta)[i + 4]).position.x == cubic_a_layout(ta)[i].position.x
            && cubic_a_layout(ta)[i + 4].position.z == cubic_a_layout(ta)[i].position.z,
        cubic_x_layout(tx)[0].position.y == -1,
        cubic_x_layout(tx)[1].position.z == -1,
        cubic_x_layout(tx)[2].position.x == -1,
        forall|i: int| 0 <= i < 3 ==> opposite((#[trigger] cubic_x_layout(tx)[i]).position, cubic_x_layout(tx)[i + 3].position),
{
}

fn atom_at(t: Element, x: i8, y: i8, z: i8) -> (r: Atom<HalfSteps>)
    ensures
        r == at(t, x as int, y as int, z as int),
{
    Atom { atom_type: t, position: HalfSteps { x, y, z } }
}

/// The atoms of the cubic reference cell with its B atom at the origin, the
/// A atoms of `elements[0]`, the B atom of `elements[1]`, the X atoms of
/// `elements[2]`; positions in half lattice constants.
pub fn get_cubic_ref_atoms(elements: &Vec<Element>) -> (r: UnitCellAtoms<HalfSteps>)
    requires
        elements@.len() >= 3,
    ensures
        r.a@ == cubic_a_layout(elements@[0]),
        r.b@ == seq![at(elements@[1], 0, 0, 0)],
        r.x@ == cubic_x_layout(elements@[2]),
        r.b@.len() == 1 && r.b@[0].atom_type == elements@[1],
        r.b@[0].position.x == 0 && r.b@[0].position.y == 0 && r.b@[0].position.z == 0,
        forall|i: int| 0 <= i < r.a@.len() ==> is_corner(#[trigger] r.a@[i].position),
        distinct_positions(r.a@),
        forall|i: int| 0 <= i < r.x@.len() ==> is_face_centre(#[trigger] r.x@[i].position),
        distinct_positions(r.x@),
{
    let (ea, eb, ex) = (elements[0], elements[1], elements[2]);
    let a = vec![
        atom_at(ea, -1, -1, -1),
        atom_at(ea, 1, -1, -1),
        atom_at(ea, 1, -1, 1),
        atom_at(ea, -1, -1, 1),
        atom_at(ea, -1, 1, -1),
        atom_at(ea, 1, 1, -1),
        atom_at(ea, 1, 1, 1),
        atom_at(ea, -1, 1, 1),
    ];
    let b = vec![atom_at(eb, 0, 0, 0)];
    let x = vec![
        atom_at(ex, 0, -1, 0),
        atom_at(ex, 0, 0, -1),
        atom_at(ex, -1, 0, 0),
        atom_at(ex, 0, 1, 0),
        atom_at(ex, 0, 0, 1),
        atom_at(ex, 1, 0, 0),
    ];
    assert(a@ =~= cubic_a_layout(ea));
    assert(x@ =~= cubic_x_layout(ex));
    assert(b@ =~= seq![at(eb, 0, 0, 0)]);
    assert(forall|i: int| 0 <= i < a@.len() ==> is_corner(#[trigger] a@[i].position)) by {
        lemma_cubic_sites(ea, ex);
    }
    assert(distinct_positions(a@)) by {
        lemma_cubic_sites(ea, ex);
    }
    assert(forall|i: int| 0 <= i < x@.len() ==> is_face_centre(#[trigger] x@[i].position)) by {
        lemma_cubic_sites(ea, ex);
    }
    assert(distinct_positions(x@)) by {
        lemma_cubic_sites(ea, ex);
    }
    UnitCellAtoms { a, b, x }
}

/// Permutes the atoms of a reference cell into its rotation variant. Only
/// the variant `R0`, which keeps every atom in place, has a permutation.
pub fn permute_inplace<P>(cell_atoms: &mut UnitCellAtoms<P>, rotation_variant: RotationVariant)
    requires
        rotation_variant == RotationVariant::R0,
    ensures
        final(cell_atoms).a@ == old(cell_atoms).a@,
        final(cell_atoms).b@ == old(cell_atoms).b@,
        final(cell_atoms).x@ == old(cell_atoms).x@,
{
    match rotation_variant {
        RotationVariant::R0 => {},
        _ => {},
    }
}

/// Collects what a reference cell is built from. The lattice constant and
/// the tilt angle (in radians) are held as the bit patterns of `f64`
/// numbers; the tilt axis is of type `Axis`.
pub struct RefCellBuilder<Axis> {
    pub geometry: Option<CellGeometry>,
    pub lattice_constant: Option<u64>,
    pub elements: Option<Vec<Element>>,
    pub tilt_angle: Option<u64>,
    pub tilt_axis: Option<Axis>,
    pub rotation_variant: Option<RotationVariant>,
}

/// The tilt angle a builder gives: the one set, or `0.0` (bits 0).
pub open spec fn tilt_of<Axis>(b: RefCellBuilder<Axis>) -> u64 {
    match b.tilt_angle {
        Some(t) => t,
        None => 0,
    }
}

/// The message with which a builder is refused, checked in this order, or
/// `None` where it is accepted. A NaN lattice constant is not finite, so it
/// is reported as infinite.
pub open spec fn ref_refusal<Axis>(b: RefCellBuilder<Axis>) -> Option<Seq<char>> {
    if b.geometry is None {
        Some("Cell geometry not set"@)
    } else if b.lattice_constant is None {
        Some("Lattice constant is not set"@)
    } else if b.elements is None {
        Some("Elements are not set"@)
    } else if b.rotation_variant is None {
        Some("Rotation variant not specified"@)
    } else if !finite_bits(b.lattice_constant->0) {
        Some("Lattice constant is infinite"@)
    } else if at_most_zero_bits(b.lattice_constant->0) {
        Some("Lattice constant must be positive"@)
    } else if nan_bits(b.lattice_constant->0) {
        Some("Lattice constant is NAN"@)
    } else if b.elements->0@.len() != 3 {
        Some("Elements must be 3 (currently only ABO_3 supported)"@)
    } else if !finite_bits(tilt_of(b)) {
        Some("Tilt angle is not finite"@)
    } else if zero_bits(tilt_of(b)) && b.tilt_axis is Some {
        Some("Tilt angle is 0 but tilt axis was declared"@)
    } else if !zero_bits(tilt_of(b)) && b.tilt_axis is None {
        Some("Tilt angle is set but no tilt axis was declared"@)
    } else {
        None
    }
}

/// What a checked [`RefCellBuilder`] hands to the construction of a cell.
pub struct RefBuildContext<'a, Axis> {
    pub geometry: CellGeometry,
    pub lattice_constant: u64,
    pub elements: &'a Vec<Element>,
    pub rotation_variant: RotationVariant,
    pub tilt_axis_angle: Option<(Axis, u64)>,
}

/// A cubic reference cell before its positions are computed: each atom
/// stands at its half steps times half the lattice constant (the B atom,
/// and so the centre of mass, at the origin), and then the X atoms are
/// rotated about the tilt axis by the tilt angle, where one is given.
pub struct RefCellPlan<Axis> {
    pub cell_atoms: UnitCellAtoms<HalfSteps>,
    pub lattice_constant: u64,
    pub tilt_axis_angle: Option<(Axis, u64)>,
    pub variant: RotationVariant,
}

impl<Axis: Copy> RefCellBuilder<Axis> {
    pub fn new() -> (r: Self)
        ensures
            r.geometry is None,
            r.lattice_constant is None,
            r.elements is None,
            r.tilt_angle is None,
            r.tilt_axis is None,
            r.rotation_variant is None,
    {
        RefCellBuilder {
            geometry: None,
            lattice_constant: None,
            elements: None,
            tilt_angle: None,
            tilt_axis: None,
            rotation_variant: None,
        }
    }

    pub fn geometry(&mut self, geometry: CellGeometry) -> (r: &mut Self)
        ensures
            *r == (RefCellBuilder { geometry: Some(geometry), ..*old(self) }),
            *final(self) == *final(r),
    {
        self.geometry = Some(geometry);
        self
    }

    /// Sets the lattice constant, given as the bit pattern of a `f64`.
    pub fn lattice_constant(&mut self, lattice_constant: u64) -> (r: &mut Self)
        ensures
            *r == (RefCellBuilder { lattice_constant: Some(lattice_constant), ..*old(self) }),
            *final(self) == *final(r),
    {
        self.lattice_constant = Some(lattice_constant);
        self
    }

    /// Sets the tilt angle in radians, given as the bit pattern of a `f64`.
    pub fn tilt_angle(&mut self, tilt_angle: u64) -> (r: &mut Self)
        ensures
            *r == (RefCellBuilder { tilt_angle: Some(tilt_angle), ..*old(self) }),
            *final(self) == *final(r),
    {
        self.tilt_angle = Some(tilt_angle);
        self
    }

    pub fn tilt_axis(&mut self, tilt_axis: Axis) -> (r: &mut Self)
        ensures
            *r == (RefCellBuilder { tilt_axis: Some(tilt_axis), ..*old(self) }),
            *final(self) == *final(r),
    {
        self.tilt_axis = Some(tilt_axis);
        self
    }

    pub fn elements(&mut self, elements: Vec<Element>) -> (r: &mut Self)
        ensures
            *r == (RefCellBuilder { elements: Some(elements), ..*old(self) }),
            *final(self) == *final(r),
    {
        self.elements = Some(elements);
        self
    }

    pub fn rotation_variant(&mut self, rotation_variant: RotationVariant) -> (r: &mut Self)
        ensures
            *r == (RefCellBuilder { rotation_variant: Some(rotation_variant), ..*old(self) }),
            *final(self) == *final(r),
    {
        self.rotation_variant = Some(rotation_variant);
        self
    }

    /// Checks the builder; see [`ref_refusal`].
    pub fn validate_fields(&self) -> (r: Result<RefBuildContext<'_, Axis>, Error>)
        ensures
            match ref_refusal(*self) {
                Some(m) => (r matches Err(e) && e@ == ErrorView::Generic(m)),
                None => (r matches Ok(ctx) && ctx.geometry == self.geometry->0
                    && ctx.lattice_constant == self.lattice_constant->0
                    && *ctx.elements == self.elements->0
                    && ctx.rotation_variant == self.rotation_variant->0
                    && ctx.tilt_axis_angle == (match self.tilt_axis {
                        Some(axis) => Some((axis, tilt_of(*self))),
                        None => None,
                    })),
            },
    {
        let geometry = match self.geometry {
            Some(g) => g,
            None => {
                return Err(Error::Generic("Cell geometry not set".to_string()));
            },
        };
        let lattice_constant = match self.lattice_constant {
            Some(l) => l,
            None => {
                return Err(Error::Generic("Lattice constant is not set".to_string()));
            },
        };
        let elements = match &self.elements {
            Some(e) => e,
            None => {
                return Err(Error::Generic("Elements are not set".to_string()));
            },
        };
        let rotation_variant = match self.rotation_variant {
            Some(v) => v,
            None => {
                return Err(Error::Generic("Rotation variant not specified".to_string()));
            },
        };
        let tilt_angle: u64 = match self.tilt_angle {
            Some(t) => t,
            None => 0,
        };
        if !is_finite_bits(lattice_constant) {
            return Err(Error::Generic("Lattice constant is infinite".to_string()));
        } else if is_at_most_zero_bits(lattice_constant) {
            return Err(Error::Generic("Lattice constant must be positive".to_string()));
        } else if is_nan_bits(lattice_constant) {
            return Err(Error::Generic("Lattice constant is NAN".to_string()));
        }
        if elements.len() != 3 {
            return Err(
                Error::Generic("Elements must be 3 (currently only ABO_3 supported)".to_string()),
            );
        }
        if !is_finite_bits(tilt_angle) {
            return Err(Error::Generic("Tilt angle is not finite".to_string()));
        } else if is_zero_bits(tilt_angle) && self.tilt_axis.is_some() {
            return Err(Error::Generic("Tilt angle is 0 but tilt axis was declared".to_string()));
        } else if !is_zero_bits(tilt_angle) && self.tilt_axis.is_none() {
            return Err(
                Error::Generic("Tilt angle is set but no tilt axis was declared".to_string()),
            );
        }
        let tilt_axis_angle = match self.tilt_axis {
            Some(axis) => Some((axis, tilt_angle)),
            None => None,
        };
        Ok(RefBuildContext { geometry, lattice_constant, elements, rotation_variant, tilt_axis_angle })
    }

    /// Builds the plan of a cubic reference cell; tetragonal cells are not
    /// built (the builder panics on them once they pass the checks).
    pub fn build(&self) -> (r: Result<RefCellPlan<Axis>, Error>)
        requires
            !(ref_refusal(*self) is None && self.geometry == Some(CellGeometry::Tetragonal)),
        ensures
            match ref_refusal(*self) {
                Some(m) => (r matches Err(e) && e@ == ErrorView::Generic(m)),
                None => (r matches Ok(plan)
                    && plan.cell_atoms.a@ == cubic_a_layout(self.elements->0@[0])
                    && plan.cell_atoms.b@ == seq![at(self.elements->0@[1], 0, 0, 0)]
                    && plan.cell_atoms.x@ == cubic_x_layout(self.elements->0@[2])
                    && plan.lattice_constant == self.lattice_constant->0
                    && plan.variant == self.rotation_variant->0
                    && plan.tilt_axis_angle == (match self.tilt_axis {
                        Some(axis) => Some((axis, tilt_of(*self))),
                        None => None,
                    })),
            },
    {
        let ctx = match self.validate_fields() {
            Ok(c) => c,
            Err(e) => {
                return Err(e);
            },
        };
        match ctx.geometry {
            CellGeometry::Cubic => {
                let cell_atoms = get_cubic_ref_atoms(ctx.elements);
                Ok(RefCellPlan {
                    cell_atoms,
                    lattice_constant: ctx.lattice_constant,
                    tilt_axis_angle: ctx.tilt_axis_angle,
                    variant: ctx.rotation_variant,
                })
            },
            CellGeometry::Tetragonal => vstd::pervasive::unreached(),
        }
    }
}

} // verus!
