//! The library's value types: chemical elements, coordinate conventions,
//! domain-wall kinds, atoms and the split of a supercell into its A, B and X
//! sites, and the library's error type.

use vstd::prelude::*;

use crate::text::chars_of;

verus! {

/// The chemical elements of the ABO3 perovskites handled here.
#[derive(Clone, Copy, Debug, PartialEq, Eq, Structural)]
pub enum Element {
    Sr,
    Ti,
    O,
    Unknown,
}

impl Default for Element {
    fn default() -> (r: Element)
        ensures
            r == Element::Unknown,
    {
        Element::Unknown
    }
}

/// The element a name denotes: the variant's own name, case-sensitive.
pub open spec fn element_named(s: Seq<char>) -> Option<Element> {
    if s == seq!['S', 'r'] {
        Some(Element::Sr)
    } else if s == seq!['T', 'i'] {
        Some(Element::Ti)
    } else if s == seq!['O'] {
        Some(Element::O)
    } else if s == seq!['U', 'n', 'k', 'n', 'o', 'w', 'n'] {
        Some(Element::Unknown)
    } else {
        None
    }
}

impl Element {
    /// Reads an element from its name, as written in the element line of a
    /// POSCAR or XDATCAR file.
    pub fn from_name(s: &str) -> (r: Option<Element>)
        ensures
            r == element_named(s@),
    {
        let c = chars_of(s);
        if c.len() == 2 && c[0] == 'S' && c[1] == 'r' {
            assert(c@ =~= seq!['S', 'r']);
            Some(Element::Sr)
        } else if c.len() == 2 && c[0] == 'T' && c[1] == 'i' {
            assert(c@ =~= seq!['T', 'i']);
            assert(c@ != seq!['S', 'r']);
            Some(Element::Ti)
        } else if c.len() == 1 && c[0] == 'O' {
            assert(c@ =~= seq!['O']);
            Some(Element::O)
        } else if c.len() == 7 && c[0] == 'U' && c[1] == 'n' && c[2] == 'k' && c[3] == 'n'
            && c[4] == 'o' && c[5] == 'w' && c[6] == 'n' {
            assert(c@ =~= seq!['U', 'n', 'k', 'n', 'o', 'w', 'n']);
            Some(Element::Unknown)
        } else {
            assert(c@ != seq!['S', 'r']) by {
                if c@ == seq!['S', 'r'] {
                    assert(c@[0] == 'S' && c@[1] == 'r');
                }
            }
            assert(c@ != seq!['T', 'i']) by {
                if c@ == seq!['T', 'i'] {
                    assert(c@[0] == 'T' && c@[1] == 'i');
                }
            }
            assert(c@ != seq!['O']) by {
                if c@ == seq!['O'] {
                    assert(c@[0] == 'O');
                }
            }
            assert(c@ != seq!['U', 'n', 'k', 'n', 'o', 'w', 'n']) by {
                if c@ == seq!['U', 'n', 'k', 'n', 'o', 'w', 'n'] {
                    assert(c@[0] == 'U' && c@[1] == 'n' && c@[2] == 'k' && c@[3] == 'n');
                    assert(c@[4] == 'o' && c@[5] == 'w' && c@[6] == 'n');
                }
            }
            None
        }
    }
}

/// Whether positions are given in fractions of the cell vectors or in
/// cartesian coordinates.
#[derive(Clone, Copy, Debug, PartialEq, Eq, Structural)]
pub enum Coordinates {
    Direct,
    Cartesian,
}

/// The convention a coordinate line names: `D` or `Direct`, `C` or
/// `Cartesian`, case-sensitive.
pub open spec fn coordinates_named(s: Seq<char>) -> Option<Coordinates> {
    if s == seq!['D'] || s == seq!['D', 'i', 'r', 'e', 'c', 't'] {
        Some(Coordinates::Direct)
    } else if s == seq!['C'] || s == seq!['C', 'a', 'r', 't', 'e', 's', 'i', 'a', 'n'] {
        Some(Coordinates::Cartesian)
    } else {
        None
    }
}

fn chars_are(c: &Vec<char>, w: &Vec<char>) -> (r: bool)
    ensures
        r == (c@ == w@),
{
    if c.len() != w.len() {
        return false;
    }
    let mut i: usize = 0;
    while i < c.len()
        invariant
            i <= c.len(),
            c.len() == w.len(),
            forall|j: int| 0 <= j < i ==> c@[j] == w@[j],
        decreases c.len() - i,
    {
        if c[i] != w[i] {
            return false;
        }
        i = i + 1;
    }
    assert(c@ =~= w@);
    true
}

impl Coordinates {
    /// Reads the coordinate convention from its name.
    pub fn from_name(s: &str) -> (r: Option<Coordinates>)
        ensures
            r == coordinates_named(s@),
    {
        let c = chars_of(s);
        let d = vec!['D'];
        let direct = vec!['D', 'i', 'r', 'e', 'c', 't'];
        let k = vec!['C'];
        let cartesian = vec!['C', 'a', 'r', 't', 'e', 's', 'i', 'a', 'n'];
        assert(d@ =~= seq!['D']);
        assert(direct@ =~= seq!['D', 'i', 'r', 'e', 'c', 't']);
        assert(k@ =~= seq!['C']);
        assert(cartesian@ =~= seq!['C', 'a', 'r', 't', 'e', 's', 'i', 'a', 'n']);
        if chars_are(&c, &d) || chars_are(&c, &direct) {
            Some(Coordinates::Direct)
        } else if chars_are(&c, &k) || chars_are(&c, &cartesian) {
            Some(Coordinates::Cartesian)
        } else {
            None
        }
    }
}

/// The kind of a ferroelastic domain wall.
#[derive(Clone, Copy, Debug, PartialEq, Eq, Structural)]
pub enum DWType {
    HT,
    HH,
    APB,
}

/// The side of a domain wall.
#[derive(Clone, Copy, Debug)]
pub enum DWSide {
    Left,
    Right,
}

/// The sign with which a unit cell's order parameter enters.
pub enum PhaseFactor {
    Negative,
    Positive,
}

/// A sense of rotation.
pub enum Rotation {
    Right,
    Left,
}

/// The symmetry of a unit cell.
#[derive(Clone, Copy, Debug, PartialEq, Eq, Structural)]
pub enum CellGeometry {
    Cubic,
    Tetragonal,
}

/// Which of the four in-plane orientations a reference cell takes.
#[derive(Clone, Copy, Debug, PartialEq, Eq, Structural)]
pub enum RotationVariant {
    R0,
    R90,
    R180,
    R270,
}

/// An atom: its element and its position, of whatever type positions have.
#[derive(Clone, Copy, Debug, PartialEq)]
pub struct Atom<P> {
    pub atom_type: Element,
    pub position: P,
}

impl<P> Atom<P> {
    pub fn new(atom_type: Element, position: P) -> (r: Self)
        ensures
            r.atom_type == atom_type,
            r.position == position,
    {
        Atom { atom_type, position }
    }
}

/// The errors of this library.
#[derive(Debug)]
pub enum Error {
    /// Reading the input stopped on an I/O error; the error itself stays
    /// with the reader.
    Io,
    /// A token that is not a floating-point literal.
    ParseFloatError(String),
    /// A token that is not an unsigned integer that fits in `usize`.
    ParseIntError(String),
    /// A token that names no variant of the enum asked for.
    ParseError(String),
    Format(String),
    SizeMismatch { expected: usize, got: usize },
    Generic(String),
}

/// What an [`Error`] says, with strings as sequences of characters.
pub enum ErrorView {
    Io,
    ParseFloatError(Seq<char>),
    ParseIntError(Seq<char>),
    ParseError(Seq<char>),
    Format(Seq<char>),
    SizeMismatch { expected: usize, got: usize },
    Generic(Seq<char>),
}

impl View for Error {
    type V = ErrorView;

    open spec fn view(&self) -> ErrorView {
        match self {
            Error::Io => ErrorView::Io,
            Error::ParseFloatError(s) => ErrorView::ParseFloatError(s@),
            Error::ParseIntError(s) => ErrorView::ParseIntError(s@),
            Error::ParseError(s) => ErrorView::ParseError(s@),
            Error::Format(s) => ErrorView::Format(s@),
            Error::SizeMismatch { expected, got } => ErrorView::SizeMismatch {
                expected: *expected,
                got: *got,
            },
            Error::Generic(s) => ErrorView::Generic(s@),
        }
    }
}

/// The displacements of the atoms of one cell from those of another, by
/// site.
pub struct AtomDisplacements<D> {
    pub a_site_displacements: Vec<D>,
    pub b_site_displacements: Vec<D>,
    pub x_site_displacements: Vec<D>,
}

/// The positions of `atoms`, in order.
pub open spec fn positions_of<P>(atoms: Seq<Atom<P>>) -> Seq<P> {
    atoms.map_values(|a: Atom<P>| a.position)
}

/// The atoms of a supercell of SrTiO3, split by site: A (Sr), B (Ti) and X
/// (O).
pub struct SupercellAtoms<P> {
    pub a_site: Vec<Atom<P>>,
    pub b_site: Vec<Atom<P>>,
    pub x_site: Vec<Atom<P>>,
}

impl<P: Copy> SupercellAtoms<P> {
    /// Splits `positions`, which lists the `n_sr` Sr positions, then the
    /// `n_ti` Ti positions, then the `n_o` O positions, into the three sites.
    pub fn new(positions: &Vec<P>, n_sr: usize, n_ti: usize, n_o: usize) -> (r: Result<Self, Error>)
        requires
            n_sr + n_ti + n_o <= usize::MAX,
        ensures
            positions@.len() == n_sr + n_ti + n_o <==> r is Ok,
            r matches Err(e) ==> e == (Error::SizeMismatch {
                expected: (n_sr + n_ti + n_o) as usize,
                got: positions@.len() as usize,
            }),
            r matches Ok(s) ==> {
                &&& s.a_site@.len() == n_sr
                &&& s.b_site@.len() == n_ti
                &&& s.x_site@.len() == n_o
                &&& forall|i: int| 0 <= i < n_sr ==> #[trigger] s.a_site@[i] == (Atom {
                    atom_type: Element::Sr,
                    position: positions@[i],
                })
                &&& forall|i: int| 0 <= i < n_ti ==> #[trigger] s.b_site@[i] == (Atom {
                    atom_type: Element::Ti,
                    position: positions@[n_sr + i],
                })
                &&& forall|i: int| 0 <= i < n_o ==> #[trigger] s.x_site@[i] == (Atom {
                    atom_type: Element::O,
                    position: positions@[n_sr + n_ti + i],
                })
                &&& positions_of(s.a_site@) + positions_of(s.b_site@) + positions_of(s.x_site@) == positions@
            },
    {
        let n_elements = n_sr + n_ti + n_o;
        if positions.len() == n_elements {
            let a_site = tagged(positions, 0, n_sr, Element::Sr);
            let b_site = tagged(positions, n_sr, n_sr + n_ti, Element::Ti);
            let x_site = tagged(positions, n_sr + n_ti, n_elements, Element::O);
            assert(positions_of(a_site@) + positions_of(b_site@) + positions_of(x_site@) =~= positions@);
            Ok(SupercellAtoms { a_site, b_site, x_site })
        } else {
            Err(Error::SizeMismatch { expected: n_elements, got: positions.len() })
        }
    }
}

/// The positions `positions[from..to]`, each as an atom of `element`.
fn tagged<P: Copy>(positions: &Vec<P>, from: usize, to: usize, element: Element) -> (r: Vec<Atom<P>>)
    requires
        from <= to <= positions@.len(),
    ensures
        r@.len() == to - from,
        forall|i: int| 0 <= i < to - from ==> #[trigger] r@[i] == (Atom {
            atom_type: element,
            position: positions@[from + i],
        }),
{
    let mut r: Vec<Atom<P>> = Vec::new();
    let mut i = from;
    while i < to
        invariant
            from <= i <= to <= positions@.len(),
            r@.len() == i - from,
            forall|j: int| 0 <= j < i - from ==> #[trigger] r@[j] == (Atom {
                atom_type: element,
                position: positions@[from + j],
            }),
        decreases to - i,
    {
        r.push(Atom { atom_type: element, position: positions[i] });
        i = i + 1;
    }
    r
}

} // verus!
