use nalgebra::{Unit, UnitQuaternion, Vector3};
use spade_core::cell::split_atoms;
use spade_core::cubic::{sort_a_site_atoms_twin, sort_atoms, sort_x_site_atoms_twin, SiteKeys};
use spade_core::order::total_order_key;
use spade_core::types::{Atom, DWType, Element, Error};
use std::f64::consts::PI;

type Vector = Vector3<f64>;
type Atoms = Vec<Atom<Vector>>;

fn key(x: f64) -> i64 {
    total_order_key(x.to_bits())
}

fn x_angle(v: &Vector) -> f64 {
    let mut angle = v[2].atan2(v[0]);
    if angle < 0.0 {
        angle += 2.0 * PI;
    }
    angle
}

fn table(atoms: &Atoms, f: impl Fn(&Vector, &Vector) -> f64) -> Vec<Vec<i64>> {
    atoms.iter().map(|a| atoms.iter().map(|b| key(f(&a.position, &b.position))).collect()).collect()
}

/// The keys of the site sorting for atoms around `com`.
fn site_keys(a_site: &Atoms, x_site: &Atoms, com: Vector) -> SiteKeys {
    let diagonal = Vector::new(1.0, 0.0, -1.0);
    SiteKeys {
        a_in_front: a_site.iter().map(|a| a.position[1] < com[1]).collect(),
        a_x: a_site.iter().map(|a| key(a.position[0])).collect(),
        a_angle: a_site.iter().map(|a| key(x_angle(&a.position))).collect(),
        x_cos: table(x_site, |p, q| (p - com).normalize().dot(&(q - com).normalize()).abs()),
        x_y: table(x_site, |p, q| (q - p).normalize().dot(&Vector::y()).abs()),
        x_diag: table(x_site, |p, q| (q - p).normalize().dot(&diagonal).abs()),
    }
}

fn atoms_cart() -> Atoms {
    let a = 1.0;
    let mut atoms = Atoms::new();
    atoms.push(Atom { atom_type: Element::Ti, position: Vector::zeros() });

    atoms.push(Atom { atom_type: Element::Sr, position: Vector::new(-a / 2.0, -a / 2.0, -a / 2.0) });
    atoms.push(Atom { atom_type: Element::Sr, position: Vector::new(-a / 2.0, a / 2.0, -a / 2.0) });
    atoms.push(Atom { atom_type: Element::Sr, position: Vector::new(a / 2.0, -a / 2.0, -a / 2.0) });
    atoms.push(Atom { atom_type: Element::Sr, position: Vector::new(a / 2.0, a / 2.0, -a / 2.0) });
    atoms.push(Atom { atom_type: Element::Sr, position: Vector::new(a / 2.0, -a / 2.0, a / 2.0) });
    atoms.push(Atom { atom_type: Element::Sr, position: Vector::new(a / 2.0, a / 2.0, a / 2.0) });
    atoms.push(Atom { atom_type: Element::Sr, position: Vector::new(-a / 2.0, -a / 2.0, a / 2.0) });
    atoms.push(Atom { atom_type: Element::Sr, position: Vector::new(-a / 2.0, a / 2.0, a / 2.0) });

    atoms.push(Atom { atom_type: Element::O, position: Vector::new(0.0, -a / 2.0, 0.0) });
    atoms.push(Atom { atom_type: Element::O, position: Vector::new(0.0, a / 2.0, 0.0) });
    atoms.push(Atom { atom_type: Element::O, position: Vector::new(0.0, 0.0, -a / 2.0) });
    atoms.push(Atom { atom_type: Element::O, position: Vector::new(0.0, 0.0, a / 2.0) });
    atoms.push(Atom { atom_type: Element::O, position: Vector::new(-a / 2.0, 0.0, 0.0) });
    atoms.push(Atom { atom_type: Element::O, position: Vector::new(a / 2.0, 0.0, 0.0) });

    atoms
}

fn approx_eq(lhs: Atom<Vector>, rhs: Atom<Vector>) -> bool {
    let diff = lhs.position - rhs.position;
    if diff.norm_squared() <= f64::EPSILON {
        true
    } else {
        false
    }
}

#[test]
fn test_sort_atoms_twin() {
    let atoms = atoms_cart();
    let elements = vec![Element::Sr, Element::Ti, Element::O];
    let atoms_split = split_atoms(atoms, &elements).unwrap();
    let com = Vector::zeros();
    let keys = site_keys(&atoms_split.0, &atoms_split.2, com);

    let (mut a_atoms, _b_atoms, mut x_atoms) = sort_atoms(atoms_split, DWType::HT, &keys).unwrap();

    let a = 1.0;
    let mut a_site = vec![
        Atom { atom_type: Element::Sr, position: Vector::new(-a / 2.0, -a / 2.0, -a / 2.0) },
        Atom { atom_type: Element::Sr, position: Vector::new(a / 2.0, -a / 2.0, -a / 2.0) },
        Atom { atom_type: Element::Sr, position: Vector::new(a / 2.0, -a / 2.0, a / 2.0) },
        Atom { atom_type: Element::Sr, position: Vector::new(-a / 2.0, -a / 2.0, a / 2.0) },
        Atom { atom_type: Element::Sr, position: Vector::new(-a / 2.0, a / 2.0, -a / 2.0) },
        Atom { atom_type: Element::Sr, position: Vector::new(a / 2.0, a / 2.0, -a / 2.0) },
        Atom { atom_type: Element::Sr, position: Vector::new(a / 2.0, a / 2.0, a / 2.0) },
        Atom { atom_type: Element::Sr, position: Vector::new(-a / 2.0, a / 2.0, a / 2.0) },
    ];

    let mut x_site = vec![
        Atom { atom_type: Element::O, position: Vector::new(0.0, -a / 2.0, 0.0) },
        Atom { atom_type: Element::O, position: Vector::new(0.0, 0.0, -a / 2.0) },
        Atom { atom_type: Element::O, position: Vector::new(-a / 2.0, 0.0, 0.0) },
        Atom { atom_type: Element::O, position: Vector::new(0.0, a / 2.0, 0.0) },
        Atom { atom_type: Element::O, position: Vector::new(0.0, 0.0, a / 2.0) },
        Atom { atom_type: Element::O, position: Vector::new(a / 2.0, 0.0, 0.0) },
    ];

    // rotate into 45 degree rotated frame
    let q = UnitQuaternion::from_axis_angle(&Unit::new_normalize(Vector::new(0.0, 1.0, 0.0)), PI / 4.0);
    a_site.iter_mut().for_each(|atom| atom.position = q.clone() * atom.position);
    a_atoms.iter_mut().for_each(|atom| atom.position = q.clone() * atom.position);

    x_site.iter_mut().for_each(|atom| atom.position = q.clone() * atom.position);
    x_atoms.iter_mut().for_each(|atom| atom.position = q * atom.position);

    for (&lhs, rhs) in a_site.iter().zip(a_atoms) {
        assert!(approx_eq(lhs, rhs), "A site error");
    }

    // at the time of UC construction only the pair along y side
    // can be classified confidently
    assert!(approx_eq(x_atoms[0], x_site[0]), "X site error");
    assert!(approx_eq(x_atoms[3], x_site[3]), "X site error");
}

#[test]
fn sort_atoms_keeps_the_b_site() {
    let atoms = atoms_cart();
    let elements = vec![Element::Sr, Element::Ti, Element::O];
    let atoms_split = split_atoms(atoms, &elements).unwrap();
    let b = atoms_split.1.clone();
    let keys = site_keys(&atoms_split.0, &atoms_split.2, Vector::zeros());
    let (a_atoms, b_atoms, x_atoms) = sort_atoms(atoms_split, DWType::HH, &keys).unwrap();
    assert_eq!(b_atoms, b);
    assert_eq!(a_atoms.len(), 8);
    assert_eq!(x_atoms.len(), 6);
}

#[test]
fn sort_a_site_refuses_a_plane_without_atoms() {
    let atoms: Vec<u8> = vec![1, 2];
    let r = sort_a_site_atoms_twin(atoms, &vec![true, true], &vec![0, 1], &vec![0, 1]);
    match r {
        Err(Error::Generic(m)) => assert_eq!(m, "atoms empty"),
        _ => panic!("expected an error for the empty back plane"),
    }
}

#[test]
fn sort_a_site_orders_each_plane_then_joins_them() {
    // front: 'a' (x 1) and 'b' (x 0); back: 'c' alone
    let atoms = vec!['a', 'c', 'b'];
    let in_front = vec![true, false, true];
    let x_keys = vec![1, 5, 0];
    let angle_keys = vec![0, 0, 9];
    let sorted = sort_a_site_atoms_twin(atoms, &in_front, &x_keys, &angle_keys).unwrap();
    // front: 'a' is the rightmost; the rest ['b'] then 'a', rotated left: ['a', 'b']
    assert_eq!(sorted, vec!['a', 'b', 'c']);
}

#[test]
fn sort_x_site_refuses_an_odd_atom() {
    let atoms = vec!['p', 'q', 'r'];
    let k = vec![vec![key(1.0); 3]; 3];
    match sort_x_site_atoms_twin(atoms, &k, &k, &k) {
        Err(Error::Generic(m)) => assert_eq!(m, "Couldn't find maximum"),
        _ => panic!("expected an error for the atom left without a partner"),
    }
}
