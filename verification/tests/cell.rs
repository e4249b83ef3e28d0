use nalgebra::{Matrix3, Rotation3, Unit, Vector3};
use spade_core::cell::{
    find_opposite, get_a_site_sequence, get_cubic_ref_atoms, get_pair_id, get_x_site_sequence,
    permute_inplace, split_atoms, split_front_back, HalfSteps, MDCellBuilder, RefCellBuilder,
    RefCellPlan, SimCellBuilder, UnitCellAtoms,
};
use spade_core::order::total_order_key;
use spade_core::types::{Atom, CellGeometry, DWType, Element, Error, RotationVariant};
use std::f64::consts::PI;

type Vector = Vector3<f64>;
type Matrix = Matrix3<f64>;
type UVector = Unit<Vector3<f64>>;
type Atoms = Vec<Atom<Vector>>;

fn key(x: f64) -> i64 {
    total_order_key(x.to_bits())
}

fn generic<T>(e: Result<T, Error>) -> String {
    match e {
        Err(Error::Generic(m)) => m,
        Err(other) => panic!("expected a generic error, got {:?}", other),
        Ok(_) => panic!("expected a generic error"),
    }
}

// ---------------------------------------------------------------- simulation cell builder

fn atoms() -> Atoms {
    let a = 1.0;
    let mut atoms = Atoms::new();
    atoms.push(Atom { atom_type: Element::Ti, position: Vector::zeros() });

    atoms.push(Atom { atom_type: Element::Sr, position: Vector::new(-a / 2.0, -a / 2.0, -a / 2.0) });
    atoms.push(Atom { atom_type: Element::Sr, position: Vector::new(-a / 2.0, a / 2.0, -a / 2.0) });
    atoms.push(Atom { atom_type: Element::Sr, position: Vector::new(a / 2.0, -a / 2.0, -a / 2.0) });
    atoms.push(Atom { atom_type: Element::Sr, position: Vector::new(a / 2.0, a / 2.0, -a / 2.0) });
    atoms.push(Atom { atom_type: Element::Sr, position: Vector::new(a / 2.0, -a / 2.0, a / 2.0) });
    atoms.push(Atom { atom_type: Element::Sr, position: Vector::new(a / 2.0, a / 2.0, a / 2.0) });
    atoms.push(Atom { atom_type: Element::Sr, position: Vector::new(-a / 2.0, -a / 2.0, a / 2.0) });
    atoms.push(Atom { atom_type: Element::Sr, position: Vector::new(-a / 2.0, a / 2.0, a / 2.0) });

    atoms.push(Atom { atom_type: Element::O, position: Vector::new(0.0, -a / 2.0, 0.0) });
    atoms.push(Atom { atom_type: Element::O, position: Vector::new(0.0, a / 2.0, 0.0) });
    atoms.push(Atom { atom_type: Element::O, position: Vector::new(0.0, 0.0, -a / 2.0) });
    atoms.push(Atom { atom_type: Element::O, position: Vector::new(0.0, 0.0, a / 2.0) });
    atoms.push(Atom { atom_type: Element::O, position: Vector::new(-a / 2.0, 0.0, 0.0) });
    atoms.push(Atom { atom_type: Element::O, position: Vector::new(a / 2.0, 0.0, 0.0) });

    atoms
}

fn prepare_builder() -> SimCellBuilder<Vector, Matrix> {
    let atoms = atoms();
    let cell_matrix = Matrix::from_diagonal(&Vector::new(1.0, 1.0, 1.0));
    let geometry = CellGeometry::Cubic;
    let elements = vec![Element::Sr, Element::Ti, Element::O];
    let dw_type = DWType::HT;

    let mut builder = SimCellBuilder::new();
    builder
        .geometry(geometry)
        .elements(elements.clone())
        .atoms(atoms)
        .cell_matrix(cell_matrix)
        .dw_type(dw_type);

    builder
}

#[test]
fn test_md_cell_builder_setters() {
    let builder = prepare_builder();

    let atoms = atoms();
    let cell_matrix = Matrix::from_diagonal(&Vector::new(1.0, 1.0, 1.0));
    let geometry = CellGeometry::Cubic;
    let elements = vec![Element::Sr, Element::Ti, Element::O];
    let dw_type = DWType::HT;

    assert_eq!(builder.geometry.unwrap(), geometry);
    assert_eq!(builder.elements.unwrap(), elements);
    assert_eq!(builder.atoms.unwrap(), atoms);
    assert_eq!(builder.cell_matrix.unwrap(), cell_matrix);
    assert_eq!(builder.dw_type.unwrap(), dw_type);
}

#[test]
fn test_md_cell_builder_validates_complete_cubic_context() {
    let builder = prepare_builder();

    assert!(builder.validate_fields().is_ok());
}

#[test]
fn test_md_cell_builder_errors_when_geometry_missing() {
    let mut builder = prepare_builder();
    builder.geometry = None;

    assert!(builder.validate_fields().is_err());
}

#[test]
fn test_md_cell_builder_errors_when_elements_missing() {
    let mut builder = prepare_builder();
    builder.elements = None;

    assert!(builder.validate_fields().is_err());
}

#[test]
fn test_md_cell_builder_errors_when_atoms_missing() {
    let mut builder = prepare_builder();
    builder.atoms = None;

    assert!(builder.validate_fields().is_err());
}

#[test]
fn test_md_cell_builder_errors_when_cell_matrix_missing() {
    let mut builder = prepare_builder();
    builder.cell_matrix = None;

    assert!(builder.validate_fields().is_err());
}

#[test]
fn test_md_cell_builder_errors_when_dw_type_missing() {
    let mut builder = prepare_builder();
    builder.dw_type = None;

    assert!(builder.validate_fields().is_err());
}

#[test]
fn test_md_cell_builder_errors_when_element_count_is_not_three() {
    let mut builder = prepare_builder();
    builder.elements = Some(vec![Element::Sr, Element::Ti]);

    assert!(builder.validate_fields().is_err());
}

#[test]
fn test_md_cell_builder_errors_when_cubic_atom_count_is_not_fifteen() {
    let mut builder = prepare_builder();
    builder.atoms = Some(vec![Atom { atom_type: Element::Ti, position: Vector::zeros() }]);

    assert!(builder.validate_fields().is_err());
}

#[test]
fn sim_cell_builder_messages_follow_the_order_of_the_checks() {
    let mut builder = prepare_builder();
    builder.atoms = Some(vec![Atom { atom_type: Element::Ti, position: Vector::zeros() }]);
    assert_eq!(generic(builder.validate_fields()), "Atom count for building cubic md cell is 1, expected: 15");

    builder.geometry = Some(CellGeometry::Tetragonal);
    assert_eq!(generic(builder.validate_fields()), "Tetragonal cells currently not supported");

    builder.elements = Some(vec![Element::Sr]);
    assert_eq!(generic(builder.validate_fields()), "Elements must be 3 (currently only ABO_3 supported)");

    builder.dw_type = None;
    assert_eq!(generic(builder.validate_fields()), "DW type is not set");

    builder.cell_matrix = None;
    assert_eq!(generic(builder.validate_fields()), "Cell matrix is not set");

    builder.atoms = None;
    assert_eq!(generic(builder.validate_fields()), "Atoms are not set");

    builder.elements = None;
    assert_eq!(generic(builder.validate_fields()), "Elements are not set");

    builder.geometry = None;
    assert_eq!(generic(builder.validate_fields()), "Cell geometry not set");
}

#[test]
fn sim_cell_builder_hands_the_checked_fields_to_the_construction() {
    let builder = prepare_builder();
    let built = builder.build(&|ctx| Ok::<usize, Error>(ctx.atoms.len() + ctx.elements.len()));
    assert_eq!(built.unwrap(), 18);

    let mut refused = prepare_builder();
    refused.dw_type = None;
    let built = refused.build(&|_ctx| Ok::<usize, Error>(0));
    assert_eq!(generic(built), "DW type is not set");
}

#[test]
fn md_cell_builder_checks_only_that_fields_are_set() {
    let mut builder: MDCellBuilder<Vector, Matrix, u8> = MDCellBuilder::new();
    assert_eq!(generic(builder.build(&|_ctx| Ok::<u8, Error>(0))), "Atom positions are not set");
    builder.atoms(vec![Atom { atom_type: Element::Ti, position: Vector::zeros() }]);
    assert_eq!(generic(builder.build(&|_ctx| Ok::<u8, Error>(0))), "Elements for mapping not set");
    builder.elements(vec![Element::Sr]);
    assert_eq!(generic(builder.build(&|_ctx| Ok::<u8, Error>(0))), "Cell matrix is not set");
    builder.cell_matrix(Matrix::identity());
    assert_eq!(generic(builder.build(&|_ctx| Ok::<u8, Error>(0))), "DW type is not set");
    builder.dw_type(DWType::HH);
    assert_eq!(generic(builder.build(&|_ctx| Ok::<u8, Error>(0))), "Cell Geometry is not set");
    builder.geometry(CellGeometry::Cubic).orientation(7);
    let built = builder.build(&|ctx| Ok::<u8, Error>(ctx.orientation.unwrap() + ctx.atoms.len() as u8));
    assert_eq!(built.unwrap(), 8);
}

// ---------------------------------------------------------------- splitting and sorting sites

#[test]
fn test_split_atoms() {
    let atoms = atoms();
    let elements = vec![Element::Sr, Element::Ti, Element::O];
    let (a_site, b_site, x_site) = split_atoms(atoms, &elements).unwrap();

    assert!(a_site.iter().all(|atom| atom.atom_type == elements[0]));
    assert!(b_site.iter().all(|atom| atom.atom_type == elements[1]));
    assert!(x_site.iter().all(|atom| atom.atom_type == elements[2]));
}

#[test]
fn split_atoms_keeps_the_order_and_count() {
    let atoms = atoms();
    let elements = vec![Element::Sr, Element::Ti, Element::O];
    let (a_site, b_site, x_site) = split_atoms(atoms.clone(), &elements).unwrap();
    assert_eq!((a_site.len(), b_site.len(), x_site.len()), (8, 1, 6));
    assert_eq!(a_site[1].position, atoms[2].position);
    assert_eq!(x_site[5].position, atoms[14].position);
}

#[test]
fn split_atoms_refuses_an_atom_of_no_site() {
    let atoms = vec![Atom { atom_type: Element::Unknown, position: Vector::zeros() }];
    let elements = vec![Element::Sr, Element::Ti, Element::O];
    assert_eq!(generic(split_atoms(atoms, &elements)), "Atom type not found in elements provided");
}

#[test]
fn split_front_back_follows_the_flags() {
    let (front, back) = split_front_back(vec![1, 2, 3, 4], &vec![true, false, false, true]);
    assert_eq!(front, vec![1, 4]);
    assert_eq!(back, vec![2, 3]);
}

#[test]
fn get_a_site_sequence_orders_one_plane() {
    // the front plane of the reference cell, as the cell lists it
    let atoms = vec!["(-,-,-)", "(+,-,-)", "(+,-,+)", "(-,-,+)"];
    let x_keys = vec![key(-0.5), key(0.5), key(0.5), key(-0.5)];
    let angle_keys = vec![key(1.25 * PI), key(1.75 * PI), key(0.25 * PI), key(0.75 * PI)];
    let sorted = get_a_site_sequence(atoms, &x_keys, &angle_keys).unwrap();
    assert_eq!(sorted, vec!["(-,-,-)", "(+,-,-)", "(+,-,+)", "(-,-,+)"]);
}

#[test]
fn get_a_site_sequence_refuses_an_empty_plane() {
    let atoms: Vec<u8> = vec![];
    assert_eq!(generic(get_a_site_sequence(atoms, &vec![], &vec![])), "atoms empty");
}

#[test]
fn get_pair_id_takes_the_last_largest() {
    assert_eq!(get_pair_id(&vec![3, 7, 7, 1]).unwrap(), 2);
    assert_eq!(generic(get_pair_id(&vec![])), "Couldn't find maximum");
}

#[test]
fn find_opposite_pairs_atoms_across_the_centre() {
    // four atoms on the axes: 0 opposite 2, 1 opposite 3
    let keys = vec![
        vec![key(1.0), key(0.0), key(1.0), key(0.0)],
        vec![key(0.0), key(1.0), key(0.0), key(1.0)],
        vec![key(1.0), key(0.0), key(1.0), key(0.0)],
        vec![key(0.0), key(1.0), key(0.0), key(1.0)],
    ];
    let pairs = find_opposite(vec!['a', 'b', 'c', 'd'], &keys).unwrap();
    // 'a' is taken first; swap_remove moves 'd' to its place, so 'd' is next
    assert_eq!(pairs, vec![('a', 'c'), ('d', 'b')]);
}

#[test]
fn find_opposite_refuses_an_odd_atom() {
    let keys = vec![vec![key(1.0)]];
    assert_eq!(generic(find_opposite(vec!['a'], &keys)), "Couldn't find maximum");
}

#[test]
fn get_x_site_sequence_orders_the_pairs() {
    let pairs = vec![('x', 'X'), ('y', 'Y'), ('z', 'Z')];
    let y_keys = vec![key(0.0), key(1.0), key(0.0)];
    let diag_keys = vec![key(1.0), key(0.0), key(0.0)];
    let sorted = get_x_site_sequence(pairs, &y_keys, &diag_keys).unwrap();
    assert_eq!(sorted, vec!['y', 'x', 'z', 'Y', 'X', 'Z']);
}

#[test]
fn get_x_site_sequence_refuses_a_single_pair() {
    let pairs = vec![('x', 'X')];
    assert_eq!(generic(get_x_site_sequence(pairs, &vec![key(1.0)], &vec![key(1.0)])), "Couldn't find maximum");
}

// ---------------------------------------------------------------- reference cell builder

struct Context {
    geometry: CellGeometry,
    lattice_const: f64,
    elements: Vec<Element>,
    tilt_angle: f64,
    tilt_axis: UVector,
    rotation_variant: RotationVariant,
}

impl Context {
    fn cubic() -> Context {
        Context {
            geometry: CellGeometry::Cubic,
            lattice_const: 1.0,
            elements: vec![Element::Sr, Element::Ti, Element::O],
            tilt_angle: PI / 2.0,
            tilt_axis: UVector::new_normalize(Vector::new(0.0, 0.0, 1.0)),
            rotation_variant: RotationVariant::R0,
        }
    }
}

fn realize(atoms: &[Atom<HalfSteps>], lattice_constant: f64) -> Atoms {
    atoms
        .iter()
        .map(|a| Atom {
            atom_type: a.atom_type,
            position: Vector::new(a.position.x as f64, a.position.y as f64, a.position.z as f64) * lattice_constant
                / 2.0,
        })
        .collect()
}

/// The atoms of a planned reference cell at their positions.
fn positions_of(plan: &RefCellPlan<UVector>) -> (Atoms, Atoms, Atoms) {
    let a = f64::from_bits(plan.lattice_constant);
    let mut x = realize(&plan.cell_atoms.x, a);
    if let Some((axis, angle)) = plan.tilt_axis_angle {
        let rot = Rotation3::from_axis_angle(&axis, f64::from_bits(angle));
        for atom in x.iter_mut() {
            atom.position = rot * atom.position;
        }
    }
    (realize(&plan.cell_atoms.a, a), realize(&plan.cell_atoms.b, a), x)
}

fn mass(e: Element) -> f64 {
    match e {
        Element::Sr => 87.62,
        Element::Ti => 47.867,
        Element::O => 15.999,
        Element::Unknown => f64::NAN,
    }
}

fn center_of_mass(sites: &[&Atoms]) -> Vector {
    let mut weighted = Vector::zeros();
    let mut total = 0.0;
    for site in sites {
        for atom in site.iter() {
            weighted += mass(atom.atom_type) * atom.position;
            total += mass(atom.atom_type);
        }
    }
    weighted / total
}

fn check_a_atoms_position(a_atoms: &Atoms) {
    // -y plane
    assert!(a_atoms[0].position.x.is_sign_negative());
    assert!(a_atoms[0].position.y.is_sign_negative());
    assert!(a_atoms[0].position.z.is_sign_negative());

    assert!(a_atoms[1].position.x.is_sign_positive());
    assert!(a_atoms[1].position.y.is_sign_negative());
    assert!(a_atoms[1].position.z.is_sign_negative());

    assert!(a_atoms[2].position.x.is_sign_positive());
    assert!(a_atoms[2].position.y.is_sign_negative());
    assert!(a_atoms[2].position.z.is_sign_positive());

    assert!(a_atoms[3].position.x.is_sign_negative());
    assert!(a_atoms[3].position.y.is_sign_negative());
    assert!(a_atoms[3].position.z.is_sign_positive());

    // +y plane
    assert!(a_atoms[4].position.x.is_sign_negative());
    assert!(a_atoms[4].position.y.is_sign_positive());
    assert!(a_atoms[4].position.z.is_sign_negative());

    assert!(a_atoms[5].position.x.is_sign_positive());
    assert!(a_atoms[5].position.y.is_sign_positive());
    assert!(a_atoms[5].position.z.is_sign_negative());

    assert!(a_atoms[6].position.x.is_sign_positive());
    assert!(a_atoms[6].position.y.is_sign_positive());
    assert!(a_atoms[6].position.z.is_sign_positive());

    assert!(a_atoms[7].position.x.is_sign_negative());
    assert!(a_atoms[7].position.y.is_sign_positive());
    assert!(a_atoms[7].position.z.is_sign_positive());
}

fn check_b_atoms_position(b_atoms: &Atoms) {
    assert_eq!(b_atoms[0].position, Vector::zeros())
}

fn check_x_atoms_position_untilted(x_atoms: &Atoms) {
    // front
    assert_eq!(x_atoms[0].position.x, 0.0);
    assert!(x_atoms[0].position.y.is_sign_negative());
    assert_eq!(x_atoms[0].position.z, 0.0);
    //bottom
    assert_eq!(x_atoms[1].position.x, 0.0);
    assert_eq!(x_atoms[1].position.y, 0.0);
    assert!(x_atoms[1].position.z.is_sign_negative());
    //left
    assert!(x_atoms[2].position.x.is_sign_negative());
    assert_eq!(x_atoms[2].position.y, 0.0);
    assert_eq!(x_atoms[2].position.z, 0.0);
    // back
    assert_eq!(x_atoms[3].position.x, 0.0);
    assert!(x_atoms[3].position.y.is_sign_positive());
    assert_eq!(x_atoms[3].position.z, 0.0);
    //top
    assert_eq!(x_atoms[4].position.x, 0.0);
    assert_eq!(x_atoms[4].position.y, 0.0);
    assert!(x_atoms[4].position.z.is_sign_positive());
    //right
    assert!(x_atoms[5].position.x.is_sign_positive());
    assert_eq!(x_atoms[5].position.y, 0.0);
    assert_eq!(x_atoms[5].position.z, 0.0);
}

fn check_x_atoms_position_tilted(x_atoms: &Atoms) {
    let eps = 1e-12;

    assert!((x_atoms[0].position.x - 0.5).abs() < eps);
    assert!(x_atoms[0].position.y.abs() < eps);
    assert!(x_atoms[0].position.z.abs() < eps);

    assert!(x_atoms[1].position.x.abs() < eps);
    assert!(x_atoms[1].position.y.abs() < eps);
    assert!((x_atoms[1].position.z - (-0.5)).abs() < eps);

    assert!(x_atoms[2].position.x.abs() < eps);
    assert!((x_atoms[2].position.y - (-0.5)).abs() < eps);
    assert!(x_atoms[2].position.z.abs() < eps);

    assert!((x_atoms[3].position.x - (-0.5)).abs() < eps);
    assert!(x_atoms[3].position.y.abs() < eps);
    assert!(x_atoms[3].position.z.abs() < eps);

    assert!(x_atoms[4].position.x.abs() < eps);
    assert!(x_atoms[4].position.y.abs() < eps);
    assert!((x_atoms[4].position.z - 0.5).abs() < eps);

    assert!(x_atoms[5].position.x.abs() < eps);
    assert!((x_atoms[5].position.y - 0.5).abs() < eps);
    assert!(x_atoms[5].position.z.abs() < eps);
}

fn check_atoms_element(atoms: &Atoms, element: Element) {
    for atom in atoms.iter().enumerate() {
        assert_eq!(atom.1.atom_type, element, "(idx, atom): {:#?}", atom)
    }
}

#[test]
fn test_build_no_tilts() {
    let ctx = Context::cubic();
    let cell = RefCellBuilder::new()
        .elements(ctx.elements.clone())
        .lattice_constant(ctx.lattice_const.to_bits())
        .geometry(ctx.geometry)
        .rotation_variant(ctx.rotation_variant)
        .build()
        .unwrap();

    let (a_atoms, b_atoms, x_atoms) = positions_of(&cell);

    check_a_atoms_position(&a_atoms);
    check_b_atoms_position(&b_atoms);
    check_x_atoms_position_untilted(&x_atoms);

    check_atoms_element(&a_atoms, ctx.elements[0]);
    check_atoms_element(&b_atoms, ctx.elements[1]);
    check_atoms_element(&x_atoms, ctx.elements[2]);

    assert!(center_of_mass(&[&a_atoms, &b_atoms, &x_atoms]).norm() < 1e-12);
    assert_eq!(cell.variant, ctx.rotation_variant)
}

#[test]
fn test_build_with_tilts() {
    let ctx = Context::cubic();
    let cell = RefCellBuilder::new()
        .elements(ctx.elements.clone())
        .lattice_constant(ctx.lattice_const.to_bits())
        .geometry(ctx.geometry)
        .tilt_axis(ctx.tilt_axis)
        .tilt_angle(ctx.tilt_angle.to_bits())
        .rotation_variant(ctx.rotation_variant)
        .build()
        .unwrap();

    let (a_atoms, b_atoms, x_atoms) = positions_of(&cell);

    check_a_atoms_position(&a_atoms);
    check_b_atoms_position(&b_atoms);
    check_x_atoms_position_tilted(&x_atoms);

    check_atoms_element(&a_atoms, ctx.elements[0]);
    check_atoms_element(&b_atoms, ctx.elements[1]);
    check_atoms_element(&x_atoms, ctx.elements[2]);

    assert!(center_of_mass(&[&a_atoms, &b_atoms, &x_atoms]).norm() < 1e-12);
    assert_eq!(cell.variant, ctx.rotation_variant)
}

#[test]
fn test_build_errors_when_geometry_missing() {
    let ctx = Context::cubic();
    let res = RefCellBuilder::<UVector>::new()
        .elements(ctx.elements)
        .lattice_constant(ctx.lattice_const.to_bits())
        .rotation_variant(ctx.rotation_variant)
        .build();

    assert!(res.is_err());
}

#[test]
fn test_build_errors_when_lattice_constant_missing() {
    let ctx = Context::cubic();
    let res = RefCellBuilder::<UVector>::new()
        .elements(ctx.elements)
        .geometry(ctx.geometry)
        .rotation_variant(ctx.rotation_variant)
        .build();

    assert!(res.is_err());
}

#[test]
fn test_build_errors_when_elements_missing() {
    let ctx = Context::cubic();
    let res = RefCellBuilder::<UVector>::new()
        .lattice_constant(ctx.lattice_const.to_bits())
        .geometry(ctx.geometry)
        .rotation_variant(ctx.rotation_variant)
        .build();

    assert!(res.is_err());
}

#[test]
fn test_build_errors_when_rotation_variant_missing() {
    let ctx = Context::cubic();
    let res = RefCellBuilder::<UVector>::new()
        .elements(ctx.elements)
        .lattice_constant(ctx.lattice_const.to_bits())
        .geometry(ctx.geometry)
        .build();

    assert!(res.is_err());
}

#[test]
fn test_build_errors_when_element_count_is_not_three() {
    let ctx = Context::cubic();
    let res = RefCellBuilder::<UVector>::new()
        .elements(vec![Element::Sr, Element::Ti])
        .lattice_constant(ctx.lattice_const.to_bits())
        .geometry(ctx.geometry)
        .rotation_variant(ctx.rotation_variant)
        .build();

    assert!(res.is_err());
}

fn valid_cubic_builder_with_lattice(lattice_const: f64) -> RefCellBuilder<UVector> {
    let ctx = Context::cubic();
    let mut builder = RefCellBuilder::new();
    builder
        .elements(ctx.elements)
        .lattice_constant(lattice_const.to_bits())
        .geometry(ctx.geometry)
        .rotation_variant(ctx.rotation_variant);
    builder
}

#[test]
fn test_build_errors_when_lattice_constant_is_zero() {
    let res = valid_cubic_builder_with_lattice(0.0).build();

    assert!(res.is_err());
}

#[test]
fn test_build_errors_when_lattice_constant_is_negative() {
    let res = valid_cubic_builder_with_lattice(-1.0).build();

    assert!(res.is_err());
}

#[test]
fn test_build_errors_when_lattice_constant_is_nan() {
    let res = valid_cubic_builder_with_lattice(f64::NAN).build();

    assert!(res.is_err());
}

#[test]
fn test_build_errors_when_lattice_constant_is_infinite() {
    let res = valid_cubic_builder_with_lattice(f64::INFINITY).build();

    assert!(res.is_err());
}

#[test]
fn test_build_accepts_zero_tilt_angle_without_axis() {
    let ctx = Context::cubic();
    let res = RefCellBuilder::<UVector>::new()
        .elements(ctx.elements)
        .lattice_constant(ctx.lattice_const.to_bits())
        .geometry(ctx.geometry)
        .rotation_variant(ctx.rotation_variant)
        .tilt_angle(0.0f64.to_bits())
        .build();

    assert!(res.is_ok());
}

#[test]
fn test_build_errors_when_tilt_axis_is_set_without_angle() {
    let ctx = Context::cubic();
    let res = RefCellBuilder::new()
        .elements(ctx.elements)
        .lattice_constant(ctx.lattice_const.to_bits())
        .geometry(ctx.geometry)
        .rotation_variant(ctx.rotation_variant)
        .tilt_axis(ctx.tilt_axis)
        .build();

    assert!(res.is_err());
}

#[test]
fn test_build_errors_when_tilt_axis_is_set_with_zero_angle() {
    let ctx = Context::cubic();
    let res = RefCellBuilder::new()
        .elements(ctx.elements)
        .lattice_constant(ctx.lattice_const.to_bits())
        .geometry(ctx.geometry)
        .rotation_variant(ctx.rotation_variant)
        .tilt_axis(ctx.tilt_axis)
        .tilt_angle(0.0f64.to_bits())
        .build();

    assert!(res.is_err());
}

#[test]
fn test_build_errors_when_nonzero_tilt_angle_has_no_axis() {
    let ctx = Context::cubic();
    let res = RefCellBuilder::<UVector>::new()
        .elements(ctx.elements)
        .lattice_constant(ctx.lattice_const.to_bits())
        .geometry(ctx.geometry)
        .rotation_variant(ctx.rotation_variant)
        .tilt_angle(ctx.tilt_angle.to_bits())
        .build();

    assert!(res.is_err());
}

#[test]
fn test_build_errors_when_tilt_angle_is_nan() {
    let ctx = Context::cubic();
    let res = RefCellBuilder::new()
        .elements(ctx.elements)
        .lattice_constant(ctx.lattice_const.to_bits())
        .geometry(ctx.geometry)
        .rotation_variant(ctx.rotation_variant)
        .tilt_axis(ctx.tilt_axis)
        .tilt_angle(f64::NAN.to_bits())
        .build();

    assert!(res.is_err());
}

#[test]
fn test_build_errors_when_tilt_angle_is_infinite() {
    let ctx = Context::cubic();
    let res = RefCellBuilder::new()
        .elements(ctx.elements)
        .lattice_constant(ctx.lattice_const.to_bits())
        .geometry(ctx.geometry)
        .rotation_variant(ctx.rotation_variant)
        .tilt_axis(ctx.tilt_axis)
        .tilt_angle(f64::INFINITY.to_bits())
        .build();

    assert!(res.is_err());
}

#[test]
fn reference_builder_messages_follow_the_order_of_the_checks() {
    assert_eq!(generic(valid_cubic_builder_with_lattice(f64::NAN).build()), "Lattice constant is infinite");
    assert_eq!(generic(valid_cubic_builder_with_lattice(f64::INFINITY).build()), "Lattice constant is infinite");
    assert_eq!(generic(valid_cubic_builder_with_lattice(-0.0).build()), "Lattice constant must be positive");
    assert_eq!(generic(valid_cubic_builder_with_lattice(-2.5).build()), "Lattice constant must be positive");

    let mut b = valid_cubic_builder_with_lattice(1.0);
    b.tilt_angle(f64::NEG_INFINITY.to_bits());
    assert_eq!(generic(b.build()), "Tilt angle is not finite");
    b.tilt_angle(0.3f64.to_bits());
    assert_eq!(generic(b.build()), "Tilt angle is set but no tilt axis was declared");
    b.tilt_angle((-0.0f64).to_bits()).tilt_axis(UVector::new_normalize(Vector::new(1.0, 0.0, 0.0)));
    assert_eq!(generic(b.build()), "Tilt angle is 0 but tilt axis was declared");

    let mut empty: RefCellBuilder<UVector> = RefCellBuilder::new();
    assert_eq!(generic(empty.build()), "Cell geometry not set");
    empty.geometry(CellGeometry::Cubic);
    assert_eq!(generic(empty.build()), "Lattice constant is not set");
    empty.lattice_constant(1.0f64.to_bits());
    assert_eq!(generic(empty.build()), "Elements are not set");
    empty.elements(vec![]);
    assert_eq!(generic(empty.build()), "Rotation variant not specified");
    empty.rotation_variant(RotationVariant::R90);
    assert_eq!(generic(empty.build()), "Elements must be 3 (currently only ABO_3 supported)");
}

#[test]
fn cubic_reference_atoms_are_laid_out_in_half_lattice_constants() {
    let atoms = get_cubic_ref_atoms(&vec![Element::Sr, Element::Ti, Element::O]);
    let hs = |x, y, z| HalfSteps { x, y, z };
    assert_eq!(atoms.a.len(), 8);
    assert_eq!(atoms.a[0], Atom { atom_type: Element::Sr, position: hs(-1, -1, -1) });
    assert_eq!(atoms.a[6], Atom { atom_type: Element::Sr, position: hs(1, 1, 1) });
    assert_eq!(atoms.b, vec![Atom { atom_type: Element::Ti, position: hs(0, 0, 0) }]);
    assert_eq!(atoms.x.len(), 6);
    assert_eq!(atoms.x[0], Atom { atom_type: Element::O, position: hs(0, -1, 0) });
    assert_eq!(atoms.x[5], Atom { atom_type: Element::O, position: hs(1, 0, 0) });
}

#[test]
fn permute_inplace_keeps_the_variant_r0() {
    let mut atoms: UnitCellAtoms<u8> = UnitCellAtoms {
        a: vec![Atom::new(Element::Sr, 1)],
        b: vec![Atom::new(Element::Ti, 2)],
        x: vec![Atom::new(Element::O, 3)],
    };
    permute_inplace(&mut atoms, RotationVariant::R0);
    assert_eq!(atoms.a, vec![Atom::new(Element::Sr, 1)]);
    assert_eq!(atoms.b, vec![Atom::new(Element::Ti, 2)]);
    assert_eq!(atoms.x, vec![Atom::new(Element::O, 3)]);
}

#[test]
fn displacements_from_pairs_the_sites() {
    let cell = UnitCellAtoms {
        a: vec![Atom::new(Element::Sr, 5i64), Atom::new(Element::Sr, 7)],
        b: vec![Atom::new(Element::Ti, 1)],
        x: vec![Atom::new(Element::O, 10)],
    };
    let reference = UnitCellAtoms {
        a: vec![Atom::new(Element::Sr, 1i64), Atom::new(Element::Sr, 2)],
        b: vec![Atom::new(Element::Ti, 1)],
        x: vec![Atom::new(Element::O, 4)],
    };
    let d = cell.displacements_from(&reference, &|l: i64, r: i64| l - r).unwrap();
    assert_eq!(d.a_site_displacements, vec![4, 5]);
    assert_eq!(d.b_site_displacements, vec![0]);
    assert_eq!(d.x_site_displacements, vec![6]);

    let short = UnitCellAtoms { a: vec![Atom::new(Element::Sr, 1i64)], b: vec![], x: vec![] };
    match cell.displacements_from(&short, &|l: i64, r: i64| l - r) {
        Err(Error::SizeMismatch { expected, got }) => assert_eq!((expected, got), (2, 1)),
        _ => panic!("expected a size mismatch on the A site"),
    }
}

#[test]
fn find_opposite_refuses_an_odd_count_of_atoms() {
    let keys = vec![
        vec![key(1.0), key(0.0), key(1.0)],
        vec![key(0.0), key(1.0), key(0.0)],
        vec![key(1.0), key(0.0), key(1.0)],
    ];
    assert_eq!(generic(find_opposite(vec!['a', 'b', 'c'], &keys)), "Couldn't find maximum");
}
