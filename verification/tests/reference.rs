use spade_core::cell::HalfSteps;
use spade_core::reference::RefCellBuilder;
use spade_core::types::{Atom, CellGeometry, Element, Error};

fn message<T>(r: Result<T, Error>) -> String {
    match r {
        Err(Error::Generic(m)) => m,
        Err(other) => panic!("expected a generic error, got {:?}", other),
        Ok(_) => panic!("expected an error"),
    }
}

fn elements() -> Vec<Element> {
    vec![Element::Sr, Element::Ti, Element::O]
}

#[test]
fn plain_builder_checks_fields_in_order() {
    let mut b: RefCellBuilder<char> = RefCellBuilder::new();
    assert_eq!(message(b.build()), "Lattice constant is not set");
    b.lattice_constant(3.9f64.to_bits());
    assert_eq!(message(b.build()), "Elements are not set");
    b.elements(vec![Element::Sr, Element::Ti]);
    assert_eq!(message(b.build()), "Cell geometry not set");
    b.geometry(CellGeometry::Cubic);
    assert_eq!(message(b.build()), "Expected 3 elements");
    b.elements(elements());
    assert!(b.build().is_ok());
}

#[test]
fn plain_builder_tilts_only_with_axis_and_angle() {
    let mut b: RefCellBuilder<char> = RefCellBuilder::new();
    b.lattice_constant(1.0f64.to_bits()).elements(elements()).geometry(CellGeometry::Cubic);
    assert!(b.build().unwrap().tilt_axis_angle.is_none());
    b.tilt_angle(0.5f64.to_bits());
    assert!(b.build().unwrap().tilt_axis_angle.is_none());
    b.tilt_axis('z');
    assert_eq!(b.build().unwrap().tilt_axis_angle, Some(('z', 0.5f64.to_bits())));
}

#[test]
fn plain_builder_plans_the_cubic_layout() {
    let mut b: RefCellBuilder<char> = RefCellBuilder::new();
    b.lattice_constant(2.0f64.to_bits()).elements(elements()).geometry(CellGeometry::Cubic);
    let plan = b.build().unwrap();
    assert_eq!(plan.lattice_constant, 2.0f64.to_bits());
    assert_eq!(plan.cell_atoms.a.len(), 8);
    assert_eq!(plan.cell_atoms.b, vec![Atom { atom_type: Element::Ti, position: HalfSteps { x: 0, y: 0, z: 0 } }]);
    assert_eq!(plan.cell_atoms.x[3], Atom { atom_type: Element::O, position: HalfSteps { x: 0, y: 1, z: 0 } });
}
