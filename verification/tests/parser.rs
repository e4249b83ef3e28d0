use spade_core::parser::{
    read_config_header, read_poscar, read_positions, read_xdatcar, scan_poscar, Flow, Lines, Parser,
    ReadResult, ReadResultVariant, Triple,
};
use spade_core::types::{Coordinates, Element, Error};
use std::io::{BufRead, BufReader, Seek, Write};
use tempfile::NamedTempFile;

fn write_file(lines: &[&str]) -> NamedTempFile {
    let mut file = NamedTempFile::new().unwrap();
    for line in lines {
        file.write_all(line.as_bytes()).unwrap();
        file.write_all(b"\n").unwrap();
    }
    file.seek(std::io::SeekFrom::Start(0)).unwrap();
    file
}

fn lines_of(file: NamedTempFile) -> Lines {
    let mut read = Vec::new();
    let mut failed = false;
    for line in BufReader::new(file).lines() {
        match line {
            Ok(l) => read.push(l),
            Err(_) => {
                failed = true;
                break;
            }
        }
    }
    Lines::new(read, failed)
}

fn lines_from(text: &[&str]) -> Lines {
    Lines::new(text.iter().map(|l| l.to_string()).collect(), false)
}

const CONFIG: [&str; 5] = [
    "0.000000000  0.000000000  0.000000000",
    "0.500000000  0.500000000  0.500000000",
    "0.500000000  0.500000000  0.000000000",
    "0.500000000  0.000000000  0.500000000",
    "0.000000000  0.500000000  0.500000000",
];

fn header() -> Vec<&'static str> {
    vec!["1.0", "3.9 0.0 0.0", "0.0 3.9 0.0", "0.0 0.0 3.9", "Sr Ti O", "1 1 3", "Direct"]
}

fn create_poscar() -> NamedTempFile {
    let mut text = vec!["Temp Poscar"];
    text.extend(header());
    text.extend(CONFIG);
    write_file(&text)
}

fn create_xdatcar() -> NamedTempFile {
    let mut text = vec!["Temp Poscar"];
    text.extend(header());
    text.extend(CONFIG);
    text.push("Direct");
    text.extend(CONFIG);
    text.push("Direct");
    text.extend(CONFIG);
    write_file(&text)
}

fn values(t: &Triple) -> [f64; 3] {
    [t.x.parse().unwrap(), t.y.parse().unwrap(), t.z.parse().unwrap()]
}

fn matrix(rows: &[Triple]) -> Vec<[f64; 3]> {
    rows.iter().map(values).collect()
}

fn control_positions() -> Vec<[f64; 3]> {
    vec![
        [0.0, 0.0, 0.0],
        [0.5, 0.5, 0.5],
        [0.5, 0.5, 0.0],
        [0.5, 0.0, 0.5],
        [0.0, 0.5, 0.5],
    ]
}

fn control_cell_matrix() -> Vec<[f64; 3]> {
    vec![[3.9, 0.0, 0.0], [0.0, 3.9, 0.0], [0.0, 0.0, 3.9]]
}

fn control_element_count() -> Vec<(Element, usize)> {
    vec![(Element::Sr, 1), (Element::Ti, 1), (Element::O, 3)]
}

fn check_control_result(res: &ReadResult) {
    assert_eq!(matrix(&res.positions), control_positions());
    assert_eq!(res.element_count, control_element_count());
    assert_eq!(matrix(&res.cell_matrix), control_cell_matrix());
    assert_eq!(res.coordinate_type, Coordinates::Direct);
}

#[test]
fn test_read_config_header() {
    let mut lines = lines_of(create_poscar());

    let _comment_line = lines.next_line().unwrap();
    let header = read_config_header(&mut lines).unwrap();

    let control_n_atoms_per_element: Vec<(Element, usize)> = control_element_count();
    let control_scaling_factor = 1.0;
    let contol_atom_count: usize = 5;

    assert_eq!(header.n_atoms_per_element, control_n_atoms_per_element);
    assert_eq!(header.atom_count, contol_atom_count);
    assert_eq!(header._scaling_factor.parse::<f64>().unwrap(), control_scaling_factor);
    assert_eq!(matrix(&header.cell_matrix), control_cell_matrix());
    assert_eq!(header.coordinate_type, Coordinates::Direct);
}

#[test]
fn test_read_positions() {
    let mut lines = lines_of(create_poscar());

    for _ in 0..8 {
        let _ = lines.next_line();
    }

    let positions = read_positions(5, &mut lines).unwrap();

    assert_eq!(matrix(&positions), control_positions());
}

#[test]
fn test_read_poscar() {
    let mut lines = lines_of(create_poscar());
    let res = read_poscar(&mut lines).unwrap();

    match res {
        ReadResultVariant::ReadResult { res } => check_control_result(&res),
        ReadResultVariant::ReadResults { .. } => panic!("a POSCAR file holds one configuration"),
    }
}

#[test]
fn test_read_xdatcar() {
    let mut lines = lines_of(create_xdatcar());
    let res = read_xdatcar(&mut lines).unwrap();

    match res {
        ReadResultVariant::ReadResults { res } => {
            assert_eq!(res.len(), 3);
            for r in &res {
                check_control_result(r);
            }
        }
        ReadResultVariant::ReadResult { .. } => panic!("an XDATCAR file holds a sequence"),
    }
}

#[test]
fn parser_read_dispatches_on_format() {
    let mut lines = lines_of(create_poscar());
    let poscar = Parser::Poscar.read(&mut lines).unwrap();
    assert!(matches!(poscar, ReadResultVariant::ReadResult { .. }));

    let mut lines = lines_of(create_xdatcar());
    let xdatcar = Parser::Xdatcar.read(&mut lines).unwrap();
    assert!(matches!(xdatcar, ReadResultVariant::ReadResults { ref res } if res.len() == 3));
}

#[test]
fn read_poscar_reports_an_empty_file() {
    let mut lines = lines_from(&[]);
    match read_poscar(&mut lines) {
        Err(Error::Format(m)) => assert_eq!(m, "File is empty"),
        other => panic!("unexpected {:?}", other),
    }
}

#[test]
fn read_poscar_reports_an_io_error_where_reading_stopped() {
    let mut lines = Lines::new(vec!["Temp Poscar".to_string()], true);
    assert!(matches!(read_poscar(&mut lines), Err(Error::Io)));
}

#[test]
fn read_poscar_reports_a_bad_scaling_factor() {
    let mut text = vec!["Temp Poscar", "one"];
    text.extend(&header()[1..]);
    text.extend(CONFIG);
    let mut lines = lines_from(&text);
    match read_poscar(&mut lines) {
        Err(Error::ParseFloatError(t)) => assert_eq!(t, "one"),
        other => panic!("unexpected {:?}", other),
    }
}

#[test]
fn read_poscar_reports_a_missing_lattice_vector() {
    let mut lines = lines_from(&["Temp Poscar", "1.0", "3.9 0.0 0.0"]);
    match read_poscar(&mut lines) {
        Err(Error::Format(m)) => assert_eq!(m, "Failed to read lattice vector"),
        other => panic!("unexpected {:?}", other),
    }
}

#[test]
fn read_poscar_reports_an_unknown_element() {
    let mut text = vec!["Temp Poscar"];
    let mut h = header();
    h[4] = "Sr Ba O";
    text.extend(h);
    text.extend(CONFIG);
    let mut lines = lines_from(&text);
    match read_poscar(&mut lines) {
        Err(Error::ParseError(t)) => assert_eq!(t, "Ba"),
        other => panic!("unexpected {:?}", other),
    }
}

#[test]
fn read_poscar_reports_a_bad_count() {
    let mut text = vec!["Temp Poscar"];
    let mut h = header();
    h[5] = "1 x 3";
    text.extend(h);
    text.extend(CONFIG);
    let mut lines = lines_from(&text);
    match read_poscar(&mut lines) {
        Err(Error::ParseIntError(t)) => assert_eq!(t, "x"),
        other => panic!("unexpected {:?}", other),
    }
}

#[test]
fn read_poscar_reports_an_unknown_coordinate_type() {
    let mut text = vec!["Temp Poscar"];
    let mut h = header();
    h[6] = "Reciprocal";
    text.extend(h);
    text.extend(CONFIG);
    let mut lines = lines_from(&text);
    match read_poscar(&mut lines) {
        Err(Error::ParseError(t)) => assert_eq!(t, "Reciprocal"),
        other => panic!("unexpected {:?}", other),
    }
}

#[test]
fn read_poscar_accepts_the_short_coordinate_names() {
    let mut text = vec!["Temp Poscar"];
    let mut h = header();
    h[6] = "C";
    text.extend(h);
    text.extend(CONFIG);
    let mut lines = lines_from(&text);
    match read_poscar(&mut lines).unwrap() {
        ReadResultVariant::ReadResult { res } => assert_eq!(res.coordinate_type, Coordinates::Cartesian),
        _ => panic!("a POSCAR file holds one configuration"),
    }
}

#[test]
fn read_poscar_reports_missing_positions() {
    let mut text = vec!["Temp Poscar"];
    text.extend(header());
    text.extend(&CONFIG[..4]);
    let mut lines = lines_from(&text);
    match read_poscar(&mut lines) {
        Err(Error::Format(m)) => assert_eq!(m, "Failed to read ion position"),
        other => panic!("unexpected {:?}", other),
    }
}

#[test]
fn scan_poscar_tells_apart_selective_dynamics() {
    let mut text = vec!["Temp Poscar"];
    let mut h = header();
    h[6] = "Selective dynamics";
    text.extend(h);
    text.extend(CONFIG);
    let mut lines = lines_from(&text);
    assert!(matches!(scan_poscar(&mut lines), Flow::Panic));
}

#[test]
fn scan_poscar_tells_apart_a_short_lattice_vector() {
    let mut lines = lines_from(&["Temp Poscar", "1.0", "3.9 0.0", "0.0 3.9 0.0", "0.0 0.0 3.9"]);
    assert!(matches!(scan_poscar(&mut lines), Flow::Panic));
}

#[test]
fn read_poscar_reports_a_bad_position() {
    let mut text = vec!["Temp Poscar"];
    text.extend(header());
    text.extend(&CONFIG[..4]);
    text.push("0.0 0.5 zero");
    let mut lines = lines_from(&text);
    match read_poscar(&mut lines) {
        Err(Error::ParseFloatError(t)) => assert_eq!(t, "zero"),
        other => panic!("unexpected {:?}", other),
    }
}

#[test]
fn read_xdatcar_reads_a_single_configuration() {
    let mut text = vec!["Temp Poscar"];
    text.extend(header());
    text.extend(CONFIG);
    let mut lines = lines_from(&text);
    match read_xdatcar(&mut lines).unwrap() {
        ReadResultVariant::ReadResults { res } => {
            assert_eq!(res.len(), 1);
            check_control_result(&res[0]);
        }
        _ => panic!("an XDATCAR file holds a sequence"),
    }
}

#[test]
fn read_poscar_trims_the_coordinate_line() {
    let mut text = vec!["Temp Poscar"];
    let mut h = header();
    h[6] = "  Direct \t";
    text.extend(h);
    text.extend(CONFIG);
    let mut lines = lines_from(&text);
    match read_poscar(&mut lines).unwrap() {
        ReadResultVariant::ReadResult { res } => assert_eq!(res.coordinate_type, Coordinates::Direct),
        _ => panic!("a POSCAR file holds one configuration"),
    }
}

#[test]
fn read_poscar_sums_the_element_counts() {
    let mut text = vec!["Temp Poscar"];
    let mut h = header();
    h[5] = "1 1 2";
    text.extend(h);
    text.extend(CONFIG);
    let mut lines = lines_from(&text);
    match read_poscar(&mut lines).unwrap() {
        ReadResultVariant::ReadResult { res } => {
            assert_eq!(res.positions.len(), 4);
            assert_eq!(res.element_count, vec![(Element::Sr, 1), (Element::Ti, 1), (Element::O, 2)]);
        }
        _ => panic!("a POSCAR file holds one configuration"),
    }
}

#[test]
fn read_config_header_takes_signed_counts_and_any_whitespace() {
    let lines_text = [
        "1.0",
        "3.9\t0.0\u{3000}0.0",
        "0.0  3.9 0.0",
        "0.0 0.0 3.9",
        "Sr\u{a0}Ti O",
        "+1 1 3",
        " Direct",
    ];
    let mut lines = lines_from(&lines_text);
    let header = read_config_header(&mut lines).unwrap();
    assert_eq!(header.n_atoms_per_element, control_element_count());
    assert_eq!(header.atom_count, 5);
    assert_eq!(header._scaling_factor, "1.0");
    assert_eq!(matrix(&header.cell_matrix), control_cell_matrix());
    assert_eq!(header.coordinate_type, Coordinates::Direct);
}

#[test]
fn read_config_header_parses_the_scale_line_untrimmed() {
    let mut h = header();
    h[0] = " 1.0";
    let mut lines = lines_from(&h);
    match read_config_header(&mut lines) {
        Err(Error::ParseFloatError(t)) => assert_eq!(t, " 1.0"),
        other => panic!("unexpected {:?}", other),
    }
}

#[test]
fn read_config_header_refuses_a_count_that_overflows() {
    let mut h = header();
    h[5] = "1 99999999999999999999999 3";
    let mut lines = lines_from(&h);
    match read_config_header(&mut lines) {
        Err(Error::ParseIntError(t)) => assert_eq!(t, "99999999999999999999999"),
        other => panic!("unexpected {:?}", other),
    }
}
