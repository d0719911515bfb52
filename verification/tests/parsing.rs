//! Parsing, round trips and field order independence.
use msi_model::atom::Coord3;
use msi_model::error::ParseError;
use msi_model::numeric::parse_decimal;
use msi_model::numeric::Decimal;
use msi_model::parse;

fn dec(s: &str) -> Decimal {
    parse_decimal(s.as_bytes()).unwrap()
}

fn sample_doc() -> String {
    "# MSI CERIUS2 DataModel File Version 4 0\n(1 Model\n  (A I CRY/DISPLAY (192 256))\n  (A I PeriodicType 100)\n  (A C SpaceGroup \"1 1\")\n  (A D A3 (10.000000000000 0.000000000000 0.000000000000))\n  (A D B3 (0.000000000000 10.000000000000 0.000000000000))\n  (A D C3 (0.000000000000 0.000000000000 10.000000000000))\n  (A D CRY/TOLERANCE 0.05)\n  (1 Atom\n    (A C ACL \"6 C\")\n    (A C Label \"C\")\n    (A D XYZ (5.000000000000 5.000000000000 5.000000000000))\n    (A I Id 1)\n  )\n  (2 Atom\n    (A C ACL \"8 O\")\n    (A D XYZ (1.5 2.5 -3.25))\n    (A I Id 2)\n  )\n)"
    .to_string()
}

#[test]
fn parses_sample_document() {
    let doc = sample_doc();
    let model = parse(doc.as_bytes()).unwrap();
    assert_eq!(model.atoms.size, 2);
    assert_eq!(model.atoms.atom_ids, vec![1, 2]);
    assert_eq!(model.atoms.atomic_nums, vec![6, 8]);
    assert_eq!(model.atoms.element_symbols[0], b"C".to_vec());
    assert_eq!(model.atoms.element_symbols[1], b"O".to_vec());
    assert_eq!(model.settings.periodic_type, 100);
    assert_eq!(model.settings.space_group, b"1 1".to_vec());
    let lv = model.lattice_vectors.as_ref().unwrap();
    assert_eq!(lv.a.x.digits, dec("10.000000000000").digits);
    assert_eq!(lv.a.x.exp, dec("10.000000000000").exp);
    assert!(!lv.a.x.neg);
    // The second atom's coordinates, exactly as written.
    let c = &model.atoms.xyz_coords[1];
    assert_eq!(c.x.digits, vec![1, 5]);
    assert_eq!(c.x.exp, -1);
    assert!(c.z.neg);
    assert_eq!(c.z.digits, vec![3, 2, 5]);
    assert_eq!(c.z.exp, -2);
}

#[test]
fn parses_crlf_document() {
    let doc = sample_doc().replace('\n', "\r\n");
    let model = parse(doc.as_bytes()).unwrap();
    assert_eq!(model.atoms.size, 2);
    assert_eq!(model.atoms.atom_ids, vec![1, 2]);
}

#[test]
fn field_order_is_irrelevant() {
    // The same blocks, permuted: atoms first, attributes interleaved.
    let permuted = "# MSI CERIUS2 DataModel File Version 4 0\n(1 Model\n  (1 Atom\n    (A C ACL \"6 C\")\n    (A C Label \"C\")\n    (A D XYZ (5.000000000000 5.000000000000 5.000000000000))\n    (A I Id 1)\n  )\n  (A D A3 (10.000000000000 0.000000000000 0.000000000000))\n  (A I PeriodicType 100)\n  (A D B3 (0.000000000000 10.000000000000 0.000000000000))\n  (2 Atom\n    (A C ACL \"8 O\")\n    (A D XYZ (1.5 2.5 -3.25))\n    (A I Id 2)\n  )\n  (A D C3 (0.000000000000 0.000000000000 10.000000000000))\n  (A C SpaceGroup \"1 1\")\n  (A I CRY/DISPLAY (192 256))\n  (A D CRY/TOLERANCE 0.05)\n)";
    let a = parse(sample_doc().as_bytes()).unwrap();
    let b = parse(permuted.as_bytes()).unwrap();
    assert_eq!(a.atoms.atom_ids, b.atoms.atom_ids);
    assert_eq!(a.atoms.atomic_nums, b.atoms.atomic_nums);
    assert_eq!(a.atoms.element_symbols, b.atoms.element_symbols);
    assert_eq!(a.settings.periodic_type, b.settings.periodic_type);
    assert_eq!(a.settings.space_group, b.settings.space_group);
    let (la, lb) = (
        a.lattice_vectors.as_ref().unwrap(),
        b.lattice_vectors.as_ref().unwrap(),
    );
    assert_eq!(la.a.x.digits, lb.a.x.digits);
    assert_eq!(la.b.y.digits, lb.b.y.digits);
    assert_eq!(la.c.z.digits, lb.c.z.digits);
}

#[test]
fn export_then_parse_round_trips() {
    let model = parse(sample_doc().as_bytes()).unwrap();
    let text = model.msi_export();
    let back = parse(&text).unwrap();
    assert_eq!(back.atoms.size, model.atoms.size);
    assert_eq!(back.atoms.atom_ids, model.atoms.atom_ids);
    assert_eq!(back.atoms.atomic_nums, model.atoms.atomic_nums);
    assert_eq!(back.atoms.element_symbols, model.atoms.element_symbols);
    // Coordinates written at twelve decimals come back with the same value:
    // 1.5 is reread as 1500000000000 * 10^-12.
    let c = &back.atoms.xyz_coords[1];
    let mut expected = vec![1, 5];
    expected.extend(std::iter::repeat(0).take(11));
    assert_eq!(c.x.digits, expected);
    assert_eq!(c.x.exp, -12);
    // The reread negative coordinate keeps its sign and value.
    let z = &back.atoms.xyz_coords[1].z;
    assert!(z.neg);
    let mut expected_z = vec![3, 2, 5];
    expected_z.extend(std::iter::repeat(0).take(10));
    assert_eq!(z.digits, expected_z);
    assert_eq!(z.exp, -12);
}

#[test]
fn missing_model_scope_is_structural() {
    let r = parse(b"just some text\n");
    match r {
        Err(ParseError::Structure { .. }) => {}
        _ => panic!("expected a structural failure"),
    }
}

#[test]
fn missing_terminator_is_structural() {
    let doc = "# header\n(1 Model\n  (A I PeriodicType 100)\n";
    let r = parse(doc.as_bytes());
    match r {
        Err(ParseError::Structure { .. }) => {}
        _ => panic!("expected a structural failure"),
    }
}

#[test]
fn missing_required_attribute_is_semantic() {
    // Attributes are present, but PeriodicType is absent.
    let doc = "# h\n(1 Model\n  (A C SpaceGroup \"1 1\")\n  (A D CRY/TOLERANCE 0.05)\n)";
    let r = parse(doc.as_bytes());
    match r {
        Err(ParseError::Semantic { .. }) => {}
        _ => panic!("expected a semantic failure"),
    }
}

#[test]
fn oversized_atomic_number_is_semantic() {
    let doc = "# h\n(1 Model\n  (1 Atom\n    (A C ACL \"999 X\")\n    (A D XYZ (1.0 1.0 1.0))\n    (A I Id 1)\n  )\n)";
    let r = parse(doc.as_bytes());
    match r {
        Err(ParseError::Semantic { .. }) => {}
        _ => panic!("expected a semantic failure"),
    }
}

#[test]
fn non_periodic_document_has_no_lattice() {
    let doc = "# h\n(1 Model\n  (1 Atom\n    (A C ACL \"6 C\")\n    (A D XYZ (1.0 2.0 3.0))\n    (A I Id 1)\n  )\n)";
    let model = parse(doc.as_bytes()).unwrap();
    assert!(model.lattice_vectors.is_none());
    assert_eq!(model.atoms.size, 1);
    assert!(model.atoms.fractional_xyz[0].is_none());
}

#[test]
fn bond_blocks_are_skipped() {
    let doc = "# h\n(1 Model\n  (1 Atom\n    (A C ACL \"6 C\")\n    (A D XYZ (1.0 2.0 3.0))\n    (A I Id 1)\n  )\n  (2 Bond\n    (A O Atom1 1)\n  )\n)";
    let model = parse(doc.as_bytes()).unwrap();
    assert_eq!(model.atoms.size, 1);
}

#[test]
fn duplicate_attribute_keys_last_wins() {
    let doc = "# h\n(1 Model\n  (A I PeriodicType 1)\n  (A I PeriodicType 100)\n  (A C SpaceGroup \"1 1\")\n  (A D CRY/TOLERANCE 0.05)\n)";
    let model = parse(doc.as_bytes()).unwrap();
    assert_eq!(model.settings.periodic_type, 100);
}

#[test]
fn cubic_lattice_needs_no_rotation() {
    // A lattice with a along x and b along y: both conversion rotations
    // are skipped (the angle to the axis is zero).
    let model = parse(sample_doc().as_bytes()).unwrap();
    let lv = model.lattice_vectors.as_ref().unwrap();
    assert!(lv.a_along_x());
    assert!(lv.b_along_y());
    // A tilted basis vector does need the rotation.
    let tilted = msi_model::lattice::LatticeVectors::<msi_model::model_type::MsiModel>::new(
        Coord3 {
            x: dec("1.0"),
            y: dec("1.0"),
            z: dec("0.0"),
        },
        Coord3 {
            x: dec("0.0"),
            y: dec("1.0"),
            z: dec("0.0"),
        },
        Coord3 {
            x: dec("0.0"),
            y: dec("0.0"),
            z: dec("1.0"),
        },
    );
    assert!(!tilted.a_along_x());
}
