//! The atom table: builder checks, merging, lookup, updates and ordering.
use msi_model::atom::AtomCollection;
use msi_model::atom::Atom;
use msi_model::atom::Coord3;
use msi_model::atom_builder::AtomCollectionBuilder;
use msi_model::atom_builder::AtomCollectionBuildingError;
use msi_model::builder_typestate::No;
use msi_model::lattice::LatticeModel;
use msi_model::model_type::MsiModel;
use msi_model::model_type::Settings;
use msi_model::numeric::parse_decimal;

fn coord(x: &str, y: &str, z: &str) -> Coord3 {
    Coord3 {
        x: parse_decimal(x.as_bytes()).unwrap(),
        y: parse_decimal(y.as_bytes()).unwrap(),
        z: parse_decimal(z.as_bytes()).unwrap(),
    }
}

fn single_atom_table(id: u32, num: u8, sym: &[u8]) -> AtomCollection<MsiModel> {
    let builder = AtomCollectionBuilder::<MsiModel, No>::new(1);
    builder
        .with_atom_ids(vec![id])
        .unwrap()
        .with_element_symbols(&vec![sym.to_vec()])
        .unwrap()
        .with_atomic_nums(vec![num])
        .unwrap()
        .with_xyz_coords(vec![coord("1.0", "2.0", "3.0")])
        .unwrap()
        .with_fractional_xyz(vec![None])
        .unwrap()
        .finish()
        .unwrap()
        .build()
}

#[test]
fn builder_rejects_wrong_column_length() {
    let builder = AtomCollectionBuilder::<MsiModel, No>::new(2);
    let r = builder.with_atomic_nums(vec![6, 8, 1]);
    match r {
        Err(AtomCollectionBuildingError::InconsistentSize { curr, expected }) => {
            assert_eq!(curr, 3);
            assert_eq!(expected, 2);
        }
        _ => panic!("expected the exact lengths in the failure"),
    }
}

#[test]
fn builder_names_the_missing_column() {
    let builder = AtomCollectionBuilder::<MsiModel, No>::new(1);
    let builder = builder.with_atomic_nums(vec![6]).unwrap();
    let r = builder.finish();
    match r {
        Err(AtomCollectionBuildingError::MissingField { missed }) => {
            assert_eq!(missed, "element_symbols");
        }
        _ => panic!("expected the missing column to be named"),
    }
}

#[test]
fn merged_single_atom_models_renumber_ids() {
    // Two single-atom models, both with id 1: the merge yields ids 1 and 2.
    let a = LatticeModel::new(None, single_atom_table(1, 6, b"C"), Settings::settings_default());
    let b = LatticeModel::new(None, single_atom_table(1, 8, b"O"), Settings::settings_default());
    let merged = a.merge(b);
    assert_eq!(merged.atoms.atom_ids, vec![1, 2]);
    assert_eq!(merged.atoms.size, 2);
    assert_eq!(merged.atoms.element_symbols, vec![b"C".to_vec(), b"O".to_vec()]);
}

#[test]
fn merge_shifts_by_the_largest_id() {
    let left = {
        let builder = AtomCollectionBuilder::<MsiModel, No>::new(2);
        builder
            .with_atom_ids(vec![7, 3])
            .unwrap()
            .with_element_symbols(&vec![b"C".to_vec(), b"N".to_vec()])
            .unwrap()
            .with_atomic_nums(vec![6, 7])
            .unwrap()
            .with_xyz_coords(vec![coord("1.0", "0.0", "0.0"), coord("0.0", "1.0", "0.0")])
            .unwrap()
            .with_fractional_xyz(vec![None, None])
            .unwrap()
            .finish()
            .unwrap()
            .build()
    };
    let right = single_atom_table(2, 8, b"O");
    let merged = left.merge(right);
    // Count is the sum; ids of the left stay; the right id gains the
    // left's maximum id, 7.
    assert_eq!(merged.size, 3);
    assert_eq!(merged.atom_ids, vec![7, 3, 9]);
}

#[test]
fn lookup_by_id_uses_one_based_offsets() {
    let t = single_atom_table(1, 6, b"C");
    assert!(t.get_xyz_by_id(0).is_none());
    assert!(t.get_xyz_by_id(2).is_none());
    let c = t.get_xyz_by_id(1).unwrap();
    assert_eq!(c.x.digits, vec![1, 0]);
    let atom = t.view_atom_by_id(1).unwrap();
    assert_eq!(atom.atom_id, 1);
    assert_eq!(atom.element_symbol, b"C".to_vec());
    assert!(t.view_atom_by_id(5).is_err());
}

#[test]
fn updates_check_their_index() {
    let mut t = single_atom_table(1, 6, b"C");
    assert!(t.update_symbol_at(0, b"Si".to_vec()).is_ok());
    assert_eq!(t.element_symbols[0], b"Si".to_vec());
    assert!(t.update_symbol_at(1, b"O".to_vec()).is_err());
    assert!(t.update_elm_id_at(0, 14).is_ok());
    assert_eq!(t.atomic_nums[0], 14);
    assert!(t.update_atom_id_at(0, 4).is_ok());
    assert_eq!(t.atom_ids[0], 4);
    let replacement = Atom::new(b"H".to_vec(), 1, coord("0.5", "0.5", "0.5"), 9);
    assert!(t.update_atom_at(0, replacement).is_ok());
    assert_eq!(t.atomic_nums[0], 1);
    assert_eq!(t.atom_ids[0], 9);
    assert!(t.view_atom_at(3).is_err());
}

#[test]
fn sorting_orders_rows_by_key() {
    let builder = AtomCollectionBuilder::<MsiModel, No>::new(3);
    let t = builder
        .with_atom_ids(vec![3, 1, 2])
        .unwrap()
        .with_element_symbols(&vec![b"O".to_vec(), b"C".to_vec(), b"H".to_vec()])
        .unwrap()
        .with_atomic_nums(vec![8, 6, 1])
        .unwrap()
        .with_xyz_coords(vec![
            coord("3.0", "0.0", "0.0"),
            coord("1.0", "0.0", "0.0"),
            coord("2.0", "0.0", "0.0"),
        ])
        .unwrap()
        .with_fractional_xyz(vec![None, None, None])
        .unwrap()
        .finish()
        .unwrap()
        .build();
    let by_id = t.sorted_by_atom_id();
    assert_eq!(by_id.atom_ids, vec![1, 2, 3]);
    assert_eq!(
        by_id.element_symbols,
        vec![b"C".to_vec(), b"H".to_vec(), b"O".to_vec()]
    );
    // Rows travel whole: the coordinate follows its id.
    assert_eq!(by_id.xyz_coords[0].x.digits, vec![1, 0]);
    let by_num = by_id.sorted_by_atomic_number();
    assert_eq!(by_num.atomic_nums, vec![1, 6, 8]);
    assert_eq!(by_num.atom_ids, vec![2, 1, 3]);
}

#[test]
fn export_writes_the_fixed_layout() {
    let t = single_atom_table(1, 6, b"C");
    let model = LatticeModel::new(None, t, Settings::settings_default());
    let text = model.msi_export();
    let expected = "# MSI CERIUS2 DataModel File Version 4 0\n(1 Model\n  (2 Atom\n    (A C ACL \"6 C\")\n    (A C Label \"C\")\n    (A D XYZ (1.000000000000 2.000000000000 3.000000000000))\n    (A I Id 1)\n  )\n)";
    assert_eq!(text, expected.as_bytes().to_vec());
}

#[test]
fn element_set_dedups_and_orders() {
    let builder = AtomCollectionBuilder::<MsiModel, No>::new(4);
    let t = builder
        .with_atom_ids(vec![1, 2, 3, 4])
        .unwrap()
        .with_element_symbols(&vec![
            b"O".to_vec(),
            b"C".to_vec(),
            b"O".to_vec(),
            b"H".to_vec(),
        ])
        .unwrap()
        .with_atomic_nums(vec![8, 6, 8, 1])
        .unwrap()
        .with_xyz_coords(vec![
            coord("1.0", "0.0", "0.0"),
            coord("2.0", "0.0", "0.0"),
            coord("3.0", "0.0", "0.0"),
            coord("4.0", "0.0", "0.0"),
        ])
        .unwrap()
        .with_fractional_xyz(vec![None, None, None, None])
        .unwrap()
        .finish()
        .unwrap()
        .build();
    let species = t.element_set();
    let names: Vec<(Vec<u8>, u8)> = species;
    assert_eq!(
        names,
        vec![(b"H".to_vec(), 1), (b"C".to_vec(), 6), (b"O".to_vec(), 8)]
    );
}

#[test]
fn multiple_id_lookup_marks_missing_rows() {
    let t = single_atom_table(1, 6, b"C");
    let found = t.get_multiple_xyz_by_id(&vec![1, 0, 7]);
    assert_eq!(found.len(), 3);
    assert!(found[0].is_some());
    assert!(found[1].is_none());
    assert!(found[2].is_none());
}
