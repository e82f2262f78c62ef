use molweaver::{
    assemble_xyz, scan_xyz, Command, CommandHistory, Molecule, XyzError,
};

fn pos(x: f32, y: f32, z: f32) -> [u32; 3] {
    [x.to_bits(), y.to_bits(), z.to_bits()]
}

fn parse_xyz(contents: &str) -> Result<Molecule, XyzError> {
    let scan = scan_xyz(contents)?;
    let values: Vec<Vec<Option<u32>>> = scan
        .lines
        .iter()
        .map(|line| {
            line.iter()
                .map(|word| word.parse::<f32>().ok().map(f32::to_bits))
                .collect()
        })
        .collect();
    assemble_xyz(&scan, &values)
}

#[test]
fn parse_xyz_valid() {
    let data = "2\nwater\nO 0.0 0.0 0.0\nH 0.0 1.0 0.0\n";
    let molecule = parse_xyz(data).expect("parse xyz");
    assert_eq!(molecule.atom_count(), 2);
    assert_eq!(molecule.name, "water");
    let ids = molecule.atom_ids();
    assert_eq!(molecule.get_atom(ids[0]).unwrap().element, "O");
}

#[test]
fn parse_xyz_invalid_count() {
    let data = "3\ncomment\nH 0 0 0\n";
    let err = parse_xyz(data).unwrap_err();
    assert!(err.to_string().contains("atom count"));
}

#[test]
fn parse_xyz_invalid_number() {
    let data = "1\ncomment\nH a b c\n";
    let err = parse_xyz(data).unwrap_err();
    assert!(err.to_string().contains("invalid x"));
}

#[test]
fn command_insert_undo() {
    let mut molecule = Molecule::new("test");
    let mut history = CommandHistory::new(10);
    let command = Command::InsertAtom {
        element: "H".into(),
        position: pos(0.0, 0.0, 0.0),
        atom_id: None,
        order_index: None,
    };
    let executed = history.execute(command, &mut molecule).unwrap();
    assert_eq!(molecule.atom_count(), 1);
    let id = match executed {
        Command::InsertAtom { atom_id, .. } => atom_id.unwrap(),
        _ => panic!("expected insert"),
    };
    history.undo(&mut molecule).unwrap();
    assert!(molecule.get_atom(id).is_none());
    history.redo(&mut molecule).unwrap();
    assert!(molecule.get_atom(id).is_some());
}

#[test]
fn command_delete_with_bonds() {
    let mut molecule = Molecule::new("test");
    let a = molecule.insert_atom("C".into(), pos(0.0, 0.0, 0.0));
    let b = molecule.insert_atom("H".into(), pos(1.0, 0.0, 0.0));
    let bond_id = molecule.add_bond(a, b).unwrap();
    let mut history = CommandHistory::new(10);
    let command = Command::DeleteAtom {
        atom_id: a,
        removed: None,
    };
    history.execute(command, &mut molecule).unwrap();
    assert!(molecule.get_atom(a).is_none());
    assert!(molecule.remove_bond(bond_id).is_none());
    history.undo(&mut molecule).unwrap();
    assert!(molecule.get_atom(a).is_some());
    assert!(molecule.bond_between(a, b).is_some());
}

#[test]
fn command_bond_add_remove() {
    let mut molecule = Molecule::new("test");
    let a = molecule.insert_atom("C".into(), pos(0.0, 0.0, 0.0));
    let b = molecule.insert_atom("H".into(), pos(1.0, 0.0, 0.0));
    let mut history = CommandHistory::new(10);
    let command = Command::AddBond {
        atom_a: a,
        atom_b: b,
        bond_id: None,
    };
    let executed = history.execute(command, &mut molecule).unwrap();
    let bond_id = match executed {
        Command::AddBond { bond_id, .. } => bond_id.unwrap(),
        _ => panic!("expected bond"),
    };
    assert!(molecule.bond_between(a, b).is_some());
    history.undo(&mut molecule).unwrap();
    assert!(molecule.bond_between(a, b).is_none());
    history.redo(&mut molecule).unwrap();
    assert!(molecule.bond_between(a, b).is_some());
    let remove = Command::RemoveBond {
        bond_id,
        removed: None,
    };
    history.execute(remove, &mut molecule).unwrap();
    assert!(molecule.bond_between(a, b).is_none());
}

#[test]
fn command_bond_valence_rejected() {
    let mut molecule = Molecule::new("test");
    let c = molecule.insert_atom("C".into(), pos(0.0, 0.0, 0.0));
    let h1 = molecule.insert_atom("H".into(), pos(1.0, 0.0, 0.0));
    let h2 = molecule.insert_atom("H".into(), pos(0.0, 1.0, 0.0));
    let h3 = molecule.insert_atom("H".into(), pos(0.0, 0.0, 1.0));
    let h4 = molecule.insert_atom("H".into(), pos(-1.0, 0.0, 0.0));
    let h5 = molecule.insert_atom("H".into(), pos(0.0, -1.0, 0.0));
    let mut history = CommandHistory::new(10);
    history
        .execute(
            Command::AddBond {
                atom_a: c,
                atom_b: h1,
                bond_id: None,
            },
            &mut molecule,
        )
        .unwrap();
    history
        .execute(
            Command::AddBond {
                atom_a: c,
                atom_b: h2,
                bond_id: None,
            },
            &mut molecule,
        )
        .unwrap();
    history
        .execute(
            Command::AddBond {
                atom_a: c,
                atom_b: h3,
                bond_id: None,
            },
            &mut molecule,
        )
        .unwrap();
    history
        .execute(
            Command::AddBond {
                atom_a: c,
                atom_b: h4,
                bond_id: None,
            },
            &mut molecule,
        )
        .unwrap();
    let result = history.execute(
        Command::AddBond {
            atom_a: c,
            atom_b: h5,
            bond_id: None,
        },
        &mut molecule,
    );
    assert!(result.is_err());
    assert!(molecule.bond_between(c, h5).is_none());
    assert!(!history.can_redo());
}

#[test]
fn failed_command_does_not_mutate() {
    let mut molecule = Molecule::new("test");
    let a = molecule.insert_atom("H".into(), pos(0.0, 0.0, 0.0));
    let b = molecule.insert_atom("H".into(), pos(1.0, 0.0, 0.0));
    let mut history = CommandHistory::new(10);
    history
        .execute(
            Command::AddBond {
                atom_a: a,
                atom_b: b,
                bond_id: None,
            },
            &mut molecule,
        )
        .unwrap();
    let before_bond = molecule.bond_between(a, b);
    let result = history.execute(
        Command::AddBond {
            atom_a: a,
            atom_b: b,
            bond_id: None,
        },
        &mut molecule,
    );
    assert!(result.is_err());
    assert_eq!(molecule.bond_between(a, b), before_bond);
}

#[test]
fn command_move_atom() {
    let mut molecule = Molecule::new("test");
    let a = molecule.insert_atom("C".into(), pos(0.0, 0.0, 0.0));
    let mut history = CommandHistory::new(10);
    let command = Command::MoveAtom {
        atom_id: a,
        from: pos(0.0, 0.0, 0.0),
        to: pos(1.0, 2.0, 3.0),
    };
    history.execute(command, &mut molecule).unwrap();
    assert_eq!(molecule.get_atom(a).unwrap().position, pos(1.0, 2.0, 3.0));
    history.undo(&mut molecule).unwrap();
    assert_eq!(molecule.get_atom(a).unwrap().position, pos(0.0, 0.0, 0.0));
}

#[test]
fn undo_redo_stack_behavior() {
    let mut molecule = Molecule::new("test");
    let mut history = CommandHistory::new(10);
    let command = Command::InsertAtom {
        element: "H".into(),
        position: pos(0.0, 0.0, 0.0),
        atom_id: None,
        order_index: None,
    };
    history.execute(command, &mut molecule).unwrap();
    assert!(history.can_undo());
    history.undo(&mut molecule).unwrap();
    assert!(history.can_redo());
    let command = Command::InsertAtom {
        element: "O".into(),
        position: pos(1.0, 0.0, 0.0),
        atom_id: None,
        order_index: None,
    };
    history.execute(command, &mut molecule).unwrap();
    assert!(!history.can_redo());
}
