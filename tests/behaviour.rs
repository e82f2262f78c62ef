use molweaver::{
    assemble_xyz, element_shade, max_valence, scan_xyz, Command, CommandHistory, Molecule, Shade,
    XyzError,
};

fn at(x: f32, y: f32, z: f32) -> [u32; 3] {
    [x.to_bits(), y.to_bits(), z.to_bits()]
}

fn read_xyz(contents: &str) -> Result<Molecule, XyzError> {
    let scan = scan_xyz(contents)?;
    let values: Vec<Vec<Option<u32>>> = scan
        .lines
        .iter()
        .map(|line| {
            line.iter()
                .map(|word| word.parse::<f32>().ok().map(f32::to_bits))
                .collect()
        })
        .collect();
    assemble_xyz(&scan, &values)
}

fn read_error(contents: &str) -> String {
    read_xyz(contents).unwrap_err().to_string()
}

type Snapshot = (Vec<u64>, Vec<(u64, String, [u32; 3])>, Vec<(u64, u64, u64)>);

fn snapshot(m: &Molecule) -> Snapshot {
    let order: Vec<u64> = m.atom_ids().iter().map(|id| id.value()).collect();
    let atoms = m
        .atoms_in_order()
        .iter()
        .map(|a| (a.id.value(), a.element.clone(), a.position))
        .collect();
    let mut bonds: Vec<(u64, u64, u64)> = m
        .bonds()
        .iter()
        .map(|b| (b.id.value(), b.a.value(), b.b.value()))
        .collect();
    bonds.sort();
    (order, atoms, bonds)
}

fn methane_like() -> (Molecule, Vec<molweaver::AtomId>) {
    let mut m = Molecule::new("m");
    let c = m.insert_atom("C".into(), at(0.0, 0.0, 0.0));
    let h1 = m.insert_atom("H".into(), at(1.0, 0.0, 0.0));
    let h2 = m.insert_atom("H".into(), at(0.0, 1.0, 0.0));
    let o = m.insert_atom("O".into(), at(0.0, 0.0, 1.0));
    m.add_bond(c, h1).unwrap();
    m.add_bond(c, h2).unwrap();
    m.add_bond(c, o).unwrap();
    (m, vec![c, h1, h2, o])
}

#[test]
fn valence_bound_on_carbon() {
    let mut m = Molecule::new("m");
    let c = m.insert_atom("C".into(), at(0.0, 0.0, 0.0));
    let hs: Vec<_> = (0..5)
        .map(|i| m.insert_atom("H".into(), at(i as f32, 1.0, 0.0)))
        .collect();
    for h in &hs[..4] {
        assert!(m.add_bond(c, *h).is_ok());
    }
    assert_eq!(
        m.add_bond(c, hs[4]),
        Err("valence exceeded for C (max 4)".to_string())
    );
    assert_eq!(m.bonds().len(), 4);
}

#[test]
fn valence_bound_on_hydrogen_names_the_full_atom() {
    let mut m = Molecule::new("m");
    let h = m.insert_atom("h".into(), at(0.0, 0.0, 0.0));
    let a = m.insert_atom("C".into(), at(1.0, 0.0, 0.0));
    let b = m.insert_atom("C".into(), at(2.0, 0.0, 0.0));
    assert!(m.add_bond(h, a).is_ok());
    assert_eq!(
        m.add_bond(b, h),
        Err("valence exceeded for h (max 1)".to_string())
    );
}

#[test]
fn duplicate_bond_refused_in_either_direction() {
    let mut m = Molecule::new("m");
    let a = m.insert_atom("C".into(), at(0.0, 0.0, 0.0));
    let b = m.insert_atom("C".into(), at(1.0, 0.0, 0.0));
    let first = m.add_bond(a, b).unwrap();
    assert_eq!(m.add_bond(a, b), Err("bond already exists".to_string()));
    assert_eq!(m.add_bond(b, a), Err("bond already exists".to_string()));
    assert_eq!(m.bond_between(b, a), Some(first));
    assert_eq!(m.bonds().len(), 1);
}

#[test]
fn failed_add_bond_consumes_no_id() {
    let mut m = Molecule::new("m");
    let a = m.insert_atom("C".into(), at(0.0, 0.0, 0.0));
    let b = m.insert_atom("C".into(), at(1.0, 0.0, 0.0));
    let first = m.add_bond(a, b).unwrap();
    assert!(m.add_bond(a, b).is_err());
    let c = m.insert_atom("C".into(), at(2.0, 0.0, 0.0));
    let second = m.add_bond(b, c).unwrap();
    assert_eq!(second.value(), first.value() + 1);
}

#[test]
fn missing_atom_refuses_bond() {
    let mut m = Molecule::new("m");
    let a = m.insert_atom("C".into(), at(0.0, 0.0, 0.0));
    let b = m.insert_atom("C".into(), at(1.0, 0.0, 0.0));
    m.remove_atom(b).unwrap();
    assert_eq!(m.add_bond(a, b), Err("atom does not exist".to_string()));
}

#[test]
fn cascade_delete_and_restore() {
    let (mut m, ids) = methane_like();
    let (c, h1, h2, o) = (ids[0], ids[1], ids[2], ids[3]);
    let before = snapshot(&m);
    let bond_ch1 = m.bond_between(c, h1).unwrap();
    let mut history = CommandHistory::new(10);
    history
        .execute(
            Command::DeleteAtom {
                atom_id: c,
                removed: None,
            },
            &mut m,
        )
        .unwrap();
    assert!(m.bonds().is_empty());
    assert_eq!(m.atom_count(), 3);
    // each hydrogen got its one unit of occupancy back
    let extra = m.add_bond(h1, h2).unwrap();
    assert!(m.add_bond(h1, o).is_err());
    m.remove_bond(extra).unwrap();
    history.undo(&mut m).unwrap();
    assert_eq!(snapshot(&m), before);
    assert_eq!(m.bond_between(h1, c), Some(bond_ch1));
}

#[test]
fn removed_atom_record() {
    let (mut m, ids) = methane_like();
    let removed = m.remove_atom(ids[0]).unwrap();
    assert_eq!(removed.order_index, 0);
    assert_eq!(removed.atom.element, "C");
    assert_eq!(removed.bonds.len(), 3);
    assert!(m.remove_atom(ids[0]).is_none());
}

#[test]
fn round_trip_of_each_command() {
    let (base, ids) = methane_like();
    let (c, h1, _h2, o) = (ids[0], ids[1], ids[2], ids[3]);
    let bond_co = base.bond_between(c, o).unwrap();
    let commands = vec![
        Command::InsertAtom {
            element: "N".into(),
            position: at(5.0, 5.0, 5.0),
            atom_id: None,
            order_index: Some(1),
        },
        Command::DeleteAtom {
            atom_id: c,
            removed: None,
        },
        Command::DeleteAtom {
            atom_id: h1,
            removed: None,
        },
        Command::RemoveBond {
            bond_id: bond_co,
            removed: None,
        },
        Command::MoveAtom {
            atom_id: o,
            from: at(0.0, 0.0, 1.0),
            to: at(3.0, 3.0, 3.0),
        },
    ];
    for command in commands {
        let mut m = base.clone();
        let mut command = command;
        command.apply(&mut m).unwrap();
        assert_ne!(snapshot(&m), snapshot(&base));
        command.undo(&mut m).unwrap();
        assert_eq!(snapshot(&m), snapshot(&base));
    }
    let mut m = Molecule::new("m");
    let a = m.insert_atom("N".into(), at(0.0, 0.0, 0.0));
    let b = m.insert_atom("N".into(), at(1.0, 0.0, 0.0));
    let before = snapshot(&m);
    let mut add = Command::AddBond {
        atom_a: a,
        atom_b: b,
        bond_id: None,
    };
    add.apply(&mut m).unwrap();
    add.undo(&mut m).unwrap();
    assert_eq!(snapshot(&m), before);
}

#[test]
fn insert_command_honours_order_index() {
    let mut m = Molecule::new("m");
    let a = m.insert_atom("C".into(), at(0.0, 0.0, 0.0));
    let b = m.insert_atom("C".into(), at(1.0, 0.0, 0.0));
    let mut history = CommandHistory::new(10);
    let executed = history
        .execute(
            Command::InsertAtom {
                element: "O".into(),
                position: at(2.0, 0.0, 0.0),
                atom_id: None,
                order_index: Some(0),
            },
            &mut m,
        )
        .unwrap();
    let id = match executed {
        Command::InsertAtom {
            atom_id,
            order_index,
            ..
        } => {
            assert_eq!(order_index, Some(0));
            atom_id.unwrap()
        }
        _ => panic!("expected insert"),
    };
    assert_eq!(m.atom_ids(), vec![id, a, b]);
    assert_eq!(id.value(), 3);
}

#[test]
fn insert_with_id_restores_place_and_clamps() {
    let mut m = Molecule::new("m");
    let a = m.insert_atom("C".into(), at(0.0, 0.0, 0.0));
    let b = m.insert_atom("C".into(), at(1.0, 0.0, 0.0));
    let c = m.insert_atom("C".into(), at(2.0, 0.0, 0.0));
    m.remove_atom(a).unwrap();
    m.remove_atom(c).unwrap();
    m.insert_atom_with_id(a, "N".into(), at(0.0, 0.0, 0.0), Some(0));
    m.insert_atom_with_id(c, "N".into(), at(0.0, 0.0, 0.0), Some(99));
    assert_eq!(m.atom_ids(), vec![a, b, c]);
    let d = m.insert_atom("C".into(), at(3.0, 0.0, 0.0));
    assert_eq!(d.value(), 4);
}

#[test]
fn insert_bond_with_id_refusals() {
    let mut m = Molecule::new("m");
    let a = m.insert_atom("C".into(), at(0.0, 0.0, 0.0));
    let b = m.insert_atom("C".into(), at(1.0, 0.0, 0.0));
    let c = m.insert_atom("C".into(), at(2.0, 0.0, 0.0));
    let ab = m.add_bond(a, b).unwrap();
    assert_eq!(
        m.insert_bond_with_id(ab, a, c),
        Err("bond id already in use".to_string())
    );
    let removed = m.remove_bond(ab).unwrap();
    assert_eq!(m.insert_bond_with_id(removed.id, a, b), Ok(ab));
    assert_eq!(m.bond_between(a, b), Some(ab));
    assert!(m.remove_bond(ab).is_some());
    assert!(m.remove_bond(ab).is_none());
}

#[test]
fn move_coalescing() {
    let mut m = Molecule::new("m");
    let a = m.insert_atom("C".into(), at(0.0, 0.0, 0.0));
    let mut history = CommandHistory::new(10);
    history
        .execute(
            Command::MoveAtom {
                atom_id: a,
                from: at(0.0, 0.0, 0.0),
                to: at(1.0, 0.0, 0.0),
            },
            &mut m,
        )
        .unwrap();
    let merged = history
        .execute(
            Command::MoveAtom {
                atom_id: a,
                from: at(1.0, 0.0, 0.0),
                to: at(2.0, 0.0, 0.0),
            },
            &mut m,
        )
        .unwrap();
    match merged {
        Command::MoveAtom { from, to, .. } => {
            assert_eq!(from, at(0.0, 0.0, 0.0));
            assert_eq!(to, at(2.0, 0.0, 0.0));
        }
        _ => panic!("expected move"),
    }
    assert_eq!(m.get_atom(a).unwrap().position, at(2.0, 0.0, 0.0));
    history.undo(&mut m).unwrap();
    assert_eq!(m.get_atom(a).unwrap().position, at(0.0, 0.0, 0.0));
    assert!(!history.can_undo());
}

#[test]
fn moves_of_different_atoms_do_not_merge() {
    let mut m = Molecule::new("m");
    let x = m.insert_atom("C".into(), at(0.0, 0.0, 0.0));
    let y = m.insert_atom("C".into(), at(0.0, 0.0, 0.0));
    let mut first = Command::MoveAtom {
        atom_id: x,
        from: at(0.0, 0.0, 0.0),
        to: at(1.0, 0.0, 0.0),
    };
    let other = Command::MoveAtom {
        atom_id: y,
        from: at(0.0, 0.0, 0.0),
        to: at(5.0, 0.0, 0.0),
    };
    assert!(!first.merge_with(&other));
    let bond = Command::AddBond {
        atom_a: x,
        atom_b: y,
        bond_id: None,
    };
    assert!(!first.merge_with(&bond));
    let same = Command::MoveAtom {
        atom_id: x,
        from: at(1.0, 0.0, 0.0),
        to: at(7.0, 0.0, 0.0),
    };
    assert!(first.merge_with(&same));
    match first {
        Command::MoveAtom { from, to, .. } => {
            assert_eq!(from, at(0.0, 0.0, 0.0));
            assert_eq!(to, at(7.0, 0.0, 0.0));
        }
        _ => panic!("expected move"),
    }
}

#[test]
fn history_bound_drops_oldest() {
    let mut m = Molecule::new("m");
    let mut history = CommandHistory::new(2);
    let mut ids = Vec::new();
    for i in 0..3 {
        let executed = history
            .execute(
                Command::InsertAtom {
                    element: "C".into(),
                    position: at(i as f32, 0.0, 0.0),
                    atom_id: None,
                    order_index: None,
                },
                &mut m,
            )
            .unwrap();
        if let Command::InsertAtom { atom_id, .. } = executed {
            ids.push(atom_id.unwrap());
        }
    }
    assert!(history.undo(&mut m).unwrap().is_some());
    assert!(history.undo(&mut m).unwrap().is_some());
    assert!(history.undo(&mut m).unwrap().is_none());
    assert!(m.get_atom(ids[0]).is_some());
    assert!(m.get_atom(ids[1]).is_none());
    assert_eq!(m.atom_count(), 1);
}

#[test]
fn zero_capacity_keeps_one_entry() {
    let mut m = Molecule::new("m");
    let mut history = CommandHistory::new(0);
    for _ in 0..2 {
        history
            .execute(
                Command::InsertAtom {
                    element: "C".into(),
                    position: at(0.0, 0.0, 0.0),
                    atom_id: None,
                    order_index: None,
                },
                &mut m,
            )
            .unwrap();
    }
    assert!(history.undo(&mut m).unwrap().is_some());
    assert!(history.undo(&mut m).unwrap().is_none());
}

#[test]
fn failed_undo_drops_the_entry() {
    let mut m = Molecule::new("m");
    let a = m.insert_atom("C".into(), at(0.0, 0.0, 0.0));
    let mut history = CommandHistory::new(10);
    history
        .execute(
            Command::MoveAtom {
                atom_id: a,
                from: at(0.0, 0.0, 0.0),
                to: at(1.0, 0.0, 0.0),
            },
            &mut m,
        )
        .unwrap();
    m.remove_atom(a).unwrap();
    assert_eq!(history.undo(&mut m).unwrap_err(), "atom not found");
    assert!(!history.can_undo());
    assert!(!history.can_redo());
}

#[test]
fn command_refusals() {
    let mut m = Molecule::new("m");
    let a = m.insert_atom("C".into(), at(0.0, 0.0, 0.0));
    let b = m.insert_atom("C".into(), at(1.0, 0.0, 0.0));
    let ab = m.add_bond(a, b).unwrap();
    m.remove_bond(ab).unwrap();
    let mut remove = Command::RemoveBond {
        bond_id: ab,
        removed: None,
    };
    assert_eq!(remove.apply(&mut m), Err("bond not found".to_string()));
    assert_eq!(remove.undo(&mut m), Err("missing undo data".to_string()));
    m.remove_atom(b).unwrap();
    let mut delete = Command::DeleteAtom {
        atom_id: b,
        removed: None,
    };
    assert_eq!(delete.apply(&mut m), Err("atom not found".to_string()));
    assert_eq!(delete.undo(&mut m), Err("missing undo data".to_string()));
    let mut mv = Command::MoveAtom {
        atom_id: b,
        from: at(0.0, 0.0, 0.0),
        to: at(1.0, 0.0, 0.0),
    };
    assert_eq!(mv.apply(&mut m), Err("atom not found".to_string()));
    let mut insert = Command::InsertAtom {
        element: "O".into(),
        position: at(0.0, 0.0, 0.0),
        atom_id: Some(a),
        order_index: None,
    };
    assert_eq!(insert.apply(&mut m), Err("atom already exists".to_string()));
    let mut fresh = Command::InsertAtom {
        element: "O".into(),
        position: at(0.0, 0.0, 0.0),
        atom_id: None,
        order_index: None,
    };
    assert_eq!(fresh.undo(&mut m), Err("command missing data".to_string()));
    let mut bond = Command::AddBond {
        atom_a: a,
        atom_b: b,
        bond_id: None,
    };
    assert_eq!(bond.apply(&mut m), Err("atom does not exist".to_string()));
    assert_eq!(bond.undo(&mut m), Err("command missing data".to_string()));
    assert_eq!(m.set_atom_position(b, at(1.0, 1.0, 1.0)), None);
    assert_eq!(m.atom_count(), 1);
}

#[test]
fn failed_execute_leaves_history_alone() {
    let mut m = Molecule::new("m");
    let a = m.insert_atom("H".into(), at(0.0, 0.0, 0.0));
    let b = m.insert_atom("H".into(), at(1.0, 0.0, 0.0));
    let c = m.insert_atom("H".into(), at(2.0, 0.0, 0.0));
    let mut history = CommandHistory::new(10);
    history
        .execute(
            Command::AddBond {
                atom_a: a,
                atom_b: b,
                bond_id: None,
            },
            &mut m,
        )
        .unwrap();
    history.undo(&mut m).unwrap();
    assert!(history.can_redo());
    let before = snapshot(&m);
    history
        .execute(
            Command::AddBond {
                atom_a: a,
                atom_b: c,
                bond_id: None,
            },
            &mut m,
        )
        .unwrap();
    let refused = history.execute(
        Command::AddBond {
            atom_a: a,
            atom_b: b,
            bond_id: None,
        },
        &mut m,
    );
    assert_eq!(refused.unwrap_err(), "valence exceeded for H (max 1)");
    assert_ne!(snapshot(&m), before);
    assert!(history.can_undo());
    history.undo(&mut m).unwrap();
    assert_eq!(snapshot(&m), before);
}

#[test]
fn atoms_in_order_follow_order() {
    let (m, ids) = methane_like();
    let elements: Vec<String> = m.atoms_in_order().iter().map(|a| a.element.clone()).collect();
    assert_eq!(elements, vec!["C", "H", "H", "O"]);
    assert_eq!(m.atom_ids(), ids);
    assert_eq!(ids[0].value(), 1);
    assert_eq!(m.bonds().len(), 3);
}

#[test]
fn valence_table() {
    assert_eq!(max_valence("H"), 1);
    assert_eq!(max_valence("c"), 4);
    assert_eq!(max_valence(" N "), 3);
    assert_eq!(max_valence("o"), 2);
    assert_eq!(max_valence("F"), 1);
    assert_eq!(max_valence("cl"), 1);
    assert_eq!(max_valence("Br"), 1);
    assert_eq!(max_valence("i"), 1);
    assert_eq!(max_valence("P"), 5);
    assert_eq!(max_valence("s"), 6);
    assert_eq!(max_valence("Xe"), 4);
    assert_eq!(max_valence(""), 4);
    assert_eq!(max_valence("Ca"), 4);
}

#[test]
fn element_shade_mapping() {
    assert_eq!(element_shade("H"), Shade::White);
    assert_eq!(element_shade("c"), Shade::DarkGray);
    assert_eq!(element_shade("N"), Shade::Blue);
    assert_eq!(element_shade(" o "), Shade::Red);
    assert_eq!(element_shade("Xe"), Shade::LightGray);
}

#[test]
fn xyz_water_scenario() {
    let m = read_xyz("2\nwater\nO 0.0 0.0 0.0\nH 0.0 1.0 0.0\n").unwrap();
    assert_eq!(m.name, "water");
    assert_eq!(m.atom_count(), 2);
    let atoms = m.atoms_in_order();
    assert_eq!(atoms[0].element, "O");
    assert_eq!(atoms[0].position, at(0.0, 0.0, 0.0));
    assert_eq!(atoms[1].position, at(0.0, 1.0, 0.0));
}

#[test]
fn xyz_count_mismatch() {
    assert_eq!(
        read_error("3\nc\nH 0 0 0\n"),
        "atom count does not match data lines"
    );
}

#[test]
fn xyz_refusals() {
    assert_eq!(read_error(""), "missing atom count");
    assert_eq!(read_error("x\nname\n"), "invalid atom count");
    assert_eq!(read_error("-1\nname\n"), "invalid atom count");
    assert_eq!(read_error("99999999999999999999999\nc\n"), "invalid atom count");
    assert_eq!(read_error("1\n"), "missing comment line");
    assert_eq!(read_error("1\nc\n\n"), "missing element at line 3");
    assert_eq!(read_error("1\nc\nH\n"), "missing x at line 3");
    assert_eq!(read_error("1\nc\nH 1\n"), "missing y at line 3");
    assert_eq!(read_error("1\nc\nH 1 b\n"), "invalid y at line 3");
    assert_eq!(read_error("1\nc\nH 1 2\n"), "missing z at line 3");
    assert_eq!(read_error("2\nc\nH 1 2 3\nO 1 2 q\n"), "invalid z at line 4");
}

#[test]
fn xyz_lenient_layout() {
    let m = read_xyz("+2\r\n  some name \r\n H 1 2 3\r\nO\t4 5 6 extra\r\nignored line\n").unwrap();
    assert_eq!(m.name, "some name");
    assert_eq!(m.atom_count(), 2);
    assert_eq!(m.atoms_in_order()[1].position, at(4.0, 5.0, 6.0));
    let empty = read_xyz("0\nnothing").unwrap();
    assert_eq!(empty.name, "nothing");
    assert_eq!(empty.atom_count(), 0);
}

#[test]
fn xyz_error_message() {
    let e = XyzError::new("bad".to_string());
    assert_eq!(e.to_string(), "bad");
}
