use vstd::prelude::*;

use crate::molecule::{
    AtomId, Bond, BondId, BondView, Molecule, MoleculeView, RemovedAtom, RemovedAtomView,
};
use crate::molecule::{lemma_atom_id_view, lemma_bond_id_view};

verus! {

broadcast use {lemma_atom_id_view, lemma_bond_id_view};

/// A reversible edit. The fields that start as `None` are filled in by the
/// first successful `apply`, so that `undo` can restore the prior state.
#[derive(Debug, Clone)]
#[allow(inconsistent_fields)]
pub enum Command {
    InsertAtom {
        element: String,
        position: [u32; 3],
        atom_id: Option<AtomId>,
        order_index: Option<usize>,
    },
    DeleteAtom { atom_id: AtomId, removed: Option<RemovedAtom> },
    AddBond { atom_a: AtomId, atom_b: AtomId, bond_id: Option<BondId> },
    RemoveBond { bond_id: BondId, removed: Option<Bond> },
    MoveAtom { atom_id: AtomId, from: [u32; 3], to: [u32; 3] },
}

#[allow(inconsistent_fields)]
pub enum CommandView {
    InsertAtom {
        element: Seq<char>,
        position: [u32; 3],
        atom_id: Option<u64>,
        order_index: Option<nat>,
    },
    DeleteAtom { atom_id: u64, removed: Option<RemovedAtomView> },
    AddBond { atom_a: u64, atom_b: u64, bond_id: Option<u64> },
    RemoveBond { bond_id: u64, removed: Option<BondView> },
    MoveAtom { atom_id: u64, from: [u32; 3], to: [u32; 3] },
}

pub open spec fn atom_id_opt(o: Option<AtomId>) -> Option<u64> {
    match o {
        Some(a) => Some(a@),
        None => None,
    }
}

pub open spec fn bond_id_opt(o: Option<BondId>) -> Option<u64> {
    match o {
        Some(b) => Some(b@),
        None => None,
    }
}

impl View for Command {
    type V = CommandView;

    open spec fn view(&self) -> CommandView {
        match self {
            Command::InsertAtom { element, position, atom_id, order_index } => CommandView::InsertAtom {
                element: element@,
                position: *position,
                atom_id: atom_id_opt(*atom_id),
                order_index: match order_index {
                    Some(i) => Some(*i as nat),
                    None => None,
                },
            },
            Command::DeleteAtom { atom_id, removed } => CommandView::DeleteAtom {
                atom_id: atom_id@,
                removed: match removed {
                    Some(r) => Some(r@),
                    None => None,
                },
            },
            Command::AddBond { atom_a, atom_b, bond_id } => CommandView::AddBond {
                atom_a: atom_a@,
                atom_b: atom_b@,
                bond_id: bond_id_opt(*bond_id),
            },
            Command::RemoveBond { bond_id, removed } => CommandView::RemoveBond {
                bond_id: bond_id@,
                removed: match removed {
                    Some(b) => Some(b@),
                    None => None,
                },
            },
            Command::MoveAtom { atom_id, from, to } => CommandView::MoveAtom {
                atom_id: atom_id@,
                from: *from,
                to: *to,
            },
        }
    }
}

pub open spec fn atom_not_found_message() -> Seq<char> {
    "atom not found"@
}

pub open spec fn bond_not_found_message() -> Seq<char> {
    "bond not found"@
}

pub open spec fn missing_undo_data_message() -> Seq<char> {
    "missing undo data"@
}

pub open spec fn missing_data_message() -> Seq<char> {
    "command missing data"@
}

pub open spec fn atom_exists_message() -> Seq<char> {
    "atom already exists"@
}

pub open spec fn atom_id_range_message() -> Seq<char> {
    "atom id out of range"@
}

pub open spec fn atom_ids_exhausted_message() -> Seq<char> {
    "atom ids exhausted"@
}

pub open spec fn bond_ids_exhausted_message() -> Seq<char> {
    "bond ids exhausted"@
}

/// The order index an insertion uses: the one given, else the end.
pub open spec fn insert_index(order_index: Option<nat>, m: MoleculeView) -> nat {
    match order_index {
        Some(i) => i,
        None => m.order.len(),
    }
}

/// What applying `c` makes of molecule `m`, or why it is refused.
pub open spec fn apply_outcome(c: CommandView, m: MoleculeView) -> Result<MoleculeView, Seq<char>> {
    match c {
        CommandView::InsertAtom { element, position, atom_id, order_index } => {
            let index = insert_index(order_index, m) as int;
            match atom_id {
                Some(id) => if m.atoms.contains_key(id) {
                    Err(atom_exists_message())
                } else if id == u64::MAX {
                    Err(atom_id_range_message())
                } else {
                    Ok(m.with_atom(id, element, position, index))
                },
                None => if m.next_atom == u64::MAX {
                    Err(atom_ids_exhausted_message())
                } else {
                    Ok(m.with_atom(m.next_atom, element, position, index))
                },
            }
        },
        CommandView::DeleteAtom { atom_id, .. } => if m.atoms.contains_key(atom_id) {
            Ok(m.without_atom(atom_id))
        } else {
            Err(atom_not_found_message())
        },
        CommandView::AddBond { atom_a, atom_b, bond_id } => if m.has_bond(atom_a, atom_b) {
            Err(crate::molecule::bond_exists_message())
        } else {
            match bond_id {
                Some(id) => m.insert_bond_outcome(id, atom_a, atom_b),
                None => if m.next_bond == u64::MAX {
                    Err(bond_ids_exhausted_message())
                } else {
                    m.add_bond_outcome(atom_a, atom_b)
                },
            }
        },
        CommandView::RemoveBond { bond_id, .. } => if m.bonds.contains_key(bond_id) {
            Ok(m.without_bond(bond_id))
        } else {
            Err(bond_not_found_message())
        },
        CommandView::MoveAtom { atom_id, to, .. } => if m.atoms.contains_key(atom_id) {
            Ok(m.with_position(atom_id, to))
        } else {
            Err(atom_not_found_message())
        },
    }
}

/// Whether `c2` is command `c` as it stands after applying it to `m`: the
/// ids it resolved and the state it captured are recorded.
pub open spec fn applied(c: CommandView, m: MoleculeView, c2: CommandView) -> bool {
    match c {
        CommandView::InsertAtom { element, position, atom_id, order_index } => c2
            == CommandView::InsertAtom {
            element,
            position,
            atom_id: Some(
                match atom_id {
                    Some(id) => id,
                    None => m.next_atom,
                },
            ),
            order_index: Some(insert_index(order_index, m)),
        },
        CommandView::DeleteAtom { atom_id, .. } => match c2 {
            CommandView::DeleteAtom { atom_id: id2, removed: Some(rm) } => id2 == atom_id
                && m.removal(atom_id, rm),
            _ => false,
        },
        CommandView::AddBond { atom_a, atom_b, bond_id } => c2 == CommandView::AddBond {
            atom_a,
            atom_b,
            bond_id: Some(
                match bond_id {
                    Some(id) => id,
                    None => m.next_bond,
                },
            ),
        },
        CommandView::RemoveBond { bond_id, .. } => c2 == CommandView::RemoveBond {
            bond_id,
            removed: Some(m.bonds[bond_id]),
        },
        CommandView::MoveAtom { .. } => c2 == c,
    }
}

/// Re-adds `bonds` one by one under their own ids; stops at the first one
/// refused, giving the state reached and the refusal.
pub open spec fn restore_bonds(m: MoleculeView, bonds: Seq<BondView>) -> (MoleculeView, Option<
    Seq<char>,
>)
    decreases bonds.len(),
{
    if bonds.len() == 0 {
        (m, None)
    } else {
        match m.insert_bond_outcome(bonds[0].id, bonds[0].a, bonds[0].b) {
            Ok(m2) => restore_bonds(m2, bonds.drop_first()),
            Err(e) => (m, Some(e)),
        }
    }
}

/// What undoing `c` makes of molecule `m`, and the refusal, if any.
pub open spec fn undo_outcome(c: CommandView, m: MoleculeView) -> (MoleculeView, Option<Seq<char>>) {
    match c {
        CommandView::InsertAtom { atom_id: Some(id), .. } => if m.atoms.contains_key(id) {
            (m.without_atom(id), None)
        } else {
            (m, Some(atom_not_found_message()))
        },
        CommandView::DeleteAtom { removed, .. } => match removed {
            None => (m, Some(missing_undo_data_message())),
            Some(rm) => if m.atoms.contains_key(rm.atom.id) {
                (m, Some(atom_exists_message()))
            } else if rm.atom.id == u64::MAX {
                (m, Some(atom_id_range_message()))
            } else {
                restore_bonds(
                    m.with_atom(rm.atom.id, rm.atom.element, rm.atom.position, rm.order_index as int),
                    rm.bonds,
                )
            },
        },
        CommandView::AddBond { bond_id: Some(id), .. } => if m.bonds.contains_key(id) {
            (m.without_bond(id), None)
        } else {
            (m, Some(bond_not_found_message()))
        },
        CommandView::RemoveBond { removed, .. } => match removed {
            None => (m, Some(missing_undo_data_message())),
            Some(b) => match m.insert_bond_outcome(b.id, b.a, b.b) {
                Ok(m2) => (m2, None),
                Err(e) => (m, Some(e)),
            },
        },
        CommandView::MoveAtom { atom_id, from, .. } => if m.atoms.contains_key(atom_id) {
            (m.with_position(atom_id, from), None)
        } else {
            (m, Some(atom_not_found_message()))
        },
        _ => (m, Some(missing_data_message())),
    }
}

/// Whether `b` can be folded into `a`: both move the same atom.
pub open spec fn mergeable(a: CommandView, b: CommandView) -> bool {
    match (a, b) {
        (
            CommandView::MoveAtom { atom_id: x, .. },
            CommandView::MoveAtom { atom_id: y, .. },
        ) => x == y,
        _ => false,
    }
}

/// `a` with its destination replaced by `b`'s.
pub open spec fn merged(a: CommandView, b: CommandView) -> CommandView {
    match (a, b) {
        (CommandView::MoveAtom { atom_id, from, .. }, CommandView::MoveAtom { to, .. }) => {
            CommandView::MoveAtom { atom_id, from, to }
        },
        _ => a,
    }
}

impl Command {
    /// A copy of this command.
    pub fn duplicate(&self) -> (r: Command)
        ensures
            r@ == self@,
    {
        match self {
            Command::InsertAtom { element, position, atom_id, order_index } => Command::InsertAtom {
                element: element.clone(),
                position: *position,
                atom_id: *atom_id,
                order_index: *order_index,
            },
            Command::DeleteAtom { atom_id, removed } => Command::DeleteAtom {
                atom_id: *atom_id,
                removed: match removed {
                    Some(r) => Some(r.duplicate()),
                    None => None,
                },
            },
            Command::AddBond { atom_a, atom_b, bond_id } => Command::AddBond {
                atom_a: *atom_a,
                atom_b: *atom_b,
                bond_id: *bond_id,
            },
            Command::RemoveBond { bond_id, removed } => Command::RemoveBond {
                bond_id: *bond_id,
                removed: *removed,
            },
            Command::MoveAtom { atom_id, from, to } => Command::MoveAtom {
                atom_id: *atom_id,
                from: *from,
                to: *to,
            },
        }
    }

    /// Performs this command on `molecule` and records the ids it resolved and
    /// the state it captured. A refused command changes neither itself nor
    /// the molecule.
    pub fn apply(&mut self, molecule: &mut Molecule) -> (r: Result<(), String>)
        requires
            old(molecule)@.wf(),
        ensures
            final(molecule)@.wf(),
            match r {
                Ok(()) => apply_outcome(old(self)@, old(molecule)@) == Ok::<MoleculeView, Seq<char>>(
                    final(molecule)@,
                ) && applied(old(self)@, old(molecule)@, final(self)@),
                Err(e) => apply_outcome(old(self)@, old(molecule)@) == Err::<MoleculeView, Seq<char>>(
                    e@,
                ) && final(molecule)@ == old(molecule)@ && *final(self) == *old(self),
            },
    {
        match self {
            Command::InsertAtom { element, position, atom_id, order_index } => {
                let index = match order_index {
                    Some(i) => *i,
                    None => molecule.order_len(),
                };
                let id = match atom_id {
                    Some(id) => {
                        if molecule.get_atom(*id).is_some() {
                            return Err("atom already exists".to_string());
                        }
                        if id.value() == u64::MAX {
                            return Err("atom id out of range".to_string());
                        }
                        molecule.insert_atom_with_id(*id, element.clone(), *position, Some(index))
                    },
                    None => {
                        let next = molecule.next_atom();
                        if next.value() == u64::MAX {
                            return Err("atom ids exhausted".to_string());
                        }
                        if index >= molecule.order_len() {
                            molecule.insert_atom(element.clone(), *position)
                        } else {
                            molecule.insert_atom_with_id(next, element.clone(), *position, Some(index))
                        }
                    },
                };
                *atom_id = Some(id);
                *order_index = Some(index);
                Ok(())
            },
            Command::DeleteAtom { atom_id, removed } => {
                match molecule.remove_atom(*atom_id) {
                    None => Err("atom not found".to_string()),
                    Some(result) => {
                        *removed = Some(result);
                        Ok(())
                    },
                }
            },
            Command::AddBond { atom_a, atom_b, bond_id } => {
                if molecule.bond_between(*atom_a, *atom_b).is_some() {
                    return Err("bond already exists".to_string());
                }
                let id = match bond_id {
                    Some(id) => match molecule.insert_bond_with_id(*id, *atom_a, *atom_b) {
                        Ok(id) => id,
                        Err(e) => return Err(e),
                    },
                    None => {
                        if molecule.next_bond().value() == u64::MAX {
                            return Err("bond ids exhausted".to_string());
                        }
                        match molecule.add_bond(*atom_a, *atom_b) {
                            Ok(id) => id,
                            Err(e) => return Err(e),
                        }
                    },
                };
                *bond_id = Some(id);
                Ok(())
            },
            Command::RemoveBond { bond_id, removed } => {
                match molecule.remove_bond(*bond_id) {
                    None => Err("bond not found".to_string()),
                    Some(bond) => {
                        *removed = Some(bond);
                        Ok(())
                    },
                }
            },
            Command::MoveAtom { atom_id, to, .. } => {
                match molecule.set_atom_position(*atom_id, *to) {
                    None => Err("atom not found".to_string()),
                    Some(()) => Ok(()),
                }
            },
        }
    }
}

impl Command {
    /// Reverts this command on `molecule` from the state it captured when it
    /// was applied. The command itself is left as it is.
    pub fn undo(&mut self, molecule: &mut Molecule) -> (r: Result<(), String>)
        requires
            old(molecule)@.wf(),
        ensures
            final(molecule)@.wf(),
            *final(self) == *old(self),
            undo_outcome(old(self)@, old(molecule)@) == (
                final(molecule)@,
                match r {
                    Ok(()) => None::<Seq<char>>,
                    Err(e) => Some(e@),
                },
            ),
    {
        let command: &Command = self;
        match command {
            Command::InsertAtom { atom_id: Some(atom_id), .. } => {
                match molecule.remove_atom(*atom_id) {
                    None => Err("atom not found".to_string()),
                    Some(_) => Ok(()),
                }
            },
            Command::DeleteAtom { removed, .. } => {
                let removed = match removed {
                    None => return Err("missing undo data".to_string()),
                    Some(r) => r,
                };
                if molecule.get_atom(removed.atom.id).is_some() {
                    return Err("atom already exists".to_string());
                }
                if removed.atom.id.value() == u64::MAX {
                    return Err("atom id out of range".to_string());
                }
                molecule.insert_atom_with_id(
                    removed.atom.id,
                    removed.atom.element.clone(),
                    removed.atom.position,
                    Some(removed.order_index),
                );
                let ghost bonds = removed@.bonds;
                let ghost start = molecule@;
                let mut i: usize = 0;
                assert(bonds.subrange(0, bonds.len() as int) =~= bonds);
                while i < removed.bonds.len()
                    invariant
                        molecule@.wf(),
                        bonds == removed@.bonds,
                        i <= removed.bonds.len() == bonds.len(),
                        restore_bonds(molecule@, bonds.subrange(i as int, bonds.len() as int))
                            == restore_bonds(start, bonds),
                        undo_outcome(old(self)@, old(molecule)@) == restore_bonds(start, bonds),
                    decreases removed.bonds.len() - i,
                {
                    let bond = removed.bonds[i];
                    assert(bonds.subrange(i as int, bonds.len() as int).drop_first() =~= bonds.subrange(
                        i + 1,
                        bonds.len() as int,
                    ));
                    assert(bonds.subrange(i as int, bonds.len() as int)[0] == bond@);
                    let ghost before = molecule@;
                    let ghost rest = bonds.subrange(i as int, bonds.len() as int);
                    match molecule.insert_bond_with_id(bond.id, bond.a, bond.b) {
                        Err(e) => {
                            assert(before.insert_bond_outcome(rest[0].id, rest[0].a, rest[0].b)
                                == Err::<MoleculeView, Seq<char>>(e@));
                            assert(restore_bonds(before, rest) == (before, Some(e@)));
                            return Err(e);
                        },
                        Ok(_) => {},
                    }
                    i = i + 1;
                }
                Ok(())
            },
            Command::AddBond { bond_id: Some(bond_id), .. } => {
                match molecule.remove_bond(*bond_id) {
                    None => Err("bond not found".to_string()),
                    Some(_) => Ok(()),
                }
            },
            Command::RemoveBond { removed, .. } => {
                let bond = match removed {
                    None => return Err("missing undo data".to_string()),
                    Some(b) => *b,
                };
                match molecule.insert_bond_with_id(bond.id, bond.a, bond.b) {
                    Err(e) => Err(e),
                    Ok(_) => Ok(()),
                }
            },
            Command::MoveAtom { atom_id, from, .. } => {
                match molecule.set_atom_position(*atom_id, *from) {
                    None => Err("atom not found".to_string()),
                    Some(()) => Ok(()),
                }
            },
            _ => Err("command missing data".to_string()),
        }
    }

    /// Folds `other` into this command when both move the same atom: the
    /// destination becomes `other`'s and the origin stays. Returns whether it did.
    pub fn merge_with(&mut self, other: &Command) -> (r: bool)
        ensures
            r == mergeable(old(self)@, other@),
            r ==> final(self)@ == merged(old(self)@, other@),
            !r ==> *final(self) == *old(self),
    {
        match self {
            Command::MoveAtom { atom_id: a_id, to: a_to, .. } => match other {
                Command::MoveAtom { atom_id, to, .. } => {
                    if *a_id == *atom_id {
                        *a_to = *to;
                        true
                    } else {
                        false
                    }
                },
                _ => false,
            },
            _ => false,
        }
    }
}

} // verus!
