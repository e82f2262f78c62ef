use std::collections::HashMap;

use vstd::prelude::*;

use crate::element::{max_valence, max_valence_of};
use crate::text::{decimal, push_decimal};
use vstd::std_specs::iter::IteratorSpec;
use vstd::string::StringExecFns;

verus! {

broadcast use vstd::std_specs::hash::group_hash_axioms;

/// Identity of an atom. Issued by a molecule's allocator and never reused by it.
#[derive(Debug, Clone, Copy, PartialEq, Eq, Structural, Hash, PartialOrd, Ord)]
pub struct AtomId(u64);

/// Identity of a bond. Issued by a molecule's allocator and never reused by it.
#[derive(Debug, Clone, Copy, PartialEq, Eq, Structural, Hash, PartialOrd, Ord)]
pub struct BondId(u64);

impl View for AtomId {
    type V = u64;

    closed spec fn view(&self) -> u64 {
        self.0
    }
}

impl View for BondId {
    type V = u64;

    closed spec fn view(&self) -> u64 {
        self.0
    }
}

/// Two atom ids are the same handle exactly when they hold the same number.
pub broadcast proof fn lemma_atom_id_view(a: AtomId, b: AtomId)
    ensures
        #![trigger a@, b@]
        (a@ == b@) == (a == b),
{
}

/// Two bond ids are the same handle exactly when they hold the same number.
pub broadcast proof fn lemma_bond_id_view(a: BondId, b: BondId)
    ensures
        #![trigger a@, b@]
        (a@ == b@) == (a == b),
{
}

impl AtomId {
    pub fn value(self) -> (r: u64)
        ensures
            r == self@,
    {
        self.0
    }
}

impl BondId {
    pub fn value(self) -> (r: u64)
        ensures
            r == self@,
    {
        self.0
    }
}

/// An atom. Its position holds the IEEE-754 single-precision bit patterns of
/// x, y and z; the model stores and restores positions and never computes on them.
#[derive(Debug, Clone)]
pub struct Atom {
    pub id: AtomId,
    pub element: String,
    pub position: [u32; 3],
}

pub struct AtomView {
    pub id: u64,
    pub element: Seq<char>,
    pub position: [u32; 3],
}

impl View for Atom {
    type V = AtomView;

    open spec fn view(&self) -> AtomView {
        AtomView { id: self.id@, element: self.element@, position: self.position }
    }
}

impl Atom {
    /// A copy of this atom.
    pub fn duplicate(&self) -> (r: Atom)
        ensures
            r@ == self@,
    {
        Atom { id: self.id, element: self.element.clone(), position: self.position }
    }
}

/// A bond between two atoms; `a`, `b` and `b`, `a` name the same pair.
#[derive(Debug, Clone, Copy)]
pub struct Bond {
    pub id: BondId,
    pub a: AtomId,
    pub b: AtomId,
}

pub struct BondView {
    pub id: u64,
    pub a: u64,
    pub b: u64,
}

impl View for Bond {
    type V = BondView;

    open spec fn view(&self) -> BondView {
        BondView { id: self.id@, a: self.a@, b: self.b@ }
    }
}

/// Whether bond `b` has `k` as an endpoint.
pub open spec fn touches(b: BondView, k: u64) -> bool {
    b.a == k || b.b == k
}

/// Whether bond `b` joins `x` and `y`, in either direction.
pub open spec fn joins(b: BondView, x: u64, y: u64) -> bool {
    (b.a == x && b.b == y) || (b.a == y && b.b == x)
}

/// The ids of the bonds that have `k` as an endpoint.
pub open spec fn incident(bonds: Map<u64, BondView>, k: u64) -> Set<u64> {
    bonds.dom().filter(|j: u64| touches(bonds[j], k))
}

/// For each atom, the number of bonds that reference it.
pub open spec fn occupancy_of(atoms: Set<u64>, bonds: Map<u64, BondView>) -> Map<u64, nat> {
    Map::new(|k: u64| atoms.contains(k), |k: u64| incident(bonds, k).len())
}

pub open spec fn atom_missing_message() -> Seq<char> {
    "atom does not exist"@
}

pub open spec fn bond_exists_message() -> Seq<char> {
    "bond already exists"@
}

pub open spec fn bond_id_in_use_message() -> Seq<char> {
    "bond id already in use"@
}

pub open spec fn bond_id_range_message() -> Seq<char> {
    "bond id out of range"@
}

pub open spec fn valence_message(element: Seq<char>, max: nat) -> Seq<char> {
    "valence exceeded for "@ + element + " (max "@ + decimal(max) + ")"@
}

/// The state of a molecule as the contracts see it.
pub struct MoleculeView {
    pub name: Seq<char>,
    pub atoms: Map<u64, AtomView>,
    /// Insertion/display order of the atoms.
    pub order: Seq<u64>,
    pub bonds: Map<u64, BondView>,
    /// Bond occupancy of each atom.
    pub occupancy: Map<u64, nat>,
    pub next_atom: u64,
    pub next_bond: u64,
}

impl MoleculeView {
    /// The molecule's invariants: bonds reference existing atoms, at most one
    /// bond per pair, occupancy counts bonds and stays within valence, the
    /// order is a permutation of the atoms, and the allocators are past every
    /// id in use.
    pub open spec fn wf(self) -> bool {
        &&& self.atoms.dom().finite()
        &&& self.bonds.dom().finite()
        &&& forall|k: u64| #[trigger]
            self.atoms.contains_key(k) ==> self.atoms[k].id == k && k < self.next_atom
        &&& forall|j: u64| #[trigger]
            self.bonds.contains_key(j) ==> {
                &&& self.bonds[j].id == j
                &&& j < self.next_bond
                &&& self.atoms.contains_key(self.bonds[j].a)
                &&& self.atoms.contains_key(self.bonds[j].b)
            }
        &&& forall|i: u64, j: u64|
            #![trigger self.bonds[i], self.bonds[j]]
            self.bonds.contains_key(i) && self.bonds.contains_key(j) && joins(
                self.bonds[i],
                self.bonds[j].a,
                self.bonds[j].b,
            ) ==> i == j
        &&& self.occupancy == occupancy_of(self.atoms.dom(), self.bonds)
        &&& forall|k: u64| #[trigger]
            self.atoms.contains_key(k) ==> incident(self.bonds, k).len() <= max_valence_of(
                self.atoms[k].element,
            )
        &&& self.order.no_duplicates()
        &&& forall|i: int| 0 <= i < self.order.len() ==> self.atoms.contains_key(#[trigger] self.order[i])
        &&& forall|k: u64| #[trigger] self.atoms.contains_key(k) ==> self.order.contains(k)
    }

    /// Whether some bond joins `x` and `y`.
    pub open spec fn has_bond(self, x: u64, y: u64) -> bool {
        exists|j: u64| #[trigger] self.bonds.contains_key(j) && joins(self.bonds[j], x, y)
    }

    /// The molecule with atom `id` added at `index` of the order (clamped to its length).
    pub open spec fn with_atom(
        self,
        id: u64,
        element: Seq<char>,
        position: [u32; 3],
        index: int,
    ) -> MoleculeView {
        let atoms = self.atoms.insert(id, AtomView { id, element, position });
        let at = if index < self.order.len() {
            index
        } else {
            self.order.len() as int
        };
        MoleculeView {
            atoms,
            order: self.order.insert(at, id),
            occupancy: occupancy_of(atoms.dom(), self.bonds),
            next_atom: if id < self.next_atom {
                self.next_atom
            } else {
                (id + 1) as u64
            },
            ..self
        }
    }

    /// The molecule without atom `id` and without the bonds that touch it.
    pub open spec fn without_atom(self, id: u64) -> MoleculeView {
        let atoms = self.atoms.remove(id);
        let bonds = self.bonds.remove_keys(incident(self.bonds, id));
        MoleculeView {
            atoms,
            order: self.order.remove(self.order.index_of(id)),
            bonds,
            occupancy: occupancy_of(atoms.dom(), bonds),
            ..self
        }
    }

    /// The molecule with atom `id` moved to `position`.
    pub open spec fn with_position(self, id: u64, position: [u32; 3]) -> MoleculeView {
        MoleculeView {
            atoms: self.atoms.insert(id, AtomView { position, ..self.atoms[id] }),
            ..self
        }
    }

    /// The molecule with bond `id` joining `a` and `b` added.
    pub open spec fn with_bond(self, id: u64, a: u64, b: u64) -> MoleculeView {
        let bonds = self.bonds.insert(id, BondView { id, a, b });
        MoleculeView {
            bonds,
            occupancy: occupancy_of(self.atoms.dom(), bonds),
            next_bond: if id < self.next_bond {
                self.next_bond
            } else {
                (id + 1) as u64
            },
            ..self
        }
    }

    /// The molecule without bond `id`.
    pub open spec fn without_bond(self, id: u64) -> MoleculeView {
        let bonds = self.bonds.remove(id);
        MoleculeView { bonds, occupancy: occupancy_of(self.atoms.dom(), bonds), ..self }
    }

    /// Why a new bond between `a` and `b` is refused, if it is.
    pub open spec fn bond_error(self, a: u64, b: u64) -> Option<Seq<char>> {
        if !self.atoms.contains_key(a) || !self.atoms.contains_key(b) {
            Some(atom_missing_message())
        } else if self.has_bond(a, b) {
            Some(bond_exists_message())
        } else if self.occupancy[a] >= max_valence_of(self.atoms[a].element) {
            Some(valence_message(self.atoms[a].element, max_valence_of(self.atoms[a].element)))
        } else if self.occupancy[b] >= max_valence_of(self.atoms[b].element) {
            Some(valence_message(self.atoms[b].element, max_valence_of(self.atoms[b].element)))
        } else {
            None
        }
    }

    /// Why bond `id` between `a` and `b` is refused, if it is.
    pub open spec fn insert_bond_error(self, id: u64, a: u64, b: u64) -> Option<Seq<char>> {
        if !self.atoms.contains_key(a) || !self.atoms.contains_key(b) {
            Some(atom_missing_message())
        } else if id == u64::MAX {
            Some(bond_id_range_message())
        } else if self.bonds.contains_key(id) {
            Some(bond_id_in_use_message())
        } else {
            self.bond_error(a, b)
        }
    }

    /// What `add_bond(a, b)` makes of this molecule.
    pub open spec fn add_bond_outcome(self, a: u64, b: u64) -> Result<MoleculeView, Seq<char>> {
        match self.bond_error(a, b) {
            Some(e) => Err(e),
            None => Ok(self.with_bond(self.next_bond, a, b)),
        }
    }

    /// What `insert_bond_with_id(id, a, b)` makes of this molecule.
    pub open spec fn insert_bond_outcome(self, id: u64, a: u64, b: u64) -> Result<
        MoleculeView,
        Seq<char>,
    > {
        match self.insert_bond_error(id, a, b) {
            Some(e) => Err(e),
            None => Ok(self.with_bond(id, a, b)),
        }
    }
}

/// The document: atoms, their order, bonds, and the occupancy of each atom.
#[derive(Debug, Clone)]
pub struct Molecule {
    pub name: String,
    atoms: HashMap<u64, Atom>,
    atom_order: Vec<AtomId>,
    bonds: HashMap<u64, Bond>,
    valence_counts: HashMap<u64, usize>,
    next_atom_id: u64,
    next_bond_id: u64,
}

impl View for Molecule {
    type V = MoleculeView;

    closed spec fn view(&self) -> MoleculeView {
        MoleculeView {
            name: self.name@,
            atoms: self.atoms@.map_values(|a: Atom| a@),
            order: self.atom_order@.map_values(|a: AtomId| a@),
            bonds: self.bonds@.map_values(|b: Bond| b@),
            occupancy: self.valence_counts@.map_values(|c: usize| c as nat),
            next_atom: self.next_atom_id,
            next_bond: self.next_bond_id,
        }
    }
}

/// Adding an atom whose id is free keeps the invariants.
proof fn lemma_with_atom_wf(m: MoleculeView, id: u64, element: Seq<char>, position: [u32; 3], index: int)
    requires
        m.wf(),
        !m.atoms.contains_key(id),
        id < u64::MAX,
        0 <= index,
    ensures
        m.with_atom(id, element, position, index).wf(),
        incident(m.bonds, id) == Set::<u64>::empty(),
{
    let r = m.with_atom(id, element, position, index);
    assert(incident(m.bonds, id) =~= Set::<u64>::empty());
    let at = if index < m.order.len() {
        index
    } else {
        m.order.len() as int
    };
    assert(r.order == m.order.insert(at, id));
    m.order.insert_ensures(at, id);
    assert forall|k: u64| #[trigger] r.atoms.contains_key(k) implies r.order.contains(k) by {
        if k == id {
            assert(r.order[at] == id);
        } else {
            let i = choose|i: int| 0 <= i < m.order.len() && m.order[i] == k;
            if i < at {
                assert(r.order[i] == k);
            } else {
                assert(r.order[i + 1] == k);
            }
        }
    }
    assert forall|i: int| 0 <= i < r.order.len() implies r.atoms.contains_key(#[trigger] r.order[i]) by {
        if i < at {
            assert(r.order[i] == m.order[i]);
        } else if i > at {
            assert(r.order[i] == m.order[i - 1]);
        }
    }
    assert forall|i: int, j: int| 0 <= i < r.order.len() && 0 <= j < r.order.len() && i != j
        implies r.order[i] != r.order[j] by {
        if i != at && j != at {
            let i0 = if i < at { i } else { i - 1 };
            let j0 = if j < at { j } else { j - 1 };
            assert(r.order[i] == m.order[i0]);
            assert(r.order[j] == m.order[j0]);
        } else if i == at {
            let j0 = if j < at { j } else { j - 1 };
            assert(r.order[j] == m.order[j0]);
            assert(m.atoms.contains_key(m.order[j0]));
        } else {
            let i0 = if i < at { i } else { i - 1 };
            assert(r.order[i] == m.order[i0]);
            assert(m.atoms.contains_key(m.order[i0]));
        }
    }
}

impl Molecule {
    /// An empty molecule named `name`.
    pub fn new(name: &str) -> (r: Molecule)
        ensures
            r@ == (MoleculeView {
                name: name@,
                atoms: Map::empty(),
                order: Seq::empty(),
                bonds: Map::empty(),
                occupancy: Map::empty(),
                next_atom: 1,
                next_bond: 1,
            }),
            r@.wf(),
    {
        let r = Molecule {
            name: name.to_string(),
            atoms: HashMap::new(),
            atom_order: Vec::new(),
            bonds: HashMap::new(),
            valence_counts: HashMap::new(),
            next_atom_id: 1,
            next_bond_id: 1,
        };
        assert(r@.atoms =~= Map::empty());
        assert(r@.order =~= Seq::empty());
        assert(r@.bonds =~= Map::empty());
        assert(r@.occupancy =~= Map::empty());
        assert(occupancy_of(Set::empty(), Map::empty()) =~= Map::empty());
        r
    }

    /// The number of atoms.
    pub fn atom_count(&self) -> (r: usize)
        ensures
            r == self@.atoms.len(),
    {
        assert(self@.atoms.dom() =~= self.atoms@.dom());
        self.atoms.len()
    }

    /// The atoms, in the molecule's order.
    pub fn atoms_in_order(&self) -> (r: Vec<&Atom>)
        requires
            self@.wf(),
        ensures
            r.len() == self@.order.len(),
            forall|i: int| 0 <= i < r.len() ==> (#[trigger] r[i])@ == self@.atoms[self@.order[i]],
    {
        let mut r: Vec<&Atom> = Vec::new();
        let mut i: usize = 0;
        while i < self.atom_order.len()
            invariant
                self@.wf(),
                i <= self.atom_order.len(),
                r.len() == i,
                forall|j: int| 0 <= j < i ==> (#[trigger] r[j])@ == self@.atoms[self@.order[j]],
            decreases self.atom_order.len() - i,
        {
            let id = self.atom_order[i];
            assert(self@.order[i as int] == id@);
            assert(self@.atoms.contains_key(id@));
            let atom = self.atoms.get(&id.0).unwrap();
            r.push(atom);
            i = i + 1;
        }
        r
    }

    /// The atom ids, in the molecule's order.
    pub fn atom_ids(&self) -> (r: Vec<AtomId>)
        ensures
            r@.map_values(|a: AtomId| a@) == self@.order,
    {
        let mut r: Vec<AtomId> = Vec::new();
        let mut i: usize = 0;
        while i < self.atom_order.len()
            invariant
                i <= self.atom_order.len(),
                r@ == self.atom_order@.subrange(0, i as int),
            decreases self.atom_order.len() - i,
        {
            r.push(self.atom_order[i]);
            i = i + 1;
        }
        assert(r@ =~= self.atom_order@);
        r
    }

    /// The atom with id `id`, if there is one.
    pub fn get_atom(&self, id: AtomId) -> (r: Option<&Atom>)
        ensures
            match r {
                Some(a) => self@.atoms.contains_key(id@) && a@ == self@.atoms[id@],
                None => !self@.atoms.contains_key(id@),
            },
    {
        self.atoms.get(&id.0)
    }

    /// Adds an atom under a freshly allocated id, at the end of the order.
    pub fn insert_atom(&mut self, element: String, position: [u32; 3]) -> (r: AtomId)
        requires
            old(self)@.wf(),
            old(self)@.next_atom < u64::MAX,
        ensures
            r@ == old(self)@.next_atom,
            final(self)@ == old(self)@.with_atom(
                old(self)@.next_atom,
                element@,
                position,
                old(self)@.order.len() as int,
            ),
            final(self)@.wf(),
    {
        let id = AtomId(self.next_atom_id);
        self.next_atom_id = self.next_atom_id + 1;
        let ghost e = element@;
        let atom = Atom { id, element, position };
        self.atoms.insert(id.0, atom);
        self.atom_order.push(id);
        self.valence_counts.insert(id.0, 0);
        proof {
            let o = old(self)@;
            lemma_with_atom_wf(o, id@, e, position, o.order.len() as int);
            let w = o.with_atom(id@, e, position, o.order.len() as int);
            assert(self@.atoms =~= w.atoms);
            assert(self@.order =~= w.order);
            assert forall|k: u64| #[trigger] w.occupancy.contains_key(k) implies self@.occupancy.contains_key(k)
                && self@.occupancy[k] == w.occupancy[k] by {
                if k != id@ {
                    assert(o.occupancy.contains_key(k));
                    assert(o.occupancy[k] == occupancy_of(o.atoms.dom(), o.bonds)[k]);
                }
            }
            assert forall|k: u64| #[trigger] self@.occupancy.contains_key(k) implies w.occupancy.contains_key(k) by {
                if k != id@ {
                    assert(o.occupancy.contains_key(k));
                }
            }
            assert(self@.occupancy =~= w.occupancy);
            assert(self@.bonds =~= w.bonds);
        }
        id
    }

    /// Adds an atom under the given id, at `order_index` of the order (clamped
    /// to its length) or at its end, and moves the allocator past `id`.
    pub fn insert_atom_with_id(
        &mut self,
        id: AtomId,
        element: String,
        position: [u32; 3],
        order_index: Option<usize>,
    ) -> (r: AtomId)
        requires
            old(self)@.wf(),
            !old(self)@.atoms.contains_key(id@),
            id@ < u64::MAX,
        ensures
            r == id,
            final(self)@ == old(self)@.with_atom(
                id@,
                element@,
                position,
                match order_index {
                    Some(i) => i as int,
                    None => old(self)@.order.len() as int,
                },
            ),
            final(self)@.wf(),
    {
        if self.next_atom_id <= id.0 {
            self.next_atom_id = id.0 + 1;
        }
        let ghost e = element@;
        let atom = Atom { id, element, position };
        self.atoms.insert(id.0, atom);
        let len = self.atom_order.len();
        let at = match order_index {
            Some(index) => if index < len {
                index
            } else {
                len
            },
            None => len,
        };
        self.atom_order.insert(at, id);
        self.valence_counts.insert(id.0, 0);
        proof {
            let o = old(self)@;
            let index = match order_index {
                Some(i) => i as int,
                None => o.order.len() as int,
            };
            lemma_with_atom_wf(o, id@, e, position, index);
            let w = o.with_atom(id@, e, position, index);
            assert(self@.atoms =~= w.atoms);
            assert(self@.order =~= w.order);
            assert forall|k: u64| #[trigger] w.occupancy.contains_key(k) implies self@.occupancy.contains_key(k)
                && self@.occupancy[k] == w.occupancy[k] by {
                if k != id@ {
                    assert(o.occupancy.contains_key(k));
                    assert(o.occupancy[k] == occupancy_of(o.atoms.dom(), o.bonds)[k]);
                }
            }
            assert forall|k: u64| #[trigger] self@.occupancy.contains_key(k) implies w.occupancy.contains_key(k) by {
                if k != id@ {
                    assert(o.occupancy.contains_key(k));
                }
            }
            assert(self@.occupancy =~= w.occupancy);
            assert(self@.bonds =~= w.bonds);
        }
        id
    }
}

/// How adding a fresh bond changes the bonds that touch `k`.
pub proof fn lemma_incident_insert(bonds: Map<u64, BondView>, id: u64, nb: BondView, k: u64)
    requires
        bonds.dom().finite(),
        !bonds.contains_key(id),
    ensures
        incident(bonds, k).finite(),
        !incident(bonds, k).contains(id),
        incident(bonds.insert(id, nb), k) == if touches(nb, k) {
            incident(bonds, k).insert(id)
        } else {
            incident(bonds, k)
        },
        incident(bonds.insert(id, nb), k).len() == incident(bonds, k).len() + if touches(nb, k) {
            1nat
        } else {
            0nat
        },
{
    bonds.dom().lemma_len_filter(|j: u64| touches(bonds[j], k));
    let n = bonds.insert(id, nb);
    if touches(nb, k) {
        assert(incident(n, k) =~= incident(bonds, k).insert(id));
    } else {
        assert(incident(n, k) =~= incident(bonds, k));
    }
}

/// How removing a bond changes the bonds that touch `k`.
pub proof fn lemma_incident_remove(bonds: Map<u64, BondView>, id: u64, k: u64)
    requires
        bonds.dom().finite(),
        bonds.contains_key(id),
    ensures
        incident(bonds, k).finite(),
        incident(bonds.remove(id), k) == if touches(bonds[id], k) {
            incident(bonds, k).remove(id)
        } else {
            incident(bonds, k)
        },
        incident(bonds.remove(id), k).len() + if touches(bonds[id], k) {
            1nat
        } else {
            0nat
        } == incident(bonds, k).len(),
{
    bonds.dom().lemma_len_filter(|j: u64| touches(bonds[j], k));
    let n = bonds.remove(id);
    if touches(bonds[id], k) {
        assert(incident(n, k) =~= incident(bonds, k).remove(id));
    } else {
        assert(incident(n, k) =~= incident(bonds, k));
    }
}

/// Adding a bond that is not refused keeps the invariants and adds one to
/// the occupancy of each endpoint.
pub proof fn lemma_with_bond_wf(m: MoleculeView, id: u64, a: u64, b: u64)
    requires
        m.wf(),
        m.insert_bond_error(id, a, b) is None,
    ensures
        m.with_bond(id, a, b).wf(),
        forall|k: u64| #[trigger]
            m.atoms.contains_key(k) ==> m.with_bond(id, a, b).occupancy[k] == m.occupancy[k] + if k
                == a || k == b {
                1nat
            } else {
                0nat
            },
{
    let r = m.with_bond(id, a, b);
    let nb = BondView { id, a, b };
    assert forall|k: u64| #[trigger] m.atoms.contains_key(k) implies r.occupancy[k] == m.occupancy[k]
        + if k == a || k == b {
        1nat
    } else {
        0nat
    } && incident(r.bonds, k).len() <= max_valence_of(r.atoms[k].element) by {
        lemma_incident_insert(m.bonds, id, nb, k);
    }
    assert forall|i: u64, j: u64|
        r.bonds.contains_key(i) && r.bonds.contains_key(j) && joins(
            #[trigger] r.bonds[i],
            r.bonds[j].a,
            #[trigger] r.bonds[j].b,
        ) implies i == j by {
        if i == id && j != id {
            assert(m.bonds.contains_key(j) && joins(m.bonds[j], a, b));
        } else if j == id && i != id {
            assert(m.bonds.contains_key(i) && joins(m.bonds[i], a, b));
        }
    }
}

/// Removing a bond keeps the invariants and takes one from the occupancy of
/// each endpoint.
pub proof fn lemma_without_bond_wf(m: MoleculeView, id: u64)
    requires
        m.wf(),
        m.bonds.contains_key(id),
    ensures
        m.without_bond(id).wf(),
        forall|k: u64| #[trigger]
            m.atoms.contains_key(k) ==> m.without_bond(id).occupancy[k] + if touches(
                m.bonds[id],
                k,
            ) {
                1nat
            } else {
                0nat
            } == m.occupancy[k],
{
    let r = m.without_bond(id);
    assert forall|k: u64| #[trigger] m.atoms.contains_key(k) implies r.occupancy[k] + if touches(
        m.bonds[id],
        k,
    ) {
        1nat
    } else {
        0nat
    } == m.occupancy[k] && incident(r.bonds, k).len() <= max_valence_of(r.atoms[k].element) by {
        lemma_incident_remove(m.bonds, id, k);
    }
}

/// The message of a refused bond on an atom of `element` at capacity `max`.
fn valence_error(element: &String, max: usize) -> (r: String)
    ensures
        r@ == valence_message(element@, max as nat),
{
    let mut s = "valence exceeded for ".to_string();
    s.append(element.as_str());
    s.append(" (max ");
    push_decimal(&mut s, max);
    s.append(")");
    s
}

impl Molecule {
    /// Moves atom `id` to `position`; `None` if there is no such atom.
    pub fn set_atom_position(&mut self, id: AtomId, position: [u32; 3]) -> (r: Option<()>)
        requires
            old(self)@.wf(),
        ensures
            final(self)@.wf(),
            r is Some <==> old(self)@.atoms.contains_key(id@),
            r is Some ==> final(self)@ == old(self)@.with_position(id@, position),
            r is None ==> final(self)@ == old(self)@,
    {
        match self.atoms.get(&id.0) {
            None => None,
            Some(atom) => {
                let mut moved = atom.duplicate();
                moved.position = position;
                self.atoms.insert(id.0, moved);
                proof {
                    let w = old(self)@.with_position(id@, position);
                    assert(self@.atoms =~= w.atoms);
                    assert(self@.occupancy =~= w.occupancy);
                    assert(self@.bonds =~= w.bonds);
                    assert(self@.order =~= w.order);
                    assert(w.atoms.dom() =~= old(self)@.atoms.dom());
                }
                Some(())
            },
        }
    }

    /// The id of the bond between `a` and `b`, in either direction.
    pub fn bond_between(&self, a: AtomId, b: AtomId) -> (r: Option<BondId>)
        requires
            self@.wf(),
        ensures
            r is Some <==> self@.has_bond(a@, b@),
            r matches Some(j) ==> self@.bonds.contains_key(j@) && joins(self@.bonds[j@], a@, b@),
    {
        let ghost entries = vstd::std_specs::hash::spec_hash_map_iter(&self.bonds).remaining();
        for entry in it: self.bonds.iter()
            invariant
                self@.wf(),
                it.seq() == entries,
                forall|i: int|
                    0 <= i < it.index() ==> !joins((*(#[trigger] entries[i]).1)@, a@, b@),
        {
            assert(entry == entries[it.index() as int]);
            assert(self.bonds@.contains_key(*entry.0) && self.bonds@[*entry.0] == *entry.1);
            assert(self@.bonds.contains_key(*entry.0));
            let bond = entry.1;
            if (bond.a == a && bond.b == b) || (bond.a == b && bond.b == a) {
                return Some(bond.id);
            }
        }
        proof {
            assert forall|j: u64| #[trigger] self@.bonds.contains_key(j) implies !joins(
                self@.bonds[j],
                a@,
                b@,
            ) by {
                assert(entries.contains((&j, &self.bonds@[j])));
                let i = choose|i: int| 0 <= i < entries.len() && entries[i] == (&j, &self.bonds@[j]);
                assert(!joins((*entries[i].1)@, a@, b@));
            }
        }
        None
    }
}

impl Molecule {
    /// Every bond, each once, in no particular order.
    pub fn bonds(&self) -> (r: Vec<Bond>)
        requires
            self@.wf(),
        ensures
            r.len() == self@.bonds.len(),
            forall|i: int| 0 <= i < r.len() ==> self@.bonds.contains_key((#[trigger] r[i]).id@)
                && self@.bonds[r[i].id@] == r[i]@,
            forall|i: int, j: int| 0 <= i < j < r.len() ==> r[i].id != r[j].id,
            forall|k: u64| #[trigger]
                self@.bonds.contains_key(k) ==> exists|i: int| 0 <= i < r.len() && r[i].id@ == k,
    {
        let mut r: Vec<Bond> = Vec::new();
        let ghost keys = vstd::std_specs::hash::spec_keys_iter(&self.bonds).remaining();
        proof {
            assert(self@.bonds.dom() =~= self.bonds@.dom());
            assert forall|i: int| 0 <= i < keys.len() implies self@.bonds.contains_key(*#[trigger] keys[i]) by {
                assert(keys.unref()[i] == *keys[i]);
                assert(keys.unref().to_set().contains(keys.unref()[i]));
            }
            keys.unref().unique_seq_to_set();
        }
        for key in it: self.bonds.keys()
            invariant
                self@.wf(),
                it.seq() == keys,
                keys.unref().to_set() == self.bonds@.dom(),
                it.seq().len() == self@.bonds.len(),
                it.seq().no_duplicates(),
                forall|i: int| 0 <= i < it.seq().len() ==> self@.bonds.contains_key(*#[trigger] it.seq()[i]),
                r.len() == it.index(),
                forall|i: int| 0 <= i < r.len() ==> (#[trigger] r[i]).id@ == *it.seq()[i]
                    && self@.bonds[r[i].id@] == r[i]@,
        {
            let bond = *self.bonds.get(key).unwrap();
            r.push(bond);
        }
        proof {
            assert forall|i: int, j: int| 0 <= i < j < r.len() implies r[i].id != r[j].id by {
                assert(r[i].id@ != r[j].id@);
            }
            assert forall|k: u64| #[trigger] self@.bonds.contains_key(k) implies exists|i: int|
                0 <= i < r.len() && r[i].id@ == k by {
                assert(self.bonds@.dom().contains(k));
                assert(keys.unref().to_set().contains(k));
                let i = choose|i: int| 0 <= i < keys.len() && keys.unref()[i] == k;
                assert(r[i].id@ == k);
            }
        }
        r
    }

    fn ensure_atoms_exist(&self, a: AtomId, b: AtomId) -> (r: Result<(), String>)
        ensures
            r is Ok <==> self@.atoms.contains_key(a@) && self@.atoms.contains_key(b@),
            r matches Err(e) ==> e@ == atom_missing_message(),
    {
        if !self.atoms.contains_key(&a.0) || !self.atoms.contains_key(&b.0) {
            return Err("atom does not exist".to_string());
        }
        Ok(())
    }

    fn ensure_valence_available(&self, atom_id: AtomId) -> (r: Result<(), String>)
        requires
            self@.wf(),
            self@.atoms.contains_key(atom_id@),
        ensures
            r is Ok <==> self@.occupancy[atom_id@] < max_valence_of(self@.atoms[atom_id@].element),
            r matches Err(e) ==> e@ == valence_message(
                self@.atoms[atom_id@].element,
                max_valence_of(self@.atoms[atom_id@].element),
            ),
    {
        let atom = self.atoms.get(&atom_id.0).unwrap();
        let max = max_valence(atom.element.as_str());
        let current = match self.valence_counts.get(&atom_id.0) {
            Some(c) => *c,
            None => 0,
        };
        assert(self@.occupancy.contains_key(atom_id@));
        if current >= max {
            return Err(valence_error(&atom.element, max));
        }
        Ok(())
    }

    fn increment_valence(&mut self, atom_id: AtomId)
        requires
            old(self).valence_counts@.contains_key(atom_id@),
            old(self).valence_counts@[atom_id@] < 100,
        ensures
            final(self).valence_counts@ == old(self).valence_counts@.insert(
                atom_id@,
                (old(self).valence_counts@[atom_id@] + 1) as usize,
            ),
            final(self).atoms == old(self).atoms,
            final(self).bonds == old(self).bonds,
            final(self).atom_order == old(self).atom_order,
            final(self).name == old(self).name,
            final(self).next_atom_id == old(self).next_atom_id,
            final(self).next_bond_id == old(self).next_bond_id,
    {
        let current = *self.valence_counts.get(&atom_id.0).unwrap();
        self.valence_counts.insert(atom_id.0, current + 1);
    }

    fn decrement_valence(&mut self, atom_id: AtomId)
        ensures
            final(self).valence_counts@ == if old(self).valence_counts@.contains_key(atom_id@) {
                let c = old(self).valence_counts@[atom_id@];
                old(self).valence_counts@.insert(
                    atom_id@,
                    if c > 0 {
                        (c - 1) as usize
                    } else {
                        0
                    },
                )
            } else {
                old(self).valence_counts@
            },
            final(self).atoms == old(self).atoms,
            final(self).bonds == old(self).bonds,
            final(self).atom_order == old(self).atom_order,
            final(self).name == old(self).name,
            final(self).next_atom_id == old(self).next_atom_id,
            final(self).next_bond_id == old(self).next_bond_id,
    {
        if let Some(c) = self.valence_counts.get(&atom_id.0) {
            let current = *c;
            self.valence_counts.insert(atom_id.0, current.saturating_sub(1));
        }
    }

    /// Stores bond `id` between `a` and `b` and counts it at both ends; the
    /// caller has checked that nothing refuses it.
    fn store_bond(&mut self, id: BondId, a: AtomId, b: AtomId)
        requires
            old(self)@.wf(),
            old(self)@.insert_bond_error(id@, a@, b@) is None,
        ensures
            final(self)@ == old(self)@.with_bond(id@, a@, b@),
            final(self)@.wf(),
    {
        if self.next_bond_id <= id.0 {
            self.next_bond_id = id.0 + 1;
        }
        let bond = Bond { id, a, b };
        self.bonds.insert(id.0, bond);
        proof {
            lemma_with_bond_wf(old(self)@, id@, a@, b@);
            assert(old(self)@.occupancy.contains_key(a@));
            assert(old(self)@.occupancy.contains_key(b@));
        }
        self.increment_valence(a);
        if a != b {
            self.increment_valence(b);
        }
        proof {
            let o = old(self)@;
            let w = o.with_bond(id@, a@, b@);
            assert(self@.bonds =~= w.bonds);
            assert(self@.atoms =~= w.atoms);
            assert(self@.order =~= w.order);
            assert forall|k: u64| #[trigger] w.occupancy.contains_key(k) implies self@.occupancy.contains_key(k)
                && self@.occupancy[k] == w.occupancy[k] by {
                assert(o.occupancy.contains_key(k));
            }
            assert forall|k: u64| #[trigger] self@.occupancy.contains_key(k) implies w.occupancy.contains_key(k) by {
                assert(o.occupancy.contains_key(k));
            }
            assert(self@.occupancy =~= w.occupancy);
        }
    }

    /// Adds a bond between `a` and `b` under a freshly allocated id. Refused,
    /// with nothing changed, when an atom is missing, the pair is already
    /// bonded, or an endpoint is at its valence capacity.
    pub fn add_bond(&mut self, a: AtomId, b: AtomId) -> (r: Result<BondId, String>)
        requires
            old(self)@.wf(),
            old(self)@.next_bond < u64::MAX,
        ensures
            final(self)@.wf(),
            match r {
                Ok(id) => id@ == old(self)@.next_bond && old(self)@.add_bond_outcome(a@, b@) == Ok::<
                    MoleculeView,
                    Seq<char>,
                >(final(self)@),
                Err(e) => old(self)@.add_bond_outcome(a@, b@) == Err::<MoleculeView, Seq<char>>(e@)
                    && final(self)@ == old(self)@,
            },
    {
        match self.ensure_atoms_exist(a, b) {
            Err(e) => return Err(e),
            Ok(()) => {},
        }
        if self.bond_between(a, b).is_some() {
            return Err("bond already exists".to_string());
        }
        match self.ensure_valence_available(a) {
            Err(e) => return Err(e),
            Ok(()) => {},
        }
        match self.ensure_valence_available(b) {
            Err(e) => return Err(e),
            Ok(()) => {},
        }
        let id = BondId(self.next_bond_id);
        self.store_bond(id, a, b);
        Ok(id)
    }

    /// Adds a bond between `a` and `b` under the given id and moves the
    /// allocator past it. Refused, with nothing changed, when an atom is
    /// missing, the id is in use or out of range, the pair is already bonded,
    /// or an endpoint is at its valence capacity.
    pub fn insert_bond_with_id(&mut self, id: BondId, a: AtomId, b: AtomId) -> (r: Result<
        BondId,
        String,
    >)
        requires
            old(self)@.wf(),
        ensures
            final(self)@.wf(),
            match r {
                Ok(rid) => rid == id && old(self)@.insert_bond_outcome(id@, a@, b@) == Ok::<
                    MoleculeView,
                    Seq<char>,
                >(final(self)@),
                Err(e) => old(self)@.insert_bond_outcome(id@, a@, b@) == Err::<
                    MoleculeView,
                    Seq<char>,
                >(e@) && final(self)@ == old(self)@,
            },
    {
        match self.ensure_atoms_exist(a, b) {
            Err(e) => return Err(e),
            Ok(()) => {},
        }
        if id.0 == u64::MAX {
            return Err("bond id out of range".to_string());
        }
        if self.bonds.contains_key(&id.0) {
            return Err("bond id already in use".to_string());
        }
        if self.bond_between(a, b).is_some() {
            return Err("bond already exists".to_string());
        }
        match self.ensure_valence_available(a) {
            Err(e) => return Err(e),
            Ok(()) => {},
        }
        match self.ensure_valence_available(b) {
            Err(e) => return Err(e),
            Ok(()) => {},
        }
        self.store_bond(id, a, b);
        Ok(id)
    }

    /// Removes bond `id` and uncounts it at both ends; `None` if there is no such bond.
    pub fn remove_bond(&mut self, id: BondId) -> (r: Option<Bond>)
        requires
            old(self)@.wf(),
        ensures
            final(self)@.wf(),
            match r {
                Some(bond) => old(self)@.bonds.contains_key(id@) && bond@ == old(self)@.bonds[id@]
                    && final(self)@ == old(self)@.without_bond(id@),
                None => !old(self)@.bonds.contains_key(id@) && final(self)@ == old(self)@,
            },
    {
        let bond = match self.bonds.remove(&id.0) {
            None => {
                assert(self.bonds@ =~= old(self).bonds@);
                return None;
            },
            Some(bond) => bond,
        };
        proof {
            let o = old(self)@;
            assert(old(self).bonds@.contains_key(id.0) && old(self).bonds@[id.0] == bond);
            assert(o.bonds.contains_key(id@));
            assert(o.bonds[id@] == bond@);
            assert(o.atoms.contains_key(bond.a@));
            assert(o.atoms.contains_key(bond.b@));
            lemma_without_bond_wf(old(self)@, id@);
        }
        self.decrement_valence(bond.a);
        if bond.a != bond.b {
            self.decrement_valence(bond.b);
        }
        proof {
            let o = old(self)@;
            let w = o.without_bond(id@);
            assert(o.bonds[id@] == bond@);
            assert(self@.bonds =~= w.bonds);
            assert(self@.atoms =~= w.atoms);
            assert(self@.order =~= w.order);
            assert(o.occupancy.contains_key(bond.a@));
            assert(o.occupancy.contains_key(bond.b@));
            assert forall|k: u64| #[trigger] w.occupancy.contains_key(k) implies self@.occupancy.contains_key(k)
                && self@.occupancy[k] == w.occupancy[k] by {
                assert(o.occupancy.contains_key(k));
            }
            assert forall|k: u64| #[trigger] self@.occupancy.contains_key(k) implies w.occupancy.contains_key(k) by {
                assert(o.occupancy.contains_key(k));
            }
            assert(self@.occupancy =~= w.occupancy);
        }
        Some(bond)
    }
}

/// What deleting an atom took away: the atom, where it stood in the order,
/// and the bonds that touched it.
#[derive(Debug, Clone)]
pub struct RemovedAtom {
    pub atom: Atom,
    pub order_index: usize,
    pub bonds: Vec<Bond>,
}

pub struct RemovedAtomView {
    pub atom: AtomView,
    pub order_index: nat,
    pub bonds: Seq<BondView>,
}

impl View for RemovedAtom {
    type V = RemovedAtomView;

    open spec fn view(&self) -> RemovedAtomView {
        RemovedAtomView {
            atom: self.atom@,
            order_index: self.order_index as nat,
            bonds: self.bonds@.map_values(|b: Bond| b@),
        }
    }
}

/// A copy of `bonds`.
pub fn copy_bonds(bonds: &Vec<Bond>) -> (r: Vec<Bond>)
    ensures
        r@ == bonds@,
{
    let mut r: Vec<Bond> = Vec::new();
    let mut i: usize = 0;
    while i < bonds.len()
        invariant
            i <= bonds.len(),
            r@ == bonds@.subrange(0, i as int),
        decreases bonds.len() - i,
    {
        r.push(bonds[i]);
        i = i + 1;
    }
    assert(r@ =~= bonds@);
    r
}

impl RemovedAtom {
    /// A copy of this record.
    pub fn duplicate(&self) -> (r: RemovedAtom)
        ensures
            r@ == self@,
    {
        RemovedAtom {
            atom: self.atom.duplicate(),
            order_index: self.order_index,
            bonds: copy_bonds(&self.bonds),
        }
    }
}

impl MoleculeView {
    /// Whether `rm` records exactly what deleting atom `id` from this molecule
    /// takes away: the atom, its place in the order, and each bond touching
    /// it once (in any order).
    pub open spec fn removal(self, id: u64, rm: RemovedAtomView) -> bool {
        &&& self.atoms.contains_key(id)
        &&& rm.atom == self.atoms[id]
        &&& rm.order_index < self.order.len()
        &&& self.order[rm.order_index as int] == id
        &&& forall|t: int|
            0 <= t < rm.bonds.len() ==> {
                &&& self.bonds.contains_key(#[trigger] rm.bonds[t].id)
                &&& self.bonds[rm.bonds[t].id] == rm.bonds[t]
                &&& touches(rm.bonds[t], id)
            }
        &&& forall|t: int, u: int|
            0 <= t < rm.bonds.len() && 0 <= u < rm.bonds.len() && t != u ==> #[trigger] rm.bonds[t].id
                != #[trigger] rm.bonds[u].id
        &&& forall|j: u64| #[trigger]
            incident(self.bonds, id).contains(j) ==> exists|t: int|
                0 <= t < rm.bonds.len() && rm.bonds[t].id == j
    }
}

/// Taking away an atom that no bond touches keeps the invariants.
proof fn lemma_without_atom_wf(m: MoleculeView, id: u64)
    requires
        m.wf(),
        m.atoms.contains_key(id),
        incident(m.bonds, id) == Set::<u64>::empty(),
    ensures
        m.without_atom(id).wf(),
        m.without_atom(id).bonds == m.bonds,
        0 <= m.order.index_of(id) < m.order.len(),
        m.order[m.order.index_of(id)] == id,
{
    let r = m.without_atom(id);
    assert(m.bonds.remove_keys(Set::<u64>::empty()) =~= m.bonds);
    assert(m.order.contains(id));
    let x = m.order.index_of(id);
    m.order.remove_ensures(x);
    assert forall|j: u64| #[trigger] r.bonds.contains_key(j) implies r.atoms.contains_key(r.bonds[j].a)
        && r.atoms.contains_key(r.bonds[j].b) by {
        if r.bonds[j].a == id || r.bonds[j].b == id {
            assert(incident(m.bonds, id).contains(j));
        }
    }
    assert forall|k: u64| #[trigger] r.atoms.contains_key(k) implies r.order.contains(k) by {
        let i = choose|i: int| 0 <= i < m.order.len() && m.order[i] == k;
        if i < x {
            assert(r.order[i] == k);
        } else {
            assert(i != x);
            assert(r.order[i - 1] == k);
        }
    }
    assert forall|i: int| 0 <= i < r.order.len() implies r.atoms.contains_key(#[trigger] r.order[i]) by {
        if i < x {
            assert(r.order[i] == m.order[i]);
        } else {
            assert(r.order[i] == m.order[i + 1]);
        }
    }
    assert forall|i: int, j: int| 0 <= i < r.order.len() && 0 <= j < r.order.len() && i != j
        implies r.order[i] != r.order[j] by {
        let i0 = if i < x { i } else { i + 1 };
        let j0 = if j < x { j } else { j + 1 };
        assert(r.order[i] == m.order[i0]);
        assert(r.order[j] == m.order[j0]);
    }
}

impl Molecule {
    /// Deletes atom `id` with every bond that touches it, and returns what was
    /// taken away; `None`, with nothing changed, if there is no such atom.
    pub fn remove_atom(&mut self, id: AtomId) -> (r: Option<RemovedAtom>)
        requires
            old(self)@.wf(),
        ensures
            final(self)@.wf(),
            match r {
                Some(rm) => old(self)@.removal(id@, rm@) && final(self)@ == old(self)@.without_atom(
                    id@,
                ),
                None => !old(self)@.atoms.contains_key(id@) && final(self)@ == old(self)@,
            },
    {
        let ghost o = old(self)@;
        let atom = match self.atoms.get(&id.0) {
            None => return None,
            Some(a) => {
                assert(o.atoms.contains_key(id@));
                assert(a@ == o.atoms[id@]);
                a.duplicate()
            },
        };
        let len = self.atom_order.len();
        let mut order_index: usize = 0;
        while order_index < len && self.atom_order[order_index] != id
            invariant
                self@ == o,
                len == self.atom_order.len(),
                order_index <= len,
                forall|j: int| 0 <= j < order_index ==> self@.order[j] != id@,
            decreases len - order_index,
        {
            order_index = order_index + 1;
        }
        proof {
            assert(o.order.contains(id@));
            if order_index == len {
                let j = choose|j: int| 0 <= j < o.order.len() && o.order[j] == id@;
                assert(false);
            }
        }
        let mut removed: Vec<Bond> = Vec::new();
        let ghost entries = vstd::std_specs::hash::spec_hash_map_iter(&self.bonds).remaining();
        for entry in it: self.bonds.iter()
            invariant
                self@ == o,
                o.wf(),
                it.seq() == entries,
                entries.no_duplicates(),
                forall|t: int| 0 <= t < removed.len() ==> {
                    &&& o.bonds.contains_key((#[trigger] removed[t]).id@)
                    &&& o.bonds[removed[t].id@] == removed[t]@
                    &&& touches(removed[t]@, id@)
                    &&& exists|i: int| 0 <= i < it.index() && *entries[i].0 == removed[t].id@
                },
                forall|t: int, u: int|
                    0 <= t < removed.len() && 0 <= u < removed.len() && t != u ==> (#[trigger] removed[t]).id
                        != (#[trigger] removed[u]).id,
                forall|i: int|
                    0 <= i < it.index() && touches((*(#[trigger] entries[i]).1)@, id@) ==> exists|t: int|
                        0 <= t < removed.len() && removed[t].id@ == *entries[i].0,
        {
            let ghost i = it.index() as int;
            assert(entry == entries[i]);
            assert(self.bonds@.contains_key(*entry.0) && self.bonds@[*entry.0] == *entry.1);
            let bond = *entry.1;
            let ghost prev = removed@;
            if bond.a == id || bond.b == id {
                proof {
                    assert(o.bonds.contains_key(*entry.0));
                    assert(o.bonds[*entry.0] == bond@);
                    assert(bond.id@ == *entry.0);
                    assert forall|t: int| 0 <= t < removed.len() implies removed[t].id != bond.id by {
                        let i2 = choose|i2: int| 0 <= i2 < i && *entries[i2].0 == removed[t].id@;
                        if removed[t].id == bond.id {
                            assert(*entries[i2].1 == self.bonds@[*entries[i2].0]);
                            assert(entries[i2] == entries[i]);
                            assert(false);
                        }
                    }
                }
                removed.push(bond);
                assert(removed@.last().id@ == *entries[i].0);
            }
            proof {
                assert forall|i2: int|
                    0 <= i2 <= i && touches((*(#[trigger] entries[i2]).1)@, id@) implies exists|t: int|
                    0 <= t < removed.len() && removed[t].id@ == *entries[i2].0 by {
                    if i2 < i {
                        let t = choose|t: int| 0 <= t < prev.len() && prev[t].id@ == *entries[i2].0;
                        assert(removed[t] == prev[t]);
                    } else {
                        assert(removed[removed.len() - 1].id@ == *entries[i].0);
                    }
                }
            }
        }
        proof {
            assert forall|j: u64| #[trigger] incident(o.bonds, id@).contains(j) implies exists|t: int|
                0 <= t < removed.len() && removed[t].id@ == j by {
                assert(self.bonds@.contains_key(j));
                assert(entries.contains((&j, &self.bonds@[j])));
                let i = choose|i: int| 0 <= i < entries.len() && entries[i] == (&j, &self.bonds@[j]);
                assert(touches((*entries[i].1)@, id@));
            }
        }
        let mut t: usize = 0;
        assert(o.bonds.remove_keys(
            Set::new(|j: u64| exists|u: int| 0 <= u < 0 && removed[u].id@ == j),
        ) =~= o.bonds);
        while t < removed.len()
            invariant
                o.wf(),
                self@.wf(),
                t <= removed.len(),
                self@ == (MoleculeView {
                    bonds: o.bonds.remove_keys(
                        Set::new(|j: u64| exists|u: int| 0 <= u < t && removed[u].id@ == j),
                    ),
                    occupancy: self@.occupancy,
                    ..o
                }),
                forall|u: int| 0 <= u < removed.len() ==> {
                    &&& o.bonds.contains_key((#[trigger] removed[u]).id@)
                    &&& o.bonds[removed[u].id@] == removed[u]@
                },
                forall|u: int, v: int|
                    0 <= u < removed.len() && 0 <= v < removed.len() && u != v ==> (#[trigger] removed[u]).id
                        != (#[trigger] removed[v]).id,
            decreases removed.len() - t,
        {
            let bid = removed[t].id;
            proof {
                if !self@.bonds.contains_key(bid@) {
                    let u = choose|u: int| 0 <= u < t && removed[u].id@ == bid@;
                    assert(removed[u].id == removed[t as int].id);
                }
            }
            let ghost before = self@;
            self.remove_bond(bid);
            t = t + 1;
            proof {
                let gone = Set::new(|j: u64| exists|u: int| 0 <= u < t && removed[u].id@ == j);
                assert(self@.bonds =~= o.bonds.remove_keys(gone)) by {
                    assert forall|j: u64| #[trigger] gone.contains(j) == (exists|u: int|
                        0 <= u < t && removed[u].id@ == j) by {}
                    assert forall|j: u64| self@.bonds.contains_key(j) implies !gone.contains(j) by {
                        if gone.contains(j) {
                            let u = choose|u: int| 0 <= u < t && removed[u].id@ == j;
                            if u < t - 1 {
                                assert(!before.bonds.contains_key(j));
                            }
                        }
                    }
                }
            }
        }
        proof {
            let gone = Set::new(|j: u64| exists|u: int| 0 <= u < removed.len() && removed[u].id@ == j);
            assert(gone =~= incident(o.bonds, id@));
            assert(self@.bonds == o.bonds.remove_keys(incident(o.bonds, id@)));
            assert(incident(self@.bonds, id@) =~= Set::<u64>::empty());
            lemma_without_atom_wf(self@, id@);
        }
        let ghost mid = self@;
        self.atom_order.remove(order_index);
        self.atoms.remove(&id.0);
        self.valence_counts.remove(&id.0);
        proof {
            let w = mid.without_atom(id@);
            assert(mid.order == o.order);
            assert(o.order[order_index as int] == id@);
            assert(o.order.contains(id@));
            let c = o.order.index_of(id@);
            assert(0 <= c < o.order.len() && o.order[c] == id@);
            assert(c == order_index as int);
            assert(mid.order.index_of(id@) == order_index as int);
            assert(self@.order =~= w.order);
            assert(self@.atoms =~= w.atoms);
            assert(self@.bonds =~= w.bonds);
            assert forall|k: u64| #[trigger] w.occupancy.contains_key(k) implies self@.occupancy.contains_key(k)
                && self@.occupancy[k] == w.occupancy[k] by {
                assert(mid.occupancy.contains_key(k));
                assert(mid.occupancy[k] == incident(mid.bonds, k).len());
                assert(w.bonds == mid.bonds);
                assert(w.occupancy[k] == incident(mid.bonds, k).len());
                assert(self@.occupancy[k] == mid.occupancy[k]);
            }
            assert forall|k: u64| #[trigger] self@.occupancy.contains_key(k) implies w.occupancy.contains_key(k) by {
                assert(mid.occupancy.contains_key(k));
            }
            assert(self@.occupancy =~= w.occupancy);
            assert(w == o.without_atom(id@));
        }
        let rm = RemovedAtom { atom, order_index, bonds: removed };
        proof {
            let v = rm@;
            assert forall|t: int| 0 <= t < v.bonds.len() implies {
                &&& o.bonds.contains_key(#[trigger] v.bonds[t].id)
                &&& o.bonds[v.bonds[t].id] == v.bonds[t]
                &&& touches(v.bonds[t], id@)
            } by {
                assert(v.bonds[t] == removed[t]@);
            }
            assert forall|t: int, u: int|
                0 <= t < v.bonds.len() && 0 <= u < v.bonds.len() && t != u implies #[trigger] v.bonds[t].id
                != #[trigger] v.bonds[u].id by {
                assert(v.bonds[t] == removed[t]@);
                assert(v.bonds[u] == removed[u]@);
                assert(removed[t].id != removed[u].id);
            }
            assert forall|j: u64| #[trigger] incident(o.bonds, id@).contains(j) implies exists|t: int|
                0 <= t < v.bonds.len() && v.bonds[t].id == j by {
                let t = choose|t: int| 0 <= t < removed.len() && removed[t].id@ == j;
                assert(v.bonds[t] == removed[t]@);
            }
        }
        Some(rm)
    }
}

impl Molecule {
    /// The length of the order sequence.
    pub(crate) fn order_len(&self) -> (r: usize)
        ensures
            r == self@.order.len(),
    {
        self.atom_order.len()
    }

    /// The id the atom allocator issues next.
    pub(crate) fn next_atom(&self) -> (r: AtomId)
        ensures
            r@ == self@.next_atom,
    {
        AtomId(self.next_atom_id)
    }

    /// The id the bond allocator issues next.
    pub(crate) fn next_bond(&self) -> (r: BondId)
        ensures
            r@ == self@.next_bond,
    {
        BondId(self.next_bond_id)
    }
}

} // verus!
