use vstd::prelude::*;

use crate::command::{
    CommandView, apply_outcome, applied, insert_index, merged, mergeable, restore_bonds, undo_outcome,
};
use crate::history::{HistoryView, bounded_push};
use crate::molecule::{
    BondView, MoleculeView, RemovedAtomView, bond_exists_message, incident, joins, occupancy_of, touches,
};

verus! {

/// After `add_bond(a, b)` succeeds, adding the same pair again, in either
/// direction, is refused as a duplicate.
pub proof fn law_bond_unique(m: MoleculeView, a: u64, b: u64, m2: MoleculeView)
    requires
        m.wf(),
        m.add_bond_outcome(a, b) == Ok::<MoleculeView, Seq<char>>(m2),
    ensures
        m2.add_bond_outcome(a, b) == Err::<MoleculeView, Seq<char>>(bond_exists_message()),
        m2.add_bond_outcome(b, a) == Err::<MoleculeView, Seq<char>>(bond_exists_message()),
{
    let j = m.next_bond;
    assert(m2.bonds.contains_key(j) && joins(m2.bonds[j], a, b));
    assert(m2.bonds.contains_key(j) && joins(m2.bonds[j], b, a));
}

/// The stacks after executing the applied commands `cs` one after another.
pub open spec fn executed_all(h: HistoryView, cs: Seq<CommandView>) -> HistoryView
    decreases cs.len(),
{
    if cs.len() == 0 {
        h
    } else {
        executed_all(h.executed(cs[0]), cs.drop_first())
    }
}

/// No command of `cs` folds into the one before it.
pub open spec fn none_mergeable(cs: Seq<CommandView>) -> bool {
    forall|i: int| 0 <= i < cs.len() - 1 ==> !mergeable(#[trigger] cs[i], cs[i + 1])
}

/// The last `n` entries of `s` (all of them when there are fewer).
pub open spec fn last_n(s: Seq<CommandView>, n: nat) -> Seq<CommandView> {
    if s.len() > n {
        s.subrange(s.len() - n, s.len() as int)
    } else {
        s
    }
}

proof fn lemma_executed_all(h: HistoryView, cs: Seq<CommandView>)
    requires
        h.capacity >= 1,
        h.undo.len() <= h.capacity,
        none_mergeable(cs),
        cs.len() > 0 && h.undo.len() > 0 ==> !mergeable(h.undo.last(), cs[0]),
    ensures
        executed_all(h, cs).undo == last_n(h.undo + cs, h.capacity),
        executed_all(h, cs).capacity == h.capacity,
    decreases cs.len(),
{
    if cs.len() == 0 {
        assert(h.undo + cs =~= h.undo);
    } else {
        let h1 = h.executed(cs[0]);
        let rest = cs.drop_first();
        assert(h1.undo == bounded_push(h.undo, cs[0], h.capacity));
        assert(h1.undo.len() > 0 && h1.undo.last() == cs[0]);
        assert forall|i: int| 0 <= i < rest.len() - 1 implies !mergeable(#[trigger] rest[i], rest[i + 1]) by {
            assert(rest[i] == cs[i + 1]);
            assert(rest[i + 1] == cs[i + 2]);
        }
        if rest.len() > 0 {
            assert(cs[1] == rest[0]);
        }
        lemma_executed_all(h1, rest);
        let p = h.undo.push(cs[0]);
        assert(h.undo + cs =~= p + rest);
        if p.len() > h.capacity {
            assert(last_n(p.drop_first() + rest, h.capacity) =~= last_n(p + rest, h.capacity));
        }
    }
}

/// Executing `capacity + 1` commands, none of which folds into the one before
/// it, on empty stacks leaves exactly `capacity` undo entries: all but the
/// first command, which can no longer be undone.
pub proof fn law_history_bound(capacity: nat, cs: Seq<CommandView>)
    requires
        capacity >= 1,
        cs.len() == capacity + 1,
        none_mergeable(cs),
    ensures
        executed_all(
            HistoryView { undo: Seq::empty(), redo: Seq::empty(), capacity },
            cs,
        ).undo.len() == capacity,
        executed_all(
            HistoryView { undo: Seq::empty(), redo: Seq::empty(), capacity },
            cs,
        ).undo == cs.subrange(1, cs.len() as int),
{
    let h = HistoryView { undo: Seq::empty(), redo: Seq::empty(), capacity };
    lemma_executed_all(h, cs);
    assert(h.undo + cs =~= cs);
}

/// Two moves of one atom, from `start` to `mid` and then from `mid` to
/// `finish`, leave one new undo entry, from `start` to `finish`, and undoing
/// it puts the atom back at `start`. (When the top entry already moves that
/// atom, the first move folds into it as well.)
pub proof fn law_move_coalescing(
    h: HistoryView,
    m: MoleculeView,
    a: u64,
    start: [u32; 3],
    mid: [u32; 3],
    finish: [u32; 3],
)
    requires
        h.wf(),
        m.wf(),
        m.atoms.contains_key(a),
        h.undo.len() > 0 ==> !mergeable(
            h.undo.last(),
            CommandView::MoveAtom { atom_id: a, from: start, to: mid },
        ),
    ensures
        ({
            let c1 = CommandView::MoveAtom { atom_id: a, from: start, to: mid };
            let c2 = CommandView::MoveAtom { atom_id: a, from: mid, to: finish };
            let m1 = m.with_position(a, mid);
            let m2 = m1.with_position(a, finish);
            let h2 = h.executed(c1).executed(c2);
            &&& apply_outcome(c1, m) == Ok::<MoleculeView, Seq<char>>(m1)
            &&& applied(c1, m, c1)
            &&& apply_outcome(c2, m1) == Ok::<MoleculeView, Seq<char>>(m2)
            &&& applied(c2, m1, c2)
            &&& h2.undo == bounded_push(
                h.undo,
                CommandView::MoveAtom { atom_id: a, from: start, to: finish },
                h.capacity,
            )
            &&& undo_outcome(h2.undo.last(), m2).1 is None
            &&& undo_outcome(h2.undo.last(), m2).0.atoms[a].position == start
        }),
{
    let c1 = CommandView::MoveAtom { atom_id: a, from: start, to: mid };
    let c2 = CommandView::MoveAtom { atom_id: a, from: mid, to: finish };
    let h1 = h.executed(c1);
    assert(h1.undo == bounded_push(h.undo, c1, h.capacity));
    assert(h1.undo.last() == c1);
    let h2 = h1.executed(c2);
    assert(mergeable(h1.undo.last(), c2));
    assert(merged(c1, c2) == CommandView::MoveAtom { atom_id: a, from: start, to: finish });
    let p = h.undo.push(c1);
    let q = h.undo.push(CommandView::MoveAtom { atom_id: a, from: start, to: finish });
    if p.len() > h.capacity {
        assert(h2.undo =~= q.drop_first());
    } else {
        assert(h2.undo =~= q);
    }
}

/// Deleting atom `x` takes away exactly the bonds that touch it, and every
/// other atom loses one unit of occupancy if it was bonded to `x`, none
/// otherwise. Undoing the deletion from its record `rm` brings every one of
/// those bonds back under its own id and endpoints.
pub proof fn law_cascade_delete(m: MoleculeView, x: u64, rm: RemovedAtomView)
    requires
        m.wf(),
        m.removal(x, rm),
    ensures
        undo_outcome(
            CommandView::DeleteAtom { atom_id: x, removed: Some(rm) },
            m.without_atom(x),
        ).1 is None,
        undo_outcome(
            CommandView::DeleteAtom { atom_id: x, removed: Some(rm) },
            m.without_atom(x),
        ).0.bonds == m.bonds,
        forall|j: u64| #[trigger]
            m.without_atom(x).bonds.contains_key(j) <==> m.bonds.contains_key(j) && !touches(
                m.bonds[j],
                x,
            ),
        forall|k: u64| #[trigger]
            m.without_atom(x).atoms.contains_key(k) ==> m.without_atom(x).occupancy[k] + if m.has_bond(
                k,
                x,
            ) {
                1nat
            } else {
                0nat
            } == m.occupancy[k],
{
    let m2 = m.without_atom(x);
    law_round_trip(
        CommandView::DeleteAtom { atom_id: x, removed: None },
        m,
        m2,
        CommandView::DeleteAtom { atom_id: x, removed: Some(rm) },
    );
    assert forall|k: u64| #[trigger] m2.atoms.contains_key(k) implies m2.occupancy[k] + if m.has_bond(
        k,
        x,
    ) {
        1nat
    } else {
        0nat
    } == m.occupancy[k] by {
        m.bonds.dom().lemma_len_filter(|j: u64| touches(m.bonds[j], k));
        if m.has_bond(k, x) {
            let j = choose|j: u64| #[trigger] m.bonds.contains_key(j) && joins(m.bonds[j], k, x);
            assert forall|i: u64| incident(m2.bonds, k).contains(i) <==> #[trigger] incident(
                m.bonds,
                k,
            ).remove(j).contains(i) by {
                if m.bonds.contains_key(i) && touches(m.bonds[i], k) && touches(m.bonds[i], x) {
                    assert(joins(m.bonds[i], m.bonds[j].a, m.bonds[j].b));
                }
            }
            assert(incident(m2.bonds, k) =~= incident(m.bonds, k).remove(j));
        } else {
            assert forall|i: u64| incident(m2.bonds, k).contains(i) <==> #[trigger] incident(
                m.bonds,
                k,
            ).contains(i) by {
                if m.bonds.contains_key(i) && touches(m.bonds[i], k) && touches(m.bonds[i], x) {
                    assert(joins(m.bonds[i], k, x));
                }
            }
            assert(incident(m2.bonds, k) =~= incident(m.bonds, k));
        }
    }
}

/// Adds a bond from `x` to each of `ps` in turn, stopping at the first
/// refusal: the state reached, the number of bonds added, and the refusal.
pub open spec fn bond_chain(m: MoleculeView, x: u64, ps: Seq<u64>) -> (MoleculeView, nat, Option<
    Seq<char>,
>)
    decreases ps.len(),
{
    if ps.len() == 0 {
        (m, 0, None)
    } else {
        match m.add_bond_outcome(x, ps[0]) {
            Ok(m2) => {
                let r = bond_chain(m2, x, ps.drop_first());
                (r.0, r.1 + 1, r.2)
            },
            Err(e) => (m, 0, Some(e)),
        }
    }
}

/// The partners `ps` are distinct atoms other than `x`, each with room for
/// a bond and none bonded to `x` yet.
pub open spec fn fresh_partners(m: MoleculeView, x: u64, ps: Seq<u64>) -> bool {
    &&& ps.no_duplicates()
    &&& forall|i: int|
        0 <= i < ps.len() ==> {
            &&& #[trigger] ps[i] != x
            &&& m.atoms.contains_key(ps[i])
            &&& m.occupancy[ps[i]] < crate::element::max_valence_of(m.atoms[ps[i]].element)
            &&& !m.has_bond(x, ps[i])
        }
}

proof fn lemma_bond_chain(m: MoleculeView, x: u64, ps: Seq<u64>)
    requires
        m.wf(),
        m.atoms.contains_key(x),
        m.occupancy[x] + ps.len() == crate::element::max_valence_of(m.atoms[x].element) + 1,
        fresh_partners(m, x, ps),
        m.next_bond + ps.len() < u64::MAX,
    ensures
        bond_chain(m, x, ps).1 + 1 == ps.len(),
        bond_chain(m, x, ps).2 == Some(
            crate::molecule::valence_message(
                m.atoms[x].element,
                crate::element::max_valence_of(m.atoms[x].element),
            ),
        ),
        bond_chain(m, x, ps).0.occupancy[x] == crate::element::max_valence_of(m.atoms[x].element),
        bond_chain(m, x, ps).0.atoms == m.atoms,
    decreases ps.len(),
{
    let k = crate::element::max_valence_of(m.atoms[x].element);
    assert(m.occupancy.contains_key(x));
    if ps.len() == 1 {
        assert(!m.has_bond(x, ps[0]));
        assert(m.bond_error(x, ps[0]) == Some(crate::molecule::valence_message(m.atoms[x].element, k)));
    } else {
        let p = ps[0];
        assert(m.bond_error(x, p) is None);
        assert(m.insert_bond_error(m.next_bond, x, p) is None);
        crate::molecule::lemma_with_bond_wf(m, m.next_bond, x, p);
        let m2 = m.with_bond(m.next_bond, x, p);
        let rest = ps.drop_first();
        assert forall|i: int| 0 <= i < rest.len() implies {
            &&& #[trigger] rest[i] != x
            &&& m2.atoms.contains_key(rest[i])
            &&& m2.occupancy[rest[i]] < crate::element::max_valence_of(m2.atoms[rest[i]].element)
            &&& !m2.has_bond(x, rest[i])
        } by {
            assert(rest[i] == ps[i + 1]);
            assert(ps[i + 1] != ps[0]);
            if m2.has_bond(x, rest[i]) {
                let j = choose|j: u64| #[trigger] m2.bonds.contains_key(j) && joins(m2.bonds[j], x, rest[i]);
                if j != m.next_bond {
                    assert(m.bonds.contains_key(j) && joins(m.bonds[j], x, ps[i + 1]));
                }
            }
        }
        assert(rest.no_duplicates()) by {
            assert forall|i: int, j: int| 0 <= i < rest.len() && 0 <= j < rest.len() && i != j
                implies rest[i] != rest[j] by {
                assert(rest[i] == ps[i + 1] && rest[j] == ps[j + 1]);
            }
        }
        lemma_bond_chain(m2, x, rest);
    }
}

/// With K the valence capacity of atom `x`'s element and `x` unbonded, adding
/// bonds from `x` to K + 1 fresh partners succeeds K times; the last is
/// refused for valence, and `x` ends with occupancy K.
pub proof fn law_valence_bound(m: MoleculeView, x: u64, ps: Seq<u64>)
    requires
        m.wf(),
        m.atoms.contains_key(x),
        m.occupancy[x] == 0,
        ps.len() == crate::element::max_valence_of(m.atoms[x].element) + 1,
        fresh_partners(m, x, ps),
        m.next_bond + ps.len() < u64::MAX,
    ensures
        bond_chain(m, x, ps).1 == crate::element::max_valence_of(m.atoms[x].element),
        bond_chain(m, x, ps).2 == Some(
            crate::molecule::valence_message(
                m.atoms[x].element,
                crate::element::max_valence_of(m.atoms[x].element),
            ),
        ),
        bond_chain(m, x, ps).0.occupancy[x] == crate::element::max_valence_of(m.atoms[x].element),
{
    lemma_bond_chain(m, x, ps);
}

/// A sub-map of `full` that lacks bond `j`, which touches `k`, has fewer
/// bonds touching `k`.
proof fn lemma_incident_smaller(
    sub: Map<u64, BondView>,
    full: Map<u64, BondView>,
    j: u64,
    k: u64,
)
    requires
        full.dom().finite(),
        forall|i: u64| #[trigger] sub.contains_key(i) ==> full.contains_key(i) && sub[i] == full[i],
        full.contains_key(j),
        !sub.contains_key(j),
        touches(full[j], k),
    ensures
        incident(sub, k).len() < incident(full, k).len(),
{
    full.dom().lemma_len_filter(|i: u64| touches(full[i], k));
    assert(incident(sub, k).subset_of(incident(full, k).remove(j)));
    vstd::set_lib::lemma_len_subset(incident(sub, k), incident(full, k).remove(j));
}

/// An atom that is not in a well-formed molecule has no bonds.
proof fn lemma_absent_untouched(m: MoleculeView, id: u64)
    requires
        m.wf(),
        !m.atoms.contains_key(id),
    ensures
        incident(m.bonds, id) == Set::<u64>::empty(),
        m.bonds.remove_keys(incident(m.bonds, id)) == m.bonds,
{
    assert(incident(m.bonds, id) =~= Set::<u64>::empty());
    assert(m.bonds.remove_keys(Set::<u64>::empty()) =~= m.bonds);
}

/// Re-adding bonds of `m` that `cur` lacks, under their own ids, brings back
/// exactly the bonds of `m`.
proof fn lemma_restore(m: MoleculeView, cur: MoleculeView, rest: Seq<BondView>)
    requires
        m.wf(),
        cur.atoms == m.atoms,
        cur.occupancy == occupancy_of(cur.atoms.dom(), cur.bonds),
        forall|j: u64| #[trigger]
            cur.bonds.contains_key(j) ==> m.bonds.contains_key(j) && cur.bonds[j] == m.bonds[j],
        forall|j: u64| #[trigger]
            m.bonds.contains_key(j) && !cur.bonds.contains_key(j) ==> exists|t: int|
                0 <= t < rest.len() && rest[t].id == j,
        forall|t: int|
            0 <= t < rest.len() ==> m.bonds.contains_key(#[trigger] rest[t].id) && m.bonds[rest[t].id]
                == rest[t] && !cur.bonds.contains_key(rest[t].id),
        forall|t: int, u: int|
            0 <= t < rest.len() && 0 <= u < rest.len() && t != u ==> #[trigger] rest[t].id
                != #[trigger] rest[u].id,
    ensures
        restore_bonds(cur, rest).1 is None,
        restore_bonds(cur, rest).0.atoms == m.atoms,
        restore_bonds(cur, rest).0.bonds == m.bonds,
        restore_bonds(cur, rest).0.order == cur.order,
        restore_bonds(cur, rest).0.occupancy == m.occupancy,
    decreases rest.len(),
{
    if rest.len() == 0 {
        assert(cur.bonds =~= m.bonds);
    } else {
        let b = rest[0];
        assert(m.bonds.contains_key(b.id));
        assert(!cur.has_bond(b.a, b.b)) by {
            if cur.has_bond(b.a, b.b) {
                let j = choose|j: u64| #[trigger] cur.bonds.contains_key(j) && joins(cur.bonds[j], b.a, b.b);
                assert(m.bonds.contains_key(j) && joins(m.bonds[j], m.bonds[b.id].a, m.bonds[b.id].b));
            }
        }
        lemma_incident_smaller(cur.bonds, m.bonds, b.id, b.a);
        lemma_incident_smaller(cur.bonds, m.bonds, b.id, b.b);
        assert(cur.occupancy[b.a] == incident(cur.bonds, b.a).len());
        assert(cur.occupancy[b.b] == incident(cur.bonds, b.b).len());
        assert(cur.insert_bond_error(b.id, b.a, b.b) is None);
        let next = cur.with_bond(b.id, b.a, b.b);
        let more = rest.drop_first();
        assert(BondView { id: b.id, a: b.a, b: b.b } == b);
        assert forall|j: u64| #[trigger]
            m.bonds.contains_key(j) && !next.bonds.contains_key(j) implies exists|t: int|
            0 <= t < more.len() && more[t].id == j by {
            let t = choose|t: int| 0 <= t < rest.len() && rest[t].id == j;
            assert(t != 0);
            assert(more[t - 1] == rest[t]);
        }
        assert forall|t: int| 0 <= t < more.len() implies m.bonds.contains_key(#[trigger] more[t].id)
            && m.bonds[more[t].id] == more[t] && !next.bonds.contains_key(more[t].id) by {
            assert(more[t] == rest[t + 1]);
        }
        assert forall|t: int, u: int|
            0 <= t < more.len() && 0 <= u < more.len() && t != u implies #[trigger] more[t].id
            != #[trigger] more[u].id by {
            assert(more[t] == rest[t + 1] && more[u] == rest[u + 1]);
        }
        lemma_restore(m, next, more);
    }
}

/// Undoing a command right after applying it restores the atoms (with their
/// positions), the bonds, the order and the occupancy. A move is undone to
/// the origin it records, so that origin must be where the atom stood.
pub proof fn law_round_trip(c: CommandView, m: MoleculeView, m2: MoleculeView, c2: CommandView)
    requires
        m.wf(),
        apply_outcome(c, m) == Ok::<MoleculeView, Seq<char>>(m2),
        applied(c, m, c2),
        c matches CommandView::MoveAtom { atom_id, from, .. } ==> m.atoms[atom_id].position == from,
    ensures
        undo_outcome(c2, m2).1 is None,
        undo_outcome(c2, m2).0.atoms == m.atoms,
        undo_outcome(c2, m2).0.bonds == m.bonds,
        undo_outcome(c2, m2).0.order == m.order,
        undo_outcome(c2, m2).0.occupancy == m.occupancy,
{
    match c {
        CommandView::InsertAtom { element, position, atom_id, order_index } => {
            let r = match atom_id {
                Some(id) => id,
                None => m.next_atom,
            };
            let index = insert_index(order_index, m) as int;
            assert(!m.atoms.contains_key(r));
            assert(m2 == m.with_atom(r, element, position, index));
            let at = if index < m.order.len() {
                index
            } else {
                m.order.len() as int
            };
            lemma_absent_untouched(m, r);
            assert(!m.order.contains(r));
            m.order.insert_ensures(at, r);
            assert(m2.order.contains(r)) by {
                assert(m2.order[at] == r);
            }
            let x = m2.order.index_of(r);
            assert(x == at) by {
                if x < at {
                    assert(m2.order[x] == m.order[x]);
                } else if x > at {
                    assert(m2.order[x] == m.order[x - 1]);
                }
            }
            let w = m2.without_atom(r);
            assert(w.atoms =~= m.atoms);
            assert(w.order =~= m.order);
            assert(w.bonds == m.bonds);
            assert(w.atoms.dom() =~= m.atoms.dom());
        },
        CommandView::DeleteAtom { atom_id, .. } => {
            let x = atom_id;
            let rm = match c2 {
                CommandView::DeleteAtom { removed: Some(rm), .. } => rm,
                _ => arbitrary(),
            };
            assert(m.removal(x, rm));
            assert(m2 == m.without_atom(x));
            assert(rm.atom.id == x);
            let i = m.order.index_of(x);
            assert(m.order.contains(x));
            assert(i == rm.order_index as int);
            let m3 = m2.with_atom(x, rm.atom.element, rm.atom.position, rm.order_index as int);
            m.order.remove_ensures(i);
            assert(m3.atoms =~= m.atoms);
            assert(m3.order =~= m.order);
            assert forall|j: u64| #[trigger] m3.bonds.contains_key(j) implies m.bonds.contains_key(j)
                && m3.bonds[j] == m.bonds[j] by {}
            assert forall|j: u64| #[trigger]
                m.bonds.contains_key(j) && !m3.bonds.contains_key(j) implies exists|t: int|
                0 <= t < rm.bonds.len() && rm.bonds[t].id == j by {
                assert(incident(m.bonds, x).contains(j));
            }
            assert forall|t: int| 0 <= t < rm.bonds.len() implies m.bonds.contains_key(
                #[trigger] rm.bonds[t].id,
            ) && m.bonds[rm.bonds[t].id] == rm.bonds[t] && !m3.bonds.contains_key(rm.bonds[t].id) by {
                assert(incident(m.bonds, x).contains(rm.bonds[t].id));
            }
            lemma_restore(m, m3, rm.bonds);
        },
        CommandView::AddBond { atom_a, atom_b, bond_id } => {
            let r = match bond_id {
                Some(id) => id,
                None => m.next_bond,
            };
            assert(!m.bonds.contains_key(r));
            assert(m2 == m.with_bond(r, atom_a, atom_b));
            let w = m2.without_bond(r);
            assert(w.bonds =~= m.bonds);
        },
        CommandView::RemoveBond { bond_id, .. } => {
            let j = bond_id;
            let b = m.bonds[j];
            assert(m2 == m.without_bond(j));
            assert(!m2.has_bond(b.a, b.b)) by {
                if m2.has_bond(b.a, b.b) {
                    let i = choose|i: u64| #[trigger] m2.bonds.contains_key(i) && joins(m2.bonds[i], b.a, b.b);
                    assert(m.bonds.contains_key(i) && joins(m.bonds[i], m.bonds[j].a, m.bonds[j].b));
                }
            }
            lemma_incident_smaller(m2.bonds, m.bonds, j, b.a);
            lemma_incident_smaller(m2.bonds, m.bonds, j, b.b);
            assert(m2.occupancy[b.a] == incident(m2.bonds, b.a).len());
            assert(m2.occupancy[b.b] == incident(m2.bonds, b.b).len());
            assert(m2.insert_bond_error(b.id, b.a, b.b) is None);
            let w = m2.with_bond(j, b.a, b.b);
            assert(BondView { id: j, a: b.a, b: b.b } == b);
            assert(w.bonds =~= m.bonds);
        },
        CommandView::MoveAtom { atom_id, from, to } => {
            let w = m2.with_position(atom_id, from);
            assert(w.atoms =~= m.atoms);
        },
    }
}

} // verus!
