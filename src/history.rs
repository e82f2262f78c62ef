use vstd::prelude::*;

use crate::command::{
    Command, CommandView, apply_outcome, applied, merged, mergeable, undo_outcome,
};
use crate::molecule::{Molecule, MoleculeView};

verus! {

/// `s` with `c` pushed on, dropping the oldest entry when that exceeds `capacity`.
pub open spec fn bounded_push(s: Seq<CommandView>, c: CommandView, capacity: nat) -> Seq<
    CommandView,
> {
    let p = s.push(c);
    if p.len() > capacity {
        p.drop_first()
    } else {
        p
    }
}

/// The undo and redo stacks as the contracts see them, top last.
pub struct HistoryView {
    pub undo: Seq<CommandView>,
    pub redo: Seq<CommandView>,
    pub capacity: nat,
}

impl HistoryView {
    /// The stacks stay within the capacity, which is at least one.
    pub open spec fn wf(self) -> bool {
        &&& self.capacity >= 1
        &&& self.undo.len() + self.redo.len() <= self.capacity
    }

    /// The stacks after applied command `c` was executed: the redo stack is
    /// cleared, and `c` is folded into the top entry when it can be, else
    /// pushed with the oldest entry dropped beyond capacity.
    pub open spec fn executed(self, c: CommandView) -> HistoryView {
        HistoryView {
            undo: if self.undo.len() > 0 && mergeable(self.undo.last(), c) {
                self.undo.update(self.undo.len() - 1, merged(self.undo.last(), c))
            } else {
                bounded_push(self.undo, c, self.capacity)
            },
            redo: Seq::empty(),
            capacity: self.capacity,
        }
    }
}

/// Bounded undo/redo stacks of commands applied to a molecule.
#[derive(Debug, Clone)]
pub struct CommandHistory {
    undo: Vec<Command>,
    redo: Vec<Command>,
    capacity: usize,
}

impl View for CommandHistory {
    type V = HistoryView;

    closed spec fn view(&self) -> HistoryView {
        HistoryView {
            undo: self.undo@.map_values(|c: Command| c@),
            redo: self.redo@.map_values(|c: Command| c@),
            capacity: self.capacity as nat,
        }
    }
}

impl CommandHistory {
    /// Empty stacks holding at most `capacity` undo entries (at least one).
    pub fn new(capacity: usize) -> (r: CommandHistory)
        ensures
            r@ == (HistoryView {
                undo: Seq::empty(),
                redo: Seq::empty(),
                capacity: if capacity < 1 {
                    1
                } else {
                    capacity as nat
                },
            }),
            r@.wf(),
    {
        let r = CommandHistory {
            undo: Vec::new(),
            redo: Vec::new(),
            capacity: if capacity < 1 {
                1
            } else {
                capacity
            },
        };
        assert(r@.undo =~= Seq::empty());
        assert(r@.redo =~= Seq::empty());
        r
    }

    /// Applies `command` and records it. A refused command changes neither the
    /// stacks nor the molecule. Returns the entry as recorded, from which
    /// resolved ids can be read.
    pub fn execute(&mut self, command: Command, molecule: &mut Molecule) -> (r: Result<
        Command,
        String,
    >)
        requires
            old(self)@.wf(),
            old(molecule)@.wf(),
        ensures
            final(self)@.wf(),
            final(molecule)@.wf(),
            match r {
                Ok(rc) => apply_outcome(command@, old(molecule)@) == Ok::<MoleculeView, Seq<char>>(
                    final(molecule)@,
                ) && (exists|c2: CommandView|
                    applied(command@, old(molecule)@, c2) && final(self)@ == old(self)@.executed(
                        c2,
                    )) && rc@ == final(self)@.undo.last(),
                Err(e) => apply_outcome(command@, old(molecule)@) == Err::<MoleculeView, Seq<char>>(
                    e@,
                ) && final(molecule)@ == old(molecule)@ && final(self)@ == old(self)@,
            },
    {
        let mut command = command;
        match command.apply(molecule) {
            Err(e) => return Err(e),
            Ok(()) => {},
        }
        let ghost c2 = command@;
        let ghost o = self@;
        self.redo.clear();
        let n = self.undo.len();
        if n > 0 {
            let mut last = self.undo.pop().unwrap();
            assert(last@ == o.undo.last());
            if last.merge_with(&command) {
                let out = last.duplicate();
                self.undo.push(last);
                proof {
                    assert(self@.undo =~= o.undo.update(o.undo.len() - 1, merged(o.undo.last(), c2)));
                    assert(self@.redo =~= Seq::<CommandView>::empty());
                    assert(self@ == o.executed(c2));
                }
                return Ok(out);
            }
            self.undo.push(last);
            assert(self@.undo =~= o.undo);
        }
        let out = command.duplicate();
        self.undo.push(command);
        if self.undo.len() > self.capacity {
            self.undo.remove(0);
        }
        proof {
            let p = o.undo.push(c2);
            if p.len() > o.capacity {
                assert(self@.undo =~= p.drop_first());
            } else {
                assert(self@.undo =~= p);
            }
            assert(self@.redo =~= Seq::<CommandView>::empty());
            assert(self@ == o.executed(c2));
        }
        Ok(out)
    }

    /// Reverts the most recent entry and moves it to the redo stack; `Ok(None)`
    /// when there is nothing to undo. An entry whose undo is refused is dropped
    /// from the history.
    pub fn undo(&mut self, molecule: &mut Molecule) -> (r: Result<Option<Command>, String>)
        requires
            old(self)@.wf(),
            old(molecule)@.wf(),
        ensures
            final(self)@.wf(),
            final(molecule)@.wf(),
            final(self)@.capacity == old(self)@.capacity,
            old(self)@.undo.len() == 0 ==> r == Ok::<Option<Command>, String>(None) && final(self)@
                == old(self)@ && final(molecule)@ == old(molecule)@,
            old(self)@.undo.len() > 0 ==> {
                let c = old(self)@.undo.last();
                let (m2, err) = undo_outcome(c, old(molecule)@);
                &&& final(molecule)@ == m2
                &&& final(self)@.undo == old(self)@.undo.drop_last()
                &&& match r {
                    Ok(Some(rc)) => err is None && rc@ == c && final(self)@.redo == old(
                        self,
                    )@.redo.push(c),
                    Err(e) => err == Some(e@) && final(self)@.redo == old(self)@.redo,
                    Ok(None) => false,
                }
            },
    {
        let ghost o = self@;
        match self.undo.pop() {
            None => Ok(None),
            Some(mut command) => {
                assert(command@ == o.undo.last());
                assert(self@.undo =~= o.undo.drop_last());
                match command.undo(molecule) {
                    Err(e) => Err(e),
                    Ok(()) => {
                        let out = command.duplicate();
                        self.redo.push(command);
                        assert(self@.redo =~= o.redo.push(o.undo.last()));
                        Ok(Some(out))
                    },
                }
            },
        }
    }

    /// Re-applies the most recently undone entry and moves it back to the undo
    /// stack; `Ok(None)` when there is nothing to redo. An entry whose re-apply
    /// is refused is dropped from the history.
    pub fn redo(&mut self, molecule: &mut Molecule) -> (r: Result<Option<Command>, String>)
        requires
            old(self)@.wf(),
            old(molecule)@.wf(),
        ensures
            final(self)@.wf(),
            final(molecule)@.wf(),
            final(self)@.capacity == old(self)@.capacity,
            old(self)@.redo.len() == 0 ==> r == Ok::<Option<Command>, String>(None) && final(self)@
                == old(self)@ && final(molecule)@ == old(molecule)@,
            old(self)@.redo.len() > 0 ==> {
                let c = old(self)@.redo.last();
                &&& final(self)@.redo == old(self)@.redo.drop_last()
                &&& match r {
                    Ok(Some(rc)) => apply_outcome(c, old(molecule)@) == Ok::<MoleculeView, Seq<char>>(
                        final(molecule)@,
                    ) && applied(c, old(molecule)@, rc@) && final(self)@.undo == old(self)@.undo.push(
                        rc@,
                    ),
                    Err(e) => apply_outcome(c, old(molecule)@) == Err::<MoleculeView, Seq<char>>(e@)
                        && final(molecule)@ == old(molecule)@ && final(self)@.undo == old(self)@.undo,
                    Ok(None) => false,
                }
            },
    {
        let ghost o = self@;
        match self.redo.pop() {
            None => Ok(None),
            Some(mut command) => {
                assert(command@ == o.redo.last());
                assert(self@.redo =~= o.redo.drop_last());
                match command.apply(molecule) {
                    Err(e) => Err(e),
                    Ok(()) => {
                        let out = command.duplicate();
                        self.undo.push(command);
                        assert(self@.undo =~= o.undo.push(out@));
                        Ok(Some(out))
                    },
                }
            },
        }
    }

    /// Whether there is an entry to undo.
    pub fn can_undo(&self) -> (r: bool)
        ensures
            r == (self@.undo.len() > 0),
    {
        !self.undo.is_empty()
    }

    /// Whether there is an entry to redo.
    pub fn can_redo(&self) -> (r: bool)
        ensures
            r == (self@.redo.len() > 0),
    {
        !self.redo.is_empty()
    }
}

} // verus!
