//! A molecular document model with a reversible edit engine: a graph of
//! atoms and bonds that keeps referential integrity and valence limits
//! (`molecule`), commands that record what they need to be undone
//! (`command`), bounded undo/redo stacks (`history`), and a reader for the
//! xyz text format (`xyz`). The laws that tie these together are proved in
//! `laws`.

pub mod command;
pub mod element;
pub mod history;
pub mod laws;
pub mod molecule;
pub mod text;
pub mod xyz;

pub use command::Command;
pub use element::{element_shade, max_valence, Shade};
pub use history::CommandHistory;
pub use molecule::{Atom, AtomId, Bond, BondId, Molecule, RemovedAtom};
pub use xyz::{assemble_xyz, scan_xyz, XyzError, XyzScan};

use vstd::prelude::*;

verus! {

} // verus!
