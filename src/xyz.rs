use vstd::prelude::*;

use crate::molecule::{Molecule, MoleculeView};
use crate::text::{
    chars_of, decimal, lines, parse_unsigned, parse_unsigned_at, push_decimal, split_lines,
    split_words, string_of, trim, trim_bounds, words,
};
use vstd::string::StringExecFns;

verus! {

/// A refusal of the xyz reader, with a human-readable message.
#[derive(Debug, Clone)]
pub struct XyzError {
    details: String,
}

impl View for XyzError {
    type V = Seq<char>;

    closed spec fn view(&self) -> Seq<char> {
        self.details@
    }
}

impl XyzError {
    pub fn new(details: String) -> (r: XyzError)
        ensures
            r@ == details@,
    {
        XyzError { details }
    }

    /// The message.
    pub fn to_string(&self) -> (r: String)
        ensures
            r@ == self@,
    {
        self.details.clone()
    }
}

/// The text of an xyz document split up: the declared atom count, the
/// molecule's name, and the words of each data line read (at most the
/// declared count of them).
#[derive(Debug, Clone)]
pub struct XyzScan {
    pub name: String,
    pub atom_count: usize,
    pub lines: Vec<Vec<String>>,
}

pub struct XyzScanView {
    pub name: Seq<char>,
    pub atom_count: nat,
    pub lines: Seq<Seq<Seq<char>>>,
}

impl View for XyzScan {
    type V = XyzScanView;

    open spec fn view(&self) -> XyzScanView {
        XyzScanView {
            name: self.name@,
            atom_count: self.atom_count as nat,
            lines: self.lines@.map_values(|l: Vec<String>| l@.map_values(|w: String| w@)),
        }
    }
}

/// `what` tagged with line number `n`.
pub open spec fn at_line(what: Seq<char>, n: nat) -> Seq<char> {
    what + " at line "@ + decimal(n)
}

/// How the reader splits `s`, or why it refuses it: the first line is the
/// atom count, the second the name, and each following line, up to the
/// count, an atom.
pub open spec fn scan_outcome(s: Seq<char>) -> Result<XyzScanView, Seq<char>> {
    let ls = lines(s);
    if ls.len() == 0 {
        Err("missing atom count"@)
    } else {
        match parse_unsigned(trim(ls[0])) {
            None => Err("invalid atom count"@),
            Some(n) => if ls.len() < 2 {
                Err("missing comment line"@)
            } else {
                let k = if n < ls.len() - 2 {
                    n
                } else {
                    (ls.len() - 2) as nat
                };
                Ok(
                    XyzScanView {
                        name: trim(ls[1]),
                        atom_count: n,
                        lines: ls.subrange(2, 2 + k as int).map_values(|l: Seq<char>| words(l)),
                    },
                )
            },
        }
    }
}

/// The coordinate value given for word `j` of data line `i`, if any.
pub open spec fn value_at(values: Seq<Seq<Option<u32>>>, i: int, j: int) -> Option<u32> {
    if 0 <= i < values.len() && 0 <= j < values[i].len() {
        values[i][j]
    } else {
        None
    }
}

/// Why data line `i`, with words `w`, is refused, if it is. Lines are
/// numbered from 1, so data line `i` is line `i + 3`.
pub open spec fn line_error(w: Seq<Seq<char>>, values: Seq<Seq<Option<u32>>>, i: int) -> Option<
    Seq<char>,
> {
    let n = (i + 3) as nat;
    if w.len() < 1 {
        Some(at_line("missing element"@, n))
    } else if w.len() < 2 {
        Some(at_line("missing x"@, n))
    } else if value_at(values, i, 1) is None {
        Some(at_line("invalid x"@, n))
    } else if w.len() < 3 {
        Some(at_line("missing y"@, n))
    } else if value_at(values, i, 2) is None {
        Some(at_line("invalid y"@, n))
    } else if w.len() < 4 {
        Some(at_line("missing z"@, n))
    } else if value_at(values, i, 3) is None {
        Some(at_line("invalid z"@, n))
    } else {
        None
    }
}

pub open spec fn position_at(values: Seq<Seq<Option<u32>>>, i: int) -> [u32; 3] {
    [value_at(values, i, 1)->0, value_at(values, i, 2)->0, value_at(values, i, 3)->0]
}

/// The molecule after the first `k` data lines, or the first refusal.
pub open spec fn atoms_of(scan: XyzScanView, values: Seq<Seq<Option<u32>>>, k: nat) -> Result<
    MoleculeView,
    Seq<char>,
>
    decreases k,
{
    if k == 0 {
        Ok(
            MoleculeView {
                name: scan.name,
                atoms: Map::empty(),
                order: Seq::empty(),
                bonds: Map::empty(),
                occupancy: Map::empty(),
                next_atom: 1,
                next_bond: 1,
            },
        )
    } else {
        match atoms_of(scan, values, (k - 1) as nat) {
            Err(e) => Err(e),
            Ok(m) => match line_error(scan.lines[k - 1], values, k - 1) {
                Some(e) => Err(e),
                None => Ok(
                    m.with_atom(
                        m.next_atom,
                        scan.lines[k - 1][0],
                        position_at(values, k - 1),
                        m.order.len() as int,
                    ),
                ),
            },
        }
    }
}

/// The number of data lines read: at most the declared count.
pub open spec fn lines_read(scan: XyzScanView) -> nat {
    if scan.atom_count < scan.lines.len() {
        scan.atom_count
    } else {
        scan.lines.len()
    }
}

/// The molecule that `scan` describes, given the coordinate values, or why
/// it is refused.
pub open spec fn assemble_outcome(scan: XyzScanView, values: Seq<Seq<Option<u32>>>) -> Result<
    MoleculeView,
    Seq<char>,
> {
    match atoms_of(scan, values, lines_read(scan)) {
        Err(e) => Err(e),
        Ok(m) => if m.atoms.len() != scan.atom_count {
            Err("atom count does not match data lines"@)
        } else {
            Ok(m)
        },
    }
}

pub open spec fn values_view(values: &Vec<Vec<Option<u32>>>) -> Seq<Seq<Option<u32>>> {
    values@.map_values(|v: Vec<Option<u32>>| v@)
}

fn at_line_message(what: &str, n: usize) -> (r: String)
    ensures
        r@ == at_line(what@, n as nat),
{
    let mut s = what.to_string();
    s.append(" at line ");
    push_decimal(&mut s, n);
    s
}

fn strings_of(ws: &Vec<Vec<char>>) -> (r: Vec<String>)
    ensures
        r@.map_values(|w: String| w@) == ws@.map_values(|v: Vec<char>| v@),
{
    let mut r: Vec<String> = Vec::new();
    let mut i: usize = 0;
    while i < ws.len()
        invariant
            i <= ws.len(),
            r@.map_values(|w: String| w@) == ws@.subrange(0, i as int).map_values(
                |v: Vec<char>| v@,
            ),
        decreases ws.len() - i,
    {
        let w = string_of(&ws[i], 0, ws[i].len());
        assert(ws[i as int]@.subrange(0, ws[i as int].len() as int) =~= ws[i as int]@);
        let ghost before = r@.map_values(|w: String| w@);
        r.push(w);
        assert(r@.map_values(|w: String| w@) =~= before.push(ws[i as int]@));
        assert(ws@.subrange(0, i + 1).map_values(|v: Vec<char>| v@) =~= ws@.subrange(
            0,
            i as int,
        ).map_values(|v: Vec<char>| v@).push(ws[i as int]@));
        i = i + 1;
    }
    assert(ws@.subrange(0, ws.len() as int) =~= ws@);
    r
}

/// Splits an xyz document into its count, name and data lines; refuses a
/// document without a count line, with a count that is not a number, or
/// without a name line.
pub fn scan_xyz(contents: &str) -> (r: Result<XyzScan, XyzError>)
    ensures
        match r {
            Ok(sc) => scan_outcome(contents@) == Ok::<XyzScanView, Seq<char>>(sc@),
            Err(e) => scan_outcome(contents@) == Err::<XyzScanView, Seq<char>>(e@),
        },
{
    let chars = chars_of(contents);
    let ls = split_lines(&chars);
    let ghost lv = ls@.map_values(|v: Vec<char>| v@);
    assert(lv == lines(contents@));
    if ls.len() == 0 {
        return Err(XyzError::new("missing atom count".to_string()));
    }
    assert(lv[0] == ls[0]@);
    let (lo, hi) = trim_bounds(&ls[0]);
    let count = match parse_unsigned_at(&ls[0], lo, hi) {
        None => return Err(XyzError::new("invalid atom count".to_string())),
        Some(n) => n,
    };
    if ls.len() < 2 {
        return Err(XyzError::new("missing comment line".to_string()));
    }
    assert(lv[1] == ls[1]@);
    let (nlo, nhi) = trim_bounds(&ls[1]);
    let name = string_of(&ls[1], nlo, nhi);
    let available = ls.len() - 2;
    let k = if count < available {
        count
    } else {
        available
    };
    let mut data: Vec<Vec<String>> = Vec::new();
    let mut i: usize = 0;
    while i < k
        invariant
            i <= k <= available == ls.len() - 2,
            lv == ls@.map_values(|v: Vec<char>| v@),
            data@.map_values(|l: Vec<String>| l@.map_values(|w: String| w@)) == lv.subrange(
                2,
                2 + i,
            ).map_values(|l: Seq<char>| words(l)),
        decreases k - i,
    {
        let line = &ls[i + 2];
        assert(lv[i + 2] == line@);
        let ws = split_words(line, 0, line.len());
        assert(line@.subrange(0, line.len() as int) =~= line@);
        let strs = strings_of(&ws);
        let ghost before = data@.map_values(|l: Vec<String>| l@.map_values(|w: String| w@));
        let ghost sv = strs@.map_values(|w: String| w@);
        data.push(strs);
        assert(data@.map_values(|l: Vec<String>| l@.map_values(|w: String| w@)) =~= before.push(
            sv,
        ));
        assert(lv.subrange(2, 2 + i + 1).map_values(|l: Seq<char>| words(l)) =~= lv.subrange(
            2,
            2 + i,
        ).map_values(|l: Seq<char>| words(l)).push(words(lv[i + 2])));
        i = i + 1;
    }
    Ok(XyzScan { name, atom_count: count, lines: data })
}

fn value_of(values: &Vec<Vec<Option<u32>>>, i: usize, j: usize) -> (r: Option<u32>)
    ensures
        r == value_at(values_view(values), i as int, j as int),
{
    if i < values.len() && j < values[i].len() {
        values[i][j]
    } else {
        None
    }
}

/// Once a data line is refused, the reading stays refused.
proof fn lemma_atoms_of_stays_refused(
    scan: XyzScanView,
    values: Seq<Seq<Option<u32>>>,
    i: nat,
    k: nat,
)
    requires
        i <= k,
        atoms_of(scan, values, i) is Err,
    ensures
        atoms_of(scan, values, k) == atoms_of(scan, values, i),
    decreases k - i,
{
    if i < k {
        lemma_atoms_of_stays_refused(scan, values, i, (k - 1) as nat);
    }
}

/// The coordinates of data line `i` with words `w`, or why it is refused.
fn check_line(w: &Vec<String>, values: &Vec<Vec<Option<u32>>>, i: usize) -> (r: Result<
    [u32; 3],
    String,
>)
    requires
        i + 3 <= usize::MAX,
    ensures
        match r {
            Ok(p) => line_error(w@.map_values(|x: String| x@), values_view(values), i as int) is None
                && p == position_at(values_view(values), i as int),
            Err(e) => line_error(w@.map_values(|x: String| x@), values_view(values), i as int)
                == Some(e@),
        },
{
    let line = i + 3;
    if w.len() < 1 {
        return Err(at_line_message("missing element", line));
    }
    if w.len() < 2 {
        return Err(at_line_message("missing x", line));
    }
    let x = match value_of(values, i, 1) {
        None => return Err(at_line_message("invalid x", line)),
        Some(v) => v,
    };
    if w.len() < 3 {
        return Err(at_line_message("missing y", line));
    }
    let y = match value_of(values, i, 2) {
        None => return Err(at_line_message("invalid y", line)),
        Some(v) => v,
    };
    if w.len() < 4 {
        return Err(at_line_message("missing z", line));
    }
    let z = match value_of(values, i, 3) {
        None => return Err(at_line_message("invalid z", line)),
        Some(v) => v,
    };
    let p = [x, y, z];
    assert(p == position_at(values_view(values), i as int));
    Ok(p)
}

/// Builds the molecule that `scan` describes. `values[i][j]` is word `j` of
/// data line `i` read as a coordinate (the bit pattern of its single-precision
/// value), or `None` where that word is not a number. Atoms get ids from the
/// ordinary allocator, in file order. Refuses a data line that lacks a word or
/// has a coordinate that is not a number, naming its line, and refuses a
/// document with fewer atom lines than its count.
pub fn assemble_xyz(scan: &XyzScan, values: &Vec<Vec<Option<u32>>>) -> (r: Result<
    Molecule,
    XyzError,
>)
    requires
        scan.lines.len() + 3 <= usize::MAX,
    ensures
        match r {
            Ok(m) => assemble_outcome(scan@, values_view(values)) == Ok::<MoleculeView, Seq<char>>(
                m@,
            ) && m@.wf(),
            Err(e) => assemble_outcome(scan@, values_view(values)) == Err::<MoleculeView, Seq<char>>(
                e@,
            ),
        },
{
    let ghost vv = values_view(values);
    let mut molecule = Molecule::new(scan.name.as_str());
    let n = scan.lines.len();
    let k = if scan.atom_count < n {
        scan.atom_count
    } else {
        n
    };
    let mut i: usize = 0;
    assert(molecule@.atoms.len() == 0);
    while i < k
        invariant
            i <= k,
            k == lines_read(scan@),
            k <= n == scan.lines.len(),
            n + 3 <= usize::MAX,
            vv == values_view(values),
            molecule@.wf(),
            atoms_of(scan@, vv, i as nat) == Ok::<MoleculeView, Seq<char>>(molecule@),
            molecule@.next_atom == i + 1,
            molecule@.atoms.len() == i,
        decreases k - i,
    {
        let w = &scan.lines[i];
        let ghost wv = scan@.lines[i as int];
        assert(wv == w@.map_values(|x: String| x@));
        let position = match check_line(w, values, i) {
            Err(e) => {
                proof {
                    lemma_atoms_of_stays_refused(scan@, vv, (i + 1) as nat, k as nat);
                }
                return Err(XyzError::new(e));
            },
            Ok(p) => p,
        };
        let element = w[0].clone();
        assert(element@ == wv[0]);
        let ghost before = molecule@;
        molecule.insert_atom(element, position);
        assert(!before.atoms.contains_key(before.next_atom));
        assert(molecule@.atoms.dom() =~= before.atoms.dom().insert(before.next_atom));
        i = i + 1;
    }
    if molecule.atom_count() != scan.atom_count {
        return Err(XyzError::new("atom count does not match data lines".to_string()));
    }
    Ok(molecule)
}

} // verus!
