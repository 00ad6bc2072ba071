//! Rows in the sentinel encoding.
use crate::format::atom_bytes;
use crate::format::atom_parse;
use crate::format::cells_fit;
use crate::format::cells_match;
use crate::format::cells_view;
use crate::format::clone_cells;
use crate::format::lemma_atom_parse_shape;
use crate::format::lemma_atom_roundtrip;
use crate::format::scheme_types;
use crate::format::AtomSpec;
use crate::format::AtomType;
use crate::format::AtomValue;
use crate::format::CellSpec;
use crate::serde::ObjectScheme;
use crate::wire::write_fixed_u8;
use crate::wire::Cursor;
use vstd::prelude::*;

verus! {

/// The sentinel byte of a null.
pub const IS_NONE: u8 = 0;

/// The sentinel byte of a present value.
pub const IS_SOME: u8 = 1;

/// The sentinel encoding of a cell: the sentinel byte, and after it the atom
/// where the cell is present.
pub open spec fn cell_bytes(c: CellSpec) -> Seq<u8> {
    match c {
        None => seq![IS_NONE],
        Some(v) => seq![IS_SOME] + atom_bytes(v),
    }
}

/// The sentinel encoding of the cells from index `i` on.
pub open spec fn object_bytes_from(cells: Seq<CellSpec>, i: int) -> Seq<u8>
    decreases cells.len() - i,
{
    if !(0 <= i < cells.len()) {
        Seq::empty()
    } else {
        cell_bytes(cells[i]) + object_bytes_from(cells, i + 1)
    }
}

/// The sentinel encoding of a whole row.
pub open spec fn object_bytes(cells: Seq<CellSpec>) -> Seq<u8> {
    object_bytes_from(cells, 0)
}

/// The cell of type `t` at the front of `s`, with the bytes it takes.
pub open spec fn cell_parse(t: AtomType, s: Seq<u8>) -> Option<(CellSpec, nat)> {
    if s.len() == 0 {
        None
    } else if s[0] == IS_NONE {
        Some((None, 1nat))
    } else if s[0] == IS_SOME {
        match atom_parse(t, s.skip(1)) {
            Some((v, n)) => Some((Some(v), n + 1)),
            None => None,
        }
    } else {
        None
    }
}

/// The cells of the columns from index `i` on, read from the front of `s`,
/// and the bytes they take.
pub open spec fn object_parse_from(types: Seq<AtomType>, i: int, s: Seq<u8>) -> Option<
    (Seq<CellSpec>, nat),
>
    decreases types.len() - i,
{
    if !(0 <= i < types.len()) {
        Some((Seq::empty(), 0nat))
    } else {
        match cell_parse(types[i], s) {
            Some((c, n)) => match object_parse_from(types, i + 1, s.skip(n as int)) {
                Some((rest, m)) => Some((seq![c] + rest, n + m)),
                None => None,
            },
            None => None,
        }
    }
}

/// The cells of a whole row read from the front of `s`.
pub open spec fn object_parse(types: Seq<AtomType>, s: Seq<u8>) -> Option<(Seq<CellSpec>, nat)> {
    object_parse_from(types, 0, s)
}

/// Decoding the sentinel encoding of a cell, whatever follows it, gives the
/// cell back and consumes exactly its encoding.
pub proof fn lemma_cell_roundtrip(t: AtomType, c: CellSpec, rest: Seq<u8>)
    requires
        c.is_some() ==> c.unwrap().fits() && c.unwrap().atom_type() == t,
    ensures
        cell_parse(t, cell_bytes(c) + rest) == Some((c, cell_bytes(c).len())),
{
    let s = cell_bytes(c) + rest;
    match c {
        None => {
            assert(s[0] == IS_NONE);
        },
        Some(v) => {
            assert(s[0] == IS_SOME);
            assert(s.skip(1) =~= atom_bytes(v) + rest);
            lemma_atom_roundtrip(v, rest);
        },
    }
}

/// Round trip of the sentinel row encoding from any column on.
pub proof fn lemma_object_roundtrip_from(
    types: Seq<AtomType>,
    cells: Seq<CellSpec>,
    i: int,
    rest: Seq<u8>,
)
    requires
        cells_fit(cells),
        cells_match(types, cells),
        0 <= i <= cells.len(),
    ensures
        object_parse_from(types, i, object_bytes_from(cells, i) + rest) == Some(
            (cells.skip(i), object_bytes_from(cells, i).len()),
        ),
    decreases cells.len() - i,
{
    if i == cells.len() {
        assert(cells.skip(i) =~= Seq::empty());
    } else {
        let s = object_bytes_from(cells, i) + rest;
        let tail = object_bytes_from(cells, i + 1);
        lemma_cell_roundtrip(types[i], cells[i], tail + rest);
        assert(s =~= cell_bytes(cells[i]) + (tail + rest));
        assert(s.skip(cell_bytes(cells[i]).len() as int) =~= tail + rest);
        lemma_object_roundtrip_from(types, cells, i + 1, rest);
        assert(seq![cells[i]] + cells.skip(i + 1) =~= cells.skip(i));
    }
}

/// Decoding the sentinel encoding of a row, whatever follows it, gives the
/// row back and consumes exactly its encoding.
pub proof fn lemma_object_roundtrip(types: Seq<AtomType>, cells: Seq<CellSpec>, rest: Seq<u8>)
    requires
        cells_fit(cells),
        cells_match(types, cells),
    ensures
        object_parse(types, object_bytes(cells) + rest) == Some((cells, object_bytes(cells).len())),
{
    lemma_object_roundtrip_from(types, cells, 0, rest);
    assert(cells.skip(0) =~= cells);
}

/// A parsed row has one cell for each column, each present cell of the
/// column's type, and lies within the input.
pub proof fn lemma_object_parse_shape(types: Seq<AtomType>, i: int, s: Seq<u8>)
    requires
        0 <= i <= types.len(),
    ensures
        match object_parse_from(types, i, s) {
            Some((cells, n)) => cells.len() == types.len() - i && n <= s.len() && forall|j: int|
                0 <= j < cells.len() && cells[j].is_some() ==> (#[trigger] cells[j]).unwrap().atom_type()
                    == types[i + j],
            None => true,
        },
    decreases types.len() - i,
{
    if i < types.len() {
        match cell_parse(types[i], s) {
            Some((c, n)) => {
                if s[0] == IS_SOME {
                    lemma_atom_parse_shape(types[i], s.skip(1));
                }
                lemma_object_parse_shape(types, i + 1, s.skip(n as int));
            },
            None => {},
        }
    }
}

/// One row: a cell for each column, in the sentinel encoding.
#[derive(Debug, PartialEq, Eq)]
pub struct ObjectValue {
    atoms: Vec<Option<AtomValue>>,
}

impl View for ObjectValue {
    type V = Seq<CellSpec>;

    closed spec fn view(&self) -> Seq<CellSpec> {
        cells_view(self.atoms@)
    }
}

impl Clone for ObjectValue {
    fn clone(&self) -> (r: Self)
        ensures
            r@ == self@,
    {
        ObjectValue { atoms: clone_cells(self.atoms.as_slice()) }
    }
}

impl ObjectValue {
    /// The row made of these cells.
    pub fn new(atoms: Vec<Option<AtomValue>>) -> (r: Self)
        ensures
            r@ == cells_view(atoms@),
    {
        ObjectValue { atoms }
    }

    /// The cells of the row.
    pub fn atoms(&self) -> (r: &Vec<Option<AtomValue>>)
        ensures
            cells_view(r@) == self@,
    {
        &self.atoms
    }

    /// The cells of the row, by value.
    pub fn into_atoms(self) -> (r: Vec<Option<AtomValue>>)
        ensures
            cells_view(r@) == self@,
    {
        self.atoms
    }

    /// Appends the sentinel encoding of the row to `buf`.
    pub fn encode(&self, buf: &mut Vec<u8>)
        ensures
            final(buf)@ == old(buf)@ + object_bytes(self@),
    {
        let ghost cells = self@;
        let mut i: usize = 0;
        let n = self.atoms.len();
        while i < n
            invariant
                n == self.atoms@.len(),
                cells == cells_view(self.atoms@),
                i <= n,
                buf@ + object_bytes_from(cells, i as int) == old(buf)@ + object_bytes(cells),
            decreases n - i,
        {
            let ghost before = buf@;
            match &self.atoms[i] {
                Some(atom) => {
                    write_fixed_u8(buf, IS_SOME);
                    atom.encode(buf);
                },
                None => {
                    write_fixed_u8(buf, IS_NONE);
                },
            }
            assert(buf@ =~= before + cell_bytes(cells[i as int]));
            assert(buf@ + object_bytes_from(cells, i + 1) =~= before + object_bytes_from(
                cells,
                i as int,
            ));
            i += 1;
        }
        assert(buf@ + Seq::<u8>::empty() =~= buf@);
    }

    /// Reads the cells of the columns of `scheme` at the cursor and moves the
    /// cursor past them. Where the bytes are cut short or malformed the
    /// result is `None` and the cursor stays.
    pub fn decode(scheme: &ObjectScheme, buf: &mut Cursor) -> (r: Option<Self>)
        requires
            old(buf).wf(),
        ensures
            final(buf).wf(),
            final(buf).data == old(buf).data,
            match object_parse(scheme_types(scheme@.flatten()), old(buf).remaining()) {
                Some((cells, n)) => r.is_some() && r.unwrap()@ == cells && final(buf).pos == old(buf).pos
                    + n,
                None => r.is_none() && final(buf).pos == old(buf).pos,
            },
    {
        let mut atom_types: Vec<AtomType> = Vec::new();
        scheme.atom_types(&mut atom_types);
        assert(atom_types@ =~= scheme_types(scheme@.flatten()));
        Self::decode_types(atom_types.as_slice(), buf)
    }

    /// Reads a cell for each of `types` at the cursor and moves the cursor
    /// past them. Where the bytes are cut short or malformed the result is
    /// `None` and the cursor stays.
    pub fn decode_types(types: &[AtomType], buf: &mut Cursor) -> (r: Option<Self>)
        requires
            old(buf).wf(),
        ensures
            final(buf).wf(),
            final(buf).data == old(buf).data,
            match object_parse(types@, old(buf).remaining()) {
                Some((cells, n)) => r.is_some() && r.unwrap()@ == cells && final(buf).pos == old(buf).pos
                    + n,
                None => r.is_none() && final(buf).pos == old(buf).pos,
            },
    {
        let ghost s0 = buf.remaining();
        let start = buf.pos;
        let mut atoms: Vec<Option<AtomValue>> = Vec::new();
        let mut i: usize = 0;
        let n = types.len();
        assert(cells_view(atoms@) + Seq::<CellSpec>::empty() =~= Seq::<CellSpec>::empty());
        while i < n
            invariant
                n == types@.len(),
                i <= n,
                buf.wf(),
                buf.data == old(buf).data,
                start == old(buf).pos,
                start <= buf.pos,
                s0 == old(buf).remaining(),
                match object_parse_from(types@, i as int, buf.remaining()) {
                    Some((rest, m)) => object_parse(types@, s0) == Some(
                        (cells_view(atoms@) + rest, (buf.pos - start + m) as nat),
                    ),
                    None => object_parse(types@, s0).is_none(),
                },
            decreases n - i,
        {
            let ghost rem = buf.remaining();
            let ghost done = cells_view(atoms@);
            let before = buf.pos;
            match buf.read_u8() {
                None => {
                    buf.pos = start;
                    return None;
                },
                Some(is_some) => {
                    assert(buf.remaining() =~= rem.skip(1));
                    if is_some == IS_NONE {
                        atoms.push(None);
                        assert(forall|rest: Seq<CellSpec>|
                            done + (seq![None::<AtomSpec>] + rest) =~= cells_view(atoms@) + rest);
                    } else if is_some == IS_SOME {
                        let ghost rem2 = buf.remaining();
                        let mid = buf.pos;
                        match AtomValue::decode(types[i], buf) {
                            None => {
                                buf.pos = start;
                                return None;
                            },
                            Some(atom) => {
                                assert(buf.remaining() =~= rem2.skip(buf.pos - mid));
                                assert(buf.remaining() =~= rem.skip(buf.pos - before));
                                let ghost v = atom@;
                                atoms.push(Some(atom));
                                assert(forall|rest: Seq<CellSpec>|
                                    done + (seq![Some(v)] + rest) =~= cells_view(atoms@) + rest);
                            },
                        }
                    } else {
                        buf.pos = start;
                        return None;
                    }
                },
            }
            i += 1;
        }
        assert(cells_view(atoms@) + Seq::<CellSpec>::empty() =~= cells_view(atoms@));
        Some(ObjectValue { atoms })
    }
}

} // verus!
