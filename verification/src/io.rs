//! Streams of rows: the binary and the text form, and the reordering of a
//! stream's columns into the order a reader asks for.
use crate::format::cell_view;
use crate::format::cells_match;
use crate::format::cells_view;
use crate::format::clone_cell;
use crate::format::scheme_types;
use crate::format::schemes_view;
use crate::format::AtomScheme;
use crate::format::AtomSchemeSpec;
use crate::format::AtomValue;
use crate::format::CellSpec;
use crate::format::ValueRow;
use crate::serde::ObjectScheme;
use vstd::prelude::*;

pub mod bin;
pub mod polars;
pub mod text;

verus! {

/// Why a read or a write failed.
#[derive(Debug, Clone, Copy, PartialEq, Eq, Structural)]
pub enum HdvError {
    /// The stream ended before or within a structure.
    UnexpectedEof,
    /// The bytes are malformed.
    InvalidInput,
    /// A column the reader requires is not in the stream's header.
    SchemaMismatch,
    /// The cells of a row do not make a record.
    RecordBuild,
    /// The value cannot be written in the text form.
    WriteForbidden,
}

/// `i` is the first place where `column` stands in `header`.
pub open spec fn is_first_index(header: Seq<AtomSchemeSpec>, column: AtomSchemeSpec, i: int) -> bool {
    &&& 0 <= i < header.len()
    &&& header[i] == column
    &&& forall|j: int| 0 <= j < i ==> header[j] != column
}

/// `shifting` gives for each required column the first place where the
/// header has it.
pub open spec fn is_shifting(
    header: Seq<AtomSchemeSpec>,
    required: Seq<AtomSchemeSpec>,
    shifting: Seq<usize>,
) -> bool {
    &&& shifting.len() == required.len()
    &&& forall|k: int|
        0 <= k < required.len() ==> is_first_index(header, required[k], #[trigger] shifting[k] as int)
}

/// The cells of `row` picked by `shifting`, in its order.
pub open spec fn shifted(shifting: Seq<usize>, row: Seq<CellSpec>) -> Seq<CellSpec> {
    Seq::new(shifting.len(), |k: int| row[shifting[k] as int])
}

/// The header of a stream together with the places of a reader's columns in
/// it.
#[derive(Debug)]
pub struct HdvShiftedHeader {
    header: Vec<AtomScheme>,
    column_shifting: Vec<usize>,
}

impl HdvShiftedHeader {
    /// The header of the stream.
    pub closed spec fn header_spec(&self) -> Seq<AtomSchemeSpec> {
        schemes_view(self.header@)
    }

    /// For each required column, its place in the header.
    pub closed spec fn shifting(&self) -> Seq<usize> {
        self.column_shifting@
    }

    /// Every place lies within the header.
    pub open spec fn wf(&self) -> bool {
        forall|k: int|
            0 <= k < self.shifting().len() ==> (#[trigger] self.shifting()[k]) < self.header_spec().len()
    }

    /// Looks up each column of `object_scheme` in `header`. The result is
    /// `None` exactly when the header lacks one of them, by name and type.
    pub fn new(header: Vec<AtomScheme>, object_scheme: &ObjectScheme) -> (r: Option<Self>)
        ensures
            r.is_some() == (forall|k: int|
                0 <= k < object_scheme@.flatten().len() ==> schemes_view(header@).contains(
                    #[trigger] object_scheme@.flatten()[k],
                )),
            r.is_some() ==> r.unwrap().wf() && r.unwrap().header_spec() == schemes_view(header@)
                && is_shifting(schemes_view(header@), object_scheme@.flatten(), r.unwrap().shifting()),
    {
        let required = object_scheme.atom_schemes();
        let ghost head = schemes_view(header@);
        let ghost req = schemes_view(required@);
        let mut column_shifting: Vec<usize> = Vec::new();
        let mut k: usize = 0;
        while k < required.len()
            invariant
                k <= required@.len(),
                head == schemes_view(header@),
                req == schemes_view(required@),
                req == object_scheme@.flatten(),
                column_shifting@.len() == k,
                forall|q: int|
                    0 <= q < k ==> is_first_index(head, req[q], #[trigger] column_shifting@[q] as int),
            decreases required@.len() - k,
        {
            let mut i: usize = 0;
            while i < header.len() && !header[i].same(&required[k])
                invariant
                    i <= header@.len(),
                    k < required@.len(),
                    head == schemes_view(header@),
                    req == schemes_view(required@),
                    forall|j: int| 0 <= j < i ==> head[j] != req[k as int],
                decreases header@.len() - i,
            {
                i += 1;
            }
            if i == header.len() {
                assert(!head.contains(req[k as int]));
                assert(object_scheme@.flatten()[k as int] == req[k as int]);
                return None;
            }
            column_shifting.push(i);
            k += 1;
        }
        assert forall|q: int| 0 <= q < req.len() implies head.contains(#[trigger] req[q]) by {
            assert(is_first_index(head, req[q], column_shifting@[q] as int));
        }
        Some(HdvShiftedHeader { header, column_shifting })
    }

    /// The header of the stream.
    pub fn header(&self) -> (r: &Vec<AtomScheme>)
        ensures
            schemes_view(r@) == self.header_spec(),
    {
        &self.header
    }

    /// For each required column, its place in the header.
    pub fn column_shifting(&self) -> (r: &Vec<usize>)
        ensures
            r@ == self.shifting(),
    {
        &self.column_shifting
    }

    /// Appends to `values` the cells of `source` that the reader requires, in
    /// the reader's order.
    pub fn shift(&self, source: &[Option<AtomValue>], values: &mut Vec<Option<AtomValue>>)
        requires
            self.wf(),
            source@.len() == self.header_spec().len(),
        ensures
            cells_view(final(values)@) == cells_view(old(values)@) + shifted(
                self.shifting(),
                cells_view(source@),
            ),
    {
        let mut k: usize = 0;
        let ghost start = cells_view(values@);
        let ghost picked = shifted(self.shifting(), cells_view(source@));
        while k < self.column_shifting.len()
            invariant
                self.wf(),
                source@.len() == self.header_spec().len(),
                k <= self.column_shifting@.len(),
                picked == shifted(self.shifting(), cells_view(source@)),
                cells_view(values@) == start + picked.take(k as int),
            decreases self.column_shifting@.len() - k,
        {
            let i = self.column_shifting[k];
            assert(self.shifting()[k as int] < self.header_spec().len());
            let ghost before = cells_view(values@);
            let value = clone_cell(&source[i]);
            values.push(value);
            assert(cells_view(values@) =~= before.push(cell_view(value)));
            assert(picked.take(k + 1) =~= picked.take(k as int).push(picked[k as int]));
            k += 1;
        }
        assert(picked.take(k as int) =~= picked);
    }
}

/// Whether `row` has one cell for each column of `header`, each present cell
/// of the column's type.
pub fn check_atom_types(header: &[AtomScheme], row: &ValueRow) -> (r: bool)
    ensures
        r == cells_match(scheme_types(schemes_view(header@)), row@),
{
    let atoms = row.atoms();
    if header.len() != atoms.len() {
        return false;
    }
    let ghost types = scheme_types(schemes_view(header@));
    let ghost cells = cells_view(atoms@);
    let mut i: usize = 0;
    while i < header.len()
        invariant
            i <= header@.len(),
            header@.len() == atoms@.len(),
            types == scheme_types(schemes_view(header@)),
            cells == cells_view(atoms@),
            cells == row@,
            forall|j: int|
                0 <= j < i && cells[j].is_some() ==> (#[trigger] cells[j]).unwrap().atom_type()
                    == types[j],
        decreases header@.len() - i,
    {
        match &atoms[i] {
            Some(value) => {
                if value.atom_type() != header[i].atom_type {
                    assert(cells[i as int].is_some());
                    assert(cells[i as int].unwrap().atom_type() != types[i as int]);
                    return false;
                }
            },
            None => {},
        }
        i += 1;
    }
    true
}

/// Reading through a shifted header gives back what the writer put under
/// each required column, wherever the stream's header has that column and
/// whatever other columns it has: if `row` holds, at every place where the
/// header has the `k`-th required column, the `k`-th cell of `record`, then
/// shifting `row` yields `record`.
pub proof fn lemma_shift_preserves_reads(
    header: Seq<AtomSchemeSpec>,
    required: Seq<AtomSchemeSpec>,
    shifting: Seq<usize>,
    row: Seq<CellSpec>,
    record: Seq<CellSpec>,
)
    requires
        is_shifting(header, required, shifting),
        row.len() == header.len(),
        record.len() == required.len(),
        forall|i: int, k: int|
            0 <= i < header.len() && 0 <= k < required.len() && header[i] == required[k] ==> row[i]
                == record[k],
    ensures
        shifted(shifting, row) == record,
{
    assert forall|k: int| 0 <= k < required.len() implies shifted(shifting, row)[k] == record[k] by {
        assert(is_first_index(header, required[k], shifting[k] as int));
    }
    assert(shifted(shifting, row) =~= record);
}

/// Columns that the reader does not require have no effect on what it
/// reads: two rows that agree wherever the header has a required column are
/// shifted to the same cells.
pub proof fn lemma_shift_projection(
    header: Seq<AtomSchemeSpec>,
    required: Seq<AtomSchemeSpec>,
    shifting: Seq<usize>,
    row1: Seq<CellSpec>,
    row2: Seq<CellSpec>,
)
    requires
        is_shifting(header, required, shifting),
        row1.len() == header.len(),
        row2.len() == header.len(),
        forall|i: int| 0 <= i < header.len() && required.contains(header[i]) ==> row1[i] == row2[i],
    ensures
        shifted(shifting, row1) == shifted(shifting, row2),
{
    assert forall|k: int| 0 <= k < required.len() implies shifted(shifting, row1)[k] == shifted(
        shifting,
        row2,
    )[k] by {
        assert(is_first_index(header, required[k], shifting[k] as int));
        assert(required.contains(required[k]));
    }
    assert(shifted(shifting, row1) =~= shifted(shifting, row2));
}

} // verus!
