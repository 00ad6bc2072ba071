//! Whole tables at once: a table held by columns is written as a stream of
//! rows, and a stream is read to its end into a table.
use crate::format::cell_view;
use crate::format::cells_view;
use crate::format::clone_cell;
use crate::format::cells_fit;
use crate::format::cells_match;
use crate::format::row_bytes;
use crate::format::lemma_row_parse_shape;
use crate::format::scheme_types;
use crate::format::schemes_view;
use crate::format::AtomType;
use crate::format::AtomScheme;
use crate::format::AtomSchemeSpec;
use crate::format::AtomValue;
use crate::format::CellSpec;
use crate::format::ValueRow;
use crate::format::append_bytes;
use crate::io::bin;
use crate::io::text;
use crate::io::text::HdvTextWriterOptions;
use crate::io::text::TextCell;
use crate::io::text::TextCellSpec;
use crate::io::check_atom_types;
use crate::io::HdvError;
use crate::wire::lemma_varint_bytes_nonempty;
use crate::wire::lemma_varint_parse_bounds;
use crate::wire::Cursor;
use crate::wire::VARINT_MAX_LEN;
use vstd::prelude::*;

verus! {

/// A table held by columns: `columns[j]` holds the cells of the column
/// `header[j]`, one for each row.
#[derive(Debug, PartialEq, Eq)]
pub struct Frame {
    pub header: Vec<AtomScheme>,
    pub columns: Vec<Vec<Option<AtomValue>>>,
}

/// The content of a list of columns.
pub open spec fn columns_view(columns: Seq<Vec<Option<AtomValue>>>) -> Seq<Seq<CellSpec>> {
    Seq::new(columns.len(), |j: int| cells_view(columns[j]@))
}

/// The content of a list of rows.
pub open spec fn rows_view(rows: Seq<ValueRow>) -> Seq<Seq<CellSpec>> {
    Seq::new(rows.len(), |i: int| rows[i]@)
}

/// Every one of `lists` has `len` entries.
pub open spec fn all_of_len(lists: Seq<Seq<CellSpec>>, len: int) -> bool {
    forall|j: int| 0 <= j < lists.len() ==> (#[trigger] lists[j]).len() == len
}

/// The table turned over: `count` lists, the `i`-th of which holds the
/// `i`-th entry of each of `lists`.
pub open spec fn transposed(lists: Seq<Seq<CellSpec>>, count: int) -> Seq<Seq<CellSpec>> {
    Seq::new(count as nat, |i: int| Seq::new(lists.len(), |j: int| lists[j][i]))
}

impl Frame {
    /// The columns of the table.
    pub open spec fn header_spec(&self) -> Seq<AtomSchemeSpec> {
        schemes_view(self.header@)
    }

    /// The cells of the table, by column.
    pub open spec fn columns_spec(&self) -> Seq<Seq<CellSpec>> {
        columns_view(self.columns@)
    }

    /// The number of rows, which is the length of the first column.
    pub open spec fn height(&self) -> int {
        self.columns_spec()[0].len() as int
    }

    /// The table has a cell list for each column of its header, at least
    /// one, and all of them as long as the first.
    pub open spec fn wf(&self) -> bool {
        &&& self.columns_spec().len() == self.header_spec().len()
        &&& self.columns_spec().len() > 0
        &&& all_of_len(self.columns_spec(), self.height())
    }
}

/// The rows of a table, with its header. The result is `None` for a table
/// that is not well formed: one without columns, with a header of another
/// length, or with columns of different lengths.
pub fn hdv_polars_write(df: &Frame) -> (r: Option<(Vec<ValueRow>, Vec<AtomScheme>)>)
    ensures
        r.is_some() == df.wf(),
        r.is_some() ==> rows_view(r.unwrap().0@) == transposed(df.columns_spec(), df.height())
            && schemes_view(r.unwrap().1@) == df.header_spec(),
{
    let width = df.columns.len();
    if width == 0 || df.header.len() != width {
        return None;
    }
    let ghost lists = df.columns_spec();
    let len = df.columns[0].len();
    assert(lists[0].len() == len);
    let mut j: usize = 0;
    while j < width
        invariant
            j <= width,
            0 < width == df.columns@.len(),
            lists == columns_view(df.columns@),
            lists[0].len() == len,
            forall|q: int| 0 <= q < j ==> (#[trigger] lists[q]).len() == len,
        decreases width - j,
    {
        if df.columns[j].len() != len {
            assert(lists[j as int].len() != len);
            return None;
        }
        j += 1;
    }
    let mut rows: Vec<ValueRow> = Vec::new();
    let mut i: usize = 0;
    while i < len
        invariant
            i <= len,
            width == df.columns@.len(),
            lists == columns_view(df.columns@),
            all_of_len(lists, len as int),
            rows@.len() == i,
            forall|p: int|
                0 <= p < i ==> (#[trigger] rows@[p])@ == Seq::new(
                    width as nat,
                    |q: int| lists[q][p],
                ),
        decreases len - i,
    {
        let mut atoms: Vec<Option<AtomValue>> = Vec::new();
        let mut j: usize = 0;
        while j < width
            invariant
                j <= width,
                i < len,
                width == df.columns@.len(),
                lists == columns_view(df.columns@),
                all_of_len(lists, len as int),
                atoms@.len() == j,
                forall|q: int| 0 <= q < j ==> cell_view(#[trigger] atoms@[q]) == lists[q][i as int],
            decreases width - j,
        {
            assert(lists[j as int].len() == len);
            let cell = clone_cell(&df.columns[j][i]);
            atoms.push(cell);
            j += 1;
        }
        let row = ValueRow::new(atoms);
        assert(row@ =~= Seq::new(width as nat, |q: int| lists[q][i as int]));
        rows.push(row);
        i += 1;
    }
    let mut header: Vec<AtomScheme> = Vec::new();
    let mut j: usize = 0;
    while j < width
        invariant
            j <= width,
            width == df.header@.len(),
            header@.len() == j,
            forall|q: int| 0 <= q < j ==> (#[trigger] header@[q])@ == df.header@[q]@,
        decreases width - j,
    {
        header.push(df.header[j].clone());
        j += 1;
    }
    assert(rows_view(rows@) =~= transposed(lists, len as int));
    assert(schemes_view(header@) =~= df.header_spec());
    Some((rows, header))
}

/// The table of the rows `rows` under the header `header`: a column for
/// each column of the header, with the cell of each row. The result is
/// `None` where a row does not have one cell for each column.
pub fn hdv_polars_read(rows: &[ValueRow], header: &[AtomScheme]) -> (r: Option<Frame>)
    ensures
        r.is_some() == all_of_len(rows_view(rows@), header@.len() as int),
        r.is_some() ==> r.unwrap().header_spec() == schemes_view(header@)
            && r.unwrap().columns_spec() == transposed(rows_view(rows@), header@.len() as int),
{
    let width = header.len();
    let count = rows.len();
    let ghost lists = rows_view(rows@);
    let mut i: usize = 0;
    while i < count
        invariant
            i <= count,
            count == rows@.len(),
            width == header@.len(),
            lists == rows_view(rows@),
            forall|p: int| 0 <= p < i ==> (#[trigger] lists[p]).len() == width,
        decreases count - i,
    {
        let atoms = rows[i].atoms();
        assert(cells_view(atoms@).len() == atoms@.len());
        if atoms.len() != width {
            assert(lists[i as int].len() != width);
            return None;
        }
        i += 1;
    }
    let mut columns: Vec<Vec<Option<AtomValue>>> = Vec::new();
    let mut j: usize = 0;
    while j < width
        invariant
            j <= width,
            count == rows@.len(),
            lists == rows_view(rows@),
            all_of_len(lists, width as int),
            columns@.len() == j,
            forall|q: int|
                0 <= q < j ==> cells_view((#[trigger] columns@[q])@) == Seq::new(
                    count as nat,
                    |p: int| lists[p][q],
                ),
        decreases width - j,
    {
        let mut column: Vec<Option<AtomValue>> = Vec::new();
        let mut i: usize = 0;
        while i < count
            invariant
                i <= count,
                j < width,
                count == rows@.len(),
                lists == rows_view(rows@),
                all_of_len(lists, width as int),
                column@.len() == i,
                forall|p: int| 0 <= p < i ==> cell_view(#[trigger] column@[p]) == lists[p][j as int],
            decreases count - i,
        {
            let atoms = rows[i].atoms();
            assert(lists[i as int].len() == width);
            assert(cells_view(atoms@).len() == atoms@.len());
            let cell = clone_cell(&atoms[j]);
            assert(cell_view(cell) == cells_view(atoms@)[j as int]);
            column.push(cell);
            i += 1;
        }
        assert(cells_view(column@) =~= Seq::new(count as nat, |p: int| lists[p][j as int]));
        columns.push(column);
        j += 1;
    }
    let mut kept: Vec<AtomScheme> = Vec::new();
    let mut j: usize = 0;
    while j < width
        invariant
            j <= width,
            width == header@.len(),
            kept@.len() == j,
            forall|q: int| 0 <= q < j ==> (#[trigger] kept@[q])@ == header@[q]@,
        decreases width - j,
    {
        kept.push(header[j].clone());
        j += 1;
    }
    let frame = Frame { header: kept, columns };
    assert(frame.header_spec() =~= schemes_view(header@));
    assert(frame.columns_spec() =~= transposed(lists, width as int));
    Some(frame)
}

/// The bytes of a binary stream of the first `k` of `rows` under `header`:
/// the header block before the first row, and the block of each row. A row
/// that does not have one cell of the right type for each column is refused
/// with `InvalidInput`.
pub open spec fn bin_rows_written(
    header: Seq<AtomSchemeSpec>,
    rows: Seq<Seq<CellSpec>>,
    k: int,
) -> Result<Seq<u8>, HdvError>
    decreases k,
{
    if k <= 0 {
        Ok(Seq::empty())
    } else {
        match bin_rows_written(header, rows, k - 1) {
            Ok(before) => if cells_match(scheme_types(header), rows[k - 1]) {
                Ok(before + bin::written(k - 1 > 0, header, rows[k - 1]))
            } else {
                Err(HdvError::InvalidInput)
            },
            Err(e) => Err(e),
        }
    }
}

/// Writes a table as a binary stream after what `write` holds, and hands the
/// bytes back. A table without rows gives no bytes, not even a header.
pub fn hdv_bin_polars_write(write: Vec<u8>, df: &Frame) -> (r: Result<Vec<u8>, HdvError>)
    ensures
        !df.wf() ==> r == Err::<Vec<u8>, HdvError>(HdvError::InvalidInput),
        df.wf() ==> match bin_rows_written(
            df.header_spec(),
            transposed(df.columns_spec(), df.height()),
            df.height(),
        ) {
            Ok(bytes) => r.is_ok() && r.unwrap()@ == write@ + bytes,
            Err(e) => r == Err::<Vec<u8>, HdvError>(e),
        },
{
    let (rows, header) = match hdv_polars_write(df) {
        Some(x) => x,
        None => {
            return Err(HdvError::InvalidInput);
        },
    };
    let ghost columns = df.header_spec();
    let ghost table = transposed(df.columns_spec(), df.height());
    let mut out = write;
    let mut buf: Vec<u8> = Vec::new();
    let mut k: usize = 0;
    assert(out@ + Seq::<u8>::empty() =~= write@);
    assert(rows_view(rows@).len() == rows@.len());
    assert(table.len() == df.height());
    while k < rows.len()
        invariant
            k <= rows@.len(),
            rows@.len() == df.height(),
            table == rows_view(rows@),
            table == transposed(df.columns_spec(), df.height()),
            columns == schemes_view(header@),
            columns == df.header_spec(),
            df.wf(),
            match bin_rows_written(columns, table, k as int) {
                Ok(bytes) => out@ == write@ + bytes,
                Err(_) => false,
            },
        decreases rows@.len() - k,
    {
        if !check_atom_types(header.as_slice(), &rows[k]) {
            proof {
                assert(!cells_match(scheme_types(columns), table[k as int]));
                assert(bin_rows_written(columns, table, k + 1) == Err::<Seq<u8>, HdvError>(
                    HdvError::InvalidInput,
                ));
                lemma_bin_rows_err(columns, table, k + 1, rows@.len() as int);
            }
            return Err(HdvError::InvalidInput);
        }
        let ghost before = out@;
        if k == 0 {
            bin::write_header(&mut out, header.as_slice());
        }
        bin::write_row(&mut out, &rows[k], &mut buf);
        assert(out@ =~= before + bin::written(k > 0, columns, table[k as int]));
        assert(out@ =~= write@ + bin_rows_written(columns, table, k + 1).unwrap());
        k += 1;
    }
    Ok(out)
}

/// Once a row is refused, the stream of no longer list of rows is written.
proof fn lemma_bin_rows_err(header: Seq<AtomSchemeSpec>, rows: Seq<Seq<CellSpec>>, k: int, n: int)
    requires
        0 <= k <= n,
        bin_rows_written(header, rows, k) == Err::<Seq<u8>, HdvError>(HdvError::InvalidInput),
    ensures
        bin_rows_written(header, rows, n) == Err::<Seq<u8>, HdvError>(HdvError::InvalidInput),
    decreases n - k,
{
    if k < n {
        lemma_bin_rows_err(header, rows, k, n - 1);
    }
}

/// The rows of a binary stream under a header with columns of `types`, read
/// to the end of `s`. The stream ends where nothing is left after a row;
/// bytes that are no whole row are an error.
pub open spec fn bin_rows_parse(types: Seq<AtomType>, s: Seq<u8>) -> Result<
    Seq<Seq<CellSpec>>,
    HdvError,
>
    decreases s.len(),
{
    if s.len() == 0 {
        Ok(Seq::empty())
    } else {
        match bin::row_block_parse(types, s) {
            Ok((cells, n)) => if 0 < n <= s.len() {
                match bin_rows_parse(types, s.skip(n as int)) {
                    Ok(rest) => Ok(seq![cells] + rest),
                    Err(e) => Err(e),
                }
            } else {
                Err(HdvError::InvalidInput)
            },
            Err(e) => Err(e),
        }
    }
}

/// The header and the rows of a whole binary stream. An empty stream has no
/// header and no rows.
pub open spec fn bin_stream_parse(s: Seq<u8>) -> Result<
    (Seq<AtomSchemeSpec>, Seq<Seq<CellSpec>>),
    HdvError,
> {
    if s.len() == 0 {
        Ok((Seq::empty(), Seq::empty()))
    } else {
        match bin::header_parse(s) {
            Ok((header, n)) => match bin_rows_parse(scheme_types(header), s.skip(n as int)) {
                Ok(rows) => Ok((header, rows)),
                Err(e) => Err(e),
            },
            Err(e) => Err(e),
        }
    }
}

/// The blocks of the rows from index `i` on, one after the other.
pub open spec fn row_blocks_from(rows: Seq<Seq<CellSpec>>, i: int) -> Seq<u8>
    decreases rows.len() - i,
{
    if !(0 <= i < rows.len()) {
        Seq::empty()
    } else {
        bin::row_block(rows[i]) + row_blocks_from(rows, i + 1)
    }
}

/// Each of `rows` has one cell of the right type for each of `types` and can
/// be written (see [`cells_fit`]) in a block whose length can be written.
pub open spec fn rows_writable(types: Seq<AtomType>, rows: Seq<Seq<CellSpec>>) -> bool {
    forall|i: int|
        0 <= i < rows.len() ==> cells_fit(#[trigger] rows[i]) && cells_match(types, rows[i])
            && row_bytes(rows[i]).len() <= u64::MAX
}

/// Reading the blocks of rows to their end gives the rows back.
pub proof fn lemma_row_blocks_roundtrip(types: Seq<AtomType>, rows: Seq<Seq<CellSpec>>, i: int)
    requires
        rows_writable(types, rows),
        0 <= i <= rows.len(),
    ensures
        bin_rows_parse(types, row_blocks_from(rows, i)) == Ok::<Seq<Seq<CellSpec>>, HdvError>(
            rows.skip(i),
        ),
    decreases rows.len() - i,
{
    if i == rows.len() {
        assert(rows.skip(i) =~= Seq::empty());
    } else {
        let s = row_blocks_from(rows, i);
        let tail = row_blocks_from(rows, i + 1);
        let n = bin::row_block(rows[i]).len();
        bin::lemma_row_block_roundtrip(types, rows[i], tail);
        lemma_varint_bytes_nonempty(row_bytes(rows[i]).len());
        assert(s.skip(n as int) =~= tail);
        lemma_row_blocks_roundtrip(types, rows, i + 1);
        assert(seq![rows[i]] + rows.skip(i + 1) =~= rows.skip(i));
    }
}

/// The stream of the first `k` rows, followed by the blocks of the others,
/// is the header block followed by the blocks of all rows.
proof fn lemma_bin_rows_written(header: Seq<AtomSchemeSpec>, rows: Seq<Seq<CellSpec>>, k: int)
    requires
        rows_writable(scheme_types(header), rows),
        1 <= k <= rows.len(),
    ensures
        bin_rows_written(header, rows, k).is_ok(),
        bin_rows_written(header, rows, k).unwrap() + row_blocks_from(rows, k) == bin::header_block(
            header,
        ) + row_blocks_from(rows, 0),
    decreases k,
{
    let before = bin_rows_written(header, rows, k - 1);
    if k == 1 {
        assert(before == Ok::<Seq<u8>, HdvError>(Seq::empty()));
        assert(bin_rows_written(header, rows, 1).unwrap() =~= bin::header_block(header)
            + bin::row_block(rows[0]));
        assert(bin_rows_written(header, rows, 1).unwrap() + row_blocks_from(rows, 1)
            =~= bin::header_block(header) + row_blocks_from(rows, 0));
    } else {
        lemma_bin_rows_written(header, rows, k - 1);
        assert(bin_rows_written(header, rows, k).unwrap() =~= before.unwrap() + bin::row_block(
            rows[k - 1],
        ));
        assert(bin_rows_written(header, rows, k).unwrap() + row_blocks_from(rows, k)
            =~= before.unwrap() + row_blocks_from(rows, k - 1));
    }
}

/// A binary stream is read back as it was written: the stream of a header
/// that is read back (see [`header_readable`](bin::header_readable)) and of
/// rows that match it, at least one, parses to that header and those rows.
pub proof fn lemma_bin_stream_roundtrip(header: Seq<AtomSchemeSpec>, rows: Seq<Seq<CellSpec>>)
    requires
        bin::header_readable(header),
        rows_writable(scheme_types(header), rows),
        rows.len() >= 1,
    ensures
        bin_rows_written(header, rows, rows.len() as int).is_ok(),
        bin_stream_parse(bin_rows_written(header, rows, rows.len() as int).unwrap()) == Ok::<
            (Seq<AtomSchemeSpec>, Seq<Seq<CellSpec>>),
            HdvError,
        >((header, rows)),
{
    let n = rows.len() as int;
    let s = bin_rows_written(header, rows, n).unwrap();
    let body = row_blocks_from(rows, 0);
    lemma_bin_rows_written(header, rows, n);
    assert(row_blocks_from(rows, n) =~= Seq::empty());
    assert(s =~= bin::header_block(header) + body);
    bin::lemma_header_roundtrip(header, body);
    lemma_varint_bytes_nonempty(bin::bincode_bytes(bin::plain_columns(header)).len());
    assert(s.skip(bin::header_block(header).len() as int) =~= body);
    lemma_row_blocks_roundtrip(scheme_types(header), rows, 0);
    assert(rows.skip(0) =~= rows);
}

/// Reads a whole binary stream into a table.
pub fn hdv_bin_polars_read(read: Vec<u8>) -> (r: Result<Frame, HdvError>)
    ensures
        match bin_stream_parse(read@) {
            Ok((header, rows)) => r.is_ok() && r.unwrap().header_spec() == header
                && r.unwrap().columns_spec() == transposed(rows, header.len() as int),
            Err(e) => r == Err::<Frame, HdvError>(e),
        },
{
    let total = read.len();
    let mut cursor = Cursor::new(read.as_slice());
    let mut rows: Vec<ValueRow> = Vec::new();
    if total == 0 {
        let frame = Frame { header: Vec::new(), columns: Vec::new() };
        assert(frame.header_spec() =~= Seq::empty());
        assert(frame.columns_spec() =~= transposed(Seq::empty(), 0));
        return Ok(frame);
    }
    let header = match bin::read_header(&mut cursor) {
        Ok(h) => h,
        Err(e) => {
            return Err(e);
        },
    };
    let ghost types = scheme_types(schemes_view(header@));
    let ghost body = cursor.remaining();
    assert(body =~= read@.skip(cursor.pos as int));
    assert(rows_view(rows@) + Seq::<Seq<CellSpec>>::empty() =~= Seq::<Seq<CellSpec>>::empty());
    while cursor.pos < total
        invariant
            cursor.wf(),
            cursor.data@ == read@,
            total == read@.len(),
            types == scheme_types(schemes_view(header@)),
            bin_stream_parse(read@) == match bin_rows_parse(types, body) {
                Ok(rows) => Ok::<(Seq<AtomSchemeSpec>, Seq<Seq<CellSpec>>), HdvError>(
                    (schemes_view(header@), rows),
                ),
                Err(e) => Err::<(Seq<AtomSchemeSpec>, Seq<Seq<CellSpec>>), HdvError>(e),
            },
            all_of_len(rows_view(rows@), header@.len() as int),
            match bin_rows_parse(types, cursor.remaining()) {
                Ok(rest) => bin_rows_parse(types, body) == Ok::<Seq<Seq<CellSpec>>, HdvError>(
                    rows_view(rows@) + rest,
                ),
                Err(e) => bin_rows_parse(types, body) == Err::<Seq<Seq<CellSpec>>, HdvError>(e),
            },
        decreases total - cursor.pos,
    {
        let ghost s = cursor.remaining();
        let ghost done = rows_view(rows@);
        let before = cursor.pos;
        proof {
            bin::lemma_block_parse_shape(s);
            if bin::block_parse(s).is_ok() {
                lemma_row_parse_shape(types, 0, bin::block_parse(s).unwrap().0, 0);
                lemma_varint_parse_bounds(s, VARINT_MAX_LEN as nat);
            }
        }
        match bin::read_row(&mut cursor, header.as_slice()) {
            Err(e) => {
                return Err(e);
            },
            Ok(row) => {
                assert(cursor.remaining() =~= s.skip(cursor.pos - before));
                let ghost cells = row@;
                rows.push(row);
                assert(rows_view(rows@) =~= done.push(cells));
                assert(forall|rest: Seq<Seq<CellSpec>>|
                    done + (seq![cells] + rest) =~= rows_view(rows@) + rest);
            },
        }
    }
    assert(rows_view(rows@) + Seq::<Seq<CellSpec>>::empty() =~= rows_view(rows@));
    match hdv_polars_read(rows.as_slice(), header.as_slice()) {
        Some(frame) => Ok(frame),
        None => Err(HdvError::InvalidInput),
    }
}

/// The content of the float texts of a table: for each row, the text handed
/// in for each of its cells.
pub open spec fn table_texts_view(texts: Seq<Vec<String>>) -> Seq<Seq<Seq<char>>> {
    Seq::new(texts.len(), |i: int| text::texts_view(texts[i]@))
}

/// The texts handed in for the floats of row `i`, none where the list is
/// shorter.
pub open spec fn row_texts(texts: Seq<Seq<Seq<char>>>, i: int) -> Seq<Seq<char>> {
    if 0 <= i < texts.len() {
        texts[i]
    } else {
        Seq::empty()
    }
}

/// The bytes of a text stream of the first `k` of `rows` under `header`: the
/// header line before the first row, and the line of each row. A row that
/// does not have one cell of the right type for each column is refused with
/// `InvalidInput`, one with a cell that cannot be written with
/// `WriteForbidden`.
pub open spec fn text_rows_written(
    header: Seq<AtomSchemeSpec>,
    csv: bool,
    rows: Seq<Seq<CellSpec>>,
    texts: Seq<Seq<Seq<char>>>,
    k: int,
) -> Result<Seq<u8>, HdvError>
    decreases k,
{
    if k <= 0 {
        Ok(Seq::empty())
    } else {
        match text_rows_written(header, csv, rows, texts, k - 1) {
            Ok(before) => if cells_match(scheme_types(header), rows[k - 1]) {
                match text::row_line(rows[k - 1], row_texts(texts, k - 1)) {
                    Some(line) => Ok(before + text::written(k - 1 > 0, header, csv, line)),
                    None => Err(HdvError::WriteForbidden),
                }
            } else {
                Err(HdvError::InvalidInput)
            },
            Err(e) => Err(e),
        }
    }
}

/// Once a row is refused, the stream of no longer list of rows is written.
proof fn lemma_text_rows_err(
    header: Seq<AtomSchemeSpec>,
    csv: bool,
    rows: Seq<Seq<CellSpec>>,
    texts: Seq<Seq<Seq<char>>>,
    k: int,
    n: int,
)
    requires
        0 <= k <= n,
        text_rows_written(header, csv, rows, texts, k).is_err(),
    ensures
        text_rows_written(header, csv, rows, texts, n) == text_rows_written(
            header,
            csv,
            rows,
            texts,
            k,
        ),
    decreases n - k,
{
    if k < n {
        lemma_text_rows_err(header, csv, rows, texts, k, n - 1);
    }
}

/// Writes a table as a text stream after what `write` holds, and hands the
/// bytes back. `float_texts[i][j]` is the decimal text of the cell of row
/// `i` in column `j` where that cell is a float. A table without rows gives
/// no bytes, not even a header.
pub fn hdv_text_polars_write(
    write: Vec<u8>,
    df: &Frame,
    float_texts: &[Vec<String>],
    options: HdvTextWriterOptions,
) -> (r: Result<Vec<u8>, HdvError>)
    ensures
        !df.wf() ==> r == Err::<Vec<u8>, HdvError>(HdvError::InvalidInput),
        df.wf() ==> match text_rows_written(
            df.header_spec(),
            options.is_csv_header,
            transposed(df.columns_spec(), df.height()),
            table_texts_view(float_texts@),
            df.height(),
        ) {
            Ok(bytes) => r.is_ok() && r.unwrap()@ == write@ + bytes,
            Err(e) => r == Err::<Vec<u8>, HdvError>(e),
        },
{
    let (rows, header) = match hdv_polars_write(df) {
        Some(x) => x,
        None => {
            return Err(HdvError::InvalidInput);
        },
    };
    let ghost columns = df.header_spec();
    let ghost table = transposed(df.columns_spec(), df.height());
    let ghost texts = table_texts_view(float_texts@);
    let ghost csv = options.is_csv_header;
    let mut out = write;
    let mut k: usize = 0;
    let none: Vec<String> = Vec::new();
    assert(out@ + Seq::<u8>::empty() =~= write@);
    assert(rows_view(rows@).len() == rows@.len());
    assert(table.len() == df.height());
    assert(text::texts_view(none@) =~= Seq::empty());
    while k < rows.len()
        invariant
            k <= rows@.len(),
            rows@.len() == df.height(),
            table == rows_view(rows@),
            table == transposed(df.columns_spec(), df.height()),
            columns == schemes_view(header@),
            columns == df.header_spec(),
            texts == table_texts_view(float_texts@),
            csv == options.is_csv_header,
            text::texts_view(none@) == Seq::<Seq<char>>::empty(),
            df.wf(),
            match text_rows_written(columns, csv, table, texts, k as int) {
                Ok(bytes) => out@ == write@ + bytes,
                Err(_) => false,
            },
        decreases rows@.len() - k,
    {
        if !check_atom_types(header.as_slice(), &rows[k]) {
            proof {
                assert(!cells_match(scheme_types(columns), table[k as int]));
                assert(text_rows_written(columns, csv, table, texts, k + 1) == Err::<
                    Seq<u8>,
                    HdvError,
                >(HdvError::InvalidInput));
                lemma_text_rows_err(columns, csv, table, texts, k + 1, rows@.len() as int);
            }
            return Err(HdvError::InvalidInput);
        }
        let mut line: Vec<u8> = Vec::new();
        let written = if k < float_texts.len() {
            text::write_row(&mut line, &rows[k], float_texts[k].as_slice())
        } else {
            text::write_row(&mut line, &rows[k], none.as_slice())
        };
        match written {
            Err(e) => {
                proof {
                    assert(text::row_line(table[k as int], row_texts(texts, k as int)).is_none());
                    assert(text_rows_written(columns, csv, table, texts, k + 1) == Err::<
                        Seq<u8>,
                        HdvError,
                    >(HdvError::WriteForbidden));
                    lemma_text_rows_err(columns, csv, table, texts, k + 1, rows@.len() as int);
                }
                return Err(e);
            },
            Ok(()) => {},
        }
        assert(line@ =~= text::row_line(table[k as int], row_texts(texts, k as int)).unwrap());
        let ghost before = out@;
        if k == 0 {
            text::write_header(&mut out, header.as_slice(), &options);
        }
        append_bytes(&mut out, line.as_slice());
        assert(out@ =~= before + text::written(k > 0, columns, csv, line@));
        assert(out@ =~= write@ + text_rows_written(columns, csv, table, texts, k + 1).unwrap());
        k += 1;
    }
    Ok(out)
}

/// The content of the rows of a text stream.
pub open spec fn text_rows_view(rows: Seq<Vec<Option<TextCell>>>) -> Seq<
    Seq<Option<TextCellSpec>>,
> {
    Seq::new(rows.len(), |i: int| text::text_cells_view(rows[i]@))
}

/// The rows of a text stream under a header with columns of `types`, read to
/// the end of `s`. The stream ends where nothing is left after a line.
pub open spec fn text_rows_parse(types: Seq<AtomType>, s: Seq<u8>) -> Result<
    Seq<Seq<Option<TextCellSpec>>>,
    HdvError,
>
    decreases s.len(),
{
    if s.len() == 0 {
        Ok(Seq::empty())
    } else {
        let n = text::line_len(s);
        if 0 < n <= s.len() {
            match text::line_parse(types, s.take(n)) {
                Ok(cells) => match text_rows_parse(types, s.skip(n)) {
                    Ok(rest) => Ok(seq![cells] + rest),
                    Err(e) => Err(e),
                },
                Err(e) => Err(e),
            }
        } else {
            Err(HdvError::InvalidInput)
        }
    }
}

/// The header and the rows of a whole text stream. An empty stream has no
/// header and no rows.
pub open spec fn text_stream_parse(s: Seq<u8>) -> Result<
    (Seq<AtomSchemeSpec>, Seq<Seq<Option<TextCellSpec>>>),
    HdvError,
> {
    if s.len() == 0 {
        Ok((Seq::empty(), Seq::empty()))
    } else {
        match text::header_read(s) {
            Ok((header, n)) => match text_rows_parse(scheme_types(header), s.skip(n)) {
                Ok(rows) => Ok((header, rows)),
                Err(e) => Err(e),
            },
            Err(e) => Err(e),
        }
    }
}

/// Reads a whole text stream: its header, and the cells of each of its
/// lines. The floats are left as their text (see
/// [`text::resolve_floats`](crate::io::text::resolve_floats)).
pub fn hdv_text_polars_read(read: Vec<u8>) -> (r: Result<
    (Vec<AtomScheme>, Vec<Vec<Option<TextCell>>>),
    HdvError,
>)
    ensures
        match text_stream_parse(read@) {
            Ok((header, rows)) => r.is_ok() && schemes_view(r.unwrap().0@) == header
                && text_rows_view(r.unwrap().1@) == rows,
            Err(e) => r == Err::<(Vec<AtomScheme>, Vec<Vec<Option<TextCell>>>), HdvError>(e),
        },
{
    let total = read.len();
    let mut cursor = Cursor::new(read.as_slice());
    let mut rows: Vec<Vec<Option<TextCell>>> = Vec::new();
    if total == 0 {
        let header: Vec<AtomScheme> = Vec::new();
        assert(schemes_view(header@) =~= Seq::empty());
        assert(text_rows_view(rows@) =~= Seq::empty());
        return Ok((header, rows));
    }
    let header = match text::read_header_line(&mut cursor) {
        Ok(h) => h,
        Err(e) => {
            return Err(e);
        },
    };
    let ghost types = scheme_types(schemes_view(header@));
    let ghost body = cursor.remaining();
    assert(body =~= read@.skip(cursor.pos as int));
    assert(text_rows_view(rows@) + Seq::<Seq<Option<TextCellSpec>>>::empty() =~= Seq::<
        Seq<Option<TextCellSpec>>,
    >::empty());
    while cursor.pos < total
        invariant
            cursor.wf(),
            cursor.data@ == read@,
            total == read@.len(),
            types == scheme_types(schemes_view(header@)),
            text_stream_parse(read@) == match text_rows_parse(types, body) {
                Ok(rows) => Ok::<
                    (Seq<AtomSchemeSpec>, Seq<Seq<Option<TextCellSpec>>>),
                    HdvError,
                >((schemes_view(header@), rows)),
                Err(e) => Err::<
                    (Seq<AtomSchemeSpec>, Seq<Seq<Option<TextCellSpec>>>),
                    HdvError,
                >(e),
            },
            match text_rows_parse(types, cursor.remaining()) {
                Ok(rest) => text_rows_parse(types, body) == Ok::<
                    Seq<Seq<Option<TextCellSpec>>>,
                    HdvError,
                >(text_rows_view(rows@) + rest),
                Err(e) => text_rows_parse(types, body) == Err::<
                    Seq<Seq<Option<TextCellSpec>>>,
                    HdvError,
                >(e),
            },
        decreases total - cursor.pos,
    {
        let ghost s = cursor.remaining();
        let ghost done = text_rows_view(rows@);
        let before = cursor.pos;
        proof {
            text::lemma_line_len_bounds(s);
        }
        match text::read_row_line(&mut cursor, header.as_slice()) {
            Err(e) => {
                return Err(e);
            },
            Ok(row) => {
                let ghost cells = text::text_cells_view(row@);
                rows.push(row);
                assert(text_rows_view(rows@) =~= done.push(cells));
                assert(forall|rest: Seq<Seq<Option<TextCellSpec>>>|
                    done + (seq![cells] + rest) =~= text_rows_view(rows@) + rest);
            },
        }
    }
    assert(text_rows_view(rows@) + Seq::<Seq<Option<TextCellSpec>>>::empty() =~= text_rows_view(
        rows@,
    ));
    Ok((header, rows))
}

} // verus!
