//! The sentinel stream for readers that take their columns from any header
//! that holds them, in any order and among any others.
use crate::format::cells_match;
use crate::format::cells_view;
use crate::format::scheme_types;
use crate::format::schemes_view;
use crate::format::AtomScheme;
use crate::format::AtomSchemeSpec;
use crate::format::AtomType;
use crate::format::AtomValue;
use crate::format::CellSpec;
use crate::format::ValueRow;
use crate::io::bin::header_block;
use crate::io::bin::header_parse;
use crate::io::bin::lemma_block_parse_shape;
use crate::io::bin::block_parse;
use crate::io::bin::read_header;
use crate::io::bin::write_header;
use crate::io::check_atom_types;
use crate::io::is_shifting;
use crate::io::shifted;
use crate::io::HdvError;
use crate::io::HdvShiftedHeader;
use crate::ov::format::lemma_object_parse_shape;
use crate::ov::format::ObjectValue;
use crate::ov::io::object_block;
use crate::ov::io::object_block_parse;
use crate::ov::io::read_object;
use crate::ov::io::write_object;
use crate::serde::HdvDeserialize;
use crate::serde::HdvScheme;
use crate::serde::HdvSerialize;
use crate::serde::ObjectScheme;
use crate::serde::ObjectSpec;
use crate::wire::Cursor;
use std::marker::PhantomData;
use vstd::prelude::*;

verus! {

/// What one write adds to a sentinel stream: the header block before the
/// first row, and the block of the row.
pub open spec fn written(
    has_written_header: bool,
    header: Seq<AtomSchemeSpec>,
    cells: Seq<CellSpec>,
) -> Seq<u8> {
    if has_written_header {
        object_block(cells)
    } else {
        header_block(header) + object_block(cells)
    }
}

/// A writer of records of type `O`. The header is the column list of the
/// schema that the type gives at the first write.
#[derive(Debug)]
pub struct OvBinWriter<O> {
    header: Option<Vec<AtomScheme>>,
    has_written_header: bool,
    write: Vec<u8>,
    buf: Vec<u8>,
    _object: PhantomData<O>,
}

impl<O> OvBinWriter<O> {
    /// The columns of the stream, once the first write has fixed them.
    pub closed spec fn header_spec(&self) -> Option<Seq<AtomSchemeSpec>> {
        match self.header {
            Some(h) => Some(schemes_view(h@)),
            None => None,
        }
    }

    /// Whether the header block has been written.
    pub closed spec fn has_written_header(&self) -> bool {
        self.has_written_header
    }

    /// The bytes written and not yet flushed.
    pub closed spec fn pending(&self) -> Seq<u8> {
        self.write@
    }

    /// What a write of the cells `cells` of a record of schema `scheme` does
    /// to a writer. The first write fixes the columns; a row that does not
    /// have one cell of the right type for each column is refused with
    /// `InvalidInput`, and nothing is written; otherwise the header block, if
    /// it is still owed, and the block of the row are added.
    pub open spec fn cells_written(
        pre: Self,
        post: Self,
        scheme: ObjectSpec,
        cells: Seq<CellSpec>,
        r: Result<(), HdvError>,
    ) -> bool {
        let header = match pre.header_spec() {
            Some(h) => h,
            None => scheme.flatten(),
        };
        &&& post.header_spec() == Some(header)
        &&& if cells_match(scheme_types(header), cells) {
            &&& r.is_ok()
            &&& post.has_written_header()
            &&& post.pending() == pre.pending() + written(pre.has_written_header(), header, cells)
        } else {
            &&& r == Err::<(), HdvError>(HdvError::InvalidInput)
            &&& post.has_written_header() == pre.has_written_header()
            &&& post.pending() == pre.pending()
        }
    }

    /// A writer that appends to `write`; no block is written yet.
    pub fn new(write: Vec<u8>) -> (r: Self)
        ensures
            r.header_spec().is_none(),
            !r.has_written_header(),
            r.pending() == write@,
    {
        OvBinWriter {
            header: None,
            has_written_header: false,
            write,
            buf: Vec::new(),
            _object: PhantomData,
        }
    }

    /// Writes one row of cells. `scheme` is the schema of the records; it
    /// counts at the first write only.
    pub fn write_cells(&mut self, scheme: &ObjectScheme, atoms: Vec<Option<AtomValue>>) -> (r:
        Result<(), HdvError>)
        ensures
            Self::cells_written(*old(self), *final(self), scheme@, cells_view(atoms@), r),
    {
        if self.header.is_none() {
            self.header = Some(scheme.atom_schemes());
        }
        let row = ValueRow::new(atoms);
        match &self.header {
            None => {
                assert(false);
                Err(HdvError::InvalidInput)
            },
            Some(header) => {
                if !check_atom_types(header.as_slice(), &row) {
                    return Err(HdvError::InvalidInput);
                }
                let ghost before = self.write@;
                let ghost cells = row@;
                if !self.has_written_header {
                    self.has_written_header = true;
                    write_header(&mut self.write, header.as_slice());
                }
                let object = ObjectValue::new(row.into_atoms());
                write_object(&mut self.write, &object, &mut self.buf);
                assert(self.write@ =~= before + written(
                    old(self).has_written_header(),
                    schemes_view(header@),
                    cells,
                ));
                Ok(())
            },
        }
    }

    /// Hands out the bytes written since the last flush.
    pub fn flush(&mut self) -> (r: Vec<u8>)
        ensures
            r@ == old(self).pending(),
            final(self).pending() == Seq::<u8>::empty(),
            final(self).header_spec() == old(self).header_spec(),
            final(self).has_written_header() == old(self).has_written_header(),
    {
        let mut out: Vec<u8> = Vec::new();
        out.append(&mut self.write);
        out
    }
}

impl<O: HdvSerialize + HdvScheme> OvBinWriter<O> {
    /// Writes one record: the cells that `object` gives of itself, under the
    /// schema that its type gives. Whatever these are, the stream grows by
    /// well-formed blocks only (see [`OvBinWriter::cells_written`]).
    pub fn write(&mut self, object: &O) -> (r: Result<(), HdvError>)
        ensures
            exists|scheme: ObjectSpec, cells: Seq<CellSpec>|
                Self::cells_written(*old(self), *final(self), scheme, cells, r),
    {
        let scheme = O::object_scheme();
        let mut atoms: Vec<Option<AtomValue>> = Vec::new();
        object.serialize(&mut atoms);
        let ghost cells = cells_view(atoms@);
        let r = self.write_cells(&scheme, atoms);
        assert(Self::cells_written(*old(self), *self, scheme@, cells, r));
        r
    }
}

/// What a read of one row does to a stream that stands at `s`: `r` is the
/// row in the block at the front of `s` and `rest` what follows that block,
/// or `r` is the reason why there is none and `rest` is `s`.
pub open spec fn object_read(
    types: Seq<AtomType>,
    s: Seq<u8>,
    rest: Seq<u8>,
    r: Result<Seq<CellSpec>, HdvError>,
) -> bool {
    match object_block_parse(types, s) {
        Ok((cells, n)) => r == Ok::<Seq<CellSpec>, HdvError>(cells) && rest == s.skip(n as int),
        Err(e) => r == Err::<Seq<CellSpec>, HdvError>(e) && rest == s,
    }
}

/// The outcome of a read, with the row as its cells.
pub open spec fn outcome(r: Result<ObjectValue, HdvError>) -> Result<Seq<CellSpec>, HdvError> {
    match r {
        Ok(row) => Ok(row@),
        Err(e) => Err(e),
    }
}

/// A reader of rows, as cells, in the order of the stream's own header.
#[derive(Debug)]
pub struct OvBinRawReader {
    header: Option<Vec<AtomScheme>>,
    read: Vec<u8>,
    pos: usize,
}

impl OvBinRawReader {
    /// The header of the stream, once it has been read.
    pub closed spec fn header_spec(&self) -> Option<Seq<AtomSchemeSpec>> {
        match self.header {
            Some(h) => Some(schemes_view(h@)),
            None => None,
        }
    }

    /// The bytes of the stream that have not been read.
    pub closed spec fn remaining(&self) -> Seq<u8> {
        self.read@.skip(self.pos as int)
    }

    /// The read position lies within the stream.
    pub closed spec fn wf(&self) -> bool {
        self.pos <= self.read@.len()
    }

    /// What a read does to a reader. The first read takes the header block
    /// before the block of the row. After a failure the reader stands where
    /// the failing block began.
    pub open spec fn row_taken(pre: Self, post: Self, r: Result<Seq<CellSpec>, HdvError>) -> bool {
        &&& post.wf()
        &&& match pre.header_spec() {
            Some(h) => post.header_spec() == Some(h) && object_read(
                scheme_types(h),
                pre.remaining(),
                post.remaining(),
                r,
            ),
            None => match header_parse(pre.remaining()) {
                Err(e) => r == Err::<Seq<CellSpec>, HdvError>(e) && post.header_spec().is_none()
                    && post.remaining() == pre.remaining(),
                Ok((h, n)) => post.header_spec() == Some(h) && object_read(
                    scheme_types(h),
                    pre.remaining().skip(n as int),
                    post.remaining(),
                    r,
                ),
            },
        }
    }

    /// A reader at the start of the stream `read`.
    pub fn new(read: Vec<u8>) -> (r: Self)
        ensures
            r.wf(),
            r.header_spec().is_none(),
            r.remaining() == read@,
    {
        assert(read@.skip(0) =~= read@);
        OvBinRawReader { header: None, read, pos: 0 }
    }

    /// The header of the stream, once the first read has captured it.
    pub fn header(&self) -> (r: Option<&Vec<AtomScheme>>)
        ensures
            match r {
                Some(h) => self.header_spec() == Some(schemes_view(h@)),
                None => self.header_spec().is_none(),
            },
    {
        self.header.as_ref()
    }

    /// Reads the next row.
    pub fn read(&mut self) -> (r: Result<ObjectValue, HdvError>)
        requires
            old(self).wf(),
        ensures
            Self::row_taken(*old(self), *final(self), outcome(r)),
    {
        let ghost s = self.remaining();
        if self.header.is_none() {
            let mut cursor = Cursor { data: self.read.as_slice(), pos: self.pos };
            match read_header(&mut cursor) {
                Err(e) => {
                    return Err(e);
                },
                Ok(header) => {
                    let before = self.pos;
                    self.header = Some(header);
                    self.pos = cursor.pos;
                    assert(self.remaining() =~= s.skip(self.pos - before));
                },
            }
        }
        let ghost s1 = self.remaining();
        let mut cursor = Cursor { data: self.read.as_slice(), pos: self.pos };
        match &self.header {
            None => {
                assert(false);
                Err(HdvError::InvalidInput)
            },
            Some(header) => {
                let before = self.pos;
                let r = read_object(&mut cursor, header.as_slice());
                self.pos = cursor.pos;
                assert(self.remaining() =~= s1.skip(self.pos - before));
                r
            },
        }
    }
}

/// A reader of records of type `O` from a stream whose header has the
/// columns of the type's schema, in any order and among any others.
#[derive(Debug)]
pub struct OvBinReader<O> {
    shift_header: Option<HdvShiftedHeader>,
    read: Vec<u8>,
    pos: usize,
    _object: PhantomData<O>,
}

impl<O> OvBinReader<O> {
    /// The header of the stream and the places of the reader's columns in
    /// it, once the first read has fixed them.
    pub closed spec fn shift_spec(&self) -> Option<(Seq<AtomSchemeSpec>, Seq<usize>)> {
        match self.shift_header {
            Some(h) => Some((h.header_spec(), h.shifting())),
            None => None,
        }
    }

    /// The bytes of the stream that have not been read.
    pub closed spec fn remaining(&self) -> Seq<u8> {
        self.read@.skip(self.pos as int)
    }

    /// The read position lies within the stream, and the places within the
    /// header.
    pub closed spec fn wf(&self) -> bool {
        &&& self.pos <= self.read@.len()
        &&& match self.shift_header {
            Some(h) => h.wf(),
            None => true,
        }
    }

    /// What a read of one row does once the header is known: the cells of
    /// the reader's columns, picked from the row in the next block.
    pub open spec fn row_taken(
        post: Self,
        header: Seq<AtomSchemeSpec>,
        shifting: Seq<usize>,
        s: Seq<u8>,
        r: Result<Seq<CellSpec>, HdvError>,
    ) -> bool {
        &&& post.shift_spec() == Some((header, shifting))
        &&& match object_block_parse(scheme_types(header), s) {
            Ok((cells, n)) => r == Ok::<Seq<CellSpec>, HdvError>(shifted(shifting, cells))
                && post.remaining() == s.skip(n as int),
            Err(e) => r == Err::<Seq<CellSpec>, HdvError>(e) && post.remaining() == s,
        }
    }

    /// What a read does to a reader of records of schema `scheme`. The first
    /// read takes the header block and looks up the schema's columns in it;
    /// where one is missing the read fails with `SchemaMismatch` and the
    /// reader stays as it was.
    pub open spec fn cells_read(
        pre: Self,
        post: Self,
        scheme: ObjectSpec,
        r: Result<Seq<CellSpec>, HdvError>,
    ) -> bool {
        &&& post.wf()
        &&& match pre.shift_spec() {
            Some((header, shifting)) => Self::row_taken(post, header, shifting, pre.remaining(), r),
            None => match header_parse(pre.remaining()) {
                Err(e) => r == Err::<Seq<CellSpec>, HdvError>(e) && post.shift_spec().is_none()
                    && post.remaining() == pre.remaining(),
                Ok((header, n)) => if forall|k: int|
                    0 <= k < scheme.flatten().len() ==> header.contains(
                        #[trigger] scheme.flatten()[k],
                    ) {
                    exists|shifting: Seq<usize>|
                        is_shifting(header, scheme.flatten(), shifting) && Self::row_taken(
                            post,
                            header,
                            shifting,
                            pre.remaining().skip(n as int),
                            r,
                        )
                } else {
                    r == Err::<Seq<CellSpec>, HdvError>(HdvError::SchemaMismatch)
                        && post.shift_spec().is_none() && post.remaining() == pre.remaining()
                },
            },
        }
    }

    /// A reader at the start of the stream `read`.
    pub fn new(read: Vec<u8>) -> (r: Self)
        ensures
            r.wf(),
            r.shift_spec().is_none(),
            r.remaining() == read@,
    {
        assert(read@.skip(0) =~= read@);
        OvBinReader { shift_header: None, read, pos: 0, _object: PhantomData }
    }

    /// The header of the stream, once the first read has captured it.
    pub fn header(&self) -> (r: Option<&Vec<AtomScheme>>)
        ensures
            match r {
                Some(h) => self.shift_spec().is_some() && self.shift_spec().unwrap().0
                    == schemes_view(h@),
                None => self.shift_spec().is_none(),
            },
    {
        match &self.shift_header {
            Some(h) => Some(h.header()),
            None => None,
        }
    }

    /// Reads the cells of the next record, in the order of `scheme`'s
    /// columns. `scheme` counts at the first read only.
    pub fn read_cells(&mut self, scheme: &ObjectScheme) -> (r: Result<
        Vec<Option<AtomValue>>,
        HdvError,
    >)
        requires
            old(self).wf(),
        ensures
            Self::cells_read(
                *old(self),
                *final(self),
                scheme@,
                match r {
                    Ok(cells) => Ok(cells_view(cells@)),
                    Err(e) => Err(e),
                },
            ),
    {
        let ghost s = self.remaining();
        if self.shift_header.is_none() {
            let mut cursor = Cursor { data: self.read.as_slice(), pos: self.pos };
            match read_header(&mut cursor) {
                Err(e) => {
                    return Err(e);
                },
                Ok(header) => {
                    let next = cursor.pos;
                    match HdvShiftedHeader::new(header, scheme) {
                        None => {
                            return Err(HdvError::SchemaMismatch);
                        },
                        Some(shift_header) => {
                            self.shift_header = Some(shift_header);
                            self.pos = next;
                            assert(self.remaining() =~= s.skip(next - old(self).pos));
                        },
                    }
                },
            }
        }
        let ghost s1 = self.remaining();
        let mut cursor = Cursor { data: self.read.as_slice(), pos: self.pos };
        match &self.shift_header {
            None => {
                assert(false);
                Err(HdvError::InvalidInput)
            },
            Some(shift_header) => {
                let ghost types = scheme_types(shift_header.header_spec());
                match read_object(&mut cursor, shift_header.header().as_slice()) {
                    Err(e) => Err(e),
                    Ok(row) => {
                        proof {
                            lemma_block_parse_shape(s1);
                            lemma_object_parse_shape(types, 0, block_parse(s1).unwrap().0);
                        }
                        let mut values: Vec<Option<AtomValue>> = Vec::new();
                        shift_header.shift(row.atoms().as_slice(), &mut values);
                        assert(cells_view(values@) =~= shifted(shift_header.shifting(), row@));
                        let before = self.pos;
                        self.pos = cursor.pos;
                        assert(self.remaining() =~= s1.skip(self.pos - before));
                        Ok(values)
                    },
                }
            },
        }
    }
}

impl<O: HdvDeserialize + HdvScheme> OvBinReader<O> {
    /// Reads one record: the cells of the next row, in the order of the
    /// schema that the type gives, handed to the type's `deserialize`. A row
    /// that it refuses fails the read with `RecordBuild`; the row is then
    /// consumed all the same.
    pub fn read(&mut self) -> (r: Result<O, HdvError>)
        requires
            old(self).wf(),
        ensures
            exists|scheme: ObjectSpec, cells: Result<Seq<CellSpec>, HdvError>|
                Self::cells_read(*old(self), *final(self), scheme, cells) && match cells {
                    Ok(_) => r.is_ok() || r == Err::<O, HdvError>(HdvError::RecordBuild),
                    Err(e) => r == Err::<O, HdvError>(e),
                },
    {
        let scheme = O::object_scheme();
        match self.read_cells(&scheme) {
            Err(e) => {
                assert(Self::cells_read(
                    *old(self),
                    *self,
                    scheme@,
                    Err::<Seq<CellSpec>, HdvError>(e),
                ));
                Err(e)
            },
            Ok(values) => {
                assert(Self::cells_read(
                    *old(self),
                    *self,
                    scheme@,
                    Ok::<Seq<CellSpec>, HdvError>(cells_view(values@)),
                ));
                let mut rest: &[Option<AtomValue>] = values.as_slice();
                match O::deserialize(&mut rest) {
                    Some(object) => Ok(object),
                    None => Err(HdvError::RecordBuild),
                }
            },
        }
    }
}

} // verus!
