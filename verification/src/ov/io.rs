//! The sentinel stream: a header block, then one block for each row, whose
//! cells are in the sentinel encoding. A reader takes a stream only if its
//! header is the column list of the reader's own schema.
use crate::format::cells_fit;
use crate::format::cells_match;
use crate::format::cells_view;
use crate::format::scheme_types;
use crate::format::schemes_view;
use crate::format::AtomScheme;
use crate::format::AtomSchemeSpec;
use crate::format::AtomType;
use crate::format::AtomValue;
use crate::format::CellSpec;
use crate::format::ValueRow;
use crate::io::bin::block;
use crate::io::bin::block_parse;
use crate::io::bin::header_block;
use crate::io::bin::header_parse;
use crate::io::bin::lemma_block_roundtrip;
use crate::io::bin::read_block;
use crate::io::bin::read_header;
use crate::io::bin::write_block;
use crate::io::bin::write_header;
use crate::io::check_atom_types;
use crate::io::HdvError;
use crate::ov::format::lemma_object_roundtrip;
use crate::ov::format::object_bytes;
use crate::ov::format::object_parse;
use crate::ov::format::ObjectValue;
use crate::serde::HdvDeserialize;
use crate::serde::HdvScheme;
use crate::serde::HdvSerialize;
use crate::serde::ObjectScheme;
use crate::serde::ObjectSpec;
use crate::wire::Cursor;
use std::marker::PhantomData;
use vstd::prelude::*;

pub mod bin;

verus! {

/// The block of a row in the sentinel encoding.
pub open spec fn object_block(cells: Seq<CellSpec>) -> Seq<u8> {
    block(object_bytes(cells))
}

/// The row in the block at the front of `s`, and the length of the block.
/// Bytes of the block that the row does not take are passed over.
pub open spec fn object_block_parse(types: Seq<AtomType>, s: Seq<u8>) -> Result<
    (Seq<CellSpec>, nat),
    HdvError,
> {
    match block_parse(s) {
        Ok((payload, n)) => match object_parse(types, payload) {
            Some((cells, _)) => Ok((cells, n)),
            None => Err(HdvError::InvalidInput),
        },
        Err(e) => Err(e),
    }
}

/// Reading the block of a row gives the row back, whatever follows the block
/// in the stream.
pub proof fn lemma_object_block_roundtrip(
    types: Seq<AtomType>,
    cells: Seq<CellSpec>,
    rest: Seq<u8>,
)
    requires
        cells_fit(cells),
        cells_match(types, cells),
        object_bytes(cells).len() <= u64::MAX,
    ensures
        object_block_parse(types, object_block(cells) + rest) == Ok::<
            (Seq<CellSpec>, nat),
            HdvError,
        >((cells, object_block(cells).len())),
{
    lemma_block_roundtrip(object_bytes(cells), rest);
    lemma_object_roundtrip(types, cells, Seq::empty());
    assert(object_bytes(cells) + Seq::<u8>::empty() =~= object_bytes(cells));
}

/// The types of a column list.
pub fn header_types(header: &[AtomScheme]) -> (r: Vec<AtomType>)
    ensures
        r@ == scheme_types(schemes_view(header@)),
{
    let mut types: Vec<AtomType> = Vec::new();
    let mut i: usize = 0;
    while i < header.len()
        invariant
            i <= header@.len(),
            types@ == scheme_types(schemes_view(header@)).take(i as int),
        decreases header@.len() - i,
    {
        types.push(header[i].atom_type);
        assert(types@ =~= scheme_types(schemes_view(header@)).take(i + 1));
        i += 1;
    }
    assert(types@ =~= scheme_types(schemes_view(header@)));
    types
}

/// Appends the block of `row`. `buf` is scratch space: what it held is
/// dropped.
pub fn write_object(out: &mut Vec<u8>, row: &ObjectValue, buf: &mut Vec<u8>)
    ensures
        final(out)@ == old(out)@ + object_block(row@),
        final(buf)@ == object_bytes(row@),
{
    buf.clear();
    row.encode(buf);
    assert(buf@ =~= object_bytes(row@));
    write_block(out, buf.as_slice());
}

/// Reads the block at the cursor as a row of the columns `atom_schemes` and
/// moves past it. On failure the cursor stays.
pub fn read_object(buf: &mut Cursor, atom_schemes: &[AtomScheme]) -> (r: Result<
    ObjectValue,
    HdvError,
>)
    requires
        old(buf).wf(),
    ensures
        final(buf).wf(),
        final(buf).data == old(buf).data,
        match object_block_parse(scheme_types(schemes_view(atom_schemes@)), old(buf).remaining()) {
            Ok((cells, n)) => r.is_ok() && r.unwrap()@ == cells && final(buf).pos == old(buf).pos
                + n,
            Err(e) => r == Err::<ObjectValue, HdvError>(e) && final(buf).pos == old(buf).pos,
        },
{
    let start = buf.pos;
    match read_block(buf) {
        Err(e) => Err(e),
        Ok(payload) => {
            let types = header_types(atom_schemes);
            let mut inner = Cursor::new(payload.as_slice());
            match ObjectValue::decode_types(types.as_slice(), &mut inner) {
                None => {
                    buf.pos = start;
                    Err(HdvError::InvalidInput)
                },
                Some(row) => Ok(row),
            }
        },
    }
}

/// Whether two column lists are the same.
pub fn same_schemes(a: &[AtomScheme], b: &[AtomScheme]) -> (r: bool)
    ensures
        r == (schemes_view(a@) == schemes_view(b@)),
{
    if a.len() != b.len() {
        assert(schemes_view(a@).len() != schemes_view(b@).len());
        return false;
    }
    let mut i: usize = 0;
    while i < a.len()
        invariant
            i <= a@.len(),
            a@.len() == b@.len(),
            forall|j: int| 0 <= j < i ==> a@[j]@ == b@[j]@,
        decreases a@.len() - i,
    {
        if !a[i].same(&b[i]) {
            assert(schemes_view(a@)[i as int] != schemes_view(b@)[i as int]);
            return false;
        }
        i += 1;
    }
    assert(schemes_view(a@) =~= schemes_view(b@));
    true
}

/// A writer of records of type `O` in the sentinel form.
#[derive(Debug)]
pub struct OvWriter<O> {
    has_written_header: bool,
    write: Vec<u8>,
    buf: Vec<u8>,
    _object: PhantomData<O>,
}

impl<O> OvWriter<O> {
    /// Whether the header block has been written.
    pub closed spec fn has_written_header(&self) -> bool {
        self.has_written_header
    }

    /// The bytes written and not yet flushed.
    pub closed spec fn pending(&self) -> Seq<u8> {
        self.write@
    }

    /// What a write of the cells `cells` of a record of schema `scheme` does
    /// to a writer. A row that does not have one cell of the right type for
    /// each column of the schema is refused with `InvalidInput`, and nothing
    /// is written; otherwise the header block of the schema's columns, if no
    /// header is written yet, and the block of the row are added.
    pub open spec fn cells_written(
        pre: Self,
        post: Self,
        scheme: ObjectSpec,
        cells: Seq<CellSpec>,
        r: Result<(), HdvError>,
    ) -> bool {
        if cells_match(scheme_types(scheme.flatten()), cells) {
            &&& r.is_ok()
            &&& post.has_written_header()
            &&& post.pending() == pre.pending() + (if pre.has_written_header() {
                object_block(cells)
            } else {
                header_block(scheme.flatten()) + object_block(cells)
            })
        } else {
            &&& r == Err::<(), HdvError>(HdvError::InvalidInput)
            &&& post.has_written_header() == pre.has_written_header()
            &&& post.pending() == pre.pending()
        }
    }

    /// A writer that appends to `write`; no block is written yet.
    pub fn new(write: Vec<u8>) -> (r: Self)
        ensures
            !r.has_written_header(),
            r.pending() == write@,
    {
        OvWriter { has_written_header: false, write, buf: Vec::new(), _object: PhantomData }
    }

    /// Writes one row of cells of a record of schema `scheme`.
    pub fn write_cells(&mut self, scheme: &ObjectScheme, atoms: Vec<Option<AtomValue>>) -> (r:
        Result<(), HdvError>)
        ensures
            Self::cells_written(*old(self), *final(self), scheme@, cells_view(atoms@), r),
    {
        let header = scheme.atom_schemes();
        let row = ValueRow::new(atoms);
        if !check_atom_types(header.as_slice(), &row) {
            return Err(HdvError::InvalidInput);
        }
        let ghost before = self.write@;
        let ghost cells = row@;
        if !self.has_written_header {
            self.has_written_header = true;
            write_header(&mut self.write, header.as_slice());
        }
        let object = ObjectValue::new(row.into_atoms());
        write_object(&mut self.write, &object, &mut self.buf);
        assert(self.write@ =~= before + (if old(self).has_written_header() {
            object_block(cells)
        } else {
            header_block(scheme@.flatten()) + object_block(cells)
        }));
        Ok(())
    }

    /// Hands out the bytes written since the last flush.
    pub fn flush(&mut self) -> (r: Vec<u8>)
        ensures
            r@ == old(self).pending(),
            final(self).pending() == Seq::<u8>::empty(),
            final(self).has_written_header() == old(self).has_written_header(),
    {
        let mut out: Vec<u8> = Vec::new();
        out.append(&mut self.write);
        out
    }
}

impl<O: HdvSerialize + HdvScheme> OvWriter<O> {
    /// Writes one record: the cells that `object` gives of itself, under the
    /// schema that its type gives. Whatever these are, the stream grows by
    /// well-formed blocks only (see [`OvWriter::cells_written`]).
    pub fn write(&mut self, object: &O) -> (r: Result<(), HdvError>)
        ensures
            exists|scheme: ObjectSpec, cells: Seq<CellSpec>|
                Self::cells_written(*old(self), *final(self), scheme, cells, r),
    {
        let scheme = O::object_scheme();
        let mut atoms: Vec<Option<AtomValue>> = Vec::new();
        object.serialize(&mut atoms);
        let ghost cells = cells_view(atoms@);
        let r = self.write_cells(&scheme, atoms);
        assert(Self::cells_written(*old(self), *self, scheme@, cells, r));
        r
    }
}

/// A reader of records of type `O` in the sentinel form.
#[derive(Debug)]
pub struct OvReader<O> {
    header: Option<Vec<AtomScheme>>,
    read: Vec<u8>,
    pos: usize,
    _object: PhantomData<O>,
}

impl<O> OvReader<O> {
    /// The header of the stream, once it has been read and accepted.
    pub closed spec fn header_spec(&self) -> Option<Seq<AtomSchemeSpec>> {
        match self.header {
            Some(h) => Some(schemes_view(h@)),
            None => None,
        }
    }

    /// The bytes of the stream that have not been read.
    pub closed spec fn remaining(&self) -> Seq<u8> {
        self.read@.skip(self.pos as int)
    }

    /// The read position lies within the stream.
    pub closed spec fn wf(&self) -> bool {
        self.pos <= self.read@.len()
    }

    /// What a read of one row does once the header is known.
    pub open spec fn row_taken(
        post: Self,
        header: Seq<AtomSchemeSpec>,
        s: Seq<u8>,
        r: Result<Seq<CellSpec>, HdvError>,
    ) -> bool {
        &&& post.header_spec() == Some(header)
        &&& match object_block_parse(scheme_types(header), s) {
            Ok((cells, n)) => r == Ok::<Seq<CellSpec>, HdvError>(cells) && post.remaining()
                == s.skip(n as int),
            Err(e) => r == Err::<Seq<CellSpec>, HdvError>(e) && post.remaining() == s,
        }
    }

    /// What a read does to a reader of records of schema `scheme`. The first
    /// read takes the header block; a header that is not the column list of
    /// the schema fails the read with `SchemaMismatch`, and the reader stays
    /// as it was.
    pub open spec fn cells_read(
        pre: Self,
        post: Self,
        scheme: ObjectSpec,
        r: Result<Seq<CellSpec>, HdvError>,
    ) -> bool {
        &&& post.wf()
        &&& match pre.header_spec() {
            Some(header) => Self::row_taken(post, header, pre.remaining(), r),
            None => match header_parse(pre.remaining()) {
                Err(e) => r == Err::<Seq<CellSpec>, HdvError>(e) && post.header_spec().is_none()
                    && post.remaining() == pre.remaining(),
                Ok((header, n)) => if header == scheme.flatten() {
                    Self::row_taken(post, header, pre.remaining().skip(n as int), r)
                } else {
                    r == Err::<Seq<CellSpec>, HdvError>(HdvError::SchemaMismatch)
                        && post.header_spec().is_none() && post.remaining() == pre.remaining()
                },
            },
        }
    }

    /// A reader at the start of the stream `read`.
    pub fn new(read: Vec<u8>) -> (r: Self)
        ensures
            r.wf(),
            r.header_spec().is_none(),
            r.remaining() == read@,
    {
        assert(read@.skip(0) =~= read@);
        OvReader { header: None, read, pos: 0, _object: PhantomData }
    }

    /// Reads the cells of the next record. `scheme` is the schema of the
    /// records; it counts at the first read only.
    pub fn read_cells(&mut self, scheme: &ObjectScheme) -> (r: Result<
        Vec<Option<AtomValue>>,
        HdvError,
    >)
        requires
            old(self).wf(),
        ensures
            Self::cells_read(
                *old(self),
                *final(self),
                scheme@,
                match r {
                    Ok(cells) => Ok(cells_view(cells@)),
                    Err(e) => Err(e),
                },
            ),
    {
        let ghost s = self.remaining();
        if self.header.is_none() {
            let mut cursor = Cursor { data: self.read.as_slice(), pos: self.pos };
            match read_header(&mut cursor) {
                Err(e) => {
                    return Err(e);
                },
                Ok(header) => {
                    let required = scheme.atom_schemes();
                    if !same_schemes(header.as_slice(), required.as_slice()) {
                        return Err(HdvError::SchemaMismatch);
                    }
                    let next = cursor.pos;
                    self.header = Some(header);
                    assert(self.read@.skip(next as int) =~= s.skip(next - self.pos));
                    self.pos = next;
                },
            }
        }
        let ghost s1 = self.remaining();
        let mut cursor = Cursor { data: self.read.as_slice(), pos: self.pos };
        match &self.header {
            None => {
                assert(false);
                Err(HdvError::InvalidInput)
            },
            Some(header) => {
                let before = self.pos;
                match read_object(&mut cursor, header.as_slice()) {
                    Err(e) => Err(e),
                    Ok(object) => {
                        self.pos = cursor.pos;
                        assert(self.remaining() =~= s1.skip(self.pos - before));
                        Ok(object.into_atoms())
                    },
                }
            },
        }
    }
}

impl<O: HdvDeserialize + HdvScheme> OvReader<O> {
    /// Reads one record: the cells of the next row, handed to the type's
    /// `deserialize`. A row that it refuses fails the read with
    /// `RecordBuild`; the row is then consumed all the same.
    pub fn read(&mut self) -> (r: Result<O, HdvError>)
        requires
            old(self).wf(),
        ensures
            exists|scheme: ObjectSpec, cells: Result<Seq<CellSpec>, HdvError>|
                Self::cells_read(*old(self), *final(self), scheme, cells) && match cells {
                    Ok(_) => r.is_ok() || r == Err::<O, HdvError>(HdvError::RecordBuild),
                    Err(e) => r == Err::<O, HdvError>(e),
                },
    {
        let scheme = O::object_scheme();
        match self.read_cells(&scheme) {
            Err(e) => {
                assert(Self::cells_read(
                    *old(self),
                    *self,
                    scheme@,
                    Err::<Seq<CellSpec>, HdvError>(e),
                ));
                Err(e)
            },
            Ok(values) => {
                assert(Self::cells_read(
                    *old(self),
                    *self,
                    scheme@,
                    Ok::<Seq<CellSpec>, HdvError>(cells_view(values@)),
                ));
                let mut rest: &[Option<AtomValue>] = values.as_slice();
                match O::deserialize(&mut rest) {
                    Some(object) => Ok(object),
                    None => Err(HdvError::RecordBuild),
                }
            },
        }
    }
}

} // verus!
