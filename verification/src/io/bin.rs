//! The binary stream: a header block, then one block for each row. A block is
//! a varint length followed by that many bytes.
use crate::format::append_bytes;
use crate::format::cells_fit;
use crate::format::cells_match;
use crate::format::lemma_row_roundtrip;
use crate::format::cells_view;
use crate::format::lemma_row_parse_shape;
use crate::format::AtomValue;
use crate::format::row_bytes;
use crate::format::row_parse;
use crate::format::scheme_types;
use crate::format::schemes_view;
use crate::format::AtomScheme;
use crate::format::AtomSchemeSpec;
use crate::format::AtomType;
use crate::format::CellSpec;
use crate::format::ValueRow;
use crate::io::check_atom_types;
use crate::io::is_shifting;
use crate::io::shifted;
use crate::io::HdvShiftedHeader;
use crate::serde::HdvDeserialize;
use crate::serde::HdvScheme;
use crate::serde::HdvSerialize;
use crate::serde::ObjectScheme;
use crate::serde::ObjectSpec;
use std::marker::PhantomData;
use crate::io::HdvError;
use crate::wire::lemma_varint_parse_bounds;
use crate::wire::lemma_varint_u64_roundtrip;
use crate::wire::varint_bytes;
use crate::wire::varint_u64_parse;
use crate::wire::write_varint_u64;
use crate::wire::Cursor;
use crate::wire::VARINT_MAX_LEN;
use vstd::prelude::*;

verus! {

/// The number that stands for a type in a header block.
pub open spec fn type_tag(t: AtomType) -> u32 {
    match t {
        AtomType::String => 0,
        AtomType::Bytes => 1,
        AtomType::U64 => 2,
        AtomType::I64 => 3,
        AtomType::F32 => 4,
        AtomType::F64 => 5,
        AtomType::Bool => 6,
    }
}

/// The type that a number stands for, if any.
pub open spec fn tag_type(tag: u32) -> Option<AtomType> {
    if tag == 0 {
        Some(AtomType::String)
    } else if tag == 1 {
        Some(AtomType::Bytes)
    } else if tag == 2 {
        Some(AtomType::U64)
    } else if tag == 3 {
        Some(AtomType::I64)
    } else if tag == 4 {
        Some(AtomType::F32)
    } else if tag == 5 {
        Some(AtomType::F64)
    } else if tag == 6 {
        Some(AtomType::Bool)
    } else {
        None
    }
}

/// A column list as names and type numbers.
pub open spec fn plain_columns(columns: Seq<AtomSchemeSpec>) -> Seq<(Seq<char>, u32)> {
    Seq::new(columns.len(), |i: int| (columns[i].name, type_tag(columns[i].atom_type)))
}

/// Every type number of the list stands for a type.
pub open spec fn tags_known(plain: Seq<(Seq<char>, u32)>) -> bool {
    forall|i: int| 0 <= i < plain.len() ==> tag_type((#[trigger] plain[i]).1).is_some()
}

/// The column list that names and type numbers stand for.
pub open spec fn typed_columns(plain: Seq<(Seq<char>, u32)>) -> Seq<AtomSchemeSpec> {
    Seq::new(
        plain.len(),
        |i: int| AtomSchemeSpec { name: plain[i].0, atom_type: tag_type(plain[i].1).unwrap() },
    )
}

/// The bytes that `bincode::serialize` gives for a list of names and type
/// numbers.
pub uninterp spec fn bincode_bytes(columns: Seq<(Seq<char>, u32)>) -> Seq<u8>;

/// The list of names and type numbers that `bincode::deserialize` reads from
/// `bytes`, or `None` where it fails.
pub uninterp spec fn bincode_columns(bytes: Seq<u8>) -> Option<Seq<(Seq<char>, u32)>>;

/// Calls `bincode::serialize` on a list of pairs of a string and a 32-bit
/// integer. The result is a function of the list alone; the call cannot fail
/// on such a value.
#[verifier::external_body]
pub(crate) fn bincode_serialize(columns: &Vec<(String, u32)>) -> (r: Vec<u8>)
    ensures
        r@ == bincode_bytes(columns.deep_view()),
{
    bincode::serialize(columns).unwrap()
}

/// Calls `bincode::deserialize` for a list of pairs of a string and a 32-bit
/// integer. The result is a function of the bytes alone.
#[verifier::external_body]
pub(crate) fn bincode_deserialize(bytes: &[u8]) -> (r: Option<Vec<(String, u32)>>)
    ensures
        r.deep_view() == bincode_columns(bytes@),
{
    bincode::deserialize(bytes).ok()
}

/// A block: the varint length of the payload, then the payload.
pub open spec fn block(payload: Seq<u8>) -> Seq<u8> {
    varint_bytes(payload.len()) + payload
}

/// The header block of a column list.
pub open spec fn header_block(columns: Seq<AtomSchemeSpec>) -> Seq<u8> {
    block(bincode_bytes(plain_columns(columns)))
}

/// The block of a row.
pub open spec fn row_block(cells: Seq<CellSpec>) -> Seq<u8> {
    block(row_bytes(cells))
}

/// The stream ends within a varint: fewer bytes than a varint may take are
/// left, and each of them announces another.
pub open spec fn varint_cut_short(s: Seq<u8>) -> bool {
    &&& s.len() < VARINT_MAX_LEN
    &&& forall|i: int| 0 <= i < s.len() ==> #[trigger] s[i] >= 128
}

/// The payload of the block at the front of `s` and the length of the block.
/// The stream has ended where the length or the payload is cut short; a
/// length that is no varint is malformed.
pub open spec fn block_parse(s: Seq<u8>) -> Result<(Seq<u8>, nat), HdvError> {
    match varint_u64_parse(s) {
        Some((len, n)) => if n + len <= s.len() {
            Ok((s.subrange(n as int, n + len), n + len as nat))
        } else {
            Err(HdvError::UnexpectedEof)
        },
        None => if varint_cut_short(s) {
            Err(HdvError::UnexpectedEof)
        } else {
            Err(HdvError::InvalidInput)
        },
    }
}

/// The column list in the header block at the front of `s`, and the length
/// of the block.
pub open spec fn header_parse(s: Seq<u8>) -> Result<(Seq<AtomSchemeSpec>, nat), HdvError> {
    match block_parse(s) {
        Ok((payload, n)) => match bincode_columns(payload) {
            Some(plain) => if tags_known(plain) {
                Ok((typed_columns(plain), n))
            } else {
                Err(HdvError::InvalidInput)
            },
            None => Err(HdvError::InvalidInput),
        },
        Err(e) => Err(e),
    }
}

/// The row in the block at the front of `s`, and the length of the block.
/// Bytes of the block that the row does not take are passed over.
pub open spec fn row_block_parse(types: Seq<AtomType>, s: Seq<u8>) -> Result<
    (Seq<CellSpec>, nat),
    HdvError,
> {
    match block_parse(s) {
        Ok((payload, n)) => match row_parse(types, payload) {
            Some((cells, _)) => Ok((cells, n)),
            None => Err(HdvError::InvalidInput),
        },
        Err(e) => Err(e),
    }
}

/// The number that stands for `t` in a header block.
pub fn atom_type_tag(t: AtomType) -> (r: u32)
    ensures
        r == type_tag(t),
        tag_type(r) == Some(t),
{
    match t {
        AtomType::String => 0,
        AtomType::Bytes => 1,
        AtomType::U64 => 2,
        AtomType::I64 => 3,
        AtomType::F32 => 4,
        AtomType::F64 => 5,
        AtomType::Bool => 6,
    }
}

/// The type that `tag` stands for in a header block.
pub fn atom_type_of_tag(tag: u32) -> (r: Option<AtomType>)
    ensures
        r == tag_type(tag),
{
    if tag == 0 {
        Some(AtomType::String)
    } else if tag == 1 {
        Some(AtomType::Bytes)
    } else if tag == 2 {
        Some(AtomType::U64)
    } else if tag == 3 {
        Some(AtomType::I64)
    } else if tag == 4 {
        Some(AtomType::F32)
    } else if tag == 5 {
        Some(AtomType::F64)
    } else if tag == 6 {
        Some(AtomType::Bool)
    } else {
        None
    }
}

/// Appends a block with the given payload.
pub fn write_block(out: &mut Vec<u8>, payload: &[u8])
    ensures
        final(out)@ == old(out)@ + block(payload@),
{
    write_varint_u64(out, payload.len() as u64);
    append_bytes(out, payload);
    assert(out@ =~= old(out)@ + block(payload@));
}

/// Reads the block at the cursor and moves past it. On failure the cursor
/// stays.
pub fn read_block(buf: &mut Cursor) -> (r: Result<Vec<u8>, HdvError>)
    requires
        old(buf).wf(),
    ensures
        final(buf).wf(),
        final(buf).data == old(buf).data,
        match block_parse(old(buf).remaining()) {
            Ok((payload, n)) => r.is_ok() && r.unwrap()@ == payload && final(buf).pos == old(buf).pos + n,
            Err(e) => r == Err::<Vec<u8>, HdvError>(e) && final(buf).pos == old(buf).pos,
        },
{
    let ghost s = buf.remaining();
    let start = buf.pos;
    match buf.read_varint_u64() {
        None => {
            let total = buf.data.len();
            let left = total - start;
            let mut cut = left < VARINT_MAX_LEN;
            let mut i: usize = start;
            while cut && i < total
                invariant
                    start <= i <= total,
                    total == buf.data@.len(),
                    s == buf.data@.skip(start as int),
                    left == total - start,
                    cut ==> left < VARINT_MAX_LEN,
                    cut ==> forall|j: int| 0 <= j < i - start ==> #[trigger] s[j] >= 128,
                    !cut ==> !varint_cut_short(s),
                decreases total - i, (if cut { 1int } else { 0int }),
            {
                if buf.data[i] < 128 {
                    assert(s[i - start] < 128);
                    cut = false;
                } else {
                    i += 1;
                }
            }
            if cut {
                Err(HdvError::UnexpectedEof)
            } else {
                Err(HdvError::InvalidInput)
            }
        },
        Some(len) => {
            let ghost n = (buf.pos - start) as nat;
            assert(buf.remaining() =~= s.skip(n as int));
            match buf.read_bytes(len) {
                None => {
                    buf.pos = start;
                    Err(HdvError::UnexpectedEof)
                },
                Some(bytes) => {
                    assert(s.subrange(n as int, n as int + len) =~= s.skip(n as int).subrange(
                        0,
                        len as int,
                    ));
                    Ok(bytes)
                },
            }
        },
    }
}

/// The column list as names and type numbers.
fn to_plain(header: &[AtomScheme]) -> (r: Vec<(String, u32)>)
    ensures
        r.deep_view() == plain_columns(schemes_view(header@)),
{
    let mut plain: Vec<(String, u32)> = Vec::new();
    let mut i: usize = 0;
    while i < header.len()
        invariant
            i <= header@.len(),
            plain@.len() == i,
            forall|j: int|
                0 <= j < i ==> (#[trigger] plain@[j]).0@ == header@[j].name@ && plain@[j].1
                    == type_tag(header@[j].atom_type),
        decreases header@.len() - i,
    {
        plain.push((header[i].name.clone(), atom_type_tag(header[i].atom_type)));
        i += 1;
    }
    assert(plain.deep_view() =~= plain_columns(schemes_view(header@)));
    plain
}

/// The column list that names and type numbers stand for, if each number
/// stands for a type.
fn from_plain(plain: Vec<(String, u32)>) -> (r: Option<Vec<AtomScheme>>)
    ensures
        r.is_some() == tags_known(plain.deep_view()),
        r.is_some() ==> schemes_view(r.unwrap()@) == typed_columns(plain.deep_view()),
{
    let ghost flat = plain.deep_view();
    let mut header: Vec<AtomScheme> = Vec::new();
    let mut i: usize = 0;
    assert(forall|j: int| 0 <= j < plain@.len() ==> flat[j] == plain@[j].deep_view());
    while i < plain.len()
        invariant
            i <= plain@.len(),
            flat == plain.deep_view(),
            flat.len() == plain@.len(),
            forall|j: int| 0 <= j < plain@.len() ==> flat[j] == (plain@[j].0@, plain@[j].1),
            header@.len() == i,
            forall|j: int| 0 <= j < i ==> tag_type((#[trigger] flat[j]).1).is_some(),
            forall|j: int|
                0 <= j < i ==> (#[trigger] header@[j])@ == (AtomSchemeSpec {
                    name: flat[j].0,
                    atom_type: tag_type(flat[j].1).unwrap(),
                }),
        decreases plain@.len() - i,
    {
        match atom_type_of_tag(plain[i].1) {
            None => {
                assert(tag_type(flat[i as int].1).is_none());
                return None;
            },
            Some(t) => {
                header.push(AtomScheme { name: plain[i].0.clone(), atom_type: t });
            },
        }
        i += 1;
    }
    assert(schemes_view(header@) =~= typed_columns(flat));
    Some(header)
}

/// Appends the header block of `header`.
pub fn write_header(out: &mut Vec<u8>, header: &[AtomScheme])
    ensures
        final(out)@ == old(out)@ + header_block(schemes_view(header@)),
{
    let plain = to_plain(header);
    let payload = bincode_serialize(&plain);
    write_block(out, payload.as_slice());
}

/// Reads the header block at the cursor and moves past it. On failure the
/// cursor stays.
pub fn read_header(buf: &mut Cursor) -> (r: Result<Vec<AtomScheme>, HdvError>)
    requires
        old(buf).wf(),
    ensures
        final(buf).wf(),
        final(buf).data == old(buf).data,
        match header_parse(old(buf).remaining()) {
            Ok((columns, n)) => r.is_ok() && schemes_view(r.unwrap()@) == columns && final(buf).pos == old(buf).pos + n,
            Err(e) => r == Err::<Vec<AtomScheme>, HdvError>(e) && final(buf).pos == old(buf).pos,
        },
{
    let start = buf.pos;
    match read_block(buf) {
        Err(e) => Err(e),
        Ok(payload) => {
            match bincode_deserialize(payload.as_slice()) {
                None => {
                    buf.pos = start;
                    Err(HdvError::InvalidInput)
                },
                Some(plain) => match from_plain(plain) {
                    None => {
                        buf.pos = start;
                        Err(HdvError::InvalidInput)
                    },
                    Some(header) => Ok(header),
                },
            }
        },
    }
}

/// Appends the block of `row`. `buf` is scratch space: what it held is
/// dropped.
pub fn write_row(out: &mut Vec<u8>, row: &ValueRow, buf: &mut Vec<u8>)
    ensures
        final(out)@ == old(out)@ + row_block(row@),
        final(buf)@ == row_bytes(row@),
{
    buf.clear();
    row.encode(buf);
    assert(buf@ =~= row_bytes(row@));
    write_block(out, buf.as_slice());
}

/// Reads the block at the cursor as a row of the columns `atom_schemes` and
/// moves past it. On failure the cursor stays.
pub fn read_row(buf: &mut Cursor, atom_schemes: &[AtomScheme]) -> (r: Result<ValueRow, HdvError>)
    requires
        old(buf).wf(),
    ensures
        final(buf).wf(),
        final(buf).data == old(buf).data,
        match row_block_parse(scheme_types(schemes_view(atom_schemes@)), old(buf).remaining()) {
            Ok((cells, n)) => r.is_ok() && r.unwrap()@ == cells && final(buf).pos == old(buf).pos
                + n,
            Err(e) => r == Err::<ValueRow, HdvError>(e) && final(buf).pos == old(buf).pos,
        },
{
    let start = buf.pos;
    match read_block(buf) {
        Err(e) => Err(e),
        Ok(payload) => {
            let mut inner = Cursor::new(payload.as_slice());
            match ValueRow::decode(atom_schemes, &mut inner) {
                None => {
                    buf.pos = start;
                    Err(HdvError::InvalidInput)
                },
                Some(row) => Ok(row),
            }
        },
    }
}

/// What one write adds to a binary stream: the header block before the
/// first row, and the block of the row.
pub open spec fn written(
    has_written_header: bool,
    header: Seq<AtomSchemeSpec>,
    cells: Seq<CellSpec>,
) -> Seq<u8> {
    if has_written_header {
        row_block(cells)
    } else {
        header_block(header) + row_block(cells)
    }
}

/// A writer of rows, given as cells, under a header fixed at the start. The
/// bytes it writes gather in the writer until they are flushed.
#[derive(Debug)]
pub struct HdvBinRawWriter {
    header: Vec<AtomScheme>,
    has_written_header: bool,
    write: Vec<u8>,
    buf: Vec<u8>,
}

impl HdvBinRawWriter {
    /// The columns of the stream.
    pub closed spec fn header_spec(&self) -> Seq<AtomSchemeSpec> {
        schemes_view(self.header@)
    }

    /// Whether the header block has been written.
    pub closed spec fn has_written_header(&self) -> bool {
        self.has_written_header
    }

    /// The bytes written and not yet flushed.
    pub closed spec fn pending(&self) -> Seq<u8> {
        self.write@
    }

    /// A writer that appends to `write`; no block is written yet.
    pub fn new(write: Vec<u8>, header: Vec<AtomScheme>) -> (r: Self)
        ensures
            r.header_spec() == schemes_view(header@),
            !r.has_written_header(),
            r.pending() == write@,
    {
        HdvBinRawWriter { header, has_written_header: false, write, buf: Vec::new() }
    }

    /// Writes the header block, if this is the first row, and the block of
    /// the row. A row that does not have one cell of the right type for each
    /// column is refused with `InvalidInput`, and nothing is written.
    pub fn write(&mut self, row: ValueRow) -> (r: Result<(), HdvError>)
        ensures
            final(self).header_spec() == old(self).header_spec(),
            cells_match(scheme_types(old(self).header_spec()), row@) ==> r.is_ok() && final(self).has_written_header() && final(self).pending() == old(self).pending() + written(
                old(self).has_written_header(),
                old(self).header_spec(),
                row@,
            ),
            !cells_match(scheme_types(old(self).header_spec()), row@) ==> r == Err::<(), HdvError>(
                HdvError::InvalidInput,
            ) && final(self).has_written_header() == old(self).has_written_header() && final(self).pending() == old(self).pending(),
    {
        if !check_atom_types(self.header.as_slice(), &row) {
            return Err(HdvError::InvalidInput);
        }
        let ghost before = self.write@;
        if !self.has_written_header {
            self.has_written_header = true;
            write_header(&mut self.write, self.header.as_slice());
        }
        let ghost middle = self.write@;
        write_row(&mut self.write, &row, &mut self.buf);
        assert(self.write@ =~= before + written(
            old(self).has_written_header(),
            old(self).header_spec(),
            row@,
        ));
        Ok(())
    }

    /// Hands out the bytes written since the last flush.
    pub fn flush(&mut self) -> (r: Vec<u8>)
        ensures
            r@ == old(self).pending(),
            final(self).pending() == Seq::<u8>::empty(),
            final(self).header_spec() == old(self).header_spec(),
            final(self).has_written_header() == old(self).has_written_header(),
    {
        let mut out: Vec<u8> = Vec::new();
        out.append(&mut self.write);
        out
    }
}

/// What a read of one row does to a stream that stands at `s`: `r` is the
/// row in the block at the front of `s` and `rest` what follows that block,
/// or `r` is the reason why there is none and `rest` is `s`.
pub open spec fn row_read(
    types: Seq<AtomType>,
    s: Seq<u8>,
    rest: Seq<u8>,
    r: Result<Seq<CellSpec>, HdvError>,
) -> bool {
    match row_block_parse(types, s) {
        Ok((cells, n)) => r == Ok::<Seq<CellSpec>, HdvError>(cells) && rest == s.skip(n as int),
        Err(e) => r == Err::<Seq<CellSpec>, HdvError>(e) && rest == s,
    }
}

/// The outcome of a read, with the row as its cells.
pub open spec fn outcome(r: Result<ValueRow, HdvError>) -> Result<Seq<CellSpec>, HdvError> {
    match r {
        Ok(row) => Ok(row@),
        Err(e) => Err(e),
    }
}

/// A reader of rows, as cells, in the order of the stream's own header.
#[derive(Debug)]
pub struct HdvBinRawReader {
    header: Option<Vec<AtomScheme>>,
    read: Vec<u8>,
    pos: usize,
}

impl HdvBinRawReader {
    /// The header of the stream, once it has been read.
    pub closed spec fn header_spec(&self) -> Option<Seq<AtomSchemeSpec>> {
        match self.header {
            Some(h) => Some(schemes_view(h@)),
            None => None,
        }
    }

    /// The bytes of the stream that have not been read.
    pub closed spec fn remaining(&self) -> Seq<u8> {
        self.read@.skip(self.pos as int)
    }

    /// The read position lies within the stream.
    pub closed spec fn wf(&self) -> bool {
        self.pos <= self.read@.len()
    }

    /// What a read does to a reader. The first read takes the header block
    /// before the block of the row. After a failure the reader stands where
    /// the failing block began.
    pub open spec fn row_taken(pre: Self, post: Self, r: Result<Seq<CellSpec>, HdvError>) -> bool {
        &&& post.wf()
        &&& match pre.header_spec() {
            Some(h) => post.header_spec() == Some(h) && row_read(
                scheme_types(h),
                pre.remaining(),
                post.remaining(),
                r,
            ),
            None => match header_parse(pre.remaining()) {
                Err(e) => r == Err::<Seq<CellSpec>, HdvError>(e) && post.header_spec().is_none()
                    && post.remaining() == pre.remaining(),
                Ok((h, n)) => post.header_spec() == Some(h) && row_read(
                    scheme_types(h),
                    pre.remaining().skip(n as int),
                    post.remaining(),
                    r,
                ),
            },
        }
    }

    /// A reader at the start of the stream `read`.
    pub fn new(read: Vec<u8>) -> (r: Self)
        ensures
            r.wf(),
            r.header_spec().is_none(),
            r.remaining() == read@,
    {
        assert(read@.skip(0) =~= read@);
        HdvBinRawReader { header: None, read, pos: 0 }
    }

    /// The header of the stream, once the first read has captured it.
    pub fn header(&self) -> (r: Option<&Vec<AtomScheme>>)
        ensures
            match r {
                Some(h) => self.header_spec() == Some(schemes_view(h@)),
                None => self.header_spec().is_none(),
            },
    {
        self.header.as_ref()
    }

    /// Whether the whole stream has been read.
    pub fn is_at_end(&self) -> (r: bool)
        requires
            self.wf(),
        ensures
            r == (self.remaining().len() == 0),
    {
        self.pos == self.read.len()
    }

    /// Reads the next row.
    pub fn read(&mut self) -> (r: Result<ValueRow, HdvError>)
        requires
            old(self).wf(),
        ensures
            Self::row_taken(*old(self), *final(self), outcome(r)),
    {
        let ghost s = self.remaining();
        if self.header.is_none() {
            let mut cursor = Cursor { data: self.read.as_slice(), pos: self.pos };
            match read_header(&mut cursor) {
                Err(e) => {
                    return Err(e);
                },
                Ok(header) => {
                    let before = self.pos;
                    self.header = Some(header);
                    self.pos = cursor.pos;
                    assert(self.remaining() =~= s.skip(self.pos - before));
                },
            }
        }
        let ghost s1 = self.remaining();
        let mut cursor = Cursor { data: self.read.as_slice(), pos: self.pos };
        match &self.header {
            None => {
                assert(false);
                Err(HdvError::InvalidInput)
            },
            Some(header) => {
                let before = self.pos;
                let r = read_row(&mut cursor, header.as_slice());
                self.pos = cursor.pos;
                assert(self.remaining() =~= s1.skip(self.pos - before));
                r
            },
        }
    }
}

/// A writer of records of type `O`. The header is the column list of the
/// schema that the type gives at the first write.
#[derive(Debug)]
pub struct HdvBinWriter<O> {
    raw: HdvBinRawWriter,
    has_header: bool,
    _object: PhantomData<O>,
}

impl<O> HdvBinWriter<O> {
    /// The columns of the stream, once the first write has fixed them.
    pub closed spec fn header_spec(&self) -> Option<Seq<AtomSchemeSpec>> {
        if self.has_header {
            Some(self.raw.header_spec())
        } else {
            None
        }
    }

    /// Whether the header block has been written.
    pub closed spec fn has_written_header(&self) -> bool {
        self.raw.has_written_header()
    }

    /// The bytes written and not yet flushed.
    pub closed spec fn pending(&self) -> Seq<u8> {
        self.raw.pending()
    }

    /// The header is not written before it is fixed.
    pub closed spec fn wf(&self) -> bool {
        self.raw.has_written_header() ==> self.has_header
    }

    /// What a write of the cells `cells` of a record of schema `scheme` does
    /// to a writer. The first write fixes the columns; a row that does not
    /// have one cell of the right type for each column is refused with
    /// `InvalidInput`, and nothing is written; otherwise the header block, if
    /// it is still owed, and the block of the row are added.
    pub open spec fn cells_written(
        pre: Self,
        post: Self,
        scheme: ObjectSpec,
        cells: Seq<CellSpec>,
        r: Result<(), HdvError>,
    ) -> bool {
        let header = match pre.header_spec() {
            Some(h) => h,
            None => scheme.flatten(),
        };
        &&& post.wf()
        &&& post.header_spec() == Some(header)
        &&& if cells_match(scheme_types(header), cells) {
            &&& r.is_ok()
            &&& post.has_written_header()
            &&& post.pending() == pre.pending() + written(pre.has_written_header(), header, cells)
        } else {
            &&& r == Err::<(), HdvError>(HdvError::InvalidInput)
            &&& post.has_written_header() == pre.has_written_header()
            &&& post.pending() == pre.pending()
        }
    }

    /// A writer that appends to `write`; no block is written yet.
    pub fn new(write: Vec<u8>) -> (r: Self)
        ensures
            r.wf(),
            r.header_spec().is_none(),
            !r.has_written_header(),
            r.pending() == write@,
    {
        HdvBinWriter {
            raw: HdvBinRawWriter::new(write, Vec::new()),
            has_header: false,
            _object: PhantomData,
        }
    }

    /// Writes one row of cells. `scheme` is the schema of the records; it
    /// counts at the first write only.
    pub fn write_cells(&mut self, scheme: &ObjectScheme, atoms: Vec<Option<AtomValue>>) -> (r:
        Result<(), HdvError>)
        requires
            old(self).wf(),
        ensures
            Self::cells_written(*old(self), *final(self), scheme@, cells_view(atoms@), r),
    {
        if !self.has_header {
            self.raw.header = scheme.atom_schemes();
            self.has_header = true;
        }
        self.raw.write(ValueRow::new(atoms))
    }

    /// Hands out the bytes written since the last flush.
    pub fn flush(&mut self) -> (r: Vec<u8>)
        requires
            old(self).wf(),
        ensures
            final(self).wf(),
            r@ == old(self).pending(),
            final(self).pending() == Seq::<u8>::empty(),
            final(self).header_spec() == old(self).header_spec(),
            final(self).has_written_header() == old(self).has_written_header(),
    {
        self.raw.flush()
    }
}

impl<O: HdvSerialize + HdvScheme> HdvBinWriter<O> {
    /// Writes one record: the cells that `object` gives of itself, under the
    /// schema that its type gives. Whatever these are, the stream grows by
    /// well-formed blocks only (see [`HdvBinWriter::cells_written`]).
    pub fn write(&mut self, object: &O) -> (r: Result<(), HdvError>)
        requires
            old(self).wf(),
        ensures
            exists|scheme: ObjectSpec, cells: Seq<CellSpec>|
                Self::cells_written(*old(self), *final(self), scheme, cells, r),
    {
        let scheme = O::object_scheme();
        let mut atoms: Vec<Option<AtomValue>> = Vec::new();
        object.serialize(&mut atoms);
        let ghost cells = cells_view(atoms@);
        let r = self.write_cells(&scheme, atoms);
        assert(Self::cells_written(*old(self), *self, scheme@, cells, r));
        r
    }
}

/// A reader of records of type `O` from a stream whose header has the
/// columns of the type's schema, in any order and among any others.
#[derive(Debug)]
pub struct HdvBinReader<O> {
    shift_header: Option<HdvShiftedHeader>,
    read: Vec<u8>,
    pos: usize,
    atom_value_buf: Vec<Option<AtomValue>>,
    _object: PhantomData<O>,
}

impl<O> HdvBinReader<O> {
    /// The header of the stream and the places of the reader's columns in
    /// it, once the first read has fixed them.
    pub closed spec fn shift_spec(&self) -> Option<(Seq<AtomSchemeSpec>, Seq<usize>)> {
        match self.shift_header {
            Some(h) => Some((h.header_spec(), h.shifting())),
            None => None,
        }
    }

    /// The bytes of the stream that have not been read.
    pub closed spec fn remaining(&self) -> Seq<u8> {
        self.read@.skip(self.pos as int)
    }

    /// The read position lies within the stream, and the places within the
    /// header.
    pub closed spec fn wf(&self) -> bool {
        &&& self.pos <= self.read@.len()
        &&& match self.shift_header {
            Some(h) => h.wf(),
            None => true,
        }
    }

    /// What a read of one row does once the header is known: the cells of
    /// the reader's columns, picked from the row in the next block.
    pub open spec fn row_taken(
        post: Self,
        header: Seq<AtomSchemeSpec>,
        shifting: Seq<usize>,
        s: Seq<u8>,
        r: Result<Seq<CellSpec>, HdvError>,
    ) -> bool {
        &&& post.shift_spec() == Some((header, shifting))
        &&& match row_block_parse(scheme_types(header), s) {
            Ok((cells, n)) => r == Ok::<Seq<CellSpec>, HdvError>(shifted(shifting, cells))
                && post.remaining() == s.skip(n as int),
            Err(e) => r == Err::<Seq<CellSpec>, HdvError>(e) && post.remaining() == s,
        }
    }

    /// What a read does to a reader of records of schema `scheme`. The first
    /// read takes the header block and looks up the schema's columns in it;
    /// where one is missing the read fails with `SchemaMismatch` and the
    /// reader stays as it was.
    pub open spec fn cells_read(
        pre: Self,
        post: Self,
        scheme: ObjectSpec,
        r: Result<Seq<CellSpec>, HdvError>,
    ) -> bool {
        &&& post.wf()
        &&& match pre.shift_spec() {
            Some((header, shifting)) => Self::row_taken(post, header, shifting, pre.remaining(), r),
            None => match header_parse(pre.remaining()) {
                Err(e) => r == Err::<Seq<CellSpec>, HdvError>(e) && post.shift_spec().is_none()
                    && post.remaining() == pre.remaining(),
                Ok((header, n)) => if forall|k: int|
                    0 <= k < scheme.flatten().len() ==> header.contains(
                        #[trigger] scheme.flatten()[k],
                    ) {
                    exists|shifting: Seq<usize>|
                        is_shifting(header, scheme.flatten(), shifting) && Self::row_taken(
                            post,
                            header,
                            shifting,
                            pre.remaining().skip(n as int),
                            r,
                        )
                } else {
                    r == Err::<Seq<CellSpec>, HdvError>(HdvError::SchemaMismatch)
                        && post.shift_spec().is_none() && post.remaining() == pre.remaining()
                },
            },
        }
    }

    /// A reader at the start of the stream `read`.
    pub fn new(read: Vec<u8>) -> (r: Self)
        ensures
            r.wf(),
            r.shift_spec().is_none(),
            r.remaining() == read@,
    {
        assert(read@.skip(0) =~= read@);
        HdvBinReader {
            shift_header: None,
            read,
            pos: 0,
            atom_value_buf: Vec::new(),
            _object: PhantomData,
        }
    }

    /// The header of the stream, once the first read has captured it.
    pub fn header(&self) -> (r: Option<&Vec<AtomScheme>>)
        ensures
            match r {
                Some(h) => self.shift_spec().is_some() && self.shift_spec().unwrap().0
                    == schemes_view(h@),
                None => self.shift_spec().is_none(),
            },
    {
        match &self.shift_header {
            Some(h) => Some(h.header()),
            None => None,
        }
    }

    /// Reads the cells of the next record, in the order of `scheme`'s
    /// columns. `scheme` counts at the first read only.
    pub fn read_cells(&mut self, scheme: &ObjectScheme) -> (r: Result<
        Vec<Option<AtomValue>>,
        HdvError,
    >)
        requires
            old(self).wf(),
        ensures
            Self::cells_read(
                *old(self),
                *final(self),
                scheme@,
                match r {
                    Ok(cells) => Ok(cells_view(cells@)),
                    Err(e) => Err(e),
                },
            ),
    {
        let ghost s = self.remaining();
        if self.shift_header.is_none() {
            let mut cursor = Cursor { data: self.read.as_slice(), pos: self.pos };
            match read_header(&mut cursor) {
                Err(e) => {
                    return Err(e);
                },
                Ok(header) => {
                    let next = cursor.pos;
                    match HdvShiftedHeader::new(header, scheme) {
                        None => {
                            return Err(HdvError::SchemaMismatch);
                        },
                        Some(shift_header) => {
                            self.shift_header = Some(shift_header);
                            self.pos = next;
                            assert(self.remaining() =~= s.skip(next - old(self).pos));
                        },
                    }
                },
            }
        }
        let ghost s1 = self.remaining();
        let mut cursor = Cursor { data: self.read.as_slice(), pos: self.pos };
        match &self.shift_header {
            None => {
                assert(false);
                Err(HdvError::InvalidInput)
            },
            Some(shift_header) => {
                let ghost types = scheme_types(shift_header.header_spec());
                match read_row(&mut cursor, shift_header.header().as_slice()) {
                    Err(e) => Err(e),
                    Ok(row) => {
                        proof {
                            lemma_block_parse_shape(s1);
                            lemma_row_parse_shape(types, 0, block_parse(s1).unwrap().0, 0);
                        }
                        let mut values: Vec<Option<AtomValue>> = Vec::new();
                        shift_header.shift(row.atoms().as_slice(), &mut values);
                        assert(cells_view(values@) =~= shifted(shift_header.shifting(), row@));
                        let before = self.pos;
                        self.pos = cursor.pos;
                        assert(self.remaining() =~= s1.skip(self.pos - before));
                        Ok(values)
                    },
                }
            },
        }
    }
}

impl<O: HdvDeserialize + HdvScheme> HdvBinReader<O> {
    /// Reads one record: the cells of the next row, in the order of the
    /// schema that the type gives, handed to the type's `deserialize`. A row
    /// that it refuses fails the read with `RecordBuild`; the row is then
    /// consumed all the same.
    pub fn read(&mut self) -> (r: Result<O, HdvError>)
        requires
            old(self).wf(),
        ensures
            exists|scheme: ObjectSpec, cells: Result<Seq<CellSpec>, HdvError>|
                Self::cells_read(*old(self), *final(self), scheme, cells) && match cells {
                    Ok(_) => r.is_ok() || r == Err::<O, HdvError>(HdvError::RecordBuild),
                    Err(e) => r == Err::<O, HdvError>(e),
                },
    {
        let scheme = O::object_scheme();
        match self.read_cells(&scheme) {
            Err(e) => {
                assert(Self::cells_read(
                    *old(self),
                    *self,
                    scheme@,
                    Err::<Seq<CellSpec>, HdvError>(e),
                ));
                Err(e)
            },
            Ok(values) => {
                assert(Self::cells_read(
                    *old(self),
                    *self,
                    scheme@,
                    Ok::<Seq<CellSpec>, HdvError>(cells_view(values@)),
                ));
                let mut rest: &[Option<AtomValue>] = values.as_slice();
                match O::deserialize(&mut rest) {
                    Some(object) => Ok(object),
                    None => Err(HdvError::RecordBuild),
                }
            },
        }
    }
}

/// Whether the header block of `columns` is read back as `columns`: whether
/// `bincode` reads from the bytes that it gives for the list the list
/// itself, and the length of those bytes can be written.
pub open spec fn header_readable(columns: Seq<AtomSchemeSpec>) -> bool {
    &&& bincode_bytes(plain_columns(columns)).len() <= u64::MAX
    &&& bincode_columns(bincode_bytes(plain_columns(columns))) == Some(plain_columns(columns))
}

/// Whether two lists of names and type numbers are the same.
fn same_plain(a: &Vec<(String, u32)>, b: &Vec<(String, u32)>) -> (r: bool)
    ensures
        r == (a.deep_view() == b.deep_view()),
{
    let ghost x = a.deep_view();
    let ghost y = b.deep_view();
    assert(forall|j: int| 0 <= j < a@.len() ==> x[j] == (a@[j].0@, a@[j].1));
    assert(forall|j: int| 0 <= j < b@.len() ==> y[j] == (b@[j].0@, b@[j].1));
    if a.len() != b.len() {
        assert(x.len() != y.len());
        return false;
    }
    let mut i: usize = 0;
    while i < a.len()
        invariant
            i <= a@.len(),
            a@.len() == b@.len(),
            x == a.deep_view(),
            y == b.deep_view(),
            x.len() == a@.len(),
            y.len() == b@.len(),
            forall|j: int| 0 <= j < a@.len() ==> x[j] == (a@[j].0@, a@[j].1),
            forall|j: int| 0 <= j < b@.len() ==> y[j] == (b@[j].0@, b@[j].1),
            forall|j: int| 0 <= j < i ==> x[j] == y[j],
        decreases a@.len() - i,
    {
        if !(a[i].0 == b[i].0 && a[i].1 == b[i].1) {
            assert(x[i as int] != y[i as int]);
            return false;
        }
        i += 1;
    }
    assert(x =~= y);
    true
}

/// Whether the header block of `header` is read back as `header`. The block
/// is made and read for the answer.
pub fn header_round_trips(header: &[AtomScheme]) -> (r: bool)
    ensures
        r == header_readable(schemes_view(header@)),
{
    let plain = to_plain(header);
    let payload = bincode_serialize(&plain);
    let _len = payload.len();
    match bincode_deserialize(payload.as_slice()) {
        None => false,
        Some(back) => same_plain(&back, &plain),
    }
}

/// Reading the header block of a column list that is read back (see
/// [`header_readable`]) gives the list, whatever follows the block in the
/// stream.
pub proof fn lemma_header_roundtrip(columns: Seq<AtomSchemeSpec>, rest: Seq<u8>)
    requires
        header_readable(columns),
    ensures
        header_parse(header_block(columns) + rest) == Ok::<(Seq<AtomSchemeSpec>, nat), HdvError>(
            (columns, header_block(columns).len()),
        ),
{
    let plain = plain_columns(columns);
    lemma_block_roundtrip(bincode_bytes(plain), rest);
    assert(tags_known(plain));
    assert(typed_columns(plain) =~= columns);
}

/// Reading a block, whatever follows it, gives its payload back and consumes
/// exactly the block.
pub proof fn lemma_block_roundtrip(payload: Seq<u8>, rest: Seq<u8>)
    requires
        payload.len() <= u64::MAX,
    ensures
        block_parse(block(payload) + rest) == Ok::<(Seq<u8>, nat), HdvError>(
            (payload, block(payload).len()),
        ),
{
    let s = block(payload) + rest;
    let n = varint_bytes(payload.len()).len();
    lemma_varint_u64_roundtrip(payload.len() as u64, payload + rest);
    assert(s =~= varint_bytes(payload.len()) + (payload + rest));
    assert(s.subrange(n as int, n as int + payload.len()) =~= payload);
}

/// Reading the block of a row gives the row back, whatever follows the block
/// in the stream.
pub proof fn lemma_row_block_roundtrip(types: Seq<AtomType>, cells: Seq<CellSpec>, rest: Seq<u8>)
    requires
        cells_fit(cells),
        cells_match(types, cells),
        row_bytes(cells).len() <= u64::MAX,
    ensures
        row_block_parse(types, row_block(cells) + rest) == Ok::<(Seq<CellSpec>, nat), HdvError>(
            (cells, row_block(cells).len()),
        ),
{
    lemma_block_roundtrip(row_bytes(cells), rest);
    lemma_row_roundtrip(types, cells, Seq::empty());
    assert(row_bytes(cells) + Seq::<u8>::empty() =~= row_bytes(cells));
}

/// Header shifting preserves reads. Let a stream begin with the header block
/// of `header`, which is read back (see [`header_readable`]), and the block
/// of `row`, a row that can be written under that header. Let the header
/// hold every column of `scheme`, and let `row` hold, at every place where
/// the header has the `k`-th column of `scheme`, the `k`-th cell of `record`.
/// Then the first read of a reader of records of schema `scheme` gives
/// `record`, whatever the order of the header's columns and whatever other
/// columns it has, and leaves the reader behind the row.
pub proof fn lemma_read_preserved<O>(
    pre: HdvBinReader<O>,
    post: HdvBinReader<O>,
    scheme: ObjectSpec,
    header: Seq<AtomSchemeSpec>,
    row: Seq<CellSpec>,
    record: Seq<CellSpec>,
    rest: Seq<u8>,
    r: Result<Seq<CellSpec>, HdvError>,
)
    requires
        pre.shift_spec().is_none(),
        pre.remaining() == header_block(header) + (row_block(row) + rest),
        header_readable(header),
        cells_fit(row),
        cells_match(scheme_types(header), row),
        row_bytes(row).len() <= u64::MAX,
        record.len() == scheme.flatten().len(),
        forall|k: int|
            0 <= k < scheme.flatten().len() ==> header.contains(#[trigger] scheme.flatten()[k]),
        forall|i: int, k: int|
            0 <= i < header.len() && 0 <= k < scheme.flatten().len() && header[i]
                == scheme.flatten()[k] ==> row[i] == record[k],
        HdvBinReader::<O>::cells_read(pre, post, scheme, r),
    ensures
        r == Ok::<Seq<CellSpec>, HdvError>(record),
        post.remaining() == rest,
{
    let s = pre.remaining();
    let body = row_block(row) + rest;
    lemma_header_roundtrip(header, body);
    let n = header_block(header).len();
    assert(s.skip(n as int) =~= body);
    lemma_row_block_roundtrip(scheme_types(header), row, rest);
    assert(body.skip(row_block(row).len() as int) =~= rest);
    let shifting = choose|shifting: Seq<usize>|
        is_shifting(header, scheme.flatten(), shifting) && HdvBinReader::<O>::row_taken(
            post,
            header,
            shifting,
            body,
            r,
        );
    crate::io::lemma_shift_preserves_reads(header, scheme.flatten(), shifting, row, record);
}

/// A parsed block lies within the input.
pub proof fn lemma_block_parse_shape(s: Seq<u8>)
    ensures
        match block_parse(s) {
            Ok((payload, n)) => payload.len() <= n <= s.len(),
            Err(_) => true,
        },
{
    lemma_varint_parse_bounds(s, VARINT_MAX_LEN as nat);
}

} // verus!
