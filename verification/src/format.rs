//! Atoms, the typed scalars a row is made of, and their binary encoding.
use crate::wire::lemma_varint_i64_roundtrip;
use crate::wire::lemma_varint_parse_bounds;
use crate::wire::VARINT_MAX_LEN;
use crate::wire::write_fixed_u32;
use crate::wire::write_fixed_u64;
use crate::wire::write_fixed_u8;
use crate::wire::write_varint_i64;
use crate::wire::write_varint_u64;
use crate::wire::Cursor;
use crate::wire::lemma_varint_u64_roundtrip;
use crate::wire::varint_bytes;
use crate::wire::varint_i64_parse;
use crate::wire::varint_u64_parse;
use crate::wire::zigzag;
use vstd::bytes::*;
use vstd::prelude::*;
use vstd::slice::*;
use vstd::utf8::*;

verus! {

/// The tag of a scalar type. Integers are 64 bits wide on the wire; floats are
/// carried as their IEEE-754 bit patterns.
#[derive(Debug, Clone, Copy, PartialEq, Eq, Hash, Structural)]
pub enum AtomType {
    String,
    Bytes,
    U64,
    I64,
    F32,
    F64,
    Bool,
}

/// A scalar value. `F32` and `F64` hold the bit pattern of the float, so that
/// every value, NaNs included, is kept exactly.
#[derive(Debug, PartialEq, Eq)]
pub enum AtomValue {
    String(String),
    Bytes(Vec<u8>),
    U64(u64),
    I64(i64),
    F32(u32),
    F64(u64),
    Bool(bool),
}

/// The mathematical content of an [`AtomValue`].
pub enum AtomSpec {
    String(Seq<char>),
    Bytes(Seq<u8>),
    U64(u64),
    I64(i64),
    F32(u32),
    F64(u64),
    Bool(bool),
}

impl View for AtomValue {
    type V = AtomSpec;

    open spec fn view(&self) -> AtomSpec {
        match self {
            AtomValue::String(x) => AtomSpec::String(x@),
            AtomValue::Bytes(x) => AtomSpec::Bytes(x@),
            AtomValue::U64(x) => AtomSpec::U64(*x),
            AtomValue::I64(x) => AtomSpec::I64(*x),
            AtomValue::F32(x) => AtomSpec::F32(*x),
            AtomValue::F64(x) => AtomSpec::F64(*x),
            AtomValue::Bool(x) => AtomSpec::Bool(*x),
        }
    }
}

impl AtomSpec {
    /// The tag of this value.
    pub open spec fn atom_type(self) -> AtomType {
        match self {
            AtomSpec::String(_) => AtomType::String,
            AtomSpec::Bytes(_) => AtomType::Bytes,
            AtomSpec::U64(_) => AtomType::U64,
            AtomSpec::I64(_) => AtomType::I64,
            AtomSpec::F32(_) => AtomType::F32,
            AtomSpec::F64(_) => AtomType::F64,
            AtomSpec::Bool(_) => AtomType::Bool,
        }
    }

    /// Whether the payload's length can be written as a 64-bit count, as it
    /// can for every value held in memory.
    pub open spec fn fits(self) -> bool {
        match self {
            AtomSpec::String(s) => encode_utf8(s).len() <= u64::MAX,
            AtomSpec::Bytes(b) => b.len() <= u64::MAX,
            _ => true,
        }
    }
}

/// The sentinel byte of `false`.
pub const BOOL_FALSE: u8 = 0;

/// The sentinel byte of `true`.
pub const BOOL_TRUE: u8 = 1;

/// The encoding of an atom: strings and byte vectors carry a varint length
/// before their bytes, integers are varints (zig-zag when signed), floats are
/// their bit pattern in little-endian order, a boolean is one sentinel byte.
pub open spec fn atom_bytes(v: AtomSpec) -> Seq<u8> {
    match v {
        AtomSpec::String(s) => varint_bytes(encode_utf8(s).len()) + encode_utf8(s),
        AtomSpec::Bytes(b) => varint_bytes(b.len()) + b,
        AtomSpec::U64(x) => varint_bytes(x as nat),
        AtomSpec::I64(x) => varint_bytes(zigzag(x as int)),
        AtomSpec::F32(x) => spec_u32_to_le_bytes(x),
        AtomSpec::F64(x) => spec_u64_to_le_bytes(x),
        AtomSpec::Bool(x) => seq![if x { BOOL_TRUE } else { BOOL_FALSE }],
    }
}

/// The length-prefixed payload at the front of `s`, with the bytes consumed.
pub open spec fn payload_parse(s: Seq<u8>) -> Option<(Seq<u8>, nat)> {
    match varint_u64_parse(s) {
        Some((len, n)) => if n + len <= s.len() {
            Some((s.subrange(n as int, n + len), n + len as nat))
        } else {
            None
        },
        None => None,
    }
}

/// The atom of type `t` at the front of `s`, with the bytes it takes, or
/// `None` where `s` is cut short or malformed.
pub open spec fn atom_parse(t: AtomType, s: Seq<u8>) -> Option<(AtomSpec, nat)> {
    match t {
        AtomType::String => match payload_parse(s) {
            Some((p, n)) => if valid_utf8(p) {
                Some((AtomSpec::String(decode_utf8(p)), n))
            } else {
                None
            },
            None => None,
        },
        AtomType::Bytes => match payload_parse(s) {
            Some((p, n)) => Some((AtomSpec::Bytes(p), n)),
            None => None,
        },
        AtomType::U64 => match varint_u64_parse(s) {
            Some((x, n)) => Some((AtomSpec::U64(x), n)),
            None => None,
        },
        AtomType::I64 => match varint_i64_parse(s) {
            Some((x, n)) => Some((AtomSpec::I64(x), n)),
            None => None,
        },
        AtomType::F32 => if s.len() >= 4 {
            Some((AtomSpec::F32(spec_u32_from_le_bytes(s.subrange(0, 4))), 4nat))
        } else {
            None
        },
        AtomType::F64 => if s.len() >= 8 {
            Some((AtomSpec::F64(spec_u64_from_le_bytes(s.subrange(0, 8))), 8nat))
        } else {
            None
        },
        AtomType::Bool => if s.len() >= 1 && s[0] == BOOL_FALSE {
            Some((AtomSpec::Bool(false), 1nat))
        } else if s.len() >= 1 && s[0] == BOOL_TRUE {
            Some((AtomSpec::Bool(true), 1nat))
        } else {
            None
        },
    }
}

/// A parsed atom has the type asked for and lies within the input.
pub proof fn lemma_atom_parse_shape(t: AtomType, s: Seq<u8>)
    ensures
        match atom_parse(t, s) {
            Some((v, n)) => v.atom_type() == t && n <= s.len(),
            None => true,
        },
{
    lemma_varint_parse_bounds(s, VARINT_MAX_LEN as nat);
}

/// Decoding the encoding of an atom, whatever follows it, gives the atom back
/// and consumes exactly its encoding. Float bit patterns, empty strings and
/// empty byte vectors are no exception.
pub proof fn lemma_atom_roundtrip(v: AtomSpec, rest: Seq<u8>)
    requires
        v.fits(),
    ensures
        atom_parse(v.atom_type(), atom_bytes(v) + rest) == Some((v, atom_bytes(v).len())),
{
    let s = atom_bytes(v) + rest;
    match v {
        AtomSpec::String(c) => {
            let p = encode_utf8(c);
            lemma_varint_u64_roundtrip(p.len() as u64, p + rest);
            let n = varint_bytes(p.len()).len();
            assert(s =~= varint_bytes(p.len()) + (p + rest));
            assert(s.subrange(n as int, n as int + p.len()) =~= p);
            encode_utf8_valid_utf8(c);
            encode_utf8_decode_utf8(c);
        },
        AtomSpec::Bytes(p) => {
            lemma_varint_u64_roundtrip(p.len() as u64, p + rest);
            let n = varint_bytes(p.len()).len();
            assert(s =~= varint_bytes(p.len()) + (p + rest));
            assert(s.subrange(n as int, n as int + p.len()) =~= p);
        },
        AtomSpec::U64(x) => {
            lemma_varint_u64_roundtrip(x, rest);
        },
        AtomSpec::I64(x) => {
            lemma_varint_i64_roundtrip(x, rest);
        },
        AtomSpec::F32(x) => {
            lemma_auto_spec_u32_to_from_le_bytes();
            assert(s.subrange(0, 4) =~= spec_u32_to_le_bytes(x));
        },
        AtomSpec::F64(x) => {
            lemma_auto_spec_u64_to_from_le_bytes();
            assert(s.subrange(0, 8) =~= spec_u64_to_le_bytes(x));
        },
        AtomSpec::Bool(x) => {
            assert(s[0] == if x { BOOL_TRUE } else { BOOL_FALSE });
        },
    }
}

/// Calls `String::from_utf8`, which gives the string made of exactly these
/// bytes where they are valid UTF-8, and fails otherwise.
#[verifier::external_body]
pub(crate) fn string_from_utf8(bytes: Vec<u8>) -> (r: Option<String>)
    ensures
        r.is_some() == valid_utf8(bytes@),
        r.is_some() ==> r.unwrap()@ == decode_utf8(bytes@),
{
    String::from_utf8(bytes).ok()
}

/// Appends a copy of `bytes` to `buf`.
pub fn append_bytes(buf: &mut Vec<u8>, bytes: &[u8])
    ensures
        final(buf)@ == old(buf)@ + bytes@,
{
    let mut i: usize = 0;
    while i < bytes.len()
        invariant
            i <= bytes@.len(),
            buf@ == old(buf)@ + bytes@.take(i as int),
        decreases bytes@.len() - i,
    {
        buf.push(bytes[i]);
        assert(bytes@.take(i + 1) =~= bytes@.take(i as int).push(bytes@[i as int]));
        i += 1;
    }
    assert(bytes@.take(i as int) =~= bytes@);
}

/// Reads a varint length and that many bytes after it.
fn read_payload(buf: &mut Cursor) -> (r: Option<Vec<u8>>)
    requires
        old(buf).wf(),
    ensures
        final(buf).wf(),
        final(buf).data == old(buf).data,
        match payload_parse(old(buf).remaining()) {
            Some((p, n)) => r.is_some() && r.unwrap()@ == p && final(buf).pos == old(buf).pos + n,
            None => r.is_none() && final(buf).pos == old(buf).pos,
        },
{
    let ghost s = buf.remaining();
    let start = buf.pos;
    match buf.read_varint_u64() {
        None => None,
        Some(len) => {
            let ghost n = (buf.pos - start) as nat;
            assert(buf.remaining() =~= s.skip(n as int));
            match buf.read_bytes(len) {
                None => {
                    buf.pos = start;
                    None
                },
                Some(bytes) => {
                    assert(s.subrange(n as int, n as int + len) =~= s.skip(n as int).subrange(
                        0,
                        len as int,
                    ));
                    Some(bytes)
                },
            }
        },
    }
}

impl AtomValue {
    /// The tag of this value.
    pub fn atom_type(&self) -> (r: AtomType)
        ensures
            r == self@.atom_type(),
    {
        match self {
            AtomValue::String(_) => AtomType::String,
            AtomValue::Bytes(_) => AtomType::Bytes,
            AtomValue::U64(_) => AtomType::U64,
            AtomValue::I64(_) => AtomType::I64,
            AtomValue::F32(_) => AtomType::F32,
            AtomValue::F64(_) => AtomType::F64,
            AtomValue::Bool(_) => AtomType::Bool,
        }
    }

    /// Appends the encoding of this atom to `buf`.
    pub fn encode(&self, buf: &mut Vec<u8>)
        ensures
            final(buf)@ == old(buf)@ + atom_bytes(self@),
    {
        match self {
            AtomValue::String(x) => {
                let bytes = x.as_str().as_bytes();
                write_varint_u64(buf, bytes.len() as u64);
                append_bytes(buf, bytes);
                assert(buf@ =~= old(buf)@ + atom_bytes(self@));
            },
            AtomValue::Bytes(x) => {
                write_varint_u64(buf, x.len() as u64);
                append_bytes(buf, x.as_slice());
                assert(buf@ =~= old(buf)@ + atom_bytes(self@));
            },
            AtomValue::U64(x) => {
                write_varint_u64(buf, *x);
            },
            AtomValue::I64(x) => {
                write_varint_i64(buf, *x);
            },
            AtomValue::F32(x) => {
                write_fixed_u32(buf, *x);
            },
            AtomValue::F64(x) => {
                write_fixed_u64(buf, *x);
            },
            AtomValue::Bool(x) => {
                write_fixed_u8(
                    buf,
                    if *x {
                        BOOL_TRUE
                    } else {
                        BOOL_FALSE
                    },
                );
                assert(buf@ =~= old(buf)@ + atom_bytes(self@));
            },
        }
    }

    /// Reads one atom of type `ty` at the cursor and moves the cursor past
    /// it. Where the bytes are cut short or malformed the result is `None` and
    /// the cursor stays.
    pub fn decode(ty: AtomType, buf: &mut Cursor) -> (r: Option<Self>)
        requires
            old(buf).wf(),
        ensures
            final(buf).wf(),
            final(buf).data == old(buf).data,
            match atom_parse(ty, old(buf).remaining()) {
                Some((v, n)) => r.is_some() && r.unwrap()@ == v && final(buf).pos == old(buf).pos
                    + n,
                None => r.is_none() && final(buf).pos == old(buf).pos,
            },
    {
        let ghost s = buf.remaining();
        match ty {
            AtomType::String => {
                let start = buf.pos;
                match read_payload(buf) {
                    None => None,
                    Some(bytes) => match string_from_utf8(bytes) {
                        Some(x) => Some(AtomValue::String(x)),
                        None => {
                            buf.pos = start;
                            None
                        },
                    },
                }
            },
            AtomType::Bytes => {
                match read_payload(buf) {
                    None => None,
                    Some(bytes) => Some(AtomValue::Bytes(bytes)),
                }
            },
            AtomType::U64 => {
                match buf.read_varint_u64() {
                    None => None,
                    Some(x) => Some(AtomValue::U64(x)),
                }
            },
            AtomType::I64 => {
                match buf.read_varint_i64() {
                    None => None,
                    Some(x) => Some(AtomValue::I64(x)),
                }
            },
            AtomType::F32 => {
                match buf.read_u32() {
                    None => None,
                    Some(x) => Some(AtomValue::F32(x)),
                }
            },
            AtomType::F64 => {
                match buf.read_u64() {
                    None => None,
                    Some(x) => Some(AtomValue::F64(x)),
                }
            },
            AtomType::Bool => {
                let start = buf.pos;
                match buf.read_u8() {
                    None => None,
                    Some(bit) => {
                        if bit == BOOL_FALSE {
                            Some(AtomValue::Bool(false))
                        } else if bit == BOOL_TRUE {
                            Some(AtomValue::Bool(true))
                        } else {
                            buf.pos = start;
                            None
                        }
                    },
                }
            },
        }
    }
}

/// One cell of a row: a present atom or a null.
pub type CellSpec = Option<AtomSpec>;

/// The mathematical content of a cell.
pub open spec fn cell_view(c: Option<AtomValue>) -> CellSpec {
    match c {
        Some(v) => Some(v@),
        None => None,
    }
}

/// The mathematical content of a sequence of cells.
pub open spec fn cells_view(cells: Seq<Option<AtomValue>>) -> Seq<CellSpec> {
    Seq::new(cells.len(), |i: int| cell_view(cells[i]))
}

/// Every present cell can be written (see [`AtomSpec::fits`]) and the cells
/// can be counted in 64 bits.
pub open spec fn cells_fit(cells: Seq<CellSpec>) -> bool {
    &&& cells.len() <= u64::MAX
    &&& forall|i: int| 0 <= i < cells.len() && cells[i].is_some() ==> (#[trigger] cells[i]).unwrap().fits()
}

/// Each present cell has the type of its column.
pub open spec fn cells_match(types: Seq<AtomType>, cells: Seq<CellSpec>) -> bool {
    &&& types.len() == cells.len()
    &&& forall|i: int|
        0 <= i < cells.len() && cells[i].is_some() ==> (#[trigger] cells[i]).unwrap().atom_type()
            == types[i]
}

/// The number of consecutive present cells from index `i` on.
pub open spec fn leading_somes(cells: Seq<CellSpec>, i: int) -> nat
    decreases cells.len() - i,
{
    if 0 <= i < cells.len() && cells[i].is_some() {
        1 + leading_somes(cells, i + 1)
    } else {
        0
    }
}

/// The run-length encoding of the cells from index `i` on, when `run` present
/// cells have been announced and not yet written. Whenever no cell is
/// announced, a varint announces the number of present cells that follow
/// without a gap; a null then takes no further bytes, and each announced cell
/// is written as its atom.
pub open spec fn row_bytes_from(cells: Seq<CellSpec>, i: int, run: nat) -> Seq<u8>
    decreases cells.len() - i,
{
    if !(0 <= i < cells.len()) {
        Seq::empty()
    } else if run > 0 {
        atom_bytes(cells[i].unwrap()) + row_bytes_from(cells, i + 1, (run - 1) as nat)
    } else {
        let k = leading_somes(cells, i);
        if k == 0 {
            varint_bytes(0) + row_bytes_from(cells, i + 1, 0)
        } else {
            varint_bytes(k) + (atom_bytes(cells[i].unwrap()) + row_bytes_from(
                cells,
                i + 1,
                (k - 1) as nat,
            ))
        }
    }
}

/// The run-length encoding of a whole row.
pub open spec fn row_bytes(cells: Seq<CellSpec>) -> Seq<u8> {
    row_bytes_from(cells, 0, 0)
}

/// The cells of the columns from index `i` on, read from the front of `s`
/// with `run` present cells still announced, and the bytes they take. A
/// varint is read whenever no cell is announced; zero stands for a null.
#[verifier::opaque]
pub open spec fn row_parse_from(types: Seq<AtomType>, i: int, s: Seq<u8>, run: nat) -> Option<
    (Seq<CellSpec>, nat),
>
    decreases types.len() - i, (if run > 0 { 0int } else { 1int }),
{
    if !(0 <= i < types.len()) {
        Some((Seq::empty(), 0nat))
    } else if run > 0 {
        match atom_parse(types[i], s) {
            Some((v, n)) => match row_parse_from(types, i + 1, s.skip(n as int), (run - 1) as nat) {
                Some((rest, m)) => Some((seq![Some(v)] + rest, n + m)),
                None => None,
            },
            None => None,
        }
    } else {
        match varint_u64_parse(s) {
            Some((k, n)) => if k == 0 {
                match row_parse_from(types, i + 1, s.skip(n as int), 0) {
                    Some((rest, m)) => Some((seq![None] + rest, n + m)),
                    None => None,
                }
            } else {
                match row_parse_from(types, i, s.skip(n as int), k as nat) {
                    Some((cells, m)) => Some((cells, n + m)),
                    None => None,
                }
            },
            None => None,
        }
    }
}

/// What the parser does at column `i`, in one step.
pub proof fn lemma_row_parse_step(types: Seq<AtomType>, i: int, s: Seq<u8>, run: nat)
    ensures
        row_parse_from(types, i, s, run) == if !(0 <= i < types.len()) {
            Some((Seq::<CellSpec>::empty(), 0nat))
        } else if run > 0 {
            match atom_parse(types[i], s) {
                Some((v, n)) => match row_parse_from(
                    types,
                    i + 1,
                    s.skip(n as int),
                    (run - 1) as nat,
                ) {
                    Some((rest, m)) => Some((seq![Some(v)] + rest, n + m)),
                    None => None,
                },
                None => None,
            }
        } else {
            match varint_u64_parse(s) {
                Some((k, n)) => if k == 0 {
                    match row_parse_from(types, i + 1, s.skip(n as int), 0) {
                        Some((rest, m)) => Some((seq![None] + rest, n + m)),
                        None => None,
                    }
                } else {
                    match row_parse_from(types, i, s.skip(n as int), k as nat) {
                        Some((cells, m)) => Some((cells, n + m)),
                        None => None,
                    }
                },
                None => None,
            }
        },
{
    reveal(row_parse_from);
}

/// A parsed row has one cell for each column, each present cell of the
/// column's type, and lies within the input.
pub proof fn lemma_row_parse_shape(types: Seq<AtomType>, i: int, s: Seq<u8>, run: nat)
    requires
        0 <= i <= types.len(),
    ensures
        match row_parse_from(types, i, s, run) {
            Some((cells, n)) => cells.len() == types.len() - i && n <= s.len() && forall|j: int|
                0 <= j < cells.len() && cells[j].is_some() ==> (#[trigger] cells[j]).unwrap().atom_type()
                    == types[i + j],
            None => true,
        },
    decreases types.len() - i, (if run > 0 { 0int } else { 1int }),
{
    lemma_row_parse_step(types, i, s, run);
    if i < types.len() {
        if run > 0 {
            match atom_parse(types[i], s) {
                Some((v, n)) => {
                    lemma_atom_parse_shape(types[i], s);
                    lemma_row_parse_shape(types, i + 1, s.skip(n as int), (run - 1) as nat);
                },
                None => {},
            }
        } else {
            lemma_varint_parse_bounds(s, VARINT_MAX_LEN as nat);
            match varint_u64_parse(s) {
                Some((k, n)) => {
                    if k == 0 {
                        lemma_row_parse_shape(types, i + 1, s.skip(n as int), 0);
                    } else {
                        lemma_row_parse_shape(types, i, s.skip(n as int), k as nat);
                    }
                },
                None => {},
            }
        }
    }
}

/// The cells of a whole row read from the front of `s`.
pub open spec fn row_parse(types: Seq<AtomType>, s: Seq<u8>) -> Option<(Seq<CellSpec>, nat)> {
    row_parse_from(types, 0, s, 0)
}

/// The announced cells are present.
proof fn lemma_leading_somes(cells: Seq<CellSpec>, i: int)
    requires
        0 <= i,
    ensures
        i + leading_somes(cells, i) <= cells.len() || leading_somes(cells, i) == 0,
        leading_somes(cells, i) > 0 ==> i < cells.len() && cells[i].is_some() && leading_somes(
            cells,
            i + 1,
        ) == leading_somes(cells, i) - 1,
    decreases cells.len() - i,
{
    if i < cells.len() && cells[i].is_some() {
        lemma_leading_somes(cells, i + 1);
    }
}

/// One step of the parser on an announced cell.
proof fn lemma_parse_announced(
    types: Seq<AtomType>,
    i: int,
    run: nat,
    v: AtomSpec,
    tail: Seq<u8>,
    rest_cells: Seq<CellSpec>,
    m: nat,
)
    requires
        0 <= i < types.len(),
        run > 0,
        v.fits(),
        v.atom_type() == types[i],
        row_parse_from(types, i + 1, tail, (run - 1) as nat) == Some((rest_cells, m)),
    ensures
        row_parse_from(types, i, atom_bytes(v) + tail, run) == Some(
            (seq![Some(v)] + rest_cells, atom_bytes(v).len() + m),
        ),
{
    let s = atom_bytes(v) + tail;
    lemma_atom_roundtrip(v, tail);
    assert(s.skip(atom_bytes(v).len() as int) =~= tail);
    lemma_row_parse_step(types, i, s, run);
}

/// One step of the parser on the announcement of a null.
proof fn lemma_parse_null(
    types: Seq<AtomType>,
    i: int,
    tail: Seq<u8>,
    rest_cells: Seq<CellSpec>,
    m: nat,
)
    requires
        0 <= i < types.len(),
        row_parse_from(types, i + 1, tail, 0) == Some((rest_cells, m)),
    ensures
        row_parse_from(types, i, varint_bytes(0) + tail, 0) == Some(
            (seq![None::<AtomSpec>] + rest_cells, varint_bytes(0).len() + m),
        ),
{
    let s = varint_bytes(0) + tail;
    lemma_varint_u64_roundtrip(0, tail);
    assert(s.skip(varint_bytes(0).len() as int) =~= tail);
    lemma_row_parse_step(types, i, s, 0);
}

/// One step of the parser on the announcement of a run of present cells.
proof fn lemma_parse_count(
    types: Seq<AtomType>,
    i: int,
    k: u64,
    tail: Seq<u8>,
    found: Seq<CellSpec>,
    m: nat,
)
    requires
        0 <= i < types.len(),
        k > 0,
        row_parse_from(types, i, tail, k as nat) == Some((found, m)),
    ensures
        row_parse_from(types, i, varint_bytes(k as nat) + tail, 0) == Some(
            (found, varint_bytes(k as nat).len() + m),
        ),
{
    let s = varint_bytes(k as nat) + tail;
    lemma_varint_u64_roundtrip(k, tail);
    assert(s.skip(varint_bytes(k as nat).len() as int) =~= tail);
    lemma_row_parse_step(types, i, s, 0);
}

/// Round trip of the run-length row encoding from any column and any state
/// of the run counter that the encoder can be in.
pub proof fn lemma_row_roundtrip_from(
    types: Seq<AtomType>,
    cells: Seq<CellSpec>,
    i: int,
    run: nat,
    rest: Seq<u8>,
)
    requires
        cells_fit(cells),
        cells_match(types, cells),
        0 <= i <= cells.len(),
        run <= leading_somes(cells, i),
    ensures
        row_parse_from(types, i, row_bytes_from(cells, i, run) + rest, run) == Some(
            (cells.skip(i), row_bytes_from(cells, i, run).len()),
        ),
    decreases cells.len() - i, (if run > 0 { 0int } else { 1int }),
{
    let s = row_bytes_from(cells, i, run) + rest;
    if i == cells.len() {
        assert(cells.skip(i) =~= Seq::empty());
        lemma_row_parse_step(types, i, s, run);
    } else if run > 0 {
        lemma_leading_somes(cells, i);
        let v = cells[i].unwrap();
        let tail = row_bytes_from(cells, i + 1, (run - 1) as nat);
        lemma_row_roundtrip_from(types, cells, i + 1, (run - 1) as nat, rest);
        lemma_parse_announced(types, i, run, v, tail + rest, cells.skip(i + 1), tail.len());
        assert(s =~= atom_bytes(v) + (tail + rest));
        assert(seq![Some(v)] + cells.skip(i + 1) =~= cells.skip(i));
    } else {
        let k = leading_somes(cells, i);
        lemma_leading_somes(cells, i);
        if k == 0 {
            let tail = row_bytes_from(cells, i + 1, 0);
            lemma_row_roundtrip_from(types, cells, i + 1, 0, rest);
            assert(seq![None::<AtomSpec>] + cells.skip(i + 1) =~= cells.skip(i));
            lemma_parse_null(types, i, tail + rest, cells.skip(i + 1), tail.len());
            assert(s =~= varint_bytes(0) + (tail + rest));
        } else {
            let tail = row_bytes_from(cells, i, k);
            lemma_row_roundtrip_from(types, cells, i, k, rest);
            lemma_parse_count(types, i, k as u64, tail + rest, cells.skip(i), tail.len());
            assert(s =~= varint_bytes(k) + (tail + rest));
        }
    }
}

/// Decoding the run-length encoding of a row, whatever follows it, gives the
/// row back and consumes exactly its encoding.
pub proof fn lemma_row_roundtrip(types: Seq<AtomType>, cells: Seq<CellSpec>, rest: Seq<u8>)
    requires
        cells_fit(cells),
        cells_match(types, cells),
    ensures
        row_parse(types, row_bytes(cells) + rest) == Some((cells, row_bytes(cells).len())),
{
    lemma_row_roundtrip_from(types, cells, 0, 0, rest);
    assert(cells.skip(0) =~= cells);
}

/// A column: its dotted path and the type of its cells.
#[derive(Debug, PartialEq, Eq)]
pub struct AtomScheme {
    pub name: String,
    pub atom_type: AtomType,
}

/// The mathematical content of an [`AtomScheme`].
pub struct AtomSchemeSpec {
    pub name: Seq<char>,
    pub atom_type: AtomType,
}

impl View for AtomScheme {
    type V = AtomSchemeSpec;

    open spec fn view(&self) -> AtomSchemeSpec {
        AtomSchemeSpec { name: self.name@, atom_type: self.atom_type }
    }
}

impl Clone for AtomScheme {
    fn clone(&self) -> (r: Self)
        ensures
            r@ == self@,
    {
        AtomScheme { name: self.name.clone(), atom_type: self.atom_type }
    }
}

impl AtomScheme {
    /// Whether two columns have the same name and the same type.
    pub fn same(&self, other: &AtomScheme) -> (r: bool)
        ensures
            r == (self@ == other@),
    {
        self.atom_type == other.atom_type && self.name == other.name
    }
}

/// The mathematical content of a column list.
pub open spec fn schemes_view(schemes: Seq<AtomScheme>) -> Seq<AtomSchemeSpec> {
    Seq::new(schemes.len(), |i: int| schemes[i]@)
}

/// The types of a column list.
pub open spec fn scheme_types(schemes: Seq<AtomSchemeSpec>) -> Seq<AtomType> {
    Seq::new(schemes.len(), |i: int| schemes[i].atom_type)
}

impl Clone for AtomValue {
    fn clone(&self) -> (r: Self)
        ensures
            r@ == self@,
    {
        match self {
            AtomValue::String(x) => AtomValue::String(x.clone()),
            AtomValue::Bytes(x) => {
                let copy = slice_to_vec(x.as_slice());
                AtomValue::Bytes(copy)
            },
            AtomValue::U64(x) => AtomValue::U64(*x),
            AtomValue::I64(x) => AtomValue::I64(*x),
            AtomValue::F32(x) => AtomValue::F32(*x),
            AtomValue::F64(x) => AtomValue::F64(*x),
            AtomValue::Bool(x) => AtomValue::Bool(*x),
        }
    }
}

/// A copy of a cell.
pub fn clone_cell(cell: &Option<AtomValue>) -> (r: Option<AtomValue>)
    ensures
        cell_view(r) == cell_view(*cell),
{
    match cell {
        Some(v) => Some(v.clone()),
        None => None,
    }
}

/// A copy of a list of cells.
pub fn clone_cells(cells: &[Option<AtomValue>]) -> (r: Vec<Option<AtomValue>>)
    ensures
        cells_view(r@) == cells_view(cells@),
{
    let mut copy: Vec<Option<AtomValue>> = Vec::new();
    let mut i: usize = 0;
    while i < cells.len()
        invariant
            i <= cells@.len(),
            copy@.len() == i,
            forall|j: int| 0 <= j < i ==> cell_view(#[trigger] copy@[j]) == cell_view(cells@[j]),
        decreases cells@.len() - i,
    {
        copy.push(clone_cell(&cells[i]));
        i += 1;
    }
    assert(cells_view(copy@) =~= cells_view(cells@));
    copy
}

impl AtomValue {
    /// The string, if this is a `String` atom.
    pub fn string(&self) -> (r: Option<&String>)
        ensures
            r.is_some() == (self@.atom_type() == AtomType::String),
            r.is_some() ==> self@ == AtomSpec::String(r.unwrap()@),
    {
        match self {
            AtomValue::String(x) => Some(x),
            _ => None,
        }
    }

    /// The bytes, if this is a `Bytes` atom.
    pub fn bytes(&self) -> (r: Option<&Vec<u8>>)
        ensures
            r.is_some() == (self@.atom_type() == AtomType::Bytes),
            r.is_some() ==> self@ == AtomSpec::Bytes(r.unwrap()@),
    {
        match self {
            AtomValue::Bytes(x) => Some(x),
            _ => None,
        }
    }

    /// The integer, if this is a `U64` atom.
    pub fn u64(&self) -> (r: Option<u64>)
        ensures
            r.is_some() == (self@.atom_type() == AtomType::U64),
            r.is_some() ==> self@ == AtomSpec::U64(r.unwrap()),
    {
        match self {
            AtomValue::U64(x) => Some(*x),
            _ => None,
        }
    }

    /// The integer, if this is an `I64` atom.
    pub fn i64(&self) -> (r: Option<i64>)
        ensures
            r.is_some() == (self@.atom_type() == AtomType::I64),
            r.is_some() ==> self@ == AtomSpec::I64(r.unwrap()),
    {
        match self {
            AtomValue::I64(x) => Some(*x),
            _ => None,
        }
    }

    /// The bit pattern of the float, if this is an `F32` atom.
    pub fn f32_bits(&self) -> (r: Option<u32>)
        ensures
            r.is_some() == (self@.atom_type() == AtomType::F32),
            r.is_some() ==> self@ == AtomSpec::F32(r.unwrap()),
    {
        match self {
            AtomValue::F32(x) => Some(*x),
            _ => None,
        }
    }

    /// The bit pattern of the float, if this is an `F64` atom.
    pub fn f64_bits(&self) -> (r: Option<u64>)
        ensures
            r.is_some() == (self@.atom_type() == AtomType::F64),
            r.is_some() ==> self@ == AtomSpec::F64(r.unwrap()),
    {
        match self {
            AtomValue::F64(x) => Some(*x),
            _ => None,
        }
    }

    /// The boolean, if this is a `Bool` atom.
    pub fn bool(&self) -> (r: Option<bool>)
        ensures
            r.is_some() == (self@.atom_type() == AtomType::Bool),
            r.is_some() ==> self@ == AtomSpec::Bool(r.unwrap()),
    {
        match self {
            AtomValue::Bool(x) => Some(*x),
            _ => None,
        }
    }
}

/// One row: a cell for each column.
#[derive(Debug, PartialEq, Eq)]
pub struct ValueRow {
    atoms: Vec<Option<AtomValue>>,
}

impl View for ValueRow {
    type V = Seq<CellSpec>;

    closed spec fn view(&self) -> Seq<CellSpec> {
        cells_view(self.atoms@)
    }
}

impl Clone for ValueRow {
    fn clone(&self) -> (r: Self)
        ensures
            r@ == self@,
    {
        ValueRow { atoms: clone_cells(self.atoms.as_slice()) }
    }
}

impl ValueRow {
    /// The row made of these cells.
    pub fn new(atoms: Vec<Option<AtomValue>>) -> (r: Self)
        ensures
            r@ == cells_view(atoms@),
    {
        ValueRow { atoms }
    }

    /// The cells of the row.
    pub fn atoms(&self) -> (r: &Vec<Option<AtomValue>>)
        ensures
            cells_view(r@) == self@,
    {
        &self.atoms
    }

    /// The cells of the row, by value.
    pub fn into_atoms(self) -> (r: Vec<Option<AtomValue>>)
        ensures
            cells_view(r@) == self@,
    {
        self.atoms
    }

    /// Appends the run-length encoding of the row to `buf`.
    pub fn encode(&self, buf: &mut Vec<u8>)
        ensures
            final(buf)@ == old(buf)@ + row_bytes(self@),
    {
        let ghost cells = self@;
        let mut run: usize = 0;
        let mut i: usize = 0;
        let n = self.atoms.len();
        assert(old(buf)@ + Seq::<u8>::empty() =~= old(buf)@);
        while i < n
            invariant
                n == self.atoms@.len(),
                cells == cells_view(self.atoms@),
                i <= n,
                run <= leading_somes(cells, i as int),
                buf@ + row_bytes_from(cells, i as int, run as nat) == old(buf)@ + row_bytes(cells),
            decreases n - i,
        {
            let ghost before = buf@;
            let ghost announced = run > 0;
            proof {
                lemma_leading_somes(cells, i as int);
            }
            if run == 0 {
                let mut j: usize = i;
                while j < n && self.atoms[j].is_some()
                    invariant
                        n == self.atoms@.len(),
                        cells == cells_view(self.atoms@),
                        i <= j <= n,
                        leading_somes(cells, i as int) == (j - i) + leading_somes(cells, j as int),
                    decreases n - j,
                {
                    j += 1;
                }
                run = j - i;
                write_varint_u64(buf, run as u64);
            }
            if run == 0 {
                assert(buf@ + row_bytes_from(cells, i + 1, 0) =~= before + row_bytes_from(
                    cells,
                    i as int,
                    0,
                ));
            } else {
                match &self.atoms[i] {
                    Some(atom) => {
                        atom.encode(buf);
                        assert(buf@ + row_bytes_from(cells, i + 1, (run - 1) as nat) =~= before
                            + row_bytes_from(cells, i as int, if announced { run as nat } else { 0 }));
                    },
                    None => {
                        assert(false);
                    },
                }
                run -= 1;
            }
            i += 1;
        }
        assert(buf@ + Seq::<u8>::empty() =~= buf@);
    }

    /// Reads the cells of the columns `atom_schemes` at the cursor and moves
    /// the cursor past them. Where the bytes are cut short or malformed the
    /// result is `None` and the cursor stays.
    pub fn decode(atom_schemes: &[AtomScheme], buf: &mut Cursor) -> (r: Option<Self>)
        requires
            old(buf).wf(),
        ensures
            final(buf).wf(),
            final(buf).data == old(buf).data,
            match row_parse(scheme_types(schemes_view(atom_schemes@)), old(buf).remaining()) {
                Some((cells, n)) => r.is_some() && r.unwrap()@ == cells && final(buf).pos == old(buf).pos + n,
                None => r.is_none() && final(buf).pos == old(buf).pos,
            },
    {
        let ghost types = scheme_types(schemes_view(atom_schemes@));
        let ghost s0 = buf.remaining();
        let start = buf.pos;
        let mut atoms: Vec<Option<AtomValue>> = Vec::new();
        let mut run: u64 = 0;
        let mut i: usize = 0;
        let n = atom_schemes.len();
        assert(cells_view(atoms@) + Seq::<CellSpec>::empty() =~= Seq::<CellSpec>::empty());
        while i < n
            invariant
                n == atom_schemes@.len(),
                types == scheme_types(schemes_view(atom_schemes@)),
                i <= n,
                buf.wf(),
                buf.data == old(buf).data,
                start == old(buf).pos,
                start <= buf.pos,
                s0 == old(buf).remaining(),
                match row_parse_from(types, i as int, buf.remaining(), run as nat) {
                    Some((rest, m)) => row_parse(types, s0) == Some(
                        (cells_view(atoms@) + rest, (buf.pos - start + m) as nat),
                    ),
                    None => row_parse(types, s0).is_none(),
                },
            decreases n - i,
        {
            let ghost rem = buf.remaining();
            let ghost done = cells_view(atoms@);
            if run == 0 {
                let before = buf.pos;
                proof {
                    lemma_row_parse_step(types, i as int, rem, 0);
                }
                match buf.read_varint_u64() {
                    None => {
                        buf.pos = start;
                        return None;
                    },
                    Some(k) => {
                        assert(buf.remaining() =~= rem.skip(buf.pos - before));
                        if k == 0 {
                            atoms.push(None);
                            assert(forall|rest: Seq<CellSpec>|
                                done + (seq![None::<AtomSpec>] + rest) =~= cells_view(atoms@)
                                    + rest);
                            i += 1;
                            continue;
                        }
                        run = k;
                    },
                }
            }
            let ghost rem2 = buf.remaining();
            let before = buf.pos;
            proof {
                lemma_row_parse_step(types, i as int, rem2, run as nat);
            }
            match AtomValue::decode(atom_schemes[i].atom_type, buf) {
                None => {
                    buf.pos = start;
                    return None;
                },
                Some(atom) => {
                    assert(buf.remaining() =~= rem2.skip(buf.pos - before));
                    let ghost v = atom@;
                    atoms.push(Some(atom));
                    assert(forall|rest: Seq<CellSpec>|
                        done + (seq![Some(v)] + rest) =~= cells_view(atoms@) + rest);
                    run -= 1;
                },
            }
            i += 1;
        }
        proof {
            lemma_row_parse_step(types, i as int, buf.remaining(), run as nat);
        }
        assert(cells_view(atoms@) + Seq::<CellSpec>::empty() =~= cells_view(atoms@));
        Some(ValueRow { atoms })
    }
}

} // verus!
