//! Integer encodings of the wire format: LEB128 varints, zig-zag signed
//! varints and fixed-width little-endian integers.
use integer_encoding::FixedIntReader;
use integer_encoding::FixedIntWriter;
use integer_encoding::VarIntReader;
use integer_encoding::VarIntWriter;
use vstd::bytes::*;
use vstd::prelude::*;
use vstd::slice::*;

verus! {

/// A read position in a byte slice.
pub struct Cursor<'a> {
    pub data: &'a [u8],
    pub pos: usize,
}

impl<'a> Cursor<'a> {
    /// The position lies within the data.
    pub open spec fn wf(&self) -> bool {
        self.pos <= self.data@.len()
    }

    /// The bytes not yet read.
    pub open spec fn remaining(&self) -> Seq<u8> {
        self.data@.skip(self.pos as int)
    }

    /// A cursor at the start of `data`.
    pub fn new(data: &'a [u8]) -> (r: Self)
        ensures
            r.wf(),
            r.data@ == data@,
            r.pos == 0,
            r.remaining() == data@,
    {
        let r = Cursor { data, pos: 0 };
        assert(r.data@.skip(0) =~= data@);
        r
    }
}

/// The varint (little-endian base-128) encoding of `x`: seven bits per byte,
/// least significant group first, the high bit set on every byte but the last.
pub open spec fn varint_bytes(x: nat) -> Seq<u8>
    decreases x,
{
    if x < 128 {
        seq![x as u8]
    } else {
        seq![(x % 128 + 128) as u8] + varint_bytes(x / 128)
    }
}

/// Value and length of the varint at the front of `s`, if one ends within the
/// first `limit` bytes.
pub open spec fn varint_parse(s: Seq<u8>, limit: nat) -> Option<(nat, nat)>
    decreases limit,
{
    if limit == 0 || s.len() == 0 {
        None
    } else if s[0] < 128 {
        Some((s[0] as nat, 1nat))
    } else {
        match varint_parse(s.skip(1), (limit - 1) as nat) {
            Some((v, n)) => Some(((s[0] - 128) as nat + 128 * v, n + 1)),
            None => None,
        }
    }
}

/// The most bytes a 64-bit varint may take.
pub const VARINT_MAX_LEN: usize = 10;

/// The unsigned 64-bit varint at the front of `s`, with its length.
pub open spec fn varint_u64_parse(s: Seq<u8>) -> Option<(u64, nat)> {
    match varint_parse(s, VARINT_MAX_LEN as nat) {
        Some((v, n)) => if v <= u64::MAX {
            Some((v as u64, n))
        } else {
            None
        },
        None => None,
    }
}

/// Zig-zag image of a signed integer: 0, -1, 1, -2, ... go to 0, 1, 2, 3, ...
pub open spec fn zigzag(x: int) -> nat {
    if x >= 0 {
        (2 * x) as nat
    } else {
        (-2 * x - 1) as nat
    }
}

/// Inverse of [`zigzag`].
pub open spec fn unzigzag(u: nat) -> int {
    if u % 2 == 0 {
        (u / 2) as int
    } else {
        -((u / 2) as int) - 1
    }
}

/// The signed 64-bit varint at the front of `s`, with its length.
pub open spec fn varint_i64_parse(s: Seq<u8>) -> Option<(i64, nat)> {
    match varint_u64_parse(s) {
        Some((u, n)) => Some((unzigzag(u as nat) as i64, n)),
        None => None,
    }
}

/// Calls `VarIntWriter::write_varint::<u64>` on a byte vector. The crate
/// encodes the value into at most ten bytes, low seven bits first with the
/// high bit as continuation mark, and appends them; writing to a vector
/// cannot fail.
#[verifier::external_body]
pub(crate) fn write_varint_u64(buf: &mut Vec<u8>, x: u64)
    ensures
        final(buf)@ == old(buf)@ + varint_bytes(x as nat),
{
    buf.write_varint(x).unwrap();
}

/// Calls `VarIntWriter::write_varint::<i64>` on a byte vector. The crate
/// zig-zag encodes the value and writes the result as an unsigned varint.
#[verifier::external_body]
pub(crate) fn write_varint_i64(buf: &mut Vec<u8>, x: i64)
    ensures
        final(buf)@ == old(buf)@ + varint_bytes(zigzag(x as int)),
{
    buf.write_varint(x).unwrap();
}

/// Calls `VarIntReader::read_varint::<u64>` on a cursor over `data[pos..]`.
/// The crate reads bytes up to and including the first one without the
/// continuation bit, refuses an eleventh byte, a tenth byte above one and an
/// input that ends before the varint does, and sums the seven-bit groups.
/// Returns the value and the position after the varint.
#[verifier::external_body]
pub(crate) fn read_varint_u64(data: &[u8], pos: usize) -> (r: Option<(u64, usize)>)
    requires
        pos <= data@.len(),
    ensures
        r == match varint_u64_parse(data@.skip(pos as int)) {
            Some((v, n)) => Some((v, (pos + n) as usize)),
            None => None::<(u64, usize)>,
        },
{
    let mut cursor = std::io::Cursor::new(&data[pos..]);
    match cursor.read_varint::<u64>() {
        Ok(v) => Some((v, pos + cursor.position() as usize)),
        Err(_) => None,
    }
}

/// Calls `VarIntReader::read_varint::<i64>` on a cursor over `data[pos..]`:
/// the unsigned varint as above, then the zig-zag decoding of its value.
#[verifier::external_body]
pub(crate) fn read_varint_i64(data: &[u8], pos: usize) -> (r: Option<(i64, usize)>)
    requires
        pos <= data@.len(),
    ensures
        r == match varint_i64_parse(data@.skip(pos as int)) {
            Some((v, n)) => Some((v, (pos + n) as usize)),
            None => None::<(i64, usize)>,
        },
{
    let mut cursor = std::io::Cursor::new(&data[pos..]);
    match cursor.read_varint::<i64>() {
        Ok(v) => Some((v, pos + cursor.position() as usize)),
        Err(_) => None,
    }
}

/// Calls `FixedIntWriter::write_fixedint::<u8>` on a byte vector, which
/// appends the one byte.
#[verifier::external_body]
pub(crate) fn write_fixed_u8(buf: &mut Vec<u8>, x: u8)
    ensures
        final(buf)@ == old(buf)@.push(x),
{
    buf.write_fixedint(x).unwrap();
}

/// Calls `FixedIntWriter::write_fixedint::<u32>` on a byte vector, which
/// appends the four bytes of `x`, least significant first.
#[verifier::external_body]
pub(crate) fn write_fixed_u32(buf: &mut Vec<u8>, x: u32)
    ensures
        final(buf)@ == old(buf)@ + spec_u32_to_le_bytes(x),
{
    buf.write_fixedint(x).unwrap();
}

/// Calls `FixedIntWriter::write_fixedint::<u64>` on a byte vector, which
/// appends the eight bytes of `x`, least significant first.
#[verifier::external_body]
pub(crate) fn write_fixed_u64(buf: &mut Vec<u8>, x: u64)
    ensures
        final(buf)@ == old(buf)@ + spec_u64_to_le_bytes(x),
{
    buf.write_fixedint(x).unwrap();
}

/// Calls `FixedIntReader::read_fixedint::<u8>` on a cursor over `data[pos..]`,
/// which yields the next byte and fails at the end of the input.
#[verifier::external_body]
pub(crate) fn read_fixed_u8(data: &[u8], pos: usize) -> (r: Option<(u8, usize)>)
    requires
        pos <= data@.len(),
    ensures
        r == if pos + 1 <= data@.len() {
            Some((data@[pos as int], (pos + 1) as usize))
        } else {
            None
        },
{
    let mut cursor = std::io::Cursor::new(&data[pos..]);
    match cursor.read_fixedint::<u8>() {
        Ok(v) => Some((v, pos + 1)),
        Err(_) => None,
    }
}

/// Calls `FixedIntReader::read_fixedint::<u32>` on a cursor over
/// `data[pos..]`, which reads four bytes as a little-endian integer and fails
/// where fewer are left.
#[verifier::external_body]
pub(crate) fn read_fixed_u32(data: &[u8], pos: usize) -> (r: Option<(u32, usize)>)
    requires
        pos <= data@.len(),
    ensures
        r == if pos + 4 <= data@.len() {
            Some((spec_u32_from_le_bytes(data@.subrange(pos as int, pos + 4)), (pos + 4) as usize))
        } else {
            None
        },
{
    let mut cursor = std::io::Cursor::new(&data[pos..]);
    match cursor.read_fixedint::<u32>() {
        Ok(v) => Some((v, pos + 4)),
        Err(_) => None,
    }
}

/// Calls `FixedIntReader::read_fixedint::<u64>` on a cursor over
/// `data[pos..]`, which reads eight bytes as a little-endian integer and fails
/// where fewer are left.
#[verifier::external_body]
pub(crate) fn read_fixed_u64(data: &[u8], pos: usize) -> (r: Option<(u64, usize)>)
    requires
        pos <= data@.len(),
    ensures
        r == if pos + 8 <= data@.len() {
            Some((spec_u64_from_le_bytes(data@.subrange(pos as int, pos + 8)), (pos + 8) as usize))
        } else {
            None
        },
{
    let mut cursor = std::io::Cursor::new(&data[pos..]);
    match cursor.read_fixedint::<u64>() {
        Ok(v) => Some((v, pos + 8)),
        Err(_) => None,
    }
}

/// 128 to the power `k`.
pub open spec fn pow128(k: nat) -> nat
    decreases k,
{
    if k == 0 {
        1
    } else {
        128 * pow128((k - 1) as nat)
    }
}

/// A varint is at least one byte long.
pub proof fn lemma_varint_bytes_nonempty(x: nat)
    ensures
        varint_bytes(x).len() >= 1,
    decreases x,
{
    if x >= 128 {
        lemma_varint_bytes_nonempty(x / 128);
    }
}

/// Parsing the encoding of `x`, whatever follows it, gives `x` back and
/// consumes exactly the encoding, as long as the limit allows its length.
pub proof fn lemma_varint_roundtrip(x: nat, rest: Seq<u8>, k: nat)
    requires
        k >= 1,
        x < pow128(k),
    ensures
        varint_parse(varint_bytes(x) + rest, k) == Some((x, varint_bytes(x).len())),
        varint_bytes(x).len() <= k,
    decreases k,
{
    let s = varint_bytes(x) + rest;
    if x < 128 {
        assert(s[0] == x as u8);
    } else {
        let tail = varint_bytes(x / 128);
        assert(x / 128 < pow128((k - 1) as nat)) by {
            assert(pow128(k) == 128 * pow128((k - 1) as nat));
        }
        assert(k - 1 >= 1) by {
            assert(pow128(0) == 1);
        }
        lemma_varint_roundtrip(x / 128, rest, (k - 1) as nat);
        assert(s[0] == (x % 128 + 128) as u8);
        assert(s.skip(1) =~= tail + rest);
        assert(x % 128 + 128 * (x / 128) == x);
    }
}

/// Every unsigned 64-bit value survives encoding and parsing.
pub proof fn lemma_varint_u64_roundtrip(x: u64, rest: Seq<u8>)
    ensures
        varint_u64_parse(varint_bytes(x as nat) + rest) == Some(
            (x, varint_bytes(x as nat).len()),
        ),
        1 <= varint_bytes(x as nat).len() <= VARINT_MAX_LEN,
{
    assert(pow128(10) == 0x40_0000_0000_0000_0000) by {
        reveal_with_fuel(pow128, 11);
    }
    lemma_varint_roundtrip(x as nat, rest, 10);
    lemma_varint_bytes_nonempty(x as nat);
}

/// Zig-zag coding is a bijection between the signed and the unsigned 64-bit
/// integers.
pub proof fn lemma_zigzag_roundtrip(x: i64)
    ensures
        zigzag(x as int) <= u64::MAX,
        unzigzag(zigzag(x as int)) == x,
{
}

/// Every signed 64-bit value survives encoding and parsing.
pub proof fn lemma_varint_i64_roundtrip(x: i64, rest: Seq<u8>)
    ensures
        varint_i64_parse(varint_bytes(zigzag(x as int)) + rest) == Some(
            (x, varint_bytes(zigzag(x as int)).len()),
        ),
        1 <= varint_bytes(zigzag(x as int)).len() <= VARINT_MAX_LEN,
{
    lemma_zigzag_roundtrip(x);
    lemma_varint_u64_roundtrip(zigzag(x as int) as u64, rest);
}

/// A parsed varint is at least one byte long and lies within the input and
/// the limit.
pub proof fn lemma_varint_parse_bounds(s: Seq<u8>, k: nat)
    ensures
        match varint_parse(s, k) {
            Some((v, n)) => 1 <= n <= s.len() && n <= k,
            None => true,
        },
    decreases k,
{
    if k > 0 && s.len() > 0 && s[0] >= 128 {
        lemma_varint_parse_bounds(s.skip(1), (k - 1) as nat);
    }
}

impl<'a> Cursor<'a> {
    /// Reads an unsigned varint and moves past it; on failure the cursor
    /// stays.
    pub fn read_varint_u64(&mut self) -> (r: Option<u64>)
        requires
            old(self).wf(),
        ensures
            final(self).wf(),
            final(self).data == old(self).data,
            match varint_u64_parse(old(self).remaining()) {
                Some((v, n)) => r == Some(v) && final(self).pos == old(self).pos + n,
                None => r.is_none() && final(self).pos == old(self).pos,
            },
    {
        proof {
            lemma_varint_parse_bounds(self.remaining(), VARINT_MAX_LEN as nat);
        }
        let _total = self.data.len();
        match read_varint_u64(self.data, self.pos) {
            None => None,
            Some((v, next)) => {
                self.pos = next;
                Some(v)
            },
        }
    }

    /// Reads a signed (zig-zag) varint and moves past it; on failure the
    /// cursor stays.
    pub fn read_varint_i64(&mut self) -> (r: Option<i64>)
        requires
            old(self).wf(),
        ensures
            final(self).wf(),
            final(self).data == old(self).data,
            match varint_i64_parse(old(self).remaining()) {
                Some((v, n)) => r == Some(v) && final(self).pos == old(self).pos + n,
                None => r.is_none() && final(self).pos == old(self).pos,
            },
    {
        proof {
            lemma_varint_parse_bounds(self.remaining(), VARINT_MAX_LEN as nat);
        }
        let _total = self.data.len();
        match read_varint_i64(self.data, self.pos) {
            None => None,
            Some((v, next)) => {
                self.pos = next;
                Some(v)
            },
        }
    }

    /// Reads one byte and moves past it; `None` at the end of the data.
    pub fn read_u8(&mut self) -> (r: Option<u8>)
        requires
            old(self).wf(),
        ensures
            final(self).wf(),
            final(self).data == old(self).data,
            r == if old(self).remaining().len() >= 1 {
                Some(old(self).remaining()[0])
            } else {
                None
            },
            final(self).pos == old(self).pos + (if r.is_some() { 1int } else { 0int }),
    {
        let _total = self.data.len();
        match read_fixed_u8(self.data, self.pos) {
            None => None,
            Some((v, next)) => {
                self.pos = next;
                Some(v)
            },
        }
    }

    /// Reads four bytes as a little-endian integer and moves past them;
    /// `None`, and no move, where fewer are left.
    pub fn read_u32(&mut self) -> (r: Option<u32>)
        requires
            old(self).wf(),
        ensures
            final(self).wf(),
            final(self).data == old(self).data,
            r == if old(self).remaining().len() >= 4 {
                Some(spec_u32_from_le_bytes(old(self).remaining().subrange(0, 4)))
            } else {
                None
            },
            final(self).pos == old(self).pos + (if r.is_some() { 4int } else { 0int }),
    {
        assert(self.remaining().len() >= 4 ==> self.remaining().subrange(0, 4)
            =~= self.data@.subrange(self.pos as int, self.pos + 4));
        let _total = self.data.len();
        match read_fixed_u32(self.data, self.pos) {
            None => None,
            Some((v, next)) => {
                self.pos = next;
                Some(v)
            },
        }
    }

    /// Reads eight bytes as a little-endian integer and moves past them;
    /// `None`, and no move, where fewer are left.
    pub fn read_u64(&mut self) -> (r: Option<u64>)
        requires
            old(self).wf(),
        ensures
            final(self).wf(),
            final(self).data == old(self).data,
            r == if old(self).remaining().len() >= 8 {
                Some(spec_u64_from_le_bytes(old(self).remaining().subrange(0, 8)))
            } else {
                None
            },
            final(self).pos == old(self).pos + (if r.is_some() { 8int } else { 0int }),
    {
        assert(self.remaining().len() >= 8 ==> self.remaining().subrange(0, 8)
            =~= self.data@.subrange(self.pos as int, self.pos + 8));
        let _total = self.data.len();
        match read_fixed_u64(self.data, self.pos) {
            None => None,
            Some((v, next)) => {
                self.pos = next;
                Some(v)
            },
        }
    }

    /// Reads `len` bytes and moves past them; `None`, and no move, where
    /// fewer are left.
    pub fn read_bytes(&mut self, len: u64) -> (r: Option<Vec<u8>>)
        requires
            old(self).wf(),
        ensures
            final(self).wf(),
            final(self).data == old(self).data,
            r.is_some() == (len <= old(self).remaining().len()),
            r.is_some() ==> r.unwrap()@ == old(self).remaining().subrange(0, len as int)
                && final(self).pos == old(self).pos + len,
            r.is_none() ==> final(self).pos == old(self).pos,
    {
        let left = self.data.len() - self.pos;
        if len > left as u64 {
            None
        } else {
            let end = self.pos + len as usize;
            let bytes = slice_to_vec(slice_subrange(self.data, self.pos, end));
            assert(self.remaining().subrange(0, len as int) =~= self.data@.subrange(
                self.pos as int,
                end as int,
            ));
            self.pos = end;
            Some(bytes)
        }
    }
}

} // verus!
