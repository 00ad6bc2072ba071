//! The text stream: a header line, then one line for each row. The fields of
//! a line each end in a comma; a null is an empty field.
//!
//! Floats are not rendered or parsed here. Where a row is written, the caller
//! hands in the decimal text of each float cell; where a row is read, a float
//! cell comes back as its text.
use crate::format::append_bytes;
use crate::format::cell_view;
use crate::format::cells_match;
use crate::format::cells_view;
use crate::format::scheme_types;
use crate::format::schemes_view;
use crate::format::string_from_utf8;
use crate::format::AtomScheme;
use crate::format::AtomSchemeSpec;
use crate::format::AtomSpec;
use crate::format::AtomType;
use crate::format::AtomValue;
use crate::format::CellSpec;
use crate::format::ValueRow;
use crate::io::check_atom_types;
use crate::io::is_shifting;
use crate::io::shifted;
use crate::io::HdvShiftedHeader;
use crate::serde::HdvDeserialize;
use crate::io::HdvError;
use crate::serde::HdvScheme;
use crate::serde::HdvSerialize;
use crate::serde::ObjectScheme;
use crate::serde::ObjectSpec;
use std::marker::PhantomData;
use crate::wire::Cursor;
use vstd::prelude::*;
use vstd::slice::*;
use vstd::string::*;
use vstd::utf8::*;

verus! {

/// The byte that ends a field.
pub const COMMA: u8 = 44;

/// The byte that ends a line.
pub const NEWLINE: u8 = 10;

/// The byte of a double quote.
pub const QUOTE: u8 = 34;

/// Whether `c` is white space: a character with the Unicode property
/// `White_Space`.
pub open spec fn is_whitespace(c: char) -> bool {
    let u = c as u32;
    ||| 0x09 <= u <= 0x0d
    ||| u == 0x20
    ||| u == 0x85
    ||| u == 0xa0
    ||| u == 0x1680
    ||| 0x2000 <= u <= 0x200a
    ||| u == 0x2028
    ||| u == 0x2029
    ||| u == 0x202f
    ||| u == 0x205f
    ||| u == 0x3000
}

/// `s` without its leading white space.
pub open spec fn trim_start_spec(s: Seq<char>) -> Seq<char>
    decreases s.len(),
{
    if s.len() > 0 && is_whitespace(s[0]) {
        trim_start_spec(s.skip(1))
    } else {
        s
    }
}

/// `s` without its trailing white space.
pub open spec fn trim_end_spec(s: Seq<char>) -> Seq<char>
    decreases s.len(),
{
    if s.len() > 0 && is_whitespace(s.last()) {
        trim_end_spec(s.drop_last())
    } else {
        s
    }
}

/// `s` without its leading and trailing white space.
pub open spec fn trim_spec(s: Seq<char>) -> Seq<char> {
    trim_end_spec(trim_start_spec(s))
}

/// The decimal digit of `d`.
pub open spec fn digit_char(d: nat) -> char {
    ((48 + d % 10) as u8) as char
}

/// The decimal numeral of `n`, without leading zeros.
pub open spec fn decimal(n: nat) -> Seq<char>
    decreases n,
{
    if n < 10 {
        seq![digit_char(n)]
    } else {
        decimal(n / 10).push(digit_char(n % 10))
    }
}

/// The decimal numeral of `x`, with a minus sign where it is negative.
pub open spec fn signed_decimal(x: int) -> Seq<char> {
    if x < 0 {
        seq!['-'] + decimal((-x) as nat)
    } else {
        decimal(x as nat)
    }
}

/// The number that a non-empty string of decimal digits denotes.
pub open spec fn digits_value(s: Seq<char>) -> Option<nat>
    decreases s.len(),
{
    if s.len() == 0 {
        None
    } else {
        let c = s.last();
        if '0' <= c <= '9' {
            let d = (c as u32 - 48) as nat;
            if s.len() == 1 {
                Some(d)
            } else {
                match digits_value(s.drop_last()) {
                    Some(v) => Some(10 * v + d),
                    None => None,
                }
            }
        } else {
            None
        }
    }
}

/// The unsigned 64-bit integer that `s` denotes: decimal digits, after an
/// optional plus sign, of a number in range.
pub open spec fn parse_u64_spec(s: Seq<char>) -> Option<u64> {
    let digits = if s.len() > 0 && s[0] == '+' {
        s.skip(1)
    } else {
        s
    };
    match digits_value(digits) {
        Some(v) => if v <= u64::MAX {
            Some(v as u64)
        } else {
            None
        },
        None => None,
    }
}

/// The signed 64-bit integer that `s` denotes: decimal digits, after an
/// optional sign, of a number in range.
pub open spec fn parse_i64_spec(s: Seq<char>) -> Option<i64> {
    let negative = s.len() > 0 && s[0] == '-';
    let digits = if s.len() > 0 && (s[0] == '+' || s[0] == '-') {
        s.skip(1)
    } else {
        s
    };
    match digits_value(digits) {
        Some(v) => if negative && v <= 0x8000_0000_0000_0000 {
            Some((-(v as int)) as i64)
        } else if !negative && v <= i64::MAX {
            Some(v as i64)
        } else {
            None
        },
        None => None,
    }
}

/// The text of a boolean.
pub open spec fn bool_text(b: bool) -> Seq<char> {
    if b {
        "true"@
    } else {
        "false"@
    }
}

/// The boolean that `s` denotes.
pub open spec fn parse_bool_spec(s: Seq<char>) -> Option<bool> {
    if s == "true"@ {
        Some(true)
    } else if s == "false"@ {
        Some(false)
    } else {
        None
    }
}

/// Formats an unsigned integer with `format!`, which writes it in decimal
/// without sign or leading zeros.
#[verifier::external_body]
pub(crate) fn u64_text(x: u64) -> (r: String)
    ensures
        r@ == decimal(x as nat),
{
    format!("{}", x)
}

/// Formats a signed integer with `format!`, which writes it in decimal, with
/// a minus sign where it is negative.
#[verifier::external_body]
pub(crate) fn i64_text(x: i64) -> (r: String)
    ensures
        r@ == signed_decimal(x as int),
{
    format!("{}", x)
}

/// Calls `str::parse::<u64>`, which accepts decimal digits after an optional
/// plus sign and refuses anything else, the empty string and numbers out of
/// range included.
#[verifier::external_body]
pub(crate) fn parse_u64(s: &str) -> (r: Option<u64>)
    ensures
        r == parse_u64_spec(s@),
{
    s.parse::<u64>().ok()
}

/// Calls `str::parse::<i64>`, which accepts decimal digits after an optional
/// sign and refuses anything else, the empty string and numbers out of range
/// included.
#[verifier::external_body]
pub(crate) fn parse_i64(s: &str) -> (r: Option<i64>)
    ensures
        r == parse_i64_spec(s@),
{
    s.parse::<i64>().ok()
}

/// Calls `str::parse::<bool>`, which accepts `true` and `false` and nothing
/// else.
#[verifier::external_body]
pub(crate) fn parse_bool(s: &str) -> (r: Option<bool>)
    ensures
        r == parse_bool_spec(s@),
{
    s.parse::<bool>().ok()
}

/// Calls `str::trim`, which drops the leading and the trailing white space.
#[verifier::external_body]
pub(crate) fn trim(s: &str) -> (r: &str)
    ensures
        r@ == trim_spec(s@),
{
    s.trim()
}

/// Calls `str::trim_start`, which drops the leading white space.
#[verifier::external_body]
pub(crate) fn trim_start(s: &str) -> (r: &str)
    ensures
        r@ == trim_start_spec(s@),
{
    s.trim_start()
}

/// Whether `c` is white space.
pub fn is_whitespace_char(c: char) -> (r: bool)
    ensures
        r == is_whitespace(c),
{
    let u = c as u32;
    (0x09 <= u && u <= 0x0d) || u == 0x20 || u == 0x85 || u == 0xa0 || u == 0x1680 || (0x2000 <= u
        && u <= 0x200a) || u == 0x2028 || u == 0x2029 || u == 0x202f || u == 0x205f || u == 0x3000
}

/// Whether a text cannot stand in a field as it is: it holds a comma, a
/// double quote or a line feed, or begins with white space.
pub open spec fn forbidden(s: Seq<char>) -> bool {
    ||| encode_utf8(s).contains(COMMA)
    ||| encode_utf8(s).contains(QUOTE)
    ||| encode_utf8(s).contains(NEWLINE)
    ||| (s.len() > 0 && is_whitespace(s[0]))
}

/// Whether a text cannot stand in a field as it is.
pub fn is_forbidden(s: &str) -> (r: bool)
    ensures
        r == forbidden(s@),
{
    let bytes = s.as_bytes();
    let mut i: usize = 0;
    while i < bytes.len()
        invariant
            i <= bytes@.len(),
            bytes@ == encode_utf8(s@),
            forall|j: int|
                0 <= j < i ==> bytes@[j] != COMMA && bytes@[j] != QUOTE && bytes@[j] != NEWLINE,
        decreases bytes@.len() - i,
    {
        let b = bytes[i];
        if b == COMMA || b == QUOTE || b == NEWLINE {
            return true;
        }
        i += 1;
    }
    if s.is_empty() {
        false
    } else {
        is_whitespace_char(s.get_char(0))
    }
}

/// The content of a list of strings.
pub open spec fn texts_view(texts: Seq<String>) -> Seq<Seq<char>> {
    Seq::new(texts.len(), |i: int| texts[i]@)
}

/// The text handed in for the float at place `i`, empty where there is none.
pub open spec fn text_at(texts: Seq<Seq<char>>, i: int) -> Seq<char> {
    if 0 <= i < texts.len() {
        texts[i]
    } else {
        Seq::empty()
    }
}

/// The text of a present cell, or `None` where it cannot be written: an
/// integer or a boolean in its usual form, a string as it is unless it holds
/// a forbidden character, a float as the text handed in for it unless that is
/// empty or holds a forbidden character, a byte vector never.
pub open spec fn field_text(v: AtomSpec, float_text: Seq<char>) -> Option<Seq<char>> {
    match v {
        AtomSpec::String(s) => if forbidden(s) {
            None
        } else {
            Some(s)
        },
        AtomSpec::Bytes(_) => None,
        AtomSpec::U64(x) => Some(decimal(x as nat)),
        AtomSpec::I64(x) => Some(signed_decimal(x as int)),
        AtomSpec::F32(_) => if forbidden(float_text) || float_text.len() == 0 {
            None
        } else {
            Some(float_text)
        },
        AtomSpec::F64(_) => if forbidden(float_text) || float_text.len() == 0 {
            None
        } else {
            Some(float_text)
        },
        AtomSpec::Bool(b) => Some(bool_text(b)),
    }
}

/// The bytes of a field before its comma: none for a null.
pub open spec fn cell_field(c: CellSpec, float_text: Seq<char>) -> Option<Seq<u8>> {
    match c {
        None => Some(Seq::empty()),
        Some(v) => match field_text(v, float_text) {
            Some(t) => Some(encode_utf8(t)),
            None => None,
        },
    }
}

/// The bytes of the first `k` fields of a row, each with its comma, or `None`
/// where one of them cannot be written.
pub open spec fn line_prefix(cells: Seq<CellSpec>, float_texts: Seq<Seq<char>>, k: int) -> Option<
    Seq<u8>,
>
    decreases k,
{
    if k <= 0 {
        Some(Seq::empty())
    } else {
        match line_prefix(cells, float_texts, k - 1) {
            Some(p) => match cell_field(cells[k - 1], text_at(float_texts, k - 1)) {
                Some(f) => Some(p + f + seq![COMMA]),
                None => None,
            },
            None => None,
        }
    }
}

/// The line of a row: its fields, each followed by a comma, and a line feed.
pub open spec fn row_line(cells: Seq<CellSpec>, float_texts: Seq<Seq<char>>) -> Option<Seq<u8>> {
    match line_prefix(cells, float_texts, cells.len() as int) {
        Some(p) => Some(p + seq![NEWLINE]),
        None => None,
    }
}

/// Appends the bytes of one present cell's field, without the comma, or
/// reports that it cannot be written and appends nothing.
pub fn write_field(out: &mut Vec<u8>, value: &AtomValue, float_text: &str) -> (r: bool)
    ensures
        match field_text(value@, float_text@) {
            Some(t) => r && final(out)@ == old(out)@ + encode_utf8(t),
            None => !r && final(out)@ == old(out)@,
        },
{
    match value {
        AtomValue::String(x) => {
            if is_forbidden(x.as_str()) {
                false
            } else {
                append_bytes(out, x.as_str().as_bytes());
                true
            }
        },
        AtomValue::Bytes(_) => false,
        AtomValue::U64(x) => {
            let text = u64_text(*x);
            append_bytes(out, text.as_str().as_bytes());
            true
        },
        AtomValue::I64(x) => {
            let text = i64_text(*x);
            append_bytes(out, text.as_str().as_bytes());
            true
        },
        AtomValue::F32(_) => {
            if float_text.is_empty() || is_forbidden(float_text) {
                false
            } else {
                append_bytes(out, float_text.as_bytes());
                true
            }
        },
        AtomValue::F64(_) => {
            if float_text.is_empty() || is_forbidden(float_text) {
                false
            } else {
                append_bytes(out, float_text.as_bytes());
                true
            }
        },
        AtomValue::Bool(x) => {
            if *x {
                append_bytes(out, "true".as_bytes());
            } else {
                append_bytes(out, "false".as_bytes());
            }
            true
        },
    }
}

/// Appends the line of `row`. `float_texts[i]` is the decimal text of the
/// cell at place `i` where that cell is a float; it is not looked at
/// otherwise. A row with a cell that cannot be written is refused with
/// `WriteForbidden`, and nothing is appended.
pub fn write_row(out: &mut Vec<u8>, row: &ValueRow, float_texts: &[String]) -> (r: Result<
    (),
    HdvError,
>)
    ensures
        match row_line(row@, texts_view(float_texts@)) {
            Some(line) => r.is_ok() && final(out)@ == old(out)@ + line,
            None => r == Err::<(), HdvError>(HdvError::WriteForbidden) && final(out)@ == old(out)@,
        },
{
    let atoms = row.atoms();
    let ghost cells = row@;
    let ghost texts = texts_view(float_texts@);
    let mut line: Vec<u8> = Vec::new();
    let mut k: usize = 0;
    while k < atoms.len()
        invariant
            k <= atoms@.len(),
            cells == cells_view(atoms@),
            cells == row@,
            texts == texts_view(float_texts@),
            line_prefix(cells, texts, k as int) == Some(line@),
        decreases atoms@.len() - k,
    {
        let ghost before = line@;
        match &atoms[k] {
            None => {},
            Some(value) => {
                let ok = if k < float_texts.len() {
                    write_field(&mut line, value, float_texts[k].as_str())
                } else {
                    write_field(&mut line, value, "")
                };
                proof {
                    reveal_strlit("");
                    assert(""@ =~= Seq::<char>::empty());
                }
                if !ok {
                    assert(line_prefix(cells, texts, k + 1).is_none());
                    proof {
                        lemma_line_prefix_none(cells, texts, k + 1, cells.len() as int);
                    }
                    return Err(HdvError::WriteForbidden);
                }
            },
        }
        line.push(COMMA);
        assert(line@ =~= before + cell_field(cells[k as int], text_at(texts, k as int)).unwrap()
            + seq![COMMA]);
        k += 1;
    }
    line.push(NEWLINE);
    append_bytes(out, line.as_slice());
    Ok(())
}

/// Once a field cannot be written, no longer prefix of the row can.
proof fn lemma_line_prefix_none(cells: Seq<CellSpec>, texts: Seq<Seq<char>>, k: int, n: int)
    requires
        0 <= k <= n,
        line_prefix(cells, texts, k).is_none(),
    ensures
        line_prefix(cells, texts, n).is_none(),
    decreases n - k,
{
    if k < n {
        lemma_line_prefix_none(cells, texts, k, n - 1);
    }
}

/// A present cell as a text line gives it: the value, or, for a float, its
/// text.
#[derive(Debug, PartialEq, Eq)]
pub enum TextCell {
    Atom(AtomValue),
    Float(String),
}

/// The mathematical content of a [`TextCell`].
pub enum TextCellSpec {
    Atom(AtomSpec),
    Float(Seq<char>),
}

impl View for TextCell {
    type V = TextCellSpec;

    open spec fn view(&self) -> TextCellSpec {
        match self {
            TextCell::Atom(v) => TextCellSpec::Atom(v@),
            TextCell::Float(t) => TextCellSpec::Float(t@),
        }
    }
}

impl Clone for TextCell {
    fn clone(&self) -> (r: Self)
        ensures
            r@ == self@,
    {
        match self {
            TextCell::Atom(v) => TextCell::Atom(v.clone()),
            TextCell::Float(t) => TextCell::Float(t.clone()),
        }
    }
}

/// The content of a cell of a text line.
pub open spec fn text_cell_view(c: Option<TextCell>) -> Option<TextCellSpec> {
    match c {
        Some(v) => Some(v@),
        None => None,
    }
}

/// The content of the cells of a text line.
pub open spec fn text_cells_view(cells: Seq<Option<TextCell>>) -> Seq<Option<TextCellSpec>> {
    Seq::new(cells.len(), |i: int| text_cell_view(cells[i]))
}

/// The first place at or after `from` where `s` holds the byte `b`, or the
/// length of `s` where there is none.
pub open spec fn index_of_byte(s: Seq<u8>, b: u8, from: int) -> int
    decreases s.len() - from,
{
    if from < 0 || from >= s.len() {
        s.len() as int
    } else if s[from] == b {
        from
    } else {
        index_of_byte(s, b, from + 1)
    }
}

/// The cell that a field of a column of type `t` stands for. A field of
/// white space alone is a null. A string keeps what follows its leading
/// white space; a number or a boolean is read from the field without the
/// white space around it; a float is left as that text; a field of a byte
/// column is refused.
pub open spec fn cell_parse(t: AtomType, piece: Seq<u8>) -> Result<Option<TextCellSpec>, HdvError> {
    if !valid_utf8(piece) {
        Err(HdvError::InvalidInput)
    } else {
        let text = decode_utf8(piece);
        let inner = trim_spec(text);
        if inner.len() == 0 {
            Ok(None)
        } else {
            match t {
                AtomType::String => Ok(
                    Some(TextCellSpec::Atom(AtomSpec::String(trim_start_spec(text)))),
                ),
                AtomType::Bytes => Err(HdvError::InvalidInput),
                AtomType::U64 => match parse_u64_spec(inner) {
                    Some(x) => Ok(Some(TextCellSpec::Atom(AtomSpec::U64(x)))),
                    None => Err(HdvError::InvalidInput),
                },
                AtomType::I64 => match parse_i64_spec(inner) {
                    Some(x) => Ok(Some(TextCellSpec::Atom(AtomSpec::I64(x)))),
                    None => Err(HdvError::InvalidInput),
                },
                AtomType::F32 => Ok(Some(TextCellSpec::Float(inner))),
                AtomType::F64 => Ok(Some(TextCellSpec::Float(inner))),
                AtomType::Bool => match parse_bool_spec(inner) {
                    Some(x) => Ok(Some(TextCellSpec::Atom(AtomSpec::Bool(x)))),
                    None => Err(HdvError::InvalidInput),
                },
            }
        }
    }
}

/// The cells of the columns from `k` on, read from the fields of `line` that
/// begin at `start`. The fields are what the commas divide the line into; a
/// line with fewer fields than columns is malformed, further fields are
/// passed over.
pub open spec fn line_cells(types: Seq<AtomType>, line: Seq<u8>, k: int, start: int) -> Result<
    Seq<Option<TextCellSpec>>,
    HdvError,
>
    decreases types.len() - k,
{
    if !(0 <= k < types.len()) {
        Ok(Seq::empty())
    } else if start > line.len() {
        Err(HdvError::InvalidInput)
    } else {
        let end = index_of_byte(line, COMMA, start);
        match cell_parse(types[k], line.subrange(start, end)) {
            Ok(cell) => match line_cells(types, line, k + 1, end + 1) {
                Ok(rest) => Ok(seq![cell] + rest),
                Err(e) => Err(e),
            },
            Err(e) => Err(e),
        }
    }
}

/// The cells of a row read from a line, which must be valid UTF-8.
pub open spec fn line_parse(types: Seq<AtomType>, line: Seq<u8>) -> Result<
    Seq<Option<TextCellSpec>>,
    HdvError,
> {
    if valid_utf8(line) {
        line_cells(types, line, 0, 0)
    } else {
        Err(HdvError::InvalidInput)
    }
}

/// The place of the first byte `b` at or after `from`.
pub fn find_byte(s: &[u8], b: u8, from: usize) -> (r: usize)
    requires
        from <= s@.len(),
    ensures
        r == index_of_byte(s@, b, from as int),
        from <= r <= s@.len(),
{
    let mut i: usize = from;
    while i < s.len() && s[i] != b
        invariant
            from <= i <= s@.len(),
            index_of_byte(s@, b, from as int) == index_of_byte(s@, b, i as int),
        decreases s@.len() - i,
    {
        i += 1;
    }
    i
}

/// Reads the cell that a field of a column of type `ty` stands for.
pub fn read_cell(ty: AtomType, piece: &[u8]) -> (r: Result<Option<TextCell>, HdvError>)
    ensures
        match cell_parse(ty, piece@) {
            Ok(cell) => r.is_ok() && text_cell_view(r.unwrap()) == cell,
            Err(e) => r == Err::<Option<TextCell>, HdvError>(e),
        },
{
    let text = match string_from_utf8(slice_to_vec(piece)) {
        Some(t) => t,
        None => {
            return Err(HdvError::InvalidInput);
        },
    };
    let inner = trim(text.as_str());
    if inner.is_empty() {
        return Ok(None);
    }
    match ty {
        AtomType::String => {
            let kept = trim_start(text.as_str());
            Ok(Some(TextCell::Atom(AtomValue::String(String::from_str(kept)))))
        },
        AtomType::Bytes => Err(HdvError::InvalidInput),
        AtomType::U64 => match parse_u64(inner) {
            Some(x) => Ok(Some(TextCell::Atom(AtomValue::U64(x)))),
            None => Err(HdvError::InvalidInput),
        },
        AtomType::I64 => match parse_i64(inner) {
            Some(x) => Ok(Some(TextCell::Atom(AtomValue::I64(x)))),
            None => Err(HdvError::InvalidInput),
        },
        AtomType::F32 => Ok(Some(TextCell::Float(String::from_str(inner)))),
        AtomType::F64 => Ok(Some(TextCell::Float(String::from_str(inner)))),
        AtomType::Bool => match parse_bool(inner) {
            Some(x) => Ok(Some(TextCell::Atom(AtomValue::Bool(x)))),
            None => Err(HdvError::InvalidInput),
        },
    }
}

/// Reads the cells of the columns `atom_schemes` from a line.
pub fn read_row(line: &[u8], atom_schemes: &[AtomScheme]) -> (r: Result<
    Vec<Option<TextCell>>,
    HdvError,
>)
    ensures
        match line_parse(scheme_types(schemes_view(atom_schemes@)), line@) {
            Ok(cells) => r.is_ok() && text_cells_view(r.unwrap()@) == cells,
            Err(e) => r == Err::<Vec<Option<TextCell>>, HdvError>(e),
        },
{
    let ghost types = scheme_types(schemes_view(atom_schemes@));
    if string_from_utf8(slice_to_vec(line)).is_none() {
        return Err(HdvError::InvalidInput);
    }
    let mut cells: Vec<Option<TextCell>> = Vec::new();
    let mut k: usize = 0;
    let mut start: usize = 0;
    let mut exhausted = false;
    let n = line.len();
    assert(text_cells_view(cells@) =~= Seq::empty());
    while k < atom_schemes.len()
        invariant
            k <= atom_schemes@.len(),
            n == line@.len(),
            start <= n,
            types == scheme_types(schemes_view(atom_schemes@)),
            match line_cells(
                types,
                line@,
                k as int,
                if exhausted {
                    n + 1
                } else {
                    start as int
                },
            ) {
                Ok(rest) => line_cells(types, line@, 0, 0) == Ok::<
                    Seq<Option<TextCellSpec>>,
                    HdvError,
                >(text_cells_view(cells@) + rest),
                Err(e) => line_cells(types, line@, 0, 0) == Err::<
                    Seq<Option<TextCellSpec>>,
                    HdvError,
                >(e),
            },
        decreases atom_schemes@.len() - k,
    {
        if exhausted {
            return Err(HdvError::InvalidInput);
        }
        let end = find_byte(line, COMMA, start);
        let ghost done = text_cells_view(cells@);
        match read_cell(atom_schemes[k].atom_type, slice_subrange(line, start, end)) {
            Err(e) => {
                return Err(e);
            },
            Ok(cell) => {
                let ghost c = text_cell_view(cell);
                cells.push(cell);
                assert(forall|rest: Seq<Option<TextCellSpec>>|
                    done + (seq![c] + rest) =~= text_cells_view(cells@) + rest);
            },
        }
        if end == n {
            exhausted = true;
        } else {
            start = end + 1;
        }
        k += 1;
    }
    assert(text_cells_view(cells@) + Seq::<Option<TextCellSpec>>::empty() =~= text_cells_view(
        cells@,
    ));
    Ok(cells)
}

/// The name that stands for a type in a header line.
pub open spec fn type_label(t: AtomType) -> Seq<char> {
    match t {
        AtomType::String => "String"@,
        AtomType::Bytes => "Bytes"@,
        AtomType::U64 => "U64"@,
        AtomType::I64 => "I64"@,
        AtomType::F32 => "F32"@,
        AtomType::F64 => "F64"@,
        AtomType::Bool => "Bool"@,
    }
}

/// The type that a name stands for, if any.
pub open spec fn label_type(name: Seq<char>) -> Option<AtomType> {
    if name == "String"@ {
        Some(AtomType::String)
    } else if name == "Bytes"@ {
        Some(AtomType::Bytes)
    } else if name == "U64"@ {
        Some(AtomType::U64)
    } else if name == "I64"@ {
        Some(AtomType::I64)
    } else if name == "F32"@ {
        Some(AtomType::F32)
    } else if name == "F64"@ {
        Some(AtomType::F64)
    } else if name == "Bool"@ {
        Some(AtomType::Bool)
    } else {
        None
    }
}

/// A column list as pairs of a column name and a type name.
pub open spec fn named_columns(columns: Seq<AtomSchemeSpec>) -> Seq<(Seq<char>, Seq<char>)> {
    Seq::new(columns.len(), |i: int| (columns[i].name, type_label(columns[i].atom_type)))
}

/// Every type name of the list stands for a type.
pub open spec fn names_known(named: Seq<(Seq<char>, Seq<char>)>) -> bool {
    forall|i: int| 0 <= i < named.len() ==> label_type((#[trigger] named[i]).1).is_some()
}

/// The column list that pairs of a column name and a type name stand for.
pub open spec fn columns_of_names(named: Seq<(Seq<char>, Seq<char>)>) -> Seq<AtomSchemeSpec> {
    Seq::new(
        named.len(),
        |i: int| AtomSchemeSpec { name: named[i].0, atom_type: label_type(named[i].1).unwrap() },
    )
}

/// The text that `ron::to_string` gives for a list of pairs of strings.
pub uninterp spec fn ron_text(columns: Seq<(Seq<char>, Seq<char>)>) -> Seq<char>;

/// The list of pairs of strings that `ron::from_str` reads from `text`, or
/// `None` where it fails.
pub uninterp spec fn ron_columns(text: Seq<char>) -> Option<Seq<(Seq<char>, Seq<char>)>>;

/// Calls `ron::to_string` on a list of pairs of strings. The result is a
/// function of the list alone; the call cannot fail on such a value.
#[verifier::external_body]
pub(crate) fn ron_to_string(columns: &Vec<(String, String)>) -> (r: String)
    ensures
        r@ == ron_text(columns.deep_view()),
{
    ron::to_string(columns).unwrap()
}

/// Calls `ron::from_str` for a list of pairs of strings. The result is a
/// function of the text alone.
#[verifier::external_body]
pub(crate) fn ron_from_str(text: &str) -> (r: Option<Vec<(String, String)>>)
    ensures
        r.deep_view() == ron_columns(text@),
{
    ron::from_str(text).ok()
}

/// The name that stands for `t` in a header line.
pub fn atom_type_label(t: AtomType) -> (r: String)
    ensures
        r@ == type_label(t),
{
    match t {
        AtomType::String => String::from_str("String"),
        AtomType::Bytes => String::from_str("Bytes"),
        AtomType::U64 => String::from_str("U64"),
        AtomType::I64 => String::from_str("I64"),
        AtomType::F32 => String::from_str("F32"),
        AtomType::F64 => String::from_str("F64"),
        AtomType::Bool => String::from_str("Bool"),
    }
}

/// The type that `name` stands for in a header line.
pub fn atom_type_of_label(name: &String) -> (r: Option<AtomType>)
    ensures
        r == label_type(name@),
{
    if *name == String::from_str("String") {
        Some(AtomType::String)
    } else if *name == String::from_str("Bytes") {
        Some(AtomType::Bytes)
    } else if *name == String::from_str("U64") {
        Some(AtomType::U64)
    } else if *name == String::from_str("I64") {
        Some(AtomType::I64)
    } else if *name == String::from_str("F32") {
        Some(AtomType::F32)
    } else if *name == String::from_str("F64") {
        Some(AtomType::F64)
    } else if *name == String::from_str("Bool") {
        Some(AtomType::Bool)
    } else {
        None
    }
}

/// The names of the first `k` columns, each followed by a comma.
pub open spec fn csv_prefix(columns: Seq<AtomSchemeSpec>, k: int) -> Seq<u8>
    decreases k,
{
    if k <= 0 {
        Seq::empty()
    } else {
        csv_prefix(columns, k - 1) + encode_utf8(columns[k - 1].name) + seq![COMMA]
    }
}

/// The header line of a column list: the names alone, each followed by a
/// comma, where `csv` is set, else the list of names and types as RON text.
/// Only the second form can be read back.
pub open spec fn header_line(columns: Seq<AtomSchemeSpec>, csv: bool) -> Seq<u8> {
    if csv {
        csv_prefix(columns, columns.len() as int) + seq![NEWLINE]
    } else {
        encode_utf8(ron_text(named_columns(columns))) + seq![NEWLINE]
    }
}

/// The column list that a header line stands for.
pub open spec fn header_line_parse(line: Seq<u8>) -> Result<Seq<AtomSchemeSpec>, HdvError> {
    if !valid_utf8(line) {
        Err(HdvError::InvalidInput)
    } else {
        match ron_columns(decode_utf8(line)) {
            Some(named) => if names_known(named) {
                Ok(columns_of_names(named))
            } else {
                Err(HdvError::InvalidInput)
            },
            None => Err(HdvError::InvalidInput),
        }
    }
}

/// How a text writer writes its header.
#[derive(Debug, Clone, Copy)]
pub struct HdvTextWriterOptions {
    /// Write the column names alone, as a CSV header. Such a stream cannot be
    /// read back by a reader of this library.
    pub is_csv_header: bool,
}

/// Appends the header line of `header`.
pub fn write_header(out: &mut Vec<u8>, header: &[AtomScheme], options: &HdvTextWriterOptions)
    ensures
        final(out)@ == old(out)@ + header_line(schemes_view(header@), options.is_csv_header),
{
    let ghost columns = schemes_view(header@);
    if options.is_csv_header {
        let mut k: usize = 0;
        assert(old(out)@ + csv_prefix(columns, 0) =~= old(out)@);
        while k < header.len()
            invariant
                k <= header@.len(),
                columns == schemes_view(header@),
                out@ == old(out)@ + csv_prefix(columns, k as int),
            decreases header@.len() - k,
        {
            let ghost before = out@;
            append_bytes(out, header[k].name.as_str().as_bytes());
            out.push(COMMA);
            assert(out@ =~= old(out)@ + csv_prefix(columns, k + 1));
            k += 1;
        }
        out.push(NEWLINE);
        assert(out@ =~= old(out)@ + header_line(columns, true));
    } else {
        let mut named: Vec<(String, String)> = Vec::new();
        let mut i: usize = 0;
        while i < header.len()
            invariant
                i <= header@.len(),
                named@.len() == i,
                forall|j: int|
                    0 <= j < i ==> (#[trigger] named@[j]).0@ == header@[j].name@ && named@[j].1@
                        == type_label(header@[j].atom_type),
            decreases header@.len() - i,
        {
            named.push((header[i].name.clone(), atom_type_label(header[i].atom_type)));
            i += 1;
        }
        assert(named.deep_view() =~= named_columns(columns));
        let text = ron_to_string(&named);
        append_bytes(out, text.as_str().as_bytes());
        out.push(NEWLINE);
        assert(out@ =~= old(out)@ + header_line(columns, false));
    }
}

/// Reads the column list that a header line stands for.
pub fn read_header(line: &[u8]) -> (r: Result<Vec<AtomScheme>, HdvError>)
    ensures
        match header_line_parse(line@) {
            Ok(columns) => r.is_ok() && schemes_view(r.unwrap()@) == columns,
            Err(e) => r == Err::<Vec<AtomScheme>, HdvError>(e),
        },
{
    let text = match string_from_utf8(slice_to_vec(line)) {
        Some(t) => t,
        None => {
            return Err(HdvError::InvalidInput);
        },
    };
    let named = match ron_from_str(text.as_str()) {
        Some(n) => n,
        None => {
            return Err(HdvError::InvalidInput);
        },
    };
    let ghost flat = named.deep_view();
    let mut header: Vec<AtomScheme> = Vec::new();
    let mut i: usize = 0;
    assert(forall|j: int| 0 <= j < named@.len() ==> flat[j] == named@[j].deep_view());
    while i < named.len()
        invariant
            i <= named@.len(),
            valid_utf8(line@),
            ron_columns(decode_utf8(line@)) == Some(flat),
            flat == named.deep_view(),
            flat.len() == named@.len(),
            forall|j: int| 0 <= j < named@.len() ==> flat[j] == (named@[j].0@, named@[j].1@),
            header@.len() == i,
            forall|j: int| 0 <= j < i ==> label_type((#[trigger] flat[j]).1).is_some(),
            forall|j: int|
                0 <= j < i ==> (#[trigger] header@[j])@ == (AtomSchemeSpec {
                    name: flat[j].0,
                    atom_type: label_type(flat[j].1).unwrap(),
                }),
        decreases named@.len() - i,
    {
        match atom_type_of_label(&named[i].1) {
            None => {
                assert(label_type(flat[i as int].1).is_none());
                return Err(HdvError::InvalidInput);
            },
            Some(t) => {
                header.push(AtomScheme { name: named[i].0.clone(), atom_type: t });
            },
        }
        i += 1;
    }
    assert(schemes_view(header@) =~= columns_of_names(flat));
    Ok(header)
}

/// The length of the first line of `s`, its line feed included; the whole of
/// `s` where it holds no line feed.
pub open spec fn line_len(s: Seq<u8>) -> int {
    let i = index_of_byte(s, NEWLINE, 0);
    if i < s.len() {
        i + 1
    } else {
        s.len() as int
    }
}

/// The place that [`index_of_byte`] gives lies between `from` and the end.
pub proof fn lemma_index_of_byte_bounds(s: Seq<u8>, b: u8, from: int)
    requires
        0 <= from <= s.len(),
    ensures
        from <= index_of_byte(s, b, from) <= s.len(),
    decreases s.len() - from,
{
    if from < s.len() && s[from] != b {
        lemma_index_of_byte_bounds(s, b, from + 1);
    }
}

/// A stream that is not at its end has a first line, which is not empty.
pub proof fn lemma_line_len_bounds(s: Seq<u8>)
    requires
        s.len() > 0,
    ensures
        0 < line_len(s) <= s.len(),
{
    lemma_index_of_byte_bounds(s, NEWLINE, 0);
}

/// Takes the next line at the cursor, its line feed included, and moves past
/// it. At the end of the data there is no line: the stream has ended.
pub fn take_line<'a>(buf: &mut Cursor<'a>) -> (r: Result<&'a [u8], HdvError>)
    requires
        old(buf).wf(),
    ensures
        final(buf).wf(),
        final(buf).data == old(buf).data,
        old(buf).remaining().len() == 0 ==> r == Err::<&[u8], HdvError>(HdvError::UnexpectedEof)
            && final(buf).pos == old(buf).pos,
        old(buf).remaining().len() > 0 ==> r.is_ok() && r.unwrap()@ == old(buf).remaining().take(
            line_len(old(buf).remaining()),
        ) && final(buf).pos == old(buf).pos + line_len(old(buf).remaining()) && r.unwrap()@.len()
            > 0,
        old(buf).pos <= final(buf).pos,
{
    let total = buf.data.len();
    if buf.pos == total {
        return Err(HdvError::UnexpectedEof);
    }
    let ghost s = buf.remaining();
    let start = buf.pos;
    let rest = slice_subrange(buf.data, start, total);
    assert(rest@ =~= s);
    let at = find_byte(rest, NEWLINE, 0);
    let len = if at < rest.len() {
        at + 1
    } else {
        at
    };
    let line = slice_subrange(rest, 0, len);
    assert(line@ =~= s.take(len as int));
    buf.pos = start + len;
    Ok(line)
}

/// The bit pattern handed in for the float at place `i`, if there is one.
pub open spec fn bits_at(bits: Seq<u64>, i: int) -> Option<u64> {
    if 0 <= i < bits.len() {
        Some(bits[i])
    } else {
        None
    }
}

/// The cell that a cell of a text line becomes once the bit pattern of its
/// float, if it is one, is known: `None` where a float's column is no float
/// column, or its pattern is missing or too wide for the column.
pub open spec fn resolved_cell(c: Option<TextCellSpec>, t: AtomType, bits: Option<u64>) -> Option<
    CellSpec,
> {
    match c {
        None => Some(None),
        Some(TextCellSpec::Atom(v)) => Some(Some(v)),
        Some(TextCellSpec::Float(_)) => match bits {
            Some(b) => if t == AtomType::F32 && b <= u32::MAX {
                Some(Some(AtomSpec::F32(b as u32)))
            } else if t == AtomType::F64 {
                Some(Some(AtomSpec::F64(b)))
            } else {
                None
            },
            None => None,
        },
    }
}

/// The row that the cells of a text line become once the bit patterns of
/// their floats are known, place by place.
pub open spec fn resolved(cells: Seq<Option<TextCellSpec>>, types: Seq<AtomType>, bits: Seq<u64>) -> Option<
    Seq<CellSpec>,
> {
    if cells.len() == types.len() && forall|i: int|
        0 <= i < cells.len() ==> (#[trigger] resolved_cell(cells[i], types[i], bits_at(bits, i))).is_some() {
        Some(Seq::new(cells.len(), |i: int| resolved_cell(cells[i], types[i], bits_at(bits, i)).unwrap()))
    } else {
        None
    }
}

/// Puts the floats into the cells of a text line. `float_bits[i]` is the bit
/// pattern of the float whose text the cell at place `i` holds (that of a
/// 32-bit float in the low half); it is not looked at for other cells.
pub fn resolve_floats(
    cells: &[Option<TextCell>],
    atom_schemes: &[AtomScheme],
    float_bits: &[u64],
) -> (r: Option<ValueRow>)
    ensures
        match resolved(
            text_cells_view(cells@),
            scheme_types(schemes_view(atom_schemes@)),
            float_bits@,
        ) {
            Some(row) => r.is_some() && r.unwrap()@ == row,
            None => r.is_none(),
        },
{
    let ghost types = scheme_types(schemes_view(atom_schemes@));
    let ghost texts = text_cells_view(cells@);
    if cells.len() != atom_schemes.len() {
        return None;
    }
    let mut atoms: Vec<Option<AtomValue>> = Vec::new();
    let mut i: usize = 0;
    while i < cells.len()
        invariant
            i <= cells@.len(),
            cells@.len() == atom_schemes@.len(),
            types == scheme_types(schemes_view(atom_schemes@)),
            texts == text_cells_view(cells@),
            atoms@.len() == i,
            forall|j: int|
                0 <= j < i ==> (#[trigger] resolved_cell(
                    texts[j],
                    types[j],
                    bits_at(float_bits@, j),
                )) == Some(cell_view(atoms@[j])),
        decreases cells@.len() - i,
    {
        let ghost want = resolved_cell(texts[i as int], types[i as int], bits_at(float_bits@, i as int));
        let cell: Option<AtomValue> = match &cells[i] {
            None => None,
            Some(TextCell::Atom(v)) => Some(v.clone()),
            Some(TextCell::Float(_)) => {
                if i >= float_bits.len() {
                    assert(want.is_none());
                    return None;
                }
                let b = float_bits[i];
                let t = atom_schemes[i].atom_type;
                if t == AtomType::F32 && b <= 0xffff_ffff {
                    Some(AtomValue::F32(b as u32))
                } else if t == AtomType::F64 {
                    Some(AtomValue::F64(b))
                } else {
                    assert(want.is_none());
                    return None;
                }
            },
        };
        assert(want == Some(cell_view(cell)));
        atoms.push(cell);
        i += 1;
    }
    let row = ValueRow::new(atoms);
    assert(row@ =~= resolved(texts, types, float_bits@).unwrap());
    Some(row)
}

/// A line of a text row has one cell for each column.
pub proof fn lemma_line_cells_len(types: Seq<AtomType>, line: Seq<u8>, k: int, start: int)
    requires
        0 <= k <= types.len(),
    ensures
        match line_cells(types, line, k, start) {
            Ok(cells) => cells.len() == types.len() - k,
            Err(_) => true,
        },
    decreases types.len() - k,
{
    if k < types.len() && start <= line.len() {
        lemma_line_cells_len(types, line, k + 1, index_of_byte(line, COMMA, start) + 1);
    }
}

/// What one write adds to a text stream: the header line before the first
/// row, and the line of the row.
pub open spec fn written(
    has_written_header: bool,
    header: Seq<AtomSchemeSpec>,
    csv: bool,
    line: Seq<u8>,
) -> Seq<u8> {
    if has_written_header {
        line
    } else {
        header_line(header, csv) + line
    }
}

/// A writer of rows, given as cells, under a header fixed at the start. The
/// bytes it writes gather in the writer until they are flushed.
#[derive(Debug)]
pub struct HdvTextRawWriter {
    options: HdvTextWriterOptions,
    header: Vec<AtomScheme>,
    has_written_header: bool,
    write: Vec<u8>,
}

impl HdvTextRawWriter {
    /// The columns of the stream.
    pub closed spec fn header_spec(&self) -> Seq<AtomSchemeSpec> {
        schemes_view(self.header@)
    }

    /// Whether the header is written as column names alone.
    pub closed spec fn is_csv_header(&self) -> bool {
        self.options.is_csv_header
    }

    /// Whether the header line has been written.
    pub closed spec fn has_written_header(&self) -> bool {
        self.has_written_header
    }

    /// The bytes written and not yet flushed.
    pub closed spec fn pending(&self) -> Seq<u8> {
        self.write@
    }

    /// What a write of the cells `cells` does to a writer. A row that does
    /// not have one cell of the right type for each column is refused with
    /// `InvalidInput`, one with a cell that cannot be written with
    /// `WriteForbidden`, and nothing is written; otherwise the header line,
    /// if it is still owed, and the line of the row are added.
    pub open spec fn cells_written(
        pre: Self,
        post: Self,
        cells: Seq<CellSpec>,
        float_texts: Seq<Seq<char>>,
        r: Result<(), HdvError>,
    ) -> bool {
        &&& post.header_spec() == pre.header_spec()
        &&& post.is_csv_header() == pre.is_csv_header()
        &&& if !cells_match(scheme_types(pre.header_spec()), cells) {
            &&& r == Err::<(), HdvError>(HdvError::InvalidInput)
            &&& post.has_written_header() == pre.has_written_header()
            &&& post.pending() == pre.pending()
        } else {
            match row_line(cells, float_texts) {
                None => {
                    &&& r == Err::<(), HdvError>(HdvError::WriteForbidden)
                    &&& post.has_written_header() == pre.has_written_header()
                    &&& post.pending() == pre.pending()
                },
                Some(line) => {
                    &&& r.is_ok()
                    &&& post.has_written_header()
                    &&& post.pending() == pre.pending() + written(
                        pre.has_written_header(),
                        pre.header_spec(),
                        pre.is_csv_header(),
                        line,
                    )
                },
            }
        }
    }

    /// A writer that appends to `write`; no line is written yet.
    pub fn new(write: Vec<u8>, header: Vec<AtomScheme>, options: HdvTextWriterOptions) -> (r: Self)
        ensures
            r.header_spec() == schemes_view(header@),
            r.is_csv_header() == options.is_csv_header,
            !r.has_written_header(),
            r.pending() == write@,
    {
        HdvTextRawWriter { options, header, has_written_header: false, write }
    }

    /// Writes the header line, if this is the first row, and the line of the
    /// row. `float_texts[i]` is the decimal text of the cell at place `i`
    /// where that cell is a float.
    pub fn write(&mut self, row: ValueRow, float_texts: &[String]) -> (r: Result<(), HdvError>)
        ensures
            Self::cells_written(*old(self), *final(self), row@, texts_view(float_texts@), r),
    {
        if !check_atom_types(self.header.as_slice(), &row) {
            return Err(HdvError::InvalidInput);
        }
        let mut line: Vec<u8> = Vec::new();
        match write_row(&mut line, &row, float_texts) {
            Err(e) => {
                return Err(e);
            },
            Ok(()) => {},
        }
        assert(line@ =~= row_line(row@, texts_view(float_texts@)).unwrap());
        let ghost before = self.write@;
        if !self.has_written_header {
            self.has_written_header = true;
            write_header(&mut self.write, self.header.as_slice(), &self.options);
        }
        append_bytes(&mut self.write, line.as_slice());
        assert(self.write@ =~= before + written(
            old(self).has_written_header(),
            old(self).header_spec(),
            old(self).is_csv_header(),
            line@,
        ));
        Ok(())
    }

    /// Hands out the bytes written since the last flush.
    pub fn flush(&mut self) -> (r: Vec<u8>)
        ensures
            r@ == old(self).pending(),
            final(self).pending() == Seq::<u8>::empty(),
            final(self).header_spec() == old(self).header_spec(),
            final(self).is_csv_header() == old(self).is_csv_header(),
            final(self).has_written_header() == old(self).has_written_header(),
    {
        let mut out: Vec<u8> = Vec::new();
        out.append(&mut self.write);
        out
    }
}

/// A writer of records of type `O`. The header is the column list of the
/// schema that the type gives at the first write.
#[derive(Debug)]
pub struct HdvTextWriter<O> {
    raw: HdvTextRawWriter,
    has_header: bool,
    _object: PhantomData<O>,
}

impl<O> HdvTextWriter<O> {
    /// The columns of the stream, once the first write has fixed them.
    pub closed spec fn header_spec(&self) -> Option<Seq<AtomSchemeSpec>> {
        if self.has_header {
            Some(self.raw.header_spec())
        } else {
            None
        }
    }

    /// Whether the header is written as column names alone.
    pub closed spec fn is_csv_header(&self) -> bool {
        self.raw.is_csv_header()
    }

    /// Whether the header line has been written.
    pub closed spec fn has_written_header(&self) -> bool {
        self.raw.has_written_header()
    }

    /// The bytes written and not yet flushed.
    pub closed spec fn pending(&self) -> Seq<u8> {
        self.raw.pending()
    }

    /// What a write of the cells `cells` of a record of schema `scheme` does
    /// to a writer. The first write fixes the columns; after that the writer
    /// does what a [`HdvTextRawWriter`] with those columns does.
    pub open spec fn cells_written(
        pre: Self,
        post: Self,
        scheme: ObjectSpec,
        cells: Seq<CellSpec>,
        float_texts: Seq<Seq<char>>,
        r: Result<(), HdvError>,
    ) -> bool {
        let header = match pre.header_spec() {
            Some(h) => h,
            None => scheme.flatten(),
        };
        &&& post.header_spec() == Some(header)
        &&& post.is_csv_header() == pre.is_csv_header()
        &&& if !cells_match(scheme_types(header), cells) {
            &&& r == Err::<(), HdvError>(HdvError::InvalidInput)
            &&& post.has_written_header() == pre.has_written_header()
            &&& post.pending() == pre.pending()
        } else {
            match row_line(cells, float_texts) {
                None => {
                    &&& r == Err::<(), HdvError>(HdvError::WriteForbidden)
                    &&& post.has_written_header() == pre.has_written_header()
                    &&& post.pending() == pre.pending()
                },
                Some(line) => {
                    &&& r.is_ok()
                    &&& post.has_written_header()
                    &&& post.pending() == pre.pending() + written(
                        pre.has_written_header(),
                        header,
                        pre.is_csv_header(),
                        line,
                    )
                },
            }
        }
    }

    /// A writer that appends to `write`; no line is written yet.
    pub fn new(write: Vec<u8>, options: HdvTextWriterOptions) -> (r: Self)
        ensures
            r.header_spec().is_none(),
            r.is_csv_header() == options.is_csv_header,
            !r.has_written_header(),
            r.pending() == write@,
    {
        HdvTextWriter {
            raw: HdvTextRawWriter::new(write, Vec::new(), options),
            has_header: false,
            _object: PhantomData,
        }
    }

    /// Writes one row of cells. `scheme` is the schema of the records; it
    /// counts at the first write only. `float_texts[i]` is the decimal text
    /// of the cell at place `i` where that cell is a float.
    pub fn write_cells(
        &mut self,
        scheme: &ObjectScheme,
        atoms: Vec<Option<AtomValue>>,
        float_texts: &[String],
    ) -> (r: Result<(), HdvError>)
        ensures
            Self::cells_written(
                *old(self),
                *final(self),
                scheme@,
                cells_view(atoms@),
                texts_view(float_texts@),
                r,
            ),
    {
        if !self.has_header {
            self.raw.header = scheme.atom_schemes();
            self.has_header = true;
        }
        self.raw.write(ValueRow::new(atoms), float_texts)
    }

    /// Hands out the bytes written since the last flush.
    pub fn flush(&mut self) -> (r: Vec<u8>)
        ensures
            r@ == old(self).pending(),
            final(self).pending() == Seq::<u8>::empty(),
            final(self).header_spec() == old(self).header_spec(),
            final(self).is_csv_header() == old(self).is_csv_header(),
            final(self).has_written_header() == old(self).has_written_header(),
    {
        self.raw.flush()
    }
}

impl<O: HdvSerialize + HdvScheme> HdvTextWriter<O> {
    /// Writes one record: the cells that `object` gives of itself, under the
    /// schema that its type gives. Whatever these are, the stream grows by
    /// well-formed lines only (see [`HdvTextWriter::cells_written`]).
    pub fn write(&mut self, object: &O, float_texts: &[String]) -> (r: Result<(), HdvError>)
        ensures
            exists|scheme: ObjectSpec, cells: Seq<CellSpec>|
                Self::cells_written(
                    *old(self),
                    *final(self),
                    scheme,
                    cells,
                    texts_view(float_texts@),
                    r,
                ),
    {
        let scheme = O::object_scheme();
        let mut atoms: Vec<Option<AtomValue>> = Vec::new();
        object.serialize(&mut atoms);
        let ghost cells = cells_view(atoms@);
        let r = self.write_cells(&scheme, atoms, float_texts);
        assert(Self::cells_written(
            *old(self),
            *self,
            scheme@,
            cells,
            texts_view(float_texts@),
            r,
        ));
        r
    }
}

/// What a read of one line does to a stream that stands at `s`: `r` is the
/// row that the first line of `s` stands for and `rest` what follows that
/// line, or `r` is the reason why there is none and `rest` is `s`. A stream
/// at its end has no line.
pub open spec fn line_read(
    types: Seq<AtomType>,
    s: Seq<u8>,
    rest: Seq<u8>,
    r: Result<Seq<Option<TextCellSpec>>, HdvError>,
) -> bool {
    if s.len() == 0 {
        r == Err::<Seq<Option<TextCellSpec>>, HdvError>(HdvError::UnexpectedEof) && rest == s
    } else {
        match line_parse(types, s.take(line_len(s))) {
            Ok(cells) => r == Ok::<Seq<Option<TextCellSpec>>, HdvError>(cells) && rest == s.skip(
                line_len(s),
            ),
            Err(e) => r == Err::<Seq<Option<TextCellSpec>>, HdvError>(e) && rest == s,
        }
    }
}

/// The header that the first line of `s` stands for, and the length of that
/// line.
pub open spec fn header_read(s: Seq<u8>) -> Result<(Seq<AtomSchemeSpec>, int), HdvError> {
    if s.len() == 0 {
        Err(HdvError::UnexpectedEof)
    } else {
        match header_line_parse(s.take(line_len(s))) {
            Ok(columns) => Ok((columns, line_len(s))),
            Err(e) => Err(e),
        }
    }
}

/// The outcome of a read, with the cells as their content.
pub open spec fn outcome(r: Result<Vec<Option<TextCell>>, HdvError>) -> Result<
    Seq<Option<TextCellSpec>>,
    HdvError,
> {
    match r {
        Ok(cells) => Ok(text_cells_view(cells@)),
        Err(e) => Err(e),
    }
}

/// Reads the header line at the cursor and moves past it. On failure the
/// cursor stays.
pub fn read_header_line(buf: &mut Cursor) -> (r: Result<Vec<AtomScheme>, HdvError>)
    requires
        old(buf).wf(),
    ensures
        final(buf).wf(),
        final(buf).data == old(buf).data,
        match header_read(old(buf).remaining()) {
            Ok((columns, n)) => r.is_ok() && schemes_view(r.unwrap()@) == columns && final(buf).remaining() == old(buf).remaining().skip(n),
            Err(e) => r == Err::<Vec<AtomScheme>, HdvError>(e) && final(buf).pos == old(buf).pos,
        },
        old(buf).pos <= final(buf).pos,
{
    let ghost s = buf.remaining();
    let start = buf.pos;
    match take_line(buf) {
        Err(e) => Err(e),
        Ok(line) => match read_header(line) {
            Err(e) => {
                buf.pos = start;
                Err(e)
            },
            Ok(header) => {
                assert(buf.remaining() =~= s.skip(buf.pos - start));
                Ok(header)
            },
        },
    }
}

/// Reads the line at the cursor as a row of the columns `atom_schemes` and
/// moves past it. On failure the cursor stays.
pub fn read_row_line(buf: &mut Cursor, atom_schemes: &[AtomScheme]) -> (r: Result<
    Vec<Option<TextCell>>,
    HdvError,
>)
    requires
        old(buf).wf(),
    ensures
        final(buf).wf(),
        final(buf).data == old(buf).data,
        line_read(
            scheme_types(schemes_view(atom_schemes@)),
            old(buf).remaining(),
            final(buf).remaining(),
            outcome(r),
        ),
        r.is_ok() ==> r.unwrap()@.len() == atom_schemes@.len(),
        r.is_err() ==> final(buf).pos == old(buf).pos,
        old(buf).pos <= final(buf).pos,
{
    let ghost s = buf.remaining();
    let start = buf.pos;
    match take_line(buf) {
        Err(e) => Err(e),
        Ok(line) => match read_row(line, atom_schemes) {
            Err(e) => {
                buf.pos = start;
                Err(e)
            },
            Ok(cells) => {
                proof {
                    lemma_line_cells_len(scheme_types(schemes_view(atom_schemes@)), line@, 0, 0);
                }
                assert(buf.remaining() =~= s.skip(buf.pos - start));
                Ok(cells)
            },
        },
    }
}

/// A reader of rows, as the cells of their lines, in the order of the
/// stream's own header.
#[derive(Debug)]
pub struct HdvTextRawReader {
    header: Option<Vec<AtomScheme>>,
    read: Vec<u8>,
    pos: usize,
}

impl HdvTextRawReader {
    /// The header of the stream, once it has been read.
    pub closed spec fn header_spec(&self) -> Option<Seq<AtomSchemeSpec>> {
        match self.header {
            Some(h) => Some(schemes_view(h@)),
            None => None,
        }
    }

    /// The bytes of the stream that have not been read.
    pub closed spec fn remaining(&self) -> Seq<u8> {
        self.read@.skip(self.pos as int)
    }

    /// The read position lies within the stream.
    pub closed spec fn wf(&self) -> bool {
        self.pos <= self.read@.len()
    }

    /// What a read does to a reader. The first read takes the header line
    /// before the line of the row. After a failure the reader stands where
    /// the failing line began.
    pub open spec fn line_taken(
        pre: Self,
        post: Self,
        r: Result<Seq<Option<TextCellSpec>>, HdvError>,
    ) -> bool {
        &&& post.wf()
        &&& match pre.header_spec() {
            Some(h) => post.header_spec() == Some(h) && line_read(
                scheme_types(h),
                pre.remaining(),
                post.remaining(),
                r,
            ),
            None => match header_read(pre.remaining()) {
                Err(e) => r == Err::<Seq<Option<TextCellSpec>>, HdvError>(e)
                    && post.header_spec().is_none() && post.remaining() == pre.remaining(),
                Ok((h, m)) => post.header_spec() == Some(h) && line_read(
                    scheme_types(h),
                    pre.remaining().skip(m),
                    post.remaining(),
                    r,
                ),
            },
        }
    }

    /// A reader at the start of the stream `read`.
    pub fn new(read: Vec<u8>) -> (r: Self)
        ensures
            r.wf(),
            r.header_spec().is_none(),
            r.remaining() == read@,
    {
        assert(read@.skip(0) =~= read@);
        HdvTextRawReader { header: None, read, pos: 0 }
    }

    /// The header of the stream, once the first read has captured it.
    pub fn header(&self) -> (r: Option<&Vec<AtomScheme>>)
        ensures
            match r {
                Some(h) => self.header_spec() == Some(schemes_view(h@)),
                None => self.header_spec().is_none(),
            },
    {
        self.header.as_ref()
    }

    /// Whether the whole stream has been read.
    pub fn is_at_end(&self) -> (r: bool)
        requires
            self.wf(),
        ensures
            r == (self.remaining().len() == 0),
    {
        self.pos == self.read.len()
    }

    /// Reads the cells of the next row.
    pub fn read(&mut self) -> (r: Result<Vec<Option<TextCell>>, HdvError>)
        requires
            old(self).wf(),
        ensures
            Self::line_taken(*old(self), *final(self), outcome(r)),
    {
        if self.header.is_none() {
            let mut cursor = Cursor { data: self.read.as_slice(), pos: self.pos };
            match read_header_line(&mut cursor) {
                Err(e) => {
                    return Err(e);
                },
                Ok(header) => {
                    self.header = Some(header);
                    self.pos = cursor.pos;
                },
            }
        }
        let mut cursor = Cursor { data: self.read.as_slice(), pos: self.pos };
        match &self.header {
            None => {
                assert(false);
                Err(HdvError::InvalidInput)
            },
            Some(header) => {
                let r = read_row_line(&mut cursor, header.as_slice());
                self.pos = cursor.pos;
                r
            },
        }
    }
}

/// A reader of records of type `O` from a stream whose header has the
/// columns of the type's schema, in any order and among any others.
#[derive(Debug)]
pub struct HdvTextReader<O> {
    shift_header: Option<HdvShiftedHeader>,
    read: Vec<u8>,
    pos: usize,
    _object: PhantomData<O>,
}

impl<O> HdvTextReader<O> {
    /// The header of the stream and the places of the reader's columns in
    /// it, once the first read has fixed them.
    pub closed spec fn shift_spec(&self) -> Option<(Seq<AtomSchemeSpec>, Seq<usize>)> {
        match self.shift_header {
            Some(h) => Some((h.header_spec(), h.shifting())),
            None => None,
        }
    }

    /// The bytes of the stream that have not been read.
    pub closed spec fn remaining(&self) -> Seq<u8> {
        self.read@.skip(self.pos as int)
    }

    /// The read position lies within the stream, and the places within the
    /// header.
    pub closed spec fn wf(&self) -> bool {
        &&& self.pos <= self.read@.len()
        &&& match self.shift_header {
            Some(h) => h.wf(),
            None => true,
        }
    }

    /// What a read of one line does once the header is known: `r` is the
    /// row of the next line, in the order of the stream's header.
    pub open spec fn line_taken(
        post: Self,
        header: Seq<AtomSchemeSpec>,
        shifting: Seq<usize>,
        s: Seq<u8>,
        r: Result<Seq<Option<TextCellSpec>>, HdvError>,
    ) -> bool {
        &&& post.shift_spec() == Some((header, shifting))
        &&& line_read(scheme_types(header), s, post.remaining(), r)
    }

    /// What a read does to a reader of records of schema `scheme`. The first
    /// read takes the header line and looks up the schema's columns in it;
    /// where one is missing the read fails with `SchemaMismatch` and the
    /// reader stays as it was.
    pub open spec fn text_taken(
        pre: Self,
        post: Self,
        scheme: ObjectSpec,
        r: Result<Seq<Option<TextCellSpec>>, HdvError>,
    ) -> bool {
        &&& post.wf()
        &&& match pre.shift_spec() {
            Some((header, shifting)) => Self::line_taken(post, header, shifting, pre.remaining(), r),
            None => match header_read(pre.remaining()) {
                Err(e) => r == Err::<Seq<Option<TextCellSpec>>, HdvError>(e)
                    && post.shift_spec().is_none() && post.remaining() == pre.remaining(),
                Ok((header, m)) => if forall|k: int|
                    0 <= k < scheme.flatten().len() ==> header.contains(
                        #[trigger] scheme.flatten()[k],
                    ) {
                    exists|shifting: Seq<usize>|
                        is_shifting(header, scheme.flatten(), shifting) && Self::line_taken(
                            post,
                            header,
                            shifting,
                            pre.remaining().skip(m),
                            r,
                        )
                } else {
                    r == Err::<Seq<Option<TextCellSpec>>, HdvError>(HdvError::SchemaMismatch)
                        && post.shift_spec().is_none() && post.remaining() == pre.remaining()
                },
            },
        }
    }

    /// What becomes of the cells of a line once the bit patterns of their
    /// floats are known: the cells of the reader's columns, in the reader's
    /// order. Cells that do not resolve (see [`resolved`]) are malformed, as
    /// is any line before the header is known.
    pub open spec fn cells_shifted(
        self,
        cells: Seq<Option<TextCellSpec>>,
        float_bits: Seq<u64>,
    ) -> Result<Seq<CellSpec>, HdvError> {
        match self.shift_spec() {
            Some((header, shifting)) => match resolved(cells, scheme_types(header), float_bits) {
                Some(row) => Ok(shifted(shifting, row)),
                None => Err(HdvError::InvalidInput),
            },
            None => Err(HdvError::InvalidInput),
        }
    }

    /// A reader at the start of the stream `read`.
    pub fn new(read: Vec<u8>) -> (r: Self)
        ensures
            r.wf(),
            r.shift_spec().is_none(),
            r.remaining() == read@,
    {
        assert(read@.skip(0) =~= read@);
        HdvTextReader { shift_header: None, read, pos: 0, _object: PhantomData }
    }

    /// The header of the stream, once the first read has captured it.
    pub fn header(&self) -> (r: Option<&Vec<AtomScheme>>)
        ensures
            match r {
                Some(h) => self.shift_spec().is_some() && self.shift_spec().unwrap().0
                    == schemes_view(h@),
                None => self.shift_spec().is_none(),
            },
    {
        match &self.shift_header {
            Some(h) => Some(h.header()),
            None => None,
        }
    }

    /// Reads the cells of the next line, in the order of the stream's
    /// header. `scheme` is the schema of the records; it counts at the first
    /// read only.
    pub fn read_text(&mut self, scheme: &ObjectScheme) -> (r: Result<
        Vec<Option<TextCell>>,
        HdvError,
    >)
        requires
            old(self).wf(),
        ensures
            Self::text_taken(*old(self), *final(self), scheme@, outcome(r)),
    {
        if self.shift_header.is_none() {
            let mut cursor = Cursor { data: self.read.as_slice(), pos: self.pos };
            match read_header_line(&mut cursor) {
                Err(e) => {
                    return Err(e);
                },
                Ok(header) => {
                    let next = cursor.pos;
                    match HdvShiftedHeader::new(header, scheme) {
                        None => {
                            return Err(HdvError::SchemaMismatch);
                        },
                        Some(shift_header) => {
                            self.shift_header = Some(shift_header);
                            self.pos = next;
                        },
                    }
                },
            }
        }
        let mut cursor = Cursor { data: self.read.as_slice(), pos: self.pos };
        match &self.shift_header {
            None => {
                assert(false);
                Err(HdvError::InvalidInput)
            },
            Some(shift_header) => {
                let r = read_row_line(&mut cursor, shift_header.header().as_slice());
                self.pos = cursor.pos;
                r
            },
        }
    }

    /// Puts the floats into the cells of a line and picks the cells of the
    /// reader's columns, in the reader's order. `float_bits[i]` is the bit
    /// pattern of the float whose text the cell at place `i` holds.
    pub fn shift_cells(&self, cells: &[Option<TextCell>], float_bits: &[u64]) -> (r: Result<
        Vec<Option<AtomValue>>,
        HdvError,
    >)
        requires
            self.wf(),
        ensures
            match self.cells_shifted(text_cells_view(cells@), float_bits@) {
                Ok(picked) => r.is_ok() && cells_view(r.unwrap()@) == picked,
                Err(e) => r == Err::<Vec<Option<AtomValue>>, HdvError>(e),
            },
    {
        match &self.shift_header {
            None => Err(HdvError::InvalidInput),
            Some(shift_header) => {
                match resolve_floats(cells, shift_header.header().as_slice(), float_bits) {
                    None => Err(HdvError::InvalidInput),
                    Some(row) => {
                        let mut values: Vec<Option<AtomValue>> = Vec::new();
                        let atoms = row.atoms();
                        assert(cells_view(atoms@).len() == atoms@.len());
                        assert(row@.len() == scheme_types(shift_header.header_spec()).len());
                        shift_header.shift(atoms.as_slice(), &mut values);
                        assert(cells_view(values@) =~= shifted(shift_header.shifting(), row@));
                        Ok(values)
                    },
                }
            },
        }
    }
}

impl<O: HdvDeserialize + HdvScheme> HdvTextReader<O> {
    /// Builds a record from the cells of a line: the cells of the reader's
    /// columns (see [`HdvTextReader::shift_cells`]), handed to the type's
    /// `deserialize`. Cells that it refuses fail with `RecordBuild`.
    pub fn build(&self, cells: &[Option<TextCell>], float_bits: &[u64]) -> (r: Result<O, HdvError>)
        requires
            self.wf(),
        ensures
            match self.cells_shifted(text_cells_view(cells@), float_bits@) {
                Ok(_) => r.is_ok() || r == Err::<O, HdvError>(HdvError::RecordBuild),
                Err(e) => r == Err::<O, HdvError>(e),
            },
    {
        match self.shift_cells(cells, float_bits) {
            Err(e) => Err(e),
            Ok(values) => {
                let mut rest: &[Option<AtomValue>] = values.as_slice();
                match O::deserialize(&mut rest) {
                    Some(object) => Ok(object),
                    None => Err(HdvError::RecordBuild),
                }
            },
        }
    }

    /// Reads one record whose line holds no float: the cells of the next
    /// line (see [`HdvTextReader::text_taken`]), built into a record as by
    /// [`HdvTextReader::build`] with no bit patterns.
    pub fn read(&mut self) -> (r: Result<O, HdvError>)
        requires
            old(self).wf(),
        ensures
            exists|scheme: ObjectSpec, cells: Result<Seq<Option<TextCellSpec>>, HdvError>|
                Self::text_taken(*old(self), *final(self), scheme, cells) && match cells {
                    Ok(c) => match final(self).cells_shifted(c, Seq::<u64>::empty()) {
                        Ok(_) => r.is_ok() || r == Err::<O, HdvError>(HdvError::RecordBuild),
                        Err(e) => r == Err::<O, HdvError>(e),
                    },
                    Err(e) => r == Err::<O, HdvError>(e),
                },
    {
        let scheme = O::object_scheme();
        let got = self.read_text(&scheme);
        assert(Self::text_taken(*old(self), *self, scheme@, outcome(got)));
        match got {
            Err(e) => Err(e),
            Ok(cells) => {
                let none: Vec<u64> = Vec::new();
                self.build(cells.as_slice(), none.as_slice())
            },
        }
    }
}

} // verus!
