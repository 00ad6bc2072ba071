//! Record schemas: trees of named fields whose leaves are typed atoms, and
//! the flattening of such a tree into an ordered list of columns.
use crate::format::scheme_types;
use crate::format::schemes_view;
use crate::format::AtomScheme;
use crate::format::AtomSchemeSpec;
use crate::format::AtomType;
use crate::format::AtomValue;
use vstd::prelude::*;
use vstd::slice::*;
use vstd::string::*;

verus! {

/// The schema of a record: its fields, in order.
#[derive(Debug, PartialEq, Eq)]
pub struct ObjectScheme {
    pub fields: Vec<FieldScheme>,
}

/// A named field of a record.
#[derive(Debug, PartialEq, Eq)]
pub struct FieldScheme {
    pub name: String,
    pub value: ValueType,
}

/// What a field holds: one atom, or a nested record.
#[derive(Debug, PartialEq, Eq)]
pub enum ValueType {
    Atom(AtomType),
    Object(ObjectScheme),
}

/// The mathematical content of an [`ObjectScheme`].
pub struct ObjectSpec {
    pub fields: Seq<FieldSpec>,
}

/// The mathematical content of a [`FieldScheme`].
pub struct FieldSpec {
    pub name: Seq<char>,
    pub value: ValueSpec,
}

/// The mathematical content of a [`ValueType`].
pub enum ValueSpec {
    Atom(AtomType),
    Object(ObjectSpec),
}

/// The content of a list of fields.
pub open spec fn fields_view(fields: Seq<FieldScheme>) -> Seq<FieldSpec>
    decreases fields,
{
    if fields.len() == 0 {
        Seq::empty()
    } else {
        fields_view(fields.drop_last()).push(field_view(fields.last()))
    }
}

/// The content of a field.
pub open spec fn field_view(field: FieldScheme) -> FieldSpec
    decreases field,
{
    FieldSpec {
        name: field.name@,
        value: match field.value {
            ValueType::Atom(t) => ValueSpec::Atom(t),
            ValueType::Object(sub) => ValueSpec::Object(
                ObjectSpec { fields: fields_view(sub.fields@) },
            ),
        },
    }
}

impl View for ObjectScheme {
    type V = ObjectSpec;

    open spec fn view(&self) -> ObjectSpec {
        ObjectSpec { fields: fields_view(self.fields@) }
    }
}

impl View for FieldScheme {
    type V = FieldSpec;

    open spec fn view(&self) -> FieldSpec {
        field_view(*self)
    }
}

/// The name of a nested column: the field's name, a dot, and the column's
/// name within the nested record.
pub open spec fn dotted(field: Seq<char>, inner: Seq<char>) -> Seq<char> {
    field + seq!['.'] + inner
}

/// The columns of a nested record, each renamed by the path through `field`.
pub open spec fn prefixed(field: Seq<char>, columns: Seq<AtomSchemeSpec>) -> Seq<AtomSchemeSpec> {
    Seq::new(
        columns.len(),
        |i: int| AtomSchemeSpec { name: dotted(field, columns[i].name), atom_type: columns[i].atom_type },
    )
}

/// The columns of a list of fields: those of each field, in field order.
pub open spec fn flatten_fields(fields: Seq<FieldSpec>) -> Seq<AtomSchemeSpec>
    decreases fields,
{
    if fields.len() == 0 {
        Seq::empty()
    } else {
        flatten_fields(fields.drop_last()) + field_columns(fields.last())
    }
}

/// The columns of one field: the field itself where it holds an atom, else
/// the columns of the nested record under dotted names.
pub open spec fn field_columns(field: FieldSpec) -> Seq<AtomSchemeSpec>
    decreases field,
{
    match field.value {
        ValueSpec::Atom(t) => seq![AtomSchemeSpec { name: field.name, atom_type: t }],
        ValueSpec::Object(sub) => prefixed(field.name, flatten_fields(sub.fields)),
    }
}

/// The number of atoms among the leaves of a list of fields.
pub open spec fn leaf_count_fields(fields: Seq<FieldSpec>) -> nat
    decreases fields,
{
    if fields.len() == 0 {
        0
    } else {
        leaf_count_fields(fields.drop_last()) + leaf_count_field(fields.last())
    }
}

/// The number of atoms among the leaves of a field.
pub open spec fn leaf_count_field(field: FieldSpec) -> nat
    decreases field,
{
    match field.value {
        ValueSpec::Atom(_) => 1,
        ValueSpec::Object(sub) => leaf_count_fields(sub.fields),
    }
}

impl ObjectSpec {
    /// The canonical column list of the schema.
    pub open spec fn flatten(self) -> Seq<AtomSchemeSpec> {
        flatten_fields(self.fields)
    }

    /// The number of atom leaves of the schema.
    pub open spec fn leaf_count(self) -> nat {
        leaf_count_fields(self.fields)
    }
}

/// A list of fields has as many columns as it has atom leaves.
pub proof fn lemma_flatten_len(fields: Seq<FieldSpec>)
    ensures
        flatten_fields(fields).len() == leaf_count_fields(fields),
    decreases fields,
{
    if fields.len() > 0 {
        lemma_flatten_len(fields.drop_last());
        lemma_field_columns_len(fields.last());
    }
}

/// A field has as many columns as it has atom leaves.
pub proof fn lemma_field_columns_len(field: FieldSpec)
    ensures
        field_columns(field).len() == leaf_count_field(field),
    decreases field,
{
    match field.value {
        ValueSpec::Atom(_) => {},
        ValueSpec::Object(sub) => {
            lemma_flatten_len(sub.fields);
        },
    }
}

/// A schema has as many columns as it has atom leaves.
pub proof fn lemma_flatten_leaf_count(scheme: ObjectSpec)
    ensures
        scheme.flatten().len() == scheme.leaf_count(),
{
    lemma_flatten_len(scheme.fields);
}

/// The columns of two field lists in a row are the columns of the first
/// followed by the columns of the second.
pub proof fn lemma_flatten_concat(a: Seq<FieldSpec>, b: Seq<FieldSpec>)
    ensures
        flatten_fields(a + b) == flatten_fields(a) + flatten_fields(b),
    decreases b.len(),
{
    if b.len() == 0 {
        assert(a + b =~= a);
        assert(flatten_fields(a) + flatten_fields(b) =~= flatten_fields(a));
    } else {
        assert((a + b).drop_last() =~= a + b.drop_last());
        assert((a + b).last() == b.last());
        lemma_flatten_concat(a, b.drop_last());
        assert(flatten_fields(a + b) =~= flatten_fields(a) + flatten_fields(b));
    }
}

/// Flattening keeps the order of the fields: the columns of field `i` stand
/// after those of all earlier fields and before those of all later ones, and
/// within a nested record the same holds of its own fields.
pub proof fn lemma_flatten_order(fields: Seq<FieldSpec>, i: int)
    requires
        0 <= i < fields.len(),
    ensures
        flatten_fields(fields) == flatten_fields(fields.take(i)) + field_columns(fields[i])
            + flatten_fields(fields.skip(i + 1)),
{
    let head = fields.take(i + 1);
    let tail = fields.skip(i + 1);
    assert(fields =~= head + tail);
    lemma_flatten_concat(head, tail);
    assert(head.drop_last() =~= fields.take(i));
    assert(head.last() == fields[i]);
}

/// The content of a field list grows with the list.
proof fn lemma_fields_view_take(fields: Seq<FieldScheme>, i: int)
    requires
        0 <= i < fields.len(),
    ensures
        fields_view(fields.take(i + 1)) == fields_view(fields.take(i)).push(field_view(fields[i])),
        fields_view(fields.take(i + 1)).len() == i + 1,
        fields_view(fields.take(0)) == Seq::<FieldSpec>::empty(),
    decreases i,
{
    assert(fields.take(i + 1).drop_last() =~= fields.take(i));
    if i > 0 {
        lemma_fields_view_take(fields, i - 1);
    }
}

impl ObjectScheme {
    /// The canonical column list of the schema: the columns of each field in
    /// field order, nested columns under dotted names.
    pub fn atom_schemes(&self) -> (r: Vec<AtomScheme>)
        ensures
            schemes_view(r@) == self@.flatten(),
        decreases self,
    {
        let mut atoms: Vec<AtomScheme> = Vec::new();
        let mut i: usize = 0;
        let n = self.fields.len();
        assert(schemes_view(atoms@) =~= Seq::empty());
        while i < n
            invariant
                n == self.fields@.len(),
                i <= n,
                schemes_view(atoms@) == flatten_fields(fields_view(self.fields@.take(i as int))),
            decreases n - i,
        {
            let ghost before = schemes_view(atoms@);
            let mut more = self.fields[i].atom_schemes();
            let ghost added = schemes_view(more@);
            atoms.append(&mut more);
            proof {
                lemma_fields_view_take(self.fields@, i as int);
                assert(fields_view(self.fields@.take(i + 1)).drop_last() =~= fields_view(
                    self.fields@.take(i as int),
                ));
                assert(schemes_view(atoms@) =~= before + added);
            }
            i += 1;
        }
        assert(self.fields@.take(n as int) =~= self.fields@);
        atoms
    }

    /// Appends the types of the schema's columns to `types`.
    pub fn atom_types(&self, types: &mut Vec<AtomType>)
        ensures
            final(types)@ == old(types)@ + scheme_types(self@.flatten()),
        decreases self,
    {
        let mut i: usize = 0;
        let n = self.fields.len();
        assert(old(types)@ + scheme_types(Seq::empty()) =~= old(types)@);
        while i < n
            invariant
                n == self.fields@.len(),
                i <= n,
                types@ == old(types)@ + scheme_types(
                    flatten_fields(fields_view(self.fields@.take(i as int))),
                ),
            decreases n - i,
        {
            let ghost before = types@;
            self.fields[i].atom_types(types);
            proof {
                lemma_fields_view_take(self.fields@, i as int);
                assert(fields_view(self.fields@.take(i + 1)).drop_last() =~= fields_view(
                    self.fields@.take(i as int),
                ));
                let head = flatten_fields(fields_view(self.fields@.take(i as int)));
                let here = field_columns(self.fields@[i as int]@);
                assert(scheme_types(head + here) =~= scheme_types(head) + scheme_types(here));
                assert(types@ =~= old(types)@ + scheme_types(head + here));
            }
            i += 1;
        }
        assert(self.fields@.take(n as int) =~= self.fields@);
    }
}

impl FieldScheme {
    /// The columns of the field: the field itself where it holds an atom,
    /// else the columns of the nested record, each named by the field's name,
    /// a dot and its name within the record.
    pub fn atom_schemes(&self) -> (r: Vec<AtomScheme>)
        ensures
            schemes_view(r@) == field_columns(self@),
        decreases self,
    {
        match &self.value {
            ValueType::Atom(x) => {
                let only = AtomScheme { name: self.name.clone(), atom_type: *x };
                let r = vec![only];
                assert(schemes_view(r@) =~= field_columns(self@));
                r
            },
            ValueType::Object(object) => {
                let post_atoms = object.atom_schemes();
                let mut atoms: Vec<AtomScheme> = Vec::new();
                let mut i: usize = 0;
                let n = post_atoms.len();
                let ghost inner = schemes_view(post_atoms@);
                while i < n
                    invariant
                        n == post_atoms@.len(),
                        i <= n,
                        inner == schemes_view(post_atoms@),
                        schemes_view(atoms@) == prefixed(self.name@, inner).take(i as int),
                    decreases n - i,
                {
                    let ghost before = schemes_view(atoms@);
                    let mut name = self.name.clone();
                    proof {
                        reveal_strlit(".");
                    }
                    name.append(".");
                    name.append(post_atoms[i].name.as_str());
                    assert(name@ =~= dotted(self.name@, post_atoms@[i as int].name@));
                    let column = AtomScheme { name, atom_type: post_atoms[i].atom_type };
                    assert(inner[i as int] == post_atoms@[i as int]@);
                    assert(column@ == prefixed(self.name@, inner)[i as int]);
                    atoms.push(column);
                    assert(schemes_view(atoms@) =~= before.push(column@));
                    assert(schemes_view(atoms@) =~= prefixed(self.name@, inner).take(i + 1));
                    i += 1;
                }
                assert(prefixed(self.name@, inner).take(n as int) =~= prefixed(self.name@, inner));
                atoms
            },
        }
    }

    /// Appends the types of the field's columns to `types`.
    pub fn atom_types(&self, types: &mut Vec<AtomType>)
        ensures
            final(types)@ == old(types)@ + scheme_types(field_columns(self@)),
        decreases self,
    {
        match &self.value {
            ValueType::Atom(x) => {
                types.push(*x);
                assert(types@ =~= old(types)@ + scheme_types(field_columns(self@)));
            },
            ValueType::Object(object) => {
                object.atom_types(types);
                assert(scheme_types(prefixed(self.name@, object@.flatten())) =~= scheme_types(
                    object@.flatten(),
                ));
            },
        }
    }
}

/// A record type with a schema.
pub trait HdvScheme {
    /// The schema of the record type. It depends on the type alone.
    fn object_scheme() -> ObjectScheme;
}

/// A record type that can be written as cells.
pub trait HdvSerialize {
    /// Appends the cells of the record to `values`: one for each column of
    /// the type's schema, in the order of the columns.
    fn serialize(&self, values: &mut Vec<Option<AtomValue>>);

    /// Appends to `values` a null for each column of the type's schema.
    fn fill_nulls(values: &mut Vec<Option<AtomValue>>);
}

/// A record type that can be built from cells.
pub trait HdvDeserialize: Sized {
    /// Takes from the front of `values` one cell for each column of the
    /// type's schema and builds the record, or gives `None` where the cells
    /// do not make one.
    fn deserialize(values: &mut &[Option<AtomValue>]) -> Option<Self>;
}

/// Takes the first cell off the front of `values`, or gives `None`, and
/// leaves `values` as it is, where there is none.
pub fn take_cell<'a>(values: &mut &'a [Option<AtomValue>]) -> (r: Option<&'a Option<AtomValue>>)
    ensures
        old(values)@.len() == 0 ==> r.is_none() && final(values)@ == old(values)@,
        old(values)@.len() > 0 ==> r == Some(&old(values)@[0]) && final(values)@
            == old(values)@.skip(1),
{
    let all: &'a [Option<AtomValue>] = *values;
    if all.len() == 0 {
        None
    } else {
        let first = &all[0];
        *values = slice_subrange(all, 1, all.len());
        assert(values@ =~= all@.skip(1));
        Some(first)
    }
}

/// The 8-bit field that the unsigned 64-bit atom `x` holds, if it fits.
pub open spec fn narrowed_u8(x: u64) -> Option<u8> {
    if x <= u8::MAX {
        Some(x as u8)
    } else {
        None
    }
}

/// The 16-bit field that the unsigned 64-bit atom `x` holds, if it fits.
pub open spec fn narrowed_u16(x: u64) -> Option<u16> {
    if x <= u16::MAX {
        Some(x as u16)
    } else {
        None
    }
}

/// The 32-bit field that the unsigned 64-bit atom `x` holds, if it fits.
pub open spec fn narrowed_u32(x: u64) -> Option<u32> {
    if x <= u32::MAX {
        Some(x as u32)
    } else {
        None
    }
}

/// The 8-bit field that the signed 64-bit atom `x` holds, if it fits.
pub open spec fn narrowed_i8(x: i64) -> Option<i8> {
    if i8::MIN <= x <= i8::MAX {
        Some(x as i8)
    } else {
        None
    }
}

/// The 16-bit field that the signed 64-bit atom `x` holds, if it fits.
pub open spec fn narrowed_i16(x: i64) -> Option<i16> {
    if i16::MIN <= x <= i16::MAX {
        Some(x as i16)
    } else {
        None
    }
}

/// The 32-bit field that the signed 64-bit atom `x` holds, if it fits.
pub open spec fn narrowed_i32(x: i64) -> Option<i32> {
    if i32::MIN <= x <= i32::MAX {
        Some(x as i32)
    } else {
        None
    }
}

/// The 8-bit field that the unsigned 64-bit atom `x` holds, if it fits.
pub fn narrow_u8(x: u64) -> (r: Option<u8>)
    ensures
        r == narrowed_u8(x),
{
    if x <= 0xff {
        Some(x as u8)
    } else {
        None
    }
}

/// The 16-bit field that the unsigned 64-bit atom `x` holds, if it fits.
pub fn narrow_u16(x: u64) -> (r: Option<u16>)
    ensures
        r == narrowed_u16(x),
{
    if x <= 0xffff {
        Some(x as u16)
    } else {
        None
    }
}

/// The 32-bit field that the unsigned 64-bit atom `x` holds, if it fits.
pub fn narrow_u32(x: u64) -> (r: Option<u32>)
    ensures
        r == narrowed_u32(x),
{
    if x <= 0xffff_ffff {
        Some(x as u32)
    } else {
        None
    }
}

/// The 8-bit field that the signed 64-bit atom `x` holds, if it fits.
pub fn narrow_i8(x: i64) -> (r: Option<i8>)
    ensures
        r == narrowed_i8(x),
{
    if -0x80 <= x && x <= 0x7f {
        Some(x as i8)
    } else {
        None
    }
}

/// The 16-bit field that the signed 64-bit atom `x` holds, if it fits.
pub fn narrow_i16(x: i64) -> (r: Option<i16>)
    ensures
        r == narrowed_i16(x),
{
    if -0x8000 <= x && x <= 0x7fff {
        Some(x as i16)
    } else {
        None
    }
}

/// The 32-bit field that the signed 64-bit atom `x` holds, if it fits.
pub fn narrow_i32(x: i64) -> (r: Option<i32>)
    ensures
        r == narrowed_i32(x),
{
    if -0x8000_0000 <= x && x <= 0x7fff_ffff {
        Some(x as i32)
    } else {
        None
    }
}

/// A narrow integer field that is widened into a 64-bit atom comes back from
/// it unchanged.
pub proof fn lemma_widen_narrow(a: u8, b: u16, c: u32, d: i8, e: i16, f: i32)
    ensures
        narrowed_u8(a as u64) == Some(a),
        narrowed_u16(b as u64) == Some(b),
        narrowed_u32(c as u64) == Some(c),
        narrowed_i8(d as i64) == Some(d),
        narrowed_i16(e as i64) == Some(e),
        narrowed_i32(f as i64) == Some(f),
{
}

/// An atom that comes back as a narrow field holds that field's value: no
/// value is changed by narrowing.
pub proof fn lemma_narrow_exact(x: u64, y: i64)
    ensures
        narrowed_u8(x).is_some() ==> narrowed_u8(x).unwrap() as u64 == x,
        narrowed_u16(x).is_some() ==> narrowed_u16(x).unwrap() as u64 == x,
        narrowed_u32(x).is_some() ==> narrowed_u32(x).unwrap() as u64 == x,
        narrowed_i8(y).is_some() ==> narrowed_i8(y).unwrap() as i64 == y,
        narrowed_i16(y).is_some() ==> narrowed_i16(y).unwrap() as i64 == y,
        narrowed_i32(y).is_some() ==> narrowed_i32(y).unwrap() as i64 == y,
{
}

} // verus!
