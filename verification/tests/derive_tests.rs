use hdv::format::AtomType;
use hdv::format::AtomValue;
use hdv::io::bin::HdvBinReader;
use hdv::io::bin::HdvBinWriter;
use hdv::io::text::HdvTextReader;
use hdv::ov::io::bin::OvBinReader;
use hdv::ov::io::bin::OvBinWriter;
use hdv::io::text::HdvTextWriter;
use hdv::io::text::HdvTextWriterOptions;
use hdv::io::text::TextCell;
use hdv::serde::narrow_i16;
use hdv::serde::narrow_i32;
use hdv::serde::narrow_i8;
use hdv::serde::narrow_u16;
use hdv::serde::narrow_u32;
use hdv::serde::narrow_u8;
use hdv::serde::take_cell;
use hdv::serde::FieldScheme;
use hdv::serde::HdvDeserialize;
use hdv::serde::HdvScheme;
use hdv::serde::HdvSerialize;
use hdv::serde::ObjectScheme;
use hdv::serde::ValueType;

fn atom_field(name: &str, atom_type: AtomType) -> FieldScheme {
    FieldScheme {
        name: name.to_string(),
        value: ValueType::Atom(atom_type),
    }
}

fn take<'a>(values: &mut &'a [Option<AtomValue>]) -> Option<Option<&'a AtomValue>> {
    Some(take_cell(values)?.as_ref())
}

#[derive(Debug, PartialEq)]
pub struct A {
    a: u16,
    b: Option<B>,
    c: Option<f64>,
    d: B,
}

impl HdvScheme for A {
    fn object_scheme() -> ObjectScheme {
        ObjectScheme {
            fields: vec![
                atom_field("a", AtomType::U64),
                FieldScheme {
                    name: "b".to_string(),
                    value: ValueType::Object(B::object_scheme()),
                },
                atom_field("c", AtomType::F64),
                FieldScheme {
                    name: "d".to_string(),
                    value: ValueType::Object(B::object_scheme()),
                },
            ],
        }
    }
}

impl HdvSerialize for A {
    fn serialize(&self, values: &mut Vec<Option<AtomValue>>) {
        values.push(Some(AtomValue::U64(self.a as _)));
        if let Some(x) = self.b.as_ref() {
            HdvSerialize::serialize(x, values);
        } else {
            <B as HdvSerialize>::fill_nulls(values);
        }
        values.push(self.c.map(|x| AtomValue::F64(x.to_bits())));
        HdvSerialize::serialize(&self.d, values);
    }

    fn fill_nulls(values: &mut Vec<Option<AtomValue>>) {
        values.push(None);
        <B as HdvSerialize>::fill_nulls(values);
        values.push(None);
        <B as HdvSerialize>::fill_nulls(values);
    }
}

impl HdvDeserialize for A {
    fn deserialize(values: &mut &[Option<AtomValue>]) -> Option<Self> {
        let a = take(values)?;
        let b = <B as HdvDeserialize>::deserialize(values);
        let c = take(values)?;
        let d = <B as HdvDeserialize>::deserialize(values);
        Some(Self {
            a: narrow_u16(a?.u64()?)?,
            b,
            c: c.map(|x| f64::from_bits(x.f64_bits().unwrap())),
            d: d?,
        })
    }
}

#[derive(Debug, PartialEq)]
pub struct B {
    a: Vec<u8>,
    b: i64,
    c: String,
    d: Option<Vec<u8>>,
}

impl HdvScheme for B {
    fn object_scheme() -> ObjectScheme {
        ObjectScheme {
            fields: vec![
                atom_field("a", AtomType::Bytes),
                atom_field("b", AtomType::I64),
                atom_field("c", AtomType::String),
                atom_field("d", AtomType::Bytes),
            ],
        }
    }
}

impl HdvSerialize for B {
    fn serialize(&self, values: &mut Vec<Option<AtomValue>>) {
        values.push(Some(AtomValue::Bytes(self.a.clone())));
        values.push(Some(AtomValue::I64(self.b)));
        values.push(Some(AtomValue::String(self.c.clone())));
        values.push(self.d.as_ref().map(|x| AtomValue::Bytes(x.clone())));
    }

    fn fill_nulls(values: &mut Vec<Option<AtomValue>>) {
        values.push(None);
        values.push(None);
        values.push(None);
        values.push(None);
    }
}

impl HdvDeserialize for B {
    fn deserialize(values: &mut &[Option<AtomValue>]) -> Option<Self> {
        let a = take(values)?;
        let b = take(values)?;
        let c = take(values)?;
        let d = take(values)?;
        Some(Self {
            a: a?.bytes().unwrap().to_owned(),
            b: b?.i64().unwrap(),
            c: c?.string().unwrap().to_owned(),
            d: d.map(|x| x.bytes().unwrap().to_owned()),
        })
    }
}

#[derive(Debug, PartialEq)]
pub struct PartialA {
    c: Option<f64>,
    a: u16,
}

impl HdvScheme for PartialA {
    fn object_scheme() -> ObjectScheme {
        ObjectScheme {
            fields: vec![atom_field("c", AtomType::F64), atom_field("a", AtomType::U64)],
        }
    }
}

impl HdvDeserialize for PartialA {
    fn deserialize(values: &mut &[Option<AtomValue>]) -> Option<Self> {
        let c = take(values)?;
        let a = take(values)?;
        Some(Self {
            c: c.map(|x| f64::from_bits(x.f64_bits().unwrap())),
            a: narrow_u16(a?.u64()?)?,
        })
    }
}

#[test]
fn test_derive_bin() {
    let a = A {
        a: 1,
        b: None,
        c: Some(3.),
        d: B {
            a: b"hello".to_vec(),
            b: 2,
            c: "world".into(),
            d: None,
        },
    };

    let mut values = vec![];
    a.serialize(&mut values);
    assert_eq!(
        values,
        [
            Some(AtomValue::U64(1)),
            None,
            None,
            None,
            None,
            Some(AtomValue::F64(3.0f64.to_bits())),
            Some(AtomValue::Bytes(b"hello".to_vec())),
            Some(AtomValue::I64(2)),
            Some(AtomValue::String("world".into())),
            None,
        ]
    );

    let b = A::deserialize(&mut &*values).unwrap();
    assert_eq!(a, b);

    let mut writer = HdvBinWriter::new(vec![]);
    writer.write(&a).unwrap();
    let buf = writer.flush();

    let mut reader = HdvBinReader::new(buf.clone());
    let a_: A = reader.read().unwrap();
    assert_eq!(a, a_);

    let mut reader = HdvBinReader::new(buf);
    let partial_a: PartialA = reader.read().unwrap();
    assert_eq!(a.a, partial_a.a);
    assert_eq!(a.c, partial_a.c);
}

#[derive(Debug, PartialEq)]
pub struct TextA {
    a: u16,
    b: Option<TextB>,
    c: Option<f64>,
    d: TextB,
}

#[derive(Debug, PartialEq)]
pub struct TextB {
    b: i64,
    c: String,
}

impl HdvScheme for TextB {
    fn object_scheme() -> ObjectScheme {
        ObjectScheme {
            fields: vec![atom_field("b", AtomType::I64), atom_field("c", AtomType::String)],
        }
    }
}

impl HdvSerialize for TextB {
    fn serialize(&self, values: &mut Vec<Option<AtomValue>>) {
        values.push(Some(AtomValue::I64(self.b)));
        values.push(Some(AtomValue::String(self.c.clone())));
    }

    fn fill_nulls(values: &mut Vec<Option<AtomValue>>) {
        values.push(None);
        values.push(None);
    }
}

impl HdvDeserialize for TextB {
    fn deserialize(values: &mut &[Option<AtomValue>]) -> Option<Self> {
        let b = take(values)?;
        let c = take(values)?;
        Some(Self {
            b: b?.i64().unwrap(),
            c: c?.string().unwrap().to_owned(),
        })
    }
}

impl HdvScheme for TextA {
    fn object_scheme() -> ObjectScheme {
        ObjectScheme {
            fields: vec![
                atom_field("a", AtomType::U64),
                FieldScheme {
                    name: "b".to_string(),
                    value: ValueType::Object(TextB::object_scheme()),
                },
                atom_field("c", AtomType::F64),
                FieldScheme {
                    name: "d".to_string(),
                    value: ValueType::Object(TextB::object_scheme()),
                },
            ],
        }
    }
}

impl HdvSerialize for TextA {
    fn serialize(&self, values: &mut Vec<Option<AtomValue>>) {
        values.push(Some(AtomValue::U64(self.a as _)));
        if let Some(x) = self.b.as_ref() {
            HdvSerialize::serialize(x, values);
        } else {
            <TextB as HdvSerialize>::fill_nulls(values);
        }
        values.push(self.c.map(|x| AtomValue::F64(x.to_bits())));
        HdvSerialize::serialize(&self.d, values);
    }

    fn fill_nulls(values: &mut Vec<Option<AtomValue>>) {
        values.push(None);
        <TextB as HdvSerialize>::fill_nulls(values);
        values.push(None);
        <TextB as HdvSerialize>::fill_nulls(values);
    }
}

impl HdvDeserialize for TextA {
    fn deserialize(values: &mut &[Option<AtomValue>]) -> Option<Self> {
        let a = take(values)?;
        let b = <TextB as HdvDeserialize>::deserialize(values);
        let c = take(values)?;
        let d = <TextB as HdvDeserialize>::deserialize(values);
        Some(Self {
            a: narrow_u16(a?.u64()?)?,
            b,
            c: c.map(|x| f64::from_bits(x.f64_bits().unwrap())),
            d: d?,
        })
    }
}

fn float_texts(cells: &[Option<AtomValue>]) -> Vec<String> {
    cells
        .iter()
        .map(|cell| match cell {
            Some(AtomValue::F32(bits)) => format!("{:?}", f32::from_bits(*bits)),
            Some(AtomValue::F64(bits)) => format!("{:?}", f64::from_bits(*bits)),
            _ => String::new(),
        })
        .collect()
}

fn float_bits(cells: &[Option<TextCell>]) -> Vec<u64> {
    cells
        .iter()
        .map(|cell| match cell {
            Some(TextCell::Float(text)) => text.parse::<f64>().unwrap().to_bits(),
            _ => 0,
        })
        .collect()
}

#[test]
fn test_derive_text() {
    let a = TextA {
        a: 1,
        b: None,
        c: Some(3.),
        d: TextB {
            b: 2,
            c: "world".into(),
        },
    };

    let mut values = vec![];
    a.serialize(&mut values);
    assert_eq!(
        values,
        [
            Some(AtomValue::U64(1)),
            None,
            None,
            Some(AtomValue::F64(3.0f64.to_bits())),
            Some(AtomValue::I64(2)),
            Some(AtomValue::String("world".into())),
        ]
    );

    let b = TextA::deserialize(&mut &*values).unwrap();
    assert_eq!(a, b);

    let options = HdvTextWriterOptions {
        is_csv_header: false,
    };
    let mut writer = HdvTextWriter::new(vec![], options);
    writer.write(&a, &float_texts(&values)).unwrap();
    let buf = writer.flush();

    let mut reader: HdvTextReader<TextA> = HdvTextReader::new(buf.clone());
    let cells = reader.read_text(&TextA::object_scheme()).unwrap();
    let a_ = reader.build(&cells, &float_bits(&cells)).unwrap();
    assert_eq!(a, a_);

    let mut reader: HdvTextReader<PartialA> = HdvTextReader::new(buf);
    let cells = reader.read_text(&PartialA::object_scheme()).unwrap();
    let partial_a = reader.build(&cells, &float_bits(&cells)).unwrap();
    assert_eq!(a.a, partial_a.a);
    assert_eq!(a.c, partial_a.c);
}

#[test]
fn narrowing_that_does_not_fit_fails_the_record() {
    let values = vec![
        Some(AtomValue::F64(0)),
        Some(AtomValue::U64(65536)),
    ];
    assert_eq!(PartialA::deserialize(&mut &*values), None);
    let values = vec![None, Some(AtomValue::U64(65535))];
    assert_eq!(
        PartialA::deserialize(&mut &*values),
        Some(PartialA { c: None, a: 65535 })
    );
}

#[test]
fn narrowing_keeps_what_fits_and_refuses_the_rest() {
    assert_eq!(narrow_u8(0), Some(0));
    assert_eq!(narrow_u8(255), Some(255));
    assert_eq!(narrow_u8(256), None);
    assert_eq!(narrow_u16(65535), Some(65535));
    assert_eq!(narrow_u16(65536), None);
    assert_eq!(narrow_u32(u32::MAX as u64), Some(u32::MAX));
    assert_eq!(narrow_u32(u32::MAX as u64 + 1), None);
    assert_eq!(narrow_u32(u64::MAX), None);
    assert_eq!(narrow_i8(-128), Some(-128));
    assert_eq!(narrow_i8(127), Some(127));
    assert_eq!(narrow_i8(-129), None);
    assert_eq!(narrow_i8(128), None);
    assert_eq!(narrow_i16(i16::MIN as i64), Some(i16::MIN));
    assert_eq!(narrow_i16(i16::MAX as i64 + 1), None);
    assert_eq!(narrow_i32(i32::MIN as i64), Some(i32::MIN));
    assert_eq!(narrow_i32(i32::MIN as i64 - 1), None);
    assert_eq!(narrow_i32(i64::MAX), None);
    for x in [0u16, 1, 255, 256, u16::MAX] {
        assert_eq!(narrow_u16(x as u64), Some(x));
    }
    for x in [i8::MIN, -1, 0, 1, i8::MAX] {
        assert_eq!(narrow_i8(x as i64), Some(x));
    }
}

#[test]
fn take_cell_takes_the_first_cell() {
    let cells = vec![Some(AtomValue::U64(1)), None];
    let mut rest: &[Option<AtomValue>] = &cells;
    assert_eq!(take_cell(&mut rest), Some(&Some(AtomValue::U64(1))));
    assert_eq!(rest.len(), 1);
    assert_eq!(take_cell(&mut rest), Some(&None));
    assert!(rest.is_empty());
    assert_eq!(take_cell(&mut rest), None);
    assert!(rest.is_empty());
}

#[test]
fn projected_record_reads_from_a_sentinel_stream() {
    let a = A {
        a: 1,
        b: None,
        c: Some(3.),
        d: B {
            a: b"hello".to_vec(),
            b: 2,
            c: "world".into(),
            d: None,
        },
    };
    let mut writer = OvBinWriter::new(vec![]);
    writer.write(&a).unwrap();
    let buf = writer.flush();

    let mut reader = OvBinReader::new(buf.clone());
    let a_: A = reader.read().unwrap();
    assert_eq!(a, a_);

    let mut reader = OvBinReader::new(buf);
    let partial_a: PartialA = reader.read().unwrap();
    assert_eq!(partial_a, PartialA { c: Some(3.), a: 1 });
}
