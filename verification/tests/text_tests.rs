use hdv::format::AtomScheme;
use hdv::format::AtomType;
use hdv::format::AtomValue;
use hdv::format::ValueRow;
use hdv::io::text::read_row;
use hdv::io::text::resolve_floats;
use hdv::io::text::write_row;
use hdv::io::text::HdvTextRawReader;
use hdv::io::text::HdvTextRawWriter;
use hdv::io::text::HdvTextReader;
use hdv::io::text::HdvTextWriter;
use hdv::io::text::HdvTextWriterOptions;
use hdv::io::text::TextCell;
use hdv::io::HdvError;
use hdv::serde::FieldScheme;
use hdv::serde::HdvDeserialize;
use hdv::serde::HdvScheme;
use hdv::serde::HdvSerialize;
use hdv::serde::ObjectScheme;
use hdv::serde::ValueType;

#[derive(Debug, PartialEq)]
struct A {
    a: i64,
    b: f64,
}

impl HdvScheme for A {
    fn object_scheme() -> ObjectScheme {
        ObjectScheme {
            fields: vec![
                FieldScheme {
                    name: "a".to_string(),
                    value: ValueType::Atom(AtomType::I64),
                },
                FieldScheme {
                    name: "b".to_string(),
                    value: ValueType::Atom(AtomType::F64),
                },
            ],
        }
    }
}

impl HdvSerialize for A {
    fn serialize(&self, values: &mut Vec<Option<AtomValue>>) {
        values.push(Some(AtomValue::I64(self.a)));
        values.push(Some(AtomValue::F64(self.b.to_bits())));
    }

    fn fill_nulls(values: &mut Vec<Option<AtomValue>>) {
        values.push(None);
        values.push(None);
    }
}

impl HdvDeserialize for A {
    fn deserialize(values: &mut &[Option<AtomValue>]) -> Option<Self> {
        let a = {
            let value = values.first()?.as_ref();
            *values = &values[1..];
            value
        };
        let b = {
            let value = values.first()?.as_ref();
            *values = &values[1..];
            value
        };
        Some(Self {
            a: a?.i64().unwrap() as _,
            b: f64::from_bits(b?.f64_bits().unwrap()),
        })
    }
}

/// The decimal text of each float cell, place by place.
fn float_texts(cells: &[Option<AtomValue>]) -> Vec<String> {
    cells
        .iter()
        .map(|cell| match cell {
            Some(AtomValue::F32(bits)) => format!("{:?}", f32::from_bits(*bits)),
            Some(AtomValue::F64(bits)) => format!("{:?}", f64::from_bits(*bits)),
            _ => String::new(),
        })
        .collect()
}

/// The bit pattern of each float cell of a line, place by place.
fn float_bits(cells: &[Option<TextCell>], header: &[AtomScheme]) -> Vec<u64> {
    cells
        .iter()
        .zip(header.iter())
        .map(|(cell, column)| match (cell, column.atom_type) {
            (Some(TextCell::Float(text)), AtomType::F32) => {
                text.parse::<f32>().unwrap().to_bits() as u64
            }
            (Some(TextCell::Float(text)), _) => text.parse::<f64>().unwrap().to_bits(),
            _ => 0,
        })
        .collect()
}

fn texts_of<O: HdvSerialize>(object: &O) -> Vec<String> {
    let mut cells = vec![];
    object.serialize(&mut cells);
    float_texts(&cells)
}

fn write_two(options: HdvTextWriterOptions) -> Vec<u8> {
    let mut writer = HdvTextWriter::new(vec![], options);
    let a = A { a: 1, b: 2. };
    let b = A { a: 3, b: 4. };
    writer.write(&a, &texts_of(&a)).unwrap();
    writer.write(&b, &texts_of(&b)).unwrap();
    writer.flush()
}

fn read_record(reader: &mut HdvTextReader<A>) -> Result<A, HdvError> {
    let header = A::object_scheme().atom_schemes();
    let cells = reader.read_text(&A::object_scheme())?;
    let bits = float_bits(&cells, &header);
    reader.build(&cells, &bits)
}

fn read_raw(reader: &mut HdvTextRawReader) -> Result<ValueRow, HdvError> {
    let cells = reader.read()?;
    let header = reader.header().unwrap();
    let bits = float_bits(&cells, header);
    Ok(resolve_floats(&cells, header, &bits).unwrap())
}

#[test]
fn text_test_io() {
    let options = HdvTextWriterOptions {
        is_csv_header: false,
    };
    let a = A { a: 1, b: 2. };
    let b = A { a: 3, b: 4. };
    let buf = write_two(options);
    println!("{}", String::from_utf8(buf.clone()).unwrap());

    let mut reader = HdvTextReader::new(buf.clone());
    let a_: A = read_record(&mut reader).unwrap();
    let b_: A = read_record(&mut reader).unwrap();
    assert_eq!(a, a_);
    assert_eq!(b, b_);

    let mut reader = HdvTextRawReader::new(buf.clone());
    let a_ = read_raw(&mut reader).unwrap();
    let b_ = read_raw(&mut reader).unwrap();
    assert_eq!(
        a_.atoms().as_slice(),
        [
            Some(AtomValue::I64(1)),
            Some(AtomValue::F64(2.0f64.to_bits()))
        ]
    );
    assert_eq!(
        b_.atoms().as_slice(),
        [
            Some(AtomValue::I64(3)),
            Some(AtomValue::F64(4.0f64.to_bits()))
        ]
    );

    let options = HdvTextWriterOptions {
        is_csv_header: true,
    };
    let buf = write_two(options);
    println!("{}", String::from_utf8(buf.clone()).unwrap());

    let header = A::object_scheme().atom_schemes().clone();
    let mut writer = HdvTextRawWriter::new(vec![], header, options);
    let row = vec![
        Some(AtomValue::I64(1)),
        Some(AtomValue::F64(2.0f64.to_bits())),
    ];
    let texts = float_texts(&row);
    writer.write(ValueRow::new(row), &texts).unwrap();
    let row = vec![
        Some(AtomValue::I64(3)),
        Some(AtomValue::F64(4.0f64.to_bits())),
    ];
    let texts = float_texts(&row);
    writer.write(ValueRow::new(row), &texts).unwrap();
    let buf_ = writer.flush();
    assert_eq!(buf, buf_);
}

#[test]
fn row_renders_with_terminating_comma() {
    let row = vec![
        Some(AtomValue::I64(1)),
        Some(AtomValue::F64(2.0f64.to_bits())),
    ];
    let texts = float_texts(&row);
    let mut out = vec![];
    write_row(&mut out, &ValueRow::new(row), &texts).unwrap();
    assert_eq!(out, b"1,2.0,\n".to_vec());
}

#[test]
fn csv_header_is_names_only_and_cannot_be_read() {
    let buf = write_two(HdvTextWriterOptions {
        is_csv_header: true,
    });
    assert_eq!(buf, b"a,b,\n1,2.0,\n3,4.0,\n".to_vec());
    let mut reader = HdvTextRawReader::new(buf.clone());
    assert_eq!(reader.read().unwrap_err(), HdvError::InvalidInput);
    let mut reader: HdvTextReader<A> = HdvTextReader::new(buf);
    assert_eq!(
        read_record(&mut reader).unwrap_err(),
        HdvError::InvalidInput
    );
}

#[test]
fn self_describing_header_is_one_line() {
    let buf = write_two(HdvTextWriterOptions {
        is_csv_header: false,
    });
    let text = String::from_utf8(buf).unwrap();
    let lines: Vec<&str> = text.split('\n').collect();
    assert_eq!(lines.len(), 4);
    assert!(lines[0].contains("\"a\""));
    assert!(lines[0].contains("I64"));
    assert!(lines[0].contains("F64"));
    assert_eq!(lines[1], "1,2.0,");
    assert_eq!(lines[2], "3,4.0,");
    assert_eq!(lines[3], "");
}

fn string_row(text: &str) -> ValueRow {
    ValueRow::new(vec![Some(AtomValue::String(text.to_owned()))])
}

#[test]
fn forbidden_strings_fail_write_forbidden() {
    for text in ["hello,world", "say \"hi\"", "two\nlines", " lead", "\tlead", "\u{a0}lead"] {
        let mut out = vec![7u8];
        assert_eq!(
            write_row(&mut out, &string_row(text), &[]).unwrap_err(),
            HdvError::WriteForbidden
        );
        assert_eq!(out, vec![7u8]);
    }
    let mut out = vec![];
    write_row(&mut out, &string_row("hello world "), &[]).unwrap();
    assert_eq!(out, b"hello world ,\n".to_vec());
}

#[test]
fn bytes_fail_write_forbidden() {
    let row = ValueRow::new(vec![Some(AtomValue::Bytes(vec![1, 2]))]);
    let mut out = vec![];
    assert_eq!(
        write_row(&mut out, &row, &[]).unwrap_err(),
        HdvError::WriteForbidden
    );
    assert!(out.is_empty());
}

#[test]
fn float_without_text_fails_write_forbidden() {
    let row = ValueRow::new(vec![Some(AtomValue::F32(0))]);
    let mut out = vec![];
    assert_eq!(
        write_row(&mut out, &row, &[]).unwrap_err(),
        HdvError::WriteForbidden
    );
    assert_eq!(
        write_row(&mut out, &row, &["1,5".to_owned()]).unwrap_err(),
        HdvError::WriteForbidden
    );
    write_row(&mut out, &row, &["0.0".to_owned()]).unwrap();
    assert_eq!(out, b"0.0,\n".to_vec());
}

#[test]
fn raw_writer_writes_nothing_on_failure() {
    let header = vec![AtomScheme {
        name: "s".to_owned(),
        atom_type: AtomType::String,
    }];
    let options = HdvTextWriterOptions {
        is_csv_header: true,
    };
    let mut writer = HdvTextRawWriter::new(vec![], header, options);
    assert_eq!(
        writer.write(string_row("a,b"), &[]).unwrap_err(),
        HdvError::WriteForbidden
    );
    assert_eq!(
        writer
            .write(ValueRow::new(vec![Some(AtomValue::U64(1))]), &[])
            .unwrap_err(),
        HdvError::InvalidInput
    );
    assert_eq!(writer.flush(), Vec::<u8>::new());
    writer.write(string_row("ab"), &[]).unwrap();
    assert_eq!(writer.flush(), b"s,\nab,\n".to_vec());
}

fn columns(types: &[AtomType]) -> Vec<AtomScheme> {
    types
        .iter()
        .enumerate()
        .map(|(i, t)| AtomScheme {
            name: format!("c{}", i),
            atom_type: *t,
        })
        .collect()
}

#[test]
fn all_kinds_of_cell_render_and_parse() {
    let header = columns(&[
        AtomType::String,
        AtomType::U64,
        AtomType::I64,
        AtomType::I64,
        AtomType::Bool,
        AtomType::Bool,
        AtomType::F32,
        AtomType::U64,
    ]);
    let row = vec![
        Some(AtomValue::String("hello world".to_owned())),
        Some(AtomValue::U64(u64::MAX)),
        Some(AtomValue::I64(i64::MIN)),
        Some(AtomValue::I64(0)),
        Some(AtomValue::Bool(true)),
        Some(AtomValue::Bool(false)),
        Some(AtomValue::F32(1.5f32.to_bits())),
        None,
    ];
    let texts = float_texts(&row);
    let mut out = vec![];
    write_row(&mut out, &ValueRow::new(row), &texts).unwrap();
    assert_eq!(
        out,
        b"hello world,18446744073709551615,-9223372036854775808,0,true,false,1.5,,\n".to_vec()
    );
    let cells = read_row(&out, &header).unwrap();
    assert_eq!(
        cells,
        vec![
            Some(TextCell::Atom(AtomValue::String("hello world".to_owned()))),
            Some(TextCell::Atom(AtomValue::U64(u64::MAX))),
            Some(TextCell::Atom(AtomValue::I64(i64::MIN))),
            Some(TextCell::Atom(AtomValue::I64(0))),
            Some(TextCell::Atom(AtomValue::Bool(true))),
            Some(TextCell::Atom(AtomValue::Bool(false))),
            Some(TextCell::Float("1.5".to_owned())),
            None,
        ]
    );
}

#[test]
fn parsing_trims_white_space_and_tolerates_extra_fields() {
    let header = columns(&[AtomType::U64, AtomType::String, AtomType::I64, AtomType::F64]);
    let cells = read_row(b" 42 ,  two words ,\t+7, 1e3 ,extra,more\n", &header).unwrap();
    assert_eq!(
        cells,
        vec![
            Some(TextCell::Atom(AtomValue::U64(42))),
            Some(TextCell::Atom(AtomValue::String("two words ".to_owned()))),
            Some(TextCell::Atom(AtomValue::I64(7))),
            Some(TextCell::Float("1e3".to_owned())),
        ]
    );
    let cells = read_row(b",  ,\t,\n", &header).unwrap();
    assert_eq!(cells, vec![None, None, None, None]);
}

#[test]
fn malformed_fields_are_invalid_input() {
    let err = |line: &[u8], t: AtomType| read_row(line, &columns(&[t])).unwrap_err();
    assert_eq!(err(b"-1,\n", AtomType::U64), HdvError::InvalidInput);
    assert_eq!(err(b"18446744073709551616,\n", AtomType::U64), HdvError::InvalidInput);
    assert_eq!(err(b"1 2,\n", AtomType::I64), HdvError::InvalidInput);
    assert_eq!(err(b"9223372036854775808,\n", AtomType::I64), HdvError::InvalidInput);
    assert_eq!(err(b"True,\n", AtomType::Bool), HdvError::InvalidInput);
    assert_eq!(err(b"abc,\n", AtomType::Bytes), HdvError::InvalidInput);
    assert_eq!(err(b"\xff,\n", AtomType::String), HdvError::InvalidInput);
    let two = columns(&[AtomType::U64, AtomType::U64]);
    assert_eq!(read_row(b"1", &two).unwrap_err(), HdvError::InvalidInput);
    assert_eq!(read_row(b"1,2", &two).unwrap().len(), 2);
}

#[test]
fn floats_resolve_by_column_type() {
    let header = columns(&[AtomType::F32, AtomType::F64, AtomType::U64]);
    let cells = read_row(b"1.5,NaN,3,\n", &header).unwrap();
    let bits = float_bits(&cells, &header);
    let row = resolve_floats(&cells, &header, &bits).unwrap();
    assert_eq!(
        row.atoms().as_slice(),
        [
            Some(AtomValue::F32(1.5f32.to_bits())),
            Some(AtomValue::F64(f64::NAN.to_bits())),
            Some(AtomValue::U64(3)),
        ]
    );
    assert!(resolve_floats(&cells, &header, &[]).is_none());
    assert!(resolve_floats(&cells, &header, &[u64::MAX, 0, 0]).is_none());
    assert!(resolve_floats(&cells, &header[..2], &bits).is_none());
}

#[test]
fn text_reader_ends_with_unexpected_eof() {
    let buf = write_two(HdvTextWriterOptions {
        is_csv_header: false,
    });
    let mut reader = HdvTextRawReader::new(buf);
    assert!(reader.header().is_none());
    reader.read().unwrap();
    assert_eq!(
        reader.header().unwrap(),
        &A::object_scheme().atom_schemes()
    );
    reader.read().unwrap();
    assert_eq!(reader.read().unwrap_err(), HdvError::UnexpectedEof);
    let mut reader = HdvTextRawReader::new(vec![]);
    assert_eq!(reader.read().unwrap_err(), HdvError::UnexpectedEof);
}

#[derive(Debug, PartialEq)]
struct Ints {
    n: u64,
    flag: bool,
}

impl HdvScheme for Ints {
    fn object_scheme() -> ObjectScheme {
        ObjectScheme {
            fields: vec![
                FieldScheme {
                    name: "n".to_string(),
                    value: ValueType::Atom(AtomType::U64),
                },
                FieldScheme {
                    name: "flag".to_string(),
                    value: ValueType::Atom(AtomType::Bool),
                },
            ],
        }
    }
}

impl HdvSerialize for Ints {
    fn serialize(&self, values: &mut Vec<Option<AtomValue>>) {
        values.push(Some(AtomValue::U64(self.n)));
        values.push(Some(AtomValue::Bool(self.flag)));
    }

    fn fill_nulls(values: &mut Vec<Option<AtomValue>>) {
        values.push(None);
        values.push(None);
    }
}

impl HdvDeserialize for Ints {
    fn deserialize(values: &mut &[Option<AtomValue>]) -> Option<Self> {
        let n = values.first()?.as_ref()?.u64()?;
        let flag = values.get(1)?.as_ref()?.bool()?;
        *values = &values[2..];
        Some(Self { n, flag })
    }
}

#[derive(Debug, PartialEq)]
struct FlagOnly {
    flag: bool,
}

impl HdvScheme for FlagOnly {
    fn object_scheme() -> ObjectScheme {
        ObjectScheme {
            fields: vec![FieldScheme {
                name: "flag".to_string(),
                value: ValueType::Atom(AtomType::Bool),
            }],
        }
    }
}

impl HdvDeserialize for FlagOnly {
    fn deserialize(values: &mut &[Option<AtomValue>]) -> Option<Self> {
        let flag = values.first()?.as_ref()?.bool()?;
        *values = &values[1..];
        Some(Self { flag })
    }
}

#[test]
fn records_without_floats_read_in_one_step() {
    let options = HdvTextWriterOptions {
        is_csv_header: false,
    };
    let mut writer = HdvTextWriter::new(vec![], options);
    writer.write(&Ints { n: 5, flag: true }, &[]).unwrap();
    writer.write(&Ints { n: 0, flag: false }, &[]).unwrap();
    let buf = writer.flush();

    let mut reader: HdvTextReader<Ints> = HdvTextReader::new(buf.clone());
    assert_eq!(reader.read().unwrap(), Ints { n: 5, flag: true });
    assert_eq!(reader.read().unwrap(), Ints { n: 0, flag: false });
    assert_eq!(reader.read().unwrap_err(), HdvError::UnexpectedEof);

    let mut reader: HdvTextReader<FlagOnly> = HdvTextReader::new(buf.clone());
    assert_eq!(reader.read().unwrap(), FlagOnly { flag: true });

    let mut reader: HdvTextReader<A> = HdvTextReader::new(buf);
    assert_eq!(reader.read().unwrap_err(), HdvError::SchemaMismatch);
}

#[test]
fn null_in_required_field_is_record_build() {
    let header = Ints::object_scheme().atom_schemes();
    let options = HdvTextWriterOptions {
        is_csv_header: false,
    };
    let mut writer = HdvTextRawWriter::new(vec![], header, options);
    writer
        .write(ValueRow::new(vec![None, Some(AtomValue::Bool(true))]), &[])
        .unwrap();
    let mut reader: HdvTextReader<Ints> = HdvTextReader::new(writer.flush());
    assert_eq!(reader.read().unwrap_err(), HdvError::RecordBuild);
}
