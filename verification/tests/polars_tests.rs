use hdv::format::AtomScheme;
use hdv::format::AtomType;
use hdv::format::AtomValue;
use hdv::format::ValueRow;
use hdv::io::bin::HdvBinRawWriter;
use hdv::io::polars::hdv_bin_polars_read;
use hdv::io::polars::hdv_bin_polars_write;
use hdv::io::polars::hdv_polars_read;
use hdv::io::polars::hdv_polars_write;
use hdv::io::polars::hdv_text_polars_read;
use hdv::io::polars::hdv_text_polars_write;
use hdv::io::polars::Frame;
use hdv::io::text::HdvTextWriterOptions;
use hdv::io::text::TextCell;
use hdv::io::HdvError;

fn column(name: &str, atom_type: AtomType) -> AtomScheme {
    AtomScheme {
        name: name.to_owned(),
        atom_type,
    }
}

fn table() -> Frame {
    Frame {
        header: vec![column("n", AtomType::U64), column("s", AtomType::String)],
        columns: vec![
            vec![Some(AtomValue::U64(1)), None, Some(AtomValue::U64(3))],
            vec![
                Some(AtomValue::String("a".to_owned())),
                Some(AtomValue::String("b".to_owned())),
                None,
            ],
        ],
    }
}

fn rows() -> Vec<ValueRow> {
    vec![
        ValueRow::new(vec![
            Some(AtomValue::U64(1)),
            Some(AtomValue::String("a".to_owned())),
        ]),
        ValueRow::new(vec![None, Some(AtomValue::String("b".to_owned()))]),
        ValueRow::new(vec![Some(AtomValue::U64(3)), None]),
    ]
}

#[test]
fn table_to_rows_and_back() {
    let (got, header) = hdv_polars_write(&table()).unwrap();
    assert_eq!(got, rows());
    assert_eq!(header, table().header);
    assert_eq!(hdv_polars_read(&rows(), &header), Some(table()));
}

#[test]
fn malformed_tables_have_no_rows() {
    let mut ragged = table();
    ragged.columns[1].pop();
    assert!(hdv_polars_write(&ragged).is_none());
    let mut narrow = table();
    narrow.header.pop();
    assert!(hdv_polars_write(&narrow).is_none());
    let empty = Frame {
        header: vec![],
        columns: vec![],
    };
    assert!(hdv_polars_write(&empty).is_none());
    assert_eq!(
        hdv_bin_polars_write(vec![], &empty).unwrap_err(),
        HdvError::InvalidInput
    );
}

#[test]
fn rows_of_the_wrong_width_make_no_table() {
    let header = table().header;
    let mut short = rows();
    short.push(ValueRow::new(vec![None]));
    assert!(hdv_polars_read(&short, &header).is_none());
    let none = hdv_polars_read(&[], &header).unwrap();
    assert_eq!(none.columns, vec![vec![], vec![]]);
}

#[test]
fn binary_table_round_trip() {
    let bytes = hdv_bin_polars_write(vec![], &table()).unwrap();
    let mut writer = HdvBinRawWriter::new(vec![], table().header);
    for row in rows() {
        writer.write(row).unwrap();
    }
    assert_eq!(bytes, writer.flush());
    assert_eq!(hdv_bin_polars_read(bytes).unwrap(), table());
}

#[test]
fn binary_write_appends_and_checks_types() {
    let bytes = hdv_bin_polars_write(vec![1, 2, 3], &table()).unwrap();
    assert_eq!(bytes[..3], [1, 2, 3]);
    let mut wrong = table();
    wrong.columns[0][2] = Some(AtomValue::I64(3));
    assert_eq!(
        hdv_bin_polars_write(vec![], &wrong).unwrap_err(),
        HdvError::InvalidInput
    );
}

#[test]
fn table_without_rows_writes_nothing() {
    let hollow = Frame {
        header: vec![column("n", AtomType::U64)],
        columns: vec![vec![]],
    };
    assert_eq!(hdv_bin_polars_write(vec![], &hollow).unwrap(), Vec::<u8>::new());
    let csv = HdvTextWriterOptions {
        is_csv_header: true,
    };
    assert_eq!(
        hdv_text_polars_write(vec![], &hollow, &[], csv).unwrap(),
        Vec::<u8>::new()
    );
}

#[test]
fn empty_stream_is_an_empty_table() {
    assert_eq!(
        hdv_bin_polars_read(vec![]).unwrap(),
        Frame {
            header: vec![],
            columns: vec![],
        }
    );
    assert_eq!(hdv_text_polars_read(vec![]).unwrap(), (vec![], vec![]));
}

#[test]
fn binary_stream_cut_within_a_row_is_an_error() {
    let bytes = hdv_bin_polars_write(vec![], &table()).unwrap();
    for cut in 1..bytes.len() {
        let r = hdv_bin_polars_read(bytes[..cut].to_vec());
        let whole_rows = hdv_bin_polars_read(bytes[..cut].to_vec()).is_ok();
        if whole_rows {
            let frame = r.unwrap();
            assert_eq!(frame.header, table().header);
            assert!(frame.columns[0].len() < 3);
        } else {
            assert_eq!(r.unwrap_err(), HdvError::UnexpectedEof);
        }
    }
}

#[test]
fn text_table_round_trip() {
    let options = HdvTextWriterOptions {
        is_csv_header: false,
    };
    let bytes = hdv_text_polars_write(vec![], &table(), &[], options).unwrap();
    let text = String::from_utf8(bytes.clone()).unwrap();
    let lines: Vec<&str> = text.lines().collect();
    assert_eq!(lines[1..], ["1,a,", ",b,", "3,,"]);
    let (header, cells) = hdv_text_polars_read(bytes).unwrap();
    assert_eq!(header, table().header);
    assert_eq!(
        cells,
        vec![
            vec![
                Some(TextCell::Atom(AtomValue::U64(1))),
                Some(TextCell::Atom(AtomValue::String("a".to_owned()))),
            ],
            vec![
                None,
                Some(TextCell::Atom(AtomValue::String("b".to_owned()))),
            ],
            vec![Some(TextCell::Atom(AtomValue::U64(3))), None],
        ]
    );
}

#[test]
fn text_table_with_floats_takes_their_texts() {
    let frame = Frame {
        header: vec![column("x", AtomType::F64)],
        columns: vec![vec![
            Some(AtomValue::F64(0.5f64.to_bits())),
            None,
            Some(AtomValue::F64(f64::INFINITY.to_bits())),
        ]],
    };
    let csv = HdvTextWriterOptions {
        is_csv_header: true,
    };
    let texts = vec![vec!["0.5".to_owned()], vec![], vec!["inf".to_owned()]];
    assert_eq!(
        hdv_text_polars_write(vec![], &frame, &texts, csv).unwrap(),
        b"x,\n0.5,\n,\ninf,\n".to_vec()
    );
    assert_eq!(
        hdv_text_polars_write(vec![], &frame, &texts[..2], csv).unwrap_err(),
        HdvError::WriteForbidden
    );
}

#[test]
fn text_stream_with_a_bad_line_is_an_error() {
    let options = HdvTextWriterOptions {
        is_csv_header: false,
    };
    let mut bytes = hdv_text_polars_write(vec![], &table(), &[], options).unwrap();
    bytes.extend_from_slice(b"x,y,\n");
    assert_eq!(
        hdv_text_polars_read(bytes).unwrap_err(),
        HdvError::InvalidInput
    );
}
