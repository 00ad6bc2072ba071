use hdv::format::append_bytes;
use hdv::format::clone_cell;
use hdv::format::AtomScheme;
use hdv::format::AtomType;
use hdv::format::AtomValue;
use hdv::format::ValueRow;
use hdv::wire::Cursor;

fn encoded(value: &AtomValue) -> Vec<u8> {
    let mut buf = vec![];
    value.encode(&mut buf);
    buf
}

fn decoded(ty: AtomType, bytes: &[u8]) -> Option<(AtomValue, usize)> {
    let mut cursor = Cursor::new(bytes);
    let value = AtomValue::decode(ty, &mut cursor)?;
    Some((value, cursor.pos))
}

fn round_trip(value: AtomValue) {
    let mut bytes = encoded(&value);
    let len = bytes.len();
    bytes.extend_from_slice(&[0xff, 0x00, 0x80]);
    assert_eq!(decoded(value.atom_type(), &bytes), Some((value, len)));
}

#[test]
fn atom_u64_encoding_is_leb128() {
    let mut buf = vec![];
    AtomValue::U64(300).encode(&mut buf);
    assert_eq!(buf, vec![0xac, 0x02]);
    let mut cursor = Cursor::new(&buf);
    assert_eq!(
        AtomValue::decode(AtomType::U64, &mut cursor),
        Some(AtomValue::U64(300))
    );
    assert_eq!(cursor.pos, 2);
}

#[test]
fn atom_encodings_by_type() {
    assert_eq!(encoded(&AtomValue::U64(0)), vec![0]);
    assert_eq!(encoded(&AtomValue::U64(127)), vec![127]);
    assert_eq!(encoded(&AtomValue::U64(128)), vec![0x80, 1]);
    assert_eq!(
        encoded(&AtomValue::U64(u64::MAX)),
        vec![0xff, 0xff, 0xff, 0xff, 0xff, 0xff, 0xff, 0xff, 0xff, 1]
    );
    assert_eq!(encoded(&AtomValue::I64(0)), vec![0]);
    assert_eq!(encoded(&AtomValue::I64(-1)), vec![1]);
    assert_eq!(encoded(&AtomValue::I64(1)), vec![2]);
    assert_eq!(encoded(&AtomValue::I64(-64)), vec![127]);
    assert_eq!(encoded(&AtomValue::I64(64)), vec![0x80, 1]);
    assert_eq!(
        encoded(&AtomValue::I64(i64::MIN)),
        vec![0xff, 0xff, 0xff, 0xff, 0xff, 0xff, 0xff, 0xff, 0xff, 1]
    );
    assert_eq!(
        encoded(&AtomValue::F32(1.0f32.to_bits())),
        vec![0, 0, 0x80, 0x3f]
    );
    assert_eq!(
        encoded(&AtomValue::F64(1.0f64.to_bits())),
        vec![0, 0, 0, 0, 0, 0, 0xf0, 0x3f]
    );
    assert_eq!(encoded(&AtomValue::Bool(false)), vec![0]);
    assert_eq!(encoded(&AtomValue::Bool(true)), vec![1]);
    assert_eq!(
        encoded(&AtomValue::String("h\u{e9}".to_owned())),
        vec![3, b'h', 0xc3, 0xa9]
    );
    assert_eq!(encoded(&AtomValue::Bytes(vec![9, 8])), vec![2, 9, 8]);
    assert_eq!(encoded(&AtomValue::String(String::new())), vec![0]);
    assert_eq!(encoded(&AtomValue::Bytes(vec![])), vec![0]);
}

#[test]
fn encode_appends_to_what_the_buffer_holds() {
    let mut buf = vec![5, 6];
    AtomValue::Bool(true).encode(&mut buf);
    AtomValue::U64(1).encode(&mut buf);
    assert_eq!(buf, vec![5, 6, 1, 1]);
}

#[test]
fn atoms_round_trip() {
    round_trip(AtomValue::String(String::new()));
    round_trip(AtomValue::String("gr\u{fc}\u{df}e, \u{4e16}\u{754c} \u{1f600}".to_owned()));
    round_trip(AtomValue::String("x".repeat(300)));
    round_trip(AtomValue::Bytes(vec![]));
    round_trip(AtomValue::Bytes((0..=255).collect()));
    for x in [0, 1, 127, 128, 16383, 16384, u32::MAX as u64, u64::MAX - 1, u64::MAX] {
        round_trip(AtomValue::U64(x));
    }
    for x in [0, -1, 1, -64, 63, 64, -65, i32::MIN as i64, i64::MAX, i64::MIN] {
        round_trip(AtomValue::I64(x));
    }
    for x in [0.0f32, -0.0, 1.5, f32::INFINITY, f32::NAN, f32::MIN_POSITIVE] {
        round_trip(AtomValue::F32(x.to_bits()));
    }
    for x in [0.0f64, -0.0, 1.5, f64::NEG_INFINITY, f64::NAN, f64::MAX] {
        round_trip(AtomValue::F64(x.to_bits()));
    }
    round_trip(AtomValue::Bool(true));
    round_trip(AtomValue::Bool(false));
}

#[test]
fn nan_bit_patterns_are_kept() {
    for bits in [0x7ff8_0000_0000_0001u64, 0xfff0_0000_dead_beef, 0x7ff0_0000_0000_0001] {
        assert!(f64::from_bits(bits).is_nan());
        round_trip(AtomValue::F64(bits));
    }
    for bits in [0x7fc0_0001u32, 0xff80_beef] {
        assert!(f32::from_bits(bits).is_nan());
        round_trip(AtomValue::F32(bits));
    }
}

#[test]
fn decode_failures() {
    // Cut short.
    assert_eq!(decoded(AtomType::U64, &[]), None);
    assert_eq!(decoded(AtomType::U64, &[0x80]), None);
    assert_eq!(decoded(AtomType::I64, &[0xff, 0xff]), None);
    assert_eq!(decoded(AtomType::F32, &[1, 2, 3]), None);
    assert_eq!(decoded(AtomType::F64, &[1, 2, 3, 4, 5, 6, 7]), None);
    assert_eq!(decoded(AtomType::Bool, &[]), None);
    assert_eq!(decoded(AtomType::String, &[3, b'a', b'b']), None);
    assert_eq!(decoded(AtomType::Bytes, &[1]), None);
    assert_eq!(
        decoded(AtomType::Bytes, &[0xff, 0xff, 0xff, 0xff, 0xff, 0xff, 0xff, 0xff, 0xff, 1, 0]),
        None
    );
    // Not a varint.
    assert_eq!(decoded(AtomType::U64, &[0x80; 11]), None);
    assert_eq!(
        decoded(AtomType::U64, &[0xff, 0xff, 0xff, 0xff, 0xff, 0xff, 0xff, 0xff, 0xff, 2]),
        None
    );
    // Not UTF-8.
    assert_eq!(decoded(AtomType::String, &[2, 0xc3, 0x28]), None);
    assert_eq!(decoded(AtomType::String, &[1, 0xff]), None);
    // Not a boolean.
    assert_eq!(decoded(AtomType::Bool, &[2]), None);
    assert_eq!(decoded(AtomType::Bool, &[255]), None);
}

#[test]
fn failed_decode_leaves_the_cursor() {
    let bytes = [7, 3, b'a'];
    let mut cursor = Cursor::new(&bytes);
    assert_eq!(
        AtomValue::decode(AtomType::U64, &mut cursor),
        Some(AtomValue::U64(7))
    );
    assert_eq!(cursor.pos, 1);
    assert_eq!(AtomValue::decode(AtomType::String, &mut cursor), None);
    assert_eq!(cursor.pos, 1);
    assert_eq!(
        AtomValue::decode(AtomType::U64, &mut cursor),
        Some(AtomValue::U64(3))
    );
    assert_eq!(cursor.pos, 2);
}

#[test]
fn varints_longer_than_needed_are_read() {
    assert_eq!(
        decoded(AtomType::U64, &[0x80, 0x00]),
        Some((AtomValue::U64(0), 2))
    );
    assert_eq!(
        decoded(AtomType::U64, &[0x81, 0x80, 0x00, 9]),
        Some((AtomValue::U64(1), 3))
    );
}

#[test]
fn getters_answer_for_their_own_type_only() {
    let s = AtomValue::String("a".to_owned());
    let b = AtomValue::Bytes(vec![1]);
    let u = AtomValue::U64(2);
    let i = AtomValue::I64(-3);
    let f = AtomValue::F32(4);
    let d = AtomValue::F64(5);
    let t = AtomValue::Bool(true);
    assert_eq!(s.string(), Some(&"a".to_owned()));
    assert_eq!(b.bytes(), Some(&vec![1]));
    assert_eq!(u.u64(), Some(2));
    assert_eq!(i.i64(), Some(-3));
    assert_eq!(f.f32_bits(), Some(4));
    assert_eq!(d.f64_bits(), Some(5));
    assert_eq!(t.bool(), Some(true));
    for v in [&s, &b, &u, &i, &f, &d, &t] {
        let hits = [
            v.string().is_some(),
            v.bytes().is_some(),
            v.u64().is_some(),
            v.i64().is_some(),
            v.f32_bits().is_some(),
            v.f64_bits().is_some(),
            v.bool().is_some(),
        ];
        assert_eq!(hits.iter().filter(|x| **x).count(), 1);
    }
    assert_eq!(s.atom_type(), AtomType::String);
    assert_eq!(b.atom_type(), AtomType::Bytes);
    assert_eq!(u.atom_type(), AtomType::U64);
    assert_eq!(i.atom_type(), AtomType::I64);
    assert_eq!(f.atom_type(), AtomType::F32);
    assert_eq!(d.atom_type(), AtomType::F64);
    assert_eq!(t.atom_type(), AtomType::Bool);
}

#[test]
fn clones_are_equal() {
    let values = vec![
        Some(AtomValue::String("a".to_owned())),
        Some(AtomValue::Bytes(vec![1, 2, 3])),
        Some(AtomValue::F64(7)),
        None,
    ];
    for v in &values {
        assert_eq!(&clone_cell(v), v);
    }
    let column = AtomScheme {
        name: "n".to_owned(),
        atom_type: AtomType::I64,
    };
    assert_eq!(column.clone(), column);
    assert!(column.same(&column.clone()));
    assert!(!column.same(&AtomScheme {
        name: "n".to_owned(),
        atom_type: AtomType::U64,
    }));
    assert!(!column.same(&AtomScheme {
        name: "m".to_owned(),
        atom_type: AtomType::I64,
    }));
}

#[test]
fn append_bytes_appends() {
    let mut buf = vec![1];
    append_bytes(&mut buf, &[2, 3]);
    append_bytes(&mut buf, &[]);
    assert_eq!(buf, vec![1, 2, 3]);
}

fn columns(types: &[AtomType]) -> Vec<AtomScheme> {
    types
        .iter()
        .enumerate()
        .map(|(i, t)| AtomScheme {
            name: format!("c{}", i),
            atom_type: *t,
        })
        .collect()
}

#[test]
fn row_run_length_encoding() {
    let row = ValueRow::new(vec![
        Some(AtomValue::U64(1)),
        Some(AtomValue::Bool(true)),
        None,
        Some(AtomValue::I64(-1)),
    ]);
    let mut buf = vec![];
    row.encode(&mut buf);
    assert_eq!(buf, vec![2, 1, 1, 0, 1, 1]);
    let schemes = columns(&[AtomType::U64, AtomType::Bool, AtomType::F64, AtomType::I64]);
    let mut cursor = Cursor::new(&buf);
    let back = ValueRow::decode(&schemes, &mut cursor).unwrap();
    assert_eq!(back, row);
    assert_eq!(cursor.pos, buf.len());
}

#[test]
fn row_encodings_of_edge_shapes() {
    let bytes = |cells: Vec<Option<AtomValue>>| {
        let mut buf = vec![];
        ValueRow::new(cells).encode(&mut buf);
        buf
    };
    assert_eq!(bytes(vec![]), Vec::<u8>::new());
    assert_eq!(bytes(vec![None]), vec![0]);
    assert_eq!(bytes(vec![None, None, None]), vec![0, 0, 0]);
    assert_eq!(bytes(vec![Some(AtomValue::U64(9))]), vec![1, 9]);
    assert_eq!(
        bytes(vec![None, Some(AtomValue::U64(9)), Some(AtomValue::U64(8)), None]),
        vec![0, 2, 9, 8, 0]
    );
    let many: Vec<Option<AtomValue>> = (0..200).map(|_| Some(AtomValue::Bool(false))).collect();
    let mut expected = vec![0xc8, 0x01];
    expected.extend(std::iter::repeat(0).take(200));
    assert_eq!(bytes(many), expected);
}

#[test]
fn rows_round_trip() {
    let types = [
        AtomType::String,
        AtomType::Bytes,
        AtomType::U64,
        AtomType::I64,
        AtomType::F32,
        AtomType::F64,
        AtomType::Bool,
    ];
    let value = |t: AtomType| match t {
        AtomType::String => AtomValue::String("a,b".to_owned()),
        AtomType::Bytes => AtomValue::Bytes(vec![0, 1, 0]),
        AtomType::U64 => AtomValue::U64(1 << 40),
        AtomType::I64 => AtomValue::I64(-(1 << 40)),
        AtomType::F32 => AtomValue::F32(f32::NAN.to_bits()),
        AtomType::F64 => AtomValue::F64(2.5f64.to_bits()),
        AtomType::Bool => AtomValue::Bool(true),
    };
    // Every pattern of nulls over the seven columns.
    for mask in 0u32..128 {
        let cells: Vec<Option<AtomValue>> = types
            .iter()
            .enumerate()
            .map(|(i, t)| if mask & (1 << i) != 0 { Some(value(*t)) } else { None })
            .collect();
        let row = ValueRow::new(cells);
        let mut buf = vec![];
        row.encode(&mut buf);
        let len = buf.len();
        buf.push(0x55);
        let mut cursor = Cursor::new(&buf);
        assert_eq!(ValueRow::decode(&columns(&types), &mut cursor), Some(row));
        assert_eq!(cursor.pos, len);
    }
}

#[test]
fn row_decode_reads_runs_however_they_are_cut() {
    let schemes = columns(&[AtomType::U64, AtomType::U64, AtomType::U64]);
    let expected = ValueRow::new(vec![
        Some(AtomValue::U64(7)),
        Some(AtomValue::U64(8)),
        Some(AtomValue::U64(9)),
    ]);
    for bytes in [
        vec![3, 7, 8, 9],
        vec![1, 7, 1, 8, 1, 9],
        vec![2, 7, 8, 1, 9],
        vec![5, 7, 8, 9],
    ] {
        let mut cursor = Cursor::new(&bytes);
        assert_eq!(ValueRow::decode(&schemes, &mut cursor).as_ref(), Some(&expected));
        assert_eq!(cursor.pos, bytes.len());
    }
}

#[test]
fn row_decode_failures_leave_the_cursor() {
    let schemes = columns(&[AtomType::U64, AtomType::Bool]);
    for bytes in [vec![], vec![2, 7], vec![2, 7, 2], vec![1, 7], vec![0, 0x80]] {
        let mut cursor = Cursor::new(&bytes);
        assert_eq!(ValueRow::decode(&schemes, &mut cursor), None);
        assert_eq!(cursor.pos, 0);
    }
}

#[test]
fn row_accessors() {
    let cells = vec![Some(AtomValue::Bool(true)), None];
    let row = ValueRow::new(vec![Some(AtomValue::Bool(true)), None]);
    assert_eq!(row.atoms(), &cells);
    assert_eq!(row.into_atoms(), cells);
}
