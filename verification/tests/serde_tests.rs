use hdv::format::AtomScheme;
use hdv::format::AtomType;
use hdv::format::AtomValue;
use hdv::serde::FieldScheme;
use hdv::serde::HdvDeserialize;
use hdv::serde::HdvScheme;
use hdv::serde::HdvSerialize;
use hdv::serde::ObjectScheme;
use hdv::serde::ValueType;

#[derive(Debug, PartialEq)]
pub struct A {
    a: u16,
    b: Option<B>,
    c: Option<f64>,
    d: B,
}

impl HdvScheme for A {
    fn object_scheme() -> ObjectScheme {
        ObjectScheme {
            fields: vec![
                FieldScheme {
                    name: "a".to_string(),
                    value: ValueType::Atom(AtomType::U64),
                },
                FieldScheme {
                    name: "b".to_string(),
                    value: ValueType::Object(<B as HdvScheme>::object_scheme()),
                },
                FieldScheme {
                    name: "c".to_string(),
                    value: ValueType::Atom(AtomType::F64),
                },
                FieldScheme {
                    name: "d".to_string(),
                    value: ValueType::Object(<B as HdvScheme>::object_scheme()),
                },
            ],
        }
    }
}

impl HdvSerialize for A {
    fn serialize(&self, values: &mut Vec<Option<AtomValue>>) {
        values.push(Some(AtomValue::U64(self.a as _)));
        if let Some(x) = self.b.as_ref() {
            HdvSerialize::serialize(x, values);
        } else {
            <B as HdvSerialize>::fill_nulls(values);
        }
        values.push(self.c.map(|x| AtomValue::F64(x.to_bits())));
        HdvSerialize::serialize(&self.d, values);
    }

    fn fill_nulls(values: &mut Vec<Option<AtomValue>>) {
        values.push(None);
        <B as HdvSerialize>::fill_nulls(values);
        values.push(None);
        <B as HdvSerialize>::fill_nulls(values);
    }
}

impl HdvDeserialize for A {
    fn deserialize(__values: &mut &[Option<AtomValue>]) -> Option<Self> {
        let a = {
            let value = __values.first()?.as_ref();
            *__values = &__values[1..];
            value
        };
        let b = <B as HdvDeserialize>::deserialize(__values);
        let c = {
            let value = __values.first()?.as_ref();
            *__values = &__values[1..];
            value
        };
        let d = <B as HdvDeserialize>::deserialize(__values);
        Some(Self {
            a: a?.u64().unwrap() as _,
            b,
            c: c.map(|x| f64::from_bits(x.f64_bits().unwrap())),
            d: d?,
        })
    }
}

#[derive(Debug, PartialEq)]
pub struct B {
    a: Vec<u8>,
    b: i64,
    c: String,
    d: Option<Vec<u8>>,
}

impl HdvScheme for B {
    fn object_scheme() -> ObjectScheme {
        ObjectScheme {
            fields: vec![
                FieldScheme {
                    name: "a".to_string(),
                    value: ValueType::Atom(AtomType::Bytes),
                },
                FieldScheme {
                    name: "b".to_string(),
                    value: ValueType::Atom(AtomType::I64),
                },
                FieldScheme {
                    name: "c".to_string(),
                    value: ValueType::Atom(AtomType::String),
                },
                FieldScheme {
                    name: "d".to_string(),
                    value: ValueType::Atom(AtomType::Bytes),
                },
            ],
        }
    }
}

impl HdvSerialize for B {
    fn serialize(&self, values: &mut Vec<Option<AtomValue>>) {
        values.push(Some(AtomValue::Bytes(self.a.clone())));
        values.push(Some(AtomValue::I64(self.b)));
        values.push(Some(AtomValue::String(self.c.clone())));
        values.push(self.d.as_ref().map(|x| AtomValue::Bytes(x.clone())));
    }

    fn fill_nulls(values: &mut Vec<Option<AtomValue>>) {
        values.push(None);
        values.push(None);
        values.push(None);
        values.push(None);
    }
}

impl HdvDeserialize for B {
    fn deserialize(values: &mut &[Option<AtomValue>]) -> Option<Self> {
        let a = {
            let value = values.first()?.as_ref();
            *values = &values[1..];
            value
        };
        let b = {
            let value = values.first()?.as_ref();
            *values = &values[1..];
            value
        };
        let c = {
            let value = values.first()?.as_ref();
            *values = &values[1..];
            value
        };
        let d = {
            let value = values.first()?.as_ref();
            *values = &values[1..];
            value
        };
        Some(Self {
            a: a?.bytes().unwrap().to_owned(),
            b: b?.i64().unwrap() as _,
            c: c?.string().unwrap().to_owned(),
            d: d.map(|x| x.bytes().unwrap().to_owned()),
        })
    }
}

fn b_scheme() -> ObjectScheme {
    ObjectScheme {
        fields: vec![
            FieldScheme {
                name: "a".to_owned(),
                value: ValueType::Atom(AtomType::Bytes),
            },
            FieldScheme {
                name: "b".to_owned(),
                value: ValueType::Atom(AtomType::I64),
            },
            FieldScheme {
                name: "c".to_owned(),
                value: ValueType::Atom(AtomType::String),
            },
            FieldScheme {
                name: "d".to_owned(),
                value: ValueType::Atom(AtomType::Bytes),
            },
        ],
    }
}

fn column(name: &str, atom_type: AtomType) -> AtomScheme {
    AtomScheme {
        name: name.to_owned(),
        atom_type,
    }
}

#[test]
fn serde_test_serde() {
    let a = A {
        a: 1,
        b: None,
        c: Some(3.),
        d: B {
            a: b"hello".to_vec(),
            b: 2,
            c: "world".to_owned(),
            d: None,
        },
    };

    let scheme = A::object_scheme();
    assert_eq!(
        scheme,
        ObjectScheme {
            fields: vec![
                FieldScheme {
                    name: "a".to_owned(),
                    value: ValueType::Atom(AtomType::U64),
                },
                FieldScheme {
                    name: "b".to_owned(),
                    value: ValueType::Object(b_scheme()),
                },
                FieldScheme {
                    name: "c".to_owned(),
                    value: ValueType::Atom(AtomType::F64),
                },
                FieldScheme {
                    name: "d".to_owned(),
                    value: ValueType::Object(b_scheme()),
                },
            ]
        }
    );

    assert_eq!(
        scheme.atom_schemes(),
        [
            column("a", AtomType::U64),
            column("b.a", AtomType::Bytes),
            column("b.b", AtomType::I64),
            column("b.c", AtomType::String),
            column("b.d", AtomType::Bytes),
            column("c", AtomType::F64),
            column("d.a", AtomType::Bytes),
            column("d.b", AtomType::I64),
            column("d.c", AtomType::String),
            column("d.d", AtomType::Bytes),
        ]
    );

    let mut values = vec![];
    a.serialize(&mut values);
    assert_eq!(
        values,
        [
            Some(AtomValue::U64(1)),
            None,
            None,
            None,
            None,
            Some(AtomValue::F64(3.0f64.to_bits())),
            Some(AtomValue::Bytes(b"hello".to_vec())),
            Some(AtomValue::I64(2)),
            Some(AtomValue::String("world".to_owned())),
            None,
        ]
    );

    let b = A::deserialize(&mut &*values).unwrap();
    assert_eq!(a, b);
}

#[test]
fn atom_types_lists_the_types_of_the_columns() {
    let mut types = vec![AtomType::Bool];
    A::object_scheme().atom_types(&mut types);
    assert_eq!(
        types,
        vec![
            AtomType::Bool,
            AtomType::U64,
            AtomType::Bytes,
            AtomType::I64,
            AtomType::String,
            AtomType::Bytes,
            AtomType::F64,
            AtomType::Bytes,
            AtomType::I64,
            AtomType::String,
            AtomType::Bytes,
        ]
    );
}

#[test]
fn fill_nulls_gives_one_null_for_each_column() {
    let mut values = vec![];
    <A as HdvSerialize>::fill_nulls(&mut values);
    assert_eq!(values.len(), A::object_scheme().atom_schemes().len());
    assert!(values.iter().all(|x| x.is_none()));
}

#[test]
fn empty_schema_has_no_columns() {
    let scheme = ObjectScheme { fields: vec![] };
    assert_eq!(scheme.atom_schemes(), vec![]);
    let nested = ObjectScheme {
        fields: vec![FieldScheme {
            name: "x".to_owned(),
            value: ValueType::Object(ObjectScheme { fields: vec![] }),
        }],
    };
    assert_eq!(nested.atom_schemes(), vec![]);
}

#[test]
fn nested_twice_names_are_dotted_paths() {
    let scheme = ObjectScheme {
        fields: vec![FieldScheme {
            name: "x".to_owned(),
            value: ValueType::Object(ObjectScheme {
                fields: vec![
                    FieldScheme {
                        name: "y".to_owned(),
                        value: ValueType::Object(b_scheme()),
                    },
                    FieldScheme {
                        name: "z".to_owned(),
                        value: ValueType::Atom(AtomType::Bool),
                    },
                ],
            }),
        }],
    };
    assert_eq!(
        scheme.atom_schemes(),
        [
            column("x.y.a", AtomType::Bytes),
            column("x.y.b", AtomType::I64),
            column("x.y.c", AtomType::String),
            column("x.y.d", AtomType::Bytes),
            column("x.z", AtomType::Bool),
        ]
    );
}
