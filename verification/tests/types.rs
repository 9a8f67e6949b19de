use netcdf::types::{
    CompoundType, CompoundTypeField, EnumType, EnumTypeValues, IntType, NcTypeDescriptor,
    NcVariableType, OpaqueType, VlenType,
};

#[test]
fn add_opaque() {
    let path = "test_opaque.nc";

    struct Foo(#[allow(dead_code)] [u8; 2]);

    impl NcTypeDescriptor for Foo {
        fn type_descriptor() -> NcVariableType {
            NcVariableType::Opaque(OpaqueType {
                name: "Foo".to_string(),
                size: std::mem::size_of::<Foo>(),
            })
        }
    }

    let mut file = netcdf::create(path).unwrap();
    {
        file.add_type::<Foo>().unwrap();

        let mut g = file.add_group("g").unwrap();
        g.add_type::<Foo>().unwrap();
    }

    let types = file.types().unwrap();
    assert_eq!(types, &[Foo::type_descriptor()]);

    let group = file.group("g").unwrap().unwrap();
    let types = group.types();
    assert_eq!(types, &[Foo::type_descriptor()]);
}

#[test]
fn add_vlen() {
    let path = "test_add_vlen.nc";

    {
        let mut file = netcdf::create(path).unwrap();

        let tp = NcVariableType::Vlen(VlenType {
            name: "v".to_owned(),
            basetype: Box::new(NcVariableType::Int(IntType::U32)),
        });

        file.add_type_from_descriptor(tp.clone()).unwrap();

        let types = file.types().unwrap();
        assert_eq!(types, &[tp]);

        let mut g = file.add_group("g").unwrap();
        let tp = NcVariableType::Vlen(VlenType {
            name: "w".to_owned(),
            basetype: Box::new(NcVariableType::Int(IntType::I32)),
        });
        g.add_type_from_descriptor(tp.clone()).unwrap();

        let types = g.types();
        assert_eq!(types, &[tp]);
    }
}

#[test]
fn user_types_need_netcdf4() {
    let mut file = netcdf::create_with("classic.nc", netcdf::Options::CLASSIC).unwrap();
    let tp = NcVariableType::Opaque(OpaqueType {
        name: "o".to_owned(),
        size: 4,
    });
    assert!(matches!(
        file.add_type_from_descriptor(tp),
        Err(netcdf::Error::Netcdf(-111))
    ));
}

#[test]
fn variables_of_user_type() {
    let mut file = netcdf::create("user_vars.nc").unwrap();
    let tp = NcVariableType::Enum(EnumType {
        name: "e".to_owned(),
        fieldnames: vec!["a".to_owned(), "b".to_owned()],
        fieldvalues: EnumTypeValues::I32(vec![0, 1]),
    });
    file.add_type_from_descriptor(tp.clone()).unwrap();
    file.add_dimension("x", 2).unwrap();
    let var = file.add_variable_with_type("v", &["x"], &tp).unwrap();
    assert_eq!(var.vartype(), tp);
    assert_eq!(file.variable("v").unwrap().vartype(), tp);
}

fn compound(name: &str, fields: Vec<(&str, NcVariableType)>) -> NcVariableType {
    netcdf::types::compound_from_fields(
        name,
        fields.into_iter().map(|(n, t)| (n.to_owned(), t, None)).collect(),
    )
    .unwrap()
}

#[test]
fn no_subtype() {
    struct Foo;
    impl NcTypeDescriptor for Foo {
        fn type_descriptor() -> NcVariableType {
            compound("Foo", vec![("a", NcVariableType::Int(IntType::U8))])
        }
    }
    struct Bar;
    impl NcTypeDescriptor for Bar {
        fn type_descriptor() -> NcVariableType {
            compound("Bar", vec![("a", NcVariableType::Int(IntType::I8))])
        }
    }
    struct FooBar;
    impl NcTypeDescriptor for FooBar {
        fn type_descriptor() -> NcVariableType {
            compound(
                "FooBar",
                vec![("foo", Foo::type_descriptor()), ("bar", Bar::type_descriptor())],
            )
        }
    }
    let path = "test_subtype.nc";

    let mut file = netcdf::create(path).unwrap();

    file.add_type::<FooBar>().unwrap_err();
    file.add_type::<Foo>().unwrap();
    file.add_type::<FooBar>().unwrap_err();
    file.add_type::<Bar>().unwrap();
    file.add_type::<FooBar>().unwrap();
}

#[test]
fn add_string_variable() {
    let path = "stringy.nc";
    let mut file = netcdf::create(path).unwrap();
    file.add_string_variable("s", &[]).unwrap();

    let mut group = file.add_group("g").unwrap();
    group.add_string_variable("str", &[]).unwrap();

    let var = file.variable("s").unwrap();
    assert_eq!(var.vartype(), NcVariableType::String);
    let var = file.variable("g/str").unwrap();
    assert_eq!(var.vartype(), NcVariableType::String);
}

#[test]
fn unknown_type_identifiers() {
    assert!(matches!(
        netcdf::types::VariableType::from_id(0, 99),
        Err(netcdf::Error::Str(m)) if m == "99 is still an unknown type"
    ));
    assert!(matches!(
        netcdf::types::VariableType::from_id(0, -7),
        Err(netcdf::Error::Str(m)) if m == "-7 is still an unknown type"
    ));
    assert!(netcdf::types::VariableType::from_id(0, 4).is_ok());
}

#[test]
fn add_enum() {
    let path = "test_add_enum.nc";
    let mut file = netcdf::create(path).unwrap();

    struct E;
    impl NcTypeDescriptor for E {
        fn type_descriptor() -> NcVariableType {
            netcdf::types::enum_from_variants(
                "e",
                vec!["a".to_owned(), "b".to_owned(), "c".to_owned(), "d".to_owned()],
                EnumTypeValues::I32(vec![0, 1, 2, 3]),
            )
        }
    }
    file.add_type::<E>().unwrap();
    {
        let types = file.types().unwrap();
        assert_eq!(types.len(), 1);
        assert_eq!(
            types[0],
            NcVariableType::Enum(EnumType {
                name: "e".to_owned(),
                fieldnames: vec!["a".to_owned(), "b".to_owned(), "c".to_owned(), "d".to_owned()],
                fieldvalues: EnumTypeValues::I32(vec![0, 1, 2, 3])
            })
        )
    }

    struct F;
    impl NcTypeDescriptor for F {
        fn type_descriptor() -> NcVariableType {
            netcdf::types::enum_from_variants(
                "f",
                vec!["e".to_owned(), "f".to_owned(), "g".to_owned(), "h".to_owned()],
                EnumTypeValues::I64(vec![-32, 41, 1241232, 0]),
            )
        }
    }
    let mut g = file.add_group("g").unwrap();
    g.add_type::<F>().unwrap();
    {
        let types = g.types();
        assert_eq!(types.len(), 1);
        assert_eq!(
            types[0],
            NcVariableType::Enum(EnumType {
                name: "f".to_owned(),
                fieldnames: vec!["e".to_owned(), "f".to_owned(), "g".to_owned(), "h".to_owned()],
                fieldvalues: EnumTypeValues::I64(vec![-32, 41, 1241232, 0])
            })
        )
    }
}

#[test]
fn add_compound() {
    let path = "test_add_compound.nc";
    let mut file = netcdf::create(path).unwrap();

    struct C;
    impl NcTypeDescriptor for C {
        fn type_descriptor() -> NcVariableType {
            netcdf::types::compound_from_fields(
                "c",
                vec![
                    ("u8".to_owned(), NcVariableType::Int(IntType::U8), None),
                    ("i8".to_owned(), NcVariableType::Int(IntType::I8), None),
                    ("i16".to_owned(), NcVariableType::Int(IntType::I16), None),
                ],
            )
            .unwrap()
        }
    }
    file.add_type::<C>().unwrap();

    struct E;
    impl NcTypeDescriptor for E {
        fn type_descriptor() -> NcVariableType {
            netcdf::types::enum_from_variants(
                "e",
                vec!["a".to_owned(), "b".to_owned()],
                EnumTypeValues::I32(vec![1, 2]),
            )
        }
    }
    file.add_type::<E>().unwrap();

    struct CC;
    impl NcTypeDescriptor for CC {
        fn type_descriptor() -> NcVariableType {
            netcdf::types::compound_from_fields(
                "cc",
                vec![
                    ("e".to_owned(), E::type_descriptor(), None),
                    ("c".to_owned(), C::type_descriptor(), None),
                ],
            )
            .unwrap()
        }
    }
    file.add_type::<CC>().unwrap();

    let types = file.types().unwrap();
    assert_eq!(
        types[0],
        NcVariableType::Compound(CompoundType {
            name: "c".to_owned(),
            size: 4,
            fields: vec![
                CompoundTypeField {
                    name: "u8".to_owned(),
                    basetype: NcVariableType::Int(IntType::U8),
                    arraydims: None,
                    offset: 0,
                },
                CompoundTypeField {
                    name: "i8".to_owned(),
                    basetype: NcVariableType::Int(IntType::I8),
                    arraydims: None,
                    offset: 1,
                },
                CompoundTypeField {
                    name: "i16".to_owned(),
                    basetype: NcVariableType::Int(IntType::I16),
                    arraydims: None,
                    offset: 2,
                },
            ]
        })
    );
    assert_eq!(types[1], E::type_descriptor());
    assert_eq!(types[2], CC::type_descriptor());
    match CC::type_descriptor() {
        NcVariableType::Compound(cc) => {
            assert_eq!(cc.size, 8);
            assert_eq!(cc.fields[1].offset, 4);
        }
        _ => panic!(),
    }
}

#[test]
fn compound_layouts() {
    let arr = netcdf::types::compound_from_fields(
        "arr",
        vec![
            ("a".to_owned(), NcVariableType::Int(IntType::I16), Some(vec![2, 3])),
            ("b".to_owned(), NcVariableType::Int(IntType::U64), None),
        ],
    )
    .unwrap();
    match arr {
        NcVariableType::Compound(c) => {
            assert_eq!(c.size, 20);
            assert_eq!(c.fields[1].offset, 12);
            assert_eq!(c.fields[0].arraydims, Some(vec![2, 3]));
        }
        _ => panic!(),
    }
    assert!(matches!(
        netcdf::types::compound_from_fields(
            "big",
            vec![("a".to_owned(), NcVariableType::Int(IntType::I64), Some(vec![usize::MAX / 4]))],
        ),
        Err(netcdf::Error::Overflow)
    ));
}

#[test]
fn variable_types_from_identifiers() {
    struct Blob;
    impl NcTypeDescriptor for Blob {
        fn type_descriptor() -> NcVariableType {
            NcVariableType::Opaque(OpaqueType { name: "blob".to_owned(), size: 3 })
        }
    }
    let mut file = netcdf::create("types_by_identifiers.nc").unwrap();
    let mut g = file.add_group("g").unwrap();
    let mut sub = g.add_group("sub").unwrap();
    sub.add_type::<Blob>().unwrap();
    let mut g = file.group_mut("g").unwrap().unwrap();
    // the group looks the type up from itself
    assert!(matches!(
        g.add_variable_from_identifiers::<Blob>("sub/v", &[]),
        Err(netcdf::Error::Str(m)) if m == "Type not found at this location"
    ));
    // with a descriptor, from the variable's group
    assert!(g
        .add_variable_from_identifiers_with_type("sub/w", &[], &Blob::type_descriptor())
        .is_ok());
    assert!(matches!(
        g.add_variable_from_identifiers_with_type("x", &[], &Blob::type_descriptor()),
        Err(netcdf::Error::Str(m)) if m == "Type is not defined"
    ));
}
