use netcdf::AttributeValue;

#[test]
/// Making sure attributes are updated correctly (replacing previous value)
fn attribute_put() {
    let p = "attribute_put.nc";
    let mut f = netcdf::create(p).unwrap();

    f.add_attribute("a", "1").unwrap();
    assert_eq!(f.attribute("a").unwrap().value().unwrap(), "1".into());
    f.add_attribute("b", "2").unwrap();
    assert_eq!(f.attribute("b").unwrap().value().unwrap(), "2".into());
    f.add_attribute("a", 2u32).unwrap();
    assert_eq!(f.attribute("a").unwrap().value().unwrap(), 2u32.into());
    f.add_attribute("b", "2").unwrap();
    assert_eq!(f.attribute("b").unwrap().value().unwrap(), "2".into());
}

#[test]
fn integer_attributes_roundtrip() {
    let mut file = netcdf::create("ints.nc").unwrap();
    file.add_attribute("attr_byte", 3_i8).unwrap();
    file.add_attribute("attr_ubyte", 3_u8).unwrap();
    file.add_attribute("attr_short", 3_i16).unwrap();
    file.add_attribute("attr_ushort", 3_u16).unwrap();
    file.add_attribute("attr_int", 3_i32).unwrap();
    file.add_attribute("attr_uint", 3_u32).unwrap();
    file.add_attribute("attr_int64", 3_i64).unwrap();
    file.add_attribute("attr_uint64", 3_u64).unwrap();
    file.add_attribute("u8s", vec![1_u8, 2, 3, 4]).unwrap();
    file.add_attribute("i64s", vec![1_i64, 2, 3, 4]).unwrap();
    file.add_attribute("one", vec![7_u16]).unwrap();
    let strs = vec!["Hi!".to_string(), "Hello!".to_string()];
    file.add_attribute("attr_str", strs.clone()).unwrap();
    file.add_attribute("attr_str_slice", strs.as_slice()).unwrap();
    file.add_attribute("attr_text_utf8", "Testing utf8 with æøå").unwrap();

    let get = |n: &str| file.attribute(n).unwrap().value().unwrap();
    assert_eq!(get("attr_byte"), AttributeValue::Schar(3));
    assert_eq!(get("attr_ubyte"), AttributeValue::Uchar(3));
    assert_eq!(get("attr_short"), AttributeValue::Short(3));
    assert_eq!(get("attr_ushort"), AttributeValue::Ushort(3));
    assert_eq!(get("attr_int"), AttributeValue::Int(3));
    assert_eq!(get("attr_uint"), AttributeValue::Uint(3));
    assert_eq!(get("attr_int64"), AttributeValue::Longlong(3));
    assert_eq!(get("attr_uint64"), AttributeValue::Ulonglong(3));
    assert_eq!(get("u8s"), vec![1_u8, 2, 3, 4].into());
    assert_eq!(get("i64s"), vec![1_i64, 2, 3, 4].into());
    // A vector of one number comes back as that number.
    assert_eq!(get("one"), AttributeValue::Ushort(7));
    assert_eq!(get("attr_str"), AttributeValue::Strs(strs.clone()));
    assert_eq!(get("attr_str_slice"), AttributeValue::Strs(strs));
    assert_eq!(
        get("attr_text_utf8"),
        AttributeValue::Str("Testing utf8 with æøå".into())
    );
    assert_eq!(file.attributes().len(), 14);
}

#[test]
fn text_is_cut_at_nul() {
    let mut file = netcdf::create("nul.nc").unwrap();
    file.add_attribute("t", "ab\0cd").unwrap();
    assert_eq!(
        file.attribute("t").unwrap().value().unwrap(),
        AttributeValue::Str("ab".into())
    );
    let refused = file.add_attribute("s", vec!["x\0y"]);
    assert!(matches!(refused, Err(netcdf::Error::Str(_))));
    assert!(file.attribute("s").is_none());
}

#[test]
fn attribute_conversions() {
    let x: u8 = 5;
    let attr: AttributeValue = x.into();
    assert_eq!(x, attr.try_into().unwrap());

    let big: AttributeValue = 300_u16.into();
    assert!(matches!(u8::try_from(big.clone()), Err(netcdf::Error::Conversion(_))));
    assert_eq!(i32::try_from(big).unwrap(), 300);
    let neg: AttributeValue = (-1_i64).into();
    assert!(matches!(u64::try_from(neg.clone()), Err(netcdf::Error::Conversion(_))));
    assert_eq!(i8::try_from(neg).unwrap(), -1);
    let text: AttributeValue = "x".into();
    assert!(matches!(u8::try_from(text.clone()), Err(netcdf::Error::Str(_))));
    assert_eq!(String::try_from(text).unwrap(), "x");
}

#[test]
fn variable_attributes() {
    let mut file = netcdf::create("var_atts.nc").unwrap();
    let mut var = file.add_variable::<i32>("var", &[]).unwrap();
    var.put_attribute("att", "some attribute").unwrap();
    var.put_attribute("n", 4_i16).unwrap();
    let var = file.variable("var").unwrap();
    assert_eq!(var.attributes().len(), 2);
    assert_eq!(
        var.attribute_value("n").unwrap().unwrap(),
        AttributeValue::Short(4)
    );
    assert!(file.attribute("att").is_none());
}

#[test]
fn variable_attributes_are_its_own() {
    let mut file = netcdf::create("variable_attributes_own.nc").unwrap();
    file.add_attribute("global", 1_i32).unwrap();
    let mut var = file.add_variable::<i32>("var", &[]).unwrap();
    var.put_attribute("att", "some attribute").unwrap();
    var.put_attribute("other", 2_u8).unwrap();
    let var = file.variable("var").unwrap();
    let atts = var.attributes();
    assert_eq!(atts.len(), 2);
    assert_eq!(atts[0].name(), "att");
    assert!(matches!(atts[0].value(), Ok(netcdf::AttributeValue::Str(s)) if s == "some attribute"));
    assert_eq!(atts[1].name(), "other");
}
