use netcdf::Extents;

#[test]
fn dimensions() {
    let path = "dimensions.rs";

    let mut file = netcdf::create(path).unwrap();

    let mut group = file.add_group("group").unwrap();

    group.add_dimension("a", 5).unwrap();
    group.add_dimension("b", 6).unwrap();
    group.add_unlimited_dimension("c").unwrap();

    let dim = group.dimension("a").unwrap();
    assert_eq!(dim.len(), 5);
    let dim = group.dimension("b").unwrap();
    assert_eq!(dim.len(), 6);
    let dim = group.dimension("c").unwrap();
    assert_eq!(dim.len(), 0);
    assert!(group.dimension("d").is_none());
}

#[test]
fn groups() {
    let path = "groups.rs";
    let mut file = netcdf::create(path).unwrap();
    let mut group = file.add_group("group").unwrap();
    group.add_group("g").unwrap();
    group.add_group("e").unwrap();
    group.add_group("f").unwrap();

    assert_eq!(group.groups().len(), 3);
    assert!(group.group("w").is_none());
    assert!(group.group_mut("w").is_none());
    assert!(group.group_mut("e").is_some());
    assert!(group.group("f").is_some());
}

#[test]
fn group_dimension_names_are_unique() {
    let mut file = netcdf::create("unique.nc").unwrap();
    let mut group = file.add_group("g").unwrap();
    group.add_dimension("x", 2).unwrap();
    assert!(matches!(
        group.add_dimension("x", 3),
        Err(netcdf::Error::AlreadyExists)
    ));
    assert_eq!(group.dimension("x").unwrap().len(), 2);
    assert!(matches!(
        group.add_dimension("", 3),
        Err(netcdf::Error::Netcdf(-59))
    ));
}

#[test]
fn add_and_get_from_path() {
    let mut file = netcdf::create("cdf5.nc").unwrap();
    file.add_group("a/b").unwrap();
    file.add_dimension("a/b/dim", 1).unwrap();
    assert!(file.add_dimension("a/c/dim", 1).is_err());
    file.add_variable::<i64>("a/b/var", &["dim"]).unwrap();
    assert!(file.add_variable::<i64>("a/c/var", &["dim"]).is_err());
    file.add_attribute("a/b/attr", "test").unwrap();
    assert!(file.add_attribute("a/c/test", "test").is_err());
    let root = file.root().unwrap();
    assert_eq!(
        root.group("a/b").unwrap().variable("var").unwrap().name(),
        root.variable("a/b/var").unwrap().name(),
    );
    assert!(file.group("missing/subgrp").is_err());
    match file.attribute("a/b/attr").unwrap().value().unwrap() {
        netcdf::AttributeValue::Str(string) => assert_eq!(string, "test"),
        _ => panic!(),
    }
}

#[test]
fn nested_groups_by_path() {
    let mut file = netcdf::create("paths.nc").unwrap();
    file.add_group("a/b/c").unwrap();
    assert!(file.group("a").unwrap().is_some());
    assert!(file.group("a/b").unwrap().is_some());
    assert!(file.group("a/b/c").unwrap().is_some());
    assert!(file.group("a/x").unwrap().is_none());
    assert!(file.group("x/y").is_err());
    // the existing groups on the way are reused
    file.add_group("a/b/d").unwrap();
    assert_eq!(file.group("a/b").unwrap().unwrap().groups().len(), 2);
    assert!(matches!(file.add_group("a/b/c"), Err(netcdf::Error::AlreadyExists)));
    // a bad name on the way stops it, the groups before stay
    assert!(matches!(file.add_group("e//f"), Err(netcdf::Error::Netcdf(-59))));
    assert!(file.group("e").unwrap().is_some());
}

#[test]
fn variables_in_groups() {
    let mut file = netcdf::create("vars.nc").unwrap();
    let mut group = file.add_group("group").unwrap();
    group.add_variable::<u8>("v", &[]).unwrap();
    group.add_variable::<u8>("w", &[]).unwrap();
    group.add_dimension("d", 3).unwrap();
    group.add_variable::<u8>("z", &["d"]).unwrap();

    assert_eq!(group.variables().len(), 3);
    let v = group.variable("v").unwrap();
    assert_eq!(v.dimensions().len(), 0);
    assert_eq!(v.len(), 1);
    let z = group.variable_mut("z").unwrap();
    assert_eq!(z.dimensions()[0].len(), 3);
    assert_eq!(
        z.vartype(),
        netcdf::types::NcVariableType::Int(netcdf::types::IntType::U8)
    );
    assert_eq!(z.name(), "z");
    assert!(group.variable("vvvvv").is_none());
    assert!(group.add_variable::<u8>("q", &["missing"]).is_err());
    assert!(matches!(
        group.add_variable::<u8>("v", &[]),
        Err(netcdf::Error::AlreadyExists)
    ));
    let all = Extents::All;
    assert_eq!(
        group.variable("z").unwrap().get_values::<u8>(&all).unwrap(),
        vec![255, 255, 255]
    );
}
