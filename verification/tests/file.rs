#[test]
fn create_classic_model() {
    let path = "create_classic.nc";

    let mut file = netcdf::create_with(path, netcdf::Options::CLASSIC).unwrap();
    // Classic mode does not support groups
    file.add_group("grp").unwrap_err();
}

#[test]
fn create_with_options() {
    let path0 = "create0.nc";
    let path1 = "create1.nc";

    let mut file = netcdf::create_with(path0, netcdf::Options::_64BIT_DATA).unwrap();
    file.add_group("grp").unwrap_err();
    let mut file = netcdf::create_with(path1, netcdf::Options::_64BIT_OFFSET).unwrap();
    file.add_group("grp").unwrap_err();
}

#[test]
fn classic_has_one_unlimited_dimension() {
    let mut file = netcdf::create_with("classic.nc", netcdf::Options::CLASSIC).unwrap();
    file.add_unlimited_dimension("t").unwrap();
    assert!(file.add_unlimited_dimension("u").is_err());
    let mut file = netcdf::create("nc4.nc").unwrap();
    file.add_unlimited_dimension("t").unwrap();
    file.add_unlimited_dimension("u").unwrap();
    assert!(file.dimension("u").unwrap().is_unlimited());
}

#[test]
fn root_and_types() {
    let file = netcdf::create("root.nc").unwrap();
    assert!(file.root().is_some());
    assert_eq!(file.types().unwrap().len(), 0);
    let classic = netcdf::create_with("classic.nc", netcdf::Options::CLASSIC).unwrap();
    assert!(classic.root().is_none());
}

#[test]
fn fetch_from_path() {
    let mut file = netcdf::create("cdf5.nc").unwrap();
    {
        let mut group = file.add_group("grp").unwrap();
        let mut subgroup = group.add_group("subgrp").unwrap();
        subgroup.add_dimension("dim", 1).unwrap();
        subgroup.add_variable::<i64>("var", &["dim"]).unwrap();
        subgroup.add_attribute("attr", "test").unwrap();
    }
    assert_eq!(
        file.group("grp/subgrp")
            .unwrap()
            .unwrap()
            .variable("var")
            .unwrap()
            .name(),
        file.variable("grp/subgrp/var").unwrap().name(),
    );
    match file.attribute("grp/subgrp/attr").unwrap().value().unwrap() {
        netcdf::AttributeValue::Str(string) => assert_eq!(string, "test"),
        _ => panic!(),
    }
}

#[test]
fn combined_options() {
    let both = netcdf::Options::NETCDF4 | netcdf::Options::CLASSIC;
    assert_eq!(both.bits(), 0x1100);
    assert!(both.contains(netcdf::Options::CLASSIC));
    assert!(!both.contains(netcdf::Options::SHARE));
    // netCDF-4 in the classic model has no groups
    let mut file = netcdf::create_with("classic_model.nc", both).unwrap();
    file.add_group("grp").unwrap_err();
    let mut file =
        netcdf::create_with("diskless.nc", netcdf::Options::NETCDF4 | netcdf::Options::DISKLESS)
            .unwrap();
    file.add_group("grp").unwrap();
}
