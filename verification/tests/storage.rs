use netcdf::{Endianness, Extent, Extents};

#[test]
fn storage_settings() {
    let mut file = netcdf::create("storage.nc").unwrap();
    file.add_dimension("d", 3).unwrap();
    let mut var = file.add_variable::<u8>("z", &["d"]).unwrap();
    assert_eq!(var.endianness().unwrap(), Endianness::Native);
    var.set_endianness(Endianness::Big).unwrap();
    assert_eq!(var.endianness().unwrap(), Endianness::Big);
    var.set_compression(3, false).unwrap();
    assert!(matches!(var.set_compression(10, false), Err(netcdf::Error::Netcdf(-36))));
    var.set_chunking(&[1]).unwrap();
    assert!(matches!(var.set_chunking(&[1, 2]), Err(netcdf::Error::SliceLen)));
    assert!(matches!(var.set_chunking(&[0]), Err(netcdf::Error::Netcdf(-127))));
    assert!(matches!(var.set_chunking(&[usize::MAX]), Err(netcdf::Error::Overflow)));
    var.put_value(1_u8, &Extents::from(vec![Extent::Index(0)])).unwrap();
    assert!(matches!(var.set_compression(1, true), Err(netcdf::Error::Netcdf(-123))));
    assert!(matches!(var.set_endianness(Endianness::Little), Err(netcdf::Error::Netcdf(-123))));

    let mut scalar = file.add_variable::<u8>("s", &[]).unwrap();
    scalar.set_chunking(&[]).unwrap();
}

#[test]
fn fill_values() {
    let mut file = netcdf::create("fill_values.nc").unwrap();
    file.add_dimension("d", 3).unwrap();
    let mut var = file.add_variable::<i32>("v", &["d"]).unwrap();
    assert_eq!(var.fill_value::<i32>().unwrap(), Some(-2147483647));
    assert!(matches!(var.fill_value::<u8>(), Err(netcdf::Error::TypeMismatch)));
    assert!(matches!(var.set_fill_value(5_u8), Err(netcdf::Error::TypeMismatch)));
    var.set_fill_value(-1_i32).unwrap();
    assert_eq!(var.fill_value::<i32>().unwrap(), Some(-1));
    var.put_value(9_i32, &Extents::from(vec![Extent::Index(2)])).unwrap();
    assert!(matches!(var.set_fill_value(7_i32), Err(netcdf::Error::Netcdf(-122))));
    let v = file.variable("v").unwrap();
    assert_eq!(v.get_values::<i32>(&Extents::All).unwrap(), vec![-1, -1, 9]);
    assert_eq!(v.fill_value::<i32>().unwrap(), Some(-1));
}

#[test]
fn classic_files_keep_no_storage_settings() {
    let mut file = netcdf::create_with("classic_storage.nc", netcdf::Options::CLASSIC).unwrap();
    file.add_dimension("d", 3).unwrap();
    let mut var = file.add_variable::<i16>("v", &["d"]).unwrap();
    assert!(matches!(var.endianness(), Err(netcdf::Error::Netcdf(-111))));
    assert!(matches!(var.set_compression(1, false), Err(netcdf::Error::Netcdf(-111))));
    assert!(matches!(var.set_chunking(&[1]), Err(netcdf::Error::Netcdf(-111))));
}
