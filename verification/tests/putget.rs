use netcdf::{Extent, Extents};

fn sel(extents: Vec<Extent>) -> Extents {
    Extents::from(extents)
}

#[test]
fn put_then_get_values() {
    let mut file = netcdf::create("putget.nc").unwrap();
    file.add_dimension("x", 2).unwrap();
    file.add_dimension("y", 3).unwrap();
    let mut var = file.add_variable::<i32>("v", &["x", "y"]).unwrap();
    var.put_values(&[1_i32, 2, 3, 4, 5, 6], &Extents::All).unwrap();
    let v = file.variable("v").unwrap();
    assert_eq!(v.get_values::<i32>(&Extents::All).unwrap(), vec![1, 2, 3, 4, 5, 6]);
    // the second row
    let row = sel(vec![Extent::Index(1), Extent::Slice { start: 0, stride: 1 }]);
    assert_eq!(v.get_values::<i32>(&row).unwrap(), vec![4, 5, 6]);
    // every other column
    let cols = sel(vec![
        Extent::Slice { start: 0, stride: 1 },
        Extent::Slice { start: 0, stride: 2 },
    ]);
    assert_eq!(v.get_values::<i64>(&cols).unwrap(), vec![1, 3, 4, 6]);
    let one = sel(vec![Extent::Index(1), Extent::Index(2)]);
    assert_eq!(v.get_value::<u8>(&one).unwrap(), 6);
}

#[test]
fn unwritten_elements_hold_the_fill_value() {
    let mut file = netcdf::create("fill.nc").unwrap();
    file.add_dimension("x", 3).unwrap();
    let mut var = file.add_variable::<i16>("v", &["x"]).unwrap();
    var.put_value(7_i16, &sel(vec![Extent::Index(1)])).unwrap();
    let v = file.variable("v").unwrap();
    assert_eq!(v.get_values::<i16>(&Extents::All).unwrap(), vec![-32767, 7, -32767]);
}

#[test]
fn request_errors() {
    let mut file = netcdf::create("errors.nc").unwrap();
    file.add_dimension("x", 3).unwrap();
    file.add_dimension("y", 2).unwrap();
    let mut var = file.add_variable::<u8>("v", &["x", "y"]).unwrap();
    // one extent for two dimensions
    assert!(matches!(
        var.put_values(&[1_u8], &sel(vec![Extent::Index(0)])),
        Err(netcdf::Error::DimensionMismatch { wanted: 2, actual: 1 })
    ));
    // more values than the selection holds
    assert!(matches!(
        var.put_values(&[1_u8, 2, 3], &sel(vec![Extent::Index(0), Extent::Index(0)])),
        Err(netcdf::Error::BufferLen { wanted: 1, actual: 3 })
    ));
    // beyond the end of a dimension
    assert!(matches!(
        var.put_values(
            &[1_u8, 2],
            &sel(vec![Extent::Index(2), Extent::SliceCount { start: 1, count: 2, stride: 1 }])
        ),
        Err(netcdf::Error::Netcdf(-57))
    ));
    assert!(matches!(
        var.put_values(&[1_u8], &sel(vec![Extent::Index(4), Extent::Index(0)])),
        Err(netcdf::Error::Netcdf(-40))
    ));
    // a value that the type of the variable cannot hold
    assert!(matches!(
        var.put_values(&[300_u16], &sel(vec![Extent::Index(0), Extent::Index(0)])),
        Err(netcdf::Error::Netcdf(-60))
    ));
    // nothing was written
    let v = file.variable("v").unwrap();
    assert_eq!(v.get_values::<u8>(&Extents::All).unwrap(), vec![255; 6]);
    // the fill value does not fit an i8
    assert!(matches!(
        v.get_values::<i8>(&Extents::All),
        Err(netcdf::Error::Netcdf(-60))
    ));
    let mut buffer = [0_u8; 4];
    assert!(matches!(
        v.get_values_into(&mut buffer, &Extents::All),
        Err(netcdf::Error::BufferLen { wanted: 6, actual: 4 })
    ));
    let mut buffer = [0_u8; 6];
    v.get_values_into(&mut buffer, &Extents::All).unwrap();
    assert_eq!(buffer, [255; 6]);
}

#[test]
fn writing_grows_unlimited_dimensions() {
    let mut file = netcdf::create("grow.nc").unwrap();
    file.add_unlimited_dimension("t").unwrap();
    let mut var = file.add_variable::<u64>("v", &["t"]).unwrap();
    assert_eq!(var.len(), 0);
    var.put_values(&[10_u64, 20], &sel(vec![Extent::SliceCount { start: 3, count: 2, stride: 2 }]))
        .unwrap();
    assert_eq!(var.len(), 6);
    assert_eq!(file.dimension("t").unwrap().len(), 6);
    let v = file.variable("v").unwrap();
    assert_eq!(
        v.get_values::<u64>(&Extents::All).unwrap(),
        vec![
            18446744073709551614,
            18446744073709551614,
            18446744073709551614,
            10,
            18446744073709551614,
            20
        ]
    );
    // a one dimensional variable takes as many values as it is given
    let mut var = file.variable_mut("v").unwrap();
    var.put_values(&[1_u64, 2, 3, 4, 5, 6, 7], &sel(vec![Extent::Index(0)])).unwrap();
    assert_eq!(var.len(), 7);
}

#[test]
fn single_values() {
    let mut file = netcdf::create("single.nc").unwrap();
    file.add_dimension("x", 2).unwrap();
    let mut var = file.add_variable::<i64>("v", &["x"]).unwrap();
    var.put_values(&[5_i64, -5], &Extents::All).unwrap();
    let v = file.variable("v").unwrap();
    assert!(matches!(v.get_value::<i64>(&Extents::All), Err(netcdf::Error::Str(_))));
    let none = sel(vec![Extent::SliceCount { start: 0, count: 0, stride: 1 }]);
    assert!(matches!(v.get_value::<i64>(&none), Err(netcdf::Error::Str(_))));
    assert_eq!(v.get_value::<i64>(&sel(vec![Extent::Index(1)])).unwrap(), -5);
    assert!(matches!(
        v.get_value::<u32>(&sel(vec![Extent::Index(1)])),
        Err(netcdf::Error::Netcdf(-60))
    ));
}

#[test]
fn text_variables_do_not_convert() {
    let mut file = netcdf::create("text.nc").unwrap();
    file.add_dimension("x", 2).unwrap();
    let tp = netcdf::types::NcVariableType::Char;
    let mut var = file.add_variable_with_type("c", &["x"], &tp).unwrap();
    assert!(matches!(
        var.put_values(&[1_u8, 2], &Extents::All),
        Err(netcdf::Error::Str(_))
    ));
    let v = file.variable("c").unwrap();
    assert!(matches!(v.get_values::<u8>(&Extents::All), Err(netcdf::Error::Str(_))));
}
