use netcdf::{Extent, Extents};

fn at(i: usize) -> Extents {
    Extents::from(vec![Extent::Index(i)])
}

#[test]
fn put_then_get_strings() {
    let mut file = netcdf::create("strings.nc").unwrap();
    file.add_dimension("x", 3).unwrap();
    let mut var = file.add_string_variable("s", &["x"]).unwrap();
    var.put_string("hello", &at(0)).unwrap();
    var.put_string("wörld", &at(2)).unwrap();
    // written twice, the last one stays
    var.put_string("again", &at(0)).unwrap();
    let v = file.variable("s").unwrap();
    assert_eq!(v.get_string(&at(0)).unwrap(), "again");
    assert_eq!(v.get_string(&at(2)).unwrap(), "wörld");
    // never written
    assert_eq!(v.get_string(&at(1)).unwrap(), "");
}

#[test]
fn scalar_string_variable() {
    let mut file = netcdf::create("scalar_string.nc").unwrap();
    let mut var = file.add_string_variable("s", &[]).unwrap();
    assert_eq!(var.get_string(&Extents::All).unwrap(), "");
    var.put_string("only one", &Extents::All).unwrap();
    assert_eq!(var.get_string(&Extents::All).unwrap(), "only one");
}

#[test]
fn strings_grow_unlimited_dimensions() {
    let mut file = netcdf::create("strings_unlimited.nc").unwrap();
    file.add_unlimited_dimension("t").unwrap();
    let mut var = file.add_string_variable("s", &["t"]).unwrap();
    // one string, whatever the selection counts along the one dimension
    var.put_string("fourth", &Extents::from(vec![Extent::SliceCount { start: 3, count: 5, stride: 1 }]))
        .unwrap();
    assert_eq!(file.dimension("t").unwrap().len(), 4);
    let v = file.variable("s").unwrap();
    assert_eq!(v.get_string(&at(3)).unwrap(), "fourth");
    assert_eq!(v.get_string(&at(0)).unwrap(), "");
}

#[test]
fn string_errors() {
    let mut file = netcdf::create("string_errors.nc").unwrap();
    file.add_dimension("x", 2).unwrap();
    file.add_dimension("y", 2).unwrap();
    let mut var = file.add_string_variable("s", &["x", "y"]).unwrap();
    // a C string cannot carry a NUL character
    assert!(matches!(
        var.put_string("a\0b", &Extents::from(vec![Extent::Index(0), Extent::Index(0)])),
        Err(netcdf::Error::Str(_))
    ));
    // more than one element along two dimensions
    assert!(matches!(
        var.put_string("a", &Extents::All),
        Err(netcdf::Error::BufferLen { wanted: 4, actual: 1 })
    ));
    // beyond the end of a dimension
    assert!(matches!(
        var.put_string("a", &Extents::from(vec![Extent::Index(2), Extent::Index(0)])),
        Err(netcdf::Error::Netcdf(-57))
    ));
    assert!(matches!(
        var.get_string(&Extents::All),
        Err(netcdf::Error::Str(m)) if m == "Too many elements returned"
    ));
    assert!(matches!(
        var.get_string(&Extents::from(vec![
            Extent::SliceCount { start: 0, count: 0, stride: 1 },
            Extent::Index(0)
        ])),
        Err(netcdf::Error::Str(m)) if m == "No elements returned"
    ));
    assert!(matches!(
        var.get_string(&at(0)),
        Err(netcdf::Error::DimensionMismatch { wanted: 2, actual: 1 })
    ));
    // strings and numbers do not convert into each other
    file.add_variable::<i32>("n", &["x"]).unwrap();
    let n = file.variable("n").unwrap();
    assert!(matches!(
        n.get_string(&at(0)),
        Err(netcdf::Error::Str(m)) if m == "Conversion not supported"
    ));
    let s = file.variable("s").unwrap();
    assert!(matches!(
        s.get_values::<i32>(&Extents::All),
        Err(netcdf::Error::Str(m)) if m == "Conversion not supported"
    ));
}
