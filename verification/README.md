# netcdf

A verified model of the netCDF data model and its Rust interface: datasets
with groups, dimensions, variables, attributes and user defined types;
hyperslab reads and writes of integer and string data; storage settings;
and a parser of CF time units (`<unit> since <date>`).

Every function under `src/` carries a contract that Verus proves, but for
the trusted items, whose contracts rest on std's documentation: the
wrappers of `next`, `last` and `clone` on stepped ranges,
`step_range_next`, `step_inclusive_next`, `step_range_last`,
`step_inclusive_last`, `step_range_copy` and `step_inclusive_copy`, with the
names of what those ranges yield, `step_range_items` and
`step_inclusive_items` (`src/extent.rs`); the specifications of
`RangeInclusive::start` and `RangeInclusive::end`; and the declarations of
the std range types. The
public proof functions state the laws of the library, for example that
what a write puts into a variable is what a read of the same elements
gives back, and that what is added (a dimension, variable, group,
attribute or type) is found again by its name.

Layout:

- `src/dataset.rs`, `src/access.rs`, `src/names.rs`: the contents of a
  dataset, how items are added and found by path.
- `src/file.rs`, `src/group.rs`, `src/variable.rs`, `src/dimension.rs`,
  `src/attribute.rs`, `src/types.rs`, `src/typedefs.rs`: the public handles.
- `src/extent.rs`, `src/hyperslab.rs`, `src/putget.rs`, `src/text.rs`,
  `src/storage.rs`: selections, reading and writing values and strings,
  and how values are kept.
- `src/cftime/`: calendars, date rules and the CF units parser.
- `app/`: printing of errors and dates, and the floating point readings of
  attribute values, which stay outside the verified core.
- `tests/`: tests run against the compiled library.
