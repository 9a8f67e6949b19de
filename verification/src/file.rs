//! Open, create, and append netcdf files
use vstd::prelude::*;

use crate::access::{
    add_dimension_at_path, add_group_at_path, add_variable_at_path, add_variable_outcome,
    add_variable_from_ids_at_path, add_variable_ids_outcome, type_absent_message, att_at, dim_at, dimension_outcome,
    group_at, group_at_path, group_outcome, lookup_ok, missing_group_message, names_of, path_refused,
    path_target, put_attribute_at_path, attribute_outcome, type_missing_for, var_at, variable_at,
    walk_to_parent, Walk,
};
use crate::attribute::{Attribute, AttributeValue};
use crate::dataset::{select_upto, type_in, var_in, group_in, Dataset};
use crate::dimension::{dimension_of, Dimension, DimensionIdentifier};
use crate::error::{Error, Result, NC_ENOTNC4};
use crate::group::{
    att_result, dim_result, group_result, lookup_attribute, lookup_dimension, lookup_variable,
    types_of_group, var_result, variables_of_group, Group, GroupMut,
};
use crate::typedefs::{define_type, define_type_outcome};
use crate::types::{nc_type_eq, NcTypeDescriptor, NcVariableType};
use crate::variable::{attributes_at, dimensions_of_var, Variable, VariableMut};

verus! {

/// The C library's flag for the `netCDF-4` format.
pub const NC_NETCDF4: i32 = 0x1000;
/// The C library's flag for the classic data model.
pub const NC_CLASSIC_MODEL: i32 = 0x0100;
/// The C library's flag for opening with write permissions.
pub const NC_WRITE: i32 = 0x0001;
/// The C library's flag that keeps an existing file from being overwritten.
pub const NC_NOCLOBBER: i32 = 0x0004;
/// The C library's flag for a file held in memory.
pub const NC_DISKLESS: i32 = 0x0008;
/// The C library's flag for the `CDF-5` format.
pub const NC_64BIT_DATA: i32 = 0x0020;
/// The C library's flag for the 64-bit offset format.
pub const NC_64BIT_OFFSET: i32 = 0x0200;
/// The C library's flag that limits caching.
pub const NC_SHARE: i32 = 0x0800;
/// The C library's flag for reading from memory.
pub const NC_INMEMORY: i32 = 0x8000;

/// Options for opening, creating, and appending files: one option, or a
/// set of them combined with `|`, given by the C library's flags.
#[allow(non_camel_case_types)]
#[derive(Debug, Copy, Clone, PartialEq, Eq, Structural)]
pub enum Options {
    /// Open with write permissions (use `append` for a mutable file)
    WRITE,
    /// Overwrite existing file
    NOCLOBBER,
    /// Reads file into memory
    DISKLESS,
    /// Use 64 bit dimensions and sizes (`CDF-5` format)
    _64BIT_DATA,
    /// Use 64 bit file offsets
    _64BIT_OFFSET,
    /// Use a subset compatible with older software
    CLASSIC,
    /// Limits internal caching
    SHARE,
    /// Use the `hdf5` storage format
    NETCDF4,
    /// Read from memory
    INMEMORY,
    /// Several options, by their flags
    Flags(i32),
}

/// The C library's flags of the options.
pub open spec fn option_bits(o: Options) -> i32 {
    match o {
        Options::WRITE => 0x0001,
        Options::NOCLOBBER => 0x0004,
        Options::DISKLESS => 0x0008,
        Options::_64BIT_DATA => 0x0020,
        Options::_64BIT_OFFSET => 0x0200,
        Options::CLASSIC => 0x0100,
        Options::SHARE => 0x0800,
        Options::NETCDF4 => 0x1000,
        Options::INMEMORY => 0x8000,
        Options::Flags(b) => b,
    }
}

impl Options {
    /// The C library's flags of the options
    pub fn bits(&self) -> (r: i32)
        ensures
            r == option_bits(*self),
    {
        match self {
            Options::WRITE => 0x0001,
            Options::NOCLOBBER => 0x0004,
            Options::DISKLESS => 0x0008,
            Options::_64BIT_DATA => 0x0020,
            Options::_64BIT_OFFSET => 0x0200,
            Options::CLASSIC => 0x0100,
            Options::SHARE => 0x0800,
            Options::NETCDF4 => 0x1000,
            Options::INMEMORY => 0x8000,
            Options::Flags(b) => *b,
        }
    }

    /// No option set.
    pub fn empty() -> (r: Options)
        ensures
            option_bits(r) == 0,
    {
        Options::Flags(0)
    }

    /// Every option of `other` is set.
    pub fn contains(&self, other: Options) -> (r: bool)
        ensures
            r == (option_bits(*self) & option_bits(other) == option_bits(other)),
    {
        self.bits() & other.bits() == other.bits()
    }
}

impl core::ops::BitOr for Options {
    type Output = Options;

    /// The options of both.
    fn bitor(self, other: Options) -> (r: Options)
        ensures
            option_bits(r) == option_bits(self) | option_bits(other),
    {
        Options::Flags(self.bits() | other.bits())
    }
}

impl vstd::std_specs::ops::BitOrSpecImpl for Options {
    open spec fn obeys_bitor_spec() -> bool {
        true
    }

    open spec fn bitor_req(self, other: Options) -> bool {
        true
    }

    open spec fn bitor_spec(self, other: Options) -> Options {
        Options::Flags(option_bits(self) | option_bits(other))
    }
}

/// The options ask for the `netCDF-4` data model, with groups and user
/// defined types: the `netCDF-4` format without the classic model; the
/// others give the classic model.
pub open spec fn has_groups(o: Options) -> bool {
    option_bits(o) & NC_NETCDF4 != 0 && option_bits(o) & NC_CLASSIC_MODEL == 0
}

/// Read only accessible file
#[derive(Debug)]
pub struct File {
    pub ds: Dataset,
}

/// Mutable access to file.
#[derive(Debug)]
pub struct FileMut(pub File);

/// Mutable access to file.
pub type MutableFile = FileMut;

impl core::ops::Deref for FileMut {
    type Target = File;

    fn deref(&self) -> (r: &File)
        ensures
            r == &self.0,
    {
        &self.0
    }
}

/// Open a `netCDF` file in create mode with the given options: an empty
/// dataset, with groups unless the option asks for another format than
/// `netCDF-4`. The dataset is held in memory; the name is not used.
pub fn create_with<P>(_name: P, options: Options) -> (r: Result<FileMut>)
    ensures
        r matches Ok(f) && f.0.ds.wf() && f.0.ds.netcdf4 == has_groups(options) && f.0.ds.groups@.len() == 1
            && f.0.ds.dims@.len() == 0 && f.0.ds.vars@.len() == 0 && f.0.ds.atts@.len() == 0
            && f.0.ds.types@.len() == 0,
{
    let bits = options.bits();
    let netcdf4 = bits & NC_NETCDF4 != 0 && bits & NC_CLASSIC_MODEL == 0;
    Ok(FileMut(File { ds: Dataset::new(netcdf4) }))
}

/// Open a netcdf file in create mode: an empty `netCDF-4` dataset. The
/// dataset is held in memory; the name is not used.
pub fn create<P>(name: P) -> (r: Result<FileMut>)
    ensures
        r matches Ok(f) && f.0.ds.wf() && f.0.ds.netcdf4 && f.0.ds.groups@.len() == 1
            && f.0.ds.dims@.len() == 0 && f.0.ds.vars@.len() == 0 && f.0.ds.atts@.len() == 0
            && f.0.ds.types@.len() == 0,
{
    assert(0x1000i32 & 0x1000i32 != 0 && 0x1000i32 & 0x0100i32 == 0) by (bit_vector);
    create_with(name, Options::NETCDF4)
}


impl File {
    /// The dataset of the file is well formed.
    pub open spec fn valid(&self) -> bool {
        self.ds.wf()
    }

    /// Main entrypoint for interacting with the netcdf file: the root group,
    /// for a dataset with groups.
    pub fn root(&self) -> (r: Option<Group<'_>>)
        requires
            self.valid(),
        ensures
            self.ds.netcdf4 ==> (r matches Some(g) && g.ds == &self.ds && g.id == 0 && g.valid()),
            !self.ds.netcdf4 ==> r is None,
    {
        if self.ds.netcdf4 {
            Some(Group { ds: &self.ds, id: 0 })
        } else {
            None
        }
    }

    /// Get a variable from the group
    pub fn variable(&self, name: &str) -> (r: Option<Variable<'_>>)
        requires
            self.valid(),
            lookup_ok(self.ds, 0, name@),
        ensures
            r matches Some(v) ==> v.ds == &self.ds && v.valid() && var_at(self.ds, 0, name@) == Some(v.id as int),
            r is None ==> var_at(self.ds, 0, name@) is None,
    {
        lookup_variable(&self.ds, 0, name)
    }

    /// Iterate over all variables in the root group
    pub fn variables(&self) -> (r: Vec<Variable<'_>>)
        requires
            self.valid(),
        ensures
            r@.len() == select_upto(self.ds.vars@.len() as int, var_in(self.ds, 0)).len(),
            forall|k: int|
                0 <= k < r@.len() ==> (#[trigger] r@[k]).id == select_upto(self.ds.vars@.len() as int, var_in(self.ds, 0))[k]
                    && r@[k].ds == &self.ds && r@[k].valid(),
    {
        variables_of_group(&self.ds, 0)
    }

    /// Get a single attribute
    pub fn attribute(&self, name: &str) -> (r: Option<Attribute<'_>>)
        requires
            self.valid(),
            lookup_ok(self.ds, 0, name@),
        ensures
            r matches Some(a) ==> a.ds == &self.ds && a.valid() && att_at(self.ds, 0, name@) == Some(a.index as int),
            r is None ==> att_at(self.ds, 0, name@) is None,
    {
        lookup_attribute(&self.ds, 0, name)
    }

    /// Get all attributes in the root group
    pub fn attributes(&self) -> (r: Vec<Attribute<'_>>)
        requires
            self.valid(),
        ensures
            r@.len() == select_upto(self.ds.atts@.len() as int, crate::dataset::att_in(self.ds, 0, None)).len(),
            forall|k: int| 0 <= k < r@.len() ==> (#[trigger] r@[k]).ds == &self.ds && r@[k].valid()
                && r@[k].index == select_upto(self.ds.atts@.len() as int, crate::dataset::att_in(self.ds, 0, None))[k],
    {
        attributes_at(&self.ds, 0, None)
    }

    /// Get a single dimension
    pub fn dimension(&self, name: &str) -> (r: Option<Dimension>)
        requires
            self.valid(),
            lookup_ok(self.ds, 0, name@),
        ensures
            r matches Some(d) ==> dim_at(self.ds, 0, name@) matches Some(i) && d.describes(&self.ds, i),
            r is None ==> dim_at(self.ds, 0, name@) is None,
    {
        lookup_dimension(&self.ds, 0, name)
    }

    /// Iterator over all dimensions in the root group
    pub fn dimensions(&self) -> (r: Vec<Dimension>)
        ensures
            r@.len() == select_upto(self.ds.dims@.len() as int, crate::dataset::dim_in(self.ds, 0)).len(),
            forall|k: int|
                0 <= k < r@.len() ==> #[trigger] r@[k].describes(
                    &self.ds,
                    select_upto(self.ds.dims@.len() as int, crate::dataset::dim_in(self.ds, 0))[k],
                ),
    {
        crate::dimension::dimensions_of_group(&self.ds, 0)
    }

    /// Get the length of a dimension
    pub fn dimension_len(&self, name: &str) -> (r: Option<usize>)
        requires
            self.valid(),
            lookup_ok(self.ds, 0, name@),
        ensures
            r matches Some(l) ==> dim_at(self.ds, 0, name@) matches Some(i) && l == self.ds.dims@[i].len,
            r is None ==> dim_at(self.ds, 0, name@) is None,
    {
        match lookup_dimension(&self.ds, 0, name) {
            Some(d) => Some(d.len()),
            None => None,
        }
    }

    /// Get a group: an error when the dataset has no groups or a group on the
    /// way does not exist
    pub fn group(&self, name: &str) -> (r: Result<Option<Group<'_>>>)
        requires
            self.valid(),
        ensures
            walk_to_parent(self.ds, 0, name@) is Missing ==> (r matches Err(Error::Str(m)) && m@
                == missing_group_message()),
            !(walk_to_parent(self.ds, 0, name@) is Missing) ==> match group_at(self.ds, 0, name@) {
                Walk::Found(c) => r matches Ok(Some(g)) && g.ds == &self.ds && g.id == c && g.valid(),
                Walk::Missing => r matches Ok(None),
                Walk::Failed(c) => r matches Err(Error::Netcdf(d)) && d == c,
            },
    {
        match group_at_path(&self.ds, 0, name)? {
            Some(c) => Ok(Some(Group { ds: &self.ds, id: c })),
            None => Ok(None),
        }
    }

    /// Iterator over all subgroups in the root group: an error when the
    /// dataset has no groups
    pub fn groups(&self) -> (r: Result<Vec<Group<'_>>>)
        requires
            self.valid(),
        ensures
            !self.ds.netcdf4 ==> (r matches Err(Error::Netcdf(c)) && c == NC_ENOTNC4),
            self.ds.netcdf4 ==> (r matches Ok(v) && v@.len() == select_upto(self.ds.groups@.len() as int, group_in(self.ds, 0)).len()
                && forall|k: int| 0 <= k < v@.len() ==> (#[trigger] v@[k]).ds == &self.ds && v@[k].valid()
                    && v@[k].id == select_upto(self.ds.groups@.len() as int, group_in(self.ds, 0))[k]),
    {
        if !self.ds.netcdf4 {
            return Err(Error::Netcdf(NC_ENOTNC4));
        }
        let root = Group { ds: &self.ds, id: 0 };
        Ok(root.groups())
    }

    /// Return all types in the root group
    pub fn types(&self) -> (r: Result<Vec<NcVariableType>>)
        ensures
            r matches Ok(v) && v@.len() == select_upto(self.ds.types@.len() as int, type_in(self.ds, 0)).len()
                && forall|k: int|
                    0 <= k < v@.len() ==> nc_type_eq(#[trigger] v@[k], self.ds.types@[select_upto(self.ds.types@.len() as int, type_in(self.ds, 0))[k]].descriptor),
    {
        Ok(types_of_group(&self.ds, 0))
    }

    /// Close the file: the dataset is dropped
    pub fn close(self) -> (r: Result<()>)
        ensures
            r is Ok,
    {
        Ok(())
    }
}


impl FileMut {
    /// The dataset of the file is well formed.
    pub open spec fn valid(&self) -> bool {
        self.0.ds.wf()
    }

    /// The dataset of the file.
    pub open spec fn data(&self) -> Dataset {
        self.0.ds
    }

    /// Mutable access to the root group, for a dataset with groups
    pub fn root_mut(&mut self) -> (r: Option<GroupMut<'_>>)
        requires
            old(self).valid(),
        ensures
            old(self).data().netcdf4 ==> (r matches Some(g) && g.data() == old(self).data() && g.id == 0 && g.valid()),
            !old(self).data().netcdf4 ==> r is None && final(self).data() == old(self).data(),
    {
        if self.0.ds.netcdf4 {
            Some(GroupMut { ds: &mut self.0.ds, id: 0 })
        } else {
            None
        }
    }

    /// Get a mutable variable from the group
    pub fn variable_mut(&mut self, name: &str) -> (r: Option<VariableMut<'_>>)
        requires
            old(self).valid(),
            lookup_ok(old(self).data(), 0, name@),
        ensures
            r matches Some(v) ==> v.data() == old(self).data() && v.valid() && var_at(old(self).data(), 0, name@) == Some(v.id as int),
            r is None ==> var_at(old(self).data(), 0, name@) is None && final(self).data() == old(self).data(),
    {
        match variable_at(&self.0.ds, 0, name) {
            Some(v) => {
                let dimensions = dimensions_of_var(&self.0.ds, v);
                Some(VariableMut { ds: &mut self.0.ds, id: v, dimensions })
            },
            None => None,
        }
    }

    /// Mutable access to subgroup: an error when the dataset has no groups or
    /// a group on the way does not exist
    pub fn group_mut(&mut self, name: &str) -> (r: Result<Option<GroupMut<'_>>>)
        requires
            old(self).valid(),
        ensures
            walk_to_parent(old(self).data(), 0, name@) is Missing ==> (r matches Err(Error::Str(m)) && m@
                == missing_group_message()),
            !(walk_to_parent(old(self).data(), 0, name@) is Missing) ==> match group_at(old(self).data(), 0, name@) {
                Walk::Found(c) => r matches Ok(Some(g)) && g.data() == old(self).data() && g.id == c && g.valid(),
                Walk::Missing => r matches Ok(None),
                Walk::Failed(c) => r matches Err(Error::Netcdf(d)) && d == c,
            },
    {
        match group_at_path(&self.0.ds, 0, name)? {
            Some(c) => Ok(Some(GroupMut { ds: &mut self.0.ds, id: c })),
            None => Ok(None),
        }
    }

    /// Writes the value as the attribute called by `name` (a path from the
    /// root group)
    pub fn put_attribute_value(&mut self, name: &str, val: AttributeValue) -> (r: Result<Attribute<'_>>)
        requires
            old(self).valid(),
        ensures
            r matches Ok(a) ==> a.valid() && a.ds == &final(self).data(),
            match path_target(old(self).data(), 0, name@) {
                None => path_refused(old(self).data(), 0, name@, att_result(r)) && final(self).data() == old(self).data(),
                Some((p, n)) => attribute_outcome(old(self).data(), final(self).data(), p, None, n, val, att_result(r)),
            },
    {
        let a = put_attribute_at_path(&mut self.0.ds, 0, name, val)?;
        Ok(Attribute { ds: &self.0.ds, index: a })
    }

    /// Add an attribute to the root group
    pub fn add_attribute<T: Into<AttributeValue>>(&mut self, name: &str, val: T) -> (r: Result<Attribute<'_>>)
        requires
            old(self).valid(),
        ensures
            exists|v: AttributeValue| call_ensures(T::into, (val,), v) && {
                &&& r matches Ok(a) ==> a.valid() && a.ds == &final(self).data()
                &&& match path_target(old(self).data(), 0, name@) {
                    None => path_refused(old(self).data(), 0, name@, att_result(r)) && final(self).data() == old(self).data(),
                    Some((p, n)) => attribute_outcome(old(self).data(), final(self).data(), p, None, n, v, att_result(r)),
                }
            },
    {
        let v: AttributeValue = val.into();
        self.put_attribute_value(name, v)
    }

    /// Adds a dimension with the given name and size. A size of zero gives an unlimited dimension
    pub fn add_dimension(&mut self, name: &str, len: usize) -> (r: Result<Dimension>)
        requires
            old(self).valid(),
        ensures
            final(self).valid(),
            dimension_outcome(old(self).data(), final(self).data(), 0, name@, len, dim_result(r)),
            r matches Ok(d) ==> d.describes(&final(self).data(), d.id.dimid as int),
    {
        let d = add_dimension_at_path(&mut self.0.ds, 0, name, len)?;
        Ok(dimension_of(&self.0.ds, d))
    }

    /// Adds a dimension with unbounded size
    pub fn add_unlimited_dimension(&mut self, name: &str) -> (r: Result<Dimension>)
        requires
            old(self).valid(),
        ensures
            final(self).valid(),
            dimension_outcome(old(self).data(), final(self).data(), 0, name@, 0, dim_result(r)),
            r matches Ok(d) ==> d.describes(&final(self).data(), d.id.dimid as int),
    {
        self.add_dimension(name, 0)
    }

    /// Add an empty group to the dataset, and the groups on the way that do
    /// not exist yet
    pub fn add_group(&mut self, name: &str) -> (r: Result<GroupMut<'_>>)
        requires
            old(self).valid(),
        ensures
            r matches Ok(g) ==> g.valid() && group_outcome(old(self).data(), g.data(), 0, name@, group_result(r)),
            r is Err ==> group_outcome(old(self).data(), final(self).data(), 0, name@, group_result(r)),
    {
        let c = add_group_at_path(&mut self.0.ds, 0, name)?;
        Ok(GroupMut { ds: &mut self.0.ds, id: c })
    }

    /// Create a variable with the specified type
    pub fn add_variable_with_type(&mut self, name: &str, dims: &[&str], typ: &NcVariableType) -> (r: Result<VariableMut<'_>>)
        requires
            old(self).valid(),
            !type_missing_for(old(self).data(), 0, name@, *typ, names_of(dims@)),
        ensures
            r matches Ok(v) ==> v.valid() && add_variable_outcome(old(self).data(), v.data(), 0, name@, *typ, names_of(dims@), var_result(r)),
            r is Err ==> add_variable_outcome(old(self).data(), final(self).data(), 0, name@, *typ, names_of(dims@), var_result(r)),
    {
        let v = add_variable_at_path(&mut self.0.ds, 0, name, typ, dims)?;
        let dimensions = dimensions_of_var(&self.0.ds, v);
        Ok(VariableMut { ds: &mut self.0.ds, id: v, dimensions })
    }

    /// Create a Variable into the dataset, with no data written into it
    ///
    /// Dimensions are identified using the name of the dimension, and will recurse upwards
    /// if not found in the current group.
    pub fn add_variable<T: NcTypeDescriptor>(&mut self, name: &str, dims: &[&str]) -> (r: Result<VariableMut<'_>>)
        requires
            old(self).valid(),
            forall|t: NcVariableType| #[trigger] call_ensures(T::type_descriptor, (), t) ==> !type_missing_for(old(self).data(), 0, name@, t, names_of(dims@)),
        ensures
            exists|t: NcVariableType| #[trigger] call_ensures(T::type_descriptor, (), t) && {
                &&& r matches Ok(v) ==> v.valid() && add_variable_outcome(old(self).data(), v.data(), 0, name@, t, names_of(dims@), var_result(r))
                &&& r is Err ==> add_variable_outcome(old(self).data(), final(self).data(), 0, name@, t, names_of(dims@), var_result(r))
            },
    {
        let t = T::type_descriptor();
        self.add_variable_with_type(name, dims, &t)
    }

    /// Create a Variable containing strings into the dataset, with no data written into it
    pub fn add_string_variable(&mut self, name: &str, dims: &[&str]) -> (r: Result<VariableMut<'_>>)
        requires
            old(self).valid(),
        ensures
            r matches Ok(v) ==> v.valid() && add_variable_outcome(old(self).data(), v.data(), 0, name@, NcVariableType::String, names_of(dims@), var_result(r)),
            r is Err ==> add_variable_outcome(old(self).data(), final(self).data(), 0, name@, NcVariableType::String, names_of(dims@), var_result(r)),
    {
        let t = NcVariableType::String;
        self.add_variable_with_type(name, dims, &t)
    }

    /// Adds a variable from a set of unique identifiers, recursing upwards
    /// from the current group if necessary. The variable type is specified
    /// using a type descriptor.
    pub fn add_variable_from_identifiers_with_type(&mut self, name: &str, dims: &[DimensionIdentifier], typ: &NcVariableType) -> (r: Result<VariableMut<'_>>)
        requires
            old(self).valid(),
        ensures
            r matches Ok(v) ==> v.valid() && add_variable_ids_outcome(old(self).data(), v.data(), 0, name@, *typ, dims@, false, type_absent_message(), var_result(r)),
            r is Err ==> add_variable_ids_outcome(old(self).data(), final(self).data(), 0, name@, *typ, dims@, false, type_absent_message(), var_result(r)),
    {
        let v = add_variable_from_ids_at_path(&mut self.0.ds, 0, name, typ, dims, false, "Type not found at this location")?;
        let dimensions = dimensions_of_var(&self.0.ds, v);
        Ok(VariableMut { ds: &mut self.0.ds, id: v, dimensions })
    }

    /// Adds a variable from a set of unique identifiers, recursing upwards
    /// from the current group if necessary.
    pub fn add_variable_from_identifiers<T: NcTypeDescriptor>(&mut self, name: &str, dims: &[DimensionIdentifier]) -> (r: Result<VariableMut<'_>>)
        requires
            old(self).valid(),
        ensures
            exists|t: NcVariableType| #[trigger] call_ensures(T::type_descriptor, (), t) && {
                &&& r matches Ok(v) ==> v.valid() && add_variable_ids_outcome(old(self).data(), v.data(), 0, name@, t, dims@, false, type_absent_message(), var_result(r))
                &&& r is Err ==> add_variable_ids_outcome(old(self).data(), final(self).data(), 0, name@, t, dims@, false, type_absent_message(), var_result(r))
            },
    {
        let t = T::type_descriptor();
        self.add_variable_from_identifiers_with_type(name, dims, &t)
    }

    /// Add a type using a descriptor
    pub fn add_type_from_descriptor(&mut self, typ: NcVariableType) -> (r: Result<i32>)
        requires
            old(self).valid(),
        ensures
            final(self).valid(),
            define_type_outcome(old(self).data(), final(self).data(), 0, typ, r),
    {
        define_type(&mut self.0.ds, 0, typ)
    }

    /// Add a type to the file
    pub fn add_type<T: NcTypeDescriptor>(&mut self) -> (r: Result<i32>)
        requires
            old(self).valid(),
        ensures
            final(self).valid(),
            exists|t: NcVariableType| #[trigger] call_ensures(T::type_descriptor, (), t) && define_type_outcome(old(self).data(), final(self).data(), 0, t, r),
    {
        let t = T::type_descriptor();
        self.add_type_from_descriptor(t)
    }

    /// Close the file: the dataset is dropped
    pub fn close(self) -> (r: Result<()>)
        ensures
            r is Ok,
    {
        Ok(())
    }
}

/// Each named option carries the C library's flag of its name, and only
/// the `netCDF-4` option, alone, gives a dataset with groups: every other
/// named option gives the classic data model.
pub proof fn lemma_option_flags()
    ensures
        option_bits(Options::WRITE) == NC_WRITE,
        option_bits(Options::NOCLOBBER) == NC_NOCLOBBER,
        option_bits(Options::DISKLESS) == NC_DISKLESS,
        option_bits(Options::_64BIT_DATA) == NC_64BIT_DATA,
        option_bits(Options::_64BIT_OFFSET) == NC_64BIT_OFFSET,
        option_bits(Options::CLASSIC) == NC_CLASSIC_MODEL,
        option_bits(Options::SHARE) == NC_SHARE,
        option_bits(Options::NETCDF4) == NC_NETCDF4,
        option_bits(Options::INMEMORY) == NC_INMEMORY,
        forall|o: Options| !(o is Flags) ==> (#[trigger] has_groups(o) <==> o == Options::NETCDF4),
{
    assert(0x0001i32 & 0x1000i32 == 0 && 0x0004i32 & 0x1000i32 == 0 && 0x0008i32 & 0x1000i32 == 0
        && 0x0020i32 & 0x1000i32 == 0 && 0x0200i32 & 0x1000i32 == 0 && 0x0100i32 & 0x1000i32 == 0
        && 0x0800i32 & 0x1000i32 == 0 && 0x8000i32 & 0x1000i32 == 0 && 0x1000i32 & 0x1000i32 != 0
        && 0x1000i32 & 0x0100i32 == 0) by (bit_vector);
}

} // verus!
