//! All netcdf items belong in the root group, which can
//! be interacted with to get the underlying data
use vstd::prelude::*;

use crate::access::{
    add_dimension_at_path, add_group_at_path, add_variable_at_path, add_variable_outcome, att_at,
    attribute_at, attribute_outcome, dim_at, dimension_at, dimension_outcome, group_at,
    group_at_path, group_outcome, lookup_ok, names_of, path_refused, path_target,
    put_attribute_at_path, type_missing_for, var_at, variable_at, walk_to_parent, Walk,
    add_variable_from_ids_at_path, add_variable_ids_outcome, type_absent_message, type_undefined_message,
};
use crate::attribute::{data_of, put_refused, read_view, stored_view, value_of, value_view, Attribute, AttributeValue};
use crate::dataset::{group_in, select_upto, type_in, var_in, Dataset};
use crate::dimension::{dimension_of, dimensions_of_group, Dimension, DimensionIdentifier};
use crate::error::{Error, Result};
use crate::names::{short_name_to_bytes, too_long, c_name};
use crate::typedefs::{define_type, define_type_outcome};
use crate::types::{copy_type, nc_type_eq, NcTypeDescriptor, NcVariableType};
use crate::variable::{attributes_at, dimensions_of_var, Variable, VariableMut};

verus! {

/// Main component of the netcdf format. Holds all variables,
/// attributes, and dimensions. A group can always see the parents items,
/// but a parent can not access the children's items.
#[derive(Debug)]
pub struct Group<'f> {
    pub ds: &'f Dataset,
    /// Position of the group in the dataset
    pub id: usize,
}

/// Mutable access to a group.
#[derive(Debug)]
pub struct GroupMut<'f> {
    pub ds: &'f mut Dataset,
    /// Position of the group in the dataset
    pub id: usize,
}

/// The variable `v` of a dataset, with its dimensions.
pub fn variable_view<'a>(ds: &'a Dataset, v: usize) -> (r: Variable<'a>)
    requires
        ds.wf(),
        v < ds.vars@.len(),
    ensures
        r.ds == ds,
        r.id == v,
        r.valid(),
{
    Variable { ds, id: v, dimensions: dimensions_of_var(ds, v) }
}

/// The variable named by `path` from group `g`.
pub fn lookup_variable<'a>(ds: &'a Dataset, g: usize, path: &str) -> (r: Option<Variable<'a>>)
    requires
        ds.wf(),
        g < ds.groups@.len(),
        lookup_ok(*ds, g as int, path@),
    ensures
        r matches Some(v) ==> v.ds == ds && v.valid() && var_at(*ds, g as int, path@) == Some(v.id as int),
        r is None ==> var_at(*ds, g as int, path@) is None,
{
    match variable_at(ds, g, path) {
        Some(v) => Some(variable_view(ds, v)),
        None => None,
    }
}

/// The variables of group `g`, in the order they were added.
pub fn variables_of_group<'a>(ds: &'a Dataset, g: usize) -> (r: Vec<Variable<'a>>)
    requires
        ds.wf(),
    ensures
        r@.len() == select_upto(ds.vars@.len() as int, var_in(*ds, g as int)).len(),
        forall|k: int|
            0 <= k < r@.len() ==> (#[trigger] r@[k]).id == select_upto(ds.vars@.len() as int, var_in(*ds, g as int))[k]
                && r@[k].ds == ds && r@[k].valid(),
{
    let mut out: Vec<Variable<'a>> = Vec::new();
    let mut i: usize = 0;
    while i < ds.vars.len()
        invariant
            ds.wf(),
            i <= ds.vars@.len(),
            out@.len() == select_upto(i as int, var_in(*ds, g as int)).len(),
            forall|k: int|
                0 <= k < out@.len() ==> (#[trigger] out@[k]).id == select_upto(i as int, var_in(*ds, g as int))[k]
                    && out@[k].ds == ds && out@[k].valid(),
        decreases ds.vars@.len() - i,
    {
        if ds.vars[i].group == g {
            out.push(variable_view(ds, i));
        }
        i = i + 1;
    }
    out
}

/// The attribute of a group named by `path` from group `g`.
pub fn lookup_attribute<'a>(ds: &'a Dataset, g: usize, path: &str) -> (r: Option<Attribute<'a>>)
    requires
        ds.wf(),
        g < ds.groups@.len(),
        lookup_ok(*ds, g as int, path@),
    ensures
        r matches Some(a) ==> a.ds == ds && a.valid() && att_at(*ds, g as int, path@) == Some(a.index as int),
        r is None ==> att_at(*ds, g as int, path@) is None,
{
    match attribute_at(ds, g, path) {
        Some(a) => Some(Attribute { ds, index: a }),
        None => None,
    }
}

/// The dimension named by `path` from group `g`.
pub fn lookup_dimension(ds: &Dataset, g: usize, path: &str) -> (r: Option<Dimension>)
    requires
        ds.wf(),
        g < ds.groups@.len(),
        lookup_ok(*ds, g as int, path@),
    ensures
        r matches Some(d) ==> dim_at(*ds, g as int, path@) matches Some(i) && d.describes(ds, i),
        r is None ==> dim_at(*ds, g as int, path@) is None,
{
    match dimension_at(ds, g, path) {
        Some(d) => Some(dimension_of(ds, d)),
        None => None,
    }
}

/// The children of group `g`, in the order they were added.
pub fn child_groups(ds: &Dataset, g: usize) -> (r: Vec<usize>)
    requires
        ds.wf(),
    ensures
        r@.len() == select_upto(ds.groups@.len() as int, group_in(*ds, g as int)).len(),
        forall|k: int| 0 <= k < r@.len() ==> #[trigger] r@[k] == select_upto(ds.groups@.len() as int, group_in(*ds, g as int))[k],
        forall|k: int| 0 <= k < r@.len() ==> #[trigger] r@[k] < ds.groups@.len(),
{
    let mut out: Vec<usize> = Vec::new();
    let mut i: usize = 1;
    assert(select_upto(1, group_in(*ds, g as int)) =~= Seq::<int>::empty()) by {
        assert(select_upto(0, group_in(*ds, g as int)) =~= Seq::<int>::empty());
    }
    while i < ds.groups.len()
        invariant
            ds.wf(),
            1 <= i <= ds.groups@.len(),
            out@.len() == select_upto(i as int, group_in(*ds, g as int)).len(),
            forall|k: int| 0 <= k < out@.len() ==> #[trigger] out@[k] == select_upto(i as int, group_in(*ds, g as int))[k],
            forall|k: int| 0 <= k < out@.len() ==> #[trigger] out@[k] < i,
        decreases ds.groups@.len() - i,
    {
        if ds.groups[i].parent == g {
            out.push(i);
        }
        i = i + 1;
    }
    out
}

/// Copies of the user defined types of group `g`, in the order they were added.
pub fn types_of_group(ds: &Dataset, g: usize) -> (r: Vec<NcVariableType>)
    ensures
        r@.len() == select_upto(ds.types@.len() as int, type_in(*ds, g as int)).len(),
        forall|k: int|
            0 <= k < r@.len() ==> nc_type_eq(#[trigger] r@[k], ds.types@[select_upto(ds.types@.len() as int, type_in(*ds, g as int))[k]].descriptor),
{
    let mut out: Vec<NcVariableType> = Vec::new();
    let mut i: usize = 0;
    while i < ds.types.len()
        invariant
            i <= ds.types@.len(),
            out@.len() == select_upto(i as int, type_in(*ds, g as int)).len(),
            forall|k: int|
                0 <= k < out@.len() ==> nc_type_eq(#[trigger] out@[k], ds.types@[select_upto(i as int, type_in(*ds, g as int))[k]].descriptor),
        decreases ds.types@.len() - i,
    {
        if ds.types[i].group == g {
            out.push(copy_type(&ds.types[i].descriptor));
        }
        i = i + 1;
    }
    out
}


impl<'f> Group<'f> {
    /// The group names a group of a well-formed dataset.
    pub open spec fn valid(&self) -> bool {
        self.ds.wf() && self.id < self.ds.groups@.len()
    }

    /// Name of the current group
    pub fn name(&self) -> (r: String)
        requires
            self.valid(),
        ensures
            r@ == self.ds.groups@[self.id as int].name@,
    {
        self.ds.groups[self.id].name.clone()
    }

    /// Get a variable from the group
    pub fn variable(&self, name: &str) -> (r: Option<Variable<'f>>)
        requires
            self.valid(),
            lookup_ok(*self.ds, self.id as int, name@),
        ensures
            r matches Some(v) ==> v.ds == self.ds && v.valid() && var_at(*self.ds, self.id as int, name@) == Some(v.id as int),
            r is None ==> var_at(*self.ds, self.id as int, name@) is None,
    {
        lookup_variable(self.ds, self.id, name)
    }

    /// Iterate over all variables in a group
    pub fn variables(&self) -> (r: Vec<Variable<'f>>)
        requires
            self.valid(),
        ensures
            r@.len() == select_upto(self.ds.vars@.len() as int, var_in(*self.ds, self.id as int)).len(),
            forall|k: int|
                0 <= k < r@.len() ==> (#[trigger] r@[k]).id == select_upto(self.ds.vars@.len() as int, var_in(*self.ds, self.id as int))[k]
                    && r@[k].ds == self.ds && r@[k].valid(),
    {
        variables_of_group(self.ds, self.id)
    }

    /// Get a single attribute
    pub fn attribute(&self, name: &str) -> (r: Option<Attribute<'f>>)
        requires
            self.valid(),
            lookup_ok(*self.ds, self.id as int, name@),
        ensures
            r matches Some(a) ==> a.ds == self.ds && a.valid() && att_at(*self.ds, self.id as int, name@) == Some(a.index as int),
            r is None ==> att_at(*self.ds, self.id as int, name@) is None,
    {
        lookup_attribute(self.ds, self.id, name)
    }

    /// Get all attributes in the group
    pub fn attributes(&self) -> (r: Vec<Attribute<'f>>)
        requires
            self.valid(),
        ensures
            r@.len() == select_upto(self.ds.atts@.len() as int, crate::dataset::att_in(*self.ds, self.id as int, None)).len(),
            forall|k: int| 0 <= k < r@.len() ==> (#[trigger] r@[k]).ds == self.ds && r@[k].valid()
                && r@[k].index == select_upto(self.ds.atts@.len() as int, crate::dataset::att_in(*self.ds, self.id as int, None))[k],
    {
        attributes_at(self.ds, self.id, None)
    }

    /// Get the attribute value
    pub fn attribute_value(&self, name: &str) -> (r: Option<Result<AttributeValue>>)
        requires
            self.valid(),
            lookup_ok(*self.ds, self.id as int, name@),
        ensures
            match att_at(*self.ds, self.id as int, name@) {
                Some(a) => r matches Some(Ok(v)) && value_view(v) == read_view(stored_view(self.ds.atts@[a].data)),
                None => r is None,
            },
    {
        match lookup_attribute(self.ds, self.id, name) {
            Some(a) => Some(a.value()),
            None => None,
        }
    }

    /// Get a single dimension
    pub fn dimension(&self, name: &str) -> (r: Option<Dimension>)
        requires
            self.valid(),
            lookup_ok(*self.ds, self.id as int, name@),
        ensures
            r matches Some(d) ==> dim_at(*self.ds, self.id as int, name@) matches Some(i) && d.describes(self.ds, i),
            r is None ==> dim_at(*self.ds, self.id as int, name@) is None,
    {
        lookup_dimension(self.ds, self.id, name)
    }

    /// Iterator over all dimensions
    pub fn dimensions(&self) -> (r: Vec<Dimension>)
        ensures
            r@.len() == select_upto(self.ds.dims@.len() as int, crate::dataset::dim_in(*self.ds, self.id as int)).len(),
            forall|k: int|
                0 <= k < r@.len() ==> #[trigger] r@[k].describes(
                    self.ds,
                    select_upto(self.ds.dims@.len() as int, crate::dataset::dim_in(*self.ds, self.id as int))[k],
                ),
    {
        dimensions_of_group(self.ds, self.id)
    }

    /// Get a group
    pub fn group(&self, name: &str) -> (r: Option<Group<'f>>)
        requires
            self.valid(),
            walk_to_parent(*self.ds, self.id as int, name@) is Found,
            !(group_at(*self.ds, self.id as int, name@) is Failed),
        ensures
            match group_at(*self.ds, self.id as int, name@) {
                Walk::Found(c) => r matches Some(h) && h.ds == self.ds && h.id == c && h.valid(),
                _ => r is None,
            },
    {
        match group_at_path(self.ds, self.id, name) {
            Ok(Some(c)) => Some(Group { ds: self.ds, id: c }),
            _ => None,
        }
    }

    /// Iterator over all subgroups in this group
    pub fn groups(&self) -> (r: Vec<Group<'f>>)
        requires
            self.valid(),
        ensures
            r@.len() == select_upto(self.ds.groups@.len() as int, group_in(*self.ds, self.id as int)).len(),
            forall|k: int| 0 <= k < r@.len() ==> (#[trigger] r@[k]).ds == self.ds && r@[k].valid()
                && r@[k].id == select_upto(self.ds.groups@.len() as int, group_in(*self.ds, self.id as int))[k],
    {
        let ids = child_groups(self.ds, self.id);
        let mut out: Vec<Group<'f>> = Vec::new();
        for i in 0..ids.len()
            invariant
                self.valid(),
                ids@.len() == select_upto(self.ds.groups@.len() as int, group_in(*self.ds, self.id as int)).len(),
                forall|k: int| 0 <= k < ids@.len() ==> #[trigger] ids@[k] == select_upto(self.ds.groups@.len() as int, group_in(*self.ds, self.id as int))[k],
                forall|k: int| 0 <= k < ids@.len() ==> #[trigger] ids@[k] < self.ds.groups@.len(),
                out@.len() == i,
                forall|k: int| 0 <= k < i ==> (#[trigger] out@[k]).ds == self.ds && out@[k].id == ids@[k],
        {
            out.push(Group { ds: self.ds, id: ids[i] });
        }
        out
    }

    /// Return all types in this group
    pub fn types(&self) -> (r: Vec<NcVariableType>)
        ensures
            r@.len() == select_upto(self.ds.types@.len() as int, type_in(*self.ds, self.id as int)).len(),
            forall|k: int|
                0 <= k < r@.len() ==> nc_type_eq(#[trigger] r@[k], self.ds.types@[select_upto(self.ds.types@.len() as int, type_in(*self.ds, self.id as int))[k]].descriptor),
    {
        types_of_group(self.ds, self.id)
    }
}


/// The position of the dimension that was added, or the error.
pub open spec fn dim_result(r: Result<Dimension>) -> Result<usize> {
    match r {
        Ok(d) => Ok(d.id.dimid),
        Err(e) => Err(e),
    }
}

/// The position of the group that was added, or the error.
pub open spec fn group_result(r: Result<GroupMut>) -> Result<usize> {
    match r {
        Ok(g) => Ok(g.id),
        Err(e) => Err(e),
    }
}

/// The position of the variable that was added, or the error.
pub open spec fn var_result(r: Result<VariableMut>) -> Result<usize> {
    match r {
        Ok(v) => Ok(v.id),
        Err(e) => Err(e),
    }
}

/// The position of the attribute that was written, or the error.
pub open spec fn att_result(r: Result<Attribute>) -> Result<usize> {
    match r {
        Ok(a) => Ok(a.index),
        Err(e) => Err(e),
    }
}

impl<'f> GroupMut<'f> {
    /// The group names a group of a well-formed dataset.
    pub open spec fn valid(&self) -> bool {
        self.ds.wf() && self.id < self.ds.groups@.len()
    }

    /// The dataset that the group belongs to.
    pub open spec fn data(&self) -> Dataset {
        *self.ds
    }

    /// Adds a dimension with the given name and size. A size of zero gives an unlimited dimension
    pub fn add_dimension(&mut self, name: &str, len: usize) -> (r: Result<Dimension>)
        requires
            old(self).valid(),
        ensures
            final(self).valid(),
            final(self).id == old(self).id,
            dimension_outcome(old(self).data(), final(self).data(), old(self).id as int, name@, len, dim_result(r)),
            r matches Ok(d) ==> d.describes(&final(self).data(), d.id.dimid as int),
    {
        let d = add_dimension_at_path(self.ds, self.id, name, len)?;
        Ok(dimension_of(self.ds, d))
    }

    /// Adds a dimension with unbounded size
    pub fn add_unlimited_dimension(&mut self, name: &str) -> (r: Result<Dimension>)
        requires
            old(self).valid(),
        ensures
            final(self).valid(),
            final(self).id == old(self).id,
            dimension_outcome(old(self).data(), final(self).data(), old(self).id as int, name@, 0, dim_result(r)),
            r matches Ok(d) ==> d.describes(&final(self).data(), d.id.dimid as int),
    {
        self.add_dimension(name, 0)
    }

    /// Add an empty group to the dataset, and the groups on the way that do
    /// not exist yet
    pub fn add_group(&mut self, name: &str) -> (r: Result<GroupMut<'_>>)
        requires
            old(self).valid(),
        ensures
            r matches Ok(g) ==> g.valid() && group_outcome(old(self).data(), g.data(), old(self).id as int, name@, group_result(r)),
            r is Err ==> group_outcome(old(self).data(), final(self).data(), old(self).id as int, name@, group_result(r)),
    {
        let c = add_group_at_path(self.ds, self.id, name)?;
        Ok(GroupMut { ds: self.ds, id: c })
    }

    /// Create a variable with the specified type
    pub fn add_variable_with_type(&mut self, name: &str, dims: &[&str], typ: &NcVariableType) -> (r: Result<VariableMut<'_>>)
        requires
            old(self).valid(),
            !type_missing_for(old(self).data(), old(self).id as int, name@, *typ, names_of(dims@)),
        ensures
            r matches Ok(v) ==> v.valid() && add_variable_outcome(old(self).data(), v.data(), old(self).id as int, name@, *typ, names_of(dims@), var_result(r)),
            r is Err ==> add_variable_outcome(old(self).data(), final(self).data(), old(self).id as int, name@, *typ, names_of(dims@), var_result(r)),
    {
        let v = add_variable_at_path(self.ds, self.id, name, typ, dims)?;
        let dimensions = dimensions_of_var(self.ds, v);
        Ok(VariableMut { ds: self.ds, id: v, dimensions })
    }

    /// Create a Variable into the dataset, with no data written into it
    ///
    /// Dimensions are identified using the name of the dimension, and will recurse upwards
    /// if not found in the current group.
    pub fn add_variable<T: NcTypeDescriptor>(&mut self, name: &str, dims: &[&str]) -> (r: Result<VariableMut<'_>>)
        requires
            old(self).valid(),
            forall|t: NcVariableType| #[trigger] call_ensures(T::type_descriptor, (), t) ==> !type_missing_for(old(self).data(), old(self).id as int, name@, t, names_of(dims@)),
        ensures
            exists|t: NcVariableType| #[trigger] call_ensures(T::type_descriptor, (), t) && {
                &&& r matches Ok(v) ==> v.valid() && add_variable_outcome(old(self).data(), v.data(), old(self).id as int, name@, t, names_of(dims@), var_result(r))
                &&& r is Err ==> add_variable_outcome(old(self).data(), final(self).data(), old(self).id as int, name@, t, names_of(dims@), var_result(r))
            },
    {
        let t = T::type_descriptor();
        self.add_variable_with_type(name, dims, &t)
    }

    /// Create a Variable containing strings into the dataset, with no data written into it
    pub fn add_string_variable(&mut self, name: &str, dims: &[&str]) -> (r: Result<VariableMut<'_>>)
        requires
            old(self).valid(),
        ensures
            r matches Ok(v) ==> v.valid() && add_variable_outcome(old(self).data(), v.data(), old(self).id as int, name@, NcVariableType::String, names_of(dims@), var_result(r)),
            r is Err ==> add_variable_outcome(old(self).data(), final(self).data(), old(self).id as int, name@, NcVariableType::String, names_of(dims@), var_result(r)),
    {
        let t = NcVariableType::String;
        self.add_variable_with_type(name, dims, &t)
    }

    /// Adds a variable from a set of unique identifiers, recursing upwards
    /// from the current group if necessary. The variable type is specified
    /// using a type descriptor.
    pub fn add_variable_from_identifiers_with_type(&mut self, name: &str, dims: &[DimensionIdentifier], typ: &NcVariableType) -> (r: Result<VariableMut<'_>>)
        requires
            old(self).valid(),
        ensures
            r matches Ok(v) ==> v.valid() && add_variable_ids_outcome(old(self).data(), v.data(), old(self).id as int, name@, *typ, dims@, false, type_undefined_message(), var_result(r)),
            r is Err ==> add_variable_ids_outcome(old(self).data(), final(self).data(), old(self).id as int, name@, *typ, dims@, false, type_undefined_message(), var_result(r)),
    {
        let v = add_variable_from_ids_at_path(self.ds, self.id, name, typ, dims, false, "Type is not defined")?;
        let dimensions = dimensions_of_var(self.ds, v);
        Ok(VariableMut { ds: self.ds, id: v, dimensions })
    }

    /// Adds a variable from a set of unique identifiers, recursing upwards
    /// from the current group if necessary; the type is looked up from this
    /// group.
    pub fn add_variable_from_identifiers<T: NcTypeDescriptor>(&mut self, name: &str, dims: &[DimensionIdentifier]) -> (r: Result<VariableMut<'_>>)
        requires
            old(self).valid(),
        ensures
            exists|t: NcVariableType| #[trigger] call_ensures(T::type_descriptor, (), t) && {
                &&& r matches Ok(v) ==> v.valid() && add_variable_ids_outcome(old(self).data(), v.data(), old(self).id as int, name@, t, dims@, true, type_absent_message(), var_result(r))
                &&& r is Err ==> add_variable_ids_outcome(old(self).data(), final(self).data(), old(self).id as int, name@, t, dims@, true, type_absent_message(), var_result(r))
            },
    {
        let t = T::type_descriptor();
        let v = add_variable_from_ids_at_path(self.ds, self.id, name, &t, dims, true, "Type not found at this location")?;
        let dimensions = dimensions_of_var(self.ds, v);
        Ok(VariableMut { ds: self.ds, id: v, dimensions })
    }

    /// Writes the value as the attribute called by `name` (a path from this
    /// group)
    pub fn put_attribute_value(&mut self, name: &str, val: AttributeValue) -> (r: Result<Attribute<'_>>)
        requires
            old(self).valid(),
        ensures
            r matches Ok(a) ==> a.valid() && a.ds == &final(self).data(),
            match path_target(old(self).data(), old(self).id as int, name@) {
                None => path_refused(old(self).data(), old(self).id as int, name@, att_result(r)) && final(self).data() == old(self).data(),
                Some((p, n)) => attribute_outcome(old(self).data(), final(self).data(), p, None, n, val, att_result(r)),
            },
    {
        let a = put_attribute_at_path(self.ds, self.id, name, val)?;
        Ok(Attribute { ds: self.ds, index: a })
    }

    /// Add an attribute to the group
    pub fn add_attribute<T: Into<AttributeValue>>(&mut self, name: &str, val: T) -> (r: Result<Attribute<'_>>)
        requires
            old(self).valid(),
        ensures
            exists|v: AttributeValue| call_ensures(T::into, (val,), v) && {
                &&& r matches Ok(a) ==> a.valid() && a.ds == &final(self).data()
                &&& match path_target(old(self).data(), old(self).id as int, name@) {
                    None => path_refused(old(self).data(), old(self).id as int, name@, att_result(r)) && final(self).data() == old(self).data(),
                    Some((p, n)) => attribute_outcome(old(self).data(), final(self).data(), p, None, n, v, att_result(r)),
                }
            },
    {
        let v: AttributeValue = val.into();
        self.put_attribute_value(name, v)
    }

    /// Add a type using a descriptor
    pub fn add_type_from_descriptor(&mut self, typ: NcVariableType) -> (r: Result<i32>)
        requires
            old(self).valid(),
        ensures
            final(self).valid(),
            final(self).id == old(self).id,
            define_type_outcome(old(self).data(), final(self).data(), old(self).id as int, typ, r),
    {
        define_type(self.ds, self.id, typ)
    }

    /// Add a derived type
    pub fn add_type<T: NcTypeDescriptor>(&mut self) -> (r: Result<i32>)
        requires
            old(self).valid(),
        ensures
            final(self).valid(),
            final(self).id == old(self).id,
            exists|t: NcVariableType| #[trigger] call_ensures(T::type_descriptor, (), t) && define_type_outcome(old(self).data(), final(self).data(), old(self).id as int, t, r),
    {
        let t = T::type_descriptor();
        self.add_type_from_descriptor(t)
    }

    /// Name of the current group
    pub fn name(&self) -> (r: String)
        requires
            self.valid(),
        ensures
            r@ == self.data().groups@[self.id as int].name@,
    {
        self.ds.groups[self.id].name.clone()
    }

    /// Get a variable from the group
    pub fn variable(&self, name: &str) -> (r: Option<Variable<'_>>)
        requires
            self.valid(),
            lookup_ok(self.data(), self.id as int, name@),
        ensures
            r matches Some(v) ==> *v.ds == self.data() && v.valid() && var_at(self.data(), self.id as int, name@) == Some(v.id as int),
            r is None ==> var_at(self.data(), self.id as int, name@) is None,
    {
        lookup_variable(self.ds, self.id, name)
    }

    /// Iterate over all variables in a group
    pub fn variables(&self) -> (r: Vec<Variable<'_>>)
        requires
            self.valid(),
        ensures
            r@.len() == select_upto(self.data().vars@.len() as int, var_in(self.data(), self.id as int)).len(),
            forall|k: int|
                0 <= k < r@.len() ==> (#[trigger] r@[k]).id == select_upto(self.data().vars@.len() as int, var_in(self.data(), self.id as int))[k]
                    && *r@[k].ds == self.data() && r@[k].valid(),
    {
        variables_of_group(self.ds, self.id)
    }

    /// Get a single attribute
    pub fn attribute(&self, name: &str) -> (r: Option<Attribute<'_>>)
        requires
            self.valid(),
            lookup_ok(self.data(), self.id as int, name@),
        ensures
            r matches Some(a) ==> *a.ds == self.data() && a.valid() && att_at(self.data(), self.id as int, name@) == Some(a.index as int),
            r is None ==> att_at(self.data(), self.id as int, name@) is None,
    {
        lookup_attribute(self.ds, self.id, name)
    }

    /// Get all attributes in the group
    pub fn attributes(&self) -> (r: Vec<Attribute<'_>>)
        requires
            self.valid(),
        ensures
            r@.len() == select_upto(self.data().atts@.len() as int, crate::dataset::att_in(self.data(), self.id as int, None)).len(),
            forall|k: int| 0 <= k < r@.len() ==> *(#[trigger] r@[k]).ds == self.data() && r@[k].valid()
                && r@[k].index == select_upto(self.data().atts@.len() as int, crate::dataset::att_in(self.data(), self.id as int, None))[k],
    {
        attributes_at(self.ds, self.id, None)
    }

    /// Get a single dimension
    pub fn dimension(&self, name: &str) -> (r: Option<Dimension>)
        requires
            self.valid(),
            lookup_ok(self.data(), self.id as int, name@),
        ensures
            r matches Some(d) ==> dim_at(self.data(), self.id as int, name@) matches Some(i) && d.describes(&self.data(), i),
            r is None ==> dim_at(self.data(), self.id as int, name@) is None,
    {
        lookup_dimension(self.ds, self.id, name)
    }

    /// Iterator over all dimensions
    pub fn dimensions(&self) -> (r: Vec<Dimension>)
        ensures
            r@.len() == select_upto(self.data().dims@.len() as int, crate::dataset::dim_in(self.data(), self.id as int)).len(),
            forall|k: int|
                0 <= k < r@.len() ==> #[trigger] r@[k].describes(
                    &self.data(),
                    select_upto(self.data().dims@.len() as int, crate::dataset::dim_in(self.data(), self.id as int))[k],
                ),
    {
        dimensions_of_group(self.ds, self.id)
    }

    /// Get a group
    pub fn group(&self, name: &str) -> (r: Option<Group<'_>>)
        requires
            self.valid(),
            walk_to_parent(self.data(), self.id as int, name@) is Found,
            !(group_at(self.data(), self.id as int, name@) is Failed),
        ensures
            match group_at(self.data(), self.id as int, name@) {
                Walk::Found(c) => r matches Some(h) && *h.ds == self.data() && h.id == c && h.valid(),
                _ => r is None,
            },
    {
        match group_at_path(self.ds, self.id, name) {
            Ok(Some(c)) => Some(Group { ds: self.ds, id: c }),
            _ => None,
        }
    }

    /// Iterator over all subgroups in this group
    pub fn groups(&self) -> (r: Vec<Group<'_>>)
        requires
            self.valid(),
        ensures
            r@.len() == select_upto(self.data().groups@.len() as int, group_in(self.data(), self.id as int)).len(),
            forall|k: int| 0 <= k < r@.len() ==> *(#[trigger] r@[k]).ds == self.data() && r@[k].valid()
                && r@[k].id == select_upto(self.data().groups@.len() as int, group_in(self.data(), self.id as int))[k],
    {
        let g = Group { ds: self.ds, id: self.id };
        g.groups()
    }

    /// Return all types in this group
    pub fn types(&self) -> (r: Vec<NcVariableType>)
        ensures
            r@.len() == select_upto(self.data().types@.len() as int, type_in(self.data(), self.id as int)).len(),
            forall|k: int|
                0 <= k < r@.len() ==> nc_type_eq(#[trigger] r@[k], self.data().types@[select_upto(self.data().types@.len() as int, type_in(self.data(), self.id as int))[k]].descriptor),
    {
        types_of_group(self.ds, self.id)
    }

    /// Get a mutable variable from the group
    pub fn variable_mut(&mut self, name: &str) -> (r: Option<VariableMut<'_>>)
        requires
            old(self).valid(),
            lookup_ok(old(self).data(), old(self).id as int, name@),
        ensures
            r matches Some(v) ==> v.data() == old(self).data() && v.valid() && var_at(old(self).data(), old(self).id as int, name@) == Some(v.id as int),
            r is None ==> var_at(old(self).data(), old(self).id as int, name@) is None && final(self).data() == old(self).data(),
    {
        match variable_at(self.ds, self.id, name) {
            Some(v) => {
                let dimensions = dimensions_of_var(self.ds, v);
                Some(VariableMut { ds: self.ds, id: v, dimensions })
            },
            None => None,
        }
    }

    /// Mutable access to subgroup
    pub fn group_mut(&mut self, name: &str) -> (r: Option<GroupMut<'_>>)
        requires
            old(self).valid(),
            walk_to_parent(old(self).data(), old(self).id as int, name@) is Found,
            !(group_at(old(self).data(), old(self).id as int, name@) is Failed),
        ensures
            match group_at(old(self).data(), old(self).id as int, name@) {
                Walk::Found(c) => r matches Some(h) && h.data() == old(self).data() && h.id == c && h.valid(),
                _ => r is None && final(self).data() == old(self).data(),
            },
    {
        match group_at_path(self.ds, self.id, name) {
            Ok(Some(c)) => Some(GroupMut { ds: self.ds, id: c }),
            _ => None,
        }
    }
}

} // verus!
