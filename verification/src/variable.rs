//! Variables in the netcdf file
use vstd::prelude::*;

use crate::attribute::{read_view, stored_view, value_of, value_view, Attribute, AttributeValue};
use crate::dataset::{att_in, select_upto, Dataset};
use crate::dimension::{dimension_of, Dimension};
use crate::names::{c_name, short_name_to_bytes, too_long};
use crate::typedefs::{descriptor_of, read_type};
use crate::access::{attribute_outcome, put_var_attribute};
use crate::error::{Error, Result, NC_EMAXNAME};
use crate::group::att_result;
use crate::extent::{
    extents_well_formed, lemma_hyperslab_determined, sel_count, sel_matches, sel_start, sel_stride,
    Extents,
};
use crate::hyperslab::{coords, product};
use crate::putget::{
    count_product, float_type, get_one_outcome, get_outcome, into_outcome, get_vars, lemma_saturating_below, put_count, put_outcome, put_vars,
    read_refusal, refused_with, value_at, values_read, Numeric,
};
use crate::types::{nc_type_eq, NcVariableType};

verus! {

/// The product of the lengths, where a product beyond `usize::MAX` stays at
/// `usize::MAX`.
pub open spec fn saturating_product(lens: Seq<usize>) -> usize
    decreases lens.len(),
{
    if lens.len() == 0 {
        1
    } else {
        let p = saturating_product(lens.drop_last()) as int * lens.last() as int;
        if p > usize::MAX {
            usize::MAX
        } else {
            p as usize
        }
    }
}

/// The lengths of the dimensions.
pub open spec fn lens_of(dims: Seq<Dimension>) -> Seq<usize> {
    dims.map_values(|d: Dimension| d.len)
}

/// This struct defines a `netCDF` variable.
#[derive(Debug)]
pub struct Variable<'g> {
    pub ds: &'g Dataset,
    /// Position of the variable in the dataset
    pub id: usize,
    /// The dimensions of the variable, as they were when it was looked up
    pub dimensions: Vec<Dimension>,
}

/// Mutable access to a variable.
#[derive(Debug)]
pub struct VariableMut<'g> {
    pub ds: &'g mut Dataset,
    /// Position of the variable in the dataset
    pub id: usize,
    /// The dimensions of the variable, as they were when it was looked up
    pub dimensions: Vec<Dimension>,
}

/// Enum for variables endianness
#[derive(Debug, Copy, Clone, PartialEq, Eq, Structural)]
pub enum Endianness {
    /// Native endianness, depends on machine architecture (x86_64 is Little)
    Native,
    /// Lille endian
    Little,
    /// Big endian
    Big,
}

/// The dimensions describe those of variable `v` of the dataset.
pub open spec fn dims_describe(ds: &Dataset, v: int, dims: Seq<Dimension>) -> bool {
    &&& dims.len() == ds.vars@[v].dims@.len()
    &&& forall|k: int| 0 <= k < dims.len() ==> #[trigger] dims[k].describes(ds, ds.vars@[v].dims@[k] as int)
}

/// The dimensions of variable `v`, as values.
pub fn dimensions_of_var(ds: &Dataset, v: usize) -> (r: Vec<Dimension>)
    requires
        ds.wf(),
        v < ds.vars@.len(),
    ensures
        dims_describe(ds, v as int, r@),
{
    let mut out: Vec<Dimension> = Vec::new();
    let n = ds.vars[v].dims.len();
    for k in 0..n
        invariant
            ds.wf(),
            v < ds.vars@.len(),
            n == ds.vars@[v as int].dims@.len(),
            out@.len() == k,
            forall|j: int| 0 <= j < k ==> #[trigger] out@[j].describes(ds, ds.vars@[v as int].dims@[j] as int),
    {
        let d = ds.vars[v].dims[k];
        assert(d < ds.dims@.len());
        out.push(dimension_of(ds, d));
    }
    out
}

/// The name of variable `v`.
pub fn name_of_var(ds: &Dataset, v: usize) -> (r: String)
    requires
        v < ds.vars@.len(),
    ensures
        r@ == ds.vars@[v as int].name@,
{
    ds.vars[v].name.clone()
}

/// The type of variable `v`.
pub fn type_of_var(ds: &Dataset, v: usize) -> (r: NcVariableType)
    requires
        ds.wf(),
        v < ds.vars@.len(),
    ensures
        descriptor_of(*ds, ds.vars@[v as int].xtype) matches Some(t) && nc_type_eq(r, t),
{
    assert(ds.known_type(ds.vars@[v as int].xtype));
    match read_type(ds, ds.vars[v].xtype) {
        Ok(t) => t,
        Err(_) => NcVariableType::Char,
    }
}

/// The product of the lengths of the dimensions, saturating at `usize::MAX`.
pub fn len_of_dims(dims: &[Dimension]) -> (r: usize)
    ensures
        r == saturating_product(lens_of(dims@)),
{
    let mut acc: usize = 1;
    let mut i: usize = 0;
    while i < dims.len()
        invariant
            i <= dims@.len(),
            acc == saturating_product(lens_of(dims@.subrange(0, i as int))),
        decreases dims@.len() - i,
    {
        proof {
            assert(lens_of(dims@.subrange(0, i + 1)).drop_last() =~= lens_of(dims@.subrange(0, i as int)));
            assert(lens_of(dims@.subrange(0, i + 1)).last() == dims@[i as int].len);
        }
        acc = match acc.checked_mul(dims[i].len) {
            Some(p) => p,
            None => usize::MAX,
        };
        i = i + 1;
    }
    assert(dims@.subrange(0, i as int) =~= dims@);
    acc
}

/// The attribute `name` of variable `v`.
pub fn var_attribute(ds: &Dataset, v: usize, name: &str) -> (r: Option<usize>)
    requires
        ds.wf(),
        v < ds.vars@.len(),
        !too_long(name@),
    ensures
        r matches Some(a) ==> ds.att_here(ds.vars@[v as int].group as int, Some(v), c_name(name@)) == Some(a as int),
        r is None ==> ds.att_here(ds.vars@[v as int].group as int, Some(v), c_name(name@)) is None,
{
    match short_name_to_bytes(name) {
        Ok(n) => ds.find_att_here(ds.vars[v].group, Some(v), n.as_str()),
        Err(_) => None,
    }
}

/// The attributes of group `g` (or of its variable `var`), in the order they
/// were added.
pub fn attributes_at<'a>(ds: &'a Dataset, g: usize, var: Option<usize>) -> (r: Vec<Attribute<'a>>)
    requires
        ds.wf(),
    ensures
        r@.len() == select_upto(ds.atts@.len() as int, att_in(*ds, g as int, var)).len(),
        forall|k: int|
            0 <= k < r@.len() ==> (#[trigger] r@[k]).index == select_upto(ds.atts@.len() as int, att_in(*ds, g as int, var))[k] && r@[k].ds == ds && r@[k].valid(),
{
    let mut out: Vec<Attribute<'a>> = Vec::new();
    let mut i: usize = 0;
    while i < ds.atts.len()
        invariant
            ds.wf(),
            i <= ds.atts@.len(),
            out@.len() == select_upto(i as int, att_in(*ds, g as int, var)).len(),
            forall|k: int|
                0 <= k < out@.len() ==> (#[trigger] out@[k]).index == select_upto(i as int, att_in(*ds, g as int, var))[k] && out@[k].ds == ds && out@[k].valid(),
        decreases ds.atts@.len() - i,
    {
        if ds.atts[i].group == g && ds.atts[i].var == var {
            out.push(Attribute { ds, index: i });
        }
        i = i + 1;
    }
    out
}

impl<'g> Variable<'g> {
    /// The variable names a variable of a well-formed dataset and holds its
    /// dimensions.
    pub open spec fn valid(&self) -> bool {
        &&& self.ds.wf()
        &&& self.id < self.ds.vars@.len()
        &&& dims_describe(self.ds, self.id as int, self.dimensions@)
    }

    /// Get the name of variable
    pub fn name(&self) -> (r: String)
        requires
            self.valid(),
        ensures
            r@ == self.ds.vars@[self.id as int].name@,
    {
        name_of_var(self.ds, self.id)
    }

    /// Get an attribute of this variable
    pub fn attribute(&self, name: &str) -> (r: Option<Attribute<'g>>)
        requires
            self.valid(),
            !too_long(name@),
        ensures
            r matches Some(a) ==> a.ds == self.ds && a.valid() && self.ds.att_here(
                self.ds.vars@[self.id as int].group as int,
                Some(self.id),
                c_name(name@),
            ) == Some(a.index as int),
            r is None ==> self.ds.att_here(
                self.ds.vars@[self.id as int].group as int,
                Some(self.id),
                c_name(name@),
            ) is None,
    {
        match var_attribute(self.ds, self.id, name) {
            Some(a) => Some(Attribute { ds: self.ds, index: a }),
            None => None,
        }
    }

    /// The attributes of this variable
    pub fn attributes(&self) -> (r: Vec<Attribute<'g>>)
        requires
            self.valid(),
        ensures
            r@.len() == select_upto(
                self.ds.atts@.len() as int,
                att_in(*self.ds, self.ds.vars@[self.id as int].group as int, Some(self.id)),
            ).len(),
            forall|k: int| 0 <= k < r@.len() ==> (#[trigger] r@[k]).ds == self.ds && r@[k].valid()
                && r@[k].index == select_upto(
                self.ds.atts@.len() as int,
                att_in(*self.ds, self.ds.vars@[self.id as int].group as int, Some(self.id)),
            )[k],
    {
        attributes_at(self.ds, self.ds.vars[self.id].group, Some(self.id))
    }

    /// Get the attribute value
    pub fn attribute_value(&self, name: &str) -> (r: Option<crate::error::Result<AttributeValue>>)
        requires
            self.valid(),
            !too_long(name@),
        ensures
            match self.ds.att_here(
                self.ds.vars@[self.id as int].group as int,
                Some(self.id),
                c_name(name@),
            ) {
                Some(a) => r matches Some(Ok(v)) && value_view(v) == read_view(
                    stored_view(self.ds.atts@[a].data),
                ),
                None => r is None,
            },
    {
        match var_attribute(self.ds, self.id, name) {
            Some(a) => Some(Ok(value_of(&self.ds.atts[a].data))),
            None => None,
        }
    }

    /// Dimensions for a variable
    pub fn dimensions(&self) -> (r: &[Dimension])
        ensures
            r@ == self.dimensions@,
    {
        self.dimensions.as_slice()
    }

    /// Get the type of this variable
    pub fn vartype(&self) -> (r: NcVariableType)
        requires
            self.valid(),
        ensures
            descriptor_of(*self.ds, self.ds.vars@[self.id as int].xtype) matches Some(t)
                && nc_type_eq(r, t),
    {
        type_of_var(self.ds, self.id)
    }

    /// Get current length of the variable
    pub fn len(&self) -> (r: usize)
        ensures
            r == saturating_product(lens_of(self.dimensions@)),
    {
        len_of_dims(self.dimensions.as_slice())
    }
}

impl<'g> VariableMut<'g> {
    /// The variable names a variable of a well-formed dataset and holds its
    /// dimensions.
    pub open spec fn valid(&self) -> bool {
        &&& self.ds.wf()
        &&& self.id < self.ds.vars@.len()
        &&& dims_describe(self.ds, self.id as int, self.dimensions@)
    }

    /// The dataset that the variable belongs to.
    pub open spec fn data(&self) -> Dataset {
        *self.ds
    }

    /// Get the name of variable
    pub fn name(&self) -> (r: String)
        requires
            self.valid(),
        ensures
            r@ == self.data().vars@[self.id as int].name@,
    {
        name_of_var(self.ds, self.id)
    }

    /// Dimensions for a variable
    pub fn dimensions(&self) -> (r: &[Dimension])
        ensures
            r@ == self.dimensions@,
    {
        self.dimensions.as_slice()
    }

    /// Get the type of this variable
    pub fn vartype(&self) -> (r: NcVariableType)
        requires
            self.valid(),
        ensures
            descriptor_of(self.data(), self.data().vars@[self.id as int].xtype) matches Some(t)
                && nc_type_eq(r, t),
    {
        type_of_var(self.ds, self.id)
    }

    /// Get current length of the variable
    pub fn len(&self) -> (r: usize)
        ensures
            r == saturating_product(lens_of(self.dimensions@)),
    {
        len_of_dims(self.dimensions.as_slice())
    }
}

/// The lengths of the dimensions, in order.
pub fn dim_lens(dims: &[Dimension]) -> (r: Vec<usize>)
    ensures
        r@ == lens_of(dims@),
{
    let mut out: Vec<usize> = Vec::new();
    for i in 0..dims.len()
        invariant
            out@ == lens_of(dims@.subrange(0, i as int)),
    {
        proof {
            assert(lens_of(dims@.subrange(0, i + 1)) =~= lens_of(dims@.subrange(0, i as int)).push(dims@[i as int].len));
        }
        out.push(dims[i].len);
    }
    assert(dims@.subrange(0, dims@.len() as int) =~= dims@);
    out
}

/// Reads the selection of variable `v`, whose dimensions are `dims`.
pub fn values_of_selection<T: Numeric>(ds: &Dataset, v: usize, dims: &[Dimension], extents: &Extents) -> (r: Result<Vec<T>>)
    requires
        ds.wf(),
        v < ds.vars@.len(),
        dims_describe(ds, v as int, dims@),
        extents_well_formed(*extents),
        sel_matches(*extents, lens_of(dims@)) ==> product(sel_count(*extents, lens_of(dims@))) <= usize::MAX,
    ensures
        get_outcome(*ds, v as int, *extents, lens_of(dims@), r),
{
    let lens = dim_lens(dims);
    let (start, count, stride) = match extents.get_start_count_stride(lens.as_slice()) {
        Ok(t) => t,
        Err(e) => return Err(e),
    };
    proof {
        lemma_hyperslab_determined(*extents, lens@, start@, count@, stride@);
    }
    get_vars(ds, v, start.as_slice(), count.as_slice(), stride.as_slice())
}

impl<'g> Variable<'g> {
    /// Get multiple values from a variable
    ///
    /// Take notice:
    /// `scale_factor` and `offset_factor` and other attributes are not
    /// automatically applied.
    pub fn get_values<T: Numeric>(&self, extents: &Extents) -> (r: Result<Vec<T>>)
        requires
            self.valid(),
            extents_well_formed(*extents),
            sel_matches(*extents, lens_of(self.dimensions@)) ==> product(
                sel_count(*extents, lens_of(self.dimensions@)),
            ) <= usize::MAX,
        ensures
            get_outcome(*self.ds, self.id as int, *extents, lens_of(self.dimensions@), r),
    {
        values_of_selection(self.ds, self.id, self.dimensions.as_slice(), extents)
    }

    /// Get a single value
    pub fn get_value<T: Numeric>(&self, extents: &Extents) -> (r: Result<T>)
        requires
            self.valid(),
            extents_well_formed(*extents),
            sel_matches(*extents, lens_of(self.dimensions@)) ==> product(
                sel_count(*extents, lens_of(self.dimensions@)),
            ) <= usize::MAX,
        ensures
            get_one_outcome(*self.ds, self.id as int, *extents, lens_of(self.dimensions@), r),
    {
        let elems = match self.get_values::<T>(extents) {
            Ok(v) => v,
            Err(e) => return Err(e),
        };
        if elems.len() == 0 {
            return Err(Error::Str("No elements returned".to_owned()));
        }
        if elems.len() > 1 {
            return Err(Error::Str("Too many elements returned".to_owned()));
        }
        Ok(elems[0])
    }
}

/// Reads the selection of variable `v`, whose dimensions are `dims`, into
/// the buffer.
pub fn selection_into<T: Numeric>(ds: &Dataset, v: usize, dims: &[Dimension], buffer: &mut [T], extents: &Extents) -> (r: Result<()>)
    requires
        ds.wf(),
        v < ds.vars@.len(),
        dims_describe(ds, v as int, dims@),
        extents_well_formed(*extents),
        old(buffer)@.len() < usize::MAX,
    ensures
        into_outcome(*ds, v as int, *extents, lens_of(dims@), old(buffer)@, final(buffer)@, r),
{
    let lens = dim_lens(dims);
    let (start, count, stride) = match extents.get_start_count_stride(lens.as_slice()) {
        Ok(t) => t,
        Err(e) => return Err(e),
    };
    proof {
        lemma_hyperslab_determined(*extents, lens@, start@, count@, stride@);
    }
    let n = count_product(count.as_slice());
    if n != buffer.len() {
        return Err(Error::BufferLen { wanted: n, actual: buffer.len() });
    }
    proof {
        lemma_saturating_below(count@);
    }
    let vals = match get_vars::<T>(ds, v, start.as_slice(), count.as_slice(), stride.as_slice()) {
        Ok(vals) => vals,
        Err(e) => return Err(e),
    };
    let mut i: usize = 0;
    while i < n
        invariant
            n == vals@.len(),
            n == buffer@.len(),
            i <= n,
            forall|k: int| 0 <= k < i ==> buffer@[k] == vals@[k],
        decreases n - i,
    {
        buffer[i] = vals[i];
        i = i + 1;
    }
    assert(buffer@ =~= vals@);
    Ok(())
}

impl<'g> Variable<'g> {
    /// Fetches variable into slice
    /// buffer must be able to hold all the requested elements
    pub fn get_values_into<T: Numeric>(&self, buffer: &mut [T], extents: &Extents) -> (r: Result<()>)
        requires
            self.valid(),
            extents_well_formed(*extents),
            old(buffer)@.len() < usize::MAX,
        ensures
            into_outcome(*self.ds, self.id as int, *extents, lens_of(self.dimensions@), old(buffer)@, final(buffer)@, r),
    {
        selection_into(self.ds, self.id, self.dimensions.as_slice(), buffer, extents)
    }
}

impl<'g> VariableMut<'g> {
    /// Get multiple values from a variable
    pub fn get_values<T: Numeric>(&self, extents: &Extents) -> (r: Result<Vec<T>>)
        requires
            self.valid(),
            extents_well_formed(*extents),
            sel_matches(*extents, lens_of(self.dimensions@)) ==> product(
                sel_count(*extents, lens_of(self.dimensions@)),
            ) <= usize::MAX,
        ensures
            get_outcome(self.data(), self.id as int, *extents, lens_of(self.dimensions@), r),
    {
        values_of_selection(self.ds, self.id, self.dimensions.as_slice(), extents)
    }

    /// Put a slice of values at `indices`
    pub fn put_values<T: Numeric>(&mut self, values: &[T], extents: &Extents) -> (r: Result<()>)
        requires
            old(self).valid(),
            extents_well_formed(*extents),
            !float_type(old(self).data().vars@[old(self).id as int].xtype),
            values@.len() < usize::MAX,
        ensures
            final(self).valid(),
            final(self).id == old(self).id,
            put_outcome(
                old(self).data(),
                final(self).data(),
                old(self).id as int,
                *extents,
                lens_of(old(self).dimensions@),
                values@,
                r,
            ),
    {
        let lens = dim_lens(self.dimensions.as_slice());
        let (start, count, stride) = match extents.get_start_count_stride(lens.as_slice()) {
            Ok(t) => t,
            Err(e) => return Err(e),
        };
        proof {
            lemma_hyperslab_determined(*extents, lens@, start@, count@, stride@);
        }
        let mut count = count;
        let n = count_product(count.as_slice());
        if n != values.len() {
            if lens.len() == 1 {
                count.set(0, values.len());
                proof {
                    assert(count@ =~= seq![values@.len() as usize]);
                    assert(count@.drop_last() =~= Seq::<usize>::empty());
                    assert(product(count@.drop_last()) == 1);
                    assert(product(count@) == product(count@.drop_last()) * count@.last());
                    assert(product(count@) == values@.len());
                }
            } else {
                return Err(Error::BufferLen { wanted: n, actual: values.len() });
            }
        } else {
            proof {
                lemma_saturating_below(count@);
            }
        }
        match put_vars(self.ds, self.id, start.as_slice(), count.as_slice(), stride.as_slice(), values) {
            Ok(()) => {},
            Err(e) => return Err(e),
        }
        self.dimensions = dimensions_of_var(self.ds, self.id);
        Ok(())
    }

    /// Writes the value as the attribute called `name` of the variable.
    fn put_attribute_value(&mut self, name: &str, v: AttributeValue) -> (r: Result<Attribute<'_>>)
        requires
            old(self).valid(),
        ensures
            r matches Ok(a) ==> a.valid() && a.ds == &final(self).data(),
            r is Err ==> final(self).valid(),
            too_long(name@) ==> (r matches Err(Error::Netcdf(c)) && c == NC_EMAXNAME)
                && final(self).data() == old(self).data(),
            !too_long(name@) ==> attribute_outcome(
                old(self).data(),
                final(self).data(),
                old(self).data().vars@[old(self).id as int].group as int,
                Some(old(self).id),
                c_name(name@),
                v,
                att_result(r),
            ),
    {
        let a = put_var_attribute(self.ds, self.id, name, v);
        proof {
            assert(self.ds.dims == old(self).data().dims && self.ds.vars == old(self).data().vars) by {
                if !too_long(name@) {
                    if !crate::attribute::put_refused(v) && !crate::dataset::bad_name(c_name(name@)) {
                        assert(a is Ok);
                    }
                }
            }
            assert forall|k: int| 0 <= k < self.dimensions@.len() implies #[trigger] self.dimensions@[k].describes(
                self.ds,
                self.ds.vars@[self.id as int].dims@[k] as int,
            ) by {
                assert(old(self).dimensions@[k].describes(old(self).ds, old(self).ds.vars@[self.id as int].dims@[k] as int));
            }
        }
        match a {
            Ok(a) => Ok(Attribute { ds: self.ds, index: a }),
            Err(e) => Err(e),
        }
    }

    /// Adds an attribute to the variable
    pub fn put_attribute<T: Into<AttributeValue>>(&mut self, name: &str, val: T) -> (r: Result<Attribute<'_>>)
        requires
            old(self).valid(),
        ensures
            exists|v: AttributeValue| #[trigger] call_ensures(T::into, (val,), v) && {
                &&& r matches Ok(a) ==> a.valid() && a.ds == &final(self).data()
                &&& r is Err ==> final(self).valid()
                &&& too_long(name@) ==> (r matches Err(Error::Netcdf(c)) && c == NC_EMAXNAME)
                    && final(self).data() == old(self).data()
                &&& !too_long(name@) ==> attribute_outcome(
                    old(self).data(),
                    final(self).data(),
                    old(self).data().vars@[old(self).id as int].group as int,
                    Some(old(self).id),
                    c_name(name@),
                    v,
                    att_result(r),
                )
            },
    {
        let v: AttributeValue = val.into();
        self.put_attribute_value(name, v)
    }

    /// Put a value at the specified indices
    pub fn put_value<T: Numeric>(&mut self, value: T, extents: &Extents) -> (r: Result<()>)
        requires
            old(self).valid(),
            extents_well_formed(*extents),
            !float_type(old(self).data().vars@[old(self).id as int].xtype),
        ensures
            final(self).valid(),
            final(self).id == old(self).id,
            put_outcome(
                old(self).data(),
                final(self).data(),
                old(self).id as int,
                *extents,
                lens_of(old(self).dimensions@),
                seq![value],
                r,
            ),
    {
        let vals = [value];
        assert(vals@ =~= seq![value]);
        self.put_values(&vals, extents)
    }
}

} // verus!
