//! Interact with netcdf dimensions
use vstd::prelude::*;

use crate::dataset::{dim_in, select_upto, Dataset};

verus! {

/// Unique identifier for a dimension in a file. Used when
/// names can not be used directly, for example when dealing
/// with nested groups
#[derive(Debug, Copy, Clone, PartialEq, Eq, Structural)]
pub struct DimensionIdentifier {
    /// The group of the dimension
    pub ncid: usize,
    /// The position of the dimension in the dataset
    pub dimid: usize,
}

/// Represents a netcdf dimension
#[derive(Debug, Clone)]
pub struct Dimension {
    /// Current length
    pub len: usize,
    /// The dimension grows as values are written along it
    pub unlimited: bool,
    pub id: DimensionIdentifier,
    pub name: String,
}

impl Dimension {
    /// The dimension describes the dimension `d` of the dataset.
    pub open spec fn describes(&self, ds: &Dataset, d: int) -> bool {
        &&& 0 <= d < ds.dims@.len()
        &&& self.len == ds.dims@[d].len
        &&& self.unlimited == ds.dims@[d].unlimited
        &&& self.id == (DimensionIdentifier { ncid: ds.dims@[d].group, dimid: d as usize })
        &&& self.name@ == ds.dims@[d].name@
    }

    /// Get current length of this dimension
    pub fn len(&self) -> (r: usize)
        ensures
            r == self.len,
    {
        self.len
    }

    /// Checks whether the dimension is growable
    pub fn is_unlimited(&self) -> (r: bool)
        ensures
            r == self.unlimited,
    {
        self.unlimited
    }

    /// Gets the name of the dimension
    pub fn name(&self) -> (r: String)
        ensures
            r@ == self.name@,
    {
        self.name.clone()
    }

    /// Grabs the unique identifier for this dimension, which
    /// can be used in `add_variable_from_identifiers`
    pub fn identifier(&self) -> (r: DimensionIdentifier)
        ensures
            r == self.id,
    {
        self.id
    }
}

/// The dimension `d` of a dataset, as a value.
pub fn dimension_of(ds: &Dataset, d: usize) -> (r: Dimension)
    requires
        d < ds.dims@.len(),
    ensures
        r.describes(ds, d as int),
{
    let e = &ds.dims[d];
    Dimension {
        len: e.len,
        unlimited: e.unlimited,
        id: DimensionIdentifier { ncid: e.group, dimid: d },
        name: e.name.clone(),
    }
}

/// The dimensions of group `g`, in the order they were added.
pub fn dimensions_of_group(ds: &Dataset, g: usize) -> (r: Vec<Dimension>)
    ensures
        r@.len() == select_upto(ds.dims@.len() as int, dim_in(*ds, g as int)).len(),
        forall|k: int|
            0 <= k < r@.len() ==> #[trigger] r@[k].describes(
                ds,
                select_upto(ds.dims@.len() as int, dim_in(*ds, g as int))[k],
            ),
{
    let mut out: Vec<Dimension> = Vec::new();
    let mut i: usize = 0;
    while i < ds.dims.len()
        invariant
            i <= ds.dims@.len(),
            out@.len() == select_upto(i as int, dim_in(*ds, g as int)).len(),
            forall|k: int|
                0 <= k < out@.len() ==> #[trigger] out@[k].describes(
                    ds,
                    select_upto(i as int, dim_in(*ds, g as int))[k],
                ),
        decreases ds.dims@.len() - i,
    {
        if ds.dims[i].group == g {
            out.push(dimension_of(ds, i));
        }
        i = i + 1;
    }
    out
}

} // verus!
