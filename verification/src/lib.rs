//! Verified core of a netCDF access library and of CF-convention time handling.
use vstd::prelude::*;

pub mod access;
pub mod attribute;
pub mod cftime;
pub mod dataset;
pub mod dimension;
pub mod error;
pub mod group;
pub mod hyperslab;
pub mod extent;
pub mod file;
pub mod names;
pub mod putget;
pub mod storage;
pub mod text;
pub mod typedefs;
pub mod types;
pub mod variable;

pub use attribute::{Attribute, AttributeValue};
pub use dimension::{Dimension, DimensionIdentifier};
pub use error::{Error, Result};
pub use extent::{Extent, Extents};
pub use file::{create, create_with, File, FileMut, MutableFile, Options};
pub use group::{Group, GroupMut};
pub use types::NcTypeDescriptor;
pub use variable::{Endianness, Variable, VariableMut};

verus! {

} // verus!
