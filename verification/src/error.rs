//! Errors that can appear when interacting with netCDF data, the result type
//! of this crate, and the mapping of the C library's status codes.
use vstd::prelude::*;
use vstd::std_specs::convert::FromSpecImpl;

verus! {

/// No error.
pub const NC_NOERR: i32 = 0;
/// File exists and the clobber flag forbids overwriting it.
pub const NC_EEXIST: i32 = -35;
/// String match to name in use.
pub const NC_ENAMEINUSE: i32 = -42;
/// Attribute not found.
pub const NC_ENOTATT: i32 = -43;
/// Not a valid data type or `_FillValue` type mismatch.
pub const NC_EBADTYPE: i32 = -45;
/// Invalid dimension id or name.
pub const NC_EBADDIM: i32 = -46;
/// Variable not found.
pub const NC_ENOTVAR: i32 = -49;
/// Name too long.
pub const NC_EMAXNAME: i32 = -53;
/// A classic dataset can have one unlimited dimension only.
pub const NC_EUNLIMIT: i32 = -54;
/// Attempt to convert between text and numbers.
pub const NC_ECHAR: i32 = -56;
/// Start plus count exceeds the dimension bound.
pub const NC_EEDGE: i32 = -57;
/// Illegal stride.
pub const NC_ESTRIDE: i32 = -58;
/// Attribute or variable name contains illegal characters.
pub const NC_EBADNAME: i32 = -59;
/// Numeric conversion not representable.
pub const NC_ERANGE: i32 = -60;
/// Index exceeds dimension bound.
pub const NC_EINVALCOORDS: i32 = -40;
/// Invalid argument.
pub const NC_EINVAL: i32 = -36;
/// Attempt to define a fill value when data already exists.
pub const NC_ELATEFILL: i32 = -122;
/// Attempt to define variable properties, like deflate, after data was
/// written.
pub const NC_ELATEDEF: i32 = -123;
/// Bad chunk sizes.
pub const NC_EBADCHUNK: i32 = -127;
/// Error in variable metadata.
pub const NC_EVARMETA: i32 = -108;
/// Attribute already exists.
pub const NC_EATTEXISTS: i32 = -110;
/// Operation only allowed for netCDF-4 files.
pub const NC_ENOTNC4: i32 = -111;
/// No group found.
pub const NC_ENOGRP: i32 = -125;

/// Various error types that can occur in this crate
#[derive(Debug)]
pub enum Error {
    /// Errors from the wrapped netcdf library
    Netcdf(i32),
    /// Misc errors
    Str(String),
    /// Length of the request indices is inconsistent
    IndexLen,
    /// Length of the slice indices is inconsistent
    SliceLen,
    /// Supplied the wrong length of the buffer
    BufferLen { wanted: usize, actual: usize },
    /// Some index is greater than expected
    IndexMismatch,
    /// Requested a mismatched total slice
    SliceMismatch,
    /// Requested a zero slice
    ZeroSlice,
    /// Zero stride or matched with length != 1
    Stride,
    /// Supplied the wrong type of parameter
    TypeMismatch,
    /// Does not know the type (probably library error...)
    TypeUnknown(i32),
    /// Variable/dimension already exists
    AlreadyExists,
    /// Could not find variable/attribute/etc
    NotFound(String),
    /// Slice lengths are ambiguous
    Ambiguous,
    /// Overflows possible lengths
    Overflow,
    /// Conversion error
    Conversion(core::num::TryFromIntError),
    /// Identifier belongs to another dataset
    WrongDataset,
    /// The number of extents does not match the number of dimensions
    DimensionMismatch { wanted: usize, actual: usize },
}

/// Result type used in this crate
pub type Result<T> = core::result::Result<T, Error>;

/// The error that a status code of the C library stands for.
pub open spec fn code_error(code: i32) -> Error {
    if code == NC_EEXIST || code == NC_EATTEXISTS || code == NC_ENAMEINUSE {
        Error::AlreadyExists
    } else {
        Error::Netcdf(code)
    }
}

/// The error that a status code of the C library stands for: the codes that
/// report an existing item become `AlreadyExists`, the others are kept.
pub fn from_code(code: i32) -> (e: Error)
    ensures
        e == code_error(code),
{
    if code == NC_EEXIST || code == NC_EATTEXISTS || code == NC_ENAMEINUSE {
        Error::AlreadyExists
    } else {
        Error::Netcdf(code)
    }
}

impl From<i32> for Error {
    fn from(nc: i32) -> (e: Self) {
        from_code(nc)
    }
}

impl FromSpecImpl<i32> for Error {
    open spec fn obeys_from_spec() -> bool {
        true
    }

    open spec fn from_spec(nc: i32) -> Error {
        code_error(nc)
    }
}

/// Success for `NC_NOERR`, the code's error otherwise.
pub fn checked(err: i32) -> (r: Result<()>)
    ensures
        err == NC_NOERR ==> r is Ok,
        err != NC_NOERR ==> (r matches Err(e) && e == code_error(err)),
{
    if err != NC_NOERR {
        return Err(from_code(err));
    }
    Ok(())
}

/// A status code of the C library that stands for a system error.
#[allow(non_snake_case)]
pub fn NC_ISSYSERR(err: i32) -> (r: bool)
    ensures
        r == (err > 0),
{
    err > 0
}

/// An error with a message.
pub fn str_error(s: &str) -> (e: Error)
    ensures
        e matches Error::Str(m) && m@ == s@,
{
    Error::Str(s.to_owned())
}

impl Error {
    /// Was the error due to ambiguity of the
    /// indices or lengths?
    pub fn is_ambigous(&self) -> (r: bool)
        ensures
            r == (*self is Ambiguous),
    {
        if let Error::Ambiguous = self {
            true
        } else {
            false
        }
    }
}


/// The error is a message with the text `s`.
pub open spec fn is_message(e: Error, s: Seq<char>) -> bool {
    e matches Error::Str(m) && m@ == s
}

impl<'a> From<&'a str> for Error {
    /// An error with the message `s`; the `Str` variant's text is `s`, which
    /// `str_error` states.
    fn from(s: &'a str) -> (e: Self) {
        Error::Str(s.to_owned())
    }
}

impl<'a> FromSpecImpl<&'a str> for Error {
    open spec fn obeys_from_spec() -> bool {
        false
    }

    open spec fn from_spec(s: &'a str) -> Error {
        choose|e: Error| #[trigger] is_message(e, s@)
    }
}

impl From<core::convert::Infallible> for Error {
    /// No value of `Infallible` exists, so this conversion never runs; it lets
    /// infallible conversions stand where fallible ones are asked for.
    fn from(x: core::convert::Infallible) -> (e: Self) {
        Error::Ambiguous
    }
}

impl FromSpecImpl<core::convert::Infallible> for Error {
    open spec fn obeys_from_spec() -> bool {
        false
    }

    open spec fn from_spec(x: core::convert::Infallible) -> Error {
        Error::Ambiguous
    }
}

} // verus!
