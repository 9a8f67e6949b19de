//! Reading and writing the values of integer variables: which conversions
//! are allowed, which requests the C library refuses, and where each value
//! goes.
use vstd::prelude::*;

use crate::dataset::{Cell, Dataset, VarEntry};
use crate::error::{is_message, Error, Result, NC_EEDGE, NC_EINVALCOORDS, NC_ERANGE, NC_ESTRIDE};
use crate::hyperslab::{coords, coords_of, idx_view, lemma_coords_injective, lemma_digits_bounds, product};
use crate::extent::{sel_count, sel_matches, sel_start, sel_stride, selection, Extents};
use crate::variable::saturating_product;
use crate::types::{
    nc_type_eq, NcTypeDescriptor, NcVariableType, NC_BYTE, NC_DOUBLE, NC_FLOAT, NC_INT, NC_INT64,
    NC_SHORT, NC_UBYTE, NC_UINT, NC_UINT64, NC_USHORT,
};

verus! {

/// Values can be read as, and written from, the other: numbers convert into
/// numbers, other types only into themselves.
pub open spec fn conversion_ok(from: NcVariableType, to: NcVariableType) -> bool {
    match (from, to) {
        (NcVariableType::Int(_), NcVariableType::Int(_)) => true,
        (NcVariableType::Int(_), NcVariableType::Float(_)) => true,
        (NcVariableType::Float(_), NcVariableType::Int(_)) => true,
        (NcVariableType::Float(_), NcVariableType::Float(_)) => true,
        _ => nc_type_eq(from, to),
    }
}

/// Whether values of type `from` can be converted into type `to`.
pub fn conversion_supported(from: &NcVariableType, to: &NcVariableType) -> (r: bool)
    ensures
        r == conversion_ok(*from, *to),
{
    match (from, to) {
        (NcVariableType::Int(_), NcVariableType::Int(_)) => true,
        (NcVariableType::Int(_), NcVariableType::Float(_)) => true,
        (NcVariableType::Float(_), NcVariableType::Int(_)) => true,
        (NcVariableType::Float(_), NcVariableType::Float(_)) => true,
        _ => from == to,
    }
}

/// The variable type is an integer type.
pub open spec fn int_type(xtype: i32) -> bool {
    xtype == NC_BYTE || xtype == NC_UBYTE || xtype == NC_SHORT || xtype == NC_USHORT || xtype
        == NC_INT || xtype == NC_UINT || xtype == NC_INT64 || xtype == NC_UINT64
}

/// The integer fits the integer type.
pub open spec fn in_type_range(xtype: i32, v: int) -> bool {
    if xtype == NC_BYTE {
        -128 <= v <= 127
    } else if xtype == NC_UBYTE {
        0 <= v <= 255
    } else if xtype == NC_SHORT {
        -32768 <= v <= 32767
    } else if xtype == NC_USHORT {
        0 <= v <= 65535
    } else if xtype == NC_INT {
        -2147483648 <= v <= 2147483647
    } else if xtype == NC_UINT {
        0 <= v <= 4294967295
    } else if xtype == NC_INT64 {
        -9223372036854775808 <= v <= 9223372036854775807
    } else if xtype == NC_UINT64 {
        0 <= v <= 18446744073709551615
    } else {
        false
    }
}

/// The fill value of an integer type: what an element that was never written
/// holds.
pub open spec fn fill_value_of(xtype: i32) -> int {
    if xtype == NC_BYTE {
        -127
    } else if xtype == NC_UBYTE {
        255
    } else if xtype == NC_SHORT {
        -32767
    } else if xtype == NC_USHORT {
        65535
    } else if xtype == NC_INT {
        -2147483647
    } else if xtype == NC_UINT {
        4294967295
    } else if xtype == NC_INT64 {
        -9223372036854775806
    } else if xtype == NC_UINT64 {
        18446744073709551614
    } else {
        FLOAT_FILL as int
    }
}

/// The fill value of the floating point types, `9.9692099683868690e+36`,
/// which is an integer.
pub const FLOAT_FILL: i128 = 9969209968386869046778552952102584320;

/// The variable type is a floating point type.
pub open spec fn float_type(xtype: i32) -> bool {
    xtype == NC_FLOAT || xtype == NC_DOUBLE
}

fn float_type_exec(xtype: i32) -> (r: bool)
    ensures
        r == float_type(xtype),
{
    xtype == NC_FLOAT || xtype == NC_DOUBLE
}

fn int_type_exec(xtype: i32) -> (r: bool)
    ensures
        r == int_type(xtype),
{
    xtype == NC_BYTE || xtype == NC_UBYTE || xtype == NC_SHORT || xtype == NC_USHORT || xtype
        == NC_INT || xtype == NC_UINT || xtype == NC_INT64 || xtype == NC_UINT64
}

fn in_type_range_exec(xtype: i32, v: i128) -> (r: bool)
    ensures
        r == in_type_range(xtype, v as int),
{
    if xtype == NC_BYTE {
        -128 <= v && v <= 127
    } else if xtype == NC_UBYTE {
        0 <= v && v <= 255
    } else if xtype == NC_SHORT {
        -32768 <= v && v <= 32767
    } else if xtype == NC_USHORT {
        0 <= v && v <= 65535
    } else if xtype == NC_INT {
        -2147483648 <= v && v <= 2147483647
    } else if xtype == NC_UINT {
        0 <= v && v <= 4294967295
    } else if xtype == NC_INT64 {
        -9223372036854775808 <= v && v <= 9223372036854775807
    } else if xtype == NC_UINT64 {
        0 <= v && v <= 18446744073709551615
    } else {
        false
    }
}

/// The default fill value of a type.
pub fn fill_of_type(xtype: i32) -> (r: i128)
    ensures
        r == fill_value_of(xtype),
{
    fill_value_exec(xtype)
}

/// The default fill value of an integer type fits the type.
pub proof fn lemma_fill_fits(xtype: i32)
    ensures
        int_type(xtype) ==> in_type_range(xtype, fill_value_of(xtype)),
{
}

fn fill_value_exec(xtype: i32) -> (r: i128)
    ensures
        r == fill_value_of(xtype),
{
    if xtype == NC_BYTE {
        -127
    } else if xtype == NC_UBYTE {
        255
    } else if xtype == NC_SHORT {
        -32767
    } else if xtype == NC_USHORT {
        65535
    } else if xtype == NC_INT {
        -2147483647
    } else if xtype == NC_UINT {
        4294967295
    } else if xtype == NC_INT64 {
        -9223372036854775806
    } else if xtype == NC_UINT64 {
        18446744073709551614
    } else {
        FLOAT_FILL
    }
}

/// Integers that the values of a variable can be read as and written from.
pub trait Numeric: NcTypeDescriptor + Copy + Sized {
    /// The value as a mathematical integer
    spec fn value(self) -> int;

    /// The identifier of the type
    spec fn type_id() -> i32;

    /// Every value of the type fits the type.
    proof fn lemma_value_fits(self)
        ensures
            in_type_range(Self::type_id(), self.value()),
    ;

    /// Identifier of the type
    fn nctype() -> (r: i32)
        ensures
            r == Self::type_id(),
            int_type(r),
    ;

    /// The value, widened
    fn to_wide(self) -> (r: i128)
        ensures
            r as int == self.value(),
            in_type_range(Self::type_id(), r as int),
    ;

    /// The value of this type that is equal to `v`, if there is one
    fn from_wide(v: i128) -> (r: Option<Self>)
        ensures
            r matches Some(x) ==> x.value() == v as int,
            r is None <==> !in_type_range(Self::type_id(), v as int),
    ;
}

impl Numeric for u8 {
    open spec fn value(self) -> int {
        self as int
    }

    proof fn lemma_value_fits(self) {
    }

    open spec fn type_id() -> i32 {
        NC_UBYTE
    }

    fn nctype() -> (r: i32) {
        NC_UBYTE
    }

    fn to_wide(self) -> (r: i128) {
        self as i128
    }

    fn from_wide(v: i128) -> (r: Option<Self>) {
        if u8::MIN as i128 <= v && v <= u8::MAX as i128 {
            Some(v as u8)
        } else {
            None
        }
    }
}

impl Numeric for i8 {
    open spec fn value(self) -> int {
        self as int
    }

    proof fn lemma_value_fits(self) {
    }

    open spec fn type_id() -> i32 {
        NC_BYTE
    }

    fn nctype() -> (r: i32) {
        NC_BYTE
    }

    fn to_wide(self) -> (r: i128) {
        self as i128
    }

    fn from_wide(v: i128) -> (r: Option<Self>) {
        if i8::MIN as i128 <= v && v <= i8::MAX as i128 {
            Some(v as i8)
        } else {
            None
        }
    }
}

impl Numeric for u16 {
    open spec fn value(self) -> int {
        self as int
    }

    proof fn lemma_value_fits(self) {
    }

    open spec fn type_id() -> i32 {
        NC_USHORT
    }

    fn nctype() -> (r: i32) {
        NC_USHORT
    }

    fn to_wide(self) -> (r: i128) {
        self as i128
    }

    fn from_wide(v: i128) -> (r: Option<Self>) {
        if u16::MIN as i128 <= v && v <= u16::MAX as i128 {
            Some(v as u16)
        } else {
            None
        }
    }
}

impl Numeric for i16 {
    open spec fn value(self) -> int {
        self as int
    }

    proof fn lemma_value_fits(self) {
    }

    open spec fn type_id() -> i32 {
        NC_SHORT
    }

    fn nctype() -> (r: i32) {
        NC_SHORT
    }

    fn to_wide(self) -> (r: i128) {
        self as i128
    }

    fn from_wide(v: i128) -> (r: Option<Self>) {
        if i16::MIN as i128 <= v && v <= i16::MAX as i128 {
            Some(v as i16)
        } else {
            None
        }
    }
}

impl Numeric for u32 {
    open spec fn value(self) -> int {
        self as int
    }

    proof fn lemma_value_fits(self) {
    }

    open spec fn type_id() -> i32 {
        NC_UINT
    }

    fn nctype() -> (r: i32) {
        NC_UINT
    }

    fn to_wide(self) -> (r: i128) {
        self as i128
    }

    fn from_wide(v: i128) -> (r: Option<Self>) {
        if u32::MIN as i128 <= v && v <= u32::MAX as i128 {
            Some(v as u32)
        } else {
            None
        }
    }
}

impl Numeric for i32 {
    open spec fn value(self) -> int {
        self as int
    }

    proof fn lemma_value_fits(self) {
    }

    open spec fn type_id() -> i32 {
        NC_INT
    }

    fn nctype() -> (r: i32) {
        NC_INT
    }

    fn to_wide(self) -> (r: i128) {
        self as i128
    }

    fn from_wide(v: i128) -> (r: Option<Self>) {
        if i32::MIN as i128 <= v && v <= i32::MAX as i128 {
            Some(v as i32)
        } else {
            None
        }
    }
}

impl Numeric for u64 {
    open spec fn value(self) -> int {
        self as int
    }

    proof fn lemma_value_fits(self) {
    }

    open spec fn type_id() -> i32 {
        NC_UINT64
    }

    fn nctype() -> (r: i32) {
        NC_UINT64
    }

    fn to_wide(self) -> (r: i128) {
        self as i128
    }

    fn from_wide(v: i128) -> (r: Option<Self>) {
        if u64::MIN as i128 <= v && v <= u64::MAX as i128 {
            Some(v as u64)
        } else {
            None
        }
    }
}

impl Numeric for i64 {
    open spec fn value(self) -> int {
        self as int
    }

    proof fn lemma_value_fits(self) {
    }

    open spec fn type_id() -> i32 {
        NC_INT64
    }

    fn nctype() -> (r: i32) {
        NC_INT64
    }

    fn to_wide(self) -> (r: i128) {
        self as i128
    }

    fn from_wide(v: i128) -> (r: Option<Self>) {
        if i64::MIN as i128 <= v && v <= i64::MAX as i128 {
            Some(v as i64)
        } else {
            None
        }
    }
}


/// The value written at index `c` among the cells, if one was.
pub open spec fn cell_value(cells: Seq<Cell>, c: Seq<int>) -> Option<i128> {
    if exists|j: int| 0 <= j < cells.len() && idx_view((#[trigger] cells[j]).index@) == c {
        Some(cells[choose|j: int| 0 <= j < cells.len() && idx_view((#[trigger] cells[j]).index@) == c].value)
    } else {
        None
    }
}

/// The value of variable `v` at index `c`: the one written there, or the
/// fill value of its type.
pub open spec fn value_at(ds: Dataset, v: int, c: Seq<int>) -> int {
    match cell_value(ds.vars@[v].cells@, c) {
        Some(x) => x as int,
        None => var_fill(ds, v),
    }
}

/// The value that the elements of variable `v` hold until written: the one
/// set, or the default of its type.
pub open spec fn var_fill(ds: Dataset, v: int) -> int {
    match ds.vars@[v].store.fill {
        Some(f) => f as int,
        None => fill_value_of(ds.vars@[v].xtype),
    }
}

pub(crate) proof fn lemma_idx_view_eq(a: Seq<usize>, b: Seq<usize>)
    requires
        idx_view(a) == idx_view(b),
    ensures
        a == b,
{
    assert(a.len() == idx_view(a).len());
    assert(b.len() == idx_view(b).len());
    assert forall|i: int| 0 <= i < a.len() implies a[i] == b[i] by {
        assert(idx_view(a)[i] == idx_view(b)[i]);
        assert(idx_view(a)[i] == a[i] as int);
        assert(idx_view(b)[i] == b[i] as int);
    }
    assert(a =~= b);
}

proof fn lemma_cell_value_at(cells: Seq<Cell>, j: int, n: nat)
    requires
        0 <= j < cells.len(),
        forall|x: int, y: int| 0 <= x < cells.len() && 0 <= y < cells.len() && x != y
            ==> (#[trigger] cells[x]).index@ != (#[trigger] cells[y]).index@,
    ensures
        cell_value(cells, idx_view(cells[j].index@)) == Some(cells[j].value),
{
    let c = idx_view(cells[j].index@);
    let i = choose|i: int| 0 <= i < cells.len() && idx_view((#[trigger] cells[i]).index@) == c;
    lemma_idx_view_eq(cells[i].index@, cells[j].index@);
}

pub(crate) fn same_index(a: &Vec<usize>, b: &Vec<usize>) -> (r: bool)
    ensures
        r == (a@ == b@),
{
    if a.len() != b.len() {
        return false;
    }
    let mut i: usize = 0;
    while i < a.len()
        invariant
            a@.len() == b@.len(),
            i <= a@.len(),
            forall|k: int| 0 <= k < i ==> a@[k] == b@[k],
        decreases a@.len() - i,
    {
        if a[i] != b[i] {
            return false;
        }
        i = i + 1;
    }
    assert(a@ =~= b@);
    true
}

/// The value of variable `v` at the index `idx`.
fn lookup_value(ds: &Dataset, v: usize, idx: &Vec<usize>) -> (r: i128)
    requires
        ds.wf(),
        v < ds.vars@.len(),
    ensures
        r as int == value_at(*ds, v as int, idx_view(idx@)),
{
    let cells = &ds.vars[v].cells;
    let mut j: usize = 0;
    while j < cells.len()
        invariant
            ds.wf(),
            v < ds.vars@.len(),
            cells@ == ds.vars@[v as int].cells@,
            j <= cells@.len(),
            forall|k: int| 0 <= k < j ==> (#[trigger] cells@[k]).index@ != idx@,
        decreases cells@.len() - j,
    {
        if same_index(&cells[j].index, idx) {
            proof {
                assert(ds.vars@[v as int].cells_wf());
                lemma_cell_value_at(cells@, j as int, 0);
            }
            return cells[j].value;
        }
        j = j + 1;
    }
    proof {
        assert forall|k: int| 0 <= k < cells@.len() implies idx_view((#[trigger] cells@[k]).index@) != idx_view(idx@) by {
            if idx_view(cells@[k].index@) == idx_view(idx@) {
                lemma_idx_view_eq(cells@[k].index@, idx@);
            }
        }
    }
    match ds.vars[v].store.fill {
        Some(f) => f,
        None => fill_value_exec(ds.vars[v].xtype),
    }
}


/// The dimension `d` of variable `v`.
pub open spec fn var_dim(ds: Dataset, v: int, d: int) -> crate::dataset::DimEntry {
    ds.dims@[ds.vars@[v].dims@[d] as int]
}

/// The last index that `count` elements from `start`, every `stride`,
/// reach.
pub open spec fn last_index(start: usize, count: usize, stride: isize) -> int {
    start + (count - 1) * stride
}

/// The first dimension, from `d` on, whose bound the request exceeds: a
/// start beyond the dimension's length (`NC_EINVALCOORDS`), or a last index
/// at or beyond it (`NC_EEDGE`). Writing along an unlimited dimension has no
/// bound but that of an index.
pub open spec fn bounds_error_from(
    ds: Dataset,
    v: int,
    start: Seq<usize>,
    count: Seq<usize>,
    stride: Seq<isize>,
    writing: bool,
    d: int,
) -> Option<i32>
    decreases count.len() - d,
{
    if d >= count.len() || d < 0 {
        None
    } else {
        let dim = var_dim(ds, v, d);
        if writing && dim.unlimited {
            if count[d] > 0 && last_index(start[d], count[d], stride[d]) >= usize::MAX {
                Some(NC_EEDGE)
            } else {
                bounds_error_from(ds, v, start, count, stride, writing, d + 1)
            }
        } else if start[d] > dim.len {
            Some(NC_EINVALCOORDS)
        } else if count[d] > 0 && last_index(start[d], count[d], stride[d]) >= dim.len {
            Some(NC_EEDGE)
        } else {
            bounds_error_from(ds, v, start, count, stride, writing, d + 1)
        }
    }
}

/// Why the C library refuses the request, if it does: a stride below one
/// (`NC_ESTRIDE`), or a bound exceeded.
pub open spec fn request_error(
    ds: Dataset,
    v: int,
    start: Seq<usize>,
    count: Seq<usize>,
    stride: Seq<isize>,
    writing: bool,
) -> Option<i32> {
    if exists|d: int| 0 <= d < stride.len() && #[trigger] stride[d] <= 0 {
        Some(NC_ESTRIDE)
    } else {
        bounds_error_from(ds, v, start, count, stride, writing, 0)
    }
}

/// The bound of each index that a request may reach: the dimension's length,
/// or, when writing along an unlimited dimension, the largest index.
pub open spec fn index_bound(ds: Dataset, v: int, d: int, writing: bool) -> int {
    if writing && var_dim(ds, v, d).unlimited {
        usize::MAX as int
    } else {
        var_dim(ds, v, d).len as int
    }
}

pub(crate) proof fn lemma_bounds_ok(
    ds: Dataset,
    v: int,
    start: Seq<usize>,
    count: Seq<usize>,
    stride: Seq<isize>,
    writing: bool,
    d: int,
)
    requires
        0 <= d <= count.len(),
        bounds_error_from(ds, v, start, count, stride, writing, d) is None,
        forall|x: int| 0 <= x < stride.len() ==> #[trigger] stride[x] > 0,
        stride.len() == count.len(),
    ensures
        forall|x: int| d <= x < count.len() ==> count[x] == 0 || #[trigger] last_index(start[x], count[x], stride[x]) < index_bound(ds, v, x, writing),
    decreases count.len() - d,
{
    if d < count.len() {
        lemma_bounds_ok(ds, v, start, count, stride, writing, d + 1);
    }
}

/// The last index that `c` elements from `start`, every `s`, reach.
fn span_end(start: usize, c: usize, s: usize) -> (r: u128)
    requires
        c > 0,
    ensures
        r as int == start + (c - 1) * s,
{
    let a = (c - 1) as u128;
    let b = s as u128;
    proof {
        assert(usize::MAX <= 0xffff_ffff_ffff_ffff);
        assert(a as int * b as int <= 0xffff_ffff_ffff_ffff * 0xffff_ffff_ffff_ffff) by (nonlinear_arith)
            requires
                a <= 0xffff_ffff_ffff_ffff,
                b <= 0xffff_ffff_ffff_ffff,
        ;
    }
    let m = a * b;
    start as u128 + m
}

/// Checks a request against the bounds of the variable's dimensions.
pub(crate) fn check_request(
    ds: &Dataset,
    v: usize,
    start: &[usize],
    count: &[usize],
    stride: &[isize],
    writing: bool,
) -> (r: Result<Vec<usize>>)
    requires
        ds.wf(),
        v < ds.vars@.len(),
        start@.len() == count@.len(),
        stride@.len() == count@.len(),
        count@.len() == ds.vars@[v as int].dims@.len(),
    ensures
        match request_error(*ds, v as int, start@, count@, stride@, writing) {
            Some(c) => r matches Err(Error::Netcdf(e)) && e == c,
            None => r matches Ok(lens) && lens@.len() == count@.len() && forall|d: int|
                0 <= d < count@.len() ==> #[trigger] lens@[d] == index_bound(*ds, v as int, d, writing),
        },
{
    let n = count.len();
    let mut i: usize = 0;
    while i < n
        invariant
            n == stride@.len(),
            i <= n,
            forall|d: int| 0 <= d < i ==> #[trigger] stride@[d] > 0,
        decreases n - i,
    {
        if stride[i] <= 0 {
            assert(stride@[i as int] <= 0);
            return Err(Error::Netcdf(NC_ESTRIDE));
        }
        i = i + 1;
    }
    let mut lens: Vec<usize> = Vec::new();
    let mut d: usize = 0;
    while d < n
        invariant
            ds.wf(),
            v < ds.vars@.len(),
            n == count@.len(),
            start@.len() == n,
            stride@.len() == n,
            n == ds.vars@[v as int].dims@.len(),
            d <= n,
            forall|x: int| 0 <= x < n ==> #[trigger] stride@[x] > 0,
            bounds_error_from(*ds, v as int, start@, count@, stride@, writing, 0)
                == bounds_error_from(*ds, v as int, start@, count@, stride@, writing, d as int),
            lens@.len() == d,
            forall|x: int| 0 <= x < d ==> #[trigger] lens@[x] == index_bound(*ds, v as int, x, writing),
        decreases n - d,
    {
        let di = ds.vars[v].dims[d];
        assert(di < ds.dims@.len());
        let dim = &ds.dims[di];
        let c = count[d];
        let s = stride[d] as usize;
        if writing && dim.unlimited {
            if c > 0 {
                if span_end(start[d], c, s) >= usize::MAX as u128 {
                    return Err(Error::Netcdf(NC_EEDGE));
                }
            }
            lens.push(usize::MAX);
        } else {
            if start[d] > dim.len {
                return Err(Error::Netcdf(NC_EINVALCOORDS));
            }
            if c > 0 {
                if span_end(start[d], c, s) >= dim.len as u128 {
                    return Err(Error::Netcdf(NC_EEDGE));
                }
            }
            lens.push(dim.len);
        }
        d = d + 1;
    }
    Ok(lens)
}

/// The product of the counts, saturating at `usize::MAX`.
pub(crate) fn count_product(count: &[usize]) -> (r: usize)
    ensures
        r == saturating_product(count@),
{
    let mut acc: usize = 1;
    let mut i: usize = 0;
    while i < count.len()
        invariant
            i <= count@.len(),
            acc == saturating_product(count@.subrange(0, i as int)),
        decreases count@.len() - i,
    {
        proof {
            assert(count@.subrange(0, i + 1).drop_last() =~= count@.subrange(0, i as int));
        }
        acc = match acc.checked_mul(count[i]) {
            Some(p) => p,
            None => usize::MAX,
        };
        i = i + 1;
    }
    assert(count@.subrange(0, i as int) =~= count@);
    acc
}

/// Where the product fits, saturating does not change it.
proof fn lemma_saturating_exact(c: Seq<usize>)
    requires
        product(c) <= usize::MAX,
    ensures
        saturating_product(c) as int == product(c),
    decreases c.len(),
{
    if c.len() > 0 {
        let p = product(c.drop_last());
        let l = c.last() as int;
        crate::hyperslab::lemma_product_nonneg(c.drop_last());
        if l == 0 {
            let q = saturating_product(c.drop_last()) as int;
            assert(q * l == 0 && p * l == 0) by (nonlinear_arith)
                requires
                    l == 0,
            ;
            assert(product(c) == p * l);
        } else {
            assert(p <= p * l) by (nonlinear_arith)
                requires
                    p >= 0,
                    l >= 1,
            ;
            assert(product(c) == p * l);
            lemma_saturating_exact(c.drop_last());
            assert(saturating_product(c.drop_last()) as int * l == p * l);
        }
    }
}

/// Where the product is positive, so is every count.
pub(crate) proof fn lemma_product_pos(c: Seq<usize>)
    requires
        product(c) > 0,
    ensures
        forall|d: int| 0 <= d < c.len() ==> #[trigger] c[d] > 0,
    decreases c.len(),
{
    if c.len() > 0 {
        let p = product(c.drop_last());
        let l = c.last() as int;
        crate::hyperslab::lemma_product_nonneg(c.drop_last());
        assert(p > 0 && l > 0) by (nonlinear_arith)
            requires
                p * l > 0,
                p >= 0,
                l >= 0,
        ;
        lemma_product_pos(c.drop_last());
        assert forall|d: int| 0 <= d < c.len() implies #[trigger] c[d] > 0 by {
            if d < c.len() - 1 {
                assert(c[d] == c.drop_last()[d]);
            }
        }
    }
}

/// The values of variable `v` are numbers: integers or floating point.
pub open spec fn numeric_var(ds: Dataset, v: int) -> bool {
    int_type(ds.vars@[v].xtype) || float_type(ds.vars@[v].xtype)
}

/// Some element of the hyperslab holds a value that type `t` cannot hold.
pub open spec fn out_of_type(
    ds: Dataset,
    v: int,
    start: Seq<usize>,
    count: Seq<usize>,
    stride: Seq<isize>,
    t: i32,
) -> bool {
    exists|k: int|
        0 <= k < product(count) && !in_type_range(t, #[trigger] value_at(ds, v, coords(start, count, stride, k)))
}

/// The values are those of the elements of the hyperslab, in order.
pub open spec fn values_read<T: Numeric>(
    ds: Dataset,
    v: int,
    start: Seq<usize>,
    count: Seq<usize>,
    stride: Seq<isize>,
    vals: Seq<T>,
) -> bool {
    &&& vals.len() == product(count)
    &&& forall|k: int|
        0 <= k < vals.len() ==> (#[trigger] vals[k]).value() == value_at(ds, v, coords(start, count, stride, k))
}

/// Why a read of the hyperslab of variable `v` as values of type `t` is
/// refused, if it is: `None` inside for a variable that does not hold
/// numbers, else the status code of the C library.
pub open spec fn read_refusal(
    ds: Dataset,
    v: int,
    start: Seq<usize>,
    count: Seq<usize>,
    stride: Seq<isize>,
    t: i32,
) -> Option<Option<i32>> {
    if !numeric_var(ds, v) {
        Some(None)
    } else {
        match request_error(ds, v, start, count, stride, false) {
            Some(c) => Some(Some(c)),
            None => if out_of_type(ds, v, start, count, stride, t) {
                Some(Some(NC_ERANGE))
            } else {
                None
            },
        }
    }
}

/// The error reports the refusal: the conversion message, or the status
/// code.
pub open spec fn refused_with(e: Error, why: Option<i32>) -> bool {
    match why {
        None => is_message(e, "Conversion not supported"@),
        Some(c) => e == Error::Netcdf(c),
    }
}

/// Reads the elements of variable `v` that `count` elements from `start`,
/// every `stride`, select, as values of type `T`: refused when the variable
/// does not hold numbers, when the C library refuses the request, and with
/// `NC_ERANGE` when a value does not fit `T`.
pub fn get_vars<T: Numeric>(
    ds: &Dataset,
    v: usize,
    start: &[usize],
    count: &[usize],
    stride: &[isize],
) -> (r: Result<Vec<T>>)
    requires
        ds.wf(),
        v < ds.vars@.len(),
        start@.len() == count@.len(),
        stride@.len() == count@.len(),
        count@.len() == ds.vars@[v as int].dims@.len(),
        product(count@) <= usize::MAX,
    ensures
        match read_refusal(*ds, v as int, start@, count@, stride@, T::type_id()) {
            Some(why) => r matches Err(e) && refused_with(e, why),
            None => r matches Ok(vals) && values_read(*ds, v as int, start@, count@, stride@, vals@),
        },
{
    let x = ds.vars[v].xtype;
    if !int_type_exec(x) && !float_type_exec(x) {
        return Err(Error::Str("Conversion not supported".to_owned()));
    }
    let lens = match check_request(ds, v, start, count, stride, false) {
        Ok(l) => l,
        Err(e) => return Err(e),
    };
    let n = count_product(count);
    proof {
        lemma_saturating_exact(count@);
        lemma_bounds_ok(*ds, v as int, start@, count@, stride@, false, 0);
    }
    let mut out: Vec<T> = Vec::new();
    let mut k: usize = 0;
    while k < n
        invariant
            ds.wf(),
            v < ds.vars@.len(),
            start@.len() == count@.len(),
            stride@.len() == count@.len(),
            lens@.len() == count@.len(),
            n as int == product(count@),
            numeric_var(*ds, v as int),
            request_error(*ds, v as int, start@, count@, stride@, false) is None,
            k <= n,
            forall|d: int| 0 <= d < count@.len() ==> #[trigger] stride@[d] > 0,
            forall|d: int| 0 <= d < count@.len() ==> count@[d] == 0
                || #[trigger] last_index(start@[d], count@[d], stride@[d]) < lens@[d],
            out@.len() == k,
            forall|j: int| 0 <= j < k ==> (#[trigger] out@[j]).value() == value_at(*ds, v as int, coords(start@, count@, stride@, j)),
            forall|j: int| 0 <= j < k ==> in_type_range(T::type_id(), #[trigger] value_at(*ds, v as int, coords(start@, count@, stride@, j))),
        decreases n - k,
    {
        proof {
            lemma_product_pos(count@);
            assert forall|d: int| 0 <= d < count@.len() implies start@[d] + (count@[d] - 1) * stride@[d] < #[trigger] lens@[d] by {
                assert(count@[d] > 0);
                assert(last_index(start@[d], count@[d], stride@[d]) < lens@[d]);
            }
        }
        let idx = coords_of(start, count, stride, lens.as_slice(), k);
        let w = lookup_value(ds, v, &idx);
        match T::from_wide(w) {
            Some(t) => {
                out.push(t);
            },
            None => {
                assert(!in_type_range(T::type_id(), value_at(*ds, v as int, coords(start@, count@, stride@, k as int))));
                return Err(Error::Netcdf(NC_ERANGE));
            },
        }
        k = k + 1;
    }
    Ok(out)
}

/// No two cells sit at the same index.
pub open spec fn cells_unique(cells: Seq<Cell>) -> bool {
    forall|x: int, y: int|
        0 <= x < cells.len() && 0 <= y < cells.len() && x != y ==> (#[trigger] cells[x]).index@
            != (#[trigger] cells[y]).index@
}

/// The datasets differ at most in the values written into variable `v`.
pub open spec fn same_but_cells(a: Dataset, b: Dataset, v: int) -> bool {
    &&& a.dims == b.dims
    &&& same_items(a, b, v)
}

/// The datasets have the same groups, attributes, types and variables, but
/// for the values written into variable `v`, and maybe the lengths of
/// dimensions.
pub open spec fn same_items(a: Dataset, b: Dataset, v: int) -> bool {
    &&& same_shape(a, b, v)
    &&& b.vars@[v].texts == a.vars@[v].texts
}

/// The datasets have the same groups, attributes, types and variables, but
/// for what was written into variable `v`, and maybe the lengths of
/// dimensions.
pub open spec fn same_shape(a: Dataset, b: Dataset, v: int) -> bool {
    &&& a.groups == b.groups
    &&& a.atts == b.atts
    &&& a.types == b.types
    &&& a.netcdf4 == b.netcdf4
    &&& a.vars@.len() == b.vars@.len()
    &&& forall|i: int| 0 <= i < a.vars@.len() && i != v ==> #[trigger] b.vars@[i] == a.vars@[i]
    &&& b.vars@[v].group == a.vars@[v].group
    &&& b.vars@[v].name == a.vars@[v].name
    &&& b.vars@[v].xtype == a.vars@[v].xtype
    &&& b.vars@[v].dims == a.vars@[v].dims
    &&& b.vars@[v].store == a.vars@[v].store
}

pub(crate) proof fn lemma_wf_same_shape(a: Dataset, b: Dataset, v: int)
    requires
        a.wf(),
        0 <= v < a.vars@.len(),
        a.dims == b.dims,
        same_shape(a, b, v),
        b.vars@[v].cells_wf(),
    ensures
        b.wf(),
{
    assert forall|i: int| 0 <= i < b.vars@.len() implies #[trigger] b.vars@[i].cells_wf() by {
        if i != v {
            assert(b.vars@[i] == a.vars@[i]);
        }
    }
    assert forall|i: int| 0 <= i < b.vars@.len() implies #[trigger] b.vars@[i].group < b.groups@.len()
        && b.known_type(b.vars@[i].xtype) by {
        if i != v {
            assert(b.vars@[i] == a.vars@[i]);
        }
        assert(a.vars@[i].group < a.groups@.len());
        assert(a.known_type(a.vars@[i].xtype));
    }
    assert forall|i: int, k: int| 0 <= i < b.vars@.len() && 0 <= k < b.vars@[i].dims@.len() implies #[trigger] b.vars@[i].dims@[k] < b.dims@.len() by {
        if i != v {
            assert(b.vars@[i] == a.vars@[i]);
        }
        assert(a.vars@[i].dims@[k] < a.dims@.len());
    }
    assert forall|i: int, j: int|
        0 <= i < b.vars@.len() && 0 <= j < b.vars@.len() && i != j && b.vars@[i].group
            == b.vars@[j].group implies #[trigger] b.vars@[i].name@ != #[trigger] b.vars@[j].name@ by {
        if i != v {
            assert(b.vars@[i] == a.vars@[i]);
        }
        if j != v {
            assert(b.vars@[j] == a.vars@[j]);
        }
        assert(a.vars@[i].name@ != a.vars@[j].name@);
    }
    assert forall|i: int| 0 <= i < b.atts@.len() implies match #[trigger] b.atts@[i].var {
        Some(w) => w < b.vars@.len() && b.vars@[w as int].group == b.atts@[i].group,
        None => true,
    } by {
        assert(a.atts@[i] == b.atts@[i]);
        match a.atts@[i].var {
            Some(w) => {
                if w as int != v {
                    assert(b.vars@[w as int] == a.vars@[w as int]);
                }
            },
            None => {},
        }
    }
}

/// Writing `w` at `idx`, over a cell of that index or as a new cell, leaves
/// the value at every other index as it was.
proof fn lemma_value_update(old: Seq<Cell>, new: Seq<Cell>, j: int, idx: Seq<usize>, w: i128, c: Seq<int>)
    requires
        cells_unique(old),
        cells_unique(new),
        0 <= j < new.len(),
        new[j].index@ == idx,
        new[j].value == w,
        new.len() == old.len() || (new.len() == old.len() + 1 && j == old.len()),
        forall|i: int| 0 <= i < old.len() && i != j ==> #[trigger] new[i] == old[i],
        j < old.len() ==> old[j].index@ == idx,
    ensures
        cell_value(new, c) == if c == idx_view(idx) {
            Some(w)
        } else {
            cell_value(old, c)
        },
{
    if c == idx_view(idx) {
        lemma_cell_value_at(new, j, 0);
    } else {
        if exists|i: int| 0 <= i < old.len() && idx_view((#[trigger] old[i]).index@) == c {
            let i = choose|i: int| 0 <= i < old.len() && idx_view((#[trigger] old[i]).index@) == c;
            assert(i != j);
            assert(new[i] == old[i]);
            lemma_cell_value_at(old, i, 0);
            lemma_cell_value_at(new, i, 0);
        } else {
            assert forall|i: int| 0 <= i < new.len() implies idx_view((#[trigger] new[i]).index@) != c by {
                if i != j {
                    assert(new[i] == old[i]);
                }
            }
        }
    }
}

/// Writes `w` into variable `v` at index `idx`.
fn set_cell(ds: &mut Dataset, v: usize, idx: Vec<usize>, w: i128)
    requires
        old(ds).wf(),
        v < old(ds).vars@.len(),
        idx@.len() == old(ds).vars@[v as int].dims@.len(),
        in_type_range(old(ds).vars@[v as int].xtype, w as int),
    ensures
        final(ds).wf(),
        same_but_cells(*old(ds), *final(ds), v as int),
        forall|c: Seq<int>| #[trigger] value_at(*final(ds), v as int, c) == if c == idx_view(idx@) {
            w as int
        } else {
            value_at(*old(ds), v as int, c)
        },
{
    let ghost idxv = idx@;
    let n = ds.vars[v].cells.len();
    let mut j: usize = 0;
    while j < n
        invariant
            *ds == *old(ds),
            ds.wf(),
            v < ds.vars@.len(),
            idx@.len() == ds.vars@[v as int].dims@.len(),
            in_type_range(ds.vars@[v as int].xtype, w as int),
            n == ds.vars@[v as int].cells@.len(),
            j <= n,
            idx@ == idxv,
            forall|k: int| 0 <= k < j ==> (#[trigger] ds.vars@[v as int].cells@[k]).index@ != idxv,
        decreases n - j,
    {
        if same_index(&ds.vars[v].cells[j].index, &idx) {
            ds.vars[v].cells[j].value = w;
            proof {
                let oc = old(ds).vars@[v as int].cells@;
                let nc = ds.vars@[v as int].cells@;
                assert(old(ds).vars@[v as int].cells_wf());
                assert forall|i: int| 0 <= i < oc.len() && i != j implies #[trigger] nc[i] == oc[i] by {}
                assert(cells_unique(nc)) by {
                    assert forall|x: int, y: int|
                        0 <= x < nc.len() && 0 <= y < nc.len() && x != y implies (#[trigger] nc[x]).index@
                            != (#[trigger] nc[y]).index@ by {
                        assert(nc[x].index@ == oc[x].index@);
                        assert(nc[y].index@ == oc[y].index@);
                    }
                }
                assert(ds.vars@[v as int].cells_wf());
                assert(same_but_cells(*old(ds), *ds, v as int));
                lemma_wf_same_shape(*old(ds), *ds, v as int);
                assert forall|c: Seq<int>| #[trigger] value_at(*ds, v as int, c) == if c == idx_view(idxv) {
                    w as int
                } else {
                    value_at(*old(ds), v as int, c)
                } by {
                    lemma_value_update(oc, nc, j as int, idxv, w, c);
                }
            }
            return;
        }
        j = j + 1;
    }
    ds.vars[v].cells.push(Cell { index: idx, value: w });
    proof {
        let oc = old(ds).vars@[v as int].cells@;
        let nc = ds.vars@[v as int].cells@;
        assert(old(ds).vars@[v as int].cells_wf());
        assert forall|i: int| 0 <= i < oc.len() && i != n implies #[trigger] nc[i] == oc[i] by {}
        assert(cells_unique(nc)) by {
            assert forall|x: int, y: int|
                0 <= x < nc.len() && 0 <= y < nc.len() && x != y implies (#[trigger] nc[x]).index@
                    != (#[trigger] nc[y]).index@ by {
                if x < n as int {
                    assert(nc[x] == oc[x]);
                }
                if y < n as int {
                    assert(nc[y] == oc[y]);
                }
            }
        }
        assert(ds.vars@[v as int].cells_wf());
        assert(same_but_cells(*old(ds), *ds, v as int));
        lemma_wf_same_shape(*old(ds), *ds, v as int);
        assert forall|c: Seq<int>| #[trigger] value_at(*ds, v as int, c) == if c == idx_view(idxv) {
            w as int
        } else {
            value_at(*old(ds), v as int, c)
        } by {
            lemma_value_update(oc, nc, n as int, idxv, w, c);
        }
    }
}

/// How far writing the hyperslab into variable `v` takes dimension `j`,
/// counting the positions `0..d` of the variable's dimensions: its length,
/// or, where it is unlimited, stands at such a position and an element is
/// written, one past the last index written along it, whichever is larger.
pub open spec fn dim_reach(
    ds: Dataset,
    v: int,
    start: Seq<usize>,
    count: Seq<usize>,
    stride: Seq<isize>,
    j: int,
    d: int,
) -> int
    decreases d,
{
    if d <= 0 {
        ds.dims@[j].len as int
    } else {
        let prev = dim_reach(ds, v, start, count, stride, j, d - 1);
        let p = d - 1;
        if ds.vars@[v].dims@[p] == j && ds.dims@[j].unlimited && product(count) > 0 {
            let e = last_index(start[p], count[p], stride[p]) + 1;
            if e > prev {
                e
            } else {
                prev
            }
        } else {
            prev
        }
    }
}

/// The dimensions of `b` are those of `a`, each unlimited one grown as far
/// as writing the hyperslab into variable `v` reaches.
pub open spec fn dims_grown(
    a: Dataset,
    b: Dataset,
    v: int,
    start: Seq<usize>,
    count: Seq<usize>,
    stride: Seq<isize>,
) -> bool {
    &&& b.dims@.len() == a.dims@.len()
    &&& forall|j: int| 0 <= j < a.dims@.len() ==> {
        &&& (#[trigger] b.dims@[j]).group == a.dims@[j].group
        &&& b.dims@[j].name == a.dims@[j].name
        &&& b.dims@[j].unlimited == a.dims@[j].unlimited
        &&& b.dims@[j].len == dim_reach(a, v, start, count, stride, j, a.vars@[v].dims@.len() as int)
    }
}

/// Each element of the hyperslab of variable `v` holds its value in `b`;
/// every other index of the variable holds what it held in `a`.
pub open spec fn values_written<T: Numeric>(
    a: Dataset,
    b: Dataset,
    v: int,
    start: Seq<usize>,
    count: Seq<usize>,
    stride: Seq<isize>,
    vals: Seq<T>,
) -> bool {
    &&& forall|k: int|
        0 <= k < product(count) ==> value_at(b, v, #[trigger] coords(start, count, stride, k))
            == vals[k].value()
    &&& forall|c: Seq<int>|
        (forall|k: int| 0 <= k < product(count) ==> #[trigger] coords(start, count, stride, k) != c)
            ==> #[trigger] value_at(b, v, c) == value_at(a, v, c)
}

proof fn lemma_wf_dims_grown(a: Dataset, b: Dataset)
    requires
        a.wf(),
        a.groups == b.groups,
        a.atts == b.atts,
        a.types == b.types,
        a.vars == b.vars,
        b.dims@.len() == a.dims@.len(),
        forall|j: int| 0 <= j < a.dims@.len() ==> (#[trigger] b.dims@[j]).group == a.dims@[j].group
            && b.dims@[j].name == a.dims@[j].name,
    ensures
        b.wf(),
{
    assert forall|i: int, j: int|
        0 <= i < b.dims@.len() && 0 <= j < b.dims@.len() && i != j && b.dims@[i].group
            == b.dims@[j].group implies #[trigger] b.dims@[i].name@ != #[trigger] b.dims@[j].name@ by {
        assert(a.dims@[i].name@ != a.dims@[j].name@);
    }
    assert forall|i: int| 0 <= i < b.dims@.len() implies #[trigger] b.dims@[i].group < b.groups@.len() by {
        assert(a.dims@[i].group < a.groups@.len());
    }
}

/// Grows the unlimited dimensions of variable `v` past the last index that
/// writing the hyperslab reaches along them.
pub(crate) fn grow_dims(ds: &mut Dataset, v: usize, start: &[usize], count: &[usize], stride: &[isize], some: bool)
    requires
        old(ds).wf(),
        v < old(ds).vars@.len(),
        start@.len() == count@.len(),
        stride@.len() == count@.len(),
        count@.len() == old(ds).vars@[v as int].dims@.len(),
        some == (product(count@) > 0),
        forall|d: int| 0 <= d < count@.len() ==> #[trigger] stride@[d] > 0,
        forall|d: int| 0 <= d < count@.len() ==> count@[d] == 0
            || #[trigger] last_index(start@[d], count@[d], stride@[d]) < index_bound(*old(ds), v as int, d, true),
    ensures
        final(ds).wf(),
        final(ds).groups == old(ds).groups,
        final(ds).atts == old(ds).atts,
        final(ds).types == old(ds).types,
        final(ds).vars == old(ds).vars,
        final(ds).netcdf4 == old(ds).netcdf4,
        dims_grown(*old(ds), *final(ds), v as int, start@, count@, stride@),
{
    let n = count.len();
    let mut d: usize = 0;
    while d < n
        invariant
            old(ds).wf(),
            v < old(ds).vars@.len(),
            n == count@.len(),
            start@.len() == n,
            stride@.len() == n,
            n == old(ds).vars@[v as int].dims@.len(),
            some == (product(count@) > 0),
            forall|x: int| 0 <= x < n ==> #[trigger] stride@[x] > 0,
            forall|x: int| 0 <= x < n ==> count@[x] == 0
                || #[trigger] last_index(start@[x], count@[x], stride@[x]) < index_bound(*old(ds), v as int, x, true),
            d <= n,
            ds.groups == old(ds).groups,
            ds.atts == old(ds).atts,
            ds.types == old(ds).types,
            ds.vars == old(ds).vars,
            ds.netcdf4 == old(ds).netcdf4,
            ds.dims@.len() == old(ds).dims@.len(),
            forall|j: int| 0 <= j < old(ds).dims@.len() ==> {
                &&& (#[trigger] ds.dims@[j]).group == old(ds).dims@[j].group
                &&& ds.dims@[j].name == old(ds).dims@[j].name
                &&& ds.dims@[j].unlimited == old(ds).dims@[j].unlimited
                &&& ds.dims@[j].len == dim_reach(*old(ds), v as int, start@, count@, stride@, j, d as int)
            },
        decreases n - d,
    {
        let j = ds.vars[v].dims[d];
        proof {
            assert(old(ds).vars@[v as int].dims@[d as int] < old(ds).dims@.len());
        }
        let ghost pre = ds.dims@;
        let ghost grew = some && ds.dims@[j as int].unlimited;
        if some && ds.dims[j].unlimited {
            proof {
                lemma_product_pos(count@);
                assert(count@[d as int] > 0);
                assert(last_index(start@[d as int], count@[d as int], stride@[d as int]) < usize::MAX);
            }
            let e = span_end(start[d], count[d], stride[d] as usize) + 1;
            let e = e as usize;
            if e > ds.dims[j].len {
                ds.dims[j].len = e;
            }
        }
        proof {
            assert forall|i: int| 0 <= i < old(ds).dims@.len() implies {
                &&& (#[trigger] ds.dims@[i]).group == old(ds).dims@[i].group
                &&& ds.dims@[i].name == old(ds).dims@[i].name
                &&& ds.dims@[i].unlimited == old(ds).dims@[i].unlimited
                &&& ds.dims@[i].len == dim_reach(*old(ds), v as int, start@, count@, stride@, i, d + 1)
            } by {
                if i != j as int {
                    assert(ds.dims@[i] == pre[i]);
                }
                assert(dim_reach(*old(ds), v as int, start@, count@, stride@, i, d + 1) == {
                    let prev = dim_reach(*old(ds), v as int, start@, count@, stride@, i, d as int);
                    if old(ds).vars@[v as int].dims@[d as int] == i && old(ds).dims@[i].unlimited && product(count@) > 0 {
                        let e = last_index(start@[d as int], count@[d as int], stride@[d as int]) + 1;
                        if e > prev { e } else { prev }
                    } else {
                        prev
                    }
                });
            }
        }
        d = d + 1;
    }
    proof {
        lemma_wf_dims_grown(*old(ds), *ds);
    }
}

/// Some value does not fit the type of variable `v`.
pub open spec fn values_out_of_range<T: Numeric>(ds: Dataset, v: int, vals: Seq<T>) -> bool {
    exists|k: int| 0 <= k < vals.len() && !in_type_range(ds.vars@[v].xtype, (#[trigger] vals[k]).value())
}

/// Why a write of `vals` into the hyperslab of variable `v` is refused, if
/// it is: `None` inside for a variable that does not hold integers, else the
/// status code of the C library.
pub open spec fn write_refusal<T: Numeric>(
    ds: Dataset,
    v: int,
    start: Seq<usize>,
    count: Seq<usize>,
    stride: Seq<isize>,
    vals: Seq<T>,
) -> Option<Option<i32>> {
    if !int_type(ds.vars@[v].xtype) {
        Some(None)
    } else {
        match request_error(ds, v, start, count, stride, true) {
            Some(c) => Some(Some(c)),
            None => if values_out_of_range(ds, v, vals) {
                Some(Some(NC_ERANGE))
            } else {
                None
            },
        }
    }
}

/// `b` is `a` after writing `vals` into the hyperslab of variable `v`.
pub open spec fn data_written<T: Numeric>(
    a: Dataset,
    b: Dataset,
    v: int,
    start: Seq<usize>,
    count: Seq<usize>,
    stride: Seq<isize>,
    vals: Seq<T>,
) -> bool {
    &&& same_items(a, b, v)
    &&& dims_grown(a, b, v, start, count, stride)
    &&& values_written(a, b, v, start, count, stride, vals)
}

/// Writes `values` into the elements of variable `v` that `count` elements
/// from `start`, every `stride`, select, growing its unlimited dimensions as
/// far as the writing reaches: refused when the variable does not hold
/// integers, when the C library refuses the request, and with `NC_ERANGE`,
/// writing nothing, when a value does not fit the variable's type.
pub fn put_vars<T: Numeric>(
    ds: &mut Dataset,
    v: usize,
    start: &[usize],
    count: &[usize],
    stride: &[isize],
    values: &[T],
) -> (r: Result<()>)
    requires
        old(ds).wf(),
        v < old(ds).vars@.len(),
        !float_type(old(ds).vars@[v as int].xtype),
        start@.len() == count@.len(),
        stride@.len() == count@.len(),
        count@.len() == old(ds).vars@[v as int].dims@.len(),
        values@.len() == product(count@),
    ensures
        final(ds).wf(),
        match write_refusal(*old(ds), v as int, start@, count@, stride@, values@) {
            Some(why) => r matches Err(e) && refused_with(e, why) && *final(ds) == *old(ds),
            None => r is Ok && data_written(*old(ds), *final(ds), v as int, start@, count@, stride@, values@),
        },
{
    let x = ds.vars[v].xtype;
    if !int_type_exec(x) {
        return Err(Error::Str("Conversion not supported".to_owned()));
    }
    let lens = match check_request(ds, v, start, count, stride, true) {
        Ok(l) => l,
        Err(e) => return Err(e),
    };
    let n = values.len();
    let mut k: usize = 0;
    while k < n
        invariant
            *ds == *old(ds),
            ds.wf(),
            int_type(x),
            request_error(*ds, v as int, start@, count@, stride@, true) is None,
            n == values@.len(),
            k <= n,
            x == ds.vars@[v as int].xtype,
            v < ds.vars@.len(),
            forall|j: int| 0 <= j < k ==> in_type_range(x, (#[trigger] values@[j]).value()),
        decreases n - k,
    {
        if !in_type_range_exec(x, values[k].to_wide()) {
            return Err(Error::Netcdf(NC_ERANGE));
        }
        k = k + 1;
    }
    proof {
        lemma_bounds_ok(*ds, v as int, start@, count@, stride@, true, 0);
    }
    grow_dims(ds, v, start, count, stride, n > 0);
    let ghost base = *ds;
    let mut k: usize = 0;
    while k < n
        invariant
            base.vars == old(ds).vars,
            base.wf(),
            ds.wf(),
            v < base.vars@.len(),
            x == base.vars@[v as int].xtype,
            same_but_cells(base, *ds, v as int),
            start@.len() == count@.len(),
            stride@.len() == count@.len(),
            lens@.len() == count@.len(),
            count@.len() == base.vars@[v as int].dims@.len(),
            n == values@.len(),
            n as int == product(count@),
            k <= n,
            forall|d: int| 0 <= d < count@.len() ==> #[trigger] stride@[d] > 0,
            forall|d: int| 0 <= d < count@.len() ==> count@[d] == 0
                || #[trigger] last_index(start@[d], count@[d], stride@[d]) < lens@[d],
            forall|j: int| 0 <= j < n ==> in_type_range(x, (#[trigger] values@[j]).value()),
            forall|j: int|
                0 <= j < k ==> value_at(*ds, v as int, #[trigger] coords(start@, count@, stride@, j))
                    == values@[j].value(),
            forall|c: Seq<int>|
                (forall|j: int| 0 <= j < k ==> #[trigger] coords(start@, count@, stride@, j) != c)
                    ==> #[trigger] value_at(*ds, v as int, c) == value_at(base, v as int, c),
        decreases n - k,
    {
        proof {
            lemma_product_pos(count@);
            assert forall|d: int| 0 <= d < count@.len() implies start@[d] + (count@[d] - 1) * stride@[d] < #[trigger] lens@[d] by {
                assert(count@[d] > 0);
                assert(last_index(start@[d], count@[d], stride@[d]) < lens@[d]);
            }
        }
        let idx = coords_of(start, count, stride, lens.as_slice(), k);
        let w = values[k].to_wide();
        let ghost ck = coords(start@, count@, stride@, k as int);
        let ghost prev = *ds;
        assert(in_type_range(x, values@[k as int].value()));
        assert(idx@.len() == idx_view(idx@).len());
        set_cell(ds, v, idx, w);
        proof {
            assert forall|j: int|
                0 <= j < k + 1 implies value_at(*ds, v as int, #[trigger] coords(start@, count@, stride@, j))
                    == values@[j].value() by {
                if j < k {
                    if coords(start@, count@, stride@, j) == ck {
                        lemma_coords_injective(start@, count@, stride@, j, k as int);
                    }
                    assert(value_at(prev, v as int, coords(start@, count@, stride@, j)) == values@[j].value());
                }
            }
            assert forall|c: Seq<int>|
                (forall|j: int| 0 <= j < k + 1 ==> #[trigger] coords(start@, count@, stride@, j) != c)
                    implies #[trigger] value_at(*ds, v as int, c) == value_at(base, v as int, c) by {
                assert(coords(start@, count@, stride@, k as int) != c);
                assert forall|j: int| 0 <= j < k implies #[trigger] coords(start@, count@, stride@, j) != c by {
                    assert(0 <= j < k + 1);
                }
                assert(value_at(prev, v as int, c) == value_at(base, v as int, c));
            }
        }
        k = k + 1;
    }
    proof {
        assert forall|c: Seq<int>| #[trigger] value_at(base, v as int, c) == value_at(*old(ds), v as int, c) by {}
    }
    Ok(())
}

proof fn lemma_dim_reach_grows(
    ds: Dataset,
    v: int,
    start: Seq<usize>,
    count: Seq<usize>,
    stride: Seq<isize>,
    j: int,
    d: int,
)
    requires
        0 <= d,
    ensures
        dim_reach(ds, v, start, count, stride, j, d) >= ds.dims@[j].len,
        forall|p: int|
            0 <= p < d && ds.vars@[v].dims@[p] == j && ds.dims@[j].unlimited && product(count) > 0
                ==> dim_reach(ds, v, start, count, stride, j, d) >= #[trigger] last_index(
                start[p],
                count[p],
                stride[p],
            ) + 1,
    decreases d,
{
    if d > 0 {
        lemma_dim_reach_grows(ds, v, start, count, stride, j, d - 1);
    }
}

/// What a successful write puts into a variable is what a read of the same
/// elements gives back: after `put_vars` of `vals` wrote at least one
/// element, `get_vars` of that hyperslab, as values of the same type, is not
/// refused and reads `vals`.
pub proof fn lemma_read_after_write<T: Numeric>(
    a: Dataset,
    b: Dataset,
    v: int,
    start: Seq<usize>,
    count: Seq<usize>,
    stride: Seq<isize>,
    vals: Seq<T>,
)
    requires
        a.wf(),
        0 <= v < a.vars@.len(),
        start.len() == count.len(),
        stride.len() == count.len(),
        count.len() == a.vars@[v].dims@.len(),
        vals.len() == product(count),
        product(count) > 0,
        write_refusal(a, v, start, count, stride, vals) is None,
        data_written(a, b, v, start, count, stride, vals),
    ensures
        read_refusal(b, v, start, count, stride, T::type_id()) is None,
        values_read(b, v, start, count, stride, vals),
{
    assert(b.vars@[v].xtype == a.vars@[v].xtype);
    assert(!(exists|d: int| 0 <= d < stride.len() && #[trigger] stride[d] <= 0));
    lemma_bounds_ok(a, v, start, count, stride, true, 0);
    lemma_product_pos(count);
    let n = count.len() as int;
    assert forall|d: int| 0 <= d <= n implies bounds_error_from(b, v, start, count, stride, false, d) is None by {
        lemma_read_bounds(a, b, v, start, count, stride, d);
    }
    assert forall|k: int| 0 <= k < product(count) implies in_type_range(
        T::type_id(),
        #[trigger] value_at(b, v, coords(start, count, stride, k)),
    ) by {
        assert(value_at(b, v, coords(start, count, stride, k)) == vals[k].value());
        vals[k].lemma_value_fits();
    }
}

pub(crate) proof fn lemma_read_bounds(
    a: Dataset,
    b: Dataset,
    v: int,
    start: Seq<usize>,
    count: Seq<usize>,
    stride: Seq<isize>,
    d: int,
)
    requires
        a.wf(),
        0 <= v < a.vars@.len(),
        start.len() == count.len(),
        stride.len() == count.len(),
        count.len() == a.vars@[v].dims@.len(),
        0 <= d <= count.len(),
        product(count) > 0,
        forall|x: int| 0 <= x < count.len() ==> #[trigger] count[x] > 0,
        forall|x: int| 0 <= x < count.len() ==> count[x] == 0
            || #[trigger] last_index(start[x], count[x], stride[x]) < index_bound(a, v, x, true),
        forall|x: int| 0 <= x < stride.len() ==> #[trigger] stride[x] > 0,
        same_shape(a, b, v),
        dims_grown(a, b, v, start, count, stride),
    ensures
        bounds_error_from(b, v, start, count, stride, false, d) is None,
    decreases count.len() - d,
{
    if d < count.len() {
        lemma_read_bounds(a, b, v, start, count, stride, d + 1);
        let j = a.vars@[v].dims@[d] as int;
        assert(j < a.dims@.len());
        assert(b.vars@[v].dims == a.vars@[v].dims);
        let m = a.vars@[v].dims@.len() as int;
        lemma_dim_reach_grows(a, v, start, count, stride, j, m);
        assert(b.dims@[j].len == dim_reach(a, v, start, count, stride, j, m));
        assert(count[d] > 0);
        let l = last_index(start[d], count[d], stride[d]);
        assert(start[d] <= l) by (nonlinear_arith)
            requires
                l == start[d] + (count[d] - 1) * stride[d],
                count[d] > 0,
                stride[d] > 0,
        ;
        if !a.dims@[j].unlimited {
            assert(l < a.dims@[j].len);
        }
    }
}

/// Where the saturating product stays below `usize::MAX`, it is the product.
pub proof fn lemma_saturating_below(c: Seq<usize>)
    requires
        saturating_product(c) < usize::MAX,
    ensures
        saturating_product(c) as int == product(c),
    decreases c.len(),
{
    if c.len() > 0 {
        let q = saturating_product(c.drop_last()) as int;
        let l = c.last() as int;
        crate::hyperslab::lemma_product_nonneg(c.drop_last());
        assert(product(c) == product(c.drop_last()) * l);
        if l == 0 {
            let p = product(c.drop_last());
            assert(q * l == 0 && p * l == 0) by (nonlinear_arith)
                requires
                    l == 0,
            ;
        } else {
            assert(q <= q * l) by (nonlinear_arith)
                requires
                    q >= 0,
                    l >= 1,
            ;
            lemma_saturating_below(c.drop_last());
        }
    }
}

/// What reading a selection of variable `v`, whose dimensions have the
/// lengths `lens`, as values of type `T` gives: an error when the selection
/// does not name one extent per dimension, else what `get_vars` gives for
/// its hyperslab.
pub open spec fn get_outcome<T: Numeric>(
    ds: Dataset,
    v: int,
    e: Extents,
    lens: Seq<usize>,
    r: Result<Vec<T>>,
) -> bool {
    if !sel_matches(e, lens) {
        r matches Err(Error::DimensionMismatch { wanted, actual }) && wanted == lens.len() && actual
            == selection(e).unwrap().len()
    } else {
        match read_refusal(ds, v, sel_start(e, lens), sel_count(e, lens), sel_stride(e, lens), T::type_id()) {
            Some(why) => r matches Err(err) && refused_with(err, why),
            None => r matches Ok(vals) && values_read(
                ds,
                v,
                sel_start(e, lens),
                sel_count(e, lens),
                sel_stride(e, lens),
                vals@,
            ),
        }
    }
}

/// The counts that writing `n` values into a selection uses: those of the
/// selection, or, for a variable of one dimension whose selection counts
/// otherwise, `n`.
pub open spec fn put_count(e: Extents, lens: Seq<usize>, n: int) -> Seq<usize> {
    if saturating_product(sel_count(e, lens)) != n && lens.len() == 1 {
        seq![n as usize]
    } else {
        sel_count(e, lens)
    }
}

/// What writing `vals` into a selection of variable `v`, whose dimensions
/// have the lengths `lens`, gives: an error when the selection does not
/// name one extent per dimension, or when it counts other than `vals` for a
/// variable that has not one dimension; else what `put_vars` gives for its
/// hyperslab.
pub open spec fn put_outcome<T: Numeric>(
    a: Dataset,
    b: Dataset,
    v: int,
    e: Extents,
    lens: Seq<usize>,
    vals: Seq<T>,
    r: Result<()>,
) -> bool {
    if !sel_matches(e, lens) {
        &&& r matches Err(Error::DimensionMismatch { wanted, actual })
        &&& wanted == lens.len() && actual == selection(e).unwrap().len()
        &&& b == a
    } else if saturating_product(sel_count(e, lens)) != vals.len() && lens.len() != 1 {
        &&& r matches Err(Error::BufferLen { wanted, actual })
        &&& wanted == saturating_product(sel_count(e, lens)) && actual == vals.len()
        &&& b == a
    } else {
        let count = put_count(e, lens, vals.len() as int);
        match write_refusal(a, v, sel_start(e, lens), count, sel_stride(e, lens), vals) {
            Some(why) => r matches Err(err) && refused_with(err, why) && b == a,
            None => r is Ok && data_written(a, b, v, sel_start(e, lens), count, sel_stride(e, lens), vals),
        }
    }
}

/// What reading a single value from a selection gives: the errors of
/// `get_outcome`, an error when the selection holds no element or more than
/// one, else the value of its one element.
pub open spec fn get_one_outcome<T: Numeric>(ds: Dataset, v: int, e: Extents, lens: Seq<usize>, r: Result<T>) -> bool {
    if !sel_matches(e, lens) {
        r matches Err(Error::DimensionMismatch { wanted, actual }) && wanted == lens.len() && actual
            == selection(e).unwrap().len()
    } else {
        let start = sel_start(e, lens);
        let count = sel_count(e, lens);
        let stride = sel_stride(e, lens);
        match read_refusal(ds, v, start, count, stride, T::type_id()) {
            Some(why) => r matches Err(err) && refused_with(err, why),
            None => if product(count) == 0 {
                r matches Err(err) && is_message(err, "No elements returned"@)
            } else if product(count) > 1 {
                r matches Err(err) && is_message(err, "Too many elements returned"@)
            } else {
                r matches Ok(t) && t.value() == value_at(ds, v, coords(start, count, stride, 0))
            },
        }
    }
}

/// What reading a selection into a buffer that held `a` gives, with `b` the
/// buffer after: the errors of `get_outcome`, an error when the selection
/// counts other than the buffer holds, else the values of the selection.
/// The buffer changes only on success.
pub open spec fn into_outcome<T: Numeric>(
    ds: Dataset,
    v: int,
    e: Extents,
    lens: Seq<usize>,
    a: Seq<T>,
    b: Seq<T>,
    r: Result<()>,
) -> bool {
    if !sel_matches(e, lens) {
        &&& r matches Err(Error::DimensionMismatch { wanted, actual })
        &&& wanted == lens.len() && actual == selection(e).unwrap().len()
        &&& b == a
    } else if saturating_product(sel_count(e, lens)) != a.len() {
        &&& r matches Err(Error::BufferLen { wanted, actual })
        &&& wanted == saturating_product(sel_count(e, lens)) && actual == a.len()
        &&& b == a
    } else {
        match read_refusal(ds, v, sel_start(e, lens), sel_count(e, lens), sel_stride(e, lens), T::type_id()) {
            Some(why) => r matches Err(err) && refused_with(err, why) && b == a,
            None => r is Ok && values_read(ds, v, sel_start(e, lens), sel_count(e, lens), sel_stride(e, lens), b),
        }
    }
}

/// Where no fill value was set, the elements of an integer variable that
/// were never written read as the C library's default fill value of the
/// type: one above the least value of the signed types of 8, 16 and 32 bits
/// and two above it for 64 bits, the greatest value of the unsigned types of
/// 8, 16 and 32 bits and one below it for 64 bits.
pub proof fn lemma_default_fill(ds: Dataset, v: int, c: Seq<int>)
    requires
        0 <= v < ds.vars@.len(),
        ds.vars@[v].store.fill is None,
        cell_value(ds.vars@[v].cells@, c) is None,
    ensures
        value_at(ds, v, c) == var_fill(ds, v),
        ds.vars@[v].xtype == NC_BYTE ==> var_fill(ds, v) == i8::MIN + 1,
        ds.vars@[v].xtype == NC_UBYTE ==> var_fill(ds, v) == u8::MAX,
        ds.vars@[v].xtype == NC_SHORT ==> var_fill(ds, v) == i16::MIN + 1,
        ds.vars@[v].xtype == NC_USHORT ==> var_fill(ds, v) == u16::MAX,
        ds.vars@[v].xtype == NC_INT ==> var_fill(ds, v) == i32::MIN + 1,
        ds.vars@[v].xtype == NC_UINT ==> var_fill(ds, v) == u32::MAX,
        ds.vars@[v].xtype == NC_INT64 ==> var_fill(ds, v) == i64::MIN + 2,
        ds.vars@[v].xtype == NC_UINT64 ==> var_fill(ds, v) == u64::MAX - 1,
{
}

} // verus!
