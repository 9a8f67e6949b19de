//! How the values of a variable are kept: byte order, compression, chunk
//! sizes and the fill value. These can be set on `netCDF-4` datasets before
//! values are written.
use vstd::prelude::*;

use crate::dataset::{Dataset, Storage};
use crate::error::{
    Error, Result, NC_EBADCHUNK, NC_EINVAL, NC_ELATEDEF, NC_ELATEFILL, NC_ENOTNC4,
};
use crate::putget::{in_type_range, var_fill, Numeric};
use crate::variable::{saturating_product, Endianness, Variable, VariableMut};

verus! {

/// Values or strings were written into variable `v`.
pub open spec fn has_values(ds: Dataset, v: int) -> bool {
    ds.vars@[v].cells@.len() > 0 || ds.vars@[v].texts@.len() > 0
}

/// `b` is `a` with the storage of variable `v` replaced by `store`.
pub open spec fn store_set(a: Dataset, b: Dataset, v: int, store: Storage) -> bool {
    &&& b.groups == a.groups
    &&& b.dims == a.dims
    &&& b.atts == a.atts
    &&& b.types == a.types
    &&& b.netcdf4 == a.netcdf4
    &&& b.vars@.len() == a.vars@.len()
    &&& forall|i: int| 0 <= i < a.vars@.len() && i != v ==> #[trigger] b.vars@[i] == a.vars@[i]
    &&& b.vars@[v].group == a.vars@[v].group
    &&& b.vars@[v].name == a.vars@[v].name
    &&& b.vars@[v].xtype == a.vars@[v].xtype
    &&& b.vars@[v].dims == a.vars@[v].dims
    &&& b.vars@[v].cells == a.vars@[v].cells
    &&& b.vars@[v].texts == a.vars@[v].texts
    &&& b.vars@[v].store == store
}

proof fn lemma_store_wf(a: Dataset, b: Dataset, v: int)
    requires
        a.wf(),
        0 <= v < a.vars@.len(),
        store_set(a, b, v, b.vars@[v].store),
        b.vars@[v].store.fill matches Some(f) ==> in_type_range(a.vars@[v].xtype, f as int),
    ensures
        b.wf(),
{
    assert forall|i: int| 0 <= i < b.vars@.len() implies #[trigger] b.vars@[i].cells_wf() && b.vars@[i].group < b.groups@.len()
        && b.known_type(b.vars@[i].xtype) by {
        if i != v {
            assert(b.vars@[i] == a.vars@[i]);
        }
        assert(a.vars@[i].cells_wf());
        assert(a.vars@[i].group < a.groups@.len());
        assert(a.known_type(a.vars@[i].xtype));
    }
    assert forall|i: int, k: int| 0 <= i < b.vars@.len() && 0 <= k < b.vars@[i].dims@.len() implies #[trigger] b.vars@[i].dims@[k] < b.dims@.len() by {
        if i != v {
            assert(b.vars@[i] == a.vars@[i]);
        }
        assert(a.vars@[i].dims@[k] < a.dims@.len());
    }
    assert forall|i: int, j: int|
        0 <= i < b.vars@.len() && 0 <= j < b.vars@.len() && i != j && b.vars@[i].group
            == b.vars@[j].group implies #[trigger] b.vars@[i].name@ != #[trigger] b.vars@[j].name@ by {
        if i != v {
            assert(b.vars@[i] == a.vars@[i]);
        }
        if j != v {
            assert(b.vars@[j] == a.vars@[j]);
        }
        assert(a.vars@[i].name@ != a.vars@[j].name@);
    }
    assert forall|i: int| 0 <= i < b.atts@.len() implies match #[trigger] b.atts@[i].var {
        Some(w) => w < b.vars@.len() && b.vars@[w as int].group == b.atts@[i].group,
        None => true,
    } by {
        assert(a.atts@[i] == b.atts@[i]);
        match a.atts@[i].var {
            Some(w) => {
                if w as int != v {
                    assert(b.vars@[w as int] == a.vars@[w as int]);
                }
            },
            None => {},
        }
    }
}

/// The byte order of variable `v`: refused (`NC_ENOTNC4`) unless the
/// dataset is `netCDF-4`.
pub fn endianness_of(ds: &Dataset, v: usize) -> (r: Result<Endianness>)
    requires
        v < ds.vars@.len(),
    ensures
        !ds.netcdf4 ==> r == Err::<Endianness, Error>(Error::Netcdf(NC_ENOTNC4)),
        ds.netcdf4 ==> r == Ok::<Endianness, Error>(ds.vars@[v as int].store.endian),
{
    if !ds.netcdf4 {
        return Err(Error::Netcdf(NC_ENOTNC4));
    }
    Ok(ds.vars[v].store.endian)
}

/// Why setting the storage of variable `v` is refused, whatever is set: a
/// dataset that is not `netCDF-4` (`NC_ENOTNC4`), or values already written
/// (`NC_ELATEDEF`).
pub open spec fn late_or_classic(ds: Dataset, v: int) -> Option<i32> {
    if !ds.netcdf4 {
        Some(NC_ENOTNC4)
    } else if has_values(ds, v) {
        Some(NC_ELATEDEF)
    } else {
        None
    }
}

/// Sets the byte order of variable `v`; see `late_or_classic` for when it
/// is refused.
pub fn define_endianness(ds: &mut Dataset, v: usize, e: Endianness) -> (r: Result<()>)
    requires
        old(ds).wf(),
        v < old(ds).vars@.len(),
    ensures
        final(ds).wf(),
        match late_or_classic(*old(ds), v as int) {
            Some(c) => r == Err::<(), Error>(Error::Netcdf(c)) && *final(ds) == *old(ds),
            None => r is Ok && ({
                let s = old(ds).vars@[v as int].store;
                store_set(*old(ds), *final(ds), v as int, Storage { endian: e, ..s })
            }),
        },
{
    if !ds.netcdf4 {
        return Err(Error::Netcdf(NC_ENOTNC4));
    }
    if ds.vars[v].cells.len() > 0 || ds.vars[v].texts.len() > 0 {
        return Err(Error::Netcdf(NC_ELATEDEF));
    }
    ds.vars[v].store.endian = e;
    proof {
        assert(old(ds).vars@[v as int].cells_wf());
        lemma_store_wf(*old(ds), *ds, v as int);
    }
    Ok(())
}

/// Sets the compression of variable `v`: a deflate level from 0 to 9 and
/// whether to shuffle; another level is refused (`NC_EINVAL`) after the
/// refusals of `late_or_classic` for a dataset that is not `netCDF-4`.
pub fn define_compression(ds: &mut Dataset, v: usize, level: i32, shuffle: bool) -> (r: Result<()>)
    requires
        old(ds).wf(),
        v < old(ds).vars@.len(),
    ensures
        final(ds).wf(),
        !old(ds).netcdf4 ==> r == Err::<(), Error>(Error::Netcdf(NC_ENOTNC4)) && *final(ds) == *old(ds),
        old(ds).netcdf4 && !(0 <= level <= 9) ==> r == Err::<(), Error>(Error::Netcdf(NC_EINVAL)) && *final(ds) == *old(ds),
        old(ds).netcdf4 && 0 <= level <= 9 ==> match late_or_classic(*old(ds), v as int) {
            Some(c) => r == Err::<(), Error>(Error::Netcdf(c)) && *final(ds) == *old(ds),
            None => r is Ok && ({
                let s = old(ds).vars@[v as int].store;
                store_set(*old(ds), *final(ds), v as int, Storage { deflate: Some((level, shuffle)), ..s })
            }),
        },
{
    if !ds.netcdf4 {
        return Err(Error::Netcdf(NC_ENOTNC4));
    }
    if level < 0 || level > 9 {
        return Err(Error::Netcdf(NC_EINVAL));
    }
    if ds.vars[v].cells.len() > 0 || ds.vars[v].texts.len() > 0 {
        return Err(Error::Netcdf(NC_ELATEDEF));
    }
    ds.vars[v].store.deflate = Some((level, shuffle));
    proof {
        assert(old(ds).vars@[v as int].cells_wf());
        lemma_store_wf(*old(ds), *ds, v as int);
    }
    Ok(())
}

/// A chunk size is zero.
pub open spec fn zero_chunk(chunks: Seq<usize>) -> bool {
    exists|i: int| 0 <= i < chunks.len() && chunks[i] == 0
}

/// What setting the chunk sizes of variable `v` to `chunks` gives: nothing
/// for a variable without dimensions; else an error for one size per
/// dimension not given (`SliceLen`), for sizes whose product reaches
/// `usize::MAX` (`Overflow`), for a dataset that is not `netCDF-4`, for a
/// size of zero (`NC_EBADCHUNK`) and for values already written; else the
/// sizes are set.
pub open spec fn chunking_outcome(a: Dataset, b: Dataset, v: int, chunks: Seq<usize>, r: Result<()>) -> bool {
    let n = a.vars@[v].dims@.len();
    if n == 0 {
        r is Ok && b == a
    } else if chunks.len() != n {
        r == Err::<(), Error>(Error::SliceLen) && b == a
    } else if saturating_product(chunks) == usize::MAX {
        r == Err::<(), Error>(Error::Overflow) && b == a
    } else if !a.netcdf4 {
        r == Err::<(), Error>(Error::Netcdf(NC_ENOTNC4)) && b == a
    } else if zero_chunk(chunks) {
        r == Err::<(), Error>(Error::Netcdf(NC_EBADCHUNK)) && b == a
    } else if has_values(a, v) {
        r == Err::<(), Error>(Error::Netcdf(NC_ELATEDEF)) && b == a
    } else {
        &&& r is Ok
        &&& b.vars@[v].store.chunks matches Some(c) && c@ == chunks
        &&& b.vars@[v].store.endian == a.vars@[v].store.endian
        &&& b.vars@[v].store.deflate == a.vars@[v].store.deflate
        &&& b.vars@[v].store.fill == a.vars@[v].store.fill
        &&& store_set(a, b, v, b.vars@[v].store)
    }
}

/// Sets the chunk sizes of variable `v`; see `chunking_outcome`.
pub fn define_chunking(ds: &mut Dataset, v: usize, chunks: &[usize]) -> (r: Result<()>)
    requires
        old(ds).wf(),
        v < old(ds).vars@.len(),
    ensures
        final(ds).wf(),
        chunking_outcome(*old(ds), *final(ds), v as int, chunks@, r),
{
    let n = ds.vars[v].dims.len();
    if n == 0 {
        return Ok(());
    }
    if chunks.len() != n {
        return Err(Error::SliceLen);
    }
    if crate::putget::count_product(chunks) == usize::MAX {
        return Err(Error::Overflow);
    }
    if !ds.netcdf4 {
        return Err(Error::Netcdf(NC_ENOTNC4));
    }
    let mut i: usize = 0;
    while i < n
        invariant
            *ds == *old(ds),
            ds.wf(),
            v < ds.vars@.len(),
            n == chunks@.len(),
            n == ds.vars@[v as int].dims@.len(),
            n > 0,
            saturating_product(chunks@) != usize::MAX,
            ds.netcdf4,
            i <= n,
            forall|k: int| 0 <= k < i ==> chunks@[k] != 0,
        decreases n - i,
    {
        if chunks[i] == 0 {
            assert(chunks@[i as int] == 0);
            return Err(Error::Netcdf(NC_EBADCHUNK));
        }
        i = i + 1;
    }
    if ds.vars[v].cells.len() > 0 || ds.vars[v].texts.len() > 0 {
        return Err(Error::Netcdf(NC_ELATEDEF));
    }
    let mut c: Vec<usize> = Vec::new();
    for k in 0..n
        invariant
            n == chunks@.len(),
            c@ == chunks@.subrange(0, k as int),
    {
        c.push(chunks[k]);
    }
    assert(c@ =~= chunks@);
    ds.vars[v].store.chunks = Some(c);
    proof {
        assert(old(ds).vars@[v as int].cells_wf());
        lemma_store_wf(*old(ds), *ds, v as int);
    }
    Ok(())
}

/// The fill value of variable `v` as a value of type `T`: refused
/// (`TypeMismatch`) unless `T` is the type of the variable.
pub fn fill_of<T: Numeric>(ds: &Dataset, v: usize) -> (r: Result<Option<T>>)
    requires
        ds.wf(),
        v < ds.vars@.len(),
    ensures
        T::type_id() != ds.vars@[v as int].xtype ==> r == Err::<Option<T>, Error>(Error::TypeMismatch),
        T::type_id() == ds.vars@[v as int].xtype ==> (r matches Ok(Some(x)) && x.value() == var_fill(*ds, v as int)),
{
    if T::nctype() != ds.vars[v].xtype {
        return Err(Error::TypeMismatch);
    }
    let f = match ds.vars[v].store.fill {
        Some(f) => f,
        None => crate::putget::fill_of_type(ds.vars[v].xtype),
    };
    proof {
        assert(ds.vars@[v as int].cells_wf());
        crate::putget::lemma_fill_fits(ds.vars@[v as int].xtype);
    }
    match T::from_wide(f) {
        Some(x) => Ok(Some(x)),
        None => Err(Error::TypeMismatch),
    }
}

/// Sets the fill value of variable `v`: refused (`TypeMismatch`) unless `T`
/// is the type of the variable, and (`NC_ELATEFILL`) once values were
/// written.
pub fn define_fill<T: Numeric>(ds: &mut Dataset, v: usize, value: T) -> (r: Result<()>)
    requires
        old(ds).wf(),
        v < old(ds).vars@.len(),
    ensures
        final(ds).wf(),
        T::type_id() != old(ds).vars@[v as int].xtype ==> r == Err::<(), Error>(Error::TypeMismatch)
            && *final(ds) == *old(ds),
        T::type_id() == old(ds).vars@[v as int].xtype && has_values(*old(ds), v as int) ==> r == Err::<(), Error>(
            Error::Netcdf(NC_ELATEFILL),
        ) && *final(ds) == *old(ds),
        T::type_id() == old(ds).vars@[v as int].xtype && !has_values(*old(ds), v as int) ==> r is Ok && ({
            let s = old(ds).vars@[v as int].store;
            store_set(*old(ds), *final(ds), v as int, Storage { fill: Some(value.value() as i128), ..s })
        }),
{
    if T::nctype() != ds.vars[v].xtype {
        return Err(Error::TypeMismatch);
    }
    if ds.vars[v].cells.len() > 0 || ds.vars[v].texts.len() > 0 {
        return Err(Error::Netcdf(NC_ELATEFILL));
    }
    let w = value.to_wide();
    ds.vars[v].store.fill = Some(w);
    proof {
        lemma_store_wf(*old(ds), *ds, v as int);
    }
    Ok(())
}

proof fn lemma_still_valid(a: Dataset, b: Dataset, v: int, dims: Seq<crate::dimension::Dimension>)
    requires
        b.wf(),
        0 <= v < a.vars@.len(),
        crate::variable::dims_describe(&a, v, dims),
        store_set(a, b, v, b.vars@[v].store),
    ensures
        crate::variable::dims_describe(&b, v, dims),
{
    assert forall|k: int| 0 <= k < dims.len() implies #[trigger] dims[k].describes(&b, b.vars@[v].dims@[k] as int) by {
        assert(dims[k].describes(&a, a.vars@[v].dims@[k] as int));
    }
}

impl<'g> Variable<'g> {
    /// Get endianness of the variable.
    ///
    /// # Errors
    ///
    /// Not a `netCDF-4` file
    pub fn endianness(&self) -> (r: Result<Endianness>)
        requires
            self.valid(),
        ensures
            !self.ds.netcdf4 ==> r == Err::<Endianness, Error>(Error::Netcdf(NC_ENOTNC4)),
            self.ds.netcdf4 ==> r == Ok::<Endianness, Error>(self.ds.vars@[self.id as int].store.endian),
    {
        endianness_of(self.ds, self.id)
    }

    /// Get the fill value of a variable
    pub fn fill_value<T: Numeric>(&self) -> (r: Result<Option<T>>)
        requires
            self.valid(),
        ensures
            T::type_id() != self.ds.vars@[self.id as int].xtype ==> r == Err::<Option<T>, Error>(Error::TypeMismatch),
            T::type_id() == self.ds.vars@[self.id as int].xtype ==> (r matches Ok(Some(x)) && x.value()
                == var_fill(*self.ds, self.id as int)),
    {
        fill_of(self.ds, self.id)
    }
}

impl<'g> VariableMut<'g> {
    /// Get endianness of the variable.
    ///
    /// # Errors
    ///
    /// Not a `netCDF-4` file
    pub fn endianness(&self) -> (r: Result<Endianness>)
        requires
            self.valid(),
        ensures
            !self.data().netcdf4 ==> r == Err::<Endianness, Error>(Error::Netcdf(NC_ENOTNC4)),
            self.data().netcdf4 ==> r == Ok::<Endianness, Error>(self.data().vars@[self.id as int].store.endian),
    {
        endianness_of(self.ds, self.id)
    }

    /// Get the fill value of a variable
    pub fn fill_value<T: Numeric>(&self) -> (r: Result<Option<T>>)
        requires
            self.valid(),
        ensures
            T::type_id() != self.data().vars@[self.id as int].xtype ==> r == Err::<Option<T>, Error>(Error::TypeMismatch),
            T::type_id() == self.data().vars@[self.id as int].xtype ==> (r matches Ok(Some(x)) && x.value()
                == var_fill(self.data(), self.id as int)),
    {
        fill_of(self.ds, self.id)
    }

    /// Set endianness of the variable. Must be set before inserting data
    ///
    /// # Errors
    ///
    /// Not a `netCDF-4` file, late define
    pub fn set_endianness(&mut self, e: Endianness) -> (r: Result<()>)
        requires
            old(self).valid(),
        ensures
            final(self).valid(),
            final(self).id == old(self).id,
            match late_or_classic(old(self).data(), old(self).id as int) {
                Some(c) => r == Err::<(), Error>(Error::Netcdf(c)) && final(self).data() == old(self).data(),
                None => r is Ok && ({
                    let s = old(self).data().vars@[old(self).id as int].store;
                    store_set(old(self).data(), final(self).data(), old(self).id as int, Storage { endian: e, ..s })
                }),
            },
    {
        let r = define_endianness(self.ds, self.id, e);
        proof {
            if r is Ok {
                lemma_still_valid(old(self).data(), *self.ds, self.id as int, self.dimensions@);
            }
        }
        r
    }

    /// Sets compression on the variable. Must be set before filling in data.
    ///
    /// `deflate_level` can take a value 0..=9, with 0 being no
    /// compression (good for CPU bound tasks), and 9 providing the
    /// highest compression level (good for memory bound tasks)
    ///
    /// `shuffle` enables a filter to reorder bytes before compressing, which
    /// can improve compression ratios
    ///
    /// # Errors
    ///
    /// Not a `netcdf-4` file or `deflate_level` not valid
    pub fn set_compression(&mut self, deflate_level: i32, shuffle: bool) -> (r: Result<()>)
        requires
            old(self).valid(),
        ensures
            final(self).valid(),
            final(self).id == old(self).id,
            !old(self).data().netcdf4 ==> r == Err::<(), Error>(Error::Netcdf(NC_ENOTNC4))
                && final(self).data() == old(self).data(),
            old(self).data().netcdf4 && !(0 <= deflate_level <= 9) ==> r == Err::<(), Error>(Error::Netcdf(NC_EINVAL))
                && final(self).data() == old(self).data(),
            old(self).data().netcdf4 && 0 <= deflate_level <= 9 ==> match late_or_classic(old(self).data(), old(self).id as int) {
                Some(c) => r == Err::<(), Error>(Error::Netcdf(c)) && final(self).data() == old(self).data(),
                None => r is Ok && ({
                    let s = old(self).data().vars@[old(self).id as int].store;
                    store_set(
                        old(self).data(),
                        final(self).data(),
                        old(self).id as int,
                        Storage { deflate: Some((deflate_level, shuffle)), ..s },
                    )
                }),
            },
    {
        let r = define_compression(self.ds, self.id, deflate_level, shuffle);
        proof {
            if r is Ok {
                lemma_still_valid(old(self).data(), *self.ds, self.id as int, self.dimensions@);
            }
        }
        r
    }

    /// Set chunking for variable. Must be set before inserting data
    ///
    /// Use this when reading or writing smaller units of the hypercube than
    /// the full dimensions lengths, to change how the variable is stored in
    /// the file. This has no effect on the memory order when reading/putting
    /// a buffer.
    ///
    /// # Errors
    ///
    /// Not a `netCDF-4` file or invalid chunksize
    pub fn set_chunking(&mut self, chunksize: &[usize]) -> (r: Result<()>)
        requires
            old(self).valid(),
        ensures
            final(self).valid(),
            final(self).id == old(self).id,
            chunking_outcome(old(self).data(), final(self).data(), old(self).id as int, chunksize@, r),
    {
        let r = define_chunking(self.ds, self.id, chunksize);
        proof {
            if r is Ok && old(self).data().vars@[self.id as int].dims@.len() > 0 {
                lemma_still_valid(old(self).data(), *self.ds, self.id as int, self.dimensions@);
            }
        }
        r
    }

    /// Set a Fill Value
    ///
    /// # Errors
    ///
    /// Late define, `fill_value` has the wrong type
    pub fn set_fill_value<T: Numeric>(&mut self, fill_value: T) -> (r: Result<()>)
        requires
            old(self).valid(),
        ensures
            final(self).valid(),
            final(self).id == old(self).id,
            T::type_id() != old(self).data().vars@[old(self).id as int].xtype ==> r == Err::<(), Error>(Error::TypeMismatch)
                && final(self).data() == old(self).data(),
            T::type_id() == old(self).data().vars@[old(self).id as int].xtype && has_values(old(self).data(), old(self).id as int)
                ==> r == Err::<(), Error>(Error::Netcdf(NC_ELATEFILL)) && final(self).data() == old(self).data(),
            T::type_id() == old(self).data().vars@[old(self).id as int].xtype && !has_values(old(self).data(), old(self).id as int)
                ==> r is Ok && ({
                let s = old(self).data().vars@[old(self).id as int].store;
                store_set(
                    old(self).data(),
                    final(self).data(),
                    old(self).id as int,
                    Storage { fill: Some(fill_value.value() as i128), ..s },
                )
            }),
    {
        let r = define_fill(self.ds, self.id, fill_value);
        proof {
            if r is Ok {
                lemma_still_valid(old(self).data(), *self.ds, self.id as int, self.dimensions@);
            }
        }
        r
    }
}

/// A fill value set on a variable without values is what each of its
/// elements reads until written.
pub proof fn lemma_fill_is_read(a: Dataset, b: Dataset, v: int, w: i128, c: Seq<int>)
    requires
        0 <= v < a.vars@.len(),
        !has_values(a, v),
        store_set(a, b, v, Storage { fill: Some(w), ..a.vars@[v].store }),
    ensures
        crate::putget::value_at(b, v, c) == w,
{
    assert(b.vars@[v].cells@.len() == 0);
}

} // verus!
