//! Reading and writing the strings of variables of type string, one element
//! at a time. Elements never written hold the empty string.
use vstd::prelude::*;

use crate::dataset::{Dataset, TextCell};
use crate::error::{is_message, Error, Result};
use crate::hyperslab::{coords, coords_of, idx_view, product};
use crate::putget::{
    check_request, dims_grown, grow_dims, last_index, lemma_bounds_ok, lemma_idx_view_eq,
    lemma_product_pos, lemma_read_bounds, lemma_wf_same_shape, refused_with, request_error, same_index,
    same_shape,
};
use crate::types::NC_STRING;
use crate::attribute::{has_nul, nul_free, nul_message};
use crate::extent::{extents_well_formed, lemma_hyperslab_determined, sel_count, sel_matches, sel_start, sel_stride, selection, Extents};
use crate::putget::{lemma_saturating_below, put_count};
use crate::variable::{dim_lens, dimensions_of_var, dims_describe, lens_of, saturating_product, Variable, VariableMut};
use crate::dimension::Dimension;

verus! {

/// The string written at index `c` among the strings, if one was.
pub open spec fn text_cell(texts: Seq<TextCell>, c: Seq<int>) -> Option<Seq<char>> {
    if exists|j: int| 0 <= j < texts.len() && idx_view((#[trigger] texts[j]).index@) == c {
        Some(texts[choose|j: int| 0 <= j < texts.len() && idx_view((#[trigger] texts[j]).index@) == c].text@)
    } else {
        None
    }
}

/// The string of variable `v` at index `c`: the one written there, or the
/// empty string.
pub open spec fn text_at(ds: Dataset, v: int, c: Seq<int>) -> Seq<char> {
    match text_cell(ds.vars@[v].texts@, c) {
        Some(s) => s,
        None => Seq::empty(),
    }
}

/// Why reading (or writing) the hyperslab of variable `v` as strings is
/// refused, if it is: `None` inside for a variable that does not hold
/// strings, else the status code of the C library.
pub open spec fn text_refusal(
    ds: Dataset,
    v: int,
    start: Seq<usize>,
    count: Seq<usize>,
    stride: Seq<isize>,
    writing: bool,
) -> Option<Option<i32>> {
    if ds.vars@[v].xtype != NC_STRING {
        Some(None)
    } else {
        match request_error(ds, v, start, count, stride, writing) {
            Some(c) => Some(Some(c)),
            None => None,
        }
    }
}

/// No two strings sit at the same index.
pub open spec fn texts_unique(texts: Seq<TextCell>) -> bool {
    forall|x: int, y: int|
        0 <= x < texts.len() && 0 <= y < texts.len() && x != y ==> (#[trigger] texts[x]).index@
            != (#[trigger] texts[y]).index@
}

proof fn lemma_text_cell_at(texts: Seq<TextCell>, j: int)
    requires
        0 <= j < texts.len(),
        texts_unique(texts),
    ensures
        text_cell(texts, idx_view(texts[j].index@)) == Some(texts[j].text@),
{
    let c = idx_view(texts[j].index@);
    let i = choose|i: int| 0 <= i < texts.len() && idx_view((#[trigger] texts[i]).index@) == c;
    lemma_idx_view_eq(texts[i].index@, texts[j].index@);
}

/// The string of variable `v` at the index `idx`.
fn lookup_text(ds: &Dataset, v: usize, idx: &Vec<usize>) -> (r: String)
    requires
        ds.wf(),
        v < ds.vars@.len(),
    ensures
        r@ == text_at(*ds, v as int, idx_view(idx@)),
{
    let texts = &ds.vars[v].texts;
    let mut j: usize = 0;
    while j < texts.len()
        invariant
            ds.wf(),
            v < ds.vars@.len(),
            texts@ == ds.vars@[v as int].texts@,
            j <= texts@.len(),
            forall|k: int| 0 <= k < j ==> (#[trigger] texts@[k]).index@ != idx@,
        decreases texts@.len() - j,
    {
        if same_index(&texts[j].index, idx) {
            proof {
                assert(ds.vars@[v as int].cells_wf());
                lemma_text_cell_at(texts@, j as int);
            }
            return texts[j].text.clone();
        }
        j = j + 1;
    }
    proof {
        assert forall|k: int| 0 <= k < texts@.len() implies idx_view((#[trigger] texts@[k]).index@) != idx_view(idx@) by {
            if idx_view(texts@[k].index@) == idx_view(idx@) {
                lemma_idx_view_eq(texts@[k].index@, idx@);
            }
        }
    }
    String::new()
}

/// Where the product of the counts fits, the saturating product is it; past
/// `usize::MAX` it stays there.
proof fn lemma_saturating_min(c: Seq<usize>)
    ensures
        crate::variable::saturating_product(c) as int == if product(c) > usize::MAX {
            usize::MAX as int
        } else {
            product(c)
        },
    decreases c.len(),
{
    if c.len() > 0 {
        lemma_saturating_min(c.drop_last());
        crate::hyperslab::lemma_product_nonneg(c.drop_last());
        let p = product(c.drop_last());
        let q = crate::variable::saturating_product(c.drop_last()) as int;
        let l = c.last() as int;
        assert(product(c) == p * l);
        if p > usize::MAX {
            if l == 0 {
                assert(q * l == 0 && p * l == 0) by (nonlinear_arith)
                    requires
                        l == 0,
                ;
            } else {
                assert(q * l >= q && p * l >= p) by (nonlinear_arith)
                    requires
                        l >= 1,
                        q >= 0,
                        p >= 0,
                ;
            }
        }
    }
}

/// Reads the string of the one element of variable `v` that `count`
/// elements from `start`, every `stride`, select: refused when the variable
/// does not hold strings or the C library refuses the request, and an error
/// when the request selects no element or more than one.
pub fn get_text(ds: &Dataset, v: usize, start: &[usize], count: &[usize], stride: &[isize]) -> (r: Result<String>)
    requires
        ds.wf(),
        v < ds.vars@.len(),
        start@.len() == count@.len(),
        stride@.len() == count@.len(),
        count@.len() == ds.vars@[v as int].dims@.len(),
    ensures
        match text_refusal(*ds, v as int, start@, count@, stride@, false) {
            Some(why) => r matches Err(e) && refused_with(e, why),
            None => if product(count@) == 0 {
                r matches Err(e) && is_message(e, "No elements returned"@)
            } else if product(count@) > 1 {
                r matches Err(e) && is_message(e, "Too many elements returned"@)
            } else {
                r matches Ok(s) && s@ == text_at(*ds, v as int, coords(start@, count@, stride@, 0))
            },
        },
{
    if ds.vars[v].xtype != NC_STRING {
        return Err(Error::Str("Conversion not supported".to_owned()));
    }
    let lens = match check_request(ds, v, start, count, stride, false) {
        Ok(l) => l,
        Err(e) => return Err(e),
    };
    let n = crate::putget::count_product(count);
    proof {
        lemma_saturating_min(count@);
    }
    if n == 0 {
        return Err(Error::Str("No elements returned".to_owned()));
    }
    if n > 1 {
        return Err(Error::Str("Too many elements returned".to_owned()));
    }
    proof {
        lemma_bounds_ok(*ds, v as int, start@, count@, stride@, false, 0);
        lemma_product_pos(count@);
        assert forall|d: int| 0 <= d < count@.len() implies start@[d] + (count@[d] - 1) * stride@[d] < #[trigger] lens@[d] by {
            assert(count@[d] > 0);
            assert(last_index(start@[d], count@[d], stride@[d]) < lens@[d]);
        }
    }
    let idx = coords_of(start, count, stride, lens.as_slice(), 0);
    Ok(lookup_text(ds, v, &idx))
}

/// Writing `s` at `idx`, over a string of that index or as a new one,
/// leaves the string at every other index as it was.
proof fn lemma_text_update(old: Seq<TextCell>, new: Seq<TextCell>, j: int, idx: Seq<usize>, s: Seq<char>, c: Seq<int>)
    requires
        texts_unique(old),
        texts_unique(new),
        0 <= j < new.len(),
        new[j].index@ == idx,
        new[j].text@ == s,
        new.len() == old.len() || (new.len() == old.len() + 1 && j == old.len()),
        forall|i: int| 0 <= i < old.len() && i != j ==> #[trigger] new[i] == old[i],
        j < old.len() ==> old[j].index@ == idx,
    ensures
        text_cell(new, c) == if c == idx_view(idx) {
            Some(s)
        } else {
            text_cell(old, c)
        },
{
    if c == idx_view(idx) {
        lemma_text_cell_at(new, j);
    } else {
        if exists|i: int| 0 <= i < old.len() && idx_view((#[trigger] old[i]).index@) == c {
            let i = choose|i: int| 0 <= i < old.len() && idx_view((#[trigger] old[i]).index@) == c;
            assert(i != j);
            assert(new[i] == old[i]);
            lemma_text_cell_at(old, i);
            lemma_text_cell_at(new, i);
        } else {
            assert forall|i: int| 0 <= i < new.len() implies idx_view((#[trigger] new[i]).index@) != c by {
                if i != j {
                    assert(new[i] == old[i]);
                }
            }
        }
    }
}

/// Writes `s` into variable `v` at index `idx`.
fn set_text(ds: &mut Dataset, v: usize, idx: Vec<usize>, s: String)
    requires
        old(ds).wf(),
        v < old(ds).vars@.len(),
        idx@.len() == old(ds).vars@[v as int].dims@.len(),
    ensures
        final(ds).wf(),
        final(ds).dims == old(ds).dims,
        same_shape(*old(ds), *final(ds), v as int),
        final(ds).vars@[v as int].cells == old(ds).vars@[v as int].cells,
        forall|c: Seq<int>| #[trigger] text_at(*final(ds), v as int, c) == if c == idx_view(idx@) {
            s@
        } else {
            text_at(*old(ds), v as int, c)
        },
{
    let ghost idxv = idx@;
    let ghost sv = s@;
    let n = ds.vars[v].texts.len();
    let mut j: usize = 0;
    while j < n
        invariant
            *ds == *old(ds),
            ds.wf(),
            v < ds.vars@.len(),
            idx@.len() == ds.vars@[v as int].dims@.len(),
            n == ds.vars@[v as int].texts@.len(),
            j <= n,
            idx@ == idxv,
            s@ == sv,
            forall|k: int| 0 <= k < j ==> (#[trigger] ds.vars@[v as int].texts@[k]).index@ != idxv,
        decreases n - j,
    {
        if same_index(&ds.vars[v].texts[j].index, &idx) {
            ds.vars[v].texts[j].text = s;
            proof {
                let ot = old(ds).vars@[v as int].texts@;
                let nt = ds.vars@[v as int].texts@;
                assert(old(ds).vars@[v as int].cells_wf());
                assert forall|i: int| 0 <= i < ot.len() && i != j implies #[trigger] nt[i] == ot[i] by {}
                assert(texts_unique(nt)) by {
                    assert forall|x: int, y: int|
                        0 <= x < nt.len() && 0 <= y < nt.len() && x != y implies (#[trigger] nt[x]).index@
                            != (#[trigger] nt[y]).index@ by {
                        assert(nt[x].index@ == ot[x].index@);
                        assert(nt[y].index@ == ot[y].index@);
                    }
                }
                assert(ds.vars@[v as int].cells_wf());
                lemma_wf_same_shape(*old(ds), *ds, v as int);
                assert forall|c: Seq<int>| #[trigger] text_at(*ds, v as int, c) == if c == idx_view(idxv) {
                    sv
                } else {
                    text_at(*old(ds), v as int, c)
                } by {
                    lemma_text_update(ot, nt, j as int, idxv, sv, c);
                }
            }
            return;
        }
        j = j + 1;
    }
    ds.vars[v].texts.push(TextCell { index: idx, text: s });
    proof {
        let ot = old(ds).vars@[v as int].texts@;
        let nt = ds.vars@[v as int].texts@;
        assert(old(ds).vars@[v as int].cells_wf());
        assert forall|i: int| 0 <= i < ot.len() && i != n implies #[trigger] nt[i] == ot[i] by {}
        assert(texts_unique(nt)) by {
            assert forall|x: int, y: int|
                0 <= x < nt.len() && 0 <= y < nt.len() && x != y implies (#[trigger] nt[x]).index@
                    != (#[trigger] nt[y]).index@ by {
                if x < n && y < n {
                    assert(nt[x] == ot[x]);
                    assert(nt[y] == ot[y]);
                } else if x < n {
                    assert(nt[x] == ot[x]);
                } else {
                    assert(nt[y] == ot[y]);
                }
            }
        }
        assert(ds.vars@[v as int].cells_wf());
        lemma_wf_same_shape(*old(ds), *ds, v as int);
        assert forall|c: Seq<int>| #[trigger] text_at(*ds, v as int, c) == if c == idx_view(idxv) {
            sv
        } else {
            text_at(*old(ds), v as int, c)
        } by {
            lemma_text_update(ot, nt, n as int, idxv, sv, c);
        }
    }
}

/// `b` is `a` after writing `s` into the one element of the hyperslab of
/// variable `v`: its unlimited dimensions grown as far as the element, the
/// element holding `s`, every other element, and everything else, as it
/// was.
pub open spec fn text_written(
    a: Dataset,
    b: Dataset,
    v: int,
    start: Seq<usize>,
    count: Seq<usize>,
    stride: Seq<isize>,
    s: Seq<char>,
) -> bool {
    &&& same_shape(a, b, v)
    &&& b.vars@[v].cells == a.vars@[v].cells
    &&& dims_grown(a, b, v, start, count, stride)
    &&& text_at(b, v, coords(start, count, stride, 0)) == s
    &&& forall|c: Seq<int>| c != coords(start, count, stride, 0) ==> #[trigger] text_at(b, v, c) == text_at(a, v, c)
}

/// Writes `value` into the one element of variable `v` that `count`
/// elements from `start`, every `stride`, select, growing its unlimited
/// dimensions as far as the element: refused when the variable does not
/// hold strings or the C library refuses the request.
pub fn put_text(ds: &mut Dataset, v: usize, start: &[usize], count: &[usize], stride: &[isize], value: &str) -> (r: Result<()>)
    requires
        old(ds).wf(),
        v < old(ds).vars@.len(),
        start@.len() == count@.len(),
        stride@.len() == count@.len(),
        count@.len() == old(ds).vars@[v as int].dims@.len(),
        product(count@) == 1,
    ensures
        final(ds).wf(),
        match text_refusal(*old(ds), v as int, start@, count@, stride@, true) {
            Some(why) => r matches Err(e) && refused_with(e, why) && *final(ds) == *old(ds),
            None => r is Ok && text_written(*old(ds), *final(ds), v as int, start@, count@, stride@, value@),
        },
{
    if ds.vars[v].xtype != NC_STRING {
        return Err(Error::Str("Conversion not supported".to_owned()));
    }
    let lens = match check_request(ds, v, start, count, stride, true) {
        Ok(l) => l,
        Err(e) => return Err(e),
    };
    proof {
        lemma_bounds_ok(*ds, v as int, start@, count@, stride@, true, 0);
        lemma_product_pos(count@);
        assert forall|d: int| 0 <= d < count@.len() implies start@[d] + (count@[d] - 1) * stride@[d] < #[trigger] lens@[d] by {
            assert(count@[d] > 0);
            assert(last_index(start@[d], count@[d], stride@[d]) < lens@[d]);
        }
    }
    let idx = coords_of(start, count, stride, lens.as_slice(), 0);
    assert(idx@.len() == idx_view(idx@).len());
    grow_dims(ds, v, start, count, stride, true);
    let ghost mid = *ds;
    set_text(ds, v, idx, value.to_owned());
    proof {
        assert(same_shape(*old(ds), *ds, v as int)) by {
            assert forall|i: int| 0 <= i < old(ds).vars@.len() && i != v implies #[trigger] ds.vars@[i] == old(ds).vars@[i] by {
                assert(ds.vars@[i] == mid.vars@[i]);
            }
        }
        assert forall|c: Seq<int>| c != coords(start@, count@, stride@, 0) implies #[trigger] text_at(*ds, v as int, c)
            == text_at(*old(ds), v as int, c) by {
            assert(text_at(*ds, v as int, c) == text_at(mid, v as int, c));
        }
    }
    Ok(())
}

/// What a successful write puts into an element of strings is what a read of
/// that element gives back: after `put_text` of `s` succeeded, `get_text` of
/// the same element is not refused and reads `s`.
pub proof fn lemma_text_read_after_write(
    a: Dataset,
    b: Dataset,
    v: int,
    start: Seq<usize>,
    count: Seq<usize>,
    stride: Seq<isize>,
    s: Seq<char>,
)
    requires
        a.wf(),
        0 <= v < a.vars@.len(),
        start.len() == count.len(),
        stride.len() == count.len(),
        count.len() == a.vars@[v].dims@.len(),
        product(count) == 1,
        text_refusal(a, v, start, count, stride, true) is None,
        text_written(a, b, v, start, count, stride, s),
    ensures
        text_refusal(b, v, start, count, stride, false) is None,
        text_at(b, v, coords(start, count, stride, 0)) == s,
{
    assert(!(exists|d: int| 0 <= d < stride.len() && #[trigger] stride[d] <= 0));
    lemma_bounds_ok(a, v, start, count, stride, true, 0);
    lemma_product_pos(count);
    let n = count.len() as int;
    assert forall|d: int| 0 <= d <= n implies crate::putget::bounds_error_from(b, v, start, count, stride, false, d) is None by {
        lemma_read_bounds(a, b, v, start, count, stride, d);
    }
}

/// What reading the string of a selection of variable `v`, whose dimensions
/// have the lengths `lens`, gives: an error when the selection does not name
/// one extent per dimension, else what `get_text` gives for its hyperslab.
pub open spec fn get_string_outcome(ds: Dataset, v: int, e: Extents, lens: Seq<usize>, r: Result<String>) -> bool {
    if !sel_matches(e, lens) {
        r matches Err(Error::DimensionMismatch { wanted, actual }) && wanted == lens.len() && actual
            == selection(e).unwrap().len()
    } else {
        let start = sel_start(e, lens);
        let count = sel_count(e, lens);
        let stride = sel_stride(e, lens);
        match text_refusal(ds, v, start, count, stride, false) {
            Some(why) => r matches Err(err) && refused_with(err, why),
            None => if product(count) == 0 {
                r matches Err(err) && is_message(err, "No elements returned"@)
            } else if product(count) > 1 {
                r matches Err(err) && is_message(err, "Too many elements returned"@)
            } else {
                r matches Ok(s) && s@ == text_at(ds, v, coords(start, count, stride, 0))
            },
        }
    }
}

/// What writing the string `s` into a selection of variable `v`, whose
/// dimensions have the lengths `lens`, gives: an error for a string that
/// holds a NUL character, which a C string cannot carry; an error when the
/// selection does not name one extent per dimension, or when it counts other
/// than one element for a variable that has not one dimension; else what
/// `put_text` gives for its hyperslab, counting one element along the one
/// dimension. Nothing changes on an error.
pub open spec fn put_string_outcome(
    a: Dataset,
    b: Dataset,
    v: int,
    e: Extents,
    lens: Seq<usize>,
    s: Seq<char>,
    r: Result<()>,
) -> bool {
    if has_nul(s) {
        r matches Err(Error::Str(m)) && m@ == nul_message() && b == a
    } else if !sel_matches(e, lens) {
        &&& r matches Err(Error::DimensionMismatch { wanted, actual })
        &&& wanted == lens.len() && actual == selection(e).unwrap().len()
        &&& b == a
    } else if saturating_product(sel_count(e, lens)) != 1 && lens.len() != 1 {
        &&& r matches Err(Error::BufferLen { wanted, actual })
        &&& wanted == saturating_product(sel_count(e, lens)) && actual == 1
        &&& b == a
    } else {
        let count = put_count(e, lens, 1);
        match text_refusal(a, v, sel_start(e, lens), count, sel_stride(e, lens), true) {
            Some(why) => r matches Err(err) && refused_with(err, why) && b == a,
            None => r is Ok && text_written(a, b, v, sel_start(e, lens), count, sel_stride(e, lens), s),
        }
    }
}

/// Reads the string of the selection of variable `v`, whose dimensions are
/// `dims`.
pub fn string_of_selection(ds: &Dataset, v: usize, dims: &[Dimension], extents: &Extents) -> (r: Result<String>)
    requires
        ds.wf(),
        v < ds.vars@.len(),
        dims_describe(ds, v as int, dims@),
        extents_well_formed(*extents),
    ensures
        get_string_outcome(*ds, v as int, *extents, lens_of(dims@), r),
{
    let lens = dim_lens(dims);
    let (start, count, stride) = match extents.get_start_count_stride(lens.as_slice()) {
        Ok(t) => t,
        Err(e) => return Err(e),
    };
    proof {
        lemma_hyperslab_determined(*extents, lens@, start@, count@, stride@);
    }
    get_text(ds, v, start.as_slice(), count.as_slice(), stride.as_slice())
}

impl<'g> Variable<'g> {
    /// Get a string from this variable
    pub fn get_string(&self, extents: &Extents) -> (r: Result<String>)
        requires
            self.valid(),
            extents_well_formed(*extents),
        ensures
            get_string_outcome(*self.ds, self.id as int, *extents, lens_of(self.dimensions@), r),
    {
        string_of_selection(self.ds, self.id, self.dimensions.as_slice(), extents)
    }
}

impl<'g> VariableMut<'g> {
    /// Get a string from this variable
    pub fn get_string(&self, extents: &Extents) -> (r: Result<String>)
        requires
            self.valid(),
            extents_well_formed(*extents),
        ensures
            get_string_outcome(self.data(), self.id as int, *extents, lens_of(self.dimensions@), r),
    {
        string_of_selection(self.ds, self.id, self.dimensions.as_slice(), extents)
    }

    /// Put a string at the specified indices
    pub fn put_string(&mut self, value: &str, extents: &Extents) -> (r: Result<()>)
        requires
            old(self).valid(),
            extents_well_formed(*extents),
        ensures
            final(self).valid(),
            final(self).id == old(self).id,
            put_string_outcome(
                old(self).data(),
                final(self).data(),
                old(self).id as int,
                *extents,
                lens_of(old(self).dimensions@),
                value@,
                r,
            ),
    {
        if !nul_free(value) {
            return Err(Error::Str("string holds a NUL character".to_owned()));
        }
        let lens = dim_lens(self.dimensions.as_slice());
        let (start, count, stride) = match extents.get_start_count_stride(lens.as_slice()) {
            Ok(t) => t,
            Err(e) => return Err(e),
        };
        proof {
            lemma_hyperslab_determined(*extents, lens@, start@, count@, stride@);
        }
        let mut count = count;
        let n = crate::putget::count_product(count.as_slice());
        if n != 1 {
            if lens.len() == 1 {
                count.set(0, 1);
                proof {
                    assert(count@ =~= seq![1usize]);
                    assert(count@.drop_last() =~= Seq::<usize>::empty());
                    assert(product(count@) == product(count@.drop_last()) * count@.last());
                }
            } else {
                return Err(Error::BufferLen { wanted: n, actual: 1 });
            }
        } else {
            proof {
                lemma_saturating_below(count@);
            }
        }
        match put_text(self.ds, self.id, start.as_slice(), count.as_slice(), stride.as_slice(), value) {
            Ok(()) => {},
            Err(e) => return Err(e),
        }
        self.dimensions = dimensions_of_var(self.ds, self.id);
        Ok(())
    }
}

} // verus!
