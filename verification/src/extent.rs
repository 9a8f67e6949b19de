//! Extents used for putting and getting data
//! from a variable
use vstd::prelude::*;
use vstd::std_specs::convert::{FromSpecImpl, TryFromSpecImpl};

use crate::error::{Error, Result};

verus! {

/// An extent of a dimension
#[derive(Debug, Clone, Copy, PartialEq, Eq, Structural)]
pub enum Extent {
    /// A slice
    Slice {
        /// Start of slice
        start: usize,
        /// Stride of slice
        stride: isize,
    },
    /// A slice with an end
    SliceEnd {
        /// Start of slice
        start: usize,
        /// End of slice
        end: usize,
        /// Stride of slice
        stride: isize,
    },
    /// A slice with a count
    SliceCount {
        /// Start of slice
        start: usize,
        /// Number of elements in slice
        count: usize,
        /// Stride of slice
        stride: isize,
    },
    /// A slice which is just an index
    Index(usize),
}

/// The stride of an extent; an index has none.
pub open spec fn extent_stride(e: Extent) -> Option<isize> {
    match e {
        Extent::Slice { stride, .. } => Some(stride),
        Extent::SliceEnd { stride, .. } => Some(stride),
        Extent::SliceCount { stride, .. } => Some(stride),
        Extent::Index(_) => None,
    }
}

/// The extent with its stride replaced; an index is left as it is.
pub open spec fn with_stride(e: Extent, s: isize) -> Extent {
    match e {
        Extent::Slice { start, .. } => Extent::Slice { start, stride: s },
        Extent::SliceEnd { start, end, .. } => Extent::SliceEnd { start, end, stride: s },
        Extent::SliceCount { start, count, .. } => Extent::SliceCount { start, count, stride: s },
        Extent::Index(i) => Extent::Index(i),
    }
}

impl Extent {
    fn stride(&self) -> (r: Option<isize>)
        ensures
            r == extent_stride(*self),
    {
        match *self {
            Extent::Slice { start: _, stride }
            | Extent::SliceEnd { start: _, stride, end: _ }
            | Extent::SliceCount { start: _, stride, count: _ } => Some(stride),
            Extent::Index(_start) => None,
        }
    }

    /// Set stride of the slice
    pub fn set_stride(&mut self, stride: isize)
        ensures
            *final(self) == with_stride(*old(self), stride),
    {
        let s = stride;
        match self {
            Extent::Slice { start: _, stride } => *stride = s,
            Extent::SliceEnd { start: _, stride, end: _ } => *stride = s,
            Extent::SliceCount { start: _, stride, count: _ } => *stride = s,
            Extent::Index(_start) => {},
        }
    }
}

/// The number of indices `start, start + stride, ...` below `end`, as
/// `(start..end).step_by(stride).count()` gives it.
pub open spec fn steps_below(start: int, end: int, stride: int) -> int {
    if start >= end {
        0
    } else {
        (end - start - 1) / stride + 1
    }
}

/// The number of elements that an extent selects along a dimension of
/// length `len`; a negative stride selects nothing.
pub open spec fn extent_count(e: Extent, len: int) -> int {
    match e {
        Extent::Index(_) => 1,
        Extent::Slice { start, stride } => if stride < 0 {
            0
        } else {
            steps_below(start as int, len, stride as int)
        },
        Extent::SliceCount { count, .. } => count as int,
        Extent::SliceEnd { start, end, stride } => if stride < 0 {
            0
        } else {
            steps_below(start as int, end as int, stride as int)
        },
    }
}

/// The first index that an extent selects.
pub open spec fn extent_start(e: Extent) -> usize {
    match e {
        Extent::Index(s) => s,
        Extent::Slice { start, .. } => start,
        Extent::SliceCount { start, .. } => start,
        Extent::SliceEnd { start, .. } => start,
    }
}

/// Counting `start, start + stride, ...` needs a stride that is not zero.
pub open spec fn extent_well_formed(e: Extent) -> bool {
    match e {
        Extent::Slice { stride, .. } => stride != 0,
        Extent::SliceEnd { stride, .. } => stride != 0,
        _ => true,
    }
}

fn steps_below_exec(start: usize, end: usize, stride: usize) -> (r: usize)
    requires
        stride > 0,
    ensures
        r == steps_below(start as int, end as int, stride as int),
{
    if start >= end {
        0
    } else {
        (end - start - 1) / stride + 1
    }
}

impl Extent {
    /// The first index and the number of elements that the extent selects
    /// along a dimension of length `len`.
    fn start_count(&self, len: usize) -> (r: (usize, usize))
        requires
            extent_well_formed(*self),
        ensures
            r.0 == extent_start(*self),
            r.1 == extent_count(*self, len as int),
    {
        match *self {
            Extent::Index(start) => (start, 1),
            Extent::Slice { start, stride } => {
                if stride < 0 {
                    (start, 0)
                } else {
                    (start, steps_below_exec(start, len, stride as usize))
                }
            },
            Extent::SliceCount { start, count, stride: _ } => (start, count),
            Extent::SliceEnd { start, end, stride } => {
                if stride < 0 {
                    (start, 0)
                } else {
                    (start, steps_below_exec(start, end, stride as usize))
                }
            },
        }
    }
}


#[verifier::external_type_specification]
pub struct ExRangeFrom<Idx>(core::ops::RangeFrom<Idx>);

#[verifier::external_type_specification]
pub struct ExRangeTo<Idx>(core::ops::RangeTo<Idx>);

#[verifier::external_type_specification]
pub struct ExRangeToInclusive<Idx>(core::ops::RangeToInclusive<Idx>);

#[verifier::external_type_specification]
pub struct ExRangeFull(core::ops::RangeFull);

/// `RangeInclusive::start` gives the lower bound of a range that was not
/// iterated to exhaustion; of an exhausted range its documentation leaves the
/// value unspecified, and so does this.
pub assume_specification<Idx>[ core::ops::RangeInclusive::<Idx>::start ](
    r: &core::ops::RangeInclusive<Idx>,
) -> (ret: &Idx)
    ensures
        !r@.exhausted ==> *ret == r@.start,
;

/// `RangeInclusive::end` gives the upper bound of a range that was not
/// iterated to exhaustion; of an exhausted range its documentation leaves the
/// value unspecified, and so does this.
pub assume_specification<Idx>[ core::ops::RangeInclusive::<Idx>::end ](
    r: &core::ops::RangeInclusive<Idx>,
) -> (ret: &Idx)
    ensures
        !r@.exhausted ==> *ret == r@.end,
;

/// The exclusive end after an inclusive one; the largest index stands for
/// itself, as there is none after it.
pub open spec fn after(end: usize) -> usize {
    if end < usize::MAX {
        (end + 1) as usize
    } else {
        end
    }
}

fn after_exec(end: usize) -> (r: usize)
    ensures
        r == after(end),
{
    if end < usize::MAX {
        end + 1
    } else {
        end
    }
}

impl From<usize> for Extent {
    fn from(start: usize) -> (r: Self) {
        Extent::Index(start)
    }
}

impl FromSpecImpl<usize> for Extent {
    open spec fn obeys_from_spec() -> bool {
        true
    }

    open spec fn from_spec(start: usize) -> Extent {
        Extent::Index(start)
    }
}

impl From<core::ops::RangeFrom<usize>> for Extent {
    fn from(range: core::ops::RangeFrom<usize>) -> (r: Self) {
        Extent::Slice { start: range.start, stride: 1 }
    }
}

impl FromSpecImpl<core::ops::RangeFrom<usize>> for Extent {
    open spec fn obeys_from_spec() -> bool {
        true
    }

    open spec fn from_spec(range: core::ops::RangeFrom<usize>) -> Extent {
        Extent::Slice { start: range.start, stride: 1 }
    }
}

impl From<core::ops::Range<usize>> for Extent {
    fn from(range: core::ops::Range<usize>) -> (r: Self) {
        Extent::SliceEnd { start: range.start, end: range.end, stride: 1 }
    }
}

impl FromSpecImpl<core::ops::Range<usize>> for Extent {
    open spec fn obeys_from_spec() -> bool {
        true
    }

    open spec fn from_spec(range: core::ops::Range<usize>) -> Extent {
        Extent::SliceEnd { start: range.start, end: range.end, stride: 1 }
    }
}

impl From<core::ops::RangeTo<usize>> for Extent {
    fn from(range: core::ops::RangeTo<usize>) -> (r: Self) {
        Extent::SliceEnd { start: 0, end: range.end, stride: 1 }
    }
}

impl FromSpecImpl<core::ops::RangeTo<usize>> for Extent {
    open spec fn obeys_from_spec() -> bool {
        true
    }

    open spec fn from_spec(range: core::ops::RangeTo<usize>) -> Extent {
        Extent::SliceEnd { start: 0, end: range.end, stride: 1 }
    }
}

impl From<core::ops::RangeToInclusive<usize>> for Extent {
    fn from(range: core::ops::RangeToInclusive<usize>) -> (r: Self) {
        Extent::SliceEnd { start: 0, end: after_exec(range.end), stride: 1 }
    }
}

impl FromSpecImpl<core::ops::RangeToInclusive<usize>> for Extent {
    open spec fn obeys_from_spec() -> bool {
        true
    }

    open spec fn from_spec(range: core::ops::RangeToInclusive<usize>) -> Extent {
        Extent::SliceEnd { start: 0, end: after(range.end), stride: 1 }
    }
}

/// The extent of an inclusive range `start..=end`.
pub fn extent_from_inclusive(range: &core::ops::RangeInclusive<usize>) -> (r: Extent)
    ensures
        !range@.exhausted ==> r == (Extent::SliceEnd {
            start: range@.start,
            end: after(range@.end),
            stride: 1,
        }),
{
    Extent::SliceEnd { start: *range.start(), end: after_exec(*range.end()), stride: 1 }
}

impl From<core::ops::RangeInclusive<usize>> for Extent {
    fn from(range: core::ops::RangeInclusive<usize>) -> (r: Self)
        ensures
            !range@.exhausted ==> r == (Extent::SliceEnd {
                start: range@.start,
                end: after(range@.end),
                stride: 1,
            }),
    {
        extent_from_inclusive(&range)
    }
}

impl FromSpecImpl<core::ops::RangeInclusive<usize>> for Extent {
    /// The bounds of an exhausted range are unspecified, so the conversion
    /// is stated by `extent_from_inclusive` for the others only.
    open spec fn obeys_from_spec() -> bool {
        false
    }

    open spec fn from_spec(range: core::ops::RangeInclusive<usize>) -> Extent {
        Extent::SliceEnd { start: range@.start, end: after(range@.end), stride: 1 }
    }
}

impl From<core::ops::RangeFull> for Extent {
    fn from(_range: core::ops::RangeFull) -> (r: Self) {
        Extent::Slice { start: 0, stride: 1 }
    }
}

impl FromSpecImpl<core::ops::RangeFull> for Extent {
    open spec fn obeys_from_spec() -> bool {
        true
    }

    open spec fn from_spec(_range: core::ops::RangeFull) -> Extent {
        Extent::Slice { start: 0, stride: 1 }
    }
}


#[verifier::external_type_specification]
#[verifier::external_body]
#[verifier::reject_recursive_types(I)]
pub struct ExStepBy<I>(core::iter::StepBy<I>);

/// The stride between two successive items of a stepped range, as `isize`;
/// a distance beyond `isize::MAX` gives `isize::MAX`.
pub open spec fn stride_between(first: usize, second: usize) -> isize {
    let d = second.wrapping_sub(first);
    if d <= isize::MAX {
        d as isize
    } else {
        isize::MAX
    }
}


fn stride_between_exec(first: usize, second: usize) -> (r: isize)
    ensures
        r == stride_between(first, second),
{
    let d = second.wrapping_sub(first);
    if d <= isize::MAX as usize {
        d as isize
    } else {
        isize::MAX
    }
}

/// The items that a stepped range yields, in order, until it yields none.
pub uninterp spec fn step_range_items(r: core::iter::StepBy<core::ops::Range<usize>>) -> Seq<usize>;

/// The items that a stepped inclusive range yields, in order, until it
/// yields none.
pub uninterp spec fn step_inclusive_items(r: core::iter::StepBy<core::ops::RangeInclusive<usize>>) -> Seq<usize>;

/// `Iterator::next` on a stepped range: its first item, if any; the range
/// then yields the rest.
#[verifier::external_body]
fn step_range_next(range: &mut core::iter::StepBy<core::ops::Range<usize>>) -> (r: Option<usize>)
    ensures
        step_range_items(*old(range)).len() == 0 ==> r is None,
        step_range_items(*old(range)).len() > 0 ==> r == Some(step_range_items(*old(range))[0])
            && step_range_items(*final(range)) == step_range_items(*old(range)).drop_first(),
{
    range.next()
}

/// `Iterator::next` on a stepped inclusive range: its first item, if any;
/// the range then yields the rest.
#[verifier::external_body]
fn step_inclusive_next(range: &mut core::iter::StepBy<core::ops::RangeInclusive<usize>>) -> (r: Option<usize>)
    ensures
        step_inclusive_items(*old(range)).len() == 0 ==> r is None,
        step_inclusive_items(*old(range)).len() > 0 ==> r == Some(step_inclusive_items(*old(range))[0])
            && step_inclusive_items(*final(range)) == step_inclusive_items(*old(range)).drop_first(),
{
    range.next()
}

/// `Iterator::last` on a stepped range: the last item that it would yield.
#[verifier::external_body]
fn step_range_last(range: core::iter::StepBy<core::ops::Range<usize>>) -> (r: Option<usize>)
    ensures
        r == (if step_range_items(range).len() == 0 {
            None
        } else {
            Some(step_range_items(range).last())
        }),
{
    range.last()
}

/// `Iterator::last` on a stepped inclusive range: the last item that it would
/// yield.
#[verifier::external_body]
fn step_inclusive_last(range: core::iter::StepBy<core::ops::RangeInclusive<usize>>) -> (r: Option<usize>)
    ensures
        r == (if step_inclusive_items(range).len() == 0 {
            None
        } else {
            Some(step_inclusive_items(range).last())
        }),
{
    range.last()
}

/// The extent of the items of a stepped range: nothing when there are none,
/// one element for one item, else from the first item to `end_of` the last,
/// striding by the distance between the first two.
pub open spec fn stepped_extent(items: Seq<usize>, inclusive: bool) -> Extent {
    if items.len() == 0 {
        Extent::SliceCount { start: 0, count: 0, stride: 1 }
    } else if items.len() == 1 {
        Extent::SliceCount { start: items[0], count: 1, stride: 1 }
    } else {
        Extent::SliceEnd {
            start: items[0],
            end: if inclusive { after(items.last()) } else { items.last() },
            stride: stride_between(items[0], items[1]),
        }
    }
}

/// The extent of a stepped range `(start..end).step_by(n)`: nothing when it
/// is empty, one element when it holds one, else from the first to the last
/// item, striding by the distance between the first two.
impl From<core::iter::StepBy<core::ops::Range<usize>>> for Extent {
    fn from(range: core::iter::StepBy<core::ops::Range<usize>>) -> (r: Self) {
        let mut range = range;
        let first = step_range_next(&mut range);
        match first {
            None => Extent::SliceCount { start: 0, count: 0, stride: 1 },
            Some(first) => {
                let second = step_range_next(&mut range);
                match second {
                    None => Extent::SliceCount { start: first, count: 1, stride: 1 },
                    Some(second) => {
                        let stride = stride_between_exec(first, second);
                        let last = match step_range_last(range) {
                            Some(l) => l,
                            None => second,
                        };
                        Extent::SliceEnd { start: first, end: last, stride }
                    },
                }
            },
        }
    }
}

impl FromSpecImpl<core::iter::StepBy<core::ops::Range<usize>>> for Extent {
    open spec fn obeys_from_spec() -> bool {
        true
    }

    open spec fn from_spec(range: core::iter::StepBy<core::ops::Range<usize>>) -> Extent {
        stepped_extent(step_range_items(range), false)
    }
}

/// The extent of a stepped range `(start..=end).step_by(n)`: nothing when it
/// is empty, one element when it holds one, else from the first to just after
/// the last item, striding by the distance between the first two.
impl From<core::iter::StepBy<core::ops::RangeInclusive<usize>>> for Extent {
    fn from(range: core::iter::StepBy<core::ops::RangeInclusive<usize>>) -> (r: Self) {
        let mut range = range;
        let first = step_inclusive_next(&mut range);
        match first {
            None => Extent::SliceCount { start: 0, count: 0, stride: 1 },
            Some(first) => {
                let second = step_inclusive_next(&mut range);
                match second {
                    None => Extent::SliceCount { start: first, count: 1, stride: 1 },
                    Some(second) => {
                        let stride = stride_between_exec(first, second);
                        let last = match step_inclusive_last(range) {
                            Some(l) => l,
                            None => second,
                        };
                        Extent::SliceEnd { start: first, end: after_exec(last), stride }
                    },
                }
            },
        }
    }
}

impl FromSpecImpl<core::iter::StepBy<core::ops::RangeInclusive<usize>>> for Extent {
    open spec fn obeys_from_spec() -> bool {
        true
    }

    open spec fn from_spec(range: core::iter::StepBy<core::ops::RangeInclusive<usize>>) -> Extent {
        stepped_extent(step_inclusive_items(range), true)
    }
}


/// A selector for putting and getting data along a dataset
#[derive(Debug, Clone)]
pub enum Extents {
    /// The full variable
    All,
    /// A selection along each dimension
    Extent(Vec<Extent>),
}

impl Default for Extents {
    fn default() -> (r: Self)
        ensures
            r is All,
    {
        Extents::All
    }
}

impl From<core::ops::RangeFull> for Extents {
    fn from(_range: core::ops::RangeFull) -> (r: Self) {
        Extents::All
    }
}

impl FromSpecImpl<core::ops::RangeFull> for Extents {
    open spec fn obeys_from_spec() -> bool {
        true
    }

    open spec fn from_spec(_range: core::ops::RangeFull) -> Extents {
        Extents::All
    }
}

impl From<Vec<Extent>> for Extents {
    fn from(slice: Vec<Extent>) -> (r: Self) {
        Extents::Extent(slice)
    }
}

impl FromSpecImpl<Vec<Extent>> for Extents {
    open spec fn obeys_from_spec() -> bool {
        true
    }

    open spec fn from_spec(slice: Vec<Extent>) -> Extents {
        Extents::Extent(slice)
    }
}

impl From<()> for Extents {
    fn from(_unit: ()) -> (r: Self) {
        Extents::Extent(Vec::new())
    }
}

impl FromSpecImpl<()> for Extents {
    /// The empty selection; its vector is new, so it is stated by `r is Extent`
    /// and the length in `Extents::selection`.
    open spec fn obeys_from_spec() -> bool {
        false
    }

    open spec fn from_spec(_unit: ()) -> Extents {
        Extents::All
    }
}

/// The selection along each dimension that an `Extents` value holds, `None`
/// for the full variable.
pub open spec fn selection(e: Extents) -> Option<Seq<Extent>> {
    match e {
        Extents::All => None,
        Extents::Extent(v) => Some(v@),
    }
}

impl Extents {
    /// A selection of one extent per dimension, copied from a slice.
    pub fn from_extents(slice: &[Extent]) -> (r: Extents)
        ensures
            selection(r) == Some(slice@),
    {
        let mut v: Vec<Extent> = Vec::new();
        for i in 0..slice.len()
            invariant
                v@ == slice@.subrange(0, i as int),
        {
            v.push(slice[i]);
        }
        Extents::Extent(v)
    }

    /// A selection of one extent per dimension, from a starting index and a
    /// count along each: an error unless both have the same length.
    pub fn from_start_count(start: &[usize], count: &[usize]) -> (r: Result<Extents>)
        ensures
            start@.len() != count@.len() ==> r matches Err(Error::Str(_)),
            start@.len() == count@.len() ==> (r matches Ok(e) && selection(e) == Some(
                Seq::new(
                    start@.len(),
                    |i: int| Extent::SliceCount { start: start@[i], count: count@[i], stride: 1 },
                ),
            )),
    {
        if start.len() != count.len() {
            return Err(Error::Str("Indices and count does not have the same length".to_owned()));
        }
        let mut v: Vec<Extent> = Vec::new();
        for i in 0..start.len()
            invariant
                start@.len() == count@.len(),
                v@.len() == i,
                forall|k: int|
                    0 <= k < i ==> v@[k] == (Extent::SliceCount {
                        start: start@[k],
                        count: count@[k],
                        stride: 1,
                    }),
        {
            v.push(Extent::SliceCount { start: start[i], count: count[i], stride: 1 });
        }
        let r = Extents::Extent(v);
        assert(selection(r) =~= Some(
            Seq::new(
                start@.len(),
                |i: int| Extent::SliceCount { start: start@[i], count: count@[i], stride: 1 },
            ),
        ));
        Ok(r)
    }

    /// A selection of one extent per dimension, from a starting index, a
    /// count and a stride along each: an error unless all three have the same
    /// length.
    pub fn from_start_count_stride(start: &[usize], count: &[usize], stride: &[isize]) -> (r:
        Result<Extents>)
        ensures
            (start@.len() != count@.len() || start@.len() != stride@.len()) ==> r matches Err(
                Error::Str(_),
            ),
            (start@.len() == count@.len() && start@.len() == stride@.len()) ==> (r matches Ok(e)
                && selection(e) == Some(
                Seq::new(
                    start@.len(),
                    |i: int|
                        Extent::SliceCount {
                            start: start@[i],
                            count: count@[i],
                            stride: stride@[i],
                        },
                ),
            )),
    {
        if start.len() != count.len() || start.len() != stride.len() {
            return Err(
                Error::Str(
                    "Indices or count or stride does not have the same length".to_owned(),
                ),
            );
        }
        let mut v: Vec<Extent> = Vec::new();
        for i in 0..start.len()
            invariant
                start@.len() == count@.len(),
                start@.len() == stride@.len(),
                v@.len() == i,
                forall|k: int|
                    0 <= k < i ==> v@[k] == (Extent::SliceCount {
                        start: start@[k],
                        count: count@[k],
                        stride: stride@[k],
                    }),
        {
            v.push(Extent::SliceCount { start: start[i], count: count[i], stride: stride[i] });
        }
        let r = Extents::Extent(v);
        assert(selection(r) =~= Some(
            Seq::new(
                start@.len(),
                |i: int|
                    Extent::SliceCount { start: start@[i], count: count@[i], stride: stride@[i] },
            ),
        ));
        Ok(r)
    }
}

/// The selection names a stride of zero nowhere that it would be counted by.
pub open spec fn extents_well_formed(e: Extents) -> bool {
    match e {
        Extents::All => true,
        Extents::Extent(v) => forall|i: int| 0 <= i < v@.len() ==> extent_well_formed(#[trigger] v@[i]),
    }
}

/// The hyperslab that a selection asks of a variable whose dimensions have
/// the lengths `lens`: the whole variable for `All`, else one start, count and
/// stride per dimension.
pub open spec fn hyperslab_ok(e: Extents, lens: Seq<usize>, start: Seq<usize>, count: Seq<usize>, stride: Seq<isize>) -> bool {
    match e {
        Extents::All => {
            &&& start.len() == lens.len() && count.len() == lens.len() && stride.len() == lens.len()
            &&& forall|i: int| 0 <= i < lens.len() ==> start[i] == 0
            &&& forall|i: int| 0 <= i < lens.len() ==> count[i] == lens[i]
            &&& forall|i: int| 0 <= i < lens.len() ==> stride[i] == 1
        },
        Extents::Extent(v) => {
            &&& start.len() == lens.len() && count.len() == lens.len() && stride.len() == lens.len()
            &&& forall|i: int| 0 <= i < lens.len() ==> start[i] == extent_start(v@[i])
            &&& forall|i: int|
                0 <= i < lens.len() ==> count[i] == extent_count(v@[i], lens[i] as int)
            &&& forall|i: int|
                0 <= i < lens.len() ==> stride[i] == (match extent_stride(v@[i]) {
                    Some(s) => s,
                    None => 1isize,
                })
        },
    }
}

/// The selection names one extent per dimension of lengths `lens`, or all
/// of them.
pub open spec fn sel_matches(e: Extents, lens: Seq<usize>) -> bool {
    match e {
        Extents::All => true,
        Extents::Extent(v) => v@.len() == lens.len(),
    }
}

/// The start of the hyperslab along each dimension of lengths `lens`.
pub open spec fn sel_start(e: Extents, lens: Seq<usize>) -> Seq<usize> {
    match e {
        Extents::All => Seq::new(lens.len(), |i: int| 0usize),
        Extents::Extent(v) => Seq::new(lens.len(), |i: int| extent_start(v@[i])),
    }
}

/// The count of the hyperslab along each dimension of lengths `lens`.
pub open spec fn sel_count(e: Extents, lens: Seq<usize>) -> Seq<usize> {
    match e {
        Extents::All => lens,
        Extents::Extent(v) => Seq::new(lens.len(), |i: int| extent_count(v@[i], lens[i] as int) as usize),
    }
}

/// The stride of the hyperslab along each dimension of lengths `lens`.
pub open spec fn sel_stride(e: Extents, lens: Seq<usize>) -> Seq<isize> {
    match e {
        Extents::All => Seq::new(lens.len(), |i: int| 1isize),
        Extents::Extent(v) => Seq::new(
            lens.len(),
            |i: int|
                match extent_stride(v@[i]) {
                    Some(s) => s,
                    None => 1isize,
                },
        ),
    }
}

/// A selection asks for one hyperslab only.
pub proof fn lemma_hyperslab_determined(
    e: Extents,
    lens: Seq<usize>,
    start: Seq<usize>,
    count: Seq<usize>,
    stride: Seq<isize>,
)
    requires
        hyperslab_ok(e, lens, start, count, stride),
    ensures
        start == sel_start(e, lens),
        count == sel_count(e, lens),
        stride == sel_stride(e, lens),
{
    assert(start =~= sel_start(e, lens));
    assert(count =~= sel_count(e, lens));
    assert(stride =~= sel_stride(e, lens));
}

impl Extents {
    /// The start, count and stride along each dimension of lengths `lens`;
    /// an error when a selection does not name one extent per dimension.
    pub fn get_start_count_stride(&self, lens: &[usize]) -> (r: Result<(Vec<usize>, Vec<usize>, Vec<isize>)>)
        requires
            extents_well_formed(*self),
        ensures
            (*self matches Extents::Extent(v) && v@.len() != lens@.len()) ==> (r matches Err(
                Error::DimensionMismatch { wanted, actual },
            ) && wanted == lens@.len() && actual == selection(*self).unwrap().len()),
            (*self is All || selection(*self).unwrap().len() == lens@.len()) ==> (r matches Ok(
                (start, count, stride),
            ) && hyperslab_ok(*self, lens@, start@, count@, stride@)),
    {
        let mut start: Vec<usize> = Vec::new();
        let mut count: Vec<usize> = Vec::new();
        let mut stride: Vec<isize> = Vec::new();
        match self {
            Extents::All => {
                for i in 0..lens.len()
                    invariant
                        start@.len() == i && count@.len() == i && stride@.len() == i,
                        forall|k: int| 0 <= k < i ==> start@[k] == 0,
                        forall|k: int| 0 <= k < i ==> count@[k] == lens@[k],
                        forall|k: int| 0 <= k < i ==> stride@[k] == 1,
                {
                    start.push(0);
                    count.push(lens[i]);
                    stride.push(1);
                }
            },
            Extents::Extent(extents) => {
                if extents.len() != lens.len() {
                    return Err(
                        Error::DimensionMismatch { wanted: lens.len(), actual: extents.len() },
                    );
                }
                for i in 0..lens.len()
                    invariant
                        extents@.len() == lens@.len(),
                        *self == Extents::Extent(*extents),
                        extents_well_formed(*self),
                        start@.len() == i && count@.len() == i && stride@.len() == i,
                        forall|k: int| 0 <= k < i ==> start@[k] == extent_start(extents@[k]),
                        forall|k: int|
                            0 <= k < i ==> count@[k] == extent_count(extents@[k], lens@[k] as int),
                        forall|k: int|
                            0 <= k < i ==> stride@[k] == (match extent_stride(extents@[k]) {
                                Some(s) => s,
                                None => 1isize,
                            }),
                {
                    let e = extents[i];
                    assert(extent_well_formed(extents@[i as int])) by {
                        assert(selection(*self) == Some(extents@));
                    }
                    let (s, c) = e.start_count(lens[i]);
                    start.push(s);
                    count.push(c);
                    let st = match e.stride() {
                        Some(x) => x,
                        None => 1,
                    };
                    stride.push(st);
                }
            },
        }
        Ok((start, count, stride))
    }
}


impl<'a> TryFrom<(&'a [usize], &'a [usize])> for Extents {
    type Error = Error;

    /// See `Extents::from_start_count`.
    fn try_from(sc: (&'a [usize], &'a [usize])) -> (r: Result<Extents>)
        ensures
            sc.0@.len() != sc.1@.len() ==> r matches Err(Error::Str(_)),
            sc.0@.len() == sc.1@.len() ==> (r matches Ok(e) && selection(e) == Some(
                Seq::new(
                    sc.0@.len(),
                    |i: int| Extent::SliceCount { start: sc.0@[i], count: sc.1@[i], stride: 1 },
                ),
            )),
    {
        Extents::from_start_count(sc.0, sc.1)
    }
}

impl<'a> TryFromSpecImpl<(&'a [usize], &'a [usize])> for Extents {
    /// The error carries a new message, so the conversion is stated by
    /// `Extents::from_start_count`.
    open spec fn obeys_try_from_spec() -> bool {
        false
    }

    open spec fn try_from_spec(sc: (&'a [usize], &'a [usize])) -> Result<Extents> {
        Err(Error::Ambiguous)
    }
}

impl TryFrom<(Vec<usize>, Vec<usize>)> for Extents {
    type Error = Error;

    /// See `Extents::from_start_count`.
    fn try_from(sc: (Vec<usize>, Vec<usize>)) -> (r: Result<Extents>)
        ensures
            sc.0@.len() != sc.1@.len() ==> r matches Err(Error::Str(_)),
            sc.0@.len() == sc.1@.len() ==> (r matches Ok(e) && selection(e) == Some(
                Seq::new(
                    sc.0@.len(),
                    |i: int| Extent::SliceCount { start: sc.0@[i], count: sc.1@[i], stride: 1 },
                ),
            )),
    {
        Extents::from_start_count(sc.0.as_slice(), sc.1.as_slice())
    }
}

impl TryFromSpecImpl<(Vec<usize>, Vec<usize>)> for Extents {
    /// The error carries a new message, so the conversion is stated by
    /// `Extents::from_start_count`.
    open spec fn obeys_try_from_spec() -> bool {
        false
    }

    open spec fn try_from_spec(sc: (Vec<usize>, Vec<usize>)) -> Result<Extents> {
        Err(Error::Ambiguous)
    }
}

impl<'a> TryFrom<(&'a [usize], &'a [usize], &'a [isize])> for Extents {
    type Error = Error;

    /// See `Extents::from_start_count_stride`.
    fn try_from(scs: (&'a [usize], &'a [usize], &'a [isize])) -> (r: Result<Extents>)
        ensures
            scs.0@.len() != scs.1@.len() || scs.0@.len() != scs.2@.len() ==> r matches Err(Error::Str(_)),
            scs.0@.len() == scs.1@.len() && scs.0@.len() == scs.2@.len() ==> (r matches Ok(e) && selection(e) == Some(
                Seq::new(
                    scs.0@.len(),
                    |i: int| Extent::SliceCount { start: scs.0@[i], count: scs.1@[i], stride: scs.2@[i] },
                ),
            )),
    {
        Extents::from_start_count_stride(scs.0, scs.1, scs.2)
    }
}

impl<'a> TryFromSpecImpl<(&'a [usize], &'a [usize], &'a [isize])> for Extents {
    /// The error carries a new message, so the conversion is stated by
    /// `Extents::from_start_count_stride`.
    open spec fn obeys_try_from_spec() -> bool {
        false
    }

    open spec fn try_from_spec(scs: (&'a [usize], &'a [usize], &'a [isize])) -> Result<Extents> {
        Err(Error::Ambiguous)
    }
}

impl TryFrom<(Vec<usize>, Vec<usize>, Vec<isize>)> for Extents {
    type Error = Error;

    /// See `Extents::from_start_count_stride`.
    fn try_from(scs: (Vec<usize>, Vec<usize>, Vec<isize>)) -> (r: Result<Extents>)
        ensures
            scs.0@.len() != scs.1@.len() || scs.0@.len() != scs.2@.len() ==> r matches Err(Error::Str(_)),
            scs.0@.len() == scs.1@.len() && scs.0@.len() == scs.2@.len() ==> (r matches Ok(e) && selection(e) == Some(
                Seq::new(
                    scs.0@.len(),
                    |i: int| Extent::SliceCount { start: scs.0@[i], count: scs.1@[i], stride: scs.2@[i] },
                ),
            )),
    {
        Extents::from_start_count_stride(scs.0.as_slice(), scs.1.as_slice(), scs.2.as_slice())
    }
}

impl TryFromSpecImpl<(Vec<usize>, Vec<usize>, Vec<isize>)> for Extents {
    /// The error carries a new message, so the conversion is stated by
    /// `Extents::from_start_count_stride`.
    open spec fn obeys_try_from_spec() -> bool {
        false
    }

    open spec fn try_from_spec(scs: (Vec<usize>, Vec<usize>, Vec<isize>)) -> Result<Extents> {
        Err(Error::Ambiguous)
    }
}

impl From<usize> for Extents {
    fn from(index: usize) -> (r: Self)
        ensures
            selection(r) == Some(seq![Extent::Index(index)]),
    {
        Extents::single(Extent::Index(index))
    }
}

impl FromSpecImpl<usize> for Extents {
    /// A selection of one index; its vector is new, so this is stated by
    /// `Extents::single`.
    open spec fn obeys_from_spec() -> bool {
        false
    }

    open spec fn from_spec(index: usize) -> Extents {
        Extents::All
    }
}

impl Extents {
    /// A selection of a single extent, for a one-dimensional variable.
    pub fn single(e: Extent) -> (r: Extents)
        ensures
            selection(r) == Some(seq![e]),
    {
        let v = vec![e];
        assert(v@ =~= seq![e]);
        Extents::Extent(v)
    }
}

impl From<core::ops::Range<usize>> for Extents {
    fn from(range: core::ops::Range<usize>) -> (r: Self)
        ensures
            selection(r) == Some(seq![Extent::SliceEnd { start: range.start, end: range.end, stride: 1 }]),
    {
        Extents::single(Extent::from(range))
    }
}

impl FromSpecImpl<core::ops::Range<usize>> for Extents {
    /// A selection of one range; its vector is new, so this is stated by
    /// `Extents::single`.
    open spec fn obeys_from_spec() -> bool {
        false
    }

    open spec fn from_spec(range: core::ops::Range<usize>) -> Extents {
        Extents::All
    }
}

impl From<core::ops::RangeFrom<usize>> for Extents {
    fn from(range: core::ops::RangeFrom<usize>) -> (r: Self)
        ensures
            selection(r) == Some(seq![Extent::Slice { start: range.start, stride: 1 }]),
    {
        Extents::single(Extent::from(range))
    }
}

impl FromSpecImpl<core::ops::RangeFrom<usize>> for Extents {
    /// A selection of one range; its vector is new, so this is stated by
    /// `Extents::single`.
    open spec fn obeys_from_spec() -> bool {
        false
    }

    open spec fn from_spec(range: core::ops::RangeFrom<usize>) -> Extents {
        Extents::All
    }
}

impl From<core::ops::RangeTo<usize>> for Extents {
    fn from(range: core::ops::RangeTo<usize>) -> (r: Self)
        ensures
            selection(r) == Some(seq![Extent::SliceEnd { start: 0, end: range.end, stride: 1 }]),
    {
        Extents::single(Extent::from(range))
    }
}

impl FromSpecImpl<core::ops::RangeTo<usize>> for Extents {
    /// A selection of one extent; its vector is new, so this is stated by
    /// the conversion itself.
    open spec fn obeys_from_spec() -> bool {
        false
    }

    open spec fn from_spec(range: core::ops::RangeTo<usize>) -> Extents {
        Extents::All
    }
}

impl From<core::ops::RangeToInclusive<usize>> for Extents {
    fn from(range: core::ops::RangeToInclusive<usize>) -> (r: Self)
        ensures
            selection(r) == Some(seq![Extent::SliceEnd { start: 0, end: after(range.end), stride: 1 }]),
    {
        Extents::single(Extent::from(range))
    }
}

impl FromSpecImpl<core::ops::RangeToInclusive<usize>> for Extents {
    /// A selection of one extent; its vector is new, so this is stated by
    /// the conversion itself.
    open spec fn obeys_from_spec() -> bool {
        false
    }

    open spec fn from_spec(range: core::ops::RangeToInclusive<usize>) -> Extents {
        Extents::All
    }
}

impl From<core::ops::RangeInclusive<usize>> for Extents {
    fn from(range: core::ops::RangeInclusive<usize>) -> (r: Self)
        ensures
            !range@.exhausted ==> selection(r) == Some(seq![Extent::SliceEnd { start: range@.start, end: after(range@.end), stride: 1 }]),
    {
        Extents::single(Extent::from(range))
    }
}

impl FromSpecImpl<core::ops::RangeInclusive<usize>> for Extents {
    /// A selection of one extent; its vector is new, so this is stated by
    /// the conversion itself.
    open spec fn obeys_from_spec() -> bool {
        false
    }

    open spec fn from_spec(range: core::ops::RangeInclusive<usize>) -> Extents {
        Extents::All
    }
}

impl From<core::iter::StepBy<core::ops::Range<usize>>> for Extents {
    fn from(range: core::iter::StepBy<core::ops::Range<usize>>) -> (r: Self)
        ensures
            selection(r) == Some(seq![stepped_extent(step_range_items(range), false)]),
    {
        Extents::single(Extent::from(range))
    }
}

impl FromSpecImpl<core::iter::StepBy<core::ops::Range<usize>>> for Extents {
    /// A selection of one extent; its vector is new, so this is stated by
    /// the conversion itself.
    open spec fn obeys_from_spec() -> bool {
        false
    }

    open spec fn from_spec(range: core::iter::StepBy<core::ops::Range<usize>>) -> Extents {
        Extents::All
    }
}

impl From<core::iter::StepBy<core::ops::RangeInclusive<usize>>> for Extents {
    fn from(range: core::iter::StepBy<core::ops::RangeInclusive<usize>>) -> (r: Self)
        ensures
            selection(r) == Some(seq![stepped_extent(step_inclusive_items(range), true)]),
    {
        Extents::single(Extent::from(range))
    }
}

impl FromSpecImpl<core::iter::StepBy<core::ops::RangeInclusive<usize>>> for Extents {
    /// A selection of one extent; its vector is new, so this is stated by
    /// the conversion itself.
    open spec fn obeys_from_spec() -> bool {
        false
    }

    open spec fn from_spec(range: core::iter::StepBy<core::ops::RangeInclusive<usize>>) -> Extents {
        Extents::All
    }
}

/// `Clone::clone` on a stepped range: a copy of the range.
#[verifier::external_body]
fn step_range_copy(range: &core::iter::StepBy<core::ops::Range<usize>>) -> (r: core::iter::StepBy<
    core::ops::Range<usize>,
>)
    ensures
        step_range_items(r) == step_range_items(*range),
{
    range.clone()
}

/// `Clone::clone` on a stepped inclusive range: a copy of the range.
#[verifier::external_body]
fn step_inclusive_copy(range: &core::iter::StepBy<core::ops::RangeInclusive<usize>>) -> (r:
    core::iter::StepBy<core::ops::RangeInclusive<usize>>)
    ensures
        step_inclusive_items(r) == step_inclusive_items(*range),
{
    range.clone()
}

/// Something that selects along one dimension: an index, a range, or a
/// stepped range.
pub trait ToExtent {
    /// The extent is the one that this selects.
    spec fn selects(&self, e: Extent) -> bool;

    /// The extent that this selects.
    fn to_extent(&self) -> (r: Extent)
        ensures
            self.selects(r),
    ;
}

impl ToExtent for usize {
    open spec fn selects(&self, e: Extent) -> bool {
        e == Extent::Index(*self)
    }

    fn to_extent(&self) -> (r: Extent) {
        Extent::Index(*self)
    }
}

impl ToExtent for core::ops::RangeFrom<usize> {
    open spec fn selects(&self, e: Extent) -> bool {
        e == (Extent::Slice { start: self.start, stride: 1 })
    }

    fn to_extent(&self) -> (r: Extent) {
        Extent::Slice { start: self.start, stride: 1 }
    }
}

impl ToExtent for core::ops::Range<usize> {
    open spec fn selects(&self, e: Extent) -> bool {
        e == (Extent::SliceEnd { start: self.start, end: self.end, stride: 1 })
    }

    fn to_extent(&self) -> (r: Extent) {
        Extent::SliceEnd { start: self.start, end: self.end, stride: 1 }
    }
}

impl ToExtent for core::ops::RangeTo<usize> {
    open spec fn selects(&self, e: Extent) -> bool {
        e == (Extent::SliceEnd { start: 0, end: self.end, stride: 1 })
    }

    fn to_extent(&self) -> (r: Extent) {
        Extent::SliceEnd { start: 0, end: self.end, stride: 1 }
    }
}

impl ToExtent for core::ops::RangeToInclusive<usize> {
    open spec fn selects(&self, e: Extent) -> bool {
        e == (Extent::SliceEnd { start: 0, end: after(self.end), stride: 1 })
    }

    fn to_extent(&self) -> (r: Extent) {
        Extent::SliceEnd { start: 0, end: after_exec(self.end), stride: 1 }
    }
}

impl ToExtent for core::ops::RangeInclusive<usize> {
    open spec fn selects(&self, e: Extent) -> bool {
        !self@.exhausted ==> e == (Extent::SliceEnd {
            start: self@.start,
            end: after(self@.end),
            stride: 1,
        })
    }

    fn to_extent(&self) -> (r: Extent) {
        extent_from_inclusive(self)
    }
}

impl ToExtent for core::ops::RangeFull {
    open spec fn selects(&self, e: Extent) -> bool {
        e == (Extent::Slice { start: 0, stride: 1 })
    }

    fn to_extent(&self) -> (r: Extent) {
        Extent::Slice { start: 0, stride: 1 }
    }
}

impl ToExtent for core::iter::StepBy<core::ops::Range<usize>> {
    open spec fn selects(&self, e: Extent) -> bool {
        e == stepped_extent(step_range_items(*self), false)
    }

    fn to_extent(&self) -> (r: Extent) {
        Extent::from(step_range_copy(self))
    }
}

impl ToExtent for core::iter::StepBy<core::ops::RangeInclusive<usize>> {
    open spec fn selects(&self, e: Extent) -> bool {
        e == stepped_extent(step_inclusive_items(*self), true)
    }

    fn to_extent(&self) -> (r: Extent) {
        Extent::from(step_inclusive_copy(self))
    }
}

/// The extents are those that the items select, one per item.
pub open spec fn selected_by<T: ToExtent>(items: Seq<T>, e: Extents) -> bool {
    e matches Extents::Extent(v) && v@.len() == items.len() && forall|i: int|
        0 <= i < items.len() ==> #[trigger] items[i].selects(v@[i])
}

fn extents_of<T: ToExtent>(items: &[T]) -> (r: Extents)
    ensures
        selected_by(items@, r),
{
    let mut v: Vec<Extent> = Vec::new();
    for i in 0..items.len()
        invariant
            v@.len() == i,
            forall|k: int| 0 <= k < i ==> #[trigger] items@[k].selects(v@[k]),
    {
        v.push(items[i].to_extent());
    }
    Extents::Extent(v)
}

impl<'a, T: ToExtent> From<&'a [T]> for Extents {
    fn from(slice: &'a [T]) -> (r: Self)
        ensures
            selected_by(slice@, r),
    {
        extents_of(slice)
    }
}

impl<'a, T: ToExtent> FromSpecImpl<&'a [T]> for Extents {
    /// The vector of the selection is new, so the conversion is stated by
    /// `selected_by`.
    open spec fn obeys_from_spec() -> bool {
        false
    }

    open spec fn from_spec(slice: &'a [T]) -> Extents {
        Extents::All
    }
}

impl<T: ToExtent> From<Vec<T>> for Extents {
    fn from(v: Vec<T>) -> (r: Self)
        ensures
            selected_by(v@, r),
    {
        extents_of(v.as_slice())
    }
}

impl<T: ToExtent> FromSpecImpl<Vec<T>> for Extents {
    /// The vector of the selection is new, so the conversion is stated by
    /// `selected_by`.
    open spec fn obeys_from_spec() -> bool {
        false
    }

    open spec fn from_spec(v: Vec<T>) -> Extents {
        Extents::All
    }
}

impl<T: ToExtent, const N: usize> From<[T; N]> for Extents {
    fn from(arr: [T; N]) -> (r: Self)
        ensures
            selected_by(arr@, r),
    {
        extents_of(arr.as_slice())
    }
}

impl<T: ToExtent, const N: usize> FromSpecImpl<[T; N]> for Extents {
    /// The vector of the selection is new, so the conversion is stated by
    /// `selected_by`.
    open spec fn obeys_from_spec() -> bool {
        false
    }

    open spec fn from_spec(arr: [T; N]) -> Extents {
        Extents::All
    }
}

impl<'a, T: ToExtent, const N: usize> From<&'a [T; N]> for Extents {
    fn from(arr: &'a [T; N]) -> (r: Self)
        ensures
            selected_by(arr@, r),
    {
        extents_of(arr.as_slice())
    }
}

impl<'a, T: ToExtent, const N: usize> FromSpecImpl<&'a [T; N]> for Extents {
    /// The vector of the selection is new, so the conversion is stated by
    /// `selected_by`.
    open spec fn obeys_from_spec() -> bool {
        false
    }

    open spec fn from_spec(arr: &'a [T; N]) -> Extents {
        Extents::All
    }
}

impl<'a> From<&'a [Extent]> for Extents {
    fn from(slice: &'a [Extent]) -> (r: Self)
        ensures
            selection(r) == Some(slice@),
    {
        Extents::from_extents(slice)
    }
}

impl<'a> FromSpecImpl<&'a [Extent]> for Extents {
    /// The vector of the selection is new, so the conversion is stated by
    /// `selection`.
    open spec fn obeys_from_spec() -> bool {
        false
    }

    open spec fn from_spec(slice: &'a [Extent]) -> Extents {
        Extents::All
    }
}

impl<const N: usize> From<[Extent; N]> for Extents {
    fn from(arr: [Extent; N]) -> (r: Self)
        ensures
            selection(r) == Some(arr@),
    {
        Extents::from_extents(arr.as_slice())
    }
}

impl<const N: usize> FromSpecImpl<[Extent; N]> for Extents {
    /// The vector of the selection is new, so the conversion is stated by
    /// `selection`.
    open spec fn obeys_from_spec() -> bool {
        false
    }

    open spec fn from_spec(arr: [Extent; N]) -> Extents {
        Extents::All
    }
}

/// A copy of a selection.
pub fn copy_extents(e: &Extents) -> (r: Extents)
    ensures
        selection(r) == selection(*e),
{
    match e {
        Extents::All => Extents::All,
        Extents::Extent(v) => Extents::from_extents(v.as_slice()),
    }
}

impl<'a> From<&'a Extents> for Extents {
    fn from(e: &'a Extents) -> (r: Self)
        ensures
            selection(r) == selection(*e),
    {
        copy_extents(e)
    }
}

impl<'a> FromSpecImpl<&'a Extents> for Extents {
    /// The vector of the copy is new, so the conversion is stated by
    /// `selection`.
    open spec fn obeys_from_spec() -> bool {
        false
    }

    open spec fn from_spec(e: &'a Extents) -> Extents {
        Extents::All
    }
}

impl<const N: usize> TryFrom<([usize; N], [usize; N])> for Extents {
    type Error = core::convert::Infallible;

    /// One extent per pair of start and count.
    fn try_from(sc: ([usize; N], [usize; N])) -> (r: core::result::Result<Extents, core::convert::Infallible>)
        ensures
            r matches Ok(e) && selection(e) == Some(
                Seq::new(N as nat, |i: int| Extent::SliceCount { start: sc.0@[i], count: sc.1@[i], stride: 1 }),
            ),
    {
        match Extents::from_start_count(sc.0.as_slice(), sc.1.as_slice()) {
            Ok(e) => Ok(e),
            Err(_) => Ok(Extents::All),
        }
    }
}

impl<const N: usize> TryFromSpecImpl<([usize; N], [usize; N])> for Extents {
    /// The vector of the selection is new, so the conversion is stated by
    /// `selection`.
    open spec fn obeys_try_from_spec() -> bool {
        false
    }

    open spec fn try_from_spec(sc: ([usize; N], [usize; N])) -> core::result::Result<Extents, core::convert::Infallible> {
        Ok(Extents::All)
    }
}

impl<'a, const N: usize> TryFrom<(&'a [usize; N], &'a [usize; N])> for Extents {
    type Error = core::convert::Infallible;

    /// One extent per pair of start and count.
    fn try_from(sc: (&'a [usize; N], &'a [usize; N])) -> (r: core::result::Result<Extents, core::convert::Infallible>)
        ensures
            r matches Ok(e) && selection(e) == Some(
                Seq::new(N as nat, |i: int| Extent::SliceCount { start: sc.0@[i], count: sc.1@[i], stride: 1 }),
            ),
    {
        match Extents::from_start_count(sc.0.as_slice(), sc.1.as_slice()) {
            Ok(e) => Ok(e),
            Err(_) => Ok(Extents::All),
        }
    }
}

impl<'a, const N: usize> TryFromSpecImpl<(&'a [usize; N], &'a [usize; N])> for Extents {
    /// The vector of the selection is new, so the conversion is stated by
    /// `selection`.
    open spec fn obeys_try_from_spec() -> bool {
        false
    }

    open spec fn try_from_spec(sc: (&'a [usize; N], &'a [usize; N])) -> core::result::Result<Extents, core::convert::Infallible> {
        Ok(Extents::All)
    }
}

impl<const N: usize> TryFrom<([usize; N], [usize; N], [isize; N])> for Extents {
    type Error = core::convert::Infallible;

    /// One extent per start, count and stride.
    fn try_from(scs: ([usize; N], [usize; N], [isize; N])) -> (r: core::result::Result<Extents, core::convert::Infallible>)
        ensures
            r matches Ok(e) && selection(e) == Some(
                Seq::new(N as nat, |i: int| Extent::SliceCount { start: scs.0@[i], count: scs.1@[i], stride: scs.2@[i] }),
            ),
    {
        match Extents::from_start_count_stride(scs.0.as_slice(), scs.1.as_slice(), scs.2.as_slice()) {
            Ok(e) => Ok(e),
            Err(_) => Ok(Extents::All),
        }
    }
}

impl<const N: usize> TryFromSpecImpl<([usize; N], [usize; N], [isize; N])> for Extents {
    /// The vector of the selection is new, so the conversion is stated by
    /// `selection`.
    open spec fn obeys_try_from_spec() -> bool {
        false
    }

    open spec fn try_from_spec(scs: ([usize; N], [usize; N], [isize; N])) -> core::result::Result<Extents, core::convert::Infallible> {
        Ok(Extents::All)
    }
}

impl<'a, const N: usize> TryFrom<(&'a [usize; N], &'a [usize; N], &'a [isize; N])> for Extents {
    type Error = core::convert::Infallible;

    /// One extent per start, count and stride.
    fn try_from(scs: (&'a [usize; N], &'a [usize; N], &'a [isize; N])) -> (r: core::result::Result<Extents, core::convert::Infallible>)
        ensures
            r matches Ok(e) && selection(e) == Some(
                Seq::new(N as nat, |i: int| Extent::SliceCount { start: scs.0@[i], count: scs.1@[i], stride: scs.2@[i] }),
            ),
    {
        match Extents::from_start_count_stride(scs.0.as_slice(), scs.1.as_slice(), scs.2.as_slice()) {
            Ok(e) => Ok(e),
            Err(_) => Ok(Extents::All),
        }
    }
}

impl<'a, const N: usize> TryFromSpecImpl<(&'a [usize; N], &'a [usize; N], &'a [isize; N])> for Extents {
    /// The vector of the selection is new, so the conversion is stated by
    /// `selection`.
    open spec fn obeys_try_from_spec() -> bool {
        false
    }

    open spec fn try_from_spec(scs: (&'a [usize; N], &'a [usize; N], &'a [isize; N])) -> core::result::Result<Extents, core::convert::Infallible> {
        Ok(Extents::All)
    }
}

impl<T0: ToExtent> From<(T0,)> for Extents {
    /// One extent per member of the tuple.
    fn from(t: (T0,)) -> (r: Self)
        ensures
            r matches Extents::Extent(v) && v@.len() == 1 && t.0.selects(v@[0]),
    {
        let mut v: Vec<Extent> = Vec::new();
        v.push(t.0.to_extent());
        Extents::Extent(v)
    }
}

impl<T0: ToExtent> FromSpecImpl<(T0,)> for Extents {
    /// The vector of the selection is new, so the conversion is stated by
    /// the extents of its members.
    open spec fn obeys_from_spec() -> bool {
        false
    }

    open spec fn from_spec(t: (T0,)) -> Extents {
        Extents::All
    }
}

impl<T0: ToExtent, T1: ToExtent> From<(T0, T1)> for Extents {
    /// One extent per member of the tuple.
    fn from(t: (T0, T1)) -> (r: Self)
        ensures
            r matches Extents::Extent(v) && v@.len() == 2 && t.0.selects(v@[0]) && t.1.selects(v@[1]),
    {
        let mut v: Vec<Extent> = Vec::new();
        v.push(t.0.to_extent());
        v.push(t.1.to_extent());
        Extents::Extent(v)
    }
}

impl<T0: ToExtent, T1: ToExtent> FromSpecImpl<(T0, T1)> for Extents {
    /// The vector of the selection is new, so the conversion is stated by
    /// the extents of its members.
    open spec fn obeys_from_spec() -> bool {
        false
    }

    open spec fn from_spec(t: (T0, T1)) -> Extents {
        Extents::All
    }
}

impl<T0: ToExtent, T1: ToExtent, T2: ToExtent> From<(T0, T1, T2)> for Extents {
    /// One extent per member of the tuple.
    fn from(t: (T0, T1, T2)) -> (r: Self)
        ensures
            r matches Extents::Extent(v) && v@.len() == 3 && t.0.selects(v@[0]) && t.1.selects(v@[1]) && t.2.selects(v@[2]),
    {
        let mut v: Vec<Extent> = Vec::new();
        v.push(t.0.to_extent());
        v.push(t.1.to_extent());
        v.push(t.2.to_extent());
        Extents::Extent(v)
    }
}

impl<T0: ToExtent, T1: ToExtent, T2: ToExtent> FromSpecImpl<(T0, T1, T2)> for Extents {
    /// The vector of the selection is new, so the conversion is stated by
    /// the extents of its members.
    open spec fn obeys_from_spec() -> bool {
        false
    }

    open spec fn from_spec(t: (T0, T1, T2)) -> Extents {
        Extents::All
    }
}

impl<T0: ToExtent, T1: ToExtent, T2: ToExtent, T3: ToExtent> From<(T0, T1, T2, T3)> for Extents {
    /// One extent per member of the tuple.
    fn from(t: (T0, T1, T2, T3)) -> (r: Self)
        ensures
            r matches Extents::Extent(v) && v@.len() == 4 && t.0.selects(v@[0]) && t.1.selects(v@[1]) && t.2.selects(v@[2]) && t.3.selects(v@[3]),
    {
        let mut v: Vec<Extent> = Vec::new();
        v.push(t.0.to_extent());
        v.push(t.1.to_extent());
        v.push(t.2.to_extent());
        v.push(t.3.to_extent());
        Extents::Extent(v)
    }
}

impl<T0: ToExtent, T1: ToExtent, T2: ToExtent, T3: ToExtent> FromSpecImpl<(T0, T1, T2, T3)> for Extents {
    /// The vector of the selection is new, so the conversion is stated by
    /// the extents of its members.
    open spec fn obeys_from_spec() -> bool {
        false
    }

    open spec fn from_spec(t: (T0, T1, T2, T3)) -> Extents {
        Extents::All
    }
}

impl<T0: ToExtent, T1: ToExtent, T2: ToExtent, T3: ToExtent, T4: ToExtent> From<(T0, T1, T2, T3, T4)> for Extents {
    /// One extent per member of the tuple.
    fn from(t: (T0, T1, T2, T3, T4)) -> (r: Self)
        ensures
            r matches Extents::Extent(v) && v@.len() == 5 && t.0.selects(v@[0]) && t.1.selects(v@[1]) && t.2.selects(v@[2]) && t.3.selects(v@[3]) && t.4.selects(v@[4]),
    {
        let mut v: Vec<Extent> = Vec::new();
        v.push(t.0.to_extent());
        v.push(t.1.to_extent());
        v.push(t.2.to_extent());
        v.push(t.3.to_extent());
        v.push(t.4.to_extent());
        Extents::Extent(v)
    }
}

impl<T0: ToExtent, T1: ToExtent, T2: ToExtent, T3: ToExtent, T4: ToExtent> FromSpecImpl<(T0, T1, T2, T3, T4)> for Extents {
    /// The vector of the selection is new, so the conversion is stated by
    /// the extents of its members.
    open spec fn obeys_from_spec() -> bool {
        false
    }

    open spec fn from_spec(t: (T0, T1, T2, T3, T4)) -> Extents {
        Extents::All
    }
}

impl<T0: ToExtent, T1: ToExtent, T2: ToExtent, T3: ToExtent, T4: ToExtent, T5: ToExtent> From<(T0, T1, T2, T3, T4, T5)> for Extents {
    /// One extent per member of the tuple.
    fn from(t: (T0, T1, T2, T3, T4, T5)) -> (r: Self)
        ensures
            r matches Extents::Extent(v) && v@.len() == 6 && t.0.selects(v@[0]) && t.1.selects(v@[1]) && t.2.selects(v@[2]) && t.3.selects(v@[3]) && t.4.selects(v@[4]) && t.5.selects(v@[5]),
    {
        let mut v: Vec<Extent> = Vec::new();
        v.push(t.0.to_extent());
        v.push(t.1.to_extent());
        v.push(t.2.to_extent());
        v.push(t.3.to_extent());
        v.push(t.4.to_extent());
        v.push(t.5.to_extent());
        Extents::Extent(v)
    }
}

impl<T0: ToExtent, T1: ToExtent, T2: ToExtent, T3: ToExtent, T4: ToExtent, T5: ToExtent> FromSpecImpl<(T0, T1, T2, T3, T4, T5)> for Extents {
    /// The vector of the selection is new, so the conversion is stated by
    /// the extents of its members.
    open spec fn obeys_from_spec() -> bool {
        false
    }

    open spec fn from_spec(t: (T0, T1, T2, T3, T4, T5)) -> Extents {
        Extents::All
    }
}

impl<T0: ToExtent, T1: ToExtent, T2: ToExtent, T3: ToExtent, T4: ToExtent, T5: ToExtent, T6: ToExtent> From<(T0, T1, T2, T3, T4, T5, T6)> for Extents {
    /// One extent per member of the tuple.
    fn from(t: (T0, T1, T2, T3, T4, T5, T6)) -> (r: Self)
        ensures
            r matches Extents::Extent(v) && v@.len() == 7 && t.0.selects(v@[0]) && t.1.selects(v@[1]) && t.2.selects(v@[2]) && t.3.selects(v@[3]) && t.4.selects(v@[4]) && t.5.selects(v@[5]) && t.6.selects(v@[6]),
    {
        let mut v: Vec<Extent> = Vec::new();
        v.push(t.0.to_extent());
        v.push(t.1.to_extent());
        v.push(t.2.to_extent());
        v.push(t.3.to_extent());
        v.push(t.4.to_extent());
        v.push(t.5.to_extent());
        v.push(t.6.to_extent());
        Extents::Extent(v)
    }
}

impl<T0: ToExtent, T1: ToExtent, T2: ToExtent, T3: ToExtent, T4: ToExtent, T5: ToExtent, T6: ToExtent> FromSpecImpl<(T0, T1, T2, T3, T4, T5, T6)> for Extents {
    /// The vector of the selection is new, so the conversion is stated by
    /// the extents of its members.
    open spec fn obeys_from_spec() -> bool {
        false
    }

    open spec fn from_spec(t: (T0, T1, T2, T3, T4, T5, T6)) -> Extents {
        Extents::All
    }
}

impl<T0: ToExtent, T1: ToExtent, T2: ToExtent, T3: ToExtent, T4: ToExtent, T5: ToExtent, T6: ToExtent, T7: ToExtent> From<(T0, T1, T2, T3, T4, T5, T6, T7)> for Extents {
    /// One extent per member of the tuple.
    fn from(t: (T0, T1, T2, T3, T4, T5, T6, T7)) -> (r: Self)
        ensures
            r matches Extents::Extent(v) && v@.len() == 8 && t.0.selects(v@[0]) && t.1.selects(v@[1]) && t.2.selects(v@[2]) && t.3.selects(v@[3]) && t.4.selects(v@[4]) && t.5.selects(v@[5]) && t.6.selects(v@[6]) && t.7.selects(v@[7]),
    {
        let mut v: Vec<Extent> = Vec::new();
        v.push(t.0.to_extent());
        v.push(t.1.to_extent());
        v.push(t.2.to_extent());
        v.push(t.3.to_extent());
        v.push(t.4.to_extent());
        v.push(t.5.to_extent());
        v.push(t.6.to_extent());
        v.push(t.7.to_extent());
        Extents::Extent(v)
    }
}

impl<T0: ToExtent, T1: ToExtent, T2: ToExtent, T3: ToExtent, T4: ToExtent, T5: ToExtent, T6: ToExtent, T7: ToExtent> FromSpecImpl<(T0, T1, T2, T3, T4, T5, T6, T7)> for Extents {
    /// The vector of the selection is new, so the conversion is stated by
    /// the extents of its members.
    open spec fn obeys_from_spec() -> bool {
        false
    }

    open spec fn from_spec(t: (T0, T1, T2, T3, T4, T5, T6, T7)) -> Extents {
        Extents::All
    }
}

impl<T0: ToExtent, T1: ToExtent, T2: ToExtent, T3: ToExtent, T4: ToExtent, T5: ToExtent, T6: ToExtent, T7: ToExtent, T8: ToExtent> From<(T0, T1, T2, T3, T4, T5, T6, T7, T8)> for Extents {
    /// One extent per member of the tuple.
    fn from(t: (T0, T1, T2, T3, T4, T5, T6, T7, T8)) -> (r: Self)
        ensures
            r matches Extents::Extent(v) && v@.len() == 9 && t.0.selects(v@[0]) && t.1.selects(v@[1]) && t.2.selects(v@[2]) && t.3.selects(v@[3]) && t.4.selects(v@[4]) && t.5.selects(v@[5]) && t.6.selects(v@[6]) && t.7.selects(v@[7]) && t.8.selects(v@[8]),
    {
        let mut v: Vec<Extent> = Vec::new();
        v.push(t.0.to_extent());
        v.push(t.1.to_extent());
        v.push(t.2.to_extent());
        v.push(t.3.to_extent());
        v.push(t.4.to_extent());
        v.push(t.5.to_extent());
        v.push(t.6.to_extent());
        v.push(t.7.to_extent());
        v.push(t.8.to_extent());
        Extents::Extent(v)
    }
}

impl<T0: ToExtent, T1: ToExtent, T2: ToExtent, T3: ToExtent, T4: ToExtent, T5: ToExtent, T6: ToExtent, T7: ToExtent, T8: ToExtent> FromSpecImpl<(T0, T1, T2, T3, T4, T5, T6, T7, T8)> for Extents {
    /// The vector of the selection is new, so the conversion is stated by
    /// the extents of its members.
    open spec fn obeys_from_spec() -> bool {
        false
    }

    open spec fn from_spec(t: (T0, T1, T2, T3, T4, T5, T6, T7, T8)) -> Extents {
        Extents::All
    }
}

impl<T0: ToExtent, T1: ToExtent, T2: ToExtent, T3: ToExtent, T4: ToExtent, T5: ToExtent, T6: ToExtent, T7: ToExtent, T8: ToExtent, T9: ToExtent> From<(T0, T1, T2, T3, T4, T5, T6, T7, T8, T9)> for Extents {
    /// One extent per member of the tuple.
    fn from(t: (T0, T1, T2, T3, T4, T5, T6, T7, T8, T9)) -> (r: Self)
        ensures
            r matches Extents::Extent(v) && v@.len() == 10 && t.0.selects(v@[0]) && t.1.selects(v@[1]) && t.2.selects(v@[2]) && t.3.selects(v@[3]) && t.4.selects(v@[4]) && t.5.selects(v@[5]) && t.6.selects(v@[6]) && t.7.selects(v@[7]) && t.8.selects(v@[8]) && t.9.selects(v@[9]),
    {
        let mut v: Vec<Extent> = Vec::new();
        v.push(t.0.to_extent());
        v.push(t.1.to_extent());
        v.push(t.2.to_extent());
        v.push(t.3.to_extent());
        v.push(t.4.to_extent());
        v.push(t.5.to_extent());
        v.push(t.6.to_extent());
        v.push(t.7.to_extent());
        v.push(t.8.to_extent());
        v.push(t.9.to_extent());
        Extents::Extent(v)
    }
}

impl<T0: ToExtent, T1: ToExtent, T2: ToExtent, T3: ToExtent, T4: ToExtent, T5: ToExtent, T6: ToExtent, T7: ToExtent, T8: ToExtent, T9: ToExtent> FromSpecImpl<(T0, T1, T2, T3, T4, T5, T6, T7, T8, T9)> for Extents {
    /// The vector of the selection is new, so the conversion is stated by
    /// the extents of its members.
    open spec fn obeys_from_spec() -> bool {
        false
    }

    open spec fn from_spec(t: (T0, T1, T2, T3, T4, T5, T6, T7, T8, T9)) -> Extents {
        Extents::All
    }
}

} // verus!
