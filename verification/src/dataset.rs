//! The contents of an open dataset: its groups, dimensions, variables,
//! attributes and user defined types, and the rules by which they are added
//! and found.
use vstd::prelude::*;

use crate::attribute::AttrData;
use crate::error::{Error, Result, NC_EBADNAME, NC_ENOTNC4, NC_EUNLIMIT};
use crate::names::same_name;
use crate::types::NcVariableType;
use crate::variable::Endianness;

verus! {

/// A group; the root group is the first and is its own parent.
#[derive(Debug)]
pub struct GroupEntry {
    pub name: String,
    pub parent: usize,
}

/// A dimension of a group.
#[derive(Debug)]
pub struct DimEntry {
    pub group: usize,
    pub name: String,
    /// Length given at creation; zero for an unlimited dimension
    pub len: usize,
    pub unlimited: bool,
}

/// A value written into a variable, at its index along each dimension.
#[derive(Debug)]
pub struct Cell {
    pub index: Vec<usize>,
    pub value: i128,
}

/// A string written into a variable of strings, at its index along each
/// dimension.
#[derive(Debug)]
pub struct TextCell {
    pub index: Vec<usize>,
    pub text: String,
}

/// A variable of a group.
#[derive(Debug)]
pub struct VarEntry {
    pub group: usize,
    pub name: String,
    /// Identifier of the type of the variable
    pub xtype: i32,
    /// The dimensions of the variable, by their position in the dataset
    pub dims: Vec<usize>,
    /// The values written into the variable so far
    pub cells: Vec<Cell>,
    /// The strings written into the variable so far
    pub texts: Vec<TextCell>,
    /// How the values are kept
    pub store: Storage,
}

/// How the values of a variable are kept: the byte order, the compression
/// (deflate level and shuffle), the chunk sizes, and the value that elements
/// never written hold, where these were set.
#[derive(Debug)]
pub struct Storage {
    pub endian: Endianness,
    pub deflate: Option<(i32, bool)>,
    pub chunks: Option<Vec<usize>>,
    pub fill: Option<i128>,
}

/// Nothing was set on how the values are kept.
pub open spec fn fresh_storage(s: Storage) -> bool {
    &&& s.endian == Endianness::Native
    &&& s.deflate is None
    &&& s.chunks is None
    &&& s.fill is None
}

impl VarEntry {
    /// Each value or string written sits at one index per dimension, a value
    /// fits the type of the variable, and no two values, nor two strings,
    /// sit at the same index; a fill value set fits the type too.
    pub open spec fn cells_wf(&self) -> bool {
        &&& self.store.fill matches Some(f) ==> crate::putget::in_type_range(self.xtype, f as int)
        &&& forall|j: int| 0 <= j < self.cells@.len() ==> (#[trigger] self.cells@[j]).index@.len() == self.dims@.len()
            && crate::putget::in_type_range(self.xtype, self.cells@[j].value as int)
        &&& forall|j: int, k: int| 0 <= j < self.cells@.len() && 0 <= k < self.cells@.len() && j != k
            ==> (#[trigger] self.cells@[j]).index@ != (#[trigger] self.cells@[k]).index@
        &&& forall|j: int| 0 <= j < self.texts@.len() ==> (#[trigger] self.texts@[j]).index@.len() == self.dims@.len()
        &&& forall|j: int, k: int| 0 <= j < self.texts@.len() && 0 <= k < self.texts@.len() && j != k
            ==> (#[trigger] self.texts@[j]).index@ != (#[trigger] self.texts@[k]).index@
    }
}

/// An attribute of a group, or of a variable of that group.
#[derive(Debug)]
pub struct AttrEntry {
    pub group: usize,
    pub var: Option<usize>,
    pub name: String,
    pub data: AttrData,
}

/// A user defined type of a group.
#[derive(Debug)]
pub struct TypeEntry {
    pub group: usize,
    pub descriptor: NcVariableType,
}

/// An open dataset.
#[derive(Debug)]
pub struct Dataset {
    pub groups: Vec<GroupEntry>,
    pub dims: Vec<DimEntry>,
    pub vars: Vec<VarEntry>,
    pub atts: Vec<AttrEntry>,
    pub types: Vec<TypeEntry>,
    /// The dataset has the `netCDF-4` data model (groups, user types)
    pub netcdf4: bool,
}

impl Dataset {
    /// The structure of the dataset holds: each group after the root has an
    /// earlier parent, every item belongs to an existing group, variables
    /// name existing dimensions, attributes of variables sit in the
    /// variable's group, and names are unique among the items of one kind
    /// in one place.
    pub open spec fn wf(&self) -> bool {
        &&& self.groups@.len() >= 1
        &&& self.groups@[0].parent == 0
        &&& forall|g: int| 1 <= g < self.groups@.len() ==> #[trigger] self.groups@[g].parent < g
        &&& forall|i: int| 0 <= i < self.dims@.len() ==> #[trigger] self.dims@[i].group < self.groups@.len()
        &&& forall|i: int| 0 <= i < self.vars@.len() ==> #[trigger] self.vars@[i].group < self.groups@.len()
        &&& forall|i: int| 0 <= i < self.vars@.len() ==> self.known_type(#[trigger] self.vars@[i].xtype)
        &&& forall|i: int| 0 <= i < self.vars@.len() ==> #[trigger] self.vars@[i].cells_wf()
        &&& forall|i: int, k: int| 0 <= i < self.vars@.len() && 0 <= k < self.vars@[i].dims@.len() ==> #[trigger] self.vars@[i].dims@[k] < self.dims@.len()
        &&& forall|i: int| 0 <= i < self.atts@.len() ==> #[trigger] self.atts@[i].group < self.groups@.len()
        &&& forall|i: int| 0 <= i < self.atts@.len() ==> match #[trigger] self.atts@[i].var {
            Some(v) => v < self.vars@.len() && self.vars@[v as int].group == self.atts@[i].group,
            None => true,
        }
        &&& forall|i: int| 0 <= i < self.types@.len() ==> #[trigger] self.types@[i].group < self.groups@.len()
        &&& self.types@.len() <= i32::MAX - NC_FIRSTUSERTYPEID
        &&& forall|i: int, j: int|
            1 <= i < self.groups@.len() && 1 <= j < self.groups@.len() && i != j
                && self.groups@[i].parent == self.groups@[j].parent ==> #[trigger] self.groups@[i].name@
                != #[trigger] self.groups@[j].name@
        &&& forall|i: int, j: int|
            0 <= i < self.dims@.len() && 0 <= j < self.dims@.len() && i != j && self.dims@[i].group
                == self.dims@[j].group ==> #[trigger] self.dims@[i].name@ != #[trigger] self.dims@[j].name@
        &&& forall|i: int, j: int|
            0 <= i < self.vars@.len() && 0 <= j < self.vars@.len() && i != j && self.vars@[i].group
                == self.vars@[j].group ==> #[trigger] self.vars@[i].name@ != #[trigger] self.vars@[j].name@
        &&& forall|i: int, j: int|
            0 <= i < self.atts@.len() && 0 <= j < self.atts@.len() && i != j && self.atts@[i].group
                == self.atts@[j].group && self.atts@[i].var == self.atts@[j].var ==> #[trigger] self.atts@[i].name@
                != #[trigger] self.atts@[j].name@
    }

    /// The type identifier names a basic type or one of the user defined types.
    pub open spec fn known_type(&self, xtype: i32) -> bool {
        crate::typedefs::basic_descriptor(xtype) is Some || (NC_FIRSTUSERTYPEID <= xtype
            < NC_FIRSTUSERTYPEID + self.types@.len())
    }

    /// The group `g` exists.
    pub open spec fn has_group(&self, g: int) -> bool {
        0 <= g < self.groups@.len()
    }

    /// The position of the child of group `g` called `name`, if it has one.
    pub open spec fn child(&self, g: int, name: Seq<char>) -> Option<int> {
        if exists|i: int|
            1 <= i < self.groups@.len() && self.groups@[i].parent == g && #[trigger] self.groups@[i].name@
                == name {
            Some(
                choose|i: int|
                    1 <= i < self.groups@.len() && self.groups@[i].parent == g && #[trigger] self.groups@[i].name@
                        == name,
            )
        } else {
            None
        }
    }

    /// The position of the dimension of group `g` called `name`, if it has one.
    pub open spec fn dim_here(&self, g: int, name: Seq<char>) -> Option<int> {
        if exists|i: int|
            0 <= i < self.dims@.len() && self.dims@[i].group == g && #[trigger] self.dims@[i].name@
                == name {
            Some(
                choose|i: int|
                    0 <= i < self.dims@.len() && self.dims@[i].group == g && #[trigger] self.dims@[i].name@
                        == name,
            )
        } else {
            None
        }
    }

    /// The position of the variable of group `g` called `name`, if it has one.
    pub open spec fn var_here(&self, g: int, name: Seq<char>) -> Option<int> {
        if exists|i: int|
            0 <= i < self.vars@.len() && self.vars@[i].group == g && #[trigger] self.vars@[i].name@
                == name {
            Some(
                choose|i: int|
                    0 <= i < self.vars@.len() && self.vars@[i].group == g && #[trigger] self.vars@[i].name@
                        == name,
            )
        } else {
            None
        }
    }

    /// The position of the attribute called `name` of group `g` (`var` is
    /// `None`) or of its variable `var`, if there is one.
    pub open spec fn att_here(&self, g: int, var: Option<usize>, name: Seq<char>) -> Option<int> {
        if exists|i: int|
            0 <= i < self.atts@.len() && self.atts@[i].group == g && self.atts@[i].var == var
                && #[trigger] self.atts@[i].name@ == name {
            Some(
                choose|i: int|
                    0 <= i < self.atts@.len() && self.atts@[i].group == g && self.atts@[i].var == var
                        && #[trigger] self.atts@[i].name@ == name,
            )
        } else {
            None
        }
    }

    /// The dimension called `name` seen from group `g`: the group's own, or
    /// else the one seen from its parent.
    pub open spec fn dim_visible(&self, g: int, name: Seq<char>) -> Option<int>
        decreases g,
    {
        match self.dim_here(g, name) {
            Some(d) => Some(d),
            None => if 0 < g < self.groups@.len() && self.groups@[g].parent < g {
                self.dim_visible(self.groups@[g].parent as int, name)
            } else {
                None
            },
        }
    }
}

/// A name that the C library refuses: the empty name.
pub open spec fn bad_name(name: Seq<char>) -> bool {
    name.len() == 0
}

impl Dataset {
    /// An empty dataset: the root group alone.
    pub fn new(netcdf4: bool) -> (r: Dataset)
        ensures
            r.wf(),
            r.groups@.len() == 1,
            r.dims@.len() == 0,
            r.vars@.len() == 0,
            r.atts@.len() == 0,
            r.types@.len() == 0,
            r.netcdf4 == netcdf4,
    {
        let mut groups: Vec<GroupEntry> = Vec::new();
        groups.push(GroupEntry { name: "/".to_owned(), parent: 0 });
        Dataset {
            groups,
            dims: Vec::new(),
            vars: Vec::new(),
            atts: Vec::new(),
            types: Vec::new(),
            netcdf4,
        }
    }

    /// The child of group `g` called `name`.
    pub fn find_child(&self, g: usize, name: &str) -> (r: Option<usize>)
        requires
            self.wf(),
        ensures
            r matches Some(i) ==> self.child(g as int, name@) == Some(i as int),
            r is None ==> self.child(g as int, name@) is None,
    {
        let mut i: usize = 1;
        while i < self.groups.len()
            invariant
                self.wf(),
                1 <= i <= self.groups@.len(),
                forall|k: int|
                    1 <= k < i ==> !(self.groups@[k].parent == g && #[trigger] self.groups@[k].name@
                        == name@),
            decreases self.groups@.len() - i,
        {
            if self.groups[i].parent == g && same_name(self.groups[i].name.as_str(), name) {
                assert(self.groups@[i as int].name@ == name@);
                return Some(i);
            }
            i = i + 1;
        }
        None
    }

    /// The dimension of group `g` called `name`.
    pub fn find_dim_here(&self, g: usize, name: &str) -> (r: Option<usize>)
        requires
            self.wf(),
        ensures
            r matches Some(i) ==> self.dim_here(g as int, name@) == Some(i as int),
            r is None ==> self.dim_here(g as int, name@) is None,
    {
        let mut i: usize = 0;
        while i < self.dims.len()
            invariant
                self.wf(),
                0 <= i <= self.dims@.len(),
                forall|k: int|
                    0 <= k < i ==> !(self.dims@[k].group == g && #[trigger] self.dims@[k].name@
                        == name@),
            decreases self.dims@.len() - i,
        {
            if self.dims[i].group == g && same_name(self.dims[i].name.as_str(), name) {
                assert(self.dims@[i as int].name@ == name@);
                return Some(i);
            }
            i = i + 1;
        }
        None
    }

    /// The variable of group `g` called `name`.
    pub fn find_var_here(&self, g: usize, name: &str) -> (r: Option<usize>)
        requires
            self.wf(),
        ensures
            r matches Some(i) ==> self.var_here(g as int, name@) == Some(i as int),
            r is None ==> self.var_here(g as int, name@) is None,
    {
        let mut i: usize = 0;
        while i < self.vars.len()
            invariant
                self.wf(),
                0 <= i <= self.vars@.len(),
                forall|k: int|
                    0 <= k < i ==> !(self.vars@[k].group == g && #[trigger] self.vars@[k].name@
                        == name@),
            decreases self.vars@.len() - i,
        {
            if self.vars[i].group == g && same_name(self.vars[i].name.as_str(), name) {
                assert(self.vars@[i as int].name@ == name@);
                return Some(i);
            }
            i = i + 1;
        }
        None
    }

    /// The attribute called `name` of group `g` or of its variable `var`.
    pub fn find_att_here(&self, g: usize, var: Option<usize>, name: &str) -> (r: Option<usize>)
        requires
            self.wf(),
        ensures
            r matches Some(i) ==> self.att_here(g as int, var, name@) == Some(i as int),
            r is None ==> self.att_here(g as int, var, name@) is None,
    {
        let mut i: usize = 0;
        while i < self.atts.len()
            invariant
                self.wf(),
                0 <= i <= self.atts@.len(),
                forall|k: int|
                    0 <= k < i ==> !(self.atts@[k].group == g && self.atts@[k].var == var
                        && #[trigger] self.atts@[k].name@ == name@),
            decreases self.atts@.len() - i,
        {
            if self.atts[i].group == g && self.atts[i].var == var && same_name(
                self.atts[i].name.as_str(),
                name,
            ) {
                assert(self.atts@[i as int].name@ == name@);
                return Some(i);
            }
            i = i + 1;
        }
        None
    }

    /// The dimension called `name` seen from group `g`.
    pub fn find_dim_visible(&self, g: usize, name: &str) -> (r: Option<usize>)
        requires
            self.wf(),
            g < self.groups@.len(),
        ensures
            r matches Some(i) ==> self.dim_visible(g as int, name@) == Some(i as int),
            r is None ==> self.dim_visible(g as int, name@) is None,
        decreases g,
    {
        match self.find_dim_here(g, name) {
            Some(d) => Some(d),
            None => {
                if g == 0 {
                    None
                } else {
                    self.find_dim_visible(self.groups[g].parent, name)
                }
            },
        }
    }
}


/// The dataset has a dimension of unlimited length.
pub open spec fn has_unlimited(ds: Dataset) -> bool {
    exists|i: int| 0 <= i < ds.dims@.len() && #[trigger] ds.dims@[i].unlimited
}

/// Why adding a group called `name` to group `g` is refused, if it is.
pub open spec fn add_group_error(ds: Dataset, g: int, name: Seq<char>) -> Option<Error> {
    if !ds.netcdf4 {
        Some(Error::Netcdf(NC_ENOTNC4))
    } else if bad_name(name) {
        Some(Error::Netcdf(NC_EBADNAME))
    } else if ds.child(g, name) is Some || ds.var_here(g, name) is Some {
        Some(Error::AlreadyExists)
    } else {
        None
    }
}

/// `new` is `old` with the group `c`, called `name`, added to group `g`.
pub open spec fn group_added(old: Dataset, new: Dataset, g: int, name: Seq<char>, c: int) -> bool {
    &&& c == old.groups@.len()
    &&& new.groups@.len() == c + 1
    &&& new.groups@.subrange(0, c) == old.groups@
    &&& new.groups@[c].parent == g
    &&& new.groups@[c].name@ == name
    &&& new.dims == old.dims
    &&& new.vars == old.vars
    &&& new.atts == old.atts
    &&& new.types == old.types
    &&& new.netcdf4 == old.netcdf4
    &&& new.child(g, name) == Some(c)
}

/// Why adding a dimension called `name` of length `len` to group `g` is
/// refused, if it is.
pub open spec fn add_dim_error(ds: Dataset, g: int, name: Seq<char>, len: usize) -> Option<Error> {
    if bad_name(name) {
        Some(Error::Netcdf(NC_EBADNAME))
    } else if !ds.netcdf4 && len == 0 && has_unlimited(ds) {
        Some(Error::Netcdf(NC_EUNLIMIT))
    } else if ds.dim_here(g, name) is Some {
        Some(Error::AlreadyExists)
    } else {
        None
    }
}

/// `new` is `old` with the dimension `d`, called `name`, of length `len`
/// (unlimited when zero), added to group `g`.
pub open spec fn dim_added(old: Dataset, new: Dataset, g: int, name: Seq<char>, len: usize, d: int) -> bool {
    &&& d == old.dims@.len()
    &&& new.dims@.len() == d + 1
    &&& new.dims@.subrange(0, d) == old.dims@
    &&& new.dims@[d].group == g
    &&& new.dims@[d].name@ == name
    &&& new.dims@[d].len == len
    &&& new.dims@[d].unlimited == (len == 0)
    &&& new.groups == old.groups
    &&& new.vars == old.vars
    &&& new.atts == old.atts
    &&& new.types == old.types
    &&& new.netcdf4 == old.netcdf4
    &&& new.dim_here(g, name) == Some(d)
}

/// Why adding a variable called `name` to group `g` is refused, if it is.
pub open spec fn add_var_error(ds: Dataset, g: int, name: Seq<char>) -> Option<Error> {
    if bad_name(name) {
        Some(Error::Netcdf(NC_EBADNAME))
    } else if ds.var_here(g, name) is Some || ds.child(g, name) is Some {
        Some(Error::AlreadyExists)
    } else {
        None
    }
}

/// `new` is `old` with the variable `v`, called `name`, of type `xtype`,
/// along the dimensions `dims` and with no values yet, added to group `g`.
pub open spec fn var_added(
    old: Dataset,
    new: Dataset,
    g: int,
    name: Seq<char>,
    xtype: i32,
    dims: Seq<usize>,
    v: int,
) -> bool {
    &&& v == old.vars@.len()
    &&& new.vars@.len() == v + 1
    &&& new.vars@.subrange(0, v) == old.vars@
    &&& new.vars@[v].group == g
    &&& new.vars@[v].name@ == name
    &&& new.vars@[v].xtype == xtype
    &&& new.vars@[v].dims@ == dims
    &&& new.vars@[v].cells@.len() == 0
    &&& new.vars@[v].texts@.len() == 0
    &&& fresh_storage(new.vars@[v].store)
    &&& new.groups == old.groups
    &&& new.dims == old.dims
    &&& new.atts == old.atts
    &&& new.types == old.types
    &&& new.netcdf4 == old.netcdf4
    &&& new.var_here(g, name) == Some(v)
}

/// `new` is `old` where the attribute `a`, called `name`, of group `g` (or of
/// its variable `var`) is written: the existing one of that name, or else a
/// new one; nothing else changes.
pub open spec fn att_written(old: Dataset, new: Dataset, g: int, var: Option<usize>, name: Seq<char>, a: int) -> bool {
    &&& new.att_here(g, var, name) == Some(a)
    &&& new.atts@.len() == old.atts@.len() + (if old.att_here(g, var, name) is Some {
        0int
    } else {
        1int
    })
    &&& forall|i: int| 0 <= i < old.atts@.len() && i != a ==> #[trigger] new.atts@[i] == old.atts@[i]
    &&& old.att_here(g, var, name) matches Some(i) ==> a == i
    &&& new.groups == old.groups
    &&& new.dims == old.dims
    &&& new.vars == old.vars
    &&& new.types == old.types
    &&& new.netcdf4 == old.netcdf4
}

impl Dataset {
    proof fn lemma_child_unique(&self, g: int, name: Seq<char>, i: int)
        requires
            self.wf(),
            1 <= i < self.groups@.len(),
            self.groups@[i].parent == g,
            self.groups@[i].name@ == name,
        ensures
            self.child(g, name) == Some(i),
    {
        let j = choose|j: int|
            1 <= j < self.groups@.len() && self.groups@[j].parent == g && #[trigger] self.groups@[j].name@
                == name;
        assert(self.groups@[i].name@ == name);
    }

    proof fn lemma_dim_unique(&self, g: int, name: Seq<char>, i: int)
        requires
            self.wf(),
            0 <= i < self.dims@.len(),
            self.dims@[i].group == g,
            self.dims@[i].name@ == name,
        ensures
            self.dim_here(g, name) == Some(i),
    {
        assert(self.dims@[i].name@ == name);
    }

    proof fn lemma_var_unique(&self, g: int, name: Seq<char>, i: int)
        requires
            self.wf(),
            0 <= i < self.vars@.len(),
            self.vars@[i].group == g,
            self.vars@[i].name@ == name,
        ensures
            self.var_here(g, name) == Some(i),
    {
        assert(self.vars@[i].name@ == name);
    }

    proof fn lemma_att_unique(&self, g: int, var: Option<usize>, name: Seq<char>, i: int)
        requires
            self.wf(),
            0 <= i < self.atts@.len(),
            self.atts@[i].group == g,
            self.atts@[i].var == var,
            self.atts@[i].name@ == name,
        ensures
            self.att_here(g, var, name) == Some(i),
    {
        assert(self.atts@[i].name@ == name);
    }

    fn any_unlimited(&self) -> (r: bool)
        ensures
            r == has_unlimited(*self),
    {
        let mut i: usize = 0;
        while i < self.dims.len()
            invariant
                i <= self.dims@.len(),
                forall|k: int| 0 <= k < i ==> !#[trigger] self.dims@[k].unlimited,
            decreases self.dims@.len() - i,
        {
            if self.dims[i].unlimited {
                return true;
            }
            i = i + 1;
        }
        false
    }

    /// Adds a child called `name` to group `g`: refused when the dataset has
    /// no groups (`NC_ENOTNC4`), for an empty name (`NC_EBADNAME`) and when a
    /// group or a variable of `g` has that name already.
    pub fn add_group(&mut self, g: usize, name: &str) -> (r: Result<usize>)
        requires
            old(self).wf(),
            g < old(self).groups@.len(),
        ensures
            final(self).wf(),
            match add_group_error(*old(self), g as int, name@) {
                Some(e) => r == Err::<usize, Error>(e) && *final(self) == *old(self),
                None => r matches Ok(c) && group_added(*old(self), *final(self), g as int, name@, c as int),
            },
    {
        if !self.netcdf4 {
            return Err(Error::Netcdf(NC_ENOTNC4));
        }
        if name.is_empty() {
            return Err(Error::Netcdf(NC_EBADNAME));
        }
        if self.find_child(g, name).is_some() || self.find_var_here(g, name).is_some() {
            return Err(Error::AlreadyExists);
        }
        let c = self.groups.len();
        self.groups.push(GroupEntry { name: name.to_owned(), parent: g });
        proof {
            assert(final(self).groups@.subrange(0, c as int) =~= old(self).groups@);
            assert forall|i: int, j: int|
                1 <= i < self.groups@.len() && 1 <= j < self.groups@.len() && i != j
                    && self.groups@[i].parent == self.groups@[j].parent implies #[trigger] self.groups@[i].name@
                != #[trigger] self.groups@[j].name@ by {
                if i == c {
                    assert(old(self).groups@[j] == self.groups@[j]);
                } else if j == c {
                    assert(old(self).groups@[i] == self.groups@[i]);
                } else {
                    assert(old(self).groups@[i] == self.groups@[i]);
                    assert(old(self).groups@[j] == self.groups@[j]);
                }
            }
            self.lemma_child_unique(g as int, name@, c as int);
        }
        Ok(c)
    }

    /// Adds a dimension called `name` to group `g`, unlimited when `len` is
    /// zero: refused for an empty name (`NC_EBADNAME`), for a second
    /// unlimited dimension of a dataset without groups (`NC_EUNLIMIT`), and
    /// when the group has a dimension of that name.
    pub fn add_dim(&mut self, g: usize, name: &str, len: usize) -> (r: Result<usize>)
        requires
            old(self).wf(),
            g < old(self).groups@.len(),
        ensures
            final(self).wf(),
            match add_dim_error(*old(self), g as int, name@, len) {
                Some(e) => r == Err::<usize, Error>(e) && *final(self) == *old(self),
                None => r matches Ok(d) && dim_added(*old(self), *final(self), g as int, name@, len, d as int),
            },
    {
        if name.is_empty() {
            return Err(Error::Netcdf(NC_EBADNAME));
        }
        if !self.netcdf4 && len == 0 && self.any_unlimited() {
            return Err(Error::Netcdf(NC_EUNLIMIT));
        }
        if self.find_dim_here(g, name).is_some() {
            return Err(Error::AlreadyExists);
        }
        let d = self.dims.len();
        self.dims.push(DimEntry { group: g, name: name.to_owned(), len, unlimited: len == 0 });
        proof {
            assert(final(self).dims@.subrange(0, d as int) =~= old(self).dims@);
            assert forall|i: int, j: int|
                0 <= i < self.dims@.len() && 0 <= j < self.dims@.len() && i != j
                    && self.dims@[i].group == self.dims@[j].group implies #[trigger] self.dims@[i].name@
                != #[trigger] self.dims@[j].name@ by {
                if i == d {
                    assert(old(self).dims@[j] == self.dims@[j]);
                } else if j == d {
                    assert(old(self).dims@[i] == self.dims@[i]);
                } else {
                    assert(old(self).dims@[i] == self.dims@[i]);
                    assert(old(self).dims@[j] == self.dims@[j]);
                }
            }
            assert forall|i: int, k: int|
                0 <= i < self.vars@.len() && 0 <= k < self.vars@[i].dims@.len() implies #[trigger] self.vars@[i].dims@[k]
                < self.dims@.len() by {
                assert(old(self).vars@[i].dims@[k] < old(self).dims@.len());
            }
            self.lemma_dim_unique(g as int, name@, d as int);
        }
        Ok(d)
    }

    /// Adds a variable called `name` of type `xtype` to group `g`, along the
    /// dimensions `dims`: refused for an empty name (`NC_EBADNAME`) and when
    /// a variable or a group of `g` has that name.
    pub fn add_var(&mut self, g: usize, name: &str, xtype: i32, dims: Vec<usize>) -> (r: Result<
        usize,
    >)
        requires
            old(self).wf(),
            g < old(self).groups@.len(),
            forall|k: int| 0 <= k < dims@.len() ==> #[trigger] dims@[k] < old(self).dims@.len(),
            old(self).known_type(xtype),
        ensures
            final(self).wf(),
            match add_var_error(*old(self), g as int, name@) {
                Some(e) => r == Err::<usize, Error>(e) && *final(self) == *old(self),
                None => r matches Ok(v) && var_added(*old(self), *final(self), g as int, name@, xtype, dims@, v as int),
            },
    {
        if name.is_empty() {
            return Err(Error::Netcdf(NC_EBADNAME));
        }
        if self.find_var_here(g, name).is_some() || self.find_child(g, name).is_some() {
            return Err(Error::AlreadyExists);
        }
        let v = self.vars.len();
        self.vars.push(
            VarEntry {
                group: g,
                name: name.to_owned(),
                xtype,
                dims,
                cells: Vec::new(),
                texts: Vec::new(),
                store: Storage { endian: Endianness::Native, deflate: None, chunks: None, fill: None },
            },
        );
        proof {
            assert(final(self).vars@.subrange(0, v as int) =~= old(self).vars@);
            assert forall|i: int, j: int|
                0 <= i < self.vars@.len() && 0 <= j < self.vars@.len() && i != j
                    && self.vars@[i].group == self.vars@[j].group implies #[trigger] self.vars@[i].name@
                != #[trigger] self.vars@[j].name@ by {
                if i == v {
                    assert(old(self).vars@[j] == self.vars@[j]);
                } else if j == v {
                    assert(old(self).vars@[i] == self.vars@[i]);
                } else {
                    assert(old(self).vars@[i] == self.vars@[i]);
                    assert(old(self).vars@[j] == self.vars@[j]);
                }
            }
            assert forall|i: int, k: int|
                0 <= i < self.vars@.len() && 0 <= k < self.vars@[i].dims@.len() implies #[trigger] self.vars@[i].dims@[k]
                < self.dims@.len() by {
                if i < v {
                    assert(old(self).vars@[i] == self.vars@[i]);
                }
            }
            assert forall|i: int| 0 <= i < self.atts@.len() implies match #[trigger] self.atts@[i].var {
                Some(w) => w < self.vars@.len() && self.vars@[w as int].group == self.atts@[i].group,
                None => true,
            } by {
                match self.atts@[i].var {
                    Some(w) => {
                        assert(old(self).vars@[w as int] == self.vars@[w as int]);
                    },
                    None => {},
                }
            }
            self.lemma_var_unique(g as int, name@, v as int);
        }
        Ok(v)
    }

    /// Writes the attribute called `name` of group `g` (or of its variable
    /// `var`): a new one, or the existing one replaced. Refused for an empty
    /// name (`NC_EBADNAME`).
    pub fn put_att(&mut self, g: usize, var: Option<usize>, name: &str, data: AttrData) -> (r:
        Result<usize>)
        requires
            old(self).wf(),
            g < old(self).groups@.len(),
            var matches Some(v) ==> v < old(self).vars@.len() && old(self).vars@[v as int].group
                == g,
        ensures
            final(self).wf(),
            bad_name(name@) ==> (r matches Err(Error::Netcdf(c)) && c == NC_EBADNAME),
            r is Err ==> *final(self) == *old(self),
            !bad_name(name@) ==> r is Ok,
            r matches Ok(a) ==> att_written(*old(self), *final(self), g as int, var, name@, a as int)
                && final(self).atts@[a as int].data == data,
    {
        if name.is_empty() {
            return Err(Error::Netcdf(NC_EBADNAME));
        }
        match self.find_att_here(g, var, name) {
            Some(a) => {
                self.atts[a].data = data;
                proof {
                    assert forall|i: int, j: int|
                        0 <= i < self.atts@.len() && 0 <= j < self.atts@.len() && i != j
                            && self.atts@[i].group == self.atts@[j].group && self.atts@[i].var
                            == self.atts@[j].var implies #[trigger] self.atts@[i].name@
                        != #[trigger] self.atts@[j].name@ by {
                        assert(old(self).atts@[i].name@ == self.atts@[i].name@);
                        assert(old(self).atts@[j].name@ == self.atts@[j].name@);
                    }
                    assert forall|i: int| 0 <= i < self.atts@.len() implies match #[trigger] self.atts@[i].var {
                        Some(w) => w < self.vars@.len() && self.vars@[w as int].group == self.atts@[i].group,
                        None => true,
                    } by {
                        assert(old(self).atts@[i].var == self.atts@[i].var);
                        assert(old(self).atts@[i].group == self.atts@[i].group);
                    }
                    assert(self.atts@[a as int].name@ == name@);
                    self.lemma_att_unique(g as int, var, name@, a as int);
                }
                Ok(a)
            },
            None => {
                let a = self.atts.len();
                self.atts.push(AttrEntry { group: g, var, name: name.to_owned(), data });
                proof {
                    assert forall|i: int, j: int|
                        0 <= i < self.atts@.len() && 0 <= j < self.atts@.len() && i != j
                            && self.atts@[i].group == self.atts@[j].group && self.atts@[i].var
                            == self.atts@[j].var implies #[trigger] self.atts@[i].name@
                        != #[trigger] self.atts@[j].name@ by {
                        if i == a {
                            assert(old(self).atts@[j] == self.atts@[j]);
                        } else if j == a {
                            assert(old(self).atts@[i] == self.atts@[i]);
                        } else {
                            assert(old(self).atts@[i] == self.atts@[i]);
                            assert(old(self).atts@[j] == self.atts@[j]);
                        }
                    }
                    assert forall|i: int| 0 <= i < self.atts@.len() implies match #[trigger] self.atts@[i].var {
                        Some(w) => w < self.vars@.len() && self.vars@[w as int].group == self.atts@[i].group,
                        None => true,
                    } by {
                        if i < a {
                            assert(old(self).atts@[i] == self.atts@[i]);
                        }
                    }
                    self.lemma_att_unique(g as int, var, name@, a as int);
                }
                Ok(a)
            },
        }
    }

    /// Adds a user defined type to group `g`; its identifier follows those
    /// of the basic types.
    pub fn add_type(&mut self, g: usize, descriptor: NcVariableType) -> (r: Result<i32>)
        requires
            old(self).wf(),
            g < old(self).groups@.len(),
        ensures
            final(self).wf(),
            !old(self).netcdf4 ==> (r matches Err(Error::Netcdf(c)) && c == NC_ENOTNC4),
            old(self).netcdf4 && old(self).types@.len() >= i32::MAX - NC_FIRSTUSERTYPEID ==> r matches Err(Error::Overflow),
            r is Err ==> *final(self) == *old(self),
            old(self).netcdf4 && old(self).types@.len() < i32::MAX - NC_FIRSTUSERTYPEID ==> r is Ok,
            r matches Ok(id) ==> {
                &&& id == NC_FIRSTUSERTYPEID + old(self).types@.len()
                &&& final(self).types@ == old(self).types@.push(TypeEntry { group: g, descriptor })
                &&& final(self).groups == old(self).groups
                &&& final(self).dims == old(self).dims
                &&& final(self).vars == old(self).vars
                &&& final(self).atts == old(self).atts
                &&& final(self).netcdf4 == old(self).netcdf4
            },
    {
        if !self.netcdf4 {
            return Err(Error::Netcdf(NC_ENOTNC4));
        }
        let n = self.types.len();
        if n >= (i32::MAX - NC_FIRSTUSERTYPEID) as usize {
            return Err(Error::Overflow);
        }
        self.types.push(TypeEntry { group: g, descriptor });
        Ok(NC_FIRSTUSERTYPEID + n as i32)
    }
}

/// The identifier of the first user defined type of a dataset.
pub const NC_FIRSTUSERTYPEID: i32 = 32;


/// The positions below `n` that `p` selects, in increasing order.
pub open spec fn select_upto(n: int, p: spec_fn(int) -> bool) -> Seq<int>
    decreases n,
{
    if n <= 0 {
        Seq::empty()
    } else {
        let before = select_upto(n - 1, p);
        if p(n - 1) {
            before.push(n - 1)
        } else {
            before
        }
    }
}

/// Dimensions that belong to group `g`.
pub open spec fn dim_in(ds: Dataset, g: int) -> spec_fn(int) -> bool {
    |i: int| ds.dims@[i].group == g
}

/// Variables that belong to group `g`.
pub open spec fn var_in(ds: Dataset, g: int) -> spec_fn(int) -> bool {
    |i: int| ds.vars@[i].group == g
}

/// Attributes of group `g` (`var` is `None`) or of its variable `var`.
pub open spec fn att_in(ds: Dataset, g: int, var: Option<usize>) -> spec_fn(int) -> bool {
    |i: int| ds.atts@[i].group == g && ds.atts@[i].var == var
}

/// Groups whose parent is group `g` (the root is nobody's child).
pub open spec fn group_in(ds: Dataset, g: int) -> spec_fn(int) -> bool {
    |i: int| i >= 1 && ds.groups@[i].parent == g
}

/// User defined types of group `g`.
pub open spec fn type_in(ds: Dataset, g: int) -> spec_fn(int) -> bool {
    |i: int| ds.types@[i].group == g
}

pub proof fn lemma_select_bounds(n: int, p: spec_fn(int) -> bool)
    ensures
        forall|k: int| 0 <= k < select_upto(n, p).len() ==> 0 <= #[trigger] select_upto(n, p)[k] < n && p(select_upto(n, p)[k]),
        select_upto(n, p).len() <= (if n < 0 { 0 } else { n }),
    decreases n,
{
    if n > 0 {
        lemma_select_bounds(n - 1, p);
    }
}

} // verus!
