//! Paths through the groups of a dataset: `a/b/name` names the item `name`
//! of the group `b` inside the group `a`.
use vstd::prelude::*;
use vstd::string::StringExecFns;

use crate::attribute::{
    data_of, lemma_attribute_roundtrip, nul_message, put_refused, read_view, roundtrips, stored_view,
    value_view, AttributeValue,
};
use crate::dataset::{
    add_dim_error, add_group_error, add_var_error, att_written, bad_name, dim_added, group_added,
    var_added, Dataset,
};
use crate::dimension::DimensionIdentifier;
use crate::error::{Error, Result, NC_EBADDIM, NC_EBADNAME, NC_EMAXNAME, NC_ENOTNC4};
use crate::names::{c_name, components, lemma_components_len, short_name_to_bytes, split_path, too_long};
use crate::typedefs::{find_type, type_lookup, TypeLookup};
use crate::types::NcVariableType;

verus! {

/// Where a walk down the groups of a dataset ends.
pub enum Walk {
    /// In the group at this position
    Found(int),
    /// A group on the way does not exist
    Missing,
    /// The C library refused a step with this status code
    Failed(i32),
}

/// The group that a step from group `g` to its child `name` reaches, as the
/// C library takes it: too long a name is refused (`NC_EMAXNAME`), a dataset
/// without groups refuses any step (`NC_ENOTNC4`).
pub open spec fn step(ds: Dataset, g: int, name: Seq<char>) -> Walk {
    if too_long(name) {
        Walk::Failed(NC_EMAXNAME)
    } else if !ds.netcdf4 {
        Walk::Failed(NC_ENOTNC4)
    } else {
        match ds.child(g, c_name(name)) {
            Some(c) => Walk::Found(c),
            None => Walk::Missing,
        }
    }
}

/// The walk from group `g` through the groups named by `comps`.
pub open spec fn walk(ds: Dataset, g: int, comps: Seq<Seq<char>>) -> Walk
    decreases comps.len(),
{
    if comps.len() == 0 {
        Walk::Found(g)
    } else {
        match step(ds, g, comps[0]) {
            Walk::Found(c) => walk(ds, c, comps.drop_first()),
            other => other,
        }
    }
}

/// The walk from group `g` to the group that holds the last component of
/// `path`.
pub open spec fn walk_to_parent(ds: Dataset, g: int, path: Seq<char>) -> Walk {
    walk(ds, g, components(path).drop_last())
}

/// The last component of a path: the name of the item itself.
pub open spec fn stem(path: Seq<char>) -> Seq<char> {
    components(path).last()
}

proof fn lemma_walk_in_range(ds: Dataset, g: int, comps: Seq<Seq<char>>)
    requires
        ds.wf(),
        0 <= g < ds.groups@.len(),
    ensures
        walk(ds, g, comps) matches Walk::Found(p) ==> 0 <= p < ds.groups@.len(),
    decreases comps.len(),
{
    if comps.len() > 0 {
        match step(ds, g, comps[0]) {
            Walk::Found(c) => {
                let name = c_name(comps[0]);
                assert(exists|i: int|
                    1 <= i < ds.groups@.len() && ds.groups@[i].parent == g
                        && #[trigger] ds.groups@[i].name@ == name);
                lemma_walk_in_range(ds, c, comps.drop_first());
            },
            _ => {},
        }
    }
}

/// Walks from group `g` to the group that holds the last component of
/// `path`, and gives that group and the last component.
pub fn resolve_parent(ds: &Dataset, g: usize, path: &str) -> (r: Result<Option<(usize, String)>>)
    requires
        ds.wf(),
        g < ds.groups@.len(),
    ensures
        walk_to_parent(*ds, g as int, path@) matches Walk::Found(p) ==> (r matches Ok(Some((q, s)))
            && q == p && s@ == stem(path@) && q < ds.groups@.len()),
        walk_to_parent(*ds, g as int, path@) is Missing ==> r matches Ok(None),
        walk_to_parent(*ds, g as int, path@) matches Walk::Failed(c) ==> (r matches Err(
            Error::Netcdf(d),
        ) && d == c),
{
    let parts = split_path(path);
    let ghost comps = components(path@);
    let n = parts.len();
    let mut cur: usize = g;
    let mut i: usize = 0;
    while i + 1 < n
        invariant
            ds.wf(),
            n == parts@.len(),
            n == comps.len(),
            n >= 1,
            i + 1 <= n,
            cur < ds.groups@.len(),
            comps == components(path@),
            forall|k: int| 0 <= k < n ==> #[trigger] parts@[k]@ == comps[k],
            walk(*ds, g as int, comps.drop_last()) == walk(
                *ds,
                cur as int,
                comps.subrange(i as int, n - 1),
            ),
        decreases n - i,
    {
        let ghost rest = comps.subrange(i as int, n - 1);
        assert(rest[0] == comps[i as int]);
        assert(rest.drop_first() =~= comps.subrange(i + 1, n - 1));
        let name = match short_name_to_bytes(parts[i].as_str()) {
            Ok(s) => s,
            Err(e) => {
                return Err(e);
            },
        };
        if !ds.netcdf4 {
            return Err(Error::Netcdf(NC_ENOTNC4));
        }
        match ds.find_child(cur, name.as_str()) {
            Some(c) => {
                proof {
                    lemma_walk_in_range(*ds, cur as int, seq![comps[i as int]]);
                    assert(seq![comps[i as int]].drop_first() =~= Seq::<Seq<char>>::empty());
                }
                cur = c;
            },
            None => {
                return Ok(None);
            },
        }
        i = i + 1;
    }
    assert(comps.subrange(i as int, n - 1) =~= Seq::<Seq<char>>::empty());
    let last = parts[n - 1].clone();
    Ok(Some((cur, last)))
}


/// A lookup by `path` from group `g` goes through: every step on the way is
/// taken, and the item's own name is not too long, wherever the walk ends in
/// a group.
pub open spec fn lookup_ok(ds: Dataset, g: int, path: Seq<char>) -> bool {
    match walk_to_parent(ds, g, path) {
        Walk::Failed(_) => false,
        Walk::Missing => true,
        Walk::Found(_) => !too_long(stem(path)),
    }
}

/// The variable that `path` names from group `g`.
pub open spec fn var_at(ds: Dataset, g: int, path: Seq<char>) -> Option<int> {
    match walk_to_parent(ds, g, path) {
        Walk::Found(p) => ds.var_here(p, c_name(stem(path))),
        _ => None,
    }
}

/// The dimension that `path` names from group `g`; the last group searches
/// its ancestors as well.
pub open spec fn dim_at(ds: Dataset, g: int, path: Seq<char>) -> Option<int> {
    match walk_to_parent(ds, g, path) {
        Walk::Found(p) => ds.dim_visible(p, c_name(stem(path))),
        _ => None,
    }
}

/// The attribute of a group that `path` names from group `g`.
pub open spec fn att_at(ds: Dataset, g: int, path: Seq<char>) -> Option<int> {
    match walk_to_parent(ds, g, path) {
        Walk::Found(p) => ds.att_here(p, None, c_name(stem(path))),
        _ => None,
    }
}

/// The variable named by `path` from group `g`.
pub fn variable_at(ds: &Dataset, g: usize, path: &str) -> (r: Option<usize>)
    requires
        ds.wf(),
        g < ds.groups@.len(),
        lookup_ok(*ds, g as int, path@),
    ensures
        r matches Some(v) ==> var_at(*ds, g as int, path@) == Some(v as int),
        r is None ==> var_at(*ds, g as int, path@) is None,
{
    match resolve_parent(ds, g, path) {
        Ok(Some((p, name))) => {
            match short_name_to_bytes(name.as_str()) {
                Ok(n) => ds.find_var_here(p, n.as_str()),
                Err(_) => None,
            }
        },
        _ => None,
    }
}

/// The dimension named by `path` from group `g`.
pub fn dimension_at(ds: &Dataset, g: usize, path: &str) -> (r: Option<usize>)
    requires
        ds.wf(),
        g < ds.groups@.len(),
        lookup_ok(*ds, g as int, path@),
    ensures
        r matches Some(d) ==> dim_at(*ds, g as int, path@) == Some(d as int) && d < ds.dims@.len(),
        r is None ==> dim_at(*ds, g as int, path@) is None,
{
    match resolve_parent(ds, g, path) {
        Ok(Some((p, name))) => {
            match short_name_to_bytes(name.as_str()) {
                Ok(n) => {
                    proof {
                        lemma_dim_visible_in_range(*ds, p as int, n@);
                    }
                    ds.find_dim_visible(p, n.as_str())
                },
                Err(_) => None,
            }
        },
        _ => None,
    }
}

/// The attribute of a group named by `path` from group `g`.
pub fn attribute_at(ds: &Dataset, g: usize, path: &str) -> (r: Option<usize>)
    requires
        ds.wf(),
        g < ds.groups@.len(),
        lookup_ok(*ds, g as int, path@),
    ensures
        r matches Some(a) ==> att_at(*ds, g as int, path@) == Some(a as int),
        r is None ==> att_at(*ds, g as int, path@) is None,
{
    match resolve_parent(ds, g, path) {
        Ok(Some((p, name))) => {
            match short_name_to_bytes(name.as_str()) {
                Ok(n) => ds.find_att_here(p, None, n.as_str()),
                Err(_) => None,
            }
        },
        _ => None,
    }
}

/// The message for a path through a group that does not exist.
pub open spec fn missing_group_message() -> Seq<char> {
    "One of the child groups does not exist"@
}

/// Walks from group `g` to the group that holds the last component of
/// `path`: an error when the C library refuses a step, or when a group on
/// the way does not exist.
pub fn parent_and_stem(ds: &Dataset, g: usize, path: &str) -> (r: Result<(usize, String)>)
    requires
        ds.wf(),
        g < ds.groups@.len(),
    ensures
        walk_to_parent(*ds, g as int, path@) matches Walk::Found(p) ==> (r matches Ok((q, s))
            && q == p && s@ == stem(path@) && q < ds.groups@.len()),
        walk_to_parent(*ds, g as int, path@) is Missing ==> (r matches Err(Error::Str(m)) && m@
            == missing_group_message()),
        walk_to_parent(*ds, g as int, path@) matches Walk::Failed(c) ==> (r matches Err(
            Error::Netcdf(d),
        ) && d == c),
{
    match resolve_parent(ds, g, path) {
        Ok(Some(found)) => Ok(found),
        Ok(None) => {
            let m = "One of the child groups does not exist";
            proof {
                reveal_strlit("One of the child groups does not exist");
            }
            Err(Error::Str(m.to_owned()))
        },
        Err(e) => Err(e),
    }
}

/// The group that `path` names from group `g`: reached when every step is
/// taken, `None` when its own group does not have it, an error when the C
/// library refuses a step or a group on the way does not exist.
pub open spec fn group_at(ds: Dataset, g: int, path: Seq<char>) -> Walk {
    match walk_to_parent(ds, g, path) {
        Walk::Found(p) => step(ds, p, stem(path)),
        other => other,
    }
}

/// The group named by `path` from group `g`.
pub fn group_at_path(ds: &Dataset, g: usize, path: &str) -> (r: Result<Option<usize>>)
    requires
        ds.wf(),
        g < ds.groups@.len(),
    ensures
        walk_to_parent(*ds, g as int, path@) is Missing ==> (r matches Err(Error::Str(m)) && m@
            == missing_group_message()),
        !(walk_to_parent(*ds, g as int, path@) is Missing) ==> match group_at(
            *ds,
            g as int,
            path@,
        ) {
            Walk::Found(c) => r matches Ok(Some(d)) && d == c && d < ds.groups@.len(),
            Walk::Missing => r matches Ok(None),
            Walk::Failed(c) => r matches Err(Error::Netcdf(d)) && d == c,
        },
{
    let (p, name) = parent_and_stem(ds, g, path)?;
    let n = short_name_to_bytes(name.as_str())?;
    if !ds.netcdf4 {
        return Err(Error::Netcdf(NC_ENOTNC4));
    }
    let r = ds.find_child(p, n.as_str());
    proof {
        if let Some(c) = r {
            lemma_walk_in_range(*ds, p as int, seq![name@]);
            assert(seq![name@].drop_first() =~= Seq::<Seq<char>>::empty());
        }
    }
    Ok(r)
}


/// The group and the name that a new item called by `path` from group `g`
/// gets: when every step is taken and the item's own name is not too long.
pub open spec fn path_target(ds: Dataset, g: int, path: Seq<char>) -> Option<(int, Seq<char>)> {
    match walk_to_parent(ds, g, path) {
        Walk::Found(p) => if too_long(stem(path)) {
            None
        } else {
            Some((p, c_name(stem(path))))
        },
        _ => None,
    }
}

/// The error that a path without a target gives: a missing group on the way,
/// a step that the C library refuses, or too long a name.
pub open spec fn path_refused<T>(ds: Dataset, g: int, path: Seq<char>, r: Result<T>) -> bool {
    match walk_to_parent(ds, g, path) {
        Walk::Missing => r matches Err(Error::Str(m)) && m@ == missing_group_message(),
        Walk::Failed(c) => r matches Err(Error::Netcdf(d)) && d == c,
        Walk::Found(_) => r matches Err(Error::Netcdf(d)) && d == NC_EMAXNAME,
    }
}

/// The group and the name of the C library for a new item called by `path`.
fn target_of(ds: &Dataset, g: usize, path: &str) -> (r: Result<(usize, String)>)
    requires
        ds.wf(),
        g < ds.groups@.len(),
    ensures
        path_target(*ds, g as int, path@) matches Some((p, n)) ==> (r matches Ok((q, s)) && q
            == p && s@ == n && q < ds.groups@.len()),
        path_target(*ds, g as int, path@) is None ==> path_refused(*ds, g as int, path@, r),
{
    let (p, name) = parent_and_stem(ds, g, path)?;
    let n = short_name_to_bytes(name.as_str())?;
    Ok((p, n))
}

/// The outcome of adding a dimension called by `path` from group `g`.
pub open spec fn dimension_outcome(old: Dataset, new: Dataset, g: int, path: Seq<char>, len: usize, r: Result<usize>) -> bool {
    match path_target(old, g, path) {
        None => path_refused(old, g, path, r) && new == old,
        Some((p, n)) => match add_dim_error(old, p, n, len) {
            Some(e) => r == Err::<usize, Error>(e) && new == old,
            None => r matches Ok(d) && dim_added(old, new, p, n, len, d as int),
        },
    }
}

/// Adds a dimension called by `path` from group `g`.
pub fn add_dimension_at_path(ds: &mut Dataset, g: usize, path: &str, len: usize) -> (r: Result<usize>)
    requires
        old(ds).wf(),
        g < old(ds).groups@.len(),
    ensures
        final(ds).wf(),
        dimension_outcome(*old(ds), *final(ds), g as int, path@, len, r),
{
    let (p, n) = target_of(ds, g, path)?;
    ds.add_dim(p, n.as_str(), len)
}

/// The groups of `new` extend those of `old`, which keep their positions, and
/// both have the same data model.
pub open spec fn groups_extend(old: Dataset, new: Dataset) -> bool {
    &&& old.groups@.len() <= new.groups@.len()
    &&& new.groups@.subrange(0, old.groups@.len() as int) == old.groups@
    &&& new.netcdf4 == old.netcdf4
}

proof fn lemma_child_extends(old: Dataset, new: Dataset, g: int, name: Seq<char>)
    requires
        old.wf(),
        new.wf(),
        groups_extend(old, new),
        old.child(g, name) is Some,
    ensures
        new.child(g, name) == old.child(g, name),
{
    let c = old.child(g, name).unwrap();
    assert(new.groups@[c] == old.groups@[c]) by {
        assert(new.groups@.subrange(0, old.groups@.len() as int)[c] == new.groups@[c]);
    }
    assert(new.groups@[c].name@ == name);
}

proof fn lemma_walk_extends(old: Dataset, new: Dataset, g: int, comps: Seq<Seq<char>>)
    requires
        old.wf(),
        new.wf(),
        groups_extend(old, new),
        walk(old, g, comps) is Found,
    ensures
        walk(new, g, comps) == walk(old, g, comps),
    decreases comps.len(),
{
    if comps.len() > 0 {
        if !too_long(comps[0]) && old.netcdf4 {
            lemma_child_extends(old, new, g, c_name(comps[0]));
            let c = old.child(g, c_name(comps[0])).unwrap();
            lemma_walk_extends(old, new, c, comps.drop_first());
        }
    }
}

proof fn lemma_walk_push(ds: Dataset, g: int, comps: Seq<Seq<char>>, x: Seq<char>)
    ensures
        walk(ds, g, comps.push(x)) == match walk(ds, g, comps) {
            Walk::Found(p) => step(ds, p, x),
            other => other,
        },
    decreases comps.len(),
{
    if comps.len() == 0 {
        assert(comps.push(x).drop_first() =~= Seq::<Seq<char>>::empty());
        assert(comps.push(x)[0] == x);
        assert(walk(ds, g, comps) == Walk::Found(g));
        match step(ds, g, x) {
            Walk::Found(c) => {
                assert(walk(ds, c, comps.push(x).drop_first()) == Walk::Found(c));
            },
            _ => {},
        }
    } else {
        assert(comps.push(x).drop_first() =~= comps.drop_first().push(x));
        assert(comps.push(x)[0] == comps[0]);
        assert(comps.push(x).len() > 0);
        match step(ds, g, comps[0]) {
            Walk::Found(c) => {
                lemma_walk_push(ds, c, comps.drop_first(), x);
                assert(walk(ds, g, comps.push(x)) == walk(ds, c, comps.push(x).drop_first()));
                assert(walk(ds, g, comps) == walk(ds, c, comps.drop_first()));
            },
            other => {
                assert(walk(ds, g, comps.push(x)) == other);
                assert(walk(ds, g, comps) == other);
            },
        }
    }
}

proof fn lemma_walk_concat(ds: Dataset, g: int, s1: Seq<Seq<char>>, s2: Seq<Seq<char>>)
    ensures
        walk(ds, g, s1 + s2) == match walk(ds, g, s1) {
            Walk::Found(p) => walk(ds, p, s2),
            other => other,
        },
    decreases s1.len(),
{
    if s1.len() == 0 {
        assert(s1 + s2 =~= s2);
    } else {
        assert((s1 + s2)[0] == s1[0]);
        assert((s1 + s2).drop_first() =~= s1.drop_first() + s2);
        match step(ds, g, s1[0]) {
            Walk::Found(c) => {
                lemma_walk_concat(ds, c, s1.drop_first(), s2);
            },
            _ => {},
        }
    }
}

proof fn lemma_prefix_extends(a: Dataset, b: Dataset, c: Dataset)
    requires
        groups_extend(a, b),
        groups_extend(b, c),
    ensures
        groups_extend(a, c),
{
    assert(c.groups@.subrange(0, a.groups@.len() as int) =~= b.groups@.subrange(
        0,
        a.groups@.len() as int,
    ));
}

/// A group added on the way holds nothing yet: it has no child, no
/// variable, and only a bad name refuses a group added to it.
proof fn lemma_fresh_group(start: Dataset, ds: Dataset, added: Seq<(int, Seq<char>)>, cur: int, name: Seq<char>)
    requires
        start.wf(),
        ds.wf(),
        groups_made(start, ds, added),
        added.len() > 0,
        cur == ds.groups@.len() - 1,
        ds.netcdf4,
    ensures
        ds.child(cur, name) is None,
        add_group_error(ds, cur, name) == new_group_error(start, cur, name, true),
{
    assert forall|i: int| 1 <= i < ds.groups@.len() implies !(ds.groups@[i].parent == cur && #[trigger] ds.groups@[i].name@ == name) by {
        assert(ds.groups@[i].parent < i);
    }
    assert forall|i: int| 0 <= i < ds.vars@.len() implies !(ds.vars@[i].group == cur && #[trigger] ds.vars@[i].name@ == name) by {
        assert(ds.vars@[i] == start.vars@[i]);
        assert(start.vars@[i].group < start.groups@.len());
    }
}

/// Adding one more group keeps `groups_made` with that group appended.
proof fn lemma_made_push(
    start: Dataset,
    before: Dataset,
    after: Dataset,
    added: Seq<(int, Seq<char>)>,
    cur: int,
    name: Seq<char>,
    c: int,
)
    requires
        groups_made(start, before, added),
        group_added(before, after, cur, name, c),
    ensures
        groups_made(start, after, added.push((cur, name))),
{
    let n = start.groups@.len() as int;
    let na = added.push((cur, name));
    assert(after.groups@.subrange(0, n) =~= start.groups@) by {
        assert(after.groups@.subrange(0, n) =~= after.groups@.subrange(0, c).subrange(0, n));
    }
    assert forall|k: int| 0 <= k < na.len() implies (#[trigger] after.groups@[n + k]).parent == na[k].0
        && after.groups@[n + k].name@ == na[k].1 by {
        if k < added.len() {
            assert(after.groups@[n + k] == after.groups@.subrange(0, c)[n + k]);
        }
    }
}

/// Adds the group called by `path` from group `g`, adding the groups on the
/// way that do not exist yet.
pub fn add_group_at_path(ds: &mut Dataset, g: usize, path: &str) -> (r: Result<usize>)
    requires
        old(ds).wf(),
        g < old(ds).groups@.len(),
    ensures
        final(ds).wf(),
        group_outcome(*old(ds), *final(ds), g as int, path@, r),
{
    let parts = split_path(path);
    let ghost comps = components(path@);
    let ghost start = *ds;
    let ghost mut added: Seq<(int, Seq<char>)> = Seq::empty();
    let n = parts.len();
    let mut cur: usize = g;
    let mut i: usize = 0;
    assert(comps.subrange(0, 0) =~= Seq::<Seq<char>>::empty());
    assert(start.groups@.subrange(0, start.groups@.len() as int) =~= start.groups@);
    while i + 1 < n
        invariant
            ds.wf(),
            start == *old(ds),
            start.wf(),
            n == parts@.len(),
            n == comps.len(),
            n >= 1,
            i + 1 <= n,
            cur < ds.groups@.len(),
            comps == components(path@),
            forall|k: int| 0 <= k < n ==> #[trigger] parts@[k]@ == comps[k],
            walk(*ds, g as int, comps.subrange(0, i as int)) == Walk::Found(cur as int),
            groups_extend(start, *ds),
            ds.dims == start.dims,
            ds.vars == start.vars,
            ds.atts == start.atts,
            ds.types == start.types,
            !start.netcdf4 ==> i == 0 && *ds == start,
            ds.groups@.len() > start.groups@.len() ==> !(walk(
                start,
                g as int,
                comps.drop_last(),
            ) is Found),
            ds.groups@.len() == start.groups@.len() ==> *ds == start,
            group_plan(start, comps, 0, g as int, Seq::empty()) == group_plan(start, comps, i as int, cur as int, added),
            groups_made(start, *ds, added),
            added.len() > 0 ==> cur == ds.groups@.len() - 1 && ds.netcdf4,
            added.len() == 0 ==> *ds == start,
        decreases n - i,
    {
        let ghost before = *ds;
        let ghost pre = comps.subrange(0, i as int);
        let ghost rest = comps.subrange(i as int, n - 1);
        proof {
            lemma_walk_push(*ds, g as int, pre, comps[i as int]);
            assert(pre.push(comps[i as int]) =~= comps.subrange(0, i + 1));
            assert(comps.drop_last() =~= pre + rest);
            lemma_walk_concat(*ds, g as int, pre, rest);
            assert(rest[0] == comps[i as int]);
        }
        let name = match short_name_to_bytes(parts[i].as_str()) {
            Ok(s) => s,
            Err(e) => {
                proof {
                    if ds.groups@.len() == start.groups@.len() {
                        lemma_walk_concat(start, g as int, pre, rest);
                    }
                    assert(parts@[i as int]@ == comps[i as int]);
                }
                return Err(e);
            },
        };
        if !ds.netcdf4 {
            proof {
                lemma_walk_concat(start, g as int, pre, rest);
            }
            return Err(Error::Netcdf(NC_ENOTNC4));
        }
        proof {
            if added.len() > 0 {
                lemma_fresh_group(start, *ds, added, cur as int, name@);
            }
        }
        match ds.find_child(cur, name.as_str()) {
            Some(c) => {
                proof {
                    lemma_walk_in_range(*ds, cur as int, seq![comps[i as int]]);
                    assert(seq![comps[i as int]].drop_first() =~= Seq::<Seq<char>>::empty());
                }
                cur = c;
            },
            None => {
                proof {
                    if ds.groups@.len() == start.groups@.len() {
                        lemma_walk_concat(start, g as int, pre, rest);
                        let s2 = rest.drop_first();
                        assert(rest =~= seq![comps[i as int]] + s2);
                        lemma_walk_concat(start, cur as int, seq![comps[i as int]], s2);
                        assert(seq![comps[i as int]].drop_first() =~= Seq::<Seq<char>>::empty());
                    }
                }
                let c = match ds.add_group(cur, name.as_str()) {
                    Ok(c) => c,
                    Err(e) => {
                        return Err(e);
                    },
                };
                proof {
                    lemma_prefix_extends(start, before, *ds);
                    lemma_walk_extends(before, *ds, g as int, pre);
                    lemma_walk_push(*ds, g as int, pre, comps[i as int]);
                    lemma_made_push(start, before, *ds, added, cur as int, name@, c as int);
                    added = added.push((cur as int, name@));
                }
                cur = c;
            },
        }
        i = i + 1;
    }
    proof {
        assert(comps.subrange(0, i as int) =~= comps.drop_last());
    }
    let ghost before = *ds;
    let last = match short_name_to_bytes(parts[n - 1].as_str()) {
        Ok(s) => s,
        Err(e) => {
            return Err(e);
        },
    };
    proof {
        if added.len() > 0 {
            lemma_fresh_group(start, *ds, added, cur as int, last@);
        }
    }
    let r = ds.add_group(cur, last.as_str());
    proof {
        if let Ok(c) = r {
            lemma_prefix_extends(start, before, *ds);
            lemma_walk_extends(before, *ds, g as int, comps.drop_last());
            lemma_walk_push(*ds, g as int, comps.drop_last(), comps[n - 1]);
            assert(comps.drop_last().push(comps[n - 1]) =~= comps);
            lemma_made_push(start, before, *ds, added, cur as int, last@, c as int);
        }
    }
    r
}


/// Where resolving dimension names from a group stops.
pub enum DimsFound {
    /// Every name was found: the dimensions, by their positions
    All(Seq<usize>),
    /// The name at this position is too long
    TooLong(int),
    /// No dimension of the name at this position is seen from the group
    Missing(int),
}

/// The dimensions called `names` as seen from group `g`, or the first name
/// that fails.
pub open spec fn resolve_dims(ds: Dataset, g: int, names: Seq<Seq<char>>) -> DimsFound
    decreases names.len(),
{
    if names.len() == 0 {
        DimsFound::All(Seq::empty())
    } else {
        match resolve_dims(ds, g, names.drop_last()) {
            DimsFound::All(ids) => {
                let k = names.len() - 1;
                if too_long(names[k]) {
                    DimsFound::TooLong(k)
                } else {
                    match ds.dim_visible(g, c_name(names[k])) {
                        Some(d) => DimsFound::All(ids.push(d as usize)),
                        None => DimsFound::Missing(k),
                    }
                }
            },
            other => other,
        }
    }
}

/// The text of each name.
pub open spec fn names_of(names: Seq<&str>) -> Seq<Seq<char>> {
    names.map_values(|s: &str| s@)
}

/// The message for a dimension name that is not found.
pub open spec fn missing_dimension_message(name: Seq<char>) -> Seq<char> {
    "dimensions "@ + name
}

/// The message for a dimension name that is not found.
fn format_missing_dimension(name: &str) -> (s: String)
    ensures
        s@ == missing_dimension_message(name@),
{
    let mut s = "dimensions ".to_owned();
    proof {
        reveal_strlit("dimensions ");
    }
    s.append(name);
    s
}

proof fn lemma_dims_in_range(ds: Dataset, g: int, names: Seq<Seq<char>>)
    requires
        ds.wf(),
        0 <= g < ds.groups@.len(),
    ensures
        resolve_dims(ds, g, names) matches DimsFound::All(ids) ==> ids.len() == names.len() && forall|k: int|
            0 <= k < ids.len() ==> #[trigger] ids[k] < ds.dims@.len(),
        resolve_dims(ds, g, names) matches DimsFound::Missing(k) ==> 0 <= k < names.len(),
    decreases names.len(),
{
    if names.len() > 0 {
        lemma_dims_in_range(ds, g, names.drop_last());
        let k = names.len() - 1;
        if !too_long(names[k]) {
            lemma_dim_visible_in_range(ds, g, c_name(names[k]));
        }
    }
}

proof fn lemma_dim_visible_in_range(ds: Dataset, g: int, name: Seq<char>)
    requires
        ds.wf(),
    ensures
        ds.dim_visible(g, name) matches Some(d) ==> 0 <= d < ds.dims@.len(),
    decreases g,
{
    match ds.dim_here(g, name) {
        Some(d) => {},
        None => {
            if 0 < g < ds.groups@.len() && ds.groups@[g].parent < g {
                lemma_dim_visible_in_range(ds, ds.groups@[g].parent as int, name);
            }
        },
    }
}

/// Resolves the names of dimensions as seen from group `g`.
pub fn dims_from_names(ds: &Dataset, g: usize, names: &[&str]) -> (r: Result<Vec<usize>>)
    requires
        ds.wf(),
        g < ds.groups@.len(),
    ensures
        match resolve_dims(*ds, g as int, names_of(names@)) {
            DimsFound::All(ids) => r matches Ok(v) && v@ == ids,
            DimsFound::TooLong(_) => r matches Err(Error::Netcdf(c)) && c == NC_EMAXNAME,
            DimsFound::Missing(k) => r matches Err(Error::NotFound(m)) && m@
                == missing_dimension_message(names@[k]@),
        },
        r matches Ok(v) ==> forall|k: int| 0 <= k < v@.len() ==> #[trigger] v@[k] < ds.dims@.len(),
{
    let ghost all = names_of(names@);
    let mut out: Vec<usize> = Vec::new();
    let mut i: usize = 0;
    proof {
        assert(all.subrange(0, 0) =~= Seq::<Seq<char>>::empty());
    }
    while i < names.len()
        invariant
            ds.wf(),
            g < ds.groups@.len(),
            i <= names@.len(),
            all == names_of(names@),
            resolve_dims(*ds, g as int, all.subrange(0, i as int)) == DimsFound::All(out@),
            forall|k: int| 0 <= k < out@.len() ==> #[trigger] out@[k] < ds.dims@.len(),
        decreases names@.len() - i,
    {
        let ghost pre = all.subrange(0, i as int + 1);
        proof {
            assert(pre.drop_last() =~= all.subrange(0, i as int));
            assert(pre[i as int] == names@[i as int]@);
        }
        let name = match short_name_to_bytes(names[i]) {
            Ok(n) => n,
            Err(e) => {
                proof {
                    lemma_resolve_prefix_stops(*ds, g as int, all, i as int + 1);
                }
                return Err(e);
            },
        };
        match ds.find_dim_visible(g, name.as_str()) {
            Some(d) => {
                proof {
                    lemma_dim_visible_in_range(*ds, g as int, name@);
                }
                out.push(d);
            },
            None => {
                proof {
                    lemma_resolve_prefix_stops(*ds, g as int, all, i as int + 1);
                }
                return Err(Error::NotFound(format_missing_dimension(names[i])));
            },
        }
        i = i + 1;
    }
    proof {
        assert(all.subrange(0, i as int) =~= all);
    }
    Ok(out)
}

proof fn lemma_resolve_prefix_stops(ds: Dataset, g: int, names: Seq<Seq<char>>, n: int)
    requires
        0 <= n <= names.len(),
        !(resolve_dims(ds, g, names.subrange(0, n)) is All),
    ensures
        resolve_dims(ds, g, names) == resolve_dims(ds, g, names.subrange(0, n)),
    decreases names.len() - n,
{
    if n < names.len() {
        assert(names.subrange(0, n + 1).drop_last() =~= names.subrange(0, n));
        assert(resolve_dims(ds, g, names.subrange(0, n + 1)) == resolve_dims(ds, g, names.subrange(0, n)));
        lemma_resolve_prefix_stops(ds, g, names, n + 1);
    } else {
        assert(names.subrange(0, n) =~= names);
    }
}


/// Adding a variable of type `t` by `path` from group `g` reaches the lookup
/// of its type, and that finds no type: the dimensions and the name passed,
/// and the group has no user defined type of the name of `t`.
pub open spec fn type_missing_for(ds: Dataset, g: int, path: Seq<char>, t: NcVariableType, dims: Seq<Seq<char>>) -> bool {
    match walk_to_parent(ds, g, path) {
        Walk::Found(p) => resolve_dims(ds, p, dims) is All && !too_long(stem(path))
            && type_lookup(ds, p, t) is Absent,
        _ => false,
    }
}

/// The outcome of adding a variable called by `path` from group `g`, of type
/// `t`, along the dimensions called `dims`.
pub open spec fn add_variable_outcome(
    old: Dataset,
    new: Dataset,
    g: int,
    path: Seq<char>,
    t: NcVariableType,
    dims: Seq<Seq<char>>,
    r: Result<usize>,
) -> bool {
    match walk_to_parent(old, g, path) {
        Walk::Missing => new == old && (r matches Err(Error::Str(m)) && m@
            == missing_group_message()),
        Walk::Failed(c) => new == old && (r matches Err(Error::Netcdf(d)) && d == c),
        Walk::Found(p) => match resolve_dims(old, p, dims) {
            DimsFound::TooLong(_) => new == old && (r matches Err(Error::Netcdf(c)) && c
                == NC_EMAXNAME),
            DimsFound::Missing(k) => new == old && (r matches Err(Error::NotFound(m)) && m@
                == missing_dimension_message(dims[k])),
            DimsFound::All(ids) => if too_long(stem(path)) {
                new == old && (r matches Err(Error::Netcdf(c)) && c == NC_EMAXNAME)
            } else {
                match type_lookup(old, p, t) {
                    TypeLookup::TooLong => new == old && (r matches Err(Error::Netcdf(c)) && c
                        == NC_EMAXNAME),
                    TypeLookup::Different => new == old && (r matches Err(Error::Str(_))),
                    TypeLookup::Absent => false,
                    TypeLookup::Id(x) => match add_var_error(old, p, c_name(stem(path))) {
                        Some(e) => new == old && r == Err::<usize, Error>(e),
                        None => r matches Ok(v) && var_added(
                            old,
                            new,
                            p,
                            c_name(stem(path)),
                            x,
                            ids,
                            v as int,
                        ),
                    },
                }
            },
        },
    }
}

/// Adds a variable called by `path` from group `g`, of type `t`, along the
/// dimensions called `dims` (each seen from the variable's group).
pub fn add_variable_at_path(
    ds: &mut Dataset,
    g: usize,
    path: &str,
    t: &NcVariableType,
    dims: &[&str],
) -> (r: Result<usize>)
    requires
        old(ds).wf(),
        g < old(ds).groups@.len(),
        !type_missing_for(*old(ds), g as int, path@, *t, names_of(dims@)),
    ensures
        final(ds).wf(),
        add_variable_outcome(*old(ds), *final(ds), g as int, path@, *t, names_of(dims@), r),
{
    let (p, name) = parent_and_stem(ds, g, path)?;
    let ids = match dims_from_names(ds, p, dims) {
        Ok(v) => v,
        Err(e) => {
            proof {
                lemma_dims_in_range(*ds, p as int, names_of(dims@));
                if let DimsFound::Missing(k) = resolve_dims(*ds, p as int, names_of(dims@)) {
                    assert(names_of(dims@)[k] == dims@[k]@);
                }
            }
            return Err(e);
        },
    };
    let n = short_name_to_bytes(name.as_str())?;
    let xtype = match find_type(ds, p, t)? {
        Some(x) => {
            proof {
                crate::typedefs::lemma_lookup_known(*ds, p as int, *t);
            }
            x
        },
        None => {
            return Err(Error::TypeMismatch);
        },
    };
    ds.add_var(p, n.as_str(), xtype, ids)
}


/// The outcome of writing the value `v` as the attribute called `name` (the
/// C library's name) of group `g` or of its variable `var`.
pub open spec fn attribute_outcome(
    old: Dataset,
    new: Dataset,
    g: int,
    var: Option<usize>,
    name: Seq<char>,
    v: AttributeValue,
    r: Result<usize>,
) -> bool {
    if put_refused(v) {
        new == old && (r matches Err(Error::Str(m)) && m@ == nul_message())
    } else if bad_name(name) {
        new == old && (r matches Err(Error::Netcdf(c)) && c == NC_EBADNAME)
    } else {
        r matches Ok(a) && att_written(old, new, g, var, name, a as int) && stored_view(
            new.atts@[a as int].data,
        ) == value_view(v).1
    }
}

/// Writes the value `v` as the attribute called by `path` from group `g`.
pub fn put_attribute_at_path(ds: &mut Dataset, g: usize, path: &str, v: AttributeValue) -> (r: Result<usize>)
    requires
        old(ds).wf(),
        g < old(ds).groups@.len(),
    ensures
        final(ds).wf(),
        match path_target(*old(ds), g as int, path@) {
            None => path_refused(*old(ds), g as int, path@, r) && *final(ds) == *old(ds),
            Some((p, n)) => attribute_outcome(*old(ds), *final(ds), p, None, n, v, r),
        },
{
    let (p, n) = target_of(ds, g, path)?;
    let data = data_of(v)?;
    ds.put_att(p, None, n.as_str(), data)
}

/// Writes the value `v` as the attribute called `name` of variable `var`.
pub fn put_var_attribute(ds: &mut Dataset, var: usize, name: &str, v: AttributeValue) -> (r: Result<usize>)
    requires
        old(ds).wf(),
        var < old(ds).vars@.len(),
    ensures
        final(ds).wf(),
        too_long(name@) ==> (r matches Err(Error::Netcdf(c)) && c == NC_EMAXNAME) && *final(ds) == *old(ds),
        !too_long(name@) ==> attribute_outcome(
            *old(ds),
            *final(ds),
            old(ds).vars@[var as int].group as int,
            Some(var),
            c_name(name@),
            v,
            r,
        ),
{
    let n = short_name_to_bytes(name)?;
    let data = data_of(v)?;
    let g = ds.vars[var].group;
    ds.put_att(g, Some(var), n.as_str(), data)
}

/// Why a new group called `name` cannot be added to group `g`: where `g`
/// was itself added on the way (`fresh`), it holds nothing yet, so only a bad
/// name refuses it.
pub open spec fn new_group_error(old: Dataset, g: int, name: Seq<char>, fresh: bool) -> Option<Error> {
    if fresh {
        if bad_name(name) {
            Some(Error::Netcdf(NC_EBADNAME))
        } else {
            None
        }
    } else {
        add_group_error(old, g, name)
    }
}

/// What adding the groups named by `comps` from position `i` on does, having
/// reached group `cur` and added the groups `added` (each a parent and a
/// name) so far: every component but the last is the child of that name of
/// the group reached, which is added where it does not exist yet; the last
/// is added. A name too long, a dataset without groups, or a group that
/// cannot be added stops it with that error; the groups added before stay.
/// Gives the groups added and the result.
pub open spec fn group_plan(
    old: Dataset,
    comps: Seq<Seq<char>>,
    i: int,
    cur: int,
    added: Seq<(int, Seq<char>)>,
) -> (Seq<(int, Seq<char>)>, Result<usize>)
    decreases comps.len() - i,
{
    if i < 0 || i >= comps.len() {
        (added, Ok(cur as usize))
    } else {
        let name = comps[i];
        let fresh = added.len() > 0;
        let next = (old.groups@.len() + added.len()) as int;
        if too_long(name) {
            (added, Err(Error::Netcdf(NC_EMAXNAME)))
        } else if i + 1 < comps.len() {
            if !fresh && !old.netcdf4 {
                (added, Err(Error::Netcdf(NC_ENOTNC4)))
            } else if !fresh && old.child(cur, c_name(name)) is Some {
                group_plan(old, comps, i + 1, old.child(cur, c_name(name)).unwrap(), added)
            } else {
                match new_group_error(old, cur, c_name(name), fresh) {
                    Some(e) => (added, Err(e)),
                    None => group_plan(old, comps, i + 1, next, added.push((cur, c_name(name)))),
                }
            }
        } else {
            match new_group_error(old, cur, c_name(name), fresh) {
                Some(e) => (added, Err(e)),
                None => (added.push((cur, c_name(name))), Ok(next as usize)),
            }
        }
    }
}

/// `new` is `old` with the groups `added` (each a parent and a name)
/// appended, in order, and nothing else changed.
pub open spec fn groups_made(old: Dataset, new: Dataset, added: Seq<(int, Seq<char>)>) -> bool {
    &&& new.groups@.len() == old.groups@.len() + added.len()
    &&& new.groups@.subrange(0, old.groups@.len() as int) == old.groups@
    &&& forall|k: int| 0 <= k < added.len() ==> (#[trigger] new.groups@[old.groups@.len() + k]).parent == added[k].0
        && new.groups@[old.groups@.len() + k].name@ == added[k].1
    &&& new.dims == old.dims
    &&& new.vars == old.vars
    &&& new.atts == old.atts
    &&& new.types == old.types
    &&& new.netcdf4 == old.netcdf4
}

/// Adding the group called by `path` from group `g` adds the groups of
/// `group_plan` and gives its result.
pub open spec fn group_plan_kept(old: Dataset, new: Dataset, g: int, path: Seq<char>, r: Result<usize>) -> bool {
    let (added, res) = group_plan(old, components(path), 0, g, Seq::empty());
    groups_made(old, new, added) && r == res
}

/// The outcome of adding the group called by `path` from group `g`, adding
/// the missing groups on the way.
pub open spec fn group_outcome(old: Dataset, new: Dataset, g: int, path: Seq<char>, r: Result<usize>) -> bool {
    &&& group_plan_kept(old, new, g, path, r)
    &&& !old.netcdf4 ==> (r matches Err(Error::Netcdf(c)) && c == (if too_long(components(path)[0]) {
        NC_EMAXNAME
    } else {
        NC_ENOTNC4
    })) && new == old
    &&& walk_to_parent(old, g, path) is Found ==> {
        &&& path_target(old, g, path) is None ==> path_refused(old, g, path, r) && new == old
        &&& path_target(old, g, path) matches Some((p, n)) ==> match add_group_error(old, p, n) {
            Some(e) => r == Err::<usize, Error>(e) && new == old,
            None => r matches Ok(c) && group_added(old, new, p, n, c as int),
        }
    }
    &&& r matches Ok(c) ==> {
        &&& walk(new, g, components(path)) == Walk::Found(c as int)
        &&& c + 1 == new.groups@.len()
        &&& groups_extend(old, new)
        &&& new.dims == old.dims
        &&& new.vars == old.vars
        &&& new.atts == old.atts
        &&& new.types == old.types
    }
}


/// Group `a` is group `g` or one of its ancestors.
pub open spec fn is_ancestor(ds: Dataset, a: int, g: int) -> bool
    decreases g,
{
    if a == g {
        true
    } else if 0 < g < ds.groups@.len() && ds.groups@[g].parent < g {
        is_ancestor(ds, a, ds.groups@[g].parent as int)
    } else {
        false
    }
}

fn ancestor(ds: &Dataset, a: usize, g: usize) -> (r: bool)
    requires
        ds.wf(),
        g < ds.groups@.len(),
    ensures
        r == is_ancestor(*ds, a as int, g as int),
    decreases g,
{
    if a == g {
        true
    } else if g == 0 {
        false
    } else {
        ancestor(ds, a, ds.groups[g].parent)
    }
}

/// The identifier names a dimension that group `g` sees: its own or one of
/// an ancestor.
pub open spec fn dim_id_visible(ds: Dataset, g: int, id: DimensionIdentifier) -> bool {
    id.dimid < ds.dims@.len() && is_ancestor(ds, ds.dims@[id.dimid as int].group as int, g)
}

/// The positions of the dimensions that identifiers name.
pub open spec fn dim_ids(ids: Seq<DimensionIdentifier>) -> Seq<usize> {
    ids.map_values(|i: DimensionIdentifier| i.dimid)
}

/// The outcome of adding a variable called by `path` from group `g`, of type
/// `t`, along the dimensions that `ids` identify: the type is looked up from
/// group `g` itself (`at_group`) or from the variable's group, and a type
/// not found there is refused with the message `absent`.
pub open spec fn add_variable_ids_outcome(
    old: Dataset,
    new: Dataset,
    g: int,
    path: Seq<char>,
    t: NcVariableType,
    ids: Seq<DimensionIdentifier>,
    at_group: bool,
    absent: Seq<char>,
    r: Result<usize>,
) -> bool {
    match walk_to_parent(old, g, path) {
        Walk::Missing => new == old && (r matches Err(Error::Str(m)) && m@
            == missing_group_message()),
        Walk::Failed(c) => new == old && (r matches Err(Error::Netcdf(d)) && d == c),
        Walk::Found(p) => match type_lookup(old, if at_group {
            g
        } else {
            p
        }, t) {
            TypeLookup::TooLong => new == old && (r matches Err(Error::Netcdf(c)) && c == NC_EMAXNAME),
            TypeLookup::Different => new == old && (r matches Err(Error::Str(_))),
            TypeLookup::Absent => new == old && (r matches Err(Error::Str(m)) && m@ == absent),
            TypeLookup::Id(x) => if too_long(stem(path)) {
                new == old && (r matches Err(Error::Netcdf(c)) && c == NC_EMAXNAME)
            } else if exists|k: int| 0 <= k < ids.len() && !dim_id_visible(old, p, #[trigger] ids[k]) {
                new == old && (r matches Err(Error::Netcdf(c)) && c == NC_EBADDIM)
            } else {
                match add_var_error(old, p, c_name(stem(path))) {
                    Some(e) => new == old && r == Err::<usize, Error>(e),
                    None => r matches Ok(v) && var_added(old, new, p, c_name(stem(path)), x, dim_ids(ids), v as int),
                }
            },
        },
    }
}

/// The message for a type that the variable's group does not know, where
/// a group looks a type up for a variable that it is given a descriptor of.
pub open spec fn type_undefined_message() -> Seq<char> {
    "Type is not defined"@
}

/// The message for a type that the group does not know.
pub open spec fn type_absent_message() -> Seq<char> {
    "Type not found at this location"@
}

/// Adds a variable called by `path` from group `g`, of type `t` as found
/// from group `g` (`at_group`) or from the variable's group, along the
/// dimensions that `ids` identify.
pub fn add_variable_from_ids_at_path(
    ds: &mut Dataset,
    g: usize,
    path: &str,
    t: &NcVariableType,
    ids: &[DimensionIdentifier],
    at_group: bool,
    absent: &str,
) -> (r: Result<usize>)
    requires
        old(ds).wf(),
        g < old(ds).groups@.len(),
    ensures
        final(ds).wf(),
        add_variable_ids_outcome(*old(ds), *final(ds), g as int, path@, *t, ids@, at_group, absent@, r),
{
    let (p, name) = parent_and_stem(ds, g, path)?;
    let tg = if at_group {
        g
    } else {
        p
    };
    let xtype = match find_type(ds, tg, t)? {
        Some(x) => {
            proof {
                crate::typedefs::lemma_lookup_known(*ds, tg as int, *t);
            }
            x
        },
        None => {
            return Err(Error::Str(absent.to_owned()));
        },
    };
    let n = short_name_to_bytes(name.as_str())?;
    let mut dims: Vec<usize> = Vec::new();
    let mut i: usize = 0;
    while i < ids.len()
        invariant
            ds.wf(),
            *ds == *old(ds),
            walk_to_parent(*old(ds), g as int, path@) == Walk::Found(p as int),
            tg == (if at_group {
                g
            } else {
                p
            }),
            type_lookup(*old(ds), tg as int, *t) == TypeLookup::Id(xtype),
            !too_long(stem(path@)),
            n@ == c_name(stem(path@)),
            old(ds).known_type(xtype),
            p < ds.groups@.len(),
            i <= ids@.len(),
            dims@ == dim_ids(ids@).subrange(0, i as int),
            forall|k: int| 0 <= k < i ==> dim_id_visible(*ds, p as int, #[trigger] ids@[k]),
        decreases ids@.len() - i,
    {
        let id = ids[i];
        if id.dimid >= ds.dims.len() || !ancestor(ds, ds.dims[id.dimid].group, p) {
            assert(!dim_id_visible(*ds, p as int, ids@[i as int]));
            assert(exists|k: int| 0 <= k < ids@.len() && !dim_id_visible(*old(ds), p as int, #[trigger] ids@[k]));
            return Err(Error::Netcdf(NC_EBADDIM));
        }
        dims.push(id.dimid);
        i = i + 1;
    }
    assert(dims@ =~= dim_ids(ids@));
    ds.add_var(p, n.as_str(), xtype, dims)
}

/// A dimension that was added is found: after adding the dimension called
/// by `path` from group `g` gave `d`, looking `path` up from `g` finds `d`,
/// of the length it was given, unlimited when that length is zero; adding
/// `path` again is refused, whatever the length.
pub proof fn lemma_added_dimension_found(old: Dataset, new: Dataset, g: int, path: Seq<char>, len: usize, d: usize)
    requires
        old.wf(),
        new.wf(),
        0 <= g < old.groups@.len(),
        dimension_outcome(old, new, g, path, len, Ok(d)),
    ensures
        dim_at(new, g, path) == Some(d as int),
        new.dims@[d as int].len == len,
        new.dims@[d as int].unlimited == (len == 0),
        path_target(new, g, path) matches Some((p, n)) && forall|l: usize| #[trigger] add_dim_error(new, p, n, l) is Some,
{
    assert(new.groups@.subrange(0, old.groups@.len() as int) =~= old.groups@);
    lemma_walk_extends(old, new, g, components(path).drop_last());
}

/// A variable that was added is found: after adding the variable called by
/// `path` from group `g` gave `v`, looking `path` up from `g` finds `v`,
/// with as many dimensions as were named and no values written; adding
/// `path` again is refused.
pub proof fn lemma_added_variable_found(
    old: Dataset,
    new: Dataset,
    g: int,
    path: Seq<char>,
    t: NcVariableType,
    dims: Seq<Seq<char>>,
    v: usize,
)
    requires
        old.wf(),
        new.wf(),
        0 <= g < old.groups@.len(),
        add_variable_outcome(old, new, g, path, t, dims, Ok(v)),
    ensures
        var_at(new, g, path) == Some(v as int),
        new.vars@[v as int].dims@.len() == dims.len(),
        new.vars@[v as int].cells@.len() == 0,
        path_target(new, g, path) matches Some((p, n)) && add_var_error(new, p, n) is Some,
{
    let p = walk_to_parent(old, g, path)->Found_0;
    lemma_walk_in_range(old, g, components(path).drop_last());
    lemma_dims_in_range(old, p, dims);
    assert(new.groups@.subrange(0, old.groups@.len() as int) =~= old.groups@);
    lemma_walk_extends(old, new, g, components(path).drop_last());
}

/// A group that was added is found: after adding the group called by `path`
/// from group `g` gave `c`, looking `path` up from `g` finds `c`.
pub proof fn lemma_added_group_found(old: Dataset, new: Dataset, g: int, path: Seq<char>, c: usize)
    requires
        group_outcome(old, new, g, path, Ok(c)),
    ensures
        group_at(new, g, path) == Walk::Found(c as int),
{
    let comps = components(path);
    lemma_components_len(path, 0);
    assert(comps.drop_last().push(comps.last()) =~= comps);
    lemma_walk_push(new, g, comps.drop_last(), comps.last());
}

/// What is written as an attribute is read back: after writing the value
/// `v` as the attribute called by `path` from group `g` gave `a`, looking
/// `path` up from `g` finds `a`, whose value reads back as `v` when `v`
/// round-trips (see `roundtrips`).
pub proof fn lemma_attribute_put_then_read(
    old: Dataset,
    new: Dataset,
    g: int,
    path: Seq<char>,
    v: AttributeValue,
    a: usize,
)
    requires
        old.wf(),
        new.wf(),
        0 <= g < old.groups@.len(),
        match path_target(old, g, path) {
            None => path_refused(old, g, path, Ok::<usize, Error>(a)) && new == old,
            Some((p, n)) => attribute_outcome(old, new, p, None, n, v, Ok(a)),
        },
    ensures
        att_at(new, g, path) == Some(a as int),
        roundtrips(v) ==> read_view(stored_view(new.atts@[a as int].data)) == value_view(v),
{
    assert(new.groups@.subrange(0, old.groups@.len() as int) =~= old.groups@);
    lemma_walk_extends(old, new, g, components(path).drop_last());
    lemma_attribute_roundtrip(v);
}

/// The names on a path fit: none too long, none empty.
pub open spec fn path_names_fit(comps: Seq<Seq<char>>) -> bool {
    forall|k: int| 0 <= k < comps.len() ==> !too_long(#[trigger] comps[k]) && !bad_name(c_name(comps[k]))
}

/// No group that the path reaches holds a variable of the name of the next
/// step.
pub open spec fn no_variable_in_the_way(ds: Dataset, g: int, comps: Seq<Seq<char>>) -> bool {
    forall|k: int|
        0 <= k < comps.len() ==> match #[trigger] walk(ds, g, comps.take(k)) {
            Walk::Found(p) => ds.var_here(p, c_name(comps[k])) is None,
            _ => true,
        }
}

proof fn lemma_plan_ok(old: Dataset, g: int, comps: Seq<Seq<char>>, i: int, cur: int, added: Seq<(int, Seq<char>)>)
    requires
        old.wf(),
        old.netcdf4,
        0 <= i < comps.len(),
        path_names_fit(comps),
        no_variable_in_the_way(old, g, comps),
        !(walk(old, g, comps) is Found),
        added.len() == 0 ==> walk(old, g, comps.take(i)) == Walk::Found(cur),
    ensures
        group_plan(old, comps, i, cur, added).1 is Ok,
    decreases comps.len() - i,
{
    let name = comps[i];
    assert(!too_long(name) && !bad_name(c_name(name)));
    lemma_walk_push(old, g, comps.take(i), name);
    assert(comps.take(i).push(name) =~= comps.take(i + 1));
    if added.len() == 0 {
        assert(match walk(old, g, comps.take(i)) {
            Walk::Found(p) => old.var_here(p, c_name(comps[i])) is None,
            _ => true,
        });
    }
    if i + 1 < comps.len() {
        let next = (old.groups@.len() + added.len()) as int;
        if added.len() == 0 && old.child(cur, c_name(name)) is Some {
            lemma_plan_ok(old, g, comps, i + 1, old.child(cur, c_name(name)).unwrap(), added);
        } else {
            lemma_plan_ok(old, g, comps, i + 1, next, added.push((cur, c_name(name))));
        }
    } else {
        assert(comps.take(i + 1) =~= comps);
    }
}

/// Adding a group by a path creates the groups missing on the way and
/// reuses those that exist: on a dataset with groups, where no name on the
/// path is too long or empty, the group at the path does not exist yet, and
/// no group on the way holds a variable of the name of the next step, adding
/// the group succeeds, and the new group is found at the path.
pub proof fn lemma_path_groups_made(old: Dataset, new: Dataset, g: int, path: Seq<char>, r: Result<usize>)
    requires
        old.wf(),
        0 <= g < old.groups@.len(),
        old.netcdf4,
        path_names_fit(components(path)),
        no_variable_in_the_way(old, g, components(path)),
        !(walk(old, g, components(path)) is Found),
        group_outcome(old, new, g, path, r),
    ensures
        r matches Ok(c) && group_at(new, g, path) == Walk::Found(c as int),
{
    let comps = components(path);
    lemma_components_len(path, 0);
    assert(comps.take(0) =~= Seq::<Seq<char>>::empty());
    lemma_plan_ok(old, g, comps, 0, g, Seq::empty());
    if let Ok(c) = r {
        lemma_added_group_found(old, new, g, path, c);
    }
}

} // verus!
