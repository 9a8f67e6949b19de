//! The types of a dataset: identifiers of the basic types, and the user
//! defined types of its groups.
use vstd::prelude::*;

use crate::dataset::{select_upto, type_in, Dataset, NC_FIRSTUSERTYPEID};
use crate::error::{Error, Result, NC_ENOTNC4, NC_EMAXNAME};
use crate::names::{c_name, same_name, short_name_to_bytes, too_long};
use crate::types::{
    copy_type, nc_type_eq, type_equal, CompoundType, FloatType, IntType, NcVariableType, NC_BYTE, NC_CHAR,
    NC_DOUBLE, NC_FLOAT, NC_INT, NC_INT64, NC_SHORT, NC_STRING, NC_UBYTE, NC_UINT, NC_UINT64,
    NC_USHORT,
};

verus! {

/// The identifier of a basic type, `None` for a user defined one.
pub open spec fn basic_type_id(t: NcVariableType) -> Option<i32> {
    match t {
        NcVariableType::Int(IntType::U8) => Some(NC_UBYTE),
        NcVariableType::Int(IntType::I8) => Some(NC_BYTE),
        NcVariableType::Int(IntType::U16) => Some(NC_USHORT),
        NcVariableType::Int(IntType::I16) => Some(NC_SHORT),
        NcVariableType::Int(IntType::U32) => Some(NC_UINT),
        NcVariableType::Int(IntType::I32) => Some(NC_INT),
        NcVariableType::Int(IntType::U64) => Some(NC_UINT64),
        NcVariableType::Int(IntType::I64) => Some(NC_INT64),
        NcVariableType::Float(FloatType::F32) => Some(NC_FLOAT),
        NcVariableType::Float(FloatType::F64) => Some(NC_DOUBLE),
        NcVariableType::String => Some(NC_STRING),
        NcVariableType::Char => Some(NC_CHAR),
        _ => None,
    }
}

/// The descriptor of a basic type identifier.
pub open spec fn basic_descriptor(xtype: i32) -> Option<NcVariableType> {
    if xtype == NC_UBYTE {
        Some(NcVariableType::Int(IntType::U8))
    } else if xtype == NC_BYTE {
        Some(NcVariableType::Int(IntType::I8))
    } else if xtype == NC_USHORT {
        Some(NcVariableType::Int(IntType::U16))
    } else if xtype == NC_SHORT {
        Some(NcVariableType::Int(IntType::I16))
    } else if xtype == NC_UINT {
        Some(NcVariableType::Int(IntType::U32))
    } else if xtype == NC_INT {
        Some(NcVariableType::Int(IntType::I32))
    } else if xtype == NC_UINT64 {
        Some(NcVariableType::Int(IntType::U64))
    } else if xtype == NC_INT64 {
        Some(NcVariableType::Int(IntType::I64))
    } else if xtype == NC_FLOAT {
        Some(NcVariableType::Float(FloatType::F32))
    } else if xtype == NC_DOUBLE {
        Some(NcVariableType::Float(FloatType::F64))
    } else if xtype == NC_STRING {
        Some(NcVariableType::String)
    } else if xtype == NC_CHAR {
        Some(NcVariableType::Char)
    } else {
        None
    }
}

/// The identifier of a basic type.
pub fn basic_id(t: &NcVariableType) -> (r: Option<i32>)
    ensures
        r == basic_type_id(*t),
{
    match t {
        NcVariableType::Int(IntType::U8) => Some(NC_UBYTE),
        NcVariableType::Int(IntType::I8) => Some(NC_BYTE),
        NcVariableType::Int(IntType::U16) => Some(NC_USHORT),
        NcVariableType::Int(IntType::I16) => Some(NC_SHORT),
        NcVariableType::Int(IntType::U32) => Some(NC_UINT),
        NcVariableType::Int(IntType::I32) => Some(NC_INT),
        NcVariableType::Int(IntType::U64) => Some(NC_UINT64),
        NcVariableType::Int(IntType::I64) => Some(NC_INT64),
        NcVariableType::Float(FloatType::F32) => Some(NC_FLOAT),
        NcVariableType::Float(FloatType::F64) => Some(NC_DOUBLE),
        NcVariableType::String => Some(NC_STRING),
        NcVariableType::Char => Some(NC_CHAR),
        _ => None,
    }
}

/// The name of a user defined type.
pub open spec fn user_type_name(t: NcVariableType) -> Seq<char> {
    match t {
        NcVariableType::Compound(x) => x.name@,
        NcVariableType::Opaque(x) => x.name@,
        NcVariableType::Enum(x) => x.name@,
        NcVariableType::Vlen(x) => x.name@,
        _ => Seq::empty(),
    }
}

fn user_type_name_of(t: &NcVariableType) -> (r: &str)
    ensures
        r@ == user_type_name(*t),
{
    match t {
        NcVariableType::Compound(x) => x.name.as_str(),
        NcVariableType::Opaque(x) => x.name.as_str(),
        NcVariableType::Enum(x) => x.name.as_str(),
        NcVariableType::Vlen(x) => x.name.as_str(),
        _ => {
            proof {
                reveal_strlit("");
            }
            ""
        },
    }
}

/// The user defined type called `name` of group `g`.
pub open spec fn type_here(ds: Dataset, g: int, name: Seq<char>) -> Option<int> {
    if exists|i: int|
        0 <= i < ds.types@.len() && ds.types@[i].group == g && #[trigger] user_type_name(
            ds.types@[i].descriptor,
        ) == name && forall|k: int|
            0 <= k < i ==> !(ds.types@[k].group == g && #[trigger] user_type_name(
                ds.types@[k].descriptor,
            ) == name) {
        Some(
            choose|i: int|
                0 <= i < ds.types@.len() && ds.types@[i].group == g && #[trigger] user_type_name(
                    ds.types@[i].descriptor,
                ) == name && forall|k: int|
                    0 <= k < i ==> !(ds.types@[k].group == g && #[trigger] user_type_name(
                        ds.types@[k].descriptor,
                    ) == name),
        )
    } else {
        None
    }
}

/// The descriptor of the type with identifier `xtype`: a basic one or a user
/// defined one.
pub open spec fn descriptor_of(ds: Dataset, xtype: i32) -> Option<NcVariableType> {
    match basic_descriptor(xtype) {
        Some(t) => Some(t),
        None => if NC_FIRSTUSERTYPEID <= xtype < NC_FIRSTUSERTYPEID + ds.types@.len() {
            Some(ds.types@[xtype - NC_FIRSTUSERTYPEID].descriptor)
        } else {
            None
        },
    }
}

/// Reads the description of the type with identifier `xtype`; an unknown
/// identifier is an error.
pub fn read_type(ds: &Dataset, xtype: i32) -> (r: Result<NcVariableType>)
    ensures
        descriptor_of(*ds, xtype) matches Some(t) ==> (r matches Ok(u) && nc_type_eq(u, t)),
        descriptor_of(*ds, xtype) is None ==> (r matches Err(Error::TypeUnknown(x)) && x == xtype),
{
    if xtype == NC_UBYTE {
        return Ok(NcVariableType::Int(IntType::U8));
    } else if xtype == NC_BYTE {
        return Ok(NcVariableType::Int(IntType::I8));
    } else if xtype == NC_USHORT {
        return Ok(NcVariableType::Int(IntType::U16));
    } else if xtype == NC_SHORT {
        return Ok(NcVariableType::Int(IntType::I16));
    } else if xtype == NC_UINT {
        return Ok(NcVariableType::Int(IntType::U32));
    } else if xtype == NC_INT {
        return Ok(NcVariableType::Int(IntType::I32));
    } else if xtype == NC_UINT64 {
        return Ok(NcVariableType::Int(IntType::U64));
    } else if xtype == NC_INT64 {
        return Ok(NcVariableType::Int(IntType::I64));
    } else if xtype == NC_FLOAT {
        return Ok(NcVariableType::Float(FloatType::F32));
    } else if xtype == NC_DOUBLE {
        return Ok(NcVariableType::Float(FloatType::F64));
    } else if xtype == NC_STRING {
        return Ok(NcVariableType::String);
    } else if xtype == NC_CHAR {
        return Ok(NcVariableType::Char);
    }
    if NC_FIRSTUSERTYPEID <= xtype && ((xtype - NC_FIRSTUSERTYPEID) as usize) < ds.types.len() {
        let i = (xtype - NC_FIRSTUSERTYPEID) as usize;
        return Ok(copy_type(&ds.types[i].descriptor));
    }
    Err(Error::TypeUnknown(xtype))
}

/// The message for a type found by its name whose definition differs.
pub open spec fn wrong_definition_message() -> Seq<char> {
    "Found type with that name, but it was not the correct type definition"@
}

/// What looking up the type that `t` describes from group `g` gives.
pub enum TypeLookup {
    /// The type's identifier
    Id(i32),
    /// The name of the user defined type is too long
    TooLong,
    /// The group has no user defined type of that name
    Absent,
    /// The group's type of that name has another definition
    Different,
}

/// The lookup of the type that `t` describes, as seen from group `g`: a basic
/// type has its fixed identifier; a user defined type is looked up by its
/// name among the types of the group, and must then be equal to `t`.
pub open spec fn type_lookup(ds: Dataset, g: int, t: NcVariableType) -> TypeLookup {
    match basic_type_id(t) {
        Some(id) => TypeLookup::Id(id),
        None => if too_long(user_type_name(t)) {
            TypeLookup::TooLong
        } else {
            match type_here(ds, g, c_name(user_type_name(t))) {
                None => TypeLookup::Absent,
                Some(i) => if nc_type_eq(ds.types@[i].descriptor, t) {
                    TypeLookup::Id((NC_FIRSTUSERTYPEID + i) as i32)
                } else {
                    TypeLookup::Different
                },
            }
        },
    }
}

/// Finds the identifier of the type that `t` describes, as seen from group
/// `g`; `None` when the group has no type of its name.
pub fn find_type(ds: &Dataset, g: usize, t: &NcVariableType) -> (r: Result<Option<i32>>)
    requires
        ds.wf(),
        g < ds.groups@.len(),
    ensures
        match type_lookup(*ds, g as int, *t) {
            TypeLookup::Id(id) => r == Ok::<Option<i32>, Error>(Some(id)),
            TypeLookup::TooLong => r matches Err(Error::Netcdf(c)) && c == NC_EMAXNAME,
            TypeLookup::Absent => r == Ok::<Option<i32>, Error>(None),
            TypeLookup::Different => r matches Err(Error::Str(m)) && m@ == wrong_definition_message(),
        },
{
    if let Some(id) = basic_id(t) {
        return Ok(Some(id));
    }
    let name = short_name_to_bytes(user_type_name_of(t))?;
    let mut i: usize = 0;
    while i < ds.types.len()
        invariant
            ds.wf(),
            i <= ds.types@.len(),
            basic_type_id(*t) is None,
            !too_long(user_type_name(*t)),
            name@ == c_name(user_type_name(*t)),
            forall|k: int|
                0 <= k < i ==> !(ds.types@[k].group == g && #[trigger] user_type_name(
                    ds.types@[k].descriptor,
                ) == name@),
        decreases ds.types@.len() - i,
    {
        if ds.types[i].group == g && same_name(user_type_name_of(&ds.types[i].descriptor), name.as_str()) {
            assert(user_type_name(ds.types@[i as int].descriptor) == name@);
            proof {
                let j = choose|j: int|
                    0 <= j < ds.types@.len() && ds.types@[j].group == g && #[trigger] user_type_name(
                        ds.types@[j].descriptor,
                    ) == name@ && forall|k: int|
                        0 <= k < j ==> !(ds.types@[k].group == g && #[trigger] user_type_name(
                            ds.types@[k].descriptor,
                        ) == name@);
                assert(type_here(*ds, g as int, name@) == Some(j));
                if j < i {
                    assert(ds.types@[j].group == g && user_type_name(ds.types@[j].descriptor) == name@);
                }
                if i < j {
                    assert(!(ds.types@[i as int].group == g && user_type_name(ds.types@[i as int].descriptor) == name@));
                }
            }
            if type_equal(&ds.types[i].descriptor, t) {
                return Ok(Some(NC_FIRSTUSERTYPEID + i as i32));
            }
            let m = "Found type with that name, but it was not the correct type definition";
            return Err(Error::Str(m.to_owned()));
        }
        i = i + 1;
    }
    Ok(None)
}


/// A type that the lookup finds is known to the dataset.
pub proof fn lemma_lookup_known(ds: Dataset, g: int, t: NcVariableType)
    requires
        ds.wf(),
    ensures
        type_lookup(ds, g, t) matches TypeLookup::Id(x) ==> ds.known_type(x),
{
    if let TypeLookup::Id(x) = type_lookup(ds, g, t) {
        if basic_type_id(t) is None {
            let i = type_here(ds, g, c_name(user_type_name(t))).unwrap();
            assert(0 <= i < ds.types@.len());
            assert(basic_descriptor(x) is None);
        } else {
            assert(basic_descriptor(x) is Some);
        }
    }
}


/// Some field of the compound has a type that the group does not know.
pub open spec fn missing_field_type(ds: Dataset, g: int, c: CompoundType) -> bool {
    exists|i: int| 0 <= i < c.fields@.len() && !(type_lookup(ds, g, #[trigger] c.fields@[i].basetype) is Id)
}

/// Defining the type `t` in group `g` gives a new identifier: the type is a
/// user defined one, its name and the names it holds are not too long, its
/// name is not in use among the group's types, variables and groups, the
/// dataset has groups, and the types it is made of are known to the group.
pub open spec fn type_definable(ds: Dataset, g: int, t: NcVariableType) -> bool {
    &&& basic_type_id(t) is None
    &&& !too_long(user_type_name(t))
    &&& ds.netcdf4
    &&& type_here(ds, g, c_name(user_type_name(t))) is None
    &&& ds.var_here(g, c_name(user_type_name(t))) is None
    &&& ds.child(g, c_name(user_type_name(t))) is None
    &&& match t {
        NcVariableType::Vlen(v) => type_lookup(ds, g, *v.basetype) is Id,
        NcVariableType::Compound(c) => !missing_field_type(ds, g, c) && forall|i: int|
            0 <= i < c.fields@.len() ==> !too_long(#[trigger] c.fields@[i].name@),
        NcVariableType::Enum(e) => forall|i: int|
            0 <= i < e.fieldnames@.len() ==> !too_long(#[trigger] e.fieldnames@[i]@),
        _ => true,
    }
}

/// The message for a basic type given to be defined.
pub open spec fn basic_type_message() -> Seq<char> {
    "basic type can not be added"@
}

fn names_fit(v: &Vec<String>) -> (r: bool)
    ensures
        r == forall|i: int| 0 <= i < v@.len() ==> !too_long(#[trigger] v@[i]@),
{
    let mut i: usize = 0;
    while i < v.len()
        invariant
            i <= v@.len(),
            forall|k: int| 0 <= k < i ==> !too_long(#[trigger] v@[k]@),
        decreases v@.len() - i,
    {
        if short_name_to_bytes(v[i].as_str()).is_err() {
            return false;
        }
        i = i + 1;
    }
    true
}

fn field_names_fit(c: &CompoundType) -> (r: bool)
    ensures
        r == forall|i: int| 0 <= i < c.fields@.len() ==> !too_long(#[trigger] c.fields@[i].name@),
{
    let mut i: usize = 0;
    while i < c.fields.len()
        invariant
            i <= c.fields@.len(),
            forall|k: int| 0 <= k < i ==> !too_long(#[trigger] c.fields@[k].name@),
        decreases c.fields@.len() - i,
    {
        if short_name_to_bytes(c.fields[i].name.as_str()).is_err() {
            return false;
        }
        i = i + 1;
    }
    true
}

fn field_types_known(ds: &Dataset, g: usize, c: &CompoundType) -> (r: Result<bool>)
    requires
        ds.wf(),
        g < ds.groups@.len(),
    ensures
        r matches Ok(b) ==> b == !missing_field_type(*ds, g as int, *c),
        r is Err ==> missing_field_type(*ds, g as int, *c),
{
    let mut i: usize = 0;
    while i < c.fields.len()
        invariant
            ds.wf(),
            g < ds.groups@.len(),
            i <= c.fields@.len(),
            forall|k: int| 0 <= k < i ==> type_lookup(*ds, g as int, #[trigger] c.fields@[k].basetype) is Id,
        decreases c.fields@.len() - i,
    {
        match find_type(ds, g, &c.fields[i].basetype)? {
            Some(_) => {},
            None => {
                return Ok(false);
            },
        }
        i = i + 1;
    }
    Ok(true)
}

/// The types that `t` is made of are known to group `g`, and the names it
/// holds are not too long.
pub open spec fn type_parts_fit(ds: Dataset, g: int, t: NcVariableType) -> bool {
    match t {
        NcVariableType::Vlen(v) => type_lookup(ds, g, *v.basetype) is Id,
        NcVariableType::Compound(c) => !missing_field_type(ds, g, c) && forall|i: int|
            0 <= i < c.fields@.len() ==> !too_long(#[trigger] c.fields@[i].name@),
        NcVariableType::Enum(e) => forall|i: int|
            0 <= i < e.fieldnames@.len() ==> !too_long(#[trigger] e.fieldnames@[i]@),
        _ => true,
    }
}

/// A type, a variable or a group of group `g` is called `name`.
pub open spec fn name_taken(ds: Dataset, g: int, name: Seq<char>) -> bool {
    type_here(ds, g, name) is Some || ds.var_here(g, name) is Some || ds.child(g, name) is Some
}

/// The outcome of defining the type `t` in group `g`: a basic type is
/// refused, a name in use among the group's types, variables and groups is
/// refused as existing, a definable one (see `type_definable`) gets the next
/// identifier, and nothing changes on an error.
pub open spec fn define_type_outcome(old: Dataset, new: Dataset, g: int, t: NcVariableType, r: Result<i32>) -> bool {
    &&& basic_type_id(t) is Some ==> (r matches Err(Error::Str(m)) && m@ == basic_type_message()) && new == old
    &&& basic_type_id(t) is None && !too_long(user_type_name(t)) && type_parts_fit(old, g, t) && old.netcdf4
        && name_taken(old, g, c_name(user_type_name(t))) ==> r == Err::<i32, Error>(Error::AlreadyExists)
    &&& type_definable(old, g, t) && old.types@.len() < i32::MAX - NC_FIRSTUSERTYPEID ==> (r matches Ok(id) && id
        == NC_FIRSTUSERTYPEID + old.types@.len())
    &&& r matches Ok(id) ==> {
        &&& id == NC_FIRSTUSERTYPEID + old.types@.len()
        &&& new.types@ == old.types@.push(crate::dataset::TypeEntry { group: g as usize, descriptor: t })
        &&& new.groups == old.groups
        &&& new.dims == old.dims
        &&& new.vars == old.vars
        &&& new.atts == old.atts
        &&& new.netcdf4 == old.netcdf4
        &&& type_definable(old, g, t)
    }
    &&& r is Err ==> new == old
}

/// Defines the user defined type `t` in group `g`; see `type_definable` for
/// when it succeeds.
pub fn define_type(ds: &mut Dataset, g: usize, t: NcVariableType) -> (r: Result<i32>)
    requires
        old(ds).wf(),
        g < old(ds).groups@.len(),
    ensures
        final(ds).wf(),
        define_type_outcome(*old(ds), *final(ds), g as int, t, r),
{
    if basic_id(&t).is_some() {
        let m = "basic type can not be added";
        proof {
            reveal_strlit("basic type can not be added");
        }
        return Err(Error::Str(m.to_owned()));
    }
    let name = short_name_to_bytes(user_type_name_of(&t))?;
    match &t {
        NcVariableType::Vlen(v) => {
            if find_type(ds, g, &v.basetype)?.is_none() {
                return Err(Error::Str("Type not found".to_owned()));
            }
        },
        NcVariableType::Compound(c) => {
            if !field_types_known(ds, g, c)? {
                return Err(Error::Str("Could not find subtype".to_owned()));
            }
            if !field_names_fit(c) {
                return Err(Error::Netcdf(NC_EMAXNAME));
            }
        },
        NcVariableType::Enum(e) => {
            if !names_fit(&e.fieldnames) {
                return Err(Error::Netcdf(NC_EMAXNAME));
            }
        },
        _ => {},
    }
    if !ds.netcdf4 {
        return Err(Error::Netcdf(NC_ENOTNC4));
    }
    if find_type_named(ds, g, name.as_str()).is_some() || ds.find_var_here(g, name.as_str()).is_some()
        || ds.find_child(g, name.as_str()).is_some() {
        return Err(Error::AlreadyExists);
    }
    let r = ds.add_type(g, t);
    r
}

/// The first user defined type of group `g` called `name`.
fn find_type_named(ds: &Dataset, g: usize, name: &str) -> (r: Option<usize>)
    requires
        ds.wf(),
    ensures
        r matches Some(i) ==> type_here(*ds, g as int, name@) == Some(i as int),
        r is None ==> type_here(*ds, g as int, name@) is None,
{
    let mut i: usize = 0;
    while i < ds.types.len()
        invariant
            ds.wf(),
            i <= ds.types@.len(),
            forall|k: int|
                0 <= k < i ==> !(ds.types@[k].group == g && #[trigger] user_type_name(
                    ds.types@[k].descriptor,
                ) == name@),
        decreases ds.types@.len() - i,
    {
        if ds.types[i].group == g && same_name(user_type_name_of(&ds.types[i].descriptor), name) {
            assert(user_type_name(ds.types@[i as int].descriptor) == name@);
            proof {
                let j = choose|j: int|
                    0 <= j < ds.types@.len() && ds.types@[j].group == g && #[trigger] user_type_name(
                        ds.types@[j].descriptor,
                    ) == name@ && forall|k: int|
                        0 <= k < j ==> !(ds.types@[k].group == g && #[trigger] user_type_name(
                            ds.types@[k].descriptor,
                        ) == name@);
                if j < i {
                    assert(ds.types@[j].group == g && user_type_name(ds.types@[j].descriptor) == name@);
                }
                if i < j {
                    assert(!(ds.types@[i as int].group == g && user_type_name(ds.types@[i as int].descriptor) == name@));
                }
            }
            return Some(i);
        }
        i = i + 1;
    }
    None
}

proof fn lemma_select_same(n: int, p: spec_fn(int) -> bool, q: spec_fn(int) -> bool)
    requires
        forall|i: int| 0 <= i < n ==> #[trigger] p(i) == q(i),
    ensures
        select_upto(n, p) == select_upto(n, q),
    decreases n,
{
    if n > 0 {
        lemma_select_same(n - 1, p, q);
    }
}

/// A type that was defined is listed last among the types of its group, and
/// the lists of the other groups stay as they were.
pub proof fn lemma_defined_type_listed(old: Dataset, new: Dataset, g: int, t: NcVariableType, id: i32)
    requires
        define_type_outcome(old, new, g, t, Ok(id)),
        0 <= g <= usize::MAX,
    ensures
        select_upto(new.types@.len() as int, type_in(new, g)) == select_upto(
            old.types@.len() as int,
            type_in(old, g),
        ).push(old.types@.len() as int),
        new.types@[old.types@.len() as int].descriptor == t,
        forall|h: int|
            h != g ==> #[trigger] select_upto(new.types@.len() as int, type_in(new, h)) == select_upto(
                old.types@.len() as int,
                type_in(old, h),
            ),
{
    let n = old.types@.len() as int;
    assert(new.types@.len() == n + 1);
    assert(new.types@[n].group as int == g);
    assert forall|i: int| 0 <= i < n implies #[trigger] type_in(new, g)(i) == type_in(old, g)(i) by {
        assert(new.types@[i] == old.types@[i]);
    }
    lemma_select_same(n, type_in(new, g), type_in(old, g));
    assert(type_in(new, g)(n));
    assert(select_upto(n + 1, type_in(new, g)) == select_upto(n, type_in(new, g)).push(n));
    assert forall|h: int| h != g implies #[trigger] select_upto(new.types@.len() as int, type_in(new, h)) == select_upto(
        old.types@.len() as int,
        type_in(old, h),
    ) by {
        assert forall|i: int| 0 <= i < n implies #[trigger] type_in(new, h)(i) == type_in(old, h)(i) by {
            assert(new.types@[i] == old.types@[i]);
        }
        lemma_select_same(n, type_in(new, h), type_in(old, h));
        assert(!type_in(new, h)(n));
        assert(select_upto(n + 1, type_in(new, h)) == select_upto(n, type_in(new, h)));
    }
}

} // verus!
