//! Add and read attributes from netcdf groups and variables
use vstd::prelude::*;
use vstd::std_specs::convert::{FromSpecImpl, TryFromSpecImpl};
use vstd::string::StrSliceExecFns;

use crate::dataset::Dataset;
use crate::error::{is_message, Error, Result};

verus! {

/// The values that an attribute holds, as the dataset keeps them: a vector of
/// one numeric type, text, or strings.
#[derive(Debug)]
pub enum AttrData {
    Ubyte(Vec<u8>),
    Byte(Vec<i8>),
    Ushort(Vec<u16>),
    Short(Vec<i16>),
    Uint(Vec<u32>),
    Int(Vec<i32>),
    Uint64(Vec<u64>),
    Int64(Vec<i64>),
    Text(String),
    Strings(Vec<String>),
}

/// Holds the attribute value which can be inserted and
/// returned from the file
#[derive(Debug, Clone, PartialEq)]
pub enum AttributeValue {
    Uchar(u8),
    Uchars(Vec<u8>),
    Schar(i8),
    Schars(Vec<i8>),
    Ushort(u16),
    Ushorts(Vec<u16>),
    Short(i16),
    Shorts(Vec<i16>),
    Uint(u32),
    Uints(Vec<u32>),
    Int(i32),
    Ints(Vec<i32>),
    Ulonglong(u64),
    Ulonglongs(Vec<u64>),
    Longlong(i64),
    Longlongs(Vec<i64>),
    Str(String),
    Strs(Vec<String>),
}

/// The contents of an attribute as mathematical sequences.
pub enum AttrView {
    Ubyte(Seq<u8>),
    Byte(Seq<i8>),
    Ushort(Seq<u16>),
    Short(Seq<i16>),
    Uint(Seq<u32>),
    Int(Seq<i32>),
    Uint64(Seq<u64>),
    Int64(Seq<i64>),
    Text(Seq<char>),
    Strings(Seq<Seq<char>>),
}

/// Texts as character sequences.
pub open spec fn texts(v: Seq<String>) -> Seq<Seq<char>> {
    v.map_values(|s: String| s@)
}

/// The contents that the dataset keeps.
pub open spec fn stored_view(d: AttrData) -> AttrView {
    match d {
        AttrData::Ubyte(v) => AttrView::Ubyte(v@),
        AttrData::Byte(v) => AttrView::Byte(v@),
        AttrData::Ushort(v) => AttrView::Ushort(v@),
        AttrData::Short(v) => AttrView::Short(v@),
        AttrData::Uint(v) => AttrView::Uint(v@),
        AttrData::Int(v) => AttrView::Int(v@),
        AttrData::Uint64(v) => AttrView::Uint64(v@),
        AttrData::Int64(v) => AttrView::Int64(v@),
        AttrData::Text(s) => AttrView::Text(s@),
        AttrData::Strings(v) => AttrView::Strings(texts(v@)),
    }
}

/// A value as the variant kind (a single value or not) and its contents.
pub open spec fn value_view(v: AttributeValue) -> (bool, AttrView) {
    match v {
        AttributeValue::Uchar(x) => (true, AttrView::Ubyte(seq![x])),
        AttributeValue::Uchars(x) => (false, AttrView::Ubyte(x@)),
        AttributeValue::Schar(x) => (true, AttrView::Byte(seq![x])),
        AttributeValue::Schars(x) => (false, AttrView::Byte(x@)),
        AttributeValue::Ushort(x) => (true, AttrView::Ushort(seq![x])),
        AttributeValue::Ushorts(x) => (false, AttrView::Ushort(x@)),
        AttributeValue::Short(x) => (true, AttrView::Short(seq![x])),
        AttributeValue::Shorts(x) => (false, AttrView::Short(x@)),
        AttributeValue::Uint(x) => (true, AttrView::Uint(seq![x])),
        AttributeValue::Uints(x) => (false, AttrView::Uint(x@)),
        AttributeValue::Int(x) => (true, AttrView::Int(seq![x])),
        AttributeValue::Ints(x) => (false, AttrView::Int(x@)),
        AttributeValue::Ulonglong(x) => (true, AttrView::Uint64(seq![x])),
        AttributeValue::Ulonglongs(x) => (false, AttrView::Uint64(x@)),
        AttributeValue::Longlong(x) => (true, AttrView::Int64(seq![x])),
        AttributeValue::Longlongs(x) => (false, AttrView::Int64(x@)),
        AttributeValue::Str(s) => (true, AttrView::Text(s@)),
        AttributeValue::Strs(v) => (false, AttrView::Strings(texts(v@))),
    }
}

/// A text holds a NUL character.
pub open spec fn has_nul(s: Seq<char>) -> bool {
    exists|i: int| 0 <= i < s.len() && s[i] == '\0'
}

/// Storing the value is refused: one of its strings holds a NUL character,
/// which a C string cannot carry.
pub open spec fn put_refused(v: AttributeValue) -> bool {
    match v {
        AttributeValue::Strs(x) => exists|i: int| 0 <= i < x@.len() && has_nul(#[trigger] x@[i]@),
        _ => false,
    }
}

/// The number of values of a numeric kind.
pub open spec fn numeric_len(a: AttrView) -> Option<nat> {
    match a {
        AttrView::Ubyte(s) => Some(s.len()),
        AttrView::Byte(s) => Some(s.len()),
        AttrView::Ushort(s) => Some(s.len()),
        AttrView::Short(s) => Some(s.len()),
        AttrView::Uint(s) => Some(s.len()),
        AttrView::Int(s) => Some(s.len()),
        AttrView::Uint64(s) => Some(s.len()),
        AttrView::Int64(s) => Some(s.len()),
        _ => None,
    }
}

/// What reading the contents gives: one value of a numeric kind comes back
/// as a single value, other numbers as a vector, text up to its first NUL,
/// strings as they are.
pub open spec fn read_view(a: AttrView) -> (bool, AttrView) {
    match a {
        AttrView::Text(t) => (true, AttrView::Text(crate::names::c_name(t))),
        AttrView::Strings(v) => (false, AttrView::Strings(v)),
        _ => (numeric_len(a) == Some(1nat), a),
    }
}

fn texts_of(v: &Vec<String>) -> (r: Vec<String>)
    ensures
        texts(r@) == texts(v@),
{
    let mut out: Vec<String> = Vec::new();
    for i in 0..v.len()
        invariant
            out@.len() == i,
            forall|k: int| 0 <= k < i ==> #[trigger] out@[k]@ == v@[k]@,
    {
        out.push(v[i].clone());
    }
    assert(texts(out@) =~= texts(v@));
    out
}

pub(crate) fn nul_free(s: &str) -> (r: bool)
    ensures
        r == !has_nul(s@),
{
    let n = s.unicode_len();
    let mut i: usize = 0;
    while i < n
        invariant
            n == s@.len(),
            i <= n,
            forall|k: int| 0 <= k < i ==> s@[k] != '\0',
        decreases n - i,
    {
        if s.get_char(i) == '\0' {
            return false;
        }
        i = i + 1;
    }
    true
}

fn strings_nul_free(v: &Vec<String>) -> (r: bool)
    ensures
        r == !(exists|i: int| 0 <= i < v@.len() && has_nul(#[trigger] v@[i]@)),
{
    let mut i: usize = 0;
    while i < v.len()
        invariant
            i <= v@.len(),
            forall|k: int| 0 <= k < i ==> !has_nul(#[trigger] v@[k]@),
        decreases v@.len() - i,
    {
        if !nul_free(v[i].as_str()) {
            assert(has_nul(v@[i as int]@));
            return false;
        }
        i = i + 1;
    }
    true
}

/// The message for a string that a C string cannot carry.
pub open spec fn nul_message() -> Seq<char> {
    "string holds a NUL character"@
}

/// The contents that the dataset keeps for a value: numbers as a vector of
/// their type, a string as text, strings as strings; refused when one of the
/// strings holds a NUL character.
pub fn data_of(v: AttributeValue) -> (r: Result<AttrData>)
    ensures
        put_refused(v) ==> (r matches Err(Error::Str(m)) && m@ == nul_message()),
        !put_refused(v) ==> (r matches Ok(d) && stored_view(d) == value_view(v).1),
{
    match v {
        AttributeValue::Uchar(x) => {
            let d = vec![x];
            assert(d@ =~= seq![x]);
            Ok(AttrData::Ubyte(d))
        },
        AttributeValue::Uchars(x) => Ok(AttrData::Ubyte(x)),
        AttributeValue::Schar(x) => {
            let d = vec![x];
            assert(d@ =~= seq![x]);
            Ok(AttrData::Byte(d))
        },
        AttributeValue::Schars(x) => Ok(AttrData::Byte(x)),
        AttributeValue::Ushort(x) => {
            let d = vec![x];
            assert(d@ =~= seq![x]);
            Ok(AttrData::Ushort(d))
        },
        AttributeValue::Ushorts(x) => Ok(AttrData::Ushort(x)),
        AttributeValue::Short(x) => {
            let d = vec![x];
            assert(d@ =~= seq![x]);
            Ok(AttrData::Short(d))
        },
        AttributeValue::Shorts(x) => Ok(AttrData::Short(x)),
        AttributeValue::Uint(x) => {
            let d = vec![x];
            assert(d@ =~= seq![x]);
            Ok(AttrData::Uint(d))
        },
        AttributeValue::Uints(x) => Ok(AttrData::Uint(x)),
        AttributeValue::Int(x) => {
            let d = vec![x];
            assert(d@ =~= seq![x]);
            Ok(AttrData::Int(d))
        },
        AttributeValue::Ints(x) => Ok(AttrData::Int(x)),
        AttributeValue::Ulonglong(x) => {
            let d = vec![x];
            assert(d@ =~= seq![x]);
            Ok(AttrData::Uint64(d))
        },
        AttributeValue::Ulonglongs(x) => Ok(AttrData::Uint64(x)),
        AttributeValue::Longlong(x) => {
            let d = vec![x];
            assert(d@ =~= seq![x]);
            Ok(AttrData::Int64(d))
        },
        AttributeValue::Longlongs(x) => Ok(AttrData::Int64(x)),
        AttributeValue::Str(s) => Ok(AttrData::Text(s)),
        AttributeValue::Strs(v) => {
            if !strings_nul_free(&v) {
                let m = "string holds a NUL character";
                proof {
                    reveal_strlit("string holds a NUL character");
                }
                return Err(Error::Str(m.to_owned()));
            }
            Ok(AttrData::Strings(v))
        },
    }
}

fn text_before_nul(s: &str) -> (r: String)
    ensures
        r@ == crate::names::c_name(s@),
{
    let n = s.unicode_len();
    let mut i: usize = 0;
    let mut stop = false;
    while i < n && !stop
        invariant
            n == s@.len(),
            i <= n,
            forall|k: int| 0 <= k < i ==> s@[k] != '\0',
            stop ==> i < n && s@[i as int] == '\0',
        decreases n - i + (if stop {
            0int
        } else {
            1int
        }),
    {
        if s.get_char(i) == '\0' {
            stop = true;
        } else {
            i = i + 1;
        }
    }
    proof {
        crate::names::lemma_c_name_prefix(s@, i as int);
    }
    s.substring_char(0, i).to_owned()
}

/// The value that reading stored contents gives, see `read_view`.
pub fn value_of(d: &AttrData) -> (r: AttributeValue)
    ensures
        value_view(r) == read_view(stored_view(*d)),
{
    match d {
        AttrData::Ubyte(v) => if v.len() == 1 {
            assert(seq![v@[0]] =~= v@);
            AttributeValue::Uchar(v[0])
        } else {
            let c = v.clone();
            assert(c@ =~= v@);
            AttributeValue::Uchars(c)
        },
        AttrData::Byte(v) => if v.len() == 1 {
            assert(seq![v@[0]] =~= v@);
            AttributeValue::Schar(v[0])
        } else {
            let c = v.clone();
            assert(c@ =~= v@);
            AttributeValue::Schars(c)
        },
        AttrData::Ushort(v) => if v.len() == 1 {
            assert(seq![v@[0]] =~= v@);
            AttributeValue::Ushort(v[0])
        } else {
            let c = v.clone();
            assert(c@ =~= v@);
            AttributeValue::Ushorts(c)
        },
        AttrData::Short(v) => if v.len() == 1 {
            assert(seq![v@[0]] =~= v@);
            AttributeValue::Short(v[0])
        } else {
            let c = v.clone();
            assert(c@ =~= v@);
            AttributeValue::Shorts(c)
        },
        AttrData::Uint(v) => if v.len() == 1 {
            assert(seq![v@[0]] =~= v@);
            AttributeValue::Uint(v[0])
        } else {
            let c = v.clone();
            assert(c@ =~= v@);
            AttributeValue::Uints(c)
        },
        AttrData::Int(v) => if v.len() == 1 {
            assert(seq![v@[0]] =~= v@);
            AttributeValue::Int(v[0])
        } else {
            let c = v.clone();
            assert(c@ =~= v@);
            AttributeValue::Ints(c)
        },
        AttrData::Uint64(v) => if v.len() == 1 {
            assert(seq![v@[0]] =~= v@);
            AttributeValue::Ulonglong(v[0])
        } else {
            let c = v.clone();
            assert(c@ =~= v@);
            AttributeValue::Ulonglongs(c)
        },
        AttrData::Int64(v) => if v.len() == 1 {
            assert(seq![v@[0]] =~= v@);
            AttributeValue::Longlong(v[0])
        } else {
            let c = v.clone();
            assert(c@ =~= v@);
            AttributeValue::Longlongs(c)
        },
        AttrData::Text(s) => AttributeValue::Str(text_before_nul(s.as_str())),
        AttrData::Strings(v) => AttributeValue::Strs(texts_of(v)),
    }
}


/// The value comes back unchanged from being written and read: it is not a
/// vector of exactly one number, its text holds no NUL, and it can be stored.
pub open spec fn roundtrips(v: AttributeValue) -> bool {
    match v {
        AttributeValue::Uchars(x) => x@.len() != 1,
        AttributeValue::Schars(x) => x@.len() != 1,
        AttributeValue::Ushorts(x) => x@.len() != 1,
        AttributeValue::Shorts(x) => x@.len() != 1,
        AttributeValue::Uints(x) => x@.len() != 1,
        AttributeValue::Ints(x) => x@.len() != 1,
        AttributeValue::Ulonglongs(x) => x@.len() != 1,
        AttributeValue::Longlongs(x) => x@.len() != 1,
        AttributeValue::Str(s) => !has_nul(s@),
        AttributeValue::Strs(_) => !put_refused(v),
        _ => true,
    }
}

/// Reading back what writing a value stores gives that value, when it
/// round-trips (see `roundtrips`); a vector of one number comes back as that
/// single number, and text comes back up to its first NUL.
pub proof fn lemma_attribute_roundtrip(v: AttributeValue)
    requires
        !put_refused(v),
    ensures
        roundtrips(v) ==> read_view(value_view(v).1) == value_view(v),
        (v is Str) ==> read_view(value_view(v).1) == (
            true,
            AttrView::Text(crate::names::c_name(v->Str_0@)),
        ),
        numeric_len(value_view(v).1) == Some(1nat) ==> read_view(value_view(v).1) == (
            true,
            value_view(v).1,
        ),
{
    if let AttributeValue::Str(s) = v {
        if !has_nul(s@) {
            crate::names::lemma_c_name_prefix(s@, s@.len() as int);
            assert(s@.subrange(0, s@.len() as int) =~= s@);
        }
    }
}

/// An attribute of a group or of a variable
#[derive(Debug)]
pub struct Attribute<'a> {
    pub ds: &'a Dataset,
    /// Position of the attribute in the dataset
    pub index: usize,
}

impl<'a> Attribute<'a> {
    /// The attribute names an attribute of a well-formed dataset.
    pub open spec fn valid(&self) -> bool {
        self.ds.wf() && self.index < self.ds.atts@.len()
    }

    /// Get the name of the attribute
    pub fn name(&self) -> (r: &str)
        requires
            self.valid(),
        ensures
            r@ == self.ds.atts@[self.index as int].name@,
    {
        self.ds.atts[self.index].name.as_str()
    }

    /// Get the value of the attribute, see `read_view`
    pub fn value(&self) -> (r: Result<AttributeValue>)
        requires
            self.valid(),
        ensures
            r matches Ok(v) && value_view(v) == read_view(
                stored_view(self.ds.atts@[self.index as int].data),
            ),
    {
        Ok(value_of(&self.ds.atts[self.index].data))
    }
}

impl From<u8> for AttributeValue {
    fn from(x: u8) -> (r: Self) {
        AttributeValue::Uchar(x)
    }
}

impl FromSpecImpl<u8> for AttributeValue {
    open spec fn obeys_from_spec() -> bool {
        true
    }

    open spec fn from_spec(x: u8) -> AttributeValue {
        AttributeValue::Uchar(x)
    }
}

impl From<Vec<u8>> for AttributeValue {
    fn from(x: Vec<u8>) -> (r: Self) {
        AttributeValue::Uchars(x)
    }
}

impl FromSpecImpl<Vec<u8>> for AttributeValue {
    open spec fn obeys_from_spec() -> bool {
        true
    }

    open spec fn from_spec(x: Vec<u8>) -> AttributeValue {
        AttributeValue::Uchars(x)
    }
}

impl From<i8> for AttributeValue {
    fn from(x: i8) -> (r: Self) {
        AttributeValue::Schar(x)
    }
}

impl FromSpecImpl<i8> for AttributeValue {
    open spec fn obeys_from_spec() -> bool {
        true
    }

    open spec fn from_spec(x: i8) -> AttributeValue {
        AttributeValue::Schar(x)
    }
}

impl From<Vec<i8>> for AttributeValue {
    fn from(x: Vec<i8>) -> (r: Self) {
        AttributeValue::Schars(x)
    }
}

impl FromSpecImpl<Vec<i8>> for AttributeValue {
    open spec fn obeys_from_spec() -> bool {
        true
    }

    open spec fn from_spec(x: Vec<i8>) -> AttributeValue {
        AttributeValue::Schars(x)
    }
}

impl From<u16> for AttributeValue {
    fn from(x: u16) -> (r: Self) {
        AttributeValue::Ushort(x)
    }
}

impl FromSpecImpl<u16> for AttributeValue {
    open spec fn obeys_from_spec() -> bool {
        true
    }

    open spec fn from_spec(x: u16) -> AttributeValue {
        AttributeValue::Ushort(x)
    }
}

impl From<Vec<u16>> for AttributeValue {
    fn from(x: Vec<u16>) -> (r: Self) {
        AttributeValue::Ushorts(x)
    }
}

impl FromSpecImpl<Vec<u16>> for AttributeValue {
    open spec fn obeys_from_spec() -> bool {
        true
    }

    open spec fn from_spec(x: Vec<u16>) -> AttributeValue {
        AttributeValue::Ushorts(x)
    }
}

impl From<i16> for AttributeValue {
    fn from(x: i16) -> (r: Self) {
        AttributeValue::Short(x)
    }
}

impl FromSpecImpl<i16> for AttributeValue {
    open spec fn obeys_from_spec() -> bool {
        true
    }

    open spec fn from_spec(x: i16) -> AttributeValue {
        AttributeValue::Short(x)
    }
}

impl From<Vec<i16>> for AttributeValue {
    fn from(x: Vec<i16>) -> (r: Self) {
        AttributeValue::Shorts(x)
    }
}

impl FromSpecImpl<Vec<i16>> for AttributeValue {
    open spec fn obeys_from_spec() -> bool {
        true
    }

    open spec fn from_spec(x: Vec<i16>) -> AttributeValue {
        AttributeValue::Shorts(x)
    }
}

impl From<u32> for AttributeValue {
    fn from(x: u32) -> (r: Self) {
        AttributeValue::Uint(x)
    }
}

impl FromSpecImpl<u32> for AttributeValue {
    open spec fn obeys_from_spec() -> bool {
        true
    }

    open spec fn from_spec(x: u32) -> AttributeValue {
        AttributeValue::Uint(x)
    }
}

impl From<Vec<u32>> for AttributeValue {
    fn from(x: Vec<u32>) -> (r: Self) {
        AttributeValue::Uints(x)
    }
}

impl FromSpecImpl<Vec<u32>> for AttributeValue {
    open spec fn obeys_from_spec() -> bool {
        true
    }

    open spec fn from_spec(x: Vec<u32>) -> AttributeValue {
        AttributeValue::Uints(x)
    }
}

impl From<i32> for AttributeValue {
    fn from(x: i32) -> (r: Self) {
        AttributeValue::Int(x)
    }
}

impl FromSpecImpl<i32> for AttributeValue {
    open spec fn obeys_from_spec() -> bool {
        true
    }

    open spec fn from_spec(x: i32) -> AttributeValue {
        AttributeValue::Int(x)
    }
}

impl From<Vec<i32>> for AttributeValue {
    fn from(x: Vec<i32>) -> (r: Self) {
        AttributeValue::Ints(x)
    }
}

impl FromSpecImpl<Vec<i32>> for AttributeValue {
    open spec fn obeys_from_spec() -> bool {
        true
    }

    open spec fn from_spec(x: Vec<i32>) -> AttributeValue {
        AttributeValue::Ints(x)
    }
}

impl From<u64> for AttributeValue {
    fn from(x: u64) -> (r: Self) {
        AttributeValue::Ulonglong(x)
    }
}

impl FromSpecImpl<u64> for AttributeValue {
    open spec fn obeys_from_spec() -> bool {
        true
    }

    open spec fn from_spec(x: u64) -> AttributeValue {
        AttributeValue::Ulonglong(x)
    }
}

impl From<Vec<u64>> for AttributeValue {
    fn from(x: Vec<u64>) -> (r: Self) {
        AttributeValue::Ulonglongs(x)
    }
}

impl FromSpecImpl<Vec<u64>> for AttributeValue {
    open spec fn obeys_from_spec() -> bool {
        true
    }

    open spec fn from_spec(x: Vec<u64>) -> AttributeValue {
        AttributeValue::Ulonglongs(x)
    }
}

impl From<i64> for AttributeValue {
    fn from(x: i64) -> (r: Self) {
        AttributeValue::Longlong(x)
    }
}

impl FromSpecImpl<i64> for AttributeValue {
    open spec fn obeys_from_spec() -> bool {
        true
    }

    open spec fn from_spec(x: i64) -> AttributeValue {
        AttributeValue::Longlong(x)
    }
}

impl From<Vec<i64>> for AttributeValue {
    fn from(x: Vec<i64>) -> (r: Self) {
        AttributeValue::Longlongs(x)
    }
}

impl FromSpecImpl<Vec<i64>> for AttributeValue {
    open spec fn obeys_from_spec() -> bool {
        true
    }

    open spec fn from_spec(x: Vec<i64>) -> AttributeValue {
        AttributeValue::Longlongs(x)
    }
}

impl From<String> for AttributeValue {
    fn from(x: String) -> (r: Self) {
        AttributeValue::Str(x)
    }
}

impl FromSpecImpl<String> for AttributeValue {
    open spec fn obeys_from_spec() -> bool {
        true
    }

    open spec fn from_spec(x: String) -> AttributeValue {
        AttributeValue::Str(x)
    }
}

impl From<Vec<String>> for AttributeValue {
    fn from(x: Vec<String>) -> (r: Self) {
        AttributeValue::Strs(x)
    }
}

impl FromSpecImpl<Vec<String>> for AttributeValue {
    open spec fn obeys_from_spec() -> bool {
        true
    }

    open spec fn from_spec(x: Vec<String>) -> AttributeValue {
        AttributeValue::Strs(x)
    }
}

/// The value is the text `t`.
pub open spec fn is_text(v: AttributeValue, t: Seq<char>) -> bool {
    v matches AttributeValue::Str(s) && s@ == t
}

/// The value is the strings `ts`.
pub open spec fn is_texts(v: AttributeValue, ts: Seq<Seq<char>>) -> bool {
    v matches AttributeValue::Strs(x) && texts(x@) == ts
}

/// The texts, as character sequences.
pub open spec fn str_texts(v: Seq<&str>) -> Seq<Seq<char>> {
    v.map_values(|s: &str| s@)
}

fn owned_strings(x: &[&str]) -> (r: Vec<String>)
    ensures
        texts(r@) == str_texts(x@),
{
    let mut out: Vec<String> = Vec::new();
    for i in 0..x.len()
        invariant
            out@.len() == i,
            forall|k: int| 0 <= k < i ==> #[trigger] out@[k]@ == x@[k]@,
    {
        out.push(x[i].to_owned());
    }
    assert(texts(out@) =~= str_texts(x@));
    out
}

fn cloned_strings(x: &[String]) -> (r: Vec<String>)
    ensures
        texts(r@) == texts(x@),
{
    let mut out: Vec<String> = Vec::new();
    for i in 0..x.len()
        invariant
            out@.len() == i,
            forall|k: int| 0 <= k < i ==> #[trigger] out@[k]@ == x@[k]@,
    {
        out.push(x[i].clone());
    }
    assert(texts(out@) =~= texts(x@));
    out
}

impl<'a> From<&'a str> for AttributeValue {
    /// A text; the string that holds it is a new one, so the result is
    /// stated by its view.
    fn from(x: &'a str) -> (r: Self)
        ensures
            r matches AttributeValue::Str(s) && s@ == x@,
    {
        AttributeValue::Str(x.to_owned())
    }
}

impl<'a> FromSpecImpl<&'a str> for AttributeValue {
    open spec fn obeys_from_spec() -> bool {
        false
    }

    open spec fn from_spec(x: &'a str) -> AttributeValue {
        choose|v: AttributeValue| #[trigger] is_text(v, x@)
    }
}

impl<'a> From<&'a [String]> for AttributeValue {
    /// Copies of the strings; the result is stated by its view.
    fn from(x: &'a [String]) -> (r: Self)
        ensures
            r matches AttributeValue::Strs(v) && texts(v@) == texts(x@),
    {
        AttributeValue::Strs(cloned_strings(x))
    }
}

impl<'a> FromSpecImpl<&'a [String]> for AttributeValue {
    open spec fn obeys_from_spec() -> bool {
        false
    }

    open spec fn from_spec(x: &'a [String]) -> AttributeValue {
        choose|r: AttributeValue| #[trigger] is_texts(r, texts(x@))
    }
}

impl<'a, 'b> From<&'a [&'b str]> for AttributeValue {
    /// The texts as strings; the result is stated by its view.
    fn from(x: &'a [&'b str]) -> (r: Self)
        ensures
            r matches AttributeValue::Strs(v) && texts(v@) == str_texts(x@),
    {
        AttributeValue::Strs(owned_strings(x))
    }
}

impl<'a, 'b> FromSpecImpl<&'a [&'b str]> for AttributeValue {
    open spec fn obeys_from_spec() -> bool {
        false
    }

    open spec fn from_spec(x: &'a [&'b str]) -> AttributeValue {
        choose|r: AttributeValue| #[trigger] is_texts(r, str_texts(x@))
    }
}

impl<'a> From<Vec<&'a str>> for AttributeValue {
    /// The texts as strings; the result is stated by its view.
    fn from(x: Vec<&'a str>) -> (r: Self)
        ensures
            r matches AttributeValue::Strs(v) && texts(v@) == str_texts(x@),
    {
        AttributeValue::Strs(owned_strings(x.as_slice()))
    }
}

impl<'a> FromSpecImpl<Vec<&'a str>> for AttributeValue {
    open spec fn obeys_from_spec() -> bool {
        false
    }

    open spec fn from_spec(x: Vec<&'a str>) -> AttributeValue {
        choose|r: AttributeValue| #[trigger] is_texts(r, str_texts(x@))
    }
}

/// The number that a single numeric value holds.
pub open spec fn attr_number(v: AttributeValue) -> Option<int> {
    match v {
        AttributeValue::Uchar(x) => Some(x as int),
        AttributeValue::Schar(x) => Some(x as int),
        AttributeValue::Ushort(x) => Some(x as int),
        AttributeValue::Short(x) => Some(x as int),
        AttributeValue::Uint(x) => Some(x as int),
        AttributeValue::Int(x) => Some(x as int),
        AttributeValue::Ulonglong(x) => Some(x as int),
        AttributeValue::Longlong(x) => Some(x as int),
        _ => None,
    }
}

impl TryFrom<AttributeValue> for u8 {
    type Error = Error;

    /// The number of a single numeric value, where `u8` holds it; other
    /// values do not convert.
    fn try_from(attr: AttributeValue) -> (r: Result<u8>)
        ensures
            match attr_number(attr) {
                Some(x) => if 0 <= x <= 255 {
                    r == Ok::<u8, Error>(x as u8)
                } else {
                    r matches Err(Error::Conversion(_))
                },
                None => r matches Err(e) && is_message(e, "Conversion not supported"@),
            },
    {
        match attr {
            AttributeValue::Uchar(x) => Ok(x),
            AttributeValue::Schar(x) => match u8::try_from(x) {
                Ok(y) => Ok(y),
                Err(e) => Err(Error::Conversion(e)),
            },
            AttributeValue::Ushort(x) => match u8::try_from(x) {
                Ok(y) => Ok(y),
                Err(e) => Err(Error::Conversion(e)),
            },
            AttributeValue::Short(x) => match u8::try_from(x) {
                Ok(y) => Ok(y),
                Err(e) => Err(Error::Conversion(e)),
            },
            AttributeValue::Uint(x) => match u8::try_from(x) {
                Ok(y) => Ok(y),
                Err(e) => Err(Error::Conversion(e)),
            },
            AttributeValue::Int(x) => match u8::try_from(x) {
                Ok(y) => Ok(y),
                Err(e) => Err(Error::Conversion(e)),
            },
            AttributeValue::Ulonglong(x) => match u8::try_from(x) {
                Ok(y) => Ok(y),
                Err(e) => Err(Error::Conversion(e)),
            },
            AttributeValue::Longlong(x) => match u8::try_from(x) {
                Ok(y) => Ok(y),
                Err(e) => Err(Error::Conversion(e)),
            },
            _ => Err(Error::Str("Conversion not supported".to_owned())),
        }
    }
}

impl TryFromSpecImpl<AttributeValue> for u8 {
    open spec fn obeys_try_from_spec() -> bool {
        false
    }

    open spec fn try_from_spec(attr: AttributeValue) -> Result<u8> {
        match attr_number(attr) {
            Some(x) => Ok(x as u8),
            None => Err(Error::IndexLen),
        }
    }
}

impl TryFrom<AttributeValue> for i8 {
    type Error = Error;

    /// The number of a single numeric value, where `i8` holds it; other
    /// values do not convert.
    fn try_from(attr: AttributeValue) -> (r: Result<i8>)
        ensures
            match attr_number(attr) {
                Some(x) => if -128 <= x <= 127 {
                    r == Ok::<i8, Error>(x as i8)
                } else {
                    r matches Err(Error::Conversion(_))
                },
                None => r matches Err(e) && is_message(e, "Conversion not supported"@),
            },
    {
        match attr {
            AttributeValue::Uchar(x) => match i8::try_from(x as u16) {
                Ok(y) => Ok(y),
                Err(e) => Err(Error::Conversion(e)),
            },
            AttributeValue::Schar(x) => Ok(x),
            AttributeValue::Ushort(x) => match i8::try_from(x) {
                Ok(y) => Ok(y),
                Err(e) => Err(Error::Conversion(e)),
            },
            AttributeValue::Short(x) => match i8::try_from(x) {
                Ok(y) => Ok(y),
                Err(e) => Err(Error::Conversion(e)),
            },
            AttributeValue::Uint(x) => match i8::try_from(x) {
                Ok(y) => Ok(y),
                Err(e) => Err(Error::Conversion(e)),
            },
            AttributeValue::Int(x) => match i8::try_from(x) {
                Ok(y) => Ok(y),
                Err(e) => Err(Error::Conversion(e)),
            },
            AttributeValue::Ulonglong(x) => match i8::try_from(x) {
                Ok(y) => Ok(y),
                Err(e) => Err(Error::Conversion(e)),
            },
            AttributeValue::Longlong(x) => match i8::try_from(x) {
                Ok(y) => Ok(y),
                Err(e) => Err(Error::Conversion(e)),
            },
            _ => Err(Error::Str("Conversion not supported".to_owned())),
        }
    }
}

impl TryFromSpecImpl<AttributeValue> for i8 {
    open spec fn obeys_try_from_spec() -> bool {
        false
    }

    open spec fn try_from_spec(attr: AttributeValue) -> Result<i8> {
        match attr_number(attr) {
            Some(x) => Ok(x as i8),
            None => Err(Error::IndexLen),
        }
    }
}

impl TryFrom<AttributeValue> for u16 {
    type Error = Error;

    /// The number of a single numeric value, where `u16` holds it; other
    /// values do not convert.
    fn try_from(attr: AttributeValue) -> (r: Result<u16>)
        ensures
            match attr_number(attr) {
                Some(x) => if 0 <= x <= 65535 {
                    r == Ok::<u16, Error>(x as u16)
                } else {
                    r matches Err(Error::Conversion(_))
                },
                None => r matches Err(e) && is_message(e, "Conversion not supported"@),
            },
    {
        match attr {
            AttributeValue::Uchar(x) => Ok(x as u16),
            AttributeValue::Schar(x) => match u16::try_from(x) {
                Ok(y) => Ok(y),
                Err(e) => Err(Error::Conversion(e)),
            },
            AttributeValue::Ushort(x) => Ok(x),
            AttributeValue::Short(x) => match u16::try_from(x) {
                Ok(y) => Ok(y),
                Err(e) => Err(Error::Conversion(e)),
            },
            AttributeValue::Uint(x) => match u16::try_from(x) {
                Ok(y) => Ok(y),
                Err(e) => Err(Error::Conversion(e)),
            },
            AttributeValue::Int(x) => match u16::try_from(x) {
                Ok(y) => Ok(y),
                Err(e) => Err(Error::Conversion(e)),
            },
            AttributeValue::Ulonglong(x) => match u16::try_from(x) {
                Ok(y) => Ok(y),
                Err(e) => Err(Error::Conversion(e)),
            },
            AttributeValue::Longlong(x) => match u16::try_from(x) {
                Ok(y) => Ok(y),
                Err(e) => Err(Error::Conversion(e)),
            },
            _ => Err(Error::Str("Conversion not supported".to_owned())),
        }
    }
}

impl TryFromSpecImpl<AttributeValue> for u16 {
    open spec fn obeys_try_from_spec() -> bool {
        false
    }

    open spec fn try_from_spec(attr: AttributeValue) -> Result<u16> {
        match attr_number(attr) {
            Some(x) => Ok(x as u16),
            None => Err(Error::IndexLen),
        }
    }
}

impl TryFrom<AttributeValue> for i16 {
    type Error = Error;

    /// The number of a single numeric value, where `i16` holds it; other
    /// values do not convert.
    fn try_from(attr: AttributeValue) -> (r: Result<i16>)
        ensures
            match attr_number(attr) {
                Some(x) => if -32768 <= x <= 32767 {
                    r == Ok::<i16, Error>(x as i16)
                } else {
                    r matches Err(Error::Conversion(_))
                },
                None => r matches Err(e) && is_message(e, "Conversion not supported"@),
            },
    {
        match attr {
            AttributeValue::Uchar(x) => Ok(x as i16),
            AttributeValue::Schar(x) => Ok(x as i16),
            AttributeValue::Ushort(x) => match i16::try_from(x as u32) {
                Ok(y) => Ok(y),
                Err(e) => Err(Error::Conversion(e)),
            },
            AttributeValue::Short(x) => Ok(x),
            AttributeValue::Uint(x) => match i16::try_from(x) {
                Ok(y) => Ok(y),
                Err(e) => Err(Error::Conversion(e)),
            },
            AttributeValue::Int(x) => match i16::try_from(x) {
                Ok(y) => Ok(y),
                Err(e) => Err(Error::Conversion(e)),
            },
            AttributeValue::Ulonglong(x) => match i16::try_from(x) {
                Ok(y) => Ok(y),
                Err(e) => Err(Error::Conversion(e)),
            },
            AttributeValue::Longlong(x) => match i16::try_from(x) {
                Ok(y) => Ok(y),
                Err(e) => Err(Error::Conversion(e)),
            },
            _ => Err(Error::Str("Conversion not supported".to_owned())),
        }
    }
}

impl TryFromSpecImpl<AttributeValue> for i16 {
    open spec fn obeys_try_from_spec() -> bool {
        false
    }

    open spec fn try_from_spec(attr: AttributeValue) -> Result<i16> {
        match attr_number(attr) {
            Some(x) => Ok(x as i16),
            None => Err(Error::IndexLen),
        }
    }
}

impl TryFrom<AttributeValue> for u32 {
    type Error = Error;

    /// The number of a single numeric value, where `u32` holds it; other
    /// values do not convert.
    fn try_from(attr: AttributeValue) -> (r: Result<u32>)
        ensures
            match attr_number(attr) {
                Some(x) => if 0 <= x <= 4294967295 {
                    r == Ok::<u32, Error>(x as u32)
                } else {
                    r matches Err(Error::Conversion(_))
                },
                None => r matches Err(e) && is_message(e, "Conversion not supported"@),
            },
    {
        match attr {
            AttributeValue::Uchar(x) => Ok(x as u32),
            AttributeValue::Schar(x) => match u32::try_from(x) {
                Ok(y) => Ok(y),
                Err(e) => Err(Error::Conversion(e)),
            },
            AttributeValue::Ushort(x) => Ok(x as u32),
            AttributeValue::Short(x) => match u32::try_from(x) {
                Ok(y) => Ok(y),
                Err(e) => Err(Error::Conversion(e)),
            },
            AttributeValue::Uint(x) => Ok(x),
            AttributeValue::Int(x) => match u32::try_from(x) {
                Ok(y) => Ok(y),
                Err(e) => Err(Error::Conversion(e)),
            },
            AttributeValue::Ulonglong(x) => match u32::try_from(x) {
                Ok(y) => Ok(y),
                Err(e) => Err(Error::Conversion(e)),
            },
            AttributeValue::Longlong(x) => match u32::try_from(x) {
                Ok(y) => Ok(y),
                Err(e) => Err(Error::Conversion(e)),
            },
            _ => Err(Error::Str("Conversion not supported".to_owned())),
        }
    }
}

impl TryFromSpecImpl<AttributeValue> for u32 {
    open spec fn obeys_try_from_spec() -> bool {
        false
    }

    open spec fn try_from_spec(attr: AttributeValue) -> Result<u32> {
        match attr_number(attr) {
            Some(x) => Ok(x as u32),
            None => Err(Error::IndexLen),
        }
    }
}

impl TryFrom<AttributeValue> for i32 {
    type Error = Error;

    /// The number of a single numeric value, where `i32` holds it; other
    /// values do not convert.
    fn try_from(attr: AttributeValue) -> (r: Result<i32>)
        ensures
            match attr_number(attr) {
                Some(x) => if -2147483648 <= x <= 2147483647 {
                    r == Ok::<i32, Error>(x as i32)
                } else {
                    r matches Err(Error::Conversion(_))
                },
                None => r matches Err(e) && is_message(e, "Conversion not supported"@),
            },
    {
        match attr {
            AttributeValue::Uchar(x) => Ok(x as i32),
            AttributeValue::Schar(x) => Ok(x as i32),
            AttributeValue::Ushort(x) => Ok(x as i32),
            AttributeValue::Short(x) => Ok(x as i32),
            AttributeValue::Uint(x) => match i32::try_from(x as u64) {
                Ok(y) => Ok(y),
                Err(e) => Err(Error::Conversion(e)),
            },
            AttributeValue::Int(x) => Ok(x),
            AttributeValue::Ulonglong(x) => match i32::try_from(x) {
                Ok(y) => Ok(y),
                Err(e) => Err(Error::Conversion(e)),
            },
            AttributeValue::Longlong(x) => match i32::try_from(x) {
                Ok(y) => Ok(y),
                Err(e) => Err(Error::Conversion(e)),
            },
            _ => Err(Error::Str("Conversion not supported".to_owned())),
        }
    }
}

impl TryFromSpecImpl<AttributeValue> for i32 {
    open spec fn obeys_try_from_spec() -> bool {
        false
    }

    open spec fn try_from_spec(attr: AttributeValue) -> Result<i32> {
        match attr_number(attr) {
            Some(x) => Ok(x as i32),
            None => Err(Error::IndexLen),
        }
    }
}

impl TryFrom<AttributeValue> for u64 {
    type Error = Error;

    /// The number of a single numeric value, where `u64` holds it; other
    /// values do not convert.
    fn try_from(attr: AttributeValue) -> (r: Result<u64>)
        ensures
            match attr_number(attr) {
                Some(x) => if 0 <= x <= 18446744073709551615 {
                    r == Ok::<u64, Error>(x as u64)
                } else {
                    r matches Err(Error::Conversion(_))
                },
                None => r matches Err(e) && is_message(e, "Conversion not supported"@),
            },
    {
        match attr {
            AttributeValue::Uchar(x) => Ok(x as u64),
            AttributeValue::Schar(x) => match u64::try_from(x) {
                Ok(y) => Ok(y),
                Err(e) => Err(Error::Conversion(e)),
            },
            AttributeValue::Ushort(x) => Ok(x as u64),
            AttributeValue::Short(x) => match u64::try_from(x) {
                Ok(y) => Ok(y),
                Err(e) => Err(Error::Conversion(e)),
            },
            AttributeValue::Uint(x) => Ok(x as u64),
            AttributeValue::Int(x) => match u64::try_from(x) {
                Ok(y) => Ok(y),
                Err(e) => Err(Error::Conversion(e)),
            },
            AttributeValue::Ulonglong(x) => Ok(x),
            AttributeValue::Longlong(x) => match u64::try_from(x) {
                Ok(y) => Ok(y),
                Err(e) => Err(Error::Conversion(e)),
            },
            _ => Err(Error::Str("Conversion not supported".to_owned())),
        }
    }
}

impl TryFromSpecImpl<AttributeValue> for u64 {
    open spec fn obeys_try_from_spec() -> bool {
        false
    }

    open spec fn try_from_spec(attr: AttributeValue) -> Result<u64> {
        match attr_number(attr) {
            Some(x) => Ok(x as u64),
            None => Err(Error::IndexLen),
        }
    }
}

impl TryFrom<AttributeValue> for i64 {
    type Error = Error;

    /// The number of a single numeric value, where `i64` holds it; other
    /// values do not convert.
    fn try_from(attr: AttributeValue) -> (r: Result<i64>)
        ensures
            match attr_number(attr) {
                Some(x) => if -9223372036854775808 <= x <= 9223372036854775807 {
                    r == Ok::<i64, Error>(x as i64)
                } else {
                    r matches Err(Error::Conversion(_))
                },
                None => r matches Err(e) && is_message(e, "Conversion not supported"@),
            },
    {
        match attr {
            AttributeValue::Uchar(x) => Ok(x as i64),
            AttributeValue::Schar(x) => Ok(x as i64),
            AttributeValue::Ushort(x) => Ok(x as i64),
            AttributeValue::Short(x) => Ok(x as i64),
            AttributeValue::Uint(x) => Ok(x as i64),
            AttributeValue::Int(x) => Ok(x as i64),
            AttributeValue::Ulonglong(x) => match i64::try_from(x as u128) {
                Ok(y) => Ok(y),
                Err(e) => Err(Error::Conversion(e)),
            },
            AttributeValue::Longlong(x) => Ok(x),
            _ => Err(Error::Str("Conversion not supported".to_owned())),
        }
    }
}

impl TryFromSpecImpl<AttributeValue> for i64 {
    open spec fn obeys_try_from_spec() -> bool {
        false
    }

    open spec fn try_from_spec(attr: AttributeValue) -> Result<i64> {
        match attr_number(attr) {
            Some(x) => Ok(x as i64),
            None => Err(Error::IndexLen),
        }
    }
}

impl TryFrom<AttributeValue> for String {
    type Error = Error;

    /// The text of a text value; other values do not convert.
    fn try_from(attr: AttributeValue) -> (r: Result<String>)
        ensures
            match attr {
                AttributeValue::Str(s) => r == Ok::<String, Error>(s),
                _ => r matches Err(e) && is_message(e, "Conversion not supported"@),
            },
    {
        match attr {
            AttributeValue::Str(s) => Ok(s),
            _ => Err(Error::Str("Conversion not supported".to_owned())),
        }
    }
}

impl TryFromSpecImpl<AttributeValue> for String {
    open spec fn obeys_try_from_spec() -> bool {
        false
    }

    open spec fn try_from_spec(attr: AttributeValue) -> Result<String> {
        match attr {
            AttributeValue::Str(s) => Ok(s),
            _ => Err(Error::IndexLen),
        }
    }
}

} // verus!
