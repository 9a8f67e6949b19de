//! Types found in `netCDF` files: the basic types, the descriptors of user
//! defined types, their sizes, their identifiers and their equality.
use vstd::prelude::*;
use vstd::string::StringExecFns;

use crate::error::{Error, Result};

verus! {

pub const NC_BYTE: i32 = 1;
pub const NC_CHAR: i32 = 2;
pub const NC_SHORT: i32 = 3;
pub const NC_INT: i32 = 4;
pub const NC_FLOAT: i32 = 5;
pub const NC_DOUBLE: i32 = 6;
pub const NC_UBYTE: i32 = 7;
pub const NC_USHORT: i32 = 8;
pub const NC_UINT: i32 = 9;
pub const NC_INT64: i32 = 10;
pub const NC_UINT64: i32 = 11;
pub const NC_STRING: i32 = 12;
pub const NC_VLEN: i32 = 13;
pub const NC_OPAQUE: i32 = 14;
pub const NC_ENUM: i32 = 15;
pub const NC_COMPOUND: i32 = 16;

/// Basic numeric types
#[derive(Copy, Clone, Debug, PartialEq, Eq, Structural)]
pub enum BasicType {
    /// Signed 1 byte integer
    Byte,
    /// Unsigned 1 byte integer
    Ubyte,
    /// Signed 2 byte integer
    Short,
    /// Unsigned 2 byte integer
    Ushort,
    /// Signed 4 byte integer
    Int,
    /// Unsigned 4 byte integer
    Uint,
    /// Signed 8 byte integer
    Int64,
    /// Unsigned 8 byte integer
    Uint64,
    /// Single precision floating point number
    Float,
    /// Double precision floating point number
    Double,
}

impl BasicType {
    pub fn is_i8(self) -> (r: bool)
        ensures
            r == (self == BasicType::Byte),
    {
        self == BasicType::Byte
    }

    pub fn is_u8(self) -> (r: bool)
        ensures
            r == (self == BasicType::Ubyte),
    {
        self == BasicType::Ubyte
    }

    pub fn is_i16(self) -> (r: bool)
        ensures
            r == (self == BasicType::Short),
    {
        self == BasicType::Short
    }

    pub fn is_u16(self) -> (r: bool)
        ensures
            r == (self == BasicType::Ushort),
    {
        self == BasicType::Ushort
    }

    pub fn is_i32(self) -> (r: bool)
        ensures
            r == (self == BasicType::Int),
    {
        self == BasicType::Int
    }

    pub fn is_u32(self) -> (r: bool)
        ensures
            r == (self == BasicType::Uint),
    {
        self == BasicType::Uint
    }

    pub fn is_i64(self) -> (r: bool)
        ensures
            r == (self == BasicType::Int64),
    {
        self == BasicType::Int64
    }

    pub fn is_u64(self) -> (r: bool)
        ensures
            r == (self == BasicType::Uint64),
    {
        self == BasicType::Uint64
    }

    pub fn is_f32(self) -> (r: bool)
        ensures
            r == (self == BasicType::Float),
    {
        self == BasicType::Float
    }

    pub fn is_f64(self) -> (r: bool)
        ensures
            r == (self == BasicType::Double),
    {
        self == BasicType::Double
    }
}

/// Description of the type of a variable
#[derive(Debug)]
pub enum VariableType {
    /// A basic numeric type
    Basic(BasicType),
    /// A string type
    String,
    /// Some bytes
    Opaque(OpaqueType),
}

/// The basic type of a description, if it has one.
pub open spec fn basic_of(t: VariableType) -> Option<BasicType> {
    match t {
        VariableType::Basic(x) => Some(x),
        _ => None,
    }
}

impl VariableType {
    /// Get the basic type, if this type is a simple numeric type
    pub fn as_basic(&self) -> (r: Option<BasicType>)
        ensures
            r == basic_of(*self),
    {
        match self {
            VariableType::Basic(x) => Some(*x),
            _ => None,
        }
    }

    pub fn is_string(&self) -> (r: bool)
        ensures
            r == (*self is String),
    {
        match self {
            VariableType::String => true,
            _ => false,
        }
    }

    pub fn is_i8(&self) -> (r: bool)
        ensures
            r == (basic_of(*self) == Some(BasicType::Byte)),
    {
        match self.as_basic() {
            Some(x) => x.is_i8(),
            None => false,
        }
    }

    pub fn is_u8(&self) -> (r: bool)
        ensures
            r == (basic_of(*self) == Some(BasicType::Ubyte)),
    {
        match self.as_basic() {
            Some(x) => x.is_u8(),
            None => false,
        }
    }

    pub fn is_i16(&self) -> (r: bool)
        ensures
            r == (basic_of(*self) == Some(BasicType::Short)),
    {
        match self.as_basic() {
            Some(x) => x.is_i16(),
            None => false,
        }
    }

    pub fn is_u16(&self) -> (r: bool)
        ensures
            r == (basic_of(*self) == Some(BasicType::Ushort)),
    {
        match self.as_basic() {
            Some(x) => x.is_u16(),
            None => false,
        }
    }

    pub fn is_i32(&self) -> (r: bool)
        ensures
            r == (basic_of(*self) == Some(BasicType::Int)),
    {
        match self.as_basic() {
            Some(x) => x.is_i32(),
            None => false,
        }
    }

    pub fn is_u32(&self) -> (r: bool)
        ensures
            r == (basic_of(*self) == Some(BasicType::Uint)),
    {
        match self.as_basic() {
            Some(x) => x.is_u32(),
            None => false,
        }
    }

    pub fn is_i64(&self) -> (r: bool)
        ensures
            r == (basic_of(*self) == Some(BasicType::Int64)),
    {
        match self.as_basic() {
            Some(x) => x.is_i64(),
            None => false,
        }
    }

    pub fn is_u64(&self) -> (r: bool)
        ensures
            r == (basic_of(*self) == Some(BasicType::Uint64)),
    {
        match self.as_basic() {
            Some(x) => x.is_u64(),
            None => false,
        }
    }

    pub fn is_f32(&self) -> (r: bool)
        ensures
            r == (basic_of(*self) == Some(BasicType::Float)),
    {
        match self.as_basic() {
            Some(x) => x.is_f32(),
            None => false,
        }
    }

    pub fn is_f64(&self) -> (r: bool)
        ensures
            r == (basic_of(*self) == Some(BasicType::Double)),
    {
        match self.as_basic() {
            Some(x) => x.is_f64(),
            None => false,
        }
    }
}

/// The description of the type with a given identifier, among the types
/// that are known without looking into a file.
pub open spec fn basic_description(xtype: i32) -> Option<VariableType> {
    if xtype == NC_BYTE {
        Some(VariableType::Basic(BasicType::Byte))
    } else if xtype == NC_UBYTE {
        Some(VariableType::Basic(BasicType::Ubyte))
    } else if xtype == NC_SHORT {
        Some(VariableType::Basic(BasicType::Short))
    } else if xtype == NC_USHORT {
        Some(VariableType::Basic(BasicType::Ushort))
    } else if xtype == NC_INT {
        Some(VariableType::Basic(BasicType::Int))
    } else if xtype == NC_UINT {
        Some(VariableType::Basic(BasicType::Uint))
    } else if xtype == NC_INT64 {
        Some(VariableType::Basic(BasicType::Int64))
    } else if xtype == NC_UINT64 {
        Some(VariableType::Basic(BasicType::Uint64))
    } else if xtype == NC_FLOAT {
        Some(VariableType::Basic(BasicType::Float))
    } else if xtype == NC_DOUBLE {
        Some(VariableType::Basic(BasicType::Double))
    } else if xtype == NC_STRING {
        Some(VariableType::String)
    } else {
        None
    }
}

/// The decimal digits of `n`, most significant first.
pub open spec fn digits_of(n: nat) -> Seq<char>
    decreases n,
{
    if n < 10 {
        seq![(n + 48) as char]
    } else {
        digits_of(n / 10).push(((n % 10) + 48) as char)
    }
}

/// An integer written in decimal, with a leading minus sign when negative.
pub open spec fn decimal(x: int) -> Seq<char> {
    if x < 0 {
        seq!['-'] + digits_of((-x) as nat)
    } else {
        digits_of(x as nat)
    }
}

/// The message for a type identifier that is not known.
pub open spec fn unknown_type_message(xtype: i32) -> Seq<char> {
    decimal(xtype as int) + " is still an unknown type"@
}

/// The decimal digit `d` as a string.
fn digit_str(d: u32) -> (r: &'static str)
    requires
        d < 10,
    ensures
        r@ == seq![(d + 48) as char],
{
    if d == 0 {
        proof {
            reveal_strlit("0");
        }
        "0"
    } else if d == 1 {
        proof {
            reveal_strlit("1");
        }
        "1"
    } else if d == 2 {
        proof {
            reveal_strlit("2");
        }
        "2"
    } else if d == 3 {
        proof {
            reveal_strlit("3");
        }
        "3"
    } else if d == 4 {
        proof {
            reveal_strlit("4");
        }
        "4"
    } else if d == 5 {
        proof {
            reveal_strlit("5");
        }
        "5"
    } else if d == 6 {
        proof {
            reveal_strlit("6");
        }
        "6"
    } else if d == 7 {
        proof {
            reveal_strlit("7");
        }
        "7"
    } else if d == 8 {
        proof {
            reveal_strlit("8");
        }
        "8"
    } else {
        proof {
            reveal_strlit("9");
        }
        "9"
    }
}

/// The integer written in decimal.
fn decimal_string(x: i32) -> (s: String)
    ensures
        s@ == decimal(x as int),
{
    let neg = x < 0;
    let n0: u32 = if neg {
        (0i64 - x as i64) as u32
    } else {
        x as u32
    };
    assert(n0 as int == if neg { -(x as int) } else { x as int });
    let mut s = String::from_str(digit_str(n0 % 10));
    let mut n: u32 = n0 / 10;
    while n > 0
        invariant
            n > 0 ==> digits_of(n0 as nat) == digits_of(n as nat) + s@,
            n == 0 ==> digits_of(n0 as nat) == s@,
        decreases n,
    {
        let d = String::from_str(digit_str(n % 10));
        let ghost prev = s@;
        s = d.concat(s.as_str());
        proof {
            if n >= 10 {
                assert(digits_of((n / 10) as nat) + s@ =~= digits_of((n / 10) as nat).push(((n % 10) + 48) as char) + prev);
            } else {
                assert(s@ =~= digits_of(n as nat) + prev);
            }
        }
        n = n / 10;
    }
    if neg {
        s = String::from_str("-").concat(s.as_str());
        proof {
            reveal_strlit("-");
        }
    }
    s
}

/// Formats the message for an unknown type identifier: the identifier in
/// decimal, then the text.
fn format_unknown_type(xtype: i32) -> (s: String)
    ensures
        s@ == unknown_type_message(xtype),
{
    let mut s = decimal_string(xtype);
    s.append(" is still an unknown type");
    proof {
        reveal_strlit(" is still an unknown type");
    }
    s
}

impl VariableType {
    /// Get the variable type from the id
    pub fn from_id(_ncid: i32, xtype: i32) -> (r: Result<VariableType>)
        ensures
            basic_description(xtype) matches Some(t) ==> (r matches Ok(u) && u == t),
            basic_description(xtype) is None ==> (r matches Err(Error::Str(m)) && m@
                == unknown_type_message(xtype)),
    {
        if xtype == NC_BYTE {
            Ok(VariableType::Basic(BasicType::Byte))
        } else if xtype == NC_UBYTE {
            Ok(VariableType::Basic(BasicType::Ubyte))
        } else if xtype == NC_SHORT {
            Ok(VariableType::Basic(BasicType::Short))
        } else if xtype == NC_USHORT {
            Ok(VariableType::Basic(BasicType::Ushort))
        } else if xtype == NC_INT {
            Ok(VariableType::Basic(BasicType::Int))
        } else if xtype == NC_UINT {
            Ok(VariableType::Basic(BasicType::Uint))
        } else if xtype == NC_INT64 {
            Ok(VariableType::Basic(BasicType::Int64))
        } else if xtype == NC_UINT64 {
            Ok(VariableType::Basic(BasicType::Uint64))
        } else if xtype == NC_FLOAT {
            Ok(VariableType::Basic(BasicType::Float))
        } else if xtype == NC_DOUBLE {
            Ok(VariableType::Basic(BasicType::Double))
        } else if xtype == NC_STRING {
            Ok(VariableType::String)
        } else {
            Err(Error::Str(format_unknown_type(xtype)))
        }
    }
}

/// A `netCDF` type
///
/// This enum contains all variants of types allowed by `netCDF`.
#[derive(Debug)]
pub enum NcVariableType {
    /// A compound struct
    Compound(CompoundType),
    /// A bag of bytes
    Opaque(OpaqueType),
    /// An enumeration of names/values
    Enum(EnumType),
    /// Ragged array
    Vlen(VlenType),
    /// String type
    String,
    /// Integer type
    Int(IntType),
    /// Floating type
    Float(FloatType),
    /// Char type
    Char,
}

/// Opaque blob of bytes with a name
#[derive(Clone, PartialEq, Eq, Debug)]
pub struct OpaqueType {
    /// Name of type
    pub name: String,
    /// Size of type in bytes
    pub size: usize,
}

/// Integer type used in `netCDF`
#[derive(Copy, Clone, PartialEq, Eq, Structural, Debug)]
pub enum IntType {
    U8,
    U16,
    U32,
    U64,
    I8,
    I16,
    I32,
    I64,
}

/// Floating type used in `netCDF`
#[derive(Copy, Clone, PartialEq, Eq, Structural, Debug)]
pub enum FloatType {
    F32,
    F64,
}

/// Field of a compound struct
#[derive(PartialEq, Eq, Debug)]
pub struct CompoundTypeField {
    /// Name of the compound field
    pub name: String,
    /// Type of the compound field
    pub basetype: NcVariableType,
    /// Dimensionality of the compound field (if any)
    pub arraydims: Option<Vec<usize>>,
    /// Offset of this field (in bytes) relative to the start
    /// of the compound
    pub offset: usize,
}

/// Compound/record type
#[derive(Debug)]
pub struct CompoundType {
    /// Name of the compound
    pub name: String,
    /// Size in bytes of the compound
    pub size: usize,
    /// Fields of the compound
    pub fields: Vec<CompoundTypeField>,
}

/// Inner values of the enum type
///
/// `netCDF` only supports integer types
#[derive(Clone, PartialEq, Eq, Debug)]
pub enum EnumTypeValues {
    U8(Vec<u8>),
    U16(Vec<u16>),
    U32(Vec<u32>),
    U64(Vec<u64>),
    I8(Vec<i8>),
    I16(Vec<i16>),
    I32(Vec<i32>),
    I64(Vec<i64>),
}

/// Enum type
#[derive(Clone, Debug)]
pub struct EnumType {
    /// Name of enum
    pub name: String,
    /// Name of enumeration fields
    pub fieldnames: Vec<String>,
    /// Values of enumeration fields
    pub fieldvalues: EnumTypeValues,
}

/// Ragged array
#[derive(PartialEq, Eq, Debug)]
pub struct VlenType {
    /// Name of type
    pub name: String,
    /// Inner type of array
    pub basetype: Box<NcVariableType>,
}

/// Size in bytes of an integer type.
pub open spec fn int_size(t: IntType) -> int {
    match t {
        IntType::U8 | IntType::I8 => 1,
        IntType::U16 | IntType::I16 => 2,
        IntType::U32 | IntType::I32 => 4,
        IntType::U64 | IntType::I64 => 8,
    }
}

/// Size in bytes of a floating type.
pub open spec fn float_size(t: FloatType) -> int {
    match t {
        FloatType::F32 => 4,
        FloatType::F64 => 8,
    }
}

/// Size in bytes of the integer type of an enumeration.
pub open spec fn enum_size(v: EnumTypeValues) -> int {
    match v {
        EnumTypeValues::U8(_) | EnumTypeValues::I8(_) => 1,
        EnumTypeValues::U16(_) | EnumTypeValues::I16(_) => 2,
        EnumTypeValues::U32(_) | EnumTypeValues::I32(_) => 4,
        EnumTypeValues::U64(_) | EnumTypeValues::I64(_) => 8,
    }
}

/// Size in bytes of a value of the type in memory: a pointer for strings, a
/// length and a pointer for ragged arrays, the declared size for compounds
/// and opaque types.
pub open spec fn type_size(t: NcVariableType) -> int {
    match t {
        NcVariableType::Compound(x) => x.size as int,
        NcVariableType::Opaque(x) => x.size as int,
        NcVariableType::Enum(x) => enum_size(x.fieldvalues),
        NcVariableType::Vlen(_) => 2 * core::mem::size_of::<usize>(),
        NcVariableType::Int(x) => int_size(x),
        NcVariableType::Float(x) => float_size(x),
        NcVariableType::String => core::mem::size_of::<usize>() as int,
        NcVariableType::Char => 1,
    }
}

impl OpaqueType {
    fn size(&self) -> (r: usize)
        ensures
            r == self.size,
    {
        self.size
    }
}

impl IntType {
    fn size(&self) -> (r: usize)
        ensures
            r == int_size(*self),
    {
        match self {
            IntType::U8 | IntType::I8 => 1,
            IntType::U16 | IntType::I16 => 2,
            IntType::U32 | IntType::I32 => 4,
            IntType::U64 | IntType::I64 => 8,
        }
    }
}

impl FloatType {
    fn size(&self) -> (r: usize)
        ensures
            r == float_size(*self),
    {
        match self {
            FloatType::F32 => 4,
            FloatType::F64 => 8,
        }
    }
}

impl CompoundType {
    fn size(&self) -> (r: usize)
        ensures
            r == self.size,
    {
        self.size
    }
}

impl EnumType {
    /// Size of enum in bytes
    fn size(&self) -> (r: usize)
        ensures
            r == enum_size(self.fieldvalues),
    {
        match self.fieldvalues {
            EnumTypeValues::U8(_) | EnumTypeValues::I8(_) => 1,
            EnumTypeValues::U16(_) | EnumTypeValues::I16(_) => 2,
            EnumTypeValues::U32(_) | EnumTypeValues::I32(_) => 4,
            EnumTypeValues::U64(_) | EnumTypeValues::I64(_) => 8,
        }
    }
}

impl VlenType {
    /// Size in bytes
    fn size(&self) -> (r: usize)
        ensures
            r == 2 * core::mem::size_of::<usize>(),
    {
        proof {
            broadcast use vstd::layout::layout_of_primitives;
        }
        2 * core::mem::size_of::<usize>()
    }
}

impl NcVariableType {
    /// Size (in bytes) of the type in memory
    pub fn size(&self) -> (r: usize)
        ensures
            r == type_size(*self),
    {
        match self {
            NcVariableType::Compound(x) => x.size(),
            NcVariableType::Opaque(x) => x.size(),
            NcVariableType::Enum(x) => x.size(),
            NcVariableType::Vlen(x) => x.size(),
            NcVariableType::Int(x) => x.size(),
            NcVariableType::Float(x) => x.size(),
            NcVariableType::String => core::mem::size_of::<usize>(),
            NcVariableType::Char => 1,
        }
    }
}

/// The integer identifier of the inner type of an enumeration.
pub open spec fn enum_base_id(v: EnumTypeValues) -> i32 {
    match v {
        EnumTypeValues::U8(_) => NC_UBYTE,
        EnumTypeValues::I8(_) => NC_BYTE,
        EnumTypeValues::U16(_) => NC_USHORT,
        EnumTypeValues::I16(_) => NC_SHORT,
        EnumTypeValues::U32(_) => NC_UINT,
        EnumTypeValues::I32(_) => NC_INT,
        EnumTypeValues::U64(_) => NC_UINT64,
        EnumTypeValues::I64(_) => NC_INT64,
    }
}

impl EnumTypeValues {
    /// Inner type of the enum
    pub fn nc_type(&self) -> (r: i32)
        ensures
            r == enum_base_id(*self),
    {
        match self {
            EnumTypeValues::U8(_) => NC_UBYTE,
            EnumTypeValues::I8(_) => NC_BYTE,
            EnumTypeValues::U16(_) => NC_USHORT,
            EnumTypeValues::I16(_) => NC_SHORT,
            EnumTypeValues::U32(_) => NC_UINT,
            EnumTypeValues::I32(_) => NC_INT,
            EnumTypeValues::U64(_) => NC_UINT64,
            EnumTypeValues::I64(_) => NC_INT64,
        }
    }
}

/// Dimensions of the array a compound field holds, if it holds one.
#[derive(Copy, Clone, Debug)]
pub enum ArrayElements {
    NoElements,
    One([usize; 1]),
    Two([usize; 2]),
    Three([usize; 3]),
}

impl ArrayElements {
    pub fn as_dims(&self) -> (r: Option<&[usize]>)
        ensures
            *self is NoElements <==> r is None,
            *self matches ArrayElements::One(x) ==> (r matches Some(s) && s@ == x@),
            *self matches ArrayElements::Two(x) ==> (r matches Some(s) && s@ == x@),
            *self matches ArrayElements::Three(x) ==> (r matches Some(s) && s@ == x@),
    {
        match self {
            ArrayElements::NoElements => None,
            ArrayElements::One(x) => Some(x.as_slice()),
            ArrayElements::Two(x) => Some(x.as_slice()),
            ArrayElements::Three(x) => Some(x.as_slice()),
        }
    }
}


/// The values of an enumeration, as integers.
pub open spec fn enum_values(v: EnumTypeValues) -> Seq<int> {
    match v {
        EnumTypeValues::U8(x) => x@.map_values(|e: u8| e as int),
        EnumTypeValues::U16(x) => x@.map_values(|e: u16| e as int),
        EnumTypeValues::U32(x) => x@.map_values(|e: u32| e as int),
        EnumTypeValues::U64(x) => x@.map_values(|e: u64| e as int),
        EnumTypeValues::I8(x) => x@.map_values(|e: i8| e as int),
        EnumTypeValues::I16(x) => x@.map_values(|e: i16| e as int),
        EnumTypeValues::I32(x) => x@.map_values(|e: i32| e as int),
        EnumTypeValues::I64(x) => x@.map_values(|e: i64| e as int),
    }
}

/// Names as character sequences.
pub open spec fn names_view(v: Seq<String>) -> Seq<Seq<char>> {
    v.map_values(|s: String| s@)
}

/// Number of (name, value) pairs of an enumeration: the shorter of the two lists.
pub open spec fn pair_count(names: Seq<Seq<char>>, values: Seq<int>) -> int {
    if names.len() < values.len() {
        names.len() as int
    } else {
        values.len() as int
    }
}

/// The `i`-th (name, value) pair of the first enumeration occurs in the second.
pub open spec fn pair_in(
    na: Seq<Seq<char>>,
    va: Seq<int>,
    nb: Seq<Seq<char>>,
    vb: Seq<int>,
    i: int,
) -> bool {
    exists|j: int|
        #![trigger nb[j], vb[j]]
        0 <= j < pair_count(nb, vb) && na[i] == nb[j] && va[i] == vb[j]
}

/// Every (name, value) pair of the first enumeration occurs in the second.
pub open spec fn pairs_within(
    na: Seq<Seq<char>>,
    va: Seq<int>,
    nb: Seq<Seq<char>>,
    vb: Seq<int>,
) -> bool {
    forall|i: int| 0 <= i < pair_count(na, va) ==> #[trigger] pair_in(na, va, nb, vb, i)
}

/// Equality of enumeration types: same name, as many field names, and, where
/// there are fields, the same integer type and the same (name, value) pairs in
/// any order.
pub open spec fn enum_type_eq(a: EnumType, b: EnumType) -> bool {
    let na = names_view(a.fieldnames@);
    let nb = names_view(b.fieldnames@);
    let va = enum_values(a.fieldvalues);
    let vb = enum_values(b.fieldvalues);
    &&& a.name@ == b.name@
    &&& na.len() == nb.len()
    &&& na.len() == 0 || (enum_base_id(a.fieldvalues) == enum_base_id(b.fieldvalues)
        && pairs_within(na, va, nb, vb) && pairs_within(nb, vb, na, va))
}

/// The dimensions of an array field, as a sequence.
pub open spec fn dims_view(d: Option<Vec<usize>>) -> Option<Seq<usize>> {
    match d {
        Some(v) => Some(v@),
        None => None,
    }
}

/// Two fields of compounds are equal: same name, equal types, same array
/// dimensions and same offset.
pub open spec fn field_eq(f: CompoundTypeField, g: CompoundTypeField) -> bool
    decreases f, 0int,
{
    &&& f.name@ == g.name@
    &&& nc_type_eq(f.basetype, g.basetype)
    &&& dims_view(f.arraydims) == dims_view(g.arraydims)
    &&& f.offset == g.offset
}

/// The field `f` has an equal field in `ys`.
pub open spec fn found_in(f: CompoundTypeField, ys: Seq<CompoundTypeField>) -> bool
    decreases f, 1int,
{
    exists|j: int| 0 <= j < ys.len() && field_eq(f, #[trigger] ys[j])
}

/// The field `g` has an equal field in `xs`.
pub open spec fn covered_by(xs: Seq<CompoundTypeField>, g: CompoundTypeField) -> bool
    decreases xs, 1int,
{
    exists|i: int| 0 <= i < xs.len() && field_eq(#[trigger] xs[i], g)
}

/// Equality of type descriptors: compounds compare their fields in any order,
/// enumerations their (name, value) pairs in any order, the other kinds compare
/// all that they hold.
pub open spec fn nc_type_eq(a: NcVariableType, b: NcVariableType) -> bool
    decreases a, 2int,
{
    match (a, b) {
        (NcVariableType::Compound(x), NcVariableType::Compound(y)) => {
            &&& x.name@ == y.name@
            &&& x.fields@.len() == y.fields@.len()
            &&& x.size == y.size
            &&& forall|i: int|
                0 <= i < x.fields@.len() ==> found_in(#[trigger] x.fields@[i], y.fields@)
            &&& forall|j: int|
                0 <= j < y.fields@.len() ==> covered_by(x.fields@, #[trigger] y.fields@[j])
        },
        (NcVariableType::Opaque(x), NcVariableType::Opaque(y)) => x.name@ == y.name@ && x.size
            == y.size,
        (NcVariableType::Enum(x), NcVariableType::Enum(y)) => enum_type_eq(x, y),
        (NcVariableType::Vlen(x), NcVariableType::Vlen(y)) => x.name@ == y.name@ && nc_type_eq(
            *x.basetype,
            *y.basetype,
        ),
        (NcVariableType::String, NcVariableType::String) => true,
        (NcVariableType::Int(x), NcVariableType::Int(y)) => x == y,
        (NcVariableType::Float(x), NcVariableType::Float(y)) => x == y,
        (NcVariableType::Char, NcVariableType::Char) => true,
        _ => false,
    }
}

fn string_eq(a: &String, b: &String) -> (r: bool)
    ensures
        r == (a@ == b@),
{
    *a == *b
}

fn dims_eq(a: &Option<Vec<usize>>, b: &Option<Vec<usize>>) -> (r: bool)
    ensures
        r == (dims_view(*a) == dims_view(*b)),
{
    match (a, b) {
        (None, None) => true,
        (Some(x), Some(y)) => {
            if x.len() != y.len() {
                assert(x@.len() != y@.len());
                return false;
            }
            let mut i: usize = 0;
            while i < x.len()
                invariant
                    dims_view(*a) == Some(x@),
                    dims_view(*b) == Some(y@),
                    x@.len() == y@.len(),
                    i <= x@.len(),
                    forall|k: int| 0 <= k < i ==> x@[k] == y@[k],
                decreases x@.len() - i,
            {
                if x[i] != y[i] {
                    assert(x@[i as int] != y@[i as int]);
                    return false;
                }
                i = i + 1;
            }
            assert(x@ =~= y@);
            true
        },
        _ => false,
    }
}


/// Integers of `i128` as mathematical integers.
pub open spec fn widen_seq(v: Seq<i128>) -> Seq<int> {
    v.map_values(|e: i128| e as int)
}

/// The values of an enumeration, widened to `i128`.
fn widen_values(v: &EnumTypeValues) -> (r: Vec<i128>)
    ensures
        widen_seq(r@) =~= enum_values(*v),
{
    let mut out: Vec<i128> = Vec::new();
    match v {
        EnumTypeValues::U8(x) => {
            for i in 0..x.len()
                invariant
                    out@.len() == i,
                    forall|k: int| 0 <= k < i ==> out@[k] as int == x@[k] as int,
            {
                out.push(x[i] as i128);
            }
        },
        EnumTypeValues::U16(x) => {
            for i in 0..x.len()
                invariant
                    out@.len() == i,
                    forall|k: int| 0 <= k < i ==> out@[k] as int == x@[k] as int,
            {
                out.push(x[i] as i128);
            }
        },
        EnumTypeValues::U32(x) => {
            for i in 0..x.len()
                invariant
                    out@.len() == i,
                    forall|k: int| 0 <= k < i ==> out@[k] as int == x@[k] as int,
            {
                out.push(x[i] as i128);
            }
        },
        EnumTypeValues::U64(x) => {
            for i in 0..x.len()
                invariant
                    out@.len() == i,
                    forall|k: int| 0 <= k < i ==> out@[k] as int == x@[k] as int,
            {
                out.push(x[i] as i128);
            }
        },
        EnumTypeValues::I8(x) => {
            for i in 0..x.len()
                invariant
                    out@.len() == i,
                    forall|k: int| 0 <= k < i ==> out@[k] as int == x@[k] as int,
            {
                out.push(x[i] as i128);
            }
        },
        EnumTypeValues::I16(x) => {
            for i in 0..x.len()
                invariant
                    out@.len() == i,
                    forall|k: int| 0 <= k < i ==> out@[k] as int == x@[k] as int,
            {
                out.push(x[i] as i128);
            }
        },
        EnumTypeValues::I32(x) => {
            for i in 0..x.len()
                invariant
                    out@.len() == i,
                    forall|k: int| 0 <= k < i ==> out@[k] as int == x@[k] as int,
            {
                out.push(x[i] as i128);
            }
        },
        EnumTypeValues::I64(x) => {
            for i in 0..x.len()
                invariant
                    out@.len() == i,
                    forall|k: int| 0 <= k < i ==> out@[k] as int == x@[k] as int,
            {
                out.push(x[i] as i128);
            }
        },
    }
    out
}

/// Checks `pairs_within` for names and widened values.
fn pairs_contained(na: &Vec<String>, va: &Vec<i128>, nb: &Vec<String>, vb: &Vec<i128>) -> (r:
    bool)
    ensures
        r == pairs_within(
            names_view(na@),
            widen_seq(va@),
            names_view(nb@),
            widen_seq(vb@),
        ),
{
    let ghost sna = names_view(na@);
    let ghost sva = widen_seq(va@);
    let ghost snb = names_view(nb@);
    let ghost svb = widen_seq(vb@);
    let ca = if na.len() < va.len() {
        na.len()
    } else {
        va.len()
    };
    let cb = if nb.len() < vb.len() {
        nb.len()
    } else {
        vb.len()
    };
    assert(ca == pair_count(sna, sva));
    assert(cb == pair_count(snb, svb));
    let mut i: usize = 0;
    while i < ca
        invariant
            i <= ca,
            ca == pair_count(sna, sva),
            cb == pair_count(snb, svb),
            ca <= na@.len() && ca <= va@.len(),
            cb <= nb@.len() && cb <= vb@.len(),
            sna == names_view(na@),
            sva == widen_seq(va@),
            snb == names_view(nb@),
            svb == widen_seq(vb@),
            forall|k: int| 0 <= k < i ==> #[trigger] pair_in(sna, sva, snb, svb, k),
        decreases ca - i,
    {
        let mut found = false;
        let mut j: usize = 0;
        while j < cb && !found
            invariant
                j <= cb,
                i < ca,
                ca <= na@.len() && ca <= va@.len(),
                cb <= nb@.len() && cb <= vb@.len(),
                sna == names_view(na@),
                sva == widen_seq(va@),
                snb == names_view(nb@),
                svb == widen_seq(vb@),
                ca == pair_count(sna, sva),
                cb == pair_count(snb, svb),
                forall|k: int| 0 <= k < i ==> #[trigger] pair_in(sna, sva, snb, svb, k),
                found ==> exists|m: int|
                    #![trigger snb[m], svb[m]]
                    0 <= m < cb && sna[i as int] == snb[m] && sva[i as int] == svb[m],
                !found ==> forall|m: int|
                    #![trigger snb[m], svb[m]]
                    0 <= m < j ==> !(sna[i as int] == snb[m] && sva[i as int] == svb[m]),
            decreases cb - j + (if found {
                0int
            } else {
                1int
            }),
        {
            if string_eq(&na[i], &nb[j]) && va[i] == vb[j] {
                found = true;
                assert(sna[i as int] == snb[j as int] && sva[i as int] == svb[j as int]);
            } else {
                assert(!(sna[i as int] == snb[j as int] && sva[i as int] == svb[j as int]));
                j = j + 1;
            }
        }
        if !found {
            assert(!pair_in(sna, sva, snb, svb, i as int));
            return false;
        }
        assert(pair_in(sna, sva, snb, svb, i as int));
        i = i + 1;
    }
    true
}

/// Equality of enumeration types, see `enum_type_eq`.
fn enum_eq(a: &EnumType, b: &EnumType) -> (r: bool)
    ensures
        r == enum_type_eq(*a, *b),
{
    if !string_eq(&a.name, &b.name) {
        return false;
    }
    if a.fieldnames.len() != b.fieldnames.len() {
        return false;
    }
    if a.fieldnames.len() == 0 {
        return true;
    }
    if a.fieldvalues.nc_type() != b.fieldvalues.nc_type() {
        return false;
    }
    let va = widen_values(&a.fieldvalues);
    let vb = widen_values(&b.fieldvalues);
    pairs_contained(&a.fieldnames, &va, &b.fieldnames, &vb) && pairs_contained(
        &b.fieldnames,
        &vb,
        &a.fieldnames,
        &va,
    )
}


proof fn lemma_field_below(x: CompoundType, i: int)
    requires
        0 <= i < x.fields@.len(),
    ensures
        decreases_to!(x => x.fields@[i]),
{
    assert(decreases_to!(x => x.fields));
    assert(decreases_to!(x.fields => x.fields@));
    assert(decreases_to!(x.fields@ => x.fields@[i]));
}

/// Equality of two fields of compounds, see `field_eq`.
fn field_equal(f: &CompoundTypeField, g: &CompoundTypeField) -> (r: bool)
    ensures
        r == field_eq(*f, *g),
    decreases *f, 0int,
{
    string_eq(&f.name, &g.name) && type_equal(&f.basetype, &g.basetype) && dims_eq(
        &f.arraydims,
        &g.arraydims,
    ) && f.offset == g.offset
}

/// Equality of compound types, see `nc_type_eq`.
fn compound_equal(x: &CompoundType, y: &CompoundType) -> (r: bool)
    ensures
        r == nc_type_eq(NcVariableType::Compound(*x), NcVariableType::Compound(*y)),
    decreases *x, 1int,
{
        if !string_eq(&x.name, &y.name) || x.fields.len() != y.fields.len() || x.size
            != y.size {
            return false;
        }
        let n = x.fields.len();
        let mut i: usize = 0;
        while i < n
            invariant
                n == x.fields@.len(),
                n == y.fields@.len(),
                i <= n,
                                                forall|k: int| 0 <= k < i ==> #[trigger] found_in(x.fields@[k], y.fields@),
            decreases n - i,
        {
            let mut found = false;
            let mut j: usize = 0;
            while j < n && !found
                invariant
                    n == x.fields@.len(),
                    n == y.fields@.len(),
                    i < n,
                    j <= n,
                                                            found ==> found_in(x.fields@[i as int], y.fields@),
                    !found ==> forall|m: int|
                        0 <= m < j ==> !field_eq(x.fields@[i as int], #[trigger] y.fields@[m]),
                decreases n - j + (if found {
                    0int
                } else {
                    1int
                }),
            {
                proof {
                    lemma_field_below(*x, i as int);
                }
                if field_equal(&x.fields[i], &y.fields[j]) {
                    found = true;
                    assert(field_eq(x.fields@[i as int], y.fields@[j as int]));
                    assert(found_in(x.fields@[i as int], y.fields@)) by {
                        reveal_with_fuel(found_in, 2);
                    }
                } else {
                    j = j + 1;
                }
            }
            if !found {
                assert(!found_in(x.fields@[i as int], y.fields@));
                return false;
            }
            i = i + 1;
        }
        let mut j: usize = 0;
        while j < n
            invariant
                n == x.fields@.len(),
                n == y.fields@.len(),
                j <= n,
                                                forall|k: int| 0 <= k < n ==> #[trigger] found_in(x.fields@[k], y.fields@),
                forall|k: int| 0 <= k < j ==> #[trigger] covered_by(x.fields@, y.fields@[k]),
            decreases n - j,
        {
            let mut found = false;
            let mut i: usize = 0;
            while i < n && !found
                invariant
                    n == x.fields@.len(),
                    n == y.fields@.len(),
                    j < n,
                    i <= n,
                                                            found ==> covered_by(x.fields@, y.fields@[j as int]),
                    !found ==> forall|m: int|
                        0 <= m < i ==> !field_eq(#[trigger] x.fields@[m], y.fields@[j as int]),
                decreases n - i + (if found {
                    0int
                } else {
                    1int
                }),
            {
                proof {
                    lemma_field_below(*x, i as int);
                }
                if field_equal(&x.fields[i], &y.fields[j]) {
                    found = true;
                    assert(field_eq(x.fields@[i as int], y.fields@[j as int]));
                    assert(covered_by(x.fields@, y.fields@[j as int]));
                } else {
                    i = i + 1;
                }
            }
            if !found {
                assert(!covered_by(x.fields@, y.fields@[j as int]));
                return false;
            }
            j = j + 1;
        }
        assert(forall|k: int|
            0 <= k < x.fields@.len() ==> found_in(#[trigger] x.fields@[k], y.fields@));
        assert(forall|k: int|
            0 <= k < y.fields@.len() ==> covered_by(x.fields@, #[trigger] y.fields@[k]));
        true
}

/// Equality of type descriptors, see `nc_type_eq`.
pub(crate) fn type_equal(a: &NcVariableType, b: &NcVariableType) -> (r: bool)
    ensures
        r == nc_type_eq(*a, *b),
    decreases *a, 2int,
{
    match (a, b) {
        (NcVariableType::Compound(x), NcVariableType::Compound(y)) => {
            proof {
                assert(decreases_to!(*a => a->Compound_0));
            }
            compound_equal(x, y)
        },
        (NcVariableType::Opaque(x), NcVariableType::Opaque(y)) => string_eq(&x.name, &y.name)
            && x.size == y.size,
        (NcVariableType::Enum(x), NcVariableType::Enum(y)) => enum_eq(x, y),
        (NcVariableType::Vlen(x), NcVariableType::Vlen(y)) => string_eq(&x.name, &y.name)
            && type_equal(&x.basetype, &y.basetype),
        (NcVariableType::String, NcVariableType::String) => true,
        (NcVariableType::Int(x), NcVariableType::Int(y)) => *x == *y,
        (NcVariableType::Float(x), NcVariableType::Float(y)) => *x == *y,
        (NcVariableType::Char, NcVariableType::Char) => true,
        _ => false,
    }
}


impl PartialEq for NcVariableType {
    fn eq(&self, other: &Self) -> (r: bool) {
        type_equal(self, other)
    }
}

impl vstd::std_specs::cmp::PartialEqSpecImpl for NcVariableType {
    open spec fn obeys_eq_spec() -> bool {
        true
    }

    open spec fn eq_spec(&self, other: &Self) -> bool {
        nc_type_eq(*self, *other)
    }
}

impl Eq for NcVariableType {

}

impl PartialEq for CompoundType {
    fn eq(&self, other: &Self) -> (r: bool) {
        compound_equal(self, other)
    }
}

impl vstd::std_specs::cmp::PartialEqSpecImpl for CompoundType {
    open spec fn obeys_eq_spec() -> bool {
        true
    }

    open spec fn eq_spec(&self, other: &Self) -> bool {
        nc_type_eq(NcVariableType::Compound(*self), NcVariableType::Compound(*other))
    }
}

impl Eq for CompoundType {

}

impl PartialEq for EnumType {
    fn eq(&self, other: &Self) -> (r: bool) {
        enum_eq(self, other)
    }
}

impl vstd::std_specs::cmp::PartialEqSpecImpl for EnumType {
    open spec fn obeys_eq_spec() -> bool {
        true
    }

    open spec fn eq_spec(&self, other: &Self) -> bool {
        enum_type_eq(*self, *other)
    }
}

impl Eq for EnumType {

}


fn copy_names(v: &Vec<String>) -> (r: Vec<String>)
    ensures
        r@ == v@,
{
    let mut out: Vec<String> = Vec::new();
    for i in 0..v.len()
        invariant
            out@ == v@.subrange(0, i as int),
    {
        out.push(v[i].clone());
    }
    assert(out@ =~= v@);
    out
}

fn copy_dims(d: &Option<Vec<usize>>) -> (r: Option<Vec<usize>>)
    ensures
        dims_view(r) == dims_view(*d),
{
    match d {
        None => None,
        Some(v) => {
            let mut out: Vec<usize> = Vec::new();
            for i in 0..v.len()
                invariant
                    out@ == v@.subrange(0, i as int),
            {
                out.push(v[i]);
            }
            assert(out@ =~= v@);
            Some(out)
        },
    }
}

fn copy_values(v: &EnumTypeValues) -> (r: EnumTypeValues)
    ensures
        enum_values(r) == enum_values(*v),
        enum_base_id(r) == enum_base_id(*v),
{
    match v {
        EnumTypeValues::U8(x) => {
            let y = x.clone();
            assert(y@ =~= x@);
            EnumTypeValues::U8(y)
        },
        EnumTypeValues::U16(x) => {
            let y = x.clone();
            assert(y@ =~= x@);
            EnumTypeValues::U16(y)
        },
        EnumTypeValues::U32(x) => {
            let y = x.clone();
            assert(y@ =~= x@);
            EnumTypeValues::U32(y)
        },
        EnumTypeValues::U64(x) => {
            let y = x.clone();
            assert(y@ =~= x@);
            EnumTypeValues::U64(y)
        },
        EnumTypeValues::I8(x) => {
            let y = x.clone();
            assert(y@ =~= x@);
            EnumTypeValues::I8(y)
        },
        EnumTypeValues::I16(x) => {
            let y = x.clone();
            assert(y@ =~= x@);
            EnumTypeValues::I16(y)
        },
        EnumTypeValues::I32(x) => {
            let y = x.clone();
            assert(y@ =~= x@);
            EnumTypeValues::I32(y)
        },
        EnumTypeValues::I64(x) => {
            let y = x.clone();
            assert(y@ =~= x@);
            EnumTypeValues::I64(y)
        },
    }
}

proof fn lemma_pairs_within_self(n: Seq<Seq<char>>, v: Seq<int>)
    ensures
        pairs_within(n, v, n, v),
{
    assert forall|i: int| 0 <= i < pair_count(n, v) implies #[trigger] pair_in(n, v, n, v, i) by {
        let a = n[i];
        let b = v[i];
        assert(0 <= i < pair_count(n, v) && a == n[i] && b == v[i]);
    }
}

/// A copy of an enumeration type, equal to it.
fn copy_enum(e: &EnumType) -> (r: EnumType)
    ensures
        enum_type_eq(r, *e),
        r.name@ == e.name@,
        names_view(r.fieldnames@) == names_view(e.fieldnames@),
        enum_values(r.fieldvalues) == enum_values(e.fieldvalues),
{
    let r = EnumType {
        name: e.name.clone(),
        fieldnames: copy_names(&e.fieldnames),
        fieldvalues: copy_values(&e.fieldvalues),
    };
    proof {
        lemma_pairs_within_self(names_view(e.fieldnames@), enum_values(e.fieldvalues));
    }
    r
}

/// A copy of a field of a compound, equal to it.
fn copy_field(f: &CompoundTypeField) -> (r: CompoundTypeField)
    ensures
        field_eq(r, *f),
    decreases *f, 0int,
{
    CompoundTypeField {
        name: f.name.clone(),
        basetype: copy_type(&f.basetype),
        arraydims: copy_dims(&f.arraydims),
        offset: f.offset,
    }
}

/// A copy of a compound type, equal to it.
fn copy_compound(c: &CompoundType) -> (r: CompoundType)
    ensures
        nc_type_eq(NcVariableType::Compound(r), NcVariableType::Compound(*c)),
    decreases *c, 1int,
{
    let mut fields: Vec<CompoundTypeField> = Vec::new();
    for i in 0..c.fields.len()
        invariant
            fields@.len() == i,
            forall|k: int| 0 <= k < i ==> field_eq(#[trigger] fields@[k], c.fields@[k]),
    {
        proof {
            lemma_field_below(*c, i as int);
        }
        fields.push(copy_field(&c.fields[i]));
    }
    let r = CompoundType { name: c.name.clone(), size: c.size, fields };
    assert forall|k: int| 0 <= k < r.fields@.len() implies found_in(#[trigger] r.fields@[k], c.fields@) by {
        assert(field_eq(r.fields@[k], c.fields@[k]));
    }
    assert forall|k: int| 0 <= k < c.fields@.len() implies covered_by(r.fields@, #[trigger] c.fields@[k]) by {
        assert(field_eq(r.fields@[k], c.fields@[k]));
    }
    r
}

/// A copy of a type descriptor, equal to it.
pub fn copy_type(t: &NcVariableType) -> (r: NcVariableType)
    ensures
        nc_type_eq(r, *t),
    decreases *t, 2int,
{
    match t {
        NcVariableType::Compound(c) => {
            proof {
                assert(decreases_to!(*t => t->Compound_0));
            }
            NcVariableType::Compound(copy_compound(c))
        },
        NcVariableType::Opaque(o) => NcVariableType::Opaque(
            OpaqueType { name: o.name.clone(), size: o.size },
        ),
        NcVariableType::Enum(e) => NcVariableType::Enum(copy_enum(e)),
        NcVariableType::Vlen(v) => NcVariableType::Vlen(
            VlenType { name: v.name.clone(), basetype: Box::new(copy_type(&v.basetype)) },
        ),
        NcVariableType::String => NcVariableType::String,
        NcVariableType::Int(x) => NcVariableType::Int(*x),
        NcVariableType::Float(x) => NcVariableType::Float(*x),
        NcVariableType::Char => NcVariableType::Char,
    }
}


impl Clone for NcVariableType {
    fn clone(&self) -> (r: Self)
        ensures
            nc_type_eq(r, *self),
    {
        copy_type(self)
    }
}

impl Clone for CompoundType {
    fn clone(&self) -> (r: Self)
        ensures
            nc_type_eq(NcVariableType::Compound(r), NcVariableType::Compound(*self)),
    {
        copy_compound(self)
    }
}

impl Clone for CompoundTypeField {
    fn clone(&self) -> (r: Self)
        ensures
            field_eq(r, *self),
    {
        copy_field(self)
    }
}

impl Clone for VlenType {
    fn clone(&self) -> (r: Self)
        ensures
            r.name@ == self.name@,
            nc_type_eq(*r.basetype, *self.basetype),
    {
        VlenType { name: self.name.clone(), basetype: Box::new(copy_type(&self.basetype)) }
    }
}


/// This trait allows reading and writing basic and user defined types.
///
/// Supported for basic numeric types and can be implemented for
/// user defined types (compound, opaque, enum and ragged arrays).
pub trait NcTypeDescriptor {
    /// Description of the type
    fn type_descriptor() -> NcVariableType;
}

impl NcTypeDescriptor for u8 {
    fn type_descriptor() -> (r: NcVariableType)
        ensures
            r == NcVariableType::Int(IntType::U8),
    {
        NcVariableType::Int(IntType::U8)
    }
}

impl NcTypeDescriptor for u16 {
    fn type_descriptor() -> (r: NcVariableType)
        ensures
            r == NcVariableType::Int(IntType::U16),
    {
        NcVariableType::Int(IntType::U16)
    }
}

impl NcTypeDescriptor for u32 {
    fn type_descriptor() -> (r: NcVariableType)
        ensures
            r == NcVariableType::Int(IntType::U32),
    {
        NcVariableType::Int(IntType::U32)
    }
}

impl NcTypeDescriptor for u64 {
    fn type_descriptor() -> (r: NcVariableType)
        ensures
            r == NcVariableType::Int(IntType::U64),
    {
        NcVariableType::Int(IntType::U64)
    }
}

impl NcTypeDescriptor for i8 {
    fn type_descriptor() -> (r: NcVariableType)
        ensures
            r == NcVariableType::Int(IntType::I8),
    {
        NcVariableType::Int(IntType::I8)
    }
}

impl NcTypeDescriptor for i16 {
    fn type_descriptor() -> (r: NcVariableType)
        ensures
            r == NcVariableType::Int(IntType::I16),
    {
        NcVariableType::Int(IntType::I16)
    }
}

impl NcTypeDescriptor for i32 {
    fn type_descriptor() -> (r: NcVariableType)
        ensures
            r == NcVariableType::Int(IntType::I32),
    {
        NcVariableType::Int(IntType::I32)
    }
}

impl NcTypeDescriptor for i64 {
    fn type_descriptor() -> (r: NcVariableType)
        ensures
            r == NcVariableType::Int(IntType::I64),
    {
        NcVariableType::Int(IntType::I64)
    }
}

/// A field of a compound as it is declared: its name, its type, and its
/// array dimensions where it is an array.
pub type FieldDecl = (String, NcVariableType, Option<Vec<usize>>);

/// Every product of the first dimensions fits a `usize`.
pub open spec fn dims_product_fits(d: Seq<usize>) -> bool {
    forall|k: int| 0 <= k <= d.len() ==> #[trigger] crate::hyperslab::product(d.take(k)) <= usize::MAX
}

/// The number of elements of a field: the product of its array dimensions,
/// or one where it is no array.
pub open spec fn field_elements(dims: Option<Vec<usize>>) -> int {
    match dims {
        Some(d) => crate::hyperslab::product(d@),
        None => 1,
    }
}

/// The bytes that a field takes: the size of its type times its elements.
pub open spec fn field_bytes(f: FieldDecl) -> int {
    type_size(f.1) * field_elements(f.2)
}

/// The offset of field `i` when the fields lie one after the other: the
/// bytes of the fields before it.
pub open spec fn field_offset(fields: Seq<FieldDecl>, i: int) -> int
    decreases i,
{
    if i <= 0 {
        0
    } else {
        field_offset(fields, i - 1) + field_bytes(fields[i - 1])
    }
}

/// The layout of the fields fits a `usize`: each field's dimensions, its
/// bytes, and the offsets after it.
pub open spec fn layout_fits(fields: Seq<FieldDecl>) -> bool {
    forall|i: int|
        0 <= i < fields.len() ==> (match #[trigger] fields[i].2 {
            Some(d) => dims_product_fits(d@),
            None => true,
        }) && field_bytes(fields[i]) <= usize::MAX && field_offset(fields, i + 1) <= usize::MAX
}

/// The compound called `name` whose fields are `fields`, in order, each at
/// the offset where the one before it ends, and whose size is their total.
pub open spec fn packed_compound(name: Seq<char>, fields: Seq<FieldDecl>, c: CompoundType) -> bool {
    &&& c.name@ == name
    &&& c.size == field_offset(fields, fields.len() as int)
    &&& c.fields@.len() == fields.len()
    &&& forall|i: int|
        0 <= i < fields.len() ==> {
            &&& (#[trigger] c.fields@[i]).name@ == fields[i].0@
            &&& c.fields@[i].basetype == fields[i].1
            &&& c.fields@[i].arraydims == fields[i].2
            &&& c.fields@[i].offset == field_offset(fields, i)
        }
}

fn dims_elements(d: &Vec<usize>) -> (r: Option<usize>)
    ensures
        dims_product_fits(d@) ==> (r matches Some(e) && e as int == crate::hyperslab::product(d@)),
        !dims_product_fits(d@) ==> r is None,
{
    let mut acc: usize = 1;
    let mut k: usize = 0;
    assert(d@.take(0) =~= Seq::<usize>::empty());
    while k < d.len()
        invariant
            k <= d@.len(),
            acc == crate::hyperslab::product(d@.take(k as int)),
            forall|j: int| 0 <= j <= k ==> #[trigger] crate::hyperslab::product(d@.take(j)) <= usize::MAX,
        decreases d@.len() - k,
    {
        assert(d@.take(k + 1).drop_last() =~= d@.take(k as int));
        match acc.checked_mul(d[k]) {
            Some(p) => {
                acc = p;
            },
            None => {
                assert(crate::hyperslab::product(d@.take(k + 1)) > usize::MAX);
                return None;
            },
        }
        k = k + 1;
    }
    assert(d@.take(d@.len() as int) =~= d@);
    Some(acc)
}

/// The compound that the derive of `NcTypeDescriptor` makes for a
/// `#[repr(C)]` struct without padding: called `name`, with the fields in
/// order, each at the offset where the one before it ends, and the total
/// as its size; refused with `Overflow` when that layout does not fit a
/// `usize`.
pub fn compound_from_fields(name: &str, fields: Vec<FieldDecl>) -> (r: Result<NcVariableType>)
    ensures
        layout_fits(fields@) ==> (r matches Ok(NcVariableType::Compound(c)) && packed_compound(name@, fields@, c)),
        !layout_fits(fields@) ==> r matches Err(Error::Overflow),
{
    let ghost all = fields@;
    let n = fields.len();
    let mut rest = fields;
    let mut out: Vec<CompoundTypeField> = Vec::new();
    let mut offset: usize = 0;
    let mut i: usize = 0;
    while i < n
        invariant
            all == fields@,
            n == all.len(),
            i <= n,
            rest@ == all.skip(i as int),
            offset == field_offset(all, i as int),
            out@.len() == i,
            forall|j: int|
                0 <= j < i ==> (match #[trigger] all[j].2 {
                    Some(d) => dims_product_fits(d@),
                    None => true,
                }) && field_bytes(all[j]) <= usize::MAX && field_offset(all, j + 1) <= usize::MAX,
            forall|j: int|
                0 <= j < i ==> {
                    &&& (#[trigger] out@[j]).name@ == all[j].0@
                    &&& out@[j].basetype == all[j].1
                    &&& out@[j].arraydims == all[j].2
                    &&& out@[j].offset == field_offset(all, j)
                },
        decreases n - i,
    {
        let (fname, basetype, arraydims) = rest.remove(0);
        assert(all[i as int] == (fname, basetype, arraydims));
        let nelems = match &arraydims {
            Some(d) => match dims_elements(d) {
                Some(e) => e,
                None => {
                    assert(!dims_product_fits(arraydims->Some_0@));
                    assert(!layout_fits(all)) by {
                        assert(all[i as int].2 == arraydims);
                    }
                    return Err(Error::Overflow);
                },
            },
            None => 1,
        };
        assert(nelems == field_elements(arraydims));
        let size = basetype.size();
        let thissize = match size.checked_mul(nelems) {
            Some(t) => t,
            None => {
                assert(!layout_fits(all)) by {
                    assert(field_bytes(all[i as int]) > usize::MAX);
                    assert(all[i as int].2 == arraydims);
                }
                return Err(Error::Overflow);
            },
        };
        let next = match offset.checked_add(thissize) {
            Some(o) => o,
            None => {
                return Err(Error::Overflow);
            },
        };
        out.push(CompoundTypeField { name: fname, offset, basetype, arraydims });
        offset = next;
        i = i + 1;
        assert(rest@ =~= all.skip(i as int));
    }
    Ok(NcVariableType::Compound(CompoundType { name: name.to_owned(), size: offset, fields: out }))
}

/// The enumeration that the derive of `NcTypeDescriptor` makes for an enum
/// with an integer `repr`: called `name`, with the variants `names` and
/// their values.
pub fn enum_from_variants(name: &str, names: Vec<String>, values: EnumTypeValues) -> (r: NcVariableType)
    ensures
        r matches NcVariableType::Enum(e) && e.name@ == name@ && e.fieldnames == names && e.fieldvalues
            == values,
{
    NcVariableType::Enum(EnumType { name: name.to_owned(), fieldnames: names, fieldvalues: values })
}

/// Each basic type takes the bytes of the Rust type that holds its values:
/// the integers those of their Rust integers, `f32` and `f64` as many as the
/// unsigned integers of 32 and 64 bits (4 and 8), and a string the size of a
/// pointer.
pub proof fn lemma_basic_sizes()
    ensures
        type_size(NcVariableType::Int(IntType::U8)) == vstd::layout::size_of::<u8>(),
        type_size(NcVariableType::Int(IntType::I8)) == vstd::layout::size_of::<i8>(),
        type_size(NcVariableType::Int(IntType::U16)) == vstd::layout::size_of::<u16>(),
        type_size(NcVariableType::Int(IntType::I16)) == vstd::layout::size_of::<i16>(),
        type_size(NcVariableType::Int(IntType::U32)) == vstd::layout::size_of::<u32>(),
        type_size(NcVariableType::Int(IntType::I32)) == vstd::layout::size_of::<i32>(),
        type_size(NcVariableType::Int(IntType::U64)) == vstd::layout::size_of::<u64>(),
        type_size(NcVariableType::Int(IntType::I64)) == vstd::layout::size_of::<i64>(),
        type_size(NcVariableType::Float(FloatType::F32)) == vstd::layout::size_of::<u32>() == 4,
        type_size(NcVariableType::Float(FloatType::F64)) == vstd::layout::size_of::<u64>() == 8,
        type_size(NcVariableType::String) == vstd::layout::size_of::<usize>(),
{
    broadcast use vstd::layout::layout_of_primitives;
}

} // verus!
