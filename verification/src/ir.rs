//! The values and types of the program's intermediate form that the
//! debugger and the input checks read.
use vstd::prelude::*;

verus! {

/// A field element as written in the program: little-endian 64-bit limbs and
/// a sign.
pub struct Field {
    pub values: Vec<u64>,
    pub negate: bool,
}

/// One coordinate of a group element: a field element, or a request to
/// recover it from the other coordinate with the high or low sign, or with
/// either sign.
pub enum GroupCoordinate {
    Field(Field),
    SignHigh,
    SignLow,
    Inferred,
}

/// A group element: a multiple of the generator, or a pair of coordinates.
pub enum Group {
    Single(Field),
    Tuple(GroupCoordinate, GroupCoordinate),
}

/// A value of the program.
pub enum Value {
    Address(Vec<u8>),
    Boolean(bool),
    Field(Field),
    Char(u32),
    Group(Group),
    /// An integer, held as the text it is shown as.
    Integer(String),
    Array(Vec<Value>),
    Tuple(Vec<Value>),
    Str(String),
    /// A reference to the variable with this id.
    Ref(u32),
}

/// A type of the program's inputs.
pub enum Type {
    Address,
    Boolean,
    Field,
    Char,
    Group,
    U8,
    U16,
    U32,
    U64,
    U128,
    I8,
    I16,
    I32,
    I64,
    I128,
    Array(Box<Type>, Option<u32>),
    Tuple(Vec<Type>),
    Circuit(Vec<(String, Type)>),
}

} // verus!
