//! Script values as seen by the object model.
use vstd::prelude::*;
use crate::interner::Name;

verus! {

/// A handle on an object held by the engine's heap.
#[derive(Clone, Copy, Debug, PartialEq, Eq, Structural, Hash)]
pub struct ObjId(pub usize);

/// A script value. Strings are held as interned names; numbers as the bit
/// pattern of their IEEE-754 double.
#[derive(Clone, Copy, Debug, PartialEq, Eq, Structural)]
pub enum JsValue {
    Undefined,
    Null,
    Boolean(bool),
    Number(u64),
    String(Name),
    Object(ObjId),
}

/// The type of a script value.
#[derive(Clone, Copy, Debug, PartialEq, Eq, Structural)]
pub enum JsType {
    Undefined,
    Null,
    Boolean,
    Number,
    String,
    Object,
}

/// Failures raised by the object model.
#[derive(Clone, Copy, Debug, PartialEq, Eq, Structural)]
pub enum JsError {
    /// An argument of the wrong type or shape (TypeError).
    TypeInvalid,
    /// `toLocaleString` found no callable `toString` (TypeError).
    TypeCannotCallToString,
    /// A `get` or `set` attribute that is neither callable nor undefined (TypeError).
    TypeNotCallable,
    /// A descriptor that has both data and accessor attributes (TypeError).
    TypeMixedDescriptor,
    /// A property definition that the current attributes forbid (TypeError).
    TypeCannotDefine,
    /// A prototype chain that loops back on itself.
    CyclicPrototype,
}

pub open spec fn is_nan_bits(bits: u64) -> bool {
    (bits & 0x7ff0_0000_0000_0000u64) == 0x7ff0_0000_0000_0000u64 && (bits & 0x000f_ffff_ffff_ffffu64) != 0
}

/// The SameValue comparison: NaN equals NaN, and +0 differs from -0.
pub open spec fn same_value(a: JsValue, b: JsValue) -> bool {
    match (a, b) {
        (JsValue::Number(x), JsValue::Number(y)) => x == y || (is_nan_bits(x) && is_nan_bits(y)),
        _ => a == b,
    }
}

impl JsValue {
    pub open spec fn spec_ty(self) -> JsType {
        match self {
            JsValue::Undefined => JsType::Undefined,
            JsValue::Null => JsType::Null,
            JsValue::Boolean(_) => JsType::Boolean,
            JsValue::Number(_) => JsType::Number,
            JsValue::String(_) => JsType::String,
            JsValue::Object(_) => JsType::Object,
        }
    }

    pub fn ty(&self) -> (r: JsType)
        ensures
            r == self.spec_ty(),
    {
        match self {
            JsValue::Undefined => JsType::Undefined,
            JsValue::Null => JsType::Null,
            JsValue::Boolean(_) => JsType::Boolean,
            JsValue::Number(_) => JsType::Number,
            JsValue::String(_) => JsType::String,
            JsValue::Object(_) => JsType::Object,
        }
    }

    pub fn is_undefined(&self) -> (r: bool)
        ensures
            r == (*self == JsValue::Undefined),
    {
        matches!(self, JsValue::Undefined)
    }

    pub fn is_null(&self) -> (r: bool)
        ensures
            r == (*self == JsValue::Null),
    {
        matches!(self, JsValue::Null)
    }

    pub fn is_null_or_undefined(&self) -> (r: bool)
        ensures
            r == (*self == JsValue::Null || *self == JsValue::Undefined),
    {
        matches!(self, JsValue::Null | JsValue::Undefined)
    }
}

pub fn is_nan(bits: u64) -> (r: bool)
    ensures
        r == is_nan_bits(bits),
{
    (bits & 0x7ff0_0000_0000_0000u64) == 0x7ff0_0000_0000_0000u64 && (bits & 0x000f_ffff_ffff_ffffu64) != 0
}

pub fn same_value_exec(a: JsValue, b: JsValue) -> (r: bool)
    ensures
        r == same_value(a, b),
{
    match (a, b) {
        (JsValue::Number(x), JsValue::Number(y)) => x == y || (is_nan(x) && is_nan(y)),
        _ => a == b,
    }
}

} // verus!
