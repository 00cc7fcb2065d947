//! The values that KDL entries hold.

use vstd::prelude::*;

use crate::number::{float_ext, ext_order, Ext, KdlFloat, Number};

verus! {

/// A KDL value: a string, an integer, a non-integer number, a boolean or null.
#[derive(Debug)]
pub enum KdlValue {
    String(String),
    Integer(i128),
    Float(KdlFloat),
    Bool(bool),
    Null,
}

/// What a [`KdlValue`] holds, with its string as a sequence of characters.
pub enum ValueModel {
    String(Seq<char>),
    Integer(i128),
    Float(KdlFloat),
    Bool(bool),
    Null,
}

impl View for KdlValue {
    type V = ValueModel;

    open spec fn view(&self) -> ValueModel {
        match self {
            KdlValue::String(s) => ValueModel::String(s@),
            KdlValue::Integer(i) => ValueModel::Integer(*i),
            KdlValue::Float(f) => ValueModel::Float(*f),
            KdlValue::Bool(b) => ValueModel::Bool(*b),
            KdlValue::Null => ValueModel::Null,
        }
    }
}

impl Clone for KdlValue {
    fn clone(&self) -> (r: Self)
        ensures
            r@ == self@,
    {
        match self {
            KdlValue::String(s) => KdlValue::String(s.clone()),
            KdlValue::Integer(i) => KdlValue::Integer(*i),
            KdlValue::Float(f) => KdlValue::Float(*f),
            KdlValue::Bool(b) => KdlValue::Bool(*b),
            KdlValue::Null => KdlValue::Null,
        }
    }
}

/// Whether two values are equal as KDL values: numbers compare by their value,
/// and a not-a-number equals nothing, itself included.
pub open spec fn value_eq(a: ValueModel, b: ValueModel) -> bool {
    match (a, b) {
        (ValueModel::String(x), ValueModel::String(y)) => x == y,
        (ValueModel::Integer(x), ValueModel::Integer(y)) => x == y,
        (ValueModel::Float(x), ValueModel::Float(y)) => ext_order(float_ext(x), float_ext(y)) == Some(0int),
        (ValueModel::Bool(x), ValueModel::Bool(y)) => x == y,
        (ValueModel::Null, ValueModel::Null) => true,
        _ => false,
    }
}

/// The number that a value holds, if it is an integer or a non-integer number.
pub open spec fn value_number(v: ValueModel) -> Option<Number> {
    match v {
        ValueModel::Integer(i) => Some(Number::Integer(i)),
        ValueModel::Float(f) => Some(Number::Float(f)),
        _ => None,
    }
}

impl KdlValue {
    /// The string, where the value is a string.
    pub fn as_string(&self) -> (r: Option<&str>)
        ensures
            r matches Some(s) ==> self@ == ValueModel::String(s@),
            r is None ==> !(self@ is String),
    {
        match self {
            KdlValue::String(s) => Some(s.as_str()),
            _ => None,
        }
    }

    /// The integer, where the value is an integer.
    pub fn as_integer(&self) -> (r: Option<i128>)
        ensures
            r matches Some(i) ==> self@ == ValueModel::Integer(i),
            r is None ==> !(self@ is Integer),
    {
        match self {
            KdlValue::Integer(i) => Some(*i),
            _ => None,
        }
    }

    /// The non-integer number, where the value is one.
    pub fn as_float(&self) -> (r: Option<KdlFloat>)
        ensures
            r matches Some(f) ==> self@ == ValueModel::Float(f),
            r is None ==> !(self@ is Float),
    {
        match self {
            KdlValue::Float(f) => Some(*f),
            _ => None,
        }
    }

    /// The boolean, where the value is a boolean.
    pub fn as_bool(&self) -> (r: Option<bool>)
        ensures
            r matches Some(b) ==> self@ == ValueModel::Bool(b),
            r is None ==> !(self@ is Bool),
    {
        match self {
            KdlValue::Bool(b) => Some(*b),
            _ => None,
        }
    }

    /// The number, where the value is an integer or a non-integer number.
    pub fn as_number(&self) -> (r: Option<Number>)
        ensures
            r == value_number(self@),
    {
        match self {
            KdlValue::Integer(i) => Some(Number::Integer(*i)),
            KdlValue::Float(f) => Some(Number::Float(*f)),
            _ => None,
        }
    }

    /// Whether two values are equal as KDL values (see [`value_eq`]).
    pub fn value_equals(&self, other: &KdlValue) -> (r: bool)
        ensures
            r == value_eq(self@, other@),
    {
        match (self, other) {
            (KdlValue::String(x), KdlValue::String(y)) => {
                let r = *x == *y;
                assert(r == (x@ == y@));
                r
            },
            (KdlValue::Integer(x), KdlValue::Integer(y)) => x == y,
            (KdlValue::Float(x), KdlValue::Float(y)) => {
                let r = crate::number::number_order(&Number::Float(*x), &Number::Float(*y));
                match r {
                    Some(c) => c == 0,
                    None => false,
                }
            },
            (KdlValue::Bool(x), KdlValue::Bool(y)) => x == y,
            (KdlValue::Null, KdlValue::Null) => true,
            _ => false,
        }
    }
}

} // verus!
