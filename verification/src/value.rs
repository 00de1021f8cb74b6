//! Runtime values.
//!
//! A value is a number or a byte string. Strings are bytes rather than text:
//! the Spectrum character set has block graphics and keyword tokens above the
//! ASCII range.

use vstd::prelude::*;

use crate::expression::EvalError;
use crate::number::Number;

verus! {

/// A number or a byte string.
#[derive(Clone, Debug, PartialEq)]
pub enum Value {
    Num(Number),
    Str(Vec<u8>),
}

/// What a `Value` stands for.
pub enum ValueView {
    Num(Number),
    Str(Seq<u8>),
}

impl View for Value {
    type V = ValueView;

    open spec fn view(&self) -> ValueView {
        match self {
            Value::Num(n) => ValueView::Num(*n),
            Value::Str(s) => ValueView::Str(s@),
        }
    }
}

/// What an optional value stands for.
pub open spec fn option_view(v: Option<Value>) -> Option<ValueView> {
    match v {
        Some(v) => Some(v@),
        None => None,
    }
}

/// Whether a variable name is that of a string.
pub open spec fn names_string(name: Seq<char>) -> bool {
    name.len() > 0 && name.last() == '$'
}

impl Value {
    /// The number; a string is a type mismatch.
    pub fn as_num(&self) -> (r: Result<Number, EvalError>)
        ensures
            match self@ {
                ValueView::Num(n) => r == Ok::<Number, EvalError>(n),
                ValueView::Str(_) => r == Err::<Number, EvalError>(EvalError::TypeMismatch),
            },
    {
        match self {
            Value::Num(n) => Ok(*n),
            Value::Str(_) => Err(EvalError::TypeMismatch),
        }
    }

    /// The bytes; a number is a type mismatch.
    pub fn as_str(&self) -> (r: Result<&[u8], EvalError>)
        ensures
            match self@ {
                ValueView::Str(s) => r is Ok && r->Ok_0@ == s,
                ValueView::Num(_) => r is Err && r->Err_0 == EvalError::TypeMismatch,
            },
    {
        match self {
            Value::Str(s) => Ok(s.as_slice()),
            Value::Num(_) => Err(EvalError::TypeMismatch),
        }
    }

    pub fn is_num(&self) -> (r: bool)
        ensures
            r == (self@ is Num),
    {
        matches!(self, Value::Num(_))
    }

    pub fn is_str(&self) -> (r: bool)
        ensures
            r == (self@ is Str),
    {
        matches!(self, Value::Str(_))
    }

    /// Another value that stands for the same.
    pub fn duplicate(&self) -> (r: Value)
        ensures
            r@ == self@,
    {
        match self {
            Value::Num(n) => Value::Num(*n),
            Value::Str(s) => Value::Str(s.clone()),
        }
    }
}

impl From<Number> for Value {
    fn from(n: Number) -> (r: Self)
        ensures
            r@ == ValueView::Num(n),
    {
        Value::Num(n)
    }
}

impl vstd::std_specs::convert::FromSpecImpl<Number> for Value {
    open spec fn obeys_from_spec() -> bool {
        true
    }

    open spec fn from_spec(n: Number) -> Value {
        Value::Num(n)
    }
}

impl From<Vec<u8>> for Value {
    fn from(s: Vec<u8>) -> (r: Self)
        ensures
            r@ == ValueView::Str(s@),
    {
        Value::Str(s)
    }
}

impl vstd::std_specs::convert::FromSpecImpl<Vec<u8>> for Value {
    open spec fn obeys_from_spec() -> bool {
        true
    }

    open spec fn from_spec(s: Vec<u8>) -> Value {
        Value::Str(s)
    }
}

impl From<&str> for Value {
    fn from(s: &str) -> (r: Self)
        ensures
            r@ == ValueView::Str(vstd::utf8::encode_utf8(s@)),
    {
        Value::Str(s.as_bytes_vec())
    }
}

impl vstd::std_specs::convert::FromSpecImpl<&str> for Value {
    open spec fn obeys_from_spec() -> bool {
        false
    }

    open spec fn from_spec(s: &str) -> Value {
        arbitrary()
    }
}

/// Whether a variable name (such as `A$` or `B`) is that of a string.
pub fn is_string_name(name: &str) -> (r: bool)
    ensures
        r == names_string(name@),
{
    let n = name.unicode_len();
    n > 0 && name.get_char(n - 1) == '$'
}

} // verus!
