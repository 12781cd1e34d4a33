//! Values of resolved definitions.
use vstd::prelude::*;

verus! {

/// The value of an attribute or of an enum member.
pub enum Value {
    /// A string value.
    String {
        /// The string value.
        value: String,
    },
    /// An integer value.
    Int {
        /// The integer value.
        value: i64,
    },
    /// A double value, by the bits of its IEEE 754 encoding.
    Double {
        /// The bits of the double value.
        value: u64,
    },
}

/// The content of a value.
pub enum ValueView {
    /// A string value.
    String(Seq<char>),
    /// An integer value.
    Int(i64),
    /// The bits of a double value.
    Double(u64),
}

impl View for Value {
    type V = ValueView;

    open spec fn view(&self) -> ValueView {
        match self {
            Value::String { value } => ValueView::String(value@),
            Value::Int { value } => ValueView::Int(*value),
            Value::Double { value } => ValueView::Double(*value),
        }
    }
}

impl Clone for Value {
    fn clone(&self) -> (r: Self)
        ensures
            r@ == self@,
    {
        match self {
            Value::String { value } => Value::String { value: value.clone() },
            Value::Int { value } => Value::Int { value: *value },
            Value::Double { value } => Value::Double { value: *value },
        }
    }
}

/// The content of an optional value.
pub open spec fn opt_value(o: Option<Value>) -> Option<ValueView> {
    match o {
        Some(v) => Some(v@),
        None => None,
    }
}

/// Whether two values are the same.
pub fn same_value(a: &Value, b: &Value) -> (r: bool)
    ensures
        r == (a@ == b@),
{
    match (a, b) {
        (Value::String { value: x }, Value::String { value: y }) => *x == *y,
        (Value::Int { value: x }, Value::Int { value: y }) => *x == *y,
        (Value::Double { value: x }, Value::Double { value: y }) => *x == *y,
        _ => false,
    }
}

/// Whether two optional values are the same.
pub fn same_opt_value(a: &Option<Value>, b: &Option<Value>) -> (r: bool)
    ensures
        r == (opt_value(*a) == opt_value(*b)),
{
    match (a, b) {
        (Some(x), Some(y)) => same_value(x, y),
        (None, None) => true,
        _ => false,
    }
}

/// A copy of an optional value.
pub fn clone_opt_value(o: &Option<Value>) -> (r: Option<Value>)
    ensures
        opt_value(r) == opt_value(*o),
{
    match o {
        Some(v) => Some(v.clone()),
        None => None,
    }
}

} // verus!
