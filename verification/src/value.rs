//! Runtime values.
use vstd::prelude::*;
use vstd::string::StringExecFns;
use crate::number::{numbers_equal, same_number};

verus! {

/// A value of the language. A `Double` holds the bit pattern of an IEEE 754
/// binary64 number. Two values are equal (`==`) where the language says so.
#[derive(Debug)]
pub enum Value {
    String(String),
    Double(u64),
    Bool(bool),
    Nil,
}

/// What a `Value` stands for: its text as a sequence of characters.
pub enum ValueView {
    String(Seq<char>),
    Double(u64),
    Bool(bool),
    Nil,
}

impl View for Value {
    type V = ValueView;

    open spec fn view(&self) -> ValueView {
        match self {
            Value::String(s) => ValueView::String(s@),
            Value::Double(bits) => ValueView::Double(*bits),
            Value::Bool(b) => ValueView::Bool(*b),
            Value::Nil => ValueView::Nil,
        }
    }
}

/// The view of a slot that may hold a value.
pub open spec fn slot_view(slot: Option<Value>) -> Option<ValueView> {
    match slot {
        Some(v) => Some(v@),
        None => None,
    }
}

/// Equality of the language: values of different kinds are never equal,
/// numbers are compared as IEEE numbers, everything else by content.
pub open spec fn values_equal(a: ValueView, b: ValueView) -> bool {
    match (a, b) {
        (ValueView::String(x), ValueView::String(y)) => x == y,
        (ValueView::Double(x), ValueView::Double(y)) => same_number(x, y),
        (ValueView::Bool(x), ValueView::Bool(y)) => x == y,
        (ValueView::Nil, ValueView::Nil) => true,
        _ => false,
    }
}

/// Truthiness: `nil` and `false` are falsy, every other value is truthy.
pub open spec fn truthy(v: ValueView) -> bool {
    match v {
        ValueView::Nil => false,
        ValueView::Bool(b) => b,
        _ => true,
    }
}

/// `text` is a rendering of the number `bits` by `show`.
pub open spec fn rendered<S: Fn(u64) -> String>(show: &S, bits: u64, text: Seq<char>) -> bool {
    exists|shown: String| #[trigger] show.ensures((bits,), shown) && shown@ == text
}

/// `text` is the text of `v` as a `print` statement writes it: strings bare,
/// numbers as `show` renders them.
pub open spec fn runtime_text<S: Fn(u64) -> String>(
    show: &S,
    v: ValueView,
    text: Seq<char>,
) -> bool {
    match v {
        ValueView::String(s) => text == s,
        ValueView::Double(bits) => rendered(show, bits, text),
        ValueView::Bool(b) => text == if b { "true"@ } else { "false"@ },
        ValueView::Nil => text == "nil"@,
    }
}

/// `text` is the text of `v` as it stands in source: strings in double
/// quotes, everything else as printed.
pub open spec fn display_text<S: Fn(u64) -> String>(
    show: &S,
    v: ValueView,
    text: Seq<char>,
) -> bool {
    match v {
        ValueView::String(s) => text == "\""@ + s + "\""@,
        _ => runtime_text(show, v, text),
    }
}

impl PartialEq for Value {
    fn eq(&self, other: &Value) -> (r: bool) {
        self.equals(other)
    }
}

impl vstd::std_specs::cmp::PartialEqSpecImpl for Value {
    open spec fn obeys_eq_spec() -> bool {
        true
    }

    open spec fn eq_spec(&self, other: &Value) -> bool {
        values_equal(self@, other@)
    }
}

impl Clone for Value {
    fn clone(&self) -> (r: Self)
        ensures
            r == *self,
    {
        match self {
            Value::String(s) => Value::String(s.clone()),
            Value::Double(bits) => Value::Double(*bits),
            Value::Bool(b) => Value::Bool(*b),
            Value::Nil => Value::Nil,
        }
    }
}

impl Value {
    /// The text of the value as a `print` statement writes it.
    pub fn to_runtime_string<S: Fn(u64) -> String>(&self, show: &S) -> (r: String)
        requires
            forall|bits: u64| show.requires((bits,)),
        ensures
            runtime_text(show, self@, r@),
    {
        match self {
            Value::String(s) => {
                let t = s.clone();
                t
            },
            Value::Double(bits) => {
                let t = show(*bits);
                assert(show.ensures((*bits,), t));
                t
            },
            Value::Bool(b) => {
                let t = if *b {
                    String::from_str("true")
                } else {
                    String::from_str("false")
                };
                t
            },
            Value::Nil => {
                let t = String::from_str("nil");
                t
            },
        }
    }

    /// The text of the value as it stands in source.
    pub fn to_display_string<S: Fn(u64) -> String>(&self, show: &S) -> (r: String)
        requires
            forall|bits: u64| show.requires((bits,)),
        ensures
            display_text(show, self@, r@),
    {
        match self {
            Value::String(s) => {
                let mut r = String::from_str("\"");
                r.append(s.as_str());
                r.append("\"");
                r
            },
            _ => self.to_runtime_string(show),
        }
    }

    /// Equality of the language.
    pub fn equals(&self, other: &Value) -> (r: bool)
        ensures
            r == values_equal(self@, other@),
    {
        match self {
            Value::String(x) => match other {
                Value::String(y) => *x == *y,
                _ => false,
            },
            Value::Double(x) => match other {
                Value::Double(y) => numbers_equal(*x, *y),
                _ => false,
            },
            Value::Bool(x) => match other {
                Value::Bool(y) => *x == *y,
                _ => false,
            },
            Value::Nil => match other {
                Value::Nil => true,
                _ => false,
            },
        }
    }
}

/// A slot's value, or nothing, copied.
pub fn clone_slot(slot: &Option<Value>) -> (r: Option<Value>)
    ensures
        r == *slot,
{
    match slot {
        Some(v) => Some(v.clone()),
        None => None,
    }
}

} // verus!
