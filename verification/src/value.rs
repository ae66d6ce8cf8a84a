//! Runtime values.
use vstd::prelude::*;
use crate::function::{Function, FunctionView};
use crate::number;

verus! {

/// A value of the language. A number is the 64-bit pattern of a double.
#[derive(Debug)]
pub enum Value {
    Bool(bool),
    Nil,
    Number(u64),
    String(String),
    Function(Function),
}

/// What a value is: its text as a sequence of characters, its function as the
/// contents of the function.
pub ghost enum ValueView {
    Bool(bool),
    Nil,
    Number(u64),
    String(Seq<char>),
    Function(FunctionView),
}

/// The views of a list of values, one for one.
pub open spec fn views(values: Seq<Value>) -> Seq<ValueView> {
    Seq::new(values.len(), |i: int| values[i]@)
}

impl ValueView {
    /// Falsy are nil, `false`, the two zeros and the empty string; every other
    /// value is truthy.
    pub open spec fn falsey(self) -> bool {
        match self {
            ValueView::Nil => true,
            ValueView::Bool(b) => !b,
            ValueView::Number(n) => number::zero(n),
            ValueView::String(s) => s.len() == 0,
            ValueView::Function(_) => false,
        }
    }

    /// Equality as the language sees it: by variant and by value. Values of
    /// different variants are never equal; numbers compare as doubles do, so
    /// NaN equals nothing and the two zeros equal each other.
    pub open spec fn same(self, other: ValueView) -> bool {
        match (self, other) {
            (ValueView::Bool(a), ValueView::Bool(b)) => a == b,
            (ValueView::Nil, ValueView::Nil) => true,
            (ValueView::Number(a), ValueView::Number(b)) => number::equal(a, b),
            (ValueView::String(a), ValueView::String(b)) => a == b,
            (ValueView::Function(a), ValueView::Function(b)) => a == b,
            _ => false,
        }
    }
}

impl Value {
    /// What the value is.
    pub open spec fn view(&self) -> ValueView
        decreases self,
    {
        match self {
            Value::Bool(b) => ValueView::Bool(*b),
            Value::Nil => ValueView::Nil,
            Value::Number(n) => ValueView::Number(*n),
            Value::String(s) => ValueView::String(s@),
            Value::Function(f) => ValueView::Function(f.view()),
        }
    }

    /// Whether a condition on this value fails.
    pub fn is_falsey(&self) -> (r: bool)
        ensures
            r == self@.falsey(),
    {
        match self {
            Value::Nil => true,
            Value::Bool(b) => !*b,
            Value::Number(n) => number::is_zero(*n),
            Value::String(s) => s.as_str().is_empty(),
            Value::Function(_) => false,
        }
    }

    /// Equality as the language sees it.
    pub fn eq(&self, other: &Value) -> (r: bool)
        ensures
            r == self@.same(other@),
    {
        match (self, other) {
            (Value::Bool(a), Value::Bool(b)) => *a == *b,
            (Value::Nil, Value::Nil) => true,
            (Value::Number(a), Value::Number(b)) => number::eq(*a, *b),
            (Value::String(a), Value::String(b)) => *a == *b,
            (Value::Function(a), Value::Function(b)) => a.identical(b),
            _ => false,
        }
    }

    /// Whether two values are the same in every part: numbers bit for bit.
    pub fn identical(&self, other: &Value) -> (r: bool)
        ensures
            r == (self@ == other@),
        decreases self,
    {
        match (self, other) {
            (Value::Bool(a), Value::Bool(b)) => *a == *b,
            (Value::Nil, Value::Nil) => true,
            (Value::Number(a), Value::Number(b)) => *a == *b,
            (Value::String(a), Value::String(b)) => *a == *b,
            (Value::Function(a), Value::Function(b)) => a.identical(b),
            _ => false,
        }
    }

    /// A copy of the value, equal to it in every part.
    pub fn duplicate(&self) -> (r: Value)
        ensures
            r@ == self@,
        decreases self,
    {
        match self {
            Value::Bool(b) => Value::Bool(*b),
            Value::Nil => Value::Nil,
            Value::Number(n) => Value::Number(*n),
            Value::String(s) => Value::String(s.clone()),
            Value::Function(f) => Value::Function(f.duplicate()),
        }
    }
}

/// What is falsy: nil, `false`, a number that is zero, and the empty string.
/// Every other value is truthy: `true`, every number that is not zero (NaN
/// too), every string that is not empty, and every function.
pub proof fn lemma_falsey(v: ValueView)
    ensures
        v.falsey() <==> (v == ValueView::Nil || v == ValueView::Bool(false) || (v matches ValueView::Number(
            n,
        ) && number::zero(n)) || v == ValueView::String(Seq::empty())),
{
    if let ValueView::String(s) = v {
        if s.len() == 0 {
            assert(s =~= Seq::empty());
        }
    }
}

/// Language equality is symmetric; a value equals itself unless it is NaN;
/// values that are the same in every part are equal unless they are NaN;
/// and equal values are falsy together.
pub proof fn lemma_same(a: ValueView, b: ValueView)
    ensures
        a.same(b) == b.same(a),
        a.same(a) == !(a matches ValueView::Number(n) && number::nan(n)),
        a.same(b) ==> a.falsey() == b.falsey(),
{
}

} // verus!
