use vstd::prelude::*;
use crate::registry::BuiltinScalar;
use crate::value::{ScalarValue, ScalarView, Value, ValueView};

verus! {

/// A value of a built-in scalar type, as the domain holds it.
#[derive(Clone, Debug, PartialEq, Eq)]
pub enum BuiltinValue {
    Int(i32),
    String(String),
    Boolean(bool),
    Id(String),
}

pub enum BuiltinView {
    Int(i32),
    String(Seq<char>),
    Boolean(bool),
    Id(Seq<char>),
}

impl View for BuiltinValue {
    type V = BuiltinView;

    open spec fn view(&self) -> BuiltinView {
        match self {
            BuiltinValue::Int(n) => BuiltinView::Int(*n),
            BuiltinValue::String(s) => BuiltinView::String(s@),
            BuiltinValue::Boolean(b) => BuiltinView::Boolean(*b),
            BuiltinValue::Id(s) => BuiltinView::Id(s@),
        }
    }
}

/// An input that a built-in scalar type does not accept.
#[derive(Clone, Copy, Debug, PartialEq, Eq, Structural)]
pub struct CoercionError {
    pub expected: BuiltinScalar,
}

/// Whether the scalar type `kind` accepts the input `v`: an integer for
/// `Int`, a string for `String` and `ID`, a truth value for `Boolean`.
pub open spec fn accepts(kind: BuiltinScalar, v: ValueView) -> bool {
    match (kind, v) {
        (BuiltinScalar::Int, ValueView::Scalar(ScalarView::Int(_))) => true,
        (BuiltinScalar::String, ValueView::Scalar(ScalarView::String(_))) => true,
        (BuiltinScalar::Id, ValueView::Scalar(ScalarView::String(_))) => true,
        (BuiltinScalar::Boolean, ValueView::Scalar(ScalarView::Boolean(_))) => true,
        _ => false,
    }
}

/// The domain value that an accepted input stands for.
pub open spec fn parsed(kind: BuiltinScalar, v: ValueView) -> BuiltinView {
    match (kind, v) {
        (BuiltinScalar::Int, ValueView::Scalar(ScalarView::Int(n))) => BuiltinView::Int(n),
        (BuiltinScalar::Id, ValueView::Scalar(ScalarView::String(s))) => BuiltinView::Id(s),
        (_, ValueView::Scalar(ScalarView::String(s))) => BuiltinView::String(s),
        (_, ValueView::Scalar(ScalarView::Boolean(b))) => BuiltinView::Boolean(b),
        _ => BuiltinView::Int(0),
    }
}

/// The result value that a domain value is written as.
pub open spec fn serialized(b: BuiltinView) -> ValueView {
    match b {
        BuiltinView::Int(n) => ValueView::Scalar(ScalarView::Int(n)),
        BuiltinView::String(s) => ValueView::Scalar(ScalarView::String(s)),
        BuiltinView::Boolean(v) => ValueView::Scalar(ScalarView::Boolean(v)),
        BuiltinView::Id(s) => ValueView::Scalar(ScalarView::String(s)),
    }
}

/// Coerces `input` into a value of the built-in scalar type `kind`.
pub fn parse_scalar(kind: BuiltinScalar, input: &Value) -> (r: Result<BuiltinValue, CoercionError>)
    ensures
        match r {
            Ok(b) => accepts(kind, input@) && b@ == parsed(kind, input@),
            Err(e) => !accepts(kind, input@) && e.expected == kind,
        },
{
    match (kind, input) {
        (BuiltinScalar::Int, Value::Scalar(ScalarValue::Int(n))) => Ok(BuiltinValue::Int(*n)),
        (BuiltinScalar::String, Value::Scalar(ScalarValue::String(s))) => Ok(
            BuiltinValue::String(s.clone()),
        ),
        (BuiltinScalar::Id, Value::Scalar(ScalarValue::String(s))) => Ok(
            BuiltinValue::Id(s.clone()),
        ),
        (BuiltinScalar::Boolean, Value::Scalar(ScalarValue::Boolean(b))) => Ok(
            BuiltinValue::Boolean(*b),
        ),
        _ => Err(CoercionError { expected: kind }),
    }
}

/// Writes a domain value as a result leaf.
pub fn serialize_scalar(b: &BuiltinValue) -> (r: Value)
    ensures
        r@ == serialized(b@),
{
    match b {
        BuiltinValue::Int(n) => Value::Scalar(ScalarValue::Int(*n)),
        BuiltinValue::String(s) => Value::Scalar(ScalarValue::String(s.clone())),
        BuiltinValue::Boolean(v) => Value::Scalar(ScalarValue::Boolean(*v)),
        BuiltinValue::Id(s) => Value::Scalar(ScalarValue::String(s.clone())),
    }
}

/// Serializing what was parsed from an accepted input gives that input back.
pub proof fn lemma_scalar_round_trip(kind: BuiltinScalar, x: ValueView)
    requires
        accepts(kind, x),
    ensures
        serialized(parsed(kind, x)) == x,
{
}

} // verus!
