//! Resolved configuration scalars and the type tags that options declare.

use vstd::prelude::*;

verus! {

/// The scalar type that an option declares for its values.
#[derive(Clone, Copy, PartialEq, Eq, Structural, Debug)]
pub enum TomlType {
    String,
    Integer,
    Float,
    Boolean,
}

/// A resolved configuration scalar.
///
/// A float is held as the bit pattern of its IEEE 754 binary64 form, so that
/// two values are the same value exactly when their fields are equal.
#[derive(PartialEq, Debug)]
pub enum Scalar {
    String(String),
    Integer(i64),
    Float(u64),
    Boolean(bool),
}

/// The name of a type.
pub open spec fn tag_name(typ: TomlType) -> Seq<char> {
    match typ {
        TomlType::String => "string"@,
        TomlType::Integer => "integer"@,
        TomlType::Float => "float"@,
        TomlType::Boolean => "boolean"@,
    }
}

impl TomlType {
    /// The name of the type.
    pub fn name(&self) -> (s: &'static str)
        ensures
            s@ == tag_name(*self),
    {
        match self {
            TomlType::String => "string",
            TomlType::Integer => "integer",
            TomlType::Float => "float",
            TomlType::Boolean => "boolean",
        }
    }
}

/// The mathematical content of a [`Scalar`].
pub ghost enum ScalarView {
    String(Seq<char>),
    Integer(i64),
    Float(u64),
    Boolean(bool),
}

impl ScalarView {
    /// The type tag of a scalar.
    pub open spec fn tag(self) -> TomlType {
        match self {
            ScalarView::String(_) => TomlType::String,
            ScalarView::Integer(_) => TomlType::Integer,
            ScalarView::Float(_) => TomlType::Float,
            ScalarView::Boolean(_) => TomlType::Boolean,
        }
    }
}

impl View for Scalar {
    type V = ScalarView;

    open spec fn view(&self) -> ScalarView {
        match *self {
            Scalar::String(s) => ScalarView::String(s@),
            Scalar::Integer(n) => ScalarView::Integer(n),
            Scalar::Float(bits) => ScalarView::Float(bits),
            Scalar::Boolean(b) => ScalarView::Boolean(b),
        }
    }
}

impl Clone for Scalar {
    fn clone(&self) -> (r: Self)
        ensures
            r@ == self@,
    {
        match self {
            Scalar::String(s) => Scalar::String(s.clone()),
            Scalar::Integer(n) => Scalar::Integer(*n),
            Scalar::Float(bits) => Scalar::Float(*bits),
            Scalar::Boolean(b) => Scalar::Boolean(*b),
        }
    }
}

impl Scalar {
    /// The type tag of this scalar.
    pub fn type_tag(&self) -> (t: TomlType)
        ensures
            t == self@.tag(),
    {
        match self {
            Scalar::String(_) => TomlType::String,
            Scalar::Integer(_) => TomlType::Integer,
            Scalar::Float(_) => TomlType::Float,
            Scalar::Boolean(_) => TomlType::Boolean,
        }
    }
}

/// The content of an optional scalar.
pub open spec fn option_view(v: Option<Scalar>) -> Option<ScalarView> {
    match v {
        Some(x) => Some(x@),
        None => None,
    }
}

/// Copies an optional scalar.
pub fn clone_option(v: &Option<Scalar>) -> (r: Option<Scalar>)
    ensures
        option_view(r) == option_view(*v),
{
    match v {
        Some(x) => Some(x.clone()),
        None => None,
    }
}

} // verus!
