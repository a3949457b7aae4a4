//! Coercion of raw text and of document entries to typed scalars.

use crate::document::{
    literal_content, native_option_view, parse_literal, read_node, NativeValue, NativeView,
};
use crate::error::{ConfigError, ConfigErrorView};
use crate::value::{Scalar, ScalarView, TomlType};
use vstd::prelude::*;

verus! {

/// The content of the result of a coercion.
pub open spec fn coerced_view(r: Result<Scalar, ConfigError>) -> Result<
    ScalarView,
    ConfigErrorView,
> {
    match r {
        Ok(v) => Ok(v@),
        Err(e) => Err(e@),
    }
}

/// A value that a source holds, taken for an option of the declared type:
/// a scalar of that type is itself, and anything else is a mismatch. No type
/// is widened to another. `source` says where the value stood.
pub open spec fn typed(typ: TomlType, source: Seq<char>, found: NativeView) -> Result<
    ScalarView,
    ConfigErrorView,
> {
    match found {
        NativeView::Scalar(v) if v.tag() == typ => Ok(v),
        _ => Err(ConfigErrorView::TypeMismatch { source, expected: typ }),
    }
}

/// Raw text, taken for an option of the declared type. `parsed` is what the
/// text holds when read as one TOML value. A string option takes the text as
/// it stands. For the other types the text must be a literal: no literal at
/// all is a parse error, and a literal of another type a mismatch.
pub open spec fn coerce(typ: TomlType, text: Seq<char>, parsed: Option<NativeView>) -> Result<
    ScalarView,
    ConfigErrorView,
> {
    if typ == TomlType::String {
        Ok(ScalarView::String(text))
    } else {
        match parsed {
            None => Err(ConfigErrorView::ParseError { text, target: typ }),
            Some(found) => typed(typ, text, found),
        }
    }
}

/// The text is a literal of the type: any text for a string, and for the
/// other types a text that holds a scalar of the type.
pub open spec fn literal_of(typ: TomlType, parsed: Option<NativeView>) -> bool {
    typ == TomlType::String || (parsed matches Some(NativeView::Scalar(v)) && v.tag() == typ)
}

/// Coercion succeeds exactly on the literals of the declared type, and what
/// it yields has that type.
pub proof fn lemma_coerce_round_trip(typ: TomlType, text: Seq<char>, parsed: Option<NativeView>)
    ensures
        coerce(typ, text, parsed) is Ok <==> literal_of(typ, parsed),
        coerce(typ, text, parsed) matches Ok(v) ==> v.tag() == typ,
        coerce(typ, text, parsed) matches Ok(v) ==> typ != TomlType::String ==> parsed == Some(
            NativeView::Scalar(v),
        ),
{
}

impl TomlType {
    /// Takes a value that a source holds for an option of this type.
    pub fn check(&self, source: &str, found: NativeValue) -> (r: Result<Scalar, ConfigError>)
        ensures
            coerced_view(r) == typed(*self, source@, found@),
    {
        match found {
            NativeValue::Scalar(v) => {
                if v.type_tag() == *self {
                    Ok(v)
                } else {
                    Err(ConfigError::TypeMismatch { source: source.to_owned(), expected: *self })
                }
            },
            _ => Err(ConfigError::TypeMismatch { source: source.to_owned(), expected: *self }),
        }
    }

    /// Coerces raw text of which it is known what it holds as a TOML value.
    pub fn to_value_of(&self, s: &str, parsed: Option<NativeValue>) -> (r: Result<
        Scalar,
        ConfigError,
    >)
        ensures
            coerced_view(r) == coerce(*self, s@, native_option_view(parsed)),
    {
        match self {
            TomlType::String => Ok(Scalar::String(s.to_owned())),
            _ => match parsed {
                None => Err(ConfigError::ParseError { text: s.to_owned(), target: *self }),
                Some(found) => self.check(s, found),
            },
        }
    }

    /// Coerces raw text to a value of this type.
    pub fn to_value(&self, s: &str) -> (r: Result<Scalar, ConfigError>)
        ensures
            coerced_view(r) == coerce(*self, s@, literal_content(s@)),
    {
        match self {
            TomlType::String => Ok(Scalar::String(s.to_owned())),
            _ => {
                let parsed = match parse_literal(s) {
                    Some(node) => Some(read_node(&node)),
                    None => None,
                };
                self.to_value_of(s, parsed)
            },
        }
    }
}

} // verus!
