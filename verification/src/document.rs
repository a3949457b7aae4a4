//! Access to TOML documents and literals, which the `toml` crate parses.
//!
//! A document node is opaque to the verifier. What the pass logic reads of it
//! is named here, and each function that touches a node says over those names
//! what it hands back.

use crate::value::{Scalar, ScalarView};
use std::str::FromStr;
use vstd::prelude::*;

verus! {

/// A node of a parsed TOML document, `toml::Value`.
#[verifier::external_type_specification]
#[verifier::external_body]
pub struct ExDocumentNode(toml::Value);

/// What a document node holds, as far as the passes read it: a scalar with
/// its payload, or which of the other kinds it is.
#[derive(Debug)]
pub enum NativeValue {
    Scalar(Scalar),
    Datetime,
    Array,
    Table,
}

/// The mathematical content of a [`NativeValue`].
pub ghost enum NativeView {
    Scalar(ScalarView),
    Datetime,
    Array,
    Table,
}

impl View for NativeValue {
    type V = NativeView;

    open spec fn view(&self) -> NativeView {
        match *self {
            NativeValue::Scalar(v) => NativeView::Scalar(v@),
            NativeValue::Datetime => NativeView::Datetime,
            NativeValue::Array => NativeView::Array,
            NativeValue::Table => NativeView::Table,
        }
    }
}

/// The content of an optional node.
pub open spec fn native_option_view(v: Option<NativeValue>) -> Option<NativeView> {
    match v {
        Some(x) => Some(x@),
        None => None,
    }
}

/// The kind of a node, and its payload where it is a scalar.
pub uninterp spec fn node_content(node: toml::Value) -> NativeView;

/// The entries of a node that is a table, by key.
pub uninterp spec fn table_entries(node: toml::Value) -> Map<Seq<char>, toml::Value>;

/// What the text holds when read as one TOML value, or `None` where it is
/// no TOML value.
pub uninterp spec fn literal_content(text: Seq<char>) -> Option<NativeView>;

/// Tells the variants of `toml::Value` apart. A string, integer or boolean
/// comes out with its payload, a float with the bits of its payload
/// (`f64::to_bits`); a datetime, an array and a table come out as their kind.
#[verifier::external_body]
pub(crate) fn read_node(node: &toml::Value) -> (r: NativeValue)
    ensures
        r@ == node_content(*node),
{
    match node {
        toml::Value::String(s) => NativeValue::Scalar(Scalar::String(s.clone())),
        toml::Value::Integer(n) => NativeValue::Scalar(Scalar::Integer(*n)),
        toml::Value::Float(x) => NativeValue::Scalar(Scalar::Float(x.to_bits())),
        toml::Value::Boolean(b) => NativeValue::Scalar(Scalar::Boolean(*b)),
        toml::Value::Datetime(_) => NativeValue::Datetime,
        toml::Value::Array(_) => NativeValue::Array,
        toml::Value::Table(_) => NativeValue::Table,
    }
}

/// `toml::Value::get` with a string index: the entry under `key` where the
/// node is a table that has one, `None` where the node is no table or the
/// table lacks the key.
#[verifier::external_body]
pub(crate) fn table_get<'a>(node: &'a toml::Value, key: &str) -> (r: Option<&'a toml::Value>)
    ensures
        node_content(*node) is Table && table_entries(*node).contains_key(key@) ==> r == Some(
            &table_entries(*node)[key@],
        ),
        !(node_content(*node) is Table && table_entries(*node).contains_key(key@)) ==> r is None,
{
    node.get(key)
}

/// `toml::Value::from_str`, which reads the whole text as one TOML value.
/// What it returns depends on the text alone, and [`literal_content`] is the
/// name of what the value holds. The parse error is dropped: `None` stands
/// for every text that is no value.
#[verifier::external_body]
pub(crate) fn parse_literal(text: &str) -> (r: Option<toml::Value>)
    ensures
        match r {
            Some(node) => literal_content(text@) == Some(node_content(node)),
            None => literal_content(text@) is None,
        },
{
    toml::Value::from_str(text).ok()
}

/// What a document holds under `group`, then `name`.
pub ghost enum Lookup {
    /// The document has no such group, or the group has no such key.
    Absent,
    /// The document is no table.
    NoDocument,
    /// What the document holds under `group` is no table.
    NoSection,
    /// The entry, as the document holds it.
    Found(NativeView),
}

/// The entry of `doc` under `group`, then `name`.
pub open spec fn lookup(doc: toml::Value, group: Seq<char>, name: Seq<char>) -> Lookup {
    if !(node_content(doc) is Table) {
        Lookup::NoDocument
    } else if !table_entries(doc).contains_key(group) {
        Lookup::Absent
    } else {
        let section = table_entries(doc)[group];
        if !(node_content(section) is Table) {
            Lookup::NoSection
        } else if !table_entries(section).contains_key(name) {
            Lookup::Absent
        } else {
            Lookup::Found(node_content(table_entries(section)[name]))
        }
    }
}

} // verus!
