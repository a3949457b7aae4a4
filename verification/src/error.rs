//! The errors of declaring, seeding and merging.

use crate::cli::failure_text;
use crate::value::{tag_name, TomlType};
use vstd::prelude::*;

verus! {

/// Two groups of one declaration set share a name.
#[derive(PartialEq, Debug)]
pub struct DuplicateKeyError {
    /// The name that occurs twice.
    pub key: String,
    /// A sentence for the user.
    pub msg: String,
}

/// The sentence that reports two groups of the name `key`.
pub open spec fn duplicate_group_message(key: Seq<char>) -> Seq<char> {
    "Found two groups with the same key "@ + key
}

impl DuplicateKeyError {
    /// The error for two groups named `key`.
    pub fn for_group(key: &str) -> (e: DuplicateKeyError)
        ensures
            e.key@ == key@,
            e.msg@ == duplicate_group_message(key@),
    {
        let mut msg = String::from_str("Found two groups with the same key ");
        msg.append(key);
        DuplicateKeyError { key: key.to_owned(), msg }
    }

    /// The name that occurs twice.
    pub fn description(&self) -> (s: &str)
        ensures
            s@ == self.key@,
    {
        self.key.as_str()
    }

    /// The sentence for the user.
    pub fn message(&self) -> (s: &str)
        ensures
            s@ == self.msg@,
    {
        self.msg.as_str()
    }
}

/// What a [`MissingKeyError`] did not find.
#[derive(Clone, Copy, PartialEq, Eq, Structural, Debug)]
pub enum MissingKind {
    /// No group of that name was declared.
    Group,
    /// The group was declared, but no option of that name in it.
    Key,
}

/// A write was addressed to a group or an option that was never declared.
#[derive(PartialEq, Debug)]
pub struct MissingKeyError {
    /// The name that was not found.
    pub key: String,
    /// A sentence for the user.
    pub msg: String,
    /// Whether the group or the option was not found.
    pub kind: MissingKind,
}

/// The sentence that reports an undeclared group.
pub open spec fn missing_group_message(group: Seq<char>) -> Seq<char> {
    "Group "@ + group + " not found"@
}

/// The sentence that reports an undeclared option of a declared group.
pub open spec fn missing_key_message(group: Seq<char>, name: Seq<char>) -> Seq<char> {
    "Key "@ + name + " not found in group "@ + group
}

/// The content of a [`MissingKeyError`].
pub ghost struct MissingKeyView {
    pub key: Seq<char>,
    pub msg: Seq<char>,
    pub kind: MissingKind,
}

/// What is reported for an undeclared group.
pub open spec fn missing_group(group: Seq<char>) -> MissingKeyView {
    MissingKeyView { key: group, msg: missing_group_message(group), kind: MissingKind::Group }
}

/// What is reported for an undeclared option of a declared group.
pub open spec fn missing_key(group: Seq<char>, name: Seq<char>) -> MissingKeyView {
    MissingKeyView { key: name, msg: missing_key_message(group, name), kind: MissingKind::Key }
}

impl View for MissingKeyError {
    type V = MissingKeyView;

    open spec fn view(&self) -> MissingKeyView {
        MissingKeyView { key: self.key@, msg: self.msg@, kind: self.kind }
    }
}

impl MissingKeyError {
    /// The error for a group that was never declared.
    pub fn for_group(group: &str) -> (e: MissingKeyError)
        ensures
            e@ == missing_group(group@),
    {
        let mut msg = String::from_str("Group ");
        msg.append(group);
        msg.append(" not found");
        MissingKeyError { key: group.to_owned(), msg, kind: MissingKind::Group }
    }

    /// The error for an option that its group does not declare.
    pub fn for_key(group: &str, name: &str) -> (e: MissingKeyError)
        ensures
            e@ == missing_key(group@, name@),
    {
        let mut msg = String::from_str("Key ");
        msg.append(name);
        msg.append(" not found in group ");
        msg.append(group);
        MissingKeyError { key: name.to_owned(), msg, kind: MissingKind::Key }
    }

    /// The name that was not found.
    pub fn description(&self) -> (s: &str)
        ensures
            s@ == self.key@,
    {
        self.key.as_str()
    }

    /// The sentence for the user.
    pub fn message(&self) -> (s: &str)
        ensures
            s@ == self.msg@,
    {
        self.msg.as_str()
    }
}

/// Why a pass over one source failed.
#[derive(PartialEq, Debug)]
pub enum ConfigError {
    /// The command line parser rejected the arguments.
    CliError(getopts::Fail),
    /// The text is no literal at all.
    ParseError { text: String, target: TomlType },
    /// The value is well formed, but not of the declared type. `source` is
    /// the literal on the command line, or the path of the entry in the
    /// document.
    TypeMismatch { source: String, expected: TomlType },
    /// The document, or the entry that it holds under the name of a group,
    /// is no table. `path` is empty for the document and the name of the
    /// group for its entry.
    WrongContainer { path: String },
    /// A write went to a slot that was never declared.
    MissingKey(MissingKeyError),
}

/// The content of a [`ConfigError`].
pub ghost enum ConfigErrorView {
    CliError(getopts::Fail),
    ParseError { text: Seq<char>, target: TomlType },
    TypeMismatch { source: Seq<char>, expected: TomlType },
    WrongContainer { path: Seq<char> },
    MissingKey(MissingKeyView),
}

impl View for ConfigError {
    type V = ConfigErrorView;

    open spec fn view(&self) -> ConfigErrorView {
        match *self {
            ConfigError::CliError(fail) => ConfigErrorView::CliError(fail),
            ConfigError::ParseError { text, target } => ConfigErrorView::ParseError {
                text: text@,
                target,
            },
            ConfigError::TypeMismatch { source, expected } => ConfigErrorView::TypeMismatch {
                source: source@,
                expected,
            },
            ConfigError::WrongContainer { path } => ConfigErrorView::WrongContainer { path: path@ },
            ConfigError::MissingKey(e) => ConfigErrorView::MissingKey(e@),
        }
    }
}

/// The sentence that reports an error of a pass. That of a failure of the
/// command line parser is the parser's own and is not stated here.
pub open spec fn error_message(e: ConfigErrorView) -> Seq<char> {
    match e {
        ConfigErrorView::CliError(_) => Seq::empty(),
        ConfigErrorView::ParseError { text, target } => "Cannot parse '"@ + text + "' as "@
            + tag_name(target),
        ConfigErrorView::TypeMismatch { source, expected } => "Value of '"@ + source
            + "' is not of type "@ + tag_name(expected),
        ConfigErrorView::WrongContainer { path } => if path.len() == 0 {
            "The document is not a table"@
        } else {
            "Entry '"@ + path + "' of the document is not a table"@
        },
        ConfigErrorView::MissingKey(e) => e.msg,
    }
}

impl ConfigError {
    /// The sentence for the user.
    pub fn message(&self) -> (s: String)
        ensures
            !(self is CliError) ==> s@ == error_message(self@),
    {
        match self {
            ConfigError::CliError(fail) => failure_text(fail),
            ConfigError::ParseError { text, target } => {
                let mut s = String::from_str("Cannot parse '");
                s.append(text.as_str());
                s.append("' as ");
                s.append(target.name());
                s
            },
            ConfigError::TypeMismatch { source, expected } => {
                let mut s = String::from_str("Value of '");
                s.append(source.as_str());
                s.append("' is not of type ");
                s.append(expected.name());
                s
            },
            ConfigError::WrongContainer { path } => {
                if path.as_str().is_empty() {
                    String::from_str("The document is not a table")
                } else {
                    let mut s = String::from_str("Entry '");
                    s.append(path.as_str());
                    s.append("' of the document is not a table");
                    s
                }
            },
            ConfigError::MissingKey(e) => e.msg.clone(),
        }
    }
}

impl From<getopts::Fail> for ConfigError {
    fn from(fail: getopts::Fail) -> (e: ConfigError)
        ensures
            e == ConfigError::CliError(fail),
    {
        ConfigError::CliError(fail)
    }
}

impl vstd::std_specs::convert::FromSpecImpl<getopts::Fail> for ConfigError {
    open spec fn obeys_from_spec() -> bool {
        true
    }

    open spec fn from_spec(fail: getopts::Fail) -> ConfigError {
        ConfigError::CliError(fail)
    }
}

} // verus!
