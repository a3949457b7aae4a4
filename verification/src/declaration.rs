//! Option declarations and the groups that hold them.

use crate::value::{clone_option, option_view, Scalar, ScalarView, TomlType};
use vstd::prelude::*;
use vstd::utf8::encode_utf8;

verus! {

/// Whether an option takes an argument on the command line.
#[derive(Clone, Copy, PartialEq, Eq, Structural, Debug)]
pub enum HasArg {
    /// The option requires an argument.
    Yes,
    /// The option takes no argument.
    No,
    /// The argument is optional.
    Maybe,
}

/// How often an option may occur on the command line.
#[derive(Clone, Copy, PartialEq, Eq, Structural, Debug)]
pub enum Occur {
    /// Exactly once.
    Req,
    /// At most once.
    Optional,
    /// Any number of times.
    Multi,
}

/// How flags and free arguments may be mixed on the command line.
#[derive(Clone, Copy, PartialEq, Eq, Structural, Debug)]
pub enum ParsingStyle {
    /// Flags and free arguments may be freely mixed.
    FloatingFrees,
    /// Nothing after the first free argument is taken as a flag.
    StopAtFirstFree,
}

/// The number of bytes that a text takes in UTF-8.
pub open spec fn utf8_len(text: Seq<char>) -> nat {
    encode_utf8(text).len()
}

/// A text takes no bytes exactly when it has no characters.
pub proof fn lemma_utf8_len_zero(text: Seq<char>)
    ensures
        utf8_len(text) == 0 <==> text.len() == 0,
{
    if text.len() > 0 {
        assert(encode_utf8(text) == vstd::utf8::encode_scalar(text[0] as u32) + encode_utf8(
            text.drop_first(),
        ));
    }
}

/// Whether two texts are the same.
pub fn same_text(a: &str, b: &str) -> (r: bool)
    ensures
        r == (a@ == b@),
{
    a.to_owned() == b.to_owned()
}

/// The byte length of a text.
pub fn byte_len(text: &str) -> (n: usize)
    ensures
        n == utf8_len(text@),
{
    text.as_bytes().len()
}

/// A single option, for use in a configuration document, on the command
/// line, or both.
#[derive(PartialEq, Debug)]
pub struct ConfigOption {
    /// Key of the option in a document. If empty, the long flag names it.
    toml_name: String,
    /// Short flag, such as `h` for `-h`, or empty.
    short_name: String,
    /// Long flag, such as `help` for `--help`, or empty.
    long_name: String,
    /// Hint for the argument, such as `FILE` for `-o FILE`.
    hint: String,
    /// Description for usage help.
    desc: String,
    /// Whether the option takes an argument.
    hasarg: HasArg,
    /// How often it may occur.
    occur: Occur,
    /// The type of its values.
    typ: TomlType,
    /// The compiled-in default, if there is one.
    default: Option<Scalar>,
}

/// The mathematical content of a [`ConfigOption`].
pub ghost struct OptionView {
    pub toml_name: Seq<char>,
    pub short_name: Seq<char>,
    pub long_name: Seq<char>,
    pub hint: Seq<char>,
    pub desc: Seq<char>,
    pub hasarg: HasArg,
    pub occur: Occur,
    pub typ: TomlType,
    pub default: Option<ScalarView>,
}

impl OptionView {
    /// The name under which the option is resolved: the document key if it
    /// has one, else the long flag.
    pub open spec fn name(self) -> Seq<char> {
        if self.toml_name.len() > 0 {
            self.toml_name
        } else {
            self.long_name
        }
    }

    /// Whether the option can be given on the command line at all.
    pub open spec fn has_flag(self) -> bool {
        self.short_name.len() > 0 || self.long_name.len() > 0
    }

    /// The flag by which the command line parser is asked for the option:
    /// the long flag if it has one, else the short flag.
    pub open spec fn flag_key(self) -> Seq<char> {
        if self.long_name.len() > 0 {
            self.long_name
        } else {
            self.short_name
        }
    }

    /// The short flag is empty or one byte, and the long flag is empty or
    /// longer than one byte.
    pub open spec fn flags_well_formed(self) -> bool {
        utf8_len(self.short_name) <= 1 && utf8_len(self.long_name) != 1
    }

    /// A default, where there is one, has the declared type.
    pub open spec fn default_typed(self) -> bool {
        self.default matches Some(v) ==> v.tag() == self.typ
    }
}

impl View for ConfigOption {
    type V = OptionView;

    closed spec fn view(&self) -> OptionView {
        OptionView {
            toml_name: self.toml_name@,
            short_name: self.short_name@,
            long_name: self.long_name@,
            hint: self.hint@,
            desc: self.desc@,
            hasarg: self.hasarg,
            occur: self.occur,
            typ: self.typ,
            default: option_view(self.default),
        }
    }
}

impl Clone for ConfigOption {
    fn clone(&self) -> (r: Self)
        ensures
            r@ == self@,
    {
        ConfigOption {
            toml_name: self.toml_name.clone(),
            short_name: self.short_name.clone(),
            long_name: self.long_name.clone(),
            hint: self.hint.clone(),
            desc: self.desc.clone(),
            hasarg: self.hasarg,
            occur: self.occur,
            typ: self.typ,
            default: clone_option(&self.default),
        }
    }
}

impl ConfigOption {
    /// Declares an option.
    pub fn new(
        toml_name: &str,
        short_name: &str,
        long_name: &str,
        hint: &str,
        desc: &str,
        hasarg: HasArg,
        occur: Occur,
        typ: TomlType,
        default: Option<Scalar>,
    ) -> (o: ConfigOption)
        ensures
            o@ == (OptionView {
                toml_name: toml_name@,
                short_name: short_name@,
                long_name: long_name@,
                hint: hint@,
                desc: desc@,
                hasarg,
                occur,
                typ,
                default: option_view(default),
            }),
    {
        ConfigOption {
            toml_name: toml_name.to_owned(),
            short_name: short_name.to_owned(),
            long_name: long_name.to_owned(),
            hint: hint.to_owned(),
            desc: desc.to_owned(),
            hasarg,
            occur,
            typ,
            default,
        }
    }

    /// The key of the option in a document, or the empty text.
    pub fn toml_name(&self) -> (s: &str)
        ensures
            s@ == self@.toml_name,
    {
        self.toml_name.as_str()
    }

    /// The short flag, or the empty text.
    pub fn short_name(&self) -> (s: &str)
        ensures
            s@ == self@.short_name,
    {
        self.short_name.as_str()
    }

    /// The long flag, or the empty text.
    pub fn long_name(&self) -> (s: &str)
        ensures
            s@ == self@.long_name,
    {
        self.long_name.as_str()
    }

    /// The hint for the argument.
    pub fn hint(&self) -> (s: &str)
        ensures
            s@ == self@.hint,
    {
        self.hint.as_str()
    }

    /// The description for usage help.
    pub fn desc(&self) -> (s: &str)
        ensures
            s@ == self@.desc,
    {
        self.desc.as_str()
    }

    /// Whether the option takes an argument.
    pub fn hasarg(&self) -> (h: HasArg)
        ensures
            h == self@.hasarg,
    {
        self.hasarg
    }

    /// How often the option may occur.
    pub fn occur(&self) -> (o: Occur)
        ensures
            o == self@.occur,
    {
        self.occur
    }

    /// The type of the option's values.
    pub fn typ(&self) -> (t: TomlType)
        ensures
            t == self@.typ,
    {
        self.typ
    }

    /// The compiled-in default, if there is one.
    pub fn default(&self) -> (d: &Option<Scalar>)
        ensures
            option_view(*d) == self@.default,
    {
        &self.default
    }

    /// The name under which the option is resolved: the document key if it
    /// is not empty, else the long flag.
    pub fn get_name(&self) -> (name: &str)
        ensures
            name@ == self@.name(),
    {
        if self.toml_name.as_str().is_empty() {
            self.long_name.as_str()
        } else {
            self.toml_name.as_str()
        }
    }
}

/// A set of options that form a configuration group, as a table of a
/// document holds them.
#[derive(PartialEq, Debug)]
pub struct ConfiguratorGroup {
    /// The name of the group, which is the key of its table in a document.
    pub name: String,
    /// The options of the group.
    pub args: Vec<ConfigOption>,
    /// Whether a document may set the options of the group.
    pub in_toml: bool,
    /// Whether the command line may set the options of the group.
    pub in_cli: bool,
}

/// The mathematical content of a [`ConfiguratorGroup`].
pub ghost struct GroupView {
    pub name: Seq<char>,
    pub args: Seq<OptionView>,
    pub in_toml: bool,
    pub in_cli: bool,
}

/// The contents of a sequence of options.
pub open spec fn options_view(args: Seq<ConfigOption>) -> Seq<OptionView> {
    Seq::new(args.len(), |i: int| args[i]@)
}

impl View for ConfiguratorGroup {
    type V = GroupView;

    open spec fn view(&self) -> GroupView {
        GroupView {
            name: self.name@,
            args: options_view(self.args@),
            in_toml: self.in_toml,
            in_cli: self.in_cli,
        }
    }
}

impl Clone for ConfiguratorGroup {
    fn clone(&self) -> (r: Self)
        ensures
            r@ == self@,
    {
        let mut args: Vec<ConfigOption> = Vec::new();
        let mut j: usize = 0;
        while j < self.args.len()
            invariant
                j <= self.args.len(),
                args.len() == j,
                forall|k: int| 0 <= k < j ==> args[k]@ == self.args[k]@,
            decreases self.args.len() - j,
        {
            args.push(self.args[j].clone());
            j += 1;
        }
        proof {
            assert(options_view(args@) =~= options_view(self.args@));
        }
        ConfiguratorGroup {
            name: self.name.clone(),
            args,
            in_toml: self.in_toml,
            in_cli: self.in_cli,
        }
    }
}

/// The contents of a sequence of groups.
pub open spec fn groups_view(groups: Seq<ConfiguratorGroup>) -> Seq<GroupView> {
    Seq::new(groups.len(), |i: int| groups[i]@)
}

} // verus!
