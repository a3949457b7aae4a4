//! What a pass over one source does to a resolved set.

use crate::assoc::Name;
use crate::cli::{FlagView, OptionTableView};
use crate::coerce::{coerce, typed};
use crate::declaration::{lemma_utf8_len_zero, GroupView, OptionView, ParsingStyle};
use crate::document::{literal_content, lookup, Lookup};
use crate::error::ConfigErrorView;
use crate::matches::{declared, merged, missing, MatchesView};
use crate::validate::position;
use crate::value::ScalarView;
use vstd::prelude::*;

verus! {

/// What the command line gave: for each flag that the parser knows, the
/// argument of its first occurrence, if it occurred with one.
pub type FoundFlags = Map<Name, Option<Seq<char>>>;

/// A source of values, after its own parser has read it.
pub ghost enum SourceView {
    CommandLine(FoundFlags),
    Document(toml::Value),
}

/// Whether the options of the group are looked for in the source.
pub open spec fn takes_part(source: SourceView, group: GroupView) -> bool {
    match source {
        SourceView::CommandLine(_) => group.in_cli,
        SourceView::Document(_) => group.in_toml,
    }
}

/// The path of an option in a document.
pub open spec fn path(group: Name, name: Name) -> Seq<char> {
    group + "."@ + name
}

/// The typed value, if there is one.
pub open spec fn some_value(r: Result<ScalarView, ConfigErrorView>) -> Result<
    Option<ScalarView>,
    ConfigErrorView,
> {
    match r {
        Ok(v) => Ok(Some(v)),
        Err(e) => Err(e),
    }
}

/// What the source offers for an option: a value, nothing, or an error.
///
/// The command line offers the argument of the option's first occurrence,
/// coerced to the declared type, and nothing for an option without flags,
/// with a flag that the parser does not know, or without such an argument.
/// A document offers the entry under the group's
/// name, then the option's name, if it is a scalar of the declared type, and
/// nothing where there is no such entry. A document or a section that is no
/// table is an error.
pub open spec fn offer(source: SourceView, group: Name, option: OptionView) -> Result<
    Option<ScalarView>,
    ConfigErrorView,
> {
    match source {
        SourceView::CommandLine(found) => {
            if !option.has_flag() || !found.contains_key(option.flag_key()) {
                Ok(None)
            } else {
                match found[option.flag_key()] {
                    None => Ok(None),
                    Some(text) => some_value(coerce(option.typ, text, literal_content(text))),
                }
            }
        },
        SourceView::Document(doc) => match lookup(doc, group, option.name()) {
            Lookup::Absent => Ok(None),
            Lookup::NoDocument => Err(ConfigErrorView::WrongContainer { path: Seq::empty() }),
            Lookup::NoSection => Err(ConfigErrorView::WrongContainer { path: group }),
            Lookup::Found(native) => some_value(
                typed(option.typ, path(group, option.name()), native),
            ),
        },
    }
}

/// The resolved set after the source was asked for one option: what the
/// source offers is written to the slot of the option. An offer for an
/// option without a slot is an error.
pub open spec fn offer_to(
    source: SourceView,
    group: Name,
    option: OptionView,
    m: MatchesView,
    precedence: i32,
) -> Result<MatchesView, ConfigErrorView> {
    match offer(source, group, option) {
        Err(e) => Err(e),
        Ok(None) => Ok(m),
        Ok(Some(v)) => if declared(m, group, option.name()) {
            Ok(merged(m, group, option.name(), v, precedence))
        } else {
            Err(ConfigErrorView::MissingKey(missing(m, group, option.name())))
        },
    }
}

/// The resolved set after the source was asked for the options of a group,
/// in the order of their declaration. The first error ends the pass.
pub open spec fn options_pass(
    source: SourceView,
    group: Name,
    args: Seq<OptionView>,
    m: MatchesView,
    precedence: i32,
) -> Result<MatchesView, ConfigErrorView>
    decreases args.len(),
{
    if args.len() == 0 {
        Ok(m)
    } else {
        match offer_to(source, group, args[0], m, precedence) {
            Err(e) => Err(e),
            Ok(next) => options_pass(source, group, args.drop_first(), next, precedence),
        }
    }
}

/// The resolved set after the source was asked for one group.
pub open spec fn group_pass(
    source: SourceView,
    group: GroupView,
    m: MatchesView,
    precedence: i32,
) -> Result<MatchesView, ConfigErrorView> {
    if takes_part(source, group) {
        options_pass(source, group.name, group.args, m, precedence)
    } else {
        Ok(m)
    }
}

/// The resolved set after a pass over one source: the groups that take part
/// are asked in the order of their declaration. The first error ends the
/// pass.
pub open spec fn pass(
    source: SourceView,
    groups: Seq<GroupView>,
    m: MatchesView,
    precedence: i32,
) -> Result<MatchesView, ConfigErrorView>
    decreases groups.len(),
{
    if groups.len() == 0 {
        Ok(m)
    } else {
        match group_pass(source, groups[0], m, precedence) {
            Err(e) => Err(e),
            Ok(next) => pass(source, groups.drop_first(), next, precedence),
        }
    }
}

/// The table entry of an option.
pub open spec fn flag_of(option: OptionView) -> FlagView {
    FlagView {
        short_name: option.short_name,
        long_name: option.long_name,
        desc: option.desc,
        hint: option.hint,
        hasarg: option.hasarg,
        occur: option.occur,
    }
}

/// The table entries of the options of a group: one for each option that
/// has a flag, in the order of declaration.
pub open spec fn group_flags(args: Seq<OptionView>) -> Seq<FlagView>
    decreases args.len(),
{
    if args.len() == 0 {
        Seq::empty()
    } else if args.last().has_flag() {
        group_flags(args.drop_last()).push(flag_of(args.last()))
    } else {
        group_flags(args.drop_last())
    }
}

/// The table entries of a declaration set: those of the groups that take
/// part in the command line, in the order of declaration.
pub open spec fn cli_flags(groups: Seq<GroupView>) -> Seq<FlagView>
    decreases groups.len(),
{
    if groups.len() == 0 {
        Seq::empty()
    } else if groups.last().in_cli {
        cli_flags(groups.drop_last()) + group_flags(groups.last().args)
    } else {
        cli_flags(groups.drop_last())
    }
}

/// The option table with which a command line is parsed.
pub open spec fn cli_table(groups: Seq<GroupView>, style: ParsingStyle) -> OptionTableView {
    OptionTableView { entries: cli_flags(groups), style, long_only: false }
}

/// The result of the pass over a command line, of which it is known what
/// the parser makes of it: the parser's failure, or the result of the pass
/// over what the parser found.
pub open spec fn cli_pass(
    outcome: Result<FoundFlags, getopts::Fail>,
    groups: Seq<GroupView>,
    m: MatchesView,
    precedence: i32,
) -> Result<MatchesView, ConfigErrorView> {
    match outcome {
        Err(fail) => Err(ConfigErrorView::CliError(fail)),
        Ok(found) => pass(SourceView::CommandLine(found), groups, m, precedence),
    }
}

/// The parser knows the flag of every option that can be given on the
/// command line.
pub open spec fn knows_flags(found: FoundFlags, groups: Seq<GroupView>) -> bool {
    forall|i: int, j: int|
        position(groups, i, j) && groups[i].in_cli && (#[trigger] groups[i].args[j]).has_flag()
            ==> found.contains_key(groups[i].args[j].flag_key())
}

/// The entry of an option with a flag has a name, and is asked for by the
/// option's flag.
pub proof fn lemma_flag_of(option: OptionView)
    requires
        option.has_flag(),
    ensures
        flag_of(option).named(),
        flag_of(option).key() == option.flag_key(),
{
    lemma_utf8_len_zero(option.short_name);
    lemma_utf8_len_zero(option.long_name);
}

/// Every entry of the table of a group has a name and belongs to an option
/// of the group.
pub proof fn lemma_group_flags(args: Seq<OptionView>)
    ensures
        forall|k: int|
            0 <= k < group_flags(args).len() ==> (#[trigger] group_flags(args)[k]).named(),
        forall|j: int|
            0 <= j < args.len() && (#[trigger] args[j]).has_flag() ==> exists|k: int|
                0 <= k < group_flags(args).len() && #[trigger] group_flags(args)[k] == flag_of(
                    args[j],
                ),
    decreases args.len(),
{
    if args.len() > 0 {
        let rest = args.drop_last();
        lemma_group_flags(rest);
        if args.last().has_flag() {
            lemma_flag_of(args.last());
        }
        assert forall|j: int| 0 <= j < args.len() && (#[trigger] args[j]).has_flag() implies exists|
            k: int,
        |
            0 <= k < group_flags(args).len() && #[trigger] group_flags(args)[k] == flag_of(
                args[j],
            ) by {
            if j < rest.len() {
                assert(rest[j] == args[j]);
                let k = choose|k: int|
                    0 <= k < group_flags(rest).len() && #[trigger] group_flags(rest)[k] == flag_of(
                        rest[j],
                    );
                assert(group_flags(args)[k] == flag_of(args[j]));
            } else {
                let k = group_flags(rest).len() as int;
                assert(group_flags(args)[k] == flag_of(args[j]));
            }
        }
    }
}

/// Every entry of the table of a declaration set has a name, and the table
/// has an entry for every option that can be given on the command line.
pub proof fn lemma_cli_flags(groups: Seq<GroupView>)
    ensures
        forall|k: int|
            0 <= k < cli_flags(groups).len() ==> (#[trigger] cli_flags(groups)[k]).named(),
        forall|i: int, j: int|
            position(groups, i, j) && groups[i].in_cli && (#[trigger] groups[i].args[j]).has_flag()
                ==> exists|k: int|
                0 <= k < cli_flags(groups).len() && #[trigger] cli_flags(groups)[k] == flag_of(
                    groups[i].args[j],
                ),
    decreases groups.len(),
{
    if groups.len() > 0 {
        let rest = groups.drop_last();
        let last = groups.last();
        lemma_cli_flags(rest);
        lemma_group_flags(last.args);
        assert forall|i: int, j: int|
            position(groups, i, j) && groups[i].in_cli && (
            #[trigger] groups[i].args[j]).has_flag() implies exists|k: int|
            0 <= k < cli_flags(groups).len() && #[trigger] cli_flags(groups)[k] == flag_of(
                groups[i].args[j],
            ) by {
            if i < rest.len() {
                assert(rest[i] == groups[i]);
                assert(position(rest, i, j));
                let k = choose|k: int|
                    0 <= k < cli_flags(rest).len() && #[trigger] cli_flags(rest)[k] == flag_of(
                        rest[i].args[j],
                    );
                assert(cli_flags(groups)[k] == flag_of(groups[i].args[j]));
            } else {
                let x = choose|x: int|
                    0 <= x < group_flags(last.args).len() && #[trigger] group_flags(last.args)[x]
                        == flag_of(last.args[j]);
                let k = cli_flags(rest).len() + x;
                assert(cli_flags(groups)[k] == flag_of(groups[i].args[j]));
            }
        }
    }
}

/// A parse result that knows every flag of the table knows the flag of
/// every option that can be given on the command line.
pub proof fn lemma_knows_flags(found: FoundFlags, groups: Seq<GroupView>)
    requires
        forall|k: int|
            0 <= k < cli_flags(groups).len() ==> found.contains_key(
                (#[trigger] cli_flags(groups)[k]).key(),
            ),
    ensures
        knows_flags(found, groups),
{
    lemma_cli_flags(groups);
    assert forall|i: int, j: int|
        position(groups, i, j) && groups[i].in_cli && (
        #[trigger] groups[i].args[j]).has_flag() implies found.contains_key(
        groups[i].args[j].flag_key(),
    ) by {
        let k = choose|k: int|
            0 <= k < cli_flags(groups).len() && #[trigger] cli_flags(groups)[k] == flag_of(
                groups[i].args[j],
            );
        lemma_flag_of(groups[i].args[j]);
        assert(found.contains_key(cli_flags(groups)[k].key()));
    }
}

} // verus!
