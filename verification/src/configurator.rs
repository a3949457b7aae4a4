//! The merge engine: it owns the declarations and the resolved set, and
//! folds one source after another into the set.

use crate::cli::{
    add_entry, matched_text, matched_values, new_table, parse_args, parse_outcome, set_style,
    table_content, ParsedArgs,
};
use crate::declaration::{
    groups_view, options_view, ConfigOption, ConfiguratorGroup, GroupView, ParsingStyle,
};
use crate::document::{read_node, table_get, NativeValue};
use crate::error::{ConfigError, ConfigErrorView};
use crate::laws::lemma_seed_complete;
use crate::matches::{resolved, same_keys, seed, Matches, MatchesView};
use crate::pass_laws::{
    covers, error_of, lemma_covers_same_keys, lemma_pass_errors, lemma_pass_typed,
    lemma_same_keys_trans, lemma_seed_consistent, well_typed,
};
use crate::passes::{
    cli_flags, cli_pass, cli_table, group_flags, knows_flags, lemma_cli_flags, lemma_knows_flags,
    offer, offer_to, options_pass, pass, path, SourceView,
};
use crate::validate::{check_options, declarations_valid, position, reports, ValidationError};
use crate::value::{option_view, Scalar, ScalarView};
use vstd::prelude::*;

verus! {

/// The content of a [`Configurator`].
pub ghost struct ConfiguratorView {
    /// The declarations.
    pub groups: Seq<GroupView>,
    /// The resolved set.
    pub matches: MatchesView,
}

/// Manages which options there are, with their defaults, and which values
/// have been found for them so far.
#[derive(Debug)]
pub struct Configurator {
    groups: Vec<ConfiguratorGroup>,
    matches: Matches,
}

impl View for Configurator {
    type V = ConfiguratorView;

    closed spec fn view(&self) -> ConfiguratorView {
        ConfiguratorView { groups: groups_view(self.groups@), matches: self.matches@ }
    }
}

/// What holds of an engine at all times: its declarations are valid, its
/// resolved set has a slot for each declared option and for nothing else,
/// and every value in it has the type that its option declares.
pub open spec fn consistent(c: ConfiguratorView) -> bool {
    &&& declarations_valid(c.groups)
    &&& same_keys(seed(c.groups), c.matches)
    &&& well_typed(c.matches, c.groups)
}

/// The resolved set of a consistent engine has a slot for every declared
/// option.
pub proof fn lemma_consistent_covers(c: ConfiguratorView)
    requires
        consistent(c),
    ensures
        covers(c.matches, c.groups),
{
    lemma_seed_consistent(c.groups);
    lemma_covers_same_keys(seed(c.groups), c.matches, c.groups);
}

/// A source of values, after its own parser has read it.
enum Source<'a> {
    CommandLine(&'a ParsedArgs),
    Document(&'a toml::Value),
}

impl<'a> View for Source<'a> {
    type V = SourceView;

    closed spec fn view(&self) -> SourceView {
        match *self {
            Source::CommandLine(parsed) => SourceView::CommandLine(matched_values(*parsed)),
            Source::Document(doc) => SourceView::Document(*doc),
        }
    }
}

/// The content of what a source offers for an option.
pub open spec fn offer_view(r: Result<Option<Scalar>, ConfigError>) -> Result<
    Option<ScalarView>,
    ConfigErrorView,
> {
    match r {
        Ok(Some(v)) => Ok(Some(v@)),
        Ok(None) => Ok(None),
        Err(e) => Err(e@),
    }
}

/// The content of the result of a pass.
pub open spec fn pass_view(r: Result<Matches, ConfigError>) -> Result<
    MatchesView,
    ConfigErrorView,
> {
    match r {
        Ok(m) => Ok(m@),
        Err(e) => Err(e@),
    }
}

/// The path of an option in a document.
fn dotted(group: &str, name: &str) -> (r: String)
    ensures
        r@ == path(group@, name@),
{
    let mut r = String::from_str(group);
    r.append(".");
    r.append(name);
    r
}

/// Asks a source for one option.
fn ask(source: &Source, group: &str, option: &ConfigOption) -> (r: Result<
    Option<Scalar>,
    ConfigError,
>)
    requires
        source@ matches SourceView::CommandLine(found) ==> option@.has_flag()
            ==> found.contains_key(option@.flag_key()),
    ensures
        offer_view(r) == offer(source@, group@, option@),
{
    match source {
        Source::CommandLine(parsed) => {
            let long = option.long_name();
            let short = option.short_name();
            if long.is_empty() && short.is_empty() {
                return Ok(None);
            }
            let key = if long.is_empty() {
                short
            } else {
                long
            };
            match matched_text(parsed, key) {
                None => Ok(None),
                Some(text) => match option.typ().to_value(text.as_str()) {
                    Ok(v) => Ok(Some(v)),
                    Err(e) => Err(e),
                },
            }
        },
        Source::Document(doc) => {
            match read_node(doc) {
                NativeValue::Table => {},
                _ => {
                    return Err(ConfigError::WrongContainer { path: String::new() });
                },
            }
            let section = match table_get(doc, group) {
                Some(section) => section,
                None => {
                    return Ok(None);
                },
            };
            match read_node(section) {
                NativeValue::Table => {},
                _ => {
                    return Err(ConfigError::WrongContainer { path: group.to_owned() });
                },
            }
            let name = option.get_name();
            let entry = match table_get(section, name) {
                Some(entry) => entry,
                None => {
                    return Ok(None);
                },
            };
            let source_path = dotted(group, name);
            match option.typ().check(source_path.as_str(), read_node(entry)) {
                Ok(v) => Ok(Some(v)),
                Err(e) => Err(e),
            }
        },
    }
}

impl Configurator {
    /// The declarations are valid, and the resolved set has a slot for each
    /// declared option and no other.
    #[verifier::type_invariant]
    spec fn wf(self) -> bool {
        consistent(self@)
    }

    /// Takes a declaration set, if it is valid, and seeds the resolved set
    /// with the defaults. Nothing is parsed.
    pub fn new(groups: Vec<ConfiguratorGroup>) -> (r: Result<Configurator, ValidationError>)
        ensures
            r is Ok <==> declarations_valid(groups_view(groups@)),
            match r {
                Ok(c) => c@.groups == groups_view(groups@) && c@.matches == seed(
                    groups_view(groups@),
                ) && consistent(c@),
                Err(e) => reports(groups_view(groups@), e@),
            },
    {
        proof {
            crate::validate::lemma_valid_is_faultless(groups_view(groups@));
            if declarations_valid(groups_view(groups@)) {
                lemma_seed_consistent(groups_view(groups@));
            }
        }
        match check_options(&groups) {
            Err(e) => {
                return Err(e);
            },
            Ok(_) => {},
        }
        match Matches::from_configs(&groups) {
            Err(e) => Err(ValidationError::DuplicateGroup(e)),
            Ok(matches) => Ok(Configurator { groups, matches }),
        }
    }

    /// The declarations.
    pub fn groups(&self) -> (r: &Vec<ConfiguratorGroup>)
        ensures
            groups_view(r@) == self@.groups,
    {
        &self.groups
    }

    /// The resolved set, as the passes so far have left it.
    pub fn matches(&self) -> (r: &Matches)
        ensures
            r@ == self@.matches,
            consistent(self@),
    {
        proof {
            use_type_invariant(self);
        }
        &self.matches
    }

    /// The value resolved for an option: `None` where the option is not
    /// declared or no source has given it a value.
    pub fn get(&self, group: &str, name: &str) -> (r: Option<Scalar>)
        ensures
            option_view(r) == resolved(self@.matches, group@, name@),
    {
        self.matches.get(group, name)
    }

    /// A fresh resolved set that holds the defaults of the declarations and
    /// nothing else.
    pub fn seed(&self) -> (r: Matches)
        ensures
            r@ == seed(self@.groups),
    {
        proof {
            use_type_invariant(self);
        }
        match Matches::from_configs(&self.groups) {
            Ok(m) => m,
            Err(_) => self.matches.clone(),
        }
    }

    /// The option table for the command line parser: one entry for each
    /// option with a flag, of each group that takes part in the command
    /// line.
    fn getopts(&self) -> (table: getopts::Options)
        ensures
            table_content(table) == cli_table(self@.groups, ParsingStyle::FloatingFrees),
    {
        proof {
            use_type_invariant(self);
        }
        let ghost gv = groups_view(self.groups@);
        let mut table = new_table();
        let mut i: usize = 0;
        while i < self.groups.len()
            invariant
                i <= self.groups.len(),
                gv == groups_view(self.groups@),
                declarations_valid(gv),
                table_content(table) == cli_table(gv.take(i as int), ParsingStyle::FloatingFrees),
            decreases self.groups.len() - i,
        {
            let group = &self.groups[i];
            proof {
                assert(gv[i as int] == group@);
                assert(gv.take(i + 1).drop_last() =~= gv.take(i as int));
                assert(gv.take(i + 1).last() == gv[i as int]);
            }
            if group.in_cli {
                let ghost ov = options_view(group.args@);
                let ghost before = cli_flags(gv.take(i as int));
                let mut j: usize = 0;
                proof {
                    assert(before + group_flags(ov.take(0)) =~= before);
                }
                while j < group.args.len()
                    invariant
                        i < self.groups.len(),
                        j <= group.args.len(),
                        gv == groups_view(self.groups@),
                        group == self.groups[i as int],
                        gv[i as int] == group@,
                        ov == options_view(group.args@),
                        declarations_valid(gv),
                        table_content(table).entries == before + group_flags(ov.take(j as int)),
                        table_content(table).style == ParsingStyle::FloatingFrees,
                        !table_content(table).long_only,
                    decreases group.args.len() - j,
                {
                    let option = &group.args[j];
                    proof {
                        assert(ov[j as int] == option@);
                        assert(ov.take(j + 1).drop_last() =~= ov.take(j as int));
                        assert(ov.take(j + 1).last() == ov[j as int]);
                        assert(position(gv, i as int, j as int));
                        assert(gv[i as int].args[j as int] == option@);
                    }
                    if !(option.short_name().is_empty() && option.long_name().is_empty()) {
                        add_entry(
                            &mut table,
                            option.short_name(),
                            option.long_name(),
                            option.desc(),
                            option.hint(),
                            option.hasarg(),
                            option.occur(),
                        );
                        proof {
                            assert(table_content(table).entries =~= before + group_flags(
                                ov.take(j + 1),
                            ));
                        }
                    }
                    j += 1;
                }
                proof {
                    assert(ov.take(group.args.len() as int) =~= ov);
                }
            }
            i += 1;
        }
        proof {
            assert(gv.take(self.groups.len() as int) =~= gv);
        }
        table
    }

    /// One pass over a source. The resolved set of the engine stays as it
    /// is: the result is a copy with the values of the source merged in.
    fn run_pass(&self, source: &Source, precedence: i32) -> (r: Result<Matches, ConfigError>)
        requires
            source@ matches SourceView::CommandLine(found) ==> knows_flags(found, self@.groups),
        ensures
            pass_view(r) == pass(source@, self@.groups, self@.matches, precedence),
            r matches Ok(m) ==> same_keys(seed(self@.groups), m@) && well_typed(
                m@,
                self@.groups,
            ),
            r matches Err(e) ==> error_of(source@, e@),
    {
        proof {
            use_type_invariant(self);
            lemma_consistent_covers(self@);
            lemma_pass_typed(source@, self@.groups, self@.matches, precedence);
            lemma_pass_errors(source@, self@.groups, self@.matches, precedence);
        }
        let ghost gv = groups_view(self.groups@);
        let ghost whole = pass(source@, gv, self.matches@, precedence);
        let mut work = self.matches.clone();
        let mut i: usize = 0;
        proof {
            assert(gv.skip(0) =~= gv);
        }
        while i < self.groups.len()
            invariant
                i <= self.groups.len(),
                gv == groups_view(self.groups@),
                declarations_valid(gv),
                source@ matches SourceView::CommandLine(found) ==> knows_flags(found, gv),
                same_keys(seed(gv), work@),
                whole == pass(source@, gv, self.matches@, precedence),
                whole == pass(source@, gv.skip(i as int), work@, precedence),
            decreases self.groups.len() - i,
        {
            let group = &self.groups[i];
            let takes_part = match source {
                Source::CommandLine(_) => group.in_cli,
                Source::Document(_) => group.in_toml,
            };
            proof {
                assert(gv[i as int] == group@);
                assert(gv.skip(i as int)[0] == gv[i as int]);
                assert(gv.skip(i as int).drop_first() =~= gv.skip(i + 1));
            }
            if takes_part {
                let ghost ov = options_view(group.args@);
                let mut j: usize = 0;
                proof {
                    assert(ov.skip(0) =~= ov);
                }
                while j < group.args.len()
                    invariant
                        i < self.groups.len(),
                        j <= group.args.len(),
                        gv == groups_view(self.groups@),
                        group == self.groups[i as int],
                        gv[i as int] == group@,
                        ov == options_view(group.args@),
                        declarations_valid(gv),
                        source@ matches SourceView::CommandLine(found) ==> knows_flags(found, gv),
                        source@ matches SourceView::CommandLine(_) ==> group.in_cli,
                        same_keys(seed(gv), work@),
                        whole == pass(source@, gv, self.matches@, precedence),
                        whole == match options_pass(
                            source@,
                            group.name@,
                            ov.skip(j as int),
                            work@,
                            precedence,
                        ) {
                            Err(e) => Err(e),
                            Ok(next) => pass(source@, gv.skip(i + 1), next, precedence),
                        },
                    decreases group.args.len() - j,
                {
                    let option = &group.args[j];
                    proof {
                        assert(ov[j as int] == option@);
                        assert(ov.skip(j as int)[0] == ov[j as int]);
                        assert(ov.skip(j as int).drop_first() =~= ov.skip(j + 1));
                        assert(position(gv, i as int, j as int));
                        assert(gv[i as int].args[j as int] == option@);
                        lemma_seed_complete(gv, i as int, j as int);
                    }
                    let ghost rest = ov.skip(j as int);
                    let offered = match ask(source, group.name.as_str(), option) {
                        Ok(offered) => offered,
                        Err(e) => {
                            proof {
                                assert(offer_to(source@, group.name@, rest[0], work@, precedence)
                                    == Err::<MatchesView, ConfigErrorView>(e@));
                                assert(options_pass(source@, group.name@, rest, work@, precedence)
                                    == Err::<MatchesView, ConfigErrorView>(e@));
                            }
                            return Err(e);
                        },
                    };
                    match offered {
                        None => {},
                        Some(value) => {
                            let ghost before = work@;
                            match work.update(
                                group.name.as_str(),
                                option.get_name(),
                                value,
                                precedence,
                            ) {
                                Ok(_) => {},
                                Err(e) => {
                                    return Err(ConfigError::MissingKey(e));
                                },
                            }
                            proof {
                                lemma_same_keys_trans(seed(gv), before, work@);
                            }
                        },
                    }
                    j += 1;
                }
            }
            i += 1;
        }
        Ok(work)
    }

    /// The pass over the command line. The arguments are parsed with the
    /// option table of the declarations, in the given style. Where the
    /// parser rejects them, its failure is handed on and nothing changes.
    /// Else each option with a flag, of each group that takes part, takes
    /// the argument of its first occurrence, coerced to its declared type and
    /// merged at the given precedence. The first argument that cannot be
    /// coerced ends the pass with its error, and nothing changes.
    pub fn parse_cli(&mut self, args: &Vec<String>, p: ParsingStyle, precedence: i32) -> (r: Result<
        Matches,
        ConfigError,
    >)
        ensures
            final(self)@.groups == old(self)@.groups,
            pass_view(r) == cli_pass(
                parse_outcome(cli_table(old(self)@.groups, p), args.deep_view()),
                old(self)@.groups,
                old(self)@.matches,
                precedence,
            ),
            final(self)@.matches == match r {
                Ok(m) => m@,
                Err(_) => old(self)@.matches,
            },
            consistent(old(self)@),
            consistent(final(self)@),
            r matches Err(e) ==> e is CliError || e is ParseError || e is TypeMismatch,
    {
        proof {
            use_type_invariant(&*self);
        }
        let ghost gv = groups_view(self.groups@);
        let mut table = self.getopts();
        set_style(&mut table, p);
        proof {
            lemma_cli_flags(gv);
            assert(table_content(table).entries == cli_flags(gv));
        }
        let parsed = match parse_args(&table, args) {
            Ok(parsed) => parsed,
            Err(fail) => {
                return Err(ConfigError::CliError(fail));
            },
        };
        proof {
            lemma_knows_flags(matched_values(parsed), gv);
        }
        let source = Source::CommandLine(&parsed);
        match self.run_pass(&source, precedence) {
            Ok(m) => {
                self.matches = m.clone();
                Ok(m)
            },
            Err(e) => Err(e),
        }
    }

    /// The pass over a parsed document. Each option of each group that
    /// takes part in documents takes the entry that the document holds under
    /// the group's name, then the option's name, merged at the given
    /// precedence. An option without such an entry is passed over. An entry
    /// that is no scalar of the declared type, and a document or a section
    /// that is no table, end the pass with an error, and nothing changes.
    pub fn parse_toml_partial(&mut self, parsed_toml: &toml::Value, precedence: i32) -> (r: Result<
        Matches,
        ConfigError,
    >)
        ensures
            final(self)@.groups == old(self)@.groups,
            pass_view(r) == pass(
                SourceView::Document(*parsed_toml),
                old(self)@.groups,
                old(self)@.matches,
                precedence,
            ),
            final(self)@.matches == match r {
                Ok(m) => m@,
                Err(_) => old(self)@.matches,
            },
            consistent(old(self)@),
            consistent(final(self)@),
            r matches Err(e) ==> e is TypeMismatch || e is WrongContainer,
    {
        proof {
            use_type_invariant(&*self);
        }
        let source = Source::Document(parsed_toml);
        match self.run_pass(&source, precedence) {
            Ok(m) => {
                self.matches = m.clone();
                Ok(m)
            },
            Err(e) => Err(e),
        }
    }
}

} // verus!
