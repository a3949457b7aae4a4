//! The command line parser, which is the `getopts` crate.
//!
//! An option table and a parse result are opaque to the verifier. What each
//! holds is named here, and each function that touches one says over those
//! names what it does.

use crate::declaration::{utf8_len, HasArg, Occur, ParsingStyle};
use vstd::prelude::*;

verus! {

/// The option table of the command line parser, `getopts::Options`.
#[verifier::external_type_specification]
#[verifier::external_body]
pub struct ExOptionTable(getopts::Options);

/// The reason for which the parser rejects a command line, `getopts::Fail`.
#[verifier::external_type_specification]
#[verifier::external_body]
pub struct ExParseFailure(getopts::Fail);

/// What the parser found on a command line that it accepted: a
/// `getopts::Matches`.
#[verifier::external_body]
pub struct ParsedArgs {
    inner: getopts::Matches,
}

/// One entry of an option table.
pub ghost struct FlagView {
    pub short_name: Seq<char>,
    pub long_name: Seq<char>,
    pub desc: Seq<char>,
    pub hint: Seq<char>,
    pub hasarg: HasArg,
    pub occur: Occur,
}

impl FlagView {
    /// The entry has a short or a long flag.
    pub open spec fn named(self) -> bool {
        utf8_len(self.short_name) > 0 || utf8_len(self.long_name) > 0
    }

    /// The flag by which a parse result is asked for the entry: the long
    /// flag if there is one, else the short flag.
    pub open spec fn key(self) -> Seq<char> {
        if utf8_len(self.long_name) > 0 {
            self.long_name
        } else {
            self.short_name
        }
    }
}

/// What an option table holds.
pub ghost struct OptionTableView {
    /// The entries, in the order in which they were added.
    pub entries: Seq<FlagView>,
    pub style: ParsingStyle,
    /// Whether a long flag may be written with a single dash.
    pub long_only: bool,
}

/// The contents of an option table.
pub uninterp spec fn table_content(table: getopts::Options) -> OptionTableView;

/// What a parse result holds: for each flag, short or long, of the table
/// that the command line was parsed with, the argument of the flag's first
/// occurrence. `None` stands for a flag that did not occur or whose first
/// occurrence had no argument.
pub uninterp spec fn matched_values(parsed: ParsedArgs) -> Map<Seq<char>, Option<Seq<char>>>;

/// What the parser finds on a command line with a given table: the contents
/// of the parse result, or the failure with which it rejects the command
/// line.
pub uninterp spec fn parse_outcome(table: OptionTableView, args: Seq<Seq<char>>) -> Result<
    Map<Seq<char>, Option<Seq<char>>>,
    getopts::Fail,
>;

/// The content of an optional text.
pub open spec fn text_view(text: Option<String>) -> Option<Seq<char>> {
    match text {
        Some(s) => Some(s@),
        None => None,
    }
}

/// The sentence in which the parser states a failure, as the `Display` of
/// `getopts::Fail` writes it. Nothing is claimed of the sentence.
#[verifier::external_body]
pub(crate) fn failure_text(fail: &getopts::Fail) -> String {
    fail.to_string()
}

/// `getopts::Options::new`: a table without entries, in which flags and
/// free arguments may be mixed and a long flag takes two dashes.
#[verifier::external_body]
pub(crate) fn new_table() -> (table: getopts::Options)
    ensures
        table_content(table) == (OptionTableView {
            entries: Seq::empty(),
            style: ParsingStyle::FloatingFrees,
            long_only: false,
        }),
{
    getopts::Options::new()
}

/// `getopts::Options::opt`, which appends one entry and leaves the rest of
/// the table as it is. It panics on a short flag of more than one byte and
/// on a long flag of exactly one byte.
#[verifier::external_body]
pub(crate) fn add_entry(
    table: &mut getopts::Options,
    short_name: &str,
    long_name: &str,
    desc: &str,
    hint: &str,
    hasarg: HasArg,
    occur: Occur,
)
    requires
        utf8_len(short_name@) <= 1,
        utf8_len(long_name@) != 1,
    ensures
        table_content(*final(table)) == (OptionTableView {
            entries: table_content(*old(table)).entries.push(
                FlagView {
                    short_name: short_name@,
                    long_name: long_name@,
                    desc: desc@,
                    hint: hint@,
                    hasarg,
                    occur,
                },
            ),
            ..table_content(*old(table))
        }),
{
    let hasarg = match hasarg {
        HasArg::Yes => getopts::HasArg::Yes,
        HasArg::No => getopts::HasArg::No,
        HasArg::Maybe => getopts::HasArg::Maybe,
    };
    let occur = match occur {
        Occur::Req => getopts::Occur::Req,
        Occur::Optional => getopts::Occur::Optional,
        Occur::Multi => getopts::Occur::Multi,
    };
    table.opt(short_name, long_name, desc, hint, hasarg, occur);
}

/// `getopts::Options::parsing_style`, which sets the style and nothing else.
#[verifier::external_body]
pub(crate) fn set_style(table: &mut getopts::Options, style: ParsingStyle)
    ensures
        table_content(*final(table)) == (OptionTableView { style, ..table_content(*old(table)) }),
{
    let style = match style {
        ParsingStyle::FloatingFrees => getopts::ParsingStyle::FloatingFrees,
        ParsingStyle::StopAtFirstFree => getopts::ParsingStyle::StopAtFirstFree,
    };
    table.parsing_style(style);
}

/// `getopts::Options::parse`, which panics on a table with an entry that
/// has neither flag. What it returns depends on the table and the arguments
/// alone, and [`parse_outcome`] is the name of it. A result that it returns
/// knows every flag of the table: the long flag of each entry that has one,
/// and the short flag of each other entry.
#[verifier::external_body]
pub(crate) fn parse_args(table: &getopts::Options, args: &Vec<String>) -> (r: Result<
    ParsedArgs,
    getopts::Fail,
>)
    requires
        forall|i: int|
            0 <= i < table_content(*table).entries.len() ==> (
            #[trigger] table_content(*table).entries[i]).named(),
    ensures
        match r {
            Ok(parsed) => parse_outcome(table_content(*table), args.deep_view()) == Ok::<
                Map<Seq<char>, Option<Seq<char>>>,
                getopts::Fail,
            >(matched_values(parsed)),
            Err(fail) => parse_outcome(table_content(*table), args.deep_view()) == Err::<
                Map<Seq<char>, Option<Seq<char>>>,
                getopts::Fail,
            >(fail),
        },
        r matches Ok(parsed) ==> forall|i: int|
            0 <= i < table_content(*table).entries.len() ==> matched_values(parsed).contains_key(
                (#[trigger] table_content(*table).entries[i]).key(),
            ),
{
    match table.parse(args) {
        Ok(inner) => Ok(ParsedArgs { inner }),
        Err(fail) => Err(fail),
    }
}

/// `getopts::Matches::opt_str`, which panics on a flag that the table did
/// not have. It returns the argument of the flag's first occurrence, which
/// is what [`matched_values`] holds for the flag.
#[verifier::external_body]
pub(crate) fn matched_text(parsed: &ParsedArgs, flag: &str) -> (r: Option<String>)
    requires
        matched_values(*parsed).contains_key(flag@),
    ensures
        text_view(r) == matched_values(*parsed)[flag@],
{
    parsed.inner.opt_str(flag)
}

} // verus!
