//! What holds of every pass over a source.

use crate::assoc::{distinct, Name};
use crate::coerce::lemma_coerce_round_trip;
use crate::declaration::{GroupView, OptionView};
use crate::document::literal_content;
use crate::error::ConfigErrorView;
use crate::laws::lemma_seed_complete;
use crate::matches::{
    declared, group_names, lemma_merged_keys, merge_slot, merged, option_names, same_keys, seed,
    MatchView, MatchesView,
};
use crate::passes::{group_pass, offer, offer_to, options_pass, pass, takes_part, SourceView};
use crate::validate::{declarations_valid, option_valid, position};
use crate::value::ScalarView;
use vstd::prelude::*;

verus! {

/// The resolved set has a slot for every declared option.
pub open spec fn covers(m: MatchesView, groups: Seq<GroupView>) -> bool {
    forall|i: int, j: int|
        position(groups, i, j) ==> declared(
            m,
            groups[i].name,
            (#[trigger] groups[i].args[j]).name(),
        )
}

/// Every value of the resolved set has the type that its option declares.
pub open spec fn well_typed(m: MatchesView, groups: Seq<GroupView>) -> bool {
    forall|i: int, j: int|
        position(groups, i, j) ==> (m[groups[i].name][(#[trigger] groups[i].args[j]).name()].value
            matches Some(v) ==> v.tag() == groups[i].args[j].typ)
}

/// A slot after a pass at the given precedence: it is as it was, or the
/// pass was strictly stronger than its source and gave it a value.
pub open spec fn kept_or_taken(before: MatchView, after: MatchView, precedence: i32) -> bool {
    after == before || (precedence < before.precedence && after.precedence == precedence
        && after.value is Some)
}

/// Every slot of `after` is kept or taken from the slot of `before`, and
/// the two sets have the same slots.
pub open spec fn strengthened(before: MatchesView, after: MatchesView, precedence: i32) -> bool {
    &&& same_keys(before, after)
    &&& forall|g: Name, n: Name|
        declared(before, g, n) ==> kept_or_taken(before[g][n], #[trigger] after[g][n], precedence)
}

/// Strengthening at one precedence carries over.
pub proof fn lemma_strengthened_trans(
    a: MatchesView,
    b: MatchesView,
    c: MatchesView,
    precedence: i32,
)
    requires
        strengthened(a, b, precedence),
        strengthened(b, c, precedence),
    ensures
        strengthened(a, c, precedence),
{
    assert forall|g: Name| #[trigger] a.contains_key(g) implies a[g].dom() == c[g].dom() by {
        assert(b.contains_key(g));
    }
    assert forall|g: Name, n: Name| declared(a, g, n) implies kept_or_taken(
        a[g][n],
        #[trigger] c[g][n],
        precedence,
    ) by {
        assert(b.contains_key(g));
        assert(a[g].dom() == b[g].dom());
        assert(declared(b, g, n));
        assert(kept_or_taken(a[g][n], b[g][n], precedence));
        assert(kept_or_taken(b[g][n], c[g][n], precedence));
    }
}

/// A write to a declared slot strengthens the set.
pub proof fn lemma_merged_strengthens(
    m: MatchesView,
    group: Name,
    name: Name,
    value: ScalarView,
    precedence: i32,
)
    requires
        declared(m, group, name),
    ensures
        strengthened(m, merged(m, group, name, value, precedence), precedence),
{
    lemma_merged_keys(m, group, name, value, precedence);
}

/// Asking a source for the options of a group strengthens the set, where
/// it does not fail.
pub proof fn lemma_options_pass_strengthens(
    source: SourceView,
    group: Name,
    args: Seq<OptionView>,
    m: MatchesView,
    precedence: i32,
)
    requires
        forall|j: int| 0 <= j < args.len() ==> declared(m, group, (#[trigger] args[j]).name()),
    ensures
        options_pass(source, group, args, m, precedence) matches Ok(after) ==> strengthened(
            m,
            after,
            precedence,
        ),
    decreases args.len(),
{
    if args.len() > 0 {
        match offer_to(source, group, args[0], m, precedence) {
            Err(_) => {},
            Ok(next) => {
                assert(declared(m, group, args[0].name()));
                match offer(source, group, args[0]) {
                    Ok(Some(v)) => {
                        lemma_merged_strengthens(m, group, args[0].name(), v, precedence);
                    },
                    _ => {},
                }
                assert(strengthened(m, next, precedence));
                let rest = args.drop_first();
                assert forall|j: int| 0 <= j < rest.len() implies declared(
                    next,
                    group,
                    (#[trigger] rest[j]).name(),
                ) by {
                    assert(rest[j] == args[j + 1]);
                    assert(declared(m, group, args[j + 1].name()));
                }
                lemma_options_pass_strengthens(source, group, rest, next, precedence);
                match options_pass(source, group, rest, next, precedence) {
                    Ok(after) => {
                        lemma_strengthened_trans(m, next, after, precedence);
                    },
                    Err(_) => {},
                }
            },
        }
    }
}

/// A pass that does not fail adds and removes no slot, and leaves each slot
/// as it was or gives it a value at the precedence of the pass, which is
/// then strictly stronger than the source that the slot had its value from.
/// So what a source of equal or greater strength has set stays.
pub proof fn lemma_pass_strengthens(
    source: SourceView,
    groups: Seq<GroupView>,
    m: MatchesView,
    precedence: i32,
)
    requires
        covers(m, groups),
    ensures
        pass(source, groups, m, precedence) matches Ok(after) ==> strengthened(
            m,
            after,
            precedence,
        ),
    decreases groups.len(),
{
    if groups.len() > 0 {
        let first = groups[0];
        assert forall|j: int| 0 <= j < first.args.len() implies declared(
            m,
            first.name,
            (#[trigger] first.args[j]).name(),
        ) by {
            assert(position(groups, 0, j));
        }
        lemma_options_pass_strengthens(source, first.name, first.args, m, precedence);
        match group_pass(source, first, m, precedence) {
            Err(_) => {},
            Ok(next) => {
                assert(strengthened(m, next, precedence));
                let rest = groups.drop_first();
                assert forall|i: int, j: int| position(rest, i, j) implies declared(
                    next,
                    rest[i].name,
                    (#[trigger] rest[i].args[j]).name(),
                ) by {
                    assert(rest[i] == groups[i + 1]);
                    assert(position(groups, i + 1, j));
                    assert(declared(m, groups[i + 1].name, groups[i + 1].args[j].name()));
                    assert(m.contains_key(rest[i].name));
                }
                lemma_pass_strengthens(source, rest, next, precedence);
                match pass(source, rest, next, precedence) {
                    Ok(after) => {
                        lemma_strengthened_trans(m, next, after, precedence);
                    },
                    Err(_) => {},
                }
            },
        }
    }
}

/// What a source offers for an option has the type that the option
/// declares.
pub proof fn lemma_offer_typed(source: SourceView, group: Name, option: OptionView)
    ensures
        offer(source, group, option) matches Ok(Some(v)) ==> v.tag() == option.typ,
{
    match source {
        SourceView::CommandLine(found) => {
            if option.has_flag() && found.contains_key(option.flag_key()) {
                match found[option.flag_key()] {
                    Some(text) => {
                        lemma_coerce_round_trip(option.typ, text, literal_content(text));
                    },
                    None => {},
                }
            }
        },
        SourceView::Document(_) => {},
    }
}

/// In a valid declaration set, a group name and an option name lead to one
/// option only.
pub proof fn lemma_one_option(groups: Seq<GroupView>, a: int, b: int, i: int, j: int)
    requires
        declarations_valid(groups),
        position(groups, a, b),
        position(groups, i, j),
        groups[a].name == groups[i].name,
        groups[a].args[b].name() == groups[i].args[j].name(),
    ensures
        a == i,
        b == j,
{
    let names = group_names(groups);
    assert(names[a] == names[i]);
    if a < i {
        assert(names[a] != names[i]);
    } else if i < a {
        assert(names[i] != names[a]);
    }
    let options = option_names(groups[i].args);
    assert(distinct(options));
    assert(options[b] == options[j]);
    if b < j {
        assert(options[b] != options[j]);
    } else if j < b {
        assert(options[j] != options[b]);
    }
}

/// A seeded set has a slot for every declared option and holds values of
/// the declared types only.
pub proof fn lemma_seed_consistent(groups: Seq<GroupView>)
    requires
        declarations_valid(groups),
    ensures
        covers(seed(groups), groups),
        well_typed(seed(groups), groups),
{
    assert forall|i: int, j: int| position(groups, i, j) implies declared(
        seed(groups),
        groups[i].name,
        (#[trigger] groups[i].args[j]).name(),
    ) && (seed(groups)[groups[i].name][groups[i].args[j].name()].value matches Some(v) ==> v.tag()
        == groups[i].args[j].typ) by {
        lemma_seed_complete(groups, i, j);
        assert(distinct(option_names(groups[i].args)));
        assert(option_valid(groups[i].args[j]));
    }
}

/// A set with the slots of a set that covers the declarations covers them.
pub proof fn lemma_covers_same_keys(a: MatchesView, b: MatchesView, groups: Seq<GroupView>)
    requires
        covers(a, groups),
        same_keys(a, b),
    ensures
        covers(b, groups),
{
    assert forall|i: int, j: int| position(groups, i, j) implies declared(
        b,
        groups[i].name,
        (#[trigger] groups[i].args[j]).name(),
    ) by {
        assert(declared(a, groups[i].name, groups[i].args[j].name()));
        assert(a.contains_key(groups[i].name));
    }
}

/// Asking a source for one option keeps the values typed.
pub proof fn lemma_offer_to_typed(
    source: SourceView,
    groups: Seq<GroupView>,
    i: int,
    j: int,
    m: MatchesView,
    precedence: i32,
)
    requires
        declarations_valid(groups),
        position(groups, i, j),
        covers(m, groups),
        well_typed(m, groups),
    ensures
        offer_to(source, groups[i].name, groups[i].args[j], m, precedence) matches Ok(next) ==> {
            &&& covers(next, groups)
            &&& well_typed(next, groups)
        },
{
    let group = groups[i].name;
    let option = groups[i].args[j];
    lemma_offer_typed(source, group, option);
    match offer(source, group, option) {
        Ok(Some(v)) => {
            let next = merged(m, group, option.name(), v, precedence);
            assert(declared(m, group, option.name()));
            lemma_merged_keys(m, group, option.name(), v, precedence);
            lemma_covers_same_keys(m, next, groups);
            assert forall|a: int, b: int| position(groups, a, b) implies (next[groups[a].name][(
            #[trigger] groups[a].args[b]).name()].value matches Some(w) ==> w.tag()
                == groups[a].args[b].typ) by {
                if groups[a].name == group && groups[a].args[b].name() == option.name() {
                    lemma_one_option(groups, a, b, i, j);
                }
            }
        },
        _ => {},
    }
}

/// Asking a source for the options of a group, from the option at `j` on,
/// keeps the values typed.
pub proof fn lemma_options_pass_typed(
    source: SourceView,
    groups: Seq<GroupView>,
    i: int,
    j: int,
    m: MatchesView,
    precedence: i32,
)
    requires
        declarations_valid(groups),
        0 <= i < groups.len(),
        0 <= j <= groups[i].args.len(),
        covers(m, groups),
        well_typed(m, groups),
    ensures
        options_pass(source, groups[i].name, groups[i].args.skip(j), m, precedence) matches Ok(
            after,
        ) ==> {
            &&& covers(after, groups)
            &&& well_typed(after, groups)
        },
    decreases groups[i].args.len() - j,
{
    let rest = groups[i].args.skip(j);
    if rest.len() > 0 {
        assert(rest[0] == groups[i].args[j]);
        assert(rest.drop_first() =~= groups[i].args.skip(j + 1));
        lemma_offer_to_typed(source, groups, i, j, m, precedence);
        match offer_to(source, groups[i].name, groups[i].args[j], m, precedence) {
            Ok(next) => {
                lemma_options_pass_typed(source, groups, i, j + 1, next, precedence);
            },
            Err(_) => {},
        }
    }
}

/// A pass over the groups from the group at `i` on keeps the values typed.
pub proof fn lemma_pass_typed_from(
    source: SourceView,
    groups: Seq<GroupView>,
    i: int,
    m: MatchesView,
    precedence: i32,
)
    requires
        declarations_valid(groups),
        0 <= i <= groups.len(),
        covers(m, groups),
        well_typed(m, groups),
    ensures
        pass(source, groups.skip(i), m, precedence) matches Ok(after) ==> {
            &&& covers(after, groups)
            &&& well_typed(after, groups)
        },
    decreases groups.len() - i,
{
    let rest = groups.skip(i);
    if rest.len() > 0 {
        assert(rest[0] == groups[i]);
        assert(rest.drop_first() =~= groups.skip(i + 1));
        assert(groups[i].args.skip(0) =~= groups[i].args);
        lemma_options_pass_typed(source, groups, i, 0, m, precedence);
        match group_pass(source, groups[i], m, precedence) {
            Ok(next) => {
                lemma_pass_typed_from(source, groups, i + 1, next, precedence);
            },
            Err(_) => {},
        }
    }
}

/// Whatever the source, a pass over a valid declaration set leaves a value
/// of another type than the declared one in no slot.
pub proof fn lemma_pass_typed(
    source: SourceView,
    groups: Seq<GroupView>,
    m: MatchesView,
    precedence: i32,
)
    requires
        declarations_valid(groups),
        covers(m, groups),
        well_typed(m, groups),
    ensures
        pass(source, groups, m, precedence) matches Ok(after) ==> {
            &&& covers(after, groups)
            &&& well_typed(after, groups)
        },
{
    assert(groups.skip(0) =~= groups);
    lemma_pass_typed_from(source, groups, 0, m, precedence);
}

/// The option at `(i, j)` is asked for in a pass over the source.
pub open spec fn asked(source: SourceView, groups: Seq<GroupView>, i: int, j: int) -> bool {
    position(groups, i, j) && takes_part(source, groups[i])
}

/// What the source offers for the option at `(i, j)`.
pub open spec fn offer_at(source: SourceView, groups: Seq<GroupView>, i: int, j: int) -> Result<
    Option<ScalarView>,
    ConfigErrorView,
> {
    offer(source, groups[i].name, groups[i].args[j])
}

/// `(a, b)` comes before `(i, j)` in the order of declaration.
pub open spec fn earlier(a: int, b: int, i: int, j: int) -> bool {
    a < i || (a == i && b < j)
}

/// The source has an offer or nothing, but no error, for every option that
/// is asked for before the one at `(i, j)`.
pub open spec fn no_error_before(
    source: SourceView,
    groups: Seq<GroupView>,
    i: int,
    j: int,
) -> bool {
    forall|a: int, b: int|
        asked(source, groups, a, b) && earlier(a, b, i, j) ==> (#[trigger] offer_at(
            source,
            groups,
            a,
            b,
        )) is Ok
}

/// The slot of the option at `(i, j)` after a pass that does not fail: the
/// slot as it was, merged with what the source offers for the option, if
/// the option is asked for and the source offers a value.
pub open spec fn slot_after(
    source: SourceView,
    groups: Seq<GroupView>,
    m: MatchesView,
    precedence: i32,
    i: int,
    j: int,
) -> MatchView {
    let slot = m[groups[i].name][groups[i].args[j].name()];
    if asked(source, groups, i, j) {
        match offer_at(source, groups, i, j) {
            Ok(Some(v)) => merge_slot(slot, v, precedence),
            _ => slot,
        }
    } else {
        slot
    }
}

/// The group and the option name belong to a declared option.
pub open spec fn names_option(groups: Seq<GroupView>, g: Name, n: Name) -> bool {
    exists|i: int, j: int|
        position(groups, i, j) && groups[i].name == g && (#[trigger] groups[i].args[j]).name() == n
}

/// The resolved set in the middle of a pass, when the options before
/// `(i, j)` have been asked for: their slots are as after the pass, and all
/// others as before it.
pub open spec fn done_before(
    source: SourceView,
    groups: Seq<GroupView>,
    m: MatchesView,
    precedence: i32,
    i: int,
    j: int,
    cur: MatchesView,
) -> bool {
    &&& same_keys(m, cur)
    &&& forall|a: int, b: int|
        position(groups, a, b) ==> cur[groups[a].name][(#[trigger] groups[a].args[b]).name()] == (
        if earlier(a, b, i, j) {
            slot_after(source, groups, m, precedence, a, b)
        } else {
            m[groups[a].name][groups[a].args[b].name()]
        })
    &&& forall|g: Name, n: Name|
        declared(m, g, n) && !names_option(groups, g, n) ==> #[trigger] cur[g][n] == m[g][n]
}

/// What a pass comes to, said slot by slot.
pub open spec fn pass_result(
    source: SourceView,
    groups: Seq<GroupView>,
    m: MatchesView,
    precedence: i32,
    r: Result<MatchesView, ConfigErrorView>,
) -> bool {
    match r {
        Ok(after) => {
            &&& no_error_before(source, groups, groups.len() as int, 0)
            &&& done_before(source, groups, m, precedence, groups.len() as int, 0, after)
        },
        Err(e) => exists|i: int, j: int|
            {
                &&& asked(source, groups, i, j)
                &&& no_error_before(source, groups, i, j)
                &&& #[trigger] offer_at(source, groups, i, j) == Err::<
                    Option<ScalarView>,
                    ConfigErrorView,
                >(e)
            },
    }
}

proof fn lemma_step_pointwise(
    source: SourceView,
    groups: Seq<GroupView>,
    m: MatchesView,
    precedence: i32,
    i: int,
    j: int,
    cur: MatchesView,
)
    requires
        declarations_valid(groups),
        covers(m, groups),
        asked(source, groups, i, j),
        done_before(source, groups, m, precedence, i, j, cur),
    ensures
        offer_to(source, groups[i].name, groups[i].args[j], cur, precedence) matches Ok(next)
            ==> done_before(source, groups, m, precedence, i, j + 1, next),
{
    let group = groups[i].name;
    let option = groups[i].args[j];
    assert(declared(m, group, option.name()));
    assert(cur.contains_key(group));
    assert(m[group].dom() == cur[group].dom());
    match offer(source, group, option) {
        Ok(Some(v)) => {
            let next = merged(cur, group, option.name(), v, precedence);
            lemma_merged_keys(cur, group, option.name(), v, precedence);
            lemma_same_keys_trans(m, cur, next);
            assert forall|a: int, b: int| position(groups, a, b) implies next[groups[a].name][(
            #[trigger] groups[a].args[b]).name()] == (if earlier(a, b, i, j + 1) {
                slot_after(source, groups, m, precedence, a, b)
            } else {
                m[groups[a].name][groups[a].args[b].name()]
            }) by {
                if groups[a].name == group && groups[a].args[b].name() == option.name() {
                    lemma_one_option(groups, a, b, i, j);
                }
            }
            assert forall|g: Name, n: Name|
                declared(m, g, n) && !names_option(groups, g, n) implies #[trigger] next[g][n]
                == m[g][n] by {
                if g == group && n == option.name() {
                    assert(names_option(groups, g, n));
                }
            }
        },
        Ok(None) => {
            assert forall|a: int, b: int| position(groups, a, b) implies cur[groups[a].name][(
            #[trigger] groups[a].args[b]).name()] == (if earlier(a, b, i, j + 1) {
                slot_after(source, groups, m, precedence, a, b)
            } else {
                m[groups[a].name][groups[a].args[b].name()]
            }) by {}
        },
        Err(_) => {},
    }
}

proof fn lemma_options_pointwise(
    source: SourceView,
    groups: Seq<GroupView>,
    m: MatchesView,
    precedence: i32,
    i: int,
    j: int,
    cur: MatchesView,
)
    requires
        declarations_valid(groups),
        covers(m, groups),
        0 <= i < groups.len(),
        0 <= j <= groups[i].args.len(),
        takes_part(source, groups[i]),
        done_before(source, groups, m, precedence, i, j, cur),
        no_error_before(source, groups, i, j),
    ensures
        match options_pass(source, groups[i].name, groups[i].args.skip(j), cur, precedence) {
            Ok(after) => {
                &&& no_error_before(source, groups, i + 1, 0)
                &&& done_before(source, groups, m, precedence, i + 1, 0, after)
            },
            Err(e) => pass_result(source, groups, m, precedence, Err(e)),
        },
    decreases groups[i].args.len() - j,
{
    let rest = groups[i].args.skip(j);
    if rest.len() > 0 {
        assert(rest[0] == groups[i].args[j]);
        assert(rest.drop_first() =~= groups[i].args.skip(j + 1));
        assert(asked(source, groups, i, j));
        lemma_step_pointwise(source, groups, m, precedence, i, j, cur);
        match offer_to(source, groups[i].name, groups[i].args[j], cur, precedence) {
            Ok(next) => {
                assert(offer_at(source, groups, i, j) is Ok);
                assert(no_error_before(source, groups, i, j + 1)) by {
                    assert forall|a: int, b: int|
                        asked(source, groups, a, b) && earlier(a, b, i, j + 1) implies (
                    #[trigger] offer_at(source, groups, a, b)) is Ok by {
                        if !earlier(a, b, i, j) {
                            assert(a == i && b == j);
                        }
                    }
                }
                lemma_options_pointwise(source, groups, m, precedence, i, j + 1, next);
            },
            Err(e) => {
                assert(offer_at(source, groups, i, j) == Err::<
                    Option<ScalarView>,
                    ConfigErrorView,
                >(e));
            },
        }
    } else {
        assert forall|a: int, b: int|
            asked(source, groups, a, b) && earlier(a, b, i + 1, 0) implies (#[trigger] offer_at(
            source,
            groups,
            a,
            b,
        )) is Ok by {
            assert(earlier(a, b, i, j));
        }
        assert forall|a: int, b: int| position(groups, a, b) implies cur[groups[a].name][(
        #[trigger] groups[a].args[b]).name()] == (if earlier(a, b, i + 1, 0) {
            slot_after(source, groups, m, precedence, a, b)
        } else {
            m[groups[a].name][groups[a].args[b].name()]
        }) by {
            assert(earlier(a, b, i + 1, 0) == earlier(a, b, i, j));
        }
    }
}

proof fn lemma_pass_pointwise_from(
    source: SourceView,
    groups: Seq<GroupView>,
    m: MatchesView,
    precedence: i32,
    i: int,
    cur: MatchesView,
)
    requires
        declarations_valid(groups),
        covers(m, groups),
        0 <= i <= groups.len(),
        done_before(source, groups, m, precedence, i, 0, cur),
        no_error_before(source, groups, i, 0),
    ensures
        pass_result(source, groups, m, precedence, pass(source, groups.skip(i), cur, precedence)),
    decreases groups.len() - i,
{
    let rest = groups.skip(i);
    if rest.len() > 0 {
        assert(rest[0] == groups[i]);
        assert(rest.drop_first() =~= groups.skip(i + 1));
        if takes_part(source, groups[i]) {
            assert(groups[i].args.skip(0) =~= groups[i].args);
            lemma_options_pointwise(source, groups, m, precedence, i, 0, cur);
            match group_pass(source, groups[i], cur, precedence) {
                Ok(next) => {
                    lemma_pass_pointwise_from(source, groups, m, precedence, i + 1, next);
                },
                Err(_) => {},
            }
        } else {
            assert forall|a: int, b: int|
                asked(source, groups, a, b) && earlier(a, b, i + 1, 0) implies (
            #[trigger] offer_at(source, groups, a, b)) is Ok by {
                assert(earlier(a, b, i, 0));
            }
            assert forall|a: int, b: int| position(groups, a, b) implies cur[groups[a].name][(
            #[trigger] groups[a].args[b]).name()] == (if earlier(a, b, i + 1, 0) {
                slot_after(source, groups, m, precedence, a, b)
            } else {
                m[groups[a].name][groups[a].args[b].name()]
            }) by {
                if a == i {
                    assert(!asked(source, groups, a, b));
                }
            }
            lemma_pass_pointwise_from(source, groups, m, precedence, i + 1, cur);
        }
    }
}

/// What a pass over a valid declaration set comes to, said slot by slot.
///
/// The pass fails exactly when the source has an error for an option that
/// is asked for, and then with the error of the first such option in the
/// order of declaration. Else it leaves in the slot of each option that is
/// asked for the slot as it was, merged with what the source offers for the
/// option, and every other slot as it was. It adds and removes no slot.
pub proof fn lemma_pass_pointwise(
    source: SourceView,
    groups: Seq<GroupView>,
    m: MatchesView,
    precedence: i32,
)
    requires
        declarations_valid(groups),
        covers(m, groups),
    ensures
        pass_result(source, groups, m, precedence, pass(source, groups, m, precedence)),
{
    assert(groups.skip(0) =~= groups);
    lemma_pass_pointwise_from(source, groups, m, precedence, 0, m);
}

/// The errors that a source can have for an option: the command line a
/// text that is no literal or a literal of another type, a document an
/// entry of another type or a container that is no table.
pub open spec fn error_of(source: SourceView, e: ConfigErrorView) -> bool {
    match source {
        SourceView::CommandLine(_) => e is ParseError || e is TypeMismatch,
        SourceView::Document(_) => e is TypeMismatch || e is WrongContainer,
    }
}

/// A source has no other errors for an option than its own.
pub proof fn lemma_offer_errors(source: SourceView, group: Name, option: OptionView)
    ensures
        offer(source, group, option) matches Err(e) ==> error_of(source, e),
{
}

/// A pass over a valid declaration set, on a resolved set with a slot for
/// every declared option, fails with an error of its source only: it never
/// writes to a slot that is missing.
pub proof fn lemma_pass_errors(
    source: SourceView,
    groups: Seq<GroupView>,
    m: MatchesView,
    precedence: i32,
)
    requires
        declarations_valid(groups),
        covers(m, groups),
    ensures
        pass(source, groups, m, precedence) matches Err(e) ==> error_of(source, e),
{
    lemma_pass_pointwise(source, groups, m, precedence);
    match pass(source, groups, m, precedence) {
        Err(e) => {
            let (i, j) = choose|i: int, j: int|
                asked(source, groups, i, j) && no_error_before(source, groups, i, j)
                    && #[trigger] offer_at(source, groups, i, j) == Err::<
                    Option<ScalarView>,
                    ConfigErrorView,
                >(e);
            lemma_offer_errors(source, groups[i].name, groups[i].args[j]);
        },
        Ok(_) => {},
    }
}

/// Having the same keys carries over.
pub proof fn lemma_same_keys_trans(a: MatchesView, b: MatchesView, c: MatchesView)
    requires
        same_keys(a, b),
        same_keys(b, c),
    ensures
        same_keys(a, c),
{
    assert forall|g: Name| #[trigger] a.contains_key(g) implies a[g].dom() == c[g].dom() by {
        assert(b.contains_key(g));
    }
}

} // verus!
