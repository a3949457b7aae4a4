//! What holds of seeding and of writes, for every declaration set and every
//! sequence of writes.

use crate::assoc::{distinct, Name};
use crate::declaration::{GroupView, OptionView};
use crate::matches::{
    declared, default_slot, group_names, merge_slot, merged, option_names, same_keys, seed,
    seed_slots, MatchView, MatchesView,
};
use crate::value::ScalarView;
use vstd::prelude::*;

verus! {

/// The seeded slots of a group are those of its option names.
pub proof fn lemma_seed_slots_keys(args: Seq<OptionView>)
    ensures
        seed_slots(args).dom() == option_names(args).to_set(),
    decreases args.len(),
{
    if args.len() > 0 {
        lemma_seed_slots_keys(args.drop_last());
        let rest = option_names(args.drop_last());
        let all = option_names(args);
        assert forall|k: Name| all.to_set().contains(k) <==> (rest.to_set().contains(k) || k
            == args.last().name()) by {
            if all.contains(k) {
                let x = choose|x: int| 0 <= x < all.len() && all[x] == k;
                if x < rest.len() {
                    assert(rest[x] == k);
                }
            }
            if rest.contains(k) {
                let x = choose|x: int| 0 <= x < rest.len() && rest[x] == k;
                assert(all[x] == k);
            }
            assert(all[args.len() - 1] == args.last().name());
        }
    }
    assert(seed_slots(args).dom() =~= option_names(args).to_set());
}

/// The seeded slot of an option holds its default at the weakest
/// precedence, unless a later option of the group has the same name.
pub proof fn lemma_seed_slots_at(args: Seq<OptionView>, j: int)
    requires
        0 <= j < args.len(),
        forall|k: int| j < k < args.len() ==> (#[trigger] args[k]).name() != args[j].name(),
    ensures
        seed_slots(args).contains_key(args[j].name()),
        seed_slots(args)[args[j].name()] == default_slot(args[j]),
    decreases args.len(),
{
    if j < args.len() - 1 {
        let rest = args.drop_last();
        assert(args.last() == args[args.len() - 1]);
        assert forall|k: int| j < k < rest.len() implies (#[trigger] rest[k]).name()
            != rest[j].name() by {
            assert(rest[k] == args[k]);
        }
        lemma_seed_slots_at(rest, j);
    }
}

/// The seeded groups are those of the group names.
pub proof fn lemma_seed_keys(groups: Seq<GroupView>)
    ensures
        seed(groups).dom() == group_names(groups).to_set(),
    decreases groups.len(),
{
    if groups.len() > 0 {
        lemma_seed_keys(groups.drop_last());
        let rest = group_names(groups.drop_last());
        let all = group_names(groups);
        assert forall|k: Name| all.to_set().contains(k) <==> (rest.to_set().contains(k) || k
            == groups.last().name) by {
            if all.contains(k) {
                let x = choose|x: int| 0 <= x < all.len() && all[x] == k;
                if x < rest.len() {
                    assert(rest[x] == k);
                }
            }
            if rest.contains(k) {
                let x = choose|x: int| 0 <= x < rest.len() && rest[x] == k;
                assert(all[x] == k);
            }
            assert(all[groups.len() - 1] == groups.last().name);
        }
    }
    assert(seed(groups).dom() =~= group_names(groups).to_set());
}

/// A seeded group holds the seeded slots of its options, unless a later
/// group has the same name.
pub proof fn lemma_seed_at(groups: Seq<GroupView>, i: int)
    requires
        0 <= i < groups.len(),
        forall|k: int| i < k < groups.len() ==> (#[trigger] groups[k]).name != groups[i].name,
    ensures
        seed(groups).contains_key(groups[i].name),
        seed(groups)[groups[i].name] == seed_slots(groups[i].args),
    decreases groups.len(),
{
    if i < groups.len() - 1 {
        let rest = groups.drop_last();
        assert(groups.last() == groups[groups.len() - 1]);
        assert forall|k: int| i < k < rest.len() implies (#[trigger] rest[k]).name
            != rest[i].name by {
            assert(rest[k] == groups[k]);
        }
        lemma_seed_at(rest, i);
    }
}

/// After seeding, every declared option of every declared group has a slot.
/// Where no two options of its group share a name, the slot holds the
/// option's default at the weakest precedence.
pub proof fn lemma_seed_complete(groups: Seq<GroupView>, i: int, j: int)
    requires
        distinct(group_names(groups)),
        0 <= i < groups.len(),
        0 <= j < groups[i].args.len(),
    ensures
        declared(seed(groups), groups[i].name, groups[i].args[j].name()),
        distinct(option_names(groups[i].args)) ==> seed(
            groups,
        )[groups[i].name][groups[i].args[j].name()] == default_slot(groups[i].args[j]),
{
    let args = groups[i].args;
    assert forall|k: int| i < k < groups.len() implies (#[trigger] groups[k]).name
        != groups[i].name by {
        assert(group_names(groups)[i] != group_names(groups)[k]);
    }
    lemma_seed_at(groups, i);
    lemma_seed_slots_keys(args);
    assert(option_names(args)[j] == args[j].name());
    assert(option_names(args).to_set().contains(args[j].name()));
    if distinct(option_names(args)) {
        assert forall|k: int| j < k < args.len() implies (#[trigger] args[k]).name()
            != args[j].name() by {
            assert(option_names(args)[j] != option_names(args)[k]);
        }
        lemma_seed_slots_at(args, j);
    }
}

/// A sequence of offers to one slot, the first offer first.
pub open spec fn offered(slot: MatchView, offers: Seq<(ScalarView, i32)>) -> MatchView
    decreases offers.len(),
{
    if offers.len() == 0 {
        slot
    } else {
        merge_slot(offered(slot, offers.drop_last()), offers.last().0, offers.last().1)
    }
}

/// The offer at `k` is the first among the strongest.
pub open spec fn first_strongest(offers: Seq<(ScalarView, i32)>, k: int) -> bool {
    &&& 0 <= k < offers.len()
    &&& forall|i: int| 0 <= i < k ==> (#[trigger] offers[i]).1 > offers[k].1
    &&& forall|i: int| k < i < offers.len() ==> (#[trigger] offers[i]).1 >= offers[k].1
}

/// Among offers, if there are any, one is the first among the strongest.
pub proof fn lemma_first_strongest_exists(offers: Seq<(ScalarView, i32)>)
    requires
        offers.len() > 0,
    ensures
        exists|k: int| first_strongest(offers, k),
    decreases offers.len(),
{
    if offers.len() == 1 {
        assert(first_strongest(offers, 0));
    } else {
        let rest = offers.drop_last();
        let last = offers.len() - 1;
        lemma_first_strongest_exists(rest);
        let k = choose|k: int| first_strongest(rest, k);
        assert(rest[k] == offers[k]);
        if offers[last].1 < offers[k].1 {
            assert forall|i: int| 0 <= i < last implies (#[trigger] offers[i]).1
                > offers[last].1 by {
                assert(rest[i] == offers[i]);
            }
            assert(first_strongest(offers, last));
        } else {
            assert forall|i: int| 0 <= i < k implies (#[trigger] offers[i]).1 > offers[k].1 by {
                assert(rest[i] == offers[i]);
            }
            assert forall|i: int| k < i < offers.len() implies (#[trigger] offers[i]).1
                >= offers[k].1 by {
                if i < last {
                    assert(rest[i] == offers[i]);
                }
            }
            assert(first_strongest(offers, k));
        }
    }
}

/// After any sequence of offers, a slot holds the value of the strongest
/// offer, of several equally strong ones the first, if that offer is
/// strictly stronger than the source that the slot had its value from.
/// Otherwise the slot is as it was. An offer that is not strictly stronger
/// than what the slot holds never changes it.
pub proof fn lemma_precedence_monotone(slot: MatchView, offers: Seq<(ScalarView, i32)>)
    ensures
        offered(slot, offers).precedence <= slot.precedence,
        forall|i: int|
            0 <= i < offers.len() ==> offered(slot, offers).precedence <= (#[trigger] offers[i]).1,
        (forall|i: int| 0 <= i < offers.len() ==> (#[trigger] offers[i]).1 >= slot.precedence)
            ==> offered(slot, offers) == slot,
        forall|k: int|
            first_strongest(offers, k) && offers[k].1 < slot.precedence ==> offered(slot, offers)
                == (MatchView { value: Some(offers[k].0), precedence: offers[k].1 }),
    decreases offers.len(),
{
    if offers.len() > 0 {
        let rest = offers.drop_last();
        let last = offers.last();
        lemma_precedence_monotone(slot, rest);
        assert forall|i: int| 0 <= i < rest.len() implies rest[i] == offers[i] by {}
        assert forall|i: int| 0 <= i < offers.len() implies offered(slot, offers).precedence <= (
        #[trigger] offers[i]).1 by {
            if i < rest.len() {
                assert(rest[i] == offers[i]);
            }
        }
        if forall|i: int| 0 <= i < offers.len() ==> (#[trigger] offers[i]).1 >= slot.precedence {
            assert forall|i: int| 0 <= i < rest.len() implies (#[trigger] rest[i]).1
                >= slot.precedence by {
                assert(rest[i] == offers[i]);
            }
            assert(offers[offers.len() - 1].1 >= slot.precedence);
        }
        assert forall|k: int|
            first_strongest(offers, k) && offers[k].1 < slot.precedence implies offered(
            slot,
            offers,
        ) == (MatchView { value: Some(offers[k].0), precedence: offers[k].1 }) by {
            if k < rest.len() {
                assert(rest[k] == offers[k]);
                assert(first_strongest(rest, k)) by {
                    assert forall|i: int| 0 <= i < k implies (#[trigger] rest[i]).1
                        > rest[k].1 by {
                        assert(rest[i] == offers[i]);
                    }
                    assert forall|i: int| k < i < rest.len() implies (#[trigger] rest[i]).1
                        >= rest[k].1 by {
                        assert(rest[i] == offers[i]);
                    }
                }
                assert(offers[offers.len() - 1].1 >= offers[k].1);
            } else {
                lemma_offered_source(slot, rest);
                let r = offered(slot, rest);
                if r != slot {
                    let i = choose|i: int|
                        0 <= i < rest.len() && r == (MatchView {
                            value: Some((#[trigger] rest[i]).0),
                            precedence: rest[i].1,
                        });
                    assert(rest[i] == offers[i]);
                    assert(offers[i].1 > offers[k].1);
                }
                assert(offers[k] == last);
            }
        }
    }
}

/// After a sequence of offers, a slot is as it was or holds one of them.
pub proof fn lemma_offered_source(slot: MatchView, offers: Seq<(ScalarView, i32)>)
    ensures
        offered(slot, offers) == slot || exists|i: int|
            0 <= i < offers.len() && offered(slot, offers) == (MatchView {
                value: Some((#[trigger] offers[i]).0),
                precedence: offers[i].1,
            }),
    decreases offers.len(),
{
    if offers.len() > 0 {
        let rest = offers.drop_last();
        lemma_offered_source(slot, rest);
        let r = offered(slot, offers);
        if r == offered(slot, rest) {
            if r != slot {
                let i = choose|i: int|
                    0 <= i < rest.len() && offered(slot, rest) == (MatchView {
                        value: Some((#[trigger] rest[i]).0),
                        precedence: rest[i].1,
                    });
                assert(rest[i] == offers[i]);
            }
        } else {
            assert(offers[offers.len() - 1] == offers.last());
        }
    }
}

/// A sequence of writes to one declared slot of a resolved set, the first
/// write first.
pub open spec fn merged_all(
    m: MatchesView,
    group: Name,
    name: Name,
    offers: Seq<(ScalarView, i32)>,
) -> MatchesView
    decreases offers.len(),
{
    if offers.len() == 0 {
        m
    } else {
        merged(
            merged_all(m, group, name, offers.drop_last()),
            group,
            name,
            offers.last().0,
            offers.last().1,
        )
    }
}

/// A sequence of writes to one declared slot leaves in that slot what the
/// sequence of offers leaves in it, keeps every other slot as it was, and
/// adds and removes none.
pub proof fn lemma_writes_to_one_slot(
    m: MatchesView,
    group: Name,
    name: Name,
    offers: Seq<(ScalarView, i32)>,
)
    requires
        declared(m, group, name),
    ensures
        same_keys(m, merged_all(m, group, name, offers)),
        merged_all(m, group, name, offers)[group][name] == offered(m[group][name], offers),
        forall|g: Name, n: Name|
            declared(m, g, n) && (g != group || n != name) ==> #[trigger] merged_all(
                m,
                group,
                name,
                offers,
            )[g][n] == m[g][n],
    decreases offers.len(),
{
    if offers.len() > 0 {
        let before = merged_all(m, group, name, offers.drop_last());
        lemma_writes_to_one_slot(m, group, name, offers.drop_last());
        assert(m.dom().contains(group));
        assert(before.dom().contains(group));
        assert(before[group].dom() == m[group].dom());
        assert(declared(before, group, name));
        crate::matches::lemma_merged_keys(
            before,
            group,
            name,
            offers.last().0,
            offers.last().1,
        );
        let after = merged_all(m, group, name, offers);
        assert(same_keys(m, after)) by {
            assert forall|g: Name| #[trigger] m.contains_key(g) implies m[g].dom()
                == after[g].dom() by {
                assert(before.contains_key(g));
            }
        }
    }
}

} // verus!
