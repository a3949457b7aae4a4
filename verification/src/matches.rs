//! The resolved set: for each declared option the best value found so far,
//! with the precedence of the source that gave it.

use crate::assoc::{
    assoc, distinct, lemma_assoc_absent, lemma_assoc_at, lemma_assoc_empty, lemma_assoc_push,
    lemma_assoc_update, Name,
};
use crate::declaration::{
    groups_view, options_view, ConfigOption, ConfiguratorGroup, GroupView, OptionView,
};
use crate::error::{
    duplicate_group_message, missing_group, missing_key, DuplicateKeyError, MissingKeyError,
    MissingKeyView,
};
use crate::value::{clone_option, option_view, Scalar, ScalarView};
use vstd::prelude::*;

verus! {

/// The precedence of a compiled-in default: the weakest there is.
pub const WEAKEST: i32 = 2147483647;

/// The best value found so far for one option.
#[derive(PartialEq, Debug)]
pub struct Match {
    /// The value, if any source has given one.
    pub value: Option<Scalar>,
    /// The precedence of the source that gave it. A lower number is a
    /// stronger source.
    pub precedence: i32,
}

/// The mathematical content of a [`Match`].
pub ghost struct MatchView {
    pub value: Option<ScalarView>,
    pub precedence: i32,
}

impl View for Match {
    type V = MatchView;

    open spec fn view(&self) -> MatchView {
        MatchView { value: option_view(self.value), precedence: self.precedence }
    }
}

impl Clone for Match {
    fn clone(&self) -> (r: Self)
        ensures
            r@ == self@,
    {
        Match { value: clone_option(&self.value), precedence: self.precedence }
    }
}

/// The slots of one group, by option name.
pub type SlotsView = Map<Name, MatchView>;

/// The slots of a resolved set, by group name, then by option name.
pub type MatchesView = Map<Name, SlotsView>;

/// The slot after a source of the given precedence has offered a value: the
/// offer is taken only if its source is strictly stronger than the one that
/// the slot has its value from.
pub open spec fn merge_slot(slot: MatchView, value: ScalarView, precedence: i32) -> MatchView {
    if precedence < slot.precedence {
        MatchView { value: Some(value), precedence }
    } else {
        slot
    }
}

/// Whether the set has a slot for the option.
pub open spec fn declared(m: MatchesView, group: Name, name: Name) -> bool {
    m.contains_key(group) && m[group].contains_key(name)
}

/// The set after a source of the given precedence has offered a value for
/// a declared option.
pub open spec fn merged(
    m: MatchesView,
    group: Name,
    name: Name,
    value: ScalarView,
    precedence: i32,
) -> MatchesView {
    m.insert(group, m[group].insert(name, merge_slot(m[group][name], value, precedence)))
}

/// What a write to an undeclared slot is answered with.
pub open spec fn missing(m: MatchesView, group: Name, name: Name) -> MissingKeyView {
    if !m.contains_key(group) {
        missing_group(group)
    } else {
        missing_key(group, name)
    }
}

/// Two sets have the same groups and in each group the same options.
pub open spec fn same_keys(a: MatchesView, b: MatchesView) -> bool {
    &&& a.dom() == b.dom()
    &&& forall|g: Name| #[trigger] a.contains_key(g) ==> a[g].dom() == b[g].dom()
}

/// The slot of an option of which only the declaration is known.
pub open spec fn default_slot(option: OptionView) -> MatchView {
    MatchView { value: option.default, precedence: WEAKEST }
}

/// The slots of a group of which only the declarations are known. Where a
/// name is declared twice, the later declaration counts.
pub open spec fn seed_slots(args: Seq<OptionView>) -> SlotsView
    decreases args.len(),
{
    if args.len() == 0 {
        Map::empty()
    } else {
        seed_slots(args.drop_last()).insert(args.last().name(), default_slot(args.last()))
    }
}

/// The resolved set of which only the declarations are known.
pub open spec fn seed(groups: Seq<GroupView>) -> MatchesView
    decreases groups.len(),
{
    if groups.len() == 0 {
        Map::empty()
    } else {
        seed(groups.drop_last()).insert(groups.last().name, seed_slots(groups.last().args))
    }
}

/// The names of the groups, in the order of their declaration.
pub open spec fn group_names(groups: Seq<GroupView>) -> Seq<Name> {
    Seq::new(groups.len(), |i: int| groups[i].name)
}

/// The names of the options, in the order of their declaration.
pub open spec fn option_names(args: Seq<OptionView>) -> Seq<Name> {
    Seq::new(args.len(), |i: int| args[i].name())
}

/// The name at `j` is the first that repeats an earlier one.
pub open spec fn first_repeat(names: Seq<Name>, j: int) -> bool {
    &&& 0 <= j < names.len()
    &&& distinct(names.take(j))
    &&& exists|i: int| 0 <= i < j && names[i] == names[j]
}

#[derive(Debug)]
struct Slot {
    name: String,
    found: Match,
}

#[derive(Debug)]
struct Section {
    name: String,
    slots: Vec<Slot>,
}

spec fn slot_names(slots: Seq<Slot>) -> Seq<Name> {
    Seq::new(slots.len(), |i: int| slots[i].name@)
}

spec fn slot_vals(slots: Seq<Slot>) -> Seq<MatchView> {
    Seq::new(slots.len(), |i: int| slots[i].found@)
}

spec fn slots_view(slots: Seq<Slot>) -> SlotsView {
    assoc(slot_names(slots), slot_vals(slots))
}

spec fn section_names(groups: Seq<Section>) -> Seq<Name> {
    Seq::new(groups.len(), |i: int| groups[i].name@)
}

spec fn section_vals(groups: Seq<Section>) -> Seq<SlotsView> {
    Seq::new(groups.len(), |i: int| slots_view(groups[i].slots@))
}

spec fn sections_view(groups: Seq<Section>) -> MatchesView {
    assoc(section_names(groups), section_vals(groups))
}

/// No group occurs twice, and within a group no option.
spec fn sections_wf(groups: Seq<Section>) -> bool {
    &&& distinct(section_names(groups))
    &&& forall|i: int| 0 <= i < groups.len() ==> distinct(#[trigger] slot_names(groups[i].slots@))
}

fn find_slot(slots: &Vec<Slot>, name: &str) -> (r: Option<usize>)
    ensures
        match r {
            Some(i) => i < slots.len() && slots[i as int].name@ == name@,
            None => forall|i: int| 0 <= i < slots.len() ==> slot_names(slots@)[i] != name@,
        },
{
    let wanted = name.to_owned();
    let mut i: usize = 0;
    while i < slots.len()
        invariant
            i <= slots.len(),
            wanted@ == name@,
            forall|k: int| 0 <= k < i ==> slot_names(slots@)[k] != name@,
        decreases slots.len() - i,
    {
        if slots[i].name == wanted {
            return Some(i);
        }
        i += 1;
    }
    None
}

fn find_section(groups: &Vec<Section>, group: &str) -> (r: Option<usize>)
    ensures
        match r {
            Some(i) => i < groups.len() && groups[i as int].name@ == group@,
            None => forall|i: int| 0 <= i < groups.len() ==> section_names(groups@)[i] != group@,
        },
{
    let wanted = group.to_owned();
    let mut i: usize = 0;
    while i < groups.len()
        invariant
            i <= groups.len(),
            wanted@ == group@,
            forall|k: int| 0 <= k < i ==> section_names(groups@)[k] != group@,
        decreases groups.len() - i,
    {
        if groups[i].name == wanted {
            return Some(i);
        }
        i += 1;
    }
    None
}

/// Replacing what one slot holds replaces what the view holds under the
/// names of its group and option.
proof fn lemma_replace_found(before: Seq<Section>, after: Seq<Section>, gi: int, si: int)
    requires
        sections_wf(before),
        0 <= gi < before.len(),
        0 <= si < before[gi].slots.len(),
        after.len() == before.len(),
        forall|i: int| 0 <= i < before.len() && i != gi ==> after[i] == before[i],
        after[gi].name == before[gi].name,
        after[gi].slots.len() == before[gi].slots.len(),
        forall|j: int|
            0 <= j < before[gi].slots.len() && j != si ==> after[gi].slots[j]
                == before[gi].slots[j],
        after[gi].slots[si].name == before[gi].slots[si].name,
    ensures
        sections_wf(after),
        sections_view(after) == sections_view(before).insert(
            before[gi].name@,
            sections_view(before)[before[gi].name@].insert(
                before[gi].slots[si].name@,
                after[gi].slots[si].found@,
            ),
        ),
{
    let old_slots = before[gi].slots@;
    let new_slots = after[gi].slots@;
    assert(slot_names(new_slots) =~= slot_names(old_slots));
    assert(slot_vals(new_slots) =~= slot_vals(old_slots).update(si, new_slots[si].found@));
    lemma_assoc_update(slot_names(old_slots), slot_vals(old_slots), si, new_slots[si].found@);
    assert(section_names(after) =~= section_names(before));
    assert(section_vals(after) =~= section_vals(before).update(gi, slots_view(new_slots)));
    lemma_assoc_update(section_names(before), section_vals(before), gi, slots_view(new_slots));
    lemma_assoc_at(section_names(before), section_vals(before), gi);
    assert forall|i: int| 0 <= i < after.len() implies distinct(
        #[trigger] slot_names(after[i].slots@),
    ) by {
        if i != gi {
            assert(distinct(slot_names(before[i].slots@)));
        }
    }
}

/// Puts `found` into one slot.
fn replace_found(groups: &mut Vec<Section>, gi: usize, si: usize, found: Match)
    requires
        sections_wf(old(groups)@),
        gi < old(groups).len(),
        si < old(groups)[gi as int].slots.len(),
    ensures
        sections_wf(final(groups)@),
        sections_view(final(groups)@) == sections_view(old(groups)@).insert(
            old(groups)[gi as int].name@,
            sections_view(old(groups)@)[old(groups)[gi as int].name@].insert(
                old(groups)[gi as int].slots[si as int].name@,
                found@,
            ),
        ),
    no_unwind
{
    let ghost before = groups@;
    groups[gi].slots[si].found = found;
    proof {
        lemma_replace_found(before, groups@, gi as int, si as int);
    }
}

/// The slots of a group, seeded with the defaults of its options.
fn seed_section(args: &Vec<ConfigOption>) -> (slots: Vec<Slot>)
    ensures
        distinct(slot_names(slots@)),
        slots_view(slots@) == seed_slots(options_view(args@)),
{
    let mut slots: Vec<Slot> = Vec::new();
    let ghost ov = options_view(args@);
    proof {
        lemma_assoc_empty::<MatchView>();
        assert(slot_names(slots@) =~= Seq::<Name>::empty());
        assert(slot_vals(slots@) =~= Seq::<MatchView>::empty());
    }
    let mut j: usize = 0;
    while j < args.len()
        invariant
            j <= args.len(),
            ov == options_view(args@),
            distinct(slot_names(slots@)),
            slots_view(slots@) == seed_slots(ov.take(j as int)),
        decreases args.len() - j,
    {
        let name = args[j].get_name();
        let found = Match { value: clone_option(args[j].default()), precedence: WEAKEST };
        let ghost before = slots@;
        let ghost fv = found@;
        proof {
            assert(ov.take(j + 1).drop_last() =~= ov.take(j as int));
            assert(ov.take(j + 1).last() == ov[j as int]);
            assert(fv == default_slot(ov[j as int]));
        }
        match find_slot(&slots, name) {
            Some(k) => {
                slots[k].found = found;
                proof {
                    assert(slot_names(slots@) =~= slot_names(before));
                    assert(slot_vals(slots@) =~= slot_vals(before).update(k as int, fv));
                    lemma_assoc_update(slot_names(before), slot_vals(before), k as int, fv);
                }
            },
            None => {
                slots.push(Slot { name: name.to_owned(), found });
                proof {
                    assert(slot_names(slots@) =~= slot_names(before).push(name@));
                    assert(slot_vals(slots@) =~= slot_vals(before).push(fv));
                    lemma_assoc_push(slot_names(before), slot_vals(before), name@, fv);
                }
            },
        }
        j += 1;
    }
    proof {
        assert(ov.take(args.len() as int) =~= ov);
    }
    slots
}

/// The sections of a declaration set, seeded with the defaults.
fn seed_sections(config: &Vec<ConfiguratorGroup>) -> (r: Result<Vec<Section>, DuplicateKeyError>)
    ensures
        match r {
            Ok(groups) => {
                &&& sections_wf(groups@)
                &&& distinct(group_names(groups_view(config@)))
                &&& sections_view(groups@) == seed(groups_view(config@))
            },
            Err(e) => exists|j: int|
                {
                    &&& first_repeat(group_names(groups_view(config@)), j)
                    &&& e.key@ == #[trigger] group_names(groups_view(config@))[j]
                    &&& e.msg@ == duplicate_group_message(e.key@)
                },
        },
{
    let mut groups: Vec<Section> = Vec::new();
    let ghost gv = groups_view(config@);
    let ghost names = group_names(gv);
    proof {
        lemma_assoc_empty::<SlotsView>();
        assert(section_names(groups@) =~= Seq::<Name>::empty());
        assert(section_vals(groups@) =~= Seq::<SlotsView>::empty());
        assert(names.take(0) =~= Seq::<Name>::empty());
    }
    let mut i: usize = 0;
    while i < config.len()
        invariant
            i <= config.len(),
            gv == groups_view(config@),
            names == group_names(gv),
            names.len() == config.len(),
            groups.len() == i,
            sections_wf(groups@),
            section_names(groups@) == names.take(i as int),
            sections_view(groups@) == seed(gv.take(i as int)),
        decreases config.len() - i,
    {
        let slots = seed_section(&config[i].args);
        let name = config[i].name.as_str();
        let ghost before = groups@;
        proof {
            assert(gv.take(i + 1).drop_last() =~= gv.take(i as int));
            assert(gv.take(i + 1).last() == gv[i as int]);
            assert(names[i as int] == name@);
        }
        match find_section(&groups, name) {
            Some(k) => {
                proof {
                    assert(section_names(groups@)[k as int] == groups[k as int].name@);
                    assert(names.take(i as int)[k as int] == name@);
                    assert(names[k as int] == names[i as int]);
                    assert(first_repeat(names, i as int));
                }
                return Err(DuplicateKeyError::for_group(name));
            },
            None => {
                groups.push(Section { name: name.to_owned(), slots });
                proof {
                    assert(section_names(groups@) =~= section_names(before).push(name@));
                    assert(section_vals(groups@) =~= section_vals(before).push(slots_view(slots@)));
                    lemma_assoc_push(
                        section_names(before),
                        section_vals(before),
                        name@,
                        slots_view(slots@),
                    );
                    assert(names.take(i + 1) =~= names.take(i as int).push(name@));
                    assert forall|x: int| 0 <= x < groups.len() implies distinct(
                        #[trigger] slot_names(groups[x].slots@),
                    ) by {
                        if x < before.len() {
                            assert(groups[x] == before[x]);
                            assert(distinct(slot_names(before[x].slots@)));
                        }
                    }
                }
            },
        }
        i += 1;
    }
    proof {
        assert(gv.take(config.len() as int) =~= gv);
        assert(names.take(config.len() as int) =~= names);
    }
    Ok(groups)
}

fn clone_slots(slots: &Vec<Slot>) -> (r: Vec<Slot>)
    ensures
        slot_names(r@) == slot_names(slots@),
        slot_vals(r@) == slot_vals(slots@),
{
    let mut r: Vec<Slot> = Vec::new();
    let mut j: usize = 0;
    while j < slots.len()
        invariant
            j <= slots.len(),
            r.len() == j,
            forall|k: int|
                0 <= k < j ==> r[k].name@ == slots[k].name@ && r[k].found@ == slots[k].found@,
        decreases slots.len() - j,
    {
        r.push(Slot { name: slots[j].name.clone(), found: slots[j].found.clone() });
        j += 1;
    }
    proof {
        assert(slot_names(r@) =~= slot_names(slots@));
        assert(slot_vals(r@) =~= slot_vals(slots@));
    }
    r
}

fn clone_sections(groups: &Vec<Section>) -> (r: Vec<Section>)
    requires
        sections_wf(groups@),
    ensures
        sections_wf(r@),
        sections_view(r@) == sections_view(groups@),
{
    let mut r: Vec<Section> = Vec::new();
    let mut i: usize = 0;
    while i < groups.len()
        invariant
            i <= groups.len(),
            r.len() == i,
            forall|k: int|
                0 <= k < i ==> {
                    &&& r[k].name@ == groups[k].name@
                    &&& slot_names(r[k].slots@) == slot_names(groups[k].slots@)
                    &&& slot_vals(r[k].slots@) == slot_vals(groups[k].slots@)
                },
        decreases groups.len() - i,
    {
        r.push(Section { name: groups[i].name.clone(), slots: clone_slots(&groups[i].slots) });
        i += 1;
    }
    proof {
        assert(section_names(r@) =~= section_names(groups@));
        assert(section_vals(r@) =~= section_vals(groups@));
        assert forall|x: int| 0 <= x < r.len() implies distinct(
            #[trigger] slot_names(r[x].slots@),
        ) by {
            assert(distinct(slot_names(groups[x].slots@)));
        }
    }
    r
}

/// The value that the set holds for an option: `None` where the option has
/// no slot or its slot has no value yet.
pub open spec fn resolved(m: MatchesView, group: Name, name: Name) -> Option<ScalarView> {
    if declared(m, group, name) {
        m[group][name].value
    } else {
        None
    }
}

/// The configuration values after parsing, as a map from group name to
/// option name to slot.
#[derive(Debug)]
pub struct Matches {
    groups: Vec<Section>,
}

impl View for Matches {
    type V = MatchesView;

    closed spec fn view(&self) -> MatchesView {
        sections_view(self.groups@)
    }
}

impl Clone for Matches {
    fn clone(&self) -> (r: Self)
        ensures
            r@ == self@,
    {
        proof {
            use_type_invariant(self);
        }
        Matches { groups: clone_sections(&self.groups) }
    }
}

impl Matches {
    #[verifier::type_invariant]
    spec fn wf(self) -> bool {
        sections_wf(self.groups@)
    }

    /// Seeds a resolved set from a list of groups: one slot for each option
    /// of each group, with the option's default, if it has one, at the
    /// weakest precedence. Two groups of one name are an error, which names
    /// the first group that repeats an earlier one.
    pub fn from_configs(config: &Vec<ConfiguratorGroup>) -> (r: Result<Matches, DuplicateKeyError>)
        ensures
            r is Ok <==> distinct(group_names(groups_view(config@))),
            match r {
                Ok(m) => m@ == seed(groups_view(config@)),
                Err(e) => exists|j: int|
                    {
                        &&& first_repeat(group_names(groups_view(config@)), j)
                        &&& e.key@ == #[trigger] group_names(groups_view(config@))[j]
                        &&& e.msg@ == duplicate_group_message(e.key@)
                    },
            },
    {
        match seed_sections(config) {
            Ok(groups) => Ok(Matches { groups }),
            Err(e) => {
                proof {
                    let names = group_names(groups_view(config@));
                    let j = choose|j: int|
                        first_repeat(names, j) && e.key@ == #[trigger] names[j] && e.msg@
                            == duplicate_group_message(e.key@);
                    let i = choose|i: int| 0 <= i < j && names[i] == names[j];
                    assert(names[i] == names[j]);
                }
                Err(e)
            },
        }
    }

    /// Offers a value for a declared option. The slot takes it if the
    /// source is strictly stronger than the one that the slot has its value
    /// from; on equal precedence the earlier value stays. A write to an
    /// undeclared group or option fails and changes nothing. No write adds
    /// or removes a slot.
    pub fn update(&mut self, group: &str, name: &str, value: Scalar, precedence: i32) -> (r: Result<
        (),
        MissingKeyError,
    >)
        ensures
            r is Ok <==> declared(old(self)@, group@, name@),
            match r {
                Ok(_) => final(self)@ == merged(old(self)@, group@, name@, value@, precedence),
                Err(e) => final(self)@ == old(self)@ && e@ == missing(old(self)@, group@, name@),
            },
            same_keys(old(self)@, final(self)@),
    {
        proof {
            use_type_invariant(&*self);
        }
        let ghost before = self.groups@;
        let gi = match find_section(&self.groups, group) {
            Some(i) => i,
            None => {
                proof {
                    lemma_assoc_absent(section_names(before), section_vals(before), group@);
                }
                return Err(MissingKeyError::for_group(group));
            },
        };
        proof {
            lemma_assoc_at(section_names(before), section_vals(before), gi as int);
        }
        let si = match find_slot(&self.groups[gi].slots, name) {
            Some(j) => j,
            None => {
                proof {
                    lemma_assoc_absent(
                        slot_names(before[gi as int].slots@),
                        slot_vals(before[gi as int].slots@),
                        name@,
                    );
                }
                return Err(MissingKeyError::for_key(group, name));
            },
        };
        proof {
            lemma_assoc_at(
                slot_names(before[gi as int].slots@),
                slot_vals(before[gi as int].slots@),
                si as int,
            );
            lemma_merged_keys(self@, group@, name@, value@, precedence);
        }
        if self.groups[gi].slots[si].found.precedence > precedence {
            replace_found(&mut self.groups, gi, si, Match { value: Some(value), precedence });
        } else {
            let ghost m = sections_view(before);
            assert(m[group@].insert(name@, m[group@][name@]) =~= m[group@]);
            assert(m.insert(group@, m[group@]) =~= m);
        }
        Ok(())
    }

    /// The slot of an option, if it has one.
    pub fn lookup(&self, group: &str, name: &str) -> (r: Option<&Match>)
        ensures
            r is Some <==> declared(self@, group@, name@),
            r matches Some(slot) ==> slot@ == self@[group@][name@],
    {
        proof {
            use_type_invariant(self);
        }
        let gi = match find_section(&self.groups, group) {
            Some(i) => i,
            None => {
                proof {
                    lemma_assoc_absent(
                        section_names(self.groups@),
                        section_vals(self.groups@),
                        group@,
                    );
                }
                return None;
            },
        };
        proof {
            lemma_assoc_at(section_names(self.groups@), section_vals(self.groups@), gi as int);
        }
        let slots = &self.groups[gi].slots;
        match find_slot(slots, name) {
            Some(si) => {
                proof {
                    lemma_assoc_at(slot_names(slots@), slot_vals(slots@), si as int);
                }
                Some(&slots[si].found)
            },
            None => {
                proof {
                    lemma_assoc_absent(slot_names(slots@), slot_vals(slots@), name@);
                }
                None
            },
        }
    }

    /// The value resolved for an option: `None` where the option is not
    /// declared or no source has given it a value.
    pub fn get(&self, group: &str, name: &str) -> (r: Option<Scalar>)
        ensures
            option_view(r) == resolved(self@, group@, name@),
    {
        match self.lookup(group, name) {
            Some(slot) => clone_option(&slot.value),
            None => None,
        }
    }

    /// Whether the set has a slot for the option.
    pub fn contains(&self, group: &str, name: &str) -> (r: bool)
        ensures
            r == declared(self@, group@, name@),
    {
        self.lookup(group, name).is_some()
    }
}

/// A write keeps the groups of the set and the options of each group.
pub proof fn lemma_merged_keys(
    m: MatchesView,
    group: Name,
    name: Name,
    value: ScalarView,
    precedence: i32,
)
    requires
        declared(m, group, name),
    ensures
        same_keys(m, merged(m, group, name, value, precedence)),
{
    let after = merged(m, group, name, value, precedence);
    assert(after.dom() =~= m.dom());
    assert forall|g: Name| #[trigger] m.contains_key(g) implies m[g].dom() == after[g].dom() by {
        assert(m[g].dom() =~= after[g].dom());
    }
}

} // verus!
