//! Validation of a declaration set, before anything is parsed.

use crate::assoc::{distinct, Name};
use crate::declaration::{
    byte_len, groups_view, options_view, same_text, ConfigOption, ConfiguratorGroup, GroupView,
    OptionView,
};
use crate::error::{duplicate_group_message, DuplicateKeyError};
use crate::matches::{first_repeat, group_names, option_names};
use vstd::prelude::*;

verus! {

/// What is wrong with the declaration of an option.
#[derive(Clone, Copy, PartialEq, Eq, Structural, Debug)]
pub enum OptionFault {
    /// The option has neither a document key nor a long flag, so no name.
    EmptyName,
    /// The short flag takes more than one byte, or the long flag exactly one.
    BadFlag,
    /// The default is not of the declared type.
    DefaultType,
    /// An earlier option of the group has the same name.
    DuplicateName,
}

/// Why a declaration set is refused.
#[derive(PartialEq, Debug)]
pub enum ValidationError {
    /// The option at `index` of the group cannot be declared as it is.
    BadOption { group: String, index: usize, name: String, fault: OptionFault },
    /// Two groups share a name.
    DuplicateGroup(DuplicateKeyError),
}

/// An earlier option of the group has the name of the option at `j`.
pub open spec fn repeats_earlier(args: Seq<OptionView>, j: int) -> bool {
    exists|k: int| 0 <= k < j && (#[trigger] args[k]).name() == args[j].name()
}

/// The fault of the option at `j` of a group, if it has one. Of several,
/// the first in the order of [`OptionFault`] is named.
pub open spec fn option_fault(args: Seq<OptionView>, j: int) -> Option<OptionFault> {
    let o = args[j];
    if o.name().len() == 0 {
        Some(OptionFault::EmptyName)
    } else if !o.flags_well_formed() {
        Some(OptionFault::BadFlag)
    } else if !o.default_typed() {
        Some(OptionFault::DefaultType)
    } else if repeats_earlier(args, j) {
        Some(OptionFault::DuplicateName)
    } else {
        None
    }
}

/// `(a, b)` is a position in the declaration set.
pub open spec fn position(groups: Seq<GroupView>, a: int, b: int) -> bool {
    0 <= a < groups.len() && 0 <= b < groups[a].args.len()
}

/// No option before position `(i, j)`, in the order of declaration, has a
/// fault.
pub open spec fn faultless_before(groups: Seq<GroupView>, i: int, j: int) -> bool {
    forall|a: int, b: int|
        position(groups, a, b) && (a < i || (a == i && b < j)) ==> (#[trigger] option_fault(
            groups[a].args,
            b,
        )) is None
}

/// No option has a fault.
pub open spec fn faultless(groups: Seq<GroupView>) -> bool {
    forall|a: int, b: int|
        position(groups, a, b) ==> (#[trigger] option_fault(groups[a].args, b)) is None
}

/// The option has a name, flags that the command line parser takes, and a
/// default of its own type, if it has one.
pub open spec fn option_valid(o: OptionView) -> bool {
    o.name().len() > 0 && o.flags_well_formed() && o.default_typed()
}

/// The declaration set can be resolved: no two groups share a name, no two
/// options of a group share a name, and every option is valid.
pub open spec fn declarations_valid(groups: Seq<GroupView>) -> bool {
    &&& distinct(group_names(groups))
    &&& forall|i: int|
        0 <= i < groups.len() ==> distinct(#[trigger] option_names(groups[i].args))
    &&& forall|i: int, j: int|
        position(groups, i, j) ==> option_valid(#[trigger] groups[i].args[j])
}

/// A declaration set is valid exactly when no option has a fault and no
/// two groups share a name.
pub proof fn lemma_valid_is_faultless(groups: Seq<GroupView>)
    ensures
        declarations_valid(groups) <==> faultless(groups) && distinct(group_names(groups)),
{
    if declarations_valid(groups) {
        assert forall|a: int, b: int| position(groups, a, b) implies (#[trigger] option_fault(
            groups[a].args,
            b,
        )) is None by {
            let args = groups[a].args;
            assert(option_valid(groups[a].args[b]));
            assert(distinct(option_names(groups[a].args)));
            if repeats_earlier(args, b) {
                let k = choose|k: int| 0 <= k < b && (#[trigger] args[k]).name() == args[b].name();
                assert(option_names(args)[k] == option_names(args)[b]);
            }
        }
    }
    if faultless(groups) && distinct(group_names(groups)) {
        assert forall|i: int| 0 <= i < groups.len() implies distinct(
            #[trigger] option_names(groups[i].args),
        ) by {
            let args = groups[i].args;
            let names = option_names(args);
            assert forall|x: int, y: int| 0 <= x < y < names.len() implies names[x] != names[y] by {
                assert(position(groups, i, y));
                assert(option_fault(groups[i].args, y) is None);
                if args[x].name() == args[y].name() {
                    assert(repeats_earlier(args, y));
                }
            }
        }
        assert forall|i: int, j: int| position(groups, i, j) implies option_valid(
            #[trigger] groups[i].args[j],
        ) by {
            assert(option_fault(groups[i].args, j) is None);
        }
    }
}

/// A declaration set with two groups of one name, or with two options of
/// one name in a group, is not valid.
pub proof fn lemma_duplicates_invalid(groups: Seq<GroupView>)
    ensures
        (exists|i: int, j: int|
            0 <= i < j < groups.len() && (#[trigger] groups[i]).name == (#[trigger] groups[j]).name)
            ==> !declarations_valid(groups),
        (exists|i: int, j: int, k: int|
            position(groups, i, k) && 0 <= j < k && (#[trigger] groups[i].args[j]).name() == (
            #[trigger] groups[i].args[k]).name()) ==> !declarations_valid(groups),
{
    if exists|i: int, j: int|
        0 <= i < j < groups.len() && (#[trigger] groups[i]).name == (#[trigger] groups[j]).name {
        let (i, j) = choose|i: int, j: int|
            0 <= i < j < groups.len() && (#[trigger] groups[i]).name == (#[trigger] groups[j]).name;
        assert(group_names(groups)[i] == group_names(groups)[j]);
    }
    if exists|i: int, j: int, k: int|
        position(groups, i, k) && 0 <= j < k && (#[trigger] groups[i].args[j]).name() == (
        #[trigger] groups[i].args[k]).name() {
        let (i, j, k) = choose|i: int, j: int, k: int|
            position(groups, i, k) && 0 <= j < k && (#[trigger] groups[i].args[j]).name() == (
            #[trigger] groups[i].args[k]).name();
        assert(option_names(groups[i].args)[j] == option_names(groups[i].args)[k]);
    }
}

/// The fault of the option at `j`, if it has one.
fn check_option(args: &Vec<ConfigOption>, j: usize) -> (r: Option<OptionFault>)
    requires
        j < args.len(),
    ensures
        r == option_fault(options_view(args@), j as int),
{
    let ghost ov = options_view(args@);
    let o = &args[j];
    let name = o.get_name();
    assert(ov[j as int] == o@);
    if name.is_empty() {
        return Some(OptionFault::EmptyName);
    }
    if byte_len(o.short_name()) > 1 || byte_len(o.long_name()) == 1 {
        return Some(OptionFault::BadFlag);
    }
    match o.default() {
        Some(v) => {
            if v.type_tag() != o.typ() {
                return Some(OptionFault::DefaultType);
            }
        },
        None => {},
    }
    let mut k: usize = 0;
    while k < j
        invariant
            k <= j < args.len(),
            ov == options_view(args@),
            name@ == ov[j as int].name(),
            option_valid(ov[j as int]),
            forall|x: int| 0 <= x < k ==> (#[trigger] ov[x]).name() != ov[j as int].name(),
        decreases j - k,
    {
        if same_text(args[k].get_name(), name) {
            assert(ov[k as int] == args[k as int]@);
            assert(repeats_earlier(ov, j as int));
            return Some(OptionFault::DuplicateName);
        }
        assert(ov[k as int] == args[k as int]@);
        k += 1;
    }
    None
}

/// The content of a validation error.
pub ghost enum ValidationErrorView {
    BadOption { group: Name, index: int, name: Name, fault: OptionFault },
    DuplicateGroup { key: Name, msg: Seq<char> },
}

impl View for ValidationError {
    type V = ValidationErrorView;

    open spec fn view(&self) -> ValidationErrorView {
        match *self {
            ValidationError::BadOption { group, index, name, fault } => {
                ValidationErrorView::BadOption {
                    group: group@,
                    index: index as int,
                    name: name@,
                    fault,
                }
            },
            ValidationError::DuplicateGroup(e) => ValidationErrorView::DuplicateGroup {
                key: e.key@,
                msg: e.msg@,
            },
        }
    }
}

/// What is said of a fault.
pub open spec fn fault_text(fault: OptionFault) -> Seq<char> {
    match fault {
        OptionFault::EmptyName => "has neither a document key nor a long flag"@,
        OptionFault::BadFlag => {
            "has a short flag of more than one byte or a long flag of one byte"@
        },
        OptionFault::DefaultType => "has a default that is not of its type"@,
        OptionFault::DuplicateName => "has the name of an earlier option of the group"@,
    }
}

/// The sentence that reports a refused declaration set.
pub open spec fn validation_message(e: ValidationErrorView) -> Seq<char> {
    match e {
        ValidationErrorView::BadOption { group, index, name, fault } => "Option '"@ + name
            + "' of group '"@ + group + "' "@ + fault_text(fault),
        ValidationErrorView::DuplicateGroup { key, msg } => msg,
    }
}

impl OptionFault {
    /// What is said of the fault.
    pub fn text(&self) -> (s: &'static str)
        ensures
            s@ == fault_text(*self),
    {
        match self {
            OptionFault::EmptyName => "has neither a document key nor a long flag",
            OptionFault::BadFlag => {
                "has a short flag of more than one byte or a long flag of one byte"
            },
            OptionFault::DefaultType => "has a default that is not of its type",
            OptionFault::DuplicateName => "has the name of an earlier option of the group",
        }
    }
}

impl ValidationError {
    /// The sentence for the user.
    pub fn message(&self) -> (s: String)
        ensures
            s@ == validation_message(self@),
    {
        match self {
            ValidationError::BadOption { group, index, name, fault } => {
                let mut s = String::from_str("Option '");
                s.append(name.as_str());
                s.append("' of group '");
                s.append(group.as_str());
                s.append("' ");
                s.append(fault.text());
                s
            },
            ValidationError::DuplicateGroup(e) => e.msg.clone(),
        }
    }
}

/// The error that reports a declaration set: the first faulty option in the
/// order of declaration, or, where no option has a fault, the first group
/// that repeats the name of an earlier one.
pub open spec fn reports(groups: Seq<GroupView>, e: ValidationErrorView) -> bool {
    match e {
        ValidationErrorView::BadOption { group, index, name, fault } => exists|i: int|
            {
                &&& #[trigger] position(groups, i, index)
                &&& faultless_before(groups, i, index)
                &&& option_fault(groups[i].args, index) == Some(fault)
                &&& group == groups[i].name
                &&& name == groups[i].args[index].name()
            },
        ValidationErrorView::DuplicateGroup { key, msg } => {
            &&& faultless(groups)
            &&& exists|j: int|
                first_repeat(group_names(groups), j) && key == #[trigger] group_names(groups)[j]
            &&& msg == duplicate_group_message(key)
        },
    }
}

/// Looks for the first faulty option of a declaration set.
pub fn check_options(config: &Vec<ConfiguratorGroup>) -> (r: Result<(), ValidationError>)
    ensures
        r is Ok <==> faultless(groups_view(config@)),
        r matches Err(e) ==> e is BadOption && reports(groups_view(config@), e@),
{
    let ghost gv = groups_view(config@);
    let mut i: usize = 0;
    while i < config.len()
        invariant
            i <= config.len(),
            gv == groups_view(config@),
            faultless_before(gv, i as int, 0),
        decreases config.len() - i,
    {
        let group = &config[i];
        assert(gv[i as int] == group@);
        let mut j: usize = 0;
        while j < group.args.len()
            invariant
                i < config.len(),
                j <= group.args.len(),
                gv == groups_view(config@),
                gv[i as int] == group@,
                group == config[i as int],
                faultless_before(gv, i as int, j as int),
            decreases group.args.len() - j,
        {
            match check_option(&group.args, j) {
                Some(fault) => {
                    let e = ValidationError::BadOption {
                        group: group.name.clone(),
                        index: j,
                        name: group.args[j].get_name().to_owned(),
                        fault,
                    };
                    proof {
                        assert(position(gv, i as int, j as int));
                        assert(gv[i as int].args[j as int] == group.args[j as int]@);
                    }
                    return Err(e);
                },
                None => {},
            }
            j += 1;
        }
        i += 1;
    }
    Ok(())
}

} // verus!
