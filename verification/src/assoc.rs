//! Maps that are stored as a list of names and a list of values.

use vstd::prelude::*;

verus! {

/// A name, as a sequence of characters.
pub type Name = Seq<char>;

/// No name occurs twice.
pub open spec fn distinct(names: Seq<Name>) -> bool {
    forall|i: int, j: int| 0 <= i < j < names.len() ==> names[i] != names[j]
}

/// The map that takes the name at each position to the value at that
/// position.
pub open spec fn assoc<V>(names: Seq<Name>, vals: Seq<V>) -> Map<Name, V> {
    Map::new(|k: Name| names.contains(k), |k: Name| vals[names.index_of(k)])
}

/// Where names are distinct, each name leads to the value at its position.
pub proof fn lemma_assoc_at<V>(names: Seq<Name>, vals: Seq<V>, i: int)
    requires
        distinct(names),
        0 <= i < names.len(),
    ensures
        assoc(names, vals).contains_key(names[i]),
        assoc(names, vals)[names[i]] == vals[i],
        names.index_of(names[i]) == i,
{
    let k = names[i];
    assert(names.contains(k));
    let j = names.index_of(k);
    assert(0 <= j < names.len() && names[j] == k);
    if j < i {
        assert(names[j] != names[i]);
    } else if i < j {
        assert(names[i] != names[j]);
    }
}

/// A name that occurs nowhere is no key.
pub proof fn lemma_assoc_absent<V>(names: Seq<Name>, vals: Seq<V>, k: Name)
    requires
        forall|i: int| 0 <= i < names.len() ==> names[i] != k,
    ensures
        !assoc(names, vals).contains_key(k),
{
    if names.contains(k) {
        let i = choose|i: int| 0 <= i < names.len() && names[i] == k;
        assert(names[i] != k);
    }
}

/// Replacing the value at one position replaces the value under its name.
pub proof fn lemma_assoc_update<V>(names: Seq<Name>, vals: Seq<V>, i: int, v: V)
    requires
        distinct(names),
        names.len() == vals.len(),
        0 <= i < names.len(),
    ensures
        assoc(names, vals.update(i, v)) == assoc(names, vals).insert(names[i], v),
{
    let before = assoc(names, vals);
    let after = assoc(names, vals.update(i, v));
    lemma_assoc_at(names, vals, i);
    assert forall|k: Name| #[trigger] after.contains_key(k) implies after[k] == before.insert(
        names[i],
        v,
    )[k] by {
        let j = names.index_of(k);
        assert(0 <= j < names.len() && names[j] == k);
        if k == names[i] {
            assert(j == i);
        } else {
            assert(j != i);
        }
    }
    assert(after =~= before.insert(names[i], v));
}

/// Appending a new name adds it as a key.
pub proof fn lemma_assoc_push<V>(names: Seq<Name>, vals: Seq<V>, k: Name, v: V)
    requires
        distinct(names),
        names.len() == vals.len(),
        forall|i: int| 0 <= i < names.len() ==> names[i] != k,
    ensures
        distinct(names.push(k)),
        assoc(names.push(k), vals.push(v)) == assoc(names, vals).insert(k, v),
{
    let names2 = names.push(k);
    let vals2 = vals.push(v);
    let before = assoc(names, vals);
    let after = assoc(names2, vals2);
    assert(distinct(names2));
    assert forall|x: Name| after.contains_key(x) <==> before.insert(k, v).contains_key(x) by {
        if names2.contains(x) {
            let j = choose|j: int| 0 <= j < names2.len() && names2[j] == x;
            if j < names.len() {
                assert(names[j] == x);
            }
        }
        if names.contains(x) {
            let j = choose|j: int| 0 <= j < names.len() && names[j] == x;
            assert(names2[j] == x);
        }
        if x == k {
            assert(names2[names.len() as int] == k);
        }
    }
    assert forall|x: Name| #[trigger] after.contains_key(x) implies after[x] == before.insert(
        k,
        v,
    )[x] by {
        let j = names2.index_of(x);
        assert(0 <= j < names2.len() && names2[j] == x);
        lemma_assoc_at(names2, vals2, j);
        if j < names.len() {
            assert(names[j] == x);
            lemma_assoc_at(names, vals, j);
        }
    }
    assert(after =~= before.insert(k, v));
}

/// Without names there are no keys.
pub proof fn lemma_assoc_empty<V>()
    ensures
        assoc(Seq::<Name>::empty(), Seq::<V>::empty()) == Map::<Name, V>::empty(),
{
    assert(assoc(Seq::<Name>::empty(), Seq::<V>::empty()) =~= Map::<Name, V>::empty());
}

} // verus!
