//! Grouping by key: which entries of a list share a key with another.

use std::collections::HashMap;
use vstd::prelude::*;

verus! {

/// Whether `class` holds, in ascending order, just the indices below `upto`
/// whose key is that of its first member, a key that is present.
pub open spec fn is_class(keys: Seq<Option<u128>>, class: Seq<usize>, upto: int) -> bool {
    &&& class.len() >= 1
    &&& forall|m: int|
        0 <= m < class.len() ==> (#[trigger] class[m]) < upto && keys[class[m] as int]
            == keys[class[0] as int]
    &&& keys[class[0] as int] is Some
    &&& is_ascending(class)
    &&& forall|j: int|
        0 <= j < upto && #[trigger] keys[j] == keys[class[0] as int] ==> class.contains(
            j as usize,
        )
}

/// Whether `groups` is the grouping of `keys`: one group for each key that
/// two or more indices share, each holding all the indices of its key in
/// ascending order, and the groups in the order of their first members. An
/// index without a key is in no group.
pub open spec fn is_grouping(keys: Seq<Option<u128>>, groups: Seq<Seq<usize>>) -> bool {
    &&& forall|g: int|
        0 <= g < groups.len() ==> is_class(keys, #[trigger] groups[g], keys.len() as int)
            && groups[g].len() >= 2
    &&& forall|i: int, j: int|
        #![trigger keys[i], keys[j]]
        0 <= i < keys.len() && 0 <= j < keys.len() && i != j && keys[i] is Some && keys[i]
            == keys[j] ==> exists|g: int|
            0 <= g < groups.len() && keys[(#[trigger] groups[g])[0] as int] == keys[i]
    &&& forall|g: int, h: int|
        0 <= g < h < groups.len() ==> (#[trigger] groups[g])[0] < (#[trigger] groups[h])[0]
}

/// Whether `indices` is strictly ascending.
pub open spec fn is_ascending(indices: Seq<usize>) -> bool {
    forall|m: int, n: int| 0 <= m < n < indices.len() ==> (#[trigger] indices[m]) < (
    #[trigger] indices[n])
}

proof fn lemma_ascending_same_members(first: Seq<usize>, second: Seq<usize>)
    requires
        is_ascending(first),
        is_ascending(second),
        forall|x: usize| first.contains(x) <==> second.contains(x),
    ensures
        first == second,
    decreases first.len(),
{
    if first.len() == 0 {
        if second.len() > 0 {
            assert(second.contains(second[0]));
        }
        assert(first =~= second);
    } else {
        assert(first.contains(first[0]));
        let x = first.last();
        let y = second.last();
        assert(first[first.len() - 1] == x && second[second.len() - 1] == y);
        assert(first.contains(x) && second.contains(y));
        let at_y = choose|i: int| 0 <= i < second.len() && second[i] == x;
        let at_x = choose|i: int| 0 <= i < first.len() && first[i] == y;
        assert(x == y);
        let front = first.drop_last();
        let other = second.drop_last();
        assert forall|z: usize| front.contains(z) <==> other.contains(z) by {
            if front.contains(z) {
                let i = choose|i: int| 0 <= i < front.len() && front[i] == z;
                assert(first[i] == z);
                assert(first.contains(z));
                let j = choose|j: int| 0 <= j < second.len() && second[j] == z;
                assert(j < second.len() - 1);
                assert(other[j] == z);
            }
            if other.contains(z) {
                let j = choose|j: int| 0 <= j < other.len() && other[j] == z;
                assert(second[j] == z);
                assert(second.contains(z));
                let i = choose|i: int| 0 <= i < first.len() && first[i] == z;
                assert(i < first.len() - 1);
                assert(front[i] == z);
            }
        }
        assert forall|m: int, n: int| 0 <= m < n < front.len() implies (#[trigger] front[m]) < (
        #[trigger] front[n]) by {
            assert(front[m] == first[m] && front[n] == first[n]);
        }
        assert forall|m: int, n: int| 0 <= m < n < other.len() implies (#[trigger] other[m]) < (
        #[trigger] other[n]) by {
            assert(other[m] == second[m] && other[n] == second[n]);
        }
        lemma_ascending_same_members(front, other);
        assert(first =~= front.push(x));
        assert(second =~= other.push(y));
    }
}

/// A key has one class: two classes whose first members have one key are one.
pub proof fn lemma_class_is_unique(
    keys: Seq<Option<u128>>,
    first: Seq<usize>,
    second: Seq<usize>,
    upto: int,
)
    requires
        upto <= usize::MAX,
        is_class(keys, first, upto),
        is_class(keys, second, upto),
        keys[first[0] as int] == keys[second[0] as int],
    ensures
        first == second,
{
    assert forall|x: usize| first.contains(x) <==> second.contains(x) by {
        if first.contains(x) {
            let m = choose|m: int| 0 <= m < first.len() && first[m] == x;
            assert(keys[x as int] == keys[second[0] as int]);
            assert(second.contains(x as int as usize));
        }
        if second.contains(x) {
            let m = choose|m: int| 0 <= m < second.len() && second[m] == x;
            assert(keys[x as int] == keys[first[0] as int]);
            assert(first.contains(x as int as usize));
        }
    }
    lemma_ascending_same_members(first, second);
}

/// A list of keys has one grouping.
pub proof fn lemma_grouping_is_unique(
    keys: Seq<Option<u128>>,
    first: Seq<Seq<usize>>,
    second: Seq<Seq<usize>>,
)
    requires
        keys.len() <= usize::MAX,
        is_grouping(keys, first),
        is_grouping(keys, second),
    ensures
        first == second,
{
    let leaders = first.map_values(|group: Seq<usize>| group[0]);
    let others = second.map_values(|group: Seq<usize>| group[0]);
    lemma_leaders_covered(keys, first, second);
    lemma_leaders_covered(keys, second, first);
    assert forall|x: usize| leaders.contains(x) <==> others.contains(x) by {
        if leaders.contains(x) {
            let g = choose|g: int| 0 <= g < leaders.len() && leaders[g] == x;
            assert(second.contains(first[g]));
            let h = choose|h: int| 0 <= h < second.len() && second[h] == first[g];
            assert(others[h] == x);
        }
        if others.contains(x) {
            let h = choose|h: int| 0 <= h < others.len() && others[h] == x;
            assert(first.contains(second[h]));
            let g = choose|g: int| 0 <= g < first.len() && first[g] == second[h];
            assert(leaders[g] == x);
        }
    }
    assert(is_ascending(leaders)) by {
        assert forall|m: int, n: int| 0 <= m < n < leaders.len() implies (#[trigger] leaders[m])
            < (#[trigger] leaders[n]) by {
            assert(first[m][0] < first[n][0]);
        }
    }
    assert(is_ascending(others)) by {
        assert forall|m: int, n: int| 0 <= m < n < others.len() implies (#[trigger] others[m])
            < (#[trigger] others[n]) by {
            assert(second[m][0] < second[n][0]);
        }
    }
    lemma_ascending_same_members(leaders, others);
    assert(first.len() == second.len());
    assert forall|g: int| 0 <= g < first.len() implies first[g] == second[g] by {
        assert(leaders[g] == others[g]);
        assert(is_class(keys, first[g], keys.len() as int));
        assert(is_class(keys, second[g], keys.len() as int));
        lemma_class_is_unique(keys, first[g], second[g], keys.len() as int);
    }
    assert(first =~= second);
}

/// Every group of one grouping is a group of any other.
proof fn lemma_leaders_covered(
    keys: Seq<Option<u128>>,
    first: Seq<Seq<usize>>,
    second: Seq<Seq<usize>>,
)
    requires
        keys.len() <= usize::MAX,
        is_grouping(keys, first),
        is_grouping(keys, second),
    ensures
        forall|g: int| 0 <= g < first.len() ==> second.contains(#[trigger] first[g]),
{
    assert forall|g: int| 0 <= g < first.len() implies second.contains(#[trigger] first[g]) by {
        let group = first[g];
        assert(is_class(keys, group, keys.len() as int));
        let i = group[0] as int;
        let j = group[1] as int;
        assert(group[0] < group[1]);
        assert(keys[j] == keys[i]);
        assert(keys[i] is Some && keys[i] == keys[j] && i != j);
        let h = choose|h: int|
            0 <= h < second.len() && keys[(#[trigger] second[h])[0] as int] == keys[i];
        assert(is_class(keys, second[h], keys.len() as int));
        lemma_class_is_unique(keys, group, second[h], keys.len() as int);
        assert(second[h] == group);
    }
}

/// The contents of each vector of `groups`.
pub open spec fn contents(groups: Seq<Vec<usize>>) -> Seq<Seq<usize>> {
    groups.map_values(|group: Vec<usize>| group@)
}

/// A copy of `indices`.
pub fn copy_indices(indices: &Vec<usize>) -> (copy: Vec<usize>)
    ensures
        copy@ == indices@,
{
    let mut copy: Vec<usize> = Vec::new();
    let mut i: usize = 0;
    while i < indices.len()
        invariant
            i <= indices.len(),
            copy@ == indices@.subrange(0, i as int),
        decreases indices.len() - i,
    {
        copy.push(indices[i]);
        assert(copy@ =~= indices@.subrange(0, i + 1));
        i += 1;
    }
    assert(copy@ =~= indices@);
    copy
}

/// The classes of `keys`: for each key that occurs, in the order of first
/// occurrence, the indices that have it.
fn classes_of(keys: &Vec<Option<u128>>) -> (classes: Vec<Vec<usize>>)
    ensures
        forall|s: int|
            0 <= s < classes@.len() ==> is_class(keys@, (#[trigger] classes@[s])@, keys@.len() as int),
        forall|s: int, t: int|
            0 <= s < t < classes@.len() ==> (#[trigger] classes@[s])@[0] < (
            #[trigger] classes@[t])@[0],
        forall|j: int|
            0 <= j < keys@.len() && (#[trigger] keys@[j]) is Some ==> exists|s: int|
                0 <= s < classes@.len() && keys@[(#[trigger] classes@[s])@[0] as int] == keys@[j],
{
    broadcast use vstd::std_specs::hash::group_hash_axioms;

    let mut classes: Vec<Vec<usize>> = Vec::new();
    let mut slot_of: HashMap<u128, usize> = HashMap::new();
    let mut i: usize = 0;
    while i < keys.len()
        invariant
            i <= keys.len(),
            forall|s: int|
                0 <= s < classes@.len() ==> is_class(keys@, (#[trigger] classes@[s])@, i as int),
            forall|s: int|
                0 <= s < classes@.len() ==> slot_of@.contains_key(
                    keys@[(#[trigger] classes@[s])@[0] as int]->0,
                ) && slot_of@[keys@[classes@[s]@[0] as int]->0] == s,
            forall|k: u128| #[trigger]
                slot_of@.contains_key(k) ==> slot_of@[k] < classes@.len() && keys@[classes@[slot_of@[k] as int]@[0] as int]
                    == Some(k),
            forall|j: int|
                0 <= j < i && (#[trigger] keys@[j]) is Some ==> slot_of@.contains_key(keys@[j]->0),
            forall|s: int, t: int|
                0 <= s < t < classes@.len() ==> (#[trigger] classes@[s])@[0] < (
                #[trigger] classes@[t])@[0],
        decreases keys.len() - i,
    {
        let ghost old_classes = classes@;
        let ghost old_slots = slot_of@;
        match keys[i] {
            None => {
                proof {
                    assert forall|s: int| 0 <= s < classes@.len() implies is_class(
                        keys@,
                        (#[trigger] classes@[s])@,
                        i + 1,
                    ) by {
                        assert(is_class(keys@, classes@[s]@, i as int));
                    }
                }
            },
            Some(key) => {
                let found: Option<usize> = match slot_of.get(&key) {
                    Some(slot) => Some(*slot),
                    None => None,
                };
                match found {
                    Some(slot) => {
                        classes.push(Vec::new());
                        let mut class = classes.swap_remove(slot);
                        let ghost old_class = class@;
                        class.push(i);
                        let ghost new_class = class@;
                        classes.set(slot, class);
                        proof {
                            assert(classes@.len() == old_classes.len());
                            assert(classes@[slot as int]@ == new_class);
                            assert(old_class == old_classes[slot as int]@);
                            assert(is_class(keys@, old_class, i as int));
                            assert(new_class[0] == old_class[0]);
                            assert forall|m: int| 0 <= m < new_class.len() implies (
                            #[trigger] new_class[m]) < i + 1 && keys@[new_class[m] as int]
                                == keys@[new_class[0] as int] by {
                                if m < old_class.len() {
                                    assert(new_class[m] == old_class[m]);
                                }
                            }
                            assert forall|m: int, n: int|
                                0 <= m < n < new_class.len() implies (#[trigger] new_class[m]) < (
                            #[trigger] new_class[n]) by {
                                assert(new_class[m] == old_class[m]);
                                if n < old_class.len() {
                                    assert(new_class[n] == old_class[n]);
                                }
                            }
                            assert forall|j: int|
                                0 <= j < i + 1 && #[trigger] keys@[j]
                                    == keys@[new_class[0] as int] implies new_class.contains(
                                j as usize,
                            ) by {
                                if j < i {
                                    assert(old_class.contains(j as usize));
                                    let m = choose|m: int|
                                        0 <= m < old_class.len() && old_class[m] == j as usize;
                                    assert(new_class[m] == j as usize);
                                } else {
                                    assert(new_class[old_class.len() as int] == j as usize);
                                }
                            }
                            assert(is_class(keys@, new_class, i + 1));
                            assert forall|s: int| 0 <= s < classes@.len() implies is_class(
                                keys@,
                                (#[trigger] classes@[s])@,
                                i + 1,
                            ) by {
                                if s != slot {
                                    assert(classes@[s] == old_classes[s]);
                                    assert(is_class(keys@, old_classes[s]@, i as int));
                                }
                            }
                            assert forall|s: int| 0 <= s < classes@.len() implies slot_of@.contains_key(
                                keys@[(#[trigger] classes@[s])@[0] as int]->0,
                            ) && slot_of@[keys@[classes@[s]@[0] as int]->0] == s by {
                                if s != slot {
                                    assert(classes@[s] == old_classes[s]);
                                }
                            }
                            assert forall|k: u128| #[trigger]
                                slot_of@.contains_key(k) implies slot_of@[k] < classes@.len()
                                && keys@[classes@[slot_of@[k] as int]@[0] as int] == Some(k) by {
                                let s = slot_of@[k] as int;
                                if s != slot {
                                    assert(classes@[s] == old_classes[s]);
                                }
                            }
                            assert forall|s: int, t: int|
                                0 <= s < t < classes@.len() implies (#[trigger] classes@[s])@[0] < (
                            #[trigger] classes@[t])@[0] by {
                                assert(classes@[s]@[0] == old_classes[s]@[0]);
                                assert(classes@[t]@[0] == old_classes[t]@[0]);
                            }
                        }
                    },
                    None => {
                        let slot = classes.len();
                        slot_of.insert(key, slot);
                        let mut class: Vec<usize> = Vec::new();
                        class.push(i);
                        let ghost new_class = class@;
                        classes.push(class);
                        proof {
                            assert(new_class[0] == i);
                            assert forall|j: int|
                                0 <= j < i + 1 && #[trigger] keys@[j]
                                    == keys@[new_class[0] as int] implies new_class.contains(
                                j as usize,
                            ) by {
                                if j < i {
                                    assert(old_slots.contains_key(keys@[j]->0));
                                }
                                assert(new_class[0] == j as usize);
                            }
                            assert(is_class(keys@, new_class, i + 1));
                            assert forall|s: int| 0 <= s < classes@.len() implies is_class(
                                keys@,
                                (#[trigger] classes@[s])@,
                                i + 1,
                            ) by {
                                if s < slot {
                                    assert(classes@[s] == old_classes[s]);
                                    assert(is_class(keys@, old_classes[s]@, i as int));
                                    assert(old_slots.contains_key(
                                        keys@[old_classes[s]@[0] as int]->0,
                                    ));
                                }
                            }
                            assert forall|s: int| 0 <= s < classes@.len() implies slot_of@.contains_key(
                                keys@[(#[trigger] classes@[s])@[0] as int]->0,
                            ) && slot_of@[keys@[classes@[s]@[0] as int]->0] == s by {
                                if s < slot {
                                    assert(classes@[s] == old_classes[s]);
                                    assert(old_slots.contains_key(
                                        keys@[old_classes[s]@[0] as int]->0,
                                    ));
                                }
                            }
                            assert forall|k: u128| #[trigger]
                                slot_of@.contains_key(k) implies slot_of@[k] < classes@.len()
                                && keys@[classes@[slot_of@[k] as int]@[0] as int] == Some(k) by {
                                if k != key {
                                    assert(old_slots.contains_key(k));
                                    assert(classes@[old_slots[k] as int] == old_classes[old_slots[k] as int]);
                                }
                            }
                            assert forall|s: int, t: int|
                                0 <= s < t < classes@.len() implies (#[trigger] classes@[s])@[0] < (
                            #[trigger] classes@[t])@[0] by {
                                assert(classes@[s] == old_classes[s]);
                                assert(is_class(keys@, old_classes[s]@, i as int));
                                if t < slot {
                                    assert(classes@[t] == old_classes[t]);
                                }
                            }
                        }
                    },
                }
            },
        }
        i += 1;
    }
    proof {
        assert forall|j: int| 0 <= j < keys@.len() && (#[trigger] keys@[j]) is Some implies exists|
            s: int,
        |
            0 <= s < classes@.len() && keys@[(#[trigger] classes@[s])@[0] as int] == keys@[j] by {
            let s = slot_of@[keys@[j]->0] as int;
            assert(keys@[classes@[s]@[0] as int] == keys@[j]);
        }
    }
    classes
}

/// The classes of two or more members, kept in their order, are the grouping.
proof fn lemma_kept_classes_group(
    keys: Seq<Option<u128>>,
    classes: Seq<Seq<usize>>,
    found: Seq<Seq<usize>>,
    origin: Seq<int>,
)
    requires
        keys.len() <= usize::MAX,
        forall|s: int| 0 <= s < classes.len() ==> is_class(keys, #[trigger] classes[s], keys.len() as int),
        forall|s: int, t: int|
            0 <= s < t < classes.len() ==> (#[trigger] classes[s])[0] < (#[trigger] classes[t])[0],
        forall|j: int|
            0 <= j < keys.len() && (#[trigger] keys[j]) is Some ==> exists|s: int|
                0 <= s < classes.len() && keys[(#[trigger] classes[s])[0] as int] == keys[j],
        origin.len() == found.len(),
        forall|g: int|
            0 <= g < origin.len() ==> 0 <= (#[trigger] origin[g]) < classes.len() && found[g]
                == classes[origin[g]] && found[g].len() >= 2,
        forall|g: int, h: int|
            0 <= g < h < origin.len() ==> (#[trigger] origin[g]) < (#[trigger] origin[h]),
        forall|t: int|
            0 <= t < classes.len() && (#[trigger] classes[t]).len() >= 2 ==> exists|g: int|
                0 <= g < origin.len() && #[trigger] origin[g] == t,
    ensures
        is_grouping(keys, found),
{
    assert forall|g: int| 0 <= g < found.len() implies is_class(
        keys,
        #[trigger] found[g],
        keys.len() as int,
    ) && found[g].len() >= 2 by {
        assert(found[g] == classes[origin[g]]);
    }
    assert forall|i: int, j: int|
        #![trigger keys[i], keys[j]]
        0 <= i < keys.len() && 0 <= j < keys.len() && i != j && keys[i] is Some && keys[i]
            == keys[j] implies exists|g: int|
        0 <= g < found.len() && keys[(#[trigger] found[g])[0] as int] == keys[i] by {
        let t = choose|t: int|
            0 <= t < classes.len() && keys[(#[trigger] classes[t])[0] as int] == keys[i];
        let class = classes[t];
        assert(is_class(keys, class, keys.len() as int));
        assert(class.contains(i as usize));
        assert(class.contains(j as usize));
        let m = choose|m: int| 0 <= m < class.len() && class[m] == i as usize;
        let n = choose|n: int| 0 <= n < class.len() && class[n] == j as usize;
        assert(i as usize != j as usize);
        assert(m != n);
        assert(class.len() >= 2);
        let g = choose|g: int| 0 <= g < origin.len() && #[trigger] origin[g] == t;
        assert(found[g] == class);
    }
    assert forall|g: int, h: int| 0 <= g < h < found.len() implies (#[trigger] found[g])[0] < (
    #[trigger] found[h])[0] by {
        assert(found[g] == classes[origin[g]]);
        assert(found[h] == classes[origin[h]]);
    }
}

/// The groups of `keys`: for each key that two or more indices share, the
/// indices that have it.
pub fn group_by_key(keys: &Vec<Option<u128>>) -> (groups: Vec<Vec<usize>>)
    ensures
        is_grouping(keys@, contents(groups@)),
{
    let classes = classes_of(keys);
    let count = keys.len();
    assert(keys@.len() <= usize::MAX);
    let mut groups: Vec<Vec<usize>> = Vec::new();
    let ghost mut origin: Seq<int> = Seq::empty();
    let mut s: usize = 0;
    while s < classes.len()
        invariant
            s <= classes.len(),
            keys@.len() <= usize::MAX,
            origin.len() == groups@.len(),
            forall|g: int|
                0 <= g < origin.len() ==> 0 <= (#[trigger] origin[g]) < s && groups@[g]@
                    == classes@[origin[g]]@ && groups@[g]@.len() >= 2,
            forall|g: int, h: int|
                0 <= g < h < origin.len() ==> (#[trigger] origin[g]) < (#[trigger] origin[h]),
            forall|t: int|
                0 <= t < s && (#[trigger] classes@[t])@.len() >= 2 ==> exists|g: int|
                    0 <= g < origin.len() && #[trigger] origin[g] == t,
        decreases classes.len() - s,
    {
        if classes[s].len() >= 2 {
            let ghost old_origin = origin;
            groups.push(copy_indices(&classes[s]));
            proof {
                origin = origin.push(s as int);
                assert forall|t: int|
                    0 <= t < s + 1 && (#[trigger] classes@[t])@.len() >= 2 implies exists|g: int|
                    0 <= g < origin.len() && #[trigger] origin[g] == t by {
                    if t < s {
                        let g = choose|g: int| 0 <= g < old_origin.len() && #[trigger] old_origin[g] == t;
                        assert(origin[g] == t);
                    } else {
                        assert(origin[old_origin.len() as int] == t);
                    }
                }
            }
        }
        s += 1;
    }
    proof {
        assert(contents(classes@).len() == classes@.len());
        assert forall|t: int| 0 <= t < classes@.len() implies (#[trigger] contents(classes@)[t])
            == classes@[t]@ by {}
        assert forall|j: int| 0 <= j < keys@.len() && (#[trigger] keys@[j]) is Some implies exists|
            s: int,
        |
            0 <= s < contents(classes@).len() && keys@[(#[trigger] contents(
                classes@,
            )[s])[0] as int] == keys@[j] by {
            let s = choose|s: int|
                0 <= s < classes@.len() && keys@[(#[trigger] classes@[s])@[0] as int] == keys@[j];
            assert(contents(classes@)[s] == classes@[s]@);
        }
        lemma_kept_classes_group(keys@, contents(classes@), contents(groups@), origin);
    }
    groups
}

} // verus!
