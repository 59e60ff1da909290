//! How counting and merging behave together: merging is commutative and
//! associative, and a merge of two tallies is the tally of all their
//! occurrences, taken in any order.

use crate::census::{counted, merged, row_or_zeros, row_sum, shaped, Census};
use vstd::multiset::Multiset;
use vstd::prelude::*;

verus! {

/// One occurrence: the index of its level and the name of its block type.
pub type Occurrence = (int, Seq<char>);

/// Every occurrence lies on one of `levels` levels.
pub open spec fn occurrences_within(calls: Seq<Occurrence>, levels: nat) -> bool {
    forall|j: int| 0 <= j < calls.len() ==> 0 <= (#[trigger] calls[j]).0 < levels
}

/// The census of a fresh accumulator in which the occurrences were counted
/// one after the other.
pub open spec fn tally(levels: nat, calls: Seq<Occurrence>) -> Census
    decreases calls.len(),
{
    if calls.len() == 0 {
        Map::empty()
    } else {
        counted(tally(levels, calls.drop_last()), levels, calls.last().0, calls.last().1)
    }
}

/// The census of a bag of occurrences: a name is held if it occurs on some
/// level, and each count is the number of times that the pair of level and
/// name is in the bag.
pub open spec fn census_of(levels: nat, bag: Multiset<Occurrence>) -> Census {
    Map::new(
        |k: Seq<char>| exists|i: int| 0 <= i < levels && #[trigger] bag.count((i, k)) > 0,
        |k: Seq<char>| Seq::new(levels, |i: int| bag.count((i, k)) as int),
    )
}

/// The census after `times` occurrences of `name` at level index `i`.
pub open spec fn counted_times(m: Census, levels: nat, i: int, name: Seq<char>, times: nat)
    -> Census
    decreases times,
{
    if times == 0 {
        m
    } else {
        counted(counted_times(m, levels, i, name, (times - 1) as nat), levels, i, name)
    }
}

/// The same occurrence counted `times` times raises that one count by
/// `times` and changes nothing else: in a fresh accumulator the name then
/// has `times` at that level and zero at every other.
pub proof fn lemma_counted_times(m: Census, levels: nat, i: int, name: Seq<char>, times: nat)
    requires
        shaped(m, levels),
        0 <= i < levels,
        times > 0,
    ensures
        counted_times(m, levels, i, name, times) == m.insert(
            name,
            row_or_zeros(m, levels, name).update(i, row_or_zeros(m, levels, name)[i] + times),
        ),
    decreases times,
{
    let row = row_or_zeros(m, levels, name);
    if times == 1 {
        assert(counted_times(m, levels, i, name, 0) == m);
    } else {
        lemma_counted_times(m, levels, i, name, (times - 1) as nat);
        let mid = row.update(i, row[i] + times - 1);
        assert(mid.update(i, mid[i] + 1) =~= row.update(i, row[i] + times));
    }
}

/// Merging is commutative.
pub proof fn lemma_merged_commutative(a: Census, b: Census, levels: nat)
    requires
        shaped(a, levels),
        shaped(b, levels),
    ensures
        merged(a, b) == merged(b, a),
{
    assert forall|k: Seq<char>| a.contains_key(k) && b.contains_key(k) implies row_sum(a[k], b[k])
        == row_sum(b[k], a[k]) by {}
}

/// Merging is associative.
pub proof fn lemma_merged_associative(a: Census, b: Census, c: Census, levels: nat)
    requires
        shaped(a, levels),
        shaped(b, levels),
        shaped(c, levels),
    ensures
        merged(merged(a, b), c) == merged(a, merged(b, c)),
{
    let left = merged(merged(a, b), c);
    let right = merged(a, merged(b, c));
    assert forall|k: Seq<char>| left.contains_key(k) implies #[trigger] left[k] == right[k] by {}
}

/// The order in which two censuses arrive at a total does not matter.
pub proof fn lemma_merged_any_order(total: Census, a: Census, b: Census, levels: nat)
    requires
        shaped(total, levels),
        shaped(a, levels),
        shaped(b, levels),
    ensures
        merged(merged(total, a), b) == merged(merged(total, b), a),
{
    lemma_merged_associative(total, a, b, levels);
    lemma_merged_commutative(a, b, levels);
    lemma_merged_associative(total, b, a, levels);
}

/// Counting into one side before a merge is counting into the merge.
pub proof fn lemma_counted_then_merged(
    a: Census,
    b: Census,
    levels: nat,
    i: int,
    name: Seq<char>,
)
    requires
        shaped(a, levels),
        shaped(b, levels),
        0 <= i < levels,
    ensures
        merged(counted(a, levels, i, name), b) == counted(merged(a, b), levels, i, name),
{
    let left = merged(counted(a, levels, i, name), b);
    let right = counted(merged(a, b), levels, i, name);
    assert forall|k: Seq<char>| left.contains_key(k) implies #[trigger] left[k] == right[k] by {}
}

/// Counting one occurrence puts it into the bag.
pub proof fn lemma_census_of_insert(levels: nat, bag: Multiset<Occurrence>, i: int, name: Seq<char>)
    requires
        0 <= i < levels,
    ensures
        counted(census_of(levels, bag), levels, i, name) == census_of(
            levels,
            bag.insert((i, name)),
        ),
{
    let left = counted(census_of(levels, bag), levels, i, name);
    let more = bag.insert((i, name));
    let right = census_of(levels, more);
    assert forall|k: Seq<char>| left.contains_key(k) == right.contains_key(k) by {
        if left.contains_key(k) {
            if k == name {
                assert(more.count((i, k)) > 0);
            } else {
                let j = choose|j: int| 0 <= j < levels && #[trigger] bag.count((j, k)) > 0;
                assert(more.count((j, k)) > 0);
            }
        }
    }
    assert forall|k: Seq<char>| left.contains_key(k) implies #[trigger] left[k] == right[k] by {}
}

/// Counting the occurrences one after the other gives the census of their
/// bag: the order in which they come does not matter.
pub proof fn lemma_tally_is_census(levels: nat, calls: Seq<Occurrence>)
    requires
        occurrences_within(calls, levels),
    ensures
        tally(levels, calls) == census_of(levels, calls.to_multiset()),
    decreases calls.len(),
{
    if calls.len() == 0 {
        calls.to_multiset_ensures();
    } else {
        let rest = calls.drop_last();
        let last = calls.last();
        lemma_tally_is_census(levels, rest);
        lemma_census_of_insert(levels, rest.to_multiset(), last.0, last.1);
        rest.to_multiset_ensures();
        assert(rest.push(last) =~= calls);
    }
}

/// Merging the censuses of two bags gives the census of the two bags poured
/// together.
pub proof fn lemma_census_of_add(levels: nat, x: Multiset<Occurrence>, y: Multiset<Occurrence>)
    ensures
        merged(census_of(levels, x), census_of(levels, y)) == census_of(levels, x.add(y)),
{
    let a = census_of(levels, x);
    let b = census_of(levels, y);
    let left = merged(a, b);
    let right = census_of(levels, x.add(y));
    assert forall|k: Seq<char>| left.contains_key(k) == right.contains_key(k) by {
        if a.contains_key(k) {
            let j = choose|j: int| 0 <= j < levels && #[trigger] x.count((j, k)) > 0;
            assert(x.add(y).count((j, k)) > 0);
        }
        if b.contains_key(k) {
            let j = choose|j: int| 0 <= j < levels && #[trigger] y.count((j, k)) > 0;
            assert(x.add(y).count((j, k)) > 0);
        }
    }
    assert forall|k: Seq<char>| left.contains_key(k) implies #[trigger] left[k] == right[k] by {}
}

/// Two workers' tallies, merged, are what one accumulator holds that was
/// given every occurrence of both, in any interleaving.
///
/// `all` is any sequence that holds each occurrence as often as `first` and
/// `second` together do.
pub proof fn lemma_merge_of_tallies(
    levels: nat,
    first: Seq<Occurrence>,
    second: Seq<Occurrence>,
    all: Seq<Occurrence>,
)
    requires
        occurrences_within(first, levels),
        occurrences_within(second, levels),
        all.to_multiset() == first.to_multiset().add(second.to_multiset()),
    ensures
        merged(tally(levels, first), tally(levels, second)) == tally(levels, all),
{
    assert forall|j: int| 0 <= j < all.len() implies 0 <= (#[trigger] all[j]).0 < levels by {
        all.to_multiset_ensures();
        first.to_multiset_ensures();
        second.to_multiset_ensures();
        assert(all.to_multiset().count(all[j]) > 0);
    }
    lemma_tally_is_census(levels, first);
    lemma_tally_is_census(levels, second);
    lemma_tally_is_census(levels, all);
    lemma_census_of_add(levels, first.to_multiset(), second.to_multiset());
}

} // verus!
