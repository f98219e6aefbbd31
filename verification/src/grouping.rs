//! One entry per status.
//!
//! A status can contribute several times to one hit. Contributions with the
//! same name, kind and category are added up before they are kept.

use vstd::prelude::*;
use crate::arithmetic;
use crate::arithmetic::Arithmetic;
use crate::outcome;
use crate::protocol::{DamageModifierKind, DamageStatusContribution};

verus! {

/// What tells one status from another.
pub struct StatusKey {
    pub name: Seq<char>,
    pub kind: DamageModifierKind,
    pub category: i32,
}

/// The status that a contribution comes from.
pub open spec fn key_of<N>(contribution: DamageStatusContribution<N>) -> StatusKey {
    StatusKey {
        name: contribution.status_name@,
        kind: contribution.kind,
        category: contribution.category,
    }
}

/// The statuses that contributions come from.
pub open spec fn keys_of<N>(contributions: Seq<DamageStatusContribution<N>>) -> Seq<StatusKey> {
    contributions.map_values(|c: DamageStatusContribution<N>| key_of(c))
}

/// The statuses that occur among contributions, each once, in the order of
/// their first contribution.
pub open spec fn distinct_keys(keys: Seq<StatusKey>) -> Seq<StatusKey>
    decreases keys.len(),
{
    if keys.len() == 0 {
        Seq::empty()
    } else {
        let earlier = distinct_keys(keys.drop_last());
        if earlier.contains(keys.last()) {
            earlier
        } else {
            earlier.push(keys.last())
        }
    }
}

/// The outcomes of adding up what one status contributes, in order.
pub open spec fn status_total<A: Arithmetic>(
    contributions: Seq<DamageStatusContribution<A::Single>>,
    key: StatusKey,
) -> Set<A::Single>
    decreases contributions.len(),
{
    if contributions.len() == 0 {
        Set::empty()
    } else {
        let earlier = contributions.drop_last();
        let last = contributions.last();
        if key_of(last) != key {
            status_total::<A>(earlier, key)
        } else if keys_of(earlier).contains(key) {
            arithmetic::sum::<A>(status_total::<A>(earlier, key), outcome::exactly(last.value))
        } else {
            outcome::exactly(last.value)
        }
    }
}

/// Whether `groups` holds one entry for each status among `contributions`, in
/// the order of their first contribution, with the total of each.
pub open spec fn grouped<A: Arithmetic>(
    contributions: Seq<DamageStatusContribution<A::Single>>,
    groups: Seq<DamageStatusContribution<A::Single>>,
) -> bool {
    &&& keys_of(groups) == distinct_keys(keys_of(contributions))
    &&& forall|i: int|
        #![trigger groups[i]]
        0 <= i < groups.len() ==> status_total::<A>(contributions, key_of(groups[i])).contains(
            groups[i].value,
        )
}

/// The distinct statuses are those that occur, and no two are the same.
pub proof fn lemma_distinct_keys(keys: Seq<StatusKey>)
    ensures
        distinct_keys(keys).no_duplicates(),
        forall|key: StatusKey| #[trigger] distinct_keys(keys).contains(key) <==> keys.contains(key),
    decreases keys.len(),
{
    if keys.len() > 0 {
        let rest = keys.drop_last();
        let earlier = distinct_keys(rest);
        lemma_distinct_keys(rest);
        let all = distinct_keys(keys);
        assert forall|key: StatusKey| #[trigger] all.contains(key) <==> keys.contains(key) by {
            if keys.contains(key) {
                let i = choose|i: int| 0 <= i < keys.len() && keys[i] == key;
                if i < keys.len() - 1 {
                    assert(rest[i] == key);
                    assert(earlier.contains(key));
                    let j = choose|j: int| 0 <= j < earlier.len() && earlier[j] == key;
                    assert(all[j] == key);
                } else if !earlier.contains(key) {
                    assert(all[all.len() - 1] == key);
                }
            }
            if all.contains(key) {
                let j = choose|j: int| 0 <= j < all.len() && all[j] == key;
                if j < earlier.len() {
                    assert(earlier[j] == key);
                    assert(earlier.contains(key));
                    let i = choose|i: int| 0 <= i < rest.len() && rest[i] == key;
                    assert(keys[i] == key);
                } else {
                    assert(keys[keys.len() - 1] == key);
                }
            }
        }
    }
}

/// Whether two contributions come from the same status.
pub fn same_status<N>(
    a: &DamageStatusContribution<N>,
    b: &DamageStatusContribution<N>,
) -> (same: bool)
    ensures
        same == (key_of(*a) == key_of(*b)),
{
    a.status_name == b.status_name && a.kind == b.kind && a.category == b.category
}

/// The entry of the status that `contribution` comes from.
pub fn entry_of<N>(
    groups: &Vec<DamageStatusContribution<N>>,
    contribution: &DamageStatusContribution<N>,
) -> (entry: Option<usize>)
    ensures
        match entry {
            Some(i) => i < groups@.len() && key_of(groups@[i as int]) == key_of(*contribution)
                && forall|j: int|
                0 <= j < i ==> key_of(#[trigger] groups@[j]) != key_of(*contribution),
            None => !keys_of(groups@).contains(key_of(*contribution)),
        },
{
    let mut i: usize = 0;
    while i < groups.len()
        invariant
            i <= groups@.len(),
            forall|j: int| 0 <= j < i ==> key_of(#[trigger] groups@[j]) != key_of(*contribution),
        decreases groups@.len() - i,
    {
        if same_status(&groups[i], contribution) {
            return Some(i);
        }
        i = i + 1;
    }
    None
}

/// Adds contributions of the same status up.
pub fn group_contributions<A: Arithmetic>(
    contributions: Vec<DamageStatusContribution<A::Single>>,
) -> (groups: Vec<DamageStatusContribution<A::Single>>)
    ensures
        grouped::<A>(contributions@, groups@),
{
    let mut groups: Vec<DamageStatusContribution<A::Single>> = Vec::new();
    let mut i: usize = 0;
    proof {
        assert(keys_of(contributions@.take(0)) =~= Seq::empty());
        assert(keys_of(groups@) =~= Seq::empty());
    }
    while i < contributions.len()
        invariant
            i <= contributions@.len(),
            grouped::<A>(contributions@.take(i as int), groups@),
        decreases contributions@.len() - i,
    {
        let contribution = &contributions[i];
        let ghost key = key_of(*contribution);
        let ghost earlier = contributions@.take(i as int);
        let ghost now = contributions@.take(i + 1);
        let ghost before = groups@;
        proof {
            assert(now.drop_last() =~= earlier);
            assert(keys_of(now).drop_last() =~= keys_of(earlier));
            assert(keys_of(now).last() == key);
            lemma_distinct_keys(keys_of(earlier));
        }
        match entry_of(&groups, contribution) {
            Some(entry) => {
                assert(keys_of(groups@)[entry as int] == key);
                assert(keys_of(groups@).contains(key));
                let total = A::plus(groups[entry].value, contribution.value);
                assert(status_total::<A>(now, key).contains(total));
                groups[entry].value = total;
                proof {
                    assert(keys_of(groups@) =~= keys_of(before));
                    assert forall|j: int|
                        #![trigger groups@[j]]
                        0 <= j < groups@.len() implies status_total::<A>(
                        now,
                        key_of(groups@[j]),
                    ).contains(groups@[j].value) by {
                        assert(before[j] == before[j]);
                        if j != entry {
                            assert(keys_of(before)[j] != keys_of(before)[entry as int]);
                        }
                    }
                }
            },
            None => {
                groups.push(
                    DamageStatusContribution {
                        status_name: contribution.status_name.clone(),
                        kind: contribution.kind,
                        category: contribution.category,
                        value: contribution.value,
                    },
                );
                proof {
                    assert(keys_of(groups@) =~= keys_of(before).push(key));
                    assert forall|j: int|
                        #![trigger groups@[j]]
                        0 <= j < groups@.len() implies status_total::<A>(
                        now,
                        key_of(groups@[j]),
                    ).contains(groups@[j].value) by {
                        if j < before.len() {
                            assert(before[j] == groups@[j]);
                            assert(keys_of(before)[j] == key_of(before[j]));
                            assert(keys_of(before).contains(key_of(before[j])));
                        }
                    }
                }
            },
        }
        i = i + 1;
    }
    assert(contributions@.take(i as int) =~= contributions@);
    groups
}

/// Grouping keeps one entry for each status that contributes, and no other.
pub proof fn law_each_status_has_one_entry<A: Arithmetic>(
    contributions: Seq<DamageStatusContribution<A::Single>>,
    groups: Seq<DamageStatusContribution<A::Single>>,
    key: StatusKey,
)
    requires
        grouped::<A>(contributions, groups),
    ensures
        keys_of(groups).no_duplicates(),
        keys_of(groups).contains(key) <==> keys_of(contributions).contains(key),
{
    lemma_distinct_keys(keys_of(contributions));
}

/// Whether two lists hold the same contributions: equal names, kinds,
/// categories and values, in the same order.
pub open spec fn are_alike<N>(
    one: Seq<DamageStatusContribution<N>>,
    other: Seq<DamageStatusContribution<N>>,
) -> bool {
    &&& keys_of(one) == keys_of(other)
    &&& forall|i: int|
        #![trigger one[i]]
        #![trigger other[i]]
        0 <= i < one.len() ==> one[i].value == other[i].value
}

/// The same contributions of a status have the same total, and only one in an
/// arithmetic that gives the same answer each time.
proof fn lemma_totals_agree<A: Arithmetic>(
    one: Seq<DamageStatusContribution<A::Single>>,
    other: Seq<DamageStatusContribution<A::Single>>,
    key: StatusKey,
)
    requires
        arithmetic::is_repeatable::<A>(),
        are_alike(one, other),
    ensures
        status_total::<A>(one, key) == status_total::<A>(other, key),
        outcome::is_settled(status_total::<A>(one, key)),
    decreases one.len(),
{
    assert(keys_of(one).len() == keys_of(other).len());
    if one.len() > 0 {
        let earlier = one.drop_last();
        let others = other.drop_last();
        assert(keys_of(earlier) =~= keys_of(one).drop_last());
        assert(keys_of(others) =~= keys_of(other).drop_last());
        assert(keys_of(one).last() == key_of(one.last()));
        assert(keys_of(other).last() == key_of(other.last()));
        assert forall|i: int|
            #![trigger earlier[i]]
            #![trigger others[i]]
            0 <= i < earlier.len() implies earlier[i].value == others[i].value by {
            assert(one[i].value == other[i].value);
        }
        lemma_totals_agree::<A>(earlier, others, key);
        arithmetic::lemma_operations_settle::<A>();
    }
}

/// In an arithmetic that gives the same answer each time, the same
/// contributions have the same groups.
pub proof fn law_alike_contributions_group_alike<A: Arithmetic>(
    one: Seq<DamageStatusContribution<A::Single>>,
    other: Seq<DamageStatusContribution<A::Single>>,
    groups: Seq<DamageStatusContribution<A::Single>>,
    other_groups: Seq<DamageStatusContribution<A::Single>>,
)
    requires
        arithmetic::is_repeatable::<A>(),
        are_alike(one, other),
        grouped::<A>(one, groups),
        grouped::<A>(other, other_groups),
    ensures
        are_alike(groups, other_groups),
{
    assert(keys_of(groups).len() == keys_of(other_groups).len());
    assert forall|i: int|
        #![trigger groups[i]]
        #![trigger other_groups[i]]
        0 <= i < groups.len() implies groups[i].value == other_groups[i].value by {
        assert(keys_of(groups)[i] == key_of(groups[i]));
        assert(keys_of(other_groups)[i] == key_of(other_groups[i]));
        lemma_totals_agree::<A>(one, other, key_of(groups[i]));
    }
}

/// The sum of what the wanted statuses contribute, read as real numbers.
pub open spec fn sum_of<N>(
    num: spec_fn(N) -> real,
    contributions: Seq<DamageStatusContribution<N>>,
    wanted: spec_fn(StatusKey) -> bool,
) -> real
    decreases contributions.len(),
{
    if contributions.len() == 0 {
        0int as real
    } else {
        let earlier = sum_of(num, contributions.drop_last(), wanted);
        if wanted(key_of(contributions.last())) {
            earlier + num(contributions.last().value)
        } else {
            earlier
        }
    }
}

/// The test for one status.
pub open spec fn is_status(key: StatusKey) -> spec_fn(StatusKey) -> bool {
    |k: StatusKey| k == key
}

/// The test for a kind of status.
pub open spec fn of_kind(kind: DamageModifierKind) -> spec_fn(StatusKey) -> bool {
    |k: StatusKey| k.kind == kind
}

/// The test for a kind and category of status.
pub open spec fn of_category(kind: DamageModifierKind, category: i32) -> spec_fn(StatusKey) -> bool {
    |k: StatusKey| k.kind == kind && k.category == category
}

/// A status that does not occur contributes nothing.
pub proof fn lemma_absent_status<N>(
    num: spec_fn(N) -> real,
    contributions: Seq<DamageStatusContribution<N>>,
    key: StatusKey,
)
    requires
        !keys_of(contributions).contains(key),
    ensures
        sum_of(num, contributions, is_status(key)) == 0int as real,
    decreases contributions.len(),
{
    if contributions.len() > 0 {
        let earlier = contributions.drop_last();
        assert(keys_of(contributions)[contributions.len() - 1] == key_of(contributions.last()));
        assert forall|i: int| 0 <= i < earlier.len() implies keys_of(earlier)[i] != key by {
            assert(keys_of(contributions)[i] == keys_of(earlier)[i]);
        }
        lemma_absent_status(num, earlier, key);
    }
}

/// In exact arithmetic the total of a status is the sum of its contributions.
pub proof fn lemma_exact_status_total<A: Arithmetic>(
    num: spec_fn(A::Single) -> real,
    wide: spec_fn(A::Double) -> real,
    contributions: Seq<DamageStatusContribution<A::Single>>,
    key: StatusKey,
    total: A::Single,
)
    requires
        arithmetic::is_exact::<A>(num, wide),
        status_total::<A>(contributions, key).contains(total),
    ensures
        num(total) == sum_of(num, contributions, is_status(key)),
    decreases contributions.len(),
{
    if contributions.len() > 0 {
        let earlier = contributions.drop_last();
        let last = contributions.last();
        if key_of(last) != key {
            lemma_exact_status_total::<A>(num, wide, earlier, key, total);
        } else if keys_of(earlier).contains(key) {
            let (before, value) = choose|before: A::Single, value: A::Single|
                status_total::<A>(earlier, key).contains(before) && value == last.value
                    && #[trigger] call_ensures(A::plus, (before, value), total);
            lemma_exact_status_total::<A>(num, wide, earlier, key, before);
        } else {
            lemma_absent_status(num, earlier, key);
        }
    }
}

/// The sum of what the wanted ones among the named statuses contribute.
spec fn sum_over<N>(
    num: spec_fn(N) -> real,
    contributions: Seq<DamageStatusContribution<N>>,
    keys: Seq<StatusKey>,
    wanted: spec_fn(StatusKey) -> bool,
) -> real
    decreases keys.len(),
{
    if keys.len() == 0 {
        0int as real
    } else {
        let earlier = sum_over(num, contributions, keys.drop_last(), wanted);
        if wanted(keys.last()) {
            earlier + sum_of(num, contributions, is_status(keys.last()))
        } else {
            earlier
        }
    }
}

/// One more contribution counts once among distinct statuses, if its own is
/// one of them.
proof fn lemma_one_more<N>(
    num: spec_fn(N) -> real,
    contributions: Seq<DamageStatusContribution<N>>,
    keys: Seq<StatusKey>,
    wanted: spec_fn(StatusKey) -> bool,
)
    requires
        contributions.len() > 0,
        keys.no_duplicates(),
    ensures
        ({
            let last = contributions.last();
            let earlier = contributions.drop_last();
            sum_over(num, contributions, keys, wanted) == sum_over(num, earlier, keys, wanted) + (
            if keys.contains(key_of(last)) && wanted(key_of(last)) {
                num(last.value)
            } else {
                0int as real
            })
        }),
    decreases keys.len(),
{
    if keys.len() > 0 {
        let fewer = keys.drop_last();
        let key = key_of(contributions.last());
        assert(fewer.no_duplicates()) by {
            assert forall|i: int, j: int|
                0 <= i < fewer.len() && 0 <= j < fewer.len() && i != j implies fewer[i]
                != fewer[j] by {
                assert(keys[i] != keys[j]);
            }
        }
        lemma_one_more(num, contributions, fewer, wanted);
        assert(keys[keys.len() - 1] == keys.last());
        if keys.last() == key {
            if fewer.contains(key) {
                let i = fewer.index_of(key);
                assert(keys[i] != keys[keys.len() - 1]);
            }
        } else if keys.contains(key) {
            let i = keys.index_of(key);
            assert(fewer[i] == key);
        } else if fewer.contains(key) {
            let i = fewer.index_of(key);
            assert(keys[i] == key);
        }
    }
}

/// All contributions of the wanted statuses are those of the distinct ones
/// among them.
proof fn lemma_sum_over_distinct<N>(
    num: spec_fn(N) -> real,
    contributions: Seq<DamageStatusContribution<N>>,
    wanted: spec_fn(StatusKey) -> bool,
)
    ensures
        sum_over(num, contributions, distinct_keys(keys_of(contributions)), wanted) == sum_of(
            num,
            contributions,
            wanted,
        ),
    decreases contributions.len(),
{
    if contributions.len() > 0 {
        let earlier = contributions.drop_last();
        let key = key_of(contributions.last());
        let known = distinct_keys(keys_of(earlier));
        let all = distinct_keys(keys_of(contributions));
        lemma_sum_over_distinct(num, earlier, wanted);
        lemma_distinct_keys(keys_of(earlier));
        assert(keys_of(contributions).drop_last() =~= keys_of(earlier));
        assert(keys_of(contributions).last() == key);
        lemma_one_more(num, contributions, known, wanted);
        if !known.contains(key) {
            assert(all == known.push(key));
            assert(all.drop_last() =~= known);
            lemma_absent_status(num, earlier, key);
        }
    }
}

/// Grouping loses nothing and counts nothing twice: whichever statuses are
/// looked at, their groups add up to what they contributed.
pub proof fn law_groups_add_up_to_their_contributions<A: Arithmetic>(
    num: spec_fn(A::Single) -> real,
    wide: spec_fn(A::Double) -> real,
    contributions: Seq<DamageStatusContribution<A::Single>>,
    groups: Seq<DamageStatusContribution<A::Single>>,
    wanted: spec_fn(StatusKey) -> bool,
)
    requires
        arithmetic::is_exact::<A>(num, wide),
        grouped::<A>(contributions, groups),
    ensures
        sum_of(num, groups, wanted) == sum_of(num, contributions, wanted),
{
    lemma_sum_over_distinct(num, contributions, wanted);
    lemma_groups::<A>(num, wide, contributions, groups, wanted);
}

/// Groups with the totals of distinct statuses add up to those totals.
proof fn lemma_groups<A: Arithmetic>(
    num: spec_fn(A::Single) -> real,
    wide: spec_fn(A::Double) -> real,
    contributions: Seq<DamageStatusContribution<A::Single>>,
    groups: Seq<DamageStatusContribution<A::Single>>,
    wanted: spec_fn(StatusKey) -> bool,
)
    requires
        arithmetic::is_exact::<A>(num, wide),
        forall|i: int|
            #![trigger groups[i]]
            0 <= i < groups.len() ==> status_total::<A>(contributions, key_of(groups[i])).contains(
                groups[i].value,
            ),
    ensures
        sum_of(num, groups, wanted) == sum_over(num, contributions, keys_of(groups), wanted),
    decreases groups.len(),
{
    if groups.len() > 0 {
        let fewer = groups.drop_last();
        assert(keys_of(groups).drop_last() =~= keys_of(fewer));
        assert(keys_of(groups).last() == key_of(groups.last()));
        assert forall|i: int|
            #![trigger fewer[i]]
            0 <= i < fewer.len() implies status_total::<A>(
            contributions,
            key_of(fewer[i]),
        ).contains(fewer[i].value) by {
            assert(fewer[i] == groups[i]);
        }
        lemma_groups::<A>(num, wide, contributions, fewer, wanted);
        let last = groups[groups.len() - 1];
        lemma_exact_status_total::<A>(num, wide, contributions, key_of(last), last.value);
    }
}

/// Among distinct statuses, what one status contributes is its one entry.
pub proof fn lemma_sum_of_one_entry<N>(
    num: spec_fn(N) -> real,
    entries: Seq<DamageStatusContribution<N>>,
    i: int,
)
    requires
        keys_of(entries).no_duplicates(),
        0 <= i < entries.len(),
    ensures
        sum_of(num, entries, is_status(key_of(entries[i]))) == num(entries[i].value),
    decreases entries.len(),
{
    let fewer = entries.drop_last();
    let key = key_of(entries[i]);
    assert(keys_of(fewer).no_duplicates()) by {
        assert forall|j: int, k: int|
            0 <= j < fewer.len() && 0 <= k < fewer.len() && j != k implies keys_of(fewer)[j]
            != keys_of(fewer)[k] by {
            assert(keys_of(entries)[j] != keys_of(entries)[k]);
        }
    }
    if i == entries.len() - 1 {
        assert forall|j: int| 0 <= j < fewer.len() implies keys_of(fewer)[j] != key by {
            assert(keys_of(entries)[j] != keys_of(entries)[i]);
        }
        lemma_absent_status(num, fewer, key);
    } else {
        assert(keys_of(entries)[i] != keys_of(entries)[entries.len() - 1]);
        assert(fewer[i] == entries[i]);
        lemma_sum_of_one_entry(num, fewer, i);
    }
}

/// Contributions come from one status if they have its name, its kind and its
/// category, whatever their values.
pub proof fn law_a_status_is_told_by_name_kind_and_category<N>(
    one: DamageStatusContribution<N>,
    other: DamageStatusContribution<N>,
)
    ensures
        key_of(one) == key_of(other) <==> one.status_name@ == other.status_name@ && one.kind
            == other.kind && one.category == other.category,
        key_of(one).name == one.status_name@,
        key_of(one).kind == one.kind,
        key_of(one).category == one.category,
{
}

/// Statuses stand in the order in which they first contribute: more
/// contributions may add statuses, but only behind those that there are.
pub proof fn law_statuses_stand_in_the_order_of_their_first_contribution(
    keys: Seq<StatusKey>,
    more: Seq<StatusKey>,
)
    ensures
        distinct_keys(keys).is_prefix_of(distinct_keys(keys + more)),
        keys.no_duplicates() ==> distinct_keys(keys) == keys,
    decreases more.len() + keys.len(),
{
    if more.len() > 0 {
        let fewer = more.drop_last();
        law_statuses_stand_in_the_order_of_their_first_contribution(keys, fewer);
        assert((keys + more).drop_last() =~= keys + fewer);
        assert(distinct_keys(keys + fewer).is_prefix_of(distinct_keys(keys + more)));
    } else {
        assert(keys + more =~= keys);
        if keys.len() > 0 && keys.no_duplicates() {
            let fewer = keys.drop_last();
            assert(fewer.no_duplicates());
            law_statuses_stand_in_the_order_of_their_first_contribution(fewer, more);
            assert(!fewer.contains(keys.last()));
            assert(fewer.push(keys.last()) =~= keys);
        }
    }
}

} // verus!
