//! The damage modifiers of a skill over all its hits.

use vstd::prelude::*;
use crate::arithmetic;
use crate::arithmetic::{finite_or_default, Arithmetic};
use crate::grouping;
use crate::outcome;
use crate::protocol;
use crate::protocol::{DamageDetails, DamageModifierKind};
use crate::skill_state::multiplier;
use crate::skill_state::multiplier::{
    grouped_statuses, is_capped_hit, multiplier_components, normalization_base, positive_or_zero, resolved_amplify_multiplier, resolved_attack_defense_multiplier, resolved_critical_rate, status_multiplier_contributions, MultiplierComponents
};

verus! {

/// The average contribution of one status to a skill.
#[derive(Debug)]
pub struct DamageStatusContribution<N> {
    pub status_name: String,
    pub kind: DamageModifierKind,
    pub category: i32,
    /// Average contribution across every captured hit, including hits where
    /// this status was not active.
    pub average_value: N,
    /// Number of captured hits where this status was active.
    pub active_hits: u32,
    /// Share of the skill's effective multiplier attributed to this status.
    /// Shares are normalized by the same clamped damage base as the headline
    /// effective multiplier, rather than averaged per hit.
    pub multiplier_contribution: N,
}

/// The damage modifiers of a skill, averaged over its captured hits.
pub struct AverageDamageDetails<A: Arithmetic> {
    pub hits: u32,
    pub total_damage: u64,
    pub supplementary_damage: u64,
    /// Sum of every hit's normalization base.
    pub normalization_damage: A::Double,
    pub effective_multiplier: A::Single,
    pub recognized_multiplier: A::Single,
    pub damage_limit_contribution: A::Single,
    pub amplify_contribution: A::Single,
    pub attack_defense_contribution: A::Single,
    pub supplementary_contribution: A::Single,
    pub unattributed_contribution: A::Single,
    pub average_damage_limit_multiplier: A::Single,
    pub average_amplify_multiplier: A::Single,
    pub average_attack_defense_multiplier: A::Single,
    pub average_critical_rate: A::Single,
    pub average_base_damage: A::Single,
    pub average_damage_cap: A::Single,
    pub capped_hits: u32,
    pub statuses: Vec<DamageStatusContribution<A::Single>>,
}

/// The status that an entry is about.
pub open spec fn entry_key<N>(entry: DamageStatusContribution<N>) -> grouping::StatusKey {
    grouping::StatusKey { name: entry.status_name@, kind: entry.kind, category: entry.category }
}

/// The statuses that entries are about.
pub open spec fn entry_keys<N>(entries: Seq<DamageStatusContribution<N>>) -> Seq<
    grouping::StatusKey,
> {
    entries.map_values(|entry: DamageStatusContribution<N>| entry_key(entry))
}

impl<A: Arithmetic> AverageDamageDetails<A> {
    /// No status has two entries, each has been active in some hit, and nothing
    /// has happened in more hits than there were.
    pub open spec fn wf(self) -> bool {
        &&& entry_keys(self.statuses@).no_duplicates()
        &&& self.capped_hits <= self.hits
        &&& forall|i: int|
            0 <= i < self.statuses@.len() ==> 1 <= (#[trigger] self.statuses@[i]).active_hits
                <= self.hits
    }

    /// Whether the modifiers are well formed.
    pub fn is_well_formed(&self) -> (result: bool)
        ensures
            result == self.wf(),
    {
        if self.capped_hits > self.hits {
            return false;
        }
        let ghost keys = entry_keys(self.statuses@);
        let mut i: usize = 0;
        while i < self.statuses.len()
            invariant
                i <= self.statuses@.len(),
                keys == entry_keys(self.statuses@),
                self.capped_hits <= self.hits,
                forall|j: int|
                    0 <= j < i ==> 1 <= (#[trigger] self.statuses@[j]).active_hits <= self.hits,
                forall|j: int, k: int| 0 <= j < k < i ==> keys[j] != keys[k],
            decreases self.statuses@.len() - i,
        {
            let entry = &self.statuses[i];
            if entry.active_hits < 1 || entry.active_hits > self.hits {
                return false;
            }
            let mut j: usize = 0;
            while j < i
                invariant
                    j <= i < self.statuses@.len(),
                    *entry == self.statuses@[i as int],
                    keys == entry_keys(self.statuses@),
                    forall|k: int| 0 <= k < j ==> #[trigger] keys[k] != keys[i as int],
                decreases i - j,
            {
                let earlier = &self.statuses[j];
                if earlier.status_name == entry.status_name && earlier.kind == entry.kind
                    && earlier.category == entry.category {
                    assert(keys[j as int] == keys[i as int]);
                    return false;
                }
                assert(keys[j as int] != keys[i as int]);
                j = j + 1;
            }
            i = i + 1;
        }
        true
    }
}

/// Whether `entry` is that of a status in the first hit in which it is active.
pub open spec fn entry_started<N>(
    group: protocol::DamageStatusContribution<N>,
    share: protocol::DamageStatusContribution<N>,
    entry: DamageStatusContribution<N>,
) -> bool {
    &&& entry_key(entry) == grouping::key_of(group)
    &&& entry.average_value == group.value
    &&& entry.active_hits == 1
    &&& entry.multiplier_contribution == share.value
}

/// How many hits a judgment of one hit counts for.
pub open spec fn counted(judgment: bool) -> u32 {
    if judgment {
        1
    } else {
        0
    }
}

/// The outcomes of taking a hit's cap for averaging.
pub open spec fn cap_of<A: Arithmetic>(details: DamageDetails<A::Single>) -> Set<A::Single> {
    outcome::and_then(
        arithmetic::of_i32::<A>(details.damage_cap),
        |cap: A::Single| multiplier::positive_part::<A>(cap),
    )
}

/// Whether `average` is that of one hit with these parts, groups and shares.
pub open spec fn started_from<A: Arithmetic>(
    details: DamageDetails<A::Single>,
    damage: u64,
    base_damage: A::Single,
    parts: MultiplierComponents<A::Single>,
    groups: Seq<protocol::DamageStatusContribution<A::Single>>,
    shares: Seq<protocol::DamageStatusContribution<A::Single>>,
    average: AverageDamageDetails<A>,
) -> bool {
    &&& average.hits == 1
    &&& average.total_damage == damage
    &&& average.supplementary_damage == 0
    &&& arithmetic::widened::<A>(outcome::exactly(base_damage)).contains(
        average.normalization_damage,
    )
    &&& average.effective_multiplier == parts.effective
    &&& average.recognized_multiplier == parts.recognized
    &&& average.damage_limit_contribution == parts.damage_limit
    &&& average.amplify_contribution == parts.amplify
    &&& average.attack_defense_contribution == parts.attack_defense
    &&& arithmetic::zero::<A>().contains(average.supplementary_contribution)
    &&& average.unattributed_contribution == parts.unattributed
    &&& arithmetic::finite_or::<A>(
        outcome::exactly(details.damage_limit_multiplier),
        arithmetic::one::<A>(),
    ).contains(average.average_damage_limit_multiplier)
    &&& multiplier::amplify_of::<A>(details).contains(average.average_amplify_multiplier)
    &&& multiplier::attack_defense_of::<A>(details).contains(average.average_attack_defense_multiplier)
    &&& multiplier::critical_rate_of::<A>(details).contains(average.average_critical_rate)
    &&& average.average_base_damage == base_damage
    &&& cap_of::<A>(details).contains(average.average_damage_cap)
    &&& exists|judgment: bool| #[trigger]
        multiplier::capped::<A>(details, base_damage).contains(judgment) && average.capped_hits == counted(
            judgment,
        )
    &&& average.statuses@.len() == groups.len()
    &&& shares.len() == groups.len()
    &&& forall|i: int|
        0 <= i < groups.len() ==> #[trigger] entry_started(
            groups[i],
            shares[i],
            average.statuses@[i],
        )
}

/// Whether `average` is that of one hit.
pub open spec fn started<A: Arithmetic>(
    details: DamageDetails<A::Single>,
    damage: u64,
    average: AverageDamageDetails<A>,
) -> bool {
    exists|
        base_damage: A::Single,
        parts: MultiplierComponents<A::Single>,
        groups: Seq<protocol::DamageStatusContribution<A::Single>>,
        shares: Seq<protocol::DamageStatusContribution<A::Single>>,
    |
        multiplier::base_of::<A>(details).contains(base_damage) && multiplier::parts_of::<A>(
            details,
            damage,
            base_damage,
        ).contains(parts) && multiplier::signed_groups::<A>(details.statuses@, groups) && multiplier::shares_of::<A>(
            details,
            parts.attack_defense,
            shares,
        ) && #[trigger] started_from::<A>(
            details,
            damage,
            base_damage,
            parts,
            groups,
            shares,
            average,
        )
}

/// Counts a judgment of one hit.
fn count_judgment(judgment: bool) -> (count: u32)
    ensures
        count == counted(judgment),
{
    if judgment {
        1
    } else {
        0
    }
}

/// Takes a hit's cap for averaging.
fn cap_for_average<A: Arithmetic>(details: &DamageDetails<A::Single>) -> (cap: A::Single)
    ensures
        cap_of::<A>(*details).contains(cap),
{
    let cap = A::from_i32(details.damage_cap);
    assert(arithmetic::of_i32::<A>(details.damage_cap).contains(cap));
    positive_or_zero::<A>(cap)
}

impl<A: Arithmetic> AverageDamageDetails<A> {
    /// The modifiers of one hit.
    pub fn new(details: &DamageDetails<A::Single>, damage: u64) -> (average: Self)
        ensures
            started::<A>(*details, damage, average),
            average.wf(),
    {
        let base_damage = normalization_base::<A>(details);
        let parts = multiplier_components::<A>(details, damage, base_damage);
        let shares = status_multiplier_contributions::<A>(details, parts.attack_defense);
        let groups = grouped_statuses::<A>(details);
        proof {
            grouping::lemma_distinct_keys(grouping::keys_of(details.statuses@));
            assert(grouping::keys_of(groups@).len() == groups@.len());
            assert(grouping::keys_of(shares@).len() == shares@.len());
        }
        let mut statuses: Vec<DamageStatusContribution<A::Single>> = Vec::new();
        let mut i: usize = 0;
        while i < groups.len()
            invariant
                i <= groups@.len(),
                groups@.len() == shares@.len(),
                statuses@.len() == i,
                forall|j: int|
                    0 <= j < i ==> #[trigger] entry_started(groups@[j], shares@[j], statuses@[j]),
            decreases groups@.len() - i,
        {
            let group = &groups[i];
            let ghost before = statuses@;
            statuses.push(
                DamageStatusContribution {
                    status_name: group.status_name.clone(),
                    kind: group.kind,
                    category: group.category,
                    average_value: group.value,
                    active_hits: 1,
                    multiplier_contribution: shares[i].value,
                },
            );
            assert forall|j: int| 0 <= j < i + 1 implies #[trigger] entry_started(
                groups@[j],
                shares@[j],
                statuses@[j],
            ) by {
                if j < i {
                    assert(entry_started(groups@[j], shares@[j], before[j]));
                }
            }
            i = i + 1;
        }
        proof {
            assert forall|j: int| 0 <= j < statuses@.len() implies entry_keys(statuses@)[j]
                == grouping::keys_of(groups@)[j] by {
                assert(entry_started(groups@[j], shares@[j], statuses@[j]));
            }
            assert forall|j: int| 0 <= j < statuses@.len() implies (
            #[trigger] statuses@[j]).active_hits == 1 by {
                assert(entry_started(groups@[j], shares@[j], statuses@[j]));
            }
            assert(entry_keys(statuses@) =~= grouping::keys_of(groups@));
        }
        let judgment = is_capped_hit::<A>(details, base_damage);
        assert(multiplier::capped::<A>(*details, base_damage).contains(judgment));
        let average = AverageDamageDetails {
            hits: 1,
            total_damage: damage,
            supplementary_damage: 0,
            normalization_damage: A::widened(base_damage),
            effective_multiplier: parts.effective,
            recognized_multiplier: parts.recognized,
            damage_limit_contribution: parts.damage_limit,
            amplify_contribution: parts.amplify,
            attack_defense_contribution: parts.attack_defense,
            supplementary_contribution: A::zero(),
            unattributed_contribution: parts.unattributed,
            average_damage_limit_multiplier: finite_or_default::<A>(
                details.damage_limit_multiplier,
                A::one(),
            ),
            average_amplify_multiplier: resolved_amplify_multiplier::<A>(details),
            average_attack_defense_multiplier: resolved_attack_defense_multiplier::<A>(details),
            average_critical_rate: resolved_critical_rate::<A>(details),
            average_base_damage: base_damage,
            average_damage_cap: cap_for_average::<A>(details),
            capped_hits: count_judgment(judgment),
            statuses,
        };
        assert(started_from::<A>(
            *details,
            damage,
            base_damage,
            parts,
            groups@,
            shares@,
            average,
        ));
        average
    }
}

/// The outcomes of moving an average towards one more value.
pub open spec fn averaged<A: Arithmetic>(
    average: A::Single,
    value: Set<A::Single>,
    hits: A::Single,
) -> Set<A::Single> {
    arithmetic::sum::<A>(
        outcome::exactly(average),
        arithmetic::quotient::<A>(
            arithmetic::difference::<A>(value, outcome::exactly(average)),
            outcome::exactly(hits),
        ),
    )
}

/// Moves an average towards one more value.
pub fn update_average<A: Arithmetic>(average: A::Single, value: A::Single, hits: A::Single) -> (result:
    A::Single)
    ensures
        forall|values: Set<A::Single>|
            values.contains(value) ==> #[trigger] averaged::<A>(average, values, hits).contains(
                result,
            ),
{
    A::plus(average, A::divided(A::minus(value, average), hits))
}

/// The outcomes of moving a weighted average towards one more value.
pub open spec fn weighted<A: Arithmetic>(
    average: A::Single,
    value: A::Single,
    weight: A::Single,
    previous_weight: A::Double,
    total_weight: A::Double,
) -> Set<A::Single> {
    outcome::branch(
        arithmetic::wide_at_most::<A>(
            outcome::exactly(total_weight),
            arithmetic::wide_zero::<A>(),
        ),
        arithmetic::zero::<A>(),
        arithmetic::quotient::<A>(
            arithmetic::narrowed::<A>(
                arithmetic::wide_sum::<A>(
                    arithmetic::wide_product::<A>(
                        arithmetic::widened::<A>(outcome::exactly(average)),
                        outcome::exactly(previous_weight),
                    ),
                    arithmetic::wide_product::<A>(
                        arithmetic::widened::<A>(outcome::exactly(value)),
                        arithmetic::widened::<A>(outcome::exactly(weight)),
                    ),
                ),
            ),
            arithmetic::narrowed::<A>(outcome::exactly(total_weight)),
        ),
    )
}

/// Moves a weighted average towards one more value.
pub fn weighted_update<A: Arithmetic>(
    average: A::Single,
    value: A::Single,
    weight: A::Single,
    previous_weight: A::Double,
    total_weight: A::Double,
) -> (result: A::Single)
    ensures
        weighted::<A>(average, value, weight, previous_weight, total_weight).contains(result),
{
    let weightless = A::wide_at_most(total_weight, A::wide_zero());
    assert(arithmetic::wide_at_most::<A>(
        outcome::exactly(total_weight),
        arithmetic::wide_zero::<A>(),
    ).contains(weightless));
    if weightless {
        return A::zero();
    }
    A::divided(
        A::narrowed(
            A::wide_plus(
                A::wide_times(A::widened(average), previous_weight),
                A::wide_times(A::widened(value), A::widened(weight)),
            ),
        ),
        A::narrowed(total_weight),
    )
}

/// The outcomes of dividing a figure by the normalization damage, where that is positive.
pub open spec fn normalized<A: Arithmetic>(
    figure: Set<A::Double>,
    normalization: A::Double,
) -> Set<A::Single> {
    outcome::branch(
        arithmetic::wide_exceeds::<A>(
            outcome::exactly(normalization),
            arithmetic::wide_zero::<A>(),
        ),
        arithmetic::narrowed::<A>(
            arithmetic::wide_quotient::<A>(figure, outcome::exactly(normalization)),
        ),
        arithmetic::zero::<A>(),
    )
}

/// Divides a figure by the normalization damage, where that is positive.
fn normalize<A: Arithmetic>(figure: A::Double, normalization: A::Double) -> (result: A::Single)
    ensures
        forall|figures: Set<A::Double>|
            figures.contains(figure) ==> #[trigger] normalized::<A>(
                figures,
                normalization,
            ).contains(result),
{
    let positive = A::wide_above(normalization, A::wide_zero());
    assert(arithmetic::wide_exceeds::<A>(
        outcome::exactly(normalization),
        arithmetic::wide_zero::<A>(),
    ).contains(positive));
    if positive {
        A::narrowed(A::wide_divided(figure, normalization))
    } else {
        A::zero()
    }
}

/// The outcomes of weighing the share of a status in one hit among all hits.
pub open spec fn portion<A: Arithmetic>(
    share: A::Single,
    base_damage: A::Single,
    normalization: A::Double,
) -> Set<A::Single> {
    outcome::branch(
        arithmetic::wide_exceeds::<A>(
            outcome::exactly(normalization),
            arithmetic::wide_zero::<A>(),
        ),
        arithmetic::quotient::<A>(
            arithmetic::product::<A>(outcome::exactly(share), outcome::exactly(base_damage)),
            arithmetic::narrowed::<A>(outcome::exactly(normalization)),
        ),
        arithmetic::zero::<A>(),
    )
}

/// Weighs the share of a status in one hit among all hits.
fn portion_of_share<A: Arithmetic>(
    share: A::Single,
    base_damage: A::Single,
    normalization: A::Double,
) -> (result: A::Single)
    ensures
        portion::<A>(share, base_damage, normalization).contains(result),
{
    let positive = A::wide_above(normalization, A::wide_zero());
    assert(arithmetic::wide_exceeds::<A>(
        outcome::exactly(normalization),
        arithmetic::wide_zero::<A>(),
    ).contains(positive));
    if positive {
        A::divided(A::times(share, base_damage), A::narrowed(normalization))
    } else {
        A::zero()
    }
}

/// The outcomes of adding the parts of a multiplier up.
pub open spec fn recognized<A: Arithmetic>(
    damage_limit: A::Single,
    amplify: A::Single,
    attack_defense: A::Single,
    supplementary: A::Single,
) -> Set<A::Single> {
    arithmetic::sum::<A>(
        arithmetic::sum::<A>(
            arithmetic::sum::<A>(
                arithmetic::sum::<A>(arithmetic::one::<A>(), outcome::exactly(damage_limit)),
                outcome::exactly(amplify),
            ),
            outcome::exactly(attack_defense),
        ),
        outcome::exactly(supplementary),
    )
}

/// How one more hit bears on the entries of the statuses.
#[derive(Clone, Copy, Debug)]
pub struct HitWeights<N, W> {
    /// The number of hits.
    pub hits: N,
    /// What the value of an earlier entry is multiplied by.
    pub previous_weight: N,
    /// What the share of an earlier entry is multiplied by.
    pub normalization_weight: N,
    pub base_damage: N,
    pub normalization: W,
}

/// The outcomes of aging the value of an entry.
pub open spec fn aged_value<A: Arithmetic>(
    entry: DamageStatusContribution<A::Single>,
    weights: HitWeights<A::Single, A::Double>,
) -> Set<A::Single> {
    arithmetic::product::<A>(
        outcome::exactly(entry.average_value),
        outcome::exactly(weights.previous_weight),
    )
}

/// The outcomes of aging the share of an entry.
pub open spec fn aged_share<A: Arithmetic>(
    entry: DamageStatusContribution<A::Single>,
    weights: HitWeights<A::Single, A::Double>,
) -> Set<A::Single> {
    arithmetic::product::<A>(
        outcome::exactly(entry.multiplier_contribution),
        outcome::exactly(weights.normalization_weight),
    )
}

/// The outcomes of averaging the value of a status over all hits.
pub open spec fn spread_value<A: Arithmetic>(
    group: protocol::DamageStatusContribution<A::Single>,
    weights: HitWeights<A::Single, A::Double>,
) -> Set<A::Single> {
    arithmetic::quotient::<A>(outcome::exactly(group.value), outcome::exactly(weights.hits))
}

/// Whether `after` is the entry of a status that is not active in one more hit.
pub open spec fn entry_aged<A: Arithmetic>(
    before: DamageStatusContribution<A::Single>,
    weights: HitWeights<A::Single, A::Double>,
    after: DamageStatusContribution<A::Single>,
) -> bool {
    &&& entry_key(after) == entry_key(before)
    &&& aged_value::<A>(before, weights).contains(after.average_value)
    &&& after.active_hits == before.active_hits
    &&& aged_share::<A>(before, weights).contains(after.multiplier_contribution)
}

/// Whether `after` is the entry of a status that is active in one more hit.
pub open spec fn entry_continued<A: Arithmetic>(
    before: DamageStatusContribution<A::Single>,
    group: protocol::DamageStatusContribution<A::Single>,
    share: protocol::DamageStatusContribution<A::Single>,
    weights: HitWeights<A::Single, A::Double>,
    after: DamageStatusContribution<A::Single>,
) -> bool {
    &&& entry_key(after) == entry_key(before)
    &&& arithmetic::sum::<A>(
        aged_value::<A>(before, weights),
        spread_value::<A>(group, weights),
    ).contains(after.average_value)
    &&& after.active_hits == before.active_hits + 1
    &&& arithmetic::sum::<A>(
        aged_share::<A>(before, weights),
        portion::<A>(share.value, weights.base_damage, weights.normalization),
    ).contains(after.multiplier_contribution)
}

/// Whether `entry` is that of a status which is active for the first time.
pub open spec fn entry_begun<A: Arithmetic>(
    group: protocol::DamageStatusContribution<A::Single>,
    share: protocol::DamageStatusContribution<A::Single>,
    weights: HitWeights<A::Single, A::Double>,
    entry: DamageStatusContribution<A::Single>,
) -> bool {
    &&& entry_key(entry) == grouping::key_of(group)
    &&& spread_value::<A>(group, weights).contains(entry.average_value)
    &&& entry.active_hits == 1
    &&& portion::<A>(share.value, weights.base_damage, weights.normalization).contains(
        entry.multiplier_contribution,
    )
}

/// The indices of those of the first `count` statuses that are not `known`.
pub open spec fn unknown_indices(
    known: Seq<grouping::StatusKey>,
    keys: Seq<grouping::StatusKey>,
    count: nat,
) -> Seq<int>
    decreases count,
{
    if count == 0 {
        Seq::empty()
    } else {
        let earlier = unknown_indices(known, keys, (count - 1) as nat);
        if known.contains(keys[count - 1]) {
            earlier
        } else {
            earlier.push(count - 1)
        }
    }
}

/// Whether the entry at index `i` has taken account of the first `count` groups.
pub open spec fn entry_merged<A: Arithmetic>(
    before: Seq<DamageStatusContribution<A::Single>>,
    groups: Seq<protocol::DamageStatusContribution<A::Single>>,
    shares: Seq<protocol::DamageStatusContribution<A::Single>>,
    count: int,
    weights: HitWeights<A::Single, A::Double>,
    after: Seq<DamageStatusContribution<A::Single>>,
    i: int,
) -> bool {
    if exists|g: int|
        0 <= g < count && grouping::key_of(#[trigger] groups[g]) == entry_key(before[i]) {
        exists|g: int|
            0 <= g < count && grouping::key_of(groups[g]) == entry_key(before[i])
                && #[trigger] entry_continued::<A>(
                before[i],
                groups[g],
                shares[g],
                weights,
                after[i],
            )
    } else {
        entry_aged::<A>(before[i], weights, after[i])
    }
}

/// Whether the entries have taken account of the first `count` groups of one
/// more hit: earlier entries age, those of active statuses gain, and each
/// status that had no entry gets one at the end.
pub open spec fn entries_merged<A: Arithmetic>(
    before: Seq<DamageStatusContribution<A::Single>>,
    groups: Seq<protocol::DamageStatusContribution<A::Single>>,
    shares: Seq<protocol::DamageStatusContribution<A::Single>>,
    count: nat,
    weights: HitWeights<A::Single, A::Double>,
    after: Seq<DamageStatusContribution<A::Single>>,
) -> bool {
    let fresh = unknown_indices(entry_keys(before), grouping::keys_of(groups), count);
    &&& after.len() == before.len() + fresh.len()
    &&& forall|i: int|
        0 <= i < before.len() ==> #[trigger] entry_merged::<A>(
            before,
            groups,
            shares,
            count as int,
            weights,
            after,
            i,
        )
    &&& forall|k: int|
        #![trigger fresh[k]]
        0 <= k < fresh.len() ==> entry_begun::<A>(
            groups[fresh[k]],
            shares[fresh[k]],
            weights,
            after[before.len() + k],
        )
}

/// Ages every entry for one more hit.
fn age_entries<A: Arithmetic>(
    entries: &mut Vec<DamageStatusContribution<A::Single>>,
    weights: &HitWeights<A::Single, A::Double>,
)
    ensures
        final(entries)@.len() == old(entries)@.len(),
        forall|i: int|
            0 <= i < old(entries)@.len() ==> #[trigger] entry_aged::<A>(
                old(entries)@[i],
                *weights,
                final(entries)@[i],
            ),
{
    let ghost before = entries@;
    let mut i: usize = 0;
    while i < entries.len()
        invariant
            i <= entries@.len(),
            entries@.len() == before.len(),
            forall|j: int|
                0 <= j < i ==> #[trigger] entry_aged::<A>(before[j], *weights, entries@[j]),
            forall|j: int| i <= j < before.len() ==> #[trigger] entries@[j] == before[j],
        decreases entries@.len() - i,
    {
        let ghost now = entries@;
        let value = A::times(entries[i].average_value, weights.previous_weight);
        let share = A::times(entries[i].multiplier_contribution, weights.normalization_weight);
        entries[i].average_value = value;
        entries[i].multiplier_contribution = share;
        assert forall|j: int| 0 <= j < i + 1 implies #[trigger] entry_aged::<A>(
            before[j],
            *weights,
            entries@[j],
        ) by {
            if j < i {
                assert(entry_aged::<A>(before[j], *weights, now[j]));
            } else {
                assert(now[j] == before[j]);
            }
        }
        i = i + 1;
    }
}

/// The entry of the status that `group` is about.
fn entry_index<N>(
    entries: &Vec<DamageStatusContribution<N>>,
    group: &protocol::DamageStatusContribution<N>,
) -> (entry: Option<usize>)
    ensures
        match entry {
            Some(i) => i < entries@.len() && entry_key(entries@[i as int]) == grouping::key_of(
                *group,
            ),
            None => !entry_keys(entries@).contains(grouping::key_of(*group)),
        },
{
    let mut i: usize = 0;
    while i < entries.len()
        invariant
            i <= entries@.len(),
            forall|j: int| 0 <= j < i ==> entry_key(#[trigger] entries@[j]) != grouping::key_of(
                *group,
            ),
        decreases entries@.len() - i,
    {
        let entry = &entries[i];
        if entry.status_name == group.status_name && entry.kind == group.kind && entry.category
            == group.category {
            return Some(i);
        }
        i = i + 1;
    }
    None
}

/// The keys of unknown statuses are at the indices that say so.
proof fn lemma_unknown_indices(
    known: Seq<grouping::StatusKey>,
    keys: Seq<grouping::StatusKey>,
    count: nat,
)
    requires
        count <= keys.len(),
    ensures
        forall|k: int|
            #![trigger unknown_indices(known, keys, count)[k]]
            0 <= k < unknown_indices(known, keys, count).len() ==> 0 <= unknown_indices(
                known,
                keys,
                count,
            )[k] < count && !known.contains(keys[unknown_indices(known, keys, count)[k]]),
        unknown_indices(known, keys, count).no_duplicates(),
    decreases count,
{
    if count > 0 {
        lemma_unknown_indices(known, keys, (count - 1) as nat);
    }
}

/// A group of another status leaves an entry as it is.
proof fn lemma_entry_untouched<A: Arithmetic>(
    before: Seq<DamageStatusContribution<A::Single>>,
    groups: Seq<protocol::DamageStatusContribution<A::Single>>,
    shares: Seq<protocol::DamageStatusContribution<A::Single>>,
    count: int,
    weights: HitWeights<A::Single, A::Double>,
    middle: Seq<DamageStatusContribution<A::Single>>,
    after: Seq<DamageStatusContribution<A::Single>>,
    i: int,
)
    requires
        0 <= count < groups.len(),
        entry_merged::<A>(before, groups, shares, count, weights, middle, i),
        after[i] == middle[i],
        grouping::key_of(groups[count]) != entry_key(before[i]),
    ensures
        entry_merged::<A>(before, groups, shares, count + 1, weights, after, i),
{
    if exists|g: int|
        0 <= g < count && grouping::key_of(#[trigger] groups[g]) == entry_key(before[i]) {
        let g = choose|g: int|
            0 <= g < count && grouping::key_of(groups[g]) == entry_key(before[i])
                && #[trigger] entry_continued::<A>(
                before[i],
                groups[g],
                shares[g],
                weights,
                middle[i],
            );
        assert(entry_continued::<A>(before[i], groups[g], shares[g], weights, after[i]));
        assert(0 <= g < count + 1 && grouping::key_of(groups[g]) == entry_key(before[i]));
    }
}

/// Takes account of one more hit in the entries of the statuses.
fn merge_hit<A: Arithmetic>(
    entries: &mut Vec<DamageStatusContribution<A::Single>>,
    groups: &Vec<protocol::DamageStatusContribution<A::Single>>,
    shares: &Vec<protocol::DamageStatusContribution<A::Single>>,
    weights: &HitWeights<A::Single, A::Double>,
)
    requires
        entry_keys(old(entries)@).no_duplicates(),
        grouping::keys_of(groups@).no_duplicates(),
        groups@.len() == shares@.len(),
        forall|i: int|
            0 <= i < old(entries)@.len() ==> (#[trigger] old(entries)@[i]).active_hits < u32::MAX,
    ensures
        entries_merged::<A>(
            old(entries)@,
            groups@,
            shares@,
            groups@.len(),
            *weights,
            final(entries)@,
        ),
{
    let ghost before = entries@;
    let ghost known = entry_keys(before);
    let ghost keys = grouping::keys_of(groups@);
    age_entries::<A>(entries, weights);
    proof {
        assert forall|i: int| 0 <= i < before.len() implies #[trigger] entry_merged::<A>(
            before,
            groups@,
            shares@,
            0,
            *weights,
            entries@,
            i,
        ) by {
            assert(entry_aged::<A>(before[i], *weights, entries@[i]));
        }
    }
    let mut g: usize = 0;
    while g < groups.len()
        invariant
            g <= groups@.len(),
            groups@.len() == shares@.len(),
            known == entry_keys(before),
            keys == grouping::keys_of(groups@),
            known.no_duplicates(),
            keys.no_duplicates(),
            forall|i: int|
                0 <= i < before.len() ==> (#[trigger] before[i]).active_hits < u32::MAX,
            entries_merged::<A>(before, groups@, shares@, g as nat, *weights, entries@),
        decreases groups@.len() - g,
    {
        let group = &groups[g];
        let ghost key = grouping::key_of(*group);
        let ghost middle = entries@;
        let ghost fresh = unknown_indices(known, keys, g as nat);
        proof {
            lemma_unknown_indices(known, keys, g as nat);
            assert(keys[g as int] == key);
            assert forall|i: int| 0 <= i < before.len() implies entry_key(#[trigger] middle[i])
                == entry_key(before[i]) by {
                assert(entry_merged::<A>(
                    before,
                    groups@,
                    shares@,
                    g as int,
                    *weights,
                    middle,
                    i,
                ));
            }
            assert forall|k: int| 0 <= k < fresh.len() implies entry_key(
                #[trigger] middle[before.len() + k],
            ) == keys[fresh[k]] by {
                assert(entry_begun::<A>(
                    groups@[fresh[k]],
                    shares@[fresh[k]],
                    *weights,
                    middle[before.len() + k],
                ));
            }
        }
        match entry_index(entries, group) {
            Some(entry) => {
                proof {
                    if entry >= before.len() {
                        let k = entry - before.len();
                        assert(entry_key(middle[before.len() + k]) == keys[fresh[k]]);
                        assert(keys[fresh[k]] == keys[g as int]);
                        assert(false);
                    }
                    assert(known[entry as int] == key);
                    assert(known.contains(key));
                    assert(entry_merged::<A>(
                        before,
                        groups@,
                        shares@,
                        g as int,
                        *weights,
                        middle,
                        entry as int,
                    ));
                    assert forall|h: int| 0 <= h < g implies grouping::key_of(
                        #[trigger] groups@[h],
                    ) != key by {
                        assert(keys[h] != keys[g as int]);
                    }
                    assert(entry_aged::<A>(
                        before[entry as int],
                        *weights,
                        middle[entry as int],
                    ));
                    assert(before[entry as int].active_hits < u32::MAX);
                }
                let value = A::plus(
                    entries[entry].average_value,
                    A::divided(group.value, weights.hits),
                );
                let share = A::plus(
                    entries[entry].multiplier_contribution,
                    portion_of_share::<A>(
                        shares[g].value,
                        weights.base_damage,
                        weights.normalization,
                    ),
                );
                let active_hits: u32 = entries[entry].active_hits + 1;
                entries[entry].average_value = value;
                entries[entry].active_hits = active_hits;
                entries[entry].multiplier_contribution = share;
                proof {
                    assert(entry_continued::<A>(
                        before[entry as int],
                        groups@[g as int],
                        shares@[g as int],
                        *weights,
                        entries@[entry as int],
                    ));
                    assert forall|i: int| 0 <= i < before.len() implies #[trigger] entry_merged::<
                        A,
                    >(before, groups@, shares@, g + 1, *weights, entries@, i) by {
                        assert(entry_merged::<A>(
                            before,
                            groups@,
                            shares@,
                            g as int,
                            *weights,
                            middle,
                            i,
                        ));
                        if i != entry {
                            assert(known[i] != known[entry as int]);
                            lemma_entry_untouched::<A>(
                                before,
                                groups@,
                                shares@,
                                g as int,
                                *weights,
                                middle,
                                entries@,
                                i,
                            );
                        } else {
                            assert(grouping::key_of(groups@[g as int]) == entry_key(before[i]));
                        }
                    }
                    assert(unknown_indices(known, keys, (g + 1) as nat) == fresh);
                    assert forall|k: int|
                        #![trigger fresh[k]]
                        0 <= k < fresh.len() implies entry_begun::<A>(
                        groups@[fresh[k]],
                        shares@[fresh[k]],
                        *weights,
                        entries@[before.len() + k],
                    ) by {
                        assert(entries@[before.len() + k] == middle[before.len() + k]);
                    }
                }
            },
            None => {
                proof {
                    if known.contains(key) {
                        let i = choose|i: int| 0 <= i < known.len() && known[i] == key;
                        assert(entry_key(middle[i]) == key);
                        assert(entry_keys(middle)[i] == key);
                        assert(false);
                    }
                }
                entries.push(
                    DamageStatusContribution {
                        status_name: group.status_name.clone(),
                        kind: group.kind,
                        category: group.category,
                        average_value: A::divided(group.value, weights.hits),
                        active_hits: 1,
                        multiplier_contribution: portion_of_share::<A>(
                            shares[g].value,
                            weights.base_damage,
                            weights.normalization,
                        ),
                    },
                );
                proof {
                    let now = unknown_indices(known, keys, (g + 1) as nat);
                    assert(now == fresh.push(g as int));
                    assert forall|i: int| 0 <= i < before.len() implies #[trigger] entry_merged::<
                        A,
                    >(before, groups@, shares@, g + 1, *weights, entries@, i) by {
                        assert(entry_merged::<A>(
                            before,
                            groups@,
                            shares@,
                            g as int,
                            *weights,
                            middle,
                            i,
                        ));
                        assert(known[i] == entry_key(before[i]));
                        assert(known.contains(known[i]));
                        lemma_entry_untouched::<A>(
                            before,
                            groups@,
                            shares@,
                            g as int,
                            *weights,
                            middle,
                            entries@,
                            i,
                        );
                    }
                    assert forall|k: int|
                        #![trigger now[k]]
                        0 <= k < now.len() implies entry_begun::<A>(
                        groups@[now[k]],
                        shares@[now[k]],
                        *weights,
                        entries@[before.len() + k],
                    ) by {
                        if k < fresh.len() {
                            assert(fresh[k] == now[k]);
                            assert(entries@[before.len() + k] == middle[before.len() + k]);
                        }
                    }
                }
            },
        }
        g = g + 1;
    }
}

/// The entries after one more hit are about distinct statuses, each has been
/// active, and none more often than before and in this hit.
proof fn lemma_merged_entries<A: Arithmetic>(
    before: Seq<DamageStatusContribution<A::Single>>,
    groups: Seq<protocol::DamageStatusContribution<A::Single>>,
    shares: Seq<protocol::DamageStatusContribution<A::Single>>,
    weights: HitWeights<A::Single, A::Double>,
    after: Seq<DamageStatusContribution<A::Single>>,
    hits: u32,
)
    requires
        entry_keys(before).no_duplicates(),
        grouping::keys_of(groups).no_duplicates(),
        entries_merged::<A>(before, groups, shares, groups.len(), weights, after),
        forall|i: int| 0 <= i < before.len() ==> 1 <= (#[trigger] before[i]).active_hits <= hits,
    ensures
        entry_keys(after).no_duplicates(),
        forall|i: int| 0 <= i < after.len() ==> 1 <= (#[trigger] after[i]).active_hits <= hits + 1,
{
    let known = entry_keys(before);
    let keys = grouping::keys_of(groups);
    let fresh = unknown_indices(known, keys, groups.len());
    lemma_unknown_indices(known, keys, groups.len());
    assert forall|i: int| 0 <= i < after.len() implies 1 <= (#[trigger] after[i]).active_hits
        <= hits + 1 && (i < before.len() ==> entry_keys(after)[i] == known[i]) && (i >= before.len()
        ==> entry_keys(after)[i] == keys[fresh[i - before.len()]]) by {
        if i < before.len() {
            assert(entry_merged::<A>(
                before,
                groups,
                shares,
                groups.len() as int,
                weights,
                after,
                i,
            ));
            assert(1 <= before[i].active_hits <= hits);
        } else {
            let k = i - before.len();
            assert(entry_begun::<A>(groups[fresh[k]], shares[fresh[k]], weights, after[i]));
        }
    }
    assert forall|i: int, j: int|
        0 <= i < after.len() && 0 <= j < after.len() && i != j implies entry_keys(after)[i]
        != entry_keys(after)[j] by {
        assert(after[i] == after[i] && after[j] == after[j]);
        if i < before.len() && j < before.len() {
            assert(known[i] != known[j]);
        } else if i < before.len() {
            let k = j - before.len();
            assert(!known.contains(keys[fresh[k]]));
            assert(known.contains(known[i]));
        } else if j < before.len() {
            let k = i - before.len();
            assert(!known.contains(keys[fresh[k]]));
            assert(known.contains(known[j]));
        } else {
            assert(fresh[i - before.len()] != fresh[j - before.len()]);
        }
    }
}

/// Whether `weights` say how one more hit bears on the entries.
pub open spec fn are_weights<A: Arithmetic>(
    before: AverageDamageDetails<A>,
    base_damage: A::Single,
    after: AverageDamageDetails<A>,
    weights: HitWeights<A::Single, A::Double>,
) -> bool {
    &&& arithmetic::of_u32::<A>(after.hits).contains(weights.hits)
    &&& arithmetic::quotient::<A>(
        arithmetic::difference::<A>(outcome::exactly(weights.hits), arithmetic::one::<A>()),
        outcome::exactly(weights.hits),
    ).contains(weights.previous_weight)
    &&& normalized::<A>(
        outcome::exactly(before.normalization_damage),
        after.normalization_damage,
    ).contains(weights.normalization_weight)
    &&& weights.base_damage == base_damage
    &&& weights.normalization == after.normalization_damage
}

/// Whether `after` is `before` with one more hit that has these parts, groups and shares.
pub open spec fn updated_from<A: Arithmetic>(
    before: AverageDamageDetails<A>,
    details: DamageDetails<A::Single>,
    damage: u64,
    parts: MultiplierComponents<A::Single>,
    groups: Seq<protocol::DamageStatusContribution<A::Single>>,
    shares: Seq<protocol::DamageStatusContribution<A::Single>>,
    weights: HitWeights<A::Single, A::Double>,
    after: AverageDamageDetails<A>,
) -> bool {
    let base_damage = weights.base_damage;
    let moved = |average: A::Single, value: A::Single|
        weighted::<A>(
            average,
            value,
            base_damage,
            before.normalization_damage,
            after.normalization_damage,
        );
    &&& after.hits == before.hits + 1
    &&& after.total_damage == before.total_damage + damage
    &&& after.supplementary_damage == before.supplementary_damage
    &&& arithmetic::wide_sum::<A>(
        outcome::exactly(before.normalization_damage),
        arithmetic::widened::<A>(outcome::exactly(base_damage)),
    ).contains(after.normalization_damage)
    &&& normalized::<A>(
        arithmetic::wide_of_u64::<A>((after.total_damage + after.supplementary_damage) as u64),
        after.normalization_damage,
    ).contains(after.effective_multiplier)
    &&& moved(before.damage_limit_contribution, parts.damage_limit).contains(
        after.damage_limit_contribution,
    )
    &&& moved(before.amplify_contribution, parts.amplify).contains(after.amplify_contribution)
    &&& moved(before.attack_defense_contribution, parts.attack_defense).contains(
        after.attack_defense_contribution,
    )
    &&& normalized::<A>(
        arithmetic::wide_of_u64::<A>(after.supplementary_damage),
        after.normalization_damage,
    ).contains(after.supplementary_contribution)
    &&& composed::<A>(after)
    &&& averaged::<A>(
        before.average_damage_limit_multiplier,
        arithmetic::finite_or::<A>(
            outcome::exactly(details.damage_limit_multiplier),
            arithmetic::one::<A>(),
        ),
        weights.hits,
    ).contains(after.average_damage_limit_multiplier)
    &&& averaged::<A>(
        before.average_amplify_multiplier,
        multiplier::amplify_of::<A>(details),
        weights.hits,
    ).contains(after.average_amplify_multiplier)
    &&& averaged::<A>(
        before.average_attack_defense_multiplier,
        multiplier::attack_defense_of::<A>(details),
        weights.hits,
    ).contains(after.average_attack_defense_multiplier)
    &&& averaged::<A>(
        before.average_critical_rate,
        multiplier::critical_rate_of::<A>(details),
        weights.hits,
    ).contains(after.average_critical_rate)
    &&& averaged::<A>(
        before.average_base_damage,
        outcome::exactly(base_damage),
        weights.hits,
    ).contains(after.average_base_damage)
    &&& averaged::<A>(
        before.average_damage_cap,
        cap_of::<A>(details),
        weights.hits,
    ).contains(after.average_damage_cap)
    &&& exists|judgment: bool| #[trigger]
        multiplier::capped::<A>(details, base_damage).contains(judgment) && after.capped_hits
            == before.capped_hits + counted(judgment)
    &&& entries_merged::<A>(
        before.statuses@,
        groups,
        shares,
        groups.len(),
        weights,
        after.statuses@,
    )
}

/// Whether the parts of a multiplier are put together: the recognized
/// multiplier adds them up, and what is left of the effective multiplier is
/// unattributed.
pub open spec fn composed<A: Arithmetic>(average: AverageDamageDetails<A>) -> bool {
    &&& recognized::<A>(
        average.damage_limit_contribution,
        average.amplify_contribution,
        average.attack_defense_contribution,
        average.supplementary_contribution,
    ).contains(average.recognized_multiplier)
    &&& arithmetic::difference::<A>(
        outcome::exactly(average.effective_multiplier),
        outcome::exactly(average.recognized_multiplier),
    ).contains(average.unattributed_contribution)
}

/// Whether `after` is `before` with one more hit.
pub open spec fn updated<A: Arithmetic>(
    before: AverageDamageDetails<A>,
    details: DamageDetails<A::Single>,
    damage: u64,
    after: AverageDamageDetails<A>,
) -> bool {
    exists|
        parts: MultiplierComponents<A::Single>,
        groups: Seq<protocol::DamageStatusContribution<A::Single>>,
        shares: Seq<protocol::DamageStatusContribution<A::Single>>,
        weights: HitWeights<A::Single, A::Double>,
    |
        multiplier::base_of::<A>(details).contains(weights.base_damage) && multiplier::parts_of::<A>(
            details,
            damage,
            weights.base_damage,
        ).contains(parts) && multiplier::signed_groups::<A>(details.statuses@, groups) && multiplier::shares_of::<A>(
            details,
            parts.attack_defense,
            shares,
        ) && are_weights::<A>(before, weights.base_damage, after, weights)
            && #[trigger] updated_from::<A>(
            before,
            details,
            damage,
            parts,
            groups,
            shares,
            weights,
            after,
        )
}

/// Whether `after` is `before` with more supplementary damage.
pub open spec fn supplemented<A: Arithmetic>(
    before: AverageDamageDetails<A>,
    damage: u64,
    after: AverageDamageDetails<A>,
) -> bool {
    let normalization = outcome::exactly(before.normalization_damage);
    let empty = arithmetic::wide_at_most::<A>(normalization, arithmetic::wide_zero::<A>());
    let unchanged = AverageDamageDetails {
        supplementary_damage: (before.supplementary_damage + damage) as u64,
        ..before
    };
    ||| empty.contains(true) && after == unchanged
    ||| {
        &&& empty.contains(false)
        &&& arithmetic::narrowed::<A>(
            arithmetic::wide_quotient::<A>(
                arithmetic::wide_of_u64::<A>(after.supplementary_damage),
                normalization,
            ),
        ).contains(after.supplementary_contribution)
        &&& arithmetic::narrowed::<A>(
            arithmetic::wide_quotient::<A>(
                arithmetic::wide_of_u64::<A>(
                    (after.total_damage + after.supplementary_damage) as u64,
                ),
                normalization,
            ),
        ).contains(after.effective_multiplier)
        &&& composed::<A>(after)
        &&& after == AverageDamageDetails {
            supplementary_contribution: after.supplementary_contribution,
            effective_multiplier: after.effective_multiplier,
            recognized_multiplier: after.recognized_multiplier,
            unattributed_contribution: after.unattributed_contribution,
            ..unchanged
        }
    }
}

impl<A: Arithmetic> AverageDamageDetails<A> {
    /// Adds the parts of the multiplier up again.
    fn compose(&mut self)
        ensures
            composed::<A>(*final(self)),
            *final(self) == (AverageDamageDetails {
                recognized_multiplier: final(self).recognized_multiplier,
                unattributed_contribution: final(self).unattributed_contribution,
                ..*old(self)
            }),
    {
        self.recognized_multiplier =
        A::plus(
            A::plus(
                A::plus(
                    A::plus(A::one(), self.damage_limit_contribution),
                    self.amplify_contribution,
                ),
                self.attack_defense_contribution,
            ),
            self.supplementary_contribution,
        );
        self.unattributed_contribution =
        A::minus(self.effective_multiplier, self.recognized_multiplier);
    }

    /// Takes account of one more hit.
    pub fn update(&mut self, details: &DamageDetails<A::Single>, damage: u64)
        requires
            old(self).wf(),
            old(self).hits < u32::MAX,
            old(self).total_damage + damage + old(self).supplementary_damage <= u64::MAX,
        ensures
            updated::<A>(*old(self), *details, damage, *final(self)),
            final(self).wf(),
    {
        let previous_normalization = self.normalization_damage;
        let base_damage = normalization_base::<A>(details);
        let new_normalization = A::wide_plus(previous_normalization, A::widened(base_damage));
        let parts = multiplier_components::<A>(details, damage, base_damage);
        let shares = status_multiplier_contributions::<A>(details, parts.attack_defense);
        let groups = grouped_statuses::<A>(details);
        let ghost before = *self;

        self.hits = self.hits + 1;
        self.total_damage = self.total_damage + damage;
        let hits = A::from_u32(self.hits);
        self.normalization_damage = new_normalization;
        self.effective_multiplier =
        normalize::<A>(
            A::wide_from_u64(self.total_damage + self.supplementary_damage),
            new_normalization,
        );
        self.damage_limit_contribution =
        weighted_update::<A>(
            self.damage_limit_contribution,
            parts.damage_limit,
            base_damage,
            previous_normalization,
            new_normalization,
        );
        self.amplify_contribution =
        weighted_update::<A>(
            self.amplify_contribution,
            parts.amplify,
            base_damage,
            previous_normalization,
            new_normalization,
        );
        self.attack_defense_contribution =
        weighted_update::<A>(
            self.attack_defense_contribution,
            parts.attack_defense,
            base_damage,
            previous_normalization,
            new_normalization,
        );
        self.supplementary_contribution =
        normalize::<A>(A::wide_from_u64(self.supplementary_damage), new_normalization);
        self.compose();
        self.average_damage_limit_multiplier =
        update_average::<A>(
            self.average_damage_limit_multiplier,
            finite_or_default::<A>(details.damage_limit_multiplier, A::one()),
            hits,
        );
        self.average_amplify_multiplier =
        update_average::<A>(
            self.average_amplify_multiplier,
            resolved_amplify_multiplier::<A>(details),
            hits,
        );
        self.average_attack_defense_multiplier =
        update_average::<A>(
            self.average_attack_defense_multiplier,
            resolved_attack_defense_multiplier::<A>(details),
            hits,
        );
        self.average_critical_rate =
        update_average::<A>(
            self.average_critical_rate,
            resolved_critical_rate::<A>(details),
            hits,
        );
        self.average_base_damage =
        update_average::<A>(self.average_base_damage, base_damage, hits);
        self.average_damage_cap =
        update_average::<A>(self.average_damage_cap, cap_for_average::<A>(details), hits);
        let judgment = is_capped_hit::<A>(details, base_damage);
        assert(multiplier::capped::<A>(*details, base_damage).contains(judgment));
        self.capped_hits = self.capped_hits + count_judgment(judgment);

        let weights = HitWeights {
            hits,
            previous_weight: A::divided(A::minus(hits, A::one()), hits),
            normalization_weight: normalize::<A>(previous_normalization, new_normalization),
            base_damage,
            normalization: new_normalization,
        };
        proof {
            grouping::lemma_distinct_keys(grouping::keys_of(details.statuses@));
            assert(grouping::keys_of(groups@).len() == groups@.len());
            assert(grouping::keys_of(shares@).len() == shares@.len());
        }
        merge_hit::<A>(&mut self.statuses, &groups, &shares, &weights);
        proof {
            lemma_merged_entries::<A>(
                before.statuses@,
                groups@,
                shares@,
                weights,
                self.statuses@,
                before.hits,
            );
            assert(are_weights::<A>(before, base_damage, *self, weights));
            assert(updated_from::<A>(
                before,
                *details,
                damage,
                parts,
                groups@,
                shares@,
                weights,
                *self,
            ));
        }
    }

    /// Takes account of supplementary damage that the skill has led to.
    pub fn add_supplementary_damage(&mut self, damage: u64)
        requires
            old(self).total_damage + old(self).supplementary_damage + damage <= u64::MAX,
        ensures
            supplemented::<A>(*old(self), damage, *final(self)),
            old(self).wf() ==> final(self).wf(),
    {
        self.supplementary_damage = self.supplementary_damage + damage;
        let empty = A::wide_at_most(self.normalization_damage, A::wide_zero());
        assert(arithmetic::wide_at_most::<A>(
            outcome::exactly(old(self).normalization_damage),
            arithmetic::wide_zero::<A>(),
        ).contains(empty));
        if empty {
            return ;
        }
        self.supplementary_contribution =
        A::narrowed(
            A::wide_divided(
                A::wide_from_u64(self.supplementary_damage),
                self.normalization_damage,
            ),
        );
        self.effective_multiplier =
        A::narrowed(
            A::wide_divided(
                A::wide_from_u64(self.total_damage + self.supplementary_damage),
                self.normalization_damage,
            ),
        );
        self.compose();
    }
}

/// The parts of the multiplier still add up after a hit and after
/// supplementary damage.
pub proof fn law_parts_add_up<A: Arithmetic>(
    before: AverageDamageDetails<A>,
    details: DamageDetails<A::Single>,
    damage: u64,
    after: AverageDamageDetails<A>,
)
    requires
        updated::<A>(before, details, damage, after) || supplemented::<A>(before, damage, after)
            && composed::<A>(before),
    ensures
        composed::<A>(after),
{
}

/// The parts of the multiplier of a first hit add up, provided that the hit has
/// a positive base. Without one they are all zero.
pub proof fn law_parts_of_a_first_hit_add_up<A: Arithmetic>(
    details: DamageDetails<A::Single>,
    damage: u64,
    average: AverageDamageDetails<A>,
)
    requires
        started::<A>(details, damage, average),
        forall|base_damage: A::Single| #[trigger]
            multiplier::base_of::<A>(details).contains(base_damage) ==> !arithmetic::at_most::<A>(
                outcome::exactly(base_damage),
                arithmetic::zero::<A>(),
            ).contains(true),
    ensures
        arithmetic::sum::<A>(
            arithmetic::sum::<A>(
                arithmetic::sum::<A>(
                    arithmetic::one::<A>(),
                    outcome::exactly(average.damage_limit_contribution),
                ),
                outcome::exactly(average.amplify_contribution),
            ),
            outcome::exactly(average.attack_defense_contribution),
        ).contains(average.recognized_multiplier),
        arithmetic::difference::<A>(
            outcome::exactly(average.effective_multiplier),
            outcome::exactly(average.recognized_multiplier),
        ).contains(average.unattributed_contribution),
{
}

/// A hit adds to the damage of the skill and nothing to its supplementary
/// damage; supplementary damage adds to that alone, and is no hit.
pub proof fn law_damage_is_counted_once<A: Arithmetic>(
    before: AverageDamageDetails<A>,
    details: DamageDetails<A::Single>,
    damage: u64,
    after: AverageDamageDetails<A>,
)
    requires
        before.supplementary_damage + damage <= u64::MAX,
    ensures
        updated::<A>(before, details, damage, after) ==> after.hits == before.hits + 1
            && after.total_damage == before.total_damage + damage && after.supplementary_damage
            == before.supplementary_damage,
        supplemented::<A>(before, damage, after) ==> after.hits == before.hits
            && after.total_damage == before.total_damage && after.supplementary_damage
            == before.supplementary_damage + damage && after.statuses == before.statuses,
{
}

/// Supplementary damage that comes in two parts counts as if it came at once,
/// as long as the test for an empty normalization does not waver.
pub proof fn law_supplementary_damage_adds_up<A: Arithmetic>(
    before: AverageDamageDetails<A>,
    first: u64,
    middle: AverageDamageDetails<A>,
    second: u64,
    after: AverageDamageDetails<A>,
)
    requires
        before.supplementary_damage + first + second <= u64::MAX,
        supplemented::<A>(before, first, middle),
        supplemented::<A>(middle, second, after),
        ({
            let empty = arithmetic::wide_at_most::<A>(
                outcome::exactly(before.normalization_damage),
                arithmetic::wide_zero::<A>(),
            );
            !(empty.contains(true) && empty.contains(false))
        }),
    ensures
        supplemented::<A>(before, (first + second) as u64, after),
{
}

/// In an arithmetic that gives the same answer each time, supplementary damage
/// that comes in two parts leaves the very state that it leaves when it comes
/// at once.
pub proof fn law_supplementary_damage_may_come_in_parts<A: Arithmetic>(
    before: AverageDamageDetails<A>,
    first: u64,
    middle: AverageDamageDetails<A>,
    second: u64,
    after: AverageDamageDetails<A>,
    at_once: AverageDamageDetails<A>,
)
    requires
        arithmetic::is_repeatable::<A>(),
        before.total_damage + before.supplementary_damage + first + second <= u64::MAX,
        supplemented::<A>(before, first, middle),
        supplemented::<A>(middle, second, after),
        supplemented::<A>(before, (first + second) as u64, at_once),
    ensures
        after == at_once,
{
    let empty = arithmetic::wide_at_most::<A>(
        outcome::exactly(before.normalization_damage),
        arithmetic::wide_zero::<A>(),
    );
    assert(!(empty.contains(true) && empty.contains(false)));
    law_supplementary_damage_adds_up::<A>(before, first, middle, second, after);
    if empty.contains(false) {
        assert(after.supplementary_damage == at_once.supplementary_damage);
        lemma_one_normalization::<A>(
            after.supplementary_damage,
            before.normalization_damage,
            after.supplementary_contribution,
            at_once.supplementary_contribution,
        );
        lemma_one_normalization::<A>(
            (after.total_damage + after.supplementary_damage) as u64,
            before.normalization_damage,
            after.effective_multiplier,
            at_once.effective_multiplier,
        );
        lemma_one_composition::<A>(after, at_once);
    }
}

/// In an arithmetic that gives the same answer each time, a count has one
/// ratio to the normalization damage.
proof fn lemma_one_normalization<A: Arithmetic>(
    count: u64,
    normalization: A::Double,
    one: A::Single,
    other: A::Single,
)
    requires
        arithmetic::is_repeatable::<A>(),
        ({
            let ratios = arithmetic::narrowed::<A>(
                arithmetic::wide_quotient::<A>(
                    arithmetic::wide_of_u64::<A>(count),
                    outcome::exactly(normalization),
                ),
            );
            ratios.contains(one) && ratios.contains(other)
        }),
    ensures
        one == other,
{
}

/// In an arithmetic that gives the same answer each time, the parts of a
/// multiplier are put together in one way.
proof fn lemma_one_composition<A: Arithmetic>(
    one: AverageDamageDetails<A>,
    other: AverageDamageDetails<A>,
)
    requires
        arithmetic::is_repeatable::<A>(),
        composed::<A>(one),
        composed::<A>(other),
        one.damage_limit_contribution == other.damage_limit_contribution,
        one.amplify_contribution == other.amplify_contribution,
        one.attack_defense_contribution == other.attack_defense_contribution,
        one.supplementary_contribution == other.supplementary_contribution,
        one.effective_multiplier == other.effective_multiplier,
    ensures
        one.recognized_multiplier == other.recognized_multiplier,
        one.unattributed_contribution == other.unattributed_contribution,
{
}

/// Supplementary damage is no hit: whatever is told of the hits stays as it
/// is. Where there is no normalization damage, nothing changes but the
/// supplementary damage itself.
pub proof fn law_supplementary_damage_is_no_hit<A: Arithmetic>(
    before: AverageDamageDetails<A>,
    damage: u64,
    after: AverageDamageDetails<A>,
)
    requires
        before.total_damage + before.supplementary_damage + damage <= u64::MAX,
        supplemented::<A>(before, damage, after),
    ensures
        after.supplementary_damage == before.supplementary_damage + damage,
        after == (AverageDamageDetails {
            supplementary_damage: after.supplementary_damage,
            supplementary_contribution: after.supplementary_contribution,
            effective_multiplier: after.effective_multiplier,
            recognized_multiplier: after.recognized_multiplier,
            unattributed_contribution: after.unattributed_contribution,
            ..before
        }),
        !arithmetic::wide_at_most::<A>(
            outcome::exactly(before.normalization_damage),
            arithmetic::wide_zero::<A>(),
        ).contains(false) ==> after == (AverageDamageDetails {
            supplementary_damage: after.supplementary_damage,
            ..before
        }),
{
}

/// A hit: its details and its damage.
pub type Hit<N> = (DamageDetails<N>, u64);

/// Whether a state takes account of one more hit than the state before it.
pub open spec fn follows<A: Arithmetic>(
    hits: Seq<Hit<A::Single>>,
    states: Seq<AverageDamageDetails<A>>,
    i: int,
) -> bool {
    updated::<A>(states[i - 1], hits[i].0, hits[i].1, states[i])
}

/// Whether `states` are those after each of the hits.
pub open spec fn is_history<A: Arithmetic>(
    hits: Seq<Hit<A::Single>>,
    states: Seq<AverageDamageDetails<A>>,
) -> bool {
    &&& hits.len() > 0
    &&& states.len() == hits.len()
    &&& started::<A>(hits[0].0, hits[0].1, states[0])
    &&& forall|i: int| 0 < i < hits.len() ==> #[trigger] follows::<A>(hits, states, i)
}

/// The damage of all hits.
pub open spec fn damage_of_all<N>(hits: Seq<Hit<N>>) -> int
    decreases hits.len(),
{
    if hits.len() == 0 {
        0
    } else {
        damage_of_all(hits.drop_last()) + hits.last().1
    }
}

/// The outcomes of adding up the normalization bases of all hits.
pub open spec fn base_of_all<A: Arithmetic>(hits: Seq<Hit<A::Single>>) -> Set<A::Double>
    decreases hits.len(),
{
    let base = arithmetic::widened::<A>(multiplier::base_of::<A>(hits.last().0));
    if hits.len() <= 1 {
        base
    } else {
        arithmetic::wide_sum::<A>(base_of_all::<A>(hits.drop_last()), base)
    }
}

/// The outcomes of judging whether a hit was capped.
pub open spec fn judgments<A: Arithmetic>(details: DamageDetails<A::Single>) -> Set<bool> {
    outcome::and_then(
        multiplier::base_of::<A>(details),
        |base: A::Single| multiplier::capped::<A>(details, base),
    )
}

/// The outcomes of counting the hits that were capped.
pub open spec fn capped_of_all<A: Arithmetic>(hits: Seq<Hit<A::Single>>) -> Set<int>
    decreases hits.len(),
{
    if hits.len() == 0 {
        outcome::exactly(0)
    } else {
        outcome::and_then(
            capped_of_all::<A>(hits.drop_last()),
            |earlier: int|
                outcome::mapped(
                    judgments::<A>(hits.last().0),
                    |judgment: bool| earlier + counted(judgment),
                ),
        )
    }
}

/// The outcomes of relating the damage of a single hit to its base.
pub open spec fn first_effective<A: Arithmetic>(hit: Hit<A::Single>) -> Set<A::Single> {
    outcome::mapped(
        outcome::and_then(
            multiplier::base_of::<A>(hit.0),
            |base: A::Single| multiplier::parts_of::<A>(hit.0, hit.1, base),
        ),
        |parts: MultiplierComponents<A::Single>| parts.effective,
    )
}

/// The figures of a first hit are those of that hit.
#[verifier::spinoff_prover]
proof fn lemma_figures_of_a_first_hit<A: Arithmetic>(
    hit: Hit<A::Single>,
    after: AverageDamageDetails<A>,
)
    requires
        started::<A>(hit.0, hit.1, after),
    ensures
        after.hits == 1,
        after.total_damage == hit.1,
        after.supplementary_damage == 0,
        arithmetic::widened::<A>(multiplier::base_of::<A>(hit.0)).contains(
            after.normalization_damage,
        ),
        exists|judgment: bool| #[trigger]
            judgments::<A>(hit.0).contains(judgment) && after.capped_hits == counted(judgment),
        first_effective::<A>(hit).contains(after.effective_multiplier),
{
    let (details, damage) = hit;
    let (base, parts, groups, shares) = choose|
        base: A::Single,
        parts: MultiplierComponents<A::Single>,
        groups: Seq<protocol::DamageStatusContribution<A::Single>>,
        shares: Seq<protocol::DamageStatusContribution<A::Single>>,
    |
        multiplier::base_of::<A>(details).contains(base) && multiplier::parts_of::<A>(
            details,
            damage,
            base,
        ).contains(parts) && #[trigger] started_from::<A>(
            details,
            damage,
            base,
            parts,
            groups,
            shares,
            after,
        );
    let judgment = choose|judgment: bool| #[trigger]
        multiplier::capped::<A>(details, base).contains(judgment) && after.capped_hits == counted(
            judgment,
        );
    assert(judgments::<A>(details).contains(judgment));
    assert(outcome::and_then(
        multiplier::base_of::<A>(details),
        |base: A::Single| multiplier::parts_of::<A>(details, damage, base),
    ).contains(parts));
}

/// One more hit adds its own figures to those before it.
#[verifier::spinoff_prover]
proof fn lemma_figures_of_one_more_hit<A: Arithmetic>(
    before: AverageDamageDetails<A>,
    hit: Hit<A::Single>,
    after: AverageDamageDetails<A>,
)
    requires
        updated::<A>(before, hit.0, hit.1, after),
    ensures
        after.hits == before.hits + 1,
        after.total_damage == before.total_damage + hit.1,
        after.supplementary_damage == before.supplementary_damage,
        arithmetic::wide_sum::<A>(
            outcome::exactly(before.normalization_damage),
            arithmetic::widened::<A>(multiplier::base_of::<A>(hit.0)),
        ).contains(after.normalization_damage),
        exists|judgment: bool| #[trigger]
            judgments::<A>(hit.0).contains(judgment) && after.capped_hits == before.capped_hits
                + counted(judgment),
        normalized::<A>(
            arithmetic::wide_of_u64::<A>((after.total_damage + after.supplementary_damage) as u64),
            after.normalization_damage,
        ).contains(after.effective_multiplier),
        normalized::<A>(
            arithmetic::wide_of_u64::<A>(after.supplementary_damage),
            after.normalization_damage,
        ).contains(after.supplementary_contribution),
        composed::<A>(after),
{
    let (details, damage) = hit;
    let (parts, groups, shares, weights) = choose|
        parts: MultiplierComponents<A::Single>,
        groups: Seq<protocol::DamageStatusContribution<A::Single>>,
        shares: Seq<protocol::DamageStatusContribution<A::Single>>,
        weights: HitWeights<A::Single, A::Double>,
    |
        multiplier::base_of::<A>(details).contains(weights.base_damage)
            && #[trigger] updated_from::<A>(
            before,
            details,
            damage,
            parts,
            groups,
            shares,
            weights,
            after,
        );
    let judgment = choose|judgment: bool| #[trigger]
        multiplier::capped::<A>(details, weights.base_damage).contains(judgment)
            && after.capped_hits == before.capped_hits + counted(judgment);
    assert(judgments::<A>(details).contains(judgment));
}

/// After any number of hits the figures are those of all the hits: as many
/// hits as there were, their damage, the sum of their bases, as many capped
/// hits as were judged capped, and the ratio of the damage to the bases.
#[verifier::spinoff_prover]
pub proof fn law_figures_are_those_of_all_hits<A: Arithmetic>(
    hits: Seq<Hit<A::Single>>,
    states: Seq<AverageDamageDetails<A>>,
)
    requires
        is_history::<A>(hits, states),
    ensures
        states.last().hits == hits.len(),
        states.last().total_damage == damage_of_all(hits),
        states.last().supplementary_damage == 0,
        base_of_all::<A>(hits).contains(states.last().normalization_damage),
        capped_of_all::<A>(hits).contains(states.last().capped_hits as int),
        hits.len() == 1 ==> first_effective::<A>(hits[0]).contains(
            states.last().effective_multiplier,
        ),
        hits.len() > 1 ==> normalized::<A>(
            arithmetic::wide_of_u64::<A>(damage_of_all(hits) as u64),
            states.last().normalization_damage,
        ).contains(states.last().effective_multiplier),
    decreases hits.len(),
{
    let earlier = hits.drop_last();
    if hits.len() == 1 {
        lemma_figures_of_a_first_hit::<A>(hits[0], states[0]);
        assert(damage_of_all(earlier) == 0);
        assert(capped_of_all::<A>(earlier).contains(0));
    } else {
        let past = states.drop_last();
        assert forall|i: int| 0 < i < earlier.len() implies #[trigger] follows::<A>(
            earlier,
            past,
            i,
        ) by {
            assert(follows::<A>(hits, states, i));
        }
        law_figures_are_those_of_all_hits::<A>(earlier, past);
        assert(follows::<A>(hits, states, hits.len() - 1));
        lemma_figures_of_one_more_hit::<A>(past.last(), hits.last(), states.last());
    }
}

/// An average moves towards one more value so that it stays the mean: as many
/// times as there are hits, it is what it was before that many times less one,
/// and the value. So it stays where it is if the value equals it, and between
/// itself and the value otherwise.
pub proof fn law_an_average_stays_the_mean<A: Arithmetic>(
    num: spec_fn(A::Single) -> real,
    wide: spec_fn(A::Double) -> real,
    average: A::Single,
    value: A::Single,
    hits: A::Single,
    result: A::Single,
)
    requires
        arithmetic::is_exact::<A>(num, wide),
        averaged::<A>(average, outcome::exactly(value), hits).contains(result),
        num(hits) >= 1int as real,
    ensures
        num(hits) * num(result) == (num(hits) - 1int as real) * num(average) + num(value),
        num(value) == num(average) ==> num(result) == num(average),
        num(average) <= num(value) ==> num(average) <= num(result) <= num(value),
        num(average) >= num(value) ==> num(average) >= num(result) >= num(value),
{
    let (a, v, h, r) = (num(average), num(value), num(hits), num(result));
    let step = choose|step: A::Single|
        arithmetic::quotient::<A>(
            arithmetic::difference::<A>(outcome::exactly(value), outcome::exactly(average)),
            outcome::exactly(hits),
        ).contains(step) && #[trigger] call_ensures(A::plus, (average, step), result);
    let q = num(step);
    assert(q * h == v - a);
    assert(h * r == (h - 1int as real) * a + v) by (nonlinear_arith)
        requires
            r == a + q,
            q * h == v - a,
    ;
    assert(v == a ==> q == 0int as real) by (nonlinear_arith)
        requires
            q * h == v - a,
            h >= 1int as real,
    ;
    assert(a <= v ==> 0int as real <= q <= v - a) by (nonlinear_arith)
        requires
            q * h == v - a,
            h >= 1int as real,
    ;
    assert(a >= v ==> 0int as real >= q >= v - a) by (nonlinear_arith)
        requires
            q * h == v - a,
            h >= 1int as real,
    ;
}

/// The outcomes of adding up a figure of every hit, read as real numbers.
#[verifier::opaque]
pub open spec fn sums_of<N>(hits: Seq<Hit<N>>, figure: spec_fn(Hit<N>) -> Set<real>) -> Set<real>
    decreases hits.len(),
{
    if hits.len() == 0 {
        outcome::exactly(0int as real)
    } else {
        outcome::and_then(
            sums_of(hits.drop_last(), figure),
            |earlier: real| outcome::mapped(figure(hits.last()), |value: real| earlier + value),
        )
    }
}

/// One more hit adds its figure.
proof fn lemma_one_more_figure<N>(
    hits: Seq<Hit<N>>,
    figure: spec_fn(Hit<N>) -> Set<real>,
    earlier: real,
    value: real,
)
    requires
        hits.len() > 0,
        sums_of(hits.drop_last(), figure).contains(earlier),
        figure(hits.last()).contains(value),
    ensures
        sums_of(hits, figure).contains(earlier + value),
{
    reveal_with_fuel(sums_of, 2);
}

/// No hits add up to nothing.
proof fn lemma_no_figures<N>(hits: Seq<Hit<N>>, figure: spec_fn(Hit<N>) -> Set<real>)
    requires
        hits.len() == 0,
    ensures
        sums_of(hits, figure).contains(0int as real),
{
    reveal_with_fuel(sums_of, 2);
}

/// The figures of a hit that numbers stand for.
pub open spec fn readings<N>(num: spec_fn(N) -> real, numbers: Set<N>) -> Set<real> {
    outcome::mapped(numbers, |n: N| num(n))
}

/// A hit's damage limit multiplier.
pub open spec fn limit_figure<N>(num: spec_fn(N) -> real) -> spec_fn(Hit<N>) -> Set<real> {
    |hit: Hit<N>| outcome::exactly(num(hit.0.damage_limit_multiplier))
}

/// A hit's amplify multiplier.
pub open spec fn amplify_figure<A: Arithmetic>(num: spec_fn(A::Single) -> real) -> spec_fn(
    Hit<A::Single>,
) -> Set<real> {
    |hit: Hit<A::Single>| readings(num, multiplier::amplify_of::<A>(hit.0))
}

/// A hit's attack and defense multiplier.
pub open spec fn attack_defense_figure<A: Arithmetic>(num: spec_fn(A::Single) -> real) -> spec_fn(
    Hit<A::Single>,
) -> Set<real> {
    |hit: Hit<A::Single>| readings(num, multiplier::attack_defense_of::<A>(hit.0))
}

/// A hit's critical rate.
pub open spec fn critical_figure<A: Arithmetic>(num: spec_fn(A::Single) -> real) -> spec_fn(
    Hit<A::Single>,
) -> Set<real> {
    |hit: Hit<A::Single>| readings(num, multiplier::critical_rate_of::<A>(hit.0))
}

/// A hit's base.
pub open spec fn base_figure<A: Arithmetic>(num: spec_fn(A::Single) -> real) -> spec_fn(
    Hit<A::Single>,
) -> Set<real> {
    |hit: Hit<A::Single>| readings(num, multiplier::base_of::<A>(hit.0))
}

/// A hit's cap, or zero if it has none.
pub open spec fn cap_figure<N>() -> spec_fn(Hit<N>) -> Set<real> {
    |hit: Hit<N>|
        outcome::exactly(
            if hit.0.damage_cap > 0 {
                hit.0.damage_cap as int as real
            } else {
                0int as real
            },
        )
}

/// A part of a hit's multiplier, weighted by the hit's base.
pub open spec fn weighted_part<A: Arithmetic>(
    num: spec_fn(A::Single) -> real,
    part: spec_fn(MultiplierComponents<A::Single>) -> A::Single,
) -> spec_fn(Hit<A::Single>) -> Set<real> {
    |hit: Hit<A::Single>|
        Set::new(
            |x: real|
                exists|base: A::Single, parts: MultiplierComponents<A::Single>| #[trigger]
                    multiplier::base_of::<A>(hit.0).contains(base)
                        && #[trigger] multiplier::parts_of::<A>(hit.0, hit.1, base).contains(parts)
                        && x == num(base) * num(part(parts)),
        )
}

/// The damage limit part.
pub open spec fn limit_part<N>() -> spec_fn(MultiplierComponents<N>) -> N {
    |parts: MultiplierComponents<N>| parts.damage_limit
}

/// The amplify part.
pub open spec fn amplify_part<N>() -> spec_fn(MultiplierComponents<N>) -> N {
    |parts: MultiplierComponents<N>| parts.amplify
}

/// The attack and defense part.
pub open spec fn attack_defense_part<N>() -> spec_fn(MultiplierComponents<N>) -> N {
    |parts: MultiplierComponents<N>| parts.attack_defense
}

/// The averages of a first hit are its own figures.
#[verifier::spinoff_prover]
proof fn lemma_first_averages<A: Arithmetic>(
    num: spec_fn(A::Single) -> real,
    wide: spec_fn(A::Double) -> real,
    hit: Hit<A::Single>,
    after: AverageDamageDetails<A>,
)
    requires
        arithmetic::is_exact::<A>(num, wide),
        started::<A>(hit.0, hit.1, after),
    ensures
        limit_figure(num)(hit).contains(num(after.average_damage_limit_multiplier)),
        amplify_figure::<A>(num)(hit).contains(num(after.average_amplify_multiplier)),
        attack_defense_figure::<A>(num)(hit).contains(num(after.average_attack_defense_multiplier)),
        critical_figure::<A>(num)(hit).contains(num(after.average_critical_rate)),
        base_figure::<A>(num)(hit).contains(num(after.average_base_damage)),
        cap_figure()(hit).contains(num(after.average_damage_cap)),
        base_figure::<A>(num)(hit).contains(wide(after.normalization_damage)),
        weighted_part::<A>(num, limit_part())(hit).contains(
            wide(after.normalization_damage) * num(after.damage_limit_contribution),
        ),
        weighted_part::<A>(num, amplify_part())(hit).contains(
            wide(after.normalization_damage) * num(after.amplify_contribution),
        ),
        weighted_part::<A>(num, attack_defense_part())(hit).contains(
            wide(after.normalization_damage) * num(after.attack_defense_contribution),
        ),
{
    let (base, parts, groups, shares) = choose|
        base: A::Single,
        parts: MultiplierComponents<A::Single>,
        groups: Seq<protocol::DamageStatusContribution<A::Single>>,
        shares: Seq<protocol::DamageStatusContribution<A::Single>>,
    |
        multiplier::base_of::<A>(hit.0).contains(base) && multiplier::parts_of::<A>(
            hit.0,
            hit.1,
            base,
        ).contains(parts) && #[trigger] started_from::<A>(
            hit.0,
            hit.1,
            base,
            parts,
            groups,
            shares,
            after,
        );
    assert(multiplier::base_of::<A>(hit.0).contains(base));
    assert(multiplier::parts_of::<A>(hit.0, hit.1, base).contains(parts));
    assert(multiplier::amplify_of::<A>(hit.0).contains(after.average_amplify_multiplier));
    assert(multiplier::attack_defense_of::<A>(hit.0).contains(
        after.average_attack_defense_multiplier,
    ));
    assert(multiplier::critical_rate_of::<A>(hit.0).contains(after.average_critical_rate));
    lemma_exact_cap::<A>(num, wide, hit.0, after.average_damage_cap);
}

/// The cap of a hit in exact arithmetic.
proof fn lemma_exact_cap<A: Arithmetic>(
    num: spec_fn(A::Single) -> real,
    wide: spec_fn(A::Double) -> real,
    details: DamageDetails<A::Single>,
    cap: A::Single,
)
    requires
        arithmetic::is_exact::<A>(num, wide),
        cap_of::<A>(details).contains(cap),
    ensures
        num(cap) == if details.damage_cap > 0 {
            details.damage_cap as int as real
        } else {
            0int as real
        },
{
}

/// A step of an average in exact arithmetic, whichever value it moves towards.
proof fn lemma_exact_step<A: Arithmetic>(
    num: spec_fn(A::Single) -> real,
    wide: spec_fn(A::Double) -> real,
    average: A::Single,
    values: Set<A::Single>,
    hits: A::Single,
    result: A::Single,
) -> (value: A::Single)
    requires
        arithmetic::is_exact::<A>(num, wide),
        averaged::<A>(average, values, hits).contains(result),
        num(hits) >= 1int as real,
    ensures
        values.contains(value),
        num(hits) * num(result) == (num(hits) - 1int as real) * num(average) + num(value),
{
    let differences = arithmetic::difference::<A>(values, outcome::exactly(average));
    let (same, step) = choose|same: A::Single, step: A::Single|
        same == average && arithmetic::quotient::<A>(
            differences,
            outcome::exactly(hits),
        ).contains(step) && #[trigger] call_ensures(A::plus, (same, step), result);
    let (gap, count) = choose|gap: A::Single, count: A::Single|
        differences.contains(gap) && count == hits && #[trigger] call_ensures(
            A::divided,
            (gap, count),
            step,
        );
    let (value, old_average) = choose|value: A::Single, old_average: A::Single|
        values.contains(value) && old_average == average && #[trigger] call_ensures(
            A::minus,
            (value, old_average),
            gap,
        );
    assert(averaged::<A>(average, outcome::exactly(value), hits).contains(result)) by {
        assert(arithmetic::difference::<A>(
            outcome::exactly(value),
            outcome::exactly(average),
        ).contains(gap));
        assert(arithmetic::quotient::<A>(
            arithmetic::difference::<A>(outcome::exactly(value), outcome::exactly(average)),
            outcome::exactly(hits),
        ).contains(step));
    }
    law_an_average_stays_the_mean::<A>(num, wide, average, value, hits, result);
    value
}

/// A weighted average moves so that, weighted with all hits, it is what it was
/// weighted with the hits before, and the value weighted with its own weight.
pub proof fn law_a_weighted_average_stays_the_mean<A: Arithmetic>(
    num: spec_fn(A::Single) -> real,
    wide: spec_fn(A::Double) -> real,
    average: A::Single,
    value: A::Single,
    weight: A::Single,
    previous_weight: A::Double,
    total_weight: A::Double,
    result: A::Single,
)
    requires
        arithmetic::is_exact::<A>(num, wide),
        weighted::<A>(average, value, weight, previous_weight, total_weight).contains(result),
        wide(previous_weight) >= 0int as real,
        num(weight) >= 0int as real,
        wide(total_weight) == wide(previous_weight) + num(weight),
    ensures
        wide(total_weight) * num(result) == wide(previous_weight) * num(average) + num(weight)
            * num(value),
        wide(total_weight) == 0int as real ==> num(result) == 0int as real,
{
    let (a, v, w) = (num(average), num(value), num(weight));
    let (p, t, r) = (wide(previous_weight), wide(total_weight), num(result));
    if t <= 0int as real {
        assert(t * r == p * a + w * v) by (nonlinear_arith)
            requires
                t == 0int as real,
                p == 0int as real,
                w == 0int as real,
        ;
    } else {
        let earlier = arithmetic::wide_product::<A>(
            arithmetic::widened::<A>(outcome::exactly(average)),
            outcome::exactly(previous_weight),
        );
        let own = arithmetic::wide_product::<A>(
            arithmetic::widened::<A>(outcome::exactly(value)),
            arithmetic::widened::<A>(outcome::exactly(weight)),
        );
        let sums = arithmetic::narrowed::<A>(arithmetic::wide_sum::<A>(earlier, own));
        let totals = arithmetic::narrowed::<A>(outcome::exactly(total_weight));
        let (sum, total) = choose|sum: A::Single, total: A::Single|
            sums.contains(sum) && totals.contains(total) && #[trigger] call_ensures(
                A::divided,
                (sum, total),
                result,
            );
        let wide_sum = choose|wide_sum: A::Double|
            arithmetic::wide_sum::<A>(earlier, own).contains(wide_sum) && #[trigger] call_ensures(
                A::narrowed,
                (wide_sum,),
                sum,
            );
        let (x, y) = choose|x: A::Double, y: A::Double|
            earlier.contains(x) && own.contains(y) && #[trigger] call_ensures(
                A::wide_plus,
                (x, y),
                wide_sum,
            );
        assert(wide(x) == a * p);
        assert(wide(y) == v * w);
        assert(t * r == p * a + w * v) by (nonlinear_arith)
            requires
                r * t == a * p + v * w,
        ;
    }
}

/// One more hit moves each average towards its figure.
#[verifier::spinoff_prover]
proof fn lemma_next_averages<A: Arithmetic>(
    num: spec_fn(A::Single) -> real,
    wide: spec_fn(A::Double) -> real,
    before: AverageDamageDetails<A>,
    hit: Hit<A::Single>,
    after: AverageDamageDetails<A>,
)
    requires
        arithmetic::is_exact::<A>(num, wide),
        before.hits >= 1,
        updated::<A>(before, hit.0, hit.1, after),
    ensures
        limit_figure(num)(hit).contains(
            after.hits as int as real * num(after.average_damage_limit_multiplier) - before.hits as int as real * num(
                before.average_damage_limit_multiplier,
            ),
        ),
        amplify_figure::<A>(num)(hit).contains(
            after.hits as int as real * num(after.average_amplify_multiplier) - before.hits as int as real * num(
                before.average_amplify_multiplier,
            ),
        ),
        attack_defense_figure::<A>(num)(hit).contains(
            after.hits as int as real * num(after.average_attack_defense_multiplier) - before.hits as int as real * num(
                before.average_attack_defense_multiplier,
            ),
        ),
        critical_figure::<A>(num)(hit).contains(
            after.hits as int as real * num(after.average_critical_rate) - before.hits as int as real * num(
                before.average_critical_rate,
            ),
        ),
        base_figure::<A>(num)(hit).contains(
            after.hits as int as real * num(after.average_base_damage) - before.hits as int as real * num(
                before.average_base_damage,
            ),
        ),
        cap_figure()(hit).contains(
            after.hits as int as real * num(after.average_damage_cap) - before.hits as int as real * num(
                before.average_damage_cap,
            ),
        ),
{
    let (parts, groups, shares, weights) = choose|
        parts: MultiplierComponents<A::Single>,
        groups: Seq<protocol::DamageStatusContribution<A::Single>>,
        shares: Seq<protocol::DamageStatusContribution<A::Single>>,
        weights: HitWeights<A::Single, A::Double>,
    |
        multiplier::base_of::<A>(hit.0).contains(weights.base_damage) && are_weights::<A>(
            before,
            weights.base_damage,
            after,
            weights,
        ) && #[trigger] updated_from::<A>(
            before,
            hit.0,
            hit.1,
            parts,
            groups,
            shares,
            weights,
            after,
        );
    assert(multiplier::base_of::<A>(hit.0).contains(weights.base_damage));
    assert(num(weights.hits) == after.hits as int as real);
    assert(after.hits as int as real - 1int as real == before.hits as int as real);
    let limit = lemma_exact_step::<A>(
        num,
        wide,
        before.average_damage_limit_multiplier,
        arithmetic::finite_or::<A>(
            outcome::exactly(hit.0.damage_limit_multiplier),
            arithmetic::one::<A>(),
        ),
        weights.hits,
        after.average_damage_limit_multiplier,
    );
    let amplify = lemma_exact_step::<A>(
        num,
        wide,
        before.average_amplify_multiplier,
        multiplier::amplify_of::<A>(hit.0),
        weights.hits,
        after.average_amplify_multiplier,
    );
    let attack_defense = lemma_exact_step::<A>(
        num,
        wide,
        before.average_attack_defense_multiplier,
        multiplier::attack_defense_of::<A>(hit.0),
        weights.hits,
        after.average_attack_defense_multiplier,
    );
    let critical = lemma_exact_step::<A>(
        num,
        wide,
        before.average_critical_rate,
        multiplier::critical_rate_of::<A>(hit.0),
        weights.hits,
        after.average_critical_rate,
    );
    let base = lemma_exact_step::<A>(
        num,
        wide,
        before.average_base_damage,
        outcome::exactly(weights.base_damage),
        weights.hits,
        after.average_base_damage,
    );
    let cap = lemma_exact_step::<A>(
        num,
        wide,
        before.average_damage_cap,
        cap_of::<A>(hit.0),
        weights.hits,
        after.average_damage_cap,
    );
    lemma_exact_cap::<A>(num, wide, hit.0, cap);
}

/// One more hit adds its base and its weighted parts.
#[verifier::spinoff_prover]
proof fn lemma_next_weighted_parts<A: Arithmetic>(
    num: spec_fn(A::Single) -> real,
    wide: spec_fn(A::Double) -> real,
    before: AverageDamageDetails<A>,
    hit: Hit<A::Single>,
    after: AverageDamageDetails<A>,
)
    requires
        arithmetic::is_exact::<A>(num, wide),
        wide(before.normalization_damage) >= 0int as real,
        updated::<A>(before, hit.0, hit.1, after),
    ensures
        wide(after.normalization_damage) >= wide(before.normalization_damage),
        base_figure::<A>(num)(hit).contains(
            wide(after.normalization_damage) - wide(before.normalization_damage),
        ),
        weighted_part::<A>(num, limit_part())(hit).contains(
            wide(after.normalization_damage) * num(after.damage_limit_contribution) - wide(
                before.normalization_damage,
            ) * num(before.damage_limit_contribution),
        ),
        weighted_part::<A>(num, amplify_part())(hit).contains(
            wide(after.normalization_damage) * num(after.amplify_contribution) - wide(
                before.normalization_damage,
            ) * num(before.amplify_contribution),
        ),
        weighted_part::<A>(num, attack_defense_part())(hit).contains(
            wide(after.normalization_damage) * num(after.attack_defense_contribution) - wide(
                before.normalization_damage,
            ) * num(before.attack_defense_contribution),
        ),
{
    let (parts, groups, shares, weights) = choose|
        parts: MultiplierComponents<A::Single>,
        groups: Seq<protocol::DamageStatusContribution<A::Single>>,
        shares: Seq<protocol::DamageStatusContribution<A::Single>>,
        weights: HitWeights<A::Single, A::Double>,
    |
        multiplier::base_of::<A>(hit.0).contains(weights.base_damage) && multiplier::parts_of::<A>(
            hit.0,
            hit.1,
            weights.base_damage,
        ).contains(parts) && #[trigger] updated_from::<A>(
            before,
            hit.0,
            hit.1,
            parts,
            groups,
            shares,
            weights,
            after,
        );
    let base = weights.base_damage;
    assert(multiplier::base_of::<A>(hit.0).contains(base));
    assert(multiplier::parts_of::<A>(hit.0, hit.1, base).contains(parts));
    multiplier::law_the_base_is_the_damage_up_to_the_cap::<A>(num, wide, hit.0, base);
    assert(wide(after.normalization_damage) == wide(before.normalization_damage) + num(base));
    law_a_weighted_average_stays_the_mean::<A>(
        num,
        wide,
        before.damage_limit_contribution,
        parts.damage_limit,
        base,
        before.normalization_damage,
        after.normalization_damage,
        after.damage_limit_contribution,
    );
    law_a_weighted_average_stays_the_mean::<A>(
        num,
        wide,
        before.amplify_contribution,
        parts.amplify,
        base,
        before.normalization_damage,
        after.normalization_damage,
        after.amplify_contribution,
    );
    law_a_weighted_average_stays_the_mean::<A>(
        num,
        wide,
        before.attack_defense_contribution,
        parts.attack_defense,
        base,
        before.normalization_damage,
        after.normalization_damage,
        after.attack_defense_contribution,
    );
}

/// Whether the figures are the means, and the sums, of all hits: each average,
/// taken as often as there were hits, is the sum of its figure over the hits; the
/// normalization damage is the sum of the bases; and each contribution, weighted
/// with all bases, is the sum of the parts weighted with their own.
#[verifier::opaque]
pub open spec fn are_means<A: Arithmetic>(
    num: spec_fn(A::Single) -> real,
    wide: spec_fn(A::Double) -> real,
    hits: Seq<Hit<A::Single>>,
    state: AverageDamageDetails<A>,
) -> bool {
    let n = hits.len() as int as real;
    &&& state.hits == hits.len()
    &&& wide(state.normalization_damage) >= 0int as real
    &&& sums_of(hits, base_figure::<A>(num)).contains(wide(state.normalization_damage))
    &&& sums_of(hits, limit_figure(num)).contains(n * num(state.average_damage_limit_multiplier))
    &&& sums_of(hits, amplify_figure::<A>(num)).contains(n * num(state.average_amplify_multiplier))
    &&& sums_of(hits, attack_defense_figure::<A>(num)).contains(n * num(state.average_attack_defense_multiplier))
    &&& sums_of(hits, critical_figure::<A>(num)).contains(n * num(state.average_critical_rate))
    &&& sums_of(hits, base_figure::<A>(num)).contains(n * num(state.average_base_damage))
    &&& sums_of(hits, cap_figure()).contains(n * num(state.average_damage_cap))
    &&& sums_of(hits, weighted_part::<A>(num, limit_part())).contains(
        wide(state.normalization_damage) * num(state.damage_limit_contribution),
    )
    &&& sums_of(hits, weighted_part::<A>(num, amplify_part())).contains(
        wide(state.normalization_damage) * num(state.amplify_contribution),
    )
    &&& sums_of(hits, weighted_part::<A>(num, attack_defense_part())).contains(
        wide(state.normalization_damage) * num(state.attack_defense_contribution),
    )
}

/// A history that is not looked into.
#[verifier::opaque]
spec fn passed<A: Arithmetic>(
    hits: Seq<Hit<A::Single>>,
    states: Seq<AverageDamageDetails<A>>,
) -> bool {
    is_history::<A>(hits, states)
}

/// Once a number is that number.
proof fn lemma_once(n: real, x: real)
    requires
        n == 1int as real,
    ensures
        n * x == 0int as real + x,
{
    assert(n * x == x) by (nonlinear_arith)
        requires
            n == 1int as real,
    ;
}

/// The figures of one hit are means.
#[verifier::spinoff_prover]
proof fn lemma_means_of_one_hit<A: Arithmetic>(
    num: spec_fn(A::Single) -> real,
    wide: spec_fn(A::Double) -> real,
    hits: Seq<Hit<A::Single>>,
    after: AverageDamageDetails<A>,
)
    requires
        hits.len() == 1,
        after.hits == 1,
        wide(after.normalization_damage) >= 0int as real,
        base_figure::<A>(num)(hits.last()).contains(wide(after.normalization_damage)),
        limit_figure(num)(hits.last()).contains(num(after.average_damage_limit_multiplier)),
        amplify_figure::<A>(num)(hits.last()).contains(num(after.average_amplify_multiplier)),
        attack_defense_figure::<A>(num)(hits.last()).contains(num(after.average_attack_defense_multiplier)),
        critical_figure::<A>(num)(hits.last()).contains(num(after.average_critical_rate)),
        base_figure::<A>(num)(hits.last()).contains(num(after.average_base_damage)),
        cap_figure()(hits.last()).contains(num(after.average_damage_cap)),
        weighted_part::<A>(num, limit_part())(hits.last()).contains(
            wide(after.normalization_damage) * num(after.damage_limit_contribution),
        ),
        weighted_part::<A>(num, amplify_part())(hits.last()).contains(
            wide(after.normalization_damage) * num(after.amplify_contribution),
        ),
        weighted_part::<A>(num, attack_defense_part())(hits.last()).contains(
            wide(after.normalization_damage) * num(after.attack_defense_contribution),
        ),
    ensures
        are_means::<A>(num, wide, hits, after),
{
    reveal(are_means);
    let none = hits.drop_last();
    let zero = 0int as real;
    let n = hits.len() as int as real;
    lemma_once(n, num(after.average_damage_limit_multiplier));
    lemma_once(n, num(after.average_amplify_multiplier));
    lemma_once(n, num(after.average_attack_defense_multiplier));
    lemma_once(n, num(after.average_critical_rate));
    lemma_once(n, num(after.average_base_damage));
    lemma_once(n, num(after.average_damage_cap));
    lemma_no_figures(none, limit_figure(num));
    lemma_one_more_figure(hits, limit_figure(num), zero, num(after.average_damage_limit_multiplier));
    lemma_no_figures(none, amplify_figure::<A>(num));
    lemma_one_more_figure(hits, amplify_figure::<A>(num), zero, num(after.average_amplify_multiplier));
    lemma_no_figures(none, attack_defense_figure::<A>(num));
    lemma_one_more_figure(hits, attack_defense_figure::<A>(num), zero, num(after.average_attack_defense_multiplier));
    lemma_no_figures(none, critical_figure::<A>(num));
    lemma_one_more_figure(hits, critical_figure::<A>(num), zero, num(after.average_critical_rate));
    lemma_no_figures(none, base_figure::<A>(num));
    lemma_one_more_figure(hits, base_figure::<A>(num), zero, num(after.average_base_damage));
    lemma_no_figures(none, cap_figure());
    lemma_one_more_figure(hits, cap_figure(), zero, num(after.average_damage_cap));
    lemma_one_more_figure(hits, base_figure::<A>(num), zero, wide(after.normalization_damage));
    lemma_no_figures(none, weighted_part::<A>(num, limit_part()));
    lemma_one_more_figure(
        hits,
        weighted_part::<A>(num, limit_part()),
        zero,
        wide(after.normalization_damage) * num(after.damage_limit_contribution),
    );
    lemma_no_figures(none, weighted_part::<A>(num, amplify_part()));
    lemma_one_more_figure(
        hits,
        weighted_part::<A>(num, amplify_part()),
        zero,
        wide(after.normalization_damage) * num(after.amplify_contribution),
    );
    lemma_no_figures(none, weighted_part::<A>(num, attack_defense_part()));
    lemma_one_more_figure(
        hits,
        weighted_part::<A>(num, attack_defense_part()),
        zero,
        wide(after.normalization_damage) * num(after.attack_defense_contribution),
    );
}

/// One more hit keeps the figures means.
#[verifier::spinoff_prover]
proof fn lemma_means_of_one_more_hit<A: Arithmetic>(
    num: spec_fn(A::Single) -> real,
    wide: spec_fn(A::Double) -> real,
    hits: Seq<Hit<A::Single>>,
    before: AverageDamageDetails<A>,
    after: AverageDamageDetails<A>,
)
    requires
        hits.len() > 1,
        are_means::<A>(num, wide, hits.drop_last(), before),
        after.hits == before.hits + 1,
        wide(after.normalization_damage) >= wide(before.normalization_damage),
        base_figure::<A>(num)(hits.last()).contains(
            wide(after.normalization_damage) - wide(before.normalization_damage),
        ),
        limit_figure(num)(hits.last()).contains(
            after.hits as int as real * num(after.average_damage_limit_multiplier) - before.hits as int as real * num(
                before.average_damage_limit_multiplier,
            ),
        ),
        amplify_figure::<A>(num)(hits.last()).contains(
            after.hits as int as real * num(after.average_amplify_multiplier) - before.hits as int as real * num(
                before.average_amplify_multiplier,
            ),
        ),
        attack_defense_figure::<A>(num)(hits.last()).contains(
            after.hits as int as real * num(after.average_attack_defense_multiplier) - before.hits as int as real * num(
                before.average_attack_defense_multiplier,
            ),
        ),
        critical_figure::<A>(num)(hits.last()).contains(
            after.hits as int as real * num(after.average_critical_rate) - before.hits as int as real * num(
                before.average_critical_rate,
            ),
        ),
        base_figure::<A>(num)(hits.last()).contains(
            after.hits as int as real * num(after.average_base_damage) - before.hits as int as real * num(
                before.average_base_damage,
            ),
        ),
        cap_figure()(hits.last()).contains(
            after.hits as int as real * num(after.average_damage_cap) - before.hits as int as real * num(
                before.average_damage_cap,
            ),
        ),
        weighted_part::<A>(num, limit_part())(hits.last()).contains(
            wide(after.normalization_damage) * num(after.damage_limit_contribution) - wide(
                before.normalization_damage,
            ) * num(before.damage_limit_contribution),
        ),
        weighted_part::<A>(num, amplify_part())(hits.last()).contains(
            wide(after.normalization_damage) * num(after.amplify_contribution) - wide(
                before.normalization_damage,
            ) * num(before.amplify_contribution),
        ),
        weighted_part::<A>(num, attack_defense_part())(hits.last()).contains(
            wide(after.normalization_damage) * num(after.attack_defense_contribution) - wide(
                before.normalization_damage,
            ) * num(before.attack_defense_contribution),
        ),
    ensures
        are_means::<A>(num, wide, hits, after),
{
    reveal(are_means);
    let (n, m) = (after.hits as int as real, before.hits as int as real);
    lemma_one_more_figure(
        hits,
        limit_figure(num),
        m * num(before.average_damage_limit_multiplier),
        n * num(after.average_damage_limit_multiplier) - m * num(before.average_damage_limit_multiplier),
    );
    lemma_one_more_figure(
        hits,
        amplify_figure::<A>(num),
        m * num(before.average_amplify_multiplier),
        n * num(after.average_amplify_multiplier) - m * num(before.average_amplify_multiplier),
    );
    lemma_one_more_figure(
        hits,
        attack_defense_figure::<A>(num),
        m * num(before.average_attack_defense_multiplier),
        n * num(after.average_attack_defense_multiplier) - m * num(before.average_attack_defense_multiplier),
    );
    lemma_one_more_figure(
        hits,
        critical_figure::<A>(num),
        m * num(before.average_critical_rate),
        n * num(after.average_critical_rate) - m * num(before.average_critical_rate),
    );
    lemma_one_more_figure(
        hits,
        base_figure::<A>(num),
        m * num(before.average_base_damage),
        n * num(after.average_base_damage) - m * num(before.average_base_damage),
    );
    lemma_one_more_figure(
        hits,
        cap_figure(),
        m * num(before.average_damage_cap),
        n * num(after.average_damage_cap) - m * num(before.average_damage_cap),
    );
    lemma_one_more_figure(
        hits,
        base_figure::<A>(num),
        wide(before.normalization_damage),
        wide(after.normalization_damage) - wide(before.normalization_damage),
    );
    lemma_one_more_figure(
        hits,
        weighted_part::<A>(num, limit_part()),
        wide(before.normalization_damage) * num(before.damage_limit_contribution),
        wide(after.normalization_damage) * num(after.damage_limit_contribution) - wide(before.normalization_damage)
            * num(before.damage_limit_contribution),
    );
    lemma_one_more_figure(
        hits,
        weighted_part::<A>(num, amplify_part()),
        wide(before.normalization_damage) * num(before.amplify_contribution),
        wide(after.normalization_damage) * num(after.amplify_contribution) - wide(before.normalization_damage)
            * num(before.amplify_contribution),
    );
    lemma_one_more_figure(
        hits,
        weighted_part::<A>(num, attack_defense_part()),
        wide(before.normalization_damage) * num(before.attack_defense_contribution),
        wide(after.normalization_damage) * num(after.attack_defense_contribution) - wide(before.normalization_damage)
            * num(before.attack_defense_contribution),
    );
}

/// The first hit of a history.
#[verifier::spinoff_prover]
proof fn lemma_first_of_history<A: Arithmetic>(
    num: spec_fn(A::Single) -> real,
    wide: spec_fn(A::Double) -> real,
    hits: Seq<Hit<A::Single>>,
    states: Seq<AverageDamageDetails<A>>,
)
    requires
        arithmetic::is_exact::<A>(num, wide),
        passed::<A>(hits, states),
        hits.len() == 1,
    ensures
        are_means::<A>(num, wide, hits, states.last()),
{
    reveal(passed);
    lemma_figures_of_a_first_hit::<A>(hits[0], states[0]);
    lemma_first_averages::<A>(num, wide, hits[0], states[0]);
    lemma_base_is_not_negative::<A>(
        num,
        wide,
        hits[0],
        wide(states[0].normalization_damage),
    );
    lemma_means_of_one_hit::<A>(num, wide, hits, states[0]);
}

/// The last hit of a longer history.
#[verifier::spinoff_prover]
proof fn lemma_last_of_history<A: Arithmetic>(
    num: spec_fn(A::Single) -> real,
    wide: spec_fn(A::Double) -> real,
    hits: Seq<Hit<A::Single>>,
    states: Seq<AverageDamageDetails<A>>,
)
    requires
        arithmetic::is_exact::<A>(num, wide),
        passed::<A>(hits, states),
        hits.len() > 1,
        are_means::<A>(num, wide, hits.drop_last(), states.drop_last().last()),
    ensures
        are_means::<A>(num, wide, hits, states.last()),
{
    reveal(passed);
    let before = states.drop_last().last();
    assert(before.hits >= 1 && wide(before.normalization_damage) >= 0int as real) by {
        reveal(are_means);
    }
    assert(follows::<A>(hits, states, hits.len() - 1));
    lemma_figures_of_one_more_hit::<A>(before, hits.last(), states.last());
    lemma_next_averages::<A>(num, wide, before, hits.last(), states.last());
    lemma_next_weighted_parts::<A>(num, wide, before, hits.last(), states.last());
    lemma_means_of_one_more_hit::<A>(num, wide, hits, before, states.last());
}

/// A history without its last hit is one.
proof fn lemma_history_before<A: Arithmetic>(
    hits: Seq<Hit<A::Single>>,
    states: Seq<AverageDamageDetails<A>>,
)
    requires
        passed::<A>(hits, states),
        hits.len() > 1,
    ensures
        passed::<A>(hits.drop_last(), states.drop_last()),
{
    reveal(passed);
    assert forall|i: int| 0 < i < hits.len() - 1 implies #[trigger] follows::<A>(
        hits.drop_last(),
        states.drop_last(),
        i,
    ) by {
        assert(follows::<A>(hits, states, i));
    }
}

/// The figures after any number of hits are means.
proof fn lemma_means_of_history<A: Arithmetic>(
    num: spec_fn(A::Single) -> real,
    wide: spec_fn(A::Double) -> real,
    hits: Seq<Hit<A::Single>>,
    states: Seq<AverageDamageDetails<A>>,
)
    requires
        arithmetic::is_exact::<A>(num, wide),
        passed::<A>(hits, states),
        hits.len() > 0,
    ensures
        are_means::<A>(num, wide, hits, states.last()),
    decreases hits.len(),
{
    if hits.len() == 1 {
        lemma_first_of_history::<A>(num, wide, hits, states);
    } else {
        lemma_history_before::<A>(hits, states);
        lemma_means_of_history::<A>(num, wide, hits.drop_last(), states.drop_last());
        lemma_last_of_history::<A>(num, wide, hits, states);
    }
}

/// After any number of hits each average, taken as often as there were hits,
/// is the sum of the figure over the hits; the normalization damage is the sum
/// of the bases; and each contribution, weighted with all bases, is the sum of
/// the parts weighted with their own.
#[verifier::spinoff_prover]
pub proof fn law_averages_are_means_over_the_hits<A: Arithmetic>(
    num: spec_fn(A::Single) -> real,
    wide: spec_fn(A::Double) -> real,
    hits: Seq<Hit<A::Single>>,
    states: Seq<AverageDamageDetails<A>>,
)
    requires
        arithmetic::is_exact::<A>(num, wide),
        is_history::<A>(hits, states),
    ensures
        are_means::<A>(num, wide, hits, states.last()),
{
    assert(passed::<A>(hits, states)) by {
        reveal(passed);
    }
    lemma_means_of_history::<A>(num, wide, hits, states);
}

/// A base is not negative.
proof fn lemma_base_is_not_negative<A: Arithmetic>(
    num: spec_fn(A::Single) -> real,
    wide: spec_fn(A::Double) -> real,
    hit: Hit<A::Single>,
    base: real,
)
    requires
        arithmetic::is_exact::<A>(num, wide),
        base_figure::<A>(num)(hit).contains(base),
    ensures
        base >= 0int as real,
{
    let number = choose|number: A::Single| #[trigger]
        multiplier::base_of::<A>(hit.0).contains(number) && num(number) == base;
    multiplier::law_the_base_is_the_damage_up_to_the_cap::<A>(num, wide, hit.0, number);
}

/// A count over the normalization damage in exact arithmetic.
proof fn lemma_exact_normalized<A: Arithmetic>(
    num: spec_fn(A::Single) -> real,
    wide: spec_fn(A::Double) -> real,
    count: u64,
    normalization: A::Double,
    result: A::Single,
)
    requires
        arithmetic::is_exact::<A>(num, wide),
        normalized::<A>(arithmetic::wide_of_u64::<A>(count), normalization).contains(result),
    ensures
        wide(normalization) > 0int as real ==> num(result) * wide(normalization)
            == count as int as real,
        wide(normalization) <= 0int as real ==> num(result) == 0int as real,
{
}

/// The parts of a multiplier in exact arithmetic.
proof fn lemma_exact_composed<A: Arithmetic>(
    num: spec_fn(A::Single) -> real,
    wide: spec_fn(A::Double) -> real,
    average: AverageDamageDetails<A>,
)
    requires
        arithmetic::is_exact::<A>(num, wide),
        composed::<A>(average),
    ensures
        num(average.recognized_multiplier) == 1int as real + num(average.damage_limit_contribution)
            + num(average.amplify_contribution) + num(average.attack_defense_contribution) + num(
            average.supplementary_contribution,
        ),
        num(average.effective_multiplier) == num(average.recognized_multiplier) + num(
            average.unattributed_contribution,
        ),
{
}

/// Whether the multiplier of all hits, times the sum of their bases, is all
/// damage that they led to; the supplementary part likewise the supplementary
/// damage; and the parts, with the unattributed rest, make up the multiplier.
pub open spec fn is_balanced<A: Arithmetic>(
    num: spec_fn(A::Single) -> real,
    wide: spec_fn(A::Double) -> real,
    average: AverageDamageDetails<A>,
) -> bool {
    &&& num(average.effective_multiplier) * wide(average.normalization_damage) == (
    average.total_damage + average.supplementary_damage) as real
    &&& num(average.supplementary_contribution) * wide(average.normalization_damage)
        == average.supplementary_damage as int as real
    &&& num(average.recognized_multiplier) == 1int as real + num(average.damage_limit_contribution)
        + num(average.amplify_contribution) + num(average.attack_defense_contribution) + num(
        average.supplementary_contribution,
    )
    &&& num(average.effective_multiplier) == num(average.recognized_multiplier) + num(
        average.unattributed_contribution,
    )
}

/// Hits with a base and supplementary damage keep the multiplier balanced.
/// Without any base a hit leaves no multiplier.
pub proof fn law_the_multiplier_is_the_damage_over_the_bases<A: Arithmetic>(
    num: spec_fn(A::Single) -> real,
    wide: spec_fn(A::Double) -> real,
    before: AverageDamageDetails<A>,
    hit: Hit<A::Single>,
    damage: u64,
    after: AverageDamageDetails<A>,
)
    requires
        arithmetic::is_exact::<A>(num, wide),
        after.total_damage + after.supplementary_damage <= u64::MAX,
    ensures
        updated::<A>(before, hit.0, hit.1, after) && wide(after.normalization_damage)
            > 0int as real ==> is_balanced::<A>(num, wide, after),
        updated::<A>(before, hit.0, hit.1, after) && wide(after.normalization_damage)
            <= 0int as real ==> num(after.effective_multiplier) == 0int as real && num(
            after.supplementary_contribution,
        ) == 0int as real,
        before.supplementary_damage + damage <= u64::MAX && supplemented::<A>(
            before,
            damage,
            after,
        ) && wide(before.normalization_damage) > 0int as real ==> is_balanced::<A>(
            num,
            wide,
            after,
        ) && after.supplementary_damage == before.supplementary_damage + damage
            && after.normalization_damage == before.normalization_damage,
{
    if updated::<A>(before, hit.0, hit.1, after) {
        lemma_figures_of_one_more_hit::<A>(before, hit, after);
        lemma_exact_normalized::<A>(
            num,
            wide,
            (after.total_damage + after.supplementary_damage) as u64,
            after.normalization_damage,
            after.effective_multiplier,
        );
        lemma_exact_normalized::<A>(
            num,
            wide,
            after.supplementary_damage,
            after.normalization_damage,
            after.supplementary_contribution,
        );
        lemma_exact_composed::<A>(num, wide, after);
    }
    if supplemented::<A>(before, damage, after) && wide(before.normalization_damage)
        > 0int as real {
        lemma_exact_composed::<A>(num, wide, after);
    }
}

/// Whether an entry has taken account of one more hit. Taken as often as there
/// were hits, its value has gained what its status amounts to in the hit; its
/// share, weighted with all bases, has gained its share in the hit, weighted with
/// the hit's base; and it has been active once more if its status occurs in the
/// hit. A status that had no entry comes from nothing.
pub open spec fn entry_gains<A: Arithmetic>(
    num: spec_fn(A::Single) -> real,
    wide: spec_fn(A::Double) -> real,
    hits: u32,
    normalization: A::Double,
    details: DamageDetails<A::Single>,
    base: A::Single,
    shares: Seq<protocol::DamageStatusContribution<A::Single>>,
    before: (real, real, int),
    entry: DamageStatusContribution<A::Single>,
) -> bool {
    let key = entry_key(entry);
    let n = hits as int as real;
    let (value, share, active) = before;
    &&& n * num(entry.average_value) == value + multiplier::weight_of(num, details.statuses@, key)
    &&& wide(normalization) * num(entry.multiplier_contribution) == share + num(base)
        * grouping::sum_of(num, shares, grouping::is_status(key))
    &&& entry.active_hits == active + if grouping::keys_of(details.statuses@).contains(key) {
        1int
    } else {
        0int
    }
}

/// What an entry amounts to, taken as often as there were hits and weighted
/// with all bases, and how often it has been active.
pub open spec fn amounts<A: Arithmetic>(
    num: spec_fn(A::Single) -> real,
    wide: spec_fn(A::Double) -> real,
    average: AverageDamageDetails<A>,
    i: int,
) -> (real, real, int) {
    let entry = average.statuses@[i];
    (
        average.hits as int as real * num(entry.average_value),
        wide(average.normalization_damage) * num(entry.multiplier_contribution),
        entry.active_hits as int,
    )
}

/// One more hit ages and continues the entries that there are, in place, and
/// adds one for each new status at the end.
#[verifier::spinoff_prover]
pub proof fn law_entries_take_account_of_one_more_hit<A: Arithmetic>(
    num: spec_fn(A::Single) -> real,
    wide: spec_fn(A::Double) -> real,
    before: AverageDamageDetails<A>,
    details: DamageDetails<A::Single>,
    damage: u64,
    after: AverageDamageDetails<A>,
)
    requires
        arithmetic::is_exact::<A>(num, wide),
        before.wf(),
        before.hits >= 1,
        wide(before.normalization_damage) >= 0int as real,
        updated::<A>(before, details, damage, after),
    ensures
        after.statuses@.len() >= before.statuses@.len(),
        forall|i: int|
            0 <= i < before.statuses@.len() ==> #[trigger] entry_key(after.statuses@[i])
                == entry_key(before.statuses@[i]),
        forall|i: int|
            before.statuses@.len() <= i < after.statuses@.len() ==> grouping::keys_of(
                details.statuses@,
            ).contains(#[trigger] entry_key(after.statuses@[i])) && !entry_keys(
                before.statuses@,
            ).contains(entry_key(after.statuses@[i])),
        exists|
            base: A::Single,
            parts: MultiplierComponents<A::Single>,
            shares: Seq<protocol::DamageStatusContribution<A::Single>>,
        |
            multiplier::base_of::<A>(details).contains(base) && multiplier::parts_of::<A>(
                details,
                damage,
                base,
            ).contains(parts) && #[trigger] multiplier::shares_of::<A>(
                details,
                parts.attack_defense,
                shares,
            ) && #[trigger] entries_gain::<A>(num, wide, before, details, base, shares, after),
{
    let (parts, groups, shares, weights) = choose|
        parts: MultiplierComponents<A::Single>,
        groups: Seq<protocol::DamageStatusContribution<A::Single>>,
        shares: Seq<protocol::DamageStatusContribution<A::Single>>,
        weights: HitWeights<A::Single, A::Double>,
    |
        multiplier::base_of::<A>(details).contains(weights.base_damage) && multiplier::parts_of::<
            A,
        >(details, damage, weights.base_damage).contains(parts) && multiplier::signed_groups::<A>(
            details.statuses@,
            groups,
        ) && multiplier::shares_of::<A>(details, parts.attack_defense, shares) && are_weights::<A>(
            before,
            weights.base_damage,
            after,
            weights,
        ) && #[trigger] updated_from::<A>(
            before,
            details,
            damage,
            parts,
            groups,
            shares,
            weights,
            after,
        );
    multiplier::law_the_base_is_the_damage_up_to_the_cap::<A>(
        num,
        wide,
        details,
        weights.base_damage,
    );
    let facts = MergeFacts { groups, shares, weights };
    assert(wide(after.normalization_damage) == wide(before.normalization_damage) + num(
        weights.base_damage,
    ));
    lemma_weights_are_exact::<A>(num, wide, before, after, weights);
    assert(multiplier::shares_of::<A>(details, parts.attack_defense, facts.shares));
    lemma_entries_gain::<A>(num, wide, before, details, facts, after);
}

/// What one more hit is merged from.
pub ghost struct MergeFacts<A: Arithmetic> {
    pub groups: Seq<protocol::DamageStatusContribution<A::Single>>,
    pub shares: Seq<protocol::DamageStatusContribution<A::Single>>,
    pub weights: HitWeights<A::Single, A::Double>,
}

/// Whether all entries have taken account of one more hit.
pub open spec fn entries_gain<A: Arithmetic>(
    num: spec_fn(A::Single) -> real,
    wide: spec_fn(A::Double) -> real,
    before: AverageDamageDetails<A>,
    details: DamageDetails<A::Single>,
    base: A::Single,
    shares: Seq<protocol::DamageStatusContribution<A::Single>>,
    after: AverageDamageDetails<A>,
) -> bool {
    forall|i: int|
        #![trigger after.statuses@[i]]
        0 <= i < after.statuses@.len() ==> entry_gains::<A>(
            num,
            wide,
            after.hits,
            after.normalization_damage,
            details,
            base,
            shares,
            if i < before.statuses@.len() {
                amounts::<A>(num, wide, before, i)
            } else {
                (0int as real, 0int as real, 0int)
            },
            after.statuses@[i],
        )
}

/// How one more hit bears on the entries, in exact arithmetic.
spec fn weights_are_exact<A: Arithmetic>(
    num: spec_fn(A::Single) -> real,
    wide: spec_fn(A::Double) -> real,
    before: AverageDamageDetails<A>,
    after: AverageDamageDetails<A>,
    weights: HitWeights<A::Single, A::Double>,
) -> bool {
    let n = after.hits as int as real;
    &&& n >= 1int as real
    &&& n == before.hits as int as real + 1int as real
    &&& num(weights.hits) == n
    &&& num(weights.previous_weight) * n == n - 1int as real
    &&& wide(weights.normalization) == wide(after.normalization_damage)
    &&& wide(after.normalization_damage) == wide(before.normalization_damage) + num(
        weights.base_damage,
    )
    &&& wide(before.normalization_damage) >= 0int as real
    &&& num(weights.base_damage) >= 0int as real
    &&& wide(after.normalization_damage) > 0int as real ==> num(weights.normalization_weight)
        * wide(after.normalization_damage) == wide(before.normalization_damage)
    &&& wide(after.normalization_damage) <= 0int as real ==> num(weights.normalization_weight)
        == 0int as real
}

/// The weights of one more hit in exact arithmetic.
proof fn lemma_weights_are_exact<A: Arithmetic>(
    num: spec_fn(A::Single) -> real,
    wide: spec_fn(A::Double) -> real,
    before: AverageDamageDetails<A>,
    after: AverageDamageDetails<A>,
    weights: HitWeights<A::Single, A::Double>,
)
    requires
        arithmetic::is_exact::<A>(num, wide),
        are_weights::<A>(before, weights.base_damage, after, weights),
        after.hits == before.hits + 1,
        wide(after.normalization_damage) == wide(before.normalization_damage) + num(
            weights.base_damage,
        ),
        wide(before.normalization_damage) >= 0int as real,
        num(weights.base_damage) >= 0int as real,
    ensures
        weights_are_exact::<A>(num, wide, before, after, weights),
{
}

/// What an entry gains from one more hit, in exact arithmetic: from its value
/// and its share before, and from those in the hit.
proof fn lemma_gain(
    n: real,
    p: real,
    v: real,
    x: real,
    y: real,
)
    requires
        n >= 1int as real,
        p * n == n - 1int as real,
        y * n == x,
    ensures
        n * (v * p) == (n - 1int as real) * v,
        n * (v * p + y) == (n - 1int as real) * v + x,
{
    assert(n * (v * p) == (n - 1int as real) * v) by (nonlinear_arith)
        requires
            p * n == n - 1int as real,
    ;
    assert(n * (v * p + y) == n * (v * p) + x) by (nonlinear_arith)
        requires
            y * n == x,
    ;
}

/// What a share gains from one more hit, in exact arithmetic.
proof fn lemma_share_gain(
    t: real,
    q: real,
    w: real,
    before: real,
    base: real,
    share: real,
    portion: real,
)
    requires
        t == before + base,
        before >= 0int as real,
        base >= 0int as real,
        t > 0int as real ==> q * t == before && portion * t == share * base,
        t <= 0int as real ==> q == 0int as real && portion == 0int as real,
    ensures
        t * (w * q) == before * w,
        t * portion == base * share,
        t * (w * q + portion) == before * w + base * share,
{
    if t > 0int as real {
        assert(t * (w * q) == before * w) by (nonlinear_arith)
            requires
                q * t == before,
        ;
        assert(t * portion == base * share) by (nonlinear_arith)
            requires
                portion * t == share * base,
        ;
    } else {
        assert(t * (w * q) == before * w) by (nonlinear_arith)
            requires
                t == 0int as real,
                before == 0int as real,
        ;
        assert(t * portion == base * share) by (nonlinear_arith)
            requires
                t == 0int as real,
                base == 0int as real,
        ;
    }
    assert(t * (w * q + portion) == t * (w * q) + t * portion) by (nonlinear_arith);
}

/// The share of a status in one hit among all hits, in exact arithmetic.
proof fn lemma_exact_portion<A: Arithmetic>(
    num: spec_fn(A::Single) -> real,
    wide: spec_fn(A::Double) -> real,
    share: A::Single,
    base: A::Single,
    normalization: A::Double,
    result: A::Single,
)
    requires
        arithmetic::is_exact::<A>(num, wide),
        portion::<A>(share, base, normalization).contains(result),
    ensures
        wide(normalization) > 0int as real ==> num(result) * wide(normalization) == num(share)
            * num(base),
        wide(normalization) <= 0int as real ==> num(result) == 0int as real,
{
}

/// The entries gain what one more hit brings.
#[verifier::spinoff_prover]
proof fn lemma_entries_gain<A: Arithmetic>(
    num: spec_fn(A::Single) -> real,
    wide: spec_fn(A::Double) -> real,
    before: AverageDamageDetails<A>,
    details: DamageDetails<A::Single>,
    facts: MergeFacts<A>,
    after: AverageDamageDetails<A>,
)
    requires
        arithmetic::is_exact::<A>(num, wide),
        before.wf(),
        weights_are_exact::<A>(num, wide, before, after, facts.weights),
        multiplier::signed_groups::<A>(details.statuses@, facts.groups),
        exists|total: A::Single| #[trigger]
            multiplier::shares_of::<A>(details, total, facts.shares),
        entries_merged::<A>(
            before.statuses@,
            facts.groups,
            facts.shares,
            facts.groups.len(),
            facts.weights,
            after.statuses@,
        ),
    ensures
        after.statuses@.len() >= before.statuses@.len(),
        forall|i: int|
            0 <= i < before.statuses@.len() ==> #[trigger] entry_key(after.statuses@[i])
                == entry_key(before.statuses@[i]),
        forall|i: int|
            before.statuses@.len() <= i < after.statuses@.len() ==> grouping::keys_of(
                details.statuses@,
            ).contains(#[trigger] entry_key(after.statuses@[i])) && !entry_keys(
                before.statuses@,
            ).contains(entry_key(after.statuses@[i])),
        entries_gain::<A>(
            num,
            wide,
            before,
            details,
            facts.weights.base_damage,
            facts.shares,
            after,
        ),
{
    let statuses = details.statuses@;
    let MergeFacts { groups, shares, weights } = facts;
    let keys = grouping::keys_of(statuses);
    let known = entry_keys(before.statuses@);
    multiplier::lemma_keys_of_groups::<A>(details, groups, shares);
    grouping::lemma_distinct_keys(keys);
    multiplier::law_groups_count_for_or_against_the_damage::<A>(num, wide, statuses, groups);
    assert(grouping::keys_of(groups).len() == groups.len());
    assert(grouping::keys_of(shares).len() == shares.len());
    lemma_unknown_indices(known, grouping::keys_of(groups), groups.len());
    let fresh = unknown_indices(known, grouping::keys_of(groups), groups.len());
    assert forall|i: int| 0 <= i < before.statuses@.len() implies (
    #[trigger] entry_key(after.statuses@[i])) == entry_key(before.statuses@[i]) && entry_gains::<
        A,
    >(
        num,
        wide,
        after.hits,
        after.normalization_damage,
        details,
        weights.base_damage,
        shares,
        amounts::<A>(num, wide, before, i),
        after.statuses@[i],
    ) by {
        lemma_known_entry_gains::<A>(num, wide, before, details, facts, after, i);
    }
    assert forall|i: int| before.statuses@.len() <= i < after.statuses@.len() implies keys.contains(
        #[trigger] entry_key(after.statuses@[i]),
    ) && !known.contains(entry_key(after.statuses@[i])) && entry_gains::<A>(
        num,
        wide,
        after.hits,
        after.normalization_damage,
        details,
        weights.base_damage,
        shares,
        (0int as real, 0int as real, 0int),
        after.statuses@[i],
    ) by {
        let k = i - before.statuses@.len();
        let g = fresh[k];
        let entry = after.statuses@[i];
        assert(entry_begun::<A>(groups[g], shares[g], weights, entry));
        assert(grouping::keys_of(groups)[g] == grouping::key_of(groups[g]));
        assert(grouping::keys_of(shares)[g] == grouping::key_of(shares[g]));
        assert(grouping::keys_of(groups).contains(grouping::key_of(groups[g])));
        assert(num(groups[g].value) == multiplier::weight_of(num, statuses, entry_key(entry)));
        grouping::lemma_sum_of_one_entry(num, shares, g);
        lemma_exact_portion::<A>(
            num,
            wide,
            shares[g].value,
            weights.base_damage,
            weights.normalization,
            entry.multiplier_contribution,
        );
        let zero = 0int as real;
        lemma_gain(
            num(weights.hits),
            num(weights.previous_weight),
            zero,
            num(groups[g].value),
            num(entry.average_value),
        );
        lemma_share_gain(
            wide(after.normalization_damage),
            num(weights.normalization_weight),
            zero,
            wide(before.normalization_damage),
            num(weights.base_damage),
            num(shares[g].value),
            num(entry.multiplier_contribution),
        );
    }
    assert forall|i: int|
        #![trigger after.statuses@[i]]
        0 <= i < after.statuses@.len() implies entry_gains::<A>(
        num,
        wide,
        after.hits,
        after.normalization_damage,
        details,
        weights.base_damage,
        shares,
        if i < before.statuses@.len() {
            amounts::<A>(num, wide, before, i)
        } else {
            (0int as real, 0int as real, 0int)
        },
        after.statuses@[i],
    ) by {
        assert(entry_key(after.statuses@[i]) == entry_key(after.statuses@[i]));
    }
}

/// An entry that there is gains what one more hit brings.
#[verifier::spinoff_prover]
proof fn lemma_known_entry_gains<A: Arithmetic>(
    num: spec_fn(A::Single) -> real,
    wide: spec_fn(A::Double) -> real,
    before: AverageDamageDetails<A>,
    details: DamageDetails<A::Single>,
    facts: MergeFacts<A>,
    after: AverageDamageDetails<A>,
    i: int,
)
    requires
        arithmetic::is_exact::<A>(num, wide),
        0 <= i < before.statuses@.len(),
        weights_are_exact::<A>(num, wide, before, after, facts.weights),
        multiplier::signed_groups::<A>(details.statuses@, facts.groups),
        exists|total: A::Single| #[trigger]
            multiplier::shares_of::<A>(details, total, facts.shares),
        entry_merged::<A>(
            before.statuses@,
            facts.groups,
            facts.shares,
            facts.groups.len() as int,
            facts.weights,
            after.statuses@,
            i,
        ),
    ensures
        entry_key(after.statuses@[i]) == entry_key(before.statuses@[i]),
        entry_gains::<A>(
            num,
            wide,
            after.hits,
            after.normalization_damage,
            details,
            facts.weights.base_damage,
            facts.shares,
            amounts::<A>(num, wide, before, i),
            after.statuses@[i],
        ),
{
    let statuses = details.statuses@;
    let MergeFacts { groups, shares, weights } = facts;
    let keys = grouping::keys_of(statuses);
    let (old_entry, entry) = (before.statuses@[i], after.statuses@[i]);
    let key = entry_key(old_entry);
    multiplier::lemma_keys_of_groups::<A>(details, groups, shares);
    grouping::lemma_distinct_keys(keys);
    multiplier::law_groups_count_for_or_against_the_damage::<A>(num, wide, statuses, groups);
    assert(grouping::keys_of(groups).len() == groups.len());
    assert(grouping::keys_of(shares).len() == shares.len());
    let n = after.hits as int as real;
    assert(n - 1int as real == before.hits as int as real);
    if exists|g: int|
        0 <= g < groups.len() && grouping::key_of(#[trigger] groups[g]) == entry_key(old_entry) {
        let g = choose|g: int|
            0 <= g < groups.len() && grouping::key_of(groups[g]) == entry_key(old_entry)
                && #[trigger] entry_continued::<A>(
                old_entry,
                groups[g],
                shares[g],
                weights,
                entry,
            );
        assert(grouping::keys_of(groups)[g] == key);
        assert(grouping::keys_of(groups).contains(key));
        assert(grouping::keys_of(shares)[g] == grouping::key_of(shares[g]));
        assert(num(groups[g].value) == multiplier::weight_of(num, statuses, key));
        grouping::lemma_sum_of_one_entry(num, shares, g);
        let (aged, spread) = choose|aged: A::Single, spread: A::Single|
            aged_value::<A>(old_entry, weights).contains(aged) && spread_value::<A>(
                groups[g],
                weights,
            ).contains(spread) && #[trigger] call_ensures(
                A::plus,
                (aged, spread),
                entry.average_value,
            );
        let (aged_part, own) = choose|aged_part: A::Single, own: A::Single|
            aged_share::<A>(old_entry, weights).contains(aged_part) && portion::<A>(
                shares[g].value,
                weights.base_damage,
                weights.normalization,
            ).contains(own) && #[trigger] call_ensures(
                A::plus,
                (aged_part, own),
                entry.multiplier_contribution,
            );
        lemma_exact_portion::<A>(
            num,
            wide,
            shares[g].value,
            weights.base_damage,
            weights.normalization,
            own,
        );
        lemma_gain(
            num(weights.hits),
            num(weights.previous_weight),
            num(old_entry.average_value),
            num(groups[g].value),
            num(spread),
        );
        lemma_share_gain(
            wide(after.normalization_damage),
            num(weights.normalization_weight),
            num(old_entry.multiplier_contribution),
            wide(before.normalization_damage),
            num(weights.base_damage),
            num(shares[g].value),
            num(own),
        );
    } else {
        if keys.contains(key) {
            assert(grouping::keys_of(groups).contains(key));
            let g = grouping::keys_of(groups).index_of(key);
            assert(grouping::key_of(groups[g]) == key);
            assert(false);
        }
        assert(!grouping::keys_of(shares).contains(key));
        grouping::lemma_absent_status(num, statuses, key);
        grouping::lemma_absent_status(num, shares, key);
        let zero = 0int as real;
        lemma_gain(
            num(weights.hits),
            num(weights.previous_weight),
            num(old_entry.average_value),
            zero,
            zero,
        );
        lemma_share_gain(
            wide(after.normalization_damage),
            num(weights.normalization_weight),
            num(old_entry.multiplier_contribution),
            wide(before.normalization_damage),
            num(weights.base_damage),
            zero,
            zero,
        );
    }
}

/// The entries of a first hit are about its distinct statuses, each with what it
/// amounts to and its share in the hit, and each active once.
#[verifier::spinoff_prover]
pub proof fn law_entries_of_a_first_hit<A: Arithmetic>(
    num: spec_fn(A::Single) -> real,
    wide: spec_fn(A::Double) -> real,
    details: DamageDetails<A::Single>,
    damage: u64,
    average: AverageDamageDetails<A>,
)
    requires
        arithmetic::is_exact::<A>(num, wide),
        started::<A>(details, damage, average),
    ensures
        entry_keys(average.statuses@).no_duplicates(),
        forall|key: grouping::StatusKey| #[trigger]
            entry_keys(average.statuses@).contains(key) <==> grouping::keys_of(
                details.statuses@,
            ).contains(key),
        exists|
            parts: MultiplierComponents<A::Single>,
            base: A::Single,
            shares: Seq<protocol::DamageStatusContribution<A::Single>>,
        | #[trigger]
            multiplier::parts_of::<A>(details, damage, base).contains(parts)
                && #[trigger] multiplier::shares_of::<A>(details, parts.attack_defense, shares)
                && forall|i: int|
                #![trigger average.statuses@[i]]
                0 <= i < average.statuses@.len() ==> {
                    let entry = average.statuses@[i];
                    &&& num(entry.average_value) == multiplier::weight_of(
                        num,
                        details.statuses@,
                        entry_key(entry),
                    )
                    &&& num(entry.multiplier_contribution) == grouping::sum_of(
                        num,
                        shares,
                        grouping::is_status(entry_key(entry)),
                    )
                    &&& entry.active_hits == 1
                },
{
    let statuses = details.statuses@;
    let (base, parts, groups, shares) = choose|
        base: A::Single,
        parts: MultiplierComponents<A::Single>,
        groups: Seq<protocol::DamageStatusContribution<A::Single>>,
        shares: Seq<protocol::DamageStatusContribution<A::Single>>,
    |
        multiplier::base_of::<A>(details).contains(base) && multiplier::parts_of::<A>(
            details,
            damage,
            base,
        ).contains(parts) && multiplier::signed_groups::<A>(statuses, groups)
            && multiplier::shares_of::<A>(details, parts.attack_defense, shares)
            && #[trigger] started_from::<A>(details, damage, base, parts, groups, shares, average);
    assert(multiplier::shares_of::<A>(details, parts.attack_defense, shares));
    multiplier::lemma_keys_of_groups::<A>(details, groups, shares);
    grouping::lemma_distinct_keys(grouping::keys_of(statuses));
    multiplier::law_groups_count_for_or_against_the_damage::<A>(num, wide, statuses, groups);
    assert(grouping::keys_of(groups).len() == groups.len());
    assert(grouping::keys_of(shares).len() == shares.len());
    assert(entry_keys(average.statuses@) =~= grouping::keys_of(groups)) by {
        assert forall|i: int| 0 <= i < groups.len() implies entry_keys(average.statuses@)[i]
            == grouping::keys_of(groups)[i] by {
            assert(entry_started(groups[i], shares[i], average.statuses@[i]));
        }
    }
    assert forall|i: int|
        #![trigger average.statuses@[i]]
        0 <= i < average.statuses@.len() implies {
        let entry = average.statuses@[i];
        &&& num(entry.average_value) == multiplier::weight_of(num, statuses, entry_key(entry))
        &&& num(entry.multiplier_contribution) == grouping::sum_of(
            num,
            shares,
            grouping::is_status(entry_key(entry)),
        )
        &&& entry.active_hits == 1
    } by {
        assert(entry_started(groups[i], shares[i], average.statuses@[i]));
        assert(grouping::keys_of(groups)[i] == grouping::key_of(groups[i]));
        assert(grouping::keys_of(shares)[i] == grouping::key_of(shares[i]));
        assert(grouping::keys_of(groups).contains(grouping::key_of(groups[i])));
        grouping::lemma_sum_of_one_entry(num, shares, i);
    }
}

/// A hit whose damage limit multiplier is not finite is averaged like the same
/// hit with a neutral one.
#[verifier::spinoff_prover]
pub proof fn law_a_damage_limit_that_is_not_finite_is_averaged_as_neutral<A: Arithmetic>(
    details: DamageDetails<A::Single>,
    unit: A::Single,
    damage: u64,
    before: AverageDamageDetails<A>,
    average: AverageDamageDetails<A>,
)
    requires
        arithmetic::is_unit::<A>(unit),
        arithmetic::is_told_infinite::<A>(details.damage_limit_multiplier),
    ensures
        ({
            let neutral = DamageDetails { damage_limit_multiplier: unit, ..details };
            &&& started::<A>(details, damage, average) ==> started::<A>(neutral, damage, average)
            &&& updated::<A>(before, details, damage, average) ==> updated::<A>(
                before,
                neutral,
                damage,
                average,
            )
        }),
{
    let neutral = DamageDetails { damage_limit_multiplier: unit, ..details };
    arithmetic::law_only_finite_numbers_are_kept::<A>(
        details.damage_limit_multiplier,
        arithmetic::one::<A>(),
    );
    arithmetic::law_only_finite_numbers_are_kept::<A>(unit, arithmetic::one::<A>());
    if started::<A>(details, damage, average) {
        let (base, parts, groups, shares) = choose|
            base: A::Single,
            parts: MultiplierComponents<A::Single>,
            groups: Seq<protocol::DamageStatusContribution<A::Single>>,
            shares: Seq<protocol::DamageStatusContribution<A::Single>>,
        |
            multiplier::base_of::<A>(details).contains(base) && multiplier::parts_of::<A>(
                details,
                damage,
                base,
            ).contains(parts) && multiplier::signed_groups::<A>(details.statuses@, groups)
                && multiplier::shares_of::<A>(details, parts.attack_defense, shares)
                && #[trigger] started_from::<A>(
                details,
                damage,
                base,
                parts,
                groups,
                shares,
                average,
            );
        multiplier::law_a_damage_limit_that_is_not_finite_is_neutral::<A>(
            details,
            unit,
            damage,
            base,
            parts.attack_defense,
            shares,
        );
        lemma_same_judgments::<A>(details, neutral, base);
        assert(started_from::<A>(neutral, damage, base, parts, groups, shares, average)) by {
            let judgment = choose|judgment: bool| #[trigger]
                multiplier::capped::<A>(details, base).contains(judgment) && average.capped_hits
                    == counted(judgment);
            assert(multiplier::capped::<A>(neutral, base).contains(judgment));
        }
    }
    if updated::<A>(before, details, damage, average) {
        let (parts, groups, shares, weights) = choose|
            parts: MultiplierComponents<A::Single>,
            groups: Seq<protocol::DamageStatusContribution<A::Single>>,
            shares: Seq<protocol::DamageStatusContribution<A::Single>>,
            weights: HitWeights<A::Single, A::Double>,
        |
            multiplier::base_of::<A>(details).contains(weights.base_damage)
                && multiplier::parts_of::<A>(details, damage, weights.base_damage).contains(parts)
                && multiplier::signed_groups::<A>(details.statuses@, groups)
                && multiplier::shares_of::<A>(details, parts.attack_defense, shares)
                && are_weights::<A>(before, weights.base_damage, average, weights)
                && #[trigger] updated_from::<A>(
                before,
                details,
                damage,
                parts,
                groups,
                shares,
                weights,
                average,
            );
        multiplier::law_a_damage_limit_that_is_not_finite_is_neutral::<A>(
            details,
            unit,
            damage,
            weights.base_damage,
            parts.attack_defense,
            shares,
        );
        lemma_same_judgments::<A>(details, neutral, weights.base_damage);
        assert(updated_from::<A>(
            before,
            neutral,
            damage,
            parts,
            groups,
            shares,
            weights,
            average,
        )) by {
            let judgment = choose|judgment: bool| #[trigger]
                multiplier::capped::<A>(details, weights.base_damage).contains(judgment)
                    && average.capped_hits == before.capped_hits + counted(judgment);
            assert(multiplier::capped::<A>(neutral, weights.base_damage).contains(judgment));
        }
    }
}

/// Hits that differ in their damage limit alone have the same amplification and
/// the same base, and reach their cap alike.
proof fn lemma_same_judgments<A: Arithmetic>(
    one: DamageDetails<A::Single>,
    other: DamageDetails<A::Single>,
    base: A::Single,
)
    requires
        other == (DamageDetails {
            damage_limit_multiplier: other.damage_limit_multiplier,
            ..one
        }),
    ensures
        multiplier::amplify_of::<A>(one) == multiplier::amplify_of::<A>(other),
        multiplier::capped::<A>(one, base) == multiplier::capped::<A>(other, base),
        multiplier::base_of::<A>(one) == multiplier::base_of::<A>(other),
        cap_of::<A>(one) == cap_of::<A>(other),
{
}

/// Whether a hit reached its cap: it has one, and its uncapped damage, read as a
/// real number, is above it or less than half a point below it.
pub open spec fn reaches_its_cap<N>(num: spec_fn(N) -> real, details: DamageDetails<N>) -> bool {
    let cap = details.damage_cap as int as real;
    details.damage_cap > 0 && num(details.uncapped_damage) + num(details.uncapped_damage) > cap
        + cap - 1int as real
}

/// How many of the hits reached their caps.
pub open spec fn hits_at_their_cap<N>(num: spec_fn(N) -> real, hits: Seq<Hit<N>>) -> nat
    decreases hits.len(),
{
    if hits.len() == 0 {
        0
    } else {
        let earlier = hits_at_their_cap(num, hits.drop_last());
        if reaches_its_cap(num, hits.last().0) {
            earlier + 1
        } else {
            earlier
        }
    }
}

/// The hits that count as capped are those that reached their caps.
pub proof fn law_capped_hits_are_those_that_reached_their_cap<A: Arithmetic>(
    num: spec_fn(A::Single) -> real,
    wide: spec_fn(A::Double) -> real,
    hits: Seq<Hit<A::Single>>,
    states: Seq<AverageDamageDetails<A>>,
)
    requires
        arithmetic::is_exact::<A>(num, wide),
        is_history::<A>(hits, states),
    ensures
        states.last().capped_hits == hits_at_their_cap(num, hits),
{
    lemma_capped_until::<A>(num, wide, hits, states, hits.len());
    assert(hits.take(hits.len() as int) =~= hits);
}

/// After the first `count` hits as many count as capped as reached their caps.
#[verifier::spinoff_prover]
proof fn lemma_capped_until<A: Arithmetic>(
    num: spec_fn(A::Single) -> real,
    wide: spec_fn(A::Double) -> real,
    hits: Seq<Hit<A::Single>>,
    states: Seq<AverageDamageDetails<A>>,
    count: nat,
)
    requires
        arithmetic::is_exact::<A>(num, wide),
        is_history::<A>(hits, states),
        0 < count <= hits.len(),
    ensures
        states[count - 1].capped_hits == hits_at_their_cap(num, hits.take(count as int)),
    decreases count,
{
    let now = hits.take(count as int);
    let earlier = hits.take(count - 1);
    assert(now.drop_last() =~= earlier);
    assert(now.last() == hits[count - 1]);
    lemma_capped_step::<A>(num, wide, hits, states, count - 1);
    if count == 1 {
        assert(hits_at_their_cap(num, earlier) == 0);
    } else {
        lemma_capped_until::<A>(num, wide, hits, states, (count - 1) as nat);
        assert(states[count - 2].capped_hits == hits_at_their_cap(num, earlier));
    }
}

/// Each hit of a history counts as capped if it reached its cap.
#[verifier::spinoff_prover]
proof fn lemma_capped_step<A: Arithmetic>(
    num: spec_fn(A::Single) -> real,
    wide: spec_fn(A::Double) -> real,
    hits: Seq<Hit<A::Single>>,
    states: Seq<AverageDamageDetails<A>>,
    i: int,
)
    requires
        arithmetic::is_exact::<A>(num, wide),
        is_history::<A>(hits, states),
        0 <= i < hits.len(),
    ensures
        states[i].capped_hits == (if i == 0 {
            0int
        } else {
            states[i - 1].capped_hits as int
        }) + if reaches_its_cap(num, hits[i].0) {
            1int
        } else {
            0int
        },
{
    if i == 0 {
        lemma_capped_first::<A>(num, wide, hits[0].0, hits[0].1, states[0]);
    } else {
        assert(follows::<A>(hits, states, i));
        lemma_capped_next::<A>(num, wide, states[i - 1], hits[i].0, hits[i].1, states[i]);
    }
}

/// A first hit counts as capped if it reached its cap.
#[verifier::spinoff_prover]
proof fn lemma_capped_first<A: Arithmetic>(
    num: spec_fn(A::Single) -> real,
    wide: spec_fn(A::Double) -> real,
    details: DamageDetails<A::Single>,
    damage: u64,
    average: AverageDamageDetails<A>,
)
    requires
        arithmetic::is_exact::<A>(num, wide),
        started::<A>(details, damage, average),
    ensures
        average.capped_hits == if reaches_its_cap(num, details) {
            1int
        } else {
            0int
        },
{
    let (base, parts, groups, shares) = choose|
        base: A::Single,
        parts: MultiplierComponents<A::Single>,
        groups: Seq<protocol::DamageStatusContribution<A::Single>>,
        shares: Seq<protocol::DamageStatusContribution<A::Single>>,
    |
        multiplier::base_of::<A>(details).contains(base) && multiplier::parts_of::<A>(
            details,
            damage,
            base,
        ).contains(parts) && multiplier::signed_groups::<A>(details.statuses@, groups)
            && multiplier::shares_of::<A>(details, parts.attack_defense, shares)
            && #[trigger] started_from::<A>(details, damage, base, parts, groups, shares, average);
    let judgment = choose|judgment: bool| #[trigger]
        multiplier::capped::<A>(details, base).contains(judgment) && average.capped_hits
            == counted(judgment);
    lemma_capped::<A>(num, wide, details, base, judgment);
}

/// One more hit counts as capped if it reached its cap.
#[verifier::spinoff_prover]
proof fn lemma_capped_next<A: Arithmetic>(
    num: spec_fn(A::Single) -> real,
    wide: spec_fn(A::Double) -> real,
    before: AverageDamageDetails<A>,
    details: DamageDetails<A::Single>,
    damage: u64,
    after: AverageDamageDetails<A>,
)
    requires
        arithmetic::is_exact::<A>(num, wide),
        updated::<A>(before, details, damage, after),
    ensures
        after.capped_hits == before.capped_hits + if reaches_its_cap(num, details) {
            1int
        } else {
            0int
        },
{
    let (parts, groups, shares, weights) = choose|
        parts: MultiplierComponents<A::Single>,
        groups: Seq<protocol::DamageStatusContribution<A::Single>>,
        shares: Seq<protocol::DamageStatusContribution<A::Single>>,
        weights: HitWeights<A::Single, A::Double>,
    |
        multiplier::base_of::<A>(details).contains(weights.base_damage) && multiplier::parts_of::<
            A,
        >(details, damage, weights.base_damage).contains(parts) && multiplier::signed_groups::<A>(
            details.statuses@,
            groups,
        ) && multiplier::shares_of::<A>(details, parts.attack_defense, shares) && are_weights::<A>(
            before,
            weights.base_damage,
            after,
            weights,
        ) && #[trigger] updated_from::<A>(
            before,
            details,
            damage,
            parts,
            groups,
            shares,
            weights,
            after,
        );
    let judgment = choose|judgment: bool| #[trigger]
        multiplier::capped::<A>(details, weights.base_damage).contains(judgment)
            && after.capped_hits == before.capped_hits + counted(judgment);
    lemma_capped::<A>(num, wide, details, weights.base_damage, judgment);
}

/// A hit is judged capped if it reached its cap.
proof fn lemma_capped<A: Arithmetic>(
    num: spec_fn(A::Single) -> real,
    wide: spec_fn(A::Double) -> real,
    details: DamageDetails<A::Single>,
    base: A::Single,
    judgment: bool,
)
    requires
        arithmetic::is_exact::<A>(num, wide),
        multiplier::base_of::<A>(details).contains(base),
        multiplier::capped::<A>(details, base).contains(judgment),
    ensures
        judgment == reaches_its_cap(num, details),
{
    multiplier::law_the_base_is_the_damage_up_to_the_cap::<A>(num, wide, details, base);
    multiplier::law_a_base_near_the_cap_is_capped::<A>(num, wide, details, base, judgment);
}

/// Entries are about one status if they have its name, its kind and its category.
pub proof fn law_an_entry_is_told_by_name_kind_and_category<N>(
    entry: DamageStatusContribution<N>,
    contribution: protocol::DamageStatusContribution<N>,
)
    ensures
        entry_key(entry) == grouping::key_of(contribution) <==> entry.status_name@
            == contribution.status_name@ && entry.kind == contribution.kind && entry.category
            == contribution.category,
{
}

/// Averages are well formed exactly if no more hits are capped than there were,
/// every entry has been active in at least one and at most all of them, and no
/// two entries have the name, the kind and the category in common.
pub proof fn law_well_formed_averages_have_one_entry_for_each_status<A: Arithmetic>(
    average: AverageDamageDetails<A>,
)
    ensures
        average.wf() <==> {
            &&& average.capped_hits <= average.hits
            &&& forall|i: int|
                0 <= i < average.statuses@.len() ==> 1 <= (
                #[trigger] average.statuses@[i]).active_hits && average.statuses@[i].active_hits
                    <= average.hits
            &&& forall|i: int, j: int|
                #![trigger average.statuses@[i], average.statuses@[j]]
                0 <= i < j < average.statuses@.len() ==> average.statuses@[i].status_name@
                    != average.statuses@[j].status_name@ || average.statuses@[i].kind
                    != average.statuses@[j].kind || average.statuses@[i].category
                    != average.statuses@[j].category
        },
{
    let keys = entry_keys(average.statuses@);
    assert(keys.len() == average.statuses@.len());
    assert forall|i: int| 0 <= i < keys.len() implies #[trigger] keys[i] == entry_key(
        average.statuses@[i],
    ) by {}
    if average.wf() {
        assert forall|i: int, j: int|
            #![trigger average.statuses@[i], average.statuses@[j]]
            0 <= i < j < average.statuses@.len() implies average.statuses@[i].status_name@
            != average.statuses@[j].status_name@ || average.statuses@[i].kind
            != average.statuses@[j].kind || average.statuses@[i].category
            != average.statuses@[j].category by {
            assert(keys[i] != keys[j]);
        }
    }
    if forall|i: int, j: int|
        #![trigger average.statuses@[i], average.statuses@[j]]
        0 <= i < j < average.statuses@.len() ==> average.statuses@[i].status_name@
            != average.statuses@[j].status_name@ || average.statuses@[i].kind
            != average.statuses@[j].kind || average.statuses@[i].category
            != average.statuses@[j].category {
        assert forall|i: int, j: int|
            0 <= i < keys.len() && 0 <= j < keys.len() && i != j implies keys[i] != keys[j] by {
            assert(average.statuses@[i] == average.statuses@[i]);
            assert(average.statuses@[j] == average.statuses@[j]);
        }
    }
}

} // verus!
