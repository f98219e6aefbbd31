//! The statistics of one skill.

use vstd::prelude::*;
use crate::arithmetic;
use crate::arithmetic::Arithmetic;
use crate::outcome;
use crate::protocol::{ActionType, DamageEvent};

pub mod average;
pub mod multiplier;

pub use self::average::{AverageDamageDetails, DamageStatusContribution};

verus! {

/// A damage event together with the stun damage that it counts for.
pub struct AdjustedDamageInstance<'a, A: Arithmetic> {
    pub event: &'a DamageEvent<A::Single>,
    pub stun_damage: A::Double,
}

/// Derived stat breakdown of a particular skill. `C` is the type of the
/// characters.
pub struct SkillState<A: Arithmetic, C> {
    /// Type of action ID that this skill is
    pub action_type: ActionType,
    /// Child character this skill belongs to (pet, Id's dragonform, etc.)
    pub child_character_type: C,
    /// Number of hits this skill has done
    pub hits: u32,
    /// Minimum damage done by this skill
    pub min_damage: Option<u64>,
    /// Maximum damage done by this skill
    pub max_damage: Option<u64>,
    /// Total damage done by this skill
    pub total_damage: u64,
    /// Maximum stun value done by this skill
    pub max_stun_value: A::Double,
    /// Total stun value done by this skill
    pub total_stun_value: A::Double,
    /// Damage modifiers averaged across captured hits for this skill.
    pub damage_details: Option<AverageDamageDetails<A>>,
}

/// The damage of an event as a count. A negative figure wraps around.
pub open spec fn damage_count(damage: i32) -> u64 {
    if damage >= 0 {
        damage as u64
    } else {
        (0x1_0000_0000_0000_0000 + damage) as u64
    }
}

/// The smaller of two counts, of which the first may be missing.
pub open spec fn least(known: Option<u64>, damage: u64) -> Option<u64> {
    match known {
        Some(least) => if least <= damage {
            Some(least)
        } else {
            Some(damage)
        },
        None => Some(damage),
    }
}

/// The larger of two counts, of which the first may be missing.
pub open spec fn greatest(known: Option<u64>, damage: u64) -> Option<u64> {
    match known {
        Some(greatest) => if greatest >= damage {
            Some(greatest)
        } else {
            Some(damage)
        },
        None => Some(damage),
    }
}

/// Whether an event adds to the averaged modifiers of a skill. Supplementary
/// damage is a separate event and does not.
pub open spec fn adds_details<N>(action_type: ActionType, event: DamageEvent<N>) -> bool {
    &&& !(action_type is SupplementaryDamage)
    &&& event.details is Some
}

/// The damage of an event as a count.
pub fn count_damage(damage: i32) -> (count: u64)
    ensures
        count == damage_count(damage),
{
    if damage >= 0 {
        damage as u64
    } else {
        (0x1_0000_0000_0000_0000i128 + damage as i128) as u64
    }
}

impl<A: Arithmetic, C> SkillState<A, C> {
    /// The averaged modifiers are well formed, and the least damage is not
    /// above the greatest.
    pub open spec fn wf(self) -> bool {
        &&& self.damage_details matches Some(average) ==> average.wf()
        &&& self.min_damage is Some <==> self.max_damage is Some
        &&& self.min_damage is Some ==> self.min_damage->0 <= self.max_damage->0
    }

    /// Whether the statistics are well formed.
    pub fn is_well_formed(&self) -> (result: bool)
        ensures
            result == self.wf(),
    {
        let details_hold = match &self.damage_details {
            Some(average) => average.is_well_formed(),
            None => true,
        };
        let bounds_hold = match (self.min_damage, self.max_damage) {
            (Some(min), Some(max)) => min <= max,
            (None, None) => true,
            _ => false,
        };
        details_hold && bounds_hold
    }

    /// Whether the counts leave room for an event.
    pub open spec fn has_room(self, event: DamageEvent<A::Single>) -> bool {
        let damage = damage_count(event.damage);
        &&& self.hits < u32::MAX
        &&& self.total_damage + damage <= u64::MAX
        &&& adds_details(self.action_type, event) ==> (self.damage_details matches Some(average)
            ==> average.hits < u32::MAX && average.total_damage + damage
            + average.supplementary_damage <= u64::MAX)
    }

    /// A skill that has not hit yet.
    pub fn new(action_type: ActionType, child_character_type: C) -> (state: Self)
        ensures
            state.action_type == action_type,
            state.child_character_type == child_character_type,
            is_unused::<A, C>(state),
            state.wf(),
    {
        SkillState {
            action_type,
            child_character_type,
            hits: 0,
            min_damage: None,
            max_damage: None,
            total_damage: 0,
            max_stun_value: A::wide_zero(),
            total_stun_value: A::wide_zero(),
            damage_details: None,
        }
    }

    /// Takes account of one more hit of the skill.
    pub fn update_from_damage_event(&mut self, damage_instance: &AdjustedDamageInstance<A>)
        requires
            old(self).wf(),
            old(self).has_room(*damage_instance.event),
        ensures
            final(self).wf(),
            hit_counted::<A, C>(
                *old(self),
                *damage_instance.event,
                damage_instance.stun_damage,
                *final(self),
            ),
    {
        let damage = count_damage(damage_instance.event.damage);
        self.hits = self.hits + 1;
        self.total_damage = self.total_damage + damage;
        self.max_stun_value = A::wide_larger(self.max_stun_value, damage_instance.stun_damage);
        self.total_stun_value = A::wide_plus(self.total_stun_value, damage_instance.stun_damage);

        let supplementary = matches!(self.action_type, ActionType::SupplementaryDamage(_));
        if !supplementary {
            if let Some(details) = &damage_instance.event.details {
                match self.damage_details.take() {
                    Some(mut average) => {
                        average.update(details, damage);
                        self.damage_details = Some(average);
                    },
                    None => {
                        self.damage_details = Some(AverageDamageDetails::new(details, damage));
                    },
                }
            }
        }
        self.min_damage =
        match self.min_damage {
            Some(known) => if known <= damage {
                Some(known)
            } else {
                Some(damage)
            },
            None => Some(damage),
        };
        self.max_damage =
        match self.max_damage {
            Some(known) => if known >= damage {
                Some(known)
            } else {
                Some(damage)
            },
            None => Some(damage),
        };
    }

    /// Takes account of supplementary damage that the skill has led to.
    pub fn add_supplementary_damage(&mut self, damage: u64)
        requires
            old(self).wf(),
            old(self).damage_details matches Some(average) ==> average.total_damage
                + average.supplementary_damage + damage <= u64::MAX,
        ensures
            final(self).wf(),
            match old(self).damage_details {
                None => *final(self) == *old(self),
                Some(before) => final(self).damage_details matches Some(after)
                    && average::supplemented::<A>(before, damage, after) && *final(self) == (SkillState {
                    damage_details: Some(after),
                    ..*old(self)
                }),
            },
    {
        match self.damage_details.take() {
            Some(mut average) => {
                average.add_supplementary_damage(damage);
                self.damage_details = Some(average);
            },
            None => {},
        }
    }
}

/// Whether a skill has not hit yet.
pub open spec fn is_unused<A: Arithmetic, C>(state: SkillState<A, C>) -> bool {
    &&& state.hits == 0
    &&& state.min_damage is None
    &&& state.max_damage is None
    &&& state.total_damage == 0
    &&& arithmetic::wide_zero::<A>().contains(state.max_stun_value)
    &&& arithmetic::wide_zero::<A>().contains(state.total_stun_value)
    &&& state.damage_details is None
}

/// Whether `after` is `before` with one more hit.
pub open spec fn hit_counted<A: Arithmetic, C>(
    before: SkillState<A, C>,
    event: DamageEvent<A::Single>,
    stun_damage: A::Double,
    after: SkillState<A, C>,
) -> bool {
    let damage = damage_count(event.damage);
    &&& after.action_type == before.action_type
    &&& after.child_character_type == before.child_character_type
    &&& after.hits == before.hits + 1
    &&& after.total_damage == before.total_damage + damage
    &&& after.min_damage == least(before.min_damage, damage)
    &&& after.max_damage == greatest(before.max_damage, damage)
    &&& arithmetic::wide_maximum::<A>(
        outcome::exactly(before.max_stun_value),
        outcome::exactly(stun_damage),
    ).contains(after.max_stun_value)
    &&& arithmetic::wide_sum::<A>(
        outcome::exactly(before.total_stun_value),
        outcome::exactly(stun_damage),
    ).contains(after.total_stun_value)
    &&& details_updated::<A>(before.damage_details, before.action_type, event, after.damage_details)
}

/// Whether `after` are the averaged modifiers of a skill after an event.
pub open spec fn details_updated<A: Arithmetic>(
    before: Option<AverageDamageDetails<A>>,
    action_type: ActionType,
    event: DamageEvent<A::Single>,
    after: Option<AverageDamageDetails<A>>,
) -> bool {
    if adds_details(action_type, event) {
        after matches Some(average) && match before {
            Some(known) => average::updated::<A>(
                known,
                event.details->0,
                damage_count(event.damage),
                average,
            ),
            None => average::started::<A>(event.details->0, damage_count(event.damage), average),
        }
    } else {
        after == before
    }
}

/// Supplementary damage is a skill of its own, which keeps no details.
pub proof fn law_supplementary_skills_keep_no_details<A: Arithmetic>(
    action_type: ActionType,
    event: DamageEvent<A::Single>,
    after: Option<AverageDamageDetails<A>>,
)
    requires
        action_type is SupplementaryDamage,
        details_updated::<A>(None, action_type, event, after),
    ensures
        after is None,
{
}

/// Whether a total is one of so many hits, none below the least and none above
/// the greatest damage.
pub open spec fn is_total(hits: nat, min: Option<u64>, max: Option<u64>, total: int) -> bool {
    if hits == 0 {
        min is None && max is None && total == 0
    } else {
        min is Some && max is Some && min->0 <= max->0 && min->0 * hits <= total <= max->0 * hits
    }
}

/// The total damage of a skill lies between its least and its greatest damage
/// times its hits, and one more hit keeps it there.
pub proof fn law_totals_lie_between_least_and_greatest(
    hits: nat,
    min: Option<u64>,
    max: Option<u64>,
    total: int,
    damage: u64,
)
    requires
        is_total(hits, min, max, total),
    ensures
        is_total(hits + 1, least(min, damage), greatest(max, damage), total + damage),
{
    let low = least(min, damage)->0;
    let high = greatest(max, damage)->0;
    if hits > 0 {
        let was_low = min->0;
        let was_high = max->0;
        assert(low * (hits + 1) <= was_low * hits + damage) by (nonlinear_arith)
            requires
                low <= was_low,
                low <= damage,
        ;
        assert(was_high * hits + damage <= high * (hits + 1)) by (nonlinear_arith)
            requires
                was_high <= high,
                damage <= high,
        ;
    } else {
        assert(low * (hits + 1) == damage) by (nonlinear_arith)
            requires
                low == damage,
                hits == 0,
        ;
        assert(high * (hits + 1) == damage) by (nonlinear_arith)
            requires
                high == damage,
                hits == 0,
        ;
    }
}

/// An event, and the stun damage that it counts for.
pub type StunningEvent<N, W> = (DamageEvent<N>, W);

/// Whether a state takes account of one more event than the state before it.
pub open spec fn follows<A: Arithmetic, C>(
    events: Seq<StunningEvent<A::Single, A::Double>>,
    states: Seq<SkillState<A, C>>,
    i: int,
) -> bool {
    hit_counted::<A, C>(states[i], events[i].0, events[i].1, states[i + 1])
}

/// Whether `states` are those before the first event and after each event.
pub open spec fn is_history<A: Arithmetic, C>(
    events: Seq<StunningEvent<A::Single, A::Double>>,
    states: Seq<SkillState<A, C>>,
) -> bool {
    &&& states.len() == events.len() + 1
    &&& is_unused::<A, C>(states[0])
    &&& forall|i: int| 0 <= i < events.len() ==> #[trigger] follows::<A, C>(events, states, i)
}

/// The damage of each event.
pub open spec fn damages<N, W>(events: Seq<StunningEvent<N, W>>) -> Seq<u64> {
    events.map_values(|event: StunningEvent<N, W>| damage_count(event.0.damage))
}

/// The sum of counts.
pub open spec fn total(counts: Seq<u64>) -> int
    decreases counts.len(),
{
    if counts.len() == 0 {
        0
    } else {
        total(counts.drop_last()) + counts.last()
    }
}

/// Whether `bound` is the least of the counts, if there are any.
pub open spec fn is_least(bound: Option<u64>, counts: Seq<u64>) -> bool {
    match bound {
        None => counts.len() == 0,
        Some(value) => counts.contains(value) && forall|i: int|
            0 <= i < counts.len() ==> value <= #[trigger] counts[i],
    }
}

/// Whether `bound` is the greatest of the counts, if there are any.
pub open spec fn is_greatest(bound: Option<u64>, counts: Seq<u64>) -> bool {
    match bound {
        None => counts.len() == 0,
        Some(value) => counts.contains(value) && forall|i: int|
            0 <= i < counts.len() ==> value >= #[trigger] counts[i],
    }
}

/// The outcomes of taking the largest of zero and the stun damage of all events.
pub open spec fn largest_stun<A: Arithmetic>(
    events: Seq<StunningEvent<A::Single, A::Double>>,
) -> Set<A::Double>
    decreases events.len(),
{
    if events.len() == 0 {
        arithmetic::wide_zero::<A>()
    } else {
        arithmetic::wide_maximum::<A>(
            largest_stun::<A>(events.drop_last()),
            outcome::exactly(events.last().1),
        )
    }
}

/// The outcomes of adding up the stun damage of all events.
pub open spec fn stun_of_all<A: Arithmetic>(
    events: Seq<StunningEvent<A::Single, A::Double>>,
) -> Set<A::Double>
    decreases events.len(),
{
    if events.len() == 0 {
        arithmetic::wide_zero::<A>()
    } else {
        arithmetic::wide_sum::<A>(
            stun_of_all::<A>(events.drop_last()),
            outcome::exactly(events.last().1),
        )
    }
}

/// After any number of events the figures of a skill are those of all the
/// events: as many hits as there were, their damage, the least and the greatest
/// of them, and the largest and the total stun damage.
pub proof fn law_figures_are_those_of_all_events<A: Arithmetic, C>(
    events: Seq<StunningEvent<A::Single, A::Double>>,
    states: Seq<SkillState<A, C>>,
)
    requires
        is_history::<A, C>(events, states),
    ensures
        states.last().action_type == states[0].action_type,
        states.last().child_character_type == states[0].child_character_type,
        states.last().hits == events.len(),
        states.last().total_damage == total(damages(events)),
        is_least(states.last().min_damage, damages(events)),
        is_greatest(states.last().max_damage, damages(events)),
        largest_stun::<A>(events).contains(states.last().max_stun_value),
        stun_of_all::<A>(events).contains(states.last().total_stun_value),
    decreases events.len(),
{
    if events.len() > 0 {
        let earlier = events.drop_last();
        let past = states.drop_last();
        assert forall|i: int| 0 <= i < earlier.len() implies #[trigger] follows::<A, C>(
            earlier,
            past,
            i,
        ) by {
            assert(follows::<A, C>(events, states, i));
        }
        law_figures_are_those_of_all_events::<A, C>(earlier, past);
        assert(follows::<A, C>(events, states, events.len() - 1));
        let counts = damages(events);
        assert(counts.drop_last() =~= damages(earlier));
        assert(counts[events.len() - 1] == damage_count(events.last().0.damage));
        assert forall|value: u64| damages(earlier).contains(value) implies counts.contains(
            value,
        ) by {
            let i = choose|i: int| 0 <= i < earlier.len() && damages(earlier)[i] == value;
            assert(counts[i] == value);
        }
        assert forall|i: int| 0 <= i < earlier.len() implies #[trigger] counts[i] == damages(
            earlier,
        )[i] by {}
    }
}

/// The hits of those events that tell their details.
pub open spec fn detailed_hits<N, W>(events: Seq<StunningEvent<N, W>>) -> Seq<average::Hit<N>>
    decreases events.len(),
{
    if events.len() == 0 {
        Seq::empty()
    } else {
        let earlier = detailed_hits(events.drop_last());
        match events.last().0.details {
            Some(details) => earlier.push((details, damage_count(events.last().0.damage))),
            None => earlier,
        }
    }
}

/// Whether `details` are the averaged modifiers of these hits, if there are any.
pub open spec fn are_details_of<A: Arithmetic>(
    details: Option<AverageDamageDetails<A>>,
    hits: Seq<average::Hit<A::Single>>,
) -> bool {
    match details {
        None => hits.len() == 0,
        Some(last) => exists|averages: Seq<AverageDamageDetails<A>>| #[trigger]
            average::is_history::<A>(hits, averages) && averages.last() == last,
    }
}

/// After any number of events the averaged modifiers of a skill are those of
/// the hits that tell their details. Supplementary damage has none.
pub proof fn law_details_are_those_of_all_detailed_hits<A: Arithmetic, C>(
    events: Seq<StunningEvent<A::Single, A::Double>>,
    states: Seq<SkillState<A, C>>,
)
    requires
        is_history::<A, C>(events, states),
    ensures
        states.last().action_type == states[0].action_type,
        if states[0].action_type is SupplementaryDamage {
            states.last().damage_details is None
        } else {
            are_details_of::<A>(states.last().damage_details, detailed_hits(events))
        },
    decreases events.len(),
{
    if events.len() > 0 {
        let earlier = events.drop_last();
        let past = states.drop_last();
        assert forall|i: int| 0 <= i < earlier.len() implies #[trigger] follows::<A, C>(
            earlier,
            past,
            i,
        ) by {
            assert(follows::<A, C>(events, states, i));
        }
        law_details_are_those_of_all_detailed_hits::<A, C>(earlier, past);
        assert(follows::<A, C>(events, states, events.len() - 1));
        let event = events.last().0;
        if adds_details(states[0].action_type, event) {
            let before = past.last().damage_details;
            let after = states.last().damage_details->0;
            let hits = detailed_hits(events);
            match before {
                None => {
                    assert(average::is_history::<A>(hits, seq![after]));
                },
                Some(last) => {
                    let known = choose|averages: Seq<AverageDamageDetails<A>>| #[trigger]
                        average::is_history::<A>(detailed_hits(earlier), averages)
                            && averages.last() == last;
                    let averages = known.push(after);
                    assert forall|i: int| 0 < i < hits.len() implies #[trigger] average::follows::<
                        A,
                    >(hits, averages, i) by {
                        if i < known.len() {
                            assert(average::follows::<A>(detailed_hits(earlier), known, i));
                        }
                    }
                    assert(average::is_history::<A>(hits, averages));
                    assert(averages.last() == after);
                },
            }
        }
    }
}

/// A negative damage counts as what is left of all 64-bit numbers, and any other
/// as it is.
pub proof fn law_damage_is_counted_modulo_the_range(damage: i32)
    ensures
        damage == damage_count(damage) || damage == damage_count(damage) - 0x1_0000_0000_0000_0000,
{
}

/// The stun damage of events, added up as real numbers.
pub open spec fn stun_sum<N, W>(wide: spec_fn(W) -> real, events: Seq<StunningEvent<N, W>>) -> real
    decreases events.len(),
{
    if events.len() == 0 {
        0int as real
    } else {
        stun_sum(wide, events.drop_last()) + wide(events.last().1)
    }
}

/// After any number of events the total stun damage of a skill is that of all
/// the events, and its largest is one of theirs that none exceeds. It is zero as
/// long as no event stuns.
pub proof fn law_stun_is_that_of_all_events<A: Arithmetic, C>(
    num: spec_fn(A::Single) -> real,
    wide: spec_fn(A::Double) -> real,
    events: Seq<StunningEvent<A::Single, A::Double>>,
    states: Seq<SkillState<A, C>>,
)
    requires
        arithmetic::is_exact::<A>(num, wide),
        is_history::<A, C>(events, states),
    ensures
        wide(states.last().total_stun_value) == stun_sum(wide, events),
        wide(states.last().max_stun_value) >= 0int as real,
        forall|i: int|
            0 <= i < events.len() ==> wide((#[trigger] events[i]).1) <= wide(
                states.last().max_stun_value,
            ),
        wide(states.last().max_stun_value) == 0int as real || exists|i: int|
            0 <= i < events.len() && wide((#[trigger] events[i]).1) == wide(
                states.last().max_stun_value,
            ),
    decreases events.len(),
{
    if events.len() > 0 {
        let earlier = events.drop_last();
        let past = states.drop_last();
        assert forall|i: int| 0 <= i < earlier.len() implies #[trigger] follows::<A, C>(
            earlier,
            past,
            i,
        ) by {
            assert(follows::<A, C>(events, states, i));
        }
        law_stun_is_that_of_all_events::<A, C>(num, wide, earlier, past);
        assert(follows::<A, C>(events, states, events.len() - 1));
        let largest = wide(states.last().max_stun_value);
        assert forall|i: int| 0 <= i < events.len() implies wide((#[trigger] events[i]).1)
            <= largest by {
            if i < earlier.len() {
                assert(earlier[i] == events[i]);
            }
        }
        let before = wide(past.last().max_stun_value);
        if largest != 0int as real {
            if largest == wide(events.last().1) {
                assert(wide(events[events.len() - 1].1) == largest);
            } else {
                let i = choose|i: int|
                    0 <= i < earlier.len() && wide((#[trigger] earlier[i]).1) == before;
                assert(wide(events[i].1) == largest);
            }
        }
    }
}

/// A skill is well formed exactly if its averages are, and it has either both a
/// least and a greatest damage, in order, or none.
pub proof fn law_a_well_formed_skill_has_bounds_in_order<A: Arithmetic, C>(
    state: SkillState<A, C>,
)
    ensures
        state.wf() <==> {
            &&& state.damage_details is Some ==> state.damage_details->0.wf()
            &&& match (state.min_damage, state.max_damage) {
                (Some(min), Some(max)) => min <= max,
                (None, None) => true,
                _ => false,
            }
        },
{
}

} // verus!
