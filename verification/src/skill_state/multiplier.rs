//! What one hit's multiplier is made of.
//!
//! The effective multiplier of a hit is its damage over the base damage that
//! it started from. The modifiers of the hit explain part of it.

use vstd::prelude::*;
use crate::arithmetic;
use crate::arithmetic::{finite_or_default, Arithmetic};
use crate::grouping;
use crate::grouping::group_contributions;
use crate::outcome;
use crate::protocol;
use crate::protocol::{DamageDetails, DamageModifierKind};

verus! {

/// The parts that one hit's multiplier is made of.
#[derive(Clone, Copy, Debug)]
pub struct MultiplierComponents<N> {
    pub effective: N,
    pub recognized: N,
    pub damage_limit: N,
    pub amplify: N,
    pub attack_defense: N,
    pub unattributed: N,
}

/// The outcomes of keeping a number that is finite and positive, and zero otherwise.
pub open spec fn positive_part<A: Arithmetic>(value: A::Single) -> Set<A::Single> {
    outcome::branch(
        outcome::branch(
            arithmetic::finite::<A>(outcome::exactly(value)),
            arithmetic::exceeds::<A>(outcome::exactly(value), arithmetic::zero::<A>()),
            outcome::exactly(false),
        ),
        outcome::exactly(value),
        arithmetic::zero::<A>(),
    )
}

/// Keeps a number that is finite and positive, and gives zero otherwise.
pub fn positive_or_zero<A: Arithmetic>(value: A::Single) -> (result: A::Single)
    ensures
        positive_part::<A>(value).contains(result),
{
    let finite = A::is_finite(value);
    assert(arithmetic::finite::<A>(outcome::exactly(value)).contains(finite));
    if finite && A::above(value, A::zero()) {
        value
    } else {
        A::zero()
    }
}

/// The outcomes of taking the base that a hit is normalized by.
pub open spec fn base_of<A: Arithmetic>(details: DamageDetails<A::Single>) -> Set<A::Single> {
    let raw = positive_part::<A>(details.uncapped_damage);
    if details.damage_cap > 0 {
        arithmetic::minimum::<A>(raw, arithmetic::of_i32::<A>(details.damage_cap))
    } else {
        raw
    }
}

/// The base that a hit is normalized by.
pub fn normalization_base<A: Arithmetic>(details: &DamageDetails<A::Single>) -> (base: A::Single)
    ensures
        base_of::<A>(*details).contains(base),
{
    let raw = positive_or_zero::<A>(details.uncapped_damage);
    if details.damage_cap > 0 {
        A::smaller(raw, A::from_i32(details.damage_cap))
    } else {
        raw
    }
}

/// The outcomes of judging whether a hit reached its cap.
pub open spec fn capped<A: Arithmetic>(
    details: DamageDetails<A::Single>,
    base_damage: A::Single,
) -> Set<bool> {
    if details.damage_cap > 0 {
        arithmetic::falls_below::<A>(
            arithmetic::magnitude::<A>(
                arithmetic::difference::<A>(
                    outcome::exactly(base_damage),
                    arithmetic::of_i32::<A>(details.damage_cap),
                ),
            ),
            arithmetic::half::<A>(),
        )
    } else {
        outcome::exactly(false)
    }
}

/// Whether a hit reached its cap.
pub fn is_capped_hit<A: Arithmetic>(
    details: &DamageDetails<A::Single>,
    base_damage: A::Single,
) -> (result: bool)
    ensures
        capped::<A>(*details, base_damage).contains(result),
{
    details.damage_cap > 0 && A::below(
        A::magnitude(A::minus(base_damage, A::from_i32(details.damage_cap))),
        A::half(),
    )
}

/// The outcomes of adding up the values of one kind and, if one is named, one category.
pub open spec fn kind_total<A: Arithmetic>(
    statuses: Seq<protocol::DamageStatusContribution<A::Single>>,
    kind: DamageModifierKind,
    category: Option<i32>,
) -> Set<A::Single>
    decreases statuses.len(),
{
    if statuses.len() == 0 {
        arithmetic::zero::<A>()
    } else {
        let earlier = kind_total::<A>(statuses.drop_last(), kind, category);
        let last = statuses.last();
        if last.kind == kind && (category matches Some(c) ==> last.category == c) {
            arithmetic::sum::<A>(earlier, outcome::exactly(last.value))
        } else {
            earlier
        }
    }
}

/// Whether a contribution of this kind occurs.
pub open spec fn has_kind<N>(
    statuses: Seq<protocol::DamageStatusContribution<N>>,
    kind: DamageModifierKind,
) -> bool {
    exists|i: int| 0 <= i < statuses.len() && (#[trigger] statuses[i]).kind == kind
}

/// Adds up the values of one kind and, if one is named, one category.
fn total_of_kind<A: Arithmetic>(
    statuses: &Vec<protocol::DamageStatusContribution<A::Single>>,
    kind: DamageModifierKind,
    category: Option<i32>,
) -> (total: A::Single)
    ensures
        kind_total::<A>(statuses@, kind, category).contains(total),
{
    let mut total = A::zero();
    let mut i: usize = 0;
    while i < statuses.len()
        invariant
            i <= statuses@.len(),
            kind_total::<A>(statuses@.take(i as int), kind, category).contains(total),
        decreases statuses@.len() - i,
    {
        assert(statuses@.take(i + 1).drop_last() =~= statuses@.take(i as int));
        let status = &statuses[i];
        let wanted = status.kind == kind && match category {
            Some(category) => status.category == category,
            None => true,
        };
        if wanted {
            total = A::plus(total, status.value);
        }
        i = i + 1;
    }
    assert(statuses@.take(i as int) =~= statuses@);
    total
}

/// Whether a contribution of this kind occurs.
fn contains_kind<N>(
    statuses: &Vec<protocol::DamageStatusContribution<N>>,
    kind: DamageModifierKind,
) -> (found: bool)
    ensures
        found == has_kind(statuses@, kind),
{
    let mut i: usize = 0;
    while i < statuses.len()
        invariant
            i <= statuses@.len(),
            forall|j: int| 0 <= j < i ==> (#[trigger] statuses@[j]).kind != kind,
        decreases statuses@.len() - i,
    {
        if statuses[i].kind == kind {
            assert(statuses@[i as int].kind == kind);
            return true;
        }
        i = i + 1;
    }
    false
}

/// The outcomes of resolving a hit's amplify multiplier: from its amplify
/// statuses where there are any, of which category 0 raises and 1 lowers it,
/// and from the hit's own figure otherwise.
pub open spec fn amplify_of<A: Arithmetic>(details: DamageDetails<A::Single>) -> Set<A::Single> {
    let statuses = details.statuses@;
    if has_kind(statuses, DamageModifierKind::Amplify) {
        arithmetic::difference::<A>(
            arithmetic::sum::<A>(
                arithmetic::one::<A>(),
                kind_total::<A>(statuses, DamageModifierKind::Amplify, Some(0)),
            ),
            kind_total::<A>(statuses, DamageModifierKind::Amplify, Some(1)),
        )
    } else {
        arithmetic::finite_or::<A>(
            outcome::exactly(details.amplify_multiplier),
            arithmetic::one::<A>(),
        )
    }
}

/// Resolves a hit's amplify multiplier.
pub fn resolved_amplify_multiplier<A: Arithmetic>(
    details: &DamageDetails<A::Single>,
) -> (multiplier: A::Single)
    ensures
        amplify_of::<A>(*details).contains(multiplier),
{
    if !contains_kind(&details.statuses, DamageModifierKind::Amplify) {
        return finite_or_default::<A>(details.amplify_multiplier, A::one());
    }
    let raised = total_of_kind::<A>(&details.statuses, DamageModifierKind::Amplify, Some(0));
    let lowered = total_of_kind::<A>(&details.statuses, DamageModifierKind::Amplify, Some(1));
    A::minus(A::plus(A::one(), raised), lowered)
}

/// The outcomes of walking through the amplify statuses, of which category 1
/// lowers the multiplier and every other raises it.
pub open spec fn amplify_walk<A: Arithmetic>(
    statuses: Seq<protocol::DamageStatusContribution<A::Single>>,
) -> Set<A::Single>
    decreases statuses.len(),
{
    if statuses.len() == 0 {
        arithmetic::one::<A>()
    } else {
        let earlier = amplify_walk::<A>(statuses.drop_last());
        let last = statuses.last();
        if last.kind != DamageModifierKind::Amplify {
            earlier
        } else if last.category == 1 {
            arithmetic::sum::<A>(earlier, arithmetic::opposite::<A>(outcome::exactly(last.value)))
        } else {
            arithmetic::sum::<A>(earlier, outcome::exactly(last.value))
        }
    }
}

/// The outcomes of the amplify multiplier that the two readings of a hit's
/// figures are compared with.
pub open spec fn unchecked_amplify_of<A: Arithmetic>(details: DamageDetails<A::Single>) -> Set<
    A::Single,
> {
    if has_kind(details.statuses@, DamageModifierKind::Amplify) {
        amplify_walk::<A>(details.statuses@)
    } else {
        arithmetic::finite_or::<A>(
            outcome::exactly(details.amplify_multiplier),
            arithmetic::one::<A>(),
        )
    }
}

/// The amplify multiplier that the two readings of a hit's figures are
/// compared with.
pub fn resolved_amplify_multiplier_without_semantic_check<A: Arithmetic>(
    details: &DamageDetails<A::Single>,
) -> (multiplier: A::Single)
    ensures
        unchecked_amplify_of::<A>(*details).contains(multiplier),
{
    let mut found = false;
    let mut multiplier = A::one();
    let mut i: usize = 0;
    while i < details.statuses.len()
        invariant
            i <= details.statuses@.len(),
            found == has_kind(details.statuses@.take(i as int), DamageModifierKind::Amplify),
            amplify_walk::<A>(details.statuses@.take(i as int)).contains(multiplier),
        decreases details.statuses@.len() - i,
    {
        let ghost now = details.statuses@.take(i + 1);
        let ghost earlier = details.statuses@.take(i as int);
        assert(now.drop_last() =~= earlier);
        let status = &details.statuses[i];
        if status.kind == DamageModifierKind::Amplify {
            found = true;
            assert(now[i as int].kind == DamageModifierKind::Amplify);
            let change = if status.category == 1 {
                A::negated(status.value)
            } else {
                status.value
            };
            multiplier = A::plus(multiplier, change);
        }
        proof {
            if has_kind(earlier, DamageModifierKind::Amplify) {
                let j = choose|j: int|
                    0 <= j < earlier.len() && (#[trigger] earlier[j]).kind
                        == DamageModifierKind::Amplify;
                assert(now[j].kind == DamageModifierKind::Amplify);
            }
            if has_kind(now, DamageModifierKind::Amplify) && status.kind
                != DamageModifierKind::Amplify {
                let j = choose|j: int|
                    0 <= j < now.len() && (#[trigger] now[j]).kind == DamageModifierKind::Amplify;
                assert(earlier[j].kind == DamageModifierKind::Amplify);
            }
        }
        i = i + 1;
    }
    assert(details.statuses@.take(i as int) =~= details.statuses@);
    if found {
        multiplier
    } else {
        finite_or_default::<A>(details.amplify_multiplier, A::one())
    }
}

/// The outcomes of a hit's formula multiplier as hooks compute it today.
pub open spec fn corrected_formula<A: Arithmetic>(
    details: DamageDetails<A::Single>,
    amplify: A::Single,
) -> Set<A::Single> {
    arithmetic::sum::<A>(
        arithmetic::product::<A>(
            arithmetic::finite_or::<A>(
                outcome::exactly(details.damage_limit_multiplier),
                arithmetic::one::<A>(),
            ),
            outcome::exactly(amplify),
        ),
        arithmetic::product::<A>(
            arithmetic::maximum::<A>(
                arithmetic::difference::<A>(
                    arithmetic::finite_or::<A>(
                        outcome::exactly(details.defense_multiplier),
                        arithmetic::one::<A>(),
                    ),
                    arithmetic::one::<A>(),
                ),
                arithmetic::zero::<A>(),
            ),
            arithmetic::half::<A>(),
        ),
    )
}

/// The outcomes of a hit's formula multiplier as hooks used to compute it.
pub open spec fn legacy_formula<A: Arithmetic>(
    details: DamageDetails<A::Single>,
    amplify: A::Single,
) -> Set<A::Single> {
    arithmetic::product::<A>(
        arithmetic::sum::<A>(
            arithmetic::product::<A>(
                arithmetic::finite_or::<A>(
                    outcome::exactly(details.elemental_multiplier),
                    arithmetic::one::<A>(),
                ),
                outcome::exactly(amplify),
            ),
            arithmetic::product::<A>(
                arithmetic::difference::<A>(
                    arithmetic::finite_or::<A>(
                        arithmetic::product::<A>(
                            outcome::exactly(details.defense_multiplier),
                            outcome::exactly(details.attack_multiplier),
                        ),
                        arithmetic::one::<A>(),
                    ),
                    arithmetic::one::<A>(),
                ),
                arithmetic::half::<A>(),
            ),
        ),
        arithmetic::finite_or::<A>(
            outcome::exactly(details.supplementary_multiplier),
            arithmetic::one::<A>(),
        ),
    )
}

/// The outcomes of judging whether a hit's stored formula multiplier is at
/// least as near to one formula as to another.
pub open spec fn nearer<A: Arithmetic>(
    details: DamageDetails<A::Single>,
    corrected: A::Single,
    legacy: A::Single,
) -> Set<bool> {
    outcome::and_then(
        arithmetic::finite_or::<A>(
            outcome::exactly(details.formula_multiplier),
            outcome::exactly(corrected),
        ),
        |stored: A::Single|
            arithmetic::at_most::<A>(
                arithmetic::magnitude::<A>(
                    arithmetic::difference::<A>(
                        outcome::exactly(stored),
                        outcome::exactly(corrected),
                    ),
                ),
                arithmetic::magnitude::<A>(
                    arithmetic::difference::<A>(outcome::exactly(stored), outcome::exactly(legacy)),
                ),
            ),
    )
}

/// The outcomes of the judgment once today's formula has been computed.
pub open spec fn judged_against<A: Arithmetic>(
    details: DamageDetails<A::Single>,
    amplify: A::Single,
    corrected: A::Single,
) -> Set<bool> {
    outcome::and_then(
        legacy_formula::<A>(details, amplify),
        |legacy: A::Single| nearer::<A>(details, corrected, legacy),
    )
}

/// The outcomes of the judgment once the amplify multiplier is known.
pub open spec fn judged_with<A: Arithmetic>(
    details: DamageDetails<A::Single>,
    amplify: A::Single,
) -> Set<bool> {
    outcome::and_then(
        corrected_formula::<A>(details, amplify),
        |corrected: A::Single| judged_against::<A>(details, amplify, corrected),
    )
}

/// The outcomes of judging which reading of a hit's figures its stored formula
/// multiplier is nearer to.
pub open spec fn corrected_semantics<A: Arithmetic>(details: DamageDetails<A::Single>) -> Set<bool> {
    outcome::and_then(
        unchecked_amplify_of::<A>(details),
        |amplify: A::Single| judged_with::<A>(details, amplify),
    )
}

/// Whether a hit's figures are to be read as hooks write them today: its
/// stored formula multiplier is at least as near to today's formula as to the
/// previous one.
pub fn uses_corrected_detail_semantics<A: Arithmetic>(details: &DamageDetails<A::Single>) -> (result:
    bool)
    ensures
        corrected_semantics::<A>(*details).contains(result),
{
    let damage_limit = finite_or_default::<A>(details.damage_limit_multiplier, A::one());
    let amplify = resolved_amplify_multiplier_without_semantic_check::<A>(details);
    assert(unchecked_amplify_of::<A>(*details).contains(amplify));
    let defense = finite_or_default::<A>(details.defense_multiplier, A::one());
    let corrected = A::plus(
        A::times(damage_limit, amplify),
        A::times(A::larger(A::minus(defense, A::one()), A::zero()), A::half()),
    );
    assert(corrected_formula::<A>(*details, amplify).contains(corrected));
    let combined = finite_or_default::<A>(
        A::times(details.defense_multiplier, details.attack_multiplier),
        A::one(),
    );
    let legacy = A::times(
        A::plus(
            A::times(finite_or_default::<A>(details.elemental_multiplier, A::one()), amplify),
            A::times(A::minus(combined, A::one()), A::half()),
        ),
        finite_or_default::<A>(details.supplementary_multiplier, A::one()),
    );
    assert(legacy_formula::<A>(*details, amplify).contains(legacy));
    let stored = finite_or_default::<A>(details.formula_multiplier, corrected);
    assert(arithmetic::finite_or::<A>(
        outcome::exactly(details.formula_multiplier),
        outcome::exactly(corrected),
    ).contains(stored));
    A::at_most(A::magnitude(A::minus(stored, corrected)), A::magnitude(A::minus(stored, legacy)))
}

/// The outcomes of resolving a hit's attack and defense multiplier.
pub open spec fn attack_defense_of<A: Arithmetic>(details: DamageDetails<A::Single>) -> Set<
    A::Single,
> {
    outcome::branch(
        corrected_semantics::<A>(details),
        arithmetic::finite_or::<A>(
            outcome::exactly(details.defense_multiplier),
            arithmetic::one::<A>(),
        ),
        arithmetic::finite_or::<A>(
            arithmetic::product::<A>(
                outcome::exactly(details.defense_multiplier),
                outcome::exactly(details.attack_multiplier),
            ),
            arithmetic::one::<A>(),
        ),
    )
}

/// Resolves a hit's attack and defense multiplier.
pub fn resolved_attack_defense_multiplier<A: Arithmetic>(
    details: &DamageDetails<A::Single>,
) -> (multiplier: A::Single)
    ensures
        attack_defense_of::<A>(*details).contains(multiplier),
{
    if uses_corrected_detail_semantics::<A>(details) {
        finite_or_default::<A>(details.defense_multiplier, A::one())
    } else {
        finite_or_default::<A>(
            A::times(details.defense_multiplier, details.attack_multiplier),
            A::one(),
        )
    }
}

/// The outcomes of resolving a hit's critical rate.
pub open spec fn critical_rate_of<A: Arithmetic>(details: DamageDetails<A::Single>) -> Set<
    A::Single,
> {
    outcome::branch(
        corrected_semantics::<A>(details),
        arithmetic::finite_or::<A>(
            outcome::exactly(details.elemental_multiplier),
            arithmetic::zero::<A>(),
        ),
        arithmetic::zero::<A>(),
    )
}

/// Resolves a hit's critical rate, which previous hooks did not write.
pub fn resolved_critical_rate<A: Arithmetic>(details: &DamageDetails<A::Single>) -> (rate: A::Single)
    ensures
        critical_rate_of::<A>(*details).contains(rate),
{
    if uses_corrected_detail_semantics::<A>(details) {
        finite_or_default::<A>(details.elemental_multiplier, A::zero())
    } else {
        A::zero()
    }
}

/// Whether `parts` are those of a hit with a positive base.
pub open spec fn parts_above_zero<A: Arithmetic>(
    details: DamageDetails<A::Single>,
    damage: u64,
    base_damage: A::Single,
    parts: MultiplierComponents<A::Single>,
) -> bool {
    let limit = arithmetic::finite_or::<A>(
        outcome::exactly(details.damage_limit_multiplier),
        arithmetic::one::<A>(),
    );
    &&& arithmetic::difference::<A>(limit, arithmetic::one::<A>()).contains(parts.damage_limit)
    &&& arithmetic::product::<A>(
        limit,
        arithmetic::difference::<A>(amplify_of::<A>(details), arithmetic::one::<A>()),
    ).contains(parts.amplify)
    &&& arithmetic::product::<A>(
        arithmetic::maximum::<A>(
            arithmetic::difference::<A>(attack_defense_of::<A>(details), arithmetic::one::<A>()),
            arithmetic::zero::<A>(),
        ),
        arithmetic::half::<A>(),
    ).contains(parts.attack_defense)
    &&& arithmetic::sum::<A>(
        arithmetic::sum::<A>(
            arithmetic::sum::<A>(arithmetic::one::<A>(), outcome::exactly(parts.damage_limit)),
            outcome::exactly(parts.amplify),
        ),
        outcome::exactly(parts.attack_defense),
    ).contains(parts.recognized)
    &&& arithmetic::quotient::<A>(
        arithmetic::of_u64::<A>(damage),
        outcome::exactly(base_damage),
    ).contains(parts.effective)
    &&& arithmetic::difference::<A>(
        outcome::exactly(parts.effective),
        outcome::exactly(parts.recognized),
    ).contains(parts.unattributed)
}

/// Whether all parts are zero.
pub open spec fn parts_zero<A: Arithmetic>(parts: MultiplierComponents<A::Single>) -> bool {
    &&& arithmetic::zero::<A>().contains(parts.effective)
    &&& arithmetic::zero::<A>().contains(parts.recognized)
    &&& arithmetic::zero::<A>().contains(parts.damage_limit)
    &&& arithmetic::zero::<A>().contains(parts.amplify)
    &&& arithmetic::zero::<A>().contains(parts.attack_defense)
    &&& arithmetic::zero::<A>().contains(parts.unattributed)
}

/// The outcomes of taking a hit's multiplier apart.
pub open spec fn parts_of<A: Arithmetic>(
    details: DamageDetails<A::Single>,
    damage: u64,
    base_damage: A::Single,
) -> Set<MultiplierComponents<A::Single>> {
    outcome::branch(
        arithmetic::at_most::<A>(outcome::exactly(base_damage), arithmetic::zero::<A>()),
        Set::new(|parts: MultiplierComponents<A::Single>| parts_zero::<A>(parts)),
        Set::new(
            |parts: MultiplierComponents<A::Single>|
                parts_above_zero::<A>(details, damage, base_damage, parts),
        ),
    )
}

/// Takes a hit's multiplier apart.
pub fn multiplier_components<A: Arithmetic>(
    details: &DamageDetails<A::Single>,
    damage: u64,
    base_damage: A::Single,
) -> (parts: MultiplierComponents<A::Single>)
    ensures
        parts_of::<A>(*details, damage, base_damage).contains(parts),
{
    let empty = A::at_most(base_damage, A::zero());
    assert(arithmetic::at_most::<A>(
        outcome::exactly(base_damage),
        arithmetic::zero::<A>(),
    ).contains(empty));
    if empty {
        let parts = MultiplierComponents {
            effective: A::zero(),
            recognized: A::zero(),
            damage_limit: A::zero(),
            amplify: A::zero(),
            attack_defense: A::zero(),
            unattributed: A::zero(),
        };
        assert(parts_zero::<A>(parts));
        return parts;
    }
    let limit = finite_or_default::<A>(details.damage_limit_multiplier, A::one());
    let amplify = resolved_amplify_multiplier::<A>(details);
    let attack_defense = resolved_attack_defense_multiplier::<A>(details);
    let damage_limit_part = A::minus(limit, A::one());
    let amplify_part = A::times(limit, A::minus(amplify, A::one()));
    let attack_defense_part = A::times(
        A::larger(A::minus(attack_defense, A::one()), A::zero()),
        A::half(),
    );
    let recognized = A::plus(
        A::plus(A::plus(A::one(), damage_limit_part), amplify_part),
        attack_defense_part,
    );
    let effective = A::divided(A::from_u64(damage), base_damage);
    let parts = MultiplierComponents {
        effective,
        recognized,
        damage_limit: damage_limit_part,
        amplify: amplify_part,
        attack_defense: attack_defense_part,
        unattributed: A::minus(effective, recognized),
    };
    assert(parts_above_zero::<A>(*details, damage, base_damage, parts));
    parts
}

/// Whether a contribution lowers the damage.
pub open spec fn lowers(kind: DamageModifierKind, category: i32) -> bool {
    match kind {
        DamageModifierKind::Amplify => category == 1,
        DamageModifierKind::Attack => category == 3 || category == 4,
        DamageModifierKind::Defense => 0 <= category <= 3,
        _ => false,
    }
}

/// The outcomes of giving a contribution its sign.
pub open spec fn signed<A: Arithmetic>(
    kind: DamageModifierKind,
    category: i32,
    value: A::Single,
) -> Set<A::Single> {
    arithmetic::product::<A>(
        if lowers(kind, category) {
            arithmetic::opposite::<A>(arithmetic::one::<A>())
        } else {
            arithmetic::one::<A>()
        },
        outcome::exactly(value),
    )
}

/// Gives a contribution its sign.
pub fn signed_status_value<A: Arithmetic>(
    kind: DamageModifierKind,
    category: i32,
    value: A::Single,
) -> (result: A::Single)
    ensures
        signed::<A>(kind, category, value).contains(result),
{
    let lowering = match kind {
        DamageModifierKind::Amplify => category == 1,
        DamageModifierKind::Attack => category == 3 || category == 4,
        DamageModifierKind::Defense => 0 <= category && category <= 3,
        _ => false,
    };
    let sign = if lowering {
        A::negated(A::one())
    } else {
        A::one()
    };
    A::times(sign, value)
}

/// Whether `item` is a contribution with its sign.
pub open spec fn is_signed_form<A: Arithmetic>(
    status: protocol::DamageStatusContribution<A::Single>,
    item: protocol::DamageStatusContribution<A::Single>,
) -> bool {
    &&& grouping::key_of(item) == grouping::key_of(status)
    &&& signed::<A>(status.kind, status.category, status.value).contains(item.value)
}

/// Whether `items` are contributions with their signs, in order.
pub open spec fn are_signed_forms<A: Arithmetic>(
    statuses: Seq<protocol::DamageStatusContribution<A::Single>>,
    items: Seq<protocol::DamageStatusContribution<A::Single>>,
) -> bool {
    &&& items.len() == statuses.len()
    &&& forall|i: int|
        0 <= i < items.len() ==> #[trigger] is_signed_form::<A>(statuses[i], items[i])
}

/// Whether `groups` are contributions with their signs, added up by status.
pub open spec fn signed_groups<A: Arithmetic>(
    statuses: Seq<protocol::DamageStatusContribution<A::Single>>,
    groups: Seq<protocol::DamageStatusContribution<A::Single>>,
) -> bool {
    exists|items: Seq<protocol::DamageStatusContribution<A::Single>>| #[trigger]
        are_signed_forms::<A>(statuses, items) && grouping::grouped::<A>(items, groups)
}

/// Signed contributions come from the same statuses as the unsigned ones.
proof fn lemma_signed_keys<A: Arithmetic>(
    statuses: Seq<protocol::DamageStatusContribution<A::Single>>,
    items: Seq<protocol::DamageStatusContribution<A::Single>>,
)
    requires
        are_signed_forms::<A>(statuses, items),
    ensures
        grouping::keys_of(items) == grouping::keys_of(statuses),
{
    assert forall|i: int| 0 <= i < items.len() implies grouping::keys_of(items)[i]
        == grouping::keys_of(statuses)[i] by {
        assert(is_signed_form::<A>(statuses[i], items[i]));
    }
    assert(grouping::keys_of(items) =~= grouping::keys_of(statuses));
}

/// Gives the contributions of a hit their signs and adds those of the same
/// status up.
pub fn grouped_statuses<A: Arithmetic>(details: &DamageDetails<A::Single>) -> (groups: Vec<
    protocol::DamageStatusContribution<A::Single>,
>)
    ensures
        signed_groups::<A>(details.statuses@, groups@),
        grouping::keys_of(groups@) == grouping::distinct_keys(grouping::keys_of(details.statuses@)),
{
    let ghost statuses = details.statuses@;
    let mut items: Vec<protocol::DamageStatusContribution<A::Single>> = Vec::new();
    let mut i: usize = 0;
    while i < details.statuses.len()
        invariant
            i <= details.statuses@.len(),
            statuses == details.statuses@,
            are_signed_forms::<A>(statuses.take(i as int), items@),
        decreases details.statuses@.len() - i,
    {
        let status = &details.statuses[i];
        let ghost before = items@;
        items.push(
            protocol::DamageStatusContribution {
                status_name: status.status_name.clone(),
                kind: status.kind,
                category: status.category,
                value: signed_status_value::<A>(status.kind, status.category, status.value),
            },
        );
        assert forall|j: int| 0 <= j < items@.len() implies #[trigger] is_signed_form::<A>(
            statuses.take(i + 1)[j],
            items@[j],
        ) by {
            if j < i {
                assert(is_signed_form::<A>(statuses.take(i as int)[j], before[j]));
            }
        }
        i = i + 1;
    }
    assert(statuses.take(i as int) =~= statuses);
    proof {
        lemma_signed_keys::<A>(statuses, items@);
    }
    group_contributions::<A>(items)
}

/// The outcomes of splitting the attack and defense part of a hit between the
/// attacker's stage and the target's stage, which follow each other.
pub open spec fn stages<A: Arithmetic>(
    details: DamageDetails<A::Single>,
    total_contribution: A::Single,
) -> Set<(A::Single, A::Single)> {
    outcome::and_then(
        arithmetic::finite_or::<A>(
            outcome::exactly(details.attack_multiplier),
            arithmetic::one::<A>(),
        ),
        |attack: A::Single| stages_after::<A>(details, attack, total_contribution),
    )
}

/// The outcomes of the split once the attacker's multiplier is known.
pub open spec fn stages_after<A: Arithmetic>(
    details: DamageDetails<A::Single>,
    attack: A::Single,
    total_contribution: A::Single,
) -> Set<(A::Single, A::Single)> {
    outcome::and_then(
        arithmetic::product::<A>(
            arithmetic::half::<A>(),
            arithmetic::difference::<A>(outcome::exactly(attack), arithmetic::one::<A>()),
        ),
        |raw_attack: A::Single|
            stages_between::<A>(details, attack, raw_attack, total_contribution),
    )
}

/// The outcomes of the split once the attacker's stage is known.
pub open spec fn stages_between<A: Arithmetic>(
    details: DamageDetails<A::Single>,
    attack: A::Single,
    raw_attack: A::Single,
    total_contribution: A::Single,
) -> Set<(A::Single, A::Single)> {
    outcome::and_then(
        arithmetic::product::<A>(
            arithmetic::half::<A>(),
            arithmetic::difference::<A>(
                attack_defense_of::<A>(details),
                outcome::exactly(attack),
            ),
        ),
        |raw_defense: A::Single| scaled_stages::<A>(raw_attack, raw_defense, total_contribution),
    )
}

/// The outcomes of scaling two stages so that they add up to a total.
pub open spec fn scaled_stages<A: Arithmetic>(
    raw_attack: A::Single,
    raw_defense: A::Single,
    total_contribution: A::Single,
) -> Set<(A::Single, A::Single)> {
    outcome::and_then(
        arithmetic::sum::<A>(outcome::exactly(raw_attack), outcome::exactly(raw_defense)),
        |raw_total: A::Single|
            scaled_to::<A>(raw_attack, raw_defense, raw_total, total_contribution),
    )
}

/// The outcomes of scaling two stages that add up to `raw_total`.
pub open spec fn scaled_to<A: Arithmetic>(
    raw_attack: A::Single,
    raw_defense: A::Single,
    raw_total: A::Single,
    total_contribution: A::Single,
) -> Set<(A::Single, A::Single)> {
    outcome::branch(
        arithmetic::exceeds::<A>(
            arithmetic::magnitude::<A>(outcome::exactly(raw_total)),
            arithmetic::epsilon::<A>(),
        ),
        outcome::and_then(
            arithmetic::quotient::<A>(
                outcome::exactly(total_contribution),
                outcome::exactly(raw_total),
            ),
            |scale: A::Single|
                Set::new(
                    |stages: (A::Single, A::Single)|
                        arithmetic::product::<A>(
                            outcome::exactly(raw_attack),
                            outcome::exactly(scale),
                        ).contains(stages.0) && arithmetic::product::<A>(
                            outcome::exactly(raw_defense),
                            outcome::exactly(scale),
                        ).contains(stages.1),
                ),
        ),
        outcome::branch(
            arithmetic::at_most::<A>(
                arithmetic::magnitude::<A>(outcome::exactly(total_contribution)),
                arithmetic::epsilon::<A>(),
            ),
            outcome::exactly((raw_attack, raw_defense)),
            Set::new(
                |stages: (A::Single, A::Single)|
                    stages.0 == total_contribution && arithmetic::zero::<A>().contains(stages.1),
            ),
        ),
    )
}

/// Splits the attack and defense part of a hit between the attacker's stage
/// and the target's stage.
pub fn attack_defense_stage_contributions<A: Arithmetic>(
    details: &DamageDetails<A::Single>,
    total_contribution: A::Single,
) -> (result: (A::Single, A::Single))
    ensures
        stages::<A>(*details, total_contribution).contains(result),
{
    let attack = finite_or_default::<A>(details.attack_multiplier, A::one());
    assert(arithmetic::finite_or::<A>(
        outcome::exactly(details.attack_multiplier),
        arithmetic::one::<A>(),
    ).contains(attack));
    let combined = resolved_attack_defense_multiplier::<A>(details);
    let raw_attack = A::times(A::half(), A::minus(attack, A::one()));
    assert(arithmetic::product::<A>(
        arithmetic::half::<A>(),
        arithmetic::difference::<A>(outcome::exactly(attack), arithmetic::one::<A>()),
    ).contains(raw_attack));
    let raw_defense = A::times(A::half(), A::minus(combined, attack));
    assert(arithmetic::product::<A>(
        arithmetic::half::<A>(),
        arithmetic::difference::<A>(attack_defense_of::<A>(*details), outcome::exactly(attack)),
    ).contains(raw_defense));
    scale_stages::<A>(raw_attack, raw_defense, total_contribution)
}

/// Scales two stages so that they add up to a total. Stages that cancel each
/// other out are kept where there is nothing to add up to.
pub fn scale_stages<A: Arithmetic>(
    raw_attack: A::Single,
    raw_defense: A::Single,
    total_contribution: A::Single,
) -> (result: (A::Single, A::Single))
    ensures
        scaled_stages::<A>(raw_attack, raw_defense, total_contribution).contains(result),
{
    let raw_total = A::plus(raw_attack, raw_defense);
    assert(arithmetic::sum::<A>(
        outcome::exactly(raw_attack),
        outcome::exactly(raw_defense),
    ).contains(raw_total));
    let uneven = A::above(A::magnitude(raw_total), A::epsilon());
    assert(arithmetic::exceeds::<A>(
        arithmetic::magnitude::<A>(outcome::exactly(raw_total)),
        arithmetic::epsilon::<A>(),
    ).contains(uneven));
    if uneven {
        let scale = A::divided(total_contribution, raw_total);
        assert(arithmetic::quotient::<A>(
            outcome::exactly(total_contribution),
            outcome::exactly(raw_total),
        ).contains(scale));
        return (A::times(raw_attack, scale), A::times(raw_defense, scale));
    }
    let nothing = A::at_most(A::magnitude(total_contribution), A::epsilon());
    assert(arithmetic::at_most::<A>(
        arithmetic::magnitude::<A>(outcome::exactly(total_contribution)),
        arithmetic::epsilon::<A>(),
    ).contains(nothing));
    if nothing {
        (raw_attack, raw_defense)
    } else {
        (total_contribution, A::zero())
    }
}

/// What the shares of a hit's statuses are computed from.
#[derive(Clone, Copy, Debug)]
pub struct ShareBasis<N> {
    pub damage_limit: N,
    /// What the attack statuses add up to.
    pub attack_weight: N,
    /// What the defense statuses add up to.
    pub defense_weight: N,
    /// The part of the hit that the attack statuses share.
    pub attack_contribution: N,
    /// The part of the hit that the defense statuses share.
    pub defense_contribution: N,
}

/// Whether `basis` is what the shares of a hit's statuses are computed from.
pub open spec fn is_basis<A: Arithmetic>(
    details: DamageDetails<A::Single>,
    groups: Seq<protocol::DamageStatusContribution<A::Single>>,
    attack_defense_contribution: A::Single,
    basis: ShareBasis<A::Single>,
) -> bool {
    &&& arithmetic::finite_or::<A>(
        outcome::exactly(details.damage_limit_multiplier),
        arithmetic::one::<A>(),
    ).contains(basis.damage_limit)
    &&& kind_total::<A>(groups, DamageModifierKind::Attack, None).contains(basis.attack_weight)
    &&& kind_total::<A>(groups, DamageModifierKind::Defense, None).contains(basis.defense_weight)
    &&& stages::<A>(details, attack_defense_contribution).contains(
        (basis.attack_contribution, basis.defense_contribution),
    )
}

/// The outcomes of dividing a part among statuses by weight. Where the weights
/// cancel out, nobody gets anything.
pub open spec fn weighted_share<A: Arithmetic>(
    contribution: A::Single,
    value: A::Single,
    weight: A::Single,
) -> Set<A::Single> {
    outcome::branch(
        arithmetic::exceeds::<A>(
            arithmetic::magnitude::<A>(outcome::exactly(weight)),
            arithmetic::epsilon::<A>(),
        ),
        arithmetic::quotient::<A>(
            arithmetic::product::<A>(outcome::exactly(contribution), outcome::exactly(value)),
            outcome::exactly(weight),
        ),
        arithmetic::zero::<A>(),
    )
}

/// The outcomes of computing the share of one status in a hit's multiplier.
pub open spec fn share<A: Arithmetic>(
    kind: DamageModifierKind,
    value: A::Single,
    basis: ShareBasis<A::Single>,
) -> Set<A::Single> {
    match kind {
        DamageModifierKind::DamageLimit => outcome::exactly(value),
        DamageModifierKind::Amplify => arithmetic::product::<A>(
            outcome::exactly(basis.damage_limit),
            outcome::exactly(value),
        ),
        DamageModifierKind::Attack => weighted_share::<A>(
            basis.attack_contribution,
            value,
            basis.attack_weight,
        ),
        DamageModifierKind::Defense => weighted_share::<A>(
            basis.defense_contribution,
            value,
            basis.defense_weight,
        ),
        DamageModifierKind::BonusAttack => arithmetic::zero::<A>(),
    }
}

/// Whether `shares` holds the share of each group.
pub open spec fn are_shares<A: Arithmetic>(
    groups: Seq<protocol::DamageStatusContribution<A::Single>>,
    basis: ShareBasis<A::Single>,
    shares: Seq<protocol::DamageStatusContribution<A::Single>>,
) -> bool {
    &&& shares.len() == groups.len()
    &&& forall|i: int|
        #![trigger shares[i]]
        0 <= i < shares.len() ==> grouping::key_of(shares[i]) == grouping::key_of(groups[i])
            && share::<A>(groups[i].kind, groups[i].value, basis).contains(shares[i].value)
}

/// Whether `shares` holds the share of each status in a hit's multiplier.
pub open spec fn shares_of<A: Arithmetic>(
    details: DamageDetails<A::Single>,
    attack_defense_contribution: A::Single,
    shares: Seq<protocol::DamageStatusContribution<A::Single>>,
) -> bool {
    exists|
        groups: Seq<protocol::DamageStatusContribution<A::Single>>,
        basis: ShareBasis<A::Single>,
    |
        signed_groups::<A>(details.statuses@, groups) && is_basis::<A>(
            details,
            groups,
            attack_defense_contribution,
            basis,
        ) && #[trigger] are_shares::<A>(groups, basis, shares)
}

/// Divides a part among statuses by weight.
fn share_by_weight<A: Arithmetic>(
    contribution: A::Single,
    value: A::Single,
    weight: A::Single,
) -> (result: A::Single)
    ensures
        weighted_share::<A>(contribution, value, weight).contains(result),
{
    let weighty = A::above(A::magnitude(weight), A::epsilon());
    assert(arithmetic::exceeds::<A>(
        arithmetic::magnitude::<A>(outcome::exactly(weight)),
        arithmetic::epsilon::<A>(),
    ).contains(weighty));
    if weighty {
        A::divided(A::times(contribution, value), weight)
    } else {
        A::zero()
    }
}

/// Computes the share of one status in a hit's multiplier.
fn share_of_status<A: Arithmetic>(
    kind: DamageModifierKind,
    value: A::Single,
    basis: &ShareBasis<A::Single>,
) -> (result: A::Single)
    ensures
        share::<A>(kind, value, *basis).contains(result),
{
    match kind {
        DamageModifierKind::DamageLimit => value,
        DamageModifierKind::Amplify => A::times(basis.damage_limit, value),
        DamageModifierKind::Attack => share_by_weight::<A>(
            basis.attack_contribution,
            value,
            basis.attack_weight,
        ),
        DamageModifierKind::Defense => share_by_weight::<A>(
            basis.defense_contribution,
            value,
            basis.defense_weight,
        ),
        DamageModifierKind::BonusAttack => A::zero(),
    }
}

/// The share of each status in a hit's multiplier.
pub fn status_multiplier_contributions<A: Arithmetic>(
    details: &DamageDetails<A::Single>,
    attack_defense_contribution: A::Single,
) -> (shares: Vec<protocol::DamageStatusContribution<A::Single>>)
    ensures
        shares_of::<A>(*details, attack_defense_contribution, shares@),
        grouping::keys_of(shares@) == grouping::distinct_keys(grouping::keys_of(details.statuses@)),
{
    let groups = grouped_statuses::<A>(details);
    let stage_parts = attack_defense_stage_contributions::<A>(details, attack_defense_contribution);
    let basis = ShareBasis {
        damage_limit: finite_or_default::<A>(details.damage_limit_multiplier, A::one()),
        attack_weight: total_of_kind::<A>(&groups, DamageModifierKind::Attack, None),
        defense_weight: total_of_kind::<A>(&groups, DamageModifierKind::Defense, None),
        attack_contribution: stage_parts.0,
        defense_contribution: stage_parts.1,
    };
    assert(is_basis::<A>(*details, groups@, attack_defense_contribution, basis));
    let mut shares: Vec<protocol::DamageStatusContribution<A::Single>> = Vec::new();
    let mut i: usize = 0;
    while i < groups.len()
        invariant
            i <= groups@.len(),
            are_shares::<A>(groups@.take(i as int), basis, shares@),
        decreases groups@.len() - i,
    {
        let group = &groups[i];
        let ghost before = shares@;
        shares.push(
            protocol::DamageStatusContribution {
                status_name: group.status_name.clone(),
                kind: group.kind,
                category: group.category,
                value: share_of_status::<A>(group.kind, group.value, &basis),
            },
        );
        assert forall|j: int|
            #![trigger shares@[j]]
            0 <= j < shares@.len() implies grouping::key_of(shares@[j]) == grouping::key_of(
            groups@.take(i + 1)[j],
        ) && share::<A>(
            groups@.take(i + 1)[j].kind,
            groups@.take(i + 1)[j].value,
            basis,
        ).contains(shares@[j].value) by {
            if j < i {
                assert(before[j] == shares@[j]);
                assert(groups@.take(i as int)[j] == groups@[j]);
            }
        }
        i = i + 1;
    }
    assert(groups@.take(i as int) =~= groups@);
    assert(grouping::keys_of(shares@) =~= grouping::keys_of(groups@));
    shares
}

/// The base of a hit is a number, not below zero, and not above a positive
/// cap. A hit without finite, positive damage has the base zero. The base of
/// the base is the base again. This takes an arithmetic that gives the same
/// answer each time and compares as numbers compare.
pub proof fn law_the_base_is_clamped<A: Arithmetic>(
    details: DamageDetails<A::Single>,
    base: A::Single,
)
    requires
        arithmetic::is_repeatable::<A>(),
        arithmetic::keeps_order::<A>(),
        base_of::<A>(details).contains(base),
    ensures
        arithmetic::is_number::<A>(base),
        forall|zero: A::Single| #[trigger]
            arithmetic::zero::<A>().contains(zero) ==> arithmetic::precedes::<A>(zero, base),
        forall|cap: A::Single|
            details.damage_cap > 0 && #[trigger] arithmetic::of_i32::<A>(
                details.damage_cap,
            ).contains(cap) ==> arithmetic::precedes::<A>(base, cap),
        !arithmetic::finite::<A>(outcome::exactly(details.uncapped_damage)).contains(true)
            || !arithmetic::exceeds::<A>(
            outcome::exactly(details.uncapped_damage),
            arithmetic::zero::<A>(),
        ).contains(true) ==> arithmetic::zero::<A>().contains(base),
        forall|again: A::Single| #[trigger]
            base_of::<A>(DamageDetails { uncapped_damage: base, ..details }).contains(again)
                ==> again == base,
{
    let damage = details.uncapped_damage;
    let clamped = DamageDetails { uncapped_damage: base, ..details };
    if details.damage_cap > 0 {
        let caps = arithmetic::of_i32::<A>(details.damage_cap);
        let (raw, cap) = choose|raw: A::Single, cap: A::Single|
            positive_part::<A>(damage).contains(raw) && caps.contains(cap)
                && #[trigger] call_ensures(A::smaller, (raw, cap), base);
        lemma_positive_part::<A>(damage, raw);
        assert forall|again: A::Single| #[trigger]
            base_of::<A>(clamped).contains(again) implies again == base by {
            let (kept, same_cap) = choose|kept: A::Single, same_cap: A::Single|
                positive_part::<A>(base).contains(kept) && caps.contains(same_cap)
                    && #[trigger] call_ensures(A::smaller, (kept, same_cap), again);
            assert(same_cap == cap);
            lemma_positive_part::<A>(base, kept);
        }
    } else {
        lemma_positive_part::<A>(damage, base);
        assert forall|again: A::Single| #[trigger]
            base_of::<A>(clamped).contains(again) implies again == base by {
            lemma_positive_part::<A>(base, again);
        }
    }
}

/// The positive part of a value is a number: the value, if that is above zero,
/// and zero otherwise.
proof fn lemma_positive_part<A: Arithmetic>(value: A::Single, part: A::Single)
    requires
        arithmetic::is_repeatable::<A>(),
        arithmetic::keeps_order::<A>(),
        positive_part::<A>(value).contains(part),
    ensures
        arithmetic::is_number::<A>(part),
        if arithmetic::is_number::<A>(value) && arithmetic::exceeds::<A>(
            outcome::exactly(value),
            arithmetic::zero::<A>(),
        ).contains(true) {
            part == value && forall|zero: A::Single| #[trigger]
                arithmetic::zero::<A>().contains(zero) ==> arithmetic::surpasses::<A>(part, zero)
        } else {
            arithmetic::zero::<A>().contains(part)
        },
{
    let finite = arithmetic::finite::<A>(outcome::exactly(value));
    let above = arithmetic::exceeds::<A>(outcome::exactly(value), arithmetic::zero::<A>());
    if finite.contains(true) {
        assert(finite =~= outcome::exactly(true));
    }
    if above.contains(true) {
        assert(!above.contains(false));
        assert forall|zero: A::Single| #[trigger]
            arithmetic::zero::<A>().contains(zero) implies arithmetic::surpasses::<A>(
            value,
            zero,
        ) by {
            assert(arithmetic::exceeds::<A>(outcome::exactly(value), outcome::exactly(zero))
                =~= outcome::exactly(true));
        }
    }
}

/// A contribution keeps its size. It counts against the damage if it lowers
/// an amplification, lowers the attack, or is a buff of the target's defense,
/// and for the damage otherwise.
pub proof fn law_a_contribution_takes_its_sign<A: Arithmetic>(
    num: spec_fn(A::Single) -> real,
    wide: spec_fn(A::Double) -> real,
    kind: DamageModifierKind,
    category: i32,
    value: A::Single,
    result: A::Single,
)
    requires
        arithmetic::is_exact::<A>(num, wide),
        signed::<A>(kind, category, value).contains(result),
    ensures
        kind == DamageModifierKind::Amplify ==> num(result) == if category == 1 {
            -num(value)
        } else {
            num(value)
        },
        kind == DamageModifierKind::Attack ==> num(result) == if 3 <= category <= 4 {
            -num(value)
        } else {
            num(value)
        },
        kind == DamageModifierKind::Defense ==> num(result) == if 0 <= category < 4 {
            -num(value)
        } else {
            num(value)
        },
        kind == DamageModifierKind::DamageLimit || kind == DamageModifierKind::BonusAttack
            ==> num(result) == num(value),
{
    let one = 1int as real;
    assert(one * num(value) == num(value)) by (nonlinear_arith)
        requires
            one == 1int as real,
    ;
    assert((-one) * num(value) == -num(value)) by (nonlinear_arith)
        requires
            one == 1int as real,
    ;
}

/// The test for a kind and, if one is named, a category of status.
pub open spec fn of_kind_and(kind: DamageModifierKind, category: Option<i32>) -> spec_fn(
    grouping::StatusKey,
) -> bool {
    match category {
        Some(c) => grouping::of_category(kind, c),
        None => grouping::of_kind(kind),
    }
}

/// In exact arithmetic the values of a kind add up.
pub proof fn lemma_exact_kind_total<A: Arithmetic>(
    num: spec_fn(A::Single) -> real,
    wide: spec_fn(A::Double) -> real,
    statuses: Seq<protocol::DamageStatusContribution<A::Single>>,
    kind: DamageModifierKind,
    category: Option<i32>,
    total: A::Single,
)
    requires
        arithmetic::is_exact::<A>(num, wide),
        kind_total::<A>(statuses, kind, category).contains(total),
    ensures
        num(total) == grouping::sum_of(num, statuses, of_kind_and(kind, category)),
    decreases statuses.len(),
{
    if statuses.len() > 0 {
        let earlier = statuses.drop_last();
        let last = statuses.last();
        if last.kind == kind && (category matches Some(c) ==> last.category == c) {
            let (before, value) = choose|before: A::Single, value: A::Single|
                kind_total::<A>(earlier, kind, category).contains(before) && value == last.value
                    && #[trigger] call_ensures(A::plus, (before, value), total);
            lemma_exact_kind_total::<A>(num, wide, earlier, kind, category, before);
        } else {
            lemma_exact_kind_total::<A>(num, wide, earlier, kind, category, total);
        }
    }
}

/// A kind that does not occur adds nothing up.
pub proof fn lemma_absent_kind<N>(
    num: spec_fn(N) -> real,
    statuses: Seq<protocol::DamageStatusContribution<N>>,
    kind: DamageModifierKind,
    category: Option<i32>,
)
    requires
        forall|i: int| 0 <= i < statuses.len() ==> (#[trigger] statuses[i]).kind != kind,
    ensures
        grouping::sum_of(num, statuses, of_kind_and(kind, category)) == 0int as real,
    decreases statuses.len(),
{
    if statuses.len() > 0 {
        let earlier = statuses.drop_last();
        assert(statuses[statuses.len() - 1].kind != kind);
        assert forall|i: int| 0 <= i < earlier.len() implies (#[trigger] earlier[i]).kind
            != kind by {
            assert(statuses[i].kind != kind);
        }
        lemma_absent_kind(num, earlier, kind, category);
    }
}

/// The amplify multiplier of a hit is one, and above it what the amplify
/// statuses of category 0 add and those of category 1 take away. Without such a
/// status it is the hit's own figure.
pub proof fn law_amplify_statuses_make_the_multiplier<A: Arithmetic>(
    num: spec_fn(A::Single) -> real,
    wide: spec_fn(A::Double) -> real,
    details: DamageDetails<A::Single>,
    multiplier: A::Single,
)
    requires
        arithmetic::is_exact::<A>(num, wide),
        amplify_of::<A>(details).contains(multiplier),
    ensures
        (exists|i: int|
            0 <= i < details.statuses@.len() && (#[trigger] details.statuses@[i]).kind
                == DamageModifierKind::Amplify) ==> num(multiplier) == 1int as real
            + grouping::sum_of(
            num,
            details.statuses@,
            grouping::of_category(DamageModifierKind::Amplify, 0),
        ) - grouping::sum_of(
            num,
            details.statuses@,
            grouping::of_category(DamageModifierKind::Amplify, 1),
        ),
        (forall|i: int|
            0 <= i < details.statuses@.len() ==> (#[trigger] details.statuses@[i]).kind
                != DamageModifierKind::Amplify) ==> num(multiplier) == num(
            details.amplify_multiplier,
        ),
{
    let statuses = details.statuses@;
    if has_kind(statuses, DamageModifierKind::Amplify) {
        let raised = kind_total::<A>(statuses, DamageModifierKind::Amplify, Some(0));
        let lowered = kind_total::<A>(statuses, DamageModifierKind::Amplify, Some(1));
        let sums = arithmetic::sum::<A>(arithmetic::one::<A>(), raised);
        let (above, down) = choose|above: A::Single, down: A::Single|
            sums.contains(above) && lowered.contains(down) && #[trigger] call_ensures(
                A::minus,
                (above, down),
                multiplier,
            );
        let (one, up) = choose|one: A::Single, up: A::Single|
            arithmetic::one::<A>().contains(one) && raised.contains(up)
                && #[trigger] call_ensures(A::plus, (one, up), above);
        lemma_exact_kind_total::<A>(
            num,
            wide,
            statuses,
            DamageModifierKind::Amplify,
            Some(0),
            up,
        );
        lemma_exact_kind_total::<A>(
            num,
            wide,
            statuses,
            DamageModifierKind::Amplify,
            Some(1),
            down,
        );
    }
}

/// The amplify multiplier that hits are told apart by counts category 1
/// against and every other category for the damage.
pub proof fn law_amplify_statuses_make_the_unchecked_multiplier<A: Arithmetic>(
    num: spec_fn(A::Single) -> real,
    wide: spec_fn(A::Double) -> real,
    details: DamageDetails<A::Single>,
    multiplier: A::Single,
)
    requires
        arithmetic::is_exact::<A>(num, wide),
        unchecked_amplify_of::<A>(details).contains(multiplier),
    ensures
        (exists|i: int|
            0 <= i < details.statuses@.len() && (#[trigger] details.statuses@[i]).kind
                == DamageModifierKind::Amplify) ==> num(multiplier) == 1int as real
            + grouping::sum_of(
            num,
            details.statuses@,
            grouping::of_kind(DamageModifierKind::Amplify),
        ) - grouping::sum_of(
            num,
            details.statuses@,
            grouping::of_category(DamageModifierKind::Amplify, 1),
        ) - grouping::sum_of(
            num,
            details.statuses@,
            grouping::of_category(DamageModifierKind::Amplify, 1),
        ),
        (forall|i: int|
            0 <= i < details.statuses@.len() ==> (#[trigger] details.statuses@[i]).kind
                != DamageModifierKind::Amplify) ==> num(multiplier) == num(
            details.amplify_multiplier,
        ),
{
    if has_kind(details.statuses@, DamageModifierKind::Amplify) {
        lemma_exact_amplify_walk::<A>(num, wide, details.statuses@, multiplier);
    }
}

/// In exact arithmetic the amplify statuses add up.
proof fn lemma_exact_amplify_walk<A: Arithmetic>(
    num: spec_fn(A::Single) -> real,
    wide: spec_fn(A::Double) -> real,
    statuses: Seq<protocol::DamageStatusContribution<A::Single>>,
    multiplier: A::Single,
)
    requires
        arithmetic::is_exact::<A>(num, wide),
        amplify_walk::<A>(statuses).contains(multiplier),
    ensures
        num(multiplier) == 1int as real + grouping::sum_of(
            num,
            statuses,
            grouping::of_kind(DamageModifierKind::Amplify),
        ) - grouping::sum_of(
            num,
            statuses,
            grouping::of_category(DamageModifierKind::Amplify, 1),
        ) - grouping::sum_of(
            num,
            statuses,
            grouping::of_category(DamageModifierKind::Amplify, 1),
        ),
    decreases statuses.len(),
{
    if statuses.len() > 0 {
        let earlier = statuses.drop_last();
        let last = statuses.last();
        if last.kind != DamageModifierKind::Amplify {
            lemma_exact_amplify_walk::<A>(num, wide, earlier, multiplier);
        } else {
            let changes = if last.category == 1 {
                arithmetic::opposite::<A>(outcome::exactly(last.value))
            } else {
                outcome::exactly(last.value)
            };
            let (before, change) = choose|before: A::Single, change: A::Single|
                amplify_walk::<A>(earlier).contains(before) && changes.contains(change)
                    && #[trigger] call_ensures(A::plus, (before, change), multiplier);
            lemma_exact_amplify_walk::<A>(num, wide, earlier, before);
        }
    }
}

/// The base of a hit is its uncapped damage, but not below zero and not above a
/// positive cap.
pub proof fn law_the_base_is_the_damage_up_to_the_cap<A: Arithmetic>(
    num: spec_fn(A::Single) -> real,
    wide: spec_fn(A::Double) -> real,
    details: DamageDetails<A::Single>,
    base: A::Single,
)
    requires
        arithmetic::is_exact::<A>(num, wide),
        base_of::<A>(details).contains(base),
    ensures
        num(details.uncapped_damage) <= 0int as real ==> num(base) == 0int as real,
        num(details.uncapped_damage) >= 0int as real && (details.damage_cap <= 0 || num(
            details.uncapped_damage,
        ) <= details.damage_cap as int as real) ==> num(base) == num(details.uncapped_damage),
        details.damage_cap > 0 && num(details.uncapped_damage) >= details.damage_cap as int as real
            ==> num(base) == details.damage_cap as int as real,
{
}

/// A hit reached its cap if it has one and its base is less than a half away
/// from it.
pub proof fn law_a_base_near_the_cap_is_capped<A: Arithmetic>(
    num: spec_fn(A::Single) -> real,
    wide: spec_fn(A::Double) -> real,
    details: DamageDetails<A::Single>,
    base: A::Single,
    judgment: bool,
)
    requires
        arithmetic::is_exact::<A>(num, wide),
        capped::<A>(details, base).contains(judgment),
    ensures
        judgment <==> {
            let distance = num(base) - details.damage_cap as int as real;
            &&& details.damage_cap > 0
            &&& distance + distance < 1int as real
            &&& -(distance + distance) < 1int as real
        },
{
}

/// A hit is read as hooks write it today exactly if its stored formula
/// multiplier is at least as near to today's formula as to the previous one.
pub proof fn law_the_nearer_formula_decides<A: Arithmetic>(
    num: spec_fn(A::Single) -> real,
    wide: spec_fn(A::Double) -> real,
    details: DamageDetails<A::Single>,
    amplify: A::Single,
    answer: bool,
)
    requires
        arithmetic::is_exact::<A>(num, wide),
        unchecked_amplify_of::<A>(details).contains(amplify),
        corrected_semantics::<A>(details).contains(answer),
    ensures
        ({
            let two = 2int as real;
            let one = 1int as real;
            let defense = num(details.defense_multiplier);
            let today = num(details.damage_limit_multiplier) * num(amplify) + (if defense >= one {
                (defense - one) / two
            } else {
                0int as real
            });
            let previous = (num(details.elemental_multiplier) * num(amplify) + (defense * num(
                details.attack_multiplier,
            ) - one) / two) * num(details.supplementary_multiplier);
            let stored = num(details.formula_multiplier);
            answer == (arithmetic::size(stored - today) <= arithmetic::size(stored - previous))
        }),
{
    let found = choose|found: A::Single| #[trigger]
        unchecked_amplify_of::<A>(details).contains(found) && judged_with::<A>(
            details,
            found,
        ).contains(answer);
    let corrected = choose|corrected: A::Single| #[trigger]
        corrected_formula::<A>(details, found).contains(corrected) && judged_against::<A>(
            details,
            found,
            corrected,
        ).contains(answer);
    let legacy = choose|legacy: A::Single| #[trigger]
        legacy_formula::<A>(details, found).contains(legacy) && nearer::<A>(
            details,
            corrected,
            legacy,
        ).contains(answer);
    assert(num(found) == num(amplify)) by {
        law_amplify_statuses_make_the_unchecked_multiplier::<A>(num, wide, details, found);
        law_amplify_statuses_make_the_unchecked_multiplier::<A>(num, wide, details, amplify);
    }
    lemma_exact_corrected_formula::<A>(num, wide, details, found, corrected);
    lemma_exact_legacy_formula::<A>(num, wide, details, found, legacy);
}

/// Today's formula in exact arithmetic.
proof fn lemma_exact_corrected_formula<A: Arithmetic>(
    num: spec_fn(A::Single) -> real,
    wide: spec_fn(A::Double) -> real,
    details: DamageDetails<A::Single>,
    amplify: A::Single,
    result: A::Single,
)
    requires
        arithmetic::is_exact::<A>(num, wide),
        corrected_formula::<A>(details, amplify).contains(result),
    ensures
        num(result) == num(details.damage_limit_multiplier) * num(amplify) + (if num(
            details.defense_multiplier,
        ) >= 1int as real {
            (num(details.defense_multiplier) - 1int as real) / 2int as real
        } else {
            0int as real
        }),
{
    let excesses = arithmetic::maximum::<A>(
        arithmetic::difference::<A>(
            arithmetic::finite_or::<A>(
                outcome::exactly(details.defense_multiplier),
                arithmetic::one::<A>(),
            ),
            arithmetic::one::<A>(),
        ),
        arithmetic::zero::<A>(),
    );
    let bonuses = arithmetic::product::<A>(excesses, arithmetic::half::<A>());
    let limits = arithmetic::finite_or::<A>(
        outcome::exactly(details.damage_limit_multiplier),
        arithmetic::one::<A>(),
    );
    let products = arithmetic::product::<A>(limits, outcome::exactly(amplify));
    let (product, bonus) = choose|product: A::Single, bonus: A::Single|
        products.contains(product) && bonuses.contains(bonus) && #[trigger] call_ensures(
            A::plus,
            (product, bonus),
            result,
        );
    let (excess, half) = choose|excess: A::Single, half: A::Single|
        excesses.contains(excess) && arithmetic::half::<A>().contains(half)
            && #[trigger] call_ensures(A::times, (excess, half), bonus);
    lemma_exact_half::<A>(num, wide, excess, half, bonus);
}

/// The previous formula in exact arithmetic.
proof fn lemma_exact_legacy_formula<A: Arithmetic>(
    num: spec_fn(A::Single) -> real,
    wide: spec_fn(A::Double) -> real,
    details: DamageDetails<A::Single>,
    amplify: A::Single,
    result: A::Single,
)
    requires
        arithmetic::is_exact::<A>(num, wide),
        legacy_formula::<A>(details, amplify).contains(result),
    ensures
        num(result) == (num(details.elemental_multiplier) * num(amplify) + (num(
            details.defense_multiplier,
        ) * num(details.attack_multiplier) - 1int as real) / 2int as real) * num(
            details.supplementary_multiplier,
        ),
{
    let combined = arithmetic::finite_or::<A>(
        arithmetic::product::<A>(
            outcome::exactly(details.defense_multiplier),
            outcome::exactly(details.attack_multiplier),
        ),
        arithmetic::one::<A>(),
    );
    let excesses = arithmetic::difference::<A>(combined, arithmetic::one::<A>());
    let halves = arithmetic::product::<A>(excesses, arithmetic::half::<A>());
    let elements = arithmetic::finite_or::<A>(
        outcome::exactly(details.elemental_multiplier),
        arithmetic::one::<A>(),
    );
    let products = arithmetic::product::<A>(elements, outcome::exactly(amplify));
    let supplements = arithmetic::finite_or::<A>(
        outcome::exactly(details.supplementary_multiplier),
        arithmetic::one::<A>(),
    );
    let sums = arithmetic::sum::<A>(products, halves);
    let (sum, supplement) = choose|sum: A::Single, supplement: A::Single|
        sums.contains(sum) && supplements.contains(supplement) && #[trigger] call_ensures(
            A::times,
            (sum, supplement),
            result,
        );
    let (product, bonus) = choose|product: A::Single, bonus: A::Single|
        products.contains(product) && halves.contains(bonus) && #[trigger] call_ensures(
            A::plus,
            (product, bonus),
            sum,
        );
    let (excess, half) = choose|excess: A::Single, half: A::Single|
        excesses.contains(excess) && arithmetic::half::<A>().contains(half)
            && #[trigger] call_ensures(A::times, (excess, half), bonus);
    lemma_exact_half::<A>(num, wide, excess, half, bonus);
}

/// Half of a number in exact arithmetic.
proof fn lemma_exact_half<A: Arithmetic>(
    num: spec_fn(A::Single) -> real,
    wide: spec_fn(A::Double) -> real,
    value: A::Single,
    half: A::Single,
    result: A::Single,
)
    requires
        arithmetic::is_exact::<A>(num, wide),
        arithmetic::half::<A>().contains(half),
        call_ensures(A::times, (value, half), result) || call_ensures(
            A::times,
            (half, value),
            result,
        ),
    ensures
        num(result) == num(value) / 2int as real,
        num(result) + num(result) == num(value),
{
    let (v, h, r) = (num(value), num(half), num(result));
    assert(r + r == v) by (nonlinear_arith)
        requires
            r == v * h || r == h * v,
            h + h == 1int as real,
    ;
}

/// A hit that is read as hooks write it today has the combined multiplier that
/// it was stored with and the critical rate in place of the elemental
/// multiplier. A hit of previous hooks has the combined multiplier as a product,
/// and no critical rate.
pub proof fn law_both_readings_resolve_their_figures<A: Arithmetic>(
    num: spec_fn(A::Single) -> real,
    wide: spec_fn(A::Double) -> real,
    details: DamageDetails<A::Single>,
    attack_defense: A::Single,
    critical_rate: A::Single,
)
    requires
        arithmetic::is_exact::<A>(num, wide),
        attack_defense_of::<A>(details).contains(attack_defense),
        critical_rate_of::<A>(details).contains(critical_rate),
    ensures
        !corrected_semantics::<A>(details).contains(false) ==> num(attack_defense) == num(
            details.defense_multiplier,
        ) && num(critical_rate) == num(details.elemental_multiplier),
        !corrected_semantics::<A>(details).contains(true) ==> num(attack_defense) == num(
            details.defense_multiplier,
        ) * num(details.attack_multiplier) && num(critical_rate) == 0int as real,
{
}

/// The parts of a hit's multiplier: one, what the damage limit adds, what the
/// amplification adds on top of it, half of what attack and defense add, and an
/// unattributed rest make up the damage over the base. Without a base there are
/// none.
pub proof fn law_the_parts_make_up_the_multiplier<A: Arithmetic>(
    num: spec_fn(A::Single) -> real,
    wide: spec_fn(A::Double) -> real,
    details: DamageDetails<A::Single>,
    damage: u64,
    base_damage: A::Single,
    parts: MultiplierComponents<A::Single>,
)
    requires
        arithmetic::is_exact::<A>(num, wide),
        parts_of::<A>(details, damage, base_damage).contains(parts),
    ensures
        num(base_damage) > 0int as real ==> {
            let one = 1int as real;
            &&& num(parts.effective) * num(base_damage) == damage as int as real
            &&& num(parts.recognized) == one + num(parts.damage_limit) + num(parts.amplify) + num(
                parts.attack_defense,
            )
            &&& num(parts.effective) == num(parts.recognized) + num(parts.unattributed)
            &&& one + num(parts.damage_limit) == num(details.damage_limit_multiplier)
            &&& exists|amplify: A::Single, attack_defense: A::Single| #[trigger]
                amplify_of::<A>(details).contains(amplify) && #[trigger] attack_defense_of::<A>(
                    details,
                ).contains(attack_defense) && one + num(parts.damage_limit) + num(parts.amplify)
                    == num(details.damage_limit_multiplier) * num(amplify) && num(
                    parts.attack_defense,
                ) + num(parts.attack_defense) == arithmetic::greater(
                    num(attack_defense) - one,
                    0int as real,
                )
        },
        num(base_damage) <= 0int as real ==> {
            &&& num(parts.effective) == 0int as real
            &&& num(parts.recognized) == 0int as real
            &&& num(parts.damage_limit) == 0int as real
            &&& num(parts.amplify) == 0int as real
            &&& num(parts.attack_defense) == 0int as real
            &&& num(parts.unattributed) == 0int as real
        },
{
    if num(base_damage) > 0int as real {
        let limits = arithmetic::finite_or::<A>(
            outcome::exactly(details.damage_limit_multiplier),
            arithmetic::one::<A>(),
        );
        let gains = arithmetic::difference::<A>(
            amplify_of::<A>(details),
            arithmetic::one::<A>(),
        );
        let excesses = arithmetic::maximum::<A>(
            arithmetic::difference::<A>(attack_defense_of::<A>(details), arithmetic::one::<A>()),
            arithmetic::zero::<A>(),
        );
        assert(parts_above_zero::<A>(details, damage, base_damage, parts));
        let (limit, gain) = choose|limit: A::Single, gain: A::Single|
            limits.contains(limit) && gains.contains(gain) && #[trigger] call_ensures(
                A::times,
                (limit, gain),
                parts.amplify,
            );
        let (amplify, one) = choose|amplify: A::Single, one: A::Single|
            amplify_of::<A>(details).contains(amplify) && arithmetic::one::<A>().contains(one)
                && #[trigger] call_ensures(A::minus, (amplify, one), gain);
        let (excess, half) = choose|excess: A::Single, half: A::Single|
            excesses.contains(excess) && arithmetic::half::<A>().contains(half)
                && #[trigger] call_ensures(A::times, (excess, half), parts.attack_defense);
        lemma_exact_half::<A>(num, wide, excess, half, parts.attack_defense);
        let (l, g, m) = (num(limit), num(gain), num(amplify));
        assert(l + l * g == l * m) by (nonlinear_arith)
            requires
                g == m - 1int as real,
        ;
        assert(amplify_of::<A>(details).contains(amplify));
        assert(exists|attack_defense: A::Single| #[trigger]
            attack_defense_of::<A>(details).contains(attack_defense) && num(excess)
                == arithmetic::greater(num(attack_defense) - 1int as real, 0int as real));
    }
}

/// The attacker's and the target's stage add up to the part that they share
/// and stand in the proportion of what each does to the combined multiplier.
/// Where they cancel each other out, they are kept as they are if there is
/// nothing to share, and the attacker's stage takes all otherwise.
pub proof fn law_the_stages_share_the_whole<A: Arithmetic>(
    num: spec_fn(A::Single) -> real,
    wide: spec_fn(A::Double) -> real,
    details: DamageDetails<A::Single>,
    total: A::Single,
    stage: (A::Single, A::Single),
)
    requires
        arithmetic::is_exact::<A>(num, wide),
        stages::<A>(details, total).contains(stage),
    ensures
        exists|combined: A::Single| #[trigger]
            attack_defense_of::<A>(details).contains(combined) && {
                let one = 1int as real;
                let attack = num(details.attack_multiplier);
                let all = num(combined);
                &&& all != one ==> {
                    &&& num(stage.0) + num(stage.1) == num(total)
                    &&& num(stage.0) * (all - one) == num(total) * (attack - one)
                    &&& num(stage.1) * (all - one) == num(total) * (all - attack)
                }
                &&& all == one && num(total) == 0int as real ==> {
                    &&& num(stage.0) + num(stage.0) == attack - one
                    &&& num(stage.1) + num(stage.1) == one - attack
                }
                &&& all == one && num(total) != 0int as real ==> {
                    &&& num(stage.0) == num(total)
                    &&& num(stage.1) == 0int as real
                }
            },
{
    let attacks = arithmetic::finite_or::<A>(
        outcome::exactly(details.attack_multiplier),
        arithmetic::one::<A>(),
    );
    let attack = choose|attack: A::Single| #[trigger]
        attacks.contains(attack) && stages_after::<A>(details, attack, total).contains(stage);
    let raw_attack = choose|raw_attack: A::Single| #[trigger]
        arithmetic::product::<A>(
            arithmetic::half::<A>(),
            arithmetic::difference::<A>(outcome::exactly(attack), arithmetic::one::<A>()),
        ).contains(raw_attack) && stages_between::<A>(
            details,
            attack,
            raw_attack,
            total,
        ).contains(stage);
    let raw_defense = choose|raw_defense: A::Single| #[trigger]
        arithmetic::product::<A>(
            arithmetic::half::<A>(),
            arithmetic::difference::<A>(
                attack_defense_of::<A>(details),
                outcome::exactly(attack),
            ),
        ).contains(raw_defense) && scaled_stages::<A>(raw_attack, raw_defense, total).contains(
            stage,
        );
    let (half, gain) = choose|half: A::Single, gain: A::Single|
        arithmetic::half::<A>().contains(half) && arithmetic::difference::<A>(
            outcome::exactly(attack),
            arithmetic::one::<A>(),
        ).contains(gain) && #[trigger] call_ensures(A::times, (half, gain), raw_attack);
    lemma_exact_half::<A>(num, wide, gain, half, raw_attack);
    let (other_half, rest) = choose|half: A::Single, rest: A::Single|
        arithmetic::half::<A>().contains(half) && arithmetic::difference::<A>(
            attack_defense_of::<A>(details),
            outcome::exactly(attack),
        ).contains(rest) && #[trigger] call_ensures(A::times, (half, rest), raw_defense);
    lemma_exact_half::<A>(num, wide, rest, other_half, raw_defense);
    let (combined, same) = choose|combined: A::Single, same: A::Single|
        attack_defense_of::<A>(details).contains(combined) && same == attack
            && #[trigger] call_ensures(A::minus, (combined, same), rest);
    assert(attack_defense_of::<A>(details).contains(combined));
    lemma_exact_scaled_stages::<A>(num, wide, raw_attack, raw_defense, total, stage);
    let (a, d, t) = (num(raw_attack), num(raw_defense), num(total));
    let (s, u) = (num(stage.0), num(stage.1));
    if a + d != 0int as real {
        assert(s * (a + d + a + d) == t * (a + a)) by (nonlinear_arith)
            requires
                s * (a + d) == t * a,
        ;
        assert(u * (a + d + a + d) == t * (d + d)) by (nonlinear_arith)
            requires
                u * (a + d) == t * d,
        ;
    }
}

/// Scaled stages in exact arithmetic.
proof fn lemma_exact_scaled_stages<A: Arithmetic>(
    num: spec_fn(A::Single) -> real,
    wide: spec_fn(A::Double) -> real,
    raw_attack: A::Single,
    raw_defense: A::Single,
    total: A::Single,
    stage: (A::Single, A::Single),
)
    requires
        arithmetic::is_exact::<A>(num, wide),
        scaled_stages::<A>(raw_attack, raw_defense, total).contains(stage),
    ensures
        ({
            let (a, d, t) = (num(raw_attack), num(raw_defense), num(total));
            let (s, u) = (num(stage.0), num(stage.1));
            &&& a + d != 0int as real ==> s + u == t && s * (a + d) == t * a && u * (a + d) == t * d
            &&& a + d == 0int as real && t == 0int as real ==> s == a && u == d
            &&& a + d == 0int as real && t != 0int as real ==> s == t && u == 0int as real
        }),
{
    let (a, d, t) = (num(raw_attack), num(raw_defense), num(total));
    let (s, u) = (num(stage.0), num(stage.1));
    if a + d != 0int as real {
        let raw_total = choose|raw_total: A::Single| #[trigger]
            arithmetic::sum::<A>(
                outcome::exactly(raw_attack),
                outcome::exactly(raw_defense),
            ).contains(raw_total) && scaled_to::<A>(
                raw_attack,
                raw_defense,
                raw_total,
                total,
            ).contains(stage);
        let scale = choose|scale: A::Single| #[trigger]
            arithmetic::quotient::<A>(
                outcome::exactly(total),
                outcome::exactly(raw_total),
            ).contains(scale) && arithmetic::product::<A>(
                outcome::exactly(raw_attack),
                outcome::exactly(scale),
            ).contains(stage.0) && arithmetic::product::<A>(
                outcome::exactly(raw_defense),
                outcome::exactly(scale),
            ).contains(stage.1);
        let c = num(scale);
        assert(c * (a + d) == t);
        assert(s + u == t && s * (a + d) == t * a && u * (a + d) == t * d) by (nonlinear_arith)
            requires
                s == a * c,
                u == d * c,
                c * (a + d) == t,
        ;
    }
}

/// Whether a status works against the damage: it lowers an amplification, it
/// lowers the attack, or it raises the target's defense.
pub open spec fn works_against(key: grouping::StatusKey) -> bool {
    ||| key.kind == DamageModifierKind::Amplify && key.category == 1
    ||| key.kind == DamageModifierKind::Attack && 3 <= key.category <= 4
    ||| key.kind == DamageModifierKind::Defense && 0 <= key.category < 4
}

/// The test for statuses of a kind that work against the damage, or for it.
pub open spec fn of_kind_working(kind: DamageModifierKind, against: bool) -> spec_fn(
    grouping::StatusKey,
) -> bool {
    |k: grouping::StatusKey| k.kind == kind && works_against(k) == against
}

/// What the statuses of a kind amount to: those that work for the damage less
/// those that work against it.
pub open spec fn balance<N>(
    num: spec_fn(N) -> real,
    statuses: Seq<protocol::DamageStatusContribution<N>>,
    kind: DamageModifierKind,
) -> real {
    grouping::sum_of(num, statuses, of_kind_working(kind, false)) - grouping::sum_of(
        num,
        statuses,
        of_kind_working(kind, true),
    )
}

/// Signed contributions of statuses that all work for, or all against, the
/// damage add up to the sum of the contributions, or to its opposite.
proof fn lemma_exact_signed_sum<A: Arithmetic>(
    num: spec_fn(A::Single) -> real,
    wide: spec_fn(A::Double) -> real,
    statuses: Seq<protocol::DamageStatusContribution<A::Single>>,
    items: Seq<protocol::DamageStatusContribution<A::Single>>,
    wanted: spec_fn(grouping::StatusKey) -> bool,
    against: bool,
)
    requires
        arithmetic::is_exact::<A>(num, wide),
        are_signed_forms::<A>(statuses, items),
        forall|key: grouping::StatusKey| #[trigger] wanted(key) ==> works_against(key) == against,
    ensures
        grouping::sum_of(num, items, wanted) == if against {
            -grouping::sum_of(num, statuses, wanted)
        } else {
            grouping::sum_of(num, statuses, wanted)
        },
    decreases statuses.len(),
{
    if statuses.len() > 0 {
        let fewer = items.drop_last();
        let earlier = statuses.drop_last();
        let (last, item) = (statuses[statuses.len() - 1], items[items.len() - 1]);
        assert(is_signed_form::<A>(last, item));
        law_a_contribution_takes_its_sign::<A>(
            num,
            wide,
            last.kind,
            last.category,
            last.value,
            item.value,
        );
        assert forall|i: int| 0 <= i < fewer.len() implies #[trigger] is_signed_form::<A>(
            earlier[i],
            fewer[i],
        ) by {
            assert(is_signed_form::<A>(statuses[i], items[i]));
        }
        lemma_exact_signed_sum::<A>(num, wide, earlier, fewer, wanted, against);
    }
}

/// The statuses of a kind are those that work for the damage and those that
/// work against it.
proof fn lemma_sum_of_kind_splits<N>(
    num: spec_fn(N) -> real,
    statuses: Seq<protocol::DamageStatusContribution<N>>,
    kind: DamageModifierKind,
)
    ensures
        grouping::sum_of(num, statuses, grouping::of_kind(kind)) == grouping::sum_of(
            num,
            statuses,
            of_kind_working(kind, false),
        ) + grouping::sum_of(num, statuses, of_kind_working(kind, true)),
    decreases statuses.len(),
{
    if statuses.len() > 0 {
        lemma_sum_of_kind_splits(num, statuses.drop_last(), kind);
    }
}

/// The signed groups of a hit's statuses: each amounts to what its status
/// contributed, or to the opposite if that works against the damage, and the
/// groups of a kind add up to the balance of the kind.
pub proof fn law_groups_count_for_or_against_the_damage<A: Arithmetic>(
    num: spec_fn(A::Single) -> real,
    wide: spec_fn(A::Double) -> real,
    statuses: Seq<protocol::DamageStatusContribution<A::Single>>,
    groups: Seq<protocol::DamageStatusContribution<A::Single>>,
)
    requires
        arithmetic::is_exact::<A>(num, wide),
        signed_groups::<A>(statuses, groups),
    ensures
        forall|i: int|
            #![trigger groups[i]]
            0 <= i < groups.len() ==> num(groups[i].value) == if works_against(
                grouping::key_of(groups[i]),
            ) {
                -grouping::sum_of(
                    num,
                    statuses,
                    grouping::is_status(grouping::key_of(groups[i])),
                )
            } else {
                grouping::sum_of(num, statuses, grouping::is_status(grouping::key_of(groups[i])))
            },
        forall|kind: DamageModifierKind| #[trigger]
            grouping::sum_of(num, groups, grouping::of_kind(kind)) == balance(num, statuses, kind),
{
    let items = choose|items: Seq<protocol::DamageStatusContribution<A::Single>>| #[trigger]
        are_signed_forms::<A>(statuses, items) && grouping::grouped::<A>(items, groups);
    assert forall|i: int|
        #![trigger groups[i]]
        0 <= i < groups.len() implies num(groups[i].value) == if works_against(
        grouping::key_of(groups[i]),
    ) {
        -grouping::sum_of(num, statuses, grouping::is_status(grouping::key_of(groups[i])))
    } else {
        grouping::sum_of(num, statuses, grouping::is_status(grouping::key_of(groups[i])))
    } by {
        let key = grouping::key_of(groups[i]);
        grouping::lemma_exact_status_total::<A>(num, wide, items, key, groups[i].value);
        lemma_exact_signed_sum::<A>(
            num,
            wide,
            statuses,
            items,
            grouping::is_status(key),
            works_against(key),
        );
    }
    assert forall|kind: DamageModifierKind| #[trigger]
        grouping::sum_of(num, groups, grouping::of_kind(kind)) == balance(num, statuses, kind) by {
        grouping::law_groups_add_up_to_their_contributions::<A>(
            num,
            wide,
            items,
            groups,
            grouping::of_kind(kind),
        );
        lemma_sum_of_kind_splits(num, items, kind);
        lemma_exact_signed_sum::<A>(
            num,
            wide,
            statuses,
            items,
            of_kind_working(kind, false),
            false,
        );
        lemma_exact_signed_sum::<A>(
            num,
            wide,
            statuses,
            items,
            of_kind_working(kind, true),
            true,
        );
    }
}

/// What one status amounts to, negative if it works against the damage.
pub open spec fn weight_of<N>(
    num: spec_fn(N) -> real,
    statuses: Seq<protocol::DamageStatusContribution<N>>,
    key: grouping::StatusKey,
) -> real {
    if works_against(key) {
        -grouping::sum_of(num, statuses, grouping::is_status(key))
    } else {
        grouping::sum_of(num, statuses, grouping::is_status(key))
    }
}

/// The shares of a hit's statuses in its multiplier. A damage limit status
/// gives what it is worth, and an amplify status that much of the damage limit.
/// Attack and defense statuses divide their stage in proportion to what they
/// are worth, unless that cancels out, and a bonus attack gives nothing. What
/// works against the damage counts against it throughout.
pub proof fn law_statuses_share_their_stage<A: Arithmetic>(
    num: spec_fn(A::Single) -> real,
    wide: spec_fn(A::Double) -> real,
    details: DamageDetails<A::Single>,
    total: A::Single,
    shares: Seq<protocol::DamageStatusContribution<A::Single>>,
)
    requires
        arithmetic::is_exact::<A>(num, wide),
        shares_of::<A>(details, total, shares),
    ensures
        exists|stage: (A::Single, A::Single)| #[trigger]
            stages::<A>(details, total).contains(stage) && forall|i: int|
                #![trigger shares[i]]
                0 <= i < shares.len() ==> {
                    let key = grouping::key_of(shares[i]);
                    let weight = weight_of(num, details.statuses@, key);
                    let all = balance(num, details.statuses@, key.kind);
                    let share = num(shares[i].value);
                    &&& key.kind == DamageModifierKind::DamageLimit ==> share == weight
                    &&& key.kind == DamageModifierKind::Amplify ==> share == num(
                        details.damage_limit_multiplier,
                    ) * weight
                    &&& key.kind == DamageModifierKind::BonusAttack ==> share == 0int as real
                    &&& key.kind == DamageModifierKind::Attack ==> if all == 0int as real {
                        share == 0int as real
                    } else {
                        share * all == num(stage.0) * weight
                    }
                    &&& key.kind == DamageModifierKind::Defense ==> if all == 0int as real {
                        share == 0int as real
                    } else {
                        share * all == num(stage.1) * weight
                    }
                },
{
    let (groups, basis) = choose|
        groups: Seq<protocol::DamageStatusContribution<A::Single>>,
        basis: ShareBasis<A::Single>,
    |
        signed_groups::<A>(details.statuses@, groups) && is_basis::<A>(
            details,
            groups,
            total,
            basis,
        ) && #[trigger] are_shares::<A>(groups, basis, shares);
    let statuses = details.statuses@;
    let stage = (basis.attack_contribution, basis.defense_contribution);
    assert(stages::<A>(details, total).contains(stage));
    law_groups_count_for_or_against_the_damage::<A>(num, wide, statuses, groups);
    lemma_exact_kind_total::<A>(
        num,
        wide,
        groups,
        DamageModifierKind::Attack,
        None,
        basis.attack_weight,
    );
    lemma_exact_kind_total::<A>(
        num,
        wide,
        groups,
        DamageModifierKind::Defense,
        None,
        basis.defense_weight,
    );
    assert(num(basis.attack_weight) == balance(num, statuses, DamageModifierKind::Attack));
    assert(num(basis.defense_weight) == balance(num, statuses, DamageModifierKind::Defense));
    assert forall|i: int|
        #![trigger shares[i]]
        0 <= i < shares.len() implies {
        let key = grouping::key_of(shares[i]);
        let weight = weight_of(num, details.statuses@, key);
        let all = balance(num, details.statuses@, key.kind);
        let share = num(shares[i].value);
        &&& key.kind == DamageModifierKind::DamageLimit ==> share == weight
        &&& key.kind == DamageModifierKind::Amplify ==> share == num(
            details.damage_limit_multiplier,
        ) * weight
        &&& key.kind == DamageModifierKind::BonusAttack ==> share == 0int as real
        &&& key.kind == DamageModifierKind::Attack ==> if all == 0int as real {
            share == 0int as real
        } else {
            share * all == num(stage.0) * weight
        }
        &&& key.kind == DamageModifierKind::Defense ==> if all == 0int as real {
            share == 0int as real
        } else {
            share * all == num(stage.1) * weight
        }
    } by {
        let group = groups[i];
        assert(share::<A>(group.kind, group.value, basis).contains(shares[i].value));
        assert(grouping::key_of(group) == grouping::key_of(shares[i]));
        assert(num(group.value) == weight_of(num, statuses, grouping::key_of(group)));
    }
}

/// Among statuses of the target whose balance and whose stage are positive, a
/// buff of its defense takes damage away and a debuff adds some, and likewise
/// for the attacker's statuses.
pub proof fn law_shares_have_the_sign_of_their_effect<A: Arithmetic>(
    num: spec_fn(A::Single) -> real,
    wide: spec_fn(A::Double) -> real,
    contribution: A::Single,
    value: A::Single,
    signed_value: A::Single,
    weight: A::Single,
    kind: DamageModifierKind,
    category: i32,
    result: A::Single,
)
    requires
        arithmetic::is_exact::<A>(num, wide),
        signed::<A>(kind, category, value).contains(signed_value),
        weighted_share::<A>(contribution, signed_value, weight).contains(result),
        num(contribution) > 0int as real,
        num(weight) > 0int as real,
        num(value) > 0int as real,
    ensures
        kind == DamageModifierKind::Defense && 0 <= category <= 3 ==> num(result) < 0int as real,
        kind == DamageModifierKind::Defense && !(0 <= category <= 3) ==> num(result)
            > 0int as real,
        kind == DamageModifierKind::Attack && (category == 3 || category == 4) ==> num(result)
            < 0int as real,
        kind == DamageModifierKind::Attack && category != 3 && category != 4 ==> num(result)
            > 0int as real,
{
    law_a_contribution_takes_its_sign::<A>(num, wide, kind, category, value, signed_value);
    let (c, v, w, r) = (num(contribution), num(signed_value), num(weight), num(result));
    assert(r * w == c * v);
    assert(v > 0int as real ==> r > 0int as real) by (nonlinear_arith)
        requires
            r * w == c * v,
            c > 0int as real,
            w > 0int as real,
    ;
    assert(v < 0int as real ==> r < 0int as real) by (nonlinear_arith)
        requires
            r * w == c * v,
            c > 0int as real,
            w > 0int as real,
    ;
}

/// The groups and the shares of a hit's statuses are about its distinct
/// statuses.
pub proof fn lemma_keys_of_groups<A: Arithmetic>(
    details: DamageDetails<A::Single>,
    groups: Seq<protocol::DamageStatusContribution<A::Single>>,
    shares: Seq<protocol::DamageStatusContribution<A::Single>>,
)
    requires
        signed_groups::<A>(details.statuses@, groups),
        exists|total: A::Single| #[trigger] shares_of::<A>(details, total, shares),
    ensures
        grouping::keys_of(groups) == grouping::distinct_keys(grouping::keys_of(details.statuses@)),
        grouping::keys_of(shares) == grouping::distinct_keys(grouping::keys_of(details.statuses@)),
{
    let items = choose|items: Seq<protocol::DamageStatusContribution<A::Single>>| #[trigger]
        are_signed_forms::<A>(details.statuses@, items) && grouping::grouped::<A>(items, groups);
    lemma_signed_keys::<A>(details.statuses@, items);
    let total = choose|total: A::Single| #[trigger] shares_of::<A>(details, total, shares);
    let (others, basis) = choose|
        others: Seq<protocol::DamageStatusContribution<A::Single>>,
        basis: ShareBasis<A::Single>,
    |
        signed_groups::<A>(details.statuses@, others) && #[trigger] are_shares::<A>(
            others,
            basis,
            shares,
        );
    let other_items = choose|items: Seq<protocol::DamageStatusContribution<A::Single>>| #[trigger]
        are_signed_forms::<A>(details.statuses@, items) && grouping::grouped::<A>(items, others);
    lemma_signed_keys::<A>(details.statuses@, other_items);
    assert forall|i: int| 0 <= i < shares.len() implies grouping::keys_of(shares)[i]
        == grouping::keys_of(others)[i] by {
        assert(grouping::key_of(shares[i]) == grouping::key_of(others[i]));
    }
    assert(grouping::keys_of(shares) =~= grouping::keys_of(others));
}

/// A hit whose damage limit multiplier is not finite is resolved like the same
/// hit with a neutral one.
pub proof fn law_a_damage_limit_that_is_not_finite_is_neutral<A: Arithmetic>(
    details: DamageDetails<A::Single>,
    unit: A::Single,
    damage: u64,
    base_damage: A::Single,
    total: A::Single,
    shares: Seq<protocol::DamageStatusContribution<A::Single>>,
)
    requires
        arithmetic::is_unit::<A>(unit),
        arithmetic::is_told_infinite::<A>(details.damage_limit_multiplier),
    ensures
        ({
            let neutral = DamageDetails { damage_limit_multiplier: unit, ..details };
            &&& corrected_semantics::<A>(details) == corrected_semantics::<A>(neutral)
            &&& attack_defense_of::<A>(details) == attack_defense_of::<A>(neutral)
            &&& critical_rate_of::<A>(details) == critical_rate_of::<A>(neutral)
            &&& parts_of::<A>(details, damage, base_damage) == parts_of::<A>(
                neutral,
                damage,
                base_damage,
            )
            &&& shares_of::<A>(details, total, shares) == shares_of::<A>(neutral, total, shares)
        }),
{
    let neutral = DamageDetails { damage_limit_multiplier: unit, ..details };
    lemma_neutral::<A>(details.damage_limit_multiplier, unit);
    assert forall|amplify: A::Single| #[trigger]
        corrected_formula::<A>(details, amplify) == corrected_formula::<A>(neutral, amplify) by {}
    lemma_same_judgment::<A>(details, neutral);
    assert(attack_defense_of::<A>(details) == attack_defense_of::<A>(neutral));
    assert forall|parts: MultiplierComponents<A::Single>| #[trigger]
        parts_above_zero::<A>(details, damage, base_damage, parts) == parts_above_zero::<A>(
            neutral,
            damage,
            base_damage,
            parts,
        ) by {}
    assert(parts_of::<A>(details, damage, base_damage) =~= parts_of::<A>(
        neutral,
        damage,
        base_damage,
    ));
    lemma_same_stages::<A>(details, neutral, total);
    assert forall|
        groups: Seq<protocol::DamageStatusContribution<A::Single>>,
        basis: ShareBasis<A::Single>,
    | #[trigger]
        is_basis::<A>(details, groups, total, basis) == is_basis::<A>(
            neutral,
            groups,
            total,
            basis,
        ) by {}
    lemma_same_shares::<A>(details, neutral, total, shares);
}

/// A number that is not finite and a neutral one are taken alike.
proof fn lemma_neutral<A: Arithmetic>(value: A::Single, unit: A::Single)
    requires
        arithmetic::is_unit::<A>(unit),
        arithmetic::is_told_infinite::<A>(value),
    ensures
        arithmetic::finite_or::<A>(outcome::exactly(value), arithmetic::one::<A>())
            == outcome::exactly(unit),
        arithmetic::finite_or::<A>(outcome::exactly(unit), arithmetic::one::<A>())
            == outcome::exactly(unit),
{
    arithmetic::law_only_finite_numbers_are_kept::<A>(value, arithmetic::one::<A>());
    arithmetic::law_only_finite_numbers_are_kept::<A>(unit, arithmetic::one::<A>());
}

/// Hits with the same formulas are judged alike.
proof fn lemma_same_judgment<A: Arithmetic>(
    one: DamageDetails<A::Single>,
    other: DamageDetails<A::Single>,
)
    requires
        one.formula_multiplier == other.formula_multiplier,
        unchecked_amplify_of::<A>(one) == unchecked_amplify_of::<A>(other),
        forall|amplify: A::Single| #[trigger]
            corrected_formula::<A>(one, amplify) == corrected_formula::<A>(other, amplify),
        forall|amplify: A::Single| #[trigger]
            legacy_formula::<A>(one, amplify) == legacy_formula::<A>(other, amplify),
    ensures
        corrected_semantics::<A>(one) == corrected_semantics::<A>(other),
{
    assert forall|corrected: A::Single, legacy: A::Single| #[trigger]
        nearer::<A>(one, corrected, legacy) == nearer::<A>(other, corrected, legacy) by {
        assert(nearer::<A>(one, corrected, legacy) =~= nearer::<A>(other, corrected, legacy));
    }
    assert forall|amplify: A::Single, corrected: A::Single| #[trigger]
        judged_against::<A>(one, amplify, corrected) == judged_against::<A>(
            other,
            amplify,
            corrected,
        ) by {
        let legacies = legacy_formula::<A>(one, amplify);
        assert(legacies == legacy_formula::<A>(other, amplify));
        assert(judged_against::<A>(one, amplify, corrected) =~= judged_against::<A>(
            other,
            amplify,
            corrected,
        ));
    }
    assert forall|amplify: A::Single| #[trigger]
        judged_with::<A>(one, amplify) == judged_with::<A>(other, amplify) by {
        assert(corrected_formula::<A>(one, amplify) == corrected_formula::<A>(other, amplify));
        assert(judged_with::<A>(one, amplify) =~= judged_with::<A>(other, amplify));
    }
    assert(corrected_semantics::<A>(one) =~= corrected_semantics::<A>(other));
}

/// Hits with the same multipliers split their parts alike.
proof fn lemma_same_stages<A: Arithmetic>(
    one: DamageDetails<A::Single>,
    other: DamageDetails<A::Single>,
    total: A::Single,
)
    requires
        one.attack_multiplier == other.attack_multiplier,
        attack_defense_of::<A>(one) == attack_defense_of::<A>(other),
    ensures
        stages::<A>(one, total) == stages::<A>(other, total),
{
    assert forall|attack: A::Single, raw_attack: A::Single| #[trigger]
        stages_between::<A>(one, attack, raw_attack, total) == stages_between::<A>(
            other,
            attack,
            raw_attack,
            total,
        ) by {}
    assert forall|attack: A::Single| #[trigger]
        stages_after::<A>(one, attack, total) == stages_after::<A>(other, attack, total) by {
        assert(stages_after::<A>(one, attack, total) =~= stages_after::<A>(other, attack, total));
    }
    assert(stages::<A>(one, total) =~= stages::<A>(other, total));
}

/// Hits with the same statuses and the same basis share alike.
proof fn lemma_same_shares<A: Arithmetic>(
    one: DamageDetails<A::Single>,
    other: DamageDetails<A::Single>,
    total: A::Single,
    shares: Seq<protocol::DamageStatusContribution<A::Single>>,
)
    requires
        one.statuses == other.statuses,
        forall|
            groups: Seq<protocol::DamageStatusContribution<A::Single>>,
            basis: ShareBasis<A::Single>,
        | #[trigger]
            is_basis::<A>(one, groups, total, basis) == is_basis::<A>(other, groups, total, basis),
    ensures
        shares_of::<A>(one, total, shares) == shares_of::<A>(other, total, shares),
{
    if shares_of::<A>(one, total, shares) {
        let (groups, basis) = choose|
            groups: Seq<protocol::DamageStatusContribution<A::Single>>,
            basis: ShareBasis<A::Single>,
        |
            signed_groups::<A>(one.statuses@, groups) && is_basis::<A>(one, groups, total, basis)
                && #[trigger] are_shares::<A>(groups, basis, shares);
        assert(is_basis::<A>(one, groups, total, basis) == is_basis::<A>(
            other,
            groups,
            total,
            basis,
        ));
    }
    if shares_of::<A>(other, total, shares) {
        let (groups, basis) = choose|
            groups: Seq<protocol::DamageStatusContribution<A::Single>>,
            basis: ShareBasis<A::Single>,
        |
            signed_groups::<A>(other.statuses@, groups) && is_basis::<A>(
                other,
                groups,
                total,
                basis,
            ) && #[trigger] are_shares::<A>(groups, basis, shares);
        assert(is_basis::<A>(one, groups, total, basis) == is_basis::<A>(
            other,
            groups,
            total,
            basis,
        ));
    }
}

/// A hit without amplify statuses whose amplify multiplier is not finite is
/// resolved like the same hit with a neutral one.
pub proof fn law_an_amplification_that_is_not_finite_is_neutral<A: Arithmetic>(
    details: DamageDetails<A::Single>,
    unit: A::Single,
    damage: u64,
    base_damage: A::Single,
)
    requires
        arithmetic::is_unit::<A>(unit),
        arithmetic::is_told_infinite::<A>(details.amplify_multiplier),
        !has_kind(details.statuses@, DamageModifierKind::Amplify),
    ensures
        amplify_of::<A>(details) == outcome::exactly(unit),
        unchecked_amplify_of::<A>(details) == outcome::exactly(unit),
        ({
            let neutral = DamageDetails { amplify_multiplier: unit, ..details };
            &&& corrected_semantics::<A>(details) == corrected_semantics::<A>(neutral)
            &&& parts_of::<A>(details, damage, base_damage) == parts_of::<A>(
                neutral,
                damage,
                base_damage,
            )
        }),
{
    let neutral = DamageDetails { amplify_multiplier: unit, ..details };
    lemma_neutral::<A>(details.amplify_multiplier, unit);
    assert(amplify_of::<A>(neutral) == amplify_of::<A>(details));
    lemma_same_judgment::<A>(details, neutral);
    assert(attack_defense_of::<A>(details) == attack_defense_of::<A>(neutral));
    assert forall|parts: MultiplierComponents<A::Single>| #[trigger]
        parts_above_zero::<A>(details, damage, base_damage, parts) == parts_above_zero::<A>(
            neutral,
            damage,
            base_damage,
            parts,
        ) by {}
    assert(parts_of::<A>(details, damage, base_damage) =~= parts_of::<A>(
        neutral,
        damage,
        base_damage,
    ));
}

/// Figures that are not finite are neutral in the formulas too, whichever of them
/// a hit is compared with: the aggregate, the factors of the previous layout and
/// their product. A critical rate that is not finite is none.
pub proof fn law_figures_that_are_not_finite_are_neutral_in_the_formulas<A: Arithmetic>(
    details: DamageDetails<A::Single>,
    unit: A::Single,
    amplify: A::Single,
)
    requires
        arithmetic::is_unit::<A>(unit),
    ensures
        arithmetic::is_told_infinite::<A>(details.defense_multiplier) ==> corrected_formula::<A>(
            details,
            amplify,
        ) == corrected_formula::<A>(
            DamageDetails { defense_multiplier: unit, ..details },
            amplify,
        ),
        arithmetic::is_told_infinite::<A>(details.elemental_multiplier) ==> legacy_formula::<A>(
            details,
            amplify,
        ) == legacy_formula::<A>(
            DamageDetails { elemental_multiplier: unit, ..details },
            amplify,
        ),
        arithmetic::is_told_infinite::<A>(details.supplementary_multiplier) ==> legacy_formula::<
            A,
        >(details, amplify) == legacy_formula::<A>(
            DamageDetails { supplementary_multiplier: unit, ..details },
            amplify,
        ),
        arithmetic::is_told_infinite::<A>(details.elemental_multiplier) ==> forall|rate: A::Single|
            #[trigger]
            critical_rate_of::<A>(details).contains(rate) ==> arithmetic::zero::<A>().contains(
                rate,
            ),
{
    if arithmetic::is_told_infinite::<A>(details.defense_multiplier) {
        lemma_neutral::<A>(details.defense_multiplier, unit);
    }
    if arithmetic::is_told_infinite::<A>(details.elemental_multiplier) {
        lemma_neutral::<A>(details.elemental_multiplier, unit);
        arithmetic::law_only_finite_numbers_are_kept::<A>(
            details.elemental_multiplier,
            arithmetic::zero::<A>(),
        );
    }
    if arithmetic::is_told_infinite::<A>(details.supplementary_multiplier) {
        lemma_neutral::<A>(details.supplementary_multiplier, unit);
    }
}

/// An aggregate that is not finite is neutral, read either way: the one that the
/// hook wrote, and the product of the two factors of the previous layout.
pub proof fn law_an_aggregate_that_is_not_finite_is_neutral<A: Arithmetic>(
    details: DamageDetails<A::Single>,
    unit: A::Single,
    combined: A::Single,
    multiplier: A::Single,
)
    requires
        arithmetic::is_unit::<A>(unit),
        arithmetic::is_told_infinite::<A>(details.defense_multiplier),
        arithmetic::product::<A>(
            outcome::exactly(details.defense_multiplier),
            outcome::exactly(details.attack_multiplier),
        ) == outcome::exactly(combined),
        arithmetic::is_told_infinite::<A>(combined),
        attack_defense_of::<A>(details).contains(multiplier),
    ensures
        multiplier == unit,
{
    lemma_neutral::<A>(details.defense_multiplier, unit);
    lemma_neutral::<A>(combined, unit);
    assert(outcome::exactly(unit).contains(multiplier));
}

/// A product of the two factors of the previous layout that is not finite is
/// neutral in its formula.
pub proof fn law_a_product_that_is_not_finite_is_neutral<A: Arithmetic>(
    details: DamageDetails<A::Single>,
    unit: A::Single,
    combined: A::Single,
    amplify: A::Single,
)
    requires
        arithmetic::is_unit::<A>(unit),
        arithmetic::product::<A>(outcome::exactly(unit), outcome::exactly(unit))
            == outcome::exactly(unit),
        arithmetic::product::<A>(
            outcome::exactly(details.defense_multiplier),
            outcome::exactly(details.attack_multiplier),
        ) == outcome::exactly(combined),
        arithmetic::is_told_infinite::<A>(combined),
    ensures
        legacy_formula::<A>(details, amplify) == legacy_formula::<A>(
            DamageDetails { defense_multiplier: unit, attack_multiplier: unit, ..details },
            amplify,
        ),
{
    lemma_neutral::<A>(combined, unit);
    let neutral = DamageDetails { defense_multiplier: unit, attack_multiplier: unit, ..details };
    let ones = arithmetic::one::<A>();
    let given = arithmetic::finite_or::<A>(
        arithmetic::product::<A>(
            outcome::exactly(details.defense_multiplier),
            outcome::exactly(details.attack_multiplier),
        ),
        ones,
    );
    let replaced = arithmetic::finite_or::<A>(
        arithmetic::product::<A>(
            outcome::exactly(neutral.defense_multiplier),
            outcome::exactly(neutral.attack_multiplier),
        ),
        ones,
    );
    assert(given == replaced);
}

/// An attack multiplier that is not finite is neutral where the stages are told
/// apart.
pub proof fn law_an_attack_that_is_not_finite_has_no_stage<A: Arithmetic>(
    details: DamageDetails<A::Single>,
    unit: A::Single,
    raw_attack: A::Single,
    total: A::Single,
    split: (A::Single, A::Single),
)
    requires
        arithmetic::is_unit::<A>(unit),
        arithmetic::is_told_infinite::<A>(details.attack_multiplier),
        arithmetic::product::<A>(
            arithmetic::half::<A>(),
            arithmetic::difference::<A>(outcome::exactly(unit), outcome::exactly(unit)),
        ) == outcome::exactly(raw_attack),
        stages::<A>(details, total).contains(split),
    ensures
        stages_between::<A>(details, unit, raw_attack, total).contains(split),
{
    lemma_neutral::<A>(details.attack_multiplier, unit);
    let attack = choose|attack: A::Single| #[trigger]
        arithmetic::finite_or::<A>(
            outcome::exactly(details.attack_multiplier),
            arithmetic::one::<A>(),
        ).contains(attack) && stages_after::<A>(details, attack, total).contains(split);
    assert(outcome::exactly(unit).contains(attack));
}

/// A hit whose formula multiplier is not finite is judged as if it were today's.
pub proof fn law_a_formula_that_is_not_finite_is_todays<A: Arithmetic>(
    details: DamageDetails<A::Single>,
    corrected: A::Single,
    legacy: A::Single,
)
    requires
        arithmetic::is_told_infinite::<A>(details.formula_multiplier),
        arithmetic::is_number::<A>(corrected),
    ensures
        nearer::<A>(details, corrected, legacy) == nearer::<A>(
            DamageDetails { formula_multiplier: corrected, ..details },
            corrected,
            legacy,
        ),
{
    arithmetic::law_only_finite_numbers_are_kept::<A>(
        details.formula_multiplier,
        outcome::exactly(corrected),
    );
    arithmetic::law_only_finite_numbers_are_kept::<A>(corrected, outcome::exactly(corrected));
    assert(nearer::<A>(details, corrected, legacy) =~= nearer::<A>(
        DamageDetails { formula_multiplier: corrected, ..details },
        corrected,
        legacy,
    ));
}

/// Stages whose sum is within the tolerance of the arithmetic are not scaled:
/// they are kept where there is nothing to add up to, and the attacker's stage
/// takes all where there is. Other stages keep their proportion.
pub proof fn law_stages_within_the_tolerance_are_not_scaled<A: Arithmetic>(
    raw_attack: A::Single,
    raw_defense: A::Single,
    raw_total: A::Single,
    total: A::Single,
    is_uneven: bool,
    is_nothing: bool,
    split: (A::Single, A::Single),
)
    requires
        outcome::is_only(
            arithmetic::exceeds::<A>(
                arithmetic::magnitude::<A>(outcome::exactly(raw_total)),
                arithmetic::epsilon::<A>(),
            ),
            is_uneven,
        ),
        outcome::is_only(
            arithmetic::at_most::<A>(
                arithmetic::magnitude::<A>(outcome::exactly(total)),
                arithmetic::epsilon::<A>(),
            ),
            is_nothing,
        ),
        scaled_to::<A>(raw_attack, raw_defense, raw_total, total).contains(split),
    ensures
        !is_uneven && is_nothing ==> split == (raw_attack, raw_defense),
        !is_uneven && !is_nothing ==> split.0 == total && arithmetic::zero::<A>().contains(
            split.1,
        ),
        is_uneven ==> exists|scale: A::Single| #[trigger]
            arithmetic::quotient::<A>(
                outcome::exactly(total),
                outcome::exactly(raw_total),
            ).contains(scale) && arithmetic::product::<A>(
                outcome::exactly(raw_attack),
                outcome::exactly(scale),
            ).contains(split.0) && arithmetic::product::<A>(
                outcome::exactly(raw_defense),
                outcome::exactly(scale),
            ).contains(split.1),
{
}

/// Statuses whose weights cancel out within the tolerance of the arithmetic have
/// no share.
pub proof fn law_weights_within_the_tolerance_share_nothing<A: Arithmetic>(
    contribution: A::Single,
    value: A::Single,
    weight: A::Single,
    share: A::Single,
)
    requires
        outcome::is_only(
            arithmetic::exceeds::<A>(
                arithmetic::magnitude::<A>(outcome::exactly(weight)),
                arithmetic::epsilon::<A>(),
            ),
            false,
        ),
        weighted_share::<A>(contribution, value, weight).contains(share),
    ensures
        arithmetic::zero::<A>().contains(share),
{
}

} // verus!
