//! The damage modifiers of one hit.
//!
//! While the game processes a hit it aggregates the modifiers of the attacker
//! and of the target. The hook notes what those aggregations saw and, once the
//! hit is done, resolves it into [`DamageDetails`].

use vstd::prelude::*;
use crate::arithmetic;
use crate::arithmetic::{finite_or_default, Arithmetic};
use crate::grouping;
use crate::grouping::group_contributions;
use crate::hooks::status_collection;
use crate::hooks::status_collection::{
    collect_status_contributions, Request, StatusCalls, StatusContributionProbe,
};
use crate::hooks::status_layout;
use crate::hooks::status_layout::{LayoutCache, StatusInterface};
use crate::memory;
use crate::hooks::HookError;
use crate::memory::{decode_u32, decode_u64, read_process_bytes, to_signed, Memory};
use crate::outcome;
use crate::process::Process;
use crate::protocol::{DamageDetails, DamageModifierKind, DamageStatusContribution};
use crate::skill_state::multiplier;
use crate::text::same_bytes;

verus! {

/// The fields of a damage instance that a hit is resolved from.
#[derive(Clone, Copy, Debug)]
pub struct RawDamageFields<N> {
    pub damage: i32,
    /// The attack rate.
    pub candidate_d8: N,
    pub flags: u64,
    pub candidate_154: N,
    pub action_id: u32,
    /// The least base damage, if positive.
    pub candidate_2b8: i32,
    /// The largest base damage, if positive.
    pub damage_cap: i32,
    pub uncapped_damage: N,
    /// The probability of a critical hit.
    pub elemental_multiplier: N,
}

/// What one call of the game's attack aggregation saw.
#[derive(Debug)]
pub struct AttackMultiplierProbe<N> {
    pub status: u64,
    pub target: u64,
    pub factor_x2: N,
    pub factor_x3: N,
    pub lower_bound: N,
    pub reduction_floor: N,
    pub context: u64,
    pub result: N,
    pub statuses: Vec<StatusContributionProbe<N>>,
}

/// What one call of the game's defense aggregation saw.
#[derive(Debug)]
pub struct DefenseStatusProbe<N> {
    pub status: u64,
    pub context: u64,
    pub buckets: [N; 7],
    pub statuses: Vec<StatusContributionProbe<N>>,
}

/// What has been seen of a hit that the game is processing.
#[derive(Debug)]
pub struct DamageProbe<N> {
    pub address: u64,
    pub before: RawDamageFields<N>,
    pub attacks: Vec<AttackMultiplierProbe<N>>,
    pub defenses: Vec<DefenseStatusProbe<N>>,
}

/// The hits that the game is processing, the innermost last.
#[derive(Debug)]
pub struct DamageProbes<N> {
    pub stack: Vec<DamageProbe<N>>,
}

/// How much of a damage instance the fields are read from.
pub const DAMAGE_INSTANCE_BYTES: usize = 0x2DC;

/// The word that starts at `offset`.
pub open spec fn field(instance: Seq<u8>, offset: int, length: int) -> nat {
    memory::little_endian(instance.subrange(offset, offset + length))
}

/// Whether `fields` are those of a damage instance. Where there is none, all
/// fields are zero.
pub open spec fn raw_fields<A: Arithmetic>(
    instance: Option<Seq<u8>>,
    fields: RawDamageFields<A::Single>,
) -> bool {
    match instance {
        Some(bytes) => {
            &&& fields.damage == memory::as_signed(field(bytes, 0xD4, 4) as u32)
            &&& arithmetic::bits::<A>(field(bytes, 0xD8, 4) as u32).contains(fields.candidate_d8)
            &&& fields.flags == field(bytes, 0xE8, 8)
            &&& arithmetic::bits::<A>(field(bytes, 0x154, 4) as u32).contains(fields.candidate_154)
            &&& fields.action_id == field(bytes, 0x16C, 4)
            &&& fields.candidate_2b8 == memory::as_signed(field(bytes, 0x2B8, 4) as u32)
            &&& fields.damage_cap == memory::as_signed(field(bytes, 0x2BC, 4) as u32)
            &&& arithmetic::bits::<A>(field(bytes, 0x2D4, 4) as u32).contains(
                fields.uncapped_damage,
            )
            &&& arithmetic::bits::<A>(field(bytes, 0x2D8, 4) as u32).contains(
                fields.elemental_multiplier,
            )
        },
        None => {
            &&& fields.damage == 0
            &&& arithmetic::zero::<A>().contains(fields.candidate_d8)
            &&& fields.flags == 0
            &&& arithmetic::zero::<A>().contains(fields.candidate_154)
            &&& fields.action_id == 0
            &&& fields.candidate_2b8 == 0
            &&& fields.damage_cap == 0
            &&& arithmetic::zero::<A>().contains(fields.uncapped_damage)
            &&& arithmetic::zero::<A>().contains(fields.elemental_multiplier)
        },
    }
}

/// The bytes of an optional damage instance.
pub open spec fn instance_bytes(instance: Option<&[u8]>) -> Option<Seq<u8>> {
    match instance {
        Some(bytes) => Some(bytes@),
        None => None,
    }
}

/// Reads the fields of a damage instance from a copy of its bytes.
pub fn read_raw_fields<A: Arithmetic>(instance: Option<&[u8]>) -> (fields: RawDamageFields<
    A::Single,
>)
    requires
        instance matches Some(bytes) ==> bytes@.len() >= DAMAGE_INSTANCE_BYTES,
    ensures
        raw_fields::<A>(instance_bytes(instance), fields),
{
    match instance {
        Some(bytes) => RawDamageFields {
            damage: to_signed(decode_u32(bytes, 0xD4)),
            candidate_d8: A::from_bits(decode_u32(bytes, 0xD8)),
            flags: decode_u64(bytes, 0xE8),
            candidate_154: A::from_bits(decode_u32(bytes, 0x154)),
            action_id: decode_u32(bytes, 0x16C),
            candidate_2b8: to_signed(decode_u32(bytes, 0x2B8)),
            damage_cap: to_signed(decode_u32(bytes, 0x2BC)),
            uncapped_damage: A::from_bits(decode_u32(bytes, 0x2D4)),
            elemental_multiplier: A::from_bits(decode_u32(bytes, 0x2D8)),
        },
        None => RawDamageFields {
            damage: 0,
            candidate_d8: A::zero(),
            flags: 0,
            candidate_154: A::zero(),
            action_id: 0,
            candidate_2b8: 0,
            damage_cap: 0,
            uncapped_damage: A::zero(),
            elemental_multiplier: A::zero(),
        },
    }
}

/// The outcomes of the formula that weighs a hit's modifiers.
pub open spec fn formula<A: Arithmetic>(
    damage_limit: A::Single,
    amplify: A::Single,
    attack_defense: A::Single,
) -> Set<A::Single> {
    arithmetic::sum::<A>(
        arithmetic::product::<A>(outcome::exactly(damage_limit), outcome::exactly(amplify)),
        arithmetic::product::<A>(
            arithmetic::maximum::<A>(
                arithmetic::difference::<A>(
                    outcome::exactly(attack_defense),
                    arithmetic::one::<A>(),
                ),
                arithmetic::zero::<A>(),
            ),
            arithmetic::half::<A>(),
        ),
    )
}

/// `damage_limit * amplify + max(attack_defense - 1, 0) / 2`.
pub fn calculate_formula_multiplier<A: Arithmetic>(
    damage_limit: A::Single,
    amplify: A::Single,
    attack_defense: A::Single,
) -> (result: A::Single)
    ensures
        formula::<A>(damage_limit, amplify, attack_defense).contains(result),
{
    A::plus(
        A::times(damage_limit, amplify),
        A::times(A::larger(A::minus(attack_defense, A::one()), A::zero()), A::half()),
    )
}

/// Whether a contribution is of this interface and, if one is named, of this category.
pub open spec fn is_of<N>(
    contribution: status_collection::ContributionView<N>,
    interface: StatusInterface,
    category: Option<i32>,
) -> bool {
    &&& contribution.interface == interface
    &&& category matches Some(c) ==> contribution.category == c
}

/// The outcomes of adding up the values of one interface and, if one is named, one category.
pub open spec fn interface_total<A: Arithmetic>(
    statuses: Seq<status_collection::ContributionView<A::Single>>,
    interface: StatusInterface,
    category: Option<i32>,
) -> Set<A::Single>
    decreases statuses.len(),
{
    if statuses.len() == 0 {
        arithmetic::zero::<A>()
    } else {
        let earlier = interface_total::<A>(statuses.drop_last(), interface, category);
        if is_of(statuses.last(), interface, category) {
            arithmetic::sum::<A>(earlier, outcome::exactly(statuses.last().value))
        } else {
            earlier
        }
    }
}

/// Adds up the values of one interface and, if one is named, one category.
fn total_of_interface<A: Arithmetic>(
    statuses: &Vec<StatusContributionProbe<A::Single>>,
    interface: StatusInterface,
    category: Option<i32>,
) -> (total: A::Single)
    ensures
        interface_total::<A>(
            status_collection::contribution_views(statuses@),
            interface,
            category,
        ).contains(total),
{
    let ghost views = status_collection::contribution_views(statuses@);
    let mut total = A::zero();
    let mut i: usize = 0;
    while i < statuses.len()
        invariant
            i <= statuses@.len(),
            views == status_collection::contribution_views(statuses@),
            interface_total::<A>(views.take(i as int), interface, category).contains(total),
        decreases statuses@.len() - i,
    {
        assert(views.take(i + 1).drop_last() =~= views.take(i as int));
        let status = &statuses[i];
        let wanted = status.interface == interface && match category {
            Some(category) => status.category == category,
            None => true,
        };
        if wanted {
            total = A::plus(total, status.value);
        }
        i = i + 1;
    }
    assert(views.take(i as int) =~= views);
    total
}

/// The outcomes of the multiplier that the attack statuses alone amount to.
pub open spec fn attack_alone<A: Arithmetic>(
    statuses: Seq<status_collection::ContributionView<A::Single>>,
) -> Set<A::Single> {
    let bucket = |category: i32|
        interface_total::<A>(statuses, StatusInterface::Attack, Some(category));
    let positive = arithmetic::sum::<A>(
        arithmetic::sum::<A>(arithmetic::one::<A>(), bucket(0)),
        bucket(1),
    );
    let negative = arithmetic::maximum::<A>(
        arithmetic::difference::<A>(
            arithmetic::difference::<A>(arithmetic::one::<A>(), bucket(3)),
            bucket(4),
        ),
        arithmetic::zero::<A>(),
    );
    arithmetic::finite_or::<A>(
        arithmetic::product::<A>(negative, arithmetic::sum::<A>(bucket(2), positive)),
        arithmetic::one::<A>(),
    )
}

/// The multiplier that the attack statuses alone amount to. Categories 0 to 2
/// raise it, 3 and 4 lower it, and others do not count.
pub fn attack_only_multiplier<A: Arithmetic>(
    statuses: &Vec<StatusContributionProbe<A::Single>>,
) -> (multiplier: A::Single)
    ensures
        attack_alone::<A>(status_collection::contribution_views(statuses@)).contains(multiplier),
{
    let first = total_of_interface::<A>(statuses, StatusInterface::Attack, Some(0));
    let second = total_of_interface::<A>(statuses, StatusInterface::Attack, Some(1));
    let third = total_of_interface::<A>(statuses, StatusInterface::Attack, Some(2));
    let fourth = total_of_interface::<A>(statuses, StatusInterface::Attack, Some(3));
    let fifth = total_of_interface::<A>(statuses, StatusInterface::Attack, Some(4));
    let positive = A::plus(A::plus(A::one(), first), second);
    let negative = A::larger(A::minus(A::minus(A::one(), fourth), fifth), A::zero());
    finite_or_default::<A>(A::times(negative, A::plus(third, positive)), A::one())
}

/// The outcomes of clamping a hit's base damage: the floor first, then the cap.
pub open spec fn clamped<A: Arithmetic>(after: RawDamageFields<A::Single>) -> Set<A::Single> {
    let raw = arithmetic::maximum::<A>(
        arithmetic::finite_or::<A>(outcome::exactly(after.uncapped_damage), arithmetic::zero::<A>()),
        arithmetic::zero::<A>(),
    );
    let raised = if after.candidate_2b8 > 0 {
        arithmetic::maximum::<A>(raw, arithmetic::of_i32::<A>(after.candidate_2b8))
    } else {
        raw
    };
    if after.damage_cap > 0 {
        arithmetic::minimum::<A>(raised, arithmetic::of_i32::<A>(after.damage_cap))
    } else {
        raised
    }
}

/// The base damage of a hit between its floor and its cap.
pub fn clamped_base_damage<A: Arithmetic>(after: RawDamageFields<A::Single>) -> (damage: A::Single)
    ensures
        clamped::<A>(after).contains(damage),
{
    let mut damage = A::larger(
        finite_or_default::<A>(after.uncapped_damage, A::zero()),
        A::zero(),
    );
    if after.candidate_2b8 > 0 {
        damage = A::larger(damage, A::from_i32(after.candidate_2b8));
    }
    if after.damage_cap > 0 {
        damage = A::smaller(damage, A::from_i32(after.damage_cap));
    }
    damage
}

/// The kind of modifier that an interface contributes.
pub open spec fn kind_of(interface: StatusInterface) -> DamageModifierKind {
    match interface {
        StatusInterface::Attack => DamageModifierKind::Attack,
        StatusInterface::Defense => DamageModifierKind::Defense,
        StatusInterface::DamageLimit => DamageModifierKind::DamageLimit,
        StatusInterface::BonusAttack => DamageModifierKind::BonusAttack,
        StatusInterface::Amplify => DamageModifierKind::Amplify,
    }
}

/// Whether `item` is the protocol's form of a contribution.
pub open spec fn is_protocol_form<N>(
    contribution: status_collection::ContributionView<N>,
    item: DamageStatusContribution<N>,
) -> bool {
    &&& item.status_name@ == contribution.class_name
    &&& item.kind == kind_of(contribution.interface)
    &&& item.category == contribution.category
    &&& item.value == contribution.value
}

/// Whether `items` are the protocol's forms of contributions, in order.
pub open spec fn are_protocol_forms<N>(
    contributions: Seq<status_collection::ContributionView<N>>,
    items: Seq<DamageStatusContribution<N>>,
) -> bool {
    &&& items.len() == contributions.len()
    &&& forall|i: int|
        0 <= i < items.len() ==> #[trigger] is_protocol_form(contributions[i], items[i])
}

/// Whether `groups` are contributions in the protocol's form, added up by status.
pub open spec fn grouped_protocol<A: Arithmetic>(
    contributions: Seq<status_collection::ContributionView<A::Single>>,
    groups: Seq<DamageStatusContribution<A::Single>>,
) -> bool {
    exists|items: Seq<DamageStatusContribution<A::Single>>| #[trigger]
        are_protocol_forms(contributions, items) && grouping::grouped::<A>(items, groups)
}

/// The kind of modifier that an interface contributes.
pub fn modifier_kind(interface: StatusInterface) -> (kind: DamageModifierKind)
    ensures
        kind == kind_of(interface),
{
    match interface {
        StatusInterface::Attack => DamageModifierKind::Attack,
        StatusInterface::Defense => DamageModifierKind::Defense,
        StatusInterface::DamageLimit => DamageModifierKind::DamageLimit,
        StatusInterface::BonusAttack => DamageModifierKind::BonusAttack,
        StatusInterface::Amplify => DamageModifierKind::Amplify,
    }
}

/// Turns contributions into the protocol's form and adds those of the same
/// status up.
pub fn grouped_protocol_statuses<A: Arithmetic>(
    statuses: Vec<StatusContributionProbe<A::Single>>,
) -> (groups: Vec<DamageStatusContribution<A::Single>>)
    ensures
        grouped_protocol::<A>(status_collection::contribution_views(statuses@), groups@),
{
    let ghost views = status_collection::contribution_views(statuses@);
    let mut items: Vec<DamageStatusContribution<A::Single>> = Vec::new();
    let mut i: usize = 0;
    while i < statuses.len()
        invariant
            i <= statuses@.len(),
            views == status_collection::contribution_views(statuses@),
            are_protocol_forms(views.take(i as int), items@),
        decreases statuses@.len() - i,
    {
        let status = &statuses[i];
        let ghost before = items@;
        items.push(
            DamageStatusContribution {
                status_name: status.class_name.clone(),
                kind: modifier_kind(status.interface),
                category: status.category,
                value: status.value,
            },
        );
        assert forall|j: int| 0 <= j < items@.len() implies #[trigger] is_protocol_form(
            views.take(i + 1)[j],
            items@[j],
        ) by {
            if j < i {
                assert(is_protocol_form(views.take(i as int)[j], before[j]));
            }
        }
        i = i + 1;
    }
    assert(views.take(i as int) =~= views);
    group_contributions::<A>(items)
}

/// The contributions that take part in a hit: those of the attacker but for
/// its own defense, and then those of the target's defense.
pub open spec fn merged<N>(
    attacker: Seq<status_collection::ContributionView<N>>,
    target: Seq<status_collection::ContributionView<N>>,
) -> Seq<status_collection::ContributionView<N>> {
    attacker.filter(
        |c: status_collection::ContributionView<N>| c.interface != StatusInterface::Defense,
    ) + target
}

/// A copy of a contribution.
fn copied_contribution<N: Copy>(contribution: &StatusContributionProbe<N>) -> (copy:
    StatusContributionProbe<N>)
    ensures
        copy@ == contribution@,
{
    StatusContributionProbe {
        class_name: contribution.class_name.clone(),
        interface: contribution.interface,
        category: contribution.category,
        value: contribution.value,
    }
}

/// Puts the contributions together that take part in a hit. The attacker's
/// status manager also shows how the attacker defends itself, which has no part
/// in the damage that it deals.
pub fn merge_damage_statuses<N: Copy>(
    attacker_statuses: &Vec<StatusContributionProbe<N>>,
    target_defense_statuses: &Vec<StatusContributionProbe<N>>,
) -> (statuses: Vec<StatusContributionProbe<N>>)
    ensures
        status_collection::contribution_views(statuses@) == merged(
            status_collection::contribution_views(attacker_statuses@),
            status_collection::contribution_views(target_defense_statuses@),
        ),
{
    let ghost attacker = status_collection::contribution_views(attacker_statuses@);
    let ghost target = status_collection::contribution_views(target_defense_statuses@);
    let ghost kept = |c: status_collection::ContributionView<N>|
        c.interface != StatusInterface::Defense;
    let mut statuses: Vec<StatusContributionProbe<N>> = Vec::new();
    let mut i: usize = 0;
    assert(attacker.take(0).filter(kept) =~= Seq::empty());
    while i < attacker_statuses.len()
        invariant
            i <= attacker_statuses@.len(),
            attacker == status_collection::contribution_views(attacker_statuses@),
            kept == (|c: status_collection::ContributionView<N>|
                c.interface != StatusInterface::Defense),
            status_collection::contribution_views(statuses@) =~= attacker.take(i as int).filter(
                kept,
            ),
        decreases attacker_statuses@.len() - i,
    {
        proof {
            reveal(Seq::filter);
            assert(attacker.take(i + 1).drop_last() =~= attacker.take(i as int));
        }
        if attacker_statuses[i].interface != StatusInterface::Defense {
            statuses.push(copied_contribution(&attacker_statuses[i]));
        }
        i = i + 1;
    }
    assert(attacker.take(i as int) =~= attacker);
    let mut j: usize = 0;
    while j < target_defense_statuses.len()
        invariant
            j <= target_defense_statuses@.len(),
            target == status_collection::contribution_views(target_defense_statuses@),
            status_collection::contribution_views(statuses@) =~= attacker.filter(kept)
                + target.take(j as int),
        decreases target_defense_statuses@.len() - j,
    {
        let ghost before = status_collection::contribution_views(statuses@);
        statuses.push(copied_contribution(&target_defense_statuses[j]));
        assert(status_collection::contribution_views(statuses@) =~= before.push(target[j as int]));
        assert(target.take(j + 1) =~= target.take(j as int).push(target[j as int]));
        j = j + 1;
    }
    assert(target.take(j as int) =~= target);
    statuses
}

/// What the first call of the attack aggregation saw. The game runs the
/// aggregations twice for a hit, with the same figures.
pub open spec fn attacker_statuses<N>(probe: DamageProbe<N>) -> Seq<
    status_collection::ContributionView<N>,
> {
    if probe.attacks@.len() > 0 {
        status_collection::contribution_views(probe.attacks@[0].statuses@)
    } else {
        Seq::empty()
    }
}

/// What the first call of the defense aggregation saw.
pub open spec fn target_statuses<N>(probe: DamageProbe<N>) -> Seq<
    status_collection::ContributionView<N>,
> {
    if probe.defenses@.len() > 0 {
        status_collection::contribution_views(probe.defenses@[0].statuses@)
    } else {
        Seq::empty()
    }
}

/// Whether `details` resolve a hit of which `probe` was seen and which left
/// the fields `after`.
pub open spec fn resolves<A: Arithmetic>(
    probe: DamageProbe<A::Single>,
    after: RawDamageFields<A::Single>,
    details: DamageDetails<A::Single>,
) -> bool {
    let statuses = merged(attacker_statuses(probe), target_statuses(probe));
    let total = |interface: StatusInterface, category: Option<i32>|
        interface_total::<A>(statuses, interface, category);
    &&& attack_alone::<A>(statuses).contains(details.attack_multiplier)
    &&& arithmetic::difference::<A>(
        arithmetic::sum::<A>(arithmetic::one::<A>(), total(StatusInterface::Amplify, Some(0))),
        total(StatusInterface::Amplify, Some(1)),
    ).contains(details.amplify_multiplier)
    &&& arithmetic::sum::<A>(
        arithmetic::one::<A>(),
        total(StatusInterface::DamageLimit, None),
    ).contains(details.damage_limit_multiplier)
    &&& if probe.attacks@.len() > 0 {
        arithmetic::finite_or::<A>(outcome::exactly(probe.attacks@[0].result), arithmetic::one::<A>()).contains(
            details.defense_multiplier,
        )
    } else {
        arithmetic::one::<A>().contains(details.defense_multiplier)
    }
    &&& arithmetic::finite_or::<A>(
        outcome::exactly(after.elemental_multiplier),
        arithmetic::zero::<A>(),
    ).contains(details.elemental_multiplier)
    &&& arithmetic::one::<A>().contains(details.supplementary_multiplier)
    &&& formula::<A>(
        details.damage_limit_multiplier,
        details.amplify_multiplier,
        details.defense_multiplier,
    ).contains(details.formula_multiplier)
    &&& arithmetic::finite_or::<A>(outcome::exactly(after.candidate_d8), arithmetic::zero::<A>()).contains(
        details.attack_rate,
    )
    &&& clamped::<A>(after).contains(details.uncapped_damage)
    &&& details.damage_cap == after.damage_cap
    &&& grouped_protocol::<A>(statuses, details.statuses@)
}

/// Resolves a hit.
pub fn build_damage_details<A: Arithmetic>(
    probe: &DamageProbe<A::Single>,
    after: RawDamageFields<A::Single>,
) -> (details: DamageDetails<A::Single>)
    ensures
        resolves::<A>(*probe, after, details),
{
    let nothing: Vec<StatusContributionProbe<A::Single>> = Vec::new();
    assert(status_collection::contribution_views(nothing@) =~= Seq::empty());
    let attacker = if probe.attacks.len() > 0 {
        &probe.attacks[0].statuses
    } else {
        &nothing
    };
    let target = if probe.defenses.len() > 0 {
        &probe.defenses[0].statuses
    } else {
        &nothing
    };
    let statuses = merge_damage_statuses(attacker, target);

    let attack_multiplier = attack_only_multiplier::<A>(&statuses);
    let raised = total_of_interface::<A>(&statuses, StatusInterface::Amplify, Some(0));
    let lowered = total_of_interface::<A>(&statuses, StatusInterface::Amplify, Some(1));
    let amplify_multiplier = A::minus(A::plus(A::one(), raised), lowered);
    let limits = total_of_interface::<A>(&statuses, StatusInterface::DamageLimit, None);
    let damage_limit_multiplier = A::plus(A::one(), limits);
    let defense_multiplier = if probe.attacks.len() > 0 {
        finite_or_default::<A>(probe.attacks[0].result, A::one())
    } else {
        A::one()
    };
    let formula_multiplier = calculate_formula_multiplier::<A>(
        damage_limit_multiplier,
        amplify_multiplier,
        defense_multiplier,
    );
    DamageDetails {
        elemental_multiplier: finite_or_default::<A>(after.elemental_multiplier, A::zero()),
        amplify_multiplier,
        defense_multiplier,
        attack_multiplier,
        supplementary_multiplier: A::one(),
        formula_multiplier,
        attack_rate: finite_or_default::<A>(after.candidate_d8, A::zero()),
        uncapped_damage: clamped_base_damage::<A>(after),
        damage_cap: after.damage_cap,
        damage_limit_multiplier,
        statuses: grouped_protocol_statuses::<A>(statuses),
    }
}

/// Where the game's attack aggregation lies, relative to the game's module.
pub const ATTACK_MULTIPLIER_RVA: u64 = 0xBD9630;

/// Where the game's defense aggregation lies, relative to the game's module.
pub const DEFENSE_STATUS_RVA: u64 = 0xBD9A40;

/// The bytes that both aggregations start with.
pub open spec fn common_prefix() -> Seq<u8> {
    seq![
        0x55,
        0x41,
        0x57,
        0x41,
        0x56,
        0x41,
        0x55,
        0x41,
        0x54,
        0x56,
        0x57,
        0x53,
        0x48,
        0x81,
        0xEC,
    ]
}

/// The bytes that the attack aggregation starts with.
pub open spec fn attack_multiplier_prefix() -> Seq<u8> {
    common_prefix() + seq![0x28, 0x01, 0x00, 0x00]
}

/// The bytes that the defense aggregation starts with.
pub open spec fn defense_status_prefix() -> Seq<u8> {
    common_prefix() + seq![0xD8, 0x00, 0x00, 0x00]
}

/// The outcomes of comparing the bytes at an address with those expected there.
pub open spec fn prefix_matches<M: Memory>(memory: &M, address: u64, expected: Seq<u8>) -> Set<
    bool,
> {
    outcome::mapped(
        memory::bytes_at(memory, address, expected.len() as usize),
        |bytes: Option<Seq<u8>>| bytes == Some(expected),
    )
}

/// Whether the bytes at an address are those expected there. Bytes that cannot
/// be read are not.
pub fn matches_prefix<M: Memory>(memory: &M, address: u64, expected: &[u8]) -> (result: bool)
    ensures
        prefix_matches(memory, address, expected@).contains(result),
{
    assert(expected@.len() == expected.len());
    let bytes = read_process_bytes(memory, address, expected.len());
    let ghost seen = memory::bytes_view(bytes);
    assert(memory::bytes_at(memory, address, expected@.len() as usize).contains(seen));
    let result = match &bytes {
        Some(bytes) => same_bytes(bytes.as_slice(), expected),
        None => false,
    };
    assert(result == (seen == Some(expected@)));
    result
}

/// The outcomes of finding the aggregations: where the attack aggregation and
/// the defense aggregation lie.
pub open spec fn setups<M: Memory>(memory: &M, base: u64) -> Set<Result<(u64, u64), HookError>> {
    let attack = base.wrapping_add(ATTACK_MULTIPLIER_RVA);
    let defense = base.wrapping_add(DEFENSE_STATUS_RVA);
    outcome::branch(
        prefix_matches(memory, attack, attack_multiplier_prefix()),
        outcome::branch(
            prefix_matches(memory, defense, defense_status_prefix()),
            outcome::exactly(Ok((attack, defense))),
            outcome::exactly(Err(HookError::DefensePrefixMismatch)),
        ),
        outcome::exactly(Err(HookError::AttackPrefixMismatch)),
    )
}

/// Finds the aggregations of this release of the game, which are the
/// functions to hook, and notes where the game's module lies. Another release
/// has other code there.
pub fn setup<M: Memory>(cache: &mut LayoutCache, memory: &M, process: &Process) -> (addresses:
    Result<(u64, u64), HookError>)
    ensures
        setups(memory, process.base_address).contains(addresses),
        final(cache)@ == status_layout::based(old(cache)@, process.base_address),
{
    cache.set_game_base(process.base_address);
    let attack_address = process.base_address.wrapping_add(ATTACK_MULTIPLIER_RVA);
    let defense_address = process.base_address.wrapping_add(DEFENSE_STATUS_RVA);
    let attack_prefix: Vec<u8> = vec![
        0x55, 0x41, 0x57, 0x41, 0x56, 0x41, 0x55, 0x41, 0x54, 0x56, 0x57, 0x53, 0x48, 0x81, 0xEC,
        0x28, 0x01, 0x00, 0x00,
    ];
    let defense_prefix: Vec<u8> = vec![
        0x55, 0x41, 0x57, 0x41, 0x56, 0x41, 0x55, 0x41, 0x54, 0x56, 0x57, 0x53, 0x48, 0x81, 0xEC,
        0xD8, 0x00, 0x00, 0x00,
    ];
    assert(attack_prefix@ =~= attack_multiplier_prefix());
    assert(defense_prefix@ =~= defense_status_prefix());
    let attack_matches = matches_prefix(memory, attack_address, attack_prefix.as_slice());
    assert(prefix_matches(memory, attack_address, attack_multiplier_prefix()).contains(
        attack_matches,
    ));
    if !attack_matches {
        return Err(HookError::AttackPrefixMismatch);
    }
    let defense_matches = matches_prefix(memory, defense_address, defense_prefix.as_slice());
    assert(prefix_matches(memory, defense_address, defense_status_prefix()).contains(
        defense_matches,
    ));
    if !defense_matches {
        return Err(HookError::DefensePrefixMismatch);
    }
    Ok((attack_address, defense_address))
}

/// Whether a hit has been put on top of those that the game is processing.
pub open spec fn begun<A: Arithmetic>(
    before: Seq<DamageProbe<A::Single>>,
    after: Seq<DamageProbe<A::Single>>,
    address: u64,
    instance: Option<Seq<u8>>,
) -> bool {
    &&& after.len() == before.len() + 1
    &&& after.drop_last() == before
    &&& after.last().address == address
    &&& raw_fields::<A>(instance, after.last().before)
    &&& after.last().attacks@ == Seq::<AttackMultiplierProbe<A::Single>>::empty()
    &&& after.last().defenses@ == Seq::<DefenseStatusProbe<A::Single>>::empty()
}

/// Notes that the game starts to process a hit.
pub fn begin_damage<A: Arithmetic>(
    probes: &mut DamageProbes<A::Single>,
    address: u64,
    instance: Option<&[u8]>,
)
    requires
        instance matches Some(bytes) ==> bytes@.len() >= DAMAGE_INSTANCE_BYTES,
    ensures
        begun::<A>(
            old(probes).stack@,
            final(probes).stack@,
            address,
            instance_bytes(instance),
        ),
{
    probes.stack.push(
        DamageProbe {
            address,
            before: read_raw_fields::<A>(instance),
            attacks: Vec::new(),
            defenses: Vec::new(),
        },
    );
    assert(probes.stack@.drop_last() =~= old(probes).stack@);
}

/// Whether the innermost hit, if there was one, has been taken off and
/// resolved from the damage instance as it now is.
pub open spec fn finished<A: Arithmetic>(
    before: Seq<DamageProbe<A::Single>>,
    after: Seq<DamageProbe<A::Single>>,
    instance: Option<Seq<u8>>,
    details: Option<DamageDetails<A::Single>>,
) -> bool {
    if before.len() == 0 {
        details is None && after == before
    } else {
        &&& after == before.drop_last()
        &&& details matches Some(resolved) && exists|fields: RawDamageFields<A::Single>|
            #[trigger] raw_fields::<A>(instance, fields) && resolves::<A>(
                before.last(),
                fields,
                resolved,
            )
    }
}

/// Resolves the innermost hit once the game has processed it.
pub fn finish_damage<A: Arithmetic>(
    probes: &mut DamageProbes<A::Single>,
    instance: Option<&[u8]>,
) -> (details: Option<DamageDetails<A::Single>>)
    requires
        instance matches Some(bytes) ==> bytes@.len() >= DAMAGE_INSTANCE_BYTES,
    ensures
        finished::<A>(
            old(probes).stack@,
            final(probes).stack@,
            instance_bytes(instance),
            details,
        ),
{
    match probes.stack.pop() {
        Some(probe) => {
            let after = read_raw_fields::<A>(instance);
            assert(probes.stack@ =~= old(probes).stack@.drop_last());
            Some(build_damage_details::<A>(&probe, after))
        },
        None => None,
    }
}

/// The arguments of a call of the game's attack aggregation.
#[derive(Clone, Copy, Debug)]
pub struct AttackCall<N> {
    pub status: u64,
    pub target: u64,
    pub factor_x2: N,
    pub factor_x3: N,
    pub lower_bound: N,
    pub reduction_floor: N,
    pub context: u64,
}

/// What the attack aggregation asks of each status.
pub open spec fn attack_request<N>(call: AttackCall<N>) -> Request {
    Request { context: call.context, defense_target: None, only_interface: None }
}

/// Collects what each status contributed to a call of the game's attack
/// aggregation.
pub fn collect_attack<A: Arithmetic, G: StatusCalls<A>>(
    cache: &mut LayoutCache,
    game: &G,
    call: &AttackCall<A::Single>,
) -> (statuses: Vec<StatusContributionProbe<A::Single>>)
    ensures
        status_collection::collected::<A, G>(
            game,
            old(cache)@,
            call.status,
            attack_request(*call),
        ).contains((status_collection::contribution_views(statuses@), final(cache)@)),
{
    let request = Request { context: call.context, defense_target: None, only_interface: None };
    collect_status_contributions::<A, G>(game, cache, call.status, &request)
}

/// Notes a call of the game's attack aggregation, which gave `result`, with
/// what each status contributed to it.
pub fn note_attack<A: Arithmetic>(
    probes: &mut DamageProbes<A::Single>,
    call: AttackCall<A::Single>,
    result: A::Single,
    statuses: Vec<StatusContributionProbe<A::Single>>,
)
    ensures
        attack_noted::<A>(
            old(probes).stack@,
            final(probes).stack@,
            call,
            result,
            status_collection::contribution_views(statuses@),
        ),
{
    match probes.stack.pop() {
        Some(mut probe) => {
            let ghost hit = probe;
            probe.attacks.push(
                AttackMultiplierProbe {
                    status: call.status,
                    target: call.target,
                    factor_x2: call.factor_x2,
                    factor_x3: call.factor_x3,
                    lower_bound: call.lower_bound,
                    reduction_floor: call.reduction_floor,
                    context: call.context,
                    result,
                    statuses,
                },
            );
            assert(probe.attacks@.drop_last() =~= hit.attacks@);
            probes.stack.push(probe);
            assert(probes.stack@.drop_last() =~= old(probes).stack@.drop_last());
        },
        None => {},
    }
}

/// Collects and notes a call of the game's attack aggregation, which gave
/// `result`.
pub fn attack_multiplier_hook<A: Arithmetic, G: StatusCalls<A>>(
    probes: &mut DamageProbes<A::Single>,
    cache: &mut LayoutCache,
    game: &G,
    call: AttackCall<A::Single>,
    result: A::Single,
)
    ensures
        exists|
            seen: (Seq<status_collection::ContributionView<A::Single>>, status_layout::CacheView),
        | #[trigger]
            status_collection::collected::<A, G>(
                game,
                old(cache)@,
                call.status,
                attack_request(call),
            ).contains(seen) && final(cache)@ == seen.1 && attack_noted::<A>(
                old(probes).stack@,
                final(probes).stack@,
                call,
                result,
                seen.0,
            ),
{
    let statuses = collect_attack::<A, G>(cache, game, &call);
    let ghost seen = (status_collection::contribution_views(statuses@), cache@);
    assert(status_collection::collected::<A, G>(
        game,
        old(cache)@,
        call.status,
        attack_request(call),
    ).contains(seen));
    note_attack::<A>(probes, call, result, statuses);
}

/// Whether a call of the attack aggregation has been added to the innermost hit, if there is one.
pub open spec fn attack_noted<A: Arithmetic>(
    before: Seq<DamageProbe<A::Single>>,
    after: Seq<DamageProbe<A::Single>>,
    call: AttackCall<A::Single>,
    result: A::Single,
    statuses: Seq<status_collection::ContributionView<A::Single>>,
) -> bool {
    if before.len() == 0 {
        after == before
    } else {
        &&& after.len() == before.len()
        &&& after.drop_last() == before.drop_last()
        &&& after.last().address == before.last().address
        &&& after.last().before == before.last().before
        &&& after.last().defenses == before.last().defenses
        &&& after.last().attacks@.len() == before.last().attacks@.len() + 1
        &&& after.last().attacks@.drop_last() == before.last().attacks@
        &&& {
            let noted = after.last().attacks@.last();
            &&& noted.status == call.status
            &&& noted.target == call.target
            &&& noted.factor_x2 == call.factor_x2
            &&& noted.factor_x3 == call.factor_x3
            &&& noted.lower_bound == call.lower_bound
            &&& noted.reduction_floor == call.reduction_floor
            &&& noted.context == call.context
            &&& noted.result == result
            &&& status_collection::contribution_views(noted.statuses@) == statuses
        }
    }
}

/// Whether a call of the defense aggregation has been added to the innermost hit, if there is one.
pub open spec fn defense_noted<A: Arithmetic>(
    before: Seq<DamageProbe<A::Single>>,
    after: Seq<DamageProbe<A::Single>>,
    status: u64,
    context: u64,
    buckets: [A::Single; 7],
    statuses: Seq<status_collection::ContributionView<A::Single>>,
) -> bool {
    if before.len() == 0 {
        after == before
    } else {
        &&& after.len() == before.len()
        &&& after.drop_last() == before.drop_last()
        &&& after.last().address == before.last().address
        &&& after.last().before == before.last().before
        &&& after.last().attacks == before.last().attacks
        &&& after.last().defenses@.len() == before.last().defenses@.len() + 1
        &&& after.last().defenses@.drop_last() == before.last().defenses@
        &&& {
            let noted = after.last().defenses@.last();
            &&& noted.status == status
            &&& noted.context == context
            &&& noted.buckets == buckets
            &&& status_collection::contribution_views(noted.statuses@) == statuses
        }
    }
}

/// What the defense aggregation asks of each status.
pub open spec fn defense_request(target: u64, context: u64) -> Request {
    Request {
        context,
        defense_target: Some(target),
        only_interface: Some(StatusInterface::Defense),
    }
}

/// Collects what each status contributed to a call of the game's defense
/// aggregation.
pub fn collect_defense<A: Arithmetic, G: StatusCalls<A>>(
    cache: &mut LayoutCache,
    game: &G,
    status: u64,
    target: u64,
    context: u64,
) -> (statuses: Vec<StatusContributionProbe<A::Single>>)
    ensures
        status_collection::collected::<A, G>(
            game,
            old(cache)@,
            status,
            defense_request(target, context),
        ).contains((status_collection::contribution_views(statuses@), final(cache)@)),
{
    let request = Request {
        context,
        defense_target: Some(target),
        only_interface: Some(StatusInterface::Defense),
    };
    collect_status_contributions::<A, G>(game, cache, status, &request)
}

/// Notes a call of the game's defense aggregation, which gave `buckets`, with
/// what each status contributed to it.
pub fn note_defense<A: Arithmetic>(
    probes: &mut DamageProbes<A::Single>,
    status: u64,
    context: u64,
    buckets: [A::Single; 7],
    statuses: Vec<StatusContributionProbe<A::Single>>,
)
    ensures
        defense_noted::<A>(
            old(probes).stack@,
            final(probes).stack@,
            status,
            context,
            buckets,
            status_collection::contribution_views(statuses@),
        ),
{
    match probes.stack.pop() {
        Some(mut probe) => {
            let ghost hit = probe;
            probe.defenses.push(DefenseStatusProbe { status, context, buckets, statuses });
            assert(probe.defenses@.drop_last() =~= hit.defenses@);
            probes.stack.push(probe);
            assert(probes.stack@.drop_last() =~= old(probes).stack@.drop_last());
        },
        None => {},
    }
}

/// Collects and notes a call of the game's defense aggregation, which filled
/// `output`. A call without an output is not noted.
pub fn defense_status_hook<A: Arithmetic, G: StatusCalls<A>>(
    probes: &mut DamageProbes<A::Single>,
    cache: &mut LayoutCache,
    game: &G,
    status: u64,
    output: Option<[A::Single; 7]>,
    target: u64,
    context: u64,
)
    ensures
        match output {
            None => final(probes).stack@ == old(probes).stack@ && final(cache)@ == old(cache)@,
            Some(buckets) => exists|
                seen: (
                    Seq<status_collection::ContributionView<A::Single>>,
                    status_layout::CacheView,
                ),
            | #[trigger]
                status_collection::collected::<A, G>(
                    game,
                    old(cache)@,
                    status,
                    defense_request(target, context),
                ).contains(seen) && final(cache)@ == seen.1 && defense_noted::<A>(
                    old(probes).stack@,
                    final(probes).stack@,
                    status,
                    context,
                    buckets,
                    seen.0,
                ),
        },
{
    let buckets = match output {
        Some(buckets) => buckets,
        None => return ,
    };
    let statuses = collect_defense::<A, G>(cache, game, status, target, context);
    let ghost seen = (status_collection::contribution_views(statuses@), cache@);
    assert(status_collection::collected::<A, G>(
        game,
        old(cache)@,
        status,
        defense_request(target, context),
    ).contains(seen));
    note_defense::<A>(probes, status, context, buckets, statuses);
}

/// A hit that has been processed leaves the hits around it as they were,
/// whatever was noted of it in between.
pub proof fn law_hits_nest<A: Arithmetic>(
    before: Seq<DamageProbe<A::Single>>,
    started: Seq<DamageProbe<A::Single>>,
    attacked: Seq<DamageProbe<A::Single>>,
    defended: Seq<DamageProbe<A::Single>>,
    after: Seq<DamageProbe<A::Single>>,
    address: u64,
    call: AttackCall<A::Single>,
    result: A::Single,
    attack_statuses: Seq<status_collection::ContributionView<A::Single>>,
    status: u64,
    context: u64,
    buckets: [A::Single; 7],
    defense_statuses: Seq<status_collection::ContributionView<A::Single>>,
    first: Option<Seq<u8>>,
    second: Option<Seq<u8>>,
    details: Option<DamageDetails<A::Single>>,
)
    requires
        begun::<A>(before, started, address, first),
        attacked == started || attack_noted::<A>(started, attacked, call, result, attack_statuses),
        defended == attacked || defense_noted::<A>(
            attacked,
            defended,
            status,
            context,
            buckets,
            defense_statuses,
        ),
        finished::<A>(defended, after, second, details),
    ensures
        after == before,
        details is Some,
{
}

/// The game aggregates twice for a hit. What it notes after the first time
/// makes no difference.
pub proof fn law_only_the_first_attack_call_counts<A: Arithmetic>(
    before: Seq<DamageProbe<A::Single>>,
    after: Seq<DamageProbe<A::Single>>,
    call: AttackCall<A::Single>,
    result: A::Single,
    statuses: Seq<status_collection::ContributionView<A::Single>>,
    fields: RawDamageFields<A::Single>,
    details: DamageDetails<A::Single>,
)
    requires
        attack_noted::<A>(before, after, call, result, statuses),
        before.len() > 0 && before.last().attacks@.len() > 0,
    ensures
        resolves::<A>(after.last(), fields, details) == resolves::<A>(
            before.last(),
            fields,
            details,
        ),
{
    assert(after.last().attacks@[0] == after.last().attacks@.drop_last()[0]);
}

/// The game aggregates twice for a hit. What it notes after the first time
/// makes no difference.
pub proof fn law_only_the_first_defense_call_counts<A: Arithmetic>(
    before: Seq<DamageProbe<A::Single>>,
    after: Seq<DamageProbe<A::Single>>,
    status: u64,
    context: u64,
    buckets: [A::Single; 7],
    statuses: Seq<status_collection::ContributionView<A::Single>>,
    fields: RawDamageFields<A::Single>,
    details: DamageDetails<A::Single>,
)
    requires
        defense_noted::<A>(before, after, status, context, buckets, statuses),
        before.len() > 0 && before.last().defenses@.len() > 0,
    ensures
        resolves::<A>(after.last(), fields, details) == resolves::<A>(
            before.last(),
            fields,
            details,
        ),
{
    assert(after.last().defenses@[0] == after.last().defenses@.drop_last()[0]);
}

/// A filtered list holds members of the list that pass.
proof fn lemma_filtered<T>(list: Seq<T>, pred: spec_fn(T) -> bool, member: T)
    requires
        list.filter(pred).contains(member),
    ensures
        list.contains(member) && pred(member),
    decreases list.len(),
{
    reveal(Seq::filter);
    if list.len() > 0 {
        let shorter = list.drop_last();
        if pred(list.last()) && list.last() == member {
            assert(list[list.len() - 1] == member);
        } else {
            let i = list.filter(pred).index_of(member);
            assert(shorter.filter(pred)[i] == member);
            lemma_filtered(shorter, pred, member);
            assert(list[shorter.index_of(member)] == member);
        }
    }
}

/// How the attacker defends itself has no part in a hit; all else that the
/// attacker and the target contribute has.
pub proof fn law_the_attackers_defense_has_no_part<N>(
    attacker: Seq<status_collection::ContributionView<N>>,
    target: Seq<status_collection::ContributionView<N>>,
    contribution: status_collection::ContributionView<N>,
)
    ensures
        merged(attacker, target).contains(contribution) <==> target.contains(contribution)
            || attacker.contains(contribution) && contribution.interface
            != StatusInterface::Defense,
{
    let kept = |c: status_collection::ContributionView<N>|
        c.interface != StatusInterface::Defense;
    let own = attacker.filter(kept);
    attacker.filter_lemma(kept);
    assert(merged(attacker, target) == own + target);
    if own.contains(contribution) {
        let i = own.index_of(contribution);
        lemma_filtered(attacker, kept, contribution);
        assert(merged(attacker, target)[i] == contribution);
    }
    if target.contains(contribution) {
        let i = target.index_of(contribution);
        assert(merged(attacker, target)[own.len() + i] == contribution);
    }
    if merged(attacker, target).contains(contribution) {
        let i = merged(attacker, target).index_of(contribution);
        if i < own.len() {
            assert(own[i] == contribution);
        } else {
            assert(target[i - own.len()] == contribution);
        }
    }
    if attacker.contains(contribution) && kept(contribution) {
        let i = attacker.index_of(contribution);
        assert(own.contains(attacker[i]));
    }
}

/// Whether the same takes part in two hits: the first calls of the
/// aggregations saw the same contributions, but for the attackers' own defense,
/// and gave the same result.
pub open spec fn count_alike<N>(one: DamageProbe<N>, other: DamageProbe<N>) -> bool {
    &&& merged(attacker_statuses(one), target_statuses(one)) == merged(
        attacker_statuses(other),
        target_statuses(other),
    )
    &&& one.attacks@.len() > 0 <==> other.attacks@.len() > 0
    &&& one.attacks@.len() > 0 ==> one.attacks@[0].result == other.attacks@[0].result
}

/// Whether details are equal in every field.
pub open spec fn agree<N>(one: DamageDetails<N>, other: DamageDetails<N>) -> bool {
    &&& one.elemental_multiplier == other.elemental_multiplier
    &&& one.amplify_multiplier == other.amplify_multiplier
    &&& one.defense_multiplier == other.defense_multiplier
    &&& one.attack_multiplier == other.attack_multiplier
    &&& one.supplementary_multiplier == other.supplementary_multiplier
    &&& one.formula_multiplier == other.formula_multiplier
    &&& one.attack_rate == other.attack_rate
    &&& one.uncapped_damage == other.uncapped_damage
    &&& one.damage_cap == other.damage_cap
    &&& one.damage_limit_multiplier == other.damage_limit_multiplier
    &&& grouping::are_alike(one.statuses@, other.statuses@)
}

/// In an arithmetic that gives the same answer each time, the values of an
/// interface have one total.
proof fn lemma_one_interface_total<A: Arithmetic>(
    statuses: Seq<status_collection::ContributionView<A::Single>>,
    interface: StatusInterface,
    category: Option<i32>,
)
    requires
        arithmetic::is_repeatable::<A>(),
    ensures
        outcome::is_settled(interface_total::<A>(statuses, interface, category)),
    decreases statuses.len(),
{
    arithmetic::lemma_operations_settle::<A>();
    if statuses.len() > 0 {
        lemma_one_interface_total::<A>(statuses.drop_last(), interface, category);
    }
}

/// In an arithmetic that gives the same answer each time, contributions have
/// one protocol form with one entry per status.
proof fn lemma_one_grouping<A: Arithmetic>(
    contributions: Seq<status_collection::ContributionView<A::Single>>,
    one: Seq<DamageStatusContribution<A::Single>>,
    other: Seq<DamageStatusContribution<A::Single>>,
)
    requires
        arithmetic::is_repeatable::<A>(),
        grouped_protocol::<A>(contributions, one),
        grouped_protocol::<A>(contributions, other),
    ensures
        grouping::are_alike(one, other),
{
    let items = choose|items: Seq<DamageStatusContribution<A::Single>>| #[trigger]
        are_protocol_forms(contributions, items) && grouping::grouped::<A>(items, one);
    let others = choose|items: Seq<DamageStatusContribution<A::Single>>| #[trigger]
        are_protocol_forms(contributions, items) && grouping::grouped::<A>(items, other);
    assert forall|i: int|
        #![trigger items[i]]
        #![trigger others[i]]
        0 <= i < items.len() implies items[i].value == others[i].value && grouping::key_of(
        items[i],
    ) == grouping::key_of(others[i]) by {
        assert(is_protocol_form(contributions[i], items[i]));
        assert(is_protocol_form(contributions[i], others[i]));
    }
    assert(grouping::keys_of(items) =~= grouping::keys_of(others));
    grouping::law_alike_contributions_group_alike::<A>(items, others, one, other);
}

/// In an arithmetic that gives the same answer each time, two hits in which the
/// same takes part are resolved alike in every field. So a later call of an
/// aggregation counts no status twice, and how the attacker defends itself
/// affects nothing.
pub proof fn law_hits_that_count_alike_agree<A: Arithmetic>(
    one: DamageProbe<A::Single>,
    other: DamageProbe<A::Single>,
    after: RawDamageFields<A::Single>,
    details: DamageDetails<A::Single>,
    other_details: DamageDetails<A::Single>,
)
    requires
        arithmetic::is_repeatable::<A>(),
        count_alike(one, other),
        resolves::<A>(one, after, details),
        resolves::<A>(other, after, other_details),
    ensures
        agree(details, other_details),
{
    let statuses = merged(attacker_statuses(one), target_statuses(one));
    arithmetic::lemma_operations_settle::<A>();
    assert forall|interface: StatusInterface, category: Option<i32>| outcome::is_settled(
        #[trigger] interface_total::<A>(statuses, interface, category),
    ) by {
        lemma_one_interface_total::<A>(statuses, interface, category);
    }
    assert(outcome::is_settled(attack_alone::<A>(statuses)));
    assert(outcome::is_settled(clamped::<A>(after)));
    lemma_one_grouping::<A>(statuses, details.statuses@, other_details.statuses@);
}

/// In an arithmetic that gives the same answer each time, two hits whose first
/// calls of both aggregations are equal are resolved alike in every field,
/// whatever later calls saw.
pub proof fn law_hits_with_equal_first_calls_agree<A: Arithmetic>(
    one: DamageProbe<A::Single>,
    other: DamageProbe<A::Single>,
    after: RawDamageFields<A::Single>,
    details: DamageDetails<A::Single>,
    other_details: DamageDetails<A::Single>,
)
    requires
        arithmetic::is_repeatable::<A>(),
        one.attacks@.len() > 0 <==> other.attacks@.len() > 0,
        one.attacks@.len() > 0 ==> one.attacks@[0].result == other.attacks@[0].result,
        attacker_statuses(one) == attacker_statuses(other),
        target_statuses(one) == target_statuses(other),
        resolves::<A>(one, after, details),
        resolves::<A>(other, after, other_details),
    ensures
        agree(details, other_details),
{
    law_hits_that_count_alike_agree::<A>(one, other, after, details, other_details);
}

/// The attacker's own defense has no part in what counts: hits that differ in
/// nothing else count alike.
pub proof fn law_the_attackers_defense_does_not_count<N>(
    one: DamageProbe<N>,
    other: DamageProbe<N>,
)
    requires
        one.attacks@.len() > 0 <==> other.attacks@.len() > 0,
        one.attacks@.len() > 0 ==> one.attacks@[0].result == other.attacks@[0].result,
        attacker_statuses(one).filter(
            |c: status_collection::ContributionView<N>| c.interface != StatusInterface::Defense,
        ) == attacker_statuses(other).filter(
            |c: status_collection::ContributionView<N>| c.interface != StatusInterface::Defense,
        ),
        target_statuses(one) == target_statuses(other),
    ensures
        count_alike(one, other),
{
}

/// The sum of the values that were seen of an interface and, if one is named,
/// a category, read as real numbers.
pub open spec fn seen_sum<N>(
    num: spec_fn(N) -> real,
    seen: Seq<status_collection::ContributionView<N>>,
    interface: StatusInterface,
    category: Option<i32>,
) -> real
    decreases seen.len(),
{
    if seen.len() == 0 {
        0int as real
    } else {
        let earlier = seen_sum(num, seen.drop_last(), interface, category);
        let last = seen.last();
        if last.interface == interface && (category is None || category == Some(last.category)) {
            earlier + num(last.value)
        } else {
            earlier
        }
    }
}

/// In exact arithmetic the values of an interface add up.
proof fn lemma_exact_interface_total<A: Arithmetic>(
    num: spec_fn(A::Single) -> real,
    wide: spec_fn(A::Double) -> real,
    seen: Seq<status_collection::ContributionView<A::Single>>,
    interface: StatusInterface,
    category: Option<i32>,
    total: A::Single,
)
    requires
        arithmetic::is_exact::<A>(num, wide),
        interface_total::<A>(seen, interface, category).contains(total),
    ensures
        num(total) == seen_sum(num, seen, interface, category),
    decreases seen.len(),
{
    if seen.len() > 0 {
        let earlier = seen.drop_last();
        let last = seen.last();
        if is_of(last, interface, category) {
            let (before, value) = choose|before: A::Single, value: A::Single|
                interface_total::<A>(earlier, interface, category).contains(before) && value
                    == last.value && #[trigger] call_ensures(A::plus, (before, value), total);
            lemma_exact_interface_total::<A>(num, wide, earlier, interface, category, before);
        } else {
            lemma_exact_interface_total::<A>(num, wide, earlier, interface, category, total);
        }
    }
}

/// The sums of two lists add up.
proof fn lemma_seen_sum_of_both<N>(
    num: spec_fn(N) -> real,
    one: Seq<status_collection::ContributionView<N>>,
    other: Seq<status_collection::ContributionView<N>>,
    interface: StatusInterface,
    category: Option<i32>,
)
    ensures
        seen_sum(num, one + other, interface, category) == seen_sum(
            num,
            one,
            interface,
            category,
        ) + seen_sum(num, other, interface, category),
    decreases other.len(),
{
    if other.len() > 0 {
        assert((one + other).drop_last() =~= one + other.drop_last());
        lemma_seen_sum_of_both(num, one, other.drop_last(), interface, category);
    } else {
        assert(one + other =~= one);
    }
}

/// Leaving the defense out leaves every other sum as it is.
proof fn lemma_seen_sum_without_defense<N>(
    num: spec_fn(N) -> real,
    seen: Seq<status_collection::ContributionView<N>>,
    interface: StatusInterface,
    category: Option<i32>,
)
    ensures
        seen_sum(
            num,
            seen.filter(
                |c: status_collection::ContributionView<N>| c.interface != StatusInterface::Defense,
            ),
            interface,
            category,
        ) == if interface == StatusInterface::Defense {
            0int as real
        } else {
            seen_sum(num, seen, interface, category)
        },
    decreases seen.len(),
{
    let kept = |c: status_collection::ContributionView<N>|
        c.interface != StatusInterface::Defense;
    reveal(Seq::filter);
    if seen.len() > 0 {
        lemma_seen_sum_without_defense(num, seen.drop_last(), interface, category);
        if kept(seen.last()) {
            assert(seen.filter(kept).drop_last() =~= seen.drop_last().filter(kept));
            assert(seen.filter(kept).last() == seen.last());
        }
    }
}

/// Contributions in the protocol's form add up as they were seen, if the kind
/// is that of the interface and of no other.
proof fn lemma_sum_of_forms<N>(
    num: spec_fn(N) -> real,
    seen: Seq<status_collection::ContributionView<N>>,
    items: Seq<DamageStatusContribution<N>>,
    interface: StatusInterface,
    kind: DamageModifierKind,
    category: Option<i32>,
)
    requires
        are_protocol_forms(seen, items),
        forall|other: StatusInterface| #[trigger] kind_of(other) == kind <==> other == interface,
    ensures
        grouping::sum_of(num, items, multiplier::of_kind_and(kind, category)) == seen_sum(
            num,
            seen,
            interface,
            category,
        ),
    decreases seen.len(),
{
    if seen.len() > 0 {
        let fewer = items.drop_last();
        let earlier = seen.drop_last();
        assert(is_protocol_form(seen[seen.len() - 1], items[items.len() - 1]));
        assert(kind_of(seen.last().interface) == items.last().kind);
        assert forall|i: int| 0 <= i < fewer.len() implies #[trigger] is_protocol_form(
            earlier[i],
            fewer[i],
        ) by {
            assert(is_protocol_form(seen[i], items[i]));
        }
        lemma_sum_of_forms(num, earlier, fewer, interface, kind, category);
    }
}

/// The statuses of a resolved hit are those that its first aggregations saw:
/// those of each interface make up the kind of that name, category by category,
/// and the target alone makes up the defense.
pub proof fn law_statuses_are_those_that_were_seen<A: Arithmetic>(
    num: spec_fn(A::Single) -> real,
    wide: spec_fn(A::Double) -> real,
    probe: DamageProbe<A::Single>,
    after: RawDamageFields<A::Single>,
    details: DamageDetails<A::Single>,
    category: Option<i32>,
)
    requires
        arithmetic::is_exact::<A>(num, wide),
        resolves::<A>(probe, after, details),
    ensures
        grouping::sum_of(
            num,
            details.statuses@,
            multiplier::of_kind_and(DamageModifierKind::Attack, category),
        ) == seen_sum(
            num,
            attacker_statuses(probe),
            StatusInterface::Attack,
            category,
        ) + seen_sum(num, target_statuses(probe), StatusInterface::Attack, category),
        grouping::sum_of(
            num,
            details.statuses@,
            multiplier::of_kind_and(DamageModifierKind::Defense, category),
        ) == seen_sum(num, target_statuses(probe), StatusInterface::Defense, category),
        grouping::sum_of(
            num,
            details.statuses@,
            multiplier::of_kind_and(DamageModifierKind::DamageLimit, category),
        ) == seen_sum(
            num,
            attacker_statuses(probe),
            StatusInterface::DamageLimit,
            category,
        ) + seen_sum(num, target_statuses(probe), StatusInterface::DamageLimit, category),
        grouping::sum_of(
            num,
            details.statuses@,
            multiplier::of_kind_and(DamageModifierKind::BonusAttack, category),
        ) == seen_sum(
            num,
            attacker_statuses(probe),
            StatusInterface::BonusAttack,
            category,
        ) + seen_sum(num, target_statuses(probe), StatusInterface::BonusAttack, category),
        grouping::sum_of(
            num,
            details.statuses@,
            multiplier::of_kind_and(DamageModifierKind::Amplify, category),
        ) == seen_sum(
            num,
            attacker_statuses(probe),
            StatusInterface::Amplify,
            category,
        ) + seen_sum(num, target_statuses(probe), StatusInterface::Amplify, category),
{
    let seen = merged(attacker_statuses(probe), target_statuses(probe));
    let items = choose|items: Seq<DamageStatusContribution<A::Single>>| #[trigger]
        are_protocol_forms(seen, items) && grouping::grouped::<A>(items, details.statuses@);
    lemma_kind_seen::<A>(
        num,
        wide,
        probe,
        items,
        details.statuses@,
        StatusInterface::Attack,
        DamageModifierKind::Attack,
        category,
    );
    lemma_kind_seen::<A>(
        num,
        wide,
        probe,
        items,
        details.statuses@,
        StatusInterface::Defense,
        DamageModifierKind::Defense,
        category,
    );
    lemma_kind_seen::<A>(
        num,
        wide,
        probe,
        items,
        details.statuses@,
        StatusInterface::DamageLimit,
        DamageModifierKind::DamageLimit,
        category,
    );
    lemma_kind_seen::<A>(
        num,
        wide,
        probe,
        items,
        details.statuses@,
        StatusInterface::BonusAttack,
        DamageModifierKind::BonusAttack,
        category,
    );
    lemma_kind_seen::<A>(
        num,
        wide,
        probe,
        items,
        details.statuses@,
        StatusInterface::Amplify,
        DamageModifierKind::Amplify,
        category,
    );
}

/// The statuses of a kind add up to what was seen of its interface.
proof fn lemma_kind_seen<A: Arithmetic>(
    num: spec_fn(A::Single) -> real,
    wide: spec_fn(A::Double) -> real,
    probe: DamageProbe<A::Single>,
    items: Seq<DamageStatusContribution<A::Single>>,
    groups: Seq<DamageStatusContribution<A::Single>>,
    interface: StatusInterface,
    kind: DamageModifierKind,
    category: Option<i32>,
)
    requires
        arithmetic::is_exact::<A>(num, wide),
        are_protocol_forms(merged(attacker_statuses(probe), target_statuses(probe)), items),
        grouping::grouped::<A>(items, groups),
        forall|other: StatusInterface| #[trigger] kind_of(other) == kind <==> other == interface,
    ensures
        grouping::sum_of(num, groups, multiplier::of_kind_and(kind, category)) == seen_sum(
            num,
            merged(attacker_statuses(probe), target_statuses(probe)),
            interface,
            category,
        ),
        seen_sum(
            num,
            merged(attacker_statuses(probe), target_statuses(probe)),
            interface,
            category,
        ) == (if interface == StatusInterface::Defense {
            0int as real
        } else {
            seen_sum(num, attacker_statuses(probe), interface, category)
        }) + seen_sum(num, target_statuses(probe), interface, category),
{
    let attacker = attacker_statuses(probe);
    let target = target_statuses(probe);
    let own = attacker.filter(
        |c: status_collection::ContributionView<A::Single>| c.interface != StatusInterface::Defense,
    );
    grouping::law_groups_add_up_to_their_contributions::<A>(
        num,
        wide,
        items,
        groups,
        multiplier::of_kind_and(kind, category),
    );
    lemma_sum_of_forms(num, merged(attacker, target), items, interface, kind, category);
    lemma_seen_sum_of_both(num, own, target, interface, category);
    lemma_seen_sum_without_defense(num, attacker, interface, category);
}

/// The statuses of a resolved hit agree with its multipliers. The amplify
/// multiplier that the meter resolves from them is the one that was resolved
/// here, the damage limit statuses make up the damage limit multiplier above
/// one, and the attack statuses the attack multiplier: categories 0 to 2 raise
/// it, and 3 and 4 lower it, down to zero at most.
pub proof fn law_statuses_agree_with_the_multipliers<A: Arithmetic>(
    num: spec_fn(A::Single) -> real,
    wide: spec_fn(A::Double) -> real,
    probe: DamageProbe<A::Single>,
    after: RawDamageFields<A::Single>,
    details: DamageDetails<A::Single>,
)
    requires
        arithmetic::is_exact::<A>(num, wide),
        resolves::<A>(probe, after, details),
    ensures
        forall|amplify: A::Single| #[trigger]
            multiplier::amplify_of::<A>(details).contains(amplify) ==> num(amplify) == num(
                details.amplify_multiplier,
            ),
        num(details.amplify_multiplier) == 1int as real + grouping::sum_of(
            num,
            details.statuses@,
            grouping::of_category(DamageModifierKind::Amplify, 0),
        ) - grouping::sum_of(
            num,
            details.statuses@,
            grouping::of_category(DamageModifierKind::Amplify, 1),
        ),
        num(details.damage_limit_multiplier) == 1int as real + grouping::sum_of(
            num,
            details.statuses@,
            grouping::of_kind(DamageModifierKind::DamageLimit),
        ),
        ({
            let attack = |category: i32|
                grouping::sum_of(
                    num,
                    details.statuses@,
                    grouping::of_category(DamageModifierKind::Attack, category),
                );
            num(details.attack_multiplier) == arithmetic::greater(
                1int as real - attack(3) - attack(4),
                0int as real,
            ) * (1int as real + attack(0) + attack(1) + attack(2))
        }),
{
    let seen = merged(attacker_statuses(probe), target_statuses(probe));
    let statuses = details.statuses@;
    let items = choose|items: Seq<DamageStatusContribution<A::Single>>| #[trigger]
        are_protocol_forms(seen, items) && grouping::grouped::<A>(items, statuses);
    let agrees = |interface: StatusInterface, kind: DamageModifierKind, category: Option<i32>|
        forall|total: A::Single| #[trigger]
            interface_total::<A>(seen, interface, category).contains(total) ==> num(total)
                == grouping::sum_of(num, statuses, multiplier::of_kind_and(kind, category));
    assert forall|interface: StatusInterface, kind: DamageModifierKind, category: Option<i32>|
        (forall|other: StatusInterface| #[trigger]
            kind_of(other) == kind <==> other == interface) implies #[trigger] agrees(
        interface,
        kind,
        category,
    ) by {
        lemma_kind_seen::<A>(num, wide, probe, items, statuses, interface, kind, category);
        assert forall|total: A::Single| #[trigger]
            interface_total::<A>(seen, interface, category).contains(total) implies num(total)
            == grouping::sum_of(num, statuses, multiplier::of_kind_and(kind, category)) by {
            lemma_exact_interface_total::<A>(num, wide, seen, interface, category, total);
        }
    }
    assert(agrees(StatusInterface::Amplify, DamageModifierKind::Amplify, Some(0i32)));
    assert(agrees(StatusInterface::Amplify, DamageModifierKind::Amplify, Some(1i32)));
    assert(agrees(StatusInterface::DamageLimit, DamageModifierKind::DamageLimit, None));
    assert(agrees(StatusInterface::Attack, DamageModifierKind::Attack, Some(0i32)));
    assert(agrees(StatusInterface::Attack, DamageModifierKind::Attack, Some(1i32)));
    assert(agrees(StatusInterface::Attack, DamageModifierKind::Attack, Some(2i32)));
    assert(agrees(StatusInterface::Attack, DamageModifierKind::Attack, Some(3i32)));
    assert(agrees(StatusInterface::Attack, DamageModifierKind::Attack, Some(4i32)));
    if !multiplier::has_kind(statuses, DamageModifierKind::Amplify) {
        multiplier::lemma_absent_kind(num, statuses, DamageModifierKind::Amplify, Some(0i32));
        multiplier::lemma_absent_kind(num, statuses, DamageModifierKind::Amplify, Some(1i32));
    }
    assert forall|amplify: A::Single| #[trigger]
        multiplier::amplify_of::<A>(details).contains(amplify) implies num(amplify) == num(
        details.amplify_multiplier,
    ) by {
        multiplier::law_amplify_statuses_make_the_multiplier::<A>(num, wide, details, amplify);
    }
}

/// The formula multiplies the damage limit with the amplification and adds
/// half of what attack and defense amount to above one. What they amount to
/// below one does not count.
pub proof fn law_the_formula_weighs_the_multipliers<A: Arithmetic>(
    num: spec_fn(A::Single) -> real,
    wide: spec_fn(A::Double) -> real,
    damage_limit: A::Single,
    amplify: A::Single,
    attack_defense: A::Single,
    result: A::Single,
)
    requires
        arithmetic::is_exact::<A>(num, wide),
        formula::<A>(damage_limit, amplify, attack_defense).contains(result),
    ensures
        num(attack_defense) <= 1int as real ==> num(result) == num(damage_limit) * num(amplify),
        num(attack_defense) >= 1int as real ==> 2int as real * (num(result) - num(damage_limit)
            * num(amplify)) == num(attack_defense) - 1int as real,
{
    let product = choose|product: A::Single|
        call_ensures(A::times, (damage_limit, amplify), product) && exists|bonus: A::Single|
            arithmetic::product::<A>(
                arithmetic::maximum::<A>(
                    arithmetic::difference::<A>(
                        outcome::exactly(attack_defense),
                        arithmetic::one::<A>(),
                    ),
                    arithmetic::zero::<A>(),
                ),
                arithmetic::half::<A>(),
            ).contains(bonus) && #[trigger] call_ensures(A::plus, (product, bonus), result);
    let bonus = choose|bonus: A::Single|
        arithmetic::product::<A>(
            arithmetic::maximum::<A>(
                arithmetic::difference::<A>(
                    outcome::exactly(attack_defense),
                    arithmetic::one::<A>(),
                ),
                arithmetic::zero::<A>(),
            ),
            arithmetic::half::<A>(),
        ).contains(bonus) && #[trigger] call_ensures(A::plus, (product, bonus), result);
    lemma_exact_half_above_one::<A>(num, wide, attack_defense, bonus);
}

/// In exact arithmetic half of what is above one.
proof fn lemma_exact_half_above_one<A: Arithmetic>(
    num: spec_fn(A::Single) -> real,
    wide: spec_fn(A::Double) -> real,
    value: A::Single,
    bonus: A::Single,
)
    requires
        arithmetic::is_exact::<A>(num, wide),
        arithmetic::product::<A>(
            arithmetic::maximum::<A>(
                arithmetic::difference::<A>(outcome::exactly(value), arithmetic::one::<A>()),
                arithmetic::zero::<A>(),
            ),
            arithmetic::half::<A>(),
        ).contains(bonus),
    ensures
        num(bonus) + num(bonus) == arithmetic::greater(num(value) - 1int as real, 0int as real),
{
    let (excess, half) = choose|excess: A::Single, half: A::Single|
        arithmetic::maximum::<A>(
            arithmetic::difference::<A>(outcome::exactly(value), arithmetic::one::<A>()),
            arithmetic::zero::<A>(),
        ).contains(excess) && arithmetic::half::<A>().contains(half) && #[trigger] call_ensures(
            A::times,
            (excess, half),
            bonus,
        );
    let (e, h, b) = (num(excess), num(half), num(bonus));
    assert(b + b == e) by (nonlinear_arith)
        requires
            b == e * h,
            h + h == 1int as real,
    ;
}

/// The base damage of a hit is its uncapped damage, raised to a positive floor
/// and then lowered to a positive cap. It is never below zero.
pub proof fn law_the_base_damage_lies_between_floor_and_cap<A: Arithmetic>(
    num: spec_fn(A::Single) -> real,
    wide: spec_fn(A::Double) -> real,
    after: RawDamageFields<A::Single>,
    damage: A::Single,
)
    requires
        arithmetic::is_exact::<A>(num, wide),
        clamped::<A>(after).contains(damage),
    ensures
        num(damage) >= 0int as real,
        after.damage_cap > 0 ==> num(damage) <= after.damage_cap as int as real,
        after.candidate_2b8 > 0 && (after.damage_cap <= 0 || after.candidate_2b8
            <= after.damage_cap) ==> num(damage) >= after.candidate_2b8 as int as real,
        after.candidate_2b8 > after.damage_cap > 0 ==> num(damage)
            == after.damage_cap as int as real,
        num(after.uncapped_damage) >= 0int as real && (after.candidate_2b8 <= 0 || num(
            after.uncapped_damage,
        ) >= after.candidate_2b8 as int as real) && (after.damage_cap <= 0 || num(
            after.uncapped_damage,
        ) <= after.damage_cap as int as real) ==> num(damage) == num(after.uncapped_damage),
        num(after.uncapped_damage) <= 0int as real && after.candidate_2b8 <= 0 ==> num(damage)
            == 0int as real,
        after.candidate_2b8 > 0 && num(after.uncapped_damage) <= after.candidate_2b8 as int as real
            && (after.damage_cap <= 0 || after.candidate_2b8 <= after.damage_cap) ==> num(damage)
            == after.candidate_2b8 as int as real,
        after.damage_cap > 0 && num(after.uncapped_damage) >= after.damage_cap as int as real
            ==> num(damage) == after.damage_cap as int as real,
{
}

/// A resolved hit carries the figures of its first attack aggregation and of
/// the damage instance afterwards.
pub proof fn law_a_resolved_hit_carries_its_figures<A: Arithmetic>(
    num: spec_fn(A::Single) -> real,
    wide: spec_fn(A::Double) -> real,
    probe: DamageProbe<A::Single>,
    after: RawDamageFields<A::Single>,
    details: DamageDetails<A::Single>,
)
    requires
        arithmetic::is_exact::<A>(num, wide),
        resolves::<A>(probe, after, details),
    ensures
        probe.attacks@.len() > 0 ==> num(details.defense_multiplier) == num(
            probe.attacks@[0].result,
        ),
        probe.attacks@.len() == 0 ==> num(details.defense_multiplier) == 1int as real,
        num(details.elemental_multiplier) == num(after.elemental_multiplier),
        num(details.attack_rate) == num(after.candidate_d8),
        num(details.supplementary_multiplier) == 1int as real,
        details.damage_cap == after.damage_cap,
        clamped::<A>(after).contains(details.uncapped_damage),
        formula::<A>(
            details.damage_limit_multiplier,
            details.amplify_multiplier,
            details.defense_multiplier,
        ).contains(details.formula_multiplier),
{
}

/// Whether a signed number has the bits that the four bytes at `offset` spell.
pub open spec fn spells_signed(bytes: Seq<u8>, offset: int, value: i32) -> bool {
    value == memory::spelled(bytes, offset) || value == memory::spelled(bytes, offset) - 0x1_0000_0000
}

/// A damage instance holds its damage, its attack rate, its flags, its action,
/// its floor and its cap, its uncapped damage and its critical rate at their
/// places.
pub proof fn law_fields_stand_at_their_places<A: Arithmetic>(
    bytes: Seq<u8>,
    fields: RawDamageFields<A::Single>,
)
    requires
        bytes.len() >= 0x2DC,
        raw_fields::<A>(Some(bytes), fields),
    ensures
        spells_signed(bytes, 0xD4, fields.damage),
        fields.flags == memory::spelled(bytes, 0xE8) + 0x1_0000_0000 * memory::spelled(bytes, 0xEC),
        fields.action_id == memory::spelled(bytes, 0x16C),
        spells_signed(bytes, 0x2B8, fields.candidate_2b8),
        spells_signed(bytes, 0x2BC, fields.damage_cap),
        arithmetic::bits::<A>(memory::spelled(bytes, 0xD8) as u32).contains(fields.candidate_d8),
        arithmetic::bits::<A>(memory::spelled(bytes, 0x154) as u32).contains(fields.candidate_154),
        arithmetic::bits::<A>(memory::spelled(bytes, 0x2D4) as u32).contains(fields.uncapped_damage),
        arithmetic::bits::<A>(memory::spelled(bytes, 0x2D8) as u32).contains(fields.elemental_multiplier),
{
    lemma_field(bytes, 0xD4);
    lemma_field(bytes, 0xD8);
    lemma_field(bytes, 0xE8);
    lemma_field(bytes, 0xEC);
    lemma_field(bytes, 0x154);
    lemma_field(bytes, 0x16C);
    lemma_field(bytes, 0x2B8);
    lemma_field(bytes, 0x2BC);
    lemma_field(bytes, 0x2D4);
    lemma_field(bytes, 0x2D8);
    let flags = bytes.subrange(0xE8, 0xF0);
    memory::lemma_little_endian_8(flags);
    assert(flags.subrange(0, 4) =~= bytes.subrange(0xE8, 0xEC));
    assert(flags.subrange(4, 8) =~= bytes.subrange(0xEC, 0xF0));
}

/// A field of four bytes is the number that they spell.
proof fn lemma_field(bytes: Seq<u8>, offset: int)
    requires
        0 <= offset,
        offset + 4 <= bytes.len(),
    ensures
        field(bytes, offset, 4) == memory::spelled(bytes, offset),
        0 <= memory::spelled(bytes, offset) < 0x1_0000_0000,
{
    memory::lemma_little_endian_4(bytes.subrange(offset, offset + 4));
}

/// A damage instance that could not be read has neither damage nor flags, and a
/// hit with it has no base damage.
pub proof fn law_an_unreadable_instance_counts_for_nothing<A: Arithmetic>(
    num: spec_fn(A::Single) -> real,
    wide: spec_fn(A::Double) -> real,
    probe: DamageProbe<A::Single>,
    fields: RawDamageFields<A::Single>,
    details: DamageDetails<A::Single>,
)
    requires
        arithmetic::is_exact::<A>(num, wide),
        raw_fields::<A>(None, fields),
        resolves::<A>(probe, fields, details),
    ensures
        fields.damage == 0,
        fields.flags == 0,
        fields.action_id == 0,
        details.damage_cap == 0,
        num(details.uncapped_damage) == 0int as real,
        num(details.attack_rate) == 0int as real,
        num(details.elemental_multiplier) == 0int as real,
{
}

/// Figures that are not finite do not spoil a hit: a multiplier is then one, and
/// a rate or a base damage is zero.
pub proof fn law_figures_that_are_not_finite_are_replaced<A: Arithmetic>(
    probe: DamageProbe<A::Single>,
    after: RawDamageFields<A::Single>,
    details: DamageDetails<A::Single>,
)
    requires
        resolves::<A>(probe, after, details),
    ensures
        probe.attacks@.len() > 0 && is_not_finite::<A>(probe.attacks@[0].result)
            ==> arithmetic::one::<A>().contains(details.defense_multiplier),
        is_not_finite::<A>(after.elemental_multiplier) ==> arithmetic::zero::<A>().contains(
            details.elemental_multiplier,
        ),
        is_not_finite::<A>(after.candidate_d8) ==> arithmetic::zero::<A>().contains(
            details.attack_rate,
        ),
        is_not_finite::<A>(details.attack_multiplier) ==> arithmetic::one::<A>().contains(
            details.attack_multiplier,
        ),
{
}

/// Whether a number is told not to be finite, and nothing else.
pub open spec fn is_not_finite<A: Arithmetic>(value: A::Single) -> bool {
    outcome::is_only(arithmetic::finite::<A>(outcome::exactly(value)), false)
}

/// The aggregations lie at their places in the game's module and are told by the
/// code that they start with. Other code at the first place is reported first.
pub proof fn law_aggregations_are_told_by_their_code<M: Memory>(
    memory: &M,
    base: u64,
    attack_code: Option<Seq<u8>>,
    defense_code: Option<Seq<u8>>,
    result: Result<(u64, u64), HookError>,
)
    requires
        outcome::is_only(
            memory::bytes_at(memory, base.wrapping_add(0xBD9630), 19),
            attack_code,
        ),
        outcome::is_only(
            memory::bytes_at(memory, base.wrapping_add(0xBD9A40), 19),
            defense_code,
        ),
        setups(memory, base).contains(result),
    ensures
        !is_attack_code(attack_code) ==> result == Err::<(u64, u64), HookError>(
            HookError::AttackPrefixMismatch,
        ),
        is_attack_code(attack_code) && !is_defense_code(defense_code) ==> result == Err::<
            (u64, u64),
            HookError,
        >(HookError::DefensePrefixMismatch),
        is_attack_code(attack_code) && is_defense_code(defense_code) ==> result == Ok::<
            (u64, u64),
            HookError,
        >((base.wrapping_add(0xBD9630), base.wrapping_add(0xBD9A40))),
{
    assert(attack_multiplier_prefix().len() == 19);
    assert(defense_status_prefix().len() == 19);
    if let Some(code) = attack_code {
        if is_attack_code(attack_code) {
            assert(code =~= attack_multiplier_prefix());
        }
    }
    if let Some(code) = defense_code {
        if is_defense_code(defense_code) {
            assert(code =~= defense_status_prefix());
        }
    }
}

/// Whether code saves eight registers and then makes room on the stack.
pub open spec fn saves_registers(code: Seq<u8>) -> bool {
    &&& code.len() == 19
    &&& code[0] == 0x55
    &&& code[1] == 0x41 && code[2] == 0x57
    &&& code[3] == 0x41 && code[4] == 0x56
    &&& code[5] == 0x41 && code[6] == 0x55
    &&& code[7] == 0x41 && code[8] == 0x54
    &&& code[9] == 0x56 && code[10] == 0x57 && code[11] == 0x53
    &&& code[12] == 0x48 && code[13] == 0x81 && code[14] == 0xEC
}

/// Whether this is how the attack aggregation starts: with room for 0x128 bytes.
pub open spec fn is_attack_code(code: Option<Seq<u8>>) -> bool {
    code matches Some(c) && saves_registers(c) && memory::spelled(c, 15) == 0x128
}

/// Whether this is how the defense aggregation starts: with room for 0xD8 bytes.
pub open spec fn is_defense_code(code: Option<Seq<u8>>) -> bool {
    code matches Some(c) && saves_registers(c) && memory::spelled(c, 15) == 0xD8
}

/// A hit is resolved from what was noted while the game processed it: the result
/// of the attack aggregation, the statuses that it saw of the attacker, and those
/// that the defense aggregation saw of the target.
pub proof fn law_a_hit_is_resolved_from_what_was_noted<A: Arithmetic>(
    num: spec_fn(A::Single) -> real,
    wide: spec_fn(A::Double) -> real,
    before: Seq<DamageProbe<A::Single>>,
    started: Seq<DamageProbe<A::Single>>,
    attacked: Seq<DamageProbe<A::Single>>,
    defended: Seq<DamageProbe<A::Single>>,
    after: Seq<DamageProbe<A::Single>>,
    address: u64,
    call: AttackCall<A::Single>,
    result: A::Single,
    attack_statuses: Seq<status_collection::ContributionView<A::Single>>,
    status: u64,
    context: u64,
    buckets: [A::Single; 7],
    defense_statuses: Seq<status_collection::ContributionView<A::Single>>,
    first: Option<Seq<u8>>,
    second: Option<Seq<u8>>,
    details: Option<DamageDetails<A::Single>>,
)
    requires
        arithmetic::is_exact::<A>(num, wide),
        begun::<A>(before, started, address, first),
        attack_noted::<A>(started, attacked, call, result, attack_statuses),
        defense_noted::<A>(attacked, defended, status, context, buckets, defense_statuses),
        finished::<A>(defended, after, second, details),
    ensures
        details matches Some(d) && {
            &&& num(d.defense_multiplier) == num(result)
            &&& grouping::sum_of(
                num,
                d.statuses@,
                grouping::of_kind(DamageModifierKind::Attack),
            ) == seen_sum(num, attack_statuses, StatusInterface::Attack, None) + seen_sum(
                num,
                defense_statuses,
                StatusInterface::Attack,
                None,
            )
            &&& grouping::sum_of(
                num,
                d.statuses@,
                grouping::of_kind(DamageModifierKind::Defense),
            ) == seen_sum(num, defense_statuses, StatusInterface::Defense, None)
        },
{
    let probe = defended.last();
    let fields = choose|fields: RawDamageFields<A::Single>| #[trigger]
        raw_fields::<A>(second, fields) && resolves::<A>(probe, fields, details->Some_0);
    assert(probe.attacks@.len() == 1);
    assert(probe.defenses@.len() == 1);
    assert(attacker_statuses(probe) == attack_statuses);
    assert(target_statuses(probe) == defense_statuses);
    law_statuses_are_those_that_were_seen::<A>(
        num,
        wide,
        probe,
        fields,
        details->Some_0,
        None,
    );
    assert(multiplier::of_kind_and(DamageModifierKind::Attack, None) =~= grouping::of_kind(
        DamageModifierKind::Attack,
    ));
    assert(multiplier::of_kind_and(DamageModifierKind::Defense, None) =~= grouping::of_kind(
        DamageModifierKind::Defense,
    ));
}

/// The attack aggregation asks every interface of a status, for whomever it
/// applies to; the defense aggregation asks for the defense that applies to the
/// target, and both ask within the calculation that the game is in.
pub proof fn law_aggregations_ask_for_their_own<N>(
    call: AttackCall<N>,
    target: u64,
    context: u64,
)
    ensures
        attack_request(call).context == call.context,
        attack_request(call).only_interface is None,
        attack_request(call).defense_target is None,
        defense_request(target, context).context == context,
        defense_request(target, context).only_interface == Some(StatusInterface::Defense),
        defense_request(target, context).defense_target == Some(target),
{
}

/// The contributions of a hit stand in the order in which they were seen: those
/// of the attacker first, and then those of the target.
pub proof fn law_the_attacker_comes_first<N>(
    attacker: Seq<status_collection::ContributionView<N>>,
    target: Seq<status_collection::ContributionView<N>>,
)
    requires
        forall|i: int|
            0 <= i < attacker.len() ==> (#[trigger] attacker[i]).interface
                != StatusInterface::Defense,
    ensures
        merged(attacker, target) == attacker + target,
{
    let kept = |c: status_collection::ContributionView<N>|
        c.interface != StatusInterface::Defense;
    assert forall|i: int| 0 <= i < attacker.len() implies kept(#[trigger] attacker[i]) by {}
    lemma_all_kept(attacker, kept);
}

/// A list whose members all pass stays as it is.
proof fn lemma_all_kept<T>(list: Seq<T>, pred: spec_fn(T) -> bool)
    requires
        forall|i: int| 0 <= i < list.len() ==> pred(#[trigger] list[i]),
    ensures
        list.filter(pred) == list,
    decreases list.len(),
{
    reveal(Seq::filter);
    if list.len() > 0 {
        let fewer = list.drop_last();
        assert forall|i: int| 0 <= i < fewer.len() implies pred(#[trigger] fewer[i]) by {
            assert(fewer[i] == list[i]);
        }
        lemma_all_kept(fewer, pred);
        assert(pred(list[list.len() - 1]));
        assert(list =~= fewer.push(list.last()));
    } else {
        assert(list.filter(pred) =~= list);
    }
}

/// A call of an aggregation is noted as it was, after those of the same hit that
/// were noted before.
pub proof fn law_calls_are_noted_as_they_were<A: Arithmetic>(
    before: Seq<DamageProbe<A::Single>>,
    attacked: Seq<DamageProbe<A::Single>>,
    defended: Seq<DamageProbe<A::Single>>,
    call: AttackCall<A::Single>,
    result: A::Single,
    attack_statuses: Seq<status_collection::ContributionView<A::Single>>,
    status: u64,
    context: u64,
    buckets: [A::Single; 7],
    defense_statuses: Seq<status_collection::ContributionView<A::Single>>,
)
    requires
        before.len() > 0,
        attack_noted::<A>(before, attacked, call, result, attack_statuses),
        defense_noted::<A>(attacked, defended, status, context, buckets, defense_statuses),
    ensures
        ({
            let attack = defended.last().attacks@.last();
            let defense = defended.last().defenses@.last();
            &&& (attack.status, attack.target, attack.context) == (
                call.status,
                call.target,
                call.context,
            )
            &&& (attack.factor_x2, attack.factor_x3) == (call.factor_x2, call.factor_x3)
            &&& (attack.lower_bound, attack.reduction_floor) == (
                call.lower_bound,
                call.reduction_floor,
            )
            &&& attack.result == result
            &&& (defense.status, defense.context, defense.buckets) == (status, context, buckets)
            &&& status_collection::contribution_views(attack.statuses@) == attack_statuses
            &&& status_collection::contribution_views(defense.statuses@) == defense_statuses
        }),
        defended.last().attacks@.len() == before.last().attacks@.len() + 1,
        defended.last().defenses@.len() == before.last().defenses@.len() + 1,
        defended.last().before == before.last().before,
        defended.last().address == before.last().address,
{
}

/// A hit whose uncapped damage is not finite has the base damage of one that
/// deals none.
pub proof fn law_damage_that_is_not_finite_is_none<A: Arithmetic>(
    after: RawDamageFields<A::Single>,
    nothing: A::Single,
)
    requires
        arithmetic::zero::<A>() == outcome::exactly(nothing),
        arithmetic::is_number::<A>(nothing),
        arithmetic::is_told_infinite::<A>(after.uncapped_damage),
    ensures
        clamped::<A>(after) == clamped::<A>(
            RawDamageFields { uncapped_damage: nothing, ..after },
        ),
{
    arithmetic::law_only_finite_numbers_are_kept::<A>(
        after.uncapped_damage,
        arithmetic::zero::<A>(),
    );
    arithmetic::law_only_finite_numbers_are_kept::<A>(nothing, arithmetic::zero::<A>());
}

/// The meter reads a hit as the hook resolved it. Where all amplify statuses
/// raise or lower the amplification, it takes the hit for one of today's, its
/// aggregate and its critical rate for what they are, and the parts of its
/// multiplier make up the formula multiplier that the hook computed.
pub proof fn law_the_meter_reads_what_the_hook_resolved<A: Arithmetic>(
    num: spec_fn(A::Single) -> real,
    wide: spec_fn(A::Double) -> real,
    probe: DamageProbe<A::Single>,
    after: RawDamageFields<A::Single>,
    details: DamageDetails<A::Single>,
    damage: u64,
    base_damage: A::Single,
    attack_defense: A::Single,
    critical_rate: A::Single,
    parts: multiplier::MultiplierComponents<A::Single>,
)
    requires
        arithmetic::is_exact::<A>(num, wide),
        resolves::<A>(probe, after, details),
        forall|i: int|
            0 <= i < details.statuses@.len() && (#[trigger] details.statuses@[i]).kind
                == DamageModifierKind::Amplify ==> details.statuses@[i].category == 0
                || details.statuses@[i].category == 1,
        multiplier::attack_defense_of::<A>(details).contains(attack_defense),
        multiplier::critical_rate_of::<A>(details).contains(critical_rate),
        num(base_damage) > 0int as real,
        multiplier::parts_of::<A>(details, damage, base_damage).contains(parts),
    ensures
        !multiplier::corrected_semantics::<A>(details).contains(false),
        num(attack_defense) == num(details.defense_multiplier),
        num(critical_rate) == num(after.elemental_multiplier),
        num(parts.recognized) == num(details.formula_multiplier),
{
    law_statuses_agree_with_the_multipliers::<A>(num, wide, probe, after, details);
    law_a_resolved_hit_carries_its_figures::<A>(num, wide, probe, after, details);
    law_the_formula_weighs_the_multipliers::<A>(
        num,
        wide,
        details.damage_limit_multiplier,
        details.amplify_multiplier,
        details.defense_multiplier,
        details.formula_multiplier,
    );
    lemma_amplify_of_two_sorts(num, details.statuses@);
    assert forall|answer: bool| #[trigger]
        multiplier::corrected_semantics::<A>(details).contains(answer) implies answer by {
        let amplify = choose|amplify: A::Single| #[trigger]
            multiplier::unchecked_amplify_of::<A>(details).contains(amplify)
                && multiplier::judged_with::<A>(details, amplify).contains(answer);
        multiplier::law_amplify_statuses_make_the_unchecked_multiplier::<A>(
            num,
            wide,
            details,
            amplify,
        );
        assert(num(amplify) == num(details.amplify_multiplier));
        multiplier::law_the_nearer_formula_decides::<A>(num, wide, details, amplify, answer);
    }
    multiplier::law_both_readings_resolve_their_figures::<A>(
        num,
        wide,
        details,
        attack_defense,
        critical_rate,
    );
    multiplier::law_the_parts_make_up_the_multiplier::<A>(
        num,
        wide,
        details,
        damage,
        base_damage,
        parts,
    );
    let (amplify, aggregate) = choose|amplify: A::Single, aggregate: A::Single| #[trigger]
        multiplier::amplify_of::<A>(details).contains(amplify)
            && #[trigger] multiplier::attack_defense_of::<A>(details).contains(aggregate)
            && 1int as real + num(parts.damage_limit) + num(parts.amplify) == num(
            details.damage_limit_multiplier,
        ) * num(amplify) && num(parts.attack_defense) + num(parts.attack_defense)
            == arithmetic::greater(num(aggregate) - 1int as real, 0int as real);
    multiplier::law_both_readings_resolve_their_figures::<A>(
        num,
        wide,
        details,
        aggregate,
        critical_rate,
    );
    assert(num(amplify) == num(details.amplify_multiplier));
}

/// Amplify statuses of two categories add up category by category.
proof fn lemma_amplify_of_two_sorts<N>(
    num: spec_fn(N) -> real,
    statuses: Seq<DamageStatusContribution<N>>,
)
    requires
        forall|i: int|
            0 <= i < statuses.len() && (#[trigger] statuses[i]).kind == DamageModifierKind::Amplify
                ==> statuses[i].category == 0 || statuses[i].category == 1,
    ensures
        grouping::sum_of(num, statuses, grouping::of_kind(DamageModifierKind::Amplify))
            == grouping::sum_of(
            num,
            statuses,
            grouping::of_category(DamageModifierKind::Amplify, 0),
        ) + grouping::sum_of(
            num,
            statuses,
            grouping::of_category(DamageModifierKind::Amplify, 1),
        ),
    decreases statuses.len(),
{
    if statuses.len() > 0 {
        let fewer = statuses.drop_last();
        assert forall|i: int|
            0 <= i < fewer.len() && (#[trigger] fewer[i]).kind
                == DamageModifierKind::Amplify implies fewer[i].category == 0
            || fewer[i].category == 1 by {
            assert(fewer[i] == statuses[i]);
        }
        lemma_amplify_of_two_sorts(num, fewer);
        assert(statuses.last() == statuses[statuses.len() - 1]);
    }
}

} // verus!
