use gbfr_logs::arithmetic::Arithmetic;
use gbfr_logs::protocol::{
    ActionType, Actor, DamageDetails, DamageEvent, DamageModifierKind,
    DamageStatusContribution as RawDamageStatusContribution,
};
use gbfr_logs::skill_state::multiplier::{
    is_capped_hit, normalization_base, signed_status_value, status_multiplier_contributions,
};
use gbfr_logs::skill_state::{
    count_damage, AdjustedDamageInstance, AverageDamageDetails, SkillState,
};

/// Arithmetic in `f32` and `f64`.
struct Ieee;

impl Arithmetic for Ieee {
    type Single = f32;
    type Double = f64;

    fn from_bits(bits: u32) -> f32 {
        f32::from_bits(bits)
    }

    fn from_u64(value: u64) -> f32 {
        value as f32
    }

    fn from_u32(value: u32) -> f32 {
        value as f32
    }

    fn from_i32(value: i32) -> f32 {
        value as f32
    }

    fn zero() -> f32 {
        0.0
    }

    fn half() -> f32 {
        0.5
    }

    fn one() -> f32 {
        1.0
    }

    fn hundred() -> f32 {
        100.0
    }

    fn epsilon() -> f32 {
        f32::EPSILON
    }

    fn plus(a: f32, b: f32) -> f32 {
        a + b
    }

    fn minus(a: f32, b: f32) -> f32 {
        a - b
    }

    fn times(a: f32, b: f32) -> f32 {
        a * b
    }

    fn divided(a: f32, b: f32) -> f32 {
        a / b
    }

    fn negated(a: f32) -> f32 {
        -a
    }

    fn magnitude(a: f32) -> f32 {
        a.abs()
    }

    fn larger(a: f32, b: f32) -> f32 {
        a.max(b)
    }

    fn smaller(a: f32, b: f32) -> f32 {
        a.min(b)
    }

    fn is_finite(a: f32) -> bool {
        a.is_finite()
    }

    fn above(a: f32, b: f32) -> bool {
        a > b
    }

    fn below(a: f32, b: f32) -> bool {
        a < b
    }

    fn at_most(a: f32, b: f32) -> bool {
        a <= b
    }

    fn widened(a: f32) -> f64 {
        f64::from(a)
    }

    fn narrowed(a: f64) -> f32 {
        a as f32
    }

    fn wide_from_u64(value: u64) -> f64 {
        value as f64
    }

    fn wide_zero() -> f64 {
        0.0
    }

    fn wide_plus(a: f64, b: f64) -> f64 {
        a + b
    }

    fn wide_times(a: f64, b: f64) -> f64 {
        a * b
    }

    fn wide_divided(a: f64, b: f64) -> f64 {
        a / b
    }

    fn wide_larger(a: f64, b: f64) -> f64 {
        a.max(b)
    }

    fn wide_above(a: f64, b: f64) -> bool {
        a > b
    }

    fn wide_at_most(a: f64, b: f64) -> bool {
        a <= b
    }
}

const NOBODY: Actor = Actor { index: 0, actor_type: 0, parent_index: 0, parent_actor_type: 0 };

fn event(damage: i32, details: Option<DamageDetails<f32>>) -> DamageEvent<f32> {
    DamageEvent {
        source: NOBODY,
        target: NOBODY,
        action_id: ActionType::Normal(1),
        damage,
        flags: 0,
        attack_rate: None,
        stun_value: None,
        damage_cap: None,
        details,
    }
}

fn status(
    name: &str,
    kind: DamageModifierKind,
    category: i32,
    value: f32,
) -> RawDamageStatusContribution<f32> {
    RawDamageStatusContribution { status_name: name.to_string(), kind, category, value }
}

fn neutral_details(uncapped_damage: f32, damage_cap: i32) -> DamageDetails<f32> {
    DamageDetails {
        elemental_multiplier: 0.0,
        amplify_multiplier: 1.0,
        defense_multiplier: 1.0,
        attack_multiplier: 1.0,
        supplementary_multiplier: 1.0,
        formula_multiplier: 1.0,
        attack_rate: 1.0,
        uncapped_damage,
        damage_cap,
        damage_limit_multiplier: 1.0,
        statuses: Vec::new(),
    }
}

#[test]
fn updating_from_damage_event() {
    let mut skill_state: SkillState<Ieee, &str> =
        SkillState::new(ActionType::Normal(1), "Pl0000");
    let damage_event = event(100, None);
    let damage_event_two = event(1999, None);

    skill_state.update_from_damage_event(&AdjustedDamageInstance {
        event: &damage_event,
        stun_damage: 0.0,
    });
    skill_state.update_from_damage_event(&AdjustedDamageInstance {
        event: &damage_event_two,
        stun_damage: 0.0,
    });

    assert_eq!(skill_state.hits, 2);
    assert_eq!(skill_state.min_damage, Some(100));
    assert_eq!(skill_state.max_damage, Some(1999));
    assert_eq!(skill_state.total_damage, 2099);
}

#[test]
fn effective_multiplier_weights_hits_by_normalization_damage() {
    let first = neutral_details(100.0, 100);
    let second = neutral_details(300.0, 300);

    let mut average: AverageDamageDetails<Ieee> = AverageDamageDetails::new(&first, 100);
    average.update(&second, 600);

    // (100 + 600) / (100 + 300) = 1.75. Averaging the two
    // per-hit multipliers would incorrectly produce (1 + 2) / 2 = 1.5.
    assert!((average.effective_multiplier - 1.75).abs() < 0.0001);
    assert!((average.unattributed_contribution - 0.75).abs() < 0.0001);
}

#[test]
fn attack_and_target_defense_contributions_are_separated_by_stage() {
    let details = DamageDetails {
        elemental_multiplier: 0.0,
        amplify_multiplier: 1.0,
        defense_multiplier: 1.7875,
        attack_multiplier: 1.43,
        supplementary_multiplier: 1.0,
        formula_multiplier: 1.39375,
        attack_rate: 1.0,
        uncapped_damage: 100.0,
        damage_cap: 100,
        damage_limit_multiplier: 1.0,
        statuses: vec![
            status("StatusAttackBuff", DamageModifierKind::Attack, 0, 0.43),
            status("StatusDeffenceDebuff", DamageModifierKind::Defense, 4, 0.15),
            status("StatusStackableDeffenceDebuff", DamageModifierKind::Defense, 4, 0.10),
        ],
    };

    let contributions = status_multiplier_contributions::<Ieee>(&details, 0.39375);
    let contribution = |name: &str| {
        contributions.iter().find(|entry| entry.status_name == name).map(|entry| entry.value).unwrap()
    };

    assert!((contribution("StatusAttackBuff") - 0.215).abs() < 0.0001);
    assert!((contribution("StatusDeffenceDebuff") - 0.10725).abs() < 0.0001);
    assert!((contribution("StatusStackableDeffenceDebuff") - 0.0715).abs() < 0.0001);
}

#[test]
fn damage_details_use_a_weighted_effective_multiplier() {
    let first = DamageDetails {
        elemental_multiplier: 0.33,
        amplify_multiplier: 1.1,
        defense_multiplier: 1.0,
        attack_multiplier: 1.0,
        supplementary_multiplier: 1.0,
        formula_multiplier: 1.43,
        attack_rate: 1.0,
        uncapped_damage: 249_755.0,
        damage_cap: 249_755,
        damage_limit_multiplier: 1.3,
        statuses: vec![
            status("StatusDamageLimitBuff", DamageModifierKind::DamageLimit, 0, 0.3),
            status("StatusAmplifyDamageBuff", DamageModifierKind::Amplify, 0, 0.1),
        ],
    };
    let second = DamageDetails {
        elemental_multiplier: 0.33,
        amplify_multiplier: 0.6,
        defense_multiplier: 1.23,
        attack_multiplier: 1.23,
        supplementary_multiplier: 1.0,
        formula_multiplier: 0.895,
        attack_rate: 1.0,
        uncapped_damage: 249_755.0,
        damage_cap: 249_755,
        damage_limit_multiplier: 1.3,
        statuses: vec![
            status("StatusDamageLimitBuff", DamageModifierKind::DamageLimit, 0, 0.3),
            status("StatusAmplifyDamageBuff", DamageModifierKind::Amplify, 0, 0.1),
            status("StatusAmplifyDamageDebuff", DamageModifierKind::Amplify, 1, 0.5),
            status("StatusAttackBuff", DamageModifierKind::Attack, 0, 0.23),
        ],
    };

    let mut average: AverageDamageDetails<Ieee> = AverageDamageDetails::new(&first, 357_149);
    average.update(&second, 223_529);

    assert_eq!(average.hits, 2);
    assert_eq!(average.total_damage, 580_678);
    assert_eq!(average.normalization_damage, 499_510.0);
    assert!((average.effective_multiplier - 1.16249).abs() < 0.0001);
    assert!((average.recognized_multiplier - 1.1625).abs() < 0.0001);
    assert!((average.damage_limit_contribution - 0.3).abs() < 0.0001);
    assert!((average.amplify_contribution + 0.195).abs() < 0.0001);
    assert!((average.attack_defense_contribution - 0.0575).abs() < 0.0001);
    assert!(average.unattributed_contribution.abs() < 0.0001);
    assert_eq!(average.capped_hits, 2);

    let attack = average
        .statuses
        .iter()
        .find(|status| status.kind == DamageModifierKind::Attack)
        .unwrap();
    assert_eq!(attack.active_hits, 1);
    assert!((attack.average_value - 0.115).abs() < 0.0001);
    assert!((attack.multiplier_contribution - 0.0575).abs() < 0.0001);

    let damage_limit = average
        .statuses
        .iter()
        .find(|status| status.kind == DamageModifierKind::DamageLimit)
        .unwrap();
    assert_eq!(damage_limit.active_hits, 2);
    assert!((damage_limit.average_value - 0.3).abs() < 0.0001);
    assert!((damage_limit.multiplier_contribution - 0.3).abs() < 0.0001);

    let flight_over_fight = average
        .statuses
        .iter()
        .find(|status| status.status_name == "StatusAmplifyDamageDebuff")
        .unwrap();
    assert_eq!(flight_over_fight.active_hits, 1);
    assert!((flight_over_fight.average_value + 0.25).abs() < 0.0001);
    assert!((flight_over_fight.multiplier_contribution + 0.325).abs() < 0.0001);

    average.add_supplementary_damage(49_951);
    assert_eq!(average.supplementary_damage, 49_951);
    assert!((average.supplementary_contribution - 0.1).abs() < 0.0001);
    assert!((average.effective_multiplier - 1.26249).abs() < 0.0001);
    assert!((average.recognized_multiplier - 1.2625).abs() < 0.0001);
}

#[test]
fn a_new_skill_has_done_nothing() {
    let state: SkillState<Ieee, u8> = SkillState::new(ActionType::SBA, 3);

    assert_eq!(state.action_type, ActionType::SBA);
    assert_eq!(state.child_character_type, 3);
    assert_eq!(state.hits, 0);
    assert_eq!(state.min_damage, None);
    assert_eq!(state.max_damage, None);
    assert_eq!(state.total_damage, 0);
    assert_eq!(state.max_stun_value, 0.0);
    assert_eq!(state.total_stun_value, 0.0);
    assert!(state.damage_details.is_none());
}

#[test]
fn details_are_averaged_over_the_hits_that_have_them() {
    let mut state: SkillState<Ieee, u8> = SkillState::new(ActionType::Normal(1), 0);
    let detailed = event(200, Some(neutral_details(100.0, 0)));
    let plain = event(50, None);
    for (event, stun_damage) in [(&detailed, 1.5), (&plain, 4.0), (&detailed, 2.0)] {
        state.update_from_damage_event(&AdjustedDamageInstance { event, stun_damage });
    }

    assert_eq!(state.hits, 3);
    assert_eq!(state.total_damage, 450);
    assert_eq!(state.min_damage, Some(50));
    assert_eq!(state.max_damage, Some(200));
    assert_eq!(state.max_stun_value, 4.0);
    assert_eq!(state.total_stun_value, 7.5);
    let average = state.damage_details.as_ref().unwrap();
    assert_eq!(average.hits, 2);
    assert_eq!(average.total_damage, 400);
    assert_eq!(average.effective_multiplier, 2.0);

    state.add_supplementary_damage(100);
    let average = state.damage_details.as_ref().unwrap();
    assert_eq!(average.supplementary_damage, 100);
    assert_eq!(average.effective_multiplier, 2.5);
    assert_eq!(average.supplementary_contribution, 0.5);
    assert_eq!(state.total_damage, 450);
}

#[test]
fn supplementary_skills_keep_no_details() {
    let mut state: SkillState<Ieee, u8> =
        SkillState::new(ActionType::SupplementaryDamage(1), 0);
    let detailed = event(200, Some(neutral_details(100.0, 0)));

    state.update_from_damage_event(&AdjustedDamageInstance { event: &detailed, stun_damage: 0.0 });
    state.add_supplementary_damage(10);

    assert_eq!(state.hits, 1);
    assert!(state.damage_details.is_none());
}

#[test]
fn supplementary_damage_in_parts_counts_as_one() {
    let average = || -> AverageDamageDetails<Ieee> {
        AverageDamageDetails::new(&neutral_details(100.0, 0), 150)
    };
    let mut parts = average();
    parts.add_supplementary_damage(20);
    parts.add_supplementary_damage(30);
    let mut whole = average();
    whole.add_supplementary_damage(50);

    assert_eq!(parts.supplementary_damage, 50);
    assert_eq!(parts.effective_multiplier, 2.0);
    assert_eq!(parts.effective_multiplier, whole.effective_multiplier);
    assert_eq!(parts.supplementary_contribution, whole.supplementary_contribution);
    assert_eq!(parts.recognized_multiplier, whole.recognized_multiplier);
    assert_eq!(parts.unattributed_contribution, whole.unattributed_contribution);
}

#[test]
fn the_parts_of_the_multiplier_add_up() {
    let mut average: AverageDamageDetails<Ieee> = AverageDamageDetails::new(
        &DamageDetails {
            damage_limit_multiplier: 1.5,
            formula_multiplier: 1.5,
            ..neutral_details(100.0, 0)
        },
        175,
    );
    average.update(&neutral_details(300.0, 0), 600);
    let sum = |a: &AverageDamageDetails<Ieee>| {
        1.0 + a.damage_limit_contribution
            + a.amplify_contribution
            + a.attack_defense_contribution
            + a.supplementary_contribution
    };
    assert_eq!(average.recognized_multiplier, sum(&average));
    assert_eq!(
        average.unattributed_contribution,
        average.effective_multiplier - average.recognized_multiplier
    );

    average.add_supplementary_damage(100);
    assert_eq!(average.recognized_multiplier, sum(&average));
    assert_eq!(
        average.unattributed_contribution,
        average.effective_multiplier - average.recognized_multiplier
    );
    // (175 + 600 + 100) / (100 + 300)
    assert_eq!(average.effective_multiplier, 2.1875);
}

#[test]
fn a_hit_without_a_base_has_no_multiplier() {
    let mut average: AverageDamageDetails<Ieee> =
        AverageDamageDetails::new(&neutral_details(0.0, 0), 150);
    assert_eq!(average.effective_multiplier, 0.0);
    assert_eq!(average.normalization_damage, 0.0);

    average.add_supplementary_damage(50);
    assert_eq!(average.supplementary_damage, 50);
    assert_eq!(average.effective_multiplier, 0.0);
}

#[test]
fn a_base_at_the_cap_is_capped() {
    let capped = |base: f32, cap: i32| {
        let details = neutral_details(base, cap);
        let base = normalization_base::<Ieee>(&details);
        is_capped_hit::<Ieee>(&details, base)
    };
    assert!(capped(100.0, 100));
    assert!(!capped(99.0, 100));
    assert!(!capped(99.0, 0));
}

#[test]
fn debuffs_count_against_the_kind_they_lower() {
    let signed = |kind, category| signed_status_value::<Ieee>(kind, category, 0.5);
    assert_eq!(signed(DamageModifierKind::Attack, 0), 0.5);
    assert_eq!(signed(DamageModifierKind::Attack, 3), -0.5);
    assert_eq!(signed(DamageModifierKind::Amplify, 0), 0.5);
    assert_eq!(signed(DamageModifierKind::Amplify, 1), -0.5);
    assert_eq!(signed(DamageModifierKind::DamageLimit, 3), 0.5);
}

#[test]
fn negative_damage_wraps_into_a_count() {
    assert_eq!(count_damage(7), 7);
    assert_eq!(count_damage(-1), u64::MAX);
    assert_eq!(count_damage(i32::MIN), 0xFFFF_FFFF_8000_0000);
}

#[test]
fn figures_are_those_of_all_hits() {
    let hits = [(100.0f32, 150u64), (300.0, 450), (50.0, 75)];
    let mut average: AverageDamageDetails<Ieee> =
        AverageDamageDetails::new(&neutral_details(hits[0].0, 0), hits[0].1);
    assert_eq!(average.effective_multiplier, 1.5);
    for (base, damage) in &hits[1..] {
        average.update(&neutral_details(*base, 0), *damage);
    }
    assert_eq!(average.hits, 3);
    assert_eq!(average.total_damage, 675);
    assert_eq!(average.supplementary_damage, 0);
    assert_eq!(average.normalization_damage, 450.0);
    assert_eq!(average.capped_hits, 0);
    assert_eq!(average.effective_multiplier, 1.5);
    average.update(&neutral_details(500.0, 100), 225);
    assert_eq!(average.capped_hits, 1);
    assert_eq!(average.normalization_damage, 550.0);
    assert!(average.is_well_formed());
}

#[test]
fn figures_are_those_of_all_events() {
    let mut state: SkillState<Ieee, u8> = SkillState::new(ActionType::Normal(1), 0);
    for (damage, stun_damage) in [(50, 2.0), (20, 7.5), (90, 0.5)] {
        let hit = event(damage, None);
        state.update_from_damage_event(&AdjustedDamageInstance { event: &hit, stun_damage });
    }
    assert_eq!(state.hits, 3);
    assert_eq!(state.total_damage, 160);
    assert_eq!(state.min_damage, Some(20));
    assert_eq!(state.max_damage, Some(90));
    assert_eq!(state.max_stun_value, 7.5);
    assert_eq!(state.total_stun_value, 10.0);
    assert!(state.damage_details.is_none());
    assert!(state.is_well_formed());
}

#[test]
fn supplementary_damage_is_no_hit() {
    let mut average: AverageDamageDetails<Ieee> =
        AverageDamageDetails::new(&neutral_details(100.0, 50), 150);
    average.update(&neutral_details(100.0, 0), 150);
    let limit = average.damage_limit_contribution;
    average.add_supplementary_damage(150);
    assert_eq!(average.hits, 2);
    assert_eq!(average.total_damage, 300);
    assert_eq!(average.normalization_damage, 150.0);
    assert_eq!(average.capped_hits, 1);
    assert_eq!(average.damage_limit_contribution, limit);
    assert_eq!(average.supplementary_contribution, 1.0);
    assert_eq!(average.effective_multiplier, 3.0);
}

#[test]
fn supplementary_damage_without_a_base_changes_no_multiplier() {
    let mut average: AverageDamageDetails<Ieee> =
        AverageDamageDetails::new(&neutral_details(0.0, 0), 150);
    let before = (average.effective_multiplier, average.recognized_multiplier);
    average.add_supplementary_damage(30);
    assert_eq!(average.normalization_damage, 0.0);
    assert_eq!(average.supplementary_damage, 30);
    assert_eq!(average.supplementary_contribution, 0.0);
    assert_eq!((average.effective_multiplier, average.recognized_multiplier), before);
}

#[test]
fn statistics_that_contradict_themselves_are_not_well_formed() {
    let sound = || -> SkillState<Ieee, u8> {
        let mut state = SkillState::new(ActionType::Normal(1), 0);
        let mut details = neutral_details(100.0, 0);
        details.statuses.push(status("StatusA", DamageModifierKind::Attack, 1, 0.5));
        details.statuses.push(status("StatusA", DamageModifierKind::Attack, 2, 0.5));
        let hit = event(50, Some(details));
        state.update_from_damage_event(&AdjustedDamageInstance { event: &hit, stun_damage: 0.0 });
        state
    };
    assert!(sound().is_well_formed());
    let broken = |change: fn(&mut SkillState<Ieee, u8>)| {
        let mut state = sound();
        change(&mut state);
        state.is_well_formed()
    };
    assert!(!broken(|state| state.min_damage = Some(51)));
    assert!(!broken(|state| state.max_damage = None));
    assert!(!broken(|state| state.damage_details.as_mut().unwrap().capped_hits = 2));
    assert!(!broken(|state| state.damage_details.as_mut().unwrap().statuses[0].active_hits = 0));
    assert!(!broken(|state| state.damage_details.as_mut().unwrap().statuses[0].active_hits = 2));
    assert!(!broken(|state| state.damage_details.as_mut().unwrap().statuses[1].category = 1));
}

#[test]
fn the_base_is_clamped_once_and_for_all() {
    let base = |damage: f32, cap: i32| normalization_base::<Ieee>(&neutral_details(damage, cap));
    for damage in [f32::NAN, f32::INFINITY, f32::NEG_INFINITY, -5.0, 0.0] {
        assert_eq!(base(damage, 0), 0.0);
        assert_eq!(base(damage, 100), 0.0);
    }
    assert_eq!(base(250.0, 100), 100.0);
    assert_eq!(base(50.0, 100), 50.0);
    assert_eq!(base(250.0, -1), 250.0);
    for (damage, cap) in [(250.0, 100), (50.0, 100), (250.0, 0), (f32::NAN, 7)] {
        let once = base(damage, cap);
        assert_eq!(base(once, cap), once);
    }
}
