use std::cell::Cell;

use gbfr_logs::arithmetic::Arithmetic;
use gbfr_logs::hooks::damage_details::{
    attack_multiplier_hook, attack_only_multiplier, begin_damage, build_damage_details,
    calculate_formula_multiplier, clamped_base_damage, collect_attack, collect_defense,
    defense_status_hook, finish_damage, grouped_protocol_statuses, merge_damage_statuses,
    note_attack, note_defense, read_raw_fields, setup, AttackCall,
    AttackMultiplierProbe, DamageProbe, DamageProbes, DefenseStatusProbe, RawDamageFields,
    ATTACK_MULTIPLIER_RVA, DAMAGE_INSTANCE_BYTES, DEFENSE_STATUS_RVA,
};
use gbfr_logs::hooks::status_collection::{
    collect_status_contributions, Request, StatusCalls, StatusContributionProbe,
};
use gbfr_logs::hooks::status_layout::{LayoutCache, StatusInterface};
use gbfr_logs::hooks::HookError;
use gbfr_logs::memory::Memory;
use gbfr_logs::process::Process;
use gbfr_logs::protocol::DamageModifierKind;

/// Arithmetic in `f32` and `f64`.
struct Ieee;

impl Arithmetic for Ieee {
    type Single = f32;
    type Double = f64;

    fn from_bits(bits: u32) -> f32 {
        f32::from_bits(bits)
    }

    fn from_u64(value: u64) -> f32 {
        value as f32
    }

    fn from_u32(value: u32) -> f32 {
        value as f32
    }

    fn from_i32(value: i32) -> f32 {
        value as f32
    }

    fn zero() -> f32 {
        0.0
    }

    fn half() -> f32 {
        0.5
    }

    fn one() -> f32 {
        1.0
    }

    fn hundred() -> f32 {
        100.0
    }

    fn epsilon() -> f32 {
        f32::EPSILON
    }

    fn plus(a: f32, b: f32) -> f32 {
        a + b
    }

    fn minus(a: f32, b: f32) -> f32 {
        a - b
    }

    fn times(a: f32, b: f32) -> f32 {
        a * b
    }

    fn divided(a: f32, b: f32) -> f32 {
        a / b
    }

    fn negated(a: f32) -> f32 {
        -a
    }

    fn magnitude(a: f32) -> f32 {
        a.abs()
    }

    fn larger(a: f32, b: f32) -> f32 {
        a.max(b)
    }

    fn smaller(a: f32, b: f32) -> f32 {
        a.min(b)
    }

    fn is_finite(a: f32) -> bool {
        a.is_finite()
    }

    fn above(a: f32, b: f32) -> bool {
        a > b
    }

    fn below(a: f32, b: f32) -> bool {
        a < b
    }

    fn at_most(a: f32, b: f32) -> bool {
        a <= b
    }

    fn widened(a: f32) -> f64 {
        f64::from(a)
    }

    fn narrowed(a: f64) -> f32 {
        a as f32
    }

    fn wide_from_u64(value: u64) -> f64 {
        value as f64
    }

    fn wide_zero() -> f64 {
        0.0
    }

    fn wide_plus(a: f64, b: f64) -> f64 {
        a + b
    }

    fn wide_times(a: f64, b: f64) -> f64 {
        a * b
    }

    fn wide_divided(a: f64, b: f64) -> f64 {
        a / b
    }

    fn wide_larger(a: f64, b: f64) -> f64 {
        a.max(b)
    }

    fn wide_above(a: f64, b: f64) -> bool {
        a > b
    }

    fn wide_at_most(a: f64, b: f64) -> bool {
        a <= b
    }
}

fn no_fields() -> RawDamageFields<f32> {
    RawDamageFields {
        damage: 0,
        candidate_d8: 0.0,
        flags: 0,
        candidate_154: 0.0,
        action_id: 0,
        candidate_2b8: 0,
        damage_cap: 0,
        uncapped_damage: 0.0,
        elemental_multiplier: 0.0,
    }
}

fn contribution(
    class_name: &str,
    interface: StatusInterface,
    category: i32,
    value: f32,
) -> StatusContributionProbe<f32> {
    StatusContributionProbe { class_name: class_name.to_string(), interface, category, value }
}

fn copied(c: &StatusContributionProbe<f32>) -> StatusContributionProbe<f32> {
    contribution(&c.class_name, c.interface, c.category, c.value)
}

#[test]
fn effective_formula_uses_native_attack_defense_result() {
    let result = calculate_formula_multiplier::<Ieee>(1.3, 0.6, 1.23);
    assert!((result - 0.895).abs() < 0.0001);
}

#[test]
fn clamped_base_applies_floor_then_cap() {
    let fields = RawDamageFields {
        uncapped_damage: 80.0,
        candidate_2b8: 100,
        damage_cap: 90,
        ..no_fields()
    };

    assert_eq!(clamped_base_damage::<Ieee>(fields), 90.0);
}

#[test]
fn a_floor_or_a_cap_that_is_not_positive_does_not_clamp() {
    let base = |uncapped: f32, floor: i32, cap: i32| {
        clamped_base_damage::<Ieee>(RawDamageFields {
            uncapped_damage: uncapped,
            candidate_2b8: floor,
            damage_cap: cap,
            ..no_fields()
        })
    };

    assert_eq!(base(80.0, 0, 0), 80.0);
    assert_eq!(base(80.0, -5, -5), 80.0);
    assert_eq!(base(80.0, 100, 0), 100.0);
    assert_eq!(base(80.0, 0, 70), 70.0);
    assert_eq!(base(f32::NAN, 0, 70), 0.0);
    assert_eq!(base(-3.0, 0, 70), 0.0);
}

#[test]
fn duplicate_statuses_are_compacted_before_persisting() {
    let statuses = vec![
        contribution("StatusAttackBuff", StatusInterface::Attack, 0, 0.1),
        contribution("StatusAttackBuff", StatusInterface::Attack, 0, 0.13),
    ];

    let compacted = grouped_protocol_statuses::<Ieee>(statuses);
    assert_eq!(compacted.len(), 1);
    assert!((compacted[0].value - 0.23).abs() < 0.0001);
}

#[test]
fn statuses_with_another_kind_or_category_stay_apart() {
    let statuses = vec![
        contribution("B", StatusInterface::Defense, 4, 1.0),
        contribution("A", StatusInterface::Attack, 0, 2.0),
        contribution("B", StatusInterface::Defense, 0, 4.0),
        contribution("B", StatusInterface::Attack, 4, 8.0),
        contribution("B", StatusInterface::Defense, 4, 16.0),
    ];

    let compacted = grouped_protocol_statuses::<Ieee>(statuses);
    let shown: Vec<(String, DamageModifierKind, i32, f32)> = compacted
        .into_iter()
        .map(|status| (status.status_name, status.kind, status.category, status.value))
        .collect();
    assert_eq!(
        shown,
        [
            ("B".to_string(), DamageModifierKind::Defense, 4, 17.0),
            ("A".to_string(), DamageModifierKind::Attack, 0, 2.0),
            ("B".to_string(), DamageModifierKind::Defense, 0, 4.0),
            ("B".to_string(), DamageModifierKind::Attack, 4, 8.0),
        ]
    );
}

#[test]
fn attacker_defense_statuses_are_not_persisted_as_damage_effects() {
    let attacker_statuses = vec![
        contribution("StatusAttackBuff", StatusInterface::Attack, 0, 0.43),
        contribution("StatusDeffenceBuff", StatusInterface::Defense, 0, 0.18),
    ];
    let target_statuses =
        vec![contribution("StatusDeffenceDebuff", StatusInterface::Defense, 4, 0.15)];

    let merged = merge_damage_statuses(&attacker_statuses, &target_statuses);
    assert_eq!(merged.len(), 2);
    assert!(merged.iter().all(|status| status.class_name != "StatusDeffenceBuff"));
    assert!(merged.iter().any(|status| status.class_name == "StatusDeffenceDebuff"));
}

#[test]
fn attack_alone_ignores_everything_but_attack() {
    let statuses = vec![
        contribution("Up", StatusInterface::Attack, 0, 0.5),
        contribution("More", StatusInterface::Attack, 1, 0.25),
        contribution("Most", StatusInterface::Attack, 2, 0.25),
        contribution("Down", StatusInterface::Attack, 3, 0.25),
        contribution("Less", StatusInterface::Attack, 4, 0.25),
        contribution("Odd", StatusInterface::Attack, 5, 8.0),
        contribution("Unknown", StatusInterface::Attack, -1, 8.0),
        contribution("Cap", StatusInterface::DamageLimit, 0, 3.0),
    ];

    // (1 - 0.25 - 0.25) * (0.25 + 1 + 0.5 + 0.25)
    assert_eq!(attack_only_multiplier::<Ieee>(&statuses), 1.0);
    assert_eq!(attack_only_multiplier::<Ieee>(&statuses[..2].iter().map(copied).collect()), 1.75);
    let crushed = vec![contribution("Down", StatusInterface::Attack, 3, 1.5)];
    assert_eq!(attack_only_multiplier::<Ieee>(&crushed), 0.0);
    assert_eq!(attack_only_multiplier::<Ieee>(&Vec::new()), 1.0);
}

fn instance_bytes() -> Vec<u8> {
    let mut bytes = vec![0u8; DAMAGE_INSTANCE_BYTES];
    let mut put = |offset: usize, value: &[u8]| {
        bytes[offset..offset + value.len()].copy_from_slice(value);
    };
    put(0xD4, &(-7i32).to_le_bytes());
    put(0xD8, &1.5f32.to_le_bytes());
    put(0xE8, &0x8000_0000_0000_0001u64.to_le_bytes());
    put(0x154, &2.5f32.to_le_bytes());
    put(0x16C, &42u32.to_le_bytes());
    put(0x2B8, &11i32.to_le_bytes());
    put(0x2BC, &900i32.to_le_bytes());
    put(0x2D4, &800.0f32.to_le_bytes());
    put(0x2D8, &0.25f32.to_le_bytes());
    bytes
}

#[test]
fn the_fields_of_an_instance_lie_at_fixed_offsets() {
    let bytes = instance_bytes();
    let fields = read_raw_fields::<Ieee>(Some(&bytes));

    assert_eq!(fields.damage, -7);
    assert_eq!(fields.candidate_d8, 1.5);
    assert_eq!(fields.flags, 0x8000_0000_0000_0001);
    assert_eq!(fields.candidate_154, 2.5);
    assert_eq!(fields.action_id, 42);
    assert_eq!(fields.candidate_2b8, 11);
    assert_eq!(fields.damage_cap, 900);
    assert_eq!(fields.uncapped_damage, 800.0);
    assert_eq!(fields.elemental_multiplier, 0.25);
    assert_eq!(read_raw_fields::<Ieee>(None).flags, 0);
}

fn attack_probe(
    result: f32,
    statuses: Vec<StatusContributionProbe<f32>>,
) -> AttackMultiplierProbe<f32> {
    AttackMultiplierProbe {
        status: 1,
        target: 2,
        factor_x2: 0.0,
        factor_x3: 0.0,
        lower_bound: 0.0,
        reduction_floor: 0.0,
        context: 3,
        result,
        statuses,
    }
}

#[test]
fn a_hit_is_resolved_from_its_first_aggregations() {
    let probe = DamageProbe {
        address: 1,
        before: no_fields(),
        attacks: vec![
            attack_probe(
                1.5,
                vec![
                    contribution("Attack", StatusInterface::Attack, 0, 0.25),
                    contribution("Limit", StatusInterface::DamageLimit, 0, 0.5),
                    contribution("Up", StatusInterface::Amplify, 0, 0.75),
                    contribution("Down", StatusInterface::Amplify, 1, 0.25),
                    contribution("Own", StatusInterface::Defense, 0, 9.0),
                ],
            ),
            attack_probe(9.0, vec![contribution("Late", StatusInterface::Attack, 0, 9.0)]),
        ],
        defenses: vec![DefenseStatusProbe {
            status: 1,
            context: 2,
            buckets: [0.0; 7],
            statuses: vec![contribution("Weak", StatusInterface::Defense, 4, 0.125)],
        }],
    };
    let after = RawDamageFields {
        candidate_d8: 2.0,
        damage_cap: 500,
        uncapped_damage: 600.0,
        elemental_multiplier: 0.5,
        ..no_fields()
    };

    let details = build_damage_details::<Ieee>(&probe, after);

    assert_eq!(details.attack_multiplier, 1.25);
    assert_eq!(details.damage_limit_multiplier, 1.5);
    assert_eq!(details.amplify_multiplier, 1.5);
    assert_eq!(details.defense_multiplier, 1.5);
    assert_eq!(details.supplementary_multiplier, 1.0);
    assert_eq!(
        details.formula_multiplier,
        calculate_formula_multiplier::<Ieee>(1.5, 1.5, 1.5)
    );
    assert_eq!(details.elemental_multiplier, 0.5);
    assert_eq!(details.attack_rate, 2.0);
    assert_eq!(details.uncapped_damage, 500.0);
    assert_eq!(details.damage_cap, 500);
    let names: Vec<&str> = details.statuses.iter().map(|s| s.status_name.as_str()).collect();
    assert_eq!(names, ["Attack", "Limit", "Up", "Down", "Weak"]);
}

#[test]
fn a_hit_without_aggregations_has_neutral_multipliers() {
    let probe =
        DamageProbe { address: 1, before: no_fields(), attacks: Vec::new(), defenses: Vec::new() };
    let after = RawDamageFields {
        candidate_d8: f32::INFINITY,
        elemental_multiplier: f32::NAN,
        ..no_fields()
    };

    let details = build_damage_details::<Ieee>(&probe, after);

    assert_eq!(details.attack_multiplier, 1.0);
    assert_eq!(details.defense_multiplier, 1.0);
    assert_eq!(details.attack_rate, 0.0);
    assert_eq!(details.elemental_multiplier, 0.0);
    assert!(details.statuses.is_empty());
}

/// A game whose memory holds a few byte ranges and whose getters at addresses
/// from `0xF000` on give that address's distance in sixteenths.
struct Game {
    regions: Vec<(u64, Vec<u8>)>,
    applies: bool,
    calls: Cell<usize>,
    reads: Cell<usize>,
}

impl Game {
    fn put(&mut self, address: u64, bytes: &[u8]) {
        self.regions.push((address, bytes.to_vec()));
    }
}

impl Memory for Game {
    fn read_memory(&self, address: u64, length: usize) -> Option<Vec<u8>> {
        self.reads.set(self.reads.get() + 1);
        for (start, bytes) in &self.regions {
            if address >= *start && address + length as u64 <= *start + bytes.len() as u64 {
                let from = (address - *start) as usize;
                return Some(bytes[from..from + length].to_vec());
            }
        }
        None
    }
}

impl StatusCalls<Ieee> for Game {
    fn defense_applies(&self, function: u64, _interface: u64, target: u64, context: u64) -> bool {
        assert_eq!(function, 0xE000);
        assert_eq!(target, 0x7777);
        assert_eq!(context, 0x5555);
        self.applies
    }

    fn status_value(&self, function: u64, _interface: u64, context: u64) -> f32 {
        assert_eq!(context, 0x5555);
        self.calls.set(self.calls.get() + 1);
        if function == 0xFFFF {
            f32::NAN
        } else {
            (function - 0xF000) as f32 / 16.0
        }
    }
}

const BASE: u64 = 0x10_0000;

fn class_text(name: &str) -> Vec<u8> {
    let mut bytes = vec![0u8; 0x200];
    bytes[..name.len()].copy_from_slice(name.as_bytes());
    bytes
}

/// A game with one status manager at `0x1000`. Its list names the status at
/// `0x3000` twice, a null pointer and the status at `0x4000`, whose class
/// cannot be read.
fn game() -> Game {
    let mut game =
        Game { regions: Vec::new(), applies: true, calls: Cell::new(0), reads: Cell::new(0) };
    game.put(0x1018, &0x2000u64.to_le_bytes());
    game.put(0x1020, &0x2020u64.to_le_bytes());
    for (i, address) in [0x3000u64, 0, 0x3000, 0x4000].iter().enumerate() {
        game.put(0x2000 + 8 * i as u64, &address.to_le_bytes());
    }
    // The status: its own table, and two interfaces.
    game.put(0x3000, &0x5000u64.to_le_bytes());
    game.put(0x3010, &0x6000u64.to_le_bytes());
    game.put(0x3020, &0x7000u64.to_le_bytes());
    game.put(0x4000, &0x9000u64.to_le_bytes());
    // The attack interface: category, getter.
    game.put(0x6000 - 0x0C, &3i32.to_le_bytes());
    game.put(0x6008, &0xF004u64.to_le_bytes());
    // The defense interface: getter and predicate, no category.
    game.put(0x7008, &0xF008u64.to_le_bytes());
    game.put(0x7018, &0xE000u64.to_le_bytes());
    // The class: locator, hierarchy, three base classes.
    game.put(0x5000 - 8, &0x8000u64.to_le_bytes());
    game.put(0x8000, &1u32.to_le_bytes());
    game.put(0x8010, &0x100u32.to_le_bytes());
    game.put(BASE + 0x108, &3u32.to_le_bytes());
    game.put(BASE + 0x10C, &0x200u32.to_le_bytes());
    let classes = [
        (".?AVStatusTest@@", 0i32),
        (".?AVIStatusAttackBuff@@", 0x10),
        (".?AVIStatusDeffenceBuff@@", 0x20),
    ];
    for (i, (name, offset)) in classes.iter().enumerate() {
        let i = i as u64;
        let descriptor = 0x300 + 0x20 * i;
        let type_rva = 0x1000 + 0x1000 * i;
        game.put(BASE + 0x200 + 4 * i, &(descriptor as u32).to_le_bytes());
        game.put(BASE + descriptor, &(type_rva as u32).to_le_bytes());
        game.put(BASE + descriptor + 8, &offset.to_le_bytes());
        game.put(BASE + type_rva + 0x10, &class_text(name));
    }
    game
}

fn shown(found: &[StatusContributionProbe<f32>]) -> Vec<(&str, StatusInterface, i32, f32)> {
    found
        .iter()
        .map(|c| (c.class_name.as_str(), c.interface, c.category, c.value))
        .collect()
}

#[test]
fn the_interfaces_of_active_statuses_contribute() {
    let game = game();
    let mut cache = LayoutCache::new(Some(BASE));
    let request = Request { context: 0x5555, defense_target: None, only_interface: None };

    let found = collect_status_contributions::<Ieee, Game>(&game, &mut cache, 0x1000, &request);

    assert_eq!(
        shown(&found),
        [
            ("StatusTest", StatusInterface::Attack, 3, 0.25),
            ("StatusTest", StatusInterface::Defense, -1, 0.5),
        ]
    );
    // Each status is asked once although the list names it twice.
    assert_eq!(game.calls.get(), 2);

    // The layout is not read again: twelve reads go to the manager, the list,
    // the statuses and the interfaces, the rest to the class without a layout.
    let before = game.reads.get();
    let again = collect_status_contributions::<Ieee, Game>(&game, &mut cache, 0x1000, &request);
    assert_eq!(shown(&again), shown(&found));
    assert!(game.reads.get() - before < before);
    let nothing = collect_status_contributions::<Ieee, Game>(&game, &mut cache, 0, &request);
    assert!(nothing.is_empty());
}

#[test]
fn only_a_wanted_interface_that_applies_contributes() {
    let mut game = game();
    let mut cache = LayoutCache::new(Some(BASE));
    let request = Request {
        context: 0x5555,
        defense_target: Some(0x7777),
        only_interface: Some(StatusInterface::Defense),
    };

    let found = collect_status_contributions::<Ieee, Game>(&game, &mut cache, 0x1000, &request);
    assert_eq!(shown(&found), [("StatusTest", StatusInterface::Defense, -1, 0.5)]);

    game.applies = false;
    let found = collect_status_contributions::<Ieee, Game>(&game, &mut cache, 0x1000, &request);
    assert!(found.is_empty());
}

#[test]
fn implausible_values_and_unknown_modules_contribute_nothing() {
    let mut broken = game();
    for (address, bytes) in broken.regions.iter_mut() {
        if *address == 0x6008 {
            *bytes = 0xFFFFu64.to_le_bytes().to_vec();
        }
        if *address == 0x7008 {
            *bytes = (0xF000u64 + 16 * 101).to_le_bytes().to_vec();
        }
    }
    let request = Request { context: 0x5555, defense_target: None, only_interface: None };
    let mut cache = LayoutCache::new(Some(BASE));
    let found = collect_status_contributions::<Ieee, Game>(&broken, &mut cache, 0x1000, &request);
    assert!(found.is_empty());

    let mut lost = LayoutCache::new(None);
    let found = collect_status_contributions::<Ieee, Game>(&game(), &mut lost, 0x1000, &request);
    assert!(found.is_empty());
}

/// The interfaces of the test status after `change` has been at its class.
fn interfaces_after(change: impl Fn(u64, &mut Vec<u8>)) -> Vec<StatusInterface> {
    let mut game = game();
    for (address, bytes) in game.regions.iter_mut() {
        change(*address, bytes);
    }
    let mut cache = LayoutCache::new(Some(BASE));
    let layout = cache.status_layout(&game, 0x5000);
    layout.map_or(Vec::new(), |l| l.interfaces.into_iter().map(|(i, _)| i).collect())
}

#[test]
fn implausible_classes_have_no_interfaces() {
    let both = [StatusInterface::Attack, StatusInterface::Defense];
    assert_eq!(interfaces_after(|_, _| {}), both);
    // An interface at the last plausible offset, and one behind it.
    let at = |offset: i32| {
        interfaces_after(move |address, bytes| {
            if address == BASE + 0x348 {
                *bytes = offset.to_le_bytes().to_vec();
            }
        })
    };
    assert_eq!(at(0x400), both);
    assert_eq!(at(0x401), [StatusInterface::Attack]);
    assert_eq!(at(-1), [StatusInterface::Attack]);
    // No base classes, too many of them, and another kind of locator.
    for count in [0u32, 33] {
        let none = interfaces_after(|address, bytes| {
            if address == BASE + 0x108 {
                *bytes = count.to_le_bytes().to_vec();
            }
        });
        assert!(none.is_empty());
    }
    let other = interfaces_after(|address, bytes| {
        if address == 0x8000 {
            *bytes = 2u32.to_le_bytes().to_vec();
        }
    });
    assert!(other.is_empty());
}

#[test]
fn at_most_128_statuses_are_asked() {
    let mut game = game();
    game.regions.retain(|(address, _)| *address != 0x1018 && *address != 0x1020);
    game.put(0x1018, &0x20_0000u64.to_le_bytes());
    game.put(0x1020, &(0x20_0000u64 + 8 * 200).to_le_bytes());
    for i in 0..200u64 {
        let status = 0x30_0000 + 0x100 * i;
        game.put(0x20_0000 + 8 * i, &status.to_le_bytes());
        game.put(status, &0x5000u64.to_le_bytes());
        game.put(status + 0x10, &0x6000u64.to_le_bytes());
    }
    let mut cache = LayoutCache::new(Some(BASE));
    let request = Request {
        context: 0x5555,
        defense_target: None,
        only_interface: Some(StatusInterface::Attack),
    };

    let found = collect_status_contributions::<Ieee, Game>(&game, &mut cache, 0x1000, &request);

    assert_eq!(found.len(), 128);
}

#[test]
fn hits_nest_and_note_what_the_game_aggregates() {
    let game = game();
    let mut cache = LayoutCache::new(Some(BASE));
    let mut probes: DamageProbes<f32> = DamageProbes { stack: Vec::new() };
    let bytes = instance_bytes();
    let call = AttackCall {
        status: 0x1000,
        target: 0x7777,
        factor_x2: 1.0,
        factor_x3: 2.0,
        lower_bound: 3.0,
        reduction_floor: 4.0,
        context: 0x5555,
    };

    // Outside any hit nothing is noted.
    attack_multiplier_hook::<Ieee, Game>(&mut probes, &mut cache, &game, call, 1.75);
    assert!(probes.stack.is_empty());
    assert!(finish_damage::<Ieee>(&mut probes, Some(&bytes)).is_none());

    begin_damage::<Ieee>(&mut probes, 1, Some(&bytes));
    begin_damage::<Ieee>(&mut probes, 2, None);
    attack_multiplier_hook::<Ieee, Game>(&mut probes, &mut cache, &game, call, 1.75);
    defense_status_hook::<Ieee, Game>(
        &mut probes,
        &mut cache,
        &game,
        0x1000,
        Some([1.0; 7]),
        0x7777,
        0x5555,
    );
    defense_status_hook::<Ieee, Game>(&mut probes, &mut cache, &game, 0x1000, None, 0x7777, 0x5555);
    assert_eq!(probes.stack.len(), 2);
    assert_eq!(probes.stack[1].address, 2);
    assert_eq!(probes.stack[1].attacks.len(), 1);
    assert_eq!(probes.stack[1].attacks[0].reduction_floor, 4.0);
    assert_eq!(probes.stack[1].defenses.len(), 1);
    assert_eq!(probes.stack[1].defenses[0].buckets, [1.0; 7]);
    assert!(probes.stack[0].attacks.is_empty());

    let inner = finish_damage::<Ieee>(&mut probes, Some(&bytes)).unwrap();
    assert_eq!(inner.defense_multiplier, 1.75);
    assert_eq!(inner.statuses.len(), 2);
    let outer = finish_damage::<Ieee>(&mut probes, Some(&bytes)).unwrap();
    assert_eq!(outer.defense_multiplier, 1.0);
    assert_eq!(outer.attack_rate, 1.5);
    assert!(probes.stack.is_empty());
}

const COMMON: [u8; 15] = [
    0x55, 0x41, 0x57, 0x41, 0x56, 0x41, 0x55, 0x41, 0x54, 0x56, 0x57, 0x53, 0x48, 0x81, 0xEC,
];

fn release(attack_tail: [u8; 4], defense_tail: [u8; 4]) -> Game {
    let mut game =
        Game { regions: Vec::new(), applies: true, calls: Cell::new(0), reads: Cell::new(0) };
    game.put(BASE + ATTACK_MULTIPLIER_RVA, &[&COMMON[..], &attack_tail[..]].concat());
    game.put(BASE + DEFENSE_STATUS_RVA, &[&COMMON[..], &defense_tail[..]].concat());
    game
}

#[test]
fn the_aggregations_are_told_by_their_first_bytes() {
    let process = Process { base_address: BASE, module_handle: 0 };
    let attack = [0x28, 0x01, 0x00, 0x00];
    let defense = [0xD8, 0x00, 0x00, 0x00];

    let mut cache = LayoutCache::new(None);
    assert_eq!(
        setup(&mut cache, &release(attack, defense), &process),
        Ok((BASE + 0xBD9630, BASE + 0xBD9A40))
    );
    assert_eq!(cache.game_base, Some(BASE));

    let mut known = LayoutCache::new(Some(7));
    assert_eq!(
        setup(&mut known, &release(defense, defense), &process),
        Err(HookError::AttackPrefixMismatch)
    );
    assert_eq!(known.game_base, Some(7));
    assert_eq!(
        setup(&mut cache, &release(attack, attack), &process),
        Err(HookError::DefensePrefixMismatch)
    );
    let elsewhere = Process { base_address: BASE + 1, module_handle: 0 };
    assert_eq!(
        setup(&mut cache, &release(attack, defense), &elsewhere),
        Err(HookError::AttackPrefixMismatch)
    );
}

#[test]
fn an_aggregation_within_another_is_noted_before_it() {
    let game = game();
    let mut cache = LayoutCache::new(Some(BASE));
    let mut probes: DamageProbes<f32> = DamageProbes { stack: Vec::new() };
    begin_damage::<Ieee>(&mut probes, 1, None);
    let call = |target: u64| AttackCall {
        status: 0x1000,
        target,
        factor_x2: 1.0,
        factor_x3: 2.0,
        lower_bound: 3.0,
        reduction_floor: 4.0,
        context: 0x5555,
    };

    let outer = collect_attack::<Ieee, Game>(&mut cache, &game, &call(1));
    let inner = collect_attack::<Ieee, Game>(&mut cache, &game, &call(2));
    note_attack::<Ieee>(&mut probes, call(2), 1.25, inner);
    note_attack::<Ieee>(&mut probes, call(1), 1.75, outer);
    let defense = collect_defense::<Ieee, Game>(&mut cache, &game, 0x1000, 0x7777, 0x5555);
    assert_eq!(shown(&defense), [("StatusTest", StatusInterface::Defense, -1, 0.5)]);
    note_defense::<Ieee>(&mut probes, 0x1000, 0x5555, [1.5; 7], defense);

    let attacks = &probes.stack[0].attacks;
    assert_eq!(attacks.len(), 2);
    assert_eq!((attacks[0].target, attacks[0].result), (2, 1.25));
    assert_eq!((attacks[1].target, attacks[1].result), (1, 1.75));
    assert_eq!(shown(&attacks[1].statuses).len(), 2);
    assert_eq!(probes.stack[0].defenses[0].buckets, [1.5; 7]);
}

#[test]
fn merged_layouts_are_not_read_again() {
    let game = game();
    let nowhere =
        Game { regions: Vec::new(), applies: true, calls: Cell::new(0), reads: Cell::new(0) };
    let mut learned = LayoutCache::new(Some(BASE));
    assert!(learned.status_layout(&game, 0x5000).is_some());

    let mut cache = LayoutCache::new(None);
    assert!(cache.status_layout(&nowhere, 0x5000).is_none());
    cache.absorb(learned);
    assert_eq!(cache.game_base, Some(BASE));
    let layout = cache.status_layout(&nowhere, 0x5000).unwrap();
    assert_eq!(layout.interfaces.len(), 2);

    cache.absorb(LayoutCache::new(Some(BASE + 1)));
    assert_eq!(cache.game_base, Some(BASE));
    assert!(cache.status_layout(&nowhere, 0x5000).is_some());
}

#[test]
fn hits_with_equal_first_calls_agree() {
    let first = || {
        vec![
            contribution("Attack", StatusInterface::Attack, 0, 0.25),
            contribution("Up", StatusInterface::Amplify, 0, 0.75),
        ]
    };
    let probe = |own: f32, later: f32| {
        let mut seen = first();
        seen.push(contribution("Own", StatusInterface::Defense, 0, own));
        DamageProbe {
            address: 1,
            before: no_fields(),
            attacks: vec![
                attack_probe(1.5, seen),
                attack_probe(later, vec![contribution("Up", StatusInterface::Amplify, 0, later)]),
            ],
            defenses: Vec::new(),
        }
    };
    let after = RawDamageFields { uncapped_damage: 600.0, damage_cap: 500, ..no_fields() };

    let one = build_damage_details::<Ieee>(&probe(1.0, 2.0), after);
    let other = build_damage_details::<Ieee>(&probe(3.0, 4.0), after);

    assert_eq!(one.attack_multiplier, other.attack_multiplier);
    assert_eq!(one.amplify_multiplier, 1.75);
    assert_eq!(one.amplify_multiplier, other.amplify_multiplier);
    assert_eq!(one.damage_limit_multiplier, other.damage_limit_multiplier);
    assert_eq!(one.defense_multiplier, other.defense_multiplier);
    assert_eq!(one.formula_multiplier, other.formula_multiplier);
    assert_eq!(one.uncapped_damage, other.uncapped_damage);
    assert_eq!(one.statuses.len(), 2);
    for (a, b) in one.statuses.iter().zip(&other.statuses) {
        assert_eq!((&a.status_name, a.kind, a.category), (&b.status_name, b.kind, b.category));
        assert_eq!(a.value, b.value);
    }
}
