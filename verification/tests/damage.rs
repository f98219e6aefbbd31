use gbfr_logs::arithmetic::Arithmetic;
use gbfr_logs::hooks::damage::{
    applied_stun_delta, classify_action, observe_hit, read_applied_stun_value, report_observed,
    report_observed_tick, resolve_source_parent, stun_value_for_event, OnProcessDamageHook, OnProcessDotHook, APPLIED_STUN_VALUE_OFFSET,
};
use gbfr_logs::hooks::damage_details::{DamageProbes, DAMAGE_INSTANCE_BYTES};
use gbfr_logs::hooks::player::{
    PlayerIdentities, ACTOR_IDENTITY_SNAPSHOT_OFFSET, DISPLAY_NAME_OFFSET, IS_ONLINE_OFFSET,
    PARTY_INDEX_OFFSET,
};
use gbfr_logs::hooks::{ActorIds, Actors};
use gbfr_logs::memory::Memory;
use gbfr_logs::protocol::{ActionType, Actor, Message};

const FERRY_GHOST_TYPE: u32 = 0x2AF678E8;
const FERRY_TYPE: u32 = 0x4C714F77;

/// Arithmetic in `f32` and `f64`.
struct Ieee;

impl Arithmetic for Ieee {
    type Single = f32;
    type Double = f64;

    fn from_bits(bits: u32) -> f32 {
        f32::from_bits(bits)
    }

    fn from_u64(value: u64) -> f32 {
        value as f32
    }

    fn from_u32(value: u32) -> f32 {
        value as f32
    }

    fn from_i32(value: i32) -> f32 {
        value as f32
    }

    fn zero() -> f32 {
        0.0
    }

    fn half() -> f32 {
        0.5
    }

    fn one() -> f32 {
        1.0
    }

    fn hundred() -> f32 {
        100.0
    }

    fn epsilon() -> f32 {
        f32::EPSILON
    }

    fn plus(a: f32, b: f32) -> f32 {
        a + b
    }

    fn minus(a: f32, b: f32) -> f32 {
        a - b
    }

    fn times(a: f32, b: f32) -> f32 {
        a * b
    }

    fn divided(a: f32, b: f32) -> f32 {
        a / b
    }

    fn negated(a: f32) -> f32 {
        -a
    }

    fn magnitude(a: f32) -> f32 {
        a.abs()
    }

    fn larger(a: f32, b: f32) -> f32 {
        a.max(b)
    }

    fn smaller(a: f32, b: f32) -> f32 {
        a.min(b)
    }

    fn is_finite(a: f32) -> bool {
        a.is_finite()
    }

    fn above(a: f32, b: f32) -> bool {
        a > b
    }

    fn below(a: f32, b: f32) -> bool {
        a < b
    }

    fn at_most(a: f32, b: f32) -> bool {
        a <= b
    }

    fn widened(a: f32) -> f64 {
        f64::from(a)
    }

    fn narrowed(a: f64) -> f32 {
        a as f32
    }

    fn wide_from_u64(value: u64) -> f64 {
        value as f64
    }

    fn wide_zero() -> f64 {
        0.0
    }

    fn wide_plus(a: f64, b: f64) -> f64 {
        a + b
    }

    fn wide_times(a: f64, b: f64) -> f64 {
        a * b
    }

    fn wide_divided(a: f64, b: f64) -> f64 {
        a / b
    }

    fn wide_larger(a: f64, b: f64) -> f64 {
        a.max(b)
    }

    fn wide_above(a: f64, b: f64) -> bool {
        a > b
    }

    fn wide_at_most(a: f64, b: f64) -> bool {
        a <= b
    }
}

#[test]
fn ferry_pet_uses_the_resolved_owner() {
    let source = 1u64;
    let mut requested_type = None;

    let parent = resolve_source_parent(FERRY_GHOST_TYPE, 41, source, |actor_type, ptr| {
        requested_type = Some(actor_type);
        assert_eq!(ptr, source);
        Some((FERRY_TYPE, 7))
    });

    assert_eq!(requested_type, Some(FERRY_GHOST_TYPE));
    assert_eq!(parent, (FERRY_TYPE, 7));
}

#[test]
fn unresolved_actor_keeps_its_concrete_identity() {
    let parent = resolve_source_parent(0xDEADBEEF, 41, 0, |_, _| None);

    assert_eq!(parent, (0xDEADBEEF, 41));
}

#[test]
fn applied_stun_uses_the_positive_cumulative_delta() {
    let delta = applied_stun_delta::<Ieee>(Some(23.03), Some(39.48)).unwrap();
    assert!((delta - 16.45).abs() < 0.001);
}

#[test]
fn applied_stun_does_not_go_negative_when_the_counter_resets() {
    assert_eq!(applied_stun_delta::<Ieee>(Some(131.6), Some(0.0)), Some(0.0));
}

#[test]
fn applied_stun_requires_two_finite_reads() {
    assert_eq!(applied_stun_delta::<Ieee>(None, Some(10.0)), None);
    assert_eq!(applied_stun_delta::<Ieee>(Some(10.0), None), None);
    assert_eq!(applied_stun_delta::<Ieee>(Some(f32::NAN), Some(10.0)), None);
    assert_eq!(applied_stun_delta::<Ieee>(Some(10.0), Some(f32::INFINITY)), None);
}

#[test]
fn supplementary_damage_never_claims_stun() {
    assert_eq!(
        stun_value_for_event::<Ieee>(
            &ActionType::SupplementaryDamage(101),
            Some(23.03),
            Some(39.48),
        ),
        None
    );
}

#[test]
fn other_actions_claim_the_stun_they_applied() {
    assert_eq!(
        stun_value_for_event::<Ieee>(&ActionType::Normal(101), Some(1.5), Some(4.0)),
        Some(2.5)
    );
}

#[test]
fn flags_tell_the_action() {
    let cases = [
        (1u64 << 7, ActionType::LinkAttack),
        (1 << 50, ActionType::LinkAttack),
        (1 << 13, ActionType::SBA),
        (1 << 14, ActionType::SBA),
        (1 << 15, ActionType::SupplementaryDamage(9)),
        (0, ActionType::Normal(9)),
        (!(1 << 7 | 1 << 50 | 1 << 13 | 1 << 14 | 1 << 15), ActionType::Normal(9)),
        (1 << 7 | 1 << 13 | 1 << 15, ActionType::LinkAttack),
        (1 << 14 | 1 << 15, ActionType::SBA),
    ];
    for (flags, action) in cases {
        assert_eq!(classify_action(flags, 9), action);
    }
}

/// Memory that holds a few byte ranges, and actors whose type is a quarter of
/// a megabyte's worth of their address.
struct Game {
    regions: Vec<(u64, Vec<u8>)>,
}

impl Game {
    fn word(&mut self, address: u64, value: u64) {
        self.regions.push((address, value.to_le_bytes().to_vec()));
    }

    fn number(&mut self, address: u64, value: f32) {
        self.regions.push((address, value.to_le_bytes().to_vec()));
    }
}

impl Memory for Game {
    fn read_memory(&self, address: u64, length: usize) -> Option<Vec<u8>> {
        for (start, bytes) in self.regions.iter().rev() {
            if address >= *start && address + length as u64 <= *start + bytes.len() as u64 {
                let from = (address - *start) as usize;
                return Some(bytes[from..from + length].to_vec());
            }
        }
        None
    }
}

impl Actors for Game {
    fn actor_type_id(&self, actor: u64) -> u32 {
        match actor {
            SOURCE => 0x1234,
            PET => FERRY_GHOST_TYPE,
            _ => (actor >> 16) as u32,
        }
    }
}

const SOURCE: u64 = 0x100_0000;
const PET: u64 = 0x200_0000;
const OWNER: u64 = 0x300_0000;
const TARGET: u64 = 0x400_0000;
const INSTANCE: u64 = 0x500_0000;
const INFO: u64 = 0x600_0000;

fn instance(damage: i32, flags: u64, action_id: u32) -> Vec<u8> {
    let mut bytes = vec![0u8; DAMAGE_INSTANCE_BYTES];
    bytes[0xD4..0xD8].copy_from_slice(&damage.to_le_bytes());
    bytes[0xE8..0xF0].copy_from_slice(&flags.to_le_bytes());
    bytes[0x16C..0x170].copy_from_slice(&action_id.to_le_bytes());
    bytes[0x2BC..0x2C0].copy_from_slice(&999i32.to_le_bytes());
    bytes
}

/// A game in which `source` hits the target.
fn game(source: u64) -> Game {
    let mut game = Game { regions: Vec::new() };
    game.word(INFO + 8, INFO + 0x100);
    game.word(INFO + 0x100, TARGET);
    game.word(INSTANCE + 0x18, INSTANCE + 0x1000);
    game.word(INSTANCE + 0x1070, source);
    game.number(TARGET + APPLIED_STUN_VALUE_OFFSET, 10.0);
    // The pet's owner, who is a named player.
    game.word(PET + 0xE58, PET + 0x10000);
    game.word(PET + 0x10070, OWNER);
    game.word(OWNER + ACTOR_IDENTITY_SNAPSHOT_OFFSET, OWNER + 0x80_0000);
    let mut snapshot = vec![0u8; 0x250];
    let name = DISPLAY_NAME_OFFSET as usize;
    snapshot[name..name + 5].copy_from_slice(b"Owner");
    snapshot[name + 0x10..name + 0x18].copy_from_slice(&5u64.to_le_bytes());
    snapshot[name + 0x18..name + 0x20].copy_from_slice(&0x0Fu64.to_le_bytes());
    let online = IS_ONLINE_OFFSET as usize;
    snapshot[online..online + 4].copy_from_slice(&1u32.to_le_bytes());
    let party = PARTY_INDEX_OFFSET as usize;
    snapshot[party..party + 4].copy_from_slice(&2u32.to_le_bytes());
    game.regions.push((OWNER + 0x80_0000, snapshot));
    game
}

struct State {
    ids: ActorIds,
    players: PlayerIdentities,
    probes: DamageProbes<f32>,
}

fn state() -> State {
    State {
        ids: ActorIds::default(),
        players: PlayerIdentities::default(),
        probes: DamageProbes { stack: Vec::new() },
    }
}

fn hit(state: &mut State, game: &mut Game, bytes: &[u8], result: u64) -> Vec<Message<f32>> {
    let hook = OnProcessDamageHook::new(());
    let started =
        hook.start::<Ieee, Game>(&mut state.probes, game, INFO, INSTANCE, Some(bytes));
    assert_eq!(started.target, Some(TARGET));
    assert_eq!(started.previous_stun_value, Some(10.0));
    assert_eq!(state.probes.stack.len(), 1);
    game.number(TARGET + APPLIED_STUN_VALUE_OFFSET, 12.5);
    let report = hook.run::<Ieee, Game>(
        &mut state.ids,
        &mut state.players,
        &mut state.probes,
        game,
        started,
        INSTANCE,
        Some(bytes),
        result,
    );
    assert!(state.probes.stack.is_empty());
    report.into_messages()
}

#[test]
fn a_hit_is_reported_with_its_actors_and_stun() {
    let mut state = state();
    let mut game = game(SOURCE);

    let messages = hit(&mut state, &mut game, &instance(500, 1, 77), 1);

    assert_eq!(messages.len(), 1);
    let Message::DamageEvent(event) = &messages[0] else {
        panic!("not a damage event");
    };
    assert_eq!(
        event.source,
        Actor { index: 0, actor_type: 0x1234, parent_index: 0, parent_actor_type: 0x1234 }
    );
    assert_eq!(
        event.target,
        Actor { index: 1, actor_type: 0x400, parent_index: 1, parent_actor_type: 0x400 }
    );
    assert_eq!(event.damage, 500);
    assert_eq!(event.flags, 1);
    assert_eq!(event.action_id, ActionType::Normal(77));
    assert_eq!(event.attack_rate, None);
    assert_eq!(event.stun_value, Some(2.5));
    assert_eq!(event.damage_cap, Some(999));
    assert!(event.details.is_some());
}

#[test]
fn a_pets_hit_counts_for_its_owner_who_is_named_first() {
    let mut state = state();
    let mut game = game(PET);

    let messages = hit(&mut state, &mut game, &instance(500, 0, 77), 1);

    assert_eq!(messages.len(), 2);
    let Message::PlayerIdentityEvent(identity) = &messages[0] else {
        panic!("not an identity event");
    };
    assert_eq!(identity.display_name, "Owner");
    assert_eq!(identity.character_type, 0xFBA6615D);
    assert_eq!(identity.actor_index, 1);
    assert_eq!(identity.party_index, 2);
    let Message::DamageEvent(event) = &messages[1] else {
        panic!("not a damage event");
    };
    assert_eq!(
        event.source,
        Actor {
            index: 0,
            actor_type: FERRY_GHOST_TYPE,
            parent_index: 1,
            parent_actor_type: 0xFBA6615D,
        }
    );
    assert_eq!(event.target.index, 2);
}

#[test]
fn supplementary_damage_repeats_no_details() {
    let mut state = state();
    let mut game = game(SOURCE);

    let messages = hit(&mut state, &mut game, &instance(500, 1 << 15, 77), 1);

    let Message::DamageEvent(event) = &messages[0] else {
        panic!("not a damage event");
    };
    assert_eq!(event.action_id, ActionType::SupplementaryDamage(77));
    assert_eq!(event.stun_value, None);
    assert!(event.details.is_none());
}

#[test]
fn hits_without_effect_or_source_are_not_reported() {
    let mut state = state();
    assert!(hit(&mut state, &mut game(SOURCE), &instance(500, 0, 7), 0).is_empty());
    assert!(hit(&mut state, &mut game(SOURCE), &instance(0, 0, 7), 1).is_empty());
    assert!(hit(&mut state, &mut game(SOURCE), &instance(-1, 0, 7), 1).is_empty());
    let mut orphan = game(SOURCE);
    orphan.word(INSTANCE + 0x18, 0);
    assert!(hit(&mut state, &mut orphan, &instance(500, 0, 7), 1).is_empty());
    // No actor has been numbered for them.
    assert_eq!(state.ids.id_for(0x9999), 0);
}

#[test]
fn a_stun_value_that_is_not_finite_is_not_read() {
    let mut game = Game { regions: Vec::new() };
    game.number(0x1000 + APPLIED_STUN_VALUE_OFFSET, f32::INFINITY);
    game.number(0x2000 + APPLIED_STUN_VALUE_OFFSET, 3.5);

    assert_eq!(read_applied_stun_value::<Ieee, Game>(&game, 0x1000), None);
    assert_eq!(read_applied_stun_value::<Ieee, Game>(&game, 0x2000), Some(3.5));
    assert_eq!(read_applied_stun_value::<Ieee, Game>(&game, 0), None);
}

const DOT: u64 = 0x700_0000;

fn dot_game() -> Game {
    let mut game = game(PET);
    game.word(DOT + 0x18, DOT + 0x1000);
    game.word(DOT + 0x30, DOT + 0x2000);
    game.word(DOT + 0x1070, TARGET);
    game.word(DOT + 0x2070, PET);
    game.regions.push((DOT + 0x3000, (-12i32).to_le_bytes().to_vec()));
    game
}

#[test]
fn a_tick_is_reported_as_damage_over_time() {
    let mut state = state();
    let hook = OnProcessDotHook::new(());

    let messages = hook
        .run::<f32, Game>(
            &mut state.ids,
            &mut state.players,
            &dot_game(),
            DOT,
            DOT + 0x3000,
        )
        .into_messages();

    assert_eq!(messages.len(), 2);
    let Message::DamageEvent(event) = &messages[1] else {
        panic!("not a damage event");
    };
    assert_eq!(event.damage, -12);
    assert_eq!(event.flags, 0);
    assert_eq!(event.action_id, ActionType::DamageOverTime(0));
    assert_eq!(event.stun_value, None);
    assert_eq!(event.damage_cap, None);
    assert!(event.details.is_none());
    assert_eq!(event.source.index, 0);
    assert_eq!(event.source.parent_index, 1);
    assert_eq!(event.target.index, 2);
}

#[test]
fn a_tick_without_source_or_target_is_not_reported() {
    let mut state = state();
    let hook = OnProcessDotHook::new(());
    for null in [DOT + 0x18, DOT + 0x30, DOT + 0x1070, DOT + 0x2070] {
        let mut game = dot_game();
        game.word(null, 0);
        let report = hook.run::<f32, Game>(
            &mut state.ids,
            &mut state.players,
            &game,
            DOT,
            DOT + 0x3000,
        );
        assert!(report.into_messages().is_empty());
    }
}

#[test]
fn a_hit_that_is_observed_first_is_reported_the_same() {
    let bytes = instance(500, 0, 77);
    let mut game = game(PET);
    let mut state = state();
    let hook = OnProcessDamageHook::new(());
    let started =
        hook.start::<Ieee, Game>(&mut state.probes, &game, INFO, INSTANCE, Some(&bytes));
    game.number(TARGET + APPLIED_STUN_VALUE_OFFSET, 12.5);
    let finished = hook.finish::<Ieee, Game>(
        &mut state.probes,
        &game,
        started,
        INSTANCE,
        Some(&bytes),
        1,
    );
    assert!(state.probes.stack.is_empty());
    assert_eq!(finished.previous_stun_value, Some(10.0));
    assert_eq!(finished.current_stun_value, Some(12.5));
    assert_eq!(finished.fields.damage, 500);

    let actors = observe_hit(&game, &finished).unwrap();
    assert_eq!(actors.source, PET);
    assert_eq!(actors.source_type, FERRY_GHOST_TYPE);
    assert_eq!(actors.parent, Some((0xFBA6615D, OWNER)));
    assert_eq!(actors.target, TARGET);
    assert_eq!(actors.target_type, 0x400);

    let report = report_observed::<Ieee, Game>(
        &mut state.ids,
        &mut state.players,
        &game,
        finished,
        Some(actors),
    );
    assert_eq!(report.identities.len(), 1);
    let event = report.damage.unwrap();
    assert_eq!(event.stun_value, Some(2.5));
    assert_eq!(event.source.parent_index, 1);
    assert_eq!(event.target.index, 2);
}

#[test]
fn a_tick_that_is_observed_first_is_reported_the_same() {
    let game = dot_game();
    let mut state = state();
    let hook = OnProcessDotHook::new(());

    let tick = hook.observe(&game, DOT, DOT + 0x3000);
    let (actors, damage) = tick.unwrap();
    assert_eq!((actors.source, actors.target, damage), (PET, TARGET, -12));
    let report = report_observed_tick::<f32, Game>(
        &mut state.ids,
        &mut state.players,
        &game,
        Some((actors, damage)),
    );
    assert_eq!(report.identities.len(), 1);
    assert_eq!(report.damage.unwrap().source.parent_index, 1);

    assert!(hook.observe(&game, DOT, DOT + 0x9000).is_none());
    let nothing = report_observed_tick::<f32, Game>(
        &mut state.ids,
        &mut state.players,
        &game,
        None,
    );
    assert!(nothing.into_messages().is_empty());
}
