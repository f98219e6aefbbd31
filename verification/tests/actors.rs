use std::cell::Cell;

use gbfr_logs::hooks::parent_probe::{
    probe_parent_offsets, should_probe, ParentMatch, ParentProbes,
};
use gbfr_logs::hooks::player::{
    identity_events_for_actor, PlayerIdentities, ACTOR_IDENTITY_SNAPSHOT_OFFSET,
    DISPLAY_NAME_OFFSET, IS_ONLINE_OFFSET, PARTY_INDEX_OFFSET,
};
use gbfr_logs::hooks::{
    actor_idx, get_source_parent, get_source_parent_instance, parent_specified_instance_at,
    reset_battle_identity_state, setup_hooks, ActorIds, Actors, HookError, HookKind, SetupError,
    FERRY_GHOST_PARENT_ENTITY_OFFSET, FERRY_TYPE, ID_DRAGON_PARENT_ENTITY_OFFSET, ID_DRAGON_TYPE,
    ID_HUMAN_TYPE,
};
use gbfr_logs::memory::Memory;

const FERRY_GHOST: u32 = 0x2AF678E8;
const FERRY_SATELLITE: u32 = 0x8364C8BC;
const DRAGON_SLED: u32 = 0xC9F45042;
const AVATAR: u32 = 0x5B1AB457;
const ROSE: u32 = 0x69C0CA71;

/// Memory that holds a few byte ranges and nothing else, and actors that all
/// have the same type.
struct Game {
    regions: Vec<(u64, Vec<u8>)>,
    actor_type: u32,
    asked: Cell<usize>,
}

impl Game {
    fn new(actor_type: u32) -> Game {
        Game { regions: Vec::new(), actor_type, asked: Cell::new(0) }
    }

    fn word(&mut self, address: u64, value: u64) {
        self.regions.push((address, value.to_le_bytes().to_vec()));
    }
}

impl Memory for Game {
    fn read_memory(&self, address: u64, length: usize) -> Option<Vec<u8>> {
        for (start, bytes) in &self.regions {
            if address >= *start && address + length as u64 <= *start + bytes.len() as u64 {
                let from = (address - *start) as usize;
                return Some(bytes[from..from + length].to_vec());
            }
        }
        None
    }
}

impl Actors for Game {
    fn actor_type_id(&self, _actor: u64) -> u32 {
        self.asked.set(self.asked.get() + 1);
        self.actor_type
    }
}

#[test]
fn concrete_actor_instances_receive_distinct_ids() {
    let mut actor_ids = ActorIds::default();
    let first = 0x1000u64;
    let second = 0x2000u64;

    assert_eq!(actor_idx(&mut actor_ids, first), actor_idx(&mut actor_ids, first));
    assert_ne!(actor_idx(&mut actor_ids, first), actor_idx(&mut actor_ids, second));
}

#[test]
fn actor_ids_restart_after_a_battle_reset() {
    let mut actor_ids = ActorIds::default();

    assert_eq!(actor_ids.id_for(0x1000), 0);
    assert_eq!(actor_ids.id_for(0x2000), 1);

    actor_ids.reset();

    assert_eq!(actor_ids.id_for(0x2000), 0);
    assert_eq!(actor_ids.id_for(0x1000), 1);
}

#[test]
fn ferry_ghost_uses_the_verified_game_2_parent_offset() {
    assert_eq!(FERRY_GHOST_PARENT_ENTITY_OFFSET, 0xE58);
}

#[test]
fn safely_reads_parent_specified_instance() {
    let parent_address = 0x7000u64;
    let entity_address = 0x5000u64;
    let actor_address = 0x10_0000u64;
    let mut entity = vec![0u8; 0x78];
    let mut actor = vec![0u8; ID_DRAGON_PARENT_ENTITY_OFFSET as usize + 8];
    entity[0x70..0x78].copy_from_slice(&parent_address.to_le_bytes());
    let offset = ID_DRAGON_PARENT_ENTITY_OFFSET as usize;
    actor[offset..offset + 8].copy_from_slice(&entity_address.to_le_bytes());
    let mut game = Game::new(0);
    game.regions.push((entity_address, entity));
    game.regions.push((actor_address, actor));

    assert_eq!(
        parent_specified_instance_at(&game, actor_address, ID_DRAGON_PARENT_ENTITY_OFFSET),
        Some(parent_address)
    );
}

#[test]
fn invalid_parent_address_fails_without_dereferencing_it() {
    let game = Game::new(0);

    assert_eq!(parent_specified_instance_at(&game, 1, 0), None);
}

#[test]
fn null_entities_and_null_parents_lead_nowhere() {
    let mut game = Game::new(0);
    game.word(0x1000, 0);
    game.word(0x2000, 0x3000);
    game.word(0x3070, 0);

    assert_eq!(parent_specified_instance_at(&game, 0x1000, 0), None);
    assert_eq!(parent_specified_instance_at(&game, 0x2000, 0), None);
}

#[test]
fn every_known_form_is_led_back_to_its_owner() {
    let cases = [
        (FERRY_GHOST, 0xE58u64, FERRY_TYPE, 0usize),
        (FERRY_SATELLITE, 0x508, FERRY_TYPE, 0),
        (DRAGON_SLED, 0x578, 0xABCD, 1),
        (ID_DRAGON_TYPE, 0x1CA98, ID_HUMAN_TYPE, 0),
        (AVATAR, 0x500, 0xABCD, 1),
        (ROSE, 0x7E0, 0xABCD, 1),
    ];
    for (source_type, offset, parent_type, asked) in cases {
        let mut game = Game::new(0xABCD);
        game.word(0x10_0000 + offset, 0x5000);
        game.word(0x5070, 0x7000);

        assert_eq!(
            get_source_parent_instance(&game, source_type, 0x10_0000),
            Some((parent_type, 0x7000))
        );
        assert_eq!(game.asked.get(), asked);
        assert_eq!(get_source_parent_instance(&game, source_type, 0x20_0000), None);
    }
}

#[test]
fn other_actors_belong_to_nobody() {
    let mut game = Game::new(7);
    game.word(0x10_0E58, 0x5000);
    game.word(0x5070, 0x7000);

    assert_eq!(get_source_parent_instance(&game, 0x1234, 0x10_0000), None);
    assert_eq!(game.asked.get(), 0);
}

#[test]
fn parents_are_numbered_like_other_actors() {
    let mut game = Game::new(7);
    let mut ids = ActorIds::default();
    game.word(0x10_0E58, 0x5000);
    game.word(0x5070, 0x7000);
    assert_eq!(ids.id_for(0x9999), 0);

    assert_eq!(
        get_source_parent(&mut ids, &game, FERRY_GHOST, 0x10_0000),
        Some((FERRY_TYPE, 1))
    );
    assert_eq!(ids.id_for(0x7000), 1);
    assert_eq!(get_source_parent(&mut ids, &game, FERRY_GHOST, 0x20_0000), None);
    assert_eq!(ids.id_for(0x8000), 2);
}

fn known_player(game: &mut Game, players: &mut PlayerIdentities, actor: u64) {
    let snapshot = 0x40_0000u64;
    let mut bytes = vec![0u8; 0x250];
    let at = |offset: u64| offset as usize;
    bytes[at(IS_ONLINE_OFFSET)..at(IS_ONLINE_OFFSET) + 4].copy_from_slice(&1u32.to_le_bytes());
    bytes[at(PARTY_INDEX_OFFSET)..at(PARTY_INDEX_OFFSET) + 4].copy_from_slice(&1u32.to_le_bytes());
    let name = at(DISPLAY_NAME_OFFSET);
    bytes[name..name + 4].copy_from_slice(b"Name");
    bytes[name + 0x10..name + 0x18].copy_from_slice(&4u64.to_le_bytes());
    bytes[name + 0x18..name + 0x20].copy_from_slice(&0x0Fu64.to_le_bytes());
    game.regions.push((snapshot, bytes));
    game.word(actor + ACTOR_IDENTITY_SNAPSHOT_OFFSET, snapshot);
    assert_eq!(identity_events_for_actor(players, game, actor, 1, 0).len(), 1);
}

#[test]
fn a_pet_is_scanned_once_for_known_players() {
    let mut game = Game::new(0);
    let mut players = PlayerIdentities::default();
    let mut probes = ParentProbes::default();
    let player = 0x60_0000u64;
    known_player(&mut game, &mut players, player);
    let source = 0x80_0000u64;
    game.word(source + 0x18, player);
    game.word(source + 0x3000, 0x70_0000);
    game.word(0x70_0070, player);
    game.word(source + 0x20, 0xFFFF);
    game.word(source + 0x3008, player);

    assert_eq!(
        probe_parent_offsets(&mut probes, &players, &game, source),
        Some(vec![
            ParentMatch::Direct { offset: 0x18, player },
            ParentMatch::Entity { offset: 0x3000, entity: 0x70_0000, player },
        ])
    );
    assert_eq!(probe_parent_offsets(&mut probes, &players, &game, source), None);
    assert_eq!(probe_parent_offsets(&mut probes, &players, &game, 0), None);
    assert_eq!(probe_parent_offsets(&mut probes, &players, &game, 8), Some(Vec::new()));
}

#[test]
fn only_ferrys_pets_are_scanned() {
    assert!(should_probe(FERRY_GHOST));
    assert!(should_probe(FERRY_SATELLITE));
    assert!(!should_probe(DRAGON_SLED));
    assert!(!should_probe(ID_DRAGON_TYPE));
}

#[test]
fn a_battle_reset_forgets_actors_and_players() {
    let mut game = Game::new(0);
    let mut players = PlayerIdentities::default();
    let mut ids = ActorIds::default();
    known_player(&mut game, &mut players, 0x60_0000);
    assert_eq!(ids.id_for(0x60_0000), 0);
    assert_eq!(ids.id_for(0x70_0000), 1);

    reset_battle_identity_state(&mut ids, &mut players);

    assert_eq!(ids.id_for(0x70_0000), 0);
    let nothing = Game::new(0);
    assert!(identity_events_for_actor(&mut players, &nothing, 0x60_0000, 1, 0).is_empty());
}

#[test]
fn the_meter_needs_the_damage_hook_alone() {
    let optional = setup_hooks::<u8, u8, &str, _>(Ok(1), |_, kind| {
        if kind == HookKind::Damage {
            Ok(())
        } else {
            Err("absent")
        }
    })
    .unwrap();
    assert_eq!(optional.damage_details, Err("absent"));
    assert_eq!(optional.player_identity, Err("absent"));
    assert_eq!(optional.battle_end, Err("absent"));

    let calls = Cell::new(0);
    let failed = setup_hooks::<u8, u8, &str, _>(Ok(1), |_, kind| {
        calls.set(calls.get() + 1);
        if kind == HookKind::Damage {
            Err("no damage")
        } else {
            Ok(())
        }
    });
    assert!(matches!(failed, Err(SetupError::Damage("no damage"))));
    assert_eq!(calls.get(), 2);

    let lost = setup_hooks::<u8, u8, &str, _>(Err(9), |_, _| Ok(()));
    assert!(matches!(lost, Err(SetupError::Process(9))));
}

#[test]
fn hook_errors_say_what_is_missing() {
    assert_eq!(HookError::DamageNotFound.message(), "Could not find process_dmg_evt");
    assert_eq!(HookError::DotNotFound.message(), "Could not find process_dot_evt");
    assert_eq!(
        HookError::PlayerIdentityNotFound.message(),
        "Could not find refresh_player_identity"
    );
    assert_eq!(
        HookError::AttackPrefixMismatch.message(),
        "attack multiplier function prefix mismatch"
    );
    assert_eq!(
        HookError::DefensePrefixMismatch.message(),
        "defense status function prefix mismatch"
    );
}
