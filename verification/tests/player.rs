use gbfr_logs::hooks::player::{
    identity_events_for_actor, known_player_actor_addresses, read_vbuffer,
    reset_battle_identity_state, should_cache_identity, IdentityStore, OnLoadPlayerIdentityHook,
    PlayerIdentities, StoredPlayerIdentity, ACTOR_IDENTITY_SNAPSHOT_OFFSET,
    ACTOR_PLAYER_KEY_OFFSET, CHARACTER_NAME_OFFSET, DISPLAY_NAME_OFFSET, INVALID_PLAYER_KEY,
    IS_ONLINE_OFFSET, PARTY_INDEX_OFFSET, PLAYER_IDENTITY_OFFSET, PLAYER_KEY_OFFSET,
};
use gbfr_logs::memory::Memory;

/// Memory that holds a few byte ranges and nothing else.
struct Ranges {
    regions: Vec<(u64, Vec<u8>)>,
}

impl Ranges {
    fn new() -> Ranges {
        Ranges { regions: Vec::new() }
    }

    fn with(regions: Vec<(u64, Vec<u8>)>) -> Ranges {
        Ranges { regions }
    }

    fn word(&mut self, address: u64, value: u64) {
        self.regions.push((address, value.to_le_bytes().to_vec()));
    }

    fn half_word(&mut self, address: u64, value: u32) {
        self.regions.push((address, value.to_le_bytes().to_vec()));
    }
}

impl Memory for Ranges {
    fn read_memory(&self, address: u64, length: usize) -> Option<Vec<u8>> {
        for (start, bytes) in &self.regions {
            if address >= *start && address + length as u64 <= *start + bytes.len() as u64 {
                let from = (address - *start) as usize;
                return Some(bytes[from..from + length].to_vec());
            }
        }
        None
    }
}

fn identity(name: &str, party_index: u8, is_online: bool) -> StoredPlayerIdentity {
    StoredPlayerIdentity {
        character_name: String::new(),
        display_name: name.to_string(),
        party_index,
        is_online,
    }
}

fn write_inline_vbuffer(buffer: &mut [u8], offset: u64, value: &str) {
    let offset = offset as usize;
    let bytes = value.as_bytes();
    assert!(bytes.len() <= 0x0F);
    buffer[offset..offset + bytes.len()].copy_from_slice(bytes);
    buffer[offset + 0x10..offset + 0x18].copy_from_slice(&(bytes.len() as u64).to_le_bytes());
    buffer[offset + 0x18..offset + 0x20].copy_from_slice(&0x0Fu64.to_le_bytes());
}

fn snapshot(name: &str, party_index: u32, is_online: u32) -> Vec<u8> {
    let mut snapshot = vec![0u8; 0x250];
    let online = IS_ONLINE_OFFSET as usize;
    let party = PARTY_INDEX_OFFSET as usize;
    snapshot[online..online + 4].copy_from_slice(&is_online.to_le_bytes());
    snapshot[party..party + 4].copy_from_slice(&party_index.to_le_bytes());
    write_inline_vbuffer(&mut snapshot, DISPLAY_NAME_OFFSET, name);
    snapshot
}

#[test]
fn reads_inline_utf8_player_name() {
    let mut buffer = [0u8; 0x20];
    let name = "芙劳玩家".as_bytes();
    buffer[..name.len()].copy_from_slice(name);
    buffer[0x10..0x18].copy_from_slice(&name.len().to_le_bytes());
    buffer[0x18..0x20].copy_from_slice(&0x0Fusize.to_le_bytes());
    let memory = Ranges::with(vec![(0x1000, buffer.to_vec())]);

    let value = read_vbuffer(&memory, 0x1000).expect("valid VBuffer");
    assert_eq!(value, "芙劳玩家");
}

#[test]
fn reads_heap_utf8_player_name() {
    let name = "世界第一公主殿下".as_bytes().to_vec();
    assert!(name.len() > 0x0F);
    let mut buffer = [0u8; 0x20];
    buffer[..8].copy_from_slice(&0x5000u64.to_le_bytes());
    buffer[0x10..0x18].copy_from_slice(&name.len().to_le_bytes());
    buffer[0x18..0x20].copy_from_slice(&name.len().to_le_bytes());
    let memory = Ranges::with(vec![(0x1000, buffer.to_vec()), (0x5000, name)]);

    let value = read_vbuffer(&memory, 0x1000).expect("valid heap VBuffer");
    assert_eq!(value, "世界第一公主殿下");
}

#[test]
fn rejects_unreasonably_large_player_name() {
    let mut buffer = [0u8; 0x20];
    buffer[0x10..0x18].copy_from_slice(&0x101usize.to_le_bytes());
    buffer[0x18..0x20].copy_from_slice(&0x101usize.to_le_bytes());
    let memory = Ranges::with(vec![(0x1000, buffer.to_vec())]);

    assert!(read_vbuffer(&memory, 0x1000).is_none());
}

fn text_buffer(head: &[u8], used: u64, max: u64) -> Vec<u8> {
    let mut buffer = vec![0u8; 0x20];
    buffer[..head.len()].copy_from_slice(head);
    buffer[0x10..0x18].copy_from_slice(&used.to_le_bytes());
    buffer[0x18..0x20].copy_from_slice(&max.to_le_bytes());
    buffer
}

#[test]
fn rejects_text_buffers_that_cannot_be_names() {
    let read = |buffer: Vec<u8>| read_vbuffer(&Ranges::with(vec![(0x1000, buffer)]), 0x1000);

    assert_eq!(read(text_buffer(b"abc", 3, 0x0F)), Some("abc".to_string()));
    assert_eq!(read(text_buffer(b"abc", 0, 0x0F)), Some(String::new()));
    // Longer than its capacity.
    assert_eq!(read(text_buffer(b"abc", 4, 3)), None);
    // An implausible capacity.
    assert_eq!(read(text_buffer(&0x1000u64.to_le_bytes(), 3, 0x1001)), None);
    // A heap text at no address, and at one that cannot be read.
    assert_eq!(read(text_buffer(&0u64.to_le_bytes(), 3, 0x10)), None);
    assert_eq!(read(text_buffer(&0x9000u64.to_le_bytes(), 3, 0x10)), None);
    // Not UTF-8, and UTF-8 with a NUL inside.
    assert_eq!(read(text_buffer(&[0xFF, 0xFE], 2, 0x0F)), None);
    assert_eq!(read(text_buffer(b"a\0b", 3, 0x0F)), None);
    // The longest names, in the largest buffer.
    let long = vec![b'x'; 0x100];
    let memory = Ranges::with(vec![
        (0x1000, text_buffer(&0x5000u64.to_le_bytes(), 0x100, 0x1000)),
        (0x5000, long),
    ]);
    assert_eq!(read_vbuffer(&memory, 0x1000), Some("x".repeat(0x100)));
}

#[test]
fn uses_verified_actor_player_key_offset() {
    assert_eq!(ACTOR_PLAYER_KEY_OFFSET, 0x1AB40);
    assert_eq!(ACTOR_IDENTITY_SNAPSHOT_OFFSET, 0x1AE90);
}

#[test]
fn rejects_remote_offline_placeholder_identity() {
    assert!(!should_cache_identity(&identity("Local Player", 1, false)));
    assert!(should_cache_identity(&identity("Local Player", 0, false)));
    assert!(should_cache_identity(&identity("Remote Player", 1, true)));
}

#[test]
fn replacing_party_slot_removes_stale_player_key() {
    let mut identities = IdentityStore::default();
    assert!(identities.insert(0x1111, identity("Placeholder", 2, true)));
    assert!(identities.insert(0x2222, identity("Remote Player", 2, true)));

    assert!(identities.identities_for_key(0x1111).is_empty());
    assert_eq!(identities.identities_for_key(0x2222)[0].display_name, "Remote Player");
}

#[test]
fn clearing_identities_removes_every_previous_party_slot() {
    let mut identities = IdentityStore::default();
    assert!(identities.insert(0x1111, identity("Player A", 1, true)));
    assert!(identities.insert(0x2222, identity("Player B", 2, true)));

    identities.clear();

    assert!(identities.identities_for_key(0x1111).is_empty());
    assert!(identities.identities_for_key(0x2222).is_empty());
}

#[test]
fn storing_an_identity_says_whether_anything_changed() {
    let mut identities = IdentityStore::default();
    assert!(identities.insert(0x1111, identity("A", 3, true)));
    assert!(!identities.insert(0x1111, identity("A", 3, true)));
    assert!(identities.insert(0x1112, identity("A", 3, true)));
    assert!(identities.insert(0x1112, identity("B", 3, true)));
    assert!(identities.insert(0x1112, identity("B", 3, false)));
}

#[test]
fn identities_with_one_key_come_by_slot() {
    let mut identities = IdentityStore::default();
    for (name, slot) in [("C", 3), ("A", 1), ("Z", 200), ("B", 2)] {
        identities.insert(0x1111, identity(name, slot, true));
    }
    identities.insert(0x2222, identity("Other", 0, true));

    let names: Vec<String> =
        identities.identities_for_key(0x1111).into_iter().map(|i| i.display_name).collect();
    assert_eq!(names, ["A", "B", "C", "Z"]);
}

#[test]
fn three_same_character_players_keep_direct_party_identity() {
    let character_type = 0x48ADDA36;
    let cases = [("Party 3", 3u8, 0u32), ("Party 1", 1, 1), ("Party 2", 2, 2)];
    let mut players = PlayerIdentities::default();
    let mut memory = Ranges::new();
    let mut actors = Vec::new();
    for (place, (name, party_index, _)) in cases.iter().enumerate() {
        let actor = 0x100_0000 * (place as u64 + 1);
        let record = actor + 0x80_0000;
        memory.regions.push((record, snapshot(name, u32::from(*party_index), 1)));
        memory.word(actor + ACTOR_IDENTITY_SNAPSHOT_OFFSET, record);
        actors.push(actor);
    }

    for ((expected_name, expected_party, actor_index), actor) in cases.iter().zip(actors.iter()) {
        let events =
            identity_events_for_actor(&mut players, &memory, *actor, character_type, *actor_index);

        assert_eq!(events.len(), 1);
        assert_eq!(events[0].actor_index, *actor_index);
        assert_eq!(events[0].party_index, *expected_party);
        assert_eq!(events[0].display_name, *expected_name);
    }
}

#[test]
fn a_resolved_actor_is_told_on_every_call_without_reading_again() {
    let mut players = PlayerIdentities::default();
    let mut memory = Ranges::new();
    memory.regions.push((0x9000, snapshot("Name", 2, 1)));
    memory.word(0x100_0000 + ACTOR_IDENTITY_SNAPSHOT_OFFSET, 0x9000);
    assert_eq!(identity_events_for_actor(&mut players, &memory, 0x100_0000, 5, 6).len(), 1);

    let events = identity_events_for_actor(&mut players, &Ranges::new(), 0x100_0000, 7, 8);

    assert_eq!(events.len(), 1);
    assert_eq!(events[0].character_type, 7);
    assert_eq!(events[0].actor_index, 8);
    assert_eq!(events[0].display_name, "Name");
    assert!(events[0].is_online);
    assert_eq!(known_player_actor_addresses(&players), [0x100_0000]);
    assert!(identity_events_for_actor(&mut players, &memory, 0, 5, 6).is_empty());
}

/// A player record at `record` with a snapshot behind it.
fn add_record(memory: &mut Ranges, record: u64, key: u32, bytes: Vec<u8>) {
    let at = record + 0x1_0000;
    memory.regions.push((at, bytes));
    memory.word(record + PLAYER_IDENTITY_OFFSET, at);
    memory.half_word(record + PLAYER_KEY_OFFSET, key);
}

#[test]
fn a_key_that_one_player_has_names_that_player() {
    let hook = OnLoadPlayerIdentityHook::new(());
    let mut players = PlayerIdentities::default();
    let mut memory = Ranges::new();
    add_record(&mut memory, 0x10_0000, 0x1111, snapshot("First", 1, 1));
    add_record(&mut memory, 0x20_0000, 0x1111, snapshot("Second", 2, 1));
    memory.half_word(0x100_0000 + ACTOR_PLAYER_KEY_OFFSET, 0x1111);

    hook.run(&mut players, &memory, 0x10_0000);
    let events = identity_events_for_actor(&mut players, &memory, 0x100_0000, 5, 6);
    assert_eq!(events.len(), 1);
    assert_eq!(events[0].display_name, "First");
    assert_eq!(events[0].character_name, "");

    // A second player with that key: the actors are asked anew, and the key
    // tells nothing any more.
    hook.run(&mut players, &memory, 0x20_0000);
    assert!(known_player_actor_addresses(&players).is_empty());
    assert!(identity_events_for_actor(&mut players, &memory, 0x100_0000, 5, 6).is_empty());
}

#[test]
fn a_key_is_read_once_until_the_party_changes() {
    let hook = OnLoadPlayerIdentityHook::new(());
    let mut players = PlayerIdentities::default();
    let mut memory = Ranges::new();
    memory.half_word(0x100_0000 + ACTOR_PLAYER_KEY_OFFSET, 0x1111);
    assert!(identity_events_for_actor(&mut players, &memory, 0x100_0000, 5, 6).is_empty());

    // The key of the actor changes, but the first one is remembered.
    let mut changed = Ranges::new();
    changed.half_word(0x100_0000 + ACTOR_PLAYER_KEY_OFFSET, 0x2222);
    add_record(&mut changed, 0x10_0000, 0x2222, snapshot("Name", 1, 1));
    assert!(identity_events_for_actor(&mut players, &changed, 0x100_0000, 5, 6).is_empty());
    hook.run(&mut players, &changed, 0x10_0000);
    assert_eq!(identity_events_for_actor(&mut players, &changed, 0x100_0000, 5, 6).len(), 1);

    // The same record again changes nothing.
    hook.run(&mut players, &changed, 0x10_0000);
    assert_eq!(known_player_actor_addresses(&players), [0x100_0000]);
}

#[test]
fn records_without_a_player_are_passed_over() {
    let hook = OnLoadPlayerIdentityHook::new(());
    let records = [
        (0u32, snapshot("Name", 1, 1)),
        (INVALID_PLAYER_KEY, snapshot("Name", 1, 1)),
        // A placeholder.
        (0x1111, snapshot("Name", 1, 0)),
        // Not a party slot, not a flag, and no name.
        (0x1111, snapshot("Name", 4, 1)),
        (0x1111, snapshot("Name", 1, 2)),
        (0x1111, snapshot("", 1, 1)),
    ];
    for (key, bytes) in records {
        let mut players = PlayerIdentities::default();
        let mut memory = Ranges::new();
        add_record(&mut memory, 0x10_0000, key, bytes);
        memory.half_word(0x100_0000 + ACTOR_PLAYER_KEY_OFFSET, 0x1111);

        hook.run(&mut players, &memory, 0x10_0000);
        hook.run(&mut players, &memory, 0);
        hook.run(&mut players, &memory, 0x50_0000);

        assert!(identity_events_for_actor(&mut players, &memory, 0x100_0000, 5, 6).is_empty());
    }
}

#[test]
fn the_local_player_may_be_offline() {
    let mut players = PlayerIdentities::default();
    let mut memory = Ranges::new();
    let mut bytes = snapshot("Local", 0, 0);
    write_inline_vbuffer(&mut bytes, CHARACTER_NAME_OFFSET, "Djeeta");
    memory.regions.push((0x9000, bytes));
    memory.word(0x100_0000 + ACTOR_IDENTITY_SNAPSHOT_OFFSET, 0x9000);

    let events = identity_events_for_actor(&mut players, &memory, 0x100_0000, 5, 6);

    assert_eq!(events[0].display_name, "Local");
    assert_eq!(events[0].character_name, "Djeeta");
    assert!(!events[0].is_online);
}

#[test]
fn a_reset_forgets_party_keys_and_actors() {
    let hook = OnLoadPlayerIdentityHook::new(());
    let mut players = PlayerIdentities::default();
    let mut memory = Ranges::new();
    add_record(&mut memory, 0x10_0000, 0x1111, snapshot("First", 1, 1));
    memory.half_word(0x100_0000 + ACTOR_PLAYER_KEY_OFFSET, 0x1111);
    hook.run(&mut players, &memory, 0x10_0000);
    assert_eq!(identity_events_for_actor(&mut players, &memory, 0x100_0000, 5, 6).len(), 1);

    reset_battle_identity_state(&mut players);

    assert!(known_player_actor_addresses(&players).is_empty());
    assert!(identity_events_for_actor(&mut players, &memory, 0x100_0000, 5, 6).is_empty());
}
