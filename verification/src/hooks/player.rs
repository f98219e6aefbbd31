//! Who plays which actor.
//!
//! The game keeps a snapshot of each player's identity and refreshes it as a
//! party forms. A player's actor links to its snapshot; where that link cannot
//! be read, the player key that actor and snapshot share tells the player,
//! provided that no other player has the same key.

use std::collections::HashMap;
use pelite::pe64::PeView;
use vstd::prelude::*;
use crate::hooks;
use crate::hooks::HookError;
use crate::memory;
use crate::memory::{
    read_process_bytes, read_process_half_word, read_process_word, Memory,
};
use crate::outcome;
use crate::process;
use crate::process::Process;
use crate::protocol::PlayerIdentityEvent;
use crate::text::text_from_utf8;

verus! {

/// Where a player record links to the identity snapshot. The record is not an
/// actor.
pub const PLAYER_IDENTITY_OFFSET: u64 = 0x5E60;

/// Where a player record holds the player key.
pub const PLAYER_KEY_OFFSET: u64 = 0x5EA8;

/// Where a snapshot says whether the player is online.
pub const IS_ONLINE_OFFSET: u64 = 0x1C8;

/// Where a snapshot holds the character name.
pub const CHARACTER_NAME_OFFSET: u64 = 0x1E8;

/// Where a snapshot holds the display name.
pub const DISPLAY_NAME_OFFSET: u64 = 0x208;

/// Where a snapshot holds the party index.
pub const PARTY_INDEX_OFFSET: u64 = 0x22C;

/// The longest text that a text buffer holds in place.
pub const VBUFFER_INLINE_CAPACITY: u64 = 0x0F;

/// The largest capacity that a text buffer is believed to have.
pub const MAX_VBUFFER_CAPACITY: u64 = 0x1000;

/// The longest name that is believed to be one.
pub const MAX_PLAYER_NAME_BYTES: u64 = 0x100;

/// The player key that stands for no player.
pub const INVALID_PLAYER_KEY: u32 = 0x887A_E0B0;

/// Where a player's actor links to the identity snapshot. The party index in
/// that snapshot holds even when several players use the same character.
pub const ACTOR_IDENTITY_SNAPSHOT_OFFSET: u64 = 0x1AE90;

/// Where a player's actor holds the player key. Players with the same character
/// share it, so it never decides between several names.
pub const ACTOR_PLAYER_KEY_OFFSET: u64 = 0x1AB40;

/// The first instructions of the function that refreshes a player record.
pub const REFRESH_PLAYER_IDENTITY_SIG: &'static str = "55 41 57 41 56 41 54 56 57 53 48 83 ec 70 48 8d 6c 24 70 48 c7 45 f8 fe ff ff ff 80 b9 bc 5e 00 00 00";

/// How a player is called and where the player stands in the party.
#[derive(Debug)]
pub struct StoredPlayerIdentity {
    pub character_name: String,
    pub display_name: String,
    pub party_index: u8,
    pub is_online: bool,
}

/// What a [`StoredPlayerIdentity`] says.
#[verifier::ext_equal]
pub struct IdentityView {
    pub character_name: Seq<char>,
    pub display_name: Seq<char>,
    pub party_index: u8,
    pub is_online: bool,
}

impl View for StoredPlayerIdentity {
    type V = IdentityView;

    open spec fn view(&self) -> IdentityView {
        IdentityView {
            character_name: self.character_name@,
            display_name: self.display_name@,
            party_index: self.party_index,
            is_online: self.is_online,
        }
    }
}

impl StoredPlayerIdentity {
    /// A copy of the identity.
    pub fn copied(&self) -> (copy: StoredPlayerIdentity)
        ensures
            copy@ == self@,
    {
        StoredPlayerIdentity {
            character_name: self.character_name.clone(),
            display_name: self.display_name.clone(),
            party_index: self.party_index,
            is_online: self.is_online,
        }
    }

    /// Whether two identities are the same.
    pub fn is_same(&self, other: &StoredPlayerIdentity) -> (same: bool)
        ensures
            same == (self@ == other@),
    {
        self.character_name == other.character_name && self.display_name == other.display_name
            && self.party_index == other.party_index && self.is_online == other.is_online
    }
}

/// The identity and the player key in one slot of the party.
#[derive(Debug)]
pub struct StoredPartyIdentity {
    pub player_key: u32,
    pub identity: StoredPlayerIdentity,
}

/// What a [`StoredPartyIdentity`] says.
#[verifier::ext_equal]
pub struct PartyIdentityView {
    pub player_key: u32,
    pub identity: IdentityView,
}

impl View for StoredPartyIdentity {
    type V = PartyIdentityView;

    open spec fn view(&self) -> PartyIdentityView {
        PartyIdentityView { player_key: self.player_key, identity: self.identity@ }
    }
}

/// The identities in a party, by slot.
pub struct IdentityStore {
    by_party: HashMap<u8, StoredPartyIdentity>,
}

impl View for IdentityStore {
    type V = Map<u8, PartyIdentityView>;

    closed spec fn view(&self) -> Map<u8, PartyIdentityView> {
        self.by_party@.map_values(|value: StoredPartyIdentity| value@)
    }
}

/// The identities with this key in the slots below `end`, by slot.
pub open spec fn with_key(
    party: Map<u8, PartyIdentityView>,
    player_key: u32,
    end: nat,
) -> Seq<IdentityView>
    decreases end,
{
    if end == 0 {
        Seq::empty()
    } else {
        let earlier = with_key(party, player_key, (end - 1) as nat);
        let slot = (end - 1) as u8;
        if party.contains_key(slot) && party[slot].player_key == player_key {
            earlier.push(party[slot].identity)
        } else {
            earlier
        }
    }
}

/// The identities with this key, by slot.
pub open spec fn all_with_key(party: Map<u8, PartyIdentityView>, player_key: u32) -> Seq<
    IdentityView,
> {
    with_key(party, player_key, 256)
}

/// What a list of identities says.
pub open spec fn identity_views(identities: Seq<StoredPlayerIdentity>) -> Seq<IdentityView> {
    identities.map_values(|identity: StoredPlayerIdentity| identity@)
}

impl Default for IdentityStore {
    /// An empty party.
    fn default() -> (store: Self)
        ensures
            store@ == Map::<u8, PartyIdentityView>::empty(),
    {
        let store = IdentityStore { by_party: HashMap::new() };
        assert(store@ =~= Map::empty());
        store
    }
}

impl IdentityStore {
    /// Puts an identity into its slot. Says whether that changed anything.
    pub fn insert(&mut self, player_key: u32, identity: StoredPlayerIdentity) -> (changed: bool)
        ensures
            final(self)@ == old(self)@.insert(
                identity.party_index,
                (PartyIdentityView { player_key, identity: identity@ }),
            ),
            changed == (final(self)@ != old(self)@),
    {
        broadcast use vstd::std_specs::hash::group_hash_axioms;

        let ghost before = self@;
        let ghost value = PartyIdentityView { player_key, identity: identity@ };
        let party_index = identity.party_index;
        if let Some(known) = self.by_party.get(&party_index) {
            if known.player_key == player_key && known.identity.is_same(&identity) {
                assert(before[party_index] == value);
                assert(before.insert(party_index, value) =~= before);
                return false;
            }
            assert(before[party_index] == known@);
            assert(known@ != value);
        }
        assert(before.contains_key(party_index) ==> before[party_index] != value);
        self.by_party.insert(party_index, StoredPartyIdentity { player_key, identity });
        assert(self@ =~= before.insert(party_index, value));
        assert(self@.contains_key(party_index) && self@[party_index] == value);
        true
    }

    /// The identities with this key, by slot.
    pub fn identities_for_key(&self, player_key: u32) -> (identities: Vec<StoredPlayerIdentity>)
        ensures
            identity_views(identities@) == all_with_key(self@, player_key),
    {
        broadcast use vstd::std_specs::hash::group_hash_axioms;

        let mut identities: Vec<StoredPlayerIdentity> = Vec::new();
        assert(identity_views(identities@) =~= Seq::empty());
        let mut end: u16 = 0;
        while end < 256
            invariant
                end <= 256,
                identity_views(identities@) == with_key(self@, player_key, end as nat),
            decreases 256 - end,
        {
            broadcast use vstd::std_specs::hash::group_hash_axioms;

            let slot: u8 = end as u8;
            let ghost before = identity_views(identities@);
            if let Some(value) = self.by_party.get(&slot) {
                if value.player_key == player_key {
                    identities.push(value.identity.copied());
                    assert(identity_views(identities@) =~= before.push(self@[slot].identity));
                }
            }
            end = end + 1;
        }
        identities
    }

    /// Empties the party.
    pub fn clear(&mut self)
        ensures
            final(self)@ == Map::<u8, PartyIdentityView>::empty(),
    {
        self.by_party.clear();
        assert(self@ =~= Map::empty());
    }
}

/// What is known of the players of the current battle.
pub struct PlayerIdentities {
    identities: IdentityStore,
    actor_keys: HashMap<u64, u32>,
    actor_identities: HashMap<u64, StoredPlayerIdentity>,
}

/// What [`PlayerIdentities`] hold.
#[verifier::ext_equal]
pub struct PlayersView {
    /// The party, by slot.
    pub party: Map<u8, PartyIdentityView>,
    /// The player keys that have been read, by actor.
    pub actor_keys: Map<u64, u32>,
    /// The identities that have been resolved, by actor.
    pub actor_identities: Map<u64, IdentityView>,
}

impl View for PlayerIdentities {
    type V = PlayersView;

    closed spec fn view(&self) -> PlayersView {
        PlayersView {
            party: self.identities@,
            actor_keys: self.actor_keys@,
            actor_identities: self.actor_identities@.map_values(
                |identity: StoredPlayerIdentity| identity@,
            ),
        }
    }
}

/// Nothing is known of any player.
pub open spec fn nobody() -> PlayersView {
    PlayersView { party: Map::empty(), actor_keys: Map::empty(), actor_identities: Map::empty() }
}

/// Whether an identity belongs to a player. Before an online party is complete
/// the game fills the other slots with offline placeholders that carry the
/// local player's name.
pub open spec fn is_player(identity: IdentityView) -> bool {
    identity.party_index == 0 || identity.is_online
}

/// Whether an identity belongs to a player and not to a placeholder.
pub fn should_cache_identity(identity: &StoredPlayerIdentity) -> (result: bool)
    ensures
        result == is_player(identity@),
{
    identity.party_index == 0 || identity.is_online
}

/// The text that the bytes of a name spell. A name is UTF-8 without NULs.
pub open spec fn name_text(bytes: Seq<u8>) -> Option<Seq<char>> {
    if vstd::utf8::valid_utf8(bytes) && !bytes.contains(0) {
        Some(vstd::utf8::decode_utf8(bytes))
    } else {
        None
    }
}

/// The outcomes of reading where the text of a buffer lies.
pub open spec fn text_address<M: Memory>(memory: &M, buffer: u64, max_size: u64) -> Set<
    Option<u64>,
> {
    if max_size > VBUFFER_INLINE_CAPACITY {
        memory::word_at(memory, buffer)
    } else {
        outcome::exactly(Some(buffer))
    }
}

/// The outcomes of reading a text buffer.
pub open spec fn vbuffer_at<M: Memory>(memory: &M, buffer: u64) -> Set<Option<Seq<char>>> {
    outcome::and_if_some(
        memory::word_at(memory, buffer.wrapping_add(0x10)),
        |used_size: u64|
            outcome::and_if_some(
                memory::word_at(memory, buffer.wrapping_add(0x18)),
                |max_size: u64|
                    if used_size > MAX_PLAYER_NAME_BYTES || max_size < used_size || max_size
                        > MAX_VBUFFER_CAPACITY {
                        outcome::exactly(None)
                    } else {
                        outcome::and_if_some(
                            text_address(memory, buffer, max_size),
                            |address: u64|
                                if address == 0 {
                                    outcome::exactly(None)
                                } else {
                                    outcome::and_if_some(
                                        memory::bytes_at(memory, address, used_size as usize),
                                        |bytes: Seq<u8>| outcome::exactly(name_text(bytes)),
                                    )
                                },
                        )
                    },
            ),
    )
}

/// What an optional text says.
pub open spec fn text_view(text: Option<String>) -> Option<Seq<char>> {
    match text {
        Some(s) => Some(s@),
        None => None,
    }
}

/// Takes the text that the bytes of a name spell.
pub fn name_from_bytes(bytes: Vec<u8>) -> (name: Option<String>)
    ensures
        text_view(name) == name_text(bytes@),
{
    let mut i: usize = 0;
    while i < bytes.len()
        invariant
            i <= bytes@.len(),
            forall|j: int| 0 <= j < i ==> bytes@[j] != 0,
        decreases bytes@.len() - i,
    {
        if bytes[i] == 0 {
            assert(bytes@.contains(0));
            return None;
        }
        i = i + 1;
    }
    text_from_utf8(bytes)
}

/// Reads a text buffer.
pub fn read_vbuffer<M: Memory>(memory: &M, buffer: u64) -> (text: Option<String>)
    ensures
        vbuffer_at(memory, buffer).contains(text_view(text)),
{
    let used_word = read_process_word(memory, buffer.wrapping_add(0x10));
    assert(memory::word_at(memory, buffer.wrapping_add(0x10)).contains(used_word));
    let used_size = match used_word {
        Some(size) => size,
        None => return None,
    };
    let max_word = read_process_word(memory, buffer.wrapping_add(0x18));
    assert(memory::word_at(memory, buffer.wrapping_add(0x18)).contains(max_word));
    let max_size = match max_word {
        Some(size) => size,
        None => return None,
    };
    if used_size > MAX_PLAYER_NAME_BYTES || max_size < used_size || max_size
        > MAX_VBUFFER_CAPACITY {
        return None;
    }
    let address_word = if max_size > VBUFFER_INLINE_CAPACITY {
        read_process_word(memory, buffer)
    } else {
        Some(buffer)
    };
    assert(text_address(memory, buffer, max_size).contains(address_word));
    let address = match address_word {
        Some(address) => address,
        None => return None,
    };
    if address == 0 {
        return None;
    }
    match read_process_bytes(memory, address, used_size as usize) {
        Some(bytes) => {
            assert(memory::bytes_at(memory, address, used_size as usize).contains(Some(bytes@)));
            name_from_bytes(bytes)
        },
        None => {
            assert(memory::bytes_at(memory, address, used_size as usize).contains(None));
            None
        },
    }
}

/// The outcomes of reading the names in a snapshot.
pub open spec fn names_at<M: Memory>(
    memory: &M,
    snapshot: u64,
    party_index: u32,
    is_online: u32,
) -> Set<Option<IdentityView>> {
    outcome::and_if_some(
        vbuffer_at(memory, snapshot.wrapping_add(DISPLAY_NAME_OFFSET)),
        |display_name: Seq<char>|
            if display_name.len() == 0 {
                outcome::exactly(None)
            } else {
                outcome::mapped(
                    vbuffer_at(memory, snapshot.wrapping_add(CHARACTER_NAME_OFFSET)),
                    |character_name: Option<Seq<char>>|
                        Some(
                            IdentityView {
                                character_name: match character_name {
                                    Some(name) => name,
                                    None => Seq::empty(),
                                },
                                display_name,
                                party_index: party_index as u8,
                                is_online: is_online != 0,
                            },
                        ),
                )
            },
    )
}

/// The outcomes of reading an identity snapshot.
pub open spec fn identity_at<M: Memory>(memory: &M, snapshot: u64) -> Set<Option<IdentityView>> {
    if snapshot == 0 {
        outcome::exactly(None)
    } else {
        outcome::and_if_some(
            memory::half_word_at(memory, snapshot.wrapping_add(IS_ONLINE_OFFSET)),
            |is_online: u32|
                outcome::and_if_some(
                    memory::half_word_at(memory, snapshot.wrapping_add(PARTY_INDEX_OFFSET)),
                    |party_index: u32|
                        if is_online > 1 || party_index > 3 {
                            outcome::exactly(None)
                        } else {
                            names_at(memory, snapshot, party_index, is_online)
                        },
                ),
        )
    }
}

/// What an optional identity says.
pub open spec fn identity_view(identity: Option<StoredPlayerIdentity>) -> Option<IdentityView> {
    match identity {
        Some(i) => Some(i@),
        None => None,
    }
}

/// Reads the names in a snapshot.
fn read_names<M: Memory>(memory: &M, snapshot: u64, party_index: u32, is_online: u32) -> (identity:
    Option<StoredPlayerIdentity>)
    requires
        party_index <= 3,
    ensures
        names_at(memory, snapshot, party_index, is_online).contains(identity_view(identity)),
{
    let display_text = read_vbuffer(memory, snapshot.wrapping_add(DISPLAY_NAME_OFFSET));
    assert(vbuffer_at(memory, snapshot.wrapping_add(DISPLAY_NAME_OFFSET)).contains(
        text_view(display_text),
    ));
    let display_name = match display_text {
        Some(name) => name,
        None => return None,
    };
    if display_name.as_str().is_empty() {
        return None;
    }
    let character_text = read_vbuffer(memory, snapshot.wrapping_add(CHARACTER_NAME_OFFSET));
    assert(vbuffer_at(memory, snapshot.wrapping_add(CHARACTER_NAME_OFFSET)).contains(
        text_view(character_text),
    ));
    let character_name = match character_text {
        Some(name) => name,
        None => String::new(),
    };
    Some(
        StoredPlayerIdentity {
            character_name,
            display_name,
            party_index: party_index as u8,
            is_online: is_online != 0,
        },
    )
}

/// Reads an identity snapshot.
pub fn read_player_identity<M: Memory>(memory: &M, snapshot: u64) -> (identity: Option<
    StoredPlayerIdentity,
>)
    ensures
        identity_at(memory, snapshot).contains(identity_view(identity)),
{
    if snapshot == 0 {
        return None;
    }
    let online_word = read_process_half_word(memory, snapshot.wrapping_add(IS_ONLINE_OFFSET));
    assert(memory::half_word_at(memory, snapshot.wrapping_add(IS_ONLINE_OFFSET)).contains(
        online_word,
    ));
    let is_online = match online_word {
        Some(word) => word,
        None => return None,
    };
    let party_word = read_process_half_word(memory, snapshot.wrapping_add(PARTY_INDEX_OFFSET));
    assert(memory::half_word_at(memory, snapshot.wrapping_add(PARTY_INDEX_OFFSET)).contains(
        party_word,
    ));
    let party_index = match party_word {
        Some(word) => word,
        None => return None,
    };
    if is_online > 1 || party_index > 3 {
        return None;
    }
    read_names(memory, snapshot, party_index, is_online)
}

/// Whether a player key stands for a player.
pub open spec fn is_key(player_key: u32) -> bool {
    player_key != 0 && player_key != INVALID_PLAYER_KEY
}

/// The outcomes of reading the player key of an actor.
pub open spec fn actor_key_at<M: Memory>(memory: &M, actor: u64) -> Set<Option<u32>> {
    outcome::mapped(
        memory::half_word_at(memory, actor.wrapping_add(ACTOR_PLAYER_KEY_OFFSET)),
        |word: Option<u32>|
            match word {
                Some(key) => if is_key(key) {
                    Some(key)
                } else {
                    None
                },
                None => None,
            },
    )
}

/// Reads the player key of an actor.
pub fn read_actor_player_key<M: Memory>(memory: &M, actor: u64) -> (player_key: Option<u32>)
    ensures
        actor_key_at(memory, actor).contains(player_key),
{
    let word = read_process_half_word(memory, actor.wrapping_add(ACTOR_PLAYER_KEY_OFFSET));
    assert(memory::half_word_at(memory, actor.wrapping_add(ACTOR_PLAYER_KEY_OFFSET)).contains(
        word,
    ));
    match word {
        Some(key) => if key != 0 && key != INVALID_PLAYER_KEY {
            Some(key)
        } else {
            None
        },
        None => None,
    }
}

/// The outcomes of reading the identity that an actor links to.
pub open spec fn actor_identity_at<M: Memory>(memory: &M, actor: u64) -> Set<
    Option<IdentityView>,
> {
    outcome::and_if_some(
        memory::word_at(memory, actor.wrapping_add(ACTOR_IDENTITY_SNAPSHOT_OFFSET)),
        |snapshot: u64|
            outcome::and_if_some(
                identity_at(memory, snapshot),
                |identity: IdentityView|
                    if is_player(identity) {
                        outcome::exactly(Some(identity))
                    } else {
                        outcome::exactly(None)
                    },
            ),
    )
}

/// Reads the identity that an actor links to.
pub fn read_actor_identity<M: Memory>(memory: &M, actor: u64) -> (identity: Option<
    StoredPlayerIdentity,
>)
    ensures
        actor_identity_at(memory, actor).contains(identity_view(identity)),
{
    let link = actor.wrapping_add(ACTOR_IDENTITY_SNAPSHOT_OFFSET);
    let snapshot_word = read_process_word(memory, link);
    assert(memory::word_at(memory, link).contains(snapshot_word));
    let snapshot = match snapshot_word {
        Some(snapshot) => snapshot,
        None => return None,
    };
    let identity = read_player_identity(memory, snapshot);
    assert(identity_at(memory, snapshot).contains(identity_view(identity)));
    match identity {
        Some(identity) => if should_cache_identity(&identity) {
            Some(identity)
        } else {
            None
        },
        None => None,
    }
}

/// What a [`PlayerIdentityEvent`] says.
#[verifier::ext_equal]
pub struct EventView {
    pub identity: IdentityView,
    pub character_type: u32,
    pub actor_index: u32,
}

/// What an event says.
pub open spec fn event_view(event: PlayerIdentityEvent) -> EventView {
    EventView {
        identity: IdentityView {
            character_name: event.character_name@,
            display_name: event.display_name@,
            party_index: event.party_index,
            is_online: event.is_online,
        },
        character_type: event.character_type,
        actor_index: event.actor_index,
    }
}

/// What a list of events says.
pub open spec fn event_views(events: Seq<PlayerIdentityEvent>) -> Seq<EventView> {
    events.map_values(|event: PlayerIdentityEvent| event_view(event))
}

/// The event that tells who plays an actor.
pub fn identity_event(
    identity: StoredPlayerIdentity,
    character_type: u32,
    actor_index: u32,
) -> (event: PlayerIdentityEvent)
    ensures
        event_view(event) == (EventView { identity: identity@, character_type, actor_index }),
{
    PlayerIdentityEvent {
        character_name: identity.character_name,
        display_name: identity.display_name,
        character_type,
        party_index: identity.party_index,
        actor_index,
        is_online: identity.is_online,
    }
}

/// The players with an actor's identity resolved.
pub open spec fn resolved(players: PlayersView, actor: u64, identity: IdentityView) -> PlayersView {
    PlayersView {
        actor_identities: players.actor_identities.insert(actor, identity),
        ..players
    }
}

/// The outcomes of looking up the player key of an actor: the key, and the
/// players afterwards.
pub open spec fn key_lookups<M: Memory>(memory: &M, players: PlayersView, actor: u64) -> Set<
    (Option<u32>, PlayersView),
> {
    if players.actor_keys.contains_key(actor) {
        outcome::exactly((Some(players.actor_keys[actor]), players))
    } else {
        outcome::mapped(
            actor_key_at(memory, actor),
            |player_key: Option<u32>|
                match player_key {
                    Some(key) => (
                        Some(key),
                        PlayersView {
                            actor_keys: players.actor_keys.insert(actor, key),
                            ..players
                        },
                    ),
                    None => (None, players),
                },
        )
    }
}

/// The identity of an actor with this key and the players afterwards. A key
/// that several players share tells nothing.
pub open spec fn by_key(players: PlayersView, actor: u64, player_key: u32) -> (
    Option<IdentityView>,
    PlayersView,
) {
    let candidates = all_with_key(players.party, player_key);
    if candidates.len() == 1 {
        (Some(candidates[0]), resolved(players, actor, candidates[0]))
    } else {
        (None, players)
    }
}

/// The outcomes of resolving who plays an actor: the identity, and the players
/// afterwards.
pub open spec fn resolutions<M: Memory>(memory: &M, players: PlayersView, actor: u64) -> Set<
    (Option<IdentityView>, PlayersView),
> {
    if actor == 0 {
        outcome::exactly((None, players))
    } else if players.actor_identities.contains_key(actor) {
        outcome::exactly((Some(players.actor_identities[actor]), players))
    } else {
        outcome::and_then(
            actor_identity_at(memory, actor),
            |direct: Option<IdentityView>|
                match direct {
                    Some(identity) => outcome::exactly(
                        (Some(identity), resolved(players, actor, identity)),
                    ),
                    None => outcome::mapped(
                        key_lookups(memory, players, actor),
                        |lookup: (Option<u32>, PlayersView)|
                            match lookup.0 {
                                Some(key) => by_key(lookup.1, actor, key),
                                None => (None, lookup.1),
                            },
                    ),
                },
        )
    }
}

/// The events for an actor whose identity may have been resolved.
pub open spec fn events_of(
    identity: Option<IdentityView>,
    character_type: u32,
    actor_index: u32,
) -> Seq<EventView> {
    match identity {
        Some(identity) => seq![EventView { identity, character_type, actor_index }],
        None => Seq::empty(),
    }
}

/// The outcomes of telling who plays an actor: the events, and the players
/// afterwards.
pub open spec fn emissions<M: Memory>(
    memory: &M,
    players: PlayersView,
    actor: u64,
    character_type: u32,
    actor_index: u32,
) -> Set<(Seq<EventView>, PlayersView)> {
    outcome::mapped(
        resolutions(memory, players, actor),
        |resolution: (Option<IdentityView>, PlayersView)|
            (events_of(resolution.0, character_type, actor_index), resolution.1),
    )
}

/// The players after a snapshot with this key has been refreshed. Actors may
/// be used for another player whenever a slot changes, so what was known of
/// them is dropped then.
pub open spec fn stored(players: PlayersView, player_key: u32, identity: IdentityView) -> PlayersView {
    let party = players.party.insert(
        identity.party_index,
        PartyIdentityView { player_key, identity },
    );
    if party == players.party {
        players
    } else {
        PlayersView { party, actor_keys: Map::empty(), actor_identities: Map::empty() }
    }
}

/// The outcomes of the game's refresh of a player record: the players afterwards.
pub open spec fn refreshes<M: Memory>(memory: &M, players: PlayersView, record: u64) -> Set<
    PlayersView,
> {
    if record == 0 {
        outcome::exactly(players)
    } else {
        outcome::and_then(
            memory::word_at(memory, record.wrapping_add(PLAYER_IDENTITY_OFFSET)),
            |snapshot: Option<u64>|
                match snapshot {
                    None => outcome::exactly(players),
                    Some(snapshot) => outcome::and_then(
                        memory::half_word_at(memory, record.wrapping_add(PLAYER_KEY_OFFSET)),
                        |player_key: Option<u32>|
                            match player_key {
                                None => outcome::exactly(players),
                                Some(key) => if is_key(key) {
                                    outcome::mapped(
                                        identity_at(memory, snapshot),
                                        |identity: Option<IdentityView>|
                                            match identity {
                                                Some(i) => if is_player(i) {
                                                    stored(players, key, i)
                                                } else {
                                                    players
                                                },
                                                None => players,
                                            },
                                    )
                                } else {
                                    outcome::exactly(players)
                                },
                            },
                    ),
                },
        )
    }
}

impl Default for PlayerIdentities {
    /// Nothing is known of any player.
    fn default() -> (players: Self)
        ensures
            players@ == nobody(),
    {
        let players = PlayerIdentities {
            identities: IdentityStore::default(),
            actor_keys: HashMap::new(),
            actor_identities: HashMap::new(),
        };
        assert(players@ =~= nobody());
        players
    }
}

impl PlayerIdentities {
    /// Remembers who plays an actor.
    fn remember(&mut self, actor: u64, identity: &StoredPlayerIdentity)
        ensures
            final(self)@ == resolved(old(self)@, actor, identity@),
    {
        broadcast use vstd::std_specs::hash::group_hash_axioms;

        self.actor_identities.insert(actor, identity.copied());
        assert(self@.actor_identities =~= old(self)@.actor_identities.insert(actor, identity@));
    }

    /// The player key of an actor.
    fn actor_key<M: Memory>(&mut self, memory: &M, actor: u64) -> (player_key: Option<u32>)
        ensures
            key_lookups(memory, old(self)@, actor).contains((player_key, final(self)@)),
    {
        broadcast use vstd::std_specs::hash::group_hash_axioms;

        if let Some(known) = self.actor_keys.get(&actor) {
            return Some(*known);
        }
        let player_key = read_actor_player_key(memory, actor);
        assert(actor_key_at(memory, actor).contains(player_key));
        if let Some(key) = player_key {
            self.actor_keys.insert(actor, key);
        }
        player_key
    }

    /// Resolves who plays an actor.
    pub fn resolve<M: Memory>(&mut self, memory: &M, actor: u64) -> (identity: Option<
        StoredPlayerIdentity,
    >)
        ensures
            resolutions(memory, old(self)@, actor).contains(
                (identity_view(identity), final(self)@),
            ),
    {
        broadcast use vstd::std_specs::hash::group_hash_axioms;

        if actor == 0 {
            return None;
        }
        if let Some(identity) = self.actor_identities.get(&actor) {
            return Some(identity.copied());
        }
        let direct = read_actor_identity(memory, actor);
        assert(actor_identity_at(memory, actor).contains(identity_view(direct)));
        if let Some(identity) = direct {
            self.remember(actor, &identity);
            return Some(identity);
        }
        let player_key = self.actor_key(memory, actor);
        let ghost middle = self@;
        assert(key_lookups(memory, old(self)@, actor).contains((player_key, middle)));
        let key = match player_key {
            Some(key) => key,
            None => return None,
        };
        let mut candidates = self.identities.identities_for_key(key);
        assert(identity_views(candidates@).len() == candidates@.len());
        if candidates.len() != 1 {
            return None;
        }
        assert(identity_views(candidates@)[0] == candidates@[0]@);
        match candidates.pop() {
            Some(identity) => {
                self.remember(actor, &identity);
                Some(identity)
            },
            None => None,
        }
    }

    /// Takes account of a player record that the game has refreshed.
    pub fn refresh<M: Memory>(&mut self, memory: &M, record: u64)
        ensures
            refreshes(memory, old(self)@, record).contains(final(self)@),
    {
        if record == 0 {
            return ;
        }
        let snapshot_word = read_process_word(memory, record.wrapping_add(PLAYER_IDENTITY_OFFSET));
        assert(memory::word_at(memory, record.wrapping_add(PLAYER_IDENTITY_OFFSET)).contains(
            snapshot_word,
        ));
        let snapshot = match snapshot_word {
            Some(snapshot) => snapshot,
            None => return ,
        };
        let key_word = read_process_half_word(memory, record.wrapping_add(PLAYER_KEY_OFFSET));
        assert(memory::half_word_at(memory, record.wrapping_add(PLAYER_KEY_OFFSET)).contains(
            key_word,
        ));
        let player_key = match key_word {
            Some(key) => key,
            None => return ,
        };
        if player_key == 0 || player_key == INVALID_PLAYER_KEY {
            return ;
        }
        let found = read_player_identity(memory, snapshot);
        assert(identity_at(memory, snapshot).contains(identity_view(found)));
        let identity = match found {
            Some(identity) => identity,
            None => return ,
        };
        if !should_cache_identity(&identity) {
            return ;
        }
        let ghost view = identity@;
        let changed = self.identities.insert(player_key, identity);
        if changed {
            self.actor_keys.clear();
            self.actor_identities.clear();
        }
        assert(self@ =~= stored(old(self)@, player_key, view));
    }
}

/// The actors whose players are known, in no particular order.
pub fn known_player_actor_addresses(players: &PlayerIdentities) -> (addresses: Vec<u64>)
    ensures
        addresses@.no_duplicates(),
        addresses@.to_set() == players@.actor_identities.dom(),
{
    broadcast use vstd::std_specs::hash::group_hash_axioms;

    let mut addresses: Vec<u64> = Vec::new();
    let known = players.actor_identities.keys();
    let ghost all = vstd::std_specs::iter::IteratorSpec::remaining(&known);
    for address in iter: known
        invariant
            iter.seq() == all,
            addresses@ =~= all.unref().take(iter.index() as int),
    {
        addresses.push(*address);
    }
    assert(addresses@ =~= all.unref());
    assert(players@.actor_identities.dom() =~= players.actor_identities@.dom());
    addresses
}

/// Forgets every player, so that the next battle inherits none.
pub fn reset_battle_identity_state(players: &mut PlayerIdentities)
    ensures
        final(players)@ == nobody(),
{
    players.identities.clear();
    players.actor_keys.clear();
    players.actor_identities.clear();
    assert(players@ =~= nobody());
}

/// The events that tell who plays an actor: one if the player is known, and
/// none otherwise. The actor itself is asked first. Players with the same
/// character share a key, so a key that several players have names none of
/// them.
pub fn identity_events_for_actor<M: Memory>(
    players: &mut PlayerIdentities,
    memory: &M,
    actor: u64,
    character_type: u32,
    actor_index: u32,
) -> (events: Vec<PlayerIdentityEvent>)
    ensures
        emissions(memory, old(players)@, actor, character_type, actor_index).contains(
            (event_views(events@), final(players)@),
        ),
{
    let identity = players.resolve(memory, actor);
    let ghost known = identity_view(identity);
    assert(resolutions(memory, old(players)@, actor).contains((known, players@)));
    let mut events: Vec<PlayerIdentityEvent> = Vec::new();
    if let Some(identity) = identity {
        events.push(identity_event(identity, character_type, actor_index));
    }
    assert(event_views(events@) =~= events_of(known, character_type, actor_index));
    events
}

/// The hook on the game's refresh of player records. `T` is the type of the
/// channel that messages are sent through.
#[derive(Clone, Debug)]
pub struct OnLoadPlayerIdentityHook<T> {
    pub tx: T,
}

impl<T> OnLoadPlayerIdentityHook<T> {
    /// A hook that sends through `tx`.
    pub fn new(tx: T) -> (hook: Self)
        ensures
            hook.tx == tx,
    {
        OnLoadPlayerIdentityHook { tx }
    }

    /// Finds the function to hook.
    pub fn setup(&self, process: &Process, view: &PeView<'_>) -> (address: Result<u64, HookError>)
        ensures
            address == hooks::found_or(
                process::searched(
                    process::image_of(*view),
                    REFRESH_PLAYER_IDENTITY_SIG@,
                    |m: Seq<(u32, u32)>| process::first_match(process.base_address, m),
                ),
                HookError::PlayerIdentityNotFound,
            ),
    {
        proof {
            reveal_strlit(
                "55 41 57 41 56 41 54 56 57 53 48 83 ec 70 48 8d 6c 24 70 48 c7 45 f8 fe ff ff ff 80 b9 bc 5e 00 00 00",
            );
            process::lemma_short_signature(REFRESH_PLAYER_IDENTITY_SIG@);
        }
        match process.search_match_address(view, REFRESH_PLAYER_IDENTITY_SIG) {
            Ok(address) => Ok(address),
            Err(_) => Err(HookError::PlayerIdentityNotFound),
        }
    }

    /// Runs after the game has refreshed a player record.
    pub fn run<M: Memory>(&self, players: &mut PlayerIdentities, memory: &M, record: u64)
        ensures
            refreshes(memory, old(players)@, record).contains(final(players)@),
    {
        players.refresh(memory, record);
    }
}

/// Whether an identity can be one of a player: it has a name and a slot, and
/// is no placeholder.
pub open spec fn is_plausible(identity: IdentityView) -> bool {
    is_player(identity) && identity.display_name.len() > 0 && identity.party_index <= 3
}

/// Whether all that is known of the players is plausible, and each party slot
/// holds an identity for that slot.
pub open spec fn are_plausible(players: PlayersView) -> bool {
    &&& forall|slot: u8| #[trigger]
        players.party.contains_key(slot) ==> is_plausible(players.party[slot].identity)
            && players.party[slot].identity.party_index == slot && is_key(
            players.party[slot].player_key,
        )
    &&& forall|actor: u64| #[trigger]
        players.actor_identities.contains_key(actor) ==> is_plausible(
            players.actor_identities[actor],
        )
    &&& forall|actor: u64| #[trigger]
        players.actor_keys.contains_key(actor) ==> is_key(players.actor_keys[actor])
}

/// The identities with a key are those in the slots with that key.
proof fn lemma_with_key(
    party: Map<u8, PartyIdentityView>,
    player_key: u32,
    end: nat,
    identity: IdentityView,
)
    requires
        end <= 256,
    ensures
        with_key(party, player_key, end).contains(identity) <==> exists|slot: u8| #[trigger]
            party.contains_key(slot) && slot < end && party[slot].player_key == player_key
                && party[slot].identity == identity,
    decreases end,
{
    if end > 0 {
        let slot = (end - 1) as u8;
        let earlier = with_key(party, player_key, (end - 1) as nat);
        lemma_with_key(party, player_key, (end - 1) as nat, identity);
        if party.contains_key(slot) && party[slot].player_key == player_key {
            let all = earlier.push(party[slot].identity);
            if earlier.contains(identity) {
                let i = earlier.index_of(identity);
                assert(all[i] == identity);
            }
            assert(all[earlier.len() as int] == party[slot].identity);
        }
    }
}

/// The identities with a key stand by slot.
proof fn lemma_with_key_sorted(party: Map<u8, PartyIdentityView>, player_key: u32, end: nat)
    requires
        end <= 256,
        forall|slot: u8| #[trigger]
            party.contains_key(slot) ==> party[slot].identity.party_index == slot,
    ensures
        forall|i: int|
            0 <= i < with_key(party, player_key, end).len() ==> (#[trigger] with_key(
                party,
                player_key,
                end,
            )[i]).party_index < end,
        forall|i: int, j: int|
            0 <= i < j < with_key(party, player_key, end).len() ==> (#[trigger] with_key(
                party,
                player_key,
                end,
            )[i]).party_index < (#[trigger] with_key(party, player_key, end)[j]).party_index,
    decreases end,
{
    if end > 0 {
        let earlier = with_key(party, player_key, (end - 1) as nat);
        let all = with_key(party, player_key, end);
        let slot = (end - 1) as u8;
        lemma_with_key_sorted(party, player_key, (end - 1) as nat);
        assert(forall|i: int| 0 <= i < earlier.len() ==> #[trigger] all[i] == earlier[i]);
        if party.contains_key(slot) && party[slot].player_key == player_key {
            assert(all == earlier.push(party[slot].identity));
        }
    }
}

/// The identities with a key are those of the slots with that key, and they
/// stand by slot, each slot at most once.
pub proof fn law_identities_for_a_key(
    party: Map<u8, PartyIdentityView>,
    player_key: u32,
    identity: IdentityView,
)
    requires
        forall|slot: u8| #[trigger]
            party.contains_key(slot) ==> party[slot].identity.party_index == slot,
    ensures
        all_with_key(party, player_key).contains(identity) <==> exists|slot: u8| #[trigger]
            party.contains_key(slot) && party[slot].player_key == player_key
                && party[slot].identity == identity,
        forall|i: int, j: int|
            0 <= i < j < all_with_key(party, player_key).len() ==> (#[trigger] all_with_key(
                party,
                player_key,
            )[i]).party_index < (#[trigger] all_with_key(party, player_key)[j]).party_index,
{
    lemma_with_key(party, player_key, 256, identity);
    lemma_with_key_sorted(party, player_key, 256);
}

/// A slot that is taken over belongs to its new player alone: the new key
/// finds the new identity, and no other key finds the slot.
pub proof fn law_a_slot_has_one_player(
    party: Map<u8, PartyIdentityView>,
    player_key: u32,
    identity: IdentityView,
    other_key: u32,
    other: IdentityView,
)
    requires
        forall|slot: u8| #[trigger]
            party.contains_key(slot) ==> party[slot].identity.party_index == slot,
        other_key != player_key,
    ensures
        ({
            let after = party.insert(
                identity.party_index,
                PartyIdentityView { player_key, identity },
            );
            &&& all_with_key(after, player_key).contains(identity)
            &&& all_with_key(after, other_key).contains(other) ==> other.party_index
                != identity.party_index
        }),
{
    let after = party.insert(identity.party_index, PartyIdentityView { player_key, identity });
    lemma_with_key(after, player_key, 256, identity);
    lemma_with_key(after, other_key, 256, other);
    assert(after.contains_key(identity.party_index));
}

/// An empty party has no identities, whatever the key.
pub proof fn law_an_empty_party_has_no_identities(player_key: u32)
    ensures
        all_with_key(Map::empty(), player_key) == Seq::<IdentityView>::empty(),
{
    let none = all_with_key(Map::empty(), player_key);
    if none.len() > 0 {
        lemma_with_key(Map::empty(), player_key, 256, none[0]);
        assert(none.contains(none[0]));
    }
    assert(none =~= Seq::empty());
}

/// A snapshot gives a plausible identity or none.
proof fn lemma_identity_at<M: Memory>(memory: &M, snapshot: u64, identity: Option<IdentityView>)
    requires
        identity_at(memory, snapshot).contains(identity),
    ensures
        identity matches Some(i) ==> i.display_name.len() > 0 && i.party_index <= 3,
{
}

/// Telling who plays an actor keeps what is known plausible. Each event names a
/// plausible player and carries the type and the number that were given, and
/// there is at most one.
pub proof fn law_telling_keeps_players_plausible<M: Memory>(
    memory: &M,
    players: PlayersView,
    actor: u64,
    character_type: u32,
    actor_index: u32,
    events: Seq<EventView>,
    after: PlayersView,
)
    requires
        are_plausible(players),
        emissions(memory, players, actor, character_type, actor_index).contains((events, after)),
    ensures
        are_plausible(after),
        after.party == players.party,
        events.len() <= 1,
        events.len() == 1 ==> is_plausible(events[0].identity) && events[0].character_type
            == character_type && events[0].actor_index == actor_index,
{
    let resolution = choose|resolution: (Option<IdentityView>, PlayersView)| #[trigger]
        resolutions(memory, players, actor).contains(resolution) && (
            events_of(resolution.0, character_type, actor_index),
            resolution.1,
        ) == (events, after);
    lemma_resolution(memory, players, actor, resolution.0, resolution.1);
}

/// Resolving an actor keeps what is known plausible.
proof fn lemma_resolution<M: Memory>(
    memory: &M,
    players: PlayersView,
    actor: u64,
    identity: Option<IdentityView>,
    after: PlayersView,
)
    requires
        are_plausible(players),
        resolutions(memory, players, actor).contains((identity, after)),
    ensures
        are_plausible(after),
        after.party == players.party,
        identity matches Some(i) ==> is_plausible(i) && after.actor_identities.contains_key(actor)
            && after.actor_identities[actor] == i,
{
    if actor != 0 && !players.actor_identities.contains_key(actor) {
        let direct = choose|direct: Option<IdentityView>| #[trigger]
            actor_identity_at(memory, actor).contains(direct) && (match direct {
                Some(found) => outcome::exactly((Some(found), resolved(players, actor, found))),
                None => outcome::mapped(
                    key_lookups(memory, players, actor),
                    |lookup: (Option<u32>, PlayersView)|
                        match lookup.0 {
                            Some(key) => by_key(lookup.1, actor, key),
                            None => (None, lookup.1),
                        },
                ),
            }).contains((identity, after));
        match direct {
            Some(found) => {
                lemma_actor_identity(memory, actor, found);
            },
            None => {
                let lookup = choose|lookup: (Option<u32>, PlayersView)| #[trigger]
                    key_lookups(memory, players, actor).contains(lookup) && (match lookup.0 {
                        Some(key) => by_key(lookup.1, actor, key),
                        None => (None, lookup.1),
                    }) == (identity, after);
                assert(are_plausible(lookup.1));
                assert(lookup.1.party == players.party);
                match lookup.0 {
                    Some(key) => {
                        let candidates = all_with_key(lookup.1.party, key);
                        if candidates.len() == 1 {
                            assert(candidates.contains(candidates[0]));
                            lemma_with_key(lookup.1.party, key, 256, candidates[0]);
                        }
                    },
                    None => {},
                }
            },
        }
    }
}

/// An actor links to a plausible identity or to none.
proof fn lemma_actor_identity<M: Memory>(memory: &M, actor: u64, identity: IdentityView)
    requires
        actor_identity_at(memory, actor).contains(Some(identity)),
    ensures
        is_plausible(identity),
{
    let link = actor.wrapping_add(ACTOR_IDENTITY_SNAPSHOT_OFFSET);
    let snapshot = choose|snapshot: u64| #[trigger]
        memory::word_at(memory, link).contains(Some(snapshot)) && outcome::and_if_some(
            identity_at(memory, snapshot),
            |identity: IdentityView|
                if is_player(identity) {
                    outcome::exactly(Some(identity))
                } else {
                    outcome::exactly(None)
                },
        ).contains(Some(identity));
    assert(identity_at(memory, snapshot).contains(Some(identity)));
    lemma_identity_at(memory, snapshot, Some(identity));
}

/// A refresh keeps what is known plausible, so no placeholder is ever kept. It
/// either changes nothing, or changes one slot and drops what was known of the
/// actors.
pub proof fn law_a_refresh_keeps_players_plausible<M: Memory>(
    memory: &M,
    players: PlayersView,
    record: u64,
    after: PlayersView,
)
    requires
        are_plausible(players),
        refreshes(memory, players, record).contains(after),
    ensures
        are_plausible(after),
        after == players || after.party != players.party && after.actor_keys == Map::<
            u64,
            u32,
        >::empty() && after.actor_identities == Map::<u64, IdentityView>::empty() && exists|
            slot: u8,
        | #[trigger]
            after.party.contains_key(slot) && after.party.remove(slot) == players.party.remove(
                slot,
            ),
{
    if after != players {
        let (snapshot, key, identity) = choose|
            snapshot: u64,
            key: u32,
            identity: IdentityView,
        | #[trigger]
            identity_at(memory, snapshot).contains(Some(identity)) && is_key(key) && is_player(
                identity,
            ) && #[trigger] stored(players, key, identity) == after;
        lemma_identity_at(memory, snapshot, Some(identity));
        let slot = identity.party_index;
        assert(after.party.contains_key(slot));
        assert(after.party.remove(slot) =~= players.party.remove(slot));
    }
}

/// Forgetting everything keeps what is known plausible.
pub proof fn law_nobody_is_plausible()
    ensures
        are_plausible(nobody()),
{
}

/// An actor whose player has been resolved is told again on every call, with
/// whatever type and number the caller gives, and nothing changes.
pub proof fn law_a_resolved_actor_is_told_again<M: Memory>(
    memory: &M,
    players: PlayersView,
    actor: u64,
    character_type: u32,
    actor_index: u32,
    told: (Seq<EventView>, PlayersView),
)
    requires
        actor != 0,
        players.actor_identities.contains_key(actor),
    ensures
        emissions(memory, players, actor, character_type, actor_index).contains(told) <==> told == (
            seq![
                EventView {
                    identity: players.actor_identities[actor],
                    character_type,
                    actor_index,
                },
            ],
            players,
        ),
{
    let again = (Some(players.actor_identities[actor]), players);
    assert(resolutions(memory, players, actor).contains(again));
}

/// An actor that was told once is told the same player from then on, until the
/// party changes.
pub proof fn law_telling_resolves<M: Memory>(
    memory: &M,
    players: PlayersView,
    actor: u64,
    character_type: u32,
    actor_index: u32,
    events: Seq<EventView>,
    after: PlayersView,
)
    requires
        are_plausible(players),
        emissions(memory, players, actor, character_type, actor_index).contains((events, after)),
        events.len() > 0,
    ensures
        actor != 0,
        after.actor_identities.contains_key(actor),
        after.actor_identities[actor] == events[0].identity,
{
    let resolution = choose|resolution: (Option<IdentityView>, PlayersView)| #[trigger]
        resolutions(memory, players, actor).contains(resolution) && (
            events_of(resolution.0, character_type, actor_index),
            resolution.1,
        ) == (events, after);
    lemma_resolution(memory, players, actor, resolution.0, resolution.1);
}

/// A key that no player has, or that several players have, names nobody: an
/// actor that is not resolved and links to no identity is told only if its key
/// is that of exactly one player.
pub proof fn law_an_ambiguous_key_names_nobody<M: Memory>(
    memory: &M,
    players: PlayersView,
    actor: u64,
    character_type: u32,
    actor_index: u32,
    events: Seq<EventView>,
    after: PlayersView,
)
    requires
        emissions(memory, players, actor, character_type, actor_index).contains((events, after)),
        !players.actor_identities.contains_key(actor),
        forall|direct: Option<IdentityView>| #[trigger]
            actor_identity_at(memory, actor).contains(direct) ==> direct is None,
        forall|lookup: (Option<u32>, PlayersView)| #[trigger]
            key_lookups(memory, players, actor).contains(lookup) ==> (lookup.0 matches Some(key)
                ==> all_with_key(players.party, key).len() != 1),
    ensures
        events == Seq::<EventView>::empty(),
{
    let resolution = choose|resolution: (Option<IdentityView>, PlayersView)| #[trigger]
        resolutions(memory, players, actor).contains(resolution) && (
            events_of(resolution.0, character_type, actor_index),
            resolution.1,
        ) == (events, after);
    if actor != 0 {
        let lookup = choose|lookup: (Option<u32>, PlayersView)| #[trigger]
            key_lookups(memory, players, actor).contains(lookup) && (match lookup.0 {
                Some(key) => by_key(lookup.1, actor, key),
                None => (None, lookup.1),
            }) == resolution;
        assert(lookup.1.party == players.party);
    }
}

/// The identity that an actor links to wins over any key.
pub proof fn law_the_actor_itself_is_asked_first<M: Memory>(
    memory: &M,
    players: PlayersView,
    actor: u64,
    character_type: u32,
    actor_index: u32,
    events: Seq<EventView>,
    after: PlayersView,
)
    requires
        actor != 0,
        !players.actor_identities.contains_key(actor),
        forall|direct: Option<IdentityView>| #[trigger]
            actor_identity_at(memory, actor).contains(direct) ==> direct is Some,
        emissions(memory, players, actor, character_type, actor_index).contains((events, after)),
    ensures
        events.len() == 1,
        actor_identity_at(memory, actor).contains(Some(events[0].identity)),
{
}

/// A refresh of the record of a player who is online, or who has the first
/// slot, leaves that player with the record's key in the player's slot, and
/// every other slot as it was. Offline figures in the other slots, and records
/// without a key or a readable snapshot, change nothing. What was known of actors
/// is dropped exactly if a slot changed.
pub proof fn law_a_refresh_stores_who_plays<M: Memory>(
    memory: &M,
    players: PlayersView,
    record: u64,
    snapshot: u64,
    player_key: u32,
    identity: Option<IdentityView>,
    after: PlayersView,
)
    requires
        outcome::is_only(memory::word_at(memory, record.wrapping_add(0x5E60)), Some(snapshot)),
        outcome::is_only(
            memory::half_word_at(memory, record.wrapping_add(0x5EA8)),
            Some(player_key),
        ),
        outcome::is_only(identity_at(memory, snapshot), identity),
        refreshes(memory, players, record).contains(after),
    ensures
        record != 0 && player_key != 0 && player_key != 0x887A_E0B0 && (identity matches Some(i)
            && (i.is_online || i.party_index == 0)) ==> {
            let slot = identity->0.party_index;
            let entry = PartyIdentityView { player_key, identity: identity->0 };
            &&& after.party.contains_key(slot) && after.party[slot] == entry
            &&& forall|other: u8|
                other != slot ==> (#[trigger] after.party.contains_key(other)
                    <==> players.party.contains_key(other)) && (players.party.contains_key(other)
                    ==> after.party[other] == players.party[other])
            &&& players.party.contains_key(slot) && players.party[slot] == entry ==> after
                == players
            &&& !(players.party.contains_key(slot) && players.party[slot] == entry)
                ==> after.actor_keys == Map::<u64, u32>::empty() && after.actor_identities
                == Map::<u64, IdentityView>::empty()
        },
        record == 0 || player_key == 0 || player_key == 0x887A_E0B0 || identity is None ==> after
            == players,
        identity matches Some(i) ==> (!i.is_online && i.party_index != 0 ==> after == players),
{
    if identity is Some {
        let i = identity->0;
        let entry = PartyIdentityView { player_key, identity: i };
        if players.party.contains_key(i.party_index) && players.party[i.party_index] == entry {
            assert(players.party.insert(i.party_index, entry) =~= players.party);
        } else {
            assert(players.party.insert(i.party_index, entry)[i.party_index] == entry);
            assert(players.party.insert(i.party_index, entry) != players.party) by {
                if players.party.insert(i.party_index, entry) == players.party {
                    assert(players.party.contains_key(i.party_index));
                    assert(players.party[i.party_index] == entry);
                }
            }
        }
    }
}

/// A snapshot is read as it is laid out: it says whether the player is online
/// and in which of the four slots, and holds the names. One with other figures,
/// or without a display name, is none. A character name that cannot be read is
/// left empty.
pub proof fn law_a_snapshot_is_read<M: Memory>(
    memory: &M,
    snapshot: u64,
    is_online: u32,
    party_index: u32,
    character_name: Option<Seq<char>>,
    display_name: Option<Seq<char>>,
    identity: Option<IdentityView>,
)
    requires
        outcome::is_only(
            memory::half_word_at(memory, snapshot.wrapping_add(0x1C8)),
            Some(is_online),
        ),
        outcome::is_only(
            memory::half_word_at(memory, snapshot.wrapping_add(0x22C)),
            Some(party_index),
        ),
        outcome::is_only(vbuffer_at(memory, snapshot.wrapping_add(0x1E8)), character_name),
        outcome::is_only(vbuffer_at(memory, snapshot.wrapping_add(0x208)), display_name),
        identity_at(memory, snapshot).contains(identity),
    ensures
        identity is Some <==> snapshot != 0 && is_online < 2 && party_index < 4 && (
        display_name matches Some(name) && name.len() > 0),
        identity matches Some(i) ==> {
            &&& Some(i.display_name) == display_name
            &&& i.party_index == party_index
            &&& i.is_online == (is_online == 1)
            &&& character_name matches Some(name) ==> i.character_name == name
            &&& character_name is None ==> i.character_name.len() == 0
        },
{
}

/// A text buffer says how long its text is and how much it has room for. A text
/// of up to 15 bytes lies in the buffer, and a pointer to the text in its place
/// where there is more room. Only plausible sizes and UTF-8 without NULs count.
pub proof fn law_a_text_buffer_is_read<M: Memory>(
    memory: &M,
    buffer: u64,
    used_size: u64,
    max_size: u64,
    pointer: u64,
    address: u64,
    bytes: Seq<u8>,
    text: Option<Seq<char>>,
)
    requires
        outcome::is_only(memory::word_at(memory, buffer.wrapping_add(0x10)), Some(used_size)),
        outcome::is_only(memory::word_at(memory, buffer.wrapping_add(0x18)), Some(max_size)),
        outcome::is_only(memory::word_at(memory, buffer), Some(pointer)),
        address == (if max_size < 16 {
            buffer
        } else {
            pointer
        }),
        outcome::is_only(memory::bytes_at(memory, address, used_size as usize), Some(bytes)),
        vbuffer_at(memory, buffer).contains(text),
    ensures
        text is Some <==> used_size <= 256 && used_size <= max_size <= 4096 && address != 0
            && vstd::utf8::valid_utf8(bytes) && !bytes.contains(0),
        text is Some ==> text == Some(vstd::utf8::decode_utf8(bytes)),
{
}

/// An actor names the player that its snapshot tells, if that player is online
/// or has the first slot.
pub proof fn law_an_actor_tells_who_plays_it<M: Memory>(
    memory: &M,
    actor: u64,
    snapshot: u64,
    identity: Option<IdentityView>,
    result: Option<IdentityView>,
)
    requires
        outcome::is_only(memory::word_at(memory, actor.wrapping_add(0x1AE90)), Some(snapshot)),
        outcome::is_only(identity_at(memory, snapshot), identity),
        actor_identity_at(memory, actor).contains(result),
    ensures
        identity matches Some(i) ==> if i.is_online || i.party_index == 0 {
            result == identity
        } else {
            result is None
        },
        identity is None ==> result is None,
{
}

/// An actor of which nothing is known and which does not tell who plays it is
/// played by the one player with its key. No key, a key that nobody has and one
/// that several have name nobody.
pub proof fn law_a_key_names_its_one_player<M: Memory>(
    memory: &M,
    players: PlayersView,
    actor: u64,
    key: u32,
    slot: u8,
    character_type: u32,
    actor_index: u32,
    events: Seq<EventView>,
    after: PlayersView,
)
    requires
        actor != 0,
        !players.actor_identities.contains_key(actor),
        !players.actor_keys.contains_key(actor),
        outcome::is_only(actor_identity_at(memory, actor), None),
        outcome::is_only(memory::half_word_at(memory, actor.wrapping_add(0x1AB40)), Some(key)),
        emissions(memory, players, actor, character_type, actor_index).contains((events, after)),
    ensures
        key != 0 && key != 0x887A_E0B0 && players.party.contains_key(slot)
            && players.party[slot].player_key == key && (forall|other: u8|
            other != slot && #[trigger] players.party.contains_key(other)
                ==> players.party[other].player_key != key) ==> events.len() == 1
            && events[0].identity == players.party[slot].identity && events[0].character_type
            == character_type && events[0].actor_index == actor_index
            && after.actor_identities.contains_key(actor) && after.actor_identities[actor]
            == players.party[slot].identity,
        key == 0 || key == 0x887A_E0B0 ==> events.len() == 0 && after == players,
        (forall|other: u8| #[trigger]
            players.party.contains_key(other) ==> players.party[other].player_key != key)
            ==> events.len() == 0,
        after.party == players.party,
{
    lemma_only_with_key(players.party, key, 256, slot);
}

/// The identities with a key: none where no slot below the end has it, and
/// that of the only slot that has it.
proof fn lemma_only_with_key(party: Map<u8, PartyIdentityView>, key: u32, end: nat, slot: u8)
    requires
        end <= 256,
    ensures
        (forall|other: u8|
            other < end && #[trigger] party.contains_key(other) ==> party[other].player_key != key)
            ==> with_key(party, key, end).len() == 0,
        slot < end && party.contains_key(slot) && party[slot].player_key == key && (forall|
            other: u8,
        |
            other < end && other != slot && #[trigger] party.contains_key(other)
                ==> party[other].player_key != key) ==> with_key(party, key, end) == seq![
            party[slot].identity,
        ],
    decreases end,
{
    if end > 0 {
        lemma_only_with_key(party, key, (end - 1) as nat, slot);
        let last = (end - 1) as u8;
        assert(last == end - 1);
        if slot == last {
            assert(with_key(party, key, end) =~= with_key(party, key, (end - 1) as nat).push(
                party[slot].identity,
            ) || !(party.contains_key(slot) && party[slot].player_key == key));
        }
    }
}

/// Names, slots and whether a player is online are told as they are kept, in a
/// slot of the party and in an event.
pub proof fn law_players_are_told_as_they_are_kept(
    identity: StoredPlayerIdentity,
    entry: StoredPartyIdentity,
    event: PlayerIdentityEvent,
)
    ensures
        identity@.character_name == identity.character_name@,
        identity@.display_name == identity.display_name@,
        identity@.party_index == identity.party_index,
        identity@.is_online == identity.is_online,
        entry@.player_key == entry.player_key,
        entry@.identity == entry.identity@,
        event_view(event).identity.character_name == event.character_name@,
        event_view(event).identity.display_name == event.display_name@,
        event_view(event).identity.party_index == event.party_index,
        event_view(event).identity.is_online == event.is_online,
        event_view(event).character_type == event.character_type,
        event_view(event).actor_index == event.actor_index,
{
}

/// The function that refreshes player records begins where its signature first
/// matches.
pub proof fn law_refreshes_are_hooked_where_they_begin<T>(
    hook: &OnLoadPlayerIdentityHook<T>,
    process: &Process,
    view: &PeView<'_>,
    address: Result<u64, HookError>,
)
    requires
        call_ensures(OnLoadPlayerIdentityHook::<T>::setup, (hook, process, view), address),
    ensures
        match process::searched(
            process::image_of(*view),
            "55 41 57 41 56 41 54 56 57 53 48 83 ec 70 48 8d 6c 24 70 48 c7 45 f8 fe ff ff ff 80 b9 bc 5e 00 00 00"@,
            |m: Seq<(u32, u32)>| process::first_match(process.base_address, m),
        ) {
            Ok(begun) => address == Ok::<u64, HookError>(begun),
            Err(_) => address == Err::<u64, HookError>(HookError::PlayerIdentityNotFound),
        },
{
}

/// A snapshot that cannot be read in full names nobody.
pub proof fn law_an_unreadable_snapshot_names_nobody<M: Memory>(
    memory: &M,
    snapshot: u64,
    identity: Option<IdentityView>,
)
    requires
        ({
            ||| snapshot == 0
            ||| outcome::is_only(memory::half_word_at(memory, snapshot.wrapping_add(0x1C8)), None)
            ||| outcome::is_only(memory::half_word_at(memory, snapshot.wrapping_add(0x22C)), None)
            ||| outcome::is_only(vbuffer_at(memory, snapshot.wrapping_add(0x208)), None)
        }),
        identity_at(memory, snapshot).contains(identity),
    ensures
        identity is None,
{
}

/// A text buffer that cannot be read in full holds no text.
pub proof fn law_an_unreadable_buffer_holds_no_text<M: Memory>(
    memory: &M,
    buffer: u64,
    text: Option<Seq<char>>,
)
    requires
        ({
            ||| outcome::is_only(memory::word_at(memory, buffer.wrapping_add(0x10)), None)
            ||| outcome::is_only(memory::word_at(memory, buffer.wrapping_add(0x18)), None)
        }),
        vbuffer_at(memory, buffer).contains(text),
    ensures
        text is None,
{
}

/// A record that cannot be read changes nothing, and an actor that cannot be read
/// tells nothing of itself.
pub proof fn law_what_cannot_be_read_changes_nothing<M: Memory>(
    memory: &M,
    players: PlayersView,
    address: u64,
    after: PlayersView,
    identity: Option<IdentityView>,
    player_key: Option<u32>,
)
    requires
        refreshes(memory, players, address).contains(after),
        actor_identity_at(memory, address).contains(identity),
        actor_key_at(memory, address).contains(player_key),
    ensures
        outcome::is_only(memory::word_at(memory, address.wrapping_add(0x5E60)), None) ==> after
            == players,
        outcome::is_only(memory::half_word_at(memory, address.wrapping_add(0x5EA8)), None)
            ==> after == players,
        outcome::is_only(memory::word_at(memory, address.wrapping_add(0x1AE90)), None)
            ==> identity is None,
        outcome::is_only(memory::half_word_at(memory, address.wrapping_add(0x1AB40)), None)
            ==> player_key is None,
{
}

} // verus!
