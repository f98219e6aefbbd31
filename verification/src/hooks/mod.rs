//! The hooks into the game.
//!
//! This module keeps the numbers of the actors, leads a form or a pet back to
//! the player behind it, and decides which hooks the game can do without.

use std::collections::HashMap;
use vstd::prelude::*;
use crate::memory;
use crate::memory::{read_process_word, Memory};
use crate::outcome;
use crate::process;

pub mod damage;
pub mod damage_details;
pub mod parent_probe;
pub mod player;
pub mod status_collection;
pub mod status_layout;

use self::player::PlayerIdentities;

verus! {

/// The type of Id in human form.
pub const ID_HUMAN_TYPE: u32 = 0x8056ABCD;

/// The type of Id in dragon form.
pub const ID_DRAGON_TYPE: u32 = 0xF5755C0E;

/// Where Id's dragon form links to the entity of the human form.
pub const ID_DRAGON_PARENT_ENTITY_OFFSET: u64 = 0x1CA98;

/// The type of Ferry.
pub const FERRY_TYPE: u32 = 0xFBA6615D;

/// The type of Ferry's pets.
pub const FERRY_GHOST_TYPE: u32 = 0x2AF678E8;

/// Where Ferry's pets link to Ferry's entity.
pub const FERRY_GHOST_PARENT_ENTITY_OFFSET: u64 = 0xE58;

/// The type of the satellites of Ferry's pets.
pub const FERRY_SATELLITE_TYPE: u32 = 0x8364C8BC;

/// Where the satellites of Ferry's pets link to Ferry's entity.
pub const FERRY_SATELLITE_PARENT_ENTITY_OFFSET: u64 = 0x508;

/// The type of Cagliostro's dragon sled.
pub const DRAGON_SLED_TYPE: u32 = 0xC9F45042;

/// Where the dragon sled links to its owner's entity.
pub const DRAGON_SLED_PARENT_ENTITY_OFFSET: u64 = 0x578;

/// The type of Seofon's avatar.
pub const AVATAR_TYPE: u32 = 0x5B1AB457;

/// Where the avatar links to its owner's entity.
pub const AVATAR_PARENT_ENTITY_OFFSET: u64 = 0x500;

/// The type of Rosetta's roses.
pub const ROSE_TYPE: u32 = 0x69C0CA71;

/// Where a rose links to its owner's entity.
pub const ROSE_PARENT_ENTITY_OFFSET: u64 = 0x7E0;

/// Where an entity links to its actor.
pub const SPECIFIED_INSTANCE_OFFSET: u64 = 0x70;

/// Why a hook could not be set up.
#[derive(Clone, Copy, Debug, PartialEq, Eq, Structural)]
pub enum HookError {
    /// The function that processes damage was not found.
    DamageNotFound,
    /// The function that processes damage over time was not found.
    DotNotFound,
    /// The function that refreshes player identities was not found.
    PlayerIdentityNotFound,
    /// Another function lies where the attack aggregation is expected.
    AttackPrefixMismatch,
    /// Another function lies where the defense aggregation is expected.
    DefensePrefixMismatch,
}

impl HookError {
    /// What the error says.
    pub open spec fn text(self) -> Seq<char> {
        match self {
            HookError::DamageNotFound => "Could not find process_dmg_evt"@,
            HookError::DotNotFound => "Could not find process_dot_evt"@,
            HookError::PlayerIdentityNotFound => "Could not find refresh_player_identity"@,
            HookError::AttackPrefixMismatch => "attack multiplier function prefix mismatch"@,
            HookError::DefensePrefixMismatch => "defense status function prefix mismatch"@,
        }
    }

    /// Says what went wrong.
    pub fn message(&self) -> (message: &'static str)
        ensures
            message@ == self.text(),
    {
        match self {
            HookError::DamageNotFound => "Could not find process_dmg_evt",
            HookError::DotNotFound => "Could not find process_dot_evt",
            HookError::PlayerIdentityNotFound => "Could not find refresh_player_identity",
            HookError::AttackPrefixMismatch => "attack multiplier function prefix mismatch",
            HookError::DefensePrefixMismatch => "defense status function prefix mismatch",
        }
    }
}

/// The numbers of the actors of the current battle. Two players with the same
/// character have separate actors and so separate numbers.
pub struct ActorIds {
    by_instance: HashMap<u64, u32>,
    next_id: u32,
}

/// What [`ActorIds`] hold.
#[verifier::ext_equal]
pub struct ActorIdsView {
    /// The numbers that have been given, by actor.
    pub ids: Map<u64, u32>,
    /// The number that the next actor gets.
    pub next_id: u32,
}

impl View for ActorIds {
    type V = ActorIdsView;

    closed spec fn view(&self) -> ActorIdsView {
        ActorIdsView { ids: self.by_instance@, next_id: self.next_id }
    }
}

/// No actor has a number.
pub open spec fn unnumbered() -> ActorIdsView {
    ActorIdsView { ids: Map::empty(), next_id: 0 }
}

/// The number of an actor, and the numbers afterwards.
pub open spec fn numbered(ids: ActorIdsView, instance: u64) -> (u32, ActorIdsView) {
    if ids.ids.contains_key(instance) {
        (ids.ids[instance], ids)
    } else {
        (
            ids.next_id,
            ActorIdsView {
                ids: ids.ids.insert(instance, ids.next_id),
                next_id: ids.next_id.wrapping_add(1),
            },
        )
    }
}

impl Default for ActorIds {
    /// No actor has a number yet.
    fn default() -> (ids: Self)
        ensures
            ids@ == unnumbered(),
    {
        let ids = ActorIds { by_instance: HashMap::new(), next_id: 0 };
        assert(ids@ =~= unnumbered());
        ids
    }
}

impl ActorIds {
    /// The number of an actor. An actor that has none gets the next one.
    pub fn id_for(&mut self, instance: u64) -> (id: u32)
        ensures
            (id, final(self)@) == numbered(old(self)@, instance),
    {
        broadcast use vstd::std_specs::hash::group_hash_axioms;

        if let Some(id) = self.by_instance.get(&instance) {
            return *id;
        }
        let id = self.next_id;
        self.next_id = self.next_id.wrapping_add(1);
        self.by_instance.insert(instance, id);
        assert(self@ =~= numbered(old(self)@, instance).1);
        id
    }

    /// Takes all numbers back.
    pub fn reset(&mut self)
        ensures
            final(self)@ == unnumbered(),
    {
        self.by_instance.clear();
        self.next_id = 0;
        assert(self@ =~= unnumbered());
    }
}

/// The number of an actor.
pub fn actor_idx(ids: &mut ActorIds, actor: u64) -> (index: u32)
    ensures
        (index, final(ids)@) == numbered(old(ids)@, actor),
{
    ids.id_for(actor)
}

/// Forgets the actors and the players of the battle that has ended. The game
/// reuses its actors and its player records, and the next battle must not
/// inherit what was known of them.
pub fn reset_battle_identity_state(ids: &mut ActorIds, players: &mut PlayerIdentities)
    ensures
        final(ids)@ == unnumbered(),
        final(players)@ == player::nobody(),
{
    ids.reset();
    player::reset_battle_identity_state(players);
}

/// The actors of the running game. Nothing is promised of what the game says
/// of them.
pub trait Actors: Memory {
    /// Asks an actor for its type.
    fn actor_type_id(&self, actor: u64) -> u32;
}

/// The outcomes of asking an actor for its type.
pub open spec fn types_of<G: Actors>(game: &G, actor: u64) -> Set<u32> {
    Set::new(|r: u32| call_ensures(G::actor_type_id, (game, actor), r))
}

/// How an actor leads to the actor that it belongs to.
#[derive(Clone, Copy, Debug)]
pub struct ParentLink {
    /// Where the actor links to the other's entity.
    pub offset: u64,
    /// The type of the other actor. Without it that actor is asked.
    pub parent_type: Option<u32>,
}

/// How the actors of a type lead to those they belong to.
pub open spec fn link_of(source_type_id: u32) -> Option<ParentLink> {
    if source_type_id == FERRY_GHOST_TYPE {
        Some(
            ParentLink {
                offset: FERRY_GHOST_PARENT_ENTITY_OFFSET,
                parent_type: Some(FERRY_TYPE),
            },
        )
    } else if source_type_id == FERRY_SATELLITE_TYPE {
        Some(
            ParentLink {
                offset: FERRY_SATELLITE_PARENT_ENTITY_OFFSET,
                parent_type: Some(FERRY_TYPE),
            },
        )
    } else if source_type_id == DRAGON_SLED_TYPE {
        Some(ParentLink { offset: DRAGON_SLED_PARENT_ENTITY_OFFSET, parent_type: None })
    } else if source_type_id == ID_DRAGON_TYPE {
        Some(
            ParentLink {
                offset: ID_DRAGON_PARENT_ENTITY_OFFSET,
                parent_type: Some(ID_HUMAN_TYPE),
            },
        )
    } else if source_type_id == AVATAR_TYPE {
        Some(ParentLink { offset: AVATAR_PARENT_ENTITY_OFFSET, parent_type: None })
    } else if source_type_id == ROSE_TYPE {
        Some(ParentLink { offset: ROSE_PARENT_ENTITY_OFFSET, parent_type: None })
    } else {
        None
    }
}

/// Says how the actors of a type lead to those they belong to. Id's dragon
/// form always belongs to the human form, so no actor is asked for that.
pub fn parent_link(source_type_id: u32) -> (link: Option<ParentLink>)
    ensures
        link == link_of(source_type_id),
{
    if source_type_id == FERRY_GHOST_TYPE {
        Some(
            ParentLink {
                offset: FERRY_GHOST_PARENT_ENTITY_OFFSET,
                parent_type: Some(FERRY_TYPE),
            },
        )
    } else if source_type_id == FERRY_SATELLITE_TYPE {
        Some(
            ParentLink {
                offset: FERRY_SATELLITE_PARENT_ENTITY_OFFSET,
                parent_type: Some(FERRY_TYPE),
            },
        )
    } else if source_type_id == DRAGON_SLED_TYPE {
        Some(ParentLink { offset: DRAGON_SLED_PARENT_ENTITY_OFFSET, parent_type: None })
    } else if source_type_id == ID_DRAGON_TYPE {
        Some(
            ParentLink {
                offset: ID_DRAGON_PARENT_ENTITY_OFFSET,
                parent_type: Some(ID_HUMAN_TYPE),
            },
        )
    } else if source_type_id == AVATAR_TYPE {
        Some(ParentLink { offset: AVATAR_PARENT_ENTITY_OFFSET, parent_type: None })
    } else if source_type_id == ROSE_TYPE {
        Some(ParentLink { offset: ROSE_PARENT_ENTITY_OFFSET, parent_type: None })
    } else {
        None
    }
}

/// The outcomes of following a link to an entity and on to its actor.
pub open spec fn specified_instance_at<M: Memory>(memory: &M, actor: u64, offset: u64) -> Set<
    Option<u64>,
> {
    outcome::and_if_some(
        memory::word_at(memory, actor.wrapping_add(offset)),
        |entity: u64|
            if entity == 0 {
                outcome::exactly(None)
            } else {
                outcome::and_if_some(
                    memory::word_at(memory, entity.wrapping_add(SPECIFIED_INSTANCE_OFFSET)),
                    |parent: u64|
                        if parent == 0 {
                            outcome::exactly(None)
                        } else {
                            outcome::exactly(Some(parent))
                        },
                )
            },
    )
}

/// Follows the link that an actor holds to an entity, and on to the actor of
/// that entity.
pub fn parent_specified_instance_at<M: Memory>(memory: &M, actor: u64, offset: u64) -> (parent:
    Option<u64>)
    ensures
        specified_instance_at(memory, actor, offset).contains(parent),
{
    let entity_word = read_process_word(memory, actor.wrapping_add(offset));
    assert(memory::word_at(memory, actor.wrapping_add(offset)).contains(entity_word));
    let entity = match entity_word {
        Some(entity) => entity,
        None => return None,
    };
    if entity == 0 {
        return None;
    }
    let parent_word = read_process_word(memory, entity.wrapping_add(SPECIFIED_INSTANCE_OFFSET));
    assert(memory::word_at(memory, entity.wrapping_add(SPECIFIED_INSTANCE_OFFSET)).contains(
        parent_word,
    ));
    match parent_word {
        Some(parent) => if parent == 0 {
            None
        } else {
            Some(parent)
        },
        None => None,
    }
}

/// The outcomes of leading an actor back to the one that it belongs to: that
/// actor's type and the actor.
pub open spec fn parents<G: Actors>(game: &G, source_type_id: u32, source: u64) -> Set<
    Option<(u32, u64)>,
> {
    match link_of(source_type_id) {
        None => outcome::exactly(None),
        Some(link) => outcome::and_if_some(
            specified_instance_at(game, source, link.offset),
            |parent: u64|
                match link.parent_type {
                    Some(parent_type) => outcome::exactly(Some((parent_type, parent))),
                    None => outcome::mapped(
                        types_of(game, parent),
                        |parent_type: u32| Some((parent_type, parent)),
                    ),
                },
        ),
    }
}

/// Leads an actor back to the player's actor that it belongs to.
pub fn get_source_parent_instance<G: Actors>(
    game: &G,
    source_type_id: u32,
    source: u64,
) -> (parent: Option<(u32, u64)>)
    ensures
        parents(game, source_type_id, source).contains(parent),
{
    let link = match parent_link(source_type_id) {
        Some(link) => link,
        None => return None,
    };
    let found = parent_specified_instance_at(game, source, link.offset);
    assert(specified_instance_at(game, source, link.offset).contains(found));
    let parent = match found {
        Some(parent) => parent,
        None => return None,
    };
    match link.parent_type {
        Some(parent_type) => Some((parent_type, parent)),
        None => {
            let parent_type = game.actor_type_id(parent);
            assert(types_of(game, parent).contains(parent_type));
            Some((parent_type, parent))
        },
    }
}

/// The type and the number of a parent, and the numbers afterwards.
pub open spec fn numbered_parent(ids: ActorIdsView, parent: Option<(u32, u64)>) -> (
    Option<(u32, u32)>,
    ActorIdsView,
) {
    match parent {
        Some((parent_type, actor)) => {
            let (index, after) = numbered(ids, actor);
            (Some((parent_type, index)), after)
        },
        None => (None, ids),
    }
}

/// The type and the number of the player's actor that an actor belongs to.
pub fn get_source_parent<G: Actors>(
    ids: &mut ActorIds,
    game: &G,
    source_type_id: u32,
    source: u64,
) -> (parent: Option<(u32, u32)>)
    ensures
        outcome::mapped(
            parents(game, source_type_id, source),
            |found: Option<(u32, u64)>| numbered_parent(old(ids)@, found),
        ).contains((parent, final(ids)@)),
{
    let found = get_source_parent_instance(game, source_type_id, source);
    assert(parents(game, source_type_id, source).contains(found));
    match found {
        Some((parent_type, actor)) => Some((parent_type, actor_idx(ids, actor))),
        None => None,
    }
}

/// What comes of finding the function to hook behind a signature.
pub open spec fn found_or(found: Result<u64, process::SearchError>, error: HookError) -> Result<
    u64,
    HookError,
> {
    match found {
        Ok(address) => Ok(address),
        Err(_) => Err(error),
    }
}

/// The hooks into the game.
#[derive(Clone, Copy, Debug, PartialEq, Eq, Structural)]
pub enum HookKind {
    /// The hooks on the aggregations of damage modifiers.
    DamageDetails,
    /// The hook on the function that processes damage.
    Damage,
    /// The hook on the function that refreshes player records.
    PlayerIdentity,
    /// The hook on the game's result screen.
    BattleEnd,
}

/// How installing the hooks that the meter can do without went.
#[derive(Debug)]
pub struct InstalledHooks<E> {
    pub damage_details: Result<(), E>,
    pub player_identity: Result<(), E>,
    pub battle_end: Result<(), E>,
}

/// Why the meter cannot run.
#[derive(Clone, Debug)]
pub enum SetupError<P, E> {
    /// The game's process was not found.
    Process(P),
    /// The function that processes damage could not be hooked.
    Damage(E),
}

/// The outcomes of installing a hook.
pub open spec fn installs<S, E, F: Fn(&S, HookKind) -> Result<(), E>>(
    process: &S,
    install: F,
    kind: HookKind,
) -> Set<Result<(), E>> {
    Set::new(|r: Result<(), E>| call_ensures(install, (process, kind), r))
}

/// The outcomes of setting all hooks up.
pub open spec fn setup_outcomes<S, P, E, F: Fn(&S, HookKind) -> Result<(), E>>(
    process: Result<S, P>,
    install: F,
) -> Set<Result<InstalledHooks<E>, SetupError<P, E>>> {
    match process {
        Err(error) => outcome::exactly(Err(SetupError::Process(error))),
        Ok(found) => outcome::and_then(
            installs(&found, install, HookKind::DamageDetails),
            |damage_details: Result<(), E>|
                outcome::and_then(
                    installs(&found, install, HookKind::Damage),
                    |damage: Result<(), E>|
                        match damage {
                            Err(error) => outcome::exactly(Err(SetupError::Damage(error))),
                            Ok(_) => outcome::and_then(
                                installs(&found, install, HookKind::PlayerIdentity),
                                |player_identity: Result<(), E>|
                                    outcome::mapped(
                                        installs(&found, install, HookKind::BattleEnd),
                                        |battle_end: Result<(), E>|
                                            Ok(
                                                InstalledHooks {
                                                    damage_details,
                                                    player_identity,
                                                    battle_end,
                                                },
                                            ),
                                    ),
                            ),
                        },
                ),
        ),
    }
}

/// Sets all hooks up in the game's process. The meter needs the hook on the
/// function that processes damage. Without the others it knows less: damage
/// has no details, players are told by their actors alone, and a battle ends
/// when nothing happens any more.
pub fn setup_hooks<S, P, E, F: Fn(&S, HookKind) -> Result<(), E>>(
    process: Result<S, P>,
    install: F,
) -> (result: Result<InstalledHooks<E>, SetupError<P, E>>)
    requires
        forall|found: &S, kind: HookKind| call_requires(install, (found, kind)),
    ensures
        setup_outcomes(process, install).contains(result),
{
    let found = match process {
        Ok(found) => found,
        Err(error) => return Err(SetupError::Process(error)),
    };
    let damage_details = install(&found, HookKind::DamageDetails);
    let ghost details_outcome = damage_details;
    assert(installs(&found, install, HookKind::DamageDetails).contains(details_outcome));
    let damage = install(&found, HookKind::Damage);
    let ghost damage_outcome = damage;
    assert(installs(&found, install, HookKind::Damage).contains(damage_outcome));
    if let Err(error) = damage {
        return Err(SetupError::Damage(error));
    }
    let player_identity = install(&found, HookKind::PlayerIdentity);
    let ghost identity_outcome = player_identity;
    assert(installs(&found, install, HookKind::PlayerIdentity).contains(identity_outcome));
    let battle_end = install(&found, HookKind::BattleEnd);
    let ghost end_outcome = battle_end;
    assert(installs(&found, install, HookKind::BattleEnd).contains(end_outcome));
    Ok(InstalledHooks { damage_details, player_identity, battle_end })
}

/// Whether no two actors have the same number, and the next number is new.
pub open spec fn are_distinct(ids: ActorIdsView) -> bool {
    &&& forall|actor: u64| #[trigger]
        ids.ids.contains_key(actor) ==> ids.ids[actor] < ids.next_id
    &&& forall|one: u64, other: u64|
        #![trigger ids.ids[one], ids.ids[other]]
        ids.ids.contains_key(one) && ids.ids.contains_key(other) && one != other ==> ids.ids[one]
            != ids.ids[other]
}

/// An actor keeps its number: asking for it again gives the same number and
/// changes nothing, and so does asking after other actors have been numbered.
pub proof fn law_a_number_is_kept(ids: ActorIdsView, actor: u64, other: u64)
    ensures
        ({
            let (number, after) = numbered(ids, actor);
            let later = numbered(after, other).1;
            &&& numbered(after, actor) == (number, after)
            &&& numbered(later, actor) == (number, later)
        }),
{
}

/// Different actors get different numbers, and all numbers stay distinct as
/// long as there is a next one.
pub proof fn law_numbers_are_distinct(ids: ActorIdsView, one: u64, other: u64)
    requires
        are_distinct(ids),
        one != other,
    ensures
        ({
            let (first, after) = numbered(ids, one);
            let (second, later) = numbered(after, other);
            &&& first != second
            &&& ids.next_id < u32::MAX ==> are_distinct(after)
            &&& ids.next_id < u32::MAX - 1 ==> are_distinct(later)
        }),
{
    let (first, after) = numbered(ids, one);
    let (second, later) = numbered(after, other);
    assert(after.ids[one] == first);
    assert(later.ids[other] == second);
    assert(later.ids[one] == first);
}

/// After a reset the numbers start again, whoever had them before.
pub proof fn law_numbers_restart_after_a_reset(one: u64, other: u64)
    requires
        one != other,
    ensures
        are_distinct(unnumbered()),
        numbered(unnumbered(), one).0 == 0,
        numbered(numbered(unnumbered(), one).1, other).0 == 1,
{
}

/// An actor of a type that belongs to nobody has no parent, and the game is
/// not asked for one.
pub proof fn law_only_known_forms_have_parents<G: Actors>(
    game: &G,
    source_type_id: u32,
    source: u64,
    parent: Option<(u32, u64)>,
)
    requires
        link_of(source_type_id) is None,
    ensures
        parents(game, source_type_id, source).contains(parent) <==> parent is None,
{
}

/// An actor whose link cannot be read has no parent.
pub proof fn law_an_unreadable_link_leads_nowhere<G: Actors>(
    game: &G,
    source_type_id: u32,
    source: u64,
    parent: Option<(u32, u64)>,
)
    requires
        link_of(source_type_id) matches Some(link) ==> forall|word: Option<u64>| #[trigger]
            memory::word_at(game, source.wrapping_add(link.offset)).contains(word) ==> word is None,
        parents(game, source_type_id, source).contains(parent),
    ensures
        parent is None,
{
}

/// A parent is never the null actor.
pub proof fn law_parents_are_actors<G: Actors>(
    game: &G,
    source_type_id: u32,
    source: u64,
    parent: Option<(u32, u64)>,
)
    requires
        parents(game, source_type_id, source).contains(parent),
    ensures
        parent matches Some(p) ==> p.1 != 0,
{
}

/// Without a hook on damage there is no meter; any other hook may fail.
pub proof fn law_only_the_damage_hook_is_needed<S, P, E, F: Fn(&S, HookKind) -> Result<(), E>>(
    process: Result<S, P>,
    install: F,
    result: Result<InstalledHooks<E>, SetupError<P, E>>,
)
    requires
        setup_outcomes(process, install).contains(result),
    ensures
        result is Ok ==> process is Ok,
        process is Ok ==> (result matches Err(error) ==> error is Damage && installs(
            &process->Ok_0,
            install,
            HookKind::Damage,
        ).contains(Err(error->Damage_0))),
{
}

/// Whether the actors of a type belong to another actor: where they link to the
/// entity of that actor, and its type if it is always the same.
pub open spec fn belongs(actor_type: u32, offset: u64, parent_type: Option<u32>) -> bool {
    ||| actor_type == 0x2AF678E8 && offset == 0xE58 && parent_type == Some(0xFBA6615Du32)
    ||| actor_type == 0x8364C8BC && offset == 0x508 && parent_type == Some(0xFBA6615Du32)
    ||| actor_type == 0xF5755C0E && offset == 0x1CA98 && parent_type == Some(0x8056ABCDu32)
    ||| actor_type == 0xC9F45042 && offset == 0x578 && parent_type is None
    ||| actor_type == 0x5B1AB457 && offset == 0x500 && parent_type is None
    ||| actor_type == 0x69C0CA71 && offset == 0x7E0 && parent_type is None
}

/// Ferry's pets and their satellites belong to Ferry, Id's dragon form to the
/// human form, and the dragon sled, the avatar and the roses to whomever they
/// link to, who is asked for the type. The link is to an entity, which links to
/// its actor.
pub proof fn law_forms_lead_to_their_players<G: Actors>(
    game: &G,
    source_type_id: u32,
    source: u64,
    offset: u64,
    parent_type: Option<u32>,
    entity: u64,
    parent: u64,
    found: Option<(u32, u64)>,
)
    requires
        belongs(source_type_id, offset, parent_type),
        outcome::is_only(memory::word_at(game, source.wrapping_add(offset)), Some(entity)),
        outcome::is_only(memory::word_at(game, entity.wrapping_add(0x70)), Some(parent)),
        parents(game, source_type_id, source).contains(found),
    ensures
        entity == 0 || parent == 0 ==> found is None,
        entity != 0 && parent != 0 ==> (found matches Some(f) && f.1 == parent && (
        match parent_type {
            Some(t) => f.0 == t,
            None => types_of(game, parent).contains(f.0),
        })),
{
}

/// Actors of all other types belong to nobody.
pub proof fn law_other_actors_are_their_own<G: Actors>(
    game: &G,
    source_type_id: u32,
    source: u64,
    found: Option<(u32, u64)>,
)
    requires
        forall|offset: u64, parent_type: Option<u32>|
            !#[trigger] belongs(source_type_id, offset, parent_type),
        parents(game, source_type_id, source).contains(found),
    ensures
        found is None,
{
    assert(!belongs(source_type_id, 0xE58, Some(0xFBA6615Du32)));
    assert(!belongs(source_type_id, 0x508, Some(0xFBA6615Du32)));
    assert(!belongs(source_type_id, 0x1CA98, Some(0x8056ABCDu32)));
    assert(!belongs(source_type_id, 0x578, None));
    assert(!belongs(source_type_id, 0x500, None));
    assert(!belongs(source_type_id, 0x7E0, None));
}

/// Numbers are given in order: an actor without one gets the next, and the
/// number after it is then the next.
pub proof fn law_numbers_are_given_in_order(ids: ActorIdsView, one: u64, other: u64)
    requires
        !ids.ids.contains_key(one),
        !ids.ids.contains_key(other),
        one != other,
        ids.next_id < u32::MAX,
    ensures
        ({
            let (first, after) = numbered(ids, one);
            let (second, later) = numbered(after, other);
            &&& first == ids.next_id
            &&& second == first + 1
            &&& after.ids == ids.ids.insert(one, first)
            &&& later.ids == ids.ids.insert(one, first).insert(other, second)
        }),
{
}

/// A parent is counted under its own type and its own number, which it keeps.
pub proof fn law_a_parent_keeps_its_number(
    ids: ActorIdsView,
    parent_type: u32,
    actor: u64,
)
    ensures
        ({
            let (found, after) = numbered_parent(ids, Some((parent_type, actor)));
            &&& found matches Some(f) && f.0 == parent_type && after.ids.contains_key(actor)
                && after.ids[actor] == f.1
            &&& ids.ids.contains_key(actor) ==> after == ids
        }),
        numbered_parent(ids, None) == (None::<(u32, u32)>, ids),
{
}

/// Once the hook on damage is in place there is a meter, and it knows of each
/// other hook whether it was put in place.
pub proof fn law_the_meter_knows_its_hooks<S, P, E, F: Fn(&S, HookKind) -> Result<(), E>>(
    found: S,
    install: F,
    details: Result<(), E>,
    identity: Result<(), E>,
    end: Result<(), E>,
    result: Result<InstalledHooks<E>, SetupError<P, E>>,
)
    requires
        outcome::is_only(installs(&found, install, HookKind::Damage), Ok(())),
        outcome::is_only(installs(&found, install, HookKind::DamageDetails), details),
        outcome::is_only(installs(&found, install, HookKind::PlayerIdentity), identity),
        outcome::is_only(installs(&found, install, HookKind::BattleEnd), end),
        setup_outcomes(Ok::<S, P>(found), install).contains(result),
    ensures
        result matches Ok(hooks) && hooks.damage_details == details && hooks.player_identity
            == identity && hooks.battle_end == end,
{
}

/// An actor is asked for its own type.
pub proof fn law_an_actor_is_asked_for_its_type<G: Actors>(
    game: &G,
    actor: u64,
    answer: u32,
    actor_type: u32,
)
    requires
        forall|r: u32| #[trigger]
            call_ensures(G::actor_type_id, (game, actor), r) ==> r == answer,
        types_of(game, actor).contains(actor_type),
    ensures
        actor_type == answer,
{
}

} // verus!
