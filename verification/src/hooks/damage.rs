//! The hooks on the functions that deal damage.

use pelite::pe64::PeView;
use vstd::prelude::*;
use crate::arithmetic;
use crate::arithmetic::Arithmetic;
use crate::hooks;
use crate::hooks::damage_details;
use crate::hooks::damage_details::{
    begin_damage, finish_damage, read_raw_fields, DamageProbe, DamageProbes, RawDamageFields,
    DAMAGE_INSTANCE_BYTES,
};
use crate::hooks::player;
use crate::hooks::player::{identity_events_for_actor, PlayerIdentities};
use crate::hooks::{
    actor_idx, get_source_parent_instance, ActorIds, Actors, HookError, SPECIFIED_INSTANCE_OFFSET,
};
use crate::memory;
use crate::memory::{read_process_half_word, read_process_signed, read_process_word, Memory};
use crate::outcome;
use crate::process;
use crate::process::Process;
use crate::protocol::{
    ActionType, Actor, DamageDetails, DamageEvent, Message, PlayerIdentityEvent,
};

verus! {

/// Where an actor holds the stun that has been applied to it.
pub const APPLIED_STUN_VALUE_OFFSET: u64 = 0xB90;

/// Where the target of a hit is linked from.
pub const TARGET_LINK_OFFSET: u64 = 0x08;

/// Where a damage instance links to the source's entity.
pub const SOURCE_ENTITY_OFFSET: u64 = 0x18;

/// Where a status that deals damage over time links to the target's entity.
pub const DOT_TARGET_OFFSET: u64 = 0x18;

/// Where a status that deals damage over time links to the source's entity.
pub const DOT_SOURCE_OFFSET: u64 = 0x30;

/// The outcomes of reading the stun that has been applied to an actor.
pub open spec fn applied_stun_at<A: Arithmetic, M: Memory>(memory: &M, target: u64) -> Set<
    Option<A::Single>,
> {
    outcome::and_if_some(
        memory::half_word_at(memory, target.wrapping_add(APPLIED_STUN_VALUE_OFFSET)),
        |word: u32|
            outcome::and_then(
                arithmetic::bits::<A>(word),
                |value: A::Single|
                    outcome::branch(
                        arithmetic::finite::<A>(outcome::exactly(value)),
                        outcome::exactly(Some(value)),
                        outcome::exactly(None),
                    ),
            ),
    )
}

/// Reads the stun that has been applied to an actor so far.
pub fn read_applied_stun_value<A: Arithmetic, M: Memory>(memory: &M, target: u64) -> (value: Option<
    A::Single,
>)
    ensures
        applied_stun_at::<A, M>(memory, target).contains(value),
{
    let address = target.wrapping_add(APPLIED_STUN_VALUE_OFFSET);
    let word = read_process_half_word(memory, address);
    assert(memory::half_word_at(memory, address).contains(word));
    let bits = match word {
        Some(bits) => bits,
        None => return None,
    };
    let value = A::from_bits(bits);
    assert(arithmetic::bits::<A>(bits).contains(value));
    let keep = A::is_finite(value);
    assert(arithmetic::finite::<A>(outcome::exactly(value)).contains(keep));
    if keep {
        Some(value)
    } else {
        None
    }
}

/// The outcomes of comparing the stun before and after a hit.
pub open spec fn stun_deltas<A: Arithmetic>(before: Option<A::Single>, after: Option<A::Single>) -> Set<
    Option<A::Single>,
> {
    match (before, after) {
        (Some(b), Some(a)) => outcome::branch(
            arithmetic::finite::<A>(outcome::exactly(b)),
            outcome::branch(
                arithmetic::finite::<A>(outcome::exactly(a)),
                outcome::mapped(
                    arithmetic::maximum::<A>(
                        arithmetic::difference::<A>(outcome::exactly(a), outcome::exactly(b)),
                        arithmetic::zero::<A>(),
                    ),
                    |delta: A::Single| Some(delta),
                ),
                outcome::exactly(None),
            ),
            outcome::exactly(None),
        ),
        _ => outcome::exactly(None),
    }
}

/// The stun that a hit has added. The game resets its count, which is then no
/// negative stun.
pub fn applied_stun_delta<A: Arithmetic>(before: Option<A::Single>, after: Option<A::Single>) -> (delta:
    Option<A::Single>)
    ensures
        stun_deltas::<A>(before, after).contains(delta),
{
    let b = match before {
        Some(b) => b,
        None => return None,
    };
    let a = match after {
        Some(a) => a,
        None => return None,
    };
    let before_finite = A::is_finite(b);
    assert(arithmetic::finite::<A>(outcome::exactly(b)).contains(before_finite));
    if !before_finite {
        return None;
    }
    let after_finite = A::is_finite(a);
    assert(arithmetic::finite::<A>(outcome::exactly(a)).contains(after_finite));
    if !after_finite {
        return None;
    }
    let difference = A::minus(a, b);
    let zero = A::zero();
    let delta = A::larger(difference, zero);
    assert(arithmetic::difference::<A>(outcome::exactly(a), outcome::exactly(b)).contains(
        difference,
    ));
    assert(arithmetic::maximum::<A>(
        arithmetic::difference::<A>(outcome::exactly(a), outcome::exactly(b)),
        arithmetic::zero::<A>(),
    ).contains(delta));
    Some(delta)
}

/// The outcomes of finding the stun of a hit. Supplementary damage claims none.
pub open spec fn event_stuns<A: Arithmetic>(
    action_type: ActionType,
    before: Option<A::Single>,
    after: Option<A::Single>,
) -> Set<Option<A::Single>> {
    if action_type is SupplementaryDamage {
        outcome::exactly(None)
    } else {
        stun_deltas::<A>(before, after)
    }
}

/// The stun of a hit.
pub fn stun_value_for_event<A: Arithmetic>(
    action_type: &ActionType,
    before: Option<A::Single>,
    after: Option<A::Single>,
) -> (value: Option<A::Single>)
    ensures
        event_stuns::<A>(*action_type, before, after).contains(value),
{
    match action_type {
        ActionType::SupplementaryDamage(_) => None,
        _ => applied_stun_delta::<A>(before, after),
    }
}

/// The type and number that damage is counted for: those that the resolver
/// gives, or else the source's own.
pub fn resolve_source_parent<F: FnOnce(u32, u64) -> Option<(u32, u32)>>(
    source_type_id: u32,
    source_idx: u32,
    source: u64,
    resolver: F,
) -> (parent: (u32, u32))
    requires
        call_requires(resolver, (source_type_id, source)),
    ensures
        exists|answer: Option<(u32, u32)>| #[trigger]
            call_ensures(resolver, (source_type_id, source), answer) && parent == match answer {
                Some(p) => p,
                None => (source_type_id, source_idx),
            },
{
    match resolver(source_type_id, source) {
        Some(parent) => parent,
        None => (source_type_id, source_idx),
    }
}

/// Whether a flag is set.
pub open spec fn has_flag(flags: u64, flag: u64) -> bool {
    (flags >> flag) & 1 == 1
}

/// The action that dealt damage with these flags.
pub open spec fn action_of(flags: u64, action_id: u32) -> ActionType {
    if has_flag(flags, 7) || has_flag(flags, 50) {
        ActionType::LinkAttack
    } else if has_flag(flags, 13) || has_flag(flags, 14) {
        ActionType::SBA
    } else if has_flag(flags, 15) {
        ActionType::SupplementaryDamage(action_id)
    } else {
        ActionType::Normal(action_id)
    }
}

/// Tells which action dealt damage with these flags.
pub fn classify_action(flags: u64, action_id: u32) -> (action_type: ActionType)
    ensures
        action_type == action_of(flags, action_id),
{
    assert((flags & 0x0004_0000_0000_0080 != 0) == ((flags >> 7) & 1 == 1 || (flags >> 50) & 1
        == 1)) by (bit_vector);
    assert((flags & 0x6000 != 0) == ((flags >> 13) & 1 == 1 || (flags >> 14) & 1 == 1))
        by (bit_vector);
    assert((flags & 0x8000 != 0) == ((flags >> 15) & 1 == 1)) by (bit_vector);
    if flags & 0x0004_0000_0000_0080 != 0 {
        ActionType::LinkAttack
    } else if flags & 0x6000 != 0 {
        ActionType::SBA
    } else if flags & 0x8000 != 0 {
        ActionType::SupplementaryDamage(action_id)
    } else {
        ActionType::Normal(action_id)
    }
}

/// Who dealt damage and who took it, with the events that name the player, and
/// the numbers and players afterwards.
#[verifier::ext_equal]
pub struct Attribution {
    pub source: Actor,
    pub target: Actor,
    pub identities: Seq<player::EventView>,
    pub ids: hooks::ActorIdsView,
    pub players: player::PlayersView,
}

/// The actor that a source's damage is counted for.
pub struct Credited {
    pub actor_type: u32,
    pub index: u32,
    pub actor: u64,
}

/// The actor that damage is counted for, and the numbers afterwards: the parent
/// if the source has one, and else the source.
pub open spec fn credited(
    ids: hooks::ActorIdsView,
    source_type_id: u32,
    source_idx: u32,
    source: u64,
    parent: Option<(u32, u64)>,
) -> (Credited, hooks::ActorIdsView) {
    match parent {
        Some((parent_type, parent_actor)) => {
            let (index, after) = hooks::numbered(ids, parent_actor);
            (Credited { actor_type: parent_type, index, actor: parent_actor }, after)
        },
        None => (Credited { actor_type: source_type_id, index: source_idx, actor: source }, ids),
    }
}

/// The attribution of damage to actors whose types and numbers are known.
pub open spec fn attribution_of(
    source_type: u32,
    source_idx: u32,
    credit: Credited,
    emission: (Seq<player::EventView>, player::PlayersView),
    target_type: u32,
    ids: hooks::ActorIdsView,
    target: u64,
) -> Attribution {
    let (target_idx, after) = hooks::numbered(ids, target);
    Attribution {
        source: Actor {
            index: source_idx,
            actor_type: source_type,
            parent_index: credit.index,
            parent_actor_type: credit.actor_type,
        },
        target: Actor {
            index: target_idx,
            actor_type: target_type,
            parent_index: target_idx,
            parent_actor_type: target_type,
        },
        identities: emission.0,
        ids: after,
        players: emission.1,
    }
}

/// The actors of a hit, as the game tells them.
#[derive(Clone, Copy, Debug)]
pub struct HitActors {
    /// The actor that dealt the damage.
    pub source: u64,
    pub source_type: u32,
    /// The type and the actor that the source belongs to, if there is one.
    pub parent: Option<(u32, u64)>,
    /// The actor that took the damage.
    pub target: u64,
    pub target_type: u32,
}

/// The outcomes of asking the game about the source and the target of a hit.
pub open spec fn actors_of<G: Actors>(game: &G, source: u64, target: u64) -> Set<HitActors> {
    outcome::and_then(
        hooks::types_of(game, source),
        |source_type: u32|
            outcome::and_then(
                hooks::parents(game, source_type, source),
                |parent: Option<(u32, u64)>|
                    outcome::mapped(
                        hooks::types_of(game, target),
                        |target_type: u32|
                            HitActors { source, source_type, parent, target, target_type },
                    ),
            ),
    )
}

/// Asks the game about the source and the target of a hit.
pub fn observe_actors<G: Actors>(game: &G, source: u64, target: u64) -> (actors: HitActors)
    ensures
        actors_of(game, source, target).contains(actors),
{
    let source_type = game.actor_type_id(source);
    assert(hooks::types_of(game, source).contains(source_type));
    let parent = get_source_parent_instance(game, source_type, source);
    assert(hooks::parents(game, source_type, source).contains(parent));
    let target_type = game.actor_type_id(target);
    assert(hooks::types_of(game, target).contains(target_type));
    HitActors { source, source_type, parent, target, target_type }
}

/// The outcomes of attributing a hit to its actors. The source is numbered
/// first, then the actor that its damage is counted for, and the target last.
pub open spec fn attributions<M: Memory>(
    memory: &M,
    ids: hooks::ActorIdsView,
    players: player::PlayersView,
    actors: HitActors,
) -> Set<Attribution> {
    let (source_idx, ids_1) = hooks::numbered(ids, actors.source);
    let (credit, ids_2) = credited(
        ids_1,
        actors.source_type,
        source_idx,
        actors.source,
        actors.parent,
    );
    outcome::mapped(
        player::emissions(memory, players, credit.actor, credit.actor_type, credit.index),
        |emission: (Seq<player::EventView>, player::PlayersView)|
            attribution_of(
                actors.source_type,
                source_idx,
                credit,
                emission,
                actors.target_type,
                ids_2,
                actors.target,
            ),
    )
}

/// Attributes a hit to its actors. This reads memory and asks the game nothing.
pub fn attribute<M: Memory>(
    ids: &mut ActorIds,
    players: &mut PlayerIdentities,
    memory: &M,
    actors: HitActors,
) -> (attributed: (Actor, Actor, Vec<PlayerIdentityEvent>))
    ensures
        attributions(memory, old(ids)@, old(players)@, actors).contains(
            (Attribution {
                source: attributed.0,
                target: attributed.1,
                identities: player::event_views(attributed.2@),
                ids: final(ids)@,
                players: final(players)@,
            }),
        ),
{
    let source_idx = actor_idx(ids, actors.source);
    let ghost ids_1 = ids@;
    let (credit_type, credit_idx, credit_actor) = match actors.parent {
        Some((parent_type, parent_actor)) => (
            parent_type,
            actor_idx(ids, parent_actor),
            parent_actor,
        ),
        None => (actors.source_type, source_idx, actors.source),
    };
    let ghost ids_2 = ids@;
    assert(credited(ids_1, actors.source_type, source_idx, actors.source, actors.parent) == (
        Credited { actor_type: credit_type, index: credit_idx, actor: credit_actor },
        ids_2,
    ));
    let identities = identity_events_for_actor(
        players,
        memory,
        credit_actor,
        credit_type,
        credit_idx,
    );
    let ghost emission = (player::event_views(identities@), players@);
    assert(player::emissions(
        memory,
        old(players)@,
        credit_actor,
        credit_type,
        credit_idx,
    ).contains(emission));
    let target_idx = actor_idx(ids, actors.target);
    (
        Actor {
            index: source_idx,
            actor_type: actors.source_type,
            parent_index: credit_idx,
            parent_actor_type: credit_type,
        },
        Actor {
            index: target_idx,
            actor_type: actors.target_type,
            parent_index: target_idx,
            parent_actor_type: actors.target_type,
        },
        identities,
    )
}

/// What a hook has to report.
#[derive(Debug)]
pub struct DamageReport<N> {
    /// The events that name the player who dealt the damage.
    pub identities: Vec<PlayerIdentityEvent>,
    /// The damage, if it counts.
    pub damage: Option<DamageEvent<N>>,
}

/// What a [`DamageReport`] says, with the numbers and players afterwards.
#[verifier::ext_equal]
pub struct ReportView<N> {
    pub identities: Seq<player::EventView>,
    pub damage: Option<DamageEvent<N>>,
    pub ids: hooks::ActorIdsView,
    pub players: player::PlayersView,
}

/// A report of nothing.
pub open spec fn no_report<N>(ids: hooks::ActorIdsView, players: player::PlayersView) -> ReportView<
    N,
> {
    ReportView { identities: Seq::empty(), damage: None, ids, players }
}

/// What a report says, with the numbers and players afterwards.
pub open spec fn report_view<N>(
    report: DamageReport<N>,
    ids: hooks::ActorIdsView,
    players: player::PlayersView,
) -> ReportView<N> {
    ReportView {
        identities: player::event_views(report.identities@),
        damage: report.damage,
        ids,
        players,
    }
}

/// Reports nothing.
fn nothing_to_report<N>() -> (report: DamageReport<N>)
    ensures
        forall|ids: hooks::ActorIdsView, players: player::PlayersView|
            #[trigger] report_view(report, ids, players) == no_report::<N>(ids, players),
{
    let identities: Vec<PlayerIdentityEvent> = Vec::new();
    assert(player::event_views(identities@) =~= Seq::empty());
    DamageReport { identities, damage: None }
}

/// A hit that the game has processed.
#[derive(Debug)]
pub struct ProcessedHit<N> {
    /// Where the damage instance lies.
    pub address: u64,
    /// The actor that was hit, if it could be read.
    pub target: Option<u64>,
    /// What the game's function returned.
    pub original_value: u64,
    /// The damage instance.
    pub fields: RawDamageFields<N>,
    /// The target's stun before the hit.
    pub previous_stun_value: Option<N>,
    /// The target's stun after the hit.
    pub current_stun_value: Option<N>,
    /// The modifiers of the hit.
    pub details: Option<DamageDetails<N>>,
}

/// The outcomes of reading the actor that a link leads to.
pub open spec fn instance_behind<M: Memory>(memory: &M, address: u64) -> Set<Option<u64>> {
    outcome::and_if_some(
        memory::word_at(memory, address),
        |entity: u64|
            if entity == 0 {
                outcome::exactly(None)
            } else {
                memory::word_at(memory, entity.wrapping_add(SPECIFIED_INSTANCE_OFFSET))
            },
    )
}

/// Reads the actor that a link to an entity leads to.
fn read_instance_behind<M: Memory>(memory: &M, address: u64) -> (actor: Option<u64>)
    ensures
        instance_behind(memory, address).contains(actor),
{
    let word = read_process_word(memory, address);
    assert(memory::word_at(memory, address).contains(word));
    match word {
        Some(entity) => if entity == 0 {
            None
        } else {
            read_process_word(memory, entity.wrapping_add(SPECIFIED_INSTANCE_OFFSET))
        },
        None => None,
    }
}

/// Whether a hit counts.
pub open spec fn counts<N>(hit: ProcessedHit<N>) -> bool {
    hit.original_value != 0 && hit.fields.damage > 0
}

/// The damage event of a hit.
pub open spec fn event_of<N>(
    hit: ProcessedHit<N>,
    source: Actor,
    target: Actor,
    stun_value: Option<N>,
) -> DamageEvent<N> {
    let action_id = action_of(hit.fields.flags, hit.fields.action_id);
    DamageEvent {
        source,
        target,
        damage: hit.fields.damage,
        flags: hit.fields.flags,
        action_id,
        attack_rate: None,
        stun_value,
        damage_cap: Some(hit.fields.damage_cap),
        details: if action_id is SupplementaryDamage {
            None
        } else {
            hit.details
        },
    }
}

/// The outcomes of asking the game about the actors of a hit. Nothing comes of
/// a hit without effect, nor of one whose source or target the game does not
/// tell.
pub open spec fn observations<N, G: Actors>(game: &G, hit: ProcessedHit<N>) -> Set<
    Option<HitActors>,
> {
    outcome::and_then(
        instance_behind(game, hit.address.wrapping_add(SOURCE_ENTITY_OFFSET)),
        |source: Option<u64>|
            match (source, hit.target) {
                (Some(source), Some(target)) => if counts(hit) {
                    outcome::mapped(
                        actors_of(game, source, target),
                        |actors: HitActors| Some(actors),
                    )
                } else {
                    outcome::exactly(None)
                },
                _ => outcome::exactly(None),
            },
    )
}

/// Asks the game about the actors of a hit. Nothing comes of a hit without
/// effect, nor of one whose source or target the game does not tell.
pub fn observe_hit<N, G: Actors>(game: &G, hit: &ProcessedHit<N>) -> (actors: Option<HitActors>)
    ensures
        observations::<N, G>(game, *hit).contains(actors),
{
    let link = hit.address.wrapping_add(SOURCE_ENTITY_OFFSET);
    let found = read_instance_behind(game, link);
    assert(instance_behind(game, link).contains(found));
    let source = match found {
        Some(source) => source,
        None => return None,
    };
    let target = match hit.target {
        Some(target) => target,
        None => return None,
    };
    if hit.original_value == 0 || hit.fields.damage <= 0 {
        return None;
    }
    let actors = observe_actors(game, source, target);
    assert(actors_of(game, source, target).contains(actors));
    Some(actors)
}

/// The outcomes of reporting a hit whose actors are known.
pub open spec fn observed_reports<A: Arithmetic, M: Memory>(
    memory: &M,
    ids: hooks::ActorIdsView,
    players: player::PlayersView,
    hit: ProcessedHit<A::Single>,
    actors: Option<HitActors>,
) -> Set<ReportView<A::Single>> {
    match actors {
        None => outcome::exactly(no_report(ids, players)),
        Some(actors) => outcome::and_then(
            attributions(memory, ids, players, actors),
            |a: Attribution|
                outcome::mapped(
                    event_stuns::<A>(
                        action_of(hit.fields.flags, hit.fields.action_id),
                        hit.previous_stun_value,
                        hit.current_stun_value,
                    ),
                    |stun_value: Option<A::Single>|
                        ReportView {
                            identities: a.identities,
                            damage: Some(event_of(hit, a.source, a.target, stun_value)),
                            ids: a.ids,
                            players: a.players,
                        },
                ),
        ),
    }
}

/// Reports a hit whose actors are known. The details of a hit are not repeated
/// for the supplementary damage that it causes. This reads memory and asks the
/// game nothing.
pub fn report_observed<A: Arithmetic, M: Memory>(
    ids: &mut ActorIds,
    players: &mut PlayerIdentities,
    memory: &M,
    hit: ProcessedHit<A::Single>,
    actors: Option<HitActors>,
) -> (report: DamageReport<A::Single>)
    ensures
        observed_reports::<A, M>(memory, old(ids)@, old(players)@, hit, actors).contains(
            report_view(report, final(ids)@, final(players)@),
        ),
{
    let actors = match actors {
        Some(actors) => actors,
        None => return nothing_to_report(),
    };
    let action_id = classify_action(hit.fields.flags, hit.fields.action_id);
    let (source_actor, target_actor, identities) = attribute(ids, players, memory, actors);
    let ghost a = Attribution {
        source: source_actor,
        target: target_actor,
        identities: player::event_views(identities@),
        ids: ids@,
        players: players@,
    };
    assert(attributions(memory, old(ids)@, old(players)@, actors).contains(a));
    let stun_value = stun_value_for_event::<A>(
        &action_id,
        hit.previous_stun_value,
        hit.current_stun_value,
    );
    let ghost stuns = event_stuns::<A>(
        action_of(hit.fields.flags, hit.fields.action_id),
        hit.previous_stun_value,
        hit.current_stun_value,
    );
    assert(stuns.contains(stun_value));
    let persists = match action_id {
        ActionType::SupplementaryDamage(_) => false,
        _ => true,
    };
    let ghost given = hit;
    let damage = DamageEvent {
        source: source_actor,
        target: target_actor,
        damage: hit.fields.damage,
        flags: hit.fields.flags,
        action_id,
        attack_rate: None,
        stun_value,
        damage_cap: Some(hit.fields.damage_cap),
        details: if persists {
            hit.details
        } else {
            None
        },
    };
    assert(damage == event_of(given, source_actor, target_actor, stun_value));
    DamageReport { identities, damage: Some(damage) }
}

/// The outcomes of reporting a hit.
pub open spec fn hit_reports<A: Arithmetic, G: Actors>(
    game: &G,
    ids: hooks::ActorIdsView,
    players: player::PlayersView,
    hit: ProcessedHit<A::Single>,
) -> Set<ReportView<A::Single>> {
    outcome::and_then(
        observations::<A::Single, G>(game, hit),
        |actors: Option<HitActors>|
            observed_reports::<A, G>(game, ids, players, hit, actors),
    )
}

/// Reports a hit. A hit without effect counts for nothing, and neither does
/// one whose source or target the game does not tell. The details of a hit are
/// not repeated for the supplementary damage that it causes.
pub fn report_hit<A: Arithmetic, G: Actors>(
    ids: &mut ActorIds,
    players: &mut PlayerIdentities,
    game: &G,
    hit: ProcessedHit<A::Single>,
) -> (report: DamageReport<A::Single>)
    ensures
        hit_reports::<A, G>(game, old(ids)@, old(players)@, hit).contains(
            report_view(report, final(ids)@, final(players)@),
        ),
{
    let actors = observe_hit(game, &hit);
    assert(observations::<A::Single, G>(game, hit).contains(actors));
    report_observed::<A, G>(ids, players, game, hit, actors)
}

/// The messages of a report, in the order in which they are sent.
pub open spec fn messages_of<N>(report: DamageReport<N>) -> Seq<Message<N>> {
    let identities = report.identities@.map_values(
        |event: PlayerIdentityEvent| Message::<N>::PlayerIdentityEvent(event),
    );
    match report.damage {
        Some(event) => identities.push(Message::DamageEvent(event)),
        None => identities,
    }
}

impl<N> DamageReport<N> {
    /// Turns the report into messages, the players' names first.
    pub fn into_messages(self) -> (messages: Vec<Message<N>>)
        ensures
            messages@ == messages_of(self),
    {
        let ghost named = self.identities@.map_values(
            |event: PlayerIdentityEvent| Message::<N>::PlayerIdentityEvent(event),
        );
        let mut messages: Vec<Message<N>> = Vec::new();
        for event in iter: self.identities
            invariant
                named == iter.seq().map_values(
                    |event: PlayerIdentityEvent| Message::<N>::PlayerIdentityEvent(event),
                ),
                messages@ == named.take(iter.index() as int),
        {
            messages.push(Message::PlayerIdentityEvent(event));
            assert(messages@ =~= named.take(iter.index() + 1));
        }
        assert(messages@ =~= named);
        if let Some(event) = self.damage {
            messages.push(Message::DamageEvent(event));
        }
        messages
    }
}

/// A hit that the game is about to process.
#[derive(Clone, Copy, Debug)]
pub struct StartedHit<N> {
    /// The actor that is hit, if it could be read.
    pub target: Option<u64>,
    /// The target's stun.
    pub previous_stun_value: Option<N>,
}

/// The outcomes of reading which actor a hit is aimed at.
pub open spec fn target_of<M: Memory>(memory: &M, target_info: u64) -> Set<Option<u64>> {
    outcome::and_if_some(
        memory::word_at(memory, target_info.wrapping_add(TARGET_LINK_OFFSET)),
        |link: u64| memory::word_at(memory, link),
    )
}

/// Reads which actor a hit is aimed at.
fn read_target<M: Memory>(memory: &M, target_info: u64) -> (target: Option<u64>)
    ensures
        target_of(memory, target_info).contains(target),
{
    let address = target_info.wrapping_add(TARGET_LINK_OFFSET);
    let word = read_process_word(memory, address);
    assert(memory::word_at(memory, address).contains(word));
    match word {
        Some(link) => read_process_word(memory, link),
        None => None,
    }
}

/// The outcomes of reading the stun of a target that may be unknown.
pub open spec fn target_stun<A: Arithmetic, M: Memory>(memory: &M, target: Option<u64>) -> Set<
    Option<A::Single>,
> {
    match target {
        Some(actor) => applied_stun_at::<A, M>(memory, actor),
        None => outcome::exactly(None),
    }
}

/// Reads the stun of a target that may be unknown.
fn read_target_stun<A: Arithmetic, M: Memory>(memory: &M, target: Option<u64>) -> (value: Option<
    A::Single,
>)
    ensures
        target_stun::<A, M>(memory, target).contains(value),
{
    match target {
        Some(actor) => read_applied_stun_value::<A, M>(memory, actor),
        None => None,
    }
}

/// Whether `hit` is one that started as `started` and that the game has since
/// processed. Its modifiers are taken off the hits that are being processed.
pub open spec fn hit_processed<A: Arithmetic, M: Memory>(
    memory: &M,
    before: Seq<DamageProbe<A::Single>>,
    after: Seq<DamageProbe<A::Single>>,
    started: StartedHit<A::Single>,
    address: u64,
    instance: Option<Seq<u8>>,
    original_value: u64,
    hit: ProcessedHit<A::Single>,
) -> bool {
    &&& hit.address == address
    &&& hit.target == started.target
    &&& hit.original_value == original_value
    &&& damage_details::raw_fields::<A>(instance, hit.fields)
    &&& hit.previous_stun_value == started.previous_stun_value
    &&& target_stun::<A, M>(memory, started.target).contains(hit.current_stun_value)
    &&& damage_details::finished::<A>(before, after, instance, hit.details)
}

/// The signature of the calls of the function that processes damage.
pub const PROCESS_DAMAGE_EVENT_SIG: &'static str = "e8 $ { ' } 66 83 bc 24 ? ? ? ? ?";

/// The signature of the calls of the function that processes damage over time.
pub const PROCESS_DOT_EVENT_SIG: &'static str = "44 89 74 24 ? 48 ? ? ? ? 48 ? ? e8 $ { ' } 4c";

/// The hook on the function that processes damage. `T` is the type of the
/// channel that messages are sent through.
#[derive(Clone, Debug)]
pub struct OnProcessDamageHook<T> {
    pub tx: T,
}

impl<T> OnProcessDamageHook<T> {
    /// A hook that sends through `tx`.
    pub fn new(tx: T) -> (hook: Self)
        ensures
            hook.tx == tx,
    {
        OnProcessDamageHook { tx }
    }

    /// Finds the function to hook.
    pub fn setup(&self, process: &Process, view: &PeView<'_>) -> (address: Result<u64, HookError>)
        ensures
            address == hooks::found_or(
                process::searched(
                    process::image_of(*view),
                    PROCESS_DAMAGE_EVENT_SIG@,
                    |m: Seq<(u32, u32)>| process::last_capture(process.base_address, m),
                ),
                HookError::DamageNotFound,
            ),
    {
        proof {
            reveal_strlit("e8 $ { ' } 66 83 bc 24 ? ? ? ? ?");
            process::lemma_short_signature(PROCESS_DAMAGE_EVENT_SIG@);
        }
        match process.search_address(view, PROCESS_DAMAGE_EVENT_SIG) {
            Ok(address) => Ok(address),
            Err(_) => Err(HookError::DamageNotFound),
        }
    }

    /// Runs before the game processes a hit.
    pub fn start<A: Arithmetic, M: Memory>(
        &self,
        probes: &mut DamageProbes<A::Single>,
        memory: &M,
        target_info: u64,
        address: u64,
        instance: Option<&[u8]>,
    ) -> (started: StartedHit<A::Single>)
        requires
            instance matches Some(bytes) ==> bytes@.len() >= DAMAGE_INSTANCE_BYTES,
        ensures
            target_of(memory, target_info).contains(started.target),
            target_stun::<A, M>(memory, started.target).contains(started.previous_stun_value),
            damage_details::begun::<A>(
                old(probes).stack@,
                final(probes).stack@,
                address,
                damage_details::instance_bytes(instance),
            ),
    {
        let target = read_target(memory, target_info);
        let previous_stun_value = read_target_stun::<A, M>(memory, target);
        begin_damage::<A>(probes, address, instance);
        StartedHit { target, previous_stun_value }
    }

    /// Runs as soon as the game has processed a hit, for which its function
    /// returned `original_value`. This reads memory and asks the game nothing.
    pub fn finish<A: Arithmetic, M: Memory>(
        &self,
        probes: &mut DamageProbes<A::Single>,
        memory: &M,
        started: StartedHit<A::Single>,
        address: u64,
        instance: Option<&[u8]>,
        original_value: u64,
    ) -> (hit: ProcessedHit<A::Single>)
        requires
            instance matches Some(bytes) ==> bytes@.len() >= DAMAGE_INSTANCE_BYTES,
        ensures
            hit_processed::<A, M>(
                memory,
                old(probes).stack@,
                final(probes).stack@,
                started,
                address,
                damage_details::instance_bytes(instance),
                original_value,
                hit,
            ),
    {
        let current_stun_value = read_target_stun::<A, M>(memory, started.target);
        let details = finish_damage::<A>(probes, instance);
        let fields = read_raw_fields::<A>(instance);
        ProcessedHit {
            address,
            target: started.target,
            original_value,
            fields,
            previous_stun_value: started.previous_stun_value,
            current_stun_value,
            details,
        }
    }

    /// Runs after the game has processed a hit, for which its function returned
    /// `original_value`, and reports the hit.
    pub fn run<A: Arithmetic, G: Actors>(
        &self,
        ids: &mut ActorIds,
        players: &mut PlayerIdentities,
        probes: &mut DamageProbes<A::Single>,
        game: &G,
        started: StartedHit<A::Single>,
        address: u64,
        instance: Option<&[u8]>,
        original_value: u64,
    ) -> (report: DamageReport<A::Single>)
        requires
            instance matches Some(bytes) ==> bytes@.len() >= DAMAGE_INSTANCE_BYTES,
        ensures
            exists|hit: ProcessedHit<A::Single>| #[trigger]
                hit_reports::<A, G>(game, old(ids)@, old(players)@, hit).contains(
                    report_view(report, final(ids)@, final(players)@),
                ) && hit_processed::<A, G>(
                    game,
                    old(probes).stack@,
                    final(probes).stack@,
                    started,
                    address,
                    damage_details::instance_bytes(instance),
                    original_value,
                    hit,
                ),
    {
        let hit = self.finish::<A, G>(probes, game, started, address, instance, original_value);
        let ghost processed = hit;
        let report = report_hit::<A, G>(ids, players, game, hit);
        assert(hit_reports::<A, G>(game, old(ids)@, old(players)@, processed).contains(
            report_view(report, ids@, players@),
        ));
        report
    }
}

/// The damage event of a tick of damage over time.
pub open spec fn dot_event<N>(source: Actor, target: Actor, damage: i32) -> DamageEvent<N> {
    DamageEvent {
        source,
        target,
        damage,
        flags: 0,
        action_id: ActionType::DamageOverTime(0),
        attack_rate: None,
        stun_value: None,
        damage_cap: None,
        details: None,
    }
}

/// The outcomes of reading whom a status damages, who applied it, and how much
/// damage it deals.
pub open spec fn dot_ticks<M: Memory>(memory: &M, dot_instance: u64, damage_address: u64) -> Set<
    Option<(u64, u64, i32)>,
> {
    outcome::and_if_some(
        actor_behind(memory, dot_instance.wrapping_add(DOT_TARGET_OFFSET)),
        |target: u64|
            outcome::and_if_some(
                actor_behind(memory, dot_instance.wrapping_add(DOT_SOURCE_OFFSET)),
                |source: u64|
                    outcome::and_if_some(
                        memory::signed_at(memory, damage_address),
                        |damage: i32| outcome::exactly(Some((target, source, damage))),
                    ),
            ),
    )
}

/// The outcomes of reading the actor that a link leads to, if there is one.
pub open spec fn actor_behind<M: Memory>(memory: &M, address: u64) -> Set<Option<u64>> {
    outcome::and_if_some(
        instance_behind(memory, address),
        |actor: u64|
            if actor == 0 {
                outcome::exactly(None)
            } else {
                outcome::exactly(Some(actor))
            },
    )
}

/// Reads the actor that a link to an entity leads to, if there is one.
fn read_actor_behind<M: Memory>(memory: &M, address: u64) -> (actor: Option<u64>)
    ensures
        actor_behind(memory, address).contains(actor),
{
    let found = read_instance_behind(memory, address);
    assert(instance_behind(memory, address).contains(found));
    match found {
        Some(actor) => if actor == 0 {
            None
        } else {
            Some(actor)
        },
        None => None,
    }
}

/// The outcomes of asking the game about the actors of a tick of damage over
/// time, and how much damage it dealt.
pub open spec fn tick_observations<G: Actors>(
    game: &G,
    dot_instance: u64,
    damage_address: u64,
) -> Set<Option<(HitActors, i32)>> {
    outcome::and_if_some(
        dot_ticks(game, dot_instance, damage_address),
        |tick: (u64, u64, i32)|
            outcome::mapped(
                actors_of(game, tick.1, tick.0),
                |actors: HitActors| Some((actors, tick.2)),
            ),
    )
}

/// The outcomes of reporting a tick of damage over time whose actors are known.
pub open spec fn observed_tick_reports<N, M: Memory>(
    memory: &M,
    ids: hooks::ActorIdsView,
    players: player::PlayersView,
    tick: Option<(HitActors, i32)>,
) -> Set<ReportView<N>> {
    match tick {
        None => outcome::exactly(no_report(ids, players)),
        Some((actors, damage)) => outcome::mapped(
            attributions(memory, ids, players, actors),
            |a: Attribution|
                ReportView {
                    identities: a.identities,
                    damage: Some(dot_event(a.source, a.target, damage)),
                    ids: a.ids,
                    players: a.players,
                },
        ),
    }
}

/// Reports a tick of damage over time whose actors are known. This reads memory
/// and asks the game nothing.
pub fn report_observed_tick<N, M: Memory>(
    ids: &mut ActorIds,
    players: &mut PlayerIdentities,
    memory: &M,
    tick: Option<(HitActors, i32)>,
) -> (report: DamageReport<N>)
    ensures
        observed_tick_reports::<N, M>(memory, old(ids)@, old(players)@, tick).contains(
            report_view(report, final(ids)@, final(players)@),
        ),
{
    let (actors, damage) = match tick {
        Some((actors, damage)) => (actors, damage),
        None => return nothing_to_report(),
    };
    let (source_actor, target_actor, identities) = attribute(ids, players, memory, actors);
    let ghost a = Attribution {
        source: source_actor,
        target: target_actor,
        identities: player::event_views(identities@),
        ids: ids@,
        players: players@,
    };
    assert(attributions(memory, old(ids)@, old(players)@, actors).contains(a));
    DamageReport {
        identities,
        damage: Some(
            DamageEvent {
                source: source_actor,
                target: target_actor,
                damage,
                flags: 0,
                action_id: ActionType::DamageOverTime(0),
                attack_rate: None,
                stun_value: None,
                damage_cap: None,
                details: None,
            },
        ),
    }
}

/// The outcomes of reporting a tick of damage over time.
pub open spec fn dot_reports<N, G: Actors>(
    game: &G,
    ids: hooks::ActorIdsView,
    players: player::PlayersView,
    dot_instance: u64,
    damage_address: u64,
) -> Set<ReportView<N>> {
    outcome::and_then(
        tick_observations(game, dot_instance, damage_address),
        |tick: Option<(HitActors, i32)>|
            observed_tick_reports::<N, G>(game, ids, players, tick),
    )
}

/// The hook on the function that processes damage over time. `T` is the type
/// of the channel that messages are sent through.
#[derive(Clone, Debug)]
pub struct OnProcessDotHook<T> {
    pub tx: T,
}

impl<T> OnProcessDotHook<T> {
    /// A hook that sends through `tx`.
    pub fn new(tx: T) -> (hook: Self)
        ensures
            hook.tx == tx,
    {
        OnProcessDotHook { tx }
    }

    /// Finds the function to hook.
    pub fn setup(&self, process: &Process, view: &PeView<'_>) -> (address: Result<u64, HookError>)
        ensures
            address == hooks::found_or(
                process::searched(
                    process::image_of(*view),
                    PROCESS_DOT_EVENT_SIG@,
                    |m: Seq<(u32, u32)>| process::last_capture(process.base_address, m),
                ),
                HookError::DotNotFound,
            ),
    {
        proof {
            reveal_strlit("44 89 74 24 ? 48 ? ? ? ? 48 ? ? e8 $ { ' } 4c");
            process::lemma_short_signature(PROCESS_DOT_EVENT_SIG@);
        }
        match process.search_address(view, PROCESS_DOT_EVENT_SIG) {
            Ok(address) => Ok(address),
            Err(_) => Err(HookError::DotNotFound),
        }
    }

    /// Asks the game about the actors of a tick of the status at `dot_instance`,
    /// whose damage lies at `damage_address`.
    pub fn observe<G: Actors>(&self, game: &G, dot_instance: u64, damage_address: u64) -> (tick:
        Option<(HitActors, i32)>)
        ensures
            tick_observations(game, dot_instance, damage_address).contains(tick),
    {
        let read = read_tick(game, dot_instance, damage_address);
        assert(dot_ticks(game, dot_instance, damage_address).contains(read));
        match read {
            Some((target, source, damage)) => {
                let actors = observe_actors(game, source, target);
                assert(actors_of(game, source, target).contains(actors));
                Some((actors, damage))
            },
            None => None,
        }
    }

    /// Runs after the game has processed a tick of the status at
    /// `dot_instance`, whose damage lies at `damage_address`.
    pub fn run<N, G: Actors>(
        &self,
        ids: &mut ActorIds,
        players: &mut PlayerIdentities,
        game: &G,
        dot_instance: u64,
        damage_address: u64,
    ) -> (report: DamageReport<N>)
        ensures
            dot_reports::<N, G>(
                game,
                old(ids)@,
                old(players)@,
                dot_instance,
                damage_address,
            ).contains(report_view(report, final(ids)@, final(players)@)),
    {
        let tick = self.observe(game, dot_instance, damage_address);
        assert(tick_observations(game, dot_instance, damage_address).contains(tick));
        report_observed_tick::<N, G>(ids, players, game, tick)
    }
}

/// Reads whom a status damages, who applied it, and how much damage it deals.
fn read_tick<M: Memory>(memory: &M, dot_instance: u64, damage_address: u64) -> (tick: Option<
    (u64, u64, i32),
>)
    ensures
        dot_ticks(memory, dot_instance, damage_address).contains(tick),
{
    let target_link = dot_instance.wrapping_add(DOT_TARGET_OFFSET);
    let found_target = read_actor_behind(memory, target_link);
    assert(actor_behind(memory, target_link).contains(found_target));
    let target = match found_target {
        Some(target) => target,
        None => return None,
    };
    let source_link = dot_instance.wrapping_add(DOT_SOURCE_OFFSET);
    let found_source = read_actor_behind(memory, source_link);
    assert(actor_behind(memory, source_link).contains(found_source));
    let source = match found_source {
        Some(source) => source,
        None => return None,
    };
    let found_damage = read_process_signed(memory, damage_address);
    assert(memory::signed_at(memory, damage_address).contains(found_damage));
    match found_damage {
        Some(damage) => Some((target, source, damage)),
        None => None,
    }
}

/// Supplementary damage never claims stun, and never repeats the details of
/// the hit that it comes from.
pub proof fn law_supplementary_damage_claims_nothing<A: Arithmetic, G: Actors>(
    game: &G,
    ids: hooks::ActorIdsView,
    players: player::PlayersView,
    hit: ProcessedHit<A::Single>,
    report: ReportView<A::Single>,
)
    requires
        hit_reports::<A, G>(game, ids, players, hit).contains(report),
    ensures
        report.damage matches Some(event) ==> {
            &&& event.action_id is SupplementaryDamage ==> event.stun_value is None
                && event.details is None
            &&& event.action_id !is SupplementaryDamage ==> event.details == hit.details
        },
{
}

/// A hit without effect is not reported and changes nothing.
pub proof fn law_a_hit_without_effect_is_not_reported<A: Arithmetic, G: Actors>(
    game: &G,
    ids: hooks::ActorIdsView,
    players: player::PlayersView,
    hit: ProcessedHit<A::Single>,
    report: ReportView<A::Single>,
)
    requires
        hit_reports::<A, G>(game, ids, players, hit).contains(report),
        hit.original_value == 0 || hit.fields.damage <= 0,
    ensures
        report == no_report::<A::Single>(ids, players),
{
}

/// An attribution is consistent: the source and the target have the numbers
/// that the actors have afterwards, an actor keeps the number that it had, a
/// target is its own parent, and a source that is not led back to another actor
/// is its own parent too. The players that are named are those whose damage it
/// is.
pub proof fn law_an_attribution_is_consistent<G: Actors>(
    game: &G,
    ids: hooks::ActorIdsView,
    players: player::PlayersView,
    source: u64,
    target: u64,
    actors: HitActors,
    attribution: Attribution,
)
    requires
        actors_of(game, source, target).contains(actors),
        attributions(game, ids, players, actors).contains(attribution),
    ensures
        ({
            let numbers = attribution.ids.ids;
            &&& numbers.contains_key(source) && numbers[source] == attribution.source.index
            &&& numbers.contains_key(target) && numbers[target] == attribution.target.index
        }),
        forall|actor: u64| #[trigger]
            ids.ids.contains_key(actor) ==> attribution.ids.ids.contains_key(actor)
                && attribution.ids.ids[actor] == ids.ids[actor],
        hooks::types_of(game, source).contains(attribution.source.actor_type),
        hooks::types_of(game, target).contains(attribution.target.actor_type),
        attribution.target.parent_index == attribution.target.index,
        attribution.target.parent_actor_type == attribution.target.actor_type,
        (forall|parent: Option<(u32, u64)>| #[trigger]
            hooks::parents(game, attribution.source.actor_type, source).contains(parent)
                ==> parent is None) ==> attribution.source.parent_index
            == attribution.source.index && attribution.source.parent_actor_type
            == attribution.source.actor_type,
        attribution.identities.len() <= 1,
        attribution.identities.len() == 1 ==> attribution.identities[0].character_type
            == attribution.source.parent_actor_type && attribution.identities[0].actor_index
            == attribution.source.parent_index,
{
    let (source_idx, ids_1) = hooks::numbered(ids, source);
    let (credit, ids_2) = credited(ids_1, actors.source_type, source_idx, source, actors.parent);
    assert(ids_1.ids.contains_key(source));
    assert(ids_2.ids.contains_key(source));
    assert(hooks::parents(game, attribution.source.actor_type, source).contains(actors.parent));
}

/// The messages of a report name the player before they tell the damage.
pub proof fn law_names_come_before_damage<N>(report: DamageReport<N>, i: int)
    requires
        0 <= i < messages_of(report).len(),
    ensures
        messages_of(report)[i] is DamageEvent <==> i == report.identities@.len(),
        messages_of(report)[i] is PlayerIdentityEvent <==> i < report.identities@.len(),
{
}

/// A hit adds as much stun as the target has more after it than before, and
/// none where the count was reset meanwhile.
pub proof fn law_stun_is_what_a_hit_adds<A: Arithmetic>(
    num: spec_fn(A::Single) -> real,
    wide: spec_fn(A::Double) -> real,
    before: A::Single,
    after: A::Single,
    delta: Option<A::Single>,
)
    requires
        arithmetic::is_exact::<A>(num, wide),
        stun_deltas::<A>(Some(before), Some(after)).contains(delta),
    ensures
        delta matches Some(d) && {
            &&& num(after) >= num(before) ==> num(before) + num(d) == num(after)
            &&& num(after) < num(before) ==> num(d) == 0int as real
        },
{
}

/// A hit whose stun is not known or not finite, before or after, adds no stun.
pub proof fn law_unknown_stun_adds_nothing<A: Arithmetic>(
    before: Option<A::Single>,
    after: Option<A::Single>,
    delta: Option<A::Single>,
)
    requires
        stun_deltas::<A>(before, after).contains(delta),
        ({
            ||| before is None
            ||| after is None
            ||| outcome::is_only(
                arithmetic::finite::<A>(outcome::exactly(before->Some_0)),
                false,
            )
            ||| outcome::is_only(arithmetic::finite::<A>(outcome::exactly(after->Some_0)), false)
        }),
    ensures
        delta is None,
{
}

/// The stun of an actor stands at its place in the actor, and counts if it is
/// finite.
pub proof fn law_stun_is_read_from_the_target<A: Arithmetic, M: Memory>(
    memory: &M,
    target: u64,
    word: u32,
    value: Option<A::Single>,
)
    requires
        outcome::is_only(memory::half_word_at(memory, target.wrapping_add(0xB90)), Some(word)),
        target_stun::<A, M>(memory, Some(target)).contains(value),
    ensures
        value matches Some(v) ==> arithmetic::bits::<A>(word).contains(v) && arithmetic::finite::<A>(
            outcome::exactly(v),
        ).contains(true),
        (forall|v: A::Single| #[trigger]
            arithmetic::bits::<A>(word).contains(v) ==> outcome::is_only(
                arithmetic::finite::<A>(outcome::exactly(v)),
                true,
            )) ==> value is Some,
        (forall|v: A::Single| #[trigger]
            arithmetic::bits::<A>(word).contains(v) ==> outcome::is_only(
                arithmetic::finite::<A>(outcome::exactly(v)),
                false,
            )) ==> value is None,
{
    if value is None {
        let found = choose|found: Option<u32>| #[trigger]
            memory::half_word_at(memory, target.wrapping_add(0xB90)).contains(found);
        assert(found == Some(word));
        let v = choose|v: A::Single| #[trigger]
            arithmetic::bits::<A>(word).contains(v) && arithmetic::finite::<A>(
                outcome::exactly(v),
            ).contains(false);
        assert(arithmetic::bits::<A>(word).contains(v));
    }
}

/// Stun that cannot be read is not known.
pub proof fn law_unreadable_stun_is_unknown<A: Arithmetic, M: Memory>(
    memory: &M,
    target: u64,
    value: Option<A::Single>,
)
    requires
        outcome::is_only(memory::half_word_at(memory, target.wrapping_add(0xB90)), None),
        target_stun::<A, M>(memory, Some(target)).contains(value),
    ensures
        value is None,
{
}

/// The flags of a hit tell its action. Link attacks have one of two flags, and
/// those that are none are skybound arts with one of two others; supplementary
/// damage and normal attacks are told apart by one more, and keep their action.
pub proof fn law_flags_tell_the_action(flags: u64, action_id: u32)
    ensures
        action_of(flags, action_id) is LinkAttack <==> flags & 0x0004_0000_0000_0080 != 0,
        action_of(flags, action_id) is SBA <==> flags & 0x0004_0000_0000_0080 == 0 && flags & 0x6000
            != 0,
        action_of(flags, action_id) is SupplementaryDamage <==> flags & 0x0004_0000_0000_6080 == 0
            && flags & 0x8000 != 0,
        action_of(flags, action_id) is Normal <==> flags & 0x0004_0000_0000_E080 == 0,
        action_of(flags, action_id) matches ActionType::SupplementaryDamage(id) ==> id == action_id,
        action_of(flags, action_id) matches ActionType::Normal(id) ==> id == action_id,
{
    assert((flags & 0x0004_0000_0000_0080 != 0) == ((flags >> 7) & 1 == 1 || (flags >> 50) & 1
        == 1)) by (bit_vector);
    assert((flags & 0x6000 != 0) == ((flags >> 13) & 1 == 1 || (flags >> 14) & 1 == 1))
        by (bit_vector);
    assert((flags & 0x8000 != 0) == ((flags >> 15) & 1 == 1)) by (bit_vector);
    assert((flags & 0x0004_0000_0000_6080 == 0) == (flags & 0x0004_0000_0000_0080 == 0 && flags
        & 0x6000 == 0)) by (bit_vector);
    assert((flags & 0x0004_0000_0000_E080 == 0) == (flags & 0x0004_0000_0000_6080 == 0 && flags
        & 0x8000 == 0)) by (bit_vector);
}

/// A hit is aimed at the actor behind two links.
pub proof fn law_a_target_is_read<M: Memory>(
    memory: &M,
    target_info: u64,
    link: u64,
    actor: Option<u64>,
    target: Option<u64>,
)
    requires
        outcome::is_only(memory::word_at(memory, target_info.wrapping_add(0x08)), Some(link)),
        outcome::is_only(memory::word_at(memory, link), actor),
        target_of(memory, target_info).contains(target),
    ensures
        target == actor,
{
}

/// A hit comes from the actor of the entity that it links to, and the game is
/// asked about that actor and the target.
pub proof fn law_a_source_is_read<N, G: Actors>(
    game: &G,
    hit: ProcessedHit<N>,
    entity: u64,
    source: u64,
    target: u64,
    actors: Option<HitActors>,
)
    requires
        hit.original_value != 0,
        hit.fields.damage > 0,
        hit.target == Some(target),
        entity != 0,
        outcome::is_only(memory::word_at(game, hit.address.wrapping_add(0x18)), Some(entity)),
        outcome::is_only(memory::word_at(game, entity.wrapping_add(0x70)), Some(source)),
        observations::<N, G>(game, hit).contains(actors),
    ensures
        actors matches Some(a) && {
            &&& a.source == source
            &&& a.target == target
            &&& hooks::types_of(game, source).contains(a.source_type)
            &&& hooks::types_of(game, target).contains(a.target_type)
            &&& hooks::parents(game, a.source_type, source).contains(a.parent)
        },
{
    lemma_instance_behind(game, hit.address.wrapping_add(0x18), entity, source);
}

/// A link to an entity leads to the entity's actor.
proof fn lemma_instance_behind<M: Memory>(memory: &M, address: u64, entity: u64, actor: u64)
    requires
        entity != 0,
        outcome::is_only(memory::word_at(memory, address), Some(entity)),
        outcome::is_only(memory::word_at(memory, entity.wrapping_add(0x70)), Some(actor)),
    ensures
        outcome::is_only(instance_behind(memory, address), Some(actor)),
{
}

/// Nothing comes of a hit whose source or target is not known.
pub proof fn law_a_hit_has_both_sides<N, G: Actors>(
    game: &G,
    hit: ProcessedHit<N>,
    actors: Option<HitActors>,
)
    requires
        hit.target is None || outcome::is_only(
            memory::word_at(game, hit.address.wrapping_add(0x18)),
            None,
        ) || outcome::is_only(memory::word_at(game, hit.address.wrapping_add(0x18)), Some(0u64)),
        observations::<N, G>(game, hit).contains(actors),
    ensures
        actors is None,
{
}

/// A hit is reported as it was: with its damage, its flags and its cap, and with
/// the stun that it added. It is counted for the actor that the source belongs
/// to, and for the source itself if it belongs to nobody.
pub proof fn law_a_hit_is_reported_as_it_was<A: Arithmetic, M: Memory>(
    memory: &M,
    ids: hooks::ActorIdsView,
    players: player::PlayersView,
    hit: ProcessedHit<A::Single>,
    actors: HitActors,
    report: ReportView<A::Single>,
)
    requires
        observed_reports::<A, M>(memory, ids, players, hit, Some(actors)).contains(report),
    ensures
        report.damage matches Some(event) && {
            &&& event.damage == hit.fields.damage
            &&& event.flags == hit.fields.flags
            &&& event.damage_cap == Some(hit.fields.damage_cap)
            &&& event.attack_rate is None
            &&& event.source.actor_type == actors.source_type
            &&& event.target.actor_type == actors.target_type
            &&& report.ids.ids.contains_key(actors.source) && report.ids.ids[actors.source]
                == event.source.index
            &&& report.ids.ids.contains_key(actors.target) && report.ids.ids[actors.target]
                == event.target.index
            &&& is_counted_for(report.ids, actors, event.source)
            &&& event.target.parent_index == event.target.index
            &&& event.target.parent_actor_type == event.target.actor_type
            &&& flags_without_supplement(hit.fields.flags) ==> stun_deltas::<A>(
                hit.previous_stun_value,
                hit.current_stun_value,
            ).contains(event.stun_value) && event.details == hit.details
            &&& !flags_without_supplement(hit.fields.flags) ==> event.stun_value is None
                && event.details is None
        },
{
    law_flags_tell_the_action(hit.fields.flags, hit.fields.action_id);
    let attribution = choose|a: Attribution| #[trigger]
        attributions(memory, ids, players, actors).contains(a) && outcome::mapped(
            event_stuns::<A>(
                action_of(hit.fields.flags, hit.fields.action_id),
                hit.previous_stun_value,
                hit.current_stun_value,
            ),
            |stun_value: Option<A::Single>|
                ReportView {
                    identities: a.identities,
                    damage: Some(event_of(hit, a.source, a.target, stun_value)),
                    ids: a.ids,
                    players: a.players,
                },
        ).contains(report);
    lemma_counted_for(memory, ids, players, actors, attribution);
}

/// Whether flags are not those of supplementary damage.
pub open spec fn flags_without_supplement(flags: u64) -> bool {
    flags & 0x8000 == 0 || flags & 0x0004_0000_0000_6080 != 0
}

/// Whether damage is counted for the actor that its source belongs to: with that
/// actor's type and number, or with those of the source if it belongs to nobody.
pub open spec fn is_counted_for(
    ids: hooks::ActorIdsView,
    actors: HitActors,
    source: Actor,
) -> bool {
    match actors.parent {
        Some((parent_type, parent)) => source.parent_actor_type == parent_type
            && ids.ids.contains_key(parent) && ids.ids[parent] == source.parent_index,
        None => source.parent_actor_type == source.actor_type && source.parent_index
            == source.index,
    }
}

/// An attribution counts damage for the actor that the source belongs to.
proof fn lemma_counted_for<M: Memory>(
    memory: &M,
    ids: hooks::ActorIdsView,
    players: player::PlayersView,
    actors: HitActors,
    attribution: Attribution,
)
    requires
        attributions(memory, ids, players, actors).contains(attribution),
    ensures
        is_counted_for(attribution.ids, actors, attribution.source),
        attribution.source.actor_type == actors.source_type,
        attribution.target.actor_type == actors.target_type,
        attribution.ids.ids.contains_key(actors.source),
        attribution.ids.ids[actors.source] == attribution.source.index,
        attribution.ids.ids.contains_key(actors.target),
        attribution.ids.ids[actors.target] == attribution.target.index,
        attribution.target.parent_index == attribution.target.index,
        attribution.target.parent_actor_type == attribution.target.actor_type,
{
    let (source_idx, ids_1) = hooks::numbered(ids, actors.source);
    let (credit, ids_2) = credited(
        ids_1,
        actors.source_type,
        source_idx,
        actors.source,
        actors.parent,
    );
    assert(ids_1.ids.contains_key(actors.source));
    assert(ids_2.ids.contains_key(actors.source));
}

/// A status that deals damage over time links to the entities of its target and
/// of whoever applied it, and the damage of a tick stands where it is told.
pub proof fn law_a_tick_is_read<M: Memory>(
    memory: &M,
    dot_instance: u64,
    damage_address: u64,
    target_entity: u64,
    target: u64,
    source_entity: u64,
    source: u64,
    damage: i32,
    tick: Option<(u64, u64, i32)>,
)
    requires
        target_entity != 0,
        source_entity != 0,
        outcome::is_only(
            memory::word_at(memory, dot_instance.wrapping_add(0x18)),
            Some(target_entity),
        ),
        outcome::is_only(
            memory::word_at(memory, target_entity.wrapping_add(0x70)),
            Some(target),
        ),
        outcome::is_only(
            memory::word_at(memory, dot_instance.wrapping_add(0x30)),
            Some(source_entity),
        ),
        outcome::is_only(
            memory::word_at(memory, source_entity.wrapping_add(0x70)),
            Some(source),
        ),
        outcome::is_only(memory::signed_at(memory, damage_address), Some(damage)),
        dot_ticks(memory, dot_instance, damage_address).contains(tick),
    ensures
        target == 0 || source == 0 ==> tick is None,
        target != 0 && source != 0 ==> tick == Some((target, source, damage)),
{
    lemma_instance_behind(
        memory,
        dot_instance.wrapping_add(0x18),
        target_entity,
        target,
    );
    lemma_instance_behind(
        memory,
        dot_instance.wrapping_add(0x30),
        source_entity,
        source,
    );
}

/// A tick is told by whoever applied the status about its target.
pub proof fn law_a_tick_names_its_sides<G: Actors>(
    game: &G,
    dot_instance: u64,
    damage_address: u64,
    target: u64,
    source: u64,
    damage: i32,
    found: Option<(HitActors, i32)>,
)
    requires
        outcome::is_only(
            dot_ticks(game, dot_instance, damage_address),
            Some((target, source, damage)),
        ),
        tick_observations(game, dot_instance, damage_address).contains(found),
    ensures
        found matches Some(f) && f.1 == damage && f.0.source == source && f.0.target == target
            && hooks::types_of(game, source).contains(f.0.source_type) && hooks::types_of(
            game,
            target,
        ).contains(f.0.target_type) && hooks::parents(game, f.0.source_type, source).contains(
            f.0.parent,
        ),
{
}

/// A tick is reported as damage over time and as nothing else: it has no flags,
/// no cap, no stun and no details.
pub proof fn law_a_tick_is_reported_as_it_was<N, M: Memory>(
    memory: &M,
    ids: hooks::ActorIdsView,
    players: player::PlayersView,
    actors: HitActors,
    damage: i32,
    report: ReportView<N>,
)
    requires
        observed_tick_reports::<N, M>(memory, ids, players, Some((actors, damage))).contains(
            report,
        ),
    ensures
        report.damage matches Some(event) && {
            &&& event.damage == damage
            &&& event.action_id == ActionType::DamageOverTime(0)
            &&& event.flags == 0
            &&& event.attack_rate is None
            &&& event.stun_value is None
            &&& event.damage_cap is None
            &&& event.details is None
            &&& event.source.actor_type == actors.source_type
            &&& event.target.actor_type == actors.target_type
            &&& report.ids.ids.contains_key(actors.source) && report.ids.ids[actors.source]
                == event.source.index
            &&& report.ids.ids.contains_key(actors.target) && report.ids.ids[actors.target]
                == event.target.index
            &&& is_counted_for(report.ids, actors, event.source)
        },
{
    let attribution = choose|a: Attribution| #[trigger]
        attributions(memory, ids, players, actors).contains(a) && report == (ReportView::<N> {
            identities: a.identities,
            damage: Some(dot_event(a.source, a.target, damage)),
            ids: a.ids,
            players: a.players,
        });
    lemma_counted_for(memory, ids, players, actors, attribution);
}

/// The messages of a report are the names that it holds, in order, and then the
/// damage.
pub proof fn law_messages_tell_the_report<N>(report: DamageReport<N>)
    ensures
        forall|i: int|
            0 <= i < report.identities@.len() ==> #[trigger] messages_of(report)[i]
                == Message::<N>::PlayerIdentityEvent(report.identities@[i]),
        match report.damage {
            Some(event) => messages_of(report).len() == report.identities@.len() + 1
                && messages_of(report).last() == Message::DamageEvent(event),
            None => messages_of(report).len() == report.identities@.len(),
        },
{
}

/// The function that processes damage is the one that is called where its
/// signature matches last.
pub proof fn law_damage_is_hooked_where_it_is_processed<T>(
    hook: &OnProcessDamageHook<T>,
    process: &Process,
    view: &PeView<'_>,
    address: Result<u64, HookError>,
)
    requires
        call_ensures(OnProcessDamageHook::<T>::setup, (hook, process, view), address),
    ensures
        is_last_call(
            process,
            view,
            "e8 $ { ' } 66 83 bc 24 ? ? ? ? ?"@,
            HookError::DamageNotFound,
            address,
        ),
{
}

/// The function that processes damage over time is the one that is called where
/// its signature matches last.
pub proof fn law_ticks_are_hooked_where_they_are_processed<T>(
    hook: &OnProcessDotHook<T>,
    process: &Process,
    view: &PeView<'_>,
    address: Result<u64, HookError>,
)
    requires
        call_ensures(OnProcessDotHook::<T>::setup, (hook, process, view), address),
    ensures
        is_last_call(
            process,
            view,
            "44 89 74 24 ? 48 ? ? ? ? 48 ? ? e8 $ { ' } 4c"@,
            HookError::DotNotFound,
            address,
        ),
{
}

/// Whether an address is the one that the last match of a signature captures, if
/// there is any, and an error otherwise.
pub open spec fn is_last_call(
    process: &Process,
    view: &PeView<'_>,
    signature: Seq<char>,
    error: HookError,
    address: Result<u64, HookError>,
) -> bool {
    match process::searched(
        process::image_of(*view),
        signature,
        |m: Seq<(u32, u32)>| process::last_capture(process.base_address, m),
    ) {
        Ok(captured) => address == Ok::<u64, HookError>(captured),
        Err(_) => address == Err::<u64, HookError>(error),
    }
}

/// Damage is counted for what the resolver answers, and for the source itself
/// where it has no answer.
pub proof fn law_a_source_without_a_parent_is_its_own<
    F: FnOnce(u32, u64) -> Option<(u32, u32)>,
>(
    source_type_id: u32,
    source_idx: u32,
    source: u64,
    resolver: F,
    answer: Option<(u32, u32)>,
    parent: (u32, u32),
)
    requires
        call_requires(resolver, (source_type_id, source)),
        forall|r: Option<(u32, u32)>| #[trigger]
            call_ensures(resolver, (source_type_id, source), r) ==> r == answer,
        call_ensures(
            resolve_source_parent::<F>,
            (source_type_id, source_idx, source, resolver),
            parent,
        ),
    ensures
        answer is None ==> parent == (source_type_id, source_idx),
        answer is Some ==> parent == answer->Some_0,
{
}

/// A report is told as it is kept.
pub proof fn law_reports_are_told_as_they_are_kept<N>(
    report: DamageReport<N>,
    ids: hooks::ActorIdsView,
    players: player::PlayersView,
)
    ensures
        report_view(report, ids, players).damage == report.damage,
        report_view(report, ids, players).ids == ids,
        report_view(report, ids, players).players == players,
        report_view(report, ids, players).identities.len() == report.identities@.len(),
        forall|i: int|
            0 <= i < report.identities@.len() ==> (#[trigger] report_view(
                report,
                ids,
                players,
            ).identities[i]) == player::event_view(report.identities@[i]),
{
}

/// What is reported of a hit is what its damage instance holds once it has been
/// processed, and the stun between the readings of the target before and after.
/// It counts if the game's function returned something.
pub proof fn law_a_hit_is_reported_from_its_instance<A: Arithmetic, G: Actors>(
    num: spec_fn(A::Single) -> real,
    wide: spec_fn(A::Double) -> real,
    game: &G,
    ids: hooks::ActorIdsView,
    players: player::PlayersView,
    before: Seq<DamageProbe<A::Single>>,
    after: Seq<DamageProbe<A::Single>>,
    started: StartedHit<A::Single>,
    address: u64,
    bytes: Seq<u8>,
    original_value: u64,
    target: u64,
    previous: A::Single,
    word: u32,
    current: A::Single,
    hit: ProcessedHit<A::Single>,
    report: ReportView<A::Single>,
)
    requires
        arithmetic::is_exact::<A>(num, wide),
        bytes.len() >= 0x2DC,
        started.target == Some(target),
        started.previous_stun_value == Some(previous),
        outcome::is_only(memory::half_word_at(game, target.wrapping_add(0xB90)), Some(word)),
        outcome::is_only(arithmetic::bits::<A>(word), current),
        hit_processed::<A, G>(
            game,
            before,
            after,
            started,
            address,
            Some(bytes),
            original_value,
            hit,
        ),
        hit_reports::<A, G>(game, ids, players, hit).contains(report),
    ensures
        original_value == 0 ==> report.damage is None,
        report.damage matches Some(event) ==> {
            &&& damage_details::spells_signed(bytes, 0xD4, event.damage)
            &&& event.damage > 0
            &&& event.flags == memory::spelled(bytes, 0xE8) + 0x1_0000_0000
                * memory::spelled(bytes, 0xEC)
            &&& event.damage_cap matches Some(cap) && damage_details::spells_signed(
                bytes,
                0x2BC,
                cap,
            )
            &&& event.action_id matches ActionType::Normal(id) ==> id == memory::spelled(
                bytes,
                0x16C,
            )
            &&& flags_without_supplement(event.flags) ==> (event.stun_value matches Some(stun)
                && num(previous) + num(stun) == arithmetic::greater(num(current), num(previous)))
        },
        after == (if before.len() == 0 {
            before
        } else {
            before.drop_last()
        }),
{
    damage_details::law_fields_stand_at_their_places::<A>(bytes, hit.fields);
    let actors = choose|actors: Option<HitActors>| #[trigger]
        observations::<A::Single, G>(game, hit).contains(actors) && observed_reports::<A, G>(
            game,
            ids,
            players,
            hit,
            actors,
        ).contains(report);
    if let Some(known) = actors {
        law_a_hit_is_reported_as_it_was::<A, G>(game, ids, players, hit, known, report);
        law_flags_tell_the_action(hit.fields.flags, hit.fields.action_id);
        let event = report.damage->Some_0;
        law_stun_is_read_from_the_target::<A, G>(game, target, word, hit.current_stun_value);
        lemma_known_stun::<A, G>(num, wide, game, target, word, current, hit.current_stun_value);
        if flags_without_supplement(event.flags) {
            law_stun_is_what_a_hit_adds::<A>(num, wide, previous, current, event.stun_value);
        }
        lemma_action_of_report::<A, G>(game, ids, players, hit, known, report);
    }
}

/// A stun that can be read is known where all numbers are finite.
proof fn lemma_known_stun<A: Arithmetic, M: Memory>(
    num: spec_fn(A::Single) -> real,
    wide: spec_fn(A::Double) -> real,
    memory: &M,
    target: u64,
    word: u32,
    current: A::Single,
    value: Option<A::Single>,
)
    requires
        arithmetic::is_exact::<A>(num, wide),
        outcome::is_only(memory::half_word_at(memory, target.wrapping_add(0xB90)), Some(word)),
        outcome::is_only(arithmetic::bits::<A>(word), current),
        target_stun::<A, M>(memory, Some(target)).contains(value),
    ensures
        value == Some(current),
{
}

/// The action of a reported hit is told by its flags.
proof fn lemma_action_of_report<A: Arithmetic, M: Memory>(
    memory: &M,
    ids: hooks::ActorIdsView,
    players: player::PlayersView,
    hit: ProcessedHit<A::Single>,
    actors: HitActors,
    report: ReportView<A::Single>,
)
    requires
        observed_reports::<A, M>(memory, ids, players, hit, Some(actors)).contains(report),
    ensures
        report.damage matches Some(event) && event.action_id == action_of(
            hit.fields.flags,
            hit.fields.action_id,
        ),
{
}

/// The player who is named for a hit is the one who plays the actor that the
/// damage is counted for, under that actor's type and number.
pub proof fn law_the_player_behind_the_damage_is_named<M: Memory>(
    memory: &M,
    ids: hooks::ActorIdsView,
    players: player::PlayersView,
    actors: HitActors,
    counted: u64,
    counted_type: u32,
    attribution: Attribution,
)
    requires
        attributions(memory, ids, players, actors).contains(attribution),
        match actors.parent {
            Some(parent) => counted_type == parent.0 && counted == parent.1,
            None => counted_type == actors.source_type && counted == actors.source,
        },
        counted != 0,
        players.actor_identities.contains_key(counted),
    ensures
        attribution.identities.len() == 1,
        attribution.identities[0].identity == players.actor_identities[counted],
        attribution.identities[0].character_type == counted_type,
        attribution.ids.ids.contains_key(counted),
        attribution.identities[0].actor_index == attribution.ids.ids[counted],
        attribution.players == players,
{
    let (source_idx, ids_1) = hooks::numbered(ids, actors.source);
    let (credit, ids_2) = credited(
        ids_1,
        actors.source_type,
        source_idx,
        actors.source,
        actors.parent,
    );
    assert(ids_1.ids.contains_key(actors.source));
    assert(credit.actor == counted && credit.actor_type == counted_type);
    assert(ids_2.ids.contains_key(counted) && ids_2.ids[counted] == credit.index);
    let emission = choose|emission: (Seq<player::EventView>, player::PlayersView)| #[trigger]
        player::emissions(
            memory,
            players,
            credit.actor,
            credit.actor_type,
            credit.index,
        ).contains(emission) && attribution == attribution_of(
            actors.source_type,
            source_idx,
            credit,
            emission,
            actors.target_type,
            ids_2,
            actors.target,
        );
    player::law_a_resolved_actor_is_told_again(
        memory,
        players,
        counted,
        counted_type,
        credit.index,
        emission,
    );
}

/// A tick of which something cannot be read is none.
pub proof fn law_an_unreadable_tick_is_none<M: Memory>(
    memory: &M,
    dot_instance: u64,
    damage_address: u64,
    tick: Option<(u64, u64, i32)>,
)
    requires
        ({
            ||| outcome::is_only(memory::word_at(memory, dot_instance.wrapping_add(0x18)), None)
            ||| outcome::is_only(memory::word_at(memory, dot_instance.wrapping_add(0x18)), Some(0u64))
            ||| outcome::is_only(memory::word_at(memory, dot_instance.wrapping_add(0x30)), None)
            ||| outcome::is_only(memory::word_at(memory, dot_instance.wrapping_add(0x30)), Some(0u64))
            ||| outcome::is_only(memory::signed_at(memory, damage_address), None)
        }),
        dot_ticks(memory, dot_instance, damage_address).contains(tick),
    ensures
        tick is None,
{
}

/// A target whose link cannot be read is not known, and neither is its stun.
pub proof fn law_an_unreadable_target_is_unknown<A: Arithmetic, M: Memory>(
    memory: &M,
    target_info: u64,
    target: Option<u64>,
    stun: Option<A::Single>,
)
    requires
        outcome::is_only(memory::word_at(memory, target_info.wrapping_add(0x08)), None),
        target_of(memory, target_info).contains(target),
        target_stun::<A, M>(memory, target).contains(stun),
    ensures
        target is None,
        stun is None,
{
}

} // verus!
