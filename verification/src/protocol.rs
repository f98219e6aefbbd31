//! The events that the hook inside the game sends to the meter.
//!
//! Messages travel over a named pipe as fixed field sequences, so the hook and
//! the meter must agree on the layout. A meter can be newer than the hook that
//! an already running game has loaded; [`deserialize_message`] therefore also
//! takes messages of the previous layout.
//!
//! `N` is the type of the single precision numbers in a message.

use vstd::prelude::*;
use vstd::std_specs::convert::FromSpecImpl;
use vstd::string::*;
use crate::text;
use crate::text::append_decimal;

verus! {

/// The pipe that the messages travel over.
pub const PIPE_NAME: &'static str = "\\\\.\\pipe\\gbfr-logs";

#[derive(Debug, Clone, Copy, PartialEq, Eq, Structural)]
pub struct Actor {
    /// Index of the actor, unique in the party.
    pub index: u32,
    /// Hash ID of the actor.
    pub actor_type: u32,
    /// Index of the actor's parent. If no parent, then it's the same as `index`.
    pub parent_index: u32,
    /// Hash ID of this actor's parent. If no parent, then it's the same as `actor_type`.
    pub parent_actor_type: u32,
}

#[derive(Debug, Clone, Copy, PartialEq, Eq, PartialOrd, Ord, Hash, Structural)]
pub enum ActionType {
    /// Link Attack
    LinkAttack,
    /// Skybound Arts
    SBA,
    /// Supplementary Damage containing the original skill ID that triggered it.
    SupplementaryDamage(u32),
    /// Damage over time, containing the effect type.
    DamageOverTime(u32),
    /// Normal Skill Attack containing the skill ID.
    Normal(u32),
}

impl ActionType {
    /// How the action is shown to people.
    pub open spec fn caption(self) -> Seq<char> {
        match self {
            ActionType::LinkAttack => "Link Attack"@,
            ActionType::SBA => "Skybound Arts"@,
            ActionType::SupplementaryDamage(id) => "Supplementary Damage ("@ + text::decimal(
                id as nat,
            ) + ")"@,
            ActionType::DamageOverTime(id) => "Damage Over Time ("@ + text::decimal(id as nat)
                + ")"@,
            ActionType::Normal(id) => "Skill ("@ + text::decimal(id as nat) + ")"@,
        }
    }

    /// The text that shows the action to people.
    pub fn to_text(&self) -> (text: String)
        ensures
            text@ == self.caption(),
    {
        match *self {
            ActionType::LinkAttack => "Link Attack".to_owned(),
            ActionType::SBA => "Skybound Arts".to_owned(),
            ActionType::SupplementaryDamage(id) => numbered("Supplementary Damage (", id),
            ActionType::DamageOverTime(id) => numbered("Damage Over Time (", id),
            ActionType::Normal(id) => numbered("Skill (", id),
        }
    }
}

/// A heading followed by a number and a closing bracket.
fn numbered(heading: &str, number: u32) -> (text: String)
    ensures
        text@ == heading@ + text::decimal(number as nat) + ")"@,
{
    let mut text = heading.to_owned();
    append_decimal(&mut text, number);
    text.append(")");
    text
}

#[derive(Debug, Clone)]
pub struct DamageEvent<N> {
    pub source: Actor,
    pub target: Actor,
    pub damage: i32,
    pub flags: u64,
    pub action_id: ActionType,
    pub attack_rate: Option<N>,
    pub stun_value: Option<N>,
    pub damage_cap: Option<i32>,
    /// Detailed damage modifiers captured from the game's calculation.
    pub details: Option<DamageDetails<N>>,
}

#[derive(Debug, Clone, Copy, PartialEq, Eq, Hash, Structural)]
pub enum DamageModifierKind {
    Attack,
    Defense,
    DamageLimit,
    BonusAttack,
    Amplify,
}

#[derive(Debug, Clone)]
pub struct DamageStatusContribution<N> {
    pub status_name: String,
    pub kind: DamageModifierKind,
    pub category: i32,
    pub value: N,
}

/// The resolved factors for one damage event.
///
/// The order of the fields is part of the wire format. Some names are older
/// than what they hold.
#[derive(Debug, Clone)]
pub struct DamageDetails<N> {
    /// The probability of a critical hit.
    pub elemental_multiplier: N,
    pub amplify_multiplier: N,
    /// The game's own aggregate over attack and defense.
    pub defense_multiplier: N,
    pub attack_multiplier: N,
    /// Pursuit damage is a separate event, so this is `1`.
    pub supplementary_multiplier: N,
    /// `damage_limit * amplify + max(attack_defense - 1, 0) / 2`.
    pub formula_multiplier: N,
    pub attack_rate: N,
    /// The base damage after floor and cap.
    pub uncapped_damage: N,
    pub damage_cap: i32,
    pub damage_limit_multiplier: N,
    pub statuses: Vec<DamageStatusContribution<N>>,
}

#[derive(Debug, Clone)]
pub struct Sigil {
    pub first_trait_id: u32,
    pub first_trait_level: u32,
    pub second_trait_id: u32,
    pub second_trait_level: u32,
    pub sigil_id: u32,
    pub equipped_character: u32,
    pub sigil_level: u32,
    pub acquisition_count: u32,
    pub notification_enum: u32,
}

#[derive(Debug, Clone)]
pub struct WeaponInfo {
    /// Weapon ID Hash
    pub weapon_id: u32,
    /// How many uncap stars the weapon has
    pub star_level: u32,
    /// Number of plus marks on the weapon
    pub plus_marks: u32,
    /// Weapon's awakening level
    pub awakening_level: u32,
    /// First trait ID
    pub trait_1_id: u32,
    /// First trait level
    pub trait_1_level: u32,
    /// Second trait ID
    pub trait_2_id: u32,
    /// Second trait level
    pub trait_2_level: u32,
    /// Third trait ID
    pub trait_3_id: u32,
    /// Third trait level
    pub trait_3_level: u32,
    /// Wrightstone used on the weapon
    pub wrightstone_id: u32,
    /// Current weapon level
    pub weapon_level: u32,
    /// Weapon's HP Stats (before plus marks)
    pub weapon_hp: u32,
    /// Weapon's Attack Stats (before plus marks)
    pub weapon_attack: u32,
}

/// Overmastery, also known as `limit_bonus`.
#[derive(Debug, Clone)]
pub struct Overmastery<N> {
    /// Overmastery ID
    pub id: u32,
    /// Flags
    pub flags: u32,
    /// Value
    pub value: N,
}

#[derive(Debug, Clone)]
pub struct OvermasteryInfo<N> {
    pub overmasteries: Vec<Overmastery<N>>,
}

#[derive(Debug, Clone)]
pub struct PlayerStats<N> {
    pub level: u32,
    pub total_hp: u32,
    pub total_attack: u32,
    pub stun_power: N,
    pub critical_rate: N,
    pub total_power: u32,
}

#[derive(Debug, Clone)]
pub struct PlayerLoadEvent<N> {
    pub sigils: Vec<Sigil>,
    pub character_name: String,
    pub display_name: String,
    pub character_type: u32,
    pub party_index: u8,
    pub actor_index: u32,
    pub is_online: bool,
    pub weapon_info: WeaponInfo,
    pub overmastery_info: OvermasteryInfo<N>,
    pub player_stats: PlayerStats<N>,
}

/// Minimal player metadata, without the equipment that game updates move.
#[derive(Debug, Clone)]
pub struct PlayerIdentityEvent {
    pub character_name: String,
    pub display_name: String,
    pub character_type: u32,
    pub party_index: u8,
    pub actor_index: u32,
    pub is_online: bool,
}

#[derive(Debug, Clone)]
pub struct AreaEnterEvent {
    /// Quest ID, last known. Could be stale if no other quest was run while changing areas. 0 if no quest.
    pub last_known_quest_id: u32,
    /// The in-game quest timer in seconds. Could be stale if no other quest was run while changing areas.
    pub last_known_elapsed_time_in_secs: u32,
}

#[derive(Debug, Clone)]
pub struct QuestCompleteEvent {
    pub quest_id: u32,
    pub elapsed_time_in_secs: u32,
}

#[derive(Debug, Clone)]
pub struct OnUpdateSBAEvent<N> {
    pub actor_index: u32,
    pub sba_value: N,
    pub sba_added: N,
}

/// Whenever SBA is attempted, but not necessarily hit.
#[derive(Debug, Clone)]
pub struct OnAttemptSBAEvent {
    pub actor_index: u32,
}

#[derive(Debug, Clone)]
pub struct OnPerformSBAEvent {
    pub actor_index: u32,
}

#[derive(Debug, Clone)]
pub struct OnContinueSBAChainEvent {
    pub actor_index: u32,
}

#[derive(Debug, Clone)]
pub struct OnDeathEvent {
    pub actor_index: u32,
    pub death_counter: u32,
}

#[derive(Debug, Clone)]
pub enum Message<N> {
    OnAreaEnter(AreaEnterEvent),
    OnQuestComplete(QuestCompleteEvent),
    DamageEvent(DamageEvent<N>),
    OnUpdateSBA(OnUpdateSBAEvent<N>),
    OnAttemptSBA(OnAttemptSBAEvent),
    OnPerformSBA(OnPerformSBAEvent),
    OnContinueSBAChain(OnContinueSBAChainEvent),
    PlayerLoadEvent(PlayerLoadEvent<N>),
    OnDeathEvent(OnDeathEvent),
    /// The game has entered its quest result screen.
    OnBattleEnd,
    /// Player name and actor mapping without equipment data.
    PlayerIdentityEvent(PlayerIdentityEvent),
}

/// Damage event of the layout used through Awa Edition 1.8.4, which has no details.
#[derive(Debug, Clone)]
pub struct LegacyDamageEvent<N> {
    pub source: Actor,
    pub target: Actor,
    pub damage: i32,
    pub flags: u64,
    pub action_id: ActionType,
    pub attack_rate: Option<N>,
    pub stun_value: Option<N>,
    pub damage_cap: Option<i32>,
}

/// Message of the layout used through Awa Edition 1.8.4. The order of the
/// variants is part of the wire format.
#[derive(Debug, Clone)]
pub enum LegacyMessage<N> {
    OnAreaEnter(AreaEnterEvent),
    OnQuestComplete(QuestCompleteEvent),
    DamageEvent(LegacyDamageEvent<N>),
    OnUpdateSBA(OnUpdateSBAEvent<N>),
    OnAttemptSBA(OnAttemptSBAEvent),
    OnPerformSBA(OnPerformSBAEvent),
    OnContinueSBAChain(OnContinueSBAChainEvent),
    PlayerLoadEvent(PlayerLoadEvent<N>),
    OnDeathEvent(OnDeathEvent),
    OnBattleEnd,
    PlayerIdentityEvent(PlayerIdentityEvent),
}

/// The current form of a damage event of the previous layout.
pub open spec fn upgraded_event<N>(event: LegacyDamageEvent<N>) -> DamageEvent<N> {
    DamageEvent {
        source: event.source,
        target: event.target,
        damage: event.damage,
        flags: event.flags,
        action_id: event.action_id,
        attack_rate: event.attack_rate,
        stun_value: event.stun_value,
        damage_cap: event.damage_cap,
        details: None,
    }
}

/// The current form of a message of the previous layout.
pub open spec fn upgraded<N>(message: LegacyMessage<N>) -> Message<N> {
    match message {
        LegacyMessage::OnAreaEnter(event) => Message::OnAreaEnter(event),
        LegacyMessage::OnQuestComplete(event) => Message::OnQuestComplete(event),
        LegacyMessage::DamageEvent(event) => Message::DamageEvent(upgraded_event(event)),
        LegacyMessage::OnUpdateSBA(event) => Message::OnUpdateSBA(event),
        LegacyMessage::OnAttemptSBA(event) => Message::OnAttemptSBA(event),
        LegacyMessage::OnPerformSBA(event) => Message::OnPerformSBA(event),
        LegacyMessage::OnContinueSBAChain(event) => Message::OnContinueSBAChain(event),
        LegacyMessage::PlayerLoadEvent(event) => Message::PlayerLoadEvent(event),
        LegacyMessage::OnDeathEvent(event) => Message::OnDeathEvent(event),
        LegacyMessage::OnBattleEnd => Message::OnBattleEnd,
        LegacyMessage::PlayerIdentityEvent(event) => Message::PlayerIdentityEvent(event),
    }
}

impl<N> From<LegacyDamageEvent<N>> for DamageEvent<N> {
    fn from(event: LegacyDamageEvent<N>) -> (upgrade: Self) {
        DamageEvent {
            source: event.source,
            target: event.target,
            damage: event.damage,
            flags: event.flags,
            action_id: event.action_id,
            attack_rate: event.attack_rate,
            stun_value: event.stun_value,
            damage_cap: event.damage_cap,
            details: None,
        }
    }
}

impl<N> FromSpecImpl<LegacyDamageEvent<N>> for DamageEvent<N> {
    open spec fn obeys_from_spec() -> bool {
        true
    }

    open spec fn from_spec(event: LegacyDamageEvent<N>) -> Self {
        upgraded_event(event)
    }
}

impl<N> From<LegacyMessage<N>> for Message<N> {
    fn from(message: LegacyMessage<N>) -> (upgrade: Self) {
        match message {
            LegacyMessage::OnAreaEnter(event) => Message::OnAreaEnter(event),
            LegacyMessage::OnQuestComplete(event) => Message::OnQuestComplete(event),
            LegacyMessage::DamageEvent(event) => Message::DamageEvent(DamageEvent::from(event)),
            LegacyMessage::OnUpdateSBA(event) => Message::OnUpdateSBA(event),
            LegacyMessage::OnAttemptSBA(event) => Message::OnAttemptSBA(event),
            LegacyMessage::OnPerformSBA(event) => Message::OnPerformSBA(event),
            LegacyMessage::OnContinueSBAChain(event) => Message::OnContinueSBAChain(event),
            LegacyMessage::PlayerLoadEvent(event) => Message::PlayerLoadEvent(event),
            LegacyMessage::OnDeathEvent(event) => Message::OnDeathEvent(event),
            LegacyMessage::OnBattleEnd => Message::OnBattleEnd,
            LegacyMessage::PlayerIdentityEvent(event) => Message::PlayerIdentityEvent(event),
        }
    }
}

impl<N> FromSpecImpl<LegacyMessage<N>> for Message<N> {
    open spec fn obeys_from_spec() -> bool {
        true
    }

    open spec fn from_spec(message: LegacyMessage<N>) -> Self {
        upgraded(message)
    }
}

/// Decodes a message of the current layout or, where that fails, of the
/// previous one. Bytes of neither layout give the error of the current one.
///
/// `current` and `legacy` decode one layout each.
pub fn deserialize_message<N, E, L, C: Fn(&[u8]) -> Result<Message<N>, E>, D: Fn(&[u8]) -> Result<
    LegacyMessage<N>,
    L,
>>(bytes: &[u8], current: C, legacy: D) -> (message: Result<Message<N>, E>)
    requires
        call_requires(current, (bytes,)),
        call_requires(legacy, (bytes,)),
    ensures
        exists|first: Result<Message<N>, E>| #[trigger]
            call_ensures(current, (bytes,), first) && match first {
                Ok(decoded) => message == Ok::<Message<N>, E>(decoded),
                Err(error) => exists|second: Result<LegacyMessage<N>, L>| #[trigger]
                    call_ensures(legacy, (bytes,), second) && message == (match second {
                        Ok(decoded) => Ok::<Message<N>, E>(upgraded(decoded)),
                        Err(_) => Err(error),
                    }),
            },
{
    match current(bytes) {
        Ok(message) => Ok(message),
        Err(current_error) => match legacy(bytes) {
            Ok(message) => Ok(Message::from(message)),
            Err(_) => Err(current_error),
        },
    }
}

/// Bringing a message to the current form loses nothing, and invents no details.
pub proof fn law_an_upgrade_loses_nothing<N>(one: LegacyMessage<N>, other: LegacyMessage<N>)
    ensures
        upgraded(one) == upgraded(other) ==> one == other,
        upgraded(one) matches Message::DamageEvent(event) ==> event.details is None,
{
}

/// A damage event of the previous layout keeps all that it told, and a message
/// stays of its sort.
pub proof fn law_an_upgrade_keeps_what_was_told<N>(event: LegacyDamageEvent<N>)
    ensures
        upgraded(LegacyMessage::DamageEvent(event)) matches Message::DamageEvent(current) && {
            &&& current.source == event.source
            &&& current.target == event.target
            &&& current.damage == event.damage
            &&& current.flags == event.flags
            &&& current.action_id == event.action_id
            &&& current.attack_rate == event.attack_rate
            &&& current.stun_value == event.stun_value
            &&& current.damage_cap == event.damage_cap
        },
        forall|e: AreaEnterEvent|
            (#[trigger] upgraded(LegacyMessage::<N>::OnAreaEnter(e))) == Message::<N>::OnAreaEnter(
                e,
            ),
        forall|e: QuestCompleteEvent|
            (#[trigger] upgraded(LegacyMessage::<N>::OnQuestComplete(e))) == Message::<
                N,
            >::OnQuestComplete(e),
        forall|e: OnUpdateSBAEvent<N>|
            (#[trigger] upgraded(LegacyMessage::OnUpdateSBA(e))) == Message::OnUpdateSBA(e),
        forall|e: OnAttemptSBAEvent|
            (#[trigger] upgraded(LegacyMessage::<N>::OnAttemptSBA(e))) == Message::<
                N,
            >::OnAttemptSBA(e),
        forall|e: OnPerformSBAEvent|
            (#[trigger] upgraded(LegacyMessage::<N>::OnPerformSBA(e))) == Message::<
                N,
            >::OnPerformSBA(e),
        forall|e: OnContinueSBAChainEvent|
            (#[trigger] upgraded(LegacyMessage::<N>::OnContinueSBAChain(e))) == Message::<
                N,
            >::OnContinueSBAChain(e),
        forall|e: PlayerLoadEvent<N>|
            (#[trigger] upgraded(LegacyMessage::PlayerLoadEvent(e))) == Message::PlayerLoadEvent(e),
        forall|e: OnDeathEvent|
            (#[trigger] upgraded(LegacyMessage::<N>::OnDeathEvent(e))) == Message::<
                N,
            >::OnDeathEvent(e),
        forall|e: PlayerIdentityEvent|
            (#[trigger] upgraded(LegacyMessage::<N>::PlayerIdentityEvent(e))) == Message::<
                N,
            >::PlayerIdentityEvent(e),
        upgraded(LegacyMessage::<N>::OnBattleEnd) == Message::<N>::OnBattleEnd,
{
}

/// The caption of an action with a number shows that number in brackets, after
/// what the action is.
pub proof fn law_captions_show_the_number(id: u32)
    ensures
        ActionType::SupplementaryDamage(id).caption() == "Supplementary Damage"@ + " ("@
            + text::decimal(id as nat) + ")"@,
        ActionType::DamageOverTime(id).caption() == "Damage Over Time"@ + " ("@ + text::decimal(
            id as nat,
        ) + ")"@,
        ActionType::Normal(id).caption() == "Skill"@ + " ("@ + text::decimal(id as nat) + ")"@,
        text::number_of(text::decimal(id as nat)) == id,
{
    reveal_strlit("Supplementary Damage (");
    reveal_strlit("Supplementary Damage");
    reveal_strlit("Damage Over Time (");
    reveal_strlit("Damage Over Time");
    reveal_strlit("Skill (");
    reveal_strlit("Skill");
    reveal_strlit(" (");
    assert("Supplementary Damage ("@ =~= "Supplementary Damage"@ + " ("@);
    assert("Damage Over Time ("@ =~= "Damage Over Time"@ + " ("@);
    assert("Skill ("@ =~= "Skill"@ + " ("@);
    text::law_digits_stand_for_their_number(id as nat);
}

/// A message is read in the current layout if it can be, and else in the
/// previous one. What can be read in neither fails as it does in the current one.
pub proof fn law_the_current_layout_is_tried_first<
    N,
    E,
    L,
    C: Fn(&[u8]) -> Result<Message<N>, E>,
    D: Fn(&[u8]) -> Result<LegacyMessage<N>, L>,
>(
    bytes: &[u8],
    current: C,
    legacy: D,
    first: Result<Message<N>, E>,
    second: Result<LegacyMessage<N>, L>,
    message: Result<Message<N>, E>,
)
    requires
        call_ensures(
            deserialize_message::<N, E, L, C, D>,
            (bytes, current, legacy),
            message,
        ),
        forall|r: Result<Message<N>, E>| #[trigger]
            call_ensures(current, (bytes,), r) ==> r == first,
        forall|r: Result<LegacyMessage<N>, L>| #[trigger]
            call_ensures(legacy, (bytes,), r) ==> r == second,
    ensures
        first is Ok ==> message == first,
        first is Err && second is Ok ==> message == Ok::<Message<N>, E>(upgraded(second->Ok_0)),
        first is Err && second is Err ==> message == first,
{
}

} // verus!
