use std::cell::Cell;

use gbfr_logs::protocol::{
    deserialize_message, ActionType, Actor, DamageEvent, LegacyDamageEvent, LegacyMessage, Message,
    OnDeathEvent, PIPE_NAME,
};

const SOMEBODY: Actor = Actor { index: 1, actor_type: 2, parent_index: 3, parent_actor_type: 4 };

fn legacy_event() -> LegacyDamageEvent<f32> {
    LegacyDamageEvent {
        source: SOMEBODY,
        target: Actor { index: 9, ..SOMEBODY },
        damage: -5,
        flags: 6,
        action_id: ActionType::SBA,
        attack_rate: Some(0.5),
        stun_value: Some(1.5),
        damage_cap: Some(77),
    }
}

#[test]
fn the_pipe_has_its_name() {
    assert_eq!(PIPE_NAME, r"\\.\pipe\gbfr-logs");
}

#[test]
fn actions_are_shown_to_people() {
    assert_eq!(ActionType::LinkAttack.to_text(), "Link Attack");
    assert_eq!(ActionType::SBA.to_text(), "Skybound Arts");
    assert_eq!(ActionType::SupplementaryDamage(0).to_text(), "Supplementary Damage (0)");
    assert_eq!(ActionType::DamageOverTime(10).to_text(), "Damage Over Time (10)");
    assert_eq!(ActionType::Normal(u32::MAX).to_text(), "Skill (4294967295)");
}

#[test]
fn an_upgrade_keeps_every_field_and_invents_no_details() {
    let event = DamageEvent::from(legacy_event());

    assert_eq!(event.source, SOMEBODY);
    assert_eq!(event.target.index, 9);
    assert_eq!(event.damage, -5);
    assert_eq!(event.flags, 6);
    assert_eq!(event.action_id, ActionType::SBA);
    assert_eq!(event.attack_rate, Some(0.5));
    assert_eq!(event.stun_value, Some(1.5));
    assert_eq!(event.damage_cap, Some(77));
    assert!(event.details.is_none());
    let death = OnDeathEvent { actor_index: 1, death_counter: 2 };
    assert!(matches!(
        Message::from(LegacyMessage::<f32>::OnDeathEvent(death)),
        Message::OnDeathEvent(OnDeathEvent { actor_index: 1, death_counter: 2 })
    ));
}

#[test]
fn the_current_layout_wins() {
    let asked = Cell::new(false);
    let message = deserialize_message::<f32, &str, &str, _, _>(
        &[1, 2],
        |bytes| {
            assert_eq!(bytes, [1, 2]);
            Ok(Message::OnBattleEnd)
        },
        |_| {
            asked.set(true);
            Ok(LegacyMessage::DamageEvent(legacy_event()))
        },
    );

    assert!(matches!(message, Ok(Message::OnBattleEnd)));
    assert!(!asked.get());
}

#[test]
fn the_previous_layout_is_taken_where_the_current_one_fails() {
    let message = deserialize_message::<f32, &str, &str, _, _>(
        &[],
        |_| Err("current"),
        |_| Ok(LegacyMessage::DamageEvent(legacy_event())),
    );

    let Ok(Message::DamageEvent(event)) = message else {
        panic!("not a damage event");
    };
    assert_eq!(event.damage, -5);
}

#[test]
fn bytes_of_neither_layout_give_the_current_error() {
    let message =
        deserialize_message::<f32, &str, &str, _, _>(&[], |_| Err("current"), |_| Err("legacy"));

    assert!(matches!(message, Err("current")));
}
