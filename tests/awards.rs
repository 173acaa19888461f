use gompei::award::{award, cooldown_elapsed, decide_award, message_qualifies, AwardDecision, AwardPolicy, MessageEvent};
use gompei::errors::StoreError;
use gompei::record::LevelData;

fn message(time: i64) -> MessageEvent {
    MessageEvent { author_id: 7, event_time: time, is_bot_author: false, has_command_prefix: false }
}

fn apply(policy: &AwardPolicy, record: LevelData, event: &MessageEvent) -> LevelData {
    match decide_award(policy, event, Ok(record)) {
        AwardDecision::Award(next) => next,
        _ => record,
    }
}

#[test]
fn default_policy() {
    let policy = AwardPolicy::new();
    assert_eq!(policy.cooldown_secs, 60);
    assert_eq!(policy.xp_per_message, 1);
}

#[test]
fn fresh_user_gets_first_award() {
    let policy = AwardPolicy::new();
    let now = 1_700_000_000;
    let decision = decide_award(&policy, &message(now), Ok(LevelData::empty()));
    assert_eq!(
        decision,
        AwardDecision::Award(LevelData { msg_count: 1, xp: 1, level: 0, last_msg: now })
    );
}

#[test]
fn messages_thirty_seconds_apart_award_once() {
    let policy = AwardPolicy::new();
    let first = apply(&policy, LevelData::empty(), &message(1_000_000));
    let second = apply(&policy, first, &message(1_000_030));
    assert_eq!(first.xp, 1);
    assert_eq!(second, first);
    assert_eq!(decide_award(&policy, &message(1_000_030), Ok(first)), AwardDecision::CoolingDown);
}

#[test]
fn messages_sixty_one_seconds_apart_award_twice() {
    let policy = AwardPolicy::new();
    let first = apply(&policy, LevelData::empty(), &message(1_000_000));
    let second = apply(&policy, first, &message(1_000_061));
    assert_eq!(second, LevelData { msg_count: 2, xp: 2, level: 0, last_msg: 1_000_061 });
}

#[test]
fn cooldown_boundary() {
    let policy = AwardPolicy::new();
    assert!(!cooldown_elapsed(&policy, 100, 159));
    assert!(cooldown_elapsed(&policy, 100, 160));
    assert!(!cooldown_elapsed(&policy, 100, 40));
    assert!(cooldown_elapsed(&policy, i64::MIN, i64::MAX));
    assert!(!cooldown_elapsed(&policy, i64::MAX, i64::MIN));
}

#[test]
fn bots_and_commands_never_award() {
    let policy = AwardPolicy::new();
    let record = LevelData::new(3, 40, 0);
    let bot = MessageEvent { is_bot_author: true, ..message(1_000_000) };
    let command = MessageEvent { has_command_prefix: true, ..message(1_000_000) };
    assert!(!message_qualifies(&bot));
    assert!(!message_qualifies(&command));
    assert!(message_qualifies(&message(5)));
    assert_eq!(decide_award(&policy, &bot, Ok(record)), AwardDecision::Ignored);
    assert_eq!(decide_award(&policy, &command, Ok(record)), AwardDecision::Ignored);
    assert_eq!(
        decide_award(&policy, &command, Err(StoreError::StoreUnavailable)),
        AwardDecision::Ignored
    );
    assert_eq!(apply(&policy, record, &bot), record);
}

#[test]
fn failed_read_awards_nothing() {
    let policy = AwardPolicy::new();
    assert_eq!(
        decide_award(&policy, &message(1_000_000), Err(StoreError::StoreUnavailable)),
        AwardDecision::ReadFailed(StoreError::StoreUnavailable)
    );
}

#[test]
fn award_reaches_next_level_and_caps() {
    let policy = AwardPolicy { cooldown_secs: 60, xp_per_message: 1 };
    let next = award(&policy, &LevelData::new(9, 49, 0), 500);
    assert_eq!(next, LevelData { msg_count: 10, xp: 50, level: 1, last_msg: 500 });
    let full = award(&policy, &LevelData::new(u32::MAX, u32::MAX, 0), 500);
    assert_eq!(full, LevelData { msg_count: u32::MAX, xp: u32::MAX, level: 441, last_msg: 500 });
    let generous = AwardPolicy { cooldown_secs: 0, xp_per_message: 25 };
    assert_eq!(award(&generous, &LevelData::new(0, 30, 0), 1).xp, 55);
}
