//! The award policy: whether a message earns experience, and the record
//! that the award leaves behind.
//!
//! Reading the record, deciding and writing it back is not one transaction
//! in the store: unless the caller serialises the three steps per user, two
//! messages of one user handled at once may both read the old record, and
//! the later write wins. Experience is an engagement score, so this weak
//! consistency is accepted rather than hidden.

use vstd::prelude::*;

use crate::errors::StoreError;
use crate::level::{get_level_number, level_of};
use crate::record::LevelData;

verus! {

/// Default gap, in seconds, that must pass between two awards to one user.
pub const DEFAULT_COOLDOWN_SECS: i64 = 60;

/// Default experience granted per qualifying message.
pub const DEFAULT_XP_PER_MESSAGE: u32 = 1;

/// The tunable constants of the policy.
#[derive(Clone, Copy, Debug, PartialEq, Eq, Structural)]
pub struct AwardPolicy {
    /// A message less than this many seconds after the last award earns nothing.
    pub cooldown_secs: i64,
    /// Experience granted for one qualifying message.
    pub xp_per_message: u32,
}

impl AwardPolicy {
    /// The observed policy: one experience point at most once a minute.
    pub fn new() -> (p: AwardPolicy)
        ensures
            p.cooldown_secs == DEFAULT_COOLDOWN_SECS,
            p.xp_per_message == DEFAULT_XP_PER_MESSAGE,
    {
        AwardPolicy { cooldown_secs: DEFAULT_COOLDOWN_SECS, xp_per_message: DEFAULT_XP_PER_MESSAGE }
    }
}

/// An incoming message, as the gateway reports it.
#[derive(Clone, Copy, Debug, PartialEq, Eq, Structural)]
pub struct MessageEvent {
    pub author_id: u64,
    /// When the message was sent, in seconds since the epoch.
    pub event_time: i64,
    pub is_bot_author: bool,
    /// The message starts with the command prefix.
    pub has_command_prefix: bool,
}

/// Outcome of handling one message.
#[derive(Clone, Copy, Debug, PartialEq, Eq, Structural)]
pub enum AwardDecision {
    /// A bot's message or a command: nothing to read or write.
    Ignored,
    /// The last award is too recent: the record stays as it is.
    CoolingDown,
    /// Experience is granted: this record is to be written back.
    Award(LevelData),
    /// The record could not be read: nothing is awarded.
    ReadFailed(StoreError),
}

/// Bots' messages and commands never earn experience.
pub open spec fn qualifies(event: MessageEvent) -> bool {
    !event.is_bot_author && !event.has_command_prefix
}

/// At least the cooldown has passed between `last` and `now`.
pub open spec fn cooldown_over(policy: AwardPolicy, last: i64, now: i64) -> bool {
    now - last >= policy.cooldown_secs
}

/// `a + b`, held at `u32::MAX`.
pub open spec fn add_capped(a: u32, b: u32) -> u32 {
    if a + b > u32::MAX {
        u32::MAX
    } else {
        (a + b) as u32
    }
}

/// The record after one award at `now`: one more message, the reward added
/// (both held at `u32::MAX`), and `now` as the time of the last award.
pub open spec fn awarded(policy: AwardPolicy, record: LevelData, now: i64) -> LevelData {
    LevelData {
        msg_count: add_capped(record.msg_count, 1),
        xp: add_capped(record.xp, policy.xp_per_message),
        level: level_of(add_capped(record.xp, policy.xp_per_message) as nat) as u32,
        last_msg: now,
    }
}

/// What the policy does with `event`, given what reading its author's record gave.
pub open spec fn award_decision(
    policy: AwardPolicy,
    event: MessageEvent,
    stored: Result<LevelData, StoreError>,
) -> AwardDecision {
    if !qualifies(event) {
        AwardDecision::Ignored
    } else {
        match stored {
            Err(e) => AwardDecision::ReadFailed(e),
            Ok(record) => if cooldown_over(policy, record.last_msg, event.event_time) {
                AwardDecision::Award(awarded(policy, record, event.event_time))
            } else {
                AwardDecision::CoolingDown
            },
        }
    }
}

/// Whether `event` can earn experience at all; when it cannot, its author's
/// record need not be read.
pub fn message_qualifies(event: &MessageEvent) -> (r: bool)
    ensures
        r == qualifies(*event),
{
    !event.is_bot_author && !event.has_command_prefix
}

/// Whether an award at `now` is allowed after one at `last`.
pub fn cooldown_elapsed(policy: &AwardPolicy, last: i64, now: i64) -> (r: bool)
    ensures
        r == cooldown_over(*policy, last, now),
{
    now as i128 - last as i128 >= policy.cooldown_secs as i128
}

/// The record after an award at `now`.
pub fn award(policy: &AwardPolicy, record: &LevelData, now: i64) -> (r: LevelData)
    ensures
        r == awarded(*policy, *record, now),
        r.wf(),
{
    let xp = record.xp.saturating_add(policy.xp_per_message);
    LevelData {
        msg_count: record.msg_count.saturating_add(1),
        xp,
        level: get_level_number(xp),
        last_msg: now,
    }
}

/// Handles one message: bots' messages and commands are ignored, a failed
/// read is reported, a message within the cooldown changes nothing, and any
/// other message is awarded.
pub fn decide_award(
    policy: &AwardPolicy,
    event: &MessageEvent,
    stored: Result<LevelData, StoreError>,
) -> (r: AwardDecision)
    ensures
        r == award_decision(*policy, *event, stored),
{
    if !message_qualifies(event) {
        return AwardDecision::Ignored;
    }
    match stored {
        Err(e) => AwardDecision::ReadFailed(e),
        Ok(record) => {
            if cooldown_elapsed(policy, record.last_msg, event.event_time) {
                AwardDecision::Award(award(policy, &record, event.event_time))
            } else {
                AwardDecision::CoolingDown
            }
        },
    }
}

/// A user with nothing stored yet, whose first qualifying message comes at
/// least the cooldown after the epoch, gets one message counted, the reward
/// as experience, and the message's time as the last award.
pub proof fn lemma_first_award(policy: AwardPolicy, event: MessageEvent)
    requires
        qualifies(event),
        cooldown_over(policy, 0, event.event_time),
    ensures
        award_decision(policy, event, Ok(LevelData { msg_count: 0, xp: 0, level: 0, last_msg: 0 }))
            == AwardDecision::Award(
            LevelData {
                msg_count: 1,
                xp: policy.xp_per_message,
                level: level_of(policy.xp_per_message as nat) as u32,
                last_msg: event.event_time,
            },
        ),
{
}

/// After an award for `first`, a later qualifying message `second` of the
/// same user is awarded again exactly when at least the cooldown separates
/// the two.
pub proof fn lemma_second_message(
    policy: AwardPolicy,
    record: LevelData,
    first: MessageEvent,
    second: MessageEvent,
)
    requires
        award_decision(policy, first, Ok(record)) is Award,
        qualifies(second),
    ensures
        award_decision(policy, second, Ok(awarded(policy, record, first.event_time))) is Award
            <==> second.event_time - first.event_time >= policy.cooldown_secs,
        !(award_decision(policy, second, Ok(awarded(policy, record, first.event_time))) is Award)
            ==> award_decision(policy, second, Ok(awarded(policy, record, first.event_time)))
            == AwardDecision::CoolingDown,
{
}

/// A bot's message or a command never leads to a write, whatever the store holds.
pub proof fn lemma_ignored_never_writes(
    policy: AwardPolicy,
    event: MessageEvent,
    stored: Result<LevelData, StoreError>,
)
    requires
        event.is_bot_author || event.has_command_prefix,
    ensures
        award_decision(policy, event, stored) == AwardDecision::Ignored,
{
}

} // verus!
