//! Experience and leveling core of a chat bot: the level curve, the award
//! policy applied to incoming messages, the encoding of per-user records in
//! a key-value store, the ranked, paginated leaderboard, and the few rules
//! of the moderation commands.

pub mod award;
pub mod codec;
pub mod errors;
pub mod leaderboard;
pub mod level;
pub mod moderation;
pub mod record;
