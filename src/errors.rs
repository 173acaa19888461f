//! Errors of the bot, and of the score store as the leveling core sees it.

use vstd::prelude::*;
use vstd::string::StringExecFns;

verus! {

/// Errors that a command of the bot can end with.
pub enum GompeiError {
    CommandError(String),
    DatabaseError,
    SerenityError(String),
    GenericError(String),
}

/// What the store can fail with, as the leveling core tells the cases apart.
#[derive(Clone, Copy, Debug, PartialEq, Eq, Structural)]
pub enum StoreError {
    /// The store could not be reached.
    StoreUnavailable,
    /// A listed guild member could not be resolved.
    NoSuchMember,
}

/// Text shown for `e`.
pub open spec fn error_text(e: GompeiError) -> Seq<char> {
    match e {
        GompeiError::CommandError(s) => "Command Error: "@ + s@,
        GompeiError::DatabaseError => "Database Error"@,
        GompeiError::SerenityError(s) => "Bot error: "@ + s@,
        GompeiError::GenericError(s) => "Unknown Error: "@ + s@,
    }
}

fn prefixed(prefix: &str, detail: &String) -> (r: String)
    ensures
        r@ == prefix@ + detail@,
{
    let mut text = String::from_str(prefix);
    text.append(detail.as_str());
    text
}

impl GompeiError {
    /// The error as text, for logs and replies.
    pub fn message(&self) -> (r: String)
        ensures
            r@ == error_text(*self),
    {
        match self {
            GompeiError::CommandError(s) => prefixed("Command Error: ", s),
            GompeiError::DatabaseError => String::from_str("Database Error"),
            GompeiError::SerenityError(s) => prefixed("Bot error: ", s),
            GompeiError::GenericError(s) => prefixed("Unknown Error: ", s),
        }
    }
}

/// redis's `RedisError`, declared opaque: a failure of the store client is
/// only converted, never looked into.
#[verifier::external_type_specification]
#[verifier::external_body]
pub struct ExRedisError(redis::RedisError);

impl From<redis::RedisError> for GompeiError {
    /// Every failure of the store client is a database error.
    fn from(_e: redis::RedisError) -> (r: GompeiError)
        ensures
            r is DatabaseError,
    {
        GompeiError::DatabaseError
    }
}

impl vstd::std_specs::convert::FromSpecImpl<redis::RedisError> for GompeiError {
    open spec fn obeys_from_spec() -> bool {
        true
    }

    open spec fn from_spec(v: redis::RedisError) -> GompeiError {
        GompeiError::DatabaseError
    }
}

} // verus!
