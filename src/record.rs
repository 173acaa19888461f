//! A user's score record and its layout in the key-value store: three
//! entries per user id, `{id}:count`, `{id}:exp` and `{id}:last`, each
//! holding a decimal number (the last one in seconds since the epoch).

use vstd::prelude::*;

use crate::codec::{
    decimal, lemma_i64_text_round_trip, lemma_u32_text_round_trip, parse_i64, parse_u32,
    push_decimal, push_signed_decimal, signed_decimal, text_i64, text_u32,
};
use crate::level::{get_level_number, level_of};

verus! {

/// One user's record: messages counted, experience, the level it gives, and
/// when experience was last awarded (seconds since the epoch, `0` for a user
/// never seen).
#[derive(Clone, Copy, Debug, PartialEq, Eq, Structural)]
pub struct LevelData {
    pub msg_count: u32,
    pub xp: u32,
    pub level: u32,
    pub last_msg: i64,
}

impl LevelData {
    /// The level is the one that the experience gives.
    pub open spec fn wf(&self) -> bool {
        self.level as nat == level_of(self.xp as nat)
    }

    /// A record with the level derived from `xp`.
    pub fn new(msg_count: u32, xp: u32, last_msg: i64) -> (r: LevelData)
        ensures
            r.msg_count == msg_count,
            r.xp == xp,
            r.last_msg == last_msg,
            r.wf(),
    {
        LevelData { msg_count, xp, level: get_level_number(xp), last_msg }
    }

    /// The record of a user with nothing stored.
    pub fn empty() -> (r: LevelData)
        ensures
            r == (LevelData { msg_count: 0, xp: 0, level: 0, last_msg: 0 }),
            r.wf(),
    {
        LevelData::new(0, 0, 0)
    }
}

/// The three entries of a record in the store.
#[derive(Clone, Copy, Debug, PartialEq, Eq, Structural)]
pub enum RecordField {
    Count,
    Exp,
    Last,
}

/// Text after the user id in the key of `field`.
pub open spec fn field_suffix(field: RecordField) -> Seq<u8> {
    match field {
        RecordField::Count => seq![58u8, 99, 111, 117, 110, 116],
        RecordField::Exp => seq![58u8, 101, 120, 112],
        RecordField::Last => seq![58u8, 108, 97, 115, 116],
    }
}

/// Key of `field` of the record of `user_id`; records are keyed by the user
/// alone, whatever guild the user is seen in.
pub open spec fn key_text(user_id: u64, field: RecordField) -> Seq<u8> {
    decimal(user_id as nat) + field_suffix(field)
}

/// Store key of `field` of the record of `user_id`.
pub fn store_key(user_id: u64, field: RecordField) -> (key: Vec<u8>)
    ensures
        key@ == key_text(user_id, field),
{
    let mut key: Vec<u8> = Vec::new();
    push_decimal(&mut key, user_id);
    let suffix: Vec<u8> = match field {
        RecordField::Count => vec![':' as u8, 'c' as u8, 'o' as u8, 'u' as u8, 'n' as u8, 't' as u8],
        RecordField::Exp => vec![':' as u8, 'e' as u8, 'x' as u8, 'p' as u8],
        RecordField::Last => vec![':' as u8, 'l' as u8, 'a' as u8, 's' as u8, 't' as u8],
    };
    let ghost head = key@;
    let mut i: usize = 0;
    while i < suffix.len()
        invariant
            i <= suffix@.len(),
            suffix@ == field_suffix(field),
            key@ == head + suffix@.subrange(0, i as int),
        decreases suffix@.len() - i,
    {
        key.push(suffix[i]);
        assert(suffix@.subrange(0, i + 1) =~= suffix@.subrange(0, i as int).push(suffix@[i as int]));
        i = i + 1;
    }
    assert(suffix@.subrange(0, i as int) =~= suffix@);
    key
}

/// A stored count or experience value: absent or unreadable text counts as zero.
pub open spec fn stored_u32(raw: Option<Seq<u8>>) -> u32 {
    match raw {
        Some(text) => match text_u32(text) {
            Some(v) => v,
            None => 0,
        },
        None => 0,
    }
}

/// A stored timestamp: absent or unreadable text counts as the epoch.
pub open spec fn stored_i64(raw: Option<Seq<u8>>) -> i64 {
    match raw {
        Some(text) => match text_i64(text) {
            Some(v) => v,
            None => 0,
        },
        None => 0,
    }
}

/// The record that the three stored values give.
pub open spec fn decoded(
    count: Option<Seq<u8>>,
    exp: Option<Seq<u8>>,
    last: Option<Seq<u8>>,
) -> LevelData {
    LevelData {
        msg_count: stored_u32(count),
        xp: stored_u32(exp),
        level: level_of(stored_u32(exp) as nat) as u32,
        last_msg: stored_i64(last),
    }
}

/// The bytes of a stored value, if there is one.
pub open spec fn raw_view(raw: &Option<Vec<u8>>) -> Option<Seq<u8>> {
    match raw {
        Some(bytes) => Some(bytes@),
        None => None,
    }
}

/// What the store held under the three keys of one user (`None` where a key
/// was absent).
pub struct StoredFields {
    pub count: Option<Vec<u8>>,
    pub exp: Option<Vec<u8>>,
    pub last: Option<Vec<u8>>,
}

fn read_u32(raw: &Option<Vec<u8>>) -> (v: u32)
    ensures
        v == stored_u32(raw_view(raw)),
{
    match raw {
        Some(bytes) => match parse_u32(bytes.as_slice()) {
            Some(v) => v,
            None => 0,
        },
        None => 0,
    }
}

fn read_i64(raw: &Option<Vec<u8>>) -> (v: i64)
    ensures
        v == stored_i64(raw_view(raw)),
{
    match raw {
        Some(bytes) => match parse_i64(bytes.as_slice()) {
            Some(v) => v,
            None => 0,
        },
        None => 0,
    }
}

/// The record held in `fields`; absent or corrupt values read as zero.
pub fn decode_record(fields: &StoredFields) -> (r: LevelData)
    ensures
        r == decoded(raw_view(&fields.count), raw_view(&fields.exp), raw_view(&fields.last)),
        r.wf(),
{
    let msg_count = read_u32(&fields.count);
    let xp = read_u32(&fields.exp);
    let last_msg = read_i64(&fields.last);
    LevelData::new(msg_count, xp, last_msg)
}

/// The key and value of each of the three entries of `data`, in the order
/// count, experience, last award.
pub fn encode_record(user_id: u64, data: &LevelData) -> (entries: Vec<(Vec<u8>, Vec<u8>)>)
    ensures
        entries@.len() == 3,
        entries@[0].0@ == key_text(user_id, RecordField::Count),
        entries@[0].1@ == decimal(data.msg_count as nat),
        entries@[1].0@ == key_text(user_id, RecordField::Exp),
        entries@[1].1@ == decimal(data.xp as nat),
        entries@[2].0@ == key_text(user_id, RecordField::Last),
        entries@[2].1@ == signed_decimal(data.last_msg as int),
{
    let mut count: Vec<u8> = Vec::new();
    push_decimal(&mut count, data.msg_count as u64);
    let mut exp: Vec<u8> = Vec::new();
    push_decimal(&mut exp, data.xp as u64);
    let mut last: Vec<u8> = Vec::new();
    push_signed_decimal(&mut last, data.last_msg);
    let mut entries: Vec<(Vec<u8>, Vec<u8>)> = Vec::new();
    entries.push((store_key(user_id, RecordField::Count), count));
    entries.push((store_key(user_id, RecordField::Exp), exp));
    entries.push((store_key(user_id, RecordField::Last), last));
    entries
}

/// Reading back the values that `encode_record` writes gives the record
/// that was written.
pub proof fn lemma_record_round_trip(data: LevelData)
    requires
        data.wf(),
    ensures
        decoded(
            Some(decimal(data.msg_count as nat)),
            Some(decimal(data.xp as nat)),
            Some(signed_decimal(data.last_msg as int)),
        ) == data,
{
    lemma_u32_text_round_trip(data.msg_count);
    lemma_u32_text_round_trip(data.xp);
    lemma_i64_text_round_trip(data.last_msg);
}

} // verus!
