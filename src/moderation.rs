//! Rules of the moderation commands: how many messages one purge may remove,
//! and reading the ids out of a message link.

use vstd::prelude::*;

use crate::codec::{parse_u64, text_u64};

verus! {

/// Most messages that one purge may remove.
pub const MAX_CLEAR: u64 = 100;

/// Whether a purge of `amount` messages is allowed.
pub fn clear_allowed(amount: u64) -> (r: bool)
    ensures
        r == (amount <= MAX_CLEAR),
{
    amount <= MAX_CLEAR
}

/// The pieces of `s` between the `/` bytes, as `str::split('/')` gives them.
pub open spec fn split_slash(s: Seq<u8>) -> Seq<Seq<u8>>
    decreases s.len(),
{
    if s.len() == 0 {
        seq![Seq::empty()]
    } else {
        let parts = split_slash(s.drop_last());
        if s.last() == 47 {
            parts.push(Seq::empty())
        } else {
            parts.update(parts.len() - 1, parts.last().push(s.last()))
        }
    }
}

/// An id as a link holds it: text that is no number reads as `0`.
pub open spec fn id_or_zero(s: Seq<u8>) -> u64 {
    match text_u64(s) {
        Some(v) => v,
        None => 0,
    }
}

/// Channel and message id of a message link
/// `https://<host>/channels/<guild>/<channel>/<message>`: the link loses its
/// first eight bytes (the scheme), and the ids are the fourth and fifth
/// pieces between slashes. `None` when the link is too short to have them.
pub open spec fn link_ids(link: Seq<u8>) -> Option<(u64, u64)> {
    if link.len() < 8 {
        None
    } else {
        let parts = split_slash(link.subrange(8, link.len() as int));
        if parts.len() < 5 {
            None
        } else {
            Some((id_or_zero(parts[3]), id_or_zero(parts[4])))
        }
    }
}

/// The bytes of each piece.
pub open spec fn views(parts: Seq<Vec<u8>>) -> Seq<Seq<u8>> {
    parts.map_values(|p: Vec<u8>| p@)
}

fn id_of(text: &Vec<u8>) -> (id: u64)
    ensures
        id == id_or_zero(text@),
{
    match parse_u64(text.as_slice()) {
        Some(v) => v,
        None => 0,
    }
}

/// Reads the channel and message id out of a message link.
pub fn parse_message_link(link: &[u8]) -> (r: Option<(u64, u64)>)
    ensures
        r == link_ids(link@),
{
    if link.len() < 8 {
        return None;
    }
    let mut done: Vec<Vec<u8>> = Vec::new();
    let mut current: Vec<u8> = Vec::new();
    let mut i: usize = 8;
    assert(link@.subrange(8, 8) =~= Seq::<u8>::empty());
    assert(views(done@).push(current@) =~= seq![Seq::<u8>::empty()]);
    while i < link.len()
        invariant
            8 <= i <= link@.len(),
            split_slash(link@.subrange(8, i as int)) == views(done@).push(current@),
        decreases link@.len() - i,
    {
        let b: u8 = link[i];
        let ghost before = link@.subrange(8, i as int);
        let ghost old_done = done@;
        let ghost old_current = current@;
        assert(link@.subrange(8, i + 1).drop_last() =~= before);
        if b == 47 {
            done.push(current);
            current = Vec::new();
            assert(views(done@).push(current@) =~= views(old_done).push(old_current).push(
                Seq::empty(),
            ));
        } else {
            current.push(b);
            assert(views(done@).push(current@) =~= views(old_done).push(old_current).update(
                old_done.len() as int,
                old_current.push(b),
            ));
        }
        i = i + 1;
    }
    assert(link@.subrange(8, i as int) =~= link@.subrange(8, link@.len() as int));
    let ghost parts = views(done@).push(current@);
    done.push(current);
    assert(views(done@) =~= parts);
    if done.len() < 5 {
        return None;
    }
    let channel_id = id_of(&done[3]);
    let message_id = id_of(&done[4]);
    Some((channel_id, message_id))
}

} // verus!
