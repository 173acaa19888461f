//! The guild leaderboard: every member's record, ranked by experience
//! (highest first, ties in the order the members were listed), cut into
//! pages of a fixed size.

use vstd::prelude::*;

use crate::errors::StoreError;
use crate::record::LevelData;

verus! {

/// Entries on one leaderboard page.
pub const PAGE_SIZE: usize = 10;

/// One member's line on the leaderboard.
#[derive(Clone, Copy, Debug, PartialEq, Eq, Structural)]
pub struct LeaderboardData {
    /// The member's user id.
    pub member: u64,
    pub xp: u32,
    pub level: u32,
    pub msg_count: u32,
}

/// What fetching one listed member gave: the member's id and record, or why
/// there is none.
pub type MemberFetch = Result<(u64, LevelData), StoreError>;

pub open spec fn entry_of(member: u64, record: LevelData) -> LeaderboardData {
    LeaderboardData {
        member,
        xp: record.xp,
        level: record.level,
        msg_count: record.msg_count,
    }
}

/// The entries of the members that could be read, in the order listed.
pub open spec fn entries_of(fetched: Seq<MemberFetch>) -> Seq<LeaderboardData>
    decreases fetched.len(),
{
    if fetched.len() == 0 {
        Seq::empty()
    } else {
        let rest = entries_of(fetched.drop_last());
        match fetched.last() {
            Ok((member, record)) => rest.push(entry_of(member, record)),
            Err(_) => rest,
        }
    }
}

/// `e` placed into `s` after every entry with at least its experience.
pub open spec fn insert_ranked(e: LeaderboardData, s: Seq<LeaderboardData>) -> Seq<LeaderboardData>
    decreases s.len(),
{
    if s.len() == 0 {
        seq![e]
    } else if s[0].xp >= e.xp {
        seq![s[0]] + insert_ranked(e, s.drop_first())
    } else {
        seq![e] + s
    }
}

/// `s` ranked by experience, highest first; entries with equal experience
/// keep their order in `s`.
pub open spec fn ranked(s: Seq<LeaderboardData>) -> Seq<LeaderboardData>
    decreases s.len(),
{
    if s.len() == 0 {
        s
    } else {
        insert_ranked(s.last(), ranked(s.drop_last()))
    }
}

/// Zero-based index of a one-based page number; `0` counts as the first page.
pub open spec fn page_index(page: usize) -> nat {
    if page == 0 {
        0
    } else {
        (page - 1) as nat
    }
}

/// The entries of page `page` of `s`: empty past the last page.
pub open spec fn page_slice(s: Seq<LeaderboardData>, page: usize) -> Seq<LeaderboardData> {
    let start = page_index(page) * PAGE_SIZE;
    if start >= s.len() {
        Seq::empty()
    } else if start + PAGE_SIZE <= s.len() {
        s.subrange(start as int, start + PAGE_SIZE)
    } else {
        s.subrange(start as int, s.len() as int)
    }
}

/// No member could be read, and for at least one the store was unreachable.
pub open spec fn store_down(fetched: Seq<MemberFetch>) -> bool {
    &&& forall|i: int| 0 <= i < fetched.len() ==> (#[trigger] fetched[i]) is Err
    &&& exists|i: int| 0 <= i < fetched.len() && #[trigger] fetched[i] == Err::<(u64, LevelData), StoreError>(StoreError::StoreUnavailable)
}

/// Experience never rises along `s`.
pub open spec fn non_increasing(s: Seq<LeaderboardData>) -> bool {
    forall|i: int| 0 <= i < s.len() - 1 ==> s[i].xp >= #[trigger] s[i + 1].xp
}

/// Inserting at the first entry with less experience is `insert_ranked`.
proof fn lemma_insert_ranked_at(e: LeaderboardData, s: Seq<LeaderboardData>, p: int)
    requires
        0 <= p <= s.len(),
        forall|k: int| 0 <= k < p ==> s[k].xp >= e.xp,
        p == s.len() || s[p].xp < e.xp,
    ensures
        insert_ranked(e, s) == s.insert(p, e),
    decreases s.len(),
{
    if p == 0 {
        assert(insert_ranked(e, s) =~= s.insert(p, e));
    } else {
        let rest = s.drop_first();
        lemma_insert_ranked_at(e, rest, p - 1);
        assert(seq![s[0]] + rest.insert(p - 1, e) =~= s.insert(p, e));
    }
}

proof fn lemma_insert_ranked_multiset(e: LeaderboardData, s: Seq<LeaderboardData>)
    ensures
        insert_ranked(e, s).to_multiset() =~= s.to_multiset().insert(e),
    decreases s.len(),
{
    broadcast use vstd::seq_lib::to_multiset_insert;

    if s.len() == 0 {
        assert(insert_ranked(e, s) =~= s.insert(0, e));
    } else if s[0].xp >= e.xp {
        let rest = s.drop_first();
        let tail = insert_ranked(e, rest);
        lemma_insert_ranked_multiset(e, rest);
        assert(seq![s[0]] + tail =~= tail.insert(0, s[0]));
        assert(s =~= rest.insert(0, s[0]));
    } else {
        assert(seq![e] + s =~= s.insert(0, e));
    }
}

proof fn lemma_insert_ranked_sorted(e: LeaderboardData, s: Seq<LeaderboardData>)
    requires
        non_increasing(s),
    ensures
        non_increasing(insert_ranked(e, s)),
        insert_ranked(e, s).len() == s.len() + 1,
        insert_ranked(e, s)[0] == e || (s.len() > 0 && insert_ranked(e, s)[0] == s[0]),
    decreases s.len(),
{
    if s.len() > 0 && s[0].xp >= e.xp {
        let rest = s.drop_first();
        assert(non_increasing(rest)) by {
            assert forall|i: int| 0 <= i < rest.len() - 1 implies rest[i].xp >= #[trigger] rest[i + 1].xp by {
                let j = i + 1;
                assert(0 <= j < s.len() - 1);
                assert(s[j].xp >= s[j + 1].xp);
                assert(rest[i] == s[j] && rest[i + 1] == s[j + 1]);
            }
        }
        lemma_insert_ranked_sorted(e, rest);
        let r = insert_ranked(e, s);
        let tail = insert_ranked(e, rest);
        assert(r =~= seq![s[0]] + tail);
        assert forall|i: int| 0 <= i < r.len() - 1 implies r[i].xp >= #[trigger] r[i + 1].xp by {
            if i == 0 {
                if tail[0] != e {
                    assert(s[0].xp >= s[1].xp);
                }
            } else {
                assert(r[i] == tail[i - 1]);
                assert(r[i + 1] == tail[i]);
            }
        }
    } else if s.len() > 0 {
        let r = insert_ranked(e, s);
        assert(r =~= seq![e] + s);
        assert forall|i: int| 0 <= i < r.len() - 1 implies r[i].xp >= #[trigger] r[i + 1].xp by {
            if i == 0 {
                assert(r[1] == s[0]);
            } else {
                assert(r[i] == s[i - 1]);
                assert(r[i + 1] == s[i]);
                assert(s[i - 1].xp >= s[(i - 1) + 1].xp);
            }
        }
    }
}

/// The ranking holds exactly the entries it was given.
pub proof fn lemma_ranked_is_permutation(s: Seq<LeaderboardData>)
    ensures
        ranked(s).to_multiset() =~= s.to_multiset(),
        ranked(s).len() == s.len(),
    decreases s.len(),
{
    broadcast use vstd::seq_lib::to_multiset_build, vstd::seq_lib::to_multiset_len;

    if s.len() > 0 {
        lemma_ranked_is_permutation(s.drop_last());
        lemma_insert_ranked_multiset(s.last(), ranked(s.drop_last()));
        assert(s =~= s.drop_last().push(s.last()));
    }
    assert(ranked(s).to_multiset().len() == ranked(s).len());
}

/// The ranking puts higher experience first.
pub proof fn lemma_ranked_non_increasing(s: Seq<LeaderboardData>)
    ensures
        non_increasing(ranked(s)),
    decreases s.len(),
{
    if s.len() > 0 {
        lemma_ranked_non_increasing(s.drop_last());
        lemma_insert_ranked_sorted(s.last(), ranked(s.drop_last()));
    }
}

/// The entries of `s` with experience `xp`, in their order in `s`.
pub open spec fn with_xp(s: Seq<LeaderboardData>, xp: u32) -> Seq<LeaderboardData>
    decreases s.len(),
{
    if s.len() == 0 {
        Seq::empty()
    } else if s[0].xp == xp {
        seq![s[0]] + with_xp(s.drop_first(), xp)
    } else {
        with_xp(s.drop_first(), xp)
    }
}

proof fn lemma_with_xp_concat(a: Seq<LeaderboardData>, b: Seq<LeaderboardData>, xp: u32)
    ensures
        with_xp(a + b, xp) == with_xp(a, xp) + with_xp(b, xp),
    decreases a.len(),
{
    if a.len() == 0 {
        assert(a + b =~= b);
        assert(with_xp(a, xp) + with_xp(b, xp) =~= with_xp(b, xp));
    } else {
        lemma_with_xp_concat(a.drop_first(), b, xp);
        assert((a + b).drop_first() =~= a.drop_first() + b);
        if a[0].xp == xp {
            assert(seq![a[0]] + (with_xp(a.drop_first(), xp) + with_xp(b, xp)) =~= (seq![a[0]]
                + with_xp(a.drop_first(), xp)) + with_xp(b, xp));
        }
    }
}

proof fn lemma_with_xp_single(e: LeaderboardData, xp: u32)
    ensures
        with_xp(seq![e], xp) == if e.xp == xp {
            seq![e]
        } else {
            Seq::<LeaderboardData>::empty()
        },
{
    let one = seq![e];
    assert(one.drop_first() =~= Seq::<LeaderboardData>::empty());
    assert(with_xp(one.drop_first(), xp) == Seq::<LeaderboardData>::empty());
    if e.xp == xp {
        assert(seq![one[0]] + Seq::<LeaderboardData>::empty() =~= one);
    }
}

proof fn lemma_non_increasing_drop_first(s: Seq<LeaderboardData>)
    requires
        s.len() > 0,
        non_increasing(s),
    ensures
        non_increasing(s.drop_first()),
{
    let rest = s.drop_first();
    assert forall|i: int| 0 <= i < rest.len() - 1 implies rest[i].xp >= #[trigger] rest[i + 1].xp by {
        let j = i + 1;
        assert(s[j].xp >= s[j + 1].xp);
    }
}

/// In a ranking that starts below `xp`, no entry has experience `xp`.
proof fn lemma_with_xp_below(s: Seq<LeaderboardData>, xp: u32)
    requires
        non_increasing(s),
        s.len() > 0 ==> s[0].xp < xp,
    ensures
        with_xp(s, xp) == Seq::<LeaderboardData>::empty(),
    decreases s.len(),
{
    if s.len() > 0 {
        lemma_non_increasing_drop_first(s);
        if s.len() > 1 {
            let i: int = 0;
            assert(s[i].xp >= s[i + 1].xp);
            assert(s.drop_first()[0] == s[1]);
        }
        lemma_with_xp_below(s.drop_first(), xp);
    }
}

proof fn lemma_insert_ranked_with_xp(e: LeaderboardData, s: Seq<LeaderboardData>, xp: u32)
    requires
        non_increasing(s),
    ensures
        with_xp(insert_ranked(e, s), xp) == if e.xp == xp {
            with_xp(s, xp).push(e)
        } else {
            with_xp(s, xp)
        },
    decreases s.len(),
{
    let r = insert_ranked(e, s);
    if s.len() == 0 {
        lemma_with_xp_single(e, xp);
        assert(with_xp(s, xp) == Seq::<LeaderboardData>::empty());
        assert(Seq::<LeaderboardData>::empty().push(e) =~= seq![e]);
    } else if s[0].xp >= e.xp {
        let rest = s.drop_first();
        lemma_non_increasing_drop_first(s);
        lemma_insert_ranked_with_xp(e, rest, xp);
        assert(r == seq![s[0]] + insert_ranked(e, rest));
        assert(r.len() > 0 && r[0] == s[0]);
        assert(r.drop_first() =~= insert_ranked(e, rest));
        if s[0].xp == xp {
            assert(with_xp(r, xp) == seq![s[0]] + with_xp(insert_ranked(e, rest), xp));
            assert(with_xp(s, xp) == seq![s[0]] + with_xp(rest, xp));
            assert(seq![s[0]] + with_xp(rest, xp).push(e) =~= (seq![s[0]] + with_xp(rest, xp)).push(e));
        } else {
            assert(with_xp(r, xp) == with_xp(insert_ranked(e, rest), xp));
            assert(with_xp(s, xp) == with_xp(rest, xp));
        }
    } else {
        assert(r == seq![e] + s);
        assert(r.len() > 0 && r[0] == e);
        assert(r.drop_first() =~= s);
        if e.xp == xp {
            lemma_with_xp_below(s, xp);
            assert(with_xp(r, xp) == seq![e] + with_xp(s, xp));
            assert(seq![e] + with_xp(s, xp) =~= with_xp(s, xp).push(e));
        } else {
            assert(with_xp(r, xp) == with_xp(s, xp));
        }
    }
}

/// Ranking keeps the listed order among entries of equal experience: the
/// entries with any one experience value come out in the order they went in.
pub proof fn lemma_ranked_keeps_ties_in_order(s: Seq<LeaderboardData>, xp: u32)
    ensures
        with_xp(ranked(s), xp) == with_xp(s, xp),
    decreases s.len(),
{
    if s.len() > 0 {
        let init = s.drop_last();
        let e = s.last();
        lemma_ranked_keeps_ties_in_order(init, xp);
        lemma_ranked_non_increasing(init);
        lemma_insert_ranked_with_xp(e, ranked(init), xp);
        assert(s =~= init + seq![e]);
        lemma_with_xp_concat(init, seq![e], xp);
        lemma_with_xp_single(e, xp);
        if e.xp == xp {
            assert(with_xp(init, xp) + seq![e] =~= with_xp(init, xp).push(e));
        } else {
            assert(with_xp(init, xp) + Seq::<LeaderboardData>::empty() =~= with_xp(init, xp));
        }
    }
}

/// The entries of the members in `fetched` that could be read, in order;
/// the others are skipped.
pub fn collect_entries(fetched: &Vec<MemberFetch>) -> (entries: Vec<LeaderboardData>)
    ensures
        entries@ == entries_of(fetched@),
{
    let mut entries: Vec<LeaderboardData> = Vec::new();
    let mut i: usize = 0;
    while i < fetched.len()
        invariant
            i <= fetched@.len(),
            entries@ == entries_of(fetched@.subrange(0, i as int)),
        decreases fetched@.len() - i,
    {
        assert(fetched@.subrange(0, i + 1).drop_last() =~= fetched@.subrange(0, i as int));
        match &fetched[i] {
            Ok((member, record)) => {
                entries.push(LeaderboardData {
                    member: *member,
                    xp: record.xp,
                    level: record.level,
                    msg_count: record.msg_count,
                });
            },
            Err(_) => {},
        }
        i = i + 1;
    }
    assert(fetched@.subrange(0, i as int) =~= fetched@);
    entries
}

/// `entries` ranked by experience, highest first, ties in their given order.
pub fn rank_entries(entries: &Vec<LeaderboardData>) -> (r: Vec<LeaderboardData>)
    ensures
        r@ == ranked(entries@),
{
    let mut out: Vec<LeaderboardData> = Vec::new();
    let mut i: usize = 0;
    while i < entries.len()
        invariant
            i <= entries@.len(),
            out@ == ranked(entries@.subrange(0, i as int)),
        decreases entries@.len() - i,
    {
        let e = entries[i];
        let mut p: usize = 0;
        while p < out.len() && out[p].xp >= e.xp
            invariant
                p <= out@.len(),
                forall|k: int| 0 <= k < p ==> out@[k].xp >= e.xp,
            decreases out@.len() - p,
        {
            p = p + 1;
        }
        proof {
            lemma_insert_ranked_at(e, out@, p as int);
            let seen = entries@.subrange(0, i + 1);
            assert(seen.drop_last() =~= entries@.subrange(0, i as int));
            assert(seen.last() == e);
        }
        out.insert(p, e);
        i = i + 1;
    }
    assert(entries@.subrange(0, i as int) =~= entries@);
    out
}

/// Page `page` (counted from 1; `0` means the first) of `ranked`: empty past
/// the last page.
pub fn page_of(ranked: &Vec<LeaderboardData>, page: usize) -> (r: Vec<LeaderboardData>)
    ensures
        r@ == page_slice(ranked@, page),
{
    let index: usize = if page == 0 { 0 } else { page - 1 };
    let mut r: Vec<LeaderboardData> = Vec::new();
    if index > ranked.len() / PAGE_SIZE {
        return r;
    }
    let start: usize = index * PAGE_SIZE;
    if start >= ranked.len() {
        return r;
    }
    let end: usize = if ranked.len() - start >= PAGE_SIZE { start + PAGE_SIZE } else { ranked.len() };
    let mut i: usize = start;
    while i < end
        invariant
            start <= i <= end <= ranked@.len(),
            r@ == ranked@.subrange(start as int, i as int),
        decreases end - i,
    {
        r.push(ranked[i]);
        assert(ranked@.subrange(start as int, i + 1) =~= ranked@.subrange(start as int, i as int).push(ranked@[i as int]));
        i = i + 1;
    }
    r
}

fn any_unavailable(fetched: &Vec<MemberFetch>) -> (r: bool)
    ensures
        r == exists|i: int| 0 <= i < fetched@.len() && #[trigger] fetched@[i] == Err::<(u64, LevelData), StoreError>(StoreError::StoreUnavailable),
{
    let mut i: usize = 0;
    while i < fetched.len()
        invariant
            i <= fetched@.len(),
            forall|k: int| 0 <= k < i ==> #[trigger] fetched@[k] != Err::<(u64, LevelData), StoreError>(StoreError::StoreUnavailable),
        decreases fetched@.len() - i,
    {
        match &fetched[i] {
            Err(StoreError::StoreUnavailable) => {
                return true;
            },
            _ => {},
        }
        i = i + 1;
    }
    false
}

/// No entry comes out of a list of fetches exactly when every fetch failed.
proof fn lemma_entries_empty(fetched: Seq<MemberFetch>)
    ensures
        entries_of(fetched).len() == 0 <==> forall|i: int| 0 <= i < fetched.len() ==> (#[trigger] fetched[i]) is Err,
        entries_of(fetched).len() <= fetched.len(),
    decreases fetched.len(),
{
    if fetched.len() > 0 {
        let rest = fetched.drop_last();
        lemma_entries_empty(rest);
        if forall|i: int| 0 <= i < fetched.len() ==> (#[trigger] fetched[i]) is Err {
            assert forall|i: int| 0 <= i < rest.len() implies (#[trigger] rest[i]) is Err by {
                assert(rest[i] == fetched[i]);
            }
        }
        if forall|i: int| 0 <= i < rest.len() ==> (#[trigger] rest[i]) is Err {
            if fetched.last() is Err {
                assert forall|i: int| 0 <= i < fetched.len() implies (#[trigger] fetched[i]) is Err by {
                    if i < rest.len() {
                        assert(rest[i] == fetched[i]);
                    }
                }
            }
        }
    }
}

/// The whole ranked leaderboard of the members in `fetched`: members that
/// could not be read are left out, and the build fails only when no member
/// could be read and the store was unreachable.
pub fn get_ranked_leaderboard(fetched: &Vec<MemberFetch>) -> (r: Result<Vec<LeaderboardData>, StoreError>)
    ensures
        store_down(fetched@) ==> r == Err::<Vec<LeaderboardData>, StoreError>(StoreError::StoreUnavailable),
        !store_down(fetched@) ==> r is Ok && r->Ok_0@ == ranked(entries_of(fetched@)),
{
    let entries = collect_entries(fetched);
    proof {
        lemma_entries_empty(fetched@);
    }
    if entries.len() == 0 && any_unavailable(fetched) {
        return Err(StoreError::StoreUnavailable);
    }
    Ok(rank_entries(&entries))
}

/// One page of the leaderboard, with the figures shown around it.
pub struct LeaderboardPage {
    /// The page's entries, best first.
    pub entries: Vec<LeaderboardData>,
    /// The page shown, counted from 1.
    pub page: usize,
    /// Entries on all pages together.
    pub total: usize,
    /// Members left out because they could not be read.
    pub skipped: usize,
}

/// Page `page` of the leaderboard of the members in `fetched`; `0` asks for
/// the first page, and a page past the last one is empty.
pub fn leaderboard_page(fetched: &Vec<MemberFetch>, page: usize) -> (r: Result<LeaderboardPage, StoreError>)
    ensures
        store_down(fetched@) ==> r is Err && r->Err_0 == StoreError::StoreUnavailable,
        !store_down(fetched@) ==> r is Ok && ({
            let p = r->Ok_0;
            &&& p.entries@ == page_slice(ranked(entries_of(fetched@)), page)
            &&& p.page == page_index(page) + 1
            &&& p.total == entries_of(fetched@).len()
            &&& p.skipped == fetched@.len() - entries_of(fetched@).len()
        }),
{
    proof {
        lemma_entries_empty(fetched@);
    }
    match get_ranked_leaderboard(fetched) {
        Err(e) => Err(e),
        Ok(ranked_entries) => {
            proof {
                lemma_ranked_is_permutation(entries_of(fetched@));
            }
            let total = ranked_entries.len();
            let entries = page_of(&ranked_entries, page);
            Ok(LeaderboardPage {
                entries,
                page: if page == 0 { 1 } else { page },
                total,
                skipped: fetched.len() - total,
            })
        },
    }
}

/// A page past the last one is empty, not an error.
pub proof fn lemma_page_past_end_empty(s: Seq<LeaderboardData>, page: usize)
    requires
        page_index(page) * PAGE_SIZE >= s.len(),
    ensures
        page_slice(s, page).len() == 0,
{
}

/// A member whose fetch failed contributes nothing: the entries are those of
/// the list without it.
pub proof fn lemma_failed_fetch_skipped(fetched: Seq<MemberFetch>, i: int)
    requires
        0 <= i < fetched.len(),
        fetched[i] is Err,
    ensures
        entries_of(fetched) == entries_of(fetched.remove(i)),
    decreases fetched.len(),
{
    if i == fetched.len() - 1 {
        assert(fetched.remove(i) =~= fetched.drop_last());
    } else {
        let rest = fetched.drop_last();
        lemma_failed_fetch_skipped(rest, i);
        assert(fetched.remove(i).drop_last() =~= rest.remove(i));
        assert(fetched.remove(i).last() == fetched.last());
    }
}

} // verus!
