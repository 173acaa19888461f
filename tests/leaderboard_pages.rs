use gompei::errors::StoreError;
use gompei::leaderboard::{
    collect_entries, get_ranked_leaderboard, leaderboard_page, page_of, rank_entries, LeaderboardData,
    MemberFetch,
};
use gompei::record::LevelData;

fn member(id: u64, xp: u32) -> MemberFetch {
    Ok((id, LevelData::new(xp, xp, 0)))
}

fn ids(entries: &[LeaderboardData]) -> Vec<u64> {
    entries.iter().map(|e| e.member).collect()
}

#[test]
fn ranked_descending_with_ties_in_listed_order() {
    let fetched = vec![member(1, 5), member(2, 50), member(3, 5), member(4, 20)];
    let page = leaderboard_page(&fetched, 1).ok().unwrap();
    assert_eq!(ids(&page.entries), vec![2, 4, 1, 3]);
    assert_eq!(page.entries.iter().map(|e| e.xp).collect::<Vec<_>>(), vec![50, 20, 5, 5]);
    assert_eq!(page.total, 4);
    assert_eq!(page.page, 1);
    assert_eq!(page.skipped, 0);
}

#[test]
fn page_past_the_end_is_empty() {
    let fetched = vec![member(1, 5), member(2, 50), member(3, 5), member(4, 20)];
    let page = leaderboard_page(&fetched, 2).ok().unwrap();
    assert!(page.entries.is_empty());
    assert_eq!(page.total, 4);
    let far = leaderboard_page(&fetched, usize::MAX).ok().unwrap();
    assert!(far.entries.is_empty());
}

#[test]
fn page_zero_is_the_first_page() {
    let fetched: Vec<MemberFetch> = (0..25).map(|i| member(i, 100 - i as u32)).collect();
    let first = leaderboard_page(&fetched, 0).ok().unwrap();
    assert_eq!(first.page, 1);
    assert_eq!(ids(&first.entries), (0..10).collect::<Vec<u64>>());
}

#[test]
fn pages_of_ten() {
    let fetched: Vec<MemberFetch> = (0..25).map(|i| member(i, i as u32)).collect();
    let ranked = get_ranked_leaderboard(&fetched).ok().unwrap();
    assert_eq!(ids(&page_of(&ranked, 1)), (15..25).rev().collect::<Vec<u64>>());
    assert_eq!(ids(&page_of(&ranked, 2)), (5..15).rev().collect::<Vec<u64>>());
    assert_eq!(ids(&page_of(&ranked, 3)), (0..5).rev().collect::<Vec<u64>>());
    assert!(page_of(&ranked, 4).is_empty());
}

#[test]
fn failed_member_is_left_out() {
    let fetched = vec![
        member(1, 5),
        Err(StoreError::StoreUnavailable),
        member(3, 8),
        Err(StoreError::NoSuchMember),
    ];
    let page = leaderboard_page(&fetched, 1).ok().unwrap();
    assert_eq!(ids(&page.entries), vec![3, 1]);
    assert_eq!(page.total, 2);
    assert_eq!(page.skipped, 2);
}

#[test]
fn unreachable_store_for_every_member_fails() {
    let fetched = vec![Err(StoreError::StoreUnavailable), Err(StoreError::NoSuchMember)];
    assert_eq!(get_ranked_leaderboard(&fetched).err(), Some(StoreError::StoreUnavailable));
    assert!(leaderboard_page(&fetched, 1).is_err());
}

#[test]
fn unresolved_members_alone_give_an_empty_board() {
    let fetched = vec![Err(StoreError::NoSuchMember)];
    assert_eq!(get_ranked_leaderboard(&fetched).ok().unwrap().len(), 0);
    let empty: Vec<MemberFetch> = Vec::new();
    let page = leaderboard_page(&empty, 1).ok().unwrap();
    assert!(page.entries.is_empty());
    assert_eq!(page.total, 0);
}

#[test]
fn entries_carry_the_record() {
    let fetched = vec![Ok((42, LevelData::new(9, 2757, 100)))];
    let entries = collect_entries(&fetched);
    assert_eq!(entries, vec![LeaderboardData { member: 42, xp: 2757, level: 3, msg_count: 9 }]);
    let same_xp = vec![
        LeaderboardData { member: 1, xp: 10, level: 0, msg_count: 0 },
        LeaderboardData { member: 2, xp: 10, level: 0, msg_count: 0 },
        LeaderboardData { member: 3, xp: 11, level: 0, msg_count: 0 },
    ];
    assert_eq!(ids(&rank_entries(&same_xp)), vec![3, 1, 2]);
}
