use quest_server::leaderboard::{
    combine_leaderboard, filter_window, live_window_cutoff, rank_entries, rank_window,
    window_cutoff, GetLeaderboardInfoQuery, LeaderboardEntry, RankResult,
};

fn entry(address: &[u8], xp: u64, timestamp: i64) -> LeaderboardEntry {
    LeaderboardEntry { address: address.to_vec(), xp, timestamp }
}

fn dataset() -> Vec<LeaderboardEntry> {
    vec![
        entry(b"0xaa", 40, 1_000),
        entry(b"0xbb", 90, 2_000),
        entry(b"0xcc", 70, 3_000),
        entry(b"0xdd", 85, 4_000),
        entry(b"0xee", 10, 5_000),
    ]
}

fn achievements() -> Vec<Vec<u8>> {
    vec![b"0xbb".to_vec(), b"0xbb".to_vec(), b"0xdd".to_vec()]
}

fn addresses(r: &RankResult) -> Vec<Vec<u8>> {
    r.best_users.iter().map(|b| b.address.clone()).collect()
}

#[test]
fn all_time_top_three_by_descending_score() {
    let achs = achievements();
    let r = rank_window(dataset(), &achs, 0, &b"0xcc".to_vec());
    assert_eq!(addresses(&r), vec![b"0xbb".to_vec(), b"0xdd".to_vec(), b"0xcc".to_vec()]);
    assert_eq!(r.best_users[0].xp, 90);
    assert_eq!(r.best_users[1].xp, 85);
    assert_eq!(r.best_users[2].xp, 70);
    assert_eq!(r.total_users, 5);
    assert_eq!(r.position, Some(3));
}

#[test]
fn achievement_counts_join_the_top_rows() {
    let achs = achievements();
    let r = rank_window(dataset(), &achs, 0, &b"0xbb".to_vec());
    assert_eq!(r.best_users[0].achievements, 2);
    assert_eq!(r.best_users[1].achievements, 1);
    assert_eq!(r.best_users[2].achievements, 0);
    assert_eq!(r.position, Some(1));
}

#[test]
fn absent_address_has_no_position() {
    let achs = achievements();
    let r = rank_window(dataset(), &achs, 0, &b"0xff".to_vec());
    assert_eq!(r.position, None);
}

#[test]
fn window_keeps_only_recent_rows_inclusively() {
    let achs = achievements();
    // Cutoff exactly at a row's timestamp keeps that row.
    let r = rank_window(dataset(), &achs, 3_000, &b"0xcc".to_vec());
    assert_eq!(r.total_users, 3);
    assert_eq!(addresses(&r), vec![b"0xdd".to_vec(), b"0xcc".to_vec(), b"0xee".to_vec()]);
    assert_eq!(r.position, Some(2));
}

#[test]
fn zero_cutoff_equals_unbounded_window() {
    let achs = achievements();
    // All timestamps are non-negative, so the zero cutoff (what a window of
    // zero or negative days computes) bounds nothing.
    let a = rank_window(dataset(), &achs, 0, &b"0xaa".to_vec());
    let b = rank_window(dataset(), &achs, i64::MIN, &b"0xaa".to_vec());
    assert_eq!(a.total_users, b.total_users);
    assert_eq!(addresses(&a), addresses(&b));
    assert_eq!(a.position, b.position);
}

#[test]
fn ties_break_by_timestamp_then_address() {
    let achs: Vec<Vec<u8>> = vec![];
    let rows = vec![
        entry(b"0xb", 50, 2_000),
        entry(b"0xa", 50, 2_000),
        entry(b"0xc", 50, 1_000),
    ];
    let r = rank_window(rows, &achs, 0, &b"0xb".to_vec());
    // Same score: the older update ranks first; same timestamp: the smaller
    // address bytes rank first.
    assert_eq!(addresses(&r), vec![b"0xc".to_vec(), b"0xa".to_vec(), b"0xb".to_vec()]);
    assert_eq!(r.position, Some(3));
}

#[test]
fn fewer_than_three_rows_are_all_displayed() {
    let achs: Vec<Vec<u8>> = vec![];
    let r = rank_window(vec![entry(b"0xa", 5, 10)], &achs, 0, &b"0xa".to_vec());
    assert_eq!(r.best_users.len(), 1);
    assert_eq!(r.total_users, 1);
    assert_eq!(r.position, Some(1));
    let empty = rank_window(vec![], &achs, 0, &b"0xa".to_vec());
    assert_eq!(empty.best_users.len(), 0);
    assert_eq!(empty.total_users, 0);
    assert_eq!(empty.position, None);
}

#[test]
fn ranking_orders_whole_sequence() {
    let ranked = rank_entries(dataset());
    let xs: Vec<u64> = ranked.iter().map(|e| e.xp).collect();
    assert_eq!(xs, vec![90, 85, 70, 40, 10]);
}

#[test]
fn filtering_keeps_order() {
    let kept = filter_window(dataset(), 2_500);
    let xs: Vec<u64> = kept.iter().map(|e| e.xp).collect();
    assert_eq!(xs, vec![70, 85, 10]);
}

#[test]
fn missing_window_fails_whole_request() {
    let achs = achievements();
    let some = || Some(rank_window(dataset(), &achs, 0, &b"0xaa".to_vec()));
    for (w, m, a) in [
        (None, some(), some()),
        (some(), None, some()),
        (some(), some(), None),
        (None, None, None),
    ] {
        match combine_leaderboard(w, m, a) {
            Ok(_) => panic!("a missing window must fail the whole request"),
            Err(e) => {
                assert_eq!(e.status, 500);
                assert_eq!(e.message, "Error querying leaderboard");
            }
        }
    }
}

#[test]
fn complete_windows_combine() {
    let achs = achievements();
    let some = || Some(rank_window(dataset(), &achs, 0, &b"0xaa".to_vec()));
    let combined = match combine_leaderboard(some(), some(), some()) {
        Ok(c) => c,
        Err(_) => panic!("three present windows must combine"),
    };
    assert_eq!(combined.weekly.total_users, 5);
    assert_eq!(combined.monthly.total_users, 5);
    assert_eq!(combined.all_time.total_users, 5);
}

#[test]
fn cutoff_arithmetic() {
    assert_eq!(window_cutoff(1_000_000_000, 7), 1_000_000_000 - 7 * 86_400_000);
    assert_eq!(window_cutoff(1_000_000_000, 30), 1_000_000_000 - 30 * 86_400_000);
    assert_eq!(window_cutoff(1_000_000_000, 0), 0);
    assert_eq!(window_cutoff(1_000_000_000, -1), 0);
}

#[test]
fn live_cutoff_unbounded_for_nonpositive_days() {
    assert_eq!(live_window_cutoff(0), 0);
    assert_eq!(live_window_cutoff(-1), 0);
}

#[test]
fn query_carries_the_target_address() {
    let q = GetLeaderboardInfoQuery { addr: "0xaa".to_string() };
    assert_eq!(q.addr.into_bytes(), b"0xaa".to_vec());
}
