use std::collections::HashMap;
use tennis_league::standings::{compute_league_table, LeagueTableRow, MatchResult, StandingsError};

fn played(
    one: i64,
    two: i64,
    set_one: (i8, i8),
    set_two: (i8, i8),
    tiebreak: Option<(i8, i8)>,
) -> MatchResult {
    MatchResult {
        season: 1,
        league_id: 1,
        player_one_id: one,
        player_two_id: two,
        player_one_name: None,
        player_two_name: None,
        player_one_set_one_games: set_one.0,
        player_two_set_one_games: set_one.1,
        player_one_set_two_games: set_two.0,
        player_two_set_two_games: set_two.1,
        player_one_tiebreak_points: tiebreak.map(|t| t.0),
        player_two_tiebreak_points: tiebreak.map(|t| t.1),
        completed: 1,
        winner: None,
    }
}

fn names(entries: &[(i64, &str)]) -> HashMap<i64, String> {
    let mut map = HashMap::new();
    for (id, name) in entries {
        map.insert(*id, name.to_string());
    }
    map
}

fn row<'a>(table: &'a [LeagueTableRow], name: &str) -> &'a LeagueTableRow {
    table.iter().find(|r| r.name == name).expect("row present")
}

fn stats(r: &LeagueTableRow) -> [i64; 8] {
    [
        r.played,
        r.matches_won,
        r.matches_lost,
        r.sets_won,
        r.sets_lost,
        r.games_won,
        r.games_lost,
        r.points,
    ]
}

#[test]
fn straight_sets_win() {
    let matches = vec![played(1, 2, (6, 4), (6, 3), None)];
    let table = compute_league_table(vec![1, 2], names(&[(1, "A"), (2, "B")]), &matches)
        .ok()
        .unwrap();
    assert_eq!(table.len(), 2);
    assert_eq!(table[0].name, "A");
    assert_eq!(stats(&table[0]), [1, 1, 0, 2, 0, 12, 7, 3]);
    assert_eq!(table[1].name, "B");
    assert_eq!(stats(&table[1]), [1, 0, 1, 0, 2, 7, 12, 1]);
}

#[test]
fn tiebreak_decides_match() {
    let matches = vec![played(1, 2, (6, 4), (3, 6), Some((10, 8)))];
    let table = compute_league_table(vec![1, 2], names(&[(1, "A"), (2, "B")]), &matches)
        .ok()
        .unwrap();
    let a = row(&table, "A");
    assert_eq!(a.sets_won, 2);
    assert_eq!(a.sets_lost, 1);
    assert_eq!(a.matches_won, 1);
    assert_eq!(a.matches_lost, 0);
    assert_eq!(a.points, 3);
    assert_eq!(a.games_won, 9);
    assert_eq!(a.games_lost, 10);
    let b = row(&table, "B");
    assert_eq!(stats(b), [1, 0, 1, 1, 2, 10, 9, 2]);
}

#[test]
fn tiebreak_won_as_player_two() {
    let matches = vec![played(1, 2, (6, 4), (3, 6), Some((8, 10)))];
    let table = compute_league_table(vec![1, 2], names(&[(1, "A"), (2, "B")]), &matches)
        .ok()
        .unwrap();
    assert_eq!(table[0].name, "B");
    assert_eq!(stats(&table[0]), [1, 1, 0, 2, 1, 10, 9, 3]);
    assert_eq!(stats(&table[1]), [1, 0, 1, 1, 2, 9, 10, 2]);
}

#[test]
fn equal_points_both_present() {
    let matches = vec![
        played(1, 2, (6, 4), (6, 3), None),
        played(3, 4, (6, 1), (6, 0), None),
    ];
    let roster = vec![1, 2, 3, 4];
    let table = compute_league_table(
        roster,
        names(&[(1, "A"), (2, "B"), (3, "C"), (4, "D")]),
        &matches,
    )
    .ok()
    .unwrap();
    assert_eq!(table.len(), 4);
    assert_eq!(stats(row(&table, "A")), [1, 1, 0, 2, 0, 12, 7, 3]);
    assert_eq!(stats(row(&table, "C")), [1, 1, 0, 2, 0, 12, 1, 3]);
    assert_eq!(table[0].points, 3);
    assert_eq!(table[1].points, 3);
    // Rows with equal points keep roster order.
    assert_eq!(table[0].name, "A");
    assert_eq!(table[1].name, "C");
    assert_eq!(table[2].name, "B");
    assert_eq!(table[3].name, "D");
}

#[test]
fn missing_name_fails() {
    let matches = vec![played(1, 99, (6, 4), (6, 3), None)];
    let result = compute_league_table(vec![1, 99], names(&[(1, "A")]), &matches);
    assert!(matches!(result, Err(StandingsError::PlayerNotFound(99))));
}

#[test]
fn missing_name_of_match_player_fails() {
    let matches = vec![played(1, 99, (6, 4), (6, 3), None)];
    let result = compute_league_table(vec![1], names(&[(1, "A")]), &matches);
    assert!(matches!(result, Err(StandingsError::PlayerNotFound(99))));
}

#[test]
fn missing_roster_name_fails_without_matches() {
    let result = compute_league_table(vec![1, 7], names(&[(1, "A")]), &vec![]);
    assert!(matches!(result, Err(StandingsError::PlayerNotFound(7))));
}

#[test]
fn player_without_matches_is_all_zero() {
    let matches = vec![played(1, 2, (6, 4), (6, 3), None)];
    let table = compute_league_table(
        vec![1, 2, 3],
        names(&[(1, "A"), (2, "B"), (3, "C")]),
        &matches,
    )
    .ok()
    .unwrap();
    assert_eq!(table.len(), 3);
    assert_eq!(stats(row(&table, "C")), [0; 8]);
}

#[test]
fn empty_roster_gives_empty_table() {
    let matches = vec![played(1, 2, (6, 4), (6, 3), None)];
    let table = compute_league_table(vec![], names(&[(1, "A"), (2, "B")]), &matches)
        .ok()
        .unwrap();
    assert!(table.is_empty());
}

#[test]
fn one_row_per_roster_player_and_sorted() {
    let matches = vec![
        played(1, 2, (6, 4), (6, 3), None),
        played(2, 3, (6, 4), (4, 6), Some((7, 10))),
        played(3, 1, (7, 5), (6, 2), None),
        played(1, 4, (2, 6), (1, 6), None),
        played(4, 2, (6, 7), (6, 4), Some((10, 6))),
    ];
    let roster = vec![1, 2, 3, 4];
    let table = compute_league_table(
        roster.clone(),
        names(&[(1, "A"), (2, "B"), (3, "C"), (4, "D")]),
        &matches,
    )
    .ok()
    .unwrap();
    assert_eq!(table.len(), roster.len());
    for name in ["A", "B", "C", "D"] {
        assert_eq!(table.iter().filter(|r| r.name == name).count(), 1);
    }
    for w in table.windows(2) {
        assert!(w[0].points >= w[1].points);
    }
    for r in &table {
        assert_eq!(r.played, r.matches_won + r.matches_lost);
        assert_eq!(r.points, r.played + r.sets_won);
    }
    // Player 3 (C): beat B in a tiebreak, beat A in straight sets.
    assert_eq!(stats(row(&table, "C")), [2, 2, 0, 4, 1, 23, 17, 6]);
}

#[test]
fn games_count_whoever_won_the_set() {
    let matches = vec![
        played(1, 2, (7, 6), (5, 7), Some((10, 12))),
        played(2, 1, (6, 0), (6, 0), None),
    ];
    let table = compute_league_table(vec![1], names(&[(1, "A"), (2, "B")]), &matches)
        .ok()
        .unwrap();
    let a = &table[0];
    assert_eq!(a.games_won, 7 + 5);
    assert_eq!(a.games_lost, 6 + 7 + 12);
    assert_eq!(stats(a), [2, 0, 2, 1, 4, 12, 25, 3]);
}

#[test]
fn tied_set_awards_nothing() {
    let matches = vec![played(1, 2, (6, 6), (6, 3), None)];
    let table = compute_league_table(vec![1, 2], names(&[(1, "A"), (2, "B")]), &matches)
        .ok()
        .unwrap();
    let a = row(&table, "A");
    assert_eq!(stats(a), [1, 0, 1, 1, 0, 12, 9, 2]);
    let b = row(&table, "B");
    assert_eq!(stats(b), [1, 0, 1, 0, 1, 9, 12, 1]);
}

#[test]
fn half_recorded_tiebreak_is_ignored() {
    let mut m = played(1, 2, (6, 4), (3, 6), None);
    m.player_one_tiebreak_points = Some(10);
    let table = compute_league_table(vec![1, 2], names(&[(1, "A"), (2, "B")]), &vec![m])
        .ok()
        .unwrap();
    assert_eq!(stats(row(&table, "A")), [1, 0, 1, 1, 1, 9, 10, 2]);
}

#[test]
fn three_sets_won_counts_as_match_won() {
    let matches = vec![played(1, 2, (6, 4), (6, 3), Some((10, 5)))];
    let table = compute_league_table(vec![1, 2], names(&[(1, "A"), (2, "B")]), &matches)
        .ok()
        .unwrap();
    assert_eq!(stats(row(&table, "A")), [1, 1, 0, 3, 0, 12, 7, 4]);
}

#[test]
fn new_row_is_zero() {
    let r = LeagueTableRow::new("Ann".to_string());
    assert_eq!(r.name, "Ann");
    assert_eq!(stats(&r), [0; 8]);
}

#[test]
fn record_match_ignores_other_players() {
    let mut r = LeagueTableRow::new("Ann".to_string());
    r.record_match(&played(2, 3, (6, 0), (6, 0), None), 1);
    assert_eq!(stats(&r), [0; 8]);
    r.record_match(&played(2, 1, (6, 0), (6, 0), None), 1);
    assert_eq!(stats(&r), [0, 0, 1, 0, 2, 0, 12, 1]);
}
