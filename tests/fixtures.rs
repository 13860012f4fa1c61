use tennis_league::fixtures::{match_winner, round_robin_pairs};
use tennis_league::standings::MatchResult;

fn result(
    set_one: (i8, i8),
    set_two: (i8, i8),
    tiebreak: (Option<i8>, Option<i8>),
    completed: i8,
) -> MatchResult {
    MatchResult {
        season: 1,
        league_id: 3,
        player_one_id: 10,
        player_two_id: 20,
        player_one_name: None,
        player_two_name: None,
        player_one_set_one_games: set_one.0,
        player_two_set_one_games: set_one.1,
        player_one_set_two_games: set_two.0,
        player_two_set_two_games: set_two.1,
        player_one_tiebreak_points: tiebreak.0,
        player_two_tiebreak_points: tiebreak.1,
        completed,
        winner: None,
    }
}

#[test]
fn round_robin_of_four() {
    let pairs = round_robin_pairs(&vec![5, 6, 7, 8]);
    assert_eq!(pairs, vec![(5, 6), (5, 7), (5, 8), (6, 7), (6, 8), (7, 8)]);
}

#[test]
fn round_robin_of_one_or_none() {
    assert!(round_robin_pairs(&vec![]).is_empty());
    assert!(round_robin_pairs(&vec![9]).is_empty());
    assert_eq!(round_robin_pairs(&vec![1, 2]), vec![(1, 2)]);
}

#[test]
fn winner_in_straight_sets() {
    assert_eq!(match_winner(&result((6, 4), (6, 3), (None, None), 1)), Some(10));
    assert_eq!(match_winner(&result((2, 6), (3, 6), (None, None), 1)), Some(20));
}

#[test]
fn winner_by_tiebreak() {
    assert_eq!(match_winner(&result((6, 4), (3, 6), (Some(10), Some(8)), 1)), Some(10));
    assert_eq!(match_winner(&result((6, 4), (3, 6), (Some(8), Some(10)), 1)), Some(20));
}

#[test]
fn no_winner_before_completion() {
    assert_eq!(match_winner(&result((6, 4), (6, 3), (None, None), 0)), None);
}

#[test]
fn tied_sets_go_to_player_two() {
    assert_eq!(match_winner(&result((6, 6), (6, 6), (None, None), 1)), Some(20));
}

#[test]
fn no_winner_with_three_sets_to_one_player() {
    assert_eq!(match_winner(&result((6, 4), (6, 3), (Some(10), Some(3)), 1)), None);
}
