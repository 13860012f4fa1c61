//! Leagues, round-robin fixtures and the recording of match results.
use crate::standings::{LeagueTableRow, MatchResult};
use vstd::prelude::*;

verus! {

/// The season that new fixtures are created for.
pub const SEASON: i8 = 1;

/// A request to add a player to a league.
pub struct NewPlayerRequest {
    pub name: String,
    pub league_id: i64,
}

/// A request to create a league.
pub struct NewLeagueRequest {
    pub name: String,
}

/// A request to move a player to another league.
pub struct AmendPlayerRequest {
    pub player_id: i64,
    pub new_league_id: i64,
}

/// A league as stored.
pub struct League {
    pub league_id: i64,
    pub league_name: String,
    pub league_tier: i64,
}

/// A league's standings together with its played and unplayed fixtures.
pub struct LeagueTableAndFixtures {
    pub league_table: Vec<LeagueTableRow>,
    pub completed_fixtures: Vec<MatchResult>,
    pub uncompleted_fixtures: Vec<MatchResult>,
}

/// Every pairing of two distinct entries of `players`, each once: the first
/// player with each later one, then the second with each later one, and so on.
pub open spec fn round_robin(players: Seq<i64>) -> Seq<(i64, i64)>
    decreases players.len(),
{
    if players.len() == 0 {
        Seq::empty()
    } else {
        players.drop_first().map_values(|p: i64| (players[0], p)) + round_robin(
            players.drop_first(),
        )
    }
}

/// The fixtures of a round robin over `player_ids`, as pairs of player ids.
pub fn round_robin_pairs(player_ids: &Vec<i64>) -> (r: Vec<(i64, i64)>)
    ensures
        r@ == round_robin(player_ids@),
{
    let ghost ids = player_ids@;
    let n = player_ids.len();
    let mut pairs: Vec<(i64, i64)> = Vec::new();
    let mut i: usize = 0;
    proof {
        assert(ids.subrange(0, n as int) =~= ids);
        assert(pairs@ + round_robin(ids) =~= round_robin(ids));
    }
    while i < n
        invariant
            n == ids.len(),
            ids == player_ids@,
            i <= n,
            pairs@ + round_robin(ids.subrange(i as int, n as int)) == round_robin(ids),
        decreases n - i,
    {
        let ghost rest = ids.subrange(i as int, n as int);
        let ghost start = pairs@;
        let ghost row = rest.drop_first().map_values(|p: i64| (rest[0], p));
        proof {
            assert(rest.drop_first() =~= ids.subrange(i + 1, n as int));
        }
        let mut j: usize = i + 1;
        while j < n
            invariant
                n == ids.len(),
                ids == player_ids@,
                i < n,
                i + 1 <= j <= n,
                rest == ids.subrange(i as int, n as int),
                row == rest.drop_first().map_values(|p: i64| (rest[0], p)),
                pairs@ == start + row.take(j - i - 1),
            decreases n - j,
        {
            pairs.push((player_ids[i], player_ids[j]));
            proof {
                assert(row.take(j - i) =~= row.take(j - i - 1).push(row[j - i - 1]));
            }
            j = j + 1;
        }
        proof {
            assert(row.take(n - i - 1) =~= row);
            assert(start + row + round_robin(rest.drop_first()) =~= start + (row + round_robin(
                rest.drop_first(),
            )));
        }
        i = i + 1;
    }
    proof {
        assert(ids.subrange(n as int, n as int) =~= Seq::<i64>::empty());
        assert(pairs@ + Seq::<(i64, i64)>::empty() =~= pairs@);
    }
    pairs
}

/// Sets credited to player one when a result is recorded: each set and the
/// tiebreak they won outright.
pub open spec fn result_sets_one(m: MatchResult) -> int {
    (if m.player_one_set_one_games > m.player_two_set_one_games { 1int } else { 0int }) + (
    if m.player_one_set_two_games > m.player_two_set_two_games {
        1int
    } else {
        0int
    }) + match (m.player_one_tiebreak_points, m.player_two_tiebreak_points) {
        (Some(a), Some(b)) => if a > b {
            1int
        } else {
            0int
        },
        _ => 0int,
    }
}

/// Sets credited to player two when a result is recorded: every set and the
/// tiebreak that player one did not win outright.
pub open spec fn result_sets_two(m: MatchResult) -> int {
    (if m.player_one_set_one_games > m.player_two_set_one_games { 0int } else { 1int }) + (
    if m.player_one_set_two_games > m.player_two_set_two_games {
        0int
    } else {
        1int
    }) + match (m.player_one_tiebreak_points, m.player_two_tiebreak_points) {
        (Some(a), Some(b)) => if a > b {
            0int
        } else {
            1int
        },
        _ => 0int,
    }
}

/// The winner recorded for a result: for a completed match, the player
/// credited with exactly two sets (player one first); otherwise nobody.
pub open spec fn winner_of(m: MatchResult) -> Option<i64> {
    if m.completed != 1 {
        None
    } else if result_sets_one(m) == 2 {
        Some(m.player_one_id)
    } else if result_sets_two(m) == 2 {
        Some(m.player_two_id)
    } else {
        None
    }
}

/// The winner to store with a submitted result.
pub fn match_winner(m: &MatchResult) -> (r: Option<i64>)
    ensures
        r == winner_of(*m),
{
    if m.completed != 1 {
        return None;
    }
    let mut one_sets: i8 = 0;
    let mut two_sets: i8 = 0;
    if m.player_one_set_one_games > m.player_two_set_one_games {
        one_sets = one_sets + 1;
    } else {
        two_sets = two_sets + 1;
    }
    if m.player_one_set_two_games > m.player_two_set_two_games {
        one_sets = one_sets + 1;
    } else {
        two_sets = two_sets + 1;
    }
    match (m.player_one_tiebreak_points, m.player_two_tiebreak_points) {
        (Some(a), Some(b)) => {
            if a > b {
                one_sets = one_sets + 1;
            } else {
                two_sets = two_sets + 1;
            }
        },
        _ => {},
    }
    if one_sets == 2 {
        Some(m.player_one_id)
    } else if two_sets == 2 {
        Some(m.player_two_id)
    } else {
        None
    }
}

} // verus!
