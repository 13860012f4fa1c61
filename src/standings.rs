//! The league standings table.
//!
//! Each roster player gets one row that aggregates every completed match
//! they took part in; the table is then ordered by points, highest first.
use std::collections::HashMap;
use vstd::prelude::*;

verus! {

broadcast use vstd::std_specs::hash::group_hash_axioms;

/// Upper bound on the number of completed matches handed to the table
/// computation, so that every accumulated statistic fits in an `i64`.
pub const MAX_MATCHES: usize = 4_294_967_295;

/// One fixture between two players; scores are attached once it is played.
pub struct MatchResult {
    pub season: i64,
    pub league_id: i64,
    pub player_one_id: i64,
    pub player_two_id: i64,
    pub player_one_name: Option<String>,
    pub player_two_name: Option<String>,
    pub player_one_set_one_games: i8,
    pub player_two_set_one_games: i8,
    pub player_one_set_two_games: i8,
    pub player_two_set_two_games: i8,
    pub player_one_tiebreak_points: Option<i8>,
    pub player_two_tiebreak_points: Option<i8>,
    pub completed: i8,
    pub winner: Option<i64>,
}

/// A match seen from one participant: their own scores and the opponent's.
pub struct MatchSide {
    pub own_set_one: int,
    pub opp_set_one: int,
    pub own_set_two: int,
    pub opp_set_two: int,
    /// `(own, opponent)` tiebreak points, when the match went to a tiebreak.
    pub tiebreak: Option<(int, int)>,
}

/// Statistics accumulated over a sequence of matches.
pub struct Tally {
    pub matches_won: int,
    pub matches_lost: int,
    pub sets_won: int,
    pub sets_lost: int,
    pub games_won: int,
    pub games_lost: int,
    pub points: int,
}

/// The mathematical content of a table row.
pub struct RowView {
    pub name: Seq<char>,
    pub played: int,
    pub matches_won: int,
    pub matches_lost: int,
    pub sets_won: int,
    pub sets_lost: int,
    pub games_won: int,
    pub games_lost: int,
    pub points: int,
}

pub open spec fn involves(m: MatchResult, player: i64) -> bool {
    m.player_one_id == player || m.player_two_id == player
}

/// A tiebreak counts only when both players' tiebreak points are recorded.
pub open spec fn tiebreak_points(m: MatchResult) -> Option<(int, int)> {
    match (m.player_one_tiebreak_points, m.player_two_tiebreak_points) {
        (Some(a), Some(b)) => Some((a as int, b as int)),
        _ => None,
    }
}

/// The match from `player`'s side; a player listed as player one takes that side.
pub open spec fn side_of(m: MatchResult, player: i64) -> MatchSide {
    if m.player_one_id == player {
        MatchSide {
            own_set_one: m.player_one_set_one_games as int,
            opp_set_one: m.player_two_set_one_games as int,
            own_set_two: m.player_one_set_two_games as int,
            opp_set_two: m.player_two_set_two_games as int,
            tiebreak: tiebreak_points(m),
        }
    } else {
        MatchSide {
            own_set_one: m.player_two_set_one_games as int,
            opp_set_one: m.player_one_set_one_games as int,
            own_set_two: m.player_two_set_two_games as int,
            opp_set_two: m.player_one_set_two_games as int,
            tiebreak: match tiebreak_points(m) {
                Some((a, b)) => Some((b, a)),
                None => None,
            },
        }
    }
}

/// 1 when the first score beats the second, else 0.
pub open spec fn beats(a: int, b: int) -> int {
    if a > b {
        1
    } else {
        0
    }
}

/// Sets (the tiebreak counting as one) that the side won in the match.
pub open spec fn sets_won_in(s: MatchSide) -> int {
    beats(s.own_set_one, s.opp_set_one) + beats(s.own_set_two, s.opp_set_two) + match s.tiebreak {
        Some((own, opp)) => beats(own, opp),
        None => 0,
    }
}

/// Sets (the tiebreak counting as one) that the side lost in the match.
pub open spec fn sets_lost_in(s: MatchSide) -> int {
    beats(s.opp_set_one, s.own_set_one) + beats(s.opp_set_two, s.own_set_two) + match s.tiebreak {
        Some((own, opp)) => beats(opp, own),
        None => 0,
    }
}

/// A match is won by winning at least two of its sets.
pub open spec fn wins_match(s: MatchSide) -> bool {
    sets_won_in(s) >= 2
}

pub open spec fn zero_tally() -> Tally {
    Tally {
        matches_won: 0,
        matches_lost: 0,
        sets_won: 0,
        sets_lost: 0,
        games_won: 0,
        games_lost: 0,
        points: 0,
    }
}

/// What one played match adds: the match itself, each set, every game, and
/// one point for taking part plus one per set won.
pub open spec fn add_match(t: Tally, s: MatchSide) -> Tally {
    Tally {
        matches_won: t.matches_won + if wins_match(s) { 1int } else { 0int },
        matches_lost: t.matches_lost + if wins_match(s) { 0int } else { 1int },
        sets_won: t.sets_won + sets_won_in(s),
        sets_lost: t.sets_lost + sets_lost_in(s),
        games_won: t.games_won + s.own_set_one + s.own_set_two,
        games_lost: t.games_lost + s.opp_set_one + s.opp_set_two,
        points: t.points + 1 + sets_won_in(s),
    }
}

/// `player`'s statistics over `matches`; matches they did not play add nothing.
pub open spec fn tally(matches: Seq<MatchResult>, player: i64) -> Tally
    decreases matches.len(),
{
    if matches.len() == 0 {
        zero_tally()
    } else {
        let before = tally(matches.drop_last(), player);
        let m = matches.last();
        if involves(m, player) {
            add_match(before, side_of(m, player))
        } else {
            before
        }
    }
}

/// The number of matches in `matches` that `player` took part in.
pub open spec fn matches_played(matches: Seq<MatchResult>, player: i64) -> int
    decreases matches.len(),
{
    if matches.len() == 0 {
        0
    } else {
        matches_played(matches.drop_last(), player) + if involves(matches.last(), player) {
            1int
        } else {
            0int
        }
    }
}

/// The row of a player called `name` with statistics `t`.
pub open spec fn row_of(name: Seq<char>, t: Tally) -> RowView {
    RowView {
        name,
        played: t.matches_won + t.matches_lost,
        matches_won: t.matches_won,
        matches_lost: t.matches_lost,
        sets_won: t.sets_won,
        sets_lost: t.sets_lost,
        games_won: t.games_won,
        games_lost: t.games_lost,
        points: t.points,
    }
}

/// Every statistic of `t` lies within `bound` of zero.
pub open spec fn tally_within(t: Tally, bound: int) -> bool {
    &&& -bound <= t.matches_won <= bound
    &&& -bound <= t.matches_lost <= bound
    &&& -bound <= t.sets_won <= bound
    &&& -bound <= t.sets_lost <= bound
    &&& -bound <= t.games_won <= bound
    &&& -bound <= t.games_lost <= bound
    &&& -bound <= t.points <= bound
}

/// One row of the standings table.
pub struct LeagueTableRow {
    pub name: String,
    pub played: i64,
    pub matches_won: i64,
    pub matches_lost: i64,
    pub sets_won: i64,
    pub sets_lost: i64,
    pub games_won: i64,
    pub games_lost: i64,
    pub points: i64,
}

impl View for LeagueTableRow {
    type V = RowView;

    open spec fn view(&self) -> RowView {
        RowView {
            name: self.name@,
            played: self.played as int,
            matches_won: self.matches_won as int,
            matches_lost: self.matches_lost as int,
            sets_won: self.sets_won as int,
            sets_lost: self.sets_lost as int,
            games_won: self.games_won as int,
            games_lost: self.games_lost as int,
            points: self.points as int,
        }
    }
}

impl LeagueTableRow {
    /// The statistics held in the row (all but `name` and `played`).
    pub open spec fn tally(&self) -> Tally {
        Tally {
            matches_won: self.matches_won as int,
            matches_lost: self.matches_lost as int,
            sets_won: self.sets_won as int,
            sets_lost: self.sets_lost as int,
            games_won: self.games_won as int,
            games_lost: self.games_lost as int,
            points: self.points as int,
        }
    }

    /// A row for `name` with every statistic at zero.
    pub fn new(name: String) -> (r: Self)
        ensures
            r@ == row_of(name@, zero_tally()),
    {
        LeagueTableRow {
            name,
            played: 0,
            matches_won: 0,
            matches_lost: 0,
            sets_won: 0,
            sets_lost: 0,
            games_won: 0,
            games_lost: 0,
            points: 0,
        }
    }

    /// Adds the outcome of match `m` to the row of `player`; a match that
    /// `player` did not take part in leaves the row as it was.
    pub fn record_match(&mut self, m: &MatchResult, player: i64)
        requires
            tally_within(old(self).tally(), 0x100_0000_0000),
        ensures
            final(self).name == old(self).name,
            final(self).played == old(self).played,
            involves(*m, player) ==> final(self).tally() == add_match(
                old(self).tally(),
                side_of(*m, player),
            ),
            !involves(*m, player) ==> final(self).tally() == old(self).tally(),
    {
        if m.player_one_id != player && m.player_two_id != player {
            return ;
        }
        let on_side_one = m.player_one_id == player;
        let (own_one, opp_one, own_two, opp_two) = if on_side_one {
            (
                m.player_one_set_one_games,
                m.player_two_set_one_games,
                m.player_one_set_two_games,
                m.player_two_set_two_games,
            )
        } else {
            (
                m.player_two_set_one_games,
                m.player_one_set_one_games,
                m.player_two_set_two_games,
                m.player_one_set_two_games,
            )
        };
        let mut won_here: i64 = 0;
        // Set one.
        if own_one > opp_one {
            self.sets_won = self.sets_won + 1;
            won_here = won_here + 1;
        } else if own_one < opp_one {
            self.sets_lost = self.sets_lost + 1;
        }
        self.games_won = self.games_won + own_one as i64;
        self.games_lost = self.games_lost + opp_one as i64;
        // Set two.
        if own_two > opp_two {
            self.sets_won = self.sets_won + 1;
            won_here = won_here + 1;
        } else if own_two < opp_two {
            self.sets_lost = self.sets_lost + 1;
        }
        self.games_won = self.games_won + own_two as i64;
        self.games_lost = self.games_lost + opp_two as i64;
        // The deciding tiebreak, when both players' points are recorded.
        match (m.player_one_tiebreak_points, m.player_two_tiebreak_points) {
            (Some(one), Some(two)) => {
                let (own_tb, opp_tb) = if on_side_one {
                    (one, two)
                } else {
                    (two, one)
                };
                if own_tb > opp_tb {
                    self.sets_won = self.sets_won + 1;
                    won_here = won_here + 1;
                } else if own_tb < opp_tb {
                    self.sets_lost = self.sets_lost + 1;
                }
            },
            _ => {},
        }
        self.points = self.points + 1 + won_here;
        if won_here >= 2 {
            self.matches_won = self.matches_won + 1;
        } else {
            self.matches_lost = self.matches_lost + 1;
        }
    }
}


/// The rows of `rows` as their mathematical content.
pub open spec fn views(rows: Seq<LeagueTableRow>) -> Seq<RowView> {
    rows.map_values(|r: LeagueTableRow| r@)
}

/// Inserts `r` into `sorted` after every row with at least as many points.
pub open spec fn insert_by_points(sorted: Seq<RowView>, r: RowView) -> Seq<RowView>
    decreases sorted.len(),
{
    if sorted.len() == 0 {
        seq![r]
    } else if sorted.last().points >= r.points {
        sorted.push(r)
    } else {
        insert_by_points(sorted.drop_last(), r).push(sorted.last())
    }
}

/// `rows` ordered by points, highest first; rows with equal points keep
/// their relative order.
pub open spec fn sort_by_points(rows: Seq<RowView>) -> Seq<RowView>
    decreases rows.len(),
{
    if rows.len() == 0 {
        rows
    } else {
        insert_by_points(sort_by_points(rows.drop_last()), rows.last())
    }
}

pub open spec fn descending_by_points(rows: Seq<RowView>) -> bool {
    forall|i: int, j: int| 0 <= i < j < rows.len() ==> rows[i].points >= rows[j].points
}

/// One row per roster entry, in roster order, before ranking.
pub open spec fn roster_rows(
    roster: Seq<i64>,
    names: Map<i64, String>,
    matches: Seq<MatchResult>,
) -> Seq<RowView> {
    Seq::new(roster.len(), |i: int| row_of(names[roster[i]]@, tally(matches, roster[i])))
}

/// The standings table: the roster's rows ranked by points.
pub open spec fn standings(
    roster: Seq<i64>,
    names: Map<i64, String>,
    matches: Seq<MatchResult>,
) -> Seq<RowView> {
    sort_by_points(roster_rows(roster, names, matches))
}

/// Every roster player, and every player of a match, has a name.
pub open spec fn names_complete(
    roster: Seq<i64>,
    names: Map<i64, String>,
    matches: Seq<MatchResult>,
) -> bool {
    &&& forall|i: int| 0 <= i < roster.len() ==> names.contains_key(#[trigger] roster[i])
    &&& forall|j: int|
        0 <= j < matches.len() ==> {
            &&& names.contains_key((#[trigger] matches[j]).player_one_id)
            &&& names.contains_key(matches[j].player_two_id)
        }
}

/// Why a standings table could not be computed.
pub enum StandingsError {
    /// The player with this id has no name.
    PlayerNotFound(i64),
}

proof fn lemma_tally_bounded(matches: Seq<MatchResult>, player: i64)
    ensures
        tally_within(tally(matches, player), 256 * matches.len() as int),
    decreases matches.len(),
{
    if matches.len() > 0 {
        lemma_tally_bounded(matches.drop_last(), player);
    }
}

proof fn lemma_insert_at(sorted: Seq<RowView>, r: RowView, j: int)
    requires
        0 <= j <= sorted.len(),
        forall|k: int| j <= k < sorted.len() ==> sorted[k].points < r.points,
        j == 0 || sorted[j - 1].points >= r.points,
    ensures
        insert_by_points(sorted, r) == sorted.insert(j, r),
    decreases sorted.len(),
{
    if sorted.len() == 0 {
        assert(sorted.insert(j, r) =~= seq![r]);
    } else if j == sorted.len() {
        assert(sorted.insert(j, r) =~= sorted.push(r));
    } else {
        let init = sorted.drop_last();
        lemma_insert_at(init, r, j);
        assert(init.insert(j, r).push(sorted.last()) =~= sorted.insert(j, r));
    }
}

proof fn lemma_insert_multiset(sorted: Seq<RowView>, r: RowView)
    ensures
        insert_by_points(sorted, r).to_multiset() =~= sorted.to_multiset().insert(r),
    decreases sorted.len(),
{
    broadcast use vstd::seq_lib::group_to_multiset_ensures;

    if sorted.len() == 0 {
        assert(seq![r] =~= Seq::<RowView>::empty().push(r));
    } else if sorted.last().points < r.points {
        let init = sorted.drop_last();
        lemma_insert_multiset(init, r);
        assert(init.push(sorted.last()) =~= sorted);
    }
}

proof fn lemma_insert_descending(sorted: Seq<RowView>, r: RowView)
    requires
        descending_by_points(sorted),
    ensures
        descending_by_points(insert_by_points(sorted, r)),
        insert_by_points(sorted, r).len() == sorted.len() + 1,
        forall|i: int|
            0 <= i < insert_by_points(sorted, r).len() ==> #[trigger] insert_by_points(
                sorted,
                r,
            )[i] == r || exists|k: int| 0 <= k < sorted.len() && sorted[k] == insert_by_points(
                sorted,
                r,
            )[i],
    decreases sorted.len(),
{
    if sorted.len() > 0 && sorted.last().points < r.points {
        let init = sorted.drop_last();
        lemma_insert_descending(init, r);
        let ins = insert_by_points(init, r);
        let res = ins.push(sorted.last());
        assert forall|i: int| 0 <= i < ins.len() implies ins[i].points >= sorted.last().points by {
            if ins[i] != r {
                let k = choose|k: int| 0 <= k < init.len() && init[k] == ins[i];
                assert(sorted[k] == init[k]);
            }
        }
        assert forall|i: int| 0 <= i < res.len() implies res[i] == r || exists|k: int|
            0 <= k < sorted.len() && sorted[k] == res[i] by {
            if i == ins.len() {
                assert(sorted[sorted.len() - 1] == res[i]);
            } else if res[i] != r {
                let k = choose|k: int| 0 <= k < init.len() && init[k] == ins[i];
                assert(sorted[k] == res[i]);
            }
        }
    } else if sorted.len() > 0 {
        let res = sorted.push(r);
        assert forall|i: int| 0 <= i < res.len() implies res[i] == r || exists|k: int|
            0 <= k < sorted.len() && sorted[k] == res[i] by {
            if i < sorted.len() {
                assert(sorted[i] == res[i]);
            }
        }
    }
}

/// Ranking by points keeps exactly the rows it was given, each as often.
pub proof fn lemma_sort_by_points_permutes(rows: Seq<RowView>)
    ensures
        sort_by_points(rows).to_multiset() =~= rows.to_multiset(),
        sort_by_points(rows).len() == rows.len(),
    decreases rows.len(),
{
    broadcast use vstd::seq_lib::group_to_multiset_ensures;

    if rows.len() > 0 {
        let init = rows.drop_last();
        lemma_sort_by_points_permutes(init);
        lemma_insert_multiset(sort_by_points(init), rows.last());
        assert(init.push(rows.last()) =~= rows);
    }
    assert(sort_by_points(rows).len() == sort_by_points(rows).to_multiset().len());
}

/// Ranking by points orders the rows from most points to fewest.
pub proof fn lemma_sort_by_points_descending(rows: Seq<RowView>)
    ensures
        descending_by_points(sort_by_points(rows)),
    decreases rows.len(),
{
    if rows.len() > 0 {
        lemma_sort_by_points_descending(rows.drop_last());
        lemma_insert_descending(sort_by_points(rows.drop_last()), rows.last());
    }
}

/// Inserts `row` into `table`, which is ranked by points, after every row
/// with at least as many points.
fn insert_row(table: &mut Vec<LeagueTableRow>, row: LeagueTableRow)
    ensures
        views(final(table)@) == insert_by_points(views(old(table)@), row@),
{
    let mut j: usize = table.len();
    while j > 0 && table[j - 1].points < row.points
        invariant
            j <= table.len(),
            forall|k: int| j <= k < table.len() ==> table@[k].points < row.points,
        decreases j,
    {
        j = j - 1;
    }
    proof {
        lemma_insert_at(views(table@), row@, j as int);
    }
    let ghost before = table@;
    table.insert(j, row);
    assert(views(table@) =~= views(before).insert(j as int, row@));
}


/// The standings table of a league: one row per roster player, with the
/// statistics of every completed match they played, ranked by points
/// (highest first; rows with equal points stay in roster order).
///
/// Fails when a roster player, or a player of one of the matches, has no
/// name in `player_map`.
pub fn compute_league_table(
    league_players: Vec<i64>,
    player_map: HashMap<i64, String>,
    completed_fixtures: &Vec<MatchResult>,
) -> (r: Result<Vec<LeagueTableRow>, StandingsError>)
    requires
        completed_fixtures.len() <= MAX_MATCHES,
    ensures
        match r {
            Ok(table) => {
                &&& names_complete(league_players@, player_map@, completed_fixtures@)
                &&& views(table@) == standings(league_players@, player_map@, completed_fixtures@)
                &&& table.len() == league_players.len()
                &&& descending_by_points(views(table@))
            },
            Err(StandingsError::PlayerNotFound(id)) => {
                &&& !names_complete(league_players@, player_map@, completed_fixtures@)
                &&& !player_map@.contains_key(id)
            },
        },
{
    let ghost roster = league_players@;
    let ghost names = player_map@;
    let ghost matches = completed_fixtures@;
    let n_matches = completed_fixtures.len();
    let mut j: usize = 0;
    while j < n_matches
        invariant
            n_matches == matches.len(),
            matches == completed_fixtures@,
            names == player_map@,
            forall|k: int|
                0 <= k < j ==> {
                    &&& names.contains_key((#[trigger] matches[k]).player_one_id)
                    &&& names.contains_key(matches[k].player_two_id)
                },
        decreases n_matches - j,
    {
        let m = &completed_fixtures[j];
        if !player_map.contains_key(&m.player_one_id) {
            return Err(StandingsError::PlayerNotFound(m.player_one_id));
        }
        if !player_map.contains_key(&m.player_two_id) {
            return Err(StandingsError::PlayerNotFound(m.player_two_id));
        }
        j = j + 1;
    }
    let mut table: Vec<LeagueTableRow> = Vec::new();
    let n_players = league_players.len();
    let mut i: usize = 0;
    while i < n_players
        invariant
            n_players == roster.len(),
            n_matches == matches.len(),
            roster == league_players@,
            names == player_map@,
            matches == completed_fixtures@,
            matches.len() <= MAX_MATCHES,
            i <= n_players,
            forall|k: int| 0 <= k < i ==> names.contains_key(#[trigger] roster[k]),
            forall|k: int|
                0 <= k < matches.len() ==> {
                    &&& names.contains_key((#[trigger] matches[k]).player_one_id)
                    &&& names.contains_key(matches[k].player_two_id)
                },
            views(table@) == sort_by_points(roster_rows(roster, names, matches).take(i as int)),
        decreases n_players - i,
    {
        let player = league_players[i];
        let name = match player_map.get(&player) {
            Some(name) => name.clone(),
            None => {
                return Err(StandingsError::PlayerNotFound(player));
            },
        };
        let mut row = LeagueTableRow::new(name);
        let mut k: usize = 0;
        while k < n_matches
            invariant
                n_matches == matches.len(),
                matches == completed_fixtures@,
                matches.len() <= MAX_MATCHES,
                k <= n_matches,
                row.name@ == names[player]@,
                row.tally() == tally(matches.take(k as int), player),
            decreases n_matches - k,
        {
            proof {
                lemma_tally_bounded(matches.take(k as int), player);
            }
            row.record_match(&completed_fixtures[k], player);
            proof {
                assert(matches.take(k + 1).drop_last() =~= matches.take(k as int));
            }
            k = k + 1;
        }
        proof {
            assert(matches.take(n_matches as int) =~= matches);
            lemma_tally_bounded(matches, player);
        }
        row.played = row.matches_won + row.matches_lost;
        proof {
            let rows = roster_rows(roster, names, matches);
            assert(row@ == rows[i as int]);
            assert(rows.take(i + 1).drop_last() =~= rows.take(i as int));
        }
        insert_row(&mut table, row);
        i = i + 1;
    }
    proof {
        let rows = roster_rows(roster, names, matches);
        assert(rows.take(n_players as int) =~= rows);
        lemma_sort_by_points_permutes(rows);
        lemma_sort_by_points_descending(rows);
        assert(table@.len() == views(table@).len());
    }
    Ok(table)
}


/// The table holds exactly one row per roster entry: ranking neither drops,
/// adds nor repeats a row.
pub proof fn law_one_row_per_roster_player(
    roster: Seq<i64>,
    names: Map<i64, String>,
    matches: Seq<MatchResult>,
)
    ensures
        standings(roster, names, matches).len() == roster.len(),
        standings(roster, names, matches).to_multiset() == roster_rows(
            roster,
            names,
            matches,
        ).to_multiset(),
{
    lemma_sort_by_points_permutes(roster_rows(roster, names, matches));
}

/// A player who took part in none of the matches has every statistic at
/// zero, points included.
pub proof fn law_no_matches_all_zero(matches: Seq<MatchResult>, player: i64, name: Seq<char>)
    requires
        forall|j: int| 0 <= j < matches.len() ==> !involves(#[trigger] matches[j], player),
    ensures
        row_of(name, tally(matches, player)) == row_of(name, zero_tally()),
        row_of(name, zero_tally()).played == 0,
        row_of(name, zero_tally()).matches_won == 0,
        row_of(name, zero_tally()).matches_lost == 0,
        row_of(name, zero_tally()).sets_won == 0,
        row_of(name, zero_tally()).sets_lost == 0,
        row_of(name, zero_tally()).games_won == 0,
        row_of(name, zero_tally()).games_lost == 0,
        row_of(name, zero_tally()).points == 0,
    decreases matches.len(),
{
    if matches.len() > 0 {
        let init = matches.drop_last();
        assert forall|j: int| 0 <= j < init.len() implies !involves(#[trigger] init[j], player) by {
            assert(init[j] == matches[j]);
        }
        law_no_matches_all_zero(init, player, name);
        assert(!involves(matches[matches.len() - 1], player));
    }
}

/// A player's points are the matches they played plus every set they won
/// (tiebreaks included), and the matches they played are those they won
/// plus those they lost.
pub proof fn law_points_are_played_plus_sets_won(
    matches: Seq<MatchResult>,
    player: i64,
    name: Seq<char>,
)
    ensures
        row_of(name, tally(matches, player)).points == row_of(name, tally(matches, player)).played
            + row_of(name, tally(matches, player)).sets_won,
        row_of(name, tally(matches, player)).played == matches_played(matches, player),
        tally(matches, player).points == matches_played(matches, player) + tally(
            matches,
            player,
        ).sets_won,
        tally(matches, player).matches_won + tally(matches, player).matches_lost
            == matches_played(matches, player),
    decreases matches.len(),
{
    if matches.len() > 0 {
        law_points_are_played_plus_sets_won(matches.drop_last(), player, name);
    }
}

/// A match is counted as won exactly when the player won at least two of
/// its sets, and as lost otherwise.
pub proof fn law_match_outcome(before: Seq<MatchResult>, m: MatchResult, player: i64)
    requires
        involves(m, player),
    ensures
        sets_won_in(side_of(m, player)) >= 2 ==> {
            &&& tally(before.push(m), player).matches_won == tally(before, player).matches_won + 1
            &&& tally(before.push(m), player).matches_lost == tally(before, player).matches_lost
        },
        sets_won_in(side_of(m, player)) < 2 ==> {
            &&& tally(before.push(m), player).matches_won == tally(before, player).matches_won
            &&& tally(before.push(m), player).matches_lost == tally(before, player).matches_lost
                + 1
        },
{
    assert(before.push(m).drop_last() =~= before);
}

/// In every row of the table, the matches played are the matches won plus
/// the matches lost.
pub proof fn law_played_is_won_plus_lost(
    roster: Seq<i64>,
    names: Map<i64, String>,
    matches: Seq<MatchResult>,
)
    ensures
        forall|i: int|
            0 <= i < standings(roster, names, matches).len() ==> (#[trigger] standings(
                roster,
                names,
                matches,
            )[i]).played == standings(roster, names, matches)[i].matches_won + standings(
                roster,
                names,
                matches,
            )[i].matches_lost,
{
    broadcast use vstd::seq_lib::group_to_multiset_ensures;

    let rows = roster_rows(roster, names, matches);
    let table = standings(roster, names, matches);
    lemma_sort_by_points_permutes(rows);
    assert forall|i: int| 0 <= i < table.len() implies (#[trigger] table[i]).played
        == table[i].matches_won + table[i].matches_lost by {
        assert(table.contains(table[i]));
        assert(table.to_multiset().count(table[i]) > 0);
        assert(rows.contains(table[i]));
    }
}

/// The table is ordered by points: no row has more points than the row
/// above it.
pub proof fn law_standings_descending(
    roster: Seq<i64>,
    names: Map<i64, String>,
    matches: Seq<MatchResult>,
)
    ensures
        forall|i: int|
            0 <= i < standings(roster, names, matches).len() - 1 ==> (#[trigger] standings(
                roster,
                names,
                matches,
            )[i]).points >= standings(roster, names, matches)[i + 1].points,
{
    lemma_sort_by_points_descending(roster_rows(roster, names, matches));
}

/// Every game of a played match counts, whoever won the set: games won grow
/// by the player's own games and games lost by the opponent's. A match the
/// player did not play changes nothing.
pub proof fn law_games_accumulate(before: Seq<MatchResult>, m: MatchResult, player: i64)
    ensures
        involves(m, player) ==> {
            &&& tally(before.push(m), player).games_won == tally(before, player).games_won
                + side_of(m, player).own_set_one + side_of(m, player).own_set_two
            &&& tally(before.push(m), player).games_lost == tally(before, player).games_lost
                + side_of(m, player).opp_set_one + side_of(m, player).opp_set_two
        },
        !involves(m, player) ==> tally(before.push(m), player) == tally(before, player),
{
    assert(before.push(m).drop_last() =~= before);
}

} // verus!
