//! The tournament engine: a state machine that schedules matches between
//! image entrants for three formats, records left/right decisions, and
//! advances rounds until a single result remains.

use vstd::prelude::*;

use crate::draw::{
    buffer_from_image, buffer_from_two_images, spec_fits_single_view, spec_fits_slot_view,
    spec_single_view_pixel, spec_slot_view_pixel, Buffer, BUFFER_HEIGHT, BUFFER_WIDTH, IMG_WIDTH,
    MARGIN,
};
use crate::pixel::spec_combined_pixel;
use crate::raster::Raster;

verus! {

/// The three tournament formats: knockout bracket, everyone-against-everyone
/// scoring, and one-at-a-time review.
#[derive(Clone, Copy, Debug)]
pub enum TournamentType {
    WorldCup,
    League,
    Dating,
}

/// Which side of the current match the user chose.
#[derive(Clone, Copy, Debug)]
pub enum Side {
    Left,
    Right,
}

/// Everything the engine or its caller can report going wrong.
#[derive(Clone, Copy, Debug)]
pub enum TournamentError {
    /// Construction found nothing to schedule.
    NoEntrants,
    /// The current round has no unsettled match left.
    RoundExhausted,
    /// An image source could not be read or parsed; reported by callers that
    /// load rasters, never by the engine itself.
    DecodeFailure,
}

/// One entrant: an index into the list of image sources, with the survival
/// flag used by knockout and review formats and the score used by the league.
#[derive(Clone, Copy, Debug)]
pub struct Player {
    pub path_index: usize,
    pub is_in: bool,
    pub score: usize,
}

/// One scheduled match: a home entrant, an optional guest entrant (absent in
/// single-review mode), and whether a decision was recorded.
#[derive(Clone, Copy, Debug)]
pub struct Game {
    pub player_home: usize,
    pub player_guest: Option<usize>,
    pub played: bool,
}

/// A running tournament: the entrant set, the current round of games, the
/// cursor to the next unsettled game, the format, and the finished flag.
pub struct Tournament {
    pub paths: Vec<String>,
    pub players: Vec<Player>,
    pub current_game_index: usize,
    pub category: TournamentType,
    pub games: Vec<Game>,
    pub done: bool,
}

/// The mathematical state of a tournament.
#[verifier::ext_equal]
pub ghost struct TournamentView {
    pub paths: Seq<Seq<char>>,
    pub players: Seq<Player>,
    pub games: Seq<Game>,
    pub current: int,
    pub category: TournamentType,
    pub done: bool,
}

impl View for Tournament {
    type V = TournamentView;

    open spec fn view(&self) -> TournamentView {
        TournamentView {
            paths: self.paths@.map_values(|s: String| s@),
            players: self.players@,
            games: self.games@,
            current: self.current_game_index as int,
            category: self.category,
            done: self.done,
        }
    }
}

/// The entrants a tournament starts from: one per source, in source order,
/// all surviving, all at score zero.
pub open spec fn spec_initial_players(n: int) -> Seq<Player> {
    Seq::new(n as nat, |i: int| Player { path_index: i as usize, is_in: true, score: 0 })
}

/// The knockout round over `n` entrants: consecutive entrants paired two at
/// a time; an odd last entrant gets no match and so carries to the next
/// round untouched.
pub open spec fn spec_knockout_games(n: int) -> Seq<Game> {
    Seq::new(
        (n / 2) as nat,
        |k: int|
            Game {
                player_home: (2 * k) as usize,
                player_guest: Some((2 * k + 1) as usize),
                played: false,
            },
    )
}

/// The games of one league row: entrant `i` against every later entrant, in
/// order.
pub open spec fn spec_league_row(i: int, n: int) -> Seq<Game> {
    Seq::new(
        (n - i - 1) as nat,
        |k: int|
            Game {
                player_home: i as usize,
                player_guest: Some((i + 1 + k) as usize),
                played: false,
            },
    )
}

/// The league games of rows `i` and later, concatenated in row order.
pub open spec fn spec_league_rows_from(i: int, n: int) -> Seq<Game>
    decreases n - i,
{
    if i < 0 || i >= n {
        Seq::empty()
    } else {
        spec_league_row(i, n) + spec_league_rows_from(i + 1, n)
    }
}

/// The league round over `n` entrants: every unordered pair exactly once,
/// lower index as home, generated row by row.
pub open spec fn spec_league_games(n: int) -> Seq<Game> {
    spec_league_rows_from(0, n)
}

/// The single-review round over `n` entrants: one single-entrant match per
/// entrant, in entrant order.
pub open spec fn spec_review_games(n: int) -> Seq<Game> {
    Seq::new(
        n as nat,
        |i: int| Game { player_home: i as usize, player_guest: None, played: false },
    )
}

/// The round that a format generates over `n` entrants.
pub open spec fn spec_round_games(category: TournamentType, n: int) -> Seq<Game> {
    match category {
        TournamentType::WorldCup => spec_knockout_games(n),
        TournamentType::League => spec_league_games(n),
        TournamentType::Dating => spec_review_games(n),
    }
}

/// How many games of a round are settled.
pub open spec fn spec_played_count(games: Seq<Game>) -> int
    decreases games.len(),
{
    if games.len() == 0 {
        0
    } else {
        spec_played_count(games.drop_last()) + if games.last().played {
            1int
        } else {
            0int
        }
    }
}

/// The entrants that survive into the next knockout round, in order.
pub open spec fn spec_survivors(players: Seq<Player>) -> Seq<Player> {
    players.filter(|p: Player| p.is_in)
}

/// The index of the first unsettled game at or after position `i`, or the
/// round length when none remains.
pub open spec fn spec_first_unplayed_from(games: Seq<Game>, i: int) -> int
    decreases games.len() - i,
{
    if i < 0 || i >= games.len() {
        games.len() as int
    } else if !games[i].played {
        i
    } else {
        spec_first_unplayed_from(games, i + 1)
    }
}

/// One game is consistent with the entrant set and the format: entrant
/// indices are in range, and the guest is absent exactly in review mode.
pub open spec fn spec_game_wf(game: Game, player_count: int, category: TournamentType) -> bool {
    &&& game.player_home < player_count
    &&& (game.player_guest is None <==> category is Dating)
    &&& (game.player_guest is Some ==> game.player_guest->0 < player_count)
}

/// Every entrant's source index points into the source list.
pub open spec fn spec_players_in_paths(v: TournamentView) -> bool {
    forall|k: int|
        0 <= k < v.players.len() ==> (#[trigger] v.players[k]).path_index < v.paths.len()
}

/// The entrant whose survival a knockout or review decision revokes: in a
/// two-entrant match, `Left` eliminates the guest and `Right` the home
/// entrant; in a single-entrant match the home entrant is the only one.
pub open spec fn spec_losing_player(game: Game, side: Side) -> int {
    match side {
        Side::Left => match game.player_guest {
            Some(j) => j as int,
            None => game.player_home as int,
        },
        Side::Right => game.player_home as int,
    }
}

/// The entrant a league decision credits: `Left` credits the home entrant,
/// `Right` the guest.
pub open spec fn spec_scoring_player(game: Game, side: Side) -> int {
    match side {
        Side::Left => game.player_home as int,
        Side::Right => match game.player_guest {
            Some(j) => j as int,
            None => game.player_home as int,
        },
    }
}

/// The state after recording a decision on the current match: the match is
/// settled and the format's scoring applies — knockout eliminates the loser,
/// league credits the winner, review keeps or rejects the single entrant.
/// Without a current unsettled match, the state is unchanged: a match
/// settles at most once.
pub open spec fn spec_settle_transition(v: TournamentView, side: Side) -> TournamentView {
    if !(0 <= v.current < v.games.len()) || v.games[v.current].played {
        v
    } else {
        let game = v.games[v.current];
        let games = v.games.update(v.current, Game { played: true, ..game });
        let players = match v.category {
            TournamentType::Dating => if side is Left {
                let home = game.player_home as int;
                v.players.update(home, Player { is_in: false, ..v.players[home] })
            } else {
                v.players
            },
            TournamentType::WorldCup => {
                let loser = spec_losing_player(game, side);
                v.players.update(loser, Player { is_in: false, ..v.players[loser] })
            },
            TournamentType::League => {
                let winner = spec_scoring_player(game, side);
                v.players.update(
                    winner,
                    Player {
                        score: (v.players[winner].score + 1) as usize,
                        ..v.players[winner]
                    },
                )
            },
        };
        TournamentView { players, games, ..v }
    }
}

/// The state after moving past a settled match: the cursor advances to the
/// first unsettled game. When none remains, league and review rounds finish
/// the tournament; a knockout filters the entrant set to its survivors and
/// either finishes (one or no survivor) or generates the next round,
/// coercing the format to a league when at most three entrants remain.
pub open spec fn spec_advance_transition(v: TournamentView) -> TournamentView {
    let first = spec_first_unplayed_from(v.games, 0);
    if first < v.games.len() {
        TournamentView { current: first, ..v }
    } else {
        match v.category {
            TournamentType::Dating => TournamentView { done: true, ..v },
            TournamentType::League => TournamentView { done: true, ..v },
            TournamentType::WorldCup => {
                let survivors = spec_survivors(v.players);
                if survivors.len() <= 1 {
                    TournamentView {
                        players: survivors,
                        games: Seq::empty(),
                        current: 0,
                        done: true,
                        ..v
                    }
                } else {
                    let category = if survivors.len() <= 3 {
                        TournamentType::League
                    } else {
                        TournamentType::WorldCup
                    };
                    TournamentView {
                        players: survivors,
                        category,
                        games: spec_round_games(category, survivors.len() as int),
                        current: 0,
                        done: false,
                        ..v
                    }
                }
            },
        }
    }
}

impl Tournament {
    /// The tournament's internal invariant: entrant indices point into the
    /// source list, game entrants point into the entrant set and match the
    /// format's shape, no score exceeds the number of settled games, and a
    /// knockout has not scored anybody yet.
    pub open spec fn wf(&self) -> bool {
        let v = self@;
        &&& spec_players_in_paths(v)
        &&& forall|g: int|
            0 <= g < v.games.len() ==> spec_game_wf(
                #[trigger] v.games[g],
                v.players.len() as int,
                v.category,
            )
        &&& forall|k: int|
            0 <= k < v.players.len() ==> (#[trigger] v.players[k]).score <= spec_played_count(
                v.games,
            )
        &&& (v.category is WorldCup ==> forall|k: int|
            0 <= k < v.players.len() ==> (#[trigger] v.players[k]).score == 0)
    }

    /// Builds the tournament: one entrant per source in source order, round
    /// one generated immediately. Fails exactly when there is no source, and
    /// starts finished exactly when round one is empty.
    pub fn new(paths: Vec<String>, category: TournamentType) -> (tournament: Result<
        Tournament,
        TournamentError,
    >)
        ensures
            (tournament is Err) <==> paths@.len() == 0,
            tournament is Err ==> tournament->Err_0 is NoEntrants,
            tournament is Ok ==> {
                let t = tournament->Ok_0;
                &&& t.wf()
                &&& t@.paths == paths@.map_values(|s: String| s@)
                &&& t@.players == spec_initial_players(paths@.len() as int)
                &&& t@.category == category
                &&& t@.games == spec_round_games(category, paths@.len() as int)
                &&& t@.current == 0
                &&& (t@.done <==> t@.games.len() == 0)
            },
    {
        if paths.len() == 0 {
            return Err(TournamentError::NoEntrants);
        }
        let mut tournament = Tournament {
            paths,
            games: Vec::new(),
            current_game_index: 0,
            players: Vec::new(),
            category,
            done: false,
        };
        let entrant_count = tournament.paths.len();
        let mut i: usize = 0;
        while i < entrant_count
            invariant
                i <= entrant_count,
                entrant_count == tournament.paths@.len(),
                tournament.paths@ == paths@,
                tournament.players@ =~= spec_initial_players(i as int),
                tournament.games@.len() == 0,
                tournament.current_game_index == 0,
                tournament.category == category,
                tournament.done == false,
            decreases entrant_count - i,
        {
            tournament.players.push(Player { path_index: i, is_in: true, score: 0 });
            proof {
                assert(tournament.players@ =~= spec_initial_players(i + 1));
            }
            i = i + 1;
        }
        tournament.generate_round();
        if tournament.games.len() == 0 {
            tournament.done = true;
        }
        Ok(tournament)
    }

    /// Replaces the current round with the games the format generates over
    /// the current entrant set, and resets the cursor. Only called with
    /// every score still zero: at construction, and between knockout rounds,
    /// where nothing has been scored.
    pub fn generate_round(&mut self)
        requires
            spec_players_in_paths(old(self)@),
            forall|k: int|
                0 <= k < old(self)@.players.len() ==> (#[trigger] old(
                    self,
                )@.players[k]).score == 0,
        ensures
            final(self).wf(),
            final(self)@ =~= (TournamentView {
                games: spec_round_games(old(self)@.category, old(self)@.players.len() as int),
                current: 0,
                ..old(self)@
            }),
    {
        self.games = Vec::new();
        self.current_game_index = 0;
        let n = self.players.len();
        match self.category {
            TournamentType::WorldCup => {
                let mut i: usize = 0;
                while i + 1 < n
                    invariant
                        self.paths@ == old(self).paths@,
                        self.players@ == old(self).players@,
                        self.category == old(self).category,
                        self.done == old(self).done,
                        self.current_game_index == 0,
                        n == self.players@.len(),
                        i % 2 == 0,
                        i <= n,
                        self.games@ =~= spec_knockout_games(n as int).take(i as int / 2),
                    decreases n - i,
                {
                    self.games.push(
                        Game { player_home: i, player_guest: Some(i + 1), played: false },
                    );
                    proof {
                        let full = spec_knockout_games(n as int);
                        assert(full.take(i as int / 2 + 1).drop_last() =~= full.take(
                            i as int / 2,
                        ));
                        assert(self.games@ =~= full.take((i + 2) as int / 2));
                    }
                    i = i + 2;
                }
                proof {
                    assert(self.games@ =~= spec_knockout_games(n as int));
                }
            },
            TournamentType::League => {
                let mut i: usize = 0;
                while i < n
                    invariant
                        self.paths@ == old(self).paths@,
                        self.players@ == old(self).players@,
                        self.category == old(self).category,
                        self.done == old(self).done,
                        self.current_game_index == 0,
                        n == self.players@.len(),
                        i <= n,
                        self.games@ =~= spec_league_upto(i as int, n as int),
                    decreases n - i,
                {
                    let mut j: usize = i + 1;
                    while j < n
                        invariant
                            self.paths@ == old(self).paths@,
                            self.players@ == old(self).players@,
                            self.category == old(self).category,
                            self.done == old(self).done,
                            self.current_game_index == 0,
                            n == self.players@.len(),
                            i < n,
                            i + 1 <= j <= n,
                            self.games@ =~= spec_league_upto(i as int, n as int)
                                + spec_league_row(i as int, n as int).take(j - i - 1),
                        decreases n - j,
                    {
                        self.games.push(
                            Game { player_home: i, player_guest: Some(j), played: false },
                        );
                        proof {
                            let row = spec_league_row(i as int, n as int);
                            assert(row.take(j - i) =~= row.take(j - i - 1).push(row[j - i - 1]));
                            assert(self.games@ =~= spec_league_upto(i as int, n as int)
                                + row.take((j + 1) - i - 1));
                        }
                        j = j + 1;
                    }
                    proof {
                        let row = spec_league_row(i as int, n as int);
                        assert(row.take(n - i - 1) =~= row);
                        assert(self.games@ =~= spec_league_upto(i + 1, n as int));
                    }
                    i = i + 1;
                }
                proof {
                    lemma_league_upto_complete(n as int);
                }
            },
            TournamentType::Dating => {
                let mut i: usize = 0;
                while i < n
                    invariant
                        self.paths@ == old(self).paths@,
                        self.players@ == old(self).players@,
                        self.category == old(self).category,
                        self.done == old(self).done,
                        self.current_game_index == 0,
                        n == self.players@.len(),
                        i <= n,
                        self.games@ =~= spec_review_games(i as int),
                    decreases n - i,
                {
                    self.games.push(Game { player_home: i, player_guest: None, played: false });
                    proof {
                        assert(self.games@ =~= spec_review_games(i + 1));
                    }
                    i = i + 1;
                }
            },
        }
        proof {
            lemma_round_games_wf(self.category, self.players@.len() as int);
            lemma_played_count_all_unplayed(self.games@);
        }
    }
}

/// The league rows before row `i`, concatenated: what the generation loop
/// has built after finishing `i` rows.
pub open spec fn spec_league_upto(i: int, n: int) -> Seq<Game>
    decreases i,
{
    if i <= 0 {
        Seq::empty()
    } else {
        spec_league_upto(i - 1, n) + spec_league_row(i - 1, n)
    }
}

/// Finishing all `n` league rows builds exactly the league round.
proof fn lemma_league_upto_complete(n: int)
    requires
        0 <= n,
    ensures
        spec_league_upto(n, n) =~= spec_league_games(n),
{
    lemma_league_split(0, n);
    assert(spec_league_upto(0, n) + spec_league_rows_from(0, n) =~= spec_league_rows_from(0, n));
}

/// The finished rows before `i` plus the rows from `i` on make the whole
/// league round.
proof fn lemma_league_split(i: int, n: int)
    requires
        0 <= i <= n,
    ensures
        spec_league_upto(n, n) =~= spec_league_upto(i, n) + spec_league_rows_from(i, n),
    decreases n - i,
{
    if i == n {
        assert(spec_league_rows_from(n, n) =~= Seq::<Game>::empty());
        assert(spec_league_upto(n, n) + Seq::<Game>::empty() =~= spec_league_upto(n, n));
    } else {
        lemma_league_split(i + 1, n);
        assert(spec_league_rows_from(i, n) =~= spec_league_row(i, n) + spec_league_rows_from(
            i + 1,
            n,
        ));
        assert(spec_league_upto(i, n) + (spec_league_row(i, n) + spec_league_rows_from(i + 1, n))
            =~= (spec_league_upto(i, n) + spec_league_row(i, n)) + spec_league_rows_from(
            i + 1,
            n,
        ));
        assert(spec_league_upto(i + 1, n) =~= spec_league_upto(i, n) + spec_league_row(i, n));
    }
}

/// Every game of a generated round is consistent with the entrant count and
/// the format, and not yet settled.
proof fn lemma_round_games_wf(category: TournamentType, n: int)
    requires
        0 <= n <= usize::MAX,
    ensures
        forall|g: int|
            0 <= g < spec_round_games(category, n).len() ==> spec_game_wf(
                #[trigger] spec_round_games(category, n)[g],
                n,
                category,
            ),
        forall|g: int|
            0 <= g < spec_round_games(category, n).len() ==> !(#[trigger] spec_round_games(
                category,
                n,
            )[g]).played,
{
    match category {
        TournamentType::WorldCup => {
            assert forall|g: int| 0 <= g < spec_knockout_games(n).len() implies spec_game_wf(
                #[trigger] spec_knockout_games(n)[g],
                n,
                category,
            ) && !spec_knockout_games(n)[g].played by {
                assert(2 * g + 1 < n);
            }
        },
        TournamentType::League => {
            lemma_league_rows_from_wf(0, n);
        },
        TournamentType::Dating => {
        },
    }
}

/// Every game of the league rows from `i` pairs two in-range entrants, the
/// home entrant at least `i` and strictly before the guest.
proof fn lemma_league_rows_from_wf(i: int, n: int)
    requires
        0 <= i,
        n <= usize::MAX,
    ensures
        forall|g: int|
            0 <= g < spec_league_rows_from(i, n).len() ==> {
                let game = #[trigger] spec_league_rows_from(i, n)[g];
                &&& game.player_guest is Some
                &&& i <= game.player_home as int
                &&& (game.player_home as int) < (game.player_guest->0 as int)
                &&& (game.player_guest->0 as int) < n
                &&& game.played == false
            },
    decreases n - i,
{
    if i < n {
        lemma_league_rows_from_wf(i + 1, n);
        assert forall|g: int| 0 <= g < spec_league_rows_from(i, n).len() implies {
            let game = #[trigger] spec_league_rows_from(i, n)[g];
            &&& game.player_guest is Some
            &&& i <= game.player_home as int
            &&& (game.player_home as int) < (game.player_guest->0 as int)
            &&& (game.player_guest->0 as int) < n
            &&& game.played == false
        } by {
            let row = spec_league_row(i, n);
            if g < row.len() {
                assert(spec_league_rows_from(i, n)[g] == row[g]);
                assert(i + 1 + g < n);
            } else {
                assert(spec_league_rows_from(i, n)[g] == spec_league_rows_from(i + 1, n)[g
                    - row.len()]);
            }
        }
    }
}

impl Tournament {
    /// Records the user's decision on the current match: marks it settled
    /// and applies the format's scoring — knockout eliminates the loser,
    /// league credits the winner, review keeps or rejects the single
    /// entrant. Without a current unsettled match this changes nothing, so
    /// a match settles at most once.
    pub fn settle_game(&mut self, side: Side)
        requires
            old(self).wf(),
        ensures
            final(self).wf(),
            final(self)@ == spec_settle_transition(old(self)@, side),
    {
        if self.current_game_index >= self.games.len() {
            return;
        }
        let game = self.games[self.current_game_index];
        if game.played {
            return;
        }
        let settled = Game {
            player_home: game.player_home,
            player_guest: game.player_guest,
            played: true,
        };
        proof {
            lemma_played_count_lt_len(self.games@, self.current_game_index as int);
            lemma_played_count_update_settle(
                self.games@,
                self.current_game_index as int,
                settled,
            );
        }
        self.games[self.current_game_index] = settled;
        match self.category {
            TournamentType::Dating => {
                match side {
                    Side::Left => {
                        let loser = game.player_home;
                        let player = self.players[loser];
                        self.players[loser] = Player {
                            path_index: player.path_index,
                            is_in: false,
                            score: player.score,
                        };
                    },
                    Side::Right => {},
                }
            },
            TournamentType::WorldCup => {
                let loser = match side {
                    Side::Left => match game.player_guest {
                        Some(j) => j,
                        None => game.player_home,
                    },
                    Side::Right => game.player_home,
                };
                let player = self.players[loser];
                self.players[loser] = Player {
                    path_index: player.path_index,
                    is_in: false,
                    score: player.score,
                };
            },
            TournamentType::League => {
                let winner = match side {
                    Side::Left => game.player_home,
                    Side::Right => match game.player_guest {
                        Some(j) => j,
                        None => game.player_home,
                    },
                };
                let player = self.players[winner];
                self.players[winner] = Player {
                    path_index: player.path_index,
                    is_in: player.is_in,
                    score: player.score + 1,
                };
            },
        }
    }

    /// Advances the cursor to the round's first unsettled game. When none
    /// remains: league and review tournaments finish; a knockout filters the
    /// entrant set to its survivors, finishes on one or no survivor, and
    /// otherwise generates the next round, coerced to a league when at most
    /// three entrants remain.
    pub fn set_next_game(&mut self)
        requires
            old(self).wf(),
        ensures
            final(self).wf(),
            final(self)@ == spec_advance_transition(old(self)@),
    {
        let round_len = self.games.len();
        let mut i: usize = 0;
        while i < round_len && self.games[i].played
            invariant
                old(self).wf(),
                *self == *old(self),
                round_len == self.games@.len(),
                i <= round_len,
                forall|j: int| 0 <= j < i ==> (#[trigger] self.games@[j]).played,
            decreases round_len - i,
        {
            i = i + 1;
        }
        proof {
            lemma_first_unplayed_found(self.games@, 0, i as int);
        }
        if i < round_len {
            self.current_game_index = i;
            return;
        }
        match self.category {
            TournamentType::WorldCup => {
                let mut survivors: Vec<Player> = Vec::new();
                let entrant_count = self.players.len();
                let mut k: usize = 0;
                while k < entrant_count
                    invariant
                        old(self).wf(),
                        old(self)@.category is WorldCup,
                        *self == *old(self),
                        entrant_count == self.players@.len(),
                        k <= entrant_count,
                        survivors@ == spec_survivors(self.players@.take(k as int)),
                        forall|m: int|
                            0 <= m < survivors@.len() ==> (#[trigger] survivors@[m]).path_index
                                < self.paths@.len() && survivors@[m].score == 0,
                    decreases entrant_count - k,
                {
                    let player = self.players[k];
                    proof {
                        assert(old(self)@.players[k as int].path_index < old(self)@.paths.len());
                        assert(old(self)@.players[k as int].score == 0);
                        self.players@.take(k as int).lemma_filter_push(
                            player,
                            |p: Player| p.is_in,
                        );
                        assert(self.players@.take(k + 1) =~= self.players@.take(k as int).push(
                            player,
                        ));
                    }
                    if player.is_in {
                        survivors.push(player);
                    }
                    k = k + 1;
                }
                proof {
                    assert(self.players@.take(entrant_count as int) =~= self.players@);
                }
                let ghost survivor_seq = survivors@;
                self.players = survivors;
                proof {
                    assert forall|m: int| 0 <= m < self@.players.len() implies (#[trigger] self@.players[m]).path_index
                        < self@.paths.len() && self@.players[m].score == 0 by {
                        assert(self@.players[m] == survivor_seq[m]);
                    }
                }
                if self.players.len() <= 1 {
                    self.games = Vec::new();
                    self.current_game_index = 0;
                    self.done = true;
                } else {
                    if self.players.len() <= 3 {
                        self.category = TournamentType::League;
                    }
                    self.done = false;
                    self.generate_round();
                }
            },
            TournamentType::League => {
                self.done = true;
            },
            TournamentType::Dating => {
                self.done = true;
            },
        }
    }

    /// Handles one user action: records the decision on the current match,
    /// then advances the cursor and, if the round is over, the round.
    pub fn handle_key_press(&mut self, side: Side)
        requires
            old(self).wf(),
        ensures
            final(self).wf(),
            final(self)@ == spec_advance_transition(
                spec_settle_transition(old(self)@, side),
            ),
    {
        self.settle_game(side);
        self.set_next_game();
    }
}

/// A round never has more settled games than games.
proof fn lemma_played_count_le_len(games: Seq<Game>)
    ensures
        0 <= spec_played_count(games) <= games.len(),
    decreases games.len(),
{
    if games.len() > 0 {
        lemma_played_count_le_len(games.drop_last());
    }
}

/// A round with an unsettled game has strictly fewer settled games than
/// games.
proof fn lemma_played_count_lt_len(games: Seq<Game>, i: int)
    requires
        0 <= i < games.len(),
        !games[i].played,
    ensures
        spec_played_count(games) < games.len(),
    decreases games.len(),
{
    lemma_played_count_le_len(games.drop_last());
    if i < games.len() - 1 {
        lemma_played_count_lt_len(games.drop_last(), i);
    }
}

/// Settling one unsettled game raises the settled count by exactly one.
proof fn lemma_played_count_update_settle(games: Seq<Game>, i: int, game: Game)
    requires
        0 <= i < games.len(),
        !games[i].played,
        game.played,
    ensures
        spec_played_count(games.update(i, game)) == spec_played_count(games) + 1,
    decreases games.len(),
{
    let updated = games.update(i, game);
    if i == games.len() - 1 {
        assert(updated.drop_last() =~= games.drop_last());
        assert(updated.last() == game);
    } else {
        lemma_played_count_update_settle(games.drop_last(), i, game);
        assert(updated.drop_last() =~= games.drop_last().update(i, game));
        assert(updated.last() == games.last());
    }
}

/// A scan that skips settled games from position `k` and stops at `i`
/// computes the first unsettled position.
proof fn lemma_first_unplayed_found(games: Seq<Game>, k: int, i: int)
    requires
        0 <= k <= i <= games.len(),
        forall|j: int| k <= j < i ==> (#[trigger] games[j]).played,
        i < games.len() ==> !games[i].played,
    ensures
        spec_first_unplayed_from(games, k) == i,
    decreases i - k,
{
    if k < i {
        lemma_first_unplayed_found(games, k + 1, i);
    }
}

/// The position of the match (`a`, `b`) within the league rows from `i`:
/// the rows of earlier home entrants in full, then the guests before `b` in
/// row `a`.
pub open spec fn spec_league_offset(i: int, n: int, a: int, b: int) -> int
    decreases a - i,
{
    if i >= a {
        b - a - 1
    } else {
        (n - i - 1) + spec_league_offset(i + 1, n, a, b)
    }
}

/// Twice the number of games in the league rows from `i` is
/// (n - i) * (n - i - 1).
proof fn lemma_league_rows_len(i: int, n: int)
    requires
        0 <= i,
    ensures
        2 * spec_league_rows_from(i, n).len() == if i <= n {
            (n - i) * (n - i - 1)
        } else {
            0int
        },
    decreases n - i,
{
    if i >= n {
        if i <= n {
            assert((n - i) * (n - i - 1) == 0) by (nonlinear_arith)
                requires
                    i == n,
            ;
        }
    } else {
        lemma_league_rows_len(i + 1, n);
        assert(spec_league_rows_from(i, n).len() == (n - i - 1) + spec_league_rows_from(
            i + 1,
            n,
        ).len() as int);
        assert(2 * ((n - i - 1) + spec_league_rows_from(i + 1, n).len() as int) == (n - i) * (n
            - i - 1)) by (nonlinear_arith)
            requires
                2 * spec_league_rows_from(i + 1, n).len() as int == (n - i - 1) * (n - i - 2),
                i < n,
        ;
    }
}

/// Law: a league (round-robin) round over `n` entrants holds exactly
/// `n * (n - 1) / 2` matches.
pub proof fn lemma_league_match_count(n: int)
    requires
        0 <= n,
    ensures
        spec_league_games(n).len() == n * (n - 1) / 2,
{
    lemma_league_rows_len(0, n);
    vstd::arithmetic::div_mod::lemma_div_multiples_vanish(
        spec_league_games(n).len() as int,
        2,
    );
}

/// Every position of the league rows from `i` holds the match of one pair
/// `(a, b)` with `i <= a < b < n`, standing exactly at that pair's offset.
proof fn lemma_league_rows_characterize(i: int, n: int, g: int)
    requires
        0 <= i,
        n <= usize::MAX,
        0 <= g < spec_league_rows_from(i, n).len(),
    ensures
        ({
            let game = spec_league_rows_from(i, n)[g];
            &&& game.player_guest is Some
            &&& i <= game.player_home as int
            &&& (game.player_home as int) < (game.player_guest->0 as int)
            &&& (game.player_guest->0 as int) < n
            &&& !game.played
            &&& g == spec_league_offset(
                i,
                n,
                game.player_home as int,
                game.player_guest->0 as int,
            )
        }),
    decreases n - i,
{
    let row = spec_league_row(i, n);
    if g < row.len() {
        assert(spec_league_rows_from(i, n)[g] == row[g]);
        assert(i + 1 + g < n);
    } else {
        lemma_league_rows_characterize(i + 1, n, g - row.len());
        assert(spec_league_rows_from(i, n)[g] == spec_league_rows_from(i + 1, n)[g - row.len()]);
    }
}

/// The match of the pair `(a, b)` stands in the league rows from `i` at the
/// pair's offset.
proof fn lemma_league_rows_pair_found(i: int, n: int, a: int, b: int)
    requires
        0 <= i <= a < b < n,
        n <= usize::MAX,
    ensures
        ({
            let g = spec_league_offset(i, n, a, b);
            &&& 0 <= g < spec_league_rows_from(i, n).len()
            &&& spec_league_rows_from(i, n)[g] == (Game {
                player_home: a as usize,
                player_guest: Some(b as usize),
                played: false,
            })
        }),
    decreases a - i,
{
    let row = spec_league_row(i, n);
    if i == a {
        assert(spec_league_rows_from(i, n)[b - a - 1] == row[b - a - 1]);
    } else {
        lemma_league_rows_pair_found(i + 1, n, a, b);
        let g = spec_league_offset(i, n, a, b);
        assert(spec_league_rows_from(i, n)[g] == spec_league_rows_from(i + 1, n)[g - row.len()]);
    }
}

/// Law: a league round over `n` entrants schedules every unordered pair of
/// entrants exactly once — the pair `(a, b)` stands at its offset, unsettled
/// and with the lower index as home, and at no other position.
pub proof fn lemma_league_each_pair_once(n: int, a: int, b: int)
    requires
        0 <= a < b < n,
        n <= usize::MAX,
    ensures
        ({
            let g = spec_league_offset(0, n, a, b);
            &&& 0 <= g < spec_league_games(n).len()
            &&& spec_league_games(n)[g] == (Game {
                player_home: a as usize,
                player_guest: Some(b as usize),
                played: false,
            })
            &&& forall|h: int|
                0 <= h < spec_league_games(n).len() && (#[trigger] spec_league_games(
                    n,
                )[h]).player_home == a as usize && spec_league_games(n)[h].player_guest == Some(
                    b as usize,
                ) ==> h == g
        }),
{
    lemma_league_rows_pair_found(0, n, a, b);
    let g = spec_league_offset(0, n, a, b);
    assert forall|h: int|
        0 <= h < spec_league_games(n).len() && (#[trigger] spec_league_games(n)[h]).player_home
            == a as usize && spec_league_games(n)[h].player_guest == Some(
            b as usize,
        ) implies h == g by {
        lemma_league_rows_characterize(0, n, h);
    }
}

/// Law: a knockout round pairs consecutive entrants two at a time — its
/// match `k` is (2k, 2k+1), unsettled — and when the entrant count is odd
/// the last entrant stands in no match at all, so the round leaves its
/// survival flag untouched and it carries to the next round.
pub proof fn lemma_knockout_pairing(n: int)
    requires
        0 <= n <= usize::MAX,
    ensures
        spec_knockout_games(n).len() == n / 2,
        forall|k: int|
            0 <= k < n / 2 ==> #[trigger] spec_knockout_games(n)[k] == (Game {
                player_home: (2 * k) as usize,
                player_guest: Some((2 * k + 1) as usize),
                played: false,
            }),
        n % 2 == 1 ==> forall|k: int|
            0 <= k < n / 2 ==> (#[trigger] spec_knockout_games(n)[k]).player_home as int != n - 1
                && spec_knockout_games(n)[k].player_guest != Some((n - 1) as usize),
{
    vstd::arithmetic::div_mod::lemma_fundamental_div_mod(n, 2);
    assert forall|k: int| 0 <= k < n / 2 implies (#[trigger] spec_knockout_games(
        n,
    )[k]).player_home as int == 2 * k && spec_knockout_games(n)[k].player_guest == Some(
        (2 * k + 1) as usize,
    ) by {
        assert(2 * k + 1 < n);
    }
    if n % 2 == 1 {
        assert forall|k: int| 0 <= k < n / 2 implies (#[trigger] spec_knockout_games(
            n,
        )[k]).player_home as int != n - 1 && spec_knockout_games(n)[k].player_guest != Some(
            (n - 1) as usize,
        ) by {
            assert(2 * k + 1 <= n - 2);
            assert(((2 * k + 1) as usize) as int == 2 * k + 1);
            assert(((n - 1) as usize) as int == n - 1);
        }
    }
}

/// Law: a single-review round over `n` entrants holds exactly one
/// single-entrant match per entrant, in entrant order.
pub proof fn lemma_review_round(n: int)
    requires
        0 <= n <= usize::MAX,
    ensures
        spec_round_games(TournamentType::Dating, n).len() == n,
        forall|i: int|
            0 <= i < n ==> #[trigger] spec_round_games(TournamentType::Dating, n)[i] == (Game {
                player_home: i as usize,
                player_guest: None,
                played: false,
            }),
{
}

/// Law: a match settles at most once — recording a second decision on the
/// same match, whichever side it picks, changes nothing beyond the first.
pub proof fn lemma_settle_at_most_once(v: TournamentView, first: Side, second: Side)
    ensures
        spec_settle_transition(spec_settle_transition(v, first), second) == spec_settle_transition(
            v,
            first,
        ),
{
    let settled = spec_settle_transition(v, first);
    if 0 <= v.current < v.games.len() && !v.games[v.current].played {
        assert(settled.games[settled.current].played);
    }
}

/// Law: when a knockout round completes, the format is coerced to a league
/// exactly when the post-filter survivor count is at most three (and at
/// least two — fewer finish the tournament), and the coerced league round
/// holds one match per surviving pair, `s * (s - 1) / 2` in all; above
/// three survivors the knockout goes on with one match per surviving pair
/// of neighbours.
pub proof fn lemma_knockout_coercion(v: TournamentView)
    requires
        v.category is WorldCup,
        spec_first_unplayed_from(v.games, 0) == v.games.len(),
    ensures
        ({
            let next = spec_advance_transition(v);
            let s = spec_survivors(v.players).len() as int;
            &&& (2 <= s <= 3 ==> next.category is League && next.games.len() == s * (s - 1) / 2)
            &&& (s > 3 ==> next.category is WorldCup && next.games.len() == s / 2)
            &&& (s <= 1 ==> next.done)
        }),
{
    let s = spec_survivors(v.players).len() as int;
    if 2 <= s && s <= 3 {
        lemma_league_match_count(s);
    }
}

/// Law: a knockout reduced to exactly one survivor finishes at once, with
/// no further match generated; reduced to exactly two survivors, one more
/// round of exactly one match is generated.
pub proof fn lemma_knockout_termination(v: TournamentView)
    requires
        v.category is WorldCup,
        spec_first_unplayed_from(v.games, 0) == v.games.len(),
    ensures
        ({
            let next = spec_advance_transition(v);
            let s = spec_survivors(v.players).len() as int;
            &&& (s == 1 ==> next.done && next.games.len() == 0)
            &&& (s == 2 ==> !next.done && next.category is League && next.games.len() == 1)
        }),
{
    let s = spec_survivors(v.players).len() as int;
    if s == 2 {
        lemma_league_match_count(2);
    }
}

impl Tournament {
    /// The source index of the current match's home entrant.
    pub fn get_player_home_index(&self) -> (path_index: usize)
        requires
            self.wf(),
            self@.current < self@.games.len(),
        ensures
            path_index == self@.players[self@.games[self@.current].player_home as int].path_index,
            path_index < self@.paths.len(),
    {
        self.players[self.games[self.current_game_index].player_home].path_index
    }

    /// The source index of the current match's guest entrant.
    pub fn get_player_guest_index(&self) -> (path_index: usize)
        requires
            self.wf(),
            self@.current < self@.games.len(),
            self@.games[self@.current].player_guest is Some,
        ensures
            path_index == self@.players[self@.games[self@.current].player_guest->0 as int].path_index,
            path_index < self@.paths.len(),
    {
        self.players[self.games[self.current_game_index].player_guest.unwrap()].path_index
    }

    /// The match at the round cursor, or `RoundExhausted` when the cursor
    /// has no unsettled match left.
    pub fn current_game(&self) -> (game: Result<Game, TournamentError>)
        ensures
            (game is Ok) <==> (self@.current < self@.games.len()
                && !self@.games[self@.current].played),
            game is Ok ==> game->Ok_0 == self@.games[self@.current],
            game is Err ==> game->Err_0 is RoundExhausted,
    {
        if self.current_game_index < self.games.len() {
            let game = self.games[self.current_game_index];
            if !game.played {
                return Ok(game);
            }
        }
        Err(TournamentError::RoundExhausted)
    }

    /// Whether no further round can be generated.
    pub fn is_finished(&self) -> (finished: bool)
        ensures
            finished == self@.done,
    {
        self.done
    }

    /// The final standings: each entrant's source index, score and survival
    /// flag, in entrant order.
    pub fn ranking_snapshot(&self) -> (ranking: Vec<(usize, usize, bool)>)
        ensures
            ranking@.len() == self@.players.len(),
            forall|k: int|
                0 <= k < ranking@.len() ==> ranking@[k] == ((#[trigger] self@.players[k]).path_index,
                self@.players[k].score, self@.players[k].is_in),
    {
        let mut ranking: Vec<(usize, usize, bool)> = Vec::new();
        let mut k: usize = 0;
        while k < self.players.len()
            invariant
                k <= self.players@.len(),
                ranking@.len() == k,
                forall|m: int|
                    0 <= m < k ==> ranking@[m] == ((#[trigger] self.players@[m]).path_index,
                    self.players@[m].score, self.players@[m].is_in),
            decreases self.players@.len() - k,
        {
            let player = self.players[k];
            ranking.push((player.path_index, player.score, player.is_in));
            k = k + 1;
        }
        ranking
    }

    /// Composes the framebuffer for the current match from its entrants'
    /// decoded rasters: the single-image view for a single-entrant match,
    /// the side-by-side view for a two-entrant match. The caller supplies a
    /// guest raster exactly when the current match has a guest, and fails
    /// with `RoundExhausted` when no unsettled current match exists.
    pub fn get_current_buffer(&self, raster_home: &Raster, raster_guest: Option<&Raster>) -> (framebuffer: Result<
        Buffer,
        TournamentError,
    >)
        requires
            raster_home.wf(),
            1 <= raster_home.width,
            1 <= raster_home.height,
            match raster_guest {
                Some(guest) => guest.wf() && 1 <= guest.width && 1 <= guest.height
                    && spec_fits_slot_view(*raster_home) && spec_fits_slot_view(*guest),
                None => spec_fits_single_view(*raster_home),
            },
            self@.current < self@.games.len() && !self@.games[self@.current].played ==> ((
            raster_guest is Some) <==> (self@.games[self@.current].player_guest is Some)),
        ensures
            (framebuffer is Ok) <==> (self@.current < self@.games.len()
                && !self@.games[self@.current].played),
            framebuffer is Err ==> framebuffer->Err_0 is RoundExhausted,
            framebuffer is Ok ==> {
                let fb = framebuffer->Ok_0;
                &&& fb.wf()
                &&& fb.width == BUFFER_WIDTH
                &&& fb.height == BUFFER_HEIGHT
                &&& match raster_guest {
                    None => forall|row: int, column: int|
                        0 <= row < BUFFER_HEIGHT && 0 <= column < BUFFER_WIDTH
                            ==> fb.bytes@[row * BUFFER_WIDTH + column] == spec_combined_pixel(
                            seq![spec_single_view_pixel(*raster_home, row, column)],
                        ),
                    Some(guest) => forall|row: int, column: int|
                        0 <= row < BUFFER_HEIGHT && 0 <= column < BUFFER_WIDTH
                            ==> fb.bytes@[row * BUFFER_WIDTH + column] == spec_combined_pixel(
                            seq![
                                spec_slot_view_pixel(*raster_home, MARGIN as int, row, column),
                                spec_slot_view_pixel(
                                    *guest,
                                    (MARGIN * 2 + IMG_WIDTH) as int,
                                    row,
                                    column,
                                ),
                            ],
                        ),
                }
            },
    {
        if self.current_game_index >= self.games.len() {
            return Err(TournamentError::RoundExhausted);
        }
        let game = self.games[self.current_game_index];
        if game.played {
            return Err(TournamentError::RoundExhausted);
        }
        match raster_guest {
            None => Ok(buffer_from_image(raster_home)),
            Some(guest) => Ok(buffer_from_two_images(raster_home, guest)),
        }
    }
}

/// A round of freshly generated games has no settled game.
proof fn lemma_played_count_all_unplayed(games: Seq<Game>)
    requires
        forall|g: int| 0 <= g < games.len() ==> !(#[trigger] games[g]).played,
    ensures
        spec_played_count(games) == 0,
    decreases games.len(),
{
    if games.len() > 0 {
        lemma_played_count_all_unplayed(games.drop_last());
    }
}

} // verus!
