use uwufufu::raster::Raster;
use uwufufu::tournament::{Side, Tournament, TournamentError, TournamentType};

fn paths(n: usize) -> Vec<String> {
    (0..n).map(|i| format!("image-{i}.png")).collect()
}

#[test]
fn construction_fails_without_entrants() {
    let result = Tournament::new(Vec::new(), TournamentType::WorldCup);
    assert!(matches!(result, Err(TournamentError::NoEntrants)));
}

#[test]
fn construction_builds_one_player_per_source() {
    let tournament = Tournament::new(paths(4), TournamentType::League).unwrap();
    assert_eq!(tournament.players.len(), 4);
    for (i, player) in tournament.players.iter().enumerate() {
        assert_eq!(player.path_index, i);
        assert!(player.is_in);
        assert_eq!(player.score, 0);
    }
    assert!(!tournament.done);
    assert_eq!(tournament.current_game_index, 0);
}

#[test]
fn knockout_round_pairs_consecutive_entrants() {
    let tournament = Tournament::new(paths(4), TournamentType::WorldCup).unwrap();
    assert_eq!(tournament.games.len(), 2);
    assert_eq!(tournament.games[0].player_home, 0);
    assert_eq!(tournament.games[0].player_guest, Some(1));
    assert_eq!(tournament.games[1].player_home, 2);
    assert_eq!(tournament.games[1].player_guest, Some(3));
    assert!(tournament.games.iter().all(|g| !g.played));
}

#[test]
fn knockout_odd_entrant_gets_bye_and_carries_over() {
    // Five entrants A..E: matches (A,B) and (C,D); E stands in no match and
    // automatically appears in the next round's active set.
    let mut tournament = Tournament::new(paths(5), TournamentType::WorldCup).unwrap();
    assert_eq!(tournament.games.len(), 2);
    assert_eq!(tournament.games[0].player_home, 0);
    assert_eq!(tournament.games[0].player_guest, Some(1));
    assert_eq!(tournament.games[1].player_home, 2);
    assert_eq!(tournament.games[1].player_guest, Some(3));
    assert!(tournament.games.iter().all(|g| g.player_home != 4 && g.player_guest != Some(4)));

    // A beats B, C beats D: survivors are A, C and the bye entrant E.
    tournament.handle_key_press(Side::Left);
    tournament.handle_key_press(Side::Left);
    assert!(!tournament.done);
    let survivors: Vec<usize> = tournament.players.iter().map(|p| p.path_index).collect();
    assert_eq!(survivors, vec![0, 2, 4]);
}

#[test]
fn league_round_holds_every_pair_once() {
    let tournament = Tournament::new(paths(4), TournamentType::League).unwrap();
    assert_eq!(tournament.games.len(), 6);
    let expected = [(0, 1), (0, 2), (0, 3), (1, 2), (1, 3), (2, 3)];
    for (game, (home, guest)) in tournament.games.iter().zip(expected.iter()) {
        assert_eq!(game.player_home, *home);
        assert_eq!(game.player_guest, Some(*guest));
        assert!(!game.played);
    }
}

#[test]
fn review_round_holds_one_single_match_per_entrant() {
    let tournament = Tournament::new(paths(3), TournamentType::Dating).unwrap();
    assert_eq!(tournament.games.len(), 3);
    for (i, game) in tournament.games.iter().enumerate() {
        assert_eq!(game.player_home, i);
        assert_eq!(game.player_guest, None);
        assert!(!game.played);
    }
}

#[test]
fn knockout_left_eliminates_guest() {
    let mut tournament = Tournament::new(paths(2), TournamentType::WorldCup).unwrap();
    tournament.settle_game(Side::Left);
    assert!(tournament.players[0].is_in);
    assert!(!tournament.players[1].is_in);
    assert!(tournament.games[0].played);
}

#[test]
fn knockout_right_eliminates_home() {
    let mut tournament = Tournament::new(paths(2), TournamentType::WorldCup).unwrap();
    tournament.settle_game(Side::Right);
    assert!(!tournament.players[0].is_in);
    assert!(tournament.players[1].is_in);
}

#[test]
fn league_left_credits_home_and_right_credits_guest() {
    let mut tournament = Tournament::new(paths(3), TournamentType::League).unwrap();
    // Game (0,1): Left credits the home entrant 0.
    tournament.handle_key_press(Side::Left);
    // Game (0,2): Right credits the guest entrant 2.
    tournament.handle_key_press(Side::Right);
    let scores: Vec<usize> = tournament.players.iter().map(|p| p.score).collect();
    assert_eq!(scores, vec![1, 0, 1]);
    // No elimination in a league.
    assert!(tournament.players.iter().all(|p| p.is_in));
}

#[test]
fn review_left_rejects_and_right_keeps() {
    let mut tournament = Tournament::new(paths(2), TournamentType::Dating).unwrap();
    tournament.handle_key_press(Side::Left);
    tournament.handle_key_press(Side::Right);
    assert!(!tournament.players[0].is_in);
    assert!(tournament.players[1].is_in);
    assert!(tournament.done);
}

#[test]
fn a_match_settles_at_most_once() {
    let mut tournament = Tournament::new(paths(2), TournamentType::League).unwrap();
    tournament.settle_game(Side::Left);
    let scores_after_first: Vec<usize> = tournament.players.iter().map(|p| p.score).collect();
    assert_eq!(scores_after_first, vec![1, 0]);
    // The second decision on the same match changes nothing, whichever side
    // it picks.
    tournament.settle_game(Side::Left);
    tournament.settle_game(Side::Right);
    let scores_after_more: Vec<usize> = tournament.players.iter().map(|p| p.score).collect();
    assert_eq!(scores_after_more, vec![1, 0]);
    assert!(tournament.games[0].played);
}

#[test]
fn knockout_coerces_to_league_at_three_survivors() {
    let mut tournament = Tournament::new(paths(6), TournamentType::WorldCup).unwrap();
    assert_eq!(tournament.games.len(), 3);
    tournament.handle_key_press(Side::Left);
    tournament.handle_key_press(Side::Left);
    tournament.handle_key_press(Side::Left);
    // Three survivors: the format is coerced to a league of C(3,2) matches.
    assert!(matches!(tournament.category, TournamentType::League));
    assert_eq!(tournament.players.len(), 3);
    assert_eq!(tournament.games.len(), 3);
    assert!(!tournament.done);
}

#[test]
fn knockout_with_four_does_not_coerce_at_first() {
    let tournament = Tournament::new(paths(4), TournamentType::WorldCup).unwrap();
    assert!(matches!(tournament.category, TournamentType::WorldCup));
    let mut tournament = tournament;
    tournament.handle_key_press(Side::Left);
    tournament.handle_key_press(Side::Left);
    // Two survivors: one more round of exactly one match, played as a
    // league.
    assert_eq!(tournament.players.len(), 2);
    assert_eq!(tournament.games.len(), 1);
    assert!(matches!(tournament.category, TournamentType::League));
    assert!(!tournament.done);
    // Settling it finishes the tournament.
    tournament.handle_key_press(Side::Left);
    assert!(tournament.done);
    assert!(tournament.is_finished());
}

#[test]
fn knockout_single_survivor_finishes_without_a_new_round() {
    let mut tournament = Tournament::new(paths(2), TournamentType::WorldCup).unwrap();
    tournament.handle_key_press(Side::Left);
    assert!(tournament.done);
    assert_eq!(tournament.players.len(), 1);
    assert_eq!(tournament.players[0].path_index, 0);
    assert_eq!(tournament.games.len(), 0);
}

#[test]
fn single_entrant_league_starts_finished() {
    let tournament = Tournament::new(paths(1), TournamentType::League).unwrap();
    assert!(tournament.done);
    assert_eq!(tournament.games.len(), 0);
}

#[test]
fn current_game_reports_exhaustion() {
    let mut tournament = Tournament::new(paths(2), TournamentType::League).unwrap();
    assert!(tournament.current_game().is_ok());
    tournament.settle_game(Side::Left);
    assert!(matches!(tournament.current_game(), Err(TournamentError::RoundExhausted)));
}

#[test]
fn getters_follow_the_cursor() {
    let mut tournament = Tournament::new(paths(3), TournamentType::League).unwrap();
    assert_eq!(tournament.get_player_home_index(), 0);
    assert_eq!(tournament.get_player_guest_index(), 1);
    tournament.handle_key_press(Side::Left);
    assert_eq!(tournament.get_player_home_index(), 0);
    assert_eq!(tournament.get_player_guest_index(), 2);
}

#[test]
fn ranking_snapshot_reports_all_entrants() {
    let mut tournament = Tournament::new(paths(2), TournamentType::League).unwrap();
    tournament.handle_key_press(Side::Right);
    let ranking = tournament.ranking_snapshot();
    assert_eq!(ranking, vec![(0, 0, true), (1, 1, true)]);
}

#[test]
fn current_buffer_single_and_pair_views() {
    let red = Raster { pixels: vec![0xffff_0000], width: 1, height: 1 };
    let blue = Raster { pixels: vec![0xff00_00ff], width: 1, height: 1 };

    let review = Tournament::new(paths(1), TournamentType::Dating).unwrap();
    let framebuffer = review.get_current_buffer(&red, None).unwrap();
    assert_eq!(framebuffer.bytes[(15 * 1000 + 15) as usize], 0xffff_0000);

    let league = Tournament::new(paths(2), TournamentType::League).unwrap();
    let framebuffer = league.get_current_buffer(&red, Some(&blue)).unwrap();
    assert_eq!(framebuffer.bytes[(15 * 1000 + 15) as usize], 0xffff_0000);
    assert_eq!(framebuffer.bytes[(15 * 1000 + 2 * 15 + 477) as usize], 0xff00_00ff);
}

#[test]
fn current_buffer_fails_when_round_is_exhausted() {
    let red = Raster { pixels: vec![0xffff_0000], width: 1, height: 1 };
    let mut review = Tournament::new(paths(1), TournamentType::Dating).unwrap();
    review.settle_game(Side::Right);
    assert!(matches!(
        review.get_current_buffer(&red, None),
        Err(TournamentError::RoundExhausted)
    ));
}

#[test]
fn five_entrant_knockout_runs_to_a_champion() {
    let mut tournament = Tournament::new(paths(5), TournamentType::WorldCup).unwrap();
    // Round one: A beats B, C beats D, E has the bye.
    tournament.handle_key_press(Side::Left);
    tournament.handle_key_press(Side::Left);
    // Three survivors coerce to a league: (A,C), (A,E), (C,E).
    assert!(matches!(tournament.category, TournamentType::League));
    assert_eq!(tournament.games.len(), 3);
    // A beats C, A beats E, C beats E.
    tournament.handle_key_press(Side::Left);
    tournament.handle_key_press(Side::Left);
    tournament.handle_key_press(Side::Left);
    assert!(tournament.is_finished());
    let ranking = tournament.ranking_snapshot();
    assert_eq!(ranking, vec![(0, 2, true), (2, 1, true), (4, 0, true)]);
}
