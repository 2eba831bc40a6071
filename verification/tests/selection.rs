use foretold::board::{Coord, Team};
use foretold::game::{Board, Checker};
use foretold::playing::{EndGameEvent, Game, Played, SelectedCheckerEvent};
use foretold::selection::{
    can_side_act, check_player_loss, enable_valid_spaces, selecting, PickingEvent, Selecting,
};
use foretold::turn::Turn;

fn c(x: i32, y: i32) -> Coord {
    Coord::new(x, y)
}

fn piece(team: Team, x: i32, y: i32) -> Checker {
    Checker { team, pos: c(x, y), alive: true, king: false }
}

fn game_with(pieces: Vec<Checker>, turn: Turn) -> Game {
    let mut game = Game::new();
    game.board = Board::from_checkers(&pieces).unwrap();
    game.turn = turn;
    game
}

fn valid_places(game: &Game) -> Vec<Coord> {
    let mut valid = Vec::new();
    for y in 0..8 {
        for x in 0..8 {
            if game.places.get(c(x, y)).valid {
                valid.push(c(x, y));
            }
        }
    }
    valid
}

const NOTHING: Selecting = Selecting { picked: None, played: None, end_game: None };

#[test]
fn red_loses_with_every_piece_blocked() {
    let mut game = game_with(
        vec![piece(Team::Red, 0, 0), piece(Team::Black, 1, 1), piece(Team::Black, 2, 2)],
        Turn::BlackForesight,
    );
    assert!(!can_side_act(&game.board, Team::Red));
    assert_eq!(check_player_loss(&game.board, &mut game.turn), Some(EndGameEvent(Team::Black)));
    assert_eq!(game.turn, Turn::PostGame);
}

#[test]
fn red_loses_at_the_far_edge() {
    let mut game = game_with(vec![piece(Team::Red, 3, 7), piece(Team::Black, 5, 5)], Turn::RedCorrection);
    assert_eq!(check_player_loss(&game.board, &mut game.turn), Some(EndGameEvent(Team::Black)));
    assert_eq!(game.turn, Turn::PostGame);
}

#[test]
fn red_loses_without_pieces() {
    let mut game = game_with(vec![piece(Team::Black, 5, 5)], Turn::BlackForesight);
    assert_eq!(check_player_loss(&game.board, &mut game.turn), Some(EndGameEvent(Team::Black)));
}

#[test]
fn red_plays_on_with_a_plain_move() {
    let mut game = game_with(vec![piece(Team::Red, 0, 0), piece(Team::Black, 7, 7)], Turn::BlackForesight);
    assert_eq!(check_player_loss(&game.board, &mut game.turn), None);
    assert_eq!(game.turn, Turn::BlackForesight);
}

#[test]
fn red_plays_on_with_a_capture_only() {
    let mut game = game_with(
        vec![piece(Team::Red, 0, 0), piece(Team::Black, 1, 1)],
        Turn::BlackForesight,
    );
    assert!(game.board.map().get_available_moves(c(0, 0), Team::Red, false).is_empty());
    assert_eq!(check_player_loss(&game.board, &mut game.turn), None);
    assert_eq!(game.turn, Turn::BlackForesight);
}

#[test]
fn loss_is_checked_only_while_red_chooses() {
    for turn in [Turn::PreGame, Turn::Black, Turn::Red, Turn::PostGame] {
        let mut game = game_with(vec![piece(Team::Red, 3, 7)], turn);
        assert_eq!(check_player_loss(&game.board, &mut game.turn), None);
        assert_eq!(game.turn, turn);
    }
}

#[test]
fn both_sides_can_act_at_the_start() {
    let game = Game::new();
    assert!(can_side_act(&game.board, Team::Red));
    assert!(can_side_act(&game.board, Team::Black));
}

#[test]
fn plain_moves_are_offered() {
    let mut game = Game::new();
    game.turn = Turn::BlackForesight;
    enable_valid_spaces(&mut game, SelectedCheckerEvent(19));
    assert_eq!(game.board.checkers()[19].pos, c(2, 2));
    assert_eq!(valid_places(&game), vec![c(1, 3), c(3, 3)]);
    assert_eq!(game.places.get(c(1, 3)).jumps, vec![c(1, 3)]);
    assert!(game.places.get(c(1, 3)).jumped.is_empty());
    assert_eq!(game.places.get(c(3, 3)).jumps, vec![c(3, 3)]);
    assert_eq!(game.header.0, "");
}

#[test]
fn a_piece_without_moves_is_offered_nothing() {
    let mut game = Game::new();
    enable_valid_spaces(&mut game, SelectedCheckerEvent(1));
    assert_eq!(game.board.checkers()[1].pos, c(0, 0));
    assert!(valid_places(&game).is_empty());
    assert_eq!(game.header.0, "");
}

#[test]
fn a_new_selection_replaces_the_old_offers() {
    let mut game = Game::new();
    enable_valid_spaces(&mut game, SelectedCheckerEvent(19));
    enable_valid_spaces(&mut game, SelectedCheckerEvent(23));
    assert_eq!(game.board.checkers()[23].pos, c(6, 2));
    assert_eq!(valid_places(&game), vec![c(5, 3), c(7, 3)]);
    assert!(game.places.get(c(1, 3)).jumps.is_empty());
}

#[test]
fn black_and_captured_and_unknown_pieces_are_offered_nothing() {
    let mut game = game_with(
        vec![
            piece(Team::Black, 5, 5),
            Checker { team: Team::Red, pos: c(2, 2), alive: false, king: false },
            piece(Team::Red, 1, 1),
        ],
        Turn::BlackForesight,
    );
    for id in [0, 1, 3, 99] {
        enable_valid_spaces(&mut game, SelectedCheckerEvent(2));
        assert!(!valid_places(&game).is_empty());
        enable_valid_spaces(&mut game, SelectedCheckerEvent(id));
        assert!(valid_places(&game).is_empty());
        assert_eq!(game.header.0, "");
    }
}

#[test]
fn only_jumps_are_offered_to_a_piece_that_can_capture() {
    let mut game = game_with(
        vec![piece(Team::Red, 2, 2), piece(Team::Black, 3, 3), piece(Team::Red, 6, 0)],
        Turn::BlackForesight,
    );
    enable_valid_spaces(&mut game, SelectedCheckerEvent(0));
    assert_eq!(valid_places(&game), vec![c(4, 4)]);
    assert_eq!(game.places.get(c(4, 4)).jumped, vec![c(3, 3)]);
    assert_eq!(game.places.get(c(4, 4)).jumps, vec![c(4, 4)]);
    assert!(!game.places.get(c(1, 3)).valid);
    assert_eq!(game.header.0, "");
}

#[test]
fn nothing_is_offered_to_a_piece_that_must_leave_the_capture_to_another() {
    let mut game = game_with(
        vec![piece(Team::Red, 2, 2), piece(Team::Black, 3, 3), piece(Team::Red, 6, 0)],
        Turn::BlackForesight,
    );
    enable_valid_spaces(&mut game, SelectedCheckerEvent(2));
    assert!(valid_places(&game).is_empty());
    assert_eq!(game.header.0, "You must take any available jumps");
    assert!(!game.board.map().get_available_moves(c(6, 0), Team::Red, false).is_empty());
}

#[test]
fn a_chain_is_offered_at_its_last_cell() {
    let mut game = game_with(
        vec![piece(Team::Red, 1, 1), piece(Team::Black, 2, 2), piece(Team::Black, 4, 4)],
        Turn::BlackForesight,
    );
    enable_valid_spaces(&mut game, SelectedCheckerEvent(0));
    assert_eq!(valid_places(&game), vec![c(5, 5)]);
    assert_eq!(game.places.get(c(5, 5)).jumped, vec![c(2, 2), c(4, 4)]);
    assert_eq!(game.places.get(c(5, 5)).jumps, vec![c(3, 3), c(5, 5)]);
}

#[test]
fn the_later_of_two_chains_to_a_cell_is_offered() {
    let mut game = game_with(
        vec![
            Checker { team: Team::Red, pos: c(1, 3), alive: true, king: true },
            piece(Team::Black, 2, 4),
            piece(Team::Black, 4, 4),
            piece(Team::Black, 4, 2),
            piece(Team::Black, 2, 2),
        ],
        Turn::BlackForesight,
    );
    enable_valid_spaces(&mut game, SelectedCheckerEvent(0));
    assert_eq!(valid_places(&game), vec![c(5, 3)]);
    assert_eq!(game.places.get(c(5, 3)).jumped, vec![c(2, 2), c(4, 2)]);
    assert_eq!(game.places.get(c(5, 3)).jumps, vec![c(3, 1), c(5, 3)]);
}

#[test]
fn picking_up_a_piece_is_reported() {
    let mut game = Game::new();
    game.turn = Turn::BlackForesight;
    let out = selecting(&mut game, false, Some(PickingEvent::SelectedChecker(19)));
    assert_eq!(
        out,
        Selecting { picked: Some(SelectedCheckerEvent(19)), played: None, end_game: None }
    );
    assert_eq!(game.selected.0, Some(19));
    assert_eq!(game.turn, Turn::BlackForesight);
}

#[test]
fn putting_a_piece_down_empties_the_hand() {
    let mut game = Game::new();
    game.selected.0 = Some(19);
    assert_eq!(selecting(&mut game, false, Some(PickingEvent::Deselected(17))), NOTHING);
    assert_eq!(game.selected.0, Some(19));
    assert_eq!(selecting(&mut game, false, Some(PickingEvent::Deselected(19))), NOTHING);
    assert_eq!(game.selected.0, None);
}

#[test]
fn a_captured_piece_leaves_the_hand() {
    let mut game = Game::new();
    game.selected.0 = Some(19);
    game.board.kill_piece(19);
    assert_eq!(selecting(&mut game, false, None), NOTHING);
    assert_eq!(game.selected.0, None);
    game.selected.0 = Some(17);
    assert_eq!(selecting(&mut game, false, Some(PickingEvent::Other)), NOTHING);
    assert_eq!(game.selected.0, Some(17));
}

#[test]
fn forfeit_ends_the_game() {
    for turn in [Turn::PreGame, Turn::BlackForesight, Turn::Black, Turn::Red, Turn::RedCorrection] {
        let mut game = Game::new();
        game.turn = turn;
        let out = selecting(&mut game, true, Some(PickingEvent::SelectedChecker(19)));
        assert_eq!(
            out,
            Selecting { picked: None, played: None, end_game: Some(EndGameEvent(Team::Red)) }
        );
        assert_eq!(game.turn, Turn::PostGame);
        assert_eq!(game.selected.0, None);
    }
}

#[test]
fn an_offered_destination_becomes_the_declared_move() {
    let mut game = Game::new();
    game.turn = Turn::BlackForesight;
    let out = selecting(&mut game, false, Some(PickingEvent::SelectedChecker(19)));
    enable_valid_spaces(&mut game, out.picked.unwrap());
    assert_eq!(selecting(&mut game, false, Some(PickingEvent::SelectedPlace(c(3, 3)))), NOTHING);
    assert_eq!(game.turn, Turn::Black);
    assert_eq!(game.selected.0, None);
    assert_eq!(game.red_move.start, c(2, 2));
    assert!(game.red_move.jumped.is_empty());
    assert_eq!(game.red_move.jumps, vec![c(3, 3)]);
    assert!(!game.red_move.performed);
    assert_eq!(game.board.checkers()[19].pos, c(2, 2));
    assert_eq!(game.header.0, "");
}

#[test]
fn a_destination_that_is_not_offered_is_refused() {
    let mut game = Game::new();
    game.turn = Turn::BlackForesight;
    let out = selecting(&mut game, false, Some(PickingEvent::SelectedChecker(19)));
    enable_valid_spaces(&mut game, out.picked.unwrap());
    for pos in [c(2, 4), c(2, 2), c(8, 8), c(-1, 3)] {
        assert_eq!(selecting(&mut game, false, Some(PickingEvent::SelectedPlace(pos))), NOTHING);
        assert_eq!(game.turn, Turn::BlackForesight);
        assert_eq!(game.selected.0, Some(19));
        assert!(game.red_move.performed);
        assert_eq!(game.header.0, "You cannot move that checker to that position");
        game.header.0 = "";
    }
}

#[test]
fn a_destination_without_a_piece_in_hand_changes_nothing() {
    let mut game = Game::new();
    game.turn = Turn::BlackForesight;
    enable_valid_spaces(&mut game, SelectedCheckerEvent(19));
    assert_eq!(selecting(&mut game, false, Some(PickingEvent::SelectedPlace(c(3, 3)))), NOTHING);
    assert_eq!(game.turn, Turn::BlackForesight);
    assert!(game.red_move.performed);
    assert_eq!(game.header.0, "");
}

#[test]
fn a_destination_counts_only_while_red_chooses() {
    for turn in [Turn::PreGame, Turn::Black, Turn::Red, Turn::PostGame] {
        let mut game = Game::new();
        game.turn = turn;
        game.selected.0 = Some(19);
        enable_valid_spaces(&mut game, SelectedCheckerEvent(19));
        assert_eq!(selecting(&mut game, false, Some(PickingEvent::SelectedPlace(c(3, 3)))), NOTHING);
        assert_eq!(selecting(&mut game, false, Some(PickingEvent::SelectedPlace(c(5, 5)))), NOTHING);
        assert_eq!(game.turn, turn);
        assert_eq!(game.selected.0, Some(19));
        assert!(game.red_move.performed);
        assert_eq!(game.header.0, "");
    }
}

#[test]
fn a_correction_is_played_at_once() {
    let mut game = game_with(
        vec![piece(Team::Red, 2, 2), piece(Team::Black, 3, 3)],
        Turn::RedCorrection,
    );
    let out = selecting(&mut game, false, Some(PickingEvent::SelectedChecker(0)));
    enable_valid_spaces(&mut game, out.picked.unwrap());
    assert_eq!(
        selecting(&mut game, false, Some(PickingEvent::SelectedPlace(c(4, 4)))),
        Selecting {
            picked: None,
            played: Some(Played { piece: 0, path: vec![c(4, 4)], captured: vec![1], kinged: None }),
            end_game: None,
        }
    );
    assert_eq!(game.turn, Turn::BlackForesight);
    assert_eq!(game.selected.0, None);
    assert_eq!(game.board.checkers()[0].pos, c(4, 4));
    assert!(!game.board.checkers()[1].alive);
    assert_eq!(game.board.black_stack().height, 1);
    assert!(game.red_move.performed);
}

#[test]
fn a_correction_that_has_gone_stale_is_refused() {
    let mut game = game_with(
        vec![piece(Team::Red, 2, 2), piece(Team::Black, 3, 3)],
        Turn::RedCorrection,
    );
    let out = selecting(&mut game, false, Some(PickingEvent::SelectedChecker(0)));
    enable_valid_spaces(&mut game, out.picked.unwrap());
    game.board.kill_piece(1);
    assert_eq!(selecting(&mut game, false, Some(PickingEvent::SelectedPlace(c(4, 4)))), NOTHING);
    assert_eq!(game.turn, Turn::RedCorrection);
    assert_eq!(game.selected.0, Some(0));
    assert_eq!(game.board.checkers()[0].pos, c(2, 2));
    assert_eq!(game.header.0, "You cannot move that checker to that position");
}
