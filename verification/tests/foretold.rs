use foretold::board::{Coord, Team};
use foretold::game::{Board, Checker};
use foretold::opponent::enemy_play;
use foretold::playing::{animate_black_turn, animate_red_turn, Game};
use foretold::selection::{check_player_loss, enable_valid_spaces, selecting, PickingEvent};
use foretold::turn::{begin, update_header_with_turn, BeginGameEvent, LastTurn, Turn};

fn c(x: i32, y: i32) -> Coord {
    Coord::new(x, y)
}

fn piece(team: Team, x: i32, y: i32) -> Checker {
    Checker { team, pos: c(x, y), alive: true, king: false }
}

fn assert_consistent(board: &Board) {
    let mut occupied = 0;
    for y in 0..8 {
        for x in 0..8 {
            if let Some((id, team)) = board.map().get_place(c(x, y)) {
                occupied += 1;
                let p = board.checkers()[id];
                assert!(p.alive);
                assert_eq!(p.pos, c(x, y));
                assert_eq!(p.team, team);
            }
        }
    }
    let mut alive = 0;
    let mut red_dead = 0;
    let mut black_dead = 0;
    for (id, p) in board.checkers().iter().enumerate() {
        if p.alive {
            alive += 1;
            assert_eq!(board.map().get_place(p.pos), Some((id, p.team)));
        } else {
            assert_eq!(p.pos, c(-1, -1));
            match p.team {
                Team::Red => red_dead += 1,
                Team::Black => black_dead += 1,
            }
        }
    }
    assert_eq!(occupied, alive);
    assert_eq!(board.red_stack().height, red_dead);
    assert_eq!(board.black_stack().height, black_dead);
}

fn offers(game: &Game) -> Vec<Coord> {
    let mut valid = Vec::new();
    for y in 0..8 {
        for x in 0..8 {
            if game.places.get(c(x, y)).valid {
                valid.push(c(x, y));
            }
        }
    }
    valid
}

fn pick_up(game: &mut Game, id: usize) {
    let out = selecting(game, false, Some(PickingEvent::SelectedChecker(id)));
    enable_valid_spaces(game, out.picked.unwrap());
}

#[test]
fn black_takes_the_piece_that_red_meant_to_jump() {
    let mut game = Game::new();
    game.board = Board::from_checkers(&vec![
        piece(Team::Red, 2, 2),
        piece(Team::Black, 3, 3),
        piece(Team::Red, 4, 2),
        piece(Team::Red, 1, 1),
    ])
    .unwrap();
    begin(&vec![BeginGameEvent], &mut game.turn);
    assert_eq!(game.turn, Turn::BlackForesight);

    pick_up(&mut game, 0);
    assert_eq!(offers(&game), vec![c(4, 4)]);
    selecting(&mut game, false, Some(PickingEvent::SelectedPlace(c(4, 4))));
    assert_eq!(game.turn, Turn::Black);
    assert_eq!(game.red_move.start, c(2, 2));
    assert_eq!(game.red_move.jumped, vec![c(3, 3)]);
    assert_eq!(game.red_move.jumps, vec![c(4, 4)]);

    let reply = enemy_play(&mut game);
    assert_eq!(reply.end_game, None);
    assert_eq!(reply.played.unwrap().captured, vec![2]);
    assert_eq!(game.board.checkers()[1].pos, c(5, 1));
    assert!(!game.board.checkers()[2].alive);
    animate_black_turn(true, &mut game.moved, &mut game.turn);
    assert_eq!(game.turn, Turn::Black);
    animate_black_turn(false, &mut game.moved, &mut game.turn);
    assert_eq!(game.turn, Turn::Red);

    animate_red_turn(&mut game, false);
    assert_eq!(game.turn, Turn::RedCorrection);
    assert_eq!(game.board.checkers()[0], piece(Team::Red, 2, 2));
    assert!(game.board.map().is_place_free(c(4, 4)));
    assert_consistent(&game.board);

    let mut last = LastTurn(Turn::Red);
    update_header_with_turn(game.turn, &mut last, &mut game.header);
    assert_eq!(game.header.0, "Your chosen move was invalidated by Black, choose another");

    assert_eq!(check_player_loss(&game.board, &mut game.turn), None);
    pick_up(&mut game, 0);
    assert_eq!(offers(&game), vec![c(1, 3), c(3, 3)]);
    selecting(&mut game, false, Some(PickingEvent::SelectedPlace(c(3, 3))));
    assert_eq!(game.turn, Turn::BlackForesight);
    assert_eq!(game.board.checkers()[0].pos, c(3, 3));
    assert_consistent(&game.board);
}

#[test]
fn black_takes_the_piece_that_red_meant_to_move() {
    let mut game = Game::new();
    game.board =
        Board::from_checkers(&vec![piece(Team::Red, 2, 2), piece(Team::Black, 3, 3)]).unwrap();
    game.turn = Turn::BlackForesight;
    pick_up(&mut game, 0);
    assert_eq!(offers(&game), vec![c(4, 4)]);
    selecting(&mut game, false, Some(PickingEvent::SelectedPlace(c(4, 4))));
    enemy_play(&mut game);
    assert!(!game.board.checkers()[0].alive);
    assert_eq!(game.board.checkers()[1].pos, c(1, 1));
    animate_black_turn(false, &mut game.moved, &mut game.turn);
    animate_red_turn(&mut game, false);
    assert_eq!(game.turn, Turn::RedCorrection);
    assert_eq!(
        check_player_loss(&game.board, &mut game.turn),
        Some(foretold::playing::EndGameEvent(Team::Black))
    );
    assert_eq!(game.turn, Turn::PostGame);
}

#[test]
fn a_declared_move_that_black_leaves_alone_is_played() {
    let mut game = Game::new();
    game.board =
        Board::from_checkers(&vec![piece(Team::Red, 0, 0), piece(Team::Black, 7, 7)]).unwrap();
    game.turn = Turn::BlackForesight;
    pick_up(&mut game, 0);
    assert_eq!(offers(&game), vec![c(1, 1)]);
    selecting(&mut game, false, Some(PickingEvent::SelectedPlace(c(1, 1))));
    assert_eq!(game.board.checkers()[0].pos, c(0, 0));
    enemy_play(&mut game);
    assert_eq!(game.board.checkers()[1].pos, c(6, 6));
    animate_black_turn(false, &mut game.moved, &mut game.turn);
    animate_red_turn(&mut game, false);
    assert_eq!(game.turn, Turn::Red);
    assert_eq!(game.board.checkers()[0].pos, c(1, 1));
    animate_red_turn(&mut game, false);
    assert_eq!(game.turn, Turn::BlackForesight);
}

fn choose_for_red(game: &mut Game, seed: &mut u64) -> bool {
    let mut choices = Vec::new();
    for id in 0..game.board.checkers().len() {
        let p = game.board.checkers()[id];
        if p.team != Team::Red || !p.alive {
            continue;
        }
        pick_up(game, id);
        let must_jump = game.board.checkers().iter().any(|q| {
            q.alive && q.team == Team::Red && !game.board.map().get_jumps(q.pos, q.team, q.king).is_empty()
        });
        for dest in offers(game) {
            let place = game.places.get(dest);
            assert_eq!(*place.jumps.last().unwrap(), dest);
            if must_jump {
                assert!(!place.jumped.is_empty());
            } else {
                assert!(place.jumped.is_empty());
            }
            choices.push((id, dest));
        }
    }
    if choices.is_empty() {
        return false;
    }
    *seed = seed.wrapping_mul(6364136223846793005).wrapping_add(1442695040888963407);
    let (id, dest) = choices[((*seed >> 33) as usize) % choices.len()];
    pick_up(game, id);
    selecting(game, false, Some(PickingEvent::SelectedPlace(dest)));
    true
}

#[test]
fn whole_games_keep_board_and_pieces_in_step() {
    for game_number in 0..40u64 {
        let mut seed = game_number + 1;
        let mut game = Game::new();
        begin(&vec![BeginGameEvent], &mut game.turn);
        let mut steps = 0;
        while game.turn != Turn::PostGame && steps < 400 {
            steps += 1;
            match game.turn {
                Turn::BlackForesight | Turn::RedCorrection => {
                    let before = game.turn;
                    if check_player_loss(&game.board, &mut game.turn).is_some() {
                        assert_eq!(game.turn, Turn::PostGame);
                    } else {
                        assert!(choose_for_red(&mut game, &mut seed));
                        if before == Turn::BlackForesight {
                            assert_eq!(game.turn, Turn::Black);
                        } else {
                            assert_eq!(game.turn, Turn::BlackForesight);
                        }
                    }
                }
                Turn::Black => {
                    let before: Vec<Checker> = game.board.checkers().clone();
                    let could_jump = before.iter().any(|q| {
                        q.alive
                            && q.team == Team::Black
                            && !game.board.map().get_jumps(q.pos, q.team, q.king).is_empty()
                    });
                    let reply = enemy_play(&mut game);
                    if reply.end_game.is_some() {
                        assert_eq!(game.turn, Turn::PostGame);
                        assert_eq!(game.board.checkers(), &before);
                        assert_eq!(reply.played, None);
                    } else {
                        let captured = before
                            .iter()
                            .zip(game.board.checkers().iter())
                            .filter(|(a, b)| a.alive && !b.alive)
                            .count();
                        assert_eq!(could_jump, captured > 0);
                        let played = reply.played.unwrap();
                        assert_eq!(played.captured.len(), captured);
                        assert_eq!(*played.path.last().unwrap(), game.board.checkers()[played.piece].pos);
                        assert!(played.captured.iter().all(|id| !game.board.checkers()[*id].alive));
                        animate_black_turn(false, &mut game.moved, &mut game.turn);
                        assert_eq!(game.turn, Turn::Red);
                    }
                }
                Turn::Red => {
                    animate_red_turn(&mut game, false);
                }
                Turn::PreGame | Turn::PostGame => unreachable!(),
            }
            assert_consistent(&game.board);
            for p in game.board.checkers() {
                if p.alive && !p.king {
                    assert!(p.pos.y != if p.team == Team::Red { 7 } else { 0 });
                }
            }
        }
    }
}
