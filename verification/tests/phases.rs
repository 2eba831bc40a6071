use foretold::board::{Coord, Team};
use foretold::game::set_up_checkerboard;
use foretold::intro::{update_intro_text, IntroAction, IntroPhase};
use foretold::outro::{
    end, update_end_game_text, BlackEndingPhase, EndingAction, EndingDurationSinceStartup,
    EndingPhase, RedEndingPhase,
};
use foretold::playing::EndGameEvent;
use foretold::text::TextColour;
use foretold::turn::{
    begin, screen_text_display, update_header_with_turn, BeginGameEvent, Header, LastTurn, Turn,
};

const ALL_TURNS: [Turn; 6] = [
    Turn::PreGame,
    Turn::Black,
    Turn::BlackForesight,
    Turn::Red,
    Turn::RedCorrection,
    Turn::PostGame,
];

#[test]
fn header_names_the_turn() {
    let expected = [
        (Turn::Black, "Black's Turn"),
        (Turn::BlackForesight, "Choose your next move"),
        (Turn::Red, "Your Turn"),
        (Turn::RedCorrection, "Your chosen move was invalidated by Black, choose another"),
        (Turn::PostGame, ""),
    ];
    for (turn, words) in expected {
        let mut last = LastTurn::default();
        let mut header = Header("before");
        update_header_with_turn(turn, &mut last, &mut header);
        assert_eq!(header.0, words);
        assert_eq!(last.0, turn);
    }
    let mut last = LastTurn(Turn::Red);
    let mut header = Header("before");
    update_header_with_turn(Turn::PreGame, &mut last, &mut header);
    assert_eq!(header.0, "");
}

#[test]
fn header_is_kept_while_the_turn_stays() {
    for turn in ALL_TURNS {
        let mut last = LastTurn(turn);
        let mut header = Header("You cannot move that checker to that position");
        update_header_with_turn(turn, &mut last, &mut header);
        assert_eq!(header.0, "You cannot move that checker to that position");
        assert_eq!(last.0, turn);
    }
}

#[test]
fn last_turn_starts_before_the_game() {
    assert_eq!(LastTurn::default().0, Turn::PreGame);
}

#[test]
fn screen_text_shows_outside_the_game() {
    assert!(screen_text_display(Turn::PreGame));
    assert!(screen_text_display(Turn::PostGame));
    assert!(!screen_text_display(Turn::Black));
    assert!(!screen_text_display(Turn::BlackForesight));
    assert!(!screen_text_display(Turn::Red));
    assert!(!screen_text_display(Turn::RedCorrection));
    assert!(Turn::Red.in_play());
    assert!(!Turn::PreGame.in_play());
}

#[test]
fn begin_waits_for_the_signal() {
    for start in ALL_TURNS {
        let mut turn = start;
        begin(&vec![], &mut turn);
        assert_eq!(turn, start);
        begin(&vec![BeginGameEvent], &mut turn);
        assert_eq!(turn, Turn::BlackForesight);
    }
    let mut turn = Turn::PreGame;
    begin(&vec![BeginGameEvent, BeginGameEvent], &mut turn);
    assert_eq!(turn, Turn::BlackForesight);
}

fn said(action: IntroAction) -> (&'static str, bool, Option<TextColour>) {
    match action {
        IntroAction::Say(edit) => (edit.words, edit.append, edit.colour),
        other => panic!("no words: {:?}", other),
    }
}

#[test]
fn the_introduction_is_spoken_line_by_line() {
    let lines = [
        (2000, IntroPhase::PlayAGame, "Let's play a game.", true),
        (4000, IntroPhase::Checkers, "\nYou know checkers, right?", true),
        (6000, IntroPhase::OrDraughts, "\nOr draughts. Whatever you prefer.", true),
        (8000, IntroPhase::Empty2, "", false),
        (10000, IntroPhase::ButBoring, "But that'd be boring, wouldn't it?", true),
        (12000, IntroPhase::Twist, "\nLet's add a twist.", true),
        (14000, IntroPhase::TellMe, "\nYou must tell me your next move before I make mine.", true),
        (16000, IntroPhase::IllTake, "\nI'll take black, so I go first.", true),
    ];
    let mut phase = IntroPhase::default();
    assert_eq!(phase, IntroPhase::Empty);
    for (deadline, next, words, append) in lines {
        let before = phase;
        assert!(matches!(
            update_intro_text(Turn::PreGame, false, deadline, false, &mut phase),
            IntroAction::Wait
        ));
        assert_eq!(phase, before);
        let action = update_intro_text(Turn::PreGame, false, deadline + 1, false, &mut phase);
        assert_eq!(said(action), (words, append, None));
        assert_eq!(phase, next);
    }
}

#[test]
fn the_introduction_fades_and_then_begins_the_game() {
    let mut phase = IntroPhase::IllTake;
    assert!(matches!(
        update_intro_text(Turn::PreGame, false, 18000, true, &mut phase),
        IntroAction::Wait
    ));
    assert!(matches!(
        update_intro_text(Turn::PreGame, false, 18001, false, &mut phase),
        IntroAction::Fade
    ));
    assert!(matches!(
        update_intro_text(Turn::PreGame, false, 18001, true, &mut phase),
        IntroAction::Begin(BeginGameEvent)
    ));
    assert_eq!(phase, IntroPhase::IllTake);
}

#[test]
fn the_introduction_takes_one_step_at_a_time() {
    let mut phase = IntroPhase::Empty;
    let action = update_intro_text(Turn::PreGame, false, u64::MAX, true, &mut phase);
    assert_eq!(said(action).0, "Let's play a game.");
    assert_eq!(phase, IntroPhase::PlayAGame);
}

#[test]
fn the_introduction_can_be_skipped() {
    for start in [IntroPhase::Empty, IntroPhase::Checkers, IntroPhase::IllTake] {
        let mut phase = start;
        assert!(matches!(
            update_intro_text(Turn::PreGame, true, 0, false, &mut phase),
            IntroAction::Begin(BeginGameEvent)
        ));
        assert_eq!(phase, start);
    }
}

#[test]
fn the_introduction_is_silent_once_the_game_has_begun() {
    for turn in [Turn::Black, Turn::BlackForesight, Turn::Red, Turn::RedCorrection, Turn::PostGame] {
        let mut phase = IntroPhase::Empty;
        assert!(matches!(
            update_intro_text(turn, true, 99999, true, &mut phase),
            IntroAction::Wait
        ));
        assert_eq!(phase, IntroPhase::Empty);
    }
}

#[test]
fn endings_begin_empty() {
    assert_eq!(EndingPhase::red(), EndingPhase::Red(RedEndingPhase::Empty));
    assert_eq!(EndingPhase::black(), EndingPhase::Black(BlackEndingPhase::Empty));
}

#[test]
fn the_ending_is_that_of_the_winner() {
    let mut phase = EndingPhase::red();
    let mut moment = EndingDurationSinceStartup(0);
    assert!(end(&vec![EndGameEvent(Team::Black)], Turn::PostGame, &mut phase, &mut moment, 1234));
    assert_eq!(phase, EndingPhase::black());
    assert_eq!(moment, EndingDurationSinceStartup(1234));
    assert!(end(
        &vec![EndGameEvent(Team::Black), EndGameEvent(Team::Red)],
        Turn::PostGame,
        &mut phase,
        &mut moment,
        5678
    ));
    assert_eq!(phase, EndingPhase::red());
    assert_eq!(moment.0, 5678);
}

#[test]
fn the_ending_waits_for_the_end_of_the_game() {
    let mut phase = EndingPhase::Red(RedEndingPhase::YouKnow);
    let mut moment = EndingDurationSinceStartup(7);
    assert!(!end(&vec![], Turn::PostGame, &mut phase, &mut moment, 1234));
    for turn in [Turn::PreGame, Turn::Black, Turn::BlackForesight, Turn::Red, Turn::RedCorrection] {
        assert!(!end(&vec![EndGameEvent(Team::Black)], turn, &mut phase, &mut moment, 1234));
    }
    assert_eq!(phase, EndingPhase::Red(RedEndingPhase::YouKnow));
    assert_eq!(moment.0, 7);
}

fn spoken(action: EndingAction) -> (&'static str, bool, Option<TextColour>) {
    match action {
        EndingAction::Say(edit) => (edit.words, edit.append, edit.colour),
        other => panic!("no words: {:?}", other),
    }
}

#[test]
fn after_a_win_of_red_the_opponent_speaks_and_leaves() {
    let lines = [
        (3000, RedEndingPhase::OhItAppears, "Oh. It appears you've beaten me.", true, None),
        (6000, RedEndingPhase::YouKnow, "You know,", false, Some(TextColour::Red)),
        (7500, RedEndingPhase::ForSomeone, " for someone that can see the future,", true, None),
        (9000, RedEndingPhase::YouDont, "\nyou don't plan ahead an awful lot.", true, None),
        (13000, RedEndingPhase::Ellipse, "...", false, Some(TextColour::Grey)),
    ];
    let mut turn = Turn::PostGame;
    let mut phase = EndingPhase::red();
    let mut board = set_up_checkerboard();
    board.kill_piece(0);
    for (deadline, next, words, append, colour) in lines {
        let before = phase;
        assert!(matches!(
            update_end_game_text(&mut turn, &mut phase, &mut board, deadline, true),
            EndingAction::Wait
        ));
        assert_eq!(phase, before);
        let action = update_end_game_text(&mut turn, &mut phase, &mut board, deadline + 1, true);
        assert_eq!(spoken(action), (words, append, colour));
        assert_eq!(phase, EndingPhase::Red(next));
    }
    assert!(matches!(
        update_end_game_text(&mut turn, &mut phase, &mut board, 18000, true),
        EndingAction::Wait
    ));
    assert!(matches!(
        update_end_game_text(&mut turn, &mut phase, &mut board, 18001, true),
        EndingAction::Fall
    ));
    assert_eq!(phase, EndingPhase::Red(RedEndingPhase::Fall));
    assert!(matches!(
        update_end_game_text(&mut turn, &mut phase, &mut board, 23000, true),
        EndingAction::Wait
    ));
    assert!(matches!(
        update_end_game_text(&mut turn, &mut phase, &mut board, 23001, true),
        EndingAction::Exit
    ));
    assert_eq!(phase, EndingPhase::Red(RedEndingPhase::Fall));
    assert_eq!(turn, Turn::PostGame);
    assert!(!board.checkers()[0].alive);
}

#[test]
fn after_a_win_of_black_a_new_game_is_set_up() {
    let mut turn = Turn::PostGame;
    let mut phase = EndingPhase::black();
    let mut board = set_up_checkerboard();
    let start = board.checkers().clone();
    board.kill_piece(1);
    board.move_piece(19, &vec![Coord::new(3, 3)]);
    assert!(matches!(
        update_end_game_text(&mut turn, &mut phase, &mut board, 1000, false),
        EndingAction::Wait
    ));
    let action = update_end_game_text(&mut turn, &mut phase, &mut board, 1001, false);
    assert_eq!(spoken(action), ("Aha. I've won.", true, None));
    assert_eq!(phase, EndingPhase::Black(BlackEndingPhase::Aha));
    assert!(!board.checkers()[1].alive);
    assert!(matches!(
        update_end_game_text(&mut turn, &mut phase, &mut board, 3000, false),
        EndingAction::Wait
    ));
    let action = update_end_game_text(&mut turn, &mut phase, &mut board, 3001, false);
    assert_eq!(spoken(action), ("\nLet's play again.", true, None));
    assert_eq!(phase, EndingPhase::Black(BlackEndingPhase::Again));
    assert_eq!(board.checkers(), &start);
    assert_eq!(board.red_stack().height, 0);
    assert_eq!(turn, Turn::PostGame);
    assert!(matches!(
        update_end_game_text(&mut turn, &mut phase, &mut board, 4000, true),
        EndingAction::Wait
    ));
    assert_eq!(turn, Turn::PostGame);
    assert!(matches!(
        update_end_game_text(&mut turn, &mut phase, &mut board, 4001, false),
        EndingAction::Fade
    ));
    assert_eq!(turn, Turn::PostGame);
    assert!(matches!(
        update_end_game_text(&mut turn, &mut phase, &mut board, 4001, true),
        EndingAction::Wait
    ));
    assert_eq!(turn, Turn::BlackForesight);
    assert_eq!(phase, EndingPhase::Black(BlackEndingPhase::Again));
    assert_eq!(board.checkers(), &start);
}

#[test]
fn the_ending_is_silent_during_the_game() {
    for start in [Turn::PreGame, Turn::Black, Turn::BlackForesight, Turn::Red, Turn::RedCorrection] {
        let mut turn = start;
        let mut phase = EndingPhase::Black(BlackEndingPhase::Aha);
        let mut board = set_up_checkerboard();
        board.kill_piece(1);
        assert!(matches!(
            update_end_game_text(&mut turn, &mut phase, &mut board, 99999, true),
            EndingAction::Wait
        ));
        assert_eq!(turn, start);
        assert_eq!(phase, EndingPhase::Black(BlackEndingPhase::Aha));
        assert!(!board.checkers()[1].alive);
    }
}
