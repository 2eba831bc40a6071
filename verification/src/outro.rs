//! After the game: what the opponent says to the winner or the loser, and
//! how a new game begins.

use crate::board::Team;
use crate::game::{reseeded, Board};
use crate::playing::EndGameEvent;
use crate::text::{TextColour, TextEdit};
use crate::turn::Turn;
use vstd::prelude::*;

verus! {

/// When the game ended, in milliseconds since the program started.
#[derive(Clone, Copy, Debug, PartialEq, Eq, Structural)]
pub struct EndingDurationSinceStartup(pub u64);

/// How far the ending has come, after Red's win or after Black's.
#[derive(Clone, Copy, Debug, PartialEq, Eq, Structural)]
pub enum EndingPhase {
    Red(RedEndingPhase),
    Black(BlackEndingPhase),
}

/// The ending after Red has won, line by line.
#[derive(Clone, Copy, Debug, PartialEq, Eq, Structural)]
pub enum RedEndingPhase {
    Empty,
    OhItAppears,
    YouKnow,
    ForSomeone,
    YouDont,
    Ellipse,
    Fall,
}

/// The ending after Black has won, line by line.
#[derive(Clone, Copy, Debug, PartialEq, Eq, Structural)]
pub enum BlackEndingPhase {
    Empty,
    Aha,
    Again,
}

/// What the program is to do at a step of the ending.
#[derive(Clone, Copy, Debug)]
pub enum EndingAction {
    /// Nothing.
    Wait,
    /// Change the text on the screen.
    Say(TextEdit),
    /// Clear the text, and let the camera fall off the table.
    Fall,
    /// Make the text a little fainter.
    Fade,
    /// Leave the program.
    Exit,
}

impl EndingPhase {
    /// The beginning of the ending after Red's win.
    pub fn red() -> (phase: EndingPhase)
        ensures
            phase == EndingPhase::Red(RedEndingPhase::Empty),
    {
        EndingPhase::Red(RedEndingPhase::Empty)
    }

    /// The beginning of the ending after Black's win.
    pub fn black() -> (phase: EndingPhase)
        ensures
            phase == EndingPhase::Black(BlackEndingPhase::Empty),
    {
        EndingPhase::Black(BlackEndingPhase::Empty)
    }
}

/// The ending that follows the win of `team`.
pub open spec fn ending_for(team: Team) -> EndingPhase {
    match team {
        Team::Black => EndingPhase::Black(BlackEndingPhase::Empty),
        Team::Red => EndingPhase::Red(RedEndingPhase::Empty),
    }
}

/// Begins the ending once the game is over and its end has been
/// announced: the ending is that of the side named last, and it begins
/// `now`.
pub fn end(
    events: &Vec<EndGameEvent>,
    turn: Turn,
    phase: &mut EndingPhase,
    ending_moment: &mut EndingDurationSinceStartup,
    now: u64,
) -> (begun: bool)
    ensures
        begun == (turn == Turn::PostGame && events@.len() > 0),
        begun ==> *final(phase) == ending_for(events@.last().0) && final(ending_moment).0 == now,
        !begun ==> *final(phase) == *old(phase) && *final(ending_moment) == *old(ending_moment),
{
    if turn != Turn::PostGame {
        return false;
    }
    let mut end = false;
    let mut i: usize = 0;
    while i < events.len()
        invariant
            i <= events@.len(),
            end == (i > 0),
            i > 0 ==> *phase == ending_for(events@[i - 1].0),
            i == 0 ==> *phase == *old(phase),
        decreases events@.len() - i,
    {
        *phase = match events[i].0 {
            Team::Black => EndingPhase::black(),
            Team::Red => EndingPhase::red(),
        };
        end = true;
        i = i + 1;
    }
    if !end {
        return false;
    }
    ending_moment.0 = now;
    true
}

/// From which time on, in milliseconds after the end of the game, the
/// ending after Red's win leaves a phase.
pub open spec fn red_deadline(phase: RedEndingPhase) -> int {
    match phase {
        RedEndingPhase::Empty => 3000,
        RedEndingPhase::OhItAppears => 6000,
        RedEndingPhase::YouKnow => 7500,
        RedEndingPhase::ForSomeone => 9000,
        RedEndingPhase::YouDont => 13000,
        RedEndingPhase::Ellipse => 18000,
        RedEndingPhase::Fall => 23000,
    }
}

/// The phase that follows a phase of the ending after Red's win. The last
/// one has no other.
pub open spec fn red_next(phase: RedEndingPhase) -> RedEndingPhase {
    match phase {
        RedEndingPhase::Empty => RedEndingPhase::OhItAppears,
        RedEndingPhase::OhItAppears => RedEndingPhase::YouKnow,
        RedEndingPhase::YouKnow => RedEndingPhase::ForSomeone,
        RedEndingPhase::ForSomeone => RedEndingPhase::YouDont,
        RedEndingPhase::YouDont => RedEndingPhase::Ellipse,
        RedEndingPhase::Ellipse => RedEndingPhase::Fall,
        RedEndingPhase::Fall => RedEndingPhase::Fall,
    }
}

/// From which time on the ending after Black's win leaves a phase.
pub open spec fn black_deadline(phase: BlackEndingPhase) -> int {
    match phase {
        BlackEndingPhase::Empty => 1000,
        BlackEndingPhase::Aha => 3000,
        BlackEndingPhase::Again => 4000,
    }
}

/// What is done on leaving a phase of the ending after Red's win.
pub open spec fn red_action_matches(phase: RedEndingPhase, action: EndingAction) -> bool {
    match phase {
        RedEndingPhase::Empty => action matches EndingAction::Say(edit) && edit.append
            && edit.colour is None && edit.words@ == "Oh. It appears you've beaten me."@,
        RedEndingPhase::OhItAppears => action matches EndingAction::Say(edit) && !edit.append
            && edit.colour == Some(TextColour::Red) && edit.words@ == "You know,"@,
        RedEndingPhase::YouKnow => action matches EndingAction::Say(edit) && edit.append
            && edit.colour is None && edit.words@ == " for someone that can see the future,"@,
        RedEndingPhase::ForSomeone => action matches EndingAction::Say(edit) && edit.append
            && edit.colour is None && edit.words@ == "\nyou don't plan ahead an awful lot."@,
        RedEndingPhase::YouDont => action matches EndingAction::Say(edit) && !edit.append
            && edit.colour == Some(TextColour::Grey) && edit.words@ == "..."@,
        RedEndingPhase::Ellipse => action is Fall,
        RedEndingPhase::Fall => action is Exit,
    }
}

/// A step of the ending, `elapsed` milliseconds after the end of the
/// game. A phase is left once its time has passed. After Red's win the
/// opponent speaks line by line, the camera falls, and the program is
/// left. After Black's win the opponent speaks; with its last line a new
/// game is set up; then the text fades, and once it has `faded` the
/// player declares the first move of the new game.
pub fn update_end_game_text(
    turn: &mut Turn,
    phase: &mut EndingPhase,
    board: &mut Board,
    elapsed: u64,
    faded: bool,
) -> (action: EndingAction)
    requires
        old(board).wf(),
    ensures
        final(board).wf(),
        *old(turn) != Turn::PostGame ==> {
            &&& action is Wait
            &&& *final(turn) == *old(turn)
            &&& *final(phase) == *old(phase)
            &&& *final(board) == *old(board)
        },
        *old(turn) == Turn::PostGame ==> match *old(phase) {
            EndingPhase::Red(red) => {
                &&& *final(turn) == Turn::PostGame
                &&& *final(board) == *old(board)
                &&& if elapsed > red_deadline(red) {
                    *final(phase) == EndingPhase::Red(red_next(red)) && red_action_matches(
                        red,
                        action,
                    )
                } else {
                    *final(phase) == *old(phase) && action is Wait
                }
            },
            EndingPhase::Black(black) => if elapsed <= black_deadline(black) {
                &&& action is Wait
                &&& *final(turn) == Turn::PostGame
                &&& *final(phase) == *old(phase)
                &&& *final(board) == *old(board)
            } else {
                match black {
                    BlackEndingPhase::Empty => {
                        &&& action matches EndingAction::Say(edit) && edit.append && edit.colour is None
                            && edit.words@ == "Aha. I've won."@
                        &&& *final(turn) == Turn::PostGame
                        &&& *final(phase) == EndingPhase::Black(BlackEndingPhase::Aha)
                        &&& *final(board) == *old(board)
                    },
                    BlackEndingPhase::Aha => {
                        &&& action matches EndingAction::Say(edit) && edit.append && edit.colour is None
                            && edit.words@ == "\nLet's play again."@
                        &&& *final(turn) == Turn::PostGame
                        &&& *final(phase) == EndingPhase::Black(BlackEndingPhase::Again)
                        &&& final(board).pieces() == reseeded(old(board).pieces())
                        &&& final(board).stack_height(Team::Red) == 0
                        &&& final(board).stack_height(Team::Black) == 0
                    },
                    BlackEndingPhase::Again => {
                        &&& *final(phase) == *old(phase)
                        &&& *final(board) == *old(board)
                        &&& if faded {
                            action is Wait && *final(turn) == Turn::BlackForesight
                        } else {
                            action is Fade && *final(turn) == Turn::PostGame
                        }
                    },
                }
            },
        },
{
    if *turn != Turn::PostGame {
        return EndingAction::Wait;
    }
    match *phase {
        EndingPhase::Red(red) => match red {
            RedEndingPhase::Empty => {
                if elapsed > 3000 {
                    *phase = EndingPhase::Red(RedEndingPhase::OhItAppears);
                    return EndingAction::Say(
                        TextEdit {
                            words: "Oh. It appears you've beaten me.",
                            append: true,
                            colour: None,
                        },
                    );
                }
            },
            RedEndingPhase::OhItAppears => {
                if elapsed > 6000 {
                    *phase = EndingPhase::Red(RedEndingPhase::YouKnow);
                    return EndingAction::Say(
                        TextEdit { words: "You know,", append: false, colour: Some(TextColour::Red) },
                    );
                }
            },
            RedEndingPhase::YouKnow => {
                if elapsed > 7500 {
                    *phase = EndingPhase::Red(RedEndingPhase::ForSomeone);
                    return EndingAction::Say(
                        TextEdit {
                            words: " for someone that can see the future,",
                            append: true,
                            colour: None,
                        },
                    );
                }
            },
            RedEndingPhase::ForSomeone => {
                if elapsed > 9000 {
                    *phase = EndingPhase::Red(RedEndingPhase::YouDont);
                    return EndingAction::Say(
                        TextEdit {
                            words: "\nyou don't plan ahead an awful lot.",
                            append: true,
                            colour: None,
                        },
                    );
                }
            },
            RedEndingPhase::YouDont => {
                if elapsed > 13000 {
                    *phase = EndingPhase::Red(RedEndingPhase::Ellipse);
                    return EndingAction::Say(
                        TextEdit { words: "...", append: false, colour: Some(TextColour::Grey) },
                    );
                }
            },
            RedEndingPhase::Ellipse => {
                if elapsed > 18000 {
                    *phase = EndingPhase::Red(RedEndingPhase::Fall);
                    return EndingAction::Fall;
                }
            },
            RedEndingPhase::Fall => {
                if elapsed > 23000 {
                    return EndingAction::Exit;
                }
            },
        },
        EndingPhase::Black(black) => match black {
            BlackEndingPhase::Empty => {
                if elapsed > 1000 {
                    *phase = EndingPhase::Black(BlackEndingPhase::Aha);
                    return EndingAction::Say(
                        TextEdit { words: "Aha. I've won.", append: true, colour: None },
                    );
                }
            },
            BlackEndingPhase::Aha => {
                if elapsed > 3000 {
                    *phase = EndingPhase::Black(BlackEndingPhase::Again);
                    board.reset();
                    return EndingAction::Say(
                        TextEdit { words: "\nLet's play again.", append: true, colour: None },
                    );
                }
            },
            BlackEndingPhase::Again => {
                if elapsed > 4000 {
                    if !faded {
                        return EndingAction::Fade;
                    } else {
                        *turn = Turn::BlackForesight;
                    }
                }
            },
        },
    }
    EndingAction::Wait
}

} // verus!
