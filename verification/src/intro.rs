//! Before the game: what the opponent says to the player, line by line,
//! until the game begins.

use crate::text::TextEdit;
use crate::turn::{BeginGameEvent, Turn};
use vstd::prelude::*;

verus! {

/// How far the opponent's introduction has come.
#[derive(Clone, Copy, Debug, PartialEq, Eq, Structural)]
pub enum IntroPhase {
    Empty,
    PlayAGame,
    Checkers,
    OrDraughts,
    Empty2,
    ButBoring,
    Twist,
    TellMe,
    IllTake,
}

/// What the program is to do at a step of the introduction.
#[derive(Clone, Copy, Debug)]
pub enum IntroAction {
    /// Nothing.
    Wait,
    /// Change the text on the screen.
    Say(TextEdit),
    /// Make the text a little fainter.
    Fade,
    /// Begin the game.
    Begin(BeginGameEvent),
}

impl Default for IntroPhase {
    /// The introduction has not begun.
    fn default() -> (phase: IntroPhase)
        ensures
            phase == IntroPhase::Empty,
    {
        IntroPhase::Empty
    }
}

/// From which time on, in milliseconds since the program started, the
/// introduction leaves a phase.
pub open spec fn intro_deadline(phase: IntroPhase) -> int {
    match phase {
        IntroPhase::Empty => 2000,
        IntroPhase::PlayAGame => 4000,
        IntroPhase::Checkers => 6000,
        IntroPhase::OrDraughts => 8000,
        IntroPhase::Empty2 => 10000,
        IntroPhase::ButBoring => 12000,
        IntroPhase::Twist => 14000,
        IntroPhase::TellMe => 16000,
        IntroPhase::IllTake => 18000,
    }
}

/// The phase that follows a phase of the introduction. The last one has
/// no other.
pub open spec fn intro_next(phase: IntroPhase) -> IntroPhase {
    match phase {
        IntroPhase::Empty => IntroPhase::PlayAGame,
        IntroPhase::PlayAGame => IntroPhase::Checkers,
        IntroPhase::Checkers => IntroPhase::OrDraughts,
        IntroPhase::OrDraughts => IntroPhase::Empty2,
        IntroPhase::Empty2 => IntroPhase::ButBoring,
        IntroPhase::ButBoring => IntroPhase::Twist,
        IntroPhase::Twist => IntroPhase::TellMe,
        IntroPhase::TellMe => IntroPhase::IllTake,
        IntroPhase::IllTake => IntroPhase::IllTake,
    }
}

/// The words with which the opponent leaves a phase; they are added to
/// the text on the screen, but for those after `OrDraughts`, which clear
/// it.
pub open spec fn intro_words(phase: IntroPhase) -> Seq<char> {
    match phase {
        IntroPhase::Empty => "Let's play a game."@,
        IntroPhase::PlayAGame => "\nYou know checkers, right?"@,
        IntroPhase::Checkers => "\nOr draughts. Whatever you prefer."@,
        IntroPhase::OrDraughts => ""@,
        IntroPhase::Empty2 => "But that'd be boring, wouldn't it?"@,
        IntroPhase::ButBoring => "\nLet's add a twist."@,
        IntroPhase::Twist => "\nYou must tell me your next move before I make mine."@,
        IntroPhase::TellMe => "\nI'll take black, so I go first."@,
        IntroPhase::IllTake => ""@,
    }
}

/// A step of the introduction, `elapsed` milliseconds after the program
/// started. Nothing happens once a game has begun. The player may `skip`
/// the introduction, which begins the game at once. Otherwise a phase is
/// left once its time has passed, with the opponent's next line; after
/// the last line the text fades, and once it has `faded` the game begins.
pub fn update_intro_text(
    turn: Turn,
    skip: bool,
    elapsed: u64,
    faded: bool,
    phase: &mut IntroPhase,
) -> (action: IntroAction)
    ensures
        turn != Turn::PreGame ==> action is Wait && *final(phase) == *old(phase),
        turn == Turn::PreGame && skip ==> action is Begin && *final(phase) == *old(phase),
        turn == Turn::PreGame && !skip && elapsed <= intro_deadline(*old(phase)) ==> action is Wait
            && *final(phase) == *old(phase),
        turn == Turn::PreGame && !skip && elapsed > intro_deadline(*old(phase)) ==> {
            &&& *final(phase) == intro_next(*old(phase))
            &&& if *old(phase) == IntroPhase::IllTake {
                if faded {
                    action is Begin
                } else {
                    action is Fade
                }
            } else {
                action matches IntroAction::Say(edit) && edit.words@ == intro_words(*old(phase))
                    && edit.append == (*old(phase) != IntroPhase::OrDraughts) && edit.colour is None
            }
        },
{
    if turn != Turn::PreGame {
        return IntroAction::Wait;
    }
    if skip {
        return IntroAction::Begin(BeginGameEvent);
    }
    let (deadline, next, words, append): (u64, IntroPhase, &'static str, bool) = match *phase {
        IntroPhase::Empty => (2000, IntroPhase::PlayAGame, "Let's play a game.", true),
        IntroPhase::PlayAGame => (4000, IntroPhase::Checkers, "\nYou know checkers, right?", true),
        IntroPhase::Checkers => (
            6000,
            IntroPhase::OrDraughts,
            "\nOr draughts. Whatever you prefer.",
            true,
        ),
        IntroPhase::OrDraughts => (8000, IntroPhase::Empty2, "", false),
        IntroPhase::Empty2 => (
            10000,
            IntroPhase::ButBoring,
            "But that'd be boring, wouldn't it?",
            true,
        ),
        IntroPhase::ButBoring => (12000, IntroPhase::Twist, "\nLet's add a twist.", true),
        IntroPhase::Twist => (
            14000,
            IntroPhase::TellMe,
            "\nYou must tell me your next move before I make mine.",
            true,
        ),
        IntroPhase::TellMe => (
            16000,
            IntroPhase::IllTake,
            "\nI'll take black, so I go first.",
            true,
        ),
        IntroPhase::IllTake => {
            if elapsed > 18000 {
                if !faded {
                    return IntroAction::Fade;
                } else {
                    return IntroAction::Begin(BeginGameEvent);
                }
            }
            return IntroAction::Wait;
        },
    };
    if elapsed > deadline {
        *phase = next;
        IntroAction::Say(TextEdit { words, append, colour: None })
    } else {
        IntroAction::Wait
    }
}

} // verus!
