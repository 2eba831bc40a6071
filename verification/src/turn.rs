//! The turns of a game and the line of text that names the current one.

use vstd::prelude::*;

verus! {

/// Where a game stands. Red declares a move in `BlackForesight`, Black
/// replies in `Black`, and Red's declared move is played in `Red`, or
/// replaced in `RedCorrection` where Black's reply has made it impossible.
#[derive(Clone, Copy, Debug, PartialEq, Eq, Structural)]
pub enum Turn {
    PreGame,
    Black,
    BlackForesight,
    Red,
    RedCorrection,
    PostGame,
}

/// The turn for which the header was last written.
#[derive(Clone, Copy, Debug, PartialEq, Eq, Structural)]
pub struct LastTurn(pub Turn);

/// The line of text shown above the board.
#[derive(Clone, Copy, Debug)]
pub struct Header(pub &'static str);

/// Asks for the game to begin.
#[derive(Clone, Copy, Debug, PartialEq, Eq, Structural)]
pub struct BeginGameEvent;

impl Default for LastTurn {
    /// No header has been written since before the game.
    fn default() -> (last: LastTurn)
        ensures
            last.0 == Turn::PreGame,
    {
        LastTurn(Turn::PreGame)
    }
}

/// The header that names a turn.
pub open spec fn turn_header(turn: Turn) -> Seq<char> {
    match turn {
        Turn::PreGame => ""@,
        Turn::Black => "Black's Turn"@,
        Turn::BlackForesight => "Choose your next move"@,
        Turn::Red => "Your Turn"@,
        Turn::RedCorrection => "Your chosen move was invalidated by Black, choose another"@,
        Turn::PostGame => ""@,
    }
}

impl Turn {
    /// Whether a game is being played: neither before nor after it.
    pub open spec fn spec_in_play(self) -> bool {
        self != Turn::PreGame && self != Turn::PostGame
    }

    /// Whether a game is being played: neither before nor after it.
    pub fn in_play(self) -> (b: bool)
        ensures
            b == self.spec_in_play(),
    {
        match self {
            Turn::PreGame | Turn::PostGame => false,
            _ => true,
        }
    }
}

/// Writes the header anew where the turn has changed since it was last
/// written, and remembers the turn.
pub fn update_header_with_turn(turn: Turn, last_turn: &mut LastTurn, header: &mut Header)
    ensures
        final(last_turn).0 == turn,
        turn != old(last_turn).0 ==> final(header).0@ == turn_header(turn),
        turn == old(last_turn).0 ==> final(header).0 == old(header).0,
{
    if turn != last_turn.0 {
        header.0 = match turn {
            Turn::PreGame => "",
            Turn::Black => "Black's Turn",
            Turn::BlackForesight => "Choose your next move",
            Turn::Red => "Your Turn",
            Turn::RedCorrection => "Your chosen move was invalidated by Black, choose another",
            Turn::PostGame => "",
        };
        last_turn.0 = turn;
    }
}

/// Whether the large text in the middle of the screen is shown: before
/// and after a game only.
pub fn screen_text_display(turn: Turn) -> (shown: bool)
    ensures
        shown == !turn.spec_in_play(),
{
    !turn.in_play()
}

/// Begins the game where it was asked for: Red is to declare a move.
pub fn begin(events: &Vec<BeginGameEvent>, turn: &mut Turn)
    ensures
        *final(turn) == (if events@.len() == 0 {
            *old(turn)
        } else {
            Turn::BlackForesight
        }),
{
    if events.len() == 0 {
        return;
    }
    *turn = Turn::BlackForesight;
}

} // verus!
