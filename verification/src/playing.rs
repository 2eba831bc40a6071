//! The play of a game: how a declared move is played, how the turns
//! follow each other, and what each side may do.

use crate::board::{Coord, PieceId, Team};
use crate::game::{
    after_kills, after_move, crowned, off_board, set_up_checkerboard, starting_pieces, Board,
    Checker, Kingify,
};
use crate::jumps::copy_coords;
use crate::places::PlaceMap;
use crate::turn::{Header, Turn};
use vstd::prelude::*;

verus! {

/// The piece that the player has picked up, if any.
#[derive(Clone, Copy, Debug, PartialEq, Eq, Structural)]
pub struct SelectedChecker(pub Option<PieceId>);

/// Says that the player has picked up a piece.
#[derive(Clone, Copy, Debug, PartialEq, Eq, Structural)]
pub struct SelectedCheckerEvent(pub PieceId);

/// The move that Red has declared: from `start`, over the cells `jumped`,
/// landing on the cells `jumps` in turn. `performed` says whether it has
/// been played.
#[derive(Clone, Debug, PartialEq, Eq)]
pub struct RedMove {
    pub start: Coord,
    pub jumped: Vec<Coord>,
    pub jumps: Vec<Coord>,
    pub performed: bool,
}

/// Whether Black has made its move in this turn.
#[derive(Clone, Copy, Debug, PartialEq, Eq, Structural)]
pub struct BlackHasMoved(pub bool);

/// Says that the game has ended, and which side has won.
#[derive(Clone, Copy, Debug, PartialEq, Eq, Structural)]
pub struct EndGameEvent(pub Team);

/// What a move has done, for those who show it: the piece that moved, the
/// cells it landed on in turn, the pieces on the cells it jumped over, and
/// whether it has become a king.
#[derive(Clone, Debug, PartialEq, Eq)]
pub struct Played {
    pub piece: PieceId,
    pub path: Vec<Coord>,
    pub captured: Vec<PieceId>,
    pub kinged: Option<Kingify>,
}

/// The pieces that stand on the given cells, cell by cell.
pub open spec fn occupants(cells: Map<Coord, (PieceId, Team)>, coords: Seq<Coord>) -> Seq<PieceId> {
    Seq::new(coords.len(), |k: int| cells[coords[k]].0)
}

/// Whether a declared move can be played on a board: a piece stands on
/// `start`, a piece stands on each cell of `jumped`, and the last cell of
/// `jumps` is a free cell of the board.
pub open spec fn declared_move_valid(
    cells: Map<Coord, (PieceId, Team)>,
    start: Coord,
    jumped: Seq<Coord>,
    jumps: Seq<Coord>,
) -> bool {
    &&& cells.contains_key(start)
    &&& forall|k: int| 0 <= k < jumped.len() ==> cells.contains_key(#[trigger] jumped[k])
    &&& jumps.len() > 0
    &&& jumps.last().on_board()
    &&& !cells.contains_key(jumps.last())
}

/// The pieces after a piece has moved from `start` along `jumps` and the
/// pieces on the cells `jumped` have been captured.
pub open spec fn after_declared_move(
    cells: Map<Coord, (PieceId, Team)>,
    pieces: Seq<Checker>,
    start: Coord,
    jumped: Seq<Coord>,
    jumps: Seq<Coord>,
) -> Seq<Checker> {
    after_kills(after_move(pieces, cells[start].0 as int, jumps.last()), occupants(cells, jumped))
}

/// Whether `played` reports the move from `start` over the cells `jumped`,
/// landing on the cells `jumps` in turn, on the board as it was before the
/// move.
pub open spec fn reports(
    played: Played,
    cells: Map<Coord, (PieceId, Team)>,
    pieces: Seq<Checker>,
    start: Coord,
    jumped: Seq<Coord>,
    jumps: Seq<Coord>,
) -> bool {
    &&& played.piece == cells[start].0
    &&& played.path@ == jumps
    &&& played.captured@ == occupants(cells, jumped)
    &&& played.kinged == crowned(pieces[cells[start].0 as int].team, jumps.last())
}

/// The pieces that stand on the given cells, or `None` where one of the
/// cells is free.
pub fn occupants_of(board: &Board, coords: &Vec<Coord>) -> (ids: Option<Vec<PieceId>>)
    requires
        board.wf(),
    ensures
        ids is Some <==> forall|k: int|
            0 <= k < coords@.len() ==> board.cells().contains_key(#[trigger] coords@[k]),
        ids matches Some(v) ==> v@ == occupants(board.cells(), coords@),
{
    let mut ids: Vec<PieceId> = Vec::new();
    let mut i: usize = 0;
    while i < coords.len()
        invariant
            board.wf(),
            i <= coords@.len(),
            ids@ == occupants(board.cells(), coords@.take(i as int)),
            forall|k: int| 0 <= k < i ==> board.cells().contains_key(#[trigger] coords@[k]),
        decreases coords@.len() - i,
    {
        match board.map().get_place_checker(coords[i]) {
            Some(id) => {
                ids.push(id);
            },
            None => {
                return None;
            },
        }
        assert(ids@ =~= occupants(board.cells(), coords@.take(i + 1)));
        i = i + 1;
    }
    assert(coords@.take(i as int) =~= coords@);
    Some(ids)
}

/// Moves the piece `id` along `jumps` and captures the pieces `kills`.
pub fn perform(board: &mut Board, id: PieceId, jumps: &Vec<Coord>, kills: &Vec<PieceId>) -> (kinged:
    Option<Kingify>)
    requires
        old(board).wf(),
        id < old(board).pieces().len(),
        old(board).pieces()[id as int].alive,
        jumps@.len() > 0,
        jumps@.last().on_board(),
        !old(board).cells().contains_key(jumps@.last()),
    ensures
        final(board).wf(),
        final(board).pieces() == after_kills(
            after_move(old(board).pieces(), id as int, jumps@.last()),
            kills@,
        ),
        kinged == crowned(old(board).pieces()[id as int].team, jumps@.last()),
{
    let kinged = board.move_piece(id, jumps);
    let ghost moved = board.pieces();
    let mut i: usize = 0;
    while i < kills.len()
        invariant
            board.wf(),
            i <= kills@.len(),
            board.pieces() == after_kills(moved, kills@.take(i as int)),
        decreases kills@.len() - i,
    {
        let k = kills[i];
        proof {
            assert(kills@.take(i + 1).drop_last() =~= kills@.take(i as int));
            assert(kills@.take(i + 1).last() == k);
        }
        if k < board.checkers().len() && board.checkers()[k].alive {
            let _ = board.kill_piece(k);
        }
        i = i + 1;
    }
    assert(kills@.take(i as int) =~= kills@);
    kinged
}

/// Plays the move that Red has declared, if it can still be played on the
/// board as it is now, and reports it; otherwise leaves the board as it
/// is.
pub fn do_player_turn_or_correction(board: &mut Board, red_move: &RedMove) -> (done: Option<Played>)
    requires
        old(board).wf(),
    ensures
        final(board).wf(),
        done is Some <==> declared_move_valid(
            old(board).cells(),
            red_move.start,
            red_move.jumped@,
            red_move.jumps@,
        ),
        done matches Some(played) ==> {
            &&& final(board).pieces() == after_declared_move(
                old(board).cells(),
                old(board).pieces(),
                red_move.start,
                red_move.jumped@,
                red_move.jumps@,
            )
            &&& reports(
                played,
                old(board).cells(),
                old(board).pieces(),
                red_move.start,
                red_move.jumped@,
                red_move.jumps@,
            )
        },
        done is None ==> *final(board) == *old(board),
{
    let checker_id = match board.map().get_place_checker(red_move.start) {
        Some(id) => id,
        None => {
            return None;
        },
    };
    let kills = match occupants_of(board, &red_move.jumped) {
        Some(kills) => kills,
        None => {
            return None;
        },
    };
    if red_move.jumps.len() == 0 {
        return None;
    }
    let dest = red_move.jumps[red_move.jumps.len() - 1];
    if board.map().is_place_free(dest) {
        let kinged = perform(board, checker_id, &red_move.jumps, &kills);
        Some(Played { piece: checker_id, path: copy_coords(&red_move.jumps), captured: kills, kinged })
    } else {
        None
    }
}

/// A game in progress: the board, the places that the player may choose,
/// the turn, and what the two sides have declared and done in it.
#[derive(Clone, Debug)]
pub struct Game {
    pub board: Board,
    pub places: PlaceMap,
    pub turn: Turn,
    pub selected: SelectedChecker,
    pub red_move: RedMove,
    pub moved: BlackHasMoved,
    pub header: Header,
}

impl Game {
    /// The invariant of a game: that of its board and of its places.
    pub open spec fn wf(&self) -> bool {
        self.board.wf() && self.places.wf()
    }

    /// A game before it begins: the pieces on their starting cells, no
    /// piece in hand, no move declared.
    pub fn new() -> (game: Game)
        ensures
            game.wf(),
            game.board.pieces() == starting_pieces(),
            game.turn == Turn::PreGame,
            game.selected.0 is None,
            game.red_move.performed,
            game.red_move.start == off_board(),
            game.red_move.jumps@.len() == 0,
            game.red_move.jumped@.len() == 0,
            !game.moved.0,
            game.header.0@ == ""@,
            forall|pos: Coord| pos.on_board() ==> (#[trigger] game.places.place(pos)).is_blank(),
    {
        Game {
            board: set_up_checkerboard(),
            places: PlaceMap::new(),
            turn: Turn::PreGame,
            selected: SelectedChecker(None),
            red_move: RedMove {
                start: Coord { x: -1, y: -1 },
                jumped: Vec::new(),
                jumps: Vec::new(),
                performed: true,
            },
            moved: BlackHasMoved(false),
            header: Header(""),
        }
    }
}

/// Ends Black's turn once Black has moved and nothing is moving on the
/// screen any more: it is Red's turn, and Black has not moved in it.
pub fn animate_black_turn(animating: bool, moved: &mut BlackHasMoved, turn: &mut Turn)
    ensures
        *old(turn) == Turn::Black && old(moved).0 && !animating ==> *final(turn) == Turn::Red
            && !final(moved).0,
        !(*old(turn) == Turn::Black && old(moved).0 && !animating) ==> *final(turn) == *old(turn)
            && final(moved).0 == old(moved).0,
{
    if *turn != Turn::Black || !moved.0 {
        return;
    }
    if !animating {
        *turn = Turn::Red;
        moved.0 = false;
    }
}

/// Red's turn. The declared move is played first, if that has not been
/// done: where it can be played on the board as it is now, it is played
/// and marked as performed; where it cannot, the board stays as it is and
/// Red must choose another move (`RedCorrection`). Once the move has been
/// performed and nothing is moving on the screen any more, Red declares
/// the next move (`BlackForesight`).
pub fn animate_red_turn(game: &mut Game, animating: bool) -> (played: Option<Played>)
    requires
        old(game).wf(),
    ensures
        final(game).wf(),
        played is Some <==> old(game).turn == Turn::Red && !old(game).red_move.performed
            && declared_move_valid(
            old(game).board.cells(),
            old(game).red_move.start,
            old(game).red_move.jumped@,
            old(game).red_move.jumps@,
        ),
        played matches Some(p) ==> reports(
            p,
            old(game).board.cells(),
            old(game).board.pieces(),
            old(game).red_move.start,
            old(game).red_move.jumped@,
            old(game).red_move.jumps@,
        ),
        final(game).places == old(game).places,
        final(game).selected == old(game).selected,
        final(game).moved == old(game).moved,
        final(game).header == old(game).header,
        final(game).red_move.start == old(game).red_move.start,
        final(game).red_move.jumped == old(game).red_move.jumped,
        final(game).red_move.jumps == old(game).red_move.jumps,
        old(game).turn != Turn::Red ==> *final(game) == *old(game),
        old(game).turn == Turn::Red && old(game).red_move.performed ==> {
            &&& final(game).board == old(game).board
            &&& final(game).red_move.performed
            &&& final(game).turn == (if animating {
                Turn::Red
            } else {
                Turn::BlackForesight
            })
        },
        old(game).turn == Turn::Red && !old(game).red_move.performed && declared_move_valid(
            old(game).board.cells(),
            old(game).red_move.start,
            old(game).red_move.jumped@,
            old(game).red_move.jumps@,
        ) ==> {
            &&& final(game).turn == Turn::Red
            &&& final(game).red_move.performed
            &&& final(game).board.pieces() == after_declared_move(
                old(game).board.cells(),
                old(game).board.pieces(),
                old(game).red_move.start,
                old(game).red_move.jumped@,
                old(game).red_move.jumps@,
            )
        },
        old(game).turn == Turn::Red && !old(game).red_move.performed && !declared_move_valid(
            old(game).board.cells(),
            old(game).red_move.start,
            old(game).red_move.jumped@,
            old(game).red_move.jumps@,
        ) ==> {
            &&& final(game).turn == Turn::RedCorrection
            &&& !final(game).red_move.performed
            &&& final(game).board == old(game).board
        },
{
    if game.turn == Turn::Red {
        if !game.red_move.performed {
            let dptoc = do_player_turn_or_correction(&mut game.board, &game.red_move);
            if dptoc.is_none() {
                game.turn = Turn::RedCorrection;
                return None;
            }
            game.red_move.performed = true;
            return dptoc;
        }
        if !animating {
            game.turn = Turn::BlackForesight;
        }
    }
    None
}

} // verus!
