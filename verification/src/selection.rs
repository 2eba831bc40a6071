//! What the player may do: which destinations are offered for the piece
//! in hand, how a choice is taken up, and when the player has lost.

use crate::board::{
    available_moves, lemma_moves_among_contains, piece_offsets, Coord, PieceId, Team,
};
use crate::game::{Board, Checker};
use crate::jumps::{
    capture_over, chains_view, copy_coords, has_capture, jump_chains, lemma_jump_chains,
    lemma_valid_chain_cells,
};
use crate::opponent::{
    best_jump, lemma_longest_first, lemma_team_jumps, lemma_team_movers, longest_first, team_jumps,
    team_movers,
};
use crate::places::CheckerPlace;
use crate::playing::{
    after_declared_move, declared_move_valid, do_player_turn_or_correction, reports, EndGameEvent,
    Game, Played, RedMove, SelectedCheckerEvent,
};
use crate::turn::Turn;
use vstd::prelude::*;

verus! {

/// Whether a piece can do anything: capture, or make a plain move.
pub open spec fn can_act(cells: Map<Coord, (PieceId, Team)>, piece: Checker) -> bool {
    piece.alive && (jump_chains(cells, piece.pos, piece.team, piece.king).len() > 0
        || available_moves(cells, piece.pos, piece.team, piece.king).len() > 0)
}

/// Whether some piece of `team` can do anything.
pub open spec fn side_can_act(
    cells: Map<Coord, (PieceId, Team)>,
    pieces: Seq<Checker>,
    team: Team,
) -> bool {
    exists|i: int|
        0 <= i < pieces.len() && (#[trigger] pieces[i]).team == team && can_act(cells, pieces[i])
}

/// Whether some living piece of `team` can capture.
pub open spec fn side_must_jump(
    cells: Map<Coord, (PieceId, Team)>,
    pieces: Seq<Checker>,
    team: Team,
) -> bool {
    exists|i: int|
        0 <= i < pieces.len() && (#[trigger] pieces[i]).alive && pieces[i].team == team
            && jump_chains(cells, pieces[i].pos, team, pieces[i].king).len() > 0
}

/// Whether a piece is blocked: in none of its directions is the next cell
/// a free cell of the board, and in none can it capture.
pub open spec fn blocked(cells: Map<Coord, (PieceId, Team)>, piece: Checker) -> bool {
    forall|k: int|
        0 <= k < piece_offsets(piece.team, piece.king).len() ==> {
            let off = #[trigger] piece_offsets(piece.team, piece.king)[k];
            &&& capture_over(cells, piece.team, piece.pos, off) is None
            &&& piece.pos.spec_step(off, 1) matches Some(next) ==> cells.contains_key(next)
        }
}

/// A blocked piece can do nothing, and a piece that can do nothing is
/// blocked.
pub proof fn lemma_blocked(cells: Map<Coord, (PieceId, Team)>, piece: Checker)
    requires
        piece.alive,
    ensures
        blocked(cells, piece) <==> !can_act(cells, piece),
{
    let offsets = piece_offsets(piece.team, piece.king);
    let moves = available_moves(cells, piece.pos, piece.team, piece.king);
    lemma_jump_chains(cells, piece.pos, piece.team, piece.king);
    if blocked(cells, piece) {
        if moves.len() > 0 {
            let c = moves[0];
            assert(moves.contains(c));
            lemma_moves_among_contains(cells, piece.pos, offsets, c);
        }
        if has_capture(cells, piece.team, piece.pos, offsets) {
            let k = choose|k: int|
                0 <= k < offsets.len() && capture_over(
                    cells,
                    piece.team,
                    piece.pos,
                    #[trigger] offsets[k],
                ) is Some;
        }
    }
    if !can_act(cells, piece) {
        assert forall|k: int| 0 <= k < offsets.len() implies {
            let off = #[trigger] offsets[k];
            &&& capture_over(cells, piece.team, piece.pos, off) is None
            &&& piece.pos.spec_step(off, 1) matches Some(next) ==> cells.contains_key(next)
        } by {
            let off = offsets[k];
            if let Some(next) = piece.pos.spec_step(off, 1) {
                lemma_moves_among_contains(cells, piece.pos, offsets, next);
                if !cells.contains_key(next) {
                    assert(moves.contains(next));
                }
            }
        }
    }
}

/// A side whose living pieces are all blocked cannot do anything.
pub proof fn lemma_blocked_side(
    cells: Map<Coord, (PieceId, Team)>,
    pieces: Seq<Checker>,
    team: Team,
)
    requires
        forall|i: int|
            0 <= i < pieces.len() && (#[trigger] pieces[i]).team == team && pieces[i].alive
                ==> blocked(cells, pieces[i]),
    ensures
        !side_can_act(cells, pieces, team),
{
    assert forall|i: int| 0 <= i < pieces.len() && (#[trigger] pieces[i]).team == team implies !can_act(
        cells,
        pieces[i],
    ) by {
        if pieces[i].alive {
            lemma_blocked(cells, pieces[i]);
        }
    }
}

/// Black can neither capture nor make a plain move exactly if no Black
/// piece can do anything.
pub proof fn lemma_black_stuck(cells: Map<Coord, (PieceId, Team)>, pieces: Seq<Checker>)
    requires
        pieces.len() <= usize::MAX,
    ensures
        !side_can_act(cells, pieces, Team::Black) <==> (longest_first(
            team_jumps(cells, pieces, Team::Black, pieces.len() as int),
        ) is None && team_movers(cells, pieces, Team::Black, pieces.len() as int).len() == 0),
{
    let n = pieces.len() as int;
    let candidates = team_jumps(cells, pieces, Team::Black, n);
    let ids = team_movers(cells, pieces, Team::Black, n);
    lemma_longest_first(candidates);
    lemma_team_jumps(cells, pieces, Team::Black, n);
    lemma_team_movers(cells, pieces, Team::Black, n);
    if side_can_act(cells, pieces, Team::Black) {
        let i = choose|i: int|
            0 <= i < pieces.len() && (#[trigger] pieces[i]).team == Team::Black && can_act(
                cells,
                pieces[i],
            );
        if jump_chains(cells, pieces[i].pos, Team::Black, pieces[i].king).len() == 0 {
            assert(ids.contains(i as usize));
        }
    }
    if candidates.len() > 0 {
        let i = choose|i: int|
            0 <= i < n && (#[trigger] pieces[i]).alive && pieces[i].team == Team::Black
                && jump_chains(cells, pieces[i].pos, Team::Black, pieces[i].king).len() > 0;
        assert(can_act(cells, pieces[i]));
    }
    if ids.len() > 0 {
        let id = ids[0];
        assert(can_act(cells, pieces[id as int]));
    }
}

/// Whether some piece of `team` can capture or make a plain move.
pub fn can_side_act(board: &Board, team: Team) -> (b: bool)
    requires
        board.wf(),
    ensures
        b == side_can_act(board.cells(), board.pieces(), team),
{
    let checkers = board.checkers();
    let mut i: usize = 0;
    while i < checkers.len()
        invariant
            board.wf(),
            checkers@ == board.pieces(),
            i <= checkers@.len(),
            forall|k: int|
                0 <= k < i && (#[trigger] checkers@[k]).team == team ==> !can_act(
                    board.cells(),
                    checkers@[k],
                ),
        decreases checkers@.len() - i,
    {
        let checker = checkers[i];
        if checker.team == team && checker.alive {
            let jumps = board.map().get_jumps(checker.pos, team, checker.king);
            if jumps.len() != 0 {
                assert(chains_view(jumps@).len() > 0);
                assert(can_act(board.cells(), checkers@[i as int]));
                return true;
            }
            let moves = board.map().get_available_moves(checker.pos, team, checker.king);
            if moves.len() != 0 {
                assert(can_act(board.cells(), checkers@[i as int]));
                return true;
            }
            assert(chains_view(jumps@).len() == 0);
        }
        i = i + 1;
    }
    false
}

/// Ends the game where Red is to choose a move and cannot: no Red piece
/// can capture or make a plain move. Black has won then.
pub fn check_player_loss(board: &Board, turn: &mut Turn) -> (end: Option<EndGameEvent>)
    requires
        board.wf(),
    ensures
        ({
            let lost = (*old(turn) == Turn::BlackForesight || *old(turn) == Turn::RedCorrection)
                && !side_can_act(board.cells(), board.pieces(), Team::Red);
            &&& lost ==> *final(turn) == Turn::PostGame && end == Some(EndGameEvent(Team::Black))
            &&& !lost ==> *final(turn) == *old(turn) && end is None
        }),
{
    match *turn {
        Turn::BlackForesight | Turn::RedCorrection => {},
        _ => {
            return None;
        },
    }
    let lost = !can_side_act(board, Team::Red);
    if lost {
        *turn = Turn::PostGame;
        Some(EndGameEvent(Team::Black))
    } else {
        None
    }
}

/// The last of the chains that ends on `dest`, if there is one.
pub open spec fn last_chain_to(chains: Seq<(Seq<Coord>, Seq<Coord>)>, dest: Coord) -> Option<
    (Seq<Coord>, Seq<Coord>),
>
    decreases chains.len(),
{
    if chains.len() == 0 {
        None
    } else if chains.last().1.len() > 0 && chains.last().1.last() == dest {
        Some(chains.last())
    } else {
        last_chain_to(chains.drop_last(), dest)
    }
}

/// Whether the piece `id` is one that the player can pick up: a living
/// Red piece.
pub open spec fn selectable(pieces: Seq<Checker>, id: int) -> bool {
    0 <= id < pieces.len() && pieces[id].alive && pieces[id].team == Team::Red
}

/// Whether the piece `id` may not move at all because another Red piece
/// can capture and this one cannot.
pub open spec fn refused(cells: Map<Coord, (PieceId, Team)>, pieces: Seq<Checker>, id: int) -> bool {
    &&& selectable(pieces, id)
    &&& jump_chains(cells, pieces[id].pos, Team::Red, pieces[id].king).len() == 0
    &&& side_must_jump(cells, pieces, Team::Red)
}

/// The move that is offered to the piece `id` with `dest` as its
/// destination, as the cells jumped over and the cells landed on. Where
/// the piece can capture, only its jump chains are offered; where it
/// cannot but another Red piece can, nothing is; otherwise its plain
/// moves are.
pub open spec fn offered(
    cells: Map<Coord, (PieceId, Team)>,
    pieces: Seq<Checker>,
    id: int,
    dest: Coord,
) -> Option<(Seq<Coord>, Seq<Coord>)> {
    if !selectable(pieces, id) {
        None
    } else {
        let chains = jump_chains(cells, pieces[id].pos, Team::Red, pieces[id].king);
        if chains.len() > 0 {
            last_chain_to(chains, dest)
        } else if side_must_jump(cells, pieces, Team::Red) {
            None
        } else if available_moves(cells, pieces[id].pos, Team::Red, pieces[id].king).contains(dest) {
            Some((Seq::empty(), seq![dest]))
        } else {
            None
        }
    }
}

/// A chain found by `last_chain_to` is one of the chains and ends on the
/// cell asked for.
pub proof fn lemma_last_chain_to(chains: Seq<(Seq<Coord>, Seq<Coord>)>, dest: Coord)
    ensures
        last_chain_to(chains, dest) matches Some(chain) ==> chains.contains(chain) && chain.1.len()
            > 0 && chain.1.last() == dest,
    decreases chains.len(),
{
    if chains.len() > 0 {
        if chains.last().1.len() > 0 && chains.last().1.last() == dest {
            assert(chains[chains.len() - 1] == chains.last());
        } else {
            lemma_last_chain_to(chains.drop_last(), dest);
            if let Some(chain) = last_chain_to(chains.drop_last(), dest) {
                let k = choose|k: int|
                    0 <= k < chains.drop_last().len() && chains.drop_last()[k] == chain;
                assert(chains[k] == chain);
            }
        }
    }
}

/// Capture is mandatory: where some Red piece can capture, every move
/// that is offered is a jump chain of the piece in hand, and so captures
/// at least one piece.
pub proof fn lemma_mandatory_capture(
    cells: Map<Coord, (PieceId, Team)>,
    pieces: Seq<Checker>,
    id: int,
    dest: Coord,
)
    requires
        side_must_jump(cells, pieces, Team::Red),
    ensures
        offered(cells, pieces, id, dest) matches Some(chain) ==> {
            &&& chain.0.len() > 0
            &&& jump_chains(cells, pieces[id].pos, Team::Red, pieces[id].king).contains(chain)
        },
{
    if let Some(chain) = offered(cells, pieces, id, dest) {
        let chains = jump_chains(cells, pieces[id].pos, Team::Red, pieces[id].king);
        lemma_last_chain_to(chains, dest);
        lemma_jump_chains(cells, pieces[id].pos, Team::Red, pieces[id].king);
        let k = choose|k: int| 0 <= k < chains.len() && chains[k] == chain;
        assert(chains[k].1.len() > 0);
    }
}

/// Capture is mandatory for the opponent too: where some Black piece can
/// capture, Black's policy finds a chain of captures.
pub proof fn lemma_black_must_capture(cells: Map<Coord, (PieceId, Team)>, pieces: Seq<Checker>)
    requires
        pieces.len() <= usize::MAX,
        side_must_jump(cells, pieces, Team::Black),
    ensures
        longest_first(team_jumps(cells, pieces, Team::Black, pieces.len() as int)) is Some,
{
    let n = pieces.len() as int;
    lemma_team_jumps(cells, pieces, Team::Black, n);
    lemma_longest_first(team_jumps(cells, pieces, Team::Black, n));
    let i = choose|i: int|
        0 <= i < pieces.len() && (#[trigger] pieces[i]).alive && pieces[i].team == Team::Black
            && jump_chains(cells, pieces[i].pos, Team::Black, pieces[i].king).len() > 0;
    assert(pieces[i].alive);
}

/// What the place of `dest` must show for the piece `id`.
pub open spec fn shows(
    place: CheckerPlace,
    cells: Map<Coord, (PieceId, Team)>,
    pieces: Seq<Checker>,
    id: int,
    dest: Coord,
) -> bool {
    match offered(cells, pieces, id, dest) {
        Some((jumped, jumps)) => place.valid && place.jumped@ == jumped && place.jumps@ == jumps,
        None => place.is_blank(),
    }
}

/// Marks the places to which the piece that the player has picked up may
/// move, each with the move that leads there, and makes all other places
/// blank. See [`offered`]. Where the piece may not move because another
/// piece can capture, the header says so.
pub fn enable_valid_spaces(game: &mut Game, event: SelectedCheckerEvent)
    requires
        old(game).wf(),
    ensures
        final(game).wf(),
        final(game).board == old(game).board,
        final(game).turn == old(game).turn,
        final(game).selected == old(game).selected,
        final(game).red_move == old(game).red_move,
        final(game).moved == old(game).moved,
        forall|dest: Coord|
            dest.on_board() ==> shows(
                #[trigger] final(game).places.place(dest),
                old(game).board.cells(),
                old(game).board.pieces(),
                event.0 as int,
                dest,
            ),
        refused(old(game).board.cells(), old(game).board.pieces(), event.0 as int)
            ==> final(game).header.0@ == "You must take any available jumps"@,
        !refused(old(game).board.cells(), old(game).board.pieces(), event.0 as int)
            ==> final(game).header == old(game).header,
{
    game.places.clear();
    let id = event.0;
    let ghost cells = game.board.cells();
    let ghost pieces = game.board.pieces();
    if id >= game.board.checkers().len() {
        return;
    }
    let checker = game.board.checkers()[id];
    if !checker.alive || checker.team != Team::Red {
        return;
    }
    let pos = checker.pos;
    let jumps = game.board.map().get_jumps(pos, Team::Red, checker.king);
    let ghost chains = jump_chains(cells, pos, Team::Red, checker.king);
    if jumps.len() == 0 {
        assert(chains_view(jumps@).len() == 0);
        let others = best_jump(&game.board, Team::Red);
        proof {
            lemma_team_jumps(cells, pieces, Team::Red, pieces.len() as int);
            lemma_longest_first(team_jumps(cells, pieces, Team::Red, pieces.len() as int));
        }
        if others.is_some() {
            game.header.0 = "You must take any available jumps";
            return;
        }
        let moves = game.board.map().get_available_moves(pos, Team::Red, checker.king);
        let mut i: usize = 0;
        while i < moves.len()
            invariant
                game.places.wf(),
                old(game).wf(),
                game.board == old(game).board,
                game.turn == old(game).turn,
                game.selected == old(game).selected,
                game.red_move == old(game).red_move,
                game.moved == old(game).moved,
                game.header == old(game).header,
                i <= moves@.len(),
                moves@ == available_moves(cells, pos, Team::Red, checker.king),
                forall|dest: Coord|
                    dest.on_board() ==> {
                        let place = #[trigger] game.places.place(dest);
                        if moves@.take(i as int).contains(dest) {
                            place.valid && place.jumped@ == Seq::<Coord>::empty() && place.jumps@
                                == seq![dest]
                        } else {
                            place.is_blank()
                        }
                    },
            decreases moves@.len() - i,
        {
            let mov = moves[i];
            let mut path: Vec<Coord> = Vec::new();
            path.push(mov);
            let ghost before = game.places;
            proof {
                assert(moves@.contains(moves@[i as int]));
                lemma_moves_among_contains(
                    cells,
                    pos,
                    piece_offsets(Team::Red, checker.king),
                    mov,
                );
            }
            game.places.insert(
                mov,
                CheckerPlace { pos: mov, jumps: path, jumped: Vec::new(), valid: true },
            );
            proof {
                assert(moves@.take(i + 1) =~= moves@.take(i as int).push(mov));
                assert forall|dest: Coord| dest.on_board() implies {
                    let place = #[trigger] game.places.place(dest);
                    if moves@.take(i + 1).contains(dest) {
                        place.valid && place.jumped@ == Seq::<Coord>::empty() && place.jumps@
                            == seq![dest]
                    } else {
                        place.is_blank()
                    }
                } by {
                    let shorter = moves@.take(i as int);
                    let longer = moves@.take(i + 1);
                    if dest == mov {
                        assert(longer[i as int] == mov);
                        assert(game.places.place(dest).jumps@ =~= seq![dest]);
                    } else {
                        assert(game.places.place(dest) == before.place(dest));
                        if shorter.contains(dest) {
                            let k = choose|k: int| 0 <= k < shorter.len() && shorter[k] == dest;
                            assert(longer[k] == dest);
                        }
                        if longer.contains(dest) {
                            let k = choose|k: int| 0 <= k < longer.len() && longer[k] == dest;
                            assert(shorter[k] == dest);
                        }
                    }
                }
            }
            i = i + 1;
        }
        proof {
            assert(moves@.take(i as int) =~= moves@);
            assert(!side_must_jump(cells, pieces, Team::Red));
        }
    } else {
        let mut i: usize = 0;
        proof {
            lemma_jump_chains(cells, pos, Team::Red, checker.king);
            assert(chains_view(jumps@).take(0) =~= Seq::empty());
        }
        while i < jumps.len()
            invariant
                game.places.wf(),
                old(game).wf(),
                game.board == old(game).board,
                game.turn == old(game).turn,
                game.selected == old(game).selected,
                game.red_move == old(game).red_move,
                game.moved == old(game).moved,
                game.header == old(game).header,
                i <= jumps@.len(),
                chains_view(jumps@) == chains,
                chains == jump_chains(cells, pos, Team::Red, checker.king),
                forall|j: int|
                    0 <= j < chains.len() ==> {
                        let found = #[trigger] chains[j];
                        crate::jumps::valid_chain(
                            cells,
                            Team::Red,
                            piece_offsets(Team::Red, checker.king),
                            pos,
                            found,
                        ) && found.1.len() > 0
                    },
                forall|dest: Coord|
                    dest.on_board() ==> {
                        let place = #[trigger] game.places.place(dest);
                        match last_chain_to(chains.take(i as int), dest) {
                            Some((jumped, jumps)) => place.valid && place.jumped@ == jumped
                                && place.jumps@ == jumps,
                            None => place.is_blank(),
                        }
                    },
            decreases jumps@.len() - i,
        {
            let ghost chain = chains[i as int];
            proof {
                assert(chain == (jumps@[i as int].0@, jumps@[i as int].1@));
                lemma_valid_chain_cells(
                    cells,
                    Team::Red,
                    piece_offsets(Team::Red, checker.king),
                    pos,
                    chain,
                );
                assert(chain.1[chain.1.len() - 1].on_board());
            }
            let hopped = copy_coords(&jumps[i].0);
            let hops = copy_coords(&jumps[i].1);
            let dest = hops[hops.len() - 1];
            let ghost before = game.places;
            game.places.insert(
                dest,
                CheckerPlace { pos: dest, jumps: hops, jumped: hopped, valid: true },
            );
            proof {
                assert(chains.take(i + 1).drop_last() =~= chains.take(i as int));
                assert(chains.take(i + 1).last() == chain);
                assert forall|d: Coord| d.on_board() implies {
                    let place = #[trigger] game.places.place(d);
                    match last_chain_to(chains.take(i + 1), d) {
                        Some((jumped, jumps)) => place.valid && place.jumped@ == jumped
                            && place.jumps@ == jumps,
                        None => place.is_blank(),
                    }
                } by {
                    if d != dest {
                        assert(game.places.place(d) == before.place(d));
                    }
                }
            }
            i = i + 1;
        }
        proof {
            assert(chains.take(i as int) =~= chains);
        }
    }
}

/// What the player has done with the pointer.
#[derive(Clone, Copy, Debug, PartialEq, Eq, Structural)]
pub enum PickingEvent {
    /// Picked up the piece.
    SelectedChecker(PieceId),
    /// Chose the cell as a destination.
    SelectedPlace(Coord),
    /// Put the piece down again.
    Deselected(PieceId),
    /// Anything else.
    Other,
}

/// What follows from the player's input: a piece was picked up, a move
/// was played, or the game has ended.
#[derive(Clone, Debug, PartialEq, Eq)]
pub struct Selecting {
    pub picked: Option<SelectedCheckerEvent>,
    pub played: Option<Played>,
    pub end_game: Option<EndGameEvent>,
}

/// The piece in hand, not counting a piece that has been captured.
pub open spec fn live_selection(pieces: Seq<Checker>, selected: Option<PieceId>) -> Option<PieceId> {
    match selected {
        Some(c) => if c < pieces.len() && !pieces[c as int].alive {
            None
        } else {
            Some(c)
        },
        None => None,
    }
}

/// Whether the player now chooses a move: in `BlackForesight` the move
/// to declare, in `RedCorrection` the move to play at once.
pub open spec fn choosing(turn: Turn) -> bool {
    turn == Turn::BlackForesight || turn == Turn::RedCorrection
}

/// The words of the header after a destination that was not offered.
pub open spec fn cannot_move_there() -> Seq<char> {
    "You cannot move that checker to that position"@
}

/// Takes up the player's input.
///
/// A captured piece is no longer in hand. The forfeit signal ends the
/// game. Picking up a piece puts it in hand and reports that; putting it
/// down empties the hand. Choosing a destination counts only while the
/// player chooses a move: a cell that is not offered is refused in the
/// header; an offered one, with a piece in hand, becomes the declared
/// move in `BlackForesight`, after which Black is to play, and is played
/// at once in `RedCorrection`, after which the player declares the next
/// move.
pub fn selecting(game: &mut Game, forfeit: bool, event: Option<PickingEvent>) -> (out: Selecting)
    requires
        old(game).wf(),
    ensures
        final(game).wf(),
        final(game).places == old(game).places,
        final(game).moved == old(game).moved,
        ({
            let before = *old(game);
            let after = *final(game);
            let cells = before.board.cells();
            let pieces = before.board.pieces();
            let hand = live_selection(pieces, before.selected.0);
            let same_but_hand = after.board == before.board && after.turn == before.turn
                && after.red_move == before.red_move && after.header == before.header
                && out.end_game is None && out.played is None;
            if forfeit {
                &&& out.played is None
                &&& after.board == before.board
                &&& after.red_move == before.red_move
                &&& after.header == before.header
                &&& after.selected.0 == hand
                &&& after.turn == Turn::PostGame
                &&& out.picked is None
                &&& out.end_game == Some(EndGameEvent(Team::Red))
            } else {
                match event {
                    None | Some(PickingEvent::Other) => same_but_hand && after.selected.0 == hand
                        && out.picked is None,
                    Some(PickingEvent::SelectedChecker(id)) => same_but_hand && after.selected.0
                        == Some(id) && out.picked == Some(SelectedCheckerEvent(id)),
                    Some(PickingEvent::Deselected(id)) => same_but_hand && out.picked is None
                        && after.selected.0 == (if hand == Some(id) {
                        None
                    } else {
                        hand
                    }),
                    Some(PickingEvent::SelectedPlace(pos)) => {
                        &&& out.picked is None
                        &&& out.end_game is None
                        &&& if !choosing(before.turn) {
                            same_but_hand && after.selected.0 == hand
                        } else if !(pos.on_board() && before.places.place(pos).valid) {
                            &&& out.played is None
                            &&& after.board == before.board
                            &&& after.turn == before.turn
                            &&& after.red_move == before.red_move
                            &&& after.selected.0 == hand
                            &&& after.header.0@ == cannot_move_there()
                        } else if !(hand matches Some(id) && id < pieces.len()) {
                            same_but_hand && after.selected.0 == hand
                        } else {
                            let id = hand.unwrap();
                            let place = before.places.place(pos);
                            if before.turn == Turn::BlackForesight {
                                &&& out.played is None
                                &&& after.board == before.board
                                &&& after.header == before.header
                                &&& after.selected.0 is None
                                &&& after.turn == Turn::Black
                                &&& after.red_move.start == pieces[id as int].pos
                                &&& after.red_move.jumped@ == place.jumped@
                                &&& after.red_move.jumps@ == place.jumps@
                                &&& !after.red_move.performed
                            } else if declared_move_valid(
                                cells,
                                pieces[id as int].pos,
                                place.jumped@,
                                place.jumps@,
                            ) {
                                &&& after.board.pieces() == after_declared_move(
                                    cells,
                                    pieces,
                                    pieces[id as int].pos,
                                    place.jumped@,
                                    place.jumps@,
                                )
                                &&& out.played matches Some(played) && reports(
                                    played,
                                    cells,
                                    pieces,
                                    pieces[id as int].pos,
                                    place.jumped@,
                                    place.jumps@,
                                )
                                &&& after.header == before.header
                                &&& after.red_move == before.red_move
                                &&& after.selected.0 is None
                                &&& after.turn == Turn::BlackForesight
                            } else {
                                &&& out.played is None
                                &&& after.board == before.board
                                &&& after.turn == before.turn
                                &&& after.red_move == before.red_move
                                &&& after.selected.0 == hand
                                &&& after.header.0@ == cannot_move_there()
                            }
                        }
                    },
                }
            }
        }),
{
    let mut out = Selecting { picked: None, played: None, end_game: None };
    let count = game.board.checkers().len();
    match game.selected.0 {
        Some(c) => {
            if c < count && !game.board.checkers()[c].alive {
                game.selected.0 = None;
            }
        },
        None => {},
    }
    if forfeit {
        out.end_game = Some(EndGameEvent(Team::Red));
        game.turn = Turn::PostGame;
        return out;
    }
    match event {
        Some(PickingEvent::SelectedChecker(id)) => {
            game.selected.0 = Some(id);
            out.picked = Some(SelectedCheckerEvent(id));
        },
        Some(PickingEvent::Deselected(id)) => {
            let in_hand = match game.selected.0 {
                Some(c) => c == id,
                None => false,
            };
            if in_hand {
                game.selected.0 = None;
            }
        },
        Some(PickingEvent::SelectedPlace(pos)) => {
            let now = match game.turn {
                Turn::BlackForesight => true,
                Turn::RedCorrection => true,
                _ => false,
            };
            if !now {
                return out;
            }
            if !pos.is_on_board() || !game.places.get(pos).valid {
                game.header.0 = "You cannot move that checker to that position";
                return out;
            }
            let checker_id = match game.selected.0 {
                Some(c) => c,
                None => {
                    return out;
                },
            };
            if checker_id >= count {
                return out;
            }
            let start = game.board.checkers()[checker_id].pos;
            let place = game.places.get(pos);
            let chosen = RedMove {
                start,
                jumped: copy_coords(&place.jumped),
                jumps: copy_coords(&place.jumps),
                performed: false,
            };
            if game.turn == Turn::BlackForesight {
                game.red_move = chosen;
                game.selected.0 = None;
                game.turn = Turn::Black;
            } else {
                let done = do_player_turn_or_correction(&mut game.board, &chosen);
                if done.is_some() {
                    out.played = done;
                    game.selected.0 = None;
                    game.turn = Turn::BlackForesight;
                } else {
                    game.header.0 = "You cannot move that checker to that position";
                }
            }
        },
        _ => {},
    }
    out
}

} // verus!
