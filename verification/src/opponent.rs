//! Black's policy: take the longest chain of captures there is; failing
//! that, make some plain move; failing that, lose.

use crate::board::{
    available_moves, lemma_moves_among_contains, piece_offsets, Coord, PieceId, Team,
};
use crate::game::{after_move, Board, Checker};
use crate::jumps::{
    chains_view, copy_coords, jump_chains, lemma_jump_chains, lemma_valid_chain_cells, valid_chain,
};
use crate::playing::{
    after_declared_move, occupants_of, perform, reports, EndGameEvent, Game, Played,
};
use crate::turn::Turn;
use vstd::prelude::*;

verus! {

/// The chains `chains`, each with the piece `id` that can make it.
pub open spec fn tagged(id: PieceId, chains: Seq<(Seq<Coord>, Seq<Coord>)>) -> Seq<
    (PieceId, (Seq<Coord>, Seq<Coord>)),
> {
    Seq::new(chains.len(), |k: int| (id, chains[k]))
}

/// The jump chains of the living pieces of `team` among the first `n`
/// pieces, each with its piece: piece by piece, and for each piece in the
/// order in which the search finds them.
pub open spec fn team_jumps(
    cells: Map<Coord, (PieceId, Team)>,
    pieces: Seq<Checker>,
    team: Team,
    n: int,
) -> Seq<(PieceId, (Seq<Coord>, Seq<Coord>))>
    decreases n,
{
    if n <= 0 {
        Seq::empty()
    } else {
        let rest = team_jumps(cells, pieces, team, n - 1);
        let p = pieces[n - 1];
        if p.team == team && p.alive {
            rest + tagged((n - 1) as usize, jump_chains(cells, p.pos, team, p.king))
        } else {
            rest
        }
    }
}

/// How many pieces a chain captures.
pub open spec fn captures(candidate: (PieceId, (Seq<Coord>, Seq<Coord>))) -> nat {
    candidate.1.0.len()
}

/// The first of the candidates that capture the most pieces.
pub open spec fn longest_first(candidates: Seq<(PieceId, (Seq<Coord>, Seq<Coord>))>) -> Option<
    (PieceId, (Seq<Coord>, Seq<Coord>)),
>
    decreases candidates.len(),
{
    if candidates.len() == 0 {
        None
    } else {
        match longest_first(candidates.drop_last()) {
            None => Some(candidates.last()),
            Some(best) => if captures(candidates.last()) > captures(best) {
                Some(candidates.last())
            } else {
                Some(best)
            },
        }
    }
}

/// The chosen candidate captures at least as many pieces as any other,
/// and more than any that comes before it.
pub proof fn lemma_longest_first(candidates: Seq<(PieceId, (Seq<Coord>, Seq<Coord>))>)
    ensures
        longest_first(candidates) is None <==> candidates.len() == 0,
        longest_first(candidates) matches Some(best) ==> exists|at: int|
            {
                &&& 0 <= at < candidates.len()
                &&& #[trigger] candidates[at] == best
                &&& forall|k: int|
                    0 <= k < candidates.len() ==> captures(#[trigger] candidates[k]) <= captures(
                        best,
                    )
                &&& forall|k: int| 0 <= k < at ==> captures(#[trigger] candidates[k]) < captures(best)
            },
    decreases candidates.len(),
{
    if candidates.len() > 0 {
        let front = candidates.drop_last();
        lemma_longest_first(front);
        let last = candidates.len() - 1;
        match longest_first(front) {
            None => {
                assert(candidates[last] == candidates.last());
            },
            Some(prev) => {
                let at = choose|at: int|
                    {
                        &&& 0 <= at < front.len()
                        &&& #[trigger] front[at] == prev
                        &&& forall|k: int|
                            0 <= k < front.len() ==> captures(#[trigger] front[k]) <= captures(prev)
                        &&& forall|k: int| 0 <= k < at ==> captures(#[trigger] front[k]) < captures(prev)
                    };
                let best = longest_first(candidates).unwrap();
                let new_at = if captures(candidates.last()) > captures(prev) {
                    last
                } else {
                    at
                };
                assert(candidates[new_at] == best);
                assert forall|k: int| 0 <= k < candidates.len() implies captures(
                    #[trigger] candidates[k],
                ) <= captures(best) by {
                    if k < last {
                        assert(front[k] == candidates[k]);
                    }
                }
                assert forall|k: int| 0 <= k < new_at implies captures(#[trigger] candidates[k])
                    < captures(best) by {
                    assert(front[k] == candidates[k]);
                }
            },
        }
    }
}

/// Every candidate of a side is a jump chain of a living piece of that
/// side.
pub proof fn lemma_team_jumps(
    cells: Map<Coord, (PieceId, Team)>,
    pieces: Seq<Checker>,
    team: Team,
    n: int,
)
    requires
        0 <= n <= pieces.len() <= usize::MAX,
    ensures
        forall|k: int|
            0 <= k < team_jumps(cells, pieces, team, n).len() ==> {
                let (id, chain) = #[trigger] team_jumps(cells, pieces, team, n)[k];
                &&& id < n
                &&& pieces[id as int].alive
                &&& pieces[id as int].team == team
                &&& jump_chains(
                    cells,
                    pieces[id as int].pos,
                    team,
                    pieces[id as int].king,
                ).contains(chain)
            },
        (exists|i: int|
            0 <= i < n && (#[trigger] pieces[i]).alive && pieces[i].team == team && jump_chains(
                cells,
                pieces[i].pos,
                team,
                pieces[i].king,
            ).len() > 0) <==> team_jumps(cells, pieces, team, n).len() > 0,
    decreases n,
{
    if n > 0 {
        lemma_team_jumps(cells, pieces, team, n - 1);
        let rest = team_jumps(cells, pieces, team, n - 1);
        let all = team_jumps(cells, pieces, team, n);
        let p = pieces[n - 1];
        let chains = jump_chains(cells, p.pos, team, p.king);
        assert forall|k: int| 0 <= k < all.len() implies {
            let (id, chain) = #[trigger] all[k];
            &&& id < n
            &&& pieces[id as int].alive
            &&& pieces[id as int].team == team
            &&& jump_chains(cells, pieces[id as int].pos, team, pieces[id as int].king).contains(
                chain,
            )
        } by {
            if k < rest.len() {
                assert(all[k] == rest[k]);
            } else {
                assert(all[k] == (((n - 1) as usize), chains[k - rest.len()]));
                assert(chains[k - rest.len()] == all[k].1);
            }
        }
        if team_jumps(cells, pieces, team, n).len() > 0 {
            if rest.len() > 0 {
                let i = choose|i: int|
                    0 <= i < n - 1 && (#[trigger] pieces[i]).alive && pieces[i].team == team
                        && jump_chains(cells, pieces[i].pos, team, pieces[i].king).len() > 0;
                assert(pieces[i].alive);
            } else {
                assert(pieces[n - 1].alive);
            }
        }
    }
}

/// The first chain of captures, among those of the living pieces of
/// `team`, that captures the most pieces: the piece, the cells jumped over
/// and the cells landed on. `None` where the side cannot capture.
pub fn best_jump(board: &Board, team: Team) -> (best: Option<(PieceId, Vec<Coord>, Vec<Coord>)>)
    requires
        board.wf(),
    ensures
        match best {
            None => longest_first(
                team_jumps(board.cells(), board.pieces(), team, board.pieces().len() as int),
            ) is None,
            Some((id, jumped, jumps)) => longest_first(
                team_jumps(board.cells(), board.pieces(), team, board.pieces().len() as int),
            ) == Some((id, (jumped@, jumps@))),
        },
{
    let checkers = board.checkers();
    let mut best: Option<(PieceId, Vec<Coord>, Vec<Coord>)> = None;
    let mut best_len: usize = 0;
    let ghost cells = board.cells();
    let ghost pieces = board.pieces();
    let mut i: usize = 0;
    while i < checkers.len()
        invariant
            board.wf(),
            checkers@ == pieces,
            pieces == board.pieces(),
            cells == board.cells(),
            i <= pieces.len(),
            match best {
                None => longest_first(team_jumps(cells, pieces, team, i as int)) is None,
                Some((id, jumped, jumps)) => longest_first(team_jumps(cells, pieces, team, i as int))
                    == Some((id, (jumped@, jumps@))) && best_len == jumped@.len(),
            },
        decreases pieces.len() - i,
    {
        let checker = checkers[i];
        if checker.team == team && checker.alive {
            let jumps = board.map().get_jumps(checker.pos, team, checker.king);
            let ghost before = team_jumps(cells, pieces, team, i as int);
            let ghost found = tagged(i, chains_view(jumps@));
            let mut k: usize = 0;
            assert(before + found.take(0) =~= before);
            while k < jumps.len()
                invariant
                    k <= jumps@.len(),
                    found == tagged(i, chains_view(jumps@)),
                    match best {
                        None => longest_first(before + found.take(k as int)) is None,
                        Some((id, jumped, jumps)) => longest_first(before + found.take(k as int))
                            == Some((id, (jumped@, jumps@))) && best_len == jumped@.len(),
                    },
                decreases jumps@.len() - k,
            {
                let ghost so_far = before + found.take(k as int);
                proof {
                    let next = before + found.take(k + 1);
                    assert(next.drop_last() =~= so_far);
                    assert(next.last() == found[k as int]);
                    assert(found[k as int] == (i, (jumps@[k as int].0@, jumps@[k as int].1@)));
                }
                if best.is_none() || jumps[k].0.len() > best_len {
                    let hopped = copy_coords(&jumps[k].0);
                    let hops = copy_coords(&jumps[k].1);
                    best_len = hopped.len();
                    best = Some((i, hopped, hops));
                }
                k = k + 1;
            }
            assert(found.take(k as int) =~= found);
        }
        i = i + 1;
    }
    best
}

/// Whether a piece can make a plain move.
pub open spec fn can_step(cells: Map<Coord, (PieceId, Team)>, piece: Checker) -> bool {
    piece.alive && available_moves(cells, piece.pos, piece.team, piece.king).len() > 0
}

/// The pieces of `team` among the first `n` pieces that can make a plain
/// move, in their order.
pub open spec fn team_movers(
    cells: Map<Coord, (PieceId, Team)>,
    pieces: Seq<Checker>,
    team: Team,
    n: int,
) -> Seq<PieceId>
    decreases n,
{
    if n <= 0 {
        Seq::empty()
    } else {
        let rest = team_movers(cells, pieces, team, n - 1);
        if pieces[n - 1].team == team && can_step(cells, pieces[n - 1]) {
            rest.push((n - 1) as usize)
        } else {
            rest
        }
    }
}

/// The list holds exactly the pieces of the side that can make a plain
/// move.
pub proof fn lemma_team_movers(
    cells: Map<Coord, (PieceId, Team)>,
    pieces: Seq<Checker>,
    team: Team,
    n: int,
)
    requires
        0 <= n <= pieces.len() <= usize::MAX,
    ensures
        forall|k: int|
            0 <= k < team_movers(cells, pieces, team, n).len() ==> {
                let id = #[trigger] team_movers(cells, pieces, team, n)[k];
                id < n && pieces[id as int].team == team && can_step(cells, pieces[id as int])
            },
        forall|i: int|
            0 <= i < n && (#[trigger] pieces[i]).team == team && can_step(cells, pieces[i])
                ==> team_movers(cells, pieces, team, n).contains(i as usize),
    decreases n,
{
    if n > 0 {
        lemma_team_movers(cells, pieces, team, n - 1);
        let rest = team_movers(cells, pieces, team, n - 1);
        let all = team_movers(cells, pieces, team, n);
        assert forall|k: int| 0 <= k < all.len() implies {
            let id = #[trigger] all[k];
            id < n && pieces[id as int].team == team && can_step(cells, pieces[id as int])
        } by {
            if k < rest.len() {
                assert(all[k] == rest[k]);
            }
        }
        assert forall|i: int|
            0 <= i < n && (#[trigger] pieces[i]).team == team && can_step(
                cells,
                pieces[i],
            ) implies all.contains(i as usize) by {
            if i < n - 1 {
                let k = choose|k: int| 0 <= k < rest.len() && rest[k] == i as usize;
                assert(all[k] == i as usize);
            } else {
                assert(all[all.len() - 1] == i as usize);
            }
        }
    }
}

/// The living pieces of `team` that can make a plain move.
pub fn movers(board: &Board, team: Team) -> (ids: Vec<PieceId>)
    requires
        board.wf(),
    ensures
        ids@ == team_movers(board.cells(), board.pieces(), team, board.pieces().len() as int),
{
    let checkers = board.checkers();
    let mut ids: Vec<PieceId> = Vec::new();
    let mut i: usize = 0;
    while i < checkers.len()
        invariant
            board.wf(),
            checkers@ == board.pieces(),
            i <= checkers@.len(),
            ids@ == team_movers(board.cells(), board.pieces(), team, i as int),
        decreases checkers@.len() - i,
    {
        let checker = checkers[i];
        if checker.team == team && checker.alive {
            let moves = board.map().get_available_moves(checker.pos, team, checker.king);
            if moves.len() > 0 {
                ids.push(i);
            }
        }
        i = i + 1;
    }
    ids
}

/// The plain move that the two numbers choose for Black: `piece` counts
/// among Black's pieces that can move, `step` among the moves of that
/// piece. `None` where a number is too large.
pub open spec fn chosen_move(
    cells: Map<Coord, (PieceId, Team)>,
    pieces: Seq<Checker>,
    piece: int,
    step: int,
) -> Option<(PieceId, Coord)> {
    let ids = team_movers(cells, pieces, Team::Black, pieces.len() as int);
    if 0 <= piece < ids.len() {
        let id = ids[piece];
        let moves = available_moves(cells, pieces[id as int].pos, Team::Black, pieces[id as int].king);
        if 0 <= step < moves.len() {
            Some((id, moves[step]))
        } else {
            None
        }
    } else {
        None
    }
}

/// Makes the plain move that the two numbers choose for Black, and
/// reports it; see [`chosen_move`]. Where they choose none, the board
/// stays as it is.
pub fn enemy_move(board: &mut Board, piece: usize, step: usize) -> (made: Option<Played>)
    requires
        old(board).wf(),
    ensures
        final(board).wf(),
        made is Some <==> chosen_move(
            old(board).cells(),
            old(board).pieces(),
            piece as int,
            step as int,
        ) is Some,
        made matches Some(played) ==> ({
            let (id, dest) = chosen_move(
                old(board).cells(),
                old(board).pieces(),
                piece as int,
                step as int,
            ).unwrap();
            &&& final(board).pieces() == after_move(old(board).pieces(), id as int, dest)
            &&& reports(
                played,
                old(board).cells(),
                old(board).pieces(),
                old(board).pieces()[id as int].pos,
                Seq::empty(),
                seq![dest],
            )
        }),
        made is None ==> *final(board) == *old(board),
{
    let ids = movers(board, Team::Black);
    if piece >= ids.len() {
        return None;
    }
    let id = ids[piece];
    proof {
        board.lemma_pieces_fit();
        lemma_team_movers(board.cells(), board.pieces(), Team::Black, board.pieces().len() as int);
    }
    let checker = board.checkers()[id];
    let moves = board.map().get_available_moves(checker.pos, Team::Black, checker.king);
    if step >= moves.len() {
        return None;
    }
    let dest = moves[step];
    proof {
        lemma_moves_among_contains(
            board.cells(),
            checker.pos,
            piece_offsets(Team::Black, checker.king),
            dest,
        );
        assert(moves@.contains(moves@[step as int]));
    }
    let mut path: Vec<Coord> = Vec::new();
    path.push(dest);
    let kinged = board.move_piece(id, &path);
    proof {
        assert(path@ =~= seq![dest]);
        assert(Seq::<PieceId>::empty() =~= crate::playing::occupants(
            old(board).cells(),
            Seq::empty(),
        ));
    }
    Some(Played { piece: id, path, captured: Vec::new(), kinged })
}

/// Calls `rand::Rng::gen_range` on the generator that `rand::thread_rng`
/// returns, with the range from 0 up to, not including, `n`. That call
/// panics on an empty range, so `n` must not be 0. Of the number it
/// returns only this is claimed: that it lies in the range.
#[verifier::external_body]
fn random_index(n: usize) -> (i: usize)
    requires
        n > 0,
    ensures
        i < n,
{
    rand::Rng::gen_range(&mut rand::thread_rng(), 0..n)
}

/// What Black has done in its turn: the move it has played, or that the
/// game has ended.
#[derive(Clone, Debug, PartialEq, Eq)]
pub struct EnemyPlay {
    pub played: Option<Played>,
    pub end_game: Option<EndGameEvent>,
}

/// Black's turn. Where it is Black's turn and Black has not moved yet:
/// Black makes the first of its longest chains of captures, if it can
/// capture at all; otherwise one of its plain moves, chosen at random;
/// and where no Black piece can move, the game ends and Red has won.
pub fn enemy_play(game: &mut Game) -> (out: EnemyPlay)
    requires
        old(game).wf(),
    ensures
        final(game).wf(),
        final(game).places == old(game).places,
        final(game).selected == old(game).selected,
        final(game).red_move == old(game).red_move,
        final(game).header == old(game).header,
        old(game).turn != Turn::Black || old(game).moved.0 ==> *final(game) == *old(game)
            && out.end_game is None && out.played is None,
        old(game).turn == Turn::Black && !old(game).moved.0 ==> ({
            let cells = old(game).board.cells();
            let pieces = old(game).board.pieces();
            let best = longest_first(team_jumps(cells, pieces, Team::Black, pieces.len() as int));
            let can_move = team_movers(cells, pieces, Team::Black, pieces.len() as int).len() > 0;
            &&& best matches Some((id, chain)) ==> {
                &&& final(game).board.pieces() == after_declared_move(
                    cells,
                    pieces,
                    pieces[id as int].pos,
                    chain.0,
                    chain.1,
                )
                &&& out.played matches Some(played) && reports(
                    played,
                    cells,
                    pieces,
                    pieces[id as int].pos,
                    chain.0,
                    chain.1,
                )
                &&& final(game).moved.0
                &&& final(game).turn == Turn::Black
                &&& out.end_game is None
            }
            &&& best is None && can_move ==> {
                &&& exists|piece: int, step: int|
                    (#[trigger] chosen_move(cells, pieces, piece, step) matches Some((id, dest)) && {
                        &&& final(game).board.pieces() == after_move(pieces, id as int, dest)
                        &&& out.played matches Some(played) && reports(
                            played,
                            cells,
                            pieces,
                            pieces[id as int].pos,
                            Seq::empty(),
                            seq![dest],
                        )
                    })
                &&& final(game).moved.0
                &&& final(game).turn == Turn::Black
                &&& out.end_game is None
            }
            &&& best is None && !can_move ==> {
                &&& final(game).board == old(game).board
                &&& !final(game).moved.0
                &&& final(game).turn == Turn::PostGame
                &&& out.played is None
                &&& out.end_game == Some(EndGameEvent(Team::Red))
            }
        }),
{
    if game.turn != Turn::Black || game.moved.0 {
        return EnemyPlay { played: None, end_game: None };
    }
    let ghost cells = game.board.cells();
    let ghost pieces = game.board.pieces();
    proof {
        game.board.lemma_pieces_fit();
    }
    match best_jump(&game.board, Team::Black) {
        Some((checker_id, jumped, jumps)) => {
            proof {
                let candidates = team_jumps(cells, pieces, Team::Black, pieces.len() as int);
                lemma_longest_first(candidates);
                lemma_team_jumps(cells, pieces, Team::Black, pieces.len() as int);
                let p = pieces[checker_id as int];
                lemma_jump_chains(cells, p.pos, Team::Black, p.king);
                let chains = jump_chains(cells, p.pos, Team::Black, p.king);
                let chain = (jumped@, jumps@);
                assert(chains.contains(chain));
                let at = choose|at: int| 0 <= at < chains.len() && chains[at] == chain;
                assert(valid_chain(
                    cells,
                    Team::Black,
                    piece_offsets(Team::Black, p.king),
                    p.pos,
                    chains[at],
                ));
                lemma_valid_chain_cells(
                    cells,
                    Team::Black,
                    piece_offsets(Team::Black, p.king),
                    p.pos,
                    chain,
                );
                assert(jumps@.last() == jumps@[jumps@.len() - 1]);
                assert(cells[p.pos].0 == checker_id);
            }
            let kills = occupants_of(&game.board, &jumped);
            let kills = kills.unwrap();
            let kinged = perform(&mut game.board, checker_id, &jumps, &kills);
            game.moved.0 = true;
            EnemyPlay {
                played: Some(Played { piece: checker_id, path: jumps, captured: kills, kinged }),
                end_game: None,
            }
        },
        None => {
            let ids = movers(&game.board, Team::Black);
            if ids.len() > 0 {
                let piece = random_index(ids.len());
                let id = ids[piece];
                proof {
                    lemma_team_movers(cells, pieces, Team::Black, pieces.len() as int);
                }
                let checker = game.board.checkers()[id];
                let moves = game.board.map().get_available_moves(
                    checker.pos,
                    Team::Black,
                    checker.king,
                );
                let step = random_index(moves.len());
                let played = enemy_move(&mut game.board, piece, step);
                assert(chosen_move(cells, pieces, piece as int, step as int) is Some);
                game.moved.0 = true;
                EnemyPlay { played, end_game: None }
            } else {
                game.turn = Turn::PostGame;
                EnemyPlay { played: None, end_game: Some(EndGameEvent(Team::Red)) }
            }
        },
    }
}

} // verus!
