//! The pieces of a game and the board they stand on, kept consistent with
//! each other.

use crate::board::{
    get_initial_checkboard_coord, initial_coord, lemma_initial_coords_distinct, piece_offsets,
    CheckerMap, Coord, PieceId, Team,
};
use vstd::prelude::*;

verus! {

/// A piece. A captured piece stays in the list of pieces as not alive,
/// standing on no cell.
#[derive(Clone, Copy, Debug, PartialEq, Eq, Structural)]
pub struct Checker {
    pub team: Team,
    pub pos: Coord,
    pub alive: bool,
    pub king: bool,
}

/// How many Red pieces have been captured.
#[derive(Clone, Copy, Debug, PartialEq, Eq, Structural)]
pub struct RedChipStack {
    pub height: usize,
}

/// How many Black pieces have been captured.
#[derive(Clone, Copy, Debug, PartialEq, Eq, Structural)]
pub struct BlackChipStack {
    pub height: usize,
}

/// Says that a piece has become a king (`true`) or an ordinary piece again
/// (`false`).
#[derive(Clone, Copy, Debug, PartialEq, Eq, Structural)]
pub struct Kingify(pub bool);

impl Default for RedChipStack {
    /// An empty stack.
    fn default() -> (s: RedChipStack)
        ensures
            s.height == 0,
    {
        RedChipStack { height: 0 }
    }
}

impl Default for BlackChipStack {
    /// An empty stack.
    fn default() -> (s: BlackChipStack)
        ensures
            s.height == 0,
    {
        BlackChipStack { height: 0 }
    }
}

/// Where a captured piece stands: on no cell.
pub open spec fn off_board() -> Coord {
    Coord { x: -1i32, y: -1i32 }
}

/// The row on which a piece of `team` becomes a king.
pub open spec fn back_rank(team: Team) -> int {
    match team {
        Team::Black => 0,
        Team::Red => 7,
    }
}

/// What a piece of `team` is told on landing on `dest`: that it is a king,
/// where `dest` lies on the far row.
pub open spec fn crowned(team: Team, dest: Coord) -> Option<Kingify> {
    if dest.y == back_rank(team) {
        Some(Kingify(true))
    } else {
        None
    }
}

/// The board and the pieces agree: every occupied cell holds a living
/// piece that stands there, every living piece stands on the cell that
/// holds it, and a captured piece stands on no cell.
pub open spec fn consistent(board: Map<Coord, (PieceId, Team)>, pieces: Seq<Checker>) -> bool {
    &&& forall|c: Coord| #[trigger]
        board.contains_key(c) ==> {
            &&& c.on_board()
            &&& board[c].0 < pieces.len()
            &&& pieces[board[c].0 as int].alive
            &&& pieces[board[c].0 as int].pos == c
            &&& pieces[board[c].0 as int].team == board[c].1
        }
    &&& forall|i: int|
        0 <= i < pieces.len() && (#[trigger] pieces[i]).alive ==> {
            &&& board.contains_key(pieces[i].pos)
            &&& board[pieces[i].pos].0 == i
            &&& board[pieces[i].pos].1 == pieces[i].team
        }
    &&& forall|i: int|
        0 <= i < pieces.len() && !(#[trigger] pieces[i]).alive ==> pieces[i].pos == off_board()
}

/// How many pieces of `team` in the list have been captured.
pub open spec fn dead_count(pieces: Seq<Checker>, team: Team) -> nat
    decreases pieces.len(),
{
    if pieces.len() == 0 {
        0
    } else {
        dead_count(pieces.drop_last(), team) + (if !pieces.last().alive && pieces.last().team
            == team {
            1nat
        } else {
            0nat
        })
    }
}

/// No more pieces are captured than there are pieces.
pub proof fn lemma_dead_count_bound(pieces: Seq<Checker>, team: Team)
    ensures
        dead_count(pieces, team) <= pieces.len(),
    decreases pieces.len(),
{
    if pieces.len() > 0 {
        lemma_dead_count_bound(pieces.drop_last(), team);
    }
}

/// Replacing one piece changes the count by what the piece contributes.
pub proof fn lemma_dead_count_update(pieces: Seq<Checker>, i: int, piece: Checker, team: Team)
    requires
        0 <= i < pieces.len(),
    ensures
        dead_count(pieces.update(i, piece), team) == dead_count(pieces, team) - (if !pieces[i].alive
            && pieces[i].team == team {
            1int
        } else {
            0int
        }) + (if !piece.alive && piece.team == team {
            1int
        } else {
            0int
        }),
    decreases pieces.len(),
{
    let after = pieces.update(i, piece);
    if i == pieces.len() - 1 {
        assert(after.drop_last() =~= pieces.drop_last());
    } else {
        lemma_dead_count_update(pieces.drop_last(), i, piece, team);
        assert(after.drop_last() =~= pieces.drop_last().update(i, piece));
    }
}

/// How many pieces of `team` are in the list.
pub open spec fn team_count(pieces: Seq<Checker>, team: Team) -> nat
    decreases pieces.len(),
{
    if pieces.len() == 0 {
        0
    } else {
        team_count(pieces.drop_last(), team) + (if pieces.last().team == team {
            1nat
        } else {
            0nat
        })
    }
}

/// Replacing a piece by one of the same side leaves the count as it was.
pub proof fn lemma_team_count_update(pieces: Seq<Checker>, i: int, piece: Checker, team: Team)
    requires
        0 <= i < pieces.len(),
        piece.team == pieces[i].team,
    ensures
        team_count(pieces.update(i, piece), team) == team_count(pieces, team),
    decreases pieces.len(),
{
    let after = pieces.update(i, piece);
    if i == pieces.len() - 1 {
        assert(after.drop_last() =~= pieces.drop_last());
    } else {
        lemma_team_count_update(pieces.drop_last(), i, piece, team);
        assert(after.drop_last() =~= pieces.drop_last().update(i, piece));
    }
}

/// A longer part of the list holds no fewer pieces of a side.
pub proof fn lemma_team_count_take(pieces: Seq<Checker>, a: int, b: int, team: Team)
    requires
        0 <= a <= b <= pieces.len(),
    ensures
        team_count(pieces.take(a), team) <= team_count(pieces.take(b), team),
        a < b && pieces[a].team == team ==> team_count(pieces.take(a), team) < team_count(
            pieces.take(b),
            team,
        ),
    decreases b - a,
{
    if a < b {
        assert(pieces.take(b).drop_last() =~= pieces.take(b - 1));
        lemma_team_count_take(pieces, a, b - 1, team);
        if a == b - 1 {
            assert(pieces.take(b).last() == pieces[a]);
        }
    }
}

/// Two lists with the same sides, piece by piece, hold the same number of
/// pieces of each side in each part.
pub proof fn lemma_team_count_same(a: Seq<Checker>, b: Seq<Checker>, team: Team)
    requires
        a.len() == b.len(),
        forall|i: int| 0 <= i < a.len() ==> (#[trigger] a[i]).team == b[i].team,
    ensures
        team_count(a, team) == team_count(b, team),
    decreases a.len(),
{
    if a.len() > 0 {
        assert forall|i: int| 0 <= i < a.drop_last().len() implies (#[trigger] a.drop_last()[i]).team
            == b.drop_last()[i].team by {
            assert(a.drop_last()[i] == a[i]);
        }
        lemma_team_count_same(a.drop_last(), b.drop_last(), team);
    }
}

/// Whether the pieces can be set up on a board: each side has at most
/// twelve, the living ones stand on cells of the board, and no two of them
/// on the same cell.
pub open spec fn placeable(pieces: Seq<Checker>) -> bool {
    &&& team_count(pieces, Team::Red) <= 12
    &&& team_count(pieces, Team::Black) <= 12
    &&& forall|i: int| 0 <= i < pieces.len() && (#[trigger] pieces[i]).alive ==> pieces[i].pos.on_board()
    &&& forall|i: int, j: int|
        0 <= i < j < pieces.len() && (#[trigger] pieces[i]).alive && (#[trigger] pieces[j]).alive
            ==> pieces[i].pos != pieces[j].pos
}

/// The pieces as a board holds them: a captured piece stands on no cell.
pub open spec fn normalized(pieces: Seq<Checker>) -> Seq<Checker> {
    Seq::new(
        pieces.len(),
        |i: int|
            if pieces[i].alive {
                pieces[i]
            } else {
                Checker { pos: off_board(), ..pieces[i] }
            },
    )
}

/// The cell on which the `i`-th piece of a side begins a game.
pub open spec fn initial_cell(i: int, team: Team) -> Coord {
    Coord { x: initial_coord(i, team).0 as i32, y: initial_coord(i, team).1 as i32 }
}

/// The pieces as they stand when a game begins: all alive, none a king,
/// the `n`-th piece of each side on the `n`-th starting cell of that side.
pub open spec fn reseeded(pieces: Seq<Checker>) -> Seq<Checker> {
    Seq::new(
        pieces.len(),
        |i: int|
            Checker {
                team: pieces[i].team,
                pos: initial_cell(team_count(pieces.take(i), pieces[i].team) as int, pieces[i].team),
                alive: true,
                king: false,
            },
    )
}

/// Where no piece is captured, the count of captured pieces is zero.
pub proof fn lemma_dead_count_alive(pieces: Seq<Checker>, team: Team)
    requires
        forall|i: int| 0 <= i < pieces.len() ==> (#[trigger] pieces[i]).alive,
    ensures
        dead_count(pieces, team) == 0,
    decreases pieces.len(),
{
    if pieces.len() > 0 {
        assert forall|i: int| 0 <= i < pieces.drop_last().len() implies (
        #[trigger] pieces.drop_last()[i]).alive by {
            assert(pieces.drop_last()[i] == pieces[i]);
        }
        lemma_dead_count_alive(pieces.drop_last(), team);
    }
}

impl CheckerMap {
    /// Begins a new game: frees every cell, sets each piece on its starting
    /// cell, alive and not a king, and empties both stacks of captured
    /// pieces.
    pub fn reset(
        &mut self,
        checkers: &mut Vec<Checker>,
        red_stack: &mut RedChipStack,
        black_stack: &mut BlackChipStack,
    )
        requires
            old(self).wf(),
            team_count(old(checkers)@, Team::Red) <= 12,
            team_count(old(checkers)@, Team::Black) <= 12,
        ensures
            final(self).wf(),
            final(checkers)@ == reseeded(old(checkers)@),
            consistent(final(self)@, final(checkers)@),
            final(red_stack).height == 0,
            final(black_stack).height == 0,
    {
        self.clear();
        red_stack.height = 0;
        black_stack.height = 0;
        let mut b: i32 = 0;
        let mut r: i32 = 0;
        let mut i: usize = 0;
        let ghost start = checkers@;
        let ghost goal = reseeded(start);
        while i < checkers.len()
            invariant
                self.wf(),
                start == old(checkers)@,
                goal == reseeded(start),
                checkers@.len() == start.len(),
                i <= start.len(),
                team_count(start, Team::Red) <= 12,
                team_count(start, Team::Black) <= 12,
                r == team_count(start.take(i as int), Team::Red),
                b == team_count(start.take(i as int), Team::Black),
                forall|k: int| 0 <= k < i ==> #[trigger] checkers@[k] == goal[k],
                forall|k: int| i <= k < start.len() ==> #[trigger] checkers@[k] == start[k],
                forall|c: Coord| #[trigger]
                    self@.contains_key(c) ==> {
                        &&& c.on_board()
                        &&& self@[c].0 < i
                        &&& goal[self@[c].0 as int].pos == c
                        &&& goal[self@[c].0 as int].team == self@[c].1
                    },
                forall|k: int|
                    0 <= k < i ==> {
                        &&& self@.contains_key((#[trigger] goal[k]).pos)
                        &&& self@[goal[k].pos].0 == k
                        &&& self@[goal[k].pos].1 == goal[k].team
                    },
            decreases start.len() - i,
        {
            let team = checkers[i].team;
            let ghost cells = self@;
            proof {
                assert(start.take(i + 1).drop_last() =~= start.take(i as int));
                assert(start.take(i + 1).last() == start[i as int]);
                assert(start.take(start.len() as int) =~= start);
                lemma_team_count_take(start, i as int, start.len() as int, team);
            }
            let rank: i32 = match team {
                Team::Red => r,
                Team::Black => b,
            };
            assert(rank == team_count(start.take(i as int), team));
            assert(rank < 12);
            let initial_coord = get_initial_checkboard_coord(rank, team);
            assert(initial_coord == goal[i as int].pos);
            proof {
                if cells.contains_key(initial_coord) {
                    let k = cells[initial_coord].0 as int;
                    assert(goal[k].pos == initial_coord);
                    assert(goal[k].team == start[k].team);
                    let rank_k = team_count(start.take(k), start[k].team) as int;
                    lemma_team_count_take(start, k, start.len() as int, start[k].team);
                    lemma_initial_coords_distinct(rank_k, start[k].team, rank as int, team);
                    lemma_team_count_take(start, k, i as int, team);
                }
            }
            checkers.set(i, Checker { team, pos: initial_coord, alive: true, king: false });
            self.set_place(initial_coord, Some((i, team)));
            match team {
                Team::Red => {
                    r = r + 1;
                },
                Team::Black => {
                    b = b + 1;
                },
            }
            proof {
                assert forall|k: int| 0 <= k < i + 1 implies {
                    &&& self@.contains_key((#[trigger] goal[k]).pos)
                    &&& self@[goal[k].pos].0 == k
                    &&& self@[goal[k].pos].1 == goal[k].team
                } by {
                    if k < i {
                        assert(cells.contains_key(goal[k].pos));
                    }
                }
            }
            i = i + 1;
        }
        proof {
            assert(checkers@ =~= goal);
            lemma_dead_count_alive(goal, Team::Red);
            lemma_dead_count_alive(goal, Team::Black);
        }
    }
}

/// The pieces after the piece `id` has moved to `dest`: it stands there,
/// and is a king if it was one or if `dest` lies on the far row.
pub open spec fn after_move(pieces: Seq<Checker>, id: int, dest: Coord) -> Seq<Checker> {
    pieces.update(
        id,
        Checker {
            pos: dest,
            king: pieces[id].king || dest.y == back_rank(pieces[id].team),
            ..pieces[id]
        },
    )
}

/// The pieces after the piece `id` has been captured, if there is such a
/// living piece.
pub open spec fn after_kill(pieces: Seq<Checker>, id: int) -> Seq<Checker> {
    if 0 <= id < pieces.len() && pieces[id].alive {
        pieces.update(id, Checker { alive: false, pos: off_board(), ..pieces[id] })
    } else {
        pieces
    }
}

/// The pieces after each piece of `ids` has been captured, in that order.
pub open spec fn after_kills(pieces: Seq<Checker>, ids: Seq<PieceId>) -> Seq<Checker>
    decreases ids.len(),
{
    if ids.len() == 0 {
        pieces
    } else {
        after_kill(after_kills(pieces, ids.drop_last()), ids.last() as int)
    }
}

/// Whether the piece `i` is among `ids`.
pub open spec fn named(ids: Seq<PieceId>, i: int) -> bool {
    exists|k: int| 0 <= k < ids.len() && #[trigger] ids[k] == i
}

/// What capturing a list of pieces does: each living piece among them is
/// captured, and every other piece stays as it is.
pub proof fn lemma_after_kills(pieces: Seq<Checker>, ids: Seq<PieceId>)
    ensures
        after_kills(pieces, ids).len() == pieces.len(),
        forall|i: int|
            0 <= i < pieces.len() ==> #[trigger] after_kills(pieces, ids)[i] == (if named(ids, i)
                && pieces[i].alive {
                Checker { alive: false, pos: off_board(), ..pieces[i] }
            } else {
                pieces[i]
            }),
    decreases ids.len(),
{
    if ids.len() > 0 {
        let front = ids.drop_last();
        let last = ids.last() as int;
        lemma_after_kills(pieces, front);
        let before = after_kills(pieces, front);
        assert forall|i: int| 0 <= i < pieces.len() implies #[trigger] after_kills(pieces, ids)[i]
            == (if named(ids, i) && pieces[i].alive {
            Checker { alive: false, pos: off_board(), ..pieces[i] }
        } else {
            pieces[i]
        }) by {
            if named(front, i) {
                let k = choose|k: int| 0 <= k < front.len() && #[trigger] front[k] == i;
                assert(ids[k] == i);
            }
            if i == last {
                assert(ids[ids.len() - 1] == i);
            }
            if named(ids, i) && i != last {
                let k = choose|k: int| 0 <= k < ids.len() && #[trigger] ids[k] == i;
                assert(front[k] == i);
            }
        }
    } else {
        assert forall|i: int| 0 <= i < pieces.len() implies !named(ids, i) by {}
    }
}

/// A capture keeps board and pieces in step: the captured piece leaves its
/// cell, and nothing else changes.
pub proof fn lemma_kill_consistent(cells: Map<Coord, (PieceId, Team)>, pieces: Seq<Checker>, id: int)
    requires
        consistent(cells, pieces),
        0 <= id < pieces.len(),
        pieces[id].alive,
    ensures
        consistent(cells.remove(pieces[id].pos), after_kill(pieces, id)),
{
    let cells2 = cells.remove(pieces[id].pos);
    let pieces2 = after_kill(pieces, id);
    assert(cells[pieces[id].pos].0 == id);
    assert forall|c: Coord| #[trigger] cells2.contains_key(c) implies {
        &&& c.on_board()
        &&& cells2[c].0 < pieces2.len()
        &&& pieces2[cells2[c].0 as int].alive
        &&& pieces2[cells2[c].0 as int].pos == c
        &&& pieces2[cells2[c].0 as int].team == cells2[c].1
    } by {
        assert(cells.contains_key(c));
        assert(pieces[cells[c].0 as int].pos == c);
    }
    assert forall|i: int| 0 <= i < pieces2.len() && (#[trigger] pieces2[i]).alive implies {
        &&& cells2.contains_key(pieces2[i].pos)
        &&& cells2[pieces2[i].pos].0 == i
        &&& cells2[pieces2[i].pos].1 == pieces2[i].team
    } by {
        assert(pieces[i].alive);
        assert(cells[pieces[i].pos].0 == i);
    }
    assert forall|i: int| 0 <= i < pieces2.len() && !(#[trigger] pieces2[i]).alive implies pieces2[i].pos
        == off_board() by {
        if i != id {
            assert(!pieces[i].alive);
        }
    }
}

/// A move to a free cell of the board keeps board and pieces in step: the
/// piece leaves its cell for the other, and nothing else changes.
pub proof fn lemma_move_consistent(
    cells: Map<Coord, (PieceId, Team)>,
    pieces: Seq<Checker>,
    id: PieceId,
    dest: Coord,
)
    requires
        consistent(cells, pieces),
        id < pieces.len(),
        pieces[id as int].alive,
        dest.on_board(),
        !cells.contains_key(dest),
    ensures
        consistent(
            cells.remove(pieces[id as int].pos).insert(dest, (id, pieces[id as int].team)),
            after_move(pieces, id as int, dest),
        ),
{
    let cells2 = cells.remove(pieces[id as int].pos).insert(dest, (id, pieces[id as int].team));
    let pieces2 = after_move(pieces, id as int, dest);
    assert(cells[pieces[id as int].pos].0 == id);
    assert forall|c: Coord| #[trigger] cells2.contains_key(c) implies {
        &&& c.on_board()
        &&& cells2[c].0 < pieces2.len()
        &&& pieces2[cells2[c].0 as int].alive
        &&& pieces2[cells2[c].0 as int].pos == c
        &&& pieces2[cells2[c].0 as int].team == cells2[c].1
    } by {
        if c != dest {
            assert(cells.contains_key(c));
            assert(pieces[cells[c].0 as int].pos == c);
        }
    }
    assert forall|i: int| 0 <= i < pieces2.len() && (#[trigger] pieces2[i]).alive implies {
        &&& cells2.contains_key(pieces2[i].pos)
        &&& cells2[pieces2[i].pos].0 == i
        &&& cells2[pieces2[i].pos].1 == pieces2[i].team
    } by {
        if i != id {
            assert(pieces[i].alive);
            assert(cells[pieces[i].pos].0 == i);
        }
    }
    assert forall|i: int| 0 <= i < pieces2.len() && !(#[trigger] pieces2[i]).alive implies pieces2[i].pos
        == off_board() by {
        if i != id {
            assert(!pieces[i].alive);
        }
    }
}

/// The state of the board in a game: the pieces, the cells they occupy,
/// and the counts of captured pieces.
#[derive(Clone, Debug)]
pub struct Board {
    map: CheckerMap,
    checkers: Vec<Checker>,
    red_stack: RedChipStack,
    black_stack: BlackChipStack,
}

impl Board {
    /// The occupied cells, each with the piece on it and the piece's side.
    pub closed spec fn cells(&self) -> Map<Coord, (PieceId, Team)> {
        self.map@
    }

    /// The pieces, living and captured.
    pub closed spec fn pieces(&self) -> Seq<Checker> {
        self.checkers@
    }

    /// How many pieces of `team` have been captured, as counted.
    pub closed spec fn stack_height(&self, team: Team) -> nat {
        match team {
            Team::Red => self.red_stack.height as nat,
            Team::Black => self.black_stack.height as nat,
        }
    }

    /// The invariant of the occupancy grid.
    pub closed spec fn map_wf(&self) -> bool {
        self.map.wf()
    }

    /// The invariant of a board: pieces and cells agree, and the counts of
    /// captured pieces are right.
    pub open spec fn wf(&self) -> bool {
        &&& self.map_wf()
        &&& consistent(self.cells(), self.pieces())
        &&& self.stack_height(Team::Red) == dead_count(self.pieces(), Team::Red)
        &&& self.stack_height(Team::Black) == dead_count(self.pieces(), Team::Black)
        &&& team_count(self.pieces(), Team::Red) <= 12
        &&& team_count(self.pieces(), Team::Black) <= 12
    }

    /// The list of pieces is no longer than a list in memory can be.
    pub proof fn lemma_pieces_fit(&self)
        ensures
            self.pieces().len() <= usize::MAX,
    {
        assert(self.checkers.len() == self.checkers@.len());
    }

    /// The occupancy of the cells.
    pub fn map(&self) -> (m: &CheckerMap)
        ensures
            m@ == self.cells(),
            self.map_wf() ==> m.wf(),
    {
        &self.map
    }

    /// The pieces, living and captured.
    pub fn checkers(&self) -> (v: &Vec<Checker>)
        ensures
            v@ == self.pieces(),
    {
        &self.checkers
    }

    /// How many Red pieces have been captured.
    pub fn red_stack(&self) -> (s: RedChipStack)
        ensures
            s.height == self.stack_height(Team::Red),
    {
        self.red_stack
    }

    /// How many Black pieces have been captured.
    pub fn black_stack(&self) -> (s: BlackChipStack)
        ensures
            s.height == self.stack_height(Team::Black),
    {
        self.black_stack
    }

    /// A board with the given pieces on it, where they can be set up: see
    /// [`placeable`]. The counts of captured pieces are those of the list.
    pub fn from_checkers(checkers: &Vec<Checker>) -> (board: Option<Board>)
        ensures
            board is Some <==> placeable(checkers@),
            board matches Some(b) ==> b.wf() && b.pieces() == normalized(checkers@),
    {
        let mut map = CheckerMap::new();
        let mut placed: Vec<Checker> = Vec::new();
        let mut red_dead: usize = 0;
        let mut black_dead: usize = 0;
        let mut reds: usize = 0;
        let mut blacks: usize = 0;
        let mut i: usize = 0;
        while i < checkers.len()
            invariant
                i <= checkers@.len(),
                map.wf(),
                placed@ == normalized(checkers@.take(i as int)),
                consistent(map@, placed@),
                red_dead == dead_count(placed@, Team::Red),
                black_dead == dead_count(placed@, Team::Black),
                reds == team_count(checkers@.take(i as int), Team::Red),
                blacks == team_count(checkers@.take(i as int), Team::Black),
                reds <= 12,
                blacks <= 12,
                forall|k: int|
                    0 <= k < i && (#[trigger] checkers@[k]).alive ==> checkers@[k].pos.on_board(),
                forall|k: int, j: int|
                    0 <= k < j < i && (#[trigger] checkers@[k]).alive && (
                    #[trigger] checkers@[j]).alive ==> checkers@[k].pos != checkers@[j].pos,
            decreases checkers@.len() - i,
        {
            let c = checkers[i];
            let ghost before = placed@;
            let ghost cells = map@;
            proof {
                assert(checkers@.take(i + 1).drop_last() =~= checkers@.take(i as int));
                assert(checkers@.take(i + 1).last() == c);
                lemma_dead_count_bound(before, Team::Red);
                lemma_dead_count_bound(before, Team::Black);
                lemma_team_count_take(checkers@, i + 1, checkers@.len() as int, Team::Red);
                lemma_team_count_take(checkers@, i + 1, checkers@.len() as int, Team::Black);
                assert(checkers@.take(checkers@.len() as int) =~= checkers@);
            }
            match c.team {
                Team::Red => {
                    if reds >= 12 {
                        return None;
                    }
                    reds = reds + 1;
                },
                Team::Black => {
                    if blacks >= 12 {
                        return None;
                    }
                    blacks = blacks + 1;
                },
            }
            if c.alive {
                if !c.pos.is_on_board() {
                    return None;
                }
                if !map.is_place_free(c.pos) {
                    proof {
                        let k = cells[c.pos].0 as int;
                        assert(before[k].alive && before[k].pos == c.pos);
                        assert(checkers@.take(i as int)[k] == checkers@[k]);
                        assert(checkers@[k].alive && checkers@[k].pos == checkers@[i as int].pos);
                    }
                    return None;
                }
                map.set_place(c.pos, Some((i, c.team)));
                placed.push(c);
            } else {
                placed.push(Checker { team: c.team, pos: Coord { x: -1, y: -1 }, alive: false, king: c.king });
                match c.team {
                    Team::Red => {
                        red_dead = red_dead + 1;
                    },
                    Team::Black => {
                        black_dead = black_dead + 1;
                    },
                }
            }
            proof {
                assert(placed@.drop_last() =~= before);
                assert(placed@ =~= normalized(checkers@.take(i + 1)));
                assert forall|d: Coord| #[trigger] map@.contains_key(d) implies {
                    &&& d.on_board()
                    &&& map@[d].0 < placed@.len()
                    &&& placed@[map@[d].0 as int].alive
                    &&& placed@[map@[d].0 as int].pos == d
                    &&& placed@[map@[d].0 as int].team == map@[d].1
                } by {
                    if !(c.alive && d == c.pos) {
                        assert(cells.contains_key(d));
                        assert(placed@[cells[d].0 as int] == before[cells[d].0 as int]);
                    }
                }
                assert forall|k: int| 0 <= k < placed@.len() && (#[trigger] placed@[k]).alive implies {
                    &&& map@.contains_key(placed@[k].pos)
                    &&& map@[placed@[k].pos].0 == k
                    &&& map@[placed@[k].pos].1 == placed@[k].team
                } by {
                    if k < i {
                        assert(placed@[k] == before[k]);
                        assert(cells.contains_key(before[k].pos));
                    }
                }
                assert forall|k: int|
                    0 <= k < placed@.len() && !(#[trigger] placed@[k]).alive implies placed@[k].pos
                    == off_board() by {
                    if k < i {
                        assert(placed@[k] == before[k]);
                    }
                }
                assert forall|k: int, j: int|
                    0 <= k < j < i + 1 && (#[trigger] checkers@[k]).alive && (
                    #[trigger] checkers@[j]).alive implies checkers@[k].pos != checkers@[j].pos by {
                    if j == i {
                        assert(checkers@.take(i as int)[k] == checkers@[k]);
                        assert(before[k] == checkers@[k]);
                        assert(cells.contains_key(before[k].pos));
                    }
                }
            }
            i = i + 1;
        }
        proof {
            assert(checkers@.take(i as int) =~= checkers@);
            assert forall|t: Team| team_count(#[trigger] normalized(checkers@), t) == team_count(checkers@, t) by {
                lemma_team_count_same(normalized(checkers@), checkers@, t);
            }
            assert(team_count(normalized(checkers@), Team::Red) == team_count(checkers@, Team::Red));
            assert(team_count(normalized(checkers@), Team::Black) == team_count(checkers@, Team::Black));
        }
        Some(
            Board {
                map,
                checkers: placed,
                red_stack: RedChipStack { height: red_dead },
                black_stack: BlackChipStack { height: black_dead },
            },
        )
    }

    /// Begins a new game with the same pieces: every piece is alive again,
    /// no piece is a king, each stands on its starting cell, and no piece
    /// counts as captured.
    pub fn reset(&mut self)
        requires
            old(self).wf(),
        ensures
            final(self).wf(),
            final(self).pieces() == reseeded(old(self).pieces()),
            final(self).stack_height(Team::Red) == 0,
            final(self).stack_height(Team::Black) == 0,
    {
        let ghost before = self.checkers@;
        self.map.reset(&mut self.checkers, &mut self.red_stack, &mut self.black_stack);
        proof {
            lemma_dead_count_alive(self.checkers@, Team::Red);
            lemma_dead_count_alive(self.checkers@, Team::Black);
            lemma_team_count_same(self.checkers@, before, Team::Red);
            lemma_team_count_same(self.checkers@, before, Team::Black);
        }
    }

    /// Captures the piece `id`: it leaves its cell and is counted on the
    /// stack of its side. The result is its place on that stack, counted
    /// from the bottom.
    pub fn kill_piece(&mut self, id: PieceId) -> (slot: usize)
        requires
            old(self).wf(),
            id < old(self).pieces().len(),
            old(self).pieces()[id as int].alive,
        ensures
            final(self).wf(),
            final(self).pieces() == after_kill(old(self).pieces(), id as int),
            final(self).cells() == old(self).cells().remove(old(self).pieces()[id as int].pos),
            slot == old(self).stack_height(old(self).pieces()[id as int].team),
    {
        let checker = self.checkers[id];
        let dead = Checker {
            team: checker.team,
            pos: Coord { x: -1, y: -1 },
            alive: false,
            king: checker.king,
        };
        proof {
            let after = after_kill(self.checkers@, id as int);
            lemma_kill_consistent(self.map@, self.checkers@, id as int);
            lemma_dead_count_update(self.checkers@, id as int, dead, Team::Red);
            lemma_dead_count_update(self.checkers@, id as int, dead, Team::Black);
            lemma_team_count_update(self.checkers@, id as int, dead, Team::Red);
            lemma_team_count_update(self.checkers@, id as int, dead, Team::Black);
            lemma_dead_count_bound(after, Team::Red);
            lemma_dead_count_bound(after, Team::Black);
            self.lemma_pieces_fit();
        }
        self.map.set_place(checker.pos, None);
        self.checkers.set(id, dead);
        match checker.team {
            Team::Red => {
                let slot = self.red_stack.height;
                self.red_stack.height = slot + 1;
                slot
            },
            Team::Black => {
                let slot = self.black_stack.height;
                self.black_stack.height = slot + 1;
                slot
            },
        }
    }

    /// Moves the piece `id` along `jumps` to the last cell of it. The piece
    /// becomes a king where that cell lies on the far row of the board; the
    /// result says so.
    pub fn move_piece(&mut self, id: PieceId, jumps: &Vec<Coord>) -> (kinged: Option<Kingify>)
        requires
            old(self).wf(),
            id < old(self).pieces().len(),
            old(self).pieces()[id as int].alive,
            jumps@.len() > 0,
            jumps@.last().on_board(),
            !old(self).cells().contains_key(jumps@.last()),
        ensures
            final(self).wf(),
            final(self).pieces() == after_move(old(self).pieces(), id as int, jumps@.last()),
            final(self).cells() == old(self).cells().remove(
                old(self).pieces()[id as int].pos,
            ).insert(jumps@.last(), (id, old(self).pieces()[id as int].team)),
            kinged == crowned(old(self).pieces()[id as int].team, jumps@.last()),
    {
        let checker = self.checkers[id];
        let dest = jumps[jumps.len() - 1];
        let crowned = (checker.team == Team::Black && dest.y == 0) || (checker.team == Team::Red
            && dest.y == 7);
        let moved = Checker {
            team: checker.team,
            pos: dest,
            alive: true,
            king: checker.king || crowned,
        };
        proof {
            lemma_move_consistent(self.map@, self.checkers@, id, dest);
            lemma_dead_count_update(self.checkers@, id as int, moved, Team::Red);
            lemma_dead_count_update(self.checkers@, id as int, moved, Team::Black);
            lemma_team_count_update(self.checkers@, id as int, moved, Team::Red);
            lemma_team_count_update(self.checkers@, id as int, moved, Team::Black);
            self.map.lemma_occupied_on_board();
        }
        self.map.set_place(checker.pos, None);
        self.map.set_place(dest, Some((id, checker.team)));
        self.checkers.set(id, moved);
        if crowned {
            Some(Kingify(true))
        } else {
            None
        }
    }
}

/// The side of the `k`-th piece of a newly set up game: Black and Red
/// take turns, Black first.
pub open spec fn roster_team(k: int) -> Team {
    if k % 2 == 0 {
        Team::Black
    } else {
        Team::Red
    }
}

/// The twenty-four pieces of a newly set up game.
pub open spec fn starting_pieces() -> Seq<Checker> {
    Seq::new(
        24,
        |k: int| Checker { team: roster_team(k), pos: initial_cell(k / 2, roster_team(k)), alive: true, king: false },
    )
}

/// Where Black and Red take turns in the list, Black first, half of any
/// first part of it is Red, rounded down.
proof fn lemma_roster_count(pieces: Seq<Checker>, n: int)
    requires
        0 <= n <= pieces.len(),
        forall|k: int| 0 <= k < pieces.len() ==> (#[trigger] pieces[k]).team == roster_team(k),
    ensures
        team_count(pieces.take(n), Team::Black) == (n + 1) / 2,
        team_count(pieces.take(n), Team::Red) == n / 2,
    decreases n,
{
    if n > 0 {
        lemma_roster_count(pieces, n - 1);
        assert(pieces.take(n).drop_last() =~= pieces.take(n - 1));
        assert(pieces.take(n).last() == pieces[n - 1]);
    }
}

/// The board on which a game begins: twelve pieces a side on their
/// starting cells, none captured.
pub fn set_up_checkerboard() -> (board: Board)
    ensures
        board.wf(),
        board.pieces() == starting_pieces(),
        board.stack_height(Team::Red) == 0,
        board.stack_height(Team::Black) == 0,
{
    let mut checkers: Vec<Checker> = Vec::new();
    let mut i: usize = 0;
    while i < 12
        invariant
            i <= 12,
            checkers@.len() == 2 * i,
            forall|k: int| 0 <= k < checkers@.len() ==> (#[trigger] checkers@[k]).team == roster_team(k),
        decreases 12 - i,
    {
        let nowhere = Coord { x: -1, y: -1 };
        checkers.push(Checker { team: Team::Black, pos: nowhere, alive: false, king: false });
        checkers.push(Checker { team: Team::Red, pos: nowhere, alive: false, king: false });
        i = i + 1;
    }
    let ghost roster = checkers@;
    let mut board = Board {
        map: CheckerMap::new(),
        checkers,
        red_stack: RedChipStack { height: 0 },
        black_stack: BlackChipStack { height: 0 },
    };
    proof {
        lemma_roster_count(roster, 24);
        assert(roster.take(24) =~= roster);
    }
    board.map.reset(&mut board.checkers, &mut board.red_stack, &mut board.black_stack);
    proof {
        assert forall|k: int| 0 <= k < 24 implies board.checkers@[k] == starting_pieces()[k] by {
            lemma_roster_count(roster, k);
        }
        assert(board.checkers@ =~= starting_pieces());
        lemma_team_count_same(board.checkers@, roster, Team::Red);
        lemma_team_count_same(board.checkers@, roster, Team::Black);
        lemma_dead_count_alive(board.checkers@, Team::Red);
        lemma_dead_count_alive(board.checkers@, Team::Black);
    }
    board
}

/// On a board, every occupied coordinate is a cell of the board, and no
/// piece occupies two cells.
pub proof fn lemma_occupied_in_bounds(board: &Board)
    requires
        board.wf(),
    ensures
        forall|c: Coord| #[trigger] board.cells().contains_key(c) ==> 0 <= c.x <= 7 && 0 <= c.y <= 7,
        forall|c: Coord, d: Coord|
            #[trigger] board.cells().contains_key(c) && #[trigger] board.cells().contains_key(d)
                && board.cells()[c].0 == board.cells()[d].0 ==> c == d,
{
}

/// On a board, the occupied cells are exactly the cells on which the living
/// pieces stand.
pub proof fn lemma_occupied_is_alive(board: &Board)
    requires
        board.wf(),
    ensures
        forall|c: Coord|
            #[trigger] board.cells().contains_key(c) <==> exists|i: int|
                0 <= i < board.pieces().len() && (#[trigger] board.pieces()[i]).alive
                    && board.pieces()[i].pos == c,
{
    assert forall|c: Coord| #[trigger] board.cells().contains_key(c) implies exists|i: int|
        0 <= i < board.pieces().len() && (#[trigger] board.pieces()[i]).alive && board.pieces()[i].pos
            == c by {
        let i = board.cells()[c].0 as int;
        assert(board.pieces()[i].alive && board.pieces()[i].pos == c);
    }
}

/// The pieces decide the cells: two boards with the same pieces have the
/// same occupied cells, with the same piece on each.
pub proof fn lemma_cells_determined(a: &Board, b: &Board)
    requires
        a.wf(),
        b.wf(),
        a.pieces() == b.pieces(),
    ensures
        a.cells() == b.cells(),
{
    assert forall|c: Coord| a.cells().contains_key(c) <==> b.cells().contains_key(c) by {
        if a.cells().contains_key(c) {
            let i = a.cells()[c].0 as int;
            assert(b.pieces()[i].alive && b.pieces()[i].pos == c);
        }
        if b.cells().contains_key(c) {
            let i = b.cells()[c].0 as int;
            assert(a.pieces()[i].alive && a.pieces()[i].pos == c);
        }
    }
    assert forall|c: Coord| a.cells().contains_key(c) implies a.cells()[c] == b.cells()[c] by {
        let i = a.cells()[c].0 as int;
        assert(b.pieces()[i].alive && b.pieces()[i].pos == c);
    }
    assert(a.cells() =~= b.cells());
}

/// Setting the pieces up again changes nothing: a second new game begins
/// exactly as the first.
pub proof fn lemma_reseeded_twice(pieces: Seq<Checker>)
    ensures
        reseeded(reseeded(pieces)) == reseeded(pieces),
{
    let once = reseeded(pieces);
    assert forall|i: int| 0 <= i < pieces.len() implies reseeded(once)[i] == once[i] by {
        assert forall|k: int| 0 <= k < once.take(i).len() implies (#[trigger] once.take(i)[k]).team
            == pieces.take(i)[k].team by {}
        lemma_team_count_same(once.take(i), pieces.take(i), pieces[i].team);
    }
    assert(reseeded(once) =~= once);
}

/// A board that has been set up anew twice in a row is as it was after the
/// first time: the same pieces on the same cells.
pub proof fn lemma_reset_twice(before: &Board, once: &Board, twice: &Board)
    requires
        once.wf(),
        twice.wf(),
        once.pieces() == reseeded(before.pieces()),
        twice.pieces() == reseeded(once.pieces()),
    ensures
        twice.pieces() == once.pieces(),
        twice.cells() == once.cells(),
        twice.stack_height(Team::Red) == once.stack_height(Team::Red),
        twice.stack_height(Team::Black) == once.stack_height(Team::Black),
{
    lemma_reseeded_twice(before.pieces());
    lemma_cells_determined(once, twice);
}

/// A piece that lands on the far row is a king from then on, and a king
/// moves in all four diagonal directions where an ordinary piece moves in
/// two.
pub proof fn lemma_kinged_on_far_row(pieces: Seq<Checker>, id: int, dest: Coord)
    requires
        0 <= id < pieces.len(),
        dest.y == back_rank(pieces[id].team),
    ensures
        after_move(pieces, id, dest)[id].king,
        piece_offsets(pieces[id].team, true).len() == 4,
        piece_offsets(pieces[id].team, false).len() == 2,
{
}

} // verus!
