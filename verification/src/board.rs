//! The board model: coordinates, teams, and the occupancy grid.

use vstd::prelude::*;

verus! {

/// A cell of the board, or a position next to it. Cells of the board have
/// both components in `0..=7`.
#[derive(Clone, Copy, Debug, PartialEq, Eq, Hash, Structural)]
pub struct Coord {
    pub x: i32,
    pub y: i32,
}

/// The two sides. Red is played by the human, Black by the opponent.
#[derive(Clone, Copy, Debug, PartialEq, Eq, Hash, Structural)]
pub enum Team {
    Black,
    Red,
}

/// Identifies a piece: its index in the list of pieces of a game.
pub type PieceId = usize;

/// Whether the mathematical position `(x, y)` is a cell of the board.
pub open spec fn in_bounds(x: int, y: int) -> bool {
    0 <= x <= 7 && 0 <= y <= 7
}

impl Coord {
    /// Whether this position is a cell of the board.
    pub open spec fn on_board(self) -> bool {
        in_bounds(self.x as int, self.y as int)
    }

    /// The position `n` steps of `off` away, where that position is a cell
    /// of the board.
    pub open spec fn spec_step(self, off: Coord, n: int) -> Option<Coord> {
        let x = self.x + n * off.x;
        let y = self.y + n * off.y;
        if in_bounds(x, y) {
            Some(Coord { x: x as i32, y: y as i32 })
        } else {
            None
        }
    }

    /// The position `(x, y)`.
    pub fn new(x: i32, y: i32) -> (c: Coord)
        ensures
            c.x == x,
            c.y == y,
    {
        Coord { x, y }
    }

    /// Whether this position is a cell of the board.
    pub fn is_on_board(self) -> (b: bool)
        ensures
            b == self.on_board(),
    {
        0 <= self.x && self.x <= 7 && 0 <= self.y && self.y <= 7
    }

    /// The position one step (`twice == false`) or two steps (`twice ==
    /// true`) of `off` away, or `None` where that leaves the board.
    pub fn step(self, off: Coord, twice: bool) -> (r: Option<Coord>)
        ensures
            r == self.spec_step(off, if twice { 2int } else { 1int }),
    {
        let k: i64 = if twice { 2 } else { 1 };
        let x: i64 = self.x as i64 + k * (off.x as i64);
        let y: i64 = self.y as i64 + k * (off.y as i64);
        if 0 <= x && x <= 7 && 0 <= y && y <= 7 {
            Some(Coord { x: x as i32, y: y as i32 })
        } else {
            None
        }
    }
}

impl Coord {
    /// The index of this cell in a grid stored row by row.
    pub fn index(self) -> (i: usize)
        requires
            self.on_board(),
        ensures
            i == cell_index(self),
            i < 64,
            cell_at(i as int) == self,
    {
        let y: usize = self.y as usize;
        let x: usize = self.x as usize;
        y * 8 + x
    }
}

impl Team {
    /// The other side.
    pub open spec fn spec_opponent(self) -> Team {
        match self {
            Team::Black => Team::Red,
            Team::Red => Team::Black,
        }
    }

    /// The other side.
    pub fn opponent(self) -> (t: Team)
        ensures
            t == self.spec_opponent(),
    {
        match self {
            Team::Black => Team::Red,
            Team::Red => Team::Black,
        }
    }
}

/// The index of cell `(x, y)` in a grid stored row by row.
pub open spec fn cell_index(c: Coord) -> int {
    c.y * 8 + c.x
}

/// The cell with index `i` in a grid stored row by row.
pub open spec fn cell_at(i: int) -> Coord {
    Coord { x: (i % 8) as i32, y: (i / 8) as i32 }
}

/// Which piece stands on which cell. A cell that is not a key is free.
#[derive(Clone, Debug)]
pub struct CheckerMap {
    cells: Vec<Option<(PieceId, Team)>>,
}

impl View for CheckerMap {
    type V = Map<Coord, (PieceId, Team)>;

    /// The occupied cells of the board, each with its piece and the
    /// piece's side.
    closed spec fn view(&self) -> Map<Coord, (PieceId, Team)> {
        Map::new(
            |c: Coord| c.on_board() && self.cells@[cell_index(c)] is Some,
            |c: Coord| self.cells@[cell_index(c)].unwrap(),
        )
    }
}

impl CheckerMap {
    /// The grid has one entry for each of the 64 cells.
    pub closed spec fn wf(&self) -> bool {
        self.cells@.len() == 64
    }

    /// Every occupied coordinate is a cell of the board.
    pub proof fn lemma_occupied_on_board(&self)
        ensures
            forall|c: Coord| #[trigger] self@.contains_key(c) ==> c.on_board(),
    {
    }

    /// An empty board.
    pub fn new() -> (m: CheckerMap)
        ensures
            m.wf(),
            m@ == Map::<Coord, (PieceId, Team)>::empty(),
    {
        let mut cells: Vec<Option<(PieceId, Team)>> = Vec::new();
        let mut i: usize = 0;
        while i < 64
            invariant
                i <= 64,
                cells@.len() == i,
                forall|k: int| 0 <= k < i ==> cells@[k] is None,
            decreases 64 - i,
        {
            cells.push(None);
            i = i + 1;
        }
        let m = CheckerMap { cells };
        assert(m@ =~= Map::<Coord, (PieceId, Team)>::empty());
        m
    }

    /// True iff `pos` is a cell of the board and no piece stands on it.
    pub fn is_place_free(&self, pos: Coord) -> (free: bool)
        requires
            self.wf(),
        ensures
            free == (pos.on_board() && !self@.contains_key(pos)),
    {
        if !pos.is_on_board() {
            return false;
        }
        let i = pos.index();
        self.cells[i].is_none()
    }

    /// The piece on `pos` and its side, if the cell is occupied.
    pub fn get_place(&self, pos: Coord) -> (occupant: Option<(PieceId, Team)>)
        requires
            self.wf(),
        ensures
            occupant == (if self@.contains_key(pos) {
                Some(self@[pos])
            } else {
                None
            }),
    {
        if !pos.is_on_board() {
            return None;
        }
        let i = pos.index();
        self.cells[i]
    }

    /// The side of the piece on `pos`, if the cell is occupied.
    pub fn get_place_team(&self, pos: Coord) -> (team: Option<Team>)
        requires
            self.wf(),
        ensures
            team == (if self@.contains_key(pos) {
                Some(self@[pos].1)
            } else {
                None
            }),
    {
        match self.get_place(pos) {
            Some((_, t)) => Some(t),
            None => None,
        }
    }

    /// The piece on `pos`, if the cell is occupied.
    pub fn get_place_checker(&self, pos: Coord) -> (piece: Option<PieceId>)
        requires
            self.wf(),
        ensures
            piece == (if self@.contains_key(pos) {
                Some(self@[pos].0)
            } else {
                None
            }),
    {
        match self.get_place(pos) {
            Some((c, _)) => Some(c),
            None => None,
        }
    }

    /// Puts `value` on the cell `pos`, or frees the cell where `value` is
    /// `None`. A position off the board is ignored.
    pub fn set_place(&mut self, pos: Coord, value: Option<(PieceId, Team)>)
        requires
            old(self).wf(),
        ensures
            final(self).wf(),
            final(self)@ == (if !pos.on_board() {
                old(self)@
            } else {
                match value {
                    Some(v) => old(self)@.insert(pos, v),
                    None => old(self)@.remove(pos),
                }
            }),
    {
        if !pos.is_on_board() {
            return;
        }
        let i = pos.index();
        self.cells.set(i, value);
        proof {
            assert forall|c: Coord| c.on_board() && c != pos implies cell_index(c) != cell_index(
                pos,
            ) by {}
            match value {
                Some(v) => {
                    assert(self@ =~= old(self)@.insert(pos, v));
                },
                None => {
                    assert(self@ =~= old(self)@.remove(pos));
                },
            }
        }
    }

    /// Frees every cell.
    pub fn clear(&mut self)
        requires
            old(self).wf(),
        ensures
            final(self).wf(),
            final(self)@ == Map::<Coord, (PieceId, Team)>::empty(),
    {
        let mut i: usize = 0;
        while i < 64
            invariant
                i <= 64,
                self.cells@.len() == 64,
                forall|k: int| 0 <= k < i ==> self.cells@[k] is None,
            decreases 64 - i,
        {
            self.cells.set(i, None);
            i = i + 1;
        }
        assert(self@ =~= Map::<Coord, (PieceId, Team)>::empty());
    }
}

impl Default for CheckerMap {
    /// An empty board.
    fn default() -> (m: CheckerMap)
        ensures
            m.wf(),
            m@ == Map::<Coord, (PieceId, Team)>::empty(),
    {
        CheckerMap::new()
    }
}

/// The directions in which a piece may step: the two diagonals towards
/// the far side for an ordinary piece, all four for a king.
pub open spec fn piece_offsets(team: Team, king: bool) -> Seq<Coord> {
    if king {
        seq![
            Coord { x: -1i32, y: 1 },
            Coord { x: 1, y: 1 },
            Coord { x: -1i32, y: -1i32 },
            Coord { x: 1, y: -1i32 },
        ]
    } else {
        match team {
            Team::Black => seq![Coord { x: -1i32, y: -1i32 }, Coord { x: 1, y: -1i32 }],
            Team::Red => seq![Coord { x: -1i32, y: 1 }, Coord { x: 1, y: 1 }],
        }
    }
}

/// Whether `off` is one diagonal step.
pub open spec fn is_diagonal(off: Coord) -> bool {
    (off.x == 1 || off.x == -1) && (off.y == 1 || off.y == -1)
}

/// Every direction of every piece is one diagonal step.
pub proof fn lemma_piece_offsets_diagonal(team: Team, king: bool)
    ensures
        piece_offsets(team, king).len() == (if king { 4int } else { 2int }),
        forall|k: int|
            0 <= k < piece_offsets(team, king).len() ==> is_diagonal(
                #[trigger] piece_offsets(team, king)[k],
            ),
{
}

/// The directions in which a piece may step.
pub fn get_piece_offsets(team: Team, king: bool) -> (offsets: Vec<Coord>)
    ensures
        offsets@ == piece_offsets(team, king),
{
    let mut v: Vec<Coord> = Vec::new();
    if king {
        v.push(Coord { x: -1, y: 1 });
        v.push(Coord { x: 1, y: 1 });
        v.push(Coord { x: -1, y: -1 });
        v.push(Coord { x: 1, y: -1 });
    } else {
        match team {
            Team::Black => {
                v.push(Coord { x: -1, y: -1 });
                v.push(Coord { x: 1, y: -1 });
            },
            Team::Red => {
                v.push(Coord { x: -1, y: 1 });
                v.push(Coord { x: 1, y: 1 });
            },
        }
    }
    assert(v@ =~= piece_offsets(team, king));
    v
}

/// The cell with number `i`, counting row by row from `(0, 0)`.
pub fn index_checkboard(i: i32) -> (c: Coord)
    requires
        0 <= i,
    ensures
        c.x == i % 8,
        c.y == i / 8,
{
    Coord { x: i % 8, y: i / 8 }
}

/// Where the `i`-th piece of a side stands when a game begins. Red fills
/// the rows 0 to 2 from the left, Black the rows 7 to 5 from the right;
/// every second row is shifted by one column.
pub open spec fn initial_coord(i: int, team: Team) -> (int, int) {
    let row_offset = (i / 4) % 2;
    match team {
        Team::Black => (7 - (i % 4) * 2 - row_offset, 7 - i / 4),
        Team::Red => ((i % 4) * 2 + row_offset, i / 4),
    }
}

/// Where the `i`-th piece of a side stands when a game begins.
pub fn get_initial_checkboard_coord(i: i32, team: Team) -> (c: Coord)
    requires
        0 <= i,
    ensures
        (c.x as int, c.y as int) == initial_coord(i as int, team),
        i < 12 ==> c.on_board(),
{
    let row_offset: i32 = (i / 4) % 2;
    match team {
        Team::Black => Coord { x: 7 - ((i % 4) * 2) - row_offset, y: 7 - (i / 4) },
        Team::Red => Coord { x: ((i % 4) * 2) + row_offset, y: i / 4 },
    }
}

/// The twenty-four starting cells are all different: no two pieces begin
/// on the same cell.
pub proof fn lemma_initial_coords_distinct(i: int, s: Team, j: int, t: Team)
    requires
        0 <= i < 12,
        0 <= j < 12,
        initial_coord(i, s) == initial_coord(j, t),
    ensures
        i == j,
        s == t,
{
}

/// The plain moves from `pos` in the given directions, in their order:
/// one step away, on the board, and free.
pub open spec fn moves_among(board: Map<Coord, (PieceId, Team)>, pos: Coord, offsets: Seq<Coord>)
    -> Seq<Coord>
    decreases offsets.len(),
{
    if offsets.len() == 0 {
        Seq::empty()
    } else {
        let rest = moves_among(board, pos, offsets.drop_last());
        match pos.spec_step(offsets.last(), 1) {
            Some(c) => if board.contains_key(c) {
                rest
            } else {
                rest.push(c)
            },
            None => rest,
        }
    }
}

/// The plain (non-capturing) moves of a piece on `pos`.
pub open spec fn available_moves(
    board: Map<Coord, (PieceId, Team)>,
    pos: Coord,
    team: Team,
    king: bool,
) -> Seq<Coord> {
    moves_among(board, pos, piece_offsets(team, king))
}

/// A cell is among the plain moves exactly if it is free and one step
/// away in one of the directions.
pub proof fn lemma_moves_among_contains(
    board: Map<Coord, (PieceId, Team)>,
    pos: Coord,
    offsets: Seq<Coord>,
    c: Coord,
)
    ensures
        moves_among(board, pos, offsets).contains(c) <==> (!board.contains_key(c) && exists|k: int|
            0 <= k < offsets.len() && pos.spec_step(#[trigger] offsets[k], 1) == Some(c)),
    decreases offsets.len(),
{
    if offsets.len() > 0 {
        let front = offsets.drop_last();
        let rest = moves_among(board, pos, front);
        lemma_moves_among_contains(board, pos, front, c);
        let last = pos.spec_step(offsets.last(), 1);
        let all = moves_among(board, pos, offsets);
        if rest.contains(c) {
            let k = choose|k: int|
                0 <= k < front.len() && pos.spec_step(#[trigger] front[k], 1) == Some(c);
            assert(offsets[k] == front[k]);
            if all != rest {
                let i = choose|i: int| 0 <= i < rest.len() && rest[i] == c;
                assert(all[i] == c);
            }
        }
        if all.contains(c) && !rest.contains(c) {
            let i = choose|i: int| 0 <= i < all.len() && all[i] == c;
            if i < rest.len() {
                assert(rest[i] == c);
            }
            assert(last == Some(c));
            assert(pos.spec_step(offsets[offsets.len() - 1], 1) == Some(c));
        }
        if !board.contains_key(c) && exists|k: int|
            0 <= k < offsets.len() && pos.spec_step(#[trigger] offsets[k], 1) == Some(c) {
            let k = choose|k: int|
                0 <= k < offsets.len() && pos.spec_step(#[trigger] offsets[k], 1) == Some(c);
            if k < front.len() {
                assert(front[k] == offsets[k]);
            } else {
                assert(all == rest.push(c));
                assert(all[rest.len() as int] == c);
            }
        }
    }
}

impl CheckerMap {
    /// The plain (non-capturing) moves of a piece of `team` on `pos`: for
    /// each of its directions, the cell one step away if it is free.
    pub fn get_available_moves(&self, pos: Coord, team: Team, king: bool) -> (moves: Vec<Coord>)
        requires
            self.wf(),
        ensures
            moves@ == available_moves(self@, pos, team, king),
    {
        let offsets = get_piece_offsets(team, king);
        let mut moves: Vec<Coord> = Vec::new();
        let mut i: usize = 0;
        while i < offsets.len()
            invariant
                self.wf(),
                i <= offsets@.len(),
                offsets@ == piece_offsets(team, king),
                moves@ == moves_among(self@, pos, offsets@.take(i as int)),
            decreases offsets@.len() - i,
        {
            let off = offsets[i];
            proof {
                assert(offsets@.take(i + 1).drop_last() =~= offsets@.take(i as int));
                assert(offsets@.take(i + 1).last() == off);
            }
            match pos.step(off, false) {
                Some(c) => {
                    if self.is_place_free(c) {
                        moves.push(c);
                    }
                },
                None => {},
            }
            i = i + 1;
        }
        assert(offsets@.take(i as int) =~= offsets@);
        moves
    }
}

} // verus!
