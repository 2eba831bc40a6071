//! The jump generator: every chain of captures that a piece can make,
//! found by a breadth-first search from the piece's cell.

use crate::board::{
    cell_at, cell_index, get_piece_offsets, is_diagonal, lemma_piece_offsets_diagonal, piece_offsets,
    CheckerMap, Coord, PieceId, Team,
};
use vstd::prelude::*;

verus! {

/// The capture from `p` in direction `off`, as the cell jumped over and the
/// cell landed on: the cell next to `p` holds a piece of the other side,
/// and the cell behind it is free.
pub open spec fn capture_over(
    board: Map<Coord, (PieceId, Team)>,
    team: Team,
    p: Coord,
    off: Coord,
) -> Option<(Coord, Coord)> {
    match (p.spec_step(off, 1), p.spec_step(off, 2)) {
        (Some(over), Some(landing)) => if board.contains_key(over) && board[over].1
            == team.spec_opponent() && !board.contains_key(landing) {
            Some((over, landing))
        } else {
            None
        },
        _ => None,
    }
}

/// Where a piece stands after the chain `(jumped, landings)` begun on
/// `start`.
pub open spec fn chain_end(start: Coord, chain: (Seq<Coord>, Seq<Coord>)) -> Coord {
    if chain.1.len() == 0 {
        start
    } else {
        chain.1.last()
    }
}

/// The chains that extend `chain` by one capture in one of `offsets`, in the
/// order of the offsets. A capture that lands on an explored cell is left
/// out.
pub open spec fn extensions(
    board: Map<Coord, (PieceId, Team)>,
    team: Team,
    start: Coord,
    chain: (Seq<Coord>, Seq<Coord>),
    explored: Set<Coord>,
    offsets: Seq<Coord>,
) -> Seq<(Seq<Coord>, Seq<Coord>)>
    decreases offsets.len(),
{
    if offsets.len() == 0 {
        Seq::empty()
    } else {
        let rest = extensions(board, team, start, chain, explored, offsets.drop_last());
        match capture_over(board, team, chain_end(start, chain), offsets.last()) {
            Some((over, landing)) => if explored.contains(landing) {
                rest
            } else {
                rest.push((chain.0.push(over), chain.1.push(landing)))
            },
            None => rest,
        }
    }
}

/// How many of the first `k` cells are not explored.
pub open spec fn unexplored_below(explored: Set<Coord>, k: nat) -> nat
    decreases k,
{
    if k == 0 {
        0
    } else {
        unexplored_below(explored, (k - 1) as nat) + (if explored.contains(cell_at(k - 1)) {
            0nat
        } else {
            1nat
        })
    }
}

/// Whether a chain ends on a cell of the board that is not explored.
pub open spec fn ends_fresh(start: Coord, chain: (Seq<Coord>, Seq<Coord>), explored: Set<Coord>)
    -> bool {
    chain_end(start, chain).on_board() && !explored.contains(chain_end(start, chain))
}

/// The work that a queue of chains stands for: a chain that ends on an
/// unexplored cell counts 1, any other `stale`.
pub open spec fn queue_weight(
    start: Coord,
    queue: Seq<(Seq<Coord>, Seq<Coord>)>,
    explored: Set<Coord>,
    stale: nat,
) -> nat
    decreases queue.len(),
{
    if queue.len() == 0 {
        0
    } else {
        queue_weight(start, queue.drop_last(), explored, stale) + (if ends_fresh(
            start,
            queue.last(),
            explored,
        ) {
            1nat
        } else {
            stale
        })
    }
}

/// Exploring a cell of the board that was not explored leaves one cell
/// less to explore; exploring any other cell changes nothing.
proof fn lemma_explore(explored: Set<Coord>, c: Coord, k: nat)
    requires
        k <= 64,
    ensures
        unexplored_below(explored.insert(c), k) == unexplored_below(explored, k) - (if c.on_board()
            && !explored.contains(c) && cell_index(c) < k {
            1int
        } else {
            0int
        }),
    decreases k,
{
    if k > 0 {
        lemma_explore(explored, c, (k - 1) as nat);
        let d = cell_at(k - 1);
        assert(d.on_board());
        assert(cell_index(d) == k - 1);
        if c.on_board() && cell_index(c) == k - 1 {
            assert(c == d);
        }
    }
}

/// The work of two queues, one after the other, is the sum of their work.
proof fn lemma_weight_concat(
    start: Coord,
    a: Seq<(Seq<Coord>, Seq<Coord>)>,
    b: Seq<(Seq<Coord>, Seq<Coord>)>,
    explored: Set<Coord>,
    stale: nat,
)
    ensures
        queue_weight(start, a + b, explored, stale) == queue_weight(start, a, explored, stale)
            + queue_weight(start, b, explored, stale),
    decreases b.len(),
{
    if b.len() == 0 {
        assert(a + b =~= a);
    } else {
        lemma_weight_concat(start, a, b.drop_last(), explored, stale);
        assert((a + b).drop_last() =~= a + b.drop_last());
        assert((a + b).last() == b.last());
    }
}

/// The work of a queue is that of its first chain and that of the rest.
proof fn lemma_weight_front(
    start: Coord,
    q: Seq<(Seq<Coord>, Seq<Coord>)>,
    explored: Set<Coord>,
    stale: nat,
)
    requires
        q.len() > 0,
    ensures
        queue_weight(start, q, explored, stale) == queue_weight(
            start,
            q.skip(1),
            explored,
            stale,
        ) + (if ends_fresh(start, q[0], explored) {
            1nat
        } else {
            stale
        }),
{
    let head = seq![q[0]];
    assert(head + q.skip(1) =~= q);
    lemma_weight_concat(start, head, q.skip(1), explored, stale);
    assert(head.drop_last() =~= Seq::empty());
    assert(queue_weight(start, head.drop_last(), explored, stale) == 0);
}

/// Exploring a cell never adds work to a queue.
proof fn lemma_weight_explore(
    start: Coord,
    q: Seq<(Seq<Coord>, Seq<Coord>)>,
    explored: Set<Coord>,
    c: Coord,
    stale: nat,
)
    requires
        stale >= 1,
    ensures
        queue_weight(start, q, explored.insert(c), stale) >= queue_weight(
            start,
            q,
            explored,
            stale,
        ),
        !c.on_board() || explored.contains(c) ==> queue_weight(
            start,
            q,
            explored.insert(c),
            stale,
        ) == queue_weight(start, q, explored, stale),
    decreases q.len(),
{
    if q.len() > 0 {
        lemma_weight_explore(start, q.drop_last(), explored, c, stale);
    }
}

/// Every extension ends on an unexplored cell of the board, and there are
/// no more of them than offsets.
proof fn lemma_extensions_fresh(
    board: Map<Coord, (PieceId, Team)>,
    team: Team,
    start: Coord,
    chain: (Seq<Coord>, Seq<Coord>),
    explored: Set<Coord>,
    offsets: Seq<Coord>,
    stale: nat,
)
    ensures
        extensions(board, team, start, chain, explored, offsets).len() <= offsets.len(),
        queue_weight(
            start,
            extensions(board, team, start, chain, explored, offsets),
            explored,
            stale,
        ) == extensions(board, team, start, chain, explored, offsets).len(),
    decreases offsets.len(),
{
    if offsets.len() > 0 {
        lemma_extensions_fresh(board, team, start, chain, explored, offsets.drop_last(), stale);
        let rest = extensions(board, team, start, chain, explored, offsets.drop_last());
        let all = extensions(board, team, start, chain, explored, offsets);
        if all != rest {
            assert(all.drop_last() =~= rest);
        }
    }
}

/// One step of the search makes its measure smaller.
pub proof fn lemma_search_step(
    board: Map<Coord, (PieceId, Team)>,
    team: Team,
    offsets: Seq<Coord>,
    start: Coord,
    queue: Seq<(Seq<Coord>, Seq<Coord>)>,
    explored: Set<Coord>,
)
    requires
        queue.len() > 0,
    ensures
        ({
            let stale = offsets.len() + 1;
            let explored2 = explored.insert(chain_end(start, queue[0]));
            let kids = extensions(board, team, start, queue[0], explored2, offsets);
            let queue2 = queue.skip(1) + kids;
            unexplored_below(explored2, 64) < unexplored_below(explored, 64) || (unexplored_below(
                explored2,
                64,
            ) == unexplored_below(explored, 64) && queue_weight(start, queue2, explored2, stale)
                < queue_weight(start, queue, explored, stale))
        }),
{
    let stale = offsets.len() + 1;
    let end = chain_end(start, queue[0]);
    let explored2 = explored.insert(end);
    let kids = extensions(board, team, start, queue[0], explored2, offsets);
    lemma_explore(explored, end, 64);
    if !ends_fresh(start, queue[0], explored) {
        lemma_weight_front(start, queue, explored, stale);
        lemma_weight_explore(start, queue.skip(1), explored, end, stale);
        lemma_extensions_fresh(board, team, start, queue[0], explored2, offsets, stale);
        lemma_weight_concat(start, queue.skip(1), kids, explored2, stale);
    }
}

/// The chains that the search reports from the state `(queue, explored)`:
/// it takes the first chain of the queue, marks the cell it ends on as
/// explored, and appends its extensions to the queue; a chain without
/// extensions is reported, unless it is the empty chain.
pub open spec fn search(
    board: Map<Coord, (PieceId, Team)>,
    team: Team,
    offsets: Seq<Coord>,
    start: Coord,
    queue: Seq<(Seq<Coord>, Seq<Coord>)>,
    explored: Set<Coord>,
) -> Seq<(Seq<Coord>, Seq<Coord>)>
    decreases
        unexplored_below(explored, 64),
        queue_weight(start, queue, explored, offsets.len() + 1),
{
    if queue.len() == 0 {
        Seq::empty()
    } else {
        let explored2 = explored.insert(chain_end(start, queue[0]));
        let kids = extensions(board, team, start, queue[0], explored2, offsets);
        proof {
            lemma_search_step(board, team, offsets, start, queue, explored);
        }
        let rest = search(board, team, offsets, start, queue.skip(1) + kids, explored2);
        if kids.len() == 0 && queue[0].1.len() > 0 {
            seq![queue[0]] + rest
        } else {
            rest
        }
    }
}

/// The jump chains of a piece of `team` on `pos`, each as the cells jumped
/// over and the cells landed on, in the order in which the search finds
/// them.
pub open spec fn jump_chains(
    board: Map<Coord, (PieceId, Team)>,
    pos: Coord,
    team: Team,
    king: bool,
) -> Seq<(Seq<Coord>, Seq<Coord>)> {
    search(
        board,
        team,
        piece_offsets(team, king),
        pos,
        seq![(Seq::empty(), Seq::empty())],
        Set::empty(),
    )
}

/// What a list of chains holds, each chain as two sequences of cells.
pub open spec fn chains_view(v: Seq<(Vec<Coord>, Vec<Coord>)>) -> Seq<(Seq<Coord>, Seq<Coord>)> {
    Seq::new(v.len(), |i: int| (v[i].0@, v[i].1@))
}

/// A copy of a list of cells.
pub fn copy_coords(v: &Vec<Coord>) -> (r: Vec<Coord>)
    ensures
        r@ == v@,
{
    let mut r: Vec<Coord> = Vec::new();
    let mut i: usize = 0;
    while i < v.len()
        invariant
            i <= v@.len(),
            r@ == v@.take(i as int),
        decreases v@.len() - i,
    {
        r.push(v[i]);
        assert(v@.take(i + 1) =~= v@.take(i as int).push(v@[i as int]));
        i = i + 1;
    }
    assert(v@.take(i as int) =~= v@);
    r
}

impl CheckerMap {
    /// The jump chains of a piece of `checker_team` on `pos`: every chain of
    /// captures that the breadth-first search from `pos` ends on, as the
    /// cells jumped over and the cells landed on.
    pub fn get_jumps(&self, pos: Coord, checker_team: Team, king: bool) -> (chains: Vec<
        (Vec<Coord>, Vec<Coord>),
    >)
        requires
            self.wf(),
        ensures
            chains_view(chains@) == jump_chains(self@, pos, checker_team, king),
    {
        let opposing_team = checker_team.opponent();
        let offsets = get_piece_offsets(checker_team, king);
        let mut jumps: Vec<(Vec<Coord>, Vec<Coord>)> = Vec::new();
        let mut open_set: Vec<(Vec<Coord>, Vec<Coord>)> = Vec::new();
        open_set.push((Vec::new(), Vec::new()));
        let mut head: usize = 0;
        let mut computed_spaces: Vec<bool> = Vec::new();
        let mut n: usize = 0;
        while n < 64
            invariant
                n <= 64,
                computed_spaces@.len() == n,
                forall|k: int| 0 <= k < n ==> !computed_spaces@[k],
            decreases 64 - n,
        {
            computed_spaces.push(false);
            n = n + 1;
        }
        let ghost mut explored: Set<Coord> = Set::empty();
        proof {
            assert(chains_view(open_set@).skip(0) =~= seq![
                (Seq::<Coord>::empty(), Seq::<Coord>::empty()),
            ]);
            assert(chains_view(jumps@) =~= Seq::empty());
            assert(chains_view(jumps@) + jump_chains(self@, pos, checker_team, king)
                =~= jump_chains(self@, pos, checker_team, king));
        }
        while head < open_set.len()
            invariant
                self.wf(),
                opposing_team == checker_team.spec_opponent(),
                offsets@ == piece_offsets(checker_team, king),
                head <= open_set@.len(),
                computed_spaces@.len() == 64,
                forall|c: Coord|
                    c.on_board() ==> computed_spaces@[cell_index(c)] == explored.contains(c),
                chains_view(jumps@) + search(
                    self@,
                    checker_team,
                    offsets@,
                    pos,
                    chains_view(open_set@).skip(head as int),
                    explored,
                ) == jump_chains(self@, pos, checker_team, king),
            decreases
                unexplored_below(explored, 64),
                queue_weight(
                    pos,
                    chains_view(open_set@).skip(head as int),
                    explored,
                    offsets@.len() + 1,
                ),
        {
            let ghost queue = chains_view(open_set@).skip(head as int);
            let ghost node = queue[0];
            let ghost before = chains_view(open_set@);
            let ghost old_explored = explored;
            let landed = open_set[head].1.len();
            let p = if landed == 0 {
                pos
            } else {
                open_set[head].1[landed - 1]
            };
            assert(p == chain_end(pos, node));
            if p.is_on_board() {
                let at = p.index();
                computed_spaces.set(at, true);
            }
            proof {
                explored = explored.insert(p);
                assert forall|c: Coord| c.on_board() implies computed_spaces@[cell_index(c)]
                    == explored.contains(c) by {
                    if c != p && p.on_board() {
                        assert(cell_index(c) != cell_index(p));
                    }
                }
                lemma_search_step(self@, checker_team, offsets@, pos, queue, old_explored);
            }
            let first_child = open_set.len();
            let mut i: usize = 0;
            while i < offsets.len()
                invariant
                    self.wf(),
                    opposing_team == checker_team.spec_opponent(),
                    i <= offsets@.len(),
                    head < first_child,
                    first_child == before.len(),
                    first_child <= open_set@.len(),
                    before[head as int] == node,
                    p == chain_end(pos, node),
                    computed_spaces@.len() == 64,
                    forall|c: Coord|
                        c.on_board() ==> computed_spaces@[cell_index(c)] == explored.contains(c),
                    chains_view(open_set@) == before + extensions(
                        self@,
                        checker_team,
                        pos,
                        node,
                        explored,
                        offsets@.take(i as int),
                    ),
                decreases offsets@.len() - i,
            {
                let off = offsets[i];
                let ghost so_far = extensions(
                    self@,
                    checker_team,
                    pos,
                    node,
                    explored,
                    offsets@.take(i as int),
                );
                proof {
                    assert(offsets@.take(i + 1).drop_last() =~= offsets@.take(i as int));
                    assert(offsets@.take(i + 1).last() == off);
                    assert(chains_view(open_set@)[head as int] == node);
                }
                let mut extension: Option<(Coord, Coord)> = None;
                match p.step(off, false) {
                    Some(over) => {
                        match self.get_place_team(over) {
                            Some(t) => {
                                match p.step(off, true) {
                                    Some(landing) => {
                                        let at = landing.index();
                                        if !computed_spaces[at] && t == opposing_team
                                            && self.is_place_free(landing) {
                                            extension = Some((over, landing));
                                        }
                                    },
                                    None => {},
                                }
                            },
                            None => {},
                        }
                    },
                    None => {},
                }
                assert(extension == match capture_over(self@, checker_team, p, off) {
                    Some((over, landing)) => if explored.contains(landing) {
                        None
                    } else {
                        Some((over, landing))
                    },
                    None => None,
                });
                match extension {
                    Some((over, landing)) => {
                        let mut hopped_checkers = copy_coords(&open_set[head].0);
                        let mut hops = copy_coords(&open_set[head].1);
                        hopped_checkers.push(over);
                        hops.push(landing);
                        let ghost prior = chains_view(open_set@);
                        open_set.push((hopped_checkers, hops));
                        proof {
                            assert(chains_view(open_set@) =~= prior.push(
                                (node.0.push(over), node.1.push(landing)),
                            ));
                            assert(prior.push((node.0.push(over), node.1.push(landing)))
                                =~= before + so_far.push((node.0.push(over), node.1.push(landing))));
                        }
                    },
                    None => {},
                }
                i = i + 1;
            }
            proof {
                assert(offsets@.take(i as int) =~= offsets@);
            }
            let ghost kids = extensions(self@, checker_team, pos, node, explored, offsets@);
            let extended = open_set.len() > first_child;
            assert(extended == (kids.len() > 0));
            let ghost reported = chains_view(jumps@);
            if !extended && landed > 0 {
                let jumped = copy_coords(&open_set[head].0);
                let jumps_made = copy_coords(&open_set[head].1);
                jumps.push((jumped, jumps_made));
                proof {
                    assert(chains_view(jumps@) =~= reported.push(node));
                }
            }
            head = head + 1;
            proof {
                let queue2 = queue.skip(1) + kids;
                assert(chains_view(open_set@).skip(head as int) =~= queue2);
                let rest = search(self@, checker_team, offsets@, pos, queue2, explored);
                assert(search(self@, checker_team, offsets@, pos, queue, old_explored) == (if kids.len()
                    == 0 && node.1.len() > 0 {
                    seq![node] + rest
                } else {
                    rest
                }));
                assert(reported.push(node) + rest =~= reported + (seq![node] + rest));
            }
        }
        proof {
            assert(chains_view(open_set@).skip(head as int) =~= Seq::empty());
            assert(chains_view(jumps@) + Seq::<(Seq<Coord>, Seq<Coord>)>::empty() =~= chains_view(
                jumps@,
            ));
        }
        jumps
    }
}

/// Whether a piece of `team` on `p` can capture in one of `offsets`.
pub open spec fn has_capture(
    board: Map<Coord, (PieceId, Team)>,
    team: Team,
    p: Coord,
    offsets: Seq<Coord>,
) -> bool {
    exists|k: int| 0 <= k < offsets.len() && capture_over(board, team, p, #[trigger] offsets[k]) is Some
}

/// Where the piece stands before the `i`-th capture of a chain.
pub open spec fn chain_from(start: Coord, chain: (Seq<Coord>, Seq<Coord>), i: int) -> Coord {
    if i == 0 {
        start
    } else {
        chain.1[i - 1]
    }
}

/// Whether `chain` is a sequence of captures on `board` that begins on
/// `start`: each step jumps over a piece of the other side, in one of
/// `offsets`, and lands on a free cell.
pub open spec fn valid_chain(
    board: Map<Coord, (PieceId, Team)>,
    team: Team,
    offsets: Seq<Coord>,
    start: Coord,
    chain: (Seq<Coord>, Seq<Coord>),
) -> bool {
    &&& chain.0.len() == chain.1.len()
    &&& forall|i: int|
        0 <= i < chain.1.len() ==> exists|k: int|
            0 <= k < offsets.len() && capture_over(
                board,
                team,
                chain_from(start, chain, i),
                #[trigger] offsets[k],
            ) == Some((#[trigger] chain.0[i], chain.1[i]))
}

/// In a sequence of captures, every cell jumped over holds a piece of the
/// other side, and every cell landed on is a free cell of the board.
pub proof fn lemma_valid_chain_cells(
    board: Map<Coord, (PieceId, Team)>,
    team: Team,
    offsets: Seq<Coord>,
    start: Coord,
    chain: (Seq<Coord>, Seq<Coord>),
)
    requires
        valid_chain(board, team, offsets, start, chain),
    ensures
        forall|i: int|
            0 <= i < chain.0.len() ==> board.contains_key(#[trigger] chain.0[i]) && board[chain.0[i]].1
                == team.spec_opponent(),
        forall|i: int|
            0 <= i < chain.1.len() ==> (#[trigger] chain.1[i]).on_board() && !board.contains_key(
                chain.1[i],
            ),
{
    assert forall|i: int| 0 <= i < chain.1.len() implies board.contains_key(chain.0[i])
        && board[chain.0[i]].1 == team.spec_opponent() && chain.1[i].on_board()
        && !board.contains_key(chain.1[i]) by {
        let k = choose|k: int|
            0 <= k < offsets.len() && capture_over(
                board,
                team,
                chain_from(start, chain, i),
                #[trigger] offsets[k],
            ) == Some((chain.0[i], chain.1[i]));
    }
}

/// Every extension of a sequence of captures is a sequence of captures,
/// and not empty.
proof fn lemma_extensions_valid(
    board: Map<Coord, (PieceId, Team)>,
    team: Team,
    all_offsets: Seq<Coord>,
    start: Coord,
    chain: (Seq<Coord>, Seq<Coord>),
    explored: Set<Coord>,
    offsets: Seq<Coord>,
)
    requires
        valid_chain(board, team, all_offsets, start, chain),
        forall|k: int| 0 <= k < offsets.len() ==> all_offsets.contains(#[trigger] offsets[k]),
    ensures
        forall|j: int|
            0 <= j < extensions(board, team, start, chain, explored, offsets).len() ==> {
                let kid = #[trigger] extensions(board, team, start, chain, explored, offsets)[j];
                valid_chain(board, team, all_offsets, start, kid) && kid.1.len() > 0
            },
    decreases offsets.len(),
{
    if offsets.len() > 0 {
        let front = offsets.drop_last();
        assert forall|k: int| 0 <= k < front.len() implies all_offsets.contains(
            #[trigger] front[k],
        ) by {
            assert(front[k] == offsets[k]);
        }
        lemma_extensions_valid(board, team, all_offsets, start, chain, explored, front);
        let rest = extensions(board, team, start, chain, explored, front);
        let all = extensions(board, team, start, chain, explored, offsets);
        if all != rest {
            let (over, landing) = capture_over(
                board,
                team,
                chain_end(start, chain),
                offsets.last(),
            ).unwrap();
            let kid = (chain.0.push(over), chain.1.push(landing));
            assert(all == rest.push(kid));
            assert(all_offsets.contains(offsets[offsets.len() - 1]));
            let w = choose|w: int| 0 <= w < all_offsets.len() && all_offsets[w] == offsets.last();
            assert forall|i: int| 0 <= i < kid.1.len() implies exists|k: int|
                0 <= k < all_offsets.len() && capture_over(
                    board,
                    team,
                    chain_from(start, kid, i),
                    #[trigger] all_offsets[k],
                ) == Some((#[trigger] kid.0[i], kid.1[i])) by {
                if i < chain.1.len() {
                    assert(kid.0[i] == chain.0[i]);
                    assert(chain_from(start, kid, i) == chain_from(start, chain, i));
                    let k = choose|k: int|
                        0 <= k < all_offsets.len() && capture_over(
                            board,
                            team,
                            chain_from(start, chain, i),
                            #[trigger] all_offsets[k],
                        ) == Some((chain.0[i], chain.1[i]));
                    assert(capture_over(board, team, chain_from(start, kid, i), all_offsets[k])
                        == Some((kid.0[i], kid.1[i])));
                } else {
                    assert(chain_from(start, kid, i) == chain_end(start, chain));
                    assert(capture_over(board, team, chain_from(start, kid, i), all_offsets[w])
                        == Some((kid.0[i], kid.1[i])));
                }
            }
            assert forall|j: int| 0 <= j < all.len() implies {
                let kid = #[trigger] all[j];
                valid_chain(board, team, all_offsets, start, kid) && kid.1.len() > 0
            } by {
                if j < rest.len() {
                    assert(all[j] == rest[j]);
                }
            }
        }
    }
}

/// If every chain in the queue is a sequence of captures, so is every
/// chain that the search reports.
pub proof fn lemma_search_valid(
    board: Map<Coord, (PieceId, Team)>,
    team: Team,
    offsets: Seq<Coord>,
    start: Coord,
    queue: Seq<(Seq<Coord>, Seq<Coord>)>,
    explored: Set<Coord>,
)
    requires
        forall|j: int|
            0 <= j < queue.len() ==> valid_chain(board, team, offsets, start, #[trigger] queue[j]),
    ensures
        forall|j: int|
            0 <= j < search(board, team, offsets, start, queue, explored).len() ==> {
                let found = #[trigger] search(board, team, offsets, start, queue, explored)[j];
                valid_chain(board, team, offsets, start, found) && found.1.len() > 0
            },
    decreases
        unexplored_below(explored, 64),
        queue_weight(start, queue, explored, offsets.len() + 1),
{
    if queue.len() > 0 {
        let explored2 = explored.insert(chain_end(start, queue[0]));
        let kids = extensions(board, team, start, queue[0], explored2, offsets);
        let queue2 = queue.skip(1) + kids;
        lemma_search_step(board, team, offsets, start, queue, explored);
        assert forall|k: int| 0 <= k < offsets.len() implies offsets.contains(
            #[trigger] offsets[k],
        ) by {}
        lemma_extensions_valid(board, team, offsets, start, queue[0], explored2, offsets);
        assert forall|j: int| 0 <= j < queue2.len() implies valid_chain(
            board,
            team,
            offsets,
            start,
            #[trigger] queue2[j],
        ) by {
            if j < queue.len() - 1 {
                assert(queue2[j] == queue[j + 1]);
            } else {
                assert(queue2[j] == kids[j - (queue.len() - 1)]);
            }
        }
        lemma_search_valid(board, team, offsets, start, queue2, explored2);
        let rest = search(board, team, offsets, start, queue2, explored2);
        let all = search(board, team, offsets, start, queue, explored);
        assert forall|j: int| 0 <= j < all.len() implies {
            let found = #[trigger] all[j];
            valid_chain(board, team, offsets, start, found) && found.1.len() > 0
        } by {
            if all != rest {
                if j > 0 {
                    assert(all[j] == rest[j - 1]);
                }
            }
        }
    }
}

/// A queue of chains that are not empty yields at least one chain.
proof fn lemma_search_nonempty(
    board: Map<Coord, (PieceId, Team)>,
    team: Team,
    offsets: Seq<Coord>,
    start: Coord,
    queue: Seq<(Seq<Coord>, Seq<Coord>)>,
    explored: Set<Coord>,
)
    requires
        queue.len() > 0,
        forall|j: int| 0 <= j < queue.len() ==> valid_chain(
            board,
            team,
            offsets,
            start,
            #[trigger] queue[j],
        ) && queue[j].1.len() > 0,
    ensures
        search(board, team, offsets, start, queue, explored).len() > 0,
    decreases
        unexplored_below(explored, 64),
        queue_weight(start, queue, explored, offsets.len() + 1),
{
    let explored2 = explored.insert(chain_end(start, queue[0]));
    let kids = extensions(board, team, start, queue[0], explored2, offsets);
    let queue2 = queue.skip(1) + kids;
    lemma_search_step(board, team, offsets, start, queue, explored);
    if kids.len() > 0 {
        assert forall|k: int| 0 <= k < offsets.len() implies offsets.contains(
            #[trigger] offsets[k],
        ) by {}
        lemma_extensions_valid(board, team, offsets, start, queue[0], explored2, offsets);
        assert forall|j: int| 0 <= j < queue2.len() implies valid_chain(
            board,
            team,
            offsets,
            start,
            #[trigger] queue2[j],
        ) && queue2[j].1.len() > 0 by {
            if j < queue.len() - 1 {
                assert(queue2[j] == queue[j + 1]);
            } else {
                assert(queue2[j] == kids[j - (queue.len() - 1)]);
            }
        }
        lemma_search_nonempty(board, team, offsets, start, queue2, explored2);
    }
}

/// There is an extension exactly if some capture lands on an unexplored
/// cell.
proof fn lemma_extensions_some(
    board: Map<Coord, (PieceId, Team)>,
    team: Team,
    start: Coord,
    chain: (Seq<Coord>, Seq<Coord>),
    explored: Set<Coord>,
    offsets: Seq<Coord>,
)
    ensures
        extensions(board, team, start, chain, explored, offsets).len() > 0 <==> exists|k: int|
            0 <= k < offsets.len() && (capture_over(
                board,
                team,
                chain_end(start, chain),
                #[trigger] offsets[k],
            ) matches Some((_, landing)) && !explored.contains(landing)),
    decreases offsets.len(),
{
    if offsets.len() > 0 {
        let front = offsets.drop_last();
        lemma_extensions_some(board, team, start, chain, explored, front);
        let p = chain_end(start, chain);
        if extensions(board, team, start, chain, explored, front).len() > 0 {
            let k = choose|k: int|
                0 <= k < front.len() && (capture_over(
                    board,
                    team,
                    p,
                    #[trigger] front[k],
                ) matches Some((_, landing)) && !explored.contains(landing));
            assert(offsets[k] == front[k]);
        } else if extensions(board, team, start, chain, explored, offsets).len() > 0 {
            assert(capture_over(board, team, p, offsets[offsets.len() - 1]) is Some);
        } else {
            assert forall|k: int| 0 <= k < offsets.len() implies !(capture_over(
                board,
                team,
                p,
                #[trigger] offsets[k],
            ) matches Some((_, landing)) && !explored.contains(landing)) by {
                if k < front.len() {
                    assert(front[k] == offsets[k]);
                }
            }
        }
    }
}

/// What holds of the jump chains of a piece: each is a sequence of one or
/// more captures that begins on the piece's cell, and there is one exactly
/// if the piece can make a first capture.
pub proof fn lemma_jump_chains(
    board: Map<Coord, (PieceId, Team)>,
    pos: Coord,
    team: Team,
    king: bool,
)
    ensures
        forall|j: int|
            0 <= j < jump_chains(board, pos, team, king).len() ==> {
                let found = #[trigger] jump_chains(board, pos, team, king)[j];
                valid_chain(board, team, piece_offsets(team, king), pos, found) && found.1.len()
                    > 0
            },
        jump_chains(board, pos, team, king).len() > 0 <==> has_capture(
            board,
            team,
            pos,
            piece_offsets(team, king),
        ),
{
    let offsets = piece_offsets(team, king);
    let root = (Seq::<Coord>::empty(), Seq::<Coord>::empty());
    let queue = seq![root];
    let none = Set::<Coord>::empty();
    lemma_piece_offsets_diagonal(team, king);
    lemma_search_valid(board, team, offsets, pos, queue, none);
    let explored2 = none.insert(pos);
    let kids = extensions(board, team, pos, root, explored2, offsets);
    let queue2 = queue.skip(1) + kids;
    assert(queue2 =~= kids);
    lemma_search_step(board, team, offsets, pos, queue, none);
    assert(jump_chains(board, pos, team, king) == search(
        board,
        team,
        offsets,
        pos,
        queue2,
        explored2,
    ));
    lemma_extensions_some(board, team, pos, root, explored2, offsets);
    if kids.len() > 0 {
        assert forall|k: int| 0 <= k < offsets.len() implies offsets.contains(
            #[trigger] offsets[k],
        ) by {}
        lemma_extensions_valid(board, team, offsets, pos, root, explored2, offsets);
        lemma_search_nonempty(board, team, offsets, pos, queue2, explored2);
        let k = choose|k: int|
            0 <= k < offsets.len() && (capture_over(
                board,
                team,
                pos,
                #[trigger] offsets[k],
            ) matches Some((_, landing)) && !explored2.contains(landing));
        assert(capture_over(board, team, pos, offsets[k]) is Some);
    } else {
        assert forall|k: int| 0 <= k < offsets.len() implies !(capture_over(
            board,
            team,
            pos,
            #[trigger] offsets[k],
        ) is Some) by {
            assert(is_diagonal(offsets[k]));
            if capture_over(board, team, pos, offsets[k]) is Some {
                let landing = capture_over(board, team, pos, offsets[k]).unwrap().1;
                assert(landing != pos);
                assert(!explored2.contains(landing));
            }
        }
    }
}

/// Whether a chain begun on `start` never comes back: it lands on cells
/// that differ from each other and from `start`, each an even number of
/// columns from `start` and as many rows, up to a multiple of four.
pub open spec fn well_routed(start: Coord, chain: (Seq<Coord>, Seq<Coord>)) -> bool {
    &&& forall|i: int| 0 <= i < chain.1.len() ==> #[trigger] chain.1[i] != start
    &&& forall|i: int, j: int|
        0 <= i < j < chain.1.len() ==> #[trigger] chain.1[i] != #[trigger] chain.1[j]
    &&& forall|i: int|
        0 <= i < chain.1.len() ==> {
            let dx = (#[trigger] chain.1[i]).x - start.x;
            let dy = chain.1[i].y - start.y;
            dx % 2 == 0 && (dx - dy) % 4 == 0
        }
}

/// Whether every cell on which a chain stood before its end is explored.
spec fn trail_explored(start: Coord, chain: (Seq<Coord>, Seq<Coord>), explored: Set<Coord>) -> bool {
    chain.1.len() > 0 ==> explored.contains(start) && forall|i: int|
        0 <= i < chain.1.len() - 1 ==> explored.contains(#[trigger] chain.1[i])
}

/// What the search keeps of every chain in its queue.
spec fn on_course(
    board: Map<Coord, (PieceId, Team)>,
    team: Team,
    offsets: Seq<Coord>,
    start: Coord,
    chain: (Seq<Coord>, Seq<Coord>),
    explored: Set<Coord>,
) -> bool {
    &&& valid_chain(board, team, offsets, start, chain)
    &&& well_routed(start, chain)
    &&& trail_explored(start, chain, explored)
}

/// The extensions of a chain that is on course are on course.
proof fn lemma_extensions_routed(
    board: Map<Coord, (PieceId, Team)>,
    team: Team,
    all_offsets: Seq<Coord>,
    start: Coord,
    chain: (Seq<Coord>, Seq<Coord>),
    explored: Set<Coord>,
    offsets: Seq<Coord>,
)
    requires
        on_course(board, team, all_offsets, start, chain, explored),
        explored.contains(chain_end(start, chain)),
        forall|k: int| 0 <= k < offsets.len() ==> all_offsets.contains(#[trigger] offsets[k]),
        forall|k: int| 0 <= k < offsets.len() ==> is_diagonal(#[trigger] offsets[k]),
    ensures
        forall|j: int|
            0 <= j < extensions(board, team, start, chain, explored, offsets).len() ==> on_course(
                board,
                team,
                all_offsets,
                start,
                #[trigger] extensions(board, team, start, chain, explored, offsets)[j],
                explored,
            ),
    decreases offsets.len(),
{
    lemma_extensions_valid(board, team, all_offsets, start, chain, explored, offsets);
    if offsets.len() > 0 {
        let front = offsets.drop_last();
        assert forall|k: int| 0 <= k < front.len() implies all_offsets.contains(
            #[trigger] front[k],
        ) && is_diagonal(front[k]) by {
            assert(front[k] == offsets[k]);
        }
        lemma_extensions_routed(board, team, all_offsets, start, chain, explored, front);
        let rest = extensions(board, team, start, chain, explored, front);
        let all = extensions(board, team, start, chain, explored, offsets);
        if all != rest {
            let end = chain_end(start, chain);
            let off = offsets[offsets.len() - 1];
            assert(is_diagonal(off));
            let (over, landing) = capture_over(board, team, end, off).unwrap();
            let kid = (chain.0.push(over), chain.1.push(landing));
            let n = chain.1.len() as int;
            assert(all == rest.push(kid));
            assert(all[rest.len() as int] == kid);
            assert(landing.x == end.x + 2 * off.x && landing.y == end.y + 2 * off.y);
            if n > 0 {
                assert(chain.1[n - 1] == end);
            }
            assert forall|i: int| 0 <= i < kid.1.len() implies #[trigger] kid.1[i] != start by {
                if i < n {
                    assert(kid.1[i] == chain.1[i]);
                }
            }
            assert forall|i: int, j: int| 0 <= i < j < kid.1.len() implies #[trigger] kid.1[i]
                != #[trigger] kid.1[j] by {
                assert(kid.1[i] == chain.1[i]);
                if j < n {
                    assert(kid.1[j] == chain.1[j]);
                } else if i < n - 1 {
                    assert(explored.contains(chain.1[i]));
                }
            }
            assert forall|i: int| 0 <= i < kid.1.len() implies {
                let dx = (#[trigger] kid.1[i]).x - start.x;
                let dy = kid.1[i].y - start.y;
                dx % 2 == 0 && (dx - dy) % 4 == 0
            } by {
                if i < n {
                    assert(kid.1[i] == chain.1[i]);
                }
            }
            assert forall|i: int| 0 <= i < kid.1.len() - 1 implies explored.contains(
                #[trigger] kid.1[i],
            ) by {
                assert(kid.1[i] == chain.1[i]);
            }
            assert(on_course(board, team, all_offsets, start, kid, explored));
            assert forall|j: int| 0 <= j < all.len() implies on_course(
                board,
                team,
                all_offsets,
                start,
                #[trigger] all[j],
                explored,
            ) by {
                if j < rest.len() {
                    assert(all[j] == rest[j]);
                }
            }
        }
    }
}

/// Where every chain in the queue is on course, no chain that the search
/// reports comes back to a cell it has stood on.
proof fn lemma_search_routed(
    board: Map<Coord, (PieceId, Team)>,
    team: Team,
    offsets: Seq<Coord>,
    start: Coord,
    queue: Seq<(Seq<Coord>, Seq<Coord>)>,
    explored: Set<Coord>,
)
    requires
        forall|k: int| 0 <= k < offsets.len() ==> is_diagonal(#[trigger] offsets[k]),
        forall|j: int|
            0 <= j < queue.len() ==> on_course(
                board,
                team,
                offsets,
                start,
                #[trigger] queue[j],
                explored,
            ),
    ensures
        forall|j: int|
            0 <= j < search(board, team, offsets, start, queue, explored).len() ==> well_routed(
                start,
                #[trigger] search(board, team, offsets, start, queue, explored)[j],
            ),
    decreases
        unexplored_below(explored, 64),
        queue_weight(start, queue, explored, offsets.len() + 1),
{
    if queue.len() > 0 {
        let explored2 = explored.insert(chain_end(start, queue[0]));
        let kids = extensions(board, team, start, queue[0], explored2, offsets);
        let queue2 = queue.skip(1) + kids;
        lemma_search_step(board, team, offsets, start, queue, explored);
        assert forall|k: int| 0 <= k < offsets.len() implies offsets.contains(
            #[trigger] offsets[k],
        ) by {}
        assert(on_course(board, team, offsets, start, queue[0], explored2));
        lemma_extensions_routed(board, team, offsets, start, queue[0], explored2, offsets);
        assert forall|j: int| 0 <= j < queue2.len() implies on_course(
            board,
            team,
            offsets,
            start,
            #[trigger] queue2[j],
            explored2,
        ) by {
            if j < queue.len() - 1 {
                assert(queue2[j] == queue[j + 1]);
                assert(on_course(board, team, offsets, start, queue[j + 1], explored));
            } else {
                assert(queue2[j] == kids[j - (queue.len() - 1)]);
            }
        }
        lemma_search_routed(board, team, offsets, start, queue2, explored2);
        let rest = search(board, team, offsets, start, queue2, explored2);
        let all = search(board, team, offsets, start, queue, explored);
        assert forall|j: int| 0 <= j < all.len() implies well_routed(start, #[trigger] all[j]) by {
            if all != rest {
                if j > 0 {
                    assert(all[j] == rest[j - 1]);
                }
            }
        }
    }
}

/// A sequence of captures that never comes back never jumps over the
/// same cell twice.
pub proof fn lemma_routed_captures_once(
    board: Map<Coord, (PieceId, Team)>,
    team: Team,
    offsets: Seq<Coord>,
    start: Coord,
    chain: (Seq<Coord>, Seq<Coord>),
)
    requires
        forall|k: int| 0 <= k < offsets.len() ==> is_diagonal(#[trigger] offsets[k]),
        valid_chain(board, team, offsets, start, chain),
        well_routed(start, chain),
    ensures
        forall|i: int, j: int|
            0 <= i < j < chain.0.len() ==> #[trigger] chain.0[i] != #[trigger] chain.0[j],
{
    assert forall|i: int, j: int| 0 <= i < j < chain.0.len() implies #[trigger] chain.0[i]
        != #[trigger] chain.0[j] by {
        let a = choose|a: int|
            0 <= a < offsets.len() && capture_over(
                board,
                team,
                chain_from(start, chain, i),
                #[trigger] offsets[a],
            ) == Some((chain.0[i], chain.1[i]));
        let b = choose|b: int|
            0 <= b < offsets.len() && capture_over(
                board,
                team,
                chain_from(start, chain, j),
                #[trigger] offsets[b],
            ) == Some((chain.0[j], chain.1[j]));
        assert(is_diagonal(offsets[a]) && is_diagonal(offsets[b]));
        let from_i = chain_from(start, chain, i);
        let from_j = chain_from(start, chain, j);
        assert(chain.0[i].x == from_i.x + offsets[a].x && chain.0[i].y == from_i.y + offsets[a].y);
        assert(chain.1[i].x == from_i.x + 2 * offsets[a].x && chain.1[i].y == from_i.y + 2
            * offsets[a].y);
        assert(chain.0[j].x == from_j.x + offsets[b].x && chain.0[j].y == from_j.y + offsets[b].y);
        assert(chain.1[j].x == from_j.x + 2 * offsets[b].x && chain.1[j].y == from_j.y + 2
            * offsets[b].y);
        assert(from_j == chain.1[j - 1]);
        if i > 0 {
            assert(from_i == chain.1[i - 1]);
        }
        if chain.0[i] == chain.0[j] {
            if offsets[a] == offsets[b] {
                assert(chain.1[i] == chain.1[j]);
            } else if offsets[a].x == -offsets[b].x && offsets[a].y == -offsets[b].y {
                assert(chain.1[j] == from_i);
            } else {
                let dxi = chain.1[i].x - start.x;
                let dyi = chain.1[i].y - start.y;
                let dxj = chain.1[j].x - start.x;
                let dyj = chain.1[j].y - start.y;
                assert((dxi - dyi) % 4 == 0 && (dxj - dyj) % 4 == 0);
                assert((dxi - dyi) - (dxj - dyj) == 2 || (dxi - dyi) - (dxj - dyj) == -2);
            }
        }
    }
}

/// No jump chain of a piece comes back to a cell it has stood on, and none
/// captures the same piece twice.
pub proof fn lemma_jump_chains_capture_once(
    board: Map<Coord, (PieceId, Team)>,
    pos: Coord,
    team: Team,
    king: bool,
)
    ensures
        forall|k: int|
            0 <= k < jump_chains(board, pos, team, king).len() ==> {
                let found = #[trigger] jump_chains(board, pos, team, king)[k];
                &&& well_routed(pos, found)
                &&& forall|i: int, j: int|
                    0 <= i < j < found.0.len() ==> #[trigger] found.0[i] != #[trigger] found.0[j]
            },
{
    let offsets = piece_offsets(team, king);
    let root = (Seq::<Coord>::empty(), Seq::<Coord>::empty());
    let queue = seq![root];
    lemma_piece_offsets_diagonal(team, king);
    lemma_search_routed(board, team, offsets, pos, queue, Set::empty());
    lemma_jump_chains(board, pos, team, king);
    let chains = jump_chains(board, pos, team, king);
    assert forall|k: int| 0 <= k < chains.len() implies {
        let found = #[trigger] chains[k];
        &&& well_routed(pos, found)
        &&& forall|i: int, j: int|
            0 <= i < j < found.0.len() ==> #[trigger] found.0[i] != #[trigger] found.0[j]
    } by {
        lemma_routed_captures_once(board, team, offsets, pos, chains[k]);
    }
}

} // verus!
