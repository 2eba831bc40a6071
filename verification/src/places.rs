//! The cells of the board as places that the player can choose: each
//! holds whether the piece in hand may move there, and by which move.

use crate::board::{cell_at, cell_index, Coord};
use vstd::prelude::*;

verus! {

/// A cell as a destination. While `valid`, the piece in hand may move
/// there: over the cells `jumped`, landing on the cells `jumps` in turn.
#[derive(Clone, Debug, PartialEq, Eq)]
pub struct CheckerPlace {
    pub pos: Coord,
    pub jumps: Vec<Coord>,
    pub jumped: Vec<Coord>,
    pub valid: bool,
}

/// The place of every cell of the board.
#[derive(Clone, Debug)]
pub struct PlaceMap {
    places: Vec<CheckerPlace>,
}

impl CheckerPlace {
    /// A place to which no move leads.
    pub open spec fn is_blank(&self) -> bool {
        !self.valid && self.jumps@.len() == 0 && self.jumped@.len() == 0
    }
}

impl PlaceMap {
    /// There is one place for each of the 64 cells, at its cell.
    pub closed spec fn wf(&self) -> bool {
        &&& self.places@.len() == 64
        &&& forall|i: int| 0 <= i < 64 ==> (#[trigger] self.places@[i]).pos == cell_at(i)
    }

    /// The place of the cell `pos`.
    pub closed spec fn place(&self, pos: Coord) -> CheckerPlace {
        self.places@[cell_index(pos)]
    }

    /// The places of an empty selection: no move leads anywhere.
    pub fn new() -> (m: PlaceMap)
        ensures
            m.wf(),
            forall|pos: Coord| pos.on_board() ==> (#[trigger] m.place(pos)).is_blank(),
    {
        let mut places: Vec<CheckerPlace> = Vec::new();
        let mut i: i32 = 0;
        while i < 64
            invariant
                0 <= i <= 64,
                places@.len() == i,
                forall|k: int|
                    0 <= k < i ==> (#[trigger] places@[k]).pos == cell_at(k) && places@[k].is_blank(),
            decreases 64 - i,
        {
            places.push(
                CheckerPlace {
                    pos: Coord { x: i % 8, y: i / 8 },
                    jumps: Vec::new(),
                    jumped: Vec::new(),
                    valid: false,
                },
            );
            i = i + 1;
        }
        PlaceMap { places }
    }

    /// The place of the cell `pos`.
    pub fn get(&self, pos: Coord) -> (place: &CheckerPlace)
        requires
            self.wf(),
            pos.on_board(),
        ensures
            *place == self.place(pos),
            place.pos == pos,
    {
        let i = pos.index();
        &self.places[i]
    }

    /// Replaces the place of the cell `pos`. A position off the board is
    /// ignored.
    pub fn insert(&mut self, pos: Coord, place: CheckerPlace)
        requires
            old(self).wf(),
        ensures
            final(self).wf(),
            !pos.on_board() ==> *final(self) == *old(self),
            pos.on_board() ==> final(self).place(pos) == (CheckerPlace { pos, ..place }),
            forall|q: Coord|
                q.on_board() && q != pos ==> #[trigger] final(self).place(q) == old(self).place(q),
    {
        if !pos.is_on_board() {
            return;
        }
        let i = pos.index();
        let CheckerPlace { pos: _, jumps, jumped, valid } = place;
        self.places.set(i, CheckerPlace { pos, jumps, jumped, valid });
        proof {
            assert forall|q: Coord| q.on_board() && q != pos implies cell_index(q) != cell_index(
                pos,
            ) by {}
        }
    }

    /// Makes every place blank: no move leads anywhere.
    pub fn clear(&mut self)
        requires
            old(self).wf(),
        ensures
            final(self).wf(),
            forall|pos: Coord| pos.on_board() ==> (#[trigger] final(self).place(pos)).is_blank(),
    {
        let mut i: usize = 0;
        while i < 64
            invariant
                i <= 64,
                self.wf(),
                forall|k: int| 0 <= k < i ==> (#[trigger] self.places@[k]).is_blank(),
            decreases 64 - i,
        {
            let pos = self.places[i].pos;
            self.places.set(i, CheckerPlace { pos, jumps: Vec::new(), jumped: Vec::new(), valid: false });
            i = i + 1;
        }
    }
}

impl Default for PlaceMap {
    /// The places of an empty selection.
    fn default() -> (m: PlaceMap)
        ensures
            m.wf(),
            forall|pos: Coord| pos.on_board() ==> (#[trigger] m.place(pos)).is_blank(),
    {
        PlaceMap::new()
    }
}

} // verus!
