use vstd::prelude::*;

verus! {

/// Wall code of an empty cell.
pub const EMPTY: u8 = 0;
/// Wall code of a sliding door.
pub const DOOR: u8 = 6;
/// Wall code given to the side of a doorway, seen while casting only.
pub const DOOR_SIDE: u8 = 7;
/// Floor codes run below this: each is a material of the texture atlas.
pub const FLOOR_KINDS: u8 = 8;
/// Offset of a fully closed door; 0 is fully open.
pub const DOOR_CLOSED: u64 = 256;

/// A sliding door: how far it is closed, and when it began to open.
#[derive(Clone, Copy, Debug)]
pub struct Door {
    pub opening: bool,
    pub offset: u64,
    pub timer: u64,
}

/// Offset of a door that began opening at `start`, at time `now`, sliding
/// `rate` offset units per millisecond; it never closes again.
pub open spec fn door_offset_at(offset: u64, start: u64, now: u64, rate: u64) -> u64 {
    let elapsed = if now >= start { now - start } else { 0 };
    let target = if rate * elapsed >= DOOR_CLOSED { 0 } else { DOOR_CLOSED - rate * elapsed };
    if target < offset { target as u64 } else { offset }
}

impl Door {
    /// A closed door, not opening.
    pub fn closed() -> (d: Door)
        ensures
            !d.opening,
            d.offset == DOOR_CLOSED,
            d.timer == 0,
    {
        Door { opening: false, offset: DOOR_CLOSED, timer: 0 }
    }

    /// Moves an opening door to where it stands at `now`.
    pub fn update(&mut self, now: u64, rate: u64)
        requires
            old(self).offset <= DOOR_CLOSED,
            rate <= DOOR_CLOSED,
        ensures
            final(self).offset == door_offset_at(old(self).offset, old(self).timer, now, rate),
            final(self).offset <= old(self).offset,
            final(self).opening == old(self).opening,
            final(self).timer == old(self).timer,
    {
        let elapsed: u64 = if now >= self.timer { now - self.timer } else { 0 };
        let target: u64 = if rate == 0 {
            assert(rate * elapsed == 0) by (nonlinear_arith)
                requires rate == 0;
            DOOR_CLOSED
        } else if elapsed >= DOOR_CLOSED {
            assert(rate * elapsed >= DOOR_CLOSED) by (nonlinear_arith)
                requires rate >= 1, elapsed >= DOOR_CLOSED;
            0
        } else {
            assert(rate * elapsed <= 65536) by (nonlinear_arith)
                requires rate <= 256, elapsed < 256;
            let slid = rate * elapsed;
            if slid >= DOOR_CLOSED { 0 } else { DOOR_CLOSED - slid }
        };
        if target < self.offset {
            self.offset = target;
        }
    }
}

/// A grid of wall codes and floor codes, `width` by `height`, numbered row by
/// row; its solid cells; and a door record for each door cell.
pub struct TileMap {
    pub walls: Vec<u8>,
    pub floors: Vec<u8>,
    pub solid: Vec<bool>,
    pub doors: Vec<Option<Door>>,
    pub width: usize,
    pub height: usize,
}

impl TileMap {
    /// Number of cells of the grid.
    pub open spec fn cells(&self) -> int {
        self.width * self.height
    }

    /// The arrays cover the grid, and exactly the door cells hold a door
    /// record, whose offset is in `0..=DOOR_CLOSED`.
    pub open spec fn wf(&self) -> bool {
        &&& self.walls@.len() == self.cells()
        &&& self.floors@.len() == self.cells()
        &&& self.solid@.len() == self.cells()
        &&& self.doors@.len() == self.cells()
        &&& forall|c: int| 0 <= c < self.cells() ==> #[trigger] self.walls@[c] <= DOOR
        &&& forall|c: int| 0 <= c < self.cells() ==> #[trigger] self.floors@[c] < FLOOR_KINDS
        &&& forall|c: int| 0 <= c < self.cells() ==> (#[trigger] self.doors@[c] is Some <==> self.walls@[c] == DOOR)
        &&& forall|c: int| 0 <= c < self.cells() && #[trigger] self.doors@[c] is Some
            ==> self.doors@[c]->Some_0.offset <= DOOR_CLOSED
    }

    /// A map from its wall and floor codes: a cell is solid when its wall
    /// code is not empty, and each door cell gets a closed door.
    pub fn new(walls: Vec<u8>, floors: Vec<u8>, map_size: (usize, usize)) -> (m: TileMap)
        requires
            walls@.len() == map_size.0 * map_size.1,
            floors@.len() == map_size.0 * map_size.1,
            forall|c: int| 0 <= c < walls@.len() ==> #[trigger] walls@[c] <= DOOR,
            forall|c: int| 0 <= c < floors@.len() ==> #[trigger] floors@[c] < FLOOR_KINDS,
        ensures
            m.wf(),
            m.walls == walls,
            m.floors == floors,
            m.width == map_size.0,
            m.height == map_size.1,
            forall|c: int| 0 <= c < m.cells() ==> #[trigger] m.solid@[c] == (walls@[c] != EMPTY),
            forall|c: int| 0 <= c < m.cells() && #[trigger] m.doors@[c] is Some
                ==> m.doors@[c]->Some_0 == Door::closed_spec(),
    {
        let mut solid: Vec<bool> = Vec::new();
        let mut doors: Vec<Option<Door>> = Vec::new();
        let mut i: usize = 0;
        while i < walls.len()
            invariant
                i <= walls@.len(),
                forall|c: int| 0 <= c < walls@.len() ==> #[trigger] walls@[c] <= DOOR,
                solid@.len() == i,
                doors@.len() == i,
                forall|c: int| 0 <= c < i ==> #[trigger] solid@[c] == (walls@[c] != EMPTY),
                forall|c: int| 0 <= c < i ==> (#[trigger] doors@[c] is Some <==> walls@[c] == DOOR),
                forall|c: int| 0 <= c < i && #[trigger] doors@[c] is Some ==> doors@[c]->Some_0 == Door::closed_spec(),
            decreases walls@.len() - i,
        {
            solid.push(walls[i] != EMPTY);
            if walls[i] == DOOR {
                doors.push(Some(Door::closed()));
            } else {
                doors.push(None);
            }
            i += 1;
        }
        TileMap { walls, floors, solid, doors, width: map_size.0, height: map_size.1 }
    }

    /// Starts opening the door at `cell` at time `now`. Nothing changes when
    /// the cell holds no door or its door is already opening.
    pub fn open_door(&mut self, cell: usize, now: u64)
        requires
            old(self).wf(),
            cell < old(self).cells(),
        ensures
            final(self).wf(),
            final(self).walls == old(self).walls,
            final(self).solid == old(self).solid,
            final(self).width == old(self).width,
            final(self).height == old(self).height,
            final(self).doors@ == match old(self).doors@[cell as int] {
                Some(d) => if !d.opening {
                    old(self).doors@.update(cell as int, Some(Door { opening: true, timer: now, ..d }))
                } else {
                    old(self).doors@
                },
                None => old(self).doors@,
            },
    {
        if let Some(d) = self.doors[cell] {
            if !d.opening {
                self.doors.set(cell, Some(Door { opening: true, timer: now, ..d }));
            }
        }
    }

    /// Moves every opening door to where it stands at `now`; a door that has
    /// come fully open leaves its cell passable.
    pub fn update_doors(&mut self, now: u64, rate: u64)
        requires
            old(self).wf(),
            rate <= DOOR_CLOSED,
        ensures
            final(self).wf(),
            final(self).walls == old(self).walls,
            final(self).width == old(self).width,
            final(self).height == old(self).height,
            forall|c: int| 0 <= c < old(self).cells() ==> #[trigger] final(self).doors@[c] == match old(self).doors@[c] {
                Some(d) => if d.opening {
                    Some(Door { offset: door_offset_at(d.offset, d.timer, now, rate), ..d })
                } else {
                    Some(d)
                },
                None => None,
            },
            forall|c: int| 0 <= c < old(self).cells() ==> #[trigger] final(self).solid@[c] == (old(self).solid@[c]
                && !(final(self).doors@[c] matches Some(d) && d.opening && d.offset == 0)),
    {
        let ghost old_doors = self.doors@;
        let ghost old_solid = self.solid@;
        let cells = self.doors.len();
        let mut c: usize = 0;
        while c < cells
            invariant
                self.wf(),
                cells == self.cells(),
                c <= cells,
                self.walls == old(self).walls,
                self.width == old(self).width,
                self.height == old(self).height,
                rate <= DOOR_CLOSED,
                old_doors == old(self).doors@,
                old_solid == old(self).solid@,
                forall|k: int| c <= k < cells ==> #[trigger] self.doors@[k] == old_doors[k],
                forall|k: int| c <= k < cells ==> #[trigger] self.solid@[k] == old_solid[k],
                forall|k: int| 0 <= k < c ==> #[trigger] self.doors@[k] == match old_doors[k] {
                    Some(d) => if d.opening {
                        Some(Door { offset: door_offset_at(d.offset, d.timer, now, rate), ..d })
                    } else {
                        Some(d)
                    },
                    None => None,
                },
                forall|k: int| 0 <= k < c ==> #[trigger] self.solid@[k] == (old_solid[k]
                    && !(self.doors@[k] matches Some(d) && d.opening && d.offset == 0)),
            decreases cells - c,
        {
            if let Some(d) = self.doors[c] {
                if d.opening {
                    let mut nd = d;
                    nd.update(now, rate);
                    self.doors.set(c, Some(nd));
                    if nd.offset == 0 {
                        self.solid.set(c, false);
                    }
                }
            }
            c += 1;
        }
    }
}

impl Door {
    pub open spec fn closed_spec() -> Door {
        Door { opening: false, offset: DOOR_CLOSED, timer: 0 }
    }
}

} // verus!
