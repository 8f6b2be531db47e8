use vstd::prelude::*;
use crate::tilemap::{TileMap, DOOR};
use crate::sprite::floor_div;

verus! {

/// How far ahead of the viewer, in sub-units, a step checks for a wall
/// (0.3125 of a tile).
pub const PROBE: i64 = 80;
/// Crouching lowers the view by this many pixels a tick, down to `CROUCH_LIMIT`.
pub const CROUCH_STEP: i64 = 30;
pub const CROUCH_LIMIT: i64 = -300;
/// The look offset stays within `-PITCH_LIMIT..=PITCH_LIMIT` pixels.
pub const PITCH_LIMIT: i64 = 300;
/// Largest coordinate handled, in sub-units.
pub const POS_LIMIT: i64 = 0x100_0000;

/// The cell under point `(x, y)` (in sub-units) is solid; a point off the
/// map counts as solid.
pub open spec fn solid_at(map: &TileMap, x: int, y: int) -> bool {
    if 0 <= x < map.width * 256 && 0 <= y < map.height * 256 {
        map.solid@[(y / 256) * map.width + x / 256]
    } else {
        true
    }
}

/// The test of `solid_at`.
pub fn is_solid_at(map: &TileMap, x: i64, y: i64) -> (r: bool)
    requires
        map.wf(),
        map.width <= 4096,
        map.height <= 4096,
    ensures
        r == solid_at(map, x as int, y as int),
{
    if 0 <= x && x < (map.width as i64) * 256 && 0 <= y && y < (map.height as i64) * 256 {
        let (cx, cy) = ((x / 256) as usize, (y / 256) as usize);
        assert(cy * map.width + cx < map.width * map.height) by (nonlinear_arith)
            requires cx < map.width, cy < map.height;
        assert(cy * map.width <= 4096 * 4096) by (nonlinear_arith)
            requires cy < map.height, map.width <= 4096, map.height <= 4096;
        map.solid[cy * map.width + cx]
    } else {
        true
    }
}

pub open spec fn sign(v: int) -> int {
    if v < 0 { -1 } else { 1 }
}

/// A step of `(move_x, move_y)` from `(pos_x, pos_y)`, with each axis
/// cancelled whose probe point, `PROBE` ahead along that axis, is solid.
pub open spec fn collide_spec(map: &TileMap, pos_x: int, pos_y: int, move_x: int, move_y: int) -> (int, int) {
    let mx = if solid_at(map, pos_x + sign(move_x) * PROBE, pos_y) { 0 } else { move_x };
    let my = if solid_at(map, pos_x, pos_y + sign(move_y) * PROBE) { 0 } else { move_y };
    (mx, my)
}

/// The step of `collide_spec`.
pub fn collide(map: &TileMap, pos_x: i64, pos_y: i64, move_x: i64, move_y: i64) -> (r: (i64, i64))
    requires
        map.wf(),
        map.width <= 4096,
        map.height <= 4096,
        -POS_LIMIT <= pos_x <= POS_LIMIT,
        -POS_LIMIT <= pos_y <= POS_LIMIT,
    ensures
        (r.0 as int, r.1 as int) == collide_spec(map, pos_x as int, pos_y as int, move_x as int, move_y as int),
{
    let px = if move_x < 0 { pos_x - PROBE } else { pos_x + PROBE };
    let py = if move_y < 0 { pos_y - PROBE } else { pos_y + PROBE };
    let mx = if is_solid_at(map, px, pos_y) { 0 } else { move_x };
    let my = if is_solid_at(map, pos_x, py) { 0 } else { move_y };
    (mx, my)
}

/// Height offset after one tick: crouching sinks by `CROUCH_STEP` while
/// above `CROUCH_LIMIT`; standing rises by `CROUCH_STEP` while below 0.
pub fn crouch_step(height: i64, crouching: bool) -> (r: i64)
    requires
        CROUCH_LIMIT - CROUCH_STEP <= height <= CROUCH_STEP,
    ensures
        r == if crouching {
            if height > CROUCH_LIMIT { height - CROUCH_STEP } else { height as int }
        } else {
            if height < 0 { height + CROUCH_STEP } else { height as int }
        },
        CROUCH_LIMIT - CROUCH_STEP <= r <= CROUCH_STEP,
{
    if crouching {
        if height > CROUCH_LIMIT { height - CROUCH_STEP } else { height }
    } else {
        if height < 0 { height + CROUCH_STEP } else { height }
    }
}

/// The look offset held within `-PITCH_LIMIT..=PITCH_LIMIT`.
pub fn clamp_pitch(pitch: i64) -> (r: i64)
    ensures
        r == if pitch < -PITCH_LIMIT { -PITCH_LIMIT as int } else if pitch > PITCH_LIMIT { PITCH_LIMIT as int } else { pitch as int },
{
    if pitch < -PITCH_LIMIT {
        -PITCH_LIMIT
    } else if pitch > PITCH_LIMIT {
        PITCH_LIMIT
    } else {
        pitch
    }
}

/// The cell a tile and a half ahead of `(pos_x, pos_y)` along the view
/// direction (`256` per tile), if it is on the map.
pub open spec fn cell_ahead(map: &TileMap, pos_x: int, pos_y: int, dir_x: int, dir_y: int) -> Option<int> {
    let fx = pos_x + (dir_x * 3) / 2;
    let fy = pos_y + (dir_y * 3) / 2;
    if 0 <= fx < map.width * 256 && 0 <= fy < map.height * 256 {
        Some((fy / 256) * map.width + fx / 256)
    } else {
        None
    }
}

impl TileMap {
    /// The interact key: starts opening the door a tile and a half ahead at
    /// time `now`, if that cell holds one; see `open_door`.
    pub fn interact(&mut self, pos_x: i64, pos_y: i64, dir_x: i64, dir_y: i64, now: u64)
        requires
            old(self).wf(),
            old(self).width <= 4096,
            old(self).height <= 4096,
            -POS_LIMIT <= pos_x <= POS_LIMIT,
            -POS_LIMIT <= pos_y <= POS_LIMIT,
            -POS_LIMIT <= dir_x <= POS_LIMIT,
            -POS_LIMIT <= dir_y <= POS_LIMIT,
        ensures
            final(self).wf(),
            final(self).walls == old(self).walls,
            final(self).solid == old(self).solid,
            final(self).width == old(self).width,
            final(self).height == old(self).height,
            final(self).doors@ == match cell_ahead(old(self), pos_x as int, pos_y as int, dir_x as int, dir_y as int) {
                Some(c) => match old(self).doors@[c] {
                    Some(d) => if !d.opening {
                        old(self).doors@.update(c, Some(crate::tilemap::Door { opening: true, timer: now, ..d }))
                    } else {
                        old(self).doors@
                    },
                    None => old(self).doors@,
                },
                None => old(self).doors@,
            },
    {
        let fx = pos_x + floor_div(dir_x * 3, 2);
        let fy = pos_y + floor_div(dir_y * 3, 2);
        if 0 <= fx && fx < (self.width as i64) * 256 && 0 <= fy && fy < (self.height as i64) * 256 {
            let (cx, cy) = ((fx / 256) as usize, (fy / 256) as usize);
            assert(cy * self.width + cx < self.width * self.height) by (nonlinear_arith)
                requires cx < self.width, cy < self.height;
            assert(cy * self.width <= 4096 * 4096) by (nonlinear_arith)
                requires cy < self.height, self.width <= 4096, self.height <= 4096;
            let cell = cy * self.width + cx;
            if self.walls[cell] == DOOR {
                self.open_door(cell, now);
            }
        }
    }
}

} // verus!
