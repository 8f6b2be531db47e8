use vstd::prelude::*;
use crate::Orientation;
use crate::lighting::{Lighting, LIGHT_ONE, facing_cell};
use crate::raycast::{Intersection, Ray, SUB, DIR_LIMIT, MAX_DISTANCE};
use crate::tilemap::{TileMap, DOOR, DOOR_CLOSED, FLOOR_KINDS};
use crate::sprite::{floor_div, in_front_of_wall, sprite_in_front, Camera, Sprite, SpriteBox, COORD_LIMIT};

verus! {

/// Largest factor distance falloff applies: 1.5 in units of `LIGHT_ONE`.
pub const ATTENUATION_CAP: u64 = 98304;
/// Texels along one side of a wall texture.
pub const TEX: u64 = 128;
/// Wall materials in the wall atlas, each a `TEX`-by-`TEX` tile stacked in rows.
pub const MATERIALS: usize = 8;
/// Largest screen height, in pixels.
pub const MAX_HEIGHT: i64 = 0x4000;
/// Largest projection distance, pitch or jump, in pixels.
pub const MAX_PROJECTION: i64 = 0x1_0000;

/// Falloff with distance `num / den`: `min(1.5, 3 / d^2)` in units of
/// `LIGHT_ONE`; a distance of zero gets the cap.
pub open spec fn attenuation_spec(num: int, den: int) -> int {
    if 2 * den * den >= num * num {
        ATTENUATION_CAP as int
    } else {
        (3 * LIGHT_ONE * den * den) / (num * num)
    }
}

/// The falloff of `attenuation_spec`.
pub fn attenuation(num: u64, den: u64) -> (r: u64)
    requires
        num <= MAX_DISTANCE * DIR_LIMIT + SUB,
        den <= 0x4_0000,
    ensures
        r == attenuation_spec(num as int, den as int),
        r <= ATTENUATION_CAP,
{
    assert(num * num <= 0x1_0000_0000_0000 && den * den <= 0x10_0000_0000) by (nonlinear_arith)
        requires num <= 6553856, den <= 0x4_0000;
    let n2 = num * num;
    let d2 = den * den;
    assert(3 * 65536 * d2 == 3 * LIGHT_ONE * den * den && 2 * d2 == 2 * den * den) by (nonlinear_arith)
        requires d2 == den * den;
    if 2 * d2 >= n2 {
        ATTENUATION_CAP
    } else {
        assert(3 * 65536 * d2 <= 3 * 65536 * 0x10_0000_0000) by (nonlinear_arith)
            requires d2 <= 0x10_0000_0000;
        assert((3 * 65536 * d2) / (n2 as int) <= ATTENUATION_CAP) by (nonlinear_arith)
            requires 2 * d2 < n2, d2 >= 0;
        (3 * 65536 * d2) / n2
    }
}

/// Falloff `min(1.5, 3 / L^2)` in units of `LIGHT_ONE`, for the length `L`
/// of a ray travelled to parameter `num / den` along a direction whose
/// squared length is `d2` (`256 * 256` per square tile): `L^2` is
/// `num^2 * d2 / (den^2 * 65536)` square tiles. A length of zero gets the cap.
pub open spec fn ray_attenuation_spec(num: int, den: int, d2: int) -> int {
    if 2 * 65536 * den * den >= num * num * d2 {
        ATTENUATION_CAP as int
    } else {
        (3 * 65536 * 65536 * den * den) / (num * num * d2)
    }
}

/// The falloff of `ray_attenuation_spec`, for direction `(dx, dy)`.
pub fn ray_attenuation(num: u64, den: u64, dx: i64, dy: i64) -> (r: u64)
    requires
        num <= MAX_DISTANCE * DIR_LIMIT + SUB,
        den <= DIR_LIMIT,
        -DIR_LIMIT <= dx <= DIR_LIMIT,
        -DIR_LIMIT <= dy <= DIR_LIMIT,
    ensures
        r == ray_attenuation_spec(num as int, den as int, dx * dx + dy * dy),
        r <= ATTENUATION_CAP,
{
    assert(0 <= dx * dx <= 0x1_0000_0000 && 0 <= dy * dy <= 0x1_0000_0000) by (nonlinear_arith)
        requires -65536 <= dx <= 65536, -65536 <= dy <= 65536;
    let d2 = (dx * dx + dy * dy) as u128;
    let n = num as u128;
    let e = den as u128;
    assert(n * n <= 0x1_0000_0000_0000 && e * e <= 0x1_0000_0000) by (nonlinear_arith)
        requires n <= 6553856, e <= 65536;
    let n2 = n * n;
    let e2 = e * e;
    assert(n2 * d2 <= 0x1_0000_0000_0000 * 0x2_0000_0000) by (nonlinear_arith)
        requires n2 <= 0x1_0000_0000_0000, d2 <= 0x2_0000_0000, n2 >= 0, d2 >= 0;
    let lhs = 131072 * e2;
    let rhs = n2 * d2;
    assert(lhs == 2 * 65536 * den * den && rhs == num * num * (dx * dx + dy * dy)) by (nonlinear_arith)
        requires lhs == 131072 * e2, e2 == e * e, e == den, rhs == n2 * d2, n2 == n * n, n == num,
            d2 == dx * dx + dy * dy;
    if lhs >= rhs {
        ATTENUATION_CAP
    } else {
        assert(3 * 65536 * 65536 * e2 <= 3 * 65536 * 65536 * 0x1_0000_0000) by (nonlinear_arith)
            requires e2 <= 0x1_0000_0000;
        let top = 3 * 65536 * 65536 * e2;
        assert(top == 3 * 65536 * 65536 * den * den) by (nonlinear_arith)
            requires top == 3 * 65536 * 65536 * e2, e2 == e * e, e == den;
        assert(top / rhs <= ATTENUATION_CAP) by (nonlinear_arith)
            requires top == 3 * 65536 * 65536 * e2, 131072 * e2 < rhs, e2 >= 0;
        (top / rhs) as u64
    }
}

/// A texel channel `c` lit by the torch, the static light and the falloff,
/// each in units of `LIGHT_ONE`, saturating at 255.
pub open spec fn shade_spec(c: int, torch: int, light: int, att: int) -> int {
    let v = (c * torch * light * att) / (LIGHT_ONE * LIGHT_ONE * LIGHT_ONE);
    if v > 255 { 255 } else { v }
}

/// The shading of `shade_spec`.
pub fn shade(c: u8, torch: u64, light: u32, att: u64) -> (r: u8)
    requires
        torch <= 2 * LIGHT_ONE,
        light <= LIGHT_ONE,
        att <= ATTENUATION_CAP,
    ensures
        r == shade_spec(c as int, torch as int, light as int, att as int),
{
    let cc = c as u64;
    let l = light as u64;
    assert(cc * torch <= 255 * 131072) by (nonlinear_arith)
        requires cc <= 255, torch <= 131072;
    assert(cc * torch * l <= 255 * 131072 * 65536) by (nonlinear_arith)
        requires cc * torch <= 255 * 131072, l <= 65536, cc * torch >= 0;
    assert(cc * torch * l * att <= 255 * 131072 * 65536 * 98304) by (nonlinear_arith)
        requires cc * torch * l <= 255 * 131072 * 65536, att <= 98304, cc * torch * l >= 0;
    let v = (cc * torch * l * att) / 0x1_0000_0000_0000;
    if v > 255 { 255 } else { v as u8 }
}

/// Height in pixels of a wall slice at distance `num / den`, for a
/// projection plane `planedist` pixels away.
pub open spec fn slice_height(planedist: int, num: int, den: int) -> int {
    if num == 0 { 0 } else { (planedist * den) / num }
}

/// Top row of a wall slice: centred on a screen `h` rows tall, moved by the
/// look offset `pitch` and by the jump height `jump` seen from the distance.
pub open spec fn slice_top(planedist: int, jump: int, pitch: int, num: int, den: int, h: int) -> int {
    let lift = if num == 0 { 0 } else { (jump * den) / num };
    (h - slice_height(planedist, num, den)) / 2 + pitch + lift
}

/// Fraction of a tile, in texels, at which the ray crosses the struck face:
/// measured along y on east and west faces, along x on north and south faces.
pub open spec fn face_texel(ray: Ray, hit: Intersection) -> int {
    let (o, d) = match hit.orientation {
        Orientation::E | Orientation::W => (ray.oy as int, ray.dy as int),
        Orientation::N | Orientation::S => (ray.ox as int, ray.dx as int),
    };
    let along = o * hit.dist_den + hit.dist_num * d;
    let within = along % (SUB * hit.dist_den);
    (within * TEX) / (SUB * hit.dist_den)
}

/// Texture column of a hit: the face texel, mirrored on north and west faces
/// so textures read the same way round the compass. A door slides its
/// texture aside by a quarter of its open amount, toward the jamb of the half
/// that was struck; the result is kept within the texture.
pub open spec fn wall_texture_x(ray: Ray, hit: Intersection, door_offset: int) -> int {
    let f = face_texel(ray, hit);
    let tx = match hit.orientation {
        Orientation::N | Orientation::W => TEX - 1 - f,
        _ => f,
    };
    if hit.wall_type == DOOR {
        let shift = (DOOR_CLOSED - door_offset) / 4;
        let low_half = f < TEX / 2;
        let toward_low = match hit.orientation {
            Orientation::N | Orientation::W => low_half,
            _ => !low_half,
        };
        let moved = if toward_low { tx - shift } else { tx + shift };
        if moved < 0 { 0 } else if moved > TEX - 1 { (TEX - 1) as int } else { moved }
    } else {
        tx
    }
}

/// The texture column of `wall_texture_x`.
pub fn texture_x(ray: &Ray, hit: &Intersection, door_offset: u64) -> (tx: u64)
    requires
        0 <= ray.ox < 0x10_0000,
        0 <= ray.oy < 0x10_0000,
        -DIR_LIMIT <= ray.dx <= DIR_LIMIT,
        -DIR_LIMIT <= ray.dy <= DIR_LIMIT,
        0 < hit.dist_den <= DIR_LIMIT,
        hit.dist_num <= MAX_DISTANCE * DIR_LIMIT + SUB,
        door_offset <= DOOR_CLOSED,
    ensures
        tx == wall_texture_x(*ray, *hit, door_offset as int),
        tx < TEX,
{
    let (o, d) = match hit.orientation {
        Orientation::E | Orientation::W => (ray.oy, ray.dy),
        _ => (ray.ox, ray.dx),
    };
    let den = hit.dist_den as i64;
    let num = hit.dist_num as i64;
    proof {
        assert(0 <= o * den <= 0x10_0000 * 65536) by (nonlinear_arith)
            requires 0 <= o < 0x10_0000, 0 < den <= 65536;
        assert(-6553856 * 65536 <= num * d <= 6553856 * 65536) by (nonlinear_arith)
            requires 0 <= num <= 6553856, -65536 <= d <= 65536;
    }
    let along = o * den + num * d;
    let span = 256 * den;
    let within = if along >= 0 {
        along % span
    } else {
        let r = (-along) % span;
        if r == 0 { 0 } else { span - r }
    };
    proof {
        vstd::arithmetic::div_mod::lemma_fundamental_div_mod(along as int, span as int);
        vstd::arithmetic::div_mod::lemma_mod_bound(along as int, span as int);
        if along < 0 {
            let n = -(along as int);
            vstd::arithmetic::div_mod::lemma_fundamental_div_mod(n, span as int);
            vstd::arithmetic::div_mod::lemma_mod_bound(n, span as int);
            let (q1, r1) = (n / (span as int), n % (span as int));
            if r1 == 0 {
                assert(along as int == (-q1) * span + 0) by (nonlinear_arith)
                    requires n == -along, n == span * q1 + r1, r1 == 0;
                vstd::arithmetic::div_mod::lemma_fundamental_div_mod_converse(along as int, span as int, -q1, 0);
            } else {
                assert(along as int == (-q1 - 1) * span + (span - r1)) by (nonlinear_arith)
                    requires n == -along, n == span * q1 + r1;
                vstd::arithmetic::div_mod::lemma_fundamental_div_mod_converse(along as int, span as int, -q1 - 1, span - r1);
            }
        }
        assert(0 <= within * 128 < 128 * span) by (nonlinear_arith)
            requires 0 <= within < span;
        assert((within * 128) / (span as int) < 128) by (nonlinear_arith)
            requires 0 <= within < span, span > 0;
    }
    let f = ((within * 128) / span) as u64;
    let tx = match hit.orientation {
        Orientation::N | Orientation::W => TEX - 1 - f,
        _ => f,
    };
    if hit.wall_type == DOOR {
        let shift = (DOOR_CLOSED - door_offset) / 4;
        let low_half = f < TEX / 2;
        let toward_low = match hit.orientation {
            Orientation::N | Orientation::W => low_half,
            _ => !low_half,
        };
        if toward_low {
            if tx < shift { 0 } else { tx - shift }
        } else {
            if tx + shift > TEX - 1 { TEX - 1 } else { tx + shift }
        }
    } else {
        tx
    }
}

/// Byte `ch` of texel `(tx, ty)` of material `wall_type` in the wall atlas.
pub open spec fn texel_index(wall_type: int, tx: int, ty: int, ch: int) -> int {
    ((wall_type * 128 + ty) * 128 + tx) * 4 + ch
}

/// Bytes in a wall atlas of `MATERIALS` stacked `TEX`-by-`TEX` RGBA tiles.
pub const ATLAS_BYTES: usize = 524288;

/// Texture row for screen row `y` of a slice whose unclipped top row is
/// `top` and which is `height` rows tall.
pub open spec fn texture_y(y: int, top: int, height: int) -> int {
    ((y - top) * 128) / height
}

/// The wall span of a column: rows `top..top + height` clipped to the
/// screen's `h` rows.
pub open spec fn span_start(top: int) -> int {
    if top < 0 { 0 } else { top }
}

pub open spec fn span_end(top: int, height: int, h: int) -> int {
    if top + height > h { h } else { top + height }
}

/// Everything a wall span is painted with.
pub struct WallPaint {
    pub wall_type: u8,
    pub tx: u64,
    pub top: i64,
    pub height: i64,
    pub torch: u64,
    pub att: u64,
    pub cell: usize,
    pub orientation: Orientation,
}

/// The colour of byte `ch` of screen row `y` in a painted wall span:
/// shaded texture colour for red, green and blue, and opaque alpha.
pub open spec fn wall_byte(atlas: Seq<u8>, light: &Lighting, p: WallPaint, y: int, ch: int) -> int {
    let ty = texture_y(y, p.top as int, p.height as int);
    if ch == 3 {
        255
    } else {
        shade_spec(atlas[texel_index(p.wall_type as int, p.tx as int, ty, ch)] as int, p.torch as int,
            light.wall_light(p.tx as int, ty, p.cell as int, p.orientation), p.att as int)
    }
}

/// The painter's requirements: a well-formed light, a wall material and
/// texture column in the atlas, a facing cell in the grid, a falloff and a
/// torch factor in range, and a column of `h` RGBA rows at `base`.
pub open spec fn paint_ready(slice: Seq<u8>, base: int, h: int, atlas: Seq<u8>, light: &Lighting, p: WallPaint) -> bool {
    &&& light.wf()
    &&& atlas.len() == ATLAS_BYTES
    &&& p.wall_type < MATERIALS
    &&& p.tx < TEX
    &&& 0 < p.height <= 0x1_0000_0000
    &&& -0x10_0000_0000 <= p.top <= 0x10_0000_0000
    &&& p.torch <= 2 * LIGHT_ONE
    &&& p.att <= ATTENUATION_CAP
    &&& 0 <= facing_cell(p.cell as int, p.orientation, light.map_size.0 as int) < light.map_size.0 * light.map_size.1
    &&& 0 < h <= MAX_HEIGHT
    &&& base + h * 4 <= slice.len()
}

/// Paints the wall span of one screen column: row `y` of the span shows
/// texture row `texture_y(y, ..)` of the struck face's texture column,
/// shaded by the torch, the wall light and the falloff. No other byte changes.
pub fn draw_wall(slice: &mut Vec<u8>, base: usize, h: usize, atlas: &Vec<u8>, light: &Lighting, p: &WallPaint)
    requires
        paint_ready(old(slice)@, base as int, h as int, atlas@, light, *p),
    ensures
        final(slice)@.len() == old(slice)@.len(),
        forall|i: int| 0 <= i < old(slice)@.len() && !(base + span_start(p.top as int) * 4 <= i
            < base + span_end(p.top as int, p.height as int, h as int) * 4)
            ==> #[trigger] final(slice)@[i] == old(slice)@[i],
        forall|y: int, ch: int| span_start(p.top as int) <= y < span_end(p.top as int, p.height as int, h as int)
            && 0 <= ch < 4 ==> #[trigger] final(slice)@[base + y * 4 + ch] == wall_byte(atlas@, light, *p, y, ch),
{
    let hh = h as i64;
    let start: i64 = if p.top < 0 { 0 } else { p.top };
    let end: i64 = if p.top + p.height > hh { hh } else { p.top + p.height };
    let mut y: i64 = start;
    while y < end
        invariant
            paint_ready(old(slice)@, base as int, h as int, atlas@, light, *p),
            hh == h,
            start == span_start(p.top as int),
            end == span_end(p.top as int, p.height as int, h as int),
            start <= y,
            (start <= end && y <= end) || (end < start && y == start),
            slice@.len() == old(slice)@.len(),
            forall|i: int| 0 <= i < old(slice)@.len() && !(base + start * 4 <= i < base + y * 4)
                ==> #[trigger] slice@[i] == old(slice)@[i],
            forall|yy: int, ch: int| start <= yy < y && 0 <= ch < 4
                ==> #[trigger] slice@[base + yy * 4 + ch] == wall_byte(atlas@, light, *p, yy, ch),
        decreases end - y,
    {
        let ghost before = slice@;
        let n = slice.len();
        assert(y < hh);
        assert(0 <= y - p.top < p.height);
        let ty = (((y - p.top) * 128) / p.height) as u64;
        assert(ty < 128) by (nonlinear_arith)
            requires ty == ((y - p.top) * 128) / (p.height as int), 0 <= y - p.top < p.height;
        let lv = light.get_lighting_wall(p.tx as u32, ty as u32, p.cell, &p.orientation);
        let row = (p.wall_type as u64) * 128 + ty;
        assert(((row * 128 + p.tx) * 4 + 3) < ATLAS_BYTES) by (nonlinear_arith)
            requires row == p.wall_type * 128 + ty, p.wall_type < 8, ty < 128, p.tx < 128;
        let t = ((row * 128 + p.tx) * 4) as usize;
        let at = base + (y as usize) * 4;
        let r = shade(atlas[t], p.torch, lv, p.att);
        let g = shade(atlas[t + 1], p.torch, lv, p.att);
        let b = shade(atlas[t + 2], p.torch, lv, p.att);
        slice.set(at, r);
        slice.set(at + 1, g);
        slice.set(at + 2, b);
        slice.set(at + 3, 255);
        assert forall|yy: int, ch: int| start <= yy < y + 1 && 0 <= ch < 4
            implies #[trigger] slice@[base + yy * 4 + ch] == wall_byte(atlas@, light, *p, yy, ch) by {
            if yy < y {
                assert(before[base + yy * 4 + ch] == wall_byte(atlas@, light, *p, yy, ch));
            }
        }
        y = y + 1;
    }
}

/// The camera's vertical setup, in pixels: projection distance, jump
/// height, look offset.
#[derive(Clone, Copy, Debug)]
pub struct Eye {
    pub planedist: i64,
    pub jump: i64,
    pub pitch: i64,
}

/// Distance, as `(num, den)`, to the floor (or the ceiling) seen in screen
/// row `y` of a screen `h` rows tall.
pub open spec fn flat_distance(v: Eye, ceiling: bool, h: int, y: int) -> (int, int) {
    if ceiling {
        (v.planedist - 2 * v.jump, h - 2 * (y - v.pitch))
    } else {
        (v.planedist + 2 * v.jump, 2 * (y - v.pitch) - h)
    }
}

/// Where row `y` meets the floor (or ceiling) along `ray`: the point
/// `origin + distance * direction`, in sub-units; `None` when the row looks
/// at the horizon or beyond, or the point is off the map.
pub open spec fn flat_point(ray: Ray, v: Eye, ceiling: bool, h: int, y: int, w: int, gh: int) -> Option<(int, int)> {
    let (n, d) = flat_distance(v, ceiling, h, y);
    if d <= 0 || n < 0 {
        None
    } else {
        let fx = ray.ox + (n * ray.dx) / d;
        let fy = ray.oy + (n * ray.dy) / d;
        if 0 <= fx < w * SUB && 0 <= fy < gh * SUB { Some((fx, fy)) } else { None }
    }
}

/// Rows of the minimap overlay at the screen's corner, where no floor is painted.
pub open spec fn under_minimap(column: int, y: int) -> bool {
    12 < column < 154 && y > 805
}

/// The colour of byte `ch` of a floor (or ceiling) pixel at point `(fx, fy)`:
/// the floor material's texture (material 0 overhead), lit by the torch, the
/// floor light of the cell, and the falloff at that distance.
pub open spec fn flat_byte(atlas: Seq<u8>, map: &TileMap, light: &Lighting, torch: int, n: int, d: int,
    ceiling: bool, fx: int, fy: int, ch: int) -> int
{
    let cell = (fy / 256int) * map.width + fx / 256int;
    let ftx = (fx % 256int) / 2;
    let fty = (fy % 256int) / 2;
    let material = if ceiling { 0 } else { map.floors@[cell] as int };
    if ch == 3 {
        255
    } else {
        shade_spec(atlas[texel_index(material, ftx, fty, ch)] as int, torch,
            light.floor_light(ftx, fty, cell), attenuation_spec(n, d))
    }
}

/// Byte `ch` of row `y` after `draw_flat`: `flat_byte` on painted rows,
/// the byte as it was elsewhere.
pub open spec fn flat_expected(before: Seq<u8>, base: int, h: int, column: int, atlas: Seq<u8>, map: &TileMap,
    light: &Lighting, ray: Ray, v: Eye, torch: int, ceiling: bool, from: int, to: int, y: int, ch: int) -> int
{
    let p = flat_point(ray, v, ceiling, h, y, map.width as int, map.height as int);
    let (n, d) = flat_distance(v, ceiling, h, y);
    if from <= y < to && !(!ceiling && under_minimap(column, y)) && p is Some {
        flat_byte(atlas, map, light, torch, n, d, ceiling, p->Some_0.0, p->Some_0.1, ch)
    } else {
        before[base + y * 4 + ch] as int
    }
}

/// The flat painter's requirements.
pub open spec fn flat_ready(slice: Seq<u8>, base: int, h: int, atlas: Seq<u8>, map: &TileMap, light: &Lighting,
    ray: Ray, v: Eye, torch: int) -> bool
{
    &&& light.wf()
    &&& map.wf()
    &&& light.map_size == (map.width, map.height)
    &&& 0 < map.width <= 4096
    &&& 0 < map.height <= 4096
    &&& atlas.len() == ATLAS_BYTES
    &&& 0 <= ray.ox < 0x10_0000
    &&& 0 <= ray.oy < 0x10_0000
    &&& -DIR_LIMIT <= ray.dx <= DIR_LIMIT
    &&& -DIR_LIMIT <= ray.dy <= DIR_LIMIT
    &&& 0 <= v.planedist <= MAX_PROJECTION
    &&& -MAX_PROJECTION <= v.jump <= MAX_PROJECTION
    &&& -MAX_PROJECTION <= v.pitch <= MAX_PROJECTION
    &&& torch <= 2 * LIGHT_ONE
    &&& 0 < h <= MAX_HEIGHT
    &&& base + h * 4 <= slice.len()
}

/// Paints row `y` of `draw_flat`, and nothing else.
fn flat_row(slice: &mut Vec<u8>, base: usize, h: usize, column: usize, atlas: &Vec<u8>, map: &TileMap,
    light: &Lighting, ray: &Ray, v: &Eye, torch: u64, ceiling: bool, from: i64, to: i64, y: i64)
    requires
        flat_ready(old(slice)@, base as int, h as int, atlas@, map, light, *ray, *v, torch as int),
        0 <= y < h,
    ensures
        final(slice)@.len() == old(slice)@.len(),
        forall|i: int| 0 <= i < old(slice)@.len() && !(base + y * 4 <= i < base + y * 4 + 4)
            ==> #[trigger] final(slice)@[i] == old(slice)@[i],
        forall|ch: int| 0 <= ch < 4 ==> #[trigger] final(slice)@[base + y * 4 + ch]
            == flat_expected(old(slice)@, base as int, h as int, column as int, atlas@, map, light, *ray, *v,
                torch as int, ceiling, from as int, to as int, y as int, ch),
{
    let hh = h as i64;
    let n_bytes = slice.len();
    let (n, d) = if ceiling {
        (v.planedist - 2 * v.jump, hh - 2 * (y - v.pitch))
    } else {
        (v.planedist + 2 * v.jump, 2 * (y - v.pitch) - hh)
    };
    let covered = !ceiling && 12 < column && column < 154 && y > 805;
    if from <= y && y < to && !covered && d > 0 && n >= 0 {
        proof {
            assert(-0x3_0000 * 0x1_0000 <= n * ray.dx <= 0x3_0000 * 0x1_0000) by (nonlinear_arith)
                requires 0 <= n <= 0x3_0000, -0x1_0000 <= ray.dx <= 0x1_0000;
            assert(-0x3_0000 * 0x1_0000 <= n * ray.dy <= 0x3_0000 * 0x1_0000) by (nonlinear_arith)
                requires 0 <= n <= 0x3_0000, -0x1_0000 <= ray.dy <= 0x1_0000;
        }
        let qx = floor_div(n * ray.dx, d);
        let qy = floor_div(n * ray.dy, d);
        proof {
            assert(-0x3_0000 * 0x1_0000 <= qx <= 0x3_0000 * 0x1_0000) by (nonlinear_arith)
                requires qx == (n * ray.dx) / (d as int), -0x3_0000 * 0x1_0000 <= n * ray.dx <= 0x3_0000 * 0x1_0000, d >= 1;
            assert(-0x3_0000 * 0x1_0000 <= qy <= 0x3_0000 * 0x1_0000) by (nonlinear_arith)
                requires qy == (n * ray.dy) / (d as int), -0x3_0000 * 0x1_0000 <= n * ray.dy <= 0x3_0000 * 0x1_0000, d >= 1;
        }
        let fx = ray.ox + qx;
        let fy = ray.oy + qy;
        let w = map.width as i64;
        let gh = map.height as i64;
        if 0 <= fx && fx < w * 256 && 0 <= fy && fy < gh * 256 {
            let (cx, cy) = ((fx / 256) as usize, (fy / 256) as usize);
            assert(cx < map.width && cy < map.height);
            assert(cy * map.width + cx < map.width * map.height) by (nonlinear_arith)
                requires cx < map.width, cy < map.height;
            assert(cy * map.width <= 4096 * 4096) by (nonlinear_arith)
                requires cy < map.height, map.width <= 4096, map.height <= 4096;
            let cell = cy * map.width + cx;
            let ftx = ((fx % 256) / 2) as u64;
            let fty = ((fy % 256) / 2) as u64;
            let material: u64 = if ceiling { 0 } else { map.floors[cell] as u64 };
            assert(material < 8);
            let lv = light.get_lighting_floor(ftx as u32, fty as u32, cell);
            assert(n <= MAX_DISTANCE * DIR_LIMIT + SUB);
            let att = attenuation(n as u64, d as u64);
            assert(((material * 128 + fty) * 128 + ftx) * 4 + 3 < ATLAS_BYTES) by (nonlinear_arith)
                requires material < 8, fty < 128, ftx < 128;
            let t = (((material * 128 + fty) * 128 + ftx) * 4) as usize;
            let at = base + (y as usize) * 4;
            let r = shade(atlas[t], torch, lv, att);
            let g = shade(atlas[t + 1], torch, lv, att);
            let b = shade(atlas[t + 2], torch, lv, att);
            slice.set(at, r);
            slice.set(at + 1, g);
            slice.set(at + 2, b);
            slice.set(at + 3, 255);
        }
    }
}

/// Paints rows `from..to` (clipped to the screen) of one screen column as
/// floor, or as ceiling: each row whose `flat_point` lies on the map, and
/// for the floor, that the minimap does not cover, shows `flat_byte` there. No other byte changes.
pub fn draw_flat(slice: &mut Vec<u8>, base: usize, h: usize, column: usize, atlas: &Vec<u8>, map: &TileMap,
    light: &Lighting, ray: &Ray, v: &Eye, torch: u64, ceiling: bool, from: i64, to: i64)
    requires
        flat_ready(old(slice)@, base as int, h as int, atlas@, map, light, *ray, *v, torch as int),
    ensures
        final(slice)@.len() == old(slice)@.len(),
        forall|i: int| 0 <= i < old(slice)@.len() && !(base <= i < base + h * 4)
            ==> #[trigger] final(slice)@[i] == old(slice)@[i],
        forall|y: int, ch: int| 0 <= y < h && 0 <= ch < 4 ==> #[trigger] final(slice)@[base + y * 4 + ch]
            == flat_expected(old(slice)@, base as int, h as int, column as int, atlas@, map, light, *ray, *v,
                torch as int, ceiling, from as int, to as int, y, ch),
{
    let hh = h as i64;
    let mut y: i64 = 0;
    while y < hh
        invariant
            flat_ready(old(slice)@, base as int, h as int, atlas@, map, light, *ray, *v, torch as int),
            hh == h,
            0 <= y <= hh,
            slice@.len() == old(slice)@.len(),
            forall|i: int| 0 <= i < old(slice)@.len() && !(base <= i < base + y * 4)
                ==> #[trigger] slice@[i] == old(slice)@[i],
            forall|yy: int, ch: int| 0 <= yy < y && 0 <= ch < 4 ==> #[trigger] slice@[base + yy * 4 + ch]
                == flat_expected(old(slice)@, base as int, h as int, column as int, atlas@, map, light, *ray, *v,
                    torch as int, ceiling, from as int, to as int, yy, ch),
        decreases hh - y,
    {
        let ghost before = slice@;
        flat_row(slice, base, h, column, atlas, map, light, ray, v, torch, ceiling, from, to, y);
        assert forall|yy: int, ch: int| 0 <= yy < y + 1 && 0 <= ch < 4 implies #[trigger] slice@[base + yy * 4 + ch]
            == flat_expected(old(slice)@, base as int, h as int, column as int, atlas@, map, light, *ray, *v,
                torch as int, ceiling, from as int, to as int, yy, ch) by {
            if yy < y {
                assert(slice@[base + yy * 4 + ch] == before[base + yy * 4 + ch]);
            }
        }
        y = y + 1;
    }
}

/// The wall parameters of a hit that `draw_slice` paints, or `None` when it
/// paints no wall: no hit, a slice of no height, or a struck or facing cell
/// off the grid.
pub open spec fn wall_paint_of(ray: Ray, hit: Option<Intersection>, map: &TileMap, light: &Lighting, v: Eye,
    torch: int, h: int) -> Option<WallPaint>
{
    match hit {
        None => None,
        Some(it) => {
            let height = slice_height(v.planedist as int, it.dist_num as int, it.dist_den as int);
            let top = slice_top(v.planedist as int, v.jump as int, v.pitch as int, it.dist_num as int, it.dist_den as int, h);
            let cell = it.cell_y * map.width + it.cell_x;
            let f = facing_cell(cell, it.orientation, map.width as int);
            let door_offset = if map.doors@[cell] is Some { map.doors@[cell]->Some_0.offset as int } else { DOOR_CLOSED as int };
            if height > 0 && 0 <= it.cell_x < map.width && 0 <= it.cell_y < map.height && 0 <= f < map.cells() {
                Some(WallPaint {
                    wall_type: it.wall_type,
                    tx: wall_texture_x(ray, it, door_offset) as u64,
                    top: top as i64,
                    height: height as i64,
                    torch: torch as u64,
                    att: ray_attenuation_spec(it.dist_num as int, it.dist_den as int,
                        ray.dx * ray.dx + ray.dy * ray.dy) as u64,
                    cell: cell as usize,
                    orientation: it.orientation,
                })
            } else {
                None
            }
        },
    }
}

/// What `draw_slice` leaves in byte `ch` of row `y`: the wall where it
/// paints one, ceiling above it and floor below it, the old byte where none
/// of them paints; a column whose ray found nothing keeps all its bytes.
pub open spec fn column_byte(before: Seq<u8>, base: int, h: int, column: int, atlas: Seq<u8>, map: &TileMap,
    light: &Lighting, ray: Ray, hit: Option<Intersection>, v: Eye, torch: int, y: int, ch: int) -> int
{
    match wall_paint_of(ray, hit, map, light, v, torch, h) {
        None => before[base + y * 4 + ch] as int,
        Some(p) => if span_start(p.top as int) <= y < span_end(p.top as int, p.height as int, h) {
            wall_byte(atlas, light, p, y, ch)
        } else if y < p.top {
            flat_expected(before, base, h, column, atlas, map, light, ray, v, torch, true, 0, p.top as int, y, ch)
        } else {
            flat_expected(before, base, h, column, atlas, map, light, ray, v, torch, false,
                p.top + p.height, h, y, ch)
        },
    }
}

/// Paints screen column `column` (the `h` RGBA rows at `base`) for the ray
/// `ray` and what it struck: see `column_byte`.
pub fn draw_slice(slice: &mut Vec<u8>, base: usize, h: usize, column: usize, atlas: &Vec<u8>, map: &TileMap,
    light: &Lighting, ray: &Ray, hit: &Option<Intersection>, v: &Eye, torch: u64)
    requires
        flat_ready(old(slice)@, base as int, h as int, atlas@, map, light, *ray, *v, torch as int),
        match *hit {
            Some(it) => 0 < it.dist_den <= DIR_LIMIT && it.dist_num <= MAX_DISTANCE * DIR_LIMIT + SUB
                && it.wall_type < MATERIALS,
            None => true,
        },
    ensures
        final(slice)@.len() == old(slice)@.len(),
        forall|i: int| 0 <= i < old(slice)@.len() && !(base <= i < base + h * 4)
            ==> #[trigger] final(slice)@[i] == old(slice)@[i],
        forall|y: int, ch: int| 0 <= y < h && 0 <= ch < 4 ==> #[trigger] final(slice)@[base + y * 4 + ch]
            == column_byte(old(slice)@, base as int, h as int, column as int, atlas@, map, light, *ray, *hit, *v,
                torch as int, y, ch),
{
    let it = match hit {
        Some(it) => *it,
        None => { return; },
    };
    let num = it.dist_num as i64;
    let den = it.dist_den as i64;
    proof {
        assert(0 <= v.planedist * den <= 0x1_0000 * 0x1_0000) by (nonlinear_arith)
            requires 0 <= v.planedist <= 0x1_0000, 0 < den <= 0x1_0000;
        assert(-0x1_0000 * 0x1_0000 <= v.jump * den <= 0x1_0000 * 0x1_0000) by (nonlinear_arith)
            requires -0x1_0000 <= v.jump <= 0x1_0000, 0 < den <= 0x1_0000;
    }
    let height: i64 = if num == 0 { 0 } else { (v.planedist * den) / num };
    let lift: i64 = if num == 0 { 0 } else { floor_div(v.jump * den, num) };
    proof {
        if num != 0 {
            assert(0 <= height <= 0x1_0000 * 0x1_0000) by (nonlinear_arith)
                requires height == (v.planedist * den) / (num as int), 0 <= v.planedist * den <= 0x1_0000 * 0x1_0000, num >= 1;
            assert(-0x1_0000 * 0x1_0000 <= lift <= 0x1_0000 * 0x1_0000) by (nonlinear_arith)
                requires lift == (v.jump * den) / (num as int), -0x1_0000 * 0x1_0000 <= v.jump * den <= 0x1_0000 * 0x1_0000, num >= 1;
        }
    }
    let hh = h as i64;
    let top: i64 = floor_div(hh - height, 2) + v.pitch + lift;
    assert(top == slice_top(v.planedist as int, v.jump as int, v.pitch as int, num as int, den as int, h as int));
    let ghost wp = wall_paint_of(*ray, *hit, map, light, *v, torch as int, h as int);
    if height > 0 && 0 <= it.cell_x && it.cell_x < map.width as i64 && 0 <= it.cell_y && it.cell_y < map.height as i64 {
        let (cx, cy) = (it.cell_x as usize, it.cell_y as usize);
        assert(cy * map.width + cx < map.width * map.height) by (nonlinear_arith)
            requires cx < map.width, cy < map.height;
        assert(cy * map.width <= 4096 * 4096) by (nonlinear_arith)
            requires cy < map.height, map.width <= 4096, map.height <= 4096;
        let cell = cy * map.width + cx;
        let cells = map.walls.len();
        let w = map.width;
        let facing_ok = match it.orientation {
            Orientation::N => cell >= w,
            Orientation::S => cell + w < cells,
            Orientation::E => cell >= 1,
            Orientation::W => cell + 1 < cells,
        };
        if facing_ok {
            let door_offset = match map.doors[cell] {
                Some(d) => d.offset,
                None => DOOR_CLOSED,
            };
            let tx = texture_x(ray, &it, door_offset);
            let att = ray_attenuation(it.dist_num, it.dist_den, ray.dx, ray.dy);
            let p = WallPaint {
                wall_type: it.wall_type,
                tx,
                top,
                height,
                torch,
                att,
                cell,
                orientation: it.orientation,
            };
            assert(wp == Some(p));
            let ghost s0 = slice@;
            draw_flat(slice, base, h, column, atlas, map, light, ray, v, torch, true, 0, top);
            let ghost s1 = slice@;
            draw_flat(slice, base, h, column, atlas, map, light, ray, v, torch, false, top + height, hh);
            let ghost s2 = slice@;
            draw_wall(slice, base, h, atlas, light, &p);
            assert forall|y: int, ch: int| 0 <= y < h && 0 <= ch < 4 implies #[trigger] slice@[base + y * 4 + ch]
                == column_byte(s0, base as int, h as int, column as int, atlas@, map, light, *ray, *hit, *v,
                    torch as int, y, ch) by {
                let in_wall = span_start(top as int) <= y < span_end(top as int, height as int, h as int);
                if !in_wall {
                    assert(slice@[base + y * 4 + ch] == s2[base + y * 4 + ch]);
                    if y < top {
                        assert(s2[base + y * 4 + ch] == s1[base + y * 4 + ch]);
                    } else {
                        assert(s1[base + y * 4 + ch] == s0[base + y * 4 + ch]);
                    }
                }
            }
            return;
        }
    }
    assert(wp is None);
}

/// Side of one sprite frame, in texels.
pub const FRAME: i64 = 64;
/// Bytes in the sprite atlas: five kinds in rows, eight frames side by side,
/// each frame `FRAME` texels square, RGBA.
pub const SPRITE_ATLAS_BYTES: usize = 655360;
/// Least light a distant sprite keeps: 0.2 in units of `LIGHT_ONE`.
pub const SPRITE_SHADE_FLOOR: u64 = 13107;

/// Light on a sprite whose squared distance is `dist2` square sub-units:
/// `19 / d^2` (in square tiles; `19 * 65536 * 65536 / dist2` units) held within `0.2..=1`; torches glow at full light.
pub open spec fn sprite_shade_spec(stype: int, dist2: int) -> int {
    if stype == 3 || dist2 == 0 {
        LIGHT_ONE as int
    } else {
        let f = 81604378624int / dist2;
        if f > LIGHT_ONE as int { LIGHT_ONE as int } else if f < SPRITE_SHADE_FLOOR as int { SPRITE_SHADE_FLOOR as int } else { f }
    }
}

/// The light of `sprite_shade_spec`.
pub fn sprite_shade(stype: usize, dist2: u64) -> (r: u32)
    ensures
        r == sprite_shade_spec(stype as int, dist2 as int),
        r <= LIGHT_ONE,
{
    if stype == 3 || dist2 == 0 {
        LIGHT_ONE
    } else {
        let f = 81604378624u64 / dist2;
        if f > 65536 { LIGHT_ONE } else if f < SPRITE_SHADE_FLOOR { SPRITE_SHADE_FLOOR as u32 } else { f as u32 }
    }
}

/// Texture column of screen column `stripe` within a sprite's box, kept
/// within the frame.
pub open spec fn sprite_tex_x(b: SpriteBox, stripe: int) -> int {
    let t = ((stripe - (b.screen_x - b.size / 2)) * FRAME) / (b.size as int);
    if t > FRAME - 1 { (FRAME - 1) as int } else { t }
}

/// Texture row of screen row `y` within a sprite's box, kept within the frame.
pub open spec fn sprite_tex_y(b: SpriteBox, y: int) -> int {
    let t = ((y - b.top) * FRAME) / (b.size as int);
    if t > FRAME - 1 { (FRAME - 1) as int } else { t }
}

/// Byte `ch` of texel `(tx, ty)` of frame `rot` of sprite kind `stype`.
pub open spec fn sprite_texel_index(stype: int, rot: int, tx: int, ty: int, ch: int) -> int {
    ((stype * 64 + ty) * 512 + rot * 64 + tx) * 4 + ch
}

/// The stripe painter's requirements.
pub open spec fn stripe_ready(slice: Seq<u8>, base: int, h: int, atlas: Seq<u8>, cam: Camera, s: Sprite, b: SpriteBox) -> bool {
    &&& cam.bounded()
    &&& 0 <= s.pos_x < COORD_LIMIT
    &&& 0 <= s.pos_y < COORD_LIMIT
    &&& s.stype < 5
    &&& s.sprite_rotation < 8
    &&& atlas.len() == SPRITE_ATLAS_BYTES
    &&& 0 < b.size <= 0x1_0000_0000
    &&& -0x1_0000_0000 <= b.screen_x <= 0x1_0000_0000
    &&& -0x1_0000_0000 <= b.top <= b.start_y
    &&& 0 <= b.start_y
    &&& b.end_y < h
    &&& b.screen_x - b.size / 2 <= b.start_x
    &&& b.end_x <= 0x1_0000_0000
    &&& 0 < h <= MAX_HEIGHT
    &&& base + h * 4 <= slice.len()
}

/// The stripe shows in this column: it lies within the box and, where the
/// column's ray struck a wall, the sprite is nearer than that wall.
pub open spec fn stripe_shows(cam: Camera, s: Sprite, b: SpriteBox, stripe: int, wall: Option<Intersection>) -> bool {
    &&& b.start_x <= stripe <= b.end_x
    &&& match wall {
        Some(it) => in_front_of_wall(it.dist_num as int, it.dist_den as int, cam, s.pos_x as int, s.pos_y as int),
        None => true,
    }
}

/// Byte `ch` of row `y` after `Sprite::draw`: the shaded sprite texel
/// where the stripe shows and the texel is not transparent, else the old byte.
pub open spec fn sprite_byte(before: Seq<u8>, base: int, atlas: Seq<u8>, cam: Camera, s: Sprite, b: SpriteBox,
    stripe: int, wall: Option<Intersection>, y: int, ch: int) -> int
{
    let tx = sprite_tex_x(b, stripe);
    let ty = sprite_tex_y(b, y);
    let alpha = atlas[sprite_texel_index(s.stype as int, s.sprite_rotation as int, tx, ty, 3)];
    if stripe_shows(cam, s, b, stripe, wall) && b.start_y <= y <= b.end_y && alpha != 0 {
        if ch == 3 {
            255
        } else {
            shade_spec(atlas[sprite_texel_index(s.stype as int, s.sprite_rotation as int, tx, ty, ch)] as int,
                LIGHT_ONE as int, sprite_shade_spec(s.stype as int,
                    (cam.pos_x - s.pos_x) * (cam.pos_x - s.pos_x) + (cam.pos_y - s.pos_y) * (cam.pos_y - s.pos_y)),
                LIGHT_ONE as int)
        }
    } else {
        before[base + y * 4 + ch] as int
    }
}

impl Sprite {
    /// Paints screen column `stripe` of a sprite's box into the column of `h`
    /// RGBA rows at `base`, drawn over whatever the column holds; see `sprite_byte`.
    pub fn draw(&self, slice: &mut Vec<u8>, base: usize, h: usize, atlas: &Vec<u8>, cam: &Camera,
        b: &SpriteBox, stripe: i64, wall: &Option<Intersection>)
        requires
            stripe_ready(old(slice)@, base as int, h as int, atlas@, *cam, *self, *b),
            match *wall {
                Some(it) => it.dist_num <= 0x100_0000 && it.dist_den <= 0x1_0000,
                None => true,
            },
        ensures
            final(slice)@.len() == old(slice)@.len(),
            forall|i: int| 0 <= i < old(slice)@.len() && !(base <= i < base + h * 4)
                ==> #[trigger] final(slice)@[i] == old(slice)@[i],
            forall|y: int, ch: int| 0 <= y < h && 0 <= ch < 4 ==> #[trigger] final(slice)@[base + y * 4 + ch]
                == sprite_byte(old(slice)@, base as int, atlas@, *cam, *self, *b, stripe as int, *wall, y, ch),
    {
        if stripe < b.start_x || stripe > b.end_x {
            return;
        }
        let shows = match wall {
            Some(it) => sprite_in_front(it.dist_num, it.dist_den, cam, self),
            None => true,
        };
        if !shows {
            return;
        }
        let d2 = self.calculate_distance_2(cam);
        let light = sprite_shade(self.stype, d2);
        let left = b.screen_x - b.size / 2;
        proof {
            assert(0 <= (stripe - left) * 64 <= 0x4_0000_0000 * 64) by (nonlinear_arith)
                requires 0 <= stripe - left <= 0x4_0000_0000;
        }
        let t = ((stripe - left) * FRAME) / b.size;
        let tx: i64 = if t > FRAME - 1 { FRAME - 1 } else { t };
        let mut y: i64 = b.start_y;
        let ghost start = b.start_y as int;
        while y <= b.end_y
            invariant
                stripe_ready(old(slice)@, base as int, h as int, atlas@, *cam, *self, *b),
                stripe_shows(*cam, *self, *b, stripe as int, *wall),
                tx == sprite_tex_x(*b, stripe as int),
                0 <= tx < FRAME,
                light == sprite_shade_spec(self.stype as int,
                    (cam.pos_x - self.pos_x) * (cam.pos_x - self.pos_x) + (cam.pos_y - self.pos_y) * (cam.pos_y - self.pos_y)),
                light <= LIGHT_ONE,
                start == b.start_y,
                start <= y <= b.end_y + 1 || (b.end_y < start && y == start),
                slice@.len() == old(slice)@.len(),
                forall|i: int| 0 <= i < old(slice)@.len() && !(base + start * 4 <= i < base + y * 4)
                    ==> #[trigger] slice@[i] == old(slice)@[i],
                forall|yy: int, ch: int| start <= yy < y && 0 <= ch < 4 ==> #[trigger] slice@[base + yy * 4 + ch]
                    == sprite_byte(old(slice)@, base as int, atlas@, *cam, *self, *b, stripe as int, *wall, yy, ch),
            decreases b.end_y + 1 - y,
        {
            let ghost before = slice@;
            let n = slice.len();
            proof {
                assert(0 <= (y - b.top) * 64 <= 0x4_0000_0000 * 64) by (nonlinear_arith)
                    requires 0 <= y - b.top <= 0x4_0000_0000;
            }
            let u = ((y - b.top) * FRAME) / b.size;
            let ty: i64 = if u > FRAME - 1 { FRAME - 1 } else { u };
            let row = (self.stype as i64) * 64 + ty;
            let col = (self.sprite_rotation as i64) * 64 + tx;
            assert(((row * 512 + col) * 4 + 3) < SPRITE_ATLAS_BYTES) by (nonlinear_arith)
                requires row == self.stype * 64 + ty, self.stype < 5, 0 <= ty < 64, col == self.sprite_rotation * 64 + tx,
                    self.sprite_rotation < 8, 0 <= tx < 64;
            assert(0 <= (row * 512 + col) * 4) by (nonlinear_arith)
                requires row >= 0, col >= 0;
            let t0 = ((row * 512 + col) * 4) as usize;
            let at = base + (y as usize) * 4;
            if atlas[t0 + 3] != 0 {
                let r = shade(atlas[t0], LIGHT_ONE as u64, light, LIGHT_ONE as u64);
                let g = shade(atlas[t0 + 1], LIGHT_ONE as u64, light, LIGHT_ONE as u64);
                let bl = shade(atlas[t0 + 2], LIGHT_ONE as u64, light, LIGHT_ONE as u64);
                slice.set(at, r);
                slice.set(at + 1, g);
                slice.set(at + 2, bl);
                slice.set(at + 3, 255);
            }
            assert forall|yy: int, ch: int| start <= yy < y + 1 && 0 <= ch < 4 implies #[trigger] slice@[base + yy * 4 + ch]
                == sprite_byte(old(slice)@, base as int, atlas@, *cam, *self, *b, stripe as int, *wall, yy, ch) by {
                if yy < y {
                    assert(slice@[base + yy * 4 + ch] == before[base + yy * 4 + ch]);
                }
            }
            y = y + 1;
        }
    }
}

} // verus!
