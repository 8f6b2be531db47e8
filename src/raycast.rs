use vstd::prelude::*;
use vstd::arithmetic::div_mod::{lemma_fundamental_div_mod, lemma_mod_bound};
use crate::Orientation;
use crate::tilemap::{TileMap, DOOR, DOOR_CLOSED, DOOR_SIDE, EMPTY};

verus! {

/// Sub-units per tile side: positions are in 1/256 of a tile.
pub const SUB: u64 = 256;
/// A ray that has gone this many direction lengths without a hit gives up.
pub const MAX_DISTANCE: u64 = 100;
/// Largest magnitude of a direction component.
pub const DIR_LIMIT: i64 = 65536;
/// Largest side of a grid the caster accepts.
pub const MAX_GRID: usize = 4096;

/// A ray from `(ox, oy)` (in sub-units) along `(dx, dy)`: the point at
/// parameter `t` is `(ox + t * dx, oy + t * dy)`. When `(dx, dy)` is the view
/// direction plus a multiple of the camera plane, with the view direction
/// `SUB` long, `t` is the distance from the camera plane in tiles.
#[derive(Clone, Copy, Debug)]
pub struct Ray {
    pub ox: i64,
    pub oy: i64,
    pub dx: i64,
    pub dy: i64,
}

/// Where a ray stopped: the cell struck, its wall code (`DOOR_SIDE` for the
/// side of a doorway), the face struck, and the ray parameter
/// `dist_num / dist_den` at the hit.
#[derive(Clone, Copy, Debug)]
pub struct Intersection {
    pub cell_x: i64,
    pub cell_y: i64,
    pub wall_type: u8,
    pub orientation: Orientation,
    pub dist_num: u64,
    pub dist_den: u64,
}

pub open spec fn abs_spec(v: int) -> int {
    if v < 0 { -v } else { v }
}

/// The ray passes a door through its open gap: the crossing, `pos / den`
/// sub-units along the door's face, lies more than half the door's offset
/// from both jambs, and the door is not fully closed.
pub open spec fn door_gap(pos: int, offset: int, den: int) -> bool {
    &&& offset < DOOR_CLOSED
    &&& 2 * pos > offset * den
    &&& 2 * (SUB * den - pos) > offset * den
}

/// A fully closed door stops every ray that crosses its face, as a wall does.
pub proof fn lemma_closed_door_blocks(pos: int, den: int)
    ensures
        !door_gap(pos, DOOR_CLOSED as int, den),
{
}

/// A fully open door lets through every ray that crosses its face strictly
/// between the jambs.
pub proof fn lemma_open_door_passes(pos: int, den: int)
    requires
        den > 0,
        0 < pos < SUB * den,
    ensures
        door_gap(pos, 0, den),
{
}

/// A fully open door registers a hit only where a ray meets one of its
/// jambs: any other crossing of its face passes.
pub proof fn lemma_open_door_hit_only_at_jamb(map: &TileMap, ray: Ray, hit: Intersection)
    requires
        hit_ok(ray, hit),
        hit_matches_map(map, ray, hit),
        hit.wall_type == DOOR,
        map.doors@[hit.cell_y * map.width + hit.cell_x]->Some_0.offset == 0,
    ensures
        door_crossing(ray, hit) <= 0 || door_crossing(ray, hit) >= SUB * hit.dist_den,
{
}

/// Whether a ray crossing a door's face at `pos / den` passes; see `door_gap`.
pub fn passes_door(pos: i64, offset: u64, den: u64) -> (r: bool)
    requires
        offset <= DOOR_CLOSED,
        0 < den <= DIR_LIMIT,
        -0x100_0000_0000 <= pos <= 0x100_0000_0000,
    ensures
        r == door_gap(pos as int, offset as int, den as int),
{
    let off = offset as i64;
    let d = den as i64;
    proof { lemma_mul_bound(off as int, d as int, 256, 65536); }
    offset < DOOR_CLOSED && 2 * pos > off * d && 2 * (256 * d - pos) > off * d
}

proof fn lemma_mul_bound(a: int, b: int, amax: int, bmax: int)
    requires
        0 <= a <= amax,
        0 <= b <= bmax,
    ensures
        0 <= a * b <= amax * bmax,
{
    assert(0 <= a * b <= amax * bmax) by (nonlinear_arith)
        requires 0 <= a <= amax, 0 <= b <= bmax;
}

/// What every hit reports: a fraction at most a tile past `MAX_DISTANCE`
/// whose denominator is the direction component of the axis crossed, a face
/// that the ray's direction can strike, and a wall code that is not empty.
pub open spec fn hit_ok(ray: Ray, hit: Intersection) -> bool {
    &&& hit.dist_den > 0
    &&& hit.dist_num <= MAX_DISTANCE * hit.dist_den + SUB
    &&& 1 <= hit.wall_type <= DOOR_SIDE
    &&& match hit.orientation {
        Orientation::E => ray.dx > 0 && hit.dist_den == ray.dx,
        Orientation::W => ray.dx < 0 && hit.dist_den == -ray.dx,
        Orientation::N => ray.dy > 0 && hit.dist_den == ray.dy,
        Orientation::S => ray.dy < 0 && hit.dist_den == -ray.dy,
    }
}

/// Where a hit on a door's face lies along that face, in units of
/// `1 / dist_den` sub-units from the door cell's low edge.
pub open spec fn door_crossing(ray: Ray, hit: Intersection) -> int {
    match hit.orientation {
        Orientation::N | Orientation::S => along_face_spec(ray.ox as int, ray.dx as int, hit.dist_num as int,
            hit.dist_den as int, hit.cell_x as int),
        Orientation::E | Orientation::W => along_face_spec(ray.oy as int, ray.dy as int, hit.dist_num as int,
            hit.dist_den as int, hit.cell_y as int),
    }
}

/// A hit reports the cell it names: a plain wall's own code, and a door
/// only where the ray meets it outside its open gap.
pub open spec fn hit_matches_map(map: &TileMap, ray: Ray, hit: Intersection) -> bool {
    let c = hit.cell_y * map.width + hit.cell_x;
    hit.wall_type != DOOR_SIDE ==> {
        &&& 0 <= hit.cell_x < map.width
        &&& 0 <= hit.cell_y < map.height
        &&& map.walls@[c] == hit.wall_type
        &&& (hit.wall_type == DOOR ==> !door_gap(door_crossing(ray, hit), map.doors@[c]->Some_0.offset as int,
                hit.dist_den as int))
    }
}

/// The caster's requirements on a map and a ray: a well-formed grid of
/// bounded size, an origin inside it and a non-zero bounded direction.
pub open spec fn cast_ready(map: &TileMap, ray: Ray) -> bool {
    &&& map.wf()
    &&& 0 < map.width <= MAX_GRID
    &&& 0 < map.height <= MAX_GRID
    &&& 0 <= ray.ox < map.width * SUB
    &&& 0 <= ray.oy < map.height * SUB
    &&& -DIR_LIMIT <= ray.dx <= DIR_LIMIT
    &&& -DIR_LIMIT <= ray.dy <= DIR_LIMIT
    &&& (ray.dx != 0 || ray.dy != 0)
}

/// Wall code at `(x, y)`, or `None` outside the grid.
fn wall_at(map: &TileMap, x: i64, y: i64) -> (r: Option<(usize, u8)>)
    requires
        map.wf(),
        map.width <= MAX_GRID,
        map.height <= MAX_GRID,
    ensures
        match r {
            Some((c, code)) => 0 <= x < map.width && 0 <= y < map.height && c == y * map.width + x
                && c < map.cells() && code == map.walls@[c as int],
            None => !(0 <= x < map.width && 0 <= y < map.height),
        },
{
    if 0 <= x && x < map.width as i64 && 0 <= y && y < map.height as i64 {
        let (ux, uy) = (x as usize, y as usize);
        assert(uy * map.width + ux < map.width * map.height) by (nonlinear_arith)
            requires ux < map.width, uy < map.height;
        assert(uy * map.width <= MAX_GRID * MAX_GRID) by (nonlinear_arith)
            requires ux < map.width, uy < map.height, map.width <= MAX_GRID, map.height <= MAX_GRID;
        let c = uy * map.width + ux;
        Some((c, map.walls[c]))
    } else {
        None
    }
}

/// Where a ray from `o` along `d` stands, at parameter `num / den`, relative
/// to the low edge of cell `c`, in units of `1 / den` sub-units.
pub open spec fn along_face_spec(o: int, d: int, num: int, den: int, c: int) -> int {
    o * den + num * d - c * SUB * den
}

fn along_face(o: i64, d: i64, num: u64, den: u64, c: i64) -> (r: i64)
    requires
        0 <= o < 0x10_0000,
        -DIR_LIMIT <= d <= DIR_LIMIT,
        num <= 6553856,
        den <= 65536,
        0 <= c < MAX_GRID,
    ensures
        r == along_face_spec(o as int, d as int, num as int, den as int, c as int),
        -0x100_0000_0000 <= r <= 0x100_0000_0000,
{
    let n = num as i64;
    let e = den as i64;
    proof {
        lemma_mul_bound(o as int, e as int, 0x10_0000, 65536);
        lemma_mul_bound(c as int, e as int, 4096, 65536);
        assert(-6553856 * 65536 <= n * d <= 6553856 * 65536) by (nonlinear_arith)
            requires 0 <= n <= 6553856, -65536 <= d <= 65536;
    }
    let a = o * e;
    let b = n * d;
    let f = c * e;
    proof { lemma_mul_bound(f as int, 256, 268435456int, 256); }
    let g = f * 256;
    assert(g == c * SUB * den) by (nonlinear_arith)
        requires g == f * 256, f == c * e, e == den;
    a + b - g
}

/// Where the walk stands: the cell it is in, how far along the ray
/// (in units of `1 / |dx|` and `1 / |dy|` sub-units) the next x and y grid
/// lines lie, and whether it has just passed through a door's gap.
pub struct WalkState {
    pub cx: int,
    pub cy: int,
    pub nx: int,
    pub ny: int,
    pub last_was_door: bool,
}

/// One step of the walk: it stops with a result, or goes on from a new state.
pub enum WalkStep {
    Done(Option<Intersection>),
    Next(WalkState),
}

/// Wall code of cell `(x, y)`, or -1 off the grid.
pub open spec fn cell_code(map: &TileMap, x: int, y: int) -> int {
    if 0 <= x < map.width && 0 <= y < map.height { map.walls@[y * map.width + x] as int } else { -1 }
}

/// Offset of the door in cell `c`.
pub open spec fn door_offset_of(map: &TileMap, c: int) -> int {
    match map.doors@[c] {
        Some(d) => d.offset as int,
        None => DOOR_CLOSED as int,
    }
}

/// The walk's start: the origin's cell, the first grid line ahead on each axis.
pub open spec fn walk_start(ray: Ray) -> WalkState {
    let cx = ray.ox as int / 256int;
    let cy = ray.oy as int / 256int;
    WalkState {
        cx,
        cy,
        nx: if ray.dx < 0 { ray.ox - cx * 256 } else { (cx + 1) * 256 - ray.ox },
        ny: if ray.dy < 0 { ray.oy - cy * 256 } else { (cy + 1) * 256 - ray.oy },
        last_was_door: false,
    }
}

/// One DDA step. The walk crosses the nearer grid line (x on a tie only
/// when the y line is not nearer), giving up past `MAX_DISTANCE`, and enters
/// the next cell, named by the face crossed (a step toward +x enters through
/// an `E` face, toward -x `W`, toward +y `N`, toward -y `S`). Off the grid it
/// goes on. An empty cell clears the door flag. A wall stops it, reporting
/// `DOOR_SIDE` right after a door's gap. A door cell: where the ray meets
/// the door, halfway into the cell, before leaving the cell sideways, it
/// passes through the door's gap (`door_gap`) and stops on the door outside
/// it; otherwise it stops on the doorway's side in the next cell across,
/// reported `DOOR_SIDE`. Last, a face whose cell one step back, in the
/// origin's row (`E`, `W`) or column (`N`, `S`), holds a door reports `DOOR_SIDE`.
pub open spec fn walk_step(map: &TileMap, ray: Ray, s: WalkState) -> WalkStep {
    let adx = abs_spec(ray.dx as int);
    let ady = abs_spec(ray.dy as int);
    let sx: int = if ray.dx < 0 { -1 } else { 1 };
    let sy: int = if ray.dy < 0 { -1 } else { 1 };
    let x_axis = adx != 0 && (ady == 0 || s.nx * ady < s.ny * adx);
    let num = if x_axis { s.nx } else { s.ny };
    let den = if x_axis { adx } else { ady };
    if num > MAX_DISTANCE * den {
        WalkStep::Done(None)
    } else {
        let cx = if x_axis { s.cx + sx } else { s.cx };
        let cy = if x_axis { s.cy } else { s.cy + sy };
        let nx = if x_axis { s.nx + SUB } else { s.nx };
        let ny = if x_axis { s.ny } else { s.ny + SUB };
        let o0 = if x_axis {
            if ray.dx < 0 { Orientation::W } else { Orientation::E }
        } else {
            if ray.dy < 0 { Orientation::S } else { Orientation::N }
        };
        let code = cell_code(map, cx, cy);
        if code < 0 {
            WalkStep::Next(WalkState { cx, cy, nx, ny, last_was_door: s.last_was_door })
        } else {
            let cell = cy * map.width + cx;
            let wt0 = if s.last_was_door && code > 0 { DOOR_SIDE as int } else { code };
            let off = door_offset_of(map, cell);
            let mid = if x_axis { nx - SUB / 2 } else { ny - SUB / 2 };
            let front = if x_axis { ady == 0 || mid * ady <= ny * adx } else { adx == 0 || mid * adx < nx * ady };
            let along = if x_axis {
                along_face_spec(ray.oy as int, ray.dy as int, mid, adx, cy)
            } else {
                along_face_spec(ray.ox as int, ray.dx as int, mid, ady, cx)
            };
            let is_door = code == DOOR;
            let passes = is_door && front && door_gap(along, off, den);
            let side = is_door && !front;
            let found = if is_door { !passes } else { code > 0 };
            let o1 = if side {
                if x_axis {
                    if ray.dy < 0 { Orientation::S } else { Orientation::N }
                } else {
                    if ray.dx < 0 { Orientation::W } else { Orientation::E }
                }
            } else {
                o0
            };
            let hx = if side && !x_axis { cx + sx } else { cx };
            let hy = if side && x_axis { cy + sy } else { cy };
            let wt1 = if side { DOOR_SIDE as int } else { wt0 };
            let dnum = if is_door { if front { mid } else if x_axis { ny } else { nx } } else { num };
            let dden = if side { if x_axis { ady } else { adx } } else { den };
            let back = match o1 {
                Orientation::E | Orientation::W => cell_code(map, hx - sx, ray.oy as int / 256int),
                _ => cell_code(map, ray.ox as int / 256int, hy - sy),
            };
            let wt2 = if back == DOOR { DOOR_SIDE as int } else { wt1 };
            if found {
                WalkStep::Done(Some(Intersection {
                    cell_x: hx as i64,
                    cell_y: hy as i64,
                    wall_type: wt2 as u8,
                    orientation: o1,
                    dist_num: dnum as u64,
                    dist_den: dden as u64,
                }))
            } else {
                WalkStep::Next(WalkState { cx, cy, nx, ny, last_was_door: passes })
            }
        }
    }
}

/// How much walking is left before `MAX_DISTANCE`.
pub open spec fn walk_measure(ray: Ray, s: WalkState) -> int {
    let adx = abs_spec(ray.dx as int);
    let ady = abs_spec(ray.dy as int);
    (if adx > 0 { MAX_DISTANCE * adx + SUB - s.nx } else { 0 }) + (if ady > 0 { MAX_DISTANCE * ady + SUB - s.ny } else { 0 })
}

/// Where the walk from `s` stops.
pub open spec fn dda_from(map: &TileMap, ray: Ray, s: WalkState) -> Option<Intersection>
    decreases walk_measure(ray, s),
{
    match walk_step(map, ray, s) {
        WalkStep::Done(r) => r,
        WalkStep::Next(t) => if 0 <= walk_measure(ray, t) < walk_measure(ray, s) { dda_from(map, ray, t) } else { None },
    }
}

/// What the ray strikes: the walk from `walk_start`.
pub open spec fn dda_hit(map: &TileMap, ray: Ray) -> Option<Intersection> {
    dda_from(map, ray, walk_start(ray))
}

/// The walk goes on through a door cell only through the door's gap, which a
/// fully closed door does not have: a ray that reaches a closed door from
/// the front stops there, as at a wall.
pub proof fn lemma_walk_passes_doors_only_through_gap(map: &TileMap, ray: Ray, s: WalkState)
    ensures
        match walk_step(map, ray, s) {
            WalkStep::Next(t) => cell_code(map, t.cx, t.cy) == DOOR
                ==> t.last_was_door && door_offset_of(map, t.cy * map.width + t.cx) < DOOR_CLOSED,
            WalkStep::Done(_) => true,
        },
{
}

/// Right after passing a door's gap, the next wall the walk stops at
/// (before any empty cell) is reported as `DOOR_SIDE`.
pub proof fn lemma_wall_after_door_is_side(map: &TileMap, ray: Ray, s: WalkState)
    requires
        s.last_was_door,
    ensures
        match walk_step(map, ray, s) {
            WalkStep::Done(Some(hit)) => hit.wall_type == DOOR_SIDE,
            _ => true,
        },
{
}

/// Marches `ray` cell by cell through the grid (DDA) and reports the first
/// wall it strikes, or `None` when it goes `MAX_DISTANCE` without one.
/// Crossing into a door cell, the ray meets the door halfway through the
/// cell: it passes through the door's open gap (`door_gap`), and the next
/// wall it strikes then reports `DOOR_SIDE`; it stops on the door outside the
/// gap; and it strikes the doorway's side when it leaves the cell sideways
/// before reaching the door. A face whose cell, one step back along the
/// ray's axis, in the origin's row or column, holds a door also reports
/// `DOOR_SIDE`. A map with no walls stops no ray.
pub fn cast(map: &TileMap, ray: &Ray) -> (r: Option<Intersection>)
    requires
        cast_ready(map, *ray),
    ensures
        (forall|c: int| 0 <= c < map.cells() ==> #[trigger] map.walls@[c] == EMPTY) ==> r is None,
        r matches Some(hit) ==> hit_ok(*ray, hit),
        r matches Some(hit) ==> hit_matches_map(map, *ray, hit),
        r == dda_hit(map, *ray),
{
    let sub: i64 = 256;
    let adx: u64 = if ray.dx < 0 { (-ray.dx) as u64 } else { ray.dx as u64 };
    let ady: u64 = if ray.dy < 0 { (-ray.dy) as u64 } else { ray.dy as u64 };
    let sx: i64 = if ray.dx < 0 { -1 } else { 1 };
    let sy: i64 = if ray.dy < 0 { -1 } else { 1 };
    let px: i64 = ray.ox / sub;
    let py: i64 = ray.oy / sub;
    proof {
        lemma_fundamental_div_mod(ray.ox as int, 256);
        lemma_mod_bound(ray.ox as int, 256);
        lemma_fundamental_div_mod(ray.oy as int, 256);
        lemma_mod_bound(ray.oy as int, 256);
        assert(px < map.width) by (nonlinear_arith)
            requires px == ray.ox as int / 256int, ray.ox < map.width * 256, ray.ox == 256 * px + ray.ox % 256, ray.ox % 256 >= 0;
        assert(py < map.height) by (nonlinear_arith)
            requires py == ray.oy as int / 256int, ray.oy < map.height * 256, ray.oy == 256 * py + ray.oy % 256, ray.oy % 256 >= 0;
    }
    let mut cx: i64 = px;
    let mut cy: i64 = py;
    let mut nx: u64 = if ray.dx < 0 { (ray.ox - cx * sub) as u64 } else { ((cx + 1) * sub - ray.ox) as u64 };
    let mut ny: u64 = if ray.dy < 0 { (ray.oy - cy * sub) as u64 } else { ((cy + 1) * sub - ray.oy) as u64 };
    let mut last_was_door = false;
    loop
        invariant
            cast_ready(map, *ray),
            sub == SUB,
            adx == abs_spec(ray.dx as int),
            ady == abs_spec(ray.dy as int),
            sx == (if ray.dx < 0 { -1int } else { 1int }),
            sy == (if ray.dy < 0 { -1int } else { 1int }),
            px == ray.ox as int / 256int,
            py == ray.oy as int / 256int,
            0 <= px < map.width,
            0 <= py < map.height,
            ray.dx > 0 ==> nx == (cx + 1) * SUB - ray.ox,
            ray.dx < 0 ==> nx == ray.ox - cx * SUB,
            ray.dx == 0 ==> cx == px && nx <= SUB,
            ray.dy > 0 ==> ny == (cy + 1) * SUB - ray.oy,
            ray.dy < 0 ==> ny == ray.oy - cy * SUB,
            ray.dy == 0 ==> cy == py && ny <= SUB,
            adx > 0 ==> nx <= MAX_DISTANCE * adx + SUB,
            ady > 0 ==> ny <= MAX_DISTANCE * ady + SUB,
            dda_from(map, *ray, WalkState { cx: cx as int, cy: cy as int, nx: nx as int, ny: ny as int, last_was_door })
                == dda_hit(map, *ray),
        decreases
            (if adx > 0 { MAX_DISTANCE * adx + SUB - nx } else { 0 }) + (if ady > 0 { MAX_DISTANCE * ady + SUB - ny } else { 0 }),
    {
        assert(nx * ady <= (MAX_DISTANCE * 65536 + SUB) * 65536 && ny * adx <= (MAX_DISTANCE * 65536 + SUB) * 65536)
            by (nonlinear_arith)
            requires
                nx <= MAX_DISTANCE * 65536 + SUB, ny <= MAX_DISTANCE * 65536 + SUB, adx <= 65536, ady <= 65536,
                nx >= 0, ny >= 0;
        let ghost st = WalkState { cx: cx as int, cy: cy as int, nx: nx as int, ny: ny as int, last_was_door };
        let x_axis = adx != 0 && (ady == 0 || nx * ady < ny * adx);
        let (num, den) = if x_axis { (nx, adx) } else { (ny, ady) };
        if num > MAX_DISTANCE * den {
            assert(walk_step(map, *ray, st) == WalkStep::Done(None));
            return None;
        }
        let mut orientation;
        if x_axis {
            cx = cx + sx;
            nx = nx + SUB;
            orientation = if ray.dx < 0 { Orientation::W } else { Orientation::E };
        } else {
            cy = cy + sy;
            ny = ny + SUB;
            orientation = if ray.dy < 0 { Orientation::S } else { Orientation::N };
        }
        let mut dist_num = num;
        let mut dist_den = den;
        let mut hit_x = cx;
        let mut hit_y = cy;
        if let Some((cell, code)) = wall_at(map, cx, cy) {
            let mut wall_type = code;
            if last_was_door && wall_type > 0 {
                wall_type = DOOR_SIDE;
            }
            last_was_door = false;
            let mut found = false;
            if code == DOOR {
                assert(map.doors@[cell as int] is Some);
                let offset = match map.doors[cell] {
                    Some(d) => d.offset,
                    None => DOOR_CLOSED,
                };
                found = true;
                if !x_axis {
                    // the door stands halfway into the cell along y
                    let mid = ny - SUB / 2;
                    proof {
                        lemma_mul_bound(mid as int, adx as int, 6553856, 65536);
                        lemma_mul_bound(nx as int, ady as int, 6553856, 65536);
                    }
                    if adx == 0 || mid * adx < nx * ady {
                        dist_num = mid;
                        let along = along_face(ray.ox, ray.dx, mid, ady, cx);
                        if passes_door(along, offset, ady) {
                            last_was_door = true;
                            found = false;
                        }
                    } else {
                        orientation = if ray.dx < 0 { Orientation::W } else { Orientation::E };
                        hit_x = cx + sx;
                        wall_type = DOOR_SIDE;
                        dist_num = nx;
                        dist_den = adx;
                    }
                } else {
                    let mid = nx - SUB / 2;
                    proof {
                        lemma_mul_bound(mid as int, ady as int, 6553856, 65536);
                        lemma_mul_bound(ny as int, adx as int, 6553856, 65536);
                    }
                    if ady == 0 || mid * ady <= ny * adx {
                        dist_num = mid;
                        let along = along_face(ray.oy, ray.dy, mid, adx, cy);
                        if passes_door(along, offset, adx) {
                            last_was_door = true;
                            found = false;
                        }
                    } else {
                        orientation = if ray.dy < 0 { Orientation::S } else { Orientation::N };
                        hit_y = cy + sy;
                        wall_type = DOOR_SIDE;
                        dist_num = ny;
                        dist_den = ady;
                    }
                }
            } else if code > 0 {
                found = true;
            }
            let back = match orientation {
                Orientation::E | Orientation::W => wall_at(map, hit_x - sx, py),
                _ => wall_at(map, px, hit_y - sy),
            };
            if let Some((_, back_code)) = back {
                if back_code == DOOR {
                    wall_type = DOOR_SIDE;
                }
            }
            if found {
                assert(map.walls@[cell as int] != EMPTY);
                let hit = Intersection {
                    cell_x: hit_x,
                    cell_y: hit_y,
                    wall_type,
                    orientation,
                    dist_num,
                    dist_den,
                };
                assert(walk_step(map, *ray, st) == WalkStep::Done(Some(hit)));
                return Some(hit);
            }
        }
        let ghost next = WalkState { cx: cx as int, cy: cy as int, nx: nx as int, ny: ny as int, last_was_door };
        assert(walk_step(map, *ray, st) == WalkStep::Next(next));
        assert(0 <= walk_measure(*ray, next) < walk_measure(*ray, st));
    }
}

/// Screen columns drawn per ray.
pub const RAYSPERPIXEL: usize = 2;

/// The hits of one frame, one slot per ray: `None` where the ray found no wall.
pub struct Intersections {
    pub hits: Vec<Option<Intersection>>,
}

impl Intersections {
    /// Empty slots for a screen `w` pixels wide, one per `RAYSPERPIXEL` columns.
    pub fn new(w: usize) -> (r: Intersections)
        ensures
            r.hits@.len() == (w / RAYSPERPIXEL) as int,
            forall|j: int| 0 <= j < r.hits@.len() ==> #[trigger] r.hits@[j] is None,
    {
        let n = w / RAYSPERPIXEL;
        let mut hits: Vec<Option<Intersection>> = Vec::new();
        let mut i: usize = 0;
        while i < n
            invariant
                i <= n,
                hits@.len() == i,
                forall|j: int| 0 <= j < i ==> #[trigger] hits@[j] is None,
            decreases n - i,
        {
            hits.push(None);
            i += 1;
        }
        Intersections { hits }
    }

    /// Casts `ray` and records what it found in slot `j`.
    pub fn calculate_ray(&mut self, map: &TileMap, ray: &Ray, j: usize)
        requires
            cast_ready(map, *ray),
            j < old(self).hits@.len(),
        ensures
            final(self).hits@.len() == old(self).hits@.len(),
            forall|i: int| 0 <= i < old(self).hits@.len() && i != j ==> #[trigger] final(self).hits@[i] == old(self).hits@[i],
            (forall|c: int| 0 <= c < map.cells() ==> #[trigger] map.walls@[c] == EMPTY) ==> final(self).hits@[j as int] is None,
            final(self).hits@[j as int] matches Some(hit) ==> hit_ok(*ray, hit),
            final(self).hits@[j as int] matches Some(hit) ==> hit_matches_map(map, *ray, hit),
            final(self).hits@[j as int] == dda_hit(map, *ray),
    {
        let hit = cast(map, ray);
        self.hits.set(j, hit);
    }
}

} // verus!
