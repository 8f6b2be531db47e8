use vstd::prelude::*;

verus! {

/// Largest coordinate of a position, in sub-units.
pub const COORD_LIMIT: i64 = 0x100_0000;
/// Largest magnitude of a camera vector component, and of the camera's
/// projection distance, pitch and jump.
pub const CAMERA_LIMIT: i64 = 0x1_0000;
/// Largest side of the screen, in pixels.
pub const SCREEN_LIMIT: i64 = 0x4000;

/// The five kinds of sprite.
#[derive(PartialEq, Eq, Structural, Clone, Copy, Debug)]
pub enum SpriteType {
    Armor,
    CandleHolder,
    Bat,
    Torch,
    Gore,
}

/// Row of a sprite kind in the sprite atlas.
pub open spec fn sprite_row(t: SpriteType) -> usize {
    match t {
        SpriteType::Armor => 0,
        SpriteType::CandleHolder => 1,
        SpriteType::Bat => 2,
        SpriteType::Torch => 3,
        SpriteType::Gore => 4,
    }
}

/// A billboard in the world: its kind (as an atlas row), its position in
/// sub-units, its current frame and the time it last saw, in milliseconds.
#[derive(Clone, Copy, Debug)]
pub struct Sprite {
    pub stype: usize,
    pub pos_x: i64,
    pub pos_y: i64,
    pub sprite_rotation: usize,
    pub time: u64,
}

/// The viewer: position in sub-units; view direction and camera plane
/// (each `SUB` per tile); distance to the projection plane, vertical look
/// offset and jump height, in pixels.
#[derive(Clone, Copy, Debug)]
pub struct Camera {
    pub pos_x: i64,
    pub pos_y: i64,
    pub dir_x: i64,
    pub dir_y: i64,
    pub plane_x: i64,
    pub plane_y: i64,
    pub planedist: i64,
    pub pitch: i64,
    pub jump: i64,
}

impl Camera {
    /// Every field within the ranges the projection works in.
    pub open spec fn bounded(&self) -> bool {
        &&& 0 <= self.pos_x < COORD_LIMIT
        &&& 0 <= self.pos_y < COORD_LIMIT
        &&& -CAMERA_LIMIT <= self.dir_x <= CAMERA_LIMIT
        &&& -CAMERA_LIMIT <= self.dir_y <= CAMERA_LIMIT
        &&& -CAMERA_LIMIT <= self.plane_x <= CAMERA_LIMIT
        &&& -CAMERA_LIMIT <= self.plane_y <= CAMERA_LIMIT
        &&& 0 <= self.planedist <= CAMERA_LIMIT
        &&& -CAMERA_LIMIT <= self.pitch <= CAMERA_LIMIT
        &&& -CAMERA_LIMIT <= self.jump <= CAMERA_LIMIT
    }

    /// Determinant of the camera basis (plane, direction).
    pub open spec fn det(&self) -> int {
        self.plane_x * self.dir_y - self.dir_x * self.plane_y
    }
}

impl Sprite {
    /// A sprite of kind `stype` at `pos`, showing its first frame.
    pub fn new(stype: SpriteType, pos: (i64, i64)) -> (s: Sprite)
        ensures
            s.stype == sprite_row(stype),
            s.pos_x == pos.0,
            s.pos_y == pos.1,
            s.sprite_rotation == 0,
            s.time == 0,
    {
        let row: usize = match stype {
            SpriteType::Armor => 0,
            SpriteType::CandleHolder => 1,
            SpriteType::Bat => 2,
            SpriteType::Torch => 3,
            SpriteType::Gore => 4,
        };
        Sprite { stype: row, pos_x: pos.0, pos_y: pos.1, sprite_rotation: 0, time: 0 }
    }

    /// Squared distance from the camera, in square sub-units; sorting by it
    /// needs no square root.
    pub fn calculate_distance_2(&self, player: &Camera) -> (d: u64)
        requires
            player.bounded(),
            0 <= self.pos_x < COORD_LIMIT,
            0 <= self.pos_y < COORD_LIMIT,
        ensures
            d == (player.pos_x - self.pos_x) * (player.pos_x - self.pos_x)
                + (player.pos_y - self.pos_y) * (player.pos_y - self.pos_y),
    {
        let ddx = player.pos_x - self.pos_x;
        let ddy = player.pos_y - self.pos_y;
        assert(0 <= ddx * ddx <= COORD_LIMIT * COORD_LIMIT) by (nonlinear_arith)
            requires -COORD_LIMIT <= ddx <= COORD_LIMIT;
        assert(0 <= ddy * ddy <= COORD_LIMIT * COORD_LIMIT) by (nonlinear_arith)
            requires -COORD_LIMIT <= ddy <= COORD_LIMIT;
        (ddx * ddx + ddy * ddy) as u64
    }

    /// Picks the frame to show: a bat seen from octant `octant` (the
    /// viewer's direction in eighths of a turn, anticlockwise; octant 8 is
    /// octant 0) shows frame `7 - octant % 8`; a torch cycles through eight
    /// frames each second; other kinds keep their frame, the first one if it
    /// lies past the last.
    pub fn select_frame(&mut self, octant: usize)
        ensures
            final(self).sprite_rotation == frame_spec(*old(self), octant as int),
            final(self).sprite_rotation < 8,
            *final(self) == (Sprite { sprite_rotation: final(self).sprite_rotation, ..*old(self) }),
    {
        let mut r = self.sprite_rotation;
        if self.stype == 2 {
            r = 7 - octant % 8;
        } else if self.stype == 3 {
            r = (((self.time % 1000) * 8) / 1000) as usize;
        }
        if r > 7 {
            r = 0;
        }
        self.sprite_rotation = r;
    }

    /// Records the current time.
    pub fn update(&mut self, time: u64)
        ensures
            *final(self) == (Sprite { time, ..*old(self) }),
    {
        self.time = time;
    }
}

/// The frame `select_frame` picks.
pub open spec fn frame_spec(s: Sprite, octant: int) -> usize {
    let r = if s.stype == 2 {
        7 - octant % 8
    } else if s.stype == 3 {
        ((s.time % 1000) * 8) / 1000
    } else {
        s.sprite_rotation as int
    };
    if r > 7 { 0 } else { r as usize }
}

/// A sprite pixel in a screen column shows only when the sprite lies nearer
/// than that column's wall: its depth along the view direction, `dot / |dir|`
/// sub-units, is below the wall's distance `num / den` tiles. Compared in
/// squares, so the sign of the depth does not count.
pub open spec fn in_front_of_wall(num: int, den: int, cam: Camera, sx: int, sy: int) -> bool {
    let vx = sx - cam.pos_x;
    let vy = sy - cam.pos_y;
    let dot = cam.dir_x * vx + cam.dir_y * vy;
    let dir2 = cam.dir_x * cam.dir_x + cam.dir_y * cam.dir_y;
    num * num * 65536 * dir2 > den * den * (dot * dot)
}

/// The test of `in_front_of_wall`.
pub fn sprite_in_front(num: u64, den: u64, cam: &Camera, sprite: &Sprite) -> (r: bool)
    requires
        cam.bounded(),
        0 <= sprite.pos_x < COORD_LIMIT,
        0 <= sprite.pos_y < COORD_LIMIT,
        num <= 0x100_0000,
        den <= 0x1_0000,
    ensures
        r == in_front_of_wall(num as int, den as int, *cam, sprite.pos_x as int, sprite.pos_y as int),
{
    let vx = sprite.pos_x - cam.pos_x;
    let vy = sprite.pos_y - cam.pos_y;
    proof {
        lemma_signed_mul_bound(cam.dir_x as int, vx as int, 0x1_0000, 0x100_0000);
        lemma_signed_mul_bound(cam.dir_y as int, vy as int, 0x1_0000, 0x100_0000);
        lemma_signed_mul_bound(cam.dir_x as int, cam.dir_x as int, 0x1_0000, 0x1_0000);
        lemma_signed_mul_bound(cam.dir_y as int, cam.dir_y as int, 0x1_0000, 0x1_0000);
    }
    let dot = (cam.dir_x * vx + cam.dir_y * vy) as i128;
    let dir2 = (cam.dir_x * cam.dir_x + cam.dir_y * cam.dir_y) as i128;
    let n = num as i128;
    let d = den as i128;
    proof {
        lemma_signed_mul_bound(dot as int, dot as int, 0x200_0000_0000, 0x200_0000_0000);
        lemma_signed_mul_bound(n as int, n as int, 0x100_0000, 0x100_0000);
        lemma_signed_mul_bound(d as int, d as int, 0x1_0000, 0x1_0000);
        lemma_signed_mul_bound((n * n) as int, 65536, 0x1_0000_0000_0000, 65536);
        lemma_signed_mul_bound((n * n * 65536) as int, dir2 as int, 0x1_0000_0000_0000_0000, 0x2_0000_0000);
        lemma_signed_mul_bound((d * d) as int, (dot * dot) as int, 0x1_0000_0000, 0x4_0000_0000_0000_0000_0000);
    }
    n * n * 65536 * dir2 > d * d * (dot * dot)
}

/// `a / b` rounded down.
pub(crate) fn floor_div(a: i64, b: i64) -> (r: i64)
    requires
        0 < b <= 0x4000_0000_0000_0000,
        -0x4000_0000_0000_0000 <= a,
    ensures
        r == a as int / b as int,
{
    if a >= 0 {
        a / b
    } else {
        let q = (-a - 1 + b) / b;
        proof {
            let n = -(a as int);
            let bi = b as int;
            let ai = a as int;
            let qi = q as int;
            vstd::arithmetic::div_mod::lemma_fundamental_div_mod(n + bi - 1, bi);
            vstd::arithmetic::div_mod::lemma_fundamental_div_mod(ai, bi);
            vstd::arithmetic::div_mod::lemma_mod_bound(n + bi - 1, bi);
            vstd::arithmetic::div_mod::lemma_mod_bound(ai, bi);
            assert(qi == (n + bi - 1) / bi);
            let r1 = (n + bi - 1) % bi;
            let q2 = ai / bi;
            let r2 = ai % bi;
            assert(-qi == q2) by (nonlinear_arith)
                requires
                    n == -ai, n > 0, bi > 0,
                    n + bi - 1 == bi * qi + r1, 0 <= r1 < bi,
                    ai == bi * q2 + r2, 0 <= r2 < bi;
        }
        -q
    }
}

/// The screen box of a sprite: its centre column, its unclipped side and
/// top row, and its extent clipped to the screen.
#[derive(Clone, Copy, Debug, PartialEq, Eq, Structural)]
pub struct SpriteBox {
    pub screen_x: i64,
    pub size: i64,
    pub top: i64,
    pub start_x: i64,
    pub end_x: i64,
    pub start_y: i64,
    pub end_y: i64,
}

/// The sprite's offset in camera space, with signs chosen so that the depth
/// denominator `det` is positive: `(across, depth, det)`, the sprite lying
/// `across / depth` half-screens right of centre and `depth / det` tiles deep.
pub open spec fn camera_space(cam: Camera, sx: int, sy: int) -> (int, int, int) {
    let dx = sx - cam.pos_x;
    let dy = sy - cam.pos_y;
    let across = cam.dir_y * dx - cam.dir_x * dy;
    let depth = cam.plane_x * dy - cam.plane_y * dx;
    if cam.det() < 0 { (-across, -depth, -cam.det()) } else { (across, depth, cam.det()) }
}

/// Where a sprite at `(sx, sy)` lands on a `w`-by-`h` screen, or `None` when
/// it lies behind the camera or wholly off screen.
pub open spec fn projection(cam: Camera, sx: int, sy: int, w: int, h: int) -> Option<SpriteBox> {
    let (across, depth, det) = camera_space(cam, sx, sy);
    if depth <= 0 {
        None
    } else {
        let screen_x = (w * (depth + across)) / (2 * depth);
        let size = (cam.planedist * det) / depth;
        let lift = (cam.jump * det) / depth;
        let top = h / 2 - size / 2 + cam.pitch + lift;
        let bottom = h / 2 + size / 2 + cam.pitch + lift;
        let start_x = if screen_x - size / 2 < 0 { 0 } else { screen_x - size / 2 };
        let end_x = if screen_x + size / 2 > w - 1 { w - 1 } else { screen_x + size / 2 };
        let start_y = if top < 0 { 0 } else { top };
        let end_y = if bottom > h - 1 { h - 1 } else { bottom };
        if start_x < w && end_x > 0 && end_y > 0 && start_y < h {
            Some(SpriteBox {
                screen_x: screen_x as i64,
                size: size as i64,
                top: top as i64,
                start_x: start_x as i64,
                end_x: end_x as i64,
                start_y: start_y as i64,
                end_y: end_y as i64,
            })
        } else {
            None
        }
    }
}

proof fn lemma_signed_mul_bound(a: int, b: int, amax: int, bmax: int)
    requires
        -amax <= a <= amax,
        -bmax <= b <= bmax,
    ensures
        -(amax * bmax) <= a * b <= amax * bmax,
{
    assert(-(amax * bmax) <= a * b <= amax * bmax) by (nonlinear_arith)
        requires -amax <= a <= amax, -bmax <= b <= bmax;
}

/// Projects `sprite` onto a `w`-by-`h` screen through `cam`; see `projection`.
pub fn project(cam: &Camera, sprite: &Sprite, w: i64, h: i64) -> (r: Option<SpriteBox>)
    requires
        cam.bounded(),
        0 <= sprite.pos_x < COORD_LIMIT,
        0 <= sprite.pos_y < COORD_LIMIT,
        0 < w <= SCREEN_LIMIT,
        0 < h <= SCREEN_LIMIT,
    ensures
        r == projection(*cam, sprite.pos_x as int, sprite.pos_y as int, w as int, h as int),
{
    let dx = sprite.pos_x - cam.pos_x;
    let dy = sprite.pos_y - cam.pos_y;
    proof {
        lemma_signed_mul_bound(cam.dir_y as int, dx as int, 0x1_0000, 0x100_0000);
        lemma_signed_mul_bound(cam.dir_x as int, dy as int, 0x1_0000, 0x100_0000);
        lemma_signed_mul_bound(cam.plane_y as int, dx as int, 0x1_0000, 0x100_0000);
        lemma_signed_mul_bound(cam.plane_x as int, dy as int, 0x1_0000, 0x100_0000);
        lemma_signed_mul_bound(cam.plane_x as int, cam.dir_y as int, 0x1_0000, 0x1_0000);
        lemma_signed_mul_bound(cam.dir_x as int, cam.plane_y as int, 0x1_0000, 0x1_0000);
    }
    let across0 = cam.dir_y * dx - cam.dir_x * dy;
    let depth0 = cam.plane_x * dy - cam.plane_y * dx;
    let det0 = cam.plane_x * cam.dir_y - cam.dir_x * cam.plane_y;
    let (across, depth, det) = if det0 < 0 { (-across0, -depth0, -det0) } else { (across0, depth0, det0) };
    if depth <= 0 {
        return None;
    }
    proof {
        lemma_signed_mul_bound(w as int, (depth + across) as int, 0x4000, 0x400_0000_0000);
        lemma_signed_mul_bound(cam.planedist as int, det as int, 0x1_0000, 0x2_0000_0000);
        lemma_signed_mul_bound(cam.jump as int, det as int, 0x1_0000, 0x2_0000_0000);
        assert(-0x1000_0000_0000_0000 <= (w * (depth + across)) / (2 * depth) <= 0x1000_0000_0000_0000) by (nonlinear_arith)
            requires -0x1000_0000_0000_0000 <= w * (depth + across) <= 0x1000_0000_0000_0000, depth >= 1;
    }
    let screen_x = floor_div(w * (depth + across), 2 * depth);
    let size = floor_div(cam.planedist * det, depth);
    let lift = floor_div(cam.jump * det, depth);
    proof {
        assert(0 <= size <= 0x2_0000_0000_0000) by (nonlinear_arith)
            requires size == (cam.planedist * det) / (depth as int), 0 <= cam.planedist * det <= 0x2_0000_0000_0000, depth >= 1;
        assert(-0x2_0000_0000_0000 <= lift <= 0x2_0000_0000_0000) by (nonlinear_arith)
            requires lift == (cam.jump * det) / (depth as int), -0x2_0000_0000_0000 <= cam.jump * det <= 0x2_0000_0000_0000, depth >= 1;
        assert(-0x1000_0000_0000_0000 <= screen_x <= 0x1000_0000_0000_0000);
    }
    let top = h / 2 - size / 2 + cam.pitch + lift;
    let bottom = h / 2 + size / 2 + cam.pitch + lift;
    let start_x = if screen_x - size / 2 < 0 { 0 } else { screen_x - size / 2 };
    let end_x = if screen_x + size / 2 > w - 1 { w - 1 } else { screen_x + size / 2 };
    let start_y = if top < 0 { 0 } else { top };
    let end_y = if bottom > h - 1 { h - 1 } else { bottom };
    if start_x < w && end_x > 0 && end_y > 0 && start_y < h {
        Some(SpriteBox { screen_x, size, top, start_x, end_x, start_y, end_y })
    } else {
        None
    }
}

/// A sprite straight ahead of the camera, `k` view directions away, lands in
/// the middle column with its box centred there; one behind the camera
/// (`k < 0`) is not drawn.
pub proof fn lemma_ahead_is_centred(cam: Camera, k: int, w: int, h: int)
    requires
        cam.det() != 0,
        0 < w <= SCREEN_LIMIT,
        0 < h <= SCREEN_LIMIT,
        k != 0,
    ensures
        ({
            let sx = cam.pos_x + k * cam.dir_x;
            let sy = cam.pos_y + k * cam.dir_y;
            &&& k < 0 ==> projection(cam, sx, sy, w, h) is None
            &&& k > 0 ==> camera_space(cam, sx, sy).0 == 0 && camera_space(cam, sx, sy).1 > 0
            &&& (projection(cam, sx, sy, w, h) matches Some(b) ==> b.screen_x == w / 2)
        }),
{
    let sx = cam.pos_x + k * cam.dir_x;
    let sy = cam.pos_y + k * cam.dir_y;
    let dx = sx - cam.pos_x;
    let dy = sy - cam.pos_y;
    assert(cam.dir_y * dx - cam.dir_x * dy == 0) by (nonlinear_arith)
        requires dx == k * cam.dir_x, dy == k * cam.dir_y;
    assert(cam.plane_x * dy - cam.plane_y * dx == k * cam.det()) by (nonlinear_arith)
        requires dx == k * cam.dir_x, dy == k * cam.dir_y, cam.det() == cam.plane_x * cam.dir_y - cam.dir_x * cam.plane_y;
    let (across, depth, det) = camera_space(cam, sx, sy);
    assert(across == 0);
    assert(k > 0 ==> depth > 0) by (nonlinear_arith)
        requires depth == (if cam.det() < 0 { -(k * cam.det()) } else { k * cam.det() }), cam.det() != 0;
    assert(k < 0 ==> depth < 0) by (nonlinear_arith)
        requires depth == (if cam.det() < 0 { -(k * cam.det()) } else { k * cam.det() }), cam.det() != 0;
    if depth > 0 {
        assert((w * (depth + across)) / (2 * depth) == w / 2) by (nonlinear_arith)
            requires across == 0, depth > 0;
    }
}

/// Squared distance from the camera to a sprite, in square sub-units.
pub open spec fn view_dist2(cam: Camera, s: Sprite) -> int {
    (cam.pos_x - s.pos_x) * (cam.pos_x - s.pos_x) + (cam.pos_y - s.pos_y) * (cam.pos_y - s.pos_y)
}

/// The sprite's position lies in the range positions are kept in.
pub open spec fn placed(s: Sprite) -> bool {
    0 <= s.pos_x < COORD_LIMIT && 0 <= s.pos_y < COORD_LIMIT
}

proof fn lemma_swap_keeps_multiset(v: Seq<Sprite>, i: int, j: int)
    requires
        0 <= i < v.len(),
        0 <= j < v.len(),
    ensures
        v.update(i, v[j]).update(j, v[i]).to_multiset() =~= v.to_multiset(),
{
    broadcast use vstd::seq_lib::group_to_multiset_ensures;
    let v1 = v.update(i, v[j]);
    vstd::seq_lib::to_multiset_update(v, i, v[j]);
    vstd::seq_lib::to_multiset_update(v1, j, v[i]);
    if i == j {
        assert(v.update(i, v[j]).update(j, v[i]) =~= v);
    } else {
        assert(v1[j] == v[j]);
        assert(v.to_multiset().insert(v[j]).remove(v[i]).insert(v[i]).remove(v[j]) =~= v.to_multiset());
    }
}

/// Orders the sprites back to front, for the painter's algorithm: the same
/// sprites, farthest first by squared distance from the camera.
pub fn sort_back_to_front(sprites: &mut Vec<Sprite>, cam: &Camera)
    requires
        cam.bounded(),
        forall|k: int| 0 <= k < old(sprites)@.len() ==> placed(#[trigger] old(sprites)@[k]),
    ensures
        final(sprites)@.to_multiset() == old(sprites)@.to_multiset(),
        final(sprites)@.len() == old(sprites)@.len(),
        forall|k: int| 0 <= k < final(sprites)@.len() ==> placed(#[trigger] final(sprites)@[k]),
        forall|a: int, b: int| 0 <= a < b < final(sprites)@.len()
            ==> view_dist2(*cam, #[trigger] final(sprites)@[a]) >= view_dist2(*cam, #[trigger] final(sprites)@[b]),
{
    let n = sprites.len();
    let mut i: usize = 0;
    while i < n
        invariant
            cam.bounded(),
            n == sprites@.len(),
            i <= n,
            sprites@.to_multiset() == old(sprites)@.to_multiset(),
            forall|k: int| 0 <= k < n ==> placed(#[trigger] sprites@[k]),
            forall|a: int, b: int| 0 <= a < b < i
                ==> view_dist2(*cam, #[trigger] sprites@[a]) >= view_dist2(*cam, #[trigger] sprites@[b]),
            forall|a: int, b: int| 0 <= a < i <= b < n
                ==> view_dist2(*cam, #[trigger] sprites@[a]) >= view_dist2(*cam, #[trigger] sprites@[b]),
        decreases n - i,
    {
        let mut m = i;
        let mut best = sprites[i].calculate_distance_2(cam);
        let mut k = i + 1;
        while k < n
            invariant
                cam.bounded(),
                n == sprites@.len(),
                i < n,
                i <= m < k <= n,
                forall|t: int| 0 <= t < n ==> placed(#[trigger] sprites@[t]),
                best == view_dist2(*cam, sprites@[m as int]),
                forall|t: int| i <= t < k ==> view_dist2(*cam, #[trigger] sprites@[t]) <= best,
            decreases n - k,
        {
            let dk = sprites[k].calculate_distance_2(cam);
            if dk > best {
                m = k;
                best = dk;
            }
            k += 1;
        }
        let ghost before = sprites@;
        let a = sprites[i];
        let b = sprites[m];
        sprites.set(i, b);
        sprites.set(m, a);
        proof {
            lemma_swap_keeps_multiset(before, i as int, m as int);
            assert(sprites@ == before.update(i as int, before[m as int]).update(m as int, before[i as int]));
            assert forall|t: int| 0 <= t < n implies placed(#[trigger] sprites@[t]) by {
                if t == i { assert(sprites@[t] == before[m as int]); }
                else if t == m { assert(sprites@[t] == before[i as int]); }
                else { assert(sprites@[t] == before[t]); }
            }
            assert forall|x: int, y: int| 0 <= x < y < i + 1
                implies view_dist2(*cam, #[trigger] sprites@[x]) >= view_dist2(*cam, #[trigger] sprites@[y]) by {
                assert(sprites@[x] == before[x]);
                if y == i {
                    assert(sprites@[y] == before[m as int]);
                } else {
                    assert(sprites@[y] == before[y]);
                }
            }
            assert forall|x: int, y: int| 0 <= x < i + 1 <= y < n
                implies view_dist2(*cam, #[trigger] sprites@[x]) >= view_dist2(*cam, #[trigger] sprites@[y]) by {
                let oy = if y == m { i as int } else { y };
                assert(sprites@[y] == before[oy]);
                if x == i {
                    assert(sprites@[x] == before[m as int]);
                } else {
                    assert(sprites@[x] == before[x]);
                }
            }
        }
        i += 1;
    }
}

} // verus!
