use vstd::prelude::*;
use crate::grid::{adjacent, lemma_adjacent_in_grid};
use crate::Orientation;

verus! {

/// The level a torch cell shines with; each orthogonal step loses one level.
pub const MAX_LEVEL: u8 = 15;

/// Sum over all cells of how far each level is below `MAX_LEVEL`.
pub open spec fn deficit(lv: Seq<u8>) -> int
    decreases lv.len(),
{
    if lv.len() == 0 {
        0
    } else {
        deficit(lv.drop_last()) + (MAX_LEVEL - lv.last())
    }
}

/// Every level is at most `MAX_LEVEL`.
pub open spec fn levels_bounded(lv: Seq<u8>) -> bool {
    forall|c: int| 0 <= c < lv.len() ==> lv[c] <= MAX_LEVEL
}

/// Cell `c` holds one of the torches.
pub open spec fn is_torch(torches: Seq<usize>, c: int) -> bool {
    exists|i: int| 0 <= i < torches.len() && #[trigger] torches[i] as int == c
}

/// A lit cell is a torch, or an open cell next to a brighter one.
pub open spec fn supported(torches: Seq<usize>, solid: Seq<bool>, w: int, h: int, lv: Seq<u8>, c: int) -> bool {
    ||| lv[c] == 0
    ||| is_torch(torches, c)
    ||| (!solid[c] && exists|n: int| adjacent(w, h, n, c) && #[trigger] lv[n] > lv[c])
}

/// A cell of level two or more has passed its light on: each open neighbour
/// is at most one level darker.
pub open spec fn passed_on(solid: Seq<bool>, w: int, h: int, lv: Seq<u8>, n: int) -> bool {
    lv[n] >= 2 ==> forall|c: int| #[trigger] adjacent(w, h, n, c) && !solid[c] ==> lv[c] + 1 >= lv[n]
}

/// `lv` is the light field that torches at `torches` spread over the grid
/// with solid cells `solid`.
pub open spec fn is_light_field(torches: Seq<usize>, solid: Seq<bool>, w: int, h: int, lv: Seq<u8>) -> bool {
    &&& lv.len() == w * h
    &&& solid.len() == w * h
    &&& levels_bounded(lv)
    &&& forall|i: int| 0 <= i < torches.len() ==> #[trigger] torches[i] < w * h
    &&& forall|i: int| 0 <= i < torches.len() ==> lv[#[trigger] torches[i] as int] == MAX_LEVEL
    &&& forall|c: int| 0 <= c < lv.len() ==> #[trigger] supported(torches, solid, w, h, lv, c)
    &&& forall|n: int| 0 <= n < lv.len() ==> #[trigger] passed_on(solid, w, h, lv, n)
}

/// Cell `c` lies at most `k` steps from a torch, each step entering an open cell.
pub open spec fn within_reach(torches: Seq<usize>, solid: Seq<bool>, w: int, h: int, k: nat, c: int) -> bool
    decreases k,
{
    if k == 0 {
        is_torch(torches, c)
    } else {
        ||| within_reach(torches, solid, w, h, (k - 1) as nat, c)
        ||| (!solid[c] && exists|n: int| #[trigger] adjacent(w, h, n, c)
                && within_reach(torches, solid, w, h, (k - 1) as nat, n))
    }
}

proof fn lemma_deficit_update(lv: Seq<u8>, i: int, v: u8)
    requires
        0 <= i < lv.len(),
    ensures
        deficit(lv.update(i, v)) == deficit(lv) - (MAX_LEVEL - lv[i]) + (MAX_LEVEL - v),
    decreases lv.len(),
{
    let u = lv.update(i, v);
    if i == lv.len() - 1 {
        assert(u.drop_last() =~= lv.drop_last());
    } else {
        assert(u.drop_last() =~= lv.drop_last().update(i, v));
        lemma_deficit_update(lv.drop_last(), i, v);
    }
}

proof fn lemma_deficit_nonneg(lv: Seq<u8>)
    requires
        levels_bounded(lv),
    ensures
        deficit(lv) >= 0,
    decreases lv.len(),
{
    if lv.len() > 0 {
        lemma_deficit_nonneg(lv.drop_last());
    }
}

/// Raises `nb` to one level below `from` when it is open and darker than that
/// by two levels or more, and queues it; otherwise changes nothing.
fn relax(levels: &mut Vec<u8>, queue: &mut Vec<usize>, solid: &Vec<bool>, from: u8, nb: usize)
    requires
        nb < old(levels)@.len(),
        solid@.len() == old(levels)@.len(),
        from <= MAX_LEVEL,
    ensures
        relaxed(solid@, from, nb, old(levels)@, old(queue)@, final(levels)@, final(queue)@),
{
    if !solid[nb] && from >= 2 && levels[nb] <= from - 2 {
        levels.set(nb, from - 1);
        queue.push(nb);
    }
}


/// How `spread_from` may change the levels and the queue: levels only rise,
/// a risen cell is an open neighbour of `node`, darker than it, and queued.
pub open spec fn spread_step(solid: Seq<bool>, w: int, h: int, node: int, l0: Seq<u8>, q0: Seq<usize>, l1: Seq<u8>, q1: Seq<usize>) -> bool {
    &&& l1.len() == l0.len()
    &&& levels_bounded(l1)
    &&& l1[node] == l0[node]
    &&& q1.len() >= q0.len()
    &&& forall|j: int| 0 <= j < q0.len() ==> #[trigger] q1[j] == q0[j]
    &&& forall|j: int| q0.len() <= j < q1.len() ==> #[trigger] q1[j] < l0.len()
    &&& forall|c: int| 0 <= c < l0.len() ==> #[trigger] l1[c] >= l0[c]
    &&& forall|c: int| 0 <= c < l0.len() && #[trigger] l1[c] != l0[c] ==> {
        &&& adjacent(w, h, node, c)
        &&& !solid[c]
        &&& l1[c] < l0[node]
        &&& exists|j: int| q0.len() <= j < q1.len() && #[trigger] q1[j] == c
    }
    &&& deficit(l1) + (q1.len() - q0.len()) <= deficit(l0)
}

/// What `relax` did, as a relation between the state before and after.
pub open spec fn relaxed(solid: Seq<bool>, from: u8, nb: usize, l1: Seq<u8>, q1: Seq<usize>, l2: Seq<u8>, q2: Seq<usize>) -> bool {
    if !solid[nb as int] && from >= 2 && l1[nb as int] + 2 <= from {
        &&& l2 == l1.update(nb as int, (from - 1) as u8)
        &&& q2 == q1.push(nb)
    } else {
        &&& l2 == l1
        &&& q2 == q1
    }
}

proof fn lemma_spread_step_extend(
    solid: Seq<bool>, w: int, h: int, node: int, nb: usize,
    l0: Seq<u8>, q0: Seq<usize>, l1: Seq<u8>, q1: Seq<usize>, l2: Seq<u8>, q2: Seq<usize>,
)
    requires
        adjacent(w, h, node, nb as int),
        spread_step(solid, w, h, node, l0, q0, l1, q1),
        relaxed(solid, l0[node], nb, l1, q1, l2, q2),
        l0.len() == w * h,
        solid.len() == w * h,
        levels_bounded(l0),
    ensures
        spread_step(solid, w, h, node, l0, q0, l2, q2),
{
    lemma_adjacent_in_grid(w, h, node, nb as int);
    let from = l0[node];
    if !solid[nb as int] && from >= 2 && l1[nb as int] + 2 <= from {
        lemma_deficit_update(l1, nb as int, (from - 1) as u8);
        assert(q2[q1.len() as int] == nb);
        assert forall|c: int| 0 <= c < l0.len() && #[trigger] l2[c] != l0[c] implies {
            &&& adjacent(w, h, node, c)
            &&& !solid[c]
            &&& l2[c] < l0[node]
            &&& exists|j: int| q0.len() <= j < q2.len() && #[trigger] q2[j] == c
        } by {
            if c == nb as int {
                assert(q2[q1.len() as int] == c);
            } else {
                assert(l1[c] != l0[c]);
                let j = choose|j: int| q0.len() <= j < q1.len() && #[trigger] q1[j] == c;
                assert(q2[j] == c);
            }
        }
        assert forall|j: int| 0 <= j < q0.len() implies #[trigger] q2[j] == q0[j] by {
            assert(q2[j] == q1[j]);
        }
        assert forall|j: int| q0.len() <= j < q2.len() implies #[trigger] q2[j] < l0.len() by {
            if j < q1.len() {
                assert(q2[j] == q1[j]);
            }
        }
    }
}

/// Passes the light of `node` on to its open neighbours, queueing each one
/// that grew brighter.
fn spread_from(levels: &mut Vec<u8>, queue: &mut Vec<usize>, solid: &Vec<bool>, w: usize, h: usize, node: usize)
    requires
        old(levels)@.len() == w * h,
        solid@.len() == w * h,
        node < w * h,
        levels_bounded(old(levels)@),
    ensures
        spread_step(solid@, w as int, h as int, node as int, old(levels)@, old(queue)@, final(levels)@, final(queue)@),
        passed_on(solid@, w as int, h as int, final(levels)@, node as int),
{
    let ghost l0 = levels@;
    let ghost q0 = queue@;
    let ghost (sw, sh, sn) = (w as int, h as int, node as int);
    let cells = solid.len();
    let from = levels[node];
    let x = node % w;
    let y = node / w;
    assert(spread_step(solid@, sw, sh, sn, l0, q0, l0, q0));
    if x > 0 {
        proof { lemma_adjacent_in_grid(sw, sh, sn, node - 1); }
        let ghost (lb, qb) = (levels@, queue@);
        relax(levels, queue, solid, from, node - 1);
        proof { lemma_spread_step_extend(solid@, sw, sh, sn, (node - 1) as usize, l0, q0, lb, qb, levels@, queue@); }
    }
    if x + 1 < w {
        proof { lemma_adjacent_in_grid(sw, sh, sn, node + 1); }
        let ghost (lb, qb) = (levels@, queue@);
        relax(levels, queue, solid, from, node + 1);
        proof { lemma_spread_step_extend(solid@, sw, sh, sn, (node + 1) as usize, l0, q0, lb, qb, levels@, queue@); }
    }
    if y > 0 {
        proof { lemma_adjacent_in_grid(sw, sh, sn, node - w); }
        let ghost (lb, qb) = (levels@, queue@);
        relax(levels, queue, solid, from, node - w);
        proof { lemma_spread_step_extend(solid@, sw, sh, sn, (node - w) as usize, l0, q0, lb, qb, levels@, queue@); }
    }
    if y + 1 < h {
        proof { lemma_adjacent_in_grid(sw, sh, sn, node + w); }
        let ghost (lb, qb) = (levels@, queue@);
        relax(levels, queue, solid, from, node + w);
        proof { lemma_spread_step_extend(solid@, sw, sh, sn, (node + w) as usize, l0, q0, lb, qb, levels@, queue@); }
    }
    assert forall|c: int| #[trigger] adjacent(sw, sh, sn, c) && !solid@[c] && levels@[sn] >= 2
        implies levels@[c] + 1 >= levels@[sn] by {
        lemma_adjacent_in_grid(sw, sh, sn, c);
    }
}

/// Spreads light from each torch cell, which shines at `MAX_LEVEL`, over the
/// `w`-by-`h` grid: each orthogonal step into an open cell loses one level,
/// and levels 0 and 1 spread no further. The result is the light field of
/// `is_light_field`, which `lemma_light_field_by_reach` shows is fixed by the
/// distances alone.
pub fn light_levels(torches: &Vec<usize>, solid: &Vec<bool>, w: usize, h: usize) -> (levels: Vec<u8>)
    requires
        solid@.len() == w * h,
        forall|i: int| 0 <= i < torches@.len() ==> #[trigger] torches@[i] < w * h,
    ensures
        is_light_field(torches@, solid@, w as int, h as int, levels@),
{
    let cells = solid.len();
    let mut levels: Vec<u8> = Vec::new();
    let mut i: usize = 0;
    while i < cells
        invariant
            i <= cells,
            levels@.len() == i,
            forall|c: int| 0 <= c < i ==> levels@[c] == 0,
        decreases cells - i,
    {
        levels.push(0);
        i += 1;
    }
    let mut queue: Vec<usize> = Vec::new();
    let mut t: usize = 0;
    while t < torches.len()
        invariant
            cells == solid@.len(),
            cells == w * h,
            t <= torches@.len(),
            forall|i: int| 0 <= i < torches@.len() ==> #[trigger] torches@[i] < w * h,
            levels@.len() == cells,
            queue@ == torches@.subrange(0, t as int),
            forall|c: int| 0 <= c < cells ==> levels@[c] == 0 || levels@[c] == MAX_LEVEL,
            forall|c: int| 0 <= c < cells && levels@[c] != 0 ==> exists|j: int| 0 <= j < queue@.len() && #[trigger] queue@[j] == c,
            forall|i: int| 0 <= i < t ==> levels@[#[trigger] torches@[i] as int] == MAX_LEVEL,
        decreases torches@.len() - t,
    {
        let cell = torches[t];
        levels.set(cell, MAX_LEVEL);
        queue.push(cell);
        proof {
            assert(queue@[t as int] == cell);
            assert(torches@.subrange(0, t + 1) =~= torches@.subrange(0, t as int).push(cell));
        }
        t += 1;
    }
    let ghost sw = w as int;
    let ghost sh = h as int;
    assert forall|c: int| 0 <= c < cells implies #[trigger] supported(torches@, solid@, sw, sh, levels@, c) by {
        if levels@[c] != 0 {
            let j = choose|j: int| 0 <= j < queue@.len() && #[trigger] queue@[j] == c;
            assert(torches@[j] as int == c);
        }
    }
    let mut head: usize = 0;
    while head < queue.len()
        invariant
            sw == w as int,
            sh == h as int,
            cells == solid@.len(),
            cells == w * h,
            levels@.len() == cells,
            head <= queue@.len(),
            forall|j: int| 0 <= j < queue@.len() ==> #[trigger] queue@[j] < cells,
            levels_bounded(levels@),
            forall|i: int| 0 <= i < torches@.len() ==> #[trigger] torches@[i] < w * h,
            forall|i: int| 0 <= i < torches@.len() ==> levels@[#[trigger] torches@[i] as int] == MAX_LEVEL,
            forall|c: int| 0 <= c < cells ==> #[trigger] supported(torches@, solid@, sw, sh, levels@, c),
            forall|n: int| 0 <= n < cells ==> #[trigger] passed_on(solid@, sw, sh, levels@, n)
                || exists|j: int| head <= j < queue@.len() && #[trigger] queue@[j] == n,
        decreases 5 * deficit(levels@) + (queue@.len() - head),
    {
        proof { lemma_deficit_nonneg(levels@); }
        let ghost (l0, q0, h0) = (levels@, queue@, head as int);
        let node = queue[head];
        head += 1;
        spread_from(&mut levels, &mut queue, solid, w, h, node);
        proof {
            let (l1, q1) = (levels@, queue@);
            assert(spread_step(solid@, sw, sh, node as int, l0, q0, l1, q1));
            lemma_deficit_nonneg(l1);
            assert forall|j: int| 0 <= j < q1.len() implies #[trigger] q1[j] < cells by {
                if j < q0.len() {
                    assert(q1[j] == q0[j]);
                }
            }
            assert forall|i: int| 0 <= i < torches@.len() implies l1[#[trigger] torches@[i] as int] == MAX_LEVEL by {
                assert(l1[torches@[i] as int] >= l0[torches@[i] as int]);
            }
            assert forall|c: int| 0 <= c < cells implies #[trigger] supported(torches@, solid@, sw, sh, l1, c) by {
                if l1[c] != l0[c] {
                    assert(spread_step(solid@, sw, sh, node as int, l0, q0, l1, q1));
                    assert(adjacent(sw, sh, node as int, c));
                    assert(l1[node as int] > l1[c]);
                } else if l1[c] != 0 && !is_torch(torches@, c) {
                    assert(supported(torches@, solid@, sw, sh, l0, c));
                    let n = choose|n: int| adjacent(sw, sh, n, c) && #[trigger] l0[n] > l0[c];
                    lemma_adjacent_in_grid(sw, sh, n, c);
                    assert(0 <= n < cells);
                    assert(l1[n] >= l0[n]);
                }
            }
            assert forall|n: int| 0 <= n < cells implies #[trigger] passed_on(solid@, sw, sh, l1, n)
                || exists|j: int| head <= j < q1.len() && #[trigger] q1[j] == n by {
                if n == node as int {
                } else if l1[n] != l0[n] {
                    let j = choose|j: int| q0.len() <= j < q1.len() && #[trigger] q1[j] == n;
                } else if passed_on(solid@, sw, sh, l0, n) {
                    assert forall|c: int| #[trigger] adjacent(sw, sh, n, c) && !solid@[c] && l1[n] >= 2
                        implies l1[c] + 1 >= l1[n] by {
                        lemma_adjacent_in_grid(sw, sh, n, c);
                        assert(l1[c] >= l0[c]);
                    }
                } else {
                    let j = choose|j: int| h0 <= j < q0.len() && #[trigger] q0[j] == n;
                    assert(j != h0);
                    assert(q1[j] == q0[j]);
                }
            }
        }
    }
    levels
}

proof fn lemma_reach_monotone(torches: Seq<usize>, solid: Seq<bool>, w: int, h: int, k: nat, m: nat, c: int)
    requires
        within_reach(torches, solid, w, h, k, c),
        k <= m,
    ensures
        within_reach(torches, solid, w, h, m, c),
    decreases m - k,
{
    if k < m {
        assert(within_reach(torches, solid, w, h, (k + 1) as nat, c));
        lemma_reach_monotone(torches, solid, w, h, (k + 1) as nat, m, c);
    }
}

proof fn lemma_reach_lower_bound(torches: Seq<usize>, solid: Seq<bool>, w: int, h: int, lv: Seq<u8>, k: nat, c: int)
    requires
        is_light_field(torches, solid, w, h, lv),
        within_reach(torches, solid, w, h, k, c),
    ensures
        0 <= c < lv.len(),
        lv[c] + k >= MAX_LEVEL,
    decreases k,
{
    if k == 0 {
        let i = choose|i: int| 0 <= i < torches.len() && #[trigger] torches[i] as int == c;
        assert(torches[i] < w * h);
    } else if within_reach(torches, solid, w, h, (k - 1) as nat, c) {
        lemma_reach_lower_bound(torches, solid, w, h, lv, (k - 1) as nat, c);
    } else {
        let n = choose|n: int| #[trigger] adjacent(w, h, n, c) && within_reach(torches, solid, w, h, (k - 1) as nat, n);
        lemma_reach_lower_bound(torches, solid, w, h, lv, (k - 1) as nat, n);
        lemma_adjacent_in_grid(w, h, n, c);
        assert(passed_on(solid, w, h, lv, n));
    }
}

proof fn lemma_lit_within_reach(torches: Seq<usize>, solid: Seq<bool>, w: int, h: int, lv: Seq<u8>, c: int)
    requires
        is_light_field(torches, solid, w, h, lv),
        0 <= c < lv.len(),
        lv[c] > 0,
    ensures
        within_reach(torches, solid, w, h, (MAX_LEVEL - lv[c]) as nat, c),
    decreases MAX_LEVEL - lv[c],
{
    assert(supported(torches, solid, w, h, lv, c));
    if is_torch(torches, c) {
        lemma_reach_monotone(torches, solid, w, h, 0, (MAX_LEVEL - lv[c]) as nat, c);
    } else {
        let n = choose|n: int| adjacent(w, h, n, c) && #[trigger] lv[n] > lv[c];
        lemma_lit_within_reach(torches, solid, w, h, lv, n);
        lemma_reach_monotone(torches, solid, w, h, (MAX_LEVEL - lv[n]) as nat, (MAX_LEVEL - lv[c] - 1) as nat, n);
    }
}

/// The light field is fixed by the distances from the torches: a cell whose
/// shortest way from a torch takes `k` steps through open cells has level
/// `MAX_LEVEL - k` when `k <= MAX_LEVEL`, so the level never rises as the
/// distance grows, and a cell that no way of fourteen steps or fewer reaches
/// (one walled off from every torch among them) stays at level 0.
pub proof fn lemma_light_field_by_reach(torches: Seq<usize>, solid: Seq<bool>, w: int, h: int, lv: Seq<u8>)
    requires
        is_light_field(torches, solid, w, h, lv),
    ensures
        forall|k: nat, c: int| #[trigger] within_reach(torches, solid, w, h, k, c) ==> lv[c] + k >= MAX_LEVEL,
        forall|k: nat, c: int| 0 <= c < lv.len() && #[trigger] within_reach(torches, solid, w, h, k, c)
            && (k == 0 || !within_reach(torches, solid, w, h, (k - 1) as nat, c)) && k <= MAX_LEVEL
            ==> lv[c] == MAX_LEVEL - k,
        forall|c: int| 0 <= c < lv.len() && !within_reach(torches, solid, w, h, (MAX_LEVEL - 1) as nat, c)
            ==> #[trigger] lv[c] == 0,
{
    assert forall|k: nat, c: int| #[trigger] within_reach(torches, solid, w, h, k, c) implies lv[c] + k >= MAX_LEVEL by {
        lemma_reach_lower_bound(torches, solid, w, h, lv, k, c);
    }
    assert forall|k: nat, c: int| 0 <= c < lv.len() && #[trigger] within_reach(torches, solid, w, h, k, c)
        && (k == 0 || !within_reach(torches, solid, w, h, (k - 1) as nat, c)) && k <= MAX_LEVEL
        implies lv[c] == MAX_LEVEL - k by {
        lemma_reach_lower_bound(torches, solid, w, h, lv, k, c);
        if lv[c] > MAX_LEVEL - k {
            lemma_lit_within_reach(torches, solid, w, h, lv, c);
            lemma_reach_monotone(torches, solid, w, h, (MAX_LEVEL - lv[c]) as nat, (k - 1) as nat, c);
        }
    }
    assert forall|c: int| 0 <= c < lv.len() && !within_reach(torches, solid, w, h, (MAX_LEVEL - 1) as nat, c)
        implies #[trigger] lv[c] == 0 by {
        if lv[c] > 0 {
            lemma_lit_within_reach(torches, solid, w, h, lv, c);
            lemma_reach_monotone(torches, solid, w, h, (MAX_LEVEL - lv[c]) as nat, (MAX_LEVEL - 1) as nat, c);
        }
    }
}

/// A cell at most `k` steps from a torch is at least as bright as a cell
/// that no way of fewer than `k` steps reaches: light never grows with the
/// distance from the nearest torch, in level and in intensity.
pub proof fn lemma_nearer_is_brighter(torches: Seq<usize>, solid: Seq<bool>, w: int, h: int, lv: Seq<u8>,
    a: int, b: int, k: nat)
    requires
        is_light_field(torches, solid, w, h, lv),
        0 <= a < lv.len(),
        0 <= b < lv.len(),
        within_reach(torches, solid, w, h, k, a),
        k > 0 ==> !within_reach(torches, solid, w, h, (k - 1) as nat, b),
    ensures
        lv[a] >= lv[b],
        field_intensities(lv)[a] >= field_intensities(lv)[b],
{
    lemma_reach_lower_bound(torches, solid, w, h, lv, k, a);
    if lv[b] > lv[a] {
        lemma_lit_within_reach(torches, solid, w, h, lv, b);
        if k > 0 {
            lemma_reach_monotone(torches, solid, w, h, (MAX_LEVEL - lv[b]) as nat, (k - 1) as nat, b);
        }
    }
    lemma_level_intensity_monotone(lv[b] as int, lv[a] as int);
}

/// Building the light field twice from the same torches and solid cells
/// gives the same levels: only one field meets `is_light_field`.
pub proof fn lemma_light_field_unique(torches: Seq<usize>, solid: Seq<bool>, w: int, h: int, a: Seq<u8>, b: Seq<u8>)
    requires
        is_light_field(torches, solid, w, h, a),
        is_light_field(torches, solid, w, h, b),
    ensures
        a == b,
{
    assert forall|c: int| 0 <= c < a.len() implies a[c] == b[c] by {
        if a[c] > b[c] {
            lemma_lit_within_reach(torches, solid, w, h, a, c);
            lemma_reach_lower_bound(torches, solid, w, h, b, (MAX_LEVEL - a[c]) as nat, c);
        } else if b[c] > a[c] {
            lemma_lit_within_reach(torches, solid, w, h, b, c);
            lemma_reach_lower_bound(torches, solid, w, h, a, (MAX_LEVEL - b[c]) as nat, c);
        }
    }
    assert(a =~= b);
}

/// The light field of the torches `torches` on the grid with solid cells
/// `solid`; `lemma_light_field_unique` shows there is at most one.
pub open spec fn light_field(torches: Seq<usize>, solid: Seq<bool>, w: int, h: int) -> Seq<u8> {
    choose|lv: Seq<u8>| is_light_field(torches, solid, w, h, lv)
}

/// Full brightness in the fixed-point scale of intensities: 1.0 is `LIGHT_ONE`.
pub const LIGHT_ONE: u32 = 65536;

/// Intensity of a light level: `LIGHT_ONE * 0.75^(0.8 * (15 - level))`,
/// rounded to the nearest unit.
pub open spec fn level_intensity_spec(level: int) -> u32 {
    if level <= 0 { 2076 }
    else if level == 1 { 2613 }
    else if level == 2 { 3289 }
    else if level == 3 { 4141 }
    else if level == 4 { 5212 }
    else if level == 5 { 6561 }
    else if level == 6 { 8259 }
    else if level == 7 { 10396 }
    else if level == 8 { 13086 }
    else if level == 9 { 16473 }
    else if level == 10 { 20736 }
    else if level == 11 { 26102 }
    else if level == 12 { 32857 }
    else if level == 13 { 41360 }
    else if level == 14 { 52063 }
    else { 65536 }
}

/// Converts a light level to its display intensity.
pub fn level_intensity(level: u8) -> (r: u32)
    requires
        level <= MAX_LEVEL,
    ensures
        r == level_intensity_spec(level as int),
        r <= LIGHT_ONE,
{
    match level {
        0 => 2076,
        1 => 2613,
        2 => 3289,
        3 => 4141,
        4 => 5212,
        5 => 6561,
        6 => 8259,
        7 => 10396,
        8 => 13086,
        9 => 16473,
        10 => 20736,
        11 => 26102,
        12 => 32857,
        13 => 41360,
        14 => 52063,
        _ => 65536,
    }
}

/// A brighter level never gives a dimmer intensity; every intensity lies
/// within `0..=LIGHT_ONE`, and a torch's own level gives exactly `LIGHT_ONE`.
pub proof fn lemma_level_intensity_monotone(a: int, b: int)
    requires
        0 <= a <= b <= MAX_LEVEL,
    ensures
        level_intensity_spec(a) <= level_intensity_spec(b),
        level_intensity_spec(b) <= LIGHT_ONE,
        level_intensity_spec(MAX_LEVEL as int) == LIGHT_ONE,
{
}

/// Intensities of a light field, cell by cell.
pub open spec fn field_intensities(lv: Seq<u8>) -> Seq<u32> {
    Seq::new(lv.len(), |c: int| level_intensity_spec(lv[c] as int))
}

/// Spreads the torches' light over the grid (see `light_levels`) and turns
/// each cell's level into its intensity.
pub fn lighting(torches_pos: Vec<usize>, map: &Vec<bool>, map_size: (usize, usize)) -> (light: Vec<u32>)
    requires
        map@.len() == map_size.0 * map_size.1,
        forall|i: int| 0 <= i < torches_pos@.len() ==> #[trigger] torches_pos@[i] < map_size.0 * map_size.1,
    ensures
        light@ == field_intensities(light_field(torches_pos@, map@, map_size.0 as int, map_size.1 as int)),
        light@.len() == map_size.0 * map_size.1,
{
    let (w, h) = map_size;
    let levels = light_levels(&torches_pos, map, w, h);
    proof {
        let lf = light_field(torches_pos@, map@, w as int, h as int);
        lemma_light_field_unique(torches_pos@, map@, w as int, h as int, levels@, lf);
    }
    let mut light: Vec<u32> = Vec::new();
    let mut i: usize = 0;
    while i < levels.len()
        invariant
            i <= levels@.len(),
            levels_bounded(levels@),
            light@ =~= field_intensities(levels@).subrange(0, i as int),
        decreases levels@.len() - i,
    {
        light.push(level_intensity(levels[i]));
        i += 1;
    }
    assert(light@ =~= field_intensities(levels@));
    light
}

/// Intensity of cell `(x, y)`, or 0 for a position outside the grid.
pub open spec fn cell_or_dark(light: Seq<u32>, w: int, h: int, x: int, y: int) -> int {
    if 0 <= x < w && 0 <= y < h { light[y * w + x] as int } else { 0 }
}

/// Intensity at grid corner `(x, y)`: the mean of the up to four cells that
/// meet there, cells outside the grid counting as dark.
pub open spec fn corner_spec(light: Seq<u32>, w: int, h: int, x: int, y: int) -> int {
    (cell_or_dark(light, w, h, x - 1, y) + cell_or_dark(light, w, h, x, y)
        + cell_or_dark(light, w, h, x, y - 1) + cell_or_dark(light, w, h, x - 1, y - 1)) / 4
}

/// Every intensity is within `0..=LIGHT_ONE`.
pub open spec fn intensities_bounded(light: Seq<u32>) -> bool {
    forall|c: int| 0 <= c < light.len() ==> #[trigger] light[c] <= LIGHT_ONE
}

fn cell_at(light: &Vec<u32>, w: usize, h: usize, x: usize, y: usize) -> (r: u32)
    requires
        light@.len() == w * h,
        intensities_bounded(light@),
        x < w,
        y < h,
    ensures
        r == light@[y * w + x],
        r <= LIGHT_ONE,
{
    let cells = light.len();
    assert(y * w + x < w * h) by (nonlinear_arith)
        requires x < w, y < h;
    assert(y * w <= y * w + x);
    light[y * w + x]
}

/// The smoothed intensity at one grid corner.
#[derive(Clone, Copy, Debug)]
pub struct Vertex {
    pub lighting: u32,
}

impl Vertex {
    /// The corner at `pos` (`[x, y]`, with `x <= width` and `y <= height`),
    /// averaged from the cells that meet there.
    pub fn new(pos: [usize; 2], map_size: (usize, usize), lighting: &Vec<u32>) -> (v: Self)
        requires
            pos[0] <= map_size.0,
            pos[1] <= map_size.1,
            lighting@.len() == map_size.0 * map_size.1,
            intensities_bounded(lighting@),
        ensures
            v.lighting == corner_spec(lighting@, map_size.0 as int, map_size.1 as int, pos[0] as int, pos[1] as int),
            v.lighting <= LIGHT_ONE,
    {
        let (w, h) = map_size;
        let x = pos[0];
        let y = pos[1];
        let n1: u32 = if x > 0 && y < h { cell_at(lighting, w, h, x - 1, y) } else { 0 };
        let n2: u32 = if x < w && y < h { cell_at(lighting, w, h, x, y) } else { 0 };
        let n3: u32 = if y > 0 && x < w { cell_at(lighting, w, h, x, y - 1) } else { 0 };
        let n4: u32 = if y > 0 && x > 0 { cell_at(lighting, w, h, x - 1, y - 1) } else { 0 };
        Vertex { lighting: (n1 + n2 + n3 + n4) / 4 }
    }
}

impl Default for Vertex {
    fn default() -> (v: Self)
        ensures
            v.lighting == 0,
    {
        Vertex { lighting: 0 }
    }
}

/// Texels along one side of a tile; blend weights are fractions over this.
pub const TILE: u32 = 128;

/// Bilinear blend of `v0..v3` at `(xn / 128, yn / 128)`: `v0` at `(0, 0)`,
/// `v1` at `(1, 0)`, `v2` at `(0, 1)`, `v3` at `(1, 1)`.
pub open spec fn bilerp_spec(xn: int, yn: int, v0: int, v1: int, v2: int, v3: int) -> int {
    (v0 * (128 - xn) * (128 - yn) + v1 * xn * (128 - yn) + v2 * yn * (128 - xn) + v3 * xn * yn) / 16384int
}

/// Linear blend from `l` (at 0) to `r` (at 128) at `xn / 128`.
pub open spec fn lerp_spec(xn: int, l: int, r: int) -> int {
    (l * (128 - xn) + r * xn) / 128
}

/// Bilinear blend of four intensities; see `bilerp_spec`.
pub fn bilerp(xn: u32, yn: u32, v: [u32; 4]) -> (r: u32)
    requires
        xn <= TILE,
        yn <= TILE,
        v[0] <= LIGHT_ONE,
        v[1] <= LIGHT_ONE,
        v[2] <= LIGHT_ONE,
        v[3] <= LIGHT_ONE,
    ensures
        r == bilerp_spec(xn as int, yn as int, v[0] as int, v[1] as int, v[2] as int, v[3] as int),
        r <= LIGHT_ONE,
{
    let x = xn as u64;
    let y = yn as u64;
    let (a, b, c, d) = (v[0] as u64, v[1] as u64, v[2] as u64, v[3] as u64);
    assert((128 - x) * (128 - y) <= 16384 && x * (128 - y) <= 16384 && y * (128 - x) <= 16384 && x * y <= 16384)
        by (nonlinear_arith)
        requires x <= 128, y <= 128;
    let (w0, w1, w2, w3) = ((128 - x) * (128 - y), x * (128 - y), y * (128 - x), x * y);
    assert(w0 + w1 + w2 + w3 == 128 * 128) by (nonlinear_arith)
        requires w0 == (128 - x) * (128 - y), w1 == x * (128 - y), w2 == y * (128 - x), w3 == x * y;
    assert(w0 <= 16384 && w1 <= 16384 && w2 <= 16384 && w3 <= 16384) by (nonlinear_arith)
        requires w0 + w1 + w2 + w3 == 128 * 128, w0 >= 0, w1 >= 0, w2 >= 0, w3 >= 0;
    assert(a * w0 + b * w1 + c * w2 + d * w3 <= 65536 * 16384) by (nonlinear_arith)
        requires a <= 65536, b <= 65536, c <= 65536, d <= 65536, w0 + w1 + w2 + w3 == 128 * 128,
            w0 >= 0, w1 >= 0, w2 >= 0, w3 >= 0;
    assert(a * w0 <= 65536 * 16384 && b * w1 <= 65536 * 16384 && c * w2 <= 65536 * 16384 && d * w3 <= 65536 * 16384) by (nonlinear_arith)
        requires a <= 65536, b <= 65536, c <= 65536, d <= 65536, w0 <= 16384, w1 <= 16384, w2 <= 16384, w3 <= 16384;
    let total = a * w0 + b * w1 + c * w2 + d * w3;
    assert(a * w0 == a * (128 - x) * (128 - y) && c * w2 == c * y * (128 - x) && b * w1 == b * x * (128 - y) && d * w3 == d * x * y) by (nonlinear_arith)
        requires w0 == (128 - x) * (128 - y), w1 == x * (128 - y), w2 == y * (128 - x), w3 == x * y;
    (total / 16384) as u32
}

/// Linear blend of two intensities; see `lerp_spec`.
pub fn lerp(xn: u32, l: u32, r: u32) -> (out: u32)
    requires
        xn <= TILE,
        l <= LIGHT_ONE,
        r <= LIGHT_ONE,
    ensures
        out == lerp_spec(xn as int, l as int, r as int),
        out <= LIGHT_ONE,
{
    let x = xn as u64;
    let (a, b) = (l as u64, r as u64);
    assert(a * (128 - x) + b * x <= 65536 * 128) by (nonlinear_arith)
        requires a <= 65536, b <= 65536, x <= 128;
    assert(a * (128 - x) <= 65536 * 128 && b * x <= 65536 * 128) by (nonlinear_arith)
        requires a <= 65536, b <= 65536, x <= 128;
    ((a * (128 - x) + b * x) / 128) as u32
}

/// The cell a wall face looks into: the open cell whose light falls on it.
pub open spec fn facing_cell(pos: int, o: Orientation, w: int) -> int {
    match o {
        Orientation::N => pos - w,
        Orientation::S => pos + w,
        Orientation::E => pos - 1,
        Orientation::W => pos + 1,
    }
}

/// Which corners of the facing cell's quad (0 top-left, 1 top-right,
/// 2 bottom-left, 3 bottom-right) form the near edge and the far edge of a
/// wall face, in blending order: `(near0, near1, far0, far1)`.
pub open spec fn wall_corner_order_spec(o: Orientation) -> (int, int, int, int) {
    match o {
        Orientation::N => (0, 1, 2, 3),
        Orientation::S => (2, 3, 0, 1),
        Orientation::E => (0, 2, 1, 3),
        Orientation::W => (3, 1, 2, 0),
    }
}

/// The corner order of `wall_corner_order_spec`.
pub fn wall_corner_order(o: &Orientation) -> (r: (usize, usize, usize, usize))
    ensures
        (r.0 as int, r.1 as int, r.2 as int, r.3 as int) == wall_corner_order_spec(*o),
        r.0 < 4 && r.1 < 4 && r.2 < 4 && r.3 < 4,
{
    match o {
        Orientation::N => (0, 1, 2, 3),
        Orientation::S => (2, 3, 0, 1),
        Orientation::E => (0, 2, 1, 3),
        Orientation::W => (3, 1, 2, 0),
    }
}

/// Smoothed light on a wall face at texel `(tx, ty)` from the facing cell's
/// corner quad `q`. The face is three texture heights tall: the upper band
/// (`3 * ty > 256`) blends from the far edge, the middle band holds the near
/// edge, the lower band blends from the near edge. North faces run mirrored.
pub open spec fn wall_light_spec(tx: int, ty: int, o: Orientation, q: Seq<int>) -> int {
    let xs = if o == Orientation::N { 128 - tx } else { tx };
    let (a, b, c, d) = wall_corner_order_spec(o);
    let (n0, n1, f0, f1) = (q[a], q[b], q[c], q[d]);
    if 3 * ty > 256 {
        bilerp_spec(xs, 384 - 3 * ty, f0, f1, n0, n1)
    } else if 3 * ty > 128 {
        lerp_spec(xs, n0, n1)
    } else {
        bilerp_spec(xs, 128 - 3 * ty, n0, n1, f0, f1)
    }
}

/// The corner quad stored for cell `p` is that of its grid position.
pub open spec fn quad_ok(light: Seq<u32>, w: int, h: int, verts: Seq<Vertex>, p: int) -> bool {
    let x = p % w;
    let y = p / w;
    &&& verts[4 * p].lighting == corner_spec(light, w, h, x, y)
    &&& verts[4 * p + 1].lighting == corner_spec(light, w, h, x + 1, y)
    &&& verts[4 * p + 2].lighting == corner_spec(light, w, h, x, y + 1)
    &&& verts[4 * p + 3].lighting == corner_spec(light, w, h, x + 1, y + 1)
}

/// Static light of a map: one intensity per cell and, per cell, the four
/// smoothed corners (top-left, top-right, bottom-left, bottom-right).
pub struct Lighting {
    pub vertices: Vec<Vertex>,
    pub lighting: Vec<u32>,
    pub map_size: (usize, usize),
    pub switch: bool,
    pub smooth_switch: bool,
}

impl Lighting {
    /// One bounded intensity per cell, and per cell the four corners of its
    /// grid position (`quad_ok`), each bounded too.
    pub open spec fn wf(&self) -> bool {
        let (w, h) = (self.map_size.0 as int, self.map_size.1 as int);
        &&& self.lighting@.len() == w * h
        &&& intensities_bounded(self.lighting@)
        &&& self.vertices@.len() == 4 * (w * h)
        &&& forall|p: int| 0 <= p < w * h ==> #[trigger] quad_ok(self.lighting@, w, h, self.vertices@, p)
        &&& forall|i: int| 0 <= i < self.vertices@.len() ==> #[trigger] self.vertices@[i].lighting <= LIGHT_ONE
    }

    /// Corner `k` (0 top-left, 1 top-right, 2 bottom-left, 3 bottom-right) of cell `p`.
    pub open spec fn corner(&self, p: int, k: int) -> int {
        self.vertices@[4 * p + k].lighting as int
    }

    /// What `get_lighting_floor` returns.
    pub open spec fn floor_light(&self, tx: int, ty: int, pos: int) -> int {
        if !self.switch {
            LIGHT_ONE as int
        } else if !self.smooth_switch {
            self.lighting@[pos] as int
        } else {
            bilerp_spec(tx, 128 - ty, self.corner(pos, 2), self.corner(pos, 3), self.corner(pos, 0), self.corner(pos, 1))
        }
    }

    /// What `get_lighting_wall` returns.
    pub open spec fn wall_light(&self, tx: int, ty: int, pos: int, o: Orientation) -> int {
        let f = facing_cell(pos, o, self.map_size.0 as int);
        if !self.switch {
            LIGHT_ONE as int
        } else if !self.smooth_switch {
            self.lighting@[f] as int
        } else {
            wall_light_spec(tx, ty, o, self.quad(f))
        }
    }

    /// The corner quad of cell `p`.
    pub open spec fn quad(&self, p: int) -> Seq<int> {
        seq![self.corner(p, 0), self.corner(p, 1), self.corner(p, 2), self.corner(p, 3)]
    }

    /// Builds the light of a `map_size.0`-by-`map_size.1` map whose solid
    /// cells are marked in `map`, with torches at `torches_pos`; both switches start on.
    pub fn new(torches_pos: Vec<usize>, map: &Vec<bool>, map_size: (usize, usize)) -> (l: Self)
        requires
            map@.len() == map_size.0 * map_size.1,
            forall|i: int| 0 <= i < torches_pos@.len() ==> #[trigger] torches_pos@[i] < map_size.0 * map_size.1,
        ensures
            l.wf(),
            l.map_size == map_size,
            l.lighting@ == field_intensities(light_field(torches_pos@, map@, map_size.0 as int, map_size.1 as int)),
            l.switch,
            l.smooth_switch,
    {
        let lighting = lighting(torches_pos, map, map_size);
        let (w, h) = map_size;
        let cells = map.len();
        proof {
            let lv = light_field(torches_pos@, map@, w as int, h as int);
            assert(lighting@.len() == lv.len());
            assert forall|c: int| 0 <= c < lighting@.len() implies #[trigger] lighting@[c] <= LIGHT_ONE by {
                assert(level_intensity_spec(lv[c] as int) <= LIGHT_ONE);
            }
        }
        let mut vertices: Vec<Vertex> = Vec::new();
        let mut p: usize = 0;
        while p < cells
            invariant
                map_size.0 == w,
                map_size.1 == h,
                cells == w * h,
                lighting@.len() == w * h,
                intensities_bounded(lighting@),
                p <= cells,
                vertices@.len() == 4 * p,
                forall|q: int| 0 <= q < p ==> #[trigger] quad_ok(lighting@, w as int, h as int, vertices@, q),
                forall|i: int| 0 <= i < vertices@.len() ==> #[trigger] vertices@[i].lighting <= LIGHT_ONE,
            decreases cells - p,
        {
            assert(w > 0) by (nonlinear_arith)
                requires p < w * h, w >= 0, h >= 0;
            let x = p % w;
            let y = p / w;
            assert(y < h) by (nonlinear_arith)
                requires y == p / w, p < w * h, w > 0;
            let ghost before = vertices@;
            vertices.push(Vertex::new([x, y], map_size, &lighting));
            vertices.push(Vertex::new([x + 1, y], map_size, &lighting));
            vertices.push(Vertex::new([x, y + 1], map_size, &lighting));
            vertices.push(Vertex::new([x + 1, y + 1], map_size, &lighting));
            assert forall|q: int| 0 <= q < p + 1 implies #[trigger] quad_ok(lighting@, w as int, h as int, vertices@, q) by {
                if q < p {
                    assert(quad_ok(lighting@, w as int, h as int, before, q));
                    assert(vertices@[4 * q] == before[4 * q]);
                    assert(vertices@[4 * q + 1] == before[4 * q + 1]);
                    assert(vertices@[4 * q + 2] == before[4 * q + 2]);
                    assert(vertices@[4 * q + 3] == before[4 * q + 3]);
                }
            }
            p += 1;
        }
        Lighting { vertices, lighting, map_size, switch: true, smooth_switch: true }
    }

    /// Light on the floor (or ceiling) of cell `pos` at texel `(tx, ty)`:
    /// full light when lighting is off, the cell's flat intensity when
    /// smoothing is off, else the corner quad blended at `(tx, 128 - ty)`.
    pub fn get_lighting_floor(&self, tx: u32, ty: u32, pos: usize) -> (r: u32)
        requires
            self.wf(),
            pos < self.map_size.0 * self.map_size.1,
            tx < TILE,
            ty < TILE,
        ensures
            r == self.floor_light(tx as int, ty as int, pos as int),
            r <= LIGHT_ONE,
    {
        if self.switch {
            if self.smooth_switch {
                let (tl, tr, bl, br) = get_vertices(pos, &self.vertices);
                assert(tl.lighting <= LIGHT_ONE && tr.lighting <= LIGHT_ONE);
                assert(bl.lighting <= LIGHT_ONE && br.lighting <= LIGHT_ONE);
                bilerp(tx, TILE - ty, [bl.lighting, br.lighting, tl.lighting, tr.lighting])
            } else {
                self.lighting[pos]
            }
        } else {
            LIGHT_ONE
        }
    }

    /// Light on a wall face of cell `pos` facing `orientation`, at texel
    /// `(tx, ty)`: full light when lighting is off, the facing cell's flat
    /// intensity when smoothing is off, else `wall_light_spec` over the facing
    /// cell's corner quad.
    pub fn get_lighting_wall(&self, tx: u32, ty: u32, pos: usize, orientation: &Orientation) -> (r: u32)
        requires
            self.wf(),
            0 <= facing_cell(pos as int, *orientation, self.map_size.0 as int) < self.map_size.0 * self.map_size.1,
            tx < TILE,
            ty < TILE,
        ensures
            r == self.wall_light(tx as int, ty as int, pos as int, *orientation),
            r <= LIGHT_ONE,
    {
        if !self.switch {
            return LIGHT_ONE;
        }
        let cells = self.lighting.len();
        let location = match orientation {
            Orientation::N => pos - self.map_size.0,
            Orientation::S => pos + self.map_size.0,
            Orientation::E => pos - 1,
            Orientation::W => pos + 1,
        };
        if !self.smooth_switch {
            return self.lighting[location];
        }
        let (tl, tr, bl, br) = get_vertices(location, &self.vertices);
        assert(tl.lighting <= LIGHT_ONE && tr.lighting <= LIGHT_ONE);
        assert(bl.lighting <= LIGHT_ONE && br.lighting <= LIGHT_ONE);
        let quad = [tl.lighting, tr.lighting, bl.lighting, br.lighting];
        let (a, b, c, d) = wall_corner_order(orientation);
        let (n0, n1, f0, f1) = (quad[a], quad[b], quad[c], quad[d]);
        let xs = match orientation {
            Orientation::N => TILE - tx,
            _ => tx,
        };
        proof {
            assert(self.quad(location as int) =~= seq![tl.lighting as int, tr.lighting as int, bl.lighting as int, br.lighting as int]);
        }
        if 3 * ty > 256 {
            bilerp(xs, 384 - 3 * ty, [f0, f1, n0, n1])
        } else if 3 * ty > 128 {
            lerp(xs, n0, n1)
        } else {
            bilerp(xs, 128 - 3 * ty, [n0, n1, f0, f1])
        }
    }
}

/// Two well-formed lights of one grid with the same cell intensities hold
/// the same corners: with `Lighting::new`'s own `ensures`, building the light
/// twice from the same torches and map gives the same light.
pub proof fn lemma_lighting_rebuild_same(a: &Lighting, b: &Lighting)
    requires
        a.wf(),
        b.wf(),
        a.map_size == b.map_size,
        a.lighting@ == b.lighting@,
    ensures
        a.vertices@ == b.vertices@,
{
    let (w, h) = (a.map_size.0 as int, a.map_size.1 as int);
    assert forall|i: int| 0 <= i < a.vertices@.len() implies a.vertices@[i] == b.vertices@[i] by {
        let p = i / 4;
        assert(0 <= p < w * h && 4 * p <= i < 4 * p + 4);
        assert(quad_ok(a.lighting@, w, h, a.vertices@, p));
        assert(quad_ok(b.lighting@, w, h, b.vertices@, p));
    }
    assert(a.vertices@ =~= b.vertices@);
}

/// The four corners stored for cell `pos`: top-left, top-right, bottom-left, bottom-right.
fn get_vertices(pos: usize, vertices: &Vec<Vertex>) -> (r: (Vertex, Vertex, Vertex, Vertex))
    requires
        4 * pos + 3 < vertices@.len(),
    ensures
        r.0 == vertices@[4 * pos],
        r.1 == vertices@[4 * pos + 1],
        r.2 == vertices@[4 * pos + 2],
        r.3 == vertices@[4 * pos + 3],
{
    let n = vertices.len();
    (vertices[pos * 4], vertices[pos * 4 + 1], vertices[pos * 4 + 2], vertices[pos * 4 + 3])
}

} // verus!
