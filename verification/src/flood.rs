use vstd::prelude::*;
use crate::index::{cell, lemma_cell_in_grid};
use crate::masks::Mask;

verus! {

/// `(x, y)` is a cell of the `w` by `h` grid.
pub open spec fn in_grid(w: int, h: int, x: int, y: int) -> bool {
    0 <= x < w && 0 <= y < h
}

/// `(ax, ay)` and `(bx, by)` are 4-neighbours.
pub open spec fn adjacent(ax: int, ay: int, bx: int, by: int) -> bool {
    (ax == bx && (ay == by + 1 || ay + 1 == by)) || (ay == by && (ax == bx + 1 || ax + 1 == bx))
}

/// `(x, y)` can be reached from the seed in at most `k` steps between 4-neighbouring
/// eligible cells of the grid, the seed itself being eligible.
pub open spec fn reach_within(
    elig: spec_fn(int, int) -> bool,
    w: int,
    h: int,
    sx: int,
    sy: int,
    k: nat,
    x: int,
    y: int,
) -> bool
    decreases k,
{
    if k == 0 {
        x == sx && y == sy && in_grid(w, h, sx, sy) && elig(sx, sy)
    } else {
        reach_within(elig, w, h, sx, sy, (k - 1) as nat, x, y) || (in_grid(w, h, x, y) && elig(x, y) && (
        reach_within(elig, w, h, sx, sy, (k - 1) as nat, x - 1, y) || reach_within(
            elig,
            w,
            h,
            sx,
            sy,
            (k - 1) as nat,
            x + 1,
            y,
        ) || reach_within(elig, w, h, sx, sy, (k - 1) as nat, x, y - 1) || reach_within(
            elig,
            w,
            h,
            sx,
            sy,
            (k - 1) as nat,
            x,
            y + 1,
        )))
    }
}

/// `(x, y)` is connected to the seed through 4-neighbouring eligible cells.
pub open spec fn reachable(elig: spec_fn(int, int) -> bool, w: int, h: int, sx: int, sy: int, x: int, y: int) -> bool {
    exists|k: nat| reach_within(elig, w, h, sx, sy, k, x, y)
}

/// Number of `false` entries.
pub open spec fn count_false(s: Seq<bool>) -> nat
    decreases s.len(),
{
    if s.len() == 0 {
        0
    } else {
        count_false(s.drop_last()) + if s.last() { 0nat } else { 1nat }
    }
}

pub proof fn lemma_count_false_update(s: Seq<bool>, i: int)
    requires
        0 <= i < s.len(),
        !s[i],
    ensures
        count_false(s.update(i, true)) + 1 == count_false(s),
    decreases s.len(),
{
    let t = s.update(i, true);
    if i == s.len() - 1 {
        assert(t.drop_last() =~= s.drop_last());
    } else {
        assert(t.drop_last() =~= s.drop_last().update(i, true));
        lemma_count_false_update(s.drop_last(), i);
    }
}

/// Any step count reaches only eligible grid cells.
pub proof fn lemma_reach_eligible(elig: spec_fn(int, int) -> bool, w: int, h: int, sx: int, sy: int, k: nat, x: int, y: int)
    requires
        reach_within(elig, w, h, sx, sy, k, x, y),
    ensures
        in_grid(w, h, x, y),
        elig(x, y),
    decreases k,
{
    if k > 0 && reach_within(elig, w, h, sx, sy, (k - 1) as nat, x, y) {
        lemma_reach_eligible(elig, w, h, sx, sy, (k - 1) as nat, x, y);
    }
}

/// A set of eligible cells that holds the seed and every eligible neighbour of its
/// members holds every reachable cell.
pub proof fn lemma_closed_holds_reachable(
    elig: spec_fn(int, int) -> bool,
    member: spec_fn(int, int) -> bool,
    w: int,
    h: int,
    sx: int,
    sy: int,
    k: nat,
    x: int,
    y: int,
)
    requires
        in_grid(w, h, sx, sy) && elig(sx, sy) ==> member(sx, sy),
        forall|ax: int, ay: int, bx: int, by: int|
            member(ax, ay) && in_grid(w, h, bx, by) && elig(bx, by) && adjacent(ax, ay, bx, by)
                ==> #[trigger] member(bx, by) || !#[trigger] member(ax, ay),
        reach_within(elig, w, h, sx, sy, k, x, y),
    ensures
        member(x, y),
    decreases k,
{
    if k > 0 {
        let k1 = (k - 1) as nat;
        if reach_within(elig, w, h, sx, sy, k1, x, y) {
            lemma_closed_holds_reachable(elig, member, w, h, sx, sy, k1, x, y);
        } else if reach_within(elig, w, h, sx, sy, k1, x - 1, y) {
            lemma_closed_holds_reachable(elig, member, w, h, sx, sy, k1, x - 1, y);
            assert(adjacent(x - 1, y, x, y));
        } else if reach_within(elig, w, h, sx, sy, k1, x + 1, y) {
            lemma_closed_holds_reachable(elig, member, w, h, sx, sy, k1, x + 1, y);
            assert(adjacent(x + 1, y, x, y));
        } else if reach_within(elig, w, h, sx, sy, k1, x, y - 1) {
            lemma_closed_holds_reachable(elig, member, w, h, sx, sy, k1, x, y - 1);
            assert(adjacent(x, y - 1, x, y));
        } else {
            lemma_closed_holds_reachable(elig, member, w, h, sx, sy, k1, x, y + 1);
            assert(adjacent(x, y + 1, x, y));
        }
    }
}

/// The non-zero cells of a mask, as a predicate on positions.
pub open spec fn nonzero(m: Mask) -> spec_fn(int, int) -> bool {
    |x: int, y: int| m.in_range(x, y) && m.at(x, y) != 0
}

/// Flood fill: marks the cells of the mask `eligible` connected to `(sx, sy)` through
/// 4-neighbouring non-zero cells (nothing when the seed cell is zero).
pub fn flood_region(eligible: &Mask, sx: u32, sy: u32) -> (out: Vec<bool>)
    requires
        eligible.wf(),
        sx < eligible.width,
        sy < eligible.height,
    ensures
        out@.len() == eligible.width * eligible.height,
        forall|x: int, y: int|
            eligible.in_range(x, y) ==> (#[trigger] out@[cell(eligible.width as int, x, y)] <==> reachable(
                nonzero(*eligible),
                eligible.width as int,
                eligible.height as int,
                sx as int,
                sy as int,
                x,
                y,
            )),
{
    let w = eligible.width;
    let h = eligible.height;
    let ghost elig = nonzero(*eligible);
    let ghost wi = w as int;
    let ghost hi = h as int;
    let n = (w as usize) * (h as usize);
    let mut seen: Vec<bool> = vec![false; n];
    let mut out: Vec<bool> = vec![false; n];
    let mut stack: Vec<(u32, u32)> = Vec::new();
    stack.push((sx, sy));
    proof {
        assert(seen@ =~= Seq::new(n as nat, |i: int| false));
        assert(out@ =~= Seq::new(n as nat, |i: int| false));
        assert forall|x: int, y: int| in_grid(wi, hi, x, y) implies !#[trigger] out@[cell(wi, x, y)] && !seen@[cell(
            wi,
            x,
            y,
        )] by {
            lemma_cell_in_grid(wi, hi, x, y);
        }
        assert(stack@[0] == (sx, sy));
    }
    loop
        invariant
            n == w * h,
            eligible.wf(),
            w == eligible.width,
            h == eligible.height,
            w * h <= u32::MAX,
            sx < w,
            sy < h,
            wi == w,
            hi == h,
            elig == nonzero(*eligible),
            seen@.len() == n,
            out@.len() == n,
            forall|i: int| 0 <= i < stack@.len() ==> #[trigger] stack@[i].0 < w && stack@[i].1 < h,
            forall|x: int, y: int|
                in_grid(wi, hi, x, y) ==> (#[trigger] out@[cell(wi, x, y)] <==> (seen@[cell(wi, x, y)]
                    && eligible.at(x, y) != 0)),
            forall|x: int, y: int|
                in_grid(wi, hi, x, y) && #[trigger] out@[cell(wi, x, y)] ==> reachable(
                    elig,
                    wi,
                    hi,
                    sx as int,
                    sy as int,
                    x,
                    y,
                ),
            forall|i: int|
                0 <= i < stack@.len() ==> #[trigger] stack_origin(stack@[i], out@, wi, hi, sx, sy),
            forall|ax: int, ay: int, bx: int, by: int|
                in_grid(wi, hi, ax, ay) && in_grid(wi, hi, bx, by) && adjacent(ax, ay, bx, by) && #[trigger] out@[cell(
                    wi,
                    ax,
                    ay,
                )] ==> #[trigger] seen@[cell(wi, bx, by)] || stack@.contains((bx as u32, by as u32)),
            seen@[cell(wi, sx as int, sy as int)] || stack@.contains((sx, sy)),
        ensures
            stack@.len() == 0,
            seen@.len() == n,
            out@.len() == n,
            forall|x: int, y: int|
                in_grid(wi, hi, x, y) ==> (#[trigger] out@[cell(wi, x, y)] <==> (seen@[cell(wi, x, y)]
                    && eligible.at(x, y) != 0)),
            forall|x: int, y: int|
                in_grid(wi, hi, x, y) && #[trigger] out@[cell(wi, x, y)] ==> reachable(
                    elig,
                    wi,
                    hi,
                    sx as int,
                    sy as int,
                    x,
                    y,
                ),
            forall|ax: int, ay: int, bx: int, by: int|
                in_grid(wi, hi, ax, ay) && in_grid(wi, hi, bx, by) && adjacent(ax, ay, bx, by) && #[trigger] out@[cell(
                    wi,
                    ax,
                    ay,
                )] ==> #[trigger] seen@[cell(wi, bx, by)],
            seen@[cell(wi, sx as int, sy as int)],
        decreases 5 * count_false(seen@) + stack@.len(),
    {
        let ghost prev = stack@;
        assert(forall|j: int| 0 <= j < prev.len() ==> #[trigger] prev[j].0 < w && prev[j].1 < h);
        let (x, y) = match stack.pop() {
            Some(p) => p,
            None => {
                break ;
            },
        };
        proof {
            assert(prev[prev.len() - 1] == (x, y));
            assert(stack@ =~= prev.drop_last());
            assert(x < w && y < h);
            lemma_cell_in_grid(wi, hi, x as int, y as int);
        }
        let i = (y * w + x) as usize;
        if seen[i] {
            proof {
                lemma_pop_keeps_others(prev, (x, y));
                lemma_frontier_kept(seen@, out@, seen@, out@, prev, stack@, wi, hi, sx, sy, x, y);
            }
            continue;
        }
        let ghost seen0 = seen@;
        let ghost out0 = out@;
        seen.set(i, true);
        proof {
            lemma_count_false_update(seen0, i as int);
        }
        if eligible.data[i] != 0 {
            out.set(i, true);
            proof {
                lemma_popped_reachable(elig, out0, prev, wi, hi, sx, sy, x, y);
            }
            let ghost base = stack@;
            push_neighbours(&mut stack, x, y, w, h);
            proof {
                assert forall|j: int| 0 <= j < stack@.len() implies #[trigger] stack@[j].0 < w && stack@[j].1 < h by {
                    if j < base.len() {
                        assert(stack@[j] == base[j]);
                        assert(base == prev.drop_last());
                        assert(base[j] == prev[j]);
                    }
                }
                assert forall|q: (u32, u32)| base.contains(q) implies stack@.contains(q) by {
                    let j = choose|j: int| 0 <= j < base.len() && base[j] == q;
                    assert(stack@[j] == q);
                }
            }
        } else {
            proof {
                assert forall|j: int| 0 <= j < stack@.len() implies #[trigger] stack@[j].0 < w && stack@[j].1 < h by {
                    assert(stack@ == prev.drop_last());
                    assert(j < prev.len() - 1);
                    assert(prev.drop_last()[j] == prev[j]);
                    assert(prev[j].0 < w && prev[j].1 < h);
                }
            }
        }
        proof {
            lemma_pop_keeps_others(prev, (x, y));
            if out@[cell(wi, x as int, y as int)] {
                assert forall|bx: int, by: int|
                    in_grid(wi, hi, bx, by) && adjacent(x as int, y as int, bx, by) implies stack@.contains(
                    (bx as u32, by as u32),
                ) by {
                }
            }
            assert forall|q: (u32, u32)| prev.contains(q) && q != (x, y) implies #[trigger] stack@.contains(q) by {
                assert(prev.drop_last().contains(q));
            }
            assert forall|cx: int, cy: int| in_grid(wi, hi, cx, cy) && (cx != x || cy != y) implies seen@[cell(wi, cx, cy)]
                == seen0[cell(wi, cx, cy)] && out@[cell(wi, cx, cy)] == out0[cell(wi, cx, cy)] by {
                lemma_cell_in_grid(wi, hi, cx, cy);
                if cell(wi, cx, cy) == cell(wi, x as int, y as int) {
                    crate::index::lemma_cell_injective(wi, cx, cy, x as int, y as int);
                }
            }
            assert forall|j: int| 0 <= j < prev.len() - 1 implies stack@.contains(#[trigger] prev[j]) by {
                assert(prev.drop_last()[j] == prev[j]);
                assert(stack@.subrange(0, prev.len() - 1) =~= prev.drop_last());
                assert(stack@[j] == prev[j]);
            }
            assert forall|j: int| 0 <= j < stack@.len() implies #[trigger] stack_origin(stack@[j], out@, wi, hi, sx, sy) by {
                if j < prev.len() - 1 {
                    assert(stack@[j] == prev[j]);
                    assert(stack_origin(prev[j], out0, wi, hi, sx, sy));
                    if stack@[j] != (sx, sy) {
                        let (qx, qy) = choose|qx: int, qy: int| in_grid(wi, hi, qx, qy) && out0[cell(wi, qx, qy)]
                            && adjacent(qx, qy, prev[j].0 as int, prev[j].1 as int);
                        lemma_cell_in_grid(wi, hi, qx, qy);
                        if qx != x || qy != y {
                            assert(out@[cell(wi, qx, qy)] == out0[cell(wi, qx, qy)]);
                        }
                    }
                } else {
                    assert(out@[cell(wi, x as int, y as int)]);
                    assert(adjacent(x as int, y as int, stack@[j].0 as int, stack@[j].1 as int));
                }
            }
            lemma_frontier_kept(seen0, out0, seen@, out@, prev, stack@, wi, hi, sx, sy, x, y);
        }
    }
    proof {
        let member = |a: int, b: int| in_grid(wi, hi, a, b) && out@[cell(wi, a, b)];
        assert forall|x: int, y: int| in_grid(wi, hi, x, y) implies (#[trigger] out@[cell(wi, x, y)] <==> reachable(
            elig,
            wi,
            hi,
            sx as int,
            sy as int,
            x,
            y,
        )) by {
            if reachable(elig, wi, hi, sx as int, sy as int, x, y) {
                let k = choose|k: nat| reach_within(elig, wi, hi, sx as int, sy as int, k, x, y);
                assert forall|ax: int, ay: int, bx: int, by: int|
                    member(ax, ay) && in_grid(wi, hi, bx, by) && elig(bx, by) && adjacent(ax, ay, bx, by)
                        implies #[trigger] member(bx, by) || !#[trigger] member(ax, ay) by {
                    assert(seen@[cell(wi, bx, by)]);
                }
                lemma_cell_in_grid(wi, hi, sx as int, sy as int);
                lemma_closed_holds_reachable(elig, member, wi, hi, sx as int, sy as int, k, x, y);
            }
        }
    }
    out
}

/// Pushes the 4-neighbours of `(x, y)` that lie in the `w` by `h` grid.
fn push_neighbours(stack: &mut Vec<(u32, u32)>, x: u32, y: u32, w: u32, h: u32)
    requires
        x < w,
        y < h,
    ensures
        old(stack)@.len() <= final(stack)@.len() <= old(stack)@.len() + 4,
        forall|j: int| 0 <= j < old(stack)@.len() ==> #[trigger] final(stack)@[j] == old(stack)@[j],
        forall|j: int|
            old(stack)@.len() <= j < final(stack)@.len() ==> #[trigger] final(stack)@[j].0 < w && final(stack)@[j].1
                < h && adjacent(x as int, y as int, final(stack)@[j].0 as int, final(stack)@[j].1 as int),
        forall|bx: int, by: int|
            in_grid(w as int, h as int, bx, by) && adjacent(x as int, y as int, bx, by) ==> final(stack)@.contains(
                (bx as u32, by as u32),
            ),
{
    let ghost s0 = stack@;
    if x > 0 {
        stack.push((x - 1, y));
    }
    let ghost s1 = stack@;
    if y > 0 {
        stack.push((x, y - 1));
    }
    let ghost s2 = stack@;
    if x + 1 < w {
        stack.push((x + 1, y));
    }
    let ghost s3 = stack@;
    if y + 1 < h {
        stack.push((x, y + 1));
    }
    proof {
        assert forall|bx: int, by: int|
            in_grid(w as int, h as int, bx, by) && adjacent(x as int, y as int, bx, by) implies stack@.contains(
            (bx as u32, by as u32),
        ) by {
            if bx == x - 1 && by == y {
                assert(stack@[s0.len() as int] == (bx as u32, by as u32));
            } else if bx == x && by == y - 1 {
                assert(stack@[s1.len() as int] == (bx as u32, by as u32));
            } else if bx == x + 1 && by == y {
                assert(stack@[s2.len() as int] == (bx as u32, by as u32));
            } else {
                assert(stack@[s3.len() as int] == (bx as u32, by as u32));
            }
        }
    }
}

/// A stack entry is the seed or a neighbour of a filled cell.
pub open spec fn stack_origin(e: (u32, u32), out: Seq<bool>, w: int, h: int, sx: u32, sy: u32) -> bool {
    e == (sx, sy) || exists|qx: int, qy: int|
        in_grid(w, h, qx, qy) && #[trigger] out[cell(w, qx, qy)] && adjacent(qx, qy, e.0 as int, e.1 as int)
}

/// After handling the popped entry `(x, y)`, every filled cell still has each neighbour
/// either seen or waiting on the stack, and so does the seed.
proof fn lemma_frontier_kept(
    seen0: Seq<bool>,
    out0: Seq<bool>,
    seen1: Seq<bool>,
    out1: Seq<bool>,
    prev: Seq<(u32, u32)>,
    stack: Seq<(u32, u32)>,
    w: int,
    h: int,
    sx: u32,
    sy: u32,
    x: u32,
    y: u32,
)
    requires
        prev.len() > 0,
        prev[prev.len() - 1] == (x, y),
        in_grid(w, h, x as int, y as int),
        seen1[cell(w, x as int, y as int)],
        forall|q: (u32, u32)| prev.contains(q) && q != (x, y) ==> #[trigger] stack.contains(q),
        forall|cx: int, cy: int|
            in_grid(w, h, cx, cy) && (cx != x || cy != y) ==> seen1[cell(w, cx, cy)] == seen0[cell(w, cx, cy)]
                && out1[cell(w, cx, cy)] == out0[cell(w, cx, cy)],
        w <= u32::MAX,
        h <= u32::MAX,
        out1[cell(w, x as int, y as int)] ==> out0[cell(w, x as int, y as int)] || forall|bx: int, by: int|
            in_grid(w, h, bx, by) && adjacent(x as int, y as int, bx, by) ==> stack.contains((bx as u32, by as u32)),
        out0[cell(w, x as int, y as int)] ==> out1[cell(w, x as int, y as int)],
        forall|ax: int, ay: int, bx: int, by: int|
            in_grid(w, h, ax, ay) && in_grid(w, h, bx, by) && adjacent(ax, ay, bx, by) && #[trigger] out0[cell(w, ax, ay)]
                ==> #[trigger] seen0[cell(w, bx, by)] || prev.contains((bx as u32, by as u32)),
        seen0[cell(w, sx as int, sy as int)] || prev.contains((sx, sy)),
        in_grid(w, h, sx as int, sy as int),
    ensures
        forall|ax: int, ay: int, bx: int, by: int|
            in_grid(w, h, ax, ay) && in_grid(w, h, bx, by) && adjacent(ax, ay, bx, by) && #[trigger] out1[cell(w, ax, ay)]
                ==> #[trigger] seen1[cell(w, bx, by)] || stack.contains((bx as u32, by as u32)),
        seen1[cell(w, sx as int, sy as int)] || stack.contains((sx, sy)),
{
    assert forall|ax: int, ay: int, bx: int, by: int|
        in_grid(w, h, ax, ay) && in_grid(w, h, bx, by) && adjacent(ax, ay, bx, by) && #[trigger] out1[cell(w, ax, ay)]
            implies #[trigger] seen1[cell(w, bx, by)] || stack.contains((bx as u32, by as u32)) by {
        if ax == x && ay == y && !out0[cell(w, ax, ay)] {
        } else {
            assert(out0[cell(w, ax, ay)]);
            if bx == x && by == y {
            } else {
                assert(seen1[cell(w, bx, by)] == seen0[cell(w, bx, by)]);
                if !seen0[cell(w, bx, by)] {
                    assert(prev.contains((bx as u32, by as u32)));
                    assert((bx as u32, by as u32) != (x, y));
                }
            }
        }
    }
    if sx == x && sy == y {
    } else {
        assert(seen1[cell(w, sx as int, sy as int)] == seen0[cell(w, sx as int, sy as int)]);
    }
}

proof fn lemma_pop_keeps_others(prev: Seq<(u32, u32)>, top: (u32, u32))
    requires
        prev.len() > 0,
        prev[prev.len() - 1] == top,
    ensures
        forall|q: (u32, u32)| prev.contains(q) && q != top ==> #[trigger] prev.drop_last().contains(q),
{
    assert forall|q: (u32, u32)| prev.contains(q) && q != top implies #[trigger] prev.drop_last().contains(q) by {
        let j = choose|j: int| 0 <= j < prev.len() && prev[j] == q;
        assert(j < prev.len() - 1);
        assert(prev.drop_last()[j] == q);
    }
}

/// A popped eligible entry is reachable.
proof fn lemma_popped_reachable(
    elig: spec_fn(int, int) -> bool,
    out0: Seq<bool>,
    prev: Seq<(u32, u32)>,
    w: int,
    h: int,
    sx: u32,
    sy: u32,
    x: u32,
    y: u32,
)
    requires
        prev.len() > 0,
        prev[prev.len() - 1] == (x, y),
        stack_origin((x, y), out0, w, h, sx, sy),
        in_grid(w, h, x as int, y as int),
        elig(x as int, y as int),
        forall|a: int, b: int| in_grid(w, h, a, b) && #[trigger] out0[cell(w, a, b)] ==> reachable(elig, w, h, sx as int, sy as int, a, b),
    ensures
        reachable(elig, w, h, sx as int, sy as int, x as int, y as int),
{
    if (x, y) == (sx, sy) {
        assert(reach_within(elig, w, h, sx as int, sy as int, 0, x as int, y as int));
    } else {
        let (qx, qy) = choose|qx: int, qy: int| in_grid(w, h, qx, qy) && #[trigger] out0[cell(w, qx, qy)] && adjacent(
            qx,
            qy,
            x as int,
            y as int,
        );
        let k = choose|k: nat| reach_within(elig, w, h, sx as int, sy as int, k, qx, qy);
        assert(reach_within(elig, w, h, sx as int, sy as int, k + 1, x as int, y as int));
    }
}

} // verus!
