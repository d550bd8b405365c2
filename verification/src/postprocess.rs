//! Deterministic whole-grid passes run once the walker has finished:
//! edge-bug repair, distance-based filling of open areas, corner-skip
//! synthesis and freeze-blob removal. Each pass classifies against a
//! frozen read of the grid and then applies its writes, so its result
//! does not depend on scan order.

use vstd::prelude::*;

use crate::block::{BlockType, Overwrite};
use crate::grid::{spec_in_rect, Grid};
use crate::position::{Position, ShiftDirection};

verus! {

/// The neighbor of `(x, y)` at offset `(dx, dy)` lies inside the grid
/// and holds a Hookable block.
pub open spec fn spec_hookable_nbr(g: Grid, x: int, y: int, dx: int, dy: int) -> bool {
    &&& -1 <= dx <= 1
    &&& -1 <= dy <= 1
    &&& !(dx == 0 && dy == 0)
    &&& 0 <= x + dx < g.spec_width()
    &&& 0 <= y + dy < g.spec_height()
    &&& g.block_at(x + dx, y + dy) == BlockType::Hookable
}

/// Whether any of the eight neighbors of `(x, y)` that lie inside the
/// grid holds a Hookable block.
pub open spec fn spec_has_hookable_neighbor(g: Grid, x: int, y: int) -> bool {
    exists|dx: int, dy: int| #[trigger] spec_hookable_nbr(g, x, y, dx, dy)
}

/// What the edge-bug fix leaves in cell `(x, y)`: an empty cell with a
/// Hookable neighbor becomes Freeze, everything else is untouched.
pub open spec fn spec_edge_fix_cell(g: Grid, x: int, y: int) -> BlockType {
    if g.block_at(x, y) == BlockType::Empty && spec_has_hookable_neighbor(g, x, y) {
        BlockType::Freeze
    } else {
        g.block_at(x, y)
    }
}

/// Whether cell `(x, y)` holds a Hookable block and lies inside the grid.
fn is_hookable_at(map: &Grid, x: usize, y: usize) -> (r: bool)
    requires
        map.wf(),
        x < map.spec_width(),
        y < map.spec_height(),
    ensures
        r == (map.block_at(x as int, y as int) == BlockType::Hookable),
{
    map.get_block(x, y) == BlockType::Hookable
}

/// Run-time mirror of [`spec_has_hookable_neighbor`]: checks the eight
/// neighborhood cells one by one.
fn has_hookable_neighbor(map: &Grid, x: usize, y: usize) -> (r: bool)
    requires
        map.wf(),
        x < map.spec_width(),
        y < map.spec_height(),
    ensures
        r == spec_has_hookable_neighbor(*map, x as int, y as int),
{
    let w = map.width();
    let h = map.height();
    let ghost xi = x as int;
    let ghost yi = y as int;
    let mut found = false;
    if x >= 1 && y >= 1 && is_hookable_at(map, x - 1, y - 1) {
        proof {
            assert(spec_hookable_nbr(*map, xi, yi, -1, -1));
        }
        found = true;
    }
    if x >= 1 && is_hookable_at(map, x - 1, y) {
        proof {
            assert(spec_hookable_nbr(*map, xi, yi, -1, 0));
        }
        found = true;
    }
    if x >= 1 && y + 1 < h && is_hookable_at(map, x - 1, y + 1) {
        proof {
            assert(spec_hookable_nbr(*map, xi, yi, -1, 1));
        }
        found = true;
    }
    if y >= 1 && is_hookable_at(map, x, y - 1) {
        proof {
            assert(spec_hookable_nbr(*map, xi, yi, 0, -1));
        }
        found = true;
    }
    if y + 1 < h && is_hookable_at(map, x, y + 1) {
        proof {
            assert(spec_hookable_nbr(*map, xi, yi, 0, 1));
        }
        found = true;
    }
    if x + 1 < w && y >= 1 && is_hookable_at(map, x + 1, y - 1) {
        proof {
            assert(spec_hookable_nbr(*map, xi, yi, 1, -1));
        }
        found = true;
    }
    if x + 1 < w && is_hookable_at(map, x + 1, y) {
        proof {
            assert(spec_hookable_nbr(*map, xi, yi, 1, 0));
        }
        found = true;
    }
    if x + 1 < w && y + 1 < h && is_hookable_at(map, x + 1, y + 1) {
        proof {
            assert(spec_hookable_nbr(*map, xi, yi, 1, 1));
        }
        found = true;
    }
    found
}

/// Repairs every edge bug: each empty cell that touches a Hookable block
/// anywhere in its 3-by-3 neighborhood becomes Freeze, which guarantees a
/// one-cell freeze buffer around every solid region no matter which
/// kernel shapes produced it. Classification runs against the grid as it
/// was before the pass; the returned mask flags exactly the repaired
/// cells.
pub fn fix_edge_bugs(map: &mut Grid) -> (mask: Vec<Vec<bool>>)
    requires
        old(map).wf(),
    ensures
        final(map).wf(),
        final(map).same_shape(old(map)),
        forall|x: int, y: int|
            0 <= x < old(map).spec_width() && 0 <= y < old(map).spec_height()
                ==> #[trigger] final(map).block_at(x, y) == spec_edge_fix_cell(*old(map), x, y),
        mask@.len() == old(map).spec_width(),
        forall|x: int| 0 <= x < mask@.len() ==> (#[trigger] mask@[x])@.len() == old(
            map,
        ).spec_height(),
        forall|x: int, y: int|
            0 <= x < old(map).spec_width() && 0 <= y < old(map).spec_height()
                ==> (#[trigger] mask@[x]@[y]) == (old(map).block_at(x, y) == BlockType::Empty
                && spec_has_hookable_neighbor(*old(map), x, y)),
        forall|cx: int, cy: int|
            0 <= cx < crate::grid::spec_num_chunks(old(map).spec_width()) && 0 <= cy
                < crate::grid::spec_num_chunks(old(map).spec_height()) && old(map).chunk_at(cx, cy)
                ==> #[trigger] final(map).chunk_at(cx, cy),
{
    let w = map.width();
    let h = map.height();
    let ghost g0 = *map;

    // Classify against the frozen grid.
    let mut mask: Vec<Vec<bool>> = Vec::new();
    let mut x: usize = 0;
    while x < w
        invariant
            x <= w,
            map.wf(),
            *map == g0,
            w == g0.spec_width(),
            h == g0.spec_height(),
            mask@.len() == x,
            forall|xi: int| 0 <= xi < x ==> (#[trigger] mask@[xi])@.len() == h,
            forall|xi: int, yi: int|
                0 <= xi < x && 0 <= yi < h ==> (#[trigger] mask@[xi]@[yi]) == (g0.block_at(xi, yi)
                    == BlockType::Empty && spec_has_hookable_neighbor(g0, xi, yi)),
        decreases w - x,
    {
        let mut col: Vec<bool> = Vec::new();
        let mut y: usize = 0;
        while y < h
            invariant
                y <= h,
                x < w,
                map.wf(),
                *map == g0,
                w == g0.spec_width(),
                h == g0.spec_height(),
                col@.len() == y,
                forall|yi: int|
                    0 <= yi < y ==> (#[trigger] col@[yi]) == (g0.block_at(x as int, yi)
                        == BlockType::Empty && spec_has_hookable_neighbor(g0, x as int, yi)),
            decreases h - y,
        {
            let flagged = map.get_block(x, y) == BlockType::Empty && has_hookable_neighbor(map, x,
                y);
            col.push(flagged);
            y = y + 1;
        }
        mask.push(col);
        x = x + 1;
    }

    // Apply the classification.
    let mut x: usize = 0;
    while x < w
        invariant
            x <= w,
            map.wf(),
            map.same_shape(&g0),
            g0.wf(),
            w == g0.spec_width(),
            h == g0.spec_height(),
            mask@.len() == w,
            forall|xi: int| 0 <= xi < w ==> (#[trigger] mask@[xi])@.len() == h,
            forall|xi: int, yi: int|
                0 <= xi < w && 0 <= yi < h ==> (#[trigger] mask@[xi]@[yi]) == (g0.block_at(xi, yi)
                    == BlockType::Empty && spec_has_hookable_neighbor(g0, xi, yi)),
            forall|xi: int, yi: int|
                0 <= xi < w && 0 <= yi < h && xi < x ==> #[trigger] map.block_at(xi, yi)
                    == spec_edge_fix_cell(g0, xi, yi),
            forall|xi: int, yi: int|
                0 <= xi < w && 0 <= yi < h && xi >= x ==> #[trigger] map.block_at(xi, yi)
                    == g0.block_at(xi, yi),
            forall|cx: int, cy: int|
                0 <= cx < crate::grid::spec_num_chunks(g0.spec_width()) && 0 <= cy
                    < crate::grid::spec_num_chunks(g0.spec_height()) && g0.chunk_at(cx, cy)
                    ==> #[trigger] map.chunk_at(cx, cy),
        decreases w - x,
    {
        let mut y: usize = 0;
        while y < h
            invariant
                y <= h,
                x < w,
                map.wf(),
                map.same_shape(&g0),
                g0.wf(),
                w == g0.spec_width(),
                h == g0.spec_height(),
                mask@.len() == w,
                forall|xi: int| 0 <= xi < w ==> (#[trigger] mask@[xi])@.len() == h,
                forall|xi: int, yi: int|
                    0 <= xi < w && 0 <= yi < h ==> (#[trigger] mask@[xi]@[yi]) == (g0.block_at(
                        xi,
                        yi,
                    ) == BlockType::Empty && spec_has_hookable_neighbor(g0, xi, yi)),
                forall|xi: int, yi: int|
                    0 <= xi < w && 0 <= yi < h && (xi < x || (xi == x && yi < y))
                        ==> #[trigger] map.block_at(xi, yi) == spec_edge_fix_cell(g0, xi, yi),
                forall|xi: int, yi: int|
                    0 <= xi < w && 0 <= yi < h && (xi > x || (xi == x && yi >= y))
                        ==> #[trigger] map.block_at(xi, yi) == g0.block_at(xi, yi),
                forall|cx: int, cy: int|
                    0 <= cx < crate::grid::spec_num_chunks(g0.spec_width()) && 0 <= cy
                        < crate::grid::spec_num_chunks(g0.spec_height()) && g0.chunk_at(cx, cy)
                        ==> #[trigger] map.chunk_at(cx, cy),
            decreases h - y,
        {
            if mask[x][y] {
                map.set_block_and_mark(x, y, BlockType::Freeze);
            }
            y = y + 1;
        }
        x = x + 1;
    }
    mask
}

/// Squared Euclidean distance between cells `(x, y)` and `(u, v)`.
pub open spec fn spec_pair_dist_sqr(x: int, y: int, u: int, v: int) -> int {
    (x - u) * (x - u) + (y - v) * (y - v)
}

/// Cell `(u, v)` is inside the grid, non-empty, and within squared
/// distance `t` of `(x, y)`.
pub open spec fn spec_solid_at(g: Grid, x: int, y: int, u: int, v: int, t: int) -> bool {
    &&& 0 <= u < g.spec_width()
    &&& 0 <= v < g.spec_height()
    &&& g.block_at(u, v) != BlockType::Empty
    &&& spec_pair_dist_sqr(x, y, u, v) <= t
}

/// Some non-empty cell lies within squared distance `t` of `(x, y)`.
pub open spec fn spec_solid_within(g: Grid, x: int, y: int, t: int) -> bool {
    exists|u: int, v: int| #[trigger] spec_solid_at(g, x, y, u, v, t)
}

/// `r` is the integer square root of `n`.
pub open spec fn spec_is_isqrt(r: int, n: int) -> bool {
    r >= 0 && r * r <= n && n < (r + 1) * (r + 1)
}

/// A non-empty cell within a smaller radius is within every larger one.
pub proof fn lemma_solid_within_monotone(g: Grid, x: int, y: int, t1: int, t2: int)
    requires
        t1 <= t2,
        spec_solid_within(g, x, y, t1),
    ensures
        spec_solid_within(g, x, y, t2),
{
    let (u, v) = choose|u: int, v: int| spec_solid_at(g, x, y, u, v, t1);
    assert(spec_solid_at(g, x, y, u, v, t2));
}

/// Integer square root by upward search; `n` is kept small enough that
/// the squares never overflow.
fn isqrt(n: usize) -> (r: usize)
    requires
        n <= 0x3FFF_FFFF,
    ensures
        spec_is_isqrt(r as int, n as int),
        r <= 0x7FFF,
{
    let mut r: usize = 0;
    while crate::kernel::sq(r + 1) <= n
        invariant
            n <= 0x3FFF_FFFF,
            r <= 0x7FFF,
            r * r <= n,
        decreases n - r * r,
    {
        proof {
            assert((r + 1) * (r + 1) <= 0x3FFF_FFFF ==> r + 1 <= 0x7FFF) by (nonlinear_arith);
            assert(r * r < (r + 1) * (r + 1)) by (nonlinear_arith)
                requires
                    r >= 0,
            ;
        }
        r = r + 1;
    }
    r
}

/// The smallest squared distance from `(x, y)` to a non-empty cell,
/// capped at `cap + 1`: the scan covers the window of half-width
/// `radius`, the integer square root of `cap`, which contains every cell
/// within squared distance `cap`.
fn nearest_solid_capped(map: &Grid, x: usize, y: usize, cap: usize, radius: usize) -> (best: usize)
    requires
        map.wf(),
        x < map.spec_width(),
        y < map.spec_height(),
        spec_is_isqrt(radius as int, cap as int),
        radius <= 0x7FFF,
        cap <= 0x3FFF_FFFF,
    ensures
        best <= cap + 1,
        best <= cap ==> spec_solid_within(*map, x as int, y as int, best as int),
        !spec_solid_within(
            *map,
            x as int,
            y as int,
            (if best <= cap {
                best - 1
            } else {
                cap as int
            }),
        ),
{
    let w = map.width();
    let h = map.height();
    let u0: usize = if x >= radius {
        x - radius
    } else {
        0
    };
    let u1: usize = if x + radius < w {
        x + radius
    } else {
        w - 1
    };
    let v0: usize = if y >= radius {
        y - radius
    } else {
        0
    };
    let v1: usize = if y + radius < h {
        y + radius
    } else {
        h - 1
    };
    let ghost xi = x as int;
    let ghost yi = y as int;

    let mut best: usize = cap + 1;
    let mut u = u0;
    while u <= u1
        invariant
            map.wf(),
            x < map.spec_width(),
            y < map.spec_height(),
            u1 < map.spec_width(),
            v1 < map.spec_height(),
            u0 <= u,
            u <= u1 + 1 || u == u0,
            u0 == (if x >= radius {
                x - radius
            } else {
                0
            }),
            u1 == (if x + radius < map.spec_width() {
                x + radius
            } else {
                map.spec_width() - 1
            }),
            v0 == (if y >= radius {
                y - radius
            } else {
                0
            }),
            v1 == (if y + radius < map.spec_height() {
                y + radius
            } else {
                map.spec_height() - 1
            }),
            xi == x as int,
            yi == y as int,
            spec_is_isqrt(radius as int, cap as int),
            cap <= 0x3FFF_FFFF,
            best <= cap + 1,
            best <= cap ==> spec_solid_within(*map, xi, yi, best as int),
            forall|ui: int, vi: int|
                u0 <= ui <= u1 && v0 <= vi <= v1 && ui < u && map.block_at(ui, vi)
                    != BlockType::Empty ==> #[trigger] spec_pair_dist_sqr(xi, yi, ui, vi)
                    >= best,
        decreases u1 + 1 - u,
    {
        let mut v = v0;
        while v <= v1
            invariant
                map.wf(),
                x < map.spec_width(),
                y < map.spec_height(),
                u0 <= u <= u1,
                u1 < map.spec_width(),
                v1 < map.spec_height(),
                v0 <= v,
                v <= v1 + 1 || v == v0,
                xi == x as int,
                yi == y as int,
                spec_is_isqrt(radius as int, cap as int),
                cap <= 0x3FFF_FFFF,
                best <= cap + 1,
                best <= cap ==> spec_solid_within(*map, xi, yi, best as int),
                forall|ui: int, vi: int|
                    u0 <= ui <= u1 && v0 <= vi <= v1 && (ui < u || (ui == u && vi < v))
                        && map.block_at(ui, vi) != BlockType::Empty
                        ==> #[trigger] spec_pair_dist_sqr(xi, yi, ui, vi) >= best,
            decreases v1 + 1 - v,
        {
            let b = map.get_block(u, v);
            if b != BlockType::Empty {
                let du: usize = if x >= u {
                    x - u
                } else {
                    u - x
                };
                let dv: usize = if y >= v {
                    y - v
                } else {
                    v - y
                };
                let d = crate::kernel::sq(du) + crate::kernel::sq(dv);
                proof {
                    assert(d == spec_pair_dist_sqr(xi, yi, u as int, v as int))
                        by (nonlinear_arith)
                        requires
                            d == du * du + dv * dv,
                            du == (if xi >= u as int {
                                xi - u
                            } else {
                                u - xi
                            }),
                            dv == (if yi >= v as int {
                                yi - v
                            } else {
                                v - yi
                            }),
                    ;
                }
                if d < best {
                    best = d;
                    proof {
                        assert(spec_solid_at(*map, xi, yi, u as int, v as int, best as int));
                    }
                }
            }
            v = v + 1;
        }
        u = u + 1;
    }

    proof {
        let limit: int = if best <= cap {
            best - 1
        } else {
            cap as int
        };
        if spec_solid_within(*map, xi, yi, limit) {
            let (ui, vi) = choose|ui: int, vi: int| spec_solid_at(*map, xi, yi, ui, vi, limit);
            // The witness is within `cap`, hence within the scanned window.
            assert(spec_pair_dist_sqr(xi, yi, ui, vi) <= cap);
            assert(u0 <= ui <= u1 && v0 <= vi <= v1) by {
                assert((xi - ui) * (xi - ui) >= 0) by (nonlinear_arith);
                assert((yi - vi) * (yi - vi) >= 0) by (nonlinear_arith);
                assert((xi - ui) * (xi - ui) <= cap);
                assert((yi - vi) * (yi - vi) <= cap);
                lemma_coord_within_radius(xi, ui, radius as int, cap as int);
                lemma_coord_within_radius(yi, vi, radius as int, cap as int);
            }
            assert(spec_pair_dist_sqr(xi, yi, ui, vi) >= best);
        }
    }
    best
}

/// A coordinate whose squared offset is within `cap` lies within
/// `radius`, the integer square root of `cap`, of the center.
proof fn lemma_coord_within_radius(x: int, u: int, radius: int, cap: int)
    requires
        spec_is_isqrt(radius, cap),
        (x - u) * (x - u) <= cap,
    ensures
        x - radius <= u <= x + radius,
{
    assert(x - radius <= u <= x + radius) by (nonlinear_arith)
        requires
            radius >= 0,
            cap < (radius + 1) * (radius + 1),
            (x - u) * (x - u) <= cap,
    ;
}

/// The integer square root of `n`, as a specification value.
pub open spec fn spec_isqrt_of(n: int) -> int {
    choose|r: int| spec_is_isqrt(r, n)
}

/// Integer square roots are unique, so any witness pins `spec_isqrt_of`.
pub proof fn lemma_isqrt_unique(r: int, n: int)
    requires
        spec_is_isqrt(r, n),
    ensures
        spec_isqrt_of(n) == r,
{
    assert(exists|c: int| spec_is_isqrt(c, n)) by {
        assert(spec_is_isqrt(r, n));
    }
    let c = spec_isqrt_of(n);
    assert(spec_is_isqrt(c, n));
    assert(c == r) by (nonlinear_arith)
        requires
            c >= 0,
            c * c <= n,
            n < (c + 1) * (c + 1),
            r >= 0,
            r * r <= n,
            n < (r + 1) * (r + 1),
    ;
}

/// The squared-distance bound above which an empty cell turns Hookable:
/// the integer form of `(max_distance + sqrt(2))^2`, so that comparing a
/// squared cell distance against it decides `distance > max_distance +
/// sqrt(2)` exactly.
pub open spec fn spec_fill_hi(m: int) -> int {
    m * m + 2 + spec_isqrt_of(8 * (m * m))
}

/// What the distance fill leaves in cell `(x, y)`: non-empty cells are
/// untouched; an empty cell keeps its value when a non-empty cell lies
/// within distance `m`, becomes Freeze when one lies within `m +
/// sqrt(2)`, and becomes Hookable when open space stretches farther.
pub open spec fn spec_fill_cell(g: Grid, m: int, x: int, y: int) -> BlockType {
    let b = g.block_at(x, y);
    if b != BlockType::Empty {
        b
    } else if spec_solid_within(g, x, y, m * m) {
        BlockType::Empty
    } else if spec_solid_within(g, x, y, spec_fill_hi(m)) {
        BlockType::Freeze
    } else {
        BlockType::Hookable
    }
}

/// Fills overly open areas: every empty cell farther than `max_distance +
/// sqrt(2)` from the nearest non-empty cell becomes Hookable, empty cells
/// between `max_distance` and that bound become Freeze, and closer cells
/// stay untouched, so no playable empty expanse stretches farther than
/// `max_distance` from solid ground. Distances are compared in squared
/// integer form against the grid as it was before the pass.
pub fn fill_open_areas(map: &mut Grid, max_distance: usize)
    requires
        old(map).wf(),
        max_distance <= 8192,
    ensures
        final(map).wf(),
        final(map).same_shape(old(map)),
        forall|x: int, y: int|
            0 <= x < old(map).spec_width() && 0 <= y < old(map).spec_height()
                ==> #[trigger] final(map).block_at(x, y) == spec_fill_cell(
                *old(map),
                max_distance as int,
                x,
                y,
            ),
        forall|x: int, y: int|
            0 <= x < old(map).spec_width() && 0 <= y < old(map).spec_height() && old(map).block_at(
                x,
                y,
            ) != BlockType::Empty ==> #[trigger] final(map).block_at(x, y) == old(map).block_at(
                x,
                y,
            ),
        forall|x: int, y: int|
            0 <= x < old(map).spec_width() && 0 <= y < old(map).spec_height()
                && #[trigger] final(map).block_at(x, y) == BlockType::Empty ==> old(map).block_at(
                x,
                y,
            ) == BlockType::Empty && spec_solid_within(*old(map), x, y, (max_distance
                * max_distance) as int),
        forall|cx: int, cy: int|
            0 <= cx < crate::grid::spec_num_chunks(old(map).spec_width()) && 0 <= cy
                < crate::grid::spec_num_chunks(old(map).spec_height()) && old(map).chunk_at(cx, cy)
                ==> #[trigger] final(map).chunk_at(cx, cy),
{
    let w = map.width();
    let h = map.height();
    let ghost g0 = *map;
    let ghost m = max_distance as int;

    let m2 = crate::kernel::sq(max_distance);
    proof {
        // With the distance capped at 8192 cells, eight times its square
        // still fits the threshold arithmetic on every target.
        assert(m2 <= 0x0400_0000) by (nonlinear_arith)
            requires
                m2 == m * m,
                0 <= m <= 8192,
        ;
    }
    let r8 = isqrt(8 * m2);
    let hi = m2 + 2 + r8;
    let radius_hi = isqrt(hi);
    proof {
        lemma_isqrt_unique(r8 as int, 8 * (m * m));
        assert(hi == spec_fill_hi(m));
    }

    // Classify every cell against the frozen grid.
    let mut target: Vec<Vec<BlockType>> = Vec::new();
    let mut x: usize = 0;
    while x < w
        invariant
            x <= w,
            map.wf(),
            *map == g0,
            w == g0.spec_width(),
            h == g0.spec_height(),
            m == max_distance as int,
            max_distance <= 8192,
            m2 == m * m,
            m2 + 2 <= hi,
            hi == spec_fill_hi(m),
            hi <= 0x3FFF_FFFF,
            spec_is_isqrt(radius_hi as int, hi as int),
            radius_hi <= 0x7FFF,
            target@.len() == x,
            forall|xi: int| 0 <= xi < x ==> (#[trigger] target@[xi])@.len() == h,
            forall|xi: int, yi: int|
                0 <= xi < x && 0 <= yi < h ==> (#[trigger] target@[xi]@[yi]) == spec_fill_cell(
                    g0,
                    m,
                    xi,
                    yi,
                ),
        decreases w - x,
    {
        let mut col: Vec<BlockType> = Vec::new();
        let mut y: usize = 0;
        while y < h
            invariant
                y <= h,
                x < w,
                map.wf(),
                *map == g0,
                w == g0.spec_width(),
                h == g0.spec_height(),
                m == max_distance as int,
                max_distance <= 8192,
                m2 == m * m,
                m2 + 2 <= hi,
                hi == spec_fill_hi(m),
                hi <= 0x3FFF_FFFF,
                spec_is_isqrt(radius_hi as int, hi as int),
                radius_hi <= 0x7FFF,
                col@.len() == y,
                forall|yi: int|
                    0 <= yi < y ==> (#[trigger] col@[yi]) == spec_fill_cell(g0, m, x as int, yi),
            decreases h - y,
        {
            let b = map.get_block(x, y);
            let cell: BlockType = if b != BlockType::Empty {
                b
            } else {
                let best = nearest_solid_capped(map, x, y, hi, radius_hi);
                if best <= m2 {
                    proof {
                        lemma_solid_within_monotone(g0, x as int, y as int, best as int, m2 as int);
                    }
                    BlockType::Empty
                } else {
                    proof {
                        if spec_solid_within(g0, x as int, y as int, m2 as int) {
                            lemma_solid_within_monotone(g0, x as int, y as int, m2 as int, (
                            if best <= hi {
                                best - 1
                            } else {
                                hi as int
                            }));
                        }
                    }
                    if best <= hi {
                        proof {
                            lemma_solid_within_monotone(g0, x as int, y as int, best as int,
                                hi as int);
                        }
                        BlockType::Freeze
                    } else {
                        BlockType::Hookable
                    }
                }
            };
            col.push(cell);
            y = y + 1;
        }
        target.push(col);
        x = x + 1;
    }

    // Apply the classification.
    let mut x: usize = 0;
    while x < w
        invariant
            x <= w,
            map.wf(),
            map.same_shape(&g0),
            g0.wf(),
            w == g0.spec_width(),
            h == g0.spec_height(),
            m == max_distance as int,
            target@.len() == w,
            forall|xi: int| 0 <= xi < w ==> (#[trigger] target@[xi])@.len() == h,
            forall|xi: int, yi: int|
                0 <= xi < w && 0 <= yi < h ==> (#[trigger] target@[xi]@[yi]) == spec_fill_cell(
                    g0,
                    m,
                    xi,
                    yi,
                ),
            forall|xi: int, yi: int|
                0 <= xi < w && 0 <= yi < h && xi < x ==> #[trigger] map.block_at(xi, yi)
                    == spec_fill_cell(g0, m, xi, yi),
            forall|xi: int, yi: int|
                0 <= xi < w && 0 <= yi < h && xi >= x ==> #[trigger] map.block_at(xi, yi)
                    == g0.block_at(xi, yi),
            forall|cx: int, cy: int|
                0 <= cx < crate::grid::spec_num_chunks(g0.spec_width()) && 0 <= cy
                    < crate::grid::spec_num_chunks(g0.spec_height()) && g0.chunk_at(cx, cy)
                    ==> #[trigger] map.chunk_at(cx, cy),
        decreases w - x,
    {
        let mut y: usize = 0;
        while y < h
            invariant
                y <= h,
                x < w,
                map.wf(),
                map.same_shape(&g0),
                g0.wf(),
                w == g0.spec_width(),
                h == g0.spec_height(),
                m == max_distance as int,
                target@.len() == w,
                forall|xi: int| 0 <= xi < w ==> (#[trigger] target@[xi])@.len() == h,
                forall|xi: int, yi: int|
                    0 <= xi < w && 0 <= yi < h ==> (#[trigger] target@[xi]@[yi]) == spec_fill_cell(
                        g0,
                        m,
                        xi,
                        yi,
                    ),
                forall|xi: int, yi: int|
                    0 <= xi < w && 0 <= yi < h && (xi < x || (xi == x && yi < y))
                        ==> #[trigger] map.block_at(xi, yi) == spec_fill_cell(g0, m, xi, yi),
                forall|xi: int, yi: int|
                    0 <= xi < w && 0 <= yi < h && (xi > x || (xi == x && yi >= y))
                        ==> #[trigger] map.block_at(xi, yi) == g0.block_at(xi, yi),
                forall|cx: int, cy: int|
                    0 <= cx < crate::grid::spec_num_chunks(g0.spec_width()) && 0 <= cy
                        < crate::grid::spec_num_chunks(g0.spec_height()) && g0.chunk_at(cx, cy)
                        ==> #[trigger] map.chunk_at(cx, cy),
            decreases h - y,
        {
            let cell = target[x][y];
            if map.get_block(x, y) != cell {
                map.set_block_and_mark(x, y, cell);
            }
            y = y + 1;
        }
        x = x + 1;
    }
}

/// One accepted shortcut: where it starts, where it ends, the direction
/// it runs in, and how many cells it spans.
#[derive(Clone, Copy, Debug, PartialEq, Eq, Structural)]
pub struct Skip {
    pub start: Position,
    pub end: Position,
    pub shift: ShiftDirection,
    pub length: usize,
}

/// Where one step in `dir` from `pos` lands, in unbounded integers.
pub open spec fn spec_step_target(pos: Position, dir: ShiftDirection) -> (int, int) {
    match dir {
        ShiftDirection::Up => (pos.x as int, pos.y - 1),
        ShiftDirection::Right => (pos.x + 1, pos.y as int),
        ShiftDirection::Down => (pos.x as int, pos.y + 1),
        ShiftDirection::Left => (pos.x - 1, pos.y as int),
    }
}

/// The acceptance automaton of the skip scan: stages 0 and 1 want
/// Freeze, 1 and 2 want Hookable, 2 and 3 want Freeze again, and stage 3
/// accepts on Empty; anything else aborts (stage -1).
pub open spec fn spec_stage_next(stage: int, b: BlockType) -> int {
    if (stage == 0 || stage == 1) && b == BlockType::Freeze {
        1
    } else if (stage == 1 || stage == 2) && b == BlockType::Hookable {
        2
    } else if (stage == 2 || stage == 3) && b == BlockType::Freeze {
        3
    } else if stage == 3 && b == BlockType::Empty {
        4
    } else {
        -1
    }
}

/// The skip scan from an intermediate state: walks in `dir`, feeding each
/// visited block to the acceptance automaton, until it accepts, aborts,
/// leaves the grid, or exceeds `max_len` steps; an accepted walk of at
/// least `min_len` steps yields the end position and length.
pub open spec fn spec_skip_scan(
    g: Grid,
    pos: Position,
    dir: ShiftDirection,
    stage: int,
    len: int,
    min_len: int,
    max_len: int,
) -> Option<(Position, int)>
    decreases max_len - len,
{
    if stage == 4 {
        if len >= min_len {
            Some((pos, len))
        } else {
            None
        }
    } else if len >= max_len {
        None
    } else {
        let (tx, ty) = spec_step_target(pos, dir);
        if !(0 <= tx < g.spec_width() && 0 <= ty < g.spec_height()) {
            None
        } else {
            let ns = spec_stage_next(stage, g.block_at(tx, ty));
            if ns == -1 {
                None
            } else {
                spec_skip_scan(
                    g,
                    Position { x: tx as usize, y: ty as usize },
                    dir,
                    ns,
                    len + 1,
                    min_len,
                    max_len,
                )
            }
        }
    }
}

/// An accepted scan runs in a straight line: the end position differs
/// from the start only along the scan direction, by exactly the number of
/// steps taken, and lies inside the grid.
pub proof fn lemma_skip_scan_straight(
    g: Grid,
    pos: Position,
    dir: ShiftDirection,
    stage: int,
    len: int,
    min_len: int,
    max_len: int,
)
    requires
        g.wf(),
        spec_skip_scan(g, pos, dir, stage, len, min_len, max_len) is Some,
        pos.x < g.spec_width(),
        pos.y < g.spec_height(),
    ensures
        ({
            let (p, l) = spec_skip_scan(g, pos, dir, stage, len, min_len, max_len).unwrap();
            &&& p.x < g.spec_width()
            &&& p.y < g.spec_height()
            &&& l >= len
            &&& match dir {
                ShiftDirection::Up => p.x == pos.x && p.y == pos.y - (l - len),
                ShiftDirection::Right => p.y == pos.y && p.x == pos.x + (l - len),
                ShiftDirection::Down => p.x == pos.x && p.y == pos.y + (l - len),
                ShiftDirection::Left => p.y == pos.y && p.x == pos.x - (l - len),
            }
        }),
    decreases max_len - len,
{
    if stage == 4 {
    } else if len >= max_len {
    } else {
        let (tx, ty) = spec_step_target(pos, dir);
        if 0 <= tx < g.spec_width() && 0 <= ty < g.spec_height() {
            let ns = spec_stage_next(stage, g.block_at(tx, ty));
            if ns != -1 {
                let next = Position { x: tx as usize, y: ty as usize };
                assert(next.x == tx && next.y == ty);
                assert(spec_skip_scan(g, pos, dir, stage, len, min_len, max_len)
                    == spec_skip_scan(g, next, dir, ns, len + 1, min_len, max_len));
                lemma_skip_scan_straight(g, next, dir, ns, len + 1, min_len, max_len);
                let (p, l) = spec_skip_scan(g, next, dir, ns, len + 1, min_len, max_len).unwrap();
                match dir {
                    ShiftDirection::Up => {
                        assert(next.x == pos.x && next.y == pos.y - 1);
                        assert(p.x == pos.x && p.y == pos.y - (l - len));
                    },
                    ShiftDirection::Right => {
                        assert(next.y == pos.y && next.x == pos.x + 1);
                        assert(p.y == pos.y && p.x == pos.x + (l - len));
                    },
                    ShiftDirection::Down => {
                        assert(next.x == pos.x && next.y == pos.y + 1);
                        assert(p.x == pos.x && p.y == pos.y + (l - len));
                    },
                    ShiftDirection::Left => {
                        assert(next.y == pos.y && next.x == pos.x - 1);
                        assert(p.y == pos.y && p.x == pos.x - (l - len));
                    },
                }
            }
        }
    }
}

/// Walks from a corner candidate through the freeze wall and reports the
/// accepting end position and length, if the staged sequence matches
/// within the closed `[min, max]` length bounds.
pub fn check_corner_skip(
    map: &Grid,
    init_pos: &Position,
    shift: &ShiftDirection,
    tunnel_bounds: (usize, usize),
) -> (r: Option<(Position, usize)>)
    requires
        map.wf(),
        init_pos.x < map.spec_width(),
        init_pos.y < map.spec_height(),
    ensures
        r is Some <==> spec_skip_scan(*map, *init_pos, *shift, 0, 0, tunnel_bounds.0 as int,
            tunnel_bounds.1 as int) is Some,
        r is Some ==> {
            let (p, l) = spec_skip_scan(*map, *init_pos, *shift, 0, 0, tunnel_bounds.0 as int,
                tunnel_bounds.1 as int).unwrap();
            &&& r->0 == (p, l as usize)
            &&& p.x < map.spec_width()
            &&& p.y < map.spec_height()
            &&& match *shift {
                ShiftDirection::Up => p.x == init_pos.x && p.y == init_pos.y - l,
                ShiftDirection::Right => p.y == init_pos.y && p.x == init_pos.x + l,
                ShiftDirection::Down => p.x == init_pos.x && p.y == init_pos.y + l,
                ShiftDirection::Left => p.y == init_pos.y && p.x == init_pos.x - l,
            }
        },
{
    let mut pos = *init_pos;
    let mut skip_length: usize = 0;
    let mut stage: usize = 0;
    let ghost scan0 = spec_skip_scan(*map, *init_pos, *shift, 0, 0, tunnel_bounds.0 as int,
        tunnel_bounds.1 as int);

    while stage != 4 && skip_length < tunnel_bounds.1
        invariant
            map.wf(),
            pos.x < map.spec_width(),
            pos.y < map.spec_height(),
            stage <= 4,
            skip_length <= tunnel_bounds.1,
            scan0 == spec_skip_scan(*map, *init_pos, *shift, 0, 0, tunnel_bounds.0 as int,
                tunnel_bounds.1 as int),
            scan0 == spec_skip_scan(*map, pos, *shift, stage as int, skip_length as int,
                tunnel_bounds.0 as int, tunnel_bounds.1 as int),
        decreases tunnel_bounds.1 - skip_length + (if stage == 4 {
            0int
        } else {
            1int
        }),
    {
        // One shift in the scan direction; leaving the grid aborts.
        let target: Option<Position> = match shift {
            ShiftDirection::Up => {
                if pos.y >= 1 {
                    Some(Position::new(pos.x, pos.y - 1))
                } else {
                    None
                }
            },
            ShiftDirection::Right => {
                if pos.x + 1 < map.width() {
                    Some(Position::new(pos.x + 1, pos.y))
                } else {
                    None
                }
            },
            ShiftDirection::Down => {
                if pos.y + 1 < map.height() {
                    Some(Position::new(pos.x, pos.y + 1))
                } else {
                    None
                }
            },
            ShiftDirection::Left => {
                if pos.x >= 1 {
                    Some(Position::new(pos.x - 1, pos.y))
                } else {
                    None
                }
            },
        };
        let next = match target {
            Some(p) => p,
            None => {
                proof {
                    assert(spec_skip_scan(*map, pos, *shift, stage as int, skip_length as int,
                        tunnel_bounds.0 as int, tunnel_bounds.1 as int) is None);
                }
                return None;
            },
        };
        let curr_block_type = map.get_block(next.x, next.y);
        let ghost ns = spec_stage_next(stage as int, curr_block_type);

        let next_stage: usize = if (stage == 0 || stage == 1) && curr_block_type
            == BlockType::Freeze {
            1
        } else if (stage == 1 || stage == 2) && curr_block_type == BlockType::Hookable {
            2
        } else if (stage == 2 || stage == 3) && curr_block_type == BlockType::Freeze {
            3
        } else if stage == 3 && curr_block_type == BlockType::Empty {
            4
        } else {
            proof {
                assert(ns == -1);
                assert(spec_skip_scan(*map, pos, *shift, stage as int, skip_length as int,
                    tunnel_bounds.0 as int, tunnel_bounds.1 as int) is None);
            }
            return None;
        };
        proof {
            assert(ns == next_stage as int);
            assert(spec_step_target(pos, *shift) == (next.x as int, next.y as int));
            assert(spec_skip_scan(*map, pos, *shift, stage as int, skip_length as int,
                tunnel_bounds.0 as int, tunnel_bounds.1 as int) == spec_skip_scan(*map, next,
                *shift, ns, skip_length + 1, tunnel_bounds.0 as int, tunnel_bounds.1 as int));
        }
        pos = next;
        stage = next_stage;
        skip_length = skip_length + 1;
    }

    if stage == 4 && skip_length >= tunnel_bounds.0 {
        proof {
            lemma_skip_scan_straight(*map, *init_pos, *shift, 0, 0, tunnel_bounds.0 as int,
                tunnel_bounds.1 as int);
        }
        Some((pos, skip_length))
    } else {
        None
    }
}

/// The first freeze template for a corner facing `dir`: five offsets
/// around the candidate that must all hold Freeze.
pub open spec fn spec_corner_shape_one(g: Grid, x: int, y: int, dir: ShiftDirection) -> bool {
    match dir {
        ShiftDirection::Right => {
            &&& g.block_at(x, y + 1) == BlockType::Freeze
            &&& g.block_at(x + 1, y - 2) == BlockType::Freeze
            &&& g.block_at(x + 1, y - 1) == BlockType::Freeze
            &&& g.block_at(x + 1, y) == BlockType::Freeze
            &&& g.block_at(x + 1, y + 1) == BlockType::Freeze
        },
        ShiftDirection::Left => {
            &&& g.block_at(x, y + 1) == BlockType::Freeze
            &&& g.block_at(x - 1, y - 2) == BlockType::Freeze
            &&& g.block_at(x - 1, y - 1) == BlockType::Freeze
            &&& g.block_at(x - 1, y) == BlockType::Freeze
            &&& g.block_at(x - 1, y + 1) == BlockType::Freeze
        },
        ShiftDirection::Up => {
            &&& g.block_at(x + 1, y) == BlockType::Freeze
            &&& g.block_at(x - 2, y - 1) == BlockType::Freeze
            &&& g.block_at(x - 1, y - 1) == BlockType::Freeze
            &&& g.block_at(x, y - 1) == BlockType::Freeze
            &&& g.block_at(x + 1, y - 1) == BlockType::Freeze
        },
        ShiftDirection::Down => {
            &&& g.block_at(x + 1, y) == BlockType::Freeze
            &&& g.block_at(x - 2, y + 1) == BlockType::Freeze
            &&& g.block_at(x - 1, y + 1) == BlockType::Freeze
            &&& g.block_at(x, y + 1) == BlockType::Freeze
            &&& g.block_at(x + 1, y + 1) == BlockType::Freeze
        },
    }
}

/// The second freeze template for a corner facing `dir`, the mirrored
/// orientation of the detour.
pub open spec fn spec_corner_shape_two(g: Grid, x: int, y: int, dir: ShiftDirection) -> bool {
    match dir {
        ShiftDirection::Right => {
            &&& g.block_at(x, y - 1) == BlockType::Freeze
            &&& g.block_at(x + 1, y - 1) == BlockType::Freeze
            &&& g.block_at(x + 1, y) == BlockType::Freeze
            &&& g.block_at(x + 1, y + 1) == BlockType::Freeze
            &&& g.block_at(x + 1, y + 2) == BlockType::Freeze
        },
        ShiftDirection::Left => {
            &&& g.block_at(x, y - 1) == BlockType::Freeze
            &&& g.block_at(x - 1, y - 1) == BlockType::Freeze
            &&& g.block_at(x - 1, y) == BlockType::Freeze
            &&& g.block_at(x - 1, y + 1) == BlockType::Freeze
            &&& g.block_at(x - 1, y + 2) == BlockType::Freeze
        },
        ShiftDirection::Up => {
            &&& g.block_at(x - 1, y) == BlockType::Freeze
            &&& g.block_at(x - 1, y - 1) == BlockType::Freeze
            &&& g.block_at(x, y - 1) == BlockType::Freeze
            &&& g.block_at(x + 1, y - 1) == BlockType::Freeze
            &&& g.block_at(x + 2, y - 1) == BlockType::Freeze
        },
        ShiftDirection::Down => {
            &&& g.block_at(x - 1, y) == BlockType::Freeze
            &&& g.block_at(x - 1, y + 1) == BlockType::Freeze
            &&& g.block_at(x, y + 1) == BlockType::Freeze
            &&& g.block_at(x + 1, y + 1) == BlockType::Freeze
            &&& g.block_at(x + 2, y + 1) == BlockType::Freeze
        },
    }
}

/// An empty interior cell whose 5-by-5 window matches one of the two
/// freeze templates for `dir` is a corner candidate in that direction.
pub open spec fn spec_corner_candidate(g: Grid, x: int, y: int, dir: ShiftDirection) -> bool {
    &&& g.block_at(x, y) == BlockType::Empty
    &&& (spec_corner_shape_one(g, x, y, dir) || spec_corner_shape_two(g, x, y, dir))
}

/// Run-time mirror of [`spec_corner_candidate`] for one direction.
fn matches_corner(map: &Grid, x: usize, y: usize, dir: ShiftDirection) -> (r: bool)
    requires
        map.wf(),
        2 <= x,
        x + 2 < map.spec_width(),
        2 <= y,
        y + 2 < map.spec_height(),
    ensures
        r == spec_corner_candidate(*map, x as int, y as int, dir),
{
    if map.get_block(x, y) != BlockType::Empty {
        return false;
    }
    let shape_one = match dir {
        ShiftDirection::Right => {
            map.get_block(x, y + 1) == BlockType::Freeze && map.get_block(x + 1, y - 2)
                == BlockType::Freeze && map.get_block(x + 1, y - 1) == BlockType::Freeze
                && map.get_block(x + 1, y) == BlockType::Freeze && map.get_block(x + 1, y + 1)
                == BlockType::Freeze
        },
        ShiftDirection::Left => {
            map.get_block(x, y + 1) == BlockType::Freeze && map.get_block(x - 1, y - 2)
                == BlockType::Freeze && map.get_block(x - 1, y - 1) == BlockType::Freeze
                && map.get_block(x - 1, y) == BlockType::Freeze && map.get_block(x - 1, y + 1)
                == BlockType::Freeze
        },
        ShiftDirection::Up => {
            map.get_block(x + 1, y) == BlockType::Freeze && map.get_block(x - 2, y - 1)
                == BlockType::Freeze && map.get_block(x - 1, y - 1) == BlockType::Freeze
                && map.get_block(x, y - 1) == BlockType::Freeze && map.get_block(x + 1, y - 1)
                == BlockType::Freeze
        },
        ShiftDirection::Down => {
            map.get_block(x + 1, y) == BlockType::Freeze && map.get_block(x - 2, y + 1)
                == BlockType::Freeze && map.get_block(x - 1, y + 1) == BlockType::Freeze
                && map.get_block(x, y + 1) == BlockType::Freeze && map.get_block(x + 1, y + 1)
                == BlockType::Freeze
        },
    };
    if shape_one {
        return true;
    }
    match dir {
        ShiftDirection::Right => {
            map.get_block(x, y - 1) == BlockType::Freeze && map.get_block(x + 1, y - 1)
                == BlockType::Freeze && map.get_block(x + 1, y) == BlockType::Freeze
                && map.get_block(x + 1, y + 1) == BlockType::Freeze && map.get_block(x + 1, y + 2)
                == BlockType::Freeze
        },
        ShiftDirection::Left => {
            map.get_block(x, y - 1) == BlockType::Freeze && map.get_block(x - 1, y - 1)
                == BlockType::Freeze && map.get_block(x - 1, y) == BlockType::Freeze
                && map.get_block(x - 1, y + 1) == BlockType::Freeze && map.get_block(x - 1, y + 2)
                == BlockType::Freeze
        },
        ShiftDirection::Up => {
            map.get_block(x - 1, y) == BlockType::Freeze && map.get_block(x - 1, y - 1)
                == BlockType::Freeze && map.get_block(x, y - 1) == BlockType::Freeze
                && map.get_block(x + 1, y - 1) == BlockType::Freeze && map.get_block(x + 2, y - 1)
                == BlockType::Freeze
        },
        ShiftDirection::Down => {
            map.get_block(x - 1, y) == BlockType::Freeze && map.get_block(x - 1, y + 1)
                == BlockType::Freeze && map.get_block(x, y + 1) == BlockType::Freeze
                && map.get_block(x + 1, y + 1) == BlockType::Freeze && map.get_block(x + 2, y + 1)
                == BlockType::Freeze
        },
    }
}

/// The four scan directions in their fixed enumeration order.
pub open spec fn spec_dir_of(i: int) -> ShiftDirection {
    if i == 0 {
        ShiftDirection::Right
    } else if i == 1 {
        ShiftDirection::Left
    } else if i == 2 {
        ShiftDirection::Up
    } else {
        ShiftDirection::Down
    }
}

/// Run-time mirror of [`spec_dir_of`].
fn dir_of_index(i: usize) -> (r: ShiftDirection)
    ensures
        r == spec_dir_of(i as int),
{
    if i == 0 {
        ShiftDirection::Right
    } else if i == 1 {
        ShiftDirection::Left
    } else if i == 2 {
        ShiftDirection::Up
    } else {
        ShiftDirection::Down
    }
}

/// The candidate list the corner scan produces from state `(x, y, d)`
/// with the candidates collected so far: cells are visited in ascending
/// `x`, then ascending `y`, and at each cell the four directions in
/// their fixed enumeration order; every match appends one entry.
pub open spec fn spec_corner_scan(
    g: Grid,
    x: int,
    y: int,
    d: int,
    acc: Seq<(Position, ShiftDirection)>,
) -> Seq<(Position, ShiftDirection)>
    decreases g.spec_width() - x, g.spec_height() - y, 4 - d,
{
    if x + 2 >= g.spec_width() {
        acc
    } else if y + 2 >= g.spec_height() {
        spec_corner_scan(g, x + 1, 2, 0, acc)
    } else if d >= 4 {
        spec_corner_scan(g, x, y + 1, 0, acc)
    } else {
        let acc2 = if spec_corner_candidate(g, x, y, spec_dir_of(d)) {
            acc.push((Position { x: x as usize, y: y as usize }, spec_dir_of(d)))
        } else {
            acc
        };
        spec_corner_scan(g, x, y, d + 1, acc2)
    }
}

/// The exact corner-candidate sequence of a grid, in scan order.
pub open spec fn spec_corner_candidates(g: Grid) -> Seq<(Position, ShiftDirection)> {
    spec_corner_scan(g, 2, 2, 0, Seq::empty())
}

/// Scans every interior cell with a centered 5-by-5 window and collects
/// each empty cell whose window matches a corner template, together with
/// the direction the detour turns around; a cell matching in several
/// directions is listed once per direction, in the exact scan order of
/// [`spec_corner_candidates`] (ascending `x`, then `y`, then direction),
/// which the later stable length sort depends on.
pub fn find_corners(map: &Grid) -> (candidates: Vec<(Position, ShiftDirection)>)
    requires
        map.wf(),
    ensures
        candidates@ == spec_corner_candidates(*map),
        forall|i: int|
            0 <= i < candidates@.len() ==> {
                let (p, dir) = #[trigger] candidates@[i];
                &&& 2 <= p.x && p.x + 2 < map.spec_width()
                &&& 2 <= p.y && p.y + 2 < map.spec_height()
                &&& spec_corner_candidate(*map, p.x as int, p.y as int, dir)
            },
        forall|x: int, y: int, dir: ShiftDirection|
            2 <= x && x + 2 < map.spec_width() && 2 <= y && y + 2 < map.spec_height()
                && spec_corner_candidate(*map, x, y, dir) ==> exists|i: int|
                0 <= i < candidates@.len() && #[trigger] candidates@[i] == (
                Position { x: x as usize, y: y as usize },
                dir,
            ),
{
    let mut candidates: Vec<(Position, ShiftDirection)> = Vec::new();
    let w = map.width();
    let h = map.height();
    let mut x: usize = 2;
    while x + 2 < w
        invariant
            map.wf(),
            2 <= x,
            x <= w + 2,
            w == map.spec_width(),
            h == map.spec_height(),
            spec_corner_candidates(*map) == spec_corner_scan(*map, x as int, 2, 0, candidates@),
            forall|i: int|
                0 <= i < candidates@.len() ==> {
                    let (p, dir) = #[trigger] candidates@[i];
                    &&& 2 <= p.x && p.x + 2 < map.spec_width()
                    &&& 2 <= p.y && p.y + 2 < map.spec_height()
                    &&& spec_corner_candidate(*map, p.x as int, p.y as int, dir)
                },
            forall|xi: int, yi: int, dir: ShiftDirection|
                2 <= xi && xi + 2 < w && 2 <= yi && yi + 2 < h && xi < x
                    && spec_corner_candidate(*map, xi, yi, dir) ==> exists|i: int|
                    0 <= i < candidates@.len() && #[trigger] candidates@[i] == (
                    Position { x: xi as usize, y: yi as usize },
                    dir,
                ),
        decreases w - x,
    {
        let mut y: usize = 2;
        while y + 2 < h
            invariant
                map.wf(),
                2 <= x,
                x + 2 < w,
                2 <= y,
                y <= h + 2,
                w == map.spec_width(),
                h == map.spec_height(),
                spec_corner_candidates(*map) == spec_corner_scan(*map, x as int, y as int, 0,
                    candidates@),
                forall|i: int|
                    0 <= i < candidates@.len() ==> {
                        let (p, dir) = #[trigger] candidates@[i];
                        &&& 2 <= p.x && p.x + 2 < map.spec_width()
                        &&& 2 <= p.y && p.y + 2 < map.spec_height()
                        &&& spec_corner_candidate(*map, p.x as int, p.y as int, dir)
                    },
                forall|xi: int, yi: int, dir: ShiftDirection|
                    2 <= xi && xi + 2 < w && 2 <= yi && yi + 2 < h && (xi < x || (xi == x && yi
                        < y)) && spec_corner_candidate(*map, xi, yi, dir) ==> exists|i: int|
                        0 <= i < candidates@.len() && #[trigger] candidates@[i] == (
                        Position { x: xi as usize, y: yi as usize },
                        dir,
                    ),
            decreases h - y,
        {
            let mut d: usize = 0;
            while d < 4
                invariant
                    map.wf(),
                    d <= 4,
                    2 <= x,
                    x + 2 < w,
                    2 <= y,
                    y + 2 < h,
                    w == map.spec_width(),
                    h == map.spec_height(),
                    spec_corner_candidates(*map) == spec_corner_scan(*map, x as int, y as int,
                        d as int, candidates@),
                    forall|i: int|
                        0 <= i < candidates@.len() ==> {
                            let (p, dir) = #[trigger] candidates@[i];
                            &&& 2 <= p.x && p.x + 2 < map.spec_width()
                            &&& 2 <= p.y && p.y + 2 < map.spec_height()
                            &&& spec_corner_candidate(*map, p.x as int, p.y as int, dir)
                        },
                    forall|xi: int, yi: int, dir: ShiftDirection|
                        2 <= xi && xi + 2 < w && 2 <= yi && yi + 2 < h && (xi < x || (xi == x && yi
                            < y)) && spec_corner_candidate(*map, xi, yi, dir) ==> exists|i: int|
                            0 <= i < candidates@.len() && #[trigger] candidates@[i] == (
                            Position { x: xi as usize, y: yi as usize },
                            dir,
                        ),
                    forall|di: int|
                        0 <= di < d && spec_corner_candidate(*map, x as int, y as int,
                            #[trigger] spec_dir_of(di)) ==> exists|i: int|
                            0 <= i < candidates@.len() && #[trigger] candidates@[i] == (
                            Position { x: x, y: y },
                            spec_dir_of(di),
                        ),
                decreases 4 - d,
            {
                let ghost before = candidates@;
                let dir = dir_of_index(d);
                if matches_corner(map, x, y, dir) {
                    candidates.push((Position::new(x, y), dir));
                    proof {
                        assert(candidates@[candidates@.len() - 1] == (Position { x: x, y: y }, dir));
                        assert forall|i: int|
                            0 <= i < before.len() implies candidates@[i] == before[i] by {}
                    }
                }
                proof {
                    assert(candidates@ == (if spec_corner_candidate(*map, x as int, y as int,
                        spec_dir_of(d as int)) {
                        before.push((Position { x: x, y: y }, spec_dir_of(d as int)))
                    } else {
                        before
                    }));
                    assert(spec_corner_scan(*map, x as int, y as int, d as int, before)
                        == spec_corner_scan(*map, x as int, y as int, d + 1, candidates@));
                }
                d = d + 1;
            }
            proof {
                assert(spec_corner_scan(*map, x as int, y as int, 4, candidates@)
                    == spec_corner_scan(*map, x as int, y + 1, 0, candidates@));
                assert forall|dir: ShiftDirection|
                    spec_corner_candidate(*map, x as int, y as int, dir) implies exists|i: int|
                    0 <= i < candidates@.len() && #[trigger] candidates@[i] == (
                    Position { x: x, y: y },
                    dir,
                ) by {
                    match dir {
                        ShiftDirection::Right => {
                            assert(spec_dir_of(0) == ShiftDirection::Right);
                        },
                        ShiftDirection::Left => {
                            assert(spec_dir_of(1) == ShiftDirection::Left);
                        },
                        ShiftDirection::Up => {
                            assert(spec_dir_of(2) == ShiftDirection::Up);
                        },
                        ShiftDirection::Down => {
                            assert(spec_dir_of(3) == ShiftDirection::Down);
                        },
                    }
                }
            }
            y = y + 1;
        }
        proof {
            assert(spec_corner_scan(*map, x as int, y as int, 0, candidates@)
                == spec_corner_scan(*map, x + 1, 2, 0, candidates@));
        }
        x = x + 1;
    }
    candidates
}

/// What the skip carve leaves in cell `(x, y)`: the tunnel rectangle is
/// dug empty where it held solid or freeze blocks, and the two strips
/// beside it, perpendicular to the travel axis, re-freeze solid blocks
/// to keep the hazard buffer around the new shortcut.
pub open spec fn spec_skip_carve_cell(
    b: BlockType,
    tl: Position,
    br: Position,
    horizontal: bool,
    x: int,
    y: int,
) -> BlockType {
    if spec_in_rect(tl, br, x, y) {
        if b == BlockType::Hookable || b == BlockType::Freeze {
            BlockType::Empty
        } else {
            b
        }
    } else if (horizontal && tl.x <= x <= br.x && (y == tl.y - 1 || y == br.y + 1)) || (!horizontal
        && tl.y <= y <= br.y && (x == tl.x - 1 || x == br.x + 1)) {
        if b == BlockType::Hookable {
            BlockType::Freeze
        } else {
            b
        }
    } else {
        b
    }
}

/// Materializes one accepted skip: clears its bounding rectangle to
/// Empty (replacing only solid and freeze blocks) and lays a one-cell
/// Freeze buffer on the two sides perpendicular to its direction
/// (replacing only solid blocks).
pub fn generate_skip(
    map: &mut Grid,
    start_pos: &Position,
    end_pos: &Position,
    shift: &ShiftDirection,
)
    requires
        old(map).wf(),
        match *shift {
            ShiftDirection::Left | ShiftDirection::Right => start_pos.y == end_pos.y && 1
                <= start_pos.y && start_pos.y + 1 < old(map).spec_height() && start_pos.x < old(
                map,
            ).spec_width() && end_pos.x < old(map).spec_width(),
            ShiftDirection::Up | ShiftDirection::Down => start_pos.x == end_pos.x && 1
                <= start_pos.x && start_pos.x + 1 < old(map).spec_width() && start_pos.y < old(
                map,
            ).spec_height() && end_pos.y < old(map).spec_height(),
        },
    ensures
        final(map).wf(),
        final(map).same_shape(old(map)),
        ({
            let tl = Position {
                x: (if start_pos.x <= end_pos.x {
                    start_pos.x
                } else {
                    end_pos.x
                }),
                y: (if start_pos.y <= end_pos.y {
                    start_pos.y
                } else {
                    end_pos.y
                }),
            };
            let br = Position {
                x: (if start_pos.x <= end_pos.x {
                    end_pos.x
                } else {
                    start_pos.x
                }),
                y: (if start_pos.y <= end_pos.y {
                    end_pos.y
                } else {
                    start_pos.y
                }),
            };
            let horizontal = (*shift == ShiftDirection::Left || *shift == ShiftDirection::Right);
            forall|x: int, y: int|
                0 <= x < old(map).spec_width() && 0 <= y < old(map).spec_height()
                    ==> #[trigger] final(map).block_at(x, y) == spec_skip_carve_cell(
                    old(map).block_at(x, y),
                    tl,
                    br,
                    horizontal,
                    x,
                    y,
                )
        }),
        forall|cx: int, cy: int|
            0 <= cx < crate::grid::spec_num_chunks(old(map).spec_width()) && 0 <= cy
                < crate::grid::spec_num_chunks(old(map).spec_height()) && old(map).chunk_at(cx, cy)
                ==> #[trigger] final(map).chunk_at(cx, cy),
{
    let top_left = Position::new(
        if start_pos.x <= end_pos.x {
            start_pos.x
        } else {
            end_pos.x
        },
        if start_pos.y <= end_pos.y {
            start_pos.y
        } else {
            end_pos.y
        },
    );
    let bot_right = Position::new(
        if start_pos.x <= end_pos.x {
            end_pos.x
        } else {
            start_pos.x
        },
        if start_pos.y <= end_pos.y {
            end_pos.y
        } else {
            start_pos.y
        },
    );
    let ghost g0 = *map;

    map.set_area(&top_left, &bot_right, &BlockType::Empty, &Overwrite::ReplaceSolidFreeze);
    let ghost g1 = *map;

    match shift {
        ShiftDirection::Left | ShiftDirection::Right => {
            let above_tl = Position::new(top_left.x, top_left.y - 1);
            let above_br = Position::new(bot_right.x, bot_right.y - 1);
            map.set_area(&above_tl, &above_br, &BlockType::Freeze, &Overwrite::ReplaceSolidOnly);
            let ghost g2 = *map;
            let below_tl = Position::new(top_left.x, top_left.y + 1);
            let below_br = Position::new(bot_right.x, bot_right.y + 1);
            map.set_area(&below_tl, &below_br, &BlockType::Freeze, &Overwrite::ReplaceSolidOnly);
            proof {
                assert forall|x: int, y: int|
                    0 <= x < g0.spec_width() && 0 <= y < g0.spec_height() implies #[trigger] map
                    .block_at(x, y) == spec_skip_carve_cell(
                    g0.block_at(x, y),
                    top_left,
                    bot_right,
                    true,
                    x,
                    y,
                ) by {
                    let b1 = g1.block_at(x, y);
                    let b2 = g2.block_at(x, y);
                }
            }
        },
        ShiftDirection::Up | ShiftDirection::Down => {
            let left_tl = Position::new(top_left.x - 1, top_left.y);
            let left_br = Position::new(bot_right.x - 1, bot_right.y);
            map.set_area(&left_tl, &left_br, &BlockType::Freeze, &Overwrite::ReplaceSolidOnly);
            let ghost g2 = *map;
            let right_tl = Position::new(top_left.x + 1, top_left.y);
            let right_br = Position::new(bot_right.x + 1, bot_right.y);
            map.set_area(&right_tl, &right_br, &BlockType::Freeze, &Overwrite::ReplaceSolidOnly);
            proof {
                assert forall|x: int, y: int|
                    0 <= x < g0.spec_width() && 0 <= y < g0.spec_height() implies #[trigger] map
                    .block_at(x, y) == spec_skip_carve_cell(
                    g0.block_at(x, y),
                    top_left,
                    bot_right,
                    false,
                    x,
                    y,
                ) by {
                    let b1 = g1.block_at(x, y);
                    let b2 = g2.block_at(x, y);
                }
            }
        },
    }
}

/// The skips the scan yields from the first `n` corner candidates of
/// `g`, in candidate order: one record per accepted walk.
pub open spec fn spec_scan_skips(
    g: Grid,
    cands: Seq<(Position, ShiftDirection)>,
    n: int,
    min_len: int,
    max_len: int,
) -> Seq<Skip>
    decreases n,
{
    if n <= 0 {
        Seq::empty()
    } else {
        let prev = spec_scan_skips(g, cands, n - 1, min_len, max_len);
        let (p, dir) = cands[n - 1];
        match spec_skip_scan(g, p, dir, 0, 0, min_len, max_len) {
            Some((e, l)) => prev.push(
                Skip { start: p, end: e, shift: dir, length: l as usize },
            ),
            None => prev,
        }
    }
}

/// Where a stable insertion by ascending length puts `e`.
pub open spec fn spec_insert_skip(s: Seq<Skip>, e: Skip) -> Seq<Skip>
    decreases s.len(),
{
    if s.len() == 0 {
        seq![e]
    } else if s[0].length > e.length {
        seq![e] + s
    } else {
        seq![s[0]] + spec_insert_skip(s.drop_first(), e)
    }
}

/// The first `n` skips, stably sorted by ascending length.
pub open spec fn spec_sort_skips(s: Seq<Skip>, n: int) -> Seq<Skip>
    decreases n,
{
    if n <= 0 {
        Seq::empty()
    } else {
        spec_insert_skip(spec_sort_skips(s, n - 1), s[n - 1])
    }
}

/// Stable insertion lands exactly at the first index whose length
/// exceeds the new entry's.
proof fn lemma_insert_skip_at(s: Seq<Skip>, e: Skip, at: int)
    requires
        0 <= at <= s.len(),
        forall|j: int| 0 <= j < at ==> (#[trigger] s[j]).length <= e.length,
        at < s.len() ==> s[at].length > e.length,
    ensures
        spec_insert_skip(s, e) == s.insert(at, e),
    decreases s.len(),
{
    s.insert_ensures(at, e);
    if s.len() == 0 {
        assert(spec_insert_skip(s, e) =~= s.insert(at, e));
    } else if s[0].length > e.length {
        assert(at == 0);
        assert(spec_insert_skip(s, e) =~= s.insert(0, e));
    } else {
        assert(at >= 1);
        let tail = s.drop_first();
        lemma_insert_skip_at(tail, e, at - 1);
        tail.insert_ensures(at - 1, e);
        assert(spec_insert_skip(s, e) =~= s.insert(at, e)) by {
            assert(forall|k: int| 0 <= k < tail.len() ==> (#[trigger] tail[k]) == s[k + 1]);
        }
    }
}

/// One inner pass of the greedy selection: from `j` on, every entry
/// still valid that conflicts with entry `i` is invalidated.
pub open spec fn spec_invalidate_from(
    skips: Seq<Skip>,
    valid: Seq<bool>,
    i: int,
    j: int,
    min_spacing_sqr: int,
) -> Seq<bool>
    decreases skips.len() - j,
{
    if j >= skips.len() {
        valid
    } else {
        let v2 = if valid[j] && !spec_skips_compatible(skips[i], skips[j], min_spacing_sqr) {
            valid.update(j, false)
        } else {
            valid
        };
        spec_invalidate_from(skips, v2, i, j + 1, min_spacing_sqr)
    }
}

/// The greedy selection from entry `i` on: each still-valid entry
/// invalidates its later conflicting entries.
pub open spec fn spec_select_from(
    skips: Seq<Skip>,
    valid: Seq<bool>,
    i: int,
    min_spacing_sqr: int,
) -> Seq<bool>
    decreases skips.len() - i,
{
    if i >= skips.len() {
        valid
    } else {
        let v2 = if valid[i] {
            spec_invalidate_from(skips, valid, i, i + 1, min_spacing_sqr)
        } else {
            valid
        };
        spec_select_from(skips, v2, i + 1, min_spacing_sqr)
    }
}

/// The acceptance vector of the greedy spacing selection over a sorted
/// skip list.
pub open spec fn spec_selection(skips: Seq<Skip>, min_spacing_sqr: int) -> Seq<bool> {
    spec_select_from(skips, Seq::new(skips.len(), |i: int| true), 0, min_spacing_sqr)
}

/// Whether a skip's geometry lets it be carved: endpoints aligned along
/// its axis, inside the grid, with one cell of room for the buffer
/// strips on each side.
pub open spec fn spec_skip_fits_grid(k: Skip, w: int, h: int) -> bool {
    match k.shift {
        ShiftDirection::Left | ShiftDirection::Right => k.start.y == k.end.y && 1 <= k.start.y
            && k.start.y + 1 < h && k.start.x < w && k.end.x < w,
        ShiftDirection::Up | ShiftDirection::Down => k.start.x == k.end.x && 1 <= k.start.x
            && k.start.x + 1 < w && k.start.y < h && k.end.y < h,
    }
}

/// The bounding corner of a skip closest to the origin.
pub open spec fn spec_skip_tl(k: Skip) -> Position {
    Position {
        x: (if k.start.x <= k.end.x {
            k.start.x
        } else {
            k.end.x
        }),
        y: (if k.start.y <= k.end.y {
            k.start.y
        } else {
            k.end.y
        }),
    }
}

/// The bounding corner of a skip farthest from the origin.
pub open spec fn spec_skip_br(k: Skip) -> Position {
    Position {
        x: (if k.start.x <= k.end.x {
            k.end.x
        } else {
            k.start.x
        }),
        y: (if k.start.y <= k.end.y {
            k.end.y
        } else {
            k.start.y
        }),
    }
}

/// What carving the first `n` accepted skips, in order, leaves in cell
/// `(x, y)` that held `b`.
pub open spec fn spec_carved_cell(
    b: BlockType,
    skips: Seq<Skip>,
    valid: Seq<bool>,
    n: int,
    w: int,
    h: int,
    x: int,
    y: int,
) -> BlockType
    decreases n,
{
    if n <= 0 {
        b
    } else {
        let prev = spec_carved_cell(b, skips, valid, n - 1, w, h, x, y);
        let k = skips[n - 1];
        if valid[n - 1] && spec_skip_fits_grid(k, w, h) {
            spec_skip_carve_cell(
                prev,
                spec_skip_tl(k),
                spec_skip_br(k),
                (k.shift == ShiftDirection::Left || k.shift == ShiftDirection::Right),
                x,
                y,
            )
        } else {
            prev
        }
    }
}

/// No endpoint of `a` lies within squared distance `min_spacing_sqr` of
/// an endpoint of `b`.
pub open spec fn spec_skips_compatible(a: Skip, b: Skip, min_spacing_sqr: int) -> bool {
    &&& crate::position::spec_dist_sqr(a.start, b.start) >= min_spacing_sqr
    &&& crate::position::spec_dist_sqr(a.start, b.end) >= min_spacing_sqr
    &&& crate::position::spec_dist_sqr(a.end, b.start) >= min_spacing_sqr
    &&& crate::position::spec_dist_sqr(a.end, b.end) >= min_spacing_sqr
}

/// Checks endpoint spacing at run time; only a positive answer is relied
/// on, and it always implies the specification-level compatibility.
fn skips_compatible(a: &Skip, b: &Skip, min_spacing_sqr: usize) -> (r: bool)
    requires
        a.start.x <= crate::position::MAX_DIM,
        a.start.y <= crate::position::MAX_DIM,
        a.end.x <= crate::position::MAX_DIM,
        a.end.y <= crate::position::MAX_DIM,
        b.start.x <= crate::position::MAX_DIM,
        b.start.y <= crate::position::MAX_DIM,
        b.end.x <= crate::position::MAX_DIM,
        b.end.y <= crate::position::MAX_DIM,
    ensures
        r == spec_skips_compatible(*a, *b, min_spacing_sqr as int),
{
    a.start.distance_squared(&b.start) >= min_spacing_sqr && a.start.distance_squared(&b.end)
        >= min_spacing_sqr && a.end.distance_squared(&b.start) >= min_spacing_sqr
        && a.end.distance_squared(&b.end) >= min_spacing_sqr
}

/// Every endpoint of every listed skip lies inside a `w` by `h` grid.
pub open spec fn spec_skips_in_grid(s: Seq<Skip>, w: int, h: int) -> bool {
    forall|k: int|
        0 <= k < s.len() ==> (#[trigger] s[k]).start.x < w && s[k].start.y < h && s[k].end.x < w
            && s[k].end.y < h
}

/// Detects, selects and carves all valid skips: corner candidates are
/// scanned for acceptable tunnels, the tunnels are ordered by ascending
/// length, and a greedy pass discards every tunnel whose start or end
/// comes closer than the configured minimum squared spacing to an
/// already accepted one, so shorter skips win conflicts. The surviving
/// skips are carved into the grid, in order. The returned list is
/// exactly the length-sorted scan of the corner candidates, the
/// booleans exactly the greedy selection, and the grid exactly the fold
/// of the accepted carves.
#[verifier::rlimit(100)]
pub fn generate_all_skips(
    map: &mut Grid,
    length_bounds: (usize, usize),
    min_spacing_sqr: usize,
) -> (r: (Vec<Skip>, Vec<bool>))
    requires
        old(map).wf(),
    ensures
        final(map).wf(),
        final(map).same_shape(old(map)),
        r.1@.len() == r.0@.len(),
        ({
            let scanned = spec_scan_skips(
                *old(map),
                spec_corner_candidates(*old(map)),
                spec_corner_candidates(*old(map)).len() as int,
                length_bounds.0 as int,
                length_bounds.1 as int,
            );
            &&& r.0@ == spec_sort_skips(scanned, scanned.len() as int)
            &&& r.1@ == spec_selection(r.0@, min_spacing_sqr as int)
        }),
        forall|x: int, y: int|
            0 <= x < old(map).spec_width() && 0 <= y < old(map).spec_height()
                ==> #[trigger] final(map).block_at(x, y) == spec_carved_cell(
                old(map).block_at(x, y),
                r.0@,
                r.1@,
                r.0@.len() as int,
                old(map).spec_width(),
                old(map).spec_height(),
                x,
                y,
            ),
        forall|i: int, j: int|
            0 <= i < j < r.0@.len() && r.1@[i] && r.1@[j] ==> spec_skips_compatible(
                #[trigger] r.0@[i],
                #[trigger] r.0@[j],
                min_spacing_sqr as int,
            ),
        forall|x: int, y: int|
            0 <= x < old(map).spec_width() && 0 <= y < old(map).spec_height()
                && #[trigger] final(map).block_at(x, y) != old(map).block_at(x, y) ==> old(
                map,
            ).block_at(x, y) == BlockType::Hookable || old(map).block_at(x, y)
                == BlockType::Freeze,
        forall|cx: int, cy: int|
            0 <= cx < crate::grid::spec_num_chunks(old(map).spec_width()) && 0 <= cy
                < crate::grid::spec_num_chunks(old(map).spec_height()) && old(map).chunk_at(cx, cy)
                ==> #[trigger] final(map).chunk_at(cx, cy),
{
    let w = map.width();
    let h = map.height();
    let candidates = find_corners(map);
    let ghost min_len = length_bounds.0 as int;
    let ghost max_len = length_bounds.1 as int;

    // Scan each candidate for an acceptable tunnel.
    let mut skips: Vec<Skip> = Vec::new();
    let mut ci: usize = 0;
    while ci < candidates.len()
        invariant
            map.wf(),
            w == map.spec_width(),
            h == map.spec_height(),
            ci <= candidates@.len(),
            min_len == length_bounds.0 as int,
            max_len == length_bounds.1 as int,
            forall|i: int|
                0 <= i < candidates@.len() ==> {
                    let (p, dir) = #[trigger] candidates@[i];
                    &&& p.x < map.spec_width()
                    &&& p.y < map.spec_height()
                },
            skips@ == spec_scan_skips(*map, candidates@, ci as int, min_len, max_len),
            spec_skips_in_grid(skips@, w as int, h as int),
        decreases candidates@.len() - ci,
    {
        let (p, dir) = candidates[ci];
        match check_corner_skip(map, &p, &dir, length_bounds) {
            Some((end_pos, length)) => {
                skips.push(Skip { start: p, end: end_pos, shift: dir, length });
            },
            None => {},
        }
        ci = ci + 1;
    }

    // Order by ascending length; shorter skips get first pick.
    let ghost scanned = skips@;
    let mut sorted: Vec<Skip> = Vec::new();
    let mut i: usize = 0;
    while i < skips.len()
        invariant
            i <= skips@.len(),
            skips@ == scanned,
            sorted@.len() == i,
            sorted@ == spec_sort_skips(scanned, i as int),
            spec_skips_in_grid(skips@, w as int, h as int),
            spec_skips_in_grid(sorted@, w as int, h as int),
        decreases skips@.len() - i,
    {
        let entry = skips[i];
        let mut at: usize = 0;
        while at < sorted.len()
            invariant_except_break
                at <= sorted@.len(),
                forall|j: int| 0 <= j < at ==> (#[trigger] sorted@[j]).length <= entry.length,
            ensures
                at <= sorted@.len(),
                forall|j: int| 0 <= j < at ==> (#[trigger] sorted@[j]).length <= entry.length,
                at < sorted@.len() ==> sorted@[at as int].length > entry.length,
            decreases sorted@.len() - at,
        {
            if sorted[at].length > entry.length {
                break ;
            }
            at = at + 1;
        }
        let ghost before = sorted@;
        sorted.insert(at, entry);
        proof {
            lemma_insert_skip_at(before, entry, at as int);
            before.insert_ensures(at as int, entry);
        }
        i = i + 1;
    }
    let skips = sorted;
    let n = skips.len();

    // Greedy selection: each accepted skip invalidates later conflicting
    // ones.
    let mut valid: Vec<bool> = Vec::new();
    let mut vi: usize = 0;
    while vi < n
        invariant
            vi <= n,
            n == skips@.len(),
            valid@.len() == vi,
            forall|k: int| 0 <= k < vi ==> #[trigger] valid@[k],
        decreases n - vi,
    {
        valid.push(true);
        vi = vi + 1;
    }
    proof {
        assert(valid@ =~= Seq::new(skips@.len(), |i: int| true));
    }
    let ghost selected = spec_selection(skips@, min_spacing_sqr as int);

    let mut si: usize = 0;
    while si < n
        invariant
            map.wf(),
            w == map.spec_width(),
            h == map.spec_height(),
            si <= n,
            n == skips@.len(),
            valid@.len() == n,
            spec_skips_in_grid(skips@, w as int, h as int),
            selected == spec_select_from(skips@, valid@, si as int, min_spacing_sqr as int),
            forall|a: int, b: int|
                0 <= a < b < n && a < si && valid@[a] && valid@[b] ==> spec_skips_compatible(
                    #[trigger] skips@[a],
                    #[trigger] skips@[b],
                    min_spacing_sqr as int,
                ),
        decreases n - si,
    {
        if valid[si] {
            let ghost inv_full = spec_invalidate_from(skips@, valid@, si as int, si + 1,
                min_spacing_sqr as int);
            let mut sj = si + 1;
            while sj < n
                invariant
                    map.wf(),
                    w == map.spec_width(),
                    h == map.spec_height(),
                    si < sj <= n || sj == si + 1,
                    si < n,
                    n == skips@.len(),
                    valid@.len() == n,
                    valid@[si as int],
                    spec_skips_in_grid(skips@, w as int, h as int),
                    inv_full == spec_invalidate_from(skips@, valid@, si as int, sj as int,
                        min_spacing_sqr as int),
                    forall|a: int, b: int|
                        0 <= a < b < n && a < si && valid@[a] && valid@[b]
                            ==> spec_skips_compatible(
                            #[trigger] skips@[a],
                            #[trigger] skips@[b],
                            min_spacing_sqr as int,
                        ),
                    forall|b: int|
                        si < b < sj && valid@[b] ==> spec_skips_compatible(
                            skips@[si as int],
                            #[trigger] skips@[b],
                            min_spacing_sqr as int,
                        ),
                decreases n - sj,
            {
                if valid[sj] {
                    let compatible = skips_compatible(&skips[si], &skips[sj], min_spacing_sqr);
                    if !compatible {
                        valid.set(sj, false);
                    }
                }
                sj = sj + 1;
            }
        }
        si = si + 1;
    }
    proof {
        assert(valid@ == selected);
    }

    // Carve the accepted skips, in order.
    let ghost g0 = *map;
    let mut gi: usize = 0;
    while gi < n
        invariant
            map.wf(),
            map.same_shape(&g0),
            g0.wf(),
            w == g0.spec_width(),
            h == g0.spec_height(),
            gi <= n,
            n == skips@.len(),
            valid@.len() == n,
            spec_skips_in_grid(skips@, w as int, h as int),
            forall|x: int, y: int|
                0 <= x < g0.spec_width() && 0 <= y < g0.spec_height()
                    ==> #[trigger] map.block_at(x, y) == spec_carved_cell(
                    g0.block_at(x, y),
                    skips@,
                    valid@,
                    gi as int,
                    w as int,
                    h as int,
                    x,
                    y,
                ),
            forall|x: int, y: int|
                0 <= x < g0.spec_width() && 0 <= y < g0.spec_height()
                    && #[trigger] map.block_at(x, y) != g0.block_at(x, y) ==> g0.block_at(x, y)
                    == BlockType::Hookable || g0.block_at(x, y) == BlockType::Freeze,
            forall|cx: int, cy: int|
                0 <= cx < crate::grid::spec_num_chunks(g0.spec_width()) && 0 <= cy
                    < crate::grid::spec_num_chunks(g0.spec_height()) && g0.chunk_at(cx, cy)
                    ==> #[trigger] map.chunk_at(cx, cy),
        decreases n - gi,
    {
        let ghost m_before = *map;
        if valid[gi] {
            let skip = skips[gi];
            let fits = match skip.shift {
                ShiftDirection::Left | ShiftDirection::Right => {
                    skip.start.y == skip.end.y && 1 <= skip.start.y && skip.start.y < map.height()
                        && skip.start.y + 1 < map.height() && skip.start.x < map.width()
                        && skip.end.x < map.width()
                },
                ShiftDirection::Up | ShiftDirection::Down => {
                    skip.start.x == skip.end.x && 1 <= skip.start.x && skip.start.x < map.width()
                        && skip.start.x + 1 < map.width() && skip.start.y < map.height()
                        && skip.end.y < map.height()
                },
            };
            proof {
                assert(fits == spec_skip_fits_grid(skip, w as int, h as int));
            }
            if fits {
                generate_skip(map, &skip.start, &skip.end, &skip.shift);
            }
        }
        proof {
            assert forall|x: int, y: int|
                0 <= x < g0.spec_width() && 0 <= y < g0.spec_height() implies #[trigger] map
                .block_at(x, y) == spec_carved_cell(
                g0.block_at(x, y),
                skips@,
                valid@,
                gi + 1,
                w as int,
                h as int,
                x,
                y,
            ) by {
                let b = m_before.block_at(x, y);
            }
        }
        gi = gi + 1;
    }

    (skips, valid)
}

/// The neighbor of `(x, y)` at offset `(dx, dy)` lies inside the grid
/// and holds a solid block (gameplay category Hookable).
pub open spec fn spec_solid_nbr(g: Grid, x: int, y: int, dx: int, dy: int) -> bool {
    &&& -1 <= dx <= 1
    &&& -1 <= dy <= 1
    &&& !(dx == 0 && dy == 0)
    &&& 0 <= x + dx < g.spec_width()
    &&& 0 <= y + dy < g.spec_height()
    &&& crate::block::spec_is_solid(g.block_at(x + dx, y + dy))
}

/// Whether any of the eight neighbors of `(x, y)` that lie inside the
/// grid holds a solid block.
pub open spec fn spec_has_solid_neighbor(g: Grid, x: int, y: int) -> bool {
    exists|dx: int, dy: int| #[trigger] spec_solid_nbr(g, x, y, dx, dy)
}

/// Whether cell `(x, y)` holds a solid block and lies inside the grid.
fn is_solid_at(map: &Grid, x: usize, y: usize) -> (r: bool)
    requires
        map.wf(),
        x < map.spec_width(),
        y < map.spec_height(),
    ensures
        r == crate::block::spec_is_solid(map.block_at(x as int, y as int)),
{
    map.get_block(x, y).is_solid()
}

/// Run-time mirror of [`spec_has_solid_neighbor`].
fn has_solid_neighbor(map: &Grid, x: usize, y: usize) -> (r: bool)
    requires
        map.wf(),
        x < map.spec_width(),
        y < map.spec_height(),
    ensures
        r == spec_has_solid_neighbor(*map, x as int, y as int),
{
    let w = map.width();
    let h = map.height();
    let ghost xi = x as int;
    let ghost yi = y as int;
    let mut found = false;
    if x >= 1 && y >= 1 && is_solid_at(map, x - 1, y - 1) {
        proof {
            assert(spec_solid_nbr(*map, xi, yi, -1, -1));
        }
        found = true;
    }
    if x >= 1 && is_solid_at(map, x - 1, y) {
        proof {
            assert(spec_solid_nbr(*map, xi, yi, -1, 0));
        }
        found = true;
    }
    if x >= 1 && y + 1 < h && is_solid_at(map, x - 1, y + 1) {
        proof {
            assert(spec_solid_nbr(*map, xi, yi, -1, 1));
        }
        found = true;
    }
    if y >= 1 && is_solid_at(map, x, y - 1) {
        proof {
            assert(spec_solid_nbr(*map, xi, yi, 0, -1));
        }
        found = true;
    }
    if y + 1 < h && is_solid_at(map, x, y + 1) {
        proof {
            assert(spec_solid_nbr(*map, xi, yi, 0, 1));
        }
        found = true;
    }
    if x + 1 < w && y >= 1 && is_solid_at(map, x + 1, y - 1) {
        proof {
            assert(spec_solid_nbr(*map, xi, yi, 1, -1));
        }
        found = true;
    }
    if x + 1 < w && is_solid_at(map, x + 1, y) {
        proof {
            assert(spec_solid_nbr(*map, xi, yi, 1, 0));
        }
        found = true;
    }
    if x + 1 < w && y + 1 < h && is_solid_at(map, x + 1, y + 1) {
        proof {
            assert(spec_solid_nbr(*map, xi, yi, 1, 1));
        }
        found = true;
    }
    found
}

/// Two grids of the same shape where cells changed only from Freeze to
/// Empty agree on solid neighborhoods everywhere.
proof fn lemma_solid_nbr_preserved(g0: Grid, g: Grid, x: int, y: int)
    requires
        g.spec_width() == g0.spec_width(),
        g.spec_height() == g0.spec_height(),
        forall|u: int, v: int|
            0 <= u < g0.spec_width() && 0 <= v < g0.spec_height() ==> #[trigger] g.block_at(u, v)
                == g0.block_at(u, v) || (g0.block_at(u, v) == BlockType::Freeze && g.block_at(u, v)
                == BlockType::Empty),
    ensures
        spec_has_solid_neighbor(g, x, y) == spec_has_solid_neighbor(g0, x, y),
{
    if spec_has_solid_neighbor(g, x, y) {
        let (dx, dy) = choose|dx: int, dy: int| spec_solid_nbr(g, x, y, dx, dy);
        assert(g.block_at(x + dx, y + dy) == g0.block_at(x + dx, y + dy) || (g0.block_at(
            x + dx,
            y + dy,
        ) == BlockType::Freeze && g.block_at(x + dx, y + dy) == BlockType::Empty));
        assert(spec_solid_nbr(g0, x, y, dx, dy));
    }
    if spec_has_solid_neighbor(g0, x, y) {
        let (dx, dy) = choose|dx: int, dy: int| spec_solid_nbr(g0, x, y, dx, dy);
        assert(g.block_at(x + dx, y + dy) == g0.block_at(x + dx, y + dy) || (g0.block_at(
            x + dx,
            y + dy,
        ) == BlockType::Freeze && g.block_at(x + dx, y + dy) == BlockType::Empty));
        assert(spec_solid_nbr(g, x, y, dx, dy));
    }
}

/// The two cells are one cardinal step apart.
pub open spec fn spec_adjacent4(a: Position, b: Position) -> bool {
    ||| (a.x == b.x && (a.y + 1 == b.y || b.y + 1 == a.y))
    ||| (a.y == b.y && (a.x + 1 == b.x || b.x + 1 == a.x))
}

/// The cell lies strictly inside the grid, one cell away from every edge.
pub open spec fn spec_interior(g: Grid, p: Position) -> bool {
    1 <= p.x && p.x + 1 < g.spec_width() && 1 <= p.y && p.y + 1 < g.spec_height()
}

/// A blob region of `g`: a set of interior Freeze cells, closed under
/// 4-adjacency among interior Freeze cells, none of which has a solid
/// block in its 3-by-3 neighborhood. The 4-connected component of any
/// isolated freeze cell is such a region.
pub open spec fn spec_blob_region(g: Grid, s: Set<Position>) -> bool {
    &&& forall|c: Position|
        #[trigger] s.contains(c) ==> spec_interior(g, c) && g.block_at(c.x as int, c.y as int)
            == BlockType::Freeze && !spec_has_solid_neighbor(g, c.x as int, c.y as int)
    &&& forall|c: Position, q: Position|
        #[trigger] s.contains(c) && spec_adjacent4(c, q) && spec_interior(g, q) && g.block_at(
            q.x as int,
            q.y as int,
        ) == BlockType::Freeze ==> #[trigger] s.contains(q)
}

/// The position occurs in the list.
pub open spec fn spec_in_poslist(s: Seq<Position>, p: Position) -> bool {
    exists|k: int| 0 <= k < s.len() && s[k] == p
}

/// True cells in the first `n` rows of one mask column.
pub open spec fn spec_col_true_count(col: Seq<bool>, n: int) -> int
    decreases n,
{
    if n <= 0 {
        0
    } else {
        spec_col_true_count(col, n - 1) + (if col[n - 1] {
            1int
        } else {
            0int
        })
    }
}

/// True cells in the first `n` columns of a mask, `h` rows each.
pub open spec fn spec_marked_count(m: Seq<Vec<bool>>, n: int, h: int) -> int
    decreases n,
{
    if n <= 0 {
        0
    } else {
        spec_marked_count(m, n - 1, h) + spec_col_true_count(m[n - 1]@, h)
    }
}

/// A column count lies between zero and the number of rows counted.
proof fn lemma_col_count_bounds(col: Seq<bool>, n: int)
    ensures
        0 <= spec_col_true_count(col, n),
        spec_col_true_count(col, n) <= (if n >= 0 {
            n
        } else {
            0int
        }),
    decreases n,
{
    if n > 0 {
        lemma_col_count_bounds(col, n - 1);
    }
}

/// A column count ignores updates at or beyond the counted rows.
proof fn lemma_col_count_frozen(col: Seq<bool>, j: int, v: bool, n: int)
    requires
        j >= n,
        0 <= j < col.len(),
        n <= col.len(),
    ensures
        spec_col_true_count(col.update(j, v), n) == spec_col_true_count(col, n),
    decreases n,
{
    if n > 0 {
        lemma_col_count_frozen(col, j, v, n - 1);
    }
}

/// Setting a counted false cell to true raises the column count by one.
proof fn lemma_col_count_set(col: Seq<bool>, j: int, n: int)
    requires
        0 <= j < n,
        n <= col.len(),
        !col[j],
    ensures
        spec_col_true_count(col.update(j, true), n) == spec_col_true_count(col, n) + 1,
    decreases n,
{
    if j == n - 1 {
        lemma_col_count_frozen(col, j, true, n - 1);
        assert(col.update(j, true)[n - 1]);
    } else {
        lemma_col_count_set(col, j, n - 1);
        assert(col.update(j, true)[n - 1] == col[n - 1]);
    }
}

/// A mask count lies between zero and the counted area.
proof fn lemma_marked_count_bounds(m: Seq<Vec<bool>>, n: int, h: int)
    requires
        h >= 0,
    ensures
        0 <= spec_marked_count(m, n, h),
        spec_marked_count(m, n, h) <= (if n >= 0 {
            n * h
        } else {
            0int
        }),
    decreases n,
{
    if n > 0 {
        lemma_marked_count_bounds(m, n - 1, h);
        lemma_col_count_bounds(m[n - 1]@, h);
        assert((n - 1) * h + h == n * h) by (nonlinear_arith);
    }
}

/// A mask count ignores column replacements at or beyond the counted
/// columns.
proof fn lemma_marked_count_frozen(m: Seq<Vec<bool>>, i: int, v: Vec<bool>, n: int, h: int)
    requires
        i >= n,
        0 <= i < m.len(),
        n <= m.len(),
    ensures
        spec_marked_count(m.update(i, v), n, h) == spec_marked_count(m, n, h),
    decreases n,
{
    if n > 0 {
        lemma_marked_count_frozen(m, i, v, n - 1, h);
    }
}

/// Setting one counted false cell to true raises the mask count by one.
proof fn lemma_marked_count_set(m: Seq<Vec<bool>>, v2: Vec<bool>, x: int, y: int, n: int, h: int)
    requires
        0 <= x < n,
        n <= m.len(),
        0 <= y < h,
        h <= m[x]@.len(),
        !m[x]@[y],
        v2@ == m[x]@.update(y, true),
    ensures
        spec_marked_count(m.update(x, v2), n, h) == spec_marked_count(m, n, h) + 1,
    decreases n,
{
    if x == n - 1 {
        lemma_marked_count_frozen(m, x, v2, n - 1, h);
        lemma_col_count_set(m[x]@, y, h);
    } else {
        lemma_marked_count_set(m, v2, x, y, n - 1, h);
    }
}

/// Marks an unmarked cell and queues it for the component walk, raising
/// the number of marked cells by exactly one.
fn push_unmarked(
    marked: &mut Vec<Vec<bool>>,
    worklist: &mut Vec<Position>,
    q: Position,
    w: usize,
    h: usize,
)
    requires
        old(marked)@.len() == w,
        forall|xi: int| 0 <= xi < w ==> (#[trigger] old(marked)@[xi])@.len() == h,
        q.x < w,
        q.y < h,
        !old(marked)@[q.x as int]@[q.y as int],
    ensures
        final(marked)@.len() == w,
        forall|xi: int| 0 <= xi < w ==> (#[trigger] final(marked)@[xi])@.len() == h,
        final(worklist)@ == old(worklist)@.push(q),
        forall|xi: int, yi: int|
            0 <= xi < w && 0 <= yi < h ==> (#[trigger] final(marked)@[xi]@[yi]) == (old(
                marked,
            )@[xi]@[yi] || (xi == q.x && yi == q.y)),
        spec_marked_count(final(marked)@, w as int, h as int) == spec_marked_count(
            old(marked)@,
            w as int,
            h as int,
        ) + 1,
{
    let ghost m_before = marked@;
    let row = &mut marked[q.x];
    row.set(q.y, true);
    worklist.push(q);
    proof {
        lemma_marked_count_set(m_before, marked@[q.x as int], q.x as int, q.y as int, w as int,
            h as int);
    }
}

/// The flag set is closed under freeze adjacency: whenever a flagged
/// interior Freeze cell of `g` touches another interior Freeze cell,
/// that cell is flagged too.
pub open spec fn spec_closed_flags(m: Seq<Vec<bool>>, g: Grid) -> bool {
    forall|c: Position, q: Position|
        spec_interior(g, c) && spec_interior(g, q) && #[trigger] spec_adjacent4(c, q)
            && g.block_at(c.x as int, c.y as int) == BlockType::Freeze && g.block_at(
            q.x as int,
            q.y as int,
        ) == BlockType::Freeze && m[c.x as int]@[c.y as int] ==> m[q.x as int]@[q.y as int]
}

/// A sound, adjacency-closed flag set is itself a blob region: every
/// flagged cell therefore lies in one.
pub proof fn lemma_flags_are_blob_region(m: Seq<Vec<bool>>, g: Grid)
    requires
        m.len() == g.spec_width(),
        forall|x: int| 0 <= x < g.spec_width() ==> (#[trigger] m[x])@.len() == g.spec_height(),
        forall|x: int, y: int|
            0 <= x < g.spec_width() && 0 <= y < g.spec_height() && (#[trigger] m[x]@[y])
                ==> g.block_at(x, y) == BlockType::Freeze && !spec_has_solid_neighbor(g, x, y),
        spec_closed_flags(m, g),
        forall|x: int, y: int|
            0 <= x < g.spec_width() && 0 <= y < g.spec_height() && (#[trigger] m[x]@[y])
                ==> spec_interior(g, Position { x: x as usize, y: y as usize }),
    ensures
        spec_blob_region(
            g,
            Set::new(
                |p: Position|
                    p.x < g.spec_width() && p.y < g.spec_height() && m[p.x as int]@[p.y as int],
            ),
        ),
{
    let s = Set::new(
        |p: Position| p.x < g.spec_width() && p.y < g.spec_height() && m[p.x as int]@[p.y as int],
    );
    assert forall|c: Position| #[trigger] s.contains(c) implies spec_interior(g, c) && g.block_at(
        c.x as int,
        c.y as int,
    ) == BlockType::Freeze && !spec_has_solid_neighbor(g, c.x as int, c.y as int) by {
        assert(m[c.x as int]@[c.y as int]);
    }
    assert forall|c: Position, q: Position|
        #[trigger] s.contains(c) && spec_adjacent4(c, q) && spec_interior(g, q) && g.block_at(
            q.x as int,
            q.y as int,
        ) == BlockType::Freeze implies #[trigger] s.contains(q) by {
        assert(m[c.x as int]@[c.y as int]);
        assert(m[q.x as int]@[q.y as int]);
    }
}

/// The marked set is closed under freeze adjacency, except for cells
/// still waiting in the work list.
pub open spec fn spec_closed_marks_except(
    m: Seq<Vec<bool>>,
    g: Grid,
    wl: Seq<Position>,
) -> bool {
    forall|c: Position, q: Position|
        spec_interior(g, c) && spec_interior(g, q) && #[trigger] spec_adjacent4(c, q)
            && g.block_at(c.x as int, c.y as int) == BlockType::Freeze && g.block_at(
            q.x as int,
            q.y as int,
        ) == BlockType::Freeze && m[c.x as int]@[c.y as int] && !spec_in_poslist(wl, c)
            ==> m[q.x as int]@[q.y as int]
}

/// Removes isolated freeze blobs: starting from every unvisited interior
/// freeze cell, its 4-connected freeze component is explored with an
/// explicit work list, visiting each cell once; if no visited cell has a
/// solid block anywhere in its 3-by-3 neighborhood, the whole component
/// is an isolated blob, and its cells are erased to Empty and flagged in
/// the returned mask. Every erased cell was a Freeze cell without a
/// solid neighbor; everything else is untouched.
pub fn remove_freeze_blobs(map: &mut Grid) -> (mask: Vec<Vec<bool>>)
    requires
        old(map).wf(),
    ensures
        final(map).wf(),
        final(map).same_shape(old(map)),
        mask@.len() == old(map).spec_width(),
        forall|x: int| 0 <= x < mask@.len() ==> (#[trigger] mask@[x])@.len() == old(
            map,
        ).spec_height(),
        forall|x: int, y: int|
            0 <= x < old(map).spec_width() && 0 <= y < old(map).spec_height()
                && (#[trigger] mask@[x]@[y]) ==> old(map).block_at(x, y) == BlockType::Freeze
                && !spec_has_solid_neighbor(*old(map), x, y),
        forall|x: int, y: int|
            0 <= x < old(map).spec_width() && 0 <= y < old(map).spec_height()
                ==> #[trigger] final(map).block_at(x, y) == (if mask@[x]@[y] {
                BlockType::Empty
            } else {
                old(map).block_at(x, y)
            }),
        forall|cx: int, cy: int|
            0 <= cx < crate::grid::spec_num_chunks(old(map).spec_width()) && 0 <= cy
                < crate::grid::spec_num_chunks(old(map).spec_height()) && old(map).chunk_at(cx, cy)
                ==> #[trigger] final(map).chunk_at(cx, cy),
        forall|s: Set<Position>, x: int, y: int|
            spec_blob_region(*old(map), s) && 0 <= x < old(map).spec_width() && 0 <= y < old(
                map,
            ).spec_height() && #[trigger] s.contains(Position { x: x as usize, y: y as usize })
                ==> mask@[x]@[y],
        spec_closed_flags(mask@, *old(map)),
{
    let w = map.width();
    let h = map.height();
    let ghost g0 = *map;
    let mut mask: Vec<Vec<bool>> = crate::grid::fill_rect(w, h, false);
    if w < 3 || h < 3 {
        proof {
            // A grid this small has no interior, so no blob region holds
            // any cell at all.
            assert forall|s: Set<Position>, x: int, y: int|
                spec_blob_region(g0, s) && 0 <= x < w && 0 <= y < h && #[trigger] s.contains(
                    Position { x: x as usize, y: y as usize },
                ) implies mask@[x]@[y] by {
                assert(spec_interior(g0, Position { x: x as usize, y: y as usize }));
            }
        }
        return mask;
    }
    let mut marked: Vec<Vec<bool>> = crate::grid::fill_rect(w, h, false);
    proof {
        assert(w * h <= 0x8000 * 0x8000) by (nonlinear_arith)
            requires
                0 <= w <= 0x8000,
                0 <= h <= 0x8000,
        ;
    }
    let bound: usize = w * h;

    let mut x: usize = 1;
    while x + 1 < w
        invariant
            map.wf(),
            map.same_shape(&g0),
            g0.wf(),
            1 <= x,
            x + 1 <= w,
            3 <= w,
            3 <= h,
            bound == w * h,
            w == g0.spec_width(),
            h == g0.spec_height(),
            mask@.len() == w,
            forall|xi: int| 0 <= xi < w ==> (#[trigger] mask@[xi])@.len() == h,
            marked@.len() == w,
            forall|xi: int| 0 <= xi < w ==> (#[trigger] marked@[xi])@.len() == h,
            forall|xi: int, yi: int|
                0 <= xi < w && 0 <= yi < h && (#[trigger] mask@[xi]@[yi]) ==> g0.block_at(xi, yi)
                    == BlockType::Freeze && !spec_has_solid_neighbor(g0, xi, yi),
            forall|xi: int, yi: int|
                0 <= xi < w && 0 <= yi < h ==> #[trigger] map.block_at(xi, yi) == (
                if mask@[xi]@[yi] {
                    BlockType::Empty
                } else {
                    g0.block_at(xi, yi)
                }),
            forall|cx: int, cy: int|
                0 <= cx < crate::grid::spec_num_chunks(g0.spec_width()) && 0 <= cy
                    < crate::grid::spec_num_chunks(g0.spec_height()) && g0.chunk_at(cx, cy)
                    ==> #[trigger] map.chunk_at(cx, cy),
            forall|s: Set<Position>, xi: int, yi: int|
                spec_blob_region(g0, s) && 0 <= xi < w && 0 <= yi < h && #[trigger] s.contains(
                    Position { x: xi as usize, y: yi as usize },
                ) && marked@[xi]@[yi] ==> mask@[xi]@[yi],
            forall|xi: int, yi: int|
                1 <= xi && xi + 1 < w && 1 <= yi && yi + 1 < h && xi < x
                    ==> #[trigger] marked@[xi]@[yi],
            spec_closed_marks_except(marked@, g0, Seq::<Position>::empty()),
            spec_closed_flags(mask@, g0),
            forall|xi: int, yi: int|
                0 <= xi < w && 0 <= yi < h && (#[trigger] mask@[xi]@[yi]) ==> marked@[xi]@[yi],
        decreases w - x,
    {
        let mut y: usize = 1;
        while y + 1 < h
            invariant
                map.wf(),
                map.same_shape(&g0),
                g0.wf(),
                1 <= x,
                x + 1 < w,
                1 <= y,
                y + 1 <= h,
                3 <= w,
                3 <= h,
                bound == w * h,
                w == g0.spec_width(),
                h == g0.spec_height(),
                mask@.len() == w,
                forall|xi: int| 0 <= xi < w ==> (#[trigger] mask@[xi])@.len() == h,
                marked@.len() == w,
                forall|xi: int| 0 <= xi < w ==> (#[trigger] marked@[xi])@.len() == h,
                forall|xi: int, yi: int|
                    0 <= xi < w && 0 <= yi < h && (#[trigger] mask@[xi]@[yi]) ==> g0.block_at(
                        xi,
                        yi,
                    ) == BlockType::Freeze && !spec_has_solid_neighbor(g0, xi, yi),
                forall|xi: int, yi: int|
                    0 <= xi < w && 0 <= yi < h ==> #[trigger] map.block_at(xi, yi) == (
                    if mask@[xi]@[yi] {
                        BlockType::Empty
                    } else {
                        g0.block_at(xi, yi)
                    }),
                forall|cx: int, cy: int|
                    0 <= cx < crate::grid::spec_num_chunks(g0.spec_width()) && 0 <= cy
                        < crate::grid::spec_num_chunks(g0.spec_height()) && g0.chunk_at(cx, cy)
                        ==> #[trigger] map.chunk_at(cx, cy),
                forall|s: Set<Position>, xi: int, yi: int|
                    spec_blob_region(g0, s) && 0 <= xi < w && 0 <= yi < h && #[trigger] s.contains(
                        Position { x: xi as usize, y: yi as usize },
                    ) && marked@[xi]@[yi] ==> mask@[xi]@[yi],
                forall|xi: int, yi: int|
                    1 <= xi && xi + 1 < w && 1 <= yi && yi + 1 < h && (xi < x || (xi == x && yi
                        < y)) ==> #[trigger] marked@[xi]@[yi],
                spec_closed_marks_except(marked@, g0, Seq::<Position>::empty()),
                spec_closed_flags(mask@, g0),
                forall|xi: int, yi: int|
                    0 <= xi < w && 0 <= yi < h && (#[trigger] mask@[xi]@[yi]) ==> marked@[xi]@[yi],
            decreases h - y,
        {
            let already = marked[x][y];
            let seed_freeze = map.get_block(x, y) == BlockType::Freeze;
            if !already && !seed_freeze {
                let ghost marked_pre = marked@;
                let row = &mut marked[x];
                row.set(y, true);
                proof {
                    // A non-freeze cell of the current grid is either an
                    // already erased blob cell or never a region member.
                    let c = Position { x: x, y: y };
                    assert forall|s: Set<Position>|
                        spec_blob_region(g0, s) && #[trigger] s.contains(c)
                            implies mask@[x as int]@[y as int] by {
                        assert(g0.block_at(x as int, y as int) == BlockType::Freeze);
                        assert(map.block_at(x as int, y as int) != BlockType::Freeze);
                    }
                    // Closure for the newly marked cell: if it is a
                    // freeze cell of the original grid it must be an
                    // erased one, whose neighbors the flag closure and
                    // the flags-imply-marks account already cover.
                    assert forall|ci: Position, q: Position|
                        spec_interior(g0, ci) && spec_interior(g0, q) && #[trigger] spec_adjacent4(
                            ci,
                            q,
                        ) && g0.block_at(ci.x as int, ci.y as int) == BlockType::Freeze
                            && g0.block_at(q.x as int, q.y as int) == BlockType::Freeze
                            && marked@[ci.x as int]@[ci.y as int] && !spec_in_poslist(
                            Seq::<Position>::empty(),
                            ci,
                        ) implies marked@[q.x as int]@[q.y as int] by {
                        if ci == c {
                            assert(mask@[x as int]@[y as int]);
                            assert(mask@[q.x as int]@[q.y as int]);
                        } else {
                            assert(marked_pre[ci.x as int]@[ci.y as int]);
                        }
                    }
                }
            }
            if !already && seed_freeze {
                scan_component(map, &mut marked, &mut mask, x, y, bound, Ghost(g0));
            }
            y = y + 1;
        }
        x = x + 1;
    }
    proof {
        // Every interior cell was scanned and marked, so region members
        // fall under the marked-implies-flagged account.
        assert forall|s: Set<Position>, xi: int, yi: int|
            spec_blob_region(g0, s) && 0 <= xi < w && 0 <= yi < h && #[trigger] s.contains(
                Position { x: xi as usize, y: yi as usize },
            ) implies mask@[xi]@[yi] by {
            assert(spec_interior(g0, Position { x: xi as usize, y: yi as usize }));
            assert(marked@[xi]@[yi]);
        }
    }
    mask
}

/// Explores one 4-connected freeze component from its seed, and erases
/// it when no cell of the component touches a solid block. Every cell of
/// any blob region that this call marks is erased and flagged.
#[verifier::rlimit(100)]
fn scan_component(
    map: &mut Grid,
    marked: &mut Vec<Vec<bool>>,
    mask: &mut Vec<Vec<bool>>,
    seed_x: usize,
    seed_y: usize,
    bound: usize,
    Ghost(g0): Ghost<Grid>,
)
    requires
        old(map).wf(),
        old(map).same_shape(&g0),
        g0.wf(),
        old(map).spec_width() == g0.spec_width(),
        old(map).spec_height() == g0.spec_height(),
        bound == g0.spec_width() * g0.spec_height(),
        1 <= seed_x,
        seed_x + 1 < g0.spec_width(),
        1 <= seed_y,
        seed_y + 1 < g0.spec_height(),
        old(map).block_at(seed_x as int, seed_y as int) == BlockType::Freeze,
        !old(marked)@[seed_x as int]@[seed_y as int],
        spec_closed_marks_except(old(marked)@, g0, Seq::<Position>::empty()),
        spec_closed_flags(old(mask)@, g0),
        forall|xi: int, yi: int|
            0 <= xi < g0.spec_width() && 0 <= yi < g0.spec_height()
                && (#[trigger] old(mask)@[xi]@[yi]) ==> old(marked)@[xi]@[yi],
        old(mask)@.len() == g0.spec_width(),
        forall|xi: int|
            0 <= xi < g0.spec_width() ==> (#[trigger] old(mask)@[xi])@.len() == g0.spec_height(),
        old(marked)@.len() == g0.spec_width(),
        forall|xi: int|
            0 <= xi < g0.spec_width() ==> (#[trigger] old(marked)@[xi])@.len() == g0.spec_height(),
        forall|xi: int, yi: int|
            0 <= xi < g0.spec_width() && 0 <= yi < g0.spec_height()
                && (#[trigger] old(mask)@[xi]@[yi]) ==> g0.block_at(xi, yi) == BlockType::Freeze
                && !spec_has_solid_neighbor(g0, xi, yi),
        forall|xi: int, yi: int|
            0 <= xi < g0.spec_width() && 0 <= yi < g0.spec_height()
                ==> #[trigger] old(map).block_at(xi, yi) == (if old(mask)@[xi]@[yi] {
                BlockType::Empty
            } else {
                g0.block_at(xi, yi)
            }),
        forall|cx: int, cy: int|
            0 <= cx < crate::grid::spec_num_chunks(g0.spec_width()) && 0 <= cy
                < crate::grid::spec_num_chunks(g0.spec_height()) && g0.chunk_at(cx, cy)
                ==> #[trigger] old(map).chunk_at(cx, cy),
    ensures
        final(map).wf(),
        final(map).same_shape(&g0),
        final(mask)@.len() == g0.spec_width(),
        forall|xi: int|
            0 <= xi < g0.spec_width() ==> (#[trigger] final(mask)@[xi])@.len() == g0.spec_height(),
        final(marked)@.len() == g0.spec_width(),
        forall|xi: int|
            0 <= xi < g0.spec_width() ==> (#[trigger] final(marked)@[xi])@.len()
                == g0.spec_height(),
        forall|xi: int, yi: int|
            0 <= xi < g0.spec_width() && 0 <= yi < g0.spec_height()
                && (#[trigger] final(mask)@[xi]@[yi]) ==> g0.block_at(xi, yi)
                == BlockType::Freeze && !spec_has_solid_neighbor(g0, xi, yi),
        forall|xi: int, yi: int|
            0 <= xi < g0.spec_width() && 0 <= yi < g0.spec_height()
                ==> #[trigger] final(map).block_at(xi, yi) == (if final(mask)@[xi]@[yi] {
                BlockType::Empty
            } else {
                g0.block_at(xi, yi)
            }),
        forall|cx: int, cy: int|
            0 <= cx < crate::grid::spec_num_chunks(g0.spec_width()) && 0 <= cy
                < crate::grid::spec_num_chunks(g0.spec_height()) && g0.chunk_at(cx, cy)
                ==> #[trigger] final(map).chunk_at(cx, cy),
        forall|xi: int, yi: int|
            0 <= xi < g0.spec_width() && 0 <= yi < g0.spec_height()
                && (#[trigger] old(mask)@[xi]@[yi]) ==> final(mask)@[xi]@[yi],
        forall|xi: int, yi: int|
            0 <= xi < g0.spec_width() && 0 <= yi < g0.spec_height()
                && (#[trigger] old(marked)@[xi]@[yi]) ==> final(marked)@[xi]@[yi],
        forall|xi: int, yi: int|
            0 <= xi < g0.spec_width() && 0 <= yi < g0.spec_height()
                && !(#[trigger] final(marked)@[xi]@[yi]) ==> !old(marked)@[xi]@[yi],
        final(marked)@[seed_x as int]@[seed_y as int],
        spec_closed_marks_except(final(marked)@, g0, Seq::<Position>::empty()),
        spec_closed_flags(final(mask)@, g0),
        forall|xi: int, yi: int|
            0 <= xi < g0.spec_width() && 0 <= yi < g0.spec_height()
                && (#[trigger] final(mask)@[xi]@[yi]) ==> final(marked)@[xi]@[yi],
        forall|s: Set<Position>, xi: int, yi: int|
            spec_blob_region(g0, s) && 0 <= xi < g0.spec_width() && 0 <= yi < g0.spec_height()
                && #[trigger] s.contains(Position { x: xi as usize, y: yi as usize })
                && final(marked)@[xi]@[yi] && !old(marked)@[xi]@[yi] ==> final(mask)@[xi]@[yi],
{
    let ghost m0 = *map;
    let ghost marked0 = marked@;
    let ghost count0 = spec_marked_count(marked@, g0.spec_width(), g0.spec_height());
    let ghost seed_pos = Position { x: seed_x, y: seed_y };
    let w = map.width();
    let h = map.height();
    let mut visited: Vec<Position> = Vec::new();
    let mut worklist: Vec<Position> = Vec::new();
    push_unmarked(marked, &mut worklist, Position::new(seed_x, seed_y), w, h);
    proof {
        assert(worklist@[0] == seed_pos);
        assert forall|xi: int, yi: int|
            0 <= xi < w && 0 <= yi < h implies ((#[trigger] marked@[xi]@[yi]) <==> (
        marked0[xi]@[yi] || spec_in_poslist(
            visited@,
            Position { x: xi as usize, y: yi as usize },
        ) || spec_in_poslist(worklist@, Position { x: xi as usize, y: yi as usize }))) by {
            let c = Position { x: xi as usize, y: yi as usize };
            if spec_in_poslist(worklist@, c) {
                let k = choose|k: int| 0 <= k < worklist@.len() && worklist@[k] == c;
                assert(c == seed_pos);
            }
            if marked@[xi]@[yi] && !marked0[xi]@[yi] {
                assert(c == seed_pos);
                assert(spec_in_poslist(worklist@, c));
            }
        }
        assert forall|c: Position, q: Position|
            spec_interior(g0, c) && spec_interior(g0, q) && #[trigger] spec_adjacent4(c, q)
                && g0.block_at(c.x as int, c.y as int) == BlockType::Freeze && g0.block_at(
                q.x as int,
                q.y as int,
            ) == BlockType::Freeze && marked@[c.x as int]@[c.y as int] && !spec_in_poslist(
                worklist@,
                c,
            ) implies marked@[q.x as int]@[q.y as int] by {
            assert(c != seed_pos) by {
                assert(worklist@[0] == seed_pos);
            }
            assert(marked0[c.x as int]@[c.y as int]);
            assert(!spec_in_poslist(Seq::<Position>::empty(), c));
        }
    }
    let mut unconnected = true;
    let mut steps: usize = 0;

    while worklist.len() > 0 && steps < bound
        invariant
            map.wf(),
            *map == m0,
            m0.same_shape(&g0),
            g0.wf(),
            w == g0.spec_width(),
            h == g0.spec_height(),
            bound == w * h,
            steps <= bound,
            seed_pos == (Position { x: seed_x, y: seed_y }),
            marked@[seed_x as int]@[seed_y as int],
            forall|xi: int, yi: int|
                0 <= xi < w && 0 <= yi < h && (#[trigger] marked0[xi]@[yi]) ==> marked@[xi]@[yi],
            forall|xi: int, yi: int|
                0 <= xi < w && 0 <= yi < h && (#[trigger] mask@[xi]@[yi]) ==> g0.block_at(xi, yi)
                    == BlockType::Freeze && !spec_has_solid_neighbor(g0, xi, yi),
            1 <= seed_x && seed_x + 1 < w,
            1 <= seed_y && seed_y + 1 < h,
            marked@.len() == w,
            forall|xi: int| 0 <= xi < w ==> (#[trigger] marked@[xi])@.len() == h,
            marked0.len() == w,
            forall|xi: int| 0 <= xi < w ==> (#[trigger] marked0[xi])@.len() == h,
            count0 == spec_marked_count(marked0, w as int, h as int),
            worklist@.len() + steps == spec_marked_count(marked@, w as int, h as int) - count0,
            forall|xi: int, yi: int|
                0 <= xi < w && 0 <= yi < h ==> #[trigger] m0.block_at(xi, yi) == (
                if mask@[xi]@[yi] {
                    BlockType::Empty
                } else {
                    g0.block_at(xi, yi)
                }),
            mask@.len() == w,
            forall|xi: int| 0 <= xi < w ==> (#[trigger] mask@[xi])@.len() == h,
            forall|k: int|
                0 <= k < worklist@.len() ==> {
                    let p = #[trigger] worklist@[k];
                    &&& 1 <= p.x && p.x + 1 < w
                    &&& 1 <= p.y && p.y + 1 < h
                    &&& m0.block_at(p.x as int, p.y as int) == BlockType::Freeze
                    &&& !marked0[p.x as int]@[p.y as int]
                },
            forall|k: int|
                0 <= k < visited@.len() ==> {
                    let p = #[trigger] visited@[k];
                    &&& 1 <= p.x && p.x + 1 < w
                    &&& 1 <= p.y && p.y + 1 < h
                    &&& m0.block_at(p.x as int, p.y as int) == BlockType::Freeze
                    &&& !marked0[p.x as int]@[p.y as int]
                },
            unconnected ==> forall|k: int|
                0 <= k < visited@.len() ==> !spec_has_solid_neighbor(
                    m0,
                    (#[trigger] visited@[k]).x as int,
                    visited@[k].y as int,
                ),
            forall|xi: int, yi: int|
                0 <= xi < w && 0 <= yi < h ==> ((#[trigger] marked@[xi]@[yi]) <==> (
                marked0[xi]@[yi] || spec_in_poslist(
                    visited@,
                    Position { x: xi as usize, y: yi as usize },
                ) || spec_in_poslist(worklist@, Position { x: xi as usize, y: yi as usize }))),
            forall|s: Set<Position>, k: int|
                spec_blob_region(g0, s) && 0 <= k < visited@.len() ==> (#[trigger] s.contains(
                    visited@[k],
                ) <==> s.contains(seed_pos)),
            forall|s: Set<Position>, k: int|
                spec_blob_region(g0, s) && 0 <= k < worklist@.len() ==> (#[trigger] s.contains(
                    worklist@[k],
                ) <==> s.contains(seed_pos)),
            forall|s: Set<Position>|
                #[trigger] spec_blob_region(g0, s) && s.contains(seed_pos) ==> unconnected,
            spec_closed_flags(mask@, g0),
            forall|xi: int, yi: int|
                0 <= xi < w && 0 <= yi < h && (#[trigger] mask@[xi]@[yi]) ==> marked@[xi]@[yi],
            spec_closed_marks_except(marked@, g0, worklist@),
        decreases bound - steps,
    {
        let ghost work0 = worklist@;
        let ghost vis0 = visited@;
        let ghost marked_pre = marked@;
        let p = match worklist.pop() {
            Some(p) => p,
            None => {
                proof {
                    assert(false);
                }
                Position::new(0, 0)
            },
        };
        proof {
            assert(p == work0[work0.len() - 1]);
        }
        if has_solid_neighbor(map, p.x, p.y) {
            unconnected = false;
            proof {
                // A region never contains a cell with a solid neighbor, so
                // no region can contain the seed of this component.
                assert forall|u: int, v: int|
                    0 <= u < w && 0 <= v < h implies #[trigger] m0.block_at(u, v) == g0.block_at(
                    u,
                    v,
                ) || (g0.block_at(u, v) == BlockType::Freeze && m0.block_at(u, v)
                    == BlockType::Empty) by {}
                assert forall|s: Set<Position>|
                    #[trigger] spec_blob_region(g0, s) implies !s.contains(seed_pos) by {
                    if s.contains(seed_pos) {
                        assert(s.contains(work0[work0.len() - 1]));
                        lemma_solid_nbr_preserved(g0, m0, p.x as int, p.y as int);
                    }
                }
            }
        }
        visited.push(p);

        let px = p.x;
        let py = p.y;
        if px >= 2 {
            let q = Position::new(px - 1, py);
            if !marked[q.x][q.y] && map.get_block(q.x, q.y) == BlockType::Freeze {
                let ghost wl_before = worklist@;
                push_unmarked(marked, &mut worklist, q, w, h);
                proof {
                    lemma_poslist_preserved_push(wl_before, q);
                    lemma_region_step(g0, m0, mask@, seed_pos, p, q, worklist@, work0);
                }
            }
        }
        if px + 2 < w {
            let q = Position::new(px + 1, py);
            if !marked[q.x][q.y] && map.get_block(q.x, q.y) == BlockType::Freeze {
                let ghost wl_before = worklist@;
                push_unmarked(marked, &mut worklist, q, w, h);
                proof {
                    lemma_poslist_preserved_push(wl_before, q);
                    lemma_region_step(g0, m0, mask@, seed_pos, p, q, worklist@, work0);
                }
            }
        }
        if py >= 2 {
            let q = Position::new(px, py - 1);
            if !marked[q.x][q.y] && map.get_block(q.x, q.y) == BlockType::Freeze {
                let ghost wl_before = worklist@;
                push_unmarked(marked, &mut worklist, q, w, h);
                proof {
                    lemma_poslist_preserved_push(wl_before, q);
                    lemma_region_step(g0, m0, mask@, seed_pos, p, q, worklist@, work0);
                }
            }
        }
        if py + 2 < h {
            let q = Position::new(px, py + 1);
            if !marked[q.x][q.y] && map.get_block(q.x, q.y) == BlockType::Freeze {
                let ghost wl_before = worklist@;
                push_unmarked(marked, &mut worklist, q, w, h);
                proof {
                    lemma_poslist_preserved_push(wl_before, q);
                    lemma_region_step(g0, m0, mask@, seed_pos, p, q, worklist@, work0);
                }
            }
        }
        steps = steps + 1;
        proof {
            // Re-establish the membership account: the popped cell moved
            // into the visited list, the pushed cells into the work list.
            assert forall|xi: int, yi: int|
                0 <= xi < w && 0 <= yi < h implies ((#[trigger] marked@[xi]@[yi]) <==> (
            marked0[xi]@[yi] || spec_in_poslist(
                visited@,
                Position { x: xi as usize, y: yi as usize },
            ) || spec_in_poslist(worklist@, Position { x: xi as usize, y: yi as usize }))) by {
                let c = Position { x: xi as usize, y: yi as usize };
                if marked@[xi]@[yi] {
                    if marked_pre[xi]@[yi] {
                        if spec_in_poslist(vis0, c) {
                            let k = choose|k: int| 0 <= k < vis0.len() && vis0[k] == c;
                            assert(visited@[k] == c);
                        } else if !marked0[xi]@[yi] {
                            let k = choose|k: int| 0 <= k < work0.len() && work0[k] == c;
                            if k < work0.len() - 1 {
                                assert(worklist@[k] == c);
                            } else {
                                assert(visited@[visited@.len() - 1] == c);
                            }
                        }
                    } else {
                        assert(spec_in_poslist(worklist@, c));
                    }
                } else {
                    assert(!marked_pre[xi]@[yi]);
                    assert(!marked0[xi]@[yi]);
                    if spec_in_poslist(visited@, c) {
                        let k = choose|k: int| 0 <= k < visited@.len() && visited@[k] == c;
                        assert(marked@[xi]@[yi]);
                    }
                    if spec_in_poslist(worklist@, c) {
                        let k = choose|k: int| 0 <= k < worklist@.len() && worklist@[k] == c;
                        assert(marked@[xi]@[yi]);
                    }
                }
            }
            // Re-establish the closure account: the popped cell's freeze
            // neighbors are all marked now, everything else carries over.
            assert forall|c: Position, q: Position|
                spec_interior(g0, c) && spec_interior(g0, q) && #[trigger] spec_adjacent4(c, q)
                    && g0.block_at(c.x as int, c.y as int) == BlockType::Freeze && g0.block_at(
                    q.x as int,
                    q.y as int,
                ) == BlockType::Freeze && marked@[c.x as int]@[c.y as int] && !spec_in_poslist(
                    worklist@,
                    c,
                ) implies marked@[q.x as int]@[q.y as int] by {
                if c == p {
                    assert(m0.block_at(q.x as int, q.y as int) == BlockType::Freeze
                        || mask@[q.x as int]@[q.y as int]);
                } else {
                    if spec_in_poslist(work0, c) {
                        let k = choose|k: int| 0 <= k < work0.len() && work0[k] == c;
                        assert(k < work0.len() - 1);
                        assert(spec_in_poslist(work0.drop_last(), c)) by {
                            assert(work0.drop_last()[k] == c);
                        }
                        assert(spec_in_poslist(worklist@, c));
                    } else if marked_pre[c.x as int]@[c.y as int] {
                        assert(marked_pre[q.x as int]@[q.y as int]);
                    } else {
                        assert(spec_in_poslist(worklist@, c));
                    }
                }
            }
        }
    }

    proof {
        // The walk always drains its work list: every queued cell was a
        // fresh mark, and there are at most `bound` cells to mark.
        lemma_marked_count_bounds(marked@, w as int, h as int);
        lemma_marked_count_bounds(marked0, w as int, h as int);
        assert(worklist@.len() == 0);
    }

    if unconnected && worklist.len() == 0 {
        // The component never touched a solid block: erase it.
        let ghost mask0 = mask@;
        let mut k: usize = 0;
        while k < visited.len()
            invariant
                map.wf(),
                map.same_shape(&g0),
                g0.wf(),
                k <= visited@.len(),
                w == g0.spec_width(),
                h == g0.spec_height(),
                m0.spec_width() == g0.spec_width(),
                m0.spec_height() == g0.spec_height(),
                forall|u: int, v: int|
                    0 <= u < w && 0 <= v < h ==> #[trigger] m0.block_at(u, v) == g0.block_at(u, v)
                        || (g0.block_at(u, v) == BlockType::Freeze && m0.block_at(u, v)
                        == BlockType::Empty),
                mask@.len() == w,
                forall|xi: int| 0 <= xi < w ==> (#[trigger] mask@[xi])@.len() == h,
                forall|xi: int, yi: int|
                    0 <= xi < w && 0 <= yi < h && (#[trigger] mask0[xi]@[yi]) ==> mask@[xi]@[yi],
                forall|xi: int, yi: int|
                    0 <= xi < w && 0 <= yi < h ==> ((#[trigger] mask@[xi]@[yi]) <==> (
                    mask0[xi]@[yi] || exists|j: int|
                        0 <= j < k && visited@[j] == (Position {
                            x: xi as usize,
                            y: yi as usize,
                        }))),
                forall|xi: int, yi: int|
                    0 <= xi < w && 0 <= yi < h && (#[trigger] mask@[xi]@[yi]) ==> marked@[xi]@[yi],
                forall|xi: int, yi: int|
                    0 <= xi < w && 0 <= yi < h ==> ((#[trigger] marked@[xi]@[yi]) <==> (
                    marked0[xi]@[yi] || spec_in_poslist(
                        visited@,
                        Position { x: xi as usize, y: yi as usize },
                    ))),
                spec_closed_marks_except(marked@, g0, Seq::<Position>::empty()),
                spec_closed_marks_except(marked0, g0, Seq::<Position>::empty()),
                spec_closed_flags(mask0, g0),
                forall|j: int|
                    0 <= j < visited@.len() ==> {
                        let p = #[trigger] visited@[j];
                        &&& 1 <= p.x && p.x + 1 < w
                        &&& 1 <= p.y && p.y + 1 < h
                        &&& m0.block_at(p.x as int, p.y as int) == BlockType::Freeze
                        &&& !spec_has_solid_neighbor(m0, p.x as int, p.y as int)
                        &&& !marked0[p.x as int]@[p.y as int]
                    },
                forall|j: int|
                    0 <= j < k ==> mask@[(#[trigger] visited@[j]).x as int]@[visited@[j].y as int],
                forall|xi: int, yi: int|
                    0 <= xi < w && 0 <= yi < h && (#[trigger] mask@[xi]@[yi]) ==> g0.block_at(
                        xi,
                        yi,
                    ) == BlockType::Freeze && !spec_has_solid_neighbor(g0, xi, yi),
                forall|xi: int, yi: int|
                    0 <= xi < w && 0 <= yi < h ==> #[trigger] map.block_at(xi, yi) == (
                    if mask@[xi]@[yi] {
                        BlockType::Empty
                    } else {
                        g0.block_at(xi, yi)
                    }),
                forall|cx: int, cy: int|
                    0 <= cx < crate::grid::spec_num_chunks(g0.spec_width()) && 0 <= cy
                        < crate::grid::spec_num_chunks(g0.spec_height()) && g0.chunk_at(cx, cy)
                        ==> #[trigger] map.chunk_at(cx, cy),
            decreases visited@.len() - k,
        {
            let p = visited[k];
            proof {
                // The component was scanned against the pre-scan grid;
                // erasures so far only turned Freeze to Empty, so the
                // neighborhood facts carry over to the grid as it was
                // before this pass began.
                assert forall|u: int, v: int|
                    0 <= u < g0.spec_width() && 0 <= v < g0.spec_height() implies #[trigger] m0
                    .block_at(u, v) == g0.block_at(u, v) || (g0.block_at(u, v) == BlockType::Freeze
                    && m0.block_at(u, v) == BlockType::Empty) by {}
                lemma_solid_nbr_preserved(g0, m0, p.x as int, p.y as int);
            }
            {
                let row = &mut mask[p.x];
                row.set(p.y, true);
            }
            map.set_block_and_mark(p.x, p.y, BlockType::Empty);
            proof {
                assert(spec_in_poslist(visited@, p));
            }
            k = k + 1;
        }
        proof {
            // The erased component is adjacency-closed: a freeze
            // neighbor of an erased cell was either erased with it or
            // was marked before this walk, which the entry closure rules
            // out for a neighbor of a freshly marked cell.
            assert forall|c: Position, q: Position|
                spec_interior(g0, c) && spec_interior(g0, q) && #[trigger] spec_adjacent4(c, q)
                    && g0.block_at(c.x as int, c.y as int) == BlockType::Freeze && g0.block_at(
                    q.x as int,
                    q.y as int,
                ) == BlockType::Freeze && mask@[c.x as int]@[c.y as int]
                implies mask@[q.x as int]@[q.y as int] by {
                if mask0[c.x as int]@[c.y as int] {
                    assert(mask0[q.x as int]@[q.y as int]);
                } else {
                    assert(exists|j: int| 0 <= j < visited@.len() && visited@[j] == c) by {
                        assert(mask@[c.x as int]@[c.y as int]);
                        assert((Position { x: (c.x as int) as usize, y: (c.y as int) as usize })
                            == c);
                        let j0 = choose|j0: int|
                            0 <= j0 < visited@.len() && visited@[j0] == (Position {
                                x: (c.x as int) as usize,
                                y: (c.y as int) as usize,
                            });
                        assert(visited@[j0] == c);
                    }
                    let j = choose|j: int| 0 <= j < visited@.len() && visited@[j] == c;
                    assert(visited@[j] == c);
                    assert(!marked0[c.x as int]@[c.y as int]);
                    assert(marked@[q.x as int]@[q.y as int]);
                    if marked0[q.x as int]@[q.y as int] {
                        assert(spec_adjacent4(q, c));
                        assert(!spec_in_poslist(Seq::<Position>::empty(), q));
                        assert(marked0[c.x as int]@[c.y as int]);
                        assert(false);
                    }
                    assert(spec_in_poslist(visited@, q));
                    let jq = choose|jq: int| 0 <= jq < visited@.len() && visited@[jq] == q;
                }
            }
        }
    }
}

/// Pushing keeps every listed position listed and lists the new one.
proof fn lemma_poslist_preserved_push(s: Seq<Position>, e: Position)
    ensures
        spec_in_poslist(s.push(e), e),
        forall|c: Position| #[trigger] spec_in_poslist(s, c) ==> spec_in_poslist(s.push(e), c),
{
    assert(s.push(e)[s.len() as int] == e);
    assert forall|c: Position| #[trigger] spec_in_poslist(s, c) implies spec_in_poslist(
        s.push(e),
        c,
    ) by {
        let k = choose|k: int| 0 <= k < s.len() && s[k] == c;
        assert(s.push(e)[k] == c);
    }
}

/// One expansion step keeps region membership uniform: a freeze cell
/// pushed next to a popped cell lies in a region exactly when the popped
/// cell does.
proof fn lemma_region_step(
    g0: Grid,
    m0: Grid,
    mask: Seq<Vec<bool>>,
    seed_pos: Position,
    p: Position,
    q: Position,
    worklist: Seq<Position>,
    work0: Seq<Position>,
)
    requires
        g0.wf(),
        m0.spec_width() == g0.spec_width(),
        m0.spec_height() == g0.spec_height(),
        forall|xi: int, yi: int|
            0 <= xi < g0.spec_width() && 0 <= yi < g0.spec_height() ==> #[trigger] m0.block_at(
                xi,
                yi,
            ) == (if mask[xi]@[yi] {
                BlockType::Empty
            } else {
                g0.block_at(xi, yi)
            }),
        spec_interior(g0, p),
        spec_interior(g0, q),
        spec_adjacent4(p, q),
        m0.block_at(p.x as int, p.y as int) == BlockType::Freeze,
        m0.block_at(q.x as int, q.y as int) == BlockType::Freeze,
        work0.len() >= 1,
        p == work0[work0.len() - 1],
        forall|s: Set<Position>, k: int|
            spec_blob_region(g0, s) && 0 <= k < work0.len() ==> (#[trigger] s.contains(work0[k])
                <==> s.contains(seed_pos)),
    ensures
        forall|s: Set<Position>|
            #[trigger] spec_blob_region(g0, s) ==> (s.contains(q) <==> s.contains(seed_pos)),
{
    assert forall|s: Set<Position>|
        #[trigger] spec_blob_region(g0, s) implies (s.contains(q) <==> s.contains(seed_pos)) by {
        assert(g0.block_at(p.x as int, p.y as int) == BlockType::Freeze);
        assert(g0.block_at(q.x as int, q.y as int) == BlockType::Freeze);
        assert(s.contains(p) <==> s.contains(seed_pos));
        if s.contains(p) {
            assert(s.contains(q));
        }
        if s.contains(q) {
            assert(spec_adjacent4(q, p));
            assert(s.contains(p));
        }
    }
}

/// Entry `i` of the skip list has acceptance status `accepted` and one
/// of its endpoints at `(x, y)`.
pub open spec fn spec_endpoint_flag(
    skips: Seq<Skip>,
    valid: Seq<bool>,
    accepted: bool,
    i: int,
    x: int,
    y: int,
) -> bool {
    &&& 0 <= i < skips.len()
    &&& valid[i] == accepted
    &&& (skips[i].start == Position { x: x as usize, y: y as usize } || skips[i].end == Position {
        x: x as usize,
        y: y as usize,
    })
}

/// `mask` is exactly the endpoint mask of the skips with acceptance
/// status `accepted`: a cell is flagged iff some such skip starts or
/// ends there.
pub open spec fn spec_is_endpoint_mask(
    mask: Vec<Vec<bool>>,
    skips: Seq<Skip>,
    valid: Seq<bool>,
    accepted: bool,
    w: int,
    h: int,
) -> bool {
    &&& mask@.len() == w
    &&& forall|x: int| 0 <= x < w ==> (#[trigger] mask@[x])@.len() == h
    &&& forall|x: int, y: int|
        0 <= x < w && 0 <= y < h ==> ((#[trigger] mask@[x]@[y]) <==> exists|i: int|
            #[trigger] spec_endpoint_flag(skips, valid, accepted, i, x, y))
}

/// Builds the accepted and rejected endpoint masks of a skip selection:
/// the first mask flags exactly the start and end cells of every
/// accepted skip, the second those of every rejected one; endpoints
/// outside the grid are ignored.
pub fn endpoint_masks(skips: &Vec<Skip>, valid: &Vec<bool>, w: usize, h: usize) -> (r: (
    Vec<Vec<bool>>,
    Vec<Vec<bool>>,
))
    requires
        valid@.len() == skips@.len(),
        w <= 0x8000,
        h <= 0x8000,
    ensures
        spec_is_endpoint_mask(r.0, skips@, valid@, true, w as int, h as int),
        spec_is_endpoint_mask(r.1, skips@, valid@, false, w as int, h as int),
{
    let mut accepted_mask: Vec<Vec<bool>> = crate::grid::fill_rect(w, h, false);
    let mut rejected_mask: Vec<Vec<bool>> = crate::grid::fill_rect(w, h, false);
    let mut i: usize = 0;
    while i < skips.len()
        invariant
            i <= skips@.len(),
            valid@.len() == skips@.len(),
            accepted_mask@.len() == w,
            forall|x: int| 0 <= x < w ==> (#[trigger] accepted_mask@[x])@.len() == h,
            rejected_mask@.len() == w,
            forall|x: int| 0 <= x < w ==> (#[trigger] rejected_mask@[x])@.len() == h,
            forall|x: int, y: int|
                0 <= x < w && 0 <= y < h ==> ((#[trigger] accepted_mask@[x]@[y]) <==> exists|k: int|
                    #[trigger] spec_endpoint_flag(skips@, valid@, true, k, x, y) && k < i),
            forall|x: int, y: int|
                0 <= x < w && 0 <= y < h ==> ((#[trigger] rejected_mask@[x]@[y]) <==> exists|k: int|
                    #[trigger] spec_endpoint_flag(skips@, valid@, false, k, x, y) && k < i),
        decreases skips@.len() - i,
    {
        let skip = skips[i];
        let flag = valid[i];
        let ghost acc0 = accepted_mask@;
        let ghost rej0 = rejected_mask@;
        if flag {
            mark_cell(&mut accepted_mask, &skip.start, w, h);
            mark_cell(&mut accepted_mask, &skip.end, w, h);
        } else {
            mark_cell(&mut rejected_mask, &skip.start, w, h);
            mark_cell(&mut rejected_mask, &skip.end, w, h);
        }
        proof {
            let ghost sk = skips@;
            let ghost va = valid@;
            assert forall|x: int, y: int|
                0 <= x < w && 0 <= y < h implies ((#[trigger] accepted_mask@[x]@[y])
                <==> exists|k: int|
                #[trigger] spec_endpoint_flag(sk, va, true, k, x, y) && k < i + 1) by {
                if accepted_mask@[x]@[y] {
                    if acc0[x]@[y] {
                        let k = choose|k: int|
                            #[trigger] spec_endpoint_flag(sk, va, true, k, x, y) && k < i;
                        assert(spec_endpoint_flag(sk, va, true, k, x, y) && k < i + 1);
                    } else {
                        assert(spec_endpoint_flag(sk, va, true, i as int, x, y));
                    }
                }
                if exists|k: int| #[trigger] spec_endpoint_flag(sk, va, true, k, x, y) && k < i
                    + 1 {
                    let k = choose|k: int|
                        #[trigger] spec_endpoint_flag(sk, va, true, k, x, y) && k < i + 1;
                    if k < i {
                        assert(acc0[x]@[y]);
                        assert(accepted_mask@[x]@[y]);
                    } else {
                        assert(accepted_mask@[x]@[y]);
                    }
                }
            }
            assert forall|x: int, y: int|
                0 <= x < w && 0 <= y < h implies ((#[trigger] rejected_mask@[x]@[y])
                <==> exists|k: int|
                #[trigger] spec_endpoint_flag(sk, va, false, k, x, y) && k < i + 1) by {
                if rejected_mask@[x]@[y] {
                    if rej0[x]@[y] {
                        let k = choose|k: int|
                            #[trigger] spec_endpoint_flag(sk, va, false, k, x, y) && k < i;
                        assert(spec_endpoint_flag(sk, va, false, k, x, y) && k < i + 1);
                    } else {
                        assert(spec_endpoint_flag(sk, va, false, i as int, x, y));
                    }
                }
                if exists|k: int| #[trigger] spec_endpoint_flag(sk, va, false, k, x, y) && k < i
                    + 1 {
                    let k = choose|k: int|
                        #[trigger] spec_endpoint_flag(sk, va, false, k, x, y) && k < i + 1;
                    if k < i {
                        assert(rej0[x]@[y]);
                        assert(rejected_mask@[x]@[y]);
                    } else {
                        assert(rejected_mask@[x]@[y]);
                    }
                }
            }
        }
        i = i + 1;
    }
    (accepted_mask, rejected_mask)
}

/// Sets one in-bounds cell of a mask; cells outside the grid are left
/// alone.
fn mark_cell(mask: &mut Vec<Vec<bool>>, pos: &Position, w: usize, h: usize)
    requires
        old(mask)@.len() == w,
        forall|x: int| 0 <= x < w ==> (#[trigger] old(mask)@[x])@.len() == h,
    ensures
        final(mask)@.len() == w,
        forall|x: int| 0 <= x < w ==> (#[trigger] final(mask)@[x])@.len() == h,
        pos.x < w && pos.y < h ==> final(mask)@[pos.x as int]@[pos.y as int],
        forall|x: int, y: int|
            0 <= x < w && 0 <= y < h && !(x == pos.x && y == pos.y)
                ==> #[trigger] final(mask)@[x]@[y] == old(mask)@[x]@[y],
        !(pos.x < w && pos.y < h) ==> final(mask)@ == old(mask)@,
{
    if pos.x < w && pos.y < h {
        let row = &mut mask[pos.x];
        row.set(pos.y, true);
    }
}

/// Repairing edge bugs twice is the same as repairing them once: the
/// pass only turns empty cells into freeze, it never creates a Hookable
/// block, so a second pass finds no new bug.
pub proof fn lemma_edge_fix_idempotent(g0: Grid, g1: Grid, g2: Grid)
    requires
        g0.spec_width() == g1.spec_width() == g2.spec_width(),
        g0.spec_height() == g1.spec_height() == g2.spec_height(),
        forall|x: int, y: int|
            0 <= x < g0.spec_width() && 0 <= y < g0.spec_height() ==> #[trigger] g1.block_at(x, y)
                == spec_edge_fix_cell(g0, x, y),
        forall|x: int, y: int|
            0 <= x < g0.spec_width() && 0 <= y < g0.spec_height() ==> #[trigger] g2.block_at(x, y)
                == spec_edge_fix_cell(g1, x, y),
    ensures
        forall|x: int, y: int|
            0 <= x < g0.spec_width() && 0 <= y < g0.spec_height() ==> #[trigger] g2.block_at(x, y)
                == g1.block_at(x, y),
{
    assert forall|x: int, y: int|
        0 <= x < g0.spec_width() && 0 <= y < g0.spec_height() implies #[trigger] g2.block_at(x, y)
        == g1.block_at(x, y) by {
        if g1.block_at(x, y) == BlockType::Empty {
            // The first pass left this cell empty, so it was empty with no
            // Hookable neighbor before; the first pass cannot have created
            // one, so the second pass leaves it empty too.
            assert(g0.block_at(x, y) == BlockType::Empty && !spec_has_hookable_neighbor(g0, x, y));
            if spec_has_hookable_neighbor(g1, x, y) {
                let (dx, dy) = choose|dx: int, dy: int| spec_hookable_nbr(g1, x, y, dx, dy);
                assert(g1.block_at(x + dx, y + dy) == spec_edge_fix_cell(g0, x + dx, y + dy));
                assert(g0.block_at(x + dx, y + dy) == BlockType::Hookable);
                assert(spec_hookable_nbr(g0, x, y, dx, dy));
                assert(spec_has_hookable_neighbor(g0, x, y));
            }
        }
    }
}

} // verus!
