//! Radial boolean stencils. A kernel of odd size `s` and squared-radius
//! threshold `r` activates exactly the cells whose squared distance to the
//! central cell is at most `r`; the walker stamps such stencils onto the
//! grid to carve tunnels and freeze buffers.

use vstd::prelude::*;

use crate::position::spec_abs_diff;

verus! {

/// Largest kernel edge length the generator works with: one cell below
/// `MAX_DIM`, so a stencil wider than the widest possible grid is ruled
/// out and every squared offset stays within `sq`'s domain.
pub const MAX_KERNEL_SIZE: usize = 32767;

/// Index of the central cell along one axis of a kernel of size `size`.
pub open spec fn spec_center(size: int) -> int {
    (size - 1) / 2
}

/// Squared distance of mask cell `(x, y)` to the kernel center.
pub open spec fn spec_cell_dist_sqr(size: int, x: int, y: int) -> int {
    let c = spec_center(size);
    spec_abs_diff(x, c) * spec_abs_diff(x, c) + spec_abs_diff(y, c) * spec_abs_diff(y, c)
}

/// Whether mask cell `(x, y)` is active under squared radius `radius_sqr`.
pub open spec fn spec_kernel_active(size: int, radius_sqr: int, x: int, y: int) -> bool {
    spec_cell_dist_sqr(size, x, y) <= radius_sqr
}

/// Smallest squared radius whose mask reaches the edge-center of the stencil.
pub open spec fn spec_min_radius_sqr(size: int) -> int {
    spec_center(size) * spec_center(size)
}

/// Largest squared radius that is still limited by the stencil: the squared
/// distance from the center to a corner.
pub open spec fn spec_max_radius_sqr(size: int) -> int {
    2 * spec_center(size) * spec_center(size)
}

/// `d` is a squared radius that some mask cell of a `size`-kernel realizes
/// at or above the minimum radius; each such value yields a distinct mask.
pub open spec fn spec_is_unique_radius(size: int, d: int) -> bool {
    exists|x: int, y: int|
        0 <= x <= y <= spec_center(size) && d == #[trigger] (x * x + y * y)
            && d >= spec_min_radius_sqr(size)
}

/// The enumeration the radius scan produces from state `(x, y)` with the
/// values collected so far: offsets run in ascending `x`, and for each
/// `x` in ascending `y` starting at `x`; each squared distance at or
/// above `min` is appended the first time it appears.
pub open spec fn spec_radii_scan(c: int, min: int, x: int, y: int, acc: Seq<usize>) -> Seq<usize>
    decreases c + 1 - x, c + 1 - y,
{
    if x > c {
        acc
    } else if y > c {
        spec_radii_scan(c, min, x + 1, x + 1, acc)
    } else {
        let d = x * x + y * y;
        let acc2 = if d >= min && !seq_contains_val(acc, d) {
            acc.push(d as usize)
        } else {
            acc
        };
        spec_radii_scan(c, min, x, y + 1, acc2)
    }
}

/// The exact radius sequence for a kernel of edge length `size`, in
/// enumeration order.
pub open spec fn spec_unique_radii(size: int) -> Seq<usize> {
    spec_radii_scan(spec_center(size), spec_min_radius_sqr(size), 0, 0, Seq::empty())
}

/// Square of a small coordinate, with the bound the grid sizes guarantee.
pub fn sq(a: usize) -> (r: usize)
    requires
        a <= 32768,
    ensures
        r == a * a,
        r <= 0x4000_0000,
{
    assert(a * a <= 32768 * 32768) by (nonlinear_arith)
        requires
            a <= 32768,
    ;
    a * a
}

/// An immutable radial stencil: odd edge length, squared-radius threshold,
/// and the boolean mask the two derive.
#[derive(Debug)]
pub struct Kernel {
    pub size: usize,
    pub max_distance_sqr: usize,
    pub vector: Vec<Vec<bool>>,
}

impl Kernel {
    /// A kernel is well-formed when its mask has exactly the radial shape
    /// that its size and squared radius dictate.
    pub open spec fn wf(&self) -> bool {
        &&& 1 <= self.size <= MAX_KERNEL_SIZE
        &&& self.size % 2 == 1
        &&& self.vector@.len() == self.size
        &&& forall|x: int| 0 <= x < self.size ==> (#[trigger] self.vector@[x])@.len() == self.size
        &&& forall|x: int, y: int|
            0 <= x < self.size && 0 <= y < self.size ==> (#[trigger] self.vector@[x]@[y])
                == spec_kernel_active(self.size as int, self.max_distance_sqr as int, x, y)
    }

    /// Builds the mask for `size` and `max_distance_sqr` in one pass over
    /// all offsets. The center cell is always active.
    pub fn new(size: usize, max_distance_sqr: usize) -> (k: Kernel)
        requires
            1 <= size <= MAX_KERNEL_SIZE,
            size % 2 == 1,
        ensures
            k.wf(),
            k.size == size,
            k.max_distance_sqr == max_distance_sqr,
    {
        let center = (size - 1) / 2;
        let mut vector: Vec<Vec<bool>> = Vec::new();
        let mut x: usize = 0;
        while x < size
            invariant
                x <= size,
                size <= MAX_KERNEL_SIZE,
                center == spec_center(size as int),
                vector@.len() == x,
                forall|xi: int| 0 <= xi < x ==> (#[trigger] vector@[xi])@.len() == size,
                forall|xi: int, yi: int|
                    0 <= xi < x && 0 <= yi < size ==> (#[trigger] vector@[xi]@[yi])
                        == spec_kernel_active(size as int, max_distance_sqr as int, xi, yi),
            decreases size - x,
        {
            let mut row: Vec<bool> = Vec::new();
            let mut y: usize = 0;
            while y < size
                invariant
                    y <= size,
                    x < size,
                    size <= MAX_KERNEL_SIZE,
                    center == spec_center(size as int),
                    row@.len() == y,
                    forall|yi: int|
                        0 <= yi < y ==> (#[trigger] row@[yi])
                            == spec_kernel_active(size as int, max_distance_sqr as int, x as int, yi),
                decreases size - y,
            {
                let dx: usize = if x >= center { x - center } else { center - x };
                let dy: usize = if y >= center { y - center } else { center - y };
                let dist = sq(dx) + sq(dy);
                row.push(dist <= max_distance_sqr);
                y = y + 1;
            }
            vector.push(row);
            x = x + 1;
        }
        Kernel { size, max_distance_sqr, vector }
    }

    /// Whether mask cell `(x, y)` takes part in a stamp of this kernel.
    pub fn is_active(&self, x: usize, y: usize) -> (r: bool)
        requires
            self.wf(),
            x < self.size,
            y < self.size,
        ensures
            r == spec_kernel_active(self.size as int, self.max_distance_sqr as int, x as int, y as int),
    {
        self.vector[x][y]
    }

    /// The range of squared radii that produce a mask that reaches the
    /// stencil's edge but is still limited by its corner: from the squared
    /// center-to-edge distance to the squared center-to-corner distance.
    pub fn get_valid_radius_bounds(size: usize) -> (bounds: (usize, usize))
        requires
            1 <= size <= MAX_KERNEL_SIZE,
        ensures
            bounds.0 == spec_min_radius_sqr(size as int),
            bounds.1 == spec_max_radius_sqr(size as int),
    {
        let center = (size - 1) / 2;
        let min_radius = sq(center);
        let max_radius = sq(center) + sq(center);
        proof {
            let c = spec_center(size as int);
            assert(c * c + c * c == 2 * c * c) by (nonlinear_arith);
        }
        (min_radius, max_radius)
    }

    /// Whether `radius_sqr` lies in the valid range for `size`.
    pub fn is_valid_radius(size: usize, radius_sqr: usize) -> (valid: bool)
        requires
            1 <= size <= MAX_KERNEL_SIZE,
        ensures
            valid == (spec_min_radius_sqr(size as int) <= radius_sqr
                <= spec_max_radius_sqr(size as int)),
    {
        let (min_radius, max_radius) = Kernel::get_valid_radius_bounds(size);
        min_radius <= radius_sqr && radius_sqr <= max_radius
    }

    /// Every distinct squared radius, at or above the valid minimum, that a
    /// mask cell of a `size`-kernel realizes. Each entry yields a mask shape
    /// different from every smaller radius, so the walker mutates over this
    /// small discrete set instead of a continuous radius space. Symmetry
    /// lets the scan cover one half-quadrant (`x <= y`) only; values appear
    /// in the exact enumeration order of [`spec_unique_radii`], which random
    /// draws index into, so the order is part of the contract.
    pub fn get_unique_radii_sqr(size: usize) -> (radii: Vec<usize>)
        requires
            1 <= size <= MAX_KERNEL_SIZE,
            size % 2 == 1,
        ensures
            radii@ == spec_unique_radii(size as int),
            radii@.len() >= 1,
            forall|i: int|
                0 <= i < radii@.len() ==> spec_is_unique_radius(size as int, #[trigger] radii@[i] as int),
            forall|i: int, j: int| 0 <= i < j < radii@.len() ==> radii@[i] != radii@[j],
            forall|x: int, y: int|
                0 <= x <= y <= spec_center(size as int)
                    && #[trigger] (x * x + y * y) >= spec_min_radius_sqr(size as int)
                    ==> seq_contains_val(radii@, x * x + y * y),
    {
        let center = (size - 1) / 2;
        let min_radius_sqr = sq(center);
        let mut radii: Vec<usize> = Vec::new();
        let mut x: usize = 0;
        while x <= center
            invariant
                x <= center + 1,
                center == spec_center(size as int),
                center <= 16383,
                min_radius_sqr == spec_min_radius_sqr(size as int),
                spec_unique_radii(size as int) == spec_radii_scan(center as int,
                    min_radius_sqr as int, x as int, x as int, radii@),
                forall|i: int|
                    0 <= i < radii@.len() ==> spec_is_unique_radius(size as int, #[trigger] radii@[i] as int),
                forall|i: int, j: int| 0 <= i < j < radii@.len() ==> radii@[i] != radii@[j],
                forall|xi: int, yi: int|
                    0 <= xi < x && xi <= yi <= center && #[trigger] (xi * xi + yi * yi) >= min_radius_sqr
                        ==> seq_contains_val(radii@, xi * xi + yi * yi),
            decreases center + 1 - x,
        {
            let mut y: usize = x;
            while y <= center
                invariant
                    x <= y <= center + 1,
                    x <= center,
                    center == spec_center(size as int),
                    center <= 16383,
                    min_radius_sqr == spec_min_radius_sqr(size as int),
                    spec_unique_radii(size as int) == spec_radii_scan(center as int,
                        min_radius_sqr as int, x as int, y as int, radii@),
                    forall|i: int|
                        0 <= i < radii@.len() ==> spec_is_unique_radius(size as int, #[trigger] radii@[i] as int),
                    forall|i: int, j: int| 0 <= i < j < radii@.len() ==> radii@[i] != radii@[j],
                    forall|xi: int, yi: int|
                        0 <= xi < x && xi <= yi <= center && #[trigger] (xi * xi + yi * yi) >= min_radius_sqr
                            ==> seq_contains_val(radii@, xi * xi + yi * yi),
                    forall|yi: int|
                        x <= yi < y && #[trigger] (x * x + yi * yi) >= min_radius_sqr
                            ==> seq_contains_val(radii@, x * x + yi * yi),
                decreases center + 1 - y,
            {
                let ghost radii_before = radii@;
                let distance_sqr = sq(x) + sq(y);
                let already = contains_value(&radii, distance_sqr);
                if distance_sqr >= min_radius_sqr && !already {
                    radii.push(distance_sqr);
                    proof {
                        assert(spec_is_unique_radius(size as int, distance_sqr as int)) by {
                            assert(0 <= x as int <= y as int <= spec_center(size as int)
                                && distance_sqr as int == (x as int) * (x as int) + (y as int) * (y as int)
                                && distance_sqr as int >= spec_min_radius_sqr(size as int));
                        }
                        assert forall|v: int| seq_contains_val(radii_before, v)
                            implies seq_contains_val(radii@, v) by {
                            let i = choose|i: int|
                                0 <= i < radii_before.len() && radii_before[i] == v;
                            assert(radii@[i] == v);
                        }
                        assert(seq_contains_val(radii@, distance_sqr as int)) by {
                            assert(radii@[radii@.len() - 1] == distance_sqr);
                        }
                    }
                }
                proof {
                    if distance_sqr >= min_radius_sqr {
                        assert(seq_contains_val(radii@, x * x + y * y)) by {
                            assert(distance_sqr == x * x + y * y);
                            if already {
                                let i = choose|i: int|
                                    0 <= i < radii_before.len() && radii_before[i] == distance_sqr;
                                assert(radii@[i] == distance_sqr);
                            }
                        }
                    }
                    // One scan step: the offset just visited extends the
                    // collected sequence exactly as the enumeration says.
                    assert(radii@ == (if distance_sqr as int >= min_radius_sqr as int
                        && !seq_contains_val(radii_before, distance_sqr as int) {
                        radii_before.push(distance_sqr)
                    } else {
                        radii_before
                    }));
                    assert(spec_radii_scan(center as int, min_radius_sqr as int, x as int,
                        y as int, radii_before) == spec_radii_scan(center as int,
                        min_radius_sqr as int, x as int, y + 1, radii@));
                }
                y = y + 1;
            }
            proof {
                assert(spec_radii_scan(center as int, min_radius_sqr as int, x as int, y as int,
                    radii@) == spec_radii_scan(center as int, min_radius_sqr as int, x + 1, x + 1,
                    radii@));
            }
            x = x + 1;
        }
        proof {
            let c = spec_center(size as int);
            assert((c * c + c * c) >= min_radius_sqr) by (nonlinear_arith)
                requires
                    c >= 0,
                    min_radius_sqr == c * c,
            ;
            assert(seq_contains_val(radii@, c * c + c * c));
            assert(radii@.len() >= 1);
        }
        radii
    }
}

/// Whether `s` holds the value `v`.
pub open spec fn seq_contains_val(s: Seq<usize>, v: int) -> bool {
    exists|i: int| 0 <= i < s.len() && s[i] == v
}

/// Linear membership scan over a vector of squared radii.
fn contains_value(values: &Vec<usize>, target: usize) -> (r: bool)
    ensures
        r == seq_contains_val(values@, target as int),
{
    let mut i: usize = 0;
    while i < values.len()
        invariant
            i <= values@.len(),
            forall|j: int| 0 <= j < i ==> values@[j] != target,
        decreases values@.len() - i,
    {
        if values[i] == target {
            return true;
        }
        i = i + 1;
    }
    false
}

/// The defining symmetries of every kernel mask: for each odd size of at
/// least 3 and each squared radius within the valid bounds, the mask
/// contains its center and is invariant under horizontal, vertical and
/// diagonal reflection.
pub proof fn lemma_kernel_mask_symmetric(size: int, radius_sqr: int, x: int, y: int)
    requires
        3 <= size,
        size % 2 == 1,
        spec_min_radius_sqr(size) <= radius_sqr <= spec_max_radius_sqr(size),
        0 <= x < size,
        0 <= y < size,
    ensures
        spec_kernel_active(size, radius_sqr, spec_center(size), spec_center(size)),
        spec_kernel_active(size, radius_sqr, x, y) == spec_kernel_active(
            size,
            radius_sqr,
            size - 1 - x,
            y,
        ),
        spec_kernel_active(size, radius_sqr, x, y) == spec_kernel_active(
            size,
            radius_sqr,
            x,
            size - 1 - y,
        ),
        spec_kernel_active(size, radius_sqr, x, y) == spec_kernel_active(size, radius_sqr, y, x),
{
    let c = spec_center(size);
    assert(size - 1 == 2 * c);
    assert(spec_abs_diff(size - 1 - x, c) == spec_abs_diff(x, c));
    assert(spec_abs_diff(size - 1 - y, c) == spec_abs_diff(y, c));
    assert(spec_cell_dist_sqr(size, c, c) == 0);
    assert(radius_sqr >= 0) by (nonlinear_arith)
        requires
            radius_sqr >= c * c,
            c >= 0,
    ;
}

} // verus!
