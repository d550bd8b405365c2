//! The block grid: a bounds-checked 2D array of block values plus a
//! coarser dirty-chunk bitmap recording which regions any mutation
//! touched. All mutation primitives state their effect cell by cell.

use vstd::prelude::*;

use crate::block::{spec_to_game_tile, spec_will_override, BlockType, GameTile, Overwrite};
use crate::error::GenError;
use crate::kernel::{spec_kernel_active, Kernel};
use crate::position::{Position, MAX_DIM};

verus! {

/// Edge length of one dirty-tracking chunk.
pub const CHUNK_SIZE: usize = 5;

/// Number of chunks needed to cover `dim` cells.
pub open spec fn spec_num_chunks(dim: int) -> int {
    (dim + CHUNK_SIZE - 1) / (CHUNK_SIZE as int)
}

/// Whether `(x, y)` lies in the closed rectangle `[tl, br]`.
pub open spec fn spec_in_rect(tl: Position, br: Position, x: int, y: int) -> bool {
    tl.x <= x <= br.x && tl.y <= y <= br.y
}

/// Whether `(x, y)` lies on one of the four one-cell-thick edge strips of
/// the closed rectangle `[tl, br]`.
pub open spec fn spec_on_border(tl: Position, br: Position, x: int, y: int) -> bool {
    spec_in_rect(tl, br, x, y) && (x == tl.x || x == br.x || y == tl.y || y == br.y)
}

/// A block whose gameplay category is Hookable or Freeze; only such
/// blocks are replaced by kernel stamps.
pub open spec fn spec_carveable(b: BlockType) -> bool {
    spec_to_game_tile(b) == GameTile::Hookable || spec_to_game_tile(b) == GameTile::Freeze
}

/// Whether a kernel of edge length `size` centered on `pos` fits inside
/// a `width` by `height` grid.
pub open spec fn spec_kernel_fits(pos: Position, size: int, width: int, height: int) -> bool {
    let offset = size / 2;
    let extend = size - offset;
    offset <= pos.x && offset <= pos.y && pos.x + extend <= width && pos.y + extend <= height
}

/// What one kernel stamp leaves in cell `(x, y)`: active cells holding a
/// carveable block take the stamped value, everything else is untouched.
pub open spec fn spec_kernel_stamp(
    old_block: BlockType,
    pos: Position,
    size: int,
    radius_sqr: int,
    value: BlockType,
    x: int,
    y: int,
) -> BlockType {
    let offset = size / 2;
    let kx = x - (pos.x - offset);
    let ky = y - (pos.y - offset);
    if 0 <= kx < size && 0 <= ky < size && spec_kernel_active(size, radius_sqr, kx, ky)
        && spec_carveable(old_block) {
        value
    } else {
        old_block
    }
}

/// The typed block grid with its dirty-chunk bitmap. Coordinates always
/// satisfy `0 <= x < width`, `0 <= y < height`; operations that would
/// leave that range reject instead of wrapping or clamping.
#[derive(Debug)]
pub struct Grid {
    grid: Vec<Vec<BlockType>>,
    chunks_edited: Vec<Vec<bool>>,
    width: usize,
    height: usize,
    spawn: Position,
}

impl Grid {
    /// Grid width in cells.
    pub closed spec fn spec_width(&self) -> int {
        self.width as int
    }

    /// Grid height in cells.
    pub closed spec fn spec_height(&self) -> int {
        self.height as int
    }

    /// The spawn position the grid was created around.
    pub closed spec fn spec_spawn(&self) -> Position {
        self.spawn
    }

    /// Block stored at cell `(x, y)`.
    pub closed spec fn block_at(&self, x: int, y: int) -> BlockType {
        self.grid@[x]@[y]
    }

    /// Dirty flag of chunk `(cx, cy)`.
    pub closed spec fn chunk_at(&self, cx: int, cy: int) -> bool {
        self.chunks_edited@[cx]@[cy]
    }

    /// The storage vectors have exactly the shape the dimensions say.
    pub closed spec fn storage_ok(&self) -> bool {
        &&& self.grid@.len() == self.width
        &&& forall|x: int| 0 <= x < self.width ==> (#[trigger] self.grid@[x])@.len() == self.height
        &&& self.chunks_edited@.len() == spec_num_chunks(self.width as int)
        &&& forall|cx: int|
            0 <= cx < spec_num_chunks(self.width as int) ==> (#[trigger] self.chunks_edited@[cx])@.len()
                == spec_num_chunks(self.height as int)
    }

    /// Structural well-formedness: dimensions in range, storage of the
    /// right shape, spawn in bounds.
    pub open spec fn wf(&self) -> bool {
        &&& self.storage_ok()
        &&& 1 <= self.spec_width() <= MAX_DIM
        &&& 1 <= self.spec_height() <= MAX_DIM
        &&& self.spec_spawn().x < self.spec_width()
        &&& self.spec_spawn().y < self.spec_height()
    }

    /// Both grids have the same dimensions and spawn.
    pub open spec fn same_shape(&self, other: &Grid) -> bool {
        &&& self.spec_width() == other.spec_width()
        &&& self.spec_height() == other.spec_height()
        &&& self.spec_spawn() == other.spec_spawn()
    }

    /// Cell-for-cell equality of the block layers.
    pub open spec fn same_blocks(&self, other: &Grid) -> bool {
        forall|x: int, y: int|
            0 <= x < self.spec_width() && 0 <= y < self.spec_height() ==> self.block_at(x, y)
                == #[trigger] other.block_at(x, y)
    }

    /// Chunk-for-chunk equality of the dirty bitmaps.
    pub open spec fn same_chunks(&self, other: &Grid) -> bool {
        forall|cx: int, cy: int|
            0 <= cx < spec_num_chunks(self.spec_width()) && 0 <= cy < spec_num_chunks(
                self.spec_height(),
            ) ==> self.chunk_at(cx, cy) == #[trigger] other.chunk_at(cx, cy)
    }

    /// A fresh grid filled with `default`, no chunk dirty.
    pub fn new(width: usize, height: usize, default: BlockType, spawn: Position) -> (g: Grid)
        requires
            1 <= width <= MAX_DIM,
            1 <= height <= MAX_DIM,
            spawn.x < width,
            spawn.y < height,
        ensures
            g.wf(),
            g.spec_width() == width,
            g.spec_height() == height,
            g.spec_spawn() == spawn,
            forall|x: int, y: int|
                0 <= x < width && 0 <= y < height ==> #[trigger] g.block_at(x, y) == default,
            forall|cx: int, cy: int|
                0 <= cx < spec_num_chunks(width as int) && 0 <= cy < spec_num_chunks(height as int)
                    ==> #[trigger] g.chunk_at(cx, cy) == false,
    {
        let grid = fill_rect(width, height, default);
        let chunks_edited = fill_rect((width + CHUNK_SIZE - 1) / CHUNK_SIZE,
            (height + CHUNK_SIZE - 1) / CHUNK_SIZE, false);
        Grid { grid, chunks_edited, width, height, spawn }
    }

    /// Resets every cell to Empty; the dirty bitmap is left as it is.
    pub fn clear(&mut self)
        requires
            old(self).wf(),
        ensures
            final(self).wf(),
            final(self).same_shape(old(self)),
            forall|x: int, y: int|
                0 <= x < old(self).spec_width() && 0 <= y < old(self).spec_height()
                    ==> #[trigger] final(self).block_at(x, y) == BlockType::Empty,
            final(self).same_chunks(old(self)),
    {
        self.grid = fill_rect(self.width, self.height, BlockType::Empty);
    }

    /// Gives the grid new dimensions: every cell Empty, every chunk
    /// clean, and the spawn clamped into the new bounds.
    pub fn reshape(&mut self, width: usize, height: usize)
        requires
            old(self).wf(),
            1 <= width <= MAX_DIM,
            1 <= height <= MAX_DIM,
        ensures
            final(self).wf(),
            final(self).spec_width() == width,
            final(self).spec_height() == height,
            final(self).spec_spawn().x == (if old(self).spec_spawn().x < width {
                old(self).spec_spawn().x as int
            } else {
                width - 1
            }),
            final(self).spec_spawn().y == (if old(self).spec_spawn().y < height {
                old(self).spec_spawn().y as int
            } else {
                height - 1
            }),
            forall|x: int, y: int|
                0 <= x < width && 0 <= y < height ==> #[trigger] final(self).block_at(x, y)
                    == BlockType::Empty,
            forall|cx: int, cy: int|
                0 <= cx < spec_num_chunks(width as int) && 0 <= cy < spec_num_chunks(height as int)
                    ==> #[trigger] final(self).chunk_at(cx, cy) == false,
    {
        self.grid = fill_rect(width, height, BlockType::Empty);
        self.chunks_edited = fill_rect((width + CHUNK_SIZE - 1) / CHUNK_SIZE,
            (height + CHUNK_SIZE - 1) / CHUNK_SIZE, false);
        self.width = width;
        self.height = height;
        if self.spawn.x >= width {
            self.spawn = Position::new(width - 1, self.spawn.y);
        }
        if self.spawn.y >= height {
            self.spawn = Position::new(self.spawn.x, height - 1);
        }
    }

    pub fn width(&self) -> (w: usize)
        ensures
            w == self.spec_width(),
    {
        self.width
    }

    pub fn height(&self) -> (h: usize)
        ensures
            h == self.spec_height(),
    {
        self.height
    }

    pub fn spawn(&self) -> (p: Position)
        ensures
            p == self.spec_spawn(),
    {
        self.spawn
    }

    /// The block at `(x, y)`.
    pub fn get_block(&self, x: usize, y: usize) -> (b: BlockType)
        requires
            self.wf(),
            x < self.spec_width(),
            y < self.spec_height(),
        ensures
            b == self.block_at(x as int, y as int),
    {
        self.grid[x][y]
    }

    /// The dirty flag of chunk `(cx, cy)`.
    pub fn chunk_edited(&self, cx: usize, cy: usize) -> (r: bool)
        requires
            self.wf(),
            cx < spec_num_chunks(self.spec_width()),
            cy < spec_num_chunks(self.spec_height()),
        ensures
            r == self.chunk_at(cx as int, cy as int),
    {
        self.chunks_edited[cx][cy]
    }

    /// Whether `pos` names a cell of this grid.
    pub fn pos_in_bounds(&self, pos: &Position) -> (r: bool)
        ensures
            r == (pos.x < self.spec_width() && pos.y < self.spec_height()),
    {
        pos.x < self.width && pos.y < self.height
    }

    /// Writes `value` into cell `(x, y)` and marks its chunk dirty.
    pub(crate) fn set_block_and_mark(&mut self, x: usize, y: usize, value: BlockType)
        requires
            old(self).wf(),
            x < old(self).spec_width(),
            y < old(self).spec_height(),
        ensures
            final(self).wf(),
            final(self).same_shape(old(self)),
            final(self).block_at(x as int, y as int) == value,
            forall|xi: int, yi: int|
                0 <= xi < old(self).spec_width() && 0 <= yi < old(self).spec_height() && !(xi
                    == x && yi == y) ==> #[trigger] final(self).block_at(xi, yi)
                    == old(self).block_at(xi, yi),
            final(self).chunk_at((x / CHUNK_SIZE) as int, (y / CHUNK_SIZE) as int),
            forall|cx: int, cy: int|
                0 <= cx < spec_num_chunks(old(self).spec_width()) && 0 <= cy < spec_num_chunks(
                    old(self).spec_height(),
                ) && !(cx == x / CHUNK_SIZE && cy == y / CHUNK_SIZE)
                    ==> #[trigger] final(self).chunk_at(cx, cy) == old(self).chunk_at(cx, cy),
    {
        let row = &mut self.grid[x];
        row.set(y, value);
        let cx = x / CHUNK_SIZE;
        let cy = y / CHUNK_SIZE;
        assert(cx < spec_num_chunks(self.width as int) && cy < spec_num_chunks(self.height as int))
            by (nonlinear_arith)
            requires
                cx == x / CHUNK_SIZE && cy == y / CHUNK_SIZE,
                x < self.width,
                y < self.height,
                CHUNK_SIZE == 5,
        ;
        let chunk_row = &mut self.chunks_edited[cx];
        chunk_row.set(cy, true);
    }

    /// Stamps `kernel` centered on `pos`: every active mask cell whose
    /// current block is carveable (gameplay category Hookable or Freeze)
    /// takes `block_type`, and its chunk is marked dirty. If the footprint
    /// would exceed the grid bounds, nothing is mutated and the call
    /// reports failure.
    pub fn apply_kernel(&mut self, pos: &Position, kernel: &Kernel, block_type: BlockType) -> (ok:
        bool)
        requires
            old(self).wf(),
            kernel.wf(),
        ensures
            final(self).wf(),
            final(self).same_shape(old(self)),
            ok == spec_kernel_fits(*pos, kernel.size as int, old(self).spec_width(),
                old(self).spec_height()),
            !ok ==> final(self).same_blocks(old(self)) && final(self).same_chunks(old(self)),
            ok ==> forall|x: int, y: int|
                0 <= x < old(self).spec_width() && 0 <= y < old(self).spec_height()
                    ==> #[trigger] final(self).block_at(x, y) == spec_kernel_stamp(
                    old(self).block_at(x, y),
                    *pos,
                    kernel.size as int,
                    kernel.max_distance_sqr as int,
                    block_type,
                    x,
                    y,
                ),
            forall|cx: int, cy: int|
                0 <= cx < spec_num_chunks(old(self).spec_width()) && 0 <= cy < spec_num_chunks(
                    old(self).spec_height(),
                ) && old(self).chunk_at(cx, cy) ==> #[trigger] final(self).chunk_at(cx, cy),
            forall|x: int, y: int|
                0 <= x < old(self).spec_width() && 0 <= y < old(self).spec_height()
                    && #[trigger] final(self).block_at(x, y) != old(self).block_at(x, y)
                    ==> final(self).chunk_at(x / (CHUNK_SIZE as int), y / (CHUNK_SIZE as int)),
    {
        let offset: usize = kernel.size / 2;
        let extend: usize = kernel.size - offset;

        let exceeds_left_bound = pos.x < offset;
        let exceeds_upper_bound = pos.y < offset;
        let exceeds_right_bound = pos.x > self.width || pos.x + extend > self.width;
        let exceeds_lower_bound = pos.y > self.height || pos.y + extend > self.height;

        if exceeds_left_bound || exceeds_upper_bound || exceeds_right_bound || exceeds_lower_bound {
            return false;
        }

        let root_x = pos.x - offset;
        let root_y = pos.y - offset;
        let size = kernel.size;
        let ghost g0 = *self;
        let ghost radius = kernel.max_distance_sqr as int;

        let mut kx: usize = 0;
        while kx < size
            invariant
                kx <= size,
                self.wf(),
                self.same_shape(&g0),
                g0.wf(),
                kernel.wf(),
                size == kernel.size,
                radius == kernel.max_distance_sqr as int,
                offset == size / 2,
                root_x == pos.x - offset,
                root_y == pos.y - offset,
                pos.x >= offset,
                pos.y >= offset,
                root_x + size <= g0.spec_width(),
                root_y + size <= g0.spec_height(),
                forall|x: int, y: int|
                    0 <= x < g0.spec_width() && 0 <= y < g0.spec_height()
                        ==> #[trigger] self.block_at(x, y) == (
                        if root_x <= x < root_x + size && root_y <= y < root_y + size && (x - root_x
                            < kx) && spec_kernel_active(size as int, radius, x - root_x, y - root_y)
                            && spec_carveable(g0.block_at(x, y)) {
                            block_type
                        } else {
                            g0.block_at(x, y)
                        }),
                forall|cx: int, cy: int|
                    0 <= cx < spec_num_chunks(g0.spec_width()) && 0 <= cy < spec_num_chunks(
                        g0.spec_height(),
                    ) && g0.chunk_at(cx, cy) ==> #[trigger] self.chunk_at(cx, cy),
                forall|x: int, y: int|
                    0 <= x < g0.spec_width() && 0 <= y < g0.spec_height()
                        && #[trigger] self.block_at(x, y) != g0.block_at(x, y) ==> self.chunk_at(
                        x / (CHUNK_SIZE as int),
                        y / (CHUNK_SIZE as int),
                    ),
            decreases size - kx,
        {
            let mut ky: usize = 0;
            while ky < size
                invariant
                    kx < size,
                    ky <= size,
                    self.wf(),
                    self.same_shape(&g0),
                    g0.wf(),
                    kernel.wf(),
                    size == kernel.size,
                    radius == kernel.max_distance_sqr as int,
                    offset == size / 2,
                    root_x == pos.x - offset,
                    root_y == pos.y - offset,
                    pos.x >= offset,
                    pos.y >= offset,
                    root_x + size <= g0.spec_width(),
                    root_y + size <= g0.spec_height(),
                    forall|x: int, y: int|
                        0 <= x < g0.spec_width() && 0 <= y < g0.spec_height()
                            ==> #[trigger] self.block_at(x, y) == (
                            if root_x <= x < root_x + size && root_y <= y < root_y + size && (x
                                - root_x < kx || (x - root_x == kx && y - root_y < ky))
                                && spec_kernel_active(size as int, radius, x - root_x, y - root_y)
                                && spec_carveable(g0.block_at(x, y)) {
                                block_type
                            } else {
                                g0.block_at(x, y)
                            }),
                    forall|cx: int, cy: int|
                        0 <= cx < spec_num_chunks(g0.spec_width()) && 0 <= cy < spec_num_chunks(
                            g0.spec_height(),
                        ) && g0.chunk_at(cx, cy) ==> #[trigger] self.chunk_at(cx, cy),
                    forall|x: int, y: int|
                        0 <= x < g0.spec_width() && 0 <= y < g0.spec_height()
                            && #[trigger] self.block_at(x, y) != g0.block_at(x, y)
                            ==> self.chunk_at(x / (CHUNK_SIZE as int), y / (CHUNK_SIZE as int)),
                decreases size - ky,
            {
                if kernel.is_active(kx, ky) {
                    let x = root_x + kx;
                    let y = root_y + ky;
                    let current = self.get_block(x, y);
                    if current.to_game_tile() != GameTile::Empty {
                        self.set_block_and_mark(x, y, block_type);
                    }
                }
                ky = ky + 1;
            }
            kx = kx + 1;
        }
        true
    }

    /// Assigns `value` to every cell of `[top_left, bot_right]` whose current
    /// block the policy permits overwriting, marking touched chunks dirty.
    /// A rectangle with an out-of-bounds corner makes this a no-op.
    pub fn set_area(
        &mut self,
        top_left: &Position,
        bot_right: &Position,
        value: &BlockType,
        overwrite: &Overwrite,
    )
        requires
            old(self).wf(),
        ensures
            final(self).wf(),
            final(self).same_shape(old(self)),
            !(top_left.x < old(self).spec_width() && top_left.y < old(self).spec_height()
                && bot_right.x < old(self).spec_width() && bot_right.y < old(self).spec_height())
                ==> final(self).same_blocks(old(self)) && final(self).same_chunks(old(self)),
            top_left.x < old(self).spec_width() && top_left.y < old(self).spec_height()
                && bot_right.x < old(self).spec_width() && bot_right.y < old(self).spec_height()
                ==> forall|x: int, y: int|
                    0 <= x < old(self).spec_width() && 0 <= y < old(self).spec_height()
                        ==> #[trigger] final(self).block_at(x, y) == (
                        if spec_in_rect(*top_left, *bot_right, x, y) && spec_will_override(
                            *overwrite,
                            old(self).block_at(x, y),
                        ) {
                            *value
                        } else {
                            old(self).block_at(x, y)
                        }),
            forall|cx: int, cy: int|
                0 <= cx < spec_num_chunks(old(self).spec_width()) && 0 <= cy < spec_num_chunks(
                    old(self).spec_height(),
                ) && old(self).chunk_at(cx, cy) ==> #[trigger] final(self).chunk_at(cx, cy),
            forall|x: int, y: int|
                0 <= x < old(self).spec_width() && 0 <= y < old(self).spec_height()
                    && #[trigger] final(self).block_at(x, y) != old(self).block_at(x, y)
                    ==> final(self).chunk_at(x / (CHUNK_SIZE as int), y / (CHUNK_SIZE as int)),
    {
        if !(self.pos_in_bounds(top_left) && self.pos_in_bounds(bot_right)) {
            return ;
        }
        let ghost g0 = *self;
        let mut x = top_left.x;
        while x <= bot_right.x
            invariant
                self.wf(),
                self.same_shape(&g0),
                g0.wf(),
                top_left.x <= x,
                top_left.x < g0.spec_width(),
                top_left.y < g0.spec_height(),
                bot_right.x < g0.spec_width(),
                bot_right.y < g0.spec_height(),
                forall|xi: int, yi: int|
                    0 <= xi < g0.spec_width() && 0 <= yi < g0.spec_height()
                        ==> #[trigger] self.block_at(xi, yi) == (
                        if spec_in_rect(*top_left, *bot_right, xi, yi) && xi < x
                            && spec_will_override(*overwrite, g0.block_at(xi, yi)) {
                            *value
                        } else {
                            g0.block_at(xi, yi)
                        }),
                forall|cx: int, cy: int|
                    0 <= cx < spec_num_chunks(g0.spec_width()) && 0 <= cy < spec_num_chunks(
                        g0.spec_height(),
                    ) && g0.chunk_at(cx, cy) ==> #[trigger] self.chunk_at(cx, cy),
                forall|xi: int, yi: int|
                    0 <= xi < g0.spec_width() && 0 <= yi < g0.spec_height()
                        && #[trigger] self.block_at(xi, yi) != g0.block_at(xi, yi) ==> self.chunk_at(
                        xi / (CHUNK_SIZE as int),
                        yi / (CHUNK_SIZE as int),
                    ),
            decreases bot_right.x + 1 - x,
        {
            let mut y = top_left.y;
            while y <= bot_right.y
                invariant
                    self.wf(),
                    self.same_shape(&g0),
                    g0.wf(),
                    top_left.x <= x <= bot_right.x,
                    top_left.y <= y,
                    top_left.x < g0.spec_width(),
                    top_left.y < g0.spec_height(),
                    bot_right.x < g0.spec_width(),
                    bot_right.y < g0.spec_height(),
                    forall|xi: int, yi: int|
                        0 <= xi < g0.spec_width() && 0 <= yi < g0.spec_height()
                            ==> #[trigger] self.block_at(xi, yi) == (
                            if spec_in_rect(*top_left, *bot_right, xi, yi) && (xi < x || (xi == x
                                && yi < y)) && spec_will_override(*overwrite, g0.block_at(xi, yi)) {
                                *value
                            } else {
                                g0.block_at(xi, yi)
                            }),
                    forall|cx: int, cy: int|
                        0 <= cx < spec_num_chunks(g0.spec_width()) && 0 <= cy < spec_num_chunks(
                            g0.spec_height(),
                        ) && g0.chunk_at(cx, cy) ==> #[trigger] self.chunk_at(cx, cy),
                    forall|xi: int, yi: int|
                        0 <= xi < g0.spec_width() && 0 <= yi < g0.spec_height()
                            && #[trigger] self.block_at(xi, yi) != g0.block_at(xi, yi)
                            ==> self.chunk_at(xi / (CHUNK_SIZE as int), yi / (CHUNK_SIZE as int)),
                decreases bot_right.y + 1 - y,
            {
                let current = self.get_block(x, y);
                if overwrite.will_override(&current) {
                    self.set_block_and_mark(x, y, *value);
                }
                y = y + 1;
            }
            x = x + 1;
        }
    }

    /// Outlines `[top_left, bot_right]`: applies `value` under `overwrite`
    /// to the four one-cell-thick edge strips of the rectangle, leaving its
    /// interior untouched. A rectangle with an out-of-bounds corner makes
    /// this a no-op.
    pub fn set_area_border(
        &mut self,
        top_left: &Position,
        bot_right: &Position,
        value: &BlockType,
        overwrite: &Overwrite,
    )
        requires
            old(self).wf(),
        ensures
            final(self).wf(),
            final(self).same_shape(old(self)),
            !(top_left.x <= bot_right.x && top_left.y <= bot_right.y
                && bot_right.x < old(self).spec_width() && bot_right.y < old(self).spec_height())
                ==> final(self).same_blocks(old(self)) && final(self).same_chunks(old(self)),
            top_left.x <= bot_right.x && top_left.y <= bot_right.y
                && bot_right.x < old(self).spec_width() && bot_right.y < old(self).spec_height()
                ==> forall|x: int, y: int|
                    0 <= x < old(self).spec_width() && 0 <= y < old(self).spec_height()
                        ==> #[trigger] final(self).block_at(x, y) == (
                        if spec_on_border(*top_left, *bot_right, x, y) && spec_will_override(
                            *overwrite,
                            old(self).block_at(x, y),
                        ) {
                            *value
                        } else {
                            old(self).block_at(x, y)
                        }),
            forall|cx: int, cy: int|
                0 <= cx < spec_num_chunks(old(self).spec_width()) && 0 <= cy < spec_num_chunks(
                    old(self).spec_height(),
                ) && old(self).chunk_at(cx, cy) ==> #[trigger] final(self).chunk_at(cx, cy),
            forall|x: int, y: int|
                0 <= x < old(self).spec_width() && 0 <= y < old(self).spec_height()
                    && #[trigger] final(self).block_at(x, y) != old(self).block_at(x, y)
                    ==> final(self).chunk_at(x / (CHUNK_SIZE as int), y / (CHUNK_SIZE as int)),
    {
        if !(top_left.x <= bot_right.x && top_left.y <= bot_right.y && self.pos_in_bounds(
            bot_right,
        )) {
            return ;
        }
        let top_right = Position::new(bot_right.x, top_left.y);
        let bot_left = Position::new(top_left.x, bot_right.y);
        let ghost g0 = *self;

        self.set_area(top_left, &top_right, value, overwrite);
        let ghost g1 = *self;
        self.set_area(&top_right, bot_right, value, overwrite);
        let ghost g2 = *self;
        self.set_area(top_left, &bot_left, value, overwrite);
        let ghost g3 = *self;
        self.set_area(&bot_left, bot_right, value, overwrite);

        proof {
            if top_left.x <= bot_right.x && top_left.y <= bot_right.y && bot_right.x
                < g0.spec_width() && bot_right.y < g0.spec_height() {
                assert forall|x: int, y: int|
                    0 <= x < g0.spec_width() && 0 <= y < g0.spec_height() implies #[trigger] self
                    .block_at(x, y) == (
                if spec_on_border(*top_left, *bot_right, x, y) && spec_will_override(
                    *overwrite,
                    g0.block_at(x, y),
                ) {
                    *value
                } else {
                    g0.block_at(x, y)
                }) by {
                    let b0 = g0.block_at(x, y);
                    let b1 = g1.block_at(x, y);
                    let b2 = g2.block_at(x, y);
                    let b3 = g3.block_at(x, y);
                    let b4 = self.block_at(x, y);
                    assert(b1 == (if spec_in_rect(*top_left, top_right, x, y)
                        && spec_will_override(*overwrite, b0) {
                        *value
                    } else {
                        b0
                    }));
                    assert(b2 == (if spec_in_rect(top_right, *bot_right, x, y)
                        && spec_will_override(*overwrite, b1) {
                        *value
                    } else {
                        b1
                    }));
                    assert(b3 == (if spec_in_rect(*top_left, bot_left, x, y)
                        && spec_will_override(*overwrite, b2) {
                        *value
                    } else {
                        b2
                    }));
                    assert(b4 == (if spec_in_rect(bot_left, *bot_right, x, y)
                        && spec_will_override(*overwrite, b3) {
                        *value
                    } else {
                        b3
                    }));
                }
            }
        }
    }

    /// Whether any cell of `[top_left, bot_right]` holds `value`; rejects
    /// rectangles with an out-of-bounds corner.
    pub fn check_area_exists(
        &self,
        top_left: &Position,
        bot_right: &Position,
        value: BlockType,
    ) -> (r: Result<bool, GenError>)
        requires
            self.wf(),
        ensures
            r is Err <==> !(top_left.x < self.spec_width() && top_left.y < self.spec_height()
                && bot_right.x < self.spec_width() && bot_right.y < self.spec_height()),
            r is Err ==> r->Err_0 == GenError::OutOfBounds,
            r is Ok ==> r->Ok_0 == exists|x: int, y: int|
                spec_in_rect(*top_left, *bot_right, x, y) && 0 <= x < self.spec_width() && 0 <= y
                    < self.spec_height() && #[trigger] self.block_at(x, y) == value,
    {
        if !(self.pos_in_bounds(top_left) && self.pos_in_bounds(bot_right)) {
            return Err(GenError::OutOfBounds);
        }
        let mut x = top_left.x;
        while x <= bot_right.x
            invariant
                self.wf(),
                top_left.x <= x,
                top_left.x < self.spec_width(),
                top_left.y < self.spec_height(),
                bot_right.x < self.spec_width(),
                bot_right.y < self.spec_height(),
                forall|xi: int, yi: int|
                    spec_in_rect(*top_left, *bot_right, xi, yi) && xi < x
                        ==> #[trigger] self.block_at(xi, yi) != value,
            decreases bot_right.x + 1 - x,
        {
            let mut y = top_left.y;
            while y <= bot_right.y
                invariant
                    self.wf(),
                    top_left.x <= x <= bot_right.x,
                    top_left.y <= y,
                    top_left.x < self.spec_width(),
                    top_left.y < self.spec_height(),
                    bot_right.x < self.spec_width(),
                    bot_right.y < self.spec_height(),
                    forall|xi: int, yi: int|
                        spec_in_rect(*top_left, *bot_right, xi, yi) && (xi < x || (xi == x && yi
                            < y)) ==> #[trigger] self.block_at(xi, yi) != value,
                decreases bot_right.y + 1 - y,
            {
                if self.get_block(x, y) == value {
                    return Ok(true);
                }
                y = y + 1;
            }
            x = x + 1;
        }
        Ok(false)
    }

    /// Whether every cell of `[top_left, bot_right]` holds `value`; rejects
    /// rectangles with an out-of-bounds corner.
    pub fn check_area_all(&self, top_left: &Position, bot_right: &Position, value: BlockType) -> (r:
        Result<bool, GenError>)
        requires
            self.wf(),
        ensures
            r is Err <==> !(top_left.x < self.spec_width() && top_left.y < self.spec_height()
                && bot_right.x < self.spec_width() && bot_right.y < self.spec_height()),
            r is Err ==> r->Err_0 == GenError::OutOfBounds,
            r is Ok ==> r->Ok_0 == forall|x: int, y: int|
                spec_in_rect(*top_left, *bot_right, x, y) ==> #[trigger] self.block_at(x, y)
                    == value,
    {
        if !(self.pos_in_bounds(top_left) && self.pos_in_bounds(bot_right)) {
            return Err(GenError::OutOfBounds);
        }
        let mut x = top_left.x;
        while x <= bot_right.x
            invariant
                self.wf(),
                top_left.x <= x,
                top_left.x < self.spec_width(),
                top_left.y < self.spec_height(),
                bot_right.x < self.spec_width(),
                bot_right.y < self.spec_height(),
                forall|xi: int, yi: int|
                    spec_in_rect(*top_left, *bot_right, xi, yi) && xi < x
                        ==> #[trigger] self.block_at(xi, yi) == value,
            decreases bot_right.x + 1 - x,
        {
            let mut y = top_left.y;
            while y <= bot_right.y
                invariant
                    self.wf(),
                    top_left.x <= x <= bot_right.x,
                    top_left.y <= y,
                    top_left.x < self.spec_width(),
                    top_left.y < self.spec_height(),
                    bot_right.x < self.spec_width(),
                    bot_right.y < self.spec_height(),
                    forall|xi: int, yi: int|
                        spec_in_rect(*top_left, *bot_right, xi, yi) && (xi < x || (xi == x && yi
                            < y)) ==> #[trigger] self.block_at(xi, yi) == value,
                decreases bot_right.y + 1 - y,
            {
                if self.get_block(x, y) != value {
                    return Ok(false);
                }
                y = y + 1;
            }
            x = x + 1;
        }
        Ok(true)
    }

    /// How many cells of `[top_left, bot_right]` hold `value`; rejects
    /// rectangles with an out-of-bounds corner.
    pub fn count_occurence_in_area(
        &self,
        top_left: &Position,
        bot_right: &Position,
        value: BlockType,
    ) -> (r: Result<usize, GenError>)
        requires
            self.wf(),
        ensures
            r is Err <==> !(top_left.x < self.spec_width() && top_left.y < self.spec_height()
                && bot_right.x < self.spec_width() && bot_right.y < self.spec_height()),
            r is Err ==> r->Err_0 == GenError::OutOfBounds,
            r is Ok ==> r->Ok_0 == spec_count_rect(
                *self,
                top_left.x as int,
                bot_right.x + 1,
                top_left.y as int,
                bot_right.y + 1,
                value,
            ),
    {
        if !(self.pos_in_bounds(top_left) && self.pos_in_bounds(bot_right)) {
            return Err(GenError::OutOfBounds);
        }
        let ghost tlx = top_left.x as int;
        let ghost tly = top_left.y as int;
        let ghost bry1 = bot_right.y + 1;
        let mut count: usize = 0;
        let mut x = top_left.x;
        while x <= bot_right.x
            invariant
                self.wf(),
                top_left.x <= x,
                x <= bot_right.x + 1 || x == top_left.x,
                tlx == top_left.x as int,
                tly == top_left.y as int,
                bry1 == bot_right.y + 1,
                top_left.x < self.spec_width(),
                top_left.y < self.spec_height(),
                bot_right.x < self.spec_width(),
                bot_right.y < self.spec_height(),
                count == spec_count_rect(*self, tlx, x as int, tly, bry1, value),
            decreases bot_right.x + 1 - x,
        {
            let mut y = top_left.y;
            let ghost col_base = count as int;
            while y <= bot_right.y
                invariant
                    self.wf(),
                    top_left.x <= x <= bot_right.x,
                    top_left.y <= y,
                    y <= bot_right.y + 1 || y == top_left.y,
                    tlx == top_left.x as int,
                    tly == top_left.y as int,
                    bry1 == bot_right.y + 1,
                    top_left.x < self.spec_width(),
                    top_left.y < self.spec_height(),
                    bot_right.x < self.spec_width(),
                    bot_right.y < self.spec_height(),
                    col_base == spec_count_rect(*self, tlx, x as int, tly, bry1, value),
                    count == col_base + spec_count_col(*self, x as int, tly, y as int, value),
                decreases bot_right.y + 1 - y,
            {
                proof {
                    lemma_count_col_extend(*self, x as int, tly, y as int, value);
                }
                if self.get_block(x, y) == value {
                    proof {
                        lemma_count_col_bound(*self, x as int, tly, y as int, value);
                        lemma_count_rect_bound(*self, tlx, x as int, tly, bry1, value);
                        let w = self.spec_width();
                        let h = self.spec_height();
                        assert(col_base + (y - tly) + 1 <= 0x4000_0000) by (nonlinear_arith)
                            requires
                                col_base <= (x as int - tlx) * (bry1 - tly),
                                col_base >= 0,
                                0 <= x as int - tlx <= w - 1,
                                0 < bry1 - tly <= h,
                                0 <= y - tly < h,
                                1 <= w <= 0x8000,
                                1 <= h <= 0x8000,
                        ;
                        assert(count <= col_base + (y - tly));
                    }
                    count = count + 1;
                }
                y = y + 1;
            }
            proof {
                lemma_count_rect_extend(*self, tlx, x as int, tly, bry1, value);
            }
            x = x + 1;
        }
        Ok(count)
    }

    /// Carves a bordered room centered on `pos`: a square of half-width
    /// `room_size` is filled with reserved empty blocks, its outline takes
    /// the zone marker (when one is given), and a platform strip of
    /// half-width `platform_margin` is laid one row above the bottom
    /// outline as a rest point. Existing content in the footprint is
    /// overwritten unconditionally. Fails, mutating nothing, when the room
    /// would leave the grid or the platform would not fit the interior.
    pub fn generate_room(
        &mut self,
        pos: &Position,
        room_size: usize,
        platform_margin: usize,
        zone_type: Option<BlockType>,
    ) -> (r: Result<(), GenError>)
        requires
            old(self).wf(),
        ensures
            final(self).wf(),
            final(self).same_shape(old(self)),
            r is Ok <==> spec_room_fits(*pos, room_size as int, platform_margin as int,
                old(self).spec_width(), old(self).spec_height()),
            r is Err ==> r->Err_0 == GenError::OutOfBounds && final(self).same_blocks(old(self))
                && final(self).same_chunks(old(self)),
            r is Ok ==> forall|x: int, y: int|
                0 <= x < old(self).spec_width() && 0 <= y < old(self).spec_height()
                    ==> #[trigger] final(self).block_at(x, y) == spec_room_block(
                    old(self).block_at(x, y),
                    *pos,
                    room_size as int,
                    platform_margin as int,
                    zone_type,
                    x,
                    y,
                ),
            forall|cx: int, cy: int|
                0 <= cx < spec_num_chunks(old(self).spec_width()) && 0 <= cy < spec_num_chunks(
                    old(self).spec_height(),
                ) && old(self).chunk_at(cx, cy) ==> #[trigger] final(self).chunk_at(cx, cy),
    {
        let fits = room_size >= 1 && platform_margin < room_size && pos.x >= room_size && pos.y
            >= room_size && pos.x < self.width && self.width - pos.x > room_size && pos.y
            < self.height && self.height - pos.y > room_size;
        if !fits {
            return Err(GenError::OutOfBounds);
        }
        let top_left = Position::new(pos.x - room_size, pos.y - room_size);
        let bot_right = Position::new(pos.x + room_size, pos.y + room_size);
        let strip_left = Position::new(pos.x - platform_margin, pos.y + room_size - 1);
        let strip_right = Position::new(pos.x + platform_margin, pos.y + room_size - 1);
        let ghost g0 = *self;

        self.set_area(&top_left, &bot_right, &BlockType::EmptyReserved, &Overwrite::Force);
        let ghost g1 = *self;
        match zone_type {
            Some(z) => {
                self.set_area_border(&top_left, &bot_right, &z, &Overwrite::Force);
            },
            None => {},
        }
        let ghost g2 = *self;
        self.set_area(&strip_left, &strip_right, &BlockType::Platform, &Overwrite::Force);

        proof {
            assert forall|x: int, y: int|
                0 <= x < g0.spec_width() && 0 <= y < g0.spec_height() implies #[trigger] self
                .block_at(x, y) == spec_room_block(
                g0.block_at(x, y),
                *pos,
                room_size as int,
                platform_margin as int,
                zone_type,
                x,
                y,
            ) by {
                let b0 = g0.block_at(x, y);
                let b1 = g1.block_at(x, y);
                let b2 = g2.block_at(x, y);
                let b3 = self.block_at(x, y);
            }
        }
        Ok(())
    }
}

/// Whether a room of half-width `room_size` with a platform of half-width
/// `platform_margin` fits around `pos` in a `width` by `height` grid.
pub open spec fn spec_room_fits(
    pos: Position,
    room_size: int,
    platform_margin: int,
    width: int,
    height: int,
) -> bool {
    &&& room_size >= 1
    &&& platform_margin < room_size
    &&& room_size <= pos.x
    &&& room_size <= pos.y
    &&& pos.x + room_size < width
    &&& pos.y + room_size < height
}

/// What a room carve leaves in cell `(x, y)`: the platform strip, the
/// zone-marked outline, the reserved interior, or the old block outside.
pub open spec fn spec_room_block(
    old_block: BlockType,
    pos: Position,
    room_size: int,
    platform_margin: int,
    zone_type: Option<BlockType>,
    x: int,
    y: int,
) -> BlockType {
    let tl = Position { x: (pos.x - room_size) as usize, y: (pos.y - room_size) as usize };
    let br = Position { x: (pos.x + room_size) as usize, y: (pos.y + room_size) as usize };
    if pos.x - platform_margin <= x <= pos.x + platform_margin && y == pos.y + room_size - 1 {
        BlockType::Platform
    } else if spec_on_border(tl, br, x, y) && zone_type is Some {
        zone_type.unwrap()
    } else if spec_in_rect(tl, br, x, y) {
        BlockType::EmptyReserved
    } else {
        old_block
    }
}

/// Matches of `value` in column `x` of `g`, rows `y0` (inclusive) up to
/// `y1` (exclusive).
pub open spec fn spec_count_col(g: Grid, x: int, y0: int, y1: int, value: BlockType) -> int
    decreases y1 - y0,
{
    if y0 >= y1 {
        0
    } else {
        (if g.block_at(x, y0) == value {
            1int
        } else {
            0int
        }) + spec_count_col(g, x, y0 + 1, y1, value)
    }
}

/// Matches of `value` in columns `x0` (inclusive) up to `x1` (exclusive)
/// of `g`, rows `y0` up to `y1`.
pub open spec fn spec_count_rect(
    g: Grid,
    x0: int,
    x1: int,
    y0: int,
    y1: int,
    value: BlockType,
) -> int
    decreases x1 - x0,
{
    if x0 >= x1 {
        0
    } else {
        spec_count_col(g, x0, y0, y1, value) + spec_count_rect(g, x0 + 1, x1, y0, y1, value)
    }
}

/// Extending a column count by one row adds that row's match.
proof fn lemma_count_col_extend(g: Grid, x: int, y0: int, y1: int, value: BlockType)
    requires
        y0 <= y1,
    ensures
        spec_count_col(g, x, y0, y1 + 1, value) == spec_count_col(g, x, y0, y1, value) + (
        if g.block_at(x, y1) == value {
            1int
        } else {
            0int
        }),
    decreases y1 - y0,
{
    if y0 < y1 {
        lemma_count_col_extend(g, x, y0 + 1, y1, value);
    } else {
        assert(spec_count_col(g, x, y0 + 1, y1 + 1, value) == 0);
    }
}

/// Extending a rectangle count by one column adds that column's count.
proof fn lemma_count_rect_extend(g: Grid, x0: int, x1: int, y0: int, y1: int, value: BlockType)
    requires
        x0 <= x1,
    ensures
        spec_count_rect(g, x0, x1 + 1, y0, y1, value) == spec_count_rect(g, x0, x1, y0, y1, value)
            + spec_count_col(g, x1, y0, y1, value),
    decreases x1 - x0,
{
    if x0 < x1 {
        lemma_count_rect_extend(g, x0 + 1, x1, y0, y1, value);
    } else {
        assert(spec_count_rect(g, x0 + 1, x1 + 1, y0, y1, value) == 0);
    }
}

/// A column count never exceeds the number of rows counted.
proof fn lemma_count_col_bound(g: Grid, x: int, y0: int, y1: int, value: BlockType)
    ensures
        0 <= spec_count_col(g, x, y0, y1, value),
        spec_count_col(g, x, y0, y1, value) <= (if y1 >= y0 {
            y1 - y0
        } else {
            0int
        }),
    decreases y1 - y0,
{
    if y0 < y1 {
        lemma_count_col_bound(g, x, y0 + 1, y1, value);
    }
}

/// A rectangle count never exceeds the area counted.
proof fn lemma_count_rect_bound(g: Grid, x0: int, x1: int, y0: int, y1: int, value: BlockType)
    ensures
        0 <= spec_count_rect(g, x0, x1, y0, y1, value),
        spec_count_rect(g, x0, x1, y0, y1, value) <= (if x1 >= x0 && y1 >= y0 {
            (x1 - x0) * (y1 - y0)
        } else {
            0int
        }),
    decreases x1 - x0,
{
    if x0 < x1 {
        lemma_count_rect_bound(g, x0 + 1, x1, y0, y1, value);
        lemma_count_col_bound(g, x0, y0, y1, value);
        if y1 >= y0 {
            assert((x1 - x0) * (y1 - y0) == (y1 - y0) + (x1 - x0 - 1) * (y1 - y0))
                by (nonlinear_arith);
        }
    }
}

/// The replace-solid-only policy changes only cells that were Hookable:
/// after a `set_area` under that policy, every cell that did not hold
/// Hookable before the call, Freeze and Empty cells among them, holds its
/// old block unchanged.
pub proof fn lemma_set_area_solid_only_preserves(
    g0: Grid,
    g1: Grid,
    top_left: Position,
    bot_right: Position,
    value: BlockType,
)
    requires
        forall|x: int, y: int|
            0 <= x < g0.spec_width() && 0 <= y < g0.spec_height() ==> #[trigger] g1.block_at(x, y)
                == (if spec_in_rect(top_left, bot_right, x, y) && spec_will_override(
                Overwrite::ReplaceSolidOnly,
                g0.block_at(x, y),
            ) {
                value
            } else {
                g0.block_at(x, y)
            }),
    ensures
        forall|x: int, y: int|
            0 <= x < g0.spec_width() && 0 <= y < g0.spec_height() && g0.block_at(x, y)
                != BlockType::Hookable ==> #[trigger] g1.block_at(x, y) == g0.block_at(x, y),
{
}

/// A `width` by `height` vector-of-columns filled with one value.
pub(crate) fn fill_rect<T: Copy>(width: usize, height: usize, value: T) -> (r: Vec<Vec<T>>)
    ensures
        r@.len() == width,
        forall|x: int| 0 <= x < width ==> (#[trigger] r@[x])@.len() == height,
        forall|x: int, y: int| 0 <= x < width && 0 <= y < height ==> (#[trigger] r@[x]@[y]) == value,
{
    let mut r: Vec<Vec<T>> = Vec::new();
    let mut x: usize = 0;
    while x < width
        invariant
            x <= width,
            r@.len() == x,
            forall|xi: int| 0 <= xi < x ==> (#[trigger] r@[xi])@.len() == height,
            forall|xi: int, yi: int|
                0 <= xi < x && 0 <= yi < height ==> (#[trigger] r@[xi]@[yi]) == value,
        decreases width - x,
    {
        let mut col: Vec<T> = Vec::new();
        let mut y: usize = 0;
        while y < height
            invariant
                y <= height,
                col@.len() == y,
                forall|yi: int| 0 <= yi < y ==> (#[trigger] col@[yi]) == value,
            decreases height - y,
        {
            col.push(value);
            y = y + 1;
        }
        r.push(col);
        x = x + 1;
    }
    r
}

} // verus!
