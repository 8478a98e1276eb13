use vstd::prelude::*;
use crate::SIZE;
use crate::image::ImageSize;

verus! {

/// The colours of the tiles, from the smallest tile on; after the last the
/// first follows again.
pub open spec fn palette() -> Seq<u32> {
    seq![
        0x000060u32,
        0x006060u32,
        0x006000u32,
        0x606000u32,
        0x603000u32,
        0x600000u32,
        0x600060u32,
        0x6000C0u32,
        0x0000C0u32,
        0x0060C0u32,
        0x00C0C0u32,
        0x00C060u32,
        0x00C000u32,
        0x60C000u32,
        0xC0C000u32,
        0xC06000u32,
        0xC00000u32,
    ]
}

/// How often a number can be halved, rounding down, before it is 2 or
/// less.
pub open spec fn halvings(n: int) -> nat
    decreases n,
{
    if n > 2 {
        1 + halvings(n / 2)
    } else {
        0
    }
}

/// The colour of a cell: black for an empty cell, else the colour of the
/// palette at the place that the tile's halvings give.
pub open spec fn color_of(n: int) -> u32 {
    if n == 0 {
        0
    } else {
        palette()[halvings(n) as int % 17]
    }
}

/// The colour of the cell that holds `n`.
pub fn tile_color(n: i32) -> (color: u32)
    ensures
        color == color_of(n as int),
{
    if n == 0 {
        return 0;
    }
    let colors: [u32; 17] = [
        0x000060,
        0x006060,
        0x006000,
        0x606000,
        0x603000,
        0x600000,
        0x600060,
        0x6000C0,
        0x0000C0,
        0x0060C0,
        0x00C0C0,
        0x00C060,
        0x00C000,
        0x60C000,
        0xC0C000,
        0xC06000,
        0xC00000,
    ];
    assert(colors@ =~= palette());
    let start: u32 = if n > 0 {
        n as u32
    } else {
        0
    };
    let mut rest: u32 = start;
    let mut log2: usize = 0;
    while rest > 2
        invariant
            log2 + halvings(rest as int) == halvings(n as int),
            log2 + rest <= start,
        decreases rest,
    {
        log2 += 1;
        rest /= 2;
    }
    colors[log2 % colors.len()]
}

/// Where a length of `whole` pixels, cut into 32 parts for each cell and
/// for a margin of one cell's width on either side, reaches its part
/// `parts`.
pub open spec fn scaled(whole: int, parts: int) -> int {
    whole * parts / ((SIZE + 2) * 32)
}

/// The rectangle of the cell in column `x`, row `y`, on a picture of the
/// given size: its left top corner, and the corner past its right bottom.
/// The cell starts one part into its 32 and ends one part before their end.
pub fn cell_window(size: ImageSize, x: usize, y: usize) -> (corners: (ImageSize, ImageSize))
    requires
        x < SIZE,
        y < SIZE,
        size.0 * ((SIZE - 1) * 32 + 63) <= usize::MAX,
        size.1 * ((SIZE - 1) * 32 + 63) <= usize::MAX,
    ensures
        corners.0.0 == scaled(size.0 as int, x * 32 + 33),
        corners.0.1 == scaled(size.1 as int, y * 32 + 33),
        corners.1.0 == scaled(size.0 as int, x * 32 + 63),
        corners.1.1 == scaled(size.1 as int, y * 32 + 63),
{
    proof {
        lemma_scale_fits(size.0 as int, x as int);
        lemma_scale_fits(size.1 as int, y as int);
    }
    (
        (size.0 * (x * 32 + 33) / ((SIZE + 2) * 32), size.1 * (y * 32 + 33) / ((SIZE + 2) * 32)),
        (size.0 * (x * 32 + 63) / ((SIZE + 2) * 32), size.1 * (y * 32 + 63) / ((SIZE + 2) * 32)),
    )
}

/// A length that can be multiplied for the last cell can be multiplied for
/// every cell.
pub proof fn lemma_scale_fits(whole: int, k: int)
    requires
        0 <= whole,
        0 <= k < SIZE,
        whole * ((SIZE - 1) * 32 + 63) <= usize::MAX,
    ensures
        0 <= whole * (k * 32 + 33) <= usize::MAX,
        0 <= whole * (k * 32 + 63) <= usize::MAX,
{
    assert(0 <= whole * (k * 32 + 33) <= whole * (k * 32 + 63) <= whole * ((SIZE - 1) * 32 + 63))
        by (nonlinear_arith)
        requires
            0 <= whole,
            0 <= k < SIZE,
    ;
}

} // verus!
