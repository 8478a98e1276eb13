use vstd::prelude::*;

verus! {

/// A width and a height, in pixels.
pub type ImageSize = (usize, usize);

/// A rectangle of pixels, kept row by row: as many rows as the height says,
/// each as long as the width says.
pub struct Image<T> {
    size: ImageSize,
    rows: Vec<Vec<T>>,
}

impl<T> Image<T> {
    #[verifier::type_invariant]
    spec fn wf(&self) -> bool {
        &&& self.rows@.len() == self.size.1
        &&& forall|y: int| 0 <= y < self.size.1 ==> (#[trigger] self.rows@[y])@.len() == self.size.0
    }

    /// The width and the height.
    pub closed spec fn dims(&self) -> ImageSize {
        self.size
    }

    /// The pixel in column `x` of row `y`.
    pub closed spec fn pixel(&self, x: int, y: int) -> T {
        self.rows@[y]@[x]
    }

    /// Whether column `x` of row `y` lies on the image.
    pub open spec fn covers(&self, x: int, y: int) -> bool {
        0 <= x < self.dims().0 && 0 <= y < self.dims().1
    }

}

impl<T: Copy> Image<T> {
    /// An image of the given size, every pixel of the given value.
    pub fn new(size: ImageSize, value: T) -> (image: Image<T>)
        ensures
            image.dims() == size,
            forall|x: int, y: int| image.covers(x, y) ==> image.pixel(x, y) == value,
    {
        let mut rows: Vec<Vec<T>> = Vec::new();
        let mut y: usize = 0;
        while y < size.1
            invariant
                y <= size.1,
                rows@.len() == y,
                forall|r: int| 0 <= r < y ==> (#[trigger] rows@[r])@.len() == size.0,
                forall|r: int, x: int| 0 <= r < y && 0 <= x < size.0 ==> rows@[r]@[x] == value,
            decreases size.1 - y,
        {
            let mut row: Vec<T> = Vec::new();
            let mut x: usize = 0;
            while x < size.0
                invariant
                    x <= size.0,
                    row@.len() == x,
                    forall|c: int| 0 <= c < x ==> row@[c] == value,
                decreases size.0 - x,
            {
                row.push(value);
                x += 1;
            }
            rows.push(row);
            y += 1;
        }
        Image { size, rows }
    }

    /// The width and the height.
    pub fn get_size(&self) -> (size: ImageSize)
        ensures
            size == self.dims(),
    {
        self.size
    }

    /// The pixel in column `x` of row `y`.
    pub fn get(&self, x: usize, y: usize) -> (value: T)
        requires
            self.covers(x as int, y as int),
        ensures
            value == self.pixel(x as int, y as int),
    {
        proof {
            use_type_invariant(self);
        }
        self.rows[y][x]
    }

    /// Gives the pixel in column `x` of row `y` a new value.
    pub fn set(&mut self, x: usize, y: usize, value: T)
        requires
            old(self).covers(x as int, y as int),
        ensures
            final(self).dims() == old(self).dims(),
            final(self).pixel(x as int, y as int) == value,
            forall|c: int, r: int|
                old(self).covers(c, r) && (c != x || r != y) ==> final(self).pixel(c, r) == old(
                    self,
                ).pixel(c, r),
    {
        proof {
            use_type_invariant(&*self);
        }
        put(&mut self.rows, x, y, value);
    }

    /// Gives every pixel of the rectangle from `left_top` up to, but not
    /// with, `right_bottom` the value, as far as the image goes.
    pub fn fill_rect(&mut self, left_top: ImageSize, right_bottom: ImageSize, value: T)
        ensures
            final(self).dims() == old(self).dims(),
            forall|x: int, y: int|
                old(self).covers(x, y) ==> final(self).pixel(x, y) == if left_top.0 <= x
                    < right_bottom.0 && left_top.1 <= y < right_bottom.1 {
                    value
                } else {
                    old(self).pixel(x, y)
                },
    {
        let size = self.size;
        let right: usize = if right_bottom.0 < size.0 {
            right_bottom.0
        } else {
            size.0
        };
        let bottom: usize = if right_bottom.1 < size.1 {
            right_bottom.1
        } else {
            size.1
        };
        let mut y: usize = left_top.1;
        while y < bottom
            invariant
                self.dims() == old(self).dims(),
                size == self.dims(),
                right == if right_bottom.0 < size.0 {
                    right_bottom.0
                } else {
                    size.0
                },
                bottom == if right_bottom.1 < size.1 {
                    right_bottom.1
                } else {
                    size.1
                },
                left_top.1 <= y,
                y <= bottom || y == left_top.1,
                forall|c: int, r: int|
                    old(self).covers(c, r) ==> self.pixel(c, r) == if left_top.0 <= c
                        < right_bottom.0 && left_top.1 <= r < y {
                        value
                    } else {
                        old(self).pixel(c, r)
                    },
            decreases bottom - y,
        {
            let mut x: usize = left_top.0;
            while x < right
                invariant
                    self.dims() == old(self).dims(),
                    size == self.dims(),
                    y < bottom <= size.1,
                    right == if right_bottom.0 < size.0 {
                        right_bottom.0
                    } else {
                        size.0
                    },
                    left_top.1 <= y,
                    left_top.0 <= x,
                    x <= right || x == left_top.0,
                    forall|c: int, r: int|
                        old(self).covers(c, r) ==> self.pixel(c, r) == if left_top.0 <= c
                            < right_bottom.0 && (left_top.1 <= r < y || (r == y && c < x)) {
                            value
                        } else {
                            old(self).pixel(c, r)
                        },
                decreases right - x,
            {
                self.set(x, y, value);
                x += 1;
            }
            y += 1;
        }
    }

    /// Copies a picture onto this one, its left top corner at `left_top`.
    /// What falls off the image is left out.
    pub fn draw_image(&mut self, src: &Image<T>, left_top: ImageSize)
        ensures
            final(self).dims() == old(self).dims(),
            forall|x: int, y: int|
                old(self).covers(x, y) ==> final(self).pixel(x, y) == if src.covers(
                    x - left_top.0,
                    y - left_top.1,
                ) {
                    src.pixel(x - left_top.0, y - left_top.1)
                } else {
                    old(self).pixel(x, y)
                },
    {
        let size = self.size;
        let src_size = src.get_size();
        let mut sy: usize = 0;
        while sy < src_size.1 && sy < size.1 && left_top.1 < size.1 - sy
            invariant
                self.dims() == old(self).dims(),
                size == self.dims(),
                src_size == src.dims(),
                forall|x: int, y: int|
                    old(self).covers(x, y) ==> self.pixel(x, y) == if src.covers(
                        x - left_top.0,
                        y - left_top.1,
                    ) && y - left_top.1 < sy {
                        src.pixel(x - left_top.0, y - left_top.1)
                    } else {
                        old(self).pixel(x, y)
                    },
            decreases src_size.1 - sy,
        {
            let mut sx: usize = 0;
            while sx < src_size.0 && sx < size.0 && left_top.0 < size.0 - sx
                invariant
                    self.dims() == old(self).dims(),
                    size == self.dims(),
                    src_size == src.dims(),
                    sy < src_size.1,
                    sy < size.1,
                    left_top.1 < size.1 - sy,
                    forall|x: int, y: int|
                        old(self).covers(x, y) ==> self.pixel(x, y) == if src.covers(
                            x - left_top.0,
                            y - left_top.1,
                        ) && (y - left_top.1 < sy || (y - left_top.1 == sy && x - left_top.0
                            < sx)) {
                            src.pixel(x - left_top.0, y - left_top.1)
                        } else {
                            old(self).pixel(x, y)
                        },
                decreases src_size.0 - sx,
            {
                let value = src.get(sx, sy);
                self.set(left_top.0 + sx, left_top.1 + sy, value);
                sx += 1;
            }
            sy += 1;
        }
    }

    /// Gives every pixel the value.
    pub fn fill(&mut self, value: T)
        ensures
            final(self).dims() == old(self).dims(),
            forall|x: int, y: int| old(self).covers(x, y) ==> final(self).pixel(x, y) == value,
    {
        let size = self.size;
        self.fill_rect((0, 0), size, value);
    }
}

/// Gives place `x` of row `y` a new value, and leaves the rows as long as
/// they are.
fn put<T: Copy>(rows: &mut Vec<Vec<T>>, x: usize, y: usize, value: T)
    requires
        y < old(rows)@.len(),
        x < old(rows)@[y as int]@.len(),
    ensures
        final(rows)@.len() == old(rows)@.len(),
        forall|r: int|
            0 <= r < old(rows)@.len() ==> (#[trigger] final(rows)@[r])@.len() == old(
                rows,
            )@[r]@.len(),
        forall|c: int, r: int|
            0 <= r < old(rows)@.len() && 0 <= c < old(rows)@[r]@.len() ==> final(rows)@[r]@[c]
                == if c == x && r == y {
                value
            } else {
                old(rows)@[r]@[c]
            },
    no_unwind
{
    rows[y][x] = value;
}

/// Whether a mask drawn with its left top corner at column `left`, row `top`
/// is set at column `x`, row `y`.
pub open spec fn mask_set(mask: Image<bool>, left: int, top: int, x: int, y: int) -> bool {
    mask.covers(x - left, y - top) && mask.pixel(x - left, y - top)
}

impl Image<u32> {
    /// Darkens the picture: every pixel keeps a quarter of each of its four
    /// bytes.
    pub fn dim(&mut self)
        ensures
            final(self).dims() == old(self).dims(),
            forall|x: int, y: int|
                old(self).covers(x, y) ==> final(self).pixel(x, y) == (old(self).pixel(x, y)
                    & 0xFCFC_FCFC) >> 2,
    {
        let size = self.size;
        let mut y: usize = 0;
        while y < size.1
            invariant
                self.dims() == old(self).dims(),
                size == self.dims(),
                forall|c: int, r: int|
                    old(self).covers(c, r) ==> self.pixel(c, r) == if r < y {
                        (old(self).pixel(c, r) & 0xFCFC_FCFC) >> 2
                    } else {
                        old(self).pixel(c, r)
                    },
            decreases size.1 - y,
        {
            let mut x: usize = 0;
            while x < size.0
                invariant
                    self.dims() == old(self).dims(),
                    size == self.dims(),
                    y < size.1,
                    forall|c: int, r: int|
                        old(self).covers(c, r) ==> self.pixel(c, r) == if r < y || (r == y && c
                            < x) {
                            (old(self).pixel(c, r) & 0xFCFC_FCFC) >> 2
                        } else {
                            old(self).pixel(c, r)
                        },
                decreases size.0 - x,
            {
                let p: u32 = self.get(x, y);
                self.set(x, y, (p & 0xFCFC_FCFC) >> 2);
                x += 1;
            }
            y += 1;
        }
    }

    /// Draws a mask in one colour, its left top corner at column `left`,
    /// row `top`: where the mask is set the pixel gets the colour, and the
    /// rest stays. What falls off the image is left out.
    pub fn draw_mask(&mut self, mask: &Image<bool>, left: i128, top: i128, color: u32)
        requires
            -0x2_0000_0000_0000_0000 <= left <= 0x2_0000_0000_0000_0000,
            -0x2_0000_0000_0000_0000 <= top <= 0x2_0000_0000_0000_0000,
        ensures
            final(self).dims() == old(self).dims(),
            forall|x: int, y: int|
                old(self).covers(x, y) ==> final(self).pixel(x, y) == if mask_set(
                    *mask,
                    left as int,
                    top as int,
                    x,
                    y,
                ) {
                    color
                } else {
                    old(self).pixel(x, y)
                },
    {
        let size = self.size;
        let mask_size = mask.get_size();
        let mut sy: usize = 0;
        while sy < mask_size.1
            invariant
                self.dims() == old(self).dims(),
                size == self.dims(),
                mask_size == mask.dims(),
                -0x2_0000_0000_0000_0000 <= left <= 0x2_0000_0000_0000_0000,
                -0x2_0000_0000_0000_0000 <= top <= 0x2_0000_0000_0000_0000,
                sy <= mask_size.1,
                forall|x: int, y: int|
                    old(self).covers(x, y) ==> self.pixel(x, y) == if mask_set(
                        *mask,
                        left as int,
                        top as int,
                        x,
                        y,
                    ) && y - top < sy {
                        color
                    } else {
                        old(self).pixel(x, y)
                    },
            decreases mask_size.1 - sy,
        {
            let ty: i128 = top + sy as i128;
            let mut sx: usize = 0;
            while sx < mask_size.0
                invariant
                    self.dims() == old(self).dims(),
                    size == self.dims(),
                    mask_size == mask.dims(),
                    -0x2_0000_0000_0000_0000 <= left <= 0x2_0000_0000_0000_0000,
                    sy < mask_size.1,
                    ty == top + sy,
                    sx <= mask_size.0,
                    forall|x: int, y: int|
                        old(self).covers(x, y) ==> self.pixel(x, y) == if mask_set(
                            *mask,
                            left as int,
                            top as int,
                            x,
                            y,
                        ) && (y - top < sy || (y - top == sy && x - left < sx)) {
                            color
                        } else {
                            old(self).pixel(x, y)
                        },
                decreases mask_size.0 - sx,
            {
                let tx: i128 = left + sx as i128;
                if mask.get(sx, sy) && tx >= 0 && ty >= 0 && tx < size.0 as i128 && ty
                    < size.1 as i128 {
                    self.set(tx as usize, ty as usize, color);
                }
                sx += 1;
            }
            sy += 1;
        }
    }
}

} // verus!
