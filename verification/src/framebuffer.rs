use vstd::prelude::*;

verus! {

/// Pixel `i` of the buffer lies in the part that starts at column `x` of row
/// `y` and is `width` pixels wide and `height` rows high, in a buffer whose
/// rows are `stride` pixels apart.
pub open spec fn in_part(
    i: int,
    x: int,
    y: int,
    width: int,
    height: int,
    stride: int,
) -> bool {
    exists|cx: int, cy: int|
        0 <= cx < width && 0 <= cy < height && i == #[trigger] pixel_index(x + cx, y + cy, stride)
}

/// The index in the buffer of the pixel in column `x` of row `y`.
pub open spec fn pixel_index(x: int, y: int, stride: int) -> int {
    x + y * stride
}

/// A frame buffer of 32-bit pixels over memory that the caller owns.
pub struct Framebuffer<'backing> {
    backing: &'backing mut [u32],
    width: usize,
    stride: usize,
    height: usize,
}

impl<'backing> Framebuffer<'backing> {
    /// A frame buffer of `height` rows of `width` visible pixels, `stride`
    /// pixels apart, over `backing`. `None` unless `backing` holds exactly
    /// `stride * height` pixels and a row is no wider than the stride.
    pub fn new(backing: &'backing mut [u32], width: usize, stride: usize, height: usize) -> (r:
        Option<Framebuffer<'backing>>)
        ensures
            r is Some <==> width <= stride && stride * height == old(backing)@.len(),
            r matches Some(fb) ==> {
                &&& fb.pixels() == old(backing)@
                &&& fb.spec_width() == width
                &&& fb.spec_stride() == stride
                &&& fb.spec_height() == height
                &&& fb.wf()
            },
    {
        if width > stride {
            return None;
        }
        let len: usize = backing.len();
        match stride.checked_mul(height) {
            Some(n) => {
                if n != len {
                    return None;
                }
            },
            None => {
                return None;
            },
        }
        Some(Framebuffer { backing, width, stride, height })
    }
}

impl Framebuffer<'_> {
    /// The pixels, row after row.
    pub closed spec fn pixels(&self) -> Seq<u32> {
        self.backing@
    }

    pub closed spec fn spec_width(&self) -> int {
        self.width as int
    }

    pub closed spec fn spec_stride(&self) -> int {
        self.stride as int
    }

    pub closed spec fn spec_height(&self) -> int {
        self.height as int
    }

    /// The buffer holds `stride * height` pixels, and a row is no wider than
    /// the stride.
    pub open spec fn wf(&self) -> bool {
        &&& self.spec_width() <= self.spec_stride()
        &&& self.spec_stride() * self.spec_height() == self.pixels().len()
    }

    pub fn width(&self) -> (r: usize)
        ensures
            r == self.spec_width(),
    {
        self.width
    }

    pub fn stride(&self) -> (r: usize)
        ensures
            r == self.spec_stride(),
    {
        self.stride
    }

    pub fn height(&self) -> (r: usize)
        ensures
            r == self.spec_height(),
    {
        self.height
    }

    /// The number of pixels in the buffer.
    pub fn len(&self) -> (r: usize)
        ensures
            r == self.pixels().len(),
    {
        self.backing.len()
    }

    /// Sets the pixel in column `x` of row `y` to `color`.
    pub fn write(&mut self, x: usize, y: usize, color: u32)
        requires
            pixel_index(x as int, y as int, old(self).spec_stride()) < old(self).pixels().len(),
        ensures
            final(self).pixels() == old(self).pixels().update(
                pixel_index(x as int, y as int, old(self).spec_stride()),
                color,
            ),
            final(self).spec_width() == old(self).spec_width(),
            final(self).spec_stride() == old(self).spec_stride(),
            final(self).spec_height() == old(self).spec_height(),
    {
        let len: usize = self.backing.len();
        assert(y * self.stride >= 0) by (nonlinear_arith)
            requires
                y >= 0,
                self.stride >= 0,
        ;
        self.backing[x + y * self.stride] = color;
    }

    /// Sets every pixel to `color`.
    pub fn clear(&mut self, color: u32)
        ensures
            final(self).pixels().len() == old(self).pixels().len(),
            forall|i: int| 0 <= i < final(self).pixels().len() ==> final(self).pixels()[i] == color,
            final(self).spec_width() == old(self).spec_width(),
            final(self).spec_stride() == old(self).spec_stride(),
            final(self).spec_height() == old(self).spec_height(),
    {
        let len: usize = self.backing.len();
        let mut i: usize = 0;
        while i < len
            invariant
                i <= len,
                len == self.pixels().len(),
                len == old(self).pixels().len(),
                self.width == old(self).width,
                self.stride == old(self).stride,
                self.height == old(self).height,
                forall|j: int| 0 <= j < i ==> self.pixels()[j] == color,
            decreases len - i,
        {
            self.backing[i] = color;
            i += 1;
        }
    }

    /// Sets the pixels of the part that starts at column `x` of row `y` and
    /// is `width` pixels wide and `height` rows high to `color`.
    pub fn clear_part(&mut self, color: u32, x: usize, y: usize, width: usize, height: usize)
        requires
            width > 0 && height > 0 ==> y + height - 1 <= usize::MAX && pixel_index(
                x + width - 1,
                y + height - 1,
                old(self).spec_stride(),
            ) < old(self).pixels().len(),
        ensures
            final(self).pixels().len() == old(self).pixels().len(),
            forall|i: int|
                0 <= i < final(self).pixels().len() ==> final(self).pixels()[i] == if in_part(
                    i,
                    x as int,
                    y as int,
                    width as int,
                    height as int,
                    old(self).spec_stride(),
                ) {
                    color
                } else {
                    old(self).pixels()[i]
                },
            final(self).spec_width() == old(self).spec_width(),
            final(self).spec_stride() == old(self).spec_stride(),
            final(self).spec_height() == old(self).spec_height(),
    {
        let len: usize = self.backing.len();
        let ghost stride = self.stride as int;
        let ghost before = self.pixels();
        let mut cy: usize = 0;
        while cy < height
            invariant
                cy <= height,
                len == self.pixels().len(),
                len == before.len(),
                before == old(self).pixels(),
                stride == self.stride,
                self.width == old(self).width,
                self.stride == old(self).stride,
                self.height == old(self).height,
                width > 0 && height > 0 ==> y + height - 1 <= usize::MAX && pixel_index(
                    x + width - 1,
                    y + height - 1,
                    stride,
                ) < len,
                forall|i: int|
                    0 <= i < len ==> self.pixels()[i] == if in_part(
                        i,
                        x as int,
                        y as int,
                        width as int,
                        cy as int,
                        stride,
                    ) {
                        color
                    } else {
                        before[i]
                    },
            decreases height - cy,
        {
            let ghost row_start = self.pixels();
            let mut cx: usize = 0;
            while cx < width
                invariant
                    cx <= width,
                    cy < height,
                    len == self.pixels().len(),
                    len == before.len(),
                    stride == self.stride,
                    self.width == old(self).width,
                    self.stride == old(self).stride,
                    self.height == old(self).height,
                    width > 0 && height > 0 ==> y + height - 1 <= usize::MAX && pixel_index(
                        x + width - 1,
                        y + height - 1,
                        stride,
                    ) < len,
                    forall|i: int|
                        0 <= i < len ==> self.pixels()[i] == if in_part(
                            i,
                            x as int,
                            y as int,
                            width as int,
                            cy as int,
                            stride,
                        ) || (exists|k: int|
                            0 <= k < cx && i == #[trigger] pixel_index(x + k, y + cy, stride)) {
                            color
                        } else {
                            before[i]
                        },
                decreases width - cx,
            {
                proof {
                    lemma_index_bound(
                        x as int,
                        y as int,
                        cx as int,
                        cy as int,
                        width as int,
                        height as int,
                        stride,
                    );
                }
                let ghost prev = self.pixels();
                self.write(cx + x, cy + y, color);
                proof {
                    let at = pixel_index(x + cx, y + cy, stride);
                    assert forall|i: int| 0 <= i < len implies self.pixels()[i] == if in_part(
                        i,
                        x as int,
                        y as int,
                        width as int,
                        cy as int,
                        stride,
                    ) || (exists|k: int|
                        0 <= k < cx + 1 && i == #[trigger] pixel_index(x + k, y + cy, stride)) {
                        color
                    } else {
                        before[i]
                    } by {
                        if i == at {
                            assert(i == pixel_index(x + cx, y + cy, stride));
                        } else {
                            assert(self.pixels()[i] == prev[i]);
                            if exists|k: int|
                                0 <= k < cx + 1 && i == #[trigger] pixel_index(
                                    x + k,
                                    y + cy,
                                    stride,
                                ) {
                                let k = choose|k: int|
                                    0 <= k < cx + 1 && i == #[trigger] pixel_index(
                                        x + k,
                                        y + cy,
                                        stride,
                                    );
                                assert(k < cx);
                            }
                        }
                    }
                }
                cx += 1;
            }
            proof {
                assert forall|i: int| 0 <= i < len implies self.pixels()[i] == if in_part(
                    i,
                    x as int,
                    y as int,
                    width as int,
                    cy + 1,
                    stride,
                ) {
                    color
                } else {
                    before[i]
                } by {
                    let a = in_part(i, x as int, y as int, width as int, cy as int, stride);
                    let b = exists|k: int|
                        0 <= k < width && i == #[trigger] pixel_index(x + k, y + cy, stride);
                    let c = in_part(i, x as int, y as int, width as int, cy + 1, stride);
                    if a {
                        let (px, py) = choose|px: int, py: int|
                            0 <= px < width && 0 <= py < cy && i == #[trigger] pixel_index(
                                x + px,
                                y + py,
                                stride,
                            );
                        assert(0 <= px < width && 0 <= py < cy + 1 && i == pixel_index(
                            x + px,
                            y + py,
                            stride,
                        ));
                    }
                    if b {
                        let k = choose|k: int|
                            0 <= k < width && i == #[trigger] pixel_index(x + k, y + cy, stride);
                        assert(0 <= k < width && 0 <= cy < cy + 1 && i == pixel_index(
                            x + k,
                            y + cy,
                            stride,
                        ));
                    }
                    if c {
                        let (px, py) = choose|px: int, py: int|
                            0 <= px < width && 0 <= py < cy + 1 && i == #[trigger] pixel_index(
                                x + px,
                                y + py,
                                stride,
                            );
                        if py < cy {
                            assert(a);
                        } else {
                            assert(i == pixel_index(x + px, y + cy, stride));
                            assert(b);
                        }
                    }
                }
            }
            cy += 1;
        }
    }
}

/// A pixel of a part lies at or before the part's last pixel.
proof fn lemma_index_bound(x: int, y: int, cx: int, cy: int, width: int, height: int, stride: int)
    requires
        0 <= x,
        0 <= y,
        0 <= cx < width,
        0 <= cy < height,
        0 <= stride,
    ensures
        0 <= pixel_index(x + cx, y + cy, stride) <= pixel_index(
            x + width - 1,
            y + height - 1,
            stride,
        ),
        0 <= (y + cy) * stride,
{
    assert(0 <= (y + cy) * stride <= (y + height - 1) * stride) by (nonlinear_arith)
        requires
            0 <= y + cy <= y + height - 1,
            0 <= stride,
    ;
}

} // verus!
