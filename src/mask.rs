//! The binary content/background mask.
use vstd::prelude::*;

verus! {

/// A pixel is background when `(l / 255) * (a / 255) > 1 / 2`, that is when
/// `2 * l * a > 255 * 255`.
pub open spec fn background_spec(luma: u8, alpha: u8) -> bool {
    2 * ((luma as int) * (alpha as int)) > 255 * 255
}

/// Classifies one pixel: `true` for background (bright and opaque), `false`
/// for content (dark or transparent).
pub fn is_background(luma: u8, alpha: u8) -> (r: bool)
    ensures
        r == background_spec(luma, alpha),
{
    proof {
        assert((luma as int) * (alpha as int) <= 255 * 255) by (nonlinear_arith)
            requires
                luma <= 255,
                alpha <= 255,
        ;
    }
    let product: u32 = (luma as u32) * (alpha as u32);
    2 * product > 65025
}

/// A dense, row-major grid of cells: `true` marks a content cell.
pub struct Mask {
    pub width: u32,
    pub height: u32,
    pub cells: Vec<bool>,
}

/// Whether `(x, y)` lies inside a `width` by `height` grid.
pub open spec fn in_grid(width: int, height: int, x: int, y: int) -> bool {
    0 <= x < width && 0 <= y < height
}

impl Mask {
    pub open spec fn wf(&self) -> bool {
        self.cells@.len() == self.width * self.height
    }

    /// The mask value at `(x, y)`; every point outside the grid is background.
    pub open spec fn content_at(&self, x: int, y: int) -> bool {
        in_grid(self.width as int, self.height as int, x, y)
            && self.cells@[y * self.width + x]
    }

    /// Builds the mask of an interleaved luminance/alpha buffer, two bytes per
    /// pixel in row-major order. Returns `None` when the buffer does not hold
    /// exactly `width * height` pixels.
    pub fn from_luma_alpha(width: u32, height: u32, raw: &Vec<u8>) -> (r: Option<Mask>)
        ensures
            r is None <==> raw@.len() != 2 * ((width as int) * (height as int)),
            r matches Some(m) ==> {
                &&& m.wf()
                &&& m.width == width
                &&& m.height == height
                &&& forall|i: int|
                    0 <= i < (width as int) * (height as int) ==> m.cells@[i] == !background_spec(
                        raw@[2 * i],
                        raw@[2 * i + 1],
                    )
            },
    {
        proof {
            assert((width as int) * (height as int) <= 0xffff_ffff * 0xffff_ffff) by (nonlinear_arith)
                requires
                    width <= 0xffff_ffff,
                    height <= 0xffff_ffff,
            ;
        }
        let n: u64 = (width as u64) * (height as u64);
        if (raw.len() as u64) / 2 != n || raw.len() % 2 != 0 {
            return None;
        }
        assert(raw@.len() == 2 * ((width as int) * (height as int)));
        let count: usize = raw.len() / 2;
        let mut cells: Vec<bool> = Vec::new();
        let mut i: usize = 0;
        while i < count
            invariant
                count == n,
                raw.len() == 2 * count,
                i <= count,
                cells@.len() == i,
                forall|j: int|
                    0 <= j < i ==> cells@[j] == !background_spec(raw@[2 * j], raw@[2 * j + 1]),
            decreases count - i,
        {
            cells.push(!is_background(raw[2 * i], raw[2 * i + 1]));
            i += 1;
        }
        Some(Mask { width, height, cells })
    }

    /// The mask value at `(x, y)`, with every point outside the grid read as
    /// background.
    pub fn is_content(&self, x: i64, y: i64) -> (r: bool)
        requires
            self.wf(),
        ensures
            r == self.content_at(x as int, y as int),
    {
        if x < 0 || y < 0 || x >= self.width as i64 || y >= self.height as i64 {
            false
        } else {
            proof {
                assert(y * self.width + x < self.width * self.height) by (nonlinear_arith)
                    requires
                        0 <= x < self.width,
                        0 <= y < self.height,
                ;
            }
            assert(self.cells@.len() == self.cells.len());
        let index: u64 = (y as u64) * (self.width as u64) + (x as u64);
            self.cells[index as usize]
        }
    }
}

} // verus!
