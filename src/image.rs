use vstd::prelude::*;

use crate::color::Rgb;

verus! {

/// Largest packed colour plus one: three channels of eight bits.
pub const PACKED_LIMIT: i32 = 16777216;

/// A colour packed into one integer, red in the high byte, blue in the low.
pub open spec fn packed(c: Rgb) -> int {
    c.r as int * 65536 + c.g as int * 256 + c.b as int
}

/// Offset of pixel (x, y) in a row-major buffer of the given width.
pub open spec fn offset(width: int, x: int, y: int) -> int {
    y * width + x
}

/// A pixel grid of fixed size, one packed colour per cell, stored row by row.
pub struct Image {
    pub width: usize,
    pub height: usize,
    pub data: Vec<i32>,
}

/// Row-major offsets of cells inside a width x height grid are in range and
/// distinct.
pub proof fn lemma_offset_in_grid(width: int, height: int, x: int, y: int)
    requires
        0 <= x < width,
        0 <= y < height,
    ensures
        0 <= offset(width, x, y) < width * height,
        offset(width, x, y) % width == x,
        offset(width, x, y) / width == y,
{
    assert(0 <= y * width + x < width * height) by (nonlinear_arith)
        requires
            0 <= x < width,
            0 <= y < height,
    ;
    vstd::arithmetic::div_mod::lemma_fundamental_div_mod_converse(y * width + x, width, y, x);
}

impl Image {
    /// The buffer holds one cell per pixel, each a packed colour.
    pub open spec fn wf(&self) -> bool {
        &&& self.width * self.height <= usize::MAX
        &&& self.data@.len() == self.width * self.height
        &&& forall|i: int|
            0 <= i < self.data@.len() ==> 0 <= #[trigger] self.data@[i] < PACKED_LIMIT
    }

    /// The packed colour at pixel (x, y).
    pub open spec fn cell(&self, x: int, y: int) -> int {
        self.data@[offset(self.width as int, x, y)] as int
    }

    /// A black image of the given size.
    pub fn new(width: usize, height: usize) -> (img: Image)
        requires
            width * height <= usize::MAX,
        ensures
            img.wf(),
            img.width == width,
            img.height == height,
            forall|i: int| 0 <= i < img.data@.len() ==> #[trigger] img.data@[i] == 0,
    {
        let n: usize = width * height;
        let data: Vec<i32> = vec![0; n];
        Image { width, height, data }
    }

    /// Writes the colour (r, g, b) into pixel (x, y); every other pixel keeps
    /// its colour.
    pub fn set_color(&mut self, x: usize, y: usize, r: u8, g: u8, b: u8)
        requires
            old(self).wf(),
            x < old(self).width,
            y < old(self).height,
        ensures
            final(self).wf(),
            final(self).width == old(self).width,
            final(self).height == old(self).height,
            final(self).data@ == old(self).data@.update(
                offset(old(self).width as int, x as int, y as int),
                packed(Rgb { r, g, b }) as i32,
            ),
    {
        proof {
            lemma_offset_in_grid(self.width as int, self.height as int, x as int, y as int);
        }
        let i: usize = y * self.width + x;
        let v: i32 = (r as i32) * 65536 + (g as i32) * 256 + (b as i32);
        self.data.set(i, v);
    }

    /// The cells as a flat byte sequence, three bytes per pixel in the order
    /// red, green, blue.
    pub fn rgb_bytes(&self) -> (bytes: Vec<u8>)
        requires
            self.wf(),
        ensures
            bytes@.len() == 3 * self.data@.len(),
            forall|i: int|
                0 <= i < self.data@.len() ==> {
                    &&& #[trigger] bytes@[3 * i] == self.data@[i] / 65536
                    &&& bytes@[3 * i + 1] == self.data@[i] / 256 % 256
                    &&& bytes@[3 * i + 2] == self.data@[i] % 256
                },
    {
        let mut bytes: Vec<u8> = Vec::new();
        let mut k: usize = 0;
        while k < self.data.len()
            invariant
                self.wf(),
                k <= self.data@.len(),
                bytes@.len() == 3 * k,
                forall|i: int|
                    0 <= i < k ==> {
                        &&& #[trigger] bytes@[3 * i] == self.data@[i] / 65536
                        &&& bytes@[3 * i + 1] == self.data@[i] / 256 % 256
                        &&& bytes@[3 * i + 2] == self.data@[i] % 256
                    },
            decreases self.data@.len() - k,
        {
            let v: i32 = self.data[k];
            assert(0 <= v < PACKED_LIMIT);
            assert(v / 65536 < 256) by {
                vstd::arithmetic::div_mod::lemma_div_by_multiple_is_strongly_ordered(
                    v as int, 16777216, 256, 65536);
            }
            let ghost before = bytes@;
            bytes.push((v / 65536) as u8);
            bytes.push((v / 256 % 256) as u8);
            bytes.push((v % 256) as u8);
            assert(bytes@[3 * k as int] == v / 65536);
            assert(bytes@[3 * k as int + 1] == v / 256 % 256);
            assert(bytes@[3 * k as int + 2] == v % 256);
            assert forall|i: int| 0 <= i < k + 1 implies {
                &&& #[trigger] bytes@[3 * i] == self.data@[i] / 65536
                &&& bytes@[3 * i + 1] == self.data@[i] / 256 % 256
                &&& bytes@[3 * i + 2] == self.data@[i] % 256
            } by {
                if i < k {
                    assert(bytes@[3 * i] == before[3 * i]);
                    assert(bytes@[3 * i + 1] == before[3 * i + 1]);
                    assert(bytes@[3 * i + 2] == before[3 * i + 2]);
                }
            }
            k = k + 1;
        }
        bytes
    }
}

} // verus!
