use vstd::prelude::*;

use crate::color::{band_color, color_of, Rgb};
use crate::escape::{escape_count, escapes_in, lemma_escape_count_unique};
use crate::image::{lemma_offset_in_grid, packed, Image};

verus! {

/// `v` is a colour that pixel (x, y) may show: the pixel's plane point is
/// `z`, `n` is an escape count of `z`, and `v` is the packed colour of `n`.
pub open spec fn pixel_shows<T, P: Fn(usize, usize) -> T, S: Fn(T) -> T, B: Fn(T) -> bool>(
    seed: P,
    step: S,
    bounded: B,
    x: usize,
    y: usize,
    v: int,
) -> bool {
    exists|z: T, n: int|
        #[trigger] seed.ensures((x, y), z) && #[trigger] escapes_in(step, bounded, z, n) && v == packed(
            band_color(n),
        )
}

/// With a pixel map, a step and a bound test that each give one result per
/// input, every pixel has exactly one colour it may show: the rendered image
/// is determined by its inputs.
pub proof fn lemma_pixel_unique<T, P: Fn(usize, usize) -> T, S: Fn(T) -> T, B: Fn(T) -> bool>(
    seed: P,
    step: S,
    bounded: B,
    x: usize,
    y: usize,
    v1: int,
    v2: int,
)
    requires
        forall|x: usize, y: usize, a: T, b: T|
            #[trigger] seed.ensures((x, y), a) && #[trigger] seed.ensures((x, y), b) ==> a == b,
        forall|z: T, a: T, b: T|
            #[trigger] step.ensures((z,), a) && #[trigger] step.ensures((z,), b) ==> a == b,
        forall|z: T, a: bool, b: bool|
            #[trigger] bounded.ensures((z,), a) && #[trigger] bounded.ensures((z,), b) ==> a == b,
        pixel_shows(seed, step, bounded, x, y, v1),
        pixel_shows(seed, step, bounded, x, y, v2),
    ensures
        v1 == v2,
{
    let (z1, n1) = choose|z: T, n: int|
        #[trigger] seed.ensures((x, y), z) && #[trigger] escapes_in(step, bounded, z, n) && v1
            == packed(band_color(n));
    let (z2, n2) = choose|z: T, n: int|
        #[trigger] seed.ensures((x, y), z) && #[trigger] escapes_in(step, bounded, z, n) && v2
            == packed(band_color(n));
    assert(z1 == z2);
    lemma_escape_count_unique(step, bounded, z1, n1, n2);
}

/// Renders a `width` x `height` image: each pixel (x, y) is mapped by `seed`
/// to a point, the point's escape count under `step` and `bounded` is taken,
/// and the pixel gets the palette colour of that count. Pixels are visited
/// column by column.
pub fn generate<T: Copy, P: Fn(usize, usize) -> T, S: Fn(T) -> T, B: Fn(T) -> bool>(
    width: usize,
    height: usize,
    seed: &P,
    step: &S,
    bounded: &B,
) -> (img: Image)
    requires
        width * height <= usize::MAX,
        forall|x: usize, y: usize| x < width && y < height ==> seed.requires((x, y)),
        forall|z: T| step.requires((z,)),
        forall|z: T| bounded.requires((z,)),
    ensures
        img.wf(),
        img.width == width,
        img.height == height,
        forall|x: usize, y: usize|
            x < width && y < height ==> #[trigger] pixel_shows(
                *seed,
                *step,
                *bounded,
                x,
                y,
                img.cell(x as int, y as int),
            ),
{
    let mut img: Image = Image::new(width, height);
    let mut x: usize = 0;
    while x < width
        invariant
            img.wf(),
            img.width == width,
            img.height == height,
            x <= width,
            forall|x: usize, y: usize| x < width && y < height ==> seed.requires((x, y)),
            forall|z: T| step.requires((z,)),
            forall|z: T| bounded.requires((z,)),
            forall|i: usize, j: usize|
                i < x && j < height ==> #[trigger] pixel_shows(
                    *seed,
                    *step,
                    *bounded,
                    i,
                    j,
                    img.cell(i as int, j as int),
                ),
        decreases width - x,
    {
        let mut y: usize = 0;
        while y < height
            invariant
                img.wf(),
                img.width == width,
                img.height == height,
                x < width,
                y <= height,
                forall|x: usize, y: usize| x < width && y < height ==> seed.requires((x, y)),
                forall|z: T| step.requires((z,)),
                forall|z: T| bounded.requires((z,)),
                forall|i: usize, j: usize|
                    (i < x && j < height) || (i == x && j < y) ==> #[trigger] pixel_shows(
                        *seed,
                        *step,
                        *bounded,
                        i,
                        j,
                        img.cell(i as int, j as int),
                    ),
            decreases height - y,
        {
            let z: T = seed(x, y);
            let n: usize = escape_count(z, step, bounded);
            let c: Rgb = color_of(n);
            let ghost before = img;
            img.set_color(x, y, c.r, c.g, c.b);
            proof {
                lemma_offset_in_grid(width as int, height as int, x as int, y as int);
                assert(img.cell(x as int, y as int) == packed(band_color(n as int)));
                assert(pixel_shows(*seed, *step, *bounded, x, y, img.cell(x as int, y as int)));
                assert forall|i: usize, j: usize|
                    (i < x && j < height) || (i == x && j < y + 1) implies #[trigger] pixel_shows(
                        *seed,
                        *step,
                        *bounded,
                        i,
                        j,
                        img.cell(i as int, j as int),
                    ) by {
                    if i != x || j != y {
                        lemma_offset_in_grid(width as int, height as int, i as int, j as int);
                        assert(img.cell(i as int, j as int) == before.cell(i as int, j as int));
                    }
                }
            }
            y = y + 1;
        }
        x = x + 1;
    }
    img
}

} // verus!
