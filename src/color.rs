use vstd::prelude::*;

verus! {

/// The largest escape count: three bands of 255 steps each.
pub const MAX_ITERATIONS: usize = 765;

/// One pixel colour, eight bits per channel.
#[derive(Clone, Copy, Debug, PartialEq, Eq, Structural)]
pub struct Rgb {
    pub r: u8,
    pub g: u8,
    pub b: u8,
}

/// The palette: counts up to 255 ramp red, up to 510 ramp green over full
/// red, and up to 765 ramp blue over full red and green.
pub open spec fn band_color(count: int) -> Rgb {
    if count <= 255 {
        Rgb { r: count as u8, g: 0, b: 0 }
    } else if count <= 510 {
        Rgb { r: 255, g: (count - 255) as u8, b: 0 }
    } else {
        Rgb { r: 255, g: 255, b: (count - 510) as u8 }
    }
}

/// Colour of an escape count.
pub fn color_of(count: usize) -> (c: Rgb)
    requires
        count <= MAX_ITERATIONS,
    ensures
        c == band_color(count as int),
{
    if count <= 255 {
        Rgb { r: count as u8, g: 0, b: 0 }
    } else if count <= 510 {
        Rgb { r: 255, g: (count - 255) as u8, b: 0 }
    } else {
        Rgb { r: 255, g: 255, b: (count - 510) as u8 }
    }
}

/// The palette's band edges: a count up to 255 is pure red of that level,
/// 256 starts the green ramp, 510 is full yellow and 765 is white.
pub proof fn lemma_band_edges()
    ensures
        forall|count: int|
            0 <= count <= 255 ==> #[trigger] band_color(count) == (Rgb { r: count as u8, g: 0, b: 0 }),
        band_color(256) == (Rgb { r: 255, g: 1, b: 0 }),
        band_color(510) == (Rgb { r: 255, g: 255, b: 0 }),
        band_color(765) == (Rgb { r: 255, g: 255, b: 255 }),
{
}

} // verus!
