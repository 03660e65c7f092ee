use julia_fractal::{color_of, Rgb, MAX_ITERATIONS};

fn rgb(r: u8, g: u8, b: u8) -> Rgb {
    Rgb { r, g, b }
}

#[test]
fn red_band() {
    assert_eq!(color_of(0), rgb(0, 0, 0));
    assert_eq!(color_of(100), rgb(100, 0, 0));
    assert_eq!(color_of(255), rgb(255, 0, 0));
}

#[test]
fn green_band() {
    assert_eq!(color_of(256), rgb(255, 1, 0));
    assert_eq!(color_of(300), rgb(255, 45, 0));
    assert_eq!(color_of(510), rgb(255, 255, 0));
}

#[test]
fn blue_band() {
    assert_eq!(color_of(511), rgb(255, 255, 1));
    assert_eq!(color_of(600), rgb(255, 255, 90));
    assert_eq!(color_of(MAX_ITERATIONS), rgb(255, 255, 255));
}

#[test]
fn every_count_has_a_color() {
    for n in 0..=MAX_ITERATIONS {
        let c = color_of(n);
        let level = c.r as usize + c.g as usize + c.b as usize;
        assert_eq!(level, n);
    }
}
