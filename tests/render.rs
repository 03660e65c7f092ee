use julia_fractal::{escape_count, generate, Image, MAX_ITERATIONS};

#[derive(Clone, Copy, PartialEq, Debug)]
struct Point {
    re: f64,
    im: f64,
}

fn julia_step(z: Point) -> Point {
    Point {
        re: z.re * z.re - z.im * z.im - 0.4,
        im: z.re * z.im + z.im * z.re + 0.5868,
    }
}

fn inside(z: Point) -> bool {
    (z.re * z.re + z.im * z.im).sqrt() <= 2.0
}

fn render(width: usize, height: usize) -> Image {
    let seed = |x: usize, y: usize| Point {
        re: -2.0 + 4.0 / width as f64 * x as f64,
        im: -2.0 + 4.0 / height as f64 * y as f64,
    };
    generate(width, height, &seed, &julia_step, &inside)
}

#[test]
fn escape_count_stops_at_the_cap() {
    let n = escape_count(0u32, &|z: u32| z, &|_z: u32| true);
    assert_eq!(n, MAX_ITERATIONS);
}

#[test]
fn escape_count_of_an_outside_point_is_zero() {
    let n = escape_count(10u32, &|z: u32| z + 1, &|z: u32| z < 5);
    assert_eq!(n, 0);
}

#[test]
fn escape_count_counts_steps_inside() {
    let n = escape_count(0u32, &|z: u32| z + 1, &|z: u32| z < 5);
    assert_eq!(n, 5);
}

#[test]
fn escape_count_of_julia_points() {
    assert_eq!(escape_count(Point { re: 3.0, im: 0.0 }, &julia_step, &inside), 0);
    assert_eq!(escape_count(Point { re: 0.0, im: 0.0 }, &julia_step, &inside), 140);
    assert_eq!(escape_count(Point { re: 1.5, im: 0.0 }, &julia_step, &inside), 2);
    assert_eq!(escape_count(Point { re: 1.9, im: 0.0 }, &julia_step, &inside), 1);
}

#[test]
fn escape_count_is_repeatable() {
    for k in 0..50 {
        let z = Point { re: -1.0 + 0.04 * k as f64, im: 0.3 };
        let a = escape_count(z, &julia_step, &inside);
        let b = escape_count(z, &julia_step, &inside);
        assert_eq!(a, b);
        assert!(a <= MAX_ITERATIONS);
    }
}

#[test]
fn generate_fills_every_cell_with_a_palette_color() {
    let img = render(100, 80);
    assert_eq!(img.width, 100);
    assert_eq!(img.height, 80);
    assert_eq!(img.data.len(), 100 * 80);
    for &v in &img.data {
        assert!(0 <= v && v < 1 << 24);
        let (r, g, b) = (v >> 16, (v >> 8) & 255, v & 255);
        assert!((g == 0 && b == 0) || (r == 255 && b == 0) || (r == 255 && g == 255));
    }
    // The corner (-2, -2) lies outside the bound at once.
    assert_eq!(img.data[0], 0);
}

#[test]
fn generate_matches_pixel_by_pixel_escape() {
    let (width, height) = (40usize, 30usize);
    let img = render(width, height);
    for x in 0..width {
        for y in 0..height {
            let z = Point {
                re: -2.0 + 4.0 / width as f64 * x as f64,
                im: -2.0 + 4.0 / height as f64 * y as f64,
            };
            let c = julia_fractal::color_of(escape_count(z, &julia_step, &inside));
            let packed = (c.r as i32) << 16 | (c.g as i32) << 8 | c.b as i32;
            assert_eq!(img.data[y * width + x], packed);
        }
    }
}

#[test]
fn generate_with_zero_size_is_empty() {
    assert_eq!(render(0, 10).data.len(), 0);
    assert_eq!(render(10, 0).data.len(), 0);
}

#[test]
fn generate_is_repeatable() {
    assert_eq!(render(64, 48).data, render(64, 48).data);
}
