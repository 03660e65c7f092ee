use julia_fractal::Image;

#[test]
fn test_image() {
    let width: usize = 100;
    let height: usize = 80;
    let mut img = Image::new(width, height);
    img.set_color(15, 50, 255, 0, 127);

    assert!(img.width == width, "THe width is different than expected.");
    assert!(
        img.height == height,
        "The height is different than expected."
    );
    assert!(
        img.data[50 * width + 15] == 16711807,
        "A wrong color has been set."
    );
}

#[test]
fn new_image_is_black() {
    let img = Image::new(7, 3);
    assert_eq!(img.data.len(), 21);
    assert!(img.data.iter().all(|&v| v == 0));
}

#[test]
fn empty_image_has_no_cells() {
    let img = Image::new(0, 5);
    assert_eq!(img.data.len(), 0);
    assert_eq!(img.rgb_bytes().len(), 0);
}

#[test]
fn set_color_touches_one_cell() {
    let mut img = Image::new(4, 3);
    img.set_color(3, 2, 1, 2, 3);
    assert_eq!(img.data[2 * 4 + 3], 65536 + 2 * 256 + 3);
    for i in 0..11 {
        assert_eq!(img.data[i], 0);
    }
}

#[test]
fn rgb_bytes_splits_channels() {
    let mut img = Image::new(2, 1);
    img.set_color(0, 0, 255, 0, 127);
    img.set_color(1, 0, 12, 34, 56);
    assert_eq!(img.rgb_bytes(), vec![255, 0, 127, 12, 34, 56]);
}
