use mandelbrot::render::render;

#[test]
fn single_pixel_in_set_is_black() {
    let mut pixels = vec![7u8; 3];
    render(&mut pixels, (1, 1), |_p: (usize, usize)| None, 255);
    assert_eq!(pixels, vec![0, 0, 0]);
}

#[test]
fn pixels_are_row_major() {
    let mut pixels = vec![0u8; 12];
    let escape = |(column, row): (usize, usize)| {
        if column == 1 && row == 1 {
            None
        } else {
            Some(column + 2 * row)
        }
    };
    render(&mut pixels, (2, 2), escape, 4);
    assert_eq!(pixels, vec![255, 0, 0, 128, 255, 0, 0, 255, 255, 0, 0, 0]);
}

#[test]
fn rendering_twice_gives_same_bytes() {
    let escape = |(column, row): (usize, usize)| {
        if (column * 7 + row * 3) % 5 == 0 {
            None
        } else {
            Some((column * 31 + row * 17) % 255)
        }
    };
    let mut first = vec![0u8; 4 * 3 * 3];
    let mut second = vec![9u8; 4 * 3 * 3];
    render(&mut first, (4, 3), escape, 255);
    render(&mut second, (4, 3), escape, 255);
    assert_eq!(first, second);
}

#[test]
fn empty_image_writes_nothing() {
    let mut pixels: Vec<u8> = Vec::new();
    render(&mut pixels, (0, 5), |_p: (usize, usize)| Some(1), 255);
    assert!(pixels.is_empty());
}
