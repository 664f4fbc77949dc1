use mandelbrot::color::{color_from_escape, hue_to_rgb};

#[test]
fn no_escape_is_black() {
    assert_eq!(color_from_escape(None, 255), [0, 0, 0]);
    assert_eq!(color_from_escape(None, 0), [0, 0, 0]);
    assert_eq!(color_from_escape(None, 1), [0, 0, 0]);
    assert_eq!(color_from_escape(None, usize::MAX), [0, 0, 0]);
}

#[test]
fn first_iteration_escape_is_red() {
    assert_eq!(color_from_escape(Some(0), 255), [255, 0, 0]);
}

#[test]
fn hues_across_sectors() {
    assert_eq!(color_from_escape(Some(42), 255), [255, 252, 0]);
    assert_eq!(color_from_escape(Some(85), 255), [0, 255, 0]);
    assert_eq!(color_from_escape(Some(128), 255), [0, 252, 255]);
    assert_eq!(color_from_escape(Some(170), 255), [0, 0, 255]);
    assert_eq!(color_from_escape(Some(254), 255), [255, 0, 6]);
}

#[test]
fn half_way_channel_rounds_up() {
    assert_eq!(color_from_escape(Some(1), 4), [128, 255, 0]);
    assert_eq!(color_from_escape(Some(3), 4), [128, 0, 255]);
}

#[test]
fn zero_limit_escape_is_red() {
    assert_eq!(color_from_escape(Some(3), 0), [255, 0, 0]);
}

#[test]
fn large_counts_do_not_overflow() {
    assert_eq!(color_from_escape(Some(usize::MAX), usize::MAX), [255, 0, 0]);
}

#[test]
fn hue_to_rgb_primaries() {
    assert_eq!(hue_to_rgb(0, 1), [255, 0, 0]);
    assert_eq!(hue_to_rgb(1, 1), [255, 255, 0]);
    assert_eq!(hue_to_rgb(2, 1), [0, 255, 0]);
    assert_eq!(hue_to_rgb(3, 1), [0, 255, 255]);
    assert_eq!(hue_to_rgb(4, 1), [0, 0, 255]);
    assert_eq!(hue_to_rgb(5, 1), [255, 0, 255]);
}
