use voice_harmonics::config::{NUM_BINS, SPEC_ROWS};
use voice_harmonics::waterfall::{ColumnSpan, Rgba, WaterfallImage};

fn pixel(img: &WaterfallImage, row: usize, col: usize) -> Rgba {
    let p = img.pixels();
    let k = (row * SPEC_ROWS + col) * 4;
    Rgba { r: p[k], g: p[k + 1], b: p[k + 2], a: p[k + 3] }
}

#[test]
fn new_image_is_black_and_empty() {
    let img = WaterfallImage::new();
    assert_eq!(img.pixels().len(), SPEC_ROWS * NUM_BINS * 4);
    assert!(img.pixels().iter().all(|&b| b == 0));
    assert_eq!(img.pos(), 0);
    assert!(!img.filled());
    assert_eq!(img.visible_columns(), 0);
    assert!(img.display_segments().is_empty());
}

#[test]
fn column_lands_in_current_column_lowest_bin_at_bottom() {
    let mut img = WaterfallImage::new();
    let red = Rgba { r: 255, g: 0, b: 0, a: 255 };
    let blue = Rgba { r: 0, g: 0, b: 255, a: 255 };
    img.push_column(&[red, blue]);
    assert_eq!(pixel(&img, NUM_BINS - 1, 0), red);
    assert_eq!(pixel(&img, NUM_BINS - 2, 0), blue);
    assert_eq!(pixel(&img, NUM_BINS - 3, 0), Rgba { r: 0, g: 0, b: 0, a: 0 });
    assert_eq!(pixel(&img, NUM_BINS - 1, 1), Rgba { r: 0, g: 0, b: 0, a: 0 });
    assert_eq!(img.pos(), 1);
    assert_eq!(img.visible_columns(), 1);
    assert_eq!(img.display_segments(), vec![ColumnSpan { start: 0, end: 1 }]);
}

#[test]
fn wraps_after_all_columns_and_shows_oldest_first() {
    let mut img = WaterfallImage::new();
    let c = Rgba { r: 1, g: 2, b: 3, a: 4 };
    for _ in 0..SPEC_ROWS - 1 {
        img.push_column(&[c]);
    }
    assert_eq!(img.pos(), SPEC_ROWS - 1);
    assert!(!img.filled());
    img.push_column(&[c]);
    assert_eq!(img.pos(), 0);
    assert!(img.filled());
    assert_eq!(img.display_segments(), vec![ColumnSpan { start: 0, end: SPEC_ROWS }]);
    img.push_column(&[c]);
    img.push_column(&[c]);
    assert_eq!(img.pos(), 2);
    assert_eq!(img.visible_columns(), SPEC_ROWS);
    assert_eq!(
        img.display_segments(),
        vec![ColumnSpan { start: 2, end: SPEC_ROWS }, ColumnSpan { start: 0, end: 2 }]
    );
}

#[test]
fn dirty_flag_is_handed_out_once() {
    let mut img = WaterfallImage::new();
    assert!(!img.take_dirty());
    img.push_column(&[]);
    assert!(img.take_dirty());
    assert!(!img.take_dirty());
    img.reset();
    assert!(img.take_dirty());
}

#[test]
fn reset_blackens_and_rewinds() {
    let mut img = WaterfallImage::new();
    let full = vec![Rgba { r: 9, g: 9, b: 9, a: 9 }; NUM_BINS];
    for _ in 0..3 {
        img.push_column(&full);
    }
    assert_eq!(pixel(&img, 0, 2), Rgba { r: 9, g: 9, b: 9, a: 9 });
    img.reset();
    assert_eq!(img.pos(), 0);
    assert!(!img.filled());
    assert!(img.pixels().iter().all(|&b| b == 0));
}
