use rtop::pixels::{
    crop_pixels, downsample_pixels_box, effective_svg_scale, rgba_to_rgb, scale_pixels_nearest,
    svg_cell_from_pixels, svg_logo_cells, LogoCell, RgbColor, RgbaColor,
};

fn px(r: u8, g: u8, b: u8, a: u8) -> RgbaColor {
    RgbaColor { r, g, b, a }
}

#[test]
fn colour_without_alpha() {
    assert_eq!(rgba_to_rgb(px(1, 2, 3, 4)), RgbColor { r: 1, g: 2, b: 3 });
    assert_eq!(RgbaColor::default(), px(0, 0, 0, 0));
}

#[test]
fn half_block_cells() {
    let red = px(255, 0, 0, 255);
    let blue = px(0, 0, 255, 200);
    let faint = px(9, 9, 9, 10);
    assert_eq!(svg_cell_from_pixels(faint, faint), LogoCell::blank());
    assert_eq!(svg_cell_from_pixels(red, faint), LogoCell { ch: '▀', fg: Some(RgbColor { r: 255, g: 0, b: 0 }), bg: None });
    assert_eq!(svg_cell_from_pixels(faint, blue), LogoCell { ch: '▄', fg: Some(RgbColor { r: 0, g: 0, b: 255 }), bg: None });
    assert_eq!(
        svg_cell_from_pixels(red, blue),
        LogoCell { ch: '▀', fg: Some(RgbColor { r: 255, g: 0, b: 0 }), bg: Some(RgbColor { r: 0, g: 0, b: 255 }) }
    );
}

#[test]
fn supersampling_scale() {
    assert_eq!(effective_svg_scale(100, 50, 4), 4);
    assert_eq!(effective_svg_scale(1000, 1000, 4), 2);
    assert_eq!(effective_svg_scale(3000, 10, 4), 1);
    assert_eq!(effective_svg_scale(0, 0, 0), 1);
}

#[test]
fn crop_to_visible_box() {
    let clear = px(0, 0, 0, 0);
    let dot = px(1, 2, 3, 255);
    let img = vec![clear, clear, clear, clear, dot, clear, clear, clear, clear];
    assert_eq!(crop_pixels(&img, 3, 3), Some((1, 1, vec![dot])));
    let img2 = vec![dot, clear, clear, clear, clear, dot];
    assert_eq!(crop_pixels(&img2, 3, 2), Some((3, 2, img2.clone())));
    assert_eq!(crop_pixels(&vec![clear; 4], 2, 2), None);
    assert_eq!(crop_pixels(&vec![dot; 3], 2, 2), None);
}

#[test]
fn nearest_neighbour_scaling() {
    let p = px(1, 1, 1, 255);
    let q = px(2, 2, 2, 255);
    assert_eq!(scale_pixels_nearest(&vec![p, q], 2, 1, 4, 1), vec![p, p, q, q]);
    assert_eq!(scale_pixels_nearest(&vec![p, q, q, p], 2, 2, 1, 1), vec![p]);
    assert_eq!(scale_pixels_nearest(&vec![p], 1, 1, 0, 3), vec![]);
}

#[test]
fn box_downsampling() {
    let p = px(10, 20, 30, 200);
    assert_eq!(downsample_pixels_box(&vec![p; 4], 2, 2, 2), vec![p]);
    let red = px(100, 0, 0, 255);
    let blue = px(0, 0, 200, 255);
    let clear = px(0, 0, 0, 0);
    assert_eq!(downsample_pixels_box(&vec![red, blue, clear, clear], 2, 2, 2), vec![px(50, 0, 100, 127)]);
    assert_eq!(downsample_pixels_box(&vec![clear; 4], 2, 2, 2), vec![clear]);
    assert_eq!(downsample_pixels_box(&vec![red, blue], 2, 1, 1), vec![red, blue]);
}

#[test]
fn logo_cells_from_cropped_image() {
    let p = px(10, 20, 30, 255);
    let cells = svg_logo_cells(&vec![p], 1, 1, (1, 2), 1, 1, 1);
    let rgb = RgbColor { r: 10, g: 20, b: 30 };
    assert_eq!(cells, vec![LogoCell { ch: '▀', fg: Some(rgb), bg: Some(rgb) }]);
    let centred = svg_logo_cells(&vec![p], 1, 1, (1, 1), 3, 1, 1);
    assert_eq!(centred, vec![LogoCell::blank(), LogoCell { ch: '▀', fg: Some(rgb), bg: None }, LogoCell::blank()]);
}
