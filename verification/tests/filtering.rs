use photo_engine::color::{color_distance, isqrt, mix_rgba};
use photo_engine::compose::{apply_layer_mask, blend_selected, selected_coverage};
use photo_engine::fill::content_aware_fill_simple;
use photo_engine::filters::box_blur;
use photo_engine::geometry::RectI;
use photo_engine::mask_ops::{blur_mask, dilate, erode};
use photo_engine::masks::Mask;
use photo_engine::pixels::PixelBuffer;
use photo_engine::raster_filters::{high_pass_image, median_image, mosaic_image, surface_blur_image};
use photo_engine::sampling::{pick_mean, Pick};

fn row(values: &[[u8; 4]]) -> PixelBuffer {
    let mut img = PixelBuffer::new(values.len() as u32, 1);
    for (i, v) in values.iter().enumerate() {
        img.set(i as u32, 0, *v);
    }
    img
}

fn reds(img: &PixelBuffer) -> Vec<u8> {
    (0..img.width).map(|x| img.get(x, 0)[0]).collect()
}

#[test]
fn isqrt_and_colour_distance() {
    assert_eq!(isqrt(0), 0);
    assert_eq!(isqrt(24), 4);
    assert_eq!(isqrt(25), 5);
    assert_eq!(isqrt(195075), 441);
    assert_eq!(color_distance([0, 0, 0, 9], [3, 4, 0, 200]), 5);
    assert_eq!(color_distance([10, 10, 10, 0], [0, 0, 0, 0]), 17);
}

#[test]
fn mix_rounds_to_nearest() {
    assert_eq!(mix_rgba([0, 0, 0, 0], [255, 255, 255, 255], 128), [128, 128, 128, 128]);
    assert_eq!(mix_rgba([10, 20, 30, 40], [200, 100, 0, 255], 0), [10, 20, 30, 40]);
    assert_eq!(mix_rgba([10, 20, 30, 40], [200, 100, 0, 255], 255), [200, 100, 0, 255]);
    // 100 * 155 / 255 + 200 * 100 / 255 = 139.2...
    assert_eq!(mix_rgba([100, 0, 0, 0], [200, 0, 0, 0], 100)[0], 139);
}

#[test]
fn box_blur_means_over_the_window() {
    let img = row(&[[0, 0, 0, 255], [30, 0, 0, 255], [60, 0, 0, 255]]);
    let same = box_blur(&img, 0);
    assert_eq!(same.data, img.data);
    let out = box_blur(&img, 1);
    assert_eq!(reds(&out), vec![15, 30, 45]);
    assert_eq!(out.get(0, 0)[3], 255);
}

#[test]
fn box_blur_of_a_uniform_image_is_unchanged() {
    let img = PixelBuffer::solid(4, 3, [12, 34, 56, 78]);
    let out = box_blur(&img, 2);
    assert_eq!(out.data, img.data);
}

#[test]
fn high_pass_is_offset_difference() {
    let img = row(&[[0, 0, 0, 255], [30, 0, 0, 255], [60, 0, 0, 9]]);
    let out = high_pass_image(&img, 1);
    assert_eq!(reds(&out), vec![113, 128, 143]);
    assert_eq!(out.get(2, 0)[3], 9);
    let bright = row(&[[255, 0, 0, 255], [0, 0, 0, 255]]);
    let clipped = high_pass_image(&bright, 1);
    // 255 - 127 + 128 = 256 clamps to 255; 0 - 127 + 128 = 1
    assert_eq!(reds(&clipped), vec![255, 1]);
}

#[test]
fn surface_blur_averages_similar_colours_only() {
    let img = row(&[[0, 0, 0, 255], [10, 10, 10, 255], [200, 200, 200, 255]]);
    let out = surface_blur_image(&img, 1, 20);
    assert_eq!(out.get(0, 0), [5, 5, 5, 255]);
    assert_eq!(out.get(1, 0), [5, 5, 5, 255]);
    assert_eq!(out.get(2, 0), [200, 200, 200, 255]);
    let strict = surface_blur_image(&img, 1, 16);
    assert_eq!(strict.get(0, 0), [0, 0, 0, 255]);
}

#[test]
fn median_takes_the_middle_of_the_sorted_window() {
    let img = row(&[[10, 1, 0, 0], [200, 2, 0, 0], [30, 3, 0, 0]]);
    let out = median_image(&img, 1);
    assert_eq!(reds(&out), vec![200, 30, 200]);
    assert_eq!(out.get(1, 0)[1], 2);
    let uniform = PixelBuffer::solid(3, 3, [7, 8, 9, 10]);
    assert_eq!(median_image(&uniform, 1).data, uniform.data);
}

#[test]
fn mosaic_averages_blocks() {
    let img = row(&[[0, 0, 0, 0], [10, 0, 0, 0], [20, 0, 0, 0], [30, 0, 0, 0]]);
    assert_eq!(reds(&mosaic_image(&img, 2)), vec![5, 5, 25, 25]);
    assert_eq!(reds(&mosaic_image(&img, 3)), vec![10, 10, 10, 30]);
    assert_eq!(reds(&mosaic_image(&img, 0)), vec![0, 10, 20, 30]);
    assert_eq!(reds(&mosaic_image(&img, 100)), vec![15, 15, 15, 15]);
}

#[test]
fn pick_mean_of_an_empty_pick_is_zero() {
    let img = row(&[[1, 2, 3, 0]]);
    let (mean, n) = pick_mean(&img, Pick::FillSource(RectI::new(5, 5, 1, 1)), -2, 3, -2, 3);
    assert_eq!(n, 0);
    assert_eq!(mean, [0, 0, 0, 0]);
    let (mean, n) = pick_mean(&img, Pick::Every, -2, 3, -2, 3);
    assert_eq!(n, 1);
    assert_eq!(mean, [1, 2, 3, 0]);
}

#[test]
fn content_aware_fill_uses_surrounding_opaque_pixels() {
    let base = row(&[[90, 90, 90, 255], [0, 0, 0, 255], [30, 30, 30, 255], [250, 0, 0, 0]]);
    let area = RectI::new(1, 0, 1, 1);
    let mut once = base.clone();
    content_aware_fill_simple(&mut once, area, 1);
    assert_eq!(once.get(1, 0), [60, 60, 60, 255]);
    assert_eq!(once.get(0, 0), [90, 90, 90, 255]);
    assert_eq!(once.get(3, 0), [250, 0, 0, 0]);
    let mut many = base.clone();
    content_aware_fill_simple(&mut many, area, 5);
    assert_eq!(many.data, once.data);
    let mut zero = base.clone();
    content_aware_fill_simple(&mut zero, area, 0);
    assert_eq!(zero.data, once.data);
}

#[test]
fn content_aware_fill_without_sources_changes_nothing() {
    let base = row(&[[90, 90, 90, 255], [0, 0, 0, 255]]);
    let mut img = base.clone();
    content_aware_fill_simple(&mut img, RectI::new(-5, -5, 20, 20), 2);
    assert_eq!(img.data, base.data);
}

#[test]
fn mask_blur_dilate_erode() {
    let mut m = Mask::new(3, 1, 0);
    m.set(1, 0, 255);
    assert_eq!(blur_mask(&m, 1).data, vec![127, 85, 127]);
    assert_eq!(blur_mask(&m, 0).data, vec![0, 255, 0]);
    assert_eq!(dilate(&m).data, vec![255, 255, 255]);
    let full = Mask::new(3, 3, 255);
    let eroded = erode(&full);
    assert_eq!(eroded.data, vec![0, 0, 0, 0, 255, 0, 0, 0, 0]);
}

#[test]
fn layer_mask_scales_alpha() {
    let mut img = PixelBuffer::solid(2, 1, [10, 20, 30, 255]);
    let mut m = Mask::new(1, 1, 128);
    m.set(0, 0, 128);
    apply_layer_mask(&mut img, Some(&m));
    assert_eq!(img.get(0, 0), [10, 20, 30, 128]);
    assert_eq!(img.get(1, 0), [10, 20, 30, 128]);
    let before = img.data.clone();
    apply_layer_mask(&mut img, None);
    assert_eq!(img.data, before);
}

#[test]
fn blend_selected_follows_coverage() {
    let mut dst = PixelBuffer::solid(2, 1, [0, 0, 0, 0]);
    let src = PixelBuffer::solid(2, 1, [255, 255, 255, 255]);
    let mut sel = Mask::new(2, 1, 0);
    sel.set(1, 0, 255);
    assert_eq!(selected_coverage(Some(&sel), 5, 0), 255);
    blend_selected(&mut dst, &src, Some(&sel));
    assert_eq!(dst.get(0, 0), [0, 0, 0, 0]);
    assert_eq!(dst.get(1, 0), [255, 255, 255, 255]);
    let mut all = PixelBuffer::solid(2, 1, [1, 1, 1, 1]);
    blend_selected(&mut all, &src, None);
    assert_eq!(all.data, src.data);
}

#[test]
fn high_pass_of_a_uniform_image_is_mid_grey() {
    let img = PixelBuffer::solid(3, 3, [40, 50, 60, 200]);
    let out = high_pass_image(&img, 1);
    for y in 0..3 {
        for x in 0..3 {
            assert_eq!(out.get(x, y), [128, 128, 128, 200]);
        }
    }
}

#[test]
fn box_blur_with_a_window_larger_than_the_image() {
    let img = row(&[[0, 0, 0, 0], [100, 0, 0, 0], [200, 0, 0, 0]]);
    let out = box_blur(&img, 1000);
    assert_eq!(reds(&out), vec![100, 100, 100]);
}
