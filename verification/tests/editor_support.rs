use photo_engine::layer_bounds::{alpha_bounds, copy_rgba_into};
use photo_engine::pixels::PixelBuffer;
use photo_engine::tools::{is_paint_tool, PhotoTool, RetouchToneRange};

#[test]
fn tool_labels_and_paint_tools() {
    assert_eq!(PhotoTool::Brush.label(), "Кисть");
    assert_eq!(PhotoTool::Hand.label(), "Рука / панорама");
    assert_eq!(PhotoTool::Eyedropper.label(), "Пипетка");
    assert!(is_paint_tool(PhotoTool::Brush));
    assert!(is_paint_tool(PhotoTool::Sharpen));
    assert!(!is_paint_tool(PhotoTool::Move));
    assert!(!is_paint_tool(PhotoTool::Eyedropper));
    assert_eq!(RetouchToneRange::Midtones.label(), "Средние тона");
    assert_eq!(RetouchToneRange::Shadows.label(), "Тени");
}

#[test]
fn alpha_bounds_of_visible_pixels() {
    let mut img = PixelBuffer::new(5, 4);
    assert_eq!(alpha_bounds(&img), None);
    img.set(3, 1, [0, 0, 0, 1]);
    assert_eq!(alpha_bounds(&img), Some((3, 1, 3, 1)));
    img.set(1, 2, [9, 9, 9, 200]);
    img.set(4, 3, [9, 9, 9, 5]);
    assert_eq!(alpha_bounds(&img), Some((1, 1, 4, 3)));
    img.set(0, 0, [255, 255, 255, 0]);
    assert_eq!(alpha_bounds(&img), Some((1, 1, 4, 3)));
}

#[test]
fn copy_into_clips_to_the_destination() {
    let mut dst = PixelBuffer::solid(3, 2, [1, 1, 1, 1]);
    let src = PixelBuffer::solid(2, 2, [7, 7, 7, 7]);
    copy_rgba_into(&mut dst, &src, 2, -1);
    assert_eq!(dst.get(2, 0), [7, 7, 7, 7]);
    assert_eq!(dst.get(1, 0), [1, 1, 1, 1]);
    assert_eq!(dst.get(2, 1), [1, 1, 1, 1]);
    copy_rgba_into(&mut dst, &src, 10, 10);
    assert_eq!(dst.get(0, 0), [1, 1, 1, 1]);
}
