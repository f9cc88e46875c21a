use photo_engine::glyphs::glyph5x7;
use photo_engine::document::PhotoEngineDocument;
use photo_engine::filters::box_blur;
use photo_engine::history::{redo, undo};
use photo_engine::layer::{LayerKind, SelectionMode};
use photo_engine::mask_ops::blur_mask;
use photo_engine::masks::Mask;
use photo_engine::paths::{is_alpha_safe_paint_layer_path, is_editor_raster_layer_path};
use photo_engine::pixels::PixelBuffer;
use photo_engine::selection::magic_wand;
use photo_engine::shortcuts::{plan_shortcuts, ShortcutInput, ShortcutKey};
use photo_engine::tools::PhotoTool;

fn ids(doc: &PhotoEngineDocument) -> Vec<String> {
    doc.layers.iter().map(|l| l.id.clone()).collect()
}

fn all_distinct(v: &[String]) -> bool {
    for i in 0..v.len() {
        for j in i + 1..v.len() {
            if v[i] == v[j] {
                return false;
            }
        }
    }
    true
}

#[test]
fn layer_ids_stay_distinct_through_adds_duplicates_deletes_and_moves() {
    let mut doc = PhotoEngineDocument::new(4, 4, String::from("d"));
    doc.add_raster_layer(String::from("a"), PixelBuffer::new(2, 2));
    doc.add_empty_raster_layer(String::from("b"));
    doc.add_text_layer(String::from("hi"), 0, 0);
    doc.add_shape_rect(2, 2, [1, 2, 3, 4], 0, 0);
    doc.add_shape_ellipse(2, 2, [1, 2, 3, 4], 0, 0);
    doc.duplicate_selected_layer(0, 0);
    doc.duplicate_selected_layer(0, 0);
    assert_eq!(
        ids(&doc),
        vec!["raster_1", "raster_2", "text_1", "shape_1", "shape_2", "copy_1", "copy_2"]
    );
    assert!(all_distinct(&ids(&doc)));
    doc.selected_layer = Some(String::from("raster_1"));
    doc.delete_selected_layer();
    doc.add_raster_layer(String::from("c"), PixelBuffer::new(1, 1));
    assert_eq!(doc.layers.last().unwrap().id, "raster_1");
    doc.move_selected_layer(-3);
    assert!(all_distinct(&ids(&doc)));
}

#[test]
fn the_contiguous_wand_lies_within_the_global_wand() {
    let mut img = PixelBuffer::new(3, 3);
    for y in 0..3 {
        for x in 0..3 {
            let v = if x == 1 { 200 } else { 10 };
            img.set(x, y, [v, v, v, 255]);
        }
    }
    let mut contiguous = PhotoEngineDocument::new(3, 3, String::from("d"));
    let mut global = PhotoEngineDocument::new(3, 3, String::from("d"));
    magic_wand(&mut contiguous, &img, 0, 1, 5, true, SelectionMode::Replace);
    magic_wand(&mut global, &img, 0, 1, 5, false, SelectionMode::Replace);
    let m1 = contiguous.selection.mask.unwrap();
    let m2 = global.selection.mask.unwrap();
    assert_eq!(m1.get(0, 1), 255);
    for y in 0..3 {
        for x in 0..3 {
            assert!(m1.get(x, y) <= m2.get(x, y));
        }
    }
    assert_eq!(m1.data, vec![255, 0, 0, 255, 0, 0, 255, 0, 0]);
    assert_eq!(m2.data, vec![255, 0, 255, 255, 0, 255, 255, 0, 255]);
}

#[test]
fn history_works_on_a_canvas_too_large_for_pixels() {
    let mut doc = PhotoEngineDocument::new(70000, 70000, String::from("big"));
    assert!(!doc.is_wf());
    doc.push_history();
    doc.name = String::from("renamed");
    assert!(undo(&mut doc));
    assert_eq!(doc.name, "big");
    assert!(redo(&mut doc));
    assert_eq!(doc.name, "renamed");
}

#[test]
fn well_formedness_check() {
    let mut doc = PhotoEngineDocument::new(2, 2, String::from("d"));
    doc.add_raster_layer(String::from("a"), PixelBuffer::new(2, 2));
    assert!(doc.is_wf());
    if let LayerKind::Raster(img) = &mut doc.layers[0].kind {
        img.data.pop();
    }
    assert!(!doc.is_wf());
}

#[test]
fn blurs_take_any_radius() {
    let mut img = PixelBuffer::new(3, 1);
    img.set(0, 0, [0, 0, 0, 0]);
    img.set(1, 0, [30, 60, 90, 120]);
    img.set(2, 0, [60, 120, 180, 240]);
    let out = box_blur(&img, u32::MAX);
    for x in 0..3 {
        assert_eq!(out.get(x, 0), [30, 60, 90, 120]);
    }
    let m = Mask { width: 2, height: 2, data: vec![0, 100, 200, 40] };
    let b = blur_mask(&m, 0x8000_0000);
    assert_eq!(b.data, vec![85, 85, 85, 85]);
}

#[test]
fn editor_layer_paths() {
    assert!(is_editor_raster_layer_path("C:\\tmp\\memstroy_photo_editor_pixel_edits\\a.png"));
    assert!(is_editor_raster_layer_path("/tmp/memstroy_photo_editor_raster_layers/a.png"));
    assert!(is_editor_raster_layer_path("x/memstroy_photo_editor_paint_layers/b.png"));
    assert!(!is_editor_raster_layer_path("/tmp/photos/a.png"));
    assert!(!is_alpha_safe_paint_layer_path("/tmp/memstroy_photo_editor_pixel_edits/a.png"));
    assert!(is_alpha_safe_paint_layer_path("D:\\memstroy_photo_editor_paint_layers\\b.png"));
    assert!(!is_alpha_safe_paint_layer_path(""));
}

fn input(command: bool, shift: bool, alt: bool, keys: Vec<ShortcutKey>, text: &str) -> ShortcutInput {
    ShortcutInput { command, shift, alt, keys, text: text.chars().collect() }
}

#[test]
fn undo_shortcut_does_nothing_else() {
    let p = plan_shortcuts(&input(true, false, false, vec![ShortcutKey::Z, ShortcutKey::C, ShortcutKey::ArrowUp], ""), PhotoTool::Move);
    assert!(p.undo && !p.redo && !p.copy_layer && !p.scale_up);
    let p = plan_shortcuts(&input(true, true, false, vec![ShortcutKey::Z], ""), PhotoTool::Move);
    assert!(p.redo && !p.undo);
}

#[test]
fn tool_shortcuts() {
    let p = plan_shortcuts(&input(false, false, false, vec![ShortcutKey::V, ShortcutKey::B], ""), PhotoTool::Move);
    assert_eq!(p.tool, Some(PhotoTool::Brush));
    let p = plan_shortcuts(&input(false, true, false, vec![ShortcutKey::O], ""), PhotoTool::Dodge);
    assert_eq!(p.tool, Some(PhotoTool::Burn));
    let p = plan_shortcuts(&input(false, true, false, vec![ShortcutKey::O], ""), PhotoTool::Burn);
    assert_eq!(p.tool, Some(PhotoTool::Dodge));
    let p = plan_shortcuts(&input(false, false, false, vec![ShortcutKey::O], ""), PhotoTool::Burn);
    assert_eq!(p.tool, Some(PhotoTool::Dodge));
    let p = plan_shortcuts(&input(true, false, false, vec![ShortcutKey::B], ""), PhotoTool::Move);
    assert_eq!(p.tool, None);
    let p = plan_shortcuts(&input(false, false, false, vec![ShortcutKey::C, ShortcutKey::Enter], ""), PhotoTool::Move);
    assert!(p.apply_crop);
}

#[test]
fn brush_and_nudge_shortcuts() {
    let p = plan_shortcuts(&input(false, false, false, vec![], "]]["), PhotoTool::Brush);
    assert_eq!(p.brush_size_steps, 1);
    assert_eq!(p.brush_hardness_steps, 0);
    let p = plan_shortcuts(&input(false, true, false, vec![], "[["), PhotoTool::Brush);
    assert_eq!(p.brush_hardness_steps, -2);
    let p = plan_shortcuts(&input(false, false, false, vec![], "305"), PhotoTool::Eraser);
    assert_eq!(p.brush_opacity_tenths, Some(5));
    let p = plan_shortcuts(&input(false, false, false, vec![], "0"), PhotoTool::Brush);
    assert_eq!(p.brush_opacity_tenths, Some(10));
    let p = plan_shortcuts(&input(false, false, false, vec![], "5"), PhotoTool::Move);
    assert_eq!(p.brush_opacity_tenths, None);
    let p = plan_shortcuts(&input(false, true, false, vec![ShortcutKey::ArrowLeft, ShortcutKey::ArrowDown], ""), PhotoTool::Move);
    assert_eq!((p.nudge_x, p.nudge_y), (-10, 10));
    let p = plan_shortcuts(&input(true, false, false, vec![ShortcutKey::ArrowUp], ""), PhotoTool::Move);
    assert!(p.scale_up);
    assert_eq!((p.nudge_x, p.nudge_y), (0, 0));
    let p = plan_shortcuts(&input(false, false, false, vec![ShortcutKey::Backspace, ShortcutKey::Escape], ""), PhotoTool::Move);
    assert!(p.delete_layer && p.deselect);
}

#[test]
fn glyphs_share_upper_and_lower_case() {
    assert_eq!(glyph5x7('a'), glyph5x7('A'));
    assert_eq!(glyph5x7('A'), ["01110", "10001", "10001", "11111", "10001", "10001", "10001"]);
    assert_eq!(glyph5x7('7'), ["11111", "00001", "00010", "00100", "01000", "01000", "01000"]);
    assert_eq!(glyph5x7('~'), ["11111", "10001", "00110", "00110", "00110", "10001", "11111"]);
}

#[test]
fn nearest_resize_only_copies_source_values() {
    let m = Mask { width: 2, height: 1, data: vec![7, 9] };
    let r = photo_engine::masks::resize_mask(&m, 5, 3);
    assert!(r.data.iter().all(|v| *v == 7 || *v == 9));
    assert_eq!(r.data[0..5].to_vec(), vec![7, 7, 9, 9, 9]);
    let mut img = PixelBuffer::new(2, 1);
    img.set(0, 0, [1, 2, 3, 4]);
    img.set(1, 0, [5, 6, 7, 8]);
    let out = img.resize_nearest(3, 2);
    for y in 0..2 {
        for x in 0..3 {
            let p = out.get(x, y);
            assert!(p == [1, 2, 3, 4] || p == [5, 6, 7, 8]);
        }
    }
}
