use photo_engine::adjustments::{invert, replace_color, threshold};
use photo_engine::canvas::rasterize_rect_shape;
use photo_engine::document::PhotoEngineDocument;
use photo_engine::geometry::RectI;
use photo_engine::history::{clear_history, redo, undo};
use photo_engine::layer::{LayerKind, SelectionMode, F32_ONE, F32_ZERO};
use photo_engine::layer_crop::free_crop_layer_pixels;
use photo_engine::layer_masks::{
    add_hide_all_mask, add_mask_from_selection, add_reveal_all_mask, apply_layer_mask_destructive, delete_layer_mask,
    feather_layer_mask, invert_layer_mask,
};
use photo_engine::masks::Mask;
use photo_engine::paint::paint_bucket;
use photo_engine::pixels::PixelBuffer;
use photo_engine::placement::reset_selected_transform;
use photo_engine::raster_filters::{gaussian_blur, high_pass, median, mosaic, surface_blur};
use photo_engine::selection::{
    color_range, combine, contract, deselect, expand, feather, invert_selection, magic_wand, rectangle, select_all,
};

fn doc_with(img: PixelBuffer) -> PhotoEngineDocument {
    let mut doc = PhotoEngineDocument::new(img.width, img.height, String::from("test"));
    doc.add_raster_layer(String::from("base"), img);
    doc
}

fn raster(doc: &PhotoEngineDocument, i: usize) -> &PixelBuffer {
    match &doc.layers[i].kind {
        LayerKind::Raster(img) => img,
        _ => panic!("not a raster layer"),
    }
}

fn row(values: &[[u8; 4]]) -> PixelBuffer {
    let mut img = PixelBuffer::new(values.len() as u32, 1);
    for (i, v) in values.iter().enumerate() {
        img.set(i as u32, 0, *v);
    }
    img
}

#[test]
fn new_document_defaults() {
    let doc = PhotoEngineDocument::new(0, 5, String::from("d"));
    assert_eq!((doc.width, doc.height), (1, 5));
    assert_eq!(doc.background, [0, 0, 0, 0]);
    assert!(doc.layers.is_empty());
    assert!(doc.selected_layer.is_none());
    assert!(doc.selection.mask.is_none());
    assert_eq!(doc.history_limit, 50);
}

#[test]
fn layer_ids_count_up_and_new_layers_are_selected() {
    let mut doc = PhotoEngineDocument::new(4, 4, String::from("d"));
    let a = doc.add_raster_layer(String::from("a"), PixelBuffer::new(2, 2));
    let b = doc.add_empty_raster_layer(String::from("b"));
    assert_eq!(a, "raster_1");
    assert_eq!(b, "raster_2");
    assert_eq!(doc.selected_layer.as_deref(), Some("raster_2"));
    assert_eq!(raster(&doc, 1).width, 4);
    let t = doc.add_text_layer(String::from("hi"), 0, 0);
    assert_eq!(t, "text_1");
    let r = doc.add_shape_rect(3, 2, [1, 2, 3, 4], 0, 0);
    assert_eq!(r, "shape_1");
    let e = doc.add_shape_ellipse(3, 2, [1, 2, 3, 4], 0, 0);
    assert_eq!(e, "shape_2");
    assert_eq!(doc.next_id("raster"), "raster_3");
    assert_eq!(doc.next_id("other"), "other_1");
}

#[test]
fn delete_and_duplicate_layers() {
    let mut doc = PhotoEngineDocument::new(4, 4, String::from("d"));
    doc.add_raster_layer(String::from("a"), PixelBuffer::new(2, 2));
    doc.add_raster_layer(String::from("b"), PixelBuffer::new(2, 2));
    let copy = doc.duplicate_selected_layer(7, 8).expect("selected");
    assert_eq!(copy, "copy_1");
    assert_eq!(doc.layers.len(), 3);
    assert_eq!(doc.layers[2].name, "b Copy");
    assert_eq!((doc.layers[2].x, doc.layers[2].y), (7, 8));
    doc.delete_selected_layer();
    assert_eq!(doc.layers.len(), 2);
    assert_eq!(doc.selected_layer.as_deref(), Some("raster_2"));
    doc.delete_selected_layer();
    doc.delete_selected_layer();
    assert!(doc.layers.is_empty());
    assert!(doc.selected_layer.is_none());
    assert!(doc.duplicate_selected_layer(0, 0).is_none());
}

#[test]
fn move_layer_stops_at_the_ends() {
    let mut doc = PhotoEngineDocument::new(4, 4, String::from("d"));
    doc.add_raster_layer(String::from("a"), PixelBuffer::new(1, 1));
    doc.add_raster_layer(String::from("b"), PixelBuffer::new(1, 1));
    doc.add_raster_layer(String::from("c"), PixelBuffer::new(1, 1));
    doc.move_selected_layer(-5);
    let names: Vec<&str> = doc.layers.iter().map(|l| l.name.as_str()).collect();
    assert_eq!(names, vec!["c", "b", "a"]);
    doc.move_selected_layer(1);
    let names: Vec<&str> = doc.layers.iter().map(|l| l.name.as_str()).collect();
    assert_eq!(names, vec!["b", "c", "a"]);
    let undo_len = doc.undo_stack.len();
    doc.move_selected_layer(0);
    assert_eq!(doc.undo_stack.len(), undo_len);
}

#[test]
fn undo_reverts_and_redo_reapplies() {
    let mut doc = PhotoEngineDocument::new(4, 4, String::from("d"));
    doc.add_raster_layer(String::from("a"), PixelBuffer::new(1, 1));
    assert!(undo(&mut doc));
    assert!(doc.layers.is_empty());
    assert!(!undo(&mut doc));
    assert!(redo(&mut doc));
    assert_eq!(doc.layers.len(), 1);
    assert!(!redo(&mut doc));
}

#[test]
fn a_new_edit_clears_redo_and_history_is_bounded() {
    let mut doc = PhotoEngineDocument::new(2, 2, String::from("d"));
    doc.history_limit = 2;
    doc.add_raster_layer(String::from("a"), PixelBuffer::new(1, 1));
    doc.add_raster_layer(String::from("b"), PixelBuffer::new(1, 1));
    doc.add_raster_layer(String::from("c"), PixelBuffer::new(1, 1));
    assert_eq!(doc.undo_stack.len(), 2);
    assert!(undo(&mut doc));
    assert!(undo(&mut doc));
    assert!(!undo(&mut doc));
    assert_eq!(doc.layers.len(), 1);
    select_all(&mut doc);
    assert!(!redo(&mut doc));
    clear_history(&mut doc);
    assert!(doc.undo_stack.is_empty());
    assert!(!undo(&mut doc));
}

#[test]
fn invert_twice_restores_the_pixels() {
    let mut doc = doc_with(row(&[[10, 20, 30, 40]]));
    invert(&mut doc);
    assert_eq!(raster(&doc, 0).get(0, 0), [245, 235, 225, 40]);
    invert(&mut doc);
    assert_eq!(raster(&doc, 0).get(0, 0), [10, 20, 30, 40]);
}

#[test]
fn threshold_uses_integer_luminance() {
    let mut doc = doc_with(row(&[[100, 100, 100, 7], [100, 100, 100, 7]]));
    threshold(&mut doc, 100);
    assert_eq!(raster(&doc, 0).get(0, 0), [255, 255, 255, 7]);
    let mut doc2 = doc_with(row(&[[100, 100, 100, 7]]));
    threshold(&mut doc2, 101);
    assert_eq!(raster(&doc2, 0).get(0, 0), [0, 0, 0, 7]);
}

#[test]
fn replace_color_within_tolerance() {
    let mut doc = doc_with(row(&[[3, 4, 0, 9]]));
    replace_color(&mut doc, [0, 0, 0, 0], [50, 60, 70, 80], 5);
    assert_eq!(raster(&doc, 0).get(0, 0), [50, 60, 70, 9]);
    let mut doc2 = doc_with(row(&[[3, 4, 0, 9]]));
    replace_color(&mut doc2, [0, 0, 0, 0], [50, 60, 70, 80], 4);
    assert_eq!(raster(&doc2, 0).get(0, 0), [3, 4, 0, 9]);
}

#[test]
fn adjustments_respect_the_selection() {
    let mut doc = doc_with(row(&[[10, 10, 10, 255], [10, 10, 10, 255]]));
    rectangle(&mut doc, RectI::new(1, 0, 1, 1), SelectionMode::Replace);
    invert(&mut doc);
    assert_eq!(raster(&doc, 0).get(0, 0), [10, 10, 10, 255]);
    assert_eq!(raster(&doc, 0).get(1, 0), [245, 245, 245, 255]);
}

#[test]
fn locked_layers_are_not_edited() {
    let mut doc = doc_with(row(&[[10, 10, 10, 255]]));
    doc.layers[0].locked = true;
    let undo_len = doc.undo_stack.len();
    invert(&mut doc);
    gaussian_blur(&mut doc, 1);
    paint_bucket(&mut doc, 0, 0, [1, 1, 1, 1], 0, false);
    assert_eq!(raster(&doc, 0).get(0, 0), [10, 10, 10, 255]);
    assert_eq!(doc.undo_stack.len(), undo_len);
}

#[test]
fn blurring_a_uniform_layer_only_records_history() {
    let mut doc = doc_with(PixelBuffer::solid(3, 3, [40, 50, 60, 255]));
    let before = raster(&doc, 0).data.clone();
    let undo_len = doc.undo_stack.len();
    gaussian_blur(&mut doc, 2);
    assert_eq!(raster(&doc, 0).data, before);
    assert_eq!(doc.undo_stack.len(), undo_len + 1);
    median(&mut doc, 1);
    mosaic(&mut doc, 2);
    surface_blur(&mut doc, 1, 0);
    assert_eq!(raster(&doc, 0).data, before);
}

#[test]
fn document_filters_match_the_image_filters() {
    let mut doc = doc_with(row(&[[0, 0, 0, 255], [30, 0, 0, 255], [60, 0, 0, 255]]));
    high_pass(&mut doc, 1);
    let r: Vec<u8> = (0..3).map(|x| raster(&doc, 0).get(x, 0)[0]).collect();
    assert_eq!(r, vec![113, 128, 143]);
    undo(&mut doc);
    gaussian_blur(&mut doc, 1);
    let r: Vec<u8> = (0..3).map(|x| raster(&doc, 0).get(x, 0)[0]).collect();
    assert_eq!(r, vec![15, 30, 45]);
}

#[test]
fn paint_bucket_contiguous_stays_in_the_region() {
    let img = row(&[[0, 0, 0, 255], [0, 0, 0, 255], [255, 255, 255, 255], [0, 0, 0, 255]]);
    let mut local = doc_with(img.clone());
    paint_bucket(&mut local, 0, 0, [9, 9, 9, 9], 10, true);
    let got: Vec<[u8; 4]> = (0..4).map(|x| raster(&local, 0).get(x, 0)).collect();
    assert_eq!(got, vec![[9, 9, 9, 9], [9, 9, 9, 9], [255, 255, 255, 255], [0, 0, 0, 255]]);
    let mut global = doc_with(img);
    paint_bucket(&mut global, 0, 0, [9, 9, 9, 9], 10, false);
    let got: Vec<[u8; 4]> = (0..4).map(|x| raster(&global, 0).get(x, 0)).collect();
    assert_eq!(got, vec![[9, 9, 9, 9], [9, 9, 9, 9], [255, 255, 255, 255], [9, 9, 9, 9]]);
}

#[test]
fn paint_bucket_outside_the_layer_still_records_history() {
    let mut doc = doc_with(row(&[[0, 0, 0, 255]]));
    let undo_len = doc.undo_stack.len();
    paint_bucket(&mut doc, 5, 0, [9, 9, 9, 9], 10, true);
    assert_eq!(raster(&doc, 0).get(0, 0), [0, 0, 0, 255]);
    assert_eq!(doc.undo_stack.len(), undo_len + 1);
}

#[test]
fn selection_modes_combine_cell_by_cell() {
    let mut doc = PhotoEngineDocument::new(3, 1, String::from("d"));
    rectangle(&mut doc, RectI::new(0, 0, 2, 1), SelectionMode::Replace);
    assert_eq!(doc.selection.mask.as_ref().unwrap().data, vec![255, 255, 0]);
    rectangle(&mut doc, RectI::new(1, 0, 2, 1), SelectionMode::Add);
    assert_eq!(doc.selection.mask.as_ref().unwrap().data, vec![255, 255, 255]);
    rectangle(&mut doc, RectI::new(0, 0, 1, 1), SelectionMode::Subtract);
    assert_eq!(doc.selection.mask.as_ref().unwrap().data, vec![0, 255, 255]);
    rectangle(&mut doc, RectI::new(2, 0, 5, 5), SelectionMode::Intersect);
    assert_eq!(doc.selection.mask.as_ref().unwrap().data, vec![0, 0, 255]);
    let mut half = Mask::new(3, 1, 100);
    half.set(2, 0, 100);
    combine(&mut doc, half, SelectionMode::Add);
    assert_eq!(doc.selection.mask.as_ref().unwrap().data, vec![100, 100, 255]);
}

#[test]
fn select_all_deselect_and_invert() {
    let mut doc = PhotoEngineDocument::new(2, 1, String::from("d"));
    select_all(&mut doc);
    assert_eq!(doc.selection.mask.as_ref().unwrap().data, vec![255, 255]);
    deselect(&mut doc);
    assert!(doc.selection.mask.is_none());
    invert_selection(&mut doc);
    assert_eq!(doc.selection.mask.as_ref().unwrap().data, vec![0, 0]);
    rectangle(&mut doc, RectI::new(0, 0, 1, 1), SelectionMode::Replace);
    invert_selection(&mut doc);
    invert_selection(&mut doc);
    assert_eq!(doc.selection.mask.as_ref().unwrap().data, vec![255, 0]);
}

#[test]
fn magic_wand_and_colour_range() {
    let img = row(&[[0, 0, 0, 255], [5, 5, 5, 255], [255, 255, 255, 255], [0, 0, 0, 255]]);
    let mut doc = PhotoEngineDocument::new(4, 1, String::from("d"));
    magic_wand(&mut doc, &img, 0, 0, 10, true, SelectionMode::Replace);
    assert_eq!(doc.selection.mask.as_ref().unwrap().data, vec![255, 255, 0, 0]);
    magic_wand(&mut doc, &img, 0, 0, 10, false, SelectionMode::Replace);
    assert_eq!(doc.selection.mask.as_ref().unwrap().data, vec![255, 255, 0, 255]);
    color_range(&mut doc, &img, [255, 255, 255, 0], 0, SelectionMode::Replace);
    assert_eq!(doc.selection.mask.as_ref().unwrap().data, vec![0, 0, 255, 0]);
    let undo_len = doc.undo_stack.len();
    magic_wand(&mut doc, &img, 9, 0, 10, true, SelectionMode::Replace);
    assert_eq!(doc.undo_stack.len(), undo_len);
}

#[test]
fn expand_contract_and_feather_the_selection() {
    let mut doc = PhotoEngineDocument::new(5, 1, String::from("d"));
    rectangle(&mut doc, RectI::new(2, 0, 1, 1), SelectionMode::Replace);
    expand(&mut doc, 1);
    assert_eq!(doc.selection.mask.as_ref().unwrap().data, vec![0, 255, 255, 255, 0]);
    contract(&mut doc, 1);
    assert_eq!(doc.selection.mask.as_ref().unwrap().data, vec![0, 0, 0, 0, 0]);
    rectangle(&mut doc, RectI::new(2, 0, 1, 1), SelectionMode::Replace);
    feather(&mut doc, 1);
    assert_eq!(doc.selection.mask.as_ref().unwrap().data, vec![0, 85, 85, 85, 0]);
    deselect(&mut doc);
    let undo_len = doc.undo_stack.len();
    feather(&mut doc, 1);
    expand(&mut doc, 1);
    assert_eq!(doc.undo_stack.len(), undo_len);
}

#[test]
fn layer_mask_lifecycle() {
    let mut doc = doc_with(PixelBuffer::solid(2, 1, [10, 20, 30, 255]));
    add_reveal_all_mask(&mut doc, (1, 1));
    assert_eq!(doc.layers[0].mask.as_ref().unwrap().data, vec![255, 255]);
    add_hide_all_mask(&mut doc, (1, 1));
    assert_eq!(doc.layers[0].mask.as_ref().unwrap().data, vec![0, 0]);
    invert_layer_mask(&mut doc);
    assert_eq!(doc.layers[0].mask.as_ref().unwrap().data, vec![255, 255]);
    invert_layer_mask(&mut doc);
    invert_layer_mask(&mut doc);
    assert_eq!(doc.layers[0].mask.as_ref().unwrap().data, vec![255, 255]);
    delete_layer_mask(&mut doc);
    assert!(doc.layers[0].mask.is_none());
    let undo_len = doc.undo_stack.len();
    invert_layer_mask(&mut doc);
    delete_layer_mask(&mut doc);
    assert_eq!(doc.undo_stack.len(), undo_len);
}

#[test]
fn text_layers_get_masks_of_their_text_extent() {
    let mut doc = PhotoEngineDocument::new(8, 8, String::from("d"));
    doc.add_text_layer(String::from("hi"), 0, 0);
    add_hide_all_mask(&mut doc, (3, 2));
    let m = doc.layers[0].mask.as_ref().unwrap();
    assert_eq!((m.width, m.height), (3, 2));
}

#[test]
fn mask_from_selection_and_merging_it() {
    let mut doc = doc_with(PixelBuffer::solid(3, 1, [10, 20, 30, 255]));
    add_mask_from_selection(&mut doc, (1, 1));
    assert!(doc.layers[0].mask.is_none());
    rectangle(&mut doc, RectI::new(1, 0, 1, 1), SelectionMode::Replace);
    add_mask_from_selection(&mut doc, (1, 1));
    assert_eq!(doc.layers[0].mask.as_ref().unwrap().data, vec![0, 255, 0]);
    feather_layer_mask(&mut doc, 1);
    assert_eq!(doc.layers[0].mask.as_ref().unwrap().data, vec![127, 85, 127]);
    apply_layer_mask_destructive(&mut doc);
    assert!(doc.layers[0].mask.is_none());
    let alphas: Vec<u8> = (0..3).map(|x| raster(&doc, 0).get(x, 0)[3]).collect();
    assert_eq!(alphas, vec![127, 85, 127]);
    assert_eq!(raster(&doc, 0).get(1, 0)[0], 10);
}

#[test]
fn crop_layer_pixels_and_mask() {
    let mut img = PixelBuffer::new(3, 2);
    img.set(2, 1, [7, 7, 7, 7]);
    let mut doc = doc_with(img);
    add_reveal_all_mask(&mut doc, (1, 1));
    free_crop_layer_pixels(&mut doc, RectI::new(1, 1, 5, 5));
    let r = raster(&doc, 0);
    assert_eq!((r.width, r.height), (2, 1));
    assert_eq!(r.get(1, 0), [7, 7, 7, 7]);
    let m = doc.layers[0].mask.as_ref().unwrap();
    assert_eq!((m.width, m.height, m.data.clone()), (2, 1, vec![255, 255]));
}

#[test]
fn reset_transform_restores_identity_placement() {
    let mut doc = doc_with(PixelBuffer::new(1, 1));
    doc.layers[0].x = 0x4120_0000;
    doc.layers[0].scale_x = 0x4000_0000;
    doc.layers[0].rotation_degrees = 0x42b4_0000;
    reset_selected_transform(&mut doc);
    let l = &doc.layers[0];
    assert_eq!((l.x, l.y, l.scale_x, l.scale_y), (F32_ZERO, F32_ZERO, F32_ONE, F32_ONE));
    assert_eq!((l.rotation_degrees, l.skew_x, l.skew_y), (F32_ZERO, F32_ZERO, F32_ZERO));
    assert_eq!(f32::from_bits(l.scale_x), 1.0f32);
    undo(&mut doc);
    assert_eq!(doc.layers[0].scale_x, 0x4000_0000);
}

#[test]
fn opening_an_image_makes_a_background_layer() {
    let img = PixelBuffer::solid(3, 2, [1, 2, 3, 4]);
    let doc = photo_engine::opening::document_from_image(img, String::from("photo.png"));
    assert_eq!((doc.width, doc.height), (3, 2));
    assert_eq!(doc.name, "photo.png");
    assert_eq!(doc.layers.len(), 1);
    assert_eq!(doc.layers[0].id, "background_1");
    assert_eq!(doc.layers[0].name, "Background");
    assert_eq!(doc.selected_layer.as_deref(), Some("background_1"));
    assert!(doc.undo_stack.is_empty());
    assert_eq!(raster(&doc, 0).get(2, 1), [1, 2, 3, 4]);
}

#[test]
fn locating_the_selected_layer() {
    let mut doc = PhotoEngineDocument::new(2, 2, String::from("d"));
    assert_eq!(doc.locate_selected_layer(), Err(String::from("no selected layer")));
    doc.add_raster_layer(String::from("a"), PixelBuffer::new(1, 1));
    assert_eq!(doc.locate_selected_layer(), Ok(0));
    doc.selected_layer = Some(String::from("gone"));
    assert_eq!(doc.locate_selected_layer(), Err(String::from("selected layer not found")));
}

#[test]
fn selected_layer_mut_edits_in_place() {
    let mut doc = PhotoEngineDocument::new(2, 2, String::from("d"));
    assert!(doc.selected_layer_mut().is_none());
    doc.add_raster_layer(String::from("a"), PixelBuffer::new(1, 1));
    doc.add_raster_layer(String::from("b"), PixelBuffer::new(1, 1));
    if let Some(layer) = doc.selected_layer_mut() {
        layer.locked = true;
    }
    assert!(doc.layers[1].locked);
    assert!(!doc.layers[0].locked);
    assert_eq!(doc.selected_layer_ref().map(|l| l.name.clone()), Some(String::from("b")));
}

#[test]
fn combining_the_same_shape_twice_changes_nothing() {
    let mut doc = PhotoEngineDocument::new(4, 1, String::from("d"));
    rectangle(&mut doc, RectI::new(1, 0, 2, 1), SelectionMode::Add);
    let once = doc.selection.mask.as_ref().unwrap().data.clone();
    rectangle(&mut doc, RectI::new(1, 0, 2, 1), SelectionMode::Add);
    assert_eq!(doc.selection.mask.as_ref().unwrap().data, once);
    rectangle(&mut doc, RectI::new(0, 0, 2, 1), SelectionMode::Intersect);
    let twice = doc.selection.mask.as_ref().unwrap().data.clone();
    rectangle(&mut doc, RectI::new(0, 0, 2, 1), SelectionMode::Intersect);
    assert_eq!(doc.selection.mask.as_ref().unwrap().data, twice);
    assert_eq!(twice, vec![0, 255, 0, 0]);
}

#[test]
fn an_empty_selection_mask_is_harmless_on_an_empty_layer() {
    let mut doc = PhotoEngineDocument::new(2, 2, String::from("d"));
    doc.add_raster_layer(String::from("empty"), PixelBuffer::new(0, 0));
    doc.selection.mask = Some(Mask::new(0, 0, 0));
    let undo_len = doc.undo_stack.len();
    invert(&mut doc);
    gaussian_blur(&mut doc, 1);
    assert_eq!(doc.undo_stack.len(), undo_len + 2);
    assert_eq!(raster(&doc, 0).data.len(), 0);
}

#[test]
fn rectangle_shapes_have_a_stroke_border() {
    let img = rasterize_rect_shape(4, 3, [1, 1, 1, 1], [9, 9, 9, 9], 1);
    let rows: Vec<Vec<u8>> = (0..3).map(|y| (0..4).map(|x| img.get(x, y)[0]).collect()).collect();
    assert_eq!(rows, vec![vec![9, 9, 9, 9], vec![9, 1, 1, 9], vec![9, 9, 9, 9]]);
    let plain = rasterize_rect_shape(2, 2, [1, 1, 1, 1], [9, 9, 9, 9], 0);
    assert_eq!(plain.data, vec![1; 16]);
    let huge = rasterize_rect_shape(2, 2, [1, 1, 1, 1], [9, 9, 9, 9], 0x9000_0000);
    assert_eq!(huge.data, vec![1; 16]);
}

#[test]
fn canvas_crop_rect_and_resize() {
    let mut doc = PhotoEngineDocument::new(10, 8, String::from("d"));
    let r = doc.crop_rect(RectI::new(2, 3, 100, 2));
    assert_eq!((r.x, r.y, r.w, r.h), (2, 3, 8, 2));
    let whole = doc.crop_rect(RectI::new(50, 50, 2, 2));
    assert_eq!((whole.x, whole.y, whole.w, whole.h), (0, 0, 10, 8));
    select_all(&mut doc);
    doc.set_canvas(0, 4);
    assert_eq!((doc.width, doc.height), (1, 4));
    assert!(doc.selection.mask.is_none());
    undo(&mut doc);
    assert_eq!((doc.width, doc.height), (10, 8));
    assert!(doc.selection.mask.is_some());
}
