use photo_engine::geometry::RectI;
use photo_engine::masks::{nearest_index, resize_mask, Mask, Selection};
use photo_engine::pixels::PixelBuffer;

fn px(img: &PixelBuffer, x: u32, y: u32) -> [u8; 4] {
    img.get(x, y)
}

#[test]
fn rect_edges_and_contains() {
    let r = RectI::new(2, 3, 4, 5);
    assert_eq!(r.right(), 6);
    assert_eq!(r.bottom(), 8);
    assert!(r.contains(2, 3));
    assert!(r.contains(5, 7));
    assert!(!r.contains(6, 7));
    assert!(!r.contains(5, 8));
    assert!(!r.contains(1, 3));
}

#[test]
fn rect_intersect_is_the_overlap() {
    let a = RectI::new(0, 0, 4, 4);
    let b = RectI::new(2, 1, 4, 4);
    let q = a.intersect(b).expect("overlap");
    assert_eq!((q.x, q.y, q.w, q.h), (2, 1, 2, 3));
    let q2 = b.intersect(a).expect("overlap");
    assert_eq!((q2.x, q2.y, q2.w, q2.h), (2, 1, 2, 3));
}

#[test]
fn rect_intersect_of_touching_rects_is_none() {
    let a = RectI::new(0, 0, 2, 2);
    let b = RectI::new(2, 0, 2, 2);
    assert!(a.intersect(b).is_none());
    let c = RectI::new(5, 5, 0, 3);
    assert!(a.intersect(c).is_none());
}

#[test]
fn new_buffer_is_transparent_black() {
    let img = PixelBuffer::new(2, 3);
    assert_eq!(img.width, 2);
    assert_eq!(img.height, 3);
    assert_eq!(img.data.len(), 24);
    assert!(img.data.iter().all(|&b| b == 0));
}

#[test]
fn solid_fills_every_pixel() {
    let img = PixelBuffer::solid(3, 2, [1, 2, 3, 4]);
    for y in 0..2 {
        for x in 0..3 {
            assert_eq!(px(&img, x, y), [1, 2, 3, 4]);
        }
    }
}

#[test]
fn from_raw_accepts_the_exact_length() {
    let img = PixelBuffer::from_raw(2, 1, vec![1, 2, 3, 4, 5, 6, 7, 8]).expect("valid");
    assert_eq!(px(&img, 1, 0), [5, 6, 7, 8]);
}

#[test]
fn from_raw_rejects_a_wrong_length() {
    let err = PixelBuffer::from_raw(2, 2, vec![0; 5]).unwrap_err();
    assert_eq!(err, "bad RGBA buffer length: got 5, expected 16");
    let err = PixelBuffer::from_raw(1, 1, vec![]).unwrap_err();
    assert_eq!(err, "bad RGBA buffer length: got 0, expected 4");
}

#[test]
fn idx_is_row_major_byte_offset() {
    let img = PixelBuffer::new(3, 3);
    assert_eq!(img.idx(1, 2), 28);
    assert_eq!(img.idx(0, 0), 0);
}

#[test]
fn set_then_get_round_trip() {
    let mut img = PixelBuffer::new(3, 3);
    img.set(1, 2, [9, 8, 7, 6]);
    assert_eq!(px(&img, 1, 2), [9, 8, 7, 6]);
    assert_eq!(px(&img, 2, 2), [0, 0, 0, 0]);
    assert_eq!(px(&img, 0, 2), [0, 0, 0, 0]);
}

#[test]
fn in_bounds_and_checked_access() {
    let mut img = PixelBuffer::solid(2, 2, [5, 5, 5, 5]);
    assert!(img.in_bounds(1, 1));
    assert!(!img.in_bounds(-1, 0));
    assert!(!img.in_bounds(2, 0));
    assert_eq!(img.get_checked(-1, 0), [0, 0, 0, 0]);
    assert_eq!(img.get_checked(1, 1), [5, 5, 5, 5]);
    let before = img.data.clone();
    img.set_checked(5, 0, [1, 1, 1, 1]);
    assert_eq!(img.data, before);
    img.set_checked(0, 1, [1, 1, 1, 1]);
    assert_eq!(px(&img, 0, 1), [1, 1, 1, 1]);
}

#[test]
fn fill_rect_is_clipped_to_the_image() {
    let mut img = PixelBuffer::new(3, 3);
    img.fill_rect(RectI::new(-1, 1, 3, 5), [7, 7, 7, 7]);
    assert_eq!(px(&img, 0, 1), [7, 7, 7, 7]);
    assert_eq!(px(&img, 1, 2), [7, 7, 7, 7]);
    assert_eq!(px(&img, 2, 1), [0, 0, 0, 0]);
    assert_eq!(px(&img, 0, 0), [0, 0, 0, 0]);
}

#[test]
fn sub_image_copies_the_overlap() {
    let mut img = PixelBuffer::new(3, 2);
    img.set(1, 0, [1, 0, 0, 0]);
    img.set(2, 1, [2, 0, 0, 0]);
    let sub = img.sub_image(RectI::new(1, 0, 10, 10));
    assert_eq!((sub.width, sub.height), (2, 2));
    assert_eq!(px(&sub, 0, 0), [1, 0, 0, 0]);
    assert_eq!(px(&sub, 1, 1), [2, 0, 0, 0]);
}

#[test]
fn sub_image_outside_gives_the_top_left_pixel() {
    let mut img = PixelBuffer::new(3, 2);
    img.set(0, 0, [3, 3, 3, 3]);
    let sub = img.sub_image(RectI::new(10, 10, 2, 2));
    assert_eq!((sub.width, sub.height), (1, 1));
    assert_eq!(px(&sub, 0, 0), [3, 3, 3, 3]);
}

#[test]
fn clear_sets_every_pixel() {
    let mut img = PixelBuffer::new(2, 2);
    img.clear([4, 3, 2, 1]);
    assert_eq!(img.data, vec![4, 3, 2, 1, 4, 3, 2, 1, 4, 3, 2, 1, 4, 3, 2, 1]);
}

#[test]
fn resize_nearest_doubles_and_keeps_same_size() {
    let mut img = PixelBuffer::new(2, 1);
    img.set(0, 0, [10, 0, 0, 255]);
    img.set(1, 0, [20, 0, 0, 255]);
    let big = img.resize_nearest(4, 1);
    assert_eq!((big.width, big.height), (4, 1));
    let reds: Vec<u8> = (0..4).map(|x| px(&big, x, 0)[0]).collect();
    assert_eq!(reds, vec![10, 10, 20, 20]);
    let same = img.resize_nearest(2, 1);
    assert_eq!(same.data, img.data);
    let tiny = img.resize_nearest(0, 0);
    assert_eq!((tiny.width, tiny.height), (1, 1));
    assert_eq!(px(&tiny, 0, 0), [20, 0, 0, 255]);
}

#[test]
fn nearest_index_reads_the_cell_under_the_centre() {
    assert_eq!(nearest_index(0, 4, 2), 1);
    assert_eq!(nearest_index(1, 4, 2), 3);
    assert_eq!(nearest_index(3, 2, 4), 1);
    assert_eq!(nearest_index(5, 7, 7), 5);
}

#[test]
fn mask_new_get_set() {
    let mut m = Mask::new(3, 2, 9);
    assert_eq!(m.data.len(), 6);
    assert_eq!(m.get(2, 1), 9);
    assert_eq!(m.get(3, 0), 0);
    m.set(1, 1, 200);
    assert_eq!(m.get(1, 1), 200);
    assert_eq!(m.idx(1, 1), 4);
    let before = m.data.clone();
    m.set(7, 7, 1);
    assert_eq!(m.data, before);
}

#[test]
fn mask_invert_twice_restores() {
    let mut m = Mask::new(2, 1, 0);
    m.set(1, 0, 100);
    m.invert();
    assert_eq!(m.data, vec![255, 155]);
    m.invert();
    assert_eq!(m.data, vec![0, 100]);
    m.clear(7);
    assert_eq!(m.data, vec![7, 7]);
}

#[test]
fn selection_basics() {
    let s = Selection::empty();
    assert!(!s.active());
    assert_eq!(s.coverage(100, 100), 255);
    let mut all = Selection::all(2, 2);
    assert!(all.active());
    assert_eq!(all.coverage(1, 1), 255);
    assert_eq!(all.coverage(2, 0), 0);
    all.clear();
    assert!(!all.active());
}

#[test]
fn resize_mask_nearest() {
    let mut m = Mask::new(2, 1, 0);
    m.set(1, 0, 255);
    let r = resize_mask(&m, 4, 2);
    assert_eq!((r.width, r.height), (4, 2));
    assert_eq!(r.data, vec![0, 0, 255, 255, 0, 0, 255, 255]);
    let one = resize_mask(&m, 0, 0);
    assert_eq!((one.width, one.height), (1, 1));
}
