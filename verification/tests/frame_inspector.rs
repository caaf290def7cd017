use rustretro::frame_inspector::{hover_label, pixel_at, png_name, FrameInspector};

#[test]
fn hovering_reads_the_pixel_inside_the_frame() {
    // 2x2 frame.
    let rgba = [1, 2, 3, 4, 5, 6, 7, 8, 9, 10, 11, 12, 13, 14, 15, 16];
    assert_eq!(pixel_at(&rgba, 2, 2, 1, 1), Some([13, 14, 15, 16]));
    assert_eq!(pixel_at(&rgba, 2, 2, 2, 0), None);
    assert_eq!(pixel_at(&rgba[..8], 2, 2, 0, 1), None, "bytes end before the pixel");
    let mut fi = FrameInspector::new();
    fi.hover(&rgba, 2, 2, 0, 1);
    assert_eq!(fi.hover_pixel, Some((0, 1, [9, 10, 11, 12])));
    fi.hover(&rgba, 2, 2, 5, 5);
    assert_eq!(fi.hover_pixel, Some((0, 1, [9, 10, 11, 12])), "outside keeps the last pixel");
    assert_eq!(hover_label(0, 1, [9, 10, 11, 12]), "(0,1) R:9 G:10 B:11");
}

#[test]
fn a_frame_is_uploaded_once_per_generation() {
    let mut fi = FrameInspector::new();
    assert!(fi.take_new_frame(1, 4, 4, 64));
    assert!(!fi.take_new_frame(1, 4, 4, 64));
    assert!(!fi.take_new_frame(2, 0, 4, 64));
    assert!(fi.take_new_frame(2, 4, 4, 64));
    assert_eq!(png_name(42), "frame_000042.png");
    assert_eq!(png_name(1234567), "frame_1234567.png");
}
