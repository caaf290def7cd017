use rustretro::video::{changed_color, decode_to_rgba, diff_changed};

#[test]
fn test_diff_changed_equal_slices() {
    let prev = b"hello";
    let cur = b"hello";
    let changed = diff_changed(prev, cur);
    assert_eq!(changed, vec![false, false, false, false, false]);
}

#[test]
fn test_diff_changed_one_byte_different() {
    let prev = b"hello";
    let cur = b"hallo";
    let changed = diff_changed(prev, cur);
    assert_eq!(changed, vec![false, true, false, false, false]);
}

#[test]
fn diff_changed_counts_missing_bytes_as_unchanged() {
    assert_eq!(diff_changed(b"abc", b"ab"), vec![false, false, false]);
    assert_eq!(diff_changed(b"a", b"bc"), vec![true, false]);
    assert_eq!(diff_changed(b"", b"xyz"), vec![false, false, false]);
}

#[test]
fn decode_to_rgba_handles_all_three_formats() {
    // RGB565 white-ish pixel 0xFFFF and pure red 0xF800.
    let src = [0xFF, 0xFF, 0x00, 0xF8];
    assert_eq!(decode_to_rgba(&src, 2, 1, 4, 2), vec![248, 252, 248, 255, 248, 0, 0, 255]);
    // XRGB8888 stored B, G, R, X.
    let src = [1, 2, 3, 0];
    assert_eq!(decode_to_rgba(&src, 1, 1, 4, 1), vec![3, 2, 1, 255]);
    // 0RGB1555 pure green 0x03E0, with row padding (pitch 4 for a 1-px row).
    let src = [0xE0, 0x03, 9, 9, 0x1F, 0x00];
    assert_eq!(decode_to_rgba(&src, 1, 2, 4, 0), vec![0, 248, 0, 255, 0, 0, 248, 255]);
}

#[test]
fn changed_bytes_are_tinted_amber() {
    assert_eq!(changed_color(true), [255, 180, 80, 255]);
    assert_eq!(changed_color(false), [255, 255, 255, 255]);
}
