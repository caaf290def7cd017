use rustretro::tile_viewer::{is_blank, pixel_line, slice_tiles, tile_count_text, TileViewer, TILE_SIZE};

#[test]
fn slicing_cuts_row_major_tiles_and_drops_partial_edges() {
    // A 3x2 frame cut into 2x2 tiles: one whole tile, the rest is partial.
    let mut rgba = Vec::new();
    for p in 0..6u8 {
        rgba.extend_from_slice(&[p, p, p, 255]);
    }
    let tiles = slice_tiles(&rgba, 3, 2, 2);
    assert_eq!(tiles.len(), 1);
    assert_eq!(tiles[0], vec![[0, 0, 0, 255], [1, 1, 1, 255], [3, 3, 3, 255], [4, 4, 4, 255]]);
}

#[test]
fn pixels_past_the_buffer_are_opaque_black() {
    // Geometry claims 2x2 but only one pixel of data is there.
    let tiles = slice_tiles(&[9, 8, 7, 6], 2, 2, 2);
    assert_eq!(tiles, vec![vec![[9, 8, 7, 6], [0, 0, 0, 255], [0, 0, 0, 255], [0, 0, 0, 255]]]);
    assert!(!is_blank(&tiles[0]));
    assert!(is_blank(&tiles[0][1..]));
}

#[test]
fn viewer_reslices_only_on_a_new_nonempty_frame() {
    let mut v = TileViewer::new();
    assert!(v.hide_blank);
    assert_eq!(v.zoom, 3);
    let frame = vec![0u8; 32 * 16 * 4];
    v.refresh(1, 32, 16, &frame);
    assert_eq!(v.tiles.len(), 2);
    assert_eq!(v.tiles[0].len(), TILE_SIZE * TILE_SIZE);
    assert_eq!(v.last_generation, 1);
    // All-zero pixels have alpha 0, so they are not blank.
    assert_eq!(v.visible_tiles(), vec![0, 1]);
    // Same generation: kept as is.
    v.refresh(1, 16, 16, &frame);
    assert_eq!(v.tiles.len(), 2);
    // An empty frame is ignored.
    v.refresh(2, 16, 16, &[]);
    assert_eq!(v.tiles.len(), 2);
    let mut black = Vec::new();
    for _ in 0..(16 * 16) {
        black.extend_from_slice(&[0, 0, 0, 255]);
    }
    v.refresh(3, 16, 16, &black);
    assert_eq!(v.tiles.len(), 1);
    assert!(v.visible_tiles().is_empty());
    v.hide_blank = false;
    assert_eq!(v.visible_tiles(), vec![0]);
}

#[test]
fn labels_render_counts_and_pixels() {
    assert_eq!(tile_count_text(12), "12 tiles total");
    assert_eq!(pixel_line(17, [0xAB, 0x05, 0xFF, 255]), "( 1, 1) #AB05FF");
    assert_eq!(pixel_line(255, [0, 0, 0, 255]), "(15,15) #000000");
}
