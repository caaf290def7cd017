use rustretro::memory::Bookmark;
use rustretro::regions::{
    addr_label, bookmark_line, heatmap_rows, register_line, summary_text, top_label, RegionsPanel,
};

fn bookmark(label: &str, frame: u64) -> Bookmark {
    Bookmark {
        label: label.to_string(),
        frame,
        m68k_pc: 0x01_2A4C,
        m68k_d_regs: [0xDEAD_BEEF, 7, 0, 0, 0, 0, 0, 0],
        m68k_a_regs: [0, 0, 0, 0, 0, 0, 0xFF_0000, 0xFF_FE00],
        thumbnail: Vec::new(),
        notes: String::new(),
    }
}

#[test]
fn bookmark_lines_pad_and_hex() {
    let bm = bookmark("boss", 1234);
    assert_eq!(bookmark_line(&bm), "Frame     1234  |  PC: $012A4C");
    assert_eq!(register_line(&bm), "D0=$DEADBEEF D1=$00000007  A6=$00FF0000 A7=$00FFFE00");
    assert_eq!(addr_label(0xABC), "$000ABC");
    assert_eq!(summary_text(2, 30, 1), "2 bookmarks  \u{b7}  30 heatmap entries  \u{b7}  1 regions");
    assert_eq!(top_label(3, 40), "Top 3 addresses (of 40 unique):");
}

#[test]
fn heatmap_is_hottest_first_and_filters_lowercase_hex() {
    let entries = vec![(0x0004A0, 5u64), (0x00FF10, 9), (0x0004B2, 9), (0x000123, 1)];
    // Equal counts keep their given order.
    assert_eq!(
        heatmap_rows(&entries, ""),
        vec![(0x00FF10, 9), (0x0004B2, 9), (0x0004A0, 5), (0x000123, 1)]
    );
    // The filter is trimmed, lower-cased and matched against lower-case hex.
    assert_eq!(heatmap_rows(&entries, "  04B "), vec![(0x0004B2, 9)]);
    assert_eq!(heatmap_rows(&entries, "ff"), vec![(0x00FF10, 9)]);
    assert_eq!(heatmap_rows(&entries, "zz"), vec![]);
}

#[test]
fn heatmap_keeps_the_hundred_hottest() {
    let entries: Vec<(u32, u64)> = (0..150u32).map(|a| (a, a as u64)).collect();
    let rows = heatmap_rows(&entries, "");
    assert_eq!(rows.len(), 100);
    assert_eq!(rows[0], (149, 149));
    assert_eq!(rows[99], (50, 50));
}

#[test]
fn deleting_a_bookmark_drops_its_thumbnail_and_edit() {
    let mut panel = RegionsPanel::new();
    let mut bms = vec![bookmark("a", 1), bookmark("b", 2), bookmark("c", 3)];
    panel.grow_thumbs(bms.len());
    assert_eq!(panel.thumb_generations, vec![u64::MAX; 3]);
    panel.thumb_generations[2] = 3;
    panel.edit_label_idx = Some(1);
    panel.edit_notes_idx = Some(2);
    panel.delete_bookmark(&mut bms, 1);
    assert_eq!(bms.iter().map(|b| b.label.as_str()).collect::<Vec<_>>(), vec!["a", "c"]);
    assert_eq!(panel.thumb_generations, vec![u64::MAX, 3]);
    assert_eq!(panel.edit_label_idx, None);
    assert_eq!(panel.edit_notes_idx, Some(2));
    panel.grow_thumbs(1);
    assert_eq!(panel.thumb_generations.len(), 2);
}
