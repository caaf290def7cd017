use rustretro::hex_view::{ascii_column, hex_column, row_count, HexDump};
use rustretro::memory::{ChangeEvent, SearchCompare, SearchSize, SearchSource, Watch, WatchFormat};
use rustretro::parse::{parse_hex_address, parse_i32_in, parse_i64_in, parse_unsigned_in, trim_bounds};
use rustretro::search_panel::{format_value as search_format_value, parse_typed_value, CompareKind, RamSearchPanel};
use rustretro::training::{DummyMode, PlaybackPort, PlaybackSlot, PlaybackTrigger, ShadowModelInfo};
use rustretro::training_panel::{
    arena_save_name, driving_text, model_summary, note_failed, playback_status_text, slot_status_text, TrainingPanel,
};
use rustretro::watch_panel::{change_row, format_name, format_value as watch_format_value, WatchPanel};

fn whole(s: &str) -> (usize, usize) {
    (0, s.chars().count())
}

#[test]
fn numbers_parse_like_the_standard_library() {
    let s = "  0x1F \t";
    let (lo, hi) = trim_bounds(s);
    assert_eq!((lo, hi), (2, 6));
    let (lo, hi) = whole("+42");
    assert_eq!(parse_unsigned_in("+42", lo, hi, 10, u32::MAX as u64), Some(42));
    assert_eq!(parse_unsigned_in("", 0, 0, 10, 100), None);
    assert_eq!(parse_unsigned_in("+", 0, 1, 10, 100), None);
    assert_eq!(parse_unsigned_in("4294967296", 0, 10, 10, u32::MAX as u64), None);
    assert_eq!(parse_unsigned_in("ffFF", 0, 4, 16, u32::MAX as u64), Some(0xffff));
    assert_eq!(parse_unsigned_in("12g", 0, 3, 16, u32::MAX as u64), None);
    assert_eq!(parse_i64_in("-9223372036854775808", 0, 20), Some(i64::MIN));
    assert_eq!(parse_i64_in("9223372036854775808", 0, 19), None);
    assert_eq!(parse_i64_in("-", 0, 1), None);
    assert_eq!(parse_i32_in("-2147483648", 0, 11), Some(i32::MIN));
    assert_eq!(parse_i32_in("2147483648", 0, 10), None);
}

#[test]
fn typed_addresses_drop_every_0x_prefix() {
    assert_eq!(parse_hex_address("0x1234"), Some(0x1234));
    assert_eq!(parse_hex_address("0x0x10"), Some(0x10));
    assert_eq!(parse_hex_address(" ff0 "), Some(0xff0));
    assert_eq!(parse_hex_address("0X10"), None);
    assert_eq!(parse_hex_address(""), None);
    assert_eq!(parse_hex_address("zz"), None);
}

#[test]
fn hex_dump_goto_changes_and_rows() {
    let mut h = HexDump::new();
    h.goto_addr = "0x1234".to_string();
    h.go_to_typed();
    assert_eq!(h.scroll_to, Some(0x123));
    h.goto_addr = "nope".to_string();
    h.go_to_typed();
    assert_eq!(h.scroll_to, Some(0x123), "an unreadable address keeps the old target");
    h.current_region_idx = 5;
    h.clamp_region(3);
    assert_eq!(h.current_region_idx, 0);
    // First frame on a source: nothing tinted.
    assert_eq!(h.changed_mask(1, b"abc"), vec![false, false, false]);
    assert_eq!(h.changed_mask(1, b"abd"), vec![false, false, true]);
    // A different source resets the snapshot.
    assert_eq!(h.changed_mask(2, b"xyz"), vec![false, false, false]);
    h.highlight_changes = false;
    assert_eq!(h.changed_mask(2, b"xyq"), vec![false, false, false]);
    assert_eq!(row_count(0), 0);
    assert_eq!(row_count(16), 1);
    assert_eq!(row_count(17), 2);
    assert_eq!(ascii_column(&[0x41, 0x00, 0x7e, 0x7f]), "A.~.");
    let row: Vec<u8> = (0u8..10).collect();
    assert_eq!(hex_column(&row), "00 01 02 03 04 05 06 07  08 09");
}

#[test]
fn ram_search_panel_resolves_typed_steps() {
    let mut p = RamSearchPanel::new();
    p.specific_value = " 0x1F ".to_string();
    assert_eq!(p.resolve(false), Some((SearchCompare::Equal, SearchSource::SpecificValue(0x1f))));
    p.specific_value = "-1".to_string();
    assert_eq!(p.resolve(false), Some((SearchCompare::Equal, SearchSource::SpecificValue(0xffff_ffff))));
    p.specific_value = "10".to_string();
    assert_eq!(p.resolve(true), Some((SearchCompare::Equal, SearchSource::SpecificValue(0x10))));
    p.specific_value = "".to_string();
    assert_eq!(p.resolve(false), None);
    p.use_specific = false;
    assert_eq!(p.resolve(false), Some((SearchCompare::Equal, SearchSource::PreviousSnapshot)));
    p.compare_kind = CompareKind::DifferentBy;
    p.diff_by = " -3 ".to_string();
    assert_eq!(p.resolve(false), Some((SearchCompare::DifferentBy(-3), SearchSource::PreviousSnapshot)));
    p.diff_by = "x".to_string();
    assert_eq!(p.resolve(false), None);
    p.compare_kind = CompareKind::Increased;
    p.use_specific = true;
    assert_eq!(p.resolve(false), Some((SearchCompare::Increased, SearchSource::PreviousSnapshot)));
    assert!(CompareKind::Changed.is_relative());
    assert!(!CompareKind::DifferentBy.takes_value());
    assert_eq!(CompareKind::all().len(), 9);
    assert_eq!(parse_typed_value("ff", false), None);
    assert_eq!(parse_typed_value("4294967295", false), Some(u32::MAX));
}

#[test]
fn search_and_watch_values_render_per_format() {
    assert_eq!(search_format_value(0x1ff, SearchSize::U8, false, true), "0xFF");
    assert_eq!(search_format_value(0xff, SearchSize::U8, true, false), "-1");
    assert_eq!(search_format_value(0x8000, SearchSize::U16, true, false), "-32768");
    assert_eq!(search_format_value(0xffff_ffff, SearchSize::U32, true, false), "-1");
    assert_eq!(search_format_value(0x12345, SearchSize::U16, false, false), "9029");
    assert_eq!(search_format_value(0xab, SearchSize::U32, false, true), "0x000000AB");
    assert_eq!(watch_format_value(WatchFormat::U8, None), "\u{2014}");
    assert_eq!(watch_format_value(WatchFormat::S8, Some(0xff)), "-1");
    assert_eq!(watch_format_value(WatchFormat::U16BE, Some(0x1234)), "13330");
    assert_eq!(watch_format_value(WatchFormat::U32BE, Some(0x1234_5678)), "2018915346");
    assert_eq!(watch_format_value(WatchFormat::Hex16, Some(0xabcde)), "0xBCDE");
    assert_eq!(format_name(WatchFormat::U16LE), "u16 LE");
    let ev = ChangeEvent { frame: 7, addr: 0xff, old: 0x1a, new: 0x2b, pc: 0x1234 };
    let (f, a, c, pc) = change_row(&ev);
    assert_eq!(f, "7");
    assert_eq!(a, "0000FF");
    assert_eq!(c, "0x1A \u{2192} 0x2B");
    assert_eq!(pc, "$001234");
}

#[test]
fn watch_panel_adds_a_watch_from_the_form() {
    let mut p = WatchPanel::new();
    let mut watches: Vec<Watch> = Vec::new();
    p.add_addr = "zz".to_string();
    assert!(!p.add_watch(&mut watches));
    assert!(watches.is_empty());
    p.add_addr = "0x10".to_string();
    p.add_label = "   ".to_string();
    assert!(p.add_watch(&mut watches));
    assert_eq!(watches.len(), 1);
    assert_eq!(watches[0].addr, 0x10);
    assert_eq!(watches[0].label, "000010");
    assert_eq!(watches[0].format, WatchFormat::Hex8);
    assert!(p.add_addr.is_empty() && p.add_label.is_empty());
    p.add_addr = "20".to_string();
    p.add_label = "lives".to_string();
    assert!(p.add_watch(&mut watches));
    assert_eq!(watches[1].label, "lives");
}

#[test]
fn arena_names_are_validated() {
    assert_eq!(arena_save_name("  goat-vs-alice.state "), Some("goat-vs-alice".to_string()));
    assert_eq!(arena_save_name("x.state.state"), Some("x".to_string()));
    assert_eq!(arena_save_name("current"), None);
    assert_eq!(arena_save_name("current.state"), None);
    assert_eq!(arena_save_name("a/b"), None);
    assert_eq!(arena_save_name("   "), None);
    assert_eq!(arena_save_name(".state"), None);
}

fn slot(started: bool, done: bool, port: PlaybackPort) -> PlaybackSlot {
    PlaybackSlot {
        name: "combo".to_string(),
        port,
        trigger: PlaybackTrigger::Manual,
        frames: vec![[0, 0]; 5],
        started,
        idx: 2,
        done,
        gate_baseline: None,
    }
}

#[test]
fn slot_and_playback_status_lines() {
    assert_eq!(slot_status_text("combo", 3725), "combo  3725 frames (1:02)");
    assert_eq!(playback_status_text(&slot(true, false, PlaybackPort::P2)), "combo \u{2014} \u{25b6} playing (2/5)");
    assert_eq!(
        playback_status_text(&slot(false, false, PlaybackPort::P2)),
        "combo \u{2014} \u{23f3} armed \u{2014} waiting for round start (2/5)"
    );
    let pb = slot(true, false, PlaybackPort::P2);
    assert_eq!(
        driving_text(Some(&pb), DummyMode::Block),
        ("free".to_string(), "\u{25b6} playback 'combo' (dummy suppressed)".to_string())
    );
    let armed = slot(false, false, PlaybackPort::Both);
    assert_eq!(driving_text(Some(&armed), DummyMode::Stand), ("free".to_string(), "Stand".to_string()));
    assert!(note_failed("play FAILED: nope"));
    assert!(!note_failed("failed"));
    let p = TrainingPanel::new();
    assert!(p.arena_make_current);
    assert_eq!(p.play_port, PlaybackPort::Both);
}

#[test]
fn model_summary_keeps_the_date_part() {
    let info = ShadowModelInfo {
        name: "m".to_string(),
        cases: 1200,
        rounds: Some(14),
        created: Some("2025-08-25T12:04:00Z".to_string()),
        buckets: Vec::new(),
    };
    assert_eq!(model_summary(&info), "1200 cases / 14 rounds, fitted 2025-08-25");
    let bare = ShadowModelInfo { name: "m".to_string(), cases: 3, rounds: None, created: None, buckets: Vec::new() };
    assert_eq!(model_summary(&bare), "3 cases");
}
