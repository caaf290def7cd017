use rustretro::panels::{candidate_label, candidate_tags, chord_mask, elimination_text, hunt_settings_text, mark_count_text, parse_hex_field, CaptureTarget, ControlsPanel, DeviceKind, HuntPanel};
use rustretro::panels::{
    callback_badge, gap_label, kb_text, log_tone, opt_i64, run_state_text, slot_info, slot_label, CpuState,
    FrameLog, InputMonitor, LogTone, ScriptPanel, StatePanel, StatusTone, Tab, Triggers,
};
use std::collections::VecDeque;

#[test]
fn tabs_have_captions() {
    assert_eq!(Tab::HexDump.title(), "\u{1f4cb} Hex");
    assert_eq!(Tab::Help.title(), "\u{2753} Help");
}

#[test]
fn status_register_flags() {
    let (a, b) = CpuState::sr_flag_lines(0x2715);
    assert_eq!(a, "T:0  S:1  M:0  I:7");
    assert_eq!(b, "X:1  N:0  Z:1  V:0  C:1");
}

#[test]
fn event_log_filters_and_tints() {
    let mut f = FrameLog::new();
    let log: VecDeque<String> = vec!["AV info: fmt 0".to_string(), "core ERROR x".to_string(), "warn: WARN".to_string()]
        .into_iter()
        .collect();
    assert_eq!(f.visible_entries(&log).len(), 3);
    f.filter = "Error".to_string();
    assert_eq!(f.visible_entries(&log), vec!["core ERROR x".to_string()]);
    assert_eq!(log_tone("core ERR"), LogTone::Error);
    assert_eq!(log_tone("an error"), LogTone::Error);
    assert_eq!(log_tone("WARN x"), LogTone::Warn);
    assert_eq!(log_tone("pixel fmt"), LogTone::Av);
    assert_eq!(log_tone("hello"), LogTone::Plain);
}

#[test]
fn triggers_read_typed_numbers() {
    let mut t = Triggers::new();
    t.frame_input = " 120 ".to_string();
    assert_eq!(t.frame_trigger(), Some(120));
    t.frame_input = "-1".to_string();
    assert_eq!(t.frame_trigger(), None);
    t.pixel_x = "3".to_string();
    t.pixel_y = "y".to_string();
    assert_eq!(t.pixel_trigger(), None);
    t.pixel_y = "4".to_string();
    assert_eq!(t.pixel_trigger(), Some((3, 4)));
    t.input_btn = 8;
    assert_eq!(t.button_trigger(), u64::MAX - 8);
    assert_eq!(run_state_text(true, 42), "\u{23f8} PAUSED @ frame 42");
    assert_eq!(run_state_text(false, 7), "\u{25b6} Running @ frame 7");
}

#[test]
fn input_labels_elide_long_descriptors() {
    let mut d: [[Option<String>; 12]; 2] = Default::default();
    d[0][1] = Some("Weak attack punch".to_string());
    let (short, full) = InputMonitor::label(&d, 0, 1);
    assert_eq!(full, "Weak attack punch");
    assert_eq!(short, "Weak atta\u{2026}");
    assert_eq!(InputMonitor::label(&d, 1, 4), ("Up".to_string(), "Up".to_string()));
    let mut h: VecDeque<(u64, [bool; 12])> = VecDeque::new();
    let mut b = [false; 12];
    b[2] = true;
    h.push_back((5, b));
    h.push_back((6, [false; 12]));
    assert_eq!(InputMonitor::last_press(&h, 2), "5");
    assert_eq!(InputMonitor::last_press(&h, 3), "-");
}

#[test]
fn save_state_slots() {
    let p = StatePanel::new();
    assert_eq!(p.slots.len(), 9);
    assert!(!p.path_ok());
    assert_eq!(slot_label(1), "1 (F6/F7)");
    assert_eq!(slot_label(3), "3");
    assert_eq!(kb_text(4096), "4 KB");
    let s = slot_info(Some((2048, Some(125))));
    assert!(s.exists);
    assert_eq!(s.modified, "2m ago");
    assert!(!slot_info(None).exists);
}

#[test]
fn script_status_lines() {
    let mut p = ScriptPanel::new();
    assert_eq!(p.status, "No script loaded.");
    assert!(!p.can_act());
    p.path_input = " a.lua ".to_string();
    assert!(p.can_act());
    p.set_load_status(false, "a.lua", Ok(1));
    assert_eq!(p.status, "OK: loaded 'a.lua' (1 onframeend callback)");
    assert_eq!(p.status_tone(), StatusTone::Success);
    p.set_load_status(true, "a.lua", Ok(3));
    assert_eq!(p.status, "OK: reloaded 'a.lua' (3 onframeend callbacks)");
    p.set_load_status(true, "a.lua", Err("boom".to_string()));
    assert_eq!(p.status, "Reload error: boom");
    assert_eq!(p.status_tone(), StatusTone::Failure);
    p.set_cleared();
    assert_eq!(p.status_tone(), StatusTone::Plain);
    assert_eq!(callback_badge(2), "2 onframeend callback(s) registered");
}

#[test]
fn frame_lab_labels() {
    assert_eq!(gap_label(Some(45)), "45f gap");
    assert_eq!(gap_label(None), "unstated gap");
    assert_eq!(opt_i64(Some(-7)), "-7");
    assert_eq!(opt_i64(None), "\u{2014}");
}

#[test]
fn hunt_fields_and_labels() {
    assert_eq!(parse_hex_field(" 0x1F "), Some(0x1f));
    assert_eq!(parse_hex_field("0X0x10"), None);
    assert_eq!(parse_hex_field("0x0X10"), Some(0x10));
    assert_eq!(parse_hex_field("0x"), None);
    assert_eq!(parse_hex_field(""), None);
    let mut h = HuntPanel::new(120, 2, 8);
    assert_eq!(h.event_label, "event");
    assert_eq!(h.ring_frames, 120);
    assert_eq!(h.extra_window(), Ok(None));
    h.extra_start = "ff00".to_string();
    assert_eq!(h.extra_window(), Err("extra window needs BOTH start and len as hex".to_string()));
    h.extra_len = "0x40".to_string();
    assert_eq!(h.extra_window(), Ok(Some((0xff00, 0x40))));
    assert_eq!(h.control_for_analysis(), Some("control".to_string()));
    h.control_label = "  ".to_string();
    assert_eq!(h.control_for_analysis(), None);
    assert_eq!(mark_count_text("event", 5, 3), "event: 5 (2 awaiting +POST)");
    assert_eq!(mark_count_text("control", 2, 2), "control: 2");
    assert_eq!(candidate_tags(true, false, false, true), "small word-half consistent");
    assert_eq!(candidate_tags(false, true, true, false), "counter byte");
}

#[test]
fn controls_panel_tracks_capture_and_descriptors() {
    let mut p = ControlsPanel::new();
    assert!(!p.capturing());
    p.capture = Some(CaptureTarget { port: 0, action: "Light".into(), bits: vec![1, 8], kind: DeviceKind::Keyboard, device: None });
    assert!(p.capturing());
    let mut d: [[Option<String>; 12]; 2] = Default::default();
    d[0][0] = Some("Jump".into());
    p.sync_descriptors(d.clone(), None, Some("mk2".into()));
    assert_eq!(p.descriptors, d);
    assert_eq!(p.rom_stem, Some("mk2".to_string()));
    p.sync_descriptors(d, Some(std::path::PathBuf::from("/tmp/s")), None);
    assert_eq!(p.save_dir, std::path::PathBuf::from("/tmp/s"));
    assert_eq!(p.rom_stem, Some("mk2".to_string()));
    assert_eq!(chord_mask(&[1, 8]), chord_mask(&[8, 1, 8]));
    assert_eq!(chord_mask(&[0, 2]), 0b101);
}

/// libretro joypad button indices.
const B: u8 = 0;
const Y: u8 = 1;
const A: u8 = 8;

#[test]
fn chord_mask_is_set_equality() {
    assert_eq!(chord_mask(&[B, A, Y]), chord_mask(&[Y, B, A]));
    assert_eq!(chord_mask(&[B, B, A]), chord_mask(&[A, B]));
    assert_ne!(chord_mask(&[B, A]), chord_mask(&[B, A, Y]));
    assert_eq!(chord_mask(&[]), 0);
}

#[test]
fn hunt_analysis_lines_report_settings_and_narrowing() {
    assert_eq!(
        hunt_settings_text(600, 5, 10, true, 65536, 3, 4, 2, 2),
        "ring 600 \u{b7} pre 5 \u{b7} post 10 \u{b7} idle subtracted \u{b7} region 65536 B \u{b7} events 3/4 usable \u{b7} controls 2/2 usable"
    );
    assert!(hunt_settings_text(1, 0, 0, false, 0, 0, 0, 0, 0).contains("idle kept"));
    assert_eq!(elimination_text(40, 12, 3), "event set 40 \u{2192} \u{2212}12 by controls \u{2192} \u{2212}3 by idle churn");
    assert_eq!(candidate_label("RAM", 0xFF06A2), "RAM (0xFF06A2)");
    assert_eq!(candidate_label("WRAM", 0), "WRAM (0x0)");
}
