use rustretro::debug_state::DebugState;
use rustretro::input_log::{
    bit_stream, clear, collapse_runs, fnv1a, format_entry, pack_mask, port_events, InputLogPanel, InputLogState, RunEvent,
    Sample, RING_CAPACITY_FRAMES,
};

#[test]
fn seven_frame_hold_is_one_entry_not_seven() {
    let mut samples = vec![(0u64, false); 10];
    for f in 10..=16u64 {
        samples.push((f, true));
    }
    for f in 17..=20u64 {
        samples.push((f, false));
    }
    let samples: Vec<(u64, bool)> =
        samples.iter().enumerate().map(|(i, (_, p))| (i as u64, *p)).collect();

    let events = collapse_runs(&samples);
    assert_eq!(events.len(), 1, "expected one collapsed entry, got {events:?}");
    assert_eq!(events[0].start_frame, 10);
    assert_eq!(events[0].held_frames, 7);
    assert!(!events[0].open);
    assert_eq!(events[0].gap_before, None, "first-ever run has no prior release to gap from");
}

#[test]
fn release_then_repress_is_two_entries() {
    let pressed_frames: [(u64, bool); 8] = [
        (10, true), (11, true), (12, true),
        (13, false), (14, false),
        (15, true), (16, true),
        (17, false),
    ];
    let events = collapse_runs(&pressed_frames);
    assert_eq!(events.len(), 2, "release-then-repress must be TWO entries: {events:?}");
    assert_eq!(events[0].start_frame, 10);
    assert_eq!(events[0].held_frames, 3);
    assert_eq!(events[1].start_frame, 15);
    assert_eq!(events[1].held_frames, 2);
}

#[test]
fn gap_is_measured_between_the_previous_release_and_this_press() {
    let samples: [(u64, bool); 8] = [
        (10, true), (11, true), (12, true),
        (13, false), (14, false),
        (15, true), (16, true),
        (17, false),
    ];
    let events = collapse_runs(&samples);
    assert_eq!(events.len(), 2);
    assert_eq!(events[1].gap_before, Some(2));
}

#[test]
fn still_held_run_is_marked_open_with_no_release() {
    let samples: [(u64, bool); 5] = [(0, false), (1, true), (2, true), (3, true), (4, true)];
    let events = collapse_runs(&samples);
    assert_eq!(events.len(), 1);
    assert!(events[0].open);
    assert_eq!(events[0].held_frames, 4);
}

#[test]
fn never_pressed_stream_yields_no_events() {
    let samples: Vec<(u64, bool)> = (0..30).map(|f| (f, false)).collect();
    assert!(collapse_runs(&samples).is_empty());
}

#[test]
fn non_contiguous_frame_jump_closes_the_run_at_the_gap() {
    let samples: [(u64, bool); 3] = [(5, true), (6, true), (50, true)];
    let events = collapse_runs(&samples);
    assert_eq!(events.len(), 2, "a frame-number gap must not silently span a run: {events:?}");
    assert_eq!(events[0].start_frame, 5);
    assert_eq!(events[0].held_frames, 2);
    assert!(!events[0].open);
    assert_eq!(events[1].start_frame, 50);
    assert!(events[1].open);
}

#[test]
fn held_frames_add_up_to_pressed_samples() {
    let samples: Vec<(u64, bool)> = (0..40u64).map(|f| (f * 2 / 3, f % 3 != 0)).collect();
    let mut dedup: Vec<(u64, bool)> = Vec::new();
    for s in samples {
        if dedup.last().map(|l| l.0 < s.0).unwrap_or(true) {
            dedup.push(s);
        }
    }
    let pressed = dedup.iter().filter(|s| s.1).count() as u64;
    let events = collapse_runs(&dedup);
    assert_eq!(events.iter().map(|e| e.held_frames).sum::<u64>(), pressed);
}

fn state_with_frames(n: u64) -> InputLogState {
    let mut st = InputLogState::new();
    for f in 0..n {
        st.push_frame(Sample { frame: f, p0: 0, p1: 0 });
    }
    st
}

#[test]
fn ring_drops_oldest_past_capacity() {
    let st = state_with_frames(RING_CAPACITY_FRAMES as u64 + 25);
    assert_eq!(st.ring.len(), RING_CAPACITY_FRAMES);
    assert_eq!(st.ring.front().unwrap().frame, 25, "oldest 25 frames should have fallen off");
    assert_eq!(st.ring.back().unwrap().frame, RING_CAPACITY_FRAMES as u64 + 24);
}

#[test]
fn clear_empties_the_ring_and_resets_dedup() {
    let mut st = InputLogState::new();
    st.push_frame(Sample { frame: 1, p0: 1, p1: 0 });
    assert_eq!(st.last_frame, Some(1));
    clear(&mut st);
    assert!(st.ring.is_empty());
    assert_eq!(st.last_frame, None);
}

#[test]
fn sample_dedupes_unchanged_frame_count() {
    let mut st = InputLogState::new();
    let mut a = [false; 12];
    a[0] = true;
    let none = [false; 12];
    st.sample(5, &a, &none, None);
    st.sample(5, &a, &none, None);
    assert_eq!(st.ring.len(), 1);
    st.sample(6, &a, &none, None);
    assert_eq!(st.ring.len(), 2);
}

#[test]
fn sample_reads_the_post_fold_state_not_raw_keyboard() {
    // The sampled masks are exactly the post-fold input fields of the state.
    let mut ds = DebugState::new();
    ds.frame_count = 1;
    ds.input_state[8] = true; // P1 A (bit 8)
    ds.input_state2[0] = true; // P2 B (bit 0)
    let mut st = InputLogState::new();
    st.sample(ds.frame_count, &ds.input_state, &ds.input_state2, ds.state_note.as_deref());
    let s = *st.ring.back().unwrap();
    assert_eq!(s.p0, 1 << 8);
    assert_eq!(s.p1, 1 << 0);
    assert_eq!(pack_mask(&[true; 12]), 0x0fff);
}

#[test]
fn detected_state_load_clears_the_ring() {
    let mut st = InputLogState::new();
    let none = [false; 12];
    st.sample(1, &none, &none, None);
    assert_eq!(st.ring.len(), 1);
    let note = "loaded shadow/arenas/current.state (12345 bytes) @ frame 900";
    st.sample(2, &none, &none, Some(note));
    assert_eq!(st.ring.len(), 1);
    assert_eq!(st.ring.back().unwrap().frame, 2);
    // The same note seen again is no new load.
    st.sample(3, &none, &none, Some(note));
    assert_eq!(st.ring.len(), 2);
}

#[test]
fn a_save_note_does_not_clear_the_ring() {
    let mut st = InputLogState::new();
    let none = [false; 12];
    st.sample(1, &none, &none, None);
    st.sample(2, &none, &none, Some("saved shadow/arenas/current.state (12345 bytes) @ frame 900"));
    assert_eq!(st.ring.len(), 2, "a SAVE (not a load) must not clear the log");
}

#[test]
fn fnv1a_matches_reference_values() {
    assert_eq!(fnv1a(b""), 0xcbf2_9ce4_8422_2325);
    assert_eq!(fnv1a(b"a"), 0xaf63_dc4c_8601_ec8c);
    assert_eq!(fnv1a(b"foobar"), 0x8594_4171_f739_67e8);
}

#[test]
fn port_events_merge_buttons_by_start_frame() {
    let mut st = InputLogState::new();
    // Frames 10..=14: button 8 (A) held 10-11, button 0 (B) held 11-13.
    let masks: [(u16, u16); 5] = [(1 << 8, 0), ((1 << 8) | 1, 0), (1, 4), (1, 0), (0, 0)];
    for (i, (p0, p1)) in masks.iter().enumerate() {
        st.push_frame(Sample { frame: 10 + i as u64, p0: *p0, p1: *p1 });
    }
    let ev = port_events(&st, 0);
    assert_eq!(ev.len(), 2);
    assert_eq!(ev[0].0, 8);
    assert_eq!(ev[0].1.start_frame, 10);
    assert_eq!(ev[0].1.held_frames, 2);
    assert_eq!(ev[1].0, 0);
    assert_eq!(ev[1].1.start_frame, 11);
    assert_eq!(ev[1].1.held_frames, 3);
    let ev2 = port_events(&st, 1);
    assert_eq!(ev2.len(), 1);
    assert_eq!(ev2[0].0, 2);
    assert_eq!(bit_stream(&st.ring, 1, 2), vec![(10, false), (11, false), (12, true), (13, false), (14, false)]);
}

#[test]
fn entries_render_start_label_hold_and_gap() {
    let ev = RunEvent { start_frame: 42, held_frames: 7, gap_before: Some(3), open: false };
    assert_eq!(format_entry("A", &ev), "f42     +A          (held 7f)  gap 3f");
    let open = RunEvent { start_frame: 1234567, held_frames: 2, gap_before: None, open: true };
    assert_eq!(format_entry("Select", &open), "f1234567 +Select     (held 2f\u{2026})");
    let mut desc: [[Option<String>; 12]; 2] = Default::default();
    desc[1][0] = Some("Punch".to_string());
    assert_eq!(InputLogPanel::label(&desc, 1, 0), "Punch");
    assert_eq!(InputLogPanel::label(&desc, 0, 3), "Start");
    assert!(!InputLogPanel::new().freeze_scroll);
}
