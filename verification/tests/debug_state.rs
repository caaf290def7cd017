use rustretro::debug_state::{read_le_bytes, DebugState};
use rustretro::memory::{BusWindowCfg, MemoryRegion};

/// libretro's RETRO_MEMDESC_SYSTEM_RAM flag.
const SYSTEM_RAM: u64 = 1 << 2;

#[test]
fn nav_history_back_forward_and_truncate() {
    let mut ds = DebugState::new();
    assert!(!ds.can_go_back());
    assert!(!ds.can_go_forward());

    // Push 3 addresses.
    ds.goto(0x100);
    ds.goto(0x200);
    ds.goto(0x300);
    assert_eq!(ds.nav.current_address, Some(0x300));
    assert_eq!(ds.nav.history, vec![0x100, 0x200, 0x300]);
    assert_eq!(ds.nav.history_idx, 2);
    assert_eq!(ds.nav.pending_focus, Some(0x300));
    assert!(ds.can_go_back());
    assert!(!ds.can_go_forward());

    // Back twice -> 0x100.
    assert!(ds.nav_back());
    assert_eq!(ds.nav.current_address, Some(0x200));
    assert!(ds.nav_back());
    assert_eq!(ds.nav.current_address, Some(0x100));
    assert_eq!(ds.nav.pending_focus, Some(0x100));
    assert!(!ds.can_go_back());
    assert!(ds.can_go_forward());

    // Forward once -> 0x200.
    assert!(ds.nav_forward());
    assert_eq!(ds.nav.current_address, Some(0x200));
    assert_eq!(ds.nav.history_idx, 1);

    // goto a 4th address from the middle truncates the forward branch (0x300).
    ds.goto(0x400);
    assert_eq!(ds.nav.history, vec![0x100, 0x200, 0x400]);
    assert_eq!(ds.nav.history_idx, 2);
    assert_eq!(ds.nav.current_address, Some(0x400));
    assert!(!ds.can_go_forward());
}

#[test]
fn held_input_persists_while_countdown_expires() {
    let mut ds = DebugState::new();
    ds.injected_input[3] = 2; // start: 2-frame countdown
    ds.held_input[7] = true; // right: held
    let f = ds.take_injected_input();
    assert!(f[3] && f[7]);
    let f = ds.take_injected_input();
    assert!(f[3] && f[7]);
    for _ in 0..50 {
        let f = ds.take_injected_input();
        assert!(!f[3], "countdown must expire and stay released");
        assert!(f[7], "held must persist indefinitely until released");
    }
    assert_eq!(ds.injected_input[3], 0);
    assert!(ds.held_input[7], "held_input itself is never decremented");
}

#[test]
fn held_input_ports_are_independent_and_replace_not_or() {
    let mut ds = DebugState::new();
    ds.set_held_input(0, {
        let mut b = [false; 12];
        b[7] = true; // right
        b
    });
    ds.set_held_input(1, {
        let mut b = [false; 12];
        b[6] = true; // left
        b
    });
    assert!(ds.take_injected_input()[7]);
    assert!(!ds.take_injected_input()[6]);
    assert!(!ds.take_injected_input2()[7]);
    assert!(ds.take_injected_input2()[6]);

    ds.set_held_input(0, {
        let mut b = [false; 12];
        b[4] = true; // up
        b
    });
    let f = ds.take_injected_input();
    assert!(f[4] && !f[7], "set_held_input replaces, it does not OR");
}

#[test]
fn clear_held_input_releases_named_or_all() {
    let mut ds = DebugState::new();
    ds.held_input[7] = true; // right
    ds.held_input[4] = true; // up
    ds.clear_held_input(0, Some(&[7]));
    let f = ds.take_injected_input();
    assert!(!f[7] && f[4], "only `right` released");
    ds.clear_held_input(0, None);
    let f = ds.take_injected_input();
    assert!(!f[4], "bare release clears the whole port");
}

#[test]
fn peek_injected_input_does_not_consume() {
    let mut ds = DebugState::new();
    ds.injected_input[3] = 2; // countdown
    ds.held_input2[7] = true; // held, port 1
    for _ in 0..5 {
        assert!(ds.peek_injected_input(0)[3]);
        assert!(ds.peek_injected_input(1)[7]);
    }
    assert_eq!(ds.injected_input[3], 2, "peek must not decrement");
    assert!(ds.take_injected_input()[3]);
    assert_eq!(ds.injected_input[3], 1);
}

#[test]
fn write_addr_routes_bus_window_to_pending_and_pokes_snapshot() {
    let mut ds = DebugState::new();
    // A Work-RAM bus window over a snapshot buffer.
    let snapshot = vec![0u8; 0x1000];
    let base = snapshot.as_ptr() as usize;
    assert!(ds.install_bus_window(
        BusWindowCfg {
            name: "Work RAM".into(),
            addr: 0x400000,
            len: 0x1000,
            interval: 1,
            flags: SYSTEM_RAM,
        },
        base,
    ));
    // Write 0xDEADBEEF (LE bytes EF BE AD DE) at base+0x100.
    let a = 0x400100usize;
    assert_eq!(ds.write_addr(a, 4, 0xDEAD_BEEF), Some((base + 0x100, vec![0xEF, 0xBE, 0xAD, 0xDE])));
    // Queued for the live bus, exact LE byte order.
    assert_eq!(ds.pending_bus_writes, vec![(a as u32, vec![0xEF, 0xBE, 0xAD, 0xDE])]);
    // A same-frame read goes to the same snapshot bytes.
    assert_eq!(ds.read_host_addr(a, 4), Some(base + 0x100));

    // A non-bus synth region must NOT enqueue: its own buffer takes the bytes.
    let buf = [0u8; 16];
    let p = buf.as_ptr() as usize;
    ds.memory_regions.push(MemoryRegion::synth_region("Plain".into(), 0x900000, buf.len(), p, SYSTEM_RAM));
    let before = ds.pending_bus_writes.len();
    assert_eq!(ds.write_addr(0x900000, 2, 0x1234), Some((p, vec![0x34, 0x12])));
    assert_eq!(ds.pending_bus_writes.len(), before, "non-bus write must not enqueue a bus write");
}

#[test]
fn write_addr_refuses_read_only_and_unmapped_addresses() {
    let mut ds = DebugState::new();
    let buf = [0u8; 16];
    let p = buf.as_ptr() as usize;
    ds.memory_regions.push(MemoryRegion::synth_region("ROM".into(), 0x1000, buf.len(), p, 1));
    assert_eq!(ds.write_addr(0x1000, 1, 7), None);
    assert_eq!(ds.write_addr(0x5000, 1, 7), None);
    assert!(ds.pending_bus_writes.is_empty());
}

#[test]
fn update_frame_decodes_and_bumps_the_generation() {
    let mut ds = DebugState::new();
    // One XRGB8888 pixel, stored B, G, R, X.
    ds.update_frame(&[0x10, 0x20, 0x30, 0x00], 1, 1, 4, 1);
    assert_eq!(ds.fb_rgba, vec![0x30, 0x20, 0x10, 0xFF]);
    assert_eq!(ds.framebuffer, vec![0x10, 0x20, 0x30, 0x00]);
    assert_eq!((ds.fb_width, ds.fb_height, ds.fb_pitch, ds.fb_fmt), (1, 1, 4, 1));
    assert_eq!(ds.fb_generation, 1);
    ds.update_frame(&[0xFF, 0xFF], 1, 1, 2, 2);
    assert_eq!(ds.fb_rgba, vec![0xF8, 0xFC, 0xF8, 0xFF]);
    assert_eq!(ds.fb_generation, 2);
    assert_eq!(ds.video_real, 2);
}

#[test]
fn a_read_after_a_write_sees_the_written_bytes() {
    let mut ds = DebugState::new();
    let buf = [0u8; 16];
    let p = buf.as_ptr() as usize;
    ds.memory_regions.push(MemoryRegion::synth_region("RAM".into(), 0x100, buf.len(), p, SYSTEM_RAM));
    let (host, bytes) = ds.write_addr(0x104, 3, 0x00AB_CDEF).unwrap();
    assert_eq!(ds.read_host_addr(0x104, 3), Some(host));
    assert_eq!(bytes, vec![0xEF, 0xCD, 0xAB]);
    assert_eq!(read_le_bytes(&bytes), 0x00AB_CDEF);
    assert!(ds.addressable(0x104));
}
