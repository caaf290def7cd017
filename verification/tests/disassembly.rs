use rustretro::debug_state::DebugState;
use rustretro::disassembly::{
    banners_at, code_source, decode_bytes_at, form_region, listing, run_to, toggle_breakpoint, toggle_pause, CodeSource,
    Disassembly, LabelForm,
};
use rustretro::memory::{CodeRegion, MemoryRegion};

/// Real 68000 code: MOVEM.L, CLR.L, LEA, MOVE.L, BSR, BRA, MOVEM.L, RTS.
const M68K_TEST_BYTES: &[u8] = &[
    0x48, 0xE7, 0xFF, 0xFE, 0x42, 0x80, 0x41, 0xF9, 0x00, 0xFF, 0x00, 0x00, 0x20, 0x28, 0x00, 0x04, 0x61, 0x00,
    0x00, 0x10, 0x60, 0x00, 0x00, 0x08, 0x4C, 0xDF, 0x7F, 0xFF, 0x4E, 0x75,
];

#[test]
fn decodes_real_m68k_code_and_marks_the_pc() {
    let lines = decode_bytes_at(M68K_TEST_BYTES, 0x1000, 0x1004).expect("decodes");
    assert_eq!(lines.len(), 8);
    assert_eq!(lines[0].0, 0x1000);
    assert!(lines[0].1.starts_with("  001000:  movem"), "{}", lines[0].1);
    assert_eq!(lines[1].0, 0x1004);
    assert!(lines[1].1.starts_with("\u{2192} 001004:  clr.l"), "{}", lines[1].1);
    assert!(lines[7].1.contains("rts"), "{}", lines[7].1);
}

#[test]
fn listing_pads_mnemonics_and_caps_at_fourteen() {
    let insns: Vec<(u64, Option<String>, Option<String>)> = (0..20u64)
        .map(|k| (0x200 + 2 * k, Some("nop".to_string()), None))
        .collect();
    let lines = listing(&insns, 0x200, 0x202).unwrap();
    assert_eq!(lines.len(), 14);
    assert_eq!(lines[0], (0x200, "  000200:  nop        ".to_string()));
    assert_eq!(lines[1], (0x202, "\u{2192} 000202:  nop        ".to_string()));
    let odd = vec![(0xABCDEF, None, Some("d0".to_string()))];
    assert_eq!(listing(&odd, 0, 0).unwrap()[0].1, "  ABCDEF:  ??         d0");
    assert_eq!(listing(&vec![], 0x1234, 0), Err("No instructions decoded at $001234".to_string()));
}

#[test]
fn empty_code_is_reported_not_listed() {
    assert_eq!(decode_bytes_at(&[], 0x40, 0), Err("No instructions decoded at $000040".to_string()));
}

#[test]
fn code_comes_from_cache_region_or_nowhere() {
    let mut ds = DebugState::new();
    assert!(matches!(code_source(&ds, 0x100), CodeSource::Missing(m)
        if m == "No code bytes \u{2014} core does not expose memory via SekFetchByte or SET_MEMORY_MAPS"));
    let buf = [0u8; 64];
    let p = buf.as_ptr() as usize;
    ds.memory_regions.push(MemoryRegion::synth_region("ROM".into(), 0x1000, 64, p, 0));
    assert!(matches!(code_source(&ds, 0x1010), CodeSource::Host(h) if h == p + 0x10));
    assert!(matches!(code_source(&ds, 0x5000), CodeSource::Missing(m) if m == "Address $005000 outside all memory regions"));
    ds.m68k_code_bytes = vec![0x4E, 0x75];
    ds.m68k_code_start = 0x5000;
    assert!(matches!(code_source(&ds, 0x5000), CodeSource::Cached));
}

#[test]
fn breakpoints_toggle_and_cap_at_eight() {
    let mut bps = vec![0x10, 0x20, 0x10];
    toggle_breakpoint(&mut bps, 0x10);
    assert_eq!(bps, vec![0x20]);
    toggle_breakpoint(&mut bps, 0x30);
    assert_eq!(bps, vec![0x20, 0x30]);
    let mut full: Vec<u32> = (0..8).collect();
    toggle_breakpoint(&mut full, 99);
    assert_eq!(full.len(), 8);
    let mut ds = DebugState::new();
    ds.paused = true;
    ds.hit_breakpoint = Some(0x20);
    toggle_pause(&mut ds);
    assert!(!ds.paused && ds.hit_breakpoint.is_none());
    ds.paused = true;
    run_to(&mut ds, 0x400);
    assert_eq!(ds.run_to_addr, Some(0x400));
    assert!(!ds.paused);
}

#[test]
fn label_form_proposes_an_end_and_builds_the_region() {
    let mut d = Disassembly::new();
    d.begin_label(0x2000);
    let form = d.pending_label.as_ref().unwrap();
    assert_eq!(form.end_text, "00201F");
    assert!(form_region(form, [1, 2, 3]).is_none(), "an empty label cannot be added");
    let mut f = LabelForm { start: 0x2000, end_text: "0x0x2040".to_string(), label: "loop".to_string() };
    let r = form_region(&f, [0, 204, 102]).unwrap();
    assert_eq!((r.addr_start, r.addr_end, r.color), (0x2000, 0x2040, [0, 204, 102]));
    assert_eq!(r.label, "loop");
    f.end_text = "zz".to_string();
    assert_eq!(form_region(&f, [0, 0, 0]).unwrap().addr_end, 0x201F);
    d.begin_label(u32::MAX - 3);
    assert_eq!(d.pending_label.as_ref().unwrap().end_text, "FFFFFFFF");
}

#[test]
fn banners_head_the_regions_starting_at_a_line() {
    let region = |start: u32, end: u32| CodeRegion {
        label: "r".into(),
        addr_start: start,
        addr_end: end,
        color: [0, 0, 0],
        notes: String::new(),
    };
    let regions = vec![region(0x100, 0x1FF), region(0x80, 0x200), region(0x100, 0x100)];
    assert_eq!(banners_at(&regions, 0x100), vec![0, 2]);
    assert_eq!(banners_at(&regions, 0x90), Vec::<usize>::new());
}

#[test]
fn toggling_a_breakpoint_twice_restores_the_set() {
    let mut bps: Vec<u32> = vec![0x100, 0x200];
    toggle_breakpoint(&mut bps, 0x300);
    assert_eq!(bps, vec![0x100, 0x200, 0x300]);
    toggle_breakpoint(&mut bps, 0x300);
    assert_eq!(bps, vec![0x100, 0x200]);
}
