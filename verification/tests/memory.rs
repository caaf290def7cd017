use rustretro::memory::{
    region_named,
    compare_passes, detect_change, system_slug_from_library, MemoryRegion, SearchCompare,
};

#[test]
fn system_slug_maps_single_system_cores_only() {
    assert_eq!(system_slug_from_library("FCEUmm"), Some("nes"));
    assert_eq!(system_slug_from_library("Nestopia UE"), Some("nes"));
    assert_eq!(system_slug_from_library("Mesen"), Some("nes"));
    assert_eq!(system_slug_from_library("Genesis Plus GX"), Some("megadrive"));
    assert_eq!(system_slug_from_library("PicoDrive"), Some("megadrive"));
    assert_eq!(system_slug_from_library("FinalBurn Neo"), None);
    assert_eq!(system_slug_from_library("FB Alpha 2012"), None);
    assert_eq!(system_slug_from_library("MAME 2003"), None);
    assert_eq!(system_slug_from_library(""), None);
}

fn region(name: &str, start: usize, size: usize, ptr: usize) -> MemoryRegion {
    MemoryRegion {
        name: name.into(),
        addr_start: start,
        addr_end: start + size - 1,
        size,
        flags: 0,
        ptr,
        offset: 0,
        select: 0,
        disconnect: 0,
    }
}

#[test]
fn safe_host_ptr_rejects_unbacked_and_out_of_bounds() {
    let buf = [1u8, 2, 3, 4];
    let p = buf.as_ptr() as usize;
    let r = region("RAM", 0x0000, 4, p);
    assert!(r.safe_host_ptr(0x0000, 1).is_some());
    assert!(r.safe_host_ptr(0x0003, 1).is_some());
    assert!(r.safe_host_ptr(0x0003, 4).is_none());

    let virt = region("OAM", 0x80004000, 0x100, 0);
    assert!(virt.host_ptr_for_addr(0x80004000).is_some());
    assert!(virt.safe_host_ptr(0x80004000, 1).is_none());

    let bogus = region("Bogus", 0x6000, 0, 0xdeadbeef);
    assert!(bogus.safe_host_ptr(0x6000, 1).is_none());
}

#[test]
fn synth_region_accepts_in_bounds_rejects_out_of_bounds() {
    let buf = [0xAAu8; 64];
    let p = buf.as_ptr() as usize;
    const RETRO_MEMDESC_SYSTEM_RAM: u64 = 1 << 2;

    let r = MemoryRegion::synth_region("System RAM (fallback)".to_string(), 0, buf.len(), p, RETRO_MEMDESC_SYSTEM_RAM);
    assert_eq!(r.addr_start, 0);
    assert_eq!(r.addr_end, buf.len() - 1);
    assert_eq!(r.region_type(), "RAM");

    assert_eq!(r.safe_host_ptr(0, 1), Some(p));
    assert_eq!(r.safe_host_ptr(buf.len() - 1, 1), Some(p + buf.len() - 1));
    assert!(r.safe_host_ptr(0, buf.len()).is_some());

    assert!(r.safe_host_ptr(buf.len(), 1).is_none());
    assert!(r.safe_host_ptr(buf.len() - 1, 2).is_none());
    assert!(r.safe_host_ptr(0, buf.len() + 1).is_none());

    const RETRO_MEMDESC_VIDEO_RAM: u64 = 1 << 4;
    let v = MemoryRegion::synth_region("Video RAM (fallback)".to_string(), 0x1000_0000, buf.len(), p, RETRO_MEMDESC_VIDEO_RAM);
    assert_eq!(v.region_type(), "VRAM");
    assert_eq!(v.safe_host_ptr(0x1000_0000, 1), Some(p));
    assert!(v.safe_host_ptr(0, 1).is_none());
}

#[test]
fn region_type_name_fallback_classifies_unflagged_regions() {
    assert_eq!(region("OAM", 0, 0x100, 0).region_type(), "VRAM");
    assert_eq!(region("PALRAM", 0, 0x20, 0).region_type(), "VRAM");
    assert_eq!(region("NTARAM", 0, 0x800, 0).region_type(), "VRAM");
    assert_eq!(region("PPUREG", 0, 0x8, 0).region_type(), "VRAM");
    assert_eq!(region("Work RAM", 0, 0x800, 0).region_type(), "RAM");
    assert_eq!(region("WRAM", 0, 0x2000, 0).region_type(), "RAM");
    assert_eq!(region("PRG ROM", 0, 0x8000, 0).region_type(), "ROM");
    assert_eq!(region("Battery SRAM", 0, 0x2000, 0).region_type(), "SRAM");
    assert_eq!(region("weird", 0, 0x10, 0).region_type(), "Unmapped");

    const RETRO_MEMDESC_SYSTEM_RAM: u64 = 1 << 2;
    let mut flagged = region("anything", 0, 0x10, 0);
    flagged.flags = RETRO_MEMDESC_SYSTEM_RAM;
    assert_eq!(flagged.region_type(), "RAM");
}

#[test]
fn region_colors_and_read_only_follow_the_kind() {
    let mut rom = region("PRG ROM", 0, 0x10, 0);
    assert_eq!(rom.color(), (100, 150, 255));
    assert!(!rom.is_readonly());
    rom.flags = 1;
    assert!(rom.is_readonly());
    assert_eq!(region("weird", 0, 0x10, 0).color(), (100, 100, 100));
    assert_eq!(region("save", 0, 0x10, 0).color(), (200, 100, 255));
}

fn narrow(cur: &[u32], prev: &[u32], op: SearchCompare, signed: bool, bits: u32) -> Vec<usize> {
    (0..cur.len())
        .filter(|&i| compare_passes(cur[i], prev[i], op, signed, bits))
        .collect()
}

#[test]
fn equal_narrows_to_matching() {
    let cur = [10, 99, 30, 99];
    let survivors: Vec<usize> = (0..4)
        .filter(|&i| compare_passes(cur[i], 30, SearchCompare::Equal, false, 8))
        .collect();
    assert_eq!(survivors, vec![2]);
}

#[test]
fn changed_and_unchanged_split() {
    let prev = [1u32, 2, 3, 4];
    let cur = [1u32, 5, 3, 9];
    assert_eq!(narrow(&cur, &prev, SearchCompare::Changed, false, 8), vec![1, 3]);
    assert_eq!(narrow(&cur, &prev, SearchCompare::Unchanged, false, 8), vec![0, 2]);
}

#[test]
fn increased_decreased() {
    let prev = [10u32, 10, 10];
    let cur = [11u32, 9, 10];
    assert_eq!(narrow(&cur, &prev, SearchCompare::Increased, false, 8), vec![0]);
    assert_eq!(narrow(&cur, &prev, SearchCompare::Decreased, false, 8), vec![1]);
}

#[test]
fn signed_less_than_handles_high_bit() {
    assert!(compare_passes(0xFF, 0x01, SearchCompare::Less, true, 8));
    assert!(!compare_passes(0xFF, 0x01, SearchCompare::Less, false, 8));
}

#[test]
fn different_by_is_symmetric() {
    assert!(compare_passes(15, 10, SearchCompare::DifferentBy(5), false, 8));
    assert!(compare_passes(10, 15, SearchCompare::DifferentBy(5), false, 8));
    assert!(!compare_passes(10, 15, SearchCompare::DifferentBy(4), false, 8));
}

#[test]
fn signed_sixteen_and_thirty_two_bit_readings() {
    assert!(compare_passes(0x8000, 0x7FFF, SearchCompare::Less, true, 16));
    assert!(compare_passes(0xFFFF_FFFF, 0, SearchCompare::Less, true, 32));
    assert!(compare_passes(0xFFFF_FFFF, 0, SearchCompare::Greater, false, 32));
    assert!(compare_passes(0xFE, 0x01, SearchCompare::DifferentBy(3), true, 8));
}

#[test]
fn detect_change_edge_logic() {
    assert!(!detect_change(None, 42));
    assert!(!detect_change(Some(42), 42));
    assert!(detect_change(Some(42), 43));
    assert!(detect_change(Some(0), 1));
}

#[test]
fn regions_are_found_by_name_ignoring_ascii_case() {
    let regions = vec![
        MemoryRegion::synth_region("WRAM".to_string(), 0, 16, 0, 0),
        MemoryRegion::synth_region("PALRAM".to_string(), 0x100, 32, 0, 0),
        MemoryRegion::synth_region("palram".to_string(), 0x200, 32, 0, 0),
    ];
    assert_eq!(region_named(&regions, "PalRam"), Some(1));
    assert_eq!(region_named(&regions, "wram"), Some(0));
    assert_eq!(region_named(&regions, "OAM"), None);
    assert_eq!(region_named(&regions, "WRAM "), None);
}
