//! Emulated-memory model: libretro memory-region descriptors and their
//! guest-to-host address arithmetic, region classification, watch formats,
//! and the comparison kernel of the iterative RAM search.
use vstd::prelude::*;
use crate::text::{contains_folded, fold_case, occurs_in};

verus! {

/// A user-created snapshot of machine state at a named moment.
pub struct Bookmark {
    pub label: String,
    pub frame: u64,
    pub m68k_pc: u32,
    pub m68k_d_regs: [u32; 8],
    pub m68k_a_regs: [u32; 8],
    /// 64x48 RGBA thumbnail (regenerated during play, never persisted).
    pub thumbnail: Vec<u8>,
    pub notes: String,
}

/// A user-labeled range of M68K code addresses.
pub struct CodeRegion {
    pub label: String,
    pub addr_start: u32,
    pub addr_end: u32,
    /// RGB display color for this region.
    pub color: [u8; 3],
    pub notes: String,
}

/// How a watched address's bytes are interpreted for display.
#[derive(Clone, Copy, PartialEq, Eq, Debug, Structural)]
pub enum WatchFormat {
    U8,
    S8,
    U16LE,
    U16BE,
    U32LE,
    U32BE,
    Hex8,
    Hex16,
    Hex32,
}

/// Bytes read from memory for each watch format.
pub open spec fn watch_format_len(f: WatchFormat) -> nat {
    match f {
        WatchFormat::U8 | WatchFormat::S8 | WatchFormat::Hex8 => 1,
        WatchFormat::U16LE | WatchFormat::U16BE | WatchFormat::Hex16 => 2,
        _ => 4,
    }
}

impl WatchFormat {
    /// Number of bytes this format reads from memory.
    pub fn byte_len(&self) -> (n: usize)
        ensures
            n == watch_format_len(*self),
    {
        match self {
            WatchFormat::U8 | WatchFormat::S8 | WatchFormat::Hex8 => 1,
            WatchFormat::U16LE | WatchFormat::U16BE | WatchFormat::Hex16 => 2,
            WatchFormat::U32LE | WatchFormat::U32BE | WatchFormat::Hex32 => 4,
        }
    }
}

/// Value width for a RAM search.
#[derive(Clone, Copy, PartialEq, Eq, Debug, Structural)]
pub enum SearchSize {
    U8,
    U16,
    U32,
}

/// Bytes per candidate value for each search width.
pub open spec fn search_size_len(s: SearchSize) -> nat {
    match s {
        SearchSize::U8 => 1,
        SearchSize::U16 => 2,
        SearchSize::U32 => 4,
    }
}

/// The watch format that displays a search result of width `s`.
pub open spec fn search_watch_format(s: SearchSize, hex: bool) -> WatchFormat {
    match (s, hex) {
        (SearchSize::U8, false) => WatchFormat::U8,
        (SearchSize::U16, false) => WatchFormat::U16LE,
        (SearchSize::U32, false) => WatchFormat::U32LE,
        (SearchSize::U8, true) => WatchFormat::Hex8,
        (SearchSize::U16, true) => WatchFormat::Hex16,
        (SearchSize::U32, true) => WatchFormat::Hex32,
    }
}

impl SearchSize {
    pub fn byte_len(self) -> (n: usize)
        ensures
            n == search_size_len(self),
    {
        match self {
            SearchSize::U8 => 1,
            SearchSize::U16 => 2,
            SearchSize::U32 => 4,
        }
    }

    /// The matching watch format for this size (hex chosen at call site).
    pub fn watch_format(self, hex: bool) -> (f: WatchFormat)
        ensures
            f == search_watch_format(self, hex),
            watch_format_len(f) == search_size_len(self),
    {
        match (self, hex) {
            (SearchSize::U8, false) => WatchFormat::U8,
            (SearchSize::U16, false) => WatchFormat::U16LE,
            (SearchSize::U32, false) => WatchFormat::U32LE,
            (SearchSize::U8, true) => WatchFormat::Hex8,
            (SearchSize::U16, true) => WatchFormat::Hex16,
            (SearchSize::U32, true) => WatchFormat::Hex32,
        }
    }
}

/// Comparison operator applied during a RAM search step.
#[derive(Clone, Copy, PartialEq, Eq, Debug, Structural)]
pub enum SearchCompare {
    Equal,
    NotEqual,
    Less,
    Greater,
    Changed,
    Unchanged,
    Increased,
    Decreased,
    DifferentBy(i64),
}

/// What a search step compares each candidate's current value against.
#[derive(Clone, Copy, PartialEq, Eq, Debug, Structural)]
pub enum SearchSource {
    /// Compare against the value captured at the previous checkpoint.
    PreviousSnapshot,
    /// Compare against a fixed user-supplied value.
    SpecificValue(u32),
}

/// The low `bits` bits of `v` read as a two's-complement number.
pub open spec fn sign_extend(v: u32, bits: u32) -> int {
    let low = (v as u64) & (((1u64 << bits) - 1) as u64);
    if (v as u64 >> ((bits - 1) as u64)) & 1 == 1 {
        low as int - (1u64 << bits) as int
    } else {
        low as int
    }
}

/// The value a comparison sees: the raw value, or its signed reading at
/// width `bits` (the whole 32-bit word when `bits >= 32`).
pub open spec fn search_value(v: u32, signed: bool, bits: u32) -> int {
    if signed && bits < 32 {
        sign_extend(v, bits)
    } else if signed {
        v as i32 as int
    } else {
        v as int
    }
}

/// Whether a candidate whose current value is `cur` passes `op` against `rhs`.
pub open spec fn passes(cur: u32, rhs: u32, op: SearchCompare, signed: bool, bits: u32) -> bool {
    let a = search_value(cur, signed, bits);
    let b = search_value(rhs, signed, bits);
    match op {
        SearchCompare::Equal | SearchCompare::Unchanged => cur == rhs,
        SearchCompare::NotEqual | SearchCompare::Changed => cur != rhs,
        SearchCompare::Less | SearchCompare::Decreased => a < b,
        SearchCompare::Greater | SearchCompare::Increased => a > b,
        SearchCompare::DifferentBy(d) => a - b == d || b - a == d,
    }
}

/// The order comparisons are strict and exact: no value is less than,
/// greater than, increased from or decreased from itself; "less" one way is
/// "greater" the other way, and never both; "equal"/"unchanged" hold exactly
/// for equal values and "not equal"/"changed" exactly for different ones;
/// and read unsigned, the comparisons are the plain integer ones.
pub proof fn lemma_compare_meanings(cur: u32, rhs: u32, d: i64, signed: bool, bits: u32)
    ensures
        !passes(cur, cur, SearchCompare::Less, signed, bits),
        !passes(cur, cur, SearchCompare::Greater, signed, bits),
        !passes(cur, cur, SearchCompare::Increased, signed, bits),
        !passes(cur, cur, SearchCompare::Decreased, signed, bits),
        passes(cur, rhs, SearchCompare::Less, signed, bits) == passes(rhs, cur, SearchCompare::Greater, signed, bits),
        !(passes(cur, rhs, SearchCompare::Less, signed, bits) && passes(cur, rhs, SearchCompare::Greater, signed, bits)),
        passes(cur, rhs, SearchCompare::Equal, signed, bits) == (cur == rhs),
        passes(cur, rhs, SearchCompare::Unchanged, signed, bits) == (cur == rhs),
        passes(cur, rhs, SearchCompare::NotEqual, signed, bits) == (cur != rhs),
        passes(cur, rhs, SearchCompare::Changed, signed, bits) == (cur != rhs),
        passes(cur, rhs, SearchCompare::Less, false, bits) == (cur < rhs),
        passes(cur, rhs, SearchCompare::Decreased, false, bits) == (cur < rhs),
        passes(cur, rhs, SearchCompare::Greater, false, bits) == (cur > rhs),
        passes(cur, rhs, SearchCompare::Increased, false, bits) == (cur > rhs),
        passes(cur, rhs, SearchCompare::DifferentBy(d), false, bits) == (cur - rhs == d || rhs - cur == d),
{
}

/// Comparisons read the same from either side: a difference of `d` holds
/// both ways round, "changed" is exactly "not unchanged", and an increase
/// from `rhs` to `cur` is a decrease from `cur` to `rhs`.
pub proof fn lemma_compare_symmetries(cur: u32, rhs: u32, d: i64, signed: bool, bits: u32)
    ensures
        passes(cur, rhs, SearchCompare::DifferentBy(d), signed, bits)
            == passes(rhs, cur, SearchCompare::DifferentBy(d), signed, bits),
        passes(cur, rhs, SearchCompare::Changed, signed, bits) == !passes(cur, rhs, SearchCompare::Unchanged, signed, bits),
        passes(cur, rhs, SearchCompare::Increased, signed, bits) == passes(rhs, cur, SearchCompare::Decreased, signed, bits),
{
}

pub(crate) fn search_value_exec(v: u32, signed: bool, bits: u32) -> (r: i64)
    requires
        !(signed && bits == 0),
    ensures
        r as int == search_value(v, signed, bits),
        -0x8000_0000 <= r < 0x1_0000_0000,
{
    if signed && bits < 32 {
        let shift = 32 - bits;
        let r = ((v << shift) as i32 >> shift) as i64;
        assert(r as int == sign_extend(v, bits) && -0x8000_0000 <= r < 0x8000_0000) by (bit_vector)
            requires
                1 <= bits < 32,
                shift == 32 - bits,
                r == ((v << shift) as i32 >> shift) as i64,
        ;
        r
    } else if signed {
        (v as i32) as i64
    } else {
        v as i64
    }
}

/// Pure comparison kernel for one candidate. `cur` is the freshly read
/// value; `rhs` is the previous snapshot value or the specific target value.
/// `bits` is the value width used for the signed reading; a signed reading
/// of width 0 is undefined and not accepted.
pub fn compare_passes(cur: u32, rhs: u32, op: SearchCompare, signed: bool, bits: u32) -> (b: bool)
    requires
        !(signed && bits == 0),
    ensures
        b == passes(cur, rhs, op, signed, bits),
{
    let a = search_value_exec(cur, signed, bits);
    let r = search_value_exec(rhs, signed, bits);
    match op {
        SearchCompare::Equal => cur == rhs,
        SearchCompare::NotEqual => cur != rhs,
        SearchCompare::Less => a < r,
        SearchCompare::Greater => a > r,
        SearchCompare::Changed => cur != rhs,
        SearchCompare::Unchanged => cur == rhs,
        SearchCompare::Increased => a > r,
        SearchCompare::Decreased => a < r,
        SearchCompare::DifferentBy(d) => (a - r) == d || (r - a) == d,
    }
}

/// True when `cur` differs from a known previous value; a first sighting
/// (`None`) is never a change.
pub fn detect_change(prev: Option<u32>, cur: u32) -> (b: bool)
    ensures
        b == (prev matches Some(p) && p != cur),
{
    match prev {
        Some(p) => p != cur,
        None => false,
    }
}

/// Iterative cheat-engine-style RAM search state. Persists across frames.
pub struct RamSearch {
    pub region_idx: usize,
    pub size: SearchSize,
    pub signed: bool,
    pub hex: bool,
    /// Guest addresses still in the running.
    pub candidates: Vec<usize>,
    /// Value captured at each candidate at the last checkpoint (parallel to
    /// `candidates`).
    pub prev_values: Vec<u32>,
    pub started: bool,
}

impl RamSearch {
    pub fn new() -> (r: Self)
        ensures
            r.region_idx == 0,
            r.size == SearchSize::U8,
            !r.signed,
            !r.hex,
            r.candidates@.len() == 0,
            r.prev_values@.len() == 0,
            !r.started,
    {
        RamSearch {
            region_idx: 0,
            size: SearchSize::U8,
            signed: false,
            hex: false,
            candidates: Vec::new(),
            prev_values: Vec::new(),
            started: false,
        }
    }
}

/// A single watched memory location.
pub struct Watch {
    pub addr: usize,
    pub label: String,
    pub format: WatchFormat,
    pub frozen: bool,
    pub frozen_value: Option<u32>,
    /// Log every frame in which this watch's value changes.
    pub track_changes: bool,
    /// Last raw little-endian value read from memory (for display).
    pub current: Option<u32>,
    /// Last value seen for change-detection edge tracking.
    pub prev_value: Option<u32>,
}

/// One frame-granular value change recorded for a tracked watch.
#[derive(Clone, Copy, PartialEq, Eq, Debug, Structural)]
pub struct ChangeEvent {
    pub frame: u64,
    pub addr: usize,
    pub old: u32,
    pub new: u32,
    pub pc: u32,
}

/// RETRO_MEMDESC_CONST: the region is read-only.
pub const RETRO_MEMDESC_CONST: u64 = 1;
/// RETRO_MEMDESC_SYSTEM_RAM.
pub const RETRO_MEMDESC_SYSTEM_RAM: u64 = 4;
/// RETRO_MEMDESC_SAVE_RAM.
pub const RETRO_MEMDESC_SAVE_RAM: u64 = 8;
/// RETRO_MEMDESC_VIDEO_RAM.
pub const RETRO_MEMDESC_VIDEO_RAM: u64 = 16;

/// Memory region descriptor (from the libretro SET_MEMORY_MAPS callback).
#[derive(Clone)]
pub struct MemoryRegion {
    pub name: String,
    /// Emulated address start.
    pub addr_start: usize,
    /// Emulated address end (inclusive).
    pub addr_end: usize,
    pub size: usize,
    /// RETRO_MEMDESC_* flags.
    pub flags: u64,
    /// Host address of the backing memory (0 when unbacked).
    pub ptr: usize,
    /// Offset within `ptr`.
    pub offset: usize,
    /// Address mask.
    pub select: usize,
    /// Address disconnect mask.
    pub disconnect: usize,
}

/// The kinds a region is classified into.
#[derive(Clone, Copy, PartialEq, Eq, Debug, Structural)]
pub enum RegionKind {
    Rom,
    Ram,
    Vram,
    Sram,
    Unmapped,
}

/// The upper-cased region name contains `needle`.
pub open spec fn name_has(name: Seq<char>, needle: &str) -> bool {
    occurs_in(fold_case(name, true), needle@)
}

/// Classification of a region: descriptor flags first, then (for cores that
/// publish named regions without flags) the region name, checking the
/// save-RAM and video names before the generic RAM names.
pub open spec fn region_kind(flags: u64, name: Seq<char>) -> RegionKind {
    if flags & RETRO_MEMDESC_VIDEO_RAM != 0 {
        RegionKind::Vram
    } else if flags & RETRO_MEMDESC_SAVE_RAM != 0 {
        RegionKind::Sram
    } else if flags & RETRO_MEMDESC_SYSTEM_RAM != 0 {
        RegionKind::Ram
    } else if flags & RETRO_MEMDESC_CONST != 0 {
        RegionKind::Rom
    } else if name_has(name, "SRAM") || name_has(name, "SAVE") || name_has(name, "BATTERY") {
        RegionKind::Sram
    } else if name_has(name, "OAM") || name_has(name, "SPRITE") || name_has(name, "PAL")
        || name_has(name, "NAM") || name_has(name, "NTA") || name_has(name, "VRAM") || name_has(
        name,
        "VIDEO",
    ) || name_has(name, "CHR") || name_has(name, "PPU") {
        RegionKind::Vram
    } else if name_has(name, "ROM") || name_has(name, "PRG") || name_has(name, "CART") {
        RegionKind::Rom
    } else if name_has(name, "WRAM") || name_has(name, "WORK") || name_has(name, "RAM") {
        RegionKind::Ram
    } else {
        RegionKind::Unmapped
    }
}

/// The display name of a region kind.
pub open spec fn kind_name(k: RegionKind) -> &'static str {
    match k {
        RegionKind::Rom => "ROM",
        RegionKind::Ram => "RAM",
        RegionKind::Vram => "VRAM",
        RegionKind::Sram => "SRAM",
        RegionKind::Unmapped => "Unmapped",
    }
}

/// The display color of a region kind.
pub open spec fn kind_color(k: RegionKind) -> (u8, u8, u8) {
    match k {
        RegionKind::Rom => (100, 150, 255),
        RegionKind::Ram => (200, 200, 200),
        RegionKind::Vram => (255, 200, 100),
        RegionKind::Sram => (200, 100, 255),
        RegionKind::Unmapped => (100, 100, 100),
    }
}

impl MemoryRegion {
    /// `emu_addr` lies inside the region's guest address range.
    pub open spec fn contains(&self, emu_addr: int) -> bool {
        self.addr_start <= emu_addr <= self.addr_end
    }

    /// The libretro host-address formula:
    /// `ptr + offset + (emu_addr & !disconnect) - addr_start`.
    pub open spec fn host_addr(&self, emu_addr: usize) -> int {
        self.ptr + self.offset + ((emu_addr & !self.disconnect) - self.addr_start)
    }

    /// The host-address formula stays within machine integers for `emu_addr`.
    pub open spec fn host_addr_fits(&self, emu_addr: usize) -> bool {
        &&& (emu_addr & !self.disconnect) >= self.addr_start
        &&& self.ptr + self.offset <= usize::MAX
        &&& self.host_addr(emu_addr) <= usize::MAX
    }

    /// Where a `len`-byte read at `emu_addr` may be performed, if anywhere.
    pub open spec fn safe_host_addr(&self, emu_addr: usize, len: usize) -> Option<usize> {
        if self.ptr == 0 || self.size == 0 || len == 0 || !self.contains(emu_addr as int) {
            None
        } else {
            let host = self.host_addr(emu_addr);
            let base = self.ptr + self.offset;
            let end = base + self.size;
            if end > usize::MAX || host + len > usize::MAX {
                None
            } else if host < base || host + len > end {
                None
            } else {
                Some(host as usize)
            }
        }
    }

    /// A flat identity-mapped region: guest `base..=base+size-1` maps to host
    /// `ptr..ptr+size-1` (offset, select and disconnect all 0).
    pub fn synth_region(name: String, base: usize, size: usize, ptr: usize, flags: u64) -> (r:
        MemoryRegion)
        requires
            base + (if size == 0 { 0 } else { size - 1 }) <= usize::MAX,
        ensures
            r.name@ == name@,
            r.addr_start == base,
            r.addr_end == base + (if size == 0 { 0 } else { size - 1 }),
            r.size == size,
            r.flags == flags,
            r.ptr == ptr,
            r.offset == 0,
            r.select == 0,
            r.disconnect == 0,
    {
        let last = if size == 0 { 0 } else { size - 1 };
        MemoryRegion {
            name,
            addr_start: base,
            addr_end: base + last,
            size,
            flags,
            ptr,
            offset: 0,
            select: 0,
            disconnect: 0,
        }
    }

    /// Whether the host-address formula stays within machine integers for
    /// `emu_addr`, as it must wherever the region contains it.
    pub fn addr_fits(&self, emu_addr: usize) -> (b: bool)
        ensures
            b == (self.contains(emu_addr as int) ==> self.host_addr_fits(emu_addr)),
    {
        if emu_addr < self.addr_start || emu_addr > self.addr_end {
            return true;
        }
        let masked = emu_addr & !self.disconnect;
        if masked < self.addr_start {
            return false;
        }
        match self.ptr.checked_add(self.offset) {
            None => false,
            Some(base) => base.checked_add(masked - self.addr_start).is_some(),
        }
    }

    /// Host address for an emulated address within this region
    /// (`None` outside the region's guest range).
    pub fn host_ptr_for_addr(&self, emu_addr: usize) -> (r: Option<usize>)
        requires
            self.contains(emu_addr as int) ==> self.host_addr_fits(emu_addr),
        ensures
            r == (if self.contains(emu_addr as int) {
                Some(self.host_addr(emu_addr) as usize)
            } else {
                None::<usize>
            }),
    {
        if emu_addr < self.addr_start || emu_addr > self.addr_end {
            return None;
        }
        Some(self.ptr + self.offset + ((emu_addr & !self.disconnect) - self.addr_start))
    }

    /// Validate that `len` bytes can be read at `emu_addr`, returning the host
    /// address only when the region is backed (non-zero `ptr` and `size`)
    /// and `[host, host + len)` stays within `[ptr+offset, ptr+offset+size)`.
    pub fn safe_host_ptr(&self, emu_addr: usize, len: usize) -> (r: Option<usize>)
        requires
            self.contains(emu_addr as int) ==> self.host_addr_fits(emu_addr),
        ensures
            r == self.safe_host_addr(emu_addr, len),
    {
        if self.ptr == 0 || self.size == 0 || len == 0 {
            return None;
        }
        let host = match self.host_ptr_for_addr(emu_addr) {
            Some(h) => h,
            None => return None,
        };
        let base = match self.ptr.checked_add(self.offset) {
            Some(b) => b,
            None => return None,
        };
        let end = match base.checked_add(self.size) {
            Some(e) => e,
            None => return None,
        };
        let read_end = match host.checked_add(len) {
            Some(e) => e,
            None => return None,
        };
        if host < base || read_end > end {
            return None;
        }
        Some(host)
    }

    /// The region's classification (see [`region_kind`]).
    pub fn kind(&self) -> (k: RegionKind)
        ensures
            k == region_kind(self.flags, self.name@),
    {
        if self.flags & RETRO_MEMDESC_VIDEO_RAM != 0 {
            return RegionKind::Vram;
        }
        if self.flags & RETRO_MEMDESC_SAVE_RAM != 0 {
            return RegionKind::Sram;
        }
        if self.flags & RETRO_MEMDESC_SYSTEM_RAM != 0 {
            return RegionKind::Ram;
        }
        if self.flags & RETRO_MEMDESC_CONST != 0 {
            return RegionKind::Rom;
        }
        let n = self.name.as_str();
        if contains_folded(n, "SRAM", true) || contains_folded(n, "SAVE", true) || contains_folded(
            n,
            "BATTERY",
            true,
        ) {
            return RegionKind::Sram;
        }
        if contains_folded(n, "OAM", true) || contains_folded(n, "SPRITE", true) || contains_folded(
            n,
            "PAL",
            true,
        ) || contains_folded(n, "NAM", true) || contains_folded(n, "NTA", true) || contains_folded(
            n,
            "VRAM",
            true,
        ) || contains_folded(n, "VIDEO", true) || contains_folded(n, "CHR", true)
            || contains_folded(n, "PPU", true) {
            return RegionKind::Vram;
        }
        if contains_folded(n, "ROM", true) || contains_folded(n, "PRG", true) || contains_folded(
            n,
            "CART",
            true,
        ) {
            return RegionKind::Rom;
        }
        if contains_folded(n, "WRAM", true) || contains_folded(n, "WORK", true) || contains_folded(
            n,
            "RAM",
            true,
        ) {
            return RegionKind::Ram;
        }
        RegionKind::Unmapped
    }

    /// Region type as a human-readable string.
    pub fn region_type(&self) -> (s: &'static str)
        ensures
            s == kind_name(region_kind(self.flags, self.name@)),
    {
        match self.kind() {
            RegionKind::Rom => "ROM",
            RegionKind::Ram => "RAM",
            RegionKind::Vram => "VRAM",
            RegionKind::Sram => "SRAM",
            RegionKind::Unmapped => "Unmapped",
        }
    }

    /// Display color for this region's type.
    pub fn color(&self) -> (c: (u8, u8, u8))
        ensures
            c == kind_color(region_kind(self.flags, self.name@)),
    {
        match self.kind() {
            RegionKind::Rom => (100, 150, 255),
            RegionKind::Ram => (200, 200, 200),
            RegionKind::Vram => (255, 200, 100),
            RegionKind::Sram => (200, 100, 255),
            RegionKind::Unmapped => (100, 100, 100),
        }
    }

    /// Whether the region is read-only (ROM).
    pub fn is_readonly(&self) -> (b: bool)
        ensures
            b == (self.flags & RETRO_MEMDESC_CONST != 0),
    {
        self.flags & RETRO_MEMDESC_CONST != 0
    }
}

/// A named window of the emulated 68k bus, snapshotted into an ordinary
/// region once per frame.
#[derive(Clone)]
pub struct BusWindowCfg {
    pub name: String,
    /// Guest bus address of the window's first byte.
    pub addr: u32,
    /// Window length in bytes.
    pub len: u32,
    /// Refresh every N frames (1 = every frame).
    pub interval: u32,
    /// RETRO_MEMDESC_* flags for the synthesized region.
    pub flags: u64,
}

/// Default refresh interval of a bus window: every frame.
pub fn bus_interval_default() -> (n: u32)
    ensures
        n == 1,
{
    1
}

/// Default flags of a bus window: system RAM.
pub fn bus_flags_default() -> (f: u64)
    ensures
        f == RETRO_MEMDESC_SYSTEM_RAM,
{
    RETRO_MEMDESC_SYSTEM_RAM
}

/// The ROM-map system slug a core's library name identifies: only
/// single-system cores are recognized (case-insensitively, by substring).
pub open spec fn system_slug(lib: Seq<char>) -> Option<&'static str> {
    let n = fold_case(lib, false);
    if occurs_in(n, "fceumm"@) || occurs_in(n, "nestopia"@) || occurs_in(n, "mesen"@) || occurs_in(
        n,
        "quicknes"@,
    ) {
        Some("nes")
    } else if occurs_in(n, "genesis plus"@) || occurs_in(n, "genesis_plus"@) || occurs_in(
        n,
        "picodrive"@,
    ) || occurs_in(n, "blastem"@) {
        Some("megadrive")
    } else {
        None
    }
}

/// Infer the ROM-map `system` slug from a libretro core's `library_name`.
/// Multi-system cores (FBNeo, MAME, ...) cannot be pinned and give `None`.
pub fn system_slug_from_library(library_name: &str) -> (r: Option<&'static str>)
    ensures
        r == system_slug(library_name@),
{
    let n = library_name;
    if contains_folded(n, "fceumm", false) || contains_folded(n, "nestopia", false)
        || contains_folded(n, "mesen", false) || contains_folded(n, "quicknes", false) {
        return Some("nes");
    }
    if contains_folded(n, "genesis plus", false) || contains_folded(n, "genesis_plus", false)
        || contains_folded(n, "picodrive", false) || contains_folded(n, "blastem", false) {
        return Some("megadrive");
    }
    None
}


/// The first region at or after `from` whose name equals `name` up to
/// ASCII case.
pub open spec fn first_named(regions: Seq<MemoryRegion>, name: Seq<char>, from: int) -> Option<int>
    decreases regions.len() - from,
{
    if from < 0 || from >= regions.len() {
        None
    } else if fold_case(regions[from].name@, false) == fold_case(name, false) {
        Some(from)
    } else {
        first_named(regions, name, from + 1)
    }
}

/// The index of the first region named `name` (ASCII case ignored), if any.
pub fn region_named(regions: &Vec<MemoryRegion>, name: &str) -> (r: Option<usize>)
    ensures
        match first_named(regions@, name@, 0) {
            Some(i) => r == Some(i as usize),
            None => r is None,
        },
{
    let mut i: usize = 0;
    while i < regions.len()
        invariant
            i <= regions@.len(),
            first_named(regions@, name@, 0) == first_named(regions@, name@, i as int),
        decreases regions@.len() - i,
    {
        if crate::text::eq_ignore_ascii_case(regions[i].name.as_str(), name) {
            return Some(i);
        }
        i += 1;
    }
    None
}

} // verus!
