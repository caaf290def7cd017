//! The debugger's shared state, as far as its logic goes: cross-panel
//! navigation history, injected and held controller input, the rolling
//! change and event logs, region lookup for reads and writes, bus windows,
//! and the RAM-search candidate set.
use vstd::prelude::*;
use std::collections::VecDeque;
use crate::fmt::{dec, push_dec, push_str};
use crate::memory::{
    Bookmark, BusWindowCfg, ChangeEvent, CodeRegion, MemoryRegion, RamSearch, SearchCompare, SearchSize, SearchSource, Watch,
    passes, search_size_len, compare_passes,
};
use crate::video::{channel, decode_to_rgba, frame_fits};

verus! {

/// Shared cross-panel navigation state: a current-location cursor plus a
/// back/forward history (oldest first).
pub struct NavState {
    /// The shared current location (None until the first `goto`).
    pub current_address: Option<u32>,
    /// Visited addresses, oldest first.
    pub history: Vec<u32>,
    /// Index into `history` of the current entry.
    pub history_idx: usize,
    /// One-frame pulse telling address-aware panels to scroll to a location.
    pub pending_focus: Option<u32>,
}

/// The mathematical navigation state.
pub struct NavModel {
    pub current: Option<u32>,
    pub history: Seq<u32>,
    pub idx: int,
    pub pending: Option<u32>,
}

impl NavState {
    pub open spec fn model(&self) -> NavModel {
        NavModel {
            current: self.current_address,
            history: self.history@,
            idx: self.history_idx as int,
            pending: self.pending_focus,
        }
    }

    pub fn new() -> (n: Self)
        ensures
            n.model() == nav_empty(),
    {
        NavState { current_address: None, history: Vec::new(), history_idx: 0, pending_focus: None }
    }
}

pub open spec fn nav_empty() -> NavModel {
    NavModel { current: None, history: Seq::empty(), idx: 0, pending: None }
}

/// The history is either empty or has its cursor on an entry, and the
/// current location is that entry.
pub open spec fn nav_wf(n: NavModel) -> bool {
    if n.history.len() == 0 {
        n.idx == 0 && n.current is None
    } else {
        0 <= n.idx < n.history.len() && n.current == Some(n.history[n.idx])
    }
}

pub open spec fn can_back(n: NavModel) -> bool {
    n.history.len() != 0 && n.idx > 0
}

pub open spec fn can_forward(n: NavModel) -> bool {
    n.history.len() != 0 && n.idx + 1 < n.history.len()
}

/// Jump to `addr`: forward entries are discarded, `addr` becomes the newest
/// entry and the current location, and panels are asked to focus it.
pub open spec fn nav_goto(n: NavModel, addr: u32) -> NavModel {
    let kept = if n.history.len() != 0 && n.idx + 1 < n.history.len() {
        n.history.take(n.idx + 1)
    } else {
        n.history
    };
    NavModel {
        current: Some(addr),
        history: kept.push(addr),
        idx: kept.len() as int,
        pending: Some(addr),
    }
}

/// Step the cursor by `delta` and focus the entry it lands on.
pub open spec fn nav_move(n: NavModel, delta: int) -> NavModel {
    let i = n.idx + delta;
    NavModel { current: Some(n.history[i]), history: n.history, idx: i, pending: Some(n.history[i]) }
}

pub open spec fn nav_back(n: NavModel) -> NavModel {
    if can_back(n) { nav_move(n, -1) } else { n }
}

pub open spec fn nav_forward(n: NavModel) -> NavModel {
    if can_forward(n) { nav_move(n, 1) } else { n }
}

/// A navigation step keeps the history well formed.
pub proof fn lemma_nav_steps_keep_wf(n: NavModel, addr: u32)
    requires
        nav_wf(n),
    ensures
        nav_wf(nav_goto(n, addr)),
        nav_wf(nav_back(n)),
        nav_wf(nav_forward(n)),
{
}

/// Going back and then forward returns to the same location and history,
/// and so does going forward and then back.
pub proof fn lemma_back_then_forward_restores(n: NavModel)
    requires
        nav_wf(n),
    ensures
        can_back(n) ==> nav_forward(nav_back(n)).current == n.current && nav_forward(
            nav_back(n),
        ).history == n.history && nav_forward(nav_back(n)).idx == n.idx,
        can_forward(n) ==> nav_back(nav_forward(n)).current == n.current && nav_back(
            nav_forward(n),
        ).history == n.history && nav_back(nav_forward(n)).idx == n.idx,
{
}

/// After a jump there is nothing to go forward to, and going back returns
/// to where the jump was made from (when there was a location before).
pub proof fn lemma_goto_then_back(n: NavModel, addr: u32)
    requires
        nav_wf(n),
    ensures
        !can_forward(nav_goto(n, addr)),
        n.history.len() != 0 ==> can_back(nav_goto(n, addr)) && nav_back(nav_goto(n, addr)).current
            == n.current,
        nav_goto(n, addr).current == Some(addr),
{
    let kept = if n.history.len() != 0 && n.idx + 1 < n.history.len() {
        n.history.take(n.idx + 1)
    } else {
        n.history
    };
    if n.history.len() != 0 {
        assert(kept.push(addr)[kept.len() - 1] == n.history[n.idx]);
    }
}

/// Maximum number of change events retained in the change log.
pub const CHANGE_LOG_CAP: usize = 200;
/// Maximum number of entries retained in the event log.
pub const EVENT_LOG_CAP: usize = 500;
/// Frames of input history retained.
pub const INPUT_HISTORY_CAP: usize = 120;

/// Append to a bounded log: the oldest entry falls off when the log is full.
pub open spec fn bounded_push<T>(log: Seq<T>, cap: nat, x: T) -> Seq<T> {
    if log.len() >= cap { log.drop_first().push(x) } else { log.push(x) }
}

/// Folded controller state for one port: a button is asserted while its
/// countdown is still running or while it is held.
pub open spec fn folded(countdown: Seq<u16>, held: Seq<bool>) -> Seq<bool> {
    Seq::new(12, |i: int| countdown[i] > 0 || held[i])
}

/// The countdowns after one fold: each running countdown ticks down once.
pub open spec fn ticked(countdown: Seq<u16>) -> Seq<u16> {
    Seq::new(12, |i: int| if countdown[i] > 0 { (countdown[i] - 1) as u16 } else { 0u16 })
}

/// The countdowns after `k` folds.
pub open spec fn ticks(countdown: Seq<u16>, k: nat) -> Seq<u16>
    decreases k,
{
    if k == 0 {
        countdown
    } else {
        ticked(ticks(countdown, (k - 1) as nat))
    }
}

proof fn lemma_ticks_value(countdown: Seq<u16>, k: nat)
    requires
        countdown.len() == 12,
    ensures
        ticks(countdown, k).len() == 12,
        forall|i: int| 0 <= i < 12 ==> #[trigger] ticks(countdown, k)[i] == (if countdown[i] > k {
            countdown[i] - k
        } else {
            0
        }),
    decreases k,
{
    if k > 0 {
        lemma_ticks_value(countdown, (k - 1) as nat);
    }
}

/// Held buttons outlast the countdowns: once `k` folds have run every
/// countdown out, a fold asserts exactly the held set.
pub proof fn lemma_held_outlasts_countdowns(countdown: Seq<u16>, held: Seq<bool>, k: nat)
    requires
        countdown.len() == 12,
        held.len() == 12,
        forall|i: int| 0 <= i < 12 ==> countdown[i] <= k,
    ensures
        folded(ticks(countdown, k), held) == held,
{
    lemma_ticks_value(countdown, k);
    assert(folded(ticks(countdown, k), held) =~= held);
}

/// The held set after releasing the buttons `only` names (those below 12),
/// or every button when `only` is `None`.
pub open spec fn released(held: Seq<bool>, only: Option<Seq<usize>>) -> Seq<bool> {
    match only {
        Some(idxs) => Seq::new(12, |i: int| held[i] && !idxs.contains(i as usize)),
        None => Seq::new(12, |_i: int| false),
    }
}

/// Releasing buttons releases every one named: each index listed (below
/// 12), wherever it appears in the list, is no longer held; buttons not
/// listed keep their state; releasing with no list releases all twelve.
pub proof fn lemma_release_clears_every_named_button(held: Seq<bool>, idxs: Seq<usize>)
    requires
        held.len() == 12,
    ensures
        released(held, Some(idxs)).len() == 12,
        forall|t: int| 0 <= t < idxs.len() && idxs[t] < 12 ==> !released(held, Some(idxs))[#[trigger] idxs[t] as int],
        forall|k: int| 0 <= k < 12 && !idxs.contains(k as usize) ==> #[trigger] released(held, Some(idxs))[k] == held[k],
        forall|k: int| 0 <= k < 12 ==> !#[trigger] released(held, None)[k],
{
    assert forall|t: int| 0 <= t < idxs.len() && idxs[t] < 12 implies !released(held, Some(idxs))[#[trigger] idxs[t] as int] by {
        assert(idxs.contains(idxs[t]));
        assert((idxs[t] as int) as usize == idxs[t]);
    }
}

/// The debugger state the panels and the emulation loop share.
pub struct DebugState {
    /// Accessible memory regions.
    pub memory_regions: Vec<MemoryRegion>,
    /// Installed bus windows; only ever appended.
    pub bus_windows: Vec<BusWindowCfg>,
    /// Bus-window writes queued for the emulation thread: (guest address,
    /// little-endian bytes).
    pub pending_bus_writes: Vec<(u32, Vec<u8>)>,
    pub frame_count: u64,
    pub input_state: [bool; 12],
    pub input_state2: [bool; 12],
    pub input_history: VecDeque<(u64, [bool; 12])>,
    pub event_log: VecDeque<String>,
    pub paused: bool,
    pub step_one: bool,
    /// Per-button countdowns of injected presses, port 0 and port 1.
    pub injected_input: [u16; 12],
    pub injected_input2: [u16; 12],
    /// Buttons held until released, port 0 and port 1.
    pub held_input: [bool; 12],
    pub held_input2: [bool; 12],
    pub breakpoints: Vec<u32>,
    pub hit_breakpoint: Option<u32>,
    pub run_to_addr: Option<u32>,
    pub trigger_frame: Option<u64>,
    pub trigger_pixel: Option<(u32, u32)>,
    pub watches: Vec<Watch>,
    pub ram_search: RamSearch,
    pub change_log: VecDeque<ChangeEvent>,
    pub nav: NavState,
    pub state_note: Option<String>,
    pub rom_name: Option<String>,
    pub rom_system: Option<String>,
    pub rom_bytes: Option<Vec<u8>>,
    pub input_descriptors: [[Option<String>; 12]; 2],
    /// The last frame as the core delivered it, and its geometry and format.
    pub framebuffer: Vec<u8>,
    pub fb_width: u32,
    pub fb_height: u32,
    pub fb_pitch: usize,
    pub fb_fmt: u32,
    /// The last frame decoded to packed RGBA8888.
    pub fb_rgba: Vec<u8>,
    /// Bumped on every delivered frame, so viewers know when to re-slice.
    pub fb_generation: u64,
    /// Frames the core actually delivered.
    pub video_real: u64,
    /// The 68K program counter, and the code bytes cached at `m68k_code_start`.
    pub m68k_pc: u32,
    pub m68k_code_bytes: Vec<u8>,
    pub m68k_code_start: u32,
    /// The Z80 program counter (0 when the core has none).
    pub z80_pc: u16,
    /// User-labeled code ranges and bookmarks.
    pub code_regions: Vec<CodeRegion>,
    pub bookmarks: Vec<Bookmark>,
}

/// Reads and writes move at most four bytes.
pub open spec fn capped(len: usize) -> usize {
    if len < 4 { len } else { 4 }
}

/// Whether the host-address arithmetic of every region containing `addr`
/// stays within machine integers.
pub open spec fn regions_addressable(regions: Seq<MemoryRegion>, addr: usize) -> bool {
    forall|k: int| 0 <= k < regions.len() ==> (#[trigger] regions[k]).contains(addr as int)
        ==> regions[k].host_addr_fits(addr)
}

/// The host address a `len`-byte read at `addr` goes to: the first region
/// (in list order) that contains `addr` and can be safely read there.
pub open spec fn read_target(regions: Seq<MemoryRegion>, addr: usize, len: usize) -> Option<usize>
    decreases regions.len(),
{
    if regions.len() == 0 {
        None
    } else {
        let r = regions[0];
        if r.contains(addr as int) && r.safe_host_addr(addr, len) is Some {
            r.safe_host_addr(addr, len)
        } else {
            read_target(regions.drop_first(), addr, len)
        }
    }
}

/// The region index a `len`-byte write at `addr` goes to, if any: the first
/// region containing `addr` that is readable there, unless a read-only region
/// containing `addr` comes first.
pub open spec fn write_region(regions: Seq<MemoryRegion>, addr: usize, len: usize, from: int) -> Option<int>
    decreases regions.len() - from,
{
    if from >= regions.len() || from < 0 {
        None
    } else {
        let r = regions[from];
        if !r.contains(addr as int) {
            write_region(regions, addr, len, from + 1)
        } else if r.flags & 1 != 0 {
            None
        } else if r.safe_host_addr(addr, len) is Some {
            Some(from)
        } else {
            write_region(regions, addr, len, from + 1)
        }
    }
}

/// The little-endian value of `bytes` (at most four).
pub open spec fn le_value(bytes: Seq<u8>) -> nat
    decreases bytes.len(),
{
    if bytes.len() == 0 {
        0
    } else {
        (bytes[0] + 256 * le_value(bytes.drop_first())) as nat
    }
}

/// The low `len` bytes of `value`, least significant first.
pub open spec fn le_bytes(value: u32, len: nat) -> Seq<u8> {
    Seq::new(len, |k: int| ((value >> ((8 * k) as u32)) & 0xFF) as u8)
}

/// Where a write lands is where a read of the same address and length
/// looks first.
proof fn lemma_write_target_is_read_target(regions: Seq<MemoryRegion>, addr: usize, len: usize, from: int, k: int)
    requires
        0 <= from <= regions.len(),
        write_region(regions, addr, len, from) == Some(k),
    ensures
        0 <= k < regions.len(),
        read_target(regions.skip(from), addr, len) == regions[k].safe_host_addr(addr, len),
        regions[k].safe_host_addr(addr, len) is Some,
    decreases regions.len() - from,
{
    let rest = regions.skip(from);
    assert(rest[0] == regions[from]);
    assert(rest.drop_first() =~= regions.skip(from + 1));
    let r = regions[from];
    if !r.contains(addr as int) {
        lemma_write_target_is_read_target(regions, addr, len, from + 1, k);
    } else if r.safe_host_addr(addr, len) is Some {
        assert(k == from);
    } else {
        lemma_write_target_is_read_target(regions, addr, len, from + 1, k);
    }
}

/// The bytes a write stores read back as the value written, cut to their
/// width.
proof fn lemma_le_round_trip(value: u32, n: nat)
    requires
        n <= 4,
    ensures
        le_value(le_bytes(value, n)) == value as nat % pow256(n),
{
    reveal_with_fuel(pow256, 5);
    let b = le_bytes(value, n);
    let b0 = #[verifier::truncate] ((value & 0xFF) as u8);
    let b1 = #[verifier::truncate] (((value >> 8u32) & 0xFF) as u8);
    let b2 = #[verifier::truncate] (((value >> 16u32) & 0xFF) as u8);
    let b3 = #[verifier::truncate] (((value >> 24u32) & 0xFF) as u8);
    assert(value >> 0u32 == value) by (bit_vector);
    if n >= 1 { assert(b[0] == b0); }
    if n >= 2 { assert(b[1] == b1); }
    if n >= 3 { assert(b[2] == b2); }
    if n >= 4 { assert(b[3] == b3); }
    let t1 = b.drop_first();
    let t2 = t1.drop_first();
    let t3 = t2.drop_first();
    assert(pow256(1) == 256 && pow256(2) == 65536 && pow256(3) == 16777216 && pow256(4) == 0x1_0000_0000);
    if n == 0 {
        assert(le_value(b) == 0);
    } else if n == 1 {
        assert(le_value(t1) == 0);
        assert(le_value(b) == b0 + 256 * le_value(t1));
        assert(b0 as nat == value as nat % 256) by (bit_vector)
            requires b0 == (value & 0xFF) as u8;
    } else if n == 2 {
        assert(t1[0] == b1);
        assert(le_value(t2) == 0);
        assert(le_value(t1) == b1 + 256 * le_value(t2));
        assert(le_value(b) == b0 + 256 * le_value(t1));
        assert(b0 + 256 * b1 == value as nat % 65536) by (bit_vector)
            requires b0 == (value & 0xFF) as u8, b1 == ((value >> 8u32) & 0xFF) as u8;
    } else if n == 3 {
        assert(t1[0] == b1);
        assert(t2[0] == b2);
        assert(le_value(t3) == 0);
        assert(le_value(t2) == b2 + 256 * le_value(t3));
        assert(le_value(t1) == b1 + 256 * le_value(t2));
        assert(le_value(b) == b0 + 256 * le_value(t1));
        assert(b0 + 256 * (b1 + 256 * b2) == value as nat % 16777216) by (bit_vector)
            requires
                b0 == (value & 0xFF) as u8,
                b1 == ((value >> 8u32) & 0xFF) as u8,
                b2 == ((value >> 16u32) & 0xFF) as u8,
        ;
    } else {
        let t4 = t3.drop_first();
        assert(t1[0] == b1);
        assert(t2[0] == b2);
        assert(t3[0] == b3);
        assert(le_value(t4) == 0);
        assert(le_value(t3) == b3 + 256 * le_value(t4));
        assert(le_value(t2) == b2 + 256 * le_value(t3));
        assert(le_value(t1) == b1 + 256 * le_value(t2));
        assert(le_value(b) == b0 + 256 * le_value(t1));
        assert(b0 + 256 * (b1 + 256 * (b2 + 256 * b3)) == value as nat % 0x1_0000_0000) by (bit_vector)
            requires
                b0 == (value & 0xFF) as u8,
                b1 == ((value >> 8u32) & 0xFF) as u8,
                b2 == ((value >> 16u32) & 0xFF) as u8,
                b3 == ((value >> 24u32) & 0xFF) as u8,
        ;
    }
}

/// A read after a write of the same address and width goes to the host
/// address the write went to, and the bytes the write stored read back as
/// the value written, cut to that width.
pub proof fn lemma_read_after_write(regions: Seq<MemoryRegion>, addr: usize, len: usize, value: u32)
    requires
        write_region(regions, addr, capped(len), 0) is Some,
    ensures
        ({
            let k = write_region(regions, addr, capped(len), 0)->0;
            &&& read_target(regions, addr, capped(len)) == regions[k].safe_host_addr(addr, capped(len))
            &&& le_value(le_bytes(value, capped(len) as nat)) == value as nat % pow256(capped(len) as nat)
        }),
{
    let k = write_region(regions, addr, capped(len), 0)->0;
    lemma_write_target_is_read_target(regions, addr, capped(len), 0, k);
    assert(regions.skip(0) =~= regions);
    lemma_le_round_trip(value, capped(len) as nat);
}

/// The value read from `bytes` (at most four) as a little-endian number.
pub fn read_le_bytes(bytes: &[u8]) -> (v: u32)
    requires
        bytes@.len() <= 4,
    ensures
        v as nat == le_value(bytes@),
{
    let mut v: u32 = 0;
    let n = bytes.len();
    let mut i: usize = n;
    while i > 0
        invariant
            n == bytes@.len(),
            n <= 4,
            i <= n,
            v as nat == le_value(bytes@.subrange(i as int, n as int)),
            v < pow256((n - i) as nat),
        decreases i,
    {
        i -= 1;
        proof {
            assert(bytes@.subrange(i as int, n as int).drop_first() =~= bytes@.subrange(
                i + 1,
                n as int,
            ));
            assert(pow256((n - i) as nat) == 256 * pow256((n - i - 1) as nat));
            assert(v * 256 + bytes@[i as int] < pow256((n - i) as nat)) by (nonlinear_arith)
                requires
                    v < pow256((n - i - 1) as nat),
                    pow256((n - i) as nat) == 256 * pow256((n - i - 1) as nat),
                    bytes@[i as int] < 256;
            assert(pow256((n - i) as nat) <= 0x1_0000_0000) by {
                lemma_pow256_bound((n - i) as nat);
            }
        }
        v = v * 256 + bytes[i] as u32;
    }
    proof {
        assert(bytes@.subrange(0, n as int) =~= bytes@);
    }
    v
}

pub open spec fn pow256(k: nat) -> nat
    decreases k,
{
    if k == 0 { 1 } else { 256 * pow256((k - 1) as nat) }
}

proof fn lemma_pow256_bound(k: nat)
    requires
        k <= 4,
    ensures
        pow256(k) <= 0x1_0000_0000,
{
    reveal_with_fuel(pow256, 5);
}

/// The low `len` bytes of `value`, least significant first.
pub fn value_le_bytes(value: u32, len: usize) -> (b: Vec<u8>)
    requires
        len <= 4,
    ensures
        b@ == le_bytes(value, len as nat),
{
    let mut b: Vec<u8> = Vec::new();
    let mut k: usize = 0;
    while k < len
        invariant
            k <= len,
            len <= 4,
            b@ == le_bytes(value, k as nat),
        decreases len - k,
    {
        let byte = ((value >> (8 * k as u32)) & 0xFF) as u8;
        b.push(byte);
        k += 1;
        assert(b@ =~= le_bytes(value, k as nat));
    }
    b
}

impl DebugState {
    pub fn new() -> (s: Self)
        ensures
            s.nav.model() == nav_empty(),
            s.memory_regions@.len() == 0,
            s.bus_windows@.len() == 0,
            s.pending_bus_writes@.len() == 0,
            s.frame_count == 0,
            s.event_log@.len() == 0,
            s.change_log@.len() == 0,
            s.input_history@.len() == 0,
            s.injected_input@ == Seq::new(12, |_i: int| 0u16),
            s.injected_input2@ == Seq::new(12, |_i: int| 0u16),
            s.held_input@ == Seq::new(12, |_i: int| false),
            s.held_input2@ == Seq::new(12, |_i: int| false),
            !s.ram_search.started,
            !s.paused,
            s.fb_generation == 0,
            s.fb_rgba@.len() == 0,
            s.m68k_code_bytes@.len() == 0,
            s.code_regions@.len() == 0,
            s.bookmarks@.len() == 0,
            s.breakpoints@.len() == 0,
            s.hit_breakpoint is None,
            s.run_to_addr is None,
            s.input_state@ == Seq::new(12, |_i: int| false),
            s.input_state2@ == Seq::new(12, |_i: int| false),
            !s.step_one,
            s.trigger_frame is None,
            s.trigger_pixel is None,
            s.watches@.len() == 0,
            s.ram_search.region_idx == 0,
            s.ram_search.size == SearchSize::U8,
            !s.ram_search.signed,
            !s.ram_search.hex,
            s.ram_search.candidates@.len() == 0,
            s.ram_search.prev_values@.len() == 0,
            s.state_note is None,
            s.rom_name is None,
            s.rom_system is None,
            s.rom_bytes is None,
            forall|p: int, i: int| 0 <= p < 2 && 0 <= i < 12 ==> (#[trigger] s.input_descriptors@[p]@[i]) is None,
            s.framebuffer@.len() == 0,
            s.fb_width == 0,
            s.fb_height == 0,
            s.fb_pitch == 0,
            s.fb_fmt == 0,
            s.video_real == 0,
            s.m68k_pc == 0,
            s.m68k_code_start == 0,
            s.z80_pc == 0,
    {
        let s = DebugState {
            memory_regions: Vec::new(),
            bus_windows: Vec::new(),
            pending_bus_writes: Vec::new(),
            frame_count: 0,
            input_state: [false; 12],
            input_state2: [false; 12],
            input_history: VecDeque::new(),
            event_log: VecDeque::new(),
            paused: false,
            step_one: false,
            injected_input: [0; 12],
            injected_input2: [0; 12],
            held_input: [false; 12],
            held_input2: [false; 12],
            breakpoints: Vec::new(),
            hit_breakpoint: None,
            run_to_addr: None,
            trigger_frame: None,
            trigger_pixel: None,
            watches: Vec::new(),
            ram_search: RamSearch::new(),
            change_log: VecDeque::new(),
            nav: NavState::new(),
            state_note: None,
            rom_name: None,
            rom_system: None,
            rom_bytes: None,
            input_descriptors: [[None, None, None, None, None, None, None, None, None, None, None, None], [None, None, None, None, None, None, None, None, None, None, None, None]],
            framebuffer: Vec::new(),
            fb_width: 0,
            fb_height: 0,
            fb_pitch: 0,
            fb_fmt: 0,
            fb_rgba: Vec::new(),
            fb_generation: 0,
            video_real: 0,
            m68k_pc: 0,
            m68k_code_bytes: Vec::new(),
            m68k_code_start: 0,
            z80_pc: 0,
            code_regions: Vec::new(),
            bookmarks: Vec::new(),
        };
        assert(s.injected_input@ =~= Seq::new(12, |_i: int| 0u16));
        assert(s.injected_input2@ =~= Seq::new(12, |_i: int| 0u16));
        assert(s.held_input@ =~= Seq::new(12, |_i: int| false));
        assert(s.held_input2@ =~= Seq::new(12, |_i: int| false));
        assert(s.input_state@ =~= Seq::new(12, |_i: int| false));
        assert(s.input_state2@ =~= Seq::new(12, |_i: int| false));
        s
    }

    /// The entry point for changing the shared current location: sets the
    /// cursor, discards forward history, records `addr` and arms the focus.
    pub fn goto(&mut self, addr: u32)
        requires
            old(self).nav.history@.len() != 0 ==> old(self).nav.history_idx < usize::MAX,
        ensures
            final(self).nav.model() == nav_goto(old(self).nav.model(), addr),
            nav_wf(final(self).nav.model()),
            *final(self) == (DebugState { nav: final(self).nav, ..*old(self) }),
    {
        let ghost before = self.nav.model();
        self.nav.current_address = Some(addr);
        if self.nav.history.len() != 0 && self.nav.history_idx + 1 < self.nav.history.len() {
            self.nav.history.truncate(self.nav.history_idx + 1);
        }
        self.nav.history.push(addr);
        self.nav.history_idx = self.nav.history.len() - 1;
        self.nav.pending_focus = Some(addr);
        assert(self.nav.model().history =~= nav_goto(before, addr).history);
    }

    /// Move one step back in history; true if it moved.
    pub fn nav_back(&mut self) -> (moved: bool)
        requires
            nav_wf(old(self).nav.model()),
        ensures
            moved == can_back(old(self).nav.model()),
            final(self).nav.model() == nav_back(old(self).nav.model()),
            nav_wf(final(self).nav.model()),
            *final(self) == (DebugState { nav: final(self).nav,  ..*old(self) }),
    {
        if !self.can_go_back() {
            return false;
        }
        self.nav.history_idx -= 1;
        let addr = self.nav.history[self.nav.history_idx];
        self.nav.current_address = Some(addr);
        self.nav.pending_focus = Some(addr);
        true
    }

    /// Move one step forward in history; true if it moved.
    pub fn nav_forward(&mut self) -> (moved: bool)
        requires
            nav_wf(old(self).nav.model()),
        ensures
            moved == can_forward(old(self).nav.model()),
            final(self).nav.model() == nav_forward(old(self).nav.model()),
            nav_wf(final(self).nav.model()),
            *final(self) == (DebugState { nav: final(self).nav,  ..*old(self) }),
    {
        if !self.can_go_forward() {
            return false;
        }
        let _n = self.nav.history.len();
        self.nav.history_idx += 1;
        let addr = self.nav.history[self.nav.history_idx];
        self.nav.current_address = Some(addr);
        self.nav.pending_focus = Some(addr);
        true
    }

    /// True if there is an earlier entry in history.
    pub fn can_go_back(&self) -> (b: bool)
        ensures
            b == can_back(self.nav.model()),
    {
        self.nav.history.len() != 0 && self.nav.history_idx > 0
    }

    /// True if there is a later entry in history.
    pub fn can_go_forward(&self) -> (b: bool)
        ensures
            b == can_forward(self.nav.model()),
    {
        self.nav.history.len() != 0 && self.nav.history_idx < self.nav.history.len() - 1
    }

    /// Push a change event to the rolling log, keeping the newest
    /// [`CHANGE_LOG_CAP`] events.
    pub fn push_change(&mut self, ev: ChangeEvent)
        ensures
            final(self).change_log@ == bounded_push(old(self).change_log@, CHANGE_LOG_CAP as nat, ev),
            *final(self) == (DebugState { change_log: final(self).change_log,  ..*old(self) }),
    {
        if self.change_log.len() >= CHANGE_LOG_CAP {
            self.change_log.pop_front();
        }
        self.change_log.push_back(ev);
        assert(self.change_log@ =~= bounded_push(old(self).change_log@, CHANGE_LOG_CAP as nat, ev));
    }

    /// Push `"[frame] msg"` to the rolling event log, keeping the newest
    /// [`EVENT_LOG_CAP`] entries.
    pub fn log(&mut self, msg: String)
        ensures
            final(self).event_log@.len() == bounded_push(old(self).event_log@, EVENT_LOG_CAP as nat, msg).len(),
            final(self).event_log@.last()@ == "["@ + dec(old(self).frame_count as nat) + "] "@ + msg@,
            forall|k: int| 0 <= k < final(self).event_log@.len() - 1 ==> #[trigger] final(self).event_log@[k]
                == bounded_push(old(self).event_log@, EVENT_LOG_CAP as nat, msg)[k],
            *final(self) == (DebugState { event_log: final(self).event_log,  ..*old(self) }),
    {
        if self.event_log.len() >= EVENT_LOG_CAP {
            self.event_log.pop_front();
        }
        let mut line = String::new();
        push_str(&mut line, "[");
        push_dec(&mut line, self.frame_count);
        push_str(&mut line, "] ");
        push_str(&mut line, msg.as_str());
        self.event_log.push_back(line);
    }

    /// Store a delivered frame: the raw bytes, its geometry and format, and
    /// its RGBA decoding; the frame generation and delivered-frame count
    /// each go up by one.
    pub fn update_frame(&mut self, data: &[u8], width: u32, height: u32, pitch: usize, fmt: u32)
        requires
            frame_fits(data@.len() as int, width as int, height as int, pitch as int, fmt),
            width * height * 4 <= usize::MAX,
            old(self).fb_generation < u64::MAX,
            old(self).video_real < u64::MAX,
        ensures
            final(self).framebuffer@ == data@,
            final(self).fb_width == width,
            final(self).fb_height == height,
            final(self).fb_pitch == pitch,
            final(self).fb_fmt == fmt,
            final(self).fb_rgba@.len() == width * height * 4,
            forall|y: int, x: int, c: int|
                0 <= y < height && 0 <= x < width && 0 <= c < 4 ==> #[trigger] final(self).fb_rgba@[(y
                    * width + x) * 4 + c] == channel(data@, pitch as int, fmt, x, y, c),
            final(self).fb_generation == old(self).fb_generation + 1,
            final(self).video_real == old(self).video_real + 1,
            final(self).memory_regions@ == old(self).memory_regions@,
            final(self).frame_count == old(self).frame_count,
            *final(self) == (DebugState { framebuffer: final(self).framebuffer, fb_width: final(self).fb_width, fb_height: final(self).fb_height, fb_pitch: final(self).fb_pitch, fb_fmt: final(self).fb_fmt, fb_rgba: final(self).fb_rgba, fb_generation: final(self).fb_generation, video_real: final(self).video_real,  ..*old(self) }),
    {
        self.framebuffer = vstd::slice::slice_to_vec(data);
        self.fb_width = width;
        self.fb_height = height;
        self.fb_pitch = pitch;
        self.fb_fmt = fmt;
        self.fb_rgba = decode_to_rgba(data, width, height, pitch, fmt);
        self.fb_generation = self.fb_generation + 1;
        self.video_real = self.video_real + 1;
    }

    /// Record this frame's controller state in the input history (keeping
    /// the newest [`INPUT_HISTORY_CAP`] frames) and as the current state.
    pub fn push_input(&mut self, state: [bool; 12], frame: u64)
        ensures
            final(self).input_history@ == bounded_push(old(self).input_history@, INPUT_HISTORY_CAP as nat, (frame, state)),
            final(self).input_state == state,
            *final(self) == (DebugState { input_history: final(self).input_history, input_state: final(self).input_state,  ..*old(self) }),
    {
        if self.input_history.len() >= INPUT_HISTORY_CAP {
            self.input_history.pop_front();
        }
        self.input_history.push_back((frame, state));
        self.input_state = state;
        assert(self.input_history@ =~= bounded_push(old(self).input_history@, INPUT_HISTORY_CAP as nat, (frame, state)));
    }

    /// Fold port 0's injected input for this frame: each running countdown
    /// asserts its button and ticks down once; held buttons are asserted and
    /// never decremented.
    pub fn take_injected_input(&mut self) -> (out: [bool; 12])
        ensures
            out@ == folded(old(self).injected_input@, old(self).held_input@),
            final(self).injected_input@ == ticked(old(self).injected_input@),
            final(self).held_input == old(self).held_input,
            final(self).injected_input2 == old(self).injected_input2,
            final(self).held_input2 == old(self).held_input2,
            *final(self) == (DebugState { injected_input: final(self).injected_input,  ..*old(self) }),
    {
        let (out, next) = fold_port(&self.injected_input, &self.held_input);
        self.injected_input = next;
        out
    }

    /// Port 1's counterpart of [`take_injected_input`](Self::take_injected_input).
    pub fn take_injected_input2(&mut self) -> (out: [bool; 12])
        ensures
            out@ == folded(old(self).injected_input2@, old(self).held_input2@),
            final(self).injected_input2@ == ticked(old(self).injected_input2@),
            final(self).held_input2 == old(self).held_input2,
            final(self).injected_input == old(self).injected_input,
            final(self).held_input == old(self).held_input,
            *final(self) == (DebugState { injected_input2: final(self).injected_input2,  ..*old(self) }),
    {
        let (out, next) = fold_port(&self.injected_input2, &self.held_input2);
        self.injected_input2 = next;
        out
    }

    /// What the next fold of `port` (1 selects port 1, anything else port 0)
    /// would assert, without consuming anything.
    pub fn peek_injected_input(&self, port: usize) -> (out: [bool; 12])
        ensures
            out@ == (if port == 1 {
                folded(self.injected_input2@, self.held_input2@)
            } else {
                folded(self.injected_input@, self.held_input@)
            }),
    {
        let (countdown, held) = if port == 1 {
            (&self.injected_input2, &self.held_input2)
        } else {
            (&self.injected_input, &self.held_input)
        };
        let (out, _next) = fold_port(countdown, held);
        out
    }

    /// Replace the held set of `port` (1 selects port 1, else port 0).
    pub fn set_held_input(&mut self, port: usize, bits: [bool; 12])
        ensures
            port == 1 ==> final(self).held_input2 == bits && final(self).held_input == old(self).held_input,
            port != 1 ==> final(self).held_input == bits && final(self).held_input2 == old(self).held_input2,
            final(self).injected_input == old(self).injected_input,
            final(self).injected_input2 == old(self).injected_input2,
            *final(self) == (DebugState { held_input: final(self).held_input, held_input2: final(self).held_input2,  ..*old(self) }),
    {
        if port == 1 {
            self.held_input2 = bits;
        } else {
            self.held_input = bits;
        }
    }

    /// Release buttons from `port`'s held set: those at `only`'s indices
    /// (indices of 12 or more are ignored), or all of them for `None`.
    pub fn clear_held_input(&mut self, port: usize, only: Option<&[usize]>)
        ensures
            port == 1 ==> final(self).held_input2@ == released(old(self).held_input2@, match only {
                Some(o) => Some(o@),
                None => None,
            }) && final(self).held_input == old(self).held_input,
            port != 1 ==> final(self).held_input@ == released(old(self).held_input@, match only {
                Some(o) => Some(o@),
                None => None,
            }) && final(self).held_input2 == old(self).held_input2,
            final(self).injected_input == old(self).injected_input,
            final(self).injected_input2 == old(self).injected_input2,
            *final(self) == (DebugState { held_input: final(self).held_input, held_input2: final(self).held_input2,  ..*old(self) }),
    {
        if port == 1 {
            self.held_input2 = release(&self.held_input2, only);
        } else {
            self.held_input = release(&self.held_input, only);
        }
    }

    /// Whether any region came from somewhere other than a bus window.
    pub fn has_non_bus_regions(&self) -> (b: bool)
        ensures
            b == exists|k: int|
                0 <= k < self.memory_regions@.len() && !is_bus_name(
                    self.bus_windows@,
                    (#[trigger] self.memory_regions@[k]).name@,
                ),
    {
        let mut i: usize = 0;
        while i < self.memory_regions.len()
            invariant
                i <= self.memory_regions@.len(),
                forall|k: int| 0 <= k < i ==> is_bus_name(self.bus_windows@, (#[trigger] self.memory_regions@[k]).name@),
            decreases self.memory_regions@.len() - i,
        {
            if !bus_name_taken(&self.bus_windows, self.memory_regions[i].name.as_str()) {
                return true;
            }
            i += 1;
        }
        false
    }

    /// Register a bus window whose snapshot buffer of `cfg.len` bytes lives at
    /// host address `buffer`: refused (false) for an empty window or a name
    /// any region already has; otherwise a region over the buffer is
    /// published at the window's guest address.
    pub fn install_bus_window(&mut self, cfg: BusWindowCfg, buffer: usize) -> (ok: bool)
        requires
            cfg.addr + cfg.len <= usize::MAX + 1,
        ensures
            ok == (cfg.len != 0 && !exists|k: int|
                0 <= k < old(self).memory_regions@.len() && (#[trigger] old(self).memory_regions@[k]).name@ == cfg.name@),
            ok ==> final(self).bus_windows@.len() == old(self).bus_windows@.len() + 1
                && final(self).bus_windows@.last() == cfg
                && final(self).memory_regions@.len() == old(self).memory_regions@.len() + 1
                && final(self).memory_regions@.last().name@ == cfg.name@
                && final(self).memory_regions@.last().addr_start == cfg.addr
                && final(self).memory_regions@.last().addr_end == cfg.addr + cfg.len - 1
                && final(self).memory_regions@.last().size == cfg.len
                && final(self).memory_regions@.last().ptr == buffer
                && final(self).memory_regions@.last().offset == 0
                && final(self).memory_regions@.last().select == 0
                && final(self).memory_regions@.last().disconnect == 0
                && final(self).memory_regions@.last().flags == cfg.flags
                && final(self).memory_regions@.drop_last() == old(self).memory_regions@
                && final(self).bus_windows@.drop_last() == old(self).bus_windows@,
            !ok ==> final(self).memory_regions@ == old(self).memory_regions@ && final(self).bus_windows@
                == old(self).bus_windows@,
    {
        if cfg.len == 0 {
            return false;
        }
        let mut i: usize = 0;
        while i < self.memory_regions.len()
            invariant
                i <= self.memory_regions@.len(),
                forall|k: int| 0 <= k < i ==> (#[trigger] self.memory_regions@[k]).name@ != cfg.name@,
            decreases self.memory_regions@.len() - i,
        {
            if str_eq(self.memory_regions[i].name.as_str(), cfg.name.as_str()) {
                return false;
            }
            i += 1;
        }
        let region = MemoryRegion::synth_region(
            clone_string(&cfg.name),
            cfg.addr as usize,
            cfg.len as usize,
            buffer,
            cfg.flags,
        );
        self.memory_regions.push(region);
        self.bus_windows.push(cfg);
        proof {
            assert(self.memory_regions@.drop_last() =~= old(self).memory_regions@);
            assert(self.bus_windows@.drop_last() =~= old(self).bus_windows@);
        }
        true
    }

    /// Whether every region containing `addr` maps it within machine
    /// integers (reads and writes there are defined).
    pub fn addressable(&self, addr: usize) -> (b: bool)
        ensures
            b == regions_addressable(self.memory_regions@, addr),
    {
        let mut i: usize = 0;
        while i < self.memory_regions.len()
            invariant
                i <= self.memory_regions@.len(),
                forall|k: int| 0 <= k < i ==> (#[trigger] self.memory_regions@[k]).contains(addr as int)
                    ==> self.memory_regions@[k].host_addr_fits(addr),
            decreases self.memory_regions@.len() - i,
        {
            if !self.memory_regions[i].addr_fits(addr) {
                return false;
            }
            i += 1;
        }
        true
    }

    /// Host address for a `len`-byte read at `addr` (`len` capped at 4),
    /// from the first region that contains `addr` and backs the read.
    pub fn read_host_addr(&self, addr: usize, len: usize) -> (r: Option<usize>)
        requires
            regions_addressable(self.memory_regions@, addr),
        ensures
            r == read_target(self.memory_regions@, addr, capped(len)),
    {
        let n: usize = if len < 4 { len } else { 4 };
        assert(n == capped(len));
        let mut i: usize = 0;
        assert(self.memory_regions@.skip(0) =~= self.memory_regions@);
        while i < self.memory_regions.len()
            invariant
                i <= self.memory_regions@.len(),
                n == capped(len),
                regions_addressable(self.memory_regions@, addr),
                read_target(self.memory_regions@, addr, n) == read_target(self.memory_regions@.skip(i as int), addr, n),
            decreases self.memory_regions@.len() - i,
        {
            let ghost rest = self.memory_regions@.skip(i as int);
            proof {
                assert(rest[0] == self.memory_regions@[i as int]);
                assert(rest.drop_first() =~= self.memory_regions@.skip(i + 1));
            }
            let region = &self.memory_regions[i];
            assert(region.contains(addr as int) ==> region.host_addr_fits(addr));
            assert(read_target(rest, addr, n) == (if rest[0].contains(addr as int) && rest[0].safe_host_addr(addr, n) is Some {
                rest[0].safe_host_addr(addr, n)
            } else {
                read_target(rest.drop_first(), addr, n)
            }));
            if region.host_ptr_for_addr(addr).is_some() {
                if let Some(p) = region.safe_host_ptr(addr, n) {
                    assert(rest[0].safe_host_addr(addr, n) == Some(p));
                    assert(read_target(rest, addr, n) == Some(p));
                    assert(read_target(self.memory_regions@, addr, n) == Some(p));
                    return Some(p);
                }
            }
            i += 1;
        }
        proof {
            assert(self.memory_regions@.skip(i as int).len() == 0);
        }
        None
    }

    /// Where a `len`-byte write at `addr` (`len` capped at 4) goes: the host
    /// address and whether the region is a bus window; `None` when no region
    /// backs it or a read-only region containing `addr` comes first.
    pub fn write_host_addr(&self, addr: usize, len: usize) -> (r: Option<(usize, bool)>)
        requires
            regions_addressable(self.memory_regions@, addr),
        ensures
            match write_region(self.memory_regions@, addr, capped(len), 0) {
                Some(k) => r matches Some((p, bus)) && Some(p) == self.memory_regions@[k].safe_host_addr(
                    addr,
                    capped(len),
                ) && bus == is_bus_name(self.bus_windows@, self.memory_regions@[k].name@),
                None => r is None,
            },
    {
        let n: usize = if len < 4 { len } else { 4 };
        assert(n == capped(len));
        let mut i: usize = 0;
        while i < self.memory_regions.len()
            invariant
                i <= self.memory_regions@.len(),
                n == capped(len),
                regions_addressable(self.memory_regions@, addr),
                write_region(self.memory_regions@, addr, n, 0) == write_region(self.memory_regions@, addr, n, i as int),
            decreases self.memory_regions@.len() - i,
        {
            let region = &self.memory_regions[i];
            assert(region.contains(addr as int) ==> region.host_addr_fits(addr));
            if region.host_ptr_for_addr(addr).is_some() {
                if region.is_readonly() {
                    assert(write_region(self.memory_regions@, addr, n, i as int) == None::<int>);
                    return None;
                }
                if let Some(p) = region.safe_host_ptr(addr, n) {
                    let bus = bus_name_taken(&self.bus_windows, region.name.as_str());
                    assert(write_region(self.memory_regions@, addr, n, i as int) == Some(i as int));
                    return Some((p, bus));
                }
            }
            assert(write_region(self.memory_regions@, addr, n, i as int) == write_region(self.memory_regions@, addr, n, i + 1));
            i += 1;
        }
        None
    }

    /// Queue a bus-window write of the low `len` bytes of `value` (`len`
    /// capped at 4, least significant first) at guest address `addr`.
    pub fn queue_bus_write(&mut self, addr: usize, len: usize, value: u32)
        ensures
            final(self).pending_bus_writes@.len() == old(self).pending_bus_writes@.len() + 1,
            final(self).pending_bus_writes@.drop_last() == old(self).pending_bus_writes@,
            final(self).pending_bus_writes@.last().0 == addr as u32,
            final(self).pending_bus_writes@.last().1@ == le_bytes(value, if len < 4 { len as nat } else { 4 }),
            final(self).memory_regions@ == old(self).memory_regions@,
            final(self).bus_windows@ == old(self).bus_windows@,
            *final(self) == (DebugState { pending_bus_writes: final(self).pending_bus_writes,  ..*old(self) }),
    {
        let len = if len < 4 { len } else { 4 };
        let bytes = value_le_bytes(value, len);
        self.pending_bus_writes.push((addr as u32, bytes));
        assert(self.pending_bus_writes@.drop_last() =~= old(self).pending_bus_writes@);
    }

    /// Resolve a write of the low `len` bytes of `value` (`len` capped at 4,
    /// least significant first) at guest address `addr`: the host address to
    /// store those bytes at, and the bytes; `None` when no region backs the
    /// write or a read-only region containing `addr` comes first. A write
    /// into a bus window is also queued for the live bus, since the window's
    /// snapshot is refreshed every frame.
    pub fn write_addr(&mut self, addr: usize, len: usize, value: u32) -> (r: Option<(usize, Vec<u8>)>)
        requires
            regions_addressable(old(self).memory_regions@, addr),
        ensures
            final(self).memory_regions@ == old(self).memory_regions@,
            final(self).bus_windows@ == old(self).bus_windows@,
            match write_region(old(self).memory_regions@, addr, capped(len), 0) {
                Some(k) => {
                    &&& r matches Some((p, bytes)) && Some(p) == old(self).memory_regions@[k].safe_host_addr(
                        addr,
                        capped(len),
                    ) && bytes@ == le_bytes(value, capped(len) as nat)
                    &&& if is_bus_name(old(self).bus_windows@, old(self).memory_regions@[k].name@) {
                        &&& final(self).pending_bus_writes@.len() == old(self).pending_bus_writes@.len() + 1
                        &&& final(self).pending_bus_writes@.drop_last() == old(self).pending_bus_writes@
                        &&& final(self).pending_bus_writes@.last().0 == addr as u32
                        &&& final(self).pending_bus_writes@.last().1@ == le_bytes(value, capped(len) as nat)
                    } else {
                        final(self).pending_bus_writes@ == old(self).pending_bus_writes@
                    }
                },
                None => r is None && final(self).pending_bus_writes@ == old(self).pending_bus_writes@,
            },
            *final(self) == (DebugState { pending_bus_writes: final(self).pending_bus_writes,  ..*old(self) }),
    {
        match self.write_host_addr(addr, len) {
            None => None,
            Some((p, bus)) => {
                if bus {
                    self.queue_bus_write(addr, len, value);
                }
                let n: usize = if len < 4 { len } else { 4 };
                Some((p, value_le_bytes(value, n)))
            },
        }
    }

    /// The aligned candidate addresses of the selected search region:
    /// every `stride`-aligned offset from its start whose value fits before
    /// its inclusive end. Empty when the selected region does not exist.
    pub fn search_addresses(&self) -> (addrs: Vec<usize>)
        requires
            self.ram_search.region_idx < self.memory_regions@.len() ==> self.memory_regions@[self.ram_search.region_idx as int].addr_end < usize::MAX,
        ensures
            self.ram_search.region_idx < self.memory_regions@.len() ==> addrs@ == aligned_addresses(
                self.memory_regions@[self.ram_search.region_idx as int].addr_start as int,
                self.memory_regions@[self.ram_search.region_idx as int].addr_end as int + 1,
                search_size_len(self.ram_search.size) as int,
            ),
            self.ram_search.region_idx >= self.memory_regions@.len() ==> addrs@.len() == 0,
    {
        let stride = self.ram_search.size.byte_len();
        let mut out: Vec<usize> = Vec::new();
        if self.ram_search.region_idx < self.memory_regions.len() {
            let region = &self.memory_regions[self.ram_search.region_idx];
            let start = region.addr_start;
            let limit = region.addr_end + 1;
            let ghost aligned = aligned_addresses(start as int, limit as int, stride as int);
            let mut addr = start;
            let mut k: usize = 0;
            while addr <= limit && stride <= limit - addr
                invariant
                    1 <= stride <= 4,
                    addr == start + k * stride,
                    start <= limit ==> addr <= limit,
                    start > limit ==> k == 0,
                    aligned == aligned_addresses(start as int, limit as int, stride as int),
                    out@.len() == k,
                    forall|j: int| 0 <= j < k ==> #[trigger] out@[j] == (start + j * stride) as usize,
                decreases limit + stride - addr,
            {
                proof {
                    assert(k <= k * stride && start + (k + 1) * stride == start + k * stride + stride) by (nonlinear_arith)
                        requires stride >= 1;
                }
                out.push(addr);
                addr += stride;
                k += 1;
            }
            proof {
                if start <= limit {
                    assert(addr <= limit);
                    assert(limit - addr < stride);
                    assert(k * stride == addr - start);
                    lemma_div_unique((limit - start) as int, k as int, stride as int);
                    assert(aligned.len() == k);
                } else {
                    assert(k == 0);
                    assert(aligned.len() == 0);
                }
                assert(aligned.len() == out@.len());
                assert forall|j: int| 0 <= j < k implies out@[j] == aligned[j] by {}
                assert(out@ =~= aligned);
            }
        }
        out
    }

    /// Start a search over the selected region: `values[k]` is what reading
    /// the `k`-th address of [`search_addresses`](Self::search_addresses)
    /// gave (`None` when unreadable); the readable ones become the
    /// candidates with their values as the first checkpoint.
    pub fn reset_search(&mut self, addrs: &Vec<usize>, values: &Vec<Option<u32>>)
        requires
            addrs@.len() == values@.len(),
        ensures
            final(self).ram_search.started,
            final(self).ram_search.candidates@ == kept_addrs(addrs@, values@),
            final(self).ram_search.prev_values@ == kept_values(values@),
            final(self).ram_search.size == old(self).ram_search.size,
            final(self).ram_search.signed == old(self).ram_search.signed,
            final(self).ram_search.region_idx == old(self).ram_search.region_idx,
            *final(self) == (DebugState { ram_search: RamSearch { candidates: final(self).ram_search.candidates, prev_values: final(self).ram_search.prev_values, started: true, ..old(self).ram_search }, ..*old(self) }),
    {
        let mut cands: Vec<usize> = Vec::new();
        let mut prev: Vec<u32> = Vec::new();
        let mut i: usize = 0;
        while i < addrs.len()
            invariant
                addrs@.len() == values@.len(),
                i <= addrs@.len(),
                cands@ == kept_addrs(addrs@.take(i as int), values@.take(i as int)),
                prev@ == kept_values(values@.take(i as int)),
            decreases addrs@.len() - i,
        {
            proof {
                assert(addrs@.take(i + 1).drop_last() =~= addrs@.take(i as int));
                assert(values@.take(i + 1).drop_last() =~= values@.take(i as int));
            }
            if let Some(v) = values[i] {
                cands.push(addrs[i]);
                prev.push(v);
            }
            i += 1;
        }
        proof {
            assert(addrs@.take(addrs@.len() as int) =~= addrs@);
            assert(values@.take(values@.len() as int) =~= values@);
        }
        self.ram_search.candidates = cands;
        self.ram_search.prev_values = prev;
        self.ram_search.started = true;
    }

    /// One search step: `cur[k]` is the fresh read of candidate `k`
    /// (`None` when unreadable, which drops it). A candidate survives when
    /// [`passes`] holds against its previous checkpoint (for the relative
    /// operators, or the previous-snapshot source) or against the specific
    /// value; survivors' checkpoints become the fresh reads. Nothing happens
    /// before the search is started or when the selected region is gone.
    pub fn step_search(&mut self, compare: SearchCompare, source: SearchSource, cur: &Vec<Option<u32>>)
        requires
            old(self).ram_search.candidates@.len() == old(self).ram_search.prev_values@.len(),
            old(self).ram_search.started && old(self).ram_search.region_idx < old(self).memory_regions@.len()
                ==> cur@.len() == old(self).ram_search.candidates@.len(),
        ensures
            !(old(self).ram_search.started && old(self).ram_search.region_idx < old(self).memory_regions@.len())
                ==> final(self).ram_search == old(self).ram_search,
            old(self).ram_search.started && old(self).ram_search.region_idx < old(self).memory_regions@.len() ==> {
                let (c, p) = survivors(
                    old(self).ram_search.candidates@,
                    old(self).ram_search.prev_values@,
                    cur@,
                    compare,
                    source,
                    old(self).ram_search.signed,
                    (search_size_len(old(self).ram_search.size) * 8) as u32,
                );
                &&& final(self).ram_search.candidates@ == c
                &&& final(self).ram_search.prev_values@ == p
                &&& final(self).ram_search.started
                &&& final(self).ram_search.size == old(self).ram_search.size
                &&& final(self).ram_search.signed == old(self).ram_search.signed
                &&& final(self).ram_search.region_idx == old(self).ram_search.region_idx
            },
            final(self).memory_regions@ == old(self).memory_regions@,
            *final(self) == (DebugState { ram_search: RamSearch { candidates: final(self).ram_search.candidates, prev_values: final(self).ram_search.prev_values, ..old(self).ram_search }, ..*old(self) }),
    {
        if !self.ram_search.started || self.ram_search.region_idx >= self.memory_regions.len() {
            return;
        }
        let len = self.ram_search.size.byte_len();
        let bits = (len * 8) as u32;
        let signed = self.ram_search.signed;
        let (c, p) = filter_candidates(
            &self.ram_search.candidates,
            &self.ram_search.prev_values,
            cur,
            compare,
            source,
            signed,
            bits,
        );
        self.ram_search.candidates = c;
        self.ram_search.prev_values = p;
    }
}

/// `start`, `start + stride`, ... for every value that fits before `limit`.
pub open spec fn aligned_addresses(start: int, limit: int, stride: int) -> Seq<usize> {
    let n = if limit >= start { (limit - start) / stride } else { 0 };
    Seq::new(n as nat, |k: int| (start + k * stride) as usize)
}

proof fn lemma_div_unique(d: int, k: int, s: int)
    requires
        s > 0,
        k >= 0,
        k * s <= d < k * s + s,
    ensures
        d / s == k,
{
    assert(d / s == k) by (nonlinear_arith)
        requires s > 0, k >= 0, k * s <= d < k * s + s;
}

/// Addresses whose read succeeded.
pub open spec fn kept_addrs(addrs: Seq<usize>, values: Seq<Option<u32>>) -> Seq<usize>
    decreases addrs.len(),
{
    if addrs.len() == 0 || values.len() == 0 {
        Seq::empty()
    } else {
        let rest = kept_addrs(addrs.drop_last(), values.drop_last());
        if values.last() is Some { rest.push(addrs.last()) } else { rest }
    }
}

/// Values of the reads that succeeded.
pub open spec fn kept_values(values: Seq<Option<u32>>) -> Seq<u32>
    decreases values.len(),
{
    if values.len() == 0 {
        Seq::empty()
    } else {
        let rest = kept_values(values.drop_last());
        match values.last() {
            Some(v) => rest.push(v),
            None => rest,
        }
    }
}

/// The right-hand side a candidate is compared against.
pub open spec fn step_rhs(prev: u32, compare: SearchCompare, source: SearchSource) -> u32 {
    match compare {
        SearchCompare::Changed | SearchCompare::Unchanged | SearchCompare::Increased
        | SearchCompare::Decreased => prev,
        _ => match source {
            SearchSource::PreviousSnapshot => prev,
            SearchSource::SpecificValue(v) => v,
        },
    }
}

/// The candidates (and their fresh values) that pass a search step.
pub open spec fn survivors(
    cands: Seq<usize>,
    prev: Seq<u32>,
    cur: Seq<Option<u32>>,
    compare: SearchCompare,
    source: SearchSource,
    signed: bool,
    bits: u32,
) -> (Seq<usize>, Seq<u32>)
    decreases cands.len(),
{
    if cands.len() == 0 || prev.len() == 0 || cur.len() == 0 {
        (Seq::empty(), Seq::empty())
    } else {
        let (c, p) = survivors(cands.drop_last(), prev.drop_last(), cur.drop_last(), compare, source, signed, bits);
        match cur.last() {
            Some(v) => if passes(v, step_rhs(prev.last(), compare, source), compare, signed, bits) {
                (c.push(cands.last()), p.push(v))
            } else {
                (c, p)
            },
            None => (c, p),
        }
    }
}

/// Whether `compare` compares against the search's source (not always
/// against the previous checkpoint).
pub open spec fn compares_to_source(compare: SearchCompare) -> bool {
    compare is Equal || compare is NotEqual || compare is Less || compare is Greater || compare is DifferentBy
}

/// The relative comparisons ("changed", "unchanged", "increased",
/// "decreased") always compare with each candidate's previous checkpoint:
/// which source the step names makes no difference.
pub proof fn lemma_relative_steps_ignore_source(
    cands: Seq<usize>,
    prev: Seq<u32>,
    cur: Seq<Option<u32>>,
    compare: SearchCompare,
    src1: SearchSource,
    src2: SearchSource,
    signed: bool,
    bits: u32,
)
    requires
        !compares_to_source(compare),
    ensures
        survivors(cands, prev, cur, compare, src1, signed, bits) == survivors(cands, prev, cur, compare, src2, signed, bits),
    decreases cands.len(),
{
    if cands.len() > 0 && prev.len() > 0 && cur.len() > 0 {
        lemma_relative_steps_ignore_source(cands.drop_last(), prev.drop_last(), cur.drop_last(), compare, src1, src2, signed, bits);
        assert(step_rhs(prev.last(), compare, src1) == prev.last());
        assert(step_rhs(prev.last(), compare, src2) == prev.last());
    }
}

/// A step against a specific value compares each fresh read with that
/// value: which candidates survive does not depend on their previous
/// checkpoints, and every surviving read passes the comparison against the
/// value itself (for "equal", is the value).
pub proof fn lemma_specific_value_steps_ignore_checkpoints(
    cands: Seq<usize>,
    prev1: Seq<u32>,
    prev2: Seq<u32>,
    cur: Seq<Option<u32>>,
    compare: SearchCompare,
    x: u32,
    signed: bool,
    bits: u32,
)
    requires
        compares_to_source(compare),
        cands.len() == prev1.len(),
        cands.len() == prev2.len(),
        cands.len() == cur.len(),
    ensures
        survivors(cands, prev1, cur, compare, SearchSource::SpecificValue(x), signed, bits) == survivors(
            cands,
            prev2,
            cur,
            compare,
            SearchSource::SpecificValue(x),
            signed,
            bits,
        ),
        forall|k: int|
            0 <= k < survivors(cands, prev1, cur, compare, SearchSource::SpecificValue(x), signed, bits).1.len()
                ==> passes(
                #[trigger] survivors(cands, prev1, cur, compare, SearchSource::SpecificValue(x), signed, bits).1[k],
                x,
                compare,
                signed,
                bits,
            ),
        compare is Equal ==> forall|k: int|
            0 <= k < survivors(cands, prev1, cur, compare, SearchSource::SpecificValue(x), signed, bits).1.len()
                ==> #[trigger] survivors(cands, prev1, cur, compare, SearchSource::SpecificValue(x), signed, bits).1[k]
                == x,
    decreases cands.len(),
{
    let src = SearchSource::SpecificValue(x);
    if cands.len() > 0 {
        lemma_specific_value_steps_ignore_checkpoints(
            cands.drop_last(),
            prev1.drop_last(),
            prev2.drop_last(),
            cur.drop_last(),
            compare,
            x,
            signed,
            bits,
        );
        assert(step_rhs(prev1.last(), compare, src) == x);
        assert(step_rhs(prev2.last(), compare, src) == x);
        let (c, p) = survivors(cands.drop_last(), prev1.drop_last(), cur.drop_last(), compare, src, signed, bits);
        let s1 = survivors(cands, prev1, cur, compare, src, signed, bits);
        assert forall|k: int| 0 <= k < s1.1.len() implies passes(#[trigger] s1.1[k], x, compare, signed, bits) by {
            if k < p.len() {
                assert(s1.1[k] == p[k]);
            }
        }
    }
}

/// A search step narrows: every survivor was a candidate, and survivors
/// keep their relative order.
pub proof fn lemma_survivors_narrow(
    cands: Seq<usize>,
    prev: Seq<u32>,
    cur: Seq<Option<u32>>,
    compare: SearchCompare,
    source: SearchSource,
    signed: bool,
    bits: u32,
)
    requires
        cands.len() == prev.len(),
        cands.len() == cur.len(),
    ensures
        survivors(cands, prev, cur, compare, source, signed, bits).0.len() <= cands.len(),
        survivors(cands, prev, cur, compare, source, signed, bits).0.len()
            == survivors(cands, prev, cur, compare, source, signed, bits).1.len(),
        forall|k: int| 0 <= k < survivors(cands, prev, cur, compare, source, signed, bits).0.len()
            ==> cands.contains(#[trigger] survivors(cands, prev, cur, compare, source, signed, bits).0[k]),
    decreases cands.len(),
{
    if cands.len() > 0 {
        lemma_survivors_narrow(cands.drop_last(), prev.drop_last(), cur.drop_last(), compare, source, signed, bits);
        let (c, p) = survivors(cands.drop_last(), prev.drop_last(), cur.drop_last(), compare, source, signed, bits);
        let s = survivors(cands, prev, cur, compare, source, signed, bits).0;
        assert forall|k: int| 0 <= k < s.len() implies cands.contains(#[trigger] s[k]) by {
            if k < c.len() {
                assert(s[k] == c[k]);
                assert(cands.drop_last().contains(c[k]));
                let j = choose|j: int| 0 <= j < cands.drop_last().len() && #[trigger] cands.drop_last()[j] == c[k];
                assert(cands[j] == c[k]);
            } else {
                assert(s[k] == cands.last());
                assert(cands[cands.len() - 1] == cands.last());
            }
        }
    }
}

fn filter_candidates(
    cands: &Vec<usize>,
    prev: &Vec<u32>,
    cur: &Vec<Option<u32>>,
    compare: SearchCompare,
    source: SearchSource,
    signed: bool,
    bits: u32,
) -> (r: (Vec<usize>, Vec<u32>))
    requires
        cands@.len() == prev@.len(),
        cands@.len() == cur@.len(),
        bits >= 8,
    ensures
        (r.0@, r.1@) == survivors(cands@, prev@, cur@, compare, source, signed, bits),
{
    let mut c: Vec<usize> = Vec::new();
    let mut p: Vec<u32> = Vec::new();
    let mut i: usize = 0;
    while i < cands.len()
        invariant
            cands@.len() == prev@.len(),
            cands@.len() == cur@.len(),
            bits >= 8,
            i <= cands@.len(),
            (c@, p@) == survivors(cands@.take(i as int), prev@.take(i as int), cur@.take(i as int), compare, source, signed, bits),
        decreases cands@.len() - i,
    {
        proof {
            assert(cands@.take(i + 1).drop_last() =~= cands@.take(i as int));
            assert(prev@.take(i + 1).drop_last() =~= prev@.take(i as int));
            assert(cur@.take(i + 1).drop_last() =~= cur@.take(i as int));
        }
        if let Some(v) = cur[i] {
            let rhs = match compare {
                SearchCompare::Changed | SearchCompare::Unchanged | SearchCompare::Increased
                | SearchCompare::Decreased => prev[i],
                _ => match source {
                    SearchSource::PreviousSnapshot => prev[i],
                    SearchSource::SpecificValue(x) => x,
                },
            };
            if compare_passes(v, rhs, compare, signed, bits) {
                c.push(cands[i]);
                p.push(v);
            }
        }
        i += 1;
    }
    proof {
        assert(cands@.take(cands@.len() as int) =~= cands@);
        assert(prev@.take(prev@.len() as int) =~= prev@);
        assert(cur@.take(cur@.len() as int) =~= cur@);
    }
    (c, p)
}

/// Some bus window carries this name.
pub open spec fn is_bus_name(windows: Seq<BusWindowCfg>, name: Seq<char>) -> bool {
    exists|k: int| 0 <= k < windows.len() && (#[trigger] windows[k]).name@ == name
}

fn bus_name_taken(windows: &Vec<BusWindowCfg>, name: &str) -> (b: bool)
    ensures
        b == is_bus_name(windows@, name@),
{
    let mut i: usize = 0;
    while i < windows.len()
        invariant
            i <= windows@.len(),
            forall|k: int| 0 <= k < i ==> (#[trigger] windows@[k]).name@ != name@,
        decreases windows@.len() - i,
    {
        if str_eq(windows[i].name.as_str(), name) {
            return true;
        }
        i += 1;
    }
    false
}

/// Whether two strings hold the same characters.
pub fn str_eq(a: &str, b: &str) -> (r: bool)
    ensures
        r == (a@ == b@),
{
    let n = a.unicode_len();
    if n != b.unicode_len() {
        return false;
    }
    let mut i: usize = 0;
    while i < n
        invariant
            n == a@.len(),
            n == b@.len(),
            i <= n,
            forall|k: int| 0 <= k < i ==> a@[k] == b@[k],
        decreases n - i,
    {
        if a.get_char(i) != b.get_char(i) {
            return false;
        }
        i += 1;
    }
    assert(a@ =~= b@);
    true
}

/// A copy of a string.
pub fn clone_string(s: &String) -> (c: String)
    ensures
        c@ == s@,
{
    s.clone()
}

fn fold_port(countdown: &[u16; 12], held: &[bool; 12]) -> (r: ([bool; 12], [u16; 12]))
    ensures
        r.0@ == folded(countdown@, held@),
        r.1@ == ticked(countdown@),
{
    let mut out = [false; 12];
    let mut next = *countdown;
    let mut i: usize = 0;
    while i < 12
        invariant
            i <= 12,
            out@.len() == 12,
            next@.len() == 12,
            forall|k: int| 0 <= k < i ==> out@[k] == (countdown@[k] > 0 || held@[k]),
            forall|k: int| 0 <= k < i ==> next@[k] == (if countdown@[k] > 0 { (countdown@[k] - 1) as u16 } else { 0u16 }),
            forall|k: int| i <= k < 12 ==> next@[k] == countdown@[k],
            forall|k: int| i <= k < 12 ==> !out@[k],
        decreases 12 - i,
    {
        if countdown[i] > 0 {
            out[i] = true;
            next[i] = countdown[i] - 1;
        }
        out[i] = out[i] || held[i];
        i += 1;
    }
    assert(out@ =~= folded(countdown@, held@));
    assert(next@ =~= ticked(countdown@));
    (out, next)
}

fn release(held: &[bool; 12], only: Option<&[usize]>) -> (r: [bool; 12])
    ensures
        r@ == released(held@, match only {
            Some(o) => Some(o@),
            None => None,
        }),
{
    match only {
        Some(idxs) => {
            let mut arr = *held;
            let mut j: usize = 0;
            while j < idxs.len()
                invariant
                    j <= idxs@.len(),
                    arr@.len() == 12,
                    forall|k: int| 0 <= k < 12 ==> arr@[k] == (held@[k] && !idxs@.take(j as int).contains(k as usize)),
                decreases idxs@.len() - j,
            {
                let i = idxs[j];
                if i < 12 {
                    arr[i] = false;
                }
                proof {
                    assert forall|k: int| 0 <= k < 12 implies arr@[k] == (held@[k] && !idxs@.take(j + 1).contains(k as usize)) by {
                        if idxs@.take(j + 1).contains(k as usize) && !idxs@.take(j as int).contains(k as usize) {
                            let t = choose|t: int| 0 <= t < j + 1 && #[trigger] idxs@.take(j + 1)[t] == k as usize;
                            if t < j {
                                assert(idxs@.take(j as int)[t] == k as usize);
                            }
                        }
                        if idxs@.take(j as int).contains(k as usize) {
                            let t = choose|t: int| 0 <= t < j && #[trigger] idxs@.take(j as int)[t] == k as usize;
                            assert(idxs@.take(j + 1)[t] == k as usize);
                        }
                        if k as usize == i {
                            assert(idxs@.take(j + 1)[j as int] == i);
                        }
                    }
                }
                j += 1;
            }
            proof {
                assert(idxs@.take(idxs@.len() as int) =~= idxs@);
            }
            assert(arr@ =~= released(held@, Some(idxs@)));
            arr
        },
        None => {
            let arr = [false; 12];
            assert(arr@ =~= released(held@, None));
            arr
        },
    }
}

} // verus!
