//! The smaller debug panels: the dock's tab identities, the CPU, log,
//! trigger, input, save-state, script, signal-hunt, controls and frame-lab
//! panels' state and the decisions and texts they show.
use vstd::prelude::*;
use std::collections::VecDeque;
use std::path::PathBuf;
use crate::fmt::{dec, dec_signed, pad_left, push_char, push_dec, push_dec_signed, push_str};
use crate::input_log::RETRO_NAMES;
use crate::parse::{parse_digits, parse_unsigned, parse_unsigned_in, trim, trim_bounds};
use crate::text::{contains_str, occurs_in, starts_with_str};
use crate::training::age_text;

verus! {

// ── dock tabs ────────────────────────────────────────────────────────────

/// Identity of a dockable tab.
#[derive(Clone, Copy, PartialEq, Eq, Debug, Hash, Structural)]
pub enum Tab {
    FrameInspector,
    HexDump,
    TileViewer,
    InputMonitor,
    FrameLog,
    Triggers,
    CpuState,
    Audio,
    Disasm,
    Regions,
    Watch,
    RamSearch,
    VdpRegisters,
    Help,
}

pub open spec fn tab_title(t: Tab) -> Seq<char> {
    match t {
        Tab::FrameInspector => "\u{1f5bc} Frame"@,
        Tab::HexDump => "\u{1f4cb} Hex"@,
        Tab::TileViewer => "\u{1f9e9} Tiles"@,
        Tab::InputMonitor => "\u{1f579} Input"@,
        Tab::FrameLog => "\u{1f9fe} Log"@,
        Tab::Triggers => "\u{23f8} Triggers"@,
        Tab::CpuState => "\u{1f527} CPU"@,
        Tab::Audio => "\u{1f50a} Audio"@,
        Tab::Disasm => "\u{1f4dc} Disasm"@,
        Tab::Regions => "\u{1f5fa} Regions"@,
        Tab::Watch => "\u{1f441} Watch"@,
        Tab::RamSearch => "\u{1f50d} Search"@,
        Tab::VdpRegisters => "\u{1f4fa} VDP"@,
        Tab::Help => "\u{2753} Help"@,
    }
}

impl Tab {
    /// The tab's caption.
    pub fn title(self) -> (s: &'static str)
        ensures
            s@ == tab_title(self),
    {
        match self {
            Tab::FrameInspector => "\u{1f5bc} Frame",
            Tab::HexDump => "\u{1f4cb} Hex",
            Tab::TileViewer => "\u{1f9e9} Tiles",
            Tab::InputMonitor => "\u{1f579} Input",
            Tab::FrameLog => "\u{1f9fe} Log",
            Tab::Triggers => "\u{23f8} Triggers",
            Tab::CpuState => "\u{1f527} CPU",
            Tab::Audio => "\u{1f50a} Audio",
            Tab::Disasm => "\u{1f4dc} Disasm",
            Tab::Regions => "\u{1f5fa} Regions",
            Tab::Watch => "\u{1f441} Watch",
            Tab::RamSearch => "\u{1f50d} Search",
            Tab::VdpRegisters => "\u{1f4fa} VDP",
            Tab::Help => "\u{2753} Help",
        }
    }
}

// ── CPU state ────────────────────────────────────────────────────────────

/// CPU register panel (stateless).
pub struct CpuState;

/// The 68000 status register's fields: trace, supervisor, master, interrupt
/// mask; then extend, negative, zero, overflow, carry.
pub open spec fn sr_fields(sr: u32) -> (u32, u32, u32, u32, u32, u32, u32, u32, u32) {
    ((sr >> 15u32) & 1, (sr >> 13u32) & 1, (sr >> 12u32) & 1, (sr >> 8u32) & 7, (sr >> 4u32) & 1, (sr >> 3u32) & 1,
        (sr >> 2u32) & 1, (sr >> 1u32) & 1, sr & 1)
}

impl CpuState {
    pub fn new() -> (c: Self) {
        CpuState
    }

    /// The two status-register flag lines.
    pub fn sr_flag_lines(sr: u32) -> (r: (String, String))
        ensures
            ({
                let f = sr_fields(sr);
                r.0@ == "T:"@ + dec(f.0 as nat) + "  S:"@ + dec(f.1 as nat) + "  M:"@ + dec(f.2 as nat) + "  I:"@
                    + dec(f.3 as nat)
                && r.1@ == "X:"@ + dec(f.4 as nat) + "  N:"@ + dec(f.5 as nat) + "  Z:"@ + dec(f.6 as nat) + "  V:"@
                    + dec(f.7 as nat) + "  C:"@ + dec(f.8 as nat)
            }),
    {
        let mut a = String::new();
        push_str(&mut a, "T:");
        push_dec(&mut a, ((sr >> 15) & 1) as u64);
        push_str(&mut a, "  S:");
        push_dec(&mut a, ((sr >> 13) & 1) as u64);
        push_str(&mut a, "  M:");
        push_dec(&mut a, ((sr >> 12) & 1) as u64);
        push_str(&mut a, "  I:");
        push_dec(&mut a, ((sr >> 8) & 0x7) as u64);
        let mut b = String::new();
        push_str(&mut b, "X:");
        push_dec(&mut b, ((sr >> 4) & 1) as u64);
        push_str(&mut b, "  N:");
        push_dec(&mut b, ((sr >> 3) & 1) as u64);
        push_str(&mut b, "  Z:");
        push_dec(&mut b, ((sr >> 2) & 1) as u64);
        push_str(&mut b, "  V:");
        push_dec(&mut b, ((sr >> 1) & 1) as u64);
        push_str(&mut b, "  C:");
        push_dec(&mut b, (sr & 1) as u64);
        let ghost f = sr_fields(sr);
        assert(a@ =~= "T:"@ + dec(f.0 as nat) + "  S:"@ + dec(f.1 as nat) + "  M:"@ + dec(f.2 as nat) + "  I:"@
            + dec(f.3 as nat));
        assert(b@ =~= "X:"@ + dec(f.4 as nat) + "  N:"@ + dec(f.5 as nat) + "  Z:"@ + dec(f.6 as nat) + "  V:"@
            + dec(f.7 as nat) + "  C:"@ + dec(f.8 as nat));
        (a, b)
    }
}

// ── event log ────────────────────────────────────────────────────────────

/// What `str::to_lowercase` gives for a text: Unicode lower-casing, a
/// function of the text alone.
pub uninterp spec fn lowercase(s: Seq<char>) -> Seq<char>;

/// `str::to_lowercase`. The contract names the result (Unicode lower-case
/// mapping, as the standard library defines it) without restating it.
#[verifier::external_body]
pub(crate) fn to_lowercase(s: &str) -> (r: String)
    ensures
        r@ == lowercase(s@),
{
    s.to_lowercase()
}

/// Event-log panel state.
pub struct FrameLog {
    pub filter: String,
    pub auto_scroll: bool,
}

/// Whether an entry passes a filter: an empty filter passes everything,
/// otherwise the lower-cased filter must occur in the lower-cased entry.
pub open spec fn passes_filter(entry: Seq<char>, filter: Seq<char>) -> bool {
    lowercase(filter).len() == 0 || occurs_in(lowercase(entry), lowercase(filter))
}

/// How an entry is tinted.
#[derive(Clone, Copy, PartialEq, Eq, Debug, Structural)]
pub enum LogTone {
    Error,
    Warn,
    Av,
    Plain,
}

pub open spec fn log_tone_spec(e: Seq<char>) -> LogTone {
    if occurs_in(e, "ERR"@) || occurs_in(e, "error"@) {
        LogTone::Error
    } else if occurs_in(e, "WARN"@) {
        LogTone::Warn
    } else if occurs_in(e, "AV"@) || occurs_in(e, "fmt"@) {
        LogTone::Av
    } else {
        LogTone::Plain
    }
}

/// The tint of a log entry.
pub fn log_tone(e: &str) -> (t: LogTone)
    ensures
        t == log_tone_spec(e@),
{
    if contains_str(e, "ERR") || contains_str(e, "error") {
        LogTone::Error
    } else if contains_str(e, "WARN") {
        LogTone::Warn
    } else if contains_str(e, "AV") || contains_str(e, "fmt") {
        LogTone::Av
    } else {
        LogTone::Plain
    }
}

/// The entries of `log` that pass `filter`, in order.
pub open spec fn filtered(log: Seq<String>, filter: Seq<char>) -> Seq<Seq<char>>
    decreases log.len(),
{
    if log.len() == 0 {
        Seq::empty()
    } else {
        let rest = filtered(log.drop_last(), filter);
        if passes_filter(log.last()@, filter) { rest.push(log.last()@) } else { rest }
    }
}

impl FrameLog {
    pub fn new() -> (f: Self)
        ensures
            f.filter@.len() == 0,
            f.auto_scroll,
    {
        FrameLog { filter: String::new(), auto_scroll: true }
    }

    /// The entries shown under the current filter, oldest first.
    pub fn visible_entries(&self, log: &VecDeque<String>) -> (v: Vec<String>)
        ensures
            v@.map_values(|s: String| s@) == filtered(log@, self.filter@),
    {
        let f = to_lowercase(self.filter.as_str());
        let fl = f.unicode_len();
        let mut out: Vec<String> = Vec::new();
        let mut i: usize = 0;
        while i < log.len()
            invariant
                i <= log@.len(),
                f@ == lowercase(self.filter@),
                fl == f@.len(),
                out@.map_values(|s: String| s@) == filtered(log@.take(i as int), self.filter@),
            decreases log@.len() - i,
        {
            let e = &log[i];
            let keep = fl == 0 || contains_str(to_lowercase(e.as_str()).as_str(), f.as_str());
            let ghost before = out@;
            if keep {
                out.push(crate::debug_state::clone_string(e));
            }
            proof {
                assert(log@.take(i + 1).drop_last() =~= log@.take(i as int));
                assert(log@.take(i + 1).last() == log@[i as int]);
                if keep {
                    assert(out@.map_values(|s: String| s@) =~= before.map_values(|s: String| s@).push(log@[i as int]@));
                }
            }
            i += 1;
        }
        assert(log@.take(log@.len() as int) =~= log@);
        out
    }
}

// ── help ─────────────────────────────────────────────────────────────────

/// Help panel (stateless).
pub struct HelpPanel;

impl HelpPanel {
    pub fn new() -> (h: Self) {
        HelpPanel
    }
}

/// Audio controls panel (stateless; its volume slider works in floating
/// point and lives with the audio output).
pub struct AudioControls;

// ── triggers ─────────────────────────────────────────────────────────────

/// Button names of the trigger picker, in bit-index order.
pub const BUTTON_NAMES: [&'static str; 12] = [
    "B", "Y", "SEL", "START", "\u{2191}", "\u{2193}", "\u{2190}", "\u{2192}", "A", "X", "L", "R",
];

/// Trigger panel state: the typed frame and pixel, the picked button.
pub struct Triggers {
    pub frame_input: String,
    pub pixel_x: String,
    pub pixel_y: String,
    pub input_btn: usize,
}

/// A trimmed decimal `u64`/`u32` as `str::parse` reads it.
pub open spec fn typed_decimal(s: Seq<char>, max: nat) -> Option<nat> {
    parse_unsigned(trim(s), 10, max)
}

fn parse_trimmed(s: &str, max: u64) -> (r: Option<u64>)
    ensures
        r == match typed_decimal(s@, max as nat) {
            Some(v) => Some(v as u64),
            None => None,
        },
{
    let (lo, hi) = trim_bounds(s);
    parse_unsigned_in(s, lo, hi, 10, max)
}

impl Triggers {
    pub fn new() -> (t: Self)
        ensures
            t.frame_input@.len() == 0,
            t.pixel_x@.len() == 0,
            t.pixel_y@.len() == 0,
            t.input_btn == 0,
    {
        Triggers { frame_input: String::new(), pixel_x: String::new(), pixel_y: String::new(), input_btn: 0 }
    }

    /// "Set" for pause-at-frame: the typed frame number, when it reads.
    pub fn frame_trigger(&self) -> (r: Option<u64>)
        ensures
            r == match typed_decimal(self.frame_input@, u64::MAX as nat) {
                Some(v) => Some(v as u64),
                None => None,
            },
    {
        parse_trimmed(self.frame_input.as_str(), u64::MAX)
    }

    /// "Set" for pause-on-pixel-change: both typed coordinates, when both read.
    pub fn pixel_trigger(&self) -> (r: Option<(u32, u32)>)
        ensures
            r == match (typed_decimal(self.pixel_x@, u32::MAX as nat), typed_decimal(self.pixel_y@, u32::MAX as nat)) {
                (Some(x), Some(y)) => Some((x as u32, y as u32)),
                _ => None,
            },
    {
        match (parse_trimmed(self.pixel_x.as_str(), u32::MAX as u64), parse_trimmed(self.pixel_y.as_str(), u32::MAX as u64)) {
            (Some(x), Some(y)) => Some((x as u32, y as u32)),
            _ => None,
        }
    }

    /// The trigger-frame value that means "pause on the next press of the
    /// picked button": the top of the frame range counted down by button.
    pub fn button_trigger(&self) -> (v: u64)
        requires
            self.input_btn < 12,
        ensures
            v == u64::MAX - self.input_btn,
    {
        u64::MAX - self.input_btn as u64
    }
}

/// The run-state line: paused or running, at which frame.
pub open spec fn run_state_spec(paused: bool, frame: u64) -> Seq<char> {
    (if paused { "\u{23f8} PAUSED @ frame "@ } else { "\u{25b6} Running @ frame "@ }) + dec(frame as nat)
}

pub fn run_state_text(paused: bool, frame: u64) -> (s: String)
    ensures
        s@ == run_state_spec(paused, frame),
{
    let mut s = String::new();
    if paused {
        push_str(&mut s, "\u{23f8} PAUSED @ frame ");
    } else {
        push_str(&mut s, "\u{25b6} Running @ frame ");
    }
    push_dec(&mut s, frame);
    assert(s@ =~= run_state_spec(paused, frame));
    s
}

// ── input monitor ────────────────────────────────────────────────────────

/// Longest label kept whole in the compact button grid.
pub const GRID_LABEL_MAX: usize = 10;

/// Input monitor panel (stateless).
pub struct InputMonitor;

/// A button's full label: the core's descriptor, else the raw name.
pub open spec fn full_label(descriptors: [[Option<String>; 12]; 2], port: int, i: int) -> Seq<char> {
    match descriptors@[port]@[i] {
        Some(d) => d@,
        None => RETRO_NAMES@[i]@,
    }
}

/// The grid's short form: labels over ten characters keep nine and an
/// ellipsis.
pub open spec fn short_label(full: Seq<char>) -> Seq<char> {
    if full.len() > 10 { full.take(9).push('\u{2026}') } else { full }
}

/// Newest frame in `history` where button `btn` is down.
pub open spec fn last_press_spec(history: Seq<(u64, [bool; 12])>, btn: int) -> Option<u64>
    decreases history.len(),
{
    if history.len() == 0 {
        None
    } else if history.last().1@[btn] {
        Some(history.last().0)
    } else {
        last_press_spec(history.drop_last(), btn)
    }
}

impl InputMonitor {
    pub fn new() -> (m: Self) {
        InputMonitor
    }

    /// (short-for-grid, full-for-hover) label of button `i` on `port`.
    pub fn label(descriptors: &[[Option<String>; 12]; 2], port: usize, i: usize) -> (r: (String, String))
        requires
            port < 2,
            i < 12,
        ensures
            r.1@ == full_label(*descriptors, port as int, i as int),
            r.0@ == short_label(full_label(*descriptors, port as int, i as int)),
    {
        let full = match &descriptors[port][i] {
            Some(d) => crate::debug_state::clone_string(d),
            None => RETRO_NAMES[i].to_string(),
        };
        let n = full.unicode_len();
        let mut short = String::new();
        if n > GRID_LABEL_MAX {
            let mut k: usize = 0;
            while k < 9
                invariant
                    k <= 9,
                    n == full@.len(),
                    n > 10,
                    short@ == full@.take(k as int),
                decreases 9 - k,
            {
                push_char(&mut short, full.get_char(k));
                proof {
                    assert(full@.take(k + 1) =~= full@.take(k as int).push(full@[k as int]));
                }
                k += 1;
            }
            push_char(&mut short, '\u{2026}');
        } else {
            push_str(&mut short, full.as_str());
            assert(short@ =~= full@);
        }
        (short, full)
    }

    /// The frame of the newest press of `btn` in the history, or `-`.
    pub fn last_press(history: &VecDeque<(u64, [bool; 12])>, btn: usize) -> (s: String)
        requires
            btn < 12,
        ensures
            s@ == match last_press_spec(history@, btn as int) {
                Some(f) => dec(f as nat),
                None => "-"@,
            },
    {
        let mut i: usize = history.len();
        proof {
            assert(history@.take(i as int) =~= history@);
        }
        while i > 0
            invariant
                i <= history@.len(),
                btn < 12,
                last_press_spec(history@, btn as int) == last_press_spec(history@.take(i as int), btn as int),
            decreases i,
        {
            let (f, b) = history[i - 1];
            proof {
                assert(history@.take(i as int).drop_last() =~= history@.take(i - 1));
            }
            if b[btn] {
                return crate::fmt::dec_string(f);
            }
            i -= 1;
        }
        let mut s = String::new();
        push_str(&mut s, "-");
        s
    }
}

// ── save states ──────────────────────────────────────────────────────────

/// One slot file's facts.
#[derive(Clone)]
pub struct SlotInfo {
    pub exists: bool,
    pub bytes: u64,
    /// The file's age, as shown.
    pub modified: String,
}

/// Save-state panel state.
pub struct StatePanel {
    pub slots: Vec<SlotInfo>,
    /// The state note the slot cache was built under.
    pub cached_note: Option<String>,
    pub path_input: String,
}

impl StatePanel {
    pub fn new() -> (p: Self)
        ensures
            p.slots@.len() == 9,
            forall|i: int| 0 <= i < 9 ==> !(#[trigger] p.slots@[i]).exists && p.slots@[i].bytes == 0
                && p.slots@[i].modified@.len() == 0,
            p.cached_note is None,
            p.path_input@.len() == 0,
    {
        let mut slots: Vec<SlotInfo> = Vec::new();
        let mut i: usize = 0;
        while i < 9
            invariant
                i <= 9,
                slots@.len() == i,
                forall|k: int| 0 <= k < i ==> !(#[trigger] slots@[k]).exists && slots@[k].bytes == 0
                    && slots@[k].modified@.len() == 0,
            decreases 9 - i,
        {
            slots.push(SlotInfo { exists: false, bytes: 0, modified: String::new() });
            i += 1;
        }
        StatePanel { slots, cached_note: None, path_input: String::new() }
    }

    /// Whether the typed path can be used (it is not blank).
    pub fn path_ok(&self) -> (b: bool)
        ensures
            b == (trim(self.path_input@).len() > 0),
    {
        let (lo, hi) = trim_bounds(self.path_input.as_str());
        lo < hi
    }
}

/// A slot's facts from its file's metadata: its length and, when the
/// modification time reads, its age in seconds.
pub fn slot_info(meta: Option<(u64, Option<u64>)>) -> (s: SlotInfo)
    ensures
        s.exists == meta is Some,
        s.bytes == match meta { Some((len, _)) => len, None => 0 },
        s.modified@ == match meta { Some((_, Some(age))) => age_text(age as nat), _ => Seq::empty() },
{
    match meta {
        None => SlotInfo { exists: false, bytes: 0, modified: String::new() },
        Some((len, age)) => SlotInfo {
            exists: true,
            bytes: len,
            modified: match age {
                Some(a) => crate::training::age_str(a),
                None => String::new(),
            },
        },
    }
}

/// A slot's row label: its number and, for the first two, their hotkeys.
pub open spec fn slot_label_spec(slot: u8) -> Seq<char> {
    dec(slot as nat) + if slot == 1 { " (F6/F7)"@ } else if slot == 2 { " (\u{21e7}F6/\u{21e7}F7)"@ } else { Seq::empty() }
}

pub fn slot_label(slot: u8) -> (s: String)
    ensures
        s@ == slot_label_spec(slot),
{
    let mut s = String::new();
    push_dec(&mut s, slot as u64);
    if slot == 1 {
        push_str(&mut s, " (F6/F7)");
    } else if slot == 2 {
        push_str(&mut s, " (\u{21e7}F6/\u{21e7}F7)");
    }
    assert(s@ =~= slot_label_spec(slot));
    s
}

/// `N KB` for a size in bytes (whole kilobytes, rounded down).
pub fn kb_text(bytes: u64) -> (s: String)
    ensures
        s@ == dec((bytes / 1024) as nat) + " KB"@,
{
    let mut s = String::new();
    push_dec(&mut s, bytes / 1024);
    push_str(&mut s, " KB");
    assert(s@ =~= dec((bytes / 1024) as nat) + " KB"@);
    s
}

// ── Lua script panel ─────────────────────────────────────────────────────

/// Script panel state.
pub struct ScriptPanel {
    /// The path (or inline source) to load.
    pub path_input: String,
    /// Result of the last load, reload or clear.
    pub status: String,
    /// Whether the panel window is open.
    pub open: bool,
}

/// How the status line is tinted.
#[derive(Clone, Copy, PartialEq, Eq, Debug, Structural)]
pub enum StatusTone {
    Failure,
    Success,
    Plain,
}

pub open spec fn starts(s: Seq<char>, p: Seq<char>) -> bool {
    p.len() <= s.len() && s.subrange(0, p.len() as int) == p
}

/// The status line after a load (`reload` false) or reload of `path`: the
/// callback count on success, the error otherwise.
pub open spec fn load_status_spec(reload: bool, path: Seq<char>, outcome: Result<usize, Seq<char>>) -> Seq<char> {
    match outcome {
        Ok(n) => (if reload { "OK: reloaded '"@ } else { "OK: loaded '"@ }) + path + "' ("@ + dec(n as nat)
            + " onframeend callback"@ + (if n == 1 { Seq::empty() } else { "s"@ }) + ")"@,
        Err(e) => (if reload { "Reload error: "@ } else { "Error: "@ }) + e,
    }
}

impl ScriptPanel {
    pub fn new() -> (p: Self)
        ensures
            p.path_input@.len() == 0,
            p.status@ == "No script loaded."@,
            !p.open,
    {
        ScriptPanel { path_input: String::new(), status: "No script loaded.".to_string(), open: false }
    }

    /// Load and Reload are offered when the path is not blank.
    pub fn can_act(&self) -> (b: bool)
        ensures
            b == (trim(self.path_input@).len() > 0),
    {
        let (lo, hi) = trim_bounds(self.path_input.as_str());
        lo < hi
    }

    /// Record the outcome of loading (or reloading) `path`: the number of
    /// per-frame callbacks it registered, or the engine's error text.
    pub fn set_load_status(&mut self, reload: bool, path: &str, outcome: Result<usize, String>)
        ensures
            final(self).status@ == load_status_spec(reload, path@, match outcome {
                Ok(n) => Ok(n),
                Err(e) => Err(e@),
            }),
            final(self).path_input == old(self).path_input,
            final(self).open == old(self).open,
    {
        let ghost o = match outcome { Ok(n) => Ok::<usize, Seq<char>>(n), Err(ref e) => Err(e@) };
        let mut s = String::new();
        match outcome {
            Ok(n) => {
                if reload {
                    push_str(&mut s, "OK: reloaded '");
                } else {
                    push_str(&mut s, "OK: loaded '");
                }
                push_str(&mut s, path);
                push_str(&mut s, "' (");
                push_dec(&mut s, n as u64);
                push_str(&mut s, " onframeend callback");
                if n != 1 {
                    push_str(&mut s, "s");
                }
                push_str(&mut s, ")");
            },
            Err(e) => {
                if reload {
                    push_str(&mut s, "Reload error: ");
                } else {
                    push_str(&mut s, "Error: ");
                }
                push_str(&mut s, e.as_str());
            },
        }
        assert(s@ =~= load_status_spec(reload, path@, o));
        self.status = s;
    }

    /// The status after clearing the VM.
    pub fn set_cleared(&mut self)
        ensures
            final(self).status@ == "VM cleared."@,
            final(self).path_input == old(self).path_input,
            final(self).open == old(self).open,
    {
        self.status = "VM cleared.".to_string();
    }

    /// The status line's tint.
    pub fn status_tone(&self) -> (t: StatusTone)
        ensures
            t == if starts(self.status@, "Error"@) || starts(self.status@, "Reload error"@) {
                StatusTone::Failure
            } else if starts(self.status@, "OK"@) {
                StatusTone::Success
            } else {
                StatusTone::Plain
            },
    {
        let s = self.status.as_str();
        if starts_with_str(s, "Error") || starts_with_str(s, "Reload error") {
            StatusTone::Failure
        } else if starts_with_str(s, "OK") {
            StatusTone::Success
        } else {
            StatusTone::Plain
        }
    }
}

/// The callback badge: `N onframeend callback(s) registered`.
pub fn callback_badge(n: usize) -> (s: String)
    ensures
        s@ == dec(n as nat) + " onframeend callback(s) registered"@,
{
    let mut s = String::new();
    push_dec(&mut s, n as u64);
    push_str(&mut s, " onframeend callback(s) registered");
    assert(s@ =~= dec(n as nat) + " onframeend callback(s) registered"@);
    s
}

// ── frame lab ────────────────────────────────────────────────────────────

/// Frame-lab panel (its selection lives with the loaded frame table).
pub struct FramelabPanel;

impl FramelabPanel {
    pub fn new() -> (p: Self) {
        FramelabPanel
    }
}

/// `Nf gap`, or `unstated gap`.
pub fn gap_label(gap: Option<i64>) -> (s: String)
    ensures
        s@ == match gap {
            Some(g) => dec_signed(g as int) + "f gap"@,
            None => "unstated gap"@,
        },
{
    let mut s = String::new();
    match gap {
        Some(g) => {
            push_dec_signed(&mut s, g);
            push_str(&mut s, "f gap");
        },
        None => push_str(&mut s, "unstated gap"),
    }
    assert(s@ =~= match gap {
        Some(g) => dec_signed(g as int) + "f gap"@,
        None => "unstated gap"@,
    });
    s
}

/// A measured value, or a dash when absent.
pub fn opt_i64(v: Option<i64>) -> (s: String)
    ensures
        s@ == match v {
            Some(x) => dec_signed(x as int),
            None => "\u{2014}"@,
        },
{
    let mut s = String::new();
    match v {
        Some(x) => push_dec_signed(&mut s, x),
        None => push_str(&mut s, "\u{2014}"),
    }
    assert(s@ =~= match v {
        Some(x) => dec_signed(x as int),
        None => "\u{2014}"@,
    });
    s
}

// ── signal hunt ──────────────────────────────────────────────────────────

/// Signal-hunt panel state: mark labels, the region window as typed, and
/// the ring / pre / post / idle settings applied on "Apply".
pub struct HuntPanel {
    pub event_label: String,
    pub control_label: String,
    /// Extra window fields, as typed (hex).
    pub extra_start: String,
    pub extra_len: String,
    pub include_blocks: bool,
    pub ring_frames: usize,
    pub pre: u64,
    pub post: u64,
    pub include_idle: bool,
    /// Sticky one-liner from the last action.
    pub note: Option<String>,
    /// Text of the last export.
    pub export_text: Option<String>,
}

/// `s` with every leading occurrence of `0` followed by `x` (or, in the
/// second pass, `X`) removed.
pub open spec fn strip_prefix_all(s: Seq<char>, x: char) -> Seq<char>
    decreases s.len(),
{
    if s.len() >= 2 && s[0] == '0' && s[1] == x {
        strip_prefix_all(s.skip(2), x)
    } else {
        s
    }
}

/// A typed hex field of the region window: trimmed, leading `0x`s then
/// `0X`s dropped, then read as hex when anything is left.
pub open spec fn hex_field(s: Seq<char>) -> Option<u32> {
    let t = strip_prefix_all(strip_prefix_all(trim(s), 'x'), 'X');
    if t.len() == 0 {
        None
    } else {
        match parse_unsigned(t, 16, u32::MAX as nat) {
            Some(v) => Some(v as u32),
            None => None,
        }
    }
}

fn skip_prefixes(s: &str, lo: usize, hi: usize, x: char) -> (r: usize)
    requires
        lo <= hi <= s@.len(),
    ensures
        lo <= r <= hi,
        s@.subrange(r as int, hi as int) == strip_prefix_all(s@.subrange(lo as int, hi as int), x),
{
    let mut i = lo;
    proof {
        assert(s@.subrange(lo as int, hi as int) == s@.subrange(i as int, hi as int));
    }
    while hi - i >= 2 && s.get_char(i) == '0' && s.get_char(i + 1) == x
        invariant
            lo <= i <= hi,
            hi <= s@.len(),
            strip_prefix_all(s@.subrange(i as int, hi as int), x) == strip_prefix_all(s@.subrange(lo as int, hi as int), x),
        decreases hi - i,
    {
        proof {
            assert(s@.subrange(i as int, hi as int).skip(2) =~= s@.subrange(i + 2, hi as int));
        }
        i += 2;
    }
    i
}

/// Read one typed hex field of the region window.
pub fn parse_hex_field(s: &str) -> (r: Option<u32>)
    ensures
        r == hex_field(s@),
{
    let (lo, hi) = trim_bounds(s);
    let a = skip_prefixes(s, lo, hi, 'x');
    let b = skip_prefixes(s, a, hi, 'X');
    if b == hi {
        return None;
    }
    match parse_unsigned_in(s, b, hi, 16, u32::MAX as u64) {
        Some(v) => Some(v as u32),
        None => None,
    }
}

/// The extra window to scope the hunt to: both fields, neither, or an
/// explanation that one is missing.
pub open spec fn extra_window_spec(start: Seq<char>, len: Seq<char>) -> Result<Option<(u32, u32)>, ()> {
    match (hex_field(start), hex_field(len)) {
        (Some(a), Some(l)) => Ok(Some((a, l))),
        (None, None) => Ok(None),
        _ => Err(()),
    }
}

impl HuntPanel {
    /// A fresh panel with the hunt's default ring length and pre/post
    /// offsets.
    pub fn new(ring_frames: usize, pre: u64, post: u64) -> (p: Self)
        ensures
            p.event_label@ == "event"@,
            p.control_label@ == "control"@,
            p.extra_start@.len() == 0,
            p.extra_len@.len() == 0,
            p.include_blocks,
            p.ring_frames == ring_frames,
            p.pre == pre,
            p.post == post,
            p.include_idle,
            p.note is None,
            p.export_text is None,
    {
        HuntPanel {
            event_label: "event".to_string(),
            control_label: "control".to_string(),
            extra_start: String::new(),
            extra_len: String::new(),
            include_blocks: true,
            ring_frames,
            pre,
            post,
            include_idle: true,
            note: None,
            export_text: None,
        }
    }

    /// The typed extra window, or an error when only one field reads.
    pub fn extra_window(&self) -> (r: Result<Option<(u32, u32)>, String>)
        ensures
            match r {
                Ok(w) => extra_window_spec(self.extra_start@, self.extra_len@) == Ok::<Option<(u32, u32)>, ()>(w),
                Err(m) => extra_window_spec(self.extra_start@, self.extra_len@) is Err
                    && m@ == "extra window needs BOTH start and len as hex"@,
            },
    {
        match (parse_hex_field(self.extra_start.as_str()), parse_hex_field(self.extra_len.as_str())) {
            (Some(a), Some(l)) => Ok(Some((a, l))),
            (None, None) => Ok(None),
            _ => Err("extra window needs BOTH start and len as hex".to_string()),
        }
    }

    /// The control label to analyze against: the trimmed label, when any.
    pub fn control_for_analysis(&self) -> (r: Option<String>)
        ensures
            match r {
                Some(c) => trim(self.control_label@).len() > 0 && c@ == trim(self.control_label@),
                None => trim(self.control_label@).len() == 0,
            },
    {
        let (lo, hi) = trim_bounds(self.control_label.as_str());
        if lo == hi {
            return None;
        }
        let mut out = String::new();
        let mut i = lo;
        while i < hi
            invariant
                lo <= i <= hi,
                hi <= self.control_label@.len(),
                out@ == self.control_label@.subrange(lo as int, i as int),
            decreases hi - i,
        {
            push_char(&mut out, self.control_label.get_char(i));
            proof {
                assert(self.control_label@.subrange(lo as int, i + 1) =~= self.control_label@.subrange(lo as int, i as int).push(self.control_label@[i as int]));
            }
            i += 1;
        }
        Some(out)
    }
}

/// A label's live mark count, with how many still await their post frame.
pub open spec fn mark_count_spec(label: Seq<char>, n: u64, usable: u64) -> Seq<char> {
    let pending = if n >= usable { n - usable } else { 0 };
    label + ": "@ + dec(n as nat) + if pending > 0 { " ("@ + dec(pending as nat) + " awaiting +POST)"@ } else { Seq::empty() }
}

pub fn mark_count_text(label: &str, n: u64, usable: u64) -> (s: String)
    ensures
        s@ == mark_count_spec(label@, n, usable),
{
    let pending = n.saturating_sub(usable);
    let mut s = String::new();
    push_str(&mut s, label);
    push_str(&mut s, ": ");
    push_dec(&mut s, n);
    if pending > 0 {
        push_str(&mut s, " (");
        push_dec(&mut s, pending);
        push_str(&mut s, " awaiting +POST)");
    }
    assert(s@ =~= mark_count_spec(label@, n, usable));
    s
}

/// A candidate's tags: small values, counter-like, byte or word half,
/// consistent across marks.
pub open spec fn candidate_tags_spec(small: bool, counter: bool, byte: bool, consistent: bool) -> Seq<Seq<char>> {
    let a = if small { seq!["small"@] } else { Seq::empty() };
    let b = if counter { a.push("counter"@) } else { a };
    let c = b.push(if byte { "byte"@ } else { "word-half"@ });
    if consistent { c.push("consistent"@) } else { c }
}

pub fn candidate_tags(small: bool, counter: bool, byte: bool, consistent: bool) -> (s: String)
    ensures
        s@ == crate::text::join(candidate_tags_spec(small, counter, byte, consistent), " "@),
{
    let mut tags: Vec<&str> = Vec::new();
    if small {
        tags.push("small");
    }
    if counter {
        tags.push("counter");
    }
    if byte {
        tags.push("byte");
    } else {
        tags.push("word-half");
    }
    if consistent {
        tags.push("consistent");
    }
    assert(crate::text::views(tags@) =~= candidate_tags_spec(small, counter, byte, consistent));
    crate::text::join_strs(&tags, " ")
}

/// The settings an analysis ran with: ring, pre and post frames, whether
/// idle churn was subtracted, the region size, and the usable and total
/// event and control marks.
pub open spec fn hunt_settings_spec(ring: u64, pre: u64, post: u64, idle: bool, region_bytes: u64, ev_usable: u64, ev: u64,
    ctl_usable: u64, ctl: u64) -> Seq<char> {
    "ring "@ + dec(ring as nat) + " \u{b7} pre "@ + dec(pre as nat) + " \u{b7} post "@ + dec(post as nat) + " \u{b7} idle "@
        + (if idle { "subtracted"@ } else { "kept"@ }) + " \u{b7} region "@ + dec(region_bytes as nat) + " B \u{b7} events "@
        + dec(ev_usable as nat) + "/"@ + dec(ev as nat) + " usable \u{b7} controls "@ + dec(ctl_usable as nat) + "/"@
        + dec(ctl as nat) + " usable"@
}

pub fn hunt_settings_text(ring: u64, pre: u64, post: u64, idle: bool, region_bytes: u64, ev_usable: u64, ev: u64,
    ctl_usable: u64, ctl: u64) -> (s: String)
    ensures
        s@ == hunt_settings_spec(ring, pre, post, idle, region_bytes, ev_usable, ev, ctl_usable, ctl),
{
    let mut s = String::new();
    push_str(&mut s, "ring ");
    push_dec(&mut s, ring);
    push_str(&mut s, " \u{b7} pre ");
    push_dec(&mut s, pre);
    push_str(&mut s, " \u{b7} post ");
    push_dec(&mut s, post);
    push_str(&mut s, " \u{b7} idle ");
    push_str(&mut s, if idle { "subtracted" } else { "kept" });
    push_str(&mut s, " \u{b7} region ");
    push_dec(&mut s, region_bytes);
    push_str(&mut s, " B \u{b7} events ");
    push_dec(&mut s, ev_usable);
    push_str(&mut s, "/");
    push_dec(&mut s, ev);
    push_str(&mut s, " usable \u{b7} controls ");
    push_dec(&mut s, ctl_usable);
    push_str(&mut s, "/");
    push_dec(&mut s, ctl);
    push_str(&mut s, " usable");
    assert(s@ =~= hunt_settings_spec(ring, pre, post, idle, region_bytes, ev_usable, ev, ctl_usable, ctl));
    s
}

/// How the event set narrowed: its size, then what the control marks and
/// the idle churn each took away.
pub open spec fn elimination_spec(event_set: u64, by_controls: u64, by_idle: u64) -> Seq<char> {
    "event set "@ + dec(event_set as nat) + " \u{2192} \u{2212}"@ + dec(by_controls as nat) + " by controls \u{2192} \u{2212}"@
        + dec(by_idle as nat) + " by idle churn"@
}

pub fn elimination_text(event_set: u64, by_controls: u64, by_idle: u64) -> (s: String)
    ensures
        s@ == elimination_spec(event_set, by_controls, by_idle),
{
    let mut s = String::new();
    push_str(&mut s, "event set ");
    push_dec(&mut s, event_set);
    push_str(&mut s, " \u{2192} \u{2212}");
    push_dec(&mut s, by_controls);
    push_str(&mut s, " by controls \u{2192} \u{2212}");
    push_dec(&mut s, by_idle);
    push_str(&mut s, " by idle churn");
    assert(s@ =~= elimination_spec(event_set, by_controls, by_idle));
    s
}

/// A candidate's name with its address in hexadecimal (`NAME (0xADDR)`).
pub open spec fn candidate_label_spec(name: Seq<char>, addr: u64) -> Seq<char> {
    name + " (0x"@ + crate::fmt::hex(addr as nat, 0) + ")"@
}

pub fn candidate_label(name: &str, addr: u64) -> (s: String)
    ensures
        s@ == candidate_label_spec(name@, addr),
{
    let mut s = String::new();
    push_str(&mut s, name);
    push_str(&mut s, " (0x");
    crate::fmt::push_hex(&mut s, addr, 0);
    push_str(&mut s, ")");
    assert(s@ =~= candidate_label_spec(name@, addr));
    s
}

// ── controls ─────────────────────────────────────────────────────────────

/// Which kind of device a capture listens to.
#[derive(Clone, Copy, PartialEq, Eq, Debug, Structural)]
pub enum DeviceKind {
    Keyboard,
    Gamepad,
}

/// An in-progress rebind: the port, the action's name, its chord (button
/// indices), the device kind and, for a pad, the device's name.
pub struct CaptureTarget {
    pub port: usize,
    pub action: String,
    pub bits: Vec<u8>,
    pub kind: DeviceKind,
    pub device: Option<String>,
}

/// Controls window state.
pub struct ControlsPanel {
    pub open: bool,
    pub capture: Option<CaptureTarget>,
    pub descriptors: [[Option<String>; 12]; 2],
    pub save_dir: PathBuf,
    pub rom_stem: Option<String>,
    pub status: String,
    pub warning: Option<String>,
}

/// `PathBuf::from` on a string; the path is carried through opaquely.
#[verifier::external_body]
fn path_from(s: &str) -> PathBuf {
    PathBuf::from(s)
}

impl ControlsPanel {
    pub fn new() -> (p: Self)
        ensures
            !p.open,
            p.capture is None,
            forall|port: int, i: int| 0 <= port < 2 && 0 <= i < 12 ==> (#[trigger] p.descriptors@[port]@[i]) is None,
            p.rom_stem is None,
            p.status@.len() == 0,
            p.warning is None,
    {
        ControlsPanel {
            open: false,
            capture: None,
            descriptors: [[None, None, None, None, None, None, None, None, None, None, None, None], [None, None, None, None, None, None, None, None, None, None, None, None]],
            save_dir: path_from("."),
            rom_stem: None,
            status: String::new(),
            warning: None,
        }
    }

    /// Whether a rebind is waiting for its key or button.
    pub fn capturing(&self) -> (b: bool)
        ensures
            b == self.capture is Some,
    {
        self.capture.is_some()
    }

    /// Refresh what the panel shows from the debug state: the core's button
    /// descriptors, the state directory (keymaps save there) and the ROM
    /// name, the last two only when known.
    pub fn sync_descriptors(&mut self, descriptors: [[Option<String>; 12]; 2], state_dir: Option<PathBuf>, rom_name: Option<String>)
        ensures
            final(self).descriptors == descriptors,
            state_dir matches Some(d) ==> final(self).save_dir == d,
            state_dir is None ==> final(self).save_dir == old(self).save_dir,
            rom_name is Some ==> final(self).rom_stem == rom_name,
            rom_name is None ==> final(self).rom_stem == old(self).rom_stem,
            final(self).open == old(self).open,
            final(self).capture == old(self).capture,
            final(self).status == old(self).status,
            final(self).warning == old(self).warning,
    {
        self.descriptors = descriptors;
        if let Some(d) = state_dir {
            self.save_dir = d;
        }
        if rom_name.is_some() {
            self.rom_stem = rom_name;
        }
    }
}

/// The chord bit mask of some button indices.
pub open spec fn chord_mask_spec(bits: Seq<u8>) -> u16
    decreases bits.len(),
{
    if bits.len() == 0 {
        0
    } else {
        chord_mask_spec(bits.drop_last()) | (1u16 << bits.last())
    }
}

/// Fold button indices (each below 16) into a chord mask.
pub fn chord_mask(bits: &[u8]) -> (m: u16)
    requires
        forall|i: int| 0 <= i < bits@.len() ==> bits@[i] < 16,
    ensures
        m == chord_mask_spec(bits@),
{
    let mut m: u16 = 0;
    let mut i: usize = 0;
    while i < bits.len()
        invariant
            i <= bits@.len(),
            m == chord_mask_spec(bits@.take(i as int)),
            forall|k: int| 0 <= k < bits@.len() ==> bits@[k] < 16,
        decreases bits@.len() - i,
    {
        proof {
            assert(bits@.take(i + 1).drop_last() =~= bits@.take(i as int));
        }
        m = m | (1u16 << bits[i]);
        i += 1;
    }
    assert(bits@.take(bits@.len() as int) =~= bits@);
    m
}

/// Whether bit `k` of `m` is set.
pub open spec fn mask_bit(m: u16, k: u8) -> bool {
    (m >> k) & 1 == 1
}

proof fn lemma_or_bit(m: u16, j: u8, k: u8)
    requires
        j < 16,
        k < 16,
    ensures
        mask_bit(m | (1u16 << j), k) == (mask_bit(m, k) || k == j),
{
    assert(mask_bit(m | (1u16 << j), k) == (mask_bit(m, k) || k == j)) by (bit_vector)
        requires
            j < 16,
            k < 16,
    ;
}

/// Bit `k` of a chord's mask is set exactly when the chord names button `k`.
proof fn lemma_mask_bits(bits: Seq<u8>, k: u8)
    requires
        k < 16,
        forall|i: int| 0 <= i < bits.len() ==> bits[i] < 16,
    ensures
        mask_bit(chord_mask_spec(bits), k) == bits.contains(k),
    decreases bits.len(),
{
    if bits.len() == 0 {
        assert(mask_bit(0u16, k) == false) by (bit_vector)
            requires
                k < 16,
        ;
    } else {
        let rest = bits.drop_last();
        lemma_mask_bits(rest, k);
        lemma_or_bit(chord_mask_spec(rest), bits.last(), k);
        if bits.contains(k) {
            let i = choose|i: int| 0 <= i < bits.len() && bits[i] == k;
            if i < bits.len() - 1 {
                assert(rest[i] == k);
            }
        }
        if rest.contains(k) {
            let i = choose|i: int| 0 <= i < rest.len() && rest[i] == k;
            assert(bits[i] == k);
        }
        assert(bits[bits.len() - 1] == bits.last());
    }
}

proof fn lemma_masks_equal_by_bits(m1: u16, m2: u16)
    requires
        forall|k: u8| k < 16 ==> mask_bit(m1, k) == mask_bit(m2, k),
    ensures
        m1 == m2,
{
    let b0 = mask_bit(m1, 0) == mask_bit(m2, 0);
    let b1 = mask_bit(m1, 1) == mask_bit(m2, 1);
    let b2 = mask_bit(m1, 2) == mask_bit(m2, 2);
    let b3 = mask_bit(m1, 3) == mask_bit(m2, 3);
    let b4 = mask_bit(m1, 4) == mask_bit(m2, 4);
    let b5 = mask_bit(m1, 5) == mask_bit(m2, 5);
    let b6 = mask_bit(m1, 6) == mask_bit(m2, 6);
    let b7 = mask_bit(m1, 7) == mask_bit(m2, 7);
    let b8 = mask_bit(m1, 8) == mask_bit(m2, 8);
    let b9 = mask_bit(m1, 9) == mask_bit(m2, 9);
    let b10 = mask_bit(m1, 10) == mask_bit(m2, 10);
    let b11 = mask_bit(m1, 11) == mask_bit(m2, 11);
    let b12 = mask_bit(m1, 12) == mask_bit(m2, 12);
    let b13 = mask_bit(m1, 13) == mask_bit(m2, 13);
    let b14 = mask_bit(m1, 14) == mask_bit(m2, 14);
    let b15 = mask_bit(m1, 15) == mask_bit(m2, 15);
    assert(b0 && b1 && b2 && b3 && b4 && b5 && b6 && b7 && b8 && b9 && b10 && b11 && b12 && b13 && b14 && b15);
    assert(m1 == m2) by (bit_vector)
        requires
            ((m1 >> 0u8) & 1 == 1) == ((m2 >> 0u8) & 1 == 1),
            ((m1 >> 1u8) & 1 == 1) == ((m2 >> 1u8) & 1 == 1),
            ((m1 >> 2u8) & 1 == 1) == ((m2 >> 2u8) & 1 == 1),
            ((m1 >> 3u8) & 1 == 1) == ((m2 >> 3u8) & 1 == 1),
            ((m1 >> 4u8) & 1 == 1) == ((m2 >> 4u8) & 1 == 1),
            ((m1 >> 5u8) & 1 == 1) == ((m2 >> 5u8) & 1 == 1),
            ((m1 >> 6u8) & 1 == 1) == ((m2 >> 6u8) & 1 == 1),
            ((m1 >> 7u8) & 1 == 1) == ((m2 >> 7u8) & 1 == 1),
            ((m1 >> 8u8) & 1 == 1) == ((m2 >> 8u8) & 1 == 1),
            ((m1 >> 9u8) & 1 == 1) == ((m2 >> 9u8) & 1 == 1),
            ((m1 >> 10u8) & 1 == 1) == ((m2 >> 10u8) & 1 == 1),
            ((m1 >> 11u8) & 1 == 1) == ((m2 >> 11u8) & 1 == 1),
            ((m1 >> 12u8) & 1 == 1) == ((m2 >> 12u8) & 1 == 1),
            ((m1 >> 13u8) & 1 == 1) == ((m2 >> 13u8) & 1 == 1),
            ((m1 >> 14u8) & 1 == 1) == ((m2 >> 14u8) & 1 == 1),
            ((m1 >> 15u8) & 1 == 1) == ((m2 >> 15u8) & 1 == 1),
    ;
}

/// Two chords have the same mask exactly when they name the same set of
/// buttons: the order buttons are listed in, and repeats, do not matter.
pub proof fn lemma_chord_mask_is_set_equality(a: Seq<u8>, b: Seq<u8>)
    requires
        forall|i: int| 0 <= i < a.len() ==> a[i] < 16,
        forall|i: int| 0 <= i < b.len() ==> b[i] < 16,
    ensures
        (chord_mask_spec(a) == chord_mask_spec(b)) == (a.to_set() == b.to_set()),
{
    assert forall|k: u8| k < 16 implies (mask_bit(chord_mask_spec(a), k) == a.contains(k) && mask_bit(
        chord_mask_spec(b),
        k,
    ) == b.contains(k)) by {
        lemma_mask_bits(a, k);
        lemma_mask_bits(b, k);
    }
    if chord_mask_spec(a) == chord_mask_spec(b) {
        assert forall|x: u8| a.to_set().contains(x) == b.to_set().contains(x) by {
            if a.contains(x) {
                let i = choose|i: int| 0 <= i < a.len() && a[i] == x;
                assert(x < 16);
            }
            if b.contains(x) {
                let i = choose|i: int| 0 <= i < b.len() && b[i] == x;
                assert(x < 16);
            }
        }
        assert(a.to_set() =~= b.to_set());
    }
    if a.to_set() == b.to_set() {
        assert forall|k: u8| k < 16 implies mask_bit(chord_mask_spec(a), k) == mask_bit(chord_mask_spec(b), k) by {
            assert(a.to_set().contains(k) == b.to_set().contains(k));
        }
        lemma_masks_equal_by_bits(chord_mask_spec(a), chord_mask_spec(b));
    }
}

} // verus!
