//! The training panel's logic: validating a new arena's name, the status
//! lines of input-slot recording and playback, who drives each port, and
//! the loaded shadow model's summary.
use vstd::prelude::*;
use crate::fmt::{dec, pad_left, push_char, push_dec, push_padded, push_str};
use crate::parse::{trim, trim_bounds};
use crate::text::{contains_str, occurs_in};
use crate::training::{DummyMode, PlaybackPort, PlaybackSlot, PlaybackTrigger, ShadowModelInfo};

verus! {

/// The name of the arena loop runs start from.
pub const CURRENT_ARENA: &'static str = "current";

/// Training panel state (the form fields and picks it keeps between frames).
pub struct TrainingPanel {
    /// "Save new arena" name field.
    pub arena_name: String,
    /// Make the newly saved arena the current one.
    pub arena_make_current: bool,
    /// Sticky result of the last make-current copy.
    pub arena_note: Option<String>,
    /// Style tag for the next recording (empty = untagged).
    pub record_style: String,
    /// Whether the settings sidecar has been merged in yet.
    pub settings_loaded: bool,
    /// The settings as last written to (or read from) the sidecar.
    pub settings_last_saved: Option<String>,
    /// New-recording name field of the input-slot section.
    pub slot_name: String,
    /// Port target for the next "Play".
    pub play_port: PlaybackPort,
    /// Trigger for the next "Play".
    pub play_trigger: PlaybackTrigger,
}

impl TrainingPanel {
    pub fn new() -> (p: Self)
        ensures
            p.arena_name@.len() == 0,
            p.arena_make_current,
            p.arena_note is None,
            p.record_style@.len() == 0,
            !p.settings_loaded,
            p.settings_last_saved is None,
            p.slot_name@.len() == 0,
            p.play_port == PlaybackPort::Both,
            p.play_trigger == PlaybackTrigger::Manual,
    {
        TrainingPanel {
            arena_name: String::new(),
            arena_make_current: true,
            arena_note: None,
            record_style: String::new(),
            settings_loaded: false,
            settings_last_saved: None,
            slot_name: String::new(),
            play_port: PlaybackPort::Both,
            play_trigger: PlaybackTrigger::Manual,
        }
    }
}

/// `s` with every trailing `.state` removed (`trim_end_matches(".state")`).
pub open spec fn strip_state(s: Seq<char>) -> Seq<char>
    decreases s.len(),
{
    if s.len() >= 6 && s.subrange(s.len() - 6, s.len() as int) == ".state"@ {
        strip_state(s.take(s.len() - 6))
    } else {
        s
    }
}

/// The name a new arena is saved under, when the typed name is usable: not
/// empty, no `/`, and not the reserved current arena.
pub open spec fn arena_save_name_spec(typed: Seq<char>) -> Option<Seq<char>> {
    let name = strip_state(trim(typed));
    if name.len() > 0 && !name.contains('/') && name != "current"@ { Some(name) } else { None }
}

fn ends_with_state(s: &str, hi: usize) -> (b: bool)
    requires
        hi <= s@.len(),
    ensures
        b == (hi >= 6 && s@.subrange(hi - 6, hi as int) == ".state"@),
{
    proof { reveal_strlit(".state"); }
    if hi < 6 {
        return false;
    }
    let b = s.get_char(hi - 6) == '.' && s.get_char(hi - 5) == 's' && s.get_char(hi - 4) == 't'
        && s.get_char(hi - 3) == 'a' && s.get_char(hi - 2) == 't' && s.get_char(hi - 1) == 'e';
    if b {
        assert(s@.subrange(hi - 6, hi as int) =~= ".state"@);
    } else {
        assert(s@.subrange(hi - 6, hi as int) != ".state"@) by {
            if s@.subrange(hi - 6, hi as int) == ".state"@ {
                assert(s@.subrange(hi - 6, hi as int)[0] == '.');
                assert(s@.subrange(hi - 6, hi as int)[1] == 's');
                assert(s@.subrange(hi - 6, hi as int)[2] == 't');
                assert(s@.subrange(hi - 6, hi as int)[3] == 'a');
                assert(s@.subrange(hi - 6, hi as int)[4] == 't');
                assert(s@.subrange(hi - 6, hi as int)[5] == 'e');
            }
        }
    }
    b
}

/// Validate the typed name of a new arena (see [`arena_save_name_spec`]).
pub fn arena_save_name(typed: &str) -> (r: Option<String>)
    ensures
        match r {
            Some(n) => arena_save_name_spec(typed@) == Some(n@),
            None => arena_save_name_spec(typed@) is None,
        },
{
    let (lo, mut hi) = trim_bounds(typed);
    let ghost t = typed@.subrange(lo as int, hi as int);
    proof {
        assert(typed@.subrange(lo as int, hi as int) == t);
    }
    while hi - lo >= 6 && ends_with_state(typed, hi)
        invariant
            lo <= hi <= typed@.len(),
            strip_state(typed@.subrange(lo as int, hi as int)) == strip_state(t),
        decreases hi - lo,
    {
        proof {
            let u = typed@.subrange(lo as int, hi as int);
            assert(u.subrange(u.len() - 6, u.len() as int) =~= typed@.subrange(hi - 6, hi as int));
            assert(u.take(u.len() - 6) =~= typed@.subrange(lo as int, hi - 6));
        }
        hi -= 6;
    }
    let ghost name = typed@.subrange(lo as int, hi as int);
    proof {
        if name.len() >= 6 {
            assert(name.subrange(name.len() - 6, name.len() as int) =~= typed@.subrange(hi - 6, hi as int));
        }
        assert(strip_state(name) == name);
    }
    let mut out = String::new();
    let mut i: usize = lo;
    let mut slash = false;
    while i < hi
        invariant
            lo <= i <= hi,
            hi <= typed@.len(),
            out@ == typed@.subrange(lo as int, i as int),
            slash == typed@.subrange(lo as int, i as int).contains('/'),
        decreases hi - i,
    {
        let c = typed.get_char(i);
        if c == '/' {
            slash = true;
        }
        push_char(&mut out, c);
        proof {
            let before = typed@.subrange(lo as int, i as int);
            let after = typed@.subrange(lo as int, i + 1);
            assert(after =~= before.push(c));
            if c == '/' {
                assert(after[after.len() - 1] == '/');
            }
            if !slash {
                assert forall|k: int| 0 <= k < after.len() implies after[k] != '/' by {
                    if k < before.len() {
                        assert(after[k] == before[k]);
                    }
                }
            }
        }
        i += 1;
    }
    proof {
        assert(out@ =~= name);
    }
    if hi == lo || slash || crate::debug_state::str_eq(out.as_str(), CURRENT_ARENA) {
        proof { reveal_strlit("current"); }
        None
    } else {
        proof { reveal_strlit("current"); }
        Some(out)
    }
}

/// `m:ss` for a frame count at 60 frames per second.
pub open spec fn clock_text(frames: nat) -> Seq<char> {
    let secs = frames / 60;
    dec(secs / 60) + ":"@ + pad_left(dec(secs % 60), 2, '0')
}

fn push_clock(s: &mut String, frames: u64)
    ensures
        final(s)@ == old(s)@ + clock_text(frames as nat),
{
    let secs = frames / 60;
    push_dec(s, secs / 60);
    push_str(s, ":");
    proof { reveal_strlit("0"); }
    push_padded(s, secs % 60, 10, 2, "0");
    assert(s@ =~= old(s)@ + clock_text(frames as nat));
}

/// The recorder's status line: `name  N frames (m:ss)`.
pub open spec fn slot_status_spec(name: Seq<char>, frames: nat) -> Seq<char> {
    name + "  "@ + dec(frames) + " frames ("@ + clock_text(frames) + ")"@
}

pub fn slot_status_text(name: &str, frames: u64) -> (s: String)
    ensures
        s@ == slot_status_spec(name@, frames as nat),
{
    let mut s = String::new();
    push_str(&mut s, name);
    push_str(&mut s, "  ");
    push_dec(&mut s, frames);
    push_str(&mut s, " frames (");
    push_clock(&mut s, frames);
    push_str(&mut s, ")");
    assert(s@ =~= slot_status_spec(name@, frames as nat));
    s
}

/// Where a playback stands.
pub open spec fn playback_phase_spec(done: bool, started: bool) -> Seq<char> {
    if done {
        "finishing\u{2026}"@
    } else if started {
        "\u{25b6} playing"@
    } else {
        "\u{23f3} armed \u{2014} waiting for round start"@
    }
}

pub fn playback_phase(done: bool, started: bool) -> (s: &'static str)
    ensures
        s@ == playback_phase_spec(done, started),
{
    if done {
        "finishing\u{2026}"
    } else if started {
        "\u{25b6} playing"
    } else {
        "\u{23f3} armed \u{2014} waiting for round start"
    }
}

/// The active playback's status line: `name — phase (idx/total)`.
pub open spec fn playback_status_spec(pb: PlaybackSlot) -> Seq<char> {
    pb.name@ + " \u{2014} "@ + playback_phase_spec(pb.done, pb.started) + " ("@ + dec(pb.idx as nat) + "/"@
        + dec(pb.frames@.len()) + ")"@
}

pub fn playback_status_text(pb: &PlaybackSlot) -> (s: String)
    ensures
        s@ == playback_status_spec(*pb),
{
    let mut s = String::new();
    push_str(&mut s, pb.name.as_str());
    push_str(&mut s, " \u{2014} ");
    push_str(&mut s, playback_phase(pb.done, pb.started));
    push_str(&mut s, " (");
    push_dec(&mut s, pb.idx as u64);
    push_str(&mut s, "/");
    push_dec(&mut s, pb.frames.len() as u64);
    push_str(&mut s, ")");
    assert(s@ =~= playback_status_spec(*pb));
    s
}

pub open spec fn port_label_spec(p: PlaybackPort) -> Seq<char> {
    match p {
        PlaybackPort::P1 => "P1"@,
        PlaybackPort::P2 => "P2"@,
        PlaybackPort::Both => "Both"@,
    }
}

pub fn port_label(p: PlaybackPort) -> (s: &'static str)
    ensures
        s@ == port_label_spec(p),
{
    match p {
        PlaybackPort::P1 => "P1",
        PlaybackPort::P2 => "P2",
        PlaybackPort::Both => "Both",
    }
}

pub open spec fn trigger_label_spec(t: PlaybackTrigger) -> Seq<char> {
    match t {
        PlaybackTrigger::Manual => "Manual (now)"@,
        PlaybackTrigger::RoundStart => "Round start"@,
    }
}

pub fn trigger_label(t: PlaybackTrigger) -> (s: &'static str)
    ensures
        s@ == trigger_label_spec(t),
{
    match t {
        PlaybackTrigger::Manual => "Manual (now)",
        PlaybackTrigger::RoundStart => "Round start",
    }
}

/// The dummy mode's name as the port readout shows it.
pub open spec fn dummy_name_spec(m: DummyMode) -> Seq<char> {
    match m {
        DummyMode::Free => "Free"@,
        DummyMode::Stand => "Stand"@,
        DummyMode::Crouch => "Crouch"@,
        DummyMode::Jump => "Jump"@,
        DummyMode::Block => "Block"@,
        DummyMode::BlockPunish => "BlockPunish"@,
    }
}

pub fn dummy_name(m: DummyMode) -> (s: &'static str)
    ensures
        s@ == dummy_name_spec(m),
{
    match m {
        DummyMode::Free => "Free",
        DummyMode::Stand => "Stand",
        DummyMode::Crouch => "Crouch",
        DummyMode::Jump => "Jump",
        DummyMode::Block => "Block",
        DummyMode::BlockPunish => "BlockPunish",
    }
}

/// Who drives each port: a started, unfinished playback takes the ports it
/// targets (suppressing the dummy on P2); otherwise P1 is free and P2 is
/// the dummy.
pub open spec fn driving_spec(pb: Option<PlaybackSlot>, dummy: DummyMode) -> (Seq<char>, Seq<char>) {
    match pb {
        Some(p) if p.started && !p.done => (
            if crate::training::drives_spec(p.port, 0) { "\u{25b6} playback '"@ + p.name@ + "'"@ } else { "free"@ },
            if crate::training::drives_spec(p.port, 1) {
                "\u{25b6} playback '"@ + p.name@ + "' (dummy suppressed)"@
            } else {
                dummy_name_spec(dummy)
            },
        ),
        _ => ("free"@, dummy_name_spec(dummy)),
    }
}

pub fn driving_text(pb: Option<&PlaybackSlot>, dummy: DummyMode) -> (r: (String, String))
    ensures
        (r.0@, r.1@) == driving_spec(match pb { Some(p) => Some(*p), None => None }, dummy),
{
    let mut p1 = String::new();
    let mut p2 = String::new();
    match pb {
        Some(p) if p.started && !p.done => {
            if p.port.drives(0) {
                push_str(&mut p1, "\u{25b6} playback '");
                push_str(&mut p1, p.name.as_str());
                push_str(&mut p1, "'");
            } else {
                push_str(&mut p1, "free");
            }
            if p.port.drives(1) {
                push_str(&mut p2, "\u{25b6} playback '");
                push_str(&mut p2, p.name.as_str());
                push_str(&mut p2, "' (dummy suppressed)");
            } else {
                push_str(&mut p2, dummy_name(dummy));
            }
        },
        _ => {
            push_str(&mut p1, "free");
            push_str(&mut p2, dummy_name(dummy));
        },
    }
    assert(p1@ =~= driving_spec(match pb { Some(p) => Some(*p), None => None }, dummy).0);
    assert(p2@ =~= driving_spec(match pb { Some(p) => Some(*p), None => None }, dummy).1);
    (p1, p2)
}

/// A note reports a failure when it says `FAILED`.
pub fn note_failed(note: &str) -> (b: bool)
    ensures
        b == occurs_in(note@, "FAILED"@),
{
    contains_str(note, "FAILED")
}

/// The date part of an ISO time stamp: everything before the first `T`.
pub open spec fn date_part(created: Seq<char>) -> Seq<char> {
    created.take(first_t(created, 0))
}

/// Index of the first `T` at or after `i` (or the length).
pub open spec fn first_t(s: Seq<char>, i: int) -> int
    decreases s.len() - i,
{
    if i >= s.len() {
        s.len() as int
    } else if s[i] == 'T' {
        i
    } else {
        first_t(s, i + 1)
    }
}

/// The loaded model's summary line: cases, then rounds and fit date when
/// known.
pub open spec fn model_summary_spec(info: ShadowModelInfo) -> Seq<char> {
    dec(info.cases as nat) + " cases"@ + (match info.rounds {
        Some(r) => " / "@ + dec(r as nat) + " rounds"@,
        None => Seq::empty(),
    }) + (match info.created {
        Some(c) => ", fitted "@ + date_part(c@),
        None => Seq::empty(),
    })
}

pub fn model_summary(info: &ShadowModelInfo) -> (s: String)
    ensures
        s@ == model_summary_spec(*info),
{
    let mut s = String::new();
    push_dec(&mut s, info.cases as u64);
    push_str(&mut s, " cases");
    let ghost head = s@;
    if let Some(r) = info.rounds {
        push_str(&mut s, " / ");
        push_dec(&mut s, r);
        push_str(&mut s, " rounds");
    }
    let ghost mid = s@;
    if let Some(c) = &info.created {
        push_str(&mut s, ", fitted ");
        let n = c.unicode_len();
        let mut i: usize = 0;
        while i < n && c.get_char(i) != 'T'
            invariant
                n == c@.len(),
                i <= n,
                first_t(c@, i as int) == first_t(c@, 0),
                s@ == mid + ", fitted "@ + c@.take(i as int),
            decreases n - i,
        {
            push_char(&mut s, c.get_char(i));
            proof {
                assert(c@.take(i + 1) =~= c@.take(i as int).push(c@[i as int]));
            }
            i += 1;
        }
        proof {
            assert(first_t(c@, i as int) == i);
        }
    }
    assert(s@ =~= model_summary_spec(*info));
    s
}

} // verus!
