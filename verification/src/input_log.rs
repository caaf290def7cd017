//! Frame-counted input history for both controller ports: a bounded ring of
//! per-frame button masks, and the collapse of one button's stream into
//! press-to-release runs with the gap since the previous release.
use vstd::prelude::*;
use std::collections::VecDeque;
use vstd::string::StringSliceAdditionalSpecFns;

verus! {

/// RETRO_DEVICE_ID_JOYPAD button names, in bit-index order.
pub const RETRO_NAMES: [&'static str; 12] = [
    "B",
    "Y",
    "Select",
    "Start",
    "Up",
    "Down",
    "Left",
    "Right",
    "A",
    "X",
    "L",
    "R",
];

/// Ring capacity in frames.
pub const RING_CAPACITY_FRAMES: usize = 3600;

/// One press-to-release run on a single (port, button) bit stream.
#[derive(Clone, Copy, Debug, PartialEq, Eq, Structural)]
pub struct RunEvent {
    pub start_frame: u64,
    /// Consecutive frames the button was down, inclusive of `start_frame`.
    pub held_frames: u64,
    /// Frames between this stream's previous release and this press; `None`
    /// for the first run ever observed on the stream.
    pub gap_before: Option<u64>,
    /// Still held on the last sampled frame (no release seen yet).
    pub open: bool,
}

/// The collapse state after a prefix of the stream: the finished runs, the
/// run in progress `(start, last)`, the previous release frame and the
/// previous sample's frame.
pub struct CollapseState {
    pub out: Seq<RunEvent>,
    pub run: Option<(u64, u64)>,
    pub last_release: Option<u64>,
    pub prev: Option<u64>,
}

pub open spec fn collapse_init() -> CollapseState {
    CollapseState { out: Seq::empty(), run: None, last_release: None, prev: None }
}

/// The finished run `(start, last)` released at `release`.
pub open spec fn closed_event(start: u64, last: u64, last_release: Option<u64>) -> RunEvent {
    RunEvent {
        start_frame: start,
        held_frames: (last - start + 1) as u64,
        gap_before: match last_release {
            Some(r) => Some((start - r) as u64),
            None => None,
        },
        open: false,
    }
}

/// Close the run in progress (if any), released at frame `release`.
pub open spec fn close_run(st: CollapseState, release: u64) -> CollapseState {
    match st.run {
        Some((start, last)) => CollapseState {
            out: st.out.push(closed_event(start, last, st.last_release)),
            run: None,
            last_release: Some(release),
            prev: st.prev,
        },
        None => st,
    }
}

/// One sample: a frame-number jump releases the run at the frame after its
/// last; a pressed sample starts or extends a run; a released sample closes it.
pub open spec fn collapse_step(st: CollapseState, frame: u64, pressed: bool) -> CollapseState {
    let contiguous = match st.prev {
        None => true,
        Some(p) => frame == p + 1,
    };
    let st1 = if !contiguous && st.run is Some {
        close_run(st, (st.run.unwrap().1 + 1) as u64)
    } else {
        st
    };
    let st2 = if pressed {
        match st1.run {
            None => CollapseState { run: Some((frame, frame)), ..st1 },
            Some((start, _)) => CollapseState { run: Some((start, frame)), ..st1 },
        }
    } else {
        close_run(st1, frame)
    };
    CollapseState { prev: Some(frame), ..st2 }
}

/// The state after the whole stream.
pub open spec fn collapse_fold(samples: Seq<(u64, bool)>) -> CollapseState
    decreases samples.len(),
{
    if samples.len() == 0 {
        collapse_init()
    } else {
        let st = collapse_fold(samples.drop_last());
        collapse_step(st, samples.last().0, samples.last().1)
    }
}

/// The runs of a stream: the finished ones, then the one still held, open.
pub open spec fn runs(samples: Seq<(u64, bool)>) -> Seq<RunEvent> {
    let st = collapse_fold(samples);
    match st.run {
        Some((start, last)) => st.out.push(
            RunEvent { open: true, ..closed_event(start, last, st.last_release) },
        ),
        None => st.out,
    }
}

/// Frames strictly increase along the stream.
pub open spec fn chronological(samples: Seq<(u64, bool)>) -> bool {
    forall|i: int, j: int| 0 <= i < j < samples.len() ==> samples[i].0 < samples[j].0
}

/// Number of pressed samples.
pub open spec fn pressed_count(samples: Seq<(u64, bool)>) -> int
    decreases samples.len(),
{
    if samples.len() == 0 {
        0
    } else {
        pressed_count(samples.drop_last()) + if samples.last().1 { 1int } else { 0 }
    }
}

/// Total frames held over a list of runs.
pub open spec fn held_total(events: Seq<RunEvent>) -> int
    decreases events.len(),
{
    if events.len() == 0 {
        0
    } else {
        held_total(events.drop_last()) + events.last().held_frames
    }
}

/// Bookkeeping facts of the fold over a chronological prefix.
pub open spec fn fold_inv(samples: Seq<(u64, bool)>, st: CollapseState) -> bool {
    &&& (samples.len() == 0 <==> st.prev is None)
    &&& (samples.len() > 0 ==> st.prev == Some(samples.last().0))
    &&& (st.run matches Some((s, l)) ==> {
        &&& st.prev == Some(l)
        &&& s <= l
        &&& l - s < samples.len()
        &&& (st.last_release matches Some(r) ==> r <= s)
    })
    &&& (st.last_release matches Some(r) ==> st.prev matches Some(p) && r <= p)
    &&& held_total(st.out) + (match st.run {
        Some((s, l)) => l - s + 1,
        None => 0,
    }) == pressed_count(samples)
    &&& forall|k: int| 0 <= k < st.out.len() ==> (#[trigger] st.out[k]).held_frames >= 1 && !st.out[k].open
}

proof fn lemma_held_total_push(events: Seq<RunEvent>, e: RunEvent)
    ensures
        held_total(events.push(e)) == held_total(events) + e.held_frames,
{
    assert(events.push(e).drop_last() =~= events);
}

proof fn lemma_fold_inv(samples: Seq<(u64, bool)>)
    requires
        chronological(samples),
    ensures
        fold_inv(samples, collapse_fold(samples)),
    decreases samples.len(),
{
    if samples.len() > 0 {
        let pre = samples.drop_last();
        assert(chronological(pre));
        lemma_fold_inv(pre);
        let st = collapse_fold(pre);
        let (frame, pressed) = samples.last();
        if pre.len() > 0 {
            assert(pre.last() == samples[samples.len() - 2]);
            assert(pre.last().0 < frame);
        }
        let contiguous = match st.prev {
            None => true,
            Some(p) => frame == p + 1,
        };
        let st1 = if !contiguous && st.run is Some {
            close_run(st, (st.run.unwrap().1 + 1) as u64)
        } else {
            st
        };
        if !contiguous && st.run is Some {
            let (s, l) = st.run.unwrap();
            lemma_held_total_push(st.out, closed_event(s, l, st.last_release));
        }
        if !pressed && st1.run is Some {
            let (s, l) = st1.run.unwrap();
            lemma_held_total_push(st1.out, closed_event(s, l, st1.last_release));
        }
        assert(samples.drop_last() =~= pre);
    }
}

/// Frames held over all runs of a chronological stream add up to its
/// pressed samples: every pressed sample lies in exactly one run.
pub proof fn lemma_runs_account_for_every_press(samples: Seq<(u64, bool)>)
    requires
        chronological(samples),
        samples.len() <= u64::MAX,
    ensures
        held_total(runs(samples)) == pressed_count(samples),
        forall|k: int| 0 <= k < runs(samples).len() ==> #[trigger] runs(samples)[k].held_frames >= 1,
        forall|k: int| 0 <= k < runs(samples).len() - 1 ==> !(#[trigger] runs(samples)[k]).open,
{
    lemma_fold_inv(samples);
    let st = collapse_fold(samples);
    if let Some((s, l)) = st.run {
        let e = RunEvent { open: true, ..closed_event(s, l, st.last_release) };
        lemma_held_total_push(st.out, e);
        assert forall|k: int| 0 <= k < runs(samples).len() - 1 implies !(
        #[trigger] runs(samples)[k]).open by {
            assert(runs(samples)[k] == st.out[k]);
        }
        assert forall|k: int| 0 <= k < runs(samples).len() implies (
        #[trigger] runs(samples)[k]).held_frames >= 1 by {
            if k < st.out.len() {
                assert(runs(samples)[k] == st.out[k]);
            }
        }
    }
}

/// The first run has no gap; every later run's gap is counted from the
/// frame after the previous run's last held frame.
pub open spec fn gaps_from_previous_run(out: Seq<RunEvent>) -> bool {
    &&& out.len() > 0 ==> out[0].gap_before is None
    &&& forall|k: int| 1 <= k < out.len() ==> (#[trigger] out[k]).gap_before == Some(
        (out[k].start_frame - (out[k - 1].start_frame + out[k - 1].held_frames)) as u64,
    )
}

/// The release bookkeeping of the fold: the previous release is the frame
/// after the last finished run.
pub open spec fn release_inv(st: CollapseState) -> bool {
    &&& st.out.len() == 0 ==> st.last_release is None
    &&& st.out.len() > 0 ==> st.last_release == Some(
        (st.out.last().start_frame + st.out.last().held_frames) as u64,
    ) && st.out.last().start_frame + st.out.last().held_frames <= u64::MAX
    &&& gaps_from_previous_run(st.out)
}

proof fn lemma_close_keeps_release_inv(st: CollapseState, release: u64)
    requires
        release_inv(st),
        st.run matches Some((s, l)) ==> s <= l && release == l + 1 && (st.last_release matches Some(r) ==> r <= s),
    ensures
        release_inv(close_run(st, release)),
{
    if let Some((s, l)) = st.run {
        let e = closed_event(s, l, st.last_release);
        let out2 = st.out.push(e);
        assert(out2.last() == e);
        assert forall|k: int| 1 <= k < out2.len() implies (#[trigger] out2[k]).gap_before == Some(
            (out2[k].start_frame - (out2[k - 1].start_frame + out2[k - 1].held_frames)) as u64,
        ) by {
            if k < st.out.len() {
                assert(out2[k] == st.out[k] && out2[k - 1] == st.out[k - 1]);
            } else {
                assert(out2[k - 1] == st.out.last());
            }
        }
        if st.out.len() == 0 {
            assert(out2[0] == e);
        } else {
            assert(out2[0] == st.out[0]);
        }
    }
}

proof fn lemma_release_inv(samples: Seq<(u64, bool)>)
    requires
        chronological(samples),
    ensures
        release_inv(collapse_fold(samples)),
    decreases samples.len(),
{
    if samples.len() > 0 {
        let pre = samples.drop_last();
        assert(chronological(pre));
        lemma_release_inv(pre);
        lemma_fold_inv(pre);
        let st = collapse_fold(pre);
        let (frame, pressed) = samples.last();
        if pre.len() > 0 {
            assert(pre.last() == samples[samples.len() - 2]);
            assert(pre.last().0 < frame);
        }
        let contiguous = match st.prev {
            None => true,
            Some(p) => frame == p + 1,
        };
        let st1 = if !contiguous && st.run is Some {
            close_run(st, (st.run.unwrap().1 + 1) as u64)
        } else {
            st
        };
        if !contiguous && st.run is Some {
            lemma_close_keeps_release_inv(st, (st.run.unwrap().1 + 1) as u64);
        }
        assert(release_inv(st1));
        assert(st1.run matches Some((s, l)) ==> st1.prev == Some(l) && s <= l && (st1.last_release matches Some(r) ==> r <= s));
        if !pressed {
            if st1.run is Some {
                assert(contiguous);
            }
            lemma_close_keeps_release_inv(st1, frame);
        }
        assert(samples.drop_last() =~= pre);
    }
}

/// Gaps are measured from the previous run's release: on a chronological
/// stream the first run has no gap, and every later run's gap is its start
/// frame minus the frame after the previous run's last held frame, whether
/// that run ended by a release or by a jump in frame numbers.
pub proof fn lemma_gaps_measured_from_previous_run(samples: Seq<(u64, bool)>)
    requires
        chronological(samples),
    ensures
        gaps_from_previous_run(runs(samples)),
{
    lemma_release_inv(samples);
    lemma_fold_inv(samples);
    let st = collapse_fold(samples);
    if let Some((s, l)) = st.run {
        let e = RunEvent { open: true, ..closed_event(s, l, st.last_release) };
        let out2 = st.out.push(e);
        assert forall|k: int| 1 <= k < out2.len() implies (#[trigger] out2[k]).gap_before == Some(
            (out2[k].start_frame - (out2[k - 1].start_frame + out2[k - 1].held_frames)) as u64,
        ) by {
            if k < st.out.len() {
                assert(out2[k] == st.out[k] && out2[k - 1] == st.out[k - 1]);
            } else {
                assert(out2[k - 1] == st.out.last());
            }
        }
        if st.out.len() == 0 {
            assert(out2[0] == e);
        } else {
            assert(out2[0] == st.out[0]);
        }
    }
}

/// Collapse a chronological `(frame, pressed)` stream for one button into
/// runs. A released-then-repressed button always yields two runs, and a
/// frame-number jump closes the run in progress at the frame after its last
/// observed one.
pub fn collapse_runs(samples: &[(u64, bool)]) -> (events: Vec<RunEvent>)
    requires
        chronological(samples@),
    ensures
        events@ == runs(samples@),
        held_total(events@) == pressed_count(samples@),
{
    let mut out: Vec<RunEvent> = Vec::new();
    let mut run: Option<(u64, u64)> = None;
    let mut last_release: Option<u64> = None;
    let mut prev_frame: Option<u64> = None;
    let n = samples.len();
    let mut i: usize = 0;
    while i < n
        invariant
            n == samples@.len(),
            i <= n,
            chronological(samples@),
            ({
                let st = collapse_fold(samples@.take(i as int));
                &&& out@ == st.out
                &&& run == st.run
                &&& last_release == st.last_release
                &&& prev_frame == st.prev
                &&& fold_inv(samples@.take(i as int), st)
            }),
        decreases n - i,
    {
        let ghost pre = samples@.take(i as int);
        let ghost next = samples@.take(i + 1);
        proof {
            assert(next.drop_last() =~= pre);
            assert(chronological(next));
            lemma_fold_inv(next);
            if i > 0 {
                assert(pre.last() == samples@[i - 1]);
            }
        }
        let (frame, pressed) = samples[i];
        let contiguous = match prev_frame {
            None => true,
            Some(p) => frame == p + 1,
        };
        if !contiguous {
            if let Some((start, last)) = run {
                out.push(RunEvent {
                    start_frame: start,
                    held_frames: last - start + 1,
                    gap_before: match last_release {
                        Some(r) => Some(start - r),
                        None => None,
                    },
                    open: false,
                });
                last_release = Some(last + 1);
                run = None;
            }
        }
        match (pressed, run) {
            (true, None) => run = Some((frame, frame)),
            (true, Some((start, _))) => run = Some((start, frame)),
            (false, Some((start, last))) => {
                out.push(RunEvent {
                    start_frame: start,
                    held_frames: last - start + 1,
                    gap_before: match last_release {
                        Some(r) => Some(start - r),
                        None => None,
                    },
                    open: false,
                });
                last_release = Some(frame);
                run = None;
            },
            (false, None) => {},
        }
        prev_frame = Some(frame);
        i += 1;
    }
    proof {
        assert(samples@.take(n as int) =~= samples@);
    }
    if let Some((start, last)) = run {
        out.push(RunEvent {
            start_frame: start,
            held_frames: last - start + 1,
            gap_before: match last_release {
                Some(r) => Some(start - r),
                None => None,
            },
            open: true,
        });
    }
    proof {
        lemma_runs_account_for_every_press(samples@);
    }
    out
}

// ── the sampled ring ────────────────────────────────────────────────────

/// One frame's folded button masks for both ports (bit i = button i).
#[derive(Clone, Copy, Debug, PartialEq, Eq, Structural)]
pub struct Sample {
    pub frame: u64,
    pub p0: u16,
    pub p1: u16,
}

/// FNV-1a offset basis (the hash of no bytes).
pub const FNV_OFFSET_BASIS: u64 = 0xcbf2_9ce4_8422_2325;
/// FNV-1a prime.
pub const FNV_PRIME: u64 = 0x0000_0100_0000_01b3;

/// FNV-1a over `bytes`: xor each byte in, then multiply by the prime
/// modulo 2^64.
pub open spec fn fnv1a_spec(bytes: Seq<u8>) -> u64
    decreases bytes.len(),
{
    if bytes.len() == 0 {
        FNV_OFFSET_BASIS
    } else {
        (fnv1a_spec(bytes.drop_last()) ^ (bytes.last() as u64)).wrapping_mul(FNV_PRIME)
    }
}

/// The FNV-1a fingerprint of some bytes.
pub fn fnv1a(bytes: &[u8]) -> (h: u64)
    ensures
        h == fnv1a_spec(bytes@),
{
    let mut h: u64 = FNV_OFFSET_BASIS;
    let mut i: usize = 0;
    while i < bytes.len()
        invariant
            i <= bytes@.len(),
            h == fnv1a_spec(bytes@.take(i as int)),
        decreases bytes@.len() - i,
    {
        proof {
            assert(bytes@.take(i + 1).drop_last() =~= bytes@.take(i as int));
        }
        h = (h ^ bytes[i] as u64).wrapping_mul(FNV_PRIME);
        i += 1;
    }
    assert(bytes@.take(bytes@.len() as int) =~= bytes@);
    h
}

/// The input log: the ring of sampled frames, the last frame taken (the
/// pause de-duplication key) and the fingerprint of the last state note.
pub struct InputLogState {
    pub ring: VecDeque<Sample>,
    pub last_frame: Option<u64>,
    pub last_note_fp: u64,
}

/// Frames strictly increase along the ring.
pub open spec fn ring_chronological(ring: Seq<Sample>) -> bool {
    forall|i: int, j: int| 0 <= i < j < ring.len() ==> ring[i].frame < ring[j].frame
}

impl InputLogState {
    /// The ring is bounded and chronological, and `last_frame` is its newest
    /// frame (none when it is empty).
    pub open spec fn wf(&self) -> bool {
        &&& self.ring@.len() <= RING_CAPACITY_FRAMES
        &&& ring_chronological(self.ring@)
        &&& (self.ring@.len() == 0 <==> self.last_frame is None)
        &&& self.ring@.len() > 0 ==> self.last_frame == Some(self.ring@.last().frame)
    }

    pub fn new() -> (s: Self)
        ensures
            s.wf(),
            s.ring@.len() == 0,
            s.last_frame is None,
            s.last_note_fp == FNV_OFFSET_BASIS,
    {
        InputLogState { ring: VecDeque::new(), last_frame: None, last_note_fp: FNV_OFFSET_BASIS }
    }

    /// Append one sampled frame, dropping the oldest when the ring is full.
    pub fn push_frame(&mut self, s: Sample)
        requires
            old(self).wf(),
            old(self).last_frame matches Some(l) ==> s.frame > l,
        ensures
            final(self).wf(),
            final(self).ring@ == (if old(self).ring@.len() >= RING_CAPACITY_FRAMES {
                old(self).ring@.drop_first()
            } else {
                old(self).ring@
            }).push(s),
            final(self).last_frame == Some(s.frame),
            final(self).last_note_fp == old(self).last_note_fp,
    {
        if self.ring.len() >= RING_CAPACITY_FRAMES {
            self.ring.pop_front();
        }
        let ghost kept = self.ring@;
        self.ring.push_back(s);
        self.last_frame = Some(s.frame);
        proof {
            assert forall|i: int, j: int| 0 <= i < j < self.ring@.len() implies self.ring@[i].frame < self.ring@[j].frame by {
                if j == self.ring@.len() - 1 && kept.len() > 0 {
                    assert(self.ring@[i] == old(self).ring@[if old(self).ring@.len() >= RING_CAPACITY_FRAMES { i + 1 } else { i }]);
                } else if j < self.ring@.len() - 1 {
                    assert(self.ring@[i] == kept[i] && self.ring@[j] == kept[j]);
                    assert(kept[i] == old(self).ring@[if old(self).ring@.len() >= RING_CAPACITY_FRAMES { i + 1 } else { i }]);
                    assert(kept[j] == old(self).ring@[if old(self).ring@.len() >= RING_CAPACITY_FRAMES { j + 1 } else { j }]);
                }
            }
        }
    }
}

/// Discard the ring and the de-duplication key; sampling goes on.
pub fn clear(state: &mut InputLogState)
    ensures
        final(state).wf(),
        final(state).ring@.len() == 0,
        final(state).last_frame is None,
        final(state).last_note_fp == old(state).last_note_fp,
{
    state.ring.clear();
    state.last_frame = None;
}

/// The button mask of a port's 12 folded button states: bit i set when
/// button i is down.
pub open spec fn pack_mask_spec(bits: Seq<bool>, n: int) -> int
    decreases n,
{
    if n <= 0 {
        0
    } else {
        pack_mask_spec(bits, n - 1) + if bits[n - 1] { pow2_nat((n - 1) as nat) as int } else { 0 }
    }
}

pub open spec fn pow2_nat(n: nat) -> nat
    decreases n,
{
    if n == 0 { 1 } else { 2 * pow2_nat((n - 1) as nat) }
}

proof fn lemma_pack_bound(bits: Seq<bool>, n: int)
    requires
        0 <= n <= 12,
        bits.len() >= n,
    ensures
        0 <= pack_mask_spec(bits, n) < pow2_nat(n as nat),
    decreases n,
{
    if n > 0 {
        lemma_pack_bound(bits, n - 1);
    }
}

/// Pack 12 button states into a mask.
pub fn pack_mask(bits: &[bool; 12]) -> (m: u16)
    ensures
        m as int == pack_mask_spec(bits@, 12),
{
    let mut m: u16 = 0;
    let mut bitval: u16 = 1;
    let mut i: usize = 0;
    while i < 12
        invariant
            i <= 12,
            m as int == pack_mask_spec(bits@, i as int),
            i < 12 ==> bitval as nat == pow2_nat(i as nat),
            bits@.len() == 12,
        decreases 12 - i,
    {
        proof {
            lemma_pack_bound(bits@, i as int);
            assert(pow2_nat(i as nat) <= 2048) by {
                reveal_with_fuel(pow2_nat, 13);
            }
        }
        if bits[i] {
            m = m + bitval;
        }
        if i < 11 {
            bitval = bitval * 2;
        }
        i += 1;
    }
    m
}

/// Whether a state note announces a state load.
pub open spec fn announces_load(note: Seq<char>) -> bool {
    note.len() >= 6 && note.subrange(0, 6) == "loaded"@
}

/// A note's text as sampled: absent reads as empty.
pub open spec fn note_text(note: Option<&str>) -> Seq<char> {
    match note {
        Some(n) => n@,
        None => Seq::empty(),
    }
}

pub open spec fn note_bytes(note: Option<&str>) -> Seq<u8> {
    match note {
        Some(n) => n.spec_bytes(),
        None => Seq::empty(),
    }
}

/// A new load was seen: the note's fingerprint moved and it reports a load.
pub open spec fn new_load(prev_fp: u64, note: Option<&str>) -> bool {
    prev_fp != fnv1a_spec(note_bytes(note)) && announces_load(note_text(note))
}

impl InputLogState {
    /// Sample one emulated frame's folded input: a newly announced state
    /// load clears the ring first; a frame already taken (a paused frontend)
    /// adds nothing; otherwise the frame's two masks are appended.
    pub fn sample(&mut self, frame: u64, input0: &[bool; 12], input1: &[bool; 12], note: Option<&str>)
        requires
            old(self).wf(),
            old(self).last_frame matches Some(l) ==> frame >= l || new_load(old(self).last_note_fp, note),
        ensures
            final(self).wf(),
            final(self).last_note_fp == fnv1a_spec(note_bytes(note)),
            ({
                let base = if new_load(old(self).last_note_fp, note) { Seq::<Sample>::empty() } else { old(self).ring@ };
                let last = if new_load(old(self).last_note_fp, note) { None } else { old(self).last_frame };
                if last == Some(frame) {
                    final(self).ring@ == base && final(self).last_frame == last
                } else {
                    final(self).ring@ == (if base.len() >= RING_CAPACITY_FRAMES { base.drop_first() } else { base }).push(
                        Sample { frame, p0: pack_mask_spec(input0@, 12) as u16, p1: pack_mask_spec(input1@, 12) as u16 },
                    ) && final(self).last_frame == Some(frame)
                }
            }),
    {
        let fp = match note {
            Some(n) => fnv1a(n.as_bytes()),
            None => fnv1a(&[]),
        };
        proof {
            if note is None {
                assert(Seq::<u8>::empty() =~= note_bytes(note));
            }
        }
        let prev = self.last_note_fp;
        self.last_note_fp = fp;
        let is_load = match note {
            Some(n) => crate::text::starts_with_str(n, "loaded"),
            None => false,
        };
        proof {
            reveal_strlit("loaded");
        }
        if prev != fp && is_load {
            clear(self);
        }
        if self.last_frame == Some(frame) {
            return;
        }
        let p0 = pack_mask(input0);
        let p1 = pack_mask(input1);
        self.push_frame(Sample { frame, p0, p1 });
    }
}

/// One button's chronological `(frame, pressed)` stream for `port` (0 for
/// the first port, else the second).
pub open spec fn bit_stream_spec(ring: Seq<Sample>, port: usize, bit: u16) -> Seq<(u64, bool)> {
    ring.map_values(|s: Sample| (s.frame, ((if port == 0 { s.p0 } else { s.p1 }) & (1u16 << bit)) != 0))
}

/// Extract one button's stream for `port` out of the ring.
pub fn bit_stream(ring: &VecDeque<Sample>, port: usize, bit: u16) -> (out: Vec<(u64, bool)>)
    requires
        bit < 16,
    ensures
        out@ == bit_stream_spec(ring@, port, bit),
{
    let mut out: Vec<(u64, bool)> = Vec::new();
    let mut i: usize = 0;
    while i < ring.len()
        invariant
            i <= ring@.len(),
            bit < 16,
            out@ == bit_stream_spec(ring@.take(i as int), port, bit),
        decreases ring@.len() - i,
    {
        let s = ring[i];
        let mask = if port == 0 { s.p0 } else { s.p1 };
        out.push((s.frame, mask & (1u16 << bit) != 0));
        proof {
            assert(bit_stream_spec(ring@.take(i + 1), port, bit) =~= bit_stream_spec(ring@.take(i as int), port, bit).push(
                (s.frame, (mask & (1u16 << bit)) != 0)));
        }
        i += 1;
    }
    assert(ring@.take(ring@.len() as int) =~= ring@);
    out
}

/// Order of the merged log: by start frame, then by button.
pub open spec fn event_le(a: (usize, RunEvent), b: (usize, RunEvent)) -> bool {
    a.1.start_frame < b.1.start_frame || (a.1.start_frame == b.1.start_frame && a.0 <= b.0)
}

pub open spec fn sorted_events(s: Seq<(usize, RunEvent)>) -> bool {
    forall|i: int, j: int| 0 <= i < j < s.len() ==> event_le(s[i], s[j])
}

/// One button's runs on `port`, tagged with the button.
pub open spec fn tagged_runs(ring: Seq<Sample>, port: usize, bit: int) -> Seq<(usize, RunEvent)> {
    runs(bit_stream_spec(ring, port, bit as u16)).map_values(|e: RunEvent| (bit as usize, e))
}

/// The runs of the first `n` buttons, button by button.
pub open spec fn all_runs(ring: Seq<Sample>, port: usize, n: int) -> Seq<(usize, RunEvent)>
    decreases n,
{
    if n <= 0 {
        Seq::empty()
    } else {
        all_runs(ring, port, n - 1) + tagged_runs(ring, port, n - 1)
    }
}

/// Insert `e` after every entry that sorts at or before it.
fn insert_event(out: &mut Vec<(usize, RunEvent)>, e: (usize, RunEvent))
    requires
        sorted_events(old(out)@),
    ensures
        sorted_events(final(out)@),
        final(out)@.to_multiset() == old(out)@.to_multiset().insert(e),
{
    let mut p: usize = 0;
    while p < out.len() && (out[p].1.start_frame < e.1.start_frame || (out[p].1.start_frame == e.1.start_frame && out[p].0 <= e.0))
        invariant
            p <= out@.len(),
            sorted_events(out@),
            forall|k: int| 0 <= k < p ==> event_le(#[trigger] out@[k], e),
        decreases out@.len() - p,
    {
        p += 1;
    }
    let ghost before = out@;
    out.insert(p, e);
    proof {
        broadcast use vstd::seq_lib::to_multiset_insert;
        assert(out@ == before.insert(p as int, e));
        assert forall|i: int, j: int| 0 <= i < j < out@.len() implies event_le(out@[i], out@[j]) by {
            if j < p {
                assert(out@[i] == before[i] && out@[j] == before[j]);
            } else if j == p {
                assert(out@[i] == before[i]);
            } else if i == p {
                assert(out@[j] == before[j - 1]);
                if p < before.len() {
                    assert(!event_le(before[p as int], e));
                    assert(event_le(before[p as int], before[j - 1]) || j - 1 == p);
                }
            } else if i < p {
                assert(out@[i] == before[i] && out@[j] == before[j - 1]);
            } else {
                assert(out@[i] == before[i - 1] && out@[j] == before[j - 1]);
            }
        }
    }
}

proof fn lemma_ring_streams_chronological(ring: Seq<Sample>, port: usize, bit: u16)
    requires
        ring_chronological(ring),
    ensures
        chronological(bit_stream_spec(ring, port, bit)),
{
}

/// All 12 buttons' runs for `port`, merged into one log ordered by start
/// frame (ties by button), oldest first.
pub fn port_events(state: &InputLogState, port: usize) -> (out: Vec<(usize, RunEvent)>)
    requires
        state.wf(),
    ensures
        sorted_events(out@),
        out@.to_multiset() == all_runs(state.ring@, port, 12).to_multiset(),
{
    broadcast use vstd::seq_lib::group_to_multiset_ensures;
    let mut all: Vec<(usize, RunEvent)> = Vec::new();
    let mut bit: u16 = 0;
    while bit < 12
        invariant
            bit <= 12,
            state.wf(),
            sorted_events(all@),
            all@.to_multiset() == all_runs(state.ring@, port, bit as int).to_multiset(),
        decreases 12 - bit,
    {
        let stream = bit_stream(&state.ring, port, bit);
        proof {
            lemma_ring_streams_chronological(state.ring@, port, bit);
        }
        let evs = collapse_runs(stream.as_slice());
        let ghost tagged = tagged_runs(state.ring@, port, bit as int);
        let ghost prefix = all_runs(state.ring@, port, bit as int);
        proof {
            assert(prefix + tagged.take(0) =~= prefix);
        }
        let mut k: usize = 0;
        while k < evs.len()
            invariant
                k <= evs@.len(),
                bit < 12,
                evs@ == runs(bit_stream_spec(state.ring@, port, bit)),
                tagged == evs@.map_values(|e: RunEvent| (bit as usize, e)),
                prefix == all_runs(state.ring@, port, bit as int),
                sorted_events(all@),
                all@.to_multiset() == (prefix + tagged.take(k as int)).to_multiset(),
            decreases evs@.len() - k,
        {
            insert_event(&mut all, (bit as usize, evs[k]));
            proof {
                assert(prefix + tagged.take(k + 1) =~= (prefix + tagged.take(k as int)).push(tagged[k as int]));
                vstd::seq_lib::to_multiset_build(prefix + tagged.take(k as int), tagged[k as int]);
            }
            k += 1;
        }
        proof {
            assert(tagged.take(evs@.len() as int) =~= tagged);
            assert(all_runs(state.ring@, port, bit + 1) == prefix + tagged);
        }
        bit += 1;
    }
    all
}

/// `s` padded on the right with spaces to `width` (`{:<width}`).
fn push_left_aligned(s: &mut String, t: &str, width: usize)
    ensures
        final(s)@ == old(s)@ + crate::fmt::pad_right(t@, width as nat, ' '),
{
    crate::fmt::push_str(s, t);
    let n = t.unicode_len();
    if n < width {
        proof { reveal_strlit(" "); }
        crate::fmt::push_repeat(s, " ", width - n);
    }
    assert(s@ =~= old(s)@ + crate::fmt::pad_right(t@, width as nat, ' '));
}

/// One log line: `f<start, left-aligned 6> +<label, left-aligned 10>
/// (held Nf)` with a trailing ellipsis while still held, and the gap since
/// the previous release when there was one.
pub open spec fn entry_text(label: Seq<char>, ev: RunEvent) -> Seq<char> {
    let held = "held "@ + crate::fmt::dec(ev.held_frames as nat) + (if ev.open { "f\u{2026}"@ } else { "f"@ });
    "f"@ + crate::fmt::pad_right(crate::fmt::dec(ev.start_frame as nat), 6, ' ') + " +"@
        + crate::fmt::pad_right(label, 10, ' ') + " ("@ + held + ")"@ + (match ev.gap_before {
        Some(g) => "  gap "@ + crate::fmt::dec(g as nat) + "f"@,
        None => Seq::empty(),
    })
}

pub fn format_entry(label: &str, ev: &RunEvent) -> (s: String)
    ensures
        s@ == entry_text(label@, *ev),
{
    let mut s = String::new();
    crate::fmt::push_str(&mut s, "f");
    let start = crate::fmt::dec_string(ev.start_frame);
    push_left_aligned(&mut s, start.as_str(), 6);
    crate::fmt::push_str(&mut s, " +");
    push_left_aligned(&mut s, label, 10);
    crate::fmt::push_str(&mut s, " (held ");
    crate::fmt::push_dec(&mut s, ev.held_frames);
    if ev.open {
        crate::fmt::push_str(&mut s, "f\u{2026}");
    } else {
        crate::fmt::push_str(&mut s, "f");
    }
    crate::fmt::push_str(&mut s, ")");
    if let Some(g) = ev.gap_before {
        crate::fmt::push_str(&mut s, "  gap ");
        crate::fmt::push_dec(&mut s, g);
        crate::fmt::push_str(&mut s, "f");
    }
    proof {
        reveal_strlit(" (held ");
        reveal_strlit(" (");
        reveal_strlit("held ");
    }
    assert(s@ =~= entry_text(label@, *ev));
    s
}

/// Input-log panel state.
pub struct InputLogPanel {
    /// Stop auto-scrolling to the newest entry.
    pub freeze_scroll: bool,
}

impl InputLogPanel {
    pub fn new() -> (p: Self)
        ensures
            !p.freeze_scroll,
    {
        InputLogPanel { freeze_scroll: false }
    }

    /// A button's label: the core's descriptor when it sent one, else the
    /// raw RETRO_DEVICE_ID name.
    pub fn label(descriptors: &[[Option<String>; 12]; 2], port: usize, i: usize) -> (s: String)
        requires
            port < 2,
            i < 12,
        ensures
            s@ == match descriptors@[port as int]@[i as int] {
                Some(d) => d@,
                None => RETRO_NAMES@[i as int]@,
            },
    {
        match &descriptors[port][i] {
            Some(d) => crate::debug_state::clone_string(d),
            None => RETRO_NAMES[i].to_string(),
        }
    }
}

} // verus!
