//! Training-mode settings: the dummy's behavior, guard and reversal timing,
//! the block-punish option pool, the persisted settings subset, record and
//! playback slots, and the labels and time stamps the training panel shows.
use vstd::prelude::*;
use std::path::PathBuf;
use crate::debug_state::{clone_string, str_eq};
use crate::fmt::{dec, hex, pad_left, push_dec, push_padded, push_str};

verus! {

#[verifier::external_type_specification]
#[verifier::external_body]
pub struct ExPathBuf(PathBuf);

/// What the training dummy (controller port 1) does each frame.
#[derive(Clone, Copy, PartialEq, Eq, Debug, Structural)]
pub enum DummyMode {
    /// No injection: a human (or the shadow bot) drives port 1.
    Free,
    Stand,
    Crouch,
    /// Repeated hops.
    Jump,
    /// Hold away from the other fighter.
    Block,
    /// Guard, and punish on guarded contact from the option pool.
    BlockPunish,
}

impl Default for DummyMode {
    fn default() -> (m: Self)
        ensures
            m == DummyMode::Free,
    {
        DummyMode::Free
    }
}

/// When the guarding dummy takes a guard opportunity.
#[derive(Clone, Copy, PartialEq, Eq, Debug, Structural)]
pub enum GuardMode {
    /// Guard every opportunity.
    All,
    /// Guard only after a contact signal fired, for the rest of the string.
    AfterFirstHit,
    /// Guard each opportunity with the configured probability.
    Random,
    /// Never guard.
    Never,
}

impl Default for GuardMode {
    fn default() -> (m: Self)
        ensures
            m == GuardMode::All,
    {
        GuardMode::All
    }
}

pub open spec fn guard_mode_label(m: GuardMode) -> &'static str {
    match m {
        GuardMode::All => "Guard All",
        GuardMode::AfterFirstHit => "After First Hit",
        GuardMode::Random => "Random",
        GuardMode::Never => "None",
    }
}

impl GuardMode {
    pub fn label(self) -> (s: &'static str)
        ensures
            s == guard_mode_label(self),
    {
        match self {
            GuardMode::All => "Guard All",
            GuardMode::AfterFirstHit => "After First Hit",
            GuardMode::Random => "Random",
            GuardMode::Never => "None",
        }
    }
}

/// `GuardMode::Random`'s take-probability in percent (50 by default).
#[derive(Clone, Copy, PartialEq, Eq, Debug, Structural)]
pub struct GuardPct(pub u8);

impl Default for GuardPct {
    fn default() -> (p: Self)
        ensures
            p.0 == 50,
    {
        GuardPct(50)
    }
}

/// When a scheduled punish reversal starts, relative to its trigger.
#[derive(Clone, Copy, PartialEq, Eq, Debug, Structural)]
pub enum ReversalTiming {
    /// First possible frame.
    Fast,
    /// Random within `[min, max]` (a reversed pair is swapped).
    Delay { min: u64, max: u64 },
    /// The last frame that still reliably punishes.
    Late,
    /// A literal frame count.
    Explicit(u64),
}

/// A block-punish option: a named move, an attack class, or continuing to
/// block for a number of frames.
#[derive(Clone, Debug, PartialEq, Eq)]
pub enum PunishOption {
    Move(String),
    Attack(String),
    ContinueBlock(u16),
}

/// The persisted form of a [`PunishOption`].
#[derive(Clone, Debug, PartialEq, Eq)]
pub enum PersistedPunishOption {
    Move { name: String },
    Attack { class: String },
    ContinueBlock { frames: u16 },
}

/// What a punish option denotes: its variant, its text and its frame count.
pub open spec fn punish_view(o: PunishOption) -> (int, Seq<char>, u16) {
    match o {
        PunishOption::Move(n) => (0, n@, 0),
        PunishOption::Attack(c) => (1, c@, 0),
        PunishOption::ContinueBlock(f) => (2, Seq::empty(), f),
    }
}

pub open spec fn persisted_view(o: PersistedPunishOption) -> (int, Seq<char>, u16) {
    match o {
        PersistedPunishOption::Move { name } => (0, name@, 0),
        PersistedPunishOption::Attack { class } => (1, class@, 0),
        PersistedPunishOption::ContinueBlock { frames } => (2, Seq::empty(), frames),
    }
}

impl PersistedPunishOption {
    /// The persisted mirror of an option.
    pub fn from_option(o: &PunishOption) -> (p: Self)
        ensures
            persisted_view(p) == punish_view(*o),
    {
        match o {
            PunishOption::Move(name) => PersistedPunishOption::Move { name: clone_string(name) },
            PunishOption::Attack(class) => PersistedPunishOption::Attack { class: clone_string(class) },
            PunishOption::ContinueBlock(frames) => PersistedPunishOption::ContinueBlock { frames: *frames },
        }
    }
}

impl PunishOption {
    /// The option a persisted mirror stands for.
    pub fn from_persisted(p: PersistedPunishOption) -> (o: Self)
        ensures
            punish_view(o) == persisted_view(p),
    {
        match p {
            PersistedPunishOption::Move { name } => PunishOption::Move(name),
            PersistedPunishOption::Attack { class } => PunishOption::Attack(class),
            PersistedPunishOption::ContinueBlock { frames } => PunishOption::ContinueBlock(frames),
        }
    }
}

/// Pool identity of two options: any two Continue Block entries are the
/// same row whatever their frame counts; otherwise the options are equal.
pub open spec fn same_option_spec(a: PunishOption, b: PunishOption) -> bool {
    match (a, b) {
        (PunishOption::ContinueBlock(_), PunishOption::ContinueBlock(_)) => true,
        _ => punish_view(a) == punish_view(b),
    }
}

/// Pool identity (see [`same_option_spec`]).
pub fn same_option(a: &PunishOption, b: &PunishOption) -> (r: bool)
    ensures
        r == same_option_spec(*a, *b),
{
    match (a, b) {
        (PunishOption::ContinueBlock(_), PunishOption::ContinueBlock(_)) => true,
        (PunishOption::Move(x), PunishOption::Move(y)) => str_eq(x.as_str(), y.as_str()),
        (PunishOption::Attack(x), PunishOption::Attack(y)) => str_eq(x.as_str(), y.as_str()),
        _ => false,
    }
}

/// The user-facing settings subset of [`TrainingConfig`]: everything
/// runtime or session-scoped is left out.
pub struct PersistedTrainingConfig {
    pub dummy: DummyMode,
    pub guard_mode: GuardMode,
    pub guard_random_pct: GuardPct,
    pub reversal_timing: ReversalTiming,
    pub punish_pool: Vec<(PersistedPunishOption, u8)>,
}

/// Training-mode control block.
pub struct TrainingConfig {
    pub enabled: bool,
    pub dummy: DummyMode,
    pub refill: bool,
    pub reset_positions: bool,
    pub finish_round: bool,
    /// Block-punish option pool: (option, weight); weight 0 entries are dead.
    pub punish_pool: Vec<(PunishOption, u8)>,
    pub punish_prev_signal: Option<u8>,
    pub punish_last_change: u64,
    pub punish_armed: bool,
    pub punish_hold_until: u64,
    pub punish_gate_grace: u64,
    pub punish_wait: u64,
    /// Human-readable block-punish phase.
    pub punish_phase: String,
    pub guard_mode: GuardMode,
    pub guard_random_pct: GuardPct,
    pub guard_commit_until: u64,
    pub guard_prev_commit: bool,
    pub guard_roll: Option<bool>,
    pub guard_hit_seen: bool,
    pub guard_last_hit: u64,
    pub reversal_timing: ReversalTiming,
}

/// The views of a pool of options with weights.
pub open spec fn pool_view(pool: Seq<(PunishOption, u8)>) -> Seq<((int, Seq<char>, u16), u8)> {
    pool.map_values(|e: (PunishOption, u8)| (punish_view(e.0), e.1))
}

pub open spec fn persisted_pool_view(pool: Seq<(PersistedPunishOption, u8)>) -> Seq<((int, Seq<char>, u16), u8)> {
    pool.map_values(|e: (PersistedPunishOption, u8)| (persisted_view(e.0), e.1))
}

/// The runtime bookkeeping of a config: everything the settings file leaves
/// alone.
pub open spec fn runtime_part(c: TrainingConfig) -> (bool, bool, bool, bool, Option<u8>, u64, bool, u64, u64, u64, Seq<char>, u64, bool, Option<bool>, bool, u64) {
    (c.enabled, c.refill, c.reset_positions, c.finish_round, c.punish_prev_signal, c.punish_last_change,
        c.punish_armed, c.punish_hold_until, c.punish_gate_grace, c.punish_wait, c.punish_phase@,
        c.guard_commit_until, c.guard_prev_commit, c.guard_roll, c.guard_hit_seen, c.guard_last_hit)
}

/// The settings a config carries.
pub open spec fn settings_part(c: TrainingConfig) -> (DummyMode, GuardMode, GuardPct, ReversalTiming, Seq<((int, Seq<char>, u16), u8)>) {
    (c.dummy, c.guard_mode, c.guard_random_pct, c.reversal_timing, pool_view(c.punish_pool@))
}

pub open spec fn persisted_settings(p: PersistedTrainingConfig) -> (DummyMode, GuardMode, GuardPct, ReversalTiming, Seq<((int, Seq<char>, u16), u8)>) {
    (p.dummy, p.guard_mode, p.guard_random_pct, p.reversal_timing, persisted_pool_view(p.punish_pool@))
}

impl TrainingConfig {
    /// A fresh config: everything off and empty, the dummy free, guarding
    /// every opportunity at 50%, punishing after `punish_delay` frames.
    pub fn new(punish_delay: u64) -> (c: Self)
        ensures
            !c.enabled,
            c.dummy == DummyMode::Free,
            c.guard_mode == GuardMode::All,
            c.guard_random_pct.0 == 50,
            c.reversal_timing == ReversalTiming::Explicit(punish_delay),
            c.punish_pool@.len() == 0,
            runtime_part(c) == (false, false, false, false, None::<u8>, 0u64, false, 0u64, 0u64, 0u64, Seq::<char>::empty(),
                0u64, false, None::<bool>, false, 0u64),
    {
        TrainingConfig {
            enabled: false,
            dummy: DummyMode::Free,
            refill: false,
            reset_positions: false,
            finish_round: false,
            punish_pool: Vec::new(),
            punish_prev_signal: None,
            punish_last_change: 0,
            punish_armed: false,
            punish_hold_until: 0,
            punish_gate_grace: 0,
            punish_wait: 0,
            punish_phase: String::new(),
            guard_mode: GuardMode::All,
            guard_random_pct: GuardPct(50),
            guard_commit_until: 0,
            guard_prev_commit: false,
            guard_roll: None,
            guard_hit_seen: false,
            guard_last_hit: 0,
            reversal_timing: ReversalTiming::Explicit(punish_delay),
        }
    }

    /// The settings subset to persist.
    pub fn to_persisted(&self) -> (p: PersistedTrainingConfig)
        ensures
            persisted_settings(p) == settings_part(*self),
    {
        let mut pool: Vec<(PersistedPunishOption, u8)> = Vec::new();
        let mut i: usize = 0;
        while i < self.punish_pool.len()
            invariant
                i <= self.punish_pool@.len(),
                pool@.len() == i,
                persisted_pool_view(pool@) == pool_view(self.punish_pool@.take(i as int)),
            decreases self.punish_pool@.len() - i,
        {
            let ghost before = pool@;
            let (o, w) = (&self.punish_pool[i].0, self.punish_pool[i].1);
            pool.push((PersistedPunishOption::from_option(o), w));
            proof {
                assert(pool@ == before.push(pool@[i as int]));
                assert(self.punish_pool@.take(i + 1) == self.punish_pool@.take(i as int).push(self.punish_pool@[i as int]));
                assert(persisted_pool_view(pool@) =~= persisted_pool_view(before).push((persisted_view(pool@[i as int].0), w)));
                assert(pool_view(self.punish_pool@.take(i + 1)) =~= pool_view(self.punish_pool@.take(i as int)).push((punish_view(self.punish_pool@[i as int].0), w)));
            }
            i += 1;
        }
        proof {
            assert(self.punish_pool@.take(self.punish_pool@.len() as int) =~= self.punish_pool@);
        }
        PersistedTrainingConfig {
            dummy: self.dummy,
            guard_mode: self.guard_mode,
            guard_random_pct: self.guard_random_pct,
            reversal_timing: self.reversal_timing,
            punish_pool: pool,
        }
    }

    /// Overlay persisted settings, leaving the runtime bookkeeping untouched.
    pub fn apply_persisted(&mut self, p: PersistedTrainingConfig)
        ensures
            settings_part(*final(self)) == persisted_settings(p),
            runtime_part(*final(self)) == runtime_part(*old(self)),
    {
        let ghost pv = persisted_pool_view(p.punish_pool@);
        self.dummy = p.dummy;
        self.guard_mode = p.guard_mode;
        self.guard_random_pct = p.guard_random_pct;
        self.reversal_timing = p.reversal_timing;
        let mut src = p.punish_pool;
        let mut pool: Vec<(PunishOption, u8)> = Vec::new();
        let ghost orig = src@;
        let mut taken: usize = 0;
        let n = src.len();
        while taken < n
            invariant
                n == orig.len(),
                taken <= n,
                src@ == orig.skip(taken as int),
                pool@.len() == taken,
                pool_view(pool@) == persisted_pool_view(orig.take(taken as int)),
            decreases n - taken,
        {
            let ghost before = pool@;
            let (o, w) = src.remove(0);
            proof {
                assert(o == orig[taken as int].0 && w == orig[taken as int].1);
            }
            pool.push((PunishOption::from_persisted(o), w));
            proof {
                assert(src@ =~= orig.skip(taken + 1));
                assert(orig.take(taken + 1) == orig.take(taken as int).push(orig[taken as int]));
                assert(pool@ == before.push(pool@[taken as int]));
                assert(pool_view(pool@) =~= pool_view(before).push((punish_view(pool@[taken as int].0), w)));
                assert(persisted_pool_view(orig.take(taken + 1)) =~= persisted_pool_view(orig.take(taken as int)).push((persisted_view(orig[taken as int].0), w)));
            }
            taken += 1;
        }
        proof {
            assert(orig.take(n as int) =~= orig);
        }
        self.punish_pool = pool;
    }

    /// Merge the settings read back from the sidecar, if any: a missing or
    /// unparsable sidecar (`None`) leaves the config as it was.
    pub fn merge_persisted(&mut self, loaded: Option<PersistedTrainingConfig>)
        ensures
            loaded is None ==> settings_part(*final(self)) == settings_part(*old(self)),
            loaded matches Some(p) ==> settings_part(*final(self)) == persisted_settings(p),
            runtime_part(*final(self)) == runtime_part(*old(self)),
    {
        if let Some(p) = loaded {
            self.apply_persisted(p);
        }
    }
}

/// The first pool entry at or after `i` that is the same row as `opt`, or
/// the pool's length when there is none.
pub open spec fn find_same(pool: Seq<(PunishOption, u8)>, opt: PunishOption, i: int) -> int
    decreases pool.len() - i,
{
    if i >= pool.len() {
        pool.len() as int
    } else if same_option_spec(pool[i].0, opt) {
        i
    } else {
        find_same(pool, opt, i + 1)
    }
}

proof fn lemma_find_same_range(pool: Seq<(PunishOption, u8)>, opt: PunishOption, i: int)
    requires
        0 <= i <= pool.len(),
    ensures
        i <= find_same(pool, opt, i) <= pool.len(),
        find_same(pool, opt, i) < pool.len() ==> same_option_spec(pool[find_same(pool, opt, i)].0, opt),
    decreases pool.len() - i,
{
    if i < pool.len() && !same_option_spec(pool[i].0, opt) {
        lemma_find_same_range(pool, opt, i + 1);
    }
}

/// `after` is `before` with `opt`'s weight set to `w`: its row updated when
/// the pool has one, else a row appended.
pub open spec fn weight_set(before: Seq<(PunishOption, u8)>, after: Seq<(PunishOption, u8)>, opt: PunishOption, w: u8) -> bool {
    let k = find_same(before, opt, 0);
    if k < before.len() {
        pool_view(after) == pool_view(before).update(k, (punish_view(before[k].0), w))
    } else {
        pool_view(after) == pool_view(before).push((punish_view(opt), w))
    }
}

proof fn lemma_same_by_view(a: PunishOption, b: PunishOption, x: PunishOption)
    requires
        punish_view(a) == punish_view(b),
    ensures
        same_option_spec(a, x) == same_option_spec(b, x),
{
}

proof fn lemma_same_equiv(a: PunishOption, b: PunishOption, c: PunishOption)
    requires
        same_option_spec(a, b),
        same_option_spec(a, c),
    ensures
        same_option_spec(b, c),
{
}

/// Two pools whose rows look alike find every option at the same row.
proof fn lemma_find_same_alike(p: Seq<(PunishOption, u8)>, q: Seq<(PunishOption, u8)>, x: PunishOption, i: int)
    requires
        0 <= i <= p.len(),
        p.len() == q.len(),
        forall|j: int| 0 <= j < p.len() ==> punish_view(#[trigger] p[j].0) == punish_view(q[j].0),
    ensures
        find_same(p, x, i) == find_same(q, x, i),
    decreases p.len() - i,
{
    if i < p.len() {
        lemma_same_by_view(p[i].0, q[i].0, x);
        lemma_find_same_alike(p, q, x, i + 1);
    }
}

/// A pool with one row appended finds an option where it did before, else
/// at the new row when that row is the option's, else nowhere.
proof fn lemma_find_same_pushed(p: Seq<(PunishOption, u8)>, q: Seq<(PunishOption, u8)>, x: PunishOption, i: int)
    requires
        0 <= i <= p.len(),
        q.len() == p.len() + 1,
        forall|j: int| 0 <= j < p.len() ==> punish_view(#[trigger] q[j].0) == punish_view(p[j].0),
    ensures
        find_same(q, x, i) == if find_same(p, x, i) < p.len() {
            find_same(p, x, i)
        } else if same_option_spec(q[p.len() as int].0, x) {
            p.len() as int
        } else {
            q.len() as int
        },
    decreases p.len() - i,
{
    if i < p.len() {
        lemma_same_by_view(q[i].0, p[i].0, x);
        lemma_find_same_pushed(p, q, x, i + 1);
    } else {
        assert(find_same(q, x, q.len() as int) == q.len());
        assert(find_same(p, x, i) == p.len());
    }
}

/// Setting an option's weight makes that its weight, and leaves the weight
/// of every option that is not the same row alone.
pub proof fn lemma_weight_set_then_get(
    before: Seq<(PunishOption, u8)>,
    after: Seq<(PunishOption, u8)>,
    opt: PunishOption,
    w: u8,
    other: PunishOption,
)
    requires
        weight_set(before, after, opt, w),
        !same_option_spec(other, opt),
    ensures
        pool_weight_of(after, opt) == w,
        pool_weight_of(after, other) == pool_weight_of(before, other),
{
    let k = find_same(before, opt, 0);
    lemma_find_same_range(before, opt, 0);
    lemma_find_same_range(before, other, 0);
    assert(pool_view(after).len() == after.len());
    assert(pool_view(before).len() == before.len());
    if k < before.len() {
        assert forall|j: int| 0 <= j < before.len() implies punish_view(#[trigger] before[j].0) == punish_view(after[j].0) by {
            assert(pool_view(after)[j] == pool_view(before).update(k, (punish_view(before[k].0), w))[j]);
        }
        assert(pool_view(after)[k] == (punish_view(before[k].0), w));
        lemma_find_same_alike(before, after, opt, 0);
        lemma_find_same_alike(before, after, other, 0);
        let f = find_same(before, other, 0);
        if f < before.len() {
            if f == k {
                lemma_same_equiv(before[k].0, opt, other);
            }
            assert(pool_view(after)[f] == pool_view(before).update(k, (punish_view(before[k].0), w))[f]);
        }
    } else {
        assert forall|j: int| 0 <= j < before.len() implies punish_view(#[trigger] after[j].0) == punish_view(before[j].0) by {
            assert(pool_view(after)[j] == pool_view(before).push((punish_view(opt), w))[j]);
        }
        let n = before.len() as int;
        assert(pool_view(after)[n] == (punish_view(opt), w));
        lemma_find_same_pushed(before, after, opt, 0);
        lemma_find_same_pushed(before, after, other, 0);
        lemma_same_by_view(after[n].0, opt, opt);
        lemma_same_by_view(after[n].0, opt, other);
        let f = find_same(before, other, 0);
        if f < before.len() {
            assert(pool_view(after)[f] == pool_view(before).push((punish_view(opt), w))[f]);
        }
    }
}

/// The weight the pool gives `opt`'s row (0 when it has none).
pub open spec fn pool_weight_of(pool: Seq<(PunishOption, u8)>, opt: PunishOption) -> u8 {
    let k = find_same(pool, opt, 0);
    if k < pool.len() { pool[k].1 } else { 0 }
}

/// A copy of an option.
pub fn clone_option(o: &PunishOption) -> (c: PunishOption)
    ensures
        punish_view(c) == punish_view(*o),
{
    match o {
        PunishOption::Move(n) => PunishOption::Move(clone_string(n)),
        PunishOption::Attack(c) => PunishOption::Attack(clone_string(c)),
        PunishOption::ContinueBlock(f) => PunishOption::ContinueBlock(*f),
    }
}

/// How long the panel's Continue Block row holds block.
pub const PUNISH_CONTINUE_FRAMES: u16 = 30;

impl TrainingConfig {
    /// The weight of `opt`'s row in the punish pool (0 when absent).
    pub fn pool_weight(&self, opt: &PunishOption) -> (w: u8)
        ensures
            w == pool_weight_of(self.punish_pool@, *opt),
    {
        let mut i: usize = 0;
        while i < self.punish_pool.len()
            invariant
                i <= self.punish_pool@.len(),
                find_same(self.punish_pool@, *opt, i as int) == find_same(self.punish_pool@, *opt, 0),
            decreases self.punish_pool@.len() - i,
        {
            if same_option(&self.punish_pool[i].0, opt) {
                return self.punish_pool[i].1;
            }
            i += 1;
        }
        0
    }

    /// Set `opt`'s weight: its row when the pool has one, else a new row.
    pub fn set_pool_weight(&mut self, opt: &PunishOption, w: u8)
        ensures
            weight_set(old(self).punish_pool@, final(self).punish_pool@, *opt, w),
            settings_part(*final(self)).0 == settings_part(*old(self)).0,
            runtime_part(*final(self)) == runtime_part(*old(self)),
    {
        let ghost old_pool = self.punish_pool@;
        let mut i: usize = 0;
        let n = self.punish_pool.len();
        while i < n && !same_option(&self.punish_pool[i].0, opt)
            invariant
                i <= n,
                n == self.punish_pool@.len(),
                self.punish_pool@ == old_pool,
                find_same(old_pool, *opt, i as int) == find_same(old_pool, *opt, 0),
            decreases n - i,
        {
            i += 1;
        }
        if i < n {
            let o = clone_option(&self.punish_pool[i].0);
            self.punish_pool.set(i, (o, w));
            proof {
                assert(pool_view(self.punish_pool@) =~= pool_view(old_pool).update(
                    i as int, (punish_view(old_pool[i as int].0), w)));
            }
        } else {
            let c = clone_option(opt);
            self.punish_pool.push((c, w));
            proof {
                assert(pool_view(self.punish_pool@) =~= pool_view(old_pool).push((punish_view(*opt), w)));
            }
        }
    }

    /// On first open, an empty pool gets the offered list's first special
    /// at weight 3 and Continue Block at weight 1.
    pub fn seed_default_pool(&mut self, options: &[PunishOption])
        ensures
            old(self).punish_pool@.len() > 0 ==> final(self).punish_pool@ == old(self).punish_pool@,
            old(self).punish_pool@.len() == 0 ==> pool_view(final(self).punish_pool@) == match first_move(options@, 0) {
                Some(k) => seq![(punish_view(options@[k]), 3u8), ((2int, Seq::<char>::empty(), PUNISH_CONTINUE_FRAMES), 1u8)],
                None => seq![((2int, Seq::<char>::empty(), PUNISH_CONTINUE_FRAMES), 1u8)],
            },
            runtime_part(*final(self)) == runtime_part(*old(self)),
    {
        if self.punish_pool.len() > 0 {
            return;
        }
        let mut i: usize = 0;
        while i < options.len() && !is_move(&options[i])
            invariant
                i <= options@.len(),
                first_move(options@, i as int) == first_move(options@, 0),
            decreases options@.len() - i,
        {
            i += 1;
        }
        if i < options.len() {
            let o = clone_option(&options[i]);
            self.punish_pool.push((o, 3));
        }
        self.punish_pool.push((PunishOption::ContinueBlock(PUNISH_CONTINUE_FRAMES), 1));
        proof {
            let want = match first_move(options@, 0) {
                Some(k) => seq![(punish_view(options@[k]), 3u8), ((2int, Seq::<char>::empty(), PUNISH_CONTINUE_FRAMES), 1u8)],
                None => seq![((2int, Seq::<char>::empty(), PUNISH_CONTINUE_FRAMES), 1u8)],
            };
            assert(pool_view(self.punish_pool@) =~= want);
        }
    }
}

fn is_move(o: &PunishOption) -> (b: bool)
    ensures
        b == (*o is Move),
{
    match o {
        PunishOption::Move(_) => true,
        _ => false,
    }
}

/// The index of the first named move at or after `i` among `options`.
pub open spec fn first_move(options: Seq<PunishOption>, i: int) -> Option<int>
    decreases options.len() - i,
{
    if i >= options.len() {
        None
    } else if options[i] is Move {
        Some(i)
    } else {
        first_move(options, i + 1)
    }
}

/// Saving the settings and loading them back restores them exactly, and
/// never touches the runtime bookkeeping of the config loaded into.
pub proof fn lemma_settings_round_trip(saved: TrainingConfig, p: PersistedTrainingConfig, before: TrainingConfig, after: TrainingConfig)
    requires
        persisted_settings(p) == settings_part(saved),
        settings_part(after) == persisted_settings(p),
        runtime_part(after) == runtime_part(before),
    ensures
        settings_part(after) == settings_part(saved),
        runtime_part(after) == runtime_part(before),
{
}

/// Which controller port(s) a playback drives.
#[derive(Clone, Copy, PartialEq, Eq, Debug, Structural)]
pub enum PlaybackPort {
    P1,
    P2,
    Both,
}

pub open spec fn drives_spec(p: PlaybackPort, port: usize) -> bool {
    (port == 0 && (p == PlaybackPort::P1 || p == PlaybackPort::Both)) || (port == 1 && (p
        == PlaybackPort::P2 || p == PlaybackPort::Both))
}

impl PlaybackPort {
    /// Whether this target includes zero-indexed port `port` (0 or 1).
    pub fn drives(self, port: usize) -> (b: bool)
        ensures
            b == drives_spec(self, port),
    {
        match (self, port) {
            (PlaybackPort::P1, 0) | (PlaybackPort::Both, 0) | (PlaybackPort::P2, 1) | (PlaybackPort::Both, 1) => true,
            _ => false,
        }
    }
}

impl Default for PlaybackPort {
    fn default() -> (p: Self)
        ensures
            p == PlaybackPort::Both,
    {
        PlaybackPort::Both
    }
}

/// When an armed playback begins consuming its recorded frames.
#[derive(Clone, Copy, PartialEq, Eq, Debug, Structural)]
pub enum PlaybackTrigger {
    /// On the next real emulated frame.
    Manual,
    /// On the fight gate's next closed-to-open transition.
    RoundStart,
}

impl Default for PlaybackTrigger {
    fn default() -> (t: Self)
        ensures
            t == PlaybackTrigger::Manual,
    {
        PlaybackTrigger::Manual
    }
}

/// An in-progress capture of both ports' folded per-frame input.
pub struct RecordingSlot {
    pub name: String,
    pub family: String,
    pub port: String,
    /// The state note at the moment recording started.
    pub state_note_at_start: Option<String>,
    /// `[p1_mask, p2_mask]` per frame.
    pub frames: Vec<[u16; 2]>,
}

/// An in-progress (or armed) replay of a loaded slot.
pub struct PlaybackSlot {
    pub name: String,
    pub port: PlaybackPort,
    pub trigger: PlaybackTrigger,
    pub frames: Vec<[u16; 2]>,
    /// The trigger has fired and frames are being played.
    pub started: bool,
    /// Index of the next frame to play.
    pub idx: usize,
    /// Every frame has been played.
    pub done: bool,
    /// The round-start gate's value when last observed while armed.
    pub gate_baseline: Option<bool>,
}

/// A save/load-state request queued for the emulation thread.
pub enum StateOp {
    Save(PathBuf),
    Load(PathBuf),
    SaveSlot(u8),
    LoadSlot(u8),
}

/// Completion record for a drained [`StateOp`].
pub struct StateOpDone {
    /// True for a load, false for a save.
    pub loaded: bool,
    /// The resolved on-disk state file.
    pub path: PathBuf,
    /// Size of the serialized state in bytes.
    pub bytes: usize,
}

/// Recorder control one-shot.
pub enum RecordControl {
    /// Begin a fresh recording at this path with an optional style tag.
    Start { path: PathBuf, style: Option<String> },
    /// Flush and close the active recording.
    Stop,
}

/// Identity and fit summary of the loaded shadow model.
pub struct ShadowModelInfo {
    pub name: String,
    pub cases: usize,
    pub rounds: Option<u64>,
    pub created: Option<String>,
    pub buckets: Vec<(String, u64)>,
}

pub open spec fn dummy_label_spec(mode: DummyMode, reactive: bool) -> &'static str {
    match mode {
        DummyMode::Free => "Free (human / shadow drives P2)",
        DummyMode::Stand => "Stand",
        DummyMode::Crouch => "Crouch",
        DummyMode::Jump => "Jump (hop cadence)",
        DummyMode::Block => if reactive { "Block (reactive guard)" } else { "Block (hold block button)" },
        DummyMode::BlockPunish => if reactive {
            "Block + punish (on attack commit)"
        } else {
            "Block + punish (on contact)"
        },
    }
}

/// The dummy-mode label, which for the guarding modes depends on whether the
/// game family guards reactively (back-hold) or with a block button.
pub fn dummy_label(mode: DummyMode, reactive: bool) -> (s: &'static str)
    ensures
        s == dummy_label_spec(mode, reactive),
{
    match (mode, reactive) {
        (DummyMode::Free, _) => "Free (human / shadow drives P2)",
        (DummyMode::Stand, _) => "Stand",
        (DummyMode::Crouch, _) => "Crouch",
        (DummyMode::Jump, _) => "Jump (hop cadence)",
        (DummyMode::Block, true) => "Block (reactive guard)",
        (DummyMode::Block, false) => "Block (hold block button)",
        (DummyMode::BlockPunish, true) => "Block + punish (on attack commit)",
        (DummyMode::BlockPunish, false) => "Block + punish (on contact)",
    }
}

pub open spec fn reversal_timing_label_spec(t: ReversalTiming) -> &'static str {
    match t {
        ReversalTiming::Fast => "Fast (first possible frame)",
        ReversalTiming::Delay { .. } => "Delay (randomized)",
        ReversalTiming::Late => "Late (last frame that still punishes)",
        ReversalTiming::Explicit(_) => "Explicit (frame count)",
    }
}

/// The reversal-timing label.
pub fn reversal_timing_label(t: &ReversalTiming) -> (s: &'static str)
    ensures
        s == reversal_timing_label_spec(*t),
{
    match t {
        ReversalTiming::Fast => "Fast (first possible frame)",
        ReversalTiming::Delay { .. } => "Delay (randomized)",
        ReversalTiming::Late => "Late (last frame that still punishes)",
        ReversalTiming::Explicit(_) => "Explicit (frame count)",
    }
}

/// The proleptic Gregorian (year, month, day) of day `days` since
/// 1970-01-01, by the era decomposition of `civil_from_days`.
pub open spec fn civil(days: int) -> (int, int, int) {
    let z = days + 719468;
    let era = z / 146097;
    let doe = z % 146097;
    let yoe = (doe - doe / 1460 + doe / 36524 - doe / 146096) / 365;
    let doy = doe - (365 * yoe + yoe / 4 - yoe / 100);
    let mp = (5 * doy + 2) / 153;
    let d = doy - (153 * mp + 2) / 5 + 1;
    let m = if mp < 10 { mp + 3 } else { mp - 9 };
    let y = yoe + era * 400 + if m <= 2 { 1int } else { 0 };
    (y, m, d)
}

/// "YYYYMMDD-HHMM" (UTC) for `secs` seconds after the epoch, each field
/// zero-padded.
pub open spec fn stamp(secs: nat) -> Seq<char> {
    let (y, m, d) = civil((secs / 86400) as int);
    pad_left(dec(y as nat), 4, '0') + pad_left(dec(m as nat), 2, '0') + pad_left(dec(d as nat), 2, '0')
        + "-"@ + pad_left(dec(((secs % 86400) / 3600) as nat), 2, '0') + pad_left(dec(((secs % 3600) / 60) as nat), 2, '0')
}

proof fn lemma_civil_ranges(days: int)
    requires
        0 <= days <= 0x1_0000_0000_0000_0000int / 86400,
    ensures
        civil(days).0 >= 0,
        civil(days).0 <= 0x1_0000_0000_0000_0000,
        1 <= civil(days).1 <= 12,
        1 <= civil(days).2 <= 31,
{
    let z = days + 719468;
    let era = z / 146097;
    let doe = z % 146097;
    assert(0 <= doe < 146097);
    assert(0 <= era <= z) by (nonlinear_arith) requires z >= 0, era == z / 146097;
    let yoe = (doe - doe / 1460 + doe / 36524 - doe / 146096) / 365;
    assert(0 <= yoe <= 399) by (nonlinear_arith)
        requires 0 <= doe < 146097, yoe == (doe - doe / 1460 + doe / 36524 - doe / 146096) / 365;
    let doy = doe - (365 * yoe + yoe / 4 - yoe / 100);
    assert(0 <= doy <= 365) by (nonlinear_arith)
        requires
            0 <= doe < 146097,
            yoe == (doe - doe / 1460 + doe / 36524 - doe / 146096) / 365,
            doy == doe - (365 * yoe + yoe / 4 - yoe / 100);
    let mp = (5 * doy + 2) / 153;
    assert(0 <= mp <= 11);
    let d = doy - (153 * mp + 2) / 5 + 1;
    assert(1 <= d <= 31) by (nonlinear_arith)
        requires 0 <= doy <= 365, mp == (5 * doy + 2) / 153, d == doy - (153 * mp + 2) / 5 + 1;
    assert(era * 400 <= z * 400) by (nonlinear_arith) requires 0 <= era <= z;
}

/// Epoch seconds to "YYYYMMDD-HHMM" (UTC), for auto-named recordings.
pub fn stamp_from_secs(secs: u64) -> (s: String)
    ensures
        s@ == stamp(secs as nat),
{
    let days: u64 = secs / 86400;
    let h: u64 = (secs % 86400) / 3600;
    let mi: u64 = (secs % 3600) / 60;
    proof {
        assert(days <= 0x1_0000_0000_0000_0000int / 86400);
        lemma_civil_ranges(days as int);
    }
    let z: u64 = days + 719468;
    let era: u64 = z / 146097;
    let doe: u64 = z % 146097;
    let yoe: u64 = (doe - doe / 1460 + doe / 36524 - doe / 146096) / 365;
    let doy: u64 = doe - (365 * yoe + yoe / 4 - yoe / 100);
    let mp: u64 = (5 * doy + 2) / 153;
    let d: u64 = doy - (153 * mp + 2) / 5 + 1;
    let mth: u64 = if mp < 10 { mp + 3 } else { mp - 9 };
    let y: u64 = yoe + era * 400 + if mth <= 2 { 1 } else { 0 };
    let mut s = String::new();
    proof { reveal_strlit("0"); }
    push_padded(&mut s, y, 10, 4, "0");
    push_padded(&mut s, mth, 10, 2, "0");
    push_padded(&mut s, d, 10, 2, "0");
    push_str(&mut s, "-");
    push_padded(&mut s, h, 10, 2, "0");
    push_padded(&mut s, mi, 10, 2, "0");
    assert(s@ =~= stamp(secs as nat));
    s
}

/// "Ns ago", "Nm ago", "Nh ago" or "Nd ago" for an age in seconds, in the
/// largest unit that is at least one.
pub open spec fn age_text(age: nat) -> Seq<char> {
    if age < 60 {
        dec(age) + "s ago"@
    } else if age < 3600 {
        dec(age / 60) + "m ago"@
    } else if age < 86400 {
        dec(age / 3600) + "h ago"@
    } else {
        dec(age / 86400) + "d ago"@
    }
}

/// A file's age, given in whole seconds since it was modified.
pub fn age_str(age: u64) -> (s: String)
    ensures
        s@ == age_text(age as nat),
{
    let mut s = String::new();
    if age < 60 {
        push_dec(&mut s, age);
        push_str(&mut s, "s ago");
    } else if age < 3600 {
        push_dec(&mut s, age / 60);
        push_str(&mut s, "m ago");
    } else if age < 86400 {
        push_dec(&mut s, age / 3600);
        push_str(&mut s, "h ago");
    } else {
        push_dec(&mut s, age / 86400);
        push_str(&mut s, "d ago");
    }
    assert(s@ =~= age_text(age as nat));
    s
}

} // verus!
