//! Rate limiting for the core's log lines: at most [`MAX_LINES_PER_SEC`]
//! lines per one-second window; excess lines are dropped and tallied, and
//! the tally is reported once when the next window opens.
//!
//! Times are nanoseconds on a monotonic clock (for instance an `Instant`'s
//! distance from a fixed origin instant).
use vstd::prelude::*;

verus! {

/// Lines admitted per one-second window before further lines are dropped.
pub const MAX_LINES_PER_SEC: u32 = 200;

/// Nanoseconds in the one-second window.
pub const WINDOW_NS: u64 = 1_000_000_000;

/// Decision for one incoming log line.
#[derive(Debug, PartialEq, Eq, Structural)]
pub enum LogGate {
    /// Print the line.
    Emit,
    /// Print "suppressed N lines" first, then the line.
    EmitWithSummary(u64),
    /// Drop the line silently (counted for a later summary).
    Drop,
}

/// Per-second rate limiter state.
pub struct RateLimiter {
    window_start: u64,
    count: u32,
    suppressed: u64,
}

/// Whether a full second has passed from `start` to `now` (the elapsed
/// time being zero when `now` is earlier, as `Instant::duration_since`
/// saturates).
pub open spec fn second_passed(start: u64, now: u64) -> bool {
    now >= start && now - start >= WINDOW_NS
}

/// The outcome of admitting one line: the decision, then the new line count
/// and drop tally. `rolled` says whether a full second has passed since the
/// window opened.
pub open spec fn gate_step(count: u32, suppressed: u64, rolled: bool) -> (LogGate, u32, u64) {
    if rolled {
        (if suppressed > 0 { LogGate::EmitWithSummary(suppressed) } else { LogGate::Emit }, 1, 0)
    } else if count + 1 <= MAX_LINES_PER_SEC {
        (LogGate::Emit, (count + 1) as u32, suppressed)
    } else {
        (LogGate::Drop, (count + 1) as u32, (suppressed + 1) as u64)
    }
}

impl RateLimiter {
    /// Lines seen in the current window.
    pub closed spec fn count(&self) -> u32 {
        self.count
    }

    /// Lines dropped in the current window.
    pub closed spec fn suppressed(&self) -> u64 {
        self.suppressed
    }

    /// When the current window opened.
    pub closed spec fn window_start(&self) -> u64 {
        self.window_start
    }

    /// Lines seen in the current window.
    pub fn lines_in_window(&self) -> (n: u32)
        ensures
            n == self.count(),
    {
        self.count
    }

    /// The drop tally is exactly the lines seen beyond the budget.
    pub open spec fn wf(&self) -> bool {
        self.suppressed() == (if self.count() > MAX_LINES_PER_SEC {
            self.count() - MAX_LINES_PER_SEC
        } else {
            0
        })
    }

    /// A limiter whose first window opens at `now`.
    pub fn new(now: u64) -> (r: Self)
        ensures
            r.count() == 0,
            r.suppressed() == 0,
            r.window_start() == now,
            r.wf(),
    {
        RateLimiter { window_start: now, count: 0, suppressed: 0 }
    }

    /// Admit one line arriving at `now`: once a full second has passed since
    /// the window opened, a new window opens at `now`, reports the previous
    /// window's tally and counts this line as its first; otherwise the line
    /// is emitted while the window's budget lasts and dropped after.
    pub fn admit_line(&mut self, now: u64) -> (g: LogGate)
        requires
            old(self).wf(),
            old(self).count() < u32::MAX,
        ensures
            (g, final(self).count(), final(self).suppressed()) == gate_step(
                old(self).count(),
                old(self).suppressed(),
                second_passed(old(self).window_start(), now),
            ),
            final(self).window_start() == (if second_passed(old(self).window_start(), now) {
                now
            } else {
                old(self).window_start()
            }),
            final(self).wf(),
    {
        if now >= self.window_start && now - self.window_start >= WINDOW_NS {
            let suppressed = self.suppressed;
            self.window_start = now;
            self.count = 1;
            self.suppressed = 0;
            return if suppressed > 0 {
                LogGate::EmitWithSummary(suppressed)
            } else {
                LogGate::Emit
            };
        }
        self.count += 1;
        if self.count <= MAX_LINES_PER_SEC {
            LogGate::Emit
        } else {
            self.suppressed += 1;
            LogGate::Drop
        }
    }

    /// A well-formed limiter's summary reports exactly the lines it dropped:
    /// the tally is the number of lines seen past the per-window budget.
    pub proof fn lemma_tally_is_overflow(&self)
        requires
            self.wf(),
        ensures
            self.count() <= MAX_LINES_PER_SEC ==> self.suppressed() == 0,
            self.count() > MAX_LINES_PER_SEC ==> self.suppressed() == self.count()
                - MAX_LINES_PER_SEC,
    {
    }
}

/// Within one window, the line that overruns the budget and every line after
/// it are dropped, while every earlier line is emitted; a new window always
/// emits, carrying the summary only when something was dropped.
pub proof fn lemma_budget_per_window(count: u32, suppressed: u64)
    requires
        count < u32::MAX,
        suppressed < u64::MAX,
    ensures
        gate_step(count, suppressed, false).0 == LogGate::Emit <==> count < MAX_LINES_PER_SEC,
        gate_step(count, suppressed, false).0 == LogGate::Drop <==> count >= MAX_LINES_PER_SEC,
        gate_step(count, suppressed, true).0 != LogGate::Drop,
        gate_step(count, suppressed, true).0 == LogGate::EmitWithSummary(suppressed) <==> suppressed
            > 0,
{
}


/// What a limiter fresh from [`RateLimiter::new`] answers to a sequence of
/// lines, given for each whether a full second had passed since its window
/// opened (each line one [`gate_step`], as in [`RateLimiter::admit_line`]):
/// the answers, then the final line count and drop tally.
pub open spec fn gates(rolls: Seq<bool>) -> (Seq<LogGate>, u32, u64)
    decreases rolls.len(),
{
    if rolls.len() == 0 {
        (Seq::empty(), 0, 0)
    } else {
        let (out, c, s) = gates(rolls.drop_last());
        let (g, c2, s2) = gate_step(c, s, rolls.last());
        (out.push(g), c2, s2)
    }
}

/// The line that opened the window in force after the first `n` lines:
/// the last one with a roll, or -1 while the first window (opened by `new`)
/// lasts.
pub open spec fn last_roll(rolls: Seq<bool>, n: int) -> int
    decreases n,
{
    if n <= 0 {
        -1
    } else if rolls[n - 1] {
        n - 1
    } else {
        last_roll(rolls, n - 1)
    }
}

/// How many of the first `n` lines fall in the window in force after them.
pub open spec fn window_lines(rolls: Seq<bool>, n: int) -> int {
    let j = last_roll(rolls, n);
    if j < 0 { n } else { n - j }
}

/// How many of the answers `out[a..b]` were drops.
pub open spec fn drops_between(out: Seq<LogGate>, a: int, b: int) -> nat
    decreases b - a,
{
    if b <= a {
        0
    } else {
        drops_between(out, a, b - 1) + if out[b - 1] is Drop { 1nat } else { 0nat }
    }
}

proof fn lemma_last_roll_bounds(rolls: Seq<bool>, n: int)
    requires
        0 <= n <= rolls.len(),
    ensures
        -1 <= last_roll(rolls, n) < n,
        last_roll(rolls, n) >= 0 ==> rolls[last_roll(rolls, n)],
    decreases n,
{
    if n > 0 && !rolls[n - 1] {
        lemma_last_roll_bounds(rolls, n - 1);
    }
}

proof fn lemma_drops_prefix(out: Seq<LogGate>, g: LogGate, a: int, b: int)
    requires
        0 <= a,
        b <= out.len(),
    ensures
        drops_between(out.push(g), a, b) == drops_between(out, a, b),
    decreases b - a,
{
    if b > a {
        lemma_drops_prefix(out, g, a, b - 1);
        assert(out.push(g)[b - 1] == out[b - 1]);
    }
}

proof fn lemma_drops_take(out: Seq<LogGate>, n: int, a: int, b: int)
    requires
        0 <= a,
        b <= n <= out.len(),
    ensures
        drops_between(out.take(n), a, b) == drops_between(out, a, b),
    decreases b - a,
{
    if b > a {
        lemma_drops_take(out, n, a, b - 1);
        assert(out.take(n)[b - 1] == out[b - 1]);
    }
}

/// The state after the first `n` lines: the window's line count and its
/// drops so far, the tally being exactly the lines past the budget.
proof fn lemma_gates_state(rolls: Seq<bool>, n: int)
    requires
        rolls.len() < u32::MAX,
        0 <= n <= rolls.len(),
    ensures
        ({
            let (out, c, s) = gates(rolls.take(n));
            let j = last_roll(rolls, n);
            &&& out.len() == n
            &&& c == window_lines(rolls, n)
            &&& s == drops_between(out, if j < 0 { 0 } else { j }, n)
            &&& s == (if c > MAX_LINES_PER_SEC { c - MAX_LINES_PER_SEC } else { 0 })
        }),
    decreases n,
{
    lemma_last_roll_bounds(rolls, n);
    if n == 0 {
        assert(rolls.take(0) =~= Seq::<bool>::empty());
    } else {
        lemma_gates_state(rolls, n - 1);
        lemma_last_roll_bounds(rolls, n - 1);
        assert(rolls.take(n).drop_last() =~= rolls.take(n - 1));
        assert(rolls.take(n).last() == rolls[n - 1]);
        let (out, c, s) = gates(rolls.take(n - 1));
        let (g, c2, s2) = gate_step(c, s, rolls[n - 1]);
        assert(gates(rolls.take(n)) == (out.push(g), c2, s2));
        let j = last_roll(rolls, n - 1);
        let a: int = if j < 0 { 0 } else { j };
        lemma_drops_prefix(out, g, a, n - 1);
        assert(out.push(g)[n - 1] == g);
        if rolls[n - 1] {
            assert(!(g is Drop));
            assert(drops_between(out.push(g), n - 1, n - 1) == 0);
            assert(drops_between(out.push(g), n - 1, n) == drops_between(out.push(g), n - 1, n - 1) + if out.push(g)[n - 1] is Drop { 1nat } else { 0nat });
        } else {
            assert(drops_between(out.push(g), a, n) == drops_between(out, a, n - 1) + if g is Drop { 1nat } else { 0nat });
        }
    }
}

/// The rate limit over any sequence of lines: a line that opens a new window
/// is emitted, with a summary of the lines dropped in the window it closes
/// when there were any; any other line is the k-th of its window (the line
/// that opened it being the first, and the window `new` opened counting from
/// its first line) and is emitted while k is within
/// [`MAX_LINES_PER_SEC`] and dropped after.
pub proof fn lemma_rate_limit_over_lines(rolls: Seq<bool>, i: int)
    requires
        rolls.len() < u32::MAX,
        0 <= i < rolls.len(),
    ensures
        ({
            let out = gates(rolls).0;
            let j = last_roll(rolls, i);
            out[i] == if rolls[i] {
                let n = drops_between(out, if j < 0 { 0 } else { j }, i);
                if n > 0 { LogGate::EmitWithSummary(n as u64) } else { LogGate::Emit }
            } else if window_lines(rolls, i + 1) <= MAX_LINES_PER_SEC {
                LogGate::Emit
            } else {
                LogGate::Drop
            }
        }),
{
    assert(rolls.take(rolls.len() as int) =~= rolls);
    lemma_gates_state(rolls, rolls.len() as int);
    lemma_gates_state(rolls, i);
    lemma_gates_state(rolls, i + 1);
    lemma_gates_prefix(rolls, i + 1, rolls.len() as int);
    lemma_gates_prefix(rolls, i, rolls.len() as int);
    lemma_last_roll_bounds(rolls, i);
    assert(rolls.take(i + 1).drop_last() =~= rolls.take(i));
    assert(rolls.take(i + 1).last() == rolls[i]);
    let out = gates(rolls).0;
    let (o0, c, s) = gates(rolls.take(i));
    let (g, c2, s2) = gate_step(c, s, rolls[i]);
    assert(gates(rolls.take(i + 1)).0 == o0.push(g));
    assert(out.take(i + 1) == o0.push(g));
    assert(out[i] == out.take(i + 1)[i]);
    let j = last_roll(rolls, i);
    let a: int = if j < 0 { 0 } else { j };
    assert(o0 == out.take(i));
    lemma_drops_take(out, i, a, i);
}

/// The answers to the first `n` lines do not depend on the lines after them.
proof fn lemma_gates_prefix(rolls: Seq<bool>, n: int, m: int)
    requires
        0 <= n <= m <= rolls.len(),
        rolls.len() < u32::MAX,
    ensures
        gates(rolls.take(m)).0.take(n) == gates(rolls.take(n)).0,
    decreases m - n,
{
    lemma_gates_state(rolls, m);
    if m > n {
        lemma_gates_prefix(rolls, n, m - 1);
        lemma_gates_state(rolls, m - 1);
        assert(rolls.take(m).drop_last() =~= rolls.take(m - 1));
        let prev = gates(rolls.take(m - 1)).0;
        assert(gates(rolls.take(m)).0.take(n) =~= prev.take(n));
    } else {
        assert(gates(rolls.take(m)).0.take(n) =~= gates(rolls.take(n)).0);
    }
}


/// When the window in force opened, for a limiter made at `t0` after lines
/// at times `ts`: `t0`, or the time of the last line that opened a window.
pub open spec fn window_after(t0: u64, ts: Seq<u64>) -> u64
    decreases ts.len(),
{
    if ts.len() == 0 {
        t0
    } else {
        let w = window_after(t0, ts.drop_last());
        if second_passed(w, ts.last()) { ts.last() } else { w }
    }
}

/// For each line at times `ts` (limiter made at `t0`), whether it opened a
/// new window.
pub open spec fn rolls_of(t0: u64, ts: Seq<u64>) -> Seq<bool>
    decreases ts.len(),
{
    if ts.len() == 0 {
        Seq::empty()
    } else {
        rolls_of(t0, ts.drop_last()).push(second_passed(window_after(t0, ts.drop_last()), ts.last()))
    }
}

/// One [`RateLimiter::admit_line`] call is one step of the timed sequence: a
/// limiter in the state the lines `ts` leave (line count, drop tally and
/// window start as `gates(rolls_of(t0, ts))` and `window_after(t0, ts)` give,
/// which `RateLimiter::new(t0)` is for no lines) answers a line at `now` and
/// moves to the state the lines `ts` then `now` leave.
pub proof fn lemma_admit_is_one_step(t0: u64, ts: Seq<u64>, now: u64)
    ensures
        ({
            let (out, c, s) = gates(rolls_of(t0, ts));
            let w = window_after(t0, ts);
            let (g, c2, s2) = gate_step(c, s, second_passed(w, now));
            &&& gates(rolls_of(t0, ts.push(now))) == (out.push(g), c2, s2)
            &&& window_after(t0, ts.push(now)) == (if second_passed(w, now) { now } else { w })
        }),
        gates(rolls_of(t0, Seq::empty())) == (Seq::<LogGate>::empty(), 0u32, 0u64),
        window_after(t0, Seq::empty()) == t0,
{
    assert(ts.push(now).drop_last() =~= ts);
    let r = rolls_of(t0, ts.push(now));
    assert(r.drop_last() =~= rolls_of(t0, ts));
    assert(r.last() == second_passed(window_after(t0, ts), now));
    assert(rolls_of(t0, Seq::<u64>::empty()) =~= Seq::<bool>::empty());
}

proof fn lemma_rolls_of_prefix(t0: u64, ts: Seq<u64>, n: int)
    requires
        0 <= n <= ts.len(),
    ensures
        rolls_of(t0, ts).len() == ts.len(),
        rolls_of(t0, ts.take(n)) == rolls_of(t0, ts).take(n),
    decreases ts.len(),
{
    if ts.len() > 0 {
        lemma_rolls_of_prefix(t0, ts.drop_last(), if n < ts.len() { n } else { 0 });
        if n < ts.len() {
            assert(ts.drop_last().take(n) =~= ts.take(n));
            assert(rolls_of(t0, ts).take(n) =~= rolls_of(t0, ts.drop_last()).take(n));
        } else {
            assert(ts.take(n) =~= ts);
            assert(rolls_of(t0, ts).take(n) =~= rolls_of(t0, ts));
        }
    } else {
        assert(ts.take(n) =~= ts);
        assert(rolls_of(t0, ts).take(n) =~= rolls_of(t0, ts));
    }
}

proof fn lemma_window_is_last_roll(t0: u64, ts: Seq<u64>, n: int)
    requires
        0 <= n <= ts.len(),
    ensures
        window_after(t0, ts.take(n)) == (if last_roll(rolls_of(t0, ts), n) < 0 {
            t0
        } else {
            ts[last_roll(rolls_of(t0, ts), n)]
        }),
    decreases n,
{
    lemma_rolls_of_prefix(t0, ts, n);
    if n == 0 {
        assert(ts.take(0) =~= Seq::<u64>::empty());
    } else {
        lemma_window_is_last_roll(t0, ts, n - 1);
        lemma_rolls_of_prefix(t0, ts, n - 1);
        assert(ts.take(n).drop_last() =~= ts.take(n - 1));
        assert(ts.take(n).last() == ts[n - 1]);
        let r = rolls_of(t0, ts);
        assert(r.take(n)[n - 1] == r[n - 1]);
        assert(rolls_of(t0, ts.take(n)).last() == second_passed(window_after(t0, ts.take(n - 1)), ts[n - 1]));
    }
}

/// The rate limit over real calls: for a limiter made at `t0` and lines at
/// times `ts` (the answers being `gates(rolls_of(t0, ts)).0`, see
/// [`lemma_admit_is_one_step`]), the window in force at line `i` opened at
/// `t0` or at the time of the last earlier line that opened one; line `i`
/// opens a new window exactly when a full second has passed since then, and
/// is then emitted, with a summary of the lines dropped in the window it
/// closes when there were any; otherwise it is the k-th line of its window
/// and is emitted while k is within [`MAX_LINES_PER_SEC`] and dropped after.
pub proof fn lemma_rate_limit_over_calls(t0: u64, ts: Seq<u64>, i: int)
    requires
        ts.len() < u32::MAX,
        0 <= i < ts.len(),
    ensures
        ({
            let rolls = rolls_of(t0, ts);
            let out = gates(rolls).0;
            let j = last_roll(rolls, i);
            let w = window_after(t0, ts.take(i));
            &&& w == (if j < 0 { t0 } else { ts[j] })
            &&& rolls[i] == second_passed(w, ts[i])
            &&& out[i] == if second_passed(w, ts[i]) {
                let n = drops_between(out, if j < 0 { 0 } else { j }, i);
                if n > 0 { LogGate::EmitWithSummary(n as u64) } else { LogGate::Emit }
            } else if window_lines(rolls, i + 1) <= MAX_LINES_PER_SEC {
                LogGate::Emit
            } else {
                LogGate::Drop
            }
        }),
{
    lemma_window_is_last_roll(t0, ts, i);
    lemma_rolls_of_prefix(t0, ts, i + 1);
    let rolls = rolls_of(t0, ts);
    assert(ts.take(i + 1).drop_last() =~= ts.take(i));
    assert(ts.take(i + 1).last() == ts[i]);
    assert(rolls.take(i + 1)[i] == rolls[i]);
    assert(rolls_of(t0, ts.take(i + 1)).last() == second_passed(window_after(t0, ts.take(i)), ts[i]));
    assert(rolls_of(t0, ts.take(i + 1))[i] == rolls[i]);
    lemma_last_roll_bounds(rolls, i);
    lemma_rate_limit_over_lines(rolls, i);
}

} // verus!
