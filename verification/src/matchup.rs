//! Matchup coverage: how much demonstration data exists per (your
//! character, opponent) pair, which pairs have a fitted model, and the
//! frozen stage-selector watch that forces the next fight.
use vstd::prelude::*;
use crate::fmt::{dec, push_dec, push_str};
use crate::memory::{Watch, WatchFormat};
use crate::text::{join, lemma_text_lt_irreflexive, lemma_text_lt_transitive, lemma_text_lt_trichotomy, str_lt, text_lt};

verus! {

/// Decisions are roughly live frames over the 8-frame decision cadence.
pub const FRAMES_PER_DECISION: u64 = 8;
/// Below this many decisions a cell counts as sparse.
pub const SPARSE_DECISIONS: u64 = 1000;

/// One indexed round, as its sidecar line reads (each field absent when the
/// line lacks it).
pub struct RoundRecord {
    pub demo: Option<bool>,
    pub block1_char: Option<u64>,
    pub block2_char: Option<u64>,
    pub p1_block: Option<u64>,
    pub frames: Option<u64>,
    pub style: Option<String>,
}

/// What one matchup has: rounds, live frames, and frames per style tag
/// (ordered by tag, each tag once).
pub struct Cell {
    pub rounds: u32,
    pub frames: u64,
    pub styles: Vec<(String, u64)>,
}

/// The matchup a round counts for: the character on the first player's
/// block is "me" (block 1 unless the line says player one had block 2).
pub open spec fn round_key(r: RoundRecord) -> (u8, u8) {
    let b1 = (match r.block1_char { Some(v) => v, None => 0 }) as u8;
    let b2 = (match r.block2_char { Some(v) => v, None => 0 }) as u8;
    if r.p1_block == Some(2u64) { (b2, b1) } else { (b1, b2) }
}

/// Whether a round counts: demo rounds (and lines without the flag) do not.
pub open spec fn round_counts(r: RoundRecord) -> bool {
    r.demo == Some(false)
}

pub open spec fn round_frames(r: RoundRecord) -> u64 {
    match r.frames { Some(f) => f, None => 0 }
}

pub open spec fn round_style(r: RoundRecord) -> Seq<char> {
    match r.style { Some(s) => s@, None => "(untagged)"@ }
}

pub open spec fn key_lt(a: (u8, u8), b: (u8, u8)) -> bool {
    a.0 < b.0 || (a.0 == b.0 && a.1 < b.1)
}

/// Keys strictly increase.
pub open spec fn cells_sorted(cells: Seq<((u8, u8), Cell)>) -> bool {
    forall|i: int, j: int| 0 <= i < j < cells.len() ==> key_lt(cells[i].0, cells[j].0)
}

/// Tags strictly increase.
pub open spec fn styles_sorted(styles: Seq<(String, u64)>) -> bool {
    forall|i: int, j: int| 0 <= i < j < styles.len() ==> text_lt(styles[i].0@, styles[j].0@)
}

/// The frames recorded under `tag`.
pub open spec fn style_frames(styles: Seq<(String, u64)>, tag: Seq<char>) -> int
    decreases styles.len(),
{
    if styles.len() == 0 {
        0
    } else {
        style_frames(styles.drop_last(), tag) + if styles.last().0@ == tag { styles.last().1 as int } else { 0 }
    }
}

proof fn lemma_style_frames_insert(s: Seq<(String, u64)>, i: int, e: (String, u64), t: Seq<char>)
    requires
        0 <= i <= s.len(),
    ensures
        style_frames(s.insert(i, e), t) == style_frames(s, t) + if e.0@ == t { e.1 as int } else { 0 },
    decreases s.len(),
{
    if i == s.len() {
        assert(s.insert(i, e).drop_last() =~= s);
    } else {
        lemma_style_frames_insert(s.drop_last(), i, e, t);
        assert(s.insert(i, e).drop_last() =~= s.drop_last().insert(i, e));
    }
}

proof fn lemma_style_frames_update(s: Seq<(String, u64)>, i: int, e: (String, u64), t: Seq<char>)
    requires
        0 <= i < s.len(),
    ensures
        style_frames(s.update(i, e), t) == style_frames(s, t) - (if s[i].0@ == t { s[i].1 as int } else { 0 })
            + (if e.0@ == t { e.1 as int } else { 0 }),
    decreases s.len(),
{
    if i == s.len() - 1 {
        assert(s.update(i, e).drop_last() =~= s.drop_last());
    } else {
        lemma_style_frames_update(s.drop_last(), i, e, t);
        assert(s.update(i, e).drop_last() =~= s.drop_last().update(i, e));
    }
}

/// Add `frames` under `tag`, keeping the tags ordered.
fn add_style(styles: &mut Vec<(String, u64)>, tag: String, frames: u64)
    requires
        styles_sorted(old(styles)@),
        style_frames(old(styles)@, tag@) + frames <= u64::MAX,
        forall|k: int| 0 <= k < old(styles)@.len() ==> style_frames(old(styles)@, (#[trigger] old(styles)@[k]).0@) == old(styles)@[k].1,
    ensures
        styles_sorted(final(styles)@),
        forall|k: int| 0 <= k < final(styles)@.len() ==> style_frames(final(styles)@, (#[trigger] final(styles)@[k]).0@) == final(styles)@[k].1,
        style_frames(final(styles)@, tag@) == style_frames(old(styles)@, tag@) + frames,
        forall|t: Seq<char>| t != tag@ ==> style_frames(final(styles)@, t) == style_frames(old(styles)@, t),
{
    let ghost old_s = styles@;
    let mut i: usize = 0;
    let n = styles.len();
    while i < n && str_lt(styles[i].0.as_str(), tag.as_str())
        invariant
            i <= n,
            n == styles@.len(),
            styles@ == old_s,
            styles_sorted(old_s),
            forall|k: int| 0 <= k < i ==> text_lt(#[trigger] old_s[k].0@, tag@),
        decreases n - i,
    {
        i += 1;
    }
    if i < n && crate::debug_state::str_eq(styles[i].0.as_str(), tag.as_str()) {
        let v = styles[i].1;
        proof {
            assert(style_frames(old_s, old_s[i as int].0@) == v);
        }
        let name = crate::debug_state::clone_string(&styles[i].0);
        styles.set(i, (name, v + frames));
        proof {
            assert forall|t: Seq<char>| #[trigger] style_frames(styles@, t) == style_frames(old_s, t) + (if t == tag@ { frames as int } else { 0 }) by {
                lemma_style_frames_update(old_s, i as int, styles@[i as int], t);
                assert(styles@ == old_s.update(i as int, styles@[i as int]));
            }
            assert forall|a: int, b: int| 0 <= a < b < styles@.len() implies text_lt(styles@[a].0@, styles@[b].0@) by {
                assert(styles@[a].0@ == old_s[a].0@ && styles@[b].0@ == old_s[b].0@);
            }
            assert forall|k: int| 0 <= k < styles@.len() implies style_frames(styles@, (#[trigger] styles@[k]).0@) == styles@[k].1 by {
                assert(styles@[k].0@ == old_s[k].0@);
            }
        }
    } else {
        proof {
            if i < n {
                lemma_text_lt_trichotomy(old_s[i as int].0@, tag@);
            }
        }
        let ghost e = (tag, frames);
        let ghost tv = tag@;
        styles.insert(i, (tag, frames));
        proof {
            assert(styles@ == old_s.insert(i as int, e));
            assert forall|t: Seq<char>| #[trigger] style_frames(styles@, t) == style_frames(old_s, t) + (if t == tv { frames as int } else { 0 }) by {
                lemma_style_frames_insert(old_s, i as int, e, t);
            }
            // No existing entry carries the new tag.
            assert(style_frames(old_s, tv) == 0) by {
                assert forall|k: int| 0 <= k < old_s.len() implies old_s[k].0@ != tv by {
                    if k < i {
                        lemma_text_lt_irreflexive(tv);
                    } else if i < n {
                        if k > i {
                            lemma_text_lt_transitive(tv, old_s[i as int].0@, old_s[k].0@);
                        }
                        lemma_text_lt_irreflexive(tv);
                    }
                }
                lemma_style_frames_absent(old_s, tv);
            }
            assert forall|a: int, b: int| 0 <= a < b < styles@.len() implies text_lt(styles@[a].0@, styles@[b].0@) by {
                if b < i {
                } else if b == i {
                    assert(styles@[a] == old_s[a]);
                } else if a == i {
                    assert(styles@[b] == old_s[b - 1]);
                    if b - 1 > i {
                        lemma_text_lt_transitive(tv, old_s[i as int].0@, old_s[b - 1].0@);
                    }
                } else if a < i {
                    assert(styles@[a] == old_s[a] && styles@[b] == old_s[b - 1]);
                } else {
                    assert(styles@[a] == old_s[a - 1] && styles@[b] == old_s[b - 1]);
                }
            }
            assert forall|k: int| 0 <= k < styles@.len() implies style_frames(styles@, (#[trigger] styles@[k]).0@) == styles@[k].1 by {
                if k == i {
                } else if k < i {
                    assert(styles@[k] == old_s[k]);
                    lemma_text_lt_irreflexive(tv);
                } else {
                    assert(styles@[k] == old_s[k - 1]);
                    if i < n {
                        if k - 1 > i {
                            lemma_text_lt_transitive(tv, old_s[i as int].0@, old_s[k - 1].0@);
                        }
                        lemma_text_lt_irreflexive(tv);
                    }
                }
            }
        }
    }
}

proof fn lemma_style_frames_absent(s: Seq<(String, u64)>, t: Seq<char>)
    requires
        forall|k: int| 0 <= k < s.len() ==> s[k].0@ != t,
    ensures
        style_frames(s, t) == 0,
    decreases s.len(),
{
    if s.len() > 0 {
        lemma_style_frames_absent(s.drop_last(), t);
    }
}

/// The total of `f` over the cells stored under key `k`.
pub open spec fn cell_sum(cells: Seq<((u8, u8), Cell)>, k: (u8, u8), f: spec_fn(Cell) -> int) -> int
    decreases cells.len(),
{
    if cells.len() == 0 {
        0
    } else {
        cell_sum(cells.drop_last(), k, f) + if cells.last().0 == k { f(cells.last().1) } else { 0 }
    }
}

pub open spec fn rounds_f() -> spec_fn(Cell) -> int {
    |c: Cell| c.rounds as int
}

pub open spec fn frames_f() -> spec_fn(Cell) -> int {
    |c: Cell| c.frames as int
}

/// Rounds recorded for matchup `k`.
pub open spec fn cell_rounds(cells: Seq<((u8, u8), Cell)>, k: (u8, u8)) -> int {
    cell_sum(cells, k, rounds_f())
}

/// Live frames recorded for matchup `k`.
pub open spec fn cell_frames(cells: Seq<((u8, u8), Cell)>, k: (u8, u8)) -> int {
    cell_sum(cells, k, frames_f())
}

/// Frames recorded for matchup `k` under style tag `t`.
pub open spec fn cell_style(cells: Seq<((u8, u8), Cell)>, k: (u8, u8), t: Seq<char>) -> int {
    cell_sum(cells, k, style_of(t))
}

pub open spec fn style_of(t: Seq<char>) -> spec_fn(Cell) -> int {
    |c: Cell| style_frames(c.styles@, t)
}

proof fn lemma_cell_sum_insert(s: Seq<((u8, u8), Cell)>, i: int, e: ((u8, u8), Cell), k: (u8, u8), f: spec_fn(Cell) -> int)
    requires
        0 <= i <= s.len(),
    ensures
        cell_sum(s.insert(i, e), k, f) == cell_sum(s, k, f) + if e.0 == k { f(e.1) } else { 0 },
    decreases s.len(),
{
    if i == s.len() {
        assert(s.insert(i, e).drop_last() =~= s);
    } else {
        lemma_cell_sum_insert(s.drop_last(), i, e, k, f);
        assert(s.insert(i, e).drop_last() =~= s.drop_last().insert(i, e));
    }
}

proof fn lemma_cell_sum_update(s: Seq<((u8, u8), Cell)>, i: int, e: ((u8, u8), Cell), k: (u8, u8), f: spec_fn(Cell) -> int)
    requires
        0 <= i < s.len(),
    ensures
        cell_sum(s.update(i, e), k, f) == cell_sum(s, k, f) - (if s[i].0 == k { f(s[i].1) } else { 0 })
            + (if e.0 == k { f(e.1) } else { 0 }),
    decreases s.len(),
{
    if i == s.len() - 1 {
        assert(s.update(i, e).drop_last() =~= s.drop_last());
    } else {
        lemma_cell_sum_update(s.drop_last(), i, e, k, f);
        assert(s.update(i, e).drop_last() =~= s.drop_last().update(i, e));
    }
}

proof fn lemma_cell_sum_single(s: Seq<((u8, u8), Cell)>, i: int, f: spec_fn(Cell) -> int)
    requires
        cells_sorted(s),
        0 <= i < s.len(),
    ensures
        cell_sum(s, s[i].0, f) == f(s[i].1),
    decreases s.len(),
{
    if i == s.len() - 1 {
        assert forall|j: int| 0 <= j < s.drop_last().len() implies s.drop_last()[j].0 != s[i].0 by {
            assert(key_lt(s[j].0, s[i].0));
        }
        lemma_cell_sum_absent(s.drop_last(), s[i].0, f);
    } else {
        assert(key_lt(s[i].0, s.last().0));
        assert forall|x: int, y: int| 0 <= x < y < s.drop_last().len() implies key_lt(s.drop_last()[x].0, s.drop_last()[y].0) by {
            assert(s.drop_last()[x] == s[x] && s.drop_last()[y] == s[y]);
        }
        lemma_cell_sum_single(s.drop_last(), i, f);
    }
}

proof fn lemma_cell_sum_absent(s: Seq<((u8, u8), Cell)>, k: (u8, u8), f: spec_fn(Cell) -> int)
    requires
        forall|j: int| 0 <= j < s.len() ==> s[j].0 != k,
    ensures
        cell_sum(s, k, f) == 0,
    decreases s.len(),
{
    if s.len() > 0 {
        lemma_cell_sum_absent(s.drop_last(), k, f);
    }
}

/// Every cell's styles are ordered and hold each tag's total once.
pub open spec fn styles_wf(styles: Seq<(String, u64)>) -> bool {
    &&& styles_sorted(styles)
    &&& forall|k: int| 0 <= k < styles.len() ==> style_frames(styles, (#[trigger] styles[k]).0@) == styles[k].1
}

pub open spec fn cells_wf(cells: Seq<((u8, u8), Cell)>) -> bool {
    &&& cells_sorted(cells)
    &&& forall|i: int| 0 <= i < cells.len() ==> styles_wf((#[trigger] cells[i]).1.styles@)
}

/// Matchup coverage panel state.
pub struct MatchupPanel {
    /// Coverage per (me, opponent), ordered by key.
    pub cells: Vec<((u8, u8), Cell)>,
    /// Newest fitted model per matchup filter: (me, opp) -> (directory name,
    /// path, creation stamp).
    pub models: Vec<((Option<u8>, Option<u8>), (String, String, String))>,
    /// The clicked cell.
    pub selected: Option<(u8, u8)>,
}

impl MatchupPanel {
    pub fn new() -> (p: Self)
        ensures
            p.cells@.len() == 0,
            p.models@.len() == 0,
            p.selected is None,
    {
        MatchupPanel { cells: Vec::new(), models: Vec::new(), selected: None }
    }

    pub open spec fn wf(&self) -> bool {
        cells_wf(self.cells@)
    }

    /// Count one indexed round into its matchup's cell (demo rounds, and
    /// lines that do not say, are skipped).
    pub fn tally_round(&mut self, r: &RoundRecord)
        requires
            old(self).wf(),
            round_counts(*r) ==> cell_rounds(old(self).cells@, round_key(*r)) + 1 <= u32::MAX,
            round_counts(*r) ==> cell_frames(old(self).cells@, round_key(*r)) + round_frames(*r) <= u64::MAX,
            round_counts(*r) ==> cell_style(old(self).cells@, round_key(*r), round_style(*r)) + round_frames(*r) <= u64::MAX,
        ensures
            final(self).wf(),
            final(self).models == old(self).models,
            final(self).selected == old(self).selected,
            !round_counts(*r) ==> final(self).cells@ == old(self).cells@,
            round_counts(*r) ==> {
                let k = round_key(*r);
                &&& forall|q: (u8, u8)| #[trigger] cell_rounds(final(self).cells@, q)
                    == cell_rounds(old(self).cells@, q) + if q == k { 1int } else { 0 }
                &&& forall|q: (u8, u8)| #[trigger] cell_frames(final(self).cells@, q)
                    == cell_frames(old(self).cells@, q) + if q == k { round_frames(*r) as int } else { 0 }
                &&& forall|q: (u8, u8), t: Seq<char>| #[trigger] cell_style(final(self).cells@, q, t)
                    == cell_style(old(self).cells@, q, t) + if q == k && t == round_style(*r) { round_frames(*r) as int } else { 0 }
            },
    {
        let counts = match r.demo {
            Some(d) => !d,
            None => false,
        };
        if !counts {
            return;
        }
        let c1: u64 = match r.block1_char { Some(v) => v, None => 0 };
        let c2: u64 = match r.block2_char { Some(v) => v, None => 0 };
        let b1: u8 = #[verifier::truncate] (c1 as u8);
        let b2: u8 = #[verifier::truncate] (c2 as u8);
        let key: (u8, u8) = match r.p1_block {
            Some(2) => (b2, b1),
            _ => (b1, b2),
        };
        assert(key == round_key(*r));
        let frames = match r.frames { Some(f) => f, None => 0 };
        let style = match &r.style {
            Some(s) => crate::debug_state::clone_string(s),
            None => "(untagged)".to_string(),
        };
        let ghost old_cells = self.cells@;
        let n = self.cells.len();
        let mut p: usize = 0;
        while p < n && (self.cells[p].0.0 < key.0 || (self.cells[p].0.0 == key.0 && self.cells[p].0.1 < key.1))
            invariant
                p <= n,
                n == self.cells@.len(),
                self.cells@ == old_cells,
                cells_wf(old_cells),
                forall|j: int| 0 <= j < p ==> key_lt(#[trigger] old_cells[j].0, key),
            decreases n - p,
        {
            p += 1;
        }
        if p < n && self.cells[p].0.0 == key.0 && self.cells[p].0.1 == key.1 {
            let (k0, mut cell) = self.cells.remove(p);
            proof {
                lemma_cell_sum_single(old_cells, p as int, rounds_f());
                lemma_cell_sum_single(old_cells, p as int, frames_f());
                lemma_cell_sum_single(old_cells, p as int, style_of(round_style(*r)));
                assert(styles_wf(old_cells[p as int].1.styles@));
            }
            let ghost old_cell_styles = cell.styles@;
            cell.rounds = cell.rounds + 1;
            cell.frames = cell.frames + frames;
            add_style(&mut cell.styles, style, frames);
            let ghost e = (k0, cell);
            self.cells.insert(p, (k0, cell));
            proof {
                assert(self.cells@ == old_cells.update(p as int, e)) by {
                    assert(self.cells@ =~= old_cells.update(p as int, e));
                }
                assert forall|q: (u8, u8)| #[trigger] cell_rounds(self.cells@, q)
                    == cell_rounds(old_cells, q) + if q == key { 1int } else { 0 } by {
                    lemma_cell_sum_update(old_cells, p as int, e, q, rounds_f());
                }
                assert forall|q: (u8, u8)| #[trigger] cell_frames(self.cells@, q)
                    == cell_frames(old_cells, q) + if q == key { frames as int } else { 0 } by {
                    lemma_cell_sum_update(old_cells, p as int, e, q, frames_f());
                }
                assert forall|q: (u8, u8), t: Seq<char>| #[trigger] cell_style(self.cells@, q, t)
                    == cell_style(old_cells, q, t) + if q == key && t == round_style(*r) { frames as int } else { 0 } by {
                    lemma_cell_sum_update(old_cells, p as int, e, q, style_of(t));
                }
                assert forall|a: int, b: int| 0 <= a < b < self.cells@.len() implies key_lt(self.cells@[a].0, self.cells@[b].0) by {
                    assert(self.cells@[a].0 == old_cells[a].0 && self.cells@[b].0 == old_cells[b].0);
                }
                assert forall|i: int| 0 <= i < self.cells@.len() implies styles_wf((#[trigger] self.cells@[i]).1.styles@) by {
                    if i != p {
                        assert(self.cells@[i] == old_cells[i]);
                    }
                }
            }
        } else {
            let mut styles: Vec<(String, u64)> = Vec::new();
            let ghost tag = style@;
            add_style(&mut styles, style, frames);
            let cell = Cell { rounds: 1, frames, styles };
            let ghost e = (key, cell);
            proof {
                if p < n {
                    assert(key_lt(key, old_cells[p as int].0));
                }
                assert forall|j: int| 0 <= j < old_cells.len() implies old_cells[j].0 != key by {
                    if j >= p && p < n {
                        assert(j == p || key_lt(old_cells[p as int].0, old_cells[j].0));
                    }
                }
            }
            self.cells.insert(p, (key, cell));
            proof {
                assert(self.cells@ == old_cells.insert(p as int, e));
                assert forall|q: (u8, u8)| #[trigger] cell_rounds(self.cells@, q)
                    == cell_rounds(old_cells, q) + if q == key { 1int } else { 0 } by {
                    lemma_cell_sum_insert(old_cells, p as int, e, q, rounds_f());
                }
                assert forall|q: (u8, u8)| #[trigger] cell_frames(self.cells@, q)
                    == cell_frames(old_cells, q) + if q == key { frames as int } else { 0 } by {
                    lemma_cell_sum_insert(old_cells, p as int, e, q, frames_f());
                }
                assert forall|q: (u8, u8), t: Seq<char>| #[trigger] cell_style(self.cells@, q, t)
                    == cell_style(old_cells, q, t) + if q == key && t == round_style(*r) { frames as int } else { 0 } by {
                    lemma_cell_sum_insert(old_cells, p as int, e, q, style_of(t));
                    assert(style_frames(Seq::<(String, u64)>::empty(), t) == 0);
                    if q == key {
                        lemma_cell_sum_absent(old_cells, key, style_of(t));
                    }
                }
                assert forall|a: int, b: int| 0 <= a < b < self.cells@.len() implies key_lt(self.cells@[a].0, self.cells@[b].0) by {
                    if b < p {
                    } else if b == p {
                        assert(self.cells@[a] == old_cells[a]);
                    } else if a == p {
                        assert(self.cells@[b] == old_cells[b - 1]);
                        assert(key_lt(key, old_cells[p as int].0));
                        if b - 1 > p {
                            assert(key_lt(old_cells[p as int].0, old_cells[b - 1].0));
                        }
                    } else if a < p {
                        assert(self.cells@[a] == old_cells[a] && self.cells@[b] == old_cells[b - 1]);
                    } else {
                        assert(self.cells@[a] == old_cells[a - 1] && self.cells@[b] == old_cells[b - 1]);
                    }
                }
                assert forall|i: int| 0 <= i < self.cells@.len() implies styles_wf((#[trigger] self.cells@[i]).1.styles@) by {
                    if i < p {
                        assert(self.cells@[i] == old_cells[i]);
                    } else if i > p {
                        assert(self.cells@[i] == old_cells[i - 1]);
                    }
                }
            }
        }
    }
}

/// How a grid cell reads: never demonstrated, sparse, or covered.
#[derive(Clone, Copy, PartialEq, Eq, Debug, Structural)]
pub enum Coverage {
    Never,
    Sparse,
    Covered,
}

pub open spec fn coverage_spec(decisions: u64) -> Coverage {
    if decisions == 0 {
        Coverage::Never
    } else if decisions < SPARSE_DECISIONS {
        Coverage::Sparse
    } else {
        Coverage::Covered
    }
}

/// A cell's tier by its approximate decision count.
pub fn coverage(decisions: u64) -> (c: Coverage)
    ensures
        c == coverage_spec(decisions),
{
    if decisions == 0 {
        Coverage::Never
    } else if decisions < SPARSE_DECISIONS {
        Coverage::Sparse
    } else {
        Coverage::Covered
    }
}

/// Approximate decisions behind a cell (0 for a missing cell).
pub fn cell_decisions(cell: Option<&Cell>) -> (d: u64)
    ensures
        d == match cell { Some(c) => c.frames / 8, None => 0 },
{
    match cell {
        Some(c) => c.frames / FRAMES_PER_DECISION,
        None => 0,
    }
}

/// A grid cell's text: a dot when never demonstrated, else the decisions
/// and a check mark when a fitted model covers the matchup.
pub open spec fn cell_label_spec(decisions: u64, has_model: bool) -> Seq<char> {
    if decisions == 0 {
        "\u{b7}"@
    } else {
        dec(decisions as nat) + if has_model { " \u{2713}"@ } else { Seq::empty() }
    }
}

pub fn cell_label(decisions: u64, has_model: bool) -> (s: String)
    ensures
        s@ == cell_label_spec(decisions, has_model),
{
    let mut s = String::new();
    if decisions == 0 {
        push_str(&mut s, "\u{b7}");
    } else {
        push_dec(&mut s, decisions);
        if has_model {
            push_str(&mut s, " \u{2713}");
        }
    }
    assert(s@ =~= cell_label_spec(decisions, has_model));
    s
}

/// The frames a cell's styles record under `tag`.
fn style_total(styles: &Vec<(String, u64)>, tag: &str) -> (t: u64)
    requires
        styles_wf(styles@),
    ensures
        t == style_frames(styles@, tag@),
{
    let mut k: usize = 0;
    while k < styles.len()
        invariant
            styles_wf(styles@),
            k <= styles@.len(),
            forall|j: int| 0 <= j < k ==> styles@[j].0@ != tag@,
        decreases styles@.len() - k,
    {
        if crate::debug_state::str_eq(styles[k].0.as_str(), tag) {
            proof {
                assert(style_frames(styles@, styles@[k as int].0@) == styles@[k as int].1);
            }
            return styles[k].1;
        }
        k += 1;
    }
    proof {
        lemma_style_frames_absent(styles@, tag@);
    }
    0
}

impl MatchupPanel {
    /// Whether counting `r` keeps its cell's tallies within their integer
    /// types (always, for a round that does not count).
    pub fn can_tally(&self, r: &RoundRecord) -> (b: bool)
        requires
            self.wf(),
        ensures
            b == (round_counts(*r) ==> {
                &&& cell_rounds(self.cells@, round_key(*r)) + 1 <= u32::MAX
                &&& cell_frames(self.cells@, round_key(*r)) + round_frames(*r) <= u64::MAX
                &&& cell_style(self.cells@, round_key(*r), round_style(*r)) + round_frames(*r) <= u64::MAX
            }),
    {
        let counts = match r.demo {
            Some(d) => !d,
            None => false,
        };
        if !counts {
            return true;
        }
        let c1: u64 = match r.block1_char { Some(v) => v, None => 0 };
        let c2: u64 = match r.block2_char { Some(v) => v, None => 0 };
        let b1: u8 = #[verifier::truncate] (c1 as u8);
        let b2: u8 = #[verifier::truncate] (c2 as u8);
        let key: (u8, u8) = match r.p1_block {
            Some(2) => (b2, b1),
            _ => (b1, b2),
        };
        assert(key == round_key(*r));
        let frames = match r.frames { Some(f) => f, None => 0 };
        proof {
            reveal_strlit("(untagged)");
        }
        let tag: &str = match &r.style {
            Some(s) => s.as_str(),
            None => "(untagged)",
        };
        assert(tag@ == round_style(*r));
        let ghost cells = self.cells@;
        let mut i: usize = 0;
        while i < self.cells.len()
            invariant
                cells == self.cells@,
                cells_wf(cells),
                i <= cells.len(),
                key == round_key(*r),
                tag@ == round_style(*r),
                frames == round_frames(*r),
                round_counts(*r),
                forall|j: int| 0 <= j < i ==> cells[j].0 != key,
            decreases cells.len() - i,
        {
            if self.cells[i].0.0 == key.0 && self.cells[i].0.1 == key.1 {
                let cell = &self.cells[i].1;
                proof {
                    assert(cells[i as int].0 == key);
                    assert(cells[i as int].1 == *cell);
                    lemma_cell_sum_single(cells, i as int, rounds_f());
                    lemma_cell_sum_single(cells, i as int, frames_f());
                    lemma_cell_sum_single(cells, i as int, style_of(tag@));
                    assert(styles_wf(cells[i as int].1.styles@));
                }
                let st = style_total(&cell.styles, tag);
                return cell.rounds < 0xFFFF_FFFF && cell.frames <= 0xFFFF_FFFF_FFFF_FFFF - frames
                    && st <= 0xFFFF_FFFF_FFFF_FFFF - frames;
            }
            i += 1;
        }
        proof {
            lemma_cell_sum_absent(cells, key, rounds_f());
            lemma_cell_sum_absent(cells, key, frames_f());
            lemma_cell_sum_absent(cells, key, style_of(tag@));
        }
        true
    }

    /// The cell of a matchup, if it has one.
    pub fn cell(&self, key: (u8, u8)) -> (c: Option<&Cell>)
        ensures
            match c {
                Some(x) => exists|i: int| 0 <= i < self.cells@.len() && self.cells@[i].0 == key && self.cells@[i].1 == *x,
                None => forall|i: int| 0 <= i < self.cells@.len() ==> self.cells@[i].0 != key,
            },
    {
        let mut i: usize = 0;
        while i < self.cells.len()
            invariant
                i <= self.cells@.len(),
                forall|j: int| 0 <= j < i ==> self.cells@[j].0 != key,
            decreases self.cells@.len() - i,
        {
            if self.cells[i].0.0 == key.0 && self.cells[i].0.1 == key.1 {
                return Some(&self.cells[i].1);
            }
            i += 1;
        }
        None
    }

    /// Whether a fitted model covers exactly this matchup.
    pub fn has_model(&self, me: u8, opp: u8) -> (b: bool)
        ensures
            b == exists|i: int| 0 <= i < self.models@.len() && self.models@[i].0 == (Some(me), Some(opp)),
    {
        let mut i: usize = 0;
        while i < self.models.len()
            invariant
                i <= self.models@.len(),
                forall|j: int| 0 <= j < i ==> self.models@[j].0 != (Some(me), Some(opp)),
            decreases self.models@.len() - i,
        {
            if model_key_eq(self.models[i].0, (Some(me), Some(opp))) {
                return true;
            }
            i += 1;
        }
        false
    }

    /// Offer a fitted model found on disk: it becomes the model of its
    /// matchup filter unless one created no earlier is already recorded.
    pub fn offer_model(&mut self, key: (Option<u8>, Option<u8>), name: String, path: String, created: String)
        ensures
            final(self).cells == old(self).cells,
            final(self).selected == old(self).selected,
            ({
                let k = choose_key(old(self).models@, key);
                if k < old(self).models@.len() {
                    if text_lt(old(self).models@[k].1.2@, created@) {
                        final(self).models@ == old(self).models@.update(k, (key, (name, path, created)))
                    } else {
                        final(self).models@ == old(self).models@
                    }
                } else {
                    final(self).models@ == old(self).models@.push((key, (name, path, created)))
                }
            }),
    {
        let n = self.models.len();
        let mut i: usize = 0;
        while i < n && !model_key_eq(self.models[i].0, key)
            invariant
                i <= n,
                n == self.models@.len(),
                choose_key(self.models@, key) == choose_key_from(self.models@, key, i as int),
            decreases n - i,
        {
            i += 1;
        }
        if i < n {
            if str_lt(self.models[i].1.2.as_str(), created.as_str()) {
                self.models.set(i, (key, (name, path, created)));
            }
        } else {
            self.models.push((key, (name, path, created)));
        }
    }
}

fn opt_u8_eq(a: Option<u8>, b: Option<u8>) -> (r: bool)
    ensures
        r == (a == b),
{
    match (a, b) {
        (Some(x), Some(y)) => x == y,
        (None, None) => true,
        _ => false,
    }
}

fn model_key_eq(a: (Option<u8>, Option<u8>), b: (Option<u8>, Option<u8>)) -> (r: bool)
    ensures
        r == (a == b),
{
    opt_u8_eq(a.0, b.0) && opt_u8_eq(a.1, b.1)
}

/// The first index at or after `i` holding `key`, or the length.
pub open spec fn choose_key_from(
    models: Seq<((Option<u8>, Option<u8>), (String, String, String))>,
    key: (Option<u8>, Option<u8>),
    i: int,
) -> int
    decreases models.len() - i,
{
    if i >= models.len() {
        models.len() as int
    } else if models[i].0 == key {
        i
    } else {
        choose_key_from(models, key, i + 1)
    }
}

pub open spec fn choose_key(
    models: Seq<((Option<u8>, Option<u8>), (String, String, String))>,
    key: (Option<u8>, Option<u8>),
) -> int {
    choose_key_from(models, key, 0)
}

/// Insert `v` into a strictly increasing list unless present.
#[verifier::spinoff_prover]
fn insert_sorted_unique(v: &mut Vec<u8>, x: u8)
    requires
        forall|i: int, j: int| 0 <= i < j < old(v)@.len() ==> old(v)@[i] < old(v)@[j],
    ensures
        forall|i: int, j: int| 0 <= i < j < final(v)@.len() ==> final(v)@[i] < final(v)@[j],
        forall|y: u8| final(v)@.contains(y) <==> (old(v)@.contains(y) || y == x),
{
    let ghost before = v@;
    let mut p: usize = 0;
    while p < v.len() && v[p] < x
        invariant
            p <= v@.len(),
            v@ == before,
            forall|i: int, j: int| 0 <= i < j < before.len() ==> before[i] < before[j],
            forall|k: int| 0 <= k < p ==> before[k] < x,
        decreases v@.len() - p,
    {
        p += 1;
    }
    if p < v.len() && v[p] == x {
        return;
    }
    v.insert(p, x);
    proof {
        let after = v@;
        assert(after == before.insert(p as int, x));
        assert(after.len() == before.len() + 1);
        assert forall|k: int| 0 <= k < p implies after[k] == before[k] by {}
        assert forall|k: int| p < k < after.len() implies after[k] == before[k - 1] by {}
        assert(after[p as int] == x);
        assert forall|y: u8| after.contains(y) <==> (before.contains(y) || y == x) by {
            if after.contains(y) {
                let k = choose|k: int| 0 <= k < after.len() && after[k] == y;
                if k < p {
                    assert(before[k] == y);
                    assert(before.contains(y));
                } else if k > p {
                    assert(before[k - 1] == y);
                    assert(before.contains(y));
                }
            }
            if before.contains(y) {
                let k = choose|k: int| 0 <= k < before.len() && before[k] == y;
                if k < p {
                    assert(after[k] == y);
                } else {
                    assert(after[k + 1] == y);
                }
                assert(after.contains(y));
            }
            if y == x {
                assert(after.contains(y));
            }
        }
    }
}

impl MatchupPanel {
    /// The grid's rows: every character you have played, ascending.
    pub fn rows(&self) -> (r: Vec<u8>)
        ensures
            forall|i: int, j: int| 0 <= i < j < r@.len() ==> r@[i] < r@[j],
            forall|m: u8| r@.contains(m) <==> exists|i: int| 0 <= i < self.cells@.len() && self.cells@[i].0.0 == m,
    {
        let mut out: Vec<u8> = Vec::new();
        let mut i: usize = 0;
        while i < self.cells.len()
            invariant
                i <= self.cells@.len(),
                forall|a: int, b: int| 0 <= a < b < out@.len() ==> out@[a] < out@[b],
                forall|m: u8| out@.contains(m) <==> exists|k: int| 0 <= k < i && self.cells@[k].0.0 == m,
            decreases self.cells@.len() - i,
        {
            insert_sorted_unique(&mut out, self.cells[i].0.0);
            proof {
                assert forall|m: u8| out@.contains(m) <==> exists|k: int| 0 <= k < i + 1 && self.cells@[k].0.0 == m by {
                    if m == self.cells@[i as int].0.0 {
                        assert(exists|k: int| 0 <= k < i + 1 && self.cells@[k].0.0 == m) by {
                            assert(self.cells@[i as int].0.0 == m);
                        }
                    }
                }
            }
            i += 1;
        }
        out
    }

    /// The grid's columns: the playable roster (the gaps are the point)
    /// plus every other opponent seen, ascending.
    pub fn columns(&self, roster: &[u8]) -> (c: Vec<u8>)
        ensures
            forall|i: int, j: int| 0 <= i < j < c@.len() ==> c@[i] < c@[j],
            forall|o: u8| c@.contains(o) <==> (roster@.contains(o)
                || exists|i: int| 0 <= i < self.cells@.len() && self.cells@[i].0.1 == o),
    {
        let mut out: Vec<u8> = Vec::new();
        let mut i: usize = 0;
        while i < roster.len()
            invariant
                i <= roster@.len(),
                forall|a: int, b: int| 0 <= a < b < out@.len() ==> out@[a] < out@[b],
                forall|o: u8| out@.contains(o) <==> exists|k: int| 0 <= k < i && roster@[k] == o,
            decreases roster@.len() - i,
        {
            insert_sorted_unique(&mut out, roster[i]);
            proof {
                assert forall|o: u8| out@.contains(o) <==> exists|k: int| 0 <= k < i + 1 && roster@[k] == o by {
                    if o == roster@[i as int] {
                        assert(roster@[i as int] == o);
                    }
                }
            }
            i += 1;
        }
        let mut j: usize = 0;
        while j < self.cells.len()
            invariant
                j <= self.cells@.len(),
                forall|a: int, b: int| 0 <= a < b < out@.len() ==> out@[a] < out@[b],
                forall|o: u8| out@.contains(o) <==> (roster@.contains(o)
                    || exists|k: int| 0 <= k < j && self.cells@[k].0.1 == o),
            decreases self.cells@.len() - j,
        {
            insert_sorted_unique(&mut out, self.cells[j].0.1);
            proof {
                assert forall|o: u8| out@.contains(o) <==> (roster@.contains(o)
                    || exists|k: int| 0 <= k < j + 1 && self.cells@[k].0.1 == o) by {
                    if o == self.cells@[j as int].0.1 {
                        assert(self.cells@[j as int].0.1 == o);
                    }
                }
            }
            j += 1;
        }
        out
    }
}

// ── forcing the next fight ────────────────────────────────────────────────

/// The forced selector value, if any: the first frozen watch on the
/// selector's address, read as a byte.
pub open spec fn current_force_spec(watches: Seq<Watch>, addr: usize) -> Option<u8>
    decreases watches.len(),
{
    if watches.len() == 0 {
        None
    } else if watches[0].addr == addr && watches[0].frozen {
        match watches[0].frozen_value {
            Some(v) => Some(v as u8),
            None => None,
        }
    } else {
        current_force_spec(watches.drop_first(), addr)
    }
}

pub fn current_force(watches: &Vec<Watch>, addr: usize) -> (r: Option<u8>)
    ensures
        r == current_force_spec(watches@, addr),
{
    let mut i: usize = 0;
    proof {
        assert(watches@.skip(0) =~= watches@);
    }
    while i < watches.len()
        invariant
            i <= watches@.len(),
            current_force_spec(watches@, addr) == current_force_spec(watches@.skip(i as int), addr),
        decreases watches@.len() - i,
    {
        proof {
            assert(watches@.skip(i as int).drop_first() =~= watches@.skip(i + 1));
        }
        if watches[i].addr == addr && watches[i].frozen {
            return match watches[i].frozen_value {
                Some(v) => Some(#[verifier::truncate] (v as u8)),
                None => None,
            };
        }
        i += 1;
    }
    None
}

/// The watches a force leaves in place: every watch not frozen on the
/// selector's address.
pub open spec fn kept_watches(watches: Seq<Watch>, addr: usize) -> Seq<Watch> {
    watches.filter(|w: Watch| w.addr != addr || !w.frozen)
}

/// Clear any force: drop every frozen watch on the selector's address.
pub fn clear_force(watches: &mut Vec<Watch>, addr: usize)
    ensures
        final(watches)@ == kept_watches(old(watches)@, addr),
{
    let ghost orig = watches@;
    let mut rest: Vec<Watch> = Vec::new();
    std::mem::swap(&mut rest, watches);
    let n = rest.len();
    let mut taken: usize = 0;
    proof {
        assert(orig.take(0).filter(|w: Watch| w.addr != addr || !w.frozen) =~= Seq::<Watch>::empty());
    }
    while taken < n
        invariant
            n == orig.len(),
            taken <= n,
            rest@ == orig.skip(taken as int),
            watches@ == orig.take(taken as int).filter(|w: Watch| w.addr != addr || !w.frozen),
        decreases n - taken,
    {
        let w = rest.remove(0);
        proof {
            assert(w == orig[taken as int]);
            assert(rest@ =~= orig.skip(taken + 1));
            reveal(Seq::filter);
            assert(orig.take(taken + 1).drop_last() =~= orig.take(taken as int));
        }
        if w.addr != addr || !w.frozen {
            watches.push(w);
        }
        taken += 1;
    }
    proof {
        assert(orig.take(n as int) =~= orig);
    }
}

/// Watches none of which is frozen on `addr`.
pub open spec fn no_force_on(s: Seq<Watch>, addr: usize) -> bool {
    forall|i: int| 0 <= i < s.len() ==> !((#[trigger] s[i]).addr == addr && s[i].frozen)
}

proof fn lemma_unforced_prefix(s: Seq<Watch>, rest: Seq<Watch>, addr: usize)
    requires
        no_force_on(s, addr),
    ensures
        current_force_spec(s + rest, addr) == current_force_spec(rest, addr),
    decreases s.len(),
{
    if s.len() > 0 {
        assert((s + rest).drop_first() =~= s.drop_first() + rest);
        assert((s + rest)[0] == s[0]);
        assert forall|i: int| 0 <= i < s.drop_first().len() implies !((#[trigger] s.drop_first()[i]).addr == addr
            && s.drop_first()[i].frozen) by {
            assert(s.drop_first()[i] == s[i + 1]);
        }
        lemma_unforced_prefix(s.drop_first(), rest, addr);
    } else {
        assert(s + rest =~= rest);
    }
}

proof fn lemma_kept_has_no_force(watches: Seq<Watch>, addr: usize)
    ensures
        no_force_on(kept_watches(watches, addr), addr),
{
    broadcast use vstd::seq_lib::group_filter_ensures;
    assert forall|i: int| 0 <= i < kept_watches(watches, addr).len() implies !((#[trigger] kept_watches(watches, addr)[i]).addr
        == addr && kept_watches(watches, addr)[i].frozen) by {
        watches.lemma_filter_pred(|w: Watch| w.addr != addr || !w.frozen, i);
    }
}

/// Clearing a force leaves no fight forced.
pub proof fn lemma_cleared_force_reads_none(watches: Seq<Watch>, addr: usize)
    ensures
        current_force_spec(kept_watches(watches, addr), addr) is None,
{
    lemma_kept_has_no_force(watches, addr);
    lemma_unforced_prefix(kept_watches(watches, addr), Seq::empty(), addr);
    assert(kept_watches(watches, addr) + Seq::<Watch>::empty() =~= kept_watches(watches, addr));
}

/// A force reads back: after forcing selector value `v` (the kept watches
/// followed by the new frozen watch, as [`set_force`] leaves them), the
/// forced value is `v`, whatever was forced before.
pub proof fn lemma_forced_value_reads_back(before: Seq<Watch>, after: Seq<Watch>, addr: usize, v: u8)
    requires
        after.len() == kept_watches(before, addr).len() + 1,
        after.drop_last() == kept_watches(before, addr),
        after.last().addr == addr,
        after.last().frozen,
        after.last().frozen_value == Some(v as u32),
    ensures
        current_force_spec(after, addr) == Some(v),
{
    lemma_kept_has_no_force(before, addr);
    let last = seq![after.last()];
    assert(after =~= after.drop_last() + last);
    lemma_unforced_prefix(after.drop_last(), last, addr);
    assert(last[0] == after.last());
    assert((v as u32) as u8 == v);
}

/// The label of a forcing watch.
pub open spec fn force_label(opponent: Seq<char>) -> Seq<char> {
    "\u{2694} force "@ + opponent + " fight"@
}

/// Force every upcoming fight to selector value `v` (the opponent's home
/// stage): replace any force with a frozen byte watch on the selector.
pub fn set_force(watches: &mut Vec<Watch>, addr: usize, v: u8, opponent: &str)
    ensures
        final(watches)@.len() == kept_watches(old(watches)@, addr).len() + 1,
        final(watches)@.drop_last() == kept_watches(old(watches)@, addr),
        final(watches)@.last().addr == addr,
        final(watches)@.last().label@ == force_label(opponent@),
        final(watches)@.last().format == WatchFormat::Hex8,
        final(watches)@.last().frozen,
        final(watches)@.last().frozen_value == Some(v as u32),
        !final(watches)@.last().track_changes,
        final(watches)@.last().current is None,
        final(watches)@.last().prev_value is None,
{
    clear_force(watches, addr);
    let ghost kept = watches@;
    let mut label = String::new();
    push_str(&mut label, "\u{2694} force ");
    push_str(&mut label, opponent);
    push_str(&mut label, " fight");
    assert(label@ =~= force_label(opponent@));
    watches.push(Watch {
        addr,
        label,
        format: WatchFormat::Hex8,
        frozen: true,
        frozen_value: Some(v as u32),
        track_changes: false,
        current: None,
        prev_value: None,
    });
    assert(watches@.drop_last() =~= kept);
}

/// One style's share of a cell: `tag ≈decisions`.
pub open spec fn style_share(e: (String, u64)) -> Seq<char> {
    e.0@ + " \u{2248}"@ + dec((e.1 / 8) as nat)
}

/// The selected cell's detail line: rounds, decisions and each style's
/// share.
pub open spec fn cell_detail_spec(c: Cell) -> Seq<char> {
    dec(c.rounds as nat) + " round(s), \u{2248}"@ + dec((c.frames / 8) as nat) + " decisions ("@
        + join(c.styles@.map_values(|e: (String, u64)| style_share(e)), ", "@) + ")"@
}

pub fn cell_detail(c: &Cell) -> (s: String)
    ensures
        s@ == cell_detail_spec(*c),
{
    let mut s = String::new();
    push_dec(&mut s, c.rounds as u64);
    push_str(&mut s, " round(s), \u{2248}");
    push_dec(&mut s, c.frames / FRAMES_PER_DECISION);
    push_str(&mut s, " decisions (");
    let ghost parts = c.styles@.map_values(|e: (String, u64)| style_share(e));
    let ghost start = s@;
    let mut i: usize = 0;
    while i < c.styles.len()
        invariant
            i <= c.styles@.len(),
            parts == c.styles@.map_values(|e: (String, u64)| style_share(e)),
            s@ == start + join(parts.take(i as int), ", "@),
        decreases c.styles@.len() - i,
    {
        if i != 0 {
            push_str(&mut s, ", ");
        }
        push_str(&mut s, c.styles[i].0.as_str());
        push_str(&mut s, " \u{2248}");
        push_dec(&mut s, c.styles[i].1 / FRAMES_PER_DECISION);
        proof {
            assert(parts.take(i + 1).drop_last() =~= parts.take(i as int));
            assert(parts.take(i + 1).last() == style_share(c.styles@[i as int]));
            if i == 0 {
                assert(parts.take(1).len() == 1);
            }
            assert(s@ =~= start + join(parts.take(i + 1), ", "@));
        }
        i += 1;
    }
    push_str(&mut s, ")");
    assert(parts.take(c.styles@.len() as int) =~= parts);
    assert(s@ =~= cell_detail_spec(*c));
    s
}

} // verus!
