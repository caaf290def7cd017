//! Where a character's frame data came from: its observations grouped by
//! (observable, probe shape) with the input latencies and sample sizes each
//! group reports, the core and ROM builds the runs were taken on, and the
//! span of their measurement times. Mixed builds and varying latencies are
//! reported as such, never resolved.
use vstd::prelude::*;
use crate::debug_state::{clone_string, str_eq};
use crate::framelab::{FrameObservation, FrameTable};
use crate::fmt::{dec_signed, push_dec_signed, push_str};
use crate::text::{join, join_strings, string_views, lemma_text_lt_irreflexive, lemma_text_lt_total, lemma_text_lt_transitive, str_lt, text_lt};

verus! {

/// The probe shape of an observation that names none.
pub const UNSTATED_SHAPE: &'static str = "(unstated)";

/// The probe shape an observation was taken under.
pub open spec fn shape_of(o: FrameObservation) -> Seq<char> {
    match o.rig_guard_state {
        Some(s) => s@,
        None => UNSTATED_SHAPE@,
    }
}

/// An observation's group: its observable and probe shape.
pub open spec fn key_of(o: FrameObservation) -> (Seq<char>, Seq<char>) {
    (o.observable@, shape_of(o))
}

/// Groups are ordered by observable, then by probe shape.
pub open spec fn key_lt(a: (Seq<char>, Seq<char>), b: (Seq<char>, Seq<char>)) -> bool {
    text_lt(a.0, b.0) || (a.0 == b.0 && text_lt(a.1, b.1))
}

/// The observations of `ch`'s cells, cell by cell.
pub open spec fn observations_of(cells: Seq<crate::framelab::FrameCell>, ch: Seq<char>) -> Seq<FrameObservation>
    decreases cells.len(),
{
    if cells.len() == 0 {
        Seq::empty()
    } else if cells.last().character@ == ch {
        observations_of(cells.drop_last(), ch) + cells.last().observations@
    } else {
        observations_of(cells.drop_last(), ch)
    }
}

/// Whether some observation falls in group `k`.
pub open spec fn has_key(obs: Seq<FrameObservation>, k: (Seq<char>, Seq<char>)) -> bool
    decreases obs.len(),
{
    obs.len() > 0 && (key_of(obs.last()) == k || has_key(obs.drop_last(), k))
}

/// How many observations of group `k` report a sample size.
pub open spec fn sampled(obs: Seq<FrameObservation>, k: (Seq<char>, Seq<char>)) -> nat
    decreases obs.len(),
{
    if obs.len() == 0 {
        0
    } else {
        sampled(obs.drop_last(), k) + if key_of(obs.last()) == k && obs.last().sample_n is Some { 1nat } else { 0nat }
    }
}

/// The smallest sample size group `k` reports.
pub open spec fn min_n(obs: Seq<FrameObservation>, k: (Seq<char>, Seq<char>)) -> Option<i64>
    decreases obs.len(),
{
    if obs.len() == 0 {
        None
    } else {
        let rest = min_n(obs.drop_last(), k);
        match (key_of(obs.last()) == k, obs.last().sample_n) {
            (true, Some(n)) => match rest {
                Some(m) => Some(if n < m { n } else { m }),
                None => Some(n),
            },
            _ => rest,
        }
    }
}

/// The largest sample size group `k` reports.
pub open spec fn max_n(obs: Seq<FrameObservation>, k: (Seq<char>, Seq<char>)) -> Option<i64>
    decreases obs.len(),
{
    if obs.len() == 0 {
        None
    } else {
        let rest = max_n(obs.drop_last(), k);
        match (key_of(obs.last()) == k, obs.last().sample_n) {
            (true, Some(n)) => match rest {
                Some(m) => Some(if n > m { n } else { m }),
                None => Some(n),
            },
            _ => rest,
        }
    }
}

/// Whether group `k` reports input latency `l`.
pub open spec fn has_latency(obs: Seq<FrameObservation>, k: (Seq<char>, Seq<char>), l: i64) -> bool
    decreases obs.len(),
{
    obs.len() > 0 && ((key_of(obs.last()) == k && obs.last().input_latency_frames == Some(l)) || has_latency(
        obs.drop_last(),
        k,
        l,
    ))
}

pub open spec fn opt_view(o: Option<String>) -> Option<Seq<char>> {
    match o {
        Some(s) => Some(s@),
        None => None,
    }
}

/// Whether some observation names core build `id`.
pub open spec fn has_core(obs: Seq<FrameObservation>, id: Seq<char>) -> bool
    decreases obs.len(),
{
    obs.len() > 0 && (opt_view(obs.last().core_id) == Some(id) || has_core(obs.drop_last(), id))
}

/// Whether some observation names ROM build `id`.
pub open spec fn has_rom(obs: Seq<FrameObservation>, id: Seq<char>) -> bool
    decreases obs.len(),
{
    obs.len() > 0 && (opt_view(obs.last().rom_id) == Some(id) || has_rom(obs.drop_last(), id))
}

/// Whether some observation was measured at time `m`.
pub open spec fn has_measured(obs: Seq<FrameObservation>, m: Seq<char>) -> bool
    decreases obs.len(),
{
    obs.len() > 0 && (opt_view(obs.last().measured_at) == Some(m) || has_measured(obs.drop_last(), m))
}

/// One group of a character's observations.
pub struct ProvenanceRow {
    pub observable: String,
    pub shape: String,
    /// Observations of the group that report a sample size.
    pub rows: usize,
    pub sample_min: Option<i64>,
    pub sample_max: Option<i64>,
    /// The distinct input latencies the group reports, ascending.
    pub latencies: Vec<i64>,
}

/// A character's provenance summary.
pub struct Provenance {
    /// One row per group, in group order.
    pub rows: Vec<ProvenanceRow>,
    /// The distinct core builds named, in text order.
    pub core_ids: Vec<String>,
    /// The distinct ROM builds named, in text order.
    pub rom_ids: Vec<String>,
    /// The earliest and latest measurement times, in text order.
    pub measured_span: Option<(String, String)>,
}

pub open spec fn row_key(r: ProvenanceRow) -> (Seq<char>, Seq<char>) {
    (r.observable@, r.shape@)
}


/// Strictly ascending text.
pub open spec fn ascending_texts(v: Seq<Seq<char>>) -> bool {
    forall|i: int, j: int| 0 <= i < j < v.len() ==> text_lt(#[trigger] v[i], #[trigger] v[j])
}

/// Strictly ascending numbers.
pub open spec fn ascending_ints(v: Seq<i64>) -> bool {
    forall|i: int, j: int| 0 <= i < j < v.len() ==> #[trigger] v[i] < #[trigger] v[j]
}

/// A row holds exactly its group's facts.
pub open spec fn row_summarizes(r: ProvenanceRow, obs: Seq<FrameObservation>) -> bool {
    let k = row_key(r);
    &&& has_key(obs, k)
    &&& r.rows == sampled(obs, k)
    &&& r.sample_min == min_n(obs, k)
    &&& r.sample_max == max_n(obs, k)
    &&& ascending_ints(r.latencies@)
    &&& forall|l: i64| r.latencies@.contains(l) <==> has_latency(obs, k, l)
}

/// The rows: one per group that occurs, in group order, each with its facts.
pub open spec fn rows_summarize(rows: Seq<ProvenanceRow>, obs: Seq<FrameObservation>) -> bool {
    &&& forall|i: int, j: int| 0 <= i < j < rows.len() ==> key_lt(row_key(#[trigger] rows[i]), row_key(#[trigger] rows[j]))
    &&& forall|i: int| 0 <= i < rows.len() ==> row_summarizes(#[trigger] rows[i], obs)
    &&& forall|k: (Seq<char>, Seq<char>)| #[trigger] has_key(obs, k) ==> exists|i: int| 0 <= i < rows.len() && row_key(
        #[trigger] rows[i],
    ) == k
}

/// The earliest and latest measurement times, when any is recorded.
pub open spec fn span_summarizes(span: Option<(String, String)>, obs: Seq<FrameObservation>) -> bool {
    match span {
        None => forall|m: Seq<char>| !has_measured(obs, m),
        Some((a, b)) => {
            &&& has_measured(obs, a@)
            &&& has_measured(obs, b@)
            &&& forall|m: Seq<char>| #[trigger] has_measured(obs, m) ==> !text_lt(m, a@) && !text_lt(b@, m)
        },
    }
}

/// The whole summary of a character's observations.
pub open spec fn summarizes(p: Provenance, obs: Seq<FrameObservation>) -> bool {
    &&& rows_summarize(p.rows@, obs)
    &&& ascending_texts(string_views(p.core_ids@))
    &&& forall|id: Seq<char>| string_views(p.core_ids@).contains(id) <==> has_core(obs, id)
    &&& ascending_texts(string_views(p.rom_ids@))
    &&& forall|id: Seq<char>| string_views(p.rom_ids@).contains(id) <==> has_rom(obs, id)
    &&& span_summarizes(p.measured_span, obs)
}


/// Add `s` to an ascending list of distinct texts, in its place, unless it
/// is there already.
fn insert_text(v: &mut Vec<String>, s: &String)
    requires
        ascending_texts(string_views(old(v)@)),
    ensures
        ascending_texts(string_views(final(v)@)),
        forall|x: Seq<char>| string_views(final(v)@).contains(x) <==> (string_views(old(v)@).contains(x) || x == s@),
{
    let ghost old_t = string_views(v@);
    let mut p: usize = 0;
    while p < v.len() && str_lt(v[p].as_str(), s.as_str())
        invariant
            p <= v@.len(),
            old_t == string_views(v@),
            forall|q: int| 0 <= q < p ==> text_lt(#[trigger] old_t[q], s@),
        decreases v@.len() - p,
    {
        p += 1;
    }
    if p < v.len() && str_eq(v[p].as_str(), s.as_str()) {
        assert(old_t[p as int] == s@);
        assert forall|x: Seq<char>| old_t.contains(x) <==> (old_t.contains(x) || x == s@) by {
            if x == s@ {
                assert(old_t[p as int] == x);
            }
        }
        return;
    }
    proof {
        if p < old_t.len() {
            assert(old_t[p as int] != s@);
            lemma_text_lt_total(old_t[p as int], s@);
        }
    }
    v.insert(p, clone_string(s));
    let ghost new_t = string_views(v@);
    proof {
        assert(new_t =~= old_t.insert(p as int, s@));
        assert forall|i: int, j: int| 0 <= i < j < new_t.len() implies text_lt(#[trigger] new_t[i], #[trigger] new_t[j]) by {
            if j < p {
                assert(new_t[i] == old_t[i] && new_t[j] == old_t[j]);
            } else if j == p {
                assert(new_t[i] == old_t[i]);
            } else if i < p {
                assert(new_t[i] == old_t[i] && new_t[j] == old_t[j - 1]);
                assert(text_lt(s@, old_t[p as int]));
                if j - 1 > p {
                    lemma_text_lt_transitive(s@, old_t[p as int], old_t[j - 1]);
                }
                lemma_text_lt_transitive(old_t[i], s@, old_t[j - 1]);
            } else if i == p {
                assert(new_t[j] == old_t[j - 1]);
                if j - 1 > p {
                    lemma_text_lt_transitive(s@, old_t[p as int], old_t[j - 1]);
                }
            } else {
                assert(new_t[i] == old_t[i - 1] && new_t[j] == old_t[j - 1]);
            }
        }
        assert forall|x: Seq<char>| new_t.contains(x) <==> (old_t.contains(x) || x == s@) by {
            if new_t.contains(x) {
                let j = choose|j: int| 0 <= j < new_t.len() && new_t[j] == x;
                if j < p {
                    assert(old_t[j] == x);
                } else if j > p {
                    assert(old_t[j - 1] == x);
                }
            }
            if old_t.contains(x) {
                let i = choose|i: int| 0 <= i < old_t.len() && old_t[i] == x;
                if i < p {
                    assert(new_t[i] == x);
                } else {
                    assert(new_t[i + 1] == x);
                }
            }
            if x == s@ {
                assert(new_t[p as int] == x);
            }
        }
    }
}

/// Add `l` to an ascending list of distinct numbers, in its place, unless
/// it is there already.
fn insert_int(v: &mut Vec<i64>, l: i64)
    requires
        ascending_ints(old(v)@),
    ensures
        ascending_ints(final(v)@),
        forall|x: i64| final(v)@.contains(x) <==> (old(v)@.contains(x) || x == l),
{
    let ghost old_v = v@;
    let mut p: usize = 0;
    while p < v.len() && v[p] < l
        invariant
            p <= v@.len(),
            old_v == v@,
            forall|q: int| 0 <= q < p ==> #[trigger] old_v[q] < l,
        decreases v@.len() - p,
    {
        p += 1;
    }
    if p < v.len() && v[p] == l {
        assert forall|x: i64| old_v.contains(x) <==> (old_v.contains(x) || x == l) by {
            if x == l {
                assert(old_v[p as int] == x);
            }
        }
        return;
    }
    v.insert(p, l);
    proof {
        let new_v = v@;
        assert forall|i: int, j: int| 0 <= i < j < new_v.len() implies #[trigger] new_v[i] < #[trigger] new_v[j] by {
            if j < p {
                assert(new_v[i] == old_v[i] && new_v[j] == old_v[j]);
            } else if j == p {
                assert(new_v[i] == old_v[i]);
            } else if i < p {
                assert(new_v[i] == old_v[i] && new_v[j] == old_v[j - 1]);
                assert(old_v[p as int] <= old_v[j - 1]);
            } else if i == p {
                assert(new_v[j] == old_v[j - 1]);
                assert(old_v[p as int] <= old_v[j - 1]);
            } else {
                assert(new_v[i] == old_v[i - 1] && new_v[j] == old_v[j - 1]);
            }
        }
        assert forall|x: i64| new_v.contains(x) <==> (old_v.contains(x) || x == l) by {
            if new_v.contains(x) {
                let j = choose|j: int| 0 <= j < new_v.len() && new_v[j] == x;
                if j < p {
                    assert(old_v[j] == x);
                } else if j > p {
                    assert(old_v[j - 1] == x);
                }
            }
            if old_v.contains(x) {
                let i = choose|i: int| 0 <= i < old_v.len() && old_v[i] == x;
                if i < p {
                    assert(new_v[i] == x);
                } else {
                    assert(new_v[i + 1] == x);
                }
            }
            if x == l {
                assert(new_v[p as int] == x);
            }
        }
    }
}


proof fn lemma_key_lt_irreflexive(a: (Seq<char>, Seq<char>))
    ensures
        !key_lt(a, a),
{
    lemma_text_lt_irreflexive(a.0);
    lemma_text_lt_irreflexive(a.1);
}

proof fn lemma_key_lt_transitive(a: (Seq<char>, Seq<char>), b: (Seq<char>, Seq<char>), c: (Seq<char>, Seq<char>))
    requires
        key_lt(a, b),
        key_lt(b, c),
    ensures
        key_lt(a, c),
{
    if text_lt(a.0, b.0) && text_lt(b.0, c.0) {
        lemma_text_lt_transitive(a.0, b.0, c.0);
    } else if a.0 == b.0 && b.0 == c.0 {
        lemma_text_lt_transitive(a.1, b.1, c.1);
    }
}

proof fn lemma_key_lt_total(a: (Seq<char>, Seq<char>), b: (Seq<char>, Seq<char>))
    requires
        a != b,
    ensures
        key_lt(a, b) || key_lt(b, a),
{
    if a.0 != b.0 {
        lemma_text_lt_total(a.0, b.0);
    } else {
        assert(a.1 != b.1);
        lemma_text_lt_total(a.1, b.1);
    }
}

/// What one more observation changes in every group's facts.
proof fn lemma_push_facts(obs: Seq<FrameObservation>, o: FrameObservation)
    ensures
        forall|k: (Seq<char>, Seq<char>)| #[trigger] has_key(obs.push(o), k) == (has_key(obs, k) || key_of(o) == k),
        forall|k: (Seq<char>, Seq<char>)| #[trigger] sampled(obs.push(o), k) == sampled(obs, k) + if key_of(o) == k
            && o.sample_n is Some { 1nat } else { 0nat },
        forall|k: (Seq<char>, Seq<char>)| #[trigger] min_n(obs.push(o), k) == match (key_of(o) == k, o.sample_n) {
            (true, Some(n)) => match min_n(obs, k) {
                Some(m) => Some(if n < m { n } else { m }),
                None => Some(n),
            },
            _ => min_n(obs, k),
        },
        forall|k: (Seq<char>, Seq<char>)| #[trigger] max_n(obs.push(o), k) == match (key_of(o) == k, o.sample_n) {
            (true, Some(n)) => match max_n(obs, k) {
                Some(m) => Some(if n > m { n } else { m }),
                None => Some(n),
            },
            _ => max_n(obs, k),
        },
        forall|k: (Seq<char>, Seq<char>), l: i64| #[trigger] has_latency(obs.push(o), k, l) == (has_latency(obs, k, l)
            || (key_of(o) == k && o.input_latency_frames == Some(l))),
        forall|id: Seq<char>| #[trigger] has_core(obs.push(o), id) == (has_core(obs, id) || opt_view(o.core_id) == Some(id)),
        forall|id: Seq<char>| #[trigger] has_rom(obs.push(o), id) == (has_rom(obs, id) || opt_view(o.rom_id) == Some(id)),
        forall|m: Seq<char>| #[trigger] has_measured(obs.push(o), m) == (has_measured(obs, m) || opt_view(o.measured_at)
            == Some(m)),
{
    assert(obs.push(o).drop_last() =~= obs);
    assert(obs.push(o).last() == o);
}

/// A group with no observation has no facts.
proof fn lemma_absent_key(obs: Seq<FrameObservation>, k: (Seq<char>, Seq<char>))
    requires
        !has_key(obs, k),
    ensures
        sampled(obs, k) == 0,
        min_n(obs, k) is None,
        max_n(obs, k) is None,
        forall|l: i64| !#[trigger] has_latency(obs, k, l),
    decreases obs.len(),
{
    if obs.len() > 0 {
        lemma_absent_key(obs.drop_last(), k);
        assert forall|l: i64| !#[trigger] has_latency(obs, k, l) by {
            assert(!has_latency(obs.drop_last(), k, l));
        }
    }
}

proof fn lemma_sampled_bound(obs: Seq<FrameObservation>, k: (Seq<char>, Seq<char>))
    ensures
        sampled(obs, k) <= obs.len(),
    decreases obs.len(),
{
    if obs.len() > 0 {
        lemma_sampled_bound(obs.drop_last(), k);
    }
}

/// Whether group `(ao, ash)` comes before group `(bo, bsh)`.
fn key_less(ao: &str, ash: &str, bo: &str, bsh: &str) -> (r: bool)
    ensures
        r == key_lt((ao@, ash@), (bo@, bsh@)),
{
    if str_lt(ao, bo) {
        return true;
    }
    str_eq(ao, bo) && str_lt(ash, bsh)
}

/// The probe shape of `o` as text.
fn shape_text(o: &FrameObservation) -> (s: String)
    ensures
        s@ == shape_of(*o),
{
    match &o.rig_guard_state {
        Some(g) => clone_string(g),
        None => {
            let mut s = String::new();
            push_str(&mut s, UNSTATED_SHAPE);
            s
        },
    }
}

/// Count one more observation into the group rows.
fn add_to_rows(rows: &mut Vec<ProvenanceRow>, o: &FrameObservation, obs: Ghost<Seq<FrameObservation>>)
    requires
        rows_summarize(old(rows)@, obs@),
        obs@.len() < usize::MAX,
    ensures
        rows_summarize(final(rows)@, obs@.push(*o)),
{
    let ghost obs2 = obs@.push(*o);
    let ghost k = key_of(*o);
    proof {
        lemma_push_facts(obs@, *o);
    }
    let shape = shape_text(o);
    let ghost old_rows = rows@;
    let mut p: usize = 0;
    while p < rows.len() && key_less(rows[p].observable.as_str(), rows[p].shape.as_str(), o.observable.as_str(), shape.as_str())
        invariant
            p <= rows@.len(),
            rows@ == old_rows,
            shape@ == k.1,
            k == key_of(*o),
            forall|q: int| 0 <= q < p ==> key_lt(row_key(#[trigger] old_rows[q]), k),
        decreases rows@.len() - p,
    {
        p += 1;
    }
    if p < rows.len() && str_eq(rows[p].observable.as_str(), o.observable.as_str()) && str_eq(rows[p].shape.as_str(), shape.as_str()) {
        // The group exists: update its row in place.
        assert(row_key(old_rows[p as int]) == k);
        let mut row = rows.remove(p);
        proof {
            assert(row_summarizes(row, obs@));
            lemma_sampled_bound(obs@, k);
        }
        match o.sample_n {
            Some(n) => {
                row.rows = row.rows + 1;
                row.sample_min = match row.sample_min {
                    Some(m) => Some(if n < m { n } else { m }),
                    None => Some(n),
                };
                row.sample_max = match row.sample_max {
                    Some(m) => Some(if n > m { n } else { m }),
                    None => Some(n),
                };
            },
            None => {},
        }
        let ghost old_lats = row.latencies@;
        match o.input_latency_frames {
            Some(l) => insert_int(&mut row.latencies, l),
            None => {},
        }
        proof {
            assert forall|l: i64| row.latencies@.contains(l) <==> has_latency(obs2, k, l) by {
                assert(old_lats.contains(l) <==> has_latency(obs@, k, l));
            }
            assert(row_summarizes(row, obs2));
        }
        rows.insert(p, row);
        proof {
            assert(rows@ =~= old_rows.update(p as int, row));
            assert forall|i: int| 0 <= i < rows@.len() implies row_summarizes(#[trigger] rows@[i], obs2) by {
                if i != p {
                    let r = old_rows[i];
                    assert(row_summarizes(r, obs@));
                    assert(row_key(r) != k) by {
                        if i < p {
                            lemma_key_lt_irreflexive(k);
                        } else {
                            assert(key_lt(row_key(old_rows[p as int]), row_key(old_rows[i])));
                            lemma_key_lt_irreflexive(k);
                        }
                    }
                    assert forall|l: i64| r.latencies@.contains(l) <==> has_latency(obs2, row_key(r), l) by {
                        assert(r.latencies@.contains(l) <==> has_latency(obs@, row_key(r), l));
                    }
                }
            }
            assert forall|i: int, j: int| 0 <= i < j < rows@.len() implies key_lt(row_key(#[trigger] rows@[i]), row_key(#[trigger] rows@[j])) by {
                assert(key_lt(row_key(old_rows[i]), row_key(old_rows[j])));
            }
            assert forall|kk: (Seq<char>, Seq<char>)| #[trigger] has_key(obs2, kk) implies exists|i: int| 0 <= i < rows@.len() && row_key(#[trigger] rows@[i]) == kk by {
                if kk == k {
                    assert(row_key(rows@[p as int]) == kk);
                } else {
                    let i = choose|i: int| 0 <= i < old_rows.len() && row_key(#[trigger] old_rows[i]) == kk;
                    assert(row_key(rows@[i]) == kk);
                }
            }
        }
    } else {
        // A new group: its row goes in its place.
        proof {
            if p < old_rows.len() {
                assert(row_key(old_rows[p as int]) != k);
                lemma_key_lt_total(row_key(old_rows[p as int]), k);
                assert(key_lt(k, row_key(old_rows[p as int])));
            }
            assert(!has_key(obs@, k)) by {
                if has_key(obs@, k) {
                    let i = choose|i: int| 0 <= i < old_rows.len() && row_key(#[trigger] old_rows[i]) == k;
                    if i < p {
                        lemma_key_lt_irreflexive(k);
                    } else if i == p {
                    } else {
                        assert(key_lt(row_key(old_rows[p as int]), row_key(old_rows[i])));
                        lemma_key_lt_transitive(k, row_key(old_rows[p as int]), k);
                        lemma_key_lt_irreflexive(k);
                    }
                }
            }
            lemma_absent_key(obs@, k);
        }
        let mut lats: Vec<i64> = Vec::new();
        match o.input_latency_frames {
            Some(l) => lats.push(l),
            None => {},
        }
        let row = ProvenanceRow {
            observable: clone_string(&o.observable),
            shape,
            rows: match o.sample_n {
                Some(_) => 1,
                None => 0,
            },
            sample_min: o.sample_n,
            sample_max: o.sample_n,
            latencies: lats,
        };
        proof {
            assert forall|l: i64| row.latencies@.contains(l) <==> has_latency(obs2, k, l) by {
                if o.input_latency_frames == Some(l) {
                    assert(row.latencies@[0] == l);
                }
            }
            assert(row_summarizes(row, obs2));
        }
        rows.insert(p, row);
        proof {
            let new_rows = rows@;
            assert(new_rows =~= old_rows.insert(p as int, row));
            assert forall|i: int| 0 <= i < new_rows.len() implies row_summarizes(#[trigger] new_rows[i], obs2) by {
                if i != p {
                    let r = if i < p { old_rows[i] } else { old_rows[i - 1] };
                    assert(new_rows[i] == r);
                    assert(row_summarizes(r, obs@));
                    assert(has_key(obs@, row_key(r)));
                    assert(row_key(r) != k);
                    assert forall|l: i64| r.latencies@.contains(l) <==> has_latency(obs2, row_key(r), l) by {
                        assert(r.latencies@.contains(l) <==> has_latency(obs@, row_key(r), l));
                    }
                }
            }
            assert forall|i: int, j: int| 0 <= i < j < new_rows.len() implies key_lt(row_key(#[trigger] new_rows[i]), row_key(#[trigger] new_rows[j])) by {
                if j < p {
                    assert(new_rows[i] == old_rows[i] && new_rows[j] == old_rows[j]);
                } else if j == p {
                    assert(new_rows[i] == old_rows[i]);
                } else if i < p {
                    assert(new_rows[i] == old_rows[i] && new_rows[j] == old_rows[j - 1]);
                    if j - 1 > p {
                        lemma_key_lt_transitive(k, row_key(old_rows[p as int]), row_key(old_rows[j - 1]));
                    }
                    lemma_key_lt_transitive(row_key(old_rows[i]), k, row_key(old_rows[j - 1]));
                } else if i == p {
                    assert(new_rows[j] == old_rows[j - 1]);
                    if j - 1 > p {
                        lemma_key_lt_transitive(k, row_key(old_rows[p as int]), row_key(old_rows[j - 1]));
                    }
                } else {
                    assert(new_rows[i] == old_rows[i - 1] && new_rows[j] == old_rows[j - 1]);
                }
            }
            assert forall|kk: (Seq<char>, Seq<char>)| #[trigger] has_key(obs2, kk) implies exists|i: int| 0 <= i < new_rows.len() && row_key(#[trigger] new_rows[i]) == kk by {
                if kk == k {
                    assert(row_key(new_rows[p as int]) == kk);
                } else {
                    let i = choose|i: int| 0 <= i < old_rows.len() && row_key(#[trigger] old_rows[i]) == kk;
                    if i < p {
                        assert(row_key(new_rows[i]) == kk);
                    } else {
                        assert(row_key(new_rows[i + 1]) == kk);
                    }
                }
            }
        }
    }
}


/// Take one more measurement time into the span.
fn add_to_span(span: &mut Option<(String, String)>, o: &FrameObservation, obs: Ghost<Seq<FrameObservation>>)
    requires
        span_summarizes(*old(span), obs@),
    ensures
        span_summarizes(*final(span), obs@.push(*o)),
{
    proof {
        lemma_push_facts(obs@, *o);
    }
    let ghost obs2 = obs@.push(*o);
    match &o.measured_at {
        None => {},
        Some(m) => {
            let next = match span {
                None => (clone_string(m), clone_string(m)),
                Some((a, b)) => (
                    if str_lt(m.as_str(), a.as_str()) { clone_string(m) } else { clone_string(a) },
                    if str_lt(b.as_str(), m.as_str()) { clone_string(m) } else { clone_string(b) },
                ),
            };
            proof {
                let (na, nb) = next;
                match *old(span) {
                    None => {
                        lemma_text_lt_irreflexive(m@);
                        assert forall|x: Seq<char>| #[trigger] has_measured(obs2, x) implies !text_lt(x, na@) && !text_lt(nb@, x) by {
                            assert(!has_measured(obs@, x));
                        }
                    },
                    Some((a, b)) => {
                        assert forall|x: Seq<char>| #[trigger] has_measured(obs2, x) implies !text_lt(x, na@) && !text_lt(nb@, x) by {
                            if has_measured(obs@, x) {
                                assert(!text_lt(x, a@) && !text_lt(b@, x));
                                if text_lt(x, na@) && na@ == m@ {
                                    lemma_text_lt_transitive(x, m@, a@);
                                }
                                if text_lt(nb@, x) && nb@ == m@ {
                                    lemma_text_lt_transitive(b@, m@, x);
                                }
                            } else {
                                assert(x == m@);
                                lemma_text_lt_irreflexive(m@);
                                if na@ != m@ {
                                    assert(!text_lt(m@, a@));
                                }
                                if nb@ != m@ {
                                    assert(!text_lt(b@, m@));
                                }
                            }
                        }
                    },
                }
            }
            *span = Some(next);
        },
    }
}

/// Take one more observation into the summary.
fn add_observation(p: &mut Provenance, o: &FrameObservation, obs: Ghost<Seq<FrameObservation>>)
    requires
        summarizes(*old(p), obs@),
        obs@.len() < usize::MAX,
    ensures
        summarizes(*final(p), obs@.push(*o)),
{
    proof {
        lemma_push_facts(obs@, *o);
    }
    add_to_rows(&mut p.rows, o, obs);
    let ghost cores = string_views(p.core_ids@);
    match &o.core_id {
        Some(c) => insert_text(&mut p.core_ids, c),
        None => {},
    }
    proof {
        assert forall|id: Seq<char>| string_views(p.core_ids@).contains(id) <==> has_core(obs@.push(*o), id) by {
            assert(cores.contains(id) <==> has_core(obs@, id));
        }
    }
    let ghost roms = string_views(p.rom_ids@);
    match &o.rom_id {
        Some(r) => insert_text(&mut p.rom_ids, r),
        None => {},
    }
    proof {
        assert forall|id: Seq<char>| string_views(p.rom_ids@).contains(id) <==> has_rom(obs@.push(*o), id) by {
            assert(roms.contains(id) <==> has_rom(obs@, id));
        }
    }
    add_to_span(&mut p.measured_span, o, obs);
}

proof fn lemma_observations_step(cells: Seq<crate::framelab::FrameCell>, ch: Seq<char>, i: int)
    requires
        0 <= i < cells.len(),
    ensures
        observations_of(cells.take(i + 1), ch) == if cells[i].character@ == ch {
            observations_of(cells.take(i), ch) + cells[i].observations@
        } else {
            observations_of(cells.take(i), ch)
        },
{
    assert(cells.take(i + 1).drop_last() =~= cells.take(i));
}

proof fn lemma_observations_prefix(cells: Seq<crate::framelab::FrameCell>, ch: Seq<char>, i: int)
    requires
        0 <= i <= cells.len(),
    ensures
        observations_of(cells.take(i), ch).len() <= observations_of(cells, ch).len(),
    decreases cells.len(),
{
    if i == cells.len() {
        assert(cells.take(i) =~= cells);
    } else {
        assert(cells.drop_last().take(i) =~= cells.take(i));
        lemma_observations_prefix(cells.drop_last(), ch, i);
    }
}

/// The provenance summary of character `ch`'s cells in `table`.
pub fn provenance(table: &FrameTable, ch: &str) -> (p: Provenance)
    requires
        observations_of(table.cells@, ch@).len() <= usize::MAX,
    ensures
        summarizes(p, observations_of(table.cells@, ch@)),
{
    let mut p = Provenance { rows: Vec::new(), core_ids: Vec::new(), rom_ids: Vec::new(), measured_span: None };
    let ghost cells = table.cells@;
    assert(cells.take(0) =~= Seq::<crate::framelab::FrameCell>::empty());
    let mut ci: usize = 0;
    while ci < table.cells.len()
        invariant
            ci <= cells.len(),
            cells == table.cells@,
            observations_of(cells, ch@).len() <= usize::MAX,
            summarizes(p, observations_of(cells.take(ci as int), ch@)),
        decreases cells.len() - ci,
    {
        let cell = &table.cells[ci];
        proof {
            lemma_observations_step(cells, ch@, ci as int);
            lemma_observations_prefix(cells, ch@, ci + 1);
        }
        if str_eq(cell.character.as_str(), ch) {
            let ghost before = observations_of(cells.take(ci as int), ch@);
            let mut oi: usize = 0;
            assert(cell.observations@.take(0) =~= Seq::<FrameObservation>::empty());
            assert(before + cell.observations@.take(0) =~= before);
            while oi < cell.observations.len()
                invariant
                    oi <= cell.observations@.len(),
                    before.len() + cell.observations@.len() <= usize::MAX,
                    summarizes(p, before + cell.observations@.take(oi as int)),
                decreases cell.observations@.len() - oi,
            {
                let o = &cell.observations[oi];
                add_observation(&mut p, o, Ghost(before + cell.observations@.take(oi as int)));
                proof {
                    assert((before + cell.observations@.take(oi as int)).push(*o) =~= before + cell.observations@.take(
                        oi + 1,
                    ));
                }
                oi += 1;
            }
            assert(cell.observations@.take(oi as int) =~= cell.observations@);
        }
        ci += 1;
    }
    assert(cells.take(ci as int) =~= cells);
    p
}


/// The summary has no rows exactly when the character has no observations
/// (the panel then says none were recorded).
pub proof fn lemma_no_rows_iff_no_observations(p: Provenance, obs: Seq<FrameObservation>)
    requires
        summarizes(p, obs),
    ensures
        (p.rows@.len() == 0) == (obs.len() == 0),
{
    if obs.len() > 0 {
        assert(has_key(obs, key_of(obs.last())));
    }
    if p.rows@.len() > 0 {
        assert(row_summarizes(p.rows@[0], obs));
    }
}

/// A group's latency column: its one latency, `VARIES [..]` listing them
/// all when there are several, or a dash when none is reported.
pub open spec fn latency_text_spec(lats: Seq<i64>) -> Seq<char> {
    if lats.len() == 1 {
        dec_signed(lats[0] as int)
    } else if lats.len() > 1 {
        "VARIES ["@ + join(lats.map_values(|l: i64| dec_signed(l as int)), ", "@) + "]"@
    } else {
        "\u{2014}"@
    }
}

pub fn latency_text(lats: &Vec<i64>) -> (s: String)
    ensures
        s@ == latency_text_spec(lats@),
{
    let mut s = String::new();
    if lats.len() == 1 {
        push_dec_signed(&mut s, lats[0]);
        assert(s@ =~= latency_text_spec(lats@));
        return s;
    }
    if lats.len() == 0 {
        push_str(&mut s, "\u{2014}");
        assert(s@ =~= latency_text_spec(lats@));
        return s;
    }
    push_str(&mut s, "VARIES [");
    let ghost parts = lats@.map_values(|l: i64| dec_signed(l as int));
    let mut i: usize = 0;
    while i < lats.len()
        invariant
            i <= lats@.len(),
            parts == lats@.map_values(|l: i64| dec_signed(l as int)),
            s@ == "VARIES ["@ + join(parts.take(i as int), ", "@),
        decreases lats@.len() - i,
    {
        if i != 0 {
            push_str(&mut s, ", ");
        }
        push_dec_signed(&mut s, lats[i]);
        proof {
            assert(parts.take(i + 1).drop_last() =~= parts.take(i as int));
            assert(parts.take(i + 1).last() == dec_signed(lats@[i as int] as int));
            if i == 0 {
                assert(parts.take(1).len() == 1);
            }
            assert(s@ =~= "VARIES ["@ + join(parts.take(i + 1), ", "@));
        }
        i += 1;
    }
    push_str(&mut s, "]");
    assert(parts.take(lats@.len() as int) =~= parts);
    assert(s@ =~= latency_text_spec(lats@));
    s
}

/// A group's sample-size column: one size, or the range `min..max`, or a
/// dash when the group reports none.
pub open spec fn sample_n_text_spec(min: Option<i64>, max: Option<i64>) -> Seq<char> {
    match (min, max) {
        (Some(a), Some(b)) => if a == b {
            dec_signed(a as int)
        } else {
            dec_signed(a as int) + ".."@ + dec_signed(b as int)
        },
        _ => "\u{2014}"@,
    }
}

pub fn sample_n_text(min: Option<i64>, max: Option<i64>) -> (s: String)
    ensures
        s@ == sample_n_text_spec(min, max),
{
    let mut s = String::new();
    match (min, max) {
        (Some(a), Some(b)) => {
            push_dec_signed(&mut s, a);
            if a != b {
                push_str(&mut s, "..");
                push_dec_signed(&mut s, b);
            }
        },
        _ => push_str(&mut s, "\u{2014}"),
    }
    assert(s@ =~= sample_n_text_spec(min, max));
    s
}

/// The build line for one kind of id: `field: id` for a single build,
/// `field: ⚠ MIXED kind builds: a, b` for several, `field: unknown`
/// for none.
pub open spec fn ids_line_spec(field: Seq<char>, kind: Seq<char>, ids: Seq<Seq<char>>) -> Seq<char> {
    field + ": "@ + if ids.len() > 1 {
        "\u{26a0} MIXED "@ + kind + " builds: "@ + join(ids, ", "@)
    } else if ids.len() == 1 {
        ids[0]
    } else {
        "unknown"@
    }
}

pub fn ids_line(field: &str, kind: &str, ids: &Vec<String>) -> (s: String)
    ensures
        s@ == ids_line_spec(field@, kind@, string_views(ids@)),
{
    let mut s = String::new();
    push_str(&mut s, field);
    push_str(&mut s, ": ");
    if ids.len() > 1 {
        push_str(&mut s, "\u{26a0} MIXED ");
        push_str(&mut s, kind);
        push_str(&mut s, " builds: ");
        let joined = join_strings(ids, ", ");
        push_str(&mut s, joined.as_str());
    } else if ids.len() == 1 {
        push_str(&mut s, ids[0].as_str());
    } else {
        push_str(&mut s, "unknown");
    }
    assert(s@ =~= ids_line_spec(field@, kind@, string_views(ids@)));
    s
}

/// `measured_at: first .. last`, when any measurement time is recorded.
pub fn measured_line(span: &Option<(String, String)>) -> (s: Option<String>)
    ensures
        match (*span, s) {
            (Some((a, b)), Some(t)) => t@ == "measured_at: "@ + a@ + " .. "@ + b@,
            (None, None) => true,
            _ => false,
        },
{
    match span {
        None => None,
        Some((a, b)) => {
            let mut s = String::new();
            push_str(&mut s, "measured_at: ");
            push_str(&mut s, a.as_str());
            push_str(&mut s, " .. ");
            push_str(&mut s, b.as_str());
            Some(s)
        },
    }
}

} // verus!
