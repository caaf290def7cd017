//! The regions panel's model: bookmark and code-region lines, the
//! bookmark list's edits, and the PC heatmap's hottest-first table.
use vstd::prelude::*;
use crate::fmt::{dec, hex, pad_left, push_char, push_dec, push_padded, push_str};
use crate::memory::Bookmark;
use crate::parse::{trim, trim_bounds};
use crate::panels::{lowercase, to_lowercase};
use crate::text::{contains_folded, fold_case, occurs_in};

verus! {

/// How many heatmap rows the table shows.
pub const HEATMAP_ROWS: usize = 100;

/// The panel's editing state: which bookmark's label or notes are being
/// edited and the text typed so far, the frame each bookmark thumbnail was
/// made from (`u64::MAX` before the first), and the heatmap filter.
pub struct RegionsPanel {
    pub edit_label_idx: Option<usize>,
    pub edit_label_buf: String,
    pub edit_notes_idx: Option<usize>,
    pub edit_notes_buf: String,
    pub thumb_generations: Vec<u64>,
    pub heatmap_filter: String,
}

impl RegionsPanel {
    pub fn new() -> (p: Self)
        ensures
            p.edit_label_idx is None,
            p.edit_notes_idx is None,
            p.edit_label_buf@.len() == 0,
            p.edit_notes_buf@.len() == 0,
            p.thumb_generations@.len() == 0,
            p.heatmap_filter@.len() == 0,
    {
        RegionsPanel {
            edit_label_idx: None,
            edit_label_buf: String::new(),
            edit_notes_idx: None,
            edit_notes_buf: String::new(),
            thumb_generations: Vec::new(),
            heatmap_filter: String::new(),
        }
    }

    /// Grow the thumbnail bookkeeping to one entry per bookmark; new entries
    /// have no thumbnail yet.
    pub fn grow_thumbs(&mut self, bookmarks: usize)
        ensures
            old(self).thumb_generations@.len() >= bookmarks ==> final(self).thumb_generations@
                == old(self).thumb_generations@,
            old(self).thumb_generations@.len() < bookmarks ==> final(self).thumb_generations@
                == old(self).thumb_generations@ + Seq::new(
                (bookmarks - old(self).thumb_generations@.len()) as nat,
                |_i: int| u64::MAX,
            ),
            *final(self) == (RegionsPanel { thumb_generations: final(self).thumb_generations, ..*old(self) }),
    {
        let ghost g0 = self.thumb_generations@;
        while self.thumb_generations.len() < bookmarks
            invariant
                g0.len() <= self.thumb_generations@.len() || g0.len() < bookmarks,
                self.thumb_generations@.len() <= bookmarks || self.thumb_generations@ == g0,
                self.thumb_generations@.len() >= g0.len(),
                self.thumb_generations@ == g0 + Seq::new(
                    (self.thumb_generations@.len() - g0.len()) as nat,
                    |_i: int| u64::MAX,
                ),
                *self == (RegionsPanel { thumb_generations: self.thumb_generations, ..*old(self) }),
            decreases bookmarks - self.thumb_generations@.len(),
        {
            let ghost before = self.thumb_generations@;
            self.thumb_generations.push(u64::MAX);
            proof {
                assert(self.thumb_generations@ =~= g0 + Seq::new(
                    (self.thumb_generations@.len() - g0.len()) as nat,
                    |_i: int| u64::MAX,
                ));
            }
        }
        proof {
            if g0.len() >= bookmarks {
                assert(self.thumb_generations@ =~= g0);
            }
        }
    }

    /// Delete bookmark `i` and its thumbnail entry; an edit of that row is
    /// abandoned.
    pub fn delete_bookmark(&mut self, bookmarks: &mut Vec<Bookmark>, i: usize)
        requires
            i < old(bookmarks)@.len(),
            i < old(self).thumb_generations@.len(),
        ensures
            final(bookmarks)@ == old(bookmarks)@.remove(i as int),
            final(self).thumb_generations@ == old(self).thumb_generations@.remove(i as int),
            final(self).edit_label_idx == if old(self).edit_label_idx == Some(i) { None } else { old(self).edit_label_idx },
            final(self).edit_notes_idx == if old(self).edit_notes_idx == Some(i) { None } else { old(self).edit_notes_idx },
            *final(self) == (RegionsPanel {
                thumb_generations: final(self).thumb_generations,
                edit_label_idx: final(self).edit_label_idx,
                edit_notes_idx: final(self).edit_notes_idx,
                ..*old(self)
            }),
    {
        bookmarks.remove(i);
        self.thumb_generations.remove(i);
        if self.edit_label_idx == Some(i) {
            self.edit_label_idx = None;
        }
        if self.edit_notes_idx == Some(i) {
            self.edit_notes_idx = None;
        }
    }
}

/// The toolbar's tally.
pub open spec fn summary_spec(bookmarks: nat, heat: nat, regions: nat) -> Seq<char> {
    dec(bookmarks) + " bookmarks  \u{b7}  "@ + dec(heat) + " heatmap entries  \u{b7}  "@ + dec(regions) + " regions"@
}

/// The toolbar's tally: `"<b> bookmarks  ·  <h> heatmap entries  ·  <r> regions"`.
pub fn summary_text(bookmarks: usize, heat: usize, regions: usize) -> (s: String)
    ensures
        s@ == summary_spec(bookmarks as nat, heat as nat, regions as nat),
{
    let mut s = String::new();
    push_dec(&mut s, bookmarks as u64);
    push_str(&mut s, " bookmarks  \u{b7}  ");
    push_dec(&mut s, heat as u64);
    push_str(&mut s, " heatmap entries  \u{b7}  ");
    push_dec(&mut s, regions as u64);
    push_str(&mut s, " regions");
    s
}

/// A bookmark's position line: `"Frame <frame, right-aligned in 8>  |  PC: $<pc, 6 hex>"`.
pub fn bookmark_line(bm: &Bookmark) -> (s: String)
    ensures
        s@ == "Frame "@ + pad_left(dec(bm.frame as nat), 8, ' ') + "  |  PC: $"@ + hex(bm.m68k_pc as nat, 6),
{
    proof {
        reveal_strlit(" ");
        reveal_strlit("0");
    }
    let mut s = String::new();
    push_str(&mut s, "Frame ");
    push_padded(&mut s, bm.frame, 10, 8, " ");
    push_str(&mut s, "  |  PC: $");
    push_padded(&mut s, bm.m68k_pc as u64, 16, 6, "0");
    s
}

/// A bookmark's register peek: D0, D1, A6 and A7 as eight hex digits.
pub fn register_line(bm: &Bookmark) -> (s: String)
    ensures
        s@ == "D0=$"@ + hex(bm.m68k_d_regs@[0] as nat, 8) + " D1=$"@ + hex(bm.m68k_d_regs@[1] as nat, 8) + "  A6=$"@
            + hex(bm.m68k_a_regs@[6] as nat, 8) + " A7=$"@ + hex(bm.m68k_a_regs@[7] as nat, 8),
{
    proof {
        reveal_strlit("0");
    }
    let mut s = String::new();
    push_str(&mut s, "D0=$");
    push_padded(&mut s, bm.m68k_d_regs[0] as u64, 16, 8, "0");
    push_str(&mut s, " D1=$");
    push_padded(&mut s, bm.m68k_d_regs[1] as u64, 16, 8, "0");
    push_str(&mut s, "  A6=$");
    push_padded(&mut s, bm.m68k_a_regs[6] as u64, 16, 8, "0");
    push_str(&mut s, " A7=$");
    push_padded(&mut s, bm.m68k_a_regs[7] as u64, 16, 8, "0");
    s
}

/// An address as the tables show it: `$` and six hex digits.
pub fn addr_label(addr: u32) -> (s: String)
    ensures
        s@ == seq!['$'] + hex(addr as nat, 6),
{
    proof {
        reveal_strlit("$");
        reveal_strlit("0");
    }
    let mut s = String::new();
    push_str(&mut s, "$");
    push_padded(&mut s, addr as u64, 16, 6, "0");
    s
}

/// The heatmap caption: `"Top <shown> addresses (of <unique> unique):"`.
pub fn top_label(shown: usize, unique: usize) -> (s: String)
    ensures
        s@ == "Top "@ + dec(shown as nat) + " addresses (of "@ + dec(unique as nat) + " unique):"@,
{
    let mut s = String::new();
    push_str(&mut s, "Top ");
    push_dec(&mut s, shown as u64);
    push_str(&mut s, " addresses (of ");
    push_dec(&mut s, unique as u64);
    push_str(&mut s, " unique):");
    s
}

/// Whether a heatmap address passes the (already trimmed and lower-cased)
/// filter: an empty filter passes everything, otherwise it must occur in
/// the address's six lower-case hex digits.
pub open spec fn heat_shown(filter: Seq<char>, addr: u32) -> bool {
    filter.len() == 0 || occurs_in(fold_case(hex(addr as nat, 6), false), filter)
}

/// How many leading entries have a count of at least `c`.
pub open spec fn ge_prefix(s: Seq<(u32, u64)>, c: u64) -> nat
    decreases s.len(),
{
    if s.len() == 0 {
        0
    } else if s[0].1 >= c {
        1 + ge_prefix(s.drop_first(), c)
    } else {
        0
    }
}

/// `s` with `x` placed after its leading run of entries at least as hot.
pub open spec fn insert_desc(s: Seq<(u32, u64)>, x: (u32, u64)) -> Seq<(u32, u64)> {
    let p = ge_prefix(s, x.1) as int;
    s.take(p).push(x) + s.skip(p)
}

/// The entries hottest first; entries with equal counts keep their order.
pub open spec fn sort_desc(s: Seq<(u32, u64)>) -> Seq<(u32, u64)>
    decreases s.len(),
{
    if s.len() == 0 {
        s
    } else {
        insert_desc(sort_desc(s.drop_last()), s.last())
    }
}

/// The entries passing the filter, in their order.
pub open spec fn heat_kept(entries: Seq<(u32, u64)>, filter: Seq<char>) -> Seq<(u32, u64)> {
    entries.filter(|e: (u32, u64)| heat_shown(filter, e.0))
}

/// The heatmap filter as typed, trimmed and lower-cased.
pub open spec fn heat_filter(typed: Seq<char>) -> Seq<char> {
    lowercase(trim(typed))
}

proof fn lemma_ge_prefix_bound(s: Seq<(u32, u64)>, c: u64)
    ensures
        ge_prefix(s, c) <= s.len(),
        forall|j: int| 0 <= j < ge_prefix(s, c) ==> s[j].1 >= c,
        ge_prefix(s, c) < s.len() ==> s[ge_prefix(s, c) as int].1 < c,
    decreases s.len(),
{
    if s.len() > 0 && s[0].1 >= c {
        lemma_ge_prefix_bound(s.drop_first(), c);
        assert forall|j: int| 0 <= j < ge_prefix(s, c) implies s[j].1 >= c by {
            if j > 0 {
                assert(s[j] == s.drop_first()[j - 1]);
            }
        }
    }
}

/// The leading run is found by any scan that stops at the first colder entry.
proof fn lemma_ge_prefix_is(s: Seq<(u32, u64)>, c: u64, p: int)
    requires
        0 <= p <= s.len(),
        forall|j: int| 0 <= j < p ==> s[j].1 >= c,
        p < s.len() ==> s[p].1 < c,
    ensures
        ge_prefix(s, c) == p,
    decreases s.len(),
{
    if s.len() > 0 && p > 0 {
        assert forall|j: int| 0 <= j < p - 1 implies s.drop_first()[j].1 >= c by {
            assert(s.drop_first()[j] == s[j + 1]);
        }
        if p < s.len() {
            assert(s.drop_first()[p - 1] == s[p]);
        }
        lemma_ge_prefix_is(s.drop_first(), c, p - 1);
    }
}

/// The first `k` entries of `s`, or all of them when there are fewer.
pub open spec fn first_rows(s: Seq<(u32, u64)>, k: int) -> Seq<(u32, u64)> {
    if s.len() <= k { s } else { s.take(k) }
}

/// Cutting to the first `k` rows before or after an insertion agrees.
proof fn lemma_insert_then_cut(s: Seq<(u32, u64)>, x: (u32, u64), k: int)
    requires
        0 <= k,
    ensures
        first_rows(insert_desc(s, x), k) == first_rows(insert_desc(first_rows(s, k), x), k),
{
    if s.len() > k {
        let p = ge_prefix(s, x.1) as int;
        lemma_ge_prefix_bound(s, x.1);
        let t = s.take(k);
        let q = if p < k { p } else { k };
        assert forall|j: int| 0 <= j < q implies t[j].1 >= x.1 by {
            assert(t[j] == s[j]);
        }
        if q < t.len() {
            assert(t[q] == s[p]);
        }
        lemma_ge_prefix_is(t, x.1, q);
        assert(first_rows(insert_desc(s, x), k) =~= first_rows(insert_desc(t, x), k));
    }
}

/// The heatmap table: the entries whose address passes the filter, hottest
/// first (equal counts in their given order), at most [`HEATMAP_ROWS`].
pub fn heatmap_rows(entries: &Vec<(u32, u64)>, filter: &str) -> (rows: Vec<(u32, u64)>)
    ensures
        rows@ == first_rows(sort_desc(heat_kept(entries@, heat_filter(filter@))), HEATMAP_ROWS as int),
{
    let (lo, hi) = trim_bounds(filter);
    let mut trimmed = String::new();
    let mut c: usize = lo;
    while c < hi
        invariant
            lo <= c <= hi,
            hi <= filter@.len(),
            trimmed@ == filter@.subrange(lo as int, c as int),
        decreases hi - c,
    {
        push_char(&mut trimmed, filter.get_char(c));
        proof {
            assert(trimmed@ =~= filter@.subrange(lo as int, c + 1));
        }
        c += 1;
    }
    let f = to_lowercase(trimmed.as_str());
    let ghost fs = heat_filter(filter@);
    assert(f@ == fs);
    let ghost pred = |e: (u32, u64)| heat_shown(fs, e.0);
    let mut top: Vec<(u32, u64)> = Vec::new();
    let mut i: usize = 0;
    proof {
        assert(entries@.take(0).filter(pred) =~= Seq::<(u32, u64)>::empty()) by {
            reveal(Seq::filter);
        }
    }
    while i < entries.len()
        invariant
            i <= entries@.len(),
            f@ == fs,
            pred == (|e: (u32, u64)| heat_shown(fs, e.0)),
            top@ == first_rows(sort_desc(entries@.take(i as int).filter(pred)), 100),
            top@.len() <= 100,
        decreases entries@.len() - i,
    {
        let e = entries[i];
        let ghost kept0 = entries@.take(i as int).filter(pred);
        proof {
            reveal(Seq::filter);
            assert(entries@.take(i + 1).drop_last() =~= entries@.take(i as int));
            assert(entries@.take(i + 1).last() == e);
        }
        let shown = if f.as_str().unicode_len() == 0 {
            true
        } else {
            let mut h = String::new();
            proof {
                reveal_strlit("0");
            }
            push_padded(&mut h, e.0 as u64, 16, 6, "0");
            contains_folded(h.as_str(), f.as_str(), false)
        };
        assert(shown == pred(e));
        if shown {
            let ghost kept1 = kept0.push(e);
            assert(entries@.take(i + 1).filter(pred) == kept1);
            assert(kept1.drop_last() =~= kept0);
            let mut p: usize = 0;
            while p < top.len() && top[p].1 >= e.1
                invariant
                    p <= top@.len(),
                    forall|j: int| 0 <= j < p ==> top@[j].1 >= e.1,
                decreases top@.len() - p,
            {
                p += 1;
            }
            proof {
                lemma_ge_prefix_is(top@, e.1, p as int);
                lemma_insert_then_cut(sort_desc(kept0), e, 100);
                assert(sort_desc(kept1) == insert_desc(sort_desc(kept0), e));
            }
            let ghost t0 = top@;
            if p < HEATMAP_ROWS {
                top.insert(p, e);
                if top.len() > HEATMAP_ROWS {
                    top.pop();
                }
                proof {
                    assert(t0.insert(p as int, e) =~= insert_desc(t0, e));
                    assert(top@ =~= first_rows(insert_desc(t0, e), 100));
                }
            } else {
                proof {
                    assert(first_rows(insert_desc(t0, e), 100) =~= t0);
                }
            }
        }
        i += 1;
    }
    proof {
        assert(entries@.take(entries@.len() as int) =~= entries@);
    }
    top
}

/// Hottest first: no entry is followed by a hotter one.
pub open spec fn hottest_first(s: Seq<(u32, u64)>) -> bool {
    forall|i: int, j: int| 0 <= i < j < s.len() ==> s[i].1 >= s[j].1
}

proof fn lemma_insert_desc_keeps_order(s: Seq<(u32, u64)>, x: (u32, u64))
    requires
        hottest_first(s),
    ensures
        hottest_first(insert_desc(s, x)),
        insert_desc(s, x) == s.insert(ge_prefix(s, x.1) as int, x),
        insert_desc(s, x).to_multiset() == s.to_multiset().insert(x),
{
    let p = ge_prefix(s, x.1) as int;
    lemma_ge_prefix_bound(s, x.1);
    let r = insert_desc(s, x);
    assert(r =~= s.insert(p, x));
    assert forall|i: int, j: int| 0 <= i < j < r.len() implies r[i].1 >= r[j].1 by {
        if j < p {
            assert(r[i] == s[i] && r[j] == s[j]);
        } else if j == p {
            assert(r[i] == s[i]);
        } else if i < p {
            assert(r[i] == s[i] && r[j] == s[j - 1]);
        } else if i == p {
            assert(r[j] == s[j - 1]);
            if p < s.len() {
                assert(s[j - 1].1 <= s[p].1);
            }
        } else {
            assert(r[i] == s[i - 1] && r[j] == s[j - 1]);
        }
    }
    vstd::seq_lib::to_multiset_insert(s, p, x);
}

/// The heatmap table's order: its rows are the kept entries, every one of
/// them once, hottest first.
pub proof fn lemma_sort_desc_hottest_first(s: Seq<(u32, u64)>)
    ensures
        hottest_first(sort_desc(s)),
        sort_desc(s).to_multiset() == s.to_multiset(),
    decreases s.len(),
{
    if s.len() > 0 {
        lemma_sort_desc_hottest_first(s.drop_last());
        lemma_insert_desc_keeps_order(sort_desc(s.drop_last()), s.last());
        assert(s.drop_last().push(s.last()) =~= s);
        vstd::seq_lib::to_multiset_build(s.drop_last(), s.last());
    } else {
        assert(s.to_multiset() =~= sort_desc(s).to_multiset());
    }
}

} // verus!
