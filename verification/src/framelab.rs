//! The frame lab's table text: measured frame data per (character, move,
//! gap) cell, the startup column, and each cell's grid text, color and
//! hover text. Absent measurements show as a dash, never as zero;
//! disagreeing observables show as a warning, never as a picked winner.
use vstd::prelude::*;
use crate::debug_state::str_eq;
use crate::fmt::{dec, dec_signed, push_dec, push_dec_signed, push_str};
use crate::panels::opt_i64;
use crate::text::{join, join_strs, string_views, views};

verus! {

/// Sample counts below this are sparse: one run, no repeat check yet.
pub const SPARSE_SAMPLE_N: i64 = 2;

/// One cell's measured (collapsed) frame data.
pub struct FrameMeasurement {
    pub on_hit: Option<i64>,
    pub on_block: Option<i64>,
    pub knockdown: Option<bool>,
    pub first_active_frame: Option<i64>,
    pub damage: Option<i64>,
    pub hits: Option<i64>,
    pub wakeup_window: Option<i64>,
    pub total: Option<i64>,
    pub recovery: Option<i64>,
}

/// One observable's run behind a cell.
pub struct FrameObservation {
    pub observable: String,
    pub method: String,
    pub input_latency_frames: Option<i64>,
    pub sample_n: Option<i64>,
    pub confidence: Option<String>,
    pub measured_at: Option<String>,
    pub core_id: Option<String>,
    pub rom_id: Option<String>,
    pub rig_guard_state: Option<String>,
    pub raw: FrameMeasurement,
}

/// One (character, move, gap) cell: its collapsed measurement, the fields
/// its observables disagree on, the observable each one-sided field's value
/// is relative to, and the observations.
pub struct FrameCell {
    pub character: String,
    pub move_name: String,
    pub variant: Option<String>,
    pub gap_walk_frames: Option<i64>,
    pub measurement: FrameMeasurement,
    pub disagreements: Vec<String>,
    pub one_sided_reference: Vec<(String, String)>,
    pub observations: Vec<FrameObservation>,
}

/// A family/port's measured frame table.
pub struct FrameTable {
    pub family: String,
    pub port: String,
    pub generated_at: Option<String>,
    pub schema_version: Option<i64>,
    pub cells: Vec<FrameCell>,
}

/// The smallest sample count of the observations that report one.
pub open spec fn min_sample(obs: Seq<FrameObservation>) -> Option<i64>
    decreases obs.len(),
{
    if obs.len() == 0 {
        None
    } else {
        let rest = min_sample(obs.drop_last());
        match obs.last().sample_n {
            None => rest,
            Some(n) => match rest {
                None => Some(n),
                Some(m) => Some(if n < m { n } else { m }),
            },
        }
    }
}

impl FrameCell {
    /// The observables agree on every field.
    pub open spec fn agrees_spec(&self) -> bool {
        self.disagreements@.len() == 0
    }

    pub fn agrees(&self) -> (b: bool)
        ensures
            b == self.agrees_spec(),
    {
        self.disagreements.len() == 0
    }

    /// The smallest sample count behind the cell, if any observation has one.
    pub fn min_sample_n(&self) -> (m: Option<i64>)
        ensures
            m == min_sample(self.observations@),
    {
        let mut m: Option<i64> = None;
        let mut i: usize = 0;
        while i < self.observations.len()
            invariant
                i <= self.observations@.len(),
                m == min_sample(self.observations@.take(i as int)),
            decreases self.observations@.len() - i,
        {
            proof {
                assert(self.observations@.take(i + 1).drop_last() =~= self.observations@.take(i as int));
            }
            match self.observations[i].sample_n {
                None => {},
                Some(n) => {
                    m = match m {
                        None => Some(n),
                        Some(x) => Some(if n < x { n } else { x }),
                    };
                },
            }
            i += 1;
        }
        proof {
            assert(self.observations@.take(self.observations@.len() as int) =~= self.observations@);
        }
        m
    }
}

/// The first cell of `ch`'s move `mv` at gap `gap`.
pub open spec fn cell_index(cells: Seq<FrameCell>, ch: Seq<char>, mv: Seq<char>, gap: Option<i64>, from: int) -> Option<int>
    decreases cells.len() - from,
{
    if from < 0 || from >= cells.len() {
        None
    } else if cells[from].character@ == ch && cells[from].move_name@ == mv && cells[from].gap_walk_frames == gap {
        Some(from)
    } else {
        cell_index(cells, ch, mv, gap, from + 1)
    }
}

impl FrameTable {
    /// The cell of `ch`'s move `mv` at gap `gap`, if measured.
    pub fn cell<'a>(&'a self, ch: &str, mv: &str, gap: Option<i64>) -> (c: Option<&'a FrameCell>)
        ensures
            match cell_index(self.cells@, ch@, mv@, gap, 0) {
                Some(i) => c == Some(&self.cells@[i]),
                None => c is None,
            },
    {
        let mut i: usize = 0;
        while i < self.cells.len()
            invariant
                i <= self.cells@.len(),
                cell_index(self.cells@, ch@, mv@, gap, 0) == cell_index(self.cells@, ch@, mv@, gap, i as int),
            decreases self.cells@.len() - i,
        {
            let c = &self.cells[i];
            if str_eq(c.character.as_str(), ch) && str_eq(c.move_name.as_str(), mv) && c.gap_walk_frames == gap {
                return Some(c);
            }
            i += 1;
        }
        None
    }
}

/// The startup value a cell contributes to `ch`'s move `mv`, if any.
pub open spec fn faf_of(c: FrameCell, ch: Seq<char>, mv: Seq<char>) -> Option<i64> {
    if c.character@ == ch && c.move_name@ == mv { c.measurement.first_active_frame } else { None }
}

/// The Startup (first active frame) column for `ch`'s move `mv` over all
/// its cells: a dash when no cell measured it, the value when every cell
/// that did agrees, a warning when they differ.
pub fn startup_faf_text(table: &FrameTable, ch: &str, mv: &str) -> (s: String)
    ensures
        (forall|i: int| 0 <= i < table.cells@.len() ==> faf_of(#[trigger] table.cells@[i], ch@, mv@) is None) ==> s@
            == "\u{2014}"@,
        forall|i: int, v: i64|
            0 <= i < table.cells@.len() && faf_of(table.cells@[i], ch@, mv@) == Some(v) && (forall|j: int|
                0 <= j < table.cells@.len() && (#[trigger] faf_of(table.cells@[j], ch@, mv@)) is Some ==> faf_of(
                    table.cells@[j],
                    ch@,
                    mv@,
                ) == Some(v)) ==> s@ == dec_signed(v as int),
        (exists|i: int, j: int|
            0 <= i < table.cells@.len() && 0 <= j < table.cells@.len() && (#[trigger] faf_of(table.cells@[i], ch@, mv@)) is Some
                && (#[trigger] faf_of(table.cells@[j], ch@, mv@)) is Some && faf_of(table.cells@[i], ch@, mv@) != faf_of(
                table.cells@[j],
                ch@,
                mv@,
            )) ==> s@ == "\u{26a0}"@,
{
    let ghost cells = table.cells@;
    let mut first: Option<i64> = None;
    let mut first_at: usize = 0;
    let mut clash = false;
    let mut i: usize = 0;
    while i < table.cells.len()
        invariant
            cells == table.cells@,
            i <= cells.len(),
            first is None ==> forall|k: int| 0 <= k < i ==> faf_of(#[trigger] cells[k], ch@, mv@) is None,
            first matches Some(v) ==> first_at < i && faf_of(cells[first_at as int], ch@, mv@) == Some(v),
            !clash ==> (first matches Some(v) ==> forall|k: int| 0 <= k < i && (#[trigger] faf_of(cells[k], ch@, mv@)) is Some
                ==> faf_of(cells[k], ch@, mv@) == Some(v)),
            clash ==> exists|a: int, b: int|
                0 <= a < i && 0 <= b < i && (#[trigger] faf_of(cells[a], ch@, mv@)) is Some && (#[trigger] faf_of(
                    cells[b],
                    ch@,
                    mv@,
                )) is Some && faf_of(cells[a], ch@, mv@) != faf_of(cells[b], ch@, mv@),
        decreases cells.len() - i,
    {
        let c = &table.cells[i];
        if str_eq(c.character.as_str(), ch) && str_eq(c.move_name.as_str(), mv) {
            if let Some(v) = c.measurement.first_active_frame {
                match first {
                    None => {
                        first = Some(v);
                        first_at = i;
                    },
                    Some(w) => {
                        if w != v {
                            proof {
                                assert(faf_of(cells[first_at as int], ch@, mv@) != faf_of(cells[i as int], ch@, mv@));
                            }
                            clash = true;
                        }
                    },
                }
            }
        }
        i += 1;
    }
    let mut s = String::new();
    if clash {
        push_str(&mut s, "\u{26a0}");
    } else {
        match first {
            None => push_str(&mut s, "\u{2014}"),
            Some(v) => push_dec_signed(&mut s, v),
        }
    }
    proof {
        if !clash {
            if let Some(v) = first {
                assert forall|a: int, b: int|
                    0 <= a < cells.len() && 0 <= b < cells.len() && (#[trigger] faf_of(cells[a], ch@, mv@)) is Some && (#[trigger] faf_of(
                        cells[b],
                        ch@,
                        mv@,
                    )) is Some implies faf_of(cells[a], ch@, mv@) == faf_of(cells[b], ch@, mv@) by {}
            }
        }
    }
    s
}

/// A signed value with its sign always shown (`{:+}`).
pub open spec fn plus_signed(v: int) -> Seq<char> {
    if v >= 0 { seq!['+'] + dec(v as nat) } else { dec_signed(v) }
}

fn push_plus_signed(s: &mut String, v: i64)
    ensures
        final(s)@ == old(s)@ + plus_signed(v as int),
{
    if v >= 0 {
        push_str(s, "+");
        push_dec(s, v as u64);
        proof {
            reveal_strlit("+");
        }
    } else {
        push_dec_signed(s, v);
    }
}

/// Whether the observables disagree on `field`.
pub open spec fn disagrees_on(ds: Seq<String>, field: Seq<char>) -> bool {
    exists|i: int| 0 <= i < ds.len() && (#[trigger] ds[i])@ == field
}

fn has_disagreement(ds: &Vec<String>, field: &str) -> (b: bool)
    ensures
        b == disagrees_on(ds@, field@),
{
    let mut i: usize = 0;
    while i < ds.len()
        invariant
            i <= ds@.len(),
            forall|k: int| 0 <= k < i ==> (#[trigger] ds@[k])@ != field@,
        decreases ds@.len() - i,
    {
        if str_eq(ds[i].as_str(), field) {
            return true;
        }
        i += 1;
    }
    false
}

/// A cell's grid text: on-hit, a slash, on-block. A knockdown shows `KD`
/// for on-hit (never a number); a disagreed field shows a warning; an
/// absent one a dash.
pub open spec fn cell_text(c: FrameCell) -> Seq<char> {
    let hit = if c.measurement.knockdown == Some(true) {
        "KD"@
    } else if disagrees_on(c.disagreements@, "on_hit"@) {
        "\u{26a0}"@
    } else {
        match c.measurement.on_hit {
            Some(v) => plus_signed(v as int),
            None => "\u{2014}"@,
        }
    };
    let block = if disagrees_on(c.disagreements@, "on_block"@) {
        "\u{26a0}"@
    } else {
        match c.measurement.on_block {
            Some(v) => plus_signed(v as int),
            None => "\u{2014}"@,
        }
    };
    hit + seq!['/'] + block
}

/// A cell's grid color: red when its observables disagree, amber when its
/// sample is sparse (or unknown), green otherwise.
pub open spec fn cell_color(c: FrameCell) -> (u8, u8, u8) {
    let sparse = match min_sample(c.observations@) {
        Some(n) => n < SPARSE_SAMPLE_N,
        None => true,
    };
    if !c.agrees_spec() {
        (220, 90, 90)
    } else if sparse {
        (230, 180, 90)
    } else {
        (150, 220, 150)
    }
}

/// A grid cell's text and color; a missing cell is a gray dot.
pub fn cell_style(cell: Option<&FrameCell>) -> (r: (String, (u8, u8, u8)))
    ensures
        match cell {
            None => r.0@ == "\u{b7}"@ && r.1 == (96u8, 96u8, 96u8),
            Some(c) => r.0@ == cell_text(*c) && r.1 == cell_color(*c),
        },
{
    proof {
        reveal_strlit("KD");
        reveal_strlit("on_hit");
        reveal_strlit("on_block");
        reveal_strlit("/");
    }
    let c = match cell {
        None => {
            let mut s = String::new();
            push_str(&mut s, "\u{b7}");
            return (s, (96, 96, 96));
        },
        Some(c) => c,
    };
    let mut s = String::new();
    if c.measurement.knockdown == Some(true) {
        push_str(&mut s, "KD");
    } else if has_disagreement(&c.disagreements, "on_hit") {
        push_str(&mut s, "\u{26a0}");
    } else {
        match c.measurement.on_hit {
            Some(v) => push_plus_signed(&mut s, v),
            None => push_str(&mut s, "\u{2014}"),
        }
    }
    push_str(&mut s, "/");
    if has_disagreement(&c.disagreements, "on_block") {
        push_str(&mut s, "\u{26a0}");
    } else {
        match c.measurement.on_block {
            Some(v) => push_plus_signed(&mut s, v),
            None => push_str(&mut s, "\u{2014}"),
        }
    }
    assert(s@ =~= cell_text(*c));
    let sparse = match c.min_sample_n() {
        Some(n) => n < SPARSE_SAMPLE_N,
        None => true,
    };
    let color: (u8, u8, u8) = if !c.agrees() {
        (220, 90, 90)
    } else if sparse {
        (230, 180, 90)
    } else {
        (150, 220, 150)
    };
    (s, color)
}

/// The observable a one-sided field's value is relative to, if recorded.
pub open spec fn reference_of(refs: Seq<(String, String)>, field: Seq<char>) -> Option<Seq<char>>
    decreases refs.len(),
{
    if refs.len() == 0 {
        None
    } else if refs[0].0@ == field {
        Some(refs[0].1@)
    } else {
        reference_of(refs.drop_first(), field)
    }
}

fn find_reference<'a>(refs: &'a Vec<(String, String)>, field: &str) -> (r: Option<&'a String>)
    ensures
        match r {
            Some(o) => reference_of(refs@, field@) == Some(o@),
            None => reference_of(refs@, field@) is None,
        },
{
    let mut i: usize = 0;
    proof {
        assert(refs@.skip(0) =~= refs@);
    }
    while i < refs.len()
        invariant
            i <= refs@.len(),
            reference_of(refs@, field@) == reference_of(refs@.skip(i as int), field@),
        decreases refs@.len() - i,
    {
        proof {
            assert(refs@.skip(i as int)[0] == refs@[i as int]);
            assert(refs@.skip(i as int).drop_first() =~= refs@.skip(i + 1));
        }
        if str_eq(refs[i].0.as_str(), field) {
            return Some(&refs[i].1);
        }
        i += 1;
    }
    proof {
        assert(refs@.skip(i as int).len() == 0);
    }
    None
}

/// A measured one-sided field's hover line, naming its reference
/// observable when one is recorded.
pub open spec fn one_sided_line(field: Seq<char>, v: i64, refs: Seq<(String, String)>) -> Seq<char> {
    field + ": "@ + dec_signed(v as int) + match reference_of(refs, field) {
        Some(o) => " ("@ + o + "'s frame of reference)"@,
        None => Seq::empty(),
    }
}

/// The text of an optional value: the value, or a dash.
pub open spec fn opt_text(v: Option<i64>) -> Seq<char> {
    match v {
        Some(x) => dec_signed(x as int),
        None => "\u{2014}"@,
    }
}

/// The hover lines of a measured cell.
pub open spec fn hover_lines(c: FrameCell) -> Seq<Seq<char>> {
    let base = seq![
        "variant: "@ + match c.variant { Some(v) => v@, None => "\u{2014}"@ },
        "first_active_frame: "@ + opt_text(c.measurement.first_active_frame),
        "damage: "@ + opt_text(c.measurement.damage),
        "hits: "@ + opt_text(c.measurement.hits),
        "min sample_n: "@ + opt_text(min_sample(c.observations@)),
    ];
    let w = match c.measurement.wakeup_window {
        Some(v) => base.push(one_sided_line("wakeup_window"@, v, c.one_sided_reference@)),
        None => base,
    };
    let t = match c.measurement.total {
        Some(v) => w.push(one_sided_line("total"@, v, c.one_sided_reference@)),
        None => w,
    };
    let r = match c.measurement.recovery {
        Some(v) => t.push(one_sided_line("recovery"@, v, c.one_sided_reference@)),
        None => t,
    };
    if c.agrees_spec() {
        r
    } else {
        r.push("\u{26a0} disagreement: "@ + join(c.disagreements@.map_values(|d: String| d@), ", "@))
    }
}

fn push_one_sided(lines: &mut Vec<String>, field: &str, value: Option<i64>, refs: &Vec<(String, String)>)
    ensures
        final(lines)@.len() == old(lines)@.len() + (if value is Some { 1int } else { 0 }),
        forall|k: int| 0 <= k < old(lines)@.len() ==> final(lines)@[k] == old(lines)@[k],
        value matches Some(v) ==> final(lines)@.last()@ == one_sided_line(field@, v, refs@),
{
    if let Some(v) = value {
        let mut l = String::new();
        push_str(&mut l, field);
        push_str(&mut l, ": ");
        push_dec_signed(&mut l, v);
        match find_reference(refs, field) {
            Some(o) => {
                push_str(&mut l, " (");
                push_str(&mut l, o.as_str());
                push_str(&mut l, "'s frame of reference)");
            },
            None => {},
        }
        assert(l@ =~= one_sided_line(field@, v, refs@));
        lines.push(l);
    }
}

fn labeled(label: &str, value: Option<i64>) -> (s: String)
    ensures
        s@ == label@ + opt_text(value),
{
    let mut s = String::new();
    push_str(&mut s, label);
    let v = opt_i64(value);
    push_str(&mut s, v.as_str());
    s
}

/// The hover text of a grid cell: for a missing cell, how to measure it;
/// for a measured one, its lines joined by newlines.
pub fn cell_hover_text(cell: Option<&FrameCell>) -> (s: String)
    ensures
        match cell {
            None => s@ == "not measured \u{2014} click for the command to measure it"@,
            Some(c) => s@ == join(hover_lines(*c), seq!['\n']),
        },
{
    let c = match cell {
        None => {
            let mut s = String::new();
            push_str(&mut s, "not measured \u{2014} click for the command to measure it");
            return s;
        },
        Some(c) => c,
    };
    let mut lines: Vec<String> = Vec::new();
    let mut v = String::new();
    push_str(&mut v, "variant: ");
    match &c.variant {
        Some(x) => push_str(&mut v, x.as_str()),
        None => push_str(&mut v, "\u{2014}"),
    }
    lines.push(v);
    lines.push(labeled("first_active_frame: ", c.measurement.first_active_frame));
    lines.push(labeled("damage: ", c.measurement.damage));
    lines.push(labeled("hits: ", c.measurement.hits));
    lines.push(labeled("min sample_n: ", c.min_sample_n()));
    proof {
        reveal_strlit("wakeup_window");
        reveal_strlit("total");
        reveal_strlit("recovery");
    }
    let ghost l0 = lines@;
    push_one_sided(&mut lines, "wakeup_window", c.measurement.wakeup_window, &c.one_sided_reference);
    let ghost l1 = lines@;
    push_one_sided(&mut lines, "total", c.measurement.total, &c.one_sided_reference);
    let ghost l2 = lines@;
    push_one_sided(&mut lines, "recovery", c.measurement.recovery, &c.one_sided_reference);
    let ghost l3 = lines@;
    if !c.agrees() {
        let mut parts: Vec<&str> = Vec::new();
        let mut i: usize = 0;
        while i < c.disagreements.len()
            invariant
                i <= c.disagreements@.len(),
                parts@.len() == i,
                views(parts@) == c.disagreements@.map_values(|d: String| d@).take(i as int),
            decreases c.disagreements@.len() - i,
        {
            let ghost old_parts = parts@;
            parts.push(c.disagreements[i].as_str());
            proof {
                assert forall|j: int| 0 <= j < i + 1 implies views(parts@)[j] == c.disagreements@.map_values(
                    |d: String| d@,
                ).take(i + 1)[j] by {
                    if j < i {
                        assert(parts@[j] == old_parts[j]);
                        assert(views(old_parts)[j] == c.disagreements@.map_values(|d: String| d@).take(i as int)[j]);
                    }
                }
                assert(views(parts@) =~= c.disagreements@.map_values(|d: String| d@).take(i + 1));
            }
            i += 1;
        }
        proof {
            assert(c.disagreements@.map_values(|d: String| d@).take(c.disagreements@.len() as int) =~= c.disagreements@.map_values(
                |d: String| d@,
            ));
        }
        let joined = join_strs(&parts, ", ");
        let mut d = String::new();
        push_str(&mut d, "\u{26a0} disagreement: ");
        push_str(&mut d, joined.as_str());
        lines.push(d);
    }
    proof {
        reveal_strlit(", ");
        let want = hover_lines(*c);
        assert(string_views(lines@) =~= want) by {
            assert(l0.len() == 5);
        }
    }
    let mut parts: Vec<&str> = Vec::new();
    let mut k: usize = 0;
    while k < lines.len()
        invariant
            k <= lines@.len(),
            parts@.len() == k,
            views(parts@) == string_views(lines@).take(k as int),
        decreases lines@.len() - k,
    {
        let ghost old_parts = parts@;
        parts.push(lines[k].as_str());
        proof {
            assert forall|j: int| 0 <= j < k + 1 implies views(parts@)[j] == string_views(lines@).take(k + 1)[j] by {
                if j < k {
                    assert(parts@[j] == old_parts[j]);
                    assert(views(old_parts)[j] == string_views(lines@).take(k as int)[j]);
                }
            }
            assert(views(parts@) =~= string_views(lines@).take(k + 1));
        }
        k += 1;
    }
    proof {
        assert(string_views(lines@).take(lines@.len() as int) =~= string_views(lines@));
        reveal_strlit("\n");
    }
    let out = join_strs(&parts, "\n");
    proof {
        assert("\n"@ =~= seq!['\n']);
    }
    out
}



// ── captions, the safety readout and the command handoff ────────────────

pub open spec fn opt_or(v: Option<String>, dflt: Seq<char>) -> Seq<char> {
    match v {
        Some(s) => s@,
        None => dflt,
    }
}

/// The caption under the character picker: family, port, generation time
/// and schema version (`unknown` and `?` when absent).
pub open spec fn table_caption_spec(t: FrameTable) -> Seq<char> {
    t.family@ + " \u{b7} "@ + t.port@ + " \u{b7} generated "@ + opt_or(t.generated_at, "unknown"@) + " \u{b7} schema v"@
        + match t.schema_version {
        Some(v) => dec_signed(v as int),
        None => "?"@,
    }
}

pub fn table_caption(t: &FrameTable) -> (s: String)
    ensures
        s@ == table_caption_spec(*t),
{
    let mut s = String::new();
    push_str(&mut s, t.family.as_str());
    push_str(&mut s, " \u{b7} ");
    push_str(&mut s, t.port.as_str());
    push_str(&mut s, " \u{b7} generated ");
    match &t.generated_at {
        Some(g) => push_str(&mut s, g.as_str()),
        None => push_str(&mut s, "unknown"),
    }
    push_str(&mut s, " \u{b7} schema v");
    match t.schema_version {
        Some(v) => push_dec_signed(&mut s, v),
        None => push_str(&mut s, "?"),
    }
    assert(s@ =~= table_caption_spec(*t));
    s
}

/// The gap's name in an arena path: its walk-frames, or `K`.
pub open spec fn gap_part(gap: Option<i64>) -> Seq<char> {
    match gap {
        Some(g) => dec_signed(g as int),
        None => "K"@,
    }
}

/// Where the arena for measuring at `gap` is expected.
pub open spec fn arena_path_spec(family: Seq<char>, gap: Option<i64>) -> Seq<char> {
    "shadow/arenas/"@ + family + "/gap-"@ + gap_part(gap) + ".state"@
}

pub fn arena_path(family: &str, gap: Option<i64>) -> (s: String)
    ensures
        s@ == arena_path_spec(family@, gap),
{
    let mut s = String::new();
    push_str(&mut s, "shadow/arenas/");
    push_str(&mut s, family);
    push_str(&mut s, "/gap-");
    match gap {
        Some(g) => push_dec_signed(&mut s, g),
        None => push_str(&mut s, "K"),
    }
    push_str(&mut s, ".state");
    assert(s@ =~= arena_path_spec(family@, gap));
    s
}

/// The command that measures `ch`'s move `mv` at `gap` from its arena.
pub open spec fn measure_command_spec(family: Seq<char>, ch: Seq<char>, mv: Seq<char>, gap: Option<i64>) -> Seq<char> {
    "python -m shadow_train.framelab.kit --game library/"@ + family
        + " --core <path-to-core> --rom <path-to-rom> --db shadow/framelab/frames.db --char "@ + ch + " --cell "@ + mv
        + ":"@ + arena_path_spec(family, gap)
}

pub fn measure_command(family: &str, ch: &str, mv: &str, gap: Option<i64>) -> (s: String)
    ensures
        s@ == measure_command_spec(family@, ch@, mv@, gap),
{
    let mut s = String::new();
    push_str(&mut s, "python -m shadow_train.framelab.kit --game library/");
    push_str(&mut s, family);
    push_str(&mut s, " --core <path-to-core> --rom <path-to-rom> --db shadow/framelab/frames.db --char ");
    push_str(&mut s, ch);
    push_str(&mut s, " --cell ");
    push_str(&mut s, mv);
    push_str(&mut s, ":");
    let arena = arena_path(family, gap);
    push_str(&mut s, arena.as_str());
    assert(s@ =~= measure_command_spec(family@, ch@, mv@, gap));
    s
}

pub open spec fn gap_label_spec(gap: Option<i64>) -> Seq<char> {
    match gap {
        Some(g) => dec_signed(g as int) + "f gap"@,
        None => "unstated gap"@,
    }
}

/// The handoff heading for a clicked cell: measured or not.
pub open spec fn handoff_heading_spec(mv: Seq<char>, gap: Option<i64>, measured: bool) -> Seq<char> {
    mv + " @ "@ + gap_label_spec(gap) + if measured { " \u{2014} already measured:"@ } else { " is not measured."@ }
}

pub fn handoff_heading(mv: &str, gap: Option<i64>, measured: bool) -> (s: String)
    ensures
        s@ == handoff_heading_spec(mv@, gap, measured),
{
    let mut s = String::new();
    push_str(&mut s, mv);
    push_str(&mut s, " @ ");
    let g = crate::panels::gap_label(gap);
    push_str(&mut s, g.as_str());
    if measured {
        push_str(&mut s, " \u{2014} already measured:");
    } else {
        push_str(&mut s, " is not measured.");
    }
    assert(s@ =~= handoff_heading_spec(mv@, gap, measured));
    s
}

/// The warning for a cell whose observables disagree, naming the fields.
pub fn disagreement_line(c: &FrameCell) -> (r: Option<String>)
    ensures
        match r {
            Some(s) => !c.agrees_spec() && s@ == "\u{26a0} observables disagreed on: "@ + join(
                string_views(c.disagreements@),
                ", "@,
            ),
            None => c.agrees_spec(),
        },
{
    if c.agrees() {
        return None;
    }
    let mut s = String::new();
    push_str(&mut s, "\u{26a0} observables disagreed on: ");
    let joined = crate::text::join_strings(&c.disagreements, ", ");
    push_str(&mut s, joined.as_str());
    Some(s)
}

/// The note for a one-sided field: whose frame of reference its value is in.
pub open spec fn one_sided_note_spec(field: Seq<char>, reference: Seq<char>) -> Seq<char> {
    field + " is one-sided: collapsed value is in "@ + reference
        + "'s frame of reference (docs/frames.md \u{a7}4.2) \u{2014} the other observable's raw reading legitimately differs by its own input_latency_frames."@
}

pub fn one_sided_note(field: &str, reference: &str) -> (s: String)
    ensures
        s@ == one_sided_note_spec(field@, reference@),
{
    let mut s = String::new();
    push_str(&mut s, field);
    push_str(&mut s, " is one-sided: collapsed value is in ");
    push_str(&mut s, reference);
    push_str(
        &mut s,
        "'s frame of reference (docs/frames.md \u{a7}4.2) \u{2014} the other observable's raw reading legitimately differs by its own input_latency_frames.",
    );
    assert(s@ =~= one_sided_note_spec(field@, reference@));
    s
}

/// One observation's row in the handoff grid: observable, method,
/// latency, sample size, confidence and measurement time (dashes for
/// absent values).
pub open spec fn observation_row_spec(o: FrameObservation) -> Seq<Seq<char>> {
    seq![
        o.observable@,
        o.method@,
        match o.input_latency_frames { Some(x) => dec_signed(x as int), None => "\u{2014}"@ },
        match o.sample_n { Some(x) => dec_signed(x as int), None => "\u{2014}"@ },
        opt_or(o.confidence, "\u{2014}"@),
        opt_or(o.measured_at, "\u{2014}"@),
    ]
}

pub fn observation_row(o: &FrameObservation) -> (r: Vec<String>)
    ensures
        string_views(r@) == observation_row_spec(*o),
{
    let mut r: Vec<String> = Vec::new();
    r.push(crate::debug_state::clone_string(&o.observable));
    r.push(crate::debug_state::clone_string(&o.method));
    r.push(opt_i64(o.input_latency_frames));
    r.push(opt_i64(o.sample_n));
    let mut conf = String::new();
    match &o.confidence {
        Some(c) => push_str(&mut conf, c.as_str()),
        None => push_str(&mut conf, "\u{2014}"),
    }
    r.push(conf);
    let mut at = String::new();
    match &o.measured_at {
        Some(m) => push_str(&mut at, m.as_str()),
        None => push_str(&mut at, "\u{2014}"),
    }
    r.push(at);
    assert(string_views(r@) =~= observation_row_spec(*o));
    r
}

/// A safety readout line for a cell with an on-block value: the move, its
/// gap and the signed on-block advantage.
pub open spec fn safety_line_spec(most_unsafe: bool, c: FrameCell) -> Seq<char> {
    (if most_unsafe { "Most unsafe on block: "@ } else { "Safest on block: "@ }) + c.move_name@ + " @ "@ + gap_label_spec(
        c.gap_walk_frames,
    ) + " ("@ + plus_signed(c.measurement.on_block->0 as int) + ")"@
}

pub fn safety_line(most_unsafe: bool, c: &FrameCell) -> (s: String)
    requires
        c.measurement.on_block is Some,
    ensures
        s@ == safety_line_spec(most_unsafe, *c),
{
    let mut s = String::new();
    if most_unsafe {
        push_str(&mut s, "Most unsafe on block: ");
    } else {
        push_str(&mut s, "Safest on block: ");
    }
    push_str(&mut s, c.move_name.as_str());
    push_str(&mut s, " @ ");
    let g = crate::panels::gap_label(c.gap_walk_frames);
    push_str(&mut s, g.as_str());
    push_str(&mut s, " (");
    match c.measurement.on_block {
        Some(v) => push_plus_signed(&mut s, v),
        None => {},
    }
    push_str(&mut s, ")");
    assert(s@ =~= safety_line_spec(most_unsafe, *c));
    s
}

} // verus!
