//! Control bindings: which chord of buttons each physical control emits,
//! found in reverse by action (a control is bound to an action when its
//! chord equals the action's buttons as a set), and rebound with replace
//! semantics.
use vstd::prelude::*;
use crate::panels::{chord_mask, chord_mask_spec, CaptureTarget, ControlsPanel, DeviceKind};
use crate::input_log::RETRO_NAMES;
use crate::text::{join, join_strs, string_views, views};
use crate::fmt::push_str;
use crate::debug_state::str_eq;

verus! {

/// A chord names buttons by their libretro joypad index.
pub open spec fn chord_ok(c: Seq<u8>) -> bool {
    forall|i: int| 0 <= i < c.len() ==> c[i] < 12
}

/// The (control, chord) pairs of a map, as values.
pub open spec fn pairs_view(e: Seq<(u32, Vec<u8>)>) -> Seq<(u32, Seq<u8>)> {
    e.map_values(|p: (u32, Vec<u8>)| (p.0, p.1@))
}

/// Controls strictly ascending (so each occurs once), every chord well formed.
pub open spec fn bindings_wf(s: Seq<(u32, Seq<u8>)>) -> bool {
    &&& forall|i: int, j: int| 0 <= i < j < s.len() ==> s[i].0 < s[j].0
    &&& forall|i: int| 0 <= i < s.len() ==> chord_ok(#[trigger] s[i].1)
}

/// The chord bound to `control`, if any.
pub open spec fn lookup(s: Seq<(u32, Seq<u8>)>, control: u32) -> Option<Seq<u8>>
    decreases s.len(),
{
    if s.len() == 0 {
        None
    } else if s.last().0 == control {
        Some(s.last().1)
    } else {
        lookup(s.drop_last(), control)
    }
}

/// The controls, in map order, whose chord has mask `want`, leaving out
/// `except`.
pub open spec fn bound_to(s: Seq<(u32, Seq<u8>)>, want: u16, except: Option<u32>) -> Seq<u32>
    decreases s.len(),
{
    if s.len() == 0 {
        Seq::empty()
    } else {
        let rest = bound_to(s.drop_last(), want, except);
        if chord_mask_spec(s.last().1) == want && except != Some(s.last().0) {
            rest.push(s.last().0)
        } else {
            rest
        }
    }
}

/// Whether a rebuild drops a chord: it has the mask being replaced.
pub open spec fn drops(want: Option<u16>, c: Seq<u8>) -> bool {
    want matches Some(w) && chord_mask_spec(c) == w
}

/// What `control` maps to once `control` is bound to `chord` and every
/// other control whose chord `drops` is unbound.
pub open spec fn rebuilt(s: Seq<(u32, Seq<u8>)>, control: u32, chord: Seq<u8>, want: Option<u16>, x: u32) -> Option<Seq<u8>> {
    if x == control {
        Some(chord)
    } else {
        match lookup(s, x) {
            Some(c) => if drops(want, c) { None } else { Some(c) },
            None => None,
        }
    }
}

proof fn lemma_pairs_push(e: Seq<(u32, Vec<u8>)>, p: (u32, Vec<u8>))
    ensures
        pairs_view(e.push(p)) == pairs_view(e).push((p.0, p.1@)),
{
    assert(pairs_view(e.push(p)) =~= pairs_view(e).push((p.0, p.1@)));
}

proof fn lemma_lookup_push(s: Seq<(u32, Seq<u8>)>, e: (u32, Seq<u8>), x: u32)
    ensures
        lookup(s.push(e), x) == if x == e.0 { Some(e.1) } else { lookup(s, x) },
{
    assert(s.push(e).drop_last() =~= s);
}

/// Lookup ignores a tail none of whose controls is `x`.
proof fn lemma_lookup_tail(s: Seq<(u32, Seq<u8>)>, m: int, x: u32)
    requires
        0 <= m <= s.len(),
        forall|j: int| m <= j < s.len() ==> s[j].0 != x,
    ensures
        lookup(s, x) == lookup(s.take(m), x),
    decreases s.len(),
{
    if s.len() == m {
        assert(s.take(m) =~= s);
    } else {
        assert(s.drop_last().take(m) =~= s.take(m));
        lemma_lookup_tail(s.drop_last(), m, x);
    }
}

/// In a well-formed map, each listed control looks up its own chord.
pub proof fn lemma_lookup_at(s: Seq<(u32, Seq<u8>)>, j: int)
    requires
        bindings_wf(s),
        0 <= j < s.len(),
    ensures
        lookup(s, s[j].0) == Some(s[j].1),
{
    lemma_lookup_tail(s, j + 1, s[j].0);
    assert(s.take(j + 1).last() == s[j]);
}

/// A control listed nowhere looks up nothing.
proof fn lemma_lookup_absent(s: Seq<(u32, Seq<u8>)>, x: u32)
    requires
        forall|j: int| 0 <= j < s.len() ==> s[j].0 != x,
    ensures
        lookup(s, x) is None,
    decreases s.len(),
{
    if s.len() > 0 {
        lemma_lookup_absent(s.drop_last(), x);
    }
}

/// A control that looks up a chord is listed.
proof fn lemma_lookup_listed(s: Seq<(u32, Seq<u8>)>, x: u32) -> (j: int)
    requires
        lookup(s, x) is Some,
    ensures
        0 <= j < s.len(),
        s[j].0 == x,
        lookup(s, x) == Some(s[j].1),
    decreases s.len(),
{
    if s.last().0 == x {
        s.len() - 1
    } else {
        let j = lemma_lookup_listed(s.drop_last(), x);
        j
    }
}

/// A binding map: (control code, chord) pairs in ascending control order.
pub struct BindingMap {
    pub entries: Vec<(u32, Vec<u8>)>,
}

impl BindingMap {
    pub open spec fn pairs(&self) -> Seq<(u32, Seq<u8>)> {
        pairs_view(self.entries@)
    }

    pub open spec fn wf(&self) -> bool {
        bindings_wf(self.pairs())
    }

    /// A map with no bindings.
    pub fn new() -> (m: Self)
        ensures
            m.wf(),
            m.pairs().len() == 0,
    {
        BindingMap { entries: Vec::new() }
    }

    /// The chord `control` emits, if it is bound.
    pub fn get(&self, control: u32) -> (c: Option<Vec<u8>>)
        requires
            self.wf(),
        ensures
            match c {
                Some(v) => lookup(self.pairs(), control) == Some(v@),
                None => lookup(self.pairs(), control) is None,
            },
    {
        let ghost s = self.pairs();
        let mut i: usize = 0;
        while i < self.entries.len()
            invariant
                s == self.pairs(),
                bindings_wf(s),
                i <= s.len(),
                s.len() == self.entries@.len(),
                forall|j: int| 0 <= j < i ==> s[j].0 != control,
            decreases s.len() - i,
        {
            if self.entries[i].0 == control {
                proof {
                    lemma_lookup_at(s, i as int);
                }
                return Some(vstd::slice::slice_to_vec(self.entries[i].1.as_slice()));
            }
            i += 1;
        }
        proof {
            lemma_lookup_absent(s, control);
        }
        None
    }

    /// Bind `control` to `chord`, returning the chord it had.
    pub fn insert(&mut self, control: u32, chord: Vec<u8>) -> (prev: Option<Vec<u8>>)
        requires
            old(self).wf(),
            chord_ok(chord@),
        ensures
            final(self).wf(),
            forall|x: u32| lookup(final(self).pairs(), x) == if x == control { Some(chord@) } else { lookup(old(self).pairs(), x) },
            match prev {
                Some(v) => lookup(old(self).pairs(), control) == Some(v@),
                None => lookup(old(self).pairs(), control) is None,
            },
    {
        let (entries, _replaced, prev) = rebuild(&self.entries, control, chord, None);
        self.entries = entries;
        proof {
            assert forall|x: u32| lookup(self.pairs(), x) == if x == control { Some(chord@) } else { lookup(old(self).pairs(), x) } by {
                assert(rebuilt(old(self).pairs(), control, chord@, None, x) == lookup(self.pairs(), x));
            }
        }
        prev
    }

    /// Unbind `control`, returning the chord it had.
    pub fn remove(&mut self, control: u32) -> (prev: Option<Vec<u8>>)
        requires
            old(self).wf(),
        ensures
            final(self).wf(),
            forall|x: u32| lookup(final(self).pairs(), x) == if x == control { None } else { lookup(old(self).pairs(), x) },
            match prev {
                Some(v) => lookup(old(self).pairs(), control) == Some(v@),
                None => lookup(old(self).pairs(), control) is None,
            },
    {
        let ghost s = self.pairs();
        let mut i: usize = 0;
        while i < self.entries.len()
            invariant
                s == old(self).pairs(),
                s == self.pairs(),
                bindings_wf(s),
                i <= s.len(),
                s.len() == self.entries@.len(),
                forall|j: int| 0 <= j < i ==> s[j].0 != control,
            decreases s.len() - i,
        {
            if self.entries[i].0 == control {
                proof {
                    lemma_lookup_at(s, i as int);
                }
                let (_k, c) = self.entries.remove(i);
                let ghost t = self.pairs();
                proof {
                    assert(t =~= s.take(i as int) + s.skip(i + 1));
                    assert forall|x: u32| lookup(t, x) == if x == control { None } else { lookup(s, x) } by {
                        if x == control {
                            assert forall|j: int| 0 <= j < t.len() implies t[j].0 != x by {
                                if j >= i {
                                    assert(t[j] == s[j + 1]);
                                }
                            }
                            lemma_lookup_absent(t, x);
                        } else {
                            if lookup(s, x) is Some {
                                let j = lemma_lookup_listed(s, x);
                                let jj = if j < i { j } else { j - 1 };
                                assert(t[jj] == s[j]);
                                lemma_lookup_at(t, jj);
                            } else {
                                if lookup(t, x) is Some {
                                    let jj = lemma_lookup_listed(t, x);
                                    let j = if jj < i { jj } else { jj + 1 };
                                    assert(s[j] == t[jj]);
                                    lemma_lookup_at(s, j);
                                }
                            }
                        }
                    }
                }
                return Some(c);
            }
            i += 1;
        }
        proof {
            lemma_lookup_absent(s, control);
        }
        None
    }
}

/// Rebuild a map so that `control` is bound to `chord` and, when `want` is
/// given, every other control whose chord has mask `want` is unbound;
/// returns the new pairs, the unbound controls in order, and the chord
/// `control` had.
fn rebuild(entries: &Vec<(u32, Vec<u8>)>, control: u32, chord: Vec<u8>, want: Option<u16>) -> (r: (
    Vec<(u32, Vec<u8>)>,
    Vec<u32>,
    Option<Vec<u8>>,
))
    requires
        bindings_wf(pairs_view(entries@)),
        chord_ok(chord@),
    ensures
        bindings_wf(pairs_view(r.0@)),
        forall|x: u32| lookup(pairs_view(r.0@), x) == rebuilt(pairs_view(entries@), control, chord@, want, x),
        want matches Some(w) ==> r.1@ == bound_to(pairs_view(entries@), w, Some(control)),
        want is None ==> r.1@.len() == 0,
        match r.2 {
            Some(v) => lookup(pairs_view(entries@), control) == Some(v@),
            None => lookup(pairs_view(entries@), control) is None,
        },
{
    let ghost s = pairs_view(entries@);
    let w: u16 = match want { Some(v) => v, None => 0 };
    let mut out: Vec<(u32, Vec<u8>)> = Vec::new();
    let mut replaced: Vec<u32> = Vec::new();
    let mut prev: Option<Vec<u8>> = None;
    let mut placed = false;
    let mut i: usize = 0;
    let n = entries.len();
    while i < n
        invariant
            n == entries@.len(),
            s == pairs_view(entries@),
            s.len() == n,
            bindings_wf(s),
            chord_ok(chord@),
            want matches Some(ww) ==> ww == w,
            i <= n,
            bindings_wf(pairs_view(out@)),
            i < n ==> forall|j: int| 0 <= j < out@.len() ==> out@[j].0 < s[i as int].0,
            !placed ==> forall|j: int| 0 <= j < out@.len() ==> out@[j].0 < control,
            placed == (i > 0 && control <= s[i - 1].0),
            forall|x: u32| lookup(pairs_view(out@), x) == if x == control {
                if placed { Some(chord@) } else { None }
            } else {
                match lookup(s.take(i as int), x) {
                    Some(c) => if drops(want, c) { None } else { Some(c) },
                    None => None,
                }
            },
            want is Some ==> replaced@ == bound_to(s.take(i as int), w, Some(control)),
            want is None ==> replaced@.len() == 0,
            match prev {
                Some(v) => lookup(s.take(i as int), control) == Some(v@),
                None => lookup(s.take(i as int), control) is None,
            },
        decreases n - i,
    {
        let k = entries[i].0;
        let ghost before = pairs_view(out@);
        let ghost placed0 = placed;
        proof {
            assert(s.take(i + 1).drop_last() =~= s.take(i as int));
            assert(s.take(i + 1).last() == s[i as int]);
            assert(s[i as int] == (k, entries@[i as int].1@));
            assert(chord_ok(s[i as int].1));
            if i > 0 {
                assert(s[i - 1].0 < s[i as int].0);
            }
            assert forall|j: int| 0 <= j < s.take(i as int).len() implies s.take(i as int)[j].0 != k by {
                assert(s[j].0 < s[i as int].0);
            }
            lemma_lookup_absent(s.take(i as int), k);
        }
        let ghost front = !placed && control < k;
        if !placed && control < k {
            let copy = vstd::slice::slice_to_vec(chord.as_slice());
            proof {
                lemma_pairs_push(out@, (control, copy));
            }
            out.push((control, copy));
            placed = true;
        }
        let ghost mid = pairs_view(out@);
        proof {
            assert forall|x: u32| lookup(mid, x) == if front && x == control { Some(chord@) } else { lookup(before, x) } by {
                if front {
                    lemma_lookup_push(before, (control, chord@), x);
                }
            }
        }
        let ghost back: Option<(u32, Seq<u8>)> = None;
        if k == control {
            prev = Some(vstd::slice::slice_to_vec(entries[i].1.as_slice()));
            let copy = vstd::slice::slice_to_vec(chord.as_slice());
            proof {
                lemma_pairs_push(out@, (control, copy));
                back = Some((control, chord@));
            }
            out.push((control, copy));
            placed = true;
        } else if want.is_some() && chord_mask(entries[i].1.as_slice()) == w {
            replaced.push(k);
        } else {
            let copy = vstd::slice::slice_to_vec(entries[i].1.as_slice());
            proof {
                lemma_pairs_push(out@, (k, copy));
                back = Some((k, s[i as int].1));
            }
            out.push((k, copy));
        }
        proof {
            let o = pairs_view(out@);
            assert forall|x: u32| lookup(o, x) == match back {
                Some(e) => if x == e.0 { Some(e.1) } else { lookup(mid, x) },
                None => lookup(mid, x),
            } by {
                if let Some(e) = back {
                    lemma_lookup_push(mid, e, x);
                }
            }
            assert forall|x: u32| lookup(o, x) == if x == control {
                if placed { Some(chord@) } else { None }
            } else {
                match lookup(s.take(i + 1), x) {
                    Some(c) => if drops(want, c) { None } else { Some(c) },
                    None => None,
                }
            } by {
            }
            if i + 1 < n {
                assert(s[i as int].0 < s[i + 1].0);
            }
            if want is Some {
                assert(bound_to(s.take(i + 1), w, Some(control)) == if chord_mask_spec(s[i as int].1) == w && Some(control) != Some(k) {
                    bound_to(s.take(i as int), w, Some(control)).push(k)
                } else {
                    bound_to(s.take(i as int), w, Some(control))
                });
            }
        }
        i += 1;
    }
    if !placed {
        let copy = vstd::slice::slice_to_vec(chord.as_slice());
        let ghost before = pairs_view(out@);
        proof {
            lemma_pairs_push(out@, (control, copy));
        }
        out.push((control, copy));
        proof {
            assert forall|x: u32| lookup(pairs_view(out@), x) == if x == control { Some(chord@) } else { lookup(before, x) } by {
                lemma_lookup_push(before, (control, chord@), x);
            }
        }
    }
    proof {
        assert(s.take(n as int) =~= s);
        if placed {
            assert(control <= s[n - 1].0);
        }
    }
    (out, replaced, prev)
}

/// The controls in `map` bound to the action whose buttons are `bits`: those
/// whose chord equals `bits` as a set, in control order.
pub fn bindings_in_map(map: &BindingMap, bits: &[u8]) -> (r: Vec<u32>)
    requires
        map.wf(),
        chord_ok(bits@),
    ensures
        r@ == bound_to(map.pairs(), chord_mask_spec(bits@), None),
{
    let want = chord_mask(bits);
    let ghost s = map.pairs();
    let mut r: Vec<u32> = Vec::new();
    let mut i: usize = 0;
    while i < map.entries.len()
        invariant
            s == map.pairs(),
            bindings_wf(s),
            s.len() == map.entries@.len(),
            want == chord_mask_spec(bits@),
            i <= s.len(),
            r@ == bound_to(s.take(i as int), want, None),
        decreases s.len() - i,
    {
        proof {
            assert(s.take(i + 1).drop_last() =~= s.take(i as int));
            assert(s.take(i + 1).last() == s[i as int]);
            assert(chord_ok(s[i as int].1));
        }
        if chord_mask(map.entries[i].1.as_slice()) == want {
            r.push(map.entries[i].0);
        }
        i += 1;
    }
    proof {
        assert(s.take(s.len() as int) =~= s);
    }
    r
}

/// What a rebind did: the controls that emitted the action's chord and were
/// unbound (not counting the rebound control), and the rebound control's
/// previous chord when it belonged to a different action.
pub struct RebindOutcome {
    pub replaced: Vec<u32>,
    pub stolen: Option<Vec<u8>>,
}

/// The chord of an optional vector, as a value.
pub open spec fn opt_view(o: Option<Vec<u8>>) -> Option<Seq<u8>> {
    match o {
        Some(v) => Some(v@),
        None => None,
    }
}

/// `after` is `before` rebound so that `control` emits `bits`: every other
/// control whose chord equals `bits` as a set is unbound (those are
/// `replaced`, in order), and `stolen` is `control`'s previous chord when it
/// belonged to a different action.
pub open spec fn rebind_spec(
    before: Seq<(u32, Seq<u8>)>,
    after: Seq<(u32, Seq<u8>)>,
    replaced: Seq<u32>,
    stolen: Option<Seq<u8>>,
    bits: Seq<u8>,
    control: u32,
) -> bool {
    &&& bindings_wf(after)
    &&& forall|x: u32| #[trigger] lookup(after, x) == rebuilt(before, control, bits, Some(chord_mask_spec(bits)), x)
    &&& replaced == bound_to(before, chord_mask_spec(bits), Some(control))
    &&& stolen == match lookup(before, control) {
        Some(c) => if chord_mask_spec(c) != chord_mask_spec(bits) { Some(c) } else { None },
        None => None,
    }
}

/// Rebind `control` to the action whose buttons are `bits`: every other
/// control whose chord equals `bits` as a set is unbound, then `control`
/// emits `bits`.
pub fn rebind_in_map(map: &mut BindingMap, bits: &[u8], control: u32) -> (out: RebindOutcome)
    requires
        old(map).wf(),
        chord_ok(bits@),
    ensures
        final(map).wf(),
        rebind_spec(old(map).pairs(), final(map).pairs(), out.replaced@, opt_view(out.stolen), bits@, control),
{
    let want = chord_mask(bits);
    let (entries, replaced, prev) = rebuild(&map.entries, control, vstd::slice::slice_to_vec(bits), Some(want));
    map.entries = entries;
    let stolen = match prev {
        Some(c) => {
            proof {
                let s = old(map).pairs();
                let j = lemma_lookup_listed(s, control);
                assert(chord_ok(s[j].1));
            }
            if chord_mask(c.as_slice()) != want { Some(c) } else { None }
        },
        None => None,
    };
    RebindOutcome { replaced, stolen }
}

proof fn lemma_bound_to_none(s: Seq<(u32, Seq<u8>)>, w: u16, except: Option<u32>)
    requires
        forall|j: int| 0 <= j < s.len() && except != Some(s[j].0) ==> chord_mask_spec(#[trigger] s[j].1) != w,
    ensures
        bound_to(s, w, except).len() == 0,
    decreases s.len(),
{
    if s.len() > 0 {
        lemma_bound_to_none(s.drop_last(), w, except);
    }
}

proof fn lemma_bound_to_single(s: Seq<(u32, Seq<u8>)>, w: u16, control: u32)
    requires
        bindings_wf(s),
        lookup(s, control) matches Some(c) && chord_mask_spec(c) == w,
        forall|j: int| 0 <= j < s.len() && s[j].0 != control ==> chord_mask_spec(#[trigger] s[j].1) != w,
    ensures
        bound_to(s, w, None) == seq![control],
    decreases s.len(),
{
    let rest = s.drop_last();
    if s.last().0 == control {
        assert forall|j: int| 0 <= j < rest.len() implies chord_mask_spec(#[trigger] rest[j].1) != w by {
            assert(s[j].0 < s[s.len() - 1].0);
        }
        lemma_bound_to_none(rest, w, None);
        assert(bound_to(rest, w, None) =~= Seq::<u32>::empty());
        assert(bound_to(s, w, None) =~= seq![control]);
    } else {
        assert(chord_mask_spec(s[s.len() - 1].1) != w);
        lemma_bound_to_single(rest, w, control);
    }
}

/// After a rebind, the rebound control is the one control of its map bound
/// to the action, and rebinding it to that action again changes nothing:
/// nothing is replaced or stolen and every control keeps its chord.
pub proof fn lemma_rebind_binds_exactly(
    before: Seq<(u32, Seq<u8>)>,
    after: Seq<(u32, Seq<u8>)>,
    replaced: Seq<u32>,
    stolen: Option<Seq<u8>>,
    bits: Seq<u8>,
    control: u32,
)
    requires
        bindings_wf(before),
        chord_ok(bits),
        rebind_spec(before, after, replaced, stolen, bits, control),
    ensures
        bound_to(after, chord_mask_spec(bits), None) == seq![control],
        rebind_spec(after, after, Seq::empty(), None, bits, control),
{
    let w = chord_mask_spec(bits);
    assert(lookup(after, control) == Some(bits));
    assert forall|j: int| 0 <= j < after.len() && after[j].0 != control implies chord_mask_spec(#[trigger] after[j].1) != w by {
        lemma_lookup_at(after, j);
        assert(lookup(after, after[j].0) == rebuilt(before, control, bits, Some(w), after[j].0));
    }
    lemma_bound_to_single(after, w, control);
    lemma_bound_to_none(after, w, Some(control));
    assert(bound_to(after, w, Some(control)) =~= Seq::<u32>::empty());
    assert forall|x: u32| #[trigger] lookup(after, x) == rebuilt(after, control, bits, Some(w), x) by {
        if x != control {
            if let Some(c) = lookup(after, x) {
                let j = lemma_lookup_listed(after, x);
                assert(chord_mask_spec(after[j].1) != w);
            }
        }
    }
}

/// One port's bindings: keyboard keys, generic pad buttons, and pad buttons
/// per named device.
pub struct PortMap {
    pub keyboard: BindingMap,
    pub gamepad: BindingMap,
    pub gamepad_by_device: Vec<(String, BindingMap)>,
}

/// Every map well formed, and no two device maps share a name.
pub open spec fn devices_wf(d: Seq<(String, BindingMap)>) -> bool {
    &&& forall|i: int| 0 <= i < d.len() ==> (#[trigger] d[i]).1.wf()
    &&& forall|i: int, j: int| 0 <= i < j < d.len() ==> d[i].0@ != d[j].0@
}

/// The index of the device map named `name`, if there is one.
pub open spec fn device_slot(d: Seq<(String, BindingMap)>, name: Seq<char>) -> Option<int> {
    if exists|i: int| 0 <= i < d.len() && (#[trigger] d[i]).0@ == name {
        Some(choose|i: int| 0 <= i < d.len() && (#[trigger] d[i]).0@ == name)
    } else {
        None
    }
}

impl PortMap {
    pub open spec fn wf(&self) -> bool {
        &&& self.keyboard.wf()
        &&& self.gamepad.wf()
        &&& devices_wf(self.gamepad_by_device@)
    }

    /// A port with nothing bound and no device maps.
    pub fn new() -> (p: Self)
        ensures
            p.wf(),
            p.keyboard.pairs().len() == 0,
            p.gamepad.pairs().len() == 0,
            p.gamepad_by_device@.len() == 0,
    {
        PortMap { keyboard: BindingMap::new(), gamepad: BindingMap::new(), gamepad_by_device: Vec::new() }
    }
}

/// The index of the device map named `name`.
fn find_device(d: &Vec<(String, BindingMap)>, name: &str) -> (r: Option<usize>)
    requires
        devices_wf(d@),
    ensures
        match r {
            Some(i) => device_slot(d@, name@) == Some(i as int) && i < d@.len(),
            None => device_slot(d@, name@) is None,
        },
{
    let mut i: usize = 0;
    while i < d.len()
        invariant
            devices_wf(d@),
            i <= d@.len(),
            forall|j: int| 0 <= j < i ==> (#[trigger] d@[j]).0@ != name@,
        decreases d@.len() - i,
    {
        if crate::debug_state::str_eq(d[i].0.as_str(), name) {
            proof {
                let j = choose|j: int| 0 <= j < d@.len() && (#[trigger] d@[j]).0@ == name@;
                if j != i {
                    if j < i {
                        assert(d@[j].0@ != d@[i as int].0@);
                    } else {
                        assert(d@[i as int].0@ != d@[j].0@);
                    }
                }
            }
            return Some(i);
        }
        i += 1;
    }
    None
}

/// A copy of a binding map.
fn clone_map(m: &BindingMap) -> (c: BindingMap)
    ensures
        c.pairs() == m.pairs(),
{
    let mut entries: Vec<(u32, Vec<u8>)> = Vec::new();
    let mut i: usize = 0;
    while i < m.entries.len()
        invariant
            i <= m.entries@.len(),
            pairs_view(entries@) == pairs_view(m.entries@).take(i as int),
        decreases m.entries@.len() - i,
    {
        let copy = vstd::slice::slice_to_vec(m.entries[i].1.as_slice());
        proof {
            lemma_pairs_push(entries@, (m.entries@[i as int].0, copy));
        }
        entries.push((m.entries[i].0, copy));
        proof {
            assert(pairs_view(m.entries@).take(i + 1) =~= pairs_view(m.entries@).take(i as int).push(
                pairs_view(m.entries@)[i as int],
            ));
        }
        i += 1;
    }
    proof {
        assert(pairs_view(m.entries@).take(m.entries@.len() as int) =~= pairs_view(m.entries@));
    }
    BindingMap { entries }
}

/// Whether the action whose buttons are `bits` is bound to anything on the
/// port: a key, a generic pad button, or a button of any device map.
pub fn action_is_bound(port: &PortMap, bits: &[u8]) -> (b: bool)
    requires
        port.wf(),
        chord_ok(bits@),
    ensures
        b == (bound_to(port.keyboard.pairs(), chord_mask_spec(bits@), None).len() > 0
            || bound_to(port.gamepad.pairs(), chord_mask_spec(bits@), None).len() > 0
            || exists|i: int|
            0 <= i < port.gamepad_by_device@.len() && bound_to(
                (#[trigger] port.gamepad_by_device@[i]).1.pairs(),
                chord_mask_spec(bits@),
                None,
            ).len() > 0),
{
    if bindings_in_map(&port.keyboard, bits).len() > 0 {
        return true;
    }
    if bindings_in_map(&port.gamepad, bits).len() > 0 {
        return true;
    }
    let mut i: usize = 0;
    while i < port.gamepad_by_device.len()
        invariant
            port.wf(),
            chord_ok(bits@),
            i <= port.gamepad_by_device@.len(),
            forall|j: int| 0 <= j < i ==> bound_to(
                (#[trigger] port.gamepad_by_device@[j]).1.pairs(),
                chord_mask_spec(bits@),
                None,
            ).len() == 0,
        decreases port.gamepad_by_device@.len() - i,
    {
        proof {
            assert(port.gamepad_by_device@[i as int].1.wf());
        }
        if bindings_in_map(&port.gamepad_by_device[i].1, bits).len() > 0 {
            return true;
        }
        i += 1;
    }
    false
}

/// Rebind `key` to the action whose buttons are `bits` on the port's
/// keyboard map; the pad maps are untouched.
pub fn rebind_key(port: &mut PortMap, bits: &[u8], key: u32) -> (out: RebindOutcome)
    requires
        old(port).wf(),
        chord_ok(bits@),
    ensures
        final(port).wf(),
        rebind_spec(old(port).keyboard.pairs(), final(port).keyboard.pairs(), out.replaced@, opt_view(out.stolen), bits@, key),
        final(port).gamepad == old(port).gamepad,
        final(port).gamepad_by_device@ == old(port).gamepad_by_device@,
{
    rebind_in_map(&mut port.keyboard, bits, key)
}

/// `after` is `before` with pad button `btn` rebound to the action whose
/// buttons are `bits`: in the device map named `device` when there is one,
/// otherwise in the generic pad map; everything else is unchanged.
pub open spec fn pad_rebind_spec(
    before: PortMap,
    after: PortMap,
    replaced: Seq<u32>,
    stolen: Option<Seq<u8>>,
    bits: Seq<u8>,
    btn: u32,
    device: Option<Seq<char>>,
) -> bool {
    &&& after.keyboard == before.keyboard
    &&& after.gamepad_by_device@.len() == before.gamepad_by_device@.len()
    &&& match (match device { Some(n) => device_slot(before.gamepad_by_device@, n), None => None }) {
        Some(i) => {
            &&& rebind_spec(
                before.gamepad_by_device@[i].1.pairs(),
                after.gamepad_by_device@[i].1.pairs(),
                replaced,
                stolen,
                bits,
                btn,
            )
            &&& after.gamepad_by_device@[i].0 == before.gamepad_by_device@[i].0
            &&& forall|j: int| 0 <= j < before.gamepad_by_device@.len() && j != i
                ==> #[trigger] after.gamepad_by_device@[j] == before.gamepad_by_device@[j]
            &&& after.gamepad == before.gamepad
        },
        None => {
            &&& rebind_spec(before.gamepad.pairs(), after.gamepad.pairs(), replaced, stolen, bits, btn)
            &&& after.gamepad_by_device@ == before.gamepad_by_device@
        },
    }
}

/// Rebind pad button `btn` to the action whose buttons are `bits`: in the
/// device map named `device` when the port has one, otherwise in the generic
/// pad map. A rebind never creates a device map.
pub fn rebind_pad(port: &mut PortMap, bits: &[u8], btn: u32, device: Option<&str>) -> (out: RebindOutcome)
    requires
        old(port).wf(),
        chord_ok(bits@),
    ensures
        final(port).wf(),
        pad_rebind_spec(
            *old(port),
            *final(port),
            out.replaced@,
            opt_view(out.stolen),
            bits@,
            btn,
            match device { Some(n) => Some(n@), None => None },
        ),
{
    let slot = match device {
        Some(n) => find_device(&port.gamepad_by_device, n),
        None => None,
    };
    match slot {
        Some(i) => {
            let ghost d0 = port.gamepad_by_device@;
            let mut entry = port.gamepad_by_device.remove(i);
            proof {
                assert(entry == d0[i as int]);
                assert(d0[i as int].1.wf());
            }
            let out = rebind_in_map(&mut entry.1, bits, btn);
            port.gamepad_by_device.insert(i, entry);
            proof {
                let d1 = port.gamepad_by_device@;
                assert forall|j: int| 0 <= j < d0.len() && j != i implies #[trigger] d1[j] == d0[j] by {
                    if j < i {
                        assert(d1[j] == d0[j]);
                    } else {
                        assert(d1[j] == d0[j]);
                    }
                }
                assert forall|a: int| 0 <= a < d1.len() implies (#[trigger] d1[a]).1.wf() by {
                    if a != i {
                        assert(d1[a] == d0[a]);
                    }
                }
                assert forall|a: int, b: int| 0 <= a < b < d1.len() implies d1[a].0@ != d1[b].0@ by {
                    assert(d1[a].0 == d0[a].0);
                    assert(d1[b].0 == d0[b].0);
                }
            }
            out
        },
        None => rebind_in_map(&mut port.gamepad, bits, btn),
    }
}

/// Add a device map named `name`, a copy of the generic pad map; refused
/// (false, nothing changes) when the port already has one of that name.
pub fn add_device_map(port: &mut PortMap, name: &str) -> (added: bool)
    requires
        old(port).wf(),
    ensures
        final(port).wf(),
        added == (device_slot(old(port).gamepad_by_device@, name@) is None),
        final(port).keyboard == old(port).keyboard,
        final(port).gamepad == old(port).gamepad,
        added ==> {
            &&& final(port).gamepad_by_device@.len() == old(port).gamepad_by_device@.len() + 1
            &&& final(port).gamepad_by_device@.drop_last() == old(port).gamepad_by_device@
            &&& final(port).gamepad_by_device@.last().0@ == name@
            &&& final(port).gamepad_by_device@.last().1.pairs() == old(port).gamepad.pairs()
        },
        !added ==> final(port).gamepad_by_device@ == old(port).gamepad_by_device@,
{
    if find_device(&port.gamepad_by_device, name).is_some() {
        return false;
    }
    let generic = clone_map(&port.gamepad);
    let mut label = String::new();
    crate::fmt::push_str(&mut label, name);
    assert(label@ =~= name@);
    let ghost d0 = port.gamepad_by_device@;
    port.gamepad_by_device.push((label, generic));
    proof {
        let d1 = port.gamepad_by_device@;
        assert(d1.drop_last() =~= d0);
        assert forall|a: int| 0 <= a < d1.len() implies (#[trigger] d1[a]).1.wf() by {
            if a < d0.len() {
                assert(d1[a] == d0[a]);
            }
        }
        assert forall|a: int, b: int| 0 <= a < b < d1.len() implies d1[a].0@ != d1[b].0@ by {
            if b == d0.len() {
                assert(d1[a] == d0[a]);
                assert(!(exists|i: int| 0 <= i < d0.len() && (#[trigger] d0[i]).0@ == name@));
            } else {
                assert(d1[a] == d0[a]);
                assert(d1[b] == d0[b]);
            }
        }
    }
    true
}

/// The button names of a chord.
pub open spec fn chord_names(bits: Seq<u8>) -> Seq<Seq<char>> {
    bits.map_values(|b: u8| RETRO_NAMES@[b as int]@)
}

/// A chord's button names joined by `+`.
pub fn chord_label(bits: &[u8]) -> (s: String)
    requires
        chord_ok(bits@),
    ensures
        s@ == join(chord_names(bits@), "+"@),
{
    let mut parts: Vec<&str> = Vec::new();
    let mut i: usize = 0;
    while i < bits.len()
        invariant
            chord_ok(bits@),
            i <= bits@.len(),
            parts@.len() == i,
            views(parts@) == chord_names(bits@).take(i as int),
        decreases bits@.len() - i,
    {
        let name: &str = RETRO_NAMES[bits[i] as usize];
        let ghost old_parts = parts@;
        parts.push(name);
        proof {
            assert(name@ == chord_names(bits@)[i as int]);
            assert forall|j: int| 0 <= j < i + 1 implies views(parts@)[j] == chord_names(bits@).take(i + 1)[j] by {
                if j < i {
                    assert(parts@[j] == old_parts[j]);
                    assert(views(old_parts)[j] == chord_names(bits@).take(i as int)[j]);
                }
            }
            assert(views(parts@) =~= chord_names(bits@).take(i + 1));
        }
        i += 1;
    }
    proof {
        assert(chord_names(bits@).take(bits@.len() as int) =~= chord_names(bits@));
    }
    join_strs(&parts, "+")
}

/// Action rows (name, buttons) as values.
pub open spec fn rows_view(rows: Seq<(String, Vec<u8>)>) -> Seq<(Seq<char>, Seq<u8>)> {
    rows.map_values(|r: (String, Vec<u8>)| (r.0@, r.1@))
}

/// The name of the first row whose buttons have mask `want`.
pub open spec fn row_named(rows: Seq<(Seq<char>, Seq<u8>)>, want: u16) -> Option<Seq<char>>
    decreases rows.len(),
{
    if rows.len() == 0 {
        None
    } else if chord_mask_spec(rows[0].1) == want {
        Some(rows[0].0)
    } else {
        row_named(rows.drop_first(), want)
    }
}

/// The action a chord belongs to, for a warning: the first of the port's
/// action rows (name, buttons) whose buttons equal the chord as a set, else
/// the chord's own button names.
pub open spec fn chord_action_name(rows: Seq<(Seq<char>, Seq<u8>)>, chord: Seq<u8>) -> Seq<char> {
    match row_named(rows, chord_mask_spec(chord)) {
        Some(n) => n,
        None => join(chord_names(chord), "+"@),
    }
}

/// Every row's buttons form a chord.
pub open spec fn rows_ok(rows: Seq<(String, Vec<u8>)>) -> bool {
    forall|i: int| 0 <= i < rows.len() ==> chord_ok((#[trigger] rows[i]).1@)
}

/// The name of the action `chord` belongs to, given the port's action rows.
pub fn action_name_for_chord(rows: &Vec<(String, Vec<u8>)>, chord: &[u8]) -> (s: String)
    requires
        chord_ok(chord@),
        rows_ok(rows@),
    ensures
        s@ == chord_action_name(rows_view(rows@), chord@),
{
    let want = chord_mask(chord);
    let ghost r = rows_view(rows@);
    let mut i: usize = 0;
    proof {
        assert(r.skip(0) =~= r);
    }
    while i < rows.len()
        invariant
            r == rows_view(rows@),
            rows_ok(rows@),
            i <= rows@.len(),
            want == chord_mask_spec(chord@),
            row_named(r, want) == row_named(r.skip(i as int), want),
        decreases rows@.len() - i,
    {
        proof {
            assert(r.skip(i as int)[0] == r[i as int]);
            assert(r.skip(i as int).drop_first() =~= r.skip(i + 1));
            assert(chord_ok(rows@[i as int].1@));
        }
        if chord_mask(rows[i].1.as_slice()) == want {
            return crate::debug_state::clone_string(&rows[i].0);
        }
        i += 1;
    }
    proof {
        assert(r.skip(i as int).len() == 0);
    }
    chord_label(chord)
}

/// `F1` to `F35`, by name.
pub open spec fn function_key(name: Seq<char>) -> bool {
    &&& 2 <= name.len() <= 3
    &&& name[0] == 'F'
    &&& '1' <= name[1] <= '9'
    &&& name.len() == 3 ==> ('0' <= name[2] <= '9' && (name[1] == '1' || name[1] == '2' || (name[1] == '3'
        && name[2] <= '5')))
}

/// The keys a capture never takes, by key name: `Escape` (it cancels the
/// capture), the function keys (app hotkeys), `Space` (pause), `KeyB`
/// (bookmark) and the modifiers of either side.
pub open spec fn reserved_key(name: Seq<char>) -> bool {
    ||| name == "Escape"@
    ||| name == "Space"@
    ||| name == "KeyB"@
    ||| name == "ShiftLeft"@
    ||| name == "ShiftRight"@
    ||| name == "ControlLeft"@
    ||| name == "ControlRight"@
    ||| name == "AltLeft"@
    ||| name == "AltRight"@
    ||| name == "SuperLeft"@
    ||| name == "SuperRight"@
    ||| function_key(name)
}

/// Whether a keyboard capture may bind the key of this name.
pub fn key_is_capturable(name: &str) -> (b: bool)
    ensures
        b == !reserved_key(name@),
{
    if str_eq(name, "Escape") || str_eq(name, "Space") || str_eq(name, "KeyB") || str_eq(name, "ShiftLeft")
        || str_eq(name, "ShiftRight") || str_eq(name, "ControlLeft") || str_eq(name, "ControlRight")
        || str_eq(name, "AltLeft") || str_eq(name, "AltRight") || str_eq(name, "SuperLeft")
        || str_eq(name, "SuperRight") {
        return false;
    }
    let n = name.unicode_len();
    if n < 2 || n > 3 || name.get_char(0) != 'F' {
        return true;
    }
    let d1 = name.get_char(1);
    if d1 < '1' || d1 > '9' {
        return true;
    }
    if n == 2 {
        return false;
    }
    let d2 = name.get_char(2);
    !(('0' <= d2 && d2 <= '9') && (d1 == '1' || d1 == '2' || (d1 == '3' && d2 <= '5')))
}


/// What a capture hears this frame: nothing, Escape, a capturable key, or a
/// pad button together with the name of the pad that pressed it.
pub enum CaptureEvent {
    Nothing,
    Escape,
    Key(u32),
    Pad { button: u32, pad: Option<String> },
}

/// The device map a pad capture goes to: the clicked device row's, else the
/// pressing pad's own map when the port has one.
pub open spec fn capture_device(target: Option<String>, pad: Option<String>, devices: Seq<(String, BindingMap)>) -> Option<Seq<char>> {
    match target {
        Some(d) => Some(d@),
        None => match pad {
            Some(n) => if device_slot(devices, n@) is Some { Some(n@) } else { None },
            None => None,
        },
    }
}

/// Every port well formed.
pub open spec fn ports_wf(ports: Seq<PortMap>) -> bool {
    forall|i: int| 0 <= i < ports.len() ==> (#[trigger] ports[i]).wf()
}

/// One step of the capture state machine. Idle, or an event the capture is
/// not listening to: nothing happens. A target port the config lacks, or
/// Escape: the capture ends (Escape reports the cancel). A key for a
/// keyboard capture, or a pad button for a pad capture: the control is
/// rebound on the target port, and the outcome and the device map used are
/// returned for [`finish_capture`] to report; the capture stays armed.
pub fn step_capture(panel: &mut ControlsPanel, ports: &mut Vec<PortMap>, event: CaptureEvent) -> (r: Option<(RebindOutcome, Option<String>)>)
    requires
        ports_wf(old(ports)@),
        old(panel).capture matches Some(t) ==> chord_ok(t.bits@),
    ensures
        ports_wf(final(ports)@),
        final(ports)@.len() == old(ports)@.len(),
        final(panel).open == old(panel).open,
        final(panel).warning == old(panel).warning,
        match old(panel).capture {
            None => r is None && *final(panel) == *old(panel) && final(ports)@ == old(ports)@,
            Some(t) => if t.port >= old(ports)@.len() {
                r is None && final(panel).capture is None && final(panel).status == old(panel).status
                    && final(ports)@ == old(ports)@
            } else {
                match event {
                    CaptureEvent::Escape => r is None && final(panel).capture is None && final(panel).status@
                        == "capture cancelled"@ && final(ports)@ == old(ports)@,
                    CaptureEvent::Key(k) => if t.kind == DeviceKind::Keyboard {
                        r matches Some((out, dev)) && dev is None && *final(panel) == *old(panel) && rebind_spec(
                            old(ports)@[t.port as int].keyboard.pairs(),
                            final(ports)@[t.port as int].keyboard.pairs(),
                            out.replaced@,
                            opt_view(out.stolen),
                            t.bits@,
                            k,
                        ) && final(ports)@[t.port as int].gamepad == old(ports)@[t.port as int].gamepad
                            && final(ports)@[t.port as int].gamepad_by_device@
                            == old(ports)@[t.port as int].gamepad_by_device@
                            && forall|j: int| 0 <= j < old(ports)@.len() && j != t.port ==> #[trigger] final(ports)@[j]
                                == old(ports)@[j]
                    } else {
                        r is None && *final(panel) == *old(panel) && final(ports)@ == old(ports)@
                    },
                    CaptureEvent::Pad { button, pad } => if t.kind == DeviceKind::Gamepad {
                        r matches Some((out, dev)) && *final(panel) == *old(panel) && opt_string_view(dev) == capture_device(
                            t.device,
                            pad,
                            old(ports)@[t.port as int].gamepad_by_device@,
                        ) && pad_rebind_spec(
                            old(ports)@[t.port as int],
                            final(ports)@[t.port as int],
                            out.replaced@,
                            opt_view(out.stolen),
                            t.bits@,
                            button,
                            capture_device(t.device, pad, old(ports)@[t.port as int].gamepad_by_device@),
                        ) && forall|j: int| 0 <= j < old(ports)@.len() && j != t.port ==> #[trigger] final(ports)@[j]
                            == old(ports)@[j]
                    } else {
                        r is None && *final(panel) == *old(panel) && final(ports)@ == old(ports)@
                    },
                    CaptureEvent::Nothing => r is None && *final(panel) == *old(panel) && final(ports)@ == old(ports)@,
                }
            },
        },
{
    let (port, bits, kind, target_device) = match &panel.capture {
        None => return None,
        Some(t) => (t.port, vstd::slice::slice_to_vec(t.bits.as_slice()), t.kind, clone_opt_string(&t.device)),
    };
    if port >= ports.len() {
        panel.capture = None;
        return None;
    }
    match event {
        CaptureEvent::Escape => {
            panel.capture = None;
            panel.status = String::new();
            crate::fmt::push_str(&mut panel.status, "capture cancelled");
            proof {
                reveal_strlit("capture cancelled");
            }
            None
        },
        CaptureEvent::Key(k) => {
            if kind != DeviceKind::Keyboard {
                return None;
            }
            let ghost p0 = ports@;
            let mut pm = ports.remove(port);
            proof {
                assert(pm == p0[port as int]);
            }
            let out = rebind_key(&mut pm, bits.as_slice(), k);
            ports.insert(port, pm);
            proof {
                lemma_ports_replaced(p0, ports@, port as int);
            }
            Some((out, None))
        },
        CaptureEvent::Pad { button, pad } => {
            if kind != DeviceKind::Gamepad {
                return None;
            }
            let ghost p0 = ports@;
            let mut pm = ports.remove(port);
            proof {
                assert(pm == p0[port as int]);
            }
            let device: Option<String> = match target_device {
                Some(d) => Some(d),
                None => match pad {
                    Some(n) => if find_device(&pm.gamepad_by_device, n.as_str()).is_some() { Some(n) } else { None },
                    None => None,
                },
            };
            let out = match &device {
                Some(d) => rebind_pad(&mut pm, bits.as_slice(), button, Some(d.as_str())),
                None => rebind_pad(&mut pm, bits.as_slice(), button, None),
            };
            ports.insert(port, pm);
            proof {
                lemma_ports_replaced(p0, ports@, port as int);
            }
            Some((out, device))
        },
        CaptureEvent::Nothing => None,
    }
}

proof fn lemma_ports_replaced(p0: Seq<PortMap>, p1: Seq<PortMap>, at: int)
    requires
        ports_wf(p0),
        0 <= at < p0.len(),
        p1.len() == p0.len(),
        p1[at].wf(),
        forall|j: int| 0 <= j < at ==> p1[j] == p0[j],
        forall|j: int| at < j < p0.len() ==> p1[j] == p0[j],
    ensures
        ports_wf(p1),
        forall|j: int| 0 <= j < p0.len() && j != at ==> #[trigger] p1[j] == p0[j],
{
    assert forall|j: int| 0 <= j < p1.len() implies (#[trigger] p1[j]).wf() by {
        if j != at {
            assert(p1[j] == p0[j]);
        }
    }
}

/// An optional string as a value.
pub open spec fn opt_string_view(o: Option<String>) -> Option<Seq<char>> {
    match o {
        Some(s) => Some(s@),
        None => None,
    }
}

fn clone_opt_string(o: &Option<String>) -> (c: Option<String>)
    ensures
        opt_string_view(c) == opt_string_view(*o),
{
    match o {
        Some(s) => Some(crate::debug_state::clone_string(s)),
        None => None,
    }
}

/// The status line of a finished capture: `"<action> = <control>"`, the
/// device map in brackets when there is one, and the replaced controls.
pub open spec fn capture_status(action: Seq<char>, control: Seq<char>, device: Option<Seq<char>>, replaced: Seq<Seq<char>>) -> Seq<char> {
    action + " = "@ + control + match device {
        Some(d) => " ["@ + d + "]"@,
        None => Seq::empty(),
    } + if replaced.len() > 0 {
        "  (was "@ + join(replaced, " / "@) + ")"@
    } else {
        Seq::empty()
    }
}

/// The warning of a capture that took a control from another action.
pub open spec fn stolen_warning(control: Seq<char>, owner: Seq<char>) -> Seq<char> {
    control + " was bound to "@ + owner + " \u{2014} overwritten"@
}

/// Report a finished capture and disarm it: the status line, and a warning
/// when the control was taken from another action (named from `rows`).
pub fn finish_capture(
    panel: &mut ControlsPanel,
    target: &CaptureTarget,
    control_label: String,
    replaced: Vec<String>,
    stolen: Option<Vec<u8>>,
    device: Option<String>,
    rows: &Vec<(String, Vec<u8>)>,
)
    requires
        rows_ok(rows@),
        stolen matches Some(c) ==> chord_ok(c@),
    ensures
        final(panel).status@ == capture_status(target.action@, control_label@, opt_string_view(device), string_views(replaced@)),
        match stolen {
            Some(c) => final(panel).warning matches Some(w) && w@ == stolen_warning(
                control_label@,
                chord_action_name(rows_view(rows@), c@),
            ),
            None => final(panel).warning is None,
        },
        final(panel).capture is None,
        final(panel).open == old(panel).open,
{
    let mut status = crate::debug_state::clone_string(&target.action);
    push_str(&mut status, " = ");
    push_str(&mut status, control_label.as_str());
    match &device {
        Some(d) => {
            push_str(&mut status, " [");
            push_str(&mut status, d.as_str());
            push_str(&mut status, "]");
        },
        None => {},
    }
    if replaced.len() > 0 {
        let mut parts: Vec<&str> = Vec::new();
        let mut i: usize = 0;
        while i < replaced.len()
            invariant
                i <= replaced@.len(),
                parts@.len() == i,
                views(parts@) == string_views(replaced@).take(i as int),
            decreases replaced@.len() - i,
        {
            let ghost old_parts = parts@;
            parts.push(replaced[i].as_str());
            proof {
                assert forall|j: int| 0 <= j < i + 1 implies views(parts@)[j] == string_views(replaced@).take(i + 1)[j] by {
                    if j < i {
                        assert(parts@[j] == old_parts[j]);
                        assert(views(old_parts)[j] == string_views(replaced@).take(i as int)[j]);
                    }
                }
                assert(views(parts@) =~= string_views(replaced@).take(i + 1));
            }
            i += 1;
        }
        proof {
            assert(string_views(replaced@).take(replaced@.len() as int) =~= string_views(replaced@));
        }
        push_str(&mut status, "  (was ");
        let joined = join_strs(&parts, " / ");
        push_str(&mut status, joined.as_str());
        push_str(&mut status, ")");
    }
    proof {
        reveal_strlit(" = ");
        reveal_strlit(" [");
        reveal_strlit("]");
        reveal_strlit("  (was ");
        reveal_strlit(" / ");
        reveal_strlit(")");
        assert(status@ =~= capture_status(target.action@, control_label@, opt_string_view(device), string_views(replaced@)));
    }
    panel.status = status;
    panel.warning = match stolen {
        Some(c) => {
            let owner = action_name_for_chord(rows, c.as_slice());
            let mut w = crate::debug_state::clone_string(&control_label);
            push_str(&mut w, " was bound to ");
            push_str(&mut w, owner.as_str());
            push_str(&mut w, " \u{2014} overwritten");
            proof {
                reveal_strlit(" was bound to ");
                reveal_strlit(" \u{2014} overwritten");
                assert(w@ =~= stolen_warning(control_label@, chord_action_name(rows_view(rows@), c@)));
            }
            Some(w)
        },
        None => None,
    };
    panel.capture = None;
}

} // verus!
