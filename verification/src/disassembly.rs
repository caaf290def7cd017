//! The disassembly panel's model: decoding 68K code with capstone into
//! listing lines, where the code bytes come from, breakpoints, run-to, and
//! the label-a-range form that adds code regions.
use vstd::prelude::*;
use capstone::arch::BuildsCapstone;
use capstone::Capstone;
use crate::debug_state::{DebugState, clone_string};
use crate::fmt::{hex, pad_right, push_char, push_padded, push_str};
use crate::memory::CodeRegion;
use crate::parse::{parse_unsigned, parse_unsigned_in, strip_0x};

verus! {

#[verifier::external_type_specification]
#[verifier::external_body]
pub struct ExCapstone(Capstone);

/// A capstone handle set up for the 68020, the only way this library
/// builds one.
pub struct M68kDisassembler {
    cs: Capstone,
}

/// `Capstone::new().m68k().mode(ArchMode::M68k020).build()`: a 68020
/// disassembler. Claimed to succeed: the builder has its mode set, and
/// capstone's `cs_open` accepts the M68K architecture in 68020 mode, failing
/// only when its own memory allocation fails, which this library does not
/// model for any allocation. Should it happen anyway, the error's debug text
/// is returned.
#[verifier::external_body]
fn m68k_disassembler() -> (r: Result<M68kDisassembler, String>)
    ensures
        r is Ok,
{
    match Capstone::new().m68k().mode(capstone::arch::m68k::ArchMode::M68k020).build() {
        Ok(cs) => Ok(M68kDisassembler { cs }),
        Err(e) => Err(format!("{:?}", e)),
    }
}

/// What capstone's 68020 disassembler gives for `code` placed at `addr`:
/// each decoded instruction's address, mnemonic and operand text, or the
/// debug text of its error.
pub uninterp spec fn m68k_decode(code: Seq<u8>, addr: u64) -> Result<Seq<(u64, Option<Seq<char>>, Option<Seq<char>>)>, Seq<char>>;

/// An instruction list as values.
pub open spec fn insns_view(v: Seq<(u64, Option<String>, Option<String>)>) -> Seq<(u64, Option<Seq<char>>, Option<Seq<char>>)> {
    v.map_values(|i: (u64, Option<String>, Option<String>)| (i.0, opt_text(i.1), opt_text(i.2)))
}

pub open spec fn opt_text(o: Option<String>) -> Option<Seq<char>> {
    match o {
        Some(s) => Some(s@),
        None => None,
    }
}

/// `Capstone::disasm_all` on the 68020 handle: every instruction decoded
/// from `code` placed at `addr` (address, mnemonic, operand text), or the
/// debug text of the error; the result is named [`m68k_decode`].
#[verifier::external_body]
fn disasm_all(d: &M68kDisassembler, code: &[u8], addr: u64) -> (r: Result<Vec<(u64, Option<String>, Option<String>)>, String>)
    ensures
        match r {
            Ok(v) => m68k_decode(code@, addr) == Ok::<Seq<(u64, Option<Seq<char>>, Option<Seq<char>>)>, Seq<char>>(insns_view(v@)),
            Err(e) => m68k_decode(code@, addr) == Err::<Seq<(u64, Option<Seq<char>>, Option<Seq<char>>)>, Seq<char>>(e@),
        },
{
    match d.cs.disasm_all(code, addr) {
        Ok(insns) => Ok(
            insns.iter().map(|i| (i.address(), i.mnemonic().map(|m| m.to_string()), i.op_str().map(|o| o.to_string()))).collect(),
        ),
        Err(e) => Err(format!("{:?}", e)),
    }
}

/// How many instructions the listing shows.
pub const LISTING_LINES: usize = 14;

/// One listing line: the current-PC arrow (or two spaces), the address in
/// six hex digits, the mnemonic padded to ten (`??` when capstone gives
/// none), and the operands.
pub open spec fn listing_line(addr: u32, mnemonic: Option<Seq<char>>, ops: Option<Seq<char>>, real_pc: u32) -> Seq<char> {
    (if addr == real_pc { "\u{2192} "@ } else { "  "@ }) + hex(addr as nat, 6) + ":  "@ + pad_right(
        match mnemonic {
            Some(m) => m,
            None => "??"@,
        },
        10,
        ' ',
    ) + " "@ + match ops {
        Some(o) => o,
        None => Seq::empty(),
    }
}

/// The listing of decoded instructions: the first [`LISTING_LINES`], each
/// with its address; an error when nothing was decoded.
pub open spec fn listing_spec(insns: Seq<(u64, Option<Seq<char>>, Option<Seq<char>>)>, start_addr: u32, real_pc: u32) -> Result<Seq<(u32, Seq<char>)>, Seq<char>> {
    if insns.len() == 0 {
        Err("No instructions decoded at $"@ + hex(start_addr as nat, 6))
    } else {
        let n = if insns.len() < 14 { insns.len() as int } else { 14 };
        Ok(Seq::new(n as nat, |k: int| (insns[k].0 as u32, listing_line(insns[k].0 as u32, insns[k].1, insns[k].2, real_pc))))
    }
}

/// A listing as values.
pub open spec fn lines_view(v: Seq<(u32, String)>) -> Seq<(u32, Seq<char>)> {
    v.map_values(|l: (u32, String)| (l.0, l.1@))
}

pub open spec fn listing_view(r: Result<Vec<(u32, String)>, String>) -> Result<Seq<(u32, Seq<char>)>, Seq<char>> {
    match r {
        Ok(v) => Ok(lines_view(v@)),
        Err(e) => Err(e@),
    }
}

fn push_opt(s: &mut String, o: &Option<String>, none: &str)
    ensures
        final(s)@ == old(s)@ + match o {
            Some(t) => t@,
            None => none@,
        },
{
    match o {
        Some(t) => push_str(s, t.as_str()),
        None => push_str(s, none),
    }
}

/// Format decoded instructions as the listing (see [`listing_spec`]).
pub fn listing(insns: &Vec<(u64, Option<String>, Option<String>)>, start_addr: u32, real_pc: u32) -> (r: Result<Vec<(u32, String)>, String>)
    ensures
        listing_view(r) == listing_spec(insns_view(insns@), start_addr, real_pc),
{
    proof {
        reveal_strlit("0");
        reveal_strlit("\u{2192} ");
        reveal_strlit("  ");
        reveal_strlit(":  ");
        reveal_strlit("??");
        reveal_strlit(" ");
        reveal_strlit("");
        reveal_strlit("No instructions decoded at $");
    }
    let ghost iv = insns_view(insns@);
    if insns.len() == 0 {
        let mut e = String::new();
        push_str(&mut e, "No instructions decoded at $");
        push_padded(&mut e, start_addr as u64, 16, 6, "0");
        return Err(e);
    }
    let n: usize = if insns.len() < LISTING_LINES { insns.len() } else { LISTING_LINES };
    let mut out: Vec<(u32, String)> = Vec::new();
    let mut k: usize = 0;
    while k < n
        invariant
            iv == insns_view(insns@),
            n <= insns@.len(),
            n == (if insns@.len() < 14 { insns@.len() as int } else { 14 }),
            k <= n,
            out@.len() == k,
            forall|j: int| 0 <= j < k ==> (#[trigger] lines_view(out@)[j]) == (iv[j].0 as u32, listing_line(iv[j].0 as u32, iv[j].1, iv[j].2, real_pc)),
        decreases n - k,
    {
        let (a, m, o) = &insns[k];
        let addr: u32 = (#[verifier::truncate] (*a as u32));
        proof {
            reveal_strlit("0");
            reveal_strlit("\u{2192} ");
            reveal_strlit("  ");
            reveal_strlit(":  ");
            reveal_strlit("??");
            reveal_strlit(" ");
            reveal_strlit("");
            assert(iv[k as int] == (*a, opt_text(*m), opt_text(*o)));
        }
        let mut line = String::new();
        if addr == real_pc {
            push_str(&mut line, "\u{2192} ");
        } else {
            push_str(&mut line, "  ");
        }
        push_padded(&mut line, addr as u64, 16, 6, "0");
        push_str(&mut line, ":  ");
        let ghost before_m = line@;
        push_opt(&mut line, m, "??");
        let ghost mtext = match iv[k as int].1 { Some(t) => t, None => "??"@ };
        let mlen: usize = match m {
            Some(t) => t.as_str().unicode_len(),
            None => 2,
        };
        let mut pad = mlen;
        while pad < 10
            invariant
                mlen <= pad <= (if mlen < 10 { 10 } else { mlen }),
                line@ == before_m + mtext + Seq::new((pad - mlen) as nat, |_i: int| ' '),
            decreases 10 - pad,
        {
            push_char(&mut line, ' ');
            proof {
                assert(line@ =~= before_m + mtext + Seq::new((pad + 1 - mlen) as nat, |_i: int| ' '));
            }
            pad += 1;
        }
        proof {
            assert(mtext.len() == mlen);
            assert(before_m + mtext + Seq::new((pad - mlen) as nat, |_i: int| ' ') =~= before_m + pad_right(mtext, 10, ' '));
        }
        push_str(&mut line, " ");
        push_opt(&mut line, o, "");
        proof {
            assert(line@ =~= listing_line(addr, iv[k as int].1, iv[k as int].2, real_pc));
        }
        let ghost prev = out@;
        out.push((addr, line));
        proof {
            assert forall|j: int| 0 <= j < k + 1 implies (#[trigger] lines_view(out@)[j]) == (iv[j].0 as u32, listing_line(iv[j].0 as u32, iv[j].1, iv[j].2, real_pc)) by {
                if j < k {
                    assert(out@[j] == prev[j]);
                    assert(lines_view(prev)[j] == lines_view(out@)[j]);
                }
            }
        }
        k += 1;
    }
    proof {
        assert(lines_view(out@) =~= Seq::new(n as nat, |j: int| (iv[j].0 as u32, listing_line(iv[j].0 as u32, iv[j].1, iv[j].2, real_pc))));
    }
    Ok(out)
}

/// What decoding at `start_addr` shows, given what capstone decoded: the
/// listing, or the decode error prefixed `"Disassembly error: "`.
pub open spec fn decode_outcome(
    decoded: Result<Seq<(u64, Option<Seq<char>>, Option<Seq<char>>)>, Seq<char>>,
    start_addr: u32,
    real_pc: u32,
) -> Result<Seq<(u32, Seq<char>)>, Seq<char>> {
    match decoded {
        Ok(insns) => listing_spec(insns, start_addr, real_pc),
        Err(e) => Err("Disassembly error: "@ + e),
    }
}

/// Decode `bytes` placed at `start_addr` and list them, marking `real_pc`:
/// what [`decode_outcome`] gives for capstone's decoding.
pub fn decode_bytes_at(bytes: &[u8], start_addr: u32, real_pc: u32) -> (r: Result<Vec<(u32, String)>, String>)
    ensures
        listing_view(r) == decode_outcome(m68k_decode(bytes@, start_addr as u64), start_addr, real_pc),
{
    proof {
        reveal_strlit("Disassembly error: ");
    }
    let d = match m68k_disassembler() {
        Ok(d) => d,
        Err(e) => {
            let mut m = String::new();
            push_str(&mut m, "Capstone error: ");
            push_str(&mut m, e.as_str());
            return Err(m);
        },
    };
    match disasm_all(&d, bytes, start_addr as u64) {
        Ok(insns) => listing(&insns, start_addr, real_pc),
        Err(e) => {
            let mut m = String::new();
            push_str(&mut m, "Disassembly error: ");
            push_str(&mut m, e.as_str());
            Err(m)
        },
    }
}

/// Where the code to list comes from.
pub enum CodeSource {
    /// The cached code bytes start at the address.
    Cached,
    /// Read from this host address.
    Host(usize),
    /// Nothing to decode, and why.
    Missing(String),
}

/// The first region containing `addr`, if any.
pub open spec fn containing_region(regions: Seq<crate::memory::MemoryRegion>, addr: u32, from: int) -> Option<int>
    decreases regions.len() - from,
{
    if from < 0 || from >= regions.len() {
        None
    } else if regions[from].addr_start <= addr && addr <= regions[from].addr_end {
        Some(from)
    } else {
        containing_region(regions, addr, from + 1)
    }
}

/// Where the listing at `focus` reads its code: the cached bytes when they
/// start there; else the first memory region containing `focus`, at the
/// host address it maps `focus` to; else why there is nothing.
pub fn code_source(ds: &DebugState, focus: u32) -> (src: CodeSource)
    requires
        crate::debug_state::regions_addressable(ds.memory_regions@, focus as usize),
    ensures
        (ds.m68k_code_bytes@.len() > 0 && ds.m68k_code_start == focus) ==> src is Cached,
        !(ds.m68k_code_bytes@.len() > 0 && ds.m68k_code_start == focus) ==> if ds.memory_regions@.len() == 0 {
            src matches CodeSource::Missing(m) && m@ == "No code bytes \u{2014} core does not expose memory via SekFetchByte or SET_MEMORY_MAPS"@
        } else {
            match containing_region(ds.memory_regions@, focus, 0) {
                None => src matches CodeSource::Missing(m) && m@ == "Address $"@ + hex(focus as nat, 6)
                    + " outside all memory regions"@,
                Some(k) => if ds.memory_regions@[k].host_addr_fits(focus as usize) {
                    src == CodeSource::Host(ds.memory_regions@[k].host_addr(focus as usize) as usize)
                } else {
                    src matches CodeSource::Missing(m) && m@ == "Cannot translate focus address"@
                },
            }
        },
{
    if ds.m68k_code_bytes.len() > 0 && ds.m68k_code_start == focus {
        return CodeSource::Cached;
    }
    proof {
        reveal_strlit("No code bytes \u{2014} core does not expose memory via SekFetchByte or SET_MEMORY_MAPS");
        reveal_strlit("Address $");
        reveal_strlit(" outside all memory regions");
        reveal_strlit("Cannot translate focus address");
        reveal_strlit("0");
    }
    if ds.memory_regions.len() == 0 {
        let mut m = String::new();
        push_str(&mut m, "No code bytes \u{2014} core does not expose memory via SekFetchByte or SET_MEMORY_MAPS");
        return CodeSource::Missing(m);
    }
    let mut i: usize = 0;
    while i < ds.memory_regions.len()
        invariant
            i <= ds.memory_regions@.len(),
            !(ds.m68k_code_bytes@.len() > 0 && ds.m68k_code_start == focus),
            ds.memory_regions@.len() > 0,
            crate::debug_state::regions_addressable(ds.memory_regions@, focus as usize),
            containing_region(ds.memory_regions@, focus, 0) == containing_region(ds.memory_regions@, focus, i as int),
        decreases ds.memory_regions@.len() - i,
    {
        let r = &ds.memory_regions[i];
        if r.addr_start <= focus as usize && focus as usize <= r.addr_end {
            assert(r.contains(focus as int));
            return match r.host_ptr_for_addr(focus as usize) {
                Some(h) => CodeSource::Host(h),
                None => {
                    let mut m = String::new();
                    push_str(&mut m, "Cannot translate focus address");
                    CodeSource::Missing(m)
                },
            };
        }
        i += 1;
    }
    let mut m = String::new();
    push_str(&mut m, "Address $");
    push_padded(&mut m, focus as u64, 16, 6, "0");
    push_str(&mut m, " outside all memory regions");
    CodeSource::Missing(m)
}

/// How many breakpoints can be set at once.
pub const MAX_BREAKPOINTS: usize = 8;

proof fn lemma_filter_out_absent(b: Seq<u32>, addr: u32)
    requires
        !b.contains(addr),
    ensures
        b.filter(|a: u32| a != addr) == b,
    decreases b.len(),
{
    reveal(Seq::filter);
    if b.len() > 0 {
        assert(!b.drop_last().contains(addr)) by {
            if b.drop_last().contains(addr) {
                let j = choose|j: int| 0 <= j < b.drop_last().len() && b.drop_last()[j] == addr;
                assert(b[j] == addr);
            }
        }
        lemma_filter_out_absent(b.drop_last(), addr);
        assert(b.last() != addr) by {
            assert(b[b.len() - 1] == b.last());
        }
        assert(b.drop_last().push(b.last()) =~= b);
    }
}

/// Toggling a breakpoint twice restores the set: an address not set, with
/// room for one more, is set by the first toggle and cleared by the second.
pub proof fn lemma_toggle_twice_restores(b: Seq<u32>, addr: u32)
    requires
        !b.contains(addr),
        b.len() < MAX_BREAKPOINTS,
    ensures
        b.push(addr).contains(addr),
        b.push(addr).filter(|a: u32| a != addr) == b,
{
    assert(b.push(addr)[b.len() as int] == addr);
    reveal(Seq::filter);
    assert(b.push(addr).drop_last() =~= b);
    lemma_filter_out_absent(b, addr);
}

/// Toggle a breakpoint: clear every breakpoint at `addr` if there is one,
/// else set one unless [`MAX_BREAKPOINTS`] are already set.
pub fn toggle_breakpoint(bps: &mut Vec<u32>, addr: u32)
    ensures
        old(bps)@.contains(addr) ==> final(bps)@ == old(bps)@.filter(|a: u32| a != addr),
        !old(bps)@.contains(addr) && old(bps)@.len() < 8 ==> final(bps)@ == old(bps)@.push(addr),
        !old(bps)@.contains(addr) && old(bps)@.len() >= 8 ==> final(bps)@ == old(bps)@,
{
    let ghost orig = bps@;
    let mut found = false;
    let mut i: usize = 0;
    while i < bps.len()
        invariant
            bps@ == orig,
            i <= orig.len(),
            found == exists|j: int| 0 <= j < i && orig[j] == addr,
        decreases orig.len() - i,
    {
        if bps[i] == addr {
            found = true;
        }
        i += 1;
    }
    if found {
        let mut kept: Vec<u32> = Vec::new();
        let mut k: usize = 0;
        proof {
            assert(orig.take(0).filter(|a: u32| a != addr) =~= Seq::<u32>::empty()) by {
                reveal(Seq::filter);
            }
        }
        while k < bps.len()
            invariant
                bps@ == orig,
                k <= orig.len(),
                kept@ == orig.take(k as int).filter(|a: u32| a != addr),
            decreases orig.len() - k,
        {
            proof {
                reveal(Seq::filter);
                assert(orig.take(k + 1).drop_last() =~= orig.take(k as int));
            }
            if bps[k] != addr {
                kept.push(bps[k]);
            }
            k += 1;
        }
        proof {
            assert(orig.take(orig.len() as int) =~= orig);
        }
        *bps = kept;
    } else if bps.len() < MAX_BREAKPOINTS {
        bps.push(addr);
    }
}

/// Run until the PC reaches `addr`: the target is set and execution resumes.
pub fn run_to(ds: &mut DebugState, addr: u32)
    ensures
        final(ds).run_to_addr == Some(addr),
        !final(ds).paused,
        final(ds).breakpoints@ == old(ds).breakpoints@,
        final(ds).hit_breakpoint == old(ds).hit_breakpoint,
{
    ds.run_to_addr = Some(addr);
    ds.paused = false;
}

/// The pause button: pausing or resuming clears a breakpoint hit.
pub fn toggle_pause(ds: &mut DebugState)
    ensures
        final(ds).paused == !old(ds).paused,
        final(ds).hit_breakpoint is None,
        final(ds).run_to_addr == old(ds).run_to_addr,
{
    ds.paused = !ds.paused;
    ds.hit_breakpoint = None;
}

/// Indices of the regions whose banner heads the line at `addr`: those that
/// start there (and so contain it), in region order.
pub fn banners_at(regions: &Vec<CodeRegion>, addr: u32) -> (v: Vec<usize>)
    ensures
        forall|j: int| 0 <= j < v@.len() ==> (#[trigger] v@[j]) < regions@.len() && regions@[v@[j] as int].addr_start == addr
            && addr <= regions@[v@[j] as int].addr_end,
        forall|k: int| 0 <= k < regions@.len() && (#[trigger] regions@[k]).addr_start == addr && addr <= regions@[k].addr_end
            ==> v@.contains(k as usize),
        forall|a: int, b: int| 0 <= a < b < v@.len() ==> v@[a] < v@[b],
{
    let mut v: Vec<usize> = Vec::new();
    let mut i: usize = 0;
    while i < regions.len()
        invariant
            i <= regions@.len(),
            forall|j: int| 0 <= j < v@.len() ==> (#[trigger] v@[j]) < i && regions@[v@[j] as int].addr_start == addr
                && addr <= regions@[v@[j] as int].addr_end,
            forall|k: int| 0 <= k < i && (#[trigger] regions@[k]).addr_start == addr && addr <= regions@[k].addr_end
                ==> v@.contains(k as usize),
            forall|a: int, b: int| 0 <= a < b < v@.len() ==> v@[a] < v@[b],
        decreases regions@.len() - i,
    {
        if regions[i].addr_start <= addr && addr <= regions[i].addr_end && addr == regions[i].addr_start {
            let ghost old_v = v@;
            v.push(i);
            proof {
                assert(v@[v@.len() - 1] == i);
                assert forall|k: int| 0 <= k < i + 1 && (#[trigger] regions@[k]).addr_start == addr && addr <= regions@[k].addr_end
                    implies v@.contains(k as usize) by {
                    if k < i {
                        let j = choose|j: int| 0 <= j < old_v.len() && old_v[j] == k as usize;
                        assert(v@[j] == old_v[j]);
                    } else {
                        assert(v@[v@.len() - 1] == k as usize);
                    }
                }
            }
        }
        i += 1;
    }
    v
}

/// The pending label-a-range form: the range's first address, the end
/// address as typed, and the label as typed.
pub struct LabelForm {
    pub start: u32,
    pub end_text: String,
    pub label: String,
}

/// The disassembly panel's state.
pub struct Disassembly {
    pub pending_label: Option<LabelForm>,
}

impl Disassembly {
    pub fn new() -> (d: Self)
        ensures
            d.pending_label is None,
    {
        Disassembly { pending_label: None }
    }

    /// Open the label form at `addr`, the end proposed 31 bytes on.
    pub fn begin_label(&mut self, addr: u32)
        ensures
            final(self).pending_label matches Some(f) && f.start == addr && f.end_text@ == hex(
                (if addr as int + 31 > u32::MAX { u32::MAX as int } else { addr + 31 }) as nat,
                6,
            ) && f.label@.len() == 0,
    {
        proof {
            reveal_strlit("0");
        }
        let end = addr.saturating_add(31);
        let mut t = String::new();
        push_padded(&mut t, end as u64, 16, 6, "0");
        self.pending_label = Some(LabelForm { start: addr, end_text: t, label: String::new() });
    }
}

/// The end of a labeled range: the typed end read as hexadecimal after any
/// leading `0x`s, or 31 bytes after the start when it does not read.
pub open spec fn label_end(start: u32, end_text: Seq<char>) -> u32 {
    match parse_unsigned(strip_0x(end_text), 16, u32::MAX as nat) {
        Some(v) => v as u32,
        None => if start as int + 31 > u32::MAX { u32::MAX } else { (start + 31) as u32 },
    }
}

/// The region the form adds, in the chosen color; `None` while the label is
/// empty (the button is disabled then).
pub fn form_region(form: &LabelForm, color: [u8; 3]) -> (r: Option<CodeRegion>)
    ensures
        form.label@.len() == 0 ==> r is None,
        form.label@.len() > 0 ==> (r matches Some(c) && c.label@ == form.label@ && c.addr_start == form.start
            && c.addr_end == label_end(form.start, form.end_text@) && c.color == color && c.notes@.len() == 0),
{
    if form.label.as_str().unicode_len() == 0 {
        return None;
    }
    let s = form.end_text.as_str();
    let n = s.unicode_len();
    let mut i: usize = 0;
    proof {
        assert(s@.skip(0) =~= s@);
    }
    while n - i >= 2 && s.get_char(i) == '0' && s.get_char(i + 1) == 'x'
        invariant
            n == s@.len(),
            i <= n,
            strip_0x(s@.skip(i as int)) == strip_0x(s@),
        decreases n - i,
    {
        proof {
            assert(s@.skip(i as int).skip(2) =~= s@.skip(i + 2));
        }
        i += 2;
    }
    proof {
        assert(s@.subrange(i as int, n as int) =~= s@.skip(i as int));
    }
    let end = match parse_unsigned_in(s, i, n, 16, 0xFFFF_FFFF) {
        Some(v) => v as u32,
        None => form.start.saturating_add(31),
    };
    Some(CodeRegion {
        label: clone_string(&form.label),
        addr_start: form.start,
        addr_end: end,
        color,
        notes: String::new(),
    })
}

} // verus!
