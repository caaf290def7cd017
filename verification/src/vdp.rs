//! Sega Genesis VDP register decoder: the 24 registers $00-$17 rendered as
//! human-readable bitfield descriptions.
use vstd::prelude::*;
use crate::fmt::{bin, dec, hex, push_bin, push_dec, push_hex, push_str};
use crate::text::{join, join_strs, occurs_in, views};

verus! {

/// Whether bit `b` of `v` is set.
pub open spec fn bit(v: u8, b: u8) -> bool {
    v & (1u8 << b) != 0
}

/// A one-element list when `c` holds, else empty.
pub open spec fn when(c: bool, p: &'static str) -> Seq<&'static str> {
    if c { seq![p] } else { Seq::empty() }
}

/// One of two texts depending on `c`.
pub open spec fn either(c: bool, yes: &'static str, no: &'static str) -> Seq<&'static str> {
    if c { seq![yes] } else { seq![no] }
}

/// The fields listed for Mode Register 1 ($00).
pub open spec fn mode1_parts(v: u8) -> Seq<&'static str> {
    when(bit(v, 5), "Freeze HV counter")
        + either(bit(v, 4), "HINT enable", "HINT disable")
        + when(bit(v, 3), "Palette: M5=0 palettes")
        + when(bit(v, 2), "HV latch enable")
        + either(bit(v, 1), "SMS/GG mode", "Megadrive mode")
        + when(bit(v, 0), "SMS display disable")
}

/// The fields listed for Mode Register 2 ($01).
pub open spec fn mode2_parts(v: u8) -> Seq<&'static str> {
    when(bit(v, 7), "128KB VRAM")
        + either(bit(v, 6), "Display ON", "Display OFF")
        + either(bit(v, 5), "VINT enable", "VINT disable")
        + either(bit(v, 4), "DMA enable", "DMA disable")
        + either(bit(v, 3), "V30 (PAL 240 lines)", "V28 (NTSC 224 lines)")
        + when(bit(v, 2), "M2 set")
        + either(bit(v, 1), "M5/Genesis mode", "SMS mode")
}

/// Vertical scroll mode of Mode Register 3.
pub open spec fn vscroll_text(v: u8) -> &'static str {
    if (v >> 2u8) & 1 == 0 { "VScroll: full screen" } else { "VScroll: per 2-cell column" }
}

/// Horizontal scroll mode of Mode Register 3.
pub open spec fn hscroll_text(v: u8) -> &'static str {
    let m = v & 3;
    if m == 0 {
        "HScroll: full screen"
    } else if m == 2 {
        "HScroll: per cell (row)"
    } else if m == 3 {
        "HScroll: per line"
    } else {
        "HScroll: prohibited"
    }
}

/// The fields listed for Mode Register 3 ($0B).
pub open spec fn mode3_parts(v: u8) -> Seq<&'static str> {
    either(bit(v, 3), "EXT int enable", "EXT int disable") + seq![vscroll_text(v), hscroll_text(v)]
}

/// Horizontal resolution of Mode Register 4: RS0 or RS1 selects H40.
pub open spec fn hres_text(v: u8) -> &'static str {
    if bit(v, 7) || bit(v, 0) { "H40 (320px)" } else { "H32 (256px)" }
}

/// Shadow/highlight mode of Mode Register 4.
pub open spec fn shadow_text(v: u8) -> &'static str {
    let m = (v >> 3u8) & 3;
    if m == 0 {
        "S/H: off"
    } else if m == 1 {
        "S/H: Shadow/Highlight ON"
    } else if m == 2 {
        "S/H: extended (split screen)"
    } else {
        "S/H: reserved"
    }
}

/// Interlace mode of Mode Register 4.
pub open spec fn interlace_text(v: u8) -> &'static str {
    let m = (v >> 1u8) & 3;
    if m == 0 {
        "Interlace: off"
    } else if m == 1 {
        "Interlace: mode 1 (double resolution V)"
    } else if m == 3 {
        "Interlace: mode 2 (double resolution sprites)"
    } else {
        "Interlace: reserved"
    }
}

/// The fields listed for Mode Register 4 ($0C).
pub open spec fn mode4_parts(v: u8) -> Seq<&'static str> {
    seq![hres_text(v), shadow_text(v), interlace_text(v)]
}

/// Scroll-plane dimension for a 2-bit size field.
pub open spec fn plane_dim_text(f: u8) -> &'static str {
    if f == 0 {
        "32 cells"
    } else if f == 1 {
        "64 cells"
    } else if f == 3 {
        "128 cells"
    } else {
        "prohibited"
    }
}

/// DMA operation selected by the top two bits of register $17.
pub open spec fn dma_type_text(v: u8) -> &'static str {
    let m = (v >> 6u8) & 3;
    if m == 0 || m == 1 {
        "DMA: 68K->VDP memory transfer"
    } else if m == 2 {
        "DMA: VRAM fill"
    } else {
        "DMA: VRAM copy"
    }
}

/// "Mode N: " followed by the listed fields, or "all disabled" when none.
pub open spec fn mode_text(prefix: &'static str, parts: Seq<&'static str>) -> Seq<char> {
    prefix@ + if parts.len() == 0 { "all disabled"@ } else { join(views(parts), ", "@) }
}

/// The description of register `index` holding `value`.
pub open spec fn vdp_register_text(index: nat, value: u8) -> Seq<char> {
    let v = value;
    if index == 0 {
        mode_text("Mode 1: ", mode1_parts(v))
    } else if index == 1 {
        "Mode 2: "@ + join(views(mode2_parts(v)), ", "@)
    } else if index == 2 {
        let bits = ((v >> 3u8) & 7) as nat;
        "Plane A nametable: VRAM $"@ + hex(bits * 0x2000, 4) + "  (raw bits[5:3]="@ + bin(bits, 3)
            + ")"@
    } else if index == 3 {
        "Window nametable: H40 VRAM $"@ + hex((((v >> 1u8) & 0x3F) as nat) * 0x400, 4)
            + " / H32 VRAM $"@ + hex((((v >> 1u8) & 0x1F) as nat) * 0x800, 4)
    } else if index == 4 {
        let bits = (v & 7) as nat;
        "Plane B nametable: VRAM $"@ + hex(bits * 0x2000, 4) + "  (raw bits[2:0]="@ + bin(bits, 3)
            + ")"@
    } else if index == 5 {
        "Sprite table: H40 VRAM $"@ + hex(((v & 0x7F) as nat) * 0x200, 4) + " / H32 VRAM $"@
            + hex(((v & 0x3F) as nat) * 0x200, 4)
    } else if index == 6 {
        "Sprite tile base: $"@ + hex(v as nat, 2) + "  (reserved — typically $00)"@
    } else if index == 7 {
        let pal = ((v >> 4u8) & 3) as nat;
        let idx = (v & 0xF) as nat;
        "BG color: palette "@ + dec(pal) + " entry "@ + dec(idx) + "  (CRAM offset $"@ + hex(
            pal * 16 + idx,
            2,
        ) + ")"@
    } else if index == 8 {
        "Unused (SMS HScroll): $"@ + hex(v as nat, 2)
    } else if index == 9 {
        "Unused (SMS VScroll): $"@ + hex(v as nat, 2)
    } else if index == 10 {
        "HINT counter: "@ + dec(v as nat) + " (interrupt every "@ + dec(v as nat + 1)
            + " scanlines)"@
    } else if index == 11 {
        "Mode 3: "@ + join(views(mode3_parts(v)), ", "@)
    } else if index == 12 {
        "Mode 4: "@ + join(views(mode4_parts(v)), ", "@)
    } else if index == 13 {
        let bits = (v & 0x3F) as nat;
        "HScroll table: VRAM $"@ + hex(bits * 0x400, 4) + "  (bits[5:0]="@ + bin(bits, 6) + ")"@
    } else if index == 14 {
        "Nametable pattern base: $"@ + hex(v as nat, 2) + "  (usually $00)"@
    } else if index == 15 {
        "Auto-increment: "@ + dec(v as nat) + " ($"@ + hex(v as nat, 2)
            + ")  — added to VRAM addr after each data port access"@
    } else if index == 16 {
        "Plane size: H="@ + plane_dim_text(v & 3)@ + " V="@ + plane_dim_text((v >> 4u8) & 3)@
    } else if index == 17 {
        "Window H: display from "@ + (if bit(v, 7) { "right"@ } else { "left"@ }) + " at cell "@
            + dec(((v & 0x1F) as nat) * 2) + " ($"@ + hex((v & 0x1F) as nat, 2) + "*2)"@
    } else if index == 18 {
        "Window V: display "@ + (if bit(v, 7) { "below"@ } else { "above"@ }) + " scanline-row "@
            + dec((v & 0x1F) as nat) + " ($"@ + hex((v & 0x1F) as nat, 2) + ")"@
    } else if index == 19 {
        "DMA length low:  $"@ + hex(v as nat, 2)
            + "  (combined with reg $14 for full 16-bit length)"@
    } else if index == 20 {
        "DMA length high: $"@ + hex(v as nat, 2)
            + "  (combined with reg $13: total words = reg14<<8 | reg13)"@
    } else if index == 21 {
        "DMA src addr low:  $"@ + hex(v as nat, 2) + "  (bits [7:0] of source >> 1)"@
    } else if index == 22 {
        "DMA src addr mid:  $"@ + hex(v as nat, 2) + "  (bits [15:8] of source >> 1)"@
    } else if index == 23 {
        "DMA src high: $"@ + hex((v & 0x7F) as nat, 2) + "  (bits [22:16] of source >> 1)  — "@
            + dma_type_text(v)@
    } else {
        "Unknown register $"@ + hex(index, 2) + ": $"@ + hex(v as nat, 2)
    }
}

proof fn lemma_bit_is_mask(v: u8)
    ensures
        bit(v, 0) == (v & 1 != 0),
        bit(v, 1) == (v & 2 != 0),
        bit(v, 2) == (v & 4 != 0),
        bit(v, 3) == (v & 8 != 0),
        bit(v, 4) == (v & 16 != 0),
        bit(v, 5) == (v & 32 != 0),
        bit(v, 6) == (v & 64 != 0),
        bit(v, 7) == (v & 128 != 0),
{
    assert(1u8 << 0u8 == 1 && 1u8 << 1u8 == 2 && 1u8 << 2u8 == 4 && 1u8 << 3u8 == 8 && 1u8 << 4u8
        == 16 && 1u8 << 5u8 == 32 && 1u8 << 6u8 == 64 && 1u8 << 7u8 == 128) by (bit_vector);
}

fn push_part(parts: &mut Vec<&'static str>, p: &'static str)
    ensures
        final(parts)@ == old(parts)@ + seq![p],
{
    parts.push(p);
    assert(parts@ =~= old(parts)@ + seq![p]);
}

fn mode1(v: u8) -> (s: String)
    ensures
        s@ == vdp_register_text(0, v),
{
    proof { lemma_bit_is_mask(v); }
    let mut parts: Vec<&'static str> = Vec::new();
    let ghost p0 = parts@;
    if v & 32 != 0 { push_part(&mut parts, "Freeze HV counter"); }
    let ghost p1 = parts@;
    if v & 16 != 0 { push_part(&mut parts, "HINT enable"); } else { push_part(&mut parts, "HINT disable"); }
    let ghost p2 = parts@;
    if v & 8 != 0 { push_part(&mut parts, "Palette: M5=0 palettes"); }
    let ghost p3 = parts@;
    if v & 4 != 0 { push_part(&mut parts, "HV latch enable"); }
    let ghost p4 = parts@;
    if v & 2 != 0 { push_part(&mut parts, "SMS/GG mode"); } else { push_part(&mut parts, "Megadrive mode"); }
    let ghost p5 = parts@;
    if v & 1 != 0 { push_part(&mut parts, "SMS display disable"); }
    assert(parts@ =~= mode1_parts(v));
    let mut s = String::new();
    push_str(&mut s, "Mode 1: ");
    if parts.len() == 0 {
        push_str(&mut s, "all disabled");
    } else {
        let j = join_strs(&parts, ", ");
        push_str(&mut s, j.as_str());
    }
    assert(s@ =~= vdp_register_text(0, v));
    s
}

fn mode2(v: u8) -> (s: String)
    ensures
        s@ == vdp_register_text(1, v),
{
    proof { lemma_bit_is_mask(v); }
    let mut parts: Vec<&'static str> = Vec::new();
    if v & 128 != 0 { push_part(&mut parts, "128KB VRAM"); }
    if v & 64 != 0 { push_part(&mut parts, "Display ON"); } else { push_part(&mut parts, "Display OFF"); }
    if v & 32 != 0 { push_part(&mut parts, "VINT enable"); } else { push_part(&mut parts, "VINT disable"); }
    if v & 16 != 0 { push_part(&mut parts, "DMA enable"); } else { push_part(&mut parts, "DMA disable"); }
    if v & 8 != 0 {
        push_part(&mut parts, "V30 (PAL 240 lines)");
    } else {
        push_part(&mut parts, "V28 (NTSC 224 lines)");
    }
    if v & 4 != 0 { push_part(&mut parts, "M2 set"); }
    if v & 2 != 0 { push_part(&mut parts, "M5/Genesis mode"); } else { push_part(&mut parts, "SMS mode"); }
    assert(parts@ =~= mode2_parts(v));
    let mut s = String::new();
    push_str(&mut s, "Mode 2: ");
    let j = join_strs(&parts, ", ");
    push_str(&mut s, j.as_str());
    assert(s@ =~= vdp_register_text(1, v));
    s
}

fn mode3(v: u8) -> (s: String)
    ensures
        s@ == vdp_register_text(11, v),
{
    proof { lemma_bit_is_mask(v); }
    let mut parts: Vec<&'static str> = Vec::new();
    if v & 8 != 0 { push_part(&mut parts, "EXT int enable"); } else { push_part(&mut parts, "EXT int disable"); }
    let vs = if (v >> 2) & 1 == 0 { "VScroll: full screen" } else { "VScroll: per 2-cell column" };
    push_part(&mut parts, vs);
    let m = v & 3;
    let hs = if m == 0 {
        "HScroll: full screen"
    } else if m == 2 {
        "HScroll: per cell (row)"
    } else if m == 3 {
        "HScroll: per line"
    } else {
        "HScroll: prohibited"
    };
    push_part(&mut parts, hs);
    assert(parts@ =~= mode3_parts(v));
    let mut s = String::new();
    push_str(&mut s, "Mode 3: ");
    let j = join_strs(&parts, ", ");
    push_str(&mut s, j.as_str());
    assert(s@ =~= vdp_register_text(11, v));
    s
}

fn mode4(v: u8) -> (s: String)
    ensures
        s@ == vdp_register_text(12, v),
{
    proof { lemma_bit_is_mask(v); }
    let mut parts: Vec<&'static str> = Vec::new();
    let h = if (v & 128 != 0) || (v & 1 != 0) { "H40 (320px)" } else { "H32 (256px)" };
    push_part(&mut parts, h);
    let m = (v >> 3) & 3;
    let sh = if m == 0 {
        "S/H: off"
    } else if m == 1 {
        "S/H: Shadow/Highlight ON"
    } else if m == 2 {
        "S/H: extended (split screen)"
    } else {
        "S/H: reserved"
    };
    push_part(&mut parts, sh);
    let i = (v >> 1) & 3;
    let il = if i == 0 {
        "Interlace: off"
    } else if i == 1 {
        "Interlace: mode 1 (double resolution V)"
    } else if i == 3 {
        "Interlace: mode 2 (double resolution sprites)"
    } else {
        "Interlace: reserved"
    };
    push_part(&mut parts, il);
    assert(parts@ =~= mode4_parts(v));
    let mut s = String::new();
    push_str(&mut s, "Mode 4: ");
    let j = join_strs(&parts, ", ");
    push_str(&mut s, j.as_str());
    assert(s@ =~= vdp_register_text(12, v));
    s
}

fn plane_dim(f: u8) -> (t: &'static str)
    ensures
        t == plane_dim_text(f),
{
    if f == 0 {
        "32 cells"
    } else if f == 1 {
        "64 cells"
    } else if f == 3 {
        "128 cells"
    } else {
        "prohibited"
    }
}

fn address_register(index: usize, v: u8) -> (s: String)
    requires
        index == 2 || index == 3 || index == 4 || index == 5 || index == 13,
    ensures
        s@ == vdp_register_text(index as nat, v),
{
    let mut s = String::new();
    if index == 2 {
        let bits = (v >> 3) & 7;
        assert((v >> 3u8) & 7 <= 7) by (bit_vector);
        push_str(&mut s, "Plane A nametable: VRAM $");
        push_hex(&mut s, bits as u64 * 0x2000, 4);
        push_str(&mut s, "  (raw bits[5:3]=");
        push_bin(&mut s, bits as u64, 3);
        push_str(&mut s, ")");
    } else if index == 3 {
        let a = (v >> 1) & 0x3F;
        let b = (v >> 1) & 0x1F;
        assert((v >> 1u8) & 0x3F <= 0x3F && (v >> 1u8) & 0x1F <= 0x1F) by (bit_vector);
        push_str(&mut s, "Window nametable: H40 VRAM $");
        push_hex(&mut s, a as u64 * 0x400, 4);
        push_str(&mut s, " / H32 VRAM $");
        push_hex(&mut s, b as u64 * 0x800, 4);
    } else if index == 4 {
        let bits = v & 7;
        push_str(&mut s, "Plane B nametable: VRAM $");
        push_hex(&mut s, bits as u64 * 0x2000, 4);
        push_str(&mut s, "  (raw bits[2:0]=");
        push_bin(&mut s, bits as u64, 3);
        push_str(&mut s, ")");
    } else if index == 5 {
        push_str(&mut s, "Sprite table: H40 VRAM $");
        push_hex(&mut s, (v & 0x7F) as u64 * 0x200, 4);
        push_str(&mut s, " / H32 VRAM $");
        push_hex(&mut s, (v & 0x3F) as u64 * 0x200, 4);
    } else {
        let bits = v & 0x3F;
        push_str(&mut s, "HScroll table: VRAM $");
        push_hex(&mut s, bits as u64 * 0x400, 4);
        push_str(&mut s, "  (bits[5:0]=");
        push_bin(&mut s, bits as u64, 6);
        push_str(&mut s, ")");
    }
    assert(s@ =~= vdp_register_text(index as nat, v));
    s
}

fn byte_register(index: usize, v: u8) -> (s: String)
    requires
        index == 6 || index == 8 || index == 9 || index == 14 || (19 <= index <= 22),
    ensures
        s@ == vdp_register_text(index as nat, v),
{
    let mut s = String::new();
    let (pre, post) = if index == 6 {
        ("Sprite tile base: $", "  (reserved — typically $00)")
    } else if index == 8 {
        ("Unused (SMS HScroll): $", "")
    } else if index == 9 {
        ("Unused (SMS VScroll): $", "")
    } else if index == 14 {
        ("Nametable pattern base: $", "  (usually $00)")
    } else if index == 19 {
        ("DMA length low:  $", "  (combined with reg $14 for full 16-bit length)")
    } else if index == 20 {
        ("DMA length high: $", "  (combined with reg $13: total words = reg14<<8 | reg13)")
    } else if index == 21 {
        ("DMA src addr low:  $", "  (bits [7:0] of source >> 1)")
    } else {
        ("DMA src addr mid:  $", "  (bits [15:8] of source >> 1)")
    };
    push_str(&mut s, pre);
    push_hex(&mut s, v as u64, 2);
    push_str(&mut s, post);
    proof {
        reveal_strlit("");
        assert(s@ =~= vdp_register_text(index as nat, v));
    }
    s
}

fn misc_register(index: usize, v: u8) -> (s: String)
    requires
        index == 7 || index == 10 || index == 15 || (16 <= index <= 18) || index == 23,
    ensures
        s@ == vdp_register_text(index as nat, v),
{
    proof { lemma_bit_is_mask(v); }
    let mut s = String::new();
    if index == 7 {
        let pal = (v >> 4) & 3;
        let idx = v & 0xF;
        assert((v >> 4u8) & 3 <= 3 && v & 0xF <= 15) by (bit_vector);
        push_str(&mut s, "BG color: palette ");
        push_dec(&mut s, pal as u64);
        push_str(&mut s, " entry ");
        push_dec(&mut s, idx as u64);
        push_str(&mut s, "  (CRAM offset $");
        push_hex(&mut s, (pal * 16 + idx) as u64, 2);
        push_str(&mut s, ")");
    } else if index == 10 {
        push_str(&mut s, "HINT counter: ");
        push_dec(&mut s, v as u64);
        push_str(&mut s, " (interrupt every ");
        push_dec(&mut s, v as u64 + 1);
        push_str(&mut s, " scanlines)");
    } else if index == 15 {
        push_str(&mut s, "Auto-increment: ");
        push_dec(&mut s, v as u64);
        push_str(&mut s, " ($");
        push_hex(&mut s, v as u64, 2);
        push_str(&mut s, ")  — added to VRAM addr after each data port access");
    } else if index == 16 {
        push_str(&mut s, "Plane size: H=");
        push_str(&mut s, plane_dim(v & 3));
        push_str(&mut s, " V=");
        push_str(&mut s, plane_dim((v >> 4) & 3));
    } else if index == 17 {
        let dir = if v & 128 != 0 { "right" } else { "left" };
        let f = v & 0x1F;
        assert(v & 0x1F <= 0x1F) by (bit_vector);
        push_str(&mut s, "Window H: display from ");
        push_str(&mut s, dir);
        push_str(&mut s, " at cell ");
        push_dec(&mut s, f as u64 * 2);
        push_str(&mut s, " ($");
        push_hex(&mut s, f as u64, 2);
        push_str(&mut s, "*2)");
    } else if index == 18 {
        let dir = if v & 128 != 0 { "below" } else { "above" };
        let f = v & 0x1F;
        push_str(&mut s, "Window V: display ");
        push_str(&mut s, dir);
        push_str(&mut s, " scanline-row ");
        push_dec(&mut s, f as u64);
        push_str(&mut s, " ($");
        push_hex(&mut s, f as u64, 2);
        push_str(&mut s, ")");
    } else {
        let m = (v >> 6) & 3;
        let t = if m == 0 || m == 1 {
            "DMA: 68K->VDP memory transfer"
        } else if m == 2 {
            "DMA: VRAM fill"
        } else {
            "DMA: VRAM copy"
        };
        push_str(&mut s, "DMA src high: $");
        push_hex(&mut s, (v & 0x7F) as u64, 2);
        push_str(&mut s, "  (bits [22:16] of source >> 1)  — ");
        push_str(&mut s, t);
    }
    assert(s@ =~= vdp_register_text(index as nat, v));
    s
}

proof fn lemma_parts_occur(head: Seq<char>, ps: Seq<Seq<char>>, sep: Seq<char>)
    requires
        ps.len() == 3,
    ensures
        occurs_in(head + join(ps, sep), ps[0]),
        occurs_in(head + join(ps, sep), ps[1]),
        occurs_in(head + join(ps, sep), ps[2]),
{
    let (p0, p1, p2) = (ps[0], ps[1], ps[2]);
    assert(ps.take(2).drop_last() =~= ps.take(1));
    assert(ps.drop_last() =~= ps.take(2));
    assert(join(ps.take(1), sep) == p0);
    assert(join(ps.take(2), sep) == p0 + sep + p1);
    let text = head + join(ps, sep);
    assert(text =~= head + p0 + sep + p1 + sep + p2);
    let a = head;
    let b = head + p0 + sep;
    let c = head + p0 + sep + p1 + sep;
    assert(text.subrange(a.len() as int, (a.len() + p0.len()) as int) =~= p0);
    assert(text.subrange(b.len() as int, (b.len() + p1.len()) as int) =~= p1);
    assert(text.subrange(c.len() as int, (c.len() + p2.len()) as int) =~= p2);
}

proof fn lemma_mode4_text_has_shadow_part(v: u8)
    ensures
        occurs_in(vdp_register_text(12, v), hres_text(v)@),
        occurs_in(vdp_register_text(12, v), shadow_text(v)@),
        occurs_in(vdp_register_text(12, v), interlace_text(v)@),
{
    let ps = views(mode4_parts(v));
    lemma_parts_occur("Mode 4: "@, ps, ", "@);
    assert(ps[0] == hres_text(v)@ && ps[1] == shadow_text(v)@ && ps[2] == interlace_text(v)@);
}

/// Register $0C's shadow/highlight field is bits 4:3: 00 shows it off, 01
/// shows "Shadow/Highlight ON", 10 the extended (split screen) mode and 11
/// "reserved".
pub proof fn lemma_mode4_shadow_field(v: u8)
    ensures
        v & 0x18 == 0x00 ==> occurs_in(vdp_register_text(12, v), "S/H: off"@),
        v & 0x18 == 0x08 ==> occurs_in(vdp_register_text(12, v), "S/H: Shadow/Highlight ON"@),
        v & 0x18 == 0x10 ==> occurs_in(vdp_register_text(12, v), "S/H: extended (split screen)"@),
        v & 0x18 == 0x18 ==> occurs_in(vdp_register_text(12, v), "S/H: reserved"@),
{
    lemma_mode4_text_has_shadow_part(v);
    assert(v & 0x18 == 0x00 ==> (v >> 3u8) & 3 == 0) by (bit_vector);
    assert(v & 0x18 == 0x08 ==> (v >> 3u8) & 3 == 1) by (bit_vector);
    assert(v & 0x18 == 0x10 ==> (v >> 3u8) & 3 == 2) by (bit_vector);
    assert(v & 0x18 == 0x18 ==> (v >> 3u8) & 3 == 3) by (bit_vector);
}

/// Register $0C's other fields: bit 7 or bit 0 selects the 320-pixel H40
/// mode (else 256-pixel H32), and bits 2:1 the interlace mode (00 off, 01
/// mode 1, 11 mode 2, 10 reserved).
pub proof fn lemma_mode4_resolution_and_interlace(v: u8)
    ensures
        v & 0x81 != 0 ==> occurs_in(vdp_register_text(12, v), "H40 (320px)"@),
        v & 0x81 == 0 ==> occurs_in(vdp_register_text(12, v), "H32 (256px)"@),
        v & 0x06 == 0x00 ==> occurs_in(vdp_register_text(12, v), "Interlace: off"@),
        v & 0x06 == 0x02 ==> occurs_in(vdp_register_text(12, v), "Interlace: mode 1 (double resolution V)"@),
        v & 0x06 == 0x06 ==> occurs_in(vdp_register_text(12, v), "Interlace: mode 2 (double resolution sprites)"@),
        v & 0x06 == 0x04 ==> occurs_in(vdp_register_text(12, v), "Interlace: reserved"@),
{
    lemma_mode4_text_has_shadow_part(v);
    assert((v & 0x81 != 0) == (v & (1u8 << 7u8) != 0 || v & (1u8 << 0u8) != 0)) by (bit_vector);
    assert(v & 0x06 == 0x00 ==> (v >> 1u8) & 3 == 0) by (bit_vector);
    assert(v & 0x06 == 0x02 ==> (v >> 1u8) & 3 == 1) by (bit_vector);
    assert(v & 0x06 == 0x06 ==> (v >> 1u8) & 3 == 3) by (bit_vector);
    assert(v & 0x06 == 0x04 ==> (v >> 1u8) & 3 == 2) by (bit_vector);
}

/// Decode a single VDP register byte into a human-readable bitfield
/// description. `index` 0-23 names registers $00-$17; any other index is
/// reported as unknown. A register $0A counter of N interrupts every N + 1
/// scanlines.
pub fn decode_vdp_register(index: usize, value: u8) -> (s: String)
    ensures
        s@ == vdp_register_text(index as nat, value),
{
    if index == 0 {
        mode1(value)
    } else if index == 1 {
        mode2(value)
    } else if index == 11 {
        mode3(value)
    } else if index == 12 {
        mode4(value)
    } else if index == 2 || index == 3 || index == 4 || index == 5 || index == 13 {
        address_register(index, value)
    } else if index == 6 || index == 8 || index == 9 || index == 14 || (19 <= index && index <= 22) {
        byte_register(index, value)
    } else if index == 7 || index == 10 || index == 15 || (16 <= index && index <= 18) || index
        == 23 {
        misc_register(index, value)
    } else {
        let mut s = String::new();
        push_str(&mut s, "Unknown register $");
        push_hex(&mut s, index as u64, 2);
        push_str(&mut s, ": $");
        push_hex(&mut s, value as u64, 2);
        assert(s@ =~= vdp_register_text(index as nat, value));
        s
    }
}

/// The VDP register display panel; it holds no state of its own.
pub struct VdpRegisters;

impl VdpRegisters {
    pub fn new() -> (p: Self) {
        VdpRegisters
    }
}

/// Source of the 24 VDP registers. No stock core exposes a read-back path
/// for the write-only register file, so there is never a value to report.
pub fn read_vdp_regs(_regions: &[crate::memory::MemoryRegion]) -> (r: Option<[u8; 24]>)
    ensures
        r is None,
{
    None
}

} // verus!
