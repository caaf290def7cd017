//! Sprite composition: the live OAM sprites drawn over a neutral backdrop
//! from decoded CHR tiles, with flips, 8x16 stacking and the NES priority
//! rule (the lower OAM index wins an overlap).
use vstd::prelude::*;
use crate::fmt::{dec, hex, push_dec, push_hex, push_str};
use crate::text::join;
use crate::chr_rom::{chr_load_ok, load_chr, opt_bytes, opt_str, ChrLoad, ChrStatus};
use crate::nes::{gray_level, gray_ramp_rgba, nes_master_rgba, nes_rgb, spec_nes_rgb, Sprite, TILE_PX, TILES_PER_PATTERN_TABLE};

verus! {

/// Width of the composed view: one PPU frame.
pub const SCREEN_W: usize = 256;
/// Height of the composed view.
pub const SCREEN_H: usize = 240;
/// Pixels of the composed view.
pub const SCREEN_PX: usize = 61440;
/// Neutral dark gray that is no PPU color, so an undrawn pixel reads as
/// distinct from any sprite pixel.
pub const BACKDROP_RGBA: [u8; 4] = [28, 28, 34, 255];

/// The color source for sprites: live PALRAM or the structure-only gray ramp.
pub enum SpriteColors {
    Palram([u8; 32]),
    GrayStructureOnly,
}

/// RGBA of a master-palette index, as a sequence.
pub open spec fn master_rgba(index: u8) -> Seq<u8> {
    seq![spec_nes_rgb(index)[0], spec_nes_rgb(index)[1], spec_nes_rgb(index)[2], 255u8]
}

/// The color a sprite pixel of value `v` shows under sub-palette `sub`;
/// value 0 is transparent. Sprite sub-palettes are PALRAM groups 4-7.
pub open spec fn sprite_rgba(colors: SpriteColors, v: u8, sub: u8) -> Option<Seq<u8>> {
    if v == 0 {
        None
    } else {
        match colors {
            SpriteColors::Palram(p) => Some(master_rgba(p@[16 + (sub & 3) * 4 + v])),
            SpriteColors::GrayStructureOnly => Some(
                seq![gray_level(v, 4), gray_level(v, 4), gray_level(v, 4), 255u8],
            ),
        }
    }
}

/// Whether `rgba` can look up value `v` under `sub` (PALRAM has 32 bytes).
pub open spec fn color_lookup_ok(colors: SpriteColors, v: u8, sub: u8) -> bool {
    colors is Palram ==> 16 + (sub & 3) * 4 + v < 32
}

impl SpriteColors {
    /// RGBA for 2bpp pixel value `v` under sprite sub-palette `sub`, or
    /// `None` for the transparent value 0.
    pub fn rgba(&self, v: u8, sub: u8) -> (c: Option<[u8; 4]>)
        requires
            color_lookup_ok(*self, v, sub),
        ensures
            c.is_some() == sprite_rgba(*self, v, sub).is_some(),
            c matches Some(a) ==> a@ == sprite_rgba(*self, v, sub).unwrap(),
    {
        if v == 0 {
            return None;
        }
        match self {
            SpriteColors::Palram(p) => {
                let s = (sub & 0x3) as usize;
                assert((sub & 3) < 4) by (bit_vector);
                Some(nes_master_rgba(p[16 + s * 4 + v as usize]))
            },
            SpriteColors::GrayStructureOnly => Some(gray_ramp_rgba(v, 4)),
        }
    }
}

/// Column and row of pixel `p` of the composed view.
pub open spec fn px_x(p: int) -> int {
    p % 256
}

pub open spec fn px_y(p: int) -> int {
    p / 256
}

/// The color tile `abs` puts at screen pixel `(x, y)` when its top-left
/// corner is drawn at `(dx, dy)` with the given flips, or `None` where it
/// does not cover the pixel, lies outside the decoded CHR, or is transparent.
pub open spec fn blit_hit(
    chr: Seq<u8>,
    tile_count: int,
    abs: int,
    dx: int,
    dy: int,
    h_flip: bool,
    v_flip: bool,
    sub: u8,
    colors: SpriteColors,
    x: int,
    y: int,
) -> Option<Seq<u8>> {
    if dx <= x < dx + 8 && dy <= y < dy + 8 && abs < tile_count {
        let sx = if h_flip { 7 - (x - dx) } else { x - dx };
        let sy = if v_flip { 7 - (y - dy) } else { y - dy };
        sprite_rgba(colors, chr[abs * 64 + sy * 8 + sx], sub)
    } else {
        None
    }
}

/// The color sprite `s` puts at `(x, y)`: an 8x8 sprite draws its tile from
/// the chosen pattern table; an 8x16 sprite stacks tile `tile & 0xFE` over
/// the next one (swapped when flipped vertically), from the pattern table
/// that tile bit 0 names.
pub open spec fn sprite_pixel(
    s: Sprite,
    chr: Seq<u8>,
    tile_count: int,
    bank_base: int,
    size16: bool,
    pt8: int,
    colors: SpriteColors,
    x: int,
    y: int,
) -> Option<Seq<u8>> {
    let hf = s.attr & 0x40 != 0;
    let vf = s.attr & 0x80 != 0;
    let sub = s.attr & 3;
    if !size16 {
        blit_hit(chr, tile_count, bank_base + pt8 * 256 + s.tile, s.x as int, s.y as int, hf, vf, sub, colors, x, y)
    } else {
        let pt = (s.tile & 1) as int;
        let top = (s.tile & 0xFE) as int;
        let first = if vf { top + 1 } else { top };
        let second = if vf { top } else { top + 1 };
        match blit_hit(chr, tile_count, bank_base + pt * 256 + first, s.x as int, s.y as int, hf, vf, sub, colors, x, y) {
            Some(c) => Some(c),
            None => blit_hit(chr, tile_count, bank_base + pt * 256 + second, s.x as int, s.y + 8, hf, vf, sub, colors, x, y),
        }
    }
}

/// The color of the first sprite in `sprites` that paints `(x, y)`.
pub open spec fn first_opaque(
    sprites: Seq<Sprite>,
    chr: Seq<u8>,
    tile_count: int,
    bank_base: int,
    size16: bool,
    pt8: int,
    colors: SpriteColors,
    x: int,
    y: int,
) -> Option<Seq<u8>>
    decreases sprites.len(),
{
    if sprites.len() == 0 {
        None
    } else {
        match sprite_pixel(sprites[0], chr, tile_count, bank_base, size16, pt8, colors, x, y) {
            Some(c) => Some(c),
            None => first_opaque(sprites.drop_first(), chr, tile_count, bank_base, size16, pt8, colors, x, y),
        }
    }
}

/// Pixel `p` of the composed view: the lowest-index sprite painting it, or
/// the backdrop.
pub open spec fn composite_pixel(
    sprites: Seq<Sprite>,
    chr: Seq<u8>,
    bank_base: int,
    size16: bool,
    pt8: int,
    colors: SpriteColors,
    p: int,
) -> Seq<u8> {
    match first_opaque(sprites, chr, (chr.len() / 64) as int, bank_base, size16, pt8, colors, px_x(p), px_y(p)) {
        Some(c) => c,
        None => BACKDROP_RGBA@,
    }
}

/// Pixel values are 2bpp palette indices.
pub open spec fn all_2bpp(chr: Seq<u8>) -> bool {
    forall|i: int| 0 <= i < chr.len() ==> #[trigger] chr[i] < 4
}

proof fn lemma_px(x: int, y: int)
    requires
        0 <= x < 256,
        0 <= y < 240,
    ensures
        0 <= y * 256 + x < 61440,
        px_x(y * 256 + x) == x,
        px_y(y * 256 + x) == y,
{
    assert(0 <= y * 256 + x < 61440) by (nonlinear_arith) requires 0 <= x < 256, 0 <= y < 240;
    assert((y * 256 + x) % 256 == x && (y * 256 + x) / 256 == y) by (nonlinear_arith)
        requires 0 <= x < 256, 0 <= y < 240;
}

proof fn lemma_px_range(p: int)
    requires
        0 <= p < 61440,
    ensures
        0 <= px_x(p) < 256,
        0 <= px_y(p) < 240,
        p == px_y(p) * 256 + px_x(p),
{
}

proof fn lemma_sub_lt4(a: u8)
    ensures
        (a & 3) < 4,
{
    assert((a & 3) < 4) by (bit_vector);
}

/// Blit one 8x8 tile into the composed view at `(dst_x, dst_y)`, honoring
/// flips; transparent pixels, pixels off the view and a tile outside the
/// decoded CHR leave the canvas alone.
fn blit_tile(
    canvas: &mut Vec<[u8; 4]>,
    chr: &[u8],
    tile_count: usize,
    abs_tile: usize,
    dst_x: usize,
    dst_y: usize,
    h_flip: bool,
    v_flip: bool,
    sub: u8,
    colors: &SpriteColors,
)
    requires
        old(canvas)@.len() == SCREEN_PX,
        tile_count * 64 <= chr@.len(),
        all_2bpp(chr@),
        sub < 4,
        dst_x <= 255,
        dst_y <= 263,
    ensures
        final(canvas)@.len() == SCREEN_PX,
        forall|p: int| 0 <= p < SCREEN_PX ==> (#[trigger] final(canvas)@[p])@ == match blit_hit(
            chr@, tile_count as int, abs_tile as int, dst_x as int, dst_y as int, h_flip, v_flip, sub, *colors, px_x(p), px_y(p),
        ) {
            Some(c) => c,
            None => old(canvas)@[p]@,
        },
{
    let ghost orig = canvas@;
    let chr_len = chr.len();
    if abs_tile >= tile_count {
        return;
    }
    let mut py: usize = 0;
    while py < TILE_PX
        invariant
            canvas@.len() == SCREEN_PX,
            orig.len() == SCREEN_PX,
            py <= 8,
            abs_tile < tile_count,
            tile_count * 64 <= chr@.len(),
            chr_len == chr@.len(),
            all_2bpp(chr@),
            sub < 4,
            dst_x <= 255,
            dst_y <= 263,
            forall|p: int| 0 <= p < SCREEN_PX ==> (#[trigger] canvas@[p])@ == if px_y(p) - dst_y < py {
                match blit_hit(chr@, tile_count as int, abs_tile as int, dst_x as int, dst_y as int, h_flip, v_flip, sub, *colors, px_x(p), px_y(p)) {
                    Some(c) => c,
                    None => orig[p]@,
                }
            } else {
                orig[p]@
            },
        decreases 8 - py,
    {
        let sy: usize = if v_flip { TILE_PX - 1 - py } else { py };
        let y = dst_y + py;
        let mut px: usize = 0;
        while px < TILE_PX
            invariant
                canvas@.len() == SCREEN_PX,
                orig.len() == SCREEN_PX,
                py < 8,
                px <= 8,
                sy == if v_flip { 7 - py } else { py as int },
                y == dst_y + py,
                abs_tile < tile_count,
                tile_count * 64 <= chr@.len(),
                chr_len == chr@.len(),
                all_2bpp(chr@),
                sub < 4,
                dst_x <= 255,
                dst_y <= 263,
                forall|p: int| 0 <= p < SCREEN_PX ==> (#[trigger] canvas@[p])@ == if px_y(p) - dst_y < py || (px_y(p) - dst_y == py && px_x(p) - dst_x < px) {
                    match blit_hit(chr@, tile_count as int, abs_tile as int, dst_x as int, dst_y as int, h_flip, v_flip, sub, *colors, px_x(p), px_y(p)) {
                        Some(c) => c,
                        None => orig[p]@,
                    }
                } else {
                    orig[p]@
                },
            decreases 8 - px,
        {
            let sx: usize = if h_flip { TILE_PX - 1 - px } else { px };
            proof {
                assert(abs_tile * 64 + 64 <= tile_count * 64) by (nonlinear_arith)
                    requires abs_tile < tile_count;
                assert(sx < 8 && sy < 8);
                assert(sy * 8 + sx < 64) by (nonlinear_arith) requires sx < 8, sy < 8;
                assert(abs_tile * 64 + sy * 8 + sx < chr@.len());
            }
            let ci = abs_tile * 64 + sy * 8 + sx;
            let v = chr[ci];
            proof {
                assert(v < 4);
                assert(color_lookup_ok(*colors, v, sub)) by {
                    assert((sub & 3) == sub) by (bit_vector) requires sub < 4;
                }
            }
            let c = colors.rgba(v, sub);
            let x = dst_x + px;
            let ghost before = canvas@;
            if y < SCREEN_H && x < SCREEN_W {
                if let Some(rgba) = c {
                    let idx = y * SCREEN_W + x;
                    proof {
                        lemma_px(x as int, y as int);
                    }
                    canvas.set(idx, rgba);
                }
            }
            proof {
                assert forall|p: int| 0 <= p < SCREEN_PX implies (#[trigger] canvas@[p])@ == if px_y(p) - dst_y < py || (px_y(p) - dst_y == py && px_x(p) - dst_x < px + 1) {
                    match blit_hit(chr@, tile_count as int, abs_tile as int, dst_x as int, dst_y as int, h_flip, v_flip, sub, *colors, px_x(p), px_y(p)) {
                        Some(c) => c,
                        None => orig[p]@,
                    }
                } else {
                    orig[p]@
                } by {
                    lemma_px_range(p);
                    if y < SCREEN_H && x < SCREEN_W {
                        lemma_px(x as int, y as int);
                    }
                    if px_y(p) == y && px_x(p) == x {
                        assert(sy * 8 + sx == (if v_flip { 7 - (px_y(p) - dst_y) } else { px_y(p) - dst_y }) * 8
                            + (if h_flip { 7 - (px_x(p) - dst_x) } else { px_x(p) - dst_x }));
                    }
                }
            }
            px += 1;
        }
        py += 1;
    }
    proof {
        assert forall|p: int| 0 <= p < SCREEN_PX implies (#[trigger] canvas@[p])@ == match blit_hit(
            chr@, tile_count as int, abs_tile as int, dst_x as int, dst_y as int, h_flip, v_flip, sub, *colors, px_x(p), px_y(p),
        ) {
            Some(c) => c,
            None => orig[p]@,
        } by {
            lemma_px_range(p);
        }
    }
}

/// Draw one sprite (both tiles of an 8x16 sprite) over the canvas.
fn draw_sprite(
    pixels: &mut Vec<[u8; 4]>,
    s: Sprite,
    chr_indices: &[u8],
    tile_count: usize,
    bank_base: usize,
    size16: bool,
    pt8: usize,
    colors: &SpriteColors,
)
    requires
        old(pixels)@.len() == SCREEN_PX,
        tile_count * 64 <= chr_indices@.len(),
        all_2bpp(chr_indices@),
        pt8 <= 1,
        bank_base + 512 <= usize::MAX,
    ensures
        final(pixels)@.len() == SCREEN_PX,
        forall|p: int| 0 <= p < SCREEN_PX ==> (#[trigger] final(pixels)@[p])@ == match sprite_pixel(
            s, chr_indices@, tile_count as int, bank_base as int, size16, pt8 as int, *colors, px_x(p), px_y(p),
        ) {
            Some(c) => c,
            None => old(pixels)@[p]@,
        },
{
    let sub = s.palette();
    proof { lemma_sub_lt4(s.attr); }
    let dx = s.x as usize;
    let dy = s.y as usize;
    if !size16 {
        let abs = bank_base + pt8 * TILES_PER_PATTERN_TABLE + s.tile as usize;
        blit_tile(pixels, chr_indices, tile_count, abs, dx, dy, s.h_flip(), s.v_flip(), sub, colors);
    } else {
        let ghost before = pixels@;
        let t: u8 = s.tile;
        let pt = (t & 0x01) as usize;
        let top = (t & 0xFE) as usize;
        proof {
            assert((t & 1) <= 1 && (t & 0xFE) <= 254) by (bit_vector);
        }
        let (first, second) = if s.v_flip() { (top + 1, top) } else { (top, top + 1) };
        let abs_first = bank_base + pt * TILES_PER_PATTERN_TABLE + first;
        let abs_second = bank_base + pt * TILES_PER_PATTERN_TABLE + second;
        blit_tile(pixels, chr_indices, tile_count, abs_first, dx, dy, s.h_flip(), s.v_flip(), sub, colors);
        let ghost mid = pixels@;
        blit_tile(pixels, chr_indices, tile_count, abs_second, dx, dy + TILE_PX, s.h_flip(), s.v_flip(), sub, colors);
        proof {
            assert forall|p: int| 0 <= p < SCREEN_PX implies (#[trigger] pixels@[p])@ == match sprite_pixel(
                s, chr_indices@, tile_count as int, bank_base as int, size16, pt8 as int, *colors, px_x(p), px_y(p),
            ) {
                Some(c) => c,
                None => before[p]@,
            } by {
                assert(mid[p]@ == mid[p]@);
            }
        }
    }
}

/// Compose the active sprites into a 256x240 RGBA view. `bank_base` is the
/// absolute tile index of the chosen CHR bank's tile 0; `size16` selects
/// 8x16 sprites; for 8x8 sprites `pt8` picks the pattern-table half. Sprites
/// are drawn highest index first, so OAM index 0 ends up on top.
pub fn composite_sprites(
    sprites: &[Sprite],
    chr_indices: &[u8],
    bank_base: usize,
    size16: bool,
    pt8: usize,
    colors: &SpriteColors,
) -> (img: Vec<[u8; 4]>)
    requires
        all_2bpp(chr_indices@),
        pt8 <= 1,
        bank_base + 512 <= usize::MAX,
    ensures
        img@.len() == SCREEN_PX,
        forall|p: int| 0 <= p < SCREEN_PX ==> (#[trigger] img@[p])@ == composite_pixel(
            sprites@, chr_indices@, bank_base as int, size16, pt8 as int, *colors, p,
        ),
{
    let mut pixels: Vec<[u8; 4]> = Vec::new();
    let mut i: usize = 0;
    while i < SCREEN_PX
        invariant
            i <= SCREEN_PX,
            pixels@.len() == i,
            forall|p: int| 0 <= p < i ==> (#[trigger] pixels@[p])@ == BACKDROP_RGBA@,
        decreases SCREEN_PX - i,
    {
        pixels.push(BACKDROP_RGBA);
        i += 1;
    }
    let tile_count = chr_indices.len() / 64;
    let ghost tc = tile_count as int;
    proof {
        assert(tile_count * 64 <= chr_indices@.len()) by (nonlinear_arith)
            requires tile_count == chr_indices@.len() / 64;
    }
    let n = sprites.len();
    let mut k: usize = n;
    while k > 0
        invariant
            k <= n,
            n == sprites@.len(),
            pixels@.len() == SCREEN_PX,
            tc == chr_indices@.len() / 64,
            tile_count == tc,
            tile_count * 64 <= chr_indices@.len(),
            all_2bpp(chr_indices@),
            pt8 <= 1,
            bank_base + 512 <= usize::MAX,
            forall|p: int| 0 <= p < SCREEN_PX ==> (#[trigger] pixels@[p])@ == match first_opaque(
                sprites@.subrange(k as int, n as int), chr_indices@, tc, bank_base as int, size16, pt8 as int, *colors, px_x(p), px_y(p),
            ) {
                Some(c) => c,
                None => BACKDROP_RGBA@,
            },
        decreases k,
    {
        let s = sprites[k - 1];
        let ghost before = pixels@;
        draw_sprite(&mut pixels, s, chr_indices, tile_count, bank_base, size16, pt8, colors);
        proof {
            let rest = sprites@.subrange(k as int, n as int);
            let more = sprites@.subrange(k - 1, n as int);
            assert(more[0] == s);
            assert(more.drop_first() =~= rest);
            assert forall|p: int| 0 <= p < SCREEN_PX implies (#[trigger] pixels@[p])@ == match first_opaque(
                more, chr_indices@, tc, bank_base as int, size16, pt8 as int, *colors, px_x(p), px_y(p),
            ) {
                Some(c) => c,
                None => BACKDROP_RGBA@,
            } by {
                assert(before[p] == before[p]);
            }
        }
        k -= 1;
    }
    proof {
        assert(sprites@.subrange(0, n as int) =~= sprites@);
    }
    pixels
}

// ── single-pose contract fragment ───────────────────────────────────────

/// The smallest of some bytes (0 when there are none).
pub open spec fn seq_min(v: Seq<u8>) -> u8
    decreases v.len(),
{
    if v.len() == 0 {
        0
    } else if v.len() == 1 {
        v[0]
    } else if v.last() < seq_min(v.drop_last()) {
        v.last()
    } else {
        seq_min(v.drop_last())
    }
}

/// The largest of some bytes (0 when there are none).
pub open spec fn seq_max(v: Seq<u8>) -> u8
    decreases v.len(),
{
    if v.len() == 0 {
        0
    } else if v.last() > seq_max(v.drop_last()) {
        v.last()
    } else {
        seq_max(v.drop_last())
    }
}

pub open spec fn xs(ss: Seq<Sprite>) -> Seq<u8> {
    ss.map_values(|s: Sprite| s.x)
}

pub open spec fn ys(ss: Seq<Sprite>) -> Seq<u8> {
    ss.map_values(|s: Sprite| s.y)
}

/// `a - b`, or 0 when `b` is larger.
pub open spec fn sat_sub(a: int, b: int) -> nat {
    if a >= b { (a - b) as nat } else { 0 }
}

pub open spec fn bool_text(b: bool) -> Seq<char> {
    if b { "true"@ } else { "false"@ }
}

/// `#RRGGBB` of a master-palette index.
pub open spec fn color_hex(i: u8) -> Seq<char> {
    "#"@ + hex(spec_nes_rgb(i)[0] as nat, 2) + hex(spec_nes_rgb(i)[1] as nat, 2) + hex(spec_nes_rgb(i)[2] as nat, 2)
}

/// One sub-palette line: group `g`'s three opaque colors.
pub open spec fn subpalette_line(p: Seq<u8>, g: int) -> Seq<char> {
    "    \""@ + dec(g as nat) + "\": [\""@ + color_hex(p[g * 4 + 1]) + "\",\""@ + color_hex(p[g * 4 + 2])
        + "\",\""@ + color_hex(p[g * 4 + 3]) + "\"]"@
}

/// One sprite row, its position relative to the bounding box's corner.
pub open spec fn sprite_row(s: Sprite, min_x: u8, min_y: u8) -> Seq<char> {
    sprite_row_place(s, min_x, min_y) + sprite_row_attrs(s)
}

/// The slot, offset and tile fields of a sprite row.
pub open spec fn sprite_row_place(s: Sprite, min_x: u8, min_y: u8) -> Seq<char> {
    "      { \"slot\": "@ + dec(s.index as nat) + ", \"dx\": "@ + dec(sat_sub(s.x as int, min_x as int))
        + ", \"dy\": "@ + dec(sat_sub(s.y as int, min_y as int)) + ", \"tile\": "@ + dec(s.tile as nat)
}

/// The attribute fields of a sprite row, decoded.
pub open spec fn sprite_row_attrs(s: Sprite) -> Seq<char> {
    ", \"attr\": "@ + dec(s.attr as nat) + ", \"subpalette\": "@ + dec((4 + (s.attr & 3)) as nat)
        + ", \"flip_h\": "@ + bool_text(s.attr & 0x40 != 0) + ", \"flip_v\": "@ + bool_text(s.attr & 0x80 != 0)
        + ", \"behind_bg\": "@ + bool_text(s.attr & 0x20 != 0) + " }"@
}

pub open spec fn sprite_rows(ss: Seq<Sprite>, min_x: u8, min_y: u8) -> Seq<Seq<char>> {
    ss.map_values(|s: Sprite| sprite_row(s, min_x, min_y))
}

pub open spec fn subpalette_lines(p: Seq<u8>) -> Seq<Seq<char>> {
    Seq::new(4, |k: int| subpalette_line(p, k + 4))
}

/// The sub-palette block: the four sprite groups, or, when PALRAM is
/// unreadable, `null` followed by a note member saying so (the document
/// stays valid JSON).
pub open spec fn subpalette_block(palram: Option<Seq<u8>>) -> Seq<char> {
    match palram {
        Some(p) => "{\n"@ + join(subpalette_lines(p), ",\n"@) + "\n  }"@,
        None => "null,\n  \"subpalettes_note\": \"PALRAM unreadable \u{2014} grayscale structure only\""@,
    }
}

/// The single-pose fragment of the sprite-swap contract for `sprites`.
pub open spec fn pose_json(ss: Seq<Sprite>, palram: Option<Seq<u8>>, size16: bool, bank: nat) -> Seq<char> {
    let min_x = seq_min(xs(ss));
    let min_y = seq_min(ys(ss));
    let tile_h: int = if size16 { 16 } else { 8 };
    let w = sat_sub(seq_max(xs(ss)) + 8, min_x as int);
    let h = sat_sub(seq_max(ys(ss)) + tile_h, min_y as int);
    "{\n  \"_note\": \"single live pose captured from the metasprite panel \u{2014} one fragment of sprite_contract.json, not the full multi-pose contract\",\n  \"sprite_size\": \""@
        + (if size16 { "8x16"@ } else { "8x8"@ }) + "\",\n  \"chr_bank_for_player\": "@ + dec(bank)
        + ",\n  \"bbox\": ["@ + dec(w) + ", "@ + dec(h) + "],\n  \"subpalettes\": "@ + subpalette_block(palram)
        + ",\n  \"sprites\": [\n"@ + join(sprite_rows(ss, min_x, min_y), ",\n"@) + "\n  ]\n}"@
}

fn push_bool(s: &mut String, b: bool)
    ensures
        final(s)@ == old(s)@ + bool_text(b),
{
    if b {
        push_str(s, "true");
    } else {
        push_str(s, "false");
    }
}

fn push_color_hex(s: &mut String, i: u8)
    ensures
        final(s)@ == old(s)@ + color_hex(i),
{
    let c = nes_rgb(i);
    push_str(s, "#");
    push_hex(s, c[0] as u64, 2);
    push_hex(s, c[1] as u64, 2);
    push_hex(s, c[2] as u64, 2);
    assert(s@ =~= old(s)@ + color_hex(i));
}

fn push_subpalette_line(s: &mut String, p: &[u8; 32], g: usize)
    requires
        4 <= g < 8,
    ensures
        final(s)@ == old(s)@ + subpalette_line(p@, g as int),
{
    push_str(s, "    \"");
    push_dec(s, g as u64);
    push_str(s, "\": [\"");
    push_color_hex(s, p[g * 4 + 1]);
    push_str(s, "\",\"");
    push_color_hex(s, p[g * 4 + 2]);
    push_str(s, "\",\"");
    push_color_hex(s, p[g * 4 + 3]);
    push_str(s, "\"]");
    assert(s@ =~= old(s)@ + subpalette_line(p@, g as int));
}

fn push_sprite_place(s: &mut String, sp: &Sprite, min_x: u8, min_y: u8)
    ensures
        final(s)@ == old(s)@ + sprite_row_place(*sp, min_x, min_y),
{
    push_str(s, "      { \"slot\": ");
    push_dec(s, sp.index as u64);
    push_str(s, ", \"dx\": ");
    let dx: u8 = if sp.x >= min_x { sp.x - min_x } else { 0 };
    push_dec(s, dx as u64);
    push_str(s, ", \"dy\": ");
    let dy: u8 = if sp.y >= min_y { sp.y - min_y } else { 0 };
    push_dec(s, dy as u64);
    push_str(s, ", \"tile\": ");
    push_dec(s, sp.tile as u64);
    assert(s@ =~= old(s)@ + sprite_row_place(*sp, min_x, min_y));
}

fn push_sprite_attrs(s: &mut String, sp: &Sprite)
    ensures
        final(s)@ == old(s)@ + sprite_row_attrs(*sp),
{
    push_str(s, ", \"attr\": ");
    push_dec(s, sp.attr as u64);
    push_str(s, ", \"subpalette\": ");
    let a: u8 = sp.attr;
    assert((a & 3) < 4) by (bit_vector);
    push_dec(s, (4 + (a & 0x3)) as u64);
    push_str(s, ", \"flip_h\": ");
    push_bool(s, sp.h_flip());
    push_str(s, ", \"flip_v\": ");
    push_bool(s, sp.v_flip());
    push_str(s, ", \"behind_bg\": ");
    push_bool(s, sp.behind_bg());
    push_str(s, " }");
    assert(s@ =~= old(s)@ + sprite_row_attrs(*sp));
}

fn push_sprite_row(s: &mut String, sp: &Sprite, min_x: u8, min_y: u8)
    ensures
        final(s)@ == old(s)@ + sprite_row(*sp, min_x, min_y),
{
    push_sprite_place(s, sp, min_x, min_y);
    push_sprite_attrs(s, sp);
    assert(s@ =~= old(s)@ + sprite_row(*sp, min_x, min_y));
}

/// The bounding corner and far edges of the sprites: (min x, min y, max x,
/// max y), each 0 when there are no sprites.
fn bounds(sprites: &[Sprite]) -> (b: (u8, u8, u8, u8))
    ensures
        b.0 == seq_min(xs(sprites@)),
        b.1 == seq_min(ys(sprites@)),
        b.2 == seq_max(xs(sprites@)),
        b.3 == seq_max(ys(sprites@)),
{
    let mut mnx: u8 = 0;
    let mut mny: u8 = 0;
    let mut mxx: u8 = 0;
    let mut mxy: u8 = 0;
    let mut i: usize = 0;
    while i < sprites.len()
        invariant
            i <= sprites@.len(),
            mnx == seq_min(xs(sprites@).take(i as int)),
            mny == seq_min(ys(sprites@).take(i as int)),
            mxx == seq_max(xs(sprites@).take(i as int)),
            mxy == seq_max(ys(sprites@).take(i as int)),
        decreases sprites@.len() - i,
    {
        let s = sprites[i];
        proof {
            assert(xs(sprites@).take(i + 1).drop_last() =~= xs(sprites@).take(i as int));
            assert(ys(sprites@).take(i + 1).drop_last() =~= ys(sprites@).take(i as int));
            assert(xs(sprites@).take(i + 1).last() == s.x);
            assert(ys(sprites@).take(i + 1).last() == s.y);
        }
        if i == 0 || s.x < mnx {
            mnx = s.x;
        }
        if i == 0 || s.y < mny {
            mny = s.y;
        }
        if s.x > mxx {
            mxx = s.x;
        }
        if s.y > mxy {
            mxy = s.y;
        }
        i += 1;
    }
    proof {
        assert(xs(sprites@).take(sprites@.len() as int) =~= xs(sprites@));
        assert(ys(sprites@).take(sprites@.len() as int) =~= ys(sprites@));
    }
    (mnx, mny, mxx, mxy)
}

/// Build a single-pose fragment of the sprite-swap contract from the live
/// metasprite: the sprites (positions relative to their bounding box), the
/// four sprite sub-palettes from PALRAM (the three opaque colors of each),
/// the sprite size and the chosen CHR bank.
pub fn pose_contract_json(sprites: &[Sprite], palram: Option<&[u8; 32]>, size16: bool, bank: usize) -> (js: String)
    ensures
        js@ == pose_json(sprites@, match palram { Some(p) => Some(p@), None => None }, size16, bank as nat),
{
    let (min_x, min_y, max_x, max_y) = bounds(sprites);
    let tile_h: u16 = if size16 { 16 } else { 8 };
    let bbox_w: u16 = (max_x as u16 + 8).saturating_sub(min_x as u16);
    let bbox_h: u16 = (max_y as u16 + tile_h).saturating_sub(min_y as u16);
    let mut s = String::new();
    push_str(&mut s, "{\n  \"_note\": \"single live pose captured from the metasprite panel \u{2014} one fragment of sprite_contract.json, not the full multi-pose contract\",\n  \"sprite_size\": \"");
    if size16 {
        push_str(&mut s, "8x16");
    } else {
        push_str(&mut s, "8x8");
    }
    push_str(&mut s, "\",\n  \"chr_bank_for_player\": ");
    push_dec(&mut s, bank as u64);
    push_str(&mut s, ",\n  \"bbox\": [");
    push_dec(&mut s, bbox_w as u64);
    push_str(&mut s, ", ");
    push_dec(&mut s, bbox_h as u64);
    push_str(&mut s, "],\n  \"subpalettes\": ");
    let ghost head = s@;
    match palram {
        Some(p) => {
            push_str(&mut s, "{\n");
            let ghost lines = subpalette_lines(p@);
            let ghost start = s@;
            let mut g: usize = 4;
            while g < 8
                invariant
                    4 <= g <= 8,
                    lines == subpalette_lines(p@),
                    s@ == start + join(lines.take(g - 4), ",\n"@),
                decreases 8 - g,
            {
                if g != 4 {
                    push_str(&mut s, ",\n");
                }
                push_subpalette_line(&mut s, p, g);
                proof {
                    assert(lines.take(g - 3).drop_last() =~= lines.take(g - 4));
                    assert(lines.take(g - 3).last() == subpalette_line(p@, g as int));
                    if g == 4 {
                        assert(lines.take(1).len() == 1);
                    }
                }
                g += 1;
            }
            proof {
                assert(lines.take(4) =~= lines);
            }
            push_str(&mut s, "\n  }");
        },
        None => {
            push_str(&mut s, "null,\n  \"subpalettes_note\": \"PALRAM unreadable \u{2014} grayscale structure only\"");
        },
    }
    proof {
        let pv = match palram { Some(p) => Some(p@), None => None };
        assert(s@ =~= head + subpalette_block(pv));
    }
    push_str(&mut s, ",\n  \"sprites\": [\n");
    let ghost rows = sprite_rows(sprites@, min_x, min_y);
    let ghost start2 = s@;
    let mut i: usize = 0;
    while i < sprites.len()
        invariant
            i <= sprites@.len(),
            rows == sprite_rows(sprites@, min_x, min_y),
            s@ == start2 + join(rows.take(i as int), ",\n"@),
        decreases sprites@.len() - i,
    {
        if i != 0 {
            push_str(&mut s, ",\n");
        }
        push_sprite_row(&mut s, &sprites[i], min_x, min_y);
        proof {
            assert(rows.take(i + 1).drop_last() =~= rows.take(i as int));
            assert(rows.take(i + 1).last() == sprite_row(sprites@[i as int], min_x, min_y));
            if i == 0 {
                assert(rows.take(1).len() == 1);
            }
        }
        i += 1;
    }
    proof {
        assert(rows.take(sprites@.len() as int) =~= rows);
    }
    push_str(&mut s, "\n  ]\n}");
    proof {
        let pv = match palram { Some(p) => Some(p@), None => None };
        assert(s@ =~= pose_json(sprites@, pv, size16, bank as nat));
    }
    s
}

// ── the sprite panel's state ─────────────────────────────────────────────

/// Sprite / metasprite viewer state.
pub struct MetaspritePanel {
    pub status: ChrStatus,
    /// Decoded palette indices for the whole CHR-ROM span, tile-major.
    pub chr_indices: Vec<u8>,
    pub bank_count: usize,
    /// Operator-picked CHR bank (a runtime mapper fact that cannot be read
    /// back, so a choice, never a claim).
    pub selected_bank: usize,
    /// Fallbacks used only while PPUREG is unreadable.
    pub op_size16: bool,
    pub op_pt8: usize,
    /// The tile byte last seen in each OAM slot, the emulation frame it was
    /// seen at, and which slots changed tile on the latest emulation frame.
    pub prev_tiles: [u8; 64],
    pub prev_frame_count: u64,
    pub changed: [bool; 64],
    /// Result of the last pose export, shown inline.
    pub export_note: Option<String>,
}

/// The tile bytes of the 64 OAM slots.
pub open spec fn oam_tiles(oam: Seq<u8>) -> Seq<u8> {
    Seq::new(64, |i: int| oam[4 * i + 1])
}

impl MetaspritePanel {
    pub fn new() -> (p: Self)
        ensures
            p.status is NoRom,
            p.chr_indices@.len() == 0,
            p.bank_count == 0,
            p.selected_bank == 0,
            !p.op_size16,
            p.op_pt8 == 0,
            p.prev_frame_count == u64::MAX,
            forall|i: int| 0 <= i < 64 ==> p.prev_tiles@[i] == 0 && !p.changed@[i],
            p.export_note is None,
    {
        MetaspritePanel {
            status: ChrStatus::NoRom,
            chr_indices: Vec::new(),
            bank_count: 0,
            selected_bank: 0,
            op_size16: false,
            op_pt8: 0,
            prev_tiles: [0; 64],
            prev_frame_count: u64::MAX,
            changed: [false; 64],
            export_note: None,
        }
    }

    /// (Re)decode CHR from a fresh ROM snapshot (once per ROM identity):
    /// `file_bytes` is what reading the ROM path gave, if a path is known.
    pub fn load(&mut self, rom_system: Option<&str>, rom_bytes: Option<Vec<u8>>, has_path: bool, file_bytes: Option<Vec<u8>>)
        ensures
            chr_load_ok(
                ChrLoad { status: final(self).status, chr_indices: final(self).chr_indices, bank_count: final(self).bank_count },
                opt_str(rom_system), opt_bytes(rom_bytes), has_path, opt_bytes(file_bytes), "sprite tiles"@,
            ),
            all_2bpp(final(self).chr_indices@),
            final(self).selected_bank == 0,
            *final(self) == (MetaspritePanel {
                status: final(self).status,
                chr_indices: final(self).chr_indices,
                bank_count: final(self).bank_count,
                selected_bank: 0,
                ..*old(self)
            }),
    {
        let l = load_chr(rom_system, rom_bytes, has_path, file_bytes, "sprite tiles");
        self.status = l.status;
        self.chr_indices = l.chr_indices;
        self.bank_count = l.bank_count;
        self.selected_bank = 0;
    }

    /// Absolute tile index of the chosen bank's tile 0.
    pub fn bank_base(&self) -> (b: usize)
        requires
            self.selected_bank * 512 <= usize::MAX,
        ensures
            b == self.selected_bank * 512,
    {
        self.selected_bank * 512
    }

    /// Sprite size (8x16?) and 8x8 pattern-table half: from live PPUCTRL
    /// (bit 5, bit 3) when PPUREG reads, else the operator's picks.
    pub fn sprite_layout(&self, ppuctrl: Option<u8>) -> (r: (bool, usize))
        ensures
            r == match ppuctrl {
                Some(c) => ((c & 0x20) != 0, ((c >> 3) & 1) as usize),
                None => (self.op_size16, self.op_pt8),
            },
    {
        match ppuctrl {
            Some(c) => ((c & 0x20) != 0, ((c >> 3) & 0x01) as usize),
            None => (self.op_size16, self.op_pt8),
        }
    }

    /// Track per-slot tile changes. Only a new emulation frame recomputes;
    /// the first observation after a reset leaves `changed` as it was.
    pub fn observe_frame(&mut self, oam: &[u8], frame_count: u64)
        requires
            oam@.len() >= 256,
        ensures
            frame_count == old(self).prev_frame_count ==> *final(self) == *old(self),
            frame_count != old(self).prev_frame_count ==> {
                &&& final(self).prev_tiles@ == oam_tiles(oam@)
                &&& final(self).prev_frame_count == frame_count
                &&& forall|i: int| 0 <= i < 64 ==> #[trigger] final(self).changed@[i] == if old(self).prev_frame_count
                    != u64::MAX {
                    oam[4 * i + 1] != old(self).prev_tiles@[i]
                } else {
                    old(self).changed@[i]
                }
                &&& final(self).status == old(self).status
                &&& final(self).chr_indices == old(self).chr_indices
                &&& final(self).bank_count == old(self).bank_count
                &&& final(self).selected_bank == old(self).selected_bank
                &&& final(self).op_size16 == old(self).op_size16
                &&& final(self).op_pt8 == old(self).op_pt8
                &&& final(self).export_note == old(self).export_note
            },
    {
        if frame_count == self.prev_frame_count {
            return;
        }
        let mut cur = [0u8; 64];
        let mut i: usize = 0;
        while i < 64
            invariant
                i <= 64,
                oam@.len() >= 256,
                forall|j: int| 0 <= j < i ==> cur@[j] == oam@[4 * j + 1],
            decreases 64 - i,
        {
            cur[i] = oam[i * 4 + 1];
            i += 1;
        }
        let ghost s0 = *self;
        if self.prev_frame_count != u64::MAX {
            let mut j: usize = 0;
            let ghost prev = self.prev_tiles@;
            while j < 64
                invariant
                    j <= 64,
                    oam@.len() >= 256,
                    prev == self.prev_tiles@,
                    self.prev_frame_count == s0.prev_frame_count,
                    self.prev_tiles == s0.prev_tiles,
                    self.status == s0.status,
                    self.chr_indices == s0.chr_indices,
                    self.bank_count == s0.bank_count,
                    self.selected_bank == s0.selected_bank,
                    self.op_size16 == s0.op_size16,
                    self.op_pt8 == s0.op_pt8,
                    self.export_note == s0.export_note,
                    forall|k: int| 0 <= k < 64 ==> cur@[k] == oam@[4 * k + 1],
                    forall|k: int| 0 <= k < j ==> self.changed@[k] == (oam@[4 * k + 1] != prev[k]),
                decreases 64 - j,
            {
                let c = cur[j] != self.prev_tiles[j];
                self.changed[j] = c;
                j += 1;
            }
        }
        self.prev_tiles = cur;
        self.prev_frame_count = frame_count;
        assert(self.prev_tiles@ =~= oam_tiles(oam@));
    }
}

/// The flip column of the sprite table.
pub fn flip_label(h: bool, v: bool) -> (s: &'static str)
    ensures
        s@ == if !h && !v { "\u{2014}"@ } else if h && !v { "H"@ } else if !h && v { "V"@ } else { "HV"@ },
{
    match (h, v) {
        (false, false) => "\u{2014}",
        (true, false) => "H",
        (false, true) => "V",
        (true, true) => "HV",
    }
}

} // verus!
