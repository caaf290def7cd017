//! NES picture data: iNES CHR-ROM location, 2bpp planar tile coding, the
//! master palette, attribute-table sub-palette selection, and OAM sprites.
use vstd::prelude::*;

verus! {

/// Pixels per tile side.
pub const TILE_PX: usize = 8;
/// Bytes of one 2bpp planar 8x8 tile (two 8-byte bit planes).
pub const BYTES_PER_2BPP_TILE: usize = 16;
/// One CNROM CHR bank: 8KB = 512 tiles.
pub const CHR_BANK_BYTES: usize = 8192;
/// Tiles per pattern-table half ($0000 / $1000).
pub const TILES_PER_PATTERN_TABLE: usize = 256;

/// The NTSC 2C02 master palette: RGB for each of the 64 PPU color indices.
pub const NES_MASTER_PALETTE: [[u8; 3]; 64] = [
    [84, 84, 84], [0, 30, 116], [8, 16, 144], [48, 0, 136],
    [68, 0, 100], [92, 0, 48], [84, 4, 0], [60, 24, 0],
    [32, 42, 0], [8, 58, 0], [0, 64, 0], [0, 60, 0],
    [0, 50, 60], [0, 0, 0], [0, 0, 0], [0, 0, 0],
    [152, 150, 152], [8, 76, 196], [48, 50, 236], [92, 30, 228],
    [136, 20, 176], [160, 20, 100], [152, 34, 32], [120, 60, 0],
    [84, 90, 0], [40, 114, 0], [8, 124, 0], [0, 118, 40],
    [0, 102, 120], [0, 0, 0], [0, 0, 0], [0, 0, 0],
    [236, 238, 236], [76, 154, 236], [120, 124, 236], [176, 98, 236],
    [228, 84, 236], [236, 88, 180], [236, 106, 100], [212, 136, 32],
    [160, 170, 0], [116, 196, 0], [76, 208, 32], [56, 204, 108],
    [56, 180, 204], [60, 60, 60], [0, 0, 0], [0, 0, 0],
    [236, 238, 236], [168, 204, 236], [188, 188, 236], [212, 178, 236],
    [236, 174, 236], [236, 174, 212], [236, 180, 176], [228, 196, 144],
    [204, 210, 120], [180, 222, 120], [168, 226, 144], [152, 226, 180],
    [160, 214, 228], [160, 162, 160], [0, 0, 0], [0, 0, 0],
];

/// RGB of a PALRAM byte: its low six bits index the master palette.
pub open spec fn spec_nes_rgb(index: u8) -> [u8; 3] {
    NES_MASTER_PALETTE@[(index & 0x3F) as int]
}

/// Map a PALRAM byte (a master-palette index) to RGB; the mask guards a
/// garbage read of 0x40 or above.
pub fn nes_rgb(index: u8) -> (c: [u8; 3])
    ensures
        c == spec_nes_rgb(index),
{
    let i = index & 0x3F;
    assert(i < 64) by (bit_vector)
        requires i == index & 0x3F;
    NES_MASTER_PALETTE[i as usize]
}

/// RGBA of a master-palette index, fully opaque.
pub fn nes_master_rgba(index: u8) -> (c: [u8; 4])
    ensures
        c@ == seq![spec_nes_rgb(index)[0], spec_nes_rgb(index)[1], spec_nes_rgb(index)[2], 255u8],
{
    let c = nes_rgb(index);
    [c[0], c[1], c[2], 255]
}

/// A gray level for pixel value `v` on a ramp of `levels` steps from black
/// to white, fully opaque.
pub open spec fn gray_level(v: u8, levels: u8) -> u8 {
    if v >= levels - 1 { 255 } else { ((v as int) * 255 / ((levels - 1) as int)) as u8 }
}

/// The structure-only grayscale color of pixel value `v` out of `levels`.
pub fn gray_ramp_rgba(v: u8, levels: u8) -> (c: [u8; 4])
    requires
        levels >= 2,
    ensures
        c@ == seq![gray_level(v, levels), gray_level(v, levels), gray_level(v, levels), 255u8],
{
    let g: u8 = if v >= levels - 1 {
        255
    } else {
        let num: u32 = (v as u32) * 255;
        let den: u32 = (levels as u32) - 1;
        let q: u32 = num / den;
        assert(q <= 255) by (nonlinear_arith)
            requires v < den, num == v * 255, q == num / den, den >= 1;
        q as u8
    };
    [g, g, g, 255]
}

// ── 2bpp planar tiles ────────────────────────────────────────────────────

/// Palette index of pixel `(x, y)` of the tile whose 16 bytes start at
/// `base`: bit `7 - x` of plane 0 (row byte `y`) and of plane 1 (byte `8 + y`).
pub open spec fn tile_pixel(bytes: Seq<u8>, base: int, y: int, x: int) -> u8 {
    let sh = (7 - x) as u8;
    (((bytes[base + y] >> sh) & 1) | (((bytes[base + 8 + y] >> sh) & 1) << 1u8)) as u8
}

/// Decoded palette indices of all whole tiles in `bytes`, tile-major then
/// row-major (64 per tile).
pub open spec fn decoded_indices(bytes: Seq<u8>) -> Seq<u8> {
    Seq::new(
        ((bytes.len() / 16) * 64) as nat,
        |k: int| tile_pixel(bytes, (k / 64) * 16, (k % 64) / 8, k % 8),
    )
}

fn pixel_of(p0: u8, p1: u8, x: usize) -> (v: u8)
    requires
        x < 8,
    ensures
        v == (((p0 >> ((7 - x) as u8)) & 1) | (((p1 >> ((7 - x) as u8)) & 1) << 1u8)) as u8,
        v < 4,
{
    let sh: u8 = (7 - x) as u8;
    let v = ((p0 >> sh) & 1) | (((p1 >> sh) & 1) << 1);
    assert(v < 4) by (bit_vector)
        requires v == ((p0 >> sh) & 1) | (((p1 >> sh) & 1) << 1u8);
    v
}

/// Decode 2bpp planar tile data into palette indices (0..=3), 64 per whole
/// tile; a trailing partial tile is ignored.
pub fn decode_2bpp_planar_indices(bytes: &[u8]) -> (out: Vec<u8>)
    ensures
        out@ == decoded_indices(bytes@),
        forall|k: int| 0 <= k < out@.len() ==> out@[k] < 4,
{
    let tiles = bytes.len() / 16;
    let mut out: Vec<u8> = Vec::new();
    let mut t: usize = 0;
    while t < tiles
        invariant
            tiles == bytes@.len() / 16,
            bytes@.len() <= usize::MAX,
            t <= tiles,
            out@.len() == t * 64,
            forall|k: int| 0 <= k < out@.len() ==> out@[k] == decoded_indices(bytes@)[k] && out@[k] < 4,
        decreases tiles - t,
    {
        let mut y: usize = 0;
        while y < 8
            invariant
                tiles == bytes@.len() / 16,
                bytes@.len() <= usize::MAX,
                t < tiles,
                y <= 8,
                out@.len() == t * 64 + y * 8,
                forall|k: int| 0 <= k < out@.len() ==> out@[k] == decoded_indices(bytes@)[k] && out@[k] < 4,
            decreases 8 - y,
        {
            proof {
                assert(t * 16 + 16 <= bytes@.len()) by (nonlinear_arith)
                    requires t < tiles, tiles == bytes@.len() / 16;
            }
            let base: usize = t * 16;
            let p0 = bytes[base + y];
            let p1 = bytes[base + 8 + y];
            let mut x: usize = 0;
            while x < 8
                invariant
                    tiles == bytes@.len() / 16,
                    t < tiles,
                    y < 8,
                    x <= 8,
                    p0 == bytes@[t * 16 + y],
                    p1 == bytes@[t * 16 + 8 + y],
                    out@.len() == t * 64 + y * 8 + x,
                    forall|k: int| 0 <= k < out@.len() ==> out@[k] == decoded_indices(bytes@)[k] && out@[k] < 4,
                decreases 8 - x,
            {
                let v = pixel_of(p0, p1, x);
                proof {
                    let k = (t * 64 + y * 8 + x) as int;
                    assert(k / 64 == t && (k % 64) / 8 == y && k % 8 == x) by (nonlinear_arith)
                        requires k == t * 64 + y * 8 + x, y < 8, x < 8;
                    assert(k < (bytes@.len() / 16) * 64) by (nonlinear_arith)
                        requires k == t * 64 + y * 8 + x, y < 8, x < 8, t < bytes@.len() / 16;
                }
                out.push(v);
                x += 1;
            }
            y += 1;
        }
        t += 1;
    }
    assert(out@ =~= decoded_indices(bytes@));
    out
}

/// Encode one row of eight palette indices into its two bit planes: pixel
/// `x`'s low bit becomes bit `7 - x` of plane 0, its high bit bit `7 - x` of
/// plane 1.
pub fn encode_2bpp_planar_row(row: &[u8; 8]) -> (planes: (u8, u8))
    ensures
        forall|x: int|
            0 <= x < 8 ==> ((planes.0 >> ((7 - x) as u8)) & 1) == row@[x] & 1 && ((planes.1 >> ((7
                - x) as u8)) & 1) == (row@[x] >> 1u8) & 1,
{
    let r0 = row[0];
    let r1 = row[1];
    let r2 = row[2];
    let r3 = row[3];
    let r4 = row[4];
    let r5 = row[5];
    let r6 = row[6];
    let r7 = row[7];
    let lo = ((r0 & 1) << 7) | ((r1 & 1) << 6) | ((r2 & 1) << 5) | ((r3 & 1) << 4) | ((r4 & 1) << 3)
        | ((r5 & 1) << 2) | ((r6 & 1) << 1) | (r7 & 1);
    let hi = (((r0 >> 1) & 1) << 7) | (((r1 >> 1) & 1) << 6) | (((r2 >> 1) & 1) << 5) | (((r3 >> 1)
        & 1) << 4) | (((r4 >> 1) & 1) << 3) | (((r5 >> 1) & 1) << 2) | (((r6 >> 1) & 1) << 1) | ((r7
        >> 1) & 1);
    assert(((lo >> 7u8) & 1) == r0 & 1 && ((lo >> 6u8) & 1) == r1 & 1 && ((lo >> 5u8) & 1) == r2 & 1
        && ((lo >> 4u8) & 1) == r3 & 1 && ((lo >> 3u8) & 1) == r4 & 1 && ((lo >> 2u8) & 1) == r5 & 1
        && ((lo >> 1u8) & 1) == r6 & 1 && ((lo >> 0u8) & 1) == r7 & 1) by (bit_vector)
        requires
            lo == ((r0 & 1) << 7u8) | ((r1 & 1) << 6u8) | ((r2 & 1) << 5u8) | ((r3 & 1) << 4u8) | ((r4
                & 1) << 3u8) | ((r5 & 1) << 2u8) | ((r6 & 1) << 1u8) | (r7 & 1),
    ;
    assert(((hi >> 7u8) & 1) == (r0 >> 1u8) & 1 && ((hi >> 6u8) & 1) == (r1 >> 1u8) & 1 && ((hi
        >> 5u8) & 1) == (r2 >> 1u8) & 1 && ((hi >> 4u8) & 1) == (r3 >> 1u8) & 1 && ((hi >> 3u8) & 1)
        == (r4 >> 1u8) & 1 && ((hi >> 2u8) & 1) == (r5 >> 1u8) & 1 && ((hi >> 1u8) & 1) == (r6
        >> 1u8) & 1 && ((hi >> 0u8) & 1) == (r7 >> 1u8) & 1) by (bit_vector)
        requires
            hi == (((r0 >> 1u8) & 1) << 7u8) | (((r1 >> 1u8) & 1) << 6u8) | (((r2 >> 1u8) & 1) << 5u8)
                | (((r3 >> 1u8) & 1) << 4u8) | (((r4 >> 1u8) & 1) << 3u8) | (((r5 >> 1u8) & 1) << 2u8)
                | (((r6 >> 1u8) & 1) << 1u8) | ((r7 >> 1u8) & 1),
    ;
    (lo, hi)
}

proof fn lemma_two_bits(v: u8)
    requires
        v < 4,
    ensures
        ((v & 1) | (((v >> 1u8) & 1) << 1u8)) == v,
{
    assert(((v & 1) | (((v >> 1u8) & 1) << 1u8)) == v) by (bit_vector)
        requires v < 4;
}

/// Encode a whole tile's 64 palette indices (row-major, 8x8) back into its
/// 16-byte 2bpp planar form: rows' plane-0 bytes first, then plane-1 bytes.
pub fn encode_tile_bytes(indices: &[u8]) -> (out: [u8; 16])
    requires
        indices@.len() == 64,
    ensures
        forall|y: int, x: int|
            0 <= y < 8 && 0 <= x < 8 ==> #[trigger] tile_pixel(out@, 0, y, x) == (indices@[y * 8
                + x] & 1) | (((indices@[y * 8 + x] >> 1u8) & 1) << 1u8),
{
    let mut out = [0u8; 16];
    let mut y: usize = 0;
    while y < 8
        invariant
            indices@.len() == 64,
            y <= 8,
            out@.len() == 16,
            forall|yy: int, x: int|
                0 <= yy < y && 0 <= x < 8 ==> #[trigger] tile_pixel(out@, 0, yy, x) == (indices@[yy
                    * 8 + x] & 1) | (((indices@[yy * 8 + x] >> 1u8) & 1) << 1u8),
        decreases 8 - y,
    {
        let row: [u8; 8] = [
            indices[y * 8],
            indices[y * 8 + 1],
            indices[y * 8 + 2],
            indices[y * 8 + 3],
            indices[y * 8 + 4],
            indices[y * 8 + 5],
            indices[y * 8 + 6],
            indices[y * 8 + 7],
        ];
        let (plane0, plane1) = encode_2bpp_planar_row(&row);
        let ghost before = out@;
        out[y] = plane0;
        out[8 + y] = plane1;
        proof {
            assert forall|yy: int, x: int| 0 <= yy <= y && 0 <= x < 8 implies #[trigger] tile_pixel(
                out@,
                0,
                yy,
                x,
            ) == (indices@[yy * 8 + x] & 1) | (((indices@[yy * 8 + x] >> 1u8) & 1) << 1u8) by {
                if yy < y {
                    assert(tile_pixel(out@, 0, yy, x) == tile_pixel(before, 0, yy, x));
                } else {
                    assert(row@[x] == indices@[yy * 8 + x]);
                    let sh = (7 - x) as u8;
                    let a = (plane0 >> sh) & 1;
                    let b = (plane1 >> sh) & 1;
                    let r = row@[x];
                    assert(a == r & 1 && b == (r >> 1u8) & 1);
                }
            }
        }
        y += 1;
    }
    out
}

/// Decoding an encoded tile gives back its indices when each is 0..=3.
pub proof fn lemma_tile_round_trip(indices: Seq<u8>, bytes: Seq<u8>)
    requires
        indices.len() == 64,
        forall|k: int| 0 <= k < 64 ==> indices[k] < 4,
        bytes.len() == 16,
        forall|y: int, x: int|
            0 <= y < 8 && 0 <= x < 8 ==> #[trigger] tile_pixel(bytes, 0, y, x) == (indices[y * 8 + x]
                & 1) | (((indices[y * 8 + x] >> 1u8) & 1) << 1u8),
    ensures
        decoded_indices(bytes) == indices,
{
    assert forall|k: int| 0 <= k < 64 implies #[trigger] decoded_indices(bytes)[k] == indices[k] by {
        let y = (k % 64) / 8;
        let x = k % 8;
        assert(k / 64 == 0 && y * 8 + x == k && 0 <= y < 8 && 0 <= x < 8) by (nonlinear_arith)
            requires 0 <= k < 64, y == (k % 64) / 8, x == k % 8;
        assert(tile_pixel(bytes, 0, y, x) == (indices[k] & 1) | (((indices[k] >> 1u8) & 1) << 1u8));
        lemma_two_bits(indices[k]);
    }
    assert(decoded_indices(bytes) =~= indices);
}

// ── iNES CHR-ROM location ───────────────────────────────────────────────

/// Why a file has no CHR-ROM span.
#[derive(Clone, Copy, Debug, PartialEq, Eq, Structural)]
pub enum ChrSpanError {
    /// Shorter than the 16-byte header, or the "NES\x1A" magic is absent.
    NotInes,
    /// The header declares zero CHR-ROM banks: a CHR-RAM cart.
    ChrRam,
    /// The declared CHR-ROM runs past the end of the file.
    Truncated,
}

pub open spec fn chr_error_text(e: ChrSpanError) -> Seq<char> {
    match e {
        ChrSpanError::NotInes => "not an iNES file"@,
        ChrSpanError::ChrRam => "CHR-RAM cart (0 CHR-ROM banks in the header)"@,
        ChrSpanError::Truncated => "file shorter than its declared CHR-ROM"@,
    }
}

impl ChrSpanError {
    /// A one-line description.
    pub fn message(&self) -> (s: &'static str)
        ensures
            s@ == chr_error_text(*self),
    {
        match self {
            ChrSpanError::NotInes => "not an iNES file",
            ChrSpanError::ChrRam => "CHR-RAM cart (0 CHR-ROM banks in the header)",
            ChrSpanError::Truncated => "file shorter than its declared CHR-ROM",
        }
    }
}

/// Where CHR-ROM lies in an iNES file: after the 16-byte header, the
/// optional 512-byte trainer (flags 6 bit 2) and `rom[4]` 16KiB PRG banks,
/// spanning `rom[5]` 8KiB banks.
pub open spec fn chr_span_spec(rom: Seq<u8>) -> Result<(usize, usize), ChrSpanError> {
    if rom.len() < 16 || rom[0] != 0x4E || rom[1] != 0x45 || rom[2] != 0x53 || rom[3] != 0x1A {
        Err(ChrSpanError::NotInes)
    } else {
        let start = 16 + (if rom[6] & 4 != 0 { 512int } else { 0 }) + rom[4] * 16384;
        let end = start + rom[5] * 8192;
        if rom[5] == 0 {
            Err(ChrSpanError::ChrRam)
        } else if end > rom.len() {
            Err(ChrSpanError::Truncated)
        } else {
            Ok((start as usize, end as usize))
        }
    }
}

/// Locate the CHR-ROM byte range `[start, end)` of an iNES file.
pub fn chr_span(rom: &[u8]) -> (r: Result<(usize, usize), ChrSpanError>)
    ensures
        r == chr_span_spec(rom@),
{
    if rom.len() < 16 || rom[0] != 0x4E || rom[1] != 0x45 || rom[2] != 0x53 || rom[3] != 0x1A {
        return Err(ChrSpanError::NotInes);
    }
    let trainer: usize = if rom[6] & 4 != 0 { 512 } else { 0 };
    let start: usize = 16 + trainer + rom[4] as usize * 16384;
    if rom[5] == 0 {
        return Err(ChrSpanError::ChrRam);
    }
    let chr: usize = rom[5] as usize * 8192;
    if start > rom.len() || chr > rom.len() - start {
        return Err(ChrSpanError::Truncated);
    }
    Ok((start, start + chr))
}

// ── background attribute table ─────────────────────────────────────────

/// The 2-bit background sub-palette of tile `(tx, ty)`: the attribute byte
/// of its 4x4-tile block, field 0 for the top-left 2x2 quadrant, 1 top-right,
/// 2 bottom-left, 3 bottom-right.
pub open spec fn attr_palette(attrs: Seq<u8>, tx: int, ty: int) -> u8 {
    let byte = attrs[(ty / 4) * 8 + tx / 4];
    let field = ((ty / 2) % 2) * 2 + (tx / 2) % 2;
    (byte >> ((2 * field) as u8)) & 3
}

/// Select the background sub-palette for tile `(tx, ty)` of a 32x30
/// nametable from its 64-byte attribute table.
pub fn attr_palette_select(attrs: &[u8], tx: usize, ty: usize) -> (p: u8)
    requires
        attrs@.len() >= 64,
        tx < 32,
        ty < 30,
    ensures
        p == attr_palette(attrs@, tx as int, ty as int),
        p < 4,
{
    let byte = attrs[(ty / 4) * 8 + (tx / 4)];
    let shift = ((ty & 2) << 1) | (tx & 2);
    assert(shift == 2 * (((ty / 2) % 2) * 2 + (tx / 2) % 2)) by (bit_vector)
        requires shift == ((ty & 2) << 1usize) | (tx & 2), tx < 32, ty < 30;
    let r = (byte >> (shift as u8)) & 0x3;
    assert(r < 4) by (bit_vector)
        requires r == (byte >> (shift as u8)) & 3;
    r
}

/// Color source for composing a nametable: live PALRAM or, when PALRAM is
/// unreadable, the structure-only gray ramp.
pub enum ColorSource {
    Palram([u8; 32]),
    GrayStructureOnly,
}

/// The color a background pixel of value `v` shows under sub-palette `pal`.
pub open spec fn bg_rgba(colors: ColorSource, v: u8, pal: u8) -> Seq<u8> {
    match colors {
        ColorSource::Palram(p) => {
            let rgb = spec_nes_rgb(if v == 0 { p@[0] } else { p@[pal * 4 + v] });
            seq![rgb[0], rgb[1], rgb[2], 255u8]
        },
        ColorSource::GrayStructureOnly => seq![gray_level(v, 4), gray_level(v, 4), gray_level(v, 4), 255u8],
    }
}

impl ColorSource {
    /// RGBA for 2bpp pixel value `v` under background sub-palette `pal`.
    /// Pixel value 0 is always the universal backdrop (PALRAM byte 0).
    pub fn rgba(&self, v: u8, pal: u8) -> (c: [u8; 4])
        requires
            v < 4,
            pal < 4,
        ensures
            c@ == bg_rgba(*self, v, pal),
    {
        match self {
            ColorSource::Palram(palram) => {
                let idx = if v == 0 {
                    palram[0]
                } else {
                    palram[(pal as usize) * 4 + v as usize]
                };
                let c = nes_rgb(idx);
                [c[0], c[1], c[2], 255]
            },
            ColorSource::GrayStructureOnly => gray_ramp_rgba(v, 4),
        }
    }
}

// ── OAM sprites ─────────────────────────────────────────────────────────

/// Sprites in OAM.
pub const SPRITE_COUNT: usize = 64;
/// A sprite with Y at or above this is parked off-screen (inactive).
pub const ACTIVE_Y_MAX: u8 = 0xEF;

/// One OAM entry: its index and the four raw bytes.
#[derive(Clone, Copy, PartialEq, Eq, Debug, Structural)]
pub struct Sprite {
    pub index: u8,
    pub y: u8,
    pub tile: u8,
    pub attr: u8,
    pub x: u8,
}

impl Sprite {
    /// Sprite sub-palette select: attribute bits 0-1.
    pub fn palette(&self) -> (p: u8)
        ensures
            p == self.attr & 3,
    {
        self.attr & 0x03
    }

    /// Attribute bit 6: flip horizontally.
    pub fn h_flip(&self) -> (b: bool)
        ensures
            b == (self.attr & 0x40 != 0),
    {
        self.attr & 0x40 != 0
    }

    /// Attribute bit 7: flip vertically.
    pub fn v_flip(&self) -> (b: bool)
        ensures
            b == (self.attr & 0x80 != 0),
    {
        self.attr & 0x80 != 0
    }

    /// Attribute bit 5: draw behind opaque background pixels.
    pub fn behind_bg(&self) -> (b: bool)
        ensures
            b == (self.attr & 0x20 != 0),
    {
        self.attr & 0x20 != 0
    }
}

/// The `i`-th OAM entry of an image.
pub open spec fn oam_entry(oam: Seq<u8>, i: int) -> Sprite {
    Sprite {
        index: i as u8,
        y: oam[4 * i],
        tile: oam[4 * i + 1],
        attr: oam[4 * i + 2],
        x: oam[4 * i + 3],
    }
}

/// The active sprites among the first `n` whole entries, in OAM order.
pub open spec fn active_prefix(oam: Seq<u8>, n: int) -> Seq<Sprite>
    decreases n,
{
    if n <= 0 {
        Seq::empty()
    } else if oam[4 * (n - 1)] < ACTIVE_Y_MAX {
        active_prefix(oam, n - 1).push(oam_entry(oam, n - 1))
    } else {
        active_prefix(oam, n - 1)
    }
}

/// Whole OAM entries present in an image (at most 64).
pub open spec fn oam_entries(oam: Seq<u8>) -> int {
    if oam.len() / 4 < 64 { (oam.len() / 4) as int } else { 64 }
}

/// Decode the active sprites (Y below 0xEF) from an OAM image, in OAM index
/// order; a short image yields the whole entries it contains.
pub fn decode_active_sprites(oam: &[u8]) -> (out: Vec<Sprite>)
    ensures
        out@ == active_prefix(oam@, oam_entries(oam@)),
{
    let mut out: Vec<Sprite> = Vec::new();
    let mut i: usize = 0;
    while i < SPRITE_COUNT && i * 4 + 3 < oam.len()
        invariant
            i <= SPRITE_COUNT,
            i <= oam_entries(oam@),
            out@ == active_prefix(oam@, i as int),
        decreases SPRITE_COUNT - i,
    {
        let base = i * 4;
        let y = oam[base];
        if y < ACTIVE_Y_MAX {
            out.push(Sprite { index: i as u8, y, tile: oam[base + 1], attr: oam[base + 2], x: oam[base + 3] });
        }
        i += 1;
    }
    out
}

} // verus!
