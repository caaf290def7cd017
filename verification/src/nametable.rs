//! The background view: a 32x30-tile nametable composed from live NTARAM,
//! its attribute table, PALRAM colors and the operator-chosen CHR bank.
use vstd::prelude::*;
use crate::chr_rom::{chr_load_ok, load_chr, opt_bytes, opt_str, ChrLoad, ChrStatus};
use crate::nes::{attr_palette, attr_palette_select, bg_rgba, ColorSource, TILES_PER_PATTERN_TABLE};
use crate::sprites::{all_2bpp, px_x, px_y, SCREEN_PX};

verus! {

/// Tiles across a nametable.
pub const NT_COLS: usize = 32;
/// Tiles down a nametable.
pub const NT_ROWS: usize = 30;
/// Bytes of one nametable including its attribute table.
pub const NT_BYTES: usize = 1024;
/// Where the 64-byte attribute table starts.
pub const ATTR_OFFSET: usize = 960;

/// Pixel `p` of a composed nametable: tile `(x / 8, y / 8)` drawn from CHR
/// with its attribute sub-palette, or the backdrop where the tile index
/// lies outside the decoded CHR.
pub open spec fn nt_pixel(nt: Seq<u8>, chr: Seq<u8>, tile_base: int, colors: ColorSource, p: int) -> Seq<u8> {
    let x = px_x(p);
    let y = px_y(p);
    let tx = x / 8;
    let ty = y / 8;
    let tile = tile_base + nt[ty * 32 + tx];
    if tile < chr.len() / 64 {
        bg_rgba(colors, chr[tile * 64 + (y % 8) * 8 + x % 8], attr_palette(nt.subrange(960, 1024), tx, ty))
    } else {
        bg_rgba(colors, 0, 0)
    }
}

/// Compose one 1KB nametable (960 tile bytes + 64 attribute bytes) into a
/// 256x240 RGBA image. `tile_base` is the absolute tile index of the chosen
/// bank and pattern-table half.
pub fn render_nametable_image(nt: &[u8], chr_indices: &[u8], tile_base: usize, colors: &ColorSource) -> (img: Vec<[u8; 4]>)
    requires
        nt@.len() >= NT_BYTES,
        all_2bpp(chr_indices@),
        tile_base + 255 <= usize::MAX,
    ensures
        img@.len() == SCREEN_PX,
        forall|p: int| 0 <= p < SCREEN_PX ==> (#[trigger] img@[p])@ == nt_pixel(nt@, chr_indices@, tile_base as int, *colors, p),
{
    let attrs = &nt[ATTR_OFFSET..NT_BYTES];
    let chr_len = chr_indices.len();
    let tile_count = chr_len / 64;
    proof {
        assert(tile_count * 64 <= chr_indices@.len()) by (nonlinear_arith)
            requires tile_count == chr_indices@.len() / 64;
    }
    let mut pixels: Vec<[u8; 4]> = Vec::new();
    let mut p: usize = 0;
    while p < SCREEN_PX
        invariant
            p <= SCREEN_PX,
            pixels@.len() == p,
            nt@.len() >= NT_BYTES,
            attrs@ == nt@.subrange(960, 1024),
            tile_count == chr_indices@.len() / 64,
            tile_count * 64 <= chr_indices@.len(),
            chr_len == chr_indices@.len(),
            all_2bpp(chr_indices@),
            tile_base + 255 <= usize::MAX,
            forall|q: int| 0 <= q < p ==> (#[trigger] pixels@[q])@ == nt_pixel(nt@, chr_indices@, tile_base as int, *colors, q),
        decreases SCREEN_PX - p,
    {
        let x = p % 256;
        let y = p / 256;
        let tx = x / 8;
        let ty = y / 8;
        let tile = tile_base + nt[ty * NT_COLS + tx] as usize;
        let c = if tile < tile_count {
            let pal = attr_palette_select(attrs, tx, ty);
            proof {
                assert(tile * 64 + 64 <= tile_count * 64) by (nonlinear_arith)
                    requires tile < tile_count;
                assert((y % 8) * 8 + x % 8 < 64) by (nonlinear_arith) requires y >= 0, x >= 0;
            }
            let v = chr_indices[tile * 64 + (y % 8) * 8 + x % 8];
            colors.rgba(v, pal)
        } else {
            colors.rgba(0, 0)
        };
        pixels.push(c);
        p += 1;
    }
    pixels
}

/// Which nametable(s) the view shows.
#[derive(Clone, Copy, PartialEq, Eq, Debug, Structural)]
pub enum NametableView {
    Nt0,
    Nt1,
    Both,
}

/// The nametable indices a view shows, in display order.
pub fn wanted_tables(view: NametableView) -> (w: Vec<usize>)
    ensures
        w@ == match view {
            NametableView::Nt0 => seq![0usize],
            NametableView::Nt1 => seq![1usize],
            NametableView::Both => seq![0usize, 1usize],
        },
{
    match view {
        NametableView::Nt0 => vec![0],
        NametableView::Nt1 => vec![1],
        NametableView::Both => vec![0, 1],
    }
}

/// Nametable viewer state.
pub struct NametablePanel {
    pub status: ChrStatus,
    /// Decoded palette indices for the whole CHR-ROM span, tile-major.
    pub chr_indices: Vec<u8>,
    pub bank_count: usize,
    /// Operator-picked CHR bank: a runtime mapper fact that cannot be read
    /// back, so a choice, never a claim.
    pub selected_bank: usize,
    /// Background pattern-table half: 0 => $0000, 1 => $1000.
    pub pattern_table: usize,
    pub view: NametableView,
}

impl NametablePanel {
    pub fn new() -> (p: Self)
        ensures
            p.status is NoRom,
            p.chr_indices@.len() == 0,
            p.bank_count == 0,
            p.selected_bank == 0,
            p.pattern_table == 0,
            p.view == NametableView::Nt0,
    {
        NametablePanel {
            status: ChrStatus::NoRom,
            chr_indices: Vec::new(),
            bank_count: 0,
            selected_bank: 0,
            pattern_table: 0,
            view: NametableView::Nt0,
        }
    }

    /// (Re)decode CHR from a fresh ROM snapshot (once per ROM identity):
    /// `file_bytes` is what reading the ROM path gave, if a path is known.
    pub fn load(&mut self, rom_system: Option<&str>, rom_bytes: Option<Vec<u8>>, has_path: bool, file_bytes: Option<Vec<u8>>)
        ensures
            chr_load_ok(
                ChrLoad { status: final(self).status, chr_indices: final(self).chr_indices, bank_count: final(self).bank_count },
                opt_str(rom_system), opt_bytes(rom_bytes), has_path, opt_bytes(file_bytes), "tiles"@,
            ),
            all_2bpp(final(self).chr_indices@),
            final(self).selected_bank == 0,
            final(self).pattern_table == old(self).pattern_table,
            final(self).view == old(self).view,
    {
        let l = load_chr(rom_system, rom_bytes, has_path, file_bytes, "tiles");
        self.status = l.status;
        self.chr_indices = l.chr_indices;
        self.bank_count = l.bank_count;
        self.selected_bank = 0;
    }

    /// Absolute tile index of the chosen bank's chosen pattern-table half.
    pub fn tile_base(&self) -> (b: usize)
        requires
            self.selected_bank * 512 + self.pattern_table * 256 <= usize::MAX,
        ensures
            b == self.selected_bank * 512 + self.pattern_table * 256,
    {
        self.selected_bank * 512 + self.pattern_table * TILES_PER_PATTERN_TABLE
    }
}

} // verus!
