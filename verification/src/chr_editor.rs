//! The CHR tile editor's model: a working copy of the cartridge whose
//! CHR-ROM tiles are painted pixel by pixel, an undo stack of pre-edit tile
//! bytes, and the reconstruction of header + PRG + CHR written on save.
use vstd::prelude::*;
use std::collections::HashSet;
use crate::chr_rom::{opt_bytes, opt_str, ChrStatus};
use crate::fmt::{dec, push_dec, push_str};
use crate::nes::{
    chr_error_text, chr_span, chr_span_spec, decode_2bpp_planar_indices, decoded_indices, encode_tile_bytes,
    lemma_tile_round_trip, tile_pixel, ChrSpanError,
};

verus! {

/// Tiles per 8KB CHR bank.
pub const TILES_PER_BANK: usize = 512;

/// Where an iNES file's PRG-ROM lies: after the header and the optional
/// 512-byte trainer, `rom[4]` 16KiB banks long. `None` for a file without
/// an iNES header.
pub open spec fn prg_span_spec(rom: Seq<u8>) -> Option<(int, int)> {
    if rom.len() < 16 || rom[0] != 0x4E || rom[1] != 0x45 || rom[2] != 0x53 || rom[3] != 0x1A {
        None
    } else {
        Some((16 + (if rom[6] & 4 != 0 { 512int } else { 0 }), rom[4] * 16384))
    }
}

/// Tile `t`'s 16 bytes within `chr`.
pub open spec fn tile_slice(chr: Seq<u8>, t: int) -> Seq<u8> {
    chr.subrange(t * 16, t * 16 + 16)
}

/// `bytes` with the 16 bytes of tile `t` replaced.
pub open spec fn with_tile_bytes(bytes: Seq<u8>, t: int, b: Seq<u8>) -> Seq<u8> {
    bytes.subrange(0, t * 16) + b + bytes.subrange(t * 16 + 16, bytes.len() as int)
}

/// `idx` with the 64 indices of tile `t` replaced.
pub open spec fn with_tile_indices(idx: Seq<u8>, t: int, v: Seq<u8>) -> Seq<u8> {
    idx.subrange(0, t * 64) + v + idx.subrange(t * 64 + 64, idx.len() as int)
}

/// Decoding is local to each tile: replacing one tile's bytes replaces just
/// that tile's indices.
proof fn lemma_decode_tile_local(bytes: Seq<u8>, t: int, b: Seq<u8>)
    requires
        bytes.len() % 16 == 0,
        0 <= t < bytes.len() / 16,
        b.len() == 16,
    ensures
        decoded_indices(with_tile_bytes(bytes, t, b)) == with_tile_indices(decoded_indices(bytes), t, decoded_indices(b)),
{
    let nb = with_tile_bytes(bytes, t, b);
    let lhs = decoded_indices(nb);
    let rhs = with_tile_indices(decoded_indices(bytes), t, decoded_indices(b));
    assert(nb.len() == bytes.len());
    assert(decoded_indices(b).len() == 64);
    assert((bytes.len() / 16) * 64 >= t * 64 + 64) by (nonlinear_arith)
        requires 0 <= t < bytes.len() / 16;
    assert(lhs.len() == rhs.len());
    assert forall|k: int| 0 <= k < lhs.len() implies lhs[k] == rhs[k] by {
        let tk = k / 64;
        let y = (k % 64) / 8;
        let x = k % 8;
        assert(0 <= y < 8 && 0 <= x < 8 && tk >= 0) by (nonlinear_arith)
            requires 0 <= k, y == (k % 64) / 8, x == k % 8, tk == k / 64;
        assert(tk < bytes.len() / 16) by (nonlinear_arith)
            requires 0 <= k < (bytes.len() / 16) * 64, tk == k / 64;
        assert(tk * 16 + 15 < bytes.len()) by (nonlinear_arith)
            requires tk < bytes.len() / 16, bytes.len() % 16 == 0, tk >= 0;
        if tk == t {
            let kk = k - t * 64;
            assert(0 <= kk < 64 && kk / 64 == 0 && (kk % 64) / 8 == y && kk % 8 == x) by (nonlinear_arith)
                requires tk == t, tk == k / 64, y == (k % 64) / 8, x == k % 8, kk == k - t * 64, 0 <= k;
            assert(rhs[k] == decoded_indices(b)[kk]);
            assert(nb[t * 16 + y] == b[y]);
            assert(nb[t * 16 + 8 + y] == b[8 + y]);
        } else {
            assert(rhs[k] == decoded_indices(bytes)[k]);
            assert(nb[tk * 16 + y] == bytes[tk * 16 + y]) by {
                if tk < t {
                    assert(tk * 16 + y < t * 16);
                } else {
                    assert(tk * 16 + y >= t * 16 + 16);
                }
            }
            assert(nb[tk * 16 + 8 + y] == bytes[tk * 16 + 8 + y]) by {
                if tk < t {
                    assert(tk * 16 + 8 + y < t * 16);
                } else {
                    assert(tk * 16 + 8 + y >= t * 16 + 16);
                }
            }
        }
    }
    assert(lhs =~= rhs);
}

/// Decoded pixels are 2-bit palette indices.
proof fn lemma_decoded_2bpp(bytes: Seq<u8>)
    ensures
        forall|k: int| 0 <= k < decoded_indices(bytes).len() ==> #[trigger] decoded_indices(bytes)[k] < 4,
{
    assert forall|k: int| 0 <= k < decoded_indices(bytes).len() implies #[trigger] decoded_indices(bytes)[k] < 4 by {
        let base = (k / 64) * 16;
        let y = (k % 64) / 8;
        let x = k % 8;
        let a = bytes[base + y];
        let b = bytes[base + 8 + y];
        let sh = (7 - x) as u8;
        let v = (((a >> sh) & 1) | (((b >> sh) & 1) << 1u8)) as u8;
        assert(v < 4) by (bit_vector)
            requires v == (((a >> sh) & 1) | (((b >> sh) & 1) << 1u8)) as u8;
    }
}

/// CHR tile editor state.
pub struct ChrEditor {
    pub status: ChrStatus,
    /// The whole cartridge, patched in place as tiles are edited.
    pub file_bytes: Vec<u8>,
    pub chr_start: usize,
    pub chr_len: usize,
    pub prg_start: usize,
    pub prg_len: usize,
    pub header: [u8; 16],
    pub tile_count: usize,
    pub bank_count: usize,
    /// Palette indices of every CHR tile, kept equal to the decoded CHR
    /// bytes on every edit and undo.
    pub chr_indices: Vec<u8>,
    /// Tiles edited this session (undo does not clear the mark).
    pub dirty_tiles: HashSet<usize>,
    /// One entry per edit: the tile and its bytes before the edit.
    pub undo_stack: Vec<(usize, [u8; 16])>,
    pub selected_bank: usize,
    pub selected_tile: Option<usize>,
    pub hide_blank: bool,
    /// The palette index the next click paints with.
    pub draw_index: u8,
    pub save_path_input: String,
    pub save_note: Option<String>,
    /// Confirmation for a save that would overwrite an existing file.
    pub overwrite_confirmed: bool,
}

impl ChrEditor {
    /// The CHR bytes of the working copy.
    pub open spec fn chr_bytes(&self) -> Seq<u8> {
        self.file_bytes@.subrange(self.chr_start as int, self.chr_start + self.chr_len)
    }

    /// A loaded editor's CHR decode matches its bytes, every undo entry
    /// names a real tile, and PRG and CHR lie within the file.
    pub open spec fn wf(&self) -> bool {
        if self.status is Ready {
            &&& self.chr_start + self.chr_len <= self.file_bytes@.len()
            &&& self.prg_start + self.prg_len <= self.file_bytes@.len()
            &&& self.chr_len == self.tile_count * 16
            &&& self.chr_indices@ == decoded_indices(self.chr_bytes())
            &&& forall|i: int| 0 <= i < self.undo_stack@.len() ==> (#[trigger] self.undo_stack@[i]).0 < self.tile_count
        } else {
            &&& self.chr_indices@.len() == 0
            &&& self.tile_count == 0
            &&& self.undo_stack@.len() == 0
        }
    }

    pub fn new() -> (e: Self)
        ensures
            e.wf(),
            e.status is NoRom,
            e.file_bytes@.len() == 0,
            e.draw_index == 3,
            e.dirty_tiles@.len() == 0,
            !e.overwrite_confirmed,
            e.chr_start == 0 && e.chr_len == 0 && e.prg_start == 0 && e.prg_len == 0,
            e.header@ == Seq::new(16, |_i: int| 0u8),
            e.tile_count == 0 && e.bank_count == 0,
            e.chr_indices@.len() == 0,
            e.undo_stack@.len() == 0,
            e.selected_bank == 0,
            e.selected_tile is None,
            !e.hide_blank,
            e.save_path_input@.len() == 0,
            e.save_note is None,
    {
        let e = ChrEditor {
            status: ChrStatus::NoRom,
            file_bytes: Vec::new(),
            chr_start: 0,
            chr_len: 0,
            prg_start: 0,
            prg_len: 0,
            header: [0u8; 16],
            tile_count: 0,
            bank_count: 0,
            chr_indices: Vec::new(),
            dirty_tiles: HashSet::new(),
            undo_stack: Vec::new(),
            selected_bank: 0,
            selected_tile: None,
            hide_blank: false,
            draw_index: 3,
            save_path_input: String::new(),
            save_note: None,
            overwrite_confirmed: false,
        };
        assert(e.header@ =~= Seq::new(16, |_i: int| 0u8));
        e
    }

    fn reset_to(&mut self, status: ChrStatus)
        ensures
            final(self).status == status,
            final(self).file_bytes@.len() == 0,
            final(self).chr_indices@.len() == 0,
            final(self).tile_count == 0,
            final(self).undo_stack@.len() == 0,
            final(self).dirty_tiles@.len() == 0,
            final(self).selected_tile is None,
            final(self).save_note is None,
            !final(self).overwrite_confirmed,
            final(self).draw_index == old(self).draw_index,
    {
        self.status = status;
        self.file_bytes = Vec::new();
        self.chr_indices = Vec::new();
        self.tile_count = 0;
        self.bank_count = 0;
        self.undo_stack = Vec::new();
        self.dirty_tiles = HashSet::new();
        self.selected_tile = None;
        self.save_note = None;
        self.overwrite_confirmed = false;
    }

    /// (Re)load from a fresh ROM snapshot, discarding any edits:
    /// `file_bytes` is what reading the ROM path gave, if a path is known,
    /// and `save_path` the suggested save target.
    pub fn load(
        &mut self,
        rom_system: Option<&str>,
        rom_bytes: Option<Vec<u8>>,
        has_path: bool,
        file_bytes: Option<Vec<u8>>,
        save_path: String,
    )
        ensures
            final(self).wf(),
            final(self).undo_stack@.len() == 0,
            final(self).dirty_tiles@.len() == 0,
            final(self).draw_index == old(self).draw_index,
            crate::chr_rom::no_rom_given(opt_bytes(rom_bytes), has_path) ==> final(self).status is NoRom,
            !crate::chr_rom::no_rom_given(opt_bytes(rom_bytes), has_path) && opt_str(rom_system) != Some("nes"@) ==> (
                final(self).status matches ChrStatus::NotNes(s) && s@ == match opt_str(rom_system) {
                    Some(x) => x,
                    None => "unrecognized"@,
                }) && final(self).file_bytes@.len() == 0,
            !crate::chr_rom::no_rom_given(opt_bytes(rom_bytes), has_path) && opt_str(rom_system) == Some("nes"@) ==> match crate::chr_rom::rom_image(
                opt_bytes(rom_bytes),
                opt_bytes(file_bytes),
            ) {
                None => final(self).status is NoRom,
                Some(b) => match prg_span_spec(b) {
                    None => final(self).status matches ChrStatus::NoChr(m) && m@ == "This file has no iNES header \u{2014} nothing to edit."@,
                    Some((ps, pl)) => match chr_span_spec(b) {
                        Err(e) => final(self).status matches ChrStatus::NoChr(m) && m@ == no_chr_edit_text(e),
                        Ok((st, en)) => {
                            &&& final(self).status is Ready
                            &&& final(self).file_bytes@ == b
                            &&& final(self).chr_start == st
                            &&& final(self).chr_len == en - st
                            &&& final(self).prg_start == ps
                            &&& final(self).prg_len == pl
                            &&& final(self).header@ == b.subrange(0, 16)
                            &&& final(self).tile_count == (en - st) / 16
                            &&& final(self).bank_count == if (en - st) / 16 == 0 { 1 } else { ((en - st) / 16 + 511) / 512 }
                            &&& final(self).save_path_input == save_path
                        },
                    },
                },
            },
    {
        self.reset_to(ChrStatus::NoRom);
        let no_bytes = match &rom_bytes {
            Some(b) => b.len() == 0,
            None => true,
        };
        if !has_path && no_bytes {
            return;
        }
        let is_nes = match rom_system {
            Some(sys) => crate::debug_state::str_eq(sys, "nes"),
            None => false,
        };
        if !is_nes {
            let name = match rom_system {
                Some(sys) => sys.to_string(),
                None => "unrecognized".to_string(),
            };
            self.status = ChrStatus::NotNes(name);
            return;
        }
        let bytes = match rom_bytes {
            Some(b) if b.len() > 0 => b,
            _ => match file_bytes {
                Some(b) => b,
                None => {
                    return;
                },
            },
        };
        if bytes.len() < 16 || bytes[0] != 0x4E || bytes[1] != 0x45 || bytes[2] != 0x53 || bytes[3] != 0x1A {
            self.status = ChrStatus::NoChr("This file has no iNES header \u{2014} nothing to edit.".to_string());
            return;
        }
        let (chr_start, chr_end) = match chr_span(bytes.as_slice()) {
            Ok(span) => span,
            Err(e) => {
                let mut msg = String::new();
                push_str(&mut msg, "No CHR-ROM bytes in this file to edit: ");
                push_str(&mut msg, e.message());
                push_str(&mut msg, " (the graphics may live compressed in PRG-ROM, or only in live CHR-RAM via the core).");
                assert(msg@ =~= no_chr_edit_text(e));
                self.status = ChrStatus::NoChr(msg);
                return;
            },
        };
        let prg_start: usize = 16 + if bytes[6] & 4 != 0 { 512 } else { 0 };
        let prg_len: usize = bytes[4] as usize * 16384;
        let chr_len = chr_end - chr_start;
        let tile_count = chr_len / 16;
        let banks = tile_count / TILES_PER_BANK + if tile_count % TILES_PER_BANK == 0 { 0 } else { 1 };
        let header: [u8; 16] = [
            bytes[0], bytes[1], bytes[2], bytes[3], bytes[4], bytes[5], bytes[6], bytes[7],
            bytes[8], bytes[9], bytes[10], bytes[11], bytes[12], bytes[13], bytes[14], bytes[15],
        ];
        let ghost b = bytes@;
        proof {
            assert(header@ =~= b.subrange(0, 16));
            assert(chr_len % 16 == 0);
            assert(banks == if tile_count == 0 { 1 } else { (tile_count + 511) / 512 } || tile_count == 0);
        }
        self.chr_indices = decode_2bpp_planar_indices(&bytes.as_slice()[chr_start..chr_end]);
        self.prg_start = prg_start;
        self.prg_len = prg_len;
        self.chr_start = chr_start;
        self.chr_len = chr_len;
        self.header = header;
        self.tile_count = tile_count;
        self.bank_count = if banks < 1 { 1 } else { banks };
        self.selected_bank = 0;
        self.save_path_input = save_path;
        self.file_bytes = bytes;
        self.status = ChrStatus::Ready;
    }
}

/// The explanation shown when a file has no CHR-ROM to edit.
pub open spec fn no_chr_edit_text(e: ChrSpanError) -> Seq<char> {
    "No CHR-ROM bytes in this file to edit: "@ + chr_error_text(e)
        + " (the graphics may live compressed in PRG-ROM, or only in live CHR-RAM via the core)."@
}

/// The 16 bytes of `file` at `off`.
fn read_tile_bytes(file: &Vec<u8>, off: usize) -> (b: [u8; 16])
    requires
        off + 16 <= file@.len(),
    ensures
        b@ == file@.subrange(off as int, off + 16),
{
    let n = file.len();
    let mut pre = [0u8; 16];
    let mut i: usize = 0;
    while i < 16
        invariant
            i <= 16,
            n == file@.len(),
            off + 16 <= file@.len(),
            forall|j: int| 0 <= j < i ==> pre@[j] == file@[off + j],
        decreases 16 - i,
    {
        pre[i] = file[off + i];
        i += 1;
    }
    assert(pre@ =~= file@.subrange(off as int, off + 16));
    pre
}

/// Overwrite the 16 bytes of `file` at `off`.
fn write_tile_bytes(file: &mut Vec<u8>, off: usize, b: &[u8; 16])
    requires
        off + 16 <= old(file)@.len(),
    ensures
        final(file)@ == old(file)@.subrange(0, off as int) + b@ + old(file)@.subrange(off + 16, old(file)@.len() as int),
{
    let ghost f0 = file@;
    let n = file.len();
    let mut j: usize = 0;
    while j < 16
        invariant
            j <= 16,
            n == file@.len(),
            off + 16 <= file@.len(),
            file@.len() == f0.len(),
            forall|k: int| 0 <= k < file@.len() ==> #[trigger] file@[k] == if off <= k < off + j {
                b@[k - off]
            } else {
                f0[k]
            },
        decreases 16 - j,
    {
        file.set(off + j, b[j]);
        j += 1;
    }
    assert(file@ =~= f0.subrange(0, off as int) + b@ + f0.subrange(off + 16, f0.len() as int));
}

/// Overwrite the 64 indices of `idx` at `base`.
fn write_tile_indices(idx: &mut Vec<u8>, base: usize, v: &Vec<u8>)
    requires
        base + 64 <= old(idx)@.len(),
        v@.len() == 64,
    ensures
        final(idx)@ == old(idx)@.subrange(0, base as int) + v@ + old(idx)@.subrange(base + 64, old(idx)@.len() as int),
{
    let ghost i0 = idx@;
    let n = idx.len();
    let mut k: usize = 0;
    while k < 64
        invariant
            k <= 64,
            n == idx@.len(),
            base + 64 <= idx@.len(),
            idx@.len() == i0.len(),
            v@.len() == 64,
            forall|q: int| 0 <= q < idx@.len() ==> #[trigger] idx@[q] == if base <= q < base + k {
                v@[q - base]
            } else {
                i0[q]
            },
        decreases 64 - k,
    {
        idx.set(base + k, v[k]);
        k += 1;
    }
    assert(idx@ =~= i0.subrange(0, base as int) + v@ + i0.subrange(base + 64, i0.len() as int));
}

impl ChrEditor {
    /// Tile `t`'s 64 palette indices.
    pub fn tile_indices(&self, t: usize) -> (s: &[u8])
        requires
            self.wf(),
            self.status is Ready,
            t < self.tile_count,
        ensures
            s@ == self.chr_indices@.subrange(t * 64, t * 64 + 64),
    {
        proof {
            assert(decoded_indices(self.chr_bytes()).len() == self.tile_count * 64) by (nonlinear_arith)
                requires self.chr_bytes().len() == self.tile_count * 16;
            assert(t * 64 + 64 <= self.tile_count * 64) by (nonlinear_arith) requires t < self.tile_count;
        }
        let n = self.chr_indices.len();
        let base = t * 64;
        &self.chr_indices.as_slice()[base..base + 64]
    }

    /// Paint pixel `(cx, cy)` of tile `t` with the draw index: the tile's
    /// bytes are re-encoded in the working copy, its previous bytes pushed
    /// for undo and the tile marked edited. Painting the color a pixel
    /// already has changes nothing.
    pub fn paint_pixel(&mut self, t: usize, cx: usize, cy: usize)
        requires
            old(self).wf(),
            old(self).status is Ready,
            t < old(self).tile_count,
            cx < 8,
            cy < 8,
            old(self).draw_index < 4,
        ensures
            final(self).wf(),
            final(self).status is Ready,
            old(self).chr_indices@[t * 64 + cy * 8 + cx] == old(self).draw_index ==> *final(self) == *old(self),
            old(self).chr_indices@[t * 64 + cy * 8 + cx] != old(self).draw_index ==> {
                &&& final(self).chr_indices@ == old(self).chr_indices@.update(t * 64 + cy * 8 + cx, old(self).draw_index)
                &&& final(self).undo_stack@ == old(self).undo_stack@.push((t, final(self).undo_stack@.last().1))
                &&& final(self).undo_stack@.last().1@ == tile_slice(old(self).chr_bytes(), t as int)
                &&& final(self).dirty_tiles@ == old(self).dirty_tiles@.insert(t)
                &&& final(self).file_bytes@.len() == old(self).file_bytes@.len()
                &&& final(self).file_bytes@.subrange(0, old(self).chr_start + t * 16) == old(self).file_bytes@.subrange(0, old(self).chr_start + t * 16)
                &&& final(self).file_bytes@.subrange(old(self).chr_start + t * 16 + 16, old(self).file_bytes@.len() as int)
                    == old(self).file_bytes@.subrange(old(self).chr_start + t * 16 + 16, old(self).file_bytes@.len() as int)
                &&& final(self).chr_start == old(self).chr_start
                &&& final(self).chr_len == old(self).chr_len
                &&& final(self).prg_start == old(self).prg_start
                &&& final(self).prg_len == old(self).prg_len
                &&& final(self).header == old(self).header
                &&& final(self).tile_count == old(self).tile_count
                &&& final(self).draw_index == old(self).draw_index
            },
    {
        let ghost e0 = *self;
        let ghost chr0 = self.chr_bytes();
        let flen = self.file_bytes.len();
        let ilen = self.chr_indices.len();
        proof {
            assert(decoded_indices(chr0).len() == self.tile_count * 64) by (nonlinear_arith)
                requires chr0.len() == self.tile_count * 16;
            assert(t * 64 + 64 <= self.tile_count * 64) by (nonlinear_arith) requires t < self.tile_count;
            assert(t * 16 + 16 <= self.tile_count * 16) by (nonlinear_arith) requires t < self.tile_count;
            assert(cy * 8 + cx < 64) by (nonlinear_arith) requires cx < 8, cy < 8;
            lemma_decoded_2bpp(chr0);
        }
        let base = t * 64;
        let pos = base + cy * 8 + cx;
        if self.chr_indices[pos] == self.draw_index {
            return;
        }
        let tile_off = self.chr_start + t * 16;
        let pre = read_tile_bytes(&self.file_bytes, tile_off);
        proof {
            assert(pre@ =~= tile_slice(chr0, t as int));
        }
        self.undo_stack.push((t, pre));
        let d = self.draw_index;
        self.chr_indices.set(pos, d);
        let ghost new_idx = self.chr_indices@;
        let tile = encode_tile_bytes(&self.chr_indices.as_slice()[base..base + 64]);
        proof {
            let ti = new_idx.subrange(t * 64, t * 64 + 64);
            assert forall|k: int| 0 <= k < 64 implies ti[k] < 4 by {
                assert(ti[k] == new_idx[t * 64 + k]);
                if t * 64 + k != pos {
                    assert(new_idx[t * 64 + k] == decoded_indices(chr0)[t * 64 + k]);
                }
            }
            lemma_tile_round_trip(ti, tile@);
            lemma_decode_tile_local(chr0, t as int, tile@);
            assert(with_tile_indices(decoded_indices(chr0), t as int, ti) =~= new_idx);
        }
        write_tile_bytes(&mut self.file_bytes, tile_off, &tile);
        self.dirty_tiles.insert(t);
        proof {
            assert(self.chr_bytes() =~= with_tile_bytes(chr0, t as int, tile@));
            assert(self.file_bytes@.subrange(0, tile_off as int) =~= e0.file_bytes@.subrange(0, tile_off as int));
            assert(self.file_bytes@.subrange(tile_off + 16, flen as int) =~= e0.file_bytes@.subrange(tile_off + 16, flen as int));
            assert forall|k: int| 0 <= k < self.undo_stack@.len() implies (#[trigger] self.undo_stack@[k]).0 < self.tile_count by {
                if k < e0.undo_stack@.len() {
                    assert(self.undo_stack@[k] == e0.undo_stack@[k]);
                }
            }
        }
    }

    /// Undo the latest edit: its tile's bytes and indices return to what
    /// they were before it (the edited mark stays).
    pub fn undo(&mut self)
        requires
            old(self).wf(),
        ensures
            final(self).wf(),
            old(self).undo_stack@.len() == 0 ==> *final(self) == *old(self),
            old(self).undo_stack@.len() > 0 ==> {
                let (t, pre) = old(self).undo_stack@.last();
                &&& final(self).undo_stack@ == old(self).undo_stack@.drop_last()
                &&& final(self).chr_bytes() == with_tile_bytes(old(self).chr_bytes(), t as int, pre@)
                &&& final(self).file_bytes@ == old(self).file_bytes@.subrange(0, old(self).chr_start + t * 16) + pre@
                    + old(self).file_bytes@.subrange(old(self).chr_start + t * 16 + 16, old(self).file_bytes@.len() as int)
                &&& final(self).dirty_tiles@ == old(self).dirty_tiles@
                &&& final(self).status == old(self).status
                &&& final(self).chr_start == old(self).chr_start
                &&& final(self).chr_len == old(self).chr_len
                &&& final(self).prg_start == old(self).prg_start
                &&& final(self).prg_len == old(self).prg_len
                &&& final(self).tile_count == old(self).tile_count
                &&& final(self).draw_index == old(self).draw_index
            },
    {
        if self.undo_stack.len() == 0 {
            return;
        }
        let ghost e0 = *self;
        let ghost chr0 = self.chr_bytes();
        let flen = self.file_bytes.len();
        let ilen = self.chr_indices.len();
        let (t, pre) = self.undo_stack.pop().unwrap();
        proof {
            assert(e0.undo_stack@[e0.undo_stack@.len() - 1].0 < self.tile_count);
            assert(t * 16 + 16 <= self.tile_count * 16) by (nonlinear_arith) requires t < self.tile_count;
            assert(t * 64 + 64 <= self.tile_count * 64) by (nonlinear_arith) requires t < self.tile_count;
            assert(decoded_indices(chr0).len() == self.tile_count * 64) by (nonlinear_arith)
                requires chr0.len() == self.tile_count * 16;
        }
        let tile_off = self.chr_start + t * 16;
        write_tile_bytes(&mut self.file_bytes, tile_off, &pre);
        let restored = decode_2bpp_planar_indices(&pre);
        let base = t * 64;
        write_tile_indices(&mut self.chr_indices, base, &restored);
        proof {
            assert(self.chr_bytes() =~= with_tile_bytes(chr0, t as int, pre@));
            lemma_decode_tile_local(chr0, t as int, pre@);
            assert(self.chr_indices@ =~= with_tile_indices(decoded_indices(chr0), t as int, decoded_indices(pre@)));

            assert forall|q: int| 0 <= q < self.undo_stack@.len() implies (#[trigger] self.undo_stack@[q]).0 < self.tile_count by {
                assert(self.undo_stack@[q] == e0.undo_stack@[q]);
            }
        }
    }

    /// The bytes a save writes: header, then the PRG span, then the CHR
    /// span, rebuilt from their parts so PRG is untouched by construction;
    /// refused (with both lengths) unless the result is exactly as long as
    /// the loaded file.
    pub fn rebuild_for_save(&self) -> (r: Result<Vec<u8>, (usize, usize)>)
        requires
            self.wf(),
            self.status is Ready,
        ensures
            ({
                let out = self.header@ + self.file_bytes@.subrange(self.prg_start as int, self.prg_start + self.prg_len)
                    + self.chr_bytes();
                match r {
                    Ok(v) => v@ == out && out.len() == self.file_bytes@.len(),
                    Err((a, b)) => a == out.len() && b == self.file_bytes@.len() && out.len() != self.file_bytes@.len(),
                }
            }),
    {
        let flen = self.file_bytes.len();
        let mut out: Vec<u8> = Vec::new();
        let mut i: usize = 0;
        while i < 16
            invariant
                i <= 16,
                out@ == self.header@.take(i as int),
            decreases 16 - i,
        {
            out.push(self.header[i]);
            proof {
                assert(self.header@.take(i + 1) =~= self.header@.take(i as int).push(self.header@[i as int]));
            }
            i += 1;
        }
        let ghost h = out@;
        let mut k: usize = self.prg_start;
        while k < self.prg_start + self.prg_len
            invariant
                self.prg_start <= k <= self.prg_start + self.prg_len,
                self.prg_start + self.prg_len <= self.file_bytes@.len(),
                flen == self.file_bytes@.len(),
                out@ == h + self.file_bytes@.subrange(self.prg_start as int, k as int),
            decreases self.prg_start + self.prg_len - k,
        {
            out.push(self.file_bytes[k]);
            proof {
                assert(self.file_bytes@.subrange(self.prg_start as int, k + 1)
                    =~= self.file_bytes@.subrange(self.prg_start as int, k as int).push(self.file_bytes@[k as int]));
            }
            k += 1;
        }
        let ghost hp = out@;
        let mut c: usize = self.chr_start;
        while c < self.chr_start + self.chr_len
            invariant
                self.chr_start <= c <= self.chr_start + self.chr_len,
                self.chr_start + self.chr_len <= self.file_bytes@.len(),
                flen == self.file_bytes@.len(),
                out@ == hp + self.file_bytes@.subrange(self.chr_start as int, c as int),
            decreases self.chr_start + self.chr_len - c,
        {
            out.push(self.file_bytes[c]);
            proof {
                assert(self.file_bytes@.subrange(self.chr_start as int, c + 1)
                    =~= self.file_bytes@.subrange(self.chr_start as int, c as int).push(self.file_bytes@[c as int]));
            }
            c += 1;
        }
        proof {
            assert(self.header@.take(16) =~= self.header@);
        }
        if out.len() != self.file_bytes.len() {
            return Err((out.len(), self.file_bytes.len()));
        }
        Ok(out)
    }
}

/// The note after writing a save: the target, tiles patched and bytes.
pub open spec fn saved_note_spec(target: Seq<char>, tiles: nat, bytes: nat) -> Seq<char> {
    "Saved "@ + target + " ("@ + dec(tiles) + " tile(s) patched, "@ + dec(bytes) + " bytes)"@
}

pub fn saved_note(target: &str, tiles: usize, bytes: usize) -> (s: String)
    ensures
        s@ == saved_note_spec(target@, tiles as nat, bytes as nat),
{
    let mut s = String::new();
    push_str(&mut s, "Saved ");
    push_str(&mut s, target);
    push_str(&mut s, " (");
    push_dec(&mut s, tiles as u64);
    push_str(&mut s, " tile(s) patched, ");
    push_dec(&mut s, bytes as u64);
    push_str(&mut s, " bytes)");
    assert(s@ =~= saved_note_spec(target@, tiles as nat, bytes as nat));
    s
}

/// The note when the rebuilt file would not be as long as the source.
pub open spec fn length_refusal_spec(got: nat, want: nat) -> Seq<char> {
    "FAILED: reconstructed length "@ + dec(got) + " != source length "@ + dec(want) + " \u{2014} refusing to write"@
}

pub fn length_refusal(got: usize, want: usize) -> (s: String)
    ensures
        s@ == length_refusal_spec(got as nat, want as nat),
{
    let mut s = String::new();
    push_str(&mut s, "FAILED: reconstructed length ");
    push_dec(&mut s, got as u64);
    push_str(&mut s, " != source length ");
    push_dec(&mut s, want as u64);
    push_str(&mut s, " \u{2014} refusing to write");
    assert(s@ =~= length_refusal_spec(got as nat, want as nat));
    s
}

/// The suggested file name for an edited copy: `stem_edited.nes`, or with
/// `-n` for the n-th try when earlier names are taken.
pub open spec fn edited_name_spec(stem: Seq<char>, n: nat) -> Seq<char> {
    if n < 2 { stem + "_edited.nes"@ } else { stem + "_edited-"@ + dec(n) + ".nes"@ }
}

pub fn edited_name(stem: &str, n: u64) -> (s: String)
    ensures
        s@ == edited_name_spec(stem@, n as nat),
{
    let mut s = String::new();
    push_str(&mut s, stem);
    if n < 2 {
        push_str(&mut s, "_edited.nes");
    } else {
        push_str(&mut s, "_edited-");
        push_dec(&mut s, n);
        push_str(&mut s, ".nes");
    }
    assert(s@ =~= edited_name_spec(stem@, n as nat));
    s
}

/// Undoing an edit restores the working copy: painting a pixel a new color
/// and then undoing leaves the cartridge bytes, the decoded tiles and the
/// undo stack as they were before the paint, with the tile still marked
/// edited.
pub proof fn lemma_undo_reverts_paint(e0: ChrEditor, e1: ChrEditor, e2: ChrEditor, t: int, cx: int, cy: int)
    requires
        e0.wf(),
        e0.status is Ready,
        0 <= t < e0.tile_count,
        0 <= cx < 8,
        0 <= cy < 8,
        e0.chr_indices@[t * 64 + cy * 8 + cx] != e0.draw_index,
        // e1 is e0 after the paint, as `paint_pixel` ensures.
        e1.wf(),
        e1.status is Ready,
        e1.undo_stack@ == e0.undo_stack@.push((t as usize, e1.undo_stack@.last().1)),
        e1.undo_stack@.last().1@ == tile_slice(e0.chr_bytes(), t),
        e1.dirty_tiles@ == e0.dirty_tiles@.insert(t as usize),
        e1.file_bytes@.len() == e0.file_bytes@.len(),
        e1.file_bytes@.subrange(0, e0.chr_start + t * 16) == e0.file_bytes@.subrange(0, e0.chr_start + t * 16),
        e1.file_bytes@.subrange(e0.chr_start + t * 16 + 16, e0.file_bytes@.len() as int)
            == e0.file_bytes@.subrange(e0.chr_start + t * 16 + 16, e0.file_bytes@.len() as int),
        e1.chr_start == e0.chr_start,
        e1.chr_len == e0.chr_len,
        e1.tile_count == e0.tile_count,
        // e2 is e1 after the undo, as `undo` ensures.
        e2.wf(),
        e2.undo_stack@ == e1.undo_stack@.drop_last(),
        e2.file_bytes@ == e1.file_bytes@.subrange(0, e1.chr_start + t * 16) + e1.undo_stack@.last().1@
            + e1.file_bytes@.subrange(e1.chr_start + t * 16 + 16, e1.file_bytes@.len() as int),
        e2.dirty_tiles@ == e1.dirty_tiles@,
        e2.status == e1.status,
        e2.chr_start == e1.chr_start,
        e2.chr_len == e1.chr_len,
    ensures
        e2.file_bytes@ == e0.file_bytes@,
        e2.chr_indices@ == e0.chr_indices@,
        e2.undo_stack@ == e0.undo_stack@,
        e2.dirty_tiles@.contains(t as usize),
{
    let off = e0.chr_start + t * 16;
    assert(t * 16 + 16 <= e0.tile_count * 16) by (nonlinear_arith) requires t < e0.tile_count;
    assert(e1.undo_stack@.last().1@ =~= e0.file_bytes@.subrange(off, off + 16));
    assert(e2.file_bytes@ =~= e0.file_bytes@);
    assert(e2.chr_bytes() =~= e0.chr_bytes());
    assert(e2.undo_stack@ =~= e0.undo_stack@);
}

/// Edits never reach PRG: after a paint, the bytes a save writes hold the
/// loaded header and the PRG span exactly as loaded.
pub proof fn lemma_paint_then_save_keeps_prg(e0: ChrEditor, e1: ChrEditor, t: int, out: Seq<u8>)
    requires
        e0.wf(),
        e0.status is Ready,
        e0.prg_start + e0.prg_len <= e0.chr_start,
        0 <= t < e0.tile_count,
        // e1 is e0 after a paint of tile t, as `paint_pixel` ensures.
        e1.file_bytes@.len() == e0.file_bytes@.len(),
        e1.file_bytes@.subrange(0, e0.chr_start + t * 16) == e0.file_bytes@.subrange(0, e0.chr_start + t * 16),
        e1.prg_start == e0.prg_start,
        e1.prg_len == e0.prg_len,
        e1.header == e0.header,
        // out is what a save of e1 writes, as `rebuild_for_save` ensures.
        out == e1.header@ + e1.file_bytes@.subrange(e1.prg_start as int, e1.prg_start + e1.prg_len) + e1.chr_bytes(),
    ensures
        out.subrange(0, 16) == e0.header@,
        out.subrange(16, 16 + e0.prg_len) == e0.file_bytes@.subrange(e0.prg_start as int, e0.prg_start + e0.prg_len),
{
    let p0 = e0.prg_start as int;
    let p1 = p0 + e0.prg_len;
    let cut = e0.chr_start + t * 16;
    assert forall|i: int| p0 <= i < p1 implies e1.file_bytes@[i] == e0.file_bytes@[i] by {
        assert(e1.file_bytes@.subrange(0, cut)[i] == e0.file_bytes@.subrange(0, cut)[i]);
    }
    assert(out.subrange(0, 16) =~= e0.header@);
    assert(out.subrange(16, 16 + e0.prg_len) =~= e0.file_bytes@.subrange(p0, p1));
}

} // verus!
