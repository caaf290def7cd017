//! Loading a cartridge's CHR-ROM for the tile views: once per ROM identity,
//! with an explicit status for every way there is nothing to draw.
use vstd::prelude::*;
use crate::debug_state::str_eq;
use crate::fmt::push_str;
use crate::nes::{chr_error_text, chr_span, chr_span_spec, decode_2bpp_planar_indices, decoded_indices, CHR_BANK_BYTES};

verus! {

/// Why a tile view cannot draw right now, or that its CHR side is ready.
pub enum ChrStatus {
    NoRom,
    /// The loaded core is not an NES core (its system name).
    NotNes(String),
    /// The file holds no CHR-ROM to draw from (the reason).
    NoChr(String),
    Ready,
}

/// The decoded CHR side of a tile view.
pub struct ChrLoad {
    pub status: ChrStatus,
    /// Palette indices of every CHR-ROM tile, tile-major.
    pub chr_indices: Vec<u8>,
    /// 8KB CHR banks in the file (at least one once ready).
    pub bank_count: usize,
}

pub open spec fn opt_str(o: Option<&str>) -> Option<Seq<char>> {
    match o {
        Some(s) => Some(s@),
        None => None,
    }
}

pub open spec fn opt_bytes(o: Option<Vec<u8>>) -> Option<Seq<u8>> {
    match o {
        Some(v) => Some(v@),
        None => None,
    }
}

/// Neither a path nor any in-memory bytes were given.
pub open spec fn no_rom_given(rom_bytes: Option<Seq<u8>>, has_path: bool) -> bool {
    !has_path && (rom_bytes is None || rom_bytes.unwrap().len() == 0)
}

/// The ROM image to decode: the in-memory bytes when non-empty, else what
/// reading the file gave.
pub open spec fn rom_image(rom_bytes: Option<Seq<u8>>, file_bytes: Option<Seq<u8>>) -> Option<Seq<u8>> {
    if rom_bytes is Some && rom_bytes.unwrap().len() > 0 { rom_bytes } else { file_bytes }
}

/// The explanation shown for a cart without CHR-ROM.
pub open spec fn no_chr_text(subject: Seq<char>, e: crate::nes::ChrSpanError) -> Seq<char> {
    "No CHR-ROM in this file to render "@ + subject + " from: "@ + chr_error_text(e)
        + " (a CHR-RAM cart's live pattern tables are not exposed by this core)."@
}

/// What loading gives: `rom_system` is the core's system, `rom_bytes` the
/// in-memory image, `has_path` whether a ROM path is known and `file_bytes`
/// what reading that path gave; `subject` names what the view draws.
pub open spec fn chr_load_ok(
    l: ChrLoad,
    rom_system: Option<Seq<char>>,
    rom_bytes: Option<Seq<u8>>,
    has_path: bool,
    file_bytes: Option<Seq<u8>>,
    subject: Seq<char>,
) -> bool {
    if no_rom_given(rom_bytes, has_path) {
        l.status is NoRom && l.chr_indices@.len() == 0 && l.bank_count == 0
    } else if rom_system != Some("nes"@) {
        &&& l.status matches ChrStatus::NotNes(sys) && sys@ == (match rom_system { Some(s) => s, None => "unrecognized"@ })
        &&& l.chr_indices@.len() == 0 && l.bank_count == 0
    } else {
        match rom_image(rom_bytes, file_bytes) {
            None => l.status is NoRom && l.chr_indices@.len() == 0 && l.bank_count == 0,
            Some(b) => match chr_span_spec(b) {
                Err(e) => {
                    &&& l.status matches ChrStatus::NoChr(msg) && msg@ == no_chr_text(subject, e)
                    &&& l.chr_indices@.len() == 0 && l.bank_count == 0
                },
                Ok((st, en)) => {
                    &&& l.status is Ready
                    &&& l.chr_indices@ == decoded_indices(b.subrange(st as int, en as int))
                    &&& l.bank_count == if (en - st) / 8192 < 1 { 1 } else { (en - st) / 8192 }
                },
            },
        }
    }
}

fn empty_load(status: ChrStatus) -> (l: ChrLoad)
    ensures
        l.status == status,
        l.chr_indices@.len() == 0,
        l.bank_count == 0,
{
    ChrLoad { status, chr_indices: Vec::new(), bank_count: 0 }
}

/// Decode CHR-ROM for a tile view from a fresh ROM snapshot.
pub fn load_chr(
    rom_system: Option<&str>,
    rom_bytes: Option<Vec<u8>>,
    has_path: bool,
    file_bytes: Option<Vec<u8>>,
    subject: &str,
) -> (l: ChrLoad)
    ensures
        chr_load_ok(l, opt_str(rom_system), opt_bytes(rom_bytes), has_path, opt_bytes(file_bytes), subject@),
        forall|k: int| 0 <= k < l.chr_indices@.len() ==> l.chr_indices@[k] < 4,
{
    let no_bytes = match &rom_bytes {
        Some(b) => b.len() == 0,
        None => true,
    };
    if !has_path && no_bytes {
        return empty_load(ChrStatus::NoRom);
    }
    let is_nes = match rom_system {
        Some(sys) => str_eq(sys, "nes"),
        None => false,
    };
    if !is_nes {
        let name = match rom_system {
            Some(sys) => sys.to_string(),
            None => "unrecognized".to_string(),
        };
        return empty_load(ChrStatus::NotNes(name));
    }
    let ghost rb = opt_bytes(rom_bytes);
    let bytes = match rom_bytes {
        Some(b) if b.len() > 0 => b,
        _ => match file_bytes {
            Some(b) => b,
            None => {
                return empty_load(ChrStatus::NoRom);
            },
        },
    };
    match chr_span(bytes.as_slice()) {
        Err(e) => {
            let mut msg = String::new();
            push_str(&mut msg, "No CHR-ROM in this file to render ");
            push_str(&mut msg, subject);
            push_str(&mut msg, " from: ");
            push_str(&mut msg, e.message());
            push_str(&mut msg, " (a CHR-RAM cart's live pattern tables are not exposed by this core).");
            assert(msg@ =~= no_chr_text(subject@, e));
            empty_load(ChrStatus::NoChr(msg))
        },
        Ok((start, end)) => {
            let chr_indices = decode_2bpp_planar_indices(&bytes.as_slice()[start..end]);
            let banks = (end - start) / CHR_BANK_BYTES;
            ChrLoad {
                status: ChrStatus::Ready,
                chr_indices,
                bank_count: if banks < 1 { 1 } else { banks },
            }
        },
    }
}

} // verus!
