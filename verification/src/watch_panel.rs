//! The watch panel's logic: adding a watch from the typed address and
//! label, and rendering watch values and tracked changes.
use vstd::prelude::*;
use crate::fmt::{dec, dec_signed, hex, push_dec, push_dec_signed, push_hex, push_str};
use crate::memory::{ChangeEvent, Watch, WatchFormat};
use crate::parse::{hex_address, parse_hex_address, trim, trim_bounds};

verus! {

/// Watch panel state: the add form.
pub struct WatchPanel {
    pub add_addr: String,
    pub add_label: String,
    pub add_format: WatchFormat,
}

pub open spec fn format_name_text(f: WatchFormat) -> Seq<char> {
    match f {
        WatchFormat::U8 => "u8"@,
        WatchFormat::S8 => "s8"@,
        WatchFormat::U16LE => "u16 LE"@,
        WatchFormat::U16BE => "u16 BE"@,
        WatchFormat::U32LE => "u32 LE"@,
        WatchFormat::U32BE => "u32 BE"@,
        WatchFormat::Hex8 => "hex8"@,
        WatchFormat::Hex16 => "hex16"@,
        WatchFormat::Hex32 => "hex32"@,
    }
}

/// The name the format picker shows.
pub fn format_name(f: WatchFormat) -> (s: &'static str)
    ensures
        s@ == format_name_text(f),
{
    match f {
        WatchFormat::U8 => "u8",
        WatchFormat::S8 => "s8",
        WatchFormat::U16LE => "u16 LE",
        WatchFormat::U16BE => "u16 BE",
        WatchFormat::U32LE => "u32 LE",
        WatchFormat::U32BE => "u32 BE",
        WatchFormat::Hex8 => "hex8",
        WatchFormat::Hex16 => "hex16",
        WatchFormat::Hex32 => "hex32",
    }
}

/// Every watch format, in picker order.
pub fn all_formats() -> (v: Vec<WatchFormat>)
    ensures
        v@ == seq![
            WatchFormat::U8, WatchFormat::S8, WatchFormat::U16LE, WatchFormat::U16BE, WatchFormat::U32LE,
            WatchFormat::U32BE, WatchFormat::Hex8, WatchFormat::Hex16, WatchFormat::Hex32,
        ],
{
    vec![
        WatchFormat::U8, WatchFormat::S8, WatchFormat::U16LE, WatchFormat::U16BE, WatchFormat::U32LE,
        WatchFormat::U32BE, WatchFormat::Hex8, WatchFormat::Hex16, WatchFormat::Hex32,
    ]
}

/// The four bytes of `raw` in reverse order.
pub open spec fn swap32(raw: u32) -> u32 {
    ((raw & 0xff) << 24u32) | (((raw >> 8u32) & 0xff) << 16u32) | (((raw >> 16u32) & 0xff) << 8u32) | (raw >> 24u32)
}

/// A byte read as two's complement.
pub open spec fn s8_value(b: u32) -> int {
    if b >= 128 { b - 256 } else { b as int }
}

/// A watch's value as the panel shows it (a dash before the first read).
pub open spec fn watch_value_text(f: WatchFormat, current: Option<u32>) -> Seq<char> {
    match current {
        None => "\u{2014}"@,
        Some(raw) => match f {
            WatchFormat::U8 => dec((raw & 0xff) as nat),
            WatchFormat::S8 => dec_signed(s8_value(raw & 0xff)),
            WatchFormat::U16LE => dec((raw & 0xffff) as nat),
            WatchFormat::U16BE => dec(((((raw & 0xffff) >> 8u32) | ((raw & 0xffff) << 8u32)) & 0xffff) as nat),
            WatchFormat::U32LE => dec(raw as nat),
            WatchFormat::U32BE => dec(swap32(raw) as nat),
            WatchFormat::Hex8 => "0x"@ + hex((raw & 0xff) as nat, 2),
            WatchFormat::Hex16 => "0x"@ + hex((raw & 0xffff) as nat, 4),
            WatchFormat::Hex32 => "0x"@ + hex(raw as nat, 8),
        },
    }
}

/// Format the raw little-endian value held in `current` per the format.
pub fn format_value(f: WatchFormat, current: Option<u32>) -> (s: String)
    ensures
        s@ == watch_value_text(f, current),
{
    let mut s = String::new();
    let raw = match current {
        Some(v) => v,
        None => {
            push_str(&mut s, "\u{2014}");
            return s;
        },
    };
    match f {
        WatchFormat::U8 => push_dec(&mut s, (raw & 0xFF) as u64),
        WatchFormat::S8 => {
            let b: u32 = raw & 0xFF;
            let v: i64 = if b >= 128 { b as i64 - 256 } else { b as i64 };
            push_dec_signed(&mut s, v);
        },
        WatchFormat::U16LE => push_dec(&mut s, (raw & 0xFFFF) as u64),
        WatchFormat::U16BE => {
            let v = raw & 0xFFFF;
            push_dec(&mut s, (((v >> 8) | (v << 8)) & 0xFFFF) as u64);
        },
        WatchFormat::U32LE => push_dec(&mut s, raw as u64),
        WatchFormat::U32BE => {
            let w = ((raw & 0xFF) << 24) | (((raw >> 8) & 0xFF) << 16) | (((raw >> 16) & 0xFF) << 8) | (raw >> 24);
            push_dec(&mut s, w as u64);
        },
        WatchFormat::Hex8 => {
            push_str(&mut s, "0x");
            push_hex(&mut s, (raw & 0xFF) as u64, 2);
        },
        WatchFormat::Hex16 => {
            push_str(&mut s, "0x");
            push_hex(&mut s, (raw & 0xFFFF) as u64, 4);
        },
        WatchFormat::Hex32 => {
            push_str(&mut s, "0x");
            push_hex(&mut s, raw as u64, 8);
        },
    }
    assert(s@ =~= watch_value_text(f, current));
    s
}

/// `{:06X}` of an address.
pub fn addr_text(addr: usize) -> (s: String)
    ensures
        s@ == hex(addr as nat, 6),
{
    let mut s = String::new();
    push_hex(&mut s, addr as u64, 6);
    assert(s@ =~= hex(addr as nat, 6));
    s
}

/// The texts of a change-log row: frame, address, `old → new`, PC.
pub open spec fn change_row_text(ev: ChangeEvent) -> (Seq<char>, Seq<char>, Seq<char>, Seq<char>) {
    (
        dec(ev.frame as nat),
        hex(ev.addr as nat, 6),
        "0x"@ + hex(ev.old as nat, 0) + " \u{2192} 0x"@ + hex(ev.new as nat, 0),
        "$"@ + hex(ev.pc as nat, 6),
    )
}

pub fn change_row(ev: &ChangeEvent) -> (r: (String, String, String, String))
    ensures
        (r.0@, r.1@, r.2@, r.3@) == change_row_text(*ev),
{
    let mut frame = String::new();
    push_dec(&mut frame, ev.frame);
    let addr = addr_text(ev.addr);
    let mut change = String::new();
    push_str(&mut change, "0x");
    push_hex(&mut change, ev.old as u64, 0);
    push_str(&mut change, " \u{2192} 0x");
    push_hex(&mut change, ev.new as u64, 0);
    let mut pc = String::new();
    push_str(&mut pc, "$");
    push_hex(&mut pc, ev.pc as u64, 6);
    assert(frame@ =~= dec(ev.frame as nat));
    assert(change@ =~= "0x"@ + hex(ev.old as nat, 0) + " \u{2192} 0x"@ + hex(ev.new as nat, 0));
    assert(pc@ =~= "$"@ + hex(ev.pc as nat, 6));
    (frame, addr, change, pc)
}

/// The label a new watch gets: the typed one, or its address when the
/// typed label is blank.
pub open spec fn new_watch_label(label: Seq<char>, addr: usize) -> Seq<char> {
    if trim(label).len() == 0 { hex(addr as nat, 6) } else { label }
}

impl WatchPanel {
    pub fn new() -> (p: Self)
        ensures
            p.add_addr@.len() == 0,
            p.add_label@.len() == 0,
            p.add_format == WatchFormat::Hex8,
    {
        WatchPanel { add_addr: String::new(), add_label: String::new(), add_format: WatchFormat::Hex8 }
    }

    /// "Add Watch": when the typed address reads as hex, append a fresh
    /// watch for it and clear the form; otherwise change nothing.
    pub fn add_watch(&mut self, watches: &mut Vec<Watch>) -> (added: bool)
        ensures
            added == (hex_address(old(self).add_addr@) is Some),
            added ==> {
                let addr = hex_address(old(self).add_addr@).unwrap();
                &&& final(watches)@.len() == old(watches)@.len() + 1
                &&& final(watches)@.take(old(watches)@.len() as int) == old(watches)@
                &&& final(watches)@.last().addr == addr
                &&& final(watches)@.last().label@ == new_watch_label(old(self).add_label@, addr)
                &&& final(watches)@.last().format == old(self).add_format
                &&& !final(watches)@.last().frozen
                &&& final(watches)@.last().frozen_value is None
                &&& !final(watches)@.last().track_changes
                &&& final(watches)@.last().current is None
                &&& final(watches)@.last().prev_value is None
                &&& final(self).add_addr@.len() == 0
                &&& final(self).add_label@.len() == 0
                &&& final(self).add_format == old(self).add_format
            },
            !added ==> *final(watches) == *old(watches) && *final(self) == *old(self),
    {
        match parse_hex_address(self.add_addr.as_str()) {
            None => false,
            Some(addr) => {
                let (lo, hi) = trim_bounds(self.add_label.as_str());
                let label = if lo == hi {
                    addr_text(addr)
                } else {
                    self.add_label.clone()
                };
                watches.push(Watch {
                    addr,
                    label,
                    format: self.add_format,
                    frozen: false,
                    frozen_value: None,
                    track_changes: false,
                    current: None,
                    prev_value: None,
                });
                self.add_addr = String::new();
                self.add_label = String::new();
                assert(watches@.take(old(watches)@.len() as int) =~= old(watches)@);
                true
            },
        }
    }
}

} // verus!
