//! The hex-dump panel's logic: jumping to a typed address, which bytes
//! changed since the last frame, and the text of each 16-byte row.
use vstd::prelude::*;
use crate::fmt::{hex, push_char, push_hex, push_str};
use crate::parse::{hex_address, parse_hex_address};
use crate::video::diff_changed;

verus! {

/// Bytes per row.
pub const BYTES_PER_ROW: usize = 16;

/// Hex-dump panel state.
pub struct HexDump {
    pub goto_addr: String,
    /// Row to scroll to on the next frame.
    pub scroll_to: Option<usize>,
    pub current_region_idx: usize,
    /// The bytes shown on the previous frame, for change tinting.
    pub prev_buf: Vec<u8>,
    /// Which source `prev_buf` came from (a region index, or a reserved key).
    pub prev_region_key: usize,
    /// Tint bytes that changed since the last frame.
    pub highlight_changes: bool,
}

/// The per-byte change mask a frame shows: byte-wise differences when
/// tinting is on and the same source of the same length was shown last
/// frame, else nothing tinted.
pub open spec fn change_mask(highlight: bool, prev_key: usize, prev: Seq<u8>, key: usize, buf: Seq<u8>) -> Seq<bool> {
    if highlight && prev_key == key && prev.len() == buf.len() {
        Seq::new(buf.len(), |i: int| prev[i] != buf[i])
    } else {
        Seq::new(buf.len(), |i: int| false)
    }
}

/// The ASCII column of a row: printable bytes as themselves, others `.`.
pub open spec fn ascii_text(bytes: Seq<u8>) -> Seq<char> {
    bytes.map_values(|b: u8| if 0x20 <= b && b < 0x7f { b as char } else { '.' })
}

/// The hex column of a row: two digits per byte, one space between bytes
/// and two before the ninth.
pub open spec fn hex_bytes_text(bytes: Seq<u8>) -> Seq<char>
    decreases bytes.len(),
{
    if bytes.len() == 0 {
        Seq::empty()
    } else {
        let i = bytes.len() - 1;
        hex_bytes_text(bytes.drop_last()) + (if i == 0 { Seq::empty() } else if i == 8 { "  "@ } else { " "@ })
            + hex(bytes.last() as nat, 2)
    }
}

impl HexDump {
    pub fn new() -> (h: Self)
        ensures
            h.goto_addr@.len() == 0,
            h.scroll_to is None,
            h.current_region_idx == 0,
            h.prev_buf@.len() == 0,
            h.prev_region_key == usize::MAX,
            h.highlight_changes,
    {
        HexDump {
            goto_addr: String::new(),
            scroll_to: None,
            current_region_idx: 0,
            prev_buf: Vec::new(),
            prev_region_key: usize::MAX,
            highlight_changes: true,
        }
    }

    /// Keep the selected region valid: back to the first when out of range.
    pub fn clamp_region(&mut self, n_regions: usize)
        ensures
            final(self).current_region_idx == if old(self).current_region_idx >= n_regions { 0 } else { old(self).current_region_idx },
            final(self).goto_addr == old(self).goto_addr,
            final(self).scroll_to == old(self).scroll_to,
            final(self).prev_buf == old(self).prev_buf,
            final(self).prev_region_key == old(self).prev_region_key,
            final(self).highlight_changes == old(self).highlight_changes,
    {
        if self.current_region_idx >= n_regions {
            self.current_region_idx = 0;
        }
    }

    /// "Go": scroll to the row of the typed address when it reads as hex.
    pub fn go_to_typed(&mut self)
        ensures
            final(self).scroll_to == match hex_address(old(self).goto_addr@) {
                Some(a) => Some((a / 16) as usize),
                None => old(self).scroll_to,
            },
            final(self).goto_addr == old(self).goto_addr,
            final(self).current_region_idx == old(self).current_region_idx,
            final(self).prev_buf == old(self).prev_buf,
            final(self).prev_region_key == old(self).prev_region_key,
            final(self).highlight_changes == old(self).highlight_changes,
    {
        if let Some(addr) = parse_hex_address(self.goto_addr.as_str()) {
            self.scroll_to = Some(addr / BYTES_PER_ROW);
        }
    }

    /// The change mask for the bytes shown this frame from source `key`;
    /// the bytes then become the snapshot for the next frame.
    pub fn changed_mask(&mut self, key: usize, buf: &[u8]) -> (m: Vec<bool>)
        ensures
            m@ == change_mask(old(self).highlight_changes, old(self).prev_region_key, old(self).prev_buf@, key, buf@),
            final(self).prev_buf@ == buf@,
            final(self).prev_region_key == key,
            final(self).goto_addr == old(self).goto_addr,
            final(self).scroll_to == old(self).scroll_to,
            final(self).current_region_idx == old(self).current_region_idx,
            final(self).highlight_changes == old(self).highlight_changes,
    {
        let ghost want = change_mask(self.highlight_changes, self.prev_region_key, self.prev_buf@, key, buf@);
        let m = if self.highlight_changes && self.prev_region_key == key && self.prev_buf.len() == buf.len() {
            let d = diff_changed(self.prev_buf.as_slice(), buf);
            assert(d@ =~= want);
            d
        } else {
            let mut z: Vec<bool> = Vec::new();
            let mut i: usize = 0;
            while i < buf.len()
                invariant
                    i <= buf@.len(),
                    z@.len() == i,
                    forall|j: int| 0 <= j < i ==> !z@[j],
                decreases buf@.len() - i,
            {
                z.push(false);
                i += 1;
            }
            assert(z@ =~= want);
            z
        };
        let mut copy: Vec<u8> = Vec::new();
        let mut k: usize = 0;
        while k < buf.len()
            invariant
                k <= buf@.len(),
                copy@ == buf@.take(k as int),
            decreases buf@.len() - k,
        {
            copy.push(buf[k]);
            proof {
                assert(buf@.take(k + 1) =~= buf@.take(k as int).push(buf@[k as int]));
            }
            k += 1;
        }
        assert(buf@.take(buf@.len() as int) =~= buf@);
        self.prev_buf = copy;
        self.prev_region_key = key;
        m
    }
}

/// Rows needed for `len` bytes.
pub fn row_count(len: usize) -> (n: usize)
    ensures
        n == (len + 15) / 16,
{
    len / 16 + if len % 16 == 0 { 0 } else { 1 }
}

/// The ASCII column of a row.
pub fn ascii_column(bytes: &[u8]) -> (s: String)
    ensures
        s@ == ascii_text(bytes@),
{
    let mut s = String::new();
    let mut i: usize = 0;
    while i < bytes.len()
        invariant
            i <= bytes@.len(),
            s@ == ascii_text(bytes@.take(i as int)),
        decreases bytes@.len() - i,
    {
        let b = bytes[i];
        let c: char = if 0x20 <= b && b < 0x7F { b as char } else { '.' };
        push_char(&mut s, c);
        proof {
            assert(ascii_text(bytes@.take(i + 1)) =~= ascii_text(bytes@.take(i as int)).push(c));
        }
        i += 1;
    }
    assert(bytes@.take(bytes@.len() as int) =~= bytes@);
    s
}

/// The hex column of a row.
pub fn hex_column(bytes: &[u8]) -> (s: String)
    ensures
        s@ == hex_bytes_text(bytes@),
{
    let mut s = String::new();
    let mut i: usize = 0;
    while i < bytes.len()
        invariant
            i <= bytes@.len(),
            s@ == hex_bytes_text(bytes@.take(i as int)),
        decreases bytes@.len() - i,
    {
        if i == 8 {
            push_str(&mut s, "  ");
        } else if i > 0 {
            push_str(&mut s, " ");
        }
        push_hex(&mut s, bytes[i] as u64, 2);
        proof {
            assert(bytes@.take(i + 1).drop_last() =~= bytes@.take(i as int));
        }
        i += 1;
    }
    assert(bytes@.take(bytes@.len() as int) =~= bytes@);
    s
}

} // verus!
