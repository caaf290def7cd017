//! The frame inspector's model: when the displayed frame is refreshed, the
//! pixel under the cursor, and the names and labels it shows.
use vstd::prelude::*;
use crate::fmt::{dec, pad_left, push_dec, push_padded, push_str};

verus! {

/// The inspector's state: the frame generation last shown and the pixel
/// last hovered, with its color.
pub struct FrameInspector {
    pub last_generation: u64,
    pub hover_pixel: Option<(u32, u32, [u8; 4])>,
}

impl FrameInspector {
    pub fn new() -> (f: Self)
        ensures
            f.last_generation == u64::MAX,
            f.hover_pixel is None,
    {
        FrameInspector { last_generation: u64::MAX, hover_pixel: None }
    }

    /// Whether a frame must be uploaded for display: a new generation of a
    /// non-empty frame. When it is, that generation becomes the shown one.
    pub fn take_new_frame(&mut self, generation: u64, width: u32, height: u32, rgba_len: usize) -> (fresh: bool)
        ensures
            fresh == (generation != old(self).last_generation && width > 0 && height > 0 && rgba_len > 0),
            fresh ==> final(self).last_generation == generation,
            !fresh ==> final(self).last_generation == old(self).last_generation,
            final(self).hover_pixel == old(self).hover_pixel,
    {
        if generation != self.last_generation && width > 0 && height > 0 && rgba_len > 0 {
            self.last_generation = generation;
            true
        } else {
            false
        }
    }

    /// Track the pixel under the cursor: kept unchanged when `(px, py)` is
    /// outside the frame or the frame's bytes do not reach it.
    pub fn hover(&mut self, rgba: &[u8], width: u32, height: u32, px: u32, py: u32)
        requires
            width * height * 4 <= usize::MAX,
        ensures
            final(self).last_generation == old(self).last_generation,
            final(self).hover_pixel == match pixel_spec(rgba@, width, height, px, py) {
                Some(c) => Some((px, py, c)),
                None => old(self).hover_pixel,
            },
    {
        if let Some(c) = pixel_at(rgba, width, height, px, py) {
            self.hover_pixel = Some((px, py, c));
        }
    }
}

/// The RGBA pixel at `(px, py)` of a packed frame `width` wide, when it is
/// inside the frame and its bytes are there.
pub open spec fn pixel_spec(rgba: Seq<u8>, width: u32, height: u32, px: u32, py: u32) -> Option<[u8; 4]> {
    let idx = (py * width + px) * 4;
    if px < width && py < height && rgba.len() > 0 && idx + 3 < rgba.len() {
        Some([rgba[idx], rgba[idx + 1], rgba[idx + 2], rgba[idx + 3]])
    } else {
        None
    }
}

/// The RGBA pixel at `(px, py)` (see [`pixel_spec`]).
pub fn pixel_at(rgba: &[u8], width: u32, height: u32, px: u32, py: u32) -> (c: Option<[u8; 4]>)
    requires
        width * height * 4 <= usize::MAX,
    ensures
        c == pixel_spec(rgba@, width, height, px, py),
{
    if px < width && py < height && rgba.len() > 0 {
        proof {
            assert(py * width + px < height * width) by (nonlinear_arith)
                requires px < width, py < height;
            assert(height * width == width * height) by (nonlinear_arith);
        }
        let idx = (py as usize * width as usize + px as usize) * 4;
        if idx + 3 < rgba.len() {
            return Some([rgba[idx], rgba[idx + 1], rgba[idx + 2], rgba[idx + 3]]);
        }
    }
    None
}

/// The hover readout: `"(<x>,<y>) R:<r> G:<g> B:<b>"`.
pub fn hover_label(px: u32, py: u32, c: [u8; 4]) -> (s: String)
    ensures
        s@ == seq!['('] + dec(px as nat) + seq![','] + dec(py as nat) + ") R:"@ + dec(c@[0] as nat) + " G:"@ + dec(
            c@[1] as nat,
        ) + " B:"@ + dec(c@[2] as nat),
{
    proof {
        reveal_strlit("(");
        reveal_strlit(",");
    }
    let mut s = String::new();
    push_str(&mut s, "(");
    push_dec(&mut s, px as u64);
    push_str(&mut s, ",");
    push_dec(&mut s, py as u64);
    push_str(&mut s, ") R:");
    push_dec(&mut s, c[0] as u64);
    push_str(&mut s, " G:");
    push_dec(&mut s, c[1] as u64);
    push_str(&mut s, " B:");
    push_dec(&mut s, c[2] as u64);
    s
}

/// The file a saved frame goes to: `"frame_<frame, six digits>.png"`.
pub fn png_name(frame: u64) -> (s: String)
    ensures
        s@ == "frame_"@ + pad_left(dec(frame as nat), 6, '0') + ".png"@,
{
    proof {
        reveal_strlit("0");
    }
    let mut s = String::new();
    push_str(&mut s, "frame_");
    push_padded(&mut s, frame, 10, 6, "0");
    push_str(&mut s, ".png");
    s
}

} // verus!
