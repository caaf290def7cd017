//! Frame decoding: the three libretro pixel formats to packed RGBA8888, and
//! the byte-level change mask the hex viewer tints with.
use vstd::prelude::*;

verus! {

/// Bytes per source pixel: 4 for XRGB8888 (format 1), else 2.
pub open spec fn bytes_per_pixel(fmt: u32) -> int {
    if fmt == 1 { 4 } else { 2 }
}

/// The 16-bit little-endian pixel at byte offset `o`.
pub open spec fn px16(src: Seq<u8>, o: int) -> u16 {
    (src[o] as u16 | ((src[o + 1] as u16) << 8u16)) as u16
}

/// Channel `c` (0 R, 1 G, 2 B, 3 A) of pixel `(x, y)` decoded to 8 bits:
/// RGB565 (format 2) and 0RGB1555 (any other format) expand their fields by
/// shifting left; XRGB8888 (format 1) is stored B, G, R, X in memory.
pub open spec fn channel(src: Seq<u8>, pitch: int, fmt: u32, x: int, y: int, c: int) -> u8 {
    let o = y * pitch + bytes_per_pixel(fmt) * x;
    if c == 3 {
        0xFF
    } else if fmt == 1 {
        src[o + 2 - c]
    } else if fmt == 2 {
        let p = px16(src, o);
        if c == 0 {
            ((((p >> 11u16) & 0x1F) as u8) << 3u8) as u8
        } else if c == 1 {
            ((((p >> 5u16) & 0x3F) as u8) << 2u8) as u8
        } else {
            (((p & 0x1F) as u8) << 3u8) as u8
        }
    } else {
        let p = px16(src, o);
        if c == 0 {
            ((((p >> 10u16) & 0x1F) as u8) << 3u8) as u8
        } else if c == 1 {
            ((((p >> 5u16) & 0x1F) as u8) << 3u8) as u8
        } else {
            (((p & 0x1F) as u8) << 3u8) as u8
        }
    }
}

/// The source holds every row the frame needs.
pub open spec fn frame_fits(len: int, width: int, height: int, pitch: int, fmt: u32) -> bool {
    height == 0 || ((height - 1) * pitch <= len && (width > 0 ==> (height - 1) * pitch
        + bytes_per_pixel(fmt) * width <= len))
}

fn decode_pixel(src: &[u8], o: usize, fmt: u32) -> (px: [u8; 4])
    requires
        o + bytes_per_pixel(fmt) <= src@.len(),
        src@.len() <= usize::MAX,
    ensures
        px@[3] == 0xFF,
        fmt == 1 ==> px@[0] == src@[o + 2] && px@[1] == src@[o + 1] && px@[2] == src@[o as int],
        fmt == 2 ==> ({
            let p = px16(src@, o as int);
            &&& px@[0] == ((((p >> 11u16) & 0x1F) as u8) << 3u8) as u8
            &&& px@[1] == ((((p >> 5u16) & 0x3F) as u8) << 2u8) as u8
            &&& px@[2] == (((p & 0x1F) as u8) << 3u8) as u8
        }),
        fmt != 1 && fmt != 2 ==> ({
            let p = px16(src@, o as int);
            &&& px@[0] == ((((p >> 10u16) & 0x1F) as u8) << 3u8) as u8
            &&& px@[1] == ((((p >> 5u16) & 0x1F) as u8) << 3u8) as u8
            &&& px@[2] == (((p & 0x1F) as u8) << 3u8) as u8
        }),
{
    if fmt == 1 {
        [src[o + 2], src[o + 1], src[o], 0xFF]
    } else {
        let lo = src[o] as u16;
        let hi = src[o + 1] as u16;
        let p: u16 = lo | (hi << 8);
        if fmt == 2 {
            [(((p >> 11) & 0x1F) as u8) << 3, (((p >> 5) & 0x3F) as u8) << 2, ((p & 0x1F) as u8) << 3, 0xFF]
        } else {
            [(((p >> 10) & 0x1F) as u8) << 3, (((p >> 5) & 0x1F) as u8) << 3, ((p & 0x1F) as u8) << 3, 0xFF]
        }
    }
}

/// Decode a libretro frame (`fmt` 0 = 0RGB1555, 1 = XRGB8888, 2 = RGB565;
/// rows `pitch` bytes apart) to packed RGBA8888, row-major.
pub fn decode_to_rgba(src: &[u8], width: u32, height: u32, pitch: usize, fmt: u32) -> (out: Vec<u8>)
    requires
        frame_fits(src@.len() as int, width as int, height as int, pitch as int, fmt),
        width * height * 4 <= usize::MAX,
    ensures
        out@.len() == width * height * 4,
        forall|y: int, x: int, c: int|
            0 <= y < height && 0 <= x < width && 0 <= c < 4 ==> #[trigger] out@[(y * width + x) * 4
                + c] == channel(src@, pitch as int, fmt, x, y, c),
{
    let w = width as usize;
    let h = height as usize;
    let _len = src.len();
    let bpp: usize = if fmt == 1 { 4 } else { 2 };
    let mut out: Vec<u8> = Vec::new();
    let mut y: usize = 0;
    while y < h
        invariant
            w == width,
            h == height,
            bpp == bytes_per_pixel(fmt),
            y <= h,
            src@.len() <= usize::MAX,
            frame_fits(src@.len() as int, w as int, h as int, pitch as int, fmt),
            w * h * 4 <= usize::MAX,
            out@.len() == y * w * 4,
            forall|yy: int, x: int, c: int|
                0 <= yy < y && 0 <= x < w && 0 <= c < 4 ==> #[trigger] out@[(yy * w + x) * 4 + c]
                    == channel(src@, pitch as int, fmt, x, yy, c),
        decreases h - y,
    {
        proof {
            assert(y * pitch <= (h - 1) * pitch) by (nonlinear_arith)
                requires y < h;
            assert((y + 1) * w * 4 <= w * h * 4) by (nonlinear_arith)
                requires y < h;
            if w > 0 {
                assert(y * pitch + bpp * w <= (h - 1) * pitch + bpp * w) by (nonlinear_arith)
                    requires y < h;
            }
        }
        let row: usize = y * pitch;
        let mut x: usize = 0;
        while x < w
            invariant
                w == width,
                h == height,
                bpp == bytes_per_pixel(fmt),
                y < h,
                x <= w,
                src@.len() <= usize::MAX,
                row == y * pitch,
                w > 0 ==> row + bpp * w <= src@.len(),
                (y + 1) * w * 4 <= usize::MAX,
                out@.len() == (y * w + x) * 4,
                forall|yy: int, xx: int, c: int|
                    (0 <= yy < y && 0 <= xx < w || yy == y && 0 <= xx < x) && 0 <= c < 4
                        ==> #[trigger] out@[(yy * w + xx) * 4 + c] == channel(src@, pitch as int, fmt, xx, yy, c),
            decreases w - x,
        {
            proof {
                assert(bpp * x + bpp <= bpp * w) by (nonlinear_arith)
                    requires x < w, bpp >= 2;
            }
            let o = row + bpp * x;
            let px = decode_pixel(src, o, fmt);
            let ghost before = out@;
            out.push(px[0]);
            out.push(px[1]);
            out.push(px[2]);
            out.push(px[3]);
            proof {
                assert(out@.len() == (y * w + x + 1) * 4) by (nonlinear_arith)
                    requires out@.len() == before.len() + 4, before.len() == (y * w + x) * 4;
                assert forall|yy: int, xx: int, c: int|
                    (0 <= yy < y && 0 <= xx < w || yy == y && 0 <= xx < x + 1) && 0 <= c < 4
                        implies #[trigger] out@[(yy * w + xx) * 4 + c] == channel(src@, pitch as int, fmt, xx, yy, c) by {
                    if yy == y && xx == x {
                        assert((yy * w + xx) * 4 + c == before.len() + c);
                        assert(o == yy * pitch + bytes_per_pixel(fmt) * xx);
                    } else {
                        assert((yy * w + xx) * 4 + c < before.len()) by (nonlinear_arith)
                            requires
                                (0 <= yy < y && 0 <= xx < w || yy == y && 0 <= xx < x),
                                0 <= c < 4,
                                before.len() == (y * w + x) * 4;
                    }
                }
            }
            x += 1;
        }
        proof {
            assert((y * w + w) * 4 == (y + 1) * w * 4) by (nonlinear_arith);
        }
        y += 1;
    }
    proof {
        assert(y * w * 4 == width * height * 4) by (nonlinear_arith)
            requires y == h, w == width, h == height;
    }
    out
}

/// The RGBA tint of a hex-viewer byte: amber when it changed, white when not.
pub fn changed_color(changed: bool) -> (c: [u8; 4])
    ensures
        c@ == if changed { seq![255u8, 180u8, 80u8, 255u8] } else { seq![255u8, 255u8, 255u8, 255u8] },
{
    let c: [u8; 4] = if changed { [255, 180, 80, 255] } else { [255, 255, 255, 255] };
    assert(c@ =~= if changed { seq![255u8, 180u8, 80u8, 255u8] } else { seq![255u8, 255u8, 255u8, 255u8] });
    c
}

/// Per byte, whether `prev` and `cur` differ. The comparison runs up to the
/// shorter length; bytes present in only one of them count as unchanged, so
/// the result is as long as the longer slice.
pub fn diff_changed(prev: &[u8], cur: &[u8]) -> (r: Vec<bool>)
    ensures
        r@.len() == (if prev@.len() < cur@.len() { cur@.len() } else { prev@.len() }),
        forall|i: int| 0 <= i < r@.len() ==> #[trigger] r@[i] == (i < prev@.len() && i < cur@.len() && prev@[i] != cur@[i]),
{
    let n = if prev.len() < cur.len() { prev.len() } else { cur.len() };
    let m = if prev.len() < cur.len() { cur.len() } else { prev.len() };
    let mut r: Vec<bool> = Vec::new();
    let mut i: usize = 0;
    while i < m
        invariant
            n == (if prev@.len() < cur@.len() { prev@.len() } else { cur@.len() }),
            m == (if prev@.len() < cur@.len() { cur@.len() } else { prev@.len() }),
            i <= m,
            r@.len() == i,
            forall|k: int| 0 <= k < i ==> #[trigger] r@[k] == (k < prev@.len() && k < cur@.len() && prev@[k] != cur@[k]),
        decreases m - i,
    {
        if i < n {
            r.push(prev[i] != cur[i]);
        } else {
            r.push(false);
        }
        i += 1;
    }
    r
}

} // verus!
