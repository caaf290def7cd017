//! The tile viewer's model: the decoded frame cut into square tiles, which
//! tiles are shown, and the text of its labels.
use vstd::prelude::*;
use crate::fmt::{dec, hex, pad_left, push_dec, push_padded, push_str};

verus! {

/// Edge of a tile, in pixels.
pub const TILE_SIZE: usize = 16;

/// Opaque black, the color of a pixel the frame does not cover.
pub open spec fn black() -> Seq<u8> {
    seq![0u8, 0u8, 0u8, 255u8]
}

/// The RGBA pixel starting at byte `idx` of a packed frame, or opaque black
/// when the frame ends before its last byte.
pub open spec fn rgba_at(rgba: Seq<u8>, idx: int) -> Seq<u8> {
    if 0 <= idx && idx + 3 < rgba.len() {
        seq![rgba[idx], rgba[idx + 1], rgba[idx + 2], rgba[idx + 3]]
    } else {
        black()
    }
}

/// Pixel `j` (row-major within the tile) of tile `t` (row-major over a grid
/// `cols` tiles wide) of a frame `width` pixels wide.
pub open spec fn tile_pixel(rgba: Seq<u8>, width: int, tile_size: int, cols: int, t: int, j: int) -> Seq<u8> {
    let sx = (t % cols) * tile_size + j % tile_size;
    let sy = (t / cols) * tile_size + j / tile_size;
    rgba_at(rgba, (sy * width + sx) * 4)
}

/// Cut a packed RGBA frame into `tile_size`-square tiles, row by row; a
/// partial tile at the right or bottom edge is dropped.
pub fn slice_tiles(rgba: &[u8], width: usize, height: usize, tile_size: usize) -> (tiles: Vec<Vec<[u8; 4]>>)
    requires
        tile_size > 0,
        width * height * 4 <= usize::MAX,
    ensures
        tiles@.len() == (height / tile_size) * (width / tile_size),
        forall|t: int| 0 <= t < tiles@.len() ==> (#[trigger] tiles@[t])@.len() == tile_size * tile_size,
        forall|t: int, j: int|
            0 <= t < tiles@.len() && 0 <= j < tile_size * tile_size ==> (#[trigger] tiles@[t]@[j])@ == tile_pixel(
                rgba@,
                width as int,
                tile_size as int,
                (width / tile_size) as int,
                t,
                j,
            ),
{
    let cols = width / tile_size;
    let rows = height / tile_size;
    let ghost ts = tile_size as int;
    let ghost c = cols as int;
    proof {
        assert(cols * tile_size <= width) by (nonlinear_arith)
            requires cols == width / tile_size, tile_size > 0;
        assert(rows * tile_size <= height) by (nonlinear_arith)
            requires rows == height / tile_size, tile_size > 0;
    }
    let mut tiles: Vec<Vec<[u8; 4]>> = Vec::new();
    let mut ty: usize = 0;
    while ty < rows
        invariant
            tile_size > 0,
            ts == tile_size,
            c == cols,
            cols == width / tile_size,
            rows == height / tile_size,
            cols * tile_size <= width,
            rows * tile_size <= height,
            width * height * 4 <= usize::MAX,
            ty <= rows,
            tiles@.len() == ty * cols,
            forall|t: int| 0 <= t < tiles@.len() ==> (#[trigger] tiles@[t])@.len() == ts * ts,
            forall|t: int, j: int|
                0 <= t < tiles@.len() && 0 <= j < ts * ts ==> (#[trigger] tiles@[t]@[j])@ == tile_pixel(
                    rgba@,
                    width as int,
                    ts,
                    c,
                    t,
                    j,
                ),
        decreases rows - ty,
    {
        let mut tx: usize = 0;
        while tx < cols
            invariant
                tile_size > 0,
                ts == tile_size,
                c == cols,
                cols == width / tile_size,
                rows == height / tile_size,
                cols * tile_size <= width,
                rows * tile_size <= height,
                width * height * 4 <= usize::MAX,
                ty < rows,
                tx <= cols,
                tiles@.len() == ty * cols + tx,
                forall|t: int| 0 <= t < tiles@.len() ==> (#[trigger] tiles@[t])@.len() == ts * ts,
                forall|t: int, j: int|
                    0 <= t < tiles@.len() && 0 <= j < ts * ts ==> (#[trigger] tiles@[t]@[j])@ == tile_pixel(
                        rgba@,
                        width as int,
                        ts,
                        c,
                        t,
                        j,
                    ),
            decreases cols - tx,
        {
            let ghost t = ty * cols + tx;
            proof {
                assert((ty + 1) * tile_size <= rows * tile_size) by (nonlinear_arith)
                    requires ty < rows, tile_size > 0;
                vstd::arithmetic::div_mod::lemma_fundamental_div_mod_converse(t, c, ty as int, tx as int);
            }
            let tile = slice_one(rgba, width, height, tile_size, tx, ty, Ghost(t), Ghost(c));
            tiles.push(tile);
            tx += 1;
        }
        proof {
            assert(ty * cols + cols == (ty + 1) * cols) by (nonlinear_arith);
        }
        ty += 1;
    }
    tiles
}

/// The pixels of the tile in grid column `tx`, grid row `ty`.
fn slice_one(
    rgba: &[u8],
    width: usize,
    height: usize,
    tile_size: usize,
    tx: usize,
    ty: usize,
    Ghost(t): Ghost<int>,
    Ghost(c): Ghost<int>,
) -> (pixels: Vec<[u8; 4]>)
    requires
        tile_size > 0,
        c > 0,
        tx < c,
        c * tile_size <= width,
        (ty + 1) * tile_size <= height,
        width * height * 4 <= usize::MAX,
        t % c == tx,
        t / c == ty,
    ensures
        pixels@.len() == tile_size * tile_size,
        forall|j: int| 0 <= j < tile_size * tile_size ==> (#[trigger] pixels@[j])@ == tile_pixel(
            rgba@,
            width as int,
            tile_size as int,
            c,
            t,
            j,
        ),
{
    let ghost ts = tile_size as int;
    let mut pixels: Vec<[u8; 4]> = Vec::new();
    let mut py: usize = 0;
    proof {
        assert((ty + 1) * tile_size == ty * tile_size + tile_size) by (nonlinear_arith);
        assert((tx + 1) * tile_size <= c * tile_size) by (nonlinear_arith)
            requires tx < c, tile_size > 0;
        assert((tx + 1) * tile_size == tx * tile_size + tile_size) by (nonlinear_arith);
    }
    while py < tile_size
        invariant
            tile_size > 0,
            ts == tile_size,
            c > 0,
            tx < c,
            (tx + 1) * tile_size <= width,
            tx * tile_size + tile_size <= width,
            ty * tile_size + tile_size <= height,
            width * height * 4 <= usize::MAX,
            t % c == tx,
            t / c == ty,
            py <= tile_size,
            pixels@.len() == py * tile_size,
            forall|j: int| 0 <= j < pixels@.len() ==> (#[trigger] pixels@[j])@ == tile_pixel(
                rgba@,
                width as int,
                ts,
                c,
                t,
                j,
            ),
        decreases tile_size - py,
    {
        let mut px: usize = 0;
        while px < tile_size
            invariant
                tile_size > 0,
                ts == tile_size,
                c > 0,
                tx < c,
                tx * tile_size + tile_size <= width,
                ty * tile_size + tile_size <= height,
                width * height * 4 <= usize::MAX,
                t % c == tx,
                t / c == ty,
                py < tile_size,
                px <= tile_size,
                pixels@.len() == py * tile_size + px,
                forall|j: int| 0 <= j < pixels@.len() ==> (#[trigger] pixels@[j])@ == tile_pixel(
                    rgba@,
                    width as int,
                    ts,
                    c,
                    t,
                    j,
                ),
            decreases tile_size - px,
        {
            let sx = tx * tile_size + px;
            let sy = ty * tile_size + py;
            proof {
                assert(sx < width);
                assert(sy < height);
                assert(sy * width + sx < height * width) by (nonlinear_arith)
                    requires sx < width, sy < height;
                assert(height * width == width * height) by (nonlinear_arith);
                vstd::arithmetic::div_mod::lemma_fundamental_div_mod_converse(
                    py * tile_size + px,
                    ts,
                    py as int,
                    px as int,
                );
            }
            let idx = (sy * width + sx) * 4;
            let px_val: [u8; 4] = if idx + 3 < rgba.len() {
                [rgba[idx], rgba[idx + 1], rgba[idx + 2], rgba[idx + 3]]
            } else {
                [0, 0, 0, 255]
            };
            proof {
                let j = py * tile_size + px;
                assert(px_val@ =~= tile_pixel(rgba@, width as int, ts, c, t, j as int));
            }
            pixels.push(px_val);
            px += 1;
        }
        proof {
            assert(py * tile_size + tile_size == (py + 1) * tile_size) by (nonlinear_arith);
        }
        py += 1;
    }
    pixels
}

/// Whether every pixel of a tile is opaque black.
pub open spec fn blank_spec(tile: Seq<[u8; 4]>) -> bool {
    forall|i: int| 0 <= i < tile.len() ==> (#[trigger] tile[i])@ == black()
}

/// Whether every pixel of a tile is opaque black.
pub fn is_blank(tile: &[[u8; 4]]) -> (b: bool)
    ensures
        b == blank_spec(tile@),
{
    let mut i: usize = 0;
    while i < tile.len()
        invariant
            i <= tile@.len(),
            forall|k: int| 0 <= k < i ==> (#[trigger] tile@[k])@ == black(),
        decreases tile@.len() - i,
    {
        let p = tile[i];
        if !(p[0] == 0 && p[1] == 0 && p[2] == 0 && p[3] == 255) {
            assert(!(tile@[i as int]@ =~= black()));
            return false;
        }
        assert(tile@[i as int]@ =~= black());
        i += 1;
    }
    true
}

/// The tile viewer: the tiles of the last frame it sliced, the selection,
/// whether blank tiles are hidden, and the whole-step magnification (1..=8).
pub struct TileViewer {
    pub last_generation: u64,
    pub tiles: Vec<Vec<[u8; 4]>>,
    pub selected: Option<usize>,
    pub hide_blank: bool,
    pub zoom: u8,
}

impl TileViewer {
    /// No tiles yet; blank tiles hidden; magnified three times.
    pub fn new() -> (v: Self)
        ensures
            v.last_generation == u64::MAX,
            v.tiles@.len() == 0,
            v.selected is None,
            v.hide_blank,
            v.zoom == 3,
    {
        TileViewer { last_generation: u64::MAX, tiles: Vec::new(), selected: None, hide_blank: true, zoom: 3 }
    }

    /// Re-slice the frame into tiles when a new, non-empty frame arrived
    /// since the last slicing; otherwise nothing changes.
    pub fn refresh(&mut self, generation: u64, width: u32, height: u32, rgba: &[u8])
        requires
            width * height * 4 <= usize::MAX,
        ensures
            ({
                let fresh = generation != old(self).last_generation && width > 0 && height > 0 && rgba@.len() > 0;
                &&& fresh ==> final(self).last_generation == generation
                    && final(self).tiles@.len() == (height / 16) * (width / 16)
                    && forall|t: int, j: int|
                        0 <= t < final(self).tiles@.len() && 0 <= j < 256 ==> (#[trigger] final(self).tiles@[t]@[j])@
                            == tile_pixel(rgba@, width as int, 16, (width / 16) as int, t, j)
                    && forall|t: int| 0 <= t < final(self).tiles@.len() ==> (#[trigger] final(self).tiles@[t])@.len() == 256
                &&& !fresh ==> final(self).tiles@ == old(self).tiles@ && final(self).last_generation
                    == old(self).last_generation
            }),
            final(self).selected == old(self).selected,
            final(self).hide_blank == old(self).hide_blank,
            final(self).zoom == old(self).zoom,
    {
        if generation != self.last_generation && width > 0 && height > 0 && rgba.len() > 0 {
            self.tiles = slice_tiles(rgba, width as usize, height as usize, TILE_SIZE);
            self.last_generation = generation;
        }
    }

    /// Indices of the tiles the grid shows: all of them, or only the
    /// non-blank ones when blank tiles are hidden.
    pub fn visible_tiles(&self) -> (v: Vec<usize>)
        ensures
            v@ == Seq::new(self.tiles@.len(), |i: int| i as usize).filter(shown(self.hide_blank, self.tiles@)),
    {
        let ghost keep = shown(self.hide_blank, self.tiles@);
        let ghost all = Seq::new(self.tiles@.len(), |i: int| i as usize);
        let mut v: Vec<usize> = Vec::new();
        let mut i: usize = 0;
        proof {
            assert(all.take(0).filter(keep) =~= Seq::<usize>::empty()) by {
                reveal(Seq::filter);
            }
        }
        while i < self.tiles.len()
            invariant
                i <= self.tiles@.len(),
                all == Seq::new(self.tiles@.len(), |i: int| i as usize),
                keep == shown(self.hide_blank, self.tiles@),
                v@ == all.take(i as int).filter(keep),
            decreases self.tiles@.len() - i,
        {
            proof {
                reveal(Seq::filter);
                assert(all.take(i + 1).drop_last() =~= all.take(i as int));
                assert(all.take(i + 1).last() == i);
            }
            let shown_now = !(self.hide_blank && is_blank(self.tiles[i].as_slice()));
            assert(shown_now == keep(i));
            if shown_now {
                v.push(i);
            }
            i += 1;
        }
        proof {
            assert(all.take(self.tiles@.len() as int) =~= all);
        }
        v
    }
}

/// Whether tile `i` is shown: always, unless blank tiles are hidden and it
/// is blank.
pub open spec fn shown(hide_blank: bool, tiles: Seq<Vec<[u8; 4]>>) -> spec_fn(usize) -> bool {
    |i: usize| !(hide_blank && blank_spec(tiles[i as int]@))
}

/// The header count: `"<n> tiles total"`.
pub fn tile_count_text(n: usize) -> (s: String)
    ensures
        s@ == dec(n as nat) + " tiles total"@,
{
    let mut s = String::new();
    push_dec(&mut s, n as u64);
    push_str(&mut s, " tiles total");
    s
}

/// The inspector line of pixel `i` of a tile: its column and row padded to
/// two places, then its color as `#RRGGBB`.
pub fn pixel_line(i: usize, px: [u8; 4]) -> (s: String)
    ensures
        s@ == seq!['('] + pad_left(dec((i % 16) as nat), 2, ' ') + seq![','] + pad_left(dec((i / 16) as nat), 2, ' ')
            + ") #"@ + hex(px@[0] as nat, 2) + hex(px@[1] as nat, 2) + hex(px@[2] as nat, 2),
{
    proof {
        reveal_strlit("(");
        reveal_strlit(",");
        reveal_strlit(") #");
        reveal_strlit(" ");
        reveal_strlit("0");
    }
    let mut s = String::new();
    push_str(&mut s, "(");
    push_padded(&mut s, (i % TILE_SIZE) as u64, 10, 2, " ");
    push_str(&mut s, ",");
    push_padded(&mut s, (i / TILE_SIZE) as u64, 10, 2, " ");
    push_str(&mut s, ") #");
    push_padded(&mut s, px[0] as u64, 16, 2, "0");
    push_padded(&mut s, px[1] as u64, 16, 2, "0");
    push_padded(&mut s, px[2] as u64, 16, 2, "0");
    s
}

} // verus!
