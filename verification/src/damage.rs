//! Damage between two frames of a tightly packed BGRX canvas, found tile by
//! tile and merged into rects, and the packing of damaged rows into a FRAME
//! payload.

use vstd::prelude::*;
use vstd::relations::{sorted_by, total_ordering};
use vstd::seq_lib::{group_to_multiset_ensures, lemma_sorted_unique};
use vstd::slice::slice_subrange;
use crate::canvas::{
    lemma_fits_in_canvas, lemma_offset_of, lemma_pack_len, lemma_px_y_bound, lemma_row_fits, offset, px_x, px_y, rect_fits,
    rect_rows, spec_pack,
};
use crate::encode::push_bytes;
use crate::codec;
use crate::laws::well_formed;
use crate::message::{rects_byte_len, FrameView, MessageView};
use crate::pixel_format;
use crate::MAX_WIRE_RECTS;
use crate::rect::{full_rect, Rect};

verus! {

/// Side of a square tile, in pixels.
const TILE: usize = 32;

/// Bytes per pixel.
const BPP: usize = 4;

/// Tiles needed to cover `n` pixels.
pub open spec fn tile_count(n: int) -> int {
    (n + 31) / 32
}

/// Extent of tile `t` along an axis of `n` pixels: 32, or what is left at
/// the far edge.
pub open spec fn tile_len(n: int, t: int) -> int {
    if n - t * 32 < 32 {
        n - t * 32
    } else {
        32
    }
}

/// The `tw` pixels of row `y` from column `x0` differ between the two
/// canvases (`w` pixels wide).
pub open spec fn row_differs(prev: Seq<u8>, curr: Seq<u8>, w: int, x0: int, y: int, tw: int) -> bool {
    let s = offset(w, x0, y);
    prev.subrange(s, s + tw * 4) != curr.subrange(s, s + tw * 4)
}

/// Some row of the `tw × th` block at `(x0, y0)` differs.
pub open spec fn block_differs(
    prev: Seq<u8>,
    curr: Seq<u8>,
    w: int,
    x0: int,
    y0: int,
    tw: int,
    th: int,
) -> bool {
    exists|y: int| y0 <= y < y0 + th && #[trigger] row_differs(prev, curr, w, x0, y, tw)
}

/// Tile `(tx, ty)` of a `w × h` canvas changed.
pub open spec fn tile_dirty(prev: Seq<u8>, curr: Seq<u8>, w: int, h: int, tx: int, ty: int) -> bool {
    block_differs(prev, curr, w, tx * 32, ty * 32, tile_len(w, tx), tile_len(h, ty))
}

/// Whether the `len` bytes from `s` differ between the two buffers.
fn bytes_differ(prev: &[u8], curr: &[u8], s: usize, len: usize) -> (b: bool)
    requires
        prev@.len() == curr@.len(),
        s + len <= prev@.len(),
    ensures
        b == (prev@.subrange(s as int, s + len) != curr@.subrange(s as int, s + len)),
{
    let ghost sp = prev@.subrange(s as int, s + len);
    let ghost sc = curr@.subrange(s as int, s + len);
    let n = prev.len();
    let mut j: usize = 0;
    while j < len
        invariant
            n == prev@.len(),
            prev@.len() == curr@.len(),
            s + len <= prev@.len(),
            sp == prev@.subrange(s as int, s + len),
            sc == curr@.subrange(s as int, s + len),
            j <= len,
            forall|k: int| 0 <= k < j ==> sp[k] == sc[k],
        decreases len - j,
    {
        if prev[s + j] != curr[s + j] {
            assert(sp[j as int] != sc[j as int]);
            return true;
        }
        j = j + 1;
    }
    assert(sp =~= sc);
    false
}

/// Whether any row of the `tw × th` block at `(x0, y0)` differs between the
/// two canvases, `stride_px` pixels wide.
fn tile_changed(
    prev: &[u8],
    curr: &[u8],
    stride_px: usize,
    x0: usize,
    y0: usize,
    tw: usize,
    th: usize,
) -> (b: bool)
    requires
        prev@.len() == curr@.len(),
        0 < tw,
        0 < th,
        x0 + tw <= stride_px,
        (y0 + th) * stride_px * 4 <= prev@.len(),
    ensures
        b == block_differs(prev@, curr@, stride_px as int, x0 as int, y0 as int, tw as int, th as int),
{
    let ghost w = stride_px as int;
    let n = prev.len();
    assert((y0 + th) * stride_px * 4 >= stride_px * 4 && (y0 + th) * stride_px * 4 >= y0 + th)
        by (nonlinear_arith)
        requires
            0 < th,
            0 < stride_px,
    ;
    let row_bytes = tw * BPP;
    let mut y = y0;
    while y < y0 + th
        invariant
            prev@.len() == curr@.len(),
            n == prev@.len(),
            x0 + tw <= stride_px,
            (y0 + th) * stride_px * 4 <= prev@.len(),
            y0 + th <= prev@.len(),
            row_bytes == tw * 4,
            w == stride_px,
            y0 <= y <= y0 + th,
            forall|yy: int|
                y0 <= yy < y ==> !#[trigger] row_differs(prev@, curr@, w, x0 as int, yy, tw as int),
        decreases y0 + th - y,
    {
        assert((y + 1) * stride_px * 4 <= (y0 + th) * stride_px * 4) by (nonlinear_arith)
            requires
                y + 1 <= y0 + th,
        ;
        assert((y * stride_px + x0) * 4 + tw * 4 <= (y + 1) * stride_px * 4) by (nonlinear_arith)
            requires
                x0 + tw <= stride_px,
        ;
        assert(0 <= y * stride_px) by (nonlinear_arith);
        let s = (y * stride_px + x0) * BPP;
        assert(s == offset(w, x0 as int, y as int));
        if bytes_differ(prev, curr, s, row_bytes) {
            assert(row_differs(prev@, curr@, w, x0 as int, y as int, tw as int));
            return true;
        }
        y = y + 1;
    }
    false
}

/// The rect of a run of changed tiles: columns `[x0, x1)` of the tile row
/// whose top is `y0`, `th` rows high.
pub open spec fn run_rect(x0: int, y0: int, x1: int, th: int) -> Rect {
    Rect { x: x0 as u16, y: y0 as u16, w: (x1 - x0) as u16, h: th as u16 }
}

/// Scanning the first `n` tiles of tile row `ty`, left to right: the rects
/// of the runs of changed tiles that ended so far, and the left edge of the
/// run still going on, if any.
pub open spec fn row_scan(prev: Seq<u8>, curr: Seq<u8>, w: int, h: int, ty: int, n: int) -> (
    Seq<Rect>,
    Option<int>,
)
    decreases n,
{
    if n <= 0 {
        (Seq::empty(), None)
    } else {
        let (rs, run) = row_scan(prev, curr, w, h, ty, n - 1);
        let x0 = (n - 1) * 32;
        if tile_dirty(prev, curr, w, h, n - 1, ty) {
            (rs, if run is Some { run } else { Some(x0) })
        } else {
            match run {
                Some(rx0) => (rs.push(run_rect(rx0, ty * 32, x0, tile_len(h, ty))), None),
                None => (rs, None),
            }
        }
    }
}

/// The rects of the runs of changed tiles in tile row `ty`, left to right;
/// a run that reaches the right edge ends there.
pub open spec fn row_rects(prev: Seq<u8>, curr: Seq<u8>, w: int, h: int, ty: int) -> Seq<Rect> {
    let (rs, run) = row_scan(prev, curr, w, h, ty, tile_count(w));
    match run {
        Some(rx0) => rs.push(run_rect(rx0, ty * 32, w, tile_len(h, ty))),
        None => rs,
    }
}

/// The run rects of the first `m` tile rows, top to bottom.
pub open spec fn scan_rows(prev: Seq<u8>, curr: Seq<u8>, w: int, h: int, m: int) -> Seq<Rect>
    decreases m,
{
    if m <= 0 {
        Seq::empty()
    } else {
        scan_rows(prev, curr, w, h, m - 1) + row_rects(prev, curr, w, h, m - 1)
    }
}

/// The run rects of every tile row of a `w × h` canvas.
pub open spec fn tile_scan(prev: Seq<u8>, curr: Seq<u8>, w: int, h: int) -> Seq<Rect> {
    scan_rows(prev, curr, w, h, tile_count(h))
}

/// An optional index as an optional integer.
pub open spec fn opt_int(o: Option<usize>) -> Option<int> {
    match o {
        Some(v) => Some(v as int),
        None => None,
    }
}

/// A tile index below the tile count starts inside the axis.
proof fn lemma_tile_start(n: int, t: int)
    requires
        0 <= t < tile_count(n),
        0 <= n,
    ensures
        t * 32 < n,
        0 < tile_len(n, t) <= 32,
        t * 32 + tile_len(n, t) <= n,
{
}

/// Scans every tile row of two `w × h` canvases for runs of changed tiles.
fn scan_tiles(prev: &[u8], curr: &[u8], w: usize, h: usize) -> (dirty: Vec<Rect>)
    requires
        w <= 65535,
        h <= 65535,
        prev@.len() == curr@.len(),
        prev@.len() == w * h * 4,
    ensures
        dirty@ == tile_scan(prev@, curr@, w as int, h as int),
{
    let ghost p = prev@;
    let ghost c = curr@;
    let ghost wi = w as int;
    let ghost hi = h as int;
    let tiles_x = (w + TILE - 1) / TILE;
    let tiles_y = (h + TILE - 1) / TILE;
    let mut dirty: Vec<Rect> = Vec::new();
    let mut ty: usize = 0;
    while ty < tiles_y
        invariant
            p == prev@,
            c == curr@,
            wi == w,
            hi == h,
            w <= 65535,
            h <= 65535,
            prev@.len() == curr@.len(),
            prev@.len() == w * h * 4,
            tiles_x == tile_count(wi),
            tiles_y == tile_count(hi),
            ty <= tiles_y,
            dirty@ == scan_rows(p, c, wi, hi, ty as int),
        decreases tiles_y - ty,
    {
        proof {
            lemma_tile_start(hi, ty as int);
        }
        let mut run_x0: Option<usize> = None;
        let y0 = ty * TILE;
        let th = if h - y0 < TILE {
            h - y0
        } else {
            TILE
        };
        assert((y0 + th) * w * 4 <= prev@.len()) by (nonlinear_arith)
            requires
                y0 + th <= h,
                prev@.len() == w * h * 4,
        ;
        let ghost base = dirty@;
        let mut tx: usize = 0;
        while tx < tiles_x
            invariant
                p == prev@,
                c == curr@,
                wi == w,
                hi == h,
                w <= 65535,
                h <= 65535,
                prev@.len() == curr@.len(),
                prev@.len() == w * h * 4,
                tiles_x == tile_count(wi),
                ty < tiles_y,
                y0 == ty * 32,
                th == tile_len(hi, ty as int),
                0 < th <= 32,
                y0 + th <= h,
                (y0 + th) * w * 4 <= prev@.len(),
                tx <= tiles_x,
                dirty@ == base + row_scan(p, c, wi, hi, ty as int, tx as int).0,
                opt_int(run_x0) == row_scan(p, c, wi, hi, ty as int, tx as int).1,
                run_x0 matches Some(r) ==> r < tx * 32 && r < w,
            decreases tiles_x - tx,
        {
            proof {
                lemma_tile_start(wi, tx as int);
            }
            let x0 = tx * TILE;
            let tw = if w - x0 < TILE {
                w - x0
            } else {
                TILE
            };
            let changed = tile_changed(prev, curr, w, x0, y0, tw, th);
            if changed {
                if run_x0.is_none() {
                    run_x0 = Some(x0);
                }
            } else if let Some(rx0) = run_x0 {
                run_x0 = None;
                dirty.push(Rect::new(rx0 as u16, y0 as u16, (x0 - rx0) as u16, th as u16));
            }
            tx = tx + 1;
        }
        if let Some(rx0) = run_x0 {
            dirty.push(Rect::new(rx0 as u16, y0 as u16, (w - rx0) as u16, th as u16));
        }
        ty = ty + 1;
        assert(dirty@ =~= scan_rows(p, c, wi, hi, ty as int));
    }
    dirty
}

/// `a` comes no later than `b` in `(x, y)` order.
pub open spec fn xy_le(a: Rect, b: Rect) -> bool {
    a.x < b.x || (a.x == b.x && a.y <= b.y)
}

/// `a` comes no later than `b` in `(x, y, w, h)` order.
pub open spec fn rect_le(a: Rect, b: Rect) -> bool {
    a.x < b.x || (a.x == b.x && (a.y < b.y || (a.y == b.y && (a.w < b.w || (a.w == b.w && a.h
        <= b.h)))))
}

/// `rect_le` as a relation.
pub open spec fn rect_order() -> spec_fn(Rect, Rect) -> bool {
    |a: Rect, b: Rect| rect_le(a, b)
}

/// No two rects of `rs` share their top-left corner.
pub open spec fn corners_distinct(rs: Seq<Rect>) -> bool {
    forall|i: int, j: int|
        0 <= i < rs.len() && 0 <= j < rs.len() && #[trigger] rs[i].x == #[trigger] rs[j].x && rs[i].y
            == rs[j].y ==> i == j
}

/// `r` continues `last` downwards: same columns, starting on the row
/// below it.
pub open spec fn stacks_on(last: Rect, r: Rect) -> bool {
    last.x == r.x && last.w == r.w && last.y + last.h == r.y
}

/// `last` grown down by the height of `r` (saturating at `u16::MAX`).
pub open spec fn grown(last: Rect, r: Rect) -> Rect {
    Rect {
        h: if last.h + r.h > u16::MAX {
            u16::MAX
        } else {
            (last.h + r.h) as u16
        },
        ..last
    }
}

/// Appends `r` to `out`, or grows the last rect of `out` when `r` stacks
/// on it.
pub open spec fn merge_into(out: Seq<Rect>, r: Rect) -> Seq<Rect> {
    if out.len() > 0 && stacks_on(out.last(), r) {
        out.update(out.len() - 1, grown(out.last(), r))
    } else {
        out.push(r)
    }
}

/// The first `n` rects of `rs` merged in order.
pub open spec fn merge_run(rs: Seq<Rect>, n: int) -> Seq<Rect>
    decreases n,
{
    if n <= 0 {
        Seq::empty()
    } else {
        merge_into(merge_run(rs, n - 1), rs[n - 1])
    }
}

/// Vertical coalescing: two or more rects are put in `(x, y)` order and
/// each one that stacks on the rect before it is merged into it.
pub open spec fn spec_merge_vertical(rs: Seq<Rect>) -> Seq<Rect> {
    if rs.len() < 2 {
        rs
    } else {
        let t = rs.sort_by(rect_order());
        merge_run(t, t.len() as int)
    }
}

/// `(x, y, w, h)` order is a total order.
proof fn lemma_rect_order_total()
    ensures
        total_ordering(rect_order()),
{
}

/// Sorting rects with distinct corners by `(x, y)` gives the one order
/// `(x, y, w, h)` gives.
proof fn lemma_xy_sort_unique(rs: Seq<Rect>, t: Seq<Rect>)
    requires
        corners_distinct(rs),
        t.to_multiset() == rs.to_multiset(),
        forall|i: int, j: int| 0 <= i < j < t.len() ==> xy_le(#[trigger] t[i], #[trigger] t[j]),
    ensures
        t == rs.sort_by(rect_order()),
{
    broadcast use group_to_multiset_ensures;

    lemma_rect_order_total();
    assert forall|i: int, j: int| 0 <= i < j < t.len() implies #[trigger] rect_order()(
        t[i],
        t[j],
    ) by {
        assert(xy_le(t[i], t[j]));
        if t[i].x == t[j].x && t[i].y == t[j].y {
            assert(t.contains(t[i]));
            assert(t.contains(t[j]));
            assert(rs.to_multiset().count(t[i]) > 0);
            assert(rs.to_multiset().count(t[j]) > 0);
            assert(rs.contains(t[i]));
            assert(rs.contains(t[j]));
            let a = choose|a: int| 0 <= a < rs.len() && rs[a] == t[i];
            let b = choose|b: int| 0 <= b < rs.len() && rs[b] == t[j];
            assert(rs[a].x == rs[b].x && rs[a].y == rs[b].y);
        }
    }
    assert(sorted_by(t, rect_order()));
    rs.lemma_sort_by_ensures(rect_order());
    lemma_sorted_unique(t, rs.sort_by(rect_order()), rect_order());
}

/// Sorts `rects` by their top-left corner, `(x, y)`, with std's stable
/// `sort_by_key`. What is stated is what the std documentation promises:
/// the result is ordered by that key and holds the same rects. That equal
/// keys keep their order (stability) is not stated.
#[verifier::external_body]
fn sort_by_corner(rects: &mut Vec<Rect>)
    ensures
        final(rects)@.to_multiset() == old(rects)@.to_multiset(),
        forall|i: int, j: int|
            0 <= i < j < final(rects)@.len() ==> xy_le(#[trigger] final(rects)@[i], #[trigger] final(rects)@[j]),
{
    rects.sort_by_key(|r| (r.x, r.y));
}

/// Sorts the rects by `(x, y)` and merges each into the one before it
/// when it continues it downwards with the same columns.
fn merge_vertical(rects: Vec<Rect>) -> (out: Vec<Rect>)
    ensures
        corners_distinct(rects@) ==> out@ == spec_merge_vertical(rects@),
        rects@.len() < 2 ==> out@ == rects@,
        rects@.len() >= 2 ==> exists|t: Seq<Rect>|
            #![trigger merge_run(t, t.len() as int)]
            t.to_multiset() == rects@.to_multiset() && (forall|i: int, j: int|
                0 <= i < j < t.len() ==> xy_le(#[trigger] t[i], #[trigger] t[j])) && out@
                == merge_run(t, t.len() as int),
{
    if rects.len() < 2 {
        return rects;
    }
    let ghost r0 = rects@;
    let mut rects = rects;
    sort_by_corner(&mut rects);
    let mut out: Vec<Rect> = Vec::with_capacity(rects.len());
    let mut i: usize = 0;
    while i < rects.len()
        invariant
            i <= rects@.len(),
            out@ == merge_run(rects@, i as int),
        decreases rects@.len() - i,
    {
        let r = rects[i];
        let n = out.len();
        if n > 0 && out[n - 1].x == r.x && out[n - 1].w == r.w && out[n - 1].y as u32
            + out[n - 1].h as u32 == r.y as u32 {
            let last = out[n - 1];
            out.set(n - 1, Rect::new(last.x, last.y, last.w, last.h.saturating_add(r.h)));
        } else {
            out.push(r);
        }
        i = i + 1;
    }
    proof {
        if corners_distinct(r0) {
            lemma_xy_sort_unique(r0, rects@);
        }
        assert(merge_run(rects@, rects@.len() as int) == out@);
    }
    out
}

/// The damage `dirty_rects` reports between two `w × h` frames: the whole
/// frame when a buffer does not hold `w × h` pixels; none when no tile
/// changed; else the runs of changed tiles, coalesced vertically, or the
/// whole frame if that leaves more than `max_rects` rects.
pub open spec fn spec_dirty_rects(prev: Seq<u8>, curr: Seq<u8>, w: int, h: int, max_rects: int) -> Seq<
    Rect,
> {
    if prev.len() != curr.len() || prev.len() != w * h * 4 {
        seq![full_rect(w, h)]
    } else {
        let d = tile_scan(prev, curr, w, h);
        if d.len() == 0 {
            d
        } else if spec_merge_vertical(d).len() > max_rects {
            seq![full_rect(w, h)]
        } else {
            spec_merge_vertical(d)
        }
    }
}

/// Finds the damage between two tightly packed BGRX frames `w × h`: rects
/// covering every changed 32 × 32 tile, an empty list when nothing changed,
/// and the whole frame when a buffer is not `w × h` or when more than
/// `max_rects` rects would be needed (one full rect is cheaper to send).
pub fn dirty_rects(prev: &[u8], curr: &[u8], w: u16, h: u16, max_rects: usize) -> (r: Vec<Rect>)
    requires
        w * h * 4 <= usize::MAX,
    ensures
        r@ == spec_dirty_rects(prev@, curr@, w as int, h as int, max_rects as int),
{
    let w = w as usize;
    let h = h as usize;
    if prev.len() != curr.len() || prev.len() != w * h * BPP {
        return vec![Rect::new(0, 0, w as u16, h as u16)];
    }
    let dirty = scan_tiles(prev, curr, w, h);
    if dirty.len() == 0 {
        return dirty;
    }
    proof {
        lemma_scan_facts(prev@, curr@, w as int, h as int);
    }
    let dirty = merge_vertical(dirty);
    if dirty.len() > max_rects {
        return vec![Rect::new(0, 0, w as u16, h as u16)];
    }
    dirty
}

/// Packs the rows of `rects` out of a tightly packed canvas `stride_px`
/// pixels wide, rect after rect.
pub fn pack_rects(canvas: &[u8], stride_px: usize, rects: &[Rect]) -> (out: Vec<u8>)
    requires
        canvas@.len() <= isize::MAX,
        forall|i: int|
            0 <= i < rects@.len() ==> rect_fits(#[trigger] rects@[i], stride_px as int, canvas@.len() as int),
        rects_byte_len(rects@) <= usize::MAX,
    ensures
        out@ == spec_pack(canvas@, stride_px as int, rects@),
        out@.len() == rects_byte_len(rects@),
{
    let ghost c = canvas@;
    let ghost w = stride_px as int;
    let mut len: usize = 0;
    let mut i: usize = 0;
    while i < rects.len()
        invariant
            i <= rects@.len(),
            len == rects_byte_len(rects@.take(i as int)),
            rects_byte_len(rects@) <= usize::MAX,
        decreases rects@.len() - i,
    {
        proof {
            crate::message::lemma_rects_byte_len_prefix(rects@, i + 1, rects@.len() as int);
            assert(rects@.take(i + 1).drop_last() =~= rects@.take(i as int));
            assert(rects@.take(rects@.len() as int) =~= rects@);
        }
        len = len + rects[i].byte_len() as usize;
        i = i + 1;
    }
    let mut out: Vec<u8> = Vec::with_capacity(len);
    let mut i: usize = 0;
    while i < rects.len()
        invariant
            c == canvas@,
            c.len() <= isize::MAX,
            w == stride_px,
            i <= rects@.len(),
            forall|j: int|
                0 <= j < rects@.len() ==> rect_fits(#[trigger] rects@[j], w, c.len() as int),
            out@ == spec_pack(c, w, rects@.take(i as int)),
        decreases rects@.len() - i,
    {
        let r = rects[i];
        assert(rect_fits(rects@[i as int], w, c.len() as int));
        let row_len = r.w as usize * 4;
        let ghost before = out@;
        let mut y: usize = r.y as usize;
        let y_end: usize = r.y as usize + r.h as usize;
        while y < y_end
            invariant
                c == canvas@,
                c.len() <= isize::MAX,
                w == stride_px,
                rect_fits(r, w, c.len() as int),
                r.y <= y <= y_end,
                y_end == r.y + r.h,
                row_len == 4 * r.w,
                out@ == before + rect_rows(c, w, r, y - r.y),
            decreases y_end - y,
        {
            proof {
                lemma_row_fits(w, r, y as int, c.len() as int);
                assert(offset(w, r.x as int, y as int) + 4 * r.w <= c.len());
            }
            let s = (y * stride_px + r.x as usize) * 4;
            push_bytes(&mut out, slice_subrange(canvas, s, s + row_len));
            y = y + 1;
            assert(out@ =~= before + rect_rows(c, w, r, y - r.y));
        }
        proof {
            assert(rects@.take(i + 1).drop_last() =~= rects@.take(i as int));
            assert(rects@.take(i + 1).last() == r);
        }
        i = i + 1;
        assert(out@ =~= spec_pack(c, w, rects@.take(i as int)));
    }
    assert(rects@.take(i as int) =~= rects@);
    proof {
        lemma_pack_len(c, w, rects@);
    }
    out
}

/// Rect `a` lies inside rect `b`.
pub open spec fn rect_within(a: Rect, b: Rect) -> bool {
    b.x <= a.x && a.x + a.w <= b.x + b.w && b.y <= a.y && a.y + a.h <= b.y + b.h
}

/// Rects `a` and `b` share a pixel.
pub open spec fn overlap(a: Rect, b: Rect) -> bool {
    &&& 0 < a.w && 0 < a.h && 0 < b.w && 0 < b.h
    &&& a.x < b.x + b.w && b.x < a.x + a.w
    &&& a.y < b.y + b.h && b.y < a.y + a.h
}

/// No two rects of `rs` share a pixel.
pub open spec fn pairwise_disjoint(rs: Seq<Rect>) -> bool {
    forall|i: int, j: int|
        0 <= i < rs.len() && 0 <= j < rs.len() && i != j ==> !overlap(#[trigger] rs[i], #[trigger] rs[j])
}

/// Two overlapping rects share the pixel at their corners' larger
/// coordinates; two rects that share a pixel overlap.
proof fn lemma_overlap_pixel(a: Rect, b: Rect, px: int, py: int)
    ensures
        overlap(a, b) ==> ({
            let qx = if a.x < b.x { b.x as int } else { a.x as int };
            let qy = if a.y < b.y { b.y as int } else { a.y as int };
            a.contains(qx, qy) && b.contains(qx, qy)
        }),
        a.contains(px, py) && b.contains(px, py) ==> overlap(a, b),
{
}

/// The rect of tile `(tx, ty)` of a `w × h` canvas.
pub open spec fn tile_rect(w: int, h: int, tx: int, ty: int) -> Rect {
    Rect {
        x: (tx * 32) as u16,
        y: (ty * 32) as u16,
        w: tile_len(w, tx) as u16,
        h: tile_len(h, ty) as u16,
    }
}

/// A non-empty rect inside a `w × h` canvas.
pub open spec fn on_canvas(r: Rect, w: int, h: int) -> bool {
    0 < r.w && 0 < r.h && r.x + r.w <= w && r.y + r.h <= h
}

/// A rect of tile row `ty` inside the canvas, ending at or before column
/// `x1`.
pub open spec fn row_rect_ok(r: Rect, w: int, h: int, ty: int, x1: int) -> bool {
    &&& r.y == ty * 32
    &&& r.h == tile_len(h, ty)
    &&& on_canvas(r, w, h)
    &&& r.x + r.w <= x1
}

/// The rects closed by scanning the first `n` tiles of tile row `ty`.
pub open spec fn scan_closed(prev: Seq<u8>, curr: Seq<u8>, w: int, h: int, ty: int, n: int) -> Seq<
    Rect,
> {
    row_scan(prev, curr, w, h, ty, n).0
}

/// The run still open after scanning the first `n` tiles of tile row `ty`.
pub open spec fn scan_open(prev: Seq<u8>, curr: Seq<u8>, w: int, h: int, ty: int, n: int) -> Option<
    int,
> {
    row_scan(prev, curr, w, h, ty, n).1
}

/// What scanning the first `n` tiles of tile row `ty` yields: rects of the
/// tile row, inside the canvas, left to right, each ending before the run
/// still going on; every changed tile lies in one of them or in that run;
/// and no rect and no run when no tile changed.
proof fn lemma_row_scan(prev: Seq<u8>, curr: Seq<u8>, w: int, h: int, ty: int, n: int)
    requires
        0 <= w <= 65535,
        0 <= h <= 65535,
        0 <= ty < tile_count(h),
        0 <= n <= tile_count(w),
    ensures
        forall|k: int|
            0 <= k < scan_closed(prev, curr, w, h, ty, n).len() ==> row_rect_ok(
                #[trigger] scan_closed(prev, curr, w, h, ty, n)[k],
                w,
                h,
                ty,
                n * 32,
            ),
        forall|i: int, j: int|
            0 <= i < j < scan_closed(prev, curr, w, h, ty, n).len() ==> (#[trigger] scan_closed(
                prev,
                curr,
                w,
                h,
                ty,
                n,
            )[i]).x + scan_closed(prev, curr, w, h, ty, n)[i].w <= (#[trigger] scan_closed(
                prev,
                curr,
                w,
                h,
                ty,
                n,
            )[j]).x,
        scan_open(prev, curr, w, h, ty, n) matches Some(rx0) ==> 0 <= rx0 < n * 32 && rx0 < w
            && forall|k: int|
            0 <= k < scan_closed(prev, curr, w, h, ty, n).len() ==> (#[trigger] scan_closed(
                prev,
                curr,
                w,
                h,
                ty,
                n,
            )[k]).x + scan_closed(prev, curr, w, h, ty, n)[k].w <= rx0,
        forall|tx: int|
            0 <= tx < n && #[trigger] tile_dirty(prev, curr, w, h, tx, ty) ==> (exists|k: int|
                0 <= k < scan_closed(prev, curr, w, h, ty, n).len() && rect_within(
                    tile_rect(w, h, tx, ty),
                    #[trigger] scan_closed(prev, curr, w, h, ty, n)[k],
                )) || (scan_open(prev, curr, w, h, ty, n) matches Some(rx0) && rx0 <= tx * 32),
        (forall|tx: int| 0 <= tx < n ==> !#[trigger] tile_dirty(prev, curr, w, h, tx, ty))
            ==> scan_closed(prev, curr, w, h, ty, n).len() == 0 && scan_open(prev, curr, w, h, ty, n) is None,
    decreases n,
{
    lemma_tile_start(h, ty);
    if n > 0 {
        lemma_row_scan(prev, curr, w, h, ty, n - 1);
        lemma_tile_start(w, n - 1);
        let rs0 = scan_closed(prev, curr, w, h, ty, n - 1);
        let run0 = scan_open(prev, curr, w, h, ty, n - 1);
        let rs = scan_closed(prev, curr, w, h, ty, n);
        let x0 = (n - 1) * 32;
        assert forall|k: int| 0 <= k < rs0.len() implies row_rect_ok(#[trigger] rs0[k], w, h, ty, n * 32) by {
            assert(row_rect_ok(rs0[k], w, h, ty, (n - 1) * 32));
        }
        if !tile_dirty(prev, curr, w, h, n - 1, ty) {
            if let Some(rx0) = run0 {
                let nr = run_rect(rx0, ty * 32, x0, tile_len(h, ty));
                assert(rs == rs0.push(nr));
                assert(rs[rs.len() - 1] == nr);
                assert(row_rect_ok(nr, w, h, ty, n * 32));
                assert forall|k: int| 0 <= k < rs.len() implies row_rect_ok(#[trigger] rs[k], w, h, ty, n * 32) by {
                    if k < rs0.len() {
                        assert(rs[k] == rs0[k]);
                    }
                }
                assert forall|i: int, j: int| 0 <= i < j < rs.len() implies (#[trigger] rs[i]).x + rs[i].w <= (
                #[trigger] rs[j]).x by {
                    if j < rs0.len() {
                        assert(rs[i] == rs0[i] && rs[j] == rs0[j]);
                    } else {
                        assert(rs[i] == rs0[i]);
                        assert(rs0[i].x + rs0[i].w <= rx0);
                    }
                }
                assert forall|tx: int|
                    0 <= tx < n && #[trigger] tile_dirty(prev, curr, w, h, tx, ty) implies exists|k: int|
                    0 <= k < rs.len() && rect_within(tile_rect(w, h, tx, ty), #[trigger] rs[k]) by {
                    lemma_tile_start(w, tx);
                    if exists|k: int|
                        0 <= k < rs0.len() && rect_within(tile_rect(w, h, tx, ty), #[trigger] rs0[k]) {
                        let k = choose|k: int|
                            0 <= k < rs0.len() && rect_within(tile_rect(w, h, tx, ty), #[trigger] rs0[k]);
                        assert(rs[k] == rs0[k]);
                    } else {
                        assert(rect_within(tile_rect(w, h, tx, ty), rs[rs.len() - 1]));
                    }
                }
            }
        }
    }
}

/// The run rects of tile row `ty`: inside the canvas, left to right, and
/// every changed tile of the row lies in one of them; none when no tile of
/// the row changed.
proof fn lemma_row_rects(prev: Seq<u8>, curr: Seq<u8>, w: int, h: int, ty: int)
    requires
        0 <= w <= 65535,
        0 <= h <= 65535,
        0 <= ty < tile_count(h),
    ensures
        forall|k: int|
            0 <= k < row_rects(prev, curr, w, h, ty).len() ==> row_rect_ok(
                #[trigger] row_rects(prev, curr, w, h, ty)[k],
                w,
                h,
                ty,
                w,
            ),
        forall|i: int, j: int|
            0 <= i < j < row_rects(prev, curr, w, h, ty).len() ==> (#[trigger] row_rects(
                prev,
                curr,
                w,
                h,
                ty,
            )[i]).x + row_rects(prev, curr, w, h, ty)[i].w <= (#[trigger] row_rects(
                prev,
                curr,
                w,
                h,
                ty,
            )[j]).x,
        forall|tx: int|
            0 <= tx < tile_count(w) && #[trigger] tile_dirty(prev, curr, w, h, tx, ty) ==> exists|k: int|
                0 <= k < row_rects(prev, curr, w, h, ty).len() && rect_within(
                    tile_rect(w, h, tx, ty),
                    #[trigger] row_rects(prev, curr, w, h, ty)[k],
                ),
        (forall|tx: int| 0 <= tx < tile_count(w) ==> !#[trigger] tile_dirty(prev, curr, w, h, tx, ty))
            ==> row_rects(prev, curr, w, h, ty).len() == 0,
{
    let n = tile_count(w);
    lemma_row_scan(prev, curr, w, h, ty, n);
    lemma_tile_start(h, ty);
    let rs0 = scan_closed(prev, curr, w, h, ty, n);
    let rr = row_rects(prev, curr, w, h, ty);
    assert(n * 32 >= w);
    assert forall|k: int| 0 <= k < rs0.len() implies row_rect_ok(#[trigger] rs0[k], w, h, ty, w) by {
        assert(row_rect_ok(rs0[k], w, h, ty, n * 32));
    }
    if let Some(rx0) = scan_open(prev, curr, w, h, ty, n) {
        let nr = run_rect(rx0, ty * 32, w, tile_len(h, ty));
        assert(rr == rs0.push(nr));
        assert(rr[rr.len() - 1] == nr);
        assert(row_rect_ok(nr, w, h, ty, w));
        assert forall|k: int| 0 <= k < rr.len() implies row_rect_ok(#[trigger] rr[k], w, h, ty, w) by {
            if k < rs0.len() {
                assert(rr[k] == rs0[k]);
            }
        }
        assert forall|i: int, j: int| 0 <= i < j < rr.len() implies (#[trigger] rr[i]).x + rr[i].w <= (
        #[trigger] rr[j]).x by {
            if j < rs0.len() {
                assert(rr[i] == rs0[i] && rr[j] == rs0[j]);
            } else {
                assert(rr[i] == rs0[i]);
                assert(rs0[i].x + rs0[i].w <= rx0);
            }
        }
        assert forall|tx: int|
            0 <= tx < n && #[trigger] tile_dirty(prev, curr, w, h, tx, ty) implies exists|k: int|
            0 <= k < rr.len() && rect_within(tile_rect(w, h, tx, ty), #[trigger] rr[k]) by {
            lemma_tile_start(w, tx);
            if exists|k: int| 0 <= k < rs0.len() && rect_within(tile_rect(w, h, tx, ty), #[trigger] rs0[k]) {
                let k = choose|k: int|
                    0 <= k < rs0.len() && rect_within(tile_rect(w, h, tx, ty), #[trigger] rs0[k]);
                assert(rr[k] == rs0[k]);
            } else {
                assert(rect_within(tile_rect(w, h, tx, ty), rr[rr.len() - 1]));
            }
        }
    }
}

/// The run rects of the first `m` tile rows: inside the canvas, in
/// row-major order of their corners, every changed tile of those rows in
/// one of them, and none when no tile of those rows changed.
proof fn lemma_scan_rows(prev: Seq<u8>, curr: Seq<u8>, w: int, h: int, m: int)
    requires
        0 <= w <= 65535,
        0 <= h <= 65535,
        0 <= m <= tile_count(h),
    ensures
        forall|k: int|
            0 <= k < scan_rows(prev, curr, w, h, m).len() ==> on_canvas(
                #[trigger] scan_rows(prev, curr, w, h, m)[k],
                w,
                h,
            ) && scan_rows(prev, curr, w, h, m)[k].y + scan_rows(prev, curr, w, h, m)[k].h <= m * 32,
        forall|i: int, j: int|
            0 <= i < j < scan_rows(prev, curr, w, h, m).len() ==> (#[trigger] scan_rows(
                prev,
                curr,
                w,
                h,
                m,
            )[i]).y + scan_rows(prev, curr, w, h, m)[i].h <= (#[trigger] scan_rows(
                prev,
                curr,
                w,
                h,
                m,
            )[j]).y || (scan_rows(prev, curr, w, h, m)[i].y == scan_rows(prev, curr, w, h, m)[j].y
                && scan_rows(prev, curr, w, h, m)[i].x + scan_rows(prev, curr, w, h, m)[i].w
                <= scan_rows(prev, curr, w, h, m)[j].x),
        forall|tx: int, ty: int|
            0 <= tx < tile_count(w) && 0 <= ty < m && #[trigger] tile_dirty(prev, curr, w, h, tx, ty)
                ==> exists|k: int|
                0 <= k < scan_rows(prev, curr, w, h, m).len() && rect_within(
                    tile_rect(w, h, tx, ty),
                    #[trigger] scan_rows(prev, curr, w, h, m)[k],
                ),
        (forall|tx: int, ty: int|
            0 <= tx < tile_count(w) && 0 <= ty < m ==> !#[trigger] tile_dirty(prev, curr, w, h, tx, ty))
            ==> scan_rows(prev, curr, w, h, m).len() == 0,
    decreases m,
{
    if m > 0 {
        lemma_scan_rows(prev, curr, w, h, m - 1);
        lemma_row_rects(prev, curr, w, h, m - 1);
        let a = scan_rows(prev, curr, w, h, m - 1);
        let b = row_rects(prev, curr, w, h, m - 1);
        let ss = scan_rows(prev, curr, w, h, m);
        assert(ss == a + b);
        lemma_tile_start(h, m - 1);
        assert forall|k: int| 0 <= k < ss.len() implies on_canvas(#[trigger] ss[k], w, h) && ss[k].y
            + ss[k].h <= m * 32 by {
            if k < a.len() {
                assert(ss[k] == a[k]);
            } else {
                assert(ss[k] == b[k - a.len()]);
                assert(row_rect_ok(b[k - a.len()], w, h, m - 1, w));
            }
        }
        assert forall|i: int, j: int| 0 <= i < j < ss.len() implies (#[trigger] ss[i]).y + ss[i].h <= (
        #[trigger] ss[j]).y || (ss[i].y == ss[j].y && ss[i].x + ss[i].w <= ss[j].x) by {
            if j < a.len() {
                assert(ss[i] == a[i] && ss[j] == a[j]);
            } else if i < a.len() {
                assert(ss[i] == a[i] && ss[j] == b[j - a.len()]);
                assert(row_rect_ok(b[j - a.len()], w, h, m - 1, w));
            } else {
                assert(ss[i] == b[i - a.len()] && ss[j] == b[j - a.len()]);
                assert(row_rect_ok(b[i - a.len()], w, h, m - 1, w));
                assert(row_rect_ok(b[j - a.len()], w, h, m - 1, w));
            }
        }
        assert forall|tx: int, ty: int|
            0 <= tx < tile_count(w) && 0 <= ty < m && #[trigger] tile_dirty(prev, curr, w, h, tx, ty)
                implies exists|k: int| 0 <= k < ss.len() && rect_within(tile_rect(w, h, tx, ty), #[trigger] ss[k]) by {
            if ty < m - 1 {
                let k = choose|k: int| 0 <= k < a.len() && rect_within(tile_rect(w, h, tx, ty), #[trigger] a[k]);
                assert(ss[k] == a[k]);
            } else {
                let k = choose|k: int| 0 <= k < b.len() && rect_within(tile_rect(w, h, tx, ty), #[trigger] b[k]);
                assert(ss[k + a.len()] == b[k]);
            }
        }
        if forall|tx: int, ty: int|
            0 <= tx < tile_count(w) && 0 <= ty < m ==> !#[trigger] tile_dirty(prev, curr, w, h, tx, ty) {
            assert forall|tx: int| 0 <= tx < tile_count(w) implies !#[trigger] tile_dirty(prev, curr, w, h, tx, m - 1) by {
            }
        }
    }
}

/// A byte that differs between two `w × h` canvases lies in a changed
/// tile, the one holding its pixel.
proof fn lemma_changed_byte_tile(prev: Seq<u8>, curr: Seq<u8>, w: int, h: int, i: int)
    requires
        0 <= w <= 65535,
        0 <= h <= 65535,
        prev.len() == curr.len(),
        prev.len() == w * h * 4,
        0 <= i < prev.len(),
        prev[i] != curr[i],
    ensures
        0 <= px_x(i, w) / 32 < tile_count(w),
        0 <= px_y(i, w) / 32 < tile_count(h),
        tile_dirty(prev, curr, w, h, px_x(i, w) / 32, px_y(i, w) / 32),
        tile_rect(w, h, px_x(i, w) / 32, px_y(i, w) / 32).contains(px_x(i, w), px_y(i, w)),
{
    assert(w > 0) by (nonlinear_arith)
        requires
            0 <= i < w * h * 4,
            0 <= h,
    ;
    lemma_offset_of(i, w);
    lemma_px_y_bound(i, w, h);
    let x = px_x(i, w);
    let y = px_y(i, w);
    let tx = x / 32;
    let ty = y / 32;
    assert(tx * 32 <= x < tx * 32 + 32);
    assert(ty * 32 <= y < ty * 32 + 32);
    lemma_tile_start(w, tx);
    lemma_tile_start(h, ty);
    let x0 = tx * 32;
    let tl = tile_len(w, tx);
    let s = offset(w, x0, y);
    let j = i - s;
    assert(offset(w, x, y) - s == (x - x0) * 4);
    assert(0 <= j < tl * 4);
    assert(0 <= s);
    assert(s + tl * 4 <= prev.len()) by {
        crate::canvas::lemma_offset_bound(w, h, x0 + tl - 1, y);
    }
    assert(prev.subrange(s, s + tl * 4)[j] != curr.subrange(s, s + tl * 4)[j]);
    assert(row_differs(prev, curr, w, x0, y, tl));
}

/// Merging the first `n` of a list of rects that lie on a `w × h` canvas:
/// the merged rects lie on the canvas too, each of the `n` lies inside one
/// of them, and there are no more of them than `n`, and some if `n > 0`.
proof fn lemma_merge_run(rs: Seq<Rect>, n: int, w: int, h: int)
    requires
        0 <= w <= 65535,
        0 <= h <= 65535,
        0 <= n <= rs.len(),
        forall|k: int| 0 <= k < rs.len() ==> on_canvas(#[trigger] rs[k], w, h),
    ensures
        forall|j: int| 0 <= j < merge_run(rs, n).len() ==> on_canvas(#[trigger] merge_run(rs, n)[j], w, h),
        forall|k: int|
            0 <= k < n ==> exists|j: int|
                0 <= j < merge_run(rs, n).len() && rect_within(#[trigger] rs[k], #[trigger] merge_run(rs, n)[j]),
        merge_run(rs, n).len() <= n,
        n > 0 ==> merge_run(rs, n).len() > 0,
    decreases n,
{
    if n > 0 {
        lemma_merge_run(rs, n - 1, w, h);
        let out0 = merge_run(rs, n - 1);
        let out = merge_run(rs, n);
        let r = rs[n - 1];
        assert(on_canvas(r, w, h));
        if out0.len() > 0 && stacks_on(out0.last(), r) {
            let li = out0.len() - 1;
            let last = out0[li];
            let g = grown(last, r);
            assert(on_canvas(last, w, h));
            assert(g.h == last.h + r.h);
            assert(out == out0.update(li, g));
            assert(rect_within(last, g));
            assert(rect_within(r, g));
            assert forall|j: int| 0 <= j < out.len() implies on_canvas(#[trigger] out[j], w, h) by {
                if j != li {
                    assert(out[j] == out0[j]);
                }
            }
            assert forall|k: int| 0 <= k < n implies exists|j: int|
                0 <= j < out.len() && rect_within(#[trigger] rs[k], #[trigger] out[j]) by {
                if k == n - 1 {
                    assert(rect_within(rs[k], out[li]));
                } else {
                    let j = choose|j: int| 0 <= j < out0.len() && rect_within(#[trigger] rs[k], #[trigger] out0[j]);
                    if j == li {
                        assert(rect_within(rs[k], out[li]));
                    } else {
                        assert(out[j] == out0[j]);
                    }
                }
            }
        } else {
            assert(out == out0.push(r));
            assert forall|j: int| 0 <= j < out.len() implies on_canvas(#[trigger] out[j], w, h) by {
                if j < out0.len() {
                    assert(out[j] == out0[j]);
                }
            }
            assert forall|k: int| 0 <= k < n implies exists|j: int|
                0 <= j < out.len() && rect_within(#[trigger] rs[k], #[trigger] out[j]) by {
                if k == n - 1 {
                    assert(rect_within(rs[k], out[out0.len() as int]));
                } else {
                    let j = choose|j: int| 0 <= j < out0.len() && rect_within(#[trigger] rs[k], #[trigger] out0[j]);
                    assert(out[j] == out0[j]);
                }
            }
        }
    }
}

/// Rect `r` lies inside some rect of `b`.
pub open spec fn inside_some(r: Rect, b: Seq<Rect>) -> bool {
    exists|j: int| 0 <= j < b.len() && rect_within(r, #[trigger] b[j])
}

/// Every rect of `a` lies inside some rect of `b`.
pub open spec fn each_within(a: Seq<Rect>, b: Seq<Rect>) -> bool {
    forall|k: int| 0 <= k < a.len() ==> inside_some(#[trigger] a[k], b)
}

/// Every rect lies inside itself.
proof fn lemma_each_within_self(a: Seq<Rect>)
    ensures
        each_within(a, a),
{
    assert forall|k: int| 0 <= k < a.len() implies inside_some(#[trigger] a[k], a) by {
        assert(rect_within(a[k], a[k]));
    }
}

/// Vertical coalescing of rects on a `w × h` canvas keeps them on the
/// canvas, keeps each inside some merged rect, and keeps some when there
/// were some.
proof fn lemma_merge_vertical(rs: Seq<Rect>, w: int, h: int)
    requires
        0 <= w <= 65535,
        0 <= h <= 65535,
        forall|k: int| 0 <= k < rs.len() ==> on_canvas(#[trigger] rs[k], w, h),
    ensures
        forall|j: int|
            0 <= j < spec_merge_vertical(rs).len() ==> on_canvas(#[trigger] spec_merge_vertical(rs)[j], w, h),
        each_within(rs, spec_merge_vertical(rs)),
        spec_merge_vertical(rs).len() <= rs.len(),
        rs.len() > 0 ==> spec_merge_vertical(rs).len() > 0,
{
    broadcast use group_to_multiset_ensures;

    if rs.len() < 2 {
        lemma_each_within_self(rs);
    } else {
        let t = rs.sort_by(rect_order());
        lemma_rect_order_total();
        rs.lemma_sort_by_ensures(rect_order());
        assert(t.len() == rs.len()) by {
            assert(t.to_multiset().len() == rs.to_multiset().len());
        }
        assert forall|k: int| 0 <= k < t.len() implies on_canvas(#[trigger] t[k], w, h) by {
            assert(t.contains(t[k]));
            assert(t.to_multiset().count(t[k]) > 0);
            assert(rs.contains(t[k]));
        }
        lemma_merge_run(t, t.len() as int, w, h);
        let out = merge_run(t, t.len() as int);
        assert(spec_merge_vertical(rs) == out);
        assert forall|k: int| 0 <= k < rs.len() implies inside_some(#[trigger] rs[k], spec_merge_vertical(rs)) by {
            assert(rs.contains(rs[k]));
            assert(rs.to_multiset().count(rs[k]) > 0);
            assert(t.contains(rs[k]));
            let m = choose|m: int| 0 <= m < t.len() && t[m] == rs[k];
            let j = choose|j: int| 0 <= j < out.len() && rect_within(#[trigger] t[m], #[trigger] out[j]);
            assert(rect_within(rs[k], spec_merge_vertical(rs)[j]));
        }
    }
}

/// The run rects of a scan have distinct corners, lie on the canvas and
/// share no pixel.
proof fn lemma_scan_facts(prev: Seq<u8>, curr: Seq<u8>, w: int, h: int)
    requires
        0 <= w <= 65535,
        0 <= h <= 65535,
    ensures
        corners_distinct(tile_scan(prev, curr, w, h)),
        pairwise_disjoint(tile_scan(prev, curr, w, h)),
        forall|k: int|
            0 <= k < tile_scan(prev, curr, w, h).len() ==> on_canvas(
                #[trigger] tile_scan(prev, curr, w, h)[k],
                w,
                h,
            ),
{
    let m = tile_count(h);
    lemma_scan_rows(prev, curr, w, h, m);
    let d = tile_scan(prev, curr, w, h);
    assert forall|i: int, j: int|
        0 <= i < d.len() && 0 <= j < d.len() && #[trigger] d[i].x == #[trigger] d[j].x && d[i].y
            == d[j].y implies i == j by {
        if i < j {
            assert(d[i].y < d[j].y || (d[i].y == d[j].y && d[i].x < d[j].x));
        } else if j < i {
            assert(d[j].y < d[i].y || (d[j].y == d[i].y && d[j].x < d[i].x));
        }
    }
    assert forall|i: int, j: int| 0 <= i < d.len() && 0 <= j < d.len() && i != j implies !overlap(
        #[trigger] d[i],
        #[trigger] d[j],
    ) by {
        if i < j {
            assert(d[i].y + d[i].h <= d[j].y || (d[i].y == d[j].y && d[i].x + d[i].w <= d[j].x));
        } else {
            assert(d[j].y + d[j].h <= d[i].y || (d[j].y == d[i].y && d[j].x + d[j].w <= d[i].x));
        }
    }
}

/// Pixel `(x, y)` lies in some rect of `rs`.
pub open spec fn pixel_covered(rs: Seq<Rect>, x: int, y: int) -> bool {
    exists|k: int| 0 <= k < rs.len() && (#[trigger] rs[k]).contains(x, y)
}

/// Merging the first `n` of a list of rects on a `w × h` canvas that share
/// no pixel: the merged rects share none either, and each of their pixels
/// lies in one of the `n`.
proof fn lemma_merge_run_disjoint(rs: Seq<Rect>, n: int, w: int, h: int)
    requires
        0 <= w <= 65535,
        0 <= h <= 65535,
        0 <= n <= rs.len(),
        forall|k: int| 0 <= k < rs.len() ==> on_canvas(#[trigger] rs[k], w, h),
        pairwise_disjoint(rs),
    ensures
        pairwise_disjoint(merge_run(rs, n)),
        forall|j: int, x: int, y: int|
            0 <= j < merge_run(rs, n).len() && #[trigger] merge_run(rs, n)[j].contains(x, y)
                ==> pixel_covered(rs.take(n), x, y),
    decreases n,
{
    if n > 0 {
        lemma_merge_run_disjoint(rs, n - 1, w, h);
        lemma_merge_run(rs, n - 1, w, h);
        let out0 = merge_run(rs, n - 1);
        let out = merge_run(rs, n);
        let r = rs[n - 1];
        let pre = rs.take(n - 1);
        let all = rs.take(n);
        assert forall|x: int, y: int| pixel_covered(pre, x, y) implies pixel_covered(all, x, y) by {
            let k = choose|k: int| 0 <= k < pre.len() && (#[trigger] pre[k]).contains(x, y);
            assert(all[k] == pre[k]);
        }
        assert(all[n - 1] == r);
        // a pixel of `r` lies in no earlier merged rect
        assert forall|j: int, x: int, y: int|
            0 <= j < out0.len() && #[trigger] out0[j].contains(x, y) && r.contains(x, y) implies false by {
            let k = choose|k: int| 0 <= k < pre.len() && (#[trigger] pre[k]).contains(x, y);
            assert(pre[k] == rs[k]);
            lemma_overlap_pixel(rs[k], rs[n - 1], x, y);
        }
        if out0.len() > 0 && stacks_on(out0.last(), r) {
            let li = out0.len() - 1;
            let last = out0[li];
            let g = grown(last, r);
            assert(on_canvas(last, w, h));
            assert(g.h == last.h + r.h);
            assert(out == out0.update(li, g));
            assert forall|j: int, x: int, y: int|
                0 <= j < out.len() && #[trigger] out[j].contains(x, y) implies pixel_covered(all, x, y) by {
                if j == li {
                    if !last.contains(x, y) {
                        assert(r.contains(x, y));
                    } else {
                        assert(out0[li].contains(x, y));
                    }
                } else {
                    assert(out[j] == out0[j]);
                }
            }
            assert forall|i: int, j: int| 0 <= i < out.len() && 0 <= j < out.len() && i != j implies !overlap(
                #[trigger] out[i],
                #[trigger] out[j],
            ) by {
                if i != li && j != li {
                    assert(out[i] == out0[i] && out[j] == out0[j]);
                } else {
                    let o = if i == li { j } else { i };
                    assert(out[o] == out0[o]);
                    if overlap(g, out0[o]) {
                        let qx = if g.x < out0[o].x { out0[o].x as int } else { g.x as int };
                        let qy = if g.y < out0[o].y { out0[o].y as int } else { g.y as int };
                        lemma_overlap_pixel(g, out0[o], qx, qy);
                        if last.contains(qx, qy) {
                            lemma_overlap_pixel(last, out0[o], qx, qy);
                            assert(out0[li] == last);
                        } else {
                            assert(r.contains(qx, qy));
                            assert(out0[o].contains(qx, qy));
                        }
                    }
                    lemma_overlap_pixel(out0[o], g, 0, 0);
                }
            }
        } else {
            assert(out == out0.push(r));
            assert forall|j: int, x: int, y: int|
                0 <= j < out.len() && #[trigger] out[j].contains(x, y) implies pixel_covered(all, x, y) by {
                if j < out0.len() {
                    assert(out[j] == out0[j]);
                } else {
                    assert(all[n - 1].contains(x, y));
                }
            }
            assert forall|i: int, j: int| 0 <= i < out.len() && 0 <= j < out.len() && i != j implies !overlap(
                #[trigger] out[i],
                #[trigger] out[j],
            ) by {
                if i < out0.len() && j < out0.len() {
                    assert(out[i] == out0[i] && out[j] == out0[j]);
                } else {
                    let o = if i < out0.len() { i } else { j };
                    assert(out[o] == out0[o]);
                    if overlap(r, out0[o]) {
                        let qx = if r.x < out0[o].x { out0[o].x as int } else { r.x as int };
                        let qy = if r.y < out0[o].y { out0[o].y as int } else { r.y as int };
                        lemma_overlap_pixel(r, out0[o], qx, qy);
                        assert(out0[o].contains(qx, qy));
                    }
                    lemma_overlap_pixel(out0[o], r, 0, 0);
                }
            }
        }
    }
}

/// Vertical coalescing keeps rects on a `w × h` canvas that share no pixel
/// from sharing any.
proof fn lemma_merge_vertical_disjoint(rs: Seq<Rect>, w: int, h: int)
    requires
        0 <= w <= 65535,
        0 <= h <= 65535,
        forall|k: int| 0 <= k < rs.len() ==> on_canvas(#[trigger] rs[k], w, h),
        pairwise_disjoint(rs),
    ensures
        pairwise_disjoint(spec_merge_vertical(rs)),
{
    broadcast use group_to_multiset_ensures;

    if rs.len() >= 2 {
        let t = rs.sort_by(rect_order());
        lemma_rect_order_total();
        rs.lemma_sort_by_ensures(rect_order());
        assert forall|k: int| 0 <= k < t.len() implies on_canvas(#[trigger] t[k], w, h) by {
            assert(t.contains(t[k]));
            assert(t.to_multiset().count(t[k]) > 0);
            assert(rs.contains(t[k]));
        }
        // disjoint non-empty rects are distinct, so `t` holds each once
        assert(rs.no_duplicates()) by {
            assert forall|i: int, j: int| 0 <= i < rs.len() && 0 <= j < rs.len() && i != j implies rs[i]
                != rs[j] by {
                assert(!overlap(rs[i], rs[j]));
                assert(on_canvas(rs[i], w, h));
            }
        }
        rs.lemma_multiset_has_no_duplicates();
        t.lemma_multiset_has_no_duplicates_conv();
        assert forall|i: int, j: int| 0 <= i < t.len() && 0 <= j < t.len() && i != j implies !overlap(
            #[trigger] t[i],
            #[trigger] t[j],
        ) by {
            assert(t.contains(t[i]));
            assert(t.contains(t[j]));
            assert(rs.to_multiset().count(t[i]) > 0);
            assert(rs.to_multiset().count(t[j]) > 0);
            assert(rs.contains(t[i]));
            assert(rs.contains(t[j]));
            let a = choose|a: int| 0 <= a < rs.len() && rs[a] == t[i];
            let b = choose|b: int| 0 <= b < rs.len() && rs[b] == t[j];
            assert(t[i] != t[j]);
        }
        lemma_merge_run_disjoint(t, t.len() as int, w, h);
    }
}

/// The damage rects share no pixel, and each holds at least one pixel
/// unless the damage is the one whole-frame rect.
pub proof fn lemma_damage_rects_disjoint(prev: Seq<u8>, curr: Seq<u8>, w: int, h: int, max_rects: int)
    requires
        0 <= w <= 65535,
        0 <= h <= 65535,
    ensures
        pairwise_disjoint(spec_dirty_rects(prev, curr, w, h, max_rects)),
        spec_dirty_rects(prev, curr, w, h, max_rects) == seq![full_rect(w, h)] || forall|k: int|
            0 <= k < spec_dirty_rects(prev, curr, w, h, max_rects).len() ==> 0 < (
            #[trigger] spec_dirty_rects(prev, curr, w, h, max_rects)[k]).w && 0
                < spec_dirty_rects(prev, curr, w, h, max_rects)[k].h,
{
    let r = spec_dirty_rects(prev, curr, w, h, max_rects);
    if prev.len() == curr.len() && prev.len() == w * h * 4 {
        lemma_scan_facts(prev, curr, w, h);
        let d = tile_scan(prev, curr, w, h);
        if d.len() > 0 && spec_merge_vertical(d).len() <= max_rects {
            lemma_merge_vertical(d, w, h);
            lemma_merge_vertical_disjoint(d, w, h);
            assert(r == spec_merge_vertical(d));
            assert forall|k: int| 0 <= k < r.len() implies 0 < (#[trigger] r[k]).w && 0 < r[k].h by {
                assert(on_canvas(r[k], w, h));
            }
        }
    }
}

/// No damage is reported exactly when both buffers hold the same `w × h`
/// frame.
pub proof fn lemma_no_damage_iff_unchanged(
    prev: Seq<u8>,
    curr: Seq<u8>,
    w: int,
    h: int,
    max_rects: int,
)
    requires
        0 <= w <= 65535,
        0 <= h <= 65535,
    ensures
        spec_dirty_rects(prev, curr, w, h, max_rects).len() == 0 <==> (prev.len() == curr.len()
            && prev.len() == w * h * 4 && prev == curr),
{
    if prev.len() == curr.len() && prev.len() == w * h * 4 {
        let m = tile_count(h);
        lemma_scan_rows(prev, curr, w, h, m);
        lemma_scan_facts(prev, curr, w, h);
        let d = tile_scan(prev, curr, w, h);
        if prev == curr {
            assert forall|tx: int, ty: int|
                0 <= tx < tile_count(w) && 0 <= ty < m implies !#[trigger] tile_dirty(
                prev,
                curr,
                w,
                h,
                tx,
                ty,
            ) by {
                assert forall|y: int| #![trigger row_differs(prev, curr, w, tx * 32, y, tile_len(w, tx))]
                    ty * 32 <= y < ty * 32 + tile_len(h, ty) implies !row_differs(
                    prev,
                    curr,
                    w,
                    tx * 32,
                    y,
                    tile_len(w, tx),
                ) by {}
            }
            assert(d.len() == 0);
        } else {
            if forall|i: int| 0 <= i < prev.len() ==> prev[i] == curr[i] {
                assert(prev =~= curr);
            }
            let i = choose|i: int| 0 <= i < prev.len() && prev[i] != curr[i];
            lemma_changed_byte_tile(prev, curr, w, h, i);
            let tx = px_x(i, w) / 32;
            let ty = px_y(i, w) / 32;
            assert(tile_dirty(prev, curr, w, h, tx, ty));
            assert(d.len() > 0);
            lemma_merge_vertical(d, w, h);
        }
    }
}

/// Every byte that differs between the two frames belongs to a pixel that
/// the reported damage covers.
pub proof fn lemma_damage_covers_changes(
    prev: Seq<u8>,
    curr: Seq<u8>,
    w: int,
    h: int,
    max_rects: int,
    i: int,
)
    requires
        0 <= w <= 65535,
        0 <= h <= 65535,
        0 <= i < w * h * 4,
        i < prev.len(),
        i < curr.len(),
        prev[i] != curr[i],
    ensures
        pixel_covered(spec_dirty_rects(prev, curr, w, h, max_rects), px_x(i, w), px_y(i, w)),
{
    let r = spec_dirty_rects(prev, curr, w, h, max_rects);
    assert(w > 0) by (nonlinear_arith)
        requires
            0 <= i < w * h * 4,
            0 <= h,
    ;
    lemma_offset_of(i, w);
    lemma_px_y_bound(i, w, h);
    let x = px_x(i, w);
    let y = px_y(i, w);
    if prev.len() != curr.len() || prev.len() != w * h * 4 {
        assert(r[0].contains(x, y));
    } else {
        lemma_changed_byte_tile(prev, curr, w, h, i);
        let tx = x / 32;
        let ty = y / 32;
        let tr = tile_rect(w, h, tx, ty);
        lemma_scan_rows(prev, curr, w, h, tile_count(h));
        lemma_scan_facts(prev, curr, w, h);
        let d = tile_scan(prev, curr, w, h);
        let k = choose|k: int| 0 <= k < d.len() && rect_within(tr, #[trigger] d[k]);
        let m = spec_merge_vertical(d);
        if m.len() > max_rects {
            assert(r[0].contains(x, y));
        } else {
            lemma_merge_vertical(d, w, h);
            assert(inside_some(d[k], m));
            let j = choose|j: int| 0 <= j < m.len() && rect_within(d[k], #[trigger] m[j]);
            assert(r[j].contains(x, y));
        }
    }
}

/// The reported damage lies on the canvas, so it can be packed, and holds
/// at most `max_rects` rects unless it is the one whole-frame rect.
pub proof fn lemma_damage_bounds(prev: Seq<u8>, curr: Seq<u8>, w: int, h: int, max_rects: int)
    requires
        0 <= w <= 65535,
        0 <= h <= 65535,
        0 <= max_rects,
    ensures
        forall|k: int|
            0 <= k < spec_dirty_rects(prev, curr, w, h, max_rects).len() ==> ({
                let r = #[trigger] spec_dirty_rects(prev, curr, w, h, max_rects)[k];
                r.x + r.w <= w && r.y + r.h <= h && rect_fits(r, w, w * h * 4)
            }),
        spec_dirty_rects(prev, curr, w, h, max_rects).len() <= max_rects || spec_dirty_rects(
            prev,
            curr,
            w,
            h,
            max_rects,
        ) == seq![full_rect(w, h)],
{
    let r = spec_dirty_rects(prev, curr, w, h, max_rects);
    if prev.len() == curr.len() && prev.len() == w * h * 4 {
        lemma_scan_facts(prev, curr, w, h);
        let d = tile_scan(prev, curr, w, h);
        lemma_merge_vertical(d, w, h);
    }
    assert forall|k: int| 0 <= k < r.len() implies ({
        let q = #[trigger] r[k];
        q.x + q.w <= w && q.y + q.h <= h && rect_fits(q, w, w * h * 4)
    }) by {
        assert(r[k].x + r[k].w <= w && r[k].y + r[k].h <= h);
        lemma_fits_in_canvas(r[k], w, h);
    }
}

/// Damage found between two frames, packed from the current one, makes a
/// well-formed RAW FRAME message whenever at most `MAX_WIRE_RECTS` rects are
/// allowed.
pub proof fn lemma_damage_frame_well_formed(
    prev: Seq<u8>,
    curr: Seq<u8>,
    w: int,
    h: int,
    max_rects: int,
    frame_id: u64,
    timestamp_ns: u64,
)
    requires
        0 <= w <= 65535,
        0 <= h <= 65535,
        0 <= max_rects <= MAX_WIRE_RECTS,
        curr.len() == w * h * 4,
    ensures
        well_formed(
            MessageView::Frame(
                FrameView {
                    frame_id,
                    timestamp_ns,
                    codec: codec::RAW,
                    pixel_format: pixel_format::BGRX,
                    rects: spec_dirty_rects(prev, curr, w, h, max_rects),
                    payload: spec_pack(curr, w, spec_dirty_rects(prev, curr, w, h, max_rects)),
                },
            ),
        ),
{
    let r = spec_dirty_rects(prev, curr, w, h, max_rects);
    lemma_damage_bounds(prev, curr, w, h, max_rects);
    assert forall|k: int| 0 <= k < r.len() implies rect_fits(#[trigger] r[k], w, curr.len() as int) by {
        let q = r[k];
        assert(q.x + q.w <= w && q.y + q.h <= h && rect_fits(q, w, w * h * 4));
    }
    lemma_pack_len(curr, w, r);
}

} // verus!
