//! Tightly packed 4-byte-per-pixel canvases: where a pixel's bytes lie, and
//! how the rows of a list of rects are packed into one payload.

use vstd::prelude::*;
use vstd::arithmetic::div_mod::{lemma_fundamental_div_mod, lemma_fundamental_div_mod_converse};
use vstd::arithmetic::mul::lemma_mul_inequality;
use crate::message::rects_byte_len;
use crate::rect::Rect;

verus! {

/// Offset of the first byte of pixel `(x, y)` in a canvas `w` pixels wide.
pub open spec fn offset(w: int, x: int, y: int) -> int {
    (y * w + x) * 4
}

/// Column of the pixel that byte `i` belongs to.
pub open spec fn px_x(i: int, w: int) -> int {
    (i / 4) % w
}

/// Row of the pixel that byte `i` belongs to.
pub open spec fn px_y(i: int, w: int) -> int {
    (i / 4) / w
}

/// The byte `k` of pixel `(x, y)` is byte `offset + k`, and back.
pub proof fn lemma_pixel_of(w: int, x: int, y: int, k: int)
    requires
        0 < w,
        0 <= x < w,
        0 <= y,
        0 <= k < 4,
    ensures
        px_x(offset(w, x, y) + k, w) == x,
        px_y(offset(w, x, y) + k, w) == y,
        (offset(w, x, y) + k) % 4 == k,
        offset(w, x, y) + k >= 0,
{
    let i = offset(w, x, y) + k;
    assert(y * w >= 0) by (nonlinear_arith)
        requires
            y >= 0,
            w > 0,
    ;
    lemma_fundamental_div_mod_converse(i, 4, y * w + x, k);
    lemma_fundamental_div_mod_converse(y * w + x, w, y, x);
}

/// Every byte index belongs to some pixel and channel.
pub proof fn lemma_offset_of(i: int, w: int)
    requires
        0 <= i,
        0 < w,
    ensures
        i == offset(w, px_x(i, w), px_y(i, w)) + i % 4,
        0 <= px_x(i, w) < w,
        0 <= px_y(i, w),
        0 <= i % 4 < 4,
{
    let p = i / 4;
    lemma_fundamental_div_mod(i, 4);
    lemma_fundamental_div_mod(p, w);
    assert(p * 4 == 4 * p) by (nonlinear_arith);
    assert((p / w) * w == w * (p / w)) by (nonlinear_arith);
    assert(p >= 0) by (nonlinear_arith)
        requires
            i >= 0,
            p == i / 4,
    ;
    assert(p / w >= 0) by (nonlinear_arith)
        requires
            p >= 0,
            w > 0,
    ;
    assert(0 <= p % w < w) by (nonlinear_arith)
        requires
            w > 0,
    ;
}

/// Pixels inside a `w × h` canvas have their bytes inside it.
pub proof fn lemma_offset_bound(w: int, h: int, x: int, y: int)
    requires
        0 <= x < w,
        0 <= y < h,
    ensures
        offset(w, x, y) + 4 <= w * h * 4,
        0 <= offset(w, x, y),
{
    assert((y * w + x) * 4 + 4 <= w * h * 4) by (nonlinear_arith)
        requires
            0 <= x < w,
            0 <= y < h,
    ;
    assert(0 <= (y * w + x) * 4) by (nonlinear_arith)
        requires
            0 <= x < w,
            0 <= y < h,
    ;
}

/// A byte inside a `w × h` canvas belongs to a pixel row below `h`.
pub proof fn lemma_px_y_bound(i: int, w: int, h: int)
    requires
        0 <= i < w * h * 4,
        0 < w,
    ensures
        px_y(i, w) < h,
{
    lemma_offset_of(i, w);
    let y = px_y(i, w);
    if y >= h {
        assert(offset(w, px_x(i, w), y) >= w * h * 4) by (nonlinear_arith)
            requires
                y >= h,
                px_x(i, w) >= 0,
                w > 0,
        ;
    }
}

/// The bytes of row `y` of rect `r` in a canvas `w` pixels wide.
pub open spec fn row_bytes(c: Seq<u8>, w: int, r: Rect, y: int) -> Seq<u8> {
    c.subrange(offset(w, r.x as int, y), offset(w, r.x as int, y) + 4 * r.w)
}

/// The first `n` rows of rect `r`, each row's bytes in turn.
pub open spec fn rect_rows(c: Seq<u8>, w: int, r: Rect, n: int) -> Seq<u8>
    decreases n,
{
    if n <= 0 {
        Seq::empty()
    } else {
        rect_rows(c, w, r, n - 1) + row_bytes(c, w, r, r.y + n - 1)
    }
}

/// The payload of a rect list: for each rect in order, its rows top to
/// bottom, each row's pixels left to right.
pub open spec fn spec_pack(c: Seq<u8>, w: int, rs: Seq<Rect>) -> Seq<u8>
    decreases rs.len(),
{
    if rs.len() == 0 {
        Seq::empty()
    } else {
        spec_pack(c, w, rs.drop_last()) + rect_rows(c, w, rs.last(), rs.last().h as int)
    }
}

/// Every row of `r` lies inside a canvas of `len` bytes, `w` pixels wide.
pub open spec fn rect_fits(r: Rect, w: int, len: int) -> bool {
    r.h == 0 || offset(w, r.x + r.w, r.y + r.h - 1) <= len
}

/// A rect inside a `w × h` canvas fits it.
pub proof fn lemma_fits_in_canvas(r: Rect, w: int, h: int)
    requires
        r.x + r.w <= w,
        r.y + r.h <= h,
    ensures
        rect_fits(r, w, w * h * 4),
        r.spec_byte_len() <= w * h * 4,
{
    if r.h > 0 {
        let yl = r.y + r.h - 1;
        assert(offset(w, r.x + r.w, yl) <= w * h * 4) by (nonlinear_arith)
            requires
                r.x + r.w <= w,
                0 <= yl < h,
        ;
    }
    assert(r.w * r.h * 4 <= w * h * 4) by (nonlinear_arith)
        requires
            0 <= r.w <= w,
            0 <= r.h <= h,
    ;
}

/// The packed rows of a fitting rect hold `4 * w * h` bytes.
pub proof fn lemma_rect_rows_len(c: Seq<u8>, w: int, r: Rect, n: int)
    requires
        0 <= n <= r.h,
        0 <= w,
        rect_fits(r, w, c.len() as int),
    ensures
        rect_rows(c, w, r, n).len() == 4 * r.w * n,
    decreases n,
{
    if n > 0 {
        lemma_rect_rows_len(c, w, r, n - 1);
        lemma_row_fits(w, r, r.y + n - 1, c.len() as int);
        assert(row_bytes(c, w, r, r.y + n - 1).len() == 4 * r.w);
        assert(4 * r.w * (n - 1) + 4 * r.w == 4 * r.w * n) by (nonlinear_arith);
    } else {
        assert(4 * r.w * n == 0) by (nonlinear_arith)
            requires
                n == 0,
        ;
    }
}

/// A row of a fitting rect lies inside the canvas.
pub proof fn lemma_row_fits(w: int, r: Rect, y: int, len: int)
    requires
        0 <= w,
        r.y <= y < r.y + r.h,
        rect_fits(r, w, len),
    ensures
        0 <= offset(w, r.x as int, y),
        offset(w, r.x as int, y) + 4 * r.w <= len,
{
    let yl = r.y + r.h - 1;
    lemma_mul_inequality(y, yl, w);
    assert(y * w >= 0) by (nonlinear_arith)
        requires
            y >= 0,
            w >= 0,
    ;
}

/// The packed payload of fitting rects holds exactly their bytes.
pub proof fn lemma_pack_len(c: Seq<u8>, w: int, rs: Seq<Rect>)
    requires
        0 <= w,
        forall|i: int| 0 <= i < rs.len() ==> rect_fits(#[trigger] rs[i], w, c.len() as int),
    ensures
        spec_pack(c, w, rs).len() == rects_byte_len(rs),
    decreases rs.len(),
{
    if rs.len() > 0 {
        let r = rs.last();
        assert(rect_fits(rs[rs.len() - 1], w, c.len() as int));
        lemma_pack_len(c, w, rs.drop_last());
        lemma_rect_rows_len(c, w, r, r.h as int);
        assert(4 * r.w * r.h == r.w * r.h * 4) by (nonlinear_arith);
    }
}

} // verus!
