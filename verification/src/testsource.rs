//! Test-pattern frame source: an animated "desktop" (gradient background,
//! bouncing box and square, sweeping bar) with true damage rectangles, in
//! BGRX byte order.

use vstd::prelude::*;
use crate::canvas::{
    lemma_fits_in_canvas, lemma_offset_bound, lemma_offset_of, lemma_pixel_of, lemma_px_y_bound,
    offset, px_x, px_y, rect_fits, spec_pack,
};
use crate::damage::pack_rects;
use crate::codec;
use crate::message::{rects_byte_len, Frame, FrameView};
use crate::pixel_format;
use crate::rect::{full_rect, Rect};

verus! {

/// BGRX: a red box.
pub const BOX_COLOR: [u8; 4] = [40u8, 60u8, 230u8, 255u8];

/// BGRX: a blue square.
pub const SQ_COLOR: [u8; 4] = [200u8, 140u8, 40u8, 255u8];

/// BGRX: a near-white sweep bar.
pub const BAR_COLOR: [u8; 4] = [235u8, 235u8, 235u8, 255u8];

/// Channel `k` of a BGRX color.
pub open spec fn channel(c: [u8; 4], k: int) -> u8 {
    c@[k]
}

/// Synthesized display frames with damage tracking.
pub struct TestSource {
    w: usize,
    h: usize,
    fps: u32,
    full_every_secs: u64,
    bg: Vec<u8>,
    canvas: Vec<u8>,
    frame_id: u64,
    tick: u64,
    box_x: i32,
    box_y: i32,
    box_dx: i32,
    box_dy: i32,
    box_w: usize,
    box_h: usize,
    sq_x: i32,
    sq_y: i32,
    sq_dx: i32,
    sq_dy: i32,
    sq_s: usize,
    bar_x: i32,
    bar_w: usize,
}

/// The state of a test source as mathematical values.
pub struct SceneView {
    pub w: int,
    pub h: int,
    pub fps: u32,
    pub full_every_secs: u64,
    pub bg: Seq<u8>,
    pub canvas: Seq<u8>,
    pub frame_id: u64,
    pub tick: u64,
    pub box_x: int,
    pub box_y: int,
    pub box_dx: int,
    pub box_dy: int,
    pub box_w: int,
    pub box_h: int,
    pub sq_x: int,
    pub sq_y: int,
    pub sq_dx: int,
    pub sq_dy: int,
    pub sq_s: int,
    pub bar_x: int,
    pub bar_w: int,
}

impl View for TestSource {
    type V = SceneView;

    closed spec fn view(&self) -> SceneView {
        SceneView {
            w: self.w as int,
            h: self.h as int,
            fps: self.fps,
            full_every_secs: self.full_every_secs,
            bg: self.bg@,
            canvas: self.canvas@,
            frame_id: self.frame_id,
            tick: self.tick,
            box_x: self.box_x as int,
            box_y: self.box_y as int,
            box_dx: self.box_dx as int,
            box_dy: self.box_dy as int,
            box_w: self.box_w as int,
            box_h: self.box_h as int,
            sq_x: self.sq_x as int,
            sq_y: self.sq_y as int,
            sq_dx: self.sq_dx as int,
            sq_dy: self.sq_dy as int,
            sq_s: self.sq_s as int,
            bar_x: self.bar_x as int,
            bar_w: self.bar_w as int,
        }
    }
}

pub open spec fn min(a: int, b: int) -> int {
    if a <= b {
        a
    } else {
        b
    }
}

pub open spec fn max(a: int, b: int) -> int {
    if a >= b {
        a
    } else {
        b
    }
}

/// The background gradient: blue grows downward, red fades downward, green
/// grows rightward.
pub open spec fn gradient_byte(w: int, h: int, x: int, y: int, k: int) -> u8 {
    let b = (y * 255 / max(h, 1)) as u8;
    if k == 0 {
        b
    } else if k == 1 {
        (x * 255 / max(w, 1)) as u8
    } else if k == 2 {
        (255 - b) as u8
    } else {
        255
    }
}

/// The part of the `w × h` rect at `(x, y)` that lies on a `cw × ch`
/// canvas; the empty rect at the origin when nothing does.
pub open spec fn spec_clip(cw: int, ch: int, x: int, y: int, w: int, h: int) -> Rect {
    let x0 = max(x, 0);
    let y0 = max(y, 0);
    let x1 = min(x + w, cw);
    let y1 = min(y + h, ch);
    if x1 <= x0 || y1 <= y0 {
        Rect { x: 0, y: 0, w: 0, h: 0 }
    } else {
        Rect { x: x0 as u16, y: y0 as u16, w: (x1 - x0) as u16, h: (y1 - y0) as u16 }
    }
}

impl SceneView {
    /// The box as it appears on the canvas.
    pub open spec fn box_rect(self) -> Rect {
        spec_clip(self.w, self.h, self.box_x, self.box_y, self.box_w, self.box_h)
    }

    /// The square as it appears on the canvas.
    pub open spec fn sq_rect(self) -> Rect {
        spec_clip(self.w, self.h, self.sq_x, self.sq_y, self.sq_s, self.sq_s)
    }

    /// The bar as it appears on the canvas (full height).
    pub open spec fn bar_rect(self) -> Rect {
        spec_clip(self.w, self.h, self.bar_x, 0, self.bar_w, self.h)
    }

    /// Byte `i` of the picture: the bar over the square over the box over
    /// the background.
    pub open spec fn render_byte(self, i: int) -> u8 {
        let x = px_x(i, self.w);
        let y = px_y(i, self.w);
        let k = i % 4;
        if self.bar_rect().contains(x, y) {
            channel(BAR_COLOR, k)
        } else if self.sq_rect().contains(x, y) {
            channel(SQ_COLOR, k)
        } else if self.box_rect().contains(x, y) {
            channel(BOX_COLOR, k)
        } else {
            self.bg[i]
        }
    }

    /// Canvas bytes.
    pub open spec fn len(self) -> int {
        self.w * self.h * 4
    }

    /// One animation step: each element moves by its velocity and bounces
    /// off the canvas edges; the bar sweeps right and wraps.
    #[verifier::opaque]
    pub open spec fn advanced(self) -> SceneView {
        let (bx, bdx) = bounce(self.box_x, self.box_dx, self.box_w, self.w);
        let (by, bdy) = bounce(self.box_y, self.box_dy, self.box_h, self.h);
        let (sx, sdx) = bounce(self.sq_x, self.sq_dx, self.sq_s, self.w);
        let (sy, sdy) = bounce(self.sq_y, self.sq_dy, self.sq_s, self.h);
        SceneView {
            box_x: bx,
            box_dx: bdx,
            box_y: by,
            box_dy: bdy,
            sq_x: sx,
            sq_dx: sdx,
            sq_y: sy,
            sq_dy: sdy,
            bar_x: (self.bar_x + 4) % max(self.w - self.bar_w, 1),
            ..self
        }
    }

    /// Every byte of the canvas shows the picture.
    pub open spec fn canvas_rendered(self) -> bool {
        forall|i: int| 0 <= i < self.len() ==> #[trigger] self.canvas[i] == self.render_byte(i)
    }

    /// The background holds the gradient.
    pub open spec fn bg_is_gradient(self) -> bool {
        forall|i: int|
            0 <= i < self.len() ==> #[trigger] self.bg[i] == gradient_byte(
                self.w,
                self.h,
                px_x(i, self.w),
                px_y(i, self.w),
                i % 4,
            )
    }

    /// The invariant of a test source: element sizes fixed by the canvas,
    /// positions on the canvas, unit velocities, background gradient, and,
    /// once a frame went out, a canvas showing the picture.
    pub open spec fn wf(self) -> bool {
        &&& self.geometry()
        &&& self.bg_is_gradient()
        &&& (self.frame_id > 0 ==> self.canvas_rendered())
    }

    /// Sizes, positions and velocities within their ranges.
    pub open spec fn geometry(self) -> bool {
        &&& 0 <= self.w <= 65535
        &&& 0 <= self.h <= 65535
        &&& self.len() <= isize::MAX
        &&& self.len() * 6 <= usize::MAX
        &&& self.bg.len() == self.len()
        &&& self.canvas.len() == self.len()
        &&& self.box_w == min(self.w, 128)
        &&& self.box_h == min(self.h, 96)
        &&& self.sq_s == min(32, min(self.w, self.h))
        &&& self.bar_w == 8
        &&& 0 <= self.box_x <= self.w
        &&& 0 <= self.box_y <= self.h
        &&& 0 <= self.sq_x <= self.w
        &&& 0 <= self.sq_y <= self.h
        &&& 0 <= self.bar_x < max(self.w - self.bar_w, 1)
        &&& (self.box_dx == 7 || self.box_dx == -7)
        &&& (self.box_dy == 5 || self.box_dy == -5)
        &&& (self.sq_dx == 5 || self.sq_dx == -5)
        &&& (self.sq_dy == 8 || self.sq_dy == -8)
        &&& self.tick == self.frame_id
    }
}

/// One axis of a bouncing element of size `size` on an axis of length
/// `extent`: move by `vel`; on touching or passing an edge, reverse and
/// clamp back onto the axis. The new position and velocity.
pub open spec fn bounce(pos: int, vel: int, size: int, extent: int) -> (int, int) {
    let p = pos + vel;
    if p <= 0 || p + size >= extent {
        (clamp(p, 0, extent - size), -vel)
    } else {
        (p, vel)
    }
}

pub open spec fn clamp(v: int, lo: int, hi: int) -> int {
    if v < lo {
        lo
    } else if v > hi {
        hi
    } else {
        v
    }
}

impl TestSource {
    /// The invariant every test source keeps: see `SceneView::wf`.
    pub open spec fn wf(&self) -> bool {
        self@.wf()
    }

    /// The id of the last frame produced (0 before the first).
    pub fn frame_id(&self) -> (n: u64)
        ensures
            n == self@.frame_id,
    {
        self.frame_id
    }

    /// The display size in pixels.
    pub fn size(&self) -> (r: (u16, u16))
        requires
            self.wf(),
        ensures
            r.0 == self@.w,
            r.1 == self@.h,
    {
        (self.w as u16, self.h as u16)
    }

    /// A `width × height` source at `fps` frames per second that resyncs
    /// with a full frame every `full_every_secs` seconds (never when 0).
    pub fn new(width: u16, height: u16, fps: u32, full_every_secs: u64) -> (s: TestSource)
        requires
            width * height * 4 <= isize::MAX,
            width * height * 24 <= usize::MAX,
        ensures
            s.wf(),
            s@.w == width,
            s@.h == height,
            s@.fps == fps,
            s@.full_every_secs == full_every_secs,
            s@.frame_id == 0,
            s@.canvas == s@.bg,
            s@.box_x == width / 3,
            s@.box_y == height / 3,
            s@.box_dx == 7,
            s@.box_dy == 5,
            s@.sq_x == width / 2,
            s@.sq_y == height / 2,
            s@.sq_dx == -5,
            s@.sq_dy == 8,
            s@.bar_x == 0,
    {
        let w = width as usize;
        let h = height as usize;
        let hd: usize = if h > 1 { h } else { 1 };
        let wd: usize = if w > 1 { w } else { 1 };
        let mut bg: Vec<u8> = Vec::new();
        let mut canvas: Vec<u8> = Vec::new();
        let ghost wi = w as int;
        let ghost hi = h as int;
        let mut y: usize = 0;
        while y < h
            invariant
                wi == w,
                hi == h,
                w <= 65535,
                h <= 65535,
                hd == max(hi, 1),
                wd == max(wi, 1),
                y <= h,
                bg@.len() == y * w * 4,
                canvas@ == bg@,
                forall|i: int|
                    0 <= i < bg@.len() ==> #[trigger] bg@[i] == gradient_byte(
                        wi,
                        hi,
                        px_x(i, wi),
                        px_y(i, wi),
                        i % 4,
                    ),
            decreases h - y,
        {
            assert(y * 255 / (hd as int) < 256) by (nonlinear_arith)
                requires
                    y < h,
                    hd == max(hi, 1),
                    hi == h,
            ;
            let b = (y * 255 / hd) as u8;
            let r = 255u8 - b;
            let mut x: usize = 0;
            while x < w
                invariant
                    wi == w,
                    hi == h,
                    w <= 65535,
                    h <= 65535,
                    hd == max(hi, 1),
                    wd == max(wi, 1),
                    y < h,
                    x <= w,
                    b == (y * 255 / (hd as int)) as u8,
                    r == 255 - b,
                    bg@.len() == (y * w + x) * 4,
                    canvas@ == bg@,
                    forall|i: int|
                        0 <= i < bg@.len() ==> #[trigger] bg@[i] == gradient_byte(
                            wi,
                            hi,
                            px_x(i, wi),
                            px_y(i, wi),
                            i % 4,
                        ),
                decreases w - x,
            {
                assert(x * 255 / (wd as int) < 256) by (nonlinear_arith)
                    requires
                        x < w,
                        wd == max(wi, 1),
                        wi == w,
                ;
                let g = (x * 255 / wd) as u8;
                let ghost base = bg@.len() as int;
                proof {
                    lemma_pixel_of(wi, x as int, y as int, 0);
                    lemma_pixel_of(wi, x as int, y as int, 1);
                    lemma_pixel_of(wi, x as int, y as int, 2);
                    lemma_pixel_of(wi, x as int, y as int, 3);
                    assert(base == offset(wi, x as int, y as int));
                }
                bg.push(b);
                bg.push(g);
                bg.push(r);
                bg.push(255);
                canvas.push(b);
                canvas.push(g);
                canvas.push(r);
                canvas.push(255);
                x = x + 1;
                assert(bg@.len() == (y * w + x) * 4) by (nonlinear_arith)
                    requires
                        bg@.len() == base + 4,
                        base == (y * w + (x - 1)) * 4,
                ;
            }
            y = y + 1;
            assert(bg@.len() == y * w * 4) by (nonlinear_arith)
                requires
                    bg@.len() == ((y - 1) * w + w) * 4,
            ;
        }
        assert(bg@.len() == wi * hi * 4) by (nonlinear_arith)
            requires
                bg@.len() == hi * wi * 4,
        ;
        let box_w = if w < 128 { w } else { 128 };
        let box_h = if h < 96 { h } else { 96 };
        let m = if w < h { w } else { h };
        let sq_s = if 32 < m { 32 } else { m };
        let s = TestSource {
            w,
            h,
            fps,
            full_every_secs,
            canvas,
            bg,
            frame_id: 0,
            tick: 0,
            box_x: w as i32 / 3,
            box_y: h as i32 / 3,
            box_dx: 7,
            box_dy: 5,
            box_w,
            box_h,
            sq_x: w as i32 / 2,
            sq_y: h as i32 / 2,
            sq_dx: -5,
            sq_dy: 8,
            sq_s,
            bar_x: 0,
            bar_w: 8,
        };
        assert(s@.bg_is_gradient());
        assert(s@.len() == wi * hi * 4);
        s
    }
}

/// Within a row, the bytes of rect `r` are exactly the bytes of the pixels
/// of that row between its left and right edge.
pub proof fn lemma_row_range(w: int, r: Rect, y: int, i: int)
    requires
        0 < w,
        r.x + r.w <= w,
        0 <= y,
        0 <= i,
    ensures
        (offset(w, r.x as int, y) <= i < offset(w, r.x as int, y) + 4 * r.w) <==> (px_y(i, w)
            == y && r.x <= px_x(i, w) < r.x + r.w),
{
    let s = offset(w, r.x as int, y);
    lemma_offset_of(i, w);
    let px = px_x(i, w);
    let py = px_y(i, w);
    let k = i % 4;
    if s <= i < s + 4 * r.w {
        let d = i - s;
        let q = d / 4;
        let kk = d % 4;
        assert(d == 4 * q + kk && 0 <= kk < 4 && 0 <= q) by (nonlinear_arith)
            requires
                d >= 0,
                q == d / 4,
                kk == d % 4,
        ;
        assert(q < r.w);
        assert(i == offset(w, r.x + q, y) + kk);
        lemma_pixel_of(w, r.x + q, y, kk);
    }
    if py == y && r.x <= px < r.x + r.w {
        assert(i == s + 4 * (px - r.x) + k);
    }
}

/// Whether byte `i` of a canvas `w` pixels wide belongs to a pixel of `r`.
pub open spec fn in_rect(r: Rect, w: int, i: int) -> bool {
    r.contains(px_x(i, w), px_y(i, w))
}

/// Copies the pixels of `r` from `src` into `dst`.
fn copy_rect(dst: &mut Vec<u8>, src: &Vec<u8>, w: usize, h: usize, r: Rect)
    requires
        old(dst)@.len() == src@.len() == w * h * 4,
        w * h * 4 <= isize::MAX,
        r.x + r.w <= w,
        r.y + r.h <= h,
    ensures
        final(dst)@.len() == old(dst)@.len(),
        forall|i: int|
            0 <= i < old(dst)@.len() ==> #[trigger] final(dst)@[i] == if in_rect(r, w as int, i) {
                src@[i]
            } else {
                old(dst)@[i]
            },
{
    if r.w == 0 || r.h == 0 {
        return;
    }
    let ghost d0 = dst@;
    let ghost wi = w as int;
    let mut y: usize = r.y as usize;
    let y_end = r.y as usize + r.h as usize;
    while y < y_end
        invariant
            wi == w,
            0 < w,
            0 < r.w,
            r.x + r.w <= w,
            y_end == r.y + r.h <= h,
            r.y <= y <= y_end,
            w * h * 4 <= isize::MAX,
            src@.len() == w * h * 4,
            dst@.len() == d0.len() == w * h * 4,
            forall|i: int|
                0 <= i < d0.len() ==> #[trigger] dst@[i] == if in_rect(r, wi, i) && px_y(i, wi)
                    < y {
                    src@[i]
                } else {
                    d0[i]
                },
        decreases y_end - y,
    {
        let mut x: usize = r.x as usize;
        let x_end = r.x as usize + r.w as usize;
        proof {
            lemma_offset_bound(wi, h as int, r.x as int, y as int);
        }
        let ghost s = offset(wi, r.x as int, y as int);
        while x < x_end
            invariant
                wi == w,
                0 < w,
                r.x + r.w <= w,
                y_end == r.y + r.h <= h,
                r.y <= y < y_end,
                x_end == r.x + r.w,
                r.x <= x <= x_end,
                s == offset(wi, r.x as int, y as int),
                w * h * 4 <= isize::MAX,
                src@.len() == w * h * 4,
                dst@.len() == d0.len() == w * h * 4,
                forall|i: int|
                    0 <= i < d0.len() ==> #[trigger] dst@[i] == if (in_rect(r, wi, i) && px_y(
                        i,
                        wi,
                    ) < y) || (s <= i < offset(wi, x as int, y as int)) {
                        src@[i]
                    } else {
                        d0[i]
                    },
            decreases x_end - x,
        {
            proof {
                lemma_offset_bound(wi, h as int, x as int, y as int);
            }
            let p = (y * w + x) * 4;
            let ghost before = dst@;
            dst.set(p, src[p]);
            dst.set(p + 1, src[p + 1]);
            dst.set(p + 2, src[p + 2]);
            dst.set(p + 3, src[p + 3]);
            proof {
                assert forall|i: int| 0 <= i < d0.len() implies #[trigger] dst@[i] == if (in_rect(
                    r,
                    wi,
                    i,
                ) && px_y(i, wi) < y) || (s <= i < offset(wi, x + 1, y as int)) {
                    src@[i]
                } else {
                    d0[i]
                } by {
                    if p <= i < p + 4 {
                        lemma_pixel_of(wi, x as int, y as int, i - p);
                    } else {
                        assert(dst@[i] == before[i]);
                    }
                }
            }
            x = x + 1;
        }
        proof {
            assert forall|i: int| 0 <= i < d0.len() implies #[trigger] dst@[i] == if in_rect(
                r,
                wi,
                i,
            ) && px_y(i, wi) < y + 1 {
                src@[i]
            } else {
                d0[i]
            } by {
                lemma_row_range(wi, r, y as int, i);
                lemma_offset_of(i, wi);
            }
        }
        y = y + 1;
    }
}

/// Paints the pixels of `r` in `color`.
fn fill_rect(dst: &mut Vec<u8>, w: usize, h: usize, r: Rect, color: [u8; 4])
    requires
        old(dst)@.len() == w * h * 4,
        w * h * 4 <= isize::MAX,
        r.x + r.w <= w,
        r.y + r.h <= h,
    ensures
        final(dst)@.len() == old(dst)@.len(),
        forall|i: int|
            0 <= i < old(dst)@.len() ==> #[trigger] final(dst)@[i] == if in_rect(r, w as int, i) {
                channel(color, i % 4)
            } else {
                old(dst)@[i]
            },
{
    if r.w == 0 || r.h == 0 {
        return;
    }
    let ghost d0 = dst@;
    let ghost wi = w as int;
    let mut y: usize = r.y as usize;
    let y_end = r.y as usize + r.h as usize;
    while y < y_end
        invariant
            wi == w,
            0 < w,
            0 < r.w,
            r.x + r.w <= w,
            y_end == r.y + r.h <= h,
            r.y <= y <= y_end,
            w * h * 4 <= isize::MAX,
            dst@.len() == d0.len() == w * h * 4,
            forall|i: int|
                0 <= i < d0.len() ==> #[trigger] dst@[i] == if in_rect(r, wi, i) && px_y(i, wi)
                    < y {
                    channel(color, i % 4)
                } else {
                    d0[i]
                },
        decreases y_end - y,
    {
        let mut x: usize = r.x as usize;
        let x_end = r.x as usize + r.w as usize;
        proof {
            lemma_offset_bound(wi, h as int, r.x as int, y as int);
        }
        let ghost s = offset(wi, r.x as int, y as int);
        while x < x_end
            invariant
                wi == w,
                0 < w,
                r.x + r.w <= w,
                y_end == r.y + r.h <= h,
                r.y <= y < y_end,
                x_end == r.x + r.w,
                r.x <= x <= x_end,
                s == offset(wi, r.x as int, y as int),
                w * h * 4 <= isize::MAX,
                dst@.len() == d0.len() == w * h * 4,
                forall|i: int|
                    0 <= i < d0.len() ==> #[trigger] dst@[i] == if (in_rect(r, wi, i) && px_y(
                        i,
                        wi,
                    ) < y) || (s <= i < offset(wi, x as int, y as int)) {
                        channel(color, i % 4)
                    } else {
                        d0[i]
                    },
            decreases x_end - x,
        {
            proof {
                lemma_offset_bound(wi, h as int, x as int, y as int);
            }
            let p = (y * w + x) * 4;
            let ghost before = dst@;
            dst.set(p, color[0]);
            dst.set(p + 1, color[1]);
            dst.set(p + 2, color[2]);
            dst.set(p + 3, color[3]);
            proof {
                assert forall|i: int| 0 <= i < d0.len() implies #[trigger] dst@[i] == if (in_rect(
                    r,
                    wi,
                    i,
                ) && px_y(i, wi) < y) || (s <= i < offset(wi, x + 1, y as int)) {
                    channel(color, i % 4)
                } else {
                    d0[i]
                } by {
                    if p <= i < p + 4 {
                        lemma_pixel_of(wi, x as int, y as int, i - p);
                    } else {
                        assert(dst@[i] == before[i]);
                    }
                }
            }
            x = x + 1;
        }
        proof {
            assert forall|i: int| 0 <= i < d0.len() implies #[trigger] dst@[i] == if in_rect(
                r,
                wi,
                i,
            ) && px_y(i, wi) < y + 1 {
                channel(color, i % 4)
            } else {
                d0[i]
            } by {
                lemma_row_range(wi, r, y as int, i);
                lemma_offset_of(i, wi);
            }
        }
        y = y + 1;
    }
}

/// Byte `i` lies in some rect of `rs`.
pub open spec fn covered(rs: Seq<Rect>, w: int, i: int) -> bool {
    exists|k: int| 0 <= k < rs.len() && #[trigger] in_rect(rs[k], w, i)
}

/// Appends `r` unless it is empty or already present.
pub open spec fn push_new(v: Seq<Rect>, r: Rect) -> Seq<Rect> {
    if r.w > 0 && r.h > 0 && !v.contains(r) {
        v.push(r)
    } else {
        v
    }
}

/// The non-empty rects among the first `n` of `rs`, first occurrences only,
/// in order.
pub open spec fn collect(rs: Seq<Rect>, n: int) -> Seq<Rect>
    decreases n,
{
    if n <= 0 {
        Seq::empty()
    } else {
        push_new(collect(rs, n - 1), rs[n - 1])
    }
}

impl SceneView {
    /// The frame about to be produced is a full frame: the first frame, and
    /// then every `fps * full_every_secs` ticks (when that is nonzero).
    pub open spec fn next_is_full(self) -> bool {
        self.frame_id + 1 == 1 || (self.full_every_secs > 0 && (self.tick + 1) % (max(
            self.fps as int,
            1,
        ) * self.full_every_secs) == 0)
    }

    /// The damage of the next frame: the whole display for a full frame,
    /// else the old and new places of the box, the square and the bar.
    pub open spec fn next_damage(self) -> Seq<Rect> {
        let a = self.advanced();
        if self.next_is_full() {
            seq![full_rect(self.w, self.h)]
        } else {
            collect(
                seq![
                    self.box_rect(),
                    self.sq_rect(),
                    self.bar_rect(),
                    a.box_rect(),
                    a.sq_rect(),
                    a.bar_rect(),
                ],
                6,
            )
        }
    }

    /// The scene after producing a frame, its canvas aside.
    pub open spec fn stepped(self, canvas: Seq<u8>) -> SceneView {
        SceneView {
            canvas,
            frame_id: (self.frame_id + 1) as u64,
            tick: (self.tick + 1) as u64,
            ..self.advanced()
        }
    }
}

/// The rects collected from `rs` are rects of `rs`, and every non-empty
/// rect of `rs` is among them.
proof fn lemma_collect(rs: Seq<Rect>, n: int)
    requires
        0 <= n <= rs.len(),
    ensures
        collect(rs, n).len() <= n,
        forall|k: int|
            0 <= k < collect(rs, n).len() ==> exists|j: int|
                0 <= j < n && #[trigger] rs[j] == #[trigger] collect(rs, n)[k],
        forall|j: int|
            0 <= j < n && rs[j].w > 0 && rs[j].h > 0 ==> collect(rs, n).contains(#[trigger] rs[j]),
    decreases n,
{
    if n > 0 {
        lemma_collect(rs, n - 1);
        let v = collect(rs, n - 1);
        let r = rs[n - 1];
        if r.w > 0 && r.h > 0 && !v.contains(r) {
            assert(collect(rs, n) == v.push(r));
            assert forall|k: int| 0 <= k < collect(rs, n).len() implies exists|j: int|
                0 <= j < n && #[trigger] rs[j] == #[trigger] collect(rs, n)[k] by {
                if k < v.len() {
                    let j = choose|j: int| 0 <= j < n - 1 && #[trigger] rs[j] == #[trigger] v[k];
                    assert(rs[j] == collect(rs, n)[k]);
                } else {
                    assert(rs[n - 1] == collect(rs, n)[k]);
                }
            }
            assert forall|j: int| 0 <= j < n && rs[j].w > 0 && rs[j].h > 0 implies collect(
                rs,
                n,
            ).contains(#[trigger] rs[j]) by {
                if j < n - 1 {
                    let k = choose|k: int| 0 <= k < v.len() && v[k] == rs[j];
                    assert(collect(rs, n)[k] == rs[j]);
                } else {
                    assert(collect(rs, n)[v.len() as int] == rs[j]);
                }
            }
        }
    }
}

/// Covering by a prefix one longer.
proof fn lemma_covered_step(rs: Seq<Rect>, j: int, w: int, i: int)
    requires
        0 <= j < rs.len(),
    ensures
        covered(rs.take(j + 1), w, i) <==> covered(rs.take(j), w, i) || in_rect(rs[j], w, i),
{
    if covered(rs.take(j + 1), w, i) {
        let k = choose|k: int| 0 <= k < j + 1 && #[trigger] in_rect(rs.take(j + 1)[k], w, i);
        if k < j {
            assert(rs.take(j)[k] == rs.take(j + 1)[k]);
        }
    }
    if covered(rs.take(j), w, i) {
        let k = choose|k: int| 0 <= k < j && #[trigger] in_rect(rs.take(j)[k], w, i);
        assert(rs.take(j + 1)[k] == rs.take(j)[k]);
    }
    if in_rect(rs[j], w, i) {
        assert(rs.take(j + 1)[j] == rs[j]);
    }
}

impl TestSource {
    /// The part of a `w × h` rect at `(x, y)` that lies on the canvas.
    fn clip(&self, x: i32, y: i32, w: usize, h: usize) -> (r: Rect)
        requires
            self.w <= 65535,
            self.h <= 65535,
            -65536 <= x <= 65536,
            -65536 <= y <= 65536,
            w <= 65535,
            h <= 65535,
        ensures
            r == spec_clip(self.w as int, self.h as int, x as int, y as int, w as int, h as int),
            r.x + r.w <= self.w,
            r.y + r.h <= self.h,
    {
        let x0 = if x > 0 { x } else { 0 };
        let y0 = if y > 0 { y } else { 0 };
        let xe = x + w as i32;
        let ye = y + h as i32;
        let cw = self.w as i32;
        let ch = self.h as i32;
        let x1 = if xe < cw { xe } else { cw };
        let y1 = if ye < ch { ye } else { ch };
        if x1 <= x0 || y1 <= y0 {
            Rect::new(0, 0, 0, 0)
        } else {
            Rect::new(x0 as u16, y0 as u16, (x1 - x0) as u16, (y1 - y0) as u16)
        }
    }

    /// One animation step.
    fn advance(&mut self)
        requires
            old(self)@.geometry(),
        ensures
            final(self)@ == old(self)@.advanced(),
    {
        reveal(SceneView::advanced);
        let w = self.w as i32;
        let h = self.h as i32;
        let (bx, bdx) = bounce_axis(self.box_x, self.box_dx, self.box_w as i32, w);
        let (by, bdy) = bounce_axis(self.box_y, self.box_dy, self.box_h as i32, h);
        let (sx, sdx) = bounce_axis(self.sq_x, self.sq_dx, self.sq_s as i32, w);
        let (sy, sdy) = bounce_axis(self.sq_y, self.sq_dy, self.sq_s as i32, h);
        self.box_x = bx;
        self.box_dx = bdx;
        self.box_y = by;
        self.box_dy = bdy;
        self.sq_x = sx;
        self.sq_dx = sdx;
        self.sq_y = sy;
        self.sq_dy = sdy;
        let d = w - self.bar_w as i32;
        let span = if d > 1 { d } else { 1 };
        self.bar_x = (self.bar_x + 4) % span;
    }
}

/// Moves one axis of a bouncing element.
fn bounce_axis(pos: i32, vel: i32, size: i32, extent: i32) -> (r: (i32, i32))
    requires
        0 <= size <= extent <= 65535,
        0 <= pos <= extent,
        -8 <= vel <= 8,
    ensures
        (r.0 as int, r.1 as int) == bounce(pos as int, vel as int, size as int, extent as int),
{
    let p = pos + vel;
    if p <= 0 || p + size >= extent {
        let hi = extent - size;
        let c = if p < 0 {
            0
        } else if p > hi {
            hi
        } else {
            p
        };
        (c, -vel)
    } else {
        (p, vel)
    }
}

/// A step keeps sizes, positions and velocities within range, and leaves
/// the canvas, the background, the sizes and the counters alone.
proof fn lemma_advanced_geometry(v: SceneView)
    requires
        v.geometry(),
    ensures
        v.advanced().stepped_ok(v),
        v.advanced() == (SceneView {
            box_x: v.advanced().box_x,
            box_dx: v.advanced().box_dx,
            box_y: v.advanced().box_y,
            box_dy: v.advanced().box_dy,
            sq_x: v.advanced().sq_x,
            sq_dx: v.advanced().sq_dx,
            sq_y: v.advanced().sq_y,
            sq_dy: v.advanced().sq_dy,
            bar_x: v.advanced().bar_x,
            ..v
        }),
{
    reveal(SceneView::advanced);
}

impl SceneView {
    /// `self` is `v` advanced, with sizes and ranges kept.
    pub open spec fn stepped_ok(self, v: SceneView) -> bool {
        &&& 0 <= self.box_x <= self.w
        &&& 0 <= self.box_y <= self.h
        &&& 0 <= self.sq_x <= self.w
        &&& 0 <= self.sq_y <= self.h
        &&& 0 <= self.bar_x < max(self.w - self.bar_w, 1)
        &&& (self.box_dx == 7 || self.box_dx == -7)
        &&& (self.box_dy == 5 || self.box_dy == -5)
        &&& (self.sq_dx == 5 || self.sq_dx == -5)
        &&& (self.sq_dy == 8 || self.sq_dy == -8)
    }
}

/// The picture inside damage rect `r`: the bar over the square over the box
/// over what the canvas held.
pub open spec fn painted(c: Seq<u8>, w: int, r: Rect, bx: Rect, sq: Rect, bar: Rect, i: int) -> u8 {
    if in_rect(r, w, i) {
        if in_rect(bar, w, i) {
            channel(BAR_COLOR, i % 4)
        } else if in_rect(sq, w, i) {
            channel(SQ_COLOR, i % 4)
        } else if in_rect(bx, w, i) {
            channel(BOX_COLOR, i % 4)
        } else {
            c[i]
        }
    } else {
        c[i]
    }
}

/// Draws, inside damage rect `r`, the box, then the square, then the bar.
fn paint_elements(c: &mut Vec<u8>, w: usize, h: usize, r: Rect, bx: Rect, sq: Rect, bar: Rect)
    requires
        old(c)@.len() == w * h * 4,
        w * h * 4 <= isize::MAX,
        r.x + r.w <= w,
        r.y + r.h <= h,
        bx.x + bx.w <= w,
        bx.y + bx.h <= h,
        sq.x + sq.w <= w,
        sq.y + sq.h <= h,
        bar.x + bar.w <= w,
        bar.y + bar.h <= h,
        w <= 65535,
        h <= 65535,
    ensures
        final(c)@.len() == old(c)@.len(),
        forall|i: int|
            0 <= i < old(c)@.len() ==> #[trigger] final(c)@[i] == painted(
                old(c)@,
                w as int,
                r,
                bx,
                sq,
                bar,
                i,
            ),
{
    let ghost c0 = c@;
    let ghost wi = w as int;
    if let Some(ir) = r.intersect(&bx) {
        fill_rect(c, w, h, ir, BOX_COLOR);
    }
    let ghost c1 = c@;
    assert forall|i: int| 0 <= i < c0.len() implies #[trigger] c1[i] == if in_rect(r, wi, i)
        && in_rect(bx, wi, i) {
        channel(BOX_COLOR, i % 4)
    } else {
        c0[i]
    } by {
        let x = px_x(i, wi);
        let y = px_y(i, wi);
        assert(r.contains(x, y) && bx.contains(x, y) ==> r.spec_intersect(bx) is Some);
    }
    if let Some(ir) = r.intersect(&sq) {
        fill_rect(c, w, h, ir, SQ_COLOR);
    }
    let ghost c2 = c@;
    assert forall|i: int| 0 <= i < c0.len() implies #[trigger] c2[i] == if in_rect(r, wi, i)
        && in_rect(sq, wi, i) {
        channel(SQ_COLOR, i % 4)
    } else {
        c1[i]
    } by {
        let x = px_x(i, wi);
        let y = px_y(i, wi);
        assert(r.contains(x, y) && sq.contains(x, y) ==> r.spec_intersect(sq) is Some);
    }
    if let Some(ir) = r.intersect(&bar) {
        fill_rect(c, w, h, ir, BAR_COLOR);
    }
    assert forall|i: int| 0 <= i < c0.len() implies #[trigger] c@[i] == if in_rect(r, wi, i)
        && in_rect(bar, wi, i) {
        channel(BAR_COLOR, i % 4)
    } else {
        c2[i]
    } by {
        let x = px_x(i, wi);
        let y = px_y(i, wi);
        assert(r.contains(x, y) && bar.contains(x, y) ==> r.spec_intersect(bar) is Some);
    }
}

/// Whether `v` holds `r`.
fn holds_rect(v: &Vec<Rect>, r: Rect) -> (b: bool)
    ensures
        b == v@.contains(r),
{
    let mut i: usize = 0;
    while i < v.len()
        invariant
            i <= v@.len(),
            forall|j: int| 0 <= j < i ==> v@[j] != r,
        decreases v@.len() - i,
    {
        if v[i] == r {
            assert(v@[i as int] == r);
            return true;
        }
        i = i + 1;
    }
    false
}

/// Appends `r` unless it is empty or already present.
fn push_new_rect(v: &mut Vec<Rect>, r: Rect)
    ensures
        final(v)@ == push_new(old(v)@, r),
{
    if r.w > 0 && r.h > 0 && !holds_rect(v, r) {
        v.push(r);
    }
}

/// A list of at most `n` rects, each of at most `bound` bytes, holds at
/// most `n * bound` bytes.
proof fn lemma_rects_byte_len_at_most(rs: Seq<Rect>, bound: int)
    requires
        forall|k: int| 0 <= k < rs.len() ==> (#[trigger] rs[k]).spec_byte_len() <= bound,
    ensures
        rects_byte_len(rs) <= rs.len() * bound,
    decreases rs.len(),
{
    if rs.len() > 0 {
        let init = rs.drop_last();
        assert forall|k: int| 0 <= k < init.len() implies (#[trigger] init[k]).spec_byte_len()
            <= bound by {
            assert(init[k] == rs[k]);
        }
        lemma_rects_byte_len_at_most(init, bound);
        assert(rs.last() == rs[rs.len() - 1]);
        assert((rs.len() - 1) * bound + bound == rs.len() * bound) by (nonlinear_arith);
    }
}

/// The elements drawn over byte `i`: the bar over the square over the box
/// over what `c` holds.
pub open spec fn over(c: Seq<u8>, w: int, bx: Rect, sq: Rect, bar: Rect, i: int) -> u8 {
    if in_rect(bar, w, i) {
        channel(BAR_COLOR, i % 4)
    } else if in_rect(sq, w, i) {
        channel(SQ_COLOR, i % 4)
    } else if in_rect(bx, w, i) {
        channel(BOX_COLOR, i % 4)
    } else {
        c[i]
    }
}

/// Every rect of the list lies on the `w × h` canvas.
pub open spec fn all_on_canvas(rs: Seq<Rect>, w: int, h: int) -> bool {
    forall|k: int| 0 <= k < rs.len() ==> #[trigger] rs[k].x + rs[k].w <= w && rs[k].y + rs[k].h <= h
}

/// Restores every damage rect to the background.
fn erase_all(c: &mut Vec<u8>, bg: &Vec<u8>, w: usize, h: usize, rects: &Vec<Rect>)
    requires
        old(c)@.len() == bg@.len() == w * h * 4,
        w * h * 4 <= isize::MAX,
        all_on_canvas(rects@, w as int, h as int),
    ensures
        final(c)@.len() == old(c)@.len(),
        forall|i: int|
            0 <= i < old(c)@.len() ==> #[trigger] final(c)@[i] == if covered(rects@, w as int, i) {
                bg@[i]
            } else {
                old(c)@[i]
            },
{
    let ghost c0 = c@;
    let ghost wi = w as int;
    let mut j: usize = 0;
    while j < rects.len()
        invariant
            wi == w,
            c@.len() == c0.len() == bg@.len() == w * h * 4,
            w * h * 4 <= isize::MAX,
            all_on_canvas(rects@, wi, h as int),
            j <= rects@.len(),
            forall|i: int|
                0 <= i < c0.len() ==> #[trigger] c@[i] == if covered(rects@.take(j as int), wi, i) {
                    bg@[i]
                } else {
                    c0[i]
                },
        decreases rects@.len() - j,
    {
        let r = rects[j];
        assert(r.x + r.w <= wi && r.y + r.h <= h);
        copy_rect(c, bg, w, h, r);
        proof {
            assert forall|i: int| 0 <= i < c0.len() implies #[trigger] c@[i] == if covered(
                rects@.take(j + 1),
                wi,
                i,
            ) {
                bg@[i]
            } else {
                c0[i]
            } by {
                lemma_covered_step(rects@, j as int, wi, i);
            }
        }
        j = j + 1;
    }
    assert(rects@.take(rects@.len() as int) =~= rects@);
}

/// Draws the elements inside every damage rect.
fn paint_all(
    c: &mut Vec<u8>,
    w: usize,
    h: usize,
    rects: &Vec<Rect>,
    bx: Rect,
    sq: Rect,
    bar: Rect,
)
    requires
        old(c)@.len() == w * h * 4,
        w * h * 4 <= isize::MAX,
        w <= 65535,
        h <= 65535,
        all_on_canvas(rects@, w as int, h as int),
        all_on_canvas(seq![bx, sq, bar], w as int, h as int),
    ensures
        final(c)@.len() == old(c)@.len(),
        forall|i: int|
            0 <= i < old(c)@.len() ==> #[trigger] final(c)@[i] == if covered(rects@, w as int, i) {
                over(old(c)@, w as int, bx, sq, bar, i)
            } else {
                old(c)@[i]
            },
{
    let ghost c0 = c@;
    let ghost wi = w as int;
    let ghost els = seq![bx, sq, bar];
    assert(els[0] == bx && els[1] == sq && els[2] == bar);
    assert(els[0].x + els[0].w <= w && els[0].y + els[0].h <= h);
    assert(els[1].x + els[1].w <= w && els[1].y + els[1].h <= h);
    assert(els[2].x + els[2].w <= w && els[2].y + els[2].h <= h);
    let mut j: usize = 0;
    while j < rects.len()
        invariant
            wi == w,
            c@.len() == c0.len() == w * h * 4,
            w * h * 4 <= isize::MAX,
            w <= 65535,
            h <= 65535,
            all_on_canvas(rects@, wi, h as int),
            bx.x + bx.w <= w && bx.y + bx.h <= h,
            sq.x + sq.w <= w && sq.y + sq.h <= h,
            bar.x + bar.w <= w && bar.y + bar.h <= h,
            j <= rects@.len(),
            forall|i: int|
                0 <= i < c0.len() ==> #[trigger] c@[i] == if covered(rects@.take(j as int), wi, i) {
                    over(c0, wi, bx, sq, bar, i)
                } else {
                    c0[i]
                },
        decreases rects@.len() - j,
    {
        let r = rects[j];
        assert(r.x + r.w <= wi && r.y + r.h <= h);
        let ghost before = c@;
        paint_elements(c, w, h, r, bx, sq, bar);
        proof {
            assert forall|i: int| 0 <= i < c0.len() implies #[trigger] c@[i] == if covered(
                rects@.take(j + 1),
                wi,
                i,
            ) {
                over(c0, wi, bx, sq, bar, i)
            } else {
                c0[i]
            } by {
                lemma_covered_step(rects@, j as int, wi, i);
            }
        }
        j = j + 1;
    }
    assert(rects@.take(rects@.len() as int) =~= rects@);
}

/// The damage rects of the next frame, with where they lie.
fn damage_rects(full: bool, w: usize, h: usize, six: [Rect; 6]) -> (rects: Vec<Rect>)
    requires
        w <= 65535,
        h <= 65535,
        forall|k: int| 0 <= k < 6 ==> #[trigger] six@[k].x + six@[k].w <= w && six@[k].y + six@[k].h <= h,
    ensures
        rects@ == if full {
            seq![full_rect(w as int, h as int)]
        } else {
            collect(six@, 6)
        },
        all_on_canvas(rects@, w as int, h as int),
        rects@.len() <= 6,
        !full ==> forall|k: int|
            0 <= k < 6 && six@[k].w > 0 && six@[k].h > 0 ==> rects@.contains(#[trigger] six@[k]),
{
    let mut rects: Vec<Rect> = Vec::new();
    if full {
        rects.push(Rect::new(0, 0, w as u16, h as u16));
    } else {
        push_new_rect(&mut rects, six[0]);
        push_new_rect(&mut rects, six[1]);
        push_new_rect(&mut rects, six[2]);
        push_new_rect(&mut rects, six[3]);
        push_new_rect(&mut rects, six[4]);
        push_new_rect(&mut rects, six[5]);
        proof {
            reveal_with_fuel(collect, 7);
            lemma_collect(six@, 6);
            assert forall|k: int| 0 <= k < rects@.len() implies #[trigger] rects@[k].x
                + rects@[k].w <= w && rects@[k].y + rects@[k].h <= h by {
                let j = choose|j: int| 0 <= j < 6 && #[trigger] six@[j] == #[trigger] collect(
                    six@,
                    6,
                )[k];
                assert(six@[j].x + six@[j].w <= w && six@[j].y + six@[j].h <= h);
            }
        }
    }
    rects
}

impl SceneView {
    /// The old and new places of the box, the square and the bar.
    pub open spec fn six_rects(self) -> Seq<Rect> {
        let a = self.advanced();
        seq![self.box_rect(), self.sq_rect(), self.bar_rect(), a.box_rect(), a.sq_rect(), a.bar_rect()]
    }
}

impl TestSource {
    /// Whether the next frame is a full one.
    fn next_full(&self) -> (b: bool)
        requires
            self@.geometry(),
            self@.frame_id < u64::MAX,
            self@.full_every_secs > 0 ==> max(self@.fps as int, 1) * self@.full_every_secs
                <= u64::MAX,
        ensures
            b == self@.next_is_full(),
    {
        let fps1: u64 = if self.fps > 1 { self.fps as u64 } else { 1 };
        self.frame_id == 0 || (self.full_every_secs > 0 && {
            let period = fps1 * self.full_every_secs;
            assert(period > 0) by (nonlinear_arith)
                requires
                    fps1 >= 1,
                    self.full_every_secs > 0,
                    period == fps1 * self.full_every_secs,
            ;
            (self.tick + 1) % period == 0
        })
    }

    /// Advances the scene one frame and works out that frame's damage;
    /// the canvas is left as it was. Also hands back the new places of the
    /// box, the square and the bar, and whether the frame is a full one.
    /// Moves the scene one frame on, the canvas aside; the places of the
    /// box, the square and the bar before and after the move.
    fn move_scene(&mut self) -> (r: ([Rect; 3], [Rect; 3]))
        requires
            old(self).wf(),
            old(self)@.frame_id < u64::MAX,
        ensures
            final(self)@ == old(self)@.stepped(old(self)@.canvas),
            final(self)@.geometry(),
            r.0@ == seq![old(self)@.box_rect(), old(self)@.sq_rect(), old(self)@.bar_rect()],
            r.1@ == seq![final(self)@.box_rect(), final(self)@.sq_rect(), final(self)@.bar_rect()],
            all_on_canvas(r.0@, old(self)@.w, old(self)@.h),
            all_on_canvas(r.1@, old(self)@.w, old(self)@.h),
    {
        let ghost v0 = self@;
        let old_box = self.clip(self.box_x, self.box_y, self.box_w, self.box_h);
        let old_sq = self.clip(self.sq_x, self.sq_y, self.sq_s, self.sq_s);
        let old_bar = self.clip(self.bar_x, 0, self.bar_w, self.h);
        self.frame_id = self.frame_id + 1;
        self.tick = self.tick + 1;
        proof {
            lemma_advanced_geometry(self@);
        }
        self.advance();
        let new_box = self.clip(self.box_x, self.box_y, self.box_w, self.box_h);
        let new_sq = self.clip(self.sq_x, self.sq_y, self.sq_s, self.sq_s);
        let new_bar = self.clip(self.bar_x, 0, self.bar_w, self.h);
        let olds = [old_box, old_sq, old_bar];
        let news = [new_box, new_sq, new_bar];
        assert(olds@[0] == old_box && olds@[1] == old_sq && olds@[2] == old_bar);
        assert(news@[0] == new_box && news@[1] == new_sq && news@[2] == new_bar);
        assert(self@ == v0.stepped(v0.canvas)) by {
            reveal(SceneView::advanced);
        }
        assert(olds@ =~= seq![v0.box_rect(), v0.sq_rect(), v0.bar_rect()]);
        assert(news@ =~= seq![self@.box_rect(), self@.sq_rect(), self@.bar_rect()]);
        (olds, news)
    }

    /// Advances the scene one frame and works out that frame's damage;
    /// the canvas is left as it was. Also hands back the new places of the
    /// box, the square and the bar, and whether the frame is a full one.
    fn step_scene(&mut self) -> (r: (Vec<Rect>, Rect, Rect, Rect, bool))
        requires
            old(self).wf(),
            old(self)@.frame_id < u64::MAX,
            old(self)@.full_every_secs > 0 ==> max(old(self)@.fps as int, 1)
                * old(self)@.full_every_secs <= u64::MAX,
        ensures
            final(self)@ == old(self)@.stepped(old(self)@.canvas),
            final(self)@.geometry(),
            r.0@ == old(self)@.next_damage(),
            r.1 == final(self)@.box_rect(),
            r.2 == final(self)@.sq_rect(),
            r.3 == final(self)@.bar_rect(),
            r.4 == old(self)@.next_is_full(),
            all_on_canvas(r.0@, old(self)@.w, old(self)@.h),
            r.0@.len() <= 6,
            !r.4 ==> forall|k: int|
                0 <= k < 6 && old(self)@.six_rects()[k].w > 0 && old(self)@.six_rects()[k].h > 0
                    ==> r.0@.contains(#[trigger] old(self)@.six_rects()[k]),
    {
        let ghost v0 = self@;
        let full = self.next_full();
        let (olds, news) = self.move_scene();
        let six = [olds[0], olds[1], olds[2], news[0], news[1], news[2]];
        proof {
            lemma_advanced_geometry(v0);
            assert(six@ =~= v0.six_rects());
            assert forall|k: int| 0 <= k < 6 implies #[trigger] six@[k].x + six@[k].w <= v0.w
                && six@[k].y + six@[k].h <= v0.h by {
                if k < 3 {
                    assert(olds@[k].x + olds@[k].w <= v0.w && olds@[k].y + olds@[k].h <= v0.h);
                } else {
                    assert(news@[k - 3].x + news@[k - 3].w <= v0.w && news@[k - 3].y + news@[k - 3].h <= v0.h);
                }
            }
        }
        let rects = damage_rects(full, self.w, self.h, six);
        (rects, news[0], news[1], news[2], full)
    }

    /// Produces the next frame stamped `timestamp_ns`: its damage is the
    /// whole display on the first frame and on every periodic resync, else
    /// the old and new places of the moving elements; the canvas is
    /// redrawn inside the damage and the payload packs the damaged rows.
    pub fn next_frame(&mut self, timestamp_ns: u64) -> (f: Frame)
        requires
            old(self).wf(),
            old(self)@.frame_id < u64::MAX,
            old(self)@.full_every_secs > 0 ==> max(old(self)@.fps as int, 1)
                * old(self)@.full_every_secs <= u64::MAX,
        ensures
            final(self).wf(),
            final(self)@ == old(self)@.stepped(final(self)@.canvas),
            f@.payload.len() == rects_byte_len(f@.rects),
            f@ == (FrameView {
                frame_id: final(self)@.frame_id,
                timestamp_ns,
                codec: codec::RAW,
                pixel_format: pixel_format::BGRX,
                rects: old(self)@.next_damage(),
                payload: spec_pack(final(self)@.canvas, old(self)@.w, old(self)@.next_damage()),
            }),
            forall|i: int|
                0 <= i < old(self)@.len() && !covered(old(self)@.next_damage(), old(self)@.w, i)
                    ==> #[trigger] final(self)@.canvas[i] == old(self)@.canvas[i],
    {
        let ghost v0 = self@;
        let (rects, new_box, new_sq, new_bar, full) = self.step_scene();
        let ghost sn = self@;
        proof {
            lemma_advanced_geometry(v0);
        }
        erase_all(&mut self.canvas, &self.bg, self.w, self.h, &rects);
        let ghost c1 = self.canvas@;
        paint_all(&mut self.canvas, self.w, self.h, &rects, new_box, new_sq, new_bar);
        proof {
            lemma_next_frame_rendered(v0, sn, self@, c1, rects@, full, v0.six_rects());
        }
        let payload = pack_rects(self.canvas.as_slice(), self.w, rects.as_slice());
        Frame {
            frame_id: self.frame_id,
            timestamp_ns,
            codec: codec::RAW,
            pixel_format: pixel_format::BGRX,
            rects,
            payload,
        }
    }
}

/// After erasing and redrawing the damage, the canvas shows the advanced
/// scene everywhere, and the damage can be packed.
proof fn lemma_next_frame_rendered(
    v0: SceneView,
    sn: SceneView,
    s2: SceneView,
    c1: Seq<u8>,
    rects: Seq<Rect>,
    full: bool,
    six: Seq<Rect>,
)
    requires
        v0.wf(),
        sn == v0.stepped(v0.canvas),
        s2 == (SceneView { canvas: s2.canvas, ..sn }),
        sn.geometry(),
        full == v0.next_is_full(),
        rects == v0.next_damage(),
        six == seq![
            v0.box_rect(),
            v0.sq_rect(),
            v0.bar_rect(),
            sn.box_rect(),
            sn.sq_rect(),
            sn.bar_rect(),
        ],
        all_on_canvas(rects, sn.w, sn.h),
        rects.len() <= 6,
        !full ==> forall|k: int|
            0 <= k < 6 && six[k].w > 0 && six[k].h > 0 ==> rects.contains(#[trigger] six[k]),
        c1.len() == sn.len(),
        s2.canvas.len() == sn.len(),
        forall|i: int|
            0 <= i < sn.len() ==> #[trigger] c1[i] == if covered(rects, sn.w, i) {
                sn.bg[i]
            } else {
                v0.canvas[i]
            },
        forall|i: int|
            0 <= i < sn.len() ==> #[trigger] s2.canvas[i] == if covered(rects, sn.w, i) {
                over(c1, sn.w, sn.box_rect(), sn.sq_rect(), sn.bar_rect(), i)
            } else {
                c1[i]
            },
    ensures
        s2.wf(),
        forall|k: int| 0 <= k < rects.len() ==> rect_fits(#[trigger] rects[k], sn.w, sn.len()),
        rects_byte_len(rects) <= usize::MAX,
{
    lemma_advanced_geometry(v0);
    let wi = sn.w;
    let len = sn.len();
    assert forall|i: int| 0 <= i < len implies #[trigger] s2.canvas[i] == s2.render_byte(i) by {
        if covered(rects, wi, i) {
            assert(c1[i] == sn.bg[i]);
        } else {
            if full {
                lemma_offset_of(i, wi);
                lemma_px_y_bound(i, wi, sn.h);
                assert(in_rect(rects[0], wi, i));
            } else {
                assert forall|k: int| 0 <= k < 6 implies !in_rect(#[trigger] six[k], wi, i) by {
                    if in_rect(six[k], wi, i) {
                        assert(rects.contains(six[k]));
                        let m = choose|m: int| 0 <= m < rects.len() && rects[m] == six[k];
                        assert(in_rect(rects[m], wi, i));
                    }
                }
                assert(!in_rect(six[0], wi, i));
                assert(!in_rect(six[1], wi, i));
                assert(!in_rect(six[2], wi, i));
                assert(!in_rect(six[3], wi, i));
                assert(!in_rect(six[4], wi, i));
                assert(!in_rect(six[5], wi, i));
                assert(v0.frame_id > 0);
                assert(v0.canvas[i] == v0.render_byte(i));
            }
        }
    }
    assert forall|k: int| 0 <= k < rects.len() implies rect_fits(#[trigger] rects[k], wi, len)
        && rects[k].spec_byte_len() <= len by {
        lemma_fits_in_canvas(rects[k], wi, sn.h);
    }
    lemma_rects_byte_len_at_most(rects, len);
    assert(rects.len() * len <= 6 * len) by (nonlinear_arith)
        requires
            rects.len() <= 6,
            len >= 0,
    ;
}

/// The visible part of a rect lies on the canvas.
proof fn lemma_clip_on_canvas(cw: int, ch: int, x: int, y: int, w: int, h: int)
    requires
        0 <= cw <= 65535,
        0 <= ch <= 65535,
    ensures
        spec_clip(cw, ch, x, y, w, h).x + spec_clip(cw, ch, x, y, w, h).w <= cw,
        spec_clip(cw, ch, x, y, w, h).y + spec_clip(cw, ch, x, y, w, h).h <= ch,
{
}

/// The damage of the next frame: at most six rects, all on the canvas.
proof fn lemma_damage_on_canvas(v: SceneView)
    requires
        v.geometry(),
    ensures
        all_on_canvas(v.next_damage(), v.w, v.h),
        v.next_damage().len() <= 6,
{
    lemma_advanced_geometry(v);
    let a = v.advanced();
    let six = v.six_rects();
    let rs = v.next_damage();
    if !v.next_is_full() {
        lemma_collect(six, 6);
        lemma_clip_on_canvas(v.w, v.h, v.box_x, v.box_y, v.box_w, v.box_h);
        lemma_clip_on_canvas(v.w, v.h, v.sq_x, v.sq_y, v.sq_s, v.sq_s);
        lemma_clip_on_canvas(v.w, v.h, v.bar_x, 0, v.bar_w, v.h);
        lemma_clip_on_canvas(a.w, a.h, a.box_x, a.box_y, a.box_w, a.box_h);
        lemma_clip_on_canvas(a.w, a.h, a.sq_x, a.sq_y, a.sq_s, a.sq_s);
        lemma_clip_on_canvas(a.w, a.h, a.bar_x, 0, a.bar_w, a.h);
        assert(rs == collect(six, 6));
        assert forall|k: int| 0 <= k < rs.len() implies #[trigger] rs[k].x + rs[k].w <= v.w
            && rs[k].y + rs[k].h <= v.h by {
            let j = choose|j: int| 0 <= j < 6 && #[trigger] six[j] == #[trigger] collect(six, 6)[k];
            assert(six[j].x + six[j].w <= v.w && six[j].y + six[j].h <= v.h);
        }
    }
}

/// Every frame a test source produces is a well-formed FRAME message: at
/// most six damage rects, a registered codec and pixel format, and a RAW
/// payload of exactly the rects' packed bytes; so it decodes back to
/// itself.
pub proof fn lemma_frames_well_formed(v: SceneView, canvas: Seq<u8>, f: FrameView)
    requires
        v.geometry(),
        canvas.len() == v.len(),
        f.codec == codec::RAW,
        f.pixel_format == pixel_format::BGRX,
        f.rects == v.next_damage(),
        f.payload == spec_pack(canvas, v.w, v.next_damage()),
    ensures
        crate::laws::well_formed(crate::message::MessageView::Frame(f)),
        f.rects.len() <= 6,
{
    lemma_damage_on_canvas(v);
    let rs = v.next_damage();
    assert forall|k: int| 0 <= k < rs.len() implies crate::canvas::rect_fits(
        #[trigger] rs[k],
        v.w,
        canvas.len() as int,
    ) by {
        assert(rs[k].x + rs[k].w <= v.w && rs[k].y + rs[k].h <= v.h);
        lemma_fits_in_canvas(rs[k], v.w, v.h);
    }
    crate::canvas::lemma_pack_len(canvas, v.w, rs);
}

/// Every rect of `collect(rs, n)` is non-empty and none occurs twice.
proof fn lemma_collect_distinct(rs: Seq<Rect>, n: int)
    ensures
        forall|k: int|
            0 <= k < collect(rs, n).len() ==> (#[trigger] collect(rs, n)[k]).w > 0 && collect(
                rs,
                n,
            )[k].h > 0,
        forall|i: int, j: int|
            0 <= i < j < collect(rs, n).len() ==> #[trigger] collect(rs, n)[i] != #[trigger] collect(
                rs,
                n,
            )[j],
    decreases n,
{
    if n > 0 {
        lemma_collect_distinct(rs, n - 1);
        let v = collect(rs, n - 1);
        let r = rs[n - 1];
        if r.w > 0 && r.h > 0 && !v.contains(r) {
            let c = collect(rs, n);
            assert(c == v.push(r));
            assert forall|k: int| 0 <= k < c.len() implies (#[trigger] c[k]).w > 0 && c[k].h > 0 by {
                if k < v.len() {
                    assert(c[k] == v[k]);
                }
            }
            assert forall|i: int, j: int| 0 <= i < j < c.len() implies #[trigger] c[i] != #[trigger] c[j] by {
                if j < v.len() {
                    assert(c[i] == v[i] && c[j] == v[j]);
                } else {
                    assert(c[i] == v[i]);
                    if c[i] == c[j] {
                        assert(v.contains(r));
                    }
                }
            }
        }
    }
}

/// The damage of the next frame: the whole display for a full frame, else
/// at most six non-empty rects, no two the same, all on the canvas.
pub proof fn lemma_next_damage_shape(v: SceneView)
    requires
        v.geometry(),
    ensures
        v.next_is_full() ==> v.next_damage() == seq![full_rect(v.w, v.h)],
        v.next_damage().len() <= 6,
        forall|k: int|
            0 <= k < v.next_damage().len() ==> (#[trigger] v.next_damage()[k]).x + v.next_damage()[k].w
                <= v.w && v.next_damage()[k].y + v.next_damage()[k].h <= v.h,
        !v.next_is_full() ==> forall|k: int|
            0 <= k < v.next_damage().len() ==> (#[trigger] v.next_damage()[k]).w > 0
                && v.next_damage()[k].h > 0,
        !v.next_is_full() ==> forall|i: int, j: int|
            0 <= i < j < v.next_damage().len() ==> #[trigger] v.next_damage()[i]
                != #[trigger] v.next_damage()[j],
{
    lemma_damage_on_canvas(v);
    let rs = v.next_damage();
    assert forall|k: int| 0 <= k < rs.len() implies (#[trigger] rs[k]).x + rs[k].w <= v.w && rs[k].y
        + rs[k].h <= v.h by {
        assert(rs[k].x + rs[k].w <= v.w && rs[k].y + rs[k].h <= v.h);
    }
    if !v.next_is_full() {
        lemma_collect_distinct(v.six_rects(), 6);
        assert(rs == collect(v.six_rects(), 6));
    }
}

/// The first frame, and every frame whose tick is a multiple of
/// `fps * full_every_secs` (when resync is on), covers the whole display.
pub proof fn lemma_full_frames(v: SceneView)
    requires
        v.frame_id == 0 || (v.full_every_secs > 0 && (v.tick + 1) % (max(v.fps as int, 1)
            * v.full_every_secs) == 0),
    ensures
        v.next_damage() == seq![full_rect(v.w, v.h)],
{
}

/// With resync off (`full_every_secs == 0`) only the first frame is full:
/// every later frame is a damage frame whose rects are among the old and
/// new places of the box, the square and the bar.
pub proof fn lemma_resync_off_only_first_full(v: SceneView)
    requires
        v.full_every_secs == 0,
        v.frame_id > 0,
    ensures
        !v.next_is_full(),
        forall|k: int|
            0 <= k < v.next_damage().len() ==> exists|j: int|
                0 <= j < 6 && (#[trigger] v.next_damage()[k]) == v.six_rects()[j],
{
    lemma_collect(v.six_rects(), 6);
    assert(v.next_damage() == collect(v.six_rects(), 6));
}

/// With resync on, a frame after the first is full exactly when its tick
/// completes a period of `max(fps, 1) * full_every_secs` ticks.
pub proof fn lemma_resync_period(v: SceneView)
    requires
        v.full_every_secs > 0,
        v.frame_id > 0,
    ensures
        v.next_is_full() <==> (v.tick + 1) % (max(v.fps as int, 1) * v.full_every_secs) == 0,
{
}

/// One axis of a bounce: an element that touches or passes an edge is set
/// against that edge and its velocity reverses; otherwise it moves on by
/// its velocity, which stays. Either way it ends within the extent.
pub proof fn lemma_bounce(pos: int, vel: int, size: int, extent: int)
    requires
        0 <= size <= extent,
    ensures
        ({
            let (p, v) = bounce(pos, vel, size, extent);
            &&& 0 <= p <= extent - size
            &&& pos + vel <= 0 ==> p == 0 && v == -vel
            &&& pos + vel > 0 && pos + vel + size >= extent ==> p == extent - size && v == -vel
            &&& pos + vel > 0 && pos + vel + size < extent ==> p == pos + vel && v == vel
        }),
{
}

/// A step of the scene bounces the box and the square off the display's
/// edges: on each axis where the element would touch or pass an edge its
/// velocity reverses, and elsewhere it keeps moving the same way.
pub proof fn lemma_advanced_bounces(v: SceneView)
    requires
        v.geometry(),
    ensures
        ({
            let a = v.advanced();
            &&& a.box_dx == (if v.box_x + v.box_dx <= 0 || v.box_x + v.box_dx + v.box_w >= v.w {
                -v.box_dx
            } else {
                v.box_dx
            })
            &&& a.box_dy == (if v.box_y + v.box_dy <= 0 || v.box_y + v.box_dy + v.box_h >= v.h {
                -v.box_dy
            } else {
                v.box_dy
            })
            &&& a.sq_dx == (if v.sq_x + v.sq_dx <= 0 || v.sq_x + v.sq_dx + v.sq_s >= v.w {
                -v.sq_dx
            } else {
                v.sq_dx
            })
            &&& a.sq_dy == (if v.sq_y + v.sq_dy <= 0 || v.sq_y + v.sq_dy + v.sq_s >= v.h {
                -v.sq_dy
            } else {
                v.sq_dy
            })
        }),
{
    reveal(SceneView::advanced);
    let a = v.advanced();
    lemma_bounce(v.box_x, v.box_dx, v.box_w, v.w);
    lemma_bounce(v.box_y, v.box_dy, v.box_h, v.h);
    lemma_bounce(v.sq_x, v.sq_dx, v.sq_s, v.w);
    lemma_bounce(v.sq_y, v.sq_dy, v.sq_s, v.h);
}

} // verus!
