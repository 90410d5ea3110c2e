//! Damage rectangles.

use vstd::prelude::*;

verus! {

/// Damage rectangle. Origin top-left; covers pixels `[x, x+w) × [y, y+h)`.
#[derive(Debug, Clone, Copy, PartialEq, Eq, Structural)]
pub struct Rect {
    pub x: u16,
    pub y: u16,
    pub w: u16,
    pub h: u16,
}

/// The larger of two integers.
pub open spec fn max_int(a: int, b: int) -> int {
    if a >= b { a } else { b }
}

/// The smaller of two integers.
pub open spec fn min_int(a: int, b: int) -> int {
    if a <= b { a } else { b }
}

/// The rect covering a whole `w × h` canvas.
pub open spec fn full_rect(w: int, h: int) -> Rect {
    Rect { x: 0, y: 0, w: w as u16, h: h as u16 }
}

impl Rect {
    /// Pixel count.
    pub open spec fn spec_area(self) -> nat {
        (self.w * self.h) as nat
    }

    /// Bytes of tightly packed rows at 4 bytes per pixel.
    pub open spec fn spec_byte_len(self) -> nat {
        (self.spec_area() * 4) as nat
    }

    /// Whether pixel `(px, py)` lies inside the rect.
    pub open spec fn contains(self, px: int, py: int) -> bool {
        self.x <= px < self.x + self.w && self.y <= py < self.y + self.h
    }

    /// Both right and bottom edges are representable as `u16`.
    pub open spec fn edges_fit(self) -> bool {
        self.x + self.w <= u16::MAX && self.y + self.h <= u16::MAX
    }

    pub fn new(x: u16, y: u16, w: u16, h: u16) -> (r: Self)
        ensures
            r == (Rect { x, y, w, h }),
    {
        Rect { x, y, w, h }
    }

    pub fn area(&self) -> (a: u64)
        ensures
            a == self.spec_area(),
    {
        proof {
            lemma_area_bound(*self);
        }
        self.w as u64 * self.h as u64
    }

    /// Bytes of tightly packed rows for this rect at 4 bytes/pixel.
    pub fn byte_len(&self) -> (n: u64)
        ensures
            n == self.spec_byte_len(),
    {
        proof {
            lemma_area_bound(*self);
        }
        self.area() * 4
    }

    /// The intersection of `self` and `o`, as the pixels both contain.
    pub open spec fn spec_intersect(self, o: Rect) -> Option<Rect> {
        let x1 = max_int(self.x as int, o.x as int);
        let y1 = max_int(self.y as int, o.y as int);
        let x2 = min_int(self.x + self.w, o.x + o.w);
        let y2 = min_int(self.y + self.h, o.y + o.h);
        if x2 > x1 && y2 > y1 {
            Some(Rect { x: x1 as u16, y: y1 as u16, w: (x2 - x1) as u16, h: (y2 - y1) as u16 })
        } else {
            None
        }
    }

    /// Intersection with another rect, if non-empty. The edges of both rects
    /// must fit in `u16` (their sums would overflow otherwise).
    pub fn intersect(&self, o: &Rect) -> (r: Option<Rect>)
        requires
            self.edges_fit(),
            o.edges_fit(),
        ensures
            r == self.spec_intersect(*o),
            r matches Some(i) ==> forall|px: int, py: int|
                #[trigger] i.contains(px, py) <==> self.contains(px, py) && o.contains(px, py),
            r is None ==> forall|px: int, py: int|
                !(#[trigger] self.contains(px, py) && o.contains(px, py)),
    {
        let x1 = if self.x >= o.x { self.x } else { o.x };
        let y1 = if self.y >= o.y { self.y } else { o.y };
        let sx2 = self.x + self.w;
        let ox2 = o.x + o.w;
        let sy2 = self.y + self.h;
        let oy2 = o.y + o.h;
        let x2 = if sx2 <= ox2 { sx2 } else { ox2 };
        let y2 = if sy2 <= oy2 { sy2 } else { oy2 };
        if x2 > x1 && y2 > y1 {
            Some(Rect { x: x1, y: y1, w: x2 - x1, h: y2 - y1 })
        } else {
            None
        }
    }
}

/// Area and byte length of any rect fit comfortably in a `u64`.
pub proof fn lemma_area_bound(r: Rect)
    ensures
        r.w * r.h <= 65535 * 65535,
        r.spec_area() * 4 <= 4 * 65535 * 65535,
{
    assert(r.w * r.h <= 65535 * 65535) by (nonlinear_arith)
        requires
            r.w <= 65535,
            r.h <= 65535,
            r.w >= 0,
            r.h >= 0,
    ;
}

} // verus!
