use crate::ivec2::{dot_fits, ivec2, IVec2};
use vstd::prelude::*;

verus! {

/// The position of pixel `(x, y)` in the row-major storage of a grid `w` wide.
pub open spec fn lin(w: int, x: int, y: int) -> int {
    x + y * w
}

/// Whether `(x, y)` lies inside a grid of size `wh`.
pub open spec fn in_grid(wh: IVec2, x: int, y: int) -> bool {
    0 <= x < wh.x && 0 <= y < wh.y
}

/// Whether the storage position of `p` in a grid `wh` wide is computed without
/// leaving `i32`.
pub open spec fn index_fits(wh: IVec2, p: IVec2) -> bool {
    position_fits(wh.x as int, p.x as int, p.y as int)
}

/// Whether `x + y * w` and its product `y * w` stay inside `i32`.
pub open spec fn position_fits(w: int, x: int, y: int) -> bool {
    &&& i32::MIN <= y * w <= i32::MAX
    &&& i32::MIN <= lin(w, x, y) <= i32::MAX
}

/// Whether the bounds of the square around `c` of half-side `r`, and the
/// squared distances inside it, stay inside `i32`.
pub open spec fn circle_fits(c: IVec2, r: i32) -> bool {
    &&& i32::MIN <= c.x - r <= i32::MAX
    &&& i32::MIN <= c.x + r <= i32::MAX
    &&& i32::MIN <= c.y - r <= i32::MAX
    &&& i32::MIN <= c.y + r <= i32::MAX
    &&& r >= 0 ==> 2 * r * r <= i32::MAX
}

/// Whether `(x, y)` is drawn by a circle of centre `c` and radius `r`: it lies
/// in the square of half-side `r` around `c` and within distance `r` of `c`.
pub open spec fn in_disk(c: IVec2, r: int, x: int, y: int) -> bool {
    &&& c.x - r <= x <= c.x + r
    &&& c.y - r <= y <= c.y + r
    &&& (x - c.x) * (x - c.x) + (y - c.y) * (y - c.y) <= r * r
}

/// Whether the four bytes `b` are what `f` may give for a clone of `pixel`.
pub open spec fn encodes<T: Clone, F: Fn(T) -> [u8; 4]>(f: F, pixel: T, b: Seq<u8>) -> bool {
    exists|c: T, out: [u8; 4]| cloned(pixel, c) && f.ensures((c,), out) && b == out@
}

/// A rectangular grid of pixels of size `wh`, stored row by row.
pub struct Texture<T: Clone> {
    wh: IVec2,
    data: Vec<T>,
}

impl<T: Clone> Texture<T> {
    #[verifier::type_invariant]
    spec fn storage_matches_size(self) -> bool {
        &&& self.data@.len() == self.wh.x * self.wh.y
        &&& self.wh.x * self.wh.y <= i32::MAX
    }

    /// The size of the grid.
    pub closed spec fn size(&self) -> IVec2 {
        self.wh
    }

    /// The pixels, row by row.
    pub closed spec fn pixels(&self) -> Seq<T> {
        self.data@
    }

    /// The size of the grid.
    pub fn wh(&self) -> (r: IVec2)
        ensures
            r == self.size(),
            self.pixels().len() == r.x * r.y,
            r.x * r.y <= i32::MAX,
    {
        proof {
            use_type_invariant(self);
        }
        self.wh
    }

    /// The pixels, row by row.
    pub fn data(&self) -> (r: &Vec<T>)
        ensures
            r@ == self.pixels(),
            r@.len() == self.size().x * self.size().y,
    {
        proof {
            use_type_invariant(self);
        }
        &self.data
    }
}

/// Inside a grid, the storage position of a pixel lies in the storage and is
/// computed without leaving `i32`.
proof fn lemma_grid_index(wh: IVec2, x: int, y: int)
    requires
        in_grid(wh, x, y),
        wh.x * wh.y <= i32::MAX,
    ensures
        0 <= y * wh.x <= lin(wh.x as int, x, y) < wh.x * wh.y,
{
    assert(0 <= y * wh.x) by (nonlinear_arith)
        requires
            0 <= y,
            0 < wh.x,
    ;
    assert(y * wh.x + wh.x <= wh.x * wh.y) by (nonlinear_arith)
        requires
            y + 1 <= wh.y,
            0 < wh.x,
    ;
}

/// Distinct pixels of a grid have distinct storage positions.
proof fn lemma_grid_index_injective(w: int, x1: int, y1: int, x2: int, y2: int)
    requires
        0 <= x1 < w,
        0 <= x2 < w,
        lin(w, x1, y1) == lin(w, x2, y2),
    ensures
        x1 == x2,
        y1 == y2,
{
    assert(y1 == y2) by (nonlinear_arith)
        requires
            0 <= x1 < w,
            0 <= x2 < w,
            x1 + y1 * w == x2 + y2 * w,
    ;
}

/// In a grid of positive size, every storage position is that of a pixel.
pub proof fn lemma_grid_covers(wh: IVec2, k: int)
    requires
        wh.x > 0,
        0 <= k < wh.x * wh.y,
    ensures
        in_grid(wh, k % (wh.x as int), k / (wh.x as int)),
        lin(wh.x as int, k % (wh.x as int), k / (wh.x as int)) == k,
{
    let w = wh.x as int;
    vstd::arithmetic::div_mod::lemma_fundamental_div_mod(k, w);
    assert(k / w < wh.y) by (nonlinear_arith)
        requires
            k == w * (k / w) + k % w,
            0 <= k % w,
            k < w * wh.y,
            w > 0,
    ;
    assert(w * (k / w) == (k / w) * w) by (nonlinear_arith);
}

/// Setting a pixel of a grid gives that pixel the new value and leaves every
/// other pixel of the grid as it was: distinct pixels never share storage.
pub proof fn lemma_set_touches_one_pixel<T>(wh: IVec2, pixels: Seq<T>, x: int, y: int, v: T, x2: int, y2: int)
    requires
        pixels.len() == wh.x * wh.y,
        wh.x * wh.y <= i32::MAX,
        in_grid(wh, x, y),
        in_grid(wh, x2, y2),
        !(x2 == x && y2 == y),
    ensures
        pixels.update(lin(wh.x as int, x, y), v)[lin(wh.x as int, x, y)] == v,
        pixels.update(lin(wh.x as int, x, y), v)[lin(wh.x as int, x2, y2)] == pixels[lin(wh.x as int, x2, y2)],
{
    lemma_grid_index(wh, x, y);
    lemma_grid_index(wh, x2, y2);
    if lin(wh.x as int, x, y) == lin(wh.x as int, x2, y2) {
        lemma_grid_index_injective(wh.x as int, x, y, x2, y2);
    }
}

impl<T: Clone + Default> Texture<T> {
    /// A grid of size `wh` whose every pixel is a clone of `initial`.
    pub fn new(wh: IVec2, initial: T) -> (t: Self)
        requires
            0 <= wh.x * wh.y <= i32::MAX,
        ensures
            t.size() == wh,
            t.pixels().len() == wh.x * wh.y,
            forall|k: int| 0 <= k < t.pixels().len() ==> cloned(initial, #[trigger] t.pixels()[k]),
    {
        let n = wh.x * wh.y;
        Self { wh, data: vec![initial; n as usize] }
    }

    /// The pixel stored at position `coord.x + coord.y * width`, which may lie
    /// outside the grid's rectangle as long as it lies in the storage.
    pub fn sample(&self, coord: IVec2) -> (r: T)
        requires
            index_fits(self.size(), coord),
            0 <= lin(self.size().x as int, coord.x as int, coord.y as int) < self.pixels().len(),
        ensures
            cloned(self.pixels()[lin(self.size().x as int, coord.x as int, coord.y as int)], r),
    {
        let idx = coord.x + coord.y * self.wh.x;
        self.data[idx as usize].clone()
    }

    /// The pixel stored at position `coord.x + coord.y * width`, or `None` when
    /// that position lies outside the storage.
    pub fn sample_checked(&self, coord: IVec2) -> (r: Option<T>)
        requires
            index_fits(self.size(), coord),
        ensures
            ({
                let k = lin(self.size().x as int, coord.x as int, coord.y as int);
                &&& (0 <= k < self.pixels().len()) == (r is Some)
                &&& r matches Some(v) ==> cloned(self.pixels()[k], v)
            }),
    {
        let idx = coord.x + coord.y * self.wh.x;
        if 0 <= idx && (idx as usize) < self.data.len() {
            Some(self.data[idx as usize].clone())
        } else {
            None
        }
    }

    /// The pixels, row by row, each turned into four bytes (red, green, blue,
    /// alpha) by `f`, which is handed a clone of the pixel.
    pub fn rgba_bytes<F: Fn(T) -> [u8; 4]>(&self, f: &F) -> (bytes: Vec<u8>)
        requires
            forall|v: T| #[trigger] f.requires((v,)),
        ensures
            bytes@.len() == 4 * self.pixels().len(),
            forall|i: int|
                0 <= i < self.pixels().len() ==> #[trigger] encodes(
                    *f,
                    self.pixels()[i],
                    bytes@.subrange(4 * i, 4 * i + 4),
                ),
    {
        let mut bytes: Vec<u8> = Vec::new();
        let mut i: usize = 0;
        while i < self.data.len()
            invariant
                i <= self.data@.len(),
                self.data@ == self.pixels(),
                bytes@.len() == 4 * i,
                forall|v: T| #[trigger] f.requires((v,)),
                forall|k: int|
                    0 <= k < i ==> #[trigger] encodes(*f, self.pixels()[k], bytes@.subrange(4 * k, 4 * k + 4)),
            decreases self.data@.len() - i,
        {
            let c = self.data[i].clone();
            let out = f(c);
            let ghost prev = bytes@;
            bytes.push(out[0]);
            bytes.push(out[1]);
            bytes.push(out[2]);
            bytes.push(out[3]);
            proof {
                assert(bytes@.subrange(4 * i as int, 4 * i as int + 4) =~= out@);
                assert(encodes(*f, self.pixels()[i as int], bytes@.subrange(4 * i as int, 4 * i as int + 4)));
                assert forall|k: int| 0 <= k < i + 1 implies #[trigger] encodes(
                    *f,
                    self.pixels()[k],
                    bytes@.subrange(4 * k, 4 * k + 4),
                ) by {
                    if k < i {
                        assert(bytes@.subrange(4 * k, 4 * k + 4) =~= prev.subrange(4 * k, 4 * k + 4));
                    }
                }
            }
            i = i + 1;
        }
        bytes
    }

    /// Sets every pixel of the grid's rectangle to a clone of `value`.
    pub fn fill(&mut self, value: T)
        ensures
            final(self).size() == old(self).size(),
            final(self).pixels().len() == old(self).pixels().len(),
            forall|x: int, y: int|
                in_grid(old(self).size(), x, y) ==> cloned(
                    value,
                    #[trigger] final(self).pixels()[lin(old(self).size().x as int, x, y)],
                ),
            old(self).size().x > 0 && old(self).size().y > 0 ==> forall|k: int|
                0 <= k < final(self).pixels().len() ==> cloned(value, #[trigger] final(self).pixels()[k]),
            old(self).size().x <= 0 || old(self).size().y <= 0 ==> final(self).pixels() == old(self).pixels(),
    {
        proof {
            use_type_invariant(&*self);
        }
        let wh = self.wh;
        let ghost w = wh.x as int;
        let mut i: i32 = 0;
        while i < wh.x
            invariant
                self.size() == wh,
                self.pixels().len() == old(self).pixels().len(),
                self.pixels().len() == wh.x * wh.y,
                wh.x * wh.y <= i32::MAX,
                w == wh.x,
                0 <= i,
                wh.x > 0 ==> i <= wh.x,
                forall|x: int, y: int|
                    0 <= x < i && 0 <= y < wh.y ==> cloned(value, #[trigger] self.pixels()[lin(w, x, y)]),
                wh.x <= 0 || wh.y <= 0 ==> self.pixels() == old(self).pixels(),
            decreases wh.x - i,
        {
            let mut j: i32 = 0;
            while j < wh.y
                invariant
                    self.size() == wh,
                    self.pixels().len() == old(self).pixels().len(),
                    self.pixels().len() == wh.x * wh.y,
                    wh.x * wh.y <= i32::MAX,
                    w == wh.x,
                    0 <= i < wh.x,
                    0 <= j,
                    wh.y > 0 ==> j <= wh.y,
                    forall|x: int, y: int|
                        0 <= x < i && 0 <= y < wh.y ==> cloned(value, #[trigger] self.pixels()[lin(w, x, y)]),
                    forall|y: int| 0 <= y < j ==> cloned(value, #[trigger] self.pixels()[lin(w, i as int, y)]),
                    wh.x <= 0 || wh.y <= 0 ==> self.pixels() == old(self).pixels(),
                decreases wh.y - j,
            {
                let ghost before = self.pixels();
                self.set(ivec2(i, j), value.clone());
                proof {
                    lemma_grid_index(wh, i as int, j as int);
                    let k = lin(w, i as int, j as int);
                    assert forall|x: int, y: int| 0 <= x < i && 0 <= y < wh.y implies cloned(
                        value,
                        #[trigger] self.pixels()[lin(w, x, y)],
                    ) by {
                        lemma_grid_index(wh, x, y);
                        if lin(w, x, y) == k {
                            lemma_grid_index_injective(w, x, y, i as int, j as int);
                        }
                        assert(self.pixels()[lin(w, x, y)] == before[lin(w, x, y)]);
                    }
                    assert forall|y: int| 0 <= y < j + 1 implies cloned(
                        value,
                        #[trigger] self.pixels()[lin(w, i as int, y)],
                    ) by {
                        if y < j {
                            lemma_grid_index(wh, i as int, y);
                            if lin(w, i as int, y) == k {
                                lemma_grid_index_injective(w, i as int, y, i as int, j as int);
                            }
                        }
                    }
                }
                j = j + 1;
            }
            i = i + 1;
        }
        proof {
            if wh.x > 0 && wh.y > 0 {
                assert forall|k: int| 0 <= k < self.pixels().len() implies cloned(
                    value,
                    #[trigger] self.pixels()[k],
                ) by {
                    lemma_grid_covers(wh, k);
                    let x = k % w;
                    let y = k / w;
                    assert(cloned(value, self.pixels()[lin(w, x, y)]));
                }
            }
        }
    }
}

/// Drawing on a pixel grid.
pub trait Draw {
    type Pixel: Clone + Default;

    /// Sets the pixel at `p`; a `p` outside the grid is ignored.
    fn set(&mut self, p: IVec2, value: Self::Pixel);

    /// Sets every pixel within distance `r` of `c` to a clone of `fill`.
    fn draw_circle(&mut self, c: IVec2, r: i32, fill: Self::Pixel)
        requires
            circle_fits(c, r),
    ;
}

impl<T: Clone + Default> Draw for Texture<T> {
    type Pixel = T;

    fn set(&mut self, p: IVec2, value: T)
        ensures
            final(self).size() == old(self).size(),
            in_grid(old(self).size(), p.x as int, p.y as int) ==> final(self).pixels() == old(
                self,
            ).pixels().update(lin(old(self).size().x as int, p.x as int, p.y as int), value),
            !in_grid(old(self).size(), p.x as int, p.y as int) ==> final(self).pixels() == old(
                self,
            ).pixels(),
    {
        proof {
            use_type_invariant(&*self);
        }
        if p.x < 0 || p.x >= self.wh.x || p.y < 0 || p.y >= self.wh.y {
            return;
        }
        proof {
            lemma_grid_index(self.wh, p.x as int, p.y as int);
        }
        let idx = p.x + p.y * self.wh.x;
        self.data[idx as usize] = value;
    }

    fn draw_circle(&mut self, c: IVec2, r: i32, fill: T)
        ensures
            final(self).size() == old(self).size(),
            final(self).pixels().len() == old(self).pixels().len(),
            forall|x: int, y: int|
                #![trigger final(self).pixels()[lin(old(self).size().x as int, x, y)]]
                in_grid(old(self).size(), x, y) ==> {
                    let k = lin(old(self).size().x as int, x, y);
                    &&& in_disk(c, r as int, x, y) ==> cloned(fill, final(self).pixels()[k])
                    &&& !in_disk(c, r as int, x, y) ==> final(self).pixels()[k] == old(self).pixels()[k]
                },
            forall|x: int, y: int|
                #![trigger final(self).pixels()[lin(old(self).size().x as int, x, y)]]
                in_grid(old(self).size(), x, y) ==> {
                    let k = lin(old(self).size().x as int, x, y);
                    let d = (x - c.x) * (x - c.x) + (y - c.y) * (y - c.y);
                    &&& (r >= 0 && d <= r * r) ==> cloned(fill, final(self).pixels()[k])
                    &&& !(r >= 0 && d <= r * r) ==> final(self).pixels()[k] == old(self).pixels()[k]
                },
            old(self).size().x <= 0 || old(self).size().y <= 0 ==> final(self).pixels() == old(self).pixels(),
    {
        proof {
            use_type_invariant(&*self);
        }
        let ghost w = self.wh.x as int;
        let ghost wh = self.wh;
        let ghost old_pixels = self.pixels();
        let lo_x: i64 = (c.x - r) as i64;
        let hi_x: i64 = (c.x + r) as i64;
        let lo_y: i64 = (c.y - r) as i64;
        let hi_y: i64 = (c.y + r) as i64;
        let mut i: i64 = lo_x;
        while i <= hi_x
            invariant
                circle_fits(c, r),
                lo_x == c.x - r,
                hi_x == c.x + r,
                lo_y == c.y - r,
                hi_y == c.y + r,
                lo_x <= i,
                lo_x <= hi_x ==> i <= hi_x + 1,
                self.size() == wh,
                w == wh.x,
                self.pixels().len() == old_pixels.len(),
                self.pixels().len() == wh.x * wh.y,
                wh.x * wh.y <= i32::MAX,
                forall|x: int, y: int|
                    #![trigger self.pixels()[lin(w, x, y)]]
                    in_grid(wh, x, y) ==> {
                        &&& (in_disk(c, r as int, x, y) && x < i) ==> cloned(fill, self.pixels()[lin(w, x, y)])
                        &&& !(in_disk(c, r as int, x, y) && x < i) ==> self.pixels()[lin(w, x, y)]
                            == old_pixels[lin(w, x, y)]
                    },
                wh.x <= 0 || wh.y <= 0 ==> self.pixels() == old_pixels,
            decreases hi_x + 1 - i,
        {
            let mut j: i64 = lo_y;
            while j <= hi_y
                invariant
                    circle_fits(c, r),
                    lo_x == c.x - r,
                    hi_x == c.x + r,
                    lo_y == c.y - r,
                    hi_y == c.y + r,
                    lo_x <= i <= hi_x,
                    lo_y <= j,
                    lo_y <= hi_y ==> j <= hi_y + 1,
                    self.size() == wh,
                    w == wh.x,
                    self.pixels().len() == old_pixels.len(),
                    self.pixels().len() == wh.x * wh.y,
                    wh.x * wh.y <= i32::MAX,
                    forall|x: int, y: int|
                        #![trigger self.pixels()[lin(w, x, y)]]
                        in_grid(wh, x, y) ==> {
                            &&& (in_disk(c, r as int, x, y) && (x < i || (x == i && y < j))) ==> cloned(
                                fill,
                                self.pixels()[lin(w, x, y)],
                            )
                            &&& !(in_disk(c, r as int, x, y) && (x < i || (x == i && y < j)))
                                ==> self.pixels()[lin(w, x, y)] == old_pixels[lin(w, x, y)]
                        },
                    wh.x <= 0 || wh.y <= 0 ==> self.pixels() == old_pixels,
                decreases hi_y + 1 - j,
            {
                let p = ivec2(i as i32, j as i32);
                let u = p.sub(c);
                proof {
                    assert(r >= 0);
                    assert(r * r + r * r == 2 * r * r) by (nonlinear_arith);
                    assert(0 <= u.x * u.x <= r * r) by (nonlinear_arith)
                        requires
                            -r <= u.x <= r,
                    ;
                    assert(0 <= u.y * u.y <= r * r) by (nonlinear_arith)
                        requires
                            -r <= u.y <= r,
                    ;
                    assert(dot_fits(u, u));
                }
                let ghost before = self.pixels();
                if u.dot(&u) <= r * r {
                    self.set(p, fill.clone());
                    proof {
                        let k = lin(w, i as int, j as int);
                        if in_grid(wh, i as int, j as int) {
                            lemma_grid_index(wh, i as int, j as int);
                        }
                        assert forall|x: int, y: int|
                            #![trigger self.pixels()[lin(w, x, y)]]
                            in_grid(wh, x, y) && !(x == i && y == j) implies self.pixels()[lin(w, x, y)]
                            == before[lin(w, x, y)] by {
                            lemma_grid_index(wh, x, y);
                            if in_grid(wh, i as int, j as int) && lin(w, x, y) == k {
                                lemma_grid_index_injective(w, x, y, i as int, j as int);
                            }
                        }
                    }
                }
                j = j + 1;
            }
            i = i + 1;
        }
        proof {
            assert forall|x: int, y: int|
                #![trigger self.pixels()[lin(w, x, y)]]
                in_grid(wh, x, y) implies {
                    let k = lin(w, x, y);
                    let d = (x - c.x) * (x - c.x) + (y - c.y) * (y - c.y);
                    &&& (r >= 0 && d <= r * r) ==> cloned(fill, self.pixels()[k])
                    &&& !(r >= 0 && d <= r * r) ==> self.pixels()[k] == old_pixels[k]
                } by {
                lemma_in_disk_is_distance(c, r as int, x, y);
            }
        }
    }
}

/// The pixels that a circle draws are exactly those within distance `r` of
/// its centre, by squared Euclidean distance; a negative radius draws none.
pub proof fn lemma_in_disk_is_distance(c: IVec2, r: int, x: int, y: int)
    ensures
        in_disk(c, r, x, y) <==> (r >= 0 && (x - c.x) * (x - c.x) + (y - c.y) * (y - c.y) <= r * r),
{
    let dx = x - c.x;
    let dy = y - c.y;
    if r >= 0 && dx * dx + dy * dy <= r * r {
        assert(-r <= dx <= r) by (nonlinear_arith)
            requires
                r >= 0,
                dx * dx + dy * dy <= r * r,
        ;
        assert(-r <= dy <= r) by (nonlinear_arith)
            requires
                r >= 0,
                dx * dx + dy * dy <= r * r,
        ;
    }
}

} // verus!
