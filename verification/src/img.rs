//! RGBA images as plain pixel buffers, with the exact 90-degree rotations
//! and the fixed-point rotation about the center used by the renderer.

use vstd::prelude::*;

use crate::trig::{cos_mdeg, sin_mdeg, spec_cos_mdeg, spec_sin_mdeg};

verus! {

/// One RGBA pixel with 8-bit channels.
#[derive(Debug, Clone, Copy, PartialEq, Eq, Structural)]
pub struct Pixel {
    pub r: u8,
    pub g: u8,
    pub b: u8,
    pub a: u8,
}

impl Pixel {
    /// The fully transparent black pixel.
    pub fn transparent() -> (p: Pixel)
        ensures
            p == spec_transparent(),
    {
        Pixel { r: 0, g: 0, b: 0, a: 0 }
    }
}

pub open spec fn spec_transparent() -> Pixel {
    Pixel { r: 0, g: 0, b: 0, a: 0 }
}

/// Mathematical contents of an image: dimensions and a row-major pixel grid.
pub struct ImgView {
    pub width: nat,
    pub height: nat,
    pub pixels: Seq<Pixel>,
}

impl ImgView {
    pub open spec fn wf(self) -> bool {
        self.pixels.len() == self.width * self.height
    }

    /// The pixel in column `x` of row `y`.
    pub open spec fn pixel(self, x: int, y: int) -> Pixel {
        self.pixels[y * self.width + x]
    }

    pub open spec fn in_bounds(self, x: int, y: int) -> bool {
        0 <= x < self.width && 0 <= y < self.height
    }
}

pub proof fn lemma_rowmajor_index(w: int, h: int, x: int, y: int)
    requires
        0 <= x < w,
        0 <= y < h,
    ensures
        0 <= y * w + x < w * h,
{
    assert(0 <= y * w + x < w * h) by (nonlinear_arith)
        requires
            0 <= x < w,
            0 <= y < h,
    ;
}

/// Two well-formed views with equal dimensions and equal pixels everywhere
/// are the same view.
pub proof fn lemma_view_ext(a: ImgView, b: ImgView)
    requires
        a.wf(),
        b.wf(),
        a.width == b.width,
        a.height == b.height,
        forall|x: int, y: int| a.in_bounds(x, y) ==> a.pixel(x, y) == b.pixel(x, y),
    ensures
        a == b,
{
    assert forall|i: int| 0 <= i < a.pixels.len() implies a.pixels[i] == b.pixels[i] by {
        let w = a.width as int;
        assert(w > 0) by (nonlinear_arith)
            requires
                0 <= i < a.pixels.len(),
                a.pixels.len() == a.width * a.height,
                w == a.width,
        ;
        let x = i % w;
        let y = i / w;
        assert(0 <= x < w);
        vstd::arithmetic::div_mod::lemma_fundamental_div_mod(i, w);
        assert(y * w + x == i) by (nonlinear_arith)
            requires
                i == w * (i / w) + i % w,
                y == i / w,
                x == i % w,
        ;
        assert(0 <= y < a.height) by (nonlinear_arith)
            requires
                i == y * w + x,
                0 <= x < w,
                0 <= i < a.width * a.height,
                w == a.width,
        ;
        assert(a.in_bounds(x, y));
        assert(a.pixel(x, y) == a.pixels[i]);
        assert(b.pixel(x, y) == b.pixels[i]);
    }
    assert(a.pixels =~= b.pixels);
}

/// An RGBA image: a row-major pixel buffer with its dimensions.
#[derive(Debug, Clone, PartialEq, Eq)]
pub struct Image {
    width: u32,
    height: u32,
    pixels: Vec<Pixel>,
}

impl View for Image {
    type V = ImgView;

    closed spec fn view(&self) -> ImgView {
        ImgView { width: self.width as nat, height: self.height as nat, pixels: self.pixels@ }
    }
}

impl Image {
    pub open spec fn wf(&self) -> bool {
        self@.wf()
    }

    pub fn width(&self) -> (w: u32)
        ensures
            w == self@.width,
    {
        self.width
    }

    pub fn height(&self) -> (h: u32)
        ensures
            h == self@.height,
    {
        self.height
    }

    /// A fully transparent image of the given dimensions.
    pub fn new(width: u32, height: u32) -> (r: Image)
        requires
            width * height <= usize::MAX,
        ensures
            r.wf(),
            r@.width == width,
            r@.height == height,
            forall|x: int, y: int| r@.in_bounds(x, y) ==> r@.pixel(x, y) == spec_transparent(),
    {
        let n = (width as usize) * (height as usize);
        let mut pixels: Vec<Pixel> = Vec::new();
        let mut i: usize = 0;
        while i < n
            invariant
                i <= n,
                pixels@.len() == i,
                forall|k: int| 0 <= k < i ==> pixels@[k] == spec_transparent(),
            decreases n - i,
        {
            pixels.push(Pixel { r: 0, g: 0, b: 0, a: 0 });
            i += 1;
        }
        let r = Image { width, height, pixels };
        proof {
            assert forall|x: int, y: int| r@.in_bounds(x, y) implies r@.pixel(x, y)
                == spec_transparent() by {
                lemma_rowmajor_index(width as int, height as int, x, y);
            }
        }
        r
    }

    /// Builds an image from a row-major pixel buffer.
    pub fn from_pixels(width: u32, height: u32, pixels: Vec<Pixel>) -> (r: Image)
        requires
            pixels@.len() == width * height,
        ensures
            r.wf(),
            r@.width == width,
            r@.height == height,
            r@.pixels == pixels@,
    {
        Image { width, height, pixels }
    }

    /// Reads one pixel.
    pub fn px(&self, x: u32, y: u32) -> (p: Pixel)
        requires
            self.wf(),
            self@.in_bounds(x as int, y as int),
        ensures
            p == self@.pixel(x as int, y as int),
    {
        let n = self.pixels.len();
        proof {
            lemma_rowmajor_index(self@.width as int, self@.height as int, x as int, y as int);
        }
        self.pixels[(y as usize) * (self.width as usize) + (x as usize)]
    }

    /// Overwrites one pixel.
    pub fn set_px(&mut self, x: u32, y: u32, p: Pixel)
        requires
            old(self).wf(),
            old(self)@.in_bounds(x as int, y as int),
        ensures
            final(self).wf(),
            final(self)@.width == old(self)@.width,
            final(self)@.height == old(self)@.height,
            final(self)@.pixel(x as int, y as int) == p,
            forall|u: int, v: int|
                old(self)@.in_bounds(u, v) && !(u == x && v == y) ==> final(self)@.pixel(u, v)
                    == old(self)@.pixel(u, v),
    {
        let n = self.pixels.len();
        proof {
            lemma_rowmajor_index(self@.width as int, self@.height as int, x as int, y as int);
        }
        let idx = (y as usize) * (self.width as usize) + (x as usize);
        self.pixels.set(idx, p);
        proof {
            let w = self@.width as int;
            assert forall|u: int, v: int|
                old(self)@.in_bounds(u, v) && !(u == x && v == y) implies final(self)@.pixel(u, v)
                == old(self)@.pixel(u, v) by {
                lemma_rowmajor_index(w, self@.height as int, u, v);
                assert(v * w + u != y * w + x) by (nonlinear_arith)
                    requires
                        0 <= u < w,
                        0 <= x < w,
                        !(u == x && v == y),
                        0 <= v,
                        0 <= y,
                ;
            }
        }
    }
}

/// Quality settings for rotation about the center.
#[derive(Debug, Clone, Copy, PartialEq, Eq, Structural)]
pub enum RotationQuality {
    /// Nearest neighbor.
    Fast,
    /// Bilinear interpolation.
    Good,
    /// Highest quality; sampled with bilinear interpolation here.
    Best,
}

/// The exact 90-degree rotation: the result has swapped dimensions and
/// `r(u, v)` is the source pixel `(v, H-1-u)` (clockwise) or
/// `(W-1-v, u)` (counter-clockwise).
pub fn rotate_90_degrees(image: &Image, clockwise: bool) -> (r: Image)
    requires
        image.wf(),
    ensures
        r.wf(),
        r@.width == image@.height,
        r@.height == image@.width,
        forall|u: int, v: int|
            r@.in_bounds(u, v) ==> r@.pixel(u, v) == if clockwise {
                image@.pixel(v, image@.height - 1 - u)
            } else {
                image@.pixel(image@.width - 1 - v, u)
            },
        r@ == spec_rotate_90(image@, clockwise),
{
    let w = image.width();
    let h = image.height();
    let n = image.pixels.len();
    proof {
        assert(h * w == w * h) by (nonlinear_arith);
        assert(n == image@.pixels.len());
    }
    let mut out = Image::new(h, w);
    let mut y: u32 = 0;
    while y < h
        invariant
            image.wf(),
            out.wf(),
            w == image@.width,
            h == image@.height,
            out@.width == h,
            out@.height == w,
            0 <= y <= h,
            forall|sx: int, sy: int|
                0 <= sx < w && 0 <= sy < y ==> out@.pixel(
                    if clockwise {
                        h - 1 - sy
                    } else {
                        sy
                    },
                    if clockwise {
                        sx
                    } else {
                        w - 1 - sx
                    },
                ) == image@.pixel(sx, sy),
        decreases h - y,
    {
        let mut x: u32 = 0;
        while x < w
            invariant
                image.wf(),
                out.wf(),
                w == image@.width,
                h == image@.height,
                out@.width == h,
                out@.height == w,
                0 <= y < h,
                0 <= x <= w,
                forall|sx: int, sy: int|
                    0 <= sx < w && 0 <= sy < y ==> out@.pixel(
                        if clockwise {
                            h - 1 - sy
                        } else {
                            sy
                        },
                        if clockwise {
                            sx
                        } else {
                            w - 1 - sx
                        },
                    ) == image@.pixel(sx, sy),
                forall|sx: int|
                    0 <= sx < x ==> out@.pixel(
                        if clockwise {
                            h - 1 - y
                        } else {
                            y as int
                        },
                        if clockwise {
                            sx
                        } else {
                            w - 1 - sx
                        },
                    ) == image@.pixel(sx, y as int),
            decreases w - x,
        {
            let p = image.px(x, y);
            if clockwise {
                out.set_px(h - 1 - y, x, p);
            } else {
                out.set_px(y, w - 1 - x, p);
            }
            x += 1;
        }
        y += 1;
    }
    proof {
        assert forall|u: int, v: int| out@.in_bounds(u, v) implies out@.pixel(u, v) == (
        if clockwise {
            image@.pixel(v, image@.height - 1 - u)
        } else {
            image@.pixel(image@.width - 1 - v, u)
        }) by {
            if clockwise {
                let sx = v;
                let sy = h - 1 - u;
                assert(out@.pixel(h - 1 - sy, sx) == image@.pixel(sx, sy));
            } else {
                let sx = w - 1 - v;
                let sy = u;
                assert(out@.pixel(sy, w - 1 - sx) == image@.pixel(sx, sy));
            }
        }
        let g = spec_rotate_90(image@, clockwise);
        assert forall|u: int, v: int| out@.in_bounds(u, v) implies out@.pixel(u, v) == g.pixel(
            u,
            v,
        ) by {
            lemma_grid_pixel(
                image@.height,
                image@.width,
                |u: int, v: int|
                    if clockwise {
                        image@.pixel(v, image@.height - 1 - u)
                    } else {
                        image@.pixel(image@.width - 1 - v, u)
                    },
                u,
                v,
            );
        }
        assert(g.wf());
        lemma_view_ext(out@, g);
    }
    out
}

/// The exact 180-degree rotation: `r(u, v)` is the source pixel
/// `(W-1-u, H-1-v)`.
pub fn rotate_180_degrees(image: &Image) -> (r: Image)
    requires
        image.wf(),
    ensures
        r.wf(),
        r@.width == image@.width,
        r@.height == image@.height,
        forall|u: int, v: int|
            r@.in_bounds(u, v) ==> r@.pixel(u, v) == image@.pixel(
                image@.width - 1 - u,
                image@.height - 1 - v,
            ),
        r@ == spec_rotate_180(image@),
{
    let w = image.width();
    let h = image.height();
    let n = image.pixels.len();
    proof {
        assert(n == image@.pixels.len());
    }
    let mut out = Image::new(w, h);
    let mut y: u32 = 0;
    while y < h
        invariant
            image.wf(),
            out.wf(),
            w == image@.width,
            h == image@.height,
            out@.width == w,
            out@.height == h,
            0 <= y <= h,
            forall|sx: int, sy: int|
                0 <= sx < w && 0 <= sy < y ==> out@.pixel(w - 1 - sx, h - 1 - sy) == image@.pixel(
                    sx,
                    sy,
                ),
        decreases h - y,
    {
        let mut x: u32 = 0;
        while x < w
            invariant
                image.wf(),
                out.wf(),
                w == image@.width,
                h == image@.height,
                out@.width == w,
                out@.height == h,
                0 <= y < h,
                0 <= x <= w,
                forall|sx: int, sy: int|
                    0 <= sx < w && 0 <= sy < y ==> out@.pixel(w - 1 - sx, h - 1 - sy)
                        == image@.pixel(sx, sy),
                forall|sx: int|
                    0 <= sx < x ==> out@.pixel(w - 1 - sx, h - 1 - y) == image@.pixel(sx, y as int),
            decreases w - x,
        {
            let p = image.px(x, y);
            out.set_px(w - 1 - x, h - 1 - y, p);
            x += 1;
        }
        y += 1;
    }
    proof {
        assert forall|u: int, v: int| out@.in_bounds(u, v) implies out@.pixel(u, v)
            == image@.pixel(image@.width - 1 - u, image@.height - 1 - v) by {
            let sx = w - 1 - u;
            let sy = h - 1 - v;
            assert(out@.pixel(w - 1 - sx, h - 1 - sy) == image@.pixel(sx, sy));
        }
        let g = spec_rotate_180(image@);
        assert forall|u: int, v: int| out@.in_bounds(u, v) implies out@.pixel(u, v) == g.pixel(
            u,
            v,
        ) by {
            lemma_grid_pixel(
                image@.width,
                image@.height,
                |u: int, v: int| image@.pixel(image@.width - 1 - u, image@.height - 1 - v),
                u,
                v,
            );
        }
        assert(g.wf());
        lemma_view_ext(out@, g);
    }
    out
}

/// A view laid out on a grid: pixel `(x, y)` is `f(x, y)`.
pub open spec fn grid(w: nat, h: nat, f: spec_fn(int, int) -> Pixel) -> ImgView {
    ImgView { width: w, height: h, pixels: Seq::new(w * h, |i: int| f(i % w as int, i / w as int)) }
}

pub proof fn lemma_grid_wf(w: nat, h: nat, f: spec_fn(int, int) -> Pixel)
    ensures
        grid(w, h, f).wf(),
{
}

pub proof fn lemma_grid_pixel(w: nat, h: nat, f: spec_fn(int, int) -> Pixel, x: int, y: int)
    requires
        0 <= x < w,
        0 <= y < h,
    ensures
        grid(w, h, f).pixel(x, y) == f(x, y),
{
    let i = y * (w as int) + x;
    lemma_rowmajor_index(w as int, h as int, x, y);
    vstd::arithmetic::div_mod::lemma_fundamental_div_mod_converse(i, w as int, y, x);
    assert(grid(w, h, f).pixels[i] == f(i % w as int, i / w as int));
}

/// The view of a quarter-turn rotation.
pub open spec fn spec_rotate_90(img: ImgView, clockwise: bool) -> ImgView {
    grid(
        img.height,
        img.width,
        |u: int, v: int|
            if clockwise {
                img.pixel(v, img.height - 1 - u)
            } else {
                img.pixel(img.width - 1 - v, u)
            },
    )
}

/// The view of a half-turn rotation.
pub open spec fn spec_rotate_180(img: ImgView) -> ImgView {
    grid(
        img.width,
        img.height,
        |u: int, v: int| img.pixel(img.width - 1 - u, img.height - 1 - v),
    )
}

/// Rotating a view a quarter turn clockwise and then a quarter turn
/// counter-clockwise, or the other way round, reproduces the original
/// pixel buffer exactly.
pub proof fn lemma_rotate_90_round_trip(a: ImgView, b: ImgView, c: ImgView, cw_first: bool)
    requires
        a.wf(),
        b.wf(),
        c.wf(),
        b.width == a.height,
        b.height == a.width,
        c.width == b.height,
        c.height == b.width,
        forall|u: int, v: int|
            b.in_bounds(u, v) ==> b.pixel(u, v) == if cw_first {
                a.pixel(v, a.height - 1 - u)
            } else {
                a.pixel(a.width - 1 - v, u)
            },
        forall|u: int, v: int|
            c.in_bounds(u, v) ==> c.pixel(u, v) == if cw_first {
                b.pixel(b.width - 1 - v, u)
            } else {
                b.pixel(v, b.height - 1 - u)
            },
    ensures
        c == a,
{
    assert forall|u: int, v: int| c.in_bounds(u, v) implies c.pixel(u, v) == a.pixel(u, v) by {
        if cw_first {
            assert(b.in_bounds(b.width - 1 - v, u));
        } else {
            assert(b.in_bounds(v, b.height - 1 - u));
        }
    }
    lemma_view_ext(c, a);
}

/// Rotating a view a half turn twice reproduces the original pixel buffer
/// exactly.
pub proof fn lemma_rotate_180_round_trip(a: ImgView, b: ImgView, c: ImgView)
    requires
        a.wf(),
        b.wf(),
        c.wf(),
        b.width == a.width,
        b.height == a.height,
        c.width == b.width,
        c.height == b.height,
        forall|u: int, v: int|
            b.in_bounds(u, v) ==> b.pixel(u, v) == a.pixel(a.width - 1 - u, a.height - 1 - v),
        forall|u: int, v: int|
            c.in_bounds(u, v) ==> c.pixel(u, v) == b.pixel(b.width - 1 - u, b.height - 1 - v),
    ensures
        c == a,
{
    assert forall|u: int, v: int| c.in_bounds(u, v) implies c.pixel(u, v) == a.pixel(u, v) by {
        assert(b.in_bounds(b.width - 1 - u, b.height - 1 - v));
    }
    lemma_view_ext(c, a);
}

/// Cache of decoded images, keyed by name and requested size, so the
/// renderer reuses one decoded copy per picture.  The caller loads and
/// decodes the files and inserts the results.
pub struct ImageCache {
    entries: Vec<(String, Option<(u32, u32)>, Image)>,
}

impl ImageCache {
    /// The cached image under a name and size, newest entry first.
    pub closed spec fn spec_get_in(
        s: Seq<(String, Option<(u32, u32)>, Image)>,
        name: Seq<char>,
        size: Option<(u32, u32)>,
    ) -> Option<Image>
        decreases s.len(),
    {
        if s.len() == 0 {
            None
        } else if s.last().0@ == name && s.last().1 == size {
            Some(s.last().2)
        } else {
            Self::spec_get_in(s.drop_last(), name, size)
        }
    }

    pub open spec fn spec_get(&self, name: Seq<char>, size: Option<(u32, u32)>) -> Option<Image> {
        Self::spec_get_in(self.spec_entries(), name, size)
    }

    pub closed spec fn spec_entries(&self) -> Seq<(String, Option<(u32, u32)>, Image)> {
        self.entries@
    }

    /// Every cached image is well formed and of drawable size.
    pub closed spec fn wf(&self) -> bool {
        forall|i: int|
            0 <= i < self.entries@.len() ==> (#[trigger] self.entries@[i].2).wf()
                && self.entries@[i].2@.width <= 1000000 && self.entries@[i].2@.height <= 1000000
    }

    /// An empty cache.
    pub fn new() -> (r: ImageCache)
        ensures
            r.wf(),
            forall|name: Seq<char>, size: Option<(u32, u32)>|
                #[trigger] r.spec_get(name, size) is None,
    {
        ImageCache { entries: Vec::new() }
    }

    /// Caches a decoded image under its name and requested size.
    pub fn insert(&mut self, name: &str, size: Option<(u32, u32)>, img: Image)
        requires
            old(self).wf(),
            img.wf(),
            img@.width <= 1000000,
            img@.height <= 1000000,
        ensures
            final(self).wf(),
            final(self).spec_get(name@, size) == Some(img),
            forall|n: Seq<char>, s: Option<(u32, u32)>|
                !(n == name@ && s == size) ==> #[trigger] final(self).spec_get(n, s) == old(
                    self,
                ).spec_get(n, s),
    {
        let ghost pre = self.entries@;
        let entry = (name.to_owned(), size, img);
        let ghost ev = entry;
        self.entries.push(entry);
        proof {
            assert(self.entries@.drop_last() =~= pre);
            assert(self.entries@.last() == ev);
            assert forall|i: int| 0 <= i < self.entries@.len() implies (
            #[trigger] self.entries@[i].2).wf() && self.entries@[i].2@.width <= 1000000
                && self.entries@[i].2@.height <= 1000000 by {
                if i < pre.len() {
                    assert(self.entries@[i] == pre[i]);
                }
            }
        }
    }

    /// Looks a cached image up; the result is a copy of the cached pixels.
    pub fn get(&self, name: &str, size: Option<(u32, u32)>) -> (r: Option<Image>)
        requires
            self.wf(),
        ensures
            match r {
                Some(img) => {
                    &&& self.spec_get(name@, size) is Some
                    &&& img@ == self.spec_get(name@, size)->0@
                    &&& img.wf()
                    &&& img@.width <= 1000000
                    &&& img@.height <= 1000000
                },
                None => self.spec_get(name@, size) is None,
            },
    {
        let n = self.entries.len();
        proof {
            assert(self.entries@.take(n as int) =~= self.entries@);
        }
        let mut i: usize = n;
        while i > 0
            invariant
                0 <= i <= n,
                n == self.entries@.len(),
                self.wf(),
                self.spec_get(name@, size) == Self::spec_get_in(
                    self.entries@.take(i as int),
                    name@,
                    size,
                ),
            decreases i,
        {
            proof {
                assert(self.entries@.take(i as int).last() == self.entries@[i - 1]);
                assert(self.entries@.take(i as int).drop_last() =~= self.entries@.take(i - 1));
            }
            let hit = crate::strutil::str_eq(self.entries[i - 1].0.as_str(), name) && match (
                &self.entries[i - 1].1,
                &size,
            ) {
                (Some(a), Some(b)) => a.0 == b.0 && a.1 == b.1,
                (None, None) => true,
                _ => false,
            };
            if hit {
                assert(self.entries@[i - 1].1 == size);
                return Some(clone_image(&self.entries[i - 1].2));
            }
            i -= 1;
        }
        proof {
            assert(self.entries@.take(0) =~= Seq::<(String, Option<(u32, u32)>, Image)>::empty());
        }
        None
    }

    /// Drops every cached image.
    pub fn clear(&mut self)
        ensures
            final(self).wf(),
            forall|name: Seq<char>, size: Option<(u32, u32)>|
                #[trigger] final(self).spec_get(name, size) is None,
    {
        self.entries.clear();
    }
}

/// An exact copy of the image.
pub fn clone_image(image: &Image) -> (r: Image)
    requires
        image.wf(),
    ensures
        r.wf(),
        r@ == image@,
{
    let n = image.pixels.len();
    let mut pixels: Vec<Pixel> = Vec::new();
    let mut i: usize = 0;
    while i < n
        invariant
            i <= n,
            n == image.pixels@.len(),
            pixels@ == image.pixels@.take(i as int),
        decreases n - i,
    {
        pixels.push(image.pixels[i]);
        proof {
            assert(pixels@ =~= image.pixels@.take(i + 1));
        }
        i += 1;
    }
    proof {
        assert(pixels@ =~= image.pixels@);
    }
    let r = Image { width: image.width, height: image.height, pixels };
    r
}

/// Floor division by a positive divisor.
pub fn div_floor(a: i64, b: i64) -> (q: i64)
    requires
        0 < b < 100000000,
        -4611686018427387904 < a < 4611686018427387904,
    ensures
        q == a as int / b as int,
{
    if a >= 0 {
        a / b
    } else {
        let na = -a;
        let q = (na + b - 1) / b;
        proof {
            vstd::arithmetic::div_mod::lemma_fundamental_div_mod(na as int + b - 1, b as int);
            assert(0 <= a + b * q < b);
            assert(-(q as int) * (b as int) + (a + (b as int) * (q as int)) == a)
                by (nonlinear_arith);
            vstd::arithmetic::div_mod::lemma_fundamental_div_mod_converse(
                a as int,
                b as int,
                -(q as int),
                a + b * q,
            );
        }
        -q
    }
}

/// Scale factor of sub-pixel source coordinates: 1/65536 of a pixel.
pub open spec fn sample_scale() -> int {
    65536
}

/// Nearest-neighbor sample at source position `(sx, sy)` in 1/65536 pixel
/// units; positions outside the image sample fully transparent.
pub open spec fn spec_sample_nearest(img: ImgView, sx: int, sy: int) -> Pixel {
    let nx = (sx + 32768) / 65536;
    let ny = (sy + 32768) / 65536;
    if 0 <= nx < img.width && 0 <= ny < img.height {
        img.pixel(nx, ny)
    } else {
        spec_transparent()
    }
}

/// One channel of a bilinear mix of four sample values with fractional
/// weights `fx, fy` in `[0, 65536)`, rounded to nearest.
pub open spec fn spec_bilinear_channel(
    c00: int,
    c10: int,
    c01: int,
    c11: int,
    fx: int,
    fy: int,
) -> int {
    (c00 * (65536 - fx) * (65536 - fy) + c10 * fx * (65536 - fy) + c01 * (65536 - fx) * fy + c11
        * fx * fy + 2147483648) / 4294967296
}

/// The pixel at integer position `(x, y)`, or fully transparent outside
/// the image.
pub open spec fn spec_pixel_or_transparent(img: ImgView, x: int, y: int) -> Pixel {
    if img.in_bounds(x, y) {
        img.pixel(x, y)
    } else {
        spec_transparent()
    }
}

/// Bilinear sample at source position `(sx, sy)` in 1/65536 pixel units;
/// neighbors outside the image are fully transparent.
pub open spec fn spec_sample_bilinear(img: ImgView, sx: int, sy: int) -> Pixel {
    let x0 = sx / 65536;
    let y0 = sy / 65536;
    let fx = sx - 65536 * x0;
    let fy = sy - 65536 * y0;
    let c00 = spec_pixel_or_transparent(img, x0, y0);
    let c10 = spec_pixel_or_transparent(img, x0 + 1, y0);
    let c01 = spec_pixel_or_transparent(img, x0, y0 + 1);
    let c11 = spec_pixel_or_transparent(img, x0 + 1, y0 + 1);
    Pixel {
        r: spec_bilinear_channel(
            c00.r as int,
            c10.r as int,
            c01.r as int,
            c11.r as int,
            fx,
            fy,
        ) as u8,
        g: spec_bilinear_channel(
            c00.g as int,
            c10.g as int,
            c01.g as int,
            c11.g as int,
            fx,
            fy,
        ) as u8,
        b: spec_bilinear_channel(
            c00.b as int,
            c10.b as int,
            c01.b as int,
            c11.b as int,
            fx,
            fy,
        ) as u8,
        a: spec_bilinear_channel(
            c00.a as int,
            c10.a as int,
            c01.a as int,
            c11.a as int,
            fx,
            fy,
        ) as u8,
    }
}

/// Source position shown at destination pixel `(x, y)` after a clockwise
/// rotation by `angle_mdeg` about the image center, in 1/65536 pixel units.
pub open spec fn spec_rotated_source(img: ImgView, x: int, y: int, angle_mdeg: int) -> (int, int) {
    let c = spec_cos_mdeg(angle_mdeg);
    let s = spec_sin_mdeg(angle_mdeg);
    let dx2 = 2 * x - img.width;
    let dy2 = 2 * y - img.height;
    (c * dx2 + s * dy2 + 32768 * img.width, -s * dx2 + c * dy2 + 32768 * img.height)
}

/// One destination pixel of the rotation about the center.
pub open spec fn spec_rotate_sample(
    img: ImgView,
    x: int,
    y: int,
    angle_mdeg: int,
    quality: RotationQuality,
) -> Pixel {
    let (sx, sy) = spec_rotated_source(img, x, y, angle_mdeg);
    match quality {
        RotationQuality::Fast => spec_sample_nearest(img, sx, sy),
        _ => spec_sample_bilinear(img, sx, sy),
    }
}

/// The view of a rotation about the image center, with transparent fill
/// for positions that fall outside the source.
pub open spec fn spec_rotate_about_center(
    img: ImgView,
    angle_mdeg: int,
    quality: RotationQuality,
) -> ImgView {
    grid(
        img.width,
        img.height,
        |x: int, y: int| spec_rotate_sample(img, x, y, angle_mdeg, quality),
    )
}

fn bilinear_channel(c00: u8, c10: u8, c01: u8, c11: u8, fx: i64, fy: i64) -> (r: u8)
    requires
        0 <= fx < 65536,
        0 <= fy < 65536,
    ensures
        r as int == spec_bilinear_channel(
            c00 as int,
            c10 as int,
            c01 as int,
            c11 as int,
            fx as int,
            fy as int,
        ),
{
    let gx = 65536 - fx;
    let gy = 65536 - fy;
    proof {
        assert(0 <= (c00 as int) * gx <= 255 * 65536 && 0 <= (c10 as int) * fx <= 255 * 65536 && 0
            <= (c01 as int) * gx <= 255 * 65536 && 0 <= (c11 as int) * fx <= 255 * 65536 && 0 <= (
        c00 as int) * gx * gy <= 255 * 65536 * 65536 && 0 <= (c10 as int) * fx * gy <= 255 * 65536
            * 65536 && 0 <= (c01 as int) * gx * fy <= 255 * 65536 * 65536 && 0 <= (c11 as int) * fx
            * fy <= 255 * 65536 * 65536) by (nonlinear_arith)
            requires
                0 <= fx < 65536,
                0 <= fy < 65536,
                gx == 65536 - fx,
                gy == 65536 - fy,
                0 <= c00 < 256,
                0 <= c10 < 256,
                0 <= c01 < 256,
                0 <= c11 < 256,
        ;
        assert((c00 as int) * gx * gy + (c10 as int) * fx * gy + (c01 as int) * gx * fy + (
        c11 as int) * fx * fy <= 255 * 65536 * 65536) by (nonlinear_arith)
            requires
                0 <= fx < 65536,
                0 <= fy < 65536,
                gx == 65536 - fx,
                gy == 65536 - fy,
                0 <= c00 < 256,
                0 <= c10 < 256,
                0 <= c01 < 256,
                0 <= c11 < 256,
        ;
    }
    let num = (c00 as i64) * gx * gy + (c10 as i64) * fx * gy + (c01 as i64) * gx * fy + (
    c11 as i64) * fx * fy + 2147483648;
    proof {
        assert(num / 4294967296 < 256 && num / 4294967296 >= 0) by (nonlinear_arith)
            requires
                0 <= num <= 255 * 65536 * 65536 + 2147483648,
        ;
    }
    (num / 4294967296) as u8
}

fn sample_bilinear(image: &Image, sx: i64, sy: i64) -> (p: Pixel)
    requires
        image.wf(),
        -1000000000000 <= sx <= 1000000000000,
        -1000000000000 <= sy <= 1000000000000,
    ensures
        p == spec_sample_bilinear(image@, sx as int, sy as int),
{
    let x0 = div_floor(sx, 65536);
    let y0 = div_floor(sy, 65536);
    let fx = sx - 65536 * x0;
    let fy = sy - 65536 * y0;
    proof {
        vstd::arithmetic::div_mod::lemma_fundamental_div_mod(sx as int, 65536);
        vstd::arithmetic::div_mod::lemma_fundamental_div_mod(sy as int, 65536);
    }
    let w = image.width() as i64;
    let h = image.height() as i64;
    let c00 = if 0 <= x0 && x0 < w && 0 <= y0 && y0 < h {
        image.px(x0 as u32, y0 as u32)
    } else {
        Pixel::transparent()
    };
    let c10 = if 0 <= x0 + 1 && x0 + 1 < w && 0 <= y0 && y0 < h {
        image.px((x0 + 1) as u32, y0 as u32)
    } else {
        Pixel::transparent()
    };
    let c01 = if 0 <= x0 && x0 < w && 0 <= y0 + 1 && y0 + 1 < h {
        image.px(x0 as u32, (y0 + 1) as u32)
    } else {
        Pixel::transparent()
    };
    let c11 = if 0 <= x0 + 1 && x0 + 1 < w && 0 <= y0 + 1 && y0 + 1 < h {
        image.px((x0 + 1) as u32, (y0 + 1) as u32)
    } else {
        Pixel::transparent()
    };
    Pixel {
        r: bilinear_channel(c00.r, c10.r, c01.r, c11.r, fx, fy),
        g: bilinear_channel(c00.g, c10.g, c01.g, c11.g, fx, fy),
        b: bilinear_channel(c00.b, c10.b, c01.b, c11.b, fx, fy),
        a: bilinear_channel(c00.a, c10.a, c01.a, c11.a, fx, fy),
    }
}

fn sample_nearest(image: &Image, sx: i64, sy: i64) -> (p: Pixel)
    requires
        image.wf(),
        -1000000000000 <= sx <= 1000000000000,
        -1000000000000 <= sy <= 1000000000000,
    ensures
        p == spec_sample_nearest(image@, sx as int, sy as int),
{
    let nx = div_floor(sx + 32768, 65536);
    let ny = div_floor(sy + 32768, 65536);
    let w = image.width() as i64;
    let h = image.height() as i64;
    if 0 <= nx && nx < w && 0 <= ny && ny < h {
        image.px(nx as u32, ny as u32)
    } else {
        Pixel::transparent()
    }
}

/// Rotates the image clockwise about its center by the given angle,
/// keeping the original dimensions; positions that fall outside the source
/// are filled fully transparent.
pub fn rotate_about_center(image: &Image, angle_degrees: i32, quality: RotationQuality) -> (r:
    Image)
    requires
        image.wf(),
        image@.width <= 1000000,
        image@.height <= 1000000,
    ensures
        r.wf(),
        r@ == spec_rotate_about_center(image@, 1000 * angle_degrees as int, quality),
{
    let w = image.width();
    let h = image.height();
    let n = image.pixels.len();
    let mdeg = (angle_degrees as i64) * 1000;
    let cs = cos_mdeg(mdeg);
    let sn = sin_mdeg(mdeg);
    let mut out = Image::new(w, h);
    let ghost target = spec_rotate_about_center(image@, mdeg as int, quality);
    proof {
        assert(target.wf());
        assert(target.width == w && target.height == h);
    }
    let mut y: u32 = 0;
    while y < h
        invariant
            image.wf(),
            out.wf(),
            w == image@.width,
            h == image@.height,
            w <= 1000000,
            h <= 1000000,
            out@.width == w,
            out@.height == h,
            0 <= y <= h,
            mdeg == 1000 * angle_degrees as int,
            -3000000000000 <= mdeg <= 3000000000000,
            cs == spec_cos_mdeg(mdeg as int),
            sn == spec_sin_mdeg(mdeg as int),
            -32768 <= cs <= 32768,
            -32768 <= sn <= 32768,
            target == spec_rotate_about_center(image@, mdeg as int, quality),
            forall|u: int, v: int|
                0 <= u < w && 0 <= v < y ==> out@.pixel(u, v) == spec_rotate_sample(
                    image@,
                    u,
                    v,
                    mdeg as int,
                    quality,
                ),
        decreases h - y,
    {
        let mut x: u32 = 0;
        while x < w
            invariant
                image.wf(),
                out.wf(),
                w == image@.width,
                h == image@.height,
                w <= 1000000,
                h <= 1000000,
                out@.width == w,
                out@.height == h,
                0 <= y < h,
                0 <= x <= w,
                -3000000000000 <= mdeg <= 3000000000000,
                cs == spec_cos_mdeg(mdeg as int),
                sn == spec_sin_mdeg(mdeg as int),
                -32768 <= cs <= 32768,
                -32768 <= sn <= 32768,
                forall|u: int, v: int|
                    0 <= u < w && 0 <= v < y ==> out@.pixel(u, v) == spec_rotate_sample(
                        image@,
                        u,
                        v,
                        mdeg as int,
                        quality,
                    ),
                forall|u: int|
                    0 <= u < x ==> out@.pixel(u, y as int) == spec_rotate_sample(
                        image@,
                        u,
                        y as int,
                        mdeg as int,
                        quality,
                    ),
            decreases w - x,
        {
            let dx2 = 2 * (x as i64) - w as i64;
            let dy2 = 2 * (y as i64) - h as i64;
            proof {
                assert(-65536000000 <= cs as int * dx2 as int <= 65536000000 && -65536000000
                    <= sn as int * dx2 as int <= 65536000000 && -65536000000 <= cs as int
                    * dy2 as int <= 65536000000 && -65536000000 <= sn as int * dy2 as int
                    <= 65536000000) by (nonlinear_arith)
                    requires
                        -32768 <= cs <= 32768,
                        -32768 <= sn <= 32768,
                        -2000000 <= dx2 <= 2000000,
                        -2000000 <= dy2 <= 2000000,
                ;
            }
            let sx = cs * dx2 + sn * dy2 + 32768 * (w as i64);
            let sy = 32768 * (h as i64) + cs * dy2 - sn * dx2;
            let p = match quality {
                RotationQuality::Fast => sample_nearest(image, sx, sy),
                _ => sample_bilinear(image, sx, sy),
            };
            proof {
                assert((-(sn as int)) * (dx2 as int) == -((sn as int) * (dx2 as int)))
                    by (nonlinear_arith);
                assert((sx as int, sy as int) == spec_rotated_source(
                    image@,
                    x as int,
                    y as int,
                    mdeg as int,
                ));
                assert(p == spec_rotate_sample(image@, x as int, y as int, mdeg as int, quality));
            }
            out.set_px(x, y, p);
            x += 1;
        }
        y += 1;
    }
    proof {
        assert forall|u: int, v: int| out@.in_bounds(u, v) implies out@.pixel(u, v)
            == target.pixel(u, v) by {
            lemma_grid_pixel(
                image@.width,
                image@.height,
                |px: int, py: int| spec_rotate_sample(image@, px, py, mdeg as int, quality),
                u,
                v,
            );
        }
        lemma_view_ext(out@, target);
    }
    out
}

/// The view of the rotation that `rotate_image` applies for a given angle
/// in degrees: exact quarter- and half-turn rotations, the identity for 0,
/// and the bilinear rotation about the center otherwise.
pub open spec fn spec_rotate_image(img: ImgView, angle_degrees: int) -> ImgView {
    if angle_degrees == 0 {
        img
    } else if angle_degrees == 90 {
        spec_rotate_90(img, true)
    } else if angle_degrees == 270 {
        spec_rotate_90(img, false)
    } else if angle_degrees == 180 {
        spec_rotate_180(img)
    } else {
        spec_rotate_about_center(img, 1000 * angle_degrees, RotationQuality::Good)
    }
}

/// Rotates an image by the given angle in degrees: quarter and half turns
/// are exact pixel transpositions, everything else is sampled bilinearly.
pub fn rotate_image(image: &Image, angle_degrees: i32) -> (r: Image)
    requires
        image.wf(),
        image@.width <= 1000000,
        image@.height <= 1000000,
    ensures
        r.wf(),
        r@ == spec_rotate_image(image@, angle_degrees as int),
{
    if angle_degrees == 0 {
        clone_image(image)
    } else if angle_degrees == 90 {
        rotate_90_degrees(image, true)
    } else if angle_degrees == 270 {
        rotate_90_degrees(image, false)
    } else if angle_degrees == 180 {
        rotate_180_degrees(image)
    } else {
        rotate_about_center(image, angle_degrees, RotationQuality::Good)
    }
}

} // verus!
