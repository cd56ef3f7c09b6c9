//! The shared image representation: a rectangular, row-major buffer of
//! 8-bit samples with one (grayscale), three (RGB) or four (RGBA) samples
//! per pixel.

use vstd::prelude::*;

use crate::arith::{lemma_pix_idx_bound, lemma_pix_idx_bound_all, lemma_pix_idx_lt, lemma_row_major_lt, pix_idx};

verus! {

/// One pixel, widened to four samples the way a grayscale or RGB pixel is
/// read out of a mixed-format image: a missing alpha reads as 255, a
/// grayscale value repeats over the three color channels.
#[derive(Clone, Copy, PartialEq, Eq, Structural, Debug)]
pub struct Pixel {
    pub r: u8,
    pub g: u8,
    pub b: u8,
    pub a: u8,
}

/// A rectangular pixel buffer.  The invariant `wf` ties the flat sample
/// vector to the dimensions; every filter requires and preserves it.
pub struct Image {
    pub width: usize,
    pub height: usize,
    pub channels: usize,
    pub data: Vec<u8>,
}

impl Image {
    pub open spec fn wf(self) -> bool {
        (self.channels == 1 || self.channels == 3 || self.channels == 4)
            && self.data.len() == self.width * self.height * self.channels
    }

    /// The sample at channel `c` of the pixel at `(x, y)`.
    pub open spec fn at(self, x: int, y: int, c: int) -> u8 {
        self.data@[pix_idx(self.width as int, self.channels as int, x, y, c)]
    }

    /// The pixel at `(x, y)`, widened to RGBA.
    pub open spec fn rgba_at(self, x: int, y: int) -> Pixel {
        if self.channels == 1 {
            Pixel { r: self.at(x, y, 0), g: self.at(x, y, 0), b: self.at(x, y, 0), a: 255u8 }
        } else if self.channels == 3 {
            Pixel { r: self.at(x, y, 0), g: self.at(x, y, 1), b: self.at(x, y, 2), a: 255u8 }
        } else {
            Pixel { r: self.at(x, y, 0), g: self.at(x, y, 1), b: self.at(x, y, 2), a: self.at(x, y, 3) }
        }
    }

    /// Two images agree in size and in every sample.
    pub open spec fn same_image(self, other: Image) -> bool {
        self.width == other.width && self.height == other.height && self.channels
            == other.channels && self.data@ == other.data@
    }

    /// A new all-zero image.
    pub fn new(width: usize, height: usize, channels: usize) -> (img: Image)
        requires
            channels == 1 || channels == 3 || channels == 4,
            width * height * channels <= usize::MAX,
        ensures
            img.wf(),
            img.width == width,
            img.height == height,
            img.channels == channels,
            forall|i: int| 0 <= i < img.data@.len() ==> img.data@[i] == 0u8,
    {
        let n: usize = width * height * channels;
        let mut data: Vec<u8> = Vec::new();
        let mut i: usize = 0;
        while i < n
            invariant
                i <= n,
                data@.len() == i,
                forall|j: int| 0 <= j < i ==> data@[j] == 0u8,
            decreases n - i,
        {
            data.push(0u8);
            i = i + 1;
        }
        Image { width, height, channels, data }
    }

    /// Read one sample.
    pub fn get(&self, x: usize, y: usize, c: usize) -> (v: u8)
        requires
            self.wf(),
            x < self.width,
            y < self.height,
            c < self.channels,
        ensures
            v == self.at(x as int, y as int, c as int),
    {
        proof {
            lemma_pix_idx_bound(
                self.width as int,
                self.height as int,
                self.channels as int,
                x as int,
                y as int,
                c as int,
            );
        }
        self.data[(y * self.width + x) * self.channels + c]
    }

    /// Read one pixel, widened to RGBA.
    pub fn get_rgba(&self, x: usize, y: usize) -> (p: Pixel)
        requires
            self.wf(),
            x < self.width,
            y < self.height,
        ensures
            p == self.rgba_at(x as int, y as int),
    {
        if self.channels == 1 {
            let v = self.get(x, y, 0);
            Pixel { r: v, g: v, b: v, a: 255 }
        } else if self.channels == 3 {
            Pixel { r: self.get(x, y, 0), g: self.get(x, y, 1), b: self.get(x, y, 2), a: 255 }
        } else {
            Pixel {
                r: self.get(x, y, 0),
                g: self.get(x, y, 1),
                b: self.get(x, y, 2),
                a: self.get(x, y, 3),
            }
        }
    }

    /// Overwrite one pixel's color samples: the RGB channels, and alpha
    /// only where the image carries it; every other pixel is untouched.
    pub fn put_rgba(&mut self, x: usize, y: usize, p: Pixel)
        requires
            old(self).wf(),
            x < old(self).width,
            y < old(self).height,
            old(self).channels == 3 || old(self).channels == 4,
        ensures
            final(self).wf(),
            final(self).width == old(self).width,
            final(self).height == old(self).height,
            final(self).channels == old(self).channels,
            final(self).rgba_at(x as int, y as int) == (if old(self).channels == 4 {
                p
            } else {
                Pixel { r: p.r, g: p.g, b: p.b, a: 255u8 }
            }),
            forall|xx: int, yy: int|
                0 <= xx < old(self).width && 0 <= yy < old(self).height && !(xx == x && yy == y)
                    ==> #[trigger] final(self).rgba_at(xx, yy) == old(self).rgba_at(xx, yy),
    {
        let ghost w = self.width as int;
        let ghost ch = self.channels as int;
        self.put(x, y, 0, p.r);
        self.put(x, y, 1, p.g);
        self.put(x, y, 2, p.b);
        if self.channels == 4 {
            self.put(x, y, 3, p.a);
        }
        proof {
            let h = self.height as int;
            crate::arith::lemma_pix_idx_bound(w, h, ch, x as int, y as int, 0);
            crate::arith::lemma_pix_idx_bound(w, h, ch, x as int, y as int, 1);
            crate::arith::lemma_pix_idx_bound(w, h, ch, x as int, y as int, 2);
            if ch == 4 {
                crate::arith::lemma_pix_idx_bound(w, h, ch, x as int, y as int, 3);
            }
            assert(self.at(x as int, y as int, 0) == p.r);
            assert(self.at(x as int, y as int, 1) == p.g);
            assert(self.at(x as int, y as int, 2) == p.b);
            assert forall|xx: int, yy: int|
                0 <= xx < self.width && 0 <= yy < self.height && !(xx == x && yy
                    == y) implies #[trigger] self.rgba_at(xx, yy) == old(self).rgba_at(xx, yy) by {
                crate::arith::lemma_pix_idx_bound_all(w, self.height as int, ch);
                crate::arith::lemma_pix_idx_ne(w, ch, xx, yy, 0, x as int, y as int, 0);
                crate::arith::lemma_pix_idx_ne(w, ch, xx, yy, 0, x as int, y as int, 1);
                crate::arith::lemma_pix_idx_ne(w, ch, xx, yy, 0, x as int, y as int, 2);
                crate::arith::lemma_pix_idx_ne(w, ch, xx, yy, 1, x as int, y as int, 0);
                crate::arith::lemma_pix_idx_ne(w, ch, xx, yy, 1, x as int, y as int, 1);
                crate::arith::lemma_pix_idx_ne(w, ch, xx, yy, 1, x as int, y as int, 2);
                crate::arith::lemma_pix_idx_ne(w, ch, xx, yy, 2, x as int, y as int, 0);
                crate::arith::lemma_pix_idx_ne(w, ch, xx, yy, 2, x as int, y as int, 1);
                crate::arith::lemma_pix_idx_ne(w, ch, xx, yy, 2, x as int, y as int, 2);
                if ch == 4 {
                    crate::arith::lemma_pix_idx_ne(w, ch, xx, yy, 0, x as int, y as int, 3);
                    crate::arith::lemma_pix_idx_ne(w, ch, xx, yy, 1, x as int, y as int, 3);
                    crate::arith::lemma_pix_idx_ne(w, ch, xx, yy, 2, x as int, y as int, 3);
                    crate::arith::lemma_pix_idx_ne(w, ch, xx, yy, 3, x as int, y as int, 0);
                    crate::arith::lemma_pix_idx_ne(w, ch, xx, yy, 3, x as int, y as int, 1);
                    crate::arith::lemma_pix_idx_ne(w, ch, xx, yy, 3, x as int, y as int, 2);
                    crate::arith::lemma_pix_idx_ne(w, ch, xx, yy, 3, x as int, y as int, 3);
                }
            }
        }
    }

    /// Overwrite one sample.
    pub fn put(&mut self, x: usize, y: usize, c: usize, v: u8)
        requires
            old(self).wf(),
            x < old(self).width,
            y < old(self).height,
            c < old(self).channels,
        ensures
            final(self).wf(),
            final(self).width == old(self).width,
            final(self).height == old(self).height,
            final(self).channels == old(self).channels,
            final(self).data@ == old(self).data@.update(
                pix_idx(
                    old(self).width as int,
                    old(self).channels as int,
                    x as int,
                    y as int,
                    c as int,
                ),
                v,
            ),
    {
        proof {
            lemma_pix_idx_bound(
                self.width as int,
                self.height as int,
                self.channels as int,
                x as int,
                y as int,
                c as int,
            );
        }
        let i: usize = (y * self.width + x) * self.channels + c;
        self.data.set(i, v);
    }
}

/// The pixel at `(x, y)` read directly out of a flat sample sequence,
/// widened to RGBA; the form `Image::rgba_at` takes for three- and
/// four-channel data.
pub open spec fn px_from_data(data: Seq<u8>, w: int, ch: int, x: int, y: int) -> Pixel {
    if ch == 4 {
        Pixel {
            r: data[pix_idx(w, ch, x, y, 0)],
            g: data[pix_idx(w, ch, x, y, 1)],
            b: data[pix_idx(w, ch, x, y, 2)],
            a: data[pix_idx(w, ch, x, y, 3)],
        }
    } else {
        Pixel {
            r: data[pix_idx(w, ch, x, y, 0)],
            g: data[pix_idx(w, ch, x, y, 1)],
            b: data[pix_idx(w, ch, x, y, 2)],
            a: 255u8,
        }
    }
}

/// `f` may return pixel `p` at coordinate `(x, y)`.
pub open spec fn may_yield<F: Fn(usize, usize) -> Pixel>(f: F, x: usize, y: usize, p: Pixel) -> bool {
    call_ensures(f, (x, y), p)
}

/// Every sample of `out` comes from the witness sequence `results`, whose
/// entry for `(x, y)` sits at row-major position `y * w + x` and is a pixel
/// that `f` may return there.  With an `f` whose postcondition pins its
/// result down, this pins every sample of `out`; the alpha sample is only
/// stored when the output carries four channels.
pub open spec fn mapped<F: Fn(usize, usize) -> Pixel>(
    f: F,
    w: usize,
    h: usize,
    out: Image,
    results: Seq<Pixel>,
) -> bool {
    forall|x: usize, y: usize|
        #![trigger results[y as int * w as int + x as int]]
        x < w && y < h ==> may_yield(f, x, y, results[y as int * w as int + x as int]) && out.at(
            x as int,
            y as int,
            0,
        ) == results[y as int * w as int + x as int].r && (out.channels >= 3 ==> out.at(
            x as int,
            y as int,
            1,
        ) == results[y as int * w as int + x as int].g && out.at(x as int, y as int, 2)
            == results[y as int * w as int + x as int].b) && (out.channels == 4 ==> out.at(
            x as int,
            y as int,
            3,
        ) == results[y as int * w as int + x as int].a)
}

/// Build a `width` by `height` image by asking `f` for each pixel in row
/// order.  The workhorse behind every pointwise filter.
pub fn map_coords<F: Fn(usize, usize) -> Pixel>(
    width: usize,
    height: usize,
    out_channels: usize,
    f: F,
) -> (out: (Image, Ghost<Seq<Pixel>>))
    requires
        out_channels == 1 || out_channels == 3 || out_channels == 4,
        width * height * out_channels <= usize::MAX,
        forall|x: usize, y: usize| x < width && y < height ==> #[trigger] call_requires(f, (x, y)),
    ensures
        out.0.wf(),
        out.0.width == width,
        out.0.height == height,
        out.0.channels == out_channels,
        out.1@.len() == width * height,
        mapped(f, width, height, out.0, out.1@),
{
    let mut data: Vec<u8> = Vec::new();
    let ghost mut results: Seq<Pixel> = Seq::empty();
    let mut y: usize = 0;
    while y < height
        invariant
            y <= height,
            out_channels == 1 || out_channels == 3 || out_channels == 4,
            width * height * out_channels <= usize::MAX,
            data@.len() == (y * width) * out_channels,
            results.len() == y * width,
            forall|xx: usize, yy: usize|
                xx < width && yy < height ==> #[trigger] call_requires(f, (xx, yy)),
            forall|xx: usize, yy: usize|
                #![trigger results[yy as int * width as int + xx as int]]
                xx < width && yy < y ==> may_yield(
                    f,
                    xx,
                    yy,
                    results[yy as int * width as int + xx as int],
                ) && data@[pix_idx(width as int, out_channels as int, xx as int, yy as int, 0)]
                    == results[yy as int * width as int + xx as int].r && (out_channels >= 3
                    ==> data@[pix_idx(width as int, out_channels as int, xx as int, yy as int, 1)]
                    == results[yy as int * width as int + xx as int].g && data@[pix_idx(
                    width as int,
                    out_channels as int,
                    xx as int,
                    yy as int,
                    2,
                )] == results[yy as int * width as int + xx as int].b) && (out_channels == 4
                    ==> data@[pix_idx(width as int, out_channels as int, xx as int, yy as int, 3)]
                    == results[yy as int * width as int + xx as int].a),
        decreases height - y,
    {
        let mut x: usize = 0;
        proof {
            assert((y * width + width) * out_channels <= (height * width) * out_channels && (height
                * width) * out_channels == width * height * out_channels) by (nonlinear_arith)
                requires
                    y < height,
                    width >= 0,
                    out_channels >= 0,
            ;
        }
        while x < width
            invariant
                x <= width,
                y < height,
                out_channels == 1 || out_channels == 3 || out_channels == 4,
                width * height * out_channels <= usize::MAX,
                data@.len() == (y * width + x) * out_channels,
                results.len() == y * width + x,
                (y * width + width) * out_channels <= width * height * out_channels,
                forall|xx: usize, yy: usize|
                    xx < width && yy < height ==> #[trigger] call_requires(f, (xx, yy)),
                forall|xx: usize, yy: usize|
                    #![trigger results[yy as int * width as int + xx as int]]
                    xx < width && (yy < y || (yy == y && xx < x)) ==> may_yield(
                        f,
                        xx,
                        yy,
                        results[yy as int * width as int + xx as int],
                    ) && data@[pix_idx(width as int, out_channels as int, xx as int, yy as int, 0)]
                        == results[yy as int * width as int + xx as int].r && (out_channels >= 3
                        ==> data@[pix_idx(
                        width as int,
                        out_channels as int,
                        xx as int,
                        yy as int,
                        1,
                    )] == results[yy as int * width as int + xx as int].g && data@[pix_idx(
                        width as int,
                        out_channels as int,
                        xx as int,
                        yy as int,
                        2,
                    )] == results[yy as int * width as int + xx as int].b) && (out_channels == 4
                        ==> data@[pix_idx(
                        width as int,
                        out_channels as int,
                        xx as int,
                        yy as int,
                        3,
                    )] == results[yy as int * width as int + xx as int].a),
            decreases width - x,
        {
            let p = f(x, y);
            proof {
                assert((y * width + x) * out_channels + out_channels == (y * width + (x + 1))
                    * out_channels && (y * width + (x + 1)) * out_channels <= (y * width + width)
                    * out_channels) by (nonlinear_arith)
                    requires
                        x < width,
                        out_channels >= 0,
                        y >= 0,
                        width >= 0,
                ;
            }
            let ghost data0 = data@;
            let ghost results0 = results;
            data.push(p.r);
            if out_channels >= 3 {
                data.push(p.g);
                data.push(p.b);
            }
            if out_channels == 4 {
                data.push(p.a);
            }
            proof {
                results = results.push(p);
                let xi = x as int;
                let yi = y as int;
                assert(data0.len() == pix_idx(width as int, out_channels as int, xi, yi, 0));
                assert(results0.len() == yi * (width as int) + xi);
                assert forall|xx: usize, yy: usize|
                    #![trigger results[yy as int * width as int + xx as int]]
                    xx < width && (yy < y || (yy == y && xx < x + 1)) implies may_yield(
                    f,
                    xx,
                    yy,
                    results[yy as int * width as int + xx as int],
                ) && data@[pix_idx(width as int, out_channels as int, xx as int, yy as int, 0)]
                    == results[yy as int * width as int + xx as int].r && (out_channels >= 3
                    ==> data@[pix_idx(width as int, out_channels as int, xx as int, yy as int, 1)]
                    == results[yy as int * width as int + xx as int].g && data@[pix_idx(
                    width as int,
                    out_channels as int,
                    xx as int,
                    yy as int,
                    2,
                )] == results[yy as int * width as int + xx as int].b) && (out_channels == 4
                    ==> data@[pix_idx(width as int, out_channels as int, xx as int, yy as int, 3)]
                    == results[yy as int * width as int + xx as int].a) by {
                    if yy == y && xx == x {
                        assert(results[yi * (width as int) + xi] == p);
                        assert(data@[pix_idx(width as int, out_channels as int, xi, yi, 0)] == p.r);
                        if out_channels >= 3 {
                            assert(data@[pix_idx(width as int, out_channels as int, xi, yi, 1)]
                                == p.g);
                            assert(data@[pix_idx(width as int, out_channels as int, xi, yi, 2)]
                                == p.b);
                        }
                        if out_channels == 4 {
                            assert(data@[pix_idx(width as int, out_channels as int, xi, yi, 3)]
                                == p.a);
                        }
                    } else {
                        lemma_row_major_lt(width as int, xx as int, yy as int, xi, yi);
                        lemma_pix_idx_lt(
                            width as int,
                            out_channels as int,
                            xx as int,
                            yy as int,
                            0,
                            xi,
                            yi,
                            0,
                        );
                        if out_channels >= 3 {
                            lemma_pix_idx_lt(
                                width as int,
                                out_channels as int,
                                xx as int,
                                yy as int,
                                1,
                                xi,
                                yi,
                                0,
                            );
                            lemma_pix_idx_lt(
                                width as int,
                                out_channels as int,
                                xx as int,
                                yy as int,
                                2,
                                xi,
                                yi,
                                0,
                            );
                        }
                        if out_channels == 4 {
                            lemma_pix_idx_lt(
                                width as int,
                                out_channels as int,
                                xx as int,
                                yy as int,
                                3,
                                xi,
                                yi,
                                0,
                            );
                        }
                        assert(results[yy as int * width as int + xx as int] == results0[yy as int
                            * width as int + xx as int]);
                    }
                }
            }
            x = x + 1;
        }
        proof {
            assert((y * width + width) * out_channels == ((y + 1) * width)
                * out_channels) by (nonlinear_arith);
        }
        y = y + 1;
    }
    proof {
        assert((height * width) * out_channels == width * height * out_channels) by (nonlinear_arith);
        assert(height * width == width * height) by (nonlinear_arith);
    }
    let out = Image { width, height, channels: out_channels, data };
    (out, Ghost(results))
}

} // verus!
