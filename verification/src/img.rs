//! The image placer's arithmetic and its trusted decoders: a base64
//! payload is trimmed and decoded, the raster bytes are read, and the
//! picture is fitted into the content column and half the terminal
//! height, preserving the aspect ratio within integer rounding. Bounds
//! and fitted sizes are in terminal cells; a cell is twice as tall as
//! it is wide, so a cell row stands for two pixel rows.

use vstd::prelude::*;
use vstd::arithmetic::div_mod::{
    lemma_div_is_ordered,
    lemma_div_multiples_vanish,
    lemma_fundamental_div_mod,
    lemma_mod_bound,
};
use vstd::arithmetic::mul::{lemma_mul_inequality, lemma_mul_is_commutative};
use crate::text::{trim_end_blank, trim_end_spec};

verus! {

/// The fitted size, in cells, of a `w` by `h` pixel picture inside a box
/// of `bw` cells by `bh` cell rows. A picture already inside the box is
/// not scaled; a larger one is scaled down to the tighter side.
pub open spec fn fit_cells(w: int, h: int, bw: int, bh: int) -> (int, int) {
    let bh2 = 2 * bh;
    if w <= bw && h <= bh2 {
        (w, if h / 2 + h % 2 < 1 {
            1
        } else {
            h / 2 + h % 2
        })
    } else if bw * h <= w * bh2 {
        (bw, if (h * bw / w) / 2 < 1 {
            1
        } else {
            (h * bw / w) / 2
        })
    } else {
        (if w * bh2 / h < 1 {
            1
        } else {
            w * bh2 / h
        }, bh)
    }
}

/// What the placer guarantees: a fitted picture is never wider than the
/// content column nor taller than half the terminal, a picture already
/// inside the box keeps its width, and on the side that was scaled the
/// aspect ratio is kept within integer rounding.
pub proof fn lemma_fit_cells_bounds(w: int, h: int, bw: int, bh: int)
    requires
        w >= 1,
        h >= 1,
        bw >= 1,
        bh >= 1,
    ensures
        1 <= fit_cells(w, h, bw, bh).0 <= bw,
        1 <= fit_cells(w, h, bw, bh).1 <= bh,
        w <= bw && h <= 2 * bh ==> fit_cells(w, h, bw, bh).0 == w,
        !(w <= bw && h <= 2 * bh) && bw * h <= w * (2 * bh) && h * bw / w >= 2 ==> {
            let rw = fit_cells(w, h, bw, bh).0;
            let rh = fit_cells(w, h, bw, bh).1;
            rw == bw && 0 <= h * rw - 2 * rh * w < 2 * w
        },
        !(w <= bw && h <= 2 * bh) && bw * h > w * (2 * bh) && w * (2 * bh) / h >= 1 ==> {
            let rw = fit_cells(w, h, bw, bh).0;
            let rh = fit_cells(w, h, bw, bh).1;
            rh == bh && 0 <= 2 * rh * w - rw * h < h
        },
{
    let bh2 = 2 * bh;
    if w <= bw && h <= bh2 {
        assert(h / 2 + h % 2 <= bh);
    } else if bw * h <= w * bh2 {
        let t = h * bw / w;
        lemma_mul_is_commutative(w, bh2);
        lemma_mul_is_commutative(bw, h);
        lemma_div_is_ordered(h * bw, bh2 * w, w);
        lemma_div_multiples_vanish(bh2, w);
        assert(t <= bh2);
        lemma_div_is_ordered(t, bh2, 2);
        lemma_div_multiples_vanish(bh, 2);
        assert(t / 2 <= bh);
        if t >= 2 {
            let rh = t / 2;
            lemma_div_is_ordered(2, t, 2);
            lemma_div_multiples_vanish(1, 2);
            assert(rh >= 1);
            lemma_fundamental_div_mod(h * bw, w);
            lemma_mod_bound(h * bw, w);
            let md = (h * bw) % w;
            lemma_fundamental_div_mod(t, 2);
            lemma_mod_bound(t, 2);
            let m2 = t % 2;
            assert(0 <= h * bw - 2 * rh * w < 2 * w) by (nonlinear_arith)
                requires
                    h * bw == w * t + md,
                    0 <= md < w,
                    t == 2 * rh + m2,
                    0 <= m2 < 2,
                    w >= 1,
            ;
        }
    } else {
        let rw = w * bh2 / h;
        lemma_mul_is_commutative(bw, h);
        lemma_div_is_ordered(w * bh2, bw * h, h);
        lemma_div_multiples_vanish(bw, h);
        assert(rw <= bw);
        if rw >= 1 {
            lemma_fundamental_div_mod(w * bh2, h);
            lemma_mod_bound(w * bh2, h);
            let md = (w * bh2) % h;
            assert(0 <= 2 * bh * w - rw * h < h) by (nonlinear_arith)
                requires
                    w * bh2 == h * rw + md,
                    0 <= md < h,
                    bh2 == 2 * bh,
                    h >= 1,
            ;
        } else {
            lemma_div_is_ordered(0, w * bh2, h);
        }
    }
}

/// Fit a picture of `w` by `h` pixels into `bound_w` cells by `bound_h`
/// cell rows, exactly as `fit_cells` says.
pub fn fit_within(w: u32, h: u32, bound_w: u32, bound_h: u32) -> (r: (u32, u32))
    requires
        w >= 1,
        h >= 1,
        bound_w >= 1,
        bound_h >= 1,
    ensures
        (r.0 as int, r.1 as int) == fit_cells(w as int, h as int, bound_w as int, bound_h as int),
{
    proof {
        lemma_fit_cells_bounds(w as int, h as int, bound_w as int, bound_h as int);
    }
    let wl = w as u128;
    let hl = h as u128;
    let bwl = bound_w as u128;
    let bh2l = 2 * (bound_h as u128);
    proof {
        assert((bwl as int) * (hl as int) <= 0xffff_ffff * 0xffff_ffff) by (nonlinear_arith)
            requires
                0 <= bwl <= 0xffff_ffff,
                0 <= hl <= 0xffff_ffff,
        ;
        assert((hl as int) * (bwl as int) <= 0xffff_ffff * 0xffff_ffff) by (nonlinear_arith)
            requires
                0 <= bwl <= 0xffff_ffff,
                0 <= hl <= 0xffff_ffff,
        ;
        assert((wl as int) * (bh2l as int) <= 0xffff_ffff * 0x1_ffff_fffe) by (nonlinear_arith)
            requires
                0 <= wl <= 0xffff_ffff,
                0 <= bh2l <= 0x1_ffff_fffe,
        ;
    }
    if w <= bound_w && hl <= bh2l {
        let half = h / 2 + h % 2;
        let rh = if half < 1 {
            1
        } else {
            half
        };
        (w, rh)
    } else if bwl * hl <= wl * bh2l {
        let t = hl * bwl / wl;
        let half = t / 2;
        proof {
            assert(t == (h as int) * (bound_w as int) / (w as int));
            assert(half <= bound_h);
        }
        let rh = if half < 1 {
            1u128
        } else {
            half
        };
        (bound_w, rh as u32)
    } else {
        let raw = wl * bh2l / hl;
        proof {
            assert(raw == (w as int) * (2 * (bound_h as int)) / (h as int));
            assert(raw <= bound_w);
        }
        let rw = if raw < 1 {
            1u128
        } else {
            raw
        };
        (rw as u32, bound_h)
    }
}

#[verifier::external_type_specification]
#[verifier::external_body]
pub struct ExDynamicImage(image::DynamicImage);

#[verifier::external_type_specification]
#[verifier::external_body]
pub struct ExImageError(image::ImageError);

#[verifier::external_type_specification]
#[verifier::external_body]
pub struct ExBase64DecodeError(base64::DecodeError);

/// What the standard base64 alphabet decodes a text to, if it is
/// well-formed; decoding is a function of the text alone.
pub uninterp spec fn b64_decoded(s: Seq<char>) -> Option<Seq<u8>>;

/// Relies on base64's `Engine::decode` with the standard engine: it
/// decodes well-formed padded base64 text and rejects anything else,
/// and its result depends on the text alone.
#[verifier::external_body]
fn base64_decode(s: &str) -> (r: Result<Vec<u8>, base64::DecodeError>)
    ensures
        r is Ok <==> b64_decoded(s@) is Some,
        r is Ok ==> r->Ok_0@ == b64_decoded(s@)->Some_0,
{
    base64::Engine::decode(&base64::engine::general_purpose::STANDARD, s.as_bytes())
}

/// The pixel size of the raster image that `bytes` decode to, if they
/// decode to one: decoding is a function of the bytes alone.
pub uninterp spec fn decoded_dims(bytes: Seq<u8>) -> Option<(u32, u32)>;

/// Relies on `image::load_from_memory` and `image::DynamicImage::width`
/// and `::height`: raster bytes decode to a picture of a fixed pixel
/// size, or they do not, as a function of the bytes alone; corrupt or
/// unsupported bytes are reported, never a crash.
#[verifier::external_body]
fn load_image_with_dims(bytes: &Vec<u8>) -> (r: Result<
    (image::DynamicImage, u32, u32),
    image::ImageError,
>)
    ensures
        r is Ok <==> decoded_dims(bytes@) is Some,
        r is Ok ==> (r->Ok_0.1, r->Ok_0.2) == decoded_dims(bytes@)->Some_0,
{
    match image::load_from_memory(bytes.as_slice()) {
        Ok(picture) => {
            let w = picture.width();
            let h = picture.height();
            Ok((picture, w, h))
        },
        Err(e) => Err(e),
    }
}

/// Why a display-data image could not be placed; the render recovers
/// from either with a visible marker line.
#[derive(Debug, PartialEq, Eq, Clone, Copy)]
pub enum ImageFault {
    NotBase64,
    NotAnImage,
}

/// A decoded picture with the cell size it is to be drawn at.
pub struct PlacedImage {
    pub picture: image::DynamicImage,
    pub width_cells: u32,
    pub height_cells: u32,
}

/// Decode a base64 raster payload and fit it inside `bound_w` cells by
/// `bound_h` cell rows. A payload that is not base64 after trimming, or
/// whose bytes are no usable raster image, is one recoverable fault,
/// each exactly when the decoders say so; a prepared image carries
/// exactly the fit of its decoded pixel size, so it fits the bounds and
/// keeps its aspect ratio as `lemma_fit_cells_bounds` states.
pub fn prepare_image(payload: &str, bound_w: u32, bound_h: u32) -> (r: Result<
    PlacedImage,
    ImageFault,
>)
    requires
        bound_w >= 1,
        bound_h >= 1,
    ensures
        ({
            let decoded = b64_decoded(trim_end_spec(payload@));
            match r {
                Result::Err(f) => (f == ImageFault::NotBase64 && decoded is None) || (f
                    == ImageFault::NotAnImage && decoded is Some && ({
                    let dims = decoded_dims(decoded->Some_0);
                    dims is None || dims->Some_0.0 == 0 || dims->Some_0.1 == 0
                })),
                Result::Ok(p) => decoded is Some && ({
                    let dims = decoded_dims(decoded->Some_0);
                    &&& dims is Some
                    &&& dims->Some_0.0 >= 1
                    &&& dims->Some_0.1 >= 1
                    &&& (p.width_cells as int, p.height_cells as int) == fit_cells(
                        dims->Some_0.0 as int,
                        dims->Some_0.1 as int,
                        bound_w as int,
                        bound_h as int,
                    )
                }),
            }
        }),
        r is Ok ==> 1 <= r->Ok_0.width_cells <= bound_w && 1 <= r->Ok_0.height_cells <= bound_h,
{
    let trimmed = trim_end_blank(payload);
    match base64_decode(trimmed.as_str()) {
        Result::Err(_) => Result::Err(ImageFault::NotBase64),
        Result::Ok(bytes) => match load_image_with_dims(&bytes) {
            Result::Err(_) => Result::Err(ImageFault::NotAnImage),
            Result::Ok((picture, w, h)) => {
                if w == 0 || h == 0 {
                    Result::Err(ImageFault::NotAnImage)
                } else {
                    let (fw, fh) = fit_within(w, h, bound_w, bound_h);
                    proof {
                        lemma_fit_cells_bounds(
                            w as int,
                            h as int,
                            bound_w as int,
                            bound_h as int,
                        );
                    }
                    Result::Ok(PlacedImage { picture, width_cells: fw, height_cells: fh })
                }
            },
        },
    }
}

} // verus!
