use crate::error::PreprocessError;
use crate::gray::{Image, WHITE};
use vstd::prelude::*;

verus! {

/// What `image::imageops::resize` with the Lanczos3 filter returns for a
/// `src` buffer of `sw` by `sh` samples scaled to `nw` by `nh`: a function
/// of the source samples and the four dimensions alone.
pub uninterp spec fn lanczos3_resized(src: Seq<u8>, sw: nat, sh: nat, nw: nat, nh: nat) -> Seq<u8>;

/// The ratio `num / den` rounded to the nearest integer, halves away from
/// zero, for `num >= 0` and `den > 0`.
pub open spec fn round_div(num: int, den: int) -> int {
    (2 * num + den) / (2 * den)
}

/// Whether content of `sw` by `sh` samples scaled into an interior of `mw`
/// by `mh` is bound by the width: the uniform scale factor is then `mw / sw`
/// rather than `mh / sh`.
pub open spec fn width_bound(sw: int, sh: int, mw: int, mh: int) -> bool {
    mw * sh <= mh * sw
}

/// The width of the scaled content: both dimensions are multiplied by the
/// one scale factor `min(mw / sw, mh / sh)` and rounded to nearest.
pub open spec fn scaled_width(sw: int, sh: int, mw: int, mh: int) -> int {
    if width_bound(sw, sh, mw, mh) {
        mw
    } else {
        round_div(sw * mh, sh)
    }
}

/// The height of the scaled content, under the same single scale factor.
pub open spec fn scaled_height(sw: int, sh: int, mw: int, mh: int) -> int {
    if width_bound(sw, sh, mw, mh) {
        round_div(sh * mw, sw)
    } else {
        mh
    }
}

/// The sample that the composed canvas holds at `(x, y)`: the scaled content
/// where `(x, y)` falls into the centered pasted region, background white
/// everywhere else.
pub open spec fn canvas_pixel(
    src: Seq<u8>,
    sw: int,
    sh: int,
    w: int,
    h: int,
    b: int,
    x: int,
    y: int,
) -> u8 {
    let mw = w - 2 * b;
    let mh = h - 2 * b;
    let nw = scaled_width(sw, sh, mw, mh);
    let nh = scaled_height(sw, sh, mw, mh);
    let ox = b + (mw - nw) / 2;
    let oy = b + (mh - nh) / 2;
    if nw > 0 && nh > 0 && ox <= x < ox + nw && oy <= y < oy + nh {
        lanczos3_resized(src, sw as nat, sh as nat, nw as nat, nh as nat)[(y - oy) * nw + (x - ox)]
    } else {
        WHITE
    }
}

/// `out` is the canvas of `w` by `h` samples that holds the content `src`
/// (of `sw` by `sh` samples) scaled and centered inside the border `b`.
pub open spec fn fits_on_canvas(
    src: Seq<u8>,
    sw: int,
    sh: int,
    w: int,
    h: int,
    b: int,
    out: Seq<u8>,
) -> bool {
    &&& out.len() == w * h
    &&& forall|x: int, y: int|
        0 <= x < w && 0 <= y < h ==> #[trigger] out[y * w + x] == canvas_pixel(
            src,
            sw,
            sh,
            w,
            h,
            b,
            x,
            y,
        )
}

/// Relies on `image::imageops::resize` with `FilterType::Lanczos3`: the
/// result is a buffer of exactly the requested dimensions whose samples are
/// computed from the source samples and the dimensions alone.
#[verifier::external_body]
fn resize_lanczos3(img: &Image, new_width: u32, new_height: u32) -> (r: Image)
    requires
        img.wf(),
        img.width > 0,
        img.height > 0,
        new_width > 0,
        new_height > 0,
    ensures
        r.width == new_width,
        r.height == new_height,
        r.pixels@.len() == new_width as int * new_height as int,
        r.pixels@ == lanczos3_resized(
            img.pixels@,
            img.width as nat,
            img.height as nat,
            new_width as nat,
            new_height as nat,
        ),
{
    let buf = image::GrayImage::from_raw(img.width, img.height, img.pixels.clone()).unwrap();
    let resized = image::imageops::resize(
        &buf,
        new_width,
        new_height,
        image::imageops::FilterType::Lanczos3,
    );
    let width = resized.width();
    let height = resized.height();
    Image { width, height, pixels: resized.into_raw() }
}

/// Rounding a ratio that is at most `bound` gives at most `bound`.
proof fn lemma_round_div_le(num: int, den: int, bound: int)
    requires
        den > 0,
        0 <= num,
        num <= bound * den,
    ensures
        0 <= round_div(num, den) <= bound,
{
    assert(0 <= (2 * num + den) / (2 * den) <= bound) by (nonlinear_arith)
        requires
            den > 0,
            0 <= num,
            num <= bound * den,
    ;
}

/// The scaled content never exceeds the interior region.
proof fn lemma_scaled_dims_fit(sw: int, sh: int, mw: int, mh: int)
    requires
        sw > 0,
        sh > 0,
        mw > 0,
        mh > 0,
    ensures
        0 <= scaled_width(sw, sh, mw, mh) <= mw,
        0 <= scaled_height(sw, sh, mw, mh) <= mh,
{
    if width_bound(sw, sh, mw, mh) {
        assert(0 <= sh * mw <= mh * sw) by (nonlinear_arith)
            requires
                mw * sh <= mh * sw,
                sh > 0,
                mw > 0,
        ;
        lemma_round_div_le(sh * mw, sw, mh);
    } else {
        assert(0 <= sw * mh <= mw * sh) by (nonlinear_arith)
            requires
                mw * sh > mh * sw,
                sw > 0,
                mh > 0,
        ;
        lemma_round_div_le(sw * mh, sh, mw);
    }
}

/// On a composed canvas every sample that is not background white lies in
/// the interior region: at least `b` samples away from each canvas edge.
/// The blank border is thus guaranteed around whatever content was pasted.
pub proof fn lemma_ink_stays_inside_border(
    src: Seq<u8>,
    sw: int,
    sh: int,
    w: int,
    h: int,
    b: int,
    out: Seq<u8>,
    x: int,
    y: int,
)
    requires
        fits_on_canvas(src, sw, sh, w, h, b, out),
        sw > 0,
        sh > 0,
        0 <= b,
        2 * b < w,
        2 * b < h,
        0 <= x < w,
        0 <= y < h,
        out[y * w + x] != WHITE,
    ensures
        b <= x < w - b,
        b <= y < h - b,
{
    let mw = w - 2 * b;
    let mh = h - 2 * b;
    let nw = scaled_width(sw, sh, mw, mh);
    let nh = scaled_height(sw, sh, mw, mh);
    let ox = b + (mw - nw) / 2;
    let oy = b + (mh - nh) / 2;
    assert(out[y * w + x] == canvas_pixel(src, sw, sh, w, h, b, x, y));
    assert(nw > 0 && nh > 0 && ox <= x < ox + nw && oy <= y < oy + nh);
    lemma_scaled_dims_fit(sw, sh, mw, mh);
    assert(b <= ox && ox + nw <= b + mw);
    assert(b <= oy && oy + nh <= b + mh);
}

/// Copies row `dy` of `src` into `canvas`, starting at column `ox` of row
/// `oy + dy`; every other sample of the canvas keeps its value.
fn paste_row(canvas: &mut Image, src: &Image, ox: u32, oy: u32, dy: u32)
    requires
        old(canvas).wf(),
        src.wf(),
        dy < src.height,
        ox as int + src.width as int <= old(canvas).width as int,
        oy as int + src.height as int <= old(canvas).height as int,
    ensures
        final(canvas).wf(),
        final(canvas).width == old(canvas).width,
        final(canvas).height == old(canvas).height,
        forall|x: int, y: int|
            old(canvas).in_bounds(x, y) ==> #[trigger] final(canvas).pix(x, y) == (if y == oy as int
                + dy as int && ox as int <= x < ox as int + src.width as int {
                src.pix(x - ox as int, dy as int)
            } else {
                old(canvas).pix(x, y)
            }),
{
    let mut dx: u32 = 0;
    while dx < src.width
        invariant
            canvas.wf(),
            src.wf(),
            canvas.width == old(canvas).width,
            canvas.height == old(canvas).height,
            dy < src.height,
            dx <= src.width,
            ox as int + src.width as int <= canvas.width as int,
            oy as int + src.height as int <= canvas.height as int,
            forall|x: int, y: int|
                old(canvas).in_bounds(x, y) ==> #[trigger] canvas.pix(x, y) == (if y == oy as int
                    + dy as int && ox as int <= x < ox as int + dx as int {
                    src.pix(x - ox as int, dy as int)
                } else {
                    old(canvas).pix(x, y)
                }),
        decreases src.width - dx,
    {
        let l = src.get(dx, dy);
        canvas.set(ox + dx, oy + dy, l);
        dx = dx + 1;
    }
}

/// Scales the image to fit the interior of a `width` by `height` canvas
/// while keeping its aspect ratio, and centers it there; the rest of the
/// canvas is background white.  A border of `2 * border` at or above either
/// canvas dimension leaves no interior, and an image with no extent cannot
/// be scaled: both are rejected as `InvalidDimensions`.
pub fn fit_into_canvas(img: &Image, width: u32, height: u32, border: u32) -> (r: Result<
    Image,
    PreprocessError,
>)
    requires
        img.wf(),
    ensures
        r is Err <==> (2 * border as int >= width as int || 2 * border as int >= height as int
            || img.width == 0 || img.height == 0),
        r is Err ==> r->Err_0 == PreprocessError::InvalidDimensions,
        r matches Ok(out) ==> {
            &&& out.wf()
            &&& out.width == width
            &&& out.height == height
            &&& fits_on_canvas(
                img.pixels@,
                img.width as int,
                img.height as int,
                width as int,
                height as int,
                border as int,
                out.pixels@,
            )
        },
{
    let iw = img.width;
    let ih = img.height;
    let bw2: u64 = 2 * (border as u64);
    if bw2 >= width as u64 || bw2 >= height as u64 || iw == 0 || ih == 0 {
        return Err(PreprocessError::InvalidDimensions);
    }
    let mw: u64 = width as u64 - bw2;
    let mh: u64 = height as u64 - bw2;
    let ghost sw = iw as int;
    let ghost sh = ih as int;
    let nw64: u64;
    let nh64: u64;
    proof {
        assert(((mw as int) * (ih as int) < 0x1_0000_0000_0000_0000) && ((mh as int) * (iw as int)
            < 0x1_0000_0000_0000_0000)) by (nonlinear_arith)
            requires
                0 <= (mw as int) < 0x1_0000_0000,
                0 <= (mh as int) < 0x1_0000_0000,
                0 <= (iw as int) < 0x1_0000_0000,
                0 <= (ih as int) < 0x1_0000_0000,
        ;
        assert(((iw as int) * (mh as int) < 0x1_0000_0000_0000_0000_0000_0000) && ((ih as int) * (
        mw as int) < 0x1_0000_0000_0000_0000_0000_0000)) by (nonlinear_arith)
            requires
                0 <= (mw as int) < 0x1_0000_0000_0000_0000,
                0 <= (mh as int) < 0x1_0000_0000_0000_0000,
                0 <= (iw as int) < 0x1_0000_0000,
                0 <= (ih as int) < 0x1_0000_0000,
        ;
    }
    if mw * (ih as u64) <= mh * (iw as u64) {
        let num: u128 = (ih as u128) * (mw as u128);
        let q: u128 = (2 * num + (iw as u128)) / (2 * (iw as u128));
        proof {
            assert(sh * (mw as int) <= (mh as int) * sw) by (nonlinear_arith)
                requires
                    (mw as int) * sh <= (mh as int) * sw,
            ;
            lemma_round_div_le(sh * (mw as int), sw, mh as int);
        }
        nw64 = mw;
        nh64 = q as u64;
    } else {
        let num: u128 = (iw as u128) * (mh as u128);
        let q: u128 = (2 * num + (ih as u128)) / (2 * (ih as u128));
        proof {
            assert(sw * (mh as int) <= (mw as int) * sh) by (nonlinear_arith)
                requires
                    (mw as int) * sh > (mh as int) * sw,
            ;
            lemma_round_div_le(sw * (mh as int), sh, mw as int);
        }
        nw64 = q as u64;
        nh64 = mh;
    }
    proof {
        assert(nw64 as int == scaled_width(sw, sh, mw as int, mh as int));
        assert(nh64 as int == scaled_height(sw, sh, mw as int, mh as int));
        assert(nw64 <= mw && nh64 <= mh);
    }
    let nw: u32 = nw64 as u32;
    let nh: u32 = nh64 as u32;
    let mut canvas = Image::new_filled(width, height, WHITE);
    if nw == 0 || nh == 0 {
        proof {
            let w = width as int;
            let h = height as int;
            let b = border as int;
            assert forall|x: int, y: int| 0 <= x < w && 0 <= y < h implies #[trigger] canvas.pixels@[y
                * w + x] == canvas_pixel(img.pixels@, sw, sh, w, h, b, x, y) by {
                assert(canvas.in_bounds(x, y));
                assert(canvas.pix(x, y) == canvas.pixels@[y * w + x]);
            }
        }
        return Ok(canvas);
    }
    let resized = resize_lanczos3(img, nw, nh);
    let ox64: u64 = border as u64 + (mw - nw64) / 2;
    let oy64: u64 = border as u64 + (mh - nh64) / 2;
    proof {
        assert(ox64 as int + nw64 as int <= width as int);
        assert(oy64 as int + nh64 as int <= height as int);
    }
    let ox: u32 = ox64 as u32;
    let oy: u32 = oy64 as u32;
    let mut dy: u32 = 0;
    while dy < nh
        invariant
            canvas.wf(),
            resized.wf(),
            canvas.width == width,
            canvas.height == height,
            resized.width == nw,
            resized.height == nh,
            dy <= nh,
            nw > 0,
            nh > 0,
            ox as int + nw as int <= width as int,
            oy as int + nh as int <= height as int,
            resized.pixels@ == lanczos3_resized(
                img.pixels@,
                img.width as nat,
                img.height as nat,
                nw as nat,
                nh as nat,
            ),
            forall|x: int, y: int|
                canvas.in_bounds(x, y) ==> #[trigger] canvas.pix(x, y) == (if ox as int <= x < ox
                    as int + nw as int && oy as int <= y < oy as int + dy as int {
                    resized.pix(x - ox as int, y - oy as int)
                } else {
                    WHITE
                }),
        decreases nh - dy,
    {
        paste_row(&mut canvas, &resized, ox, oy, dy);
        dy = dy + 1;
    }
    proof {
        let w = width as int;
        let h = height as int;
        let b = border as int;
        assert forall|x: int, y: int| 0 <= x < w && 0 <= y < h implies #[trigger] canvas.pixels@[y
            * w + x] == canvas_pixel(img.pixels@, sw, sh, w, h, b, x, y) by {
            assert(canvas.pix(x, y) == canvas.pixels@[y * w + x]);
        }
    }
    Ok(canvas)
}

} // verus!
