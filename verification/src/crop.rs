use crate::error::PreprocessError;
use crate::gray::{pix_at, Image};
use vstd::prelude::*;

verus! {

/// Samples strictly below this are content (ink); at or above it they are
/// background white.
pub const BACKGROUND_THRESHOLD: u8 = 250;

pub open spec fn is_content(l: u8) -> bool {
    l < BACKGROUND_THRESHOLD
}

/// Whether any sample of the buffer is a content sample.
pub open spec fn seq_has_content(s: Seq<u8>) -> bool {
    exists|i: int| 0 <= i < s.len() && is_content(s[i])
}

/// The inclusive pixel extent of the content of an image.
#[derive(Clone, Copy, Debug, PartialEq, Eq, Structural)]
pub struct BoundingBox {
    pub left: u32,
    pub top: u32,
    pub right: u32,
    pub bottom: u32,
}

/// `(left, top, right, bottom)` is the tight bounding box of the content of
/// a row-major buffer `s` of `w` by `h` samples: every content pixel lies
/// inside it, and each of its four edges touches a content pixel.
pub open spec fn is_tight_box(
    s: Seq<u8>,
    w: int,
    h: int,
    left: int,
    top: int,
    right: int,
    bottom: int,
) -> bool {
    &&& 0 <= left <= right < w
    &&& 0 <= top <= bottom < h
    &&& forall|x: int, y: int|
        0 <= x < w && 0 <= y < h && is_content(#[trigger] pix_at(s, w, x, y))
            ==> left <= x <= right && top <= y <= bottom
    &&& exists|y: int| top <= y <= bottom && is_content(#[trigger] pix_at(s, w, left, y))
    &&& exists|y: int| top <= y <= bottom && is_content(#[trigger] pix_at(s, w, right, y))
    &&& exists|x: int| left <= x <= right && is_content(#[trigger] pix_at(s, w, x, top))
    &&& exists|x: int| left <= x <= right && is_content(#[trigger] pix_at(s, w, x, bottom))
}

/// The rectangle of `s` (a row-major buffer `w` samples wide) that starts at
/// column `left` of row `top` and is `cw` samples wide and `ch` rows tall,
/// again in row-major order.
pub open spec fn sub_seq(s: Seq<u8>, w: int, left: int, top: int, cw: int, ch: int) -> Seq<u8> {
    Seq::new((cw * ch) as nat, |i: int| s[(top + i / cw) * w + (left + i % cw)])
}

/// The least and greatest content column of row `y`, if the row holds any
/// content at all.
fn row_content_range(img: &Image, y: u32) -> (r: Option<(u32, u32)>)
    requires
        img.wf(),
        y < img.height,
    ensures
        r is Some <==> exists|x: int|
            0 <= x < img.width as int && is_content(#[trigger] img.pix(x, y as int)),
        r matches Some((lo, hi)) ==> {
            &&& lo <= hi < img.width
            &&& is_content(img.pix(lo as int, y as int))
            &&& is_content(img.pix(hi as int, y as int))
            &&& forall|x: int|
                0 <= x < img.width as int && is_content(#[trigger] img.pix(x, y as int))
                    ==> lo as int <= x <= hi as int
        },
{
    let mut found = false;
    let mut lo: u32 = 0;
    let mut hi: u32 = 0;
    let mut x: u32 = 0;
    while x < img.width
        invariant
            img.wf(),
            y < img.height,
            x <= img.width,
            found <==> exists|px: int|
                0 <= px < x as int && is_content(#[trigger] img.pix(px, y as int)),
            found ==> {
                &&& lo <= hi < x
                &&& is_content(img.pix(lo as int, y as int))
                &&& is_content(img.pix(hi as int, y as int))
                &&& forall|px: int|
                    0 <= px < x as int && is_content(#[trigger] img.pix(px, y as int))
                        ==> lo as int <= px <= hi as int
            },
        decreases img.width - x,
    {
        let l = img.get(x, y);
        if l < BACKGROUND_THRESHOLD {
            if !found {
                found = true;
                lo = x;
                hi = x;
            } else {
                hi = x;
            }
        }
        x = x + 1;
    }
    if found {
        Some((lo, hi))
    } else {
        None
    }
}

/// Scans the image and returns the tight bounding box of its content, or
/// `None` when every sample is background.
pub fn find_content_box(img: &Image) -> (r: Option<BoundingBox>)
    requires
        img.wf(),
    ensures
        r is Some <==> seq_has_content(img.pixels@),
        r matches Some(b) ==> is_tight_box(
            img.pixels@,
            img.width as int,
            img.height as int,
            b.left as int,
            b.top as int,
            b.right as int,
            b.bottom as int,
        ),
{
    let mut found = false;
    let mut left: u32 = 0;
    let mut top: u32 = 0;
    let mut right: u32 = 0;
    let mut bottom: u32 = 0;
    let mut y: u32 = 0;
    while y < img.height
        invariant
            img.wf(),
            y <= img.height,
            found <==> exists|px: int, py: int|
                img.in_bounds(px, py) && py < y as int && is_content(#[trigger] img.pix(px, py)),
            found ==> {
                &&& left <= right < img.width
                &&& top <= bottom < y
                &&& forall|px: int, py: int|
                    img.in_bounds(px, py) && py < y as int && is_content(
                        #[trigger] img.pix(px, py),
                    ) ==> left as int <= px <= right as int && top as int <= py <= bottom as int
                &&& exists|py: int|
                    0 <= py < y as int && is_content(#[trigger] img.pix(left as int, py))
                &&& exists|py: int|
                    0 <= py < y as int && is_content(#[trigger] img.pix(right as int, py))
                &&& exists|px: int|
                    0 <= px < img.width as int && is_content(#[trigger] img.pix(px, top as int))
                &&& exists|px: int|
                    0 <= px < img.width as int && is_content(#[trigger] img.pix(px, bottom as int))
            },
        decreases img.height - y,
    {
        match row_content_range(img, y) {
            Some((lo, hi)) => {
                if !found {
                    found = true;
                    left = lo;
                    right = hi;
                    top = y;
                    bottom = y;
                } else {
                    if lo < left {
                        left = lo;
                    }
                    if hi > right {
                        right = hi;
                    }
                    bottom = y;
                }
            },
            None => {},
        }
        y = y + 1;
    }
    if found {
        proof {
            let s = img.pixels@;
            let w = img.width as int;
            let h = img.height as int;
            assert forall|px: int, py: int|
                0 <= px < w && 0 <= py < h && is_content(#[trigger] pix_at(s, w, px, py))
                    implies left as int <= px <= right as int && top as int <= py <= bottom
                as int by {
                assert(img.pix(px, py) == pix_at(s, w, px, py));
            }
            let pyl = choose|py: int|
                0 <= py < h && is_content(#[trigger] img.pix(left as int, py));
            assert(is_content(pix_at(s, w, left as int, pyl)));
            let pyr = choose|py: int|
                0 <= py < h && is_content(#[trigger] img.pix(right as int, py));
            assert(is_content(pix_at(s, w, right as int, pyr)));
            let pxt = choose|px: int| 0 <= px < w && is_content(#[trigger] img.pix(px, top as int));
            assert(is_content(pix_at(s, w, pxt, top as int)));
            let pxb = choose|px: int|
                0 <= px < w && is_content(#[trigger] img.pix(px, bottom as int));
            assert(is_content(pix_at(s, w, pxb, bottom as int)));
            lemma_box_is_tight(
                img.pixels@,
                img.width as int,
                img.height as int,
                left as int,
                top as int,
                right as int,
                bottom as int,
            );
            let (px, py) = choose|px: int, py: int|
                img.in_bounds(px, py) && py < img.height as int && is_content(
                    #[trigger] img.pix(px, py),
                );
            crate::gray::lemma_row_major_bound(px, py, img.width as int, img.height as int);
            assert(is_content(img.pixels@[py * img.width as int + px]));
        }
        Some(BoundingBox { left, top, right, bottom })
    } else {
        proof {
            let w = img.width as int;
            let h = img.height as int;
            assert forall|i: int| 0 <= i < img.pixels@.len() implies !is_content(
                img.pixels@[i],
            ) by {
                assert(w > 0 && h > 0) by (nonlinear_arith)
                    requires
                        0 <= i,
                        i < w * h,
                        w >= 0,
                        h >= 0,
                ;
                let px = i % w;
                let py = i / w;
                vstd::arithmetic::div_mod::lemma_fundamental_div_mod(i, w);
                assert(0 <= px < w && 0 <= py < h) by (nonlinear_arith)
                    requires
                        w > 0,
                        h > 0,
                        0 <= i < w * h,
                        px == i % w,
                        py == i / w,
                ;
                assert(img.pixels@[i] == img.pix(px, py));
            }
        }
        None
    }
}

/// After the scan of the whole image, the tracked extremes and the four edge
/// witnesses make the box tight.
proof fn lemma_box_is_tight(s: Seq<u8>, w: int, h: int, left: int, top: int, right: int, bottom: int)
    requires
        0 <= left <= right < w,
        0 <= top <= bottom < h,
        forall|px: int, py: int|
            0 <= px < w && 0 <= py < h && is_content(#[trigger] pix_at(s, w, px, py))
                ==> left <= px <= right && top <= py <= bottom,
        exists|py: int| 0 <= py < h && is_content(#[trigger] pix_at(s, w, left, py)),
        exists|py: int| 0 <= py < h && is_content(#[trigger] pix_at(s, w, right, py)),
        exists|px: int| 0 <= px < w && is_content(#[trigger] pix_at(s, w, px, top)),
        exists|px: int| 0 <= px < w && is_content(#[trigger] pix_at(s, w, px, bottom)),
    ensures
        is_tight_box(s, w, h, left, top, right, bottom),
{
    let py1 = choose|py: int| 0 <= py < h && is_content(#[trigger] pix_at(s, w, left, py));
    assert(top <= py1 <= bottom);
    let py2 = choose|py: int| 0 <= py < h && is_content(#[trigger] pix_at(s, w, right, py));
    assert(top <= py2 <= bottom);
    let px1 = choose|px: int| 0 <= px < w && is_content(#[trigger] pix_at(s, w, px, top));
    assert(left <= px1 <= right);
    let px2 = choose|px: int| 0 <= px < w && is_content(#[trigger] pix_at(s, w, px, bottom));
    assert(left <= px2 <= right);
}

/// Copies the rectangle described by `b` out of `img` into a fresh image.
pub fn extract_box(img: &Image, b: BoundingBox) -> (out: Image)
    requires
        img.wf(),
        b.left <= b.right < img.width,
        b.top <= b.bottom < img.height,
    ensures
        out.wf(),
        out.width as int == b.right as int - b.left as int + 1,
        out.height as int == b.bottom as int - b.top as int + 1,
        out.pixels@ == sub_seq(
            img.pixels@,
            img.width as int,
            b.left as int,
            b.top as int,
            b.right as int - b.left as int + 1,
            b.bottom as int - b.top as int + 1,
        ),
        forall|x: int, y: int|
            #![trigger out.pix(x, y)]
            out.in_bounds(x, y) ==> out.pix(x, y) == img.pix(b.left as int + x, b.top as int + y),
{
    let cw: u32 = b.right - b.left + 1;
    let ch: u32 = b.bottom - b.top + 1;
    let mut pixels: Vec<u8> = Vec::new();
    let mut dy: u32 = 0;
    while dy < ch
        invariant
            img.wf(),
            b.left <= b.right < img.width,
            b.top <= b.bottom < img.height,
            cw == b.right - b.left + 1,
            ch == b.bottom - b.top + 1,
            dy <= ch,
            pixels@.len() == dy as int * cw as int,
            forall|j: int|
                0 <= j < pixels@.len() ==> #[trigger] pixels@[j] == img.pix(
                    b.left as int + j % cw as int,
                    b.top as int + j / cw as int,
                ),
        decreases ch - dy,
    {
        let mut dx: u32 = 0;
        while dx < cw
            invariant
                img.wf(),
                b.left <= b.right < img.width,
                b.top <= b.bottom < img.height,
                cw == b.right - b.left + 1,
                ch == b.bottom - b.top + 1,
                dy < ch,
                dx <= cw,
                pixels@.len() == dy as int * cw as int + dx as int,
                forall|j: int|
                    0 <= j < pixels@.len() ==> #[trigger] pixels@[j] == img.pix(
                        b.left as int + j % cw as int,
                        b.top as int + j / cw as int,
                    ),
            decreases cw - dx,
        {
            let l = img.get(b.left + dx, b.top + dy);
            pixels.push(l);
            proof {
                let j = dy as int * cw as int + dx as int;
                vstd::arithmetic::div_mod::lemma_fundamental_div_mod_converse(
                    j,
                    cw as int,
                    dy as int,
                    dx as int,
                );
            }
            dx = dx + 1;
        }
        dy = dy + 1;
        proof {
            assert((dy - 1) as int * cw as int + cw as int == dy as int * cw as int)
                by (nonlinear_arith);
        }
    }
    let out = Image { width: cw, height: ch, pixels };
    proof {
        assert(ch as int * cw as int == cw as int * ch as int) by (nonlinear_arith);
        assert(out.pixels@ =~= sub_seq(
            img.pixels@,
            img.width as int,
            b.left as int,
            b.top as int,
            cw as int,
            ch as int,
        ));
        assert forall|x: int, y: int| out.in_bounds(x, y) implies #[trigger] out.pix(x, y)
            == img.pix(b.left as int + x, b.top as int + y) by {
            let j = y * cw as int + x;
            vstd::arithmetic::div_mod::lemma_fundamental_div_mod_converse(j, cw as int, y, x);
            crate::gray::lemma_row_major_bound(x, y, cw as int, ch as int);
        }
    }
    out
}

/// Crops the image to the tight bounding box of its content.  A blank image
/// (no sample below the background threshold) has no such box and is
/// rejected as `EmptyContent`.
pub fn crop_white_borders(img: &Image) -> (r: Result<Image, PreprocessError>)
    requires
        img.wf(),
    ensures
        r is Ok <==> seq_has_content(img.pixels@),
        r is Err ==> r->Err_0 == PreprocessError::EmptyContent,
        r matches Ok(out) ==> {
            &&& out.wf()
            &&& exists|l: int, t: int, rt: int, bt: int|
                {
                    &&& #[trigger] is_tight_box(
                        img.pixels@,
                        img.width as int,
                        img.height as int,
                        l,
                        t,
                        rt,
                        bt,
                    )
                    &&& out.width as int == rt - l + 1
                    &&& out.height as int == bt - t + 1
                    &&& out.pixels@ == sub_seq(
                        img.pixels@,
                        img.width as int,
                        l,
                        t,
                        rt - l + 1,
                        bt - t + 1,
                    )
                }
        },
{
    match find_content_box(img) {
        Some(b) => {
            let out = extract_box(img, b);
            proof {
                let l = b.left as int;
                let t = b.top as int;
                let rt = b.right as int;
                let bt = b.bottom as int;
                assert(is_tight_box(img.pixels@, img.width as int, img.height as int, l, t, rt, bt));
            }
            Ok(out)
        },
        None => Err(PreprocessError::EmptyContent),
    }
}

} // verus!
