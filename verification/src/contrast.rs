use crate::gray::{Image, WHITE};
use crate::polarity::LIGHT_THRESHOLD;
use vstd::prelude::*;

verus! {

/// The contrast rule for one sample: near-white samples are flattened to
/// pure white, everything else is darkened by halving.
pub open spec fn enhance_value(l: u8) -> u8 {
    if l > LIGHT_THRESHOLD {
        WHITE
    } else {
        l / 2
    }
}

/// The whole image under the contrast rule.
pub open spec fn enhanced_seq(s: Seq<u8>) -> Seq<u8> {
    s.map_values(|l: u8| enhance_value(l))
}

/// A fresh copy of the image with the contrast rule applied to every sample.
pub fn enhance_contrast(img: &Image) -> (r: Image)
    ensures
        r.width == img.width,
        r.height == img.height,
        r.pixels@ == enhanced_seq(img.pixels@),
{
    let n: usize = img.pixels.len();
    let mut pixels: Vec<u8> = Vec::new();
    let mut i: usize = 0;
    while i < n
        invariant
            n == img.pixels@.len(),
            i <= n,
            pixels@.len() == i,
            forall|j: int| 0 <= j < i ==> pixels@[j] == enhance_value(img.pixels@[j]),
        decreases n - i,
    {
        let l = img.pixels[i];
        if l > LIGHT_THRESHOLD {
            pixels.push(WHITE);
        } else {
            pixels.push(l / 2);
        }
        i = i + 1;
    }
    proof {
        assert(pixels@ =~= enhanced_seq(img.pixels@));
    }
    Image { width: img.width, height: img.height, pixels }
}

/// Samples above the light threshold and samples the halving sends to zero
/// are the fixed points of the contrast rule: on an image made only of such
/// samples, re-applying the enhancement to its own output changes nothing.
/// (A mid-tone sample keeps halving — 40 becomes 20 and then 10 — so the
/// enhancement is not idempotent on arbitrary images.)
pub proof fn lemma_enhance_idempotent_on_settled(s: Seq<u8>)
    requires
        forall|i: int| 0 <= i < s.len() ==> s[i] > LIGHT_THRESHOLD || s[i] <= 1,
    ensures
        enhanced_seq(enhanced_seq(s)) == enhanced_seq(s),
{
    assert(enhanced_seq(enhanced_seq(s)) =~= enhanced_seq(s));
}

} // verus!
