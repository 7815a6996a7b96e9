use crate::gray::Image;
use vstd::prelude::*;

verus! {

/// Samples strictly below this count as dark when classifying polarity.
pub const DARK_THRESHOLD: u8 = 128;

/// Samples strictly above this count as light when classifying polarity.
pub const LIGHT_THRESHOLD: u8 = 200;

pub open spec fn is_dark(l: u8) -> bool {
    l < DARK_THRESHOLD
}

pub open spec fn is_light(l: u8) -> bool {
    l > LIGHT_THRESHOLD
}

/// How many samples of `s` count as dark.
pub open spec fn count_dark(s: Seq<u8>) -> int
    decreases s.len(),
{
    if s.len() == 0 {
        0
    } else {
        count_dark(s.drop_last()) + if is_dark(s.last()) {
            1int
        } else {
            0int
        }
    }
}

/// How many samples of `s` count as light.
pub open spec fn count_light(s: Seq<u8>) -> int
    decreases s.len(),
{
    if s.len() == 0 {
        0
    } else {
        count_light(s.drop_last()) + if is_light(s.last()) {
            1int
        } else {
            0int
        }
    }
}

/// An image counts as inverted (light ink on a dark background) when its
/// dark samples outnumber twice its light samples.  Mid-band samples sway
/// the decision neither way, and a tie goes to normal polarity.
pub open spec fn classified_inverted(s: Seq<u8>) -> bool {
    count_dark(s) > 2 * count_light(s)
}

/// Every sample replaced by its complement: black becomes white.
pub open spec fn inverted_seq(s: Seq<u8>) -> Seq<u8> {
    s.map_values(|l: u8| (255 - l) as u8)
}

/// The image after polarity correction: inverted-classified images are
/// complemented, all others pass through unchanged.
pub open spec fn normalized_seq(s: Seq<u8>) -> Seq<u8> {
    if classified_inverted(s) {
        inverted_seq(s)
    } else {
        s
    }
}

/// Decides whether the image shows light ink on a dark background.
pub fn is_inverted(img: &Image) -> (r: bool)
    ensures
        r == classified_inverted(img.pixels@),
{
    let n: usize = img.pixels.len();
    let mut dark: usize = 0;
    let mut light: usize = 0;
    let mut i: usize = 0;
    while i < n
        invariant
            n == img.pixels@.len(),
            i <= n,
            dark <= i,
            light <= i,
            dark == count_dark(img.pixels@.take(i as int)),
            light == count_light(img.pixels@.take(i as int)),
        decreases n - i,
    {
        let l = img.pixels[i];
        proof {
            let t = img.pixels@.take(i + 1 as int);
            assert(t.drop_last() =~= img.pixels@.take(i as int));
            assert(t.last() == img.pixels@[i as int]);
        }
        if l < DARK_THRESHOLD {
            dark = dark + 1;
        } else if l > LIGHT_THRESHOLD {
            light = light + 1;
        }
        i = i + 1;
    }
    proof {
        assert(img.pixels@.take(n as int) =~= img.pixels@);
    }
    (dark as u128) > 2 * (light as u128)
}

/// A fresh copy of the image with every sample complemented.
pub fn invert_colors(img: &Image) -> (r: Image)
    ensures
        r.width == img.width,
        r.height == img.height,
        r.pixels@ == inverted_seq(img.pixels@),
{
    let n: usize = img.pixels.len();
    let mut pixels: Vec<u8> = Vec::new();
    let mut i: usize = 0;
    while i < n
        invariant
            n == img.pixels@.len(),
            i <= n,
            pixels@.len() == i,
            forall|j: int| 0 <= j < i ==> pixels@[j] == 255 - img.pixels@[j],
        decreases n - i,
    {
        let l = img.pixels[i];
        pixels.push(255 - l);
        i = i + 1;
    }
    proof {
        assert(pixels@ =~= inverted_seq(img.pixels@));
    }
    Image { width: img.width, height: img.height, pixels }
}

/// Brings the image to normal polarity: an inverted-classified image is
/// complemented, any other is returned unchanged.
pub fn normalize_polarity(img: Image) -> (r: Image)
    ensures
        r.width == img.width,
        r.height == img.height,
        r.pixels@ == normalized_seq(img.pixels@),
{
    if is_inverted(&img) {
        invert_colors(&img)
    } else {
        img
    }
}

/// Complementing every sample twice restores the original image exactly,
/// so the polarity correction can always be undone.
pub proof fn lemma_invert_involutive(s: Seq<u8>)
    ensures
        inverted_seq(inverted_seq(s)) == s,
{
    assert(inverted_seq(inverted_seq(s)) =~= s);
}

/// Correcting an inverted image twice in a row returns the original samples
/// exactly, as long as the once-corrected image still classifies as
/// inverted.  (When the correction brings the image to normal polarity, as
/// it usually does, the second pass is a no-op instead: an all-black image
/// is corrected to all white and stays there.)
pub proof fn lemma_normalize_twice_restores(s: Seq<u8>)
    requires
        classified_inverted(s),
        classified_inverted(inverted_seq(s)),
    ensures
        normalized_seq(normalized_seq(s)) == s,
{
    lemma_invert_involutive(s);
}

/// Polarity correction leaves an image of normal polarity untouched.
pub proof fn lemma_normalize_normal_noop(s: Seq<u8>)
    requires
        !classified_inverted(s),
    ensures
        normalized_seq(s) == s,
{
}

} // verus!
