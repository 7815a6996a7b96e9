use crate::canvas::{fit_into_canvas, fits_on_canvas};
use crate::config::ImageProcessorConfig;
use crate::contrast::{enhance_contrast, enhanced_seq};
use crate::crop::{crop_white_borders, is_tight_box, seq_has_content, sub_seq};
use crate::error::PreprocessError;
use crate::gray::Image;
use crate::polarity::{normalize_polarity, normalized_seq};
use vstd::prelude::*;

verus! {

/// The buffer every stage after contrast enhancement works on: the input
/// brought to normal polarity, then pushed through the contrast rule.
pub open spec fn prepared_seq(s: Seq<u8>) -> Seq<u8> {
    enhanced_seq(normalized_seq(s))
}

/// Runs the whole pipeline on one image: polarity correction, contrast
/// enhancement, cropping to the content, and centered placement on a fresh
/// canvas of the configured size.  A blank image fails as `EmptyContent`; a
/// configuration whose border leaves no interior fails as
/// `InvalidDimensions`.
pub fn preprocess_image(img: Image, config: &ImageProcessorConfig) -> (r: Result<
    Image,
    PreprocessError,
>)
    requires
        img.wf(),
    ensures
        r is Ok <==> seq_has_content(prepared_seq(img.pixels@)) && config.valid(),
        r is Err && !seq_has_content(prepared_seq(img.pixels@)) ==> r->Err_0
            == PreprocessError::EmptyContent,
        r is Err && seq_has_content(prepared_seq(img.pixels@)) ==> r->Err_0
            == PreprocessError::InvalidDimensions,
        r matches Ok(out) ==> {
            &&& out.wf()
            &&& out.width == config.width
            &&& out.height == config.height
            &&& exists|l: int, t: int, rt: int, bt: int|
                {
                    &&& #[trigger] is_tight_box(
                        prepared_seq(img.pixels@),
                        img.width as int,
                        img.height as int,
                        l,
                        t,
                        rt,
                        bt,
                    )
                    &&& fits_on_canvas(
                        sub_seq(
                            prepared_seq(img.pixels@),
                            img.width as int,
                            l,
                            t,
                            rt - l + 1,
                            bt - t + 1,
                        ),
                        rt - l + 1,
                        bt - t + 1,
                        config.width as int,
                        config.height as int,
                        config.border as int,
                        out.pixels@,
                    )
                }
        },
{
    let normal = normalize_polarity(img);
    let enhanced = enhance_contrast(&normal);
    match crop_white_borders(&enhanced) {
        Ok(cropped) => {
            proof {
                let p = prepared_seq(img.pixels@);
                let w = img.width as int;
                let h = img.height as int;
                let (l, t, rt, bt) = choose|l: int, t: int, rt: int, bt: int|
                    {
                        &&& #[trigger] is_tight_box(p, w, h, l, t, rt, bt)
                        &&& cropped.width as int == rt - l + 1
                        &&& cropped.height as int == bt - t + 1
                        &&& cropped.pixels@ == sub_seq(p, w, l, t, rt - l + 1, bt - t + 1)
                    };
                assert(cropped.width > 0 && cropped.height > 0);
            }
            fit_into_canvas(&cropped, config.width, config.height, config.border)
        },
        Err(e) => Err(e),
    }
}

} // verus!
