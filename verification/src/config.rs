use vstd::prelude::*;

verus! {

/// Target sizes for the processed image: the canvas is `width` by `height`
/// pixels, and the scaled content is kept `border` pixels away from its edge.
#[derive(Clone)]
pub struct ImageProcessorConfig {
    pub width: u32,
    pub height: u32,
    pub border: u32,
}

impl ImageProcessorConfig {
    /// The interior region (canvas minus border on each side) must not
    /// collapse: twice the border stays below both canvas dimensions.
    pub open spec fn valid(self) -> bool {
        &&& 2 * self.border < self.width
        &&& 2 * self.border < self.height
    }
}

impl Default for ImageProcessorConfig {
    fn default() -> (c: Self)
        ensures
            c.width == 300,
            c.height == 100,
            c.border == 5,
            c.valid(),
    {
        Self { width: 300, height: 100, border: 5 }
    }
}

} // verus!
