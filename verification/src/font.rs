//! Pre-rasterized glyphs of the Noto Sans Mono bitmap font.
//!
//! The glyph tables live in the `noto_sans_mono_bitmap` crate; this module
//! mirrors the font parameters that the crate is built with and gives its two
//! lookup functions contracts.
use vstd::prelude::*;

verus! {

/// Font weights that the bitmap font provides in this build.
#[derive(Debug, Clone, Copy, PartialEq, Eq, Structural)]
pub enum FontWeight {
    Regular,
}

/// Raster heights that the bitmap font provides in this build.
#[derive(Debug, Clone, Copy, PartialEq, Eq, Structural)]
pub enum RasterHeight {
    Size16,
}

impl RasterHeight {
    /// Height of the raster box in pixels.
    pub open spec fn pixels(self) -> usize {
        match self {
            RasterHeight::Size16 => 16,
        }
    }

    /// Returns the numeric value of the variant: the raster height in pixels.
    pub fn val(self) -> (r: usize)
        ensures
            r == self.pixels(),
    {
        match self {
            RasterHeight::Size16 => 16,
        }
    }
}

/// The raster that `noto_sans_mono_bitmap::get_raster` gives for a character,
/// as rows of pixel intensities, or `None` where the font has no glyph for it.
pub uninterp spec fn font_raster(c: char, weight: FontWeight, height: RasterHeight) -> Option<
    Seq<Seq<u8>>,
>;

/// The width of every glyph of a weight and height: 7 pixels for the regular
/// weight at height 16.
pub open spec fn font_raster_width(weight: FontWeight, height: RasterHeight) -> usize {
    match (weight, height) {
        (FontWeight::Regular, RasterHeight::Size16) => 7,
    }
}

/// A rasterized character: `height` rows of `width` intensities each.
pub struct RasterizedChar {
    pub raster: &'static [&'static [u8]],
    pub height: usize,
    pub width: usize,
}

/// The rows of a raster, each taken by its view.
pub open spec fn raster_rows(raster: &'static [&'static [u8]]) -> Seq<Seq<u8>> {
    raster@.map_values(|row: &'static [u8]| row@)
}

/// Calls `noto_sans_mono_bitmap::get_raster`.
///
/// Trusted: the glyph data is the crate's own table, named by `font_raster`.
/// The crate documents that the raster is `height * width` bytes, that
/// `height` is the raster height and that every character of one weight and
/// height has the width `get_raster_width` gives. Its source holds a glyph for
/// U+FFFD once the feature `unicode-specials` is on, as this crate's manifest has it.
#[verifier::external_body]
pub(crate) fn get_raster(c: char, style: FontWeight, size: RasterHeight) -> (r: Option<RasterizedChar>)
    ensures
        r is Some <==> font_raster(c, style, size) is Some,
        r matches Some(g) ==> {
            &&& raster_rows(g.raster) == font_raster(c, style, size).unwrap()
            &&& g.height == size.pixels()
            &&& g.width == font_raster_width(style, size)
            &&& g.raster@.len() == g.height
            &&& forall|i: int| 0 <= i < g.height ==> (#[trigger] g.raster@[i])@.len() == g.width
        },
        c == '\u{FFFD}' ==> r is Some,
{
    let weight = match style {
        FontWeight::Regular => noto_sans_mono_bitmap::FontWeight::Regular,
    };
    let height = match size {
        RasterHeight::Size16 => noto_sans_mono_bitmap::RasterHeight::Size16,
    };
    match noto_sans_mono_bitmap::get_raster(c, weight, height) {
        Some(g) => Some(RasterizedChar { raster: g.raster(), height: g.height(), width: g.width() }),
        None => None,
    }
}

/// Calls `noto_sans_mono_bitmap::get_raster_width`.
///
/// Trusted: the width is the crate's own constant, which its source sets to 7
/// for the regular weight at height 16, the only pair this build provides.
#[verifier::external_body]
pub(crate) fn get_raster_width(style: FontWeight, size: RasterHeight) -> (w: usize)
    ensures
        w == font_raster_width(style, size),
{
    let weight = match style {
        FontWeight::Regular => noto_sans_mono_bitmap::FontWeight::Regular,
    };
    let height = match size {
        RasterHeight::Size16 => noto_sans_mono_bitmap::RasterHeight::Size16,
    };
    noto_sans_mono_bitmap::get_raster_width(weight, height)
}

} // verus!
