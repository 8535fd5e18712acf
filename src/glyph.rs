use vstd::prelude::*;

use crate::layout::Pixel;
use crate::text::RichChar;
use crate::typeface::{weight_of, FontError, FontStyle, FontWeight, Typeface, Variant};

verus! {

#[verifier::external_type_specification]
#[verifier::external_body]
pub struct ExFont(fontdue::Font);

/// What a rasterizer reports for one character at one size, in whole pixels.
pub struct Glyph {
    /// Coverage values, row by row from the top left.
    pub bitmap: Vec<u8>,
    pub width: usize,
    pub height: usize,
    /// Offset of the bottom edge of the glyph's outline from the baseline
    /// (the outline's own minimum, not the bitmap's rounded one).
    pub outline_ymin: i32,
    /// Height of the glyph's outline.
    pub outline_height: usize,
    /// How far the cursor moves after this glyph.
    pub advance: u32,
}

impl Glyph {
    /// The bitmap holds one coverage value for each pixel.
    pub open spec fn wf(&self) -> bool {
        self.bitmap@.len() == self.width * self.height
    }
}

/// A font that can rasterize characters.
pub trait GlyphSource {
    fn glyph(&self, ch: char, size: Pixel) -> (r: Glyph)
        ensures
            r.wf(),
    ;
}

/// Relies on `fontdue::Font::rasterize`, which gives the glyph's metrics and
/// a coverage bitmap of `width * height` values; its subpixel metrics are
/// converted to whole pixels.
#[verifier::external_body]
fn fontdue_glyph(font: &fontdue::Font, ch: char, size: Pixel) -> (r: Glyph)
    ensures
        r.bitmap@.len() == r.width * r.height,
{
    let (metrics, bitmap) = font.rasterize(ch, size as _);
    Glyph {
        bitmap,
        width: metrics.width,
        height: metrics.height,
        outline_ymin: metrics.bounds.ymin as i32,
        outline_height: metrics.bounds.height as usize,
        advance: metrics.advance_width.round() as u32,
    }
}

/// Whether `fontdue` reads `data` as a font file.
pub uninterp spec fn font_parses(data: Seq<u8>) -> bool;

/// Relies on `fontdue::Font::from_bytes` with default settings: it parses a
/// font file, or gives the reason it could not; the outcome depends on the
/// bytes alone.
#[verifier::external_body]
fn parse_font(data: Vec<u8>) -> (r: Result<fontdue::Font, &'static str>)
    ensures
        r is Ok <==> font_parses(data@),
{
    fontdue::Font::from_bytes(data, fontdue::FontSettings::default())
}

impl Typeface<fontdue::Font> {
    /// The default typeface: the regular, normal-weight face of the given
    /// font file.
    pub fn try_default(data: Vec<u8>) -> (r: Result<Self, FontError>)
        ensures
            r is Ok <==> font_parses(data@),
            r is Ok ==> r->Ok_0.wf(),
    {
        match parse_font(data) {
            Ok(font) => Ok(Typeface::new(Variant { weight: weight_of(FontWeight::Normal), style: FontStyle::Regular, data: font })),
            Err(message) => Err(FontError(message)),
        }
    }
}

impl GlyphSource for fontdue::Font {
    fn glyph(&self, ch: char, size: Pixel) -> (r: Glyph) {
        fontdue_glyph(self, ch, size)
    }
}

/// Whether `c` has the Unicode `Alphabetic` property.
pub uninterp spec fn alphabetic(c: char) -> bool;

/// Whether `c` has the Unicode `White_Space` property.
pub open spec fn white_space(c: char) -> bool {
    let v = c as u32;
    ||| 0x9 <= v <= 0xd
    ||| v == 0x20 || v == 0x85 || v == 0xa0 || v == 0x1680
    ||| 0x2000 <= v <= 0x200a
    ||| v == 0x2028 || v == 0x2029 || v == 0x202f || v == 0x205f || v == 0x3000
}

/// Relies on `char::is_alphabetic`: the Unicode `Alphabetic` property of `c`.
#[verifier::external_body]
fn is_alphabetic(c: char) -> (r: bool)
    ensures
        r == alphabetic(c),
{
    c.is_alphabetic()
}

/// Whether `c` has the Unicode `White_Space` property.
fn is_white_space(c: char) -> (r: bool)
    ensures
        r == white_space(c),
{
    let v = c as u32;
    (0x9 <= v && v <= 0xd) || v == 0x20 || v == 0x85 || v == 0xa0 || v == 0x1680 || (0x2000 <= v
        && v <= 0x200a) || v == 0x2028 || v == 0x2029 || v == 0x202f || v == 0x205f || v == 0x3000
}

/// A glyph's coverage bitmap and its offsets, relative to the top of its line.
pub struct Raster {
    pub bitmap: Vec<u8>,
    pub bitmap_width: usize,
    pub bitmap_height: usize,
    /// Offset of the baseline.
    pub baseline: i128,
    /// Offset of the bottom edge of the glyph's outline.
    pub bottom: i128,
    /// Offset of the top edge of the glyph's outline; the bitmap is drawn from here.
    pub top: i128,
    pub advance: Pixel,
}

impl Raster {
    /// The bitmap holds one coverage value for each pixel.
    pub open spec fn wf(&self) -> bool {
        self.bitmap@.len() == self.bitmap_width * self.bitmap_height
    }

    /// A copy of the raster, bitmap included.
    pub fn duplicate(&self) -> (r: Raster)
        ensures
            r.bitmap@ == self.bitmap@,
            r.bitmap_width == self.bitmap_width,
            r.bitmap_height == self.bitmap_height,
            r.baseline == self.baseline,
            r.bottom == self.bottom,
            r.top == self.top,
            r.advance == self.advance,
    {
        let bitmap = self.bitmap.clone();
        assert(bitmap@ =~= self.bitmap@);
        Raster {
            bitmap,
            bitmap_width: self.bitmap_width,
            bitmap_height: self.bitmap_height,
            baseline: self.baseline,
            bottom: self.bottom,
            top: self.top,
            advance: self.advance,
        }
    }

    /// Places a glyph of a font of size `font_size` in its line box.
    pub fn from_glyph(glyph: Glyph, font_size: Pixel) -> (r: Raster)
        requires
            glyph.wf(),
        ensures
            r.wf(),
            r.bitmap@ == glyph.bitmap@,
            r.bitmap_width == glyph.width,
            r.bitmap_height == glyph.height,
            r.baseline == font_size as int,
            r.bottom == font_size as int - glyph.outline_ymin as int,
            r.top == r.bottom - glyph.outline_height as int,
            r.advance == glyph.advance as Pixel,
    {
        let bottom: i128 = font_size as i128 - glyph.outline_ymin as i128;
        let top: i128 = bottom - glyph.outline_height as i128;
        Raster {
            bitmap: glyph.bitmap,
            bitmap_width: glyph.width,
            bitmap_height: glyph.height,
            baseline: font_size as i128,
            bottom,
            top,
            advance: glyph.advance as Pixel,
        }
    }

    /// Rasterizes `ch` in `font` at `font_size`.
    pub fn rasterize<F: GlyphSource>(font: &F, font_size: Pixel, ch: char) -> (r: Raster)
        ensures
            r.wf(),
            r.baseline == font_size as int,
            r.top <= r.bottom,
            r.advance <= u32::MAX,
    {
        Self::from_glyph(font.glyph(ch, font_size), font_size)
    }
}

/// What may happen after a unit when a line is broken.
#[derive(PartialEq, Eq, Structural, Clone, Copy)]
pub enum BreakKind {
    /// Nothing: the unit continues a word.
    Character,
    /// A line may be broken by word after this unit.
    WordBoundary,
}

pub open spec fn break_kind_of(c: char) -> BreakKind {
    if alphabetic(c) {
        BreakKind::Character
    } else {
        BreakKind::WordBoundary
    }
}

/// A piece of text: a rasterized glyph, or whitespace when `raster` is `None`.
/// Units sit right next to each other on a line.
pub struct Unit<'a, F> {
    pub width: Pixel,
    /// The nominal line height of the unit's font size.
    pub height: Pixel,
    pub raster: Option<Raster>,
    pub break_kind: BreakKind,
    /// The font the unit was set in; an ellipsis replacing it uses it too.
    pub font: &'a F,
    /// The character the unit shows.
    pub ch: char,
}

impl<'a, F> Unit<'a, F> {
    /// Whitespace units are not drawn.
    pub open spec fn whitespace(&self) -> bool {
        self.raster is None
    }
}

impl<'a, F: GlyphSource> Unit<'a, F> {
    /// The unit of one rich character. Whitespace characters are not drawn.
    pub fn rasterize(rich_char: RichChar<'a, F>) -> (r: Self)
        ensures
            r.height == rich_char.size,
            r.font == rich_char.font,
            r.ch == rich_char.ch,
            r.break_kind == break_kind_of(rich_char.ch),
            r.whitespace() == white_space(rich_char.ch),
            r.raster matches Some(raster) ==> raster.advance == r.width && raster.wf(),
            r.width <= u32::MAX,
    {
        let raster = Raster::rasterize(rich_char.font, rich_char.size, rich_char.ch);
        let break_kind = if is_alphabetic(rich_char.ch) {
            BreakKind::Character
        } else {
            BreakKind::WordBoundary
        };
        let width = raster.advance;
        Unit {
            width,
            height: rich_char.size,
            raster: if is_white_space(rich_char.ch) {
                None
            } else {
                Some(raster)
            },
            break_kind,
            font: rich_char.font,
            ch: rich_char.ch,
        }
    }

    /// Whether the unit is whitespace, which is not drawn.
    pub fn is_whitespace(&self) -> (r: bool)
        ensures
            r == self.whitespace(),
    {
        self.raster.is_none()
    }
}

} // verus!
