//! A small text layout engine: it turns a stream of styled characters into
//! lines of positioned glyph rasters under a size constraint, wrapping by word
//! or by character and truncating overflow with an ellipsis.

/// Sizes, positions and size constraints.
pub mod layout;

/// Typefaces, weights and styles.
pub mod typeface;

/// Rich text and the options it is laid out with.
pub mod text;

/// Glyph rasters and the units that text is laid out in.
pub mod glyph;

/// Lines and text bodies: line breaking and truncation.
pub mod render;
