//! Titles in block letters, painted with a gradient.
//!
//! A text is rendered as glyph art with a typeface, the art is painted from left
//! to right with the colours of a gradient, and a line with the text and its
//! version is put below it. Where the typeface that was picked fails, the
//! reference typeface stands in; where no typeface renders the text, the title is
//! the text itself.

pub mod color;
pub mod definition;
pub mod fonts;
pub mod glyph;
pub mod paint;
mod random;
pub mod styling;
pub mod text;
pub mod title;

pub use crate::title::generate_title;
