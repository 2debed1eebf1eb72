//! Rendering a text as glyph art, with the typeface that was picked or, where
//! that fails, with the reference typeface.
use crate::definition::{check_definition, declared_height, is_sound_definition};
use crate::text::{chars_of, lines_of};
use figlet_rs::FIGfont;
use vstd::prelude::*;

verus! {

/// Why a text could not be rendered with a typeface.
#[derive(Debug, Clone, Copy, PartialEq, Eq, Structural)]
pub enum RenderError {
    /// The payload of the typeface could not be decompressed.
    Decompression,
    /// The definition of the typeface is malformed.
    Parse,
    /// The typeface has a glyph for no character of the text.
    NoGlyphs,
}

/// The height of a glyph of the reference typeface.
pub const REFERENCE_HEIGHT: usize = 6;

/// What the typeface with this definition makes of a text: the glyph art, or why
/// there is none.
pub uninterp spec fn definition_figure(definition: Seq<char>, text: Seq<char>) -> Result<Seq<char>, RenderError>;

/// What the reference typeface makes of a text: the glyph art, or why there is none.
pub uninterp spec fn standard_figure(text: Seq<char>) -> Result<Seq<char>, RenderError>;

/// What a rendering holds, as characters.
pub open spec fn figure_view(figure: Result<String, RenderError>) -> Result<Seq<char>, RenderError> {
    match figure {
        Ok(art) => Ok(art@),
        Err(error) => Err(error),
    }
}

/// The text that `bytes` decode to as UTF-8, with the replacement character
/// in place of what is no UTF-8.
pub uninterp spec fn lossy_text(bytes: Seq<u8>) -> Seq<char>;

/// What the typeface with the definition in `bytes` makes of a text. A definition
/// that is not sound counts as malformed.
pub open spec fn rendered_definition(bytes: Seq<u8>, text: Seq<char>) -> Result<Seq<char>, RenderError> {
    if is_sound_definition(lossy_text(bytes)) {
        definition_figure(lossy_text(bytes), text)
    } else {
        Err(RenderError::Parse)
    }
}

/// The height of a glyph of the typeface that renders a text: that of the typeface
/// that was picked where it renders the text, else that of the reference typeface.
pub open spec fn rendered_height(payload: Option<Seq<u8>>, text: Seq<char>) -> nat {
    match payload {
        Some(bytes) => if rendered_definition(bytes, text) is Ok {
            declared_height(lossy_text(bytes))
        } else {
            REFERENCE_HEIGHT as nat
        },
        None => REFERENCE_HEIGHT as nat,
    }
}

/// Whether `art` is glyph art of `height` rows: it has that many lines, and the
/// last of them is closed by a line feed.
pub open spec fn is_art(art: Seq<char>, height: nat) -> bool {
    &&& art.len() > 0
    &&& art.last() == '\n'
    &&& lines_of(art).len() == height
}

/// What the typeface that was picked makes of a text; `None` stands for a
/// payload that could not be decompressed.
pub open spec fn rendered_selected(payload: Option<Seq<u8>>, text: Seq<char>) -> Result<Seq<char>, RenderError> {
    match payload {
        Some(bytes) => rendered_definition(bytes, text),
        None => Err(RenderError::Decompression),
    }
}

/// The glyph art of a text: that of the typeface that was picked, else that of the
/// reference typeface, else none.
pub open spec fn rendered(payload: Option<Seq<u8>>, text: Seq<char>) -> Option<Seq<char>> {
    match rendered_selected(payload, text) {
        Ok(art) => Some(art),
        Err(_) => match standard_figure(text) {
            Ok(art) => Some(art),
            Err(_) => None,
        },
    }
}

/// Parses `definition` with `FIGfont::from_content` and renders `text` with
/// `FIGfont::convert`, written out by the figure's `Display`. Trusted: the result
/// is a function of the definition and the text, named `definition_figure`; the
/// error is `Parse` where the parser fails and `NoGlyphs` where `convert` gives
/// nothing; glyph art has as many lines as the header declares for a glyph, each
/// closed by a line feed; of an empty text `convert` gives nothing.
/// The parser cuts lines at byte offsets and counts on rows that are there:
/// `requires` keeps it to definitions on which it cannot fail there.
#[verifier::external_body]
fn figure_from_definition(definition: &str, text: &str) -> (figure: Result<String, RenderError>)
    requires
        is_sound_definition(definition@),
    ensures
        figure_view(figure) == definition_figure(definition@, text@),
        figure is Err ==> figure->Err_0 != RenderError::Decompression,
        figure is Ok ==> is_art(figure->Ok_0@, declared_height(definition@)),
        text@.len() == 0 ==> figure is Err,
{
    match FIGfont::from_content(definition) {
        Err(_) => Err(RenderError::Parse),
        Ok(font) => match font.convert(text) {
            None => Err(RenderError::NoGlyphs),
            Some(figure) => Ok(figure.to_string()),
        },
    }
}

/// Loads the reference typeface with `FIGfont::standard` and renders `text` with
/// `FIGfont::convert`, written out by the figure's `Display`. Trusted: the result
/// is a function of the text, named `standard_figure`; the error is `Parse` where
/// the typeface does not load and `NoGlyphs` where `convert` gives nothing; glyph
/// art has six lines, the height of a glyph of that typeface, each closed by a
/// line feed; of an empty text `convert` gives nothing.
#[verifier::external_body]
fn figure_from_standard(text: &str) -> (figure: Result<String, RenderError>)
    ensures
        figure_view(figure) == standard_figure(text@),
        figure is Err ==> figure->Err_0 != RenderError::Decompression,
        figure is Ok ==> is_art(figure->Ok_0@, REFERENCE_HEIGHT as nat),
        text@.len() == 0 ==> figure is Err,
{
    match FIGfont::standard() {
        Err(_) => Err(RenderError::Parse),
        Ok(font) => match font.convert(text) {
            None => Err(RenderError::NoGlyphs),
            Some(figure) => Ok(figure.to_string()),
        },
    }
}

/// Decodes `bytes` with `String::from_utf8_lossy`. Trusted: the result is a
/// function of the bytes, named `lossy_text`.
#[verifier::external_body]
fn decode_lossy(bytes: &Vec<u8>) -> (text: String)
    ensures
        text@ == lossy_text(bytes@),
{
    String::from_utf8_lossy(bytes).into_owned()
}

/// Renders `text` with the typeface whose definition is in `bytes`.
pub fn render_definition(bytes: &Vec<u8>, text: &str) -> (figure: Result<String, RenderError>)
    ensures
        figure_view(figure) == rendered_definition(bytes@, text@),
        figure is Err ==> figure->Err_0 != RenderError::Decompression,
        figure is Ok ==> is_art(figure->Ok_0@, declared_height(lossy_text(bytes@))),
        text@.len() == 0 ==> figure is Err,
{
    let definition = decode_lossy(bytes);
    let chars = chars_of(definition.as_str());
    if check_definition(&chars) {
        figure_from_definition(definition.as_str(), text)
    } else {
        Err(RenderError::Parse)
    }
}

/// Renders `text` with the reference typeface.
pub fn render_reference(text: &str) -> (figure: Result<String, RenderError>)
    ensures
        figure_view(figure) == standard_figure(text@),
        figure is Err ==> figure->Err_0 != RenderError::Decompression,
        figure is Ok ==> is_art(figure->Ok_0@, REFERENCE_HEIGHT as nat),
        text@.len() == 0 ==> figure is Err,
{
    figure_from_standard(text)
}

/// Renders `text` with the typeface that was picked; `payload` is its
/// definition, or `None` where the payload could not be decompressed.
pub fn render_selected(payload: Option<&Vec<u8>>, text: &str) -> (figure: Result<String, RenderError>)
    ensures
        figure_view(figure) == rendered_selected(payload_view(payload), text@),
        figure == Err::<String, RenderError>(RenderError::Decompression) <==> payload is None,
        figure is Ok ==> is_art(figure->Ok_0@, rendered_height(payload_view(payload), text@)),
        text@.len() == 0 ==> figure is Err,
{
    match payload {
        Some(bytes) => render_definition(bytes, text),
        None => Err(RenderError::Decompression),
    }
}

/// What a payload holds, as bytes.
pub open spec fn payload_view(payload: Option<&Vec<u8>>) -> Option<Seq<u8>> {
    match payload {
        Some(bytes) => Some(bytes@),
        None => None,
    }
}

/// Renders `text` with the first typeface that can: the one that was picked,
/// then the reference typeface.
pub fn render(payload: Option<&Vec<u8>>, text: &str) -> (art: Option<String>)
    ensures
        art is Some <==> rendered(payload_view(payload), text@) is Some,
        art is Some ==> rendered(payload_view(payload), text@) == Some(art->Some_0@),
        art is Some ==> is_art(art->Some_0@, rendered_height(payload_view(payload), text@)),
        text@.len() == 0 ==> art is None,
{
    match render_selected(payload, text) {
        Ok(art) => Some(art),
        Err(_) => match render_reference(text) {
            Ok(art) => Some(art),
            Err(_) => None,
        },
    }
}

} // verus!
