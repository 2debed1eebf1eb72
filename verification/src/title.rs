//! The title: glyph art in the colours of a gradient, and the line below it.
use crate::color::{Gradient, Rgb};
use crate::glyph::{is_art, payload_view, render, rendered, rendered_height, standard_figure};
use crate::styling::law_paint_keeps_rows;
use crate::text::{lemma_closed_text, lemma_last_line_after_closed, lemma_line_feeds_concat};
use crate::text::{lemma_lines_after_closed, lemma_row_line_feed};
use crate::text::{line_feeds, lines_of};
use crate::paint::{generate_gradient_text, is_gradient_text};
use vstd::prelude::*;
use vstd::string::StringExecFns;

verus! {

/// What a version holds, as characters.
pub open spec fn version_view(version: Option<&str>) -> Option<Seq<char>> {
    match version {
        Some(v) => Some(v@),
        None => None,
    }
}

/// The line below the art: the text and its version, or an empty line.
pub open spec fn trailer(text: Seq<char>, version: Option<Seq<char>>) -> Seq<char> {
    match version {
        Some(v) => text + seq![' ', 'v'] + v + seq!['\n'],
        None => seq!['\n'],
    }
}

/// The title made of painted art: the art and the line below it, or, where there
/// is no art, the text alone on a line.
pub open spec fn composed(painted: Option<Seq<char>>, text: Seq<char>, version: Option<Seq<char>>) -> Seq<
    char,
> {
    match painted {
        Some(art) => art + trailer(text, version),
        None => text.push('\n'),
    }
}

/// Whether `out` is a title of `text`: its glyph art painted with the gradient
/// through `stops` and the line below it, or the text alone on a line where no
/// typeface renders it.
pub open spec fn is_title(
    out: Seq<char>,
    text: Seq<char>,
    version: Option<Seq<char>>,
    payload: Option<Seq<u8>>,
    stops: Seq<Rgb>,
) -> bool {
    match rendered(payload, text) {
        Some(art) => exists|painted: Seq<char>|
            is_gradient_text(painted, art, stops) && out == #[trigger] composed(Some(painted), text, version),
        None => out == composed(None, text, version),
    }
}

/// How many lines the title of `text` has: the rows of the art, which are as
/// many as a glyph of the typeface that renders the text is high, and the lines
/// below it; or, where no typeface renders the text, the lines of the text.
pub open spec fn title_lines(text: Seq<char>, version: Option<Seq<char>>, payload: Option<Seq<u8>>) -> nat {
    match rendered(payload, text) {
        Some(_) => rendered_height(payload, text) + line_feeds(trailer(text, version)),
        None => line_feeds(text) + 1,
    }
}

/// Puts the title together from the painted art, if there is any.
pub fn compose_title(painted: Option<String>, text: &str, version: Option<&str>) -> (out: String)
    ensures
        out@ == composed(
            match painted {
                Some(art) => Some(art@),
                None => None,
            },
            text@,
            version_view(version),
        ),
{
    proof {
        reveal_strlit("\n");
        reveal_strlit(" v");
    }
    match painted {
        Some(art) => {
            let mut out = art;
            match version {
                Some(v) => {
                    out.append(text);
                    out.append(" v");
                    out.append(v);
                    out.append("\n");
                    proof {
                        assert(out@ =~= art@ + trailer(text@, version_view(version)));
                    }
                },
                None => {
                    out.append("\n");
                    proof {
                        assert(out@ =~= art@ + trailer(text@, version_view(version)));
                    }
                },
            }
            out
        },
        None => {
            let mut out = text.to_owned();
            out.append("\n");
            proof {
                assert(out@ =~= text@.push('\n'));
            }
            out
        },
    }
}

/// The title of `text`: its glyph art, painted with `gradient`, above a line
/// with the text and `version`, or above an empty line where there is no version.
/// `payload` is the definition of the typeface that was picked, or `None` where
/// its payload could not be decompressed. Where that typeface does not render the
/// text, the reference typeface does; where neither does, the title is the text
/// alone on a line.
pub fn generate_title(text: &str, version: Option<&str>, payload: Option<&Vec<u8>>, gradient: &Gradient) -> (out:
    String)
    ensures
        is_title(out@, text@, version_view(version), payload_view(payload), gradient@),
        out@.len() > 0,
        out@.last() == '\n',
        lines_of(out@).len() == title_lines(text@, version_view(version), payload_view(payload)),
        version is None && rendered(payload_view(payload), text@) is Some ==> {
            &&& lines_of(out@).len() == rendered_height(payload_view(payload), text@) + 1
            &&& out@.len() >= 2
            &&& out@[out@.len() - 2] == '\n'
        },
        text@.len() == 0 ==> out@ == seq!['\n'],
{
    match render(payload, text) {
        Some(art) => {
            let painted = generate_gradient_text(art.as_str(), gradient);
            let ghost shown = painted@;
            let out = compose_title(Some(painted), text, version);
            proof {
                assert(out@ == composed(Some(shown), text@, version_view(version)));
                assert(is_gradient_text(shown, art@, gradient@));
                law_title_rows(out@, text@, version_view(version), payload_view(payload), gradient@);
            }
            out
        },
        None => {
            let out = compose_title(None, text, version);
            proof {
                law_title_rows(out@, text@, version_view(version), payload_view(payload), gradient@);
                if text@.len() == 0 {
                    assert(out@ =~= seq!['\n']);
                }
            }
            out
        },
    }
}

/// Whether the art that renders `text`, if there is any, is glyph art of as many
/// rows as a glyph of its typeface is high.
pub open spec fn art_fits(text: Seq<char>, payload: Option<Seq<u8>>) -> bool {
    rendered(payload, text) is Some ==> is_art(rendered(payload, text)->Some_0, rendered_height(payload, text))
}

/// The lines of a title are the rows of the art and the lines below it: a
/// title without a version has one line more than a glyph is high, and ends in
/// an empty line.
pub proof fn law_title_rows(
    out: Seq<char>,
    text: Seq<char>,
    version: Option<Seq<char>>,
    payload: Option<Seq<u8>>,
    stops: Seq<Rgb>,
)
    requires
        is_title(out, text, version, payload, stops),
        art_fits(text, payload),
    ensures
        lines_of(out).len() == title_lines(text, version, payload),
        version is None && rendered(payload, text) is Some ==> {
            &&& lines_of(out).len() == rendered_height(payload, text) + 1
            &&& out.len() >= 2
            &&& out[out.len() - 2] == '\n'
        },
{
    lemma_row_line_feed(Seq::<char>::empty());
    assert(seq!['\n'] =~= Seq::<char>::empty().push('\n'));
    match rendered(payload, text) {
        Some(art) => {
            let painted = choose|painted: Seq<char>|
                is_gradient_text(painted, art, stops) && out == #[trigger] composed(Some(painted), text, version);
            let below = trailer(text, version);
            law_paint_keeps_rows(painted, art, stops);
            lemma_lines_after_closed(painted, below);
            if version is None {
                assert(out =~= painted.push('\n'));
            }
        },
        None => {
            assert(out =~= text + seq!['\n']);
            lemma_line_feeds_concat(text, seq!['\n']);
            lemma_closed_text(out);
        },
    }
}

/// Two titles of one text, with one version and one typeface, have the same
/// number of lines and the same last line, whatever their colours.
pub proof fn law_titles_agree_in_shape(
    first: Seq<char>,
    second: Seq<char>,
    text: Seq<char>,
    version: Option<Seq<char>>,
    payload: Option<Seq<u8>>,
    first_stops: Seq<Rgb>,
    second_stops: Seq<Rgb>,
)
    requires
        is_title(first, text, version, payload, first_stops),
        is_title(second, text, version, payload, second_stops),
        art_fits(text, payload),
    ensures
        lines_of(first).len() == lines_of(second).len(),
        lines_of(first).last() == lines_of(second).last(),
{
    law_title_rows(first, text, version, payload, first_stops);
    law_title_rows(second, text, version, payload, second_stops);
    match rendered(payload, text) {
        Some(art) => {
            let below = trailer(text, version);
            let one = choose|painted: Seq<char>|
                is_gradient_text(painted, art, first_stops) && first == #[trigger] composed(
                    Some(painted),
                    text,
                    version,
                );
            let other = choose|painted: Seq<char>|
                is_gradient_text(painted, art, second_stops) && second == #[trigger] composed(
                    Some(painted),
                    text,
                    version,
                );
            law_paint_keeps_rows(one, art, first_stops);
            law_paint_keeps_rows(other, art, second_stops);
            lemma_last_line_after_closed(one, below);
            lemma_last_line_after_closed(other, below);
        },
        None => {},
    }
}

/// A title is never empty and ends in a line feed.
pub proof fn law_title_ends_line(
    out: Seq<char>,
    text: Seq<char>,
    version: Option<Seq<char>>,
    payload: Option<Seq<u8>>,
    stops: Seq<Rgb>,
)
    requires
        is_title(out, text, version, payload, stops),
    ensures
        out.len() > 0,
        out.last() == '\n',
{
}

/// Where a typeface renders the text and a version is given, the title ends in
/// the text, a space, `v`, the version and a line feed.
pub proof fn law_title_ends_in_version(
    out: Seq<char>,
    text: Seq<char>,
    version: Seq<char>,
    payload: Option<Seq<u8>>,
    stops: Seq<Rgb>,
)
    requires
        is_title(out, text, Some(version), payload, stops),
        rendered(payload, text) is Some,
    ensures
        out.len() >= trailer(text, Some(version)).len(),
        out.skip(out.len() - trailer(text, Some(version)).len()) == trailer(text, Some(version)),
        trailer(text, Some(version)) == text + seq![' ', 'v'] + version + seq!['\n'],
{
    let art = rendered(payload, text)->Some_0;
    let painted = choose|painted: Seq<char>|
        is_gradient_text(painted, art, stops) && out == #[trigger] composed(Some(painted), text, Some(version));
    let line = trailer(text, Some(version));
    assert(out == painted + line);
    assert((painted + line).skip(painted.len() as int) =~= line);
}

/// Where the payload of the typeface that was picked could not be decompressed,
/// and the reference typeface renders the text, the title shows the art of the
/// reference typeface.
pub proof fn law_failed_payload_falls_back(
    out: Seq<char>,
    text: Seq<char>,
    version: Option<Seq<char>>,
    stops: Seq<Rgb>,
)
    requires
        is_title(out, text, version, None, stops),
        standard_figure(text) is Ok,
    ensures
        rendered(None, text) == Some(standard_figure(text)->Ok_0),
        exists|painted: Seq<char>|
            is_gradient_text(painted, standard_figure(text)->Ok_0, stops) && out == #[trigger] composed(
                Some(painted),
                text,
                version,
            ),
{
}

/// Where no typeface renders the text, the title is the text and a line feed,
/// whatever the version.
pub proof fn law_unrendered_title_is_text(
    out: Seq<char>,
    text: Seq<char>,
    version: Option<Seq<char>>,
    payload: Option<Seq<u8>>,
    stops: Seq<Rgb>,
)
    requires
        is_title(out, text, version, payload, stops),
        rendered(payload, text) is None,
    ensures
        out == text.push('\n'),
{
}

} // verus!
