//! Painting rows of text with the colours of a gradient.
use crate::color::{fallback_stops, usable_stops, Gradient, Rgb};
use crate::text::{byte_width, chars_of, lines_of, max_width, rows_view, split_lines, unlines, widest};
use crate::text::{lemma_byte_width_encoded, lemma_lines_within};
use colored::Colorize;
use vstd::prelude::*;

verus! {

/// The character that starts a styling directive.
pub const ESCAPE: char = '\u{1b}';

/// The decimal digit for `d`.
pub open spec fn digit(d: nat) -> char
    recommends
        d < 10,
{
    ((48 + d) as u8) as char
}

/// `n` in decimal digits, without leading zeros.
pub open spec fn decimal(n: nat) -> Seq<char>
    decreases n,
{
    if n < 10 {
        seq![digit(n)]
    } else {
        decimal(n / 10).push(digit(n % 10))
    }
}

/// The parameters that select `color` as the foreground, in 24 bits.
pub open spec fn truecolor_code(color: Rgb) -> Seq<char> {
    seq!['3', '8', ';', '2', ';'] + decimal(color.r as nat) + seq![';'] + decimal(color.g as nat)
        + seq![';'] + decimal(color.b as nat)
}

/// Whether `code` selects one of the sixteen named foreground colours:
/// 30 to 37, or 90 to 97.
pub open spec fn is_basic_code(code: Seq<char>) -> bool {
    &&& code.len() == 2
    &&& (code[0] == '3' || code[0] == '9')
    &&& '0' <= code[1] <= '7'
}

/// `ch` between the directive that sets the style `code` and the one that resets it.
pub open spec fn styled(code: Seq<char>, ch: char) -> Seq<char> {
    seq![ESCAPE, '['] + code + seq!['m', ch, ESCAPE, '[', '0', 'm']
}

/// `ch` and the directive that resets the style.
pub open spec fn reset_after(ch: char) -> Seq<char> {
    seq![ch, ESCAPE, '[', '0', 'm']
}

/// Whether `cell` shows `ch` in `color`: bare, where colours are switched off; in
/// `color` itself; in one of the sixteen named colours, where the terminal takes
/// no more; or with the reset alone, where colours are switched off while the cell
/// is written.
pub open spec fn is_cell(cell: Seq<char>, ch: char, color: Rgb) -> bool {
    ||| cell == seq![ch]
    ||| cell == styled(truecolor_code(color), ch)
    ||| (cell.len() == 10 && is_basic_code(cell.subrange(2, 4)) && cell == styled(cell.subrange(2, 4), ch))
    ||| cell == reset_after(ch)
}

/// The cells of a row, one after the other.
pub open spec fn join(cells: Seq<Seq<char>>) -> Seq<char>
    decreases cells.len(),
{
    if cells.len() == 0 {
        Seq::empty()
    } else {
        join(cells.drop_last()) + cells.last()
    }
}

/// The rows of a grid of cells, each joined and closed by a line feed.
pub open spec fn join_rows(grid: Seq<Seq<Seq<char>>>) -> Seq<char>
    decreases grid.len(),
{
    if grid.len() == 0 {
        Seq::empty()
    } else {
        join_rows(grid.drop_last()) + join(grid.last()).push('\n')
    }
}

/// Whether `cells` shows `row`, the character at column `i` in `palette[i]`.
pub open spec fn row_fits(cells: Seq<Seq<char>>, row: Seq<char>, palette: Seq<Rgb>) -> bool {
    &&& cells.len() == row.len()
    &&& forall|i: int| 0 <= i < row.len() ==> is_cell(#[trigger] cells[i], row[i], palette[i])
}

/// Whether `grid` shows `rows`, row by row.
pub open spec fn grid_fits(grid: Seq<Seq<Seq<char>>>, rows: Seq<Seq<char>>, palette: Seq<Rgb>) -> bool {
    &&& grid.len() == rows.len()
    &&& forall|r: int| 0 <= r < rows.len() ==> row_fits(#[trigger] grid[r], rows[r], palette)
}

/// Whether `out` is `rows` painted with `palette`: every row in order and closed by
/// a line feed, every character in its place and in the colour of its column.
pub open spec fn is_painting(out: Seq<char>, rows: Seq<Seq<char>>, palette: Seq<Rgb>) -> bool {
    exists|grid: Seq<Seq<Seq<char>>>| grid_fits(grid, rows, palette) && out == join_rows(grid)
}

/// The colours that a linear gradient through `stops` takes at `count` places
/// spread evenly from its start to its end, both included; `None` where no gradient
/// can be built of `stops`.
pub uninterp spec fn linear_palette(stops: Seq<Rgb>, count: nat) -> Option<Seq<Rgb>>;

/// The palette for rows of at most `width` bytes: one colour for each of the
/// places `0, 1/width, 2/width, ..., 1`, taken from the gradient through `stops`,
/// or from the replacement gradient where that one cannot be built. `None` where
/// neither can be built, or the places are more than the machine can count.
pub open spec fn chosen_palette(stops: Seq<Rgb>, width: nat) -> Option<Seq<Rgb>> {
    if width >= usize::MAX {
        None
    } else {
        match linear_palette(stops, width + 1) {
            Some(palette) => Some(palette),
            None => linear_palette(fallback_stops(), width + 1),
        }
    }
}

/// What `generate_gradient_text` makes of `text`, given the palette that could
/// be had: nothing of an empty text, the text itself where every line is empty,
/// else its lines painted, or bare where there is no palette.
pub open spec fn is_gradient_text(out: Seq<char>, text: Seq<char>, stops: Seq<Rgb>) -> bool {
    let rows = lines_of(text);
    let width = max_width(rows);
    if rows.len() == 0 {
        out == Seq::<char>::empty()
    } else if width == 0 {
        out == text
    } else {
        match chosen_palette(stops, width) {
            Some(palette) => is_painting(out, rows, palette),
            None => out == unlines(rows),
        }
    }
}

/// Shows `ch` in `color`, as `colored` does for a string with a true-colour
/// foreground (`Colorize::truecolor`, then `to_string`). Trusted: the result is `ch`
/// alone where `colored` finds colours switched off, else `ch` between a directive
/// that sets the foreground and the one that resets it; the foreground is `color`,
/// or one of the sixteen named colours where `colored` finds no support for 24 bits.
/// `colored` asks more than once whether colours are on: where the answer turns
/// to no in between, the directive that sets the foreground is left out. Which
/// of them comes depends on the environment and is left open.
#[verifier::external_body]
fn paint(ch: char, color: Rgb) -> (cell: String)
    ensures
        is_cell(cell@, ch, color),
{
    ch.to_string().truecolor(color.r, color.g, color.b).to_string()
}

/// Builds the linear gradient through `stops` with `colorgrad::GradientBuilder`
/// and samples it with `colorgrad::Gradient::colors`, each colour rounded to 8 bits
/// a channel. Trusted: the result is a function of the stops and the count, named
/// `linear_palette`; it is `None` exactly where the builder fails, which it does
/// not for two to five stops; a palette has `count` colours; a palette of two
/// colours or more through two to five stops starts with the first stop and ends
/// with the last.
#[verifier::external_body]
fn sample_linear(stops: &Vec<Rgb>, count: usize) -> (palette: Option<Vec<Rgb>>)
    ensures
        palette is Some <==> linear_palette(stops@, count as nat) is Some,
        palette is Some ==> linear_palette(stops@, count as nat) == Some(palette->Some_0@),
        palette is Some ==> palette->Some_0@.len() == count,
        usable_stops(stops@) ==> palette is Some,
        usable_stops(stops@) && count >= 2 ==> palette->Some_0@[0] == stops@[0] && palette->Some_0@[count
            - 1] == stops@[stops@.len() - 1],
{
    let colors: Vec<colorgrad::Color> =
        stops.iter().map(|s| colorgrad::Color::from_rgba8(s.r, s.g, s.b, 255)).collect();
    let gradient =
        colorgrad::GradientBuilder::new().colors(&colors).build::<colorgrad::LinearGradient>().ok()?;
    let samples = colorgrad::Gradient::colors(&gradient, count);
    Some(samples.iter().map(|c| c.to_rgba8()).map(|c| Rgb { r: c[0], g: c[1], b: c[2] }).collect())
}

/// The palette for rows of at most `width` bytes: one colour more than the
/// width, from the first stop of the gradient to its last. There is none only
/// where the colours are more than the machine can count.
pub fn choose_palette(gradient: &Gradient, width: usize) -> (palette: Option<Vec<Rgb>>)
    ensures
        palette is Some <==> chosen_palette(gradient@, width as nat) is Some,
        palette is Some ==> chosen_palette(gradient@, width as nat) == Some(palette->Some_0@),
        palette is Some ==> palette->Some_0@.len() == width + 1,
        palette is Some <==> width < usize::MAX,
        palette is Some && width >= 1 ==> palette->Some_0@[0] == gradient@[0] && palette->Some_0@[width as int]
            == gradient@[gradient@.len() - 1],
{
    if width == usize::MAX {
        return None;
    }
    match sample_linear(gradient.stops(), width + 1) {
        Some(palette) => Some(palette),
        None => {
            let fallback = Gradient::fallback();
            sample_linear(fallback.stops(), width + 1)
        },
    }
}

/// Appends `row`, painted, and a line feed.
fn paint_row(out: &mut Vec<char>, row: &Vec<char>, palette: &Vec<Rgb>) -> (cells: Ghost<Seq<Seq<char>>>)
    requires
        row.len() <= palette.len(),
    ensures
        row_fits(cells@, row@, palette@),
        final(out)@ == old(out)@ + join(cells@).push('\n'),
{
    let ghost before = out@;
    let ghost mut cells: Seq<Seq<char>> = Seq::empty();
    let mut i: usize = 0;
    while i < row.len()
        invariant
            i <= row.len(),
            row.len() <= palette.len(),
            cells.len() == i,
            forall|k: int| 0 <= k < i ==> is_cell(#[trigger] cells[k], row@[k], palette@[k]),
            out@ == before + join(cells),
        decreases row.len() - i,
    {
        let cell = paint(row[i], palette[i]);
        let mut piece = chars_of(cell.as_str());
        proof {
            assert(cells.push(piece@).drop_last() =~= cells);
            assert(before + join(cells) + piece@ =~= before + (join(cells) + piece@));
            cells = cells.push(piece@);
        }
        out.append(&mut piece);
        i = i + 1;
    }
    out.push('\n');
    proof {
        assert(out@ =~= before + join(cells).push('\n'));
    }
    Ghost(cells)
}

/// The rows painted with `palette`: the character at column `i` of a row in
/// `palette[i]`, every row closed by a line feed.
pub fn paint_rows(rows: &Vec<Vec<char>>, palette: &Vec<Rgb>) -> (out: Vec<char>)
    requires
        forall|r: int| 0 <= r < rows.len() ==> (#[trigger] rows[r]).len() <= palette.len(),
    ensures
        is_painting(out@, rows_view(*rows), palette@),
{
    let mut out: Vec<char> = Vec::new();
    let ghost mut grid: Seq<Seq<Seq<char>>> = Seq::empty();
    let mut r: usize = 0;
    while r < rows.len()
        invariant
            r <= rows.len(),
            forall|k: int| 0 <= k < rows.len() ==> (#[trigger] rows[k]).len() <= palette.len(),
            grid.len() == r,
            forall|k: int| 0 <= k < r ==> row_fits(#[trigger] grid[k], rows_view(*rows)[k], palette@),
            out@ == join_rows(grid),
        decreases rows.len() - r,
    {
        let ghost before = out@;
        let cells = paint_row(&mut out, &rows[r], palette);
        proof {
            assert(grid.push(cells@).drop_last() =~= grid);
            grid = grid.push(cells@);
        }
        r = r + 1;
    }
    proof {
        assert(grid_fits(grid, rows_view(*rows), palette@));
    }
    out
}

/// The rows as they are, each closed by a line feed.
pub fn plain_rows(rows: &Vec<Vec<char>>) -> (out: Vec<char>)
    ensures
        out@ == unlines(rows_view(*rows)),
{
    let mut out: Vec<char> = Vec::new();
    let mut r: usize = 0;
    while r < rows.len()
        invariant
            r <= rows.len(),
            out@ == unlines(rows_view(*rows).take(r as int)),
        decreases rows.len() - r,
    {
        let ghost before = out@;
        let row = &rows[r];
        let mut i: usize = 0;
        while i < row.len()
            invariant
                i <= row.len(),
                out@ == before + row@.take(i as int),
            decreases row.len() - i,
        {
            out.push(row[i]);
            proof {
                assert(before + row@.take(i as int).push(row@[i as int]) =~= before + row@.take(i + 1));
                assert((before + row@.take(i as int)).push(row@[i as int]) =~= before + row@.take(i as int).push(row@[i as int]));
            }
            i = i + 1;
        }
        out.push('\n');
        proof {
            assert(row@.take(i as int) =~= row@);
            assert(rows_view(*rows).take(r + 1).drop_last() =~= rows_view(*rows).take(r as int));
            assert(rows_view(*rows).take(r + 1).last() == row@);
            assert(out@ =~= before + row@.push('\n'));
        }
        r = r + 1;
    }
    proof {
        assert(rows_view(*rows).take(r as int) =~= rows_view(*rows));
    }
    out
}

/// Paints `text` with `gradient`, from left to right. The colour of a character
/// goes by its place in its own line, measured against the widest line of the
/// whole text, so that a short line runs through the first part of the gradient
/// only. Every line of the result ends in a line feed, and there are as many as
/// the text has.
pub fn generate_gradient_text(text: &str, gradient: &Gradient) -> (out: String)
    ensures
        is_gradient_text(out@, text@, gradient@),
        lines_of(out@).len() == lines_of(text@).len(),
        text@.len() > 0 && text@.last() == '\n' ==> out@.len() > 0 && out@.last() == '\n',
{
    let chars = chars_of(text);
    let rows = split_lines(&chars);
    let total = text.as_bytes().len();
    proof {
        assert(byte_width(text@) == total) by {
            lemma_byte_width_encoded(text@);
        }
        lemma_lines_within(text@);
        assert forall|r: int| 0 <= r < rows.len() implies byte_width(#[trigger] rows[r]@) <= usize::MAX by {
            assert(rows[r]@ == rows_view(rows)[r]);
        }
    }
    let width = widest(&rows);
    let out = if rows.len() == 0 {
        String::new()
    } else if width == 0 {
        text.to_owned()
    } else {
        match choose_palette(gradient, width) {
            Some(palette) => {
                proof {
                    crate::text::lemma_max_width(rows_view(rows));
                    assert forall|r: int| 0 <= r < rows.len() implies (#[trigger] rows[r]).len()
                        <= palette.len() by {
                        assert(rows[r]@ == rows_view(rows)[r]);
                        crate::text::lemma_byte_width_at_least_len(rows[r]@);
                    }
                }
                let painted = paint_rows(&rows, &palette);
                crate::text::string_of(&painted)
            },
            None => {
                let plain = plain_rows(&rows);
                crate::text::string_of(&plain)
            },
        }
    };
    proof {
        crate::styling::law_paint_keeps_rows(out@, text@, gradient@);
    }
    out
}

} // verus!
