//! Styling directives, and the text that is left without them.
use crate::paint::{decimal, digit, is_basic_code, is_cell, join, join_rows, reset_after, styled, truecolor_code, ESCAPE};
use crate::paint::{grid_fits, row_fits};
use crate::color::Rgb;
use crate::paint::{chosen_palette, is_gradient_text};
use crate::text::{closed_lines, has_no_line_feed, line_feeds, lines_of, max_width, open_line, strip_cr, unlines};
use crate::text::{chars_of, string_of};
use vstd::prelude::*;

verus! {

/// Whether `c` can stand among the parameters of a styling directive.
pub open spec fn is_parameter(c: char) -> bool {
    ('0' <= c <= '9') || c == ';'
}

/// How many parameter characters `s` starts with.
pub open spec fn parameters_len(s: Seq<char>) -> nat
    decreases s.len(),
{
    if s.len() > 0 && is_parameter(s[0]) {
        1 + parameters_len(s.drop_first())
    } else {
        0
    }
}

/// The length of the styling directive that `s` starts with, 0 where it starts
/// with none. A directive is the escape character, `[`, parameters, and `m`.
pub open spec fn directive_len(s: Seq<char>) -> nat {
    if s.len() >= 2 && s[0] == ESCAPE && s[1] == '[' {
        let k = parameters_len(s.skip(2));
        if 2 + k < s.len() && s[2 + k as int] == 'm' {
            k + 3
        } else {
            0
        }
    } else {
        0
    }
}

/// `s` without its styling directives.
pub open spec fn strip(s: Seq<char>) -> Seq<char>
    decreases s.len(),
{
    if s.len() == 0 {
        s
    } else if directive_len(s) > 0 {
        strip(s.skip(directive_len(s) as int))
    } else {
        seq![s[0]] + strip(s.skip(1))
    }
}

/// The parameters are counted up to the first character that is none.
proof fn lemma_parameters_len(s: Seq<char>, n: int)
    requires
        0 <= n <= s.len(),
        forall|k: int| 0 <= k < n ==> is_parameter(#[trigger] s[k]),
        n == s.len() || !is_parameter(s[n]),
    ensures
        parameters_len(s) == n,
    decreases n,
{
    if n > 0 {
        lemma_parameters_len(s.drop_first(), n - 1);
    }
}

/// The length of the directive that starts at `chars[at]`, 0 where none does.
fn directive_at(chars: &Vec<char>, at: usize) -> (len: usize)
    requires
        at < chars.len(),
    ensures
        len == directive_len(chars@.skip(at as int)),
        at + len <= chars.len(),
{
    let n = chars.len();
    let ghost s = chars@.skip(at as int);
    if n - at < 2 || chars[at] != ESCAPE || chars[at + 1] != '[' {
        return 0;
    }
    let mut j: usize = at + 2;
    while j < n && is_parameter_char(chars[j])
        invariant
            at + 2 <= j <= n,
            n == chars.len(),
            forall|k: int| at + 2 <= k < j ==> is_parameter(#[trigger] chars@[k]),
        decreases n - j,
    {
        j = j + 1;
    }
    proof {
        let tail = s.skip(2);
        assert forall|k: int| 0 <= k < j - at - 2 implies is_parameter(#[trigger] tail[k]) by {
            assert(tail[k] == chars@[at + 2 + k]);
        }
        lemma_parameters_len(tail, j - at - 2);
    }
    if j < n && chars[j] == 'm' {
        j - at + 1
    } else {
        0
    }
}

/// Whether `c` can stand among the parameters of a styling directive.
fn is_parameter_char(c: char) -> (b: bool)
    ensures
        b == is_parameter(c),
{
    ('0' <= c && c <= '9') || c == ';'
}

/// `text` without its styling directives.
pub fn strip_styling(text: &str) -> (out: String)
    ensures
        out@ == strip(text@),
{
    let chars = chars_of(text);
    let mut out: Vec<char> = Vec::new();
    let mut i: usize = 0;
    proof {
        assert(chars@.skip(0) =~= chars@);
        assert(out@ + strip(chars@) =~= strip(chars@));
    }
    while i < chars.len()
        invariant
            i <= chars.len(),
            out@ + strip(chars@.skip(i as int)) == strip(chars@),
        decreases chars.len() - i,
    {
        let ghost rest = chars@.skip(i as int);
        let len = directive_at(&chars, i);
        if len > 0 {
            proof {
                assert(rest.skip(len as int) =~= chars@.skip(i + len));
            }
            i = i + len;
        } else {
            proof {
                assert(rest.skip(1) =~= chars@.skip(i + 1));
                assert(out@.push(chars@[i as int]) + strip(rest.skip(1)) =~= out@ + (seq![rest[0]] + strip(
                    rest.skip(1),
                )));
            }
            out.push(chars[i]);
            i = i + 1;
        }
    }
    proof {
        assert(chars@.skip(i as int) =~= Seq::<char>::empty());
        assert(out@ + Seq::<char>::empty() =~= out@);
    }
    string_of(&out)
}

/// Whether `s` is free of the escape character.
pub open spec fn is_clean(s: Seq<char>) -> bool {
    forall|i: int| 0 <= i < s.len() ==> #[trigger] s[i] != ESCAPE
}

/// Whether every character of `s` can stand among the parameters of a directive.
pub open spec fn all_parameters(s: Seq<char>) -> bool {
    forall|i: int| 0 <= i < s.len() ==> is_parameter(#[trigger] s[i])
}

proof fn lemma_decimal_parameters(n: nat)
    ensures
        all_parameters(decimal(n)),
    decreases n,
{
    if n >= 10 {
        lemma_decimal_parameters(n / 10);
        assert(is_parameter(digit(n % 10)));
    } else {
        assert(is_parameter(digit(n)));
    }
}

proof fn lemma_truecolor_parameters(color: Rgb)
    ensures
        all_parameters(truecolor_code(color)),
{
    lemma_decimal_parameters(color.r as nat);
    lemma_decimal_parameters(color.g as nat);
    lemma_decimal_parameters(color.b as nat);
}

/// A styled character and what follows it are, without directives, the
/// character and what follows it without directives.
proof fn lemma_strip_styled(code: Seq<char>, ch: char, rest: Seq<char>)
    requires
        all_parameters(code),
        ch != ESCAPE,
    ensures
        strip(styled(code, ch) + rest) == seq![ch] + strip(rest),
{
    let s = styled(code, ch) + rest;
    let n = code.len() as int;
    let tail = s.skip(2);
    assert forall|k: int| 0 <= k < n implies is_parameter(#[trigger] tail[k]) by {
        assert(tail[k] == code[k]);
    }
    assert(tail[n] == 'm');
    lemma_parameters_len(tail, n);
    assert(s[2 + n] == 'm');
    assert(directive_len(s) == n + 3);
    let s2 = s.skip(n + 3);
    assert(s2 =~= seq![ch, ESCAPE, '[', '0', 'm'] + rest);
    assert(strip(s) == strip(s2));
    assert(directive_len(s2) == 0);
    let s3 = s2.skip(1);
    assert(s3 =~= seq![ESCAPE, '[', '0', 'm'] + rest);
    assert(strip(s2) == seq![s2[0]] + strip(s3));
    let tail3 = s3.skip(2);
    assert(tail3[0] == '0');
    assert(tail3[1] == 'm');
    lemma_parameters_len(tail3, 1);
    assert(directive_len(s3) == 4);
    assert(s3.skip(4) =~= rest);
}

/// A cell and what follows it are, without directives, the character that the
/// cell shows and what follows it without directives.
proof fn lemma_strip_cell(cell: Seq<char>, ch: char, color: Rgb, rest: Seq<char>)
    requires
        is_cell(cell, ch, color),
        ch != ESCAPE,
    ensures
        strip(cell + rest) == seq![ch] + strip(rest),
{
    if cell == seq![ch] {
        let s = cell + rest;
        assert(s[0] == ch);
        assert(directive_len(s) == 0);
        assert(s.skip(1) =~= rest);
    } else if cell == styled(truecolor_code(color), ch) {
        lemma_truecolor_parameters(color);
        lemma_strip_styled(truecolor_code(color), ch, rest);
    } else if cell == reset_after(ch) {
        let s = cell + rest;
        assert(s[0] == ch);
        assert(directive_len(s) == 0);
        let s2 = s.skip(1);
        assert(s2 =~= seq![ESCAPE, '[', '0', 'm'] + rest);
        let tail = s2.skip(2);
        assert(tail[0] == '0');
        assert(tail[1] == 'm');
        lemma_parameters_len(tail, 1);
        assert(directive_len(s2) == 4);
        assert(s2.skip(4) =~= rest);
        assert(strip(s2) == strip(rest));
        assert(strip(s) == seq![s[0]] + strip(s2));
    } else {
        let code = cell.subrange(2, 4);
        assert(is_basic_code(code));
        assert(all_parameters(code));
        lemma_strip_styled(code, ch, rest);
    }
}

proof fn lemma_strip_join(cells: Seq<Seq<char>>, row: Seq<char>, palette: Seq<Rgb>, rest: Seq<char>)
    requires
        row_fits(cells, row, palette),
        is_clean(row),
    ensures
        strip(join(cells) + rest) == row + strip(rest),
    decreases cells.len(),
{
    if cells.len() == 0 {
        assert(join(cells) + rest =~= rest);
        assert(row + strip(rest) =~= strip(rest));
    } else {
        let n = cells.len() - 1;
        let init = cells.drop_last();
        let last = cells.last();
        assert forall|i: int| 0 <= i < n implies is_cell(#[trigger] init[i], row.drop_last()[i], palette[i]) by {
            assert(init[i] == cells[i]);
        }
        lemma_strip_join(init, row.drop_last(), palette, last + rest);
        assert(is_cell(cells[n], row[n], palette[n]));
        lemma_strip_cell(last, row[n], palette[n], rest);
        assert(join(cells) + rest =~= join(init) + (last + rest));
        assert(row.drop_last() + (seq![row[n]] + strip(rest)) =~= row + strip(rest));
    }
}

proof fn lemma_strip_line_feed(rest: Seq<char>)
    ensures
        strip(seq!['\n'] + rest) == seq!['\n'] + strip(rest),
{
    let s = seq!['\n'] + rest;
    assert(s[0] == '\n');
    assert(directive_len(s) == 0);
    assert(s.skip(1) =~= rest);
}

proof fn lemma_strip_grid(grid: Seq<Seq<Seq<char>>>, rows: Seq<Seq<char>>, palette: Seq<Rgb>, rest: Seq<char>)
    requires
        grid_fits(grid, rows, palette),
        forall|r: int| 0 <= r < rows.len() ==> is_clean(#[trigger] rows[r]),
    ensures
        strip(join_rows(grid) + rest) == unlines(rows) + strip(rest),
    decreases grid.len(),
{
    if grid.len() == 0 {
        assert(join_rows(grid) + rest =~= rest);
        assert(unlines(rows) + strip(rest) =~= strip(rest));
    } else {
        let n = grid.len() - 1;
        let init = grid.drop_last();
        let rows_init = rows.drop_last();
        assert forall|r: int| 0 <= r < n implies row_fits(#[trigger] init[r], rows_init[r], palette) by {
            assert(init[r] == grid[r]);
            assert(rows_init[r] == rows[r]);
        }
        assert forall|r: int| 0 <= r < rows_init.len() implies is_clean(#[trigger] rows_init[r]) by {
            assert(rows_init[r] == rows[r]);
        }
        let tail = join(grid[n]).push('\n') + rest;
        lemma_strip_grid(init, rows_init, palette, tail);
        assert(row_fits(grid[n], rows[n], palette));
        assert(is_clean(rows[n]));
        lemma_strip_join(grid[n], rows[n], palette, seq!['\n'] + rest);
        lemma_strip_line_feed(rest);
        assert(tail =~= join(grid[n]) + (seq!['\n'] + rest));
        assert(join_rows(grid) + rest =~= join_rows(init) + tail);
        assert(unlines(rows_init) + (rows[n] + (seq!['\n'] + strip(rest))) =~= unlines(rows) + strip(rest));
    }
}

/// A text that is free of the escape character holds no directive.
pub proof fn lemma_strip_clean(s: Seq<char>)
    requires
        is_clean(s),
    ensures
        strip(s) == s,
    decreases s.len(),
{
    if s.len() > 0 {
        assert(s[0] != ESCAPE);
        assert(is_clean(s.skip(1))) by {
            assert forall|i: int| 0 <= i < s.skip(1).len() implies #[trigger] s.skip(1)[i] != ESCAPE by {
                assert(s.skip(1)[i] == s[i + 1]);
            }
        }
        lemma_strip_clean(s.skip(1));
        assert(seq![s[0]] + s.skip(1) =~= s);
    }
}

/// The lines of a text that is free of the escape character are free of it.
pub proof fn lemma_clean_lines(s: Seq<char>)
    requires
        is_clean(s),
    ensures
        is_clean(open_line(s)),
        forall|r: int| 0 <= r < closed_lines(s).len() ==> is_clean(#[trigger] closed_lines(s)[r]),
        forall|r: int| 0 <= r < lines_of(s).len() ==> is_clean(#[trigger] lines_of(s)[r]),
    decreases s.len(),
{
    if s.len() > 0 {
        let init = s.drop_last();
        let before = closed_lines(init);
        assert(is_clean(init)) by {
            assert forall|i: int| 0 <= i < init.len() implies #[trigger] init[i] != ESCAPE by {
                assert(init[i] == s[i]);
            }
        }
        lemma_clean_lines(init);
        assert(s.last() == s[s.len() - 1]);
        if s.last() == '\n' {
            let line = open_line(init);
            assert(is_clean(strip_cr(line))) by {
                assert forall|i: int| 0 <= i < strip_cr(line).len() implies #[trigger] strip_cr(line)[i] != ESCAPE by {
                    assert(strip_cr(line)[i] == line[i]);
                }
            }
            assert forall|r: int| 0 <= r < closed_lines(s).len() implies is_clean(#[trigger] closed_lines(s)[r]) by {
                if r < before.len() {
                    assert(closed_lines(s)[r] == before[r]);
                }
            }
        } else {
            assert forall|r: int| 0 <= r < closed_lines(s).len() implies is_clean(#[trigger] closed_lines(s)[r]) by {
                assert(closed_lines(s)[r] == before[r]);
            }
        }
    }
    assert forall|r: int| 0 <= r < lines_of(s).len() implies is_clean(#[trigger] lines_of(s)[r]) by {
        if r < closed_lines(s).len() {
            assert(lines_of(s)[r] == closed_lines(s)[r]);
        }
    }
}

/// Colour lies over the text and changes none of it: a painted text that is
/// free of the escape character is, without its styling directives, its lines,
/// each closed by a line feed. (A text whose lines are all empty is not painted
/// but handed back as it is.)
pub proof fn law_paint_is_overlay(out: Seq<char>, text: Seq<char>, stops: Seq<Rgb>)
    requires
        is_gradient_text(out, text, stops),
        is_clean(text),
    ensures
        strip(out) == if max_width(lines_of(text)) == 0 {
            text
        } else {
            unlines(lines_of(text))
        },
{
    let rows = lines_of(text);
    let width = max_width(rows);
    lemma_clean_lines(text);
    if rows.len() == 0 {
        crate::text::lemma_no_lines(text);
    } else if width == 0 {
        lemma_strip_clean(text);
    } else {
        match chosen_palette(stops, width) {
            Some(palette) => {
                let grid = choose|grid: Seq<Seq<Seq<char>>>| grid_fits(grid, rows, palette) && out == join_rows(grid);
                lemma_strip_grid(grid, rows, palette, Seq::empty());
                assert(join_rows(grid) + Seq::<char>::empty() =~= join_rows(grid));
                assert(unlines(rows) + strip(Seq::<char>::empty()) =~= unlines(rows));
            },
            None => {
                lemma_clean_unlines(rows);
                lemma_strip_clean(unlines(rows));
            },
        }
    }
}

/// Painted glyph art is, without its styling directives, the art itself: a text
/// that is free of the escape character and made of lines that each end in a
/// line feed comes back character for character.
pub proof fn law_paint_keeps_block(out: Seq<char>, text: Seq<char>, stops: Seq<Rgb>)
    requires
        is_gradient_text(out, text, stops),
        is_clean(text),
        crate::text::is_block(text),
    ensures
        strip(out) == text,
{
    law_paint_is_overlay(out, text, stops);
    crate::text::lemma_block_lines(text);
}

proof fn lemma_parameters_no_line_feed(code: Seq<char>)
    requires
        all_parameters(code),
    ensures
        has_no_line_feed(code),
{
    assert forall|i: int| 0 <= i < code.len() implies #[trigger] code[i] != '\n' by {
        assert(is_parameter(code[i]));
    }
}

proof fn lemma_cell_no_line_feed(cell: Seq<char>, ch: char, color: Rgb)
    requires
        is_cell(cell, ch, color),
        ch != '\n',
    ensures
        has_no_line_feed(cell),
{
    if cell == seq![ch] {
    } else if cell == styled(truecolor_code(color), ch) {
        lemma_truecolor_parameters(color);
        lemma_parameters_no_line_feed(truecolor_code(color));
    } else if cell == reset_after(ch) {
    } else {
        let code = cell.subrange(2, 4);
        assert(is_basic_code(code));
        assert(all_parameters(code));
        lemma_parameters_no_line_feed(code);
    }
}

proof fn lemma_join_no_line_feed(cells: Seq<Seq<char>>, row: Seq<char>, palette: Seq<Rgb>)
    requires
        row_fits(cells, row, palette),
        has_no_line_feed(row),
    ensures
        has_no_line_feed(join(cells)),
    decreases cells.len(),
{
    if cells.len() > 0 {
        let n = cells.len() - 1;
        let init = cells.drop_last();
        assert forall|i: int| 0 <= i < n implies is_cell(#[trigger] init[i], row.drop_last()[i], palette[i]) by {
            assert(init[i] == cells[i]);
        }
        assert(has_no_line_feed(row.drop_last())) by {
            assert forall|i: int| 0 <= i < row.drop_last().len() implies #[trigger] row.drop_last()[i] != '\n' by {
                assert(row.drop_last()[i] == row[i]);
            }
        }
        lemma_join_no_line_feed(init, row.drop_last(), palette);
        assert(is_cell(cells[n], row[n], palette[n]));
        lemma_cell_no_line_feed(cells[n], row[n], palette[n]);
    }
}

proof fn lemma_grid_line_feeds(grid: Seq<Seq<Seq<char>>>, rows: Seq<Seq<char>>, palette: Seq<Rgb>)
    requires
        grid_fits(grid, rows, palette),
        forall|r: int| 0 <= r < rows.len() ==> has_no_line_feed(#[trigger] rows[r]),
    ensures
        line_feeds(join_rows(grid)) == rows.len(),
        rows.len() > 0 ==> join_rows(grid).len() > 0 && join_rows(grid).last() == '\n',
    decreases grid.len(),
{
    if grid.len() > 0 {
        let n = grid.len() - 1;
        let init = grid.drop_last();
        let rows_init = rows.drop_last();
        assert forall|r: int| 0 <= r < n implies row_fits(#[trigger] init[r], rows_init[r], palette) by {
            assert(init[r] == grid[r]);
            assert(rows_init[r] == rows[r]);
        }
        assert forall|r: int| 0 <= r < rows_init.len() implies has_no_line_feed(#[trigger] rows_init[r]) by {
            assert(rows_init[r] == rows[r]);
        }
        lemma_grid_line_feeds(init, rows_init, palette);
        assert(row_fits(grid[n], rows[n], palette));
        assert(has_no_line_feed(rows[n]));
        lemma_join_no_line_feed(grid[n], rows[n], palette);
        crate::text::lemma_row_line_feed(join(grid[n]));
        crate::text::lemma_line_feeds_concat(join_rows(init), join(grid[n]).push('\n'));
    }
}

/// Painting keeps the rows: a painted text has as many lines as the text, and
/// ends in a line feed where the text does.
pub proof fn law_paint_keeps_rows(out: Seq<char>, text: Seq<char>, stops: Seq<Rgb>)
    requires
        is_gradient_text(out, text, stops),
    ensures
        lines_of(out).len() == lines_of(text).len(),
        text.len() > 0 && text.last() == '\n' ==> out.len() > 0 && out.last() == '\n',
{
    let rows = lines_of(text);
    let width = max_width(rows);
    crate::text::lemma_lines_hold_no_line_feed(text);
    crate::text::lemma_no_lines(text);
    if rows.len() == 0 {
    } else if width == 0 {
    } else {
        match chosen_palette(stops, width) {
            Some(palette) => {
                let grid = choose|grid: Seq<Seq<Seq<char>>>| grid_fits(grid, rows, palette) && out == join_rows(grid);
                lemma_grid_line_feeds(grid, rows, palette);
            },
            None => {
                crate::text::lemma_unlines_line_feeds(rows);
            },
        }
        crate::text::lemma_closed_text(out);
    }
}

proof fn lemma_clean_unlines(rows: Seq<Seq<char>>)
    requires
        forall|r: int| 0 <= r < rows.len() ==> is_clean(#[trigger] rows[r]),
    ensures
        is_clean(unlines(rows)),
    decreases rows.len(),
{
    if rows.len() > 0 {
        let init = rows.drop_last();
        assert forall|r: int| 0 <= r < init.len() implies is_clean(#[trigger] init[r]) by {
            assert(init[r] == rows[r]);
        }
        lemma_clean_unlines(init);
        assert(is_clean(rows[rows.len() - 1]));
    }
}

} // verus!
