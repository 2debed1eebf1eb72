use gradient_banner::color::{Gradient, Rgb};
use gradient_banner::paint::{choose_palette, generate_gradient_text, paint_rows, plain_rows};
use gradient_banner::styling::strip_styling;

fn rgb(r: u8, g: u8, b: u8) -> Rgb {
    Rgb { r, g, b }
}

fn red_to_blue() -> Gradient {
    Gradient::from_stops(vec![rgb(255, 0, 0), rgb(0, 0, 255)])
}

/// The cells of a painted row, and the style code of each.
fn cells(row: &str) -> Vec<(String, char)> {
    let mut out = Vec::new();
    let mut rest = row;
    while !rest.is_empty() {
        let after = rest.strip_prefix("\u{1b}[").expect("a cell starts with a directive");
        let end = after.find('m').expect("a directive ends in m");
        let code = after[..end].to_string();
        let mut chars = after[end + 1..].chars();
        let ch = chars.next().expect("a cell shows a character");
        rest = chars.as_str().strip_prefix("\u{1b}[0m").expect("a cell ends in a reset");
        out.push((code, ch));
    }
    out
}

fn is_basic(code: &str) -> bool {
    let bytes = code.as_bytes();
    bytes.len() == 2 && (bytes[0] == b'3' || bytes[0] == b'9') && (b'0'..=b'7').contains(&bytes[1])
}

fn truecolor(color: Rgb) -> String {
    format!("38;2;{};{};{}", color.r, color.g, color.b)
}

#[test]
fn palette_runs_from_first_stop_to_last() {
    let palette = choose_palette(&red_to_blue(), 2).unwrap();
    assert_eq!(palette, vec![rgb(255, 0, 0), rgb(128, 0, 128), rgb(0, 0, 255)]);
}

#[test]
fn palette_has_one_more_colour_than_the_width() {
    for width in [1usize, 2, 7, 40] {
        let palette = choose_palette(&Gradient::fallback(), width).unwrap();
        assert_eq!(palette.len(), width + 1);
        assert_eq!(palette[0], rgb(0xff, 0x6b, 0x6b));
        assert_eq!(palette[width], rgb(0x4e, 0xcd, 0xc4));
    }
}

#[test]
fn palette_passes_through_every_stop() {
    let gradient = Gradient::from_stops(vec![rgb(0, 0, 0), rgb(100, 200, 50), rgb(255, 255, 255)]);
    let palette = choose_palette(&gradient, 4).unwrap();
    assert_eq!(palette[0], rgb(0, 0, 0));
    assert_eq!(palette[1], rgb(50, 100, 25));
    assert_eq!(palette[2], rgb(100, 200, 50));
    assert_eq!(palette[4], rgb(255, 255, 255));
}

#[test]
fn empty_text_paints_to_nothing() {
    assert_eq!(generate_gradient_text("", &red_to_blue()), "");
}

#[test]
fn text_of_empty_lines_comes_back_as_it_is() {
    assert_eq!(generate_gradient_text("\n", &red_to_blue()), "\n");
    assert_eq!(generate_gradient_text("\n\n\n", &red_to_blue()), "\n\n\n");
    assert_eq!(generate_gradient_text("\r\n", &red_to_blue()), "\r\n");
}

#[test]
fn painting_keeps_the_text() {
    colored::control::set_override(true);
    for text in ["ab\ncd\n", "x", "one\n\nthree\n", " _  \n| | \n", "a\u{e9}\u{20ac}\n"] {
        let painted = generate_gradient_text(text, &red_to_blue());
        let expected: String = text.lines().map(|line| format!("{}\n", line)).collect();
        assert_eq!(strip_styling(&painted), expected, "{:?}", text);
    }
}

#[test]
fn every_character_gets_a_cell_of_its_own() {
    colored::control::set_override(true);
    let painted = generate_gradient_text("ab\nc\n", &red_to_blue());
    assert_ne!(painted, "ab\nc\n");
    let rows: Vec<&str> = painted.lines().collect();
    assert_eq!(rows.len(), 2);
    let first = cells(rows[0]);
    let second = cells(rows[1]);
    assert_eq!(first.iter().map(|cell| cell.1).collect::<String>(), "ab");
    assert_eq!(second.iter().map(|cell| cell.1).collect::<String>(), "c");
    let palette = choose_palette(&red_to_blue(), 2).unwrap();
    for (i, (code, _)) in first.iter().enumerate() {
        assert!(*code == truecolor(palette[i]) || is_basic(code), "{}", code);
    }
    assert!(second[0].0 == truecolor(palette[0]) || is_basic(&second[0].0));
    assert_eq!(first[0].0, second[0].0);
}

#[test]
fn colour_goes_by_the_widest_row() {
    colored::control::set_override(true);
    let gradient = Gradient::from_stops(vec![rgb(0, 0, 0), rgb(250, 250, 250)]);
    let painted = generate_gradient_text("ab\nabcde\n", &gradient);
    let rows: Vec<&str> = painted.lines().collect();
    let short = cells(rows[0]);
    let long = cells(rows[1]);
    assert_eq!(short.len(), 2);
    assert_eq!(long.len(), 5);
    assert_eq!(short[0].0, long[0].0);
    assert_eq!(short[1].0, long[1].0);
    if long[0].0.starts_with("38;2;") {
        let expected: Vec<String> = (0..5).map(|i| truecolor(rgb(50 * i, 50 * i, 50 * i))).collect();
        assert_eq!(long.iter().map(|cell| cell.0.clone()).collect::<Vec<String>>(), expected);
    }
}

#[test]
fn width_counts_bytes_and_place_counts_characters() {
    colored::control::set_override(true);
    let gradient = Gradient::from_stops(vec![rgb(0, 0, 0), rgb(240, 240, 240)]);
    let painted = generate_gradient_text("\u{20ac}\u{20ac}\n", &gradient);
    let row = cells(painted.lines().next().unwrap());
    assert_eq!(row.len(), 2);
    if row[0].0.starts_with("38;2;") {
        assert_eq!(row[0].0, truecolor(rgb(0, 0, 0)));
        assert_eq!(row[1].0, truecolor(rgb(40, 40, 40)));
    }
}

#[test]
fn painting_without_colours_leaves_the_rows() {
    let painted = generate_gradient_text("ab\r\ncd", &red_to_blue());
    assert_eq!(strip_styling(&painted), "ab\ncd\n");
}

#[test]
fn plain_rows_close_every_row() {
    let rows = vec![vec!['a', 'b'], vec![], vec!['c']];
    assert_eq!(plain_rows(&rows), vec!['a', 'b', '\n', '\n', 'c', '\n']);
    assert_eq!(plain_rows(&Vec::new()), Vec::<char>::new());
}

#[test]
fn paint_rows_paints_by_column() {
    colored::control::set_override(true);
    let palette = vec![rgb(1, 2, 3), rgb(40, 50, 60), rgb(255, 255, 255)];
    let rows = vec![vec!['x', 'y', 'z'], vec!['w']];
    let painted: String = paint_rows(&rows, &palette).iter().collect();
    assert_eq!(strip_styling(&painted), "xyz\nw\n");
    let lines: Vec<&str> = painted.lines().collect();
    let first = cells(lines[0]);
    let second = cells(lines[1]);
    assert_eq!(first.len(), 3);
    assert_eq!(second.len(), 1);
    assert_eq!(first[0].0, second[0].0);
    if first[0].0.starts_with("38;2;") {
        assert_eq!(first[0].0, "38;2;1;2;3");
        assert_eq!(first[1].0, "38;2;40;50;60");
        assert_eq!(first[2].0, "38;2;255;255;255");
    }
}

#[test]
fn cloned_gradient_has_the_same_stops() {
    let gradient = red_to_blue();
    assert_eq!(gradient.clone().stops(), gradient.stops());
}

#[test]
fn painting_keeps_the_number_of_lines() {
    colored::control::set_override(true);
    for text in ["", "a", "a\n", "a\nb", "\n\n", "a\n\nb\n", "ab\r\ncd\r\n"] {
        let painted = generate_gradient_text(text, &red_to_blue());
        assert_eq!(painted.lines().count(), text.lines().count(), "{:?}", text);
    }
}
