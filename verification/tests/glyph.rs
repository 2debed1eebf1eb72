use gradient_banner::glyph::{
    render, render_definition, render_reference, render_selected, RenderError, REFERENCE_HEIGHT,
};

fn font(height: usize) -> Vec<u8> {
    let mut out = format!("flf2a$ {} 1 4 0 1\nsample typeface\n", height);
    for code in 32u8..134 {
        let ch = if code < 127 { code as char } else { '#' };
        for row in 0..height {
            if row + 1 == height {
                out.push_str("--@@\n");
            } else {
                out.push_str(&format!("{}{}@\n", ch, ch));
            }
        }
    }
    out.into_bytes()
}

#[test]
fn reference_typeface_renders_ok() {
    let expected = "   ___    _  __\n  / _ \\  | |/ /\n | | | | | ' / \n | |_| | | . \\ \n  \\___/  |_|\\_\\\n               \n";
    assert_eq!(render_reference("OK"), Ok(expected.to_string()));
}

#[test]
fn reference_typeface_renders_ab() {
    let expected = "     _      ____  \n    / \\    | __ ) \n   / _ \\   |  _ \\ \n  / ___ \\  | |_) |\n /_/   \\_\\ |____/ \n                  \n";
    assert_eq!(render_reference("AB"), Ok(expected.to_string()));
}

#[test]
fn reference_art_has_six_rows() {
    assert_eq!(REFERENCE_HEIGHT, 6);
    for text in ["a", "Hello, world", "12 34"] {
        let art = render_reference(text).unwrap();
        assert_eq!(art.lines().count(), 6);
        assert!(art.ends_with('\n'));
    }
}

#[test]
fn reference_typeface_skips_what_it_cannot_show() {
    assert_eq!(render_reference("O\u{20ac}K"), render_reference("OK"));
}

#[test]
fn text_without_glyphs_is_not_rendered() {
    assert_eq!(render_reference(""), Err(RenderError::NoGlyphs));
    assert_eq!(render_reference("\u{20ac}\u{2192}"), Err(RenderError::NoGlyphs));
    assert_eq!(render_definition(&font(2), "\u{20ac}"), Err(RenderError::NoGlyphs));
    assert_eq!(render_definition(&font(2), ""), Err(RenderError::NoGlyphs));
}

#[test]
fn definition_renders_with_its_own_glyphs() {
    assert_eq!(render_definition(&font(2), "Hi"), Ok("HHii\n----\n".to_string()));
    assert_eq!(render_definition(&font(3), "Hi"), Ok("HHii\nHHii\n----\n".to_string()));
}

#[test]
fn single_row_glyphs_lose_one_end_mark() {
    assert_eq!(render_definition(&font(1), "Hi"), Ok("--@--@\n".to_string()));
}

#[test]
fn hard_blanks_become_spaces() {
    assert_eq!(render_definition(&font(2), "a$b"), Ok("aa  bb\n------\n".to_string()));
}

#[test]
fn rows_match_the_declared_height() {
    for height in 1..6usize {
        let art = render_definition(&font(height), "rows").unwrap();
        assert_eq!(art.lines().count(), height);
    }
}

#[test]
fn malformed_definition_is_a_parse_error() {
    assert_eq!(render_definition(&Vec::new(), "Hi"), Err(RenderError::Parse));
    assert_eq!(render_definition(&b"not a typeface".to_vec(), "Hi"), Err(RenderError::Parse));
    assert_eq!(render_definition(&b"flf2a$ 2 1 4 0 1\n".to_vec(), "Hi"), Err(RenderError::Parse));
    let mut cut = font(2);
    cut.truncate(cut.len() - 5);
    assert_eq!(render_definition(&cut, "Hi"), Err(RenderError::Parse));
}

#[test]
fn definition_beyond_ascii_renders() {
    let text = String::from_utf8(font(2)).unwrap();
    let blocks = text.replace("HH@", "\u{2588}\u{2580}@").replace("sample typeface", "caf\u{e9}");
    assert_eq!(
        render_definition(&blocks.into_bytes(), "Hi"),
        Ok("\u{2588}\u{2580}ii\n----\n".to_string())
    );
}

#[test]
fn bytes_that_are_no_text_are_replaced() {
    let mut bytes = font(2);
    bytes[20] = 0xe9;
    assert_eq!(render_definition(&bytes, "Hi"), Ok("HHii\n----\n".to_string()));
    let at = bytes.windows(3).position(|w| w == b"HH@").unwrap();
    bytes[at] = 0xff;
    assert_eq!(render_definition(&bytes, "Hi"), Ok("\u{fffd}Hii\n----\n".to_string()));
}

#[test]
fn end_mark_of_two_bytes_is_cut_off_whole() {
    let text = String::from_utf8(font(2)).unwrap().replace("--@@", "--\u{e9}");
    assert_eq!(render_definition(&text.into_bytes(), "Hi"), Ok("HHii\n----\n".to_string()));
}

#[test]
fn row_that_ends_inside_a_character_is_a_parse_error() {
    let text = String::from_utf8(font(2)).unwrap().replacen("HH@", "HH\u{2588}", 1);
    assert_eq!(render_definition(&text.into_bytes(), "Hi"), Err(RenderError::Parse));
}

#[test]
fn header_with_blanks_and_signs_renders() {
    let text = String::from_utf8(font(2)).unwrap().replacen("flf2a$ 2 1 4 0 1", "  flf2a$ +2 1 4 -1 +1 \t", 1);
    assert_eq!(render_definition(&text.into_bytes(), "Hi"), Ok("HHii\n----\n".to_string()));
}

#[test]
fn header_that_the_parser_refuses_is_a_parse_error() {
    let text = String::from_utf8(font(2)).unwrap().replacen("flf2a$ 2 1 4 0 1", "flf2a$ 2 x 4 0 1", 1);
    assert_eq!(render_definition(&text.into_bytes(), "Hi"), Err(RenderError::Parse));
}

#[test]
fn ragged_tagged_glyphs_are_a_parse_error() {
    let mut bytes = font(2);
    bytes.extend_from_slice(b"0x0100 tagged\nAA@\n");
    assert_eq!(render_definition(&bytes, "Hi"), Err(RenderError::Parse));
}

#[test]
fn tagged_glyphs_are_rendered() {
    let mut bytes = font(2);
    bytes.extend_from_slice(b"0x0100 tagged\n<>@\n==@@\n");
    assert_eq!(render_definition(&bytes, "H\u{100}"), Ok("HH<>\n--==\n".to_string()));
}

#[test]
fn missing_payload_is_a_decompression_error() {
    assert_eq!(render_selected(None, "Hi"), Err(RenderError::Decompression));
    assert_eq!(render_selected(Some(&font(2)), "Hi"), Ok("HHii\n----\n".to_string()));
}

#[test]
fn render_takes_the_first_typeface_that_can() {
    assert_eq!(render(Some(&font(2)), "Hi"), Some("HHii\n----\n".to_string()));
    assert_eq!(render(None, "OK"), render_reference("OK").ok());
    assert_eq!(render(Some(&b"broken".to_vec()), "OK"), render_reference("OK").ok());
    assert_eq!(render(Some(&font(2)), "\u{20ac}"), None);
    assert_eq!(render(None, ""), None);
}
