use gradient_banner::color::{Gradient, Rgb};
use gradient_banner::generate_title;
use gradient_banner::glyph::render_reference;
use gradient_banner::styling::strip_styling;
use gradient_banner::title::compose_title;

fn gradient() -> Gradient {
    Gradient::from_stops(vec![
        Rgb { r: 250, g: 10, b: 10 },
        Rgb { r: 10, g: 250, b: 10 },
        Rgb { r: 10, g: 10, b: 250 },
    ])
}

fn font() -> Vec<u8> {
    let mut out = String::from("flf2a$ 2 1 4 0 0\n");
    for code in 32u8..134 {
        let ch = if code < 127 { code as char } else { '#' };
        out.push_str(&format!("{}{}@\n", ch, ch));
        out.push_str("__@@\n");
    }
    out.into_bytes()
}

#[test]
fn compose_with_version() {
    assert_eq!(compose_title(Some("ART\n".to_string()), "AB", Some("1.0")), "ART\nAB v1.0\n");
}

#[test]
fn compose_without_version() {
    assert_eq!(compose_title(Some("ART\n".to_string()), "AB", None), "ART\n\n");
}

#[test]
fn compose_without_art_is_the_text() {
    assert_eq!(compose_title(None, "AB", None), "AB\n");
    assert_eq!(compose_title(None, "AB", Some("1.0")), "AB\n");
    assert_eq!(compose_title(None, "", None), "\n");
}

#[test]
fn title_without_version_ends_in_an_empty_line() {
    colored::control::set_override(true);
    let title = generate_title("OK", None, None, &gradient());
    assert!(!title.is_empty());
    assert!(title.ends_with("\n\n"));
    let art = render_reference("OK").unwrap();
    assert_eq!(strip_styling(&title), format!("{}\n", art));
    assert_ne!(title, format!("{}\n", art));
    assert_eq!(title.lines().count(), 7);
}

#[test]
fn title_with_version_ends_in_text_and_version() {
    let title = generate_title("AB", Some("1.0"), None, &gradient());
    assert!(title.ends_with("\nAB v1.0\n"));
    let art = render_reference("AB").unwrap();
    assert_eq!(strip_styling(&title), format!("{}AB v1.0\n", art));
}

#[test]
fn title_twice_has_the_same_shape() {
    let first = generate_title("AB", Some("1.0"), None, &gradient());
    let second = generate_title("AB", Some("1.0"), None, &Gradient::fallback());
    assert_eq!(first.lines().count(), second.lines().count());
    assert_eq!(first.lines().last(), Some("AB v1.0"));
    assert_eq!(second.lines().last(), Some("AB v1.0"));
    assert_eq!(strip_styling(&first), strip_styling(&second));
}

#[test]
fn title_uses_the_typeface_that_was_picked() {
    let title = generate_title("Hi", Some("2"), Some(&font()), &gradient());
    assert_eq!(strip_styling(&title), "HHii\n____\nHi v2\n");
    assert_eq!(title.lines().count(), 3);
}

#[test]
fn failed_payload_falls_back_to_the_reference_typeface() {
    let art = render_reference("OK").unwrap();
    let title = generate_title("OK", None, None, &gradient());
    assert_eq!(strip_styling(&title), format!("{}\n", art));
}

#[test]
fn broken_definition_falls_back_to_the_reference_typeface() {
    let art = render_reference("OK").unwrap();
    let title = generate_title("OK", Some("3"), Some(&b"\x1f\x8b garbage".to_vec()), &gradient());
    assert_eq!(strip_styling(&title), format!("{}OK v3\n", art));
    let mut cut = font();
    cut.truncate(100);
    let title = generate_title("OK", Some("3"), Some(&cut), &gradient());
    assert_eq!(strip_styling(&title), format!("{}OK v3\n", art));
}

#[test]
fn text_that_no_typeface_renders_is_the_title() {
    assert_eq!(generate_title("\u{20ac}\u{2192}", None, None, &gradient()), "\u{20ac}\u{2192}\n");
    assert_eq!(generate_title("\u{20ac}\u{2192}", Some("1.0"), None, &gradient()), "\u{20ac}\u{2192}\n");
    assert_eq!(generate_title("\u{20ac}", Some("1.0"), Some(&font()), &gradient()), "\u{20ac}\n");
    assert_eq!(generate_title("", None, None, &gradient()), "\n");
}

#[test]
fn title_ends_in_a_line_feed() {
    for text in ["a", "Hello", "\u{20ac}", "", "x y"] {
        for version in [None, Some("0.1")] {
            let title = generate_title(text, version, None, &gradient());
            assert!(!title.is_empty());
            assert!(title.ends_with('\n'));
        }
    }
}

fn typeface(height: usize) -> Vec<u8> {
    let mut out = format!("flf2a$ {} 1 4 0 0\n", height);
    for _ in 32u8..134 {
        for row in 0..height {
            out.push_str(if row + 1 == height { "\u{2588}\u{2588}@@\n" } else { "\u{2580}\u{2584}@\n" });
        }
    }
    out.into_bytes()
}

#[test]
fn title_has_the_rows_of_the_typeface_and_one_line() {
    colored::control::set_override(true);
    for height in 2..6usize {
        let title = generate_title("OK", None, Some(&typeface(height)), &gradient());
        assert_eq!(title.matches('\n').count(), height + 1);
        assert_eq!(title.lines().count(), height + 1);
        assert!(title.ends_with("\n\n"));
    }
    let title = generate_title("OK", None, None, &gradient());
    assert_eq!(title.matches('\n').count(), 7);
    let title = generate_title("OK", Some("1.0"), None, &gradient());
    assert_eq!(title.lines().count(), 7);
}

#[test]
fn title_uses_a_typeface_beyond_ascii() {
    let title = generate_title("ab", Some("9"), Some(&typeface(2)), &gradient());
    assert_eq!(
        strip_styling(&title),
        "\u{2580}\u{2584}\u{2580}\u{2584}\n\u{2588}\u{2588}\u{2588}\u{2588}\nab v9\n"
    );
}

#[test]
fn title_of_a_text_with_line_feeds_counts_them() {
    let title = generate_title("a\nb", Some("1\n2"), None, &gradient());
    assert_eq!(title.lines().count(), 6 + 3);
    let title = generate_title("\u{20ac}\n\u{20ac}", Some("1"), None, &gradient());
    assert_eq!(title, "\u{20ac}\n\u{20ac}\n");
    assert_eq!(title.lines().count(), 2);
}
