use gradient_banner::color::Gradient;
use gradient_banner::generate_title;
use gradient_banner::glyph::render_reference;
use gradient_banner::paint::generate_gradient_text;

#[test]
fn without_colours_the_rows_stay_bare() {
    colored::control::set_override(false);
    let gradient = Gradient::fallback();
    assert_eq!(generate_gradient_text("ab\ncd\n", &gradient), "ab\ncd\n");
    assert_eq!(generate_gradient_text("ab\r\ncd", &gradient), "ab\ncd\n");
    let art = render_reference("OK").unwrap();
    assert_eq!(generate_title("OK", Some("1.2"), None, &gradient), format!("{}OK v1.2\n", art));
}
