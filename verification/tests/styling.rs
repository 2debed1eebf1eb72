use gradient_banner::styling::strip_styling;

#[test]
fn plain_text_is_left_alone() {
    assert_eq!(strip_styling(""), "");
    assert_eq!(strip_styling("hello\nworld\n"), "hello\nworld\n");
}

#[test]
fn directives_are_removed() {
    assert_eq!(strip_styling("\u{1b}[38;2;255;0;10mA\u{1b}[0m"), "A");
    assert_eq!(strip_styling("\u{1b}[91mA\u{1b}[0m\u{1b}[34mB\u{1b}[0m\n"), "AB\n");
    assert_eq!(strip_styling("x\u{1b}[my"), "xy");
}

#[test]
fn what_is_no_directive_stays() {
    assert_eq!(strip_styling("\u{1b}"), "\u{1b}");
    assert_eq!(strip_styling("\u{1b}["), "\u{1b}[");
    assert_eq!(strip_styling("\u{1b}[31"), "\u{1b}[31");
    assert_eq!(strip_styling("\u{1b}[31x"), "\u{1b}[31x");
    assert_eq!(strip_styling("\u{1b}m"), "\u{1b}m");
    assert_eq!(strip_styling("[31m"), "[31m");
}

#[test]
fn directive_after_a_broken_one_is_removed() {
    assert_eq!(strip_styling("\u{1b}[3\u{1b}[0mz"), "\u{1b}[3z");
}
